//! The client-facing event stream: each event becomes a record with its name and its
//! JSON form.
use vstd::prelude::*;
use vstd::string::*;
use crate::stream::{BlockDelta, BlockStart, BlockView, DeltaView, EventView, StreamEvent};
use crate::text::{decimal, decimal_text};

verus! {

/// The JSON string literal of a text, quotes and escapes included.
pub uninterp spec fn json_quoted(s: Seq<char>) -> Seq<char>;

/// Relies on serde_json::to_string on a string slice, which writes it as a JSON
/// string literal; it fails only where the writer fails, which a `String` never does.
#[verifier::external_body]
pub(crate) fn json_quote(s: &str) -> (r: String)
    ensures
        r@ == json_quoted(s@),
{
    serde_json::to_string(s).unwrap_or_default()
}

/// The name of the record that carries an event.
pub open spec fn event_name(e: EventView) -> Seq<char> {
    match e {
        EventView::MessageStart { .. } => "message_start"@,
        EventView::BlockStart { .. } => "content_block_start"@,
        EventView::BlockDelta { .. } => "content_block_delta"@,
        EventView::BlockStop { .. } => "content_block_stop"@,
        EventView::MessageDelta { .. } => "message_delta"@,
        EventView::MessageStop => "message_stop"@,
        EventView::Error { .. } => "error"@,
    }
}

pub open spec fn block_json(b: BlockView) -> Seq<char> {
    match b {
        BlockView::Thinking => "{\"type\":\"thinking\",\"thinking\":\"\"}"@,
        BlockView::Text => "{\"type\":\"text\",\"text\":\"\"}"@,
        BlockView::ToolUse { id, name } => "{\"type\":\"tool_use\",\"id\":"@ + json_quoted(id)
            + ",\"name\":"@ + json_quoted(name) + ",\"input\":{}}"@,
    }
}

pub open spec fn delta_json(d: DeltaView) -> Seq<char> {
    match d {
        DeltaView::Thinking(t) => "{\"type\":\"thinking_delta\",\"thinking\":"@ + json_quoted(t)
            + "}"@,
        DeltaView::Text(t) => "{\"type\":\"text_delta\",\"text\":"@ + json_quoted(t) + "}"@,
        DeltaView::InputJson(t) => "{\"type\":\"input_json_delta\",\"partial_json\":"@
            + json_quoted(t) + "}"@,
    }
}

pub open spec fn usage_json(u: Option<u64>) -> Seq<char> {
    match u {
        Some(n) => "{\"output_tokens\":"@ + decimal(n as nat) + "}"@,
        None => "null"@,
    }
}

/// The JSON form of an event.
pub open spec fn event_json(e: EventView) -> Seq<char> {
    match e {
        EventView::MessageStart { id, model } => "{\"type\":\"message_start\",\"message\":{\"id\":"@
            + json_quoted(id)
            + ",\"type\":\"message\",\"role\":\"assistant\",\"content\":[],\"model\":"@
            + json_quoted(model)
            + ",\"stop_reason\":null,\"stop_sequence\":null,\"usage\":{\"input_tokens\":0,\"output_tokens\":0}}}"@,
        EventView::BlockStart { index, block } => "{\"type\":\"content_block_start\",\"index\":"@
            + decimal(index) + ",\"content_block\":"@ + block_json(block) + "}"@,
        EventView::BlockDelta { index, delta } => "{\"type\":\"content_block_delta\",\"index\":"@
            + decimal(index) + ",\"delta\":"@ + delta_json(delta) + "}"@,
        EventView::BlockStop { index } => "{\"type\":\"content_block_stop\",\"index\":"@
            + decimal(index) + "}"@,
        EventView::MessageDelta { stop_reason, output_tokens } =>
            "{\"type\":\"message_delta\",\"delta\":{\"stop_reason\":"@ + json_quoted(stop_reason)
            + ",\"stop_sequence\":null},\"usage\":"@ + usage_json(output_tokens) + "}"@,
        EventView::MessageStop => "{\"type\":\"message_stop\"}"@,
        EventView::Error { message } =>
            "{\"type\":\"error\",\"error\":{\"type\":\"stream_error\",\"message\":"@
            + json_quoted(message) + "}}"@,
    }
}

/// The record for an event: its name line, its data line, and a blank line.
pub open spec fn event_record(e: EventView) -> Seq<char> {
    "event: "@ + event_name(e) + "\ndata: "@ + event_json(e) + "\n\n"@
}

fn quote_onto(out: &mut String, s: &String)
    ensures
        final(out)@ == old(out)@ + json_quoted(s@),
{
    let q = json_quote(s.as_str());
    out.append(q.as_str());
}

fn number_onto(out: &mut String, n: u64)
    ensures
        final(out)@ == old(out)@ + decimal(n as nat),
{
    let d = decimal_text(n);
    out.append(d.as_str());
}

fn block_onto(out: &mut String, b: &BlockStart)
    ensures
        final(out)@ == old(out)@ + block_json(b@),
{
    match b {
        BlockStart::Thinking => out.append("{\"type\":\"thinking\",\"thinking\":\"\"}"),
        BlockStart::Text => out.append("{\"type\":\"text\",\"text\":\"\"}"),
        BlockStart::ToolUse { id, name } => {
            out.append("{\"type\":\"tool_use\",\"id\":");
            quote_onto(out, id);
            out.append(",\"name\":");
            quote_onto(out, name);
            out.append(",\"input\":{}}");
        },
    }
    assert(out@ =~= old(out)@ + block_json(b@));
}

fn delta_onto(out: &mut String, d: &BlockDelta)
    ensures
        final(out)@ == old(out)@ + delta_json(d@),
{
    match d {
        BlockDelta::Thinking(t) => {
            out.append("{\"type\":\"thinking_delta\",\"thinking\":");
            quote_onto(out, t);
        },
        BlockDelta::Text(t) => {
            out.append("{\"type\":\"text_delta\",\"text\":");
            quote_onto(out, t);
        },
        BlockDelta::InputJson(t) => {
            out.append("{\"type\":\"input_json_delta\",\"partial_json\":");
            quote_onto(out, t);
        },
    }
    out.append("}");
    assert(out@ =~= old(out)@ + delta_json(d@));
}

fn json_onto(out: &mut String, e: &StreamEvent)
    ensures
        final(out)@ == old(out)@ + event_json(e@),
{
    match e {
        StreamEvent::MessageStart { id, model } => {
            out.append("{\"type\":\"message_start\",\"message\":{\"id\":");
            quote_onto(out, id);
            out.append(",\"type\":\"message\",\"role\":\"assistant\",\"content\":[],\"model\":");
            quote_onto(out, model);
            out.append(
                ",\"stop_reason\":null,\"stop_sequence\":null,\"usage\":{\"input_tokens\":0,\"output_tokens\":0}}}",
            );
        },
        StreamEvent::ContentBlockStart { index, block } => {
            out.append("{\"type\":\"content_block_start\",\"index\":");
            number_onto(out, *index);
            out.append(",\"content_block\":");
            block_onto(out, block);
            out.append("}");
        },
        StreamEvent::ContentBlockDelta { index, delta } => {
            out.append("{\"type\":\"content_block_delta\",\"index\":");
            number_onto(out, *index);
            out.append(",\"delta\":");
            delta_onto(out, delta);
            out.append("}");
        },
        StreamEvent::ContentBlockStop { index } => {
            out.append("{\"type\":\"content_block_stop\",\"index\":");
            number_onto(out, *index);
            out.append("}");
        },
        StreamEvent::MessageDelta { stop_reason, output_tokens } => {
            out.append("{\"type\":\"message_delta\",\"delta\":{\"stop_reason\":");
            quote_onto(out, stop_reason);
            out.append(",\"stop_sequence\":null},\"usage\":");
            match output_tokens {
                Some(n) => {
                    out.append("{\"output_tokens\":");
                    number_onto(out, *n);
                    out.append("}");
                },
                None => out.append("null"),
            }
            out.append("}");
        },
        StreamEvent::MessageStop => out.append("{\"type\":\"message_stop\"}"),
        StreamEvent::Error { message } => {
            out.append("{\"type\":\"error\",\"error\":{\"type\":\"stream_error\",\"message\":");
            quote_onto(out, message);
            out.append("}}");
        },
    }
    assert(out@ =~= old(out)@ + event_json(e@));
}

fn name_of(e: &StreamEvent) -> (r: &'static str)
    ensures
        r@ == event_name(e@),
{
    match e {
        StreamEvent::MessageStart { .. } => "message_start",
        StreamEvent::ContentBlockStart { .. } => "content_block_start",
        StreamEvent::ContentBlockDelta { .. } => "content_block_delta",
        StreamEvent::ContentBlockStop { .. } => "content_block_stop",
        StreamEvent::MessageDelta { .. } => "message_delta",
        StreamEvent::MessageStop => "message_stop",
        StreamEvent::Error { .. } => "error",
    }
}

/// Writes one event as a record of the client-facing stream.
pub fn encode_event(e: &StreamEvent) -> (r: String)
    ensures
        r@ == event_record(e@),
{
    let mut out = String::from_str("event: ");
    out.append(name_of(e));
    out.append("\ndata: ");
    json_onto(&mut out, e);
    out.append("\n\n");
    assert(out@ =~= event_record(e@));
    out
}

} // verus!
