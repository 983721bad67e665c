use anthropic_proxy::encode::encode_event;
use anthropic_proxy::sse::{is_done_payload, EventFramer};
use anthropic_proxy::stream::{
    transport_error_event, BlockDelta, BlockStart, ChoiceDelta, ChunkChoice, StreamChunk,
    StreamEvent, StreamState, TokenUsage, ToolCallDelta,
};

fn s(x: &str) -> String {
    x.to_string()
}

fn chunk(delta: ChoiceDelta, finish: Option<&str>, usage: Option<TokenUsage>) -> StreamChunk {
    StreamChunk {
        id: s("chatcmpl-1"),
        model: s("m1"),
        choices: vec![ChunkChoice { delta, finish_reason: finish.map(s) }],
        usage,
    }
}

fn text_delta(t: &str) -> ChoiceDelta {
    ChoiceDelta { reasoning: None, content: Some(s(t)), tool_calls: vec![] }
}

fn empty_delta() -> ChoiceDelta {
    ChoiceDelta { reasoning: None, content: None, tool_calls: vec![] }
}

fn run(chunks: &[StreamChunk]) -> Vec<StreamEvent> {
    let mut st = StreamState::new();
    let mut out = Vec::new();
    for c in chunks {
        assert!(st.has_room_for(c));
        out.extend(st.on_chunk(c));
    }
    out
}

#[test]
fn single_text_chunk_with_stop() {
    let events = run(&[chunk(text_delta("Hi"), Some("stop"), None)]);
    assert_eq!(
        events,
        vec![
            StreamEvent::MessageStart { id: s("chatcmpl-1"), model: s("m1") },
            StreamEvent::ContentBlockStart { index: 0, block: BlockStart::Text },
            StreamEvent::ContentBlockDelta { index: 0, delta: BlockDelta::Text(s("Hi")) },
            StreamEvent::ContentBlockStop { index: 0 },
            StreamEvent::MessageDelta { stop_reason: s("end_turn"), output_tokens: None },
        ]
    );
}

#[test]
fn tool_call_across_two_chunks() {
    let first = ChoiceDelta {
        reasoning: None,
        content: None,
        tool_calls: vec![ToolCallDelta { id: Some(s("t1")), name: Some(s("lookup")), arguments: None }],
    };
    let second = ChoiceDelta {
        reasoning: None,
        content: None,
        tool_calls: vec![ToolCallDelta { id: None, name: None, arguments: Some(s("{\"x\":1}")) }],
    };
    let usage = TokenUsage { prompt_tokens: 5, completion_tokens: 7 };
    let events = run(&[chunk(first, None, None), chunk(second, Some("tool_calls"), Some(usage))]);
    assert_eq!(
        events,
        vec![
            StreamEvent::MessageStart { id: s("chatcmpl-1"), model: s("m1") },
            StreamEvent::ContentBlockStart {
                index: 0,
                block: BlockStart::ToolUse { id: s("t1"), name: s("lookup") },
            },
            StreamEvent::ContentBlockDelta { index: 0, delta: BlockDelta::InputJson(s("{\"x\":1}")) },
            StreamEvent::ContentBlockStop { index: 0 },
            StreamEvent::MessageDelta { stop_reason: s("tool_use"), output_tokens: Some(7) },
        ]
    );
}

#[test]
fn blocks_open_and_close_in_index_order() {
    let reasoning = ChoiceDelta { reasoning: Some(s("hmm")), content: None, tool_calls: vec![] };
    let calls = ChoiceDelta {
        reasoning: None,
        content: None,
        tool_calls: vec![
            ToolCallDelta { id: Some(s("a")), name: Some(s("f")), arguments: Some(s("{")) },
            ToolCallDelta { id: Some(s("b")), name: Some(s("g")), arguments: Some(s("}")) },
        ],
    };
    let events = run(&[
        chunk(reasoning, None, None),
        chunk(text_delta("x"), None, None),
        chunk(text_delta("y"), None, None),
        chunk(calls, None, None),
        chunk(empty_delta(), Some("length"), None),
    ]);
    let starts: Vec<u64> = events
        .iter()
        .filter_map(|e| match e {
            StreamEvent::ContentBlockStart { index, .. } => Some(*index),
            _ => None,
        })
        .collect();
    let stops: Vec<u64> = events
        .iter()
        .filter_map(|e| match e {
            StreamEvent::ContentBlockStop { index } => Some(*index),
            _ => None,
        })
        .collect();
    assert_eq!(starts, vec![0, 1, 2, 3]);
    assert_eq!(stops, vec![0, 1, 2, 3]);
    assert_eq!(
        events.last(),
        Some(&StreamEvent::MessageDelta { stop_reason: s("max_tokens"), output_tokens: None })
    );
}

#[test]
fn text_after_reasoning_closes_the_thinking_block() {
    let both = ChoiceDelta { reasoning: Some(s("r")), content: Some(s("t")), tool_calls: vec![] };
    let events = run(&[chunk(both, None, None)]);
    assert_eq!(
        events,
        vec![
            StreamEvent::MessageStart { id: s("chatcmpl-1"), model: s("m1") },
            StreamEvent::ContentBlockStart { index: 0, block: BlockStart::Thinking },
            StreamEvent::ContentBlockDelta { index: 0, delta: BlockDelta::Thinking(s("r")) },
            StreamEvent::ContentBlockStop { index: 0 },
            StreamEvent::ContentBlockStart { index: 1, block: BlockStart::Text },
            StreamEvent::ContentBlockDelta { index: 1, delta: BlockDelta::Text(s("t")) },
        ]
    );
}

#[test]
fn empty_text_and_empty_choices_give_no_block() {
    let mut st = StreamState::new();
    let none = StreamChunk { id: s(""), model: s(""), choices: vec![], usage: None };
    assert!(st.on_chunk(&none).is_empty());
    let events = st.on_chunk(&chunk(text_delta(""), None, None));
    assert_eq!(events, vec![StreamEvent::MessageStart { id: s("chatcmpl-1"), model: s("m1") }]);
    assert!(st.on_chunk(&chunk(text_delta(""), None, None)).is_empty());
}

#[test]
fn first_nonempty_ids_are_kept() {
    let mut st = StreamState::new();
    let blank = StreamChunk { id: s(""), model: s(""), choices: vec![], usage: None };
    st.on_chunk(&blank);
    let later = StreamChunk {
        id: s("id2"),
        model: s("m2"),
        choices: vec![ChunkChoice { delta: text_delta("a"), finish_reason: None }],
        usage: None,
    };
    let events = st.on_chunk(&later);
    assert_eq!(events[0], StreamEvent::MessageStart { id: s("id2"), model: s("m2") });
}

#[test]
fn done_sentinel_stops_the_message() {
    let st = StreamState::new();
    assert_eq!(st.on_done(), vec![StreamEvent::MessageStop]);
    assert!(is_done_payload(b"[DONE]"));
    assert!(is_done_payload(b"  [DONE]\r"));
    assert!(!is_done_payload(b"[DONE"));
    assert!(!is_done_payload(b"{\"id\":1}"));
}

#[test]
fn transport_error_becomes_an_error_event() {
    let e = transport_error_event("connection reset");
    assert_eq!(e, StreamEvent::Error { message: s("Stream error: connection reset") });
}

fn feed_all(parts: &[&[u8]]) -> (Vec<Vec<u8>>, EventFramer) {
    let mut f = EventFramer::new();
    let mut out = Vec::new();
    for p in parts {
        out.extend(f.feed(p));
    }
    (out, f)
}

#[test]
fn framer_extracts_data_lines_of_complete_records() {
    let input: &[u8] = b"data: {\"a\":1}\n\n: comment\nevent: x\ndata: two\r\n\ndata: [DONE]\n\ndata: par";
    let (out, mut f) = feed_all(&[input]);
    assert_eq!(out, vec![b"{\"a\":1}".to_vec(), b"two".to_vec(), b"[DONE]".to_vec()]);
    let rest = f.feed(b"tial\n\n");
    assert_eq!(rest, vec![b"partial".to_vec()]);
}

#[test]
fn split_read_gives_the_same_payloads() {
    let whole: &[u8] = b"data: {\"choices\":[]}\n\ndata: [DONE]\n\n";
    for cut in 0..whole.len() {
        let (a, _) = feed_all(&[&whole[..cut], &whole[cut..]]);
        let (b, _) = feed_all(&[whole]);
        assert_eq!(a, b);
    }
}

#[test]
fn encoded_records_carry_name_and_json() {
    assert_eq!(
        encode_event(&StreamEvent::ContentBlockDelta { index: 12, delta: BlockDelta::Text(s("a\"b\n")) }),
        "event: content_block_delta\ndata: {\"type\":\"content_block_delta\",\"index\":12,\"delta\":{\"type\":\"text_delta\",\"text\":\"a\\\"b\\n\"}}\n\n"
    );
    assert_eq!(
        encode_event(&StreamEvent::MessageStop),
        "event: message_stop\ndata: {\"type\":\"message_stop\"}\n\n"
    );
    assert_eq!(
        encode_event(&StreamEvent::MessageDelta { stop_reason: s("end_turn"), output_tokens: Some(42) }),
        "event: message_delta\ndata: {\"type\":\"message_delta\",\"delta\":{\"stop_reason\":\"end_turn\",\"stop_sequence\":null},\"usage\":{\"output_tokens\":42}}\n\n"
    );
    assert_eq!(
        encode_event(&StreamEvent::ContentBlockStart {
            index: 0,
            block: BlockStart::ToolUse { id: s("t1"), name: s("lookup") },
        }),
        "event: content_block_start\ndata: {\"type\":\"content_block_start\",\"index\":0,\"content_block\":{\"type\":\"tool_use\",\"id\":\"t1\",\"name\":\"lookup\",\"input\":{}}}\n\n"
    );
    assert_eq!(
        encode_event(&StreamEvent::ContentBlockStop { index: 3 }),
        "event: content_block_stop\ndata: {\"type\":\"content_block_stop\",\"index\":3}\n\n"
    );
}
