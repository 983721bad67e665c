//! Conversion between the two wire formats.
use vstd::prelude::*;
use vstd::string::*;
use crate::config::Config;
use crate::error::{ProxyError, ProxyResult};
use crate::json::{clean, clean_schema, is_json_text, parses_as_json, JsonView};
use crate::models::{
    AnthropicRequest, AnthropicResponse, ContentBlock, ContentPart, ImageSource, Message,
    MessageContent, OpenAIContent, OpenAIMessage, OpenAIRequest, OpenAIResponse, OpenAITool,
    ResponseContent, ResponseMessage, SystemPrompt, ToolCall, ToolDefinition, Usage,
};
use crate::text::same_text;

verus! {

/// The stop reason that a backend finish reason stands for.
pub open spec fn stop_reason_of(finish: Seq<char>) -> Seq<char> {
    if finish == "tool_calls"@ {
        "tool_use"@
    } else if finish == "stop"@ {
        "end_turn"@
    } else if finish == "length"@ {
        "max_tokens"@
    } else {
        "end_turn"@
    }
}

/// Maps a backend finish reason to a stop reason; an unknown one counts as the end of a turn.
pub fn map_stop_reason(finish_reason: Option<&str>) -> (r: Option<String>)
    ensures
        r is None <==> finish_reason is None,
        finish_reason is Some ==> r.unwrap()@ == stop_reason_of(finish_reason.unwrap()@),
{
    match finish_reason {
        None => None,
        Some(f) => Some(stop_reason_text(f)),
    }
}

pub fn stop_reason_text(finish: &str) -> (r: String)
    ensures
        r@ == stop_reason_of(finish@),
{
    if same_text(finish, "tool_calls") {
        String::from_str("tool_use")
    } else if same_text(finish, "stop") {
        String::from_str("end_turn")
    } else if same_text(finish, "length") {
        String::from_str("max_tokens")
    } else {
        String::from_str("end_turn")
    }
}

pub ghost enum PartView {
    Text(Seq<char>),
    Image(Seq<char>),
}

pub ghost enum ContentView {
    Text(Seq<char>),
    Parts(Seq<PartView>),
}

pub ghost struct CallView {
    pub id: Seq<char>,
    pub name: Seq<char>,
    pub arguments: Seq<char>,
}

pub ghost struct MsgView {
    pub role: Seq<char>,
    pub content: Option<ContentView>,
    pub tool_calls: Option<Seq<CallView>>,
    pub tool_call_id: Option<Seq<char>>,
}

pub ghost struct ToolView {
    pub name: Seq<char>,
    pub description: Option<Seq<char>>,
    pub parameters: JsonView,
}

pub open spec fn opt_text(o: Option<String>) -> Option<Seq<char>> {
    match o {
        Some(s) => Some(s@),
        None => None,
    }
}

pub open spec fn part_view(p: ContentPart) -> PartView {
    match p {
        ContentPart::Text { text } => PartView::Text(text@),
        ContentPart::ImageUrl { url } => PartView::Image(url@),
    }
}

pub open spec fn parts_view(v: Seq<ContentPart>) -> Seq<PartView> {
    v.map_values(|p: ContentPart| part_view(p))
}

pub open spec fn content_view(c: OpenAIContent) -> ContentView {
    match c {
        OpenAIContent::Text(t) => ContentView::Text(t@),
        OpenAIContent::Parts(ps) => ContentView::Parts(parts_view(ps@)),
    }
}

pub open spec fn call_view(c: ToolCall) -> CallView {
    CallView { id: c.id@, name: c.name@, arguments: c.arguments@ }
}

pub open spec fn calls_view(v: Seq<ToolCall>) -> Seq<CallView> {
    v.map_values(|c: ToolCall| call_view(c))
}

pub open spec fn msg_view(m: OpenAIMessage) -> MsgView {
    MsgView {
        role: m.role@,
        content: match m.content {
            Some(c) => Some(content_view(c)),
            None => None,
        },
        tool_calls: match m.tool_calls {
            Some(v) => Some(calls_view(v@)),
            None => None,
        },
        tool_call_id: opt_text(m.tool_call_id),
    }
}

pub open spec fn msgs_view(v: Seq<OpenAIMessage>) -> Seq<MsgView> {
    v.map_values(|m: OpenAIMessage| msg_view(m))
}

pub open spec fn tool_view(t: OpenAITool) -> ToolView {
    ToolView { name: t.name@, description: opt_text(t.description), parameters: t.parameters@ }
}

pub open spec fn tools_view(v: Seq<OpenAITool>) -> Seq<ToolView> {
    v.map_values(|t: OpenAITool| tool_view(t))
}

/// Whether the request asks for extended reasoning.
pub open spec fn thinking_on(req: AnthropicRequest) -> bool {
    req.thinking_type is Some && req.thinking_type.unwrap()@ == "enabled"@
}

/// The configured override if there is one, else the request's own model.
pub open spec fn chosen_model(config: Config, req: AnthropicRequest) -> Seq<char> {
    let o = if thinking_on(req) {
        config.reasoning_model
    } else {
        config.completion_model
    };
    match o {
        Some(m) => m@,
        None => req.model@,
    }
}

pub open spec fn text_message(role: Seq<char>, t: Seq<char>) -> MsgView {
    MsgView {
        role,
        content: Some(ContentView::Text(t)),
        tool_calls: None,
        tool_call_id: None,
    }
}

pub open spec fn system_views(sp: Option<SystemPrompt>) -> Seq<MsgView> {
    match sp {
        None => Seq::empty(),
        Some(SystemPrompt::Single(t)) => seq![text_message("system"@, t@)],
        Some(SystemPrompt::Multiple(v)) => v@.map_values(|t: String| text_message("system"@, t@)),
    }
}

pub open spec fn data_url(src: ImageSource) -> Seq<char> {
    "data:"@ + src.media_type@ + ";base64,"@ + src.data@
}

/// The visible parts of a run of blocks: text, and images as data URLs.
pub open spec fn block_parts(bs: Seq<ContentBlock>) -> Seq<PartView>
    decreases bs.len(),
{
    if bs.len() == 0 {
        Seq::empty()
    } else {
        let pre = block_parts(bs.drop_last());
        match bs.last() {
            ContentBlock::Text { text } => pre.push(PartView::Text(text@)),
            ContentBlock::Image { source } => pre.push(PartView::Image(data_url(source))),
            _ => pre,
        }
    }
}

/// The tool calls of a run of blocks; the arguments are the input's JSON text.
pub open spec fn block_calls(bs: Seq<ContentBlock>) -> Seq<CallView>
    decreases bs.len(),
{
    if bs.len() == 0 {
        Seq::empty()
    } else {
        let pre = block_calls(bs.drop_last());
        match bs.last() {
            ContentBlock::ToolUse { id, name, input } => pre.push(
                CallView { id: id@, name: name@, arguments: input@ },
            ),
            _ => pre,
        }
    }
}

/// The tool-result messages of a run of blocks, one for each result.
pub open spec fn block_results(bs: Seq<ContentBlock>) -> Seq<MsgView>
    decreases bs.len(),
{
    if bs.len() == 0 {
        Seq::empty()
    } else {
        let pre = block_results(bs.drop_last());
        match bs.last() {
            ContentBlock::ToolResult { tool_use_id, content } => pre.push(
                MsgView {
                    role: "tool"@,
                    content: Some(ContentView::Text(content@)),
                    tool_calls: None,
                    tool_call_id: Some(tool_use_id@),
                },
            ),
            _ => pre,
        }
    }
}

/// No content for no parts, the bare text for a single text part, else every part.
pub open spec fn gathered_content(parts: Seq<PartView>) -> Option<ContentView> {
    if parts.len() == 0 {
        None
    } else if parts.len() == 1 && parts[0] is Text {
        Some(ContentView::Text(parts[0]->Text_0))
    } else {
        Some(ContentView::Parts(parts))
    }
}

/// The messages that one message becomes: tool results first, in order, then the
/// visible content and tool calls gathered into one message, if there are any.
pub open spec fn message_views(m: Message) -> Seq<MsgView> {
    match m.content {
        MessageContent::Text(t) => seq![text_message(m.role@, t@)],
        MessageContent::Blocks(bs) => {
            let parts = block_parts(bs@);
            let calls = block_calls(bs@);
            let last = if parts.len() > 0 || calls.len() > 0 {
                seq![
                    MsgView {
                        role: m.role@,
                        content: gathered_content(parts),
                        tool_calls: if calls.len() > 0 {
                            Some(calls)
                        } else {
                            None
                        },
                        tool_call_id: None,
                    },
                ]
            } else {
                Seq::empty()
            };
            block_results(bs@) + last
        },
    }
}

pub open spec fn all_message_views(ms: Seq<Message>) -> Seq<MsgView>
    decreases ms.len(),
{
    if ms.len() == 0 {
        Seq::empty()
    } else {
        all_message_views(ms.drop_last()) + message_views(ms.last())
    }
}

/// Whether a tool is the batch pseudo-tool, which cannot be called.
pub open spec fn is_batch_tool(t: ToolDefinition) -> bool {
    t.tool_type is Some && t.tool_type.unwrap()@ == "BatchTool"@
}

/// The tools that are passed on, with their schemas cleaned.
pub open spec fn kept_tools(ts: Seq<ToolDefinition>) -> Seq<ToolView>
    decreases ts.len(),
{
    if ts.len() == 0 {
        Seq::empty()
    } else {
        let pre = kept_tools(ts.drop_last());
        let t = ts.last();
        if is_batch_tool(t) {
            pre
        } else {
            pre.push(
                ToolView {
                    name: t.name@,
                    description: opt_text(t.description),
                    parameters: clean(t.input_schema@),
                },
            )
        }
    }
}

fn clone_opt_text(o: &Option<String>) -> (r: Option<String>)
    ensures
        opt_text(r) == opt_text(*o),
{
    match o {
        Some(s) => Some(s.clone()),
        None => None,
    }
}

fn is_enabled(t: &Option<String>) -> (r: bool)
    ensures
        r == (t is Some && t.unwrap()@ == "enabled"@),
{
    match t {
        Some(s) => same_text(s.as_str(), "enabled"),
        None => false,
    }
}

/// Picks the model name: the reasoning or completion override, else the request's.
fn select_model(config: &Config, req: &AnthropicRequest, has_thinking: bool) -> (r: String)
    requires
        has_thinking == thinking_on(*req),
    ensures
        r@ == chosen_model(*config, *req),
{
    let o = if has_thinking {
        &config.reasoning_model
    } else {
        &config.completion_model
    };
    match o {
        Some(m) => m.clone(),
        None => req.model.clone(),
    }
}

fn openai_message(
    role: String,
    content: Option<OpenAIContent>,
    tool_calls: Option<Vec<ToolCall>>,
    tool_call_id: Option<String>,
) -> (r: OpenAIMessage)
    ensures
        r.role == role,
        r.content == content,
        r.tool_calls == tool_calls,
        r.tool_call_id == tool_call_id,
{
    OpenAIMessage { role, content, tool_calls, tool_call_id }
}

fn push_msg(out: &mut Vec<OpenAIMessage>, m: OpenAIMessage)
    ensures
        msgs_view(final(out)@) == msgs_view(old(out)@).push(msg_view(m)),
{
    out.push(m);
    assert(msgs_view(out@) =~= msgs_view(old(out)@).push(msg_view(m)));
}

/// Converts one message into one or more messages of the chat-completion format.
fn convert_message(msg: &Message) -> (r: Vec<OpenAIMessage>)
    ensures
        msgs_view(r@) == message_views(*msg),
{
    let mut result: Vec<OpenAIMessage> = Vec::new();
    match &msg.content {
        MessageContent::Text(text) => {
            push_msg(
                &mut result,
                openai_message(msg.role.clone(), Some(OpenAIContent::Text(text.clone())), None, None),
            );
            assert(msgs_view(result@) =~= message_views(*msg));
        },
        MessageContent::Blocks(blocks) => {
            let mut parts: Vec<ContentPart> = Vec::new();
            let mut calls: Vec<ToolCall> = Vec::new();
            let n = blocks.len();
            let mut i: usize = 0;
            while i < n
                invariant
                    n == blocks@.len(),
                    i <= n,
                    parts_view(parts@) == block_parts(blocks@.take(i as int)),
                    calls_view(calls@) == block_calls(blocks@.take(i as int)),
                    msgs_view(result@) == block_results(blocks@.take(i as int)),
                decreases n - i,
            {
                let ghost p0 = parts@;
                let ghost c0 = calls@;
                assert(blocks@.take(i + 1).drop_last() =~= blocks@.take(i as int));
                assert(blocks@.take(i + 1).last() == blocks@[i as int]);
                match &blocks[i] {
                    ContentBlock::Text { text } => {
                        parts.push(ContentPart::Text { text: text.clone() });
                        assert(parts_view(parts@) =~= parts_view(p0).push(part_view(parts@.last())));
                    },
                    ContentBlock::Image { source } => {
                        let mut url = String::from_str("data:");
                        url.append(source.media_type.as_str());
                        url.append(";base64,");
                        url.append(source.data.as_str());
                        assert(url@ =~= data_url(*source));
                        parts.push(ContentPart::ImageUrl { url });
                        assert(parts_view(parts@) =~= parts_view(p0).push(part_view(parts@.last())));
                    },
                    ContentBlock::ToolUse { id, name, input } => {
                        calls.push(ToolCall { id: id.clone(), name: name.clone(), arguments: input.clone() });
                        assert(calls_view(calls@) =~= calls_view(c0).push(call_view(calls@.last())));
                    },
                    ContentBlock::ToolResult { tool_use_id, content } => {
                        push_msg(
                            &mut result,
                            openai_message(
                                String::from_str("tool"),
                                Some(OpenAIContent::Text(content.clone())),
                                None,
                                Some(tool_use_id.clone()),
                            ),
                        );
                    },
                    ContentBlock::Thinking { .. } => {},
                }
                i = i + 1;
            }
            assert(blocks@.take(n as int) =~= blocks@);
            let ghost results = msgs_view(result@);
            if parts.len() > 0 || calls.len() > 0 {
                let ghost pv = parts_view(parts@);
                let single_text = if parts.len() == 1 {
                    match &parts[0] {
                        ContentPart::Text { text } => Some(text.clone()),
                        _ => None,
                    }
                } else {
                    None
                };
                let content = if parts.len() == 0 {
                    None
                } else {
                    match single_text {
                        Some(text) => Some(OpenAIContent::Text(text)),
                        None => Some(OpenAIContent::Parts(parts)),
                    }
                };
                let tool_calls = if calls.len() > 0 {
                    Some(calls)
                } else {
                    None
                };
                let m = openai_message(msg.role.clone(), content, tool_calls, None);
                push_msg(&mut result, m);
                assert(msg_view(m).content == gathered_content(pv));
            }
            assert(msgs_view(result@) =~= message_views(*msg));
        },
    }
    result
}

/// The tools field of the converted request: absent where no tool is kept.
pub open spec fn tools_ok(req_tools: Option<Vec<ToolDefinition>>, out: Option<Vec<OpenAITool>>) -> bool {
    match req_tools {
        None => out is None,
        Some(ts) => if kept_tools(ts@).len() == 0 {
            out is None
        } else {
            out is Some && tools_view(out.unwrap()@) == kept_tools(ts@)
        },
    }
}

fn is_batch(t: &ToolDefinition) -> (r: bool)
    ensures
        r == is_batch_tool(*t),
{
    match &t.tool_type {
        Some(s) => same_text(s.as_str(), "BatchTool"),
        None => false,
    }
}

fn convert_tools(tools: Vec<ToolDefinition>) -> (r: Vec<OpenAITool>)
    ensures
        tools_view(r@) == kept_tools(tools@),
{
    let ghost orig = tools@;
    let ghost n = tools@.len();
    let mut rest = tools;
    let mut out: Vec<OpenAITool> = Vec::new();
    let ghost mut k: int = 0;
    assert(orig.subrange(0, n as int) =~= orig);
    assert(orig.take(0) =~= Seq::<ToolDefinition>::empty());
    while rest.len() > 0
        invariant
            n == orig.len(),
            0 <= k <= n,
            rest@ == orig.subrange(k, n as int),
            tools_view(out@) == kept_tools(orig.take(k)),
        decreases rest@.len(),
    {
        let t = rest.remove(0);
        assert(t == orig[k]);
        assert(orig.take(k + 1).drop_last() =~= orig.take(k));
        assert(orig.take(k + 1).last() == orig[k]);
        let batch = is_batch(&t);
        if !batch {
            let ghost out0 = out@;
            let ToolDefinition { name, description, input_schema, tool_type: _ } = t;
            let nt = OpenAITool { name, description, parameters: clean_schema(input_schema) };
            out.push(nt);
            assert(tools_view(out@) =~= tools_view(out0).push(tool_view(nt)));
        }
        proof {
            k = k + 1;
        }
        assert(rest@ =~= orig.subrange(k, n as int));
    }
    assert(orig.take(n as int) =~= orig);
    out
}

/// Converts a request of the Messages format into a chat-completion request.
pub fn anthropic_to_openai(req: AnthropicRequest, config: &Config) -> (r: ProxyResult<OpenAIRequest>)
    ensures
        r is Ok,
        r.unwrap().model@ == chosen_model(*config, req),
        msgs_view(r.unwrap().messages@) == system_views(req.system) + all_message_views(
            req.messages@,
        ),
        r.unwrap().max_tokens == req.max_tokens,
        r.unwrap().stop == req.stop_sequences,
        r.unwrap().stream == req.stream,
        tools_ok(req.tools, r.unwrap().tools),
{
    let has_thinking = is_enabled(&req.thinking_type);
    let model = select_model(config, &req, has_thinking);
    let mut messages: Vec<OpenAIMessage> = Vec::new();
    match &req.system {
        Some(SystemPrompt::Single(text)) => {
            push_msg(
                &mut messages,
                openai_message(String::from_str("system"), Some(OpenAIContent::Text(text.clone())), None, None),
            );
        },
        Some(SystemPrompt::Multiple(texts)) => {
            let n = texts.len();
            let mut i: usize = 0;
            while i < n
                invariant
                    n == texts@.len(),
                    i <= n,
                    msgs_view(messages@) == texts@.take(i as int).map_values(
                        |t: String| text_message("system"@, t@),
                    ),
                decreases n - i,
            {
                let ghost m0 = msgs_view(messages@);
                push_msg(
                    &mut messages,
                    openai_message(
                        String::from_str("system"),
                        Some(OpenAIContent::Text(texts[i].clone())),
                        None,
                        None,
                    ),
                );
                assert(texts@.take(i + 1).map_values(|t: String| text_message("system"@, t@))
                    =~= m0.push(text_message("system"@, texts@[i as int]@)));
                i = i + 1;
            }
            assert(texts@.take(n as int) =~= texts@);
        },
        None => {},
    }
    assert(msgs_view(messages@) =~= system_views(req.system));
    let ghost sys = msgs_view(messages@);
    let n = req.messages.len();
    let mut i: usize = 0;
    while i < n
        invariant
            n == req.messages@.len(),
            i <= n,
            msgs_view(messages@) == sys + all_message_views(req.messages@.take(i as int)),
        decreases n - i,
    {
        let ghost m0 = msgs_view(messages@);
        let ghost before = messages@;
        let mut converted = convert_message(&req.messages[i]);
        let ghost cv = converted@;
        messages.append(&mut converted);
        assert(messages@ =~= before + cv);
        assert(msgs_view(messages@) =~= m0 + msgs_view(cv));
        assert(req.messages@.take(i + 1).drop_last() =~= req.messages@.take(i as int));
        assert(req.messages@.take(i + 1).last() == req.messages@[i as int]);
        assert(msgs_view(messages@) =~= sys + all_message_views(req.messages@.take(i + 1)));
        i = i + 1;
    }
    assert(req.messages@.take(n as int) =~= req.messages@);
    let AnthropicRequest { model: _, messages: _, system: _, tools, max_tokens, stop_sequences, stream, thinking_type: _ } = req;
    let tools = match tools {
        Some(ts) => {
            let kept = convert_tools(ts);
            if kept.len() == 0 {
                None
            } else {
                Some(kept)
            }
        },
        None => None,
    };
    Ok(OpenAIRequest { model, messages, max_tokens, stop: stop_sequences, stream, tools })
}

pub ghost enum AnswerView {
    Text(Seq<char>),
    ToolUse { id: Seq<char>, name: Seq<char>, input: Seq<char> },
}

pub open spec fn answer_view(c: ResponseContent) -> AnswerView {
    match c {
        ResponseContent::Text { text } => AnswerView::Text(text@),
        ResponseContent::ToolUse { id, name, input } => AnswerView::ToolUse {
            id: id@,
            name: name@,
            input: input@,
        },
    }
}

pub open spec fn answers_view(v: Seq<ResponseContent>) -> Seq<AnswerView> {
    v.map_values(|c: ResponseContent| answer_view(c))
}

/// A tool call's input: its arguments where they are JSON, else the empty object.
pub open spec fn input_of(arguments: Seq<char>, valid: bool) -> Seq<char> {
    if valid {
        arguments
    } else {
        "{}"@
    }
}

pub open spec fn call_answers(v: Seq<CallView>) -> Seq<AnswerView> {
    v.map_values(
        |c: CallView|
            AnswerView::ToolUse {
                id: c.id,
                name: c.name,
                input: input_of(c.arguments, parses_as_json(c.arguments)),
            },
    )
}

pub open spec fn text_answer(content: Option<String>) -> Seq<AnswerView> {
    match content {
        Some(t) => if t@.len() > 0 {
            seq![AnswerView::Text(t@)]
        } else {
            Seq::empty()
        },
        None => Seq::empty(),
    }
}

/// The content of an answer: its text, if not empty, then one block per tool call.
pub open spec fn answer_content(m: ResponseMessage) -> Seq<AnswerView> {
    let text = text_answer(m.content);
    let calls = match m.tool_calls {
        Some(v) => call_answers(calls_view(v@)),
        None => Seq::empty(),
    };
    text + calls
}

pub open spec fn stop_reason_view(f: Option<String>) -> Option<Seq<char>> {
    match f {
        Some(f) => Some(stop_reason_of(f@)),
        None => None,
    }
}

/// A tool call's input, given whether its arguments are JSON.
pub fn tool_input(arguments: &String, valid: bool) -> (r: String)
    ensures
        r@ == input_of(arguments@, valid),
{
    if valid {
        arguments.clone()
    } else {
        String::from_str("{}")
    }
}

/// Converts a complete chat-completion answer into the Messages format; fails when
/// the answer has no choice.
pub fn openai_to_anthropic(resp: OpenAIResponse) -> (r: ProxyResult<AnthropicResponse>)
    ensures
        r is Err <==> resp.choices@.len() == 0,
        r is Err ==> (r->Err_0 is Transform && r->Err_0->Transform_0@ == "No choices in response"@),
        r is Ok ==> ({
            let a = r.unwrap();
            &&& a.id == resp.id
            &&& a.model == resp.model
            &&& answers_view(a.content@) == answer_content(resp.choices@[0].message)
            &&& opt_text(a.stop_reason) == stop_reason_view(resp.choices@[0].finish_reason)
            &&& a.usage.input_tokens == resp.usage.prompt_tokens
            &&& a.usage.output_tokens == resp.usage.completion_tokens
        }),
{
    if resp.choices.len() == 0 {
        return Err(ProxyError::Transform(String::from_str("No choices in response")));
    }
    let choice = &resp.choices[0];
    let mut content: Vec<ResponseContent> = Vec::new();
    match &choice.message.content {
        Some(text) => {
            if !text.as_str().is_empty() {
                content.push(ResponseContent::Text { text: text.clone() });
            }
        },
        None => {},
    }
    let ghost text_seq = text_answer(choice.message.content);
    assert(answers_view(content@) =~= text_seq);
    match &choice.message.tool_calls {
        Some(calls) => {
            let n = calls.len();
            let mut i: usize = 0;
            while i < n
                invariant
                    n == calls@.len(),
                    i <= n,
                    answers_view(content@) == text_seq + call_answers(calls_view(calls@.take(i as int))),
                decreases n - i,
            {
                let ghost c0 = answers_view(content@);
                let call = &calls[i];
                let valid = is_json_text(call.arguments.as_str());
                let input = tool_input(&call.arguments, valid);
                content.push(ResponseContent::ToolUse { id: call.id.clone(), name: call.name.clone(), input });
                assert(calls_view(calls@.take(i + 1)) =~= calls_view(calls@.take(i as int)).push(call_view(*call)));
                assert(call_answers(calls_view(calls@.take(i + 1))) =~= call_answers(calls_view(calls@.take(i as int))).push(
                    AnswerView::ToolUse { id: call.id@, name: call.name@, input: input_of(call.arguments@, valid) },
                ));
                assert(answers_view(content@) =~= c0.push(
                    AnswerView::ToolUse { id: call.id@, name: call.name@, input: input_of(call.arguments@, valid) },
                ));
                assert(answers_view(content@) =~= text_seq + call_answers(calls_view(calls@.take(i + 1))));
                i = i + 1;
            }
            assert(calls@.take(n as int) =~= calls@);
        },
        None => {
            assert(answers_view(content@) =~= text_seq + Seq::<AnswerView>::empty());
        },
    }
    let stop_reason = match &choice.finish_reason {
        Some(f) => Some(stop_reason_text(f.as_str())),
        None => None,
    };
    let usage = Usage {
        input_tokens: resp.usage.prompt_tokens,
        output_tokens: resp.usage.completion_tokens,
    };
    let OpenAIResponse { id, model, choices: _, usage: _ } = resp;
    Ok(AnthropicResponse { id, content, model, stop_reason, usage })
}

/// A block that carries only text or a tool call, or reasoning that is dropped.
pub open spec fn is_text_only_block(b: ContentBlock) -> bool {
    match b {
        ContentBlock::Text { .. } => true,
        ContentBlock::ToolUse { input, .. } => parses_as_json(input@),
        ContentBlock::Thinking { .. } => true,
        _ => false,
    }
}

/// How many text blocks a run of blocks holds.
pub open spec fn text_block_count(bs: Seq<ContentBlock>) -> nat
    decreases bs.len(),
{
    if bs.len() == 0 {
        0
    } else {
        text_block_count(bs.drop_last()) + if bs.last() is Text {
            1nat
        } else {
            0nat
        }
    }
}

/// Message content that the two conversions can carry both ways: plain text, or
/// blocks of which at most one is text, the others tool calls with JSON input, or
/// reasoning; and at least one is text or a tool call.
pub open spec fn round_trip_shape(m: Message) -> bool {
    match m.content {
        MessageContent::Text(_) => true,
        MessageContent::Blocks(bs) => {
            &&& forall|i: int| 0 <= i < bs@.len() ==> is_text_only_block(#[trigger] bs@[i])
            &&& text_block_count(bs@) <= 1
            &&& (block_parts(bs@).len() > 0 || block_calls(bs@).len() > 0)
        },
    }
}

/// A backend that answers with the message it was sent: its text and its tool calls.
pub open spec fn echoes(resp: OpenAIResponse, sent: MsgView) -> bool {
    &&& resp.choices@.len() > 0
    &&& match resp.choices@[0].message.content {
        Some(t) => sent.content == Some(ContentView::Text(t@)),
        None => sent.content is None,
    }
    &&& match resp.choices@[0].message.tool_calls {
        Some(v) => sent.tool_calls == Some(calls_view(v@)),
        None => sent.tool_calls is None,
    }
}

/// The content that a message of the Messages format should come back with: its
/// text, if not empty, then its tool calls with their ids, names and arguments.
pub open spec fn expected_answer(m: Message) -> Seq<AnswerView> {
    match m.content {
        MessageContent::Text(t) => if t@.len() > 0 {
            seq![AnswerView::Text(t@)]
        } else {
            Seq::empty()
        },
        MessageContent::Blocks(bs) => {
            let parts = block_parts(bs@);
            let text = if parts.len() == 1 && parts[0]->Text_0.len() > 0 {
                seq![AnswerView::Text(parts[0]->Text_0)]
            } else {
                Seq::empty()
            };
            text + block_calls(bs@).map_values(
                |c: CallView| AnswerView::ToolUse { id: c.id, name: c.name, input: c.arguments },
            )
        },
    }
}

proof fn lemma_text_only_blocks(bs: Seq<ContentBlock>)
    requires
        forall|i: int| 0 <= i < bs.len() ==> is_text_only_block(#[trigger] bs[i]),
    ensures
        block_results(bs) == Seq::<MsgView>::empty(),
        block_parts(bs).len() == text_block_count(bs),
        forall|i: int| 0 <= i < block_parts(bs).len() ==> (#[trigger] block_parts(bs)[i]) is Text,
        forall|i: int|
            0 <= i < block_calls(bs).len() ==> parses_as_json((#[trigger] block_calls(bs)[i]).arguments),
    decreases bs.len(),
{
    if bs.len() > 0 {
        let pre = bs.drop_last();
        assert forall|i: int| 0 <= i < pre.len() implies is_text_only_block(#[trigger] pre[i]) by {
            assert(pre[i] == bs[i]);
        }
        lemma_text_only_blocks(pre);
        assert(is_text_only_block(bs[bs.len() - 1]));
        assert(block_results(bs) =~= Seq::<MsgView>::empty());
        assert forall|i: int| 0 <= i < block_calls(bs).len() implies parses_as_json(
            (#[trigger] block_calls(bs)[i]).arguments,
        ) by {
            if i < block_calls(pre).len() {
                assert(block_calls(bs)[i] == block_calls(pre)[i]);
            }
        }
    }
}

/// Sending a message whose content is text and tool calls to a backend that echoes it,
/// and converting the answer back, keeps the role (in the message sent), the visible
/// text, and each tool call's id, name and arguments; reasoning blocks are dropped.
pub proof fn lemma_round_trip(msg: Message, resp: OpenAIResponse)
    requires
        round_trip_shape(msg),
        echoes(resp, message_views(msg)[0]),
    ensures
        message_views(msg).len() == 1,
        message_views(msg)[0].role == msg.role@,
        answer_content(resp.choices@[0].message) == expected_answer(msg),
{
    let m = resp.choices@[0].message;
    match msg.content {
        MessageContent::Text(t) => {
            assert(answer_content(m) =~= expected_answer(msg));
        },
        MessageContent::Blocks(bs) => {
            lemma_text_only_blocks(bs@);
            let parts = block_parts(bs@);
            let calls = block_calls(bs@);
            assert(message_views(msg) =~= Seq::<MsgView>::empty() + seq![
                MsgView {
                    role: msg.role@,
                    content: gathered_content(parts),
                    tool_calls: if calls.len() > 0 { Some(calls) } else { None },
                    tool_call_id: None,
                },
            ]);
            let text = if parts.len() == 1 && parts[0]->Text_0.len() > 0 {
                seq![AnswerView::Text(parts[0]->Text_0)]
            } else {
                Seq::<AnswerView>::empty()
            };
            let call_part = match m.tool_calls {
                Some(v) => call_answers(calls_view(v@)),
                None => Seq::<AnswerView>::empty(),
            };
            let expected_calls = calls.map_values(
                |c: CallView| AnswerView::ToolUse { id: c.id, name: c.name, input: c.arguments },
            );
            if parts.len() == 1 {
                assert(parts[0] is Text);
            }
            assert(call_part =~= expected_calls) by {
                match m.tool_calls {
                    Some(v) => {
                        assert(calls_view(v@) == calls);
                        assert forall|i: int| 0 <= i < calls.len() implies call_part[i] == expected_calls[i] by {
                            assert(parses_as_json(calls[i].arguments));
                        }
                    },
                    None => {},
                }
            }
            assert(answer_content(m) =~= text + call_part);
        },
    }
}

} // verus!
