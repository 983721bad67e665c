use anthropic_proxy::config::{parse_port, Config, EnvSettings};
use anthropic_proxy::text::decimal_text;
use anthropic_proxy::error::ProxyError;
use anthropic_proxy::json::{clean_schema, Json, Member};
use anthropic_proxy::models::{
    AnthropicRequest, ContentBlock, ContentPart, ImageSource, Message, MessageContent,
    OpenAIContent, OpenAIMessage, OpenAIResponse, ResponseChoice, ResponseContent,
    ResponseMessage, SystemPrompt, ToolCall, ToolDefinition,
};
use anthropic_proxy::stream::TokenUsage;
use anthropic_proxy::transform::{
    anthropic_to_openai, map_stop_reason, openai_to_anthropic, tool_input,
};

fn s(x: &str) -> String {
    x.to_string()
}

fn config(reasoning: Option<&str>, completion: Option<&str>) -> Config {
    Config {
        port: 3000,
        base_url: s("http://localhost:11434"),
        api_key: None,
        reasoning_model: reasoning.map(s),
        completion_model: completion.map(s),
        debug: false,
        verbose: false,
    }
}

fn request(messages: Vec<Message>) -> AnthropicRequest {
    AnthropicRequest {
        model: s("sonnet-x"),
        messages,
        system: None,
        tools: None,
        max_tokens: 256,
        stop_sequences: None,
        stream: None,
        thinking_type: None,
    }
}

fn obj(members: Vec<(&str, Json)>) -> Json {
    Json::Object(members.into_iter().map(|(k, v)| Member { key: s(k), value: v }).collect())
}

fn get<'a>(j: &'a Json, key: &str) -> Option<&'a Json> {
    match j {
        Json::Object(ms) => ms.iter().find(|m| m.key == key).map(|m| &m.value),
        _ => None,
    }
}

fn tool(name: &str, tool_type: Option<&str>, schema: Json) -> ToolDefinition {
    ToolDefinition { name: s(name), description: Some(s("d")), input_schema: schema, tool_type: tool_type.map(s) }
}

#[test]
fn stop_reasons_map_by_table() {
    assert_eq!(map_stop_reason(Some("tool_calls")), Some(s("tool_use")));
    assert_eq!(map_stop_reason(Some("stop")), Some(s("end_turn")));
    assert_eq!(map_stop_reason(Some("length")), Some(s("max_tokens")));
    assert_eq!(map_stop_reason(Some("content_filter")), Some(s("end_turn")));
    assert_eq!(map_stop_reason(None), None);
}

#[test]
fn batch_tool_alone_leaves_no_tools_field() {
    let mut req = request(vec![]);
    req.tools = Some(vec![tool("batch", Some("BatchTool"), obj(vec![]))]);
    let out = anthropic_to_openai(req, &config(None, None)).unwrap();
    assert!(out.tools.is_none());
}

#[test]
fn uri_format_is_stripped_at_any_depth() {
    let deep = obj(vec![("format", Json::Str(s("uri")))]);
    let inner_props = obj(vec![("deep", deep)]);
    let item = obj(vec![("properties", inner_props)]);
    let list = obj(vec![("items", item)]);
    let link = obj(vec![("type", Json::Str(s("string"))), ("format", Json::Str(s("uri")))]);
    let when = obj(vec![("format", Json::Str(s("date-time")))]);
    let props = obj(vec![("link", link), ("when", when), ("list", list)]);
    let schema = obj(vec![
        ("type", Json::Str(s("object"))),
        ("format", Json::Str(s("uri"))),
        ("properties", props),
    ]);
    let mut req = request(vec![]);
    req.tools = Some(vec![tool("batch", Some("BatchTool"), obj(vec![])), tool("fetch", None, schema)]);
    let out = anthropic_to_openai(req, &config(None, None)).unwrap();
    let tools = out.tools.unwrap();
    assert_eq!(tools.len(), 1);
    assert_eq!(tools[0].name, "fetch");
    let p = &tools[0].parameters;
    assert!(get(p, "format").is_none());
    assert!(matches!(get(p, "type"), Some(Json::Str(t)) if t == "object"));
    let props = get(p, "properties").unwrap();
    assert!(get(get(props, "link").unwrap(), "format").is_none());
    assert!(matches!(get(get(props, "when").unwrap(), "format"), Some(Json::Str(f)) if f == "date-time"));
    let list = get(props, "list").unwrap();
    let items = get(list, "items").unwrap();
    let inner = get(items, "properties").unwrap();
    let deep = get(inner, "deep").unwrap();
    assert!(get(deep, "format").is_none());
}

#[test]
fn non_object_schema_is_unchanged() {
    let cleaned = clean_schema(Json::Array(vec![Json::Number(s("1")), Json::Null]));
    match cleaned {
        Json::Array(v) => assert_eq!(v.len(), 2),
        _ => panic!("expected an array"),
    }
}

#[test]
fn model_follows_overrides_and_thinking() {
    let cfg = config(Some("reasoner"), Some("completer"));
    let mut req = request(vec![]);
    req.thinking_type = Some(s("enabled"));
    assert_eq!(anthropic_to_openai(req, &cfg).unwrap().model, "reasoner");
    let req = request(vec![]);
    assert_eq!(anthropic_to_openai(req, &cfg).unwrap().model, "completer");
    let mut req = request(vec![]);
    req.thinking_type = Some(s("disabled"));
    assert_eq!(anthropic_to_openai(req, &config(Some("r"), None)).unwrap().model, "sonnet-x");
}

#[test]
fn system_prompt_and_blocks_expand_in_order() {
    let blocks = vec![
        ContentBlock::Thinking { thinking: s("hidden") },
        ContentBlock::Text { text: s("look") },
        ContentBlock::ToolResult { tool_use_id: s("t0"), content: s("42") },
        ContentBlock::Image { source: ImageSource { media_type: s("image/png"), data: s("QUJD") } },
        ContentBlock::ToolUse { id: s("t1"), name: s("f"), input: s("{\"a\":1}") },
    ];
    let mut req = request(vec![
        Message { role: s("user"), content: MessageContent::Text(s("hello")) },
        Message { role: s("assistant"), content: MessageContent::Blocks(blocks) },
    ]);
    req.system = Some(SystemPrompt::Multiple(vec![s("one"), s("two")]));
    req.stop_sequences = Some(vec![s("END")]);
    req.stream = Some(true);
    let out = anthropic_to_openai(req, &config(None, None)).unwrap();
    assert_eq!(out.max_tokens, 256);
    assert_eq!(out.stop, Some(vec![s("END")]));
    assert_eq!(out.stream, Some(true));
    let text = |role: &str, t: &str| OpenAIMessage {
        role: s(role),
        content: Some(OpenAIContent::Text(s(t))),
        tool_calls: None,
        tool_call_id: None,
    };
    assert_eq!(
        out.messages,
        vec![
            text("system", "one"),
            text("system", "two"),
            text("user", "hello"),
            OpenAIMessage {
                role: s("tool"),
                content: Some(OpenAIContent::Text(s("42"))),
                tool_calls: None,
                tool_call_id: Some(s("t0")),
            },
            OpenAIMessage {
                role: s("assistant"),
                content: Some(OpenAIContent::Parts(vec![
                    ContentPart::Text { text: s("look") },
                    ContentPart::ImageUrl { url: s("data:image/png;base64,QUJD") },
                ])),
                tool_calls: Some(vec![ToolCall { id: s("t1"), name: s("f"), arguments: s("{\"a\":1}") }]),
                tool_call_id: None,
            },
        ]
    );
}

#[test]
fn only_thinking_blocks_give_no_message() {
    let req = request(vec![Message {
        role: s("assistant"),
        content: MessageContent::Blocks(vec![ContentBlock::Thinking { thinking: s("x") }]),
    }]);
    assert!(anthropic_to_openai(req, &config(None, None)).unwrap().messages.is_empty());
}

fn response(content: Option<&str>, calls: Option<Vec<ToolCall>>, finish: Option<&str>) -> OpenAIResponse {
    OpenAIResponse {
        id: s("r1"),
        model: s("m"),
        choices: vec![ResponseChoice {
            message: ResponseMessage { content: content.map(s), tool_calls: calls },
            finish_reason: finish.map(s),
        }],
        usage: TokenUsage { prompt_tokens: 11, completion_tokens: 22 },
    }
}

#[test]
fn response_without_choices_is_a_transform_error() {
    let mut r = response(None, None, None);
    r.choices.clear();
    assert_eq!(openai_to_anthropic(r), Err(ProxyError::Transform(s("No choices in response"))));
}

#[test]
fn response_maps_text_calls_reason_and_usage() {
    let calls = vec![
        ToolCall { id: s("c1"), name: s("f"), arguments: s("{\"q\":\"x\"}") },
        ToolCall { id: s("c2"), name: s("g"), arguments: s("not json") },
    ];
    let a = openai_to_anthropic(response(Some("done"), Some(calls), Some("tool_calls"))).unwrap();
    assert_eq!(a.id, "r1");
    assert_eq!(a.model, "m");
    assert_eq!(a.stop_reason, Some(s("tool_use")));
    assert_eq!((a.usage.input_tokens, a.usage.output_tokens), (11, 22));
    assert_eq!(
        a.content,
        vec![
            ResponseContent::Text { text: s("done") },
            ResponseContent::ToolUse { id: s("c1"), name: s("f"), input: s("{\"q\":\"x\"}") },
            ResponseContent::ToolUse { id: s("c2"), name: s("g"), input: s("{}") },
        ]
    );
    let empty = openai_to_anthropic(response(Some(""), None, None)).unwrap();
    assert!(empty.content.is_empty());
    assert_eq!(empty.stop_reason, None);
}

#[test]
fn tool_input_falls_back_to_empty_object() {
    assert_eq!(tool_input(&s("[1]"), true), "[1]");
    assert_eq!(tool_input(&s("[1"), false), "{}");
}

#[test]
fn text_and_tool_calls_survive_a_round_trip() {
    let msg = Message {
        role: s("assistant"),
        content: MessageContent::Blocks(vec![
            ContentBlock::Thinking { thinking: s("t") },
            ContentBlock::Text { text: s("answer") },
            ContentBlock::ToolUse { id: s("id9"), name: s("calc"), input: s("{\"n\":2}") },
        ]),
    };
    let sent = anthropic_to_openai(request(vec![msg]), &config(None, None)).unwrap();
    assert_eq!(sent.messages.len(), 1);
    let m = &sent.messages[0];
    assert_eq!(m.role, "assistant");
    let text = match &m.content {
        Some(OpenAIContent::Text(t)) => Some(t.as_str()),
        _ => None,
    };
    let back = openai_to_anthropic(response(text, m.tool_calls.clone(), Some("stop"))).unwrap();
    assert_eq!(
        back.content,
        vec![
            ResponseContent::Text { text: s("answer") },
            ResponseContent::ToolUse { id: s("id9"), name: s("calc"), input: s("{\"n\":2}") },
        ]
    );
}

fn settings(base: Option<&str>) -> EnvSettings {
    EnvSettings { upstream_base_url: base.map(s), ..Default::default() }
}

#[test]
fn config_requires_a_base_url() {
    assert_eq!(
        Config::from_settings(&settings(None)).unwrap_err(),
        ProxyError::Config(s("UPSTREAM_BASE_URL is required"))
    );
    assert_eq!(
        Config::from_settings(&settings(Some("not a url"))).unwrap_err(),
        ProxyError::Config(s("UPSTREAM_BASE_URL must be a valid URL"))
    );
}

#[test]
fn config_normalizes_and_reads_values() {
    let mut st = settings(Some("  https://openrouter.ai/api//  "));
    st.port = Some(s("8080"));
    st.upstream_api_key = Some(s(""));
    st.openrouter_api_key = Some(s("SECRET-REDACTED"));
    st.debug = Some(s("TRUE"));
    st.verbose = Some(s("no"));
    st.reasoning_model = Some(s("r1"));
    let c = Config::from_settings(&st).unwrap();
    assert_eq!(c.base_url, "https://openrouter.ai/api");
    assert_eq!(c.chat_completions_url(), "https://openrouter.ai/api/v1/chat/completions");
    assert_eq!(c.port, 8080);
    assert_eq!(c.api_key, None);
    assert!(c.debug);
    assert!(!c.verbose);
    assert_eq!(c.reasoning_model, Some(s("r1")));
    assert_eq!(c.completion_model, None);
    assert!(!c.base_url_has_version());
}

#[test]
fn config_falls_back_to_second_names_and_default_port() {
    let st = EnvSettings {
        proxy_base_url: Some(s("http://localhost:11434/v1")),
        openrouter_api_key: Some(s("k")),
        port: Some(s("70000")),
        debug: Some(s("Yes")),
        ..Default::default()
    };
    let c = Config::from_settings(&st).unwrap();
    assert_eq!(c.port, 3000);
    assert_eq!(c.api_key, Some(s("k")));
    assert!(c.debug);
    assert!(c.base_url_has_version());
}

#[test]
fn ports_parse_like_u16() {
    assert_eq!(parse_port("0"), Some(0));
    assert_eq!(parse_port("+443"), Some(443));
    assert_eq!(parse_port("65535"), Some(65535));
    assert_eq!(parse_port("65536"), None);
    assert_eq!(parse_port(""), None);
    assert_eq!(parse_port("+"), None);
    assert_eq!(parse_port("8o"), None);
    assert_eq!(parse_port(" 80"), None);
}

#[test]
fn errors_map_to_statuses() {
    assert_eq!(ProxyError::Config(s("x")).status_code(), 500);
    assert_eq!(ProxyError::Transform(s("x")).status_code(), 400);
    assert_eq!(ProxyError::Upstream(s("x")).status_code(), 502);
    assert_eq!(ProxyError::Serialization(s("x")).status_code(), 400);
    assert_eq!(ProxyError::Http(s("x")).status_code(), 502);
    assert_eq!(ProxyError::Internal(s("x")).status_code(), 500);
}

#[test]
fn numbers_print_in_decimal() {
    assert_eq!(decimal_text(0), "0");
    assert_eq!(decimal_text(1234567890), "1234567890");
    assert_eq!(decimal_text(u64::MAX), "18446744073709551615");
}
