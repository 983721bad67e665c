//! The two wire formats, as plain data.
use vstd::prelude::*;
use crate::json::Json;
use crate::stream::TokenUsage;

verus! {

/// Base64 image data with its media type.
#[derive(Debug, Clone, PartialEq, Eq)]
pub struct ImageSource {
    pub media_type: String,
    pub data: String,
}

/// A typed block of message content in the Messages format.
#[derive(Debug, Clone, PartialEq, Eq)]
pub enum ContentBlock {
    Text { text: String },
    Image { source: ImageSource },
    /// `input` is the JSON text of the call's arguments.
    ToolUse { id: String, name: String, input: String },
    ToolResult { tool_use_id: String, content: String },
    Thinking { thinking: String },
}

#[derive(Debug, Clone, PartialEq, Eq)]
pub enum MessageContent {
    Text(String),
    Blocks(Vec<ContentBlock>),
}

#[derive(Debug, Clone, PartialEq, Eq)]
pub struct Message {
    pub role: String,
    pub content: MessageContent,
}

#[derive(Debug, Clone, PartialEq, Eq)]
pub enum SystemPrompt {
    Single(String),
    /// The texts of several system entries, in order.
    Multiple(Vec<String>),
}

/// A tool that the model may call.
#[derive(Debug)]
pub struct ToolDefinition {
    pub name: String,
    pub description: Option<String>,
    pub input_schema: Json,
    pub tool_type: Option<String>,
}

/// A request in the Messages format. Sampling numbers pass through untouched and
/// are not held here.
#[derive(Debug)]
pub struct AnthropicRequest {
    pub model: String,
    pub messages: Vec<Message>,
    pub system: Option<SystemPrompt>,
    pub tools: Option<Vec<ToolDefinition>>,
    pub max_tokens: u32,
    pub stop_sequences: Option<Vec<String>>,
    pub stream: Option<bool>,
    /// The `type` of the request's `thinking` object, where it has one.
    pub thinking_type: Option<String>,
}

/// A part of message content in the chat-completion format.
#[derive(Debug, Clone, PartialEq, Eq)]
pub enum ContentPart {
    Text { text: String },
    ImageUrl { url: String },
}

#[derive(Debug, Clone, PartialEq, Eq)]
pub enum OpenAIContent {
    Text(String),
    Parts(Vec<ContentPart>),
}

/// A function call; `arguments` is JSON text.
#[derive(Debug, Clone, PartialEq, Eq)]
pub struct ToolCall {
    pub id: String,
    pub name: String,
    pub arguments: String,
}

#[derive(Debug, Clone, PartialEq, Eq)]
pub struct OpenAIMessage {
    pub role: String,
    pub content: Option<OpenAIContent>,
    pub tool_calls: Option<Vec<ToolCall>>,
    pub tool_call_id: Option<String>,
}

#[derive(Debug)]
pub struct OpenAITool {
    pub name: String,
    pub description: Option<String>,
    pub parameters: Json,
}

/// A request in the chat-completion format.
#[derive(Debug)]
pub struct OpenAIRequest {
    pub model: String,
    pub messages: Vec<OpenAIMessage>,
    pub max_tokens: u32,
    pub stop: Option<Vec<String>>,
    pub stream: Option<bool>,
    pub tools: Option<Vec<OpenAITool>>,
}

#[derive(Debug, Clone, PartialEq, Eq)]
pub struct ResponseMessage {
    pub content: Option<String>,
    pub tool_calls: Option<Vec<ToolCall>>,
}

#[derive(Debug, Clone, PartialEq, Eq)]
pub struct ResponseChoice {
    pub message: ResponseMessage,
    pub finish_reason: Option<String>,
}

/// A complete answer in the chat-completion format.
#[derive(Debug, Clone, PartialEq, Eq)]
pub struct OpenAIResponse {
    pub id: String,
    pub model: String,
    pub choices: Vec<ResponseChoice>,
    pub usage: TokenUsage,
}

/// A block of answer content in the Messages format; `input` is JSON text.
#[derive(Debug, Clone, PartialEq, Eq)]
pub enum ResponseContent {
    Text { text: String },
    ToolUse { id: String, name: String, input: String },
}

#[derive(Debug, Clone, Copy, PartialEq, Eq)]
pub struct Usage {
    pub input_tokens: u64,
    pub output_tokens: u64,
}

/// A complete answer in the Messages format; its role is always the assistant's.
#[derive(Debug, Clone, PartialEq, Eq)]
pub struct AnthropicResponse {
    pub id: String,
    pub content: Vec<ResponseContent>,
    pub model: String,
    pub stop_reason: Option<String>,
    pub usage: Usage,
}

} // verus!
