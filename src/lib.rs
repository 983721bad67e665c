//! A gateway library that converts chat requests in the Messages wire format into
//! OpenAI-compatible chat-completion requests, and converts the backend's answers,
//! whole or streamed, back again.
pub mod config;
pub mod encode;
pub mod error;
pub mod json;
pub mod models;
pub mod sse;
pub mod stream;
pub mod text;
pub mod transform;
