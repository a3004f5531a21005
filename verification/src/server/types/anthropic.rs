//! Bodies of the Anthropic Messages surface.
use vstd::prelude::*;

use crate::json::Json;

verus! {

/// A message request.
pub struct MessagesRequest<F> {
    pub model: Option<String>,
    pub messages: Vec<MessagesInputMessage>,
    pub system: Option<Json>,
    pub max_tokens: Option<u32>,
    pub temperature: Option<F>,
    pub top_p: Option<F>,
    pub top_k: Option<u32>,
    pub stop_sequences: Option<Vec<String>>,
    pub stream: Option<bool>,
    pub tools: Option<Json>,
    pub tool_choice: Option<Json>,
    pub metadata: Option<Json>,
}

/// A turn of the conversation.
#[derive(Debug)]
pub struct MessagesInputMessage {
    pub role: String,
    pub content: Json,
}

/// A part of a reply.
#[derive(Debug)]
pub enum ContentBlock {
    Text { text: String },
    ToolUse { id: String, name: String, input: Json },
}

/// Token counts of a reply.
#[derive(Clone, Copy, PartialEq, Eq, Structural, Debug)]
pub struct AnthropicUsage {
    pub input_tokens: u32,
    pub output_tokens: u32,
}

/// A reply.
#[derive(Debug)]
pub struct MessagesResponse {
    pub id: String,
    pub kind: &'static str,
    pub role: &'static str,
    pub model: String,
    pub content: Vec<ContentBlock>,
    pub stop_reason: &'static str,
    pub stop_sequence: Option<String>,
    pub usage: AnthropicUsage,
}

/// A request to count the tokens of a conversation.
#[derive(Debug)]
pub struct CountTokensRequest {
    pub model: Option<String>,
    pub messages: Vec<MessagesInputMessage>,
    pub system: Option<Json>,
    pub tools: Option<Json>,
}

/// The tokens of a conversation.
#[derive(Clone, Copy, PartialEq, Eq, Structural, Debug)]
pub struct CountTokensResponse {
    pub input_tokens: u32,
}

} // verus!
