//! Request and response bodies of the HTTP surfaces.
pub mod anthropic;
pub mod common;
pub mod llama;
pub mod openai;
