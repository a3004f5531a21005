//! Serving core of a local language-model server: request conversion, the
//! continuous-batching scheduler, streaming, tokenizer assembly and the
//! per-architecture forward recorders.
pub mod server;
pub mod text;
pub mod text_laws;
pub mod tokenizer;
pub mod models;
pub mod base64_text;
pub mod gguf;
pub mod json;
pub mod pairs;
pub mod runtime_flags;
