//! Bodies of the native completion surface.
use vstd::prelude::*;
use vstd::string::*;

use crate::json::{tree, Json, Tree};

verus! {

/// The model name of placeholder replies.
pub const STUB_MODEL: &'static str = "seeker-stub";

/// A completion request.
pub struct CompletionRequest<F> {
    pub prompt: Option<Json>,
    pub n_predict: Option<i32>,
    pub temperature: Option<F>,
    pub stream: Option<bool>,
    pub stop: Option<Vec<String>>,
    pub cache_prompt: Option<bool>,
    pub id_slot: Option<i32>,
}

/// A completion.
#[derive(Debug)]
pub struct CompletionResponse {
    pub content: String,
    pub stop: bool,
    pub model: String,
    pub tokens_predicted: u32,
    pub tokens_evaluated: u32,
}

impl CompletionResponse {
    /// A placeholder of this text.
    pub fn stub(text: &str) -> (r: Self)
        ensures
            r.content@ == text@,
            r.stop,
            r.model@ == STUB_MODEL@,
            r.tokens_predicted == 0,
            r.tokens_evaluated == 0,
    {
        CompletionResponse {
            content: String::from_str(text),
            stop: true,
            model: String::from_str(STUB_MODEL),
            tokens_predicted: 0,
            tokens_evaluated: 0,
        }
    }
}

/// A request to fill in between two texts.
#[derive(Debug)]
pub struct InfillRequest {
    pub input_prefix: Option<String>,
    pub input_suffix: Option<String>,
    pub input_extra: Option<Json>,
    pub prompt: Option<String>,
    pub n_predict: Option<i32>,
    pub stream: Option<bool>,
}

/// A request for the tokens of a text.
#[derive(Debug)]
pub struct TokenizeRequest {
    pub content: Option<String>,
    pub add_special: Option<bool>,
    pub with_pieces: Option<bool>,
}

/// The tokens of a text.
#[derive(Debug)]
pub struct TokenizeResponse {
    pub tokens: Vec<u32>,
}

impl TokenizeResponse {
    /// These tokens.
    pub fn ids(tokens: Vec<u32>) -> (r: Self)
        ensures
            r.tokens == tokens,
    {
        TokenizeResponse { tokens }
    }

    /// A placeholder.
    pub fn stub() -> (r: Self)
        ensures
            r.tokens@ == seq![0u32],
    {
        let mut tokens: Vec<u32> = Vec::new();
        tokens.push(0);
        assert(tokens@ =~= seq![0u32]);
        TokenizeResponse { tokens }
    }
}

/// A token and its text.
#[derive(Debug)]
pub struct TokenPiece {
    pub id: u32,
    pub piece: String,
}

/// The tokens of a text, each with its own text.
#[derive(Debug)]
pub struct TokenizePieces {
    pub tokens: Vec<TokenPiece>,
}

/// A request for the text of tokens.
#[derive(Debug)]
pub struct DetokenizeRequest {
    pub tokens: Vec<u32>,
}

/// The text of tokens.
#[derive(Debug)]
pub struct DetokenizeResponse {
    pub content: String,
}

impl DetokenizeResponse {
    /// A placeholder.
    pub fn stub() -> (r: Self)
        ensures
            r.content@ == Seq::<char>::empty(),
    {
        let content = String::new();
        assert(content@ =~= Seq::<char>::empty());
        DetokenizeResponse { content }
    }
}

/// An embedding request.
#[derive(Debug)]
pub struct LlamaEmbeddingRequest {
    pub content: Option<Json>,
}

/// An embedding.
#[derive(Debug)]
pub struct LlamaEmbeddingResponse<F> {
    pub embedding: Vec<F>,
}

impl<F: Copy> LlamaEmbeddingResponse<F> {
    /// A placeholder of eight zeros.
    pub fn stub(zero: F) -> (r: Self)
        ensures
            r.embedding@ == Seq::new(8, |i: int| zero),
    {
        let mut embedding: Vec<F> = Vec::new();
        while embedding.len() < 8
            invariant
                embedding@.len() <= 8,
                forall|i: int| 0 <= i < embedding@.len() ==> embedding@[i] == zero,
            decreases 8 - embedding@.len(),
        {
            embedding.push(zero);
        }
        assert(embedding@ =~= Seq::new(8, |i: int| zero));
        LlamaEmbeddingResponse { embedding }
    }
}

/// A request to render a conversation.
#[derive(Debug)]
pub struct ApplyTemplateRequest {
    pub messages: Vec<Json>,
    pub add_generation_prompt: Option<bool>,
    pub tools: Option<Json>,
}

/// A rendered conversation.
#[derive(Debug)]
pub struct ApplyTemplateResponse {
    pub prompt: String,
}

impl ApplyTemplateResponse {
    /// A placeholder.
    pub fn stub() -> (r: Self)
        ensures
            r.prompt@ == Seq::<char>::empty(),
    {
        let prompt = String::new();
        assert(prompt@ =~= Seq::<char>::empty());
        ApplyTemplateResponse { prompt }
    }
}

/// What the server runs with.
#[derive(Debug)]
pub struct PropsResponse {
    pub model_path: Option<String>,
    pub chat_template: Option<String>,
    pub build_info: &'static str,
    pub default_generation_settings: Json,
    pub total_slots: u32,
}

impl PropsResponse {
    /// A placeholder.
    pub fn stub() -> (r: Self)
        ensures
            r.model_path is None,
            r.chat_template is None,
            r.build_info@ == "seeker-stub"@,
            tree(r.default_generation_settings) == Tree::Object(seq![]),
            r.total_slots == 0,
    {
        let r = PropsResponse {
            model_path: None,
            chat_template: None,
            build_info: "seeker-stub",
            default_generation_settings: Json::Object(Vec::new()),
            total_slots: 0,
        };
        r
    }
}

/// A request to change what the server runs with.
#[derive(Debug)]
pub struct PropsUpdateRequest {
    pub chat_template: Option<String>,
}

/// A cache slot.
#[derive(Debug)]
pub struct SlotState {
    pub id: u32,
    pub is_processing: bool,
    pub prompt: String,
}

/// An adapter.
#[derive(Debug)]
pub struct LoraAdapter<F> {
    pub id: u32,
    pub path: String,
    pub scale: F,
}

} // verus!
