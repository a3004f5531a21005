//! What can go wrong while a tokenizer is assembled.
use vstd::prelude::*;
use vstd::string::*;

use crate::gguf::FieldError;
use crate::text::join3;

verus! {

/// Failures of a model builder.
#[derive(Debug)]
pub enum BuildError {
    MissingField(&'static str),
    WrongFieldType(&'static str),
    UnsupportedModel(String),
    EmptyVocab,
    BadMerge(String),
    Inner(String),
}

/// Failures of `build_tokenizer`. The field variants name the metadata key that
/// was off; `Inner` carries a failure of the tokenizer library.
#[derive(Debug)]
pub enum TokenizerError {
    MissingField(&'static str),
    WrongFieldType(&'static str),
    UnsupportedModel(String),
    EmptyVocab,
    BadMerge(String),
    Inner(String),
}

/// The message for a failure of a model builder.
pub open spec fn build_message(e: BuildError) -> Seq<char> {
    match e {
        BuildError::MissingField(k) => "GGUF is missing required field `"@ + k@ + "`"@,
        BuildError::WrongFieldType(k) => "GGUF field `"@ + k@ + "` has unexpected type"@,
        BuildError::UnsupportedModel(m) => "unsupported tokenizer.ggml.model: `"@ + m@
            + "`; only `gpt2` (BPE) and `llama` (Unigram) are wired up"@,
        BuildError::EmptyVocab => "tokenizer.ggml.tokens is empty"@,
        BuildError::BadMerge(m) => "malformed BPE merge `"@ + m@ + "` (expected `left right`)"@,
        BuildError::Inner(e) => "tokenizers crate error: "@ + e@ + ""@,
    }
}

impl BuildError {
    /// The message for this failure.
    pub fn message(&self) -> (r: String)
        ensures
            r@ == build_message(*self),
    {
        match self {
            BuildError::MissingField(k) => join3("GGUF is missing required field `", k, "`"),
            BuildError::WrongFieldType(k) => join3("GGUF field `", k, "` has unexpected type"),
            BuildError::UnsupportedModel(m) => join3(
                "unsupported tokenizer.ggml.model: `",
                m.as_str(),
                "`; only `gpt2` (BPE) and `llama` (Unigram) are wired up",
            ),
            BuildError::EmptyVocab => String::from_str("tokenizer.ggml.tokens is empty"),
            BuildError::BadMerge(m) => join3(
                "malformed BPE merge `",
                m.as_str(),
                "` (expected `left right`)",
            ),
            BuildError::Inner(e) => join3("tokenizers crate error: ", e.as_str(), ""),
        }
    }
}

/// The same failure, as one of `build_tokenizer`.
pub open spec fn lifted(e: BuildError) -> TokenizerError {
    match e {
        BuildError::MissingField(k) => TokenizerError::MissingField(k),
        BuildError::WrongFieldType(k) => TokenizerError::WrongFieldType(k),
        BuildError::UnsupportedModel(m) => TokenizerError::UnsupportedModel(m),
        BuildError::EmptyVocab => TokenizerError::EmptyVocab,
        BuildError::BadMerge(m) => TokenizerError::BadMerge(m),
        BuildError::Inner(e) => TokenizerError::Inner(e),
    }
}

/// The failure of a model builder that this one is.
pub open spec fn lowered(e: TokenizerError) -> BuildError {
    match e {
        TokenizerError::MissingField(k) => BuildError::MissingField(k),
        TokenizerError::WrongFieldType(k) => BuildError::WrongFieldType(k),
        TokenizerError::UnsupportedModel(m) => BuildError::UnsupportedModel(m),
        TokenizerError::EmptyVocab => BuildError::EmptyVocab,
        TokenizerError::BadMerge(m) => BuildError::BadMerge(m),
        TokenizerError::Inner(e) => BuildError::Inner(e),
    }
}

/// The failure of a builder that reads a field.
pub open spec fn field_failure(key: &'static str, e: FieldError) -> TokenizerError {
    match e {
        FieldError::Missing => TokenizerError::MissingField(key),
        FieldError::WrongType => TokenizerError::WrongFieldType(key),
    }
}

impl TokenizerError {
    /// The message for this failure.
    pub fn message(&self) -> (r: String)
        ensures
            r@ == build_message(lowered(*self)),
    {
        match self {
            TokenizerError::MissingField(k) => join3("GGUF is missing required field `", k, "`"),
            TokenizerError::WrongFieldType(k) => join3("GGUF field `", k, "` has unexpected type"),
            TokenizerError::UnsupportedModel(m) => join3(
                "unsupported tokenizer.ggml.model: `",
                m.as_str(),
                "`; only `gpt2` (BPE) and `llama` (Unigram) are wired up",
            ),
            TokenizerError::EmptyVocab => String::from_str("tokenizer.ggml.tokens is empty"),
            TokenizerError::BadMerge(m) => join3(
                "malformed BPE merge `",
                m.as_str(),
                "` (expected `left right`)",
            ),
            TokenizerError::Inner(e) => join3("tokenizers crate error: ", e.as_str(), ""),
        }
    }

    /// A failure of a model builder as one of `build_tokenizer`.
    pub fn lift(e: BuildError) -> (r: TokenizerError)
        ensures
            r == lifted(e),
    {
        match e {
            BuildError::MissingField(k) => TokenizerError::MissingField(k),
            BuildError::WrongFieldType(k) => TokenizerError::WrongFieldType(k),
            BuildError::UnsupportedModel(m) => TokenizerError::UnsupportedModel(m),
            BuildError::EmptyVocab => TokenizerError::EmptyVocab,
            BuildError::BadMerge(m) => TokenizerError::BadMerge(m),
            BuildError::Inner(e) => TokenizerError::Inner(e),
        }
    }

    /// The failure to read the field `key`.
    pub fn field(key: &'static str, e: FieldError) -> (r: TokenizerError)
        ensures
            r == field_failure(key, e),
    {
        match e {
            FieldError::Missing => TokenizerError::MissingField(key),
            FieldError::WrongType => TokenizerError::WrongFieldType(key),
        }
    }
}

} // verus!
