//! Unigram tokenizers: every token has a score, and spaces are written as
//! `\u{2581}`.
use vstd::prelude::*;
use vstd::string::*;

use crate::gguf::{floats_at, i32s_at, read_f32_array, read_optional_i32_array, FieldError, GgufFile};
use crate::tokenizer::bundle::{
    bare, model_parts, new_tokenizer, pipeline, views, with_metaspace, Pipeline, Prepend, Stage,
    Tokenizer,
};
use crate::tokenizer::error::BuildError;

verus! {

/// The token type of a byte token.
pub const TOKEN_TYPE_BYTE: i32 = 6;

/// What a unigram model is made from.
pub struct UnigramPlan<F> {
    pub vocab: Vec<(String, F)>,
    pub unk_id: Option<usize>,
    pub byte_fallback: bool,
}

/// Whether any token is a byte token.
pub open spec fn has_byte_tokens(types: Option<Seq<i32>>) -> bool {
    types matches Some(t) && t.contains(TOKEN_TYPE_BYTE)
}

/// The stage of the unigram tokenizers.
pub open spec fn metaspace() -> Stage {
    Stage::Metaspace { replacement: '\u{2581}', prepend: Prepend::Always, split: true }
}

/// What `plan` gives for a model file: tokens with their scores, in order, or
/// the failure on the scores.
pub open spec fn planned<F>(
    tokens: Seq<Seq<char>>,
    scores: Result<Seq<F>, FieldError>,
    types: Option<Seq<i32>>,
    unk_id: Option<u32>,
    r: Result<UnigramPlan<F>, BuildError>,
) -> bool {
    match scores {
        Err(FieldError::Missing) => r matches Err(BuildError::MissingField(k)) && k@
            == "tokenizer.ggml.scores"@,
        Err(FieldError::WrongType) => r matches Err(BuildError::WrongFieldType(k)) && k@
            == "tokenizer.ggml.scores"@,
        Ok(s) => if s.len() != tokens.len() {
            r matches Err(BuildError::WrongFieldType(k)) && k@ == "tokenizer.ggml.scores"@
        } else {
            r matches Ok(p) && {
                &&& p.vocab@.len() == tokens.len()
                &&& forall|i: int|
                    0 <= i < tokens.len() ==> (#[trigger] p.vocab@[i]).0@ == tokens[i]
                        && p.vocab@[i].1 == s[i]
                &&& p.unk_id == match unk_id {
                    Some(u) => Some(u as usize),
                    None => None,
                }
                &&& p.byte_fallback == has_byte_tokens(types)
            }
        },
    }
}

/// Plan the unigram model of a model file.
pub fn plan<F: Copy>(tokens: &[String], gguf: &GgufFile<F>, unk_id: Option<u32>) -> (r: Result<
    UnigramPlan<F>,
    BuildError,
>)
    ensures
        planned(
            views(tokens@),
            floats_at(gguf, "tokenizer.ggml.scores"@),
            i32s_at(gguf, "tokenizer.ggml.token_type"@),
            unk_id,
            r,
        ),
        r matches Ok(p) ==> {
            &&& p.vocab@.len() == tokens@.len()
            &&& forall|i: int| 0 <= i < tokens@.len() ==> (#[trigger] p.vocab@[i]).0@ == tokens@[i]@
            &&& unk_id is None <==> p.unk_id is None
            &&& unk_id matches Some(u) ==> p.unk_id == Some(u as usize)
        },
{
    let scores: Vec<F> = match read_f32_array(gguf, "tokenizer.ggml.scores") {
        Ok(scores) => scores,
        Err(FieldError::Missing) => {
            return Err(BuildError::MissingField("tokenizer.ggml.scores"));
        },
        Err(FieldError::WrongType) => {
            return Err(BuildError::WrongFieldType("tokenizer.ggml.scores"));
        },
    };
    if scores.len() != tokens.len() {
        return Err(BuildError::WrongFieldType("tokenizer.ggml.scores"));
    }
    let byte_fallback: bool = match read_optional_i32_array(gguf, "tokenizer.ggml.token_type") {
        Some(types) => holds_type(types.as_slice(), TOKEN_TYPE_BYTE),
        None => false,
    };
    let mut vocab: Vec<(String, F)> = Vec::new();
    let mut i: usize = 0;
    while i < tokens.len()
        invariant
            i <= tokens@.len(),
            scores@.len() == tokens@.len(),
            vocab@.len() == i,
            forall|k: int|
                0 <= k < i ==> (#[trigger] vocab@[k]).0@ == views(tokens@)[k] && vocab@[k].1
                    == scores@[k],
        decreases tokens@.len() - i,
    {
        vocab.push((tokens[i].clone(), scores[i]));
        i += 1;
    }
    let unk: Option<usize> = match unk_id {
        Some(u) => Some(u as usize),
        None => None,
    };
    Ok(UnigramPlan { vocab, unk_id: unk, byte_fallback })
}

/// Whether `types` holds `wanted`.
fn holds_type(types: &[i32], wanted: i32) -> (r: bool)
    ensures
        r == types@.contains(wanted),
{
    let mut i: usize = 0;
    while i < types.len()
        invariant
            i <= types@.len(),
            forall|k: int| 0 <= k < i ==> types@[k] != wanted,
        decreases types@.len() - i,
    {
        if types[i] == wanted {
            assert(types@[i as int] == wanted);
            return true;
        }
        i += 1;
    }
    false
}

/// Put the stages of a unigram tokenizer round its model.
pub fn around(model: tokenizers::models::ModelWrapper) -> (r: Tokenizer)
    ensures
        pipeline(&r) == (Pipeline {
            pre: Some(metaspace()),
            decoder: Some(metaspace()),
            ..bare(model_parts(&model))
        }),
        pipeline(&r).pre == Some(
            Stage::Metaspace { replacement: '\u{2581}', prepend: Prepend::Always, split: true },
        ),
        pipeline(&r).decoder == pipeline(&r).pre,
{
    let mut tokenizer = new_tokenizer(model);
    with_metaspace(&mut tokenizer, '\u{2581}', Prepend::Always, true);
    tokenizer
}

} // verus!
