//! SentencePiece-style byte-pair tokenizers: merges over raw text whose spaces
//! are written as `\u{2581}`, falling back to byte tokens.
use vstd::prelude::*;

use crate::gguf::GgufFile;
use crate::tokenizer::bpe::{
    all_known, all_parted, bpe_built, number_tokens, raw_merges, read_merges,
};
use crate::tokenizer::bundle::{
    bpe_model, new_tokenizer, pair_views, pipeline, views, with_metaspace, Prepend, Stage, Tokenizer,
};
use crate::tokenizer::error::{lifted, BuildError, TokenizerError};

verus! {

/// The stage of these tokenizers: no leading replacement, no splitting.
pub open spec fn unsplit_metaspace() -> Stage {
    Stage::Metaspace { replacement: '\u{2581}', prepend: Prepend::Never, split: false }
}

/// A build result as one of a model builder.
pub open spec fn lifted_result(
    inner: Result<Tokenizer, BuildError>,
    r: Result<Tokenizer, TokenizerError>,
) -> bool {
    match inner {
        Ok(t) => r == Ok::<Tokenizer, TokenizerError>(t),
        Err(e) => r == Err::<Tokenizer, TokenizerError>(lifted(e)),
    }
}

/// Assemble a byte-pair tokenizer with byte fallback and a metaspace stage.
pub fn build<F>(tokens: &[String], gguf: &GgufFile<F>) -> (r: Result<Tokenizer, TokenizerError>)
    ensures
        exists|inner: Result<Tokenizer, BuildError>| #[trigger]
            lifted_result(inner, r) && bpe_built(
                views(tokens@),
                raw_merges(gguf),
                true,
                unsplit_metaspace(),
                inner,
            ),
        r matches Ok(t) ==> {
            &&& pipeline(&t).pre == Some(
                Stage::Metaspace { replacement: '\u{2581}', prepend: Prepend::Never, split: false },
            )
            &&& pipeline(&t).decoder == pipeline(&t).pre
            &&& pipeline(&t).model is Bpe && pipeline(&t).model->Bpe_byte_fallback
        },
{
    let inner = build_inner(tokens, gguf);
    let ghost kept = inner;
    let r = match inner {
        Ok(t) => Ok(t),
        Err(e) => Err(TokenizerError::lift(e)),
    };
    assert(lifted_result(kept, r));
    r
}

/// Assemble the tokenizer, with the failures of a model builder.
fn build_inner<F>(tokens: &[String], gguf: &GgufFile<F>) -> (r: Result<Tokenizer, BuildError>)
    ensures
        bpe_built(views(tokens@), raw_merges(gguf), true, unsplit_metaspace(), r),
        r matches Ok(t) ==> {
            &&& pipeline(&t).pre == Some(
                Stage::Metaspace { replacement: '\u{2581}', prepend: Prepend::Never, split: false },
            )
            &&& pipeline(&t).decoder == pipeline(&t).pre
            &&& pipeline(&t).model is Bpe && pipeline(&t).model->Bpe_byte_fallback
        },
{
    let merges: Vec<(String, String)> = match read_merges(gguf) {
        Ok(merges) => merges,
        Err(e) => {
            return Err(e);
        },
    };
    let ghost pairs = pair_views(merges@);
    assert(all_parted(raw_merges(gguf), pairs));
    match bpe_model(number_tokens(tokens), merges, true) {
        Ok(model) => {
            let mut tokenizer = new_tokenizer(model);
            with_metaspace(&mut tokenizer, '\u{2581}', Prepend::Never, false);
            assert(all_known(views(tokens@), pairs));
            Ok(tokenizer)
        },
        Err(e) => {
            assert(!all_known(views(tokens@), pairs));
            Err(BuildError::Inner(e))
        },
    }
}

} // verus!
