//! Byte-pair tokenizers: token ids by position, merges by rank, and a
//! byte-level stage before the model and after it.
use vstd::prelude::*;
use vstd::string::*;

use crate::gguf::{read_string_array, strings_at, texts, GgufFile};
use crate::text::{lemma_split_unique, split_at_first, split_once, stands_at};
use crate::tokenizer::bundle::{
    bare, bpe_model, id_views, mapped, merge_known, new_tokenizer, pair_views, pipeline, ranked,
    views, with_byte_level, ModelParts, Pipeline, Stage, Tokenizer,
};
use crate::tokenizer::error::BuildError;

verus! {

/// `m` holds no space that could part a merge.
pub open spec fn unparted(m: Seq<char>) -> bool {
    forall|j: int| !#[trigger] stands_at(m, " "@, j)
}

/// `parts` is `m` parted at its first space.
pub open spec fn parted(m: Seq<char>, parts: (Seq<char>, Seq<char>)) -> bool {
    split_at_first(m, " "@, parts.0, parts.1)
}

/// `merges` are the `raw` merges, each parted at its first space.
pub open spec fn all_parted(raw: Seq<Seq<char>>, merges: Seq<(Seq<char>, Seq<char>)>) -> bool {
    &&& raw.len() == merges.len()
    &&& forall|i: int| 0 <= i < raw.len() ==> parted(raw[i], #[trigger] merges[i])
}

/// Entry `i` is the first that cannot be parted.
pub open spec fn first_unparted(raw: Seq<Seq<char>>, i: int) -> bool {
    &&& 0 <= i < raw.len()
    &&& unparted(raw[i])
    &&& forall|j: int| 0 <= j < i ==> !unparted(#[trigger] raw[j])
}

/// The merges of a model file, none where the field is missing or malformed.
pub open spec fn raw_merges<F>(gguf: &GgufFile<F>) -> Seq<Seq<char>> {
    match strings_at(gguf, "tokenizer.ggml.merges"@) {
        Ok(raw) => raw,
        Err(_) => seq![],
    }
}

/// The merges of a model file as pairs.
pub fn read_merges<F>(gguf: &GgufFile<F>) -> (r: Result<Vec<(String, String)>, BuildError>)
    ensures
        match r {
            Ok(merges) => all_parted(raw_merges(gguf), pair_views(merges@)),
            Err(e) => e matches BuildError::BadMerge(m) && exists|i: int|
                first_unparted(raw_merges(gguf), i) && raw_merges(gguf)[i] == m@,
        },
{
    let raw: Vec<String> = match read_string_array(gguf, "tokenizer.ggml.merges") {
        Ok(raw) => raw,
        Err(_) => Vec::new(),
    };
    assert(texts(raw@) =~= raw_merges(gguf));
    proof {
        reveal_strlit(" ");
    }
    let mut merges: Vec<(String, String)> = Vec::new();
    let mut i: usize = 0;
    while i < raw.len()
        invariant
            i <= raw@.len(),
            merges@.len() == i,
            texts(raw@) == raw_merges(gguf),
            " "@.len() == 1,
            forall|k: int|
                0 <= k < i ==> parted(raw@[k]@, (#[trigger] merges@[k].0@, merges@[k].1@)),
            forall|k: int| 0 <= k < i ==> !unparted(#[trigger] raw_merges(gguf)[k]),
        decreases raw@.len() - i,
    {
        match split_once(raw[i].as_str(), " ") {
            Some((a, b)) => {
                proof {
                    let m = raw@[i as int]@;
                    assert(m.subrange(a@.len() as int, a@.len() as int + 1) =~= " "@);
                    assert(stands_at(m, " "@, a@.len() as int));
                }
                merges.push((a, b));
            },
            None => {
                proof {
                    assert(first_unparted(raw_merges(gguf), i as int));
                }
                return Err(BuildError::BadMerge(raw[i].clone()));
            },
        }
        i += 1;
    }
    assert(all_parted(raw_merges(gguf), pair_views(merges@)));
    Ok(merges)
}

/// Raw merges can be parted in one way only.
pub proof fn law_merges_part_one_way(
    raw: Seq<Seq<char>>,
    a: Seq<(Seq<char>, Seq<char>)>,
    b: Seq<(Seq<char>, Seq<char>)>,
)
    requires
        all_parted(raw, a),
        all_parted(raw, b),
    ensures
        a == b,
{
    assert forall|i: int| 0 <= i < raw.len() implies a[i] == b[i] by {
        assert(parted(raw[i], a[i]) && parted(raw[i], b[i]));
        lemma_split_unique(raw[i], " "@, a[i].0, a[i].1, b[i].0, b[i].1);
    }
    assert(a =~= b);
}

/// What the build of a byte-pair tokenizer gives: the tokenizer of the merges
/// with `around` it, or the first failure.
pub open spec fn bpe_built(
    vocab: Seq<Seq<char>>,
    raw: Seq<Seq<char>>,
    byte_fallback: bool,
    stage: Stage,
    r: Result<Tokenizer, BuildError>,
) -> bool {
    match r {
        Ok(t) => exists|merges: Seq<(Seq<char>, Seq<char>)>| #[trigger]
            all_parted(raw, merges) && all_known(vocab, merges) && pipeline(&t) == (Pipeline {
                pre: Some(stage),
                decoder: Some(stage),
                ..bare(
                    ModelParts::Bpe {
                        vocab: mapped(numbered(vocab)),
                        merges: ranked(merges),
                        byte_fallback,
                    },
                )
            }),
        Err(BuildError::BadMerge(m)) => some_unparted(raw, m@),
        Err(BuildError::Inner(_)) => exists|merges: Seq<(Seq<char>, Seq<char>)>| #[trigger]
            all_parted(raw, merges) && !all_known(vocab, merges),
        Err(_) => false,
    }
}

/// `m` is the first raw merge that cannot be parted.
pub open spec fn some_unparted(raw: Seq<Seq<char>>, m: Seq<char>) -> bool {
    exists|i: int| first_unparted(raw, i) && raw[i] == m
}

/// The tokens of a vocabulary with their ids: each has its index.
pub open spec fn numbered(tokens: Seq<Seq<char>>) -> Seq<(Seq<char>, u32)> {
    Seq::new(tokens.len(), |i: int| (tokens[i], i as u32))
}

/// Give each token its index as its id.
pub fn number_tokens(tokens: &[String]) -> (r: Vec<(String, u32)>)
    ensures
        id_views(r@) == numbered(views(tokens@)),
{
    let mut r: Vec<(String, u32)> = Vec::new();
    let mut i: usize = 0;
    while i < tokens.len()
        invariant
            i <= tokens@.len(),
            r@.len() == i,
            forall|k: int|
                0 <= k < i ==> (#[trigger] r@[k]).0@ == tokens@[k]@ && r@[k].1 == k as u32,
        decreases tokens@.len() - i,
    {
        r.push((tokens[i].clone(), i as u32));
        i += 1;
    }
    assert(id_views(r@) =~= numbered(views(tokens@)));
    r
}

/// Every merge joins known tokens into a known token.
pub open spec fn all_known(vocab: Seq<Seq<char>>, merges: Seq<(Seq<char>, Seq<char>)>) -> bool {
    forall|i: int|
        0 <= i < merges.len() ==> merge_known(mapped(numbered(vocab)), #[trigger] merges[i])
}

/// The byte-level stage of the byte-pair tokenizers.
pub open spec fn byte_level() -> Stage {
    Stage::ByteLevel { add_prefix_space: false, trim_offsets: true, use_regex: true }
}

/// Assemble a byte-pair tokenizer with a byte-level stage.
pub fn build<F>(tokens: &[String], gguf: &GgufFile<F>) -> (r: Result<Tokenizer, BuildError>)
    ensures
        bpe_built(views(tokens@), raw_merges(gguf), false, byte_level(), r),
        r matches Ok(t) ==> {
            &&& pipeline(&t).pre == Some(
                Stage::ByteLevel { add_prefix_space: false, trim_offsets: true, use_regex: true },
            )
            &&& pipeline(&t).decoder == pipeline(&t).pre
            &&& pipeline(&t).model is Bpe && !pipeline(&t).model->Bpe_byte_fallback
        },
{
    let merges: Vec<(String, String)> = match read_merges(gguf) {
        Ok(merges) => merges,
        Err(e) => {
            return Err(e);
        },
    };
    let ghost pairs = pair_views(merges@);
    assert(all_parted(raw_merges(gguf), pairs));
    match bpe_model(number_tokens(tokens), merges, false) {
        Ok(model) => {
            let mut tokenizer = new_tokenizer(model);
            with_byte_level(&mut tokenizer, false, true, true);
            assert(all_known(views(tokens@), pairs));
            Ok(tokenizer)
        },
        Err(e) => {
            assert(!all_known(views(tokens@), pairs));
            Err(BuildError::Inner(e))
        },
    }
}

} // verus!
