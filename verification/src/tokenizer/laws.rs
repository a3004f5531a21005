//! What a model file's tokenizer section comes to.
use vstd::prelude::*;

use crate::gguf::{floats_at, i32s_at, GgufFile, MetadataValue};
use crate::pairs::{lacks, law_first_pair_is_found, leads};
use crate::tokenizer::bpe::{all_parted, bpe_built};
use crate::tokenizer::bundle::{
    mapped, pipeline, plain_texts, ranked, special_texts, views, ModelParts, Pipeline, Stage,
    Tokenizer,
};
use crate::tokenizer::error::BuildError;
use crate::tokenizer::unigram::{planned, UnigramPlan};
use crate::tokenizer::{
    describes, ends_generation, opt_text, registered, shorter, template_text, template_tokens,
    token_text, typed_tokens, with_specials, BundleParts,
};

verus! {

/// The file's first entry under `key` holds `v`.
pub open spec fn entered<F>(gguf: &GgufFile<F>, key: Seq<char>, v: MetadataValue<F>) -> bool {
    exists|i: int| #[trigger] leads(gguf.metadata@, key, i) && gguf.metadata@[i].1 == v
}

/// What is entered under a key is found there.
proof fn lemma_entered<F>(gguf: &GgufFile<F>, key: Seq<char>)
    ensures
        forall|v: MetadataValue<F>| #[trigger] entered(gguf, key, v) <==> gguf.at(key) == Some(v),
        lacks(gguf.metadata@, key) <==> gguf.at(key) is None,
{
    law_first_pair_is_found(gguf.metadata@, key);
    assert forall|v: MetadataValue<F>| #[trigger] entered(gguf, key, v) <==> gguf.at(key) == Some(
        v,
    ) by {
        if gguf.at(key) == Some(v) {
            let i = choose|i: int| #[trigger] leads(gguf.metadata@, key, i);
            assert(gguf.metadata@[i].1 == v);
        }
    }
}

/// An id that a file enters under `key` as an unsigned number is the one that is
/// taken, and a file without the key has none.
pub open spec fn id_taken<F>(gguf: &GgufFile<F>, key: Seq<char>, id: Option<u32>) -> bool {
    &&& forall|v: u32| #[trigger]
        entered(gguf, key, MetadataValue::U32(v)) ==> id == Some(v)
    &&& lacks(gguf.metadata@, key) ==> id is None
    &&& id matches Some(n) ==> {
        ||| entered(gguf, key, MetadataValue::U32(n))
        ||| entered(gguf, key, MetadataValue::U64(n as u64))
        ||| n <= i32::MAX && entered(gguf, key, MetadataValue::I32(n as i32))
    }
}

/// A flag is set exactly where the file enters it as true.
pub open spec fn flag_taken<F>(gguf: &GgufFile<F>, key: Seq<char>, flag: bool) -> bool {
    flag <==> entered(gguf, key, MetadataValue::Bool(true))
}

/// The tokenizer's parts are what the file enters under their keys.
pub proof fn law_parts_go_by_key<F>(gguf: &GgufFile<F>, parts: BundleParts)
    requires
        describes(gguf, parts),
    ensures
        id_taken(gguf, "tokenizer.ggml.bos_token_id"@, parts.bos_id),
        id_taken(gguf, "tokenizer.ggml.eos_token_id"@, parts.eos_id),
        id_taken(gguf, "tokenizer.ggml.unknown_token_id"@, parts.unk_id),
        flag_taken(gguf, "tokenizer.ggml.add_bos_token"@, parts.add_bos_default),
        flag_taken(gguf, "tokenizer.ggml.add_eos_token"@, parts.add_eos_default),
        forall|s: String| #[trigger]
            entered(gguf, "tokenizer.ggml.model"@, MetadataValue::String(s)) ==> s@
                == parts.model_kind@,
        forall|s: String| #[trigger]
            entered(gguf, "tokenizer.chat_template"@, MetadataValue::String(s)) ==> opt_text(
                parts.chat_template,
            ) == Some(s@),
        lacks(gguf.metadata@, "tokenizer.chat_template"@) ==> parts.chat_template is None,
        forall|a: Vec<MetadataValue<F>>| #[trigger]
            entered(gguf, "tokenizer.ggml.tokens"@, MetadataValue::Array(a)) ==> a@.len()
                == parts.tokens@.len() && forall|i: int|
                0 <= i < a@.len() ==> ((#[trigger] a@[i]) matches MetadataValue::String(s) && s@
                    == parts.tokens@[i]@),
{
    lemma_entered(gguf, "tokenizer.ggml.bos_token_id"@);
    lemma_entered(gguf, "tokenizer.ggml.eos_token_id"@);
    lemma_entered(gguf, "tokenizer.ggml.unknown_token_id"@);
    lemma_entered(gguf, "tokenizer.ggml.add_bos_token"@);
    lemma_entered(gguf, "tokenizer.ggml.add_eos_token"@);
    lemma_entered(gguf, "tokenizer.ggml.model"@);
    lemma_entered(gguf, "tokenizer.chat_template"@);
    lemma_entered(gguf, "tokenizer.ggml.tokens"@);
    assert forall|a: Vec<MetadataValue<F>>| #[trigger]
        entered(gguf, "tokenizer.ggml.tokens"@, MetadataValue::Array(a)) implies a@.len()
        == parts.tokens@.len() && forall|i: int|
        0 <= i < a@.len() ==> ((#[trigger] a@[i]) matches MetadataValue::String(s) && s@
            == parts.tokens@[i]@) by {
        assert(views(parts.tokens@).len() == parts.tokens@.len());
        assert forall|i: int| 0 <= i < a@.len() implies ((
        #[trigger] a@[i]) matches MetadataValue::String(s) && s@ == parts.tokens@[i]@) by {
            assert(views(parts.tokens@)[i] == parts.tokens@[i]@);
        }
    }
}

/// A generation ends at the file's end token, at its end-of-turn and end-of-message
/// tokens, and at every token whose text ends a turn in one of the common formats.
pub proof fn law_turn_ends_end_a_generation<F>(gguf: &GgufFile<F>, parts: BundleParts, id: u32)
    requires
        describes(gguf, parts),
    ensures
        parts.eos_id == Some(id) ==> parts.eog_ids@.contains(id),
        entered(gguf, "tokenizer.ggml.eot_token_id"@, MetadataValue::U32(id))
            ==> parts.eog_ids@.contains(id),
        entered(gguf, "tokenizer.ggml.eom_token_id"@, MetadataValue::U32(id))
            ==> parts.eog_ids@.contains(id),
        id < parts.tokens@.len() && (parts.tokens@[id as int]@ == "<|eot_id|>"@
            || parts.tokens@[id as int]@ == "<|eom_id|>"@ || parts.tokens@[id as int]@
            == "<|im_end|>"@ || parts.tokens@[id as int]@ == "<|end|>"@
            || parts.tokens@[id as int]@ == "<end_of_turn>"@ || parts.tokens@[id as int]@
            == "<|endoftext|>"@ || parts.tokens@[id as int]@ == "<EOT>"@)
            ==> parts.eog_ids@.contains(id),
{
    lemma_entered(gguf, "tokenizer.ggml.eot_token_id"@);
    lemma_entered(gguf, "tokenizer.ggml.eom_token_id"@);
    if id < parts.tokens@.len() {
        assert(views(parts.tokens@)[id as int] == parts.tokens@[id as int]@);
    }
}

/// Among typed tokens stands a text as special exactly where a control token has
/// it, and as content exactly where a user-defined token has it; an empty text never
/// does.
pub proof fn law_types_decide_what_is_registered(
    tokens: Seq<Seq<char>>,
    types: Seq<i32>,
    n: int,
    text: Seq<char>,
)
    requires
        0 <= n <= tokens.len(),
        n <= types.len(),
    ensures
        typed_tokens(tokens, types, n).contains((text, true)) <==> text.len() > 0 && exists|i: int|
            0 <= i < n && #[trigger] tokens[i] == text && types[i] == 3,
        typed_tokens(tokens, types, n).contains((text, false)) <==> text.len() > 0 && exists|i: int|
            0 <= i < n && #[trigger] tokens[i] == text && types[i] == 4,
    decreases n,
{
    if n > 0 {
        law_types_decide_what_is_registered(tokens, types, n - 1, text);
        let before = typed_tokens(tokens, types, n - 1);
        let after = typed_tokens(tokens, types, n);
        let t = tokens[n - 1];
        assert forall|x: (Seq<char>, bool)| #[trigger] after.contains(x) <==> before.contains(x)
            || t.len() > 0 && types[n - 1] == 3 && x == (t, true) || t.len() > 0 && types[n - 1]
            == 4 && x == (t, false) by {
            if after != before {
                assert(after.drop_last() =~= before);
                assert(after.last() == after[after.len() - 1]);
                if before.contains(x) {
                    let j = before.index_of(x);
                    assert(after[j] == x);
                }
            }
        }
    }
}

/// The tokens that begin, end and stand for unknown text are registered as special.
pub proof fn law_marks_are_special(
    tokens: Seq<Seq<char>>,
    types: Option<Seq<i32>>,
    bos: Option<u32>,
    eos: Option<u32>,
    unk: Option<u32>,
)
    ensures
        bos matches Some(i) && i < tokens.len() ==> registered(tokens, types, bos, eos, unk).contains(
            (tokens[bos->0 as int], true),
        ),
        eos matches Some(i) && i < tokens.len() ==> registered(tokens, types, bos, eos, unk).contains(
            (tokens[eos->0 as int], true),
        ),
        unk matches Some(i) && i < tokens.len() ==> registered(tokens, types, bos, eos, unk).contains(
            (tokens[unk->0 as int], true),
        ),
{
    let r = registered(tokens, types, bos, eos, unk);
    let b: int = if token_text(tokens, bos) is Some {
        1
    } else {
        0
    };
    let e: int = if token_text(tokens, eos) is Some {
        1
    } else {
        0
    };
    if token_text(tokens, bos) is Some {
        assert(r[0] == (tokens[bos->0 as int], true));
    }
    if token_text(tokens, eos) is Some {
        assert(r[b] == (tokens[eos->0 as int], true));
    }
    if token_text(tokens, unk) is Some {
        assert(r[b + e] == (tokens[unk->0 as int], true));
    }
}

/// A template puts the begin token before the text and the end token after it, and
/// names each by its own id.
pub proof fn law_template_surrounds_the_text(
    tokens: Seq<Seq<char>>,
    bos: Option<u32>,
    eos: Option<u32>,
    b: Seq<char>,
    e: Seq<char>,
)
    ensures
        template_text(Some(b), Some(e)) == b + " $A "@ + e,
        template_text(Some(b), None) == b + " $A"@,
        template_text(None, Some(e)) == "$A "@ + e,
        template_text(None, None) == "$A"@,
        bos matches Some(i) && i < tokens.len() ==> template_tokens(tokens, bos, eos)[0] == (
            tokens[bos->0 as int],
            bos->0,
        ),
        eos matches Some(i) && i < tokens.len() ==> template_tokens(tokens, bos, eos).last() == (
            tokens[eos->0 as int],
            eos->0,
        ),
{
    reveal_strlit(" $A ");
    reveal_strlit(" $A");
    reveal_strlit("$A ");
    reveal_strlit("$A");
    reveal_strlit(" ");
    assert(template_text(Some(b), Some(e)) =~= b + " $A "@ + e);
    assert(template_text(Some(b), None) =~= b + " $A"@);
    assert(template_text(None, Some(e)) =~= "$A "@ + e);
    assert(template_text(None, None) =~= "$A"@);
}

/// Listed pairs keep the number of the last with their text.
proof fn lemma_mapped(pairs: Seq<(Seq<char>, u32)>, i: int)
    requires
        0 <= i < pairs.len(),
        forall|j: int| i < j < pairs.len() ==> (#[trigger] pairs[j]).0 != pairs[i].0,
    ensures
        mapped(pairs).contains_key(pairs[i].0),
        mapped(pairs)[pairs[i].0] == pairs[i].1,
    decreases pairs.len(),
{
    let w = pairs.drop_last();
    if i < w.len() {
        assert(w[i] == pairs[i]);
        assert forall|j: int| i < j < w.len() implies (#[trigger] w[j]).0 != w[i].0 by {
            assert(w[j] == pairs[j]);
        }
        lemma_mapped(w, i);
        assert(pairs[pairs.len() - 1].0 != pairs[i].0);
    }
}

/// Merges have the place of the last like them.
proof fn lemma_ranked(merges: Seq<(Seq<char>, Seq<char>)>, i: int)
    requires
        0 <= i < merges.len() <= u32::MAX,
        forall|j: int| i < j < merges.len() ==> #[trigger] merges[j] != merges[i],
    ensures
        ranked(merges).contains_key(merges[i]),
        ranked(merges)[merges[i]] == i,
    decreases merges.len(),
{
    let w = merges.drop_last();
    if i < w.len() {
        assert(w[i] == merges[i]);
        assert forall|j: int| i < j < w.len() implies #[trigger] w[j] != w[i] by {
            assert(w[j] == merges[j]);
        }
        lemma_ranked(w, i);
        assert(merges[merges.len() - 1] != merges[i]);
    }
}

/// In a byte-pair tokenizer a token has its place in the vocabulary as its id, and a
/// merge its place among the file's merges as its rank, the last place where there
/// are several. A merge is written with a space between its halves. The same stage
/// stands before the model and behind it.
pub proof fn law_places_are_ids_and_ranks(
    vocab: Seq<Seq<char>>,
    raw: Seq<Seq<char>>,
    byte_fallback: bool,
    stage: Stage,
    t: Tokenizer,
    i: int,
) -> (merges: Seq<(Seq<char>, Seq<char>)>)
    requires
        bpe_built(vocab, raw, byte_fallback, stage, Ok::<Tokenizer, BuildError>(t)),
        vocab.len() <= u32::MAX,
        raw.len() <= u32::MAX,
    ensures
        pipeline(&t).pre == Some(stage),
        pipeline(&t).decoder == Some(stage),
        pipeline(&t).template is None,
        merges.len() == raw.len(),
        pipeline(&t).model matches ModelParts::Bpe {
            vocab: ids,
            merges: ranks,
            byte_fallback: falls_back,
        } && {
            &&& falls_back == byte_fallback
            &&& 0 <= i < vocab.len() && (forall|j: int|
                i < j < vocab.len() ==> #[trigger] vocab[j] != vocab[i]) ==> ids.contains_key(
                vocab[i],
            ) && ids[vocab[i]] == i
            &&& 0 <= i < raw.len() && (forall|j: int|
                i < j < raw.len() ==> #[trigger] merges[j] != merges[i]) ==> ranks.contains_key(
                merges[i],
            ) && ranks[merges[i]] == i
            &&& 0 <= i < raw.len() ==> raw[i] == merges[i].0 + " "@ + merges[i].1
        },
{
    let merges = choose|merges: Seq<(Seq<char>, Seq<char>)>| #[trigger]
        all_parted(raw, merges) && crate::tokenizer::bpe::all_known(vocab, merges) && pipeline(&t)
            == (Pipeline {
            pre: Some(stage),
            decoder: Some(stage),
            ..crate::tokenizer::bundle::bare(
                ModelParts::Bpe {
                    vocab: mapped(crate::tokenizer::bpe::numbered(vocab)),
                    merges: ranked(merges),
                    byte_fallback,
                },
            )
        });
    let pairs = crate::tokenizer::bpe::numbered(vocab);
    if 0 <= i < vocab.len() && (forall|j: int|
        i < j < vocab.len() ==> #[trigger] vocab[j] != vocab[i]) {
        assert forall|j: int| i < j < pairs.len() implies (#[trigger] pairs[j]).0 != pairs[i].0 by {
            assert(vocab[j] != vocab[i]);
        }
        lemma_mapped(pairs, i);
        assert(pairs[i] == (vocab[i], i as u32));
    }
    if 0 <= i < raw.len() {
        assert(crate::tokenizer::bpe::parted(raw[i], merges[i]));
        if forall|j: int| i < j < raw.len() ==> #[trigger] merges[j] != merges[i] {
            lemma_ranked(merges, i);
        }
    }
    merges
}

/// A unigram model takes its scores from the file's scores, place by place, and falls
/// back to bytes exactly where the file has a byte token.
pub proof fn law_scores_go_by_place<F>(
    gguf: &GgufFile<F>,
    tokens: Seq<Seq<char>>,
    unk_id: Option<u32>,
    plan: UnigramPlan<F>,
    a: Vec<MetadataValue<F>>,
    i: int,
)
    requires
        planned(
            tokens,
            floats_at(gguf, "tokenizer.ggml.scores"@),
            i32s_at(gguf, "tokenizer.ggml.token_type"@),
            unk_id,
            Ok::<UnigramPlan<F>, BuildError>(plan),
        ),
        entered(gguf, "tokenizer.ggml.scores"@, MetadataValue::Array(a)),
    ensures
        a@.len() == tokens.len(),
        0 <= i < a@.len() ==> plan.vocab@[i].0@ == tokens[i] && (a@[i] == MetadataValue::F32(
            plan.vocab@[i].1,
        ) || a@[i] == MetadataValue::F64(plan.vocab@[i].1)),
        lacks(gguf.metadata@, "tokenizer.ggml.token_type"@) ==> !plan.byte_fallback,
        forall|types: Vec<MetadataValue<F>>, j: int|
            #![trigger entered(
                gguf,
                "tokenizer.ggml.token_type"@,
                MetadataValue::Array(types),
            ), types@[j]]
            entered(gguf, "tokenizer.ggml.token_type"@, MetadataValue::Array(types)) && 0 <= j
                < types@.len() && types@[j] == MetadataValue::<F>::I32(6) && i32s_at(
                gguf,
                "tokenizer.ggml.token_type"@,
            ) is Some ==> plan.byte_fallback,
{
    lemma_entered(gguf, "tokenizer.ggml.scores"@);
    lemma_entered(gguf, "tokenizer.ggml.token_type"@);
    let scores = floats_at(gguf, "tokenizer.ggml.scores"@);
    if 0 <= i < a@.len() {
        assert(scores->Ok_0[i] == crate::gguf::as_float(a@[i])->0);
        assert(crate::gguf::as_float(a@[i]) is Some);
    }
    assert forall|types: Vec<MetadataValue<F>>, j: int|
        #![trigger entered(
            gguf,
            "tokenizer.ggml.token_type"@,
            MetadataValue::Array(types),
        ), types@[j]]
        entered(gguf, "tokenizer.ggml.token_type"@, MetadataValue::Array(types)) && 0 <= j
            < types@.len() && types@[j] == MetadataValue::<F>::I32(6) && i32s_at(
            gguf,
            "tokenizer.ggml.token_type"@,
        ) is Some implies plan.byte_fallback by {
        let read = i32s_at(gguf, "tokenizer.ggml.token_type"@)->0;
        assert(read[j] == 6);
        assert(read.contains(6i32));
    }
}

/// A text is among the special ones where it is registered as special, and among the
/// others where it is registered and never as special; an empty one is nowhere, and
/// none is there twice.
pub proof fn law_registered_texts_are_kept_apart(
    tokens: Seq<(Seq<char>, bool)>,
    specials: Seq<Seq<char>>,
    text: Seq<char>,
)
    ensures
        special_texts(tokens).contains(text) <==> text.len() > 0 && tokens.contains((text, true)),
        plain_texts(tokens, specials).contains(text) <==> text.len() > 0 && tokens.contains(
            (text, false),
        ) && !specials.contains(text),
        special_texts(tokens).no_duplicates(),
        plain_texts(tokens, specials).no_duplicates(),
    decreases tokens.len(),
{
    if tokens.len() > 0 {
        let w = tokens.drop_last();
        law_registered_texts_are_kept_apart(w, specials, text);
        let last = tokens.last();
        assert(tokens[tokens.len() - 1] == last);
        assert forall|x: (Seq<char>, bool)| #[trigger] tokens.contains(x) <==> w.contains(x) || x
            == last by {
            if w.contains(x) {
                let j = w.index_of(x);
                assert(tokens[j] == x);
            }
            if tokens.contains(x) && x != last {
                let j = tokens.index_of(x);
                assert(w[j] == x);
            }
        }
        let s0 = special_texts(w);
        let s1 = special_texts(tokens);
        if s1 != s0 {
            assert(s1 == s0.push(last.0));
            assert(s1[s0.len() as int] == last.0);
            if s0.contains(text) {
                let j = s0.index_of(text);
                assert(s1[j] == text);
            }
        }
        let p0 = plain_texts(w, specials);
        let p1 = plain_texts(tokens, specials);
        if p1 != p0 {
            assert(p1 == p0.push(last.0));
            assert(p1[p0.len() as int] == last.0);
            if p0.contains(text) {
                let j = p0.index_of(text);
                assert(p1[j] == text);
            }
        }
    }
}

/// Special tokens leave the model and its stages as they are; registered ones are not
/// looked for in normalized text.
pub proof fn law_specials_leave_the_model(
    before: Pipeline,
    tokens: Seq<Seq<char>>,
    types: Option<Seq<i32>>,
    bos: Option<u32>,
    eos: Option<u32>,
    unk: Option<u32>,
)
    ensures
        ({
            let p = with_specials(before, tokens, types, bos, eos, unk);
            &&& p.model == before.model
            &&& p.pre == before.pre
            &&& p.decoder == before.decoder
            &&& registered(tokens, types, bos, eos, unk).len() > 0 ==> p.normalized == Some(false)
            &&& token_text(tokens, bos) is None && token_text(tokens, eos) is None ==> p.template
                == before.template
        }),
{
}

/// A list of numbers is read element by element, signed ones and unsigned ones alike.
/// With any other element, or without the key, there is none.
pub proof fn law_lists_of_numbers_are_read<F>(
    gguf: &GgufFile<F>,
    key: Seq<char>,
    a: Vec<MetadataValue<F>>,
    i: int,
)
    ensures
        lacks(gguf.metadata@, key) ==> i32s_at(gguf, key) is None,
        entered(gguf, key, MetadataValue::Array(a)) && 0 <= i < a@.len() ==> {
            &&& !(a@[i] is I32 || a@[i] is U32) ==> i32s_at(gguf, key) is None
            &&& i32s_at(gguf, key) matches Some(v) ==> {
                &&& v.len() == a@.len()
                &&& a@[i] matches MetadataValue::I32(n) ==> v[i] == n
                &&& a@[i] matches MetadataValue::U32(n) ==> (n <= i32::MAX ==> v[i] == n)
            }
        },
        entered(gguf, key, MetadataValue::Array(a)) && (forall|j: int|
            0 <= j < a@.len() ==> (#[trigger] a@[j]) is I32 || a@[j] is U32) ==> i32s_at(
            gguf,
            key,
        ) is Some,
{
    lemma_entered(gguf, key);
}

} // verus!
