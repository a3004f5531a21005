//! Tokenizers assembled from the metadata that a model file embeds.
//!
//! Two paths: `gpt2` is a byte-pair model with a byte-level stage (see [`bpe`]),
//! `llama` a unigram model with a metaspace stage (see [`unigram`]). Anything
//! else is refused with [`error::TokenizerError::UnsupportedModel`].
use vstd::prelude::*;
use vstd::string::*;

use crate::gguf::{
    bool_at, i32s_at, id_at, read_optional_bool, read_optional_i32_array, read_optional_string,
    read_optional_u32, read_string, read_string_array, string_at, strings_at, texts, FieldError,
    GgufFile,
};
use crate::text::str_eq;
use self::bpe::{bpe_built, byte_level, raw_merges};
use self::bundle::{
    add_special_tokens, added_views, asks_second, id_views, model_parts, needs_second,
    none_registered, pipeline, plain_texts, special_texts, template_builds, views, with_template,
    Pipeline, TextTokenizer, Tokenizer, TokenizerBundle,
};
use self::error::{field_failure, lifted, BuildError, TokenizerError};
use self::unigram::{metaspace, planned, UnigramPlan};

pub mod bpe;
pub mod bundle;
pub mod error;
pub mod gemma;
pub mod laws;
pub mod unigram;

verus! {

/// Token types that are registered so that they are matched verbatim.
pub const TOKEN_TYPE_CONTROL: i32 = 3;

pub const TOKEN_TYPE_USER_DEFINED: i32 = 4;

/// The text of the token `id`, where there is one.
pub open spec fn token_text(tokens: Seq<Seq<char>>, id: Option<u32>) -> Option<Seq<char>> {
    match id {
        Some(i) => if i < tokens.len() {
            Some(tokens[i as int])
        } else {
            None
        },
        None => None,
    }
}

/// The text of the token `id`, where there is one.
pub fn token_at(tokens: &[String], id: Option<u32>) -> (r: Option<String>)
    ensures
        match r {
            Some(s) => token_text(views(tokens@), id) == Some(s@),
            None => token_text(views(tokens@), id) is None,
        },
{
    match id {
        Some(i) => if (i as usize) < tokens.len() {
            Some(tokens[i as usize].clone())
        } else {
            None
        },
        None => None,
    }
}

/// One special token, or none.
pub open spec fn one_special(text: Option<Seq<char>>) -> Seq<(Seq<char>, bool)> {
    match text {
        Some(s) => seq![(s, true)],
        None => seq![],
    }
}

/// The typed tokens among the first `n`: control tokens as special, user-defined
/// ones as content; empty texts are left out.
pub open spec fn typed_tokens(tokens: Seq<Seq<char>>, types: Seq<i32>, n: int) -> Seq<
    (Seq<char>, bool),
>
    decreases n,
{
    if n <= 0 {
        seq![]
    } else {
        let before = typed_tokens(tokens, types, n - 1);
        if tokens[n - 1].len() == 0 {
            before
        } else if types[n - 1] == TOKEN_TYPE_CONTROL {
            before.push((tokens[n - 1], true))
        } else if types[n - 1] == TOKEN_TYPE_USER_DEFINED {
            before.push((tokens[n - 1], false))
        } else {
            before
        }
    }
}

/// The shorter of two lengths.
pub open spec fn shorter(a: nat, b: nat) -> int {
    if a <= b {
        a as int
    } else {
        b as int
    }
}

/// Everything that is handed over for registration: the tokens that begin, end or stand for
/// unknown text, then those that their type marks.
pub open spec fn registered(
    tokens: Seq<Seq<char>>,
    types: Option<Seq<i32>>,
    bos: Option<u32>,
    eos: Option<u32>,
    unk: Option<u32>,
) -> Seq<(Seq<char>, bool)> {
    one_special(token_text(tokens, bos)) + one_special(token_text(tokens, eos)) + one_special(
        token_text(tokens, unk),
    ) + match types {
        Some(t) => typed_tokens(tokens, t, shorter(tokens.len(), t.len())),
        None => seq![],
    }
}

/// The template that puts the begin token before a text and the end token after.
pub open spec fn template_text(bos: Option<Seq<char>>, eos: Option<Seq<char>>) -> Seq<char> {
    (match bos {
        Some(s) => s + " "@,
        None => seq![],
    }) + "$A"@ + match eos {
        Some(s) => " "@ + s,
        None => seq![],
    }
}

/// The special tokens of the template.
pub open spec fn template_tokens(
    tokens: Seq<Seq<char>>,
    bos: Option<u32>,
    eos: Option<u32>,
) -> Seq<(Seq<char>, u32)> {
    (match token_text(tokens, bos) {
        Some(s) => seq![(s, bos->0)],
        None => seq![],
    }) + match token_text(tokens, eos) {
        Some(s) => seq![(s, eos->0)],
        None => seq![],
    }
}

/// A tokenizer after its special tokens are installed: they are registered, and
/// the template is set where there is a begin or end token and the template
/// builds.
pub open spec fn with_specials(
    before: Pipeline,
    tokens: Seq<Seq<char>>,
    types: Option<Seq<i32>>,
    bos: Option<u32>,
    eos: Option<u32>,
    unk: Option<u32>,
) -> Pipeline {
    let single = template_text(token_text(tokens, bos), token_text(tokens, eos));
    let special = template_tokens(tokens, bos, eos);
    let wanted = token_text(tokens, bos) is Some || token_text(tokens, eos) is Some;
    let added = registered(tokens, types, bos, eos, unk);
    Pipeline {
        specials: special_texts(added),
        plain: plain_texts(added, special_texts(added)),
        normalized: if added.len() > 0 {
            Some(false)
        } else {
            before.normalized
        },
        template: if wanted && template_builds(single, special) {
            Some((single, special))
        } else {
            before.template
        },
        ..before
    }
}

/// The template is set, and asks for a second text.
pub open spec fn asks_for_second(
    tokens: Seq<Seq<char>>,
    bos: Option<u32>,
    eos: Option<u32>,
) -> bool {
    let single = template_text(token_text(tokens, bos), token_text(tokens, eos));
    &&& token_text(tokens, bos) is Some || token_text(tokens, eos) is Some
    &&& template_builds(single, template_tokens(tokens, bos, eos))
    &&& asks_second(single)
}

/// Push the token `text`, where there is one, as a special token.
fn push_special(specials: &mut Vec<(String, bool)>, text: &Option<String>)
    ensures
        added_views(final(specials)@) == added_views(old(specials)@) + one_special(
            match *text {
                Some(s) => Some(s@),
                None => None,
            },
        ),
{
    match text {
        Some(s) => {
            specials.push((s.clone(), true));
            assert(added_views(specials@) =~= added_views(old(specials)@).push((s@, true)));
        },
        None => {},
    }
    assert(added_views(specials@) =~= added_views(old(specials)@) + one_special(
        match *text {
            Some(s) => Some(s@),
            None => None,
        },
    ));
}

/// Push every control and user-defined token.
fn push_typed(specials: &mut Vec<(String, bool)>, tokens: &[String], types: &[i32])
    ensures
        added_views(final(specials)@) == added_views(old(specials)@) + typed_tokens(
            views(tokens@),
            types@,
            shorter(tokens@.len(), types@.len()),
        ),
{
    let n: usize = if tokens.len() <= types.len() {
        tokens.len()
    } else {
        types.len()
    };
    let mut i: usize = 0;
    assert(added_views(specials@) =~= added_views(old(specials)@) + typed_tokens(
        views(tokens@),
        types@,
        0,
    ));
    while i < n
        invariant
            i <= n,
            n == shorter(tokens@.len(), types@.len()),
            n <= tokens@.len(),
            n <= types@.len(),
            added_views(specials@) == added_views(old(specials)@) + typed_tokens(
                views(tokens@),
                types@,
                i as int,
            ),
        decreases n - i,
    {
        let ghost before = specials@;
        let text = tokens[i].as_str();
        if !text.is_empty() {
            if types[i] == TOKEN_TYPE_CONTROL {
                specials.push((tokens[i].clone(), true));
                assert(added_views(specials@) =~= added_views(before).push((text@, true)));
            } else if types[i] == TOKEN_TYPE_USER_DEFINED {
                specials.push((tokens[i].clone(), false));
                assert(added_views(specials@) =~= added_views(before).push((text@, false)));
            }
        }
        assert(added_views(specials@) =~= added_views(old(specials)@) + typed_tokens(
            views(tokens@),
            types@,
            i + 1,
        ));
        i += 1;
    }
}

/// Register the model's special tokens so that each is matched verbatim, and
/// install the template that begins and ends an encoded text with its tokens. The
/// result tells whether a template was installed that asks for a second text, as
/// the text of a token can make it do.
pub fn install_specials(
    tokenizer: &mut Tokenizer,
    tokens: &[String],
    token_types: Option<&[i32]>,
    bos_id: Option<u32>,
    eos_id: Option<u32>,
    unk_id: Option<u32>,
) -> (r: bool)
    requires
        none_registered(pipeline(old(tokenizer))),
    ensures
        r == asks_for_second(views(tokens@), bos_id, eos_id),
        pipeline(final(tokenizer)) == with_specials(
            pipeline(old(tokenizer)),
            views(tokens@),
            match token_types {
                Some(t) => Some(t@),
                None => None,
            },
            bos_id,
            eos_id,
            unk_id,
        ),
{
    let bos_str = token_at(tokens, bos_id);
    let eos_str = token_at(tokens, eos_id);
    let unk_str = token_at(tokens, unk_id);
    let ghost types = match token_types {
        Some(t) => Some(t@),
        None => None,
    };
    let mut specials: Vec<(String, bool)> = Vec::new();
    push_special(&mut specials, &bos_str);
    push_special(&mut specials, &eos_str);
    push_special(&mut specials, &unk_str);
    match token_types {
        Some(t) => {
            push_typed(&mut specials, tokens, t);
        },
        None => {},
    }
    assert(added_views(specials@) =~= registered(views(tokens@), types, bos_id, eos_id, unk_id));
    if specials.len() > 0 {
        add_special_tokens(tokenizer, specials.as_slice(), false);
    } else {
        assert(added_views(specials@).len() == 0);
        assert(pipeline(tokenizer).specials =~= seq![]);
        assert(pipeline(tokenizer).plain =~= seq![]);
    }
    if bos_str.is_none() && eos_str.is_none() {
        return false;
    }
    let mut single = String::new();
    let mut pairs: Vec<(String, u32)> = Vec::new();
    match (&bos_str, bos_id) {
        (Some(s), Some(i)) => {
            single.append(s.as_str());
            single.append(" ");
            pairs.push((s.clone(), i));
        },
        _ => {},
    }
    single.append("$A");
    match (&eos_str, eos_id) {
        (Some(s), Some(i)) => {
            single.append(" ");
            single.append(s.as_str());
            pairs.push((s.clone(), i));
        },
        _ => {},
    }
    assert(single@ =~= template_text(
        token_text(views(tokens@), bos_id),
        token_text(views(tokens@), eos_id),
    ));
    assert(id_views(pairs@) =~= template_tokens(views(tokens@), bos_id, eos_id));
    let second: bool = needs_second(single.as_str());
    with_template(tokenizer, single.as_str(), pairs) && second
}

/// The texts that end a turn in the common chat formats.
pub open spec fn ends_a_turn(text: Seq<char>) -> bool {
    ||| text == "<|eot_id|>"@
    ||| text == "<|eom_id|>"@
    ||| text == "<|im_end|>"@
    ||| text == "<|end|>"@
    ||| text == "<end_of_turn>"@
    ||| text == "<|endoftext|>"@
    ||| text == "<EOT>"@
}

/// Whether `text` ends a turn in the common chat formats.
fn is_turn_end(text: &str) -> (r: bool)
    ensures
        r == ends_a_turn(text@),
{
    str_eq(text, "<|eot_id|>") || str_eq(text, "<|eom_id|>") || str_eq(text, "<|im_end|>")
        || str_eq(text, "<|end|>") || str_eq(text, "<end_of_turn>") || str_eq(
        text,
        "<|endoftext|>",
    ) || str_eq(text, "<EOT>")
}

/// Token `id` ends a generation: it is the end-of-sequence, end-of-turn or
/// end-of-message token of the model file, or its text ends a turn.
pub open spec fn ends_generation(
    tokens: Seq<Seq<char>>,
    eos: Option<u32>,
    eot: Option<u32>,
    eom: Option<u32>,
    id: u32,
) -> bool {
    ||| eos == Some(id)
    ||| eot == Some(id)
    ||| eom == Some(id)
    ||| (id < tokens.len() && ends_a_turn(tokens[id as int]))
}

/// Append `id`, where there is one and it is not there yet.
fn push_id(ids: &mut Vec<u32>, id: Option<u32>)
    ensures
        forall|x: u32| #[trigger]
            final(ids)@.contains(x) <==> old(ids)@.contains(x) || id == Some(x),
        old(ids)@.no_duplicates() ==> final(ids)@.no_duplicates(),
{
    if let Some(i) = id {
        let mut k: usize = 0;
        while k < ids.len()
            invariant
                k <= ids@.len(),
                ids@ == old(ids)@,
                id == Some(i),
                forall|j: int| 0 <= j < k ==> ids@[j] != i,
            decreases ids@.len() - k,
        {
            if ids[k] == i {
                assert(ids@.contains(i));
                return;
            }
            k += 1;
        }
        ids.push(i);
        assert forall|x: u32| #[trigger] ids@.contains(x) <==> old(ids)@.contains(x) || x == i by {
            if old(ids)@.contains(x) {
                let j = old(ids)@.index_of(x);
                assert(ids@[j] == x);
            }
            assert(ids@[ids@.len() - 1] == i);
        }
    }
}

/// Every token id that ends a generation, each once.
pub fn end_ids(tokens: &[String], eos: Option<u32>, eot: Option<u32>, eom: Option<u32>) -> (r: Vec<
    u32,
>)
    ensures
        r@.no_duplicates(),
        forall|id: u32| #[trigger]
            r@.contains(id) <==> ends_generation(views(tokens@), eos, eot, eom, id),
{
    let mut ids: Vec<u32> = Vec::new();
    push_id(&mut ids, eos);
    push_id(&mut ids, eot);
    push_id(&mut ids, eom);
    let mut i: usize = 0;
    while i < tokens.len() && i as u64 <= u32::MAX as u64
        invariant
            i <= tokens@.len(),
            ids@.no_duplicates(),
            forall|id: u32| #[trigger]
                ids@.contains(id) <==> (eos == Some(id) || eot == Some(id) || eom == Some(id) || (id
                    < i && ends_a_turn(views(tokens@)[id as int]))),
        decreases tokens@.len() - i,
    {
        if is_turn_end(tokens[i].as_str()) {
            push_id(&mut ids, Some(i as u32));
        }
        i += 1;
    }
    ids
}

/// What a model file says about its tokenizer, besides the model itself.
pub struct BundleParts {
    pub tokens: Vec<String>,
    pub token_types: Option<Vec<i32>>,
    pub model_kind: String,
    pub bos_id: Option<u32>,
    pub eos_id: Option<u32>,
    pub unk_id: Option<u32>,
    pub add_bos_default: bool,
    pub add_eos_default: bool,
    pub chat_template: Option<String>,
    pub eog_ids: Vec<u32>,
}

impl BundleParts {
    /// The token types, by their view.
    pub open spec fn types(&self) -> Option<Seq<i32>> {
        match self.token_types {
            Some(t) => Some(t@),
            None => None,
        }
    }
}

/// An optional string by its view.
pub open spec fn opt_text(s: Option<String>) -> Option<Seq<char>> {
    match s {
        Some(t) => Some(t@),
        None => None,
    }
}

/// `parts` are what the model file `gguf` says.
pub open spec fn describes<F>(gguf: &GgufFile<F>, parts: BundleParts) -> bool {
    &&& string_at(gguf, "tokenizer.ggml.model"@) == Ok::<Seq<char>, FieldError>(parts.model_kind@)
    &&& strings_at(gguf, "tokenizer.ggml.tokens"@) == Ok::<Seq<Seq<char>>, FieldError>(
        views(parts.tokens@),
    )
    &&& parts.types() == i32s_at(gguf, "tokenizer.ggml.token_type"@)
    &&& parts.bos_id == id_at(gguf, "tokenizer.ggml.bos_token_id"@)
    &&& parts.eos_id == id_at(gguf, "tokenizer.ggml.eos_token_id"@)
    &&& parts.unk_id == id_at(gguf, "tokenizer.ggml.unknown_token_id"@)
    &&& parts.add_bos_default == (bool_at(gguf, "tokenizer.ggml.add_bos_token"@) == Some(true))
    &&& parts.add_eos_default == (bool_at(gguf, "tokenizer.ggml.add_eos_token"@) == Some(true))
    &&& opt_text(parts.chat_template) == match string_at(gguf, "tokenizer.chat_template"@) {
        Ok(t) => Some(t),
        Err(_) => None,
    }
    &&& parts.eog_ids@.no_duplicates()
    &&& forall|id: u32| #[trigger]
        parts.eog_ids@.contains(id) <==> ends_generation(
            views(parts.tokens@),
            parts.eos_id,
            id_at(gguf, "tokenizer.ggml.eot_token_id"@),
            id_at(gguf, "tokenizer.ggml.eom_token_id"@),
            id,
        )
}

/// The bundle of a tokenizer that was assembled up to its special tokens.
pub open spec fn bundled(before: Pipeline, parts: BundleParts, b: TokenizerBundle) -> bool {
    &&& pipeline(&b.tokenizer@) == with_specials(
        before,
        views(parts.tokens@),
        parts.types(),
        parts.bos_id,
        parts.eos_id,
        parts.unk_id,
    )
    &&& b.model_kind@ == parts.model_kind@
    &&& b.bos_id == parts.bos_id
    &&& b.eos_id == parts.eos_id
    &&& b.add_bos_default == parts.add_bos_default
    &&& b.add_eos_default == parts.add_eos_default
    &&& opt_text(b.chat_template) == opt_text(parts.chat_template)
    &&& opt_text(b.bos_token) == token_text(views(parts.tokens@), parts.bos_id)
    &&& opt_text(b.eos_token) == token_text(views(parts.tokens@), parts.eos_id)
    &&& b.eog_ids@ == parts.eog_ids@
}

/// Install the special tokens and put the bundle together.
fn bundle_up(tokenizer: Tokenizer, parts: BundleParts) -> (r: TokenizerBundle)
    requires
        none_registered(pipeline(&tokenizer)),
        pipeline(&tokenizer).template is None,
    ensures
        bundled(pipeline(&tokenizer), parts, r),
{
    let mut tokenizer = tokenizer;
    let types: Option<&[i32]> = match &parts.token_types {
        Some(t) => Some(t.as_slice()),
        None => None,
    };
    let second: bool = install_specials(
        &mut tokenizer,
        parts.tokens.as_slice(),
        types,
        parts.bos_id,
        parts.eos_id,
        parts.unk_id,
    );
    let bos_token = token_at(parts.tokens.as_slice(), parts.bos_id);
    let eos_token = token_at(parts.tokens.as_slice(), parts.eos_id);
    TokenizerBundle {
        tokenizer: TextTokenizer::new(tokenizer, !second),
        model_kind: parts.model_kind,
        bos_id: parts.bos_id,
        eos_id: parts.eos_id,
        add_bos_default: parts.add_bos_default,
        add_eos_default: parts.add_eos_default,
        chat_template: parts.chat_template,
        bos_token,
        eos_token,
        eog_ids: parts.eog_ids,
    }
}

/// How far a build has come: done, or waiting for the unigram model that scores
/// of the number type `F` describe.
pub enum Assembly<F> {
    Done(TokenizerBundle),
    Unigram(UnigramPlan<F>, BundleParts),
}

/// Read everything but the model.
fn read_parts<F>(gguf: &GgufFile<F>) -> (r: Result<BundleParts, TokenizerError>)
    ensures
        match string_at(gguf, "tokenizer.ggml.model"@) {
            Err(e) => r matches Err(x) && field_error("tokenizer.ggml.model"@, e, x),
            Ok(_) => match strings_at(gguf, "tokenizer.ggml.tokens"@) {
                Err(e) => r matches Err(x) && field_error("tokenizer.ggml.tokens"@, e, x),
                Ok(t) => if t.len() == 0 {
                    r == Err::<BundleParts, TokenizerError>(TokenizerError::EmptyVocab)
                } else {
                    r matches Ok(parts) && describes(gguf, parts)
                },
            },
        },
{
    let model_kind = match read_string(gguf, "tokenizer.ggml.model") {
        Ok(s) => s,
        Err(e) => {
            return Err(TokenizerError::field("tokenizer.ggml.model", e));
        },
    };
    let tokens = match read_string_array(gguf, "tokenizer.ggml.tokens") {
        Ok(t) => t,
        Err(e) => {
            return Err(TokenizerError::field("tokenizer.ggml.tokens", e));
        },
    };
    assert(texts(tokens@) =~= views(tokens@));
    if tokens.len() == 0 {
        return Err(TokenizerError::EmptyVocab);
    }
    let bos_id = read_optional_u32(gguf, "tokenizer.ggml.bos_token_id");
    let eos_id = read_optional_u32(gguf, "tokenizer.ggml.eos_token_id");
    let unk_id = read_optional_u32(gguf, "tokenizer.ggml.unknown_token_id");
    let eot_id = read_optional_u32(gguf, "tokenizer.ggml.eot_token_id");
    let eom_id = read_optional_u32(gguf, "tokenizer.ggml.eom_token_id");
    let add_bos_default: bool = match read_optional_bool(gguf, "tokenizer.ggml.add_bos_token") {
        Some(b) => b,
        None => false,
    };
    let add_eos_default: bool = match read_optional_bool(gguf, "tokenizer.ggml.add_eos_token") {
        Some(b) => b,
        None => false,
    };
    let chat_template = read_optional_string(gguf, "tokenizer.chat_template");
    let token_types = read_optional_i32_array(gguf, "tokenizer.ggml.token_type");
    let eog_ids = end_ids(tokens.as_slice(), eos_id, eot_id, eom_id);
    Ok(
        BundleParts {
            tokens,
            token_types,
            model_kind,
            bos_id,
            eos_id,
            unk_id,
            add_bos_default,
            add_eos_default,
            chat_template,
            eog_ids,
        },
    )
}

/// `x` reports the failure `e` on the field `key`.
pub open spec fn field_error(key: Seq<char>, e: FieldError, x: TokenizerError) -> bool {
    exists|k: &'static str| k@ == key && x == #[trigger] field_failure(k, e)
}

/// What a build gives once the fields besides the model are read.
pub open spec fn assembled<F>(
    gguf: &GgufFile<F>,
    kind: Seq<char>,
    tokens: Seq<Seq<char>>,
    r: Result<Assembly<F>, TokenizerError>,
) -> bool {
    if kind == "gpt2"@ {
        exists|inner: Result<Tokenizer, BuildError>| #[trigger]
            bpe_built(tokens, raw_merges(gguf), false, byte_level(), inner) && bpe_finished(
                gguf,
                inner,
                r,
            )
    } else if kind == "llama"@ {
        exists|inner: Result<UnigramPlan<F>, BuildError>| #[trigger]
            planned(
                tokens,
                crate::gguf::floats_at(gguf, "tokenizer.ggml.scores"@),
                i32s_at(gguf, "tokenizer.ggml.token_type"@),
                id_at(gguf, "tokenizer.ggml.unknown_token_id"@),
                inner,
            ) && unigram_waiting(gguf, inner, r)
    } else {
        r matches Err(TokenizerError::UnsupportedModel(m)) && m@ == kind
    }
}

/// A byte-pair build handed on: bundled, or failed with the same failure.
pub open spec fn bpe_finished<F>(
    gguf: &GgufFile<F>,
    inner: Result<Tokenizer, BuildError>,
    r: Result<Assembly<F>, TokenizerError>,
) -> bool {
    match inner {
        Ok(t) => r matches Ok(Assembly::Done(b)) && exists|parts: BundleParts| #[trigger]
            describes(gguf, parts) && bundled(pipeline(&t), parts, b),
        Err(e) => r == Err::<Assembly<F>, TokenizerError>(lifted(e)),
    }
}

/// A unigram plan handed on: waiting, or failed with the same failure.
pub open spec fn unigram_waiting<F>(
    gguf: &GgufFile<F>,
    inner: Result<UnigramPlan<F>, BuildError>,
    r: Result<Assembly<F>, TokenizerError>,
) -> bool {
    match inner {
        Ok(plan) => r matches Ok(Assembly::Unigram(p, parts)) && p == plan && describes(
            gguf,
            parts,
        ),
        Err(e) => r == Err::<Assembly<F>, TokenizerError>(lifted(e)),
    }
}

/// Assemble the tokenizer that a model file describes. A unigram model is left
/// to the caller, whose number type its scores have; `finish_unigram` goes on
/// from there. A vocabulary without tokens is refused.
pub fn build_tokenizer<F: Copy>(gguf: &GgufFile<F>) -> (r: Result<Assembly<F>, TokenizerError>)
    ensures
        match string_at(gguf, "tokenizer.ggml.model"@) {
            Err(e) => r matches Err(x) && field_error("tokenizer.ggml.model"@, e, x),
            Ok(kind) => match strings_at(gguf, "tokenizer.ggml.tokens"@) {
                Err(e) => r matches Err(x) && field_error("tokenizer.ggml.tokens"@, e, x),
                Ok(t) => if t.len() == 0 {
                    r == Err::<Assembly<F>, TokenizerError>(TokenizerError::EmptyVocab)
                } else {
                    assembled(gguf, kind, t, r)
                },
            },
        },
{
    let parts = match read_parts(gguf) {
        Ok(parts) => parts,
        Err(e) => {
            return Err(e);
        },
    };
    if str_eq(parts.model_kind.as_str(), "gpt2") {
        let inner = bpe::build(parts.tokens.as_slice(), gguf);
        let ghost kept = inner;
        let ghost told = parts;
        let r = match inner {
            Ok(t) => Ok(Assembly::Done(bundle_up(t, parts))),
            Err(e) => Err(TokenizerError::lift(e)),
        };
        assert(bpe_finished(gguf, kept, r)) by {
            assert(describes(gguf, told));
        }
        r
    } else if str_eq(parts.model_kind.as_str(), "llama") {
        proof {
            reveal_strlit("gpt2");
            reveal_strlit("llama");
        }
        let inner = unigram::plan(parts.tokens.as_slice(), gguf, parts.unk_id);
        let ghost kept = inner;
        let r = match inner {
            Ok(plan) => Ok(Assembly::Unigram(plan, parts)),
            Err(e) => Err(TokenizerError::lift(e)),
        };
        assert(unigram_waiting(gguf, kept, r));
        r
    } else {
        Err(TokenizerError::UnsupportedModel(parts.model_kind))
    }
}

/// Go on with a unigram build, with the model or the text of its failure.
pub fn finish_unigram(
    model: Result<tokenizers::models::ModelWrapper, String>,
    parts: BundleParts,
) -> (r: Result<TokenizerBundle, TokenizerError>)
    ensures
        match model {
            Ok(m) => r matches Ok(b) && bundled(
                (Pipeline {
                    pre: Some(metaspace()),
                    decoder: Some(metaspace()),
                    ..bundle::bare(model_parts(&m))
                }),
                parts,
                b,
            ),
            Err(e) => r == Err::<TokenizerBundle, TokenizerError>(TokenizerError::Inner(e)),
        },
{
    match model {
        Ok(m) => Ok(bundle_up(unigram::around(m), parts)),
        Err(e) => Err(TokenizerError::Inner(e)),
    }
}

} // verus!
