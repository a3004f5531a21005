//! From texts and rendered conversations to prompt tokens.
use vstd::prelude::*;
use vstd::string::*;

use crate::json::{integral, unsigned, Json};
use crate::server::convert::{
    apply_default_system, fail, fail_with, failure, plain, said, turns, with_system, ChatMessage,
    ConvertError, ConvertKind, MEDIA_MARKER,
};
use crate::text::{split_at_first, split_once, stands_at};
use crate::tokenizer::bundle::{encode_text, encoded, id_of, token_to_id, TokenizerBundle};

verus! {

/// A list of tokens or a failure, by their views.
pub open spec fn tokens_view(r: Result<Vec<u32>, ConvertError>) -> Result<
    Seq<u32>,
    (ConvertKind, Seq<char>),
> {
    match r {
        Ok(v) => Ok(v@),
        Err(e) => Err(failure(e)),
    }
}

/// The tokens of a text, or the tokenizer's failure.
pub open spec fn text_tokens(bundle: TokenizerBundle, text: Seq<char>, add_special: bool) -> Result<
    Seq<u32>,
    (ConvertKind, Seq<char>),
> {
    match encoded(&bundle.tokenizer@, text, add_special) {
        Ok(ids) => Ok(ids),
        Err(e) => Err((ConvertKind::Tokenize, e)),
    }
}

/// The tokens of a text.
pub fn encode(bundle: &TokenizerBundle, text: &str, add_special: bool) -> (r: Result<
    Vec<u32>,
    ConvertError,
>)
    requires
        bundle.takes_text(),
    ensures
        tokens_view(r) == text_tokens(*bundle, text@, add_special),
        match r {
            Ok(v) => encoded(&bundle.tokenizer@, text@, add_special) == Ok::<Seq<u32>, Seq<char>>(
                v@,
            ),
            Err(e) => encoded(&bundle.tokenizer@, text@, add_special) == Err::<
                Seq<u32>,
                Seq<char>,
            >(failure(e).1) && failure(e).0 is Tokenize,
        },
{
    match encode_text(bundle.tokenizer.get(), text, add_special) {
        Ok(ids) => Ok(ids),
        Err(e) => Err(fail_with(ConvertKind::Tokenize, e.as_str())),
    }
}

/// The tokens of a text, where the tokenizer takes one text by itself.
pub fn try_encode(bundle: &TokenizerBundle, text: &str, add_special: bool) -> (r: Option<
    Result<Vec<u32>, ConvertError>,
>)
    ensures
        match r {
            Some(ids) => bundle.takes_text() && tokens_view(ids) == text_tokens(
                *bundle,
                text@,
                add_special,
            ),
            None => !bundle.takes_text(),
        },
{
    if bundle.encodes_text() {
        Some(encode(bundle, text, add_special))
    } else {
        None
    }
}

/// A prompt as a request gives it: tokens, or a text to encode.
#[derive(Debug)]
pub enum PromptInput {
    Tokens(Vec<u32>),
    Text(String),
}

/// A prompt by its views.
pub ghost enum Prompted {
    Tokens(Seq<u32>),
    Text(Seq<char>),
}

/// A prompt or a failure, by their views.
pub open spec fn prompted(r: Result<PromptInput, ConvertError>) -> Result<
    Prompted,
    (ConvertKind, Seq<char>),
> {
    match r {
        Ok(PromptInput::Tokens(v)) => Ok(Prompted::Tokens(v@)),
        Ok(PromptInput::Text(s)) => Ok(Prompted::Text(s@)),
        Err(e) => Err(failure(e)),
    }
}

/// Every value is an integer.
pub open spec fn all_integers(a: Seq<Json>) -> bool {
    forall|i: int| 0 <= i < a.len() ==> integral(#[trigger] a[i])
}

/// A value is a token id.
pub open spec fn token_id(v: Json) -> bool {
    unsigned(v) matches Some(n) && n <= u32::MAX
}

/// Every value is a token id.
pub open spec fn all_ids(a: Seq<Json>) -> bool {
    forall|i: int| 0 <= i < a.len() ==> token_id(#[trigger] a[i])
}

/// Every value is a string.
pub open spec fn all_texts(a: Seq<Json>) -> bool {
    forall|i: int| 0 <= i < a.len() ==> (#[trigger] a[i]) is String
}

/// The texts of the first `n` strings, joined.
pub open spec fn joined_texts(a: Seq<Json>, n: int) -> Seq<char>
    decreases n,
{
    if n <= 0 {
        seq![]
    } else {
        joined_texts(a, n - 1) + a[n - 1]->String_0@
    }
}

/// What a prompt field asks for: a string is encoded, an array of integers is
/// taken as tokens, and an array of strings is encoded joined.
pub open spec fn prompt_asked(prompt: Option<Json>) -> Result<Prompted, (ConvertKind, Seq<char>)> {
    match prompt {
        None => Err(plain(ConvertKind::PromptMissing)),
        Some(Json::String(s)) => Ok(Prompted::Text(s@)),
        Some(Json::Array(a)) => if all_integers(a@) {
            if all_ids(a@) {
                Ok(Prompted::Tokens(a@.map_values(|v: Json| unsigned(v)->0 as u32)))
            } else {
                Err(plain(ConvertKind::TokenRange))
            }
        } else if all_texts(a@) {
            Ok(Prompted::Text(joined_texts(a@, a@.len() as int)))
        } else {
            Err(plain(ConvertKind::PromptMixed))
        },
        Some(_) => Err(plain(ConvertKind::PromptShape)),
    }
}

/// Whether every value is an integer.
fn are_integers(a: &Vec<Json>) -> (r: bool)
    ensures
        r == all_integers(a@),
{
    let mut i: usize = 0;
    while i < a.len()
        invariant
            i <= a@.len(),
            forall|k: int| 0 <= k < i ==> integral(#[trigger] a@[k]),
        decreases a@.len() - i,
    {
        if !a[i].is_integer() {
            assert(!integral(a@[i as int]));
            return false;
        }
        i += 1;
    }
    true
}

/// What a prompt field asks for.
pub fn prompt_input(prompt: &Option<Json>) -> (r: Result<PromptInput, ConvertError>)
    ensures
        prompted(r) == prompt_asked(*prompt),
{
    match prompt {
        None => Err(fail(ConvertKind::PromptMissing)),
        Some(Json::String(s)) => Ok(PromptInput::Text(String::from_str(s.as_str()))),
        Some(Json::Array(a)) => if are_integers(a) {
            let mut ids: Vec<u32> = Vec::new();
            let mut i: usize = 0;
            while i < a.len()
                invariant
                    i <= a@.len(),
                    all_integers(a@),
                    *prompt == Some(Json::Array(*a)),
                    ids@.len() == i,
                    forall|k: int|
                        0 <= k < i ==> token_id(#[trigger] a@[k]) && ids@[k] == unsigned(
                            a@[k],
                        )->0 as u32,
                decreases a@.len() - i,
            {
                match a[i].as_u64() {
                    Some(n) if n <= u32::MAX as u64 => {
                        ids.push(n as u32);
                    },
                    _ => {
                        assert(!token_id(a@[i as int]));
                        return Err(fail(ConvertKind::TokenRange));
                    },
                }
                i += 1;
            }
            assert(ids@ =~= a@.map_values(|v: Json| unsigned(v)->0 as u32));
            Ok(PromptInput::Tokens(ids))
        } else {
            let mut joined = String::new();
            assert(joined@ =~= seq![]);
            let mut i: usize = 0;
            while i < a.len()
                invariant
                    i <= a@.len(),
                    !all_integers(a@),
                    *prompt == Some(Json::Array(*a)),
                    forall|k: int| 0 <= k < i ==> (#[trigger] a@[k]) is String,
                    joined@ == joined_texts(a@, i as int),
                decreases a@.len() - i,
            {
                match a[i].as_str() {
                    Some(s) => {
                        joined.append(s);
                    },
                    None => {
                        assert(!(a@[i as int] is String));
                        return Err(fail(ConvertKind::PromptMixed));
                    },
                }
                i += 1;
            }
            Ok(PromptInput::Text(joined))
        },
        Some(_) => Err(fail(ConvertKind::PromptShape)),
    }
}

/// The tokens of a prompt field.
pub open spec fn prompt_tokens(
    prompt: Option<Json>,
    bundle: TokenizerBundle,
    add_special: bool,
) -> Result<Seq<u32>, (ConvertKind, Seq<char>)> {
    match prompt_asked(prompt) {
        Err(e) => Err(e),
        Ok(Prompted::Tokens(ids)) => Ok(ids),
        Ok(Prompted::Text(t)) => text_tokens(bundle, t, add_special),
    }
}

/// The list holds the numbers that the values are, one for each.
pub open spec fn is_numbers(a: Seq<Json>, ids: Seq<u32>) -> bool {
    &&& ids.len() == a.len()
    &&& forall|i: int|
        0 <= i < a.len() ==> (unsigned(#[trigger] a[i]) matches Some(n) && n == ids[i])
}

/// The texts of strings.
pub open spec fn strings(a: Seq<Json>) -> Seq<Seq<char>> {
    a.map_values(|v: Json| v->String_0@)
}

/// Joined texts stand one behind the other, with nothing between them.
proof fn lemma_joined_is_flat(a: Seq<Json>, n: int)
    requires
        0 <= n <= a.len(),
    ensures
        joined_texts(a, n) == strings(a).take(n).flatten(),
    decreases n,
{
    let part = strings(a).take(n);
    if n > 0 {
        lemma_joined_is_flat(a, n - 1);
        assert(part.drop_last() =~= strings(a).take(n - 1));
        part.lemma_flatten_and_flatten_alt_are_equivalent();
        part.drop_last().lemma_flatten_and_flatten_alt_are_equivalent();
        assert(part.last() == a[n - 1]->String_0@);
    } else {
        assert(part =~= Seq::empty());
    }
}

/// The tokens of a prompt field.
pub fn prompt_value_to_tokens(
    prompt: &Option<Json>,
    bundle: &TokenizerBundle,
    add_special: bool,
) -> (r: Result<Vec<u32>, ConvertError>)
    requires
        prompt_asked(*prompt) matches Ok(Prompted::Text(_)) ==> bundle.takes_text(),
    ensures
        tokens_view(r) == prompt_tokens(*prompt, *bundle, add_special),
        r matches Ok(v) ==> match *prompt {
            Some(Json::String(s)) => encoded(&bundle.tokenizer@, s@, add_special) == Ok::<
                Seq<u32>,
                Seq<char>,
            >(v@),
            Some(Json::Array(a)) => is_numbers(a@, v@) || (forall|i: int|
                0 <= i < a@.len() ==> (#[trigger] a@[i]) is String) && encoded(
                &bundle.tokenizer@,
                strings(a@).flatten(),
                add_special,
            ) == Ok::<Seq<u32>, Seq<char>>(v@),
            _ => false,
        },
{
    proof {
        if let Some(Json::Array(a)) = prompt {
            if all_texts(a@) {
                lemma_joined_is_flat(a@, a@.len() as int);
                assert(strings(a@).take(a@.len() as int) =~= strings(a@));
            }
        }
    }
    match prompt_input(prompt)? {
        PromptInput::Tokens(ids) => Ok(ids),
        PromptInput::Text(t) => encode(bundle, t.as_str(), add_special),
    }
}

/// Every value is an unsigned integer.
pub open spec fn all_unsigned(a: Seq<Json>) -> bool {
    forall|i: int| 0 <= i < a.len() ==> unsigned(#[trigger] a[i]) is Some
}

/// Unsigned integers cut to 32 bits.
pub open spec fn cut_ids(a: Seq<Json>) -> Seq<u32> {
    a.map_values(|v: Json| unsigned(v)->0 as u32)
}

/// The tokens that an array of integers is.
fn as_tokens(a: &Vec<Json>) -> (r: Option<Vec<u32>>)
    ensures
        match r {
            Some(v) => all_unsigned(a@) && v@ == cut_ids(a@),
            None => !all_unsigned(a@),
        },
{
    let mut ids: Vec<u32> = Vec::new();
    let mut i: usize = 0;
    while i < a.len()
        invariant
            i <= a@.len(),
            ids@.len() == i,
            forall|k: int|
                0 <= k < i ==> unsigned(#[trigger] a@[k]) is Some && ids@[k] == unsigned(
                    a@[k],
                )->0 as u32,
        decreases a@.len() - i,
    {
        match a[i].as_u64() {
            Some(n) => {
                ids.push(#[verifier::truncate] (n as u32));
            },
            None => {
                assert(unsigned(a@[i as int]) is None);
                return None;
            },
        }
        i += 1;
    }
    assert(ids@ =~= cut_ids(a@));
    Some(ids)
}

/// What one element of an embedding input asks for.
pub open spec fn element_asked(v: Json) -> Result<Prompted, (ConvertKind, Seq<char>)> {
    match v {
        Json::String(s) => Ok(Prompted::Text(s@)),
        Json::Array(a) => if all_unsigned(a@) {
            Ok(Prompted::Tokens(cut_ids(a@)))
        } else {
            Err(plain(ConvertKind::InputArray))
        },
        _ => Err(plain(ConvertKind::InputElement)),
    }
}

/// What one element of an embedding input asks for.
pub fn embedding_element(v: &Json) -> (r: Result<PromptInput, ConvertError>)
    ensures
        prompted(r) == element_asked(*v),
{
    match v {
        Json::String(s) => Ok(PromptInput::Text(String::from_str(s.as_str()))),
        Json::Array(a) => match as_tokens(a) {
            Some(ids) => Ok(PromptInput::Tokens(ids)),
            None => Err(fail(ConvertKind::InputArray)),
        },
        _ => Err(fail(ConvertKind::InputElement)),
    }
}

/// The tokens of one element of an embedding input.
pub open spec fn element_tokens(v: Json, bundle: TokenizerBundle) -> Result<
    Seq<u32>,
    (ConvertKind, Seq<char>),
> {
    match element_asked(v) {
        Err(e) => Err(e),
        Ok(Prompted::Tokens(ids)) => Ok(ids),
        Ok(Prompted::Text(t)) => text_tokens(bundle, t, true),
    }
}

/// The tokens of the first `n` elements, or the first failure among them.
pub open spec fn elements_tokens(a: Seq<Json>, bundle: TokenizerBundle, n: int) -> Result<
    Seq<Seq<u32>>,
    (ConvertKind, Seq<char>),
>
    decreases n,
{
    if n <= 0 {
        Ok(seq![])
    } else {
        match elements_tokens(a, bundle, n - 1) {
            Err(e) => Err(e),
            Ok(t) => match element_tokens(a[n - 1], bundle) {
                Ok(ids) => Ok(t.push(ids)),
                Err(e) => Err(e),
            },
        }
    }
}

/// A failure among the first elements is the failure of all.
proof fn lemma_elements(a: Seq<Json>, bundle: TokenizerBundle, k: int, n: int)
    requires
        0 <= k <= n,
        elements_tokens(a, bundle, k) is Err,
    ensures
        elements_tokens(a, bundle, n) == elements_tokens(a, bundle, k),
    decreases n,
{
    if k < n {
        lemma_elements(a, bundle, k, n - 1);
    }
}

/// Token lists by their views.
pub open spec fn lists(v: Seq<Vec<u32>>) -> Seq<Seq<u32>> {
    v.map_values(|l: Vec<u32>| l@)
}

/// The token lists of an embedding input: one of a string or an array of
/// integers, otherwise one of each element.
pub open spec fn embedding_tokens(value: Json, bundle: TokenizerBundle) -> Result<
    Seq<Seq<u32>>,
    (ConvertKind, Seq<char>),
> {
    match value {
        Json::String(s) => match text_tokens(bundle, s@, true) {
            Ok(ids) => Ok(seq![ids]),
            Err(e) => Err(e),
        },
        Json::Array(a) => if a@.len() == 0 {
            Err(plain(ConvertKind::InputEmpty))
        } else if all_unsigned(a@) {
            Ok(seq![cut_ids(a@)])
        } else {
            elements_tokens(a@, bundle, a@.len() as int)
        },
        _ => Err(plain(ConvertKind::InputShape)),
    }
}

/// The tokens `ids` are those of one input: of a text its encoding with the
/// tokenizer's special tokens added, of an array of numbers the numbers cut to 32
/// bits.
pub open spec fn input_read(bundle: TokenizerBundle, v: Json, ids: Seq<u32>) -> bool {
    match v {
        Json::String(s) => encoded(&bundle.tokenizer@, s@, true) == Ok::<Seq<u32>, Seq<char>>(ids),
        Json::Array(a) => {
            &&& ids.len() == a@.len()
            &&& forall|k: int|
                0 <= k < a@.len() ==> (unsigned(#[trigger] a@[k]) matches Some(n) && ids[k]
                    == n as u32)
        },
        _ => false,
    }
}

/// One input that gives no tokens: a text that the tokenizer refuses, an array
/// with something other than a number in it, or neither text nor array.
pub open spec fn input_refused(bundle: TokenizerBundle, v: Json) -> bool {
    match v {
        Json::String(s) => encoded(&bundle.tokenizer@, s@, true) is Err,
        Json::Array(a) => exists|k: int| 0 <= k < a@.len() && unsigned(#[trigger] a@[k]) is None,
        _ => true,
    }
}

/// Every element is read as one input, and the failure is that of an element.
proof fn lemma_elements_read(a: Seq<Json>, bundle: TokenizerBundle, n: int)
    requires
        0 <= n <= a.len(),
    ensures
        match elements_tokens(a, bundle, n) {
            Ok(t) => t.len() == n && forall|i: int|
                0 <= i < n ==> input_read(bundle, #[trigger] a[i], t[i]) && !input_refused(
                    bundle,
                    a[i],
                ),
            Err(_) => exists|i: int| 0 <= i < n && input_refused(bundle, #[trigger] a[i]),
        },
    decreases n,
{
    if n > 0 {
        lemma_elements_read(a, bundle, n - 1);
        assert(element_tokens(a[n - 1], bundle) is Err ==> input_refused(bundle, a[n - 1]));
    }
}

/// A text by itself gives the same token lists as an array that holds it alone,
/// and each is the text's encoding with special tokens added.
pub proof fn law_one_text_is_a_list_of_one(bundle: TokenizerBundle, text: Json, list: Vec<Json>)
    requires
        text is String,
        list@ == seq![text],
    ensures
        embedding_tokens(text, bundle) == embedding_tokens(Json::Array(list), bundle),
        embedding_tokens(text, bundle) matches Ok(t) ==> t.len() == 1 && input_read(
            bundle,
            text,
            t[0],
        ),
        embedding_tokens(text, bundle) is Err <==> input_refused(bundle, text),
{
    assert(list@[0] == text);
    assert(unsigned(list@[0]) is None);
    assert(!all_unsigned(list@));
    reveal_with_fuel(elements_tokens, 2);
    match text_tokens(bundle, text->String_0@, true) {
        Ok(ids) => {
            assert(Seq::<Seq<u32>>::empty().push(ids) =~= seq![ids]);
        },
        Err(_) => {},
    }
}

/// The element is a text.
pub open spec fn element_is_text(v: Json) -> bool {
    element_asked(v) matches Ok(Prompted::Text(_))
}

/// The input holds a text.
pub open spec fn holds_text(value: Json) -> bool {
    match value {
        Json::String(_) => true,
        Json::Array(a) => exists|i: int| 0 <= i < a@.len() && #[trigger] element_is_text(a@[i]),
        _ => false,
    }
}

/// One list alone.
fn single_list(ids: Vec<u32>) -> (r: Vec<Vec<u32>>)
    ensures
        lists(r@) == seq![ids@],
        r@.len() == 1 && r@[0]@ == ids@,
{
    let ghost view = ids@;
    let mut out: Vec<Vec<u32>> = Vec::new();
    out.push(ids);
    assert(lists(out@) =~= seq![view]);
    out
}

/// The token lists of an embedding input.
pub fn embedding_inputs_to_tokens(bundle: &TokenizerBundle, value: &Json) -> (r: Result<
    Vec<Vec<u32>>,
    ConvertError,
>)
    requires
        holds_text(*value) ==> bundle.takes_text(),
    ensures
        match r {
            Ok(v) => embedding_tokens(*value, *bundle) == Ok::<
                Seq<Seq<u32>>,
                (ConvertKind, Seq<char>),
            >(lists(v@)),
            Err(e) => embedding_tokens(*value, *bundle) == Err::<
                Seq<Seq<u32>>,
                (ConvertKind, Seq<char>),
            >(failure(e)),
        },
        match r {
            Ok(v) => match *value {
                Json::Array(a) if exists|i: int|
                    0 <= i < a@.len() && unsigned(#[trigger] a@[i]) is None => {
                    &&& v@.len() == a@.len()
                    &&& forall|i: int|
                        0 <= i < a@.len() ==> input_read(*bundle, #[trigger] a@[i], v@[i]@)
                },
                _ => v@.len() == 1 && input_read(*bundle, *value, v@[0]@),
            },
            Err(_) => match *value {
                Json::Array(a) => a@.len() == 0 || exists|i: int|
                    0 <= i < a@.len() && input_refused(*bundle, #[trigger] a@[i]),
                _ => input_refused(*bundle, *value),
            },
        },
{
    proof {
        if let Json::Array(a) = value {
            lemma_elements_read(a@, *bundle, a@.len() as int);
        }
    }
    match value {
        Json::String(s) => {
            let ids = encode(bundle, s.as_str(), true)?;
            Ok(single_list(ids))
        },
        Json::Array(items) => {
            if items.len() == 0 {
                return Err(fail(ConvertKind::InputEmpty));
            }
            if let Some(ids) = as_tokens(items) {
                assert(input_read(*bundle, *value, ids@));
                return Ok(single_list(ids));
            }
            let mut out: Vec<Vec<u32>> = Vec::new();
            assert(lists(out@) =~= seq![]);
            let mut i: usize = 0;
            while i < items.len()
                invariant
                    i <= items@.len(),
                    items@.len() > 0,
                    !all_unsigned(items@),
                    *value == Json::Array(*items),
                    holds_text(*value) ==> bundle.takes_text(),
                    elements_tokens(items@, *bundle, i as int) == Ok::<
                        Seq<Seq<u32>>,
                        (ConvertKind, Seq<char>),
                    >(lists(out@)),
                decreases items@.len() - i,
            {
                let ghost before = out@;
                proof {
                    if elements_tokens(items@, *bundle, i + 1) is Err {
                        lemma_elements(items@, *bundle, i + 1, items@.len() as int);
                    }
                }
                assert(element_is_text(items@[i as int]) ==> holds_text(*value));
                let ids = match embedding_element(&items[i])? {
                    PromptInput::Tokens(ids) => ids,
                    PromptInput::Text(t) => encode(bundle, t.as_str(), true)?,
                };
                out.push(ids);
                assert(lists(out@) =~= lists(before).push(ids@));
                i += 1;
            }
            proof {
                assert(lists(out@).len() == out@.len());
                assert forall|j: int| 0 <= j < out@.len() implies input_read(
                    *bundle,
                    #[trigger] items@[j],
                    out@[j]@,
                ) by {
                    assert(lists(out@)[j] == out@[j]@);
                }
            }
            Ok(out)
        },
        _ => Err(fail(ConvertKind::InputShape)),
    }
}

/// The tokens of a rendered conversation. There is no conversation without a
/// template; a template may fail.
pub open spec fn rendered_tokens(
    bundle: Option<TokenizerBundle>,
    rendered: Result<Seq<char>, Seq<char>>,
) -> Result<Seq<u32>, (ConvertKind, Seq<char>)> {
    match bundle {
        None => Err(plain(ConvertKind::NoTemplate)),
        Some(b) => if b.chat_template is None {
            Err(plain(ConvertKind::NoTemplate))
        } else {
            match rendered {
                Err(e) => Err((ConvertKind::Render, e)),
                Ok(t) => text_tokens(b, t, false),
            }
        },
    }
}

/// A rendered text or an error, by their views.
pub open spec fn rendering(r: Result<&str, &str>) -> Result<Seq<char>, Seq<char>> {
    match r {
        Ok(s) => Ok(s@),
        Err(e) => Err(e@),
    }
}

/// A bundle behind a reference.
pub open spec fn behind(bundle: Option<&TokenizerBundle>) -> Option<TokenizerBundle> {
    match bundle {
        Some(b) => Some(*b),
        None => None,
    }
}

/// The turns that a chat template is given: those of the request, with the
/// server's system prompt in front where they have none.
pub fn prompt_turns(messages: Vec<ChatMessage>, default_system: Option<&str>) -> (r: Vec<
    ChatMessage,
>)
    ensures
        turns(r@) == with_system(
            turns(messages@),
            match default_system {
                Some(s) => Some(s@),
                None => None,
            },
        ),
{
    let mut messages = messages;
    apply_default_system(&mut messages, default_system);
    messages
}

/// The tokens of a rendered conversation.
pub fn render_and_encode(bundle: Option<&TokenizerBundle>, rendered: Result<&str, &str>) -> (r:
    Result<Vec<u32>, ConvertError>)
    requires
        behind(bundle) matches Some(b) ==> (b.chat_template is Some && rendered is Ok
            ==> b.takes_text()),
    ensures
        tokens_view(r) == rendered_tokens(behind(bundle), rendering(rendered)),
        r matches Ok(v) ==> match (bundle, rendered) {
            (Some(b), Ok(t)) => b.chat_template is Some && encoded(&b.tokenizer@, t@, false)
                == Ok::<Seq<u32>, Seq<char>>(v@),
            _ => false,
        },
{
    match bundle {
        None => Err(fail(ConvertKind::NoTemplate)),
        Some(b) => {
            if b.chat_template.is_none() {
                return Err(fail(ConvertKind::NoTemplate));
            }
            match rendered {
                Err(e) => Err(fail_with(ConvertKind::Render, e)),
                Ok(t) => encode(b, t, false),
            }
        },
    }
}

/// What a conversation with attached media comes to before the media is looked
/// at: tokens where there is none, otherwise the text on both sides of it.
#[derive(Debug)]
pub enum MediaPlan {
    Text(Vec<u32>),
    Image { before: String, after: String },
    Audio { before: String, after: String },
}

/// What the server can take, and what the request brings.
#[derive(Clone, Copy)]
pub struct MediaOffer {
    pub images: usize,
    pub audios: usize,
    pub has_vision: bool,
    pub has_audio: bool,
}

/// Why the media of a rendered conversation is refused, if it is.
pub open spec fn media_refused(o: MediaOffer, text: Seq<char>) -> Option<ConvertKind> {
    if o.images > 0 && o.audios > 0 {
        Some(ConvertKind::BothMedia)
    } else if o.images == 0 && o.audios == 0 {
        None
    } else if forall|j: int| !#[trigger] stands_at(text, MEDIA_MARKER@, j) {
        Some(ConvertKind::MarkerLost)
    } else if o.images > 1 {
        Some(ConvertKind::ManyImages)
    } else if o.images == 1 && !o.has_vision {
        Some(ConvertKind::NoVision)
    } else if o.audios > 1 {
        Some(ConvertKind::ManyAudios)
    } else if o.audios == 1 && !o.has_audio {
        Some(ConvertKind::NoAudio)
    } else {
        None
    }
}

/// Split a rendered conversation round its media item, or encode it where it has
/// none.
pub fn plan_media(
    bundle: Option<&TokenizerBundle>,
    rendered: Result<&str, &str>,
    o: MediaOffer,
) -> (r: Result<MediaPlan, ConvertError>)
    requires
        behind(bundle) matches Some(b) ==> (b.chat_template is Some && rendered is Ok && o.images
            == 0 && o.audios == 0 ==> b.takes_text()),
    ensures
        match behind(bundle) {
            None => r matches Err(e) && failure(e) == plain(ConvertKind::NoTemplate),
            Some(b) => if b.chat_template is None {
                r matches Err(e) && failure(e) == plain(ConvertKind::NoTemplate)
            } else {
                match rendered {
                    Err(m) => r matches Err(e) && failure(e) == (ConvertKind::Render, m@),
                    Ok(text) => match media_refused(o, text@) {
                        Some(k) => r matches Err(e) && failure(e) == plain(k),
                        None => if o.images == 0 && o.audios == 0 {
                            match r {
                                Ok(MediaPlan::Text(ids)) => text_tokens(b, text@, false) == Ok::<
                                    Seq<u32>,
                                    (ConvertKind, Seq<char>),
                                >(ids@),
                                Ok(_) => false,
                                Err(e) => text_tokens(b, text@, false) == Err::<
                                    Seq<u32>,
                                    (ConvertKind, Seq<char>),
                                >(failure(e)),
                            }
                        } else if o.images > 0 {
                            r matches Ok(MediaPlan::Image { before, after }) && split_at_first(
                                text@,
                                MEDIA_MARKER@,
                                before@,
                                after@,
                            )
                        } else {
                            r matches Ok(MediaPlan::Audio { before, after }) && split_at_first(
                                text@,
                                MEDIA_MARKER@,
                                before@,
                                after@,
                            )
                        },
                    },
                }
            },
        },
        r matches Ok(MediaPlan::Text(ids)) ==> match (bundle, rendered) {
            (Some(b), Ok(t)) => encoded(&b.tokenizer@, t@, false) == Ok::<Seq<u32>, Seq<char>>(
                ids@,
            ),
            _ => false,
        },
        r matches Ok(MediaPlan::Image { before, after }) ==> (rendered matches Ok(t) && t@ == before@
            + MEDIA_MARKER@ + after@ && o.images == 1 && o.audios == 0 && o.has_vision),
        r matches Ok(MediaPlan::Audio { before, after }) ==> (rendered matches Ok(t) && t@ == before@
            + MEDIA_MARKER@ + after@ && o.audios == 1 && o.images == 0 && o.has_audio),
{
    proof {
        reveal_strlit("<__media__>");
    }
    let b = match bundle {
        None => {
            return Err(fail(ConvertKind::NoTemplate));
        },
        Some(b) => b,
    };
    if b.chat_template.is_none() {
        return Err(fail(ConvertKind::NoTemplate));
    }
    let text = match rendered {
        Err(e) => {
            return Err(fail_with(ConvertKind::Render, e));
        },
        Ok(t) => t,
    };
    if o.images > 0 && o.audios > 0 {
        return Err(fail(ConvertKind::BothMedia));
    }
    if o.images == 0 && o.audios == 0 {
        let ids = encode(b, text, false)?;
        return Ok(MediaPlan::Text(ids));
    }
    let (before, after) = match split_once(text, MEDIA_MARKER) {
        Some(p) => p,
        None => {
            return Err(fail(ConvertKind::MarkerLost));
        },
    };
    proof {
        let j = before@.len() as int;
        assert(text@.subrange(j, j + MEDIA_MARKER@.len()) =~= MEDIA_MARKER@);
        assert(stands_at(text@, MEDIA_MARKER@, j));
    }
    if o.images > 0 {
        if o.images > 1 {
            return Err(fail(ConvertKind::ManyImages));
        }
        if !o.has_vision {
            return Err(fail(ConvertKind::NoVision));
        }
        return Ok(MediaPlan::Image { before, after });
    }
    if o.audios > 1 {
        return Err(fail(ConvertKind::ManyAudios));
    }
    if !o.has_audio {
        return Err(fail(ConvertKind::NoAudio));
    }
    Ok(MediaPlan::Audio { before, after })
}

/// A prompt with a media block in it: an opening token, a placeholder for each
/// media token, and a closing token.
pub open spec fn blocked(
    before: Seq<u32>,
    open: u32,
    pad: u32,
    n: nat,
    close: u32,
    after: Seq<u32>,
) -> Seq<u32> {
    before.push(open) + Seq::new(n, |i: int| pad) + seq![close] + after
}

/// Put a media block between two stretches of tokens. The second result is where
/// the placeholders start.
pub fn splice_block(
    before: Vec<u32>,
    open: u32,
    pad: u32,
    n: usize,
    close: u32,
    after: &[u32],
) -> (r: (Vec<u32>, usize))
    ensures
        r.0@ == blocked(before@, open, pad, n as nat, close, after@),
        r.1 == before@.len() + 1,
        forall|i: int| r.1 <= i < r.1 + n ==> #[trigger] r.0@[i] == pad,
{
    let ghost head = before@.push(open);
    let mut tokens = before;
    tokens.push(open);
    let start: usize = tokens.len();
    let mut i: usize = 0;
    while i < n
        invariant
            i <= n,
            tokens@ == head + Seq::new(i as nat, |k: int| pad),
        decreases n - i,
    {
        tokens.push(pad);
        i += 1;
        assert(tokens@ =~= head + Seq::new(i as nat, |k: int| pad));
    }
    tokens.push(close);
    tokens.extend_from_slice(after);
    assert(tokens@ =~= blocked(before@, open, pad, n as nat, close, after@));
    (tokens, start)
}

/// The token of this text, or the failure that there is none.
pub open spec fn block_token(bundle: TokenizerBundle, text: Seq<char>) -> Result<
    u32,
    (ConvertKind, Seq<char>),
> {
    match id_of(&bundle.tokenizer@, text) {
        Some(id) => Ok(id),
        None => Err((ConvertKind::TokenMissing, text)),
    }
}

/// The token of this text.
fn tid(bundle: &TokenizerBundle, text: &str) -> (r: Result<u32, ConvertError>)
    ensures
        match r {
            Ok(id) => block_token(*bundle, text@) == Ok::<u32, (ConvertKind, Seq<char>)>(id),
            Err(e) => block_token(*bundle, text@) == Err::<u32, (ConvertKind, Seq<char>)>(
                failure(e),
            ),
        },
{
    match token_to_id(bundle.tokenizer.get(), text) {
        Some(id) => Ok(id),
        None => Err(fail_with(ConvertKind::TokenMissing, text)),
    }
}

/// A prompt with a media block of these tokens round its placeholders, or the
/// first failure.
pub open spec fn block_prompt(
    bundle: TokenizerBundle,
    before: Seq<char>,
    after: Seq<char>,
    marks: (Seq<char>, Seq<char>, Seq<char>),
    n: nat,
) -> Result<(Seq<u32>, int), (ConvertKind, Seq<char>)> {
    match text_tokens(bundle, before, false) {
        Err(e) => Err(e),
        Ok(a) => match block_token(bundle, marks.0) {
            Err(e) => Err(e),
            Ok(open) => match block_token(bundle, marks.1) {
                Err(e) => Err(e),
                Ok(pad) => match block_token(bundle, marks.2) {
                    Err(e) => Err(e),
                    Ok(close) => match text_tokens(bundle, after, false) {
                        Err(e) => Err(e),
                        Ok(b) => Ok((blocked(a, open, pad, n, close, b), a.len() as int + 1)),
                    },
                },
            },
        },
    }
}

/// The placeholders of a media block are the `n` tokens from the reported start
/// on, with its opening token before them and its closing token after.
pub proof fn law_placeholders_start_where_told(
    bundle: TokenizerBundle,
    before: Seq<char>,
    after: Seq<char>,
    marks: (Seq<char>, Seq<char>, Seq<char>),
    n: nat,
    i: int,
)
    requires
        block_prompt(bundle, before, after, marks, n) is Ok,
    ensures
        ({
            let (tokens, start) = block_prompt(bundle, before, after, marks, n)->Ok_0;
            &&& 0 < start && start + n < tokens.len()
            &&& block_token(bundle, marks.0) == Ok::<u32, (ConvertKind, Seq<char>)>(
                tokens[start - 1],
            )
            &&& 0 <= i < n ==> block_token(bundle, marks.1) == Ok::<
                u32,
                (ConvertKind, Seq<char>),
            >(tokens[start + i])
            &&& block_token(bundle, marks.2) == Ok::<u32, (ConvertKind, Seq<char>)>(
                tokens[start + n],
            )
        }),
{
}

/// A prompt of a text, a media block and a text: the encodings of both without
/// special tokens, and between them the opening token, `n` placeholders from
/// `start` on, and the closing token.
pub open spec fn encloses(
    bundle: TokenizerBundle,
    tokens: Seq<u32>,
    start: int,
    n: int,
    before: Seq<char>,
    after: Seq<char>,
    marks: (Seq<char>, Seq<char>, Seq<char>),
) -> bool {
    &&& 0 < start && start + n < tokens.len()
    &&& encoded(&bundle.tokenizer@, before, false) == Ok::<Seq<u32>, Seq<char>>(
        tokens.take(start - 1),
    )
    &&& id_of(&bundle.tokenizer@, marks.0) == Some(tokens[start - 1])
    &&& forall|i: int|
        start <= i < start + n ==> id_of(&bundle.tokenizer@, marks.1) == Some(#[trigger] tokens[i])
    &&& id_of(&bundle.tokenizer@, marks.2) == Some(tokens[start + n])
    &&& encoded(&bundle.tokenizer@, after, false) == Ok::<Seq<u32>, Seq<char>>(
        tokens.skip(start + n + 1),
    )
}

/// A prompt with a media block, or the first failure.
fn media_prompt(
    bundle: &TokenizerBundle,
    before: &str,
    after: &str,
    open: &str,
    pad: &str,
    close: &str,
    n: usize,
) -> (r: Result<(Vec<u32>, usize), ConvertError>)
    requires
        bundle.takes_text(),
    ensures
        match r {
            Ok((tokens, start)) => block_prompt(
                *bundle,
                before@,
                after@,
                (open@, pad@, close@),
                n as nat,
            ) == Ok::<(Seq<u32>, int), (ConvertKind, Seq<char>)>((tokens@, start as int)),
            Err(e) => block_prompt(*bundle, before@, after@, (open@, pad@, close@), n as nat)
                == Err::<(Seq<u32>, int), (ConvertKind, Seq<char>)>(failure(e)),
        },
        r matches Ok((tokens, start)) ==> encloses(
            *bundle,
            tokens@,
            start as int,
            n as int,
            before@,
            after@,
            (open@, pad@, close@),
        ),
{
    let tokens = encode(bundle, before, false)?;
    let ghost head = tokens@;
    let open_id: u32 = tid(bundle, open)?;
    let pad_id: u32 = tid(bundle, pad)?;
    let close_id: u32 = tid(bundle, close)?;
    let rest = encode(bundle, after, false)?;
    proof {
        let all = blocked(head, open_id, pad_id, n as nat, close_id, rest@);
        assert(all.take(head.len() as int) =~= head);
        assert(all.skip(head.len() + n + 2) =~= rest@);
    }
    Ok(splice_block(tokens, open_id, pad_id, n, close_id, rest.as_slice()))
}

/// A prompt with an image in it: the tokens, where its placeholders start, and
/// its grid of merged patches.
#[derive(Debug)]
pub struct ImagePrompt {
    pub tokens: Vec<u32>,
    pub image_start: usize,
    pub nx: usize,
    pub ny: usize,
}

/// The prompt of a conversation with an image of this patch grid that comes to
/// `n_tokens` tokens, `merge` patches a side for each.
pub fn image_prompt(
    bundle: &TokenizerBundle,
    before: &str,
    after: &str,
    grid_w: u32,
    grid_h: u32,
    n_tokens: u32,
    merge: u32,
) -> (r: Result<ImagePrompt, ConvertError>)
    requires
        merge > 0,
        bundle.takes_text(),
    ensures
        ({
            let s = block_prompt(
                *bundle,
                before@,
                after@,
                ("<|vision_start|>"@, "<|image_pad|>"@, "<|vision_end|>"@),
                n_tokens as nat,
            );
            match r {
                Ok(p) => {
                    &&& s == Ok::<(Seq<u32>, int), (ConvertKind, Seq<char>)>(
                        (p.tokens@, p.image_start as int),
                    )
                    &&& p.nx == grid_w / merge
                    &&& p.ny == grid_h / merge
                },
                Err(e) => s == Err::<(Seq<u32>, int), (ConvertKind, Seq<char>)>(failure(e)),
            }
        }),
        r matches Ok(p) ==> encloses(
            *bundle,
            p.tokens@,
            p.image_start as int,
            n_tokens as int,
            before@,
            after@,
            ("<|vision_start|>"@, "<|image_pad|>"@, "<|vision_end|>"@),
        ),
{
    let nx: usize = (grid_w / merge) as usize;
    let ny: usize = (grid_h / merge) as usize;
    let (tokens, image_start) = media_prompt(
        bundle,
        before,
        after,
        "<|vision_start|>",
        "<|image_pad|>",
        "<|vision_end|>",
        n_tokens as usize,
    )?;
    Ok(ImagePrompt { tokens, image_start, nx, ny })
}

/// A prompt with an audio clip in it: the tokens, where its placeholders start,
/// and how many there are.
#[derive(Debug)]
pub struct AudioPrompt {
    pub tokens: Vec<u32>,
    pub audio_start: usize,
    pub n_tok: usize,
}

/// Frames of this size that samples fill, the last one perhaps in part.
pub open spec fn frames(samples: int, frame_size: int) -> int {
    samples / frame_size + if samples % frame_size == 0 {
        0int
    } else {
        1int
    }
}

/// The prompt of a conversation with an audio clip of this many samples.
pub fn audio_prompt(
    bundle: &TokenizerBundle,
    before: &str,
    after: &str,
    samples: usize,
    frame_size: u32,
) -> (r: Result<AudioPrompt, ConvertError>)
    requires
        frame_size > 0,
        bundle.takes_text(),
    ensures
        ({
            let n = frames(samples as int, frame_size as int);
            let s = block_prompt(
                *bundle,
                before@,
                after@,
                ("<|audio>"@, "<|audio|>"@, "<audio|>"@),
                n as nat,
            );
            match r {
                Ok(p) => {
                    &&& s == Ok::<(Seq<u32>, int), (ConvertKind, Seq<char>)>(
                        (p.tokens@, p.audio_start as int),
                    )
                    &&& p.n_tok == n
                },
                Err(e) => s == Err::<(Seq<u32>, int), (ConvertKind, Seq<char>)>(failure(e)),
            }
        }),
        r matches Ok(p) ==> {
            &&& p.n_tok * frame_size >= samples
            &&& samples > 0 ==> (p.n_tok - 1) * frame_size < samples
            &&& samples == 0 ==> p.n_tok == 0
            &&& encloses(
                *bundle,
                p.tokens@,
                p.audio_start as int,
                p.n_tok as int,
                before@,
                after@,
                ("<|audio>"@, "<|audio|>"@, "<audio|>"@),
            )
        },
{
    let size: usize = frame_size as usize;
    let whole: usize = samples / size;
    proof {
        assert(samples as int / size as int <= samples && (size == 1 ==> samples as int % 1 == 0))
            by (nonlinear_arith)
            requires
                size >= 1,
        ;
        assert(size >= 2 ==> samples as int / size as int <= samples as int / 2)
            by (nonlinear_arith)
            requires
                size >= 1,
                samples >= 0,
        ;
    }
    let n_tok: usize = if samples % size == 0 {
        whole
    } else {
        whole + 1
    };
    proof {
        assert(n_tok * size >= samples && (samples > 0 ==> (n_tok - 1) * size < samples) && (
        samples == 0 ==> n_tok == 0)) by (nonlinear_arith)
            requires
                size >= 1,
                samples >= 0,
                n_tok == samples as int / size as int + if samples as int % size as int == 0 {
                    0int
                } else {
                    1int
                },
        ;
    }
    let (tokens, audio_start) = media_prompt(
        bundle,
        before,
        after,
        "<|audio>",
        "<|audio|>",
        "<audio|>",
        n_tok,
    )?;
    Ok(AudioPrompt { tokens, audio_start, n_tok })
}

/// Tokens that two lists start with alike.
pub open spec fn shared(a: Seq<u32>, b: Seq<u32>) -> int
    decreases a.len(),
{
    if a.len() == 0 || b.len() == 0 || a[0] != b[0] {
        0
    } else {
        1 + shared(a.skip(1), b.skip(1))
    }
}

/// What two lists start with alike is as long as can be.
pub proof fn lemma_shared(a: Seq<u32>, b: Seq<u32>, k: int)
    requires
        0 <= k <= a.len(),
        k <= b.len(),
        forall|i: int| 0 <= i < k ==> #[trigger] a[i] == b[i],
        k == a.len() || k == b.len() || a[k] != b[k],
    ensures
        shared(a, b) == k,
    decreases k,
{
    if k > 0 {
        assert(a[0] == b[0]);
        assert forall|i: int| 0 <= i < k - 1 implies #[trigger] a.skip(1)[i] == b.skip(1)[i] by {
            assert(a[i + 1] == b[i + 1]);
        }
        lemma_shared(a.skip(1), b.skip(1), k - 1);
    }
}

/// The tokens that two prompts start with alike, where there are any.
pub fn shared_prefix(a: &[u32], b: &[u32]) -> (r: Option<Vec<u32>>)
    ensures
        match r {
            Some(v) => shared(a@, b@) > 0 && v@ == a@.take(shared(a@, b@)),
            None => shared(a@, b@) == 0,
        },
        match r {
            Some(v) => {
                &&& 0 < v@.len() <= a@.len() && v@.len() <= b@.len()
                &&& v@ == a@.take(v@.len() as int) && v@ == b@.take(v@.len() as int)
                &&& v@.len() == a@.len() || v@.len() == b@.len() || a@[v@.len() as int]
                    != b@[v@.len() as int]
            },
            None => a@.len() == 0 || b@.len() == 0 || a@[0] != b@[0],
        },
{
    let mut out: Vec<u32> = Vec::new();
    let mut i: usize = 0;
    while i < a.len() && i < b.len() && a[i] == b[i]
        invariant
            i <= a@.len(),
            i <= b@.len(),
            out@ == a@.take(i as int),
            forall|k: int| 0 <= k < i ==> #[trigger] a@[k] == b@[k],
        decreases a@.len() - i,
    {
        out.push(a[i]);
        assert(out@ =~= a@.take(i + 1));
        i += 1;
    }
    proof {
        lemma_shared(a@, b@, i as int);
        assert(a@.take(i as int) =~= b@.take(i as int));
    }
    if i > 0 {
        Some(out)
    } else {
        None
    }
}

/// The tokens of a rendered text, where there is one and it can be encoded.
pub open spec fn render_tokens(bundle: TokenizerBundle, rendered: Option<Seq<char>>) -> Option<
    Seq<u32>,
> {
    match rendered {
        None => None,
        Some(t) => match text_tokens(bundle, t, false) {
            Ok(ids) => Some(ids),
            Err(_) => None,
        },
    }
}

/// The tokens of a rendered text, where there is one and it can be encoded.
fn render_ids(bundle: &TokenizerBundle, rendered: Option<&str>) -> (r: Option<Vec<u32>>)
    requires
        rendered is Some ==> bundle.takes_text(),
    ensures
        match r {
            Some(v) => render_tokens(*bundle, opt_view(rendered)) == Some(v@),
            None => render_tokens(*bundle, opt_view(rendered)) is None,
        },
{
    match rendered {
        None => None,
        Some(t) => match encode(bundle, t, false) {
            Ok(ids) => Some(ids),
            Err(_) => None,
        },
    }
}

/// An optional text by its view.
pub open spec fn opt_view(s: Option<&str>) -> Option<Seq<char>> {
    match s {
        Some(t) => Some(t@),
        None => None,
    }
}

/// The turns whose renderings tell what every conversation under this system
/// prompt starts with.
pub fn pin_turns(system_prompt: &str, user: &str) -> (r: Vec<ChatMessage>)
    ensures
        turns(r@) == seq![said("system"@, system_prompt@), said("user"@, user@)],
{
    let mut messages: Vec<ChatMessage> = Vec::new();
    messages.push(ChatMessage::user(user));
    proof {
        reveal_strlit("user");
        reveal_strlit("system");
        assert(turns(messages@) =~= seq![said("user"@, user@)]);
        assert("user"@.len() != "system"@.len());
    }
    apply_default_system(&mut messages, Some(system_prompt));
    assert(turns(messages@) =~= seq![said("system"@, system_prompt@), said("user"@, user@)]);
    messages
}

/// The tokens that every conversation under a system prompt starts with: what the
/// renderings of two different user turns after it start with alike. None where
/// there is no template, a rendering failed, or they share nothing.
pub fn compute_pin_prefix(
    bundle: &TokenizerBundle,
    rendered_a: Option<&str>,
    rendered_b: Option<&str>,
) -> (r: Option<Vec<u32>>)
    requires
        bundle.chat_template is Some && (rendered_a is Some || rendered_b is Some)
            ==> bundle.takes_text(),
    ensures
        ({
            let a = render_tokens(*bundle, opt_view(rendered_a));
            let b = render_tokens(*bundle, opt_view(rendered_b));
            if bundle.chat_template is None || a is None || b is None {
                r is None
            } else {
                match r {
                    Some(v) => shared(a->0, b->0) > 0 && v@ == a->0.take(shared(a->0, b->0)),
                    None => shared(a->0, b->0) == 0,
                }
            }
        }),
        r matches Some(v) ==> match (rendered_a, rendered_b) {
            (Some(ta), Some(tb)) => match (
                encoded(&bundle.tokenizer@, ta@, false),
                encoded(&bundle.tokenizer@, tb@, false),
            ) {
                (Ok(a), Ok(b)) => {
                    &&& 0 < v@.len() <= a.len() && v@.len() <= b.len()
                    &&& v@ == a.take(v@.len() as int) && v@ == b.take(v@.len() as int)
                    &&& v@.len() == a.len() || v@.len() == b.len() || a[v@.len() as int]
                        != b[v@.len() as int]
                },
                _ => false,
            },
            _ => false,
        },
{
    if bundle.chat_template.is_none() {
        return None;
    }
    let a = match render_ids(bundle, rendered_a) {
        Some(v) => v,
        None => {
            return None;
        },
    };
    let b = match render_ids(bundle, rendered_b) {
        Some(v) => v,
        None => {
            return None;
        },
    };
    shared_prefix(a.as_slice(), b.as_slice())
}

} // verus!
