//! What conversations and attached media turn into.
use vstd::prelude::*;

use crate::base64_text::{base64_text, law_base64_is_unambiguous, symbol};
use crate::json::{field, text_of, Json};
use crate::server::convert::{
    anthropic_turns, audio_bytes, audio_data, content_mixed, content_text, decodes, field_text,
    image_bytes, mixed_steps, nothing, openai_turns, part_added, part_text, parts_text, plain,
    stop_sequences, strings_among, system_turns, value_turn, value_turns, with_system,
    ConvertKind, Mixed, Turn, MEDIA_MARKER,
};
use crate::server::types::anthropic::MessagesInputMessage;
use crate::server::types::openai::ChatMessage as OpenAiMessage;
use crate::text::{lemma_split_unique, split_at_first, stands_at, trimmed, white};

verus! {

/// The part is a text part with this text.
pub open spec fn says(part: Json, text: Seq<char>) -> bool {
    &&& text_of(field(part, "type"@)) == Some("text"@)
    &&& text_of(field(part, "text"@)) == Some(text)
}

/// The first `n` text parts give their texts one behind the other.
proof fn lemma_parts_join(parts: Seq<Json>, texts: Seq<Seq<char>>, n: int)
    requires
        0 <= n <= parts.len(),
        texts.len() == parts.len(),
        forall|i: int| 0 <= i < n ==> says(#[trigger] parts[i], texts[i]),
    ensures
        parts_text(parts, n) == Ok::<Seq<char>, (ConvertKind, Seq<char>)>(texts.take(n).flatten()),
    decreases n,
{
    let part = texts.take(n);
    if n > 0 {
        lemma_parts_join(parts, texts, n - 1);
        assert(says(parts[n - 1], texts[n - 1]));
        assert(part.drop_last() =~= texts.take(n - 1));
        assert(part.last() == texts[n - 1]);
        part.lemma_flatten_and_flatten_alt_are_equivalent();
        part.drop_last().lemma_flatten_and_flatten_alt_are_equivalent();
    } else {
        assert(part =~= Seq::empty());
    }
}

/// Content of text parts alone is their texts one behind the other; a text by
/// itself is the same as one part with that text; no content is an empty text.
pub proof fn law_text_parts_are_joined(parts: Vec<Json>, texts: Seq<Seq<char>>)
    requires
        texts.len() == parts@.len(),
        forall|i: int| 0 <= i < parts@.len() ==> says(#[trigger] parts@[i], texts[i]),
    ensures
        content_text(Json::Array(parts)) == Ok::<Seq<char>, (ConvertKind, Seq<char>)>(
            texts.flatten(),
        ),
        forall|s: String|
            #![trigger content_text(Json::String(s))]
            texts == seq![s@] ==> content_text(Json::String(s)) == content_text(
                Json::Array(parts),
            ),
        content_text(Json::Null) matches Ok(t) && t.len() == 0,
{
    lemma_parts_join(parts@, texts, parts@.len() as int);
    assert(texts.take(parts@.len() as int) =~= texts);
    assert forall|s: String|
        #![trigger content_text(Json::String(s))]
        texts == seq![s@] implies content_text(Json::String(s)) == content_text(
        Json::Array(parts),
    ) by {
        assert(seq![s@].drop_first() =~= Seq::empty());
        reveal_with_fuel(Seq::flatten, 2);
        assert(texts.flatten() =~= s@);
    }
}

/// Where text alone is taken, the first part that is no text part decides the
/// failure: one without a kind, one of another kind, or a text part without text.
pub proof fn law_first_bad_part_fails(parts: Vec<Json>, texts: Seq<Seq<char>>, k: int)
    requires
        0 <= k < parts@.len(),
        texts.len() == parts@.len(),
        forall|i: int| 0 <= i < k ==> says(#[trigger] parts@[i], texts[i]),
        forall|t: Seq<char>| !says(parts@[k], t),
    ensures
        content_text(Json::Array(parts)) matches Err(e) && match text_of(
            field(parts@[k], "type"@),
        ) {
            None => e.0 is KindMissing,
            Some(kind) => if kind == "text"@ {
                e.0 is TextMissing
            } else {
                e.0 is TextOnly && e.1 == kind
            },
        },
{
    lemma_parts_join(parts@, texts, k);
    if let Some(t) = text_of(field(parts@[k], "text"@)) {
        assert(!says(parts@[k], t));
    }
    lemma_fails_on(parts@, k + 1, parts@.len() as int);
}

/// A failure among the first parts is the failure of all.
proof fn lemma_fails_on(parts: Seq<Json>, k: int, n: int)
    requires
        0 <= k <= n,
        parts_text(parts, k) is Err,
    ensures
        parts_text(parts, n) == parts_text(parts, k),
    decreases n,
{
    if k < n {
        lemma_fails_on(parts, k, n - 1);
    }
}

/// What a part leaves in the text: its own, or a marker where a media item sat.
pub open spec fn left_by(part: Json) -> Seq<char> {
    if text_of(field(part, "type"@)) == Some("text"@) {
        text_of(field(part, "text"@))->0
    } else {
        "<__media__>"@
    }
}

/// Parts of this kind among the first `n`.
pub open spec fn of_kind(parts: Seq<Json>, kind: Seq<char>, n: int) -> nat
    decreases n,
{
    if n <= 0 {
        0
    } else {
        of_kind(parts, kind, n - 1) + if text_of(field(parts[n - 1], "type"@)) == Some(kind) {
            1nat
        } else {
            0nat
        }
    }
}

/// What the first `k` parts hold, as far as text and numbers go.
proof fn lemma_steps_hold(parts: Seq<Json>, steps: Seq<Mixed>, k: int)
    requires
        mixed_steps(parts, steps),
        0 <= k < steps.len(),
        k <= parts.len(),
    ensures
        steps[k].text == parts.map_values(|p: Json| left_by(p)).take(k).flatten(),
        steps[k].images.len() == of_kind(parts, "image_url"@, k),
        steps[k].audios.len() == of_kind(parts, "input_audio"@, k),
    decreases k,
{
    let all = parts.map_values(|p: Json| left_by(p));
    let part = all.take(k);
    reveal_strlit("text");
    reveal_strlit("image_url");
    reveal_strlit("input_audio");
    if k > 0 {
        lemma_steps_hold(parts, steps, k - 1);
        assert(part_added(steps[k - 1], parts[k - 1], Ok(steps[k])));
        assert(part.drop_last() =~= all.take(k - 1));
        assert(part.last() == left_by(parts[k - 1]));
        part.lemma_flatten_and_flatten_alt_are_equivalent();
        part.drop_last().lemma_flatten_and_flatten_alt_are_equivalent();
        assert("text"@.len() == 4 && "image_url"@.len() == 9 && "input_audio"@.len() == 11);
    } else {
        assert(part =~= Seq::empty());
    }
}

/// Content with media is the texts of its text parts and a marker in place of every
/// media item, one behind the other, and as many images and audio clips as it has
/// parts of each kind.
pub proof fn law_media_leave_a_marker(parts: Vec<Json>, m: Mixed)
    requires
        content_mixed(Json::Array(parts), Ok(m)),
    ensures
        m.text == parts@.map_values(|p: Json| left_by(p)).flatten(),
        m.images.len() == of_kind(parts@, "image_url"@, parts@.len() as int),
        m.audios.len() == of_kind(parts@, "input_audio"@, parts@.len() as int),
{
    let steps = choose|steps: Seq<Mixed>| #[trigger]
        mixed_steps(parts@, steps) && steps.len() == parts@.len() + 1 && steps.last() == m;
    lemma_steps_hold(parts@, steps, parts@.len() as int);
    let all = parts@.map_values(|p: Json| left_by(p));
    assert(all.take(parts@.len() as int) =~= all);
}

/// A conversation's turns follow its messages one for one: the same role, the text
/// of the content, no thinking. The first message whose content fails decides the
/// failure.
pub proof fn law_openai_turns_follow_messages(messages: Seq<OpenAiMessage>, n: int)
    requires
        0 <= n <= messages.len(),
    ensures
        match openai_turns(messages, n) {
            Ok(t) => t.len() == n && forall|i: int|
                #![trigger t[i]]
                0 <= i < n ==> t[i].role == messages[i].role@ && t[i].reasoning is None
                    && content_text(messages[i].content) == Ok::<
                    Seq<char>,
                    (ConvertKind, Seq<char>),
                >(t[i].content),
            Err(e) => exists|k: int|
                #![trigger messages[k]]
                0 <= k < n && content_text(messages[k].content) == Err::<
                    Seq<char>,
                    (ConvertKind, Seq<char>),
                >(e) && forall|j: int|
                    0 <= j < k ==> content_text((#[trigger] messages[j]).content) is Ok,
        },
    decreases n,
{
    if n > 0 {
        law_openai_turns_follow_messages(messages, n - 1);
        if openai_turns(messages, n - 1) is Ok && content_text(messages[n - 1].content) is Err {
            let t = openai_turns(messages, n - 1)->Ok_0;
            assert forall|j: int| 0 <= j < n - 1 implies content_text(
                (#[trigger] messages[j]).content,
            ) is Ok by {
                assert(t[j].role == messages[j].role@);
            }
            assert(messages[n - 1] == messages[n - 1]);
        }
    }
}

/// Turns that a system field puts in front: one where it has a text.
pub open spec fn led_by(system: Option<Json>) -> int {
    match system {
        Some(v) => match content_text(v) {
            Ok(s) => if s.len() > 0 {
                1
            } else {
                0
            },
            Err(_) => 0,
        },
        None => 0,
    }
}

/// The turns of a message request follow its messages one for one, behind one
/// system turn where the system field has a text.
pub proof fn law_anthropic_turns_follow_messages(
    system: Option<Json>,
    messages: Seq<MessagesInputMessage>,
    n: int,
)
    requires
        0 <= n <= messages.len(),
    ensures
        anthropic_turns(system, messages, n) matches Ok(t) ==> {
            let lead = led_by(system);
            &&& t.len() == lead + n
            &&& lead == 1 ==> t[0].role == "system"@ && content_text(system->0) == Ok::<
                Seq<char>,
                (ConvertKind, Seq<char>),
            >(t[0].content) && t[0].reasoning is None
            &&& forall|i: int|
                #![trigger messages[i]]
                0 <= i < n ==> t[lead + i].role == messages[i].role@ && t[lead
                    + i].reasoning is None && content_text(messages[i].content) == Ok::<
                    Seq<char>,
                    (ConvertKind, Seq<char>),
                >(t[lead + i].content)
        },
        anthropic_turns(system, messages, n) is Err <==> {
            ||| system matches Some(v) && content_text(v) is Err
            ||| exists|k: int|
                0 <= k < n && content_text((#[trigger] messages[k]).content) is Err
        },
    decreases n,
{
    if n > 0 {
        law_anthropic_turns_follow_messages(system, messages, n - 1);
        if content_text(messages[n - 1].content) is Err {
            assert(messages[n - 1] == messages[n - 1]);
        }
    }
}

/// Raw messages turn into turns one for one: the role that each must have, the text
/// of its content or an empty one, and its thinking where it has any.
pub proof fn law_raw_turns_follow_messages(messages: Seq<Json>, n: int)
    requires
        0 <= n <= messages.len(),
    ensures
        value_turns(messages, n) matches Ok(t) ==> t.len() == n && forall|i: int|
            #![trigger t[i]]
            0 <= i < n ==> {
                &&& text_of(field(messages[i], "role"@)) == Some(t[i].role)
                &&& t[i].reasoning == text_of(field(messages[i], "reasoning_content"@))
                &&& match field(messages[i], "content"@) {
                    Some(c) => content_text(c) == Ok::<Seq<char>, (ConvertKind, Seq<char>)>(
                        t[i].content,
                    ),
                    None => t[i].content.len() == 0,
                }
            },
        value_turns(messages, n) is Err <==> exists|k: int|
            0 <= k < n && raw_refused(#[trigger] messages[k]),
    decreases n,
{
    if n > 0 {
        law_raw_turns_follow_messages(messages, n - 1);
        assert(value_turn(messages[n - 1]) is Err <==> raw_refused(messages[n - 1]));
    }
}

/// A raw message that makes no turn: one without a role, or with content that
/// fails.
pub open spec fn raw_refused(v: Json) -> bool {
    ||| text_of(field(v, "role"@)) is None
    ||| field(v, "content"@) matches Some(c) && content_text(c) is Err
}

/// The server's system prompt goes in front of a conversation that has no system
/// turn, and changes nothing else.
pub proof fn law_system_prompt_leads(messages: Seq<Turn>, sys: Seq<char>)
    ensures
        with_system(messages, None) == messages,
        (forall|i: int| 0 <= i < messages.len() ==> (#[trigger] messages[i]).role != "system"@)
            ==> {
            let r = with_system(messages, Some(sys));
            &&& r.len() == messages.len() + 1
            &&& r[0].role == "system"@ && r[0].content == sys && r[0].reasoning is None
            &&& r.skip(1) == messages
        },
{
    let r = with_system(messages, Some(sys));
    if forall|i: int| 0 <= i < messages.len() ==> (#[trigger] messages[i]).role != "system"@ {
        assert(r.skip(1) =~= messages);
    }
}

/// The stop sequences of an array are its strings, in order; of a string, that
/// string; of anything else there are none.
pub proof fn law_stops_are_the_strings(stop: Option<Json>)
    ensures
        match stop {
            Some(Json::String(s)) => stop_sequences(stop) == seq![s@],
            Some(Json::Array(a)) => stop_sequences(stop) == a@.filter(
                |v: Json| v is String,
            ).map_values(|v: Json| v->String_0@),
            _ => stop_sequences(stop).len() == 0,
        },
{
    if let Some(Json::Array(a)) = stop {
        lemma_strings_filtered(a@, a@.len() as int);
        assert(a@.take(a@.len() as int) =~= a@);
    }
}

/// The strings among the first values are those that a filter leaves of them.
proof fn lemma_strings_filtered(a: Seq<Json>, n: int)
    requires
        0 <= n <= a.len(),
    ensures
        strings_among(a, n) == a.take(n).filter(|v: Json| v is String).map_values(
            |v: Json| v->String_0@,
        ),
    decreases n,
{
    let keep = |v: Json| v is String;
    let text = |v: Json| v->String_0@;
    reveal(Seq::filter);
    if n > 0 {
        lemma_strings_filtered(a, n - 1);
        assert(a.take(n).drop_last() =~= a.take(n - 1));
        assert(a.take(n).last() == a[n - 1]);
        if a[n - 1] is String {
            let before = a.take(n - 1).filter(keep);
            assert(before.push(a[n - 1]).map_values(text) =~= before.map_values(text).push(
                text(a[n - 1]),
            ));
        }
    } else {
        assert(a.take(0).filter(keep).map_values(text) =~= seq![]);
    }
}

/// The text of bytes in base64 starts and ends with no white space.
proof fn lemma_base64_is_bare(b: Seq<u8>)
    ensures
        b.len() > 0 ==> base64_text(b).len() > 0 && !white(base64_text(b)[0]) && !white(
            base64_text(b).last(),
        ),
        b.len() == 0 ==> base64_text(b).len() == 0,
    decreases b.len(),
{
    if b.len() > 0 {
        lemma_symbol_is_bare(b[0] as int / 4);
        let text = base64_text(b);
        assert(text[0] == symbol(b[0] as int / 4));
        if b.len() > 3 {
            let rest = base64_text(b.skip(3));
            lemma_base64_is_bare(b.skip(3));
            assert(text.last() == rest.last());
        } else if b.len() == 3 {
            assert(b.skip(3) =~= seq![]);
            lemma_symbol_is_bare(b[2] as int % 64);
            assert(base64_text(b.skip(3)).len() == 0);
            assert(text.last() == symbol(b[2] as int % 64));
        } else {
            assert(text.last() == '=');
        }
    }
}

/// No symbol is white space.
proof fn lemma_symbol_is_bare(v: int)
    requires
        0 <= v < 64,
    ensures
        !white(symbol(v)),
{
}

/// A text that is the base64 of some bytes stands for those bytes.
proof fn lemma_decodes(b: Seq<u8>, kind: ConvertKind, r: Result<Seq<u8>, (ConvertKind, Seq<char>)>)
    requires
        decodes(trimmed(base64_text(b)), kind, r),
    ensures
        r == Ok::<Seq<u8>, (ConvertKind, Seq<char>)>(b),
{
    lemma_base64_is_bare(b);
    assert(trimmed(base64_text(b)) == base64_text(b));
    match r {
        Ok(c) => {
            law_base64_is_unambiguous(b, c);
        },
        Err(_) => {},
    }
}

/// An image sent as a base64 data URL arrives as the bytes that were sent.
pub proof fn law_image_arrives_as_sent(
    head: Seq<char>,
    bytes: Seq<u8>,
    j: int,
    r: Result<Seq<u8>, (ConvertKind, Seq<char>)>,
)
    requires
        forall|i: int| !#[trigger] stands_at(head + ","@ + base64_text(bytes), ","@, i) || i
            >= head.len(),
        stands_at(head, "base64"@, j),
        image_bytes("data:"@ + (head + ","@ + base64_text(bytes)), r),
    ensures
        r == Ok::<Seq<u8>, (ConvertKind, Seq<char>)>(bytes),
{
    let rest = head + ","@ + base64_text(bytes);
    let url = "data:"@ + rest;
    reveal_strlit(",");
    assert("data:"@.is_prefix_of(url));
    assert(url.skip("data:"@.len() as int) =~= rest);
    assert(rest.subrange(head.len() as int, head.len() as int + ","@.len() as int) =~= ","@);
    assert(stands_at(rest, ","@, head.len() as int));
    assert(split_at_first(rest, ","@, head, base64_text(bytes)));
    let (h, body) = choose|h: Seq<char>, body: Seq<char>| #[trigger]
        split_at_first(rest, ","@, h, body) && if exists|i: int|
            #[trigger] stands_at(h, "base64"@, i) {
            decodes(trimmed(body), ConvertKind::ImageBase64, r)
        } else {
            r == Err::<Seq<u8>, _>(plain(ConvertKind::NotBase64Url))
        };
    lemma_split_unique(rest, ","@, head, base64_text(bytes), h, body);
    lemma_decodes(bytes, ConvertKind::ImageBase64, r);
}

/// An audio clip sent as base64 arrives as the bytes that were sent.
pub proof fn law_audio_arrives_as_sent(
    part: Json,
    bytes: Seq<u8>,
    r: Result<Seq<u8>, (ConvertKind, Seq<char>)>,
)
    requires
        audio_data(part) == Some(base64_text(bytes)),
        !"data:"@.is_prefix_of(base64_text(bytes)),
        audio_bytes(part, r),
    ensures
        r == Ok::<Seq<u8>, (ConvertKind, Seq<char>)>(bytes),
{
    lemma_decodes(bytes, ConvertKind::AudioBase64, r);
}

} // verus!
