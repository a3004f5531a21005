//! From request bodies to what a model is asked: message texts, attached media,
//! stop sequences and prompt tokens.
use vstd::prelude::*;
use vstd::string::*;

use crate::base64_text::{base64_fault, base64_message, base64_text, decode_base64};
use crate::gguf::texts;
use crate::json::{field, text_of, Json};
use crate::server::types::anthropic::MessagesInputMessage;
use crate::server::types::openai::ChatMessage as OpenAiMessage;
use crate::text::{
    contains, join2, join3, split_at_first, split_once, stands_at, str_eq, strip_prefix, trim,
    trimmed,
};

verus! {

/// What is wrong with a request.
#[derive(Clone, Copy, PartialEq, Eq, Structural, Debug)]
pub enum ConvertKind {
    /// A text part has no text.
    TextMissing,
    /// A part of a kind that is not taken; the detail is the kind.
    PartKind,
    /// As `PartKind`, where text alone is taken.
    TextOnly,
    /// A part has no kind.
    KindMissing,
    /// Content of a shape that is not taken.
    ContentShape,
    ImageUrlMissing,
    NotDataUrl,
    ImageUrlComma,
    NotBase64Url,
    /// The detail is what is wrong.
    ImageBase64,
    AudioMissing,
    AudioComma,
    /// The detail is what is wrong.
    AudioBase64,
    RoleMissing,
    PromptMissing,
    TokenRange,
    PromptMixed,
    PromptShape,
    /// The detail is the tokenizer's error.
    Tokenize,
    InputEmpty,
    InputArray,
    InputElement,
    InputShape,
    NoTemplate,
    /// The detail is the template's error.
    Render,
    BothMedia,
    MarkerLost,
    ManyImages,
    NoVision,
    ManyAudios,
    NoAudio,
    /// The detail is the token that the tokenizer lacks.
    TokenMissing,
}

/// Why a request cannot be served.
#[derive(Debug)]
pub struct ConvertError {
    pub kind: ConvertKind,
    pub detail: String,
}

/// A failure by its kind and detail.
pub open spec fn failure(e: ConvertError) -> (ConvertKind, Seq<char>) {
    (e.kind, e.detail@)
}

/// A failure without a detail.
pub open spec fn plain(kind: ConvertKind) -> (ConvertKind, Seq<char>) {
    (kind, seq![])
}

/// A failure without a detail.
pub fn fail(kind: ConvertKind) -> (r: ConvertError)
    ensures
        failure(r) == plain(kind),
{
    let e = ConvertError { kind, detail: String::new() };
    assert(e.detail@ =~= seq![]);
    e
}

/// A failure with a detail.
pub fn fail_with(kind: ConvertKind, detail: &str) -> (r: ConvertError)
    ensures
        failure(r) == (kind, detail@),
{
    ConvertError { kind, detail: String::from_str(detail) }
}

/// A failure in words. `rendered` shows the kind of a part that is not taken, or
/// the value whose shape is not taken.
pub open spec fn convert_message(f: (ConvertKind, Seq<char>), rendered: Seq<char>) -> Seq<char> {
    match f.0 {
        ConvertKind::TextMissing => "content text part missing string `text`"@,
        ConvertKind::PartKind => "unsupported content part type "@ + rendered,
        ConvertKind::TextOnly => "unsupported content part type "@ + rendered
            + " — this server is text-only"@,
        ConvertKind::KindMissing => "content array part missing `type`"@,
        ConvertKind::ContentShape => "unsupported message content: "@ + rendered,
        ConvertKind::ImageUrlMissing => "image_url part missing string `image_url.url`"@,
        ConvertKind::NotDataUrl =>
            "image_url must be a base64 data URL (data:<mime>;base64,…); remote URLs are not fetched"@,
        ConvertKind::ImageUrlComma => "malformed image_url data URL: missing comma"@,
        ConvertKind::NotBase64Url => "image_url data URL must be base64-encoded"@,
        ConvertKind::ImageBase64 => "image_url base64 decode failed: "@ + f.1,
        ConvertKind::AudioMissing => "input_audio part missing string `input_audio.data`"@,
        ConvertKind::AudioComma => "malformed input_audio data URL: missing comma"@,
        ConvertKind::AudioBase64 => "input_audio base64 decode failed: "@ + f.1,
        ConvertKind::RoleMissing => "message missing string `role`"@,
        ConvertKind::PromptMissing => "request is missing `prompt`"@,
        ConvertKind::TokenRange => "prompt token id out of range"@,
        ConvertKind::PromptMixed => "prompt array must be all strings or all ints"@,
        ConvertKind::PromptShape => "unsupported `prompt`: "@ + rendered,
        ConvertKind::Tokenize => "tokenize failed: "@ + f.1,
        ConvertKind::InputEmpty => "`input` is empty"@,
        ConvertKind::InputArray =>
            "`input` array elements must be strings or integer token arrays"@,
        ConvertKind::InputElement => "unsupported `input` element: "@ + rendered,
        ConvertKind::InputShape => "unsupported `input`: "@ + rendered,
        ConvertKind::NoTemplate =>
            "this model has no chat template — use the completion endpoints"@,
        ConvertKind::Render => f.1,
        ConvertKind::BothMedia => "a request may carry an image or audio, not both"@,
        ConvertKind::MarkerLost => "rendered chat prompt lost the <__media__> marker"@,
        ConvertKind::ManyImages => "only one image per request is supported"@,
        ConvertKind::NoVision =>
            "this server has no vision model (mmproj); image input is unsupported"@,
        ConvertKind::ManyAudios => "only one audio clip per request is supported"@,
        ConvertKind::NoAudio =>
            "this server has no audio model (mmproj audio encoder); audio input is unsupported"@,
        ConvertKind::TokenMissing => "tokenizer has no "@ + f.1
            + " token — this model lacks that modality"@,
    }
}

impl ConvertError {
    /// The failure in words.
    pub fn message(&self, rendered: &str) -> (r: String)
        ensures
            r@ == convert_message(failure(*self), rendered@),
    {
        let detail = self.detail.as_str();
        match self.kind {
            ConvertKind::TextMissing => String::from_str("content text part missing string `text`"),
            ConvertKind::PartKind => join2("unsupported content part type ", rendered),
            ConvertKind::TextOnly => join3(
                "unsupported content part type ",
                rendered,
                " — this server is text-only",
            ),
            ConvertKind::KindMissing => String::from_str("content array part missing `type`"),
            ConvertKind::ContentShape => join2("unsupported message content: ", rendered),
            ConvertKind::ImageUrlMissing => String::from_str(
                "image_url part missing string `image_url.url`",
            ),
            ConvertKind::NotDataUrl => String::from_str(
                "image_url must be a base64 data URL (data:<mime>;base64,…); remote URLs are not fetched",
            ),
            ConvertKind::ImageUrlComma => String::from_str(
                "malformed image_url data URL: missing comma",
            ),
            ConvertKind::NotBase64Url => String::from_str(
                "image_url data URL must be base64-encoded",
            ),
            ConvertKind::ImageBase64 => join2("image_url base64 decode failed: ", detail),
            ConvertKind::AudioMissing => String::from_str(
                "input_audio part missing string `input_audio.data`",
            ),
            ConvertKind::AudioComma => String::from_str(
                "malformed input_audio data URL: missing comma",
            ),
            ConvertKind::AudioBase64 => join2("input_audio base64 decode failed: ", detail),
            ConvertKind::RoleMissing => String::from_str("message missing string `role`"),
            ConvertKind::PromptMissing => String::from_str("request is missing `prompt`"),
            ConvertKind::TokenRange => String::from_str("prompt token id out of range"),
            ConvertKind::PromptMixed => String::from_str(
                "prompt array must be all strings or all ints",
            ),
            ConvertKind::PromptShape => join2("unsupported `prompt`: ", rendered),
            ConvertKind::Tokenize => join2("tokenize failed: ", detail),
            ConvertKind::InputEmpty => String::from_str("`input` is empty"),
            ConvertKind::InputArray => String::from_str(
                "`input` array elements must be strings or integer token arrays",
            ),
            ConvertKind::InputElement => join2("unsupported `input` element: ", rendered),
            ConvertKind::InputShape => join2("unsupported `input`: ", rendered),
            ConvertKind::NoTemplate => String::from_str(
                "this model has no chat template — use the completion endpoints",
            ),
            ConvertKind::Render => String::from_str(detail),
            ConvertKind::BothMedia => String::from_str(
                "a request may carry an image or audio, not both",
            ),
            ConvertKind::MarkerLost => String::from_str(
                "rendered chat prompt lost the <__media__> marker",
            ),
            ConvertKind::ManyImages => String::from_str("only one image per request is supported"),
            ConvertKind::NoVision => String::from_str(
                "this server has no vision model (mmproj); image input is unsupported",
            ),
            ConvertKind::ManyAudios => String::from_str(
                "only one audio clip per request is supported",
            ),
            ConvertKind::NoAudio => String::from_str(
                "this server has no audio model (mmproj audio encoder); audio input is unsupported",
            ),
            ConvertKind::TokenMissing => join3(
                "tokenizer has no ",
                detail,
                " token — this model lacks that modality",
            ),
        }
    }
}

/// Stands in a chat template's output where a media item goes.
pub const MEDIA_MARKER: &'static str = "<__media__>";

/// The text of a content part, where text alone is taken.
pub open spec fn part_text(part: Json) -> Result<Seq<char>, (ConvertKind, Seq<char>)> {
    match text_of(field(part, "type"@)) {
        None => Err(plain(ConvertKind::KindMissing)),
        Some(kind) => if kind == "text"@ {
            match text_of(field(part, "text"@)) {
                Some(t) => Ok(t),
                None => Err(plain(ConvertKind::TextMissing)),
            }
        } else {
            Err((ConvertKind::TextOnly, kind))
        },
    }
}

/// The text of the first `n` parts, or the first failure among them.
pub open spec fn parts_text(parts: Seq<Json>, n: int) -> Result<
    Seq<char>,
    (ConvertKind, Seq<char>),
>
    decreases n,
{
    if n <= 0 {
        Ok(seq![])
    } else {
        match parts_text(parts, n - 1) {
            Err(e) => Err(e),
            Ok(t) => match part_text(parts[n - 1]) {
                Ok(s) => Ok(t + s),
                Err(e) => Err(e),
            },
        }
    }
}

/// The text of message content: null, a string, or text parts in order.
pub open spec fn content_text(content: Json) -> Result<Seq<char>, (ConvertKind, Seq<char>)> {
    match content {
        Json::Null => Ok(seq![]),
        Json::String(s) => Ok(s@),
        Json::Array(parts) => parts_text(parts@, parts@.len() as int),
        _ => Err(plain(ConvertKind::ContentShape)),
    }
}

/// A failure among the first parts is the failure of all.
proof fn lemma_parts_text(parts: Seq<Json>, k: int, n: int)
    requires
        0 <= k <= n,
        parts_text(parts, k) is Err,
    ensures
        parts_text(parts, n) == parts_text(parts, k),
    decreases n,
{
    if k < n {
        lemma_parts_text(parts, k, n - 1);
    }
}

/// The result says what the specification says.
pub open spec fn same_text(
    r: Result<String, ConvertError>,
    s: Result<Seq<char>, (ConvertKind, Seq<char>)>,
) -> bool {
    match r {
        Ok(t) => s == Ok::<Seq<char>, (ConvertKind, Seq<char>)>(t@),
        Err(e) => s == Err::<Seq<char>, (ConvertKind, Seq<char>)>(failure(e)),
    }
}

/// The text of a content part, where text alone is taken.
fn text_part(part: &Json) -> (r: Result<String, ConvertError>)
    ensures
        same_text(r, part_text(*part)),
{
    match part.get_str("type") {
        None => Err(fail(ConvertKind::KindMissing)),
        Some(kind) => if str_eq(kind, "text") {
            match part.get_str("text") {
                Some(t) => Ok(String::from_str(t)),
                None => Err(fail(ConvertKind::TextMissing)),
            }
        } else {
            Err(fail_with(ConvertKind::TextOnly, kind))
        },
    }
}

/// The text of message content.
pub fn content_to_text(content: &Json) -> (r: Result<String, ConvertError>)
    ensures
        same_text(r, content_text(*content)),
{
    match content {
        Json::Null => {
            let s = String::new();
            assert(s@ =~= seq![]);
            Ok(s)
        },
        Json::String(s) => Ok(String::from_str(s.as_str())),
        Json::Array(parts) => {
            let mut out = String::new();
            assert(out@ =~= seq![]);
            let mut i: usize = 0;
            while i < parts.len()
                invariant
                    i <= parts@.len(),
                    content == Json::Array(*parts),
                    parts_text(parts@, i as int) == Ok::<Seq<char>, (ConvertKind, Seq<char>)>(out@),
                decreases parts@.len() - i,
            {
                match text_part(&parts[i]) {
                    Ok(t) => {
                        out.append(t.as_str());
                    },
                    Err(e) => {
                        proof {
                            lemma_parts_text(parts@, i + 1, parts@.len() as int);
                        }
                        return Err(e);
                    },
                }
                i += 1;
            }
            Ok(out)
        },
        _ => Err(fail(ConvertKind::ContentShape)),
    }
}

/// The bytes of an image given as a data URL, or what is wrong with it.
pub open spec fn image_bytes(url: Seq<char>, r: Result<Seq<u8>, (ConvertKind, Seq<char>)>) -> bool {
    if !"data:"@.is_prefix_of(url) {
        r == Err::<Seq<u8>, _>(plain(ConvertKind::NotDataUrl))
    } else {
        let rest = url.skip("data:"@.len() as int);
        if forall|j: int| !#[trigger] stands_at(rest, ","@, j) {
            r == Err::<Seq<u8>, _>(plain(ConvertKind::ImageUrlComma))
        } else {
            exists|head: Seq<char>, body: Seq<char>| #[trigger]
                split_at_first(rest, ","@, head, body) && if exists|j: int|
                    #[trigger] stands_at(head, "base64"@, j) {
                    decodes(trimmed(body), ConvertKind::ImageBase64, r)
                } else {
                    r == Err::<Seq<u8>, _>(plain(ConvertKind::NotBase64Url))
                }
        }
    }
}

/// The bytes that a base64 text stands for, or a failure of this kind.
pub open spec fn decodes(
    text: Seq<char>,
    kind: ConvertKind,
    r: Result<Seq<u8>, (ConvertKind, Seq<char>)>,
) -> bool {
    match r {
        Ok(b) => text == base64_text(b),
        Err(e) => {
            &&& forall|b: Seq<u8>| text != #[trigger] base64_text(b)
            &&& e == (kind, base64_message(base64_fault(text)))
        },
    }
}

/// Bytes or a failure, by their views.
pub open spec fn bytes_view(r: Result<Vec<u8>, ConvertError>) -> Result<
    Seq<u8>,
    (ConvertKind, Seq<char>),
> {
    match r {
        Ok(b) => Ok(b@),
        Err(e) => Err(failure(e)),
    }
}

/// Decode base64 with white space round it.
fn decode_trimmed(text: &str, kind: ConvertKind) -> (r: Result<Vec<u8>, ConvertError>)
    ensures
        decodes(trimmed(text@), kind, bytes_view(r)),
{
    let t = trim(text);
    match decode_base64(t.as_str()) {
        Ok(b) => Ok(b),
        Err(e) => Err(fail_with(kind, e.message().as_str())),
    }
}

/// The bytes of an image given as a data URL. Nothing is fetched.
pub fn decode_image_url(url: &str) -> (r: Result<Vec<u8>, ConvertError>)
    ensures
        image_bytes(url@, bytes_view(r)),
{
    proof {
        reveal_strlit(",");
        reveal_strlit("base64");
    }
    let rest = match strip_prefix(url, "data:") {
        Some(s) => s,
        None => {
            return Err(fail(ConvertKind::NotDataUrl));
        },
    };
    proof {
        assert(url@.skip("data:"@.len() as int) =~= rest@);
        assert("data:"@.is_prefix_of(url@));
    }
    match split_once(rest.as_str(), ",") {
        None => Err(fail(ConvertKind::ImageUrlComma)),
        Some((head, body)) => {
            proof {
                let j = head@.len() as int;
                assert(rest@.subrange(j, j + ","@.len()) =~= ","@);
                assert(stands_at(rest@, ","@, j));
                assert(split_at_first(rest@, ","@, head@, body@));
            }
            if !contains(head.as_str(), "base64") {
                return Err(fail(ConvertKind::NotBase64Url));
            }
            decode_trimmed(body.as_str(), ConvertKind::ImageBase64)
        },
    }
}

/// The base64 text of an `input_audio` part: the data itself, or what follows the
/// first comma of a data URL.
pub open spec fn audio_bytes(part: Json, r: Result<Seq<u8>, (ConvertKind, Seq<char>)>) -> bool {
    match audio_data(part) {
        None => r == Err::<Seq<u8>, _>(plain(ConvertKind::AudioMissing)),
        Some(data) => if "data:"@.is_prefix_of(data) {
            let rest = data.skip("data:"@.len() as int);
            if forall|j: int| !#[trigger] stands_at(rest, ","@, j) {
                r == Err::<Seq<u8>, _>(plain(ConvertKind::AudioComma))
            } else {
                exists|head: Seq<char>, body: Seq<char>| #[trigger]
                    split_at_first(rest, ","@, head, body) && decodes(
                        trimmed(body),
                        ConvertKind::AudioBase64,
                        r,
                    )
            }
        } else {
            decodes(trimmed(data), ConvertKind::AudioBase64, r)
        },
    }
}

/// The data of an `input_audio` part.
pub open spec fn audio_data(part: Json) -> Option<Seq<char>> {
    match field(part, "input_audio"@) {
        Some(o) => text_of(field(o, "data"@)),
        None => None,
    }
}

/// The text of a member of a member.
fn nested_str<'a>(part: &'a Json, outer: &str, inner: &str) -> (r: Option<&'a str>)
    ensures
        match field(*part, outer@) {
            Some(o) => match r {
                Some(s) => text_of(field(o, inner@)) == Some(s@),
                None => text_of(field(o, inner@)) is None,
            },
            None => r is None,
        },
{
    match part.get(outer) {
        Some(o) => o.get_str(inner),
        None => None,
    }
}

/// The bytes of an `input_audio` part.
pub fn decode_input_audio(part: &Json) -> (r: Result<Vec<u8>, ConvertError>)
    ensures
        audio_bytes(*part, bytes_view(r)),
{
    proof {
        reveal_strlit(",");
    }
    let data = match nested_str(part, "input_audio", "data") {
        Some(s) => s,
        None => {
            return Err(fail(ConvertKind::AudioMissing));
        },
    };
    match strip_prefix(data, "data:") {
        None => decode_trimmed(data, ConvertKind::AudioBase64),
        Some(rest) => {
            proof {
                assert(data@.skip("data:"@.len() as int) =~= rest@);
                assert("data:"@.is_prefix_of(data@));
            }
            match split_once(rest.as_str(), ",") {
                None => Err(fail(ConvertKind::AudioComma)),
                Some((head, body)) => {
                    proof {
                        let j = head@.len() as int;
                        assert(rest@.subrange(j, j + ","@.len()) =~= ","@);
                        assert(stands_at(rest@, ","@, j));
                        assert(split_at_first(rest@, ","@, head@, body@));
                    }
                    decode_trimmed(body.as_str(), ConvertKind::AudioBase64)
                },
            }
        },
    }
}

/// What content holds: its text, with a marker where each media item sat, and
/// the items' bytes in order.
pub ghost struct Mixed {
    pub text: Seq<char>,
    pub images: Seq<Seq<u8>>,
    pub audios: Seq<Seq<u8>>,
}

/// Bytes by their views.
pub open spec fn byte_views(v: Seq<Vec<u8>>) -> Seq<Seq<u8>> {
    v.map_values(|b: Vec<u8>| b@)
}

/// Nothing yet.
pub open spec fn nothing() -> Mixed {
    Mixed { text: seq![], images: seq![], audios: seq![] }
}

/// The address of an `image_url` part.
pub open spec fn image_url(part: Json) -> Option<Seq<char>> {
    match field(part, "image_url"@) {
        Some(o) => text_of(field(o, "url"@)),
        None => None,
    }
}

/// `after` is what was there before and one part more, or the part fails.
pub open spec fn part_added(
    before: Mixed,
    part: Json,
    r: Result<Mixed, (ConvertKind, Seq<char>)>,
) -> bool {
    match text_of(field(part, "type"@)) {
        None => r == Err::<Mixed, _>(plain(ConvertKind::KindMissing)),
        Some(kind) => if kind == "text"@ {
            match text_of(field(part, "text"@)) {
                Some(t) => r == Ok::<_, (ConvertKind, Seq<char>)>(
                    Mixed { text: before.text + t, ..before },
                ),
                None => r == Err::<Mixed, _>(plain(ConvertKind::TextMissing)),
            }
        } else if kind == "image_url"@ {
            match image_url(part) {
                None => r == Err::<Mixed, _>(plain(ConvertKind::ImageUrlMissing)),
                Some(url) => match r {
                    Ok(m) => {
                        &&& m.text == before.text + MEDIA_MARKER@
                        &&& m.images.len() == before.images.len() + 1
                        &&& m.images.drop_last() == before.images
                        &&& m.audios == before.audios
                        &&& image_bytes(url, Ok(m.images.last()))
                    },
                    Err(e) => image_bytes(url, Err(e)),
                },
            }
        } else if kind == "input_audio"@ {
            match r {
                Ok(m) => {
                    &&& m.text == before.text + MEDIA_MARKER@
                    &&& m.audios.len() == before.audios.len() + 1
                    &&& m.audios.drop_last() == before.audios
                    &&& m.images == before.images
                    &&& audio_bytes(part, Ok(m.audios.last()))
                },
                Err(e) => audio_bytes(part, Err(e)),
            }
        } else {
            r == Err::<Mixed, _>((ConvertKind::PartKind, kind))
        },
    }
}

/// What parts hold, step by step: `steps[k]` is what the first `k` parts hold.
pub open spec fn mixed_steps(parts: Seq<Json>, steps: Seq<Mixed>) -> bool {
    &&& steps.len() > 0
    &&& steps[0] == nothing()
    &&& forall|k: int|
        #![trigger steps[k]]
        0 < k < steps.len() ==> part_added(steps[k - 1], parts[k - 1], Ok(steps[k]))
}

/// The first part that fails fails like this.
pub open spec fn part_fails(parts: Seq<Json>, e: (ConvertKind, Seq<char>)) -> bool {
    exists|steps: Seq<Mixed>| #[trigger]
        mixed_steps(parts, steps) && steps.len() <= parts.len() && part_added(
            steps.last(),
            parts[steps.len() - 1],
            Err(e),
        )
}

/// What content holds, or the first failure.
pub open spec fn content_mixed(
    content: Json,
    r: Result<Mixed, (ConvertKind, Seq<char>)>,
) -> bool {
    match content {
        Json::Null => r == Ok::<_, (ConvertKind, Seq<char>)>(nothing()),
        Json::String(s) => r == Ok::<_, (ConvertKind, Seq<char>)>(
            Mixed { text: s@, ..nothing() },
        ),
        Json::Array(parts) => match r {
            Ok(m) => exists|steps: Seq<Mixed>| #[trigger]
                mixed_steps(parts@, steps) && steps.len() == parts@.len() + 1 && steps.last() == m,
            Err(e) => part_fails(parts@, e),
        },
        _ => r == Err::<Mixed, _>(plain(ConvertKind::ContentShape)),
    }
}

/// A text and media bytes, by their views.
pub open spec fn mixed(t: (String, Vec<Vec<u8>>, Vec<Vec<u8>>)) -> Mixed {
    Mixed { text: t.0@, images: byte_views(t.1@), audios: byte_views(t.2@) }
}

/// Add a part to what was there before.
fn add_part(
    part: &Json,
    text: &mut String,
    images: &mut Vec<Vec<u8>>,
    audios: &mut Vec<Vec<u8>>,
) -> (r: Result<(), ConvertError>)
    ensures
        part_added(
            mixed((*old(text), *old(images), *old(audios))),
            *part,
            match r {
                Ok(_) => Ok(mixed((*final(text), *final(images), *final(audios)))),
                Err(e) => Err(failure(e)),
            },
        ),
{
    let kind = match part.get_str("type") {
        None => {
            return Err(fail(ConvertKind::KindMissing));
        },
        Some(k) => k,
    };
    if str_eq(kind, "text") {
        match part.get_str("text") {
            Some(t) => {
                text.append(t);
                Ok(())
            },
            None => Err(fail(ConvertKind::TextMissing)),
        }
    } else if str_eq(kind, "image_url") {
        match nested_str(part, "image_url", "url") {
            None => Err(fail(ConvertKind::ImageUrlMissing)),
            Some(url) => {
                let b = decode_image_url(url)?;
                images.push(b);
                text.append(MEDIA_MARKER);
                assert(byte_views(images@).drop_last() =~= byte_views(old(images)@));
                Ok(())
            },
        }
    } else if str_eq(kind, "input_audio") {
        let b = decode_input_audio(part)?;
        audios.push(b);
        text.append(MEDIA_MARKER);
        assert(byte_views(audios@).drop_last() =~= byte_views(old(audios)@));
        Ok(())
    } else {
        Err(fail_with(ConvertKind::PartKind, kind))
    }
}

/// The text of message content, with a marker where each media item sat, and the
/// bytes of images and audio clips in order.
pub fn content_to_text_and_media(content: &Json) -> (r: Result<
    (String, Vec<Vec<u8>>, Vec<Vec<u8>>),
    ConvertError,
>)
    ensures
        content_mixed(
            *content,
            match r {
                Ok(t) => Ok(mixed(t)),
                Err(e) => Err(failure(e)),
            },
        ),
{
    let mut text = String::new();
    let mut images: Vec<Vec<u8>> = Vec::new();
    let mut audios: Vec<Vec<u8>> = Vec::new();
    proof {
        assert(text@ =~= seq![]);
        assert(byte_views(images@) =~= seq![]);
        assert(byte_views(audios@) =~= seq![]);
    }
    match content {
        Json::Null => {},
        Json::String(s) => {
            text.append(s.as_str());
            assert(text@ =~= s@);
        },
        Json::Array(parts) => {
            let ghost mut steps: Seq<Mixed> = seq![nothing()];
            let mut i: usize = 0;
            while i < parts.len()
                invariant
                    i <= parts@.len(),
                    content == Json::Array(*parts),
                    steps.len() == i + 1,
                    mixed_steps(parts@, steps),
                    steps.last() == mixed((text, images, audios)),
                decreases parts@.len() - i,
            {
                let ghost before = mixed((text, images, audios));
                match add_part(&parts[i], &mut text, &mut images, &mut audios) {
                    Ok(_) => {},
                    Err(e) => {
                        assert(mixed_steps(parts@, steps));
                        assert(part_added(before, parts@[i as int], Err(failure(e))));
                        assert(steps.last() == before);
                        assert(part_fails(parts@, failure(e)));
                        return Err(e);
                    },
                }
                proof {
                    let now = mixed((text, images, audios));
                    let more = steps.push(now);
                    assert forall|k: int|
                        #![trigger more[k]]
                        0 < k < more.len() implies part_added(
                        more[k - 1],
                        parts@[k - 1],
                        Ok(more[k]),
                    ) by {
                        if k < steps.len() {
                            assert(more[k] == steps[k]);
                            assert(more[k - 1] == steps[k - 1]);
                        }
                    }
                    steps = more;
                }
                i += 1;
            }
            assert(mixed_steps(parts@, steps));
        },
        _ => {
            return Err(fail(ConvertKind::ContentShape));
        },
    }
    Ok((text, images, audios))
}

/// A turn of a conversation, as chat templates take it.
#[derive(Debug)]
pub struct ChatMessage {
    pub role: String,
    pub content: String,
    /// The thinking that went before an answer.
    pub reasoning_content: Option<String>,
}

/// A turn by its texts.
pub ghost struct Turn {
    pub role: Seq<char>,
    pub content: Seq<char>,
    pub reasoning: Option<Seq<char>>,
}

/// A turn by its texts.
pub open spec fn turn(m: ChatMessage) -> Turn {
    Turn {
        role: m.role@,
        content: m.content@,
        reasoning: match m.reasoning_content {
            Some(s) => Some(s@),
            None => None,
        },
    }
}

/// Turns by their texts.
pub open spec fn turns(v: Seq<ChatMessage>) -> Seq<Turn> {
    v.map_values(|m: ChatMessage| turn(m))
}

/// A turn without thinking.
pub open spec fn said(role: Seq<char>, content: Seq<char>) -> Turn {
    Turn { role, content, reasoning: None }
}

impl ChatMessage {
    /// A turn without thinking.
    pub fn new(role: &str, content: &str) -> (r: Self)
        ensures
            turn(r) == said(role@, content@),
    {
        ChatMessage {
            role: String::from_str(role),
            content: String::from_str(content),
            reasoning_content: None,
        }
    }

    /// A system turn.
    pub fn system(content: &str) -> (r: Self)
        ensures
            turn(r) == said("system"@, content@),
    {
        ChatMessage::new("system", content)
    }

    /// A user's turn.
    pub fn user(content: &str) -> (r: Self)
        ensures
            turn(r) == said("user"@, content@),
    {
        ChatMessage::new("user", content)
    }
}

/// The conversation as a model is asked, and all attached media in order.
pub open spec fn openai_mixed(
    messages: Seq<OpenAiMessage>,
    contents: Seq<Mixed>,
    k: int,
) -> bool {
    &&& contents.len() == k
    &&& forall|i: int|
        #![trigger contents[i]]
        0 <= i < k ==> content_mixed(messages[i].content, Ok(contents[i]))
}

/// Images of all contents, in order.
pub open spec fn all_images(contents: Seq<Mixed>) -> Seq<Seq<u8>>
    decreases contents.len(),
{
    if contents.len() == 0 {
        seq![]
    } else {
        all_images(contents.drop_last()) + contents.last().images
    }
}

/// Audio clips of all contents, in order.
pub open spec fn all_audios(contents: Seq<Mixed>) -> Seq<Seq<u8>>
    decreases contents.len(),
{
    if contents.len() == 0 {
        seq![]
    } else {
        all_audios(contents.drop_last()) + contents.last().audios
    }
}

/// The turns of a conversation whose contents these are.
pub open spec fn mixed_turns(messages: Seq<OpenAiMessage>, contents: Seq<Mixed>) -> Seq<Turn> {
    Seq::new(contents.len(), |i: int| said(messages[i].role@, contents[i].text))
}

/// Move the items of one list to the end of another.
fn move_all(to: &mut Vec<Vec<u8>>, from: Vec<Vec<u8>>)
    ensures
        byte_views(final(to)@) == byte_views(old(to)@) + byte_views(from@),
{
    let mut from = from;
    let ghost all = to@ + from@;
    to.append(&mut from);
    assert(to@ =~= all);
    assert(byte_views(to@) =~= byte_views(old(to)@) + byte_views(all.skip(
        old(to)@.len() as int,
    )));
}

/// What a conversation with media turns into: the turns with their media, or the
/// failure of the first message that fails.
pub open spec fn mixed_outcome(
    messages: Seq<OpenAiMessage>,
    r: Result<(Seq<Turn>, Seq<Seq<u8>>, Seq<Seq<u8>>), (ConvertKind, Seq<char>)>,
) -> bool {
    match r {
        Ok((chat, images, audios)) => exists|contents: Seq<Mixed>| #[trigger]
            openai_mixed(messages, contents, messages.len() as int) && chat == mixed_turns(
                messages,
                contents,
            ) && images == all_images(contents) && audios == all_audios(contents),
        Err(f) => exists|contents: Seq<Mixed>| #[trigger]
            openai_mixed(messages, contents, contents.len() as int) && contents.len()
                < messages.len() && content_mixed(
                messages[contents.len() as int].content,
                Err(f),
            ),
    }
}

/// Turns of an OpenAI conversation, with markers where media sat, and the media
/// in order.
pub fn openai_messages_to_chat_mm(messages: &[OpenAiMessage]) -> (r: Result<
    (Vec<ChatMessage>, Vec<Vec<u8>>, Vec<Vec<u8>>),
    ConvertError,
>)
    ensures
        match r {
            Ok((chat, images, audios)) => mixed_outcome(
                messages@,
                Ok((turns(chat@), byte_views(images@), byte_views(audios@))),
            ),
            Err(e) => mixed_outcome(messages@, Err(failure(e))),
        },
{
    let mut out: Vec<ChatMessage> = Vec::new();
    let mut images: Vec<Vec<u8>> = Vec::new();
    let mut audios: Vec<Vec<u8>> = Vec::new();
    let ghost mut contents: Seq<Mixed> = seq![];
    let mut i: usize = 0;
    proof {
        assert(turns(out@) =~= mixed_turns(messages@, contents));
        assert(byte_views(images@) =~= all_images(contents));
        assert(byte_views(audios@) =~= all_audios(contents));
    }
    while i < messages.len()
        invariant
            i <= messages@.len(),
            openai_mixed(messages@, contents, i as int),
            turns(out@) == mixed_turns(messages@, contents),
            byte_views(images@) == all_images(contents),
            byte_views(audios@) == all_audios(contents),
        decreases messages@.len() - i,
    {
        let m = &messages[i];
        let (content, imgs, auds) = match content_to_text_and_media(&m.content) {
            Ok(t) => t,
            Err(e) => {
                assert(openai_mixed(messages@, contents, contents.len() as int));
                return Err(e);
            },
        };
        let ghost now = mixed((content, imgs, auds));
        let ghost before = out@;
        move_all(&mut images, imgs);
        move_all(&mut audios, auds);
        out.push(
            ChatMessage {
                role: String::from_str(m.role.as_str()),
                content,
                reasoning_content: None,
            },
        );
        proof {
            let more = contents.push(now);
            assert(more.drop_last() =~= contents);
            assert forall|k: int| #![trigger more[k]] 0 <= k < more.len() implies content_mixed(
                messages@[k].content,
                Ok(more[k]),
            ) by {
                if k < contents.len() {
                    assert(more[k] == contents[k]);
                }
            }
            assert(turns(out@) =~= turns(before).push(turn(out@.last())));
            assert(turns(out@) =~= mixed_turns(messages@, more));
            contents = more;
        }
        i += 1;
    }
    assert(openai_mixed(messages@, contents, messages@.len() as int));
    Ok((out, images, audios))
}

/// The turns of the first `n` messages, or the first failure among them.
pub open spec fn openai_turns(messages: Seq<OpenAiMessage>, n: int) -> Result<
    Seq<Turn>,
    (ConvertKind, Seq<char>),
>
    decreases n,
{
    if n <= 0 {
        Ok(seq![])
    } else {
        match openai_turns(messages, n - 1) {
            Err(e) => Err(e),
            Ok(t) => match content_text(messages[n - 1].content) {
                Ok(s) => Ok(t.push(said(messages[n - 1].role@, s))),
                Err(e) => Err(e),
            },
        }
    }
}

/// The result says what the specification says.
pub open spec fn same_turns(
    r: Result<Vec<ChatMessage>, ConvertError>,
    s: Result<Seq<Turn>, (ConvertKind, Seq<char>)>,
) -> bool {
    match r {
        Ok(v) => s == Ok::<Seq<Turn>, (ConvertKind, Seq<char>)>(turns(v@)),
        Err(e) => s == Err::<Seq<Turn>, (ConvertKind, Seq<char>)>(failure(e)),
    }
}

/// A failure among the first messages is the failure of all.
proof fn lemma_openai_turns(messages: Seq<OpenAiMessage>, k: int, n: int)
    requires
        0 <= k <= n,
        openai_turns(messages, k) is Err,
    ensures
        openai_turns(messages, n) == openai_turns(messages, k),
    decreases n,
{
    if k < n {
        lemma_openai_turns(messages, k, n - 1);
    }
}

/// Turns of an OpenAI conversation that is text alone.
pub fn openai_messages_to_chat(messages: &[OpenAiMessage]) -> (r: Result<
    Vec<ChatMessage>,
    ConvertError,
>)
    ensures
        same_turns(r, openai_turns(messages@, messages@.len() as int)),
{
    let mut out: Vec<ChatMessage> = Vec::new();
    let mut i: usize = 0;
    assert(turns(out@) =~= seq![]);
    while i < messages.len()
        invariant
            i <= messages@.len(),
            openai_turns(messages@, i as int) == Ok::<Seq<Turn>, (ConvertKind, Seq<char>)>(
                turns(out@),
            ),
        decreases messages@.len() - i,
    {
        let m = &messages[i];
        let ghost before = out@;
        match content_to_text(&m.content) {
            Ok(content) => {
                out.push(ChatMessage::new(m.role.as_str(), content.as_str()));
                assert(turns(out@) =~= turns(before).push(turn(out@.last())));
            },
            Err(e) => {
                proof {
                    lemma_openai_turns(messages@, i + 1, messages@.len() as int);
                }
                return Err(e);
            },
        }
        i += 1;
    }
    Ok(out)
}

/// The turn that a system field makes: none where it is absent or empty.
pub open spec fn system_turns(system: Option<Json>) -> Result<
    Seq<Turn>,
    (ConvertKind, Seq<char>),
> {
    match system {
        None => Ok(seq![]),
        Some(v) => match content_text(v) {
            Err(e) => Err(e),
            Ok(t) => if t.len() == 0 {
                Ok(seq![])
            } else {
                Ok(seq![said("system"@, t)])
            },
        },
    }
}

/// The turns of a system field and the first `n` messages, or the first failure.
pub open spec fn anthropic_turns(
    system: Option<Json>,
    messages: Seq<MessagesInputMessage>,
    n: int,
) -> Result<Seq<Turn>, (ConvertKind, Seq<char>)>
    decreases n,
{
    if n <= 0 {
        system_turns(system)
    } else {
        match anthropic_turns(system, messages, n - 1) {
            Err(e) => Err(e),
            Ok(t) => match content_text(messages[n - 1].content) {
                Ok(s) => Ok(t.push(said(messages[n - 1].role@, s))),
                Err(e) => Err(e),
            },
        }
    }
}

/// A failure among the first messages is the failure of all.
proof fn lemma_anthropic_turns(
    system: Option<Json>,
    messages: Seq<MessagesInputMessage>,
    k: int,
    n: int,
)
    requires
        0 <= k <= n,
        anthropic_turns(system, messages, k) is Err,
    ensures
        anthropic_turns(system, messages, n) == anthropic_turns(system, messages, k),
    decreases n,
{
    if k < n {
        lemma_anthropic_turns(system, messages, k, n - 1);
    }
}

/// Turns of an Anthropic conversation; the system field leads.
pub fn anthropic_to_chat(system: &Option<Json>, messages: &[MessagesInputMessage]) -> (r: Result<
    Vec<ChatMessage>,
    ConvertError,
>)
    ensures
        same_turns(r, anthropic_turns(*system, messages@, messages@.len() as int)),
{
    let mut out: Vec<ChatMessage> = Vec::new();
    assert(turns(out@) =~= seq![]);
    if let Some(sys) = system {
        let text = match content_to_text(sys) {
            Ok(t) => t,
            Err(e) => {
                proof {
                    lemma_anthropic_turns(*system, messages@, 0, messages@.len() as int);
                }
                return Err(e);
            },
        };
        if text.as_str().unicode_len() > 0 {
            out.push(ChatMessage::system(text.as_str()));
            assert(turns(out@) =~= seq![said("system"@, text@)]);
        }
    }
    let mut i: usize = 0;
    while i < messages.len()
        invariant
            i <= messages@.len(),
            anthropic_turns(*system, messages@, i as int) == Ok::<
                Seq<Turn>,
                (ConvertKind, Seq<char>),
            >(turns(out@)),
        decreases messages@.len() - i,
    {
        let m = &messages[i];
        let ghost before = out@;
        match content_to_text(&m.content) {
            Ok(content) => {
                out.push(ChatMessage::new(m.role.as_str(), content.as_str()));
                assert(turns(out@) =~= turns(before).push(turn(out@.last())));
            },
            Err(e) => {
                proof {
                    lemma_anthropic_turns(*system, messages@, i + 1, messages@.len() as int);
                }
                return Err(e);
            },
        }
        i += 1;
    }
    Ok(out)
}

/// The turn that a raw message makes.
pub open spec fn value_turn(v: Json) -> Result<Turn, (ConvertKind, Seq<char>)> {
    match text_of(field(v, "role"@)) {
        None => Err(plain(ConvertKind::RoleMissing)),
        Some(role) => match field_text(v) {
            Err(e) => Err(e),
            Ok(content) => Ok(
                Turn { role, content, reasoning: text_of(field(v, "reasoning_content"@)) },
            ),
        },
    }
}

/// The text of a raw message's content; none is an empty text.
pub open spec fn field_text(v: Json) -> Result<Seq<char>, (ConvertKind, Seq<char>)> {
    match field(v, "content"@) {
        None => Ok(seq![]),
        Some(c) => content_text(c),
    }
}

/// The turns of the first `n` raw messages, or the first failure among them.
pub open spec fn value_turns(messages: Seq<Json>, n: int) -> Result<
    Seq<Turn>,
    (ConvertKind, Seq<char>),
>
    decreases n,
{
    if n <= 0 {
        Ok(seq![])
    } else {
        match value_turns(messages, n - 1) {
            Err(e) => Err(e),
            Ok(t) => match value_turn(messages[n - 1]) {
                Ok(u) => Ok(t.push(u)),
                Err(e) => Err(e),
            },
        }
    }
}

/// A failure among the first messages is the failure of all.
proof fn lemma_value_turns(messages: Seq<Json>, k: int, n: int)
    requires
        0 <= k <= n,
        value_turns(messages, k) is Err,
    ensures
        value_turns(messages, n) == value_turns(messages, k),
    decreases n,
{
    if k < n {
        lemma_value_turns(messages, k, n - 1);
    }
}

/// The turn that a raw message makes.
fn value_message(v: &Json) -> (r: Result<ChatMessage, ConvertError>)
    ensures
        match r {
            Ok(m) => value_turn(*v) == Ok::<Turn, (ConvertKind, Seq<char>)>(turn(m)),
            Err(e) => value_turn(*v) == Err::<Turn, (ConvertKind, Seq<char>)>(failure(e)),
        },
{
    let role = match v.get_str("role") {
        None => {
            return Err(fail(ConvertKind::RoleMissing));
        },
        Some(s) => String::from_str(s),
    };
    let content = match v.get("content") {
        None => {
            let s = String::new();
            assert(s@ =~= seq![]);
            s
        },
        Some(c) => content_to_text(c)?,
    };
    let reasoning_content = match v.get_str("reasoning_content") {
        Some(s) => Some(String::from_str(s)),
        None => None,
    };
    Ok(ChatMessage { role, content, reasoning_content })
}

/// Turns of raw messages.
pub fn value_messages_to_chat(messages: &[Json]) -> (r: Result<Vec<ChatMessage>, ConvertError>)
    ensures
        same_turns(r, value_turns(messages@, messages@.len() as int)),
{
    let mut out: Vec<ChatMessage> = Vec::new();
    let mut i: usize = 0;
    assert(turns(out@) =~= seq![]);
    while i < messages.len()
        invariant
            i <= messages@.len(),
            value_turns(messages@, i as int) == Ok::<Seq<Turn>, (ConvertKind, Seq<char>)>(
                turns(out@),
            ),
        decreases messages@.len() - i,
    {
        let ghost before = out@;
        match value_message(&messages[i]) {
            Ok(m) => {
                out.push(m);
                assert(turns(out@) =~= turns(before).push(turn(out@.last())));
            },
            Err(e) => {
                proof {
                    lemma_value_turns(messages@, i + 1, messages@.len() as int);
                }
                return Err(e);
            },
        }
        i += 1;
    }
    Ok(out)
}

/// The conversation has a system turn.
pub open spec fn has_system(messages: Seq<Turn>) -> bool {
    exists|i: int| 0 <= i < messages.len() && (#[trigger] messages[i]).role == "system"@
}

/// A conversation with the server's system prompt in front, where it has none of
/// its own.
pub open spec fn with_system(messages: Seq<Turn>, default: Option<Seq<char>>) -> Seq<Turn> {
    match default {
        Some(sys) => if has_system(messages) {
            messages
        } else {
            seq![said("system"@, sys)] + messages
        },
        None => messages,
    }
}

/// Put the server's system prompt in front of a conversation that has none.
pub fn apply_default_system(messages: &mut Vec<ChatMessage>, default: Option<&str>)
    ensures
        turns(final(messages)@) == with_system(
            turns(old(messages)@),
            match default {
                Some(s) => Some(s@),
                None => None,
            },
        ),
{
    if let Some(sys) = default {
        if !brings_system(messages.as_slice()) {
            messages.insert(0, ChatMessage::system(sys));
            assert(turns(messages@) =~= seq![said("system"@, sys@)] + turns(old(messages)@));
        }
    }
}

/// Whether a conversation has a system turn.
fn brings_system(messages: &[ChatMessage]) -> (r: bool)
    ensures
        r == has_system(turns(messages@)),
{
    let mut i: usize = 0;
    while i < messages.len()
        invariant
            i <= messages@.len(),
            forall|k: int| 0 <= k < i ==> (#[trigger] turns(messages@)[k]).role != "system"@,
        decreases messages@.len() - i,
    {
        assert(turns(messages@)[i as int] == turn(messages@[i as int]));
        if str_eq(messages[i].role.as_str(), "system") {
            return true;
        }
        i += 1;
    }
    false
}

/// A client's own system turn is never displaced, and putting the server's in
/// front twice is putting it in front once.
pub proof fn law_system_prompt_is_set_once(messages: Seq<Turn>, sys: Seq<char>)
    ensures
        has_system(messages) ==> with_system(messages, Some(sys)) == messages,
        has_system(with_system(messages, Some(sys))),
        with_system(with_system(messages, Some(sys)), Some(sys)) == with_system(
            messages,
            Some(sys),
        ),
{
    if !has_system(messages) {
        let set = with_system(messages, Some(sys));
        assert(set[0].role == "system"@);
    }
}

/// The strings among the first `n` values.
pub open spec fn strings_among(values: Seq<Json>, n: int) -> Seq<Seq<char>>
    decreases n,
{
    if n <= 0 {
        seq![]
    } else {
        match values[n - 1] {
            Json::String(s) => strings_among(values, n - 1).push(s@),
            _ => strings_among(values, n - 1),
        }
    }
}

/// The stop sequences that a field names: a string is one, of an array its
/// strings are.
pub open spec fn stop_sequences(stop: Option<Json>) -> Seq<Seq<char>> {
    match stop {
        Some(Json::String(s)) => seq![s@],
        Some(Json::Array(a)) => strings_among(a@, a@.len() as int),
        _ => seq![],
    }
}

/// The stop sequences that a field names.
pub fn parse_stop(stop: &Option<Json>) -> (r: Vec<String>)
    ensures
        texts(r@) == stop_sequences(*stop),
{
    let mut out: Vec<String> = Vec::new();
    assert(texts(out@) =~= seq![]);
    match stop {
        Some(Json::String(s)) => {
            out.push(String::from_str(s.as_str()));
            assert(texts(out@) =~= seq![s@]);
        },
        Some(Json::Array(a)) => {
            let mut i: usize = 0;
            while i < a.len()
                invariant
                    i <= a@.len(),
                    texts(out@) == strings_among(a@, i as int),
                decreases a@.len() - i,
            {
                let ghost before = out@;
                if let Json::String(s) = &a[i] {
                    out.push(String::from_str(s.as_str()));
                    assert(texts(out@) =~= texts(before).push(s@));
                }
                i += 1;
            }
        },
        _ => {},
    }
    out
}

} // verus!
