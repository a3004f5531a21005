//! Requests to conversations.
use seeker::json::{Json, Number};
use seeker::server::convert::{
    anthropic_to_chat, apply_default_system, content_to_text, content_to_text_and_media,
    decode_image_url, decode_input_audio, openai_messages_to_chat, openai_messages_to_chat_mm,
    parse_stop, value_messages_to_chat, ChatMessage, ConvertKind, MEDIA_MARKER,
};
use seeker::server::types::anthropic::MessagesInputMessage;
use seeker::server::types::openai::ChatMessage as OpenAiMessage;

fn text(s: &str) -> Json {
    Json::String(s.to_string())
}

fn object(members: Vec<(&str, Json)>) -> Json {
    Json::Object(members.into_iter().map(|(k, v)| (k.to_string(), v)).collect())
}

fn text_part(s: &str) -> Json {
    object(vec![("type", text("text")), ("text", text(s))])
}

fn image_part(url: &str) -> Json {
    object(vec![
        ("type", text("image_url")),
        ("image_url", object(vec![("url", text(url))])),
    ])
}

fn audio_part(data: &str) -> Json {
    object(vec![
        ("type", text("input_audio")),
        (
            "input_audio",
            object(vec![("data", text(data)), ("format", text("wav"))]),
        ),
    ])
}

fn openai(role: &str, content: Json) -> OpenAiMessage {
    OpenAiMessage {
        role: role.into(),
        content,
        name: None,
        tool_call_id: None,
    }
}

#[test]
fn content_string_and_array_forms() {
    assert_eq!(content_to_text(&text("hi")).unwrap(), "hi");
    assert_eq!(
        content_to_text(&Json::Array(vec![text_part("a"), text_part("b")])).unwrap(),
        "ab"
    );
    assert!(content_to_text(&Json::Array(vec![object(vec![
        ("type", text("image_url")),
        ("image_url", object(vec![])),
    ])]))
    .is_err());
    assert_eq!(content_to_text(&Json::Null).unwrap(), "");
}

#[test]
fn decode_image_url_data_url() {
    // base64("hi") == "aGk=".
    assert_eq!(
        decode_image_url("data:image/png;base64,aGk=").unwrap(),
        b"hi"
    );
    // Remote URLs and non-base64 data URLs are rejected.
    assert!(decode_image_url("https://example.com/x.png").is_err());
    assert!(decode_image_url("data:image/png,rawbytes").is_err());
}

#[test]
fn content_mm_interleaves_marker_and_collects_media() {
    let content = Json::Array(vec![
        text_part("look: "),
        image_part("data:image/png;base64,aGk="),
        text_part(" what is it?"),
    ]);
    let (text_of, images, audios) = content_to_text_and_media(&content).unwrap();
    assert_eq!(text_of, format!("look: {MEDIA_MARKER} what is it?"));
    assert_eq!(images, vec![b"hi".to_vec()]);
    assert!(audios.is_empty());
    // A bare string yields no media.
    let (text_of, images, audios) = content_to_text_and_media(&text("plain")).unwrap();
    assert_eq!(text_of, "plain");
    assert!(images.is_empty());
    assert!(audios.is_empty());
    // An `input_audio` part emits the marker and collects the decoded bytes.
    let content = Json::Array(vec![audio_part("aGk="), text_part(" transcribe")]);
    let (text_of, images, audios) = content_to_text_and_media(&content).unwrap();
    assert_eq!(text_of, format!("{MEDIA_MARKER} transcribe"));
    assert!(images.is_empty());
    assert_eq!(audios, vec![b"hi".to_vec()]);
}

#[test]
fn openai_mm_collects_across_messages() {
    let msgs = vec![openai(
        "user",
        Json::Array(vec![image_part("data:x;base64,aGk="), text_part("hi")]),
    )];
    let (chat, images, audios) = openai_messages_to_chat_mm(&msgs).unwrap();
    assert_eq!(chat[0].content, format!("{MEDIA_MARKER}hi"));
    assert_eq!(images.len(), 1);
    assert!(audios.is_empty());
}

#[test]
fn parse_stop_forms() {
    assert_eq!(parse_stop(&None), Vec::<String>::new());
    assert_eq!(parse_stop(&Some(text("STOP"))), vec!["STOP"]);
    assert_eq!(
        parse_stop(&Some(Json::Array(vec![
            text("a"),
            text("b"),
            Json::Number(Number::PosInt(3)),
        ]))),
        vec!["a".to_string(), "b".to_string()]
    );
}

#[test]
fn default_system_only_when_absent() {
    let mut msgs = vec![ChatMessage::user("hi")];
    apply_default_system(&mut msgs, Some("be terse"));
    assert_eq!(msgs.len(), 2);
    assert_eq!(msgs[0].role, "system");
    assert_eq!(msgs[0].content, "be terse");

    let mut msgs = vec![ChatMessage::system("client sys"), ChatMessage::user("hi")];
    apply_default_system(&mut msgs, Some("be terse"));
    assert_eq!(msgs.len(), 2);
    assert_eq!(msgs[0].content, "client sys"); // client's system wins
}

#[test]
fn anthropic_system_becomes_leading_turn() {
    let msgs = anthropic_to_chat(
        &Some(text("sys")),
        &[MessagesInputMessage {
            role: "user".into(),
            content: text("hello"),
        }],
    )
    .unwrap();
    assert_eq!(msgs[0].role, "system");
    assert_eq!(msgs[0].content, "sys");
    assert_eq!(msgs[1].role, "user");
}

#[test]
fn content_failures_name_their_cause() {
    let kind = |v: &Json| content_to_text(v).unwrap_err().kind;
    assert_eq!(
        kind(&Json::Array(vec![object(vec![("type", text("text"))])])),
        ConvertKind::TextMissing
    );
    assert_eq!(kind(&Json::Array(vec![object(vec![])])), ConvertKind::KindMissing);
    assert_eq!(kind(&Json::Bool(true)), ConvertKind::ContentShape);
    let e = content_to_text(&Json::Array(vec![image_part("u")])).unwrap_err();
    assert_eq!(e.kind, ConvertKind::TextOnly);
    assert_eq!(
        e.message("\"image_url\""),
        "unsupported content part type \"image_url\" — this server is text-only"
    );
    let mixed = |v: &Json| content_to_text_and_media(v).unwrap_err().kind;
    assert_eq!(
        mixed(&Json::Array(vec![object(vec![("type", text("image_url"))])])),
        ConvertKind::ImageUrlMissing
    );
    assert_eq!(
        mixed(&Json::Array(vec![object(vec![("type", text("video"))])])),
        ConvertKind::PartKind
    );
}

#[test]
fn media_urls_fail_by_step() {
    let kind = |u: &str| decode_image_url(u).unwrap_err().kind;
    assert_eq!(kind("https://example.com/x.png"), ConvertKind::NotDataUrl);
    assert_eq!(kind("data:image/png;base64"), ConvertKind::ImageUrlComma);
    assert_eq!(kind("data:image/png,rawbytes"), ConvertKind::NotBase64Url);
    let e = decode_image_url("data:image/png;base64,a").unwrap_err();
    assert_eq!(e.kind, ConvertKind::ImageBase64);
    assert_eq!(e.message(""), format!("image_url base64 decode failed: {}", e.detail));
    assert!(!e.detail.is_empty());

    let audio = |p: &Json| decode_input_audio(p);
    assert_eq!(audio(&audio_part("aGk=")).unwrap(), b"hi");
    assert_eq!(audio(&audio_part("data:audio/wav;base64,aGk=")).unwrap(), b"hi");
    assert_eq!(
        audio(&object(vec![])).unwrap_err().kind,
        ConvertKind::AudioMissing
    );
    assert_eq!(
        audio(&audio_part("data:audio/wav;base64")).unwrap_err().kind,
        ConvertKind::AudioComma
    );
    assert_eq!(
        audio(&audio_part("@@@@")).unwrap_err().kind,
        ConvertKind::AudioBase64
    );
}

#[test]
fn conversations_keep_their_order() {
    let chat =
        openai_messages_to_chat(&[openai("user", text("a")), openai("assistant", text("b"))])
            .unwrap();
    assert_eq!(chat.len(), 2);
    assert_eq!((chat[0].role.as_str(), chat[0].content.as_str()), ("user", "a"));
    assert_eq!((chat[1].role.as_str(), chat[1].content.as_str()), ("assistant", "b"));
    // The first message that fails decides.
    let e = openai_messages_to_chat(&[
        openai("user", Json::Bool(true)),
        openai("user", Json::Array(vec![object(vec![])])),
    ])
    .unwrap_err();
    assert_eq!(e.kind, ConvertKind::ContentShape);
}

#[test]
fn empty_anthropic_system_adds_no_turn() {
    let msgs = anthropic_to_chat(&Some(text("")), &[]).unwrap();
    assert!(msgs.is_empty());
}

#[test]
fn raw_messages_need_a_role() {
    let e = value_messages_to_chat(&[object(vec![("content", text("x"))])]).unwrap_err();
    assert_eq!(e.kind, ConvertKind::RoleMissing);
    let chat = value_messages_to_chat(&[object(vec![
        ("role", text("assistant")),
        ("content", text("x")),
        ("reasoning_content", text("because")),
    ])])
    .unwrap();
    assert_eq!(chat[0].reasoning_content.as_deref(), Some("because"));
    let chat = value_messages_to_chat(&[object(vec![("role", text("user"))])]).unwrap();
    assert_eq!(chat[0].content, "");
}

#[test]
fn later_system_turn_wins_too() {
    let mut msgs = vec![ChatMessage::user("hi"), ChatMessage::system("client sys")];
    apply_default_system(&mut msgs, Some("be terse"));
    assert_eq!(msgs.len(), 2);
    assert_eq!(msgs[0].content, "hi");
    assert_eq!(msgs[1].content, "client sys");
}
