//! Server-sent events of the streaming surfaces.
use seeker::json::Json;
use seeker::server::inference::{GenEvent, StopReason};
use seeker::server::stream::{
    anthropic_messages_stream, gen_id, is_terminal, llama_completion_stream, openai_chat_stream,
    openai_completion_stream, unix_now, EventStream, Frame, FrameData, StreamStep,
};

fn value(f: &Frame) -> &Json {
    match &f.data {
        FrameData::Value(v) => v,
        FrameData::Done => panic!("expected a value"),
    }
}

fn ended() -> GenEvent {
    GenEvent::Done {
        stop_reason: StopReason::StopSequence("X".to_string()),
        prompt_tokens: 2,
        completion_tokens: 3,
    }
}

fn first_choice(v: &Json) -> &Json {
    match v.get("choices") {
        Some(Json::Array(a)) => &a[0],
        _ => panic!("expected choices"),
    }
}

#[test]
fn ids_are_sixteen_hex_digits() {
    assert_eq!(gen_id("chatcmpl", 0), "chatcmpl-0000000000000000");
    assert_eq!(gen_id("cmpl", 255), "cmpl-00000000000000ff");
    assert_eq!(unix_now(Some(7)), 7);
    assert_eq!(unix_now(None), 0);
}

#[test]
fn chat_stream_sends_role_text_and_end() {
    let f = openai_chat_stream("id", 1, "m", &GenEvent::Started { prompt_tokens: 2 });
    assert_eq!(f.len(), 1);
    let delta = first_choice(value(&f[0])).get("delta").unwrap();
    assert_eq!(delta.get_str("role"), Some("assistant"));
    let f = openai_chat_stream("id", 1, "m", &GenEvent::Delta("hi".to_string()));
    let delta = first_choice(value(&f[0])).get("delta").unwrap();
    assert_eq!(delta.get_str("content"), Some("hi"));
    assert_eq!(value(&f[0]).get_str("object"), Some("chat.completion.chunk"));
    let f = openai_chat_stream("id", 1, "m", &ended());
    assert_eq!(f.len(), 2);
    assert_eq!(first_choice(value(&f[0])).get_str("finish_reason"), Some("stop"));
    assert!(matches!(f[1].data, FrameData::Done));
    let f = openai_chat_stream("id", 1, "m", &GenEvent::Error("no".to_string()));
    assert_eq!(value(&f[0]).get("error").unwrap().get_str("message"), Some("no"));
    assert!(matches!(f[1].data, FrameData::Done));
}

#[test]
fn completion_stream_sends_text_and_end() {
    let f = openai_completion_stream("id", 1, "m", &GenEvent::Delta("hi".to_string()));
    assert_eq!(first_choice(value(&f[0])).get_str("text"), Some("hi"));
    let f = openai_completion_stream("id", 1, "m", &ended());
    assert!(matches!(f[f.len() - 1].data, FrameData::Done));
}

#[test]
fn native_stream_stops_once() {
    let f = llama_completion_stream("m", &GenEvent::Delta("hi".to_string()));
    assert_eq!(value(&f[0]).get_str("content"), Some("hi"));
    assert!(matches!(value(&f[0]).get("stop"), Some(Json::Bool(false))));
    let f = llama_completion_stream("m", &ended());
    assert!(matches!(value(&f[0]).get("stop"), Some(Json::Bool(true))));
}

#[test]
fn message_stream_opens_and_closes_its_block() {
    let mut open = false;
    let f = anthropic_messages_stream("id", "m", &mut open, &GenEvent::Started { prompt_tokens: 2 });
    assert!(open);
    assert_eq!(f[0].event, Some("message_start"));
    assert_eq!(f[1].event, Some("content_block_start"));
    let f = anthropic_messages_stream("id", "m", &mut open, &GenEvent::Delta("hi".to_string()));
    assert_eq!(f[0].event, Some("content_block_delta"));
    let f = anthropic_messages_stream("id", "m", &mut open, &ended());
    let names: Vec<Option<&str>> = f.iter().map(|f| f.event).collect();
    assert_eq!(
        names,
        vec![Some("content_block_stop"), Some("message_delta"), Some("message_stop")]
    );
    let delta = value(&f[1]).get("delta").unwrap();
    assert_eq!(delta.get_str("stop_reason"), Some("stop_sequence"));
    assert_eq!(delta.get_str("stop_sequence"), Some("X"));
    // Nothing to close where nothing was opened.
    let mut open = false;
    let f = anthropic_messages_stream("id", "m", &mut open, &ended());
    assert_eq!(f[0].event, Some("message_delta"));
    let f = anthropic_messages_stream("id", "m", &mut open, &GenEvent::Error("no".to_string()));
    assert_eq!(f[0].event, Some("error"));
}

#[test]
fn queue_drains_before_the_stream_ends() {
    let mut s = EventStream::new();
    assert!(matches!(s.step(), StreamStep::Receive));
    let ev = ended();
    assert!(is_terminal(&ev));
    assert!(!is_terminal(&GenEvent::Delta("x".to_string())));
    s.accept(openai_chat_stream("id", 1, "m", &ev), is_terminal(&ev));
    assert!(matches!(s.step(), StreamStep::Emit(_)));
    match s.step() {
        StreamStep::Emit(f) => assert!(matches!(f.data, FrameData::Done)),
        _ => panic!("expected the closing word"),
    }
    assert!(matches!(s.step(), StreamStep::Finish));
}

#[test]
fn ids_of_different_numbers_differ() {
    assert_ne!(gen_id("a", 1), gen_id("a-0000000000000001", 2));
    assert_eq!(gen_id("x", u64::MAX), "x-ffffffffffffffff");
}
