//! Conversations and prompts to tokens.
use seeker::gguf::{GgufFile, MetadataValue};
use seeker::json::{Json, Number};
use seeker::server::convert::{ChatMessage, ConvertKind, MEDIA_MARKER};
use seeker::server::prompts::{
    audio_prompt, compute_pin_prefix, embedding_inputs_to_tokens, encode, image_prompt, pin_turns,
    plan_media, prompt_turns, prompt_value_to_tokens, render_and_encode, shared_prefix,
    splice_block, MediaOffer, MediaPlan,
};
use seeker::tokenizer::bundle::TokenizerBundle;
use seeker::tokenizer::{build_tokenizer, Assembly};

const TOKENS: [&str; 8] = [
    "a",
    "b",
    "<|vision_start|>",
    "<|image_pad|>",
    "<|vision_end|>",
    "<|audio>",
    "<|audio|>",
    "<audio|>",
];

fn bundle(tokens: &[&str], template: bool) -> TokenizerBundle {
    let text = |s: &str| MetadataValue::String(s.to_string());
    let mut metadata: Vec<(String, MetadataValue<f32>)> = vec![
        ("tokenizer.ggml.model".to_string(), text("gpt2")),
        (
            "tokenizer.ggml.tokens".to_string(),
            MetadataValue::Array(tokens.iter().map(|t| text(t)).collect()),
        ),
    ];
    if template {
        metadata.push(("tokenizer.chat_template".to_string(), text("{{ messages }}")));
    }
    match build_tokenizer(&GgufFile { metadata, tensors: Vec::new() }) {
        Ok(Assembly::Done(b)) => b,
        _ => panic!("expected a tokenizer"),
    }
}

fn text(s: &str) -> Json {
    Json::String(s.to_string())
}

fn id(n: u64) -> Json {
    Json::Number(Number::PosInt(n))
}

#[test]
fn texts_are_encoded() {
    let b = bundle(&TOKENS, true);
    assert_eq!(encode(&b, "ab", false).unwrap(), vec![0, 1]);
}

#[test]
fn prompts_take_four_shapes() {
    let b = bundle(&TOKENS, true);
    let tokens = |v: Json| prompt_value_to_tokens(&Some(v), &b, false);
    assert_eq!(tokens(text("ba")).unwrap(), vec![1, 0]);
    // Strings are joined, numbers are taken as they are.
    assert_eq!(tokens(Json::Array(vec![text("a"), text("b")])).unwrap(), vec![0, 1]);
    assert_eq!(tokens(Json::Array(vec![id(7), id(9)])).unwrap(), vec![7, 9]);
    let kind = |v: Json| tokens(v).unwrap_err().kind;
    assert_eq!(kind(Json::Array(vec![id(1 << 32)])), ConvertKind::TokenRange);
    assert_eq!(
        kind(Json::Array(vec![text("a"), id(1)])),
        ConvertKind::PromptMixed
    );
    assert_eq!(kind(Json::Bool(true)), ConvertKind::PromptShape);
    assert_eq!(
        prompt_value_to_tokens(&None, &b, false).unwrap_err().kind,
        ConvertKind::PromptMissing
    );
}

#[test]
fn embedding_inputs_take_lists() {
    let b = bundle(&TOKENS, true);
    let tokens = |v: Json| embedding_inputs_to_tokens(&b, &v);
    assert_eq!(tokens(text("ab")).unwrap(), vec![vec![0, 1]]);
    assert_eq!(
        tokens(Json::Array(vec![text("a"), text("b")])).unwrap(),
        vec![vec![0], vec![1]]
    );
    assert_eq!(tokens(Json::Array(vec![id(3), id(4)])).unwrap(), vec![vec![3, 4]]);
    assert_eq!(
        tokens(Json::Array(vec![Json::Array(vec![id(3)]), Json::Array(vec![id(4)])])).unwrap(),
        vec![vec![3], vec![4]]
    );
    assert_eq!(
        tokens(Json::Array(vec![])).unwrap_err().kind,
        ConvertKind::InputEmpty
    );
    assert_eq!(tokens(Json::Null).unwrap_err().kind, ConvertKind::InputShape);
    assert_eq!(
        tokens(Json::Array(vec![Json::Bool(true)])).unwrap_err().kind,
        ConvertKind::InputElement
    );
}

#[test]
fn rendered_conversations_are_encoded() {
    let b = bundle(&TOKENS, true);
    assert_eq!(render_and_encode(Some(&b), Ok("ab")).unwrap(), vec![0, 1]);
    let e = render_and_encode(Some(&b), Err("bad template")).unwrap_err();
    assert_eq!(e.message(""), "bad template");
    let bare = bundle(&TOKENS, false);
    assert_eq!(
        render_and_encode(Some(&bare), Ok("ab")).unwrap_err().kind,
        ConvertKind::NoTemplate
    );
    assert_eq!(
        render_and_encode(None, Ok("ab")).unwrap_err().kind,
        ConvertKind::NoTemplate
    );
    let turns = prompt_turns(vec![ChatMessage::user("hi")], Some("sys"));
    assert_eq!(turns[0].role, "system");
}

fn offer(images: usize, audios: usize) -> MediaOffer {
    MediaOffer { images, audios, has_vision: true, has_audio: true }
}

#[test]
fn media_plans() {
    let b = bundle(&TOKENS, true);
    let marked = format!("a{MEDIA_MARKER}b");
    assert!(matches!(
        plan_media(Some(&b), Ok("ab"), offer(0, 0)),
        Ok(MediaPlan::Text(ids)) if ids == vec![0, 1]
    ));
    match plan_media(Some(&b), Ok(&marked), offer(1, 0)) {
        Ok(MediaPlan::Image { before, after }) => {
            assert_eq!((before.as_str(), after.as_str()), ("a", "b"))
        }
        _ => panic!("expected an image"),
    }
    assert!(matches!(
        plan_media(Some(&b), Ok(&marked), offer(0, 1)),
        Ok(MediaPlan::Audio { .. })
    ));
    let kind = |t: &str, o: MediaOffer| plan_media(Some(&b), Ok(t), o).unwrap_err().kind;
    assert_eq!(kind(&marked, offer(1, 1)), ConvertKind::BothMedia);
    assert_eq!(kind("ab", offer(1, 0)), ConvertKind::MarkerLost);
    assert_eq!(kind(&marked, offer(2, 0)), ConvertKind::ManyImages);
    assert_eq!(kind(&marked, offer(0, 2)), ConvertKind::ManyAudios);
    let blind = MediaOffer { has_vision: false, has_audio: false, ..offer(1, 0) };
    assert_eq!(kind(&marked, blind), ConvertKind::NoVision);
    let deaf = MediaOffer { images: 0, audios: 1, ..blind };
    assert_eq!(kind(&marked, deaf), ConvertKind::NoAudio);
}

#[test]
fn media_blocks_hold_one_placeholder_a_token() {
    let b = bundle(&TOKENS, true);
    let p = image_prompt(&b, "a", "b", 4, 2, 2, 2).unwrap();
    assert_eq!(p.tokens, vec![0, 2, 3, 3, 4, 1]);
    assert_eq!((p.image_start, p.nx, p.ny), (2, 2, 1));
    // 1600 samples in frames of 640: the last one is filled in part.
    let p = audio_prompt(&b, "a", "", 1600, 640).unwrap();
    assert_eq!(p.tokens, vec![0, 5, 6, 6, 6, 7]);
    assert_eq!((p.audio_start, p.n_tok), (2, 3));
    assert_eq!(audio_prompt(&b, "a", "", 1280, 640).unwrap().n_tok, 2);
    let e = image_prompt(&bundle(&["a"], true), "a", "", 2, 2, 1, 2).unwrap_err();
    assert_eq!(
        e.message(""),
        "tokenizer has no <|vision_start|> token — this model lacks that modality"
    );
    assert_eq!(splice_block(vec![1], 7, 8, 2, 9, &[2]), (vec![1, 7, 8, 8, 9, 2], 2));
}

#[test]
fn pinned_prefix_is_what_renders_share() {
    assert_eq!(shared_prefix(&[1, 2, 3], &[1, 2, 4]), Some(vec![1, 2]));
    assert_eq!(shared_prefix(&[1], &[2]), None);
    let turns = pin_turns("sys", "a");
    assert_eq!((turns.len(), turns[0].role.as_str()), (2, "system"));
    let b = bundle(&TOKENS, true);
    assert_eq!(
        compute_pin_prefix(&b, Some("aab"), Some("aba")),
        Some(vec![0])
    );
    assert_eq!(compute_pin_prefix(&b, None, Some("aba")), None);
}
