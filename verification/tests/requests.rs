//! Settings of generations, refusals and replies.
use seeker::gguf::{GgufFile, MetadataValue};
use seeker::json::{Json, Number};
use seeker::server::config::ServerConfig;
use seeker::server::convert::ConvertKind;
use seeker::server::inference::{collect, GenEvent, GenOutput, SamplerConfig, StopReason};
use seeker::server::respond::{
    assemble_infill, chat_config, chat_response, chat_turns, completion_config, completion_prompt,
    completion_response, count_response, detokenize, find_fim, infill_config, infill_prompt,
    limit_tokens, messages_config, messages_response, messages_turns, model_list, native_config,
    native_response, props_response, single_choice, slot_list, template_turns, tokenize,
    tokenize_reply, usage, Refusal, TokenizeReply,
};
use seeker::server::state::{AppState, AppStateInit};
use seeker::server::static_assets::{asset_reply, normalize_path, AssetReply};
use seeker::server::types::anthropic::{ContentBlock, MessagesInputMessage, MessagesRequest};
use seeker::server::types::llama;
use seeker::server::types::llama::{
    InfillRequest, LlamaEmbeddingResponse, TokenizeRequest, STUB_MODEL,
};
use seeker::server::types::openai::{
    ChatCompletionRequest, ChatMessage as OpenAiMessage, CompletionRequest,
};
use seeker::tokenizer::bundle::TokenizerBundle;
use seeker::tokenizer::{build_tokenizer, Assembly};

fn default_sampler() -> SamplerConfig<f32> {
    SamplerConfig {
        temperature: 0.8,
        top_k: 40,
        top_p: 0.95,
        min_p: 0.05,
        presence_penalty: 0.0,
        frequency_penalty: 0.0,
        repeat_penalty: 1.0,
        penalty_last_n: 64,
        seed: 0,
        logit_bias: vec![],
    }
}

fn base() -> SamplerConfig<f32> {
    SamplerConfig {
        temperature: 0.3,
        top_k: 11,
        top_p: 0.5,
        min_p: 0.1,
        seed: 99,
        logit_bias: vec![(7, 1.0)],
        ..default_sampler()
    }
}

#[test]
fn chat_request_overrides_base_only_where_present() {
    // Empty request: every field inherits the base (incl. logit_bias).
    let cfg = ChatCompletionRequest::default().sampler_config(&base());
    assert_eq!(cfg.temperature, 0.3);
    assert_eq!(cfg.top_k, 11);
    assert_eq!(cfg.seed, 99);
    assert_eq!(cfg.logit_bias, vec![(7, 1.0)]);

    // A request value overrides just that field.
    let req = ChatCompletionRequest {
        temperature: Some(1.5),
        seed: Some(42),
        ..Default::default()
    };
    let cfg = req.sampler_config(&base());
    assert_eq!(cfg.temperature, 1.5); // overridden
    assert_eq!(cfg.seed, 42); // overridden
    assert_eq!(cfg.top_p, 0.5); // inherited
    assert_eq!(cfg.logit_bias, vec![(7, 1.0)]); // always inherited
}

#[test]
fn completion_request_overrides_temperature_only() {
    let req = CompletionRequest {
        temperature: Some(0.0),
        ..Default::default()
    };
    let cfg = req.sampler_config(&base());
    assert_eq!(cfg.temperature, 0.0);
    assert_eq!(cfg.top_k, 11); // inherited from base
}

fn text(s: &str) -> Json {
    Json::String(s.to_string())
}

fn bundle(tokens: &[&str], template: bool) -> TokenizerBundle {
    let mut metadata: Vec<(String, MetadataValue<f32>)> = vec![
        (
            "tokenizer.ggml.model".to_string(),
            MetadataValue::String("gpt2".to_string()),
        ),
        (
            "tokenizer.ggml.tokens".to_string(),
            MetadataValue::Array(
                tokens
                    .iter()
                    .map(|t| MetadataValue::String(t.to_string()))
                    .collect(),
            ),
        ),
    ];
    if template {
        metadata.push((
            "tokenizer.chat_template".to_string(),
            MetadataValue::String("{{ messages }}".to_string()),
        ));
    }
    let file = GgufFile { metadata, tensors: Vec::new() };
    match build_tokenizer(&file) {
        Ok(Assembly::Done(b)) => b,
        _ => panic!("expected a tokenizer"),
    }
}

fn loaded(tokens: &[&str], template: bool) -> AppState<f32> {
    AppState::new(AppStateInit {
        tokenizer: bundle(tokens, template),
        template_kwargs: Vec::new(),
        default_sampler: base(),
        default_max_tokens: 128,
        default_ignore_eos: true,
        default_system_prompt: Some("be terse".to_string()),
        ctx_size: 4096,
        n_slots: 2,
        model_id: "tiny".to_string(),
        model_path: "/models/tiny".to_string(),
        vision_config: None,
        audio_config: None,
    })
}

fn unloaded() -> AppState<f32> {
    AppState::empty(default_sampler())
}

#[test]
fn state_hands_out_what_it_was_made_from() {
    let s = loaded(&["a"], true);
    assert_eq!(s.chat_template(), Some("{{ messages }}"));
    assert_eq!(s.default_system_prompt(), Some("be terse"));
    assert_eq!(s.default_max_tokens(), 128);
    assert!(s.default_ignore_eos());
    assert_eq!((s.ctx_size(), s.n_slots()), (4096, 2));
    assert_eq!(s.model_id(), "tiny");
    assert_eq!(s.model_path(), Some("/models/tiny"));
    assert_eq!(s.default_sampler().top_k, 11);
    assert!(s.template_kwargs().is_empty());
    assert!(s.vision_config().is_none() && s.audio_config().is_none());
    assert!(s.bos_token().is_none() && s.eos_token().is_none());
    let s = unloaded();
    assert!(s.tokenizer().is_none());
    assert_eq!((s.chat_template(), s.n_slots()), (None, 0));
}

#[test]
fn chat_settings_follow_the_request() {
    let s = loaded(&["a"], true);
    let req = ChatCompletionRequest {
        top_k: Some(3),
        stop: Some(text("END")),
        ..Default::default()
    };
    let cfg = chat_config(&s, &req);
    assert_eq!(cfg.sampler.top_k, 3);
    assert_eq!(cfg.max_tokens, 128);
    assert_eq!(cfg.stop, vec!["END".to_string()]);
    assert!(cfg.ignore_eos);
    assert_eq!(cfg.id_slot, None);

    let req = CompletionRequest {
        max_tokens: Some(5),
        ..Default::default()
    };
    assert_eq!(completion_config(&s, &req).max_tokens, 5);
}

#[test]
fn message_settings_override_three_fields() {
    let s = loaded(&["a"], true);
    let req = MessagesRequest {
        model: None,
        messages: Vec::new(),
        system: None,
        max_tokens: Some(9),
        temperature: Some(0.9),
        top_p: None,
        top_k: Some(2),
        stop_sequences: Some(vec!["x".to_string(), "y".to_string()]),
        stream: None,
        tools: None,
        tool_choice: None,
        metadata: None,
    };
    let cfg = messages_config(&s, &req);
    assert_eq!((cfg.sampler.temperature, cfg.sampler.top_k), (0.9, 2));
    assert_eq!(cfg.sampler.top_p, 0.5);
    assert_eq!(cfg.max_tokens, 9);
    assert_eq!(cfg.stop, vec!["x".to_string(), "y".to_string()]);
}

fn native(n_predict: Option<i32>, id_slot: Option<i32>) -> llama::CompletionRequest<f32> {
    llama::CompletionRequest {
        prompt: None,
        n_predict,
        temperature: None,
        stream: None,
        stop: None,
        cache_prompt: None,
        id_slot,
    }
}

#[test]
fn native_settings_limit_and_pin() {
    let s = loaded(&["a"], true);
    assert_eq!(limit_tokens(Some(7), 128), 7);
    assert_eq!(limit_tokens(Some(0), 128), 128);
    assert_eq!(limit_tokens(Some(-1), 128), 128);
    assert_eq!(limit_tokens(None, 128), 128);
    let cfg = native_config(&s, &native(Some(7), Some(1)));
    assert_eq!((cfg.max_tokens, cfg.id_slot), (7, Some(1)));
    let cfg = native_config(&s, &native(Some(-1), Some(-1)));
    assert_eq!((cfg.max_tokens, cfg.id_slot), (128, None));
    assert!(cfg.stop.is_empty());
}

#[test]
fn one_reply_and_a_model_are_needed() {
    assert!(single_choice(true, None).is_ok());
    assert!(single_choice(true, Some(1)).is_ok());
    let e = single_choice(true, Some(2)).unwrap_err();
    assert!(matches!(e, Refusal::ManyChoices));
    assert_eq!(e.status(), 400);
    let e = single_choice(false, Some(2)).unwrap_err();
    assert!(matches!(e, Refusal::NoModel));
    assert_eq!(e.status(), 503);
}

#[test]
fn generation_is_refused_without_a_model() {
    let s = unloaded();
    assert_eq!(chat_turns(false, None, &[]).unwrap_err().status(), 503);
    assert_eq!(completion_prompt(&s, false, None, &None).unwrap_err().status(), 503);
    assert_eq!(completion_prompt(&s, true, None, &None).unwrap_err().status(), 503);
    assert_eq!(messages_turns(false, &None, &[]).unwrap_err().status(), 503);
    assert_eq!(template_turns(&s, &[]).unwrap_err().status(), 503);
    assert_eq!(detokenize(&s, &[0]).unwrap_err().status(), 503);
}

#[test]
fn requests_become_prompts() {
    let s = loaded(&["a", "b"], true);
    assert_eq!(
        completion_prompt(&s, true, None, &Some(text("aba"))).unwrap(),
        vec![0, 1, 0]
    );
    match completion_prompt(&s, true, None, &None).unwrap_err() {
        Refusal::Convert(e) => assert_eq!(e.message(""), "request is missing `prompt`"),
        _ => panic!("expected a conversion failure"),
    }
    let (chat, images, audios) = chat_turns(
        true,
        Some(1),
        &[OpenAiMessage {
            role: "user".to_string(),
            content: text("hi"),
            name: None,
            tool_call_id: None,
        }],
    )
    .unwrap();
    assert_eq!(chat[0].content, "hi");
    assert!(images.is_empty() && audios.is_empty());
    let turns = messages_turns(
        true,
        &Some(text("sys")),
        &[MessagesInputMessage {
            role: "user".to_string(),
            content: text("hi"),
        }],
    )
    .unwrap();
    assert_eq!(turns.len(), 2);
    let turns = template_turns(
        &s,
        &[Json::Object(vec![("role".to_string(), text("user"))])],
    )
    .unwrap();
    assert_eq!(turns[0].role, "user");
}

fn infill(prefix: Option<&str>, suffix: Option<&str>) -> InfillRequest {
    InfillRequest {
        input_prefix: prefix.map(|s| s.to_string()),
        input_suffix: suffix.map(|s| s.to_string()),
        input_extra: None,
        prompt: None,
        n_predict: None,
        stream: None,
    }
}

#[test]
fn infill_uses_the_first_known_spelling() {
    let s = loaded(&["a", "b", "<PRE>", "<SUF>", "<MID>"], true);
    assert_eq!(find_fim(s.tokenizer().unwrap()), Some((2, 3, 4)));
    assert_eq!(
        infill_prompt(&s, true, &infill(Some("a"), Some("b"))).unwrap(),
        vec![2, 0, 3, 1, 4]
    );
    assert_eq!(infill_prompt(&s, true, &infill(None, None)).unwrap(), vec![2, 3, 4]);
    assert_eq!(infill_config(&s, &infill(None, None)).max_tokens, 128);
    let e = infill_prompt(&loaded(&["a"], true), true, &infill(None, None)).unwrap_err();
    assert!(matches!(e, Refusal::NoInfill));
    assert_eq!(e.status(), 501);
    assert_eq!(assemble_infill((7, 8, 9), &[1, 2], &[3]), vec![7, 1, 2, 8, 3, 9]);
}

#[test]
fn texts_and_tokens_convert_both_ways() {
    let s = loaded(&["a", "b"], true);
    let req = TokenizeRequest {
        content: Some("ba".to_string()),
        add_special: None,
        with_pieces: Some(true),
    };
    let found = tokenize(&s, &req).unwrap();
    assert_eq!(found.tokens, vec![1, 0]);
    match tokenize_reply(s.tokenizer().unwrap(), found, req.with_pieces) {
        TokenizeReply::Pieces(p) => {
            assert_eq!((p.tokens[0].id, p.tokens[0].piece.as_str()), (1, "b"));
            assert_eq!((p.tokens[1].id, p.tokens[1].piece.as_str()), (0, "a"));
        }
        _ => panic!("expected pieces"),
    }
    assert_eq!(detokenize(&s, &[1, 0]).unwrap().content, "ba");
}

#[test]
fn replies_carry_text_reason_and_counts() {
    let out = |why: StopReason| GenOutput {
        text: "hey".to_string(),
        stop_reason: why,
        prompt_tokens: 3,
        completion_tokens: 4,
    };
    let r = chat_response("id".to_string(), 5, "tiny".to_string(), out(StopReason::Eos));
    assert_eq!(r.object, "chat.completion");
    assert_eq!(r.choices[0].finish_reason, "stop");
    assert_eq!(r.choices[0].message.role, "assistant");
    assert_eq!(r.choices[0].message.content.as_str(), Some("hey"));
    assert_eq!(r.usage.total_tokens, 7);
    let r = completion_response("id".to_string(), 5, "tiny".to_string(), out(StopReason::MaxTokens));
    assert_eq!(r.choices[0].finish_reason, "length");
    assert_eq!(r.choices[0].text, "hey");
    let r = messages_response(
        "id".to_string(),
        "tiny".to_string(),
        out(StopReason::StopSequence("X".to_string())),
    );
    assert_eq!(r.stop_reason, "stop_sequence");
    assert_eq!(r.stop_sequence.as_deref(), Some("X"));
    match &r.content[0] {
        ContentBlock::Text { text } => assert_eq!(text, "hey"),
        _ => panic!("expected text"),
    }
    assert_eq!((r.usage.input_tokens, r.usage.output_tokens), (3, 4));
    let r = native_response("tiny".to_string(), out(StopReason::Eos));
    assert!(r.stop);
    assert_eq!((r.tokens_predicted, r.tokens_evaluated), (4, 3));
    assert_eq!(usage(1, 2).total_tokens, 3);
    assert_eq!(count_response(&[1, 2, 3]).input_tokens, 3);
}

#[test]
fn server_facts() {
    let s = loaded(&["a"], true);
    let m = model_list(&s);
    assert_eq!(m.object, "list");
    assert_eq!(m.data[0].id, "tiny");
    assert_eq!(m.data[0].owned_by, "seeker");
    assert!(model_list(&unloaded()).data.is_empty());
    let slots = slot_list(2);
    assert_eq!((slots[0].id, slots[1].id), (0, 1));
    assert!(!slots[1].is_processing);
    let p = props_response(&s, "1.0", Json::Object(Vec::new()));
    assert_eq!(p.model_path.as_deref(), Some("/models/tiny"));
    assert_eq!(p.total_slots, 2);
    let c = ServerConfig::defaults();
    assert_eq!(c.address(), "127.0.0.1:11434");
    assert!(!c.cors);
}

#[test]
fn paths_map_to_assets() {
    assert_eq!(normalize_path("/"), "index.html");
    assert_eq!(normalize_path(""), "index.html");
    assert_eq!(normalize_path("/docs/"), "docs/index.html");
    assert_eq!(normalize_path("/app.js"), "app.js");
    assert_eq!(normalize_path("app.js"), "app.js");
    assert_eq!(asset_reply(true, false, true), AssetReply::Full);
    assert_eq!(asset_reply(false, true, true), AssetReply::HeadersOnly);
    assert_eq!(asset_reply(true, false, false), AssetReply::NotFound);
    assert_eq!(asset_reply(false, false, true), AssetReply::NotFound);
}

#[test]
fn replies_are_collected() {
    let out = collect(vec![
        GenEvent::Started { prompt_tokens: 2 },
        GenEvent::Delta("a".to_string()),
        GenEvent::Delta("b".to_string()),
        GenEvent::Done {
            stop_reason: StopReason::Eos,
            prompt_tokens: 2,
            completion_tokens: 2,
        },
    ])
    .map(|o| (o.text, o.prompt_tokens, o.completion_tokens));
    assert_eq!(out, Ok(("ab".to_string(), 2, 2)));
    let e = collect(vec![
        GenEvent::Delta("a".to_string()),
        GenEvent::Error("no".to_string()),
    ])
    .map(|o| o.text);
    assert_eq!(e, Err("no".to_string()));
}

#[test]
fn placeholders() {
    assert_eq!(llama::CompletionResponse::stub("hi").model, STUB_MODEL);
    assert_eq!(llama::TokenizeResponse::stub().tokens, vec![0]);
    assert_eq!(LlamaEmbeddingResponse::stub(0.0f32).embedding, vec![0.0f32; 8]);
    assert_eq!(llama::DetokenizeResponse::stub().content, "");
    assert_eq!(llama::ApplyTemplateResponse::stub().prompt, "");
    assert_eq!(llama::PropsResponse::stub().build_info, "seeker-stub");
}

#[test]
fn json_numbers_keep_their_kind() {
    assert_eq!(Json::number(3).as_u64(), Some(3));
    assert!(Json::signed(-3).is_integer());
    assert_eq!(Json::signed(-3).as_u64(), None);
    assert!(!Json::Number(Number::Float(0)).is_integer());
    assert_eq!(ConvertKind::PromptShape, ConvertKind::PromptShape);
}
