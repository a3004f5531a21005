//! Tokenizers built from model files.
use seeker::gguf::{GgufFile, MetadataValue};
use seeker::server::prompts::try_encode;
use seeker::tokenizer::bundle::{needs_second, Tokenizer, TokenizerBundle};
use seeker::tokenizer::error::TokenizerError;
use seeker::tokenizer::gemma;
use seeker::tokenizer::{
    build_tokenizer, end_ids, finish_unigram, install_specials, token_at, Assembly,
};
use tokenizers::models::bpe::{Vocab as BpeVocab, BPE};
use tokenizers::models::unigram::Unigram;
use tokenizers::models::ModelWrapper;
use tokenizers::pre_tokenizers::byte_level::ByteLevel;
use tokenizers::pre_tokenizers::PreTokenizerWrapper;

/// A ByteLevel+BPE tokenizer with one token per vocab entry and no merges.
fn bytelevel_bpe(tokens: &[&str]) -> Tokenizer {
    let vocab: BpeVocab = tokens
        .iter()
        .enumerate()
        .map(|(i, t)| (t.to_string(), i as u32))
        .collect();
    let bpe = BPE::builder()
        .vocab_and_merges(vocab, Vec::new())
        .build()
        .unwrap();
    let mut tk = Tokenizer::new(ModelWrapper::BPE(bpe));
    let bl = ByteLevel::new(false, true, true);
    tk.with_pre_tokenizer(Some(PreTokenizerWrapper::ByteLevel(bl)));
    tk
}

fn ids(tk: &Tokenizer, text: &str) -> Vec<u32> {
    tk.encode(text, false).unwrap().get_ids().to_vec()
}

#[test]
fn control_token_encodes_as_single_id() {
    let tokens = ["<", "|", "x", ">", "<|x|>"];
    let token_types = [1, 1, 1, 1, 3];

    // Baseline: without registering the control token it shreds.
    let plain = bytelevel_bpe(&tokens);
    assert!(
        ids(&plain, "<|x|>").len() > 1,
        "precondition: unregistered control token should shred"
    );

    // With install_specials it should collapse to the single id 4.
    let mut tk = bytelevel_bpe(&tokens);
    let owned: Vec<String> = tokens.iter().map(|s| s.to_string()).collect();
    install_specials(&mut tk, &owned, Some(&token_types), None, None, None);
    assert_eq!(ids(&tk, "<|x|>"), vec![4]);
}

fn strings(v: &[&str]) -> MetadataValue<f32> {
    MetadataValue::Array(
        v.iter()
            .map(|s| MetadataValue::String(s.to_string()))
            .collect(),
    )
}

fn file(metadata: Vec<(&str, MetadataValue<f32>)>) -> GgufFile<f32> {
    GgufFile {
        metadata: metadata
            .into_iter()
            .map(|(k, v)| (k.to_string(), v))
            .collect(),
        tensors: Vec::new(),
    }
}

fn kind(name: &str) -> MetadataValue<f32> {
    MetadataValue::String(name.to_string())
}

fn types(v: &[i32]) -> MetadataValue<f32> {
    MetadataValue::Array(v.iter().map(|t| MetadataValue::I32(*t)).collect())
}

fn done(f: &GgufFile<f32>) -> TokenizerBundle {
    match build_tokenizer(f) {
        Ok(Assembly::Done(b)) => b,
        _ => panic!("expected a finished tokenizer"),
    }
}

fn failed(f: &GgufFile<f32>) -> TokenizerError {
    match build_tokenizer(f) {
        Err(e) => e,
        Ok(_) => panic!("expected a failure"),
    }
}

fn bpe_file() -> GgufFile<f32> {
    file(vec![
        ("tokenizer.ggml.model", kind("gpt2")),
        (
            "tokenizer.ggml.tokens",
            strings(&["a", "b", "ab", "<s>", "</s>", "\u{120}"]),
        ),
        ("tokenizer.ggml.merges", strings(&["a b"])),
        ("tokenizer.ggml.token_type", types(&[1, 1, 1, 3, 3, 1])),
        ("tokenizer.ggml.bos_token_id", MetadataValue::U32(3)),
        ("tokenizer.ggml.eos_token_id", MetadataValue::U32(4)),
        ("tokenizer.ggml.add_bos_token", MetadataValue::Bool(true)),
        ("tokenizer.chat_template", kind("{{ messages }}")),
    ])
}

#[test]
fn byte_pair_file_builds() {
    let b = done(&bpe_file());
    assert_eq!(b.model_kind, "gpt2");
    assert_eq!(ids(b.tokenizer.get(), "ab a"), vec![2, 5, 0]);
    assert_eq!(b.tokenizer.get().decode(&[2, 5, 0], false).unwrap(), "ab a");
    assert_eq!(b.bos_token.as_deref(), Some("<s>"));
    assert_eq!(b.eos_token.as_deref(), Some("</s>"));
    assert!(b.add_bos_default);
    assert!(!b.add_eos_default);
    assert_eq!(b.chat_template.as_deref(), Some("{{ messages }}"));
    assert_eq!(b.eog_ids, vec![4]);
    // The template puts both marks round a text on request.
    let marked = b.tokenizer.get().encode("ab", true).unwrap();
    assert!(marked.get_ids().contains(&3));
    assert!(marked.get_ids().contains(&2));
    // Special tokens are matched whole and left out of decoded text on request.
    assert_eq!(ids(b.tokenizer.get(), "<s>a"), vec![3, 0]);
    assert_eq!(b.tokenizer.get().decode(&[3, 0], true).unwrap(), "a");
}

#[test]
fn unusable_files_are_refused() {
    assert!(matches!(
        failed(&file(vec![])),
        TokenizerError::MissingField("tokenizer.ggml.model")
    ));
    assert!(matches!(
        failed(&file(vec![("tokenizer.ggml.model", MetadataValue::U32(1))])),
        TokenizerError::WrongFieldType("tokenizer.ggml.model")
    ));
    let e = failed(&file(vec![
        ("tokenizer.ggml.model", kind("gpt2")),
        ("tokenizer.ggml.tokens", strings(&[])),
    ]));
    assert!(matches!(e, TokenizerError::EmptyVocab));
    assert_eq!(e.message(), "tokenizer.ggml.tokens is empty");
    let e = failed(&file(vec![
        ("tokenizer.ggml.model", kind("bert")),
        ("tokenizer.ggml.tokens", strings(&["a"])),
    ]));
    assert_eq!(
        e.message(),
        "unsupported tokenizer.ggml.model: `bert`; only `gpt2` (BPE) and `llama` (Unigram) are wired up"
    );
    let e = failed(&file(vec![
        ("tokenizer.ggml.model", kind("gpt2")),
        ("tokenizer.ggml.tokens", strings(&["a", "b"])),
        ("tokenizer.ggml.merges", strings(&["ab"])),
    ]));
    assert_eq!(e.message(), "malformed BPE merge `ab` (expected `left right`)");
    // A merge of a token that the vocabulary lacks fails in the model itself.
    let e = failed(&file(vec![
        ("tokenizer.ggml.model", kind("gpt2")),
        ("tokenizer.ggml.tokens", strings(&["a", "b"])),
        ("tokenizer.ggml.merges", strings(&["a c"])),
    ]));
    assert!(matches!(e, TokenizerError::Inner(_)));
    assert!(e.message().starts_with("tokenizers crate error: "));
}

fn unigram_file(scores: &[f32]) -> GgufFile<f32> {
    file(vec![
        ("tokenizer.ggml.model", kind("llama")),
        (
            "tokenizer.ggml.tokens",
            strings(&["<unk>", "\u{2581}a", "b", "<0x41>"]),
        ),
        (
            "tokenizer.ggml.scores",
            MetadataValue::Array(scores.iter().map(|s| MetadataValue::F32(*s)).collect()),
        ),
        ("tokenizer.ggml.token_type", types(&[2, 1, 1, 6])),
        ("tokenizer.ggml.unknown_token_id", MetadataValue::U32(0)),
    ])
}

#[test]
fn unigram_file_waits_for_its_model() {
    let (plan, parts) = match build_tokenizer(&unigram_file(&[0.0, -1.0, -1.5, -2.0])) {
        Ok(Assembly::Unigram(plan, parts)) => (plan, parts),
        _ => panic!("expected a unigram plan"),
    };
    assert_eq!(plan.vocab[2], ("b".to_string(), -1.5));
    assert_eq!(plan.unk_id, Some(0));
    assert!(plan.byte_fallback);
    let vocab: Vec<(String, f64)> = plan.vocab.iter().map(|(t, s)| (t.clone(), *s as f64)).collect();
    let model = Unigram::from(vocab, plan.unk_id, plan.byte_fallback).unwrap();
    let b = finish_unigram(Ok(ModelWrapper::Unigram(model)), parts).unwrap();
    assert_eq!(ids(b.tokenizer.get(), "ab"), vec![1, 2]);
    assert_eq!(b.tokenizer.get().decode(&[1, 2], false).unwrap(), "ab");

    // As many scores as tokens.
    let e = failed(&unigram_file(&[0.0]));
    assert_eq!(
        e.message(),
        "GGUF field `tokenizer.ggml.scores` has unexpected type"
    );
}

#[test]
fn failed_unigram_model_is_reported() {
    let parts = match build_tokenizer(&unigram_file(&[0.0, -1.0, -1.5, -2.0])) {
        Ok(Assembly::Unigram(_, parts)) => parts,
        _ => panic!("expected a unigram plan"),
    };
    match finish_unigram(Err("no luck".to_string()), parts) {
        Err(TokenizerError::Inner(e)) => assert_eq!(e, "no luck"),
        _ => panic!("expected the failure"),
    }
}

#[test]
fn gemma_tokenizer_falls_back_to_bytes() {
    let tokens: Vec<String> = ["a", "b", "ab", "\u{2581}", "<0x63>"]
        .iter()
        .map(|s| s.to_string())
        .collect();
    let f = file(vec![("tokenizer.ggml.merges", strings(&["a b"]))]);
    let tk = match gemma::build(&tokens, &f) {
        Ok(tk) => tk,
        Err(e) => panic!("{}", e.message()),
    };
    // Spaces become the replacement, and a missing character its bytes.
    assert_eq!(ids(&tk, "ab a"), vec![2, 3, 0]);
    assert_eq!(ids(&tk, "c"), vec![4]);
}

#[test]
fn end_tokens_are_gathered_once() {
    let tokens: Vec<String> = ["a", "<|im_end|>", "<|endoftext|>", "b"]
        .iter()
        .map(|s| s.to_string())
        .collect();
    let got = end_ids(&tokens, Some(1), Some(1), Some(3));
    assert!(got.contains(&1));
    assert!(got.contains(&3));
    assert!(!got.contains(&0));
    assert_eq!(got.iter().filter(|id| **id == 1).count(), 1);
}

#[test]
fn token_texts_by_id() {
    let tokens: Vec<String> = vec!["a".to_string()];
    assert_eq!(token_at(&tokens, Some(0)).as_deref(), Some("a"));
    assert_eq!(token_at(&tokens, Some(1)), None);
    assert_eq!(token_at(&tokens, None), None);
}

#[test]
fn marks_may_be_control_tokens_too() {
    // Both marks are registered twice over, and the empty token not at all.
    let b = done(&file(vec![
        ("tokenizer.ggml.model", kind("gpt2")),
        ("tokenizer.ggml.tokens", strings(&["a", "<s>", ""])),
        ("tokenizer.ggml.token_type", types(&[1, 3, 3])),
        ("tokenizer.ggml.bos_token_id", MetadataValue::U32(1)),
        ("tokenizer.ggml.eos_token_id", MetadataValue::U32(1)),
    ]));
    assert_eq!(ids(b.tokenizer.get(), "<s>a"), vec![1, 0]);
    assert_eq!(
        b.tokenizer.get().get_added_vocabulary().get_vocab().len(),
        1
    );
}

#[test]
fn marks_may_ask_for_a_second_text() {
    for mark in ["$B", "$b:1"] {
        let b = done(&file(vec![
            ("tokenizer.ggml.model", kind("gpt2")),
            ("tokenizer.ggml.tokens", strings(&["a", mark])),
            ("tokenizer.ggml.bos_token_id", MetadataValue::U32(1)),
        ]));
        // The template is installed, and no text can be encoded by itself.
        assert!(b.tokenizer.get().get_post_processor().is_some());
        assert!(!b.encodes_text());
        assert!(try_encode(&b, "a", true).is_none());
    }
    let b = done(&file(vec![
        ("tokenizer.ggml.model", kind("gpt2")),
        ("tokenizer.ggml.tokens", strings(&["a", "$BB"])),
        ("tokenizer.ggml.bos_token_id", MetadataValue::U32(1)),
    ]));
    assert!(b.encodes_text());
    assert_eq!(try_encode(&b, "a", false).unwrap().unwrap(), vec![0]);
    assert!(needs_second("<s> $A $B:2"));
    assert!(!needs_second("<s>$B $A $BB"));
}
