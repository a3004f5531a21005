//! Requests through the scheduler.
use seeker::gguf::{GgufFile, MetadataValue};
use seeker::server::admission::UnifiedStart;
use seeker::server::inference::{GenEvent, StopReason};
use seeker::server::media::image_lag;
use seeker::server::scheduler::Advance;
use seeker::server::sequence::Emission;
use seeker::server::setup::{
    device_local_bytes, pool_bytes, prefix_params, resolve_n_slots, route, snapshot_len, PrefillNext,
    PrefixParams, PrefixSettings, Route,
};
use seeker::server::worker::{AdmitError, MediaSupport, Request, Worker};
use seeker::tokenizer::bundle::TokenizerBundle;
use seeker::tokenizer::{build_tokenizer, Assembly};

fn bundle() -> TokenizerBundle {
    let text = |s: &str| MetadataValue::String(s.to_string());
    let file: GgufFile<f32> = GgufFile {
        metadata: vec![
            ("tokenizer.ggml.model".to_string(), text("gpt2")),
            (
                "tokenizer.ggml.tokens".to_string(),
                MetadataValue::Array(vec![text("a"), text("b"), text("c"), text("<end>")]),
            ),
        ],
        tensors: Vec::new(),
    };
    match build_tokenizer(&file) {
        Ok(Assembly::Done(b)) => b,
        _ => panic!("expected a tokenizer"),
    }
}

fn request(id: u64, tokens: &[u32], max_tokens: u32) -> Request {
    Request {
        id,
        tokens: tokens.to_vec(),
        max_tokens,
        stop: Vec::new(),
        ignore_eos: false,
        id_slot: None,
    }
}

fn worker(unified: bool, prefix: Option<PrefixParams>) -> Worker {
    Worker::new(2, 16, 4, unified, vec![3], None, 0, prefix)
}

fn begin(w: &mut Worker, req: Request) -> usize {
    let (slab, start) = match w.admit_unified(&req) {
        Ok(p) => p,
        Err(e) => panic!("{}", e.message()),
    };
    w.begin_unified(req, slab, start);
    slab
}

/// Run one step; every sequence that is fed to its end takes `token`.
fn step(w: &mut Worker, b: &TokenizerBundle, token: u32) -> Vec<(u64, String)> {
    let mut sent = Vec::new();
    let plan = match w.schedule_step() {
        Some(plan) => plan,
        None => return sent,
    };
    assert_eq!(plan.tokens.len(), plan.positions.len());
    for (i, n) in plan.parts {
        if let Advance::CaughtUp { .. } = w.advance(i, n) {
            if let Some(e) = w.take_token(b.tokenizer.get(), i, token) {
                if let Emission::Text(t) = &e {
                    sent.push((w.active[i].id, t.clone()));
                }
                w.settle_token(i, &e, true);
            }
        }
    }
    sent
}

#[test]
fn prompts_are_chunked_and_decoded() {
    let b = bundle();
    let mut w = worker(true, None);
    begin(&mut w, request(1, &[0, 1, 2, 0, 1, 2], 2));
    // The budget of four splits the six prompt tokens.
    let plan = w.schedule_step().unwrap();
    assert_eq!(plan.parts, vec![(0, 4)]);
    assert_eq!(plan.tokens, vec![0, 1, 2, 0]);
    assert_eq!(plan.positions, vec![0, 1, 2, 3]);
    assert!(matches!(
        w.advance(0, 4),
        Advance::Prefilling { capture: None }
    ));
    let plan = w.schedule_step().unwrap();
    assert_eq!(plan.tokens, vec![1, 2]);
    assert_eq!(plan.positions, vec![4, 5]);
    match w.advance(0, 2) {
        Advance::CaughtUp { announce } => assert_eq!(announce, Some(6)),
        _ => panic!("expected the end of the prompt"),
    }
    let e = w.take_token(b.tokenizer.get(), 0, 1).unwrap();
    match &e {
        Emission::Text(t) => assert_eq!(t, "b"),
        _ => panic!("expected text"),
    }
    w.settle_token(0, &e, true);
    // The sampled token is the next input.
    let plan = w.schedule_step().unwrap();
    assert_eq!((plan.tokens, plan.positions), (vec![1], vec![6]));
    assert!(matches!(w.advance(0, 1), Advance::CaughtUp { announce: None }));
    let e = w.take_token(b.tokenizer.get(), 0, 2).unwrap();
    w.settle_token(0, &e, true);
    // Two tokens were asked for.
    let gone = w.evict_finished();
    assert_eq!(gone.len(), 1);
    assert_eq!(gone[0].id, 1);
    match gone[0].frames.last() {
        Some(GenEvent::Done {
            stop_reason: StopReason::MaxTokens,
            prompt_tokens: 6,
            completion_tokens: 2,
        }) => {}
        _ => panic!("expected the closing frame"),
    }
    // The slab keeps what was fed: all but the last token.
    assert_eq!(w.slots[0].prior_tokens, vec![0, 1, 2, 0, 1, 2, 1]);
    assert!(w.active.is_empty());
    assert_eq!(w.free_slabs(), 2);
}

#[test]
fn continued_conversation_reuses_its_slab() {
    let b = bundle();
    let mut w = worker(true, None);
    let slab = begin(&mut w, request(1, &[0, 1], 1));
    step(&mut w, &b, 2);
    w.evict_finished();
    let (again, start) = match w.admit_unified(&request(2, &[0, 1, 2, 2], 1)) {
        Ok(p) => p,
        Err(e) => panic!("{}", e.message()),
    };
    assert_eq!(again, slab);
    assert!(matches!(start, UnifiedStart::Reuse(2)));
}

#[test]
fn decodes_go_before_prefill() {
    let b = bundle();
    let mut w = worker(true, None);
    begin(&mut w, request(1, &[0], 8));
    assert_eq!(step(&mut w, &b, 1), vec![(1, "b".to_string())]);
    begin(&mut w, request(2, &[0, 1, 2, 0, 1, 2], 8));
    let plan = w.schedule_step().unwrap();
    assert_eq!(plan.parts, vec![(0, 1), (1, 3)]);
    assert_eq!(plan.seq_lens, vec![1, 3]);
    assert_eq!(plan.tokens, vec![1, 0, 1, 2]);
}

#[test]
fn end_token_finishes_without_text() {
    let b = bundle();
    let mut w = worker(true, None);
    begin(&mut w, request(1, &[0], 8));
    assert!(step(&mut w, &b, 3).is_empty());
    let gone = w.evict_finished();
    assert_eq!(gone[0].frames.len(), 1);
    assert!(matches!(
        gone[0].frames[0],
        GenEvent::Done { stop_reason: StopReason::Eos, completion_tokens: 1, .. }
    ));
}

#[test]
fn stop_sequence_is_not_sent() {
    let b = bundle();
    let mut w = worker(true, None);
    let mut req = request(1, &[0], 8);
    req.stop = vec!["bc".to_string()];
    begin(&mut w, req);
    // "b" may become the stop, so it is held back.
    assert!(step(&mut w, &b, 1).is_empty());
    assert!(step(&mut w, &b, 2).is_empty());
    let gone = w.evict_finished();
    assert_eq!(gone[0].frames.len(), 1);
    match &gone[0].frames[0] {
        GenEvent::Done { stop_reason: StopReason::StopSequence(s), .. } => assert_eq!(s, "bc"),
        _ => panic!("expected the stop sequence"),
    }
}

#[test]
fn lost_client_gets_nothing() {
    let mut w = worker(true, None);
    begin(&mut w, request(1, &[0], 8));
    w.abandon(0);
    assert!(w.schedule_step().is_none());
    let gone = w.evict_finished();
    assert!(gone[0].frames.is_empty());
}

#[test]
fn failed_step_drops_its_participants() {
    let mut w = worker(true, None);
    begin(&mut w, request(1, &[0], 8));
    let plan = w.schedule_step().unwrap();
    w.step_failed(&plan.parts);
    assert_eq!(w.evict_finished().len(), 1);
}

#[test]
fn full_context_ends_a_reply() {
    let b = bundle();
    let mut w = Worker::new(1, 3, 4, true, vec![3], None, 0, None);
    begin(&mut w, request(1, &[0], 8));
    step(&mut w, &b, 1);
    step(&mut w, &b, 1);
    assert!(w.schedule_step().is_none());
    let gone = w.evict_finished();
    assert!(matches!(
        gone[0].frames.last(),
        Some(GenEvent::Done { stop_reason: StopReason::ContextFull, .. })
    ));
}

#[test]
fn requests_are_turned_away() {
    let mut w = worker(true, None);
    let refused = |r: Result<(usize, UnifiedStart), AdmitError>| match r {
        Err(e) => e.message(),
        Ok(_) => panic!("expected a refusal"),
    };
    assert_eq!(
        refused(w.admit_unified(&request(1, &[], 1))),
        "empty prompt — nothing to generate"
    );
    assert_eq!(
        refused(w.admit_unified(&request(1, &[0; 16], 1))),
        "prompt is 16 tokens but --ctx-size is 16 (no room to generate) — raise --ctx-size or shorten the prompt"
    );
    begin(&mut w, request(1, &[0], 1));
    begin(&mut w, request(2, &[0], 1));
    assert_eq!(
        refused(w.admit_unified(&request(3, &[0], 1))),
        "no free cache slot available"
    );
}

#[test]
fn prefix_snapshot_seeds_another_slab() {
    let params = PrefixParams {
        capacity: 1,
        max_cached_len: 16,
        ckpt_stride: 2,
        p_min: 2,
    };
    let b = bundle();
    let mut w = worker(true, Some(params));
    begin(&mut w, request(1, &[0, 1, 2, 0, 1, 2], 1));
    let plan = w.schedule_step().unwrap();
    let (i, n) = plan.parts[0];
    let c = match w.advance(i, n) {
        Advance::Prefilling { capture: Some(c) } => c,
        _ => panic!("expected a snapshot"),
    };
    assert_eq!((c.pool, c.p), (0, 4));
    w.capture_done(i, &c, false);
    step(&mut w, &b, 1);
    match w.admit_unified(&request(2, &[0, 1, 2, 0, 2], 1)) {
        Ok((slab, UnifiedStart::Seed { pool, p })) => {
            assert_eq!((slab, pool, p), (1, 0, 4));
            w.begin_unified(
                request(2, &[0, 1, 2, 0, 2], 1),
                slab,
                UnifiedStart::Seed { pool, p },
            );
        }
        _ => panic!("expected a seed"),
    }
    let last = w.active.last().unwrap();
    assert_eq!(last.num_computed, 4);
}

#[test]
fn serial_prefill_and_batched_decode() {
    let b = bundle();
    let mut w = worker(false, None);
    let req = request(1, &[0, 1], 3);
    let p = match w.admit_text(&req) {
        Ok(p) => p,
        Err(e) => panic!("{}", e.message()),
    };
    assert!(p.reset);
    assert_eq!((p.start, p.delta), (0, vec![0, 1]));
    w.prefilled(req, p.slab, None, true, 2);
    let e = w.take_token(b.tokenizer.get(), 0, 2).unwrap();
    w.settle_token(0, &e, true);
    let plan = w.decode_step().unwrap();
    assert_eq!((plan.tokens, plan.positions), (vec![2], vec![2]));
    w.decoded(0);
    let e = w.take_token(b.tokenizer.get(), 0, 1).unwrap();
    w.settle_token(0, &e, true);
    assert_eq!(w.active[0].generated, vec![2, 1]);
    w.bench_reset_slots(true);
    assert!(w.active.is_empty());
    assert_eq!(w.slots[0].last_used, 0);
}

#[test]
fn failed_prefill_clears_the_slab() {
    let mut w = worker(false, None);
    let req = request(1, &[0, 1], 3);
    let p = match w.admit_text(&req) {
        Ok(p) => p,
        Err(e) => panic!("{}", e.message()),
    };
    w.prefill_failed(p.slab);
    assert!(w.slots[p.slab].prior_tokens.is_empty());
    // Not delivered: the slab keeps the prompt.
    let p = match w.admit_text(&req) {
        Ok(p) => p,
        Err(e) => panic!("{}", e.message()),
    };
    w.prefilled(req, p.slab, None, false, 2);
    assert_eq!(w.slots[p.slab].prior_tokens, vec![0, 1]);
    assert!(w.active.is_empty());
}

#[test]
fn media_needs_an_encoder_and_room() {
    let mut w = worker(true, None);
    let req = request(1, &[0, 1, 2, 0], 1);
    assert!(matches!(w.admit_image(&req, 0, 1, 1), Err(AdmitError::NoVision)));
    assert!(matches!(w.admit_audio(&req, 0, 1), Err(AdmitError::NoAudio)));
    let media = MediaSupport { tower: true, audio: false };
    let mut w = Worker::new(2, 16, 4, true, vec![3], Some(media), 0, None);
    assert!(matches!(w.admit_image(&req, 3, 2, 1), Err(AdmitError::ImageOverrun)));
    assert!(matches!(w.admit_image(&req, 2, 2, 1), Ok(0)));
    assert!(matches!(w.admit_audio(&req, 0, 1), Err(AdmitError::NoAudio)));
    assert!(w.image_tower().is_ok());
    match w.encode_image(1000, 1) {
        Ok(need) => {
            assert_eq!(need, 160_000_000);
            assert_eq!(w.scratch_growth(need), Some(need));
            w.scratch_grown(need);
            assert_eq!(w.scratch_growth(need), None);
        }
        Err(e) => panic!("{}", e.message()),
    }
    match w.encode_image(1, 1) {
        Ok(need) => assert_eq!(need, 67_108_864),
        Err(e) => panic!("{}", e.message()),
    }
    assert_eq!(
        w.encode_audio(1).err().map(|e| e.message()).as_deref(),
        Some("no audio model loaded (mmproj has no audio encoder)")
    );
}

#[test]
fn work_is_routed_by_its_media() {
    assert!(matches!(route(true, false, true), Route::Image));
    assert!(matches!(route(false, true, true), Route::Audio));
    assert!(matches!(route(false, false, true), Route::Unified));
    assert!(matches!(route(false, false, false), Route::Text));
}

#[test]
fn memory_is_counted() {
    assert_eq!(device_local_bytes(&[(true, 5), (false, 7), (true, 1)]), 6);
    let s = PrefixSettings {
        enabled: true,
        slots: None,
        max_len: None,
        checkpoint: None,
        p_min: None,
    };
    assert_eq!(pool_bytes(&s, Some(10)), 20);
    assert!(prefix_params(&s, 4096).is_some());
    let p = prefix_params(&s, 100).unwrap();
    assert_eq!((p.capacity, p.max_cached_len, p.ckpt_stride, p.p_min), (2, 100, 512, 64));
    // Asked for, sized by memory, and the fallback.
    assert_eq!(resolve_n_slots(3, 8, Some(10), 100, 0, 0, 0), 3);
    assert_eq!(resolve_n_slots(0, 8, Some(10), 100, 30, 20, 10), 4);
    assert_eq!(resolve_n_slots(0, 2, Some(10), 100, 0, 0, 0), 2);
    assert_eq!(resolve_n_slots(0, 8, Some(10), 5, 0, 0, 0), 1);
    assert_eq!(resolve_n_slots(0, 8, None, 100, 0, 0, 0), 1);
    let off = PrefixSettings { enabled: false, ..s };
    assert_eq!(pool_bytes(&off, Some(10)), 0);
    assert!(prefix_params(&off, 4096).is_none());
}

#[test]
fn prefixes_are_reported_as_captured() {
    let prefix = PrefixParams { capacity: 1, max_cached_len: 8, ckpt_stride: 4, p_min: 2 };
    let mut w = worker(true, Some(prefix));
    assert!(w.takes_prefix(2) && w.takes_prefix(8));
    assert!(!w.takes_prefix(1) && !w.takes_prefix(9));
    // Nothing is running: there is nothing to wait for.
    assert_eq!(w.prefill_outcome(false, 0, None), PrefillNext::Done(false));
    begin(&mut w, request(1, &[0, 1, 2], 4));
    assert_eq!(w.prefill_outcome(false, 0, None), PrefillNext::Step);
    assert_eq!(w.prefill_outcome(false, 100_001, None), PrefillNext::Done(false));
    assert_eq!(w.prefill_outcome(true, 1, None), PrefillNext::Capture);
    assert_eq!(w.prefill_outcome(true, 1, Some(true)), PrefillNext::Done(true));
    assert_eq!(w.prefill_outcome(true, 1, Some(false)), PrefillNext::Done(false));
}

#[test]
fn snapshots_are_sized_as_asked() {
    let s = PrefixSettings {
        enabled: true,
        slots: None,
        max_len: Some(9000),
        checkpoint: None,
        p_min: None,
    };
    assert_eq!(snapshot_len(&s, 100), 9000);
    let s = PrefixSettings { max_len: None, ..s };
    assert_eq!(snapshot_len(&s, 100), 100);
    assert_eq!(snapshot_len(&s, 10_000), 4096);
    // More slots fit than 32 bits count.
    assert_eq!(resolve_n_slots(0, 8, Some(1), 1 << 32, 0, 0, 0), 8);
}

#[test]
fn images_take_their_longer_side() {
    assert_eq!(image_lag(4, 3), 8);
    assert_eq!(image_lag(1, 5), 0);
    assert_eq!(image_lag(0, 5), 0);
}
