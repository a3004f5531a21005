//! Model files, and what each architecture records for a pass.
use seeker::gguf::{GgufFile, MetadataValue, TensorInfo};
use seeker::models::cache::{BatchKvCache, KvCache};
use seeker::models::describe::{FloatConstants, Model};
use seeker::models::diffusion_params;
use seeker::models::diffusiongemma::DiffusiongemmaModel;
use seeker::models::gemma4::Gemma4Model;
use seeker::models::gemma4_params;
use seeker::models::llama::LlamaModel;
use seeker::models::llama_params;
use seeker::models::loading::{ModelError, WeightsHandle};
use seeker::models::masks::MaskValues;
use seeker::models::open::{architecture_of, open, AnyModel, Architecture};
use seeker::models::qwen3::{Qwen3Model, Qwen3Params};
use seeker::models::qwen35_params;
use seeker::models::qwen35_weights::{QwenSwitches, Shown};
use seeker::models::qwen35moe::Qwen35MoeModel;
use seeker::models::qwen3_params;
use seeker::models::recorder::{Command, DispatchContext, Op, RecordError, ReplayPlan};
use seeker::models::splice::{image_overlap, prompt_cuts};
use seeker::models::tensor::{Buffer, BufferRange, Dims, GgmlType, TensorView};

fn floats() -> FloatConstants<f32> {
    FloatConstants {
        one: 1.0,
        ten_thousand: 10_000.0,
        million: 1_000_000.0,
        eps_5: 1e-5,
        eps_6: 1e-6,
    }
}

fn mask() -> MaskValues<f32> {
    MaskValues { visible: 0.0, masked: f32::NEG_INFINITY }
}

fn number(n: u32) -> MetadataValue<f32> {
    MetadataValue::U32(n)
}

fn file(arch: &str, metadata: Vec<(&str, MetadataValue<f32>)>) -> GgufFile<f32> {
    let mut all = vec![(
        "general.architecture".to_string(),
        MetadataValue::String(arch.to_string()),
    )];
    for (k, v) in metadata {
        all.push((k.to_string(), v));
    }
    GgufFile { metadata: all, tensors: Vec::new() }
}

fn view(buffer: Buffer, dims: [u64; 4], dtype: GgmlType) -> TensorView {
    let [d0, d1, d2, d3] = dims;
    TensorView {
        buffer,
        byte_offset: 0,
        byte_size: 4 * d0 * d1 * d2 * d3,
        dims: Dims { d0, d1, d2, d3 },
        byte_stride: Dims { d0: 4, d1: 4 * d0, d2: 4 * d0 * d1, d3: 4 * d0 * d1 * d2 },
        element_stride: Dims { d0: 1, d1: d0, d2: d0 * d1, d3: d0 * d1 * d2 },
        dtype,
    }
}

/// Set a model up, adding every tensor that it asks for.
fn complete<M>(make: impl Fn(&WeightsHandle) -> Result<M, ModelError>) -> M {
    let mut handle = WeightsHandle { tensors: Vec::new() };
    loop {
        match make(&handle) {
            Ok(m) => return m,
            Err(ModelError::MissingTensor(name)) => {
                let at = handle.tensors.len() as u64;
                let dtype = if name.contains("exps") { GgmlType::Q6_K } else { GgmlType::F32 };
                handle
                    .tensors
                    .push((name, view(Buffer::Weights(at), [8, 8, 4, 1], dtype)));
            }
            Err(e) => panic!("{}", e.message("")),
        }
    }
}

fn cache(layers: u64) -> KvCache {
    let state = |buffer: Buffer| BufferRange { buffer, offset: 0, size: 4096 };
    KvCache {
        position: 0,
        rope_position_lag: 0,
        k_layers: (0..layers)
            .map(|i| view(Buffer::KeyLayer(i), [4, 32, 2, 1], GgmlType::F32))
            .collect(),
        v_layers: (0..layers)
            .map(|i| view(Buffer::ValueLayer(i), [4, 32, 2, 1], GgmlType::F32))
            .collect(),
        k_dtype: GgmlType::F16,
        v_dtype: GgmlType::F16,
        max_seq_len: 32,
        direct: true,
        ssm_conv_states: (0..layers).map(|i| state(Buffer::ConvState(i))).collect(),
        ssm_gdn_states: (0..layers).map(|i| state(Buffer::GdnState(i))).collect(),
        ssm_gdn_snapshots: Vec::new(),
        ssm_conv_backups: Vec::new(),
        ssm_conv_kernel: 4,
        ssm_conv_channels: 16,
        ssm_max_snapshots: 0,
    }
}

fn slabs(layers: u64, n: usize) -> BatchKvCache {
    let key = |i: u64| view(Buffer::KeySlabs(i), [4, 32, 2, 1], GgmlType::F32);
    let value = |i: u64| view(Buffer::ValueSlabs(i), [4, 32, 2, 1], GgmlType::F32);
    BatchKvCache {
        positions: vec![0; n],
        k_attn: (0..layers).map(key).collect(),
        v_attn: (0..layers).map(value).collect(),
        k_slab: (0..layers).map(key).collect(),
        v_slab: (0..layers).map(value).collect(),
        k_slab_bytes: 1024,
        v_slab_bytes: 1024,
        conv_states: Vec::new(),
        gdn_states: Vec::new(),
        conv_slot_floats: 0,
        gdn_slot_floats: 0,
    }
}

const REGION: u64 = 1 << 20;

fn recording() -> DispatchContext<f32> {
    DispatchContext::new(REGION)
}

fn count(ctx: &DispatchContext<f32>, wanted: impl Fn(&Op<f32>) -> bool) -> usize {
    ctx.commands
        .iter()
        .filter(|c| match c {
            Command::Apply { op, .. } => wanted(op),
            _ => false,
        })
        .count()
}

fn llama_file() -> GgufFile<f32> {
    file(
        "llama",
        vec![
            ("llama.block_count", number(2)),
            ("llama.attention.head_count", number(2)),
            ("llama.embedding_length", number(8)),
            ("llama.feed_forward_length", number(16)),
            ("llama.context_length", number(64)),
            ("llama.vocab_size", number(10)),
        ],
    )
}

fn llama() -> LlamaModel<f32> {
    complete(|h| {
        let p = llama_params::parse_params(&llama_file(), &floats())?.scaled(0.5);
        LlamaModel::new(p, h, mask())
    })
}

#[test]
fn llama_parameters() {
    let p = llama_params::parse_params(&llama_file(), &floats()).unwrap();
    assert_eq!((p.n_layer, p.n_head, p.n_head_kv), (2, 2, 2));
    assert_eq!((p.head_dim(), p.rope_dim), (4, 4));
    assert_eq!(p.rope_freq_base, 10_000.0);
    assert_eq!(p.rms_eps, 1e-5);
    assert_eq!(p.attn_scale, 1.0);
    assert_eq!(p.scaled(0.5).attn_scale, 0.5);
    let e = llama_params::parse_params(&file("llama", vec![]), &floats());
    assert_eq!(
        e.err().map(|e| e.message("")).as_deref(),
        Some("missing required GGUF metadata: llama.block_count")
    );
    let bad = file(
        "llama",
        vec![("llama.block_count", MetadataValue::String("x".to_string()))],
    );
    assert_eq!(
        llama_params::parse_params(&bad, &floats())
            .err()
            .map(|e| e.message("String(\"x\")"))
            .as_deref(),
        Some("invalid metadata value for llama.block_count: expected unsigned int, got String(\"x\")")
    );
}

#[test]
fn missing_tensors_are_named() {
    let p = llama_params::parse_params(&llama_file(), &floats()).unwrap();
    let none = WeightsHandle { tensors: Vec::new() };
    match LlamaModel::new(p, &none, mask()) {
        Err(e) => assert_eq!(e.message(""), "missing required tensor: token_embd.weight"),
        Ok(_) => panic!("expected a failure"),
    }
}

#[test]
fn llama_forward_is_recorded() {
    let m = llama();
    let mut ctx = recording();
    let mut c = cache(2);
    let out = match m.record_forward(&mut ctx, &mut c, &[1, 2, 3], 0, true) {
        Ok(Some(t)) => t,
        _ => panic!("expected logits"),
    };
    assert_eq!(out.dims.d0, 10);
    assert_eq!(c.position, 3);
    assert_eq!(count(&ctx, |op| matches!(op, Op::GetRows { .. })), 1);
    assert_eq!(count(&ctx, |op| matches!(op, Op::RmsNorm { .. })), 5);
    assert_eq!(
        count(&ctx, |op| matches!(op, Op::FlashAttn { kv_len: 3, .. })),
        2
    );
    // Without logits the head is left out.
    let mut ctx = recording();
    assert!(matches!(
        m.record_forward(&mut ctx, &mut c, &[4], 3, false),
        Ok(None)
    ));
    assert_eq!(c.position, 4);
    assert_eq!(count(&ctx, |op| matches!(op, Op::RmsNorm { .. })), 4);
}

#[test]
fn llama_forward_fails_by_cause() {
    let m = llama();
    let mut c = cache(2);
    let mut ctx = recording();
    assert!(matches!(
        m.record_forward(&mut ctx, &mut c, &[], 0, true),
        Err(RecordError::EmptyPrompt)
    ));
    assert!(matches!(
        m.record_forward(&mut ctx, &mut c, &[1], 5, true),
        Err(RecordError::PositionMismatch { cached: 0, given: 5 })
    ));
    let mut small = DispatchContext::new(8);
    assert!(matches!(
        m.record_forward(&mut small, &mut c, &[1], 0, true),
        Err(RecordError::ScratchExhausted)
    ));
    assert_eq!(c.position, 0);
}

#[test]
fn llama_batches_are_recorded() {
    let m = llama();
    let mut ctx = recording();
    let mut b = slabs(2, 3);
    let out = match m.record_forward_batch(&mut ctx, &mut b, &[1, 2], &[0, 4], &[2, 0]) {
        Ok(t) => t,
        Err(_) => panic!("expected logits"),
    };
    assert_eq!((out.dims.d0, out.dims.d1), (10, 2));
    assert_eq!(b.positions, vec![5, 0, 1]);
    assert_eq!(
        count(&ctx, |op| matches!(op, Op::FlashAttnBatched { .. })),
        2
    );
    let mut ctx = recording();
    let out =
        match m.record_forward_unified(&mut ctx, &mut b, &[1, 2, 3], &[1, 5, 6], &[1, 2], &[2, 0]) {
            Ok(t) => t,
            Err(_) => panic!("expected logits"),
        };
    assert_eq!((out.dims.d0, out.dims.d1), (10, 2));
    assert_eq!(b.positions, vec![7, 0, 2]);
    let mut ctx = recording();
    assert!(matches!(
        m.record_forward_batch(&mut ctx, &mut b, &[], &[], &[]),
        Err(RecordError::EmptyBatch)
    ));
    assert!(matches!(
        m.record_forward_batch(&mut ctx, &mut b, &[1], &[0, 1], &[0]),
        Err(RecordError::LengthMismatch)
    ));
    assert!(matches!(
        m.record_forward_unified(&mut ctx, &mut b, &[1, 2], &[0, 1], &[1], &[0]),
        Err(RecordError::LengthSum)
    ));
}

#[test]
fn llama_describes_itself() {
    let m = llama();
    assert_eq!(m.arch(), "llama");
    assert_eq!(m.vocab_size(), 10);
    let d = m.cache_dims();
    assert_eq!((d.n_layer, d.head_dim, d.n_head_kv, d.n_head), (2, 4, 2, 2));
    assert!(m.supports_batch_decode());
    assert!(m.ssm_state_dims().is_none());
}

#[test]
fn params_decoupled_head_dim() {
    let p = Qwen3Params {
        n_layer: 28,
        n_head: 16,
        n_head_kv: 8,
        n_embd: 1024,
        n_ff: 3072,
        n_vocab: 151936,
        n_ctx_train: 32768,
        head_dim: 128,
        rms_eps: 1e-6,
        rope_freq_base: 1e6,
        rope_dim: 128,
        attn_scale: 1.0,
    };
    assert_eq!(p.q_dim(), 2048, "q = n_head*head_dim, NOT n_embd");
    assert_eq!(p.kv_dim(), 1024);
    assert_ne!(
        p.head_dim,
        p.n_embd / p.n_head,
        "head_dim is decoupled (128 != 64)"
    );
}

fn qwen3_file() -> GgufFile<f32> {
    file(
        "qwen3",
        vec![
            ("qwen3.block_count", number(1)),
            ("qwen3.attention.head_count", number(2)),
            ("qwen3.embedding_length", number(8)),
            ("qwen3.feed_forward_length", number(16)),
            ("qwen3.attention.key_length", number(4)),
            ("qwen3.vocab_size", number(10)),
        ],
    )
}

fn qwen3() -> Qwen3Model<f32> {
    complete(|h| {
        let p = qwen3_params::parse_params(&qwen3_file(), &floats())?.scaled(0.5);
        Qwen3Model::new(p, h, mask())
    })
}

#[test]
fn qwen3_forward_is_recorded() {
    let m = qwen3();
    let mut ctx = recording();
    let mut c = cache(1);
    let out = match m.record_forward(&mut ctx, &mut c, &[1, 2], 0, true) {
        Ok(Some(t)) => t,
        _ => panic!("expected logits"),
    };
    assert_eq!(out.dims.d0, 10);
    let mut ctx = recording();
    let full = match m.record_forward_full(&mut ctx, &mut c, &[3, 4], 2, true, true) {
        Ok(f) => f,
        Err(_) => panic!("expected a pass"),
    };
    assert_eq!(full.logits.map(|t| t.dims.d1), Some(2));
    assert_eq!(full.residual.dims.d1, 2);
}

#[test]
fn qwen3_texts_are_packed() {
    let m = qwen3();
    let mut ctx = recording();
    let mut c = cache(1);
    let out = match m.record_forward_embed_batch(&mut ctx, &mut c, &[1, 2, 3], &[2, 1]) {
        Ok(t) => t,
        Err(_) => panic!("expected a pass"),
    };
    assert_eq!((out.dims.d0, out.dims.d1), (8, 3));
    // Every text starts over at position 0.
    assert!(ctx
        .commands
        .iter()
        .any(|c| matches!(c, Command::Words { data, .. } if *data == vec![0, 1, 0])));
    let mut ctx = recording();
    let mut c = cache(1);
    assert!(matches!(
        m.record_forward_embed_batch(&mut ctx, &mut c, &[1, 2, 3], &[2]),
        Err(RecordError::LengthSum)
    ));
    assert!(matches!(
        m.record_forward_embed_batch(&mut ctx, &mut c, &[], &[]),
        Err(RecordError::EmptyBatch)
    ));
}

#[test]
fn qwen3_refuses_empty_heads() {
    let f = file(
        "qwen3",
        vec![
            ("qwen3.block_count", number(1)),
            ("qwen3.attention.head_count", number(0)),
        ],
    );
    assert!(matches!(
        qwen3_params::parse_params(&f, &floats()),
        Err(ModelError::BadMetadata { .. })
    ));
}

fn gemma_entries(prefix: &str) -> Vec<(String, MetadataValue<f32>)> {
    let key = |s: &str| format!("{prefix}.{s}");
    vec![
        (key("block_count"), number(2)),
        (key("attention.head_count"), number(2)),
        (key("embedding_length"), number(8)),
        (key("feed_forward_length"), number(16)),
        (key("attention.sliding_window"), number(4)),
        (key("vocab_size"), number(10)),
        (
            key("attention.sliding_window_pattern"),
            MetadataValue::Array(vec![MetadataValue::Bool(true), MetadataValue::Bool(false)]),
        ),
        (
            key("attention.head_count_kv"),
            MetadataValue::Array(vec![number(2), number(2)]),
        ),
    ]
}

fn gemma_file() -> GgufFile<f32> {
    let mut f = file("gemma4", vec![]);
    f.metadata.extend(gemma_entries("gemma4"));
    f
}

fn gemma() -> Gemma4Model<f32> {
    complete(|h| {
        let p = gemma4_params::parse_params(&gemma_file(), &floats())?;
        Gemma4Model::new(p.scaled(2.5, None, vec![None, Some(0.5)]), h, mask())
    })
}

#[test]
fn gemma4_forward_is_recorded() {
    let m = gemma();
    assert_eq!(m.arch(), "gemma4");
    let mut ctx = recording();
    let mut c = cache(2);
    let out = match m.record_forward(&mut ctx, &mut c, &[1, 2], 0, true) {
        Ok(Some(t)) => t,
        _ => panic!("expected logits"),
    };
    assert_eq!(out.dims.d0, 10);
    // The sliding layer sees four keys, the other one all.
    assert_eq!(
        count(&ctx, |op| matches!(op, Op::FlashAttn { params, .. } if params.swa_window == 4)),
        1
    );
    assert_eq!(
        count(&ctx, |op| matches!(op, Op::FlashAttn { params, .. } if params.swa_window == 0)),
        1
    );
}

#[test]
fn gemma4_image_chunk_is_recorded() {
    let m = gemma();
    let mut ctx = recording();
    let mut c = cache(2);
    // Two image tokens of width 8 stand at 1 and 2.
    let columns = vec![0.25f32; 16];
    let out = m.record_forward_image_chunk(&mut ctx, &mut c, &[1, 0, 0, 2], 0, &columns, 1, 2, 1, true);
    assert!(matches!(out, Ok(Some(_))));
    assert!(ctx
        .commands
        .iter()
        .any(|c| matches!(c, Command::Floats { data, .. } if data.len() == 16)));
    let mut c = cache(2);
    let mut ctx = recording();
    assert!(matches!(
        m.record_forward_image_chunk(&mut ctx, &mut c, &[1], 0, &[0.0], 1, 2, 1, true),
        Err(RecordError::ImageColumns)
    ));
}

fn diffusion_file() -> GgufFile<f32> {
    let mut f = file("diffusion-gemma", vec![]);
    f.metadata.extend(gemma_entries("diffusion-gemma"));
    for (k, n) in [
        ("diffusion-gemma.expert_count", 4),
        ("diffusion-gemma.expert_used_count", 2),
        ("diffusion-gemma.expert_feed_forward_length", 8),
        ("diffusion.canvas_length", 2),
    ] {
        f.metadata.push((k.to_string(), number(n)));
    }
    f
}

#[test]
fn diffusion_pass_is_recorded() {
    let m: DiffusiongemmaModel<f32> = complete(|h| {
        let p = diffusion_params::parse_params(&diffusion_file(), &floats())?;
        assert_eq!(p.canvas_length, 2);
        assert!(!p.has_sc);
        let p = p.scaled(2.5, 0.5, None, vec![1.0, 1.0], vec![1.0, 1.0]);
        DiffusiongemmaModel::new(p, h, mask(), true, 1)
    });
    let mut ctx = recording();
    let out = match m.record_forward_diffusion(&mut ctx, &[1, 2, 3, 4, 5], 3, None) {
        Ok(t) => t,
        Err(_) => panic!("expected logits"),
    };
    // Logits of the canvas alone.
    assert_eq!((out.dims.d0, out.dims.d1), (10, 2));
    assert!(m.record_forward().is_err());
}

#[test]
fn diffusion_needs_a_canvas() {
    let mut f = diffusion_file();
    for (k, v) in f.metadata.iter_mut() {
        if k == "diffusion.canvas_length" {
            *v = number(0);
        }
    }
    assert_eq!(
        diffusion_params::parse_params(&f, &floats())
            .err()
            .map(|e| e.message(""))
            .as_deref(),
        Some("diffusion-gemma requires a positive diffusion.canvas_length")
    );
}

fn qwen35_file() -> GgufFile<f32> {
    file(
        "qwen35moe",
        vec![
            ("qwen35moe.block_count", number(2)),
            ("qwen35moe.full_attention_interval", number(2)),
            ("qwen35moe.embedding_length", number(8)),
            ("qwen35moe.attention.head_count", number(2)),
            (
                "qwen35moe.rope.dimension_sections",
                MetadataValue::Array(vec![number(1), number(1), number(0), number(0)]),
            ),
            ("qwen35moe.expert_count", number(4)),
            ("qwen35moe.expert_used_count", number(2)),
            ("qwen35moe.expert_feed_forward_length", number(8)),
            ("qwen35moe.expert_shared_feed_forward_length", number(8)),
            ("qwen35moe.ssm.state_size", number(4)),
            ("qwen35moe.ssm.conv_kernel", number(4)),
            ("qwen35moe.ssm.group_count", number(1)),
            ("qwen35moe.ssm.time_step_rank", number(2)),
            ("qwen35moe.ssm.inner_size", number(8)),
            ("qwen35moe.vocab_size", number(10)),
        ],
    )
}

#[test]
fn hybrid_forward_is_recorded() {
    let m: Qwen35MoeModel<f32> = complete(|h| {
        let p = qwen35_params::parse_params(&qwen35_file(), h, &floats())?;
        Qwen35MoeModel::new(p.scaled(0.5, 0.5), h, false, mask())
    });
    assert_eq!(m.arch(), "qwen35moe");
    let mut ctx = recording();
    let mut c = cache(2);
    let out = match m.record_forward(&mut ctx, &mut c, &[1, 2], 0, true) {
        Ok(Some(t)) => t,
        Ok(None) => panic!("expected logits"),
        Err(_) => panic!("expected a pass"),
    };
    assert_eq!(out.dims.d0, 10);
    assert_eq!(c.position, 2);
    // One recurrent layer, one with attention.
    assert_eq!(
        count(&ctx, |op| matches!(op, Op::GatedDeltaNet { .. })),
        1
    );
    assert_eq!(count(&ctx, |op| matches!(op, Op::FlashAttn { .. })), 1);
}

#[test]
fn files_open_by_architecture() {
    assert_eq!(architecture_of(&qwen3_file()).unwrap(), Architecture::Qwen3);
    match architecture_of(&file("mamba", vec![])) {
        Err(e) => assert_eq!(e.message(""), "unsupported architecture: mamba"),
        Ok(_) => panic!("expected a failure"),
    }
    let m = complete(|h| open(&llama_file(), h, false, &floats(), mask()));
    assert!(matches!(m, AnyModel::Llama(_)));
}

#[test]
fn vocabulary_can_come_from_the_embedding() {
    let mut f = qwen3_file();
    f.metadata.retain(|(k, _)| k != "qwen3.vocab_size");
    assert!(qwen3_params::parse_params(&f, &floats()).is_err());
    f.tensors.push((
        "token_embd.weight".to_string(),
        TensorInfo {
            dims: Dims { d0: 8, d1: 77, d2: 1, d3: 1 },
            ggml_type: GgmlType::F32,
        },
    ));
    assert_eq!(qwen3_params::parse_params(&f, &floats()).unwrap().n_vocab, 77);
}

#[test]
fn vision_columns_are_placed() {
    // The chunk [2, 6) takes the last columns of the image at [1, 5).
    let s = image_overlap(2, 4, 1, 4).unwrap();
    assert_eq!((s.first, s.count, s.at), (1, 3, 0));
    let s = image_overlap(0, 4, 1, 2).unwrap();
    assert_eq!((s.first, s.count, s.at), (0, 2, 1));
    assert!(image_overlap(5, 4, 1, 4).is_none());
}

#[test]
fn odd_expert_weights_are_refused() {
    let m: Qwen35MoeModel<f32> = complete(|h| {
        let mut typed = WeightsHandle { tensors: Vec::new() };
        for (name, t) in &h.tensors {
            let mut t = *t;
            if name.contains("ffn_gate_exps") {
                t.dtype = GgmlType::F32;
            }
            typed.tensors.push((name.clone(), t));
        }
        let p = qwen35_params::parse_params(&qwen35_file(), &typed, &floats())?;
        Qwen35MoeModel::new(p.scaled(0.5, 0.5), &typed, false, mask())
    });
    let mut c = cache(2);
    assert!(matches!(
        m.record_forward(&mut recording(), &mut c, &[1, 2], 0, true),
        Err(RecordError::ExpertType(GgmlType::F32))
    ));
}

/// A hybrid model of two layers with a draft head in the third block.
fn drafting() -> Qwen35MoeModel<f32> {
    let mut f = qwen35_file();
    for (k, v) in f.metadata.iter_mut() {
        if k == "qwen35moe.block_count" {
            *v = number(3);
        }
    }
    f.metadata
        .push(("qwen35moe.nextn_predict_layers".to_string(), number(1)));
    complete(|h| {
        let mut full = WeightsHandle { tensors: h.tensors.clone() };
        for (at, suffix) in [
            "ffn_gate_inp.weight",
            "ffn_gate_inp_shexp.weight",
            "ffn_gate_exps.weight",
            "ffn_up_exps.weight",
            "ffn_down_exps.weight",
            "ffn_gate_shexp.weight",
            "ffn_up_shexp.weight",
            "ffn_down_shexp.weight",
            "attn_norm.weight",
            "post_attention_norm.weight",
            "attn_q.weight",
            "attn_k.weight",
            "attn_v.weight",
            "attn_output.weight",
            "attn_q_norm.weight",
            "attn_k_norm.weight",
            "nextn.enorm.weight",
            "nextn.hnorm.weight",
            "nextn.eh_proj.weight",
            "nextn.shared_head_norm.weight",
        ]
        .iter()
        .enumerate()
        {
            let dtype = if suffix.contains("exps") { GgmlType::Q6_K } else { GgmlType::F32 };
            let t = view(Buffer::Weights(1000 + at as u64), [8, 8, 4, 1], dtype);
            full.tensors.push((format!("blk.2.{suffix}"), t));
        }
        let p = qwen35_params::parse_params(&f, &full, &floats())?;
        Qwen35MoeModel::new(p.scaled(0.5, 0.5), &full, true, mask())
    })
}

#[test]
fn draft_steps_are_recorded() {
    let m = drafting();
    assert!(m.supports_mtp_spec());
    let c = cache(3);
    let mut ctx = recording();
    let out = match m.record_mtp_draft(&mut ctx, &c, &[0.5; 8], 3, 4) {
        Ok(out) => out,
        Err(_) => panic!("expected a draft"),
    };
    assert_eq!(out.block_out.dims.d0, 8);
    assert_eq!(count(&ctx, |op| matches!(op, Op::Greedy)), 1);
    assert!(matches!(
        m.record_mtp_draft(&mut recording(), &c, &[0.5; 7], 3, 4),
        Err(RecordError::HiddenLength)
    ));

    // Seeding fills the draft layer's cache alone: nothing is picked.
    let mut ctx = recording();
    assert!(m.record_mtp_seed(&mut ctx, &c, &[0.5; 16], &[3, 4], 0).is_ok());
    assert_eq!(count(&ctx, |op| matches!(op, Op::Greedy)), 0);
    assert!(!ctx.commands.is_empty());
    let mut ctx = recording();
    assert!(m.record_mtp_seed(&mut ctx, &c, &[], &[], 0).is_ok());
    assert!(ctx.commands.is_empty());
}

#[test]
fn drafts_need_a_head() {
    let m: Qwen35MoeModel<f32> = complete(|h| {
        let p = qwen35_params::parse_params(&qwen35_file(), h, &floats())?;
        Qwen35MoeModel::new(p.scaled(0.5, 0.5), h, true, mask())
    });
    assert!(!m.supports_mtp_spec());
    assert!(matches!(
        m.record_mtp_draft(&mut recording(), &cache(2), &[0.5; 8], 3, 4),
        Err(RecordError::NoDraftHead)
    ));
}

#[test]
fn rollback_copies_the_accepted_state() {
    let m = drafting();
    let mut c = cache(3);
    let range = |buffer: Buffer, size: u64| BufferRange { buffer, offset: 0, size };
    c.ssm_gdn_snapshots = (0..3).map(|i| range(Buffer::GdnSnapshots(i), 16_384)).collect();
    c.ssm_conv_backups = (0..3).map(|i| range(Buffer::ConvBackup(i), 448)).collect();
    c.ssm_max_snapshots = 4;
    let mut ctx = recording();
    m.record_ssm_finalize(&mut ctx, &c, 1);
    let sources: Vec<(Buffer, u64)> = ctx
        .commands
        .iter()
        .filter_map(|c| match c {
            Command::Apply { args, .. } => Some((args.a.buffer, args.a.byte_offset)),
            _ => None,
        })
        .collect();
    // The second snapshot, and the convolution input from its third row on.
    assert_eq!(
        sources,
        vec![
            (Buffer::GdnSnapshots(0), 4096),
            (Buffer::ConvBackup(0), 8),
            (Buffer::GdnSnapshots(1), 4096),
            (Buffer::ConvBackup(1), 8),
            (Buffer::GdnSnapshots(2), 4096),
            (Buffer::ConvBackup(2), 8),
        ]
    );
}

#[test]
fn replays_need_their_buffers() {
    let mut plan = ReplayPlan {
        token_buf_offset: Some(16),
        positions_buf_offset: Some(64),
        rope_position_lag: 3,
    };
    let w = match qwen35_params::refresh_replay_inputs(&plan, 1, 10) {
        Ok(w) => w,
        Err(e) => panic!("{}", e.message()),
    };
    assert_eq!((w.token_offset, w.positions_offset), (16, 64));
    assert_eq!(w.positions.len(), 4);
    assert_eq!(w.positions[0], 7);
    plan.positions_buf_offset = None;
    match qwen35_params::refresh_replay_inputs(&plan, 1, 10) {
        Err(e) => assert_eq!(e.message(), "replay plan missing positions_buf_offset"),
        Ok(_) => panic!("expected a failure"),
    }
    plan.token_buf_offset = None;
    match qwen35_params::refresh_replay_inputs(&plan, 1, 10) {
        Err(e) => assert_eq!(e.message(), "replay plan missing token_buf_offset"),
        Ok(_) => panic!("expected a failure"),
    }
}

#[test]
fn canvas_can_be_conditioned_on_itself() {
    let mut f = diffusion_file();
    f.tensors.push((
        "self_cond_gate.weight".to_string(),
        TensorInfo {
            dims: Dims { d0: 8, d1: 16, d2: 1, d3: 1 },
            ggml_type: GgmlType::F32,
        },
    ));
    let mut m: DiffusiongemmaModel<f32> = complete(|h| {
        let p = diffusion_params::parse_params(&f, &floats())?;
        assert!(p.has_sc);
        let p = p.scaled(2.5, 0.5, None, vec![1.0, 1.0], vec![1.0, 1.0]);
        DiffusiongemmaModel::new(p, h, mask(), true, 1)
    });
    assert!(matches!(m.diffusion_sc_build_info(), Some((_, 8, 10))));
    let probs = vec![0.1f32; 20];
    let tokens = [1, 2, 3, 4, 5];
    assert!(matches!(
        m.record_forward_diffusion(&mut recording(), &tokens, 3, Some(&probs)),
        Err(RecordError::NoTransposedEmbedding)
    ));
    m.set_diffusion_sc_embt();
    assert!(m
        .record_forward_diffusion(&mut recording(), &tokens, 3, Some(&probs))
        .is_ok());
    assert!(matches!(
        m.record_forward_diffusion(&mut recording(), &tokens, 3, Some(&probs[1..])),
        Err(RecordError::ProbabilityLength)
    ));
}

#[test]
fn columns_are_placed_once_over_chunks() {
    // An image of five columns at token 3, in chunks of four.
    let mut seen = vec![0; 5];
    for chunk in [0usize, 4, 8] {
        if let Some(s) = image_overlap(chunk, 4, 3, 5) {
            for k in 0..s.count {
                assert_eq!(chunk + s.at + k, 3 + s.first + k);
                seen[s.first + k] += 1;
            }
        }
    }
    assert_eq!(seen, vec![1; 5]);
}

#[test]
fn scratch_is_handed_out_in_turn() {
    let mut ctx: DispatchContext<f32> = DispatchContext::new(64);
    assert!(ctx.alloc_matrix(8, 1).is_ok());
    let mark = ctx.scratch_checkpoint();
    let used = ctx.used;
    assert_eq!(used, 32);
    assert!(ctx.alloc_matrix(4, 2).is_ok());
    assert_eq!(ctx.used, 64);
    assert!(matches!(
        ctx.alloc_matrix(1, 1),
        Err(RecordError::ScratchExhausted)
    ));
    ctx.scratch_restore(mark, used);
    assert_eq!(ctx.used, 32);
    assert!(ctx.alloc_matrix(8, 1).is_ok());
}

#[test]
fn layers_take_scratch_one_at_a_time() {
    // Tokens, positions and the hidden state take 40 bytes, and a layer 576.
    let m = llama();
    let mut tight = DispatchContext::new(616);
    assert!(m
        .record_forward(&mut tight, &mut cache(2), &[1], 0, true)
        .is_ok());
    // What the inputs and the head took is still in use.
    assert_eq!(tight.used, 112);
    let mut short = DispatchContext::new(615);
    assert!(matches!(
        m.record_forward(&mut short, &mut cache(2), &[1], 0, true),
        Err(RecordError::ScratchExhausted)
    ));
}

#[test]
fn a_kept_recording_notes_where_its_inputs_lie() {
    let m: Qwen35MoeModel<f32> = complete(|h| {
        let p = qwen35_params::parse_params(&qwen35_file(), h, &floats())?;
        Qwen35MoeModel::new(p.scaled(0.5, 0.5), h, false, mask())
    });
    let mut c = cache(2);
    c.rope_position_lag = 5;
    let mut ctx = recording();
    assert!(ctx.alloc_matrix(4, 1).is_ok());
    ctx.replay = Some(ReplayPlan {
        token_buf_offset: None,
        positions_buf_offset: None,
        rope_position_lag: 0,
    });
    assert!(m.record_forward(&mut ctx, &mut c, &[1, 2], 0, true).is_ok());
    match &ctx.replay {
        Some(plan) => {
            assert_eq!(plan.token_buf_offset, Some(16));
            assert_eq!(plan.positions_buf_offset, Some(24));
            assert_eq!(plan.rope_position_lag, 5);
        }
        None => panic!("expected a plan"),
    }
    let mut ctx = recording();
    assert!(m.record_forward(&mut ctx, &mut c, &[3], 2, true).is_ok());
    assert!(ctx.replay.is_none());
}

#[test]
fn caches_are_held_against_the_model() {
    let m = llama();
    assert!(m.takes_cache(&cache(2)));
    assert!(m.takes_cache(&cache(3)));
    assert!(!m.takes_cache(&cache(1)));
    let mut swapped = cache(2);
    swapped.k_layers.swap(0, 1);
    assert!(!m.takes_cache(&swapped));
    let mut wide = cache(2);
    wide.k_layers[1].byte_stride.d2 = u64::MAX;
    assert!(!m.takes_cache(&wide));
    assert!(m.takes_batch(&slabs(2, 3)));
    assert!(!m.takes_batch(&slabs(1, 3)));
    let mut far = slabs(2, 3);
    far.k_slab_bytes = u64::MAX;
    assert!(!m.takes_batch(&far));
    assert!(qwen3().takes_cache(&cache(1)));
    assert!(!qwen3().takes_cache(&cache(0)));
    assert!(gemma().takes_cache(&cache(2)));
    assert!(!gemma().takes_cache(&cache(1)));
}

#[test]
fn hybrid_caches_need_their_states() {
    let m: Qwen35MoeModel<f32> = complete(|h| {
        let p = qwen35_params::parse_params(&qwen35_file(), h, &floats())?;
        Qwen35MoeModel::new(p.scaled(0.5, 0.5), h, false, mask())
    });
    assert!(m.takes_cache(&cache(2), 2));
    assert!(!m.takes_cache(&cache(2), 3));
    let mut swapped = cache(2);
    swapped.ssm_gdn_states.swap(0, 1);
    assert!(!m.takes_cache(&swapped, 2));
    let mut uneven = cache(2);
    uneven.ssm_conv_states.pop();
    assert!(!m.takes_cache(&uneven, 2));
    let mut b = slabs(2, 3);
    assert!(!m.takes_batch(&b));
    b.conv_states = vec![BufferRange { buffer: Buffer::ConvSlabs(0), offset: 0, size: 4096 }];
    b.gdn_states = vec![BufferRange { buffer: Buffer::GdnSlabs(0), offset: 0, size: 4096 }];
    b.conv_slot_floats = 48;
    assert!(!m.takes_batch(&b));
    b.gdn_slot_floats = 32;
    assert!(m.takes_batch(&b));
}

/// A pass of the hybrid model with these switches over two tokens.
fn switched(switches: QwenSwitches<f32>) -> DispatchContext<f32> {
    let m: Qwen35MoeModel<f32> = complete(|h| {
        let p = qwen35_params::parse_params(&qwen35_file(), h, &floats())?;
        let p = p.scaled(0.5, 0.25).switched(switches);
        Qwen35MoeModel::new(p, h, false, mask())
    });
    let mut ctx = recording();
    assert!(m
        .record_forward(&mut ctx, &mut cache(2), &[1, 2], 0, true)
        .is_ok());
    ctx
}

fn scans(ctx: &DispatchContext<f32>) -> usize {
    count(ctx, |op| matches!(op, Op::GatedDeltaNet { .. }))
}

fn attentions(ctx: &DispatchContext<f32>) -> usize {
    count(ctx, |op| matches!(op, Op::FlashAttn { .. }))
}

fn mixtures(ctx: &DispatchContext<f32>) -> usize {
    count(ctx, |op| matches!(op, Op::MoeResidual { .. }))
}

#[test]
fn diagnostic_runs_leave_halves_out() {
    let off = QwenSwitches::off();
    let ctx = switched(off);
    assert_eq!((scans(&ctx), attentions(&ctx), mixtures(&ctx)), (1, 1, 2));
    let ctx = switched(QwenSwitches { max_layers: Some(1), ..off });
    assert_eq!((scans(&ctx), attentions(&ctx), mixtures(&ctx)), (1, 0, 1));
    let ctx = switched(QwenSwitches { max_layers: Some(9), ..off });
    assert_eq!((scans(&ctx), attentions(&ctx), mixtures(&ctx)), (1, 1, 2));
    let ctx = switched(QwenSwitches { no_attn: true, ..off });
    assert_eq!((scans(&ctx), attentions(&ctx), mixtures(&ctx)), (1, 0, 2));
    let ctx = switched(QwenSwitches { no_ssm: true, ..off });
    assert_eq!((scans(&ctx), attentions(&ctx), mixtures(&ctx)), (0, 1, 2));
    let ctx = switched(QwenSwitches { no_moe: true, ..off });
    assert_eq!((scans(&ctx), attentions(&ctx), mixtures(&ctx)), (1, 1, 0));
    let norms = |ctx: &DispatchContext<f32>| count(ctx, |op| matches!(op, Op::RmsNorm { .. }));
    let ctx = switched(QwenSwitches { only_rms: true, ..off });
    assert_eq!((scans(&ctx), norms(&ctx)), (0, norms(&switched(off))));
}

#[test]
fn diagnostic_runs_change_recurrent_halves() {
    let off = QwenSwitches::off();
    let convolutions = |ctx: &DispatchContext<f32>| {
        count(ctx, |op| matches!(op, Op::SsmConv { .. }))
    };
    assert_eq!(convolutions(&switched(off)), 1);
    assert_eq!(convolutions(&switched(QwenSwitches { no_conv: true, ..off })), 0);
    let scale = |ctx: &DispatchContext<f32>, wanted: f32| {
        count(ctx, |op| matches!(op, Op::GatedDeltaNet { params } if params.scale == wanted))
    };
    assert_eq!(scale(&switched(off), 0.25), 1);
    let one = QwenSwitches { gdn_scale: Some(1.0), ..off };
    assert_eq!((scale(&switched(one), 0.25), scale(&switched(one), 1.0)), (0, 1));
    let casts = |s: QwenSwitches<f32>| count(&switched(s), |op| matches!(op, Op::Cast));
    let sums = |s: QwenSwitches<f32>| count(&switched(s), |op| matches!(op, Op::Add));
    let shown = |s: Shown| QwenSwitches { shown: Some(s), ..off };
    for s in [Shown::Alpha, Shown::Beta, Shown::Qkv, Shown::Conv, Shown::Scan, Shown::Gated] {
        assert_eq!(casts(shown(s)), casts(off) + 1);
        assert_eq!(sums(shown(s)) + 1, sums(off));
    }
    assert_eq!(casts(shown(Shown::Proj)), casts(off) + 1);
    assert_eq!(casts(shown(Shown::Other)), casts(off));
    assert_eq!(sums(shown(Shown::Other)), sums(off));
}

#[test]
fn diagnostic_runs_add_experts_one_by_one() {
    let off = QwenSwitches::off();
    let sums = |s: QwenSwitches<f32>| count(&switched(s), |op| matches!(op, Op::Add));
    let one = QwenSwitches { no_routed: true, ..off };
    let none = QwenSwitches { no_shared: true, ..one };
    assert_eq!(mixtures(&switched(one)), 0);
    // Two layers, each with one part left to add.
    assert_eq!(sums(one), sums(off) + 2);
    assert_eq!(sums(QwenSwitches { no_shared: true, ..off }), sums(off) + 2);
    assert_eq!(sums(none), sums(off));
    // The scratch of the layers stays in use.
    let kept = switched(QwenSwitches { keep_scratch: true, ..off });
    assert!(kept.used > switched(off).used);
}

#[test]
fn prompts_are_cut_into_chunks() {
    assert_eq!(prompt_cuts(7, 3), vec![0, 3, 6, 7]);
    assert_eq!(prompt_cuts(6, 3), vec![0, 3, 6]);
    assert_eq!(prompt_cuts(2, 5), vec![0, 2]);
    assert_eq!(prompt_cuts(2, 0), vec![0, 1, 2]);
    assert_eq!(prompt_cuts(0, 4), vec![0]);
}
