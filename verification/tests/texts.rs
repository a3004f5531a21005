//! Texts, files, benchmarks and runtime switches.
use seeker::base64_text::Base64Error;
use seeker::gguf::{coerce_u32, read_scalar_bits, GgufFile, MetadataValue, ScalarBits};
use seeker::models::tensor::GgmlType;
use seeker::models::qwen35_weights::Shown;
use seeker::runtime_flags::{
    profile_forward, qwen_max_layers, qwen_ssm_dump, qwen_switches, shown_of, switched_off,
    switched_on, QwenVariables,
};
use seeker::server::bench::{
    bench_greedy_cfg, bench_prewarm, bench_slots, bench_synth_prompt, run_limits, same_stream,
    BenchPlan, BenchWorkload,
};
use seeker::text::{decimal_string, hex_string, split_once, strip_prefix};

#[test]
fn numbers_are_spelled() {
    assert_eq!(decimal_string(0), "0");
    assert_eq!(decimal_string(18_446_744_073_709_551_615), "18446744073709551615");
    assert_eq!(hex_string(0xabc, 4), "0abc");
}

#[test]
fn texts_are_parted() {
    assert_eq!(
        split_once("a, b, c", ", "),
        Some(("a".to_string(), "b, c".to_string()))
    );
    assert_eq!(split_once("abc", ", "), None);
    assert_eq!(strip_prefix("data:x", "data:").as_deref(), Some("x"));
    assert_eq!(strip_prefix("x", "data:"), None);
}

#[test]
fn base64_failures_in_words() {
    assert_eq!(
        Base64Error::InvalidByte(1, 64).message(),
        "Invalid symbol 64, offset 1."
    );
    assert_eq!(Base64Error::InvalidPadding.message(), "Invalid padding");
}

#[test]
fn metadata_numbers_are_coerced() {
    assert_eq!(coerce_u32::<f32>(&MetadataValue::U8(7)), Some(7));
    assert_eq!(coerce_u32::<f32>(&MetadataValue::I32(-7)), None);
    assert_eq!(coerce_u32::<f32>(&MetadataValue::Bool(true)), None);
    let f: GgufFile<f32> = GgufFile { metadata: vec![], tensors: vec![] };
    assert_eq!(f.architecture(), None);
}

#[test]
fn scalars_are_little_endian() {
    assert_eq!(
        read_scalar_bits(GgmlType::F32, &1.5f32.to_le_bytes()),
        Some(ScalarBits::Single(1.5f32.to_bits()))
    );
    assert_eq!(
        read_scalar_bits(GgmlType::F16, &[0x00, 0x3c]),
        Some(ScalarBits::Half(0x3c00))
    );
    assert_eq!(read_scalar_bits(GgmlType::F32, &[1, 2]), None);
    assert_eq!(read_scalar_bits(GgmlType::Q4_K, &[0; 8]), None);
}

#[test]
fn synthetic_prompts_share_what_they_should() {
    let base = [10, 11, 12, 13, 14];
    let a = bench_synth_prompt(&base, 8, 0, BenchWorkload::Shared, 4);
    let b = bench_synth_prompt(&base, 8, 1, BenchWorkload::Shared, 4);
    assert_eq!(a[..4], b[..4]);
    assert_eq!(a[..4], [10, 11, 12, 13]);
    assert_ne!(a[4..], b[4..]);
    assert_eq!(bench_prewarm(&base, 4)[..4], a[..4]);
    let c = bench_synth_prompt(&base, 8, 1, BenchWorkload::Distinct, 4);
    assert_eq!(c[0], base[(7 + 1) % 5]);
    assert_eq!(BenchWorkload::Distinct.name(), "distinct");
    assert_eq!(BenchWorkload::Shared.name(), "shared");
}

#[test]
fn benchmark_limits() {
    assert_eq!(bench_slots(&[1, 8, 4]), 8);
    assert_eq!(bench_slots(&[]), 1);
    let plan = BenchPlan {
        batches: vec![2],
        prompt_len: 10,
        gen_len: 5,
        shared_len: 4,
        warmup: 1,
        prompt: String::new(),
        check: false,
        prewarm: false,
    };
    let limits = run_limits(&plan);
    assert_eq!((limits.prompt_len, limits.gen_len, limits.max_tokens), (10, 5, 38));
    let cfg = bench_greedy_cfg(0.0f32, 1.0f32);
    assert_eq!(cfg.temperature, 0.0);
    assert_eq!(cfg.repeat_penalty, 1.0);
    assert!(same_stream(&[1, 2], &[1, 2]));
    assert!(!same_stream(&[1, 2], &[1, 3]));
}

#[test]
fn switches() {
    assert!(switched_off(Some("0")));
    assert!(!switched_off(None));
    assert!(switched_on(Some("1")));
    assert!(!switched_on(Some("yes")));
    assert_eq!(qwen_max_layers(false, Some("3")), None);
    assert_eq!(qwen_max_layers(true, Some("3")), Some(3));
    assert_eq!(qwen_max_layers(true, Some("+4294967295")), Some(u32::MAX));
    assert_eq!(qwen_max_layers(true, Some("4294967296")), None);
    assert_eq!(qwen_max_layers(true, Some("+")), None);
    assert_eq!(qwen_max_layers(true, Some("3 ")), None);
    assert_eq!(qwen_max_layers(true, None), None);
    assert!(profile_forward(true, true));
    assert!(!profile_forward(true, false));
    assert!(!profile_forward(false, true));
    assert_eq!(qwen_ssm_dump(true, Some("conv")), Some("conv"));
    assert_eq!(qwen_ssm_dump(false, Some("conv")), None);
}

#[test]
fn diagnostic_switches() {
    let names = ["alpha", "beta", "qkv", "conv", "gdn_attn", "gated", "proj", "else"];
    let shown: Vec<Shown> = names.iter().map(|n| shown_of(n)).collect();
    assert_eq!(
        shown,
        vec![
            Shown::Alpha,
            Shown::Beta,
            Shown::Qkv,
            Shown::Conv,
            Shown::Scan,
            Shown::Gated,
            Shown::Proj,
            Shown::Other,
        ]
    );
    let v = QwenVariables {
        max_layers: Some("2"),
        diff_dump: true,
        no_attn: true,
        no_ssm: false,
        no_moe: true,
        only_rms: false,
        no_conv: true,
        gdn_scale: Some("one"),
        ssm_dump: Some("beta"),
        no_routed: false,
        no_shared: true,
    };
    let s = qwen_switches(true, v, 1.0f32);
    assert_eq!((s.max_layers, s.gdn_scale, s.shown), (Some(2), Some(1.0), Some(Shown::Beta)));
    assert!(s.keep_scratch && s.no_attn && s.no_moe && s.no_conv && s.no_shared);
    assert!(!s.no_ssm && !s.only_rms && !s.no_routed);
    let s = qwen_switches(true, QwenVariables { gdn_scale: Some("1"), ..v }, 1.0f32);
    assert_eq!(s.gdn_scale, None);
    let s = qwen_switches(false, v, 1.0f32);
    assert_eq!((s.max_layers, s.gdn_scale, s.shown), (None, None, None));
    assert!(!s.keep_scratch && !s.no_attn && !s.no_moe && !s.no_conv && !s.no_shared);
}

#[test]
fn distinct_prompts_part_early() {
    // A passage of seven tokens, and more sequences than it has tokens.
    let base = [1, 2, 3, 4, 5, 6, 7];
    let prompts: Vec<Vec<u32>> = (0..60)
        .map(|s| bench_synth_prompt(&base, 4, s, BenchWorkload::Distinct, 0))
        .collect();
    for (i, a) in prompts.iter().enumerate() {
        for b in &prompts[..i] {
            assert_ne!(a, b);
        }
    }
    assert_eq!(prompts[0], vec![2, 3, 4, 5]);
    assert_eq!(prompts[1], vec![3, 4, 5, 6]);
}
