//! Attention masks.
use seeker::models::masks::{
    block_diagonal_causal_mask, causal_mask, region_mask_values, MaskValues,
};

fn float_mask() -> MaskValues<f32> {
    MaskValues { visible: 0.0, masked: f32::NEG_INFINITY }
}

fn bit_mask() -> MaskValues<u8> {
    MaskValues { visible: 1, masked: 0 }
}

fn visible(m: &[f32], n: usize, q: usize, k: usize) -> bool {
    m[q * n + k] == 0.0
}

#[test]
fn global_mask_prompt_causal_canvas_bidirectional() {
    // P=3 prompt, C=2 canvas, N=5, global layer (large window: no clip).
    let n = 5;
    let m = region_mask_values(3, n as u32, 1024, false, float_mask());
    // Prompt query q=1: causal over prompt only (k=0,1 visible; 2,3,4 not).
    assert!(visible(&m, n, 1, 0) && visible(&m, n, 1, 1));
    assert!(!visible(&m, n, 1, 2) && !visible(&m, n, 1, 3) && !visible(&m, n, 1, 4));
    // Prompt query never sees the canvas.
    assert!(!visible(&m, n, 0, 3) && !visible(&m, n, 2, 4));
    // Canvas query q=4 (global): sees everything (all prompt + all canvas).
    for k in 0..n {
        assert!(visible(&m, n, 4, k), "canvas query should see key {k}");
    }
}

#[test]
fn swa_mask_clips_prompt_window_and_canvas_reach() {
    // P=5 prompt, C=2 canvas, N=7, sliding window n_swa=2.
    let n = 7;
    let m = region_mask_values(5, n as u32, 2, true, float_mask());
    // Prompt query q=4, window 2: only k in (q-2, q] = {3,4} visible.
    assert!(visible(&m, n, 4, 3) && visible(&m, n, 4, 4));
    assert!(!visible(&m, n, 4, 2) && !visible(&m, n, 4, 1));
    // Canvas query q=6 (sliding): sees all canvas (k=5,6) + last n_swa-1=1
    // prompt position (canvas_prompt_lo = 5-2+1 = 4, so k>=4 of the prompt).
    assert!(visible(&m, n, 6, 4) && visible(&m, n, 6, 5) && visible(&m, n, 6, 6));
    assert!(!visible(&m, n, 6, 3) && !visible(&m, n, 6, 0));
}

#[test]
fn causal_mask_is_lower_triangular() {
    assert_eq!(causal_mask(3, bit_mask()), vec![1, 0, 0, 1, 1, 0, 1, 1, 1]);
}

#[test]
fn packed_mask_keeps_sequences_apart() {
    assert_eq!(
        block_diagonal_causal_mask(&[2, 1], bit_mask()),
        vec![1, 0, 0, 1, 1, 0, 0, 0, 1]
    );
}
