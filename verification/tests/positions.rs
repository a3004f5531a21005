//! Rotary positions of prompts with images.
use seeker::models::mrope::{
    build_decoder_mrope_positions, build_decoder_mrope_positions_window, four_axes, ImageSpan,
};

#[test]
fn windowed_matches_full_for_all_splits() {
    let img = ImageSpan { start: 2, n_tok: 6, nx: 3, ny: 2 };
    let l = 2 + 6 + 3; // leading text + image + trailing text
    let pos0 = 7;
    let full = build_decoder_mrope_positions(l, pos0, &[img]);
    for ws in 0..=l {
        for we in ws..=l {
            let wl = we - ws;
            let win = build_decoder_mrope_positions_window(pos0, Some(img), ws, wl);
            for axis in 0..4 {
                for t in 0..wl {
                    assert_eq!(
                        win[axis * wl + t],
                        full[axis * l + (ws + t)],
                        "mismatch axis {axis} window [{ws},{we}) tok {t}"
                    );
                }
            }
        }
    }
    // Text-only window agrees too.
    let full_t = build_decoder_mrope_positions(l, pos0, &[]);
    let win_t = build_decoder_mrope_positions_window(pos0, None, 3, 4);
    for axis in 0..4 {
        for t in 0..4 {
            assert_eq!(win_t[axis * 4 + t], full_t[axis * l + (3 + t)]);
        }
    }
}

/// The four per-token axis values at a local token index.
fn at(p: &[u32], l: usize, tok: usize) -> (u32, u32, u32, u32) {
    (p[tok], p[l + tok], p[2 * l + tok], p[3 * l + tok])
}

#[test]
fn text_only_is_sequential_on_all_axes() {
    let l = 5;
    let p = build_decoder_mrope_positions(l, 0, &[]);
    for tok in 0..l {
        assert_eq!(at(&p, l, tok), (tok as u32, tok as u32, tok as u32, tok as u32));
    }
    // With a non-zero base offset, everything shifts.
    let p = build_decoder_mrope_positions(3, 100, &[]);
    assert_eq!(at(&p, 3, 0), (100, 100, 100, 100));
    assert_eq!(at(&p, 3, 2), (102, 102, 102, 102));
}

/// 2 text + (nx=3,ny=2) image + 2 text, base 0: image tokens share t=2; y = 2 +
/// k/3; x = 2 + k%3; z = 0; the image advances the cursor by max(3,2)=3, so
/// trailing text is at 5,6.
#[test]
fn single_image_3x2_hand_checked() {
    let l = 2 + 6 + 2;
    let img = ImageSpan { start: 2, n_tok: 6, nx: 3, ny: 2 };
    let p = build_decoder_mrope_positions(l, 0, &[img]);
    // leading text
    assert_eq!(at(&p, l, 0), (0, 0, 0, 0));
    assert_eq!(at(&p, l, 1), (1, 1, 1, 1));
    // image (t,y,x,z)
    assert_eq!(at(&p, l, 2), (2, 2, 2, 0));
    assert_eq!(at(&p, l, 3), (2, 2, 3, 0));
    assert_eq!(at(&p, l, 4), (2, 2, 4, 0));
    assert_eq!(at(&p, l, 5), (2, 3, 2, 0));
    assert_eq!(at(&p, l, 6), (2, 3, 3, 0));
    assert_eq!(at(&p, l, 7), (2, 3, 4, 0));
    // trailing text resumes at base(2) + max(nx,ny)(3) = 5
    assert_eq!(at(&p, l, 8), (5, 5, 5, 5));
    assert_eq!(at(&p, l, 9), (6, 6, 6, 6));
}

/// A tall image (ny>nx) advances by ny; non-zero base offset.
#[test]
fn tall_image_advances_by_ny() {
    let l = 1 + 6 + 1;
    let img = ImageSpan { start: 1, n_tok: 6, nx: 2, ny: 3 };
    let p = build_decoder_mrope_positions(l, 10, &[img]);
    assert_eq!(at(&p, l, 0), (10, 10, 10, 10));
    // image base = 11; k -> y=11+k/2, x=11+k%2, t=11, z=0
    assert_eq!(at(&p, l, 1), (11, 11, 11, 0));
    assert_eq!(at(&p, l, 2), (11, 11, 12, 0));
    assert_eq!(at(&p, l, 3), (11, 12, 11, 0));
    assert_eq!(at(&p, l, 4), (11, 12, 12, 0));
    assert_eq!(at(&p, l, 5), (11, 13, 11, 0));
    assert_eq!(at(&p, l, 6), (11, 13, 12, 0));
    // advance by max(2,3)=3 -> trailing text at 11+3 = 14
    assert_eq!(at(&p, l, 7), (14, 14, 14, 14));
}

/// A merged grid of 6x5 (=30 tokens), preceded by one text token.
#[test]
fn viz_test_geometry_6x5() {
    let l = 1 + 30 + 1;
    let img = ImageSpan { start: 1, n_tok: 30, nx: 6, ny: 5 };
    let p = build_decoder_mrope_positions(l, 0, &[img]);
    assert_eq!(at(&p, l, 0), (0, 0, 0, 0));
    assert_eq!(at(&p, l, 1), (1, 1, 1, 0));
    assert_eq!(at(&p, l, 7), (1, 2, 1, 0));
    assert_eq!(at(&p, l, 30), (1, 5, 6, 0));
    assert_eq!(at(&p, l, 31), (7, 7, 7, 7));
}

#[test]
fn sequential_positions_repeat_on_four_axes() {
    assert_eq!(four_axes(&[4, 5]), vec![4, 5, 4, 5, 4, 5, 4, 5]);
}
