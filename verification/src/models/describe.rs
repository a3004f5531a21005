//! What a model tells its host about itself: sizes, abilities, memory needs.
use vstd::prelude::*;

use crate::models::tensor::GgmlType;
use crate::models::{CacheDims, SsmStateDims};

verus! {

/// Numbers that files may leave out, and the scale that changes nothing.
pub struct FloatConstants<F> {
    /// 1.
    pub one: F,
    /// 10 000.
    pub ten_thousand: F,
    /// 1 000 000.
    pub million: F,
    /// One hundred-thousandth.
    pub eps_5: F,
    /// One millionth.
    pub eps_6: F,
}

/// What a replayed decode command buffer is adjusted by.
#[derive(Clone, Copy, Debug)]
pub struct ModelReplayConstants {
    pub rope_d_offset_per_position: u32,
    pub v_cache_d_offset_per_position: u32,
    pub mrope_axes: u32,
}

/// A model, as its host sees it.
pub trait Model {
    /// Derived sizes are within their types.
    spec fn sized(&self) -> bool;

    /// Bytes of scratch that a pass may need.
    spec fn estimate(
        &self,
        n_ubatch: u32,
        max_seq_len: u32,
        mixed: bool,
        max_batch: u32,
    ) -> int;

    /// The architecture's name.
    fn arch(&self) -> &'static str;

    /// Tokens of the vocabulary.
    fn vocab_size(&self) -> u32;

    /// What a cache is sized by.
    fn cache_dims(&self) -> CacheDims
        requires
            self.sized(),
    ;

    /// Head widths and head counts, layer by layer, where they differ.
    fn cache_per_layer_dims(&self) -> (r: Option<(Vec<u32>, Vec<u32>)>)
        requires
            self.sized(),
        default_ensures
            r is None,
    {
        None
    }

    /// Tokens that each layer's slab holds, where some hold fewer than all.
    fn cache_slab_depths(&self, max_seq_len: u32, n_ubatch: u32) -> (r: Option<Vec<u32>>)
        default_ensures
            r is None,
    {
        None
    }

    /// Sizes of the recurrent state, where there is one.
    fn ssm_state_dims(&self) -> (r: Option<SsmStateDims>)
        requires
            self.sized(),
        default_ensures
            r is None,
    {
        None
    }

    /// What replay is adjusted by, where the model can be replayed.
    fn replay_constants(&self) -> (r: Option<ModelReplayConstants>)
        requires
            self.sized(),
        default_ensures
            r is None,
    {
        None
    }

    /// Whether image tokens have positions in two dimensions.
    fn image_uses_mrope(&self) -> (r: bool)
        default_ensures
            r,
    {
        true
    }

    /// The longest prefill pass that should be submitted at once.
    fn recommended_prefill_ubatch(&self) -> (r: Option<u32>)
        default_ensures
            r is None,
    {
        None
    }

    /// Whether prompts and decoded tokens of several sequences can share a pass.
    fn supports_unified(&self) -> (r: bool)
        default_ensures
            !r,
    {
        false
    }

    /// Whether a token of each of several sequences can be decoded in one pass.
    fn supports_batch_decode(&self) -> (r: bool)
        default_ensures
            !r,
    {
        false
    }

    /// Whether several texts can be embedded in one pass.
    fn supports_embed_batch(&self) -> (r: bool)
        default_ensures
            !r,
    {
        false
    }

    /// Whether a draft head is loaded.
    fn supports_mtp_spec(&self) -> (r: bool)
        default_ensures
            !r,
    {
        false
    }

    /// Tokens that a diffusion model generates per pass.
    fn diffusion_canvas_length(&self) -> (r: Option<u32>)
        default_ensures
            r is None,
    {
        None
    }

    /// Bytes of scratch that a pass may need: one of at most `n_ubatch` tokens,
    /// or of the whole context where that is 0.
    fn scratch_bytes_estimate(
        &self,
        n_ubatch: u32,
        max_seq_len: u32,
        k_dtype: GgmlType,
        v_dtype: GgmlType,
        max_batch: u32,
    ) -> (r: u64)
        requires
            self.sized(),
            self.estimate(n_ubatch, max_seq_len, k_dtype != v_dtype, max_batch) <= u64::MAX,
        ensures
            r == self.estimate(n_ubatch, max_seq_len, k_dtype != v_dtype, max_batch),
    ;
}

/// Bytes of `l` columns of this many floats.
pub open spec fn columns(width: int, l: int) -> int {
    width * l * 4
}

/// Columns take no negative number of bytes.
pub proof fn lemma_columns(width: int, l: int)
    requires
        width >= 0,
        l >= 0,
    ensures
        0 <= width * l <= columns(width, l),
{
    assert(0 <= width * l) by (nonlinear_arith)
        requires
            width >= 0,
            l >= 0,
    ;
}

/// Bytes of `l` columns of this many floats.
pub fn columns_bytes(width: u64, l: u64) -> (r: u64)
    requires
        columns(width as int, l as int) <= u64::MAX,
    ensures
        r == columns(width as int, l as int),
{
    proof {
        lemma_columns(width as int, l as int);
    }
    width * l * 4
}

/// Tokens of the longest pass: those of a chunk, or the whole context where
/// prompts are not cut into chunks.
pub open spec fn pass_tokens(n_ubatch: u32, max_seq_len: u32) -> int {
    if n_ubatch != 0 {
        n_ubatch as int
    } else if max_seq_len != 0 {
        max_seq_len as int
    } else {
        1
    }
}

/// Tokens of the longest pass.
pub fn longest_pass(n_ubatch: u32, max_seq_len: u32) -> (r: u64)
    ensures
        r == pass_tokens(n_ubatch, max_seq_len),
        r >= 1,
{
    if n_ubatch != 0 {
        n_ubatch as u64
    } else if max_seq_len != 0 {
        max_seq_len as u64
    } else {
        1
    }
}

/// Columns of logits: one for each sequence of the widest batch.
pub open spec fn logit_columns(max_batch: u32) -> int {
    if max_batch >= 1 {
        max_batch as int
    } else {
        1
    }
}

/// Keys that one part of a split attention walks.
pub const FA_WALK: u64 = 8192;

/// Parts that attention over a long context is split in.
pub open spec fn split_parts(max_seq_len: u32) -> int {
    (max_seq_len + FA_WALK - 1) / FA_WALK as int
}

/// Bytes of the partial results of split attention.
pub open spec fn partials(head_dim: u32, l: int, n_head: u32, max_seq_len: u32) -> int {
    if max_seq_len > FA_WALK {
        (head_dim + 2) * l * n_head * split_parts(max_seq_len) * 4
    } else {
        0
    }
}

/// Partial results take no negative number of bytes.
pub proof fn lemma_partials(head_dim: u32, l: int, n_head: u32, max_seq_len: u32)
    requires
        0 <= l,
    ensures
        0 <= partials(head_dim, l, n_head, max_seq_len),
{
    let k = split_parts(max_seq_len);
    if max_seq_len > FA_WALK {
        assert(0 <= (head_dim + 2) * l * n_head * k * 4) by (nonlinear_arith)
            requires
                0 <= l,
                k >= 0,
        ;
    }
}

/// Bytes of the partial results of split attention.
pub fn partial_bytes(head_dim: u32, l: u64, n_head: u32, max_seq_len: u32) -> (r: u64)
    requires
        1 <= l <= u32::MAX,
        partials(head_dim, l as int, n_head, max_seq_len) <= u64::MAX,
    ensures
        r == partials(head_dim, l as int, n_head, max_seq_len),
{
    if max_seq_len as u64 > FA_WALK {
        let k: u64 = (max_seq_len as u64 + FA_WALK - 1) / FA_WALK;
        let width: u64 = head_dim as u64 + 2;
        proof {
            assert(0 <= width * l <= u64::MAX) by (nonlinear_arith)
                requires
                    0 <= width <= 0x1_0000_0001,
                    1 <= l <= 0xffff_ffff,
            ;
            let a = width * l;
            assert(0 <= a * n_head <= a * n_head * k <= a * n_head * k * 4) by (nonlinear_arith)
                requires
                    0 <= a,
                    k >= 1,
            ;
        }
        width * l * n_head as u64 * k * 4
    } else {
        0
    }
}

/// An estimate with a third of headroom, and `slack` bytes on top.
pub open spec fn padded(raw: int, slack: int) -> int {
    raw + raw / 3 + slack
}

/// The greater of two numbers.
pub open spec fn greater(a: u32, b: u32) -> u32 {
    if a >= b {
        a
    } else {
        b
    }
}

/// The greater of two numbers.
pub fn greater_of(a: u32, b: u32) -> (r: u32)
    ensures
        r == greater(a, b),
{
    if a >= b {
        a
    } else {
        b
    }
}

/// The greatest number of a list, or `d` where it is empty.
pub open spec fn greatest(v: Seq<u32>, d: u32) -> u32
    decreases v.len(),
{
    if v.len() == 0 {
        d
    } else if v.len() == 1 {
        v[0]
    } else {
        greater(greatest(v.drop_last(), d), v.last())
    }
}

/// The greatest number of a list, or `d` where it is empty.
pub fn greatest_of(v: &Vec<u32>, d: u32) -> (r: u32)
    ensures
        r == greatest(v@, d),
{
    if v.len() == 0 {
        return d;
    }
    let mut best: u32 = v[0];
    let mut i: usize = 1;
    assert(v@.take(1).len() == 1);
    while i < v.len()
        invariant
            1 <= i <= v@.len(),
            best == greatest(v@.take(i as int), d),
        decreases v@.len() - i,
    {
        assert(v@.take(i + 1).drop_last() =~= v@.take(i as int));
        best = greater_of(best, v[i]);
        i += 1;
    }
    assert(v@.take(i as int) =~= v@);
    best
}

} // verus!
