//! The Gemma 4 text architecture: sliding-window and global layers with their
//! own head widths, normalized heads, and norms before and after each half.
use vstd::prelude::*;

use crate::models::blocks::{
    attended, cached, cached_bytes, embedded, gated_bytes, gated_ready, head_bytes, holds_tokens,
    lemma_released, mask_value, prologue_bytes, prologue_done, ready, ready_opt, record_cached,
    record_head, record_prologue, sequential, sequential_positions, settled, undisturbed,
    words_term, GatedWeights, LayerCache, Prologue,
};
use crate::models::cache::{has_room, lemma_fewer_tokens, KvCache};
use crate::models::gemma_blocks::{
    capped, gated_normed, gemma_heads_bytes, gemma_k, gemma_q, gemma_v, lemma_columns, over_columns,
    record_gated_normed, record_gemma_heads, record_sandwich_out, record_softcap, sandwich_out,
    GemmaHeadWeights, GemmaHeads, Softcap,
};
use crate::models::llama::{
    cache_buffers, for_attn, layer_untouched, mask_term, Inference, Pass,
};
use crate::models::masks::{causal_mask, causal_values, MaskValues};
use crate::models::recorder::{
    content, fresh, later, op1, op2, op3_opt, quiet, read, reserved, spends, through,
    DispatchContext, Fence, FlashAttnParams, Memory, Op, RecordError, RopeParams, Term,
};
use crate::models::splice::{image_overlap, overlap};
use crate::models::tensor::{
    col_slice, covers, dense, headed, last_column, matrix, one_column, permute_to_attn, size,
    Buffer, TensorView,
};

verus! {

/// Architecture parameters. `F` is the number type of the device constants.
pub struct Gemma4Params<F> {
    pub n_layer: u32,
    pub n_head: u32,
    pub n_embd: u32,
    pub n_ff: u32,
    pub n_vocab: u32,
    pub n_ctx_train: u32,
    pub rms_eps: F,
    /// The square root of the embedding width.
    pub embd_scale: F,
    /// One: the learned head norms take the place of a scale.
    pub attn_scale: F,
    /// Absent where final logits are not bounded.
    pub final_logit_softcap: Option<Softcap<F>>,
    pub sliding_window: u32,
    pub head_dim_swa: u32,
    pub rope_base_swa: F,
    pub head_dim_global: u32,
    pub rope_base_global: F,
    /// Whether a layer is a sliding-window layer.
    pub swa: Vec<bool>,
    pub n_head_kv: Vec<u32>,
    /// Factor on a layer's output; absent where it is one.
    pub layer_output_scale: Vec<Option<F>>,
}

impl<F: Copy> Gemma4Params<F> {
    /// Width of a head of layer `il`.
    pub open spec fn head(&self, il: int) -> u32 {
        if self.swa@[il] {
            self.head_dim_swa
        } else {
            self.head_dim_global
        }
    }

    /// Layer `il` has heads, and its projection widths are 32-bit numbers.
    pub open spec fn layer_wf(&self, il: int) -> bool {
        &&& self.n_head_kv@[il] > 0
        &&& self.n_head * self.head(il) <= u32::MAX
        &&& self.n_head_kv@[il] * self.head(il) <= u32::MAX
    }

    /// Every layer is described.
    pub open spec fn wf(&self, layers: int) -> bool {
        &&& self.n_head > 0
        &&& self.n_embd > 0
        &&& layers <= self.swa@.len()
        &&& self.n_head_kv@.len() == self.swa@.len()
        &&& self.layer_output_scale@.len() == self.swa@.len()
        &&& forall|il: int| 0 <= il < self.swa@.len() ==> #[trigger] self.layer_wf(il)
    }

    /// Sizes of the heads of layer `il`.
    pub open spec fn heads(&self, il: int) -> GemmaHeads {
        GemmaHeads {
            head_dim: self.head(il) as u64,
            n_head: self.n_head as u64,
            n_head_kv: self.n_head_kv@[il] as u64,
            q_dim: (self.n_head * self.head(il)) as u64,
            kv_dim: (self.n_head_kv@[il] * self.head(il)) as u64,
        }
    }

    /// Rotary parameters of layer `il`: every pair of a head is rotated.
    pub open spec fn rope(&self, il: int) -> RopeParams<F> {
        RopeParams {
            dim: self.head(il),
            freq_base: if self.swa@[il] {
                self.rope_base_swa
            } else {
                self.rope_base_global
            },
        }
    }

    /// Attention parameters of layer `il`: sliding layers see the most recent
    /// keys only.
    pub open spec fn attn(&self, il: int) -> FlashAttnParams<F> {
        let ratio = self.n_head / self.n_head_kv@[il];
        FlashAttnParams {
            head_dim_k: self.head(il),
            head_dim_v: self.head(il),
            gqa_ratio: if ratio >= 1 {
                ratio
            } else {
                1
            },
            scale: self.attn_scale,
            swa_window: if self.swa@[il] {
                self.sliding_window
            } else {
                0
            },
        }
    }

    /// Width of a head of layer `il`.
    pub fn head_dim(&self, il: usize) -> (r: u32)
        requires
            il < self.swa@.len(),
        ensures
            r == self.head(il as int),
    {
        if self.swa[il] {
            self.head_dim_swa
        } else {
            self.head_dim_global
        }
    }

    /// Rotary base of layer `il`.
    pub fn rope_base(&self, il: usize) -> (r: F)
        requires
            il < self.swa@.len(),
        ensures
            r == self.rope(il as int).freq_base,
    {
        if self.swa[il] {
            self.rope_base_swa
        } else {
            self.rope_base_global
        }
    }

    /// Width of the query projection of layer `il`.
    pub fn q_dim(&self, il: usize) -> (r: u32)
        requires
            il < self.swa@.len(),
            self.layer_wf(il as int),
        ensures
            r == self.n_head * self.head(il as int),
    {
        self.n_head * self.head_dim(il)
    }

    /// Width of the key projection of layer `il`.
    pub fn kv_dim(&self, il: usize) -> (r: u32)
        requires
            il < self.swa@.len(),
            il < self.n_head_kv@.len(),
            self.layer_wf(il as int),
        ensures
            r == self.n_head_kv@[il as int] * self.head(il as int),
    {
        self.n_head_kv[il] * self.head_dim(il)
    }

    /// Sizes of the heads of layer `il`.
    pub fn layer_heads(&self, il: usize) -> (r: GemmaHeads)
        requires
            self.wf(il as int + 1),
        ensures
            r == self.heads(il as int),
            r.wf(),
    {
        assert(self.layer_wf(il as int));
        let r = GemmaHeads {
            head_dim: self.head_dim(il) as u64,
            n_head: self.n_head as u64,
            n_head_kv: self.n_head_kv[il] as u64,
            q_dim: self.q_dim(il) as u64,
            kv_dim: self.kv_dim(il) as u64,
        };
        assert(r.q_dim == r.head_dim * r.n_head && r.kv_dim == r.head_dim * r.n_head_kv)
            by (nonlinear_arith)
            requires
                r.q_dim == r.n_head * r.head_dim,
                r.kv_dim == r.n_head_kv * r.head_dim,
        ;
        r
    }

    /// Rotary parameters of layer `il`.
    pub fn rope_params(&self, il: usize) -> (r: RopeParams<F>)
        requires
            il < self.swa@.len(),
        ensures
            r == self.rope(il as int),
    {
        RopeParams { dim: self.head_dim(il), freq_base: self.rope_base(il) }
    }

    /// Attention parameters of layer `il`.
    pub fn attn_params(&self, il: usize) -> (r: FlashAttnParams<F>)
        requires
            self.wf(il as int + 1),
        ensures
            r == self.attn(il as int),
    {
        assert(self.layer_wf(il as int));
        let ratio: u32 = self.n_head / self.n_head_kv[il];
        FlashAttnParams {
            head_dim_k: self.head_dim(il),
            head_dim_v: self.head_dim(il),
            gqa_ratio: if ratio >= 1 {
                ratio
            } else {
                1
            },
            scale: self.attn_scale,
            swa_window: if self.swa[il] {
                self.sliding_window
            } else {
                0
            },
        }
    }
}

/// Weights of one layer.
#[derive(Clone, Copy)]
pub struct Gemma4BlockWeights {
    pub attn_norm: TensorView,
    pub wq: TensorView,
    pub wk: TensorView,
    /// Absent on global layers, whose values share the key projection.
    pub wv: Option<TensorView>,
    pub wo: TensorView,
    pub attn_q_norm: TensorView,
    pub attn_k_norm: TensorView,
    pub post_attn_norm: TensorView,
    pub ffn_norm: TensorView,
    pub ffn_gate: TensorView,
    pub ffn_up: TensorView,
    pub ffn_down: TensorView,
    pub post_ffw_norm: TensorView,
}

/// The buffer is one of the model file's, if there is a view.
pub open spec fn opt_weights(t: Option<TensorView>) -> bool {
    t matches Some(v) ==> v.buffer is Weights
}

impl Gemma4BlockWeights {
    /// The weights of the heads, with the layer's frequency factors.
    pub open spec fn heads(&self, freqs: Option<TensorView>) -> GemmaHeadWeights {
        GemmaHeadWeights {
            norm: self.attn_norm,
            wq: self.wq,
            wk: self.wk,
            wv: self.wv,
            q_norm: self.attn_q_norm,
            k_norm: self.attn_k_norm,
            freqs,
        }
    }

    /// The feed-forward weights.
    pub open spec fn gated(&self) -> GatedWeights {
        GatedWeights {
            norm: self.ffn_norm,
            gate: self.ffn_gate,
            up: self.ffn_up,
            down: self.ffn_down,
        }
    }

    /// All weights can be read.
    pub open spec fn ready<F: Copy>(&self, ctx: &DispatchContext<F>) -> bool {
        &&& self.heads(None).ready(ctx)
        &&& ready(ctx, self.wo)
        &&& ready(ctx, self.post_attn_norm)
        &&& gated_ready(ctx, self.gated())
        &&& ready(ctx, self.post_ffw_norm)
    }

    /// No weight lives in scratch or in a cache.
    pub open spec fn apart(&self) -> bool {
        &&& self.attn_norm.buffer is Weights
        &&& self.wq.buffer is Weights
        &&& self.wk.buffer is Weights
        &&& opt_weights(self.wv)
        &&& self.wo.buffer is Weights
        &&& self.attn_q_norm.buffer is Weights
        &&& self.attn_k_norm.buffer is Weights
        &&& self.post_attn_norm.buffer is Weights
        &&& self.ffn_norm.buffer is Weights
        &&& self.ffn_gate.buffer is Weights
        &&& self.ffn_up.buffer is Weights
        &&& self.ffn_down.buffer is Weights
        &&& self.post_ffw_norm.buffer is Weights
    }
}

/// All weights.
pub struct Gemma4Weights {
    pub token_embd: TensorView,
    pub blocks: Vec<Gemma4BlockWeights>,
    pub output_norm: TensorView,
    /// Absent where the head shares the token embedding.
    pub output: Option<TensorView>,
    /// Frequency factors of the global layers.
    pub rope_freqs: Option<TensorView>,
}

/// A model.
pub struct Gemma4Model<F> {
    pub params: Gemma4Params<F>,
    pub weights: Gemma4Weights,
    pub mask: MaskValues<F>,
}

/// The layer's frequency factors: global layers alone have them.
pub open spec fn layer_freqs(swa: bool, freqs: Option<TensorView>) -> Option<TensorView> {
    if swa {
        None
    } else {
        freqs
    }
}

/// The key cache of a layer after the pass.
#[verifier::opaque]
pub open spec fn gemma4_k_cache<F: Copy>(
    m: Memory<F>,
    p: &Gemma4Params<F>,
    b: Gemma4BlockWeights,
    freqs: Option<TensorView>,
    il: int,
    layer: LayerCache,
    x: Term<F>,
    positions: Term<F>,
    pass: Pass,
) -> Term<F> {
    let h = p.heads(il);
    cached(
        m,
        layer.k,
        pass.position,
        fresh(
            gemma_k(
                m,
                p.rms_eps,
                p.rope(il),
                x,
                b.heads(freqs),
                p.n_embd as u64,
                h,
                positions,
                pass.l as u64,
            ),
            headed(h.head_dim, h.n_head_kv, pass.l as u64),
        ),
    )
}

/// The value cache of a layer after the pass.
#[verifier::opaque]
pub open spec fn gemma4_v_cache<F: Copy>(
    m: Memory<F>,
    p: &Gemma4Params<F>,
    b: Gemma4BlockWeights,
    freqs: Option<TensorView>,
    il: int,
    layer: LayerCache,
    x: Term<F>,
    pass: Pass,
) -> Term<F> {
    let h = p.heads(il);
    cached(
        m,
        layer.v,
        pass.position,
        fresh(
            gemma_v(m, p.rms_eps, x, b.heads(freqs), p.n_embd as u64, h, pass.l as u64),
            headed(h.head_dim, h.n_head_kv, pass.l as u64),
        ),
    )
}

/// The hidden state after the attention half of a layer.
pub open spec fn gemma4_attended<F: Copy>(
    m: Memory<F>,
    p: &Gemma4Params<F>,
    b: Gemma4BlockWeights,
    freqs: Option<TensorView>,
    il: int,
    layer: LayerCache,
    h: Term<F>,
    positions: Term<F>,
    mask: Option<Term<F>>,
    pass: Pass,
) -> Term<F> {
    let l = pass.l as u64;
    let hs = p.heads(il);
    let width = p.n_embd as u64;
    let x = fresh(h, matrix(width, l));
    let out = op3_opt(
        Op::FlashAttn { params: p.attn(il), kv_len: pass.total_len },
        for_attn(
            gemma_q(m, p.rms_eps, p.rope(il), x, b.heads(freqs), width, hs, positions, l),
            hs.head_dim,
            hs.n_head,
            l,
        ),
        attended(
            gemma4_k_cache(m, p, b, freqs, il, layer, x, positions, pass),
            layer.k,
            hs.head_dim,
            hs.n_head_kv,
            pass.total_len as u64,
            pass.direct,
        ),
        attended(
            gemma4_v_cache(m, p, b, freqs, il, layer, x, pass),
            layer.v,
            hs.head_dim,
            hs.n_head_kv,
            pass.total_len as u64,
            pass.direct,
        ),
        mask,
    );
    sandwich_out(
        m,
        p.rms_eps,
        x,
        fresh(out, matrix(hs.q_dim, l)),
        b.wo,
        b.post_attn_norm,
        width,
        l,
    )
}

/// A value times a factor, where there is one.
pub open spec fn scaled<F>(h: Term<F>, by: Option<F>, width: u64, l: u64) -> Term<F> {
    match by {
        Some(s) => op1(Op::Scale { by: s }, fresh(h, matrix(width, l))),
        None => h,
    }
}

/// The hidden state after a layer.
#[verifier::opaque]
pub open spec fn gemma4_layer<F: Copy>(
    m: Memory<F>,
    p: &Gemma4Params<F>,
    b: Gemma4BlockWeights,
    freqs: Option<TensorView>,
    il: int,
    layer: LayerCache,
    h: Term<F>,
    positions: Term<F>,
    mask: Option<Term<F>>,
    pass: Pass,
) -> Term<F> {
    let l = pass.l as u64;
    let width = p.n_embd as u64;
    let mid = fresh(
        gemma4_attended(m, p, b, freqs, il, layer, h, positions, mask, pass),
        matrix(width, l),
    );
    scaled(
        op2(
            Op::Add,
            mid,
            gated_normed(
                m,
                p.rms_eps,
                mid,
                b.gated(),
                b.post_ffw_norm,
                width,
                p.n_ff as u64,
                l,
            ),
        ),
        p.layer_output_scale@[il],
        width,
        l,
    )
}

/// Scratch that a layer takes.
pub open spec fn gemma4_layer_bytes<F: Copy>(
    p: &Gemma4Params<F>,
    b: Gemma4BlockWeights,
    il: int,
    pass: Pass,
) -> nat {
    let h = p.heads(il);
    let l = pass.l as u64;
    let width = p.n_embd as u64;
    gemma_heads_bytes(b.wv is Some, width, h, l) + cached_bytes(
        h.head_dim,
        h.head_dim,
        h.n_head_kv,
        pass.total_len as u64,
        pass.direct,
    ) + size(matrix(h.q_dim, l)) + 3 * size(matrix(width, l)) + gated_bytes(
        width,
        p.n_ff as u64,
        l,
    )
}

/// Record a layer.
#[verifier::rlimit(30)]
pub fn record_layer<F: Copy>(
    ctx: &mut DispatchContext<F>,
    p: &Gemma4Params<F>,
    b: &Gemma4BlockWeights,
    freqs: Option<TensorView>,
    il: usize,
    layer: LayerCache,
    residual: TensorView,
    positions: TensorView,
    mask: Option<TensorView>,
    pass: Pass,
) -> (r: Result<(), RecordError>)
    requires
        p.wf(il as int + 1),
        pass.l >= 1,
        pass.total_len >= 1,
        quiet(old(ctx).memory()),
        residual == dense(residual.buffer, matrix(p.n_embd as u64, pass.l as u64)),
        covers(residual),
        ready(old(ctx), residual),
        ready(old(ctx), positions),
        positions.buffer is Scratch,
        positions.buffer != residual.buffer,
        ready_opt(old(ctx), mask),
        mask matches Some(t) ==> t.buffer is Scratch && t.buffer != residual.buffer,
        b.ready(old(ctx)),
        b.apart(),
        ready_opt(old(ctx), freqs),
        opt_weights(freqs),
        !(layer.k.buffer is Scratch) && !(layer.k.buffer is Weights),
        !(layer.v.buffer is Scratch) && !(layer.v.buffer is Weights),
        layer.k.buffer != layer.v.buffer,
        holds_tokens(
            layer.k,
            p.heads(il as int).head_dim,
            p.heads(il as int).n_head_kv,
            pass.total_len as u64,
        ),
        holds_tokens(
            layer.v,
            p.heads(il as int).head_dim,
            p.heads(il as int).n_head_kv,
            pass.total_len as u64,
        ),
    ensures
        final(ctx).region == old(ctx).region,
        final(ctx).replay == old(ctx).replay,
        final(ctx).at() >= old(ctx).at(),
        r matches Err(e) ==> e is ScratchExhausted,
        spends(old(ctx), final(ctx), r is Ok, gemma4_layer_bytes(p, *b, il as int, pass)),
        r is Ok ==> {
            let m = old(ctx).memory();
            let x = read(m, residual);
            &&& ready(final(ctx), residual)
            &&& content(final(ctx).memory(), residual.buffer) == gemma4_layer(
                m,
                p,
                *b,
                freqs,
                il as int,
                layer,
                content(m, residual.buffer),
                read(m, positions),
                mask_term(m, mask),
                pass,
            )
            &&& content(final(ctx).memory(), layer.k.buffer) == gemma4_k_cache(
                m,
                p,
                *b,
                freqs,
                il as int,
                layer,
                x,
                read(m, positions),
                pass,
            )
            &&& content(final(ctx).memory(), layer.v.buffer) == gemma4_v_cache(
                m,
                p,
                *b,
                freqs,
                il as int,
                layer,
                x,
                pass,
            )
            &&& quiet(final(ctx).memory())
            &&& undisturbed(
                m,
                final(ctx).memory(),
                old(ctx).at(),
                set![residual.buffer, layer.k.buffer, layer.v.buffer],
            )
        },
{
    proof {
        reveal(gemma4_k_cache);
        reveal(gemma4_v_cache);
        reveal(gemma4_layer);
    }
    let width: u64 = p.n_embd as u64;
    let h = p.layer_heads(il);
    let l: u64 = pass.l as u64;
    let eps = p.rms_eps;
    let ghost m0 = ctx.memory();
    let ghost changed = set![residual.buffer, layer.k.buffer, layer.v.buffer];
    let w = GemmaHeadWeights {
        norm: b.attn_norm,
        wq: b.wq,
        wk: b.wk,
        wv: b.wv,
        q_norm: b.attn_q_norm,
        k_norm: b.attn_k_norm,
        freqs,
    };
    let rope = p.rope_params(il);
    let (q_roped, k_roped, v_normed) = record_gemma_heads(
        ctx,
        eps,
        rope,
        residual,
        w,
        width,
        h,
        positions,
        l,
    )?;
    let ghost m1 = ctx.memory();
    let gw = GatedWeights {
        norm: b.ffn_norm,
        gate: b.ffn_gate,
        up: b.ffn_up,
        down: b.ffn_down,
    };
    assert(ready(ctx, residual) && ready_opt(ctx, mask));
    assert(content(m1, layer.k.buffer) == content(m0, layer.k.buffer));
    assert(content(m1, layer.v.buffer) == content(m0, layer.v.buffer));
    let (k_src, v_src) = record_cached(
        ctx,
        k_roped,
        v_normed,
        layer,
        pass.position,
        pass.total_len,
        h.head_dim,
        h.head_dim,
        h.n_head_kv,
        pass.direct,
    )?;
    let ghost m2 = ctx.memory();
    proof {
        assert(ready(ctx, q_roped) && ready(ctx, residual) && ready_opt(ctx, mask));
        crate::models::blocks::lemma_heads_within(h.head_dim, h.n_head, h.q_dim, l, ctx.region);
    }
    let q_perm = permute_to_attn(q_roped, h.head_dim, l, h.n_head);
    let out = ctx.alloc_matrix(h.q_dim, l)?;
    ctx.apply3_opt(
        Op::FlashAttn { params: p.attn_params(il), kv_len: pass.total_len },
        q_perm,
        k_src,
        v_src,
        mask,
        out,
        Fence::Own,
    );
    let ghost m3 = ctx.memory();
    proof {
        assert forall|x: Buffer| !later(x, old(ctx).at()) && !changed.contains(x) implies content(
            m3,
            x,
        ) == content(m0, x) && (reserved(m0, x) ==> reserved(m3, x)) by {
            assert(content(m1, x) == content(m0, x));
            assert(content(m2, x) == content(m1, x));
        }
        assert(undisturbed(m0, m3, old(ctx).at(), changed));
        assert(ready(ctx, b.wo) && ready(ctx, b.post_attn_norm));
    }
    record_sandwich_out(ctx, eps, residual, out, b.wo, b.post_attn_norm, width, l)?;
    let ghost m4 = ctx.memory();
    proof {
        assert(content(m4, layer.k.buffer) == content(m3, layer.k.buffer));
        assert(content(m4, layer.v.buffer) == content(m3, layer.v.buffer));
        assert forall|x: Buffer| !later(x, old(ctx).at()) && !changed.contains(x) implies content(
            m4,
            x,
        ) == content(m0, x) && (reserved(m0, x) ==> reserved(m4, x)) by {
            assert(content(m3, x) == content(m0, x));
        }
        assert(undisturbed(m0, m4, old(ctx).at(), changed));
        assert(gated_ready(ctx, gw) && ready(ctx, b.post_ffw_norm) && ready(ctx, residual));
    }
    let ffn = record_gated_normed(
        ctx,
        eps,
        residual,
        gw,
        b.post_ffw_norm,
        width,
        p.n_ff as u64,
        l,
    )?;
    let ghost m5 = ctx.memory();
    assert(ready(ctx, residual));
    ctx.apply2(Op::Add, residual, ffn, residual, Fence::Own);
    match p.layer_output_scale[il] {
        Some(by) => {
            ctx.apply1(Op::Scale { by }, residual, residual, Fence::Own);
        },
        None => {},
    }
    proof {
        let m6 = ctx.memory();
        assert(content(m5, layer.k.buffer) == content(m4, layer.k.buffer));
        assert(content(m5, layer.v.buffer) == content(m4, layer.v.buffer));
        assert forall|x: Buffer| !later(x, old(ctx).at()) && !changed.contains(x) implies content(
            m6,
            x,
        ) == content(m0, x) && (reserved(m0, x) ==> reserved(m6, x)) by {
            assert(content(m4, x) == content(m0, x));
            assert(content(m5, x) == content(m4, x));
        }
    }
    Ok(())
}

/// A view's buffer holds the same in both memories, if there is one.
pub open spec fn same_opt<F>(a: Memory<F>, c: Memory<F>, t: Option<TensorView>) -> bool {
    t matches Some(v) ==> content(a, v.buffer) == content(c, v.buffer)
}

/// A layer's weights and cache hold the same in both memories.
pub open spec fn same_layer_inputs<F>(
    a: Memory<F>,
    c: Memory<F>,
    b: Gemma4BlockWeights,
    freqs: Option<TensorView>,
    layer: LayerCache,
) -> bool {
    &&& content(a, b.attn_norm.buffer) == content(c, b.attn_norm.buffer)
    &&& content(a, b.wq.buffer) == content(c, b.wq.buffer)
    &&& content(a, b.wk.buffer) == content(c, b.wk.buffer)
    &&& same_opt(a, c, b.wv)
    &&& content(a, b.wo.buffer) == content(c, b.wo.buffer)
    &&& content(a, b.attn_q_norm.buffer) == content(c, b.attn_q_norm.buffer)
    &&& content(a, b.attn_k_norm.buffer) == content(c, b.attn_k_norm.buffer)
    &&& content(a, b.post_attn_norm.buffer) == content(c, b.post_attn_norm.buffer)
    &&& content(a, b.ffn_norm.buffer) == content(c, b.ffn_norm.buffer)
    &&& content(a, b.ffn_gate.buffer) == content(c, b.ffn_gate.buffer)
    &&& content(a, b.ffn_up.buffer) == content(c, b.ffn_up.buffer)
    &&& content(a, b.ffn_down.buffer) == content(c, b.ffn_down.buffer)
    &&& content(a, b.post_ffw_norm.buffer) == content(c, b.post_ffw_norm.buffer)
    &&& same_opt(a, c, freqs)
    &&& content(a, layer.k.buffer) == content(c, layer.k.buffer)
    &&& content(a, layer.v.buffer) == content(c, layer.v.buffer)
}

/// What a layer does depends on memory through its weights and cache alone.
proof fn lemma_same_layer<F: Copy>(
    a: Memory<F>,
    c: Memory<F>,
    p: &Gemma4Params<F>,
    b: Gemma4BlockWeights,
    freqs: Option<TensorView>,
    il: int,
    layer: LayerCache,
    h: Term<F>,
    positions: Term<F>,
    mask: Option<Term<F>>,
    pass: Pass,
)
    requires
        same_layer_inputs(a, c, b, freqs, layer),
    ensures
        gemma4_layer(a, p, b, freqs, il, layer, h, positions, mask, pass) == gemma4_layer(
            c,
            p,
            b,
            freqs,
            il,
            layer,
            h,
            positions,
            mask,
            pass,
        ),
        forall|x: Term<F>|
            gemma4_k_cache(a, p, b, freqs, il, layer, x, positions, pass)
                == #[trigger] gemma4_k_cache(c, p, b, freqs, il, layer, x, positions, pass),
        forall|x: Term<F>|
            gemma4_v_cache(a, p, b, freqs, il, layer, x, pass) == #[trigger] gemma4_v_cache(
                c,
                p,
                b,
                freqs,
                il,
                layer,
                x,
                pass,
            ),
{
    reveal(gemma4_k_cache);
    reveal(gemma4_v_cache);
    reveal(gemma4_layer);
}

/// Image columns that overwrite a stretch of the hidden state.
pub struct Columns<F> {
    pub data: Seq<F>,
    pub at: int,
    pub count: int,
}

/// The hidden state with image columns in place.
pub open spec fn spliced<F>(h: Term<F>, c: Option<Columns<F>>, width: u64, l: u64) -> Term<F> {
    match c {
        None => h,
        Some(cols) => {
            let value = op1(
                Op::Copy,
                fresh(Term::Floats(cols.data), matrix(cols.data.len() as u64, 1)),
            );
            over_columns(h, width, l, cols.at, cols.count, value)
        },
    }
}

/// Record image columns over the hidden state from column `at` on.
pub fn record_splice<F: Copy>(
    ctx: &mut DispatchContext<F>,
    residual: TensorView,
    data: &[F],
    at: usize,
    count: usize,
    width: u64,
    l: u64,
) -> (r: Result<(), RecordError>)
    requires
        quiet(old(ctx).memory()),
        width >= 1,
        residual == dense(residual.buffer, matrix(width, l)),
        residual.buffer matches Buffer::Scratch { id: _, bytes } && bytes == 4 * width * l,
        4 * width * l <= u64::MAX,
        ready(old(ctx), residual),
        count >= 1,
        at + count <= l,
        data@.len() == count * width,
    ensures
        final(ctx).region == old(ctx).region,
        final(ctx).replay == old(ctx).replay,
        final(ctx).at() >= old(ctx).at(),
        r matches Err(e) ==> e is ScratchExhausted,
        spends(old(ctx), final(ctx), r is Ok, size(matrix(data@.len() as u64, 1))),
        r is Ok ==> {
            let m = old(ctx).memory();
            &&& content(final(ctx).memory(), residual.buffer) == spliced(
                content(m, residual.buffer),
                Some(Columns { data: data@, at: at as int, count: count as int }),
                width,
                l,
            )
            &&& quiet(final(ctx).memory())
            &&& undisturbed(m, final(ctx).memory(), old(ctx).at(), set![residual.buffer])
        },
{
    let src = ctx.alloc_matrix(data.len() as u64, 1)?;
    ctx.write_f32(src, data);
    ctx.barrier_all();
    proof {
        assert(4 * width * l * 1 * 1 == 4 * width * l);
        lemma_columns(residual, width, l, at as int, count as int);
    }
    let dst = col_slice(residual, at as u64, count as u64);
    ctx.copy_part(src, dst);
    ctx.barrier_all();
    Ok(())
}

/// The image columns that a pass is given.
pub open spec fn given<F>(splice: Option<(&[F], usize, usize)>) -> Option<Columns<F>> {
    match splice {
        Some((data, at, count)) => Some(
            Columns { data: data@, at: at as int, count: count as int },
        ),
        None => None,
    }
}

/// Scratch that the inputs of a pass take.
pub open spec fn gemma_inputs_bytes<F>(
    l: u64,
    positions: u64,
    masked: bool,
    width: u64,
    image: Option<Columns<F>>,
) -> nat {
    prologue_bytes(l, positions, masked, width) + match image {
        Some(c) => size(matrix(c.data.len() as u64, 1)),
        None => 0,
    }
}

/// Record the inputs of a pass: the scaled embeddings, with image columns in
/// place where there are any.
pub fn record_inputs<F: Copy>(
    ctx: &mut DispatchContext<F>,
    tokens: &[u32],
    positions: &[u32],
    mask: Option<&[F]>,
    token_embd: TensorView,
    width: u64,
    embd_scale: F,
    image_splice: Option<(&[F], usize, usize)>,
) -> (r: Result<Prologue, RecordError>)
    requires
        1 <= tokens@.len() <= u32::MAX,
        width >= 1,
        quiet(old(ctx).memory()),
        ready(old(ctx), token_embd),
        image_splice matches Some((data, at, count)) ==> count >= 1 && at + count <= tokens@.len()
            && data@.len() == count * width,
    ensures
        final(ctx).region == old(ctx).region,
        final(ctx).replay == old(ctx).replay,
        final(ctx).at() >= old(ctx).at(),
        r matches Err(e) ==> e is ScratchExhausted,
        spends(
            old(ctx),
            final(ctx),
            r is Ok,
            gemma_inputs_bytes(
                tokens@.len() as u64,
                positions@.len() as u64,
                mask is Some,
                width,
                given(image_splice),
            ),
        ),
        r is Ok ==> 4 * width * (tokens@.len() as u64) <= old(ctx).region,
        r matches Ok(pro) ==> {
            let l = tokens@.len() as u64;
            &&& prologue_done(
                final(ctx),
                old(ctx).at(),
                pro,
                width,
                l,
                positions@,
                match mask {
                    Some(d) => Some(d@),
                    None => None,
                },
                spliced(
                    scaled(
                        embedded(old(ctx).memory(), token_embd, tokens@),
                        Some(embd_scale),
                        width,
                        l,
                    ),
                    given(image_splice),
                    width,
                    l,
                ),
            )
            &&& quiet(final(ctx).memory())
            &&& undisturbed(
                old(ctx).memory(),
                final(ctx).memory(),
                old(ctx).at(),
                Set::empty(),
            )
        },
{
    let ghost m0 = ctx.memory();
    let ghost at0 = ctx.at();
    let l: u64 = tokens.len() as u64;
    let pro = record_prologue(ctx, tokens, positions, mask, token_embd, width)?;
    let ghost m_pro = ctx.memory();
    ctx.apply1(Op::Scale { by: embd_scale }, pro.residual, pro.residual, Fence::Own);
    let ghost m_scaled = ctx.memory();
    proof {
        assert(content(m_scaled, pro.positions.buffer) == content(m_pro, pro.positions.buffer));
        assert(ready_opt(ctx, pro.mask) && ready(ctx, pro.positions));
        assert(4 * width * l * 1 * 1 == 4 * width * l);
        assert(pro.residual.buffer matches Buffer::Scratch { id: _, bytes } && bytes == 4 * width
            * l);
    }
    match image_splice {
        Some((data, at, count)) => {
            record_splice(ctx, pro.residual, data, at, count, width, l)?;
        },
        None => {},
    }
    proof {
        let m = ctx.memory();
        assert(ready(ctx, pro.residual) && ready(ctx, pro.positions) && ready_opt(ctx, pro.mask));
        assert(content(m, pro.positions.buffer) == content(m_pro, pro.positions.buffer));
        assert forall|x: Buffer| !later(x, at0) implies content(m, x) == content(m0, x) && (
        reserved(m0, x) ==> reserved(m, x)) by {
            assert(content(m_pro, x) == content(m0, x));
            assert(content(m_scaled, x) == content(m_pro, x));
        }
    }
    Ok(pro)
}

/// Everything that decides what a pass computes.
pub struct Gemma4Input<F> {
    pub inf: Inference<F>,
    pub image: Option<Columns<F>>,
}

impl<F: Copy> Gemma4Model<F> {
    /// The frequency factors of layer `i`.
    pub open spec fn freqs(&self, i: int) -> Option<TensorView> {
        layer_freqs(self.params.swa@[i], self.weights.rope_freqs)
    }

    /// The hidden state after the first `n` layers. Text embeddings are scaled;
    /// image columns take their places unscaled.
    pub open spec fn hidden(
        &self,
        m: Memory<F>,
        cache: &KvCache,
        inp: Gemma4Input<F>,
        n: int,
    ) -> Term<F>
        decreases n,
    {
        let width = self.params.n_embd as u64;
        let l = inp.inf.pass.l as u64;
        if n <= 0 {
            spliced(
                scaled(
                    embedded(m, self.weights.token_embd, inp.inf.tokens),
                    Some(self.params.embd_scale),
                    width,
                    l,
                ),
                inp.image,
                width,
                l,
            )
        } else {
            gemma4_layer(
                m,
                &self.params,
                self.weights.blocks@[n - 1],
                self.freqs(n - 1),
                n - 1,
                cache.layer(n - 1),
                self.hidden(m, cache, inp, n - 1),
                words_term(inp.inf.positions),
                mask_value(inp.inf.mask, l),
                inp.inf.pass,
            )
        }
    }

    /// Layer `i` of the cache holds what the pass leaves there.
    pub open spec fn layer_cached(
        &self,
        m: Memory<F>,
        after: Memory<F>,
        cache: &KvCache,
        inp: Gemma4Input<F>,
        i: int,
    ) -> bool {
        let x = fresh(
            self.hidden(m, cache, inp, i),
            matrix(self.params.n_embd as u64, inp.inf.pass.l as u64),
        );
        &&& content(after, cache.layer(i).k.buffer) == gemma4_k_cache(
            m,
            &self.params,
            self.weights.blocks@[i],
            self.freqs(i),
            i,
            cache.layer(i),
            x,
            words_term(inp.inf.positions),
            inp.inf.pass,
        )
        &&& content(after, cache.layer(i).v.buffer) == gemma4_v_cache(
            m,
            &self.params,
            self.weights.blocks@[i],
            self.freqs(i),
            i,
            cache.layer(i),
            x,
            inp.inf.pass,
        )
    }

    /// All weights can be read, and none lives in scratch or in a cache.
    pub open spec fn ready(&self, ctx: &DispatchContext<F>) -> bool {
        &&& self.params.wf(self.weights.blocks@.len() as int)
        &&& ready_opt(ctx, self.weights.rope_freqs) && opt_weights(self.weights.rope_freqs)
        &&& ready(ctx, self.weights.token_embd) && self.weights.token_embd.buffer is Weights
        &&& ready(ctx, self.weights.output_norm) && self.weights.output_norm.buffer is Weights
        &&& self.weights.output matches Some(t) ==> ready(ctx, t) && t.buffer is Weights
        &&& forall|i: int|
            0 <= i < self.weights.blocks@.len() ==> (#[trigger] self.weights.blocks@[i]).ready(ctx)
                && self.weights.blocks@[i].apart()
    }

    /// The output head.
    pub open spec fn head(&self) -> TensorView {
        match self.weights.output {
            Some(t) => t,
            None => self.weights.token_embd,
        }
    }

    /// A pass over one sequence.
    pub open spec fn input(
        &self,
        cache: &KvCache,
        tokens: Seq<u32>,
        position: u32,
        image: Option<Columns<F>>,
    ) -> Gemma4Input<F> {
        let l = tokens.len();
        Gemma4Input {
            inf: Inference {
                tokens,
                positions: sequential(position as int, l),
                mask: if l > 1 {
                    Some(causal_values(self.mask, l as int))
                } else {
                    None
                },
                pass: Pass {
                    l: l as u32,
                    position,
                    total_len: (position + l) as u32,
                    direct: cache.direct,
                },
            },
            image,
        }
    }

    /// Bytes in use after the inputs of a pass, where `used` were before.
    pub open spec fn inputs_end(&self, inp: Gemma4Input<F>, used: u64) -> nat {
        let l = inp.inf.pass.l as u64;
        used as nat + gemma_inputs_bytes(l, l, l > 1, self.params.n_embd as u64, inp.image)
    }

    /// Bytes in use after a pass, where `used` were before.
    pub open spec fn pass_end(&self, inp: Gemma4Input<F>, compute_logits: bool, used: u64) -> nat {
        self.inputs_end(inp, used) + if compute_logits {
            head_bytes(self.params.n_embd as u64, self.params.n_vocab as u64, 1)
        } else {
            0
        }
    }

    /// A pass fits what `used` bytes leave of the region: its inputs, and behind
    /// them each layer, then the head, one at a time.
    pub open spec fn fits(
        &self,
        inp: Gemma4Input<F>,
        compute_logits: bool,
        used: u64,
        room: u64,
    ) -> bool {
        let end = self.inputs_end(inp, used);
        &&& end <= room
        &&& forall|i: int|
            0 <= i < self.weights.blocks@.len() ==> end + gemma4_layer_bytes(
                &self.params,
                #[trigger] self.weights.blocks@[i],
                i,
                inp.inf.pass,
            ) <= room
        &&& self.pass_end(inp, compute_logits, used) <= room
    }

    /// The logits of a pass: the head over the last token's hidden state,
    /// bounded.
    pub open spec fn logits(&self, m: Memory<F>, cache: &KvCache, inp: Gemma4Input<F>) -> Term<F> {
        let width = self.params.n_embd as u64;
        let vocab = self.params.n_vocab as u64;
        let x = through(
            self.hidden(m, cache, inp, self.weights.blocks@.len() as int),
            one_column(
                dense(Buffer::Scratch { id: 0, bytes: 0 }, matrix(width, inp.inf.pass.l as u64)),
                width,
                inp.inf.pass.l - 1,
            ),
        );
        fresh(
            capped(
                self.params.final_logit_softcap,
                op2(
                    Op::MatMul,
                    read(m, self.head()),
                    fresh(
                        op2(
                            Op::RmsNorm { eps: self.params.rms_eps },
                            x,
                            read(m, self.weights.output_norm),
                        ),
                        matrix(width, 1),
                    ),
                ),
                vocab,
                1,
            ),
            matrix(vocab, 1),
        )
    }

    /// The cache has a layer, with room, for each layer of the model.
    pub open spec fn cache_ok(&self, cache: &KvCache) -> bool {
        &&& cache.layered(self.weights.blocks@.len() as int)
        &&& forall|i: int|
            0 <= i < self.weights.blocks@.len() ==> #[trigger] cache.roomy(
                i,
                self.params.heads(i).head_dim,
                self.params.heads(i).head_dim,
                self.params.heads(i).n_head_kv,
            )
    }

    /// What a pass leaves: the logits on request, and the cache of every layer.
    pub open spec fn passed(
        &self,
        before: &DispatchContext<F>,
        after: &DispatchContext<F>,
        cache: &KvCache,
        inp: Gemma4Input<F>,
        compute_logits: bool,
        logits: Option<TensorView>,
    ) -> bool {
        let m = before.memory();
        &&& (logits is Some <==> compute_logits)
        &&& logits matches Some(t) ==> ready(after, t) && read(after.memory(), t) == self.logits(
            m,
            cache,
            inp,
        )
        &&& forall|i: int|
            0 <= i < self.weights.blocks@.len() ==> #[trigger] self.layer_cached(
                m,
                after.memory(),
                cache,
                inp,
                i,
            )
        &&& undisturbed(m, after.memory(), before.at(), cache_buffers())
        &&& quiet(after.memory())
    }

    /// How a pass ends: recorded, or refused for one of three reasons.
    pub open spec fn recorded(
        &self,
        before: &DispatchContext<F>,
        after: &DispatchContext<F>,
        cache: &KvCache,
        cache_after: &KvCache,
        tokens: Seq<u32>,
        position_offset: u32,
        image: Option<Columns<F>>,
        compute_logits: bool,
        r: Result<Option<TensorView>, RecordError>,
    ) -> bool {
        let inp = self.input(cache, tokens, position_offset, image);
        match r {
            Ok(logits) => {
                &&& tokens.len() > 0
                &&& cache.position == position_offset
                &&& self.fits(inp, compute_logits, before.used, before.region)
                &&& after.used == self.pass_end(inp, compute_logits, before.used)
                &&& self.passed(before, after, cache, inp, compute_logits, logits)
                &&& cache_after.position == position_offset + tokens.len()
                &&& cache_after.same_but_position(cache)
            },
            Err(RecordError::EmptyPrompt) => tokens.len() == 0,
            Err(RecordError::PositionMismatch { cached, given }) => {
                &&& tokens.len() > 0
                &&& cached == cache.position
                &&& given == position_offset
                &&& cached != given
            },
            Err(RecordError::ScratchExhausted) => {
                &&& tokens.len() > 0
                &&& cache.position == position_offset
                &&& !self.fits(inp, compute_logits, before.used, before.region)
            },
            Err(_) => false,
        }
    }

    /// Record a pass, with image columns over part of it where there are any.
    #[verifier::rlimit(40)]
    fn forward_inner(
        &self,
        ctx: &mut DispatchContext<F>,
        cache: &mut KvCache,
        tokens: &[u32],
        position_offset: u32,
        compute_logits: bool,
        image_splice: Option<(&[F], usize, usize)>,
    ) -> (r: Result<Option<TensorView>, RecordError>)
        requires
            self.ready(old(ctx)),
            quiet(old(ctx).memory()),
            self.cache_ok(old(cache)),
            has_room(old(cache), position_offset, tokens@.len()),
            tokens@.len() * tokens@.len() <= usize::MAX,
            image_splice matches Some((data, at, count)) ==> count >= 1 && at + count
                <= tokens@.len() && data@.len() == count * self.params.n_embd,
        ensures
            final(ctx).region == old(ctx).region,
            final(ctx).replay == old(ctx).replay,
            self.recorded(
                old(ctx),
                final(ctx),
                old(cache),
                final(cache),
                tokens@,
                position_offset,
                given(image_splice),
                compute_logits,
                r,
            ),
            r is Err ==> *final(cache) == *old(cache),
    {
        let n: usize = tokens.len();
        if n == 0 {
            return Err(RecordError::EmptyPrompt);
        }
        if cache.position != position_offset {
            return Err(
                RecordError::PositionMismatch { cached: cache.position, given: position_offset },
            );
        }
        let p = &self.params;
        let l: u32 = n as u32;
        let total_len: u32 = position_offset + l;
        let hidden: u64 = p.n_embd as u64;
        let pass = Pass { l, position: position_offset, total_len, direct: cache.direct };
        let positions = sequential_positions(position_offset, l);
        let ghost image = given(image_splice);
        let ghost inp = self.input(cache, tokens@, position_offset, image);
        let ghost inf = inp.inf;
        let mask: Option<Vec<F>> = if l > 1 {
            Some(causal_mask(n, self.mask))
        } else {
            None
        };
        let mask_data: Option<&[F]> = match &mask {
            Some(data) => Some(data.as_slice()),
            None => None,
        };
        let ghost m0 = ctx.memory();
        let ghost at0 = ctx.at();
        let pro = record_inputs(
            ctx,
            tokens,
            positions.as_slice(),
            mask_data,
            self.weights.token_embd,
            hidden,
            p.embd_scale,
            image_splice,
        )?;
        proof {
            assert(undisturbed(m0, ctx.memory(), at0, cache_buffers()));
        }
        let mark: u64 = ctx.scratch_checkpoint();
        let base: u64 = ctx.used;
        assert forall|j: int| 0 <= j < self.weights.blocks@.len() implies #[trigger]
        layer_untouched(m0, ctx.memory(), cache.layer(j)) by {
            assert(cache.layer_named(j));
        }
        let mut i: usize = 0;
        while i < self.weights.blocks.len()
            invariant
                i <= self.weights.blocks@.len(),
                cache.position == position_offset,
                p == &self.params,
                self.params.wf(self.weights.blocks@.len() as int),
                m0 == old(ctx).memory(),
                at0 == old(ctx).at(),
                self.ready(old(ctx)),
                ctx.region == old(ctx).region,
                ctx.replay == old(ctx).replay,
                *cache == *old(cache),
                self.cache_ok(cache),
                1 <= l == tokens@.len(),
                hidden == p.n_embd,
                inp == self.input(cache, tokens@, position_offset, image),
                inf == inp.inf,
                image == given(image_splice),
                pass == inf.pass,
                total_len <= cache.max_seq_len,
                1 <= total_len == pass.total_len,
                at0 <= mark <= ctx.at(),
                quiet(ctx.memory()),
                4 * hidden * l <= ctx.region,
                base == self.inputs_end(inp, old(ctx).used),
                base <= ctx.region,
                forall|j: int|
                    0 <= j < i ==> base + gemma4_layer_bytes(
                        p,
                        #[trigger] self.weights.blocks@[j],
                        j,
                        pass,
                    ) <= ctx.region,
                prologue_done(
                    ctx,
                    at0,
                    pro,
                    hidden,
                    l as u64,
                    inf.positions,
                    inf.mask,
                    self.hidden(m0, cache, inp, i as int),
                ),
                settled(pro.positions, at0, mark as int, pro.residual.buffer),
                pro.mask matches Some(t) ==> settled(t, at0, mark as int, pro.residual.buffer),
                pro.residual.buffer matches Buffer::Scratch { id, bytes: _ } && at0 <= id < mark,
                undisturbed(m0, ctx.memory(), at0, cache_buffers()),
                forall|j: int|
                    0 <= j < i ==> #[trigger] self.layer_cached(m0, ctx.memory(), cache, inp, j),
                forall|j: int|
                    i <= j < self.weights.blocks@.len() ==> #[trigger] layer_untouched(
                        m0,
                        ctx.memory(),
                        cache.layer(j),
                    ),
            decreases self.weights.blocks@.len() - i,
        {
            let ghost m1 = ctx.memory();
            ctx.scratch_restore(mark, base);
            proof {
                lemma_released(m1, mark as int);
            }
            let ghost m2 = ctx.memory();
            let block = &self.weights.blocks[i];
            let layer = cache.layer_views(i);
            let freqs: Option<TensorView> = if p.swa[i] {
                None
            } else {
                self.weights.rope_freqs
            };
            proof {
                let h = p.heads(i as int);
                assert(cache.roomy(i as int, h.head_dim, h.head_dim, h.n_head_kv));
                lemma_fewer_tokens(
                    layer.k,
                    h.head_dim,
                    h.n_head_kv,
                    cache.max_seq_len as u64,
                    total_len as u64,
                );
                lemma_fewer_tokens(
                    layer.v,
                    h.head_dim,
                    h.n_head_kv,
                    cache.max_seq_len as u64,
                    total_len as u64,
                );
                assert(block.ready(old(ctx)) && block.apart());
                assert(layer_untouched(m0, m1, layer));
                assert(same_layer_inputs(m1, m0, *block, freqs, layer));
                assert(same_layer_inputs(m2, m1, *block, freqs, layer));
                assert(block.ready(ctx) && ready_opt(ctx, freqs));
                assert(ready(ctx, pro.residual) && ready(ctx, pro.positions) && ready_opt(
                    ctx,
                    pro.mask,
                ));
                assert(mask_term(m2, pro.mask) == mask_value(inf.mask, l as u64));
                assert(read(m2, pro.positions) == words_term::<F>(inf.positions));
                assert(content(m2, pro.residual.buffer) == self.hidden(m0, cache, inp, i as int));
                assert(freqs == self.freqs(i as int));
                lemma_same_layer(
                    m2,
                    m0,
                    p,
                    *block,
                    freqs,
                    i as int,
                    layer,
                    self.hidden(m0, cache, inp, i as int),
                    words_term(inf.positions),
                    mask_value(inf.mask, l as u64),
                    pass,
                );
            }
            record_layer(
                ctx,
                p,
                block,
                freqs,
                i,
                layer,
                pro.residual,
                pro.positions,
                pro.mask,
                pass,
            )?;
            proof {
                let m3 = ctx.memory();
                assert forall|x: Buffer|
                    !later(x, at0) && !cache_buffers().contains(x) implies content(m3, x)
                    == content(m0, x) && (reserved(m0, x) ==> reserved(m3, x)) by {
                    assert(content(m1, x) == content(m0, x));
                    assert(content(m2, x) == content(m1, x));
                }
                assert(ready(ctx, pro.positions) && ready_opt(ctx, pro.mask));
                assert forall|j: int| 0 <= j < i implies #[trigger] self.layer_cached(
                    m0,
                    m3,
                    cache,
                    inp,
                    j,
                ) by {
                    assert(self.layer_cached(m0, m1, cache, inp, j));
                    assert(cache.layer_named(j));
                    assert(content(m2, cache.layer(j).k.buffer) == content(
                        m1,
                        cache.layer(j).k.buffer,
                    ));
                    assert(content(m2, cache.layer(j).v.buffer) == content(
                        m1,
                        cache.layer(j).v.buffer,
                    ));
                }
                assert(self.layer_cached(m0, m3, cache, inp, i as int));
                assert(content(m3, pro.residual.buffer) == self.hidden(m0, cache, inp, i + 1));
                assert(content(m3, pro.positions.buffer) == content(m2, pro.positions.buffer));
                assert(pro.mask matches Some(t) ==> content(m3, t.buffer) == content(
                    m2,
                    t.buffer,
                ));
                assert(ready(ctx, pro.residual));
                assert forall|j: int| i < j < self.weights.blocks@.len() implies #[trigger]
                layer_untouched(m0, m3, cache.layer(j)) by {
                    assert(layer_untouched(m0, m1, cache.layer(j)));
                    assert(cache.layer_named(j));
                    assert(content(m2, cache.layer(j).k.buffer) == content(
                        m1,
                        cache.layer(j).k.buffer,
                    ));
                    assert(content(m2, cache.layer(j).v.buffer) == content(
                        m1,
                        cache.layer(j).v.buffer,
                    ));
                }
            }
            i += 1;
        }
        let ghost m4 = ctx.memory();
        ctx.scratch_restore(mark, base);
        proof {
            lemma_released(m4, mark as int);
            let m5 = ctx.memory();
            assert forall|x: Buffer|
                !later(x, at0) && !cache_buffers().contains(x) implies content(m5, x) == content(
                m0,
                x,
            ) && (reserved(m0, x) ==> reserved(m5, x)) by {
                assert(content(m4, x) == content(m0, x));
            }
            assert forall|j: int| 0 <= j < self.weights.blocks@.len() implies #[trigger]
            self.layer_cached(m0, m5, cache, inp, j) by {
                assert(self.layer_cached(m0, m4, cache, inp, j));
                assert(cache.layer_named(j));
            }
            assert(ready(ctx, pro.residual));
        }
        if !compute_logits {
            cache.advance(l);
            return Ok(None);
        }
        let ghost m5 = ctx.memory();
        proof {
            assert((l - 1) * hidden * 4 <= 4 * hidden * l) by (nonlinear_arith)
                requires
                    l >= 1,
            ;
            assert((l - 1) * hidden <= (l - 1) * hidden * 4) by (nonlinear_arith)
                requires
                    l >= 1,
            ;
            assert(hidden * 4 <= 4 * hidden * l) by (nonlinear_arith)
                requires
                    l >= 1,
            ;
            assert(ready(ctx, self.weights.output_norm) && ready(ctx, self.head()));
            assert(content(m5, self.weights.output_norm.buffer) == content(
                m0,
                self.weights.output_norm.buffer,
            ));
            assert(content(m5, self.head().buffer) == content(m0, self.head().buffer));
        }
        let last = last_column(pro.residual, hidden, l as u64 - 1);
        let head = match self.weights.output {
            Some(t) => t,
            None => self.weights.token_embd,
        };
        let logits = record_head(
            ctx,
            p.rms_eps,
            last,
            self.weights.output_norm,
            head,
            hidden,
            p.n_vocab as u64,
            1,
        )?;
        let ghost m6 = ctx.memory();
        record_softcap(ctx, p.final_logit_softcap, logits, p.n_vocab as u64, 1);
        proof {
            let m7 = ctx.memory();
            assert(undisturbed(m0, m7, at0, cache_buffers())) by {
                assert forall|x: Buffer|
                    !later(x, at0) && !cache_buffers().contains(x) implies content(m7, x)
                    == content(m0, x) && (reserved(m0, x) ==> reserved(m7, x)) by {
                    assert(content(m5, x) == content(m0, x));
                    assert(content(m6, x) == content(m5, x));
                }
            }
            assert forall|j: int| 0 <= j < self.weights.blocks@.len() implies #[trigger]
            self.layer_cached(m0, m7, cache, inp, j) by {
                assert(self.layer_cached(m0, m5, cache, inp, j));
                assert(cache.layer_named(j));
                assert(content(m6, cache.layer(j).k.buffer) == content(
                    m5,
                    cache.layer(j).k.buffer,
                ));
                assert(content(m6, cache.layer(j).v.buffer) == content(
                    m5,
                    cache.layer(j).v.buffer,
                ));
            }
        }
        cache.advance(l);
        Ok(Some(logits))
    }

    /// Record a forward pass of one sequence; the last token's logits are
    /// computed on request only.
    pub fn record_forward(
        &self,
        ctx: &mut DispatchContext<F>,
        cache: &mut KvCache,
        tokens: &[u32],
        position_offset: u32,
        compute_logits: bool,
    ) -> (r: Result<Option<TensorView>, RecordError>)
        requires
            self.ready(old(ctx)),
            quiet(old(ctx).memory()),
            self.cache_ok(old(cache)),
            has_room(old(cache), position_offset, tokens@.len()),
            tokens@.len() * tokens@.len() <= usize::MAX,
        ensures
            final(ctx).region == old(ctx).region,
            final(ctx).replay == old(ctx).replay,
            self.recorded(
                old(ctx),
                final(ctx),
                old(cache),
                final(cache),
                tokens@,
                position_offset,
                None,
                compute_logits,
                r,
            ),
            r is Err ==> *final(cache) == *old(cache),
    {
        self.forward_inner(ctx, cache, tokens, position_offset, compute_logits, None)
    }

    /// Record one chunk of a prompt that holds an image: the chunk's image
    /// tokens take the vision columns that stand at their global indices.
    /// Positions stay sequential.
    pub fn record_forward_image_chunk(
        &self,
        ctx: &mut DispatchContext<F>,
        cache: &mut KvCache,
        chunk_tokens: &[u32],
        chunk_global_start: usize,
        image_embeddings: &[F],
        image_global_start: usize,
        image_nx: usize,
        image_ny: usize,
        compute_logits: bool,
    ) -> (r: Result<Option<TensorView>, RecordError>)
        requires
            self.ready(old(ctx)),
            quiet(old(ctx).memory()),
            self.cache_ok(old(cache)),
            has_room(old(cache), old(cache).position, chunk_tokens@.len()),
            chunk_tokens@.len() * chunk_tokens@.len() <= usize::MAX,
            chunk_global_start + chunk_tokens@.len() <= usize::MAX,
            image_nx * image_ny <= usize::MAX,
            image_global_start + image_nx * image_ny <= usize::MAX,
            self.params.n_embd * (image_nx * image_ny) <= usize::MAX,
        ensures
            final(ctx).region == old(ctx).region,
            final(ctx).replay == old(ctx).replay,
            r matches Err(RecordError::ImageColumns) <==> image_embeddings@.len()
                != self.params.n_embd * (image_nx * image_ny),
            !(r matches Err(RecordError::ImageColumns)) ==> self.recorded(
                old(ctx),
                final(ctx),
                old(cache),
                final(cache),
                chunk_tokens@,
                old(cache).position,
                chunk_columns(
                    image_embeddings@,
                    chunk_global_start as int,
                    chunk_tokens@.len() as int,
                    image_global_start as int,
                    image_nx * image_ny,
                    self.params.n_embd as int,
                ),
                compute_logits,
                r,
            ),
            r is Err ==> *final(cache) == *old(cache),
    {
        let n_embd: usize = self.params.n_embd as usize;
        let n_tok: usize = image_nx * image_ny;
        if image_embeddings.len() != n_embd * n_tok {
            return Err(RecordError::ImageColumns);
        }
        let l: usize = chunk_tokens.len();
        let position: u32 = cache.position;
        match image_overlap(chunk_global_start, l, image_global_start, n_tok) {
            Some(s) => {
                proof {
                    lemma_columns_within(s.first as int, s.count as int, n_embd as int, n_tok as int);
                }
                let sub = vstd::slice::slice_subrange(
                    image_embeddings,
                    s.first * n_embd,
                    (s.first + s.count) * n_embd,
                );
                assert((s.first + s.count) * n_embd - s.first * n_embd == s.count * n_embd)
                    by (nonlinear_arith);
                self.forward_inner(
                    ctx,
                    cache,
                    chunk_tokens,
                    position,
                    compute_logits,
                    Some((sub, s.at, s.count)),
                )
            },
            None => self.forward_inner(ctx, cache, chunk_tokens, position, compute_logits, None),
        }
    }
}

/// Some columns of an image lie within it.
pub proof fn lemma_columns_within(first: int, count: int, width: int, n_tok: int)
    requires
        0 <= first,
        0 <= count,
        first + count <= n_tok,
        width >= 0,
    ensures
        0 <= first * width <= (first + count) * width <= width * n_tok,
{
    assert(0 <= first * width <= (first + count) * width && (first + count) * width <= width
        * n_tok) by (nonlinear_arith)
        requires
            0 <= first,
            0 <= count,
            first + count <= n_tok,
            width >= 0,
    ;
}

/// The image columns that fall in a chunk, with the column that they go to.
pub open spec fn chunk_columns<F>(
    embeddings: Seq<F>,
    chunk: int,
    l: int,
    image: int,
    n_tok: int,
    width: int,
) -> Option<Columns<F>> {
    match overlap(chunk, l, image, n_tok) {
        Some((first, count, at)) => Some(
            Columns {
                data: embeddings.subrange(first * width, (first + count) * width),
                at,
                count,
            },
        ),
        None => None,
    }
}

} // verus!
