//! The Qwen3 architecture: head width decoupled from the embedding width,
//! queries and keys normalized per head before rotation.
use vstd::prelude::*;

use crate::models::blocks::{
    alloc_headed, attended, cached, cached_bytes, embedded, gated_bytes, gated_ready, gated_term,
    head_bytes, head_term, holds_tokens, lemma_heads_within, lemma_released, mask_value, projected,
    projection_bytes, projection_ready, prologue_bytes, prologue_done, ready, ready_opt,
    record_cached, record_gated_residual, record_head, record_projections, record_prologue,
    sequential, sequential_positions, settled, undisturbed, words_term, GatedWeights, LayerCache,
    ProjectionWeights,
};
use crate::models::cache::{has_room, lemma_fewer_tokens, KvCache};
use crate::models::llama::{
    cache_buffers, for_attn, layer_untouched, mask_term, per_head, Inference, Pass,
};
use crate::models::ForwardFullOut;
use crate::models::masks::{
    block_diagonal_causal_mask, causal_mask, causal_values, lemma_starts, packed_values, start_of,
    sum_lens, total, MaskValues,
};
use crate::models::recorder::{
    content, fresh, later, op2, op3_opt, quiet, read, reserved, spends, through, DispatchContext,
    Fence, FlashAttnParams, Memory, Op, RecordError, RopeParams, Term,
};
use crate::models::tensor::{
    covers, dense, headed, last_column, matrix, one_column, permute_to_attn, reshape_for_rope, size,
    Buffer, TensorView,
};

verus! {

/// Architecture parameters. `F` is the number type of the device constants.
#[derive(Clone)]
pub struct Qwen3Params<F> {
    pub n_layer: u32,
    pub n_head: u32,
    pub n_head_kv: u32,
    pub n_embd: u32,
    pub n_ff: u32,
    pub n_vocab: u32,
    pub n_ctx_train: u32,
    /// Width of a head, independent of `n_embd / n_head`.
    pub head_dim: u32,
    pub rms_eps: F,
    pub rope_freq_base: F,
    pub rope_dim: u32,
    /// One over the square root of the head width.
    pub attn_scale: F,
}

impl<F: Copy> Qwen3Params<F> {
    /// There are heads, and the projection widths are 32-bit numbers.
    pub open spec fn wf(&self) -> bool {
        &&& self.n_head > 0
        &&& self.n_head_kv > 0
        &&& self.n_head * self.head_dim <= u32::MAX
        &&& self.n_head_kv * self.head_dim <= u32::MAX
    }

    /// Width of the query projection.
    pub open spec fn q_width(&self) -> u32 {
        (self.n_head * self.head_dim) as u32
    }

    /// Width of the key and value projections.
    pub open spec fn kv_width(&self) -> u32 {
        (self.n_head_kv * self.head_dim) as u32
    }

    /// Width of the query projection.
    pub fn q_dim(&self) -> (r: u32)
        requires
            self.n_head * self.head_dim <= u32::MAX,
        ensures
            r == self.n_head * self.head_dim,
    {
        self.n_head * self.head_dim
    }

    /// Width of the key and value projections.
    pub fn kv_dim(&self) -> (r: u32)
        requires
            self.n_head_kv * self.head_dim <= u32::MAX,
        ensures
            r == self.n_head_kv * self.head_dim,
    {
        self.n_head_kv * self.head_dim
    }

    /// How many query heads share a key head, at least one.
    pub open spec fn gqa(&self) -> u32 {
        if self.n_head / self.n_head_kv >= 1 {
            self.n_head / self.n_head_kv
        } else {
            1
        }
    }

    /// Rotary parameters.
    pub open spec fn rope(&self) -> RopeParams<F> {
        RopeParams { dim: self.rope_dim, freq_base: self.rope_freq_base }
    }

    /// Attention parameters.
    pub open spec fn attn(&self) -> FlashAttnParams<F> {
        FlashAttnParams {
            head_dim_k: self.head_dim,
            head_dim_v: self.head_dim,
            gqa_ratio: self.gqa(),
            scale: self.attn_scale,
            swa_window: 0,
        }
    }

    /// Rotary parameters.
    pub fn rope_params(&self) -> (r: RopeParams<F>)
        ensures
            r == self.rope(),
    {
        RopeParams { dim: self.rope_dim, freq_base: self.rope_freq_base }
    }

    /// Attention parameters.
    pub fn attn_params(&self) -> (r: FlashAttnParams<F>)
        requires
            self.wf(),
        ensures
            r == self.attn(),
    {
        let ratio: u32 = self.n_head / self.n_head_kv;
        FlashAttnParams {
            head_dim_k: self.head_dim,
            head_dim_v: self.head_dim,
            gqa_ratio: if ratio >= 1 {
                ratio
            } else {
                1
            },
            scale: self.attn_scale,
            swa_window: 0,
        }
    }
}

/// Weights of one layer.
#[derive(Clone, Copy)]
pub struct Qwen3BlockWeights {
    pub attn_norm: TensorView,
    pub wq: TensorView,
    pub attn_q_norm: TensorView,
    pub wk: TensorView,
    pub attn_k_norm: TensorView,
    pub wv: TensorView,
    pub wo: TensorView,
    pub ffn_norm: TensorView,
    pub ffn_gate: TensorView,
    pub ffn_up: TensorView,
    pub ffn_down: TensorView,
}

impl Qwen3BlockWeights {
    /// The projection weights.
    pub open spec fn projections(&self) -> ProjectionWeights {
        ProjectionWeights { norm: self.attn_norm, wq: self.wq, wk: self.wk, wv: self.wv }
    }

    /// The feed-forward weights.
    pub open spec fn gated(&self) -> GatedWeights {
        GatedWeights {
            norm: self.ffn_norm,
            gate: self.ffn_gate,
            up: self.ffn_up,
            down: self.ffn_down,
        }
    }

    /// All weights can be read.
    pub open spec fn ready<F: Copy>(&self, ctx: &DispatchContext<F>) -> bool {
        &&& projection_ready(ctx, self.projections())
        &&& ready(ctx, self.attn_q_norm)
        &&& ready(ctx, self.attn_k_norm)
        &&& ready(ctx, self.wo)
        &&& gated_ready(ctx, self.gated())
    }

    /// No weight lives in scratch or in a cache.
    pub open spec fn apart(&self) -> bool {
        &&& self.attn_norm.buffer is Weights
        &&& self.wq.buffer is Weights
        &&& self.attn_q_norm.buffer is Weights
        &&& self.wk.buffer is Weights
        &&& self.attn_k_norm.buffer is Weights
        &&& self.wv.buffer is Weights
        &&& self.wo.buffer is Weights
        &&& self.ffn_norm.buffer is Weights
        &&& self.ffn_gate.buffer is Weights
        &&& self.ffn_up.buffer is Weights
        &&& self.ffn_down.buffer is Weights
    }
}

/// All weights.
pub struct Qwen3Weights {
    pub token_embd: TensorView,
    pub blocks: Vec<Qwen3BlockWeights>,
    pub output_norm: TensorView,
    /// Absent where the head shares the token embedding.
    pub output: Option<TensorView>,
}

/// A model.
pub struct Qwen3Model<F> {
    pub params: Qwen3Params<F>,
    pub weights: Qwen3Weights,
    pub mask: MaskValues<F>,
}

/// Heads of a projection, normalized and rotated.
pub open spec fn qwen3_heads<F: Copy>(
    m: Memory<F>,
    p: &Qwen3Params<F>,
    x: Term<F>,
    attn_norm: TensorView,
    w: TensorView,
    head_norm: TensorView,
    heads: u32,
    positions: Term<F>,
    l: u64,
) -> Term<F> {
    op2(
        Op::RopeNeox { params: p.rope() },
        fresh(
            op2(
                Op::RmsNorm { eps: p.rms_eps },
                per_head(
                    projected(m, p.rms_eps, x, attn_norm, w, p.n_embd as u64, l),
                    (heads * p.head_dim) as u64,
                    p.head_dim as u64,
                    heads as u64,
                    l,
                ),
                read(m, head_norm),
            ),
            headed(p.head_dim as u64, heads as u64, l),
        ),
        positions,
    )
}

/// The key cache of a layer after the pass.
pub open spec fn qwen3_k_cache<F: Copy>(
    m: Memory<F>,
    p: &Qwen3Params<F>,
    b: Qwen3BlockWeights,
    layer: LayerCache,
    x: Term<F>,
    positions: Term<F>,
    pass: Pass,
) -> Term<F> {
    cached(
        m,
        layer.k,
        pass.position,
        fresh(
            qwen3_heads(
                m,
                p,
                x,
                b.attn_norm,
                b.wk,
                b.attn_k_norm,
                p.n_head_kv,
                positions,
                pass.l as u64,
            ),
            headed(p.head_dim as u64, p.n_head_kv as u64, pass.l as u64),
        ),
    )
}

/// The value cache of a layer after the pass.
pub open spec fn qwen3_v_cache<F: Copy>(
    m: Memory<F>,
    p: &Qwen3Params<F>,
    b: Qwen3BlockWeights,
    layer: LayerCache,
    x: Term<F>,
    pass: Pass,
) -> Term<F> {
    cached(
        m,
        layer.v,
        pass.position,
        per_head(
            projected(m, p.rms_eps, x, b.attn_norm, b.wv, p.n_embd as u64, pass.l as u64),
            p.kv_width() as u64,
            p.head_dim as u64,
            p.n_head_kv as u64,
            pass.l as u64,
        ),
    )
}

/// The hidden state after the attention half of a layer.
pub open spec fn qwen3_attended<F: Copy>(
    m: Memory<F>,
    p: &Qwen3Params<F>,
    b: Qwen3BlockWeights,
    layer: LayerCache,
    h: Term<F>,
    positions: Term<F>,
    mask: Option<Term<F>>,
    pass: Pass,
) -> Term<F> {
    let l = pass.l as u64;
    let cols = matrix(p.n_embd as u64, l);
    let x = fresh(h, cols);
    let out = op3_opt(
        Op::FlashAttn { params: p.attn(), kv_len: pass.total_len },
        for_attn(
            qwen3_heads(
                m,
                p,
                x,
                b.attn_norm,
                b.wq,
                b.attn_q_norm,
                p.n_head,
                positions,
                l,
            ),
            p.head_dim as u64,
            p.n_head as u64,
            l,
        ),
        attended(
            qwen3_k_cache(m, p, b, layer, x, positions, pass),
            layer.k,
            p.head_dim as u64,
            p.n_head_kv as u64,
            pass.total_len as u64,
            pass.direct,
        ),
        attended(
            qwen3_v_cache(m, p, b, layer, x, pass),
            layer.v,
            p.head_dim as u64,
            p.n_head_kv as u64,
            pass.total_len as u64,
            pass.direct,
        ),
        mask,
    );
    op2(
        Op::Add,
        x,
        fresh(
            op2(Op::MatMul, read(m, b.wo), fresh(out, matrix(p.q_width() as u64, l))),
            cols,
        ),
    )
}

/// The hidden state after a layer.
pub open spec fn qwen3_layer<F: Copy>(
    m: Memory<F>,
    p: &Qwen3Params<F>,
    b: Qwen3BlockWeights,
    layer: LayerCache,
    h: Term<F>,
    positions: Term<F>,
    mask: Option<Term<F>>,
    pass: Pass,
) -> Term<F> {
    let mid = fresh(
        qwen3_attended(m, p, b, layer, h, positions, mask, pass),
        matrix(p.n_embd as u64, pass.l as u64),
    );
    op2(
        Op::Add,
        mid,
        gated_term(
            m,
            Op::Silu,
            p.rms_eps,
            mid,
            b.gated(),
            p.n_embd as u64,
            p.n_ff as u64,
            pass.l as u64,
        ),
    )
}

/// Scratch that the attention half of a layer takes.
pub open spec fn qwen3_attn_bytes<F: Copy>(p: &Qwen3Params<F>, pass: Pass) -> nat {
    let l = pass.l as u64;
    let hidden = p.n_embd as u64;
    let q = p.q_width() as u64;
    let kv = p.kv_width() as u64;
    let head = p.head_dim as u64;
    let n_kv = p.n_head_kv as u64;
    projection_bytes(hidden, q, kv, kv, l) + 2 * size(headed(head, p.n_head as u64, l)) + 2 * size(
        headed(head, n_kv, l),
    ) + cached_bytes(head, head, n_kv, pass.total_len as u64, pass.direct) + size(matrix(q, l))
        + size(matrix(hidden, l))
}

/// Scratch that a layer takes.
pub open spec fn qwen3_layer_bytes<F: Copy>(p: &Qwen3Params<F>, pass: Pass) -> nat {
    qwen3_attn_bytes(p, pass) + gated_bytes(p.n_embd as u64, p.n_ff as u64, pass.l as u64)
}

/// Record the attention half of a layer.
#[verifier::rlimit(30)]
pub fn record_attention<F: Copy>(
    ctx: &mut DispatchContext<F>,
    p: &Qwen3Params<F>,
    b: &Qwen3BlockWeights,
    layer: LayerCache,
    residual: TensorView,
    positions: TensorView,
    mask: Option<TensorView>,
    pass: Pass,
) -> (r: Result<(), RecordError>)
    requires
        p.wf(),
        pass.l >= 1,
        pass.total_len >= 1,
        quiet(old(ctx).memory()),
        residual == dense(residual.buffer, matrix(p.n_embd as u64, pass.l as u64)),
        covers(residual),
        ready(old(ctx), residual),
        ready(old(ctx), positions),
        positions.buffer is Scratch,
        positions.buffer != residual.buffer,
        ready_opt(old(ctx), mask),
        mask matches Some(t) ==> t.buffer is Scratch && t.buffer != residual.buffer,
        b.ready(old(ctx)),
        b.apart(),
        !(layer.k.buffer is Scratch) && !(layer.k.buffer is Weights),
        !(layer.v.buffer is Scratch) && !(layer.v.buffer is Weights),
        layer.k.buffer != layer.v.buffer,
        holds_tokens(layer.k, p.head_dim as u64, p.n_head_kv as u64, pass.total_len as u64),
        holds_tokens(layer.v, p.head_dim as u64, p.n_head_kv as u64, pass.total_len as u64),
    ensures
        final(ctx).region == old(ctx).region,
        final(ctx).replay == old(ctx).replay,
        final(ctx).at() >= old(ctx).at(),
        r matches Err(e) ==> e is ScratchExhausted,
        spends(old(ctx), final(ctx), r is Ok, qwen3_attn_bytes(p, pass)),
        r is Ok ==> {
            let m = old(ctx).memory();
            let x = read(m, residual);
            &&& content(final(ctx).memory(), residual.buffer) == qwen3_attended(
                m,
                p,
                *b,
                layer,
                content(m, residual.buffer),
                read(m, positions),
                mask_term(m, mask),
                pass,
            )
            &&& content(final(ctx).memory(), layer.k.buffer) == qwen3_k_cache(
                m,
                p,
                *b,
                layer,
                x,
                read(m, positions),
                pass,
            )
            &&& content(final(ctx).memory(), layer.v.buffer) == qwen3_v_cache(
                m,
                p,
                *b,
                layer,
                x,
                pass,
            )
            &&& quiet(final(ctx).memory())
            &&& undisturbed(
                m,
                final(ctx).memory(),
                old(ctx).at(),
                set![residual.buffer, layer.k.buffer, layer.v.buffer],
            )
        },
{
    let hidden: u64 = p.n_embd as u64;
    let head_dim: u64 = p.head_dim as u64;
    let n_head: u64 = p.n_head as u64;
    let n_head_kv: u64 = p.n_head_kv as u64;
    let q_dim: u64 = p.q_dim() as u64;
    let kv_dim: u64 = p.kv_dim() as u64;
    let l: u64 = pass.l as u64;
    proof {
        assert(head_dim * n_head == q_dim && head_dim * n_head_kv == kv_dim) by (nonlinear_arith)
            requires
                q_dim == n_head * head_dim,
                kv_dim == n_head_kv * head_dim,
        ;
    }
    let (q, k, v) = record_projections(
        ctx,
        p.rms_eps,
        residual,
        ProjectionWeights { norm: b.attn_norm, wq: b.wq, wk: b.wk, wv: b.wv },
        hidden,
        q_dim,
        kv_dim,
        kv_dim,
        l,
    )?;
    let ghost m1 = ctx.memory();
    proof {
        assert(ready(ctx, positions) && ready(ctx, residual) && ready_opt(ctx, mask) && ready(
            ctx,
            b.wo,
        ) && ready(ctx, b.attn_q_norm) && ready(ctx, b.attn_k_norm));
        assert(content(ctx.memory(), layer.k.buffer) == content(old(ctx).memory(), layer.k.buffer));
        assert(content(ctx.memory(), layer.v.buffer) == content(old(ctx).memory(), layer.v.buffer));
        lemma_heads_within(head_dim, n_head, q_dim, l, ctx.region);
        lemma_heads_within(head_dim, n_head_kv, kv_dim, l, ctx.region);
    }
    let q_view = reshape_for_rope(q, head_dim, n_head, l);
    let q_normed = alloc_headed(ctx, head_dim, n_head, l)?;
    ctx.apply2(Op::RmsNorm { eps: p.rms_eps }, q_view, b.attn_q_norm, q_normed, Fence::No);
    let k_view = reshape_for_rope(k, head_dim, n_head_kv, l);
    let k_normed = alloc_headed(ctx, head_dim, n_head_kv, l)?;
    ctx.apply2(Op::RmsNorm { eps: p.rms_eps }, k_view, b.attn_k_norm, k_normed, Fence::No);
    ctx.barrier2(q_normed, k_normed);
    let q_roped = alloc_headed(ctx, head_dim, n_head, l)?;
    let k_roped = alloc_headed(ctx, head_dim, n_head_kv, l)?;
    ctx.apply2(Op::RopeNeox { params: p.rope_params() }, q_normed, positions, q_roped, Fence::No);
    ctx.apply2(Op::RopeNeox { params: p.rope_params() }, k_normed, positions, k_roped, Fence::No);
    ctx.barrier2(q_roped, k_roped);
    let k_natural = reshape_for_rope(k_roped, head_dim, n_head_kv, l);
    let v_natural = reshape_for_rope(v, head_dim, n_head_kv, l);
    let ghost m2 = ctx.memory();
    let (k_src, v_src) = record_cached(
        ctx,
        k_natural,
        v_natural,
        layer,
        pass.position,
        pass.total_len,
        head_dim,
        head_dim,
        n_head_kv,
        pass.direct,
    )?;
    let ghost m3 = ctx.memory();
    assert(ready(ctx, q_roped) && ready(ctx, residual) && ready_opt(ctx, mask) && ready(ctx, b.wo));
    let q_perm = permute_to_attn(q_roped, head_dim, l, n_head);
    let out = ctx.alloc_matrix(q_dim, l)?;
    ctx.apply3_opt(
        Op::FlashAttn { params: p.attn_params(), kv_len: pass.total_len },
        q_perm,
        k_src,
        v_src,
        mask,
        out,
        Fence::Own,
    );
    let proj = ctx.alloc_matrix(hidden, l)?;
    ctx.apply2(Op::MatMul, b.wo, out, proj, Fence::Own);
    ctx.apply2(Op::Add, residual, proj, residual, Fence::Own);
    proof {
        let m0 = old(ctx).memory();
        let changed = set![residual.buffer, layer.k.buffer, layer.v.buffer];
        assert forall|x: Buffer| !later(x, old(ctx).at()) && !changed.contains(x) implies content(
            ctx.memory(),
            x,
        ) == content(m0, x) && (reserved(m0, x) ==> reserved(ctx.memory(), x)) by {
            assert(content(m1, x) == content(m0, x));
            assert(content(m3, x) == content(m2, x));
        }
    }
    Ok(())
}

/// Record a layer.
pub fn record_layer<F: Copy>(
    ctx: &mut DispatchContext<F>,
    p: &Qwen3Params<F>,
    b: &Qwen3BlockWeights,
    layer: LayerCache,
    residual: TensorView,
    positions: TensorView,
    mask: Option<TensorView>,
    pass: Pass,
) -> (r: Result<(), RecordError>)
    requires
        p.wf(),
        pass.l >= 1,
        pass.total_len >= 1,
        quiet(old(ctx).memory()),
        residual == dense(residual.buffer, matrix(p.n_embd as u64, pass.l as u64)),
        covers(residual),
        ready(old(ctx), residual),
        ready(old(ctx), positions),
        positions.buffer is Scratch,
        positions.buffer != residual.buffer,
        ready_opt(old(ctx), mask),
        mask matches Some(t) ==> t.buffer is Scratch && t.buffer != residual.buffer,
        b.ready(old(ctx)),
        b.apart(),
        !(layer.k.buffer is Scratch) && !(layer.k.buffer is Weights),
        !(layer.v.buffer is Scratch) && !(layer.v.buffer is Weights),
        layer.k.buffer != layer.v.buffer,
        holds_tokens(layer.k, p.head_dim as u64, p.n_head_kv as u64, pass.total_len as u64),
        holds_tokens(layer.v, p.head_dim as u64, p.n_head_kv as u64, pass.total_len as u64),
    ensures
        final(ctx).region == old(ctx).region,
        final(ctx).replay == old(ctx).replay,
        final(ctx).at() >= old(ctx).at(),
        r matches Err(e) ==> e is ScratchExhausted,
        spends(old(ctx), final(ctx), r is Ok, qwen3_layer_bytes(p, pass)),
        r is Ok ==> {
            let m = old(ctx).memory();
            let x = read(m, residual);
            &&& content(final(ctx).memory(), residual.buffer) == qwen3_layer(
                m,
                p,
                *b,
                layer,
                content(m, residual.buffer),
                read(m, positions),
                mask_term(m, mask),
                pass,
            )
            &&& content(final(ctx).memory(), layer.k.buffer) == qwen3_k_cache(
                m,
                p,
                *b,
                layer,
                x,
                read(m, positions),
                pass,
            )
            &&& content(final(ctx).memory(), layer.v.buffer) == qwen3_v_cache(
                m,
                p,
                *b,
                layer,
                x,
                pass,
            )
            &&& quiet(final(ctx).memory())
            &&& undisturbed(
                m,
                final(ctx).memory(),
                old(ctx).at(),
                set![residual.buffer, layer.k.buffer, layer.v.buffer],
            )
        },
{
    record_attention(ctx, p, b, layer, residual, positions, mask, pass)?;
    let ghost m1 = ctx.memory();
    let w = GatedWeights {
        norm: b.ffn_norm,
        gate: b.ffn_gate,
        up: b.ffn_up,
        down: b.ffn_down,
    };
    assert(gated_ready(ctx, w) && ready(ctx, residual));
    record_gated_residual(
        ctx,
        Op::Silu,
        p.rms_eps,
        residual,
        w,
        p.n_embd as u64,
        p.n_ff as u64,
        pass.l as u64,
    )?;
    let ghost m2 = ctx.memory();
    proof {
        let m0 = old(ctx).memory();
        let changed = set![residual.buffer, layer.k.buffer, layer.v.buffer];
        assert(content(m2, layer.k.buffer) == content(m1, layer.k.buffer));
        assert(content(m2, layer.v.buffer) == content(m1, layer.v.buffer));
        assert forall|x: Buffer| !later(x, old(ctx).at()) && !changed.contains(x) implies content(
            ctx.memory(),
            x,
        ) == content(m0, x) && (reserved(m0, x) ==> reserved(ctx.memory(), x)) by {
            assert(content(m1, x) == content(m0, x));
            assert(content(m2, x) == content(m1, x));
        }
    }
    Ok(())
}

/// A layer's weights and cache hold the same in both memories.
pub open spec fn same_layer_inputs<F>(
    a: Memory<F>,
    c: Memory<F>,
    b: Qwen3BlockWeights,
    layer: LayerCache,
) -> bool {
    &&& content(a, b.attn_norm.buffer) == content(c, b.attn_norm.buffer)
    &&& content(a, b.wq.buffer) == content(c, b.wq.buffer)
    &&& content(a, b.attn_q_norm.buffer) == content(c, b.attn_q_norm.buffer)
    &&& content(a, b.attn_k_norm.buffer) == content(c, b.attn_k_norm.buffer)
    &&& content(a, b.wk.buffer) == content(c, b.wk.buffer)
    &&& content(a, b.wv.buffer) == content(c, b.wv.buffer)
    &&& content(a, b.wo.buffer) == content(c, b.wo.buffer)
    &&& content(a, b.ffn_norm.buffer) == content(c, b.ffn_norm.buffer)
    &&& content(a, b.ffn_gate.buffer) == content(c, b.ffn_gate.buffer)
    &&& content(a, b.ffn_up.buffer) == content(c, b.ffn_up.buffer)
    &&& content(a, b.ffn_down.buffer) == content(c, b.ffn_down.buffer)
    &&& content(a, layer.k.buffer) == content(c, layer.k.buffer)
    &&& content(a, layer.v.buffer) == content(c, layer.v.buffer)
}

/// What a layer does depends on memory through its weights and cache alone.
proof fn lemma_same_layer<F: Copy>(
    a: Memory<F>,
    c: Memory<F>,
    p: &Qwen3Params<F>,
    b: Qwen3BlockWeights,
    layer: LayerCache,
    h: Term<F>,
    positions: Term<F>,
    mask: Option<Term<F>>,
    pass: Pass,
)
    requires
        same_layer_inputs(a, c, b, layer),
    ensures
        qwen3_layer(a, p, b, layer, h, positions, mask, pass) == qwen3_layer(
            c,
            p,
            b,
            layer,
            h,
            positions,
            mask,
            pass,
        ),
        forall|x: Term<F>|
            qwen3_k_cache(a, p, b, layer, x, positions, pass) == #[trigger] qwen3_k_cache(
                c,
                p,
                b,
                layer,
                x,
                positions,
                pass,
            ),
        forall|x: Term<F>|
            qwen3_v_cache(a, p, b, layer, x, pass) == #[trigger] qwen3_v_cache(
                c,
                p,
                b,
                layer,
                x,
                pass,
            ),
{
}

impl<F: Copy> Qwen3Model<F> {
    /// The hidden state after the first `n` layers.
    pub open spec fn hidden(&self, m: Memory<F>, cache: &KvCache, inf: Inference<F>, n: int) -> Term<
        F,
    >
        decreases n,
    {
        if n <= 0 {
            embedded(m, self.weights.token_embd, inf.tokens)
        } else {
            qwen3_layer(
                m,
                &self.params,
                self.weights.blocks@[n - 1],
                cache.layer(n - 1),
                self.hidden(m, cache, inf, n - 1),
                words_term(inf.positions),
                mask_value(inf.mask, inf.pass.l as u64),
                inf.pass,
            )
        }
    }

    /// The input of layer `i`, as it reads it.
    pub open spec fn layer_input(&self, m: Memory<F>, cache: &KvCache, inf: Inference<F>, i: int) -> Term<
        F,
    > {
        fresh(
            self.hidden(m, cache, inf, i),
            matrix(self.params.n_embd as u64, inf.pass.l as u64),
        )
    }

    /// Layer `i` of the cache holds what the pass leaves there.
    pub open spec fn layer_cached(
        &self,
        m: Memory<F>,
        after: Memory<F>,
        cache: &KvCache,
        inf: Inference<F>,
        i: int,
    ) -> bool {
        &&& content(after, cache.layer(i).k.buffer) == qwen3_k_cache(
            m,
            &self.params,
            self.weights.blocks@[i],
            cache.layer(i),
            self.layer_input(m, cache, inf, i),
            words_term(inf.positions),
            inf.pass,
        )
        &&& content(after, cache.layer(i).v.buffer) == qwen3_v_cache(
            m,
            &self.params,
            self.weights.blocks@[i],
            cache.layer(i),
            self.layer_input(m, cache, inf, i),
            inf.pass,
        )
    }

    /// All weights can be read, and none lives in scratch or in a cache.
    pub open spec fn ready(&self, ctx: &DispatchContext<F>) -> bool {
        &&& self.params.wf()
        &&& ready(ctx, self.weights.token_embd) && self.weights.token_embd.buffer is Weights
        &&& ready(ctx, self.weights.output_norm) && self.weights.output_norm.buffer is Weights
        &&& self.weights.output matches Some(t) ==> ready(ctx, t) && t.buffer is Weights
        &&& forall|i: int|
            0 <= i < self.weights.blocks@.len() ==> (#[trigger] self.weights.blocks@[i]).ready(ctx)
                && self.weights.blocks@[i].apart()
    }

    /// The output head.
    pub open spec fn head(&self) -> TensorView {
        match self.weights.output {
            Some(t) => t,
            None => self.weights.token_embd,
        }
    }

    /// A pass over one sequence, or over packed texts that each start over at
    /// position zero and see only themselves.
    pub open spec fn inference(
        &self,
        cache: &KvCache,
        tokens: Seq<u32>,
        position: u32,
        texts: Option<Seq<u32>>,
    ) -> Inference<F> {
        let l = tokens.len();
        Inference {
            tokens,
            positions: match texts {
                Some(lens) => restarts(lens, lens.len() as int),
                None => sequential(position as int, l),
            },
            mask: match texts {
                Some(lens) => Some(packed_values(self.mask, lens)),
                None => if l > 1 {
                    Some(causal_values(self.mask, l as int))
                } else {
                    None
                },
            },
            pass: Pass {
                l: l as u32,
                position,
                total_len: (position + l) as u32,
                direct: cache.direct,
            },
        }
    }

    /// How many columns of logits a pass computes.
    pub open spec fn logit_columns(&self, pass: Pass, full_logits: bool) -> u64 {
        if full_logits {
            pass.l as u64
        } else {
            1
        }
    }

    /// Bytes in use after the inputs of a pass, where `used` were before.
    pub open spec fn inputs_end(&self, inf: Inference<F>, used: u64) -> nat {
        let l = inf.pass.l as u64;
        used as nat + prologue_bytes(l, l, inf.mask is Some, self.params.n_embd as u64)
    }

    /// Bytes in use after a pass, where `used` were before.
    pub open spec fn pass_end(
        &self,
        inf: Inference<F>,
        compute_logits: bool,
        full_logits: bool,
        used: u64,
    ) -> nat {
        self.inputs_end(inf, used) + if compute_logits {
            head_bytes(
                self.params.n_embd as u64,
                self.params.n_vocab as u64,
                self.logit_columns(inf.pass, full_logits),
            )
        } else {
            0
        }
    }

    /// A pass fits what `used` bytes leave of the region: its inputs, and behind
    /// them one layer, then the head, at a time.
    pub open spec fn fits(
        &self,
        inf: Inference<F>,
        compute_logits: bool,
        full_logits: bool,
        used: u64,
        room: u64,
    ) -> bool {
        let end = self.inputs_end(inf, used);
        &&& end <= room
        &&& self.weights.blocks@.len() > 0 ==> end + qwen3_layer_bytes(&self.params, inf.pass)
            <= room
        &&& self.pass_end(inf, compute_logits, full_logits, used) <= room
    }

    /// The logits of a pass: the head over every token's hidden state, or over
    /// the last token's alone.
    pub open spec fn logits(
        &self,
        m: Memory<F>,
        cache: &KvCache,
        inf: Inference<F>,
        full_logits: bool,
    ) -> Term<F> {
        let width = self.params.n_embd as u64;
        let h = self.hidden(m, cache, inf, self.weights.blocks@.len() as int);
        let residual = dense(
            Buffer::Scratch { id: 0, bytes: 0 },
            matrix(width, inf.pass.l as u64),
        );
        head_term(
            m,
            self.params.rms_eps,
            if full_logits {
                through(h, residual)
            } else {
                through(h, one_column(residual, width, inf.pass.l - 1))
            },
            self.weights.output_norm,
            self.head(),
            width,
            self.params.n_vocab as u64,
            self.logit_columns(inf.pass, full_logits),
        )
    }

    /// What a pass leaves: the logits on request, every token's hidden state,
    /// and the cache of every layer.
    pub open spec fn passed(
        &self,
        before: &DispatchContext<F>,
        after: &DispatchContext<F>,
        cache: &KvCache,
        inf: Inference<F>,
        compute_logits: bool,
        full_logits: bool,
        logits: Option<TensorView>,
        residual: TensorView,
    ) -> bool {
        let m = before.memory();
        &&& (logits is Some <==> compute_logits)
        &&& logits matches Some(t) ==> ready(after, t) && read(after.memory(), t) == self.logits(
            m,
            cache,
            inf,
            full_logits,
        )
        &&& ready(after, residual)
        &&& read(after.memory(), residual) == fresh(
            self.hidden(m, cache, inf, self.weights.blocks@.len() as int),
            matrix(self.params.n_embd as u64, inf.pass.l as u64),
        )
        &&& forall|i: int|
            0 <= i < self.weights.blocks@.len() ==> #[trigger] self.layer_cached(
                m,
                after.memory(),
                cache,
                inf,
                i,
            )
        &&& undisturbed(m, after.memory(), before.at(), cache_buffers())
        &&& quiet(after.memory())
    }

    /// The cache has a layer, with room, for each layer of the model.
    pub open spec fn cache_ok(&self, cache: &KvCache) -> bool {
        &&& cache.layered(self.weights.blocks@.len() as int)
        &&& forall|i: int|
            0 <= i < self.weights.blocks@.len() ==> #[trigger] cache.roomy(
                i,
                self.params.head_dim as u64,
                self.params.head_dim as u64,
                self.params.n_head_kv as u64,
            )
    }

    /// Record a pass; the hidden state of every token comes back beside the
    /// logits.
    #[verifier::rlimit(30)]
    fn forward_inner(
        &self,
        ctx: &mut DispatchContext<F>,
        cache: &mut KvCache,
        tokens: &[u32],
        position_offset: u32,
        compute_logits: bool,
        full_logits: bool,
        embed_seq_lens: Option<&[u32]>,
    ) -> (r: Result<(Option<TensorView>, TensorView), RecordError>)
        requires
            self.ready(old(ctx)),
            quiet(old(ctx).memory()),
            self.cache_ok(old(cache)),
            has_room(old(cache), position_offset, tokens@.len()),
            tokens@.len() * tokens@.len() <= usize::MAX,
            embed_seq_lens matches Some(lens) ==> lens@.len() <= u32::MAX && total(lens@)
                == tokens@.len(),
        ensures
            final(ctx).region == old(ctx).region,
            final(ctx).replay == old(ctx).replay,
            ({
                let inf = self.inference(
                    old(cache),
                    tokens@,
                    position_offset,
                    match embed_seq_lens {
                        Some(lens) => Some(lens@),
                        None => None,
                    },
                );
                match r {
                    Ok((logits, residual)) => {
                        &&& tokens@.len() > 0
                        &&& old(cache).position == position_offset
                        &&& self.fits(
                            inf,
                            compute_logits,
                            full_logits,
                            old(ctx).used,
                            old(ctx).region,
                        )
                        &&& final(ctx).used == self.pass_end(inf, compute_logits, full_logits, old(ctx).used)
                        &&& self.passed(
                            old(ctx),
                            final(ctx),
                            old(cache),
                            inf,
                            compute_logits,
                            full_logits,
                            logits,
                            residual,
                        )
                        &&& final(cache).position == position_offset + tokens@.len()
                        &&& final(cache).same_but_position(old(cache))
                    },
                    Err(RecordError::EmptyPrompt) => tokens@.len() == 0,
                    Err(RecordError::PositionMismatch { cached, given }) => {
                        &&& tokens@.len() > 0
                        &&& cached == old(cache).position
                        &&& given == position_offset
                        &&& cached != given
                    },
                    Err(RecordError::ScratchExhausted) => {
                        &&& tokens@.len() > 0
                        &&& old(cache).position == position_offset
                        &&& !self.fits(inf, compute_logits, full_logits, old(ctx).used, old(ctx).region)
                    },
                    Err(_) => false,
                }
            }),
            r is Err ==> *final(cache) == *old(cache),
    {
        let n: usize = tokens.len();
        if n == 0 {
            return Err(RecordError::EmptyPrompt);
        }
        if cache.position != position_offset {
            return Err(
                RecordError::PositionMismatch { cached: cache.position, given: position_offset },
            );
        }
        let p = &self.params;
        let l: u32 = n as u32;
        let total_len: u32 = position_offset + l;
        let hidden: u64 = p.n_embd as u64;
        let pass = Pass { l, position: position_offset, total_len, direct: cache.direct };
        let positions: Vec<u32> = match embed_seq_lens {
            Some(lens) => restarting_positions(lens),
            None => sequential_positions(position_offset, l),
        };
        let ghost texts = match embed_seq_lens {
            Some(lens) => Some(lens@),
            None => None,
        };
        let ghost inf = self.inference(cache, tokens@, position_offset, texts);
        let mask: Option<Vec<F>> = match embed_seq_lens {
            Some(lens) => Some(block_diagonal_causal_mask(lens, self.mask)),
            None => if l > 1 {
                Some(causal_mask(n, self.mask))
            } else {
                None
            },
        };
        proof {
            match texts {
                Some(lens) => {
                    lemma_restarts_len(lens, lens.len() as int);
                },
                None => {},
            }
        }
        let mask_data: Option<&[F]> = match &mask {
            Some(data) => Some(data.as_slice()),
            None => None,
        };
        let ghost m0 = ctx.memory();
        let ghost at0 = ctx.at();
        let pro = record_prologue(
            ctx,
            tokens,
            positions.as_slice(),
            mask_data,
            self.weights.token_embd,
            hidden,
        )?;
        let mark: u64 = ctx.scratch_checkpoint();
        let base: u64 = ctx.used;
        assert forall|j: int| 0 <= j < self.weights.blocks@.len() implies #[trigger]
        layer_untouched(m0, ctx.memory(), cache.layer(j)) by {
            assert(cache.layer_named(j));
        }
        let mut i: usize = 0;
        while i < self.weights.blocks.len()
            invariant
                i <= self.weights.blocks@.len(),
                cache.position == position_offset,
                p == &self.params,
                self.params.wf(),
                m0 == old(ctx).memory(),
                at0 == old(ctx).at(),
                self.ready(old(ctx)),
                ctx.region == old(ctx).region,
                ctx.replay == old(ctx).replay,
                *cache == *old(cache),
                cache.layered(self.weights.blocks@.len() as int),
                forall|j: int|
                    0 <= j < self.weights.blocks@.len() ==> #[trigger] cache.roomy(
                        j,
                        self.params.head_dim as u64,
                        self.params.head_dim as u64,
                        self.params.n_head_kv as u64,
                    ),
                1 <= l == tokens@.len(),
                hidden == p.n_embd,
                inf == self.inference(cache, tokens@, position_offset, texts),
                texts == match embed_seq_lens {
                    Some(lens) => Some(lens@),
                    None => None,
                },
                pass == inf.pass,
                total_len <= cache.max_seq_len,
                1 <= total_len == pass.total_len,
                at0 <= mark <= ctx.at(),
                quiet(ctx.memory()),
                4 * hidden * l <= ctx.region,
                base == self.inputs_end(inf, old(ctx).used),
                base <= ctx.region,
                i > 0 ==> base + qwen3_layer_bytes(p, pass) <= ctx.region,
                prologue_done(
                    ctx,
                    at0,
                    pro,
                    hidden,
                    l as u64,
                    inf.positions,
                    inf.mask,
                    self.hidden(m0, cache, inf, i as int),
                ),
                settled(pro.positions, at0, mark as int, pro.residual.buffer),
                pro.mask matches Some(t) ==> settled(t, at0, mark as int, pro.residual.buffer),
                pro.residual.buffer matches Buffer::Scratch { id, bytes: _ } && at0 <= id < mark,
                undisturbed(m0, ctx.memory(), at0, cache_buffers()),
                forall|j: int|
                    0 <= j < i ==> #[trigger] self.layer_cached(m0, ctx.memory(), cache, inf, j),
                forall|j: int|
                    i <= j < self.weights.blocks@.len() ==> #[trigger] layer_untouched(
                        m0,
                        ctx.memory(),
                        cache.layer(j),
                    ),
            decreases self.weights.blocks@.len() - i,
        {
            let ghost m1 = ctx.memory();
            ctx.scratch_restore(mark, base);
            proof {
                lemma_released(m1, mark as int);
            }
            let ghost m2 = ctx.memory();
            let block = &self.weights.blocks[i];
            let layer = cache.layer_views(i);
            proof {
                assert(cache.roomy(
                    i as int,
                    self.params.head_dim as u64,
                    self.params.head_dim as u64,
                    self.params.n_head_kv as u64,
                ));
                lemma_fewer_tokens(
                    layer.k,
                    p.head_dim as u64,
                    p.n_head_kv as u64,
                    cache.max_seq_len as u64,
                    total_len as u64,
                );
                lemma_fewer_tokens(
                    layer.v,
                    p.head_dim as u64,
                    p.n_head_kv as u64,
                    cache.max_seq_len as u64,
                    total_len as u64,
                );
                assert(block.ready(old(ctx)) && block.apart());
                assert(layer_untouched(m0, m1, layer));
                assert(same_layer_inputs(m1, m0, *block, layer));
                assert(same_layer_inputs(m2, m1, *block, layer));
                assert(block.ready(ctx));
                assert(ready(ctx, pro.residual) && ready(ctx, pro.positions) && ready_opt(
                    ctx,
                    pro.mask,
                ));
                lemma_same_layer(
                    m2,
                    m0,
                    p,
                    *block,
                    layer,
                    self.hidden(m0, cache, inf, i as int),
                    words_term(inf.positions),
                    mask_value(inf.mask, l as u64),
                    pass,
                );
            }
            record_layer(
                ctx,
                p,
                block,
                layer,
                pro.residual,
                pro.positions,
                pro.mask,
                pass,
            )?;
            proof {
                let m3 = ctx.memory();
                assert forall|x: Buffer|
                    !later(x, at0) && !cache_buffers().contains(x) implies content(m3, x)
                    == content(m0, x) && (reserved(m0, x) ==> reserved(m3, x)) by {
                    assert(content(m1, x) == content(m0, x));
                    assert(content(m2, x) == content(m1, x));
                }
                assert(ready(ctx, pro.positions) && ready_opt(ctx, pro.mask));
                assert forall|j: int| 0 <= j < i implies #[trigger] self.layer_cached(
                    m0,
                    m3,
                    cache,
                    inf,
                    j,
                ) by {
                    assert(self.layer_cached(m0, m1, cache, inf, j));
                    assert(cache.layer_named(j));
                    assert(content(m2, cache.layer(j).k.buffer) == content(
                        m1,
                        cache.layer(j).k.buffer,
                    ));
                    assert(content(m2, cache.layer(j).v.buffer) == content(
                        m1,
                        cache.layer(j).v.buffer,
                    ));
                }
                assert(self.layer_cached(m0, m3, cache, inf, i as int));
                assert forall|j: int| i < j < self.weights.blocks@.len() implies #[trigger]
                layer_untouched(m0, m3, cache.layer(j)) by {
                    assert(layer_untouched(m0, m1, cache.layer(j)));
                    assert(cache.layer_named(j));
                    assert(content(m2, cache.layer(j).k.buffer) == content(
                        m1,
                        cache.layer(j).k.buffer,
                    ));
                    assert(content(m2, cache.layer(j).v.buffer) == content(
                        m1,
                        cache.layer(j).v.buffer,
                    ));
                }
            }
            i += 1;
        }
        let ghost m4 = ctx.memory();
        ctx.scratch_restore(mark, base);
        proof {
            lemma_released(m4, mark as int);
            let m5 = ctx.memory();
            assert forall|x: Buffer|
                !later(x, at0) && !cache_buffers().contains(x) implies content(m5, x) == content(
                m0,
                x,
            ) && (reserved(m0, x) ==> reserved(m5, x)) by {
                assert(content(m4, x) == content(m0, x));
            }
            assert forall|j: int| 0 <= j < self.weights.blocks@.len() implies #[trigger]
            self.layer_cached(m0, m5, cache, inf, j) by {
                assert(self.layer_cached(m0, m4, cache, inf, j));
                assert(cache.layer_named(j));
            }
            assert(ready(ctx, pro.residual));
        }
        if !compute_logits {
            cache.advance(l);
            return Ok((None, pro.residual));
        }
        let ghost m5 = ctx.memory();
        proof {
            assert((l - 1) * hidden * 4 <= 4 * hidden * l) by (nonlinear_arith)
                requires
                    l >= 1,
            ;
            assert((l - 1) * hidden <= (l - 1) * hidden * 4) by (nonlinear_arith)
                requires
                    l >= 1,
            ;
            assert(hidden * 4 <= 4 * hidden * l) by (nonlinear_arith)
                requires
                    l >= 1,
            ;
            assert(ready(ctx, self.weights.output_norm) && ready(ctx, self.head()));
            assert(content(m5, self.weights.output_norm.buffer) == content(
                m0,
                self.weights.output_norm.buffer,
            ));
            assert(content(m5, self.head().buffer) == content(m0, self.head().buffer));
        }
        let (x, columns): (TensorView, u64) = if full_logits {
            (pro.residual, l as u64)
        } else {
            (last_column(pro.residual, hidden, l as u64 - 1), 1)
        };
        let head = match self.weights.output {
            Some(t) => t,
            None => self.weights.token_embd,
        };
        let logits = record_head(
            ctx,
            p.rms_eps,
            x,
            self.weights.output_norm,
            head,
            hidden,
            p.n_vocab as u64,
            columns,
        )?;
        proof {
            let m6 = ctx.memory();
            assert forall|x: Buffer|
                !later(x, at0) && !cache_buffers().contains(x) implies content(m6, x) == content(
                m0,
                x,
            ) && (reserved(m0, x) ==> reserved(m6, x)) by {
                assert(content(m5, x) == content(m0, x));
            }
            assert forall|j: int| 0 <= j < self.weights.blocks@.len() implies #[trigger]
            self.layer_cached(m0, m6, cache, inf, j) by {
                assert(self.layer_cached(m0, m5, cache, inf, j));
                assert(cache.layer_named(j));
            }
            assert(ready(ctx, pro.residual));
        }
        cache.advance(l);
        Ok((Some(logits), pro.residual))
    }

    /// Record a forward pass of one sequence; the last token's logits are
    /// computed on request only.
    pub fn record_forward(
        &self,
        ctx: &mut DispatchContext<F>,
        cache: &mut KvCache,
        tokens: &[u32],
        position_offset: u32,
        compute_logits: bool,
    ) -> (r: Result<Option<TensorView>, RecordError>)
        requires
            self.ready(old(ctx)),
            quiet(old(ctx).memory()),
            self.cache_ok(old(cache)),
            has_room(old(cache), position_offset, tokens@.len()),
            tokens@.len() * tokens@.len() <= usize::MAX,
        ensures
            final(ctx).region == old(ctx).region,
            final(ctx).replay == old(ctx).replay,
            ({
                let inf = self.inference(old(cache), tokens@, position_offset, None);
                match r {
                    Ok(logits) => {
                        &&& tokens@.len() > 0
                        &&& old(cache).position == position_offset
                        &&& self.fits(
                            inf,
                            compute_logits,
                            false,
                            old(ctx).used,
                            old(ctx).region,
                        )
                        &&& final(ctx).used == self.pass_end(inf, compute_logits, false, old(ctx).used)
                        &&& exists|residual: TensorView| #[trigger]
                            self.passed(
                                old(ctx),
                                final(ctx),
                                old(cache),
                                inf,
                                compute_logits,
                                false,
                                logits,
                                residual,
                            )
                        &&& final(cache).position == position_offset + tokens@.len()
                        &&& final(cache).same_but_position(old(cache))
                    },
                    Err(RecordError::EmptyPrompt) => tokens@.len() == 0,
                    Err(RecordError::PositionMismatch { cached, given }) => {
                        &&& tokens@.len() > 0
                        &&& cached == old(cache).position
                        &&& given == position_offset
                        &&& cached != given
                    },
                    Err(RecordError::ScratchExhausted) => {
                        &&& tokens@.len() > 0
                        &&& old(cache).position == position_offset
                        &&& !self.fits(inf, compute_logits, false, old(ctx).used, old(ctx).region)
                    },
                    Err(_) => false,
                }
            }),
            r is Err ==> *final(cache) == *old(cache),
    {
        let (logits, _residual) = self.forward_inner(
            ctx,
            cache,
            tokens,
            position_offset,
            compute_logits,
            false,
            None,
        )?;
        Ok(logits)
    }

    /// Record a forward pass of one sequence with the logits of the last token
    /// or of every token, and every token's hidden state.
    pub fn record_forward_full(
        &self,
        ctx: &mut DispatchContext<F>,
        cache: &mut KvCache,
        tokens: &[u32],
        position_offset: u32,
        full_logits: bool,
        _checkpoint: bool,
    ) -> (r: Result<ForwardFullOut, RecordError>)
        requires
            self.ready(old(ctx)),
            quiet(old(ctx).memory()),
            self.cache_ok(old(cache)),
            has_room(old(cache), position_offset, tokens@.len()),
            tokens@.len() * tokens@.len() <= usize::MAX,
        ensures
            final(ctx).region == old(ctx).region,
            final(ctx).replay == old(ctx).replay,
            ({
                let inf = self.inference(old(cache), tokens@, position_offset, None);
                match r {
                    Ok(out) => {
                        &&& tokens@.len() > 0
                        &&& old(cache).position == position_offset
                        &&& self.fits(
                            inf,
                            true,
                            full_logits,
                            old(ctx).used,
                            old(ctx).region,
                        )
                        &&& final(ctx).used == self.pass_end(inf, true, full_logits, old(ctx).used)
                        &&& self.passed(
                            old(ctx),
                            final(ctx),
                            old(cache),
                            inf,
                            true,
                            full_logits,
                            out.logits,
                            out.residual,
                        )
                        &&& final(cache).position == position_offset + tokens@.len()
                        &&& final(cache).same_but_position(old(cache))
                    },
                    Err(RecordError::EmptyPrompt) => tokens@.len() == 0,
                    Err(RecordError::PositionMismatch { cached, given }) => {
                        &&& tokens@.len() > 0
                        &&& cached == old(cache).position
                        &&& given == position_offset
                        &&& cached != given
                    },
                    Err(RecordError::ScratchExhausted) => {
                        &&& tokens@.len() > 0
                        &&& old(cache).position == position_offset
                        &&& !self.fits(inf, true, full_logits, old(ctx).used, old(ctx).region)
                    },
                    Err(_) => false,
                }
            }),
            r is Err ==> *final(cache) == *old(cache),
    {
        let (logits, residual) = self.forward_inner(
            ctx,
            cache,
            tokens,
            position_offset,
            true,
            full_logits,
            None,
        )?;
        Ok(ForwardFullOut { logits, residual })
    }

    /// Record an embedding pass over packed texts, text `s` of `seq_lens[s]`
    /// tokens: each starts over at position zero and sees only itself. The
    /// result holds every token's hidden state.
    pub fn record_forward_embed_batch(
        &self,
        ctx: &mut DispatchContext<F>,
        cache: &mut KvCache,
        tokens: &[u32],
        seq_lens: &[u32],
    ) -> (r: Result<TensorView, RecordError>)
        requires
            self.ready(old(ctx)),
            quiet(old(ctx).memory()),
            self.cache_ok(old(cache)),
            tokens@.len() <= old(cache).max_seq_len,
            tokens@.len() * tokens@.len() <= usize::MAX,
            seq_lens@.len() <= u32::MAX,
        ensures
            final(ctx).region == old(ctx).region,
            final(ctx).replay == old(ctx).replay,
            ({
                let inf = self.inference(old(cache), tokens@, 0, Some(seq_lens@));
                let shaped = seq_lens@.len() > 0 && tokens@.len() > 0 && total(seq_lens@)
                    == tokens@.len();
                match r {
                    Ok(residual) => {
                        &&& shaped
                        &&& old(cache).position == 0
                        &&& self.fits(
                            inf,
                            false,
                            false,
                            old(ctx).used,
                            old(ctx).region,
                        )
                        &&& final(ctx).used == self.pass_end(inf, false, false, old(ctx).used)
                        &&& self.passed(
                            old(ctx),
                            final(ctx),
                            old(cache),
                            inf,
                            false,
                            false,
                            None,
                            residual,
                        )
                        &&& final(cache).position == tokens@.len()
                        &&& final(cache).same_but_position(old(cache))
                    },
                    Err(RecordError::EmptyBatch) => seq_lens@.len() == 0 || tokens@.len() == 0,
                    Err(RecordError::LengthSum) => {
                        &&& seq_lens@.len() > 0 && tokens@.len() > 0
                        &&& total(seq_lens@) != tokens@.len()
                    },
                    Err(RecordError::PositionMismatch { cached, given }) => {
                        &&& shaped
                        &&& cached == old(cache).position
                        &&& given == 0
                        &&& cached != 0
                    },
                    Err(RecordError::ScratchExhausted) => {
                        &&& shaped
                        &&& old(cache).position == 0
                        &&& !self.fits(inf, false, false, old(ctx).used, old(ctx).region)
                    },
                    Err(_) => false,
                }
            }),
            r is Err ==> *final(cache) == *old(cache),
    {
        if seq_lens.len() == 0 || tokens.len() == 0 {
            return Err(RecordError::EmptyBatch);
        }
        if sum_lens(seq_lens) != tokens.len() as u64 {
            return Err(RecordError::LengthSum);
        }
        let (_logits, residual) = self.forward_inner(
            ctx,
            cache,
            tokens,
            0,
            false,
            false,
            Some(seq_lens),
        )?;
        Ok(residual)
    }
}

/// Positions of packed texts, each from zero on, up to text `n`.
pub open spec fn restarts(lens: Seq<u32>, n: int) -> Seq<u32>
    decreases n,
{
    if n <= 0 {
        seq![]
    } else {
        restarts(lens, n - 1) + sequential(0, lens[n - 1] as nat)
    }
}

/// There is a position for every token.
proof fn lemma_restarts_len(lens: Seq<u32>, n: int)
    requires
        0 <= n <= lens.len(),
    ensures
        restarts(lens, n).len() == start_of(lens, n),
    decreases n,
{
    if n > 0 {
        lemma_restarts_len(lens, n - 1);
    }
}

/// In a packed batch, token `t` of text `s` has position `t`.
pub proof fn law_texts_start_over(lens: Seq<u32>, s: int, t: int)
    requires
        0 <= s < lens.len(),
        0 <= t < lens[s],
    ensures
        0 <= start_of(lens, s) + t < restarts(lens, lens.len() as int).len(),
        restarts(lens, lens.len() as int)[start_of(lens, s) + t] == t,
{
    lemma_restart_at(lens, lens.len() as int, s, t);
}

/// Token `t` of text `s` has position `t` among the first `n` texts.
proof fn lemma_restart_at(lens: Seq<u32>, n: int, s: int, t: int)
    requires
        0 <= s < n <= lens.len(),
        0 <= t < lens[s],
    ensures
        0 <= start_of(lens, s) + t < restarts(lens, n).len(),
        restarts(lens, n)[start_of(lens, s) + t] == t,
    decreases n,
{
    lemma_starts(lens, 0, s);
    lemma_restarts_len(lens, n);
    lemma_restarts_len(lens, n - 1);
    if s < n - 1 {
        lemma_restart_at(lens, n - 1, s, t);
    }
}

/// Positions of packed texts, each from zero on.
fn restarting_positions(lens: &[u32]) -> (r: Vec<u32>)
    ensures
        r@ == restarts(lens@, lens@.len() as int),
{
    let mut out: Vec<u32> = Vec::new();
    let mut s: usize = 0;
    while s < lens.len()
        invariant
            s <= lens@.len(),
            out@ == restarts(lens@, s as int),
        decreases lens@.len() - s,
    {
        let ghost before = out@;
        let mut t: u32 = 0;
        assert(out@ =~= before + sequential(0, 0));
        while t < lens[s]
            invariant
                s < lens@.len(),
                t <= lens@[s as int],
                out@ == before + sequential(0, t as nat),
            decreases lens@[s as int] - t,
        {
            out.push(t);
            assert(out@ =~= before + sequential(0, (t + 1) as nat));
            t += 1;
        }
        s += 1;
    }
    out
}

} // verus!
