//! The LLaMA architecture.
use vstd::prelude::*;

use crate::models::blocks::{
    alloc_headed, attended, cached, cached_bytes, embedded, gated_bytes, gated_ready, gated_term,
    head_bytes, head_term, holds_tokens, lemma_heads_within, lemma_released, mask_value, projected,
    projection_bytes, projection_ready, prologue_bytes, prologue_done, ready, ready_opt,
    record_cached, record_gated_residual, record_head, record_projections, record_prologue,
    sequential, sequential_positions, settled, undisturbed, words_term, GatedWeights, LayerCache,
    ProjectionWeights,
};
use crate::models::cache::{has_room, lemma_fewer_tokens, KvCache};
use crate::models::masks::{causal_mask, causal_values, MaskValues};
use crate::models::recorder::{
    content, fresh, later, op1, op2, op3_opt, quiet, read, reserved, spends, through,
    DispatchContext, Fence, FlashAttnParams, Memory, Op, RecordError, RopeParams, Term,
};
use crate::models::tensor::{
    attn_view, dense, headed, heads_view, is_turbo, last_column, matrix, one_column,
    permute_to_attn, reshape_for_rope, size, turbo, Buffer, TensorView,
};

verus! {

/// Architecture parameters. `F` is the number type of the device constants.
#[derive(Clone)]
pub struct LlamaParams<F> {
    pub n_layer: u32,
    pub n_head: u32,
    pub n_head_kv: u32,
    pub n_embd: u32,
    pub n_ff: u32,
    pub n_vocab: u32,
    pub n_ctx_train: u32,
    pub rope_dim: u32,
    pub rope_freq_base: F,
    pub rms_eps: F,
    /// One over the square root of the head width.
    pub attn_scale: F,
}

impl<F: Copy> LlamaParams<F> {
    /// Heads divide the width, and the key width is a 32-bit number.
    pub open spec fn wf(&self) -> bool {
        &&& self.n_head > 0
        &&& self.n_head_kv > 0
        &&& (self.n_embd / self.n_head) * self.n_head_kv <= u32::MAX
    }

    /// Width of a head.
    pub open spec fn head(&self) -> u32 {
        self.n_embd / self.n_head
    }

    /// Width of all key heads.
    pub open spec fn kv_width(&self) -> u32 {
        (self.head() * self.n_head_kv) as u32
    }

    /// Width of a head.
    pub fn head_dim(&self) -> (r: u32)
        requires
            self.n_head > 0,
        ensures
            r == self.head(),
    {
        self.n_embd / self.n_head
    }

    /// Width of all key heads.
    pub fn n_embd_kv(&self) -> (r: u32)
        requires
            self.wf(),
        ensures
            r == self.head() * self.n_head_kv,
            r == self.kv_width(),
    {
        self.head_dim() * self.n_head_kv
    }

    /// How many query heads share a key head, at least one.
    pub open spec fn gqa(&self) -> u32 {
        if self.n_head / self.n_head_kv >= 1 {
            self.n_head / self.n_head_kv
        } else {
            1
        }
    }

    /// Rotary parameters.
    pub open spec fn rope(&self) -> RopeParams<F> {
        RopeParams { dim: self.rope_dim, freq_base: self.rope_freq_base }
    }

    /// Attention parameters.
    pub open spec fn attn(&self) -> FlashAttnParams<F> {
        FlashAttnParams {
            head_dim_k: self.head(),
            head_dim_v: self.head(),
            gqa_ratio: self.gqa(),
            scale: self.attn_scale,
            swa_window: 0,
        }
    }

    /// Rotary parameters.
    pub fn rope_params(&self) -> (r: RopeParams<F>)
        ensures
            r == self.rope(),
    {
        RopeParams { dim: self.rope_dim, freq_base: self.rope_freq_base }
    }

    /// Attention parameters.
    pub fn attn_params(&self) -> (r: FlashAttnParams<F>)
        requires
            self.wf(),
        ensures
            r == self.attn(),
    {
        let ratio: u32 = self.n_head / self.n_head_kv;
        FlashAttnParams {
            head_dim_k: self.head_dim(),
            head_dim_v: self.head_dim(),
            gqa_ratio: if ratio >= 1 {
                ratio
            } else {
                1
            },
            scale: self.attn_scale,
            swa_window: 0,
        }
    }
}

/// Weights of one layer.
#[derive(Clone, Copy)]
pub struct LlamaBlockWeights {
    pub attn_norm: TensorView,
    pub wq: TensorView,
    pub wk: TensorView,
    pub wv: TensorView,
    pub wo: TensorView,
    pub ffn_norm: TensorView,
    pub ffn_gate: TensorView,
    pub ffn_up: TensorView,
    pub ffn_down: TensorView,
}

impl LlamaBlockWeights {
    /// The projection weights.
    pub open spec fn projections(&self) -> ProjectionWeights {
        ProjectionWeights { norm: self.attn_norm, wq: self.wq, wk: self.wk, wv: self.wv }
    }

    /// The feed-forward weights.
    pub open spec fn gated(&self) -> GatedWeights {
        GatedWeights {
            norm: self.ffn_norm,
            gate: self.ffn_gate,
            up: self.ffn_up,
            down: self.ffn_down,
        }
    }

    /// All weights can be read.
    pub open spec fn ready<F: Copy>(&self, ctx: &DispatchContext<F>) -> bool {
        projection_ready(ctx, self.projections()) && ready(ctx, self.wo) && gated_ready(
            ctx,
            self.gated(),
        )
    }

    /// No weight lives in scratch or in a cache.
    pub open spec fn apart(&self) -> bool {
        &&& self.attn_norm.buffer is Weights
        &&& self.wq.buffer is Weights
        &&& self.wk.buffer is Weights
        &&& self.wv.buffer is Weights
        &&& self.wo.buffer is Weights
        &&& self.ffn_norm.buffer is Weights
        &&& self.ffn_gate.buffer is Weights
        &&& self.ffn_up.buffer is Weights
        &&& self.ffn_down.buffer is Weights
    }
}

/// All weights.
pub struct LlamaWeights {
    pub token_embd: TensorView,
    pub blocks: Vec<LlamaBlockWeights>,
    pub output_norm: TensorView,
    /// Absent where the head shares the token embedding.
    pub output: Option<TensorView>,
}

/// A model.
pub struct LlamaModel<F> {
    pub params: LlamaParams<F>,
    pub weights: LlamaWeights,
    pub mask: MaskValues<F>,
}

/// One pass: how many tokens, from which position, over how long a context.
#[derive(Clone, Copy)]
pub struct Pass {
    pub l: u32,
    pub position: u32,
    pub total_len: u32,
    pub direct: bool,
}

/// A projection read per head.
pub open spec fn per_head<F>(value: Term<F>, width: u64, head_dim: u64, heads: u64, l: u64) -> Term<
    F,
> {
    through(
        value,
        heads_view(dense(Buffer::Scratch { id: 0, bytes: 0 }, matrix(width, l)), head_dim, heads, l),
    )
}

/// Heads read as attention wants them.
pub open spec fn for_attn<F>(value: Term<F>, head_dim: u64, heads: u64, l: u64) -> Term<F> {
    through(
        value,
        attn_view(
            dense(Buffer::Scratch { id: 0, bytes: 0 }, headed(head_dim, heads, l)),
            head_dim,
            l,
            heads,
        ),
    )
}

/// The queries of a layer, rotated.
pub open spec fn llama_q<F: Copy>(
    m: Memory<F>,
    p: &LlamaParams<F>,
    b: LlamaBlockWeights,
    x: Term<F>,
    positions: Term<F>,
    l: u64,
) -> Term<F> {
    op2(
        Op::Rope { params: p.rope() },
        per_head(
            projected(m, p.rms_eps, x, b.attn_norm, b.wq, p.n_embd as u64, l),
            p.n_embd as u64,
            p.head() as u64,
            p.n_head as u64,
            l,
        ),
        positions,
    )
}

/// The keys of a layer, rotated.
pub open spec fn llama_k<F: Copy>(
    m: Memory<F>,
    p: &LlamaParams<F>,
    b: LlamaBlockWeights,
    x: Term<F>,
    positions: Term<F>,
    l: u64,
) -> Term<F> {
    op2(
        Op::Rope { params: p.rope() },
        per_head(
            projected(m, p.rms_eps, x, b.attn_norm, b.wk, p.n_embd as u64, l),
            p.kv_width() as u64,
            p.head() as u64,
            p.n_head_kv as u64,
            l,
        ),
        positions,
    )
}

/// The key cache of a layer after the pass.
pub open spec fn llama_k_cache<F: Copy>(
    m: Memory<F>,
    p: &LlamaParams<F>,
    b: LlamaBlockWeights,
    layer: LayerCache,
    x: Term<F>,
    positions: Term<F>,
    pass: Pass,
) -> Term<F> {
    cached(
        m,
        layer.k,
        pass.position,
        fresh(
            llama_k(m, p, b, x, positions, pass.l as u64),
            headed(p.head() as u64, p.n_head_kv as u64, pass.l as u64),
        ),
    )
}

/// The value cache of a layer after the pass.
pub open spec fn llama_v_cache<F: Copy>(
    m: Memory<F>,
    p: &LlamaParams<F>,
    b: LlamaBlockWeights,
    layer: LayerCache,
    x: Term<F>,
    pass: Pass,
) -> Term<F> {
    cached(
        m,
        layer.v,
        pass.position,
        per_head(
            projected(m, p.rms_eps, x, b.attn_norm, b.wv, p.n_embd as u64, pass.l as u64),
            p.kv_width() as u64,
            p.head() as u64,
            p.n_head_kv as u64,
            pass.l as u64,
        ),
    )
}

/// Attention of a layer over its cache, before the output projection. A rotated
/// key type takes rotated queries; a rotated value type gives a rotated result,
/// which is rotated back.
pub open spec fn llama_attention<F: Copy>(
    m: Memory<F>,
    p: &LlamaParams<F>,
    b: LlamaBlockWeights,
    layer: LayerCache,
    x: Term<F>,
    positions: Term<F>,
    mask: Option<Term<F>>,
    pass: Pass,
) -> Term<F> {
    let l = pass.l as u64;
    let heads = headed(p.head() as u64, p.n_head as u64, l);
    let q = llama_q(m, p, b, x, positions, l);
    let q_used = if turbo(layer.k.dtype) {
        op1(Op::Wht { forward: true }, fresh(q, heads))
    } else {
        q
    };
    let out = op3_opt(
        Op::FlashAttn { params: p.attn(), kv_len: pass.total_len },
        for_attn(q_used, p.head() as u64, p.n_head as u64, l),
        attended(
            llama_k_cache(m, p, b, layer, x, positions, pass),
            layer.k,
            p.head() as u64,
            p.n_head_kv as u64,
            pass.total_len as u64,
            pass.direct,
        ),
        attended(
            llama_v_cache(m, p, b, layer, x, pass),
            layer.v,
            p.head() as u64,
            p.n_head_kv as u64,
            pass.total_len as u64,
            pass.direct,
        ),
        mask,
    );
    if turbo(layer.v.dtype) {
        op1(Op::Wht { forward: false }, fresh(out, matrix(p.n_embd as u64, l)))
    } else {
        out
    }
}

/// The hidden state after the attention half of a layer: `h` plus the projected
/// attention.
pub open spec fn llama_attended<F: Copy>(
    m: Memory<F>,
    p: &LlamaParams<F>,
    b: LlamaBlockWeights,
    layer: LayerCache,
    h: Term<F>,
    positions: Term<F>,
    mask: Option<Term<F>>,
    pass: Pass,
) -> Term<F> {
    let cols = matrix(p.n_embd as u64, pass.l as u64);
    op2(
        Op::Add,
        fresh(h, cols),
        fresh(
            op2(
                Op::MatMul,
                read(m, b.wo),
                fresh(
                    llama_attention(m, p, b, layer, fresh(h, cols), positions, mask, pass),
                    cols,
                ),
            ),
            cols,
        ),
    )
}

/// The hidden state after a layer.
pub open spec fn llama_layer<F: Copy>(
    m: Memory<F>,
    p: &LlamaParams<F>,
    b: LlamaBlockWeights,
    layer: LayerCache,
    h: Term<F>,
    positions: Term<F>,
    mask: Option<Term<F>>,
    pass: Pass,
) -> Term<F> {
    let cols = matrix(p.n_embd as u64, pass.l as u64);
    let mid = llama_attended(m, p, b, layer, h, positions, mask, pass);
    op2(
        Op::Add,
        fresh(mid, cols),
        gated_term(
            m,
            Op::Silu,
            p.rms_eps,
            fresh(mid, cols),
            b.gated(),
            p.n_embd as u64,
            p.n_ff as u64,
            pass.l as u64,
        ),
    )
}

/// The optional mask's value.
pub open spec fn mask_term<F>(m: Memory<F>, mask: Option<TensorView>) -> Option<Term<F>> {
    match mask {
        Some(t) => Some(read(m, t)),
        None => None,
    }
}

/// What an attention pass needs of scratch.
pub open spec fn llama_attn_fits<F: Copy>(p: &LlamaParams<F>, pass: Pass, room: u64) -> bool {
    &&& 4 * (p.n_embd as u64) * (pass.l as u64) <= room
    &&& 4 * (p.kv_width() as u64) * (pass.l as u64) <= room
    &&& pass.direct || 4 * (p.head() as u64) * (p.n_head_kv as u64) * (pass.total_len as u64)
        <= room
}

/// Scratch that the attention half of a layer takes.
pub open spec fn llama_attn_bytes<F: Copy>(
    p: &LlamaParams<F>,
    layer: LayerCache,
    pass: Pass,
) -> nat {
    let l = pass.l as u64;
    let hidden = p.n_embd as u64;
    let kv = p.kv_width() as u64;
    let head = p.head() as u64;
    let n_kv = p.n_head_kv as u64;
    let turned = size(headed(head, p.n_head as u64, l));
    projection_bytes(hidden, hidden, kv, kv, l) + turned + size(headed(head, n_kv, l))
        + cached_bytes(head, head, n_kv, pass.total_len as u64, pass.direct) + if turbo(
        layer.k.dtype,
    ) {
        turned
    } else {
        0
    } + if turbo(layer.v.dtype) {
        3 * size(matrix(hidden, l))
    } else {
        2 * size(matrix(hidden, l))
    }
}

/// Scratch that a layer takes.
pub open spec fn llama_layer_bytes<F: Copy>(
    p: &LlamaParams<F>,
    layer: LayerCache,
    pass: Pass,
) -> nat {
    llama_attn_bytes(p, layer, pass) + gated_bytes(
        p.n_embd as u64,
        p.n_ff as u64,
        pass.l as u64,
    )
}

/// Record the attention half of a layer.
#[verifier::spinoff_prover]
#[verifier::rlimit(40)]
pub fn record_attention<F: Copy>(
    ctx: &mut DispatchContext<F>,
    p: &LlamaParams<F>,
    b: &LlamaBlockWeights,
    layer: LayerCache,
    residual: TensorView,
    positions: TensorView,
    mask: Option<TensorView>,
    pass: Pass,
) -> (r: Result<(), RecordError>)
    requires
        p.wf(),
        pass.l >= 1,
        pass.total_len >= 1,
        quiet(old(ctx).memory()),
        residual == dense(residual.buffer, matrix(p.n_embd as u64, pass.l as u64)),
        crate::models::tensor::covers(residual),
        ready(old(ctx), residual),
        ready(old(ctx), positions),
        positions.buffer is Scratch,
        positions.buffer != residual.buffer,
        ready_opt(old(ctx), mask),
        mask matches Some(t) ==> t.buffer is Scratch && t.buffer != residual.buffer,
        b.ready(old(ctx)),
        b.apart(),
        !(layer.k.buffer is Scratch) && !(layer.k.buffer is Weights),
        !(layer.v.buffer is Scratch) && !(layer.v.buffer is Weights),
        layer.k.buffer != layer.v.buffer,
        holds_tokens(layer.k, p.head() as u64, p.n_head_kv as u64, pass.total_len as u64),
        holds_tokens(layer.v, p.head() as u64, p.n_head_kv as u64, pass.total_len as u64),
    ensures
        final(ctx).region == old(ctx).region,
        final(ctx).replay == old(ctx).replay,
        final(ctx).at() >= old(ctx).at(),
        r matches Err(e) ==> e is ScratchExhausted,
        spends(old(ctx), final(ctx), r is Ok, llama_attn_bytes(p, layer, pass)),
        r is Ok ==> llama_attn_fits(p, pass, old(ctx).region),
        r is Ok ==> {
            let m = old(ctx).memory();
            let x = read(m, residual);
            &&& content(final(ctx).memory(), residual.buffer) == llama_attended(
                m,
                p,
                *b,
                layer,
                content(m, residual.buffer),
                read(m, positions),
                mask_term(m, mask),
                pass,
            )
            &&& content(final(ctx).memory(), layer.k.buffer) == llama_k_cache(
                m,
                p,
                *b,
                layer,
                x,
                read(m, positions),
                pass,
            )
            &&& content(final(ctx).memory(), layer.v.buffer) == llama_v_cache(
                m,
                p,
                *b,
                layer,
                x,
                pass,
            )
            &&& quiet(final(ctx).memory())
            &&& undisturbed(
                m,
                final(ctx).memory(),
                old(ctx).at(),
                set![residual.buffer, layer.k.buffer, layer.v.buffer],
            )
        },
{
    let hidden: u64 = p.n_embd as u64;
    let head_dim: u64 = p.head_dim() as u64;
    let n_head: u64 = p.n_head as u64;
    let n_head_kv: u64 = p.n_head_kv as u64;
    let kv: u64 = p.n_embd_kv() as u64;
    let l: u64 = pass.l as u64;
    proof {
        assert(head_dim * n_head <= hidden) by (nonlinear_arith)
            requires
                head_dim == hidden / n_head,
                n_head > 0,
        ;
    }
    let (q, k, v) = record_projections(
        ctx,
        p.rms_eps,
        residual,
        ProjectionWeights { norm: b.attn_norm, wq: b.wq, wk: b.wk, wv: b.wv },
        hidden,
        hidden,
        kv,
        kv,
        l,
    )?;
    let ghost m1 = ctx.memory();
    proof {
        assert(ready(ctx, positions) && ready(ctx, residual) && ready_opt(ctx, mask) && ready(
            ctx,
            b.wo,
        ));
        assert(content(ctx.memory(), layer.k.buffer) == content(old(ctx).memory(), layer.k.buffer));
        assert(content(ctx.memory(), layer.v.buffer) == content(old(ctx).memory(), layer.v.buffer));
        lemma_heads_within(head_dim, n_head, hidden, l, ctx.region);
        lemma_heads_within(head_dim, n_head_kv, kv, l, ctx.region);
    }
    let q_view = reshape_for_rope(q, head_dim, n_head, l);
    let k_view = reshape_for_rope(k, head_dim, n_head_kv, l);
    let q_roped = alloc_headed(ctx, head_dim, n_head, l)?;
    let k_roped = alloc_headed(ctx, head_dim, n_head_kv, l)?;
    ctx.apply2(Op::Rope { params: p.rope_params() }, q_view, positions, q_roped, Fence::No);
    ctx.apply2(Op::Rope { params: p.rope_params() }, k_view, positions, k_roped, Fence::No);
    ctx.barrier2(q_roped, k_roped);
    let k_natural = reshape_for_rope(k_roped, head_dim, n_head_kv, l);
    let v_natural = reshape_for_rope(v, head_dim, n_head_kv, l);
    let ghost m2 = ctx.memory();
    let (k_src, v_src) = record_cached(
        ctx,
        k_natural,
        v_natural,
        layer,
        pass.position,
        pass.total_len,
        head_dim,
        head_dim,
        n_head_kv,
        pass.direct,
    )?;
    let ghost m3 = ctx.memory();
    assert(ready(ctx, q_roped) && ready(ctx, residual) && ready_opt(ctx, mask) && ready(ctx, b.wo));
    let q_used = if is_turbo(layer.k.dtype) {
        let rotated = alloc_headed(ctx, head_dim, n_head, l)?;
        ctx.apply1(Op::Wht { forward: true }, q_roped, rotated, Fence::Own);
        rotated
    } else {
        q_roped
    };
    let q_perm = permute_to_attn(q_used, head_dim, l, n_head);
    let out = ctx.alloc_matrix(hidden, l)?;
    ctx.apply3_opt(
        Op::FlashAttn { params: p.attn_params(), kv_len: pass.total_len },
        q_perm,
        k_src,
        v_src,
        mask,
        out,
        Fence::Own,
    );
    let attn_out = if is_turbo(layer.v.dtype) {
        let back = ctx.alloc_matrix(hidden, l)?;
        ctx.apply1(Op::Wht { forward: false }, out, back, Fence::Own);
        back
    } else {
        out
    };
    let proj = ctx.alloc_matrix(hidden, l)?;
    ctx.apply2(Op::MatMul, b.wo, attn_out, proj, Fence::Own);
    ctx.apply2(Op::Add, residual, proj, residual, Fence::Own);
    proof {
        let m0 = old(ctx).memory();
        let changed = set![residual.buffer, layer.k.buffer, layer.v.buffer];
        assert forall|x: Buffer| !later(x, old(ctx).at()) && !changed.contains(x) implies content(
            ctx.memory(),
            x,
        ) == content(m0, x) && (reserved(m0, x) ==> reserved(ctx.memory(), x)) by {
            assert(content(m1, x) == content(m0, x));
            assert(content(m3, x) == content(m2, x));
        }
    }
    Ok(())
}

/// Record a layer.
pub fn record_layer<F: Copy>(
    ctx: &mut DispatchContext<F>,
    p: &LlamaParams<F>,
    b: &LlamaBlockWeights,
    layer: LayerCache,
    residual: TensorView,
    positions: TensorView,
    mask: Option<TensorView>,
    pass: Pass,
) -> (r: Result<(), RecordError>)
    requires
        p.wf(),
        pass.l >= 1,
        pass.total_len >= 1,
        quiet(old(ctx).memory()),
        residual == dense(residual.buffer, matrix(p.n_embd as u64, pass.l as u64)),
        crate::models::tensor::covers(residual),
        ready(old(ctx), residual),
        ready(old(ctx), positions),
        positions.buffer is Scratch,
        positions.buffer != residual.buffer,
        ready_opt(old(ctx), mask),
        mask matches Some(t) ==> t.buffer is Scratch && t.buffer != residual.buffer,
        b.ready(old(ctx)),
        b.apart(),
        !(layer.k.buffer is Scratch) && !(layer.k.buffer is Weights),
        !(layer.v.buffer is Scratch) && !(layer.v.buffer is Weights),
        layer.k.buffer != layer.v.buffer,
        holds_tokens(layer.k, p.head() as u64, p.n_head_kv as u64, pass.total_len as u64),
        holds_tokens(layer.v, p.head() as u64, p.n_head_kv as u64, pass.total_len as u64),
    ensures
        final(ctx).region == old(ctx).region,
        final(ctx).replay == old(ctx).replay,
        final(ctx).at() >= old(ctx).at(),
        r matches Err(e) ==> e is ScratchExhausted,
        spends(old(ctx), final(ctx), r is Ok, llama_layer_bytes(p, layer, pass)),
        r is Ok ==> {
            let m = old(ctx).memory();
            let x = read(m, residual);
            &&& content(final(ctx).memory(), residual.buffer) == llama_layer(
                m,
                p,
                *b,
                layer,
                content(m, residual.buffer),
                read(m, positions),
                mask_term(m, mask),
                pass,
            )
            &&& content(final(ctx).memory(), layer.k.buffer) == llama_k_cache(
                m,
                p,
                *b,
                layer,
                x,
                read(m, positions),
                pass,
            )
            &&& content(final(ctx).memory(), layer.v.buffer) == llama_v_cache(
                m,
                p,
                *b,
                layer,
                x,
                pass,
            )
            &&& quiet(final(ctx).memory())
            &&& undisturbed(
                m,
                final(ctx).memory(),
                old(ctx).at(),
                set![residual.buffer, layer.k.buffer, layer.v.buffer],
            )
        },
{
    record_attention(ctx, p, b, layer, residual, positions, mask, pass)?;
    let ghost m1 = ctx.memory();
    let w = GatedWeights {
        norm: b.ffn_norm,
        gate: b.ffn_gate,
        up: b.ffn_up,
        down: b.ffn_down,
    };
    assert(gated_ready(ctx, w) && ready(ctx, residual));
    record_gated_residual(
        ctx,
        Op::Silu,
        p.rms_eps,
        residual,
        w,
        p.n_embd as u64,
        p.n_ff as u64,
        pass.l as u64,
    )?;
    let ghost m2 = ctx.memory();
    proof {
        let m0 = old(ctx).memory();
        let changed = set![residual.buffer, layer.k.buffer, layer.v.buffer];
        assert(content(m2, layer.k.buffer) == content(m1, layer.k.buffer));
        assert(content(m2, layer.v.buffer) == content(m1, layer.v.buffer));
        assert forall|x: Buffer| !later(x, old(ctx).at()) && !changed.contains(x) implies content(
            ctx.memory(),
            x,
        ) == content(m0, x) && (reserved(m0, x) ==> reserved(ctx.memory(), x)) by {
            assert(content(m1, x) == content(m0, x));
            assert(content(m2, x) == content(m1, x));
        }
    }
    Ok(())
}

/// A layer's weights and cache hold the same in both memories.
pub open spec fn same_layer_inputs<F>(
    a: Memory<F>,
    c: Memory<F>,
    b: LlamaBlockWeights,
    layer: LayerCache,
) -> bool {
    &&& content(a, b.attn_norm.buffer) == content(c, b.attn_norm.buffer)
    &&& content(a, b.wq.buffer) == content(c, b.wq.buffer)
    &&& content(a, b.wk.buffer) == content(c, b.wk.buffer)
    &&& content(a, b.wv.buffer) == content(c, b.wv.buffer)
    &&& content(a, b.wo.buffer) == content(c, b.wo.buffer)
    &&& content(a, b.ffn_norm.buffer) == content(c, b.ffn_norm.buffer)
    &&& content(a, b.ffn_gate.buffer) == content(c, b.ffn_gate.buffer)
    &&& content(a, b.ffn_up.buffer) == content(c, b.ffn_up.buffer)
    &&& content(a, b.ffn_down.buffer) == content(c, b.ffn_down.buffer)
    &&& content(a, layer.k.buffer) == content(c, layer.k.buffer)
    &&& content(a, layer.v.buffer) == content(c, layer.v.buffer)
}

/// What a layer does depends on memory through its weights and cache alone.
proof fn lemma_same_layer<F: Copy>(
    a: Memory<F>,
    c: Memory<F>,
    p: &LlamaParams<F>,
    b: LlamaBlockWeights,
    layer: LayerCache,
    h: Term<F>,
    positions: Term<F>,
    mask: Option<Term<F>>,
    pass: Pass,
)
    requires
        same_layer_inputs(a, c, b, layer),
    ensures
        llama_layer(a, p, b, layer, h, positions, mask, pass) == llama_layer(
            c,
            p,
            b,
            layer,
            h,
            positions,
            mask,
            pass,
        ),
        forall|x: Term<F>|
            llama_k_cache(a, p, b, layer, x, positions, pass) == #[trigger] llama_k_cache(
                c,
                p,
                b,
                layer,
                x,
                positions,
                pass,
            ),
        forall|x: Term<F>|
            llama_v_cache(a, p, b, layer, x, pass) == #[trigger] llama_v_cache(
                c,
                p,
                b,
                layer,
                x,
                pass,
            ),
{
}

/// Everything that decides what a pass computes.
pub struct Inference<F> {
    pub tokens: Seq<u32>,
    pub positions: Seq<u32>,
    pub mask: Option<Seq<F>>,
    pub pass: Pass,
}

impl<F: Copy> LlamaModel<F> {
    /// The hidden state after the first `n` layers.
    pub open spec fn hidden(&self, m: Memory<F>, cache: &KvCache, inf: Inference<F>, n: int) -> Term<
        F,
    >
        decreases n,
    {
        if n <= 0 {
            embedded(m, self.weights.token_embd, inf.tokens)
        } else {
            llama_layer(
                m,
                &self.params,
                self.weights.blocks@[n - 1],
                cache.layer(n - 1),
                self.hidden(m, cache, inf, n - 1),
                words_term(inf.positions),
                mask_value(inf.mask, inf.pass.l as u64),
                inf.pass,
            )
        }
    }

    /// The input of layer `i`, as it reads it.
    pub open spec fn layer_input(&self, m: Memory<F>, cache: &KvCache, inf: Inference<F>, i: int) -> Term<
        F,
    > {
        fresh(
            self.hidden(m, cache, inf, i),
            matrix(self.params.n_embd as u64, inf.pass.l as u64),
        )
    }

    /// Layer `i` of the cache holds what the pass leaves there.
    pub open spec fn layer_cached(
        &self,
        m: Memory<F>,
        after: Memory<F>,
        cache: &KvCache,
        inf: Inference<F>,
        i: int,
    ) -> bool {
        &&& content(after, cache.layer(i).k.buffer) == llama_k_cache(
            m,
            &self.params,
            self.weights.blocks@[i],
            cache.layer(i),
            self.layer_input(m, cache, inf, i),
            words_term(inf.positions),
            inf.pass,
        )
        &&& content(after, cache.layer(i).v.buffer) == llama_v_cache(
            m,
            &self.params,
            self.weights.blocks@[i],
            cache.layer(i),
            self.layer_input(m, cache, inf, i),
            inf.pass,
        )
    }

    /// All weights can be read, and none lives in scratch or in a cache.
    pub open spec fn ready(&self, ctx: &DispatchContext<F>) -> bool {
        &&& self.params.wf()
        &&& ready(ctx, self.weights.token_embd) && self.weights.token_embd.buffer is Weights
        &&& ready(ctx, self.weights.output_norm) && self.weights.output_norm.buffer is Weights
        &&& self.weights.output matches Some(t) ==> ready(ctx, t) && t.buffer is Weights
        &&& forall|i: int|
            0 <= i < self.weights.blocks@.len() ==> (#[trigger] self.weights.blocks@[i]).ready(ctx)
                && self.weights.blocks@[i].apart()
    }

    /// The output head.
    pub open spec fn head(&self) -> TensorView {
        match self.weights.output {
            Some(t) => t,
            None => self.weights.token_embd,
        }
    }

    /// The pass at the end of which the cache stands at `position + l`.
    pub open spec fn inference(&self, cache: &KvCache, tokens: Seq<u32>, position: u32) -> Inference<
        F,
    > {
        let l = tokens.len();
        Inference {
            tokens,
            positions: sequential(position as int, l),
            mask: if l > 1 {
                Some(causal_values(self.mask, l as int))
            } else {
                None
            },
            pass: Pass {
                l: l as u32,
                position,
                total_len: (position + l) as u32,
                direct: cache.direct,
            },
        }
    }

    /// Bytes in use after the inputs of a pass, where `used` were before.
    pub open spec fn inputs_end(&self, pass: Pass, used: u64) -> nat {
        let l = pass.l as u64;
        used as nat + prologue_bytes(l, l, l > 1, self.params.n_embd as u64)
    }

    /// Bytes in use after a pass, where `used` were before.
    pub open spec fn pass_end(&self, pass: Pass, compute_logits: bool, used: u64) -> nat {
        self.inputs_end(pass, used) + if compute_logits {
            head_bytes(self.params.n_embd as u64, self.params.n_vocab as u64, 1)
        } else {
            0
        }
    }

    /// A pass fits what `used` bytes leave of the region: its inputs, and behind
    /// them each layer, then the head, one at a time.
    pub open spec fn fits(
        &self,
        cache: &KvCache,
        pass: Pass,
        compute_logits: bool,
        used: u64,
        room: u64,
    ) -> bool {
        let end = self.inputs_end(pass, used);
        &&& end <= room
        &&& forall|i: int|
            0 <= i < self.weights.blocks@.len() ==> end + llama_layer_bytes(
                &self.params,
                #[trigger] cache.layer(i),
                pass,
            ) <= room
        &&& self.pass_end(pass, compute_logits, used) <= room
    }

    /// The logits of a pass: the head over the last token's hidden state.
    pub open spec fn logits(&self, m: Memory<F>, cache: &KvCache, inf: Inference<F>) -> Term<F> {
        let width = self.params.n_embd as u64;
        head_term(
            m,
            self.params.rms_eps,
            through(
                self.hidden(m, cache, inf, self.weights.blocks@.len() as int),
                one_column(
                    dense(
                        Buffer::Scratch { id: 0, bytes: 0 },
                        matrix(width, inf.pass.l as u64),
                    ),
                    width,
                    inf.pass.l - 1,
                ),
            ),
            self.weights.output_norm,
            self.head(),
            width,
            self.params.n_vocab as u64,
            1,
        )
    }

    /// Record a forward pass of one sequence: `tokens` at positions from
    /// `position_offset` on, attending over everything cached and themselves.
    /// The last token's logits are computed on request only.
    #[verifier::spinoff_prover]
    #[verifier::rlimit(40)]
    pub fn record_forward(
        &self,
        ctx: &mut DispatchContext<F>,
        cache: &mut KvCache,
        tokens: &[u32],
        position_offset: u32,
        compute_logits: bool,
    ) -> (r: Result<Option<TensorView>, RecordError>)
        requires
            self.ready(old(ctx)),
            quiet(old(ctx).memory()),
            old(cache).layered(self.weights.blocks@.len() as int),
            forall|i: int|
                0 <= i < self.weights.blocks@.len() ==> #[trigger] old(cache).roomy(
                    i,
                    self.params.head() as u64,
                    self.params.head() as u64,
                    self.params.n_head_kv as u64,
                ),
            has_room(old(cache), position_offset, tokens@.len()),
            tokens@.len() * tokens@.len() <= usize::MAX,
        ensures
            final(ctx).region == old(ctx).region,
            final(ctx).replay == old(ctx).replay,
            match r {
                Ok(out) => {
                    let m = old(ctx).memory();
                    let inf = self.inference(old(cache), tokens@, position_offset);
                    &&& tokens@.len() > 0
                    &&& old(cache).position == position_offset
                    &&& self.fits(
                        old(cache),
                        inf.pass,
                        compute_logits,
                        old(ctx).used,
                        old(ctx).region,
                    )
                    &&& final(ctx).used == self.pass_end(inf.pass, compute_logits, old(ctx).used)
                    &&& (out is Some <==> compute_logits)
                    &&& out matches Some(t) ==> ready(final(ctx), t) && read(
                        final(ctx).memory(),
                        t,
                    ) == self.logits(m, old(cache), inf)
                    &&& forall|i: int|
                        0 <= i < self.weights.blocks@.len() ==> #[trigger] self.layer_cached(
                            m,
                            final(ctx).memory(),
                            old(cache),
                            inf,
                            i,
                        )
                    &&& undisturbed(m, final(ctx).memory(), old(ctx).at(), cache_buffers())
                    &&& quiet(final(ctx).memory())
                    &&& final(cache).position == position_offset + tokens@.len()
                    &&& final(cache).same_but_position(old(cache))
                },
                Err(RecordError::EmptyPrompt) => tokens@.len() == 0,
                Err(RecordError::PositionMismatch { cached, given }) => {
                    &&& tokens@.len() > 0
                    &&& cached == old(cache).position
                    &&& given == position_offset
                    &&& cached != given
                },
                Err(RecordError::ScratchExhausted) => {
                    &&& tokens@.len() > 0
                    &&& old(cache).position == position_offset
                    &&& !self.fits(
                        old(cache),
                        self.inference(old(cache), tokens@, position_offset).pass,
                        compute_logits,
                        old(ctx).used,
                        old(ctx).region,
                    )
                },
                Err(_) => false,
            },
            r is Err ==> *final(cache) == *old(cache),
    {
        let n: usize = tokens.len();
        if n == 0 {
            return Err(RecordError::EmptyPrompt);
        }
        if cache.position != position_offset {
            return Err(
                RecordError::PositionMismatch { cached: cache.position, given: position_offset },
            );
        }
        let p = &self.params;
        let l: u32 = n as u32;
        let total_len: u32 = position_offset + l;
        let hidden: u64 = p.n_embd as u64;
        let pass = Pass { l, position: position_offset, total_len, direct: cache.direct };
        let positions = sequential_positions(position_offset, l);
        let ghost inf = self.inference(cache, tokens@, position_offset);
        let mask: Option<Vec<F>> = if l > 1 {
            Some(causal_mask(n, self.mask))
        } else {
            None
        };
        let mask_data: Option<&[F]> = match &mask {
            Some(data) => Some(data.as_slice()),
            None => None,
        };
        let ghost m0 = ctx.memory();
        let ghost at0 = ctx.at();
        let pro = record_prologue(
            ctx,
            tokens,
            positions.as_slice(),
            mask_data,
            self.weights.token_embd,
            hidden,
        )?;
        let mark: u64 = ctx.scratch_checkpoint();
        let base: u64 = ctx.used;
        assert forall|j: int| 0 <= j < self.weights.blocks@.len() implies #[trigger]
        layer_untouched(m0, ctx.memory(), cache.layer(j)) by {
            assert(cache.layer_named(j));
        }
        let mut i: usize = 0;
        while i < self.weights.blocks.len()
            invariant
                i <= self.weights.blocks@.len(),
                cache.position == position_offset,
                p == &self.params,
                self.params.wf(),
                m0 == old(ctx).memory(),
                at0 == old(ctx).at(),
                self.ready(old(ctx)),
                ctx.region == old(ctx).region,
                ctx.replay == old(ctx).replay,
                *cache == *old(cache),
                cache.layered(self.weights.blocks@.len() as int),
                forall|j: int|
                    0 <= j < self.weights.blocks@.len() ==> #[trigger] cache.roomy(
                        j,
                        self.params.head() as u64,
                        self.params.head() as u64,
                        self.params.n_head_kv as u64,
                    ),
                1 <= l == tokens@.len(),
                hidden == p.n_embd,
                inf == self.inference(cache, tokens@, position_offset),
                pass == inf.pass,
                total_len <= cache.max_seq_len,
                1 <= total_len == pass.total_len,
                at0 <= mark <= ctx.at(),
                quiet(ctx.memory()),
                4 * hidden * l <= ctx.region,
                base == self.inputs_end(pass, old(ctx).used),
                base <= ctx.region,
                forall|j: int|
                    0 <= j < i ==> base + llama_layer_bytes(p, #[trigger] cache.layer(j), pass)
                        <= ctx.region,
                prologue_done(
                    ctx,
                    at0,
                    pro,
                    hidden,
                    l as u64,
                    inf.positions,
                    inf.mask,
                    self.hidden(m0, cache, inf, i as int),
                ),
                settled(pro.positions, at0, mark as int, pro.residual.buffer),
                pro.mask matches Some(t) ==> settled(t, at0, mark as int, pro.residual.buffer),
                pro.residual.buffer matches Buffer::Scratch { id, bytes: _ } && at0 <= id < mark,
                undisturbed(m0, ctx.memory(), at0, cache_buffers()),
                forall|j: int|
                    0 <= j < i ==> #[trigger] self.layer_cached(m0, ctx.memory(), cache, inf, j),
                forall|j: int|
                    i <= j < self.weights.blocks@.len() ==> #[trigger] layer_untouched(
                        m0,
                        ctx.memory(),
                        cache.layer(j),
                    ),
            decreases self.weights.blocks@.len() - i,
        {
            let ghost m1 = ctx.memory();
            ctx.scratch_restore(mark, base);
            proof {
                lemma_released(m1, mark as int);
            }
            let ghost m2 = ctx.memory();
            let block = &self.weights.blocks[i];
            let layer = cache.layer_views(i);
            proof {
                assert(cache.roomy(
                    i as int,
                    self.params.head() as u64,
                    self.params.head() as u64,
                    self.params.n_head_kv as u64,
                ));
                lemma_fewer_tokens(
                    layer.k,
                    p.head() as u64,
                    p.n_head_kv as u64,
                    cache.max_seq_len as u64,
                    total_len as u64,
                );
                lemma_fewer_tokens(
                    layer.v,
                    p.head() as u64,
                    p.n_head_kv as u64,
                    cache.max_seq_len as u64,
                    total_len as u64,
                );
                assert(block.ready(old(ctx)) && block.apart());
                assert(layer_untouched(m0, m1, layer));
                assert(same_layer_inputs(m1, m0, *block, layer));
                assert(same_layer_inputs(m2, m1, *block, layer));
                assert(block.ready(ctx));
                assert(ready(ctx, pro.residual) && ready(ctx, pro.positions) && ready_opt(
                    ctx,
                    pro.mask,
                ));
                lemma_same_layer(
                    m2,
                    m0,
                    p,
                    *block,
                    layer,
                    self.hidden(m0, cache, inf, i as int),
                    words_term(inf.positions),
                    mask_value(inf.mask, l as u64),
                    pass,
                );
            }
            record_layer(
                ctx,
                p,
                block,
                layer,
                pro.residual,
                pro.positions,
                pro.mask,
                pass,
            )?;
            proof {
                let m3 = ctx.memory();
                assert forall|x: Buffer|
                    !later(x, at0) && !cache_buffers().contains(x) implies content(m3, x)
                    == content(m0, x) && (reserved(m0, x) ==> reserved(m3, x)) by {
                    assert(content(m1, x) == content(m0, x));
                    assert(content(m2, x) == content(m1, x));
                }
                assert(ready(ctx, pro.positions) && ready_opt(ctx, pro.mask));
                assert forall|j: int| 0 <= j < i implies #[trigger] self.layer_cached(
                    m0,
                    m3,
                    cache,
                    inf,
                    j,
                ) by {
                    assert(self.layer_cached(m0, m1, cache, inf, j));
                    assert(cache.layer_named(j));
                    assert(content(m2, cache.layer(j).k.buffer) == content(
                        m1,
                        cache.layer(j).k.buffer,
                    ));
                    assert(content(m2, cache.layer(j).v.buffer) == content(
                        m1,
                        cache.layer(j).v.buffer,
                    ));
                }
                assert(self.layer_cached(m0, m3, cache, inf, i as int));
                assert forall|j: int| i < j < self.weights.blocks@.len() implies #[trigger]
                layer_untouched(m0, m3, cache.layer(j)) by {
                    assert(layer_untouched(m0, m1, cache.layer(j)));
                    assert(cache.layer_named(j));
                    assert(content(m2, cache.layer(j).k.buffer) == content(
                        m1,
                        cache.layer(j).k.buffer,
                    ));
                    assert(content(m2, cache.layer(j).v.buffer) == content(
                        m1,
                        cache.layer(j).v.buffer,
                    ));
                }
            }
            i += 1;
        }
        let ghost m4 = ctx.memory();
        ctx.scratch_restore(mark, base);
        proof {
            lemma_released(m4, mark as int);
            let m5 = ctx.memory();
            assert forall|x: Buffer|
                !later(x, at0) && !cache_buffers().contains(x) implies content(m5, x) == content(
                m0,
                x,
            ) && (reserved(m0, x) ==> reserved(m5, x)) by {
                assert(content(m4, x) == content(m0, x));
            }
            assert forall|j: int| 0 <= j < self.weights.blocks@.len() implies #[trigger]
            self.layer_cached(m0, m5, cache, inf, j) by {
                assert(self.layer_cached(m0, m4, cache, inf, j));
                assert(cache.layer_named(j));
            }
            assert(ready(ctx, pro.residual));
        }
        if !compute_logits {
            cache.advance(l);
            return Ok(None);
        }
        let ghost m5 = ctx.memory();
        proof {
            assert((l - 1) * hidden * 4 <= 4 * hidden * l) by (nonlinear_arith)
                requires
                    l >= 1,
            ;
            assert((l - 1) * hidden <= (l - 1) * hidden * 4) by (nonlinear_arith)
                requires
                    l >= 1,
            ;
            assert(hidden * 4 <= 4 * hidden * l) by (nonlinear_arith)
                requires
                    l >= 1,
            ;
            assert(ready(ctx, self.weights.output_norm) && ready(ctx, self.head()));
            assert(content(m5, self.weights.output_norm.buffer) == content(
                m0,
                self.weights.output_norm.buffer,
            ));
            assert(content(m5, self.head().buffer) == content(m0, self.head().buffer));
        }
        let last = last_column(pro.residual, hidden, l as u64 - 1);
        let head = match self.weights.output {
            Some(t) => t,
            None => self.weights.token_embd,
        };
        let logits = record_head(
            ctx,
            p.rms_eps,
            last,
            self.weights.output_norm,
            head,
            hidden,
            p.n_vocab as u64,
            1,
        )?;
        proof {
            let m6 = ctx.memory();
            assert forall|x: Buffer|
                !later(x, at0) && !cache_buffers().contains(x) implies content(m6, x) == content(
                m0,
                x,
            ) && (reserved(m0, x) ==> reserved(m6, x)) by {
                assert(content(m5, x) == content(m0, x));
            }
            assert forall|j: int| 0 <= j < self.weights.blocks@.len() implies #[trigger]
            self.layer_cached(m0, m6, cache, inf, j) by {
                assert(self.layer_cached(m0, m5, cache, inf, j));
                assert(cache.layer_named(j));
            }
        }
        cache.advance(l);
        Ok(Some(logits))
    }
}

/// The buffers of the single-sequence cache.
pub open spec fn cache_buffers() -> Set<Buffer> {
    Set::new(|b: Buffer| b is KeyLayer || b is ValueLayer)
}

/// The layer of the cache holds what it held.
pub open spec fn layer_untouched<F>(before: Memory<F>, after: Memory<F>, layer: LayerCache) -> bool {
    &&& content(after, layer.k.buffer) == content(before, layer.k.buffer)
    &&& content(after, layer.v.buffer) == content(before, layer.v.buffer)
}

} // verus!
