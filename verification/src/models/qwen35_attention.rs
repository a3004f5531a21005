//! The attention half of a Qwen 3.5 layer: normalized heads, a multi-axis
//! rotation, and a gate on the output.
use vstd::prelude::*;

use crate::models::blocks::{
    alloc_headed, cached, cached_bytes, holds_tokens, lemma_heads_within, projected,
    projection_bytes, ready, ready_opt, record_projections, record_slab_writes, same_weights,
    slab_term, undisturbed, weights_live, LayerCache, ProjectionWeights, SeqPlan, Sequences,
};
use crate::models::cache::BatchKvCache;
use crate::models::llama::{for_attn, mask_term, per_head};
use crate::models::llama_batch::{batched_q, batched_q_attn_view, lengths_term, DECODE_DYN_WORDS};
use crate::models::qwen35_weights::{
    q_half, slice_q_half, AttentionBlockWeights, Qwen35MoeParams,
};
use crate::models::recorder::{
    content, fresh, later, op1, op2, op3, op3_opt, quiet, read, reserved, shape, spends, through,
    DispatchContext, Fence, Memory, Op, RecordError, RopeMultiParams, Term,
};
use crate::models::tensor::{
    attn_view, covers, dense, headed, matrix, permute_to_attn, reshape_for_rope, size, Buffer, Dims,
    GgmlType, TensorView,
};

verus! {

/// One sequence's pass over an attention layer.
#[derive(Clone, Copy)]
pub struct QwenPass<F> {
    pub l: u32,
    /// Tokens cached before.
    pub position: u32,
    /// Tokens cached after.
    pub total_len: u32,
    pub max_seq_len: u32,
    /// Whether attention reads the cache in place.
    pub direct: bool,
    pub rope: RopeMultiParams<F>,
}

/// A matrix of scratch of its own.
pub open spec fn own_matrix(width: u64, l: u64) -> TensorView {
    dense(Buffer::Scratch { id: 0, bytes: 0 }, matrix(width, l))
}

/// Queries and their gates, side by side.
pub open spec fn qwen_q_full<F: Copy>(
    m: Memory<F>,
    p: &Qwen35MoeParams<F>,
    b: AttentionBlockWeights,
    x: Term<F>,
    l: u64,
) -> Term<F> {
    projected(m, p.rms_eps, x, b.attn_norm, b.wq, p.n_embd as u64, l)
}

/// Width of the double projection.
pub open spec fn q_width<F>(p: &Qwen35MoeParams<F>) -> u64 {
    (2 * (p.head_dim_k * p.n_head)) as u64
}

/// The queries, normalized and rotated.
pub open spec fn qwen_q<F: Copy>(
    m: Memory<F>,
    p: &Qwen35MoeParams<F>,
    b: AttentionBlockWeights,
    rope: RopeMultiParams<F>,
    x: Term<F>,
    positions: Term<F>,
    l: u64,
) -> Term<F> {
    op3(
        Op::NormRopeMulti { params: rope, eps: p.rms_eps },
        through(
            qwen_q_full(m, p, b, x, l),
            q_half(own_matrix(q_width(p), l), p.head_dim_k as u64, p.n_head as u64, l, false),
        ),
        positions,
        read(m, b.attn_q_norm),
    )
}

/// The keys by head, as projected.
pub open spec fn qwen_k_heads<F: Copy>(
    m: Memory<F>,
    p: &Qwen35MoeParams<F>,
    b: AttentionBlockWeights,
    x: Term<F>,
    l: u64,
) -> Term<F> {
    per_head(
        projected(m, p.rms_eps, x, b.attn_norm, b.wk, p.n_embd as u64, l),
        (p.head_dim_k * p.n_head_kv) as u64,
        p.head_dim_k as u64,
        p.n_head_kv as u64,
        l,
    )
}

/// The keys, normalized and rotated.
pub open spec fn qwen_k<F: Copy>(
    m: Memory<F>,
    p: &Qwen35MoeParams<F>,
    b: AttentionBlockWeights,
    rope: RopeMultiParams<F>,
    x: Term<F>,
    positions: Term<F>,
    l: u64,
) -> Term<F> {
    op3(
        Op::NormRopeMulti { params: rope, eps: p.rms_eps },
        qwen_k_heads(m, p, b, x, l),
        positions,
        read(m, b.attn_k_norm),
    )
}

/// The values, as projected.
pub open spec fn qwen_v<F: Copy>(
    m: Memory<F>,
    p: &Qwen35MoeParams<F>,
    b: AttentionBlockWeights,
    x: Term<F>,
    l: u64,
) -> Term<F> {
    projected(m, p.rms_eps, x, b.attn_norm, b.wv, p.n_embd as u64, l)
}

/// The key cache after the pass. Half-float caches take the rotated keys
/// directly.
#[verifier::opaque]
pub open spec fn qwen_k_cache<F: Copy>(
    m: Memory<F>,
    p: &Qwen35MoeParams<F>,
    b: AttentionBlockWeights,
    layer: LayerCache,
    x: Term<F>,
    positions: Term<F>,
    pass: QwenPass<F>,
) -> Term<F> {
    let l = pass.l as u64;
    if layer.k.dtype is F16 {
        Term::Patch {
            into: Box::new(content(m, layer.k.buffer)),
            at: shape(layer.k),
            with: Box::new(
                op3(
                    Op::NormRopeMultiToCache {
                        params: pass.rope,
                        eps: p.rms_eps,
                        position: pass.position,
                        max_seq_len: pass.max_seq_len,
                    },
                    qwen_k_heads(m, p, b, x, l),
                    positions,
                    read(m, b.attn_k_norm),
                ),
            ),
        }
    } else {
        cached(
            m,
            layer.k,
            pass.position,
            fresh(
                qwen_k(m, p, b, pass.rope, x, positions, l),
                headed(p.head_dim_k as u64, p.n_head_kv as u64, l),
            ),
        )
    }
}

/// The value cache after the pass.
#[verifier::opaque]
pub open spec fn qwen_v_cache<F: Copy>(
    m: Memory<F>,
    p: &Qwen35MoeParams<F>,
    b: AttentionBlockWeights,
    layer: LayerCache,
    x: Term<F>,
    pass: QwenPass<F>,
) -> Term<F> {
    let l = pass.l as u64;
    let v = per_head(
        qwen_v(m, p, b, x, l),
        (p.head_dim_v * p.n_head_kv) as u64,
        p.head_dim_v as u64,
        p.n_head_kv as u64,
        l,
    );
    if layer.v.dtype is F16 {
        Term::Patch {
            into: Box::new(content(m, layer.v.buffer)),
            at: shape(layer.v),
            with: Box::new(op1(Op::CacheWriteHalf { position: pass.position }, v)),
        }
    } else {
        cached(m, layer.v, pass.position, v)
    }
}

/// A cache layer that holds `held`, as attention reads it: in place over its
/// whole length, or a converted copy of its first tokens.
pub open spec fn qwen_read<F>(
    held: Term<F>,
    layer: TensorView,
    head_dim: u64,
    heads: u64,
    length: u64,
    total_len: u32,
    direct: bool,
) -> Term<F> {
    if direct {
        through(held, attn_view(layer, head_dim, length, heads))
    } else {
        for_attn(
            op1(Op::CacheRead { len: total_len }, through(held, layer)),
            head_dim,
            heads,
            total_len as u64,
        )
    }
}

/// A scratch tensor of `[head_dim, heads, l]` heads read as `[width, l]` columns.
pub open spec fn flat_heads(head_dim: u64, heads: u64, width: u64, l: u64) -> TensorView {
    TensorView {
        byte_size: (4 * head_dim * heads * l) as u64,
        ..own_matrix(width, l)
    }
}

/// `x` plus the projection of the gated attention output.
pub open spec fn gate_out<F: Copy>(
    m: Memory<F>,
    p: &Qwen35MoeParams<F>,
    b: AttentionBlockWeights,
    x: Term<F>,
    q_full: Term<F>,
    out: Term<F>,
    l: u64,
    accumulate: bool,
) -> Term<F> {
    let hv = (p.head_dim_v * p.n_head) as u64;
    let cols = matrix(p.n_embd as u64, l);
    let gate = op1(
        Op::Cast,
        through(
            q_full,
            q_half(own_matrix(q_width(p), l), p.head_dim_k as u64, p.n_head as u64, l, true),
        ),
    );
    let gated = fresh(
        op2(
            Op::SigmoidMul,
            through(gate, flat_heads(p.head_dim_k as u64, p.n_head as u64, hv, l)),
            fresh(out, matrix(hv, l)),
        ),
        matrix(hv, l),
    );
    if accumulate {
        op3(Op::MatMulAdd, read(m, b.wo), gated, x)
    } else {
        op2(Op::Add, x, fresh(op2(Op::MatMul, read(m, b.wo), gated), cols))
    }
}

/// The hidden state after the attention half.
#[verifier::opaque]
pub open spec fn qwen_attended<F: Copy>(
    m: Memory<F>,
    p: &Qwen35MoeParams<F>,
    b: AttentionBlockWeights,
    layer: LayerCache,
    h: Term<F>,
    positions: Term<F>,
    mask: Option<Term<F>>,
    pass: QwenPass<F>,
) -> Term<F> {
    let l = pass.l as u64;
    let x = fresh(h, matrix(p.n_embd as u64, l));
    let out = op3_opt(
        Op::FlashAttn { params: p.attn(), kv_len: pass.total_len },
        for_attn(
            qwen_q(m, p, b, pass.rope, x, positions, l),
            p.head_dim_k as u64,
            p.n_head as u64,
            l,
        ),
        qwen_read(
            qwen_k_cache(m, p, b, layer, x, positions, pass),
            layer.k,
            p.head_dim_k as u64,
            p.n_head_kv as u64,
            layer.k.dims.d2,
            pass.total_len,
            pass.direct,
        ),
        qwen_read(
            qwen_v_cache(m, p, b, layer, x, pass),
            layer.v,
            p.head_dim_v as u64,
            p.n_head_kv as u64,
            layer.k.dims.d2,
            pass.total_len,
            pass.direct,
        ),
        mask,
    );
    gate_out(m, p, b, x, qwen_q_full(m, p, b, x, l), out, l, l == 1)
}

/// Scratch that the products and the queries of attention take.
pub open spec fn qwen_dense_bytes<F: Copy>(p: &Qwen35MoeParams<F>, l: u64) -> nat {
    projection_bytes(
        p.n_embd as u64,
        q_width(p),
        (p.head_dim_k * p.n_head_kv) as u64,
        (p.head_dim_v * p.n_head_kv) as u64,
        l,
    ) + size(headed(p.head_dim_k as u64, p.n_head as u64, l))
}

/// Scratch that the rotated keys take.
pub open spec fn qwen_keys_bytes<F: Copy>(p: &Qwen35MoeParams<F>, l: u64) -> nat {
    size(headed(p.head_dim_k as u64, p.n_head_kv as u64, l))
}

/// Scratch that the attention output, its gate and its projection take.
pub open spec fn qwen_out_bytes<F: Copy>(p: &Qwen35MoeParams<F>, l: u64, accumulate: bool) -> nat {
    let d = matrix((p.head_dim_v * p.n_head) as u64, l);
    2 * size(d) + size(headed(p.head_dim_k as u64, p.n_head as u64, l)) + if accumulate {
        0
    } else {
        size(matrix(p.n_embd as u64, l))
    }
}

/// Scratch that the attention half takes. Keys of a half-width cache are rotated
/// into it and need none.
pub open spec fn qwen_attn_bytes<F: Copy>(
    p: &Qwen35MoeParams<F>,
    half_keys: bool,
    pass: QwenPass<F>,
) -> nat {
    let l = pass.l as u64;
    qwen_dense_bytes(p, l) + if half_keys {
        0
    } else {
        qwen_keys_bytes(p, l)
    } + cached_bytes(
        p.head_dim_k as u64,
        p.head_dim_v as u64,
        p.n_head_kv as u64,
        pass.total_len as u64,
        pass.direct,
    ) + qwen_out_bytes(p, l, l == 1)
}

/// Scratch that the attention half of a batched pass takes.
pub open spec fn qwen_batch_attn_bytes<F: Copy>(p: &Qwen35MoeParams<F>, n: u64) -> nat {
    qwen_dense_bytes(p, n) + qwen_keys_bytes(p, n) + qwen_out_bytes(p, n, false)
}

/// Products that the views of a pass take.
pub open spec fn qwen_sizes<F: Copy>(p: &Qwen35MoeParams<F>, l: u64, room: u64) -> bool {
    let k = p.head_dim_k as u64;
    let v = p.head_dim_v as u64;
    let n = p.n_head as u64;
    let kv = p.n_head_kv as u64;
    &&& 4 * k <= room
    &&& 4 * k * n <= room
    &&& 4 * k * n * l <= room
    &&& 4 * k * kv <= room
    &&& 4 * k * kv * l <= room
    &&& 4 * v <= room
    &&& 4 * v * kv <= room
    &&& 4 * v * kv * l <= room
    &&& k * n <= u64::MAX
    &&& k * n * l <= u64::MAX
    &&& k * kv <= u64::MAX
    &&& k * kv * l <= u64::MAX
    &&& v * kv <= u64::MAX
    &&& v * kv * l <= u64::MAX
    &&& 4 * (2 * (k * n)) * l <= room
    &&& 4 * k <= 4 * q_width(p) * l
}

/// The products are small enough where the dense part fits.
pub proof fn lemma_qwen_sizes<F: Copy>(p: &Qwen35MoeParams<F>, l: u64, room: u64)
    requires
        p.wf(),
        l >= 1,
        4 * q_width(p) * l <= room,
        4 * ((p.head_dim_k * p.n_head_kv) as u64) * l <= room,
        4 * ((p.head_dim_v * p.n_head_kv) as u64) * l <= room,
    ensures
        qwen_sizes(p, l, room),
{
    let k = p.head_dim_k as u64;
    let v = p.head_dim_v as u64;
    let n = p.n_head as u64;
    let kv = p.n_head_kv as u64;
    assert(k * n <= 2 * (k * n) && k * n >= 0) by (nonlinear_arith);
    lemma_heads_within(k, n, q_width(p), l, room);
    lemma_heads_within(k, kv, (k * kv) as u64, l, room);
    lemma_heads_within(v, kv, (v * kv) as u64, l, room);
    assert(4 * k <= 4 * (2 * (k * n)) * l) by (nonlinear_arith)
        requires
            n >= 1,
            l >= 1,
            k >= 0,
    ;
}

/// Record the gating of the attention output, its projection, and the sum with
/// `residual`.
fn record_gate_out<F: Copy>(
    ctx: &mut DispatchContext<F>,
    p: &Qwen35MoeParams<F>,
    b: &AttentionBlockWeights,
    residual: TensorView,
    q_full: TensorView,
    out: TensorView,
    l: u64,
    accumulate: bool,
) -> (r: Result<(), RecordError>)
    requires
        p.wf(),
        l >= 1,
        quiet(old(ctx).memory()),
        qwen_sizes(p, l, old(ctx).region),
        ready(old(ctx), b.wo),
        b.wo.buffer is Weights,
        residual == dense(residual.buffer, matrix(p.n_embd as u64, l)),
        covers(residual),
        ready(old(ctx), residual),
        q_full == dense(q_full.buffer, matrix(q_width(p), l)),
        ready(old(ctx), q_full),
        out == dense(out.buffer, matrix((p.head_dim_v * p.n_head) as u64, l)),
        ready(old(ctx), out),
        4 * q_width(p) * l <= old(ctx).region,
    ensures
        final(ctx).region == old(ctx).region,
        final(ctx).replay == old(ctx).replay,
        final(ctx).at() >= old(ctx).at(),
        r matches Err(e) ==> e is ScratchExhausted,
        ({
            let d = size(matrix((p.head_dim_v * p.n_head) as u64, l));
            let n = (qwen_out_bytes(p, l, accumulate) - d) as nat;
            spends(old(ctx), final(ctx), r is Ok, n)
        }),
        r is Ok ==> {
            let m = old(ctx).memory();
            &&& content(final(ctx).memory(), residual.buffer) == gate_out(
                m,
                p,
                *b,
                read(m, residual),
                content(m, q_full.buffer),
                content(m, out.buffer),
                l,
                accumulate,
            )
            &&& quiet(final(ctx).memory())
            &&& undisturbed(m, final(ctx).memory(), old(ctx).at(), set![residual.buffer])
        },
{
    let hidden: u64 = p.n_embd as u64;
    let hd: u64 = p.head_dim_k as u64;
    let n_head: u64 = p.n_head as u64;
    let hv: u64 = (p.head_dim_v * p.n_head) as u64;
    proof {
        let w = q_width(p);
        assert(4 * w * l * 1 * 1 == 4 * w * l) by (nonlinear_arith);
        assert(hv * l >= 0) by (nonlinear_arith);
    }
    let gate_view = slice_q_half(q_full, hd, n_head, l, true);
    let contig = alloc_headed(ctx, hd, n_head, l)?;
    ctx.apply1(Op::Cast, gate_view, contig, Fence::Own);
    let gated = ctx.alloc_matrix(hv, l)?;
    proof {
        assert(4 * hv <= 4 * hv * l) by (nonlinear_arith)
            requires
                l >= 1,
        ;
        assert(hv * l <= 4 * hv * l) by (nonlinear_arith);
        assert(4 * hv * l * 1 == 4 * hv * l);
        assert(4 * (hv * l) == 4 * hv * l) by (nonlinear_arith);
        assert(1 * hv * l == hv * l && 1 * hv * l * 1 == hv * l) by (nonlinear_arith);
    }
    let flat = TensorView {
        dims: Dims { d0: hv, d1: l, d2: 1, d3: 1 },
        byte_stride: Dims { d0: 4, d1: 4 * hv, d2: 4 * hv * l, d3: 4 * hv * l },
        element_stride: Dims { d0: 1, d1: hv, d2: hv * l, d3: hv * l },
        ..contig
    };
    ctx.apply2(Op::SigmoidMul, flat, out, gated, Fence::Own);
    if accumulate {
        ctx.apply3(Op::MatMulAdd, b.wo, gated, residual, residual, Fence::Own);
    } else {
        let proj = ctx.alloc_matrix(hidden, l)?;
        ctx.apply2(Op::MatMul, b.wo, gated, proj, Fence::Own);
        ctx.apply2(Op::Add, residual, proj, residual, Fence::Own);
    }
    Ok(())
}

/// Find the views through which attention reads a cache layer: in place, or
/// through copies.
fn record_cache_views<F: Copy>(
    ctx: &mut DispatchContext<F>,
    p: &Qwen35MoeParams<F>,
    layer: LayerCache,
    pass: QwenPass<F>,
) -> (r: Result<(TensorView, TensorView), RecordError>)
    requires
        p.wf(),
        pass.total_len >= 1,
        quiet(old(ctx).memory()),
        old(ctx).used <= old(ctx).region,
        ready(old(ctx), layer.k),
        ready(old(ctx), layer.v),
        !(layer.k.buffer is Scratch),
        !(layer.v.buffer is Scratch),
        holds_tokens(layer.k, p.head_dim_k as u64, p.n_head_kv as u64, layer.k.dims.d2),
        holds_tokens(layer.v, p.head_dim_v as u64, p.n_head_kv as u64, layer.k.dims.d2),
    ensures
        final(ctx).region == old(ctx).region,
        final(ctx).replay == old(ctx).replay,
        final(ctx).at() >= old(ctx).at(),
        r matches Err(e) ==> e is ScratchExhausted,
        spends(
            old(ctx),
            final(ctx),
            r is Ok,
            cached_bytes(
                p.head_dim_k as u64,
                p.head_dim_v as u64,
                p.n_head_kv as u64,
                pass.total_len as u64,
                pass.direct,
            ),
        ),
        r matches Ok((ks, vs)) ==> {
            let m = old(ctx).memory();
            &&& ready(final(ctx), ks)
            &&& ready(final(ctx), vs)
            &&& read(final(ctx).memory(), ks) == qwen_read(
                content(m, layer.k.buffer),
                layer.k,
                p.head_dim_k as u64,
                p.n_head_kv as u64,
                layer.k.dims.d2,
                pass.total_len,
                pass.direct,
            )
            &&& read(final(ctx).memory(), vs) == qwen_read(
                content(m, layer.v.buffer),
                layer.v,
                p.head_dim_v as u64,
                p.n_head_kv as u64,
                layer.k.dims.d2,
                pass.total_len,
                pass.direct,
            )
            &&& quiet(final(ctx).memory())
            &&& undisturbed(m, final(ctx).memory(), old(ctx).at(), Set::empty())
        },
{
    let hk: u64 = p.head_dim_k as u64;
    let hv: u64 = p.head_dim_v as u64;
    let n_kv: u64 = p.n_head_kv as u64;
    if pass.direct {
        let len: u64 = layer.k.dims.d2;
        Ok((permute_to_attn(layer.k, hk, len, n_kv), permute_to_attn(layer.v, hv, len, n_kv)))
    } else {
        let total: u64 = pass.total_len as u64;
        let k_src = alloc_headed(ctx, hk, n_kv, total)?;
        ctx.apply1(Op::CacheRead { len: pass.total_len }, layer.k, k_src, Fence::Own);
        let v_src = alloc_headed(ctx, hv, n_kv, total)?;
        ctx.apply1(Op::CacheRead { len: pass.total_len }, layer.v, v_src, Fence::Own);
        proof {
            crate::models::blocks::lemma_headed_sizes(hk, n_kv, total, ctx.region);
            crate::models::blocks::lemma_headed_sizes(hv, n_kv, total, ctx.region);
        }
        Ok((permute_to_attn(k_src, hk, total, n_kv), permute_to_attn(v_src, hv, total, n_kv)))
    }
}

/// Record the attention half of a layer over one sequence.
#[verifier::rlimit(45)]
pub fn attention_block<F: Copy>(
    ctx: &mut DispatchContext<F>,
    att: &AttentionBlockWeights,
    layer: LayerCache,
    residual: TensorView,
    mask: Option<TensorView>,
    positions: TensorView,
    p: &Qwen35MoeParams<F>,
    pass: QwenPass<F>,
) -> (r: Result<(), RecordError>)
    requires
        p.wf(),
        pass.l >= 1,
        pass.total_len >= 1,
        quiet(old(ctx).memory()),
        weights_live(old(ctx).memory()),
        att.apart(),
        residual == dense(residual.buffer, matrix(p.n_embd as u64, pass.l as u64)),
        covers(residual),
        residual.buffer is Scratch,
        ready(old(ctx), residual),
        ready(old(ctx), positions),
        positions.buffer is Scratch,
        ready_opt(old(ctx), mask),
        mask matches Some(t) ==> t.buffer is Scratch,
        !(layer.k.buffer is Scratch) && !(layer.k.buffer is Weights),
        !(layer.v.buffer is Scratch) && !(layer.v.buffer is Weights),
        layer.k.buffer != layer.v.buffer,
        holds_tokens(
            layer.k,
            p.head_dim_k as u64,
            p.n_head_kv as u64,
            layer.k.dims.d2,
        ),
        holds_tokens(
            layer.v,
            p.head_dim_v as u64,
            p.n_head_kv as u64,
            layer.k.dims.d2,
        ),
    ensures
        final(ctx).region == old(ctx).region,
        final(ctx).replay == old(ctx).replay,
        final(ctx).at() >= old(ctx).at(),
        r matches Err(e) ==> e is ScratchExhausted,
        spends(
            old(ctx),
            final(ctx),
            r is Ok,
            qwen_attn_bytes(p, layer.k.dtype is F16, pass),
        ),
        r is Ok ==> {
            let m = old(ctx).memory();
            let x = read(m, residual);
            &&& content(final(ctx).memory(), residual.buffer) == qwen_attended(
                m,
                p,
                *att,
                layer,
                content(m, residual.buffer),
                read(m, positions),
                mask_term(m, mask),
                pass,
            )
            &&& ready(final(ctx), residual)
            &&& content(final(ctx).memory(), layer.k.buffer) == qwen_k_cache(
                m,
                p,
                *att,
                layer,
                x,
                read(m, positions),
                pass,
            )
            &&& content(final(ctx).memory(), layer.v.buffer) == qwen_v_cache(
                m,
                p,
                *att,
                layer,
                x,
                pass,
            )
            &&& quiet(final(ctx).memory())
            &&& undisturbed(
                m,
                final(ctx).memory(),
                old(ctx).at(),
                set![residual.buffer, layer.k.buffer, layer.v.buffer],
            )
        },
{
    let ghost m0 = ctx.memory();
    let ghost changed = set![residual.buffer, layer.k.buffer, layer.v.buffer];
    let hidden: u64 = p.n_embd as u64;
    let hk: u64 = p.head_dim_k as u64;
    let hv: u64 = p.head_dim_v as u64;
    let n_head: u64 = p.n_head as u64;
    let n_kv: u64 = p.n_head_kv as u64;
    let l: u64 = pass.l as u64;
    let eps = p.rms_eps;
    let (q_full, k, v) = record_projections(
        ctx,
        eps,
        residual,
        ProjectionWeights { norm: att.attn_norm, wq: att.wq, wk: att.wk, wv: att.wv },
        hidden,
        p.wq_out() as u64,
        p.n_embd_k_gqa() as u64,
        p.n_embd_v_gqa() as u64,
        l,
    )?;
    let ghost m1 = ctx.memory();
    proof {
        lemma_qwen_sizes(p, l, ctx.region);
        let w = q_width(p);
        assert(4 * w * l * 1 * 1 == 4 * w * l) by (nonlinear_arith);
        assert(ready(ctx, positions) && ready_opt(ctx, mask) && ready(ctx, residual));
        assert(ready(ctx, att.attn_q_norm) && ready(ctx, att.attn_k_norm) && ready(ctx, att.wo));
        assert(content(m1, layer.k.buffer) == content(m0, layer.k.buffer));
        assert(content(m1, layer.v.buffer) == content(m0, layer.v.buffer));
    }
    let q_view = slice_q_half(q_full, hk, n_head, l, false);
    let k_view = reshape_for_rope(k, hk, n_kv, l);
    let v_view = reshape_for_rope(v, hv, n_kv, l);
    let q_roped = alloc_headed(ctx, hk, n_head, l)?;
    ctx.apply3(
        Op::NormRopeMulti { params: pass.rope, eps },
        q_view,
        positions,
        att.attn_q_norm,
        q_roped,
        Fence::No,
    );
    let k_half: bool = match layer.k.dtype {
        GgmlType::F16 => true,
        _ => false,
    };
    if k_half {
        ctx.apply3(
            Op::NormRopeMultiToCache {
                params: pass.rope,
                eps,
                position: pass.position,
                max_seq_len: pass.max_seq_len,
            },
            k_view,
            positions,
            att.attn_k_norm,
            layer.k,
            Fence::No,
        );
    } else {
        let k_roped = alloc_headed(ctx, hk, n_kv, l)?;
        ctx.apply3(
            Op::NormRopeMulti { params: pass.rope, eps },
            k_view,
            positions,
            att.attn_k_norm,
            k_roped,
            Fence::No,
        );
        ctx.barrier1(k_roped);
        ctx.apply1(Op::CacheWrite { position: pass.position }, k_roped, layer.k, Fence::No);
    }
    let v_half: bool = match layer.v.dtype {
        GgmlType::F16 => true,
        _ => false,
    };
    if v_half {
        ctx.apply1(Op::CacheWriteHalf { position: pass.position }, v_view, layer.v, Fence::No);
        ctx.barrier3(q_roped, layer.k, layer.v);
    } else {
        ctx.apply1(Op::CacheWrite { position: pass.position }, v_view, layer.v, Fence::All);
    }
    let ghost m2 = ctx.memory();
    assert(quiet(m2));
    assert(ready(ctx, layer.k) && ready(ctx, layer.v));
    let (k_perm, v_perm) = record_cache_views(ctx, p, layer, pass)?;
    let ghost mv = ctx.memory();
    proof {
        assert(ready(ctx, q_roped) && ready(ctx, q_full) && ready_opt(ctx, mask));
        assert(content(mv, q_roped.buffer) == content(m2, q_roped.buffer));
        assert(content(mv, residual.buffer) == content(m2, residual.buffer) && ready(ctx, residual));
        assert(content(mv, att.wo.buffer) == content(m2, att.wo.buffer) && ready(ctx, att.wo));
        assert(content(mv, q_full.buffer) == content(m2, q_full.buffer));
        assert(content(mv, layer.k.buffer) == content(m2, layer.k.buffer));
        assert(content(mv, layer.v.buffer) == content(m2, layer.v.buffer));
        assert(mask matches Some(t) ==> content(mv, t.buffer) == content(m2, t.buffer));
    }
    let q_perm = permute_to_attn(q_roped, hk, l, n_head);
    let out = ctx.alloc_matrix((p.head_dim_v * p.n_head) as u64, l)?;
    ctx.apply3_opt(
        Op::FlashAttn { params: p.attn_params(), kv_len: pass.total_len },
        q_perm,
        k_perm,
        v_perm,
        mask,
        out,
        Fence::Own,
    );
    let ghost m3 = ctx.memory();
    proof {
        assert forall|y: Buffer| !later(y, old(ctx).at()) && !changed.contains(y) implies content(
            m3,
            y,
        ) == content(m0, y) && (reserved(m0, y) ==> reserved(m3, y)) by {
            assert(content(m1, y) == content(m0, y));
            assert(content(mv, y) == content(m2, y));
        }
        assert(undisturbed(m0, m3, old(ctx).at(), changed));
        assert(ready(ctx, att.wo) && ready(ctx, residual) && ready(ctx, q_full));
    }
    record_gate_out(ctx, p, att, residual, q_full, out, l, pass.l == 1)?;
    proof {
        reveal(qwen_k_cache);
        reveal(qwen_v_cache);
        reveal(qwen_attended);
        let m4 = ctx.memory();
        assert(content(m4, layer.k.buffer) == content(m3, layer.k.buffer));
        assert(content(m4, layer.v.buffer) == content(m3, layer.v.buffer));
        assert forall|y: Buffer| !later(y, old(ctx).at()) && !changed.contains(y) implies content(
            m4,
            y,
        ) == content(m0, y) && (reserved(m0, y) ==> reserved(m4, y)) by {
            assert(content(m3, y) == content(m0, y));
        }
    }
    Ok(())
}

/// The key slabs of a layer after a batched pass.
#[verifier::opaque]
pub open spec fn qwen_k_slabs<F: Copy>(
    m: Memory<F>,
    p: &Qwen35MoeParams<F>,
    b: AttentionBlockWeights,
    batch: &BatchKvCache,
    layer: int,
    seqs: SeqPlan,
    x: Term<F>,
    positions: Term<F>,
    n: u64,
) -> Term<F> {
    slab_term(
        m,
        batch.k_slab@[layer],
        batch.k_slab_bytes,
        qwen_k(m, p, b, p.rope(false), x, positions, n),
        seqs,
        p.head_dim_k as u64,
        p.n_head_kv as u64,
        seqs.lens.len() as int,
    )
}

/// The value slabs of a layer after a batched pass.
#[verifier::opaque]
pub open spec fn qwen_v_slabs<F: Copy>(
    m: Memory<F>,
    p: &Qwen35MoeParams<F>,
    b: AttentionBlockWeights,
    batch: &BatchKvCache,
    layer: int,
    seqs: SeqPlan,
    x: Term<F>,
    n: u64,
) -> Term<F> {
    slab_term(
        m,
        batch.v_slab@[layer],
        batch.v_slab_bytes,
        qwen_v(m, p, b, x, n),
        seqs,
        p.head_dim_v as u64,
        p.n_head_kv as u64,
        seqs.lens.len() as int,
    )
}

/// The hidden state after the attention half of a batched pass.
#[verifier::opaque]
pub open spec fn qwen_batch_attended<F: Copy>(
    m: Memory<F>,
    p: &Qwen35MoeParams<F>,
    b: AttentionBlockWeights,
    batch: &BatchKvCache,
    layer: int,
    seqs: SeqPlan,
    h: Term<F>,
    positions: Term<F>,
    n: u64,
    decode: bool,
) -> Term<F> {
    let x = fresh(h, matrix(p.n_embd as u64, n));
    let hk = p.head_dim_k as u64;
    let q = qwen_q(m, p, b, p.rope(false), x, positions, n);
    let q_read = if decode {
        through(
            q,
            batched_q(
                dense(Buffer::Scratch { id: 0, bytes: 0 }, headed(hk, p.n_head as u64, n)),
                hk,
                p.n_head as u64,
                n,
                (p.head_dim_v * p.n_head) as u64,
            ),
        )
    } else {
        for_attn(q, hk, p.n_head as u64, n)
    };
    let out = op3_opt(
        Op::FlashAttnBatched { params: p.attn() },
        q_read,
        through(
            qwen_k_slabs(m, p, b, batch, layer, seqs, x, positions, n),
            batch.k_attn@[layer],
        ),
        through(qwen_v_slabs(m, p, b, batch, layer, seqs, x, n), batch.v_attn@[layer]),
        Some(lengths_term(seqs, decode)),
    );
    gate_out(m, p, b, x, qwen_q_full(m, p, b, x, n), out, n, false)
}

/// Record the attention half of a layer over several sequences, each with its
/// own slab. In a decode pass every sequence brings one token.
#[verifier::rlimit(30)]
pub fn attention_block_batch<F: Copy>(
    ctx: &mut DispatchContext<F>,
    att: &AttentionBlockWeights,
    batch: &BatchKvCache,
    layer: usize,
    residual: TensorView,
    positions: TensorView,
    fa_dyn: TensorView,
    seqs: &Sequences,
    p: &Qwen35MoeParams<F>,
    n: u64,
    decode: bool,
) -> (r: Result<(), RecordError>)
    requires
        p.wf(),
        n >= 1,
        quiet(old(ctx).memory()),
        weights_live(old(ctx).memory()),
        att.apart(),
        residual == dense(residual.buffer, matrix(p.n_embd as u64, n)),
        covers(residual),
        residual.buffer is Scratch,
        ready(old(ctx), residual),
        ready(old(ctx), positions),
        positions.buffer is Scratch,
        positions.buffer != residual.buffer,
        fa_dyn == dense(fa_dyn.buffer, matrix(DECODE_DYN_WORDS, seqs.lens@.len() as u64)),
        covers(fa_dyn),
        reserved(old(ctx).memory(), fa_dyn.buffer) && old(ctx).known(fa_dyn.buffer),
        fa_dyn.buffer != residual.buffer,
        fa_dyn.buffer != positions.buffer,
        batch.layered(layer as int + 1),
        seqs.wf(n as int, batch.positions@.len() as int),
    ensures
        final(ctx).region == old(ctx).region,
        final(ctx).replay == old(ctx).replay,
        final(ctx).at() >= old(ctx).at(),
        r matches Err(e) ==> e is ScratchExhausted,
        spends(old(ctx), final(ctx), r is Ok, qwen_batch_attn_bytes(p, n)),
        r is Ok ==> {
            let m = old(ctx).memory();
            let x = read(m, residual);
            &&& content(final(ctx).memory(), residual.buffer) == qwen_batch_attended(
                m,
                p,
                *att,
                batch,
                layer as int,
                seqs@,
                content(m, residual.buffer),
                read(m, positions),
                n,
                decode,
            )
            &&& ready(final(ctx), residual)
            &&& content(final(ctx).memory(), Buffer::KeySlabs(layer as u64)) == qwen_k_slabs(
                m,
                p,
                *att,
                batch,
                layer as int,
                seqs@,
                x,
                read(m, positions),
                n,
            )
            &&& content(final(ctx).memory(), Buffer::ValueSlabs(layer as u64)) == qwen_v_slabs(
                m,
                p,
                *att,
                batch,
                layer as int,
                seqs@,
                x,
                n,
            )
            &&& quiet(final(ctx).memory())
            &&& reserved(final(ctx).memory(), fa_dyn.buffer)
            &&& undisturbed(
                m,
                final(ctx).memory(),
                old(ctx).at(),
                set![
                    residual.buffer,
                    fa_dyn.buffer,
                    Buffer::KeySlabs(layer as u64),
                    Buffer::ValueSlabs(layer as u64),
                ],
            )
        },
{
    proof {
        reveal(qwen_k_slabs);
        reveal(qwen_v_slabs);
        reveal(qwen_batch_attended);
        assert(batch.layer_named(layer as int));
    }
    let ghost m0 = ctx.memory();
    let ghost kb = Buffer::KeySlabs(layer as u64);
    let ghost vb = Buffer::ValueSlabs(layer as u64);
    let ghost changed = set![residual.buffer, fa_dyn.buffer, kb, vb];
    let hidden: u64 = p.n_embd as u64;
    let hk: u64 = p.head_dim_k as u64;
    let hv: u64 = p.head_dim_v as u64;
    let n_head: u64 = p.n_head as u64;
    let n_kv: u64 = p.n_head_kv as u64;
    let eps = p.rms_eps;
    let rope = p.rope_params(false);
    let (q_full, k, v) = record_projections(
        ctx,
        eps,
        residual,
        ProjectionWeights { norm: att.attn_norm, wq: att.wq, wk: att.wk, wv: att.wv },
        hidden,
        p.wq_out() as u64,
        p.n_embd_k_gqa() as u64,
        p.n_embd_v_gqa() as u64,
        n,
    )?;
    let ghost m1 = ctx.memory();
    proof {
        lemma_qwen_sizes(p, n, ctx.region);
        let w = q_width(p);
        assert(4 * w * n * 1 * 1 == 4 * w * n) by (nonlinear_arith);
        assert(ready(ctx, positions) && ready(ctx, residual));
        assert(ready(ctx, att.attn_q_norm) && ready(ctx, att.attn_k_norm) && ready(ctx, att.wo));
        assert(reserved(m1, fa_dyn.buffer));
        assert(content(m1, kb) == content(m0, kb) && content(m1, vb) == content(m0, vb));
    }
    let q_view = slice_q_half(q_full, hk, n_head, n, false);
    let k_view = reshape_for_rope(k, hk, n_kv, n);
    let v_view = reshape_for_rope(v, hv, n_kv, n);
    let q_roped = alloc_headed(ctx, hk, n_head, n)?;
    ctx.apply3(
        Op::NormRopeMulti { params: rope, eps },
        q_view,
        positions,
        att.attn_q_norm,
        q_roped,
        Fence::No,
    );
    let k_roped = alloc_headed(ctx, hk, n_kv, n)?;
    ctx.apply3(
        Op::NormRopeMulti { params: rope, eps },
        k_view,
        positions,
        att.attn_k_norm,
        k_roped,
        Fence::No,
    );
    ctx.barrier2(q_roped, k_roped);
    let ghost m2 = ctx.memory();
    record_slab_writes(ctx, batch, layer, k_roped, v_view, seqs, hk, hv, n_kv, n);
    let ghost m3 = ctx.memory();
    assert(ready(ctx, q_roped) && ready(ctx, residual) && ready(ctx, att.wo));
    assert(reserved(m3, fa_dyn.buffer));
    assert(ready(ctx, q_full) && content(m3, q_full.buffer) == content(m2, q_full.buffer));
    let hv_all: u64 = (p.head_dim_v * p.n_head) as u64;
    let out = ctx.alloc_matrix(hv_all, n)?;
    let q_attn = if decode {
        proof {
            assert(4 * hv_all <= 4 * hv_all * n) by (nonlinear_arith)
                requires
                    n >= 1,
            ;
        }
        batched_q_attn_view(q_roped, hk, n_head, n, hv_all)
    } else {
        permute_to_attn(q_roped, hk, n, n_head)
    };
    let queries: Option<&[u32]> = if decode {
        None
    } else {
        Some(seqs.lens.as_slice())
    };
    ctx.write_lengths(fa_dyn, seqs.kv_lens.as_slice(), seqs.slots.as_slice(), queries);
    ctx.apply3_opt(
        Op::FlashAttnBatched { params: p.attn_params() },
        q_attn,
        batch.k_attn[layer],
        batch.v_attn[layer],
        Some(fa_dyn),
        out,
        Fence::Own,
    );
    let ghost m4 = ctx.memory();
    proof {
        assert forall|y: Buffer| !later(y, old(ctx).at()) && !changed.contains(y) implies content(
            m4,
            y,
        ) == content(m0, y) && (reserved(m0, y) ==> reserved(m4, y)) by {
            assert(content(m1, y) == content(m0, y));
            assert(content(m3, y) == content(m2, y));
        }
        assert(undisturbed(m0, m4, old(ctx).at(), changed));
        assert(ready(ctx, att.wo) && ready(ctx, residual) && ready(ctx, q_full));
    }
    record_gate_out(ctx, p, att, residual, q_full, out, n, false)?;
    proof {
        let m5 = ctx.memory();
        assert(content(m5, kb) == content(m4, kb) && content(m5, vb) == content(m4, vb));
        assert(reserved(m5, fa_dyn.buffer));
        assert forall|y: Buffer| !later(y, old(ctx).at()) && !changed.contains(y) implies content(
            m5,
            y,
        ) == content(m0, y) && (reserved(m0, y) ==> reserved(m5, y)) by {
            assert(content(m4, y) == content(m0, y));
        }
    }
    Ok(())
}

/// The attention half depends on memory through its weights and its cache
/// alone.
pub proof fn lemma_same_attended<F: Copy>(
    a: Memory<F>,
    c: Memory<F>,
    p: &Qwen35MoeParams<F>,
    b: AttentionBlockWeights,
    layer: LayerCache,
    h: Term<F>,
    x: Term<F>,
    positions: Term<F>,
    mask: Option<Term<F>>,
    pass: QwenPass<F>,
)
    requires
        b.apart(),
        same_weights(a, c),
        content(a, layer.k.buffer) == content(c, layer.k.buffer),
        content(a, layer.v.buffer) == content(c, layer.v.buffer),
    ensures
        qwen_attended(a, p, b, layer, h, positions, mask, pass) == qwen_attended(
            c,
            p,
            b,
            layer,
            h,
            positions,
            mask,
            pass,
        ),
        qwen_k_cache(a, p, b, layer, x, positions, pass) == qwen_k_cache(
            c,
            p,
            b,
            layer,
            x,
            positions,
            pass,
        ),
        qwen_v_cache(a, p, b, layer, x, pass) == qwen_v_cache(c, p, b, layer, x, pass),
{
    reveal(qwen_k_cache);
    reveal(qwen_v_cache);
    reveal(qwen_attended);
}

/// The attention half of a batched pass depends on memory through its weights
/// and its slabs alone.
pub proof fn lemma_same_batch_attended<F: Copy>(
    a: Memory<F>,
    c: Memory<F>,
    p: &Qwen35MoeParams<F>,
    b: AttentionBlockWeights,
    batch: &BatchKvCache,
    layer: int,
    seqs: SeqPlan,
    h: Term<F>,
    x: Term<F>,
    positions: Term<F>,
    n: u64,
    decode: bool,
)
    requires
        b.apart(),
        same_weights(a, c),
        0 <= layer < batch.k_attn@.len(),
        batch.layered(layer + 1),
        content(a, Buffer::KeySlabs(layer as u64)) == content(c, Buffer::KeySlabs(layer as u64)),
        content(a, Buffer::ValueSlabs(layer as u64)) == content(
            c,
            Buffer::ValueSlabs(layer as u64),
        ),
    ensures
        qwen_batch_attended(a, p, b, batch, layer, seqs, h, positions, n, decode)
            == qwen_batch_attended(c, p, b, batch, layer, seqs, h, positions, n, decode),
        qwen_k_slabs(a, p, b, batch, layer, seqs, x, positions, n) == qwen_k_slabs(
            c,
            p,
            b,
            batch,
            layer,
            seqs,
            x,
            positions,
            n,
        ),
        qwen_v_slabs(a, p, b, batch, layer, seqs, x, n) == qwen_v_slabs(
            c,
            p,
            b,
            batch,
            layer,
            seqs,
            x,
            n,
        ),
{
    reveal(qwen_k_slabs);
    reveal(qwen_v_slabs);
    reveal(qwen_batch_attended);
    assert(batch.layer_named(layer));
}

} // verus!
