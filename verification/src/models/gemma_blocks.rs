//! Stretches of a forward pass that the Gemma architectures share.
use vstd::prelude::*;

use crate::models::blocks::{
    alloc_headed, gated_bytes, gated_ready, gated_term, lemma_heads_within, projected, ready,
    ready_opt, record_gated, undisturbed, GatedWeights,
};
use crate::models::llama::per_head;
use crate::models::recorder::{
    content, fresh, later, op1, op2, op2_opt, quiet, read, reserved, shape, spends, DispatchContext,
    Fence, Memory, Op, RecordError, RopeParams, Term,
};
use crate::models::tensor::{
    columns, covers, dense, headed, matrix, reshape_for_rope, size, Buffer, TensorView,
};

verus! {

/// Weights that make normalized, rotated heads.
#[derive(Clone, Copy)]
pub struct GemmaHeadWeights {
    pub norm: TensorView,
    pub wq: TensorView,
    pub wk: TensorView,
    /// Absent where the values share the key projection.
    pub wv: Option<TensorView>,
    pub q_norm: TensorView,
    pub k_norm: TensorView,
    /// Frequency factors of the rotation, where the layer has them.
    pub freqs: Option<TensorView>,
}

/// Sizes of a layer's heads.
#[derive(Clone, Copy)]
pub struct GemmaHeads {
    pub head_dim: u64,
    pub n_head: u64,
    pub n_head_kv: u64,
    pub q_dim: u64,
    pub kv_dim: u64,
}

impl GemmaHeads {
    /// The projections are as wide as their heads together.
    pub open spec fn wf(&self) -> bool {
        &&& self.n_head >= 1
        &&& self.n_head_kv >= 1
        &&& self.q_dim == self.head_dim * self.n_head
        &&& self.kv_dim == self.head_dim * self.n_head_kv
    }
}

impl GemmaHeadWeights {
    /// All weights can be read.
    pub open spec fn ready<F: Copy>(&self, ctx: &DispatchContext<F>) -> bool {
        &&& ready(ctx, self.norm)
        &&& ready(ctx, self.wq)
        &&& ready(ctx, self.wk)
        &&& ready_opt(ctx, self.wv)
        &&& ready(ctx, self.q_norm)
        &&& ready(ctx, self.k_norm)
        &&& ready_opt(ctx, self.freqs)
    }

    /// The projection of the values.
    pub open spec fn value(&self) -> TensorView {
        match self.wv {
            Some(w) => w,
            None => self.wk,
        }
    }

    /// The frequency factors' value.
    pub open spec fn factors<F>(&self, m: Memory<F>) -> Option<Term<F>> {
        match self.freqs {
            Some(t) => Some(read(m, t)),
            None => None,
        }
    }
}

/// Heads of a projection, normalized by a weight.
pub open spec fn gemma_normed<F>(
    m: Memory<F>,
    eps: F,
    x: Term<F>,
    norm: TensorView,
    w: TensorView,
    head_norm: TensorView,
    width: u64,
    proj: u64,
    head_dim: u64,
    heads: u64,
    l: u64,
) -> Term<F> {
    fresh(
        op2(
            Op::RmsNorm { eps },
            per_head(projected(m, eps, x, norm, w, width, l), proj, head_dim, heads, l),
            read(m, head_norm),
        ),
        headed(head_dim, heads, l),
    )
}

/// The queries of a layer, normalized and rotated.
pub open spec fn gemma_q<F>(
    m: Memory<F>,
    eps: F,
    rope: RopeParams<F>,
    x: Term<F>,
    w: GemmaHeadWeights,
    width: u64,
    h: GemmaHeads,
    positions: Term<F>,
    l: u64,
) -> Term<F> {
    op2_opt(
        Op::RopeNeox { params: rope },
        gemma_normed(m, eps, x, w.norm, w.wq, w.q_norm, width, h.q_dim, h.head_dim, h.n_head, l),
        positions,
        w.factors(m),
    )
}

/// The keys of a layer, normalized and rotated.
pub open spec fn gemma_k<F>(
    m: Memory<F>,
    eps: F,
    rope: RopeParams<F>,
    x: Term<F>,
    w: GemmaHeadWeights,
    width: u64,
    h: GemmaHeads,
    positions: Term<F>,
    l: u64,
) -> Term<F> {
    op2_opt(
        Op::RopeNeox { params: rope },
        gemma_normed(
            m,
            eps,
            x,
            w.norm,
            w.wk,
            w.k_norm,
            width,
            h.kv_dim,
            h.head_dim,
            h.n_head_kv,
            l,
        ),
        positions,
        w.factors(m),
    )
}

/// The values of a layer, normalized without a weight.
pub open spec fn gemma_v<F>(
    m: Memory<F>,
    eps: F,
    x: Term<F>,
    w: GemmaHeadWeights,
    width: u64,
    h: GemmaHeads,
    l: u64,
) -> Term<F> {
    op1(
        Op::RmsNormPlain { eps },
        per_head(
            projected(m, eps, x, w.norm, w.value(), width, l),
            h.kv_dim,
            h.head_dim,
            h.n_head_kv,
            l,
        ),
    )
}

/// A tensor of heads of its own that holds `value`.
pub open spec fn holds_heads<F: Copy>(
    ctx: &DispatchContext<F>,
    t: TensorView,
    head_dim: u64,
    heads: u64,
    l: u64,
    value: Term<F>,
) -> bool {
    &&& t == dense(t.buffer, headed(head_dim, heads, l))
    &&& t.buffer is Scratch
    &&& ready(ctx, t)
    &&& content(ctx.memory(), t.buffer) == value
}

/// Scratch that the heads of a layer take, with values of their own or without.
pub open spec fn gemma_heads_bytes(own_values: bool, width: u64, h: GemmaHeads, l: u64) -> nat {
    size(matrix(width, l)) + size(matrix(h.q_dim, l)) + if own_values {
        2 * size(matrix(h.kv_dim, l))
    } else {
        size(matrix(h.kv_dim, l))
    } + 2 * size(headed(h.head_dim, h.n_head, l)) + 3 * size(headed(h.head_dim, h.n_head_kv, l))
}

/// Record the heads of a layer.
pub fn record_gemma_heads<F: Copy>(
    ctx: &mut DispatchContext<F>,
    eps: F,
    rope: RopeParams<F>,
    x: TensorView,
    w: GemmaHeadWeights,
    width: u64,
    h: GemmaHeads,
    positions: TensorView,
    l: u64,
) -> (r: Result<(TensorView, TensorView, TensorView), RecordError>)
    requires
        l >= 1,
        h.wf(),
        quiet(old(ctx).memory()),
        ready(old(ctx), x),
        ready(old(ctx), positions),
        w.ready(old(ctx)),
    ensures
        final(ctx).region == old(ctx).region,
        final(ctx).replay == old(ctx).replay,
        final(ctx).at() >= old(ctx).at(),
        r matches Err(e) ==> e is ScratchExhausted,
        spends(old(ctx), final(ctx), r is Ok, gemma_heads_bytes(w.wv is Some, width, h, l)),
        r is Ok ==> {
            &&& 4 * width * l <= old(ctx).region
            &&& 4 * h.q_dim * l <= old(ctx).region
            &&& 4 * h.kv_dim * l <= old(ctx).region
        },
        r matches Ok((q, k, v)) ==> {
            let m = old(ctx).memory();
            &&& holds_heads(
                final(ctx),
                q,
                h.head_dim,
                h.n_head,
                l,
                gemma_q(m, eps, rope, read(m, x), w, width, h, read(m, positions), l),
            )
            &&& holds_heads(
                final(ctx),
                k,
                h.head_dim,
                h.n_head_kv,
                l,
                gemma_k(m, eps, rope, read(m, x), w, width, h, read(m, positions), l),
            )
            &&& holds_heads(
                final(ctx),
                v,
                h.head_dim,
                h.n_head_kv,
                l,
                gemma_v(m, eps, read(m, x), w, width, h, l),
            )
            &&& later(q.buffer, old(ctx).at())
            &&& later(k.buffer, old(ctx).at())
            &&& later(v.buffer, old(ctx).at())
            &&& quiet(final(ctx).memory())
            &&& undisturbed(m, final(ctx).memory(), old(ctx).at(), Set::empty())
        },
{
    let n = ctx.alloc_matrix(width, l)?;
    ctx.apply2(Op::RmsNorm { eps }, x, w.norm, n, Fence::Own);
    let q = ctx.alloc_matrix(h.q_dim, l)?;
    ctx.apply2(Op::MatMul, w.wq, n, q, Fence::No);
    let k = ctx.alloc_matrix(h.kv_dim, l)?;
    ctx.apply2(Op::MatMul, w.wk, n, k, Fence::No);
    let v = match w.wv {
        Some(wv) => {
            let v = ctx.alloc_matrix(h.kv_dim, l)?;
            ctx.apply2(Op::MatMul, wv, n, v, Fence::No);
            ctx.barrier3(q, k, v);
            v
        },
        None => {
            ctx.barrier2(q, k);
            k
        },
    };
    proof {
        lemma_heads_within(h.head_dim, h.n_head, h.q_dim, l, ctx.region);
        lemma_heads_within(h.head_dim, h.n_head_kv, h.kv_dim, l, ctx.region);
    }
    let q_view = reshape_for_rope(q, h.head_dim, h.n_head, l);
    let q_normed = alloc_headed(ctx, h.head_dim, h.n_head, l)?;
    ctx.apply2(Op::RmsNorm { eps }, q_view, w.q_norm, q_normed, Fence::No);
    let k_view = reshape_for_rope(k, h.head_dim, h.n_head_kv, l);
    let k_normed = alloc_headed(ctx, h.head_dim, h.n_head_kv, l)?;
    ctx.apply2(Op::RmsNorm { eps }, k_view, w.k_norm, k_normed, Fence::No);
    let v_view = reshape_for_rope(v, h.head_dim, h.n_head_kv, l);
    let v_normed = alloc_headed(ctx, h.head_dim, h.n_head_kv, l)?;
    ctx.apply1(Op::RmsNormPlain { eps }, v_view, v_normed, Fence::No);
    ctx.barrier3(q_normed, k_normed, v_normed);
    let q_roped = alloc_headed(ctx, h.head_dim, h.n_head, l)?;
    let k_roped = alloc_headed(ctx, h.head_dim, h.n_head_kv, l)?;
    ctx.apply2_opt(
        Op::RopeNeox { params: rope },
        q_normed,
        positions,
        w.freqs,
        q_roped,
        Fence::No,
    );
    ctx.apply2_opt(
        Op::RopeNeox { params: rope },
        k_normed,
        positions,
        w.freqs,
        k_roped,
        Fence::No,
    );
    ctx.barrier2(q_roped, k_roped);
    Ok((q_roped, k_roped, v_normed))
}

/// `x` plus the normalized output projection of `out`.
pub open spec fn sandwich_out<F>(
    m: Memory<F>,
    eps: F,
    x: Term<F>,
    out: Term<F>,
    wo: TensorView,
    post: TensorView,
    width: u64,
    l: u64,
) -> Term<F> {
    let cols = matrix(width, l);
    op2(
        Op::Add,
        x,
        fresh(
            op2(
                Op::RmsNorm { eps },
                fresh(op2(Op::MatMul, read(m, wo), out), cols),
                read(m, post),
            ),
            cols,
        ),
    )
}

/// Record `residual += norm(wo * out)`.
pub fn record_sandwich_out<F: Copy>(
    ctx: &mut DispatchContext<F>,
    eps: F,
    residual: TensorView,
    out: TensorView,
    wo: TensorView,
    post: TensorView,
    width: u64,
    l: u64,
) -> (r: Result<(), RecordError>)
    requires
        l >= 1,
        quiet(old(ctx).memory()),
        residual == dense(residual.buffer, matrix(width, l)),
        covers(residual),
        ready(old(ctx), residual),
        ready(old(ctx), out),
        out.buffer != residual.buffer,
        ready(old(ctx), wo),
        ready(old(ctx), post),
    ensures
        final(ctx).region == old(ctx).region,
        final(ctx).replay == old(ctx).replay,
        final(ctx).at() >= old(ctx).at(),
        r matches Err(e) ==> e is ScratchExhausted,
        spends(old(ctx), final(ctx), r is Ok, 2 * size(matrix(width, l))),
        r is Ok ==> 4 * width * l <= old(ctx).region,
        r is Ok ==> {
            let m = old(ctx).memory();
            &&& content(final(ctx).memory(), residual.buffer) == sandwich_out(
                m,
                eps,
                read(m, residual),
                read(m, out),
                wo,
                post,
                width,
                l,
            )
            &&& quiet(final(ctx).memory())
            &&& undisturbed(m, final(ctx).memory(), old(ctx).at(), set![residual.buffer])
        },
{
    let proj = ctx.alloc_matrix(width, l)?;
    ctx.apply2(Op::MatMul, wo, out, proj, Fence::Own);
    let normed = ctx.alloc_matrix(width, l)?;
    ctx.apply2(Op::RmsNorm { eps }, proj, post, normed, Fence::Own);
    ctx.apply2(Op::Add, residual, normed, residual, Fence::Own);
    Ok(())
}

/// The gated stretch of `x`, normalized.
pub open spec fn gated_normed<F>(
    m: Memory<F>,
    eps: F,
    x: Term<F>,
    w: GatedWeights,
    post: TensorView,
    width: u64,
    inner: u64,
    l: u64,
) -> Term<F> {
    fresh(
        op2(
            Op::RmsNorm { eps },
            gated_term(m, Op::Gelu, eps, x, w, width, inner, l),
            read(m, post),
        ),
        matrix(width, l),
    )
}

/// Record the gated stretch of `x`, normalized; the result is a tensor of its
/// own.
pub fn record_gated_normed<F: Copy>(
    ctx: &mut DispatchContext<F>,
    eps: F,
    x: TensorView,
    w: GatedWeights,
    post: TensorView,
    width: u64,
    inner: u64,
    l: u64,
) -> (r: Result<TensorView, RecordError>)
    requires
        l >= 1,
        quiet(old(ctx).memory()),
        ready(old(ctx), x),
        gated_ready(old(ctx), w),
        ready(old(ctx), post),
    ensures
        final(ctx).region == old(ctx).region,
        final(ctx).replay == old(ctx).replay,
        final(ctx).at() >= old(ctx).at(),
        r matches Err(e) ==> e is ScratchExhausted,
        spends(
            old(ctx),
            final(ctx),
            r is Ok,
            gated_bytes(width, inner, l) + size(matrix(width, l)),
        ),
        r is Ok ==> 4 * width * l <= old(ctx).region && 4 * inner * l <= old(ctx).region,
        r matches Ok(t) ==> {
            let m = old(ctx).memory();
            &&& ready(final(ctx), t)
            &&& later(t.buffer, old(ctx).at())
            &&& read(final(ctx).memory(), t) == gated_normed(
                m,
                eps,
                read(m, x),
                w,
                post,
                width,
                inner,
                l,
            )
            &&& quiet(final(ctx).memory())
            &&& undisturbed(m, final(ctx).memory(), old(ctx).at(), Set::empty())
        },
{
    let ghost m0 = ctx.memory();
    let down = record_gated(ctx, Op::Gelu, eps, x, w, width, inner, l)?;
    let ghost m1 = ctx.memory();
    assert(ready(ctx, post) && content(m1, post.buffer) == content(m0, post.buffer));
    let normed = ctx.alloc_matrix(width, l)?;
    ctx.apply2(Op::RmsNorm { eps }, down, post, normed, Fence::Own);
    proof {
        assert forall|b: Buffer| !later(b, old(ctx).at()) implies content(ctx.memory(), b)
            == content(m0, b) && (reserved(m0, b) ==> reserved(ctx.memory(), b)) by {
            assert(content(m1, b) == content(m0, b));
        }
    }
    Ok(normed)
}

/// What a matrix of `l` columns holds once `value` is written over `count`
/// columns from `at` on.
pub open spec fn over_columns<F>(
    h: Term<F>,
    width: u64,
    l: u64,
    at: int,
    count: int,
    value: Term<F>,
) -> Term<F> {
    if at == 0 && count == l {
        value
    } else {
        Term::Patch {
            into: Box::new(h),
            at: shape(
                columns(dense(Buffer::Scratch { id: 0, bytes: 0 }, matrix(width, l)), at, count),
            ),
            with: Box::new(value),
        }
    }
}

/// A slice of columns lies within its matrix, and covers it only where it takes
/// every column.
pub proof fn lemma_columns(t: TensorView, width: u64, l: u64, at: int, count: int)
    requires
        width >= 1,
        t == dense(t.buffer, matrix(width, l)),
        covers(t),
        4 * width * l <= u64::MAX,
        count >= 1,
        at >= 0,
        at + count <= l,
    ensures
        t.byte_stride.d1 == 4 * width,
        0 <= at * t.byte_stride.d1 <= u64::MAX,
        0 <= count * t.byte_stride.d1 <= u64::MAX,
        t.buffer is Scratch ==> (covers(columns(t, at, count)) <==> at == 0 && count == l),
{
    assert(4 * width <= 4 * width * l) by (nonlinear_arith)
        requires
            l >= 1,
    ;
    let col = t.byte_stride.d1 as int;
    assert(col == 4 * width);
    assert(at * col <= 4 * width * l && count * col <= 4 * width * l && at * col >= 0)
        by (nonlinear_arith)
        requires
            col == 4 * width,
            at + count <= l,
            at >= 0,
            count >= 0,
    ;
    assert((at * col == 0 <==> at == 0) && (count * col == 4 * width * l <==> count == l))
        by (nonlinear_arith)
        requires
            col == 4 * width,
            width >= 1,
            at >= 0,
    ;
    assert(4 * width * l * 1 * 1 == 4 * width * l) by (nonlinear_arith);
}

/// How final logits are bounded: `cap * tanh(x / cap)`.
#[derive(Clone, Copy)]
pub struct Softcap<F> {
    pub inverse: F,
    pub cap: F,
}

/// Logits after the bound, if there is one.
pub open spec fn capped<F>(cap: Option<Softcap<F>>, logits: Term<F>, vocab: u64, columns: u64) -> Term<
    F,
> {
    let d = matrix(vocab, columns);
    match cap {
        Some(c) => op1(
            Op::Scale { by: c.cap },
            fresh(
                op1(Op::Tanh, fresh(op1(Op::Scale { by: c.inverse }, fresh(logits, d)), d)),
                d,
            ),
        ),
        None => logits,
    }
}

/// Record the bound on logits, in place.
pub fn record_softcap<F: Copy>(
    ctx: &mut DispatchContext<F>,
    cap: Option<Softcap<F>>,
    logits: TensorView,
    vocab: u64,
    columns: u64,
)
    requires
        quiet(old(ctx).memory()),
        logits == dense(logits.buffer, matrix(vocab, columns)),
        covers(logits),
        ready(old(ctx), logits),
    ensures
        final(ctx).region == old(ctx).region,
        final(ctx).replay == old(ctx).replay,
        final(ctx).used == old(ctx).used,
        final(ctx).at() >= old(ctx).at(),
        ready(final(ctx), logits),
        content(final(ctx).memory(), logits.buffer) == capped(
            cap,
            content(old(ctx).memory(), logits.buffer),
            vocab,
            columns,
        ),
        quiet(final(ctx).memory()),
        undisturbed(
            old(ctx).memory(),
            final(ctx).memory(),
            old(ctx).at(),
            set![logits.buffer],
        ),
{
    match cap {
        Some(c) => {
            ctx.apply1(Op::Scale { by: c.inverse }, logits, logits, Fence::Own);
            ctx.apply1(Op::Tanh, logits, logits, Fence::Own);
            ctx.apply1(Op::Scale { by: c.cap }, logits, logits, Fence::Own);
        },
        None => {},
    }
}

} // verus!
