//! Stretches of a forward pass that several architectures share.
use vstd::prelude::*;

use crate::models::recorder::{
    content, fresh, later, op1, op2, quiet, read, readable, released, reserved, shape, spends,
    through, DispatchContext, Fence, Memory, Op, RecordError, Term,
};
use crate::models::cache::{slab_of, BatchKvCache};
use crate::models::tensor::{
    attn_view, dense, headed, last_column, lemma_headed_fits, lemma_size, matrix, one_column,
    permute_to_attn, prefix_view, size, slice_cache_prefix, Buffer, Dims, TensorView,
};

verus! {

/// Every buffer but the `changed` ones, and scratch reserved from `mark` on,
/// holds what it held.
pub open spec fn undisturbed<F>(
    before: Memory<F>,
    after: Memory<F>,
    mark: int,
    changed: Set<Buffer>,
) -> bool {
    forall|b: Buffer|
        #![trigger content(after, b)]
        #![trigger reserved(after, b)]
        !later(b, mark) && !changed.contains(b) ==> content(after, b) == content(before, b) && (
        reserved(before, b) ==> reserved(after, b))
}

/// The view can be read, and its scratch was reserved before now.
pub open spec fn ready<F: Copy>(ctx: &DispatchContext<F>, t: TensorView) -> bool {
    readable(ctx.memory(), t) && ctx.known(t.buffer)
}

/// The view can be read, if there is one.
pub open spec fn ready_opt<F: Copy>(ctx: &DispatchContext<F>, t: Option<TensorView>) -> bool {
    t matches Some(v) ==> ready(ctx, v)
}

/// Nothing among the weights is left unset.
pub open spec fn weights_live<F>(m: Memory<F>) -> bool {
    forall|b: Buffer|
        #![trigger content(m, b)]
        b is Weights ==> !(content(m, b) is Unset)
}

/// Both memories hold the same weights.
pub open spec fn same_weights<F>(a: Memory<F>, c: Memory<F>) -> bool {
    forall|b: Buffer| #![trigger content(a, b)] b is Weights ==> content(a, b) == content(c, b)
}

/// Weights of a gated feed-forward stretch.
#[derive(Clone, Copy)]
pub struct GatedWeights {
    pub norm: TensorView,
    pub gate: TensorView,
    pub up: TensorView,
    pub down: TensorView,
}

/// All of the weights can be read.
pub open spec fn gated_ready<F: Copy>(ctx: &DispatchContext<F>, w: GatedWeights) -> bool {
    &&& ready(ctx, w.norm)
    &&& ready(ctx, w.gate)
    &&& ready(ctx, w.up)
    &&& ready(ctx, w.down)
}

/// `down * (act(gate * n) . (up * n))` of the normalized `n` of `x`.
pub open spec fn gated_term<F>(
    m: Memory<F>,
    act: Op<F>,
    eps: F,
    x: Term<F>,
    w: GatedWeights,
    width: u64,
    inner: u64,
    l: u64,
) -> Term<F> {
    let n = fresh(op2(Op::RmsNorm { eps }, x, read(m, w.norm)), matrix(width, l));
    let gate = fresh(op2(Op::MatMul, read(m, w.gate), n), matrix(inner, l));
    let up = fresh(op2(Op::MatMul, read(m, w.up), n), matrix(inner, l));
    let gated = fresh(op1(act, gate), matrix(inner, l));
    let both = fresh(op2(Op::Mul, gated, up), matrix(inner, l));
    fresh(op2(Op::MatMul, read(m, w.down), both), matrix(width, l))
}

/// Scratch that a gated feed-forward stretch takes.
pub open spec fn gated_bytes(width: u64, inner: u64, l: u64) -> nat {
    2 * size(matrix(width, l)) + 4 * size(matrix(inner, l))
}

/// Record a gated feed-forward stretch on `x`; the result is a tensor of its own.
pub fn record_gated<F: Copy>(
    ctx: &mut DispatchContext<F>,
    act: Op<F>,
    eps: F,
    x: TensorView,
    w: GatedWeights,
    width: u64,
    inner: u64,
    l: u64,
) -> (r: Result<TensorView, RecordError>)
    requires
        l >= 1,
        quiet(old(ctx).memory()),
        ready(old(ctx), x),
        gated_ready(old(ctx), w),
    ensures
        final(ctx).region == old(ctx).region,
        final(ctx).replay == old(ctx).replay,
        final(ctx).at() >= old(ctx).at(),
        r matches Err(e) ==> e is ScratchExhausted,
        spends(old(ctx), final(ctx), r is Ok, gated_bytes(width, inner, l)),
        r is Ok ==> 4 * width * l <= old(ctx).region && 4 * inner * l <= old(ctx).region,
        r matches Ok(t) ==> {
            &&& ready(final(ctx), t)
            &&& later(t.buffer, old(ctx).at())
            &&& read(final(ctx).memory(), t) == gated_term(
                old(ctx).memory(),
                act,
                eps,
                read(old(ctx).memory(), x),
                w,
                width,
                inner,
                l,
            )
            &&& quiet(final(ctx).memory())
            &&& undisturbed(old(ctx).memory(), final(ctx).memory(), old(ctx).at(), Set::empty())
        },
{
    let n = ctx.alloc_matrix(width, l)?;
    ctx.apply2(Op::RmsNorm { eps }, x, w.norm, n, Fence::Own);
    let gate = ctx.alloc_matrix(inner, l)?;
    ctx.apply2(Op::MatMul, w.gate, n, gate, Fence::No);
    let up = ctx.alloc_matrix(inner, l)?;
    ctx.apply2(Op::MatMul, w.up, n, up, Fence::No);
    ctx.barrier2(gate, up);
    let gated = ctx.alloc_matrix(inner, l)?;
    ctx.apply1(act, gate, gated, Fence::Own);
    let both = ctx.alloc_matrix(inner, l)?;
    ctx.apply2(Op::Mul, gated, up, both, Fence::Own);
    let down = ctx.alloc_matrix(width, l)?;
    ctx.apply2(Op::MatMul, w.down, both, down, Fence::Own);
    Ok(down)
}

/// Record `residual += gated(residual)`.
pub fn record_gated_residual<F: Copy>(
    ctx: &mut DispatchContext<F>,
    act: Op<F>,
    eps: F,
    residual: TensorView,
    w: GatedWeights,
    width: u64,
    inner: u64,
    l: u64,
) -> (r: Result<(), RecordError>)
    requires
        l >= 1,
        quiet(old(ctx).memory()),
        residual == dense(residual.buffer, matrix(width, l)),
        crate::models::tensor::covers(residual),
        ready(old(ctx), residual),
        gated_ready(old(ctx), w),
    ensures
        final(ctx).region == old(ctx).region,
        final(ctx).replay == old(ctx).replay,
        final(ctx).at() >= old(ctx).at(),
        r matches Err(e) ==> e is ScratchExhausted,
        spends(old(ctx), final(ctx), r is Ok, gated_bytes(width, inner, l)),
        r is Ok ==> 4 * width * l <= old(ctx).region && 4 * inner * l <= old(ctx).region,
        r is Ok ==> {
            let m = old(ctx).memory();
            let x = read(m, residual);
            &&& content(final(ctx).memory(), residual.buffer) == op2(
                Op::Add,
                x,
                gated_term(m, act, eps, x, w, width, inner, l),
            )
            &&& quiet(final(ctx).memory())
            &&& undisturbed(m, final(ctx).memory(), old(ctx).at(), set![residual.buffer])
        },
{
    let down = record_gated(ctx, act, eps, residual, w, width, inner, l)?;
    let ghost m1 = ctx.memory();
    assert(ready(ctx, residual));
    ctx.apply2(Op::Add, residual, down, residual, Fence::Own);
    proof {
        let m0 = old(ctx).memory();
        assert forall|x: Buffer|
            !later(x, old(ctx).at()) && !set![residual.buffer].contains(x) implies content(
            ctx.memory(),
            x,
        ) == content(m0, x) && (reserved(m0, x) ==> reserved(ctx.memory(), x)) by {
            assert(content(m1, x) == content(m0, x));
        }
    }
    Ok(())
}

/// Releasing scratch from `mark` on leaves everything else alone.
pub proof fn lemma_released<F>(m: Memory<F>, mark: int)
    ensures
        undisturbed(m, released(m, mark), mark, Set::empty()),
        quiet(m) ==> quiet(released(m, mark)),
{
    assert forall|b: Buffer| !later(b, mark) implies content(released(m, mark), b) == content(m, b)
        && (reserved(m, b) ==> reserved(released(m, mark), b)) by {
        let gone = Set::new(|x: Buffer| later(x, mark));
        assert(!gone.contains(b));
        assert(m.held.remove_keys(gone).contains_key(b) <==> m.held.contains_key(b));
    }
}

/// Weights that project a normalized input to queries, keys and values.
#[derive(Clone, Copy)]
pub struct ProjectionWeights {
    pub norm: TensorView,
    pub wq: TensorView,
    pub wk: TensorView,
    pub wv: TensorView,
}

/// All of the weights can be read.
pub open spec fn projection_ready<F: Copy>(ctx: &DispatchContext<F>, w: ProjectionWeights) -> bool {
    &&& ready(ctx, w.norm)
    &&& ready(ctx, w.wq)
    &&& ready(ctx, w.wk)
    &&& ready(ctx, w.wv)
}

/// `w` times the normalized `x`, before it is read back.
pub open spec fn projected<F>(
    m: Memory<F>,
    eps: F,
    x: Term<F>,
    norm: TensorView,
    w: TensorView,
    width: u64,
    l: u64,
) -> Term<F> {
    op2(
        Op::MatMul,
        read(m, w),
        fresh(op2(Op::RmsNorm { eps }, x, read(m, norm)), matrix(width, l)),
    )
}

/// A tensor of its own that holds `value`, in a recording that is at rest.
pub open spec fn holds_fresh<F: Copy>(
    ctx: &DispatchContext<F>,
    t: TensorView,
    d: Dims,
    value: Term<F>,
) -> bool {
    &&& t == dense(t.buffer, d)
    &&& t.buffer is Scratch
    &&& ready(ctx, t)
    &&& content(ctx.memory(), t.buffer) == value
}

/// Scratch that projections take.
pub open spec fn projection_bytes(width: u64, q: u64, k: u64, v: u64, l: u64) -> nat {
    size(matrix(width, l)) + size(matrix(q, l)) + size(matrix(k, l)) + size(matrix(v, l))
}

/// Record the projections of the normalized `x`: three products that overlap,
/// under one barrier.
pub fn record_projections<F: Copy>(
    ctx: &mut DispatchContext<F>,
    eps: F,
    x: TensorView,
    w: ProjectionWeights,
    width: u64,
    q_width: u64,
    k_width: u64,
    v_width: u64,
    l: u64,
) -> (r: Result<(TensorView, TensorView, TensorView), RecordError>)
    requires
        l >= 1,
        quiet(old(ctx).memory()),
        ready(old(ctx), x),
        projection_ready(old(ctx), w),
    ensures
        final(ctx).region == old(ctx).region,
        final(ctx).replay == old(ctx).replay,
        final(ctx).at() >= old(ctx).at(),
        r matches Err(e) ==> e is ScratchExhausted,
        spends(
            old(ctx),
            final(ctx),
            r is Ok,
            projection_bytes(width, q_width, k_width, v_width, l),
        ),
        r is Ok ==> {
            &&& 4 * width * l <= old(ctx).region
            &&& 4 * q_width * l <= old(ctx).region
            &&& 4 * k_width * l <= old(ctx).region
            &&& 4 * v_width * l <= old(ctx).region
        },
        r matches Ok((q, k, v)) ==> {
            let m = old(ctx).memory();
            &&& holds_fresh(
                final(ctx),
                q,
                matrix(q_width, l),
                projected(m, eps, read(m, x), w.norm, w.wq, width, l),
            )
            &&& holds_fresh(
                final(ctx),
                k,
                matrix(k_width, l),
                projected(m, eps, read(m, x), w.norm, w.wk, width, l),
            )
            &&& holds_fresh(
                final(ctx),
                v,
                matrix(v_width, l),
                projected(m, eps, read(m, x), w.norm, w.wv, width, l),
            )
            &&& later(q.buffer, old(ctx).at())
            &&& later(k.buffer, old(ctx).at())
            &&& later(v.buffer, old(ctx).at())
            &&& quiet(final(ctx).memory())
            &&& undisturbed(m, final(ctx).memory(), old(ctx).at(), Set::empty())
        },
{
    let n = ctx.alloc_matrix(width, l)?;
    ctx.apply2(Op::RmsNorm { eps }, x, w.norm, n, Fence::Own);
    let q = ctx.alloc_matrix(q_width, l)?;
    ctx.apply2(Op::MatMul, w.wq, n, q, Fence::No);
    let k = ctx.alloc_matrix(k_width, l)?;
    ctx.apply2(Op::MatMul, w.wk, n, k, Fence::No);
    let v = ctx.alloc_matrix(v_width, l)?;
    ctx.apply2(Op::MatMul, w.wv, n, v, Fence::No);
    ctx.barrier3(q, k, v);
    Ok((q, k, v))
}

/// Reserve a tensor of `heads` heads for each of `l` tokens.
pub fn alloc_headed<F: Copy>(ctx: &mut DispatchContext<F>, head_dim: u64, heads: u64, l: u64) -> (r:
    Result<TensorView, RecordError>)
    requires
        heads >= 1,
        l >= 1,
    ensures
        final(ctx).region == old(ctx).region,
        final(ctx).replay == old(ctx).replay,
        r matches Err(e) ==> e is ScratchExhausted,
        spends(old(ctx), final(ctx), r is Ok, size(headed(head_dim, heads, l))),
        size(headed(head_dim, heads, l)) == 4 * head_dim * heads * l,
        r is Ok ==> 4 * head_dim * heads * l <= old(ctx).region,
        r is Err ==> final(ctx).memory() == old(ctx).memory() && final(ctx).at() == old(ctx).at()
            && final(ctx).used == old(ctx).used,
        r matches Ok(t) ==> {
            &&& t == dense(t.buffer, headed(head_dim, heads, l))
            &&& t.buffer matches Buffer::Scratch { id, bytes: _ } && id == old(ctx).at()
            &&& crate::models::tensor::covers(t)
            &&& final(ctx).at() == old(ctx).at() + 1
            &&& final(ctx).memory().held == old(ctx).memory().held.insert(t.buffer, Term::Unset)
            &&& final(ctx).memory().pending == old(ctx).memory().pending
        },
{
    proof {
        lemma_headed_fits(ctx.region, head_dim, heads, l);
        lemma_size(ctx.region, headed(head_dim, heads, l));
        assert(4 * head_dim * heads * l * 1 == 4 * head_dim * heads * l);
    }
    ctx.alloc_tensor(Dims { d0: head_dim, d1: heads, d2: l, d3: 1 })
}

/// Sizes of heads that fit `room`.
pub proof fn lemma_headed_sizes(head_dim: u64, heads: u64, l: u64, room: u64)
    requires
        4 * head_dim * heads * l <= room,
        heads >= 1,
        l >= 1,
    ensures
        4 * head_dim <= room,
        4 * head_dim * heads <= room,
        head_dim * heads <= u64::MAX,
        head_dim * heads * l <= u64::MAX,
{
    assert(4 * head_dim * heads <= 4 * head_dim * heads * l) by (nonlinear_arith)
        requires
            l >= 1,
    ;
    assert(4 * head_dim <= 4 * head_dim * heads) by (nonlinear_arith)
        requires
            heads >= 1,
    ;
    assert(head_dim * heads <= 4 * head_dim * heads) by (nonlinear_arith);
    assert(head_dim * heads * l <= 4 * head_dim * heads * l) by (nonlinear_arith);
}

/// Sizes of heads that fit within a `[width, l]` matrix within `room`.
pub proof fn lemma_heads_within(head_dim: u64, heads: u64, width: u64, l: u64, room: u64)
    requires
        head_dim * heads <= width,
        4 * width * l <= room,
        heads >= 1,
        l >= 1,
    ensures
        4 * head_dim <= room,
        4 * head_dim * heads <= room,
        4 * head_dim * heads * l <= room,
        head_dim * heads <= u64::MAX,
        head_dim * heads * l <= u64::MAX,
{
    assert(4 * head_dim * heads * l == 4 * (head_dim * heads) * l) by (nonlinear_arith);
    assert(4 * (head_dim * heads) * l <= 4 * width * l) by (nonlinear_arith)
        requires
            head_dim * heads <= width,
            l >= 1,
    ;
    lemma_headed_sizes(head_dim, heads, l, room);
}

/// A layer of the cache: keys and values of one layer of one sequence.
#[derive(Clone, Copy)]
pub struct LayerCache {
    pub k: TensorView,
    pub v: TensorView,
}

/// The layer has room for `len` tokens of `heads` heads of `head_dim`.
pub open spec fn holds_tokens(t: TensorView, head_dim: u64, heads: u64, len: u64) -> bool {
    &&& t.byte_stride.d2 * len <= u64::MAX
    &&& t.byte_stride.d0 * head_dim <= u64::MAX
    &&& t.byte_stride.d0 * head_dim * heads <= u64::MAX
    &&& t.byte_stride.d0 * head_dim * heads * len <= u64::MAX
    &&& head_dim * heads <= u64::MAX
    &&& head_dim * heads * len <= u64::MAX
}

/// A cache buffer after `value`, read through `src`, is written from `position`
/// on.
pub open spec fn cached<F>(m: Memory<F>, layer: TensorView, position: u32, value: Term<F>) -> Term<
    F,
> {
    Term::Patch {
        into: Box::new(content(m, layer.buffer)),
        at: shape(layer),
        with: Box::new(op1(Op::CacheWrite { position }, value)),
    }
}

/// The first `len` tokens of a cache layer that holds `held`, as attention reads
/// them: in place where the types allow it, else through a converted copy.
pub open spec fn attended<F>(
    held: Term<F>,
    layer: TensorView,
    head_dim: u64,
    heads: u64,
    len: u64,
    direct: bool,
) -> Term<F> {
    if direct {
        through(held, attn_view(prefix_view(layer, len), head_dim, len, heads))
    } else {
        through(
            op1(Op::CacheRead { len: len as u32 }, through(held, layer)),
            attn_view(dense(layer.buffer, headed(head_dim, heads, len)), head_dim, len, heads),
        )
    }
}

/// Scratch that reading a cache back takes: none where it is read in place.
pub open spec fn cached_bytes(
    k_dim: u64,
    v_dim: u64,
    heads: u64,
    total_len: u64,
    direct: bool,
) -> nat {
    if direct {
        0
    } else {
        size(headed(k_dim, heads, total_len)) + size(headed(v_dim, heads, total_len))
    }
}

/// Record the write of keys and values to a cache layer, and find the views
/// through which attention reads the first `total_len` tokens back.
pub fn record_cached<F: Copy>(
    ctx: &mut DispatchContext<F>,
    k: TensorView,
    v: TensorView,
    layer: LayerCache,
    position: u32,
    total_len: u32,
    k_dim: u64,
    v_dim: u64,
    heads: u64,
    direct: bool,
) -> (r: Result<(TensorView, TensorView), RecordError>)
    requires
        quiet(old(ctx).memory()),
        ready(old(ctx), k),
        ready(old(ctx), v),
        k.buffer is Scratch,
        v.buffer is Scratch,
        !(layer.k.buffer is Scratch),
        !(layer.v.buffer is Scratch),
        layer.k.buffer != layer.v.buffer,
        heads >= 1,
        total_len >= 1,
        holds_tokens(layer.k, k_dim, heads, total_len as u64),
        holds_tokens(layer.v, v_dim, heads, total_len as u64),
    ensures
        final(ctx).region == old(ctx).region,
        final(ctx).replay == old(ctx).replay,
        final(ctx).at() >= old(ctx).at(),
        r matches Err(e) ==> e is ScratchExhausted,
        direct ==> r is Ok && final(ctx).used == old(ctx).used,
        !direct ==> spends(
            old(ctx),
            final(ctx),
            r is Ok,
            cached_bytes(k_dim, v_dim, heads, total_len as u64, direct),
        ),
        r is Ok ==> direct || {
            &&& 4 * k_dim * heads * total_len <= old(ctx).region
            &&& 4 * v_dim * heads * total_len <= old(ctx).region
        },
        r matches Ok((ks, vs)) ==> {
            let m = old(ctx).memory();
            let k_held = cached(m, layer.k, position, read(m, k));
            let v_held = cached(m, layer.v, position, read(m, v));
            &&& content(final(ctx).memory(), layer.k.buffer) == k_held
            &&& content(final(ctx).memory(), layer.v.buffer) == v_held
            &&& ready(final(ctx), ks)
            &&& ready(final(ctx), vs)
            &&& read(final(ctx).memory(), ks) == attended(
                k_held,
                layer.k,
                k_dim,
                heads,
                total_len as u64,
                direct,
            )
            &&& read(final(ctx).memory(), vs) == attended(
                v_held,
                layer.v,
                v_dim,
                heads,
                total_len as u64,
                direct,
            )
            &&& quiet(final(ctx).memory())
            &&& undisturbed(
                m,
                final(ctx).memory(),
                old(ctx).at(),
                set![layer.k.buffer, layer.v.buffer],
            )
        },
{
    ctx.apply1(Op::CacheWrite { position }, k, layer.k, Fence::No);
    ctx.apply1(Op::CacheWrite { position }, v, layer.v, Fence::All);
    if direct {
        let k_src = slice_cache_prefix(layer.k, total_len as u64);
        let v_src = slice_cache_prefix(layer.v, total_len as u64);
        let ks = permute_to_attn(k_src, k_dim, total_len as u64, heads);
        let vs = permute_to_attn(v_src, v_dim, total_len as u64, heads);
        Ok((ks, vs))
    } else {
        let k_src = alloc_headed(ctx, k_dim, heads, total_len as u64)?;
        ctx.apply1(Op::CacheRead { len: total_len }, layer.k, k_src, Fence::Own);
        let v_src = alloc_headed(ctx, v_dim, heads, total_len as u64)?;
        ctx.apply1(Op::CacheRead { len: total_len }, layer.v, v_src, Fence::Own);
        proof {
            lemma_headed_sizes(k_dim, heads, total_len as u64, ctx.region);
            lemma_headed_sizes(v_dim, heads, total_len as u64, ctx.region);
        }
        let ks = permute_to_attn(k_src, k_dim, total_len as u64, heads);
        let vs = permute_to_attn(v_src, v_dim, total_len as u64, heads);
        Ok((ks, vs))
    }
}

/// What a pass sets up before its layers.
#[derive(Clone, Copy)]
pub struct Prologue {
    pub positions: TensorView,
    pub mask: Option<TensorView>,
    pub residual: TensorView,
}

/// A host-written list, as it is read back.
pub open spec fn words_term<F>(data: Seq<u32>) -> Term<F> {
    fresh(Term::Words(data), matrix(data.len() as u64, 1))
}

/// The mask's value, as it is read back.
pub open spec fn mask_value<F>(mask: Option<Seq<F>>, l: u64) -> Option<Term<F>> {
    match mask {
        Some(data) => Some(fresh(Term::Floats(data), matrix(l, l))),
        None => None,
    }
}

/// The embeddings of the tokens.
pub open spec fn embedded<F>(m: Memory<F>, token_embd: TensorView, tokens: Seq<u32>) -> Term<F> {
    op2(Op::GetRows { rows: tokens.len() as u32 }, read(m, token_embd), words_term(tokens))
}

/// The scratch tensor is older than `at`, and is not `other`.
pub open spec fn settled(t: TensorView, from: int, at: int, other: Buffer) -> bool {
    &&& t.buffer matches Buffer::Scratch { id, bytes: _ } && from <= id < at
    &&& t.buffer != other
}

/// What a prologue leaves.
pub open spec fn prologue_done<F: Copy>(
    ctx: &DispatchContext<F>,
    from: int,
    pro: Prologue,
    width: u64,
    l: u64,
    positions: Seq<u32>,
    mask: Option<Seq<F>>,
    h: Term<F>,
) -> bool {
    &&& settled(pro.positions, from, ctx.at(), pro.residual.buffer)
    &&& ready(ctx, pro.positions)
    &&& read(ctx.memory(), pro.positions) == words_term::<F>(positions)
    &&& (pro.mask is Some <==> mask is Some)
    &&& pro.mask matches Some(t) ==> settled(t, from, ctx.at(), pro.residual.buffer) && ready(
        ctx,
        t,
    ) && Some(read(ctx.memory(), t)) == mask_value(mask, l)
    &&& pro.residual == dense(pro.residual.buffer, matrix(width, l))
    &&& crate::models::tensor::covers(pro.residual)
    &&& pro.residual.buffer matches Buffer::Scratch { id, bytes: _ } && from <= id < ctx.at()
    &&& ready(ctx, pro.residual)
    &&& content(ctx.memory(), pro.residual.buffer) == h
}

/// Scratch that the inputs of a pass take.
pub open spec fn prologue_bytes(l: u64, positions: u64, masked: bool, width: u64) -> nat {
    size(matrix(l, 1)) + size(matrix(positions, 1)) + size(matrix(width, l)) + if masked {
        size(matrix(l, l))
    } else {
        0
    }
}

/// Record the inputs of a pass: tokens, positions, mask, and the embeddings.
pub fn record_prologue<F: Copy>(
    ctx: &mut DispatchContext<F>,
    tokens: &[u32],
    positions: &[u32],
    mask: Option<&[F]>,
    token_embd: TensorView,
    width: u64,
) -> (r: Result<Prologue, RecordError>)
    requires
        1 <= tokens@.len() <= u32::MAX,
        quiet(old(ctx).memory()),
        ready(old(ctx), token_embd),
    ensures
        final(ctx).region == old(ctx).region,
        final(ctx).replay == old(ctx).replay,
        final(ctx).at() >= old(ctx).at(),
        r matches Err(e) ==> e is ScratchExhausted,
        spends(
            old(ctx),
            final(ctx),
            r is Ok,
            prologue_bytes(
                tokens@.len() as u64,
                positions@.len() as u64,
                mask is Some,
                width,
            ),
        ),
        r is Ok ==> {
            let l = tokens@.len() as u64;
            &&& 4 * l * 1 <= old(ctx).region
            &&& 4 * (positions@.len() as u64) * 1 <= old(ctx).region
            &&& mask is Some ==> 4 * l * l <= old(ctx).region
            &&& 4 * width * l <= old(ctx).region
        },
        r matches Ok(pro) ==> {
            &&& prologue_done(
                final(ctx),
                old(ctx).at(),
                pro,
                width,
                tokens@.len() as u64,
                positions@,
                match mask {
                    Some(d) => Some(d@),
                    None => None,
                },
                embedded(old(ctx).memory(), token_embd, tokens@),
            )
            &&& quiet(final(ctx).memory())
            &&& undisturbed(
                old(ctx).memory(),
                final(ctx).memory(),
                old(ctx).at(),
                Set::empty(),
            )
        },
{
    let l: u64 = tokens.len() as u64;
    let token_buf = ctx.alloc_matrix(l, 1)?;
    ctx.write_u32(token_buf, tokens);
    let n_pos: u64 = positions.len() as u64;
    let positions_buf = ctx.alloc_matrix(n_pos, 1)?;
    ctx.write_u32(positions_buf, positions);
    let mask_view: Option<TensorView> = match mask {
        Some(data) => {
            let m = ctx.alloc_matrix(l, l)?;
            ctx.write_f32(m, data);
            Some(m)
        },
        None => None,
    };
    let residual = ctx.alloc_matrix(width, l)?;
    ctx.apply2(Op::GetRows { rows: l as u32 }, token_embd, token_buf, residual, Fence::Own);
    Ok(Prologue { positions: positions_buf, mask: mask_view, residual })
}

/// Logits of the columns `x`: the head times the normalized columns.
pub open spec fn head_term<F>(
    m: Memory<F>,
    eps: F,
    x: Term<F>,
    norm: TensorView,
    head: TensorView,
    width: u64,
    vocab: u64,
    columns: u64,
) -> Term<F> {
    fresh(
        op2(
            Op::MatMul,
            read(m, head),
            fresh(op2(Op::RmsNorm { eps }, x, read(m, norm)), matrix(width, columns)),
        ),
        matrix(vocab, columns),
    )
}

/// Scratch that an output head takes.
pub open spec fn head_bytes(width: u64, vocab: u64, columns: u64) -> nat {
    size(matrix(width, columns)) + size(matrix(vocab, columns))
}

/// Record the final norm and the output head over `columns` columns.
pub fn record_head<F: Copy>(
    ctx: &mut DispatchContext<F>,
    eps: F,
    x: TensorView,
    norm: TensorView,
    head: TensorView,
    width: u64,
    vocab: u64,
    columns: u64,
) -> (r: Result<TensorView, RecordError>)
    requires
        columns >= 1,
        quiet(old(ctx).memory()),
        ready(old(ctx), x),
        ready(old(ctx), norm),
        ready(old(ctx), head),
    ensures
        final(ctx).region == old(ctx).region,
        final(ctx).replay == old(ctx).replay,
        final(ctx).at() >= old(ctx).at(),
        r matches Err(e) ==> e is ScratchExhausted,
        spends(old(ctx), final(ctx), r is Ok, head_bytes(width, vocab, columns)),
        r is Ok ==> 4 * width * columns <= old(ctx).region && 4 * vocab * columns <= old(
            ctx,
        ).region,
        r matches Ok(t) ==> {
            &&& ready(final(ctx), t)
            &&& t == dense(t.buffer, matrix(vocab, columns))
            &&& crate::models::tensor::covers(t)
            &&& later(t.buffer, old(ctx).at())
            &&& read(final(ctx).memory(), t) == head_term(
                old(ctx).memory(),
                eps,
                read(old(ctx).memory(), x),
                norm,
                head,
                width,
                vocab,
                columns,
            )
            &&& quiet(final(ctx).memory())
            &&& undisturbed(
                old(ctx).memory(),
                final(ctx).memory(),
                old(ctx).at(),
                Set::empty(),
            )
        },
{
    let normed = ctx.alloc_matrix(width, columns)?;
    ctx.apply2(Op::RmsNorm { eps }, x, norm, normed, Fence::Own);
    let logits = ctx.alloc_matrix(vocab, columns)?;
    ctx.apply2(Op::MatMul, head, normed, logits, Fence::Own);
    Ok(logits)
}

/// Consecutive positions from `start` on.
pub open spec fn sequential(start: int, n: nat) -> Seq<u32> {
    Seq::new(n, |i: int| (start + i) as u32)
}

/// Consecutive positions from `start` on.
pub fn sequential_positions(start: u32, n: u32) -> (r: Vec<u32>)
    requires
        start + n <= u32::MAX,
    ensures
        r@ == sequential(start as int, n as nat),
{
    let mut out: Vec<u32> = Vec::new();
    let mut i: u32 = 0;
    while i < n
        invariant
            i <= n,
            start + n <= u32::MAX,
            out@ == sequential(start as int, i as nat),
        decreases n - i,
    {
        out.push(start + i);
        assert(out@ =~= sequential(start as int, (i + 1) as nat));
        i += 1;
    }
    out
}

/// The sequences of a batched pass, by their place in it: how many tokens each
/// brings, where its tokens start in the packed stream, at which position its
/// first token is cached, in which slab, and how many tokens are cached after.
pub struct Sequences {
    pub lens: Vec<u32>,
    pub starts: Vec<u64>,
    pub bases: Vec<u32>,
    pub slots: Vec<u32>,
    pub kv_lens: Vec<u32>,
}

/// The sequences of a batched pass, as lists.
pub struct SeqPlan {
    pub lens: Seq<u32>,
    pub starts: Seq<u64>,
    pub bases: Seq<u32>,
    pub slots: Seq<u32>,
    pub kv_lens: Seq<u32>,
}

impl View for Sequences {
    type V = SeqPlan;

    open spec fn view(&self) -> SeqPlan {
        SeqPlan {
            lens: self.lens@,
            starts: self.starts@,
            bases: self.bases@,
            slots: self.slots@,
            kv_lens: self.kv_lens@,
        }
    }
}

impl Sequences {
    /// Lists of one length; every sequence lies in the stream and in a slab.
    pub open spec fn wf(&self, n_total: int, n_slots: int) -> bool {
        &&& 1 <= self.lens@.len() <= u32::MAX
        &&& self.starts@.len() == self.lens@.len()
        &&& self.bases@.len() == self.lens@.len()
        &&& self.slots@.len() == self.lens@.len()
        &&& self.kv_lens@.len() == self.lens@.len()
        &&& forall|s: int| 0 <= s < self.lens@.len() ==> #[trigger] self.placed(s, n_total, n_slots)
    }

    /// Sequence `s` lies in the stream and in a slab.
    pub open spec fn placed(&self, s: int, n_total: int, n_slots: int) -> bool {
        &&& self.lens@[s] >= 1
        &&& self.starts@[s] + self.lens@[s] <= n_total
        &&& self.slots@[s] < n_slots
    }
}

/// Tokens `[start, start + len)` of `[head_dim, heads, _]` heads.
pub open spec fn chunk_view(t: TensorView, start: int, len: u64, head_dim: u64, heads: u64) -> TensorView {
    let token = 4 * head_dim * heads;
    TensorView {
        byte_offset: (t.byte_offset + start * token) as u64,
        byte_size: (len * token) as u64,
        dims: headed(head_dim, heads, len),
        byte_stride: crate::models::tensor::dims4(4, 4 * head_dim, token, token * len),
        element_stride: crate::models::tensor::dims4(
            1,
            head_dim as int,
            head_dim * heads,
            head_dim * heads * len,
        ),
        ..t
    }
}

/// Tokens `[start, start + len)` of a contiguous tensor of heads.
pub fn chunk(t: TensorView, start: u64, len: u64, head_dim: u64, heads: u64, n: u64) -> (r:
    TensorView)
    requires
        t.byte_offset == 0,
        start + len <= n,
        len >= 1,
        heads >= 1,
        4 * head_dim * heads * n <= u64::MAX,
    ensures
        r == chunk_view(t, start as int, len, head_dim, heads),
{
    proof {
        let token = 4 * head_dim * heads;
        assert(token >= 0) by (nonlinear_arith)
            requires
                token == 4 * head_dim * heads,
        ;
        assert(start * token <= n * token && len * token <= n * token && token <= n * token
            && n * token == token * n && token * len == len * token) by (nonlinear_arith)
            requires
                start + len <= n,
                len >= 1,
                start >= 0,
                token >= 0,
        ;
        assert(4 * head_dim <= token) by (nonlinear_arith)
            requires
                token == 4 * head_dim * heads,
                heads >= 1,
        ;
        assert(head_dim * heads <= token) by (nonlinear_arith)
            requires
                token == 4 * head_dim * heads,
        ;
        assert(head_dim * heads * len <= token * len) by (nonlinear_arith)
            requires
                head_dim * heads <= token,
                len >= 0,
        ;
    }
    let token: u64 = 4 * head_dim * heads;
    TensorView {
        byte_offset: t.byte_offset + start * token,
        byte_size: len * token,
        dims: Dims { d0: head_dim, d1: heads, d2: len, d3: 1 },
        byte_stride: Dims { d0: 4, d1: 4 * head_dim, d2: token, d3: token * len },
        element_stride: Dims {
            d0: 1,
            d1: head_dim,
            d2: head_dim * heads,
            d3: head_dim * heads * len,
        },
        ..t
    }
}

/// A chunk starts where its first token lies in the whole.
pub proof fn law_chunk_reads_the_same_memory(
    t: TensorView,
    start: int,
    len: u64,
    head_dim: u64,
    heads: u64,
    d: int,
    head: int,
    token: int,
)
    requires
        t.byte_stride == crate::models::tensor::contiguous(
            4,
            head_dim as int,
            heads as int,
            t.dims.d2 as int,
        ),
        4 * head_dim * heads <= u64::MAX,
        4 * head_dim <= u64::MAX,
        start >= 0,
        t.byte_offset + start * (4 * head_dim * heads) <= u64::MAX,
        0 <= token < len,
    ensures
        crate::models::tensor::address(
            chunk_view(t, start, len, head_dim, heads),
            d,
            head,
            token,
            0,
        ) == crate::models::tensor::address(t, d, head, start + token, 0),
{
    let w = 4 * head_dim * heads;
    assert((start + token) * w == start * w + token * w) by (nonlinear_arith);
    assert(start * w >= 0) by (nonlinear_arith)
        requires
            start >= 0,
            w >= 0,
    ;
}

/// A slab buffer that held `held`, after the chunks of the first `n` sequences
/// of `value` are written to their slabs.
pub open spec fn slabs_written<F>(
    held: Term<F>,
    first: TensorView,
    bytes: u64,
    value: Term<F>,
    lens: Seq<u32>,
    starts: Seq<u64>,
    bases: Seq<u32>,
    slots: Seq<u32>,
    head_dim: u64,
    heads: u64,
    n: int,
) -> Term<F>
    decreases n,
{
    if n <= 0 {
        held
    } else {
        Term::Patch {
            into: Box::new(
                slabs_written(
                    held,
                    first,
                    bytes,
                    value,
                    lens,
                    starts,
                    bases,
                    slots,
                    head_dim,
                    heads,
                    n - 1,
                ),
            ),
            at: shape(slab_of(first, bytes, slots[n - 1])),
            with: Box::new(
                op1(
                    Op::CacheWrite { position: bases[n - 1] },
                    through(
                        value,
                        chunk_view(
                            dense(
                                Buffer::Scratch { id: 0, bytes: 0 },
                                headed(head_dim, heads, 1),
                            ),
                            starts[n - 1] as int,
                            lens[n - 1] as u64,
                            head_dim,
                            heads,
                        ),
                    ),
                ),
            ),
        }
    }
}

/// A slab buffer of a batch after all chunks are written.
pub open spec fn slab_term<F>(
    m: Memory<F>,
    first: TensorView,
    bytes: u64,
    value: Term<F>,
    seqs: SeqPlan,
    head_dim: u64,
    heads: u64,
    n: int,
) -> Term<F> {
    slabs_written(
        content(m, first.buffer),
        first,
        bytes,
        value,
        seqs.lens,
        seqs.starts,
        seqs.bases,
        seqs.slots,
        head_dim,
        heads,
        n,
    )
}

/// Record the cache writes of a batched pass: each sequence's chunk of keys and
/// values goes to its slab.
pub fn record_slab_writes<F: Copy>(
    ctx: &mut DispatchContext<F>,
    batch: &BatchKvCache,
    layer: usize,
    k: TensorView,
    v: TensorView,
    seqs: &Sequences,
    k_dim: u64,
    v_dim: u64,
    heads: u64,
    n_total: u64,
)
    requires
        quiet(old(ctx).memory()),
        batch.layered(layer as int + 1),
        seqs.wf(n_total as int, batch.positions@.len() as int),
        k.byte_offset == 0,
        v.byte_offset == 0,
        k.dtype is F32,
        v.dtype is F32,
        k.buffer is Scratch,
        v.buffer is Scratch,
        ready(old(ctx), k),
        ready(old(ctx), v),
        heads >= 1,
        4 * k_dim * heads * n_total <= u64::MAX,
        4 * v_dim * heads * n_total <= u64::MAX,
    ensures
        final(ctx).region == old(ctx).region,
        final(ctx).replay == old(ctx).replay,
        final(ctx).used == old(ctx).used,
        final(ctx).at() >= old(ctx).at(),
        quiet(final(ctx).memory()),
        content(final(ctx).memory(), Buffer::KeySlabs(layer as u64)) == slab_term(
            old(ctx).memory(),
            batch.k_slab@[layer as int],
            batch.k_slab_bytes,
            content(old(ctx).memory(), k.buffer),
            seqs@,
            k_dim,
            heads,
            seqs.lens@.len() as int,
        ),
        content(final(ctx).memory(), Buffer::ValueSlabs(layer as u64)) == slab_term(
            old(ctx).memory(),
            batch.v_slab@[layer as int],
            batch.v_slab_bytes,
            content(old(ctx).memory(), v.buffer),
            seqs@,
            v_dim,
            heads,
            seqs.lens@.len() as int,
        ),
        undisturbed(
            old(ctx).memory(),
            final(ctx).memory(),
            old(ctx).at(),
            set![Buffer::KeySlabs(layer as u64), Buffer::ValueSlabs(layer as u64)],
        ),
{
    let ghost m0 = ctx.memory();
    let ghost kb = Buffer::KeySlabs(layer as u64);
    let ghost vb = Buffer::ValueSlabs(layer as u64);
    assert(batch.layer_named(layer as int));
    let mut s: usize = 0;
    while s < seqs.lens.len()
        invariant
            s <= seqs.lens@.len(),
            m0 == old(ctx).memory(),
            kb == Buffer::KeySlabs(layer as u64),
            vb == Buffer::ValueSlabs(layer as u64),
            ctx.region == old(ctx).region,
            ctx.replay == old(ctx).replay,
            ctx.used == old(ctx).used,
            ctx.at() >= old(ctx).at(),
            quiet(ctx.memory()),
            batch.layered(layer as int + 1),
            batch.layer_named(layer as int),
            seqs.wf(n_total as int, batch.positions@.len() as int),
            k.byte_offset == 0,
            v.byte_offset == 0,
            k.dtype is F32,
            v.dtype is F32,
            k.buffer is Scratch,
            v.buffer is Scratch,
            ready(old(ctx), k),
            ready(old(ctx), v),
            heads >= 1,
            4 * k_dim * heads * n_total <= u64::MAX,
            4 * v_dim * heads * n_total <= u64::MAX,
            content(ctx.memory(), kb) == slab_term(
                m0,
                batch.k_slab@[layer as int],
                batch.k_slab_bytes,
                content(m0, k.buffer),
                seqs@,
                k_dim,
                heads,
                s as int,
            ),
            content(ctx.memory(), vb) == slab_term(
                m0,
                batch.v_slab@[layer as int],
                batch.v_slab_bytes,
                content(m0, v.buffer),
                seqs@,
                v_dim,
                heads,
                s as int,
            ),
            undisturbed(m0, ctx.memory(), old(ctx).at(), set![kb, vb]),
        decreases seqs.lens@.len() - s,
    {
        let ghost m1 = ctx.memory();
        assert(seqs.placed(s as int, n_total as int, batch.positions@.len() as int));
        assert(ready(ctx, k) && ready(ctx, v));
        assert(content(m1, k.buffer) == content(m0, k.buffer));
        assert(content(m1, v.buffer) == content(m0, v.buffer));
        let len: u64 = seqs.lens[s] as u64;
        let k_chunk = chunk(k, seqs.starts[s], len, k_dim, heads, n_total);
        let v_chunk = chunk(v, seqs.starts[s], len, v_dim, heads, n_total);
        let k_dst = batch.slot_k_view(seqs.slots[s], layer);
        let v_dst = batch.slot_v_view(seqs.slots[s], layer);
        ctx.apply1(Op::CacheWrite { position: seqs.bases[s] }, k_chunk, k_dst, Fence::All);
        ctx.apply1(Op::CacheWrite { position: seqs.bases[s] }, v_chunk, v_dst, Fence::All);
        proof {
            let m2 = ctx.memory();
            assert forall|x: Buffer|
                !later(x, old(ctx).at()) && !set![kb, vb].contains(x) implies content(m2, x)
                == content(m0, x) && (reserved(m0, x) ==> reserved(m2, x)) by {
                assert(content(m1, x) == content(m0, x));
            }
        }
        s += 1;
    }
}

/// The last tokens of the first `n` sequences gathered side by side.
pub open spec fn gathered<F>(
    h: Term<F>,
    width: u64,
    l: u64,
    b: u64,
    lens: Seq<u32>,
    starts: Seq<u64>,
    n: int,
) -> Term<F>
    decreases n,
{
    if n <= 0 {
        Term::Unset
    } else {
        Term::Patch {
            into: Box::new(gathered(h, width, l, b, lens, starts, n - 1)),
            at: shape(
                one_column(
                    dense(Buffer::Scratch { id: 0, bytes: 0 }, matrix(width, b)),
                    width,
                    n - 1,
                ),
            ),
            with: Box::new(
                op1(
                    Op::Copy,
                    through(
                        h,
                        one_column(
                            dense(Buffer::Scratch { id: 0, bytes: 0 }, matrix(width, l)),
                            width,
                            starts[n - 1] + lens[n - 1] - 1,
                        ),
                    ),
                ),
            ),
        }
    }
}

/// The last token of every sequence, side by side.
pub open spec fn gathered_all<F>(
    h: Term<F>,
    width: u64,
    l: u64,
    lens: Seq<u32>,
    starts: Seq<u64>,
) -> Term<F> {
    let b = lens.len() as u64;
    fresh(
        if b == 1 {
            op1(
                Op::Copy,
                through(
                    h,
                    one_column(
                        dense(Buffer::Scratch { id: 0, bytes: 0 }, matrix(width, l)),
                        width,
                        starts[0] + lens[0] - 1,
                    ),
                ),
            )
        } else {
            gathered(h, width, l, b, lens, starts, lens.len() as int)
        },
        matrix(width, b),
    )
}

/// One column is a part of more than one column, or all of a single one.
proof fn lemma_column_bounds(c: int, width: u64, columns: u64, room: u64)
    requires
        0 <= c < columns,
        4 * width * columns <= room,
    ensures
        width * 4 <= u64::MAX,
        c * width <= u64::MAX,
        c * width * 4 <= u64::MAX,
        c * width >= 0,
{
    assert(c * width * 4 <= 4 * width * columns) by (nonlinear_arith)
        requires
            0 <= c < columns,
            width >= 0,
    ;
    assert(c * width <= c * width * 4 && c * width >= 0) by (nonlinear_arith)
        requires
            0 <= c,
            width >= 0,
    ;
    assert(width * 4 <= 4 * width * columns) by (nonlinear_arith)
        requires
            columns >= 1,
            width >= 0,
    ;
}

/// Record the gathering of every sequence's last column.
pub fn record_gather<F: Copy>(
    ctx: &mut DispatchContext<F>,
    residual: TensorView,
    seqs: &Sequences,
    width: u64,
    n_total: u64,
    n_slots: usize,
) -> (r: Result<TensorView, RecordError>)
    requires
        quiet(old(ctx).memory()),
        width >= 1,
        residual == dense(residual.buffer, matrix(width, n_total)),
        4 * width * n_total <= old(ctx).region,
        ready(old(ctx), residual),
        seqs.wf(n_total as int, n_slots as int),
    ensures
        final(ctx).region == old(ctx).region,
        final(ctx).replay == old(ctx).replay,
        final(ctx).at() >= old(ctx).at(),
        r matches Err(e) ==> e is ScratchExhausted,
        spends(old(ctx), final(ctx), r is Ok, size(matrix(width, seqs.lens@.len() as u64))),
        r is Ok ==> 4 * width * (seqs.lens@.len() as u64) <= old(ctx).region,
        r matches Ok(t) ==> {
            &&& ready(final(ctx), t)
            &&& later(t.buffer, old(ctx).at())
            &&& read(final(ctx).memory(), t) == gathered_all(
                content(old(ctx).memory(), residual.buffer),
                width,
                n_total,
                seqs.lens@,
                seqs.starts@,
            )
            &&& quiet(final(ctx).memory())
            &&& undisturbed(
                old(ctx).memory(),
                final(ctx).memory(),
                old(ctx).at(),
                Set::empty(),
            )
        },
{
    let b: u64 = seqs.lens.len() as u64;
    let last = ctx.alloc_matrix(width, b)?;
    ctx.barrier_all();
    let ghost m0 = old(ctx).memory();
    let ghost h = content(m0, residual.buffer);
    assert(content(ctx.memory(), residual.buffer) == h);
    let mut s: usize = 0;
    while s < seqs.lens.len()
        invariant
            s <= seqs.lens@.len(),
            b == seqs.lens@.len(),
            m0 == old(ctx).memory(),
            h == content(m0, residual.buffer),
            width >= 1,
            ctx.region == old(ctx).region,
            ctx.replay == old(ctx).replay,
            ctx.used == old(ctx).used + size(matrix(width, b)),
            ctx.at() > old(ctx).at(),
            4 * width * b <= ctx.region,
            4 * width * n_total <= ctx.region,
            residual == dense(residual.buffer, matrix(width, n_total)),
            last == dense(last.buffer, matrix(width, b)),
            last.buffer matches Buffer::Scratch { id, bytes } && id == old(ctx).at() && bytes == 4
                * width * b,
            ready(old(ctx), residual),
            readable(ctx.memory(), residual),
            content(ctx.memory(), residual.buffer) == h,
            reserved(ctx.memory(), last.buffer),
            seqs.wf(n_total as int, n_slots as int),
            forall|x: Buffer| #[trigger]
                ctx.memory().pending.contains(x) ==> x == last.buffer,
            s == 0 ==> content(ctx.memory(), last.buffer) is Unset,
            b > 1 ==> content(ctx.memory(), last.buffer) == gathered(
                h,
                width,
                n_total,
                b,
                seqs.lens@,
                seqs.starts@,
                s as int,
            ),
            b == 1 && s == 1 ==> content(ctx.memory(), last.buffer) == op1(
                Op::Copy,
                through(
                    h,
                    one_column(
                        dense(Buffer::Scratch { id: 0, bytes: 0 }, matrix(width, n_total)),
                        width,
                        seqs.starts@[0] + seqs.lens@[0] - 1,
                    ),
                ),
            ),
            undisturbed(m0, ctx.memory(), old(ctx).at(), Set::empty()),
        decreases seqs.lens@.len() - s,
    {
        let ghost m1 = ctx.memory();
        assert(seqs.placed(s as int, n_total as int, n_slots as int));
        let col: u64 = seqs.starts[s] + seqs.lens[s] as u64 - 1;
        proof {
            lemma_column_bounds(col as int, width, n_total, ctx.region);
            lemma_column_bounds(s as int, width, b, ctx.region);
        }
        let src = last_column(residual, width, col);
        let dst = last_column(last, width, s as u64);
        ctx.copy_part(src, dst);
        proof {
            let m2 = ctx.memory();
            if b > 1 {
                assert(width * 4 < 4 * width * b) by (nonlinear_arith)
                    requires
                        b > 1,
                        width >= 1,
                ;
                assert(!crate::models::tensor::covers(dst));
            } else {
                assert(4 * width * b == width * 4) by (nonlinear_arith)
                    requires
                        b == 1,
                ;
                assert(0 * width * 4 == 0);
                assert(4 * width * 1 == width * 4 && 4 * width * 1 * 1 == width * 4 && 4 * width * 1
                    * 1 * 1 == width * 4 && 1 * width * 1 == width && 1 * width * 1 * 1 == width)
                    by (nonlinear_arith);
                assert(dst == dense(dst.buffer, matrix(width, 1)));
                assert(crate::models::tensor::covers(dst));
            }
            assert forall|x: Buffer| !later(x, old(ctx).at()) implies content(m2, x) == content(
                m0,
                x,
            ) && (reserved(m0, x) ==> reserved(m2, x)) by {
                assert(content(m1, x) == content(m0, x));
            }
        }
        s += 1;
    }
    let ghost m3 = ctx.memory();
    ctx.barrier_all();
    proof {
        assert forall|x: Buffer| !later(x, old(ctx).at()) implies content(ctx.memory(), x)
            == content(m0, x) && (reserved(m0, x) ==> reserved(ctx.memory(), x)) by {
            assert(content(m3, x) == content(m0, x));
        }
        assert(content(ctx.memory(), last.buffer) == content(m3, last.buffer));
    }
    Ok(last)
}

} // verus!
