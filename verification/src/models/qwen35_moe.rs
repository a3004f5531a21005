//! The feed-forward half of a Qwen 3.5 layer: routed experts, and one that all
//! tokens share behind a gate.
use vstd::prelude::*;

use crate::models::blocks::{ready, undisturbed, weights_live};
use crate::models::qwen35_weights::{MoeFfnWeights, Qwen35MoeParams};
use crate::models::recorder::{
    content, fresh, op1, op2, op3, op4, quiet, read, spends, through, DispatchContext, Fence,
    Memory, Op, Operands, RecordError, Term,
};
use crate::models::tensor::{
    covers, dense, dims4, fits, headed, matrix, size, Buffer, Dims, GgmlType, TensorView,
};

verus! {

/// The types that gate and up experts can have.
pub open spec fn expert_type(t: GgmlType) -> bool {
    t is Q4_K || t is Q5_K || t is Q6_K
}

/// The types that the down experts can have.
pub open spec fn expert_down_type(t: GgmlType) -> bool {
    t is Q5_K || t is Q6_K || t is Q8_0
}

/// The normalized input.
pub open spec fn moe_input<F: Copy>(
    m: Memory<F>,
    p: &Qwen35MoeParams<F>,
    norm: TensorView,
    x: Term<F>,
    l: u64,
) -> Term<F> {
    fresh(op2(Op::RmsNorm { eps: p.rms_eps }, x, read(m, norm)), matrix(p.n_embd as u64, l))
}

/// A product with the normalized input.
pub open spec fn moe_product<F>(m: Memory<F>, w: TensorView, n: Term<F>, width: u64, l: u64) -> Term<
    F,
> {
    fresh(op2(Op::MatMul, read(m, w), n), matrix(width, l))
}

/// What the experts that the router picks add up to.
pub open spec fn routed_term<F: Copy>(
    m: Memory<F>,
    p: &Qwen35MoeParams<F>,
    w: MoeFfnWeights,
    n: Term<F>,
    l: u64,
) -> Term<F> {
    let used = p.n_expert_used;
    let logits = moe_product(m, w.ffn_gate_inp, n, p.n_expert as u64, l);
    let ids = fresh(
        op1(Op::TopkIds { n_experts: p.n_expert, n_used: used, with_norm: true }, logits),
        matrix(p.n_expert as u64, l),
    );
    let weights = fresh(
        op1(Op::TopkWeights { n_experts: p.n_expert, n_used: used, with_norm: true }, logits),
        matrix(used as u64, l),
    );
    let d = headed(p.expert_ff as u64, used as u64, l);
    let gate = fresh(
        op3(
            Op::MatVecId { dtype: w.ffn_gate_exps.dtype, n_used: used, grouped: None },
            read(m, w.ffn_gate_exps),
            n,
            ids,
        ),
        d,
    );
    let up = fresh(
        op3(
            Op::MatVecId { dtype: w.ffn_up_exps.dtype, n_used: used, grouped: None },
            read(m, w.ffn_up_exps),
            n,
            ids,
        ),
        d,
    );
    fresh(
        op4(
            Op::MoeDown { dtype: w.ffn_down_exps.dtype, n_used: used, grouped: None },
            read(m, w.ffn_down_exps),
            fresh(op2(Op::SwiGlu, gate, up), d),
            ids,
            weights,
        ),
        matrix(p.n_embd as u64, l),
    )
}

/// What the shared expert gives.
pub open spec fn shared_term<F: Copy>(
    m: Memory<F>,
    p: &Qwen35MoeParams<F>,
    w: MoeFfnWeights,
    n: Term<F>,
    l: u64,
) -> Term<F> {
    let ff = p.shared_expert_ff as u64;
    fresh(
        op2(
            Op::MatMul,
            read(m, w.ffn_down_shexp),
            fresh(
                op2(
                    Op::SwiGlu,
                    moe_product(m, w.ffn_gate_shexp, n, ff, l),
                    moe_product(m, w.ffn_up_shexp, n, ff, l),
                ),
                matrix(ff, l),
            ),
        ),
        matrix(p.n_embd as u64, l),
    )
}

/// The shared expert's gate, one number to a token, beside every element.
pub open spec fn gate_columns(t: TensorView, width: u64, l: u64) -> TensorView {
    TensorView {
        dims: matrix(width, l),
        byte_stride: dims4(0, 4, 4 * l, 4 * l),
        element_stride: dims4(0, 1, l as int, l as int),
        ..t
    }
}

/// The hidden state `h` with the routed experts, and the shared one behind its
/// gate, added. Where one of them is left out, the other is added by itself.
pub open spec fn moe_sum<F: Copy>(
    p: &Qwen35MoeParams<F>,
    h: Term<F>,
    routed: Term<F>,
    shared: Term<F>,
    gate: Term<F>,
    l: u64,
) -> Term<F> {
    let cols = matrix(p.n_embd as u64, l);
    let x = fresh(h, cols);
    if fused(p) {
        op4(Op::MoeResidual { width: p.n_embd }, x, routed, shared, gate)
    } else {
        let first = if p.switches.no_routed {
            h
        } else {
            op2(Op::Add, x, routed)
        };
        let own = dense(Buffer::Scratch { id: 0, bytes: 0 }, matrix(1, l));
        let scaled = op2(
            Op::Mul,
            shared,
            through(op1(Op::Sigmoid, gate), gate_columns(own, p.n_embd as u64, l)),
        );
        if p.switches.no_shared {
            first
        } else {
            op2(Op::Add, fresh(first, cols), fresh(scaled, cols))
        }
    }
}

/// The hidden state after the feed-forward half: the experts' outputs onto what
/// came in.
#[verifier::opaque]
pub open spec fn moe_term<F: Copy>(
    m: Memory<F>,
    p: &Qwen35MoeParams<F>,
    w: MoeFfnWeights,
    norm: TensorView,
    h: Term<F>,
    l: u64,
) -> Term<F> {
    let x = fresh(h, matrix(p.n_embd as u64, l));
    let n = moe_input(m, p, norm, x, l);
    moe_sum(
        p,
        h,
        routed_term(m, p, w, n, l),
        shared_term(m, p, w, n, l),
        moe_product(m, w.ffn_gate_inp_shexp, n, 1, l),
        l,
    )
}

/// Both parts are added at once.
pub open spec fn fused<F>(p: &Qwen35MoeParams<F>) -> bool {
    !p.switches.no_routed && !p.switches.no_shared
}

/// Shape of what the picked experts' projections give.
pub open spec fn expert_dims<F: Copy>(p: &Qwen35MoeParams<F>, l: u64) -> Dims {
    headed(p.expert_ff as u64, p.n_expert_used as u64, l)
}

/// Scratch that the feed-forward half takes before its experts.
pub open spec fn routing_bytes<F: Copy>(p: &Qwen35MoeParams<F>, l: u64) -> nat {
    size(matrix(p.n_embd as u64, l)) + 2 * size(matrix(p.n_expert as u64, l)) + 2 * size(
        matrix(p.shared_expert_ff as u64, l),
    ) + size(matrix(1, l)) + size(matrix(p.n_expert_used as u64, l))
}

/// Scratch that the feed-forward half takes up to the experts' down projection,
/// its result included.
pub open spec fn mixed_bytes<F: Copy>(p: &Qwen35MoeParams<F>, l: u64) -> nat {
    routing_bytes(p, l) + 3 * size(expert_dims(p, l)) + size(matrix(p.n_embd as u64, l))
}

/// Scratch that the feed-forward half takes.
pub open spec fn moe_bytes<F: Copy>(p: &Qwen35MoeParams<F>, l: u64) -> nat {
    mixed_bytes(p, l) + size(matrix(p.shared_expert_ff as u64, l)) + size(
        matrix(p.n_embd as u64, l),
    ) + moe_sum_bytes(p, l)
}

/// Scratch that the sum takes: none where both parts are added at once.
pub open spec fn moe_sum_bytes<F: Copy>(p: &Qwen35MoeParams<F>, l: u64) -> nat {
    if fused(p) {
        0
    } else {
        size(matrix(1, l)) + size(matrix(p.n_embd as u64, l))
    }
}

/// Why the feed-forward half fails, if it does, where `used` bytes are in use. The
/// type of each expert projection is looked at once its result is reserved.
pub open spec fn moe_failure<F: Copy>(
    p: &Qwen35MoeParams<F>,
    w: MoeFfnWeights,
    l: u64,
    used: int,
    room: u64,
) -> Option<RecordError> {
    let routed = used + routing_bytes(p, l);
    let each = size(expert_dims(p, l));
    if !fits(room, expert_dims(p, l)) || routed + each > room {
        Some(RecordError::ScratchExhausted)
    } else if !expert_type(w.ffn_gate_exps.dtype) {
        Some(RecordError::ExpertType(w.ffn_gate_exps.dtype))
    } else if routed + 2 * each > room {
        Some(RecordError::ScratchExhausted)
    } else if !expert_type(w.ffn_up_exps.dtype) {
        Some(RecordError::ExpertType(w.ffn_up_exps.dtype))
    } else if used + mixed_bytes(p, l) > room {
        Some(RecordError::ScratchExhausted)
    } else if !expert_down_type(w.ffn_down_exps.dtype) {
        Some(RecordError::ExpertType(w.ffn_down_exps.dtype))
    } else if used + moe_bytes(p, l) > room {
        Some(RecordError::ScratchExhausted)
    } else {
        None
    }
}

/// Record the product of each token with the experts picked for it, left to a
/// later barrier.
fn dispatch_matvec_id_nofence<F: Copy>(
    ctx: &mut DispatchContext<F>,
    a: TensorView,
    b: TensorView,
    ids: TensorView,
    dst: TensorView,
    n_expert_used: u32,
) -> (r: Result<(), RecordError>)
    requires
        crate::models::recorder::readable(old(ctx).memory(), a),
        crate::models::recorder::readable(old(ctx).memory(), b),
        crate::models::recorder::readable(old(ctx).memory(), ids),
        crate::models::recorder::writable(old(ctx).memory(), dst),
    ensures
        final(ctx).region == old(ctx).region,
        final(ctx).replay == old(ctx).replay,
        final(ctx).used == old(ctx).used,
        r is Ok <==> expert_type(a.dtype),
        r matches Err(e) ==> e == RecordError::ExpertType(a.dtype) && final(ctx).at() == old(
            ctx,
        ).at(),
        r is Ok ==> {
            &&& final(ctx).at() == old(ctx).at() + 1
            &&& final(ctx).memory() == crate::models::recorder::stored(
                old(ctx).memory(),
                dst,
                op3(
                    Op::MatVecId { dtype: a.dtype, n_used: n_expert_used, grouped: None },
                    read(old(ctx).memory(), a),
                    read(old(ctx).memory(), b),
                    read(old(ctx).memory(), ids),
                ),
                Fence::No,
            )
        },
{
    match a.dtype {
        GgmlType::Q4_K | GgmlType::Q5_K | GgmlType::Q6_K => {
            ctx.apply3(
                Op::MatVecId { dtype: a.dtype, n_used: n_expert_used, grouped: None },
                a,
                b,
                ids,
                dst,
                Fence::No,
            );
            Ok(())
        },
        _ => Err(RecordError::ExpertType(a.dtype)),
    }
}

/// Record the sum of the experts' outputs with `residual`.
fn record_moe_sum<F: Copy>(
    ctx: &mut DispatchContext<F>,
    p: &Qwen35MoeParams<F>,
    residual: TensorView,
    routed: TensorView,
    shared: TensorView,
    gate: TensorView,
    l: u64,
) -> (r: Result<(), RecordError>)
    requires
        1 <= l <= u32::MAX,
        quiet(old(ctx).memory()),
        old(ctx).used <= old(ctx).region,
        residual == dense(residual.buffer, matrix(p.n_embd as u64, l)),
        covers(residual),
        residual.buffer is Scratch,
        ready(old(ctx), residual),
        ready(old(ctx), routed),
        routed.buffer != residual.buffer,
        ready(old(ctx), shared),
        shared.buffer != residual.buffer,
        ready(old(ctx), gate),
    ensures
        final(ctx).region == old(ctx).region,
        final(ctx).replay == old(ctx).replay,
        final(ctx).at() >= old(ctx).at(),
        r matches Err(e) ==> e is ScratchExhausted,
        spends(old(ctx), final(ctx), r is Ok, moe_sum_bytes(p, l)),
        r is Ok ==> {
            let m = old(ctx).memory();
            &&& content(final(ctx).memory(), residual.buffer) == moe_sum(
                p,
                content(m, residual.buffer),
                read(m, routed),
                read(m, shared),
                read(m, gate),
                l,
            )
            &&& ready(final(ctx), residual)
            &&& quiet(final(ctx).memory())
            &&& undisturbed(m, final(ctx).memory(), old(ctx).at(), set![residual.buffer])
        },
{
    if !p.switches.no_routed && !p.switches.no_shared {
        ctx.apply(
            Op::MoeResidual { width: p.n_embd },
            Operands {
                a: residual,
                b: Some(routed),
                c: Some(shared),
                d: Some(gate),
                e: None,
                f: None,
            },
            residual,
            Fence::Own,
        );
        return Ok(());
    }
    let hidden: u64 = p.n_embd as u64;
    let sig = ctx.alloc_matrix(1, l)?;
    ctx.apply1(Op::Sigmoid, gate, sig, Fence::Own);
    let gates = TensorView {
        dims: Dims { d0: hidden, d1: l, d2: 1, d3: 1 },
        byte_stride: Dims { d0: 0, d1: 4, d2: 4 * l, d3: 4 * l },
        element_stride: Dims { d0: 0, d1: 1, d2: l, d3: l },
        ..sig
    };
    let scaled = ctx.alloc_matrix(hidden, l)?;
    ctx.apply2(Op::Mul, shared, gates, scaled, Fence::Own);
    if !p.switches.no_routed {
        ctx.apply2(Op::Add, residual, routed, residual, Fence::Own);
    }
    if !p.switches.no_shared {
        ctx.apply2(Op::Add, residual, scaled, residual, Fence::Own);
    }
    Ok(())
}

/// Record the feed-forward half of a layer.
pub fn moe_ffn<F: Copy>(
    ctx: &mut DispatchContext<F>,
    w: &MoeFfnWeights,
    post_attn_norm: TensorView,
    residual: TensorView,
    p: &Qwen35MoeParams<F>,
    l: u32,
) -> (r: Result<(), RecordError>)
    requires
        l >= 1,
        quiet(old(ctx).memory()),
        weights_live(old(ctx).memory()),
        w.apart(),
        post_attn_norm.buffer is Weights,
        residual == dense(residual.buffer, matrix(p.n_embd as u64, l as u64)),
        covers(residual),
        residual.buffer is Scratch,
        ready(old(ctx), residual),
    ensures
        final(ctx).region == old(ctx).region,
        final(ctx).replay == old(ctx).replay,
        final(ctx).at() >= old(ctx).at(),
        match r {
            Ok(_) => {
                let m = old(ctx).memory();
                &&& moe_failure(p, *w, l as u64, old(ctx).used as int, old(ctx).region) is None
                &&& final(ctx).used == old(ctx).used + moe_bytes(p, l as u64)
                &&& content(final(ctx).memory(), residual.buffer) == moe_term(
                    m,
                    p,
                    *w,
                    post_attn_norm,
                    content(m, residual.buffer),
                    l as u64,
                )
                &&& ready(final(ctx), residual)
                &&& quiet(final(ctx).memory())
                &&& undisturbed(m, final(ctx).memory(), old(ctx).at(), set![residual.buffer])
            },
            Err(e) => moe_failure(p, *w, l as u64, old(ctx).used as int, old(ctx).region)
                == Some(e),
        },
{
    proof {
        reveal(moe_term);
    }
    let hidden: u64 = p.n_embd as u64;
    let ff: u64 = p.expert_ff as u64;
    let shexp_ff: u64 = p.shared_expert_ff as u64;
    let n_experts: u32 = p.n_expert;
    let n_used: u32 = p.n_expert_used;
    let l_u: u64 = l as u64;
    let x_norm = ctx.alloc_matrix(hidden, l_u)?;
    ctx.apply2(Op::RmsNorm { eps: p.rms_eps }, residual, post_attn_norm, x_norm, Fence::Own);
    let gate_logits = ctx.alloc_matrix(n_experts as u64, l_u)?;
    ctx.apply2(Op::MatMul, w.ffn_gate_inp, x_norm, gate_logits, Fence::No);
    let sgate = ctx.alloc_matrix(shexp_ff, l_u)?;
    ctx.apply2(Op::MatMul, w.ffn_gate_shexp, x_norm, sgate, Fence::No);
    let sup = ctx.alloc_matrix(shexp_ff, l_u)?;
    ctx.apply2(Op::MatMul, w.ffn_up_shexp, x_norm, sup, Fence::No);
    let shared_gate_pre = ctx.alloc_matrix(1, l_u)?;
    ctx.apply2(Op::MatMul, w.ffn_gate_inp_shexp, x_norm, shared_gate_pre, Fence::No);
    ctx.barrier4(gate_logits, sgate, sup, shared_gate_pre);
    let ids = ctx.alloc_matrix(n_experts as u64, l_u)?;
    let weights_buf = ctx.alloc_matrix(n_used as u64, l_u)?;
    ctx.route(gate_logits, weights_buf, ids, n_experts, n_used, true);
    let gate = ctx.alloc_tensor(Dims { d0: ff, d1: n_used as u64, d2: l_u, d3: 1 })?;
    dispatch_matvec_id_nofence(ctx, w.ffn_gate_exps, x_norm, ids, gate, n_used)?;
    let up = ctx.alloc_tensor(Dims { d0: ff, d1: n_used as u64, d2: l_u, d3: 1 })?;
    dispatch_matvec_id_nofence(ctx, w.ffn_up_exps, x_norm, ids, up, n_used)?;
    ctx.barrier2(gate, up);
    let ffn_h = ctx.alloc_tensor(Dims { d0: ff, d1: n_used as u64, d2: l_u, d3: 1 })?;
    ctx.apply2(Op::SwiGlu, gate, up, ffn_h, Fence::Own);
    let routed = ctx.alloc_matrix(hidden, l_u)?;
    let dtype = w.ffn_down_exps.dtype;
    match dtype {
        GgmlType::Q5_K | GgmlType::Q6_K | GgmlType::Q8_0 => {},
        _ => {
            return Err(RecordError::ExpertType(dtype));
        },
    }
    ctx.apply(
        Op::MoeDown { dtype, n_used, grouped: None },
        Operands {
            a: w.ffn_down_exps,
            b: Some(ffn_h),
            c: Some(ids),
            d: Some(weights_buf),
            e: None,
            f: None,
        },
        routed,
        Fence::Own,
    );
    let sh = ctx.alloc_matrix(shexp_ff, l_u)?;
    ctx.apply2(Op::SwiGlu, sgate, sup, sh, Fence::Own);
    let shared = ctx.alloc_matrix(hidden, l_u)?;
    ctx.apply2(Op::MatMul, w.ffn_down_shexp, sh, shared, Fence::Own);
    record_moe_sum(ctx, p, residual, routed, shared, shared_gate_pre, l_u)
}

/// The feed-forward half depends on memory through its weights alone.
pub proof fn lemma_same_moe<F: Copy>(
    a: Memory<F>,
    c: Memory<F>,
    p: &Qwen35MoeParams<F>,
    w: MoeFfnWeights,
    norm: TensorView,
    h: Term<F>,
    l: u64,
)
    requires
        w.apart(),
        norm.buffer is Weights,
        crate::models::blocks::same_weights(a, c),
    ensures
        moe_term(a, p, w, norm, h, l) == moe_term(c, p, w, norm, h, l),
{
    reveal(moe_term);
}

} // verus!
