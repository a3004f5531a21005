//! The halves of a DiffusionGemma layer: attention under an explicit mask, and
//! a shared feed-forward stretch beside routed experts.
use vstd::prelude::*;

use crate::models::blocks::{
    gated_bytes, gated_ready, ready, undisturbed, weights_live, GatedWeights,
};
use crate::models::gemma_blocks::{
    gated_normed, gemma_heads_bytes, gemma_k, gemma_q, gemma_v, record_gated_normed,
    record_gemma_heads, record_sandwich_out, sandwich_out, GemmaHeadWeights, GemmaHeads,
};
use crate::models::llama::for_attn;
use crate::models::recorder::{
    content, fresh, later, op1, op2, op3, op4, quiet, read, reserved, spends, DispatchContext,
    Fence, FlashAttnParams, Memory, Op, Operands, RecordError, RopeParams, Term,
};
use crate::models::tensor::{
    broadcast_col, covers, dense, fits, headed, matrix, permute_to_attn, repeated, size, Buffer,
    Dims, GgmlType, TensorView,
};

verus! {

/// Weights of a layer: attention, the shared feed-forward stretch, and the
/// routed experts.
#[derive(Clone, Copy)]
pub struct DiffusiongemmaBlockWeights {
    pub attn_norm: TensorView,
    pub wq: TensorView,
    pub wk: TensorView,
    /// Absent on global layers, whose values share the key projection.
    pub wv: Option<TensorView>,
    pub wo: TensorView,
    pub attn_q_norm: TensorView,
    pub attn_k_norm: TensorView,
    pub post_attn_norm: TensorView,
    pub ffn_norm: TensorView,
    pub ffn_gate: TensorView,
    pub ffn_up: TensorView,
    pub ffn_down: TensorView,
    pub ffn_post_norm_1: TensorView,
    /// Norm of the experts' input.
    pub ffn_pre_norm_2: TensorView,
    /// Norm of the experts' sum.
    pub ffn_post_norm_2: TensorView,
    pub ffn_gate_inp: TensorView,
    /// Scale of the router's input, by channel.
    pub ffn_gate_inp_s: TensorView,
    pub ffn_gate_up_exps: TensorView,
    pub ffn_down_exps: TensorView,
    /// Scale of an expert's output, folded into its routing weight.
    pub ffn_down_exps_s: TensorView,
    pub ffn_post_norm: TensorView,
}

impl DiffusiongemmaBlockWeights {
    /// Every tensor lies among the weights.
    pub open spec fn apart(&self) -> bool {
        &&& self.attn_norm.buffer is Weights
        &&& self.wq.buffer is Weights
        &&& self.wk.buffer is Weights
        &&& self.wv matches Some(t) ==> t.buffer is Weights
        &&& self.wo.buffer is Weights
        &&& self.attn_q_norm.buffer is Weights
        &&& self.attn_k_norm.buffer is Weights
        &&& self.post_attn_norm.buffer is Weights
        &&& self.ffn_norm.buffer is Weights
        &&& self.ffn_gate.buffer is Weights
        &&& self.ffn_up.buffer is Weights
        &&& self.ffn_down.buffer is Weights
        &&& self.ffn_post_norm_1.buffer is Weights
        &&& self.ffn_pre_norm_2.buffer is Weights
        &&& self.ffn_post_norm_2.buffer is Weights
        &&& self.ffn_gate_inp.buffer is Weights
        &&& self.ffn_gate_inp_s.buffer is Weights
        &&& self.ffn_gate_up_exps.buffer is Weights
        &&& self.ffn_down_exps.buffer is Weights
        &&& self.ffn_down_exps_s.buffer is Weights
        &&& self.ffn_post_norm.buffer is Weights
    }

    /// The weights that make the layer's heads.
    pub open spec fn head_weights(&self, freqs: Option<TensorView>) -> GemmaHeadWeights {
        GemmaHeadWeights {
            norm: self.attn_norm,
            wq: self.wq,
            wk: self.wk,
            wv: self.wv,
            q_norm: self.attn_q_norm,
            k_norm: self.attn_k_norm,
            freqs,
        }
    }

    /// The shared feed-forward stretch.
    pub open spec fn gated(&self) -> GatedWeights {
        GatedWeights {
            norm: self.ffn_norm,
            gate: self.ffn_gate,
            up: self.ffn_up,
            down: self.ffn_down,
        }
    }
}

/// Weights of the self-conditioning stretch.
#[derive(Clone, Copy)]
pub struct DiffusionScWeights {
    pub pre_norm: TensorView,
    pub gate: TensorView,
    pub up: TensorView,
    pub down: TensorView,
}

impl DiffusionScWeights {
    /// Every tensor lies among the weights.
    pub open spec fn apart(&self) -> bool {
        &&& self.pre_norm.buffer is Weights
        &&& self.gate.buffer is Weights
        &&& self.up.buffer is Weights
        &&& self.down.buffer is Weights
    }

    /// As a gated stretch.
    pub open spec fn gated(&self) -> GatedWeights {
        GatedWeights { norm: self.pre_norm, gate: self.gate, up: self.up, down: self.down }
    }
}

/// What decides a layer's attention.
#[derive(Clone, Copy)]
pub struct MaskedAttention<F> {
    pub eps: F,
    pub rope: RopeParams<F>,
    pub attn: FlashAttnParams<F>,
    pub heads: GemmaHeads,
    pub freqs: Option<TensorView>,
    pub width: u64,
    pub n: u32,
}

/// The hidden state after the attention half of a layer. The mask alone decides
/// what a query sees.
pub open spec fn diffusion_attended<F: Copy>(
    m: Memory<F>,
    c: MaskedAttention<F>,
    b: DiffusiongemmaBlockWeights,
    h: Term<F>,
    positions: Term<F>,
    mask: Term<F>,
) -> Term<F> {
    let n = c.n as u64;
    let hs = c.heads;
    let x = fresh(h, matrix(c.width, n));
    let w = b.head_weights(c.freqs);
    let out = op4(
        Op::FlashAttnMasked { params: c.attn, kv_len: c.n },
        for_attn(
            gemma_q(m, c.eps, c.rope, x, w, c.width, hs, positions, n),
            hs.head_dim,
            hs.n_head,
            n,
        ),
        for_attn(
            gemma_k(m, c.eps, c.rope, x, w, c.width, hs, positions, n),
            hs.head_dim,
            hs.n_head_kv,
            n,
        ),
        for_attn(gemma_v(m, c.eps, x, w, c.width, hs, n), hs.head_dim, hs.n_head_kv, n),
        mask,
    );
    sandwich_out(
        m,
        c.eps,
        x,
        fresh(out, matrix(hs.q_dim, n)),
        b.wo,
        b.post_attn_norm,
        c.width,
        n,
    )
}

/// Scratch that the attention half takes.
pub open spec fn attention_bytes<F>(c: MaskedAttention<F>, own_values: bool) -> nat {
    let n = c.n as u64;
    gemma_heads_bytes(own_values, c.width, c.heads, n) + size(matrix(c.heads.q_dim, n)) + 2 * size(
        matrix(c.width, n),
    )
}

/// Record the attention half of a layer.
#[verifier::rlimit(30)]
pub fn record_masked_attention<F: Copy>(
    ctx: &mut DispatchContext<F>,
    c: MaskedAttention<F>,
    b: &DiffusiongemmaBlockWeights,
    residual: TensorView,
    positions: TensorView,
    mask: TensorView,
) -> (r: Result<(), RecordError>)
    requires
        c.n >= 1,
        c.heads.wf(),
        quiet(old(ctx).memory()),
        weights_live(old(ctx).memory()),
        b.apart(),
        c.freqs matches Some(t) ==> t.buffer is Weights,
        residual == dense(residual.buffer, matrix(c.width, c.n as u64)),
        covers(residual),
        residual.buffer is Scratch,
        ready(old(ctx), residual),
        ready(old(ctx), positions),
        ready(old(ctx), mask),
        mask.buffer != residual.buffer,
    ensures
        final(ctx).region == old(ctx).region,
        final(ctx).replay == old(ctx).replay,
        final(ctx).at() >= old(ctx).at(),
        r matches Err(e) ==> e is ScratchExhausted,
        spends(old(ctx), final(ctx), r is Ok, attention_bytes(c, b.wv is Some)),
        r is Ok ==> {
            let m = old(ctx).memory();
            &&& content(final(ctx).memory(), residual.buffer) == diffusion_attended(
                m,
                c,
                *b,
                content(m, residual.buffer),
                read(m, positions),
                read(m, mask),
            )
            &&& quiet(final(ctx).memory())
            &&& undisturbed(m, final(ctx).memory(), old(ctx).at(), set![residual.buffer])
        },
{
    let ghost m0 = ctx.memory();
    let n: u64 = c.n as u64;
    let hs = c.heads;
    let w = GemmaHeadWeights {
        norm: b.attn_norm,
        wq: b.wq,
        wk: b.wk,
        wv: b.wv,
        q_norm: b.attn_q_norm,
        k_norm: b.attn_k_norm,
        freqs: c.freqs,
    };
    assert(w.ready(ctx));
    let (q, k, v) = record_gemma_heads(
        ctx,
        c.eps,
        c.rope,
        residual,
        w,
        c.width,
        hs,
        positions,
        n,
    )?;
    let ghost m1 = ctx.memory();
    proof {
        assert(ready(ctx, residual) && ready(ctx, mask));
        crate::models::blocks::lemma_heads_within(hs.head_dim, hs.n_head, hs.q_dim, n, ctx.region);
        crate::models::blocks::lemma_heads_within(
            hs.head_dim,
            hs.n_head_kv,
            hs.kv_dim,
            n,
            ctx.region,
        );
    }
    let q_perm = permute_to_attn(q, hs.head_dim, n, hs.n_head);
    let k_perm = permute_to_attn(k, hs.head_dim, n, hs.n_head_kv);
    let v_perm = permute_to_attn(v, hs.head_dim, n, hs.n_head_kv);
    let out = ctx.alloc_matrix(hs.q_dim, n)?;
    ctx.apply3_opt(
        Op::FlashAttnMasked { params: c.attn, kv_len: c.n },
        q_perm,
        k_perm,
        v_perm,
        Some(mask),
        out,
        Fence::Own,
    );
    let ghost m2 = ctx.memory();
    proof {
        assert forall|x: Buffer| !later(x, old(ctx).at()) implies content(m2, x) == content(m0, x)
            && (reserved(m0, x) ==> reserved(m2, x)) by {
            assert(content(m1, x) == content(m0, x));
        }
        assert(undisturbed(m0, m2, old(ctx).at(), Set::empty()));
        assert(ready(ctx, b.wo) && ready(ctx, b.post_attn_norm) && ready(ctx, residual));
    }
    record_sandwich_out(ctx, c.eps, residual, out, b.wo, b.post_attn_norm, c.width, n)?;
    proof {
        let m3 = ctx.memory();
        assert forall|x: Buffer|
            !later(x, old(ctx).at()) && !set![residual.buffer].contains(x) implies content(m3, x)
            == content(m0, x) && (reserved(m0, x) ==> reserved(m3, x)) by {
            assert(content(m2, x) == content(m0, x));
        }
    }
    Ok(())
}

/// What decides a layer's feed-forward half.
#[derive(Clone, Copy)]
pub struct ExpertLayer<F> {
    pub eps: F,
    /// One over the square root of the embedding width.
    pub router_scale: F,
    pub width: u64,
    pub n_ff: u64,
    pub expert_ff: u32,
    pub n_expert: u32,
    pub n_used: u32,
    pub n: u32,
    /// Whether an expert's weights are read once for all its tokens.
    pub group: bool,
}

impl<F> ExpertLayer<F> {
    /// How the experts' products are grouped: with several tokens only.
    pub open spec fn grouping(&self) -> Option<u32> {
        if self.n > 1 && self.group {
            Some(self.n_expert)
        } else {
            None
        }
    }
}

/// The types that the down projection of the experts can have.
pub open spec fn down_type(t: GgmlType) -> bool {
    t is Q8_0 || t is Q5_1 || t is Q5_K || t is Q6_K
}

/// The down projection of the experts; two of its types have a grouped form.
pub open spec fn down_op<F>(c: ExpertLayer<F>, t: GgmlType) -> Op<F> {
    Op::MoeDown {
        dtype: t,
        n_used: c.n_used,
        grouped: if t is Q8_0 || t is Q5_1 {
            c.grouping()
        } else {
            None
        },
    }
}

/// The logits of the router.
pub open spec fn router_logits<F: Copy>(
    m: Memory<F>,
    c: ExpertLayer<F>,
    b: DiffusiongemmaBlockWeights,
    x: Term<F>,
) -> Term<F> {
    let n = c.n as u64;
    let cols = matrix(c.width, n);
    let scaled = op1(
        Op::Scale { by: c.router_scale },
        fresh(op1(Op::RmsNormPlain { eps: c.eps }, x), cols),
    );
    fresh(
        op2(
            Op::MatMul,
            read(m, b.ffn_gate_inp),
            fresh(op2(Op::Mul, fresh(scaled, cols), read(m, repeated(b.ffn_gate_inp_s, n))), cols),
        ),
        matrix(c.n_expert as u64, n),
    )
}

/// The experts that the router picks.
pub open spec fn routed_ids<F>(c: ExpertLayer<F>, logits: Term<F>) -> Term<F> {
    fresh(
        op1(Op::TopkIds { n_experts: c.n_expert, n_used: c.n_used, with_norm: true }, logits),
        matrix(c.n_expert as u64, c.n as u64),
    )
}

/// The weights of the picked experts, times their output scales.
pub open spec fn routed_weights<F: Copy>(
    m: Memory<F>,
    c: ExpertLayer<F>,
    b: DiffusiongemmaBlockWeights,
    logits: Term<F>,
) -> Term<F> {
    let d = matrix(c.n_used as u64, c.n as u64);
    fresh(
        op3(
            Op::ExpertWeightScale { n_used: c.n_used, n_experts: c.n_expert, n: c.n },
            routed_ids(c, logits),
            read(m, b.ffn_down_exps_s),
            fresh(
                op1(
                    Op::TopkWeights {
                        n_experts: c.n_expert,
                        n_used: c.n_used,
                        with_norm: true,
                    },
                    logits,
                ),
                d,
            ),
        ),
        d,
    )
}

/// What the picked experts add up to, normalized.
pub open spec fn experts_term<F: Copy>(
    m: Memory<F>,
    c: ExpertLayer<F>,
    b: DiffusiongemmaBlockWeights,
    x: Term<F>,
) -> Term<F> {
    let n = c.n as u64;
    let cols = matrix(c.width, n);
    let logits = router_logits(m, c, b, x);
    let input = fresh(op2(Op::RmsNorm { eps: c.eps }, x, read(m, b.ffn_pre_norm_2)), cols);
    let gate_up = fresh(
        op3(
            Op::MatVecId { dtype: GgmlType::Q5_K, n_used: c.n_used, grouped: c.grouping() },
            read(m, b.ffn_gate_up_exps),
            input,
            routed_ids(c, logits),
        ),
        headed((2 * c.expert_ff) as u64, c.n_used as u64, n),
    );
    let inner = fresh(op1(Op::GeGlu, gate_up), headed(c.expert_ff as u64, c.n_used as u64, n));
    let sum = fresh(
        op4(
            down_op(c, b.ffn_down_exps.dtype),
            read(m, b.ffn_down_exps),
            inner,
            routed_ids(c, logits),
            routed_weights(m, c, b, logits),
        ),
        cols,
    );
    fresh(op2(Op::RmsNorm { eps: c.eps }, sum, read(m, b.ffn_post_norm_2)), cols)
}

/// The hidden state after the feed-forward half of a layer: the shared stretch
/// plus the experts, normalized, onto what came in.
pub open spec fn diffusion_fed<F: Copy>(
    m: Memory<F>,
    c: ExpertLayer<F>,
    b: DiffusiongemmaBlockWeights,
    h: Term<F>,
) -> Term<F> {
    let cols = matrix(c.width, c.n as u64);
    let x = fresh(h, cols);
    let both = fresh(
        op2(
            Op::Add,
            gated_normed(
                m,
                c.eps,
                x,
                b.gated(),
                b.ffn_post_norm_1,
                c.width,
                c.n_ff,
                c.n as u64,
            ),
            experts_term(m, c, b, x),
        ),
        cols,
    );
    op2(
        Op::Add,
        x,
        fresh(op2(Op::RmsNorm { eps: c.eps }, both, read(m, b.ffn_post_norm)), cols),
    )
}

/// Scratch that the router takes.
pub open spec fn router_bytes<F>(c: ExpertLayer<F>) -> nat {
    let n = c.n as u64;
    size(matrix(c.width, n)) + 2 * size(matrix(c.n_expert as u64, n)) + size(
        matrix(c.n_used as u64, n),
    )
}

/// Shape of what the picked experts' first projection gives.
pub open spec fn gate_up_dims<F>(c: ExpertLayer<F>) -> Dims {
    headed((2 * c.expert_ff) as u64, c.n_used as u64, c.n as u64)
}

/// Shape of what the picked experts' down projection takes.
pub open spec fn inner_dims<F>(c: ExpertLayer<F>) -> Dims {
    headed(c.expert_ff as u64, c.n_used as u64, c.n as u64)
}

/// Scratch that the experts take up to their down projection, its result included.
pub open spec fn mixed_bytes<F>(c: ExpertLayer<F>) -> nat {
    router_bytes(c) + 2 * size(matrix(c.width, c.n as u64)) + size(gate_up_dims(c)) + size(
        inner_dims(c),
    )
}

/// Why the experts cannot be recorded, if they cannot, where `used` bytes are in
/// use. The type of the down projection is looked at once its result is reserved.
pub open spec fn experts_failure<F>(
    c: ExpertLayer<F>,
    t: GgmlType,
    used: int,
    room: u64,
) -> Option<RecordError> {
    if !fits(room, gate_up_dims(c)) || !fits(room, inner_dims(c)) || used + mixed_bytes(c) > room {
        Some(RecordError::ScratchExhausted)
    } else if !down_type(t) {
        Some(RecordError::ExpertType(t))
    } else if used + experts_bytes(c) > room {
        Some(RecordError::ScratchExhausted)
    } else {
        None
    }
}

/// Scratch that the experts take.
pub open spec fn experts_bytes<F>(c: ExpertLayer<F>) -> nat {
    mixed_bytes(c) + size(matrix(c.width, c.n as u64))
}

/// Scratch that the shared stretch of the feed-forward half takes.
pub open spec fn shared_bytes<F>(c: ExpertLayer<F>) -> nat {
    gated_bytes(c.width, c.n_ff, c.n as u64) + size(matrix(c.width, c.n as u64))
}

/// Scratch that the feed-forward half takes.
pub open spec fn fed_bytes<F>(c: ExpertLayer<F>) -> nat {
    shared_bytes(c) + experts_bytes(c) + 2 * size(matrix(c.width, c.n as u64))
}

/// Why the feed-forward half cannot be recorded, if it cannot, where `used` bytes
/// are in use.
pub open spec fn fed_failure<F>(
    c: ExpertLayer<F>,
    t: GgmlType,
    used: int,
    room: u64,
) -> Option<RecordError> {
    let start = used + shared_bytes(c);
    if experts_failure(c, t, start, room) is Some {
        experts_failure(c, t, start, room)
    } else if used + fed_bytes(c) > room {
        Some(RecordError::ScratchExhausted)
    } else {
        None
    }
}

/// Record the router on `x`: the picked experts and their weights.
pub fn record_router<F: Copy>(
    ctx: &mut DispatchContext<F>,
    c: ExpertLayer<F>,
    b: &DiffusiongemmaBlockWeights,
    x: TensorView,
) -> (r: Result<(TensorView, TensorView), RecordError>)
    requires
        c.n >= 1,
        quiet(old(ctx).memory()),
        weights_live(old(ctx).memory()),
        b.apart(),
        ready(old(ctx), x),
    ensures
        final(ctx).region == old(ctx).region,
        final(ctx).replay == old(ctx).replay,
        final(ctx).at() >= old(ctx).at(),
        r matches Err(e) ==> e is ScratchExhausted,
        spends(old(ctx), final(ctx), r is Ok, router_bytes(c)),
        r matches Ok((ids, weights)) ==> {
            let m = old(ctx).memory();
            let logits = router_logits(m, c, *b, read(m, x));
            &&& ready(final(ctx), ids)
            &&& later(ids.buffer, old(ctx).at())
            &&& read(final(ctx).memory(), ids) == routed_ids(c, logits)
            &&& ready(final(ctx), weights)
            &&& later(weights.buffer, old(ctx).at())
            &&& read(final(ctx).memory(), weights) == routed_weights(m, c, *b, logits)
            &&& quiet(final(ctx).memory())
            &&& undisturbed(m, final(ctx).memory(), old(ctx).at(), Set::empty())
        },
{
    let n: u64 = c.n as u64;
    let r_in = ctx.alloc_matrix(c.width, n)?;
    ctx.apply1(Op::RmsNormPlain { eps: c.eps }, x, r_in, Fence::Own);
    ctx.apply1(Op::Scale { by: c.router_scale }, r_in, r_in, Fence::Own);
    let gate_inp_s = broadcast_col(b.ffn_gate_inp_s, n);
    ctx.apply2(Op::Mul, r_in, gate_inp_s, r_in, Fence::Own);
    let logits = ctx.alloc_matrix(c.n_expert as u64, n)?;
    ctx.apply2(Op::MatMul, b.ffn_gate_inp, r_in, logits, Fence::Own);
    let ids = ctx.alloc_matrix(c.n_expert as u64, n)?;
    let weights = ctx.alloc_matrix(c.n_used as u64, n)?;
    ctx.route(logits, weights, ids, c.n_expert, c.n_used, true);
    ctx.apply3(
        Op::ExpertWeightScale { n_used: c.n_used, n_experts: c.n_expert, n: c.n },
        ids,
        b.ffn_down_exps_s,
        weights,
        weights,
        Fence::Own,
    );
    Ok((ids, weights))
}

/// Record the picked experts on `x`.
pub fn record_experts<F: Copy>(
    ctx: &mut DispatchContext<F>,
    c: ExpertLayer<F>,
    b: &DiffusiongemmaBlockWeights,
    x: TensorView,
) -> (r: Result<TensorView, RecordError>)
    requires
        c.n >= 1,
        quiet(old(ctx).memory()),
        weights_live(old(ctx).memory()),
        b.apart(),
        ready(old(ctx), x),
    ensures
        final(ctx).region == old(ctx).region,
        final(ctx).replay == old(ctx).replay,
        final(ctx).at() >= old(ctx).at(),
        match r {
            Ok(t) => {
                let m = old(ctx).memory();
                &&& experts_failure(
                    c,
                    b.ffn_down_exps.dtype,
                    old(ctx).used as int,
                    old(ctx).region,
                ) is None
                &&& final(ctx).used == old(ctx).used + experts_bytes(c)
                &&& ready(final(ctx), t)
                &&& later(t.buffer, old(ctx).at())
                &&& read(final(ctx).memory(), t) == experts_term(m, c, *b, read(m, x))
                &&& quiet(final(ctx).memory())
                &&& undisturbed(m, final(ctx).memory(), old(ctx).at(), Set::empty())
            },
            Err(e) => experts_failure(
                c,
                b.ffn_down_exps.dtype,
                old(ctx).used as int,
                old(ctx).region,
            ) == Some(e),
        },
{
    let ghost m0 = ctx.memory();
    let n: u64 = c.n as u64;
    let (ids, weights) = record_router(ctx, c, b, x)?;
    let ghost m1 = ctx.memory();
    assert(ready(ctx, x) && ready(ctx, b.ffn_pre_norm_2) && ready(ctx, b.ffn_gate_up_exps));
    assert(ready(ctx, b.ffn_down_exps) && ready(ctx, b.ffn_post_norm_2));
    let input = ctx.alloc_matrix(c.width, n)?;
    ctx.apply2(Op::RmsNorm { eps: c.eps }, x, b.ffn_pre_norm_2, input, Fence::Own);
    let used: u64 = c.n_used as u64;
    let gate_up = ctx.alloc_tensor(
        Dims { d0: 2 * (c.expert_ff as u64), d1: used, d2: n, d3: 1 },
    )?;
    let grouping: Option<u32> = if c.n > 1 && c.group {
        Some(c.n_expert)
    } else {
        None
    };
    ctx.apply3(
        Op::MatVecId { dtype: GgmlType::Q5_K, n_used: c.n_used, grouped: grouping },
        b.ffn_gate_up_exps,
        input,
        ids,
        gate_up,
        Fence::Own,
    );
    let inner = ctx.alloc_tensor(Dims { d0: c.expert_ff as u64, d1: used, d2: n, d3: 1 })?;
    ctx.apply1(Op::GeGlu, gate_up, inner, Fence::Own);
    let sum = ctx.alloc_matrix(c.width, n)?;
    let dtype = b.ffn_down_exps.dtype;
    let down_grouped: Option<u32> = match dtype {
        GgmlType::Q8_0 | GgmlType::Q5_1 => grouping,
        GgmlType::Q5_K | GgmlType::Q6_K => None,
        _ => {
            return Err(RecordError::ExpertType(dtype));
        },
    };
    ctx.apply(
        Op::MoeDown { dtype, n_used: c.n_used, grouped: down_grouped },
        Operands {
            a: b.ffn_down_exps,
            b: Some(inner),
            c: Some(ids),
            d: Some(weights),
            e: None,
            f: None,
        },
        sum,
        Fence::Own,
    );
    let normed = ctx.alloc_matrix(c.width, n)?;
    ctx.apply2(Op::RmsNorm { eps: c.eps }, sum, b.ffn_post_norm_2, normed, Fence::Own);
    proof {
        let m2 = ctx.memory();
        assert forall|y: Buffer| !later(y, old(ctx).at()) implies content(m2, y) == content(m0, y)
            && (reserved(m0, y) ==> reserved(m2, y)) by {
            assert(content(m1, y) == content(m0, y));
        }
    }
    Ok(normed)
}

/// Record the feed-forward half of a layer.
pub fn record_ffn_moe<F: Copy>(
    ctx: &mut DispatchContext<F>,
    c: ExpertLayer<F>,
    b: &DiffusiongemmaBlockWeights,
    residual: TensorView,
) -> (r: Result<(), RecordError>)
    requires
        c.n >= 1,
        quiet(old(ctx).memory()),
        weights_live(old(ctx).memory()),
        b.apart(),
        residual == dense(residual.buffer, matrix(c.width, c.n as u64)),
        covers(residual),
        residual.buffer is Scratch,
        ready(old(ctx), residual),
    ensures
        final(ctx).region == old(ctx).region,
        final(ctx).replay == old(ctx).replay,
        final(ctx).at() >= old(ctx).at(),
        match r {
            Ok(_) => {
                let m = old(ctx).memory();
                &&& fed_failure(
                    c,
                    b.ffn_down_exps.dtype,
                    old(ctx).used as int,
                    old(ctx).region,
                ) is None
                &&& final(ctx).used == old(ctx).used + fed_bytes(c)
                &&& content(final(ctx).memory(), residual.buffer) == diffusion_fed(
                    m,
                    c,
                    *b,
                    content(m, residual.buffer),
                )
                &&& quiet(final(ctx).memory())
                &&& undisturbed(m, final(ctx).memory(), old(ctx).at(), set![residual.buffer])
            },
            Err(e) => fed_failure(
                c,
                b.ffn_down_exps.dtype,
                old(ctx).used as int,
                old(ctx).region,
            ) == Some(e),
        },
{
    let ghost m0 = ctx.memory();
    let n: u64 = c.n as u64;
    let gw = GatedWeights {
        norm: b.ffn_norm,
        gate: b.ffn_gate,
        up: b.ffn_up,
        down: b.ffn_down,
    };
    assert(gated_ready(ctx, gw) && ready(ctx, b.ffn_post_norm_1));
    let dense_normed = record_gated_normed(
        ctx,
        c.eps,
        residual,
        gw,
        b.ffn_post_norm_1,
        c.width,
        c.n_ff,
        n,
    )?;
    let ghost m1 = ctx.memory();
    assert(ready(ctx, residual));
    let moe_normed = record_experts(ctx, c, b, residual)?;
    let ghost m2 = ctx.memory();
    proof {
        assert(ready(ctx, dense_normed) && ready(ctx, residual));
        assert(content(m2, dense_normed.buffer) == content(m1, dense_normed.buffer));
        assert(content(m2, residual.buffer) == content(m0, residual.buffer));
        assert(experts_term(m1, c, *b, read(m1, residual)) == experts_term(
            m0,
            c,
            *b,
            read(m0, residual),
        ));
        assert forall|x: Buffer| !later(x, old(ctx).at()) implies content(m2, x) == content(m0, x)
            && (reserved(m0, x) ==> reserved(m2, x)) by {
            assert(content(m1, x) == content(m0, x));
        }
        assert(undisturbed(m0, m2, old(ctx).at(), Set::empty()));
        assert(ready(ctx, b.ffn_post_norm));
    }
    let combined = ctx.alloc_matrix(c.width, n)?;
    ctx.apply2(Op::Add, dense_normed, moe_normed, combined, Fence::Own);
    let combined_normed = ctx.alloc_matrix(c.width, n)?;
    ctx.apply2(Op::RmsNorm { eps: c.eps }, combined, b.ffn_post_norm, combined_normed, Fence::Own);
    ctx.apply2(Op::Add, residual, combined_normed, residual, Fence::Own);
    proof {
        let m3 = ctx.memory();
        assert forall|x: Buffer|
            !later(x, old(ctx).at()) && !set![residual.buffer].contains(x) implies content(m3, x)
            == content(m0, x) && (reserved(m0, x) ==> reserved(m3, x)) by {
            assert(content(m2, x) == content(m0, x));
        }
    }
    Ok(())
}

} // verus!
