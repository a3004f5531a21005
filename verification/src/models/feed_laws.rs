//! What the feed-forward stretches of the models compute.
use vstd::prelude::*;

use crate::models::blocks::{gated_term, GatedWeights};
use crate::models::gemma_blocks::gated_normed;
use crate::models::meaning::{flat, gated_output, lemma_values, linear, value, weighed, Meaning};
use crate::models::qwen35_moe::{
    moe_input, moe_product, moe_sum, moe_term, routed_term, shared_term,
};
use crate::models::qwen35_weights::{MoeFfnWeights, Qwen35MoeParams};
use crate::models::recorder::{read, Memory, Op, Term};
use crate::models::tensor::GgmlType;

verus! {

/// In a gated stretch the activation is applied to the product of its gate
/// weights with the normalized input, and to nothing else; what it gives is
/// multiplied by the product of the up weights with that input.
pub proof fn law_gate_weights_are_activated<F, V>(
    k: Meaning<F, V>,
    m: Memory<F>,
    eps: F,
    x: Term<F>,
    w: GatedWeights,
    width: u64,
    inner: u64,
    l: u64,
)
    requires
        flat(k),
    ensures
        ({
            let n = weighed(k, eps, value(k, x), value(k, read(m, w.norm)));
            let gate = value(k, read(m, w.gate));
            let up = value(k, read(m, w.up));
            let down = value(k, read(m, w.down));
            &&& value(k, gated_term(m, Op::Silu, eps, x, w, width, inner, l)) == gated_output(
                k,
                k.silu,
                n,
                gate,
                up,
                down,
            )
            &&& value(k, gated_term(m, Op::Gelu, eps, x, w, width, inner, l)) == gated_output(
                k,
                k.gelu,
                n,
                gate,
                up,
                down,
            )
        }),
{
    lemma_values(k);
}

/// The output of a gated stretch follows the up weights in proportion: in a
/// memory that holds `c` times those weights, and the rest alike, it is `c` times
/// what it was. Gate weights stand under the activation and have no such
/// place.
pub proof fn law_output_follows_the_up_weights<F, V>(
    k: Meaning<F, V>,
    m: Memory<F>,
    m2: Memory<F>,
    c: F,
    eps: F,
    x: Term<F>,
    w: GatedWeights,
    width: u64,
    inner: u64,
    l: u64,
)
    requires
        flat(k),
        linear(k),
        value(k, read(m2, w.norm)) == value(k, read(m, w.norm)),
        value(k, read(m2, w.gate)) == value(k, read(m, w.gate)),
        value(k, read(m2, w.down)) == value(k, read(m, w.down)),
        value(k, read(m2, w.up)) == (k.scale)(c, value(k, read(m, w.up))),
    ensures
        value(k, gated_term(m2, Op::Silu, eps, x, w, width, inner, l)) == (k.scale)(
            c,
            value(k, gated_term(m, Op::Silu, eps, x, w, width, inner, l)),
        ),
        value(k, gated_term(m2, Op::Gelu, eps, x, w, width, inner, l)) == (k.scale)(
            c,
            value(k, gated_term(m, Op::Gelu, eps, x, w, width, inner, l)),
        ),
{
    law_gate_weights_are_activated(k, m, eps, x, w, width, inner, l);
    law_gate_weights_are_activated(k, m2, eps, x, w, width, inner, l);
}

/// A gated stretch between two norms is activated by `gelu` and normalized once
/// more at its end.
pub proof fn law_normed_stretch_ends_in_its_norm<F, V>(
    k: Meaning<F, V>,
    m: Memory<F>,
    eps: F,
    x: Term<F>,
    w: GatedWeights,
    post: crate::models::tensor::TensorView,
    width: u64,
    inner: u64,
    l: u64,
)
    requires
        flat(k),
    ensures
        value(k, gated_normed(m, eps, x, w, post, width, inner, l)) == weighed(
            k,
            eps,
            gated_output(
                k,
                k.gelu,
                weighed(k, eps, value(k, x), value(k, read(m, w.norm))),
                value(k, read(m, w.gate)),
                value(k, read(m, w.up)),
                value(k, read(m, w.down)),
            ),
            value(k, read(m, post)),
        ),
{
    lemma_values(k);
    law_gate_weights_are_activated(k, m, eps, x, w, width, inner, l);
}

/// The picked experts of a layer over `n`: their up weights' products, each times
/// `silu` of their gate weights' product, through their down weights and summed
/// by their shares. `types` are those of the three weights.
pub open spec fn experts_output<F, V>(
    k: Meaning<F, V>,
    n_experts: u32,
    n_used: u32,
    types: (GgmlType, GgmlType, GgmlType),
    n: V,
    router: V,
    gate: V,
    up: V,
    down: V,
) -> V {
    let logits = (k.product)(router, n);
    let ids = (k.picked)(n_experts, n_used, true, logits);
    (k.mix)(
        types.2,
        n_used,
        down,
        (k.times)(
            (k.silu)((k.each)(types.0, n_used, gate, n, ids)),
            (k.each)(types.1, n_used, up, n, ids),
        ),
        ids,
        (k.shares)(n_experts, n_used, true, logits),
    )
}

/// The feed-forward half of a mixture-of-experts layer adds to what came in the
/// routed experts' output and the shared expert's, the latter times the sigmoid of
/// its gate. In both the operand under `silu` is the product with its gate
/// weights, and the other factor the product with the up weights. A switch leaves
/// its part out and changes nothing else.
pub proof fn law_experts_activate_their_gates<F: Copy, V>(
    k: Meaning<F, V>,
    m: Memory<F>,
    p: &Qwen35MoeParams<F>,
    w: MoeFfnWeights,
    norm: crate::models::tensor::TensorView,
    h: Term<F>,
    l: u64,
)
    requires
        flat(k),
    ensures
        ({
            let x = value(k, h);
            let n = weighed(k, p.rms_eps, x, value(k, read(m, norm)));
            let routed = experts_output(
                k,
                p.n_expert,
                p.n_expert_used,
                (w.ffn_gate_exps.dtype, w.ffn_up_exps.dtype, w.ffn_down_exps.dtype),
                n,
                value(k, read(m, w.ffn_gate_inp)),
                value(k, read(m, w.ffn_gate_exps)),
                value(k, read(m, w.ffn_up_exps)),
                value(k, read(m, w.ffn_down_exps)),
            );
            let shared = (k.times)(
                gated_output(
                    k,
                    k.silu,
                    n,
                    value(k, read(m, w.ffn_gate_shexp)),
                    value(k, read(m, w.ffn_up_shexp)),
                    value(k, read(m, w.ffn_down_shexp)),
                ),
                (k.sigmoid)((k.product)(value(k, read(m, w.ffn_gate_inp_shexp)), n)),
            );
            let first = if p.switches.no_routed {
                x
            } else {
                (k.sum)(x, routed)
            };
            value(k, moe_term(m, p, w, norm, h, l)) == if p.switches.no_shared {
                first
            } else {
                (k.sum)(first, shared)
            }
        }),
{
    reveal(moe_term);
    lemma_values(k);
}

/// The routed experts' output follows their up weights in proportion, and so does
/// the shared expert's.
pub proof fn law_experts_follow_the_up_weights<F: Copy, V>(
    k: Meaning<F, V>,
    m: Memory<F>,
    m2: Memory<F>,
    c: F,
    p: &Qwen35MoeParams<F>,
    w: MoeFfnWeights,
    n: Term<F>,
    l: u64,
)
    requires
        flat(k),
        linear(k),
        forall|t: GgmlType, n: u32, d: V, a: V, i: V, s: V| #[trigger]
            (k.mix)(t, n, d, (k.scale)(c, a), i, s) == (k.scale)(c, (k.mix)(t, n, d, a, i, s)),
        forall|t: GgmlType, n: u32, u: V, a: V, i: V| #[trigger]
            (k.each)(t, n, (k.scale)(c, u), a, i) == (k.scale)(c, (k.each)(t, n, u, a, i)),
        value(k, read(m2, w.ffn_gate_inp)) == value(k, read(m, w.ffn_gate_inp)),
        value(k, read(m2, w.ffn_gate_exps)) == value(k, read(m, w.ffn_gate_exps)),
        value(k, read(m2, w.ffn_down_exps)) == value(k, read(m, w.ffn_down_exps)),
        value(k, read(m2, w.ffn_up_exps)) == (k.scale)(c, value(k, read(m, w.ffn_up_exps))),
        value(k, read(m2, w.ffn_gate_shexp)) == value(k, read(m, w.ffn_gate_shexp)),
        value(k, read(m2, w.ffn_down_shexp)) == value(k, read(m, w.ffn_down_shexp)),
        value(k, read(m2, w.ffn_up_shexp)) == (k.scale)(c, value(k, read(m, w.ffn_up_shexp))),
    ensures
        value(k, routed_term(m2, p, w, n, l)) == (k.scale)(
            c,
            value(k, routed_term(m, p, w, n, l)),
        ),
        value(k, shared_term(m2, p, w, n, l)) == (k.scale)(
            c,
            value(k, shared_term(m, p, w, n, l)),
        ),
{
    lemma_values(k);
}

} // verus!
