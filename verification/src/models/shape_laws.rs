//! The extents with which operations read their operands.
use vstd::prelude::*;

use crate::models::blocks::LayerCache;
use crate::models::diffusion_blocks::{
    diffusion_attended, diffusion_fed, DiffusiongemmaBlockWeights, ExpertLayer, MaskedAttention,
};
use crate::models::gemma4::{
    gemma4_k_cache, gemma4_layer, gemma4_v_cache, Gemma4BlockWeights, Gemma4Params,
};
use crate::models::llama::{llama_layer, LlamaBlockWeights, LlamaParams, Pass};
use crate::models::qwen3::{qwen3_layer, Qwen3BlockWeights, Qwen3Params};
use crate::models::qwen35_attention::{
    qwen_attended, qwen_k_cache, qwen_v_cache, QwenPass,
};
use crate::models::qwen35_moe::moe_term;
use crate::models::qwen35_ssm::{ssm_term, SsmShape, SsmStates};
use crate::models::qwen35_weights::{
    AttentionBlockWeights, MoeFfnWeights, Qwen35MoeParams, SsmBlockWeights,
};
use crate::models::recorder::{
    content, fresh, op1, op2, op2_opt, op3, op3_opt, op4, op6, put, read, through, Memory, Op, Shape,
    Term,
};
use crate::models::tensor::{headed, matrix, Buffer, Dims, TensorView};

verus! {

/// The extents that a value is read with, where it is read through a view.
pub open spec fn extents<F>(t: Term<F>) -> Option<Dims> {
    match t {
        Term::View(_, s) => Some(s.dims),
        _ => None,
    }
}

/// The extents of an operand that may be missing.
pub open spec fn extents_opt<F>(t: Option<Box<Term<F>>>) -> Option<Dims> {
    match t {
        Some(x) => extents(*x),
        None => None,
    }
}

/// Every operation that went into a value meets the condition, which is on the
/// operation and the extents of its first three operands.
pub open spec fn every<F>(
    t: Term<F>,
    meets: spec_fn(Op<F>, Option<Dims>, Option<Dims>, Option<Dims>) -> bool,
) -> bool
    decreases t,
{
    match t {
        Term::View(of, _) => every(*of, meets),
        Term::Patch { into, with, .. } => every(*into, meets) && every(*with, meets),
        Term::Apply(op, i) => {
            &&& meets(op, extents(*i.a), extents_opt(i.b), extents_opt(i.c))
            &&& every(*i.a, meets)
            &&& match i.b {
                Some(x) => every(*x, meets),
                None => true,
            }
            &&& match i.c {
                Some(x) => every(*x, meets),
                None => true,
            }
            &&& match i.d {
                Some(x) => every(*x, meets),
                None => true,
            }
            &&& match i.e {
                Some(x) => every(*x, meets),
                None => true,
            }
            &&& match i.f {
                Some(x) => every(*x, meets),
                None => true,
            }
        },
        _ => true,
    }
}

/// Every operation that went into what memory holds meets the condition.
pub open spec fn held_so<F>(
    m: Memory<F>,
    meets: spec_fn(Op<F>, Option<Dims>, Option<Dims>, Option<Dims>) -> bool,
) -> bool {
    forall|b: Buffer| #[trigger] every(content(m, b), meets)
}

/// Every operation that went into an operand, where there is one, meets the
/// condition.
pub open spec fn every_opt<F>(
    t: Option<Term<F>>,
    meets: spec_fn(Op<F>, Option<Dims>, Option<Dims>, Option<Dims>) -> bool,
) -> bool {
    match t {
        Some(x) => every(x, meets),
        None => true,
    }
}

/// What the condition comes to for the terms of operations and of reads.
proof fn lemma_every<F>(
    m: Memory<F>,
    meets: spec_fn(Op<F>, Option<Dims>, Option<Dims>, Option<Dims>) -> bool,
)
    requires
        held_so(m, meets),
    ensures
        forall|t: Term<F>, d: Dims| #[trigger] every(fresh(t, d), meets) == every(t, meets),
        forall|t: Term<F>, v: TensorView| #[trigger]
            every(through(t, v), meets) == every(t, meets),
        forall|v: TensorView| #[trigger] every(read(m, v), meets),
        forall|into: Term<F>, at: Shape, with: Term<F>| #[trigger]
            every(Term::Patch { into: Box::new(into), at, with: Box::new(with) }, meets) == (every(
                into,
                meets,
            ) && every(with, meets)),
        forall|held: Term<F>, dst: TensorView, v: Term<F>|
            every(held, meets) && every(v, meets) ==> #[trigger] every(put(held, dst, v), meets),
        forall|op: Op<F>, a: Term<F>, b: Term<F>, c: Term<F>, d: Term<F>, e: Term<F>, f: Term<F>|
         #[trigger]
            every(op6(op, a, b, c, d, e, f), meets) == (meets(
                op,
                extents(a),
                extents(b),
                extents(c),
            ) && every(a, meets) && every(b, meets) && every(c, meets) && every(d, meets) && every(
                e,
                meets,
            ) && every(f, meets)),
        forall|op: Op<F>, a: Term<F>| #[trigger]
            every(op1(op, a), meets) == (meets(op, extents(a), None, None) && every(a, meets)),
        forall|op: Op<F>, a: Term<F>, b: Term<F>| #[trigger]
            every(op2(op, a, b), meets) == (meets(op, extents(a), extents(b), None) && every(
                a,
                meets,
            ) && every(b, meets)),
        forall|op: Op<F>, a: Term<F>, b: Term<F>, c: Option<Term<F>>| #[trigger]
            every(op2_opt(op, a, b, c), meets) == (meets(
                op,
                extents(a),
                extents(b),
                match c {
                    Some(x) => extents(x),
                    None => None,
                },
            ) && every(a, meets) && every(b, meets) && every_opt(c, meets)),
        forall|op: Op<F>, a: Term<F>, b: Term<F>, c: Term<F>| #[trigger]
            every(op3(op, a, b, c), meets) == (meets(op, extents(a), extents(b), extents(c))
                && every(a, meets) && every(b, meets) && every(c, meets)),
        forall|op: Op<F>, a: Term<F>, b: Term<F>, c: Term<F>, d: Option<Term<F>>| #[trigger]
            every(op3_opt(op, a, b, c, d), meets) == (meets(
                op,
                extents(a),
                extents(b),
                extents(c),
            ) && every(a, meets) && every(b, meets) && every(c, meets) && every_opt(d, meets)),
        forall|op: Op<F>, a: Term<F>, b: Term<F>, c: Term<F>, d: Term<F>| #[trigger]
            every(op4(op, a, b, c, d), meets) == (meets(op, extents(a), extents(b), extents(c))
                && every(a, meets) && every(b, meets) && every(c, meets) && every(d, meets)),
{
    assert forall|v: TensorView| #[trigger] every(read(m, v), meets) by {
        assert(every(content(m, v.buffer), meets));
    }
}

/// Sizes of a layer.
pub struct Sizes {
    pub width: u64,
    pub inner: u64,
    pub head_k: u64,
    pub head_v: u64,
    pub n_head: u64,
    pub n_head_kv: u64,
    /// Tokens of the pass, and tokens that are attended.
    pub l: u64,
    pub keys: u64,
}

/// Heads as attention reads them.
pub open spec fn attention_dims(head_dim: u64, l: u64, heads: u64) -> Dims {
    Dims { d0: head_dim, d1: l, d2: heads, d3: 1 }
}

/// Operands are read as a layer's sizes call for: hidden states and their products
/// as columns for each token; queries and keys head by head where they are rotated;
/// keys and values by their own heads where they are cached; and all three token by
/// token within each head where they meet.
pub open spec fn reads_by<F>(
    s: Sizes,
    op: Op<F>,
    a: Option<Dims>,
    b: Option<Dims>,
    c: Option<Dims>,
) -> bool {
    let queries = Some(headed(s.head_k, s.n_head, s.l));
    let keys = Some(headed(s.head_k, s.n_head_kv, s.l));
    let values = Some(headed(s.head_v, s.n_head_kv, s.l));
    let hidden = Some(matrix(s.width, s.l));
    let inner = Some(matrix(s.inner, s.l));
    match op {
        Op::Rope { .. } | Op::RopeNeox { .. } | Op::NormRopeMulti { .. } => a == queries || a
            == keys,
        Op::NormRopeMultiToCache { .. } => a == keys,
        Op::CacheWrite { .. } => a == keys || a == values,
        Op::CacheWriteHalf { .. } => a == values,
        Op::FlashAttn { .. } | Op::FlashAttnMasked { .. } => {
            &&& a == Some(attention_dims(s.head_k, s.l, s.n_head))
            &&& b == Some(attention_dims(s.head_k, s.keys, s.n_head_kv))
            &&& c == Some(attention_dims(s.head_v, s.keys, s.n_head_kv))
        },
        Op::RmsNorm { .. } => a == hidden || a == queries || a == keys,
        Op::RmsNormPlain { .. } => a == hidden || a == values,
        Op::MatMul | Op::MatMulAdd => b == hidden || b == inner || b == Some(
            matrix((s.head_v * s.n_head) as u64, s.l),
        ),
        Op::Silu | Op::Gelu => a == inner,
        Op::Add => a == hidden && b == hidden,
        Op::Scale { .. } => a == hidden,
        _ => true,
    }
}

/// The condition that operands are read by these sizes.
pub open spec fn by_sizes<F>(s: Sizes) -> spec_fn(
    Op<F>,
    Option<Dims>,
    Option<Dims>,
    Option<Dims>,
) -> bool {
    |op: Op<F>, a: Option<Dims>, b: Option<Dims>, c: Option<Dims>| reads_by(s, op, a, b, c)
}

/// Sizes of a LLaMA layer: the heads part its width among them.
pub open spec fn llama_sizes<F: Copy>(p: &LlamaParams<F>, pass: Pass) -> Sizes {
    let head = p.n_embd / p.n_head;
    Sizes {
        width: p.n_embd as u64,
        inner: p.n_ff as u64,
        head_k: head as u64,
        head_v: head as u64,
        n_head: p.n_head as u64,
        n_head_kv: p.n_head_kv as u64,
        l: pass.l as u64,
        keys: pass.total_len as u64,
    }
}

/// A LLaMA layer reads its operands by its sizes.
pub proof fn law_llama_reads_by_its_sizes<F: Copy>(
    m: Memory<F>,
    p: &LlamaParams<F>,
    b: LlamaBlockWeights,
    layer: LayerCache,
    h: Term<F>,
    positions: Term<F>,
    mask: Option<Term<F>>,
    pass: Pass,
)
    requires
        held_so(m, by_sizes(llama_sizes(p, pass))),
        every(h, by_sizes(llama_sizes(p, pass))),
        every(positions, by_sizes(llama_sizes(p, pass))),
        every_opt(mask, by_sizes(llama_sizes(p, pass))),
    ensures
        every(
            llama_layer(m, p, b, layer, h, positions, mask, pass),
            by_sizes(llama_sizes(p, pass)),
        ),
{
    lemma_every(m, by_sizes(llama_sizes(p, pass)));
}

/// Sizes of a Qwen 3 layer: heads have a width of their own.
pub open spec fn qwen3_sizes<F: Copy>(p: &Qwen3Params<F>, pass: Pass) -> Sizes {
    Sizes {
        width: p.n_embd as u64,
        inner: p.n_ff as u64,
        head_k: p.head_dim as u64,
        head_v: p.head_dim as u64,
        n_head: p.n_head as u64,
        n_head_kv: p.n_head_kv as u64,
        l: pass.l as u64,
        keys: pass.total_len as u64,
    }
}

/// A Qwen 3 layer reads its operands by its sizes.
pub proof fn law_qwen3_reads_by_its_sizes<F: Copy>(
    m: Memory<F>,
    p: &Qwen3Params<F>,
    b: Qwen3BlockWeights,
    layer: LayerCache,
    h: Term<F>,
    positions: Term<F>,
    mask: Option<Term<F>>,
    pass: Pass,
)
    requires
        p.wf(),
        held_so(m, by_sizes(qwen3_sizes(p, pass))),
        every(h, by_sizes(qwen3_sizes(p, pass))),
        every(positions, by_sizes(qwen3_sizes(p, pass))),
        every_opt(mask, by_sizes(qwen3_sizes(p, pass))),
    ensures
        every(
            qwen3_layer(m, p, b, layer, h, positions, mask, pass),
            by_sizes(qwen3_sizes(p, pass)),
        ),
{
    assert(p.head_dim * p.n_head == p.n_head * p.head_dim) by (nonlinear_arith);
    lemma_every(m, by_sizes(qwen3_sizes(p, pass)));
}

/// Sizes of a Gemma 4 layer: heads are as wide as its kind of attention has them.
pub open spec fn gemma4_sizes<F: Copy>(p: &Gemma4Params<F>, il: int, pass: Pass) -> Sizes {
    let head = if p.swa@[il] {
        p.head_dim_swa
    } else {
        p.head_dim_global
    };
    Sizes {
        width: p.n_embd as u64,
        inner: p.n_ff as u64,
        head_k: head as u64,
        head_v: head as u64,
        n_head: p.n_head as u64,
        n_head_kv: p.n_head_kv@[il] as u64,
        l: pass.l as u64,
        keys: pass.total_len as u64,
    }
}

/// A Gemma 4 layer reads its operands by its sizes.
pub proof fn law_gemma4_reads_by_its_sizes<F: Copy>(
    m: Memory<F>,
    p: &Gemma4Params<F>,
    b: Gemma4BlockWeights,
    freqs: Option<TensorView>,
    il: int,
    layer: LayerCache,
    h: Term<F>,
    positions: Term<F>,
    mask: Option<Term<F>>,
    pass: Pass,
)
    requires
        p.layer_wf(il),
        held_so(m, by_sizes(gemma4_sizes(p, il, pass))),
        every(h, by_sizes(gemma4_sizes(p, il, pass))),
        every(positions, by_sizes(gemma4_sizes(p, il, pass))),
        every_opt(mask, by_sizes(gemma4_sizes(p, il, pass))),
    ensures
        every(
            gemma4_layer(m, p, b, freqs, il, layer, h, positions, mask, pass),
            by_sizes(gemma4_sizes(p, il, pass)),
        ),
{
    reveal(gemma4_layer);
    reveal(gemma4_k_cache);
    reveal(gemma4_v_cache);
    assert(p.head(il) * p.n_head == p.n_head * p.head(il)) by (nonlinear_arith);
    lemma_every(m, by_sizes(gemma4_sizes(p, il, pass)));
}

/// Sizes of the attention half of a diffusion layer.
pub open spec fn canvas_sizes<F: Copy>(c: MaskedAttention<F>) -> Sizes {
    Sizes {
        width: c.width,
        inner: 0,
        head_k: c.heads.head_dim,
        head_v: c.heads.head_dim,
        n_head: c.heads.n_head,
        n_head_kv: c.heads.n_head_kv,
        l: c.n as u64,
        keys: c.n as u64,
    }
}

/// The attention half of a diffusion layer reads its operands by its sizes.
pub proof fn law_diffusion_attention_reads_by_its_sizes<F: Copy>(
    m: Memory<F>,
    c: MaskedAttention<F>,
    b: DiffusiongemmaBlockWeights,
    h: Term<F>,
    positions: Term<F>,
    mask: Term<F>,
)
    requires
        c.heads.wf(),
        held_so(m, by_sizes(canvas_sizes(c))),
        every(h, by_sizes(canvas_sizes(c))),
        every(positions, by_sizes(canvas_sizes(c))),
        every(mask, by_sizes(canvas_sizes(c))),
    ensures
        every(diffusion_attended(m, c, b, h, positions, mask), by_sizes(canvas_sizes(c))),
{
    assert(c.heads.head_dim * c.heads.n_head == c.heads.n_head * c.heads.head_dim)
        by (nonlinear_arith);
    lemma_every(m, by_sizes(canvas_sizes(c)));
}

/// Operands of a diffusion layer's feed-forward half are read as its sizes call for:
/// logits for each expert, and for each chosen expert the two halves of its gated
/// stretch and then one.
pub open spec fn routes_by<F>(
    e: ExpertLayer<F>,
    op: Op<F>,
    a: Option<Dims>,
    b: Option<Dims>,
    c: Option<Dims>,
) -> bool {
    let n = e.n as u64;
    let hidden = Some(matrix(e.width, n));
    let inner = Some(matrix(e.n_ff, n));
    let logits = Some(matrix(e.n_expert as u64, n));
    let used = e.n_used as u64;
    match op {
        Op::RmsNorm { .. } | Op::RmsNormPlain { .. } | Op::Scale { .. } => a == hidden,
        Op::MatMul => b == hidden || b == inner,
        Op::Gelu => a == inner,
        Op::Add => a == hidden && b == hidden,
        Op::TopkWeights { .. } | Op::TopkIds { .. } => a == logits,
        Op::ExpertWeightScale { .. } => a == logits && c == Some(matrix(used, n)),
        Op::MatVecId { .. } => b == hidden && c == logits,
        Op::GeGlu => a == Some(headed((2 * e.expert_ff) as u64, used, n)),
        Op::MoeDown { .. } => b == Some(headed(e.expert_ff as u64, used, n)) && c == logits,
        _ => true,
    }
}

/// The condition that operands are read by the sizes of a feed-forward half.
pub open spec fn by_experts<F>(e: ExpertLayer<F>) -> spec_fn(
    Op<F>,
    Option<Dims>,
    Option<Dims>,
    Option<Dims>,
) -> bool {
    |op: Op<F>, a: Option<Dims>, b: Option<Dims>, c: Option<Dims>| routes_by(e, op, a, b, c)
}

/// The feed-forward half of a diffusion layer reads its operands by its sizes.
pub proof fn law_diffusion_experts_read_by_their_sizes<F: Copy>(
    m: Memory<F>,
    e: ExpertLayer<F>,
    b: DiffusiongemmaBlockWeights,
    h: Term<F>,
)
    requires
        held_so(m, by_experts(e)),
        every(h, by_experts(e)),
    ensures
        every(diffusion_fed(m, e, b, h), by_experts(e)),
{
    lemma_every(m, by_experts(e));
}

/// Sizes of a Qwen 3.5 attention half. Caches that attention reads in place are read
/// over their whole length.
pub open spec fn qwen35_sizes<F: Copy>(
    p: &Qwen35MoeParams<F>,
    layer: LayerCache,
    pass: QwenPass<F>,
) -> Sizes {
    Sizes {
        width: p.n_embd as u64,
        inner: 0,
        head_k: p.head_dim_k as u64,
        head_v: p.head_dim_v as u64,
        n_head: p.n_head as u64,
        n_head_kv: p.n_head_kv as u64,
        l: pass.l as u64,
        keys: if pass.direct {
            layer.k.dims.d2
        } else {
            pass.total_len as u64
        },
    }
}

/// The attention half of a Qwen 3.5 layer reads its operands by its sizes.
pub proof fn law_qwen35_attention_reads_by_its_sizes<F: Copy>(
    m: Memory<F>,
    p: &Qwen35MoeParams<F>,
    b: AttentionBlockWeights,
    layer: LayerCache,
    h: Term<F>,
    positions: Term<F>,
    mask: Option<Term<F>>,
    pass: QwenPass<F>,
)
    requires
        held_so(m, by_sizes(qwen35_sizes(p, layer, pass))),
        every(h, by_sizes(qwen35_sizes(p, layer, pass))),
        every(positions, by_sizes(qwen35_sizes(p, layer, pass))),
        every_opt(mask, by_sizes(qwen35_sizes(p, layer, pass))),
    ensures
        every(
            qwen_attended(m, p, b, layer, h, positions, mask, pass),
            by_sizes(qwen35_sizes(p, layer, pass)),
        ),
{
    reveal(qwen_attended);
    reveal(qwen_k_cache);
    reveal(qwen_v_cache);
    lemma_every(m, by_sizes(qwen35_sizes(p, layer, pass)));
}

/// Operands of a Qwen 3.5 layer's feed-forward half are read as its sizes call for.
pub open spec fn feeds_by<F, G: Copy>(
    p: &Qwen35MoeParams<G>,
    l: u64,
    op: Op<F>,
    a: Option<Dims>,
    b: Option<Dims>,
    c: Option<Dims>,
) -> bool {
    let hidden = Some(matrix(p.n_embd as u64, l));
    let shared = Some(matrix(p.shared_expert_ff as u64, l));
    let used = p.n_expert_used as u64;
    match op {
        Op::RmsNorm { .. } => a == hidden,
        Op::MatMul => b == hidden || b == shared,
        Op::TopkWeights { .. } | Op::TopkIds { .. } => a == Some(matrix(p.n_expert as u64, l)),
        Op::MatVecId { .. } => b == hidden,
        Op::MoeDown { .. } => b == Some(headed(p.expert_ff as u64, used, l)),
        Op::MoeResidual { width } => {
            &&& width == p.n_embd
            &&& a == hidden
            &&& b == hidden
            &&& c == hidden
        },
        _ => true,
    }
}

/// The condition that operands are read by the sizes of a feed-forward half.
pub open spec fn by_feed<F: Copy>(p: &Qwen35MoeParams<F>, l: u64) -> spec_fn(
    Op<F>,
    Option<Dims>,
    Option<Dims>,
    Option<Dims>,
) -> bool {
    |op: Op<F>, a: Option<Dims>, b: Option<Dims>, c: Option<Dims>| feeds_by(p, l, op, a, b, c)
}

/// The feed-forward half of a Qwen 3.5 layer reads its operands by its sizes.
pub proof fn law_qwen35_experts_read_by_their_sizes<F: Copy>(
    m: Memory<F>,
    p: &Qwen35MoeParams<F>,
    w: MoeFfnWeights,
    norm: TensorView,
    h: Term<F>,
    l: u64,
)
    requires
        held_so(m, by_feed(p, l)),
        every(h, by_feed(p, l)),
    ensures
        every(moe_term(m, p, w, norm, h, l), by_feed(p, l)),
{
    reveal(moe_term);
    lemma_every(m, by_feed(p, l));
}

/// Operands of a recurrent half are read as its sizes call for: hidden states as
/// columns for each token; one rate and one decay for each value head; queries and
/// keys by key heads and values by value heads, token by token and sequence by
/// sequence; and the scan's outputs by value heads.
pub open spec fn recurs_by<F>(
    z: SsmShape,
    op: Op<F>,
    a: Option<Dims>,
    b: Option<Dims>,
    c: Option<Dims>,
) -> bool {
    let n = (z.l * z.b) as u64;
    let hidden = Some(matrix(z.width, n));
    let values = Some(matrix((z.num_v * z.s_v) as u64, n));
    let keys = Some(Dims { d0: z.s_v, d1: z.num_k, d2: z.l, d3: z.b });
    match op {
        Op::RmsNorm { .. } => a == hidden,
        Op::MatMul | Op::MatMulAdd => b == hidden || b == values,
        Op::Sigmoid | Op::SsmAlpha { .. } => a == Some(matrix(z.num_v, n)),
        Op::L2Norm { .. } => a == keys,
        Op::SsmConv { .. } => a == Some(
            Dims {
                d0: (z.kernel - 1 + z.l) as u64,
                d1: (2 * (z.num_k * z.s_v) + z.num_v * z.s_v) as u64,
                d2: z.b,
                d3: 1,
            },
        ),
        Op::GatedDeltaNet { .. } => {
            &&& a == keys
            &&& b == keys
            &&& c == Some(Dims { d0: z.s_v, d1: z.num_v, d2: z.l, d3: z.b })
        },
        Op::SsmNormGate { .. } => a == Some(Dims { d0: z.s_v, d1: z.num_v, d2: n, d3: 1 }) && c
            == values,
        Op::Add => b == hidden,
        _ => true,
    }
}

/// The condition that operands are read by the sizes of a recurrent half.
pub open spec fn by_shape<F>(z: SsmShape) -> spec_fn(
    Op<F>,
    Option<Dims>,
    Option<Dims>,
    Option<Dims>,
) -> bool {
    |op: Op<F>, a: Option<Dims>, b: Option<Dims>, c: Option<Dims>| recurs_by(z, op, a, b, c)
}

/// The recurrent half of a layer reads its operands by its sizes.
pub proof fn law_recurrent_half_reads_by_its_sizes<F: Copy>(
    m: Memory<F>,
    p: &Qwen35MoeParams<F>,
    w: SsmBlockWeights,
    z: SsmShape,
    st: SsmStates,
    x: Term<F>,
)
    requires
        p.switches.shown is None,
        held_so(m, by_shape(z)),
        every(x, by_shape(z)),
        extents(x) == Some(matrix(z.width, (z.l * z.b) as u64)),
    ensures
        every(ssm_term(m, p, w, z, st, x), by_shape(z)),
{
    reveal(ssm_term);
    lemma_every(m, by_shape::<F>(z));
}

} // verus!
