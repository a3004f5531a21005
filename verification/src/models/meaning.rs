//! What the terms of a recording stand for in numbers.
use vstd::prelude::*;

use crate::models::recorder::{
    fresh, op1, op2, op3, op4, op6, put, shape, through, FlashAttnParams, GdnParams, Op,
    RopeMultiParams, RopeParams, Shape, Term,
};
use crate::models::tensor::{covers, Buffer, Dims, GgmlType, TensorView};

verus! {

/// An interpretation of the device's arithmetic over arrays `V`. Laws that hold
/// of every interpretation hold of the device's own.
#[verifier::reject_recursive_types(F)]
#[verifier::reject_recursive_types(V)]
pub struct Meaning<F, V> {
    /// What a buffer holds at the start.
    pub held: spec_fn(Buffer) -> V,
    pub unset: V,
    pub zeros: V,
    pub words: spec_fn(Seq<u32>) -> V,
    pub floats: spec_fn(Seq<F>) -> V,
    /// Lengths, slabs and query counts of several sequences.
    pub lengths: spec_fn(Seq<u32>, Seq<u32>, Option<Seq<u32>>) -> V,
    /// A strided read.
    pub seen: spec_fn(V, Shape) -> V,
    /// The first array with what lies under a view replaced by the second.
    pub over: spec_fn(V, Shape, V) -> V,
    /// Sum, product element by element, and product of matrices.
    pub sum: spec_fn(V, V) -> V,
    pub times: spec_fn(V, V) -> V,
    pub product: spec_fn(V, V) -> V,
    pub scale: spec_fn(F, V) -> V,
    pub silu: spec_fn(V) -> V,
    pub gelu: spec_fn(V) -> V,
    pub tanh: spec_fn(V) -> V,
    pub sigmoid: spec_fn(V) -> V,
    /// By heads.
    pub softplus: spec_fn(u32, V) -> V,
    /// As heads of a width, so many of them, for each of so many tokens.
    pub headwise: spec_fn(u32, u32, u32, V) -> V,
    /// Divided by the root of the mean square, and by the length.
    pub normed: spec_fn(F, V) -> V,
    pub unit: spec_fn(F, V) -> V,
    /// Rotated by positions, in pairs or in halves, with factors if there are any.
    pub rotated: spec_fn(RopeParams<F>, bool, V, V, Option<V>) -> V,
    /// Rotated by positions on several axes.
    pub turned: spec_fn(RopeMultiParams<F>, V, V) -> V,
    /// The Walsh-Hadamard transform or its inverse.
    pub mixed: spec_fn(bool, V) -> V,
    /// Put from a position on, and the first so many tokens.
    pub placed: spec_fn(u32, V) -> V,
    pub first: spec_fn(u32, V) -> V,
    /// Attention of queries over keys and values: causal up to a mask, by the mask
    /// alone, and of several sequences.
    pub attend: spec_fn(FlashAttnParams<F>, u32, V, V, V, Option<V>) -> V,
    pub attend_masked: spec_fn(FlashAttnParams<F>, u32, V, V, V, V) -> V,
    pub attend_many: spec_fn(FlashAttnParams<F>, V, V, V, V) -> V,
    /// So many rows of a table by ids.
    pub rows: spec_fn(u32, V, V) -> V,
    /// The first or the second half of each column.
    pub half: spec_fn(bool, V) -> V,
    /// Products with so many experts of a type that ids name, and their sum by
    /// weights.
    pub each: spec_fn(GgmlType, u32, V, V, V) -> V,
    pub mix: spec_fn(GgmlType, u32, V, V, V, V) -> V,
    /// The experts of logits, and their weights.
    pub picked: spec_fn(u32, u32, bool, V) -> V,
    pub shares: spec_fn(u32, u32, bool, V) -> V,
    /// Shares times the factors of the experts that ids name: so many of so many, for
    /// each of so many tokens.
    pub rated: spec_fn(u32, u32, u32, V, V, V) -> V,
    /// Causal convolution of so many channels of tokens, those before the first among
    /// them, by kernels of so many taps.
    pub convolved: spec_fn(ConvSizes, V, V) -> V,
    /// Gated delta rule over queries, keys and values, with decay, rate and state.
    pub scan: spec_fn(GdnParams<F>, V, V, V, V, V, V) -> V,
    /// The place of the largest.
    pub greatest: spec_fn(V) -> V,
}

/// Sizes of a convolution.
pub struct ConvSizes {
    pub channels: int,
    pub before_and_new: int,
    pub new: int,
    pub sequences: int,
    pub taps: int,
}

/// What an operation makes of its operands.
pub open spec fn applied<F, V>(
    k: Meaning<F, V>,
    op: Op<F>,
    a: V,
    b: Option<V>,
    c: Option<V>,
    d: Option<V>,
    e: Option<V>,
    f: Option<V>,
) -> V {
    match op {
        Op::GetRows { rows } => (k.rows)(rows, a, b->0),
        Op::RmsNorm { eps } => (k.times)((k.normed)(eps, a), b->0),
        Op::RmsNormPlain { eps } => (k.normed)(eps, a),
        Op::MatMul => (k.product)(a, b->0),
        Op::MatMulAdd => (k.sum)(c->0, (k.product)(a, b->0)),
        Op::MatMulSplitK { .. } => (k.product)(a, b->0),
        Op::Rope { params } => (k.rotated)(params, false, a, b->0, None),
        Op::RopeNeox { params } => (k.rotated)(params, true, a, b->0, c),
        Op::NormRopeMulti { params, eps } => (k.turned)(
            params,
            (k.times)((k.normed)(eps, a), c->0),
            b->0,
        ),
        Op::NormRopeMultiToCache { params, eps, position, .. } => (k.placed)(
            position,
            (k.turned)(params, (k.times)((k.normed)(eps, a), c->0), b->0),
        ),
        Op::CacheWrite { position } => (k.placed)(position, a),
        Op::CacheWriteHalf { position } => (k.placed)(position, a),
        Op::CacheRead { len } => (k.first)(len, a),
        Op::Wht { forward } => (k.mixed)(forward, a),
        Op::FlashAttn { params, kv_len } => (k.attend)(params, kv_len, a, b->0, c->0, d),
        Op::FlashAttnMasked { params, kv_len } => (k.attend_masked)(
            params,
            kv_len,
            a,
            b->0,
            c->0,
            d->0,
        ),
        Op::FlashAttnBatched { params } => (k.attend_many)(params, a, b->0, c->0, d->0),
        Op::Add => (k.sum)(a, b->0),
        Op::Mul => (k.times)(a, b->0),
        Op::Silu => (k.silu)(a),
        Op::Gelu => (k.gelu)(a),
        Op::Tanh => (k.tanh)(a),
        Op::Sigmoid => (k.sigmoid)(a),
        Op::Scale { by } => (k.scale)(by, a),
        Op::SigmoidMul => (k.times)((k.sigmoid)(a), b->0),
        Op::SwiGlu => (k.times)((k.silu)(a), b->0),
        Op::GeGlu => (k.times)((k.gelu)((k.half)(false, a)), (k.half)(true, a)),
        Op::L2Norm { eps } => (k.unit)(eps, a),
        Op::Cast => a,
        Op::Copy => a,
        Op::TopkWeights { n_experts, n_used, with_norm } => (k.shares)(
            n_experts,
            n_used,
            with_norm,
            a,
        ),
        Op::TopkIds { n_experts, n_used, with_norm } => (k.picked)(
            n_experts,
            n_used,
            with_norm,
            a,
        ),
        Op::ExpertWeightScale { n_used, n_experts, n } => (k.rated)(
            n_used,
            n_experts,
            n,
            a,
            b->0,
            c->0,
        ),
        Op::MatVecId { dtype, n_used, .. } => (k.each)(dtype, n_used, a, b->0, c->0),
        Op::MoeDown { dtype, n_used, .. } => (k.mix)(dtype, n_used, a, b->0, c->0, d->0),
        Op::MoeResidual { .. } => (k.sum)(
            (k.sum)(a, b->0),
            (k.times)(c->0, (k.sigmoid)(d->0)),
        ),
        Op::SsmAlpha { heads } => (k.times)((k.softplus)(heads, (k.sum)(a, b->0)), c->0),
        Op::SsmConv { channels, n_padded, n_tokens, n_seqs, kernel, fuse_silu } => {
            let sizes = ConvSizes {
                channels: channels as int,
                before_and_new: n_padded as int,
                new: n_tokens as int,
                sequences: n_seqs as int,
                taps: kernel as int,
            };
            if fuse_silu {
                (k.silu)((k.convolved)(sizes, a, b->0))
            } else {
                (k.convolved)(sizes, a, b->0)
            }
        },
        Op::GatedDeltaNet { params } => (k.scan)(params, a, b->0, c->0, d->0, e->0, f->0),
        Op::SsmNormGate { s_v, num_v, n, eps } => (k.times)(
            (k.times)((k.normed)(eps, (k.headwise)(s_v, num_v, n, a)), b->0),
            (k.silu)(c->0),
        ),
        Op::Greedy => (k.greatest)(a),
    }
}

/// What a term stands for.
pub open spec fn value<F, V>(k: Meaning<F, V>, t: Term<F>) -> V
    decreases t,
{
    match t {
        Term::Initial(b) => (k.held)(b),
        Term::Unset => k.unset,
        Term::Words(data) => (k.words)(data),
        Term::Floats(data) => (k.floats)(data),
        Term::Zeros => k.zeros,
        Term::Lengths { kv, slots, queries } => (k.lengths)(kv, slots, queries),
        Term::View(of, s) => (k.seen)(value(k, *of), s),
        Term::Patch { into, at, with } => (k.over)(value(k, *into), at, value(k, *with)),
        Term::Apply(op, i) => applied(
            k,
            op,
            value(k, *i.a),
            match i.b {
                Some(x) => Some(value(k, *x)),
                None => None,
            },
            match i.c {
                Some(x) => Some(value(k, *x)),
                None => None,
            },
            match i.d {
                Some(x) => Some(value(k, *x)),
                None => None,
            },
            match i.e {
                Some(x) => Some(value(k, *x)),
                None => None,
            },
            match i.f {
                Some(x) => Some(value(k, *x)),
                None => None,
            },
        ),
    }
}

/// A read from the first byte on gives what was written, in whatever order.
pub open spec fn flat<F, V>(k: Meaning<F, V>) -> bool {
    forall|v: V, s: Shape| s.byte_offset == 0 ==> #[trigger] (k.seen)(v, s) == v
}

/// Factors pass through products, matrix by matrix and element by element.
pub open spec fn linear<F, V>(k: Meaning<F, V>) -> bool {
    &&& forall|c: F, a: V, b: V| #[trigger]
        (k.product)((k.scale)(c, a), b) == (k.scale)(c, (k.product)(a, b))
    &&& forall|c: F, a: V, b: V| #[trigger]
        (k.product)(a, (k.scale)(c, b)) == (k.scale)(c, (k.product)(a, b))
    &&& forall|c: F, a: V, b: V| #[trigger]
        (k.times)(a, (k.scale)(c, b)) == (k.scale)(c, (k.times)(a, b))
}

/// What a write through `dst` leaves of `held`: nothing where it covers all.
pub open spec fn replaced<F, V>(k: Meaning<F, V>, held: V, dst: TensorView, v: V) -> V {
    if covers(dst) {
        v
    } else {
        (k.over)(held, shape(dst), v)
    }
}

/// What the terms of operations and of reads stand for.
pub proof fn lemma_values<F, V>(k: Meaning<F, V>)
    requires
        flat(k),
    ensures
        forall|t: Term<F>, d: Dims| #[trigger] value(k, fresh(t, d)) == value(k, t),
        forall|t: Term<F>, v: TensorView| #[trigger]
            value(k, through(t, v)) == (k.seen)(value(k, t), shape(v)),
        forall|into: Term<F>, at: Shape, with: Term<F>| #[trigger]
            value(k, Term::Patch { into: Box::new(into), at, with: Box::new(with) }) == (k.over)(
                value(k, into),
                at,
                value(k, with),
            ),
        forall|held: Term<F>, dst: TensorView, v: Term<F>| #[trigger]
            value(k, put(held, dst, v)) == replaced(k, value(k, held), dst, value(k, v)),
        forall|op: Op<F>, a: Term<F>| #[trigger]
            value(k, op1(op, a)) == applied(k, op, value(k, a), None, None, None, None, None),
        forall|op: Op<F>, a: Term<F>, b: Term<F>| #[trigger]
            value(k, op2(op, a, b)) == applied(
                k,
                op,
                value(k, a),
                Some(value(k, b)),
                None,
                None,
                None,
                None,
            ),
        forall|op: Op<F>, a: Term<F>, b: Term<F>, c: Term<F>| #[trigger]
            value(k, op3(op, a, b, c)) == applied(
                k,
                op,
                value(k, a),
                Some(value(k, b)),
                Some(value(k, c)),
                None,
                None,
                None,
            ),
        forall|op: Op<F>, a: Term<F>, b: Term<F>, c: Term<F>, d: Term<F>| #[trigger]
            value(k, op4(op, a, b, c, d)) == applied(
                k,
                op,
                value(k, a),
                Some(value(k, b)),
                Some(value(k, c)),
                Some(value(k, d)),
                None,
                None,
            ),
        forall|op: Op<F>, a: Term<F>, b: Term<F>, c: Term<F>, d: Term<F>, e: Term<F>, f: Term<F>|
         #[trigger]
            value(k, op6(op, a, b, c, d, e, f)) == applied(
                k,
                op,
                value(k, a),
                Some(value(k, b)),
                Some(value(k, c)),
                Some(value(k, d)),
                Some(value(k, e)),
                Some(value(k, f)),
            ),
{
}

/// What an optional term stands for.
pub open spec fn value_opt<F, V>(k: Meaning<F, V>, t: Option<Term<F>>) -> Option<V> {
    match t {
        Some(x) => Some(value(k, x)),
        None => None,
    }
}

/// Divided by the root of the mean square, times a weight.
pub open spec fn weighed<F, V>(k: Meaning<F, V>, eps: F, x: V, weight: V) -> V {
    (k.times)((k.normed)(eps, x), weight)
}

/// A gated feed-forward stretch over `n`: what `up` makes of it, each number
/// times the activation of what `gate` makes of it, and `down` of that.
pub open spec fn gated_output<F, V>(
    k: Meaning<F, V>,
    act: spec_fn(V) -> V,
    n: V,
    gate: V,
    up: V,
    down: V,
) -> V {
    (k.product)(down, (k.times)(act((k.product)(gate, n)), (k.product)(up, n)))
}

} // verus!
