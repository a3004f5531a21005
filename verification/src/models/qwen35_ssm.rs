//! The recurrent half of a Qwen 3.5 layer: a short convolution and a gated
//! delta-net scan, each with a state that passes carry on.
use vstd::prelude::*;

use crate::models::blocks::{ready, same_weights, undisturbed, weights_live};
use crate::models::qwen35_weights::{
    Qwen35MoeParams, Shown, SsmBlockWeights,
};
use crate::models::recorder::{
    content, fresh, later, op1, op2, op3, op6, put, quiet, read, readable, reserved, spends,
    through, DispatchContext, Fence, GdnParams, GdnStrides, Memory, Op, RecordError, Term,
};
use crate::models::tensor::{
    covers, dense, dims4, fits, flat, flat_view, matrix, size, strided, strided_view, Buffer,
    BufferRange, Dims, TensorView,
};

verus! {

/// Sizes of a recurrent pass: `b` sequences of `l` tokens each.
#[derive(Clone, Copy)]
pub struct SsmShape {
    pub width: u64,
    pub l: u64,
    pub b: u64,
    pub num_k: u64,
    pub num_v: u64,
    pub s_v: u64,
    pub kernel: u64,
}

impl SsmShape {
    /// Width of the queries, and of the keys.
    pub open spec fn key_dim(&self) -> int {
        self.num_k * self.s_v
    }

    /// Width of the values.
    pub open spec fn value_dim(&self) -> int {
        self.num_v * self.s_v
    }

    /// Channels that are convolved.
    pub open spec fn channels(&self) -> int {
        2 * self.key_dim() + self.value_dim()
    }

    /// Tokens of all sequences.
    pub open spec fn n(&self) -> int {
        self.l * self.b
    }

    /// Tokens of a sequence that the convolution reads.
    pub open spec fn padded(&self) -> int {
        self.kernel - 1 + self.l
    }

    /// Elements of one sequence's recurrent state.
    pub open spec fn state(&self) -> int {
        self.num_v * self.s_v * self.s_v
    }

    /// Elements of the scan's output.
    pub open spec fn outputs(&self) -> int {
        self.n() * self.value_dim()
    }

    /// One sequence, or one token each; sizes are 32-bit numbers.
    pub open spec fn wf(&self) -> bool {
        &&& 1 <= self.l <= u32::MAX
        &&& 1 <= self.b <= u32::MAX
        &&& self.l == 1 || self.b == 1
        &&& self.num_k >= 1
        &&& self.num_v >= 1
        &&& self.s_v >= 1
        &&& 1 <= self.kernel <= u32::MAX
        &&& self.channels() <= u32::MAX
        &&& (self.kernel - 1) * self.channels() <= u32::MAX
        &&& self.state() <= u32::MAX
    }

    /// Extents of the convolution's input.
    pub open spec fn conv_dims(&self) -> Dims {
        dims4(self.padded(), self.channels(), self.b as int, 1)
    }

    /// Bytes of the convolution's input.
    pub open spec fn conv_bytes(&self) -> int {
        4 * self.padded() * self.channels() * self.b
    }

    /// Extents of the convolution's output.
    pub open spec fn out_dims(&self) -> Dims {
        dims4(self.channels(), self.l as int, self.b as int, 1)
    }

    /// The tokens before the first, in the convolution's input.
    pub open spec fn prefix(&self, buffer: Buffer) -> TensorView {
        strided_view(
            buffer,
            0,
            self.conv_bytes(),
            dims4(self.kernel - 1, self.channels(), self.b as int, 1),
            self.conv_strides(),
        )
    }

    /// Element strides of the convolution's input.
    pub open spec fn conv_strides(&self) -> Dims {
        dims4(
            1,
            self.padded(),
            self.padded() * self.channels(),
            self.padded() * self.channels(),
        )
    }

    /// The new tokens, in the convolution's input.
    pub open spec fn tail(&self, buffer: Buffer) -> TensorView {
        strided_view(
            buffer,
            4 * (self.kernel - 1),
            self.conv_bytes() - 4 * (self.kernel - 1),
            dims4(self.l as int, self.channels(), self.b as int, 1),
            self.conv_strides(),
        )
    }

    /// The last tokens, in the convolution's input.
    pub open spec fn last(&self, buffer: Buffer) -> TensorView {
        strided_view(
            buffer,
            4 * self.l,
            self.conv_bytes() - 4 * self.l,
            dims4(self.kernel - 1, self.channels(), self.b as int, 1),
            self.conv_strides(),
        )
    }

    /// The projection, token by token.
    pub open spec fn by_token(&self, buffer: Buffer) -> TensorView {
        strided_view(
            buffer,
            0,
            4 * self.channels() * self.n(),
            dims4(self.l as int, self.channels(), self.b as int, 1),
            dims4(
                self.channels(),
                1,
                self.channels() * self.l,
                self.channels() * self.l,
            ),
        )
    }

    /// A convolution state.
    pub open spec fn conv_state(&self, r: BufferRange) -> TensorView {
        strided_view(
            r.buffer,
            r.offset as int,
            r.size as int,
            dims4(self.kernel - 1, self.channels(), self.b as int, 1),
            dims4(
                1,
                self.kernel - 1,
                (self.kernel - 1) * self.channels(),
                (self.kernel - 1) * self.channels(),
            ),
        )
    }

    /// Heads from a channel of the convolution's output on.
    pub open spec fn heads(&self, buffer: Buffer, channel: int, heads: u64) -> TensorView {
        strided_view(
            buffer,
            4 * channel,
            4 * self.channels() * self.l * self.b - 4 * channel,
            Dims { d0: self.s_v, d1: heads, d2: self.l, d3: self.b },
            dims4(1, self.s_v as int, self.channels(), self.channels() * self.l),
        )
    }

    /// The scan's outputs, before the states.
    pub open spec fn scanned(&self, buffer: Buffer) -> TensorView {
        strided_view(
            buffer,
            0,
            4 * self.outputs(),
            dims4(self.s_v as int, self.num_v as int, self.n(), 1),
            dims4(1, self.s_v as int, self.value_dim(), self.outputs()),
        )
    }

    /// The first `width` of every token's outputs.
    pub open spec fn trimmed(&self, buffer: Buffer) -> TensorView {
        strided_view(
            buffer,
            0,
            4 * (self.width * self.n()),
            dims4(self.width as int, self.n(), 1, 1),
            dims4(
                1,
                self.value_dim(),
                self.value_dim() * self.n(),
                self.value_dim() * self.n(),
            ),
        )
    }

    /// Extents of normalized queries and keys.
    pub open spec fn head_dims(&self) -> Dims {
        Dims { d0: self.s_v, d1: self.num_k, d2: self.l, d3: self.b }
    }
}

/// A scratch buffer of this many bytes.
pub open spec fn of_bytes(bytes: int) -> Buffer {
    Buffer::Scratch { id: 0, bytes: bytes as u64 }
}

/// The sizes of a pass.
pub open spec fn ssm_shape<F>(p: &Qwen35MoeParams<F>, l: u64, b: u64) -> SsmShape {
    SsmShape {
        width: p.n_embd as u64,
        l,
        b,
        num_k: p.ssm_groups as u64,
        num_v: p.ssm_dt_rank as u64,
        s_v: p.ssm_state as u64,
        kernel: p.ssm_conv as u64,
    }
}

/// The sizes of a pass.
pub fn make_shape<F: Copy>(p: &Qwen35MoeParams<F>, l: u64, b: u64) -> (r: SsmShape)
    requires
        p.wf(),
        1 <= l <= u32::MAX,
        1 <= b <= u32::MAX,
        l == 1 || b == 1,
    ensures
        r == ssm_shape(p, l, b),
        r.wf(),
        r.state() == p.state_size(),
        r.channels() == p.conv_width(),
{
    proof {
        assert(p.ssm_dt_rank * p.ssm_state * p.ssm_state == p.ssm_state * p.ssm_state
            * p.ssm_dt_rank) by (nonlinear_arith);
    }
    SsmShape {
        width: p.n_embd as u64,
        l,
        b,
        num_k: p.ssm_groups as u64,
        num_v: p.ssm_dt_rank as u64,
        s_v: p.ssm_state as u64,
        kernel: p.ssm_conv as u64,
    }
}

/// Products of the sizes are within reach.
proof fn lemma_shape(c: SsmShape)
    requires
        c.wf(),
    ensures
        1 <= c.key_dim() <= u32::MAX,
        1 <= c.value_dim() <= u32::MAX,
        3 <= c.channels() <= u32::MAX,
        1 <= c.n() <= u32::MAX,
        c.padded() >= c.l,
        0 <= (c.kernel - 1) * c.channels(),
        c.num_k <= c.key_dim(),
        c.num_v <= c.value_dim(),
        c.s_v <= c.key_dim(),
        c.s_v <= c.value_dim(),
        1 <= c.state(),
        c.outputs() == c.n() * c.value_dim(),
        0 <= c.outputs() <= u32::MAX * u32::MAX,
{
    assert(c.num_k * c.s_v >= 1 && c.num_v * c.s_v >= 1 && c.num_k * c.s_v >= c.num_k && c.num_v
        * c.s_v >= c.num_v && c.num_k * c.s_v >= c.s_v && c.num_v * c.s_v >= c.s_v)
        by (nonlinear_arith)
        requires
            c.num_k >= 1,
            c.num_v >= 1,
            c.s_v >= 1,
    ;
    assert(c.l * c.b == c.l || c.l * c.b == c.b) by (nonlinear_arith)
        requires
            c.l == 1 || c.b == 1,
    ;
    let ch = c.channels();
    assert((c.kernel - 1) * ch >= 0) by (nonlinear_arith)
        requires
            c.kernel >= 1,
            ch >= 0,
    ;
    let v = c.value_dim();
    assert(v * c.s_v >= 1) by (nonlinear_arith)
        requires
            v >= 1,
            c.s_v >= 1,
    ;
    assert(c.num_v * c.s_v * c.s_v == v * c.s_v);
    let n = c.n();
    assert(0 <= n * v <= u32::MAX * u32::MAX) by (nonlinear_arith)
        requires
            0 <= n <= u32::MAX,
            0 <= v <= u32::MAX,
    ;
}

/// The normalized input.
pub open spec fn ssm_input<F: Copy>(
    m: Memory<F>,
    p: &Qwen35MoeParams<F>,
    w: SsmBlockWeights,
    c: SsmShape,
    x: Term<F>,
) -> Term<F> {
    fresh(
        op2(Op::RmsNorm { eps: p.rms_eps }, x, read(m, w.attn_norm)),
        matrix(c.width, c.n() as u64),
    )
}

/// A projection of the normalized input.
pub open spec fn ssm_projected<F: Copy>(
    m: Memory<F>,
    p: &Qwen35MoeParams<F>,
    w: SsmBlockWeights,
    c: SsmShape,
    x: Term<F>,
    by: TensorView,
) -> Term<F> {
    op2(Op::MatMul, read(m, by), ssm_input(m, p, w, c, x))
}

/// The rate of the scan.
pub open spec fn ssm_beta<F: Copy>(
    m: Memory<F>,
    p: &Qwen35MoeParams<F>,
    w: SsmBlockWeights,
    c: SsmShape,
    x: Term<F>,
) -> Term<F> {
    op1(
        Op::Sigmoid,
        fresh(ssm_projected(m, p, w, c, x, w.ssm_beta), matrix(c.num_v, c.n() as u64)),
    )
}

/// The decay of the scan.
pub open spec fn ssm_alpha<F: Copy>(
    m: Memory<F>,
    p: &Qwen35MoeParams<F>,
    w: SsmBlockWeights,
    c: SsmShape,
    x: Term<F>,
) -> Term<F> {
    op3(
        Op::SsmAlpha { heads: c.num_v as u32 },
        fresh(ssm_projected(m, p, w, c, x, w.ssm_alpha), matrix(c.num_v, c.n() as u64)),
        read(m, w.ssm_dt_bias),
        read(m, w.ssm_a),
    )
}

/// The convolution's input: the state's tokens, or zeros, before the new ones.
pub open spec fn conv_input_term<F: Copy>(
    c: SsmShape,
    state: Option<(Term<F>, BufferRange)>,
    qkv: Term<F>,
) -> Term<F> {
    let own = of_bytes(c.conv_bytes());
    let before = match state {
        Some((held, r)) => put(
            Term::Zeros,
            c.prefix(own),
            op1(Op::Cast, through(held, c.conv_state(r))),
        ),
        None => Term::Zeros,
    };
    put(before, c.tail(own), op1(Op::Cast, through(qkv, c.by_token(own))))
}

/// The convolution's output, or its new tokens as they are where it is left out.
pub open spec fn conv_term<F: Copy>(
    m: Memory<F>,
    w: SsmBlockWeights,
    c: SsmShape,
    input: Term<F>,
    qkv: Term<F>,
    left_out: bool,
) -> Term<F> {
    if left_out {
        op1(Op::Cast, fresh(qkv, matrix(c.channels() as u64, c.n() as u64)))
    } else {
        op2(
            Op::SsmConv {
                channels: c.channels() as u32,
                n_padded: c.padded() as u32,
                n_tokens: c.l as u32,
                n_seqs: c.b as u32,
                kernel: c.kernel as u32,
                fuse_silu: true,
            },
            fresh(input, c.conv_dims()),
            read(m, w.ssm_conv1d),
        )
    }
}

/// Parameters of the scan.
pub open spec fn scan_params<F: Copy>(c: SsmShape, snapshots: u64, scale: F) -> GdnParams<F> {
    GdnParams {
        num_v: c.num_v as u32,
        num_k: c.num_k as u32,
        n_tokens: c.l as u32,
        n_seqs: c.b as u32,
        s_off: c.outputs() as u32,
        scale,
        q_strides: GdnStrides {
            s1: c.s_v as u32,
            s2: c.key_dim() as u32,
            s3: (c.key_dim() * c.l) as u32,
        },
        v_strides: GdnStrides {
            s1: c.s_v as u32,
            s2: c.channels() as u32,
            s3: (c.channels() * c.l) as u32,
        },
        b_strides: GdnStrides { s1: 1, s2: c.num_v as u32, s3: (c.num_v * c.l) as u32 },
        s_v: c.s_v as u32,
        snapshots: snapshots as u32,
    }
}

/// The scan: its outputs, and the states after it.
pub open spec fn scan_term<F: Copy>(
    p: &Qwen35MoeParams<F>,
    c: SsmShape,
    snapshots: u64,
    scale: F,
    conv: Term<F>,
    alpha: Term<F>,
    beta: Term<F>,
    state: Term<F>,
) -> Term<F> {
    let own = of_bytes(0);
    let n = c.n() as u64;
    op6(
        Op::GatedDeltaNet { params: scan_params(c, snapshots, scale) },
        fresh(
            op1(Op::L2Norm { eps: p.l2_eps }, through(conv, c.heads(own, 0, c.num_k))),
            c.head_dims(),
        ),
        fresh(
            op1(Op::L2Norm { eps: p.l2_eps }, through(conv, c.heads(own, c.key_dim(), c.num_k))),
            c.head_dims(),
        ),
        through(conv, c.heads(own, 2 * c.key_dim(), c.num_v)),
        fresh(alpha, matrix(c.num_v, n)),
        fresh(beta, matrix(c.num_v, n)),
        state,
    )
}

/// The scan's outputs behind their gate.
pub open spec fn ssm_gated<F: Copy>(
    m: Memory<F>,
    p: &Qwen35MoeParams<F>,
    w: SsmBlockWeights,
    c: SsmShape,
    x: Term<F>,
    scan: Term<F>,
) -> Term<F> {
    op3(
        Op::SsmNormGate {
            s_v: c.s_v as u32,
            num_v: c.num_v as u32,
            n: c.n() as u32,
            eps: p.rms_eps,
        },
        through(scan, c.scanned(of_bytes(0))),
        read(m, w.ssm_norm),
        fresh(
            ssm_projected(m, p, w, c, x, w.attn_gate),
            matrix(c.value_dim() as u64, c.n() as u64),
        ),
    )
}

/// The projection of the gated scan.
pub open spec fn ssm_proj<F: Copy>(
    m: Memory<F>,
    p: &Qwen35MoeParams<F>,
    w: SsmBlockWeights,
    c: SsmShape,
    x: Term<F>,
    scan: Term<F>,
) -> Term<F> {
    let n = c.n() as u64;
    let gated = fresh(ssm_gated(m, p, w, c, x, scan), matrix(c.value_dim() as u64, n));
    fresh(op2(Op::MatMul, read(m, w.ssm_out), gated), matrix(c.width, n))
}

/// `x` plus the projection of the gated scan.
pub open spec fn ssm_out_term<F: Copy>(
    m: Memory<F>,
    p: &Qwen35MoeParams<F>,
    w: SsmBlockWeights,
    c: SsmShape,
    x: Term<F>,
    scan: Term<F>,
    accumulate: bool,
) -> Term<F> {
    if accumulate {
        op3(
            Op::MatMulAdd,
            read(m, w.ssm_out),
            fresh(
                ssm_gated(m, p, w, c, x, scan),
                matrix(c.value_dim() as u64, c.n() as u64),
            ),
            x,
        )
    } else {
        op2(Op::Add, x, ssm_proj(m, p, w, c, x, scan))
    }
}

/// What stands in place of the sum where a value inside the half is shown.
pub open spec fn shown_term<F: Copy>(
    m: Memory<F>,
    p: &Qwen35MoeParams<F>,
    w: SsmBlockWeights,
    c: SsmShape,
    x: Term<F>,
    shown: Shown,
    alpha: Term<F>,
    beta: Term<F>,
    qkv: Term<F>,
    conv: Term<F>,
    scan: Term<F>,
) -> Term<F> {
    let n = c.n() as u64;
    match shown {
        Shown::Alpha => op1(Op::Cast, fresh(alpha, matrix(c.num_v, n))),
        Shown::Beta => op1(Op::Cast, fresh(beta, matrix(c.num_v, n))),
        Shown::Qkv => op1(Op::Cast, fresh(qkv, matrix(c.channels() as u64, n))),
        Shown::Conv => op1(Op::Cast, fresh(conv, c.out_dims())),
        Shown::Scan => op1(Op::Cast, through(scan, c.trimmed(of_bytes(0)))),
        Shown::Gated => op1(
            Op::Cast,
            through(ssm_gated(m, p, w, c, x, scan), c.trimmed(of_bytes(0))),
        ),
        Shown::Proj => op1(Op::Cast, ssm_proj(m, p, w, c, x, scan)),
        Shown::Other => ssm_out_term(m, p, w, c, x, scan, false),
    }
}

/// The projections of a recurrent layer.
#[derive(Clone, Copy)]
pub struct SsmInputs {
    pub qkv: TensorView,
    pub z: TensorView,
    pub beta: TensorView,
    pub alpha: TensorView,
}

/// A scratch matrix that holds `value`.
pub open spec fn holds<F: Copy>(
    ctx: &DispatchContext<F>,
    t: TensorView,
    d: Dims,
    value: Term<F>,
    from: int,
) -> bool {
    &&& t == dense(t.buffer, d)
    &&& t.buffer is Scratch
    &&& later(t.buffer, from)
    &&& ctx.known(t.buffer)
    &&& reserved(ctx.memory(), t.buffer)
    &&& content(ctx.memory(), t.buffer) == value
}

/// Scratch that the projections take.
pub open spec fn ssm_inputs_bytes(c: SsmShape) -> nat {
    let n = c.n() as u64;
    size(matrix(c.width, n)) + size(matrix(c.channels() as u64, n)) + size(
        matrix(c.value_dim() as u64, n),
    ) + 4 * size(matrix(c.num_v, n))
}

/// Each of the projections fits scratch.
pub open spec fn ssm_inputs_fit(c: SsmShape, room: u64) -> bool {
    let n = c.n() as u64;
    &&& 4 * c.width * n <= room
    &&& 4 * (c.channels() as u64) * n <= room
    &&& 4 * (c.value_dim() as u64) * n <= room
    &&& 4 * c.num_v * n <= room
}

/// Record the projections of a recurrent layer. The rate and the decay are left
/// to a later barrier.
pub fn record_ssm_inputs<F: Copy>(
    ctx: &mut DispatchContext<F>,
    w: &SsmBlockWeights,
    residual: TensorView,
    p: &Qwen35MoeParams<F>,
    c: SsmShape,
) -> (r: Result<SsmInputs, RecordError>)
    requires
        c.wf(),
        quiet(old(ctx).memory()),
        weights_live(old(ctx).memory()),
        w.apart(),
        ready(old(ctx), residual),
    ensures
        final(ctx).region == old(ctx).region,
        final(ctx).replay == old(ctx).replay,
        final(ctx).at() >= old(ctx).at(),
        r matches Err(e) ==> e is ScratchExhausted,
        spends(old(ctx), final(ctx), r is Ok, ssm_inputs_bytes(c)),
        r is Ok ==> ssm_inputs_fit(c, old(ctx).region),
        r matches Ok(i) ==> {
            let m = old(ctx).memory();
            let x = read(m, residual);
            let n = c.n() as u64;
            let at = old(ctx).at();
            &&& holds(
                final(ctx),
                i.qkv,
                matrix(c.channels() as u64, n),
                ssm_projected(m, p, *w, c, x, w.attn_qkv),
                at,
            )
            &&& holds(
                final(ctx),
                i.z,
                matrix(c.value_dim() as u64, n),
                ssm_projected(m, p, *w, c, x, w.attn_gate),
                at,
            )
            &&& holds(final(ctx), i.beta, matrix(c.num_v, n), ssm_beta(m, p, *w, c, x), at)
            &&& holds(final(ctx), i.alpha, matrix(c.num_v, n), ssm_alpha(m, p, *w, c, x), at)
            &&& i.qkv.buffer != i.beta.buffer && i.qkv.buffer != i.alpha.buffer
            &&& i.z.buffer != i.beta.buffer && i.z.buffer != i.alpha.buffer
            &&& forall|y: Buffer| #[trigger]
                final(ctx).memory().pending.contains(y) ==> y == i.beta.buffer || y
                    == i.alpha.buffer
            &&& undisturbed(m, final(ctx).memory(), at, Set::empty())
        },
{
    proof {
        lemma_shape(c);
    }
    let n: u64 = c.l * c.b;
    let key_dim: u64 = c.num_k * c.s_v;
    let value_dim: u64 = c.num_v * c.s_v;
    let channels: u64 = 2 * key_dim + value_dim;
    let x_norm = ctx.alloc_matrix(c.width, n)?;
    ctx.apply2(Op::RmsNorm { eps: p.rms_eps }, residual, w.attn_norm, x_norm, Fence::Own);
    let qkv = ctx.alloc_matrix(channels, n)?;
    ctx.apply2(Op::MatMul, w.attn_qkv, x_norm, qkv, Fence::No);
    let z = ctx.alloc_matrix(value_dim, n)?;
    ctx.apply2(Op::MatMul, w.attn_gate, x_norm, z, Fence::No);
    let beta_pre = ctx.alloc_matrix(c.num_v, n)?;
    ctx.apply2(Op::MatMul, w.ssm_beta, x_norm, beta_pre, Fence::No);
    let alpha_pre = ctx.alloc_matrix(c.num_v, n)?;
    ctx.apply2(Op::MatMul, w.ssm_alpha, x_norm, alpha_pre, Fence::No);
    ctx.barrier4(qkv, z, beta_pre, alpha_pre);
    let beta = ctx.alloc_matrix(c.num_v, n)?;
    ctx.apply1(Op::Sigmoid, beta_pre, beta, Fence::No);
    let alpha = ctx.alloc_matrix(c.num_v, n)?;
    ctx.apply3(
        Op::SsmAlpha { heads: c.num_v as u32 },
        alpha_pre,
        w.ssm_dt_bias,
        w.ssm_a,
        alpha,
        Fence::No,
    );
    Ok(SsmInputs { qkv, z, beta, alpha })
}

/// Products that the convolution's views take.
proof fn lemma_conv_sizes(c: SsmShape, room: u64)
    requires
        c.wf(),
        fits(room, c.conv_dims()),
        4 * c.padded() <= u64::MAX,
    ensures
        c.conv_dims().d0 == c.padded(),
        c.conv_dims().d1 == c.channels(),
        4 * c.padded() <= room,
        4 * (c.padded() * c.channels()) <= room,
        0 <= c.conv_bytes() <= room,
        4 * c.padded() <= c.conv_bytes(),
        4 * (c.channels() * c.l) <= room,
        4 * ((c.kernel - 1) * c.channels()) <= room,
        0 <= (c.kernel - 1) * c.channels(),
{
    lemma_shape(c);
    let np = c.padded();
    let ch = c.channels();
    let k1 = c.kernel - 1;
    let b = c.b as int;
    assert(4 * (np * ch) == 4 * np * ch) by (nonlinear_arith);
    assert(0 <= np * ch && np * ch <= 4 * np * ch) by (nonlinear_arith)
        requires
            np >= 0,
            ch >= 0,
    ;
    assert(4 * np <= 4 * np * ch * b) by (nonlinear_arith)
        requires
            np >= 0,
            ch >= 1,
            b >= 1,
    ;
    assert(4 * np * ch * b * 1 == 4 * np * ch * b) by (nonlinear_arith);
    assert(4 * (ch * c.l) <= 4 * np * ch) by (nonlinear_arith)
        requires
            c.l <= np,
            ch >= 0,
    ;
    assert(4 * (k1 * ch) <= 4 * np * ch) by (nonlinear_arith)
        requires
            k1 <= np,
            ch >= 0,
    ;
}

/// The state that the convolution starts from.
pub open spec fn conv_start<F>(m: Memory<F>, conv: Option<BufferRange>) -> Option<
    (Term<F>, BufferRange),
> {
    match conv {
        Some(r) => Some((content(m, r.buffer), r)),
        None => None,
    }
}

/// Where the convolution keeps its state: in place of the old one, or, for a
/// rollback, all of its input beside it.
pub open spec fn conv_target(conv: Option<BufferRange>, backup: Option<BufferRange>) -> Option<
    Buffer,
> {
    match backup {
        Some(r) => Some(r.buffer),
        None => match conv {
            Some(r) => Some(r.buffer),
            None => None,
        },
    }
}

/// What that place holds after the convolution of `input`.
pub open spec fn conv_kept<F: Copy>(
    m: Memory<F>,
    c: SsmShape,
    conv: Option<BufferRange>,
    backup: Option<BufferRange>,
    input: Term<F>,
) -> Term<F> {
    match backup {
        Some(r) => put(
            content(m, r.buffer),
            flat_view(r.buffer, r.offset as int, c.padded() * c.channels() * c.b),
            op1(Op::Copy, fresh(input, c.conv_dims())),
        ),
        None => put(
            content(m, conv->0.buffer),
            c.conv_state(conv->0),
            op1(Op::Cast, through(input, c.last(of_bytes(c.conv_bytes())))),
        ),
    }
}

/// The buffers that keep state, as a set.
pub open spec fn kept_in(target: Option<Buffer>) -> Set<Buffer> {
    Set::new(|y: Buffer| target == Some(y))
}

/// Scratch that the convolution takes.
pub open spec fn convolution_bytes(c: SsmShape) -> nat {
    size(c.conv_dims()) + size(c.out_dims())
}

/// Each tensor of the convolution fits scratch.
pub open spec fn conv_fits(c: SsmShape, room: u64) -> bool {
    &&& 4 * c.padded() <= u64::MAX
    &&& fits(room, c.conv_dims())
    &&& fits(room, c.out_dims())
}

/// Record the convolution of a recurrent layer, and what it keeps. One barrier
/// covers its output together with the rate and the decay.
#[verifier::rlimit(30)]
pub fn record_convolution<F: Copy>(
    ctx: &mut DispatchContext<F>,
    w: &SsmBlockWeights,
    c: SsmShape,
    i: SsmInputs,
    conv: Option<BufferRange>,
    backup: Option<BufferRange>,
    left_out: bool,
) -> (r: Result<TensorView, RecordError>)
    requires
        c.wf(),
        weights_live(old(ctx).memory()),
        w.apart(),
        ssm_inputs_fit(c, old(ctx).region),
        forall|y: Buffer| #[trigger]
            old(ctx).memory().pending.contains(y) ==> y == i.beta.buffer || y == i.alpha.buffer,
        i.beta.buffer is Scratch && old(ctx).known(i.beta.buffer),
        i.alpha.buffer is Scratch && old(ctx).known(i.alpha.buffer),
        i.qkv.buffer != i.beta.buffer && i.qkv.buffer != i.alpha.buffer,
        i.qkv == dense(i.qkv.buffer, matrix(c.channels() as u64, c.n() as u64)),
        i.qkv.buffer is Scratch,
        ready(old(ctx), i.qkv),
        conv matches Some(r) ==> {
            &&& readable(old(ctx).memory(), (c.conv_state(r)))
            &&& old(ctx).known(r.buffer)
            &&& !(r.buffer is Weights)
            &&& r.buffer != i.qkv.buffer
            &&& r.buffer != i.beta.buffer
            &&& r.buffer != i.alpha.buffer
        },
        backup matches Some(r) ==> !(r.buffer is Scratch) && !(r.buffer is Weights),
    ensures
        final(ctx).region == old(ctx).region,
        final(ctx).replay == old(ctx).replay,
        final(ctx).at() >= old(ctx).at(),
        r matches Err(e) ==> e is ScratchExhausted,
        r is Ok <==> conv_fits(c, old(ctx).region) && old(ctx).used + convolution_bytes(c) <= old(
            ctx,
        ).region,
        r is Ok ==> final(ctx).used == old(ctx).used + convolution_bytes(c),
        r matches Ok(t) ==> {
            let m = old(ctx).memory();
            let qkv = content(m, i.qkv.buffer);
            let input = conv_input_term(c, conv_start(m, conv), qkv);
            let target = conv_target(conv, backup);
            &&& holds(
                final(ctx),
                t,
                c.out_dims(),
                conv_term(m, *w, c, input, qkv, left_out),
                old(ctx).at(),
            )
            &&& target matches Some(b) ==> content(final(ctx).memory(), b) == conv_kept(
                m,
                c,
                conv,
                backup,
                input,
            )
            &&& quiet(final(ctx).memory())
            &&& undisturbed(m, final(ctx).memory(), old(ctx).at(), kept_in(target))
            &&& target matches Some(b) ==> reserved(final(ctx).memory(), b)
        },
{
    proof {
        lemma_shape(c);
    }
    let ghost m0 = ctx.memory();
    let key_dim: u64 = c.num_k * c.s_v;
    let value_dim: u64 = c.num_v * c.s_v;
    let channels: u64 = 2 * key_dim + value_dim;
    let k1: u64 = c.kernel - 1;
    let padded: u64 = k1 + c.l;
    let input = ctx.alloc_tensor(Dims { d0: padded, d1: channels, d2: c.b, d3: 1 })?;
    proof {
        lemma_conv_sizes(c, ctx.region);
        assert(input.buffer matches Buffer::Scratch { id: _, bytes } && bytes == c.conv_bytes())
            by {
            assert(4 * c.padded() * c.channels() * c.b * 1 == c.conv_bytes()) by (nonlinear_arith)
                requires
                    c.conv_bytes() == 4 * c.padded() * c.channels() * c.b,
            ;
        }
        assert(input.dims == c.conv_dims());
    }
    ctx.write_zeros(input);
    let strides = Dims { d0: 1, d1: padded, d2: padded * channels, d3: padded * channels };
    let state_dims = Dims { d0: k1, d1: channels, d2: c.b, d3: 1 };
    match conv {
        Some(r) => {
            let state = strided(
                r.buffer,
                r.offset,
                r.size,
                state_dims,
                Dims { d0: 1, d1: k1, d2: k1 * channels, d3: k1 * channels },
            );
            let prefix = strided(input.buffer, 0, input.byte_size, state_dims, strides);
            ctx.apply1(Op::Cast, state, prefix, Fence::Own);
        },
        None => {},
    }
    let n: u64 = c.l * c.b;
    proof {
        assert(4 * (c.channels() as u64) * (c.n() as u64) * 1 * 1 == 4 * c.channels() * c.n())
            by (nonlinear_arith)
            requires
                c.channels() == c.channels() as u64,
                c.n() == c.n() as u64,
        ;
    }
    let by_token = strided(
        i.qkv.buffer,
        0,
        i.qkv.byte_size,
        Dims { d0: c.l, d1: channels, d2: c.b, d3: 1 },
        Dims { d0: channels, d1: 1, d2: channels * c.l, d3: channels * c.l },
    );
    let tail = strided(
        input.buffer,
        4 * k1,
        input.byte_size - 4 * k1,
        Dims { d0: c.l, d1: channels, d2: c.b, d3: 1 },
        strides,
    );
    ctx.apply1(Op::Cast, by_token, tail, Fence::Own);
    let ghost term = conv_input_term(c, conv_start(m0, conv), content(m0, i.qkv.buffer));
    proof {
        let own = of_bytes(c.conv_bytes());
        assert(covers(c.prefix(input.buffer)) == covers(c.prefix(own)));
        assert(covers(c.tail(input.buffer)) == covers(c.tail(own)));
        assert(content(ctx.memory(), input.buffer) == term);
    }
    match backup {
        Some(r) => {
            proof {
                assert(4 * (c.padded() * c.channels() * c.b) == c.conv_bytes()) by (nonlinear_arith)
                    requires
                        c.conv_bytes() == 4 * c.padded() * c.channels() * c.b,
                ;
                assert(0 <= c.padded() * c.channels() * c.b);
            }
            let dst = flat(r.buffer, r.offset, input.byte_size / 4);
            ctx.copy_part(input, dst);
            ctx.barrier1(dst);
        },
        None => match conv {
            Some(r) => {
                let last = strided(
                    input.buffer,
                    4 * c.l,
                    input.byte_size - 4 * c.l,
                    state_dims,
                    strides,
                );
                let state = strided(
                    r.buffer,
                    r.offset,
                    r.size,
                    state_dims,
                    Dims { d0: 1, d1: k1, d2: k1 * channels, d3: k1 * channels },
                );
                ctx.apply1(Op::Cast, last, state, Fence::Own);
            },
            None => {},
        },
    }
    let ghost m1 = ctx.memory();
    proof {
        assert(content(m1, input.buffer) == term);
        assert(content(m1, w.ssm_conv1d.buffer) == content(m0, w.ssm_conv1d.buffer));
        assert(content(m1, i.qkv.buffer) == content(m0, i.qkv.buffer));
    }
    let out = ctx.alloc_tensor(Dims { d0: channels, d1: c.l, d2: c.b, d3: 1 })?;
    if left_out {
        ctx.apply1(Op::Cast, i.qkv, out, Fence::Own);
    } else {
        ctx.apply2(
            Op::SsmConv {
                channels: channels as u32,
                n_padded: padded as u32,
                n_tokens: c.l as u32,
                n_seqs: c.b as u32,
                kernel: c.kernel as u32,
                fuse_silu: true,
            },
            input,
            w.ssm_conv1d,
            out,
            Fence::No,
        );
    }
    ctx.barrier3(i.beta, i.alpha, out);
    Ok(out)
}

/// Elements of the scan's output and of the states after it.
pub open spec fn scan_floats(c: SsmShape, snapshots: u64) -> int {
    c.outputs() + snapshots * (c.b * c.state())
}

/// Scratch that the scan takes.
pub open spec fn scan_bytes(c: SsmShape, snapshots: u64, fresh_state: bool) -> int {
    2 * size(c.head_dims()) + 4 * scan_floats(c, snapshots) + if fresh_state {
        4 * (c.b * c.state())
    } else {
        0
    }
}

/// Each tensor of the scan fits scratch.
pub open spec fn scan_fits(c: SsmShape, snapshots: u64, fresh_state: bool, room: u64) -> bool {
    &&& fits(room, c.head_dims())
    &&& 4 * scan_floats(c, snapshots) <= room
    &&& fresh_state ==> 4 * (c.b * c.state()) <= room
}

/// The state that the scan starts from: the kept one, or zeros.
pub open spec fn scan_start<F>(m: Memory<F>, c: SsmShape, gdn: Option<BufferRange>) -> Term<F> {
    match gdn {
        Some(r) => through(
            content(m, r.buffer),
            flat_view(r.buffer, r.offset as int, c.b * c.state()),
        ),
        None => fresh(Term::Zeros, matrix((c.b * c.state()) as u64, 1)),
    }
}

/// Record the scan of a recurrent layer.
#[verifier::rlimit(30)]
pub fn record_scan<F: Copy>(
    ctx: &mut DispatchContext<F>,
    p: &Qwen35MoeParams<F>,
    c: SsmShape,
    i: SsmInputs,
    conv_out: TensorView,
    gdn: Option<BufferRange>,
    snapshots: u64,
    scale: F,
) -> (r: Result<TensorView, RecordError>)
    requires
        c.wf(),
        quiet(old(ctx).memory()),
        1 <= snapshots <= u32::MAX,
        ready(old(ctx), conv_out),
        conv_out == dense(conv_out.buffer, c.out_dims()),
        fits(old(ctx).region, c.out_dims()),
        ready(old(ctx), i.alpha),
        i.alpha == dense(i.alpha.buffer, matrix(c.num_v, c.n() as u64)),
        ready(old(ctx), i.beta),
        i.beta == dense(i.beta.buffer, matrix(c.num_v, c.n() as u64)),
        gdn matches Some(r) ==> readable(
            old(ctx).memory(),
            (flat_view(r.buffer, r.offset as int, c.b * c.state())),
        ) && old(ctx).known(r.buffer),
    ensures
        final(ctx).region == old(ctx).region,
        final(ctx).replay == old(ctx).replay,
        final(ctx).at() >= old(ctx).at(),
        r matches Err(e) ==> e is ScratchExhausted,
        r is Ok <==> scan_fits(c, snapshots, gdn is None, old(ctx).region) && old(ctx).used
            + scan_bytes(c, snapshots, gdn is None) <= old(ctx).region,
        r is Ok ==> final(ctx).used == old(ctx).used + scan_bytes(c, snapshots, gdn is None),
        r matches Ok(t) ==> {
            let m = old(ctx).memory();
            &&& holds(
                final(ctx),
                t,
                matrix(scan_floats(c, snapshots) as u64, 1),
                scan_term(
                    p,
                    c,
                    snapshots,
                    scale,
                    content(m, conv_out.buffer),
                    content(m, i.alpha.buffer),
                    content(m, i.beta.buffer),
                    scan_start(m, c, gdn),
                ),
                old(ctx).at(),
            )
            &&& t.byte_size == 4 * scan_floats(c, snapshots)
            &&& quiet(final(ctx).memory())
            &&& undisturbed(m, final(ctx).memory(), old(ctx).at(), Set::empty())
        },
{
    proof {
        lemma_shape(c);
    }
    let key_dim: u64 = c.num_k * c.s_v;
    let value_dim: u64 = c.num_v * c.s_v;
    let channels: u64 = 2 * key_dim + value_dim;
    let n: u64 = c.l * c.b;
    proof {
        let ch = c.channels();
        assert(c.out_dims().d0 == ch);
        assert(4 * (ch * c.l) == 4 * ch * c.l) by (nonlinear_arith);
        assert(0 <= ch * c.l) by (nonlinear_arith)
            requires
                ch >= 0,
        ;
        assert(4 * ch <= 4 * ch * c.l * c.b) by (nonlinear_arith)
            requires
                ch >= 0,
                c.l >= 1,
                c.b >= 1,
        ;
        assert(4 * ch * c.l * c.b * 1 == 4 * ch * c.l * c.b) by (nonlinear_arith);
        assert(0 <= c.key_dim() * c.l <= ch * c.l) by (nonlinear_arith)
            requires
                0 <= c.key_dim() <= ch,
        ;
        assert(0 <= c.num_v * c.l <= ch * c.l) by (nonlinear_arith)
            requires
                0 <= c.num_v <= ch,
        ;
    }
    let head_strides = Dims { d0: 1, d1: c.s_v, d2: channels, d3: channels * c.l };
    let q_view = strided(
        conv_out.buffer,
        0,
        conv_out.byte_size,
        Dims { d0: c.s_v, d1: c.num_k, d2: c.l, d3: c.b },
        head_strides,
    );
    let k_view = strided(
        conv_out.buffer,
        4 * key_dim,
        conv_out.byte_size - 4 * key_dim,
        Dims { d0: c.s_v, d1: c.num_k, d2: c.l, d3: c.b },
        head_strides,
    );
    let v_view = strided(
        conv_out.buffer,
        4 * (2 * key_dim),
        conv_out.byte_size - 4 * (2 * key_dim),
        Dims { d0: c.s_v, d1: c.num_v, d2: c.l, d3: c.b },
        head_strides,
    );
    let q_normed = ctx.alloc_tensor(Dims { d0: c.s_v, d1: c.num_k, d2: c.l, d3: c.b })?;
    ctx.apply1(Op::L2Norm { eps: p.l2_eps }, q_view, q_normed, Fence::No);
    let k_normed = ctx.alloc_tensor(Dims { d0: c.s_v, d1: c.num_k, d2: c.l, d3: c.b })?;
    ctx.apply1(Op::L2Norm { eps: p.l2_eps }, k_view, k_normed, Fence::No);
    ctx.barrier2(q_normed, k_normed);
    proof {
        let v = c.value_dim();
        let st = c.state();
        assert(n * value_dim <= u64::MAX);
        assert(0 <= c.b * st <= u32::MAX * u32::MAX) by (nonlinear_arith)
            requires
                0 <= c.b <= u32::MAX,
                0 <= st <= u32::MAX,
        ;
        assert(value_dim * c.s_v == st);
        assert(0 <= snapshots * (c.b * st)) by (nonlinear_arith)
            requires
                c.b * st >= 0,
        ;
    }
    let outputs: u64 = n * value_dim;
    let state: u64 = c.b * (value_dim * c.s_v);
    let kept: u64 = match snapshots.checked_mul(state) {
        Some(v) => v,
        None => {
            return Err(RecordError::ScratchExhausted);
        },
    };
    let floats: u64 = match outputs.checked_add(kept) {
        Some(v) => v,
        None => {
            return Err(RecordError::ScratchExhausted);
        },
    };
    let dst = ctx.alloc_matrix(floats, 1)?;
    let state_in = match gdn {
        Some(r) => {
            proof {
                assert(state <= snapshots * state) by (nonlinear_arith)
                    requires
                        snapshots >= 1,
                ;
            }
            flat(r.buffer, r.offset, state)
        },
        None => {
            let zeros = ctx.alloc_matrix(state, 1)?;
            ctx.write_zeros(zeros);
            zeros
        },
    };
    ctx.apply6(
        Op::GatedDeltaNet {
            params: GdnParams {
                num_v: c.num_v as u32,
                num_k: c.num_k as u32,
                n_tokens: c.l as u32,
                n_seqs: c.b as u32,
                s_off: outputs as u32,
                scale,
                q_strides: GdnStrides {
                    s1: c.s_v as u32,
                    s2: key_dim as u32,
                    s3: (key_dim * c.l) as u32,
                },
                v_strides: GdnStrides {
                    s1: c.s_v as u32,
                    s2: channels as u32,
                    s3: (channels * c.l) as u32,
                },
                b_strides: GdnStrides { s1: 1, s2: c.num_v as u32, s3: (c.num_v * c.l) as u32 },
                s_v: c.s_v as u32,
                snapshots: snapshots as u32,
            },
        },
        q_normed,
        k_normed,
        v_view,
        i.alpha,
        i.beta,
        state_in,
        dst,
        Fence::Own,
    );
    Ok(dst)
}

/// Scratch that the gated outputs and their projection take.
pub open spec fn ssm_out_bytes(c: SsmShape, accumulate: bool) -> nat {
    let n = c.n() as u64;
    size(matrix(c.value_dim() as u64, n)) + if accumulate {
        0
    } else {
        size(matrix(c.width, n))
    }
}

/// Record the gating of the scan's outputs.
fn record_gated_scan<F: Copy>(
    ctx: &mut DispatchContext<F>,
    w: &SsmBlockWeights,
    p: &Qwen35MoeParams<F>,
    c: SsmShape,
    z: TensorView,
    scan: TensorView,
    Ghost(x): Ghost<Term<F>>,
    Ghost(m): Ghost<Memory<F>>,
) -> (r: Result<TensorView, RecordError>)
    requires
        c.wf(),
        quiet(old(ctx).memory()),
        weights_live(old(ctx).memory()),
        same_weights(old(ctx).memory(), m),
        w.apart(),
        ready(old(ctx), z),
        z == dense(z.buffer, matrix(c.value_dim() as u64, c.n() as u64)),
        content(old(ctx).memory(), z.buffer) == ssm_projected(m, p, *w, c, x, w.attn_gate),
        ready(old(ctx), scan),
        scan.byte_offset == 0,
        4 * c.outputs() <= u64::MAX,
    ensures
        final(ctx).region == old(ctx).region,
        final(ctx).replay == old(ctx).replay,
        final(ctx).at() >= old(ctx).at(),
        r matches Err(e) ==> e is ScratchExhausted,
        spends(
            old(ctx),
            final(ctx),
            r is Ok,
            size(matrix(c.value_dim() as u64, c.n() as u64)),
        ),
        r is Ok ==> 4 * (c.value_dim() as u64) * (c.n() as u64) <= old(ctx).region,
        r matches Ok(t) ==> {
            let m1 = old(ctx).memory();
            &&& holds(
                final(ctx),
                t,
                matrix(c.value_dim() as u64, c.n() as u64),
                ssm_gated(m, p, *w, c, x, content(m1, scan.buffer)),
                old(ctx).at(),
            )
            &&& covers(t)
            &&& quiet(final(ctx).memory())
            &&& undisturbed(m1, final(ctx).memory(), old(ctx).at(), Set::empty())
        },
{
    proof {
        lemma_shape(c);
        assert(ready(ctx, w.ssm_norm));
    }
    let n: u64 = c.l * c.b;
    let value_dim: u64 = c.num_v * c.s_v;
    let outputs: u64 = n * value_dim;
    let scanned = strided(
        scan.buffer,
        0,
        4 * outputs,
        Dims { d0: c.s_v, d1: c.num_v, d2: n, d3: 1 },
        Dims { d0: 1, d1: c.s_v, d2: value_dim, d3: outputs },
    );
    let gated = ctx.alloc_matrix(value_dim, n)?;
    ctx.apply3(
        Op::SsmNormGate {
            s_v: c.s_v as u32,
            num_v: c.num_v as u32,
            n: n as u32,
            eps: p.rms_eps,
        },
        scanned,
        w.ssm_norm,
        z,
        gated,
        Fence::Own,
    );
    Ok(gated)
}

/// Record the gating of the scan's outputs, their projection, and the sum with
/// `residual`.
pub fn record_ssm_out<F: Copy>(
    ctx: &mut DispatchContext<F>,
    w: &SsmBlockWeights,
    residual: TensorView,
    p: &Qwen35MoeParams<F>,
    c: SsmShape,
    z: TensorView,
    scan: TensorView,
    accumulate: bool,
    Ghost(x): Ghost<Term<F>>,
    Ghost(m): Ghost<Memory<F>>,
) -> (r: Result<(), RecordError>)
    requires
        c.wf(),
        quiet(old(ctx).memory()),
        weights_live(old(ctx).memory()),
        same_weights(old(ctx).memory(), m),
        w.apart(),
        residual.buffer is Scratch,
        ready(old(ctx), residual),
        read(old(ctx).memory(), residual) == x,
        ready(old(ctx), z),
        z == dense(z.buffer, matrix(c.value_dim() as u64, c.n() as u64)),
        content(old(ctx).memory(), z.buffer) == ssm_projected(m, p, *w, c, x, w.attn_gate),
        ready(old(ctx), scan),
        scan.byte_offset == 0,
        4 * c.outputs() <= u64::MAX,
    ensures
        final(ctx).region == old(ctx).region,
        final(ctx).replay == old(ctx).replay,
        final(ctx).at() >= old(ctx).at(),
        r matches Err(e) ==> e is ScratchExhausted,
        spends(old(ctx), final(ctx), r is Ok, ssm_out_bytes(c, accumulate)),
        r is Ok ==> {
            let m1 = old(ctx).memory();
            &&& content(final(ctx).memory(), residual.buffer) == put(
                content(m1, residual.buffer),
                residual,
                ssm_out_term(m, p, *w, c, x, content(m1, scan.buffer), accumulate),
            )
            &&& ready(final(ctx), residual)
            &&& quiet(final(ctx).memory())
            &&& undisturbed(m1, final(ctx).memory(), old(ctx).at(), set![residual.buffer])
        },
{
    proof {
        lemma_shape(c);
        assert(ready(ctx, w.ssm_norm) && ready(ctx, w.ssm_out));
    }
    let n: u64 = c.l * c.b;
    let ghost at = ctx.at();
    let ghost m1 = ctx.memory();
    let gated = record_gated_scan(ctx, w, p, c, z, scan, Ghost(x), Ghost(m))?;
    let ghost m2 = ctx.memory();
    proof {
        assert(content(m2, residual.buffer) == content(m1, residual.buffer));
        assert(ready(ctx, residual));
        assert(content(m2, w.ssm_out.buffer) == content(m1, w.ssm_out.buffer));
        assert(ready(ctx, w.ssm_out));
    }
    if accumulate {
        ctx.apply3(Op::MatMulAdd, w.ssm_out, gated, residual, residual, Fence::Own);
    } else {
        let proj = ctx.alloc_matrix(c.width, n)?;
        ctx.apply2(Op::MatMul, w.ssm_out, gated, proj, Fence::Own);
        ctx.apply2(Op::Add, residual, proj, residual, Fence::Own);
    }
    proof {
        let m3 = ctx.memory();
        assert forall|y: Buffer|
            !later(y, at) && !set![residual.buffer].contains(y) implies content(m3, y) == content(
            m1,
            y,
        ) && (reserved(m1, y) ==> reserved(m3, y)) by {
            assert(content(m2, y) == content(m1, y));
        }
    }
    Ok(())
}

/// Record the gating of the scan's outputs and their projection, and what is shown
/// in place of the sum with `residual`.
fn record_shown<F: Copy>(
    ctx: &mut DispatchContext<F>,
    w: &SsmBlockWeights,
    residual: TensorView,
    p: &Qwen35MoeParams<F>,
    c: SsmShape,
    i: SsmInputs,
    conv: TensorView,
    scan: TensorView,
    shown: Shown,
    Ghost(x): Ghost<Term<F>>,
    Ghost(m): Ghost<Memory<F>>,
) -> (r: Result<(), RecordError>)
    requires
        c.wf(),
        quiet(old(ctx).memory()),
        weights_live(old(ctx).memory()),
        same_weights(old(ctx).memory(), m),
        w.apart(),
        residual.buffer is Scratch,
        ready(old(ctx), residual),
        read(old(ctx).memory(), residual) == x,
        ready(old(ctx), i.alpha),
        i.alpha == dense(i.alpha.buffer, matrix(c.num_v, c.n() as u64)),
        ready(old(ctx), i.beta),
        i.beta == dense(i.beta.buffer, matrix(c.num_v, c.n() as u64)),
        ready(old(ctx), i.qkv),
        i.qkv == dense(i.qkv.buffer, matrix(c.channels() as u64, c.n() as u64)),
        ready(old(ctx), conv),
        conv == dense(conv.buffer, c.out_dims()),
        ready(old(ctx), i.z),
        i.z == dense(i.z.buffer, matrix(c.value_dim() as u64, c.n() as u64)),
        content(old(ctx).memory(), i.z.buffer) == ssm_projected(m, p, *w, c, x, w.attn_gate),
        ready(old(ctx), scan),
        scan.byte_offset == 0,
        4 * c.outputs() <= u64::MAX,
    ensures
        final(ctx).region == old(ctx).region,
        final(ctx).replay == old(ctx).replay,
        final(ctx).at() >= old(ctx).at(),
        r matches Err(e) ==> e is ScratchExhausted,
        spends(old(ctx), final(ctx), r is Ok, ssm_out_bytes(c, false)),
        r is Ok ==> {
            let m1 = old(ctx).memory();
            &&& content(final(ctx).memory(), residual.buffer) == put(
                content(m1, residual.buffer),
                residual,
                shown_term(
                    m,
                    p,
                    *w,
                    c,
                    x,
                    shown,
                    content(m1, i.alpha.buffer),
                    content(m1, i.beta.buffer),
                    content(m1, i.qkv.buffer),
                    content(m1, conv.buffer),
                    content(m1, scan.buffer),
                ),
            )
            &&& ready(final(ctx), residual)
            &&& quiet(final(ctx).memory())
            &&& undisturbed(m1, final(ctx).memory(), old(ctx).at(), set![residual.buffer])
        },
{
    proof {
        lemma_shape(c);
        assert(ready(ctx, w.ssm_norm) && ready(ctx, w.ssm_out));
    }
    let n: u64 = c.l * c.b;
    let value_dim: u64 = c.num_v * c.s_v;
    let ghost at = ctx.at();
    let ghost m1 = ctx.memory();
    let gated = record_gated_scan(ctx, w, p, c, i.z, scan, Ghost(x), Ghost(m))?;
    let ghost m2 = ctx.memory();
    proof {
        assert(content(m2, residual.buffer) == content(m1, residual.buffer));
        assert(content(m2, w.ssm_out.buffer) == content(m1, w.ssm_out.buffer));
        assert(content(m2, i.alpha.buffer) == content(m1, i.alpha.buffer));
        assert(content(m2, i.beta.buffer) == content(m1, i.beta.buffer));
        assert(content(m2, i.qkv.buffer) == content(m1, i.qkv.buffer));
        assert(content(m2, conv.buffer) == content(m1, conv.buffer));
        assert(content(m2, scan.buffer) == content(m1, scan.buffer));
        assert(ready(ctx, residual) && ready(ctx, w.ssm_out) && ready(ctx, i.alpha) && ready(
            ctx,
            i.beta,
        ) && ready(ctx, i.qkv) && ready(ctx, conv) && ready(ctx, scan));
    }
    let proj = ctx.alloc_matrix(c.width, n)?;
    ctx.apply2(Op::MatMul, w.ssm_out, gated, proj, Fence::Own);
    proof {
        assert(4 * (c.width * n) == 4 * c.width * n) by (nonlinear_arith);
        assert(4 * (value_dim * n) == 4 * value_dim * n && 4 * value_dim <= 4 * value_dim * n
            && 0 <= value_dim * n && 0 <= c.width * n) by (nonlinear_arith)
            requires
                n >= 1,
        ;
        assert(value_dim * n == c.value_dim() * c.n());
    }
    let dims = Dims { d0: c.width, d1: n, d2: 1, d3: 1 };
    let strides = Dims { d0: 1, d1: value_dim, d2: value_dim * n, d3: value_dim * n };
    let from: Option<TensorView> = match shown {
        Shown::Alpha => Some(i.alpha),
        Shown::Beta => Some(i.beta),
        Shown::Qkv => Some(i.qkv),
        Shown::Conv => Some(conv),
        Shown::Scan => Some(strided(scan.buffer, 0, 4 * (c.width * n), dims, strides)),
        Shown::Gated => Some(strided(gated.buffer, 0, 4 * (c.width * n), dims, strides)),
        Shown::Proj => Some(proj),
        Shown::Other => None,
    };
    match from {
        Some(t) => {
            ctx.apply1(Op::Cast, t, residual, Fence::Own);
        },
        None => {
            ctx.apply2(Op::Add, residual, proj, residual, Fence::Own);
        },
    }
    proof {
        let m3 = ctx.memory();
        assert forall|y: Buffer|
            !later(y, at) && !set![residual.buffer].contains(y) implies content(m3, y) == content(
            m1,
            y,
        ) && (reserved(m1, y) ==> reserved(m3, y)) by {
            assert(content(m2, y) == content(m1, y));
        }
    }
    Ok(())
}

/// What a pass over one sequence ends in: the sum, or what is shown in its place.
pub open spec fn ssm_end<F: Copy>(
    m: Memory<F>,
    p: &Qwen35MoeParams<F>,
    w: SsmBlockWeights,
    c: SsmShape,
    x: Term<F>,
    alpha: Term<F>,
    beta: Term<F>,
    qkv: Term<F>,
    conv: Term<F>,
    scan: Term<F>,
) -> Term<F> {
    match p.switches.shown {
        None => ssm_out_term(m, p, w, c, x, scan, c.l == 1),
        Some(shown) => shown_term(m, p, w, c, x, shown, alpha, beta, qkv, conv, scan),
    }
}

/// Record the end of a recurrent half over one sequence.
fn record_ssm_end<F: Copy>(
    ctx: &mut DispatchContext<F>,
    w: &SsmBlockWeights,
    residual: TensorView,
    p: &Qwen35MoeParams<F>,
    c: SsmShape,
    i: SsmInputs,
    conv: TensorView,
    scan: TensorView,
    Ghost(x): Ghost<Term<F>>,
    Ghost(m): Ghost<Memory<F>>,
) -> (r: Result<(), RecordError>)
    requires
        c.wf(),
        quiet(old(ctx).memory()),
        weights_live(old(ctx).memory()),
        same_weights(old(ctx).memory(), m),
        w.apart(),
        residual.buffer is Scratch,
        ready(old(ctx), residual),
        read(old(ctx).memory(), residual) == x,
        ready(old(ctx), i.alpha),
        i.alpha == dense(i.alpha.buffer, matrix(c.num_v, c.n() as u64)),
        ready(old(ctx), i.beta),
        i.beta == dense(i.beta.buffer, matrix(c.num_v, c.n() as u64)),
        ready(old(ctx), i.qkv),
        i.qkv == dense(i.qkv.buffer, matrix(c.channels() as u64, c.n() as u64)),
        ready(old(ctx), conv),
        conv == dense(conv.buffer, c.out_dims()),
        ready(old(ctx), i.z),
        i.z == dense(i.z.buffer, matrix(c.value_dim() as u64, c.n() as u64)),
        content(old(ctx).memory(), i.z.buffer) == ssm_projected(m, p, *w, c, x, w.attn_gate),
        ready(old(ctx), scan),
        scan.byte_offset == 0,
        4 * c.outputs() <= u64::MAX,
    ensures
        final(ctx).region == old(ctx).region,
        final(ctx).replay == old(ctx).replay,
        final(ctx).at() >= old(ctx).at(),
        r matches Err(e) ==> e is ScratchExhausted,
        spends(
            old(ctx),
            final(ctx),
            r is Ok,
            ssm_out_bytes(c, c.l == 1 && p.switches.shown is None),
        ),
        r is Ok ==> {
            let m1 = old(ctx).memory();
            &&& content(final(ctx).memory(), residual.buffer) == put(
                content(m1, residual.buffer),
                residual,
                ssm_end(
                    m,
                    p,
                    *w,
                    c,
                    x,
                    content(m1, i.alpha.buffer),
                    content(m1, i.beta.buffer),
                    content(m1, i.qkv.buffer),
                    content(m1, conv.buffer),
                    content(m1, scan.buffer),
                ),
            )
            &&& ready(final(ctx), residual)
            &&& quiet(final(ctx).memory())
            &&& undisturbed(m1, final(ctx).memory(), old(ctx).at(), set![residual.buffer])
        },
{
    match p.switches.shown {
        Some(shown) => record_shown(
            ctx,
            w,
            residual,
            p,
            c,
            i,
            conv,
            scan,
            shown,
            Ghost(x),
            Ghost(m),
        ),
        None => record_ssm_out(
            ctx,
            w,
            residual,
            p,
            c,
            i.z,
            scan,
            c.l == 1,
            Ghost(x),
            Ghost(m),
        ),
    }
}

/// The states of a recurrent layer. With a checkpoint, the pass keeps the state
/// after each token, and the convolution's input, and leaves the states alone.
#[derive(Clone, Copy)]
pub struct SsmStates {
    pub conv: Option<BufferRange>,
    pub gdn: Option<BufferRange>,
    /// Where the recurrent states and the convolution's input are kept.
    pub checkpoint: Option<(BufferRange, BufferRange)>,
}

/// A state's buffer lies apart from weights and scratch, and can be read.
pub open spec fn state_live<F>(m: Memory<F>, r: BufferRange) -> bool {
    &&& !(r.buffer is Scratch)
    &&& !(r.buffer is Weights)
    &&& !(content(m, r.buffer) is Unset)
}

impl SsmStates {
    /// The states can be read, and lie apart.
    pub open spec fn live<F>(&self, m: Memory<F>) -> bool {
        &&& self.conv matches Some(r) ==> state_live(m, r)
        &&& self.gdn matches Some(r) ==> state_live(m, r)
        &&& self.checkpoint matches Some((g, b)) ==> {
            &&& state_live(m, g)
            &&& state_live(m, b)
            &&& g.buffer != b.buffer
            &&& self.conv matches Some(r) ==> r.buffer != g.buffer && r.buffer != b.buffer
            &&& self.gdn matches Some(r) ==> r.buffer != g.buffer && r.buffer != b.buffer
        }
        &&& self.conv matches Some(c) ==> (self.gdn matches Some(g) ==> c.buffer != g.buffer)
    }

    /// How many states the scan gives.
    pub open spec fn snapshots(&self, l: u64) -> u64 {
        if self.checkpoint is Some {
            l
        } else {
            1
        }
    }

    /// Where the convolution's input goes, with a checkpoint.
    pub open spec fn backup(&self) -> Option<BufferRange> {
        match self.checkpoint {
            Some((_, b)) => Some(b),
            None => None,
        }
    }

    /// Where the states go.
    pub open spec fn kept(&self) -> Option<BufferRange> {
        match self.checkpoint {
            Some((g, _)) => Some(g),
            None => self.gdn,
        }
    }

    /// The buffers that a pass changes.
    pub open spec fn changed(&self, residual: Buffer) -> Set<Buffer> {
        Set::new(
            |y: Buffer|
                y == residual || conv_target(self.conv, self.backup()) == Some(y) || (
                self.kept() matches Some(r) && r.buffer == y),
        )
    }
}

/// The convolution's input in a pass.
pub open spec fn ssm_conv_input<F: Copy>(
    m: Memory<F>,
    p: &Qwen35MoeParams<F>,
    w: SsmBlockWeights,
    c: SsmShape,
    st: SsmStates,
    x: Term<F>,
) -> Term<F> {
    conv_input_term(c, conv_start(m, st.conv), ssm_projected(m, p, w, c, x, w.attn_qkv))
}

/// The convolution's output in a pass.
pub open spec fn ssm_conv_out<F: Copy>(
    m: Memory<F>,
    p: &Qwen35MoeParams<F>,
    w: SsmBlockWeights,
    c: SsmShape,
    st: SsmStates,
    x: Term<F>,
) -> Term<F> {
    conv_term(
        m,
        w,
        c,
        ssm_conv_input(m, p, w, c, st, x),
        ssm_projected(m, p, w, c, x, w.attn_qkv),
        p.switches.no_conv,
    )
}

/// The scan's scale over one sequence.
pub open spec fn single_scale<F>(p: &Qwen35MoeParams<F>) -> F {
    match p.switches.gdn_scale {
        Some(s) => s,
        None => p.gdn_scale,
    }
}

/// The scan of a pass.
pub open spec fn ssm_scan<F: Copy>(
    m: Memory<F>,
    p: &Qwen35MoeParams<F>,
    w: SsmBlockWeights,
    c: SsmShape,
    st: SsmStates,
    x: Term<F>,
) -> Term<F> {
    scan_term(
        p,
        c,
        st.snapshots(c.l),
        single_scale(p),
        ssm_conv_out(m, p, w, c, st, x),
        ssm_alpha(m, p, w, c, x),
        ssm_beta(m, p, w, c, x),
        scan_start(m, c, st.gdn),
    )
}

/// What a pass adds up to.
#[verifier::opaque]
pub open spec fn ssm_term<F: Copy>(
    m: Memory<F>,
    p: &Qwen35MoeParams<F>,
    w: SsmBlockWeights,
    c: SsmShape,
    st: SsmStates,
    x: Term<F>,
) -> Term<F> {
    ssm_end(
        m,
        p,
        w,
        c,
        x,
        ssm_alpha(m, p, w, c, x),
        ssm_beta(m, p, w, c, x),
        ssm_projected(m, p, w, c, x, w.attn_qkv),
        ssm_conv_out(m, p, w, c, st, x),
        ssm_scan(m, p, w, c, st, x),
    )
}

/// The hidden states that hold `held` after a pass over those that `residual`
/// views. Where the half ends with its norm they are what they were.
pub open spec fn ssm_after<F: Copy>(
    m: Memory<F>,
    p: &Qwen35MoeParams<F>,
    w: SsmBlockWeights,
    c: SsmShape,
    st: SsmStates,
    x: Term<F>,
    held: Term<F>,
    residual: TensorView,
) -> Term<F> {
    if p.switches.only_rms {
        held
    } else {
        put(held, residual, ssm_term(m, p, w, c, st, x))
    }
}

/// What the convolution keeps in a pass.
#[verifier::opaque]
pub open spec fn ssm_conv_kept<F: Copy>(
    m: Memory<F>,
    p: &Qwen35MoeParams<F>,
    w: SsmBlockWeights,
    c: SsmShape,
    st: SsmStates,
    x: Term<F>,
) -> Term<F> {
    if p.switches.only_rms {
        content(m, conv_target(st.conv, st.backup())->0)
    } else {
        conv_kept(m, c, st.conv, st.backup(), ssm_conv_input(m, p, w, c, st, x))
    }
}

/// What the scan keeps in a pass.
#[verifier::opaque]
pub open spec fn ssm_gdn_kept<F: Copy>(
    m: Memory<F>,
    p: &Qwen35MoeParams<F>,
    w: SsmBlockWeights,
    c: SsmShape,
    st: SsmStates,
    x: Term<F>,
) -> Term<F> {
    let floats = st.snapshots(c.l) * (c.b * c.state());
    let r = st.kept()->0;
    if p.switches.only_rms {
        content(m, r.buffer)
    } else {
        put(
            content(m, r.buffer),
            flat_view(r.buffer, r.offset as int, floats),
            op1(
                Op::Copy,
                through(
                    ssm_scan(m, p, w, c, st, x),
                    flat_view(of_bytes(0), 4 * c.outputs(), floats),
                ),
            ),
        )
    }
}

/// Scratch that a recurrent layer takes.
pub open spec fn ssm_bytes<F>(p: &Qwen35MoeParams<F>, c: SsmShape, st: SsmStates) -> int {
    if p.switches.only_rms {
        size(matrix(c.width, c.n() as u64)) as int
    } else {
        ssm_inputs_bytes(c) + convolution_bytes(c) + scan_bytes(
            c,
            st.snapshots(c.l),
            st.gdn is None,
        ) + ssm_out_bytes(c, c.l == 1 && p.switches.shown is None)
    }
}

/// A recurrent layer fits what `used` bytes leave of scratch.
pub open spec fn ssm_fits<F>(
    p: &Qwen35MoeParams<F>,
    c: SsmShape,
    st: SsmStates,
    used: int,
    room: u64,
) -> bool {
    &&& p.switches.only_rms || conv_fits(c, room)
    &&& p.switches.only_rms || scan_fits(c, st.snapshots(c.l), st.gdn is None, room)
    &&& used + ssm_bytes(p, c, st) <= room
}

/// Record the recurrent half of a layer over one sequence, beyond its norm.
#[verifier::rlimit(60)]
fn record_recurrent<F: Copy>(
    ctx: &mut DispatchContext<F>,
    w: &SsmBlockWeights,
    residual: TensorView,
    p: &Qwen35MoeParams<F>,
    l: u32,
    st: SsmStates,
) -> (r: Result<(), RecordError>)
    requires
        p.wf(),
        !p.switches.only_rms,
        l >= 1,
        quiet(old(ctx).memory()),
        weights_live(old(ctx).memory()),
        w.apart(),
        st.live(old(ctx).memory()),
        residual.buffer is Scratch,
        ready(old(ctx), residual),
    ensures
        final(ctx).region == old(ctx).region,
        final(ctx).replay == old(ctx).replay,
        final(ctx).at() >= old(ctx).at(),
        r matches Err(e) ==> e is ScratchExhausted,
        r is Ok <==> ssm_fits(
            p,
            ssm_shape(p, l as u64, 1),
            st,
            old(ctx).used as int,
            old(ctx).region,
        ),
        r is Ok ==> final(ctx).used == old(ctx).used + ssm_bytes(
            p,
            ssm_shape(p, l as u64, 1),
            st,
        ),
        r is Ok ==> {
            let m = old(ctx).memory();
            let c = ssm_shape(p, l as u64, 1);
            let x = read(m, residual);
            &&& content(final(ctx).memory(), residual.buffer) == ssm_after(
                m,
                p,
                *w,
                c,
                st,
                x,
                content(m, residual.buffer),
                residual,
            )
            &&& conv_target(st.conv, st.backup()) matches Some(b) ==> content(
                final(ctx).memory(),
                b,
            ) == ssm_conv_kept(m, p, *w, c, st, x) && !(content(final(ctx).memory(), b) is Unset)
            &&& st.kept() matches Some(r) ==> content(final(ctx).memory(), r.buffer)
                == ssm_gdn_kept(m, p, *w, c, st, x) && !(content(final(ctx).memory(), r.buffer)
                is Unset)
            &&& ready(final(ctx), residual)
            &&& quiet(final(ctx).memory())
            &&& undisturbed(
                m,
                final(ctx).memory(),
                old(ctx).at(),
                st.changed(residual.buffer),
            )
        },
{
    proof {
        reveal(ssm_term);
        reveal(ssm_conv_kept);
        reveal(ssm_gdn_kept);
    }
    let ghost m0 = ctx.memory();
    let ghost x = read(m0, residual);
    let ghost changed = st.changed(residual.buffer);
    let c = make_shape(p, l as u64, 1);
    let i = record_ssm_inputs(ctx, w, residual, p, c)?;
    let ghost m1 = ctx.memory();
    let backup: Option<BufferRange> = match st.checkpoint {
        Some((_, b)) => Some(b),
        None => None,
    };
    let snapshots: u64 = if st.checkpoint.is_some() {
        c.l
    } else {
        1
    };
    proof {
        lemma_shape(c);
        assert(undisturbed(m0, m1, old(ctx).at(), Set::empty()));
        assert(weights_live(m1));
        assert(st.conv matches Some(r) ==> content(m1, r.buffer) == content(m0, r.buffer));
        assert(st.gdn matches Some(r) ==> content(m1, r.buffer) == content(m0, r.buffer));
        assert(backup matches Some(r) ==> content(m1, r.buffer) == content(m0, r.buffer));
        assert(st.kept() matches Some(r) ==> content(m1, r.buffer) == content(m0, r.buffer));
        assert(content(m1, residual.buffer) == content(m0, residual.buffer));
    }
    let conv_out = record_convolution(ctx, w, c, i, st.conv, backup, p.switches.no_conv)?;
    let ghost m2 = ctx.memory();
    proof {
        assert(st.gdn matches Some(r) ==> content(m2, r.buffer) == content(m1, r.buffer));
        assert(st.kept() matches Some(r) ==> content(m2, r.buffer) == content(m1, r.buffer));
        assert(content(m2, i.alpha.buffer) == content(m1, i.alpha.buffer));
        assert(content(m2, i.beta.buffer) == content(m1, i.beta.buffer));
        assert(content(m2, i.z.buffer) == content(m1, i.z.buffer));
        assert(content(m2, i.qkv.buffer) == content(m1, i.qkv.buffer));
        assert(reserved(m2, i.qkv.buffer));
        assert(content(m2, residual.buffer) == content(m0, residual.buffer));
        assert(reserved(m2, i.alpha.buffer) && reserved(m2, i.beta.buffer) && reserved(
            m2,
            i.z.buffer,
        ) && reserved(m2, residual.buffer));
        assert(content(m2, w.ssm_conv1d.buffer) == content(m0, w.ssm_conv1d.buffer)) by {
            assert(content(m1, w.ssm_conv1d.buffer) == content(m0, w.ssm_conv1d.buffer));
        }
    }
    let scale: F = match p.switches.gdn_scale {
        Some(s) => s,
        None => p.gdn_scale,
    };
    let scan = record_scan(ctx, p, c, i, conv_out, st.gdn, snapshots, scale)?;
    let ghost m3 = ctx.memory();
    let outputs: u64 = (c.l * c.b) * (c.num_v * c.s_v);
    let state: u64 = c.b * (c.num_v * c.s_v * c.s_v);
    proof {
        assert(st.kept() matches Some(r) ==> content(m3, r.buffer) == content(m0, r.buffer));
        assert(content(m3, i.z.buffer) == content(m1, i.z.buffer));
        assert(reserved(m3, i.z.buffer) && reserved(m3, residual.buffer));
        assert(content(m3, residual.buffer) == content(m0, residual.buffer));
        assert(0 <= snapshots * state) by (nonlinear_arith);
        assert(scan_floats(c, snapshots) == outputs + snapshots * state);
        assert(content(m3, scan.buffer) == ssm_scan(m0, p, *w, c, st, x));
    }
    match st.checkpoint {
        Some((snap, _)) => {
            let src = flat(scan.buffer, 4 * outputs, snapshots * state);
            let dst = flat(snap.buffer, snap.offset, snapshots * state);
            ctx.copy_part(src, dst);
            ctx.barrier1(dst);
        },
        None => match st.gdn {
            Some(r) => {
                let src = flat(scan.buffer, 4 * outputs, state);
                let dst = flat(r.buffer, r.offset, state);
                assert(1 * state == state);
                ctx.copy_part(src, dst);
                ctx.barrier1(dst);
            },
            None => {},
        },
    }
    let ghost m4 = ctx.memory();
    proof {
        assert forall|y: Buffer|
            !later(y, old(ctx).at()) && !changed.contains(y) implies content(m4, y) == content(
            m0,
            y,
        ) && (reserved(m0, y) ==> reserved(m4, y)) by {
            assert(content(m1, y) == content(m0, y));
            assert(content(m2, y) == content(m1, y));
            assert(content(m3, y) == content(m2, y));
        }
        assert(undisturbed(m0, m4, old(ctx).at(), changed));
        assert(same_weights(m4, m0));
        assert(weights_live(m4));
        assert(conv_target(st.conv, st.backup()) matches Some(b) ==> content(m4, b) == content(
            m2,
            b,
        )) by {
            assert(conv_target(st.conv, st.backup()) matches Some(b) ==> content(m3, b) == content(
                m2,
                b,
            ));
        }
        assert(content(m4, scan.buffer) == content(m3, scan.buffer));
        assert(ready(ctx, residual) && ready(ctx, i.z) && ready(ctx, scan));
    }
    proof {
        assert(content(m3, i.alpha.buffer) == content(m2, i.alpha.buffer));
        assert(content(m3, i.beta.buffer) == content(m2, i.beta.buffer));
        assert(content(m3, i.qkv.buffer) == content(m2, i.qkv.buffer));
        assert(content(m3, conv_out.buffer) == content(m2, conv_out.buffer));
        assert(content(m4, i.alpha.buffer) == content(m3, i.alpha.buffer));
        assert(content(m4, i.beta.buffer) == content(m3, i.beta.buffer));
        assert(content(m4, i.qkv.buffer) == content(m3, i.qkv.buffer));
        assert(content(m4, conv_out.buffer) == content(m3, conv_out.buffer));
        assert(ready(ctx, i.alpha) && ready(ctx, i.beta) && ready(ctx, i.qkv) && ready(
            ctx,
            conv_out,
        ));
    }
    record_ssm_end(ctx, w, residual, p, c, i, conv_out, scan, Ghost(x), Ghost(m0))?;
    proof {
        let m5 = ctx.memory();
        assert(conv_target(st.conv, st.backup()) matches Some(b) ==> content(m5, b) == content(
            m4,
            b,
        ));
        assert(st.kept() matches Some(r) ==> content(m5, r.buffer) == content(m4, r.buffer));
        assert forall|y: Buffer|
            !later(y, old(ctx).at()) && !changed.contains(y) implies content(m5, y) == content(
            m0,
            y,
        ) && (reserved(m0, y) ==> reserved(m5, y)) by {
            assert(content(m4, y) == content(m0, y));
        }
    }
    Ok(())
}

/// Record the recurrent half of a layer over one sequence.
pub fn ssm_block<F: Copy>(
    ctx: &mut DispatchContext<F>,
    w: &SsmBlockWeights,
    residual: TensorView,
    p: &Qwen35MoeParams<F>,
    l: u32,
    st: SsmStates,
) -> (r: Result<(), RecordError>)
    requires
        p.wf(),
        l >= 1,
        quiet(old(ctx).memory()),
        weights_live(old(ctx).memory()),
        w.apart(),
        st.live(old(ctx).memory()),
        residual.buffer is Scratch,
        ready(old(ctx), residual),
    ensures
        final(ctx).region == old(ctx).region,
        final(ctx).replay == old(ctx).replay,
        final(ctx).at() >= old(ctx).at(),
        r matches Err(e) ==> e is ScratchExhausted,
        r is Ok <==> ssm_fits(
            p,
            ssm_shape(p, l as u64, 1),
            st,
            old(ctx).used as int,
            old(ctx).region,
        ),
        r is Ok ==> final(ctx).used == old(ctx).used + ssm_bytes(
            p,
            ssm_shape(p, l as u64, 1),
            st,
        ),
        r is Ok ==> {
            let m = old(ctx).memory();
            let c = ssm_shape(p, l as u64, 1);
            let x = read(m, residual);
            &&& content(final(ctx).memory(), residual.buffer) == ssm_after(
                m,
                p,
                *w,
                c,
                st,
                x,
                content(m, residual.buffer),
                residual,
            )
            &&& conv_target(st.conv, st.backup()) matches Some(b) ==> content(
                final(ctx).memory(),
                b,
            ) == ssm_conv_kept(m, p, *w, c, st, x) && !(content(final(ctx).memory(), b) is Unset)
            &&& st.kept() matches Some(r) ==> content(final(ctx).memory(), r.buffer)
                == ssm_gdn_kept(m, p, *w, c, st, x) && !(content(final(ctx).memory(), r.buffer)
                is Unset)
            &&& ready(final(ctx), residual)
            &&& quiet(final(ctx).memory())
            &&& undisturbed(
                m,
                final(ctx).memory(),
                old(ctx).at(),
                st.changed(residual.buffer),
            )
        },
{
    if !p.switches.only_rms {
        return record_recurrent(ctx, w, residual, p, l, st);
    }
    proof {
        reveal(ssm_conv_kept);
        reveal(ssm_gdn_kept);
    }
    let c = make_shape(p, l as u64, 1);
    proof {
        lemma_shape(c);
    }
    let n: u64 = c.l * c.b;
    let x_norm = ctx.alloc_matrix(c.width, n)?;
    ctx.apply2(Op::RmsNorm { eps: p.rms_eps }, residual, w.attn_norm, x_norm, Fence::Own);
    Ok(())
}

/// A recurrent layer depends on memory through its weights and states alone.
pub proof fn lemma_same_ssm<F: Copy>(
    a: Memory<F>,
    m: Memory<F>,
    p: &Qwen35MoeParams<F>,
    w: SsmBlockWeights,
    c: SsmShape,
    st: SsmStates,
    x: Term<F>,
)
    requires
        w.apart(),
        same_weights(a, m),
        st.conv matches Some(r) ==> content(a, r.buffer) == content(m, r.buffer),
        st.gdn matches Some(r) ==> content(a, r.buffer) == content(m, r.buffer),
        st.checkpoint matches Some((g, b)) ==> content(a, g.buffer) == content(m, g.buffer)
            && content(a, b.buffer) == content(m, b.buffer),
        st.checkpoint is None ==> (st.conv is Some <==> st.gdn is Some),
    ensures
        ssm_term(a, p, w, c, st, x) == ssm_term(m, p, w, c, st, x),
        st.conv is Some || st.checkpoint is Some ==> ssm_conv_kept(a, p, w, c, st, x)
            == ssm_conv_kept(m, p, w, c, st, x),
        st.kept() is Some ==> ssm_gdn_kept(a, p, w, c, st, x) == ssm_gdn_kept(
            m,
            p,
            w,
            c,
            st,
            x,
        ),
{
    reveal(ssm_term);
    reveal(ssm_conv_kept);
    reveal(ssm_gdn_kept);
}

} // verus!
