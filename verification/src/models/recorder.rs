//! Recording of device work: the commands of a forward pass in order, and what
//! device memory holds once they have run.
use vstd::prelude::*;

use crate::models::tensor::{
    covers, dense, fits, lemma_size, lemma_size_matrix, matrix, size, Buffer, Dims, GgmlType,
    TensorView,
};

verus! {

/// Rotary embedding parameters.
#[derive(Clone, Copy)]
pub struct RopeParams<F> {
    pub dim: u32,
    pub freq_base: F,
}

/// Multi-section rotary embedding parameters.
#[derive(Clone, Copy)]
pub struct RopeMultiParams<F> {
    pub dim: u32,
    pub freq_base: F,
    pub sections: Dims,
    pub is_imrope: bool,
}

/// Attention parameters.
#[derive(Clone, Copy)]
pub struct FlashAttnParams<F> {
    pub head_dim_k: u32,
    pub head_dim_v: u32,
    pub gqa_ratio: u32,
    pub scale: F,
    /// How many recent keys a query sees; zero for all.
    pub swa_window: u32,
}

/// Element strides of heads, tokens and sequences.
#[derive(Clone, Copy)]
pub struct GdnStrides {
    pub s1: u32,
    pub s2: u32,
    pub s3: u32,
}

/// Shape of a gated delta-net scan.
#[derive(Clone, Copy)]
pub struct GdnParams<F> {
    pub num_v: u32,
    pub num_k: u32,
    pub n_tokens: u32,
    pub n_seqs: u32,
    /// Where the state begins in the output, in elements.
    pub s_off: u32,
    pub scale: F,
    pub q_strides: GdnStrides,
    pub v_strides: GdnStrides,
    pub b_strides: GdnStrides,
    pub s_v: u32,
    pub snapshots: u32,
}

/// Device operations. Operands are named `a`, `b`, ... in this order.
#[derive(Clone, Copy)]
pub enum Op<F> {
    /// Rows of the table `a` by the ids `b`.
    GetRows { rows: u32 },
    /// `a` normalized, times the weight `b`.
    RmsNorm { eps: F },
    /// `a` normalized.
    RmsNormPlain { eps: F },
    /// Matrix `a` times `b`.
    MatMul,
    /// Matrix `a` times `b`, plus `c`.
    MatMulAdd,
    /// Matrix `a` times `b`, the inner sum split.
    MatMulSplitK { parts: u32 },
    /// `a` rotated by the positions `b`.
    Rope { params: RopeParams<F> },
    /// `a` rotated by the positions `b`, halves paired; factors `c`.
    RopeNeox { params: RopeParams<F> },
    /// `a` normalized per head by the weight `c`, rotated by the positions `b`.
    NormRopeMulti { params: RopeMultiParams<F>, eps: F },
    /// As `NormRopeMulti`, written to a cache from a position on.
    NormRopeMultiToCache {
        params: RopeMultiParams<F>,
        eps: F,
        position: u32,
        max_seq_len: u32,
    },
    /// `a` converted, written to a cache from a position on.
    CacheWrite { position: u32 },
    /// `a` as half floats, written to a cache from a position on.
    CacheWriteHalf { position: u32 },
    /// The first tokens of the cache `a`, converted.
    CacheRead { len: u32 },
    /// `a` rotated by the Walsh-Hadamard transform or back.
    Wht { forward: bool },
    /// Attention of the queries `a` over keys `b` and values `c`, mask `d`.
    FlashAttn { params: FlashAttnParams<F>, kv_len: u32 },
    /// Attention whose mask `d` alone decides what is seen.
    FlashAttnMasked { params: FlashAttnParams<F>, kv_len: u32 },
    /// Attention of several sequences, whose lengths and slabs `d` holds.
    FlashAttnBatched { params: FlashAttnParams<F> },
    Add,
    Mul,
    Silu,
    Gelu,
    Tanh,
    Sigmoid,
    Scale { by: F },
    /// `sigmoid(a) * b`.
    SigmoidMul,
    /// `silu(a) * b`.
    SwiGlu,
    /// `gelu` of the first half of `a`, times the second.
    GeGlu,
    L2Norm { eps: F },
    /// Strided copy with conversion.
    Cast,
    /// Raw copy.
    Copy,
    /// Routing weights of the logits `a`.
    TopkWeights { n_experts: u32, n_used: u32, with_norm: bool },
    /// Routed experts of the logits `a`.
    TopkIds { n_experts: u32, n_used: u32, with_norm: bool },
    /// Routing weights `c` times the scales `b` of the experts `a`.
    ExpertWeightScale { n_used: u32, n_experts: u32, n: u32 },
    /// The experts `a` routed by `c`, times `b`.
    MatVecId { dtype: GgmlType, n_used: u32, grouped: Option<u32> },
    /// The down experts `a` routed by `c`, times `b`, summed by the weights `d`.
    MoeDown { dtype: GgmlType, n_used: u32, grouped: Option<u32> },
    /// `a + b + c * sigmoid(d)`.
    MoeResidual { width: u32 },
    /// `softplus(a + b) * c`.
    SsmAlpha { heads: u32 },
    /// Causal convolution of `a` by the kernels `b`, then `silu` on request.
    SsmConv {
        channels: u32,
        n_padded: u32,
        n_tokens: u32,
        n_seqs: u32,
        kernel: u32,
        fuse_silu: bool,
    },
    /// Gated delta-net scan of `a, b, c` with gate `d`, rate `e` and state `f`.
    GatedDeltaNet { params: GdnParams<F> },
    /// `a` normalized per head by the weight `b`, times `silu(c)`.
    SsmNormGate { s_v: u32, num_v: u32, n: u32, eps: F },
    /// Index of the largest of `a`.
    Greedy,
}

/// How a write is made visible to later reads.
#[derive(Clone, Copy, PartialEq, Eq, Structural, Debug)]
pub enum Fence {
    /// Left to a later barrier.
    No,
    /// The written buffer alone.
    Own,
    /// Everything written so far.
    All,
}

/// Operands of an operation.
#[derive(Clone, Copy)]
pub struct Operands {
    pub a: TensorView,
    pub b: Option<TensorView>,
    pub c: Option<TensorView>,
    pub d: Option<TensorView>,
    pub e: Option<TensorView>,
    pub f: Option<TensorView>,
}

/// One recorded command.
pub enum Command<F> {
    /// Reserve scratch for a tensor of this shape, 4 bytes to an element.
    Alloc { dims: Dims },
    /// Release every scratch tensor that a command from this index on reserved.
    Restore { mark: u64 },
    /// Host write of words.
    Words { dst: TensorView, data: Vec<u32> },
    /// Host write of floats.
    Floats { dst: TensorView, data: Vec<F> },
    /// Host write of zeros.
    Zeros { dst: TensorView },
    /// Host write of the lengths, slabs and query counts of several sequences.
    Lengths { dst: TensorView, kv: Vec<u32>, slots: Vec<u32>, queries: Option<Vec<u32>> },
    /// A device operation.
    Apply { op: Op<F>, args: Operands, dst: TensorView, fence: Fence },
    /// Pick experts by their logits: the weights and the ids of the picked.
    Route {
        logits: TensorView,
        weights: TensorView,
        ids: TensorView,
        n_experts: u32,
        n_used: u32,
        with_norm: bool,
    },
    /// Barrier on some buffers.
    Barrier { buffers: Vec<Buffer> },
    /// Barrier on everything.
    BarrierAll,
}

/// All of a view but its buffer.
pub struct Shape {
    pub byte_offset: u64,
    pub byte_size: u64,
    pub dims: Dims,
    pub byte_stride: Dims,
    pub element_stride: Dims,
    pub dtype: GgmlType,
}

/// The shape of a view.
pub open spec fn shape(t: TensorView) -> Shape {
    Shape {
        byte_offset: t.byte_offset,
        byte_size: t.byte_size,
        dims: t.dims,
        byte_stride: t.byte_stride,
        element_stride: t.element_stride,
        dtype: t.dtype,
    }
}

/// What a buffer holds, as a formula over the contents that memory had before
/// the first command.
pub enum Term<F> {
    /// What the buffer held at the start.
    Initial(Buffer),
    /// Reserved and never written.
    Unset,
    Words(Seq<u32>),
    Floats(Seq<F>),
    Zeros,
    Lengths { kv: Seq<u32>, slots: Seq<u32>, queries: Option<Seq<u32>> },
    /// A strided read.
    View(Box<Term<F>>, Shape),
    /// `into`, with what lies under `at` replaced.
    Patch { into: Box<Term<F>>, at: Shape, with: Box<Term<F>> },
    /// The result of an operation.
    Apply(Op<F>, Inputs<F>),
}

/// Operand values.
pub struct Inputs<F> {
    pub a: Box<Term<F>>,
    pub b: Option<Box<Term<F>>>,
    pub c: Option<Box<Term<F>>>,
    pub d: Option<Box<Term<F>>>,
    pub e: Option<Box<Term<F>>>,
    pub f: Option<Box<Term<F>>>,
}

/// Device memory as the recorded commands leave it.
pub struct Memory<F> {
    /// What was written, by buffer; a reserved scratch buffer is always there.
    pub held: Map<Buffer, Term<F>>,
    /// Buffers with a write that no barrier covers yet.
    pub pending: Set<Buffer>,
}

/// What `b` holds.
pub open spec fn content<F>(m: Memory<F>, b: Buffer) -> Term<F> {
    if m.held.contains_key(b) {
        m.held[b]
    } else {
        Term::Initial(b)
    }
}

/// What a read through `t` gives.
pub open spec fn read<F>(m: Memory<F>, t: TensorView) -> Term<F> {
    Term::View(Box::new(content(m, t.buffer)), shape(t))
}

/// The buffer is reserved, if it is scratch.
pub open spec fn reserved<F>(m: Memory<F>, b: Buffer) -> bool {
    b is Scratch ==> m.held.contains_key(b)
}

/// The view can be read: reserved, written, and covered by a barrier.
pub open spec fn readable<F>(m: Memory<F>, t: TensorView) -> bool {
    &&& reserved(m, t.buffer)
    &&& !(content(m, t.buffer) is Unset)
    &&& !m.pending.contains(t.buffer)
}

/// The view can be read, if there is one.
pub open spec fn readable_opt<F>(m: Memory<F>, t: Option<TensorView>) -> bool {
    t matches Some(v) ==> readable(m, v)
}

/// The view can be written: reserved, and with no write outstanding.
pub open spec fn writable<F>(m: Memory<F>, t: TensorView) -> bool {
    reserved(m, t.buffer) && !m.pending.contains(t.buffer)
}

/// No write is outstanding.
pub open spec fn quiet<F>(m: Memory<F>) -> bool {
    forall|b: Buffer| !#[trigger] m.pending.contains(b)
}

/// What a buffer that held `held` holds after `value` is written through `dst`.
pub open spec fn put<F>(held: Term<F>, dst: TensorView, value: Term<F>) -> Term<F> {
    if covers(dst) {
        value
    } else {
        Term::Patch { into: Box::new(held), at: shape(dst), with: Box::new(value) }
    }
}

/// What a buffer holds after `value` is written through `dst`.
pub open spec fn written<F>(m: Memory<F>, dst: TensorView, value: Term<F>) -> Term<F> {
    put(content(m, dst.buffer), dst, value)
}

/// Outstanding writes after one to `b`.
pub open spec fn fenced(pending: Set<Buffer>, b: Buffer, fence: Fence) -> Set<Buffer> {
    match fence {
        Fence::No => pending.insert(b),
        Fence::Own => pending.remove(b),
        Fence::All => Set::empty(),
    }
}

/// Memory after `value` is written through `dst`.
pub open spec fn stored<F>(m: Memory<F>, dst: TensorView, value: Term<F>, fence: Fence) -> Memory<
    F,
> {
    Memory {
        held: m.held.insert(dst.buffer, written(m, dst, value)),
        pending: fenced(m.pending, dst.buffer, fence),
    }
}

/// Memory once the scratch from `mark` on is released.
pub open spec fn released<F>(m: Memory<F>, mark: int) -> Memory<F> {
    Memory {
        held: m.held.remove_keys(Set::new(|b: Buffer| later(b, mark))),
        pending: m.pending.difference(Set::new(|b: Buffer| later(b, mark))),
    }
}

/// Scratch that a command from `mark` on reserved.
pub open spec fn later(b: Buffer, mark: int) -> bool {
    b matches Buffer::Scratch { id, bytes: _ } && id >= mark
}

/// An operand's value, if there is one.
pub open spec fn read_opt<F>(m: Memory<F>, t: Option<TensorView>) -> Option<Box<Term<F>>> {
    match t {
        Some(v) => Some(Box::new(read(m, v))),
        None => None,
    }
}

/// Operand values.
pub open spec fn inputs<F>(m: Memory<F>, args: Operands) -> Inputs<F> {
    Inputs {
        a: Box::new(read(m, args.a)),
        b: read_opt(m, args.b),
        c: read_opt(m, args.c),
        d: read_opt(m, args.d),
        e: read_opt(m, args.e),
        f: read_opt(m, args.f),
    }
}

/// Every operand can be read.
pub open spec fn all_readable<F>(m: Memory<F>, args: Operands) -> bool {
    &&& readable(m, args.a)
    &&& readable_opt(m, args.b)
    &&& readable_opt(m, args.c)
    &&& readable_opt(m, args.d)
    &&& readable_opt(m, args.e)
    &&& readable_opt(m, args.f)
}

/// The value of an operation on one term.
pub open spec fn op1<F>(op: Op<F>, a: Term<F>) -> Term<F> {
    Term::Apply(op, Inputs { a: Box::new(a), b: None, c: None, d: None, e: None, f: None })
}

/// The value of an operation on two terms.
pub open spec fn op2<F>(op: Op<F>, a: Term<F>, b: Term<F>) -> Term<F> {
    Term::Apply(
        op,
        Inputs { a: Box::new(a), b: Some(Box::new(b)), c: None, d: None, e: None, f: None },
    )
}

/// The value of an operation on three terms.
pub open spec fn op3<F>(op: Op<F>, a: Term<F>, b: Term<F>, c: Term<F>) -> Term<F> {
    Term::Apply(
        op,
        Inputs {
            a: Box::new(a),
            b: Some(Box::new(b)),
            c: Some(Box::new(c)),
            d: None,
            e: None,
            f: None,
        },
    )
}

/// The value of an operation on four terms.
pub open spec fn op4<F>(op: Op<F>, a: Term<F>, b: Term<F>, c: Term<F>, d: Term<F>) -> Term<F> {
    Term::Apply(
        op,
        Inputs {
            a: Box::new(a),
            b: Some(Box::new(b)),
            c: Some(Box::new(c)),
            d: Some(Box::new(d)),
            e: None,
            f: None,
        },
    )
}

/// The value of an operation on three terms and perhaps a fourth.
pub open spec fn op3_opt<F>(
    op: Op<F>,
    a: Term<F>,
    b: Term<F>,
    c: Term<F>,
    d: Option<Term<F>>,
) -> Term<F> {
    match d {
        Some(t) => op4(op, a, b, c, t),
        None => op3(op, a, b, c),
    }
}

/// The value of an operation on two terms and perhaps a third.
pub open spec fn op2_opt<F>(op: Op<F>, a: Term<F>, b: Term<F>, c: Option<Term<F>>) -> Term<F> {
    match c {
        Some(t) => op3(op, a, b, t),
        None => op2(op, a, b),
    }
}

/// The value of an operation on six terms.
pub open spec fn op6<F>(
    op: Op<F>,
    a: Term<F>,
    b: Term<F>,
    c: Term<F>,
    d: Term<F>,
    e: Term<F>,
    f: Term<F>,
) -> Term<F> {
    Term::Apply(
        op,
        Inputs {
            a: Box::new(a),
            b: Some(Box::new(b)),
            c: Some(Box::new(c)),
            d: Some(Box::new(d)),
            e: Some(Box::new(e)),
            f: Some(Box::new(f)),
        },
    )
}

/// `value` read back from a scratch tensor of its own with these extents.
pub open spec fn fresh<F>(value: Term<F>, d: Dims) -> Term<F> {
    Term::View(Box::new(value), shape(dense(Buffer::Scratch { id: 0, bytes: 0 }, d)))
}

/// `value` read back through `t`.
pub open spec fn through<F>(value: Term<F>, t: TensorView) -> Term<F> {
    Term::View(Box::new(value), shape(t))
}

/// Memory after one command, which is the one with index `at`.
pub open spec fn effect<F>(c: Command<F>, at: int, m: Memory<F>) -> Memory<F> {
    match c {
        Command::Alloc { dims } => Memory {
            held: m.held.insert(
                Buffer::Scratch {
                    id: at as u64,
                    bytes: (4 * dims.d0 * dims.d1 * dims.d2 * dims.d3) as u64,
                },
                Term::Unset,
            ),
            pending: m.pending,
        },
        Command::Restore { mark } => released(m, mark as int),
        Command::Words { dst, data } => stored(m, dst, Term::Words(data@), Fence::Own),
        Command::Floats { dst, data } => stored(m, dst, Term::Floats(data@), Fence::Own),
        Command::Zeros { dst } => stored(m, dst, Term::Zeros, Fence::Own),
        Command::Lengths { dst, kv, slots, queries } => stored(
            m,
            dst,
            Term::Lengths {
                kv: kv@,
                slots: slots@,
                queries: match queries {
                    Some(q) => Some(q@),
                    None => None,
                },
            },
            Fence::Own,
        ),
        Command::Apply { op, args, dst, fence } => stored(
            m,
            dst,
            Term::Apply(op, inputs(m, args)),
            fence,
        ),
        Command::Route { logits, weights, ids, n_experts, n_used, with_norm } => stored(
            stored(
                m,
                weights,
                op1(Op::TopkWeights { n_experts, n_used, with_norm }, read(m, logits)),
                Fence::Own,
            ),
            ids,
            op1(Op::TopkIds { n_experts, n_used, with_norm }, read(m, logits)),
            Fence::Own,
        ),
        Command::Barrier { buffers } => Memory {
            held: m.held,
            pending: m.pending.difference(buffers@.to_set()),
        },
        Command::BarrierAll => Memory { held: m.held, pending: Set::empty() },
    }
}

/// Memory after all commands have run.
pub open spec fn run<F>(commands: Seq<Command<F>>) -> Memory<F>
    decreases commands.len(),
{
    if commands.len() == 0 {
        Memory { held: Map::empty(), pending: Set::empty() }
    } else {
        effect(commands.last(), commands.len() - 1, run(commands.drop_last()))
    }
}

/// Why a forward pass could not be recorded.
#[derive(Clone, Copy, Debug)]
pub enum RecordError {
    /// A tensor does not fit the scratch region.
    ScratchExhausted,
    /// There is nothing to process.
    EmptyPrompt,
    /// The cache does not stand where the caller says.
    PositionMismatch { cached: u32, given: u32 },
    /// The batch is empty.
    EmptyBatch,
    /// The batch's lists differ in length.
    LengthMismatch,
    /// The batch's lengths do not add up to its tokens.
    LengthSum,
    /// An image reaches past its chunk.
    SpliceOverrun,
    /// The image columns are not whole embeddings of every image token.
    ImageColumns,
    /// The expert weights have a type that no kernel takes.
    ExpertType(GgmlType),
    /// The canvas is empty.
    EmptyCanvas,
    /// Self-conditioning was asked of a model without its weights.
    NoSelfConditioning,
    /// The transposed embedding was not built.
    NoTransposedEmbedding,
    /// The probabilities do not cover the canvas.
    ProbabilityLength,
    /// The draft head is not loaded.
    NoDraftHead,
    /// The hidden state has the wrong length.
    HiddenLength,
    /// The model does not support the request.
    Unsupported(&'static str),
}

/// Records the commands of forward passes.
pub struct DispatchContext<F> {
    pub commands: Vec<Command<F>>,
    /// Size of the scratch region in bytes.
    pub region: u64,
    /// Bytes of it that are handed out. Tensors lie one behind the other, and
    /// are given back together. Padding between them, and scratch that a kernel
    /// takes for itself, are not counted.
    pub used: u64,
    /// Where a replay writes its inputs, if the recording is kept for one.
    pub replay: Option<ReplayPlan>,
}

/// Where a recorded decode pass keeps its inputs, and how far positions lag.
#[derive(Clone, Copy)]
pub struct ReplayPlan {
    pub token_buf_offset: Option<u64>,
    pub positions_buf_offset: Option<u64>,
    pub rope_position_lag: u32,
}

/// A stretch that reserves `n` bytes succeeds exactly where they are left, and
/// keeps them.
pub open spec fn spends<F>(
    before: &DispatchContext<F>,
    after: &DispatchContext<F>,
    ok: bool,
    n: nat,
) -> bool {
    &&& ok <==> before.used + n <= before.region
    &&& ok ==> after.used == before.used + n
}

impl<F: Copy> DispatchContext<F> {
    /// Index of the next command.
    pub open spec fn at(&self) -> int {
        self.commands@.len() as int
    }

    /// Device memory once the recorded commands have run.
    pub open spec fn memory(&self) -> Memory<F> {
        run(self.commands@)
    }

    /// The scratch buffer was reserved by one of the recorded commands.
    pub open spec fn known(&self, b: Buffer) -> bool {
        b matches Buffer::Scratch { id, bytes: _ } ==> id < self.at()
    }

    /// An empty recording over a scratch region of `region` bytes.
    pub fn new(region: u64) -> (r: Self)
        ensures
            r.region == region,
            r.used == 0,
            r.replay is None,
            r.at() == 0,
            quiet(r.memory()),
            forall|b: Buffer| #[trigger] content(r.memory(), b) == Term::<F>::Initial(b),
    {
        DispatchContext { commands: Vec::new(), region, used: 0, replay: None }
    }

    /// Append a command.
    fn push(&mut self, c: Command<F>)
        ensures
            final(self).region == old(self).region,
            final(self).replay == old(self).replay,
            final(self).used == old(self).used,
            final(self).at() == old(self).at() + 1,
            final(self).memory() == effect(c, old(self).at(), old(self).memory()),
    {
        self.commands.push(c);
        assert(self.commands@.drop_last() =~= old(self).commands@);
    }

    /// Reserve a scratch tensor of 4-byte elements.
    pub fn alloc_tensor(&mut self, dims: Dims) -> (r: Result<TensorView, RecordError>)
        ensures
            final(self).region == old(self).region,
            final(self).replay == old(self).replay,
            r is Ok <==> fits(old(self).region, dims) && old(self).used + size(dims) <= old(
                self,
            ).region,
            r is Ok ==> final(self).used == old(self).used + size(dims),
            r is Err ==> final(self).memory() == old(self).memory() && final(self).at() == old(
                self,
            ).at() && final(self).used == old(self).used,
            r matches Err(e) ==> e is ScratchExhausted,
            r matches Ok(t) ==> {
                &&& t == dense(
                    Buffer::Scratch {
                        id: old(self).at() as u64,
                        bytes: (4 * dims.d0 * dims.d1 * dims.d2 * dims.d3) as u64,
                    },
                    dims,
                )
                &&& t.buffer matches Buffer::Scratch { id, bytes: _ } && id == old(self).at()
                &&& covers(t)
                &&& final(self).at() == old(self).at() + 1
                &&& final(self).memory().held == old(self).memory().held.insert(
                    t.buffer,
                    Term::Unset,
                )
                &&& final(self).memory().pending == old(self).memory().pending
            },
    {
        proof {
            lemma_size(self.region, dims);
        }
        let s1: u64 = match 4u64.checked_mul(dims.d0) {
            Some(v) => v,
            None => {
                return Err(RecordError::ScratchExhausted);
            },
        };
        let s2: u64 = match s1.checked_mul(dims.d1) {
            Some(v) => v,
            None => {
                return Err(RecordError::ScratchExhausted);
            },
        };
        let s3: u64 = match s2.checked_mul(dims.d2) {
            Some(v) => v,
            None => {
                return Err(RecordError::ScratchExhausted);
            },
        };
        let bytes: u64 = match s3.checked_mul(dims.d3) {
            Some(v) => v,
            None => {
                return Err(RecordError::ScratchExhausted);
            },
        };
        if s1 > self.region || s2 > self.region || s3 > self.region {
            return Err(RecordError::ScratchExhausted);
        }
        let end: u64 = match self.used.checked_add(bytes) {
            Some(v) => v,
            None => {
                return Err(RecordError::ScratchExhausted);
            },
        };
        if end > self.region {
            return Err(RecordError::ScratchExhausted);
        }
        proof {
            assert(dims.d0 * dims.d1 <= 4 * dims.d0 * dims.d1) by (nonlinear_arith);
            assert(dims.d0 * dims.d1 * dims.d2 <= 4 * dims.d0 * dims.d1 * dims.d2)
                by (nonlinear_arith)
                requires
                    dims.d0 * dims.d1 >= 0,
            ;
            assert(1 * dims.d0 * dims.d1 == dims.d0 * dims.d1);
            assert(1 * dims.d0 * dims.d1 * dims.d2 == dims.d0 * dims.d1 * dims.d2);
        }
        let id: u64 = self.commands.len() as u64;
        self.push(Command::Alloc { dims });
        self.used = end;
        Ok(
            TensorView {
                buffer: Buffer::Scratch { id, bytes },
                byte_offset: 0,
                byte_size: bytes,
                dims,
                byte_stride: Dims { d0: 4, d1: s1, d2: s2, d3: s3 },
                element_stride: Dims {
                    d0: 1,
                    d1: dims.d0,
                    d2: dims.d0 * dims.d1,
                    d3: dims.d0 * dims.d1 * dims.d2,
                },
                dtype: GgmlType::F32,
            },
        )
    }

    /// Reserve a scratch matrix.
    pub fn alloc_matrix(&mut self, width: u64, columns: u64) -> (r: Result<TensorView, RecordError>)
        requires
            columns >= 1,
        ensures
            final(self).region == old(self).region,
            final(self).replay == old(self).replay,
            spends(old(self), final(self), r is Ok, size(matrix(width, columns))),
            size(matrix(width, columns)) == 4 * width * columns,
            r is Ok ==> 4 * width * columns <= old(self).region,
            r is Err ==> final(self).memory() == old(self).memory() && final(self).at() == old(
                self,
            ).at() && final(self).used == old(self).used,
            r matches Err(e) ==> e is ScratchExhausted,
            r matches Ok(t) ==> {
                &&& t == dense(
                    Buffer::Scratch {
                        id: old(self).at() as u64,
                        bytes: (4 * width * columns) as u64,
                    },
                    matrix(width, columns),
                )
                &&& t.buffer matches Buffer::Scratch { id, bytes: _ } && id == old(self).at()
                &&& covers(t)
                &&& final(self).at() == old(self).at() + 1
                &&& final(self).memory().held == old(self).memory().held.insert(
                    t.buffer,
                    Term::Unset,
                )
                &&& final(self).memory().pending == old(self).memory().pending
            },
    {
        proof {
            crate::models::tensor::lemma_matrix_fits(self.region, width, columns);
            lemma_size_matrix(width, columns);
            assert(4 * width * columns * 1 * 1 == 4 * width * columns);
        }
        self.alloc_tensor(Dims { d0: width, d1: columns, d2: 1, d3: 1 })
    }

    /// Release every scratch tensor that was reserved from `mark` on, when `used`
    /// bytes were handed out.
    pub fn scratch_restore(&mut self, mark: u64, used: u64)
        ensures
            final(self).region == old(self).region,
            final(self).replay == old(self).replay,
            final(self).used == used,
            final(self).at() == old(self).at() + 1,
            final(self).memory() == released(old(self).memory(), mark as int),
    {
        self.push(Command::Restore { mark });
        self.used = used;
    }

    /// The index that `scratch_restore` takes to come back here.
    pub fn scratch_checkpoint(&self) -> (r: u64)
        ensures
            r == self.at(),
    {
        self.commands.len() as u64
    }

    /// Host write of words.
    pub fn write_u32(&mut self, dst: TensorView, data: &[u32])
        requires
            writable(old(self).memory(), dst),
        ensures
            final(self).region == old(self).region,
            final(self).replay == old(self).replay,
            final(self).used == old(self).used,
            final(self).at() == old(self).at() + 1,
            final(self).memory() == stored(
                old(self).memory(),
                dst,
                Term::Words(data@),
                Fence::Own,
            ),
    {
        let copy = vstd::slice::slice_to_vec(data);
        self.push(Command::Words { dst, data: copy });
    }

    /// Host write of floats.
    pub fn write_f32(&mut self, dst: TensorView, data: &[F])
        requires
            writable(old(self).memory(), dst),
        ensures
            final(self).region == old(self).region,
            final(self).replay == old(self).replay,
            final(self).used == old(self).used,
            final(self).at() == old(self).at() + 1,
            final(self).memory() == stored(
                old(self).memory(),
                dst,
                Term::Floats(data@),
                Fence::Own,
            ),
    {
        let mut copy: Vec<F> = Vec::new();
        let mut i: usize = 0;
        while i < data.len()
            invariant
                i <= data@.len(),
                copy@.len() == i,
                forall|k: int| 0 <= k < i ==> copy@[k] == data@[k],
            decreases data@.len() - i,
        {
            copy.push(data[i]);
            i += 1;
        }
        assert(copy@ =~= data@);
        self.push(Command::Floats { dst, data: copy });
    }

    /// Host write of zeros.
    pub fn write_zeros(&mut self, dst: TensorView)
        requires
            writable(old(self).memory(), dst),
        ensures
            final(self).region == old(self).region,
            final(self).replay == old(self).replay,
            final(self).used == old(self).used,
            final(self).at() == old(self).at() + 1,
            final(self).memory() == stored(old(self).memory(), dst, Term::Zeros, Fence::Own),
    {
        self.push(Command::Zeros { dst });
    }

    /// Host write of the lengths of several sequences.
    pub fn write_lengths(
        &mut self,
        dst: TensorView,
        kv: &[u32],
        slots: &[u32],
        queries: Option<&[u32]>,
    )
        requires
            writable(old(self).memory(), dst),
        ensures
            final(self).region == old(self).region,
            final(self).replay == old(self).replay,
            final(self).used == old(self).used,
            final(self).at() == old(self).at() + 1,
            final(self).memory() == stored(
                old(self).memory(),
                dst,
                Term::Lengths {
                    kv: kv@,
                    slots: slots@,
                    queries: match queries {
                        Some(q) => Some(q@),
                        None => None,
                    },
                },
                Fence::Own,
            ),
    {
        let q: Option<Vec<u32>> = match queries {
            Some(q) => Some(vstd::slice::slice_to_vec(q)),
            None => None,
        };
        let kv_copy = vstd::slice::slice_to_vec(kv);
        let slots_copy = vstd::slice::slice_to_vec(slots);
        self.push(Command::Lengths { dst, kv: kv_copy, slots: slots_copy, queries: q });
    }

    /// A device operation. Its operands are fenced writes.
    pub fn apply(&mut self, op: Op<F>, args: Operands, dst: TensorView, fence: Fence)
        requires
            all_readable(old(self).memory(), args),
            writable(old(self).memory(), dst),
        ensures
            final(self).region == old(self).region,
            final(self).replay == old(self).replay,
            final(self).used == old(self).used,
            final(self).at() == old(self).at() + 1,
            final(self).memory() == stored(
                old(self).memory(),
                dst,
                Term::Apply(op, inputs(old(self).memory(), args)),
                fence,
            ),
    {
        self.push(Command::Apply { op, args, dst, fence });
    }

    /// Pick experts by their logits.
    pub fn route(
        &mut self,
        logits: TensorView,
        weights: TensorView,
        ids: TensorView,
        n_experts: u32,
        n_used: u32,
        with_norm: bool,
    )
        requires
            readable(old(self).memory(), logits),
            writable(old(self).memory(), weights),
            writable(old(self).memory(), ids),
            weights.buffer != ids.buffer,
            weights.buffer != logits.buffer,
            ids.buffer != logits.buffer,
        ensures
            final(self).region == old(self).region,
            final(self).replay == old(self).replay,
            final(self).used == old(self).used,
            final(self).at() == old(self).at() + 1,
            final(self).memory() == stored(
                stored(
                    old(self).memory(),
                    weights,
                    op1(
                        Op::TopkWeights { n_experts, n_used, with_norm },
                        read(old(self).memory(), logits),
                    ),
                    Fence::Own,
                ),
                ids,
                op1(
                    Op::TopkIds { n_experts, n_used, with_norm },
                    read(old(self).memory(), logits),
                ),
                Fence::Own,
            ),
    {
        self.push(Command::Route { logits, weights, ids, n_experts, n_used, with_norm });
    }

    /// A raw copy that a later barrier covers. Several copies to parts of one
    /// buffer may be outstanding together.
    pub fn copy_part(&mut self, src: TensorView, dst: TensorView)
        requires
            readable(old(self).memory(), src),
            reserved(old(self).memory(), dst.buffer),
        ensures
            final(self).region == old(self).region,
            final(self).replay == old(self).replay,
            final(self).used == old(self).used,
            final(self).at() == old(self).at() + 1,
            final(self).memory() == stored(
                old(self).memory(),
                dst,
                op1(Op::Copy, read(old(self).memory(), src)),
                Fence::No,
            ),
    {
        self.push(
            Command::Apply {
                op: Op::Copy,
                args: Operands { a: src, b: None, c: None, d: None, e: None, f: None },
                dst,
                fence: Fence::No,
            },
        );
    }

    /// A device operation on one tensor.
    pub fn apply1(&mut self, op: Op<F>, a: TensorView, dst: TensorView, fence: Fence)
        requires
            readable(old(self).memory(), a),
            writable(old(self).memory(), dst),
        ensures
            final(self).region == old(self).region,
            final(self).replay == old(self).replay,
            final(self).used == old(self).used,
            final(self).at() == old(self).at() + 1,
            final(self).memory() == stored(
                old(self).memory(),
                dst,
                op1(op, read(old(self).memory(), a)),
                fence,
            ),
    {
        self.apply(op, Operands { a, b: None, c: None, d: None, e: None, f: None }, dst, fence);
    }

    /// A device operation on two tensors.
    pub fn apply2(&mut self, op: Op<F>, a: TensorView, b: TensorView, dst: TensorView, fence: Fence)
        requires
            readable(old(self).memory(), a),
            readable(old(self).memory(), b),
            writable(old(self).memory(), dst),
        ensures
            final(self).region == old(self).region,
            final(self).replay == old(self).replay,
            final(self).used == old(self).used,
            final(self).at() == old(self).at() + 1,
            final(self).memory() == stored(
                old(self).memory(),
                dst,
                op2(op, read(old(self).memory(), a), read(old(self).memory(), b)),
                fence,
            ),
    {
        self.apply(op, Operands { a, b: Some(b), c: None, d: None, e: None, f: None }, dst, fence);
    }

    /// A device operation on three tensors.
    pub fn apply3(
        &mut self,
        op: Op<F>,
        a: TensorView,
        b: TensorView,
        c: TensorView,
        dst: TensorView,
        fence: Fence,
    )
        requires
            readable(old(self).memory(), a),
            readable(old(self).memory(), b),
            readable(old(self).memory(), c),
            writable(old(self).memory(), dst),
        ensures
            final(self).region == old(self).region,
            final(self).replay == old(self).replay,
            final(self).used == old(self).used,
            final(self).at() == old(self).at() + 1,
            final(self).memory() == stored(
                old(self).memory(),
                dst,
                op3(
                    op,
                    read(old(self).memory(), a),
                    read(old(self).memory(), b),
                    read(old(self).memory(), c),
                ),
                fence,
            ),
    {
        self.apply(
            op,
            Operands { a, b: Some(b), c: Some(c), d: None, e: None, f: None },
            dst,
            fence,
        );
    }

    /// A device operation on two tensors and perhaps a third.
    pub fn apply2_opt(
        &mut self,
        op: Op<F>,
        a: TensorView,
        b: TensorView,
        c: Option<TensorView>,
        dst: TensorView,
        fence: Fence,
    )
        requires
            readable(old(self).memory(), a),
            readable(old(self).memory(), b),
            readable_opt(old(self).memory(), c),
            writable(old(self).memory(), dst),
        ensures
            final(self).region == old(self).region,
            final(self).replay == old(self).replay,
            final(self).used == old(self).used,
            final(self).at() == old(self).at() + 1,
            final(self).memory() == stored(
                old(self).memory(),
                dst,
                op2_opt(
                    op,
                    read(old(self).memory(), a),
                    read(old(self).memory(), b),
                    match c {
                        Some(t) => Some(read(old(self).memory(), t)),
                        None => None,
                    },
                ),
                fence,
            ),
    {
        self.apply(op, Operands { a, b: Some(b), c, d: None, e: None, f: None }, dst, fence);
    }

    /// A device operation on three tensors and perhaps a fourth.
    pub fn apply3_opt(
        &mut self,
        op: Op<F>,
        a: TensorView,
        b: TensorView,
        c: TensorView,
        d: Option<TensorView>,
        dst: TensorView,
        fence: Fence,
    )
        requires
            readable(old(self).memory(), a),
            readable(old(self).memory(), b),
            readable(old(self).memory(), c),
            readable_opt(old(self).memory(), d),
            writable(old(self).memory(), dst),
        ensures
            final(self).region == old(self).region,
            final(self).replay == old(self).replay,
            final(self).used == old(self).used,
            final(self).at() == old(self).at() + 1,
            final(self).memory() == stored(
                old(self).memory(),
                dst,
                op3_opt(
                    op,
                    read(old(self).memory(), a),
                    read(old(self).memory(), b),
                    read(old(self).memory(), c),
                    match d {
                        Some(t) => Some(read(old(self).memory(), t)),
                        None => None,
                    },
                ),
                fence,
            ),
    {
        self.apply(op, Operands { a, b: Some(b), c: Some(c), d, e: None, f: None }, dst, fence);
    }

    /// A device operation on six tensors.
    pub fn apply6(
        &mut self,
        op: Op<F>,
        a: TensorView,
        b: TensorView,
        c: TensorView,
        d: TensorView,
        e: TensorView,
        f: TensorView,
        dst: TensorView,
        fence: Fence,
    )
        requires
            readable(old(self).memory(), a),
            readable(old(self).memory(), b),
            readable(old(self).memory(), c),
            readable(old(self).memory(), d),
            readable(old(self).memory(), e),
            readable(old(self).memory(), f),
            writable(old(self).memory(), dst),
        ensures
            final(self).region == old(self).region,
            final(self).replay == old(self).replay,
            final(self).used == old(self).used,
            final(self).at() == old(self).at() + 1,
            final(self).memory() == stored(
                old(self).memory(),
                dst,
                op6(
                    op,
                    read(old(self).memory(), a),
                    read(old(self).memory(), b),
                    read(old(self).memory(), c),
                    read(old(self).memory(), d),
                    read(old(self).memory(), e),
                    read(old(self).memory(), f),
                ),
                fence,
            ),
    {
        self.apply(
            op,
            Operands { a, b: Some(b), c: Some(c), d: Some(d), e: Some(e), f: Some(f) },
            dst,
            fence,
        );
    }

    /// Barrier on two buffers.
    pub fn barrier2(&mut self, a: TensorView, b: TensorView)
        ensures
            final(self).region == old(self).region,
            final(self).replay == old(self).replay,
            final(self).used == old(self).used,
            final(self).at() == old(self).at() + 1,
            final(self).memory().held == old(self).memory().held,
            final(self).memory().pending == old(self).memory().pending.remove(a.buffer).remove(
                b.buffer,
            ),
    {
        let buffers: Vec<Buffer> = vec![a.buffer, b.buffer];
        proof {
            let s = buffers@;
            assert(s[0] == a.buffer && s[1] == b.buffer && s.len() == 2);
            assert(self.memory().pending.difference(s.to_set())
                =~= self.memory().pending.remove(a.buffer).remove(b.buffer)) by {
                assert forall|x: Buffer| #[trigger] s.to_set().contains(x) <==> x == a.buffer || x
                    == b.buffer by {
                    if x == a.buffer {
                        assert(s.contains(s[0]));
                    }
                    if x == b.buffer {
                        assert(s.contains(s[1]));
                    }
                }
            }
        }
        self.push(Command::Barrier { buffers });
    }

    /// Barrier on one buffer.
    pub fn barrier1(&mut self, a: TensorView)
        ensures
            final(self).region == old(self).region,
            final(self).replay == old(self).replay,
            final(self).used == old(self).used,
            final(self).at() == old(self).at() + 1,
            final(self).memory().held == old(self).memory().held,
            final(self).memory().pending == old(self).memory().pending.remove(a.buffer),
    {
        let buffers: Vec<Buffer> = vec![a.buffer];
        proof {
            let s = buffers@;
            assert(s[0] == a.buffer && s.len() == 1);
            assert(self.memory().pending.difference(s.to_set())
                =~= self.memory().pending.remove(a.buffer)) by {
                assert forall|x: Buffer| #[trigger] s.to_set().contains(x) <==> x == a.buffer by {
                    if x == a.buffer {
                        assert(s.contains(s[0]));
                    }
                }
            }
        }
        self.push(Command::Barrier { buffers });
    }

    /// Barrier on three buffers.
    pub fn barrier3(&mut self, a: TensorView, b: TensorView, c: TensorView)
        ensures
            final(self).region == old(self).region,
            final(self).replay == old(self).replay,
            final(self).used == old(self).used,
            final(self).at() == old(self).at() + 1,
            final(self).memory().held == old(self).memory().held,
            final(self).memory().pending == old(self).memory().pending.remove(a.buffer).remove(
                b.buffer,
            ).remove(c.buffer),
    {
        let buffers: Vec<Buffer> = vec![a.buffer, b.buffer, c.buffer];
        proof {
            let s = buffers@;
            assert(s[0] == a.buffer && s[1] == b.buffer && s[2] == c.buffer && s.len() == 3);
            assert(self.memory().pending.difference(s.to_set())
                =~= self.memory().pending.remove(a.buffer).remove(b.buffer).remove(c.buffer)) by {
                assert forall|x: Buffer| #[trigger] s.to_set().contains(x) <==> x == a.buffer || x
                    == b.buffer || x == c.buffer by {
                    if x == a.buffer {
                        assert(s.contains(s[0]));
                    }
                    if x == b.buffer {
                        assert(s.contains(s[1]));
                    }
                    if x == c.buffer {
                        assert(s.contains(s[2]));
                    }
                }
            }
        }
        self.push(Command::Barrier { buffers });
    }

    /// Barrier on four buffers.
    pub fn barrier4(&mut self, a: TensorView, b: TensorView, c: TensorView, d: TensorView)
        ensures
            final(self).region == old(self).region,
            final(self).replay == old(self).replay,
            final(self).used == old(self).used,
            final(self).at() == old(self).at() + 1,
            final(self).memory().held == old(self).memory().held,
            final(self).memory().pending == old(self).memory().pending.remove(a.buffer).remove(
                b.buffer,
            ).remove(c.buffer).remove(d.buffer),
    {
        let buffers: Vec<Buffer> = vec![a.buffer, b.buffer, c.buffer, d.buffer];
        proof {
            let s = buffers@;
            assert(s[0] == a.buffer && s[1] == b.buffer && s[2] == c.buffer && s[3] == d.buffer
                && s.len() == 4);
            assert(self.memory().pending.difference(s.to_set())
                =~= self.memory().pending.remove(a.buffer).remove(b.buffer).remove(c.buffer).remove(
                d.buffer,
            )) by {
                assert forall|x: Buffer| #[trigger] s.to_set().contains(x) <==> x == a.buffer || x
                    == b.buffer || x == c.buffer || x == d.buffer by {
                    if x == a.buffer {
                        assert(s.contains(s[0]));
                    }
                    if x == b.buffer {
                        assert(s.contains(s[1]));
                    }
                    if x == c.buffer {
                        assert(s.contains(s[2]));
                    }
                    if x == d.buffer {
                        assert(s.contains(s[3]));
                    }
                }
            }
        }
        self.push(Command::Barrier { buffers });
    }

    /// Barrier on everything.
    pub fn barrier_all(&mut self)
        ensures
            final(self).region == old(self).region,
            final(self).replay == old(self).replay,
            final(self).used == old(self).used,
            final(self).at() == old(self).at() + 1,
            final(self).memory().held == old(self).memory().held,
            quiet(final(self).memory()),
    {
        self.push(Command::BarrierAll);
    }
}

} // verus!
