//! Where the recurrent layers' tensors lie.
use vstd::prelude::*;

use crate::models::qwen35_ssm::{scan_params, ssm_shape, SsmShape};
use crate::models::qwen35_weights::Qwen35MoeParams;
use crate::models::tensor::{address, dense, matrix, Buffer, BufferRange, Dims, TensorView};

verus! {

/// The element at `(i0, i1, i2)` lies where the three strides lead.
proof fn lemma_three_strides(t: TensorView, i0: int, i1: int, i2: int, s0: int, s1: int, s2: int)
    requires
        t.byte_stride.d0 == 4 * s0,
        t.byte_stride.d1 == 4 * s1,
        t.byte_stride.d2 == 4 * s2,
    ensures
        address(t, i0, i1, i2, 0) == t.byte_offset + 4 * (i0 * s0 + i1 * s1 + i2 * s2),
{
    assert(i0 * (4 * s0) == 4 * (i0 * s0)) by (nonlinear_arith);
    assert(i1 * (4 * s1) == 4 * (i1 * s1)) by (nonlinear_arith);
    assert(i2 * (4 * s2) == 4 * (i2 * s2)) by (nonlinear_arith);
}

/// Sizes of the convolution's input are within its bytes.
proof fn lemma_input_sizes(c: SsmShape)
    requires
        c.wf(),
        c.conv_bytes() <= u64::MAX,
    ensures
        1 <= c.channels(),
        0 <= 4 * c.padded() <= c.conv_bytes(),
        0 <= 4 * (c.padded() * c.channels()) <= c.conv_bytes(),
{
    let p = c.padded();
    let ch = c.channels();
    assert(c.num_k * c.s_v >= 1 && c.num_v * c.s_v >= 1) by (nonlinear_arith)
        requires
            c.num_k >= 1,
            c.num_v >= 1,
            c.s_v >= 1,
    ;
    assert(4 * p <= 4 * p * ch) by (nonlinear_arith)
        requires
            p >= 0,
            ch >= 1,
    ;
    assert(4 * (p * ch) == 4 * p * ch) by (nonlinear_arith);
    assert(4 * p * ch <= 4 * p * ch * c.b) by (nonlinear_arith)
        requires
            4 * p * ch >= 0,
            c.b >= 1,
    ;
}

/// The convolution reads, channel by channel, the inputs before the first token and
/// then those of the pass; what it keeps are the last of both.
pub proof fn law_inputs_follow_those_kept(
    c: SsmShape,
    buffer: Buffer,
    token: int,
    channel: int,
    s: int,
)
    requires
        c.wf(),
        c.conv_bytes() <= u64::MAX,
    ensures
        ({
            let row = (s * c.channels() + channel) * c.padded();
            &&& address(c.prefix(buffer), token, channel, s, 0) == 4 * (row + token)
            &&& address(c.tail(buffer), token, channel, s, 0) == 4 * (row + (c.kernel - 1) + token)
            &&& address(c.last(buffer), token, channel, s, 0) == 4 * (row + c.l + token)
            &&& c.prefix(buffer).dims.d0 == c.kernel - 1
            &&& c.tail(buffer).dims.d0 == c.l
            &&& c.last(buffer).dims.d0 == c.kernel - 1
            &&& c.padded() == c.kernel - 1 + c.l
        }),
{
    lemma_input_sizes(c);
    let p = c.padded();
    let ch = c.channels();
    lemma_three_strides(c.prefix(buffer), token, channel, s, 1, p, p * ch);
    lemma_three_strides(c.tail(buffer), token, channel, s, 1, p, p * ch);
    lemma_three_strides(c.last(buffer), token, channel, s, 1, p, p * ch);
    assert((s * ch + channel) * p == channel * p + s * (p * ch)) by (nonlinear_arith);
}

/// A convolution state holds the kept inputs channel by channel, sequence after
/// sequence.
pub proof fn law_states_hold_channels(
    c: SsmShape,
    r: BufferRange,
    tap: int,
    channel: int,
    s: int,
)
    requires
        c.wf(),
    ensures
        address(c.conv_state(r), tap, channel, s, 0) == r.offset + 4 * ((s * c.channels() + channel)
            * (c.kernel - 1) + tap),
        c.conv_state(r).buffer == r.buffer,
{
    let k1 = c.kernel - 1;
    let ch = c.channels();
    assert(0 <= k1 * ch) by (nonlinear_arith)
        requires
            k1 >= 0,
            ch >= 0,
    ;
    assert(0 <= ch) by {
        assert(0 <= c.num_k * c.s_v && 0 <= c.num_v * c.s_v) by (nonlinear_arith);
    }
    lemma_three_strides(c.conv_state(r), tap, channel, s, 1, k1, k1 * ch);
    assert((s * ch + channel) * k1 == channel * k1 + s * (k1 * ch)) by (nonlinear_arith);
}

/// The convolution's inputs are the projections of the tokens, and its outputs hold
/// for each token the query heads, the key heads and the value heads, one behind the
/// other.
pub proof fn law_tokens_have_queries_keys_and_values(
    c: SsmShape,
    buffer: Buffer,
    d: int,
    head: int,
    token: int,
    s: int,
    channel: int,
    first: int,
    heads: u64,
)
    requires
        c.wf(),
        4 * c.channels() * c.l * c.b <= u64::MAX,
        0 <= first,
        4 * first <= u64::MAX,
    ensures
        address(c.by_token(buffer), token, channel, s, 0) == 4 * ((s * c.l + token) * c.channels()
            + channel),
        address(c.heads(buffer, first, heads), d, head, token, s) == 4 * ((s * c.l + token)
            * c.channels() + first + head * c.s_v + d),
        c.heads(buffer, first, heads).dims == (Dims { d0: c.s_v, d1: heads, d2: c.l, d3: c.b }),
        c.channels() == c.num_k * c.s_v + c.num_k * c.s_v + c.num_v * c.s_v,
{
    let ch = c.channels();
    let l = c.l as int;
    assert(c.num_k * c.s_v >= 1 && c.num_v * c.s_v >= c.s_v) by (nonlinear_arith)
        requires
            c.num_k >= 1,
            c.num_v >= 1,
            c.s_v >= 1,
    ;
    assert(4 * ch <= 4 * ch * l <= 4 * ch * l * c.b) by (nonlinear_arith)
        requires
            ch >= 0,
            l >= 1,
            c.b >= 1,
    ;
    assert(4 * (ch * l) == 4 * ch * l) by (nonlinear_arith);
    lemma_three_strides(c.by_token(buffer), token, channel, s, ch, 1, ch * l);
    assert((s * l + token) * ch == token * ch + s * (ch * l)) by (nonlinear_arith);
    let t = c.heads(buffer, first, heads);
    lemma_three_strides(t, d, head, token, 1, c.s_v as int, ch);
    assert(t.byte_stride.d3 == 4 * (ch * l));
    assert(s * (4 * (ch * l)) == 4 * (s * (ch * l))) by (nonlinear_arith);
    assert(address(t, d, head, token, s) == address(t, d, head, token, 0) + s * t.byte_stride.d3);
}

/// The scan's outputs come token by token, head by head, and what is taken of them
/// are the first of each token's.
pub proof fn law_outputs_come_token_by_token(
    c: SsmShape,
    buffer: Buffer,
    d: int,
    head: int,
    token: int,
    row: int,
)
    requires
        c.wf(),
        4 * c.outputs() <= u64::MAX,
    ensures
        address(c.scanned(buffer), d, head, token, 0) == 4 * (token * c.value_dim() + head * c.s_v
            + d),
        address(c.trimmed(buffer), row, token, 0, 0) == 4 * (token * c.value_dim() + row),
        c.outputs() == c.l * c.b * (c.num_v * c.s_v),
        c.value_dim() == c.num_v * c.s_v,
{
    let v = c.value_dim();
    assert(1 <= c.s_v <= c.num_v * c.s_v) by (nonlinear_arith)
        requires
            c.num_v >= 1,
            c.s_v >= 1,
    ;
    assert(c.l * c.b >= 1) by (nonlinear_arith)
        requires
            c.l >= 1,
            c.b >= 1,
    ;
    let n = c.l * c.b;
    assert(v <= n * v) by (nonlinear_arith)
        requires
            n >= 1,
            v >= 0,
    ;
    lemma_three_strides(c.scanned(buffer), d, head, token, 1, c.s_v as int, v);
    let t = c.trimmed(buffer);
    assert(t.byte_stride.d0 == 4 && t.byte_stride.d1 == 4 * v && t.byte_offset == 0);
    assert(token * (4 * v) == 4 * (token * v)) by (nonlinear_arith);
    assert(address(t, row, token, 0, 0) == row * 4 + token * (4 * v));
}

/// A pass of `l` tokens of `b` sequences has the model's key and value heads, all of
/// the state's width, and its kernel; a sequence's state is a square of that width
/// for each value head.
pub proof fn law_shape_is_the_models<F: Copy>(p: &Qwen35MoeParams<F>, l: u64, b: u64)
    ensures
        ({
            let c = ssm_shape(p, l, b);
            &&& c.l == l && c.b == b
            &&& c.num_k == p.ssm_groups && c.num_v == p.ssm_dt_rank
            &&& c.s_v == p.ssm_state && c.kernel == p.ssm_conv
            &&& c.width == p.n_embd
            &&& c.state() == p.ssm_dt_rank * (p.ssm_state * p.ssm_state)
            &&& c.key_dim() == p.ssm_groups * p.ssm_state
            &&& c.value_dim() == p.ssm_dt_rank * p.ssm_state
            &&& p.state_size() == c.state()
        }),
{
    assert(p.ssm_dt_rank * p.ssm_state * p.ssm_state == p.ssm_dt_rank * (p.ssm_state * p.ssm_state))
        by (nonlinear_arith);
    assert(p.ssm_state * p.ssm_state * p.ssm_dt_rank == p.ssm_dt_rank * (p.ssm_state * p.ssm_state))
        by (nonlinear_arith);
}

/// The scan steps through its operands as they lie: queries and keys without gaps,
/// values among the convolution's channels, and one gate for each value head; it
/// puts the states behind its outputs.
pub proof fn law_the_scan_steps_through_its_operands<F: Copy>(
    c: SsmShape,
    snapshots: u64,
    scale: F,
    buffer: Buffer,
)
    requires
        c.wf(),
        c.num_v <= u32::MAX,
        c.num_k <= u32::MAX,
        c.s_v <= u32::MAX,
        snapshots <= u32::MAX,
        c.channels() * c.l <= u32::MAX,
        c.outputs() <= u32::MAX,
    ensures
        ({
            let g = scan_params(c, snapshots, scale);
            let q = dense(buffer, c.head_dims());
            let v = c.heads(buffer, 2 * c.key_dim(), c.num_v);
            let gates = dense(buffer, matrix(c.num_v, c.l));
            &&& g.q_strides.s1 == q.element_stride.d1
            &&& g.q_strides.s2 == q.element_stride.d2
            &&& g.q_strides.s3 == q.element_stride.d3
            &&& g.v_strides.s1 == v.element_stride.d1
            &&& g.v_strides.s2 == v.element_stride.d2
            &&& g.v_strides.s3 == v.element_stride.d3
            &&& g.b_strides.s1 == gates.element_stride.d0
            &&& g.b_strides.s2 == gates.element_stride.d1
            &&& g.b_strides.s3 == gates.element_stride.d2
            &&& 4 * g.s_off == c.scanned(buffer).byte_size
            &&& g.num_v == c.num_v && g.num_k == c.num_k && g.s_v == c.s_v
            &&& g.n_tokens == c.l && g.n_seqs == c.b
            &&& g.snapshots == snapshots
            &&& g.scale == scale
        }),
{
    let key = c.num_k * c.s_v;
    let val = c.num_v * c.s_v;
    let l = c.l as int;
    assert(key >= 1 && val >= 1) by (nonlinear_arith)
        requires
            key == c.num_k * c.s_v,
            val == c.num_v * c.s_v,
            c.num_k >= 1,
            c.num_v >= 1,
            c.s_v >= 1,
    ;
    assert(c.s_v * c.num_k == key) by (nonlinear_arith)
        requires
            key == c.num_k * c.s_v,
    ;
    assert(1 * c.s_v * c.num_k == key && 1 * c.s_v == c.s_v);
    assert(1 * c.s_v * c.num_k * l == key * l);
    assert(0 <= key * l <= c.channels() * l) by (nonlinear_arith)
        requires
            0 <= key <= c.channels(),
            l >= 1,
    ;
    assert(c.num_v <= val) by (nonlinear_arith)
        requires
            val == c.num_v * c.s_v,
            c.s_v >= 1,
    ;
    assert(0 <= c.num_v * l <= c.channels() * l) by (nonlinear_arith)
        requires
            0 <= c.num_v <= val,
            val <= c.channels(),
            l >= 1,
    ;
    assert(1 * c.num_v == c.num_v && 1 * c.num_v * l == c.num_v * l);
    assert(0 <= c.channels() * l);
    let n = c.n();
    assert(0 <= c.outputs()) by (nonlinear_arith)
        requires
            c.outputs() == n * val,
            n == c.l * c.b,
            val >= 0,
    ;
}

} // verus!
