//! What estimates cover, what sizes are given out, and what views read.
use vstd::prelude::*;

use crate::models::blocks::{chunk_view, sequential};
use crate::models::cache::{slab_of, slot_range, KvCache};
use crate::models::describe::{greatest, Model};
use crate::models::diffusiongemma::DiffusiongemmaModel;
use crate::models::gemma4::Gemma4Model;
use crate::models::llama::LlamaModel;
use crate::models::llama_batch::batched_q;
use crate::models::mrope::{four, window_axes, ImageSpan};
use crate::models::qwen3::Qwen3Model;
use crate::models::qwen35_mtp::{backup_rows, conv_rows, half_view};
use crate::models::qwen35_weights::{attention_layer, q_half, recurrent_before};
use crate::models::qwen35moe::Qwen35MoeModel;
use crate::models::tensor::{
    address, attn_view, dense, flat_view, headed, heads_view, matrix, one_column, prefix_view,
    repeated, Buffer, BufferRange, TensorView,
};

verus! {

/// `bytes` holds `raw` bytes, a third of that for headroom, and `slack` bytes.
pub open spec fn roomy(bytes: int, raw: int, slack: int) -> bool {
    let spare = bytes - slack - raw;
    3 * spare <= raw < 3 * (spare + 1)
}

/// A pass takes at most `l` tokens: those of a chunk; the whole context where
/// prompts are not cut; one where neither is given.
pub open spec fn longest(n_ubatch: u32, max_seq_len: u32, l: int) -> bool {
    &&& n_ubatch > 0 ==> l == n_ubatch
    &&& n_ubatch == 0 && max_seq_len > 0 ==> l == max_seq_len
    &&& n_ubatch == 0 && max_seq_len == 0 ==> l == 1
}

/// Keys of a context lie in `parts` stretches of 8192, the last of which may be
/// shorter. Attention within one stretch leaves nothing to be put together.
pub open spec fn stretches(max_seq_len: u32, parts: int) -> bool {
    if max_seq_len <= 8192 {
        parts == 0
    } else {
        8192 * (parts - 1) < max_seq_len <= 8192 * parts
    }
}

/// A LLaMA estimate covers, for each token of the longest pass, seven tensors of
/// the model's width, three of the key heads', four of the feed-forward's, and the
/// residual; a square mask; logits for each sequence; both caches unpacked where
/// their types differ; and for each token, head and stretch of keys a partial
/// result with its two sums.
pub proof fn law_llama_estimate_covers_a_pass<F: Copy>(
    model: &LlamaModel<F>,
    n_ubatch: u32,
    max_seq_len: u32,
    mixed: bool,
    max_batch: u32,
    l: int,
    parts: int,
)
    requires
        model.sized(),
        max_batch >= 1,
        longest(n_ubatch, max_seq_len, l),
        stretches(max_seq_len, parts),
    ensures
        ({
            let p = model.params;
            let head = p.n_embd / p.n_head;
            let kv = head * p.n_head_kv;
            let staged = if mixed {
                2 * kv * max_seq_len * 4
            } else {
                0
            };
            roomy(
                model.estimate(n_ubatch, max_seq_len, mixed, max_batch),
                (7 * p.n_embd + 3 * kv + 4 * p.n_ff) * l * 4 + p.n_embd * l * 4 + l * l * 4
                    + p.n_vocab * max_batch * 4 + staged + (head + 2) * l * p.n_head * parts * 4,
                0x200_0000,
            )
        }),
{
    let p = model.params;
    let kv = p.n_embd / p.n_head * p.n_head_kv;
    assert(kv == p.kv_width());
    lemma_no_parts((p.n_embd / p.n_head + 2) * l * p.n_head, parts);
}

/// Nothing times a number, four times over.
proof fn lemma_no_parts(a: int, parts: int)
    ensures
        parts == 0 ==> a * parts * 4 == 0,
{
    assert(parts == 0 ==> a * parts == 0) by (nonlinear_arith);
}

/// A Qwen 3 estimate covers, for each token of the longest pass, four tensors each
/// of the model's width, the query heads', the key heads' and the feed-forward's,
/// and the residual; a square mask; logits for each sequence; and the partial
/// results of split attention.
pub proof fn law_qwen3_estimate_covers_a_pass<F: Copy>(
    model: &Qwen3Model<F>,
    n_ubatch: u32,
    max_seq_len: u32,
    mixed: bool,
    max_batch: u32,
    l: int,
    parts: int,
)
    requires
        model.sized(),
        max_batch >= 1,
        longest(n_ubatch, max_seq_len, l),
        stretches(max_seq_len, parts),
    ensures
        ({
            let p = model.params;
            let q = p.n_head * p.head_dim;
            let kv = p.n_head_kv * p.head_dim;
            roomy(
                model.estimate(n_ubatch, max_seq_len, mixed, max_batch),
                (4 * p.n_embd + 4 * q + 4 * kv + 4 * p.n_ff) * l * 4 + p.n_embd * l * 4 + l * l * 4
                    + p.n_vocab * max_batch * 4 + (p.head_dim + 2) * l * p.n_head * parts * 4,
                0x200_0000,
            )
        }),
{
    let p = model.params;
    lemma_no_parts((p.head_dim + 2) * l * p.n_head, parts);
}

/// A Gemma 4 estimate covers, for each token of the longest pass, eight tensors of
/// the model's width, four of the query heads', six of the key heads', five of the
/// feed-forward's, and the residual, heads taken at the widest layer's; a square
/// mask; one column of logits; and the partial results of split attention.
pub proof fn law_gemma4_estimate_covers_a_pass<F: Copy>(
    model: &Gemma4Model<F>,
    n_ubatch: u32,
    max_seq_len: u32,
    mixed: bool,
    max_batch: u32,
    l: int,
    parts: int,
    head: u32,
    kv: u32,
)
    requires
        model.sized(),
        longest(n_ubatch, max_seq_len, l),
        stretches(max_seq_len, parts),
        head == model.params.head_dim_global || head == model.params.head_dim_swa,
        head >= model.params.head_dim_global,
        head >= model.params.head_dim_swa,
        model.params.n_layer > 0,
        model.params.kv_widths().contains(kv),
        forall|i: int|
            0 <= i < model.params.n_layer ==> kv >= #[trigger] model.params.kv_widths()[i],
    ensures
        ({
            let p = model.params;
            roomy(
                model.estimate(n_ubatch, max_seq_len, mixed, max_batch),
                (8 * p.n_embd + 4 * (p.n_head * head) + 6 * kv + 5 * p.n_ff) * l * 4 + p.n_embd * l
                    * 4 + l * l * 4 + p.n_vocab * 4 + (head + 2) * l * p.n_head * parts * 4,
                0x200_0000,
            )
        }),
{
    let p = model.params;
    law_greatest_is_one_of_the_list(p.kv_widths(), 0);
    lemma_no_parts((head + 2) * l * p.n_head, parts);
}

/// A diffusion estimate covers the whole context in one pass: for each token ten
/// tensors of the model's width, four of the query heads', six of the key heads',
/// five of the feed-forward's, three of the chosen experts' together, one of all
/// experts' scores, and the residual; two square masks; a canvas of logits, and
/// another of probabilities where the last step conditions the next.
pub proof fn law_diffusion_estimate_covers_a_pass<F: Copy>(
    model: &DiffusiongemmaModel<F>,
    n_ubatch: u32,
    max_seq_len: u32,
    mixed: bool,
    max_batch: u32,
    head: u32,
    kv: u32,
)
    requires
        model.sized(),
        max_seq_len > 0,
        head == model.params.head_dim_global || head == model.params.head_dim_swa,
        head >= model.params.head_dim_global,
        head >= model.params.head_dim_swa,
        model.params.n_layer > 0,
        model.params.kv_widths().contains(kv),
        model.params.canvas_length > 0,
        forall|i: int|
            0 <= i < model.params.n_layer ==> kv >= #[trigger] model.params.kv_widths()[i],
    ensures
        ({
            let p = model.params;
            let l = max_seq_len as int;
            let canvas = p.n_vocab * p.canvas_length * 4;
            roomy(
                model.estimate(n_ubatch, max_seq_len, mixed, max_batch),
                (10 * p.n_embd + 4 * (p.n_head * head) + 6 * kv + 5 * p.n_ff) * l * 4 + (3 * (
                p.expert_ff * p.n_expert_used) + p.n_expert) * l * 4 + p.n_embd * l * 4 + 2 * (l * l
                    * 4) + (if p.has_sc {
                    2 * canvas
                } else {
                    canvas
                }),
                0x400_0000,
            )
        }),
{
    law_greatest_is_one_of_the_list(model.params.kv_widths(), 0);
}

/// A Qwen 3.5 estimate covers, for each token of the longest pass, what both kinds
/// of mixing and the experts take, and the residual; a square mask; logits for
/// each sequence; and both caches unpacked at the wider head where their types
/// differ.
pub proof fn law_qwen35_estimate_covers_a_pass<F: Copy>(
    model: &Qwen35MoeModel<F>,
    n_ubatch: u32,
    max_seq_len: u32,
    mixed: bool,
    max_batch: u32,
    l: int,
    head: u32,
)
    requires
        model.sized(),
        max_batch >= 1,
        longest(n_ubatch, max_seq_len, l),
        head == model.params.head_dim_k || head == model.params.head_dim_v,
        head >= model.params.head_dim_k,
        head >= model.params.head_dim_v,
    ensures
        ({
            let p = model.params;
            let queries_and_gates = 2 * (p.head_dim_k * p.n_head);
            let attention = 2 * queries_and_gates + p.head_dim_k * p.n_head_kv + 3 * (p.head_dim_v
                * p.n_head_kv);
            let keys = p.ssm_groups * p.ssm_state;
            let values = p.ssm_dt_rank * p.ssm_state;
            let recurrent = 3 * keys + 4 * values;
            let experts = 3 * (p.expert_ff * p.n_expert_used) + 2 * p.n_expert + p.shared_expert_ff;
            let staged = if mixed {
                2 * (head * p.n_head_kv) * max_seq_len * 4
            } else {
                0
            };
            roomy(
                model.estimate(n_ubatch, max_seq_len, mixed, max_batch),
                (7 * p.n_embd + attention + recurrent + experts) * l * 4 + p.n_embd * l * 4 + l * l
                    * 4 + p.n_vocab * max_batch * 4 + staged,
                0x200_0000,
            )
        }),
{
    let p = model.params;
    let keys = p.ssm_groups * p.ssm_state;
    let values = p.ssm_dt_rank * p.ssm_state;
    assert(p.conv_width() == 2 * keys + values);
    assert(model.summed_width() == 7 * p.n_embd + (2 * (2 * (p.head_dim_k * p.n_head))
        + p.head_dim_k * p.n_head_kv + 3 * (p.head_dim_v * p.n_head_kv)) + (3 * keys + 4 * values)
        + (3 * (p.expert_ff * p.n_expert_used) + 2 * p.n_expert + p.shared_expert_ff));
}

/// The greatest number of a list is one of its numbers, and none is greater.
pub proof fn law_greatest_is_one_of_the_list(v: Seq<u32>, d: u32)
    ensures
        v.len() == 0 ==> greatest(v, d) == d,
        v.len() > 0 ==> v.contains(greatest(v, d)),
        forall|i: int| 0 <= i < v.len() ==> greatest(v, d) >= #[trigger] v[i],
    decreases v.len(),
{
    if v.len() == 1 {
        assert(v[0] == greatest(v, d));
    } else if v.len() > 1 {
        let w = v.drop_last();
        law_greatest_is_one_of_the_list(w, d);
        let j = choose|j: int| 0 <= j < w.len() && w[j] == greatest(w, d);
        assert(v[j] == w[j]);
        assert(v[v.len() - 1] == v.last());
        assert forall|i: int| 0 <= i < v.len() implies greatest(v, d) >= #[trigger] v[i] by {
            if i < w.len() {
                assert(w[i] == v[i]);
            }
        }
    }
}

/// Layers with a sliding window have heads of one width, the others of another;
/// a layer's keys have its number of key heads of that width.
pub proof fn law_layers_have_their_head_widths<F: Copy>(
    gemma: &Gemma4Model<F>,
    diffusion: &DiffusiongemmaModel<F>,
    i: int,
)
    requires
        gemma.sized(),
        diffusion.sized(),
    ensures
        gemma.params.head_widths().len() == gemma.params.n_layer,
        diffusion.params.head_widths().len() == diffusion.params.n_layer,
        0 <= i < gemma.params.n_layer ==> {
            let p = gemma.params;
            &&& p.swa@[i] ==> p.head_widths()[i] == p.head_dim_swa
            &&& !p.swa@[i] ==> p.head_widths()[i] == p.head_dim_global
            &&& p.kv_widths()[i] == p.n_head_kv@[i] * p.head_widths()[i]
        },
        0 <= i < diffusion.params.n_layer ==> {
            let p = diffusion.params;
            &&& p.swa@[i] ==> p.head_widths()[i] == p.head_dim_swa
            &&& !p.swa@[i] ==> p.head_widths()[i] == p.head_dim_global
            &&& p.kv_widths()[i] == p.n_head_kv@[i] * p.head_widths()[i]
        },
{
    if 0 <= i < gemma.params.n_layer {
        assert(gemma.params.layer_wf(i));
    }
    if 0 <= i < diffusion.params.n_layer {
        assert(diffusion.params.layer_wf(i));
    }
}

/// The first tokens of a cache layer lie where they lie in the layer, and end
/// where the next token would begin.
pub proof fn law_prefix_reads_the_same_memory(
    layer: TensorView,
    len: u64,
    d: int,
    head: int,
    token: int,
)
    requires
        layer.byte_stride.d2 * len <= u64::MAX,
    ensures
        address(prefix_view(layer, len), d, head, token, 0) == address(layer, d, head, token, 0),
        prefix_view(layer, len).dims.d2 == len,
        prefix_view(layer, len).dims.d0 == layer.dims.d0,
        prefix_view(layer, len).dims.d1 == layer.dims.d1,
        layer.byte_offset + prefix_view(layer, len).byte_size == address(
            layer,
            0,
            0,
            len as int,
            0,
        ),
{
    assert(layer.byte_stride.d2 * len == len * layer.byte_stride.d2) by (nonlinear_arith);
    assert(layer.byte_stride.d2 * len >= 0) by (nonlinear_arith);
}

/// One column of a matrix lies where it lies in the matrix, and is as long as the
/// matrix is wide.
pub proof fn law_one_column_reads_the_same_memory(
    buffer: Buffer,
    width: u64,
    columns: u64,
    c: int,
    row: int,
)
    requires
        4 * width * columns <= u64::MAX,
        0 <= c < columns,
        0 <= row < width,
    ensures
        ({
            let whole = dense(buffer, matrix(width, columns));
            let one = one_column(whole, width, c);
            &&& address(one, row, 0, 0, 0) == address(whole, row, c, 0, 0)
            &&& one.dims == matrix(width, 1)
            &&& one.byte_size == 4 * width
            &&& one.buffer == buffer
        }),
{
    assert(4 * width <= 4 * width * columns) by (nonlinear_arith)
        requires
            columns >= 1,
    ;
    assert(0 <= c * width * 4 <= 4 * width * columns) by (nonlinear_arith)
        requires
            0 <= c < columns,
    ;
    assert(c * width * 4 == c * (4 * width)) by (nonlinear_arith);
    assert(0 * (width * 4) == 0);
}

/// A repeated column is the first column of what it repeats.
pub proof fn law_repeated_is_the_first_column(t: TensorView, n: u64, row: int, column: int)
    ensures
        address(repeated(t, n), row, column, 0, 0) == address(t, row, 0, 0, 0),
        repeated(t, n).dims == matrix(t.dims.d0, n),
{
    assert(column * 0 == 0);
}

/// Elements in a row follow one another every four bytes.
pub proof fn law_elements_follow_one_another(buffer: Buffer, offset: u64, floats: u64, i: int)
    requires
        4 * floats <= u64::MAX,
        0 <= i < floats,
    ensures
        address(flat_view(buffer, offset as int, floats as int), i, 0, 0, 0) == offset + 4 * i,
        flat_view(buffer, offset as int, floats as int).byte_size == 4 * floats,
        flat_view(buffer, offset as int, floats as int).dims == matrix(floats, 1),
{
    let t = flat_view(buffer, offset as int, floats as int);
    assert(t.byte_stride.d0 == 4);
    assert(i * 4 == 4 * i);
    assert(address(t, i, 0, 0, 0) == t.byte_offset + i * t.byte_stride.d0);
}

/// The strides that are counted in elements are those that are counted in bytes,
/// whatever the layout.
pub proof fn law_strides_agree(buffer: Buffer, head_dim: u64, heads: u64, l: u64)
    requires
        4 * head_dim * heads * l <= u64::MAX,
        heads >= 1,
        l >= 1,
    ensures
        ({
            let t = dense(buffer, matrix((head_dim * heads) as u64, l));
            let h = heads_view(t, head_dim, heads, l);
            let a = attn_view(h, head_dim, l, heads);
            &&& h.byte_stride.d1 == 4 * h.element_stride.d1
            &&& h.byte_stride.d2 == 4 * h.element_stride.d2
            &&& a.byte_stride.d1 == 4 * a.element_stride.d1
            &&& a.byte_stride.d2 == 4 * a.element_stride.d2
            &&& h.byte_size == t.byte_size
            &&& a.byte_size == t.byte_size
            &&& a.dims.d1 == h.dims.d2
            &&& a.dims.d2 == h.dims.d1
        }),
{
    assert(4 * head_dim <= 4 * head_dim * heads <= 4 * head_dim * heads * l) by (nonlinear_arith)
        requires
            heads >= 1,
            l >= 1,
    ;
    assert(4 * (head_dim * heads) == 4 * head_dim * heads) by (nonlinear_arith);
    assert(1 * head_dim * heads == head_dim * heads);
}

/// Slab `slot` of a layer lies `slot` slabs behind the first, and is otherwise
/// laid out like it; likewise slab `slot` of a layer's states.
pub proof fn law_slabs_are_laid_out_alike(
    first: TensorView,
    bytes: u64,
    all: BufferRange,
    floats: u64,
    slot: u32,
    d: int,
    head: int,
    token: int,
)
    requires
        first.byte_offset + slot * bytes <= u64::MAX,
        all.offset + slot * (4 * floats) <= u64::MAX,
        4 * floats <= u64::MAX,
    ensures
        address(slab_of(first, bytes, slot), d, head, token, 0) == address(first, d, head, token, 0)
            + slot * bytes,
        slab_of(first, bytes, slot).dims == first.dims,
        slot_range(all, floats, slot).offset == all.offset + slot * (4 * floats),
        slot_range(all, floats, slot).size == 4 * floats,
        slot_range(all, floats, slot).buffer == all.buffer,
{
    assert(slot * bytes >= 0) by (nonlinear_arith);
    assert(slot * (4 * floats) >= 0) by (nonlinear_arith);
}

/// The token in row `r` and column `c` of an image's grid has the image's place in
/// time, its row and its column as positions, counted from where the image begins;
/// the first token behind the image follows the greatest of them.
pub proof fn law_image_tokens_have_their_row_and_column(
    pos0: u32,
    im: ImageSpan,
    r: int,
    c: int,
)
    requires
        im.n_tok == im.nx * im.ny,
        0 <= r < im.ny,
        0 <= c < im.nx,
    ensures
        ({
            let begin = pos0 + im.start;
            let behind = window_axes(pos0, Some(im), im.start + im.n_tok);
            &&& window_axes(pos0, Some(im), im.start + r * im.nx + c) == (
                begin,
                begin + r,
                begin + c,
                0int,
            )
            &&& behind.0 > begin + r
            &&& behind.0 > begin + c
            &&& behind.0 == begin + im.nx || behind.0 == begin + im.ny
            &&& behind.1 == behind.0 && behind.2 == behind.0 && behind.3 == behind.0
        }),
{
    let k = r * im.nx + c;
    assert(0 <= k < im.nx * im.ny) by (nonlinear_arith)
        requires
            0 <= r < im.ny,
            0 <= c < im.nx,
            k == r * im.nx + c,
    ;
    vstd::arithmetic::div_mod::lemma_fundamental_div_mod_converse(k, im.nx as int, r, c);
}

/// Positions in a row begin at the first and go up by one; repeated for the four
/// axes, they are the same on each.
pub proof fn law_positions_go_up_by_one(start: u32, n: nat, axis: int, i: int)
    requires
        start + n <= u32::MAX,
        0 <= axis < 4,
        0 <= i < n,
    ensures
        sequential(start as int, n)[i] == start + i,
        four(sequential(start as int, n)).len() == 4 * n,
        four(sequential(start as int, n))[axis * n + i] == start + i,
{
    assert(axis == 0 || axis == 1 || axis == 2 || axis == 3);
    assert(0 * n == 0 && 1 * n == n && 2 * n == n + n && 3 * n == n + n + n) by (nonlinear_arith);
}

/// Of the main trunk's layers, the last of every `interval` mixes by attention, and
/// all others are recurrent; so of any number of whole intervals, one layer each is
/// not.
pub proof fn law_the_last_of_every_interval_attends(n_main: u32, interval: u32, m: int, o: int)
    requires
        interval >= 1,
        0 <= m,
        0 <= o < interval,
        m * interval + interval <= n_main,
    ensures
        attention_layer(n_main, interval, m * interval + o) <==> o == interval - 1,
        !attention_layer(n_main, interval, n_main + o),
        recurrent_before(n_main, interval, m * interval + o) == m * (interval - 1) + o,
    decreases m, o,
{
    let w = interval as int;
    let at = m * w + o;
    assert(m * w >= 0) by (nonlinear_arith)
        requires
            m >= 0,
            w >= 1,
    ;
    if o == w - 1 {
        assert((m + 1) * w == m * w + w) by (nonlinear_arith);
        vstd::arithmetic::div_mod::lemma_fundamental_div_mod_converse(at + 1, w, m + 1, 0);
    } else {
        vstd::arithmetic::div_mod::lemma_fundamental_div_mod_converse(at + 1, w, m, o + 1);
    }
    if o > 0 {
        law_the_last_of_every_interval_attends(n_main, interval, m, o - 1);
    } else if m > 0 {
        assert((m - 1) * w + w == m * w) by (nonlinear_arith);
        assert((m - 1) * (w - 1) + (w - 1) == m * (w - 1)) by (nonlinear_arith);
        law_the_last_of_every_interval_attends(n_main, interval, m - 1, w - 1);
    } else {
        assert(0 * w == 0 && 0 * (w - 1) == 0);
    }
}

/// In a double-width projection the elements of head `h` stand at `2 * h` head
/// widths of a token's column, and those of its gate one head width behind them.
pub proof fn law_heads_and_gates_take_turns(
    buffer: Buffer,
    head_dim: u64,
    n_head: u64,
    l: u64,
    d: int,
    h: int,
    token: int,
)
    requires
        8 * head_dim * n_head * l <= u64::MAX,
        0 <= d < head_dim,
        0 <= h < n_head,
        0 <= token < l,
    ensures
        ({
            let q = dense(buffer, matrix((2 * (head_dim * n_head)) as u64, l));
            &&& address(q_half(q, head_dim, n_head, l, false), d, h, token, 0) == address(
                q,
                2 * h * head_dim + d,
                token,
                0,
                0,
            )
            &&& address(q_half(q, head_dim, n_head, l, true), d, h, token, 0) == address(
                q,
                (2 * h + 1) * head_dim + d,
                token,
                0,
                0,
            )
            &&& q_half(q, head_dim, n_head, l, false).dims == headed(head_dim, n_head, l)
            &&& q_half(q, head_dim, n_head, l, true).dims == headed(head_dim, n_head, l)
        }),
{
    let w = 2 * (head_dim * n_head);
    assert(8 * head_dim <= 8 * head_dim * n_head <= 8 * head_dim * n_head * l)
        by (nonlinear_arith)
        requires
            n_head >= 1,
            l >= 1,
    ;
    assert(8 * head_dim * n_head == 4 * w) by (nonlinear_arith)
        requires
            w == 2 * (head_dim * n_head),
    ;
    assert(2 * head_dim * n_head * 4 == 4 * w) by (nonlinear_arith)
        requires
            w == 2 * (head_dim * n_head),
    ;
    assert(0 <= w <= u64::MAX);
    assert(1 * w == w);
    let q = dense(buffer, matrix(w as u64, l));
    assert(q.byte_stride.d0 == 4 && q.byte_stride.d1 == 4 * w);
    assert(h * (2 * head_dim * 4) + d * 4 == (2 * h * head_dim + d) * 4) by (nonlinear_arith);
    assert(h * (2 * head_dim * 4) + d * 4 + head_dim * 4 == ((2 * h + 1) * head_dim + d) * 4)
        by (nonlinear_arith);
}

/// The two halves of columns that are two wide lie side by side.
pub proof fn law_halves_lie_side_by_side(buffer: Buffer, width: u64, l: u64, row: int, column: int)
    requires
        8 * width * l <= u64::MAX,
        0 <= row < width,
        0 <= column < l,
    ensures
        ({
            let whole = dense(buffer, matrix((2 * width) as u64, l));
            &&& address(half_view(buffer, width, l, false), row, column, 0, 0) == address(
                whole,
                row,
                column,
                0,
                0,
            )
            &&& address(half_view(buffer, width, l, true), row, column, 0, 0) == address(
                whole,
                width + row,
                column,
                0,
                0,
            )
        }),
{
    assert(8 * width <= 8 * width * l) by (nonlinear_arith)
        requires
            l >= 1,
    ;
    assert(1 * (2 * width) == 2 * width);
    let whole = dense(buffer, matrix((2 * width) as u64, l));
    assert(whole.byte_stride.d1 == 8 * width);
    assert(half_view(buffer, width, l, false).byte_stride.d1 == 8 * width);
    assert(half_view(buffer, width, l, true).byte_stride.d1 == 8 * width);
    assert(whole.byte_stride.d0 == 4 && whole.byte_offset == 0);
    assert(half_view(buffer, width, l, false).byte_stride.d0 == 4);
    assert(half_view(buffer, width, l, true).byte_stride.d0 == 4);
    assert(half_view(buffer, width, l, false).byte_offset == 0);
    assert(half_view(buffer, width, l, true).byte_offset == 4 * width);
    assert((width + row) * 4 == 4 * width + row * 4);
}

/// Token `t` of a stretch of tokens is token `start + t` of all.
pub proof fn law_stretches_read_their_own_tokens(
    buffer: Buffer,
    head_dim: u64,
    heads: u64,
    n: u64,
    start: int,
    len: u64,
    d: int,
    head: int,
    t: int,
)
    requires
        4 * head_dim * heads * n <= u64::MAX,
        heads >= 1,
        0 <= start,
        start + len <= n,
        0 <= d < head_dim,
        0 <= head < heads,
        0 <= t < len,
    ensures
        ({
            let all = dense(buffer, headed(head_dim, heads, n));
            let own = chunk_view(all, start, len, head_dim, heads);
            &&& address(own, d, head, t, 0) == address(all, d, head, start + t, 0)
            &&& own.dims == headed(head_dim, heads, len)
        }),
{
    let token = 4 * head_dim * heads;
    assert(4 * head_dim <= token <= token * n) by (nonlinear_arith)
        requires
            heads >= 1,
            n >= 1,
            token == 4 * head_dim * heads,
    ;
    assert(0 <= start * token <= token * n) by (nonlinear_arith)
        requires
            0 <= start <= n,
            token >= 0,
    ;
    assert(start * token + t * token == (start + t) * token) by (nonlinear_arith);
}

/// A convolution state holds, channel by channel, the last inputs; those of a
/// rollback are read from the kept inputs of the same channel, `row` further on.
pub proof fn law_kept_inputs_are_read_by_channel(
    cache: &KvCache,
    j: int,
    row: int,
    tap: int,
    channel: int,
)
    requires
        cache.ssm_conv_kernel >= 1,
        0 <= row,
        0 <= tap < cache.ssm_conv_kernel - 1,
        0 <= channel < cache.ssm_conv_channels,
        cache.ssm_conv_backups@[j].offset + 4 * row <= u64::MAX,
        cache.ssm_conv_kernel - 1 + cache.ssm_max_snapshots <= u32::MAX,
    ensures
        address(conv_rows(cache, j), tap, channel, 0, 0) == cache.ssm_conv_states@[j].offset + 4 * (
        channel * (cache.ssm_conv_kernel - 1) + tap),
        address(backup_rows(cache, j, row), tap, channel, 0, 0)
            == cache.ssm_conv_backups@[j].offset + 4 * (channel * (cache.ssm_conv_kernel - 1
            + cache.ssm_max_snapshots) + row + tap),
        conv_rows(cache, j).buffer == cache.ssm_conv_states@[j].buffer,
        backup_rows(cache, j, row).buffer == cache.ssm_conv_backups@[j].buffer,
{
    let k1 = cache.ssm_conv_kernel - 1;
    let p = k1 + cache.ssm_max_snapshots;
    let a = conv_rows(cache, j);
    let b = backup_rows(cache, j, row);
    assert(a.byte_stride.d0 == 4 && a.byte_stride.d1 == 4 * k1);
    assert(b.byte_stride.d0 == 4 && b.byte_stride.d1 == 4 * p);
    assert(channel * (4 * k1) == 4 * (channel * k1)) by (nonlinear_arith);
    assert(channel * (4 * p) == 4 * (channel * p)) by (nonlinear_arith);
}

/// Queries of several sequences, one token each, are read sequence by sequence
/// without being moved.
pub proof fn law_batched_queries_read_the_same_memory(
    buffer: Buffer,
    head_dim: u64,
    heads: u64,
    n: u64,
    d: int,
    head: int,
    s: int,
)
    requires
        4 * head_dim * heads * n <= u64::MAX,
        heads >= 1,
        n >= 1,
    ensures
        ({
            let t = dense(buffer, headed(head_dim, heads, n));
            let q = batched_q(t, head_dim, heads, n, (head_dim * heads) as u64);
            &&& address(q, d, 0, head, s) == address(t, d, head, s, 0)
            &&& q.dims.d0 == head_dim && q.dims.d1 == 1 && q.dims.d2 == heads && q.dims.d3 == n
        }),
{
    assert(4 * head_dim <= 4 * head_dim * heads <= 4 * head_dim * heads * n) by (nonlinear_arith)
        requires
            heads >= 1,
            n >= 1,
    ;
    assert(4 * (head_dim * heads) == 4 * head_dim * heads) by (nonlinear_arith);
    assert(head_dim * heads >= 0) by (nonlinear_arith);
    let t = dense(buffer, headed(head_dim, heads, n));
    let q = batched_q(t, head_dim, heads, n, (head_dim * heads) as u64);
    assert(q.byte_stride.d0 == 4 && t.byte_stride.d0 == 4);
    assert(q.byte_stride.d2 == 4 * head_dim && t.byte_stride.d1 == 4 * head_dim);
    assert(q.byte_stride.d3 == 4 * head_dim * heads && t.byte_stride.d2 == 4 * head_dim * heads);
}

} // verus!
