//! What passes are planned over: positions, packed sequences, slabs and columns.
use vstd::prelude::*;

use crate::models::blocks::{gathered, slabs_written, SeqPlan};
use crate::models::cache::{advanced, slab_of, slot_range, KvCache};
use crate::models::diffusiongemma::{CanvasPass, DiffusiongemmaModel};
use crate::models::gemma4::Gemma4Model;
use crate::models::llama_batch::{decode_plan, packed_plan};
use crate::models::masks::{lemma_starts, start_of};
use crate::models::meaning::{flat, lemma_values, replaced, value, Meaning};
use crate::models::mrope::{axes_from, flattened};
use crate::models::qwen3::Qwen3Model;
use crate::models::qwen35_batch::slab_plan;
use crate::models::qwen35_mtp::{snapshot_view, state_view};
use crate::models::qwen35_ssm::of_bytes;
use crate::models::qwen35moe::{image_columns, rope_base, with_columns, Qwen35MoeModel};
use crate::models::recorder::{shape, Term};
use crate::models::tensor::{
    columns, dense, matrix, one_column, Buffer, BufferRange, TensorView,
};

verus! {

/// In a decode every sequence brings one token, in order, caches it at its own
/// position, and attends over all tokens up to it.
pub proof fn law_a_decode_brings_one_token_each(positions: Seq<u32>, slots: Seq<u32>, s: int)
    requires
        slots.len() == positions.len(),
        positions.len() <= u32::MAX,
        0 <= s < positions.len(),
        positions[s] < u32::MAX,
    ensures
        ({
            let plan = decode_plan(positions, slots);
            &&& plan.lens.len() == positions.len()
            &&& plan.lens[s] == 1
            &&& plan.starts[s] == s
            &&& plan.bases[s] == positions[s]
            &&& plan.slots[s] == slots[s]
            &&& plan.kv_lens[s] == positions[s] + 1
        }),
{
}

/// Packed sequences lie end to end: the first starts at token 0, and each where the
/// one before it ends. Each is cached from its first token's position on, and
/// attends over the tokens before that and its own.
pub proof fn law_packed_sequences_lie_end_to_end(
    positions: Seq<u32>,
    lens: Seq<u32>,
    slots: Seq<u32>,
    s: int,
)
    requires
        slots.len() == lens.len(),
        0 <= s < lens.len(),
        start_of(lens, lens.len() as int) <= u32::MAX,
        positions[start_of(lens, s)] + lens[s] <= u32::MAX,
    ensures
        ({
            let plan = packed_plan(positions, lens, slots);
            &&& plan.lens == lens && plan.slots == slots
            &&& plan.starts[0] == 0
            &&& s + 1 < lens.len() ==> plan.starts[s + 1] == plan.starts[s] + lens[s]
            &&& plan.bases[s] == positions[plan.starts[s] as int]
            &&& plan.kv_lens[s] == plan.bases[s] + lens[s]
        }),
{
    lemma_starts(lens, s, lens.len() as int);
    lemma_starts(lens, s + 1, lens.len() as int);
}

/// Sequences that go on where their slabs stand are cached from the tokens that
/// their slabs hold on.
pub proof fn law_slab_sequences_go_on(cached: Seq<u32>, lens: Seq<u32>, slots: Seq<u32>, s: int)
    requires
        slots.len() == lens.len(),
        0 <= s < lens.len(),
        start_of(lens, lens.len() as int) <= u32::MAX,
        slots[s] < cached.len(),
        cached[slots[s] as int] + lens[s] <= u32::MAX,
    ensures
        ({
            let plan = slab_plan(cached, lens, slots);
            &&& plan.lens == lens && plan.slots == slots
            &&& plan.starts[0] == 0
            &&& s + 1 < lens.len() ==> plan.starts[s + 1] == plan.starts[s] + lens[s]
            &&& plan.bases[s] == cached[slots[s] as int]
            &&& plan.kv_lens[s] == cached[slots[s] as int] + lens[s]
        }),
{
    lemma_starts(lens, s, lens.len() as int);
    lemma_starts(lens, s + 1, lens.len() as int);
}

/// Where every sequence has a slab of its own, each slab used counts the tokens
/// that its sequence now has.
pub proof fn law_used_slabs_count_their_tokens(
    positions: Seq<u32>,
    slots: Seq<u32>,
    kv_lens: Seq<u32>,
    n: int,
    s: int,
)
    requires
        0 <= s < n <= slots.len(),
        kv_lens.len() == slots.len(),
        forall|i: int| 0 <= i < n ==> (#[trigger] slots[i]) < positions.len(),
        forall|i: int, j: int| 0 <= i < j < n ==> #[trigger] slots[i] != #[trigger] slots[j],
    ensures
        advanced(positions, slots, kv_lens, n).len() == positions.len(),
        advanced(positions, slots, kv_lens, n)[slots[s] as int] == kv_lens[s],
    decreases n,
{
    if s < n - 1 {
        law_used_slabs_count_their_tokens(positions, slots, kv_lens, n - 1, s);
        assert(slots[s] != slots[n - 1]);
    } else {
        lemma_advanced_len(positions, slots, kv_lens, n - 1);
    }
}

/// Counting tokens adds no slab.
proof fn lemma_advanced_len(positions: Seq<u32>, slots: Seq<u32>, kv_lens: Seq<u32>, n: int)
    requires
        n <= slots.len(),
        forall|i: int| 0 <= i < n ==> (#[trigger] slots[i]) < positions.len(),
    ensures
        advanced(positions, slots, kv_lens, n).len() == positions.len(),
    decreases n,
{
    if n > 0 {
        lemma_advanced_len(positions, slots, kv_lens, n - 1);
    }
}

/// Slabs lie one behind the other and do not overlap, in a layer's cache as well as
/// in a layer's states.
pub proof fn law_slabs_lie_apart(
    first: TensorView,
    bytes: u64,
    all: BufferRange,
    floats: u64,
    a: u32,
    b: u32,
)
    requires
        a < b,
        first.byte_offset + (b + 1) * bytes <= u64::MAX,
        all.offset + (b + 1) * (4 * floats) <= u64::MAX,
    ensures
        slab_of(first, bytes, 0) == first,
        slab_of(first, bytes, a).byte_offset + bytes <= slab_of(first, bytes, b).byte_offset,
        slab_of(first, bytes, b) == (TensorView {
            byte_offset: slab_of(first, bytes, b).byte_offset,
            ..first
        }),
        slot_range(all, floats, a).buffer == all.buffer,
        slot_range(all, floats, 0).offset == all.offset,
        slot_range(all, floats, a).offset + slot_range(all, floats, a).size <= slot_range(
            all,
            floats,
            b,
        ).offset,
{
    assert(a * bytes + bytes <= b * bytes && b * bytes <= (b + 1) * bytes) by (nonlinear_arith)
        requires
            a < b,
            bytes >= 0,
    ;
    let size = 4 * floats;
    assert(size <= (b + 1) * size && a * size + size <= b * size && b * size <= (b + 1) * size)
        by (nonlinear_arith)
        requires
            a < b,
            size >= 0,
    ;
}

/// A batched pass puts the tokens of each sequence into that sequence's slab, from
/// its base on, and leaves what else the slabs hold.
pub proof fn law_each_sequence_fills_its_slab<F, V>(
    k: Meaning<F, V>,
    held: Term<F>,
    first: TensorView,
    bytes: u64,
    tokens: Term<F>,
    seqs: SeqPlan,
    head_dim: u64,
    heads: u64,
    s: int,
)
    requires
        flat(k),
        0 <= s,
    ensures
        ({
            let after = |n: int|
                value(
                    k,
                    slabs_written(
                        held,
                        first,
                        bytes,
                        tokens,
                        seqs.lens,
                        seqs.starts,
                        seqs.bases,
                        seqs.slots,
                        head_dim,
                        heads,
                        n,
                    ),
                );
            let own = crate::models::blocks::chunk_view(
                dense(Buffer::Scratch { id: 0, bytes: 0 }, matrix(head_dim, 1)),
                seqs.starts[s] as int,
                seqs.lens[s] as u64,
                head_dim,
                heads,
            );
            &&& after(0) == value(k, held)
            &&& after(s + 1) == (k.over)(
                after(s),
                shape(slab_of(first, bytes, seqs.slots[s])),
                (k.placed)(seqs.bases[s], (k.seen)(value(k, tokens), shape(own))),
            )
        }),
{
    lemma_values(k);
}

/// The hidden states that packed logits are made of: column `s` is the last token
/// of sequence `s`.
pub proof fn law_last_tokens_are_gathered<F, V>(
    k: Meaning<F, V>,
    h: Term<F>,
    width: u64,
    l: u64,
    b: u64,
    lens: Seq<u32>,
    starts: Seq<u64>,
    s: int,
)
    requires
        flat(k),
        0 <= s,
    ensures
        ({
            let own = |n: u64| dense(Buffer::Scratch { id: 0, bytes: 0 }, matrix(width, n));
            value(k, gathered(h, width, l, b, lens, starts, s + 1)) == (k.over)(
                value(k, gathered(h, width, l, b, lens, starts, s)),
                shape(one_column(own(b), width, s)),
                (k.seen)(
                    value(k, h),
                    shape(one_column(own(l), width, starts[s] + lens[s] - 1)),
                ),
            )
        }),
{
    lemma_values(k);
}

/// Image columns take the place of the embeddings from their first column on, as
/// many of them as their data fills, and are not changed on the way.
pub proof fn law_image_columns_replace_embeddings<F, V>(
    k: Meaning<F, V>,
    h: Term<F>,
    data: Seq<F>,
    start: int,
    width: u64,
    l: u64,
)
    requires
        flat(k),
        width > 0,
        0 <= start,
        4 * (start * width) <= u64::MAX,
    ensures
        ({
            let count = data.len() as int / width as int;
            let at = image_columns(of_bytes(4 * width * l), width, start, count);
            &&& value(k, with_columns(h, Some((data, start)), width, l)) == replaced(
                k,
                value(k, h),
                at,
                (k.floats)(data),
            )
            &&& at.byte_offset == 4 * start * width
            &&& at.dims.d0 == width
        }),
        value(k, with_columns(h, None, width, l)) == value(k, h),
{
    lemma_values(k);
    assert(4 * (0 * width) == 0);
    assert(4 * (start * width) == 4 * start * width) by (nonlinear_arith);
}

/// A Qwen 3 pass over one text rotates token `i` by `position + i`, attends over
/// all tokens cached by then, and masks only where it brings several; packed texts
/// each start over and are always masked.
pub proof fn law_qwen3_counts_from_the_cached<F: Copy>(
    model: &Qwen3Model<F>,
    cache: &KvCache,
    tokens: Seq<u32>,
    position: u32,
    texts: Option<Seq<u32>>,
    i: int,
)
    requires
        0 <= i < tokens.len(),
        position + tokens.len() <= u32::MAX,
    ensures
        ({
            let inf = model.inference(cache, tokens, position, texts);
            &&& inf.tokens == tokens
            &&& texts is None ==> inf.positions.len() == tokens.len() && inf.positions[i]
                == position + i && (inf.mask is None <==> tokens.len() == 1)
            &&& texts is Some ==> inf.mask is Some
            &&& inf.pass.l == tokens.len()
            &&& inf.pass.position == position
            &&& inf.pass.total_len == position + tokens.len()
            &&& inf.pass.direct == cache.direct
        }),
{
}

/// A Gemma 4 pass rotates token `i` by `position + i`, attends over all tokens
/// cached by then, and masks only where it brings several.
pub proof fn law_gemma4_counts_from_the_cached<F: Copy>(
    model: &Gemma4Model<F>,
    cache: &KvCache,
    tokens: Seq<u32>,
    position: u32,
    image: Option<crate::models::gemma4::Columns<F>>,
    i: int,
)
    requires
        0 <= i < tokens.len(),
        position + tokens.len() <= u32::MAX,
    ensures
        ({
            let inp = model.input(cache, tokens, position, image);
            &&& inp.image == image
            &&& inp.inf.tokens == tokens
            &&& inp.inf.positions.len() == tokens.len()
            &&& inp.inf.positions[i] == position + i
            &&& inp.inf.pass.l == tokens.len()
            &&& inp.inf.pass.position == position
            &&& inp.inf.pass.total_len == position + tokens.len()
            &&& inp.inf.pass.direct == cache.direct
            &&& inp.inf.mask is None <==> tokens.len() == 1
        }),
{
}

/// Text tokens have the same value on all axes, one more for each token.
proof fn lemma_text_axes(l: int, i: int, c: int)
    requires
        0 <= i <= l,
    ensures
        axes_from(seq![], l, i, c).len() == l - i,
        forall|t: int|
            0 <= t < l - i ==> #[trigger] axes_from(seq![], l, i, c)[t] == (
                c + t,
                c + t,
                c + t,
                c + t,
            ),
    decreases l - i,
{
    if i < l {
        lemma_text_axes(l, i + 1, c + 1);
        let rest = axes_from(seq![], l, i + 1, c + 1);
        assert forall|t: int| 0 <= t < l - i implies #[trigger] axes_from(seq![], l, i, c)[t] == (
            c + t,
            c + t,
            c + t,
            c + t,
        ) by {
            if t > 0 {
                assert(axes_from(seq![], l, i, c)[t] == rest[t - 1]);
            }
        }
    }
}

/// A Qwen 3.5 pass over text gives token `i` the same rotary position on all four
/// axes: its cache position, less what earlier images saved. It attends over all
/// tokens cached by then, and masks only where it brings several.
pub proof fn law_qwen35_counts_from_the_cached<F: Copy>(
    model: &Qwen35MoeModel<F>,
    cache: &KvCache,
    tokens: Seq<u32>,
    position: u32,
    checkpoint: bool,
    i: int,
    axis: int,
)
    requires
        0 <= i < tokens.len(),
        0 <= axis < 4,
        position + tokens.len() <= u32::MAX,
        cache.rope_position_lag <= position,
    ensures
        ({
            let inp = model.input(cache, tokens, position, None, checkpoint);
            &&& inp.tokens == tokens
            &&& inp.splice is None
            &&& inp.positions.len() == 4 * tokens.len()
            &&& inp.positions[axis * tokens.len() + i] == position + i - cache.rope_position_lag
            &&& inp.pass.l == tokens.len()
            &&& inp.pass.position == position
            &&& inp.pass.total_len == position + tokens.len()
            &&& inp.pass.max_seq_len == cache.max_seq_len
            &&& inp.pass.direct == cache.direct
            &&& !inp.pass.rope.is_imrope
            &&& inp.mask is None <==> tokens.len() == 1
            &&& inp.checkpoint == checkpoint
        }),
{
    let l = tokens.len() as int;
    let c = rope_base(position, cache.rope_position_lag) as int;
    lemma_text_axes(l, 0, c);
    let values = axes_from(seq![], l, 0, c);
    let at = axis * l + i;
    assert(at % l == i && at / l == axis && 0 <= at < 4 * l) by (nonlinear_arith)
        requires
            0 <= i < l,
            0 <= axis < 4,
            at == axis * l + i,
    ;
    assert(flattened(values)[at] == crate::models::mrope::axis(values[i], axis) as u32);
    assert(values[i] == (c + i, c + i, c + i, c + i));
}

/// A rollback takes the state that was kept `accept` states behind the first, as
/// many numbers as the layer's state has.
pub proof fn law_rollback_takes_the_accepted_state(cache: &KvCache, j: int, accept: u32)
    requires
        cache.ssm_gdn_snapshots@[j].offset + (accept + 1) * cache.ssm_gdn_states@[j].size
            <= u64::MAX,
        cache.ssm_gdn_states@[j].size % 4 == 0,
    ensures
        snapshot_view(cache, j, accept).buffer == cache.ssm_gdn_snapshots@[j].buffer,
        snapshot_view(cache, j, accept).byte_offset == cache.ssm_gdn_snapshots@[j].offset + accept
            * cache.ssm_gdn_states@[j].size,
        snapshot_view(cache, j, accept).byte_size == cache.ssm_gdn_states@[j].size,
        state_view(cache, j).buffer == cache.ssm_gdn_states@[j].buffer,
        state_view(cache, j).byte_offset == cache.ssm_gdn_states@[j].offset,
        state_view(cache, j).byte_size == cache.ssm_gdn_states@[j].size,
{
    let size = cache.ssm_gdn_states@[j].size as int;
    assert(4 * (size / 4) == size);
    assert(accept * size <= (accept + 1) * size) by (nonlinear_arith)
        requires
            size >= 0,
            accept >= 0,
    ;
}

/// With a prompt before the canvas, every layer's output is multiplied by the
/// prompt's factor over the prompt's columns and by the canvas's factor over the
/// canvas's, and nothing else.
pub proof fn law_prompt_and_canvas_have_their_factors<F: Copy, V>(
    k: Meaning<F, V>,
    model: &DiffusiongemmaModel<F>,
    pass: CanvasPass<F>,
    h: Term<F>,
    i: int,
)
    requires
        flat(k),
        0 < pass.prompt < pass.n(),
        pass.n() <= u32::MAX,
    ensures
        ({
            let whole = dense(
                Buffer::Scratch { id: 0, bytes: 0 },
                matrix(model.params.n_embd as u64, pass.n() as u64),
            );
            let prompt = shape(columns(whole, 0, pass.prompt));
            let canvas = shape(columns(whole, pass.prompt, pass.n() - pass.prompt));
            let first = (k.over)(
                value(k, h),
                prompt,
                (k.scale)(model.params.enc_out_scale@[i], (k.seen)(value(k, h), prompt)),
            );
            value(k, model.region_scaled(pass, i, h)) == (k.over)(
                first,
                canvas,
                (k.scale)(model.params.out_scale@[i], (k.seen)(first, canvas)),
            )
        }),
{
    lemma_values(k);
}

} // verus!
