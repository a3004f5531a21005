//! The recurrent half of a Qwen 3.5 layer over several sequences of one token
//! each.
use vstd::prelude::*;

use crate::models::blocks::{ready, same_weights, undisturbed, weights_live};
use crate::models::cache::{slot_range, BatchKvCache};
use crate::models::qwen35_ssm::{
    conv_fits, conv_input_term, conv_term, convolution_bytes, make_shape, of_bytes,
    record_convolution, record_scan, record_ssm_inputs, record_ssm_out, scan_bytes, scan_fits,
    scan_floats, scan_term, ssm_alpha, ssm_beta, ssm_inputs_bytes, ssm_out_bytes,
    ssm_out_term, ssm_projected, ssm_shape,
};
use crate::models::qwen35_weights::{Qwen35MoeParams, SsmBlockWeights};
use crate::models::recorder::{
    content, later, op1, put, quiet, read, readable, reserved, through, DispatchContext, Memory,
    Op, RecordError, Term,
};
use crate::models::tensor::{
    covers, dense, flat, flat_view, matrix, Buffer, BufferRange, TensorView,
};

verus! {

/// The sequences fill the first slabs in order.
pub open spec fn in_order(slots: Seq<u32>) -> bool {
    forall|i: int| 0 <= i < slots.len() ==> #[trigger] slots[i] == i
}

/// Whether the sequences fill the first slabs in order.
pub fn is_in_order(slots: &[u32]) -> (r: bool)
    ensures
        r == in_order(slots@),
{
    let mut i: usize = 0;
    while i < slots.len()
        invariant
            i <= slots@.len(),
            forall|k: int| 0 <= k < i ==> #[trigger] slots@[k] == k,
        decreases slots@.len() - i,
    {
        if slots[i] as usize != i {
            assert(slots@[i as int] != i);
            return false;
        }
        i += 1;
    }
    true
}

/// The states of the first `n` slabs used, side by side.
pub open spec fn gathered_states<F>(
    held: Term<F>,
    all: BufferRange,
    floats: u64,
    slots: Seq<u32>,
    n: int,
) -> Term<F>
    decreases n,
{
    if n <= 0 {
        Term::Unset
    } else {
        put(
            gathered_states(held, all, floats, slots, n - 1),
            flat_view(
                of_bytes(4 * (slots.len() * floats)),
                4 * ((n - 1) * floats),
                floats as int,
            ),
            op1(
                Op::Copy,
                through(
                    held,
                    flat_view(
                        all.buffer,
                        slot_range(all, floats, slots[n - 1]).offset as int,
                        floats as int,
                    ),
                ),
            ),
        )
    }
}

/// Slabs that held `held`, after the first `n` states of `value`, which lie
/// there from `from` on, are written back.
pub open spec fn scattered_states<F>(
    held: Term<F>,
    all: BufferRange,
    floats: u64,
    slots: Seq<u32>,
    value: Term<F>,
    from: int,
    n: int,
) -> Term<F>
    decreases n,
{
    if n <= 0 {
        held
    } else {
        put(
            scattered_states(held, all, floats, slots, value, from, n - 1),
            flat_view(
                all.buffer,
                slot_range(all, floats, slots[n - 1]).offset as int,
                floats as int,
            ),
            op1(
                Op::Copy,
                through(
                    value,
                    flat_view(of_bytes(0), from + 4 * ((n - 1) * floats), floats as int),
                ),
            ),
        )
    }
}

/// Where a batched pass finds its states: in place, or gathered.
pub open spec fn working(all: BufferRange, floats: u64, slots: Seq<u32>) -> BufferRange {
    if in_order(slots) {
        all
    } else {
        BufferRange {
            buffer: of_bytes(4 * (slots.len() * floats)),
            offset: 0,
            size: (4 * (slots.len() * floats)) as u64,
        }
    }
}

/// What a batched pass finds there.
pub open spec fn working_held<F>(
    m: Memory<F>,
    all: BufferRange,
    floats: u64,
    slots: Seq<u32>,
) -> Term<F> {
    if in_order(slots) {
        content(m, all.buffer)
    } else {
        gathered_states(content(m, all.buffer), all, floats, slots, slots.len() as int)
    }
}

/// The convolution's input in a batched pass.
pub open spec fn batch_conv_input<F: Copy>(
    m: Memory<F>,
    p: &Qwen35MoeParams<F>,
    w: SsmBlockWeights,
    batch: &BatchKvCache,
    layer: int,
    slots: Seq<u32>,
    x: Term<F>,
) -> Term<F> {
    let c = ssm_shape(p, 1, slots.len() as u64);
    let all = batch.conv_states@[layer];
    conv_input_term(
        c,
        Some(
            (
                working_held(m, all, batch.conv_slot_floats, slots),
                working(all, batch.conv_slot_floats, slots),
            ),
        ),
        ssm_projected(m, p, w, c, x, w.attn_qkv),
    )
}

/// The scan of a batched pass.
pub open spec fn batch_scan<F: Copy>(
    m: Memory<F>,
    p: &Qwen35MoeParams<F>,
    w: SsmBlockWeights,
    batch: &BatchKvCache,
    layer: int,
    slots: Seq<u32>,
    x: Term<F>,
) -> Term<F> {
    let c = ssm_shape(p, 1, slots.len() as u64);
    let all = batch.gdn_states@[layer];
    let r = working(all, batch.gdn_slot_floats, slots);
    scan_term(
        p,
        c,
        1,
        p.gdn_scale,
        conv_term(
            m,
            w,
            c,
            batch_conv_input(m, p, w, batch, layer, slots, x),
            ssm_projected(m, p, w, c, x, w.attn_qkv),
            false,
        ),
        ssm_alpha(m, p, w, c, x),
        ssm_beta(m, p, w, c, x),
        through(
            working_held(m, all, batch.gdn_slot_floats, slots),
            flat_view(r.buffer, r.offset as int, c.b * c.state()),
        ),
    )
}

/// What a batched pass adds up to.
#[verifier::opaque]
pub open spec fn ssm_batch_term<F: Copy>(
    m: Memory<F>,
    p: &Qwen35MoeParams<F>,
    w: SsmBlockWeights,
    batch: &BatchKvCache,
    layer: int,
    slots: Seq<u32>,
    x: Term<F>,
) -> Term<F> {
    ssm_out_term(
        m,
        p,
        w,
        ssm_shape(p, 1, slots.len() as u64),
        x,
        batch_scan(m, p, w, batch, layer, slots, x),
        false,
    )
}

/// The convolution states after a batched pass.
#[verifier::opaque]
pub open spec fn ssm_batch_conv<F: Copy>(
    m: Memory<F>,
    p: &Qwen35MoeParams<F>,
    w: SsmBlockWeights,
    batch: &BatchKvCache,
    layer: int,
    slots: Seq<u32>,
    x: Term<F>,
) -> Term<F> {
    let c = ssm_shape(p, 1, slots.len() as u64);
    let all = batch.conv_states@[layer];
    let floats = batch.conv_slot_floats;
    let after = put(
        working_held(m, all, floats, slots),
        c.conv_state(working(all, floats, slots)),
        op1(
            Op::Cast,
            through(
                batch_conv_input(m, p, w, batch, layer, slots, x),
                c.last(of_bytes(c.conv_bytes())),
            ),
        ),
    );
    if in_order(slots) {
        after
    } else {
        scattered_states(
            content(m, all.buffer),
            all,
            floats,
            slots,
            after,
            0,
            slots.len() as int,
        )
    }
}

/// The recurrent states after a batched pass.
#[verifier::opaque]
pub open spec fn ssm_batch_gdn<F: Copy>(
    m: Memory<F>,
    p: &Qwen35MoeParams<F>,
    w: SsmBlockWeights,
    batch: &BatchKvCache,
    layer: int,
    slots: Seq<u32>,
    x: Term<F>,
) -> Term<F> {
    let c = ssm_shape(p, 1, slots.len() as u64);
    let all = batch.gdn_states@[layer];
    let scan = batch_scan(m, p, w, batch, layer, slots, x);
    if in_order(slots) {
        put(
            content(m, all.buffer),
            flat_view(all.buffer, all.offset as int, c.b * c.state()),
            op1(
                Op::Copy,
                through(scan, flat_view(of_bytes(0), 4 * c.outputs(), c.b * c.state())),
            ),
        )
    } else {
        scattered_states(
            content(m, all.buffer),
            all,
            batch.gdn_slot_floats,
            slots,
            scan,
            4 * c.outputs(),
            slots.len() as int,
        )
    }
}

/// Scratch that a batched recurrent layer takes: where the states are gathered,
/// they take a share of it.
pub open spec fn ssm_batch_bytes<F: Copy>(
    p: &Qwen35MoeParams<F>,
    batch: &BatchKvCache,
    slots: Seq<u32>,
) -> int {
    let c = ssm_shape(p, 1, slots.len() as u64);
    let gathered = if in_order(slots) {
        0
    } else {
        4 * (slots.len() * batch.conv_slot_floats) + 4 * (slots.len() * batch.gdn_slot_floats)
    };
    ssm_inputs_bytes(c) + gathered + convolution_bytes(c) + scan_bytes(c, 1, false)
        + ssm_out_bytes(c, false)
}

/// A batched recurrent layer fits what `used` bytes leave of scratch.
pub open spec fn ssm_batch_fits<F: Copy>(
    p: &Qwen35MoeParams<F>,
    batch: &BatchKvCache,
    slots: Seq<u32>,
    used: int,
    room: u64,
) -> bool {
    let c = ssm_shape(p, 1, slots.len() as u64);
    &&& conv_fits(c, room)
    &&& scan_fits(c, 1, false, room)
    &&& used + ssm_batch_bytes(p, batch, slots) <= room
}

/// Every sequence has a slab.
pub open spec fn slots_ok(batch: &BatchKvCache, slots: Seq<u32>) -> bool {
    forall|i: int| 0 <= i < slots.len() ==> (#[trigger] slots[i]) < batch.positions@.len()
}

/// A part of `floats` elements lies within `b` of them.
proof fn lemma_part(i: int, b: int, floats: u64, room: u64)
    requires
        0 <= i < b,
        4 * (b * floats) <= room,
    ensures
        0 <= i * floats,
        0 <= b * floats,
        4 * (i * floats) + 4 * floats <= room,
{
    assert(0 <= i * floats && (i + 1) * floats <= b * floats && (i + 1) * floats == i * floats
        + floats) by (nonlinear_arith)
        requires
            0 <= i < b,
            floats >= 0,
    ;
}

/// Record the gathering of one kind of state into `work`.
fn record_gather_states<F: Copy>(
    ctx: &mut DispatchContext<F>,
    all: BufferRange,
    floats: u64,
    slots: &[u32],
    n_slots: usize,
    work: TensorView,
)
    requires
        1 <= slots@.len() <= u32::MAX,
        !(all.buffer is Scratch),
        !(content(old(ctx).memory(), all.buffer) is Unset),
        !old(ctx).memory().pending.contains(all.buffer),
        all.offset + n_slots * (4 * floats) <= u64::MAX,
        forall|i: int| 0 <= i < slots@.len() ==> (#[trigger] slots@[i]) < n_slots,
        4 * (slots@.len() * floats) <= old(ctx).region,
        work.buffer matches Buffer::Scratch { id: _, bytes } && bytes == 4 * (slots@.len()
            * floats),
        reserved(old(ctx).memory(), work.buffer),
        content(old(ctx).memory(), work.buffer) is Unset,
    ensures
        final(ctx).region == old(ctx).region,
        final(ctx).replay == old(ctx).replay,
        final(ctx).used == old(ctx).used,
        final(ctx).at() >= old(ctx).at(),
        reserved(final(ctx).memory(), work.buffer),
        content(final(ctx).memory(), work.buffer) == gathered_states(
            content(old(ctx).memory(), all.buffer),
            all,
            floats,
            slots@,
            slots@.len() as int,
        ),
        forall|y: Buffer| #[trigger]
            final(ctx).memory().pending.contains(y) ==> y == work.buffer || old(
                ctx,
            ).memory().pending.contains(y),
        undisturbed(
            old(ctx).memory(),
            final(ctx).memory(),
            old(ctx).at(),
            set![work.buffer],
        ),
        forall|y: Buffer|
            #![trigger content(final(ctx).memory(), y)]
            #![trigger reserved(final(ctx).memory(), y)]
            y != work.buffer ==> content(final(ctx).memory(), y) == content(
                old(ctx).memory(),
                y,
            ) && (reserved(old(ctx).memory(), y) ==> reserved(final(ctx).memory(), y)),
{
    let ghost m0 = ctx.memory();
    let mut i: usize = 0;
    while i < slots.len()
        invariant
            i <= slots@.len() <= u32::MAX,
            m0 == old(ctx).memory(),
            ctx.region == old(ctx).region,
            ctx.replay == old(ctx).replay,
            ctx.used == old(ctx).used,
            ctx.at() >= old(ctx).at(),
            !(all.buffer is Scratch),
            !(content(m0, all.buffer) is Unset),
            !m0.pending.contains(all.buffer),
            all.offset + n_slots * (4 * floats) <= u64::MAX,
            forall|k: int| 0 <= k < slots@.len() ==> (#[trigger] slots@[k]) < n_slots,
            4 * (slots@.len() * floats) <= ctx.region,
            work.buffer matches Buffer::Scratch { id: _, bytes } && bytes == 4 * (slots@.len()
                * floats),
            reserved(ctx.memory(), work.buffer),
            content(ctx.memory(), work.buffer) == gathered_states(
                content(m0, all.buffer),
                all,
                floats,
                slots@,
                i as int,
            ),
            forall|y: Buffer| #[trigger]
                ctx.memory().pending.contains(y) ==> y == work.buffer || m0.pending.contains(y),
            forall|y: Buffer|
                #![trigger content(ctx.memory(), y)]
                #![trigger reserved(ctx.memory(), y)]
                y != work.buffer ==> content(ctx.memory(), y) == content(m0, y) && (reserved(m0, y)
                    ==> reserved(ctx.memory(), y)),
        decreases slots@.len() - i,
    {
        proof {
            lemma_part(i as int, slots@.len() as int, floats, ctx.region);
            let slot = slots@[i as int];
            assert(0 <= slot * (4 * floats) && slot * (4 * floats) <= n_slots * (4 * floats))
                by (nonlinear_arith)
                requires
                    0 <= slot <= n_slots,
                    floats >= 0,
            ;
        }
        let slot: u64 = slots[i] as u64;
        let src = flat(all.buffer, all.offset + slot * (4 * floats), floats);
        let dst = flat(work.buffer, 4 * (i as u64 * floats), floats);
        proof {
            let own = of_bytes(4 * (slots@.len() * floats));
            assert(covers(flat_view(own, 4 * (i * floats), floats as int)) == covers(dst));
        }
        let ghost m1 = ctx.memory();
        ctx.copy_part(src, dst);
        proof {
            assert forall|y: Buffer| y != work.buffer implies content(ctx.memory(), y) == content(
                m0,
                y,
            ) && (reserved(m0, y) ==> reserved(ctx.memory(), y)) by {
                assert(content(m1, y) == content(m0, y));
            }
        }
        i += 1;
    }
}

/// Record the writing back of one kind of state from `value`, where the states
/// lie from `from` on.
fn record_scatter_states<F: Copy>(
    ctx: &mut DispatchContext<F>,
    all: BufferRange,
    floats: u64,
    slots: &[u32],
    n_slots: usize,
    value: TensorView,
    from: u64,
)
    requires
        1 <= slots@.len() <= u32::MAX,
        !(all.buffer is Scratch),
        all.offset + n_slots * (4 * floats) <= u64::MAX,
        forall|i: int| 0 <= i < slots@.len() ==> (#[trigger] slots@[i]) < n_slots,
        from + 4 * (slots@.len() * floats) <= u64::MAX,
        readable(old(ctx).memory(), value),
        value.buffer is Scratch,
    ensures
        final(ctx).region == old(ctx).region,
        final(ctx).replay == old(ctx).replay,
        final(ctx).used == old(ctx).used,
        final(ctx).at() >= old(ctx).at(),
        content(final(ctx).memory(), all.buffer) == scattered_states(
            content(old(ctx).memory(), all.buffer),
            all,
            floats,
            slots@,
            content(old(ctx).memory(), value.buffer),
            from as int,
            slots@.len() as int,
        ),
        !(content(final(ctx).memory(), all.buffer) is Unset),
        forall|y: Buffer| #[trigger]
            final(ctx).memory().pending.contains(y) ==> y == all.buffer || old(
                ctx,
            ).memory().pending.contains(y),
        forall|y: Buffer|
            #![trigger content(final(ctx).memory(), y)]
            #![trigger reserved(final(ctx).memory(), y)]
            y != all.buffer ==> content(final(ctx).memory(), y) == content(
                old(ctx).memory(),
                y,
            ) && (reserved(old(ctx).memory(), y) ==> reserved(final(ctx).memory(), y)),
{
    let ghost m0 = ctx.memory();
    let mut i: usize = 0;
    while i < slots.len()
        invariant
            1 <= slots@.len() <= u32::MAX,
            i <= slots@.len(),
            m0 == old(ctx).memory(),
            ctx.region == old(ctx).region,
            ctx.replay == old(ctx).replay,
            ctx.used == old(ctx).used,
            ctx.at() >= old(ctx).at(),
            !(all.buffer is Scratch),
            all.offset + n_slots * (4 * floats) <= u64::MAX,
            forall|k: int| 0 <= k < slots@.len() ==> (#[trigger] slots@[k]) < n_slots,
            from + 4 * (slots@.len() * floats) <= u64::MAX,
            readable(m0, value),
            value.buffer is Scratch,
            content(ctx.memory(), all.buffer) == scattered_states(
                content(m0, all.buffer),
                all,
                floats,
                slots@,
                content(m0, value.buffer),
                from as int,
                i as int,
            ),
            i > 0 ==> !(content(ctx.memory(), all.buffer) is Unset),
            forall|y: Buffer| #[trigger]
                ctx.memory().pending.contains(y) ==> y == all.buffer || m0.pending.contains(y),
            forall|y: Buffer|
                #![trigger content(ctx.memory(), y)]
                #![trigger reserved(ctx.memory(), y)]
                y != all.buffer ==> content(ctx.memory(), y) == content(m0, y) && (reserved(m0, y)
                    ==> reserved(ctx.memory(), y)),
        decreases slots@.len() - i,
    {
        proof {
            lemma_part(
                i as int,
                slots@.len() as int,
                floats,
                (4 * (slots@.len() * floats)) as u64,
            );
            let slot = slots@[i as int];
            assert(0 <= slot * (4 * floats) && slot * (4 * floats) <= n_slots * (4 * floats))
                by (nonlinear_arith)
                requires
                    0 <= slot <= n_slots,
                    floats >= 0,
            ;
        }
        let slot: u64 = slots[i] as u64;
        let src = flat(value.buffer, from + 4 * (i as u64 * floats), floats);
        let dst = flat(all.buffer, all.offset + slot * (4 * floats), floats);
        let ghost m1 = ctx.memory();
        ctx.copy_part(src, dst);
        proof {
            assert forall|y: Buffer| y != all.buffer implies content(ctx.memory(), y) == content(
                m0,
                y,
            ) && (reserved(m0, y) ==> reserved(ctx.memory(), y)) by {
                assert(content(m1, y) == content(m0, y));
            }
        }
        i += 1;
    }
}

/// Record the recurrent half of a layer over several sequences of one token
/// each. Where they fill the first slabs in order, their states are used in
/// place; else the states are gathered, and written back after.
#[verifier::rlimit(40)]
pub fn ssm_block_batch<F: Copy>(
    ctx: &mut DispatchContext<F>,
    w: &SsmBlockWeights,
    batch: &BatchKvCache,
    residual: TensorView,
    p: &Qwen35MoeParams<F>,
    layer: usize,
    slots: &[u32],
) -> (r: Result<(), RecordError>)
    requires
        p.wf(),
        1 <= slots@.len() <= u32::MAX,
        quiet(old(ctx).memory()),
        weights_live(old(ctx).memory()),
        w.apart(),
        batch.ssm_layered(layer as int + 1),
        slots_ok(batch, slots@),
        batch.gdn_slot_floats == p.state_size(),
        !(content(old(ctx).memory(), Buffer::ConvSlabs(layer as u64)) is Unset),
        !(content(old(ctx).memory(), Buffer::GdnSlabs(layer as u64)) is Unset),
        residual == dense(residual.buffer, matrix(p.n_embd as u64, slots@.len() as u64)),
        covers(residual),
        residual.buffer is Scratch,
        ready(old(ctx), residual),
    ensures
        final(ctx).region == old(ctx).region,
        final(ctx).replay == old(ctx).replay,
        final(ctx).at() >= old(ctx).at(),
        r matches Err(e) ==> e is ScratchExhausted,
        r is Ok <==> ssm_batch_fits(p, batch, slots@, old(ctx).used as int, old(ctx).region),
        r is Ok ==> final(ctx).used == old(ctx).used + ssm_batch_bytes(p, batch, slots@),
        r is Ok ==> {
            let m = old(ctx).memory();
            let x = read(m, residual);
            let layer_i = layer as int;
            let cb = Buffer::ConvSlabs(layer as u64);
            let gb = Buffer::GdnSlabs(layer as u64);
            &&& content(final(ctx).memory(), residual.buffer) == ssm_batch_term(
                m,
                p,
                *w,
                batch,
                layer_i,
                slots@,
                x,
            )
            &&& content(final(ctx).memory(), cb) == ssm_batch_conv(
                m,
                p,
                *w,
                batch,
                layer_i,
                slots@,
                x,
            )
            &&& content(final(ctx).memory(), gb) == ssm_batch_gdn(
                m,
                p,
                *w,
                batch,
                layer_i,
                slots@,
                x,
            )
            &&& !(content(final(ctx).memory(), cb) is Unset)
            &&& !(content(final(ctx).memory(), gb) is Unset)
            &&& ready(final(ctx), residual)
            &&& quiet(final(ctx).memory())
            &&& undisturbed(
                m,
                final(ctx).memory(),
                old(ctx).at(),
                set![residual.buffer, cb, gb],
            )
        },
{
    proof {
        reveal(ssm_batch_term);
        reveal(ssm_batch_conv);
        reveal(ssm_batch_gdn);
        assert(batch.ssm_named(layer as int));
    }
    let ghost m0 = ctx.memory();
    let ghost x = read(m0, residual);
    let ghost cb = Buffer::ConvSlabs(layer as u64);
    let ghost gb = Buffer::GdnSlabs(layer as u64);
    let ghost changed = set![residual.buffer, cb, gb];
    let b: u64 = slots.len() as u64;
    let c = make_shape(p, 1, b);
    let all_conv = batch.conv_states[layer];
    let all_gdn = batch.gdn_states[layer];
    let conv_floats: u64 = batch.conv_slot_floats;
    let gdn_floats: u64 = batch.gdn_slot_floats;
    let n_slots: usize = batch.positions.len();
    let in_place: bool = is_in_order(slots);
    let i = record_ssm_inputs(ctx, w, residual, p, c)?;
    let ghost m1 = ctx.memory();
    proof {
        assert(content(m1, cb) == content(m0, cb) && content(m1, gb) == content(m0, gb));
        assert(content(m1, residual.buffer) == content(m0, residual.buffer));
        assert(reserved(m1, residual.buffer));
    }
    let (conv, gdn) = if in_place {
        (all_conv, all_gdn)
    } else {
        proof {
            assert(0 <= b * conv_floats && 0 <= b * gdn_floats) by (nonlinear_arith);
        }
        let conv_all: u64 = match b.checked_mul(conv_floats) {
            Some(v) => v,
            None => {
                return Err(RecordError::ScratchExhausted);
            },
        };
        let gdn_all: u64 = match b.checked_mul(gdn_floats) {
            Some(v) => v,
            None => {
                return Err(RecordError::ScratchExhausted);
            },
        };
        let conv_work = ctx.alloc_matrix(conv_all, 1)?;
        let gdn_work = ctx.alloc_matrix(gdn_all, 1)?;
        let ghost m2 = ctx.memory();
        record_gather_states(ctx, all_conv, conv_floats, slots, n_slots, conv_work);
        let ghost m3 = ctx.memory();
        assert(content(m3, gdn_work.buffer) == content(m2, gdn_work.buffer));
        assert(content(m3, gb) == content(m0, gb));
        record_gather_states(ctx, all_gdn, gdn_floats, slots, n_slots, gdn_work);
        let ghost m4 = ctx.memory();
        assert(content(m4, conv_work.buffer) == content(m3, conv_work.buffer));
        ctx.barrier_all();
        proof {
            let m5 = ctx.memory();
            assert forall|y: Buffer|
                y != conv_work.buffer && y != gdn_work.buffer implies content(m5, y) == content(
                m1,
                y,
            ) && (reserved(m1, y) ==> reserved(m5, y)) by {
                assert(content(m3, y) == content(m2, y));
                assert(content(m4, y) == content(m3, y));
            }
            assert(gathered_states(content(m0, cb), all_conv, conv_floats, slots@, b as int)
                !is Unset) by {
                assert(slots@.len() == b);
            }
            assert(gathered_states(content(m0, gb), all_gdn, gdn_floats, slots@, b as int)
                !is Unset);
        }
        (
            BufferRange { buffer: conv_work.buffer, offset: 0, size: conv_work.byte_size },
            BufferRange { buffer: gdn_work.buffer, offset: 0, size: gdn_work.byte_size },
        )
    };
    let ghost m5 = ctx.memory();
    proof {
        assert(content(m5, conv.buffer) == working_held(m0, all_conv, conv_floats, slots@));
        assert(content(m5, gdn.buffer) == working_held(m0, all_gdn, gdn_floats, slots@));
        assert(content(m5, i.qkv.buffer) == content(m1, i.qkv.buffer));
        assert(content(m5, i.z.buffer) == content(m1, i.z.buffer));
        assert(content(m5, i.alpha.buffer) == content(m1, i.alpha.buffer));
        assert(content(m5, i.beta.buffer) == content(m1, i.beta.buffer));
        assert(reserved(m5, i.qkv.buffer) && reserved(m5, i.z.buffer) && reserved(
            m5,
            i.alpha.buffer,
        ) && reserved(m5, i.beta.buffer));
        assert(content(m5, residual.buffer) == content(m0, residual.buffer) && reserved(
            m5,
            residual.buffer,
        ));
        assert(content(m5, cb) == content(m0, cb) && content(m5, gb) == content(m0, gb));
        assert forall|y: Buffer| !later(y, old(ctx).at()) implies content(m5, y) == content(m0, y)
            && (reserved(m0, y) ==> reserved(m5, y)) by {
            assert(content(m1, y) == content(m0, y));
        }
        assert(undisturbed(m0, m5, old(ctx).at(), Set::empty()));
        assert(weights_live(m5));
    }
    let conv_out = record_convolution(ctx, w, c, i, Some(conv), None, false)?;
    let ghost m6 = ctx.memory();
    proof {
        assert(content(m6, gdn.buffer) == content(m5, gdn.buffer) && reserved(m6, gdn.buffer));
        assert(content(m6, i.alpha.buffer) == content(m5, i.alpha.buffer));
        assert(content(m6, i.beta.buffer) == content(m5, i.beta.buffer));
        assert(content(m6, i.z.buffer) == content(m5, i.z.buffer));
        assert(content(m6, residual.buffer) == content(m5, residual.buffer));
        assert(reserved(m6, i.alpha.buffer) && reserved(m6, i.beta.buffer) && reserved(
            m6,
            i.z.buffer,
        ) && reserved(m6, residual.buffer));
        assert(content(m5, w.ssm_conv1d.buffer) == content(m0, w.ssm_conv1d.buffer));
        assert(covers(c.conv_state(conv)) == covers(
            c.conv_state(working(all_conv, conv_floats, slots@)),
        ));
        assert(content(m6, gb) == content(m0, gb));
    }
    let scan = record_scan(ctx, p, c, i, conv_out, Some(gdn), 1, p.gdn_scale)?;
    let ghost m7 = ctx.memory();
    proof {
        assert(content(m7, scan.buffer) == batch_scan(
            m0,
            p,
            *w,
            batch,
            layer as int,
            slots@,
            x,
        ));
        assert(content(m7, conv.buffer) == content(m6, conv.buffer) && reserved(m7, conv.buffer));
        assert(content(m7, i.z.buffer) == content(m5, i.z.buffer) && reserved(m7, i.z.buffer));
        assert(content(m7, residual.buffer) == content(m0, residual.buffer) && reserved(
            m7,
            residual.buffer,
        ));
        assert(content(m7, gb) == content(m0, gb));
        assert(content(m7, cb) == content(m6, cb));
    }
    ctx.barrier_all();
    let ghost m8 = ctx.memory();
    let value_dim: u64 = c.num_v * c.s_v;
    let outputs: u64 = (c.l * c.b) * value_dim;
    let state: u64 = c.b * (value_dim * c.s_v);
    if in_place {
        let src = flat(scan.buffer, 4 * outputs, state);
        let dst = flat(gdn.buffer, gdn.offset, state);
        ctx.copy_part(src, dst);
    } else {
        assert(content(m8, conv.buffer) == content(m6, conv.buffer));
        let conv_view = flat(conv.buffer, 0, conv.size / 4);
        record_scatter_states(ctx, all_conv, conv_floats, slots, n_slots, conv_view, 0);
        let ghost m9 = ctx.memory();
        assert(content(m9, scan.buffer) == content(m8, scan.buffer) && reserved(m9, scan.buffer));
        assert(content(m9, gb) == content(m8, gb));
        proof {
            assert(scan_floats(c, 1) == outputs + 1 * (c.b * c.state()));
            assert(4 * outputs + 4 * (b * gdn_floats) <= u64::MAX);
        }
        record_scatter_states(ctx, all_gdn, gdn_floats, slots, n_slots, scan, 4 * outputs);
        assert(content(ctx.memory(), cb) == content(m9, cb));
    }
    let ghost m10 = ctx.memory();
    ctx.barrier_all();
    proof {
        let m11 = ctx.memory();
        assert forall|y: Buffer| !later(y, old(ctx).at()) && !changed.contains(y) implies content(
            m11,
            y,
        ) == content(m0, y) && (reserved(m0, y) ==> reserved(m11, y)) by {
            assert(content(m5, y) == content(m0, y));
            assert(content(m6, y) == content(m5, y));
            assert(content(m7, y) == content(m6, y));
            assert(content(m10, y) == content(m8, y));
        }
        assert(undisturbed(m0, m11, old(ctx).at(), changed));
        assert(same_weights(m11, m0));
        assert(weights_live(m11));
        assert(content(m10, scan.buffer) == content(m7, scan.buffer) && reserved(m10, scan.buffer));
        assert(content(m10, i.z.buffer) == content(m7, i.z.buffer) && reserved(m10, i.z.buffer));
        assert(content(m10, residual.buffer) == content(m0, residual.buffer) && reserved(
            m10,
            residual.buffer,
        ));
        assert(ready(ctx, residual) && ready(ctx, i.z) && ready(ctx, scan));
    }
    let ghost m11 = ctx.memory();
    record_ssm_out(ctx, w, residual, p, c, i.z, scan, false, Ghost(x), Ghost(m0))?;
    proof {
        let m12 = ctx.memory();
        assert(content(m12, cb) == content(m11, cb) && content(m12, gb) == content(m11, gb));
        assert forall|y: Buffer| !later(y, old(ctx).at()) && !changed.contains(y) implies content(
            m12,
            y,
        ) == content(m0, y) && (reserved(m0, y) ==> reserved(m12, y)) by {
            assert(content(m11, y) == content(m0, y));
        }
    }
    Ok(())
}

/// A batched recurrent layer depends on memory through its weights and slabs
/// alone.
pub proof fn lemma_same_ssm_batch<F: Copy>(
    a: Memory<F>,
    m: Memory<F>,
    p: &Qwen35MoeParams<F>,
    w: SsmBlockWeights,
    batch: &BatchKvCache,
    layer: int,
    slots: Seq<u32>,
    x: Term<F>,
)
    requires
        w.apart(),
        same_weights(a, m),
        content(a, batch.conv_states@[layer].buffer) == content(
            m,
            batch.conv_states@[layer].buffer,
        ),
        content(a, batch.gdn_states@[layer].buffer) == content(m, batch.gdn_states@[layer].buffer),
    ensures
        ssm_batch_term(a, p, w, batch, layer, slots, x) == ssm_batch_term(
            m,
            p,
            w,
            batch,
            layer,
            slots,
            x,
        ),
        ssm_batch_conv(a, p, w, batch, layer, slots, x) == ssm_batch_conv(
            m,
            p,
            w,
            batch,
            layer,
            slots,
            x,
        ),
        ssm_batch_gdn(a, p, w, batch, layer, slots, x) == ssm_batch_gdn(
            m,
            p,
            w,
            batch,
            layer,
            slots,
            x,
        ),
{
    reveal(ssm_batch_term);
    reveal(ssm_batch_conv);
    reveal(ssm_batch_gdn);
}

} // verus!
