//! How steps are shared out, and what reuse leaves to compute.
use vstd::prelude::*;

use crate::server::admission::{kept, pure_extension};
use crate::server::inference::{reported_end, reported_prompt_tokens, GenEvent, StopReason};
use crate::server::media::encoder_scratch;
use crate::server::prefix_cache::{seed_of, PrefixCache};
use crate::server::scheduler::{
    chunk_budget, decodes, failed_seq, fed_by, grant, is_chunk, is_decode, left, marked,
    packed_positions, packed_tokens, parts_of, rope_of,
};
use crate::server::sequence::{ends, ActiveSeq};
use crate::server::slots::{reusable, selected, warm};
use crate::server::worker::{count_idle, idle, priors, slab_for, stamps, SlotMeta, Worker};

verus! {

/// The number of decodes grows with the stretch it counts.
proof fn lemma_decodes_grow(active: Seq<ActiveSeq>, m: int, n: int)
    requires
        0 <= m <= n,
    ensures
        0 <= decodes(active, m) <= decodes(active, n),
    decreases n,
{
    if m < n {
        lemma_decodes_grow(active, m, n - 1);
    } else if m > 0 {
        lemma_decodes_grow(active, m - 1, n - 1);
    }
}

/// What is left for chunks never grows on the way.
proof fn lemma_chunks_take(active: Seq<ActiveSeq>, max: int, m: int, n: int)
    requires
        0 <= max,
        0 <= m <= n <= active.len(),
    ensures
        0 <= chunk_budget(active, max, n) <= chunk_budget(active, max, m),
        chunk_budget(active, max, 0) == 0 || decodes(active, active.len() as int) < max,
    decreases n,
{
    lemma_decodes_grow(active, 0, active.len() as int);
    if m < n {
        lemma_chunks_take(active, max, m, n - 1);
    } else if m > 0 {
        lemma_chunks_take(active, max, m - 1, n - 1);
    }
}

/// A sequence is never fed more than it has left, nor anything once it is over.
pub proof fn law_nothing_is_fed_twice(active: Seq<ActiveSeq>, max: int, i: int)
    requires
        0 <= max,
        0 <= i < active.len(),
    ensures
        0 <= grant(active, max, i),
        grant(active, max, i) > 0 ==> active[i].live() && grant(active, max, i) <= left(active[i]),
{
    lemma_chunks_take(active, max, i, i);
}

/// Prefill gets what the decodes leave: where any of it is fed, every decode is.
pub proof fn law_prefill_waits_for_decodes(active: Seq<ActiveSeq>, max: int, i: int, j: int)
    requires
        0 <= max,
        0 <= i < active.len(),
        0 <= j < active.len(),
        is_chunk(active[i]),
        grant(active, max, i) > 0,
        is_decode(active[j]),
    ensures
        grant(active, max, j) == 1,
{
    lemma_chunks_take(active, max, 0, i);
    lemma_decodes_grow(active, j + 1, active.len() as int);
}

/// Prefill is fed in order: where one sequence does not get all that it has left,
/// none behind it gets anything.
pub proof fn law_prefill_is_fed_in_order(active: Seq<ActiveSeq>, max: int, i: int, j: int)
    requires
        0 <= max,
        0 <= i < j < active.len(),
        is_chunk(active[i]),
        is_chunk(active[j]),
        grant(active, max, i) < left(active[i]),
    ensures
        grant(active, max, j) == 0,
{
    lemma_chunks_take(active, max, i, i);
    assert(chunk_budget(active, max, i + 1) == 0);
    lemma_chunks_take(active, max, i + 1, j);
}

/// The participants of a step are the sequences that are fed, in order, each with
/// what it is fed.
pub proof fn law_participants_are_those_fed(active: Seq<ActiveSeq>, max: int, n: int, k: int)
    requires
        0 <= max <= u32::MAX,
        0 <= n <= active.len() <= usize::MAX,
        0 <= k < parts_of(active, max, n).len(),
    ensures
        ({
            let p = parts_of(active, max, n);
            &&& p[k].0 < n
            &&& grant(active, max, p[k].0 as int) > 0
            &&& p[k].1 == grant(active, max, p[k].0 as int) as u32
            &&& k > 0 ==> p[k - 1].0 < p[k].0
        }),
    decreases n,
{
    if n > 0 {
        let before = parts_of(active, max, n - 1);
        if k < before.len() {
            law_participants_are_those_fed(active, max, n - 1, k);
        } else if k > 0 {
            law_participants_are_those_fed(active, max, n - 1, k - 1);
        }
    }
}

/// A participant is fed the next tokens of its conversation, at the positions that
/// follow those already cached, less the lag of its slab.
pub proof fn law_a_participant_goes_on(
    active: Seq<ActiveSeq>,
    lag: Seq<u32>,
    p: (usize, u32),
    o: int,
)
    requires
        0 <= o < p.1,
        active[p.0 as int].num_computed + p.1 <= active[p.0 as int].logical().len(),
        active[p.0 as int].num_computed + p.1 <= u32::MAX,
        lag[active[p.0 as int].slab as int] <= active[p.0 as int].num_computed,
    ensures
        ({
            let s = active[p.0 as int];
            let at = s.num_computed + o;
            &&& fed_by(active, p).len() == p.1
            &&& fed_by(active, p)[o] == if at < s.prompt@.len() {
                s.prompt@[at]
            } else {
                s.generated@[at - s.prompt@.len()]
            }
            &&& rope_of(active, lag, p).len() == p.1
            &&& rope_of(active, lag, p)[o] == at - lag[s.slab as int]
        }),
{
}

/// A sequence whose next token would not fit the context ends there; every other
/// one is left as it is.
pub proof fn law_full_context_ends_a_sequence(active: Seq<ActiveSeq>, ctx: u32, i: int)
    requires
        0 <= i < active.len(),
    ensures
        marked(active, ctx).len() == active.len(),
        active[i].live() && active[i].num_computed + 1 >= ctx ==> marked(active, ctx)[i].terminal
            == Some(StopReason::ContextFull) && marked(active, ctx)[i].logical()
            == active[i].logical(),
        !(active[i].live() && active[i].num_computed + 1 >= ctx) ==> marked(active, ctx)[i]
            == active[i],
{
}

/// Whatever of a prompt is kept from its slab, a token is left to compute.
pub proof fn law_a_token_is_left_to_compute(w: &Worker, slab: int, tokens: Seq<u32>)
    requires
        pure_extension(w, slab, tokens),
        tokens.len() > 0,
    ensures
        kept(w, slab, tokens) < tokens.len(),
        kept(w, slab, tokens) <= w.slots@[slab].prior_tokens@.len(),
        kept(w, slab, tokens) + 1 >= w.slots@[slab].prior_tokens@.len(),
        w.slots@[slab].prior_tokens@.len() < tokens.len() ==> kept(w, slab, tokens)
            == w.slots@[slab].prior_tokens@.len(),
{
}

/// Whatever of a prompt is seeded from a snapshot, a token is left to compute, and
/// all of the snapshot is used otherwise.
pub proof fn law_a_seed_leaves_a_token(
    pc: &PrefixCache,
    new_tokens: Seq<u32>,
    prompt_tokens: u32,
    i: int,
)
    ensures
        prompt_tokens > 0 ==> seed_of(pc, new_tokens, prompt_tokens, i) < prompt_tokens,
        seed_of(pc, new_tokens, prompt_tokens, i) <= pc.entries@[i]->0.p,
        pc.entries@[i]->0.p < prompt_tokens ==> seed_of(pc, new_tokens, prompt_tokens, i)
            == pc.entries@[i]->0.p,
{
}

/// A token ends a generation exactly where it is one of the model's end tokens and
/// the request does not ask for them to be ignored.
pub proof fn law_ignored_end_tokens_do_not_end(seq: &ActiveSeq, eog: Seq<u32>, token: u32)
    ensures
        seq.ignore_eos ==> !ends(seq, eog, token),
        !seq.ignore_eos ==> (ends(seq, eog, token) <==> eog.contains(token)),
{
}

/// A reply that ends in a closing event has that event's reason and counts,
/// whatever went before.
pub proof fn law_closing_event_counts(events: Seq<GenEvent>)
    requires
        events.len() > 0,
    ensures
        events.last() matches GenEvent::Done { stop_reason, prompt_tokens, completion_tokens } ==> {
            &&& reported_end(events) == (stop_reason, completion_tokens)
            &&& reported_prompt_tokens(events) == prompt_tokens
        },
        events.last() is Delta ==> reported_end(events) == reported_end(events.drop_last())
            && reported_prompt_tokens(events) == reported_prompt_tokens(events.drop_last()),
{
}

/// An encoder's scratch grows with its positions and is never under 64 MiB.
pub proof fn law_encoder_scratch_has_a_floor(a: int, b: int)
    requires
        0 <= a <= b,
    ensures
        encoder_scratch(a) >= 64 * 1024 * 1024,
        encoder_scratch(a) >= 160_000 * a,
        encoder_scratch(a) == 64 * 1024 * 1024 || encoder_scratch(a) == 160_000 * a,
        encoder_scratch(a) <= encoder_scratch(b),
{
}

/// A snapshot is due exactly where prefill reaches or passes a multiple of the
/// cache's stride.
pub proof fn law_snapshots_are_due_at_multiples(w: &Worker, prev: int, p: int, m: int)
    requires
        w.prefix_cache matches Some(pc) && pc.ckpt_stride > 0,
        0 <= prev <= p,
    ensures
        ({
            let stride = w.prefix_cache->0.ckpt_stride as int;
            &&& prev < m * stride <= p ==> w.checkpoint_due(prev, p)
            &&& w.checkpoint_due(prev, p) ==> prev < (p / stride) * stride <= p
        }),
{
    let stride = w.prefix_cache->0.ckpt_stride as int;
    let a = prev / stride;
    let b = p / stride;
    vstd::arithmetic::div_mod::lemma_fundamental_div_mod(prev, stride);
    vstd::arithmetic::div_mod::lemma_fundamental_div_mod(p, stride);
    assert(stride * a == a * stride && stride * b == b * stride) by (nonlinear_arith);
    if prev < m * stride && m * stride <= p {
        assert(a < m) by (nonlinear_arith)
            requires
                a * stride <= prev,
                prev < m * stride,
                stride > 0,
        ;
        assert(m <= b) by (nonlinear_arith)
            requires
                m * stride <= p,
                p < b * stride + stride,
                stride > 0,
        ;
    }
    if a < b {
        assert(a * stride + stride <= b * stride) by (nonlinear_arith)
            requires
                a + 1 <= b,
                stride > 0,
        ;
    }
}

/// A cache that is not there takes no snapshot.
pub proof fn law_no_cache_takes_no_snapshot(w: &Worker, prev: int, p: int)
    requires
        w.prefix_cache is None,
    ensures
        !w.checkpoint_due(prev, p),
{
}

/// A request gets the slab that it names, where that one is idle. Otherwise it gets
/// an idle one: one that holds the longest beginning of its prompt where any holds
/// one, and the one that was used longest ago where none does.
pub proof fn law_a_request_gets_the_best_idle_slab(
    slots: Seq<SlotMeta>,
    tokens: Seq<u32>,
    id_slot: Option<usize>,
    r: int,
    j: int,
)
    requires
        slab_for(slots, tokens, id_slot, r),
        0 <= j < slots.len(),
        !slots[j].active,
    ensures
        0 <= r < slots.len(),
        !slots[r].active,
        id_slot == Some(j as usize) && j <= usize::MAX ==> r == j,
        !(id_slot matches Some(i) && i < slots.len() && !slots[id_slot->0 as int].active) ==> {
            let mine = slots[r].prior_tokens@;
            let other = slots[j].prior_tokens@;
            &&& other.len() > 0 && other.is_prefix_of(tokens) ==> mine.is_prefix_of(tokens)
                && mine.len() >= other.len()
            &&& (forall|i: int|
                0 <= i < slots.len() && !(#[trigger] slots[i]).active ==> !(
                slots[i].prior_tokens@.len() > 0 && slots[i].prior_tokens@.is_prefix_of(tokens)))
                ==> slots[r].last_used <= slots[j].last_used
        },
{
    let ps = priors(slots);
    let us = stamps(slots);
    let fs = idle(slots);
    assert(fs[j] && ps[j] == slots[j].prior_tokens@ && us[j] == slots[j].last_used);
    if !(id_slot matches Some(i) && i < slots.len() && !slots[id_slot->0 as int].active) {
        assert(selected(ps, us, fs, tokens, r));
        assert(fs[r] && ps[r] == slots[r].prior_tokens@ && us[r] == slots[r].last_used);
        if reusable(ps[j], tokens) {
            assert(warm(ps, fs, tokens, j));
        }
        if forall|i: int|
            0 <= i < slots.len() && !(#[trigger] slots[i]).active ==> !(
            slots[i].prior_tokens@.len() > 0 && slots[i].prior_tokens@.is_prefix_of(tokens)) {
            assert forall|i: int| !warm(ps, fs, tokens, i) by {
                if warm(ps, fs, tokens, i) {
                    assert(ps[i] == slots[i].prior_tokens@);
                    assert(!slots[i].active);
                }
            }
        }
    }
}

/// Participants' tokens and positions lie end to end in the order of participants,
/// each participant's tokens beside its own positions.
pub proof fn law_streams_lie_end_to_end(
    active: Seq<ActiveSeq>,
    lag: Seq<u32>,
    parts: Seq<(usize, u32)>,
    j: int,
    k: int,
)
    requires
        0 <= j < k <= parts.len(),
        forall|i: int|
            0 <= i < parts.len() ==> active[(#[trigger] parts[i]).0 as int].num_computed
                + parts[i].1 <= active[parts[i].0 as int].logical().len(),
    ensures
        ({
            let from = packed_tokens(active, parts, j).len();
            let to = from + parts[j].1;
            &&& packed_tokens(active, parts, k).len() == packed_positions(
                active,
                lag,
                parts,
                k,
            ).len()
            &&& from == packed_positions(active, lag, parts, j).len()
            &&& to <= packed_tokens(active, parts, k).len()
            &&& packed_tokens(active, parts, k).subrange(from as int, to as int) == fed_by(
                active,
                parts[j],
            )
            &&& packed_positions(active, lag, parts, k).subrange(from as int, to as int)
                == rope_of(active, lag, parts[j])
            &&& packed_tokens(active, parts, 0).len() == 0
        }),
    decreases k,
{
    assert(active[parts[k - 1].0 as int].num_computed + parts[k - 1].1
        <= active[parts[k - 1].0 as int].logical().len());
    lemma_streams_alike(active, lag, parts, j);
    lemma_streams_alike(active, lag, parts, k - 1);
    lemma_streams_alike(active, lag, parts, k);
    let from = packed_tokens(active, parts, j).len() as int;
    let to = from + parts[j].1;
    let ts = packed_tokens(active, parts, k);
    let ps = packed_positions(active, lag, parts, k);
    if j < k - 1 {
        law_streams_lie_end_to_end(active, lag, parts, j, k - 1);
        assert(ts.subrange(from, to) =~= packed_tokens(active, parts, k - 1).subrange(from, to));
        assert(ps.subrange(from, to) =~= packed_positions(active, lag, parts, k - 1).subrange(
            from,
            to,
        ));
    } else {
        assert(ts.subrange(from, to) =~= fed_by(active, parts[j]));
        assert(ps.subrange(from, to) =~= rope_of(active, lag, parts[j]));
    }
}

/// The streams of tokens and of positions are equally long.
proof fn lemma_streams_alike(
    active: Seq<ActiveSeq>,
    lag: Seq<u32>,
    parts: Seq<(usize, u32)>,
    k: int,
)
    requires
        0 <= k <= parts.len(),
        forall|i: int|
            0 <= i < parts.len() ==> active[(#[trigger] parts[i]).0 as int].num_computed
                + parts[i].1 <= active[parts[i].0 as int].logical().len(),
    ensures
        packed_tokens(active, parts, k).len() == packed_positions(active, lag, parts, k).len(),
    decreases k,
{
    if k > 0 {
        lemma_streams_alike(active, lag, parts, k - 1);
        assert(active[parts[k - 1].0 as int].num_computed + parts[k - 1].1
            <= active[parts[k - 1].0 as int].logical().len());
    }
}

/// A sequence whose forward failed is over for its client too, with its conversation
/// as it was.
pub proof fn law_a_failed_sequence_is_over(s: ActiveSeq)
    ensures
        !failed_seq(s).live(),
        failed_seq(s).disconnected,
        failed_seq(s).logical() == s.logical(),
        failed_seq(s).slab == s.slab,
        failed_seq(s).id == s.id,
{
}

/// A slot that is taken is one idle slot less.
pub proof fn law_a_taken_slot_is_one_less(slots: Seq<SlotMeta>, i: int, taken: SlotMeta, n: nat)
    requires
        0 <= i < n <= slots.len(),
        !slots[i].active,
        taken.active,
    ensures
        count_idle(slots.update(i, taken), n) + 1 == count_idle(slots, n),
        count_idle(slots, n) <= n,
    decreases n,
{
    let after = slots.update(i, taken);
    if i < n - 1 {
        law_a_taken_slot_is_one_less(slots, i, taken, (n - 1) as nat);
    } else {
        lemma_same_idle(slots, after, i as nat);
    }
}

/// Slots that agree have as many idle ones.
proof fn lemma_same_idle(a: Seq<SlotMeta>, b: Seq<SlotMeta>, n: nat)
    requires
        n <= a.len(),
        a.len() == b.len(),
        forall|i: int| 0 <= i < n ==> a[i] == b[i],
    ensures
        count_idle(a, n) == count_idle(b, n),
        count_idle(a, n) <= n,
    decreases n,
{
    if n > 0 {
        lemma_same_idle(a, b, (n - 1) as nat);
        assert(a[n - 1] == b[n - 1]);
    }
}

} // verus!
