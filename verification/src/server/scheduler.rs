//! Steps of continuous batching: how a step's token budget is shared out, what
//! the packed forward is fed, and how its outcome moves the sequences.
use vstd::prelude::*;

use crate::server::admission::same_slabs;
use crate::server::inference::StopReason;
use crate::server::sequence::ActiveSeq;
use crate::server::worker::Worker;

verus! {

/// Tokens of `s` that its slab was not fed yet.
pub open spec fn left(s: ActiveSeq) -> int {
    s.logical().len() - s.num_computed
}

/// `s` needs exactly one token: a decode, or the last of its prefill.
pub open spec fn is_decode(s: ActiveSeq) -> bool {
    s.live() && left(s) == 1
}

/// `s` still prefills more than one token.
pub open spec fn is_chunk(s: ActiveSeq) -> bool {
    s.live() && left(s) > 1
}

/// The lesser of two numbers.
pub open spec fn lesser(a: int, b: int) -> int {
    if a <= b {
        a
    } else {
        b
    }
}

/// How many of the first `n` sequences decode.
pub open spec fn decodes(active: Seq<ActiveSeq>, n: int) -> int
    decreases n,
{
    if n <= 0 {
        0
    } else {
        decodes(active, n - 1) + if is_decode(active[n - 1]) {
            1int
        } else {
            0int
        }
    }
}

/// Budget left for prefill chunks when sequence `n` is reached: what all the
/// decodes leave, less the chunks of the sequences before it.
pub open spec fn chunk_budget(active: Seq<ActiveSeq>, max: int, n: int) -> int
    decreases n,
{
    if n <= 0 {
        max - lesser(decodes(active, active.len() as int), max)
    } else {
        let b = chunk_budget(active, max, n - 1);
        if is_chunk(active[n - 1]) {
            b - lesser(left(active[n - 1]), b)
        } else {
            b
        }
    }
}

/// Tokens that a step of budget `max` feeds to sequence `i`: decodes come first,
/// then prefill chunks fill what is left, each in order.
pub open spec fn grant(active: Seq<ActiveSeq>, max: int, i: int) -> int {
    if is_decode(active[i]) {
        if decodes(active, i) < max {
            1
        } else {
            0
        }
    } else if is_chunk(active[i]) {
        lesser(left(active[i]), chunk_budget(active, max, i))
    } else {
        0
    }
}

/// The participants of a step among the first `n` sequences, in order, each
/// with its grant.
pub open spec fn parts_of(active: Seq<ActiveSeq>, max: int, n: int) -> Seq<(usize, u32)>
    decreases n,
{
    if n <= 0 {
        seq![]
    } else {
        let before = parts_of(active, max, n - 1);
        let g = grant(active, max, n - 1);
        if g > 0 {
            before.push(((n - 1) as usize, g as u32))
        } else {
            before
        }
    }
}

/// Tokens granted to the first `n` sequences together.
pub open spec fn granted(active: Seq<ActiveSeq>, max: int, n: int) -> int
    decreases n,
{
    if n <= 0 {
        0
    } else {
        granted(active, max, n - 1) + grant(active, max, n - 1)
    }
}

/// The sequences after those out of context room were marked as finished.
pub open spec fn marked(active: Seq<ActiveSeq>, ctx: u32) -> Seq<ActiveSeq> {
    active.map_values(
        |s: ActiveSeq|
            if s.live() && s.num_computed + 1 >= ctx {
                ActiveSeq { terminal: Some(StopReason::ContextFull), ..s }
            } else {
                s
            },
    )
}

/// The tokens that participant `p` feeds.
pub open spec fn fed_by(active: Seq<ActiveSeq>, p: (usize, u32)) -> Seq<u32> {
    let s = active[p.0 as int];
    s.logical().subrange(s.num_computed as int, s.num_computed + p.1)
}

/// The rope positions of participant `p`: its cache positions less the lag of
/// its slab.
pub open spec fn rope_of(active: Seq<ActiveSeq>, lag: Seq<u32>, p: (usize, u32)) -> Seq<u32> {
    let s = active[p.0 as int];
    Seq::new(
        p.1 as nat,
        |o: int|
            {
                let at = s.num_computed + o;
                let l = lag[s.slab as int];
                if at >= l {
                    (at - l) as u32
                } else {
                    0u32
                }
            },
    )
}

/// The flat token stream of the first `k` participants.
pub open spec fn packed_tokens(active: Seq<ActiveSeq>, parts: Seq<(usize, u32)>, k: int) -> Seq<u32>
    decreases k,
{
    if k <= 0 {
        seq![]
    } else {
        packed_tokens(active, parts, k - 1) + fed_by(active, parts[k - 1])
    }
}

/// The flat rope positions of the first `k` participants.
pub open spec fn packed_positions(
    active: Seq<ActiveSeq>,
    lag: Seq<u32>,
    parts: Seq<(usize, u32)>,
    k: int,
) -> Seq<u32>
    decreases k,
{
    if k <= 0 {
        seq![]
    } else {
        packed_positions(active, lag, parts, k - 1) + rope_of(active, lag, parts[k - 1])
    }
}

/// One packed forward: the participants with their token counts, the flat token
/// and rope-position streams, and each participant's length and slab.
pub struct StepPlan {
    pub parts: Vec<(usize, u32)>,
    pub tokens: Vec<u32>,
    pub positions: Vec<u32>,
    pub seq_lens: Vec<u32>,
    pub slots: Vec<u32>,
}

/// Where a snapshot of a sequence's prefix goes.
pub struct Capture {
    pub pool: usize,
    pub slab: u32,
    pub p: u32,
}

/// What a participant of a successful step does next.
pub enum Advance {
    /// Still prefilling; take this snapshot first, if any.
    Prefilling { capture: Option<Capture> },
    /// Fed to its end: announce the start with this prompt length if that is
    /// due, then take the sampled token.
    CaughtUp { announce: Option<u32> },
}

/// Granting never exceeds what the decodes and the budget leave.
proof fn lemma_budget(active: Seq<ActiveSeq>, max: int, n: int)
    requires
        0 <= max,
        0 <= n <= active.len(),
    ensures
        0 <= decodes(active, n),
        decodes(active, n) <= decodes(active, active.len() as int),
        0 <= chunk_budget(active, max, n) <= max,
        granted(active, max, n) == lesser(decodes(active, n), max) + chunk_budget(active, max, 0)
            - chunk_budget(active, max, n),
    decreases n,
{
    lemma_decodes_grow(active, 0, n);
    lemma_decodes_grow(active, n, active.len() as int);
    if n > 0 {
        lemma_budget(active, max, n - 1);
    }
}

/// The number of decodes grows with the stretch it counts.
proof fn lemma_decodes_grow(active: Seq<ActiveSeq>, m: int, n: int)
    requires
        0 <= m <= n,
    ensures
        decodes(active, m) <= decodes(active, n),
    decreases n,
{
    if m < n {
        lemma_decodes_grow(active, m, n - 1);
    }
}

/// A step never packs more tokens than its budget.
pub proof fn law_step_stays_within_budget(active: Seq<ActiveSeq>, max: int)
    requires
        0 <= max,
    ensures
        granted(active, max, active.len() as int) <= max,
{
    lemma_budget(active, max, active.len() as int);
}

/// As long as the decodes fit the budget, every one of them is fed in every
/// step, whatever is prefilling beside them.
pub proof fn law_decodes_are_never_starved(active: Seq<ActiveSeq>, max: int, i: int)
    requires
        0 <= i < active.len(),
        is_decode(active[i]),
        decodes(active, active.len() as int) <= max,
    ensures
        grant(active, max, i) == 1,
{
    lemma_decodes_grow(active, i + 1, active.len() as int);
}

/// A step with a budget and a live sequence feeds something.
pub proof fn law_a_step_makes_progress(active: Seq<ActiveSeq>, max: int, i: int) -> (j: int)
    requires
        0 < max,
        0 <= i < active.len(),
        active[i].live(),
        left(active[i]) >= 1,
    ensures
        0 <= j < active.len(),
        grant(active, max, j) > 0,
{
    let n = active.len() as int;
    lemma_decodes_grow(active, 0, n);
    if decodes(active, n) > 0 {
        lemma_first_decode(active, n)
    } else {
        lemma_decodes_grow(active, 0, i);
        lemma_decodes_grow(active, i + 1, n);
        lemma_first_chunk(active, max, i)
    }
}

/// The first decode among the first `n` sequences.
proof fn lemma_first_decode(active: Seq<ActiveSeq>, n: int) -> (j: int)
    requires
        0 <= n <= active.len(),
        decodes(active, n) > 0,
    ensures
        0 <= j < n,
        is_decode(active[j]),
        decodes(active, j) == 0,
    decreases n,
{
    if decodes(active, n - 1) > 0 {
        lemma_first_decode(active, n - 1)
    } else {
        lemma_decodes_grow(active, 0, n - 1);
        n - 1
    }
}

/// The first chunk up to sequence `i`, where nothing decodes.
proof fn lemma_first_chunk(active: Seq<ActiveSeq>, max: int, i: int) -> (j: int)
    requires
        0 < max,
        0 <= i < active.len(),
        is_chunk(active[i]),
        decodes(active, active.len() as int) == 0,
    ensures
        0 <= j <= i,
        is_chunk(active[j]),
        chunk_budget(active, max, j) == max,
    decreases i,
{
    if exists|k: int| 0 <= k < i && is_chunk(active[k]) {
        let k = choose|k: int| 0 <= k < i && is_chunk(active[k]);
        lemma_first_chunk(active, max, k)
    } else {
        lemma_no_chunks(active, max, i);
        i
    }
}

/// Without chunks before it, a sequence finds the whole chunk budget.
proof fn lemma_no_chunks(active: Seq<ActiveSeq>, max: int, n: int)
    requires
        0 <= n <= active.len(),
        forall|k: int| 0 <= k < n ==> !is_chunk(#[trigger] active[k]),
    ensures
        chunk_budget(active, max, n) == chunk_budget(active, max, 0),
    decreases n,
{
    if n > 0 {
        lemma_no_chunks(active, max, n - 1);
    }
}

/// The participants of a step are distinct live sequences in order, each with a
/// positive grant of no more than it has left.
pub proof fn lemma_parts(active: Seq<ActiveSeq>, max: int, n: int)
    requires
        0 <= max,
        0 <= n <= active.len(),
        active.len() <= usize::MAX,
        forall|i: int| 0 <= i < active.len() ==> left(#[trigger] active[i]) <= u32::MAX,
    ensures
        forall|k: int|
            0 <= k < parts_of(active, max, n).len() ==> {
                let p = #[trigger] parts_of(active, max, n)[k];
                &&& p.0 < n
                &&& p.1 == grant(active, max, p.0 as int)
                &&& 0 < p.1 <= left(active[p.0 as int])
                &&& active[p.0 as int].live()
            },
        forall|k: int, l: int|
            0 <= k < l < parts_of(active, max, n).len() ==> (#[trigger] parts_of(
                active,
                max,
                n,
            )[k]).0 < (#[trigger] parts_of(active, max, n)[l]).0,
    decreases n,
{
    if n > 0 {
        lemma_parts(active, max, n - 1);
        lemma_budget(active, max, n - 1);
        let before = parts_of(active, max, n - 1);
        let now = parts_of(active, max, n);
        let g = grant(active, max, n - 1);
        assert(left(active[n - 1]) <= u32::MAX);
        if g > 0 {
            assert(now == before.push(((n - 1) as usize, g as u32)));
            assert forall|k: int| 0 <= k < now.len() implies {
                let p = #[trigger] now[k];
                &&& p.0 < n
                &&& p.1 == grant(active, max, p.0 as int)
                &&& 0 < p.1 <= left(active[p.0 as int])
                &&& active[p.0 as int].live()
            } by {
                if k < before.len() {
                    assert(now[k] == before[k]);
                }
            }
            assert forall|k: int, l: int| 0 <= k < l < now.len() implies (#[trigger] now[k]).0 < (
            #[trigger] now[l]).0 by {
                assert(now[k] == before[k]);
                if l < before.len() {
                    assert(now[l] == before[l]);
                }
            }
        }
    }
}

impl Worker {
    /// Changing only the fate of sequences keeps the invariant.
    pub proof fn lemma_fates_changed(&self, before: &Worker)
        requires
            before.wf(),
            self.slots == before.slots,
            self.prefix_cache == before.prefix_cache,
            self.same_setup(before),
            same_slabs(before, self),
            self.active@.len() == before.active@.len(),
            forall|a: int|
                0 <= a < self.active@.len() ==> {
                    let x = #[trigger] self.active@[a];
                    let y = before.active@[a];
                    &&& x.slab == y.slab
                    &&& x.prompt == y.prompt
                    &&& x.generated == y.generated
                    &&& x.prompt_tokens == y.prompt_tokens
                    &&& x.num_computed == y.num_computed
                    &&& x.last_token == y.last_token
                    &&& x.live() ==> y.live()
                },
        ensures
            self.wf(),
    {
        assert forall|a: int| 0 <= a < self.active@.len() implies #[trigger] self.seq_ok(a) by {
            assert(before.seq_ok(a));
            assert(self.active@[a].slab == before.active@[a].slab);
        }
        assert forall|a: int| 0 <= a < self.active@.len() implies #[trigger] self.has_work(a) by {
            assert(before.has_work(a));
            assert(self.active@[a].slab == before.active@[a].slab);
        }
        assert forall|a: int, b: int|
            #![trigger self.active@[a], self.active@[b]]
            0 <= a < b < self.active@.len() implies self.active@[a].slab != self.active@[b].slab by {
            assert(before.active@[a].slab != before.active@[b].slab);
        }
        assert forall|i: int|
            0 <= i < self.slots@.len() && (#[trigger] self.slots@[i]).active implies self.owned(
            i,
        ) by {
            assert(before.owned(i));
            let a = choose|a: int|
                0 <= a < before.active@.len() && (#[trigger] before.active@[a]).slab == i;
            assert(self.active@[a].slab == i);
        }
    }

    /// Mark live sequences without room for another token as finished.
    fn mark_context_full(&mut self)
        requires
            old(self).wf(),
            old(self).unified,
        ensures
            final(self).wf(),
            final(self).active@ == marked(old(self).active@, old(self).ctx),
            final(self).slots == old(self).slots,
            final(self).clock == old(self).clock,
            final(self).scratch_bytes == old(self).scratch_bytes,
            final(self).prefix_cache == old(self).prefix_cache,
            final(self).same_setup(old(self)),
            same_slabs(old(self), final(self)),
    {
        let ghost goal = marked(self.active@, self.ctx);
        let mut i: usize = 0;
        while i < self.active.len()
            invariant
                i <= self.active@.len(),
                self.active@.len() == old(self).active@.len(),
                goal == marked(old(self).active@, old(self).ctx),
                old(self).wf(),
                old(self).unified,
                self.slots == old(self).slots,
                self.clock == old(self).clock,
                self.scratch_bytes == old(self).scratch_bytes,
                self.prefix_cache == old(self).prefix_cache,
                self.same_setup(old(self)),
                same_slabs(old(self), self),
                forall|a: int| 0 <= a < i ==> #[trigger] self.active@[a] == goal[a],
                forall|a: int|
                    i <= a < self.active@.len() ==> #[trigger] self.active@[a] == old(
                        self,
                    ).active@[a],
            decreases self.active@.len() - i,
        {
            assert(old(self).seq_ok(i as int));
            let ctx = self.ctx;
            if self.active[i].terminal.is_none() && !self.active[i].disconnected
                && self.active[i].num_computed as u64 + 1 >= ctx as u64 {
                self.active[i].terminal = Some(StopReason::ContextFull);
            }
            i += 1;
        }
        assert(self.active@ =~= goal);
        proof {
            self.lemma_fates_changed(old(self));
        }
    }

    /// The participants of a step of the sequences as they stand.
    fn share_budget(&self) -> (parts: Vec<(usize, u32)>)
        requires
            self.wf(),
            self.unified,
        ensures
            parts@ == parts_of(
                self.active@,
                self.max_batch_tokens as int,
                self.active@.len() as int,
            ),
    {
        let ghost act = self.active@;
        let ghost max = self.max_batch_tokens as int;
        let n: usize = self.active.len();
        let mut budget: u32 = self.max_batch_tokens;
        let mut grants: Vec<u32> = Vec::new();
        let mut i: usize = 0;
        while i < n
            invariant
                i <= n,
                n == act.len(),
                act == self.active@,
                max == self.max_batch_tokens,
                self.wf(),
                self.unified,
                grants@.len() == i,
                0 <= decodes(act, i as int),
                budget == max - lesser(decodes(act, i as int), max),
                forall|j: int|
                    0 <= j < i ==> #[trigger] grants@[j] == if is_decode(act[j]) {
                        grant(act, max, j)
                    } else {
                        0
                    },
            decreases n - i,
        {
            assert(self.seq_ok(i as int));
            let seq = &self.active[i];
            let logical: usize = seq.prompt.len() + seq.generated.len();
            assert(logical == act[i as int].logical().len());
            let rem: usize = logical - seq.num_computed as usize;
            if seq.terminal.is_none() && !seq.disconnected && budget > 0 && rem == 1 {
                grants.push(1);
                budget -= 1;
            } else {
                grants.push(0);
            }
            i += 1;
        }
        i = 0;
        while i < n
            invariant
                i <= n,
                n == act.len(),
                act == self.active@,
                max == self.max_batch_tokens,
                self.wf(),
                self.unified,
                grants@.len() == n,
                budget == chunk_budget(act, max, i as int),
                forall|j: int| 0 <= j < i ==> #[trigger] grants@[j] == grant(act, max, j),
                forall|j: int|
                    i <= j < n ==> #[trigger] grants@[j] == if is_decode(act[j]) {
                        grant(act, max, j)
                    } else {
                        0
                    },
            decreases n - i,
        {
            assert(self.seq_ok(i as int));
            let seq = &self.active[i];
            let logical: usize = seq.prompt.len() + seq.generated.len();
            assert(logical == act[i as int].logical().len());
            let rem: usize = logical - seq.num_computed as usize;
            if seq.terminal.is_none() && !seq.disconnected && budget > 0 && rem > 1 {
                let nn: u32 = if rem <= budget as usize {
                    rem as u32
                } else {
                    budget
                };
                grants.set(i, nn);
                budget -= nn;
            }
            i += 1;
        }
        let mut parts: Vec<(usize, u32)> = Vec::new();
        i = 0;
        while i < n
            invariant
                i <= n,
                n == act.len(),
                grants@.len() == n,
                forall|j: int| 0 <= j < n ==> #[trigger] grants@[j] == grant(act, max, j),
                parts@ == parts_of(act, max, i as int),
            decreases n - i,
        {
            if grants[i] > 0 {
                parts.push((i, grants[i]));
            }
            i += 1;
        }
        parts
    }

    /// Pack the participants' tokens into one flat forward.
    fn pack(&self, parts: Vec<(usize, u32)>) -> (plan: StepPlan)
        requires
            self.wf(),
            self.unified,
            forall|k: int|
                0 <= k < parts@.len() ==> {
                    let p = #[trigger] parts@[k];
                    &&& p.0 < self.active@.len()
                    &&& p.1 <= left(self.active@[p.0 as int])
                },
        ensures
            plan.parts == parts,
            plan.tokens@ == packed_tokens(self.active@, parts@, parts@.len() as int),
            plan.positions@ == packed_positions(
                self.active@,
                self.rope_lag@,
                parts@,
                parts@.len() as int,
            ),
            plan.seq_lens@ == parts@.map_values(|p: (usize, u32)| p.1),
            plan.slots@ == parts@.map_values(|p: (usize, u32)| self.active@[p.0 as int].slab),
    {
        let ghost act = self.active@;
        let ghost lag = self.rope_lag@;
        let mut tokens: Vec<u32> = Vec::new();
        let mut positions: Vec<u32> = Vec::new();
        let mut seq_lens: Vec<u32> = Vec::new();
        let mut slots: Vec<u32> = Vec::new();
        let mut k: usize = 0;
        while k < parts.len()
            invariant
                k <= parts@.len(),
                self.wf(),
                self.unified,
                act == self.active@,
                lag == self.rope_lag@,
                forall|k: int|
                    0 <= k < parts@.len() ==> {
                        let p = #[trigger] parts@[k];
                        &&& p.0 < self.active@.len()
                        &&& p.1 <= left(self.active@[p.0 as int])
                    },
                tokens@ == packed_tokens(act, parts@, k as int),
                positions@ == packed_positions(act, lag, parts@, k as int),
                seq_lens@ == parts@.take(k as int).map_values(|p: (usize, u32)| p.1),
                slots@ == parts@.take(k as int).map_values(
                    |p: (usize, u32)| act[p.0 as int].slab,
                ),
            decreases parts@.len() - k,
        {
            let (i, nn) = parts[k];
            let ghost part = parts@[k as int];
            assert(self.seq_ok(i as int));
            let seq = &self.active[i];
            let ghost s = act[i as int];
            let lag_here: u32 = self.rope_lag[seq.slab as usize];
            let ghost tokens0 = tokens@;
            let ghost positions0 = positions@;
            let mut off: u32 = 0;
            while off < nn
                invariant
                    off <= nn,
                    self.wf(),
                    self.unified,
                    self.seq_ok(i as int),
                    act == self.active@,
                    lag == self.rope_lag@,
                    i < act.len(),
                    seq == act[i as int],
                    s == act[i as int],
                    part == (i, nn),
                    nn <= left(s),
                    lag_here == lag[s.slab as int],
                    tokens@ == tokens0 + fed_by(act, part).take(off as int),
                    positions@ == positions0 + rope_of(act, lag, part).take(off as int),
                decreases nn - off,
            {
                let at: u32 = seq.num_computed + off;
                let li: usize = at as usize;
                let tok: u32 = if li < seq.prompt.len() {
                    seq.prompt[li]
                } else {
                    seq.generated[li - seq.prompt.len()]
                };
                tokens.push(tok);
                positions.push(at.saturating_sub(lag_here));
                proof {
                    assert(fed_by(act, part)[off as int] == tok);
                    assert(fed_by(act, part).take(off + 1) =~= fed_by(act, part).take(
                        off as int,
                    ).push(tok));
                    assert(tokens@ =~= tokens0 + fed_by(act, part).take(off + 1));
                    let r = rope_of(act, lag, part);
                    assert(positions@.last() == r[off as int]);
                    assert(r.take(off + 1) =~= r.take(off as int).push(r[off as int]));
                    assert(positions@ =~= positions0 + r.take(off + 1));
                }
                off += 1;
            }
            seq_lens.push(nn);
            slots.push(seq.slab);
            proof {
                assert(fed_by(act, part).take(nn as int) =~= fed_by(act, part));
                assert(rope_of(act, lag, part).take(nn as int) =~= rope_of(act, lag, part));
                assert(parts@.take(k + 1) =~= parts@.take(k as int).push(part));
                assert(seq_lens@ =~= parts@.take(k + 1).map_values(|p: (usize, u32)| p.1));
                assert(slots@ =~= parts@.take(k + 1).map_values(
                    |p: (usize, u32)| act[p.0 as int].slab,
                ));
            }
            k += 1;
        }
        assert(parts@.take(parts@.len() as int) =~= parts@);
        StepPlan { parts, tokens, positions, seq_lens, slots }
    }

    /// One mixed step: finish the sequences that are out of context room, share
    /// the token budget (decodes first, then prefill chunks) and pack a single
    /// forward. `None` where there is nothing to run.
    pub fn schedule_step(&mut self) -> (r: Option<StepPlan>)
        requires
            old(self).wf(),
            old(self).unified,
        ensures
            final(self).wf(),
            final(self).active@ == marked(old(self).active@, old(self).ctx),
            final(self).slots == old(self).slots,
            final(self).clock == old(self).clock,
            final(self).scratch_bytes == old(self).scratch_bytes,
            final(self).prefix_cache == old(self).prefix_cache,
            final(self).same_setup(old(self)),
            same_slabs(old(self), final(self)),
            ({
                let act = final(self).active@;
                let parts = parts_of(act, old(self).max_batch_tokens as int, act.len() as int);
                match r {
                    None => parts.len() == 0,
                    Some(plan) => {
                        &&& parts.len() > 0
                        &&& plan.parts@ == parts
                        &&& plan.tokens@ == packed_tokens(act, parts, parts.len() as int)
                        &&& plan.positions@ == packed_positions(
                            act,
                            old(self).rope_lag@,
                            parts,
                            parts.len() as int,
                        )
                        &&& plan.seq_lens@ == parts.map_values(|p: (usize, u32)| p.1)
                        &&& plan.slots@ == parts.map_values(
                            |p: (usize, u32)| act[p.0 as int].slab,
                        )
                    },
                }
            }),
    {
        self.mark_context_full();
        let parts = self.share_budget();
        if parts.len() == 0 {
            return None;
        }
        let n: usize = self.active.len();
        proof {
            let act = self.active@;
            assert(act.len() == n);
            assert forall|i: int| 0 <= i < act.len() implies left(#[trigger] act[i])
                <= u32::MAX by {
                assert(self.seq_ok(i));
            }
            lemma_parts(act, self.max_batch_tokens as int, act.len() as int);
        }
        Some(self.pack(parts))
    }

    /// The packed forward failed: every participant is finished and its client
    /// gets no closing frame.
    pub fn step_failed(&mut self, parts: &Vec<(usize, u32)>)
        requires
            old(self).wf(),
            forall|k: int|
                0 <= k < parts@.len() ==> (#[trigger] parts@[k]).0 < old(self).active@.len(),
        ensures
            final(self).wf(),
            final(self).slots == old(self).slots,
            final(self).clock == old(self).clock,
            final(self).scratch_bytes == old(self).scratch_bytes,
            final(self).prefix_cache == old(self).prefix_cache,
            final(self).same_setup(old(self)),
            same_slabs(old(self), final(self)),
            final(self).active@.len() == old(self).active@.len(),
            forall|a: int|
                0 <= a < old(self).active@.len() ==> (#[trigger] final(self).active@[a]) == if takes_part(
                    parts@,
                    a,
                ) {
                    failed_seq(old(self).active@[a])
                } else {
                    old(self).active@[a]
                },
    {
        let mut k: usize = 0;
        while k < parts.len()
            invariant
                k <= parts@.len(),
                old(self).wf(),
                forall|k: int|
                    0 <= k < parts@.len() ==> (#[trigger] parts@[k]).0 < old(self).active@.len(),
                self.slots == old(self).slots,
                self.clock == old(self).clock,
                self.scratch_bytes == old(self).scratch_bytes,
                self.prefix_cache == old(self).prefix_cache,
                self.same_setup(old(self)),
                same_slabs(old(self), self),
                self.active@.len() == old(self).active@.len(),
                forall|a: int|
                    0 <= a < old(self).active@.len() ==> (#[trigger] self.active@[a])
                        == if takes_part(parts@.take(k as int), a) {
                        failed_seq(old(self).active@[a])
                    } else {
                        old(self).active@[a]
                    },
            decreases parts@.len() - k,
        {
            let ghost mid = self.active@;
            let (i, _) = parts[k];
            assert(parts@[k as int].0 == i);
            self.active[i].disconnected = true;
            self.active[i].terminal = Some(StopReason::ContextFull);
            proof {
                assert(self.active@[i as int] == failed_seq(mid[i as int]));
                assert(failed_seq(failed_seq(old(self).active@[i as int])) == failed_seq(
                    old(self).active@[i as int],
                ));
                let before = parts@.take(k as int);
                let now = parts@.take(k + 1);
                assert(now =~= before.push(parts@[k as int]));
                assert forall|a: int| 0 <= a < old(self).active@.len() implies (
                #[trigger] self.active@[a]) == if takes_part(now, a) {
                    failed_seq(old(self).active@[a])
                } else {
                    old(self).active@[a]
                } by {
                    if a == i {
                        assert(now[k as int].0 == a);
                        assert(takes_part(now, a));
                    } else {
                        assert(self.active@[a] == mid[a]);
                        if takes_part(now, a) {
                            let j = choose|j: int| 0 <= j < now.len() && (#[trigger] now[j]).0 == a;
                            assert(before[j].0 == a);
                        }
                        if takes_part(before, a) {
                            let j = choose|j: int|
                                0 <= j < before.len() && (#[trigger] before[j]).0 == a;
                            assert(now[j].0 == a);
                        }
                    }
                }
            }
            k += 1;
        }
        assert(parts@.take(parts@.len() as int) =~= parts@);
        proof {
            self.lemma_fates_changed(old(self));
        }
    }
}

/// Sequence `a` is among the participants.
pub open spec fn takes_part(parts: Seq<(usize, u32)>, a: int) -> bool {
    exists|k: int| 0 <= k < parts.len() && (#[trigger] parts[k]).0 == a
}

/// `s` after its forward failed.
pub open spec fn failed_seq(s: ActiveSeq) -> ActiveSeq {
    ActiveSeq { disconnected: true, terminal: Some(StopReason::ContextFull), ..s }
}

} // verus!
