//! Batched decoding without mixed steps: one token per live sequence.
use vstd::prelude::*;

use crate::server::admission::same_slabs;
use crate::server::inference::StopReason;
use crate::server::sequence::ActiveSeq;
use crate::server::worker::Worker;

verus! {

/// One batched decode: the participants (ascending), each with the token it
/// feeds, its cache position and its slab.
pub struct DecodePlan {
    pub parts: Vec<usize>,
    pub tokens: Vec<u32>,
    pub positions: Vec<u32>,
    pub slots: Vec<u32>,
}

/// The sequences after those whose slab has no room for another token were
/// marked as finished.
pub open spec fn marked_by_slab(
    active: Seq<ActiveSeq>,
    positions: Seq<u32>,
    ctx: u32,
) -> Seq<ActiveSeq> {
    active.map_values(
        |s: ActiveSeq|
            if s.live() && positions[s.slab as int] + 1 >= ctx {
                ActiveSeq { terminal: Some(StopReason::ContextFull), ..s }
            } else {
                s
            },
    )
}

/// The live ones among the first `n` sequences, in order.
pub open spec fn live_indices(active: Seq<ActiveSeq>, n: int) -> Seq<usize>
    decreases n,
{
    if n <= 0 {
        seq![]
    } else {
        let before = live_indices(active, n - 1);
        if active[n - 1].live() {
            before.push((n - 1) as usize)
        } else {
            before
        }
    }
}

impl Worker {
    /// One batched decode step: finish the sequences whose slab is full, and
    /// gather the rest into a single forward. `None` where none is left.
    pub fn decode_step(&mut self) -> (r: Option<DecodePlan>)
        requires
            old(self).wf(),
            !old(self).unified,
        ensures
            final(self).wf(),
            final(self).same_rest(old(self)),
            same_slabs(old(self), final(self)),
            final(self).active@ == marked_by_slab(
                old(self).active@,
                old(self).positions@,
                old(self).ctx,
            ),
            ({
                let act = final(self).active@;
                let parts = live_indices(act, act.len() as int);
                match r {
                    None => parts.len() == 0,
                    Some(plan) => {
                        &&& parts.len() > 0
                        &&& plan.parts@ == parts
                        &&& plan.tokens@ == parts.map_values(|i: usize| act[i as int].last_token)
                        &&& plan.positions@ == parts.map_values(
                            |i: usize| old(self).positions@[act[i as int].slab as int],
                        )
                        &&& plan.slots@ == parts.map_values(|i: usize| act[i as int].slab)
                    },
                }
            }),
    {
        let ghost goal = marked_by_slab(self.active@, self.positions@, self.ctx);
        let ghost pos = self.positions@;
        let mut parts: Vec<usize> = Vec::new();
        let mut tokens: Vec<u32> = Vec::new();
        let mut positions: Vec<u32> = Vec::new();
        let mut slots: Vec<u32> = Vec::new();
        let mut i: usize = 0;
        while i < self.active.len()
            invariant
                i <= self.active@.len(),
                self.active@.len() == old(self).active@.len(),
                goal == marked_by_slab(old(self).active@, old(self).positions@, old(self).ctx),
                goal.len() == self.active@.len(),
                pos == old(self).positions@,
                old(self).wf(),
                self.same_rest(old(self)),
                same_slabs(old(self), self),
                forall|a: int| 0 <= a < i ==> #[trigger] self.active@[a] == goal[a],
                forall|a: int|
                    i <= a < self.active@.len() ==> #[trigger] self.active@[a] == old(
                        self,
                    ).active@[a],
                parts@ == live_indices(goal, i as int),
                tokens@ == parts@.map_values(|i: usize| goal[i as int].last_token),
                positions@ == parts@.map_values(|i: usize| pos[goal[i as int].slab as int]),
                slots@ == parts@.map_values(|i: usize| goal[i as int].slab),
            decreases self.active@.len() - i,
        {
            assert(old(self).seq_ok(i as int));
            assert(self.active@[i as int] == old(self).active@[i as int]);
            let slab: u32 = self.active[i].slab;
            let at: u32 = self.positions[slab as usize];
            if self.active[i].terminal.is_none() && !self.active[i].disconnected {
                if at as u64 + 1 >= self.ctx as u64 {
                    self.active[i].terminal = Some(StopReason::ContextFull);
                } else {
                    let ghost before = parts@;
                    parts.push(i);
                    tokens.push(self.active[i].last_token);
                    positions.push(at);
                    slots.push(slab);
                    proof {
                        assert(tokens@ =~= parts@.map_values(|i: usize| goal[i as int].last_token));
                        assert(positions@ =~= parts@.map_values(
                            |i: usize| pos[goal[i as int].slab as int],
                        ));
                        assert(slots@ =~= parts@.map_values(|i: usize| goal[i as int].slab));
                    }
                }
            }
            assert(self.active@[i as int] == goal[i as int]);
            i += 1;
        }
        assert(self.active@ =~= goal);
        proof {
            self.lemma_fates_changed(old(self));
        }
        if parts.len() == 0 {
            return None;
        }
        Some(DecodePlan { parts, tokens, positions, slots })
    }

    /// Participant `i` of a successful batched decode was fed its token; it is
    /// due to take the sampled one.
    pub fn decoded(&mut self, i: usize)
        requires
            old(self).wf(),
            !old(self).unified,
            i < old(self).active@.len(),
            old(self).active@[i as int].live(),
            old(self).positions@[old(self).active@[i as int].slab as int] + 1 < old(self).ctx,
        ensures
            final(self).wf_but(i as int),
            final(self).same_rest(old(self)),
            final(self).active == old(self).active,
            ({
                let s = old(self).active@[i as int];
                let slab = s.slab as int;
                &&& final(self).positions@ == old(self).positions@.update(
                    slab,
                    (old(self).positions@[slab] + 1) as u32,
                )
                &&& final(self).fed@ == old(self).fed@.update(
                    slab,
                    old(self).fed@[slab].push(s.last_token),
                )
                &&& final(self).positions@[slab] == s.logical().len()
                &&& s.logical().len() < old(self).ctx
            }),
    {
        assert(self.seq_ok(i as int));
        assert(self.has_work(i as int));
        let ghost s = self.active@[i as int];
        let slab: usize = self.active[i].slab as usize;
        self.positions[slab] = self.positions[slab] + 1;
        self.fed = Ghost(self.fed@.update(slab as int, self.fed@[slab as int].push(s.last_token)));
        proof {
            let n = s.logical().len() as int;
            assert(s.logical().take(n - 1).push(s.last_token) =~= s.logical().take(n)) by {
                assert(s.logical()[n - 1] == s.generated@.last());
            }
            assert(self.seq_ok(i as int));
            assert(old(self).wf_but(i as int));
            self.lemma_one_sequence_changed(old(self), i as int);
        }
    }
}

} // verus!
