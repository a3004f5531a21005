//! Finished and abandoned sequences leave: their closing frames, and what their
//! slabs keep for later requests.
use vstd::prelude::*;

use crate::server::admission::same_slabs;
use crate::server::inference::{GenEvent, StopReason};
use crate::server::sequence::ActiveSeq;
use crate::server::worker::{SlotMeta, Worker};

verus! {

/// A sequence that left: its request, and the frames to send in order, up to
/// the first that the client does not take.
pub struct Eviction {
    pub id: u64,
    pub frames: Vec<GenEvent>,
}

/// The tokens that the slab of `s` holds when it leaves in the regular way: the
/// prompt and every generated token but the last, which was never fed back.
pub open spec fn prior_left(s: ActiveSeq) -> Seq<u32> {
    if s.generated@.len() > 1 {
        s.prompt@ + s.generated@.drop_last()
    } else {
        s.prompt@
    }
}

/// The live sequences of `a`, in order.
pub open spec fn live_ones(a: Seq<ActiveSeq>) -> Seq<ActiveSeq>
    decreases a.len(),
{
    if a.len() == 0 {
        seq![]
    } else {
        let before = live_ones(a.drop_last());
        if a.last().live() {
            before.push(a.last())
        } else {
            before
        }
    }
}

/// The finished or abandoned sequences of `a`, in order.
pub open spec fn gone_ones(a: Seq<ActiveSeq>) -> Seq<ActiveSeq>
    decreases a.len(),
{
    if a.len() == 0 {
        seq![]
    } else {
        let before = gone_ones(a.drop_last());
        if a.last().live() {
            before
        } else {
            before.push(a.last())
        }
    }
}

/// `e` is how `s` leaves: nothing for a lost client, otherwise the text still
/// held back, then the closing frame.
pub open spec fn leaves(s: ActiveSeq, e: Eviction) -> bool {
    let held = if s.pending@.len() > 0 {
        1int
    } else {
        0int
    };
    &&& e.id == s.id
    &&& s.disconnected ==> e.frames@.len() == 0
    &&& !s.disconnected ==> {
        &&& e.frames@.len() == held + 1
        &&& held == 1 ==> (e.frames@[0] matches GenEvent::Delta(t) && t@ == s.pending@)
        &&& e.frames@[held] == GenEvent::Done {
            stop_reason: s.terminal.unwrap_or(StopReason::MaxTokens),
            prompt_tokens: s.prompt_tokens,
            completion_tokens: s.generated@.len() as u32,
        }
    }
}

/// A sequence that left sat on slab `i`, at place `m` of `a`.
pub open spec fn left_from(a: Seq<ActiveSeq>, i: int, m: int) -> bool {
    0 <= m < a.len() && !a[m].live() && a[m].slab == i
}

/// What slot `i` is after the finished ones of `a` left.
pub open spec fn slot_after(a: Seq<ActiveSeq>, before: SlotMeta, after: SlotMeta, i: int) -> bool {
    &&& after.last_used == before.last_used
    &&& (forall|m: int| !left_from(a, i, m)) ==> after == before
    &&& forall|m: int| #[trigger]
        left_from(a, i, m) ==> !after.active && after.prior_tokens@ == prior_left(a[m])
}

/// The frames that close `seq`, and the tokens that its slab keeps.
fn close(seq: ActiveSeq) -> (r: (Eviction, Vec<u32>))
    ensures
        leaves(seq, r.0),
        r.1@ == prior_left(seq),
{
    let mut frames: Vec<GenEvent> = Vec::new();
    let ActiveSeq {
        id,
        prompt,
        generated,
        pending,
        terminal,
        disconnected,
        prompt_tokens,
        ..
    } = seq;
    let completion_tokens: u32 = generated.len() as u32;
    if !disconnected {
        if !pending.as_str().is_empty() {
            frames.push(GenEvent::Delta(pending));
        }
        let stop_reason = match terminal {
            Some(why) => why,
            None => StopReason::MaxTokens,
        };
        frames.push(GenEvent::Done { stop_reason, prompt_tokens, completion_tokens });
    }
    let mut prior = prompt;
    let ghost whole = prior@;
    if generated.len() > 1 {
        let last: usize = generated.len() - 1;
        let mut k: usize = 0;
        while k < last
            invariant
                k <= last,
                last < generated@.len(),
                prior@ == whole + generated@.take(k as int),
            decreases last - k,
        {
            prior.push(generated[k]);
            assert(generated@.take(k + 1) =~= generated@.take(k as int).push(generated@[k as int]));
            assert(prior@ =~= whole + generated@.take(k + 1));
            k += 1;
        }
        assert(generated@.take(last as int) =~= generated@.drop_last());
    }
    (Eviction { id, frames }, prior)
}

impl Worker {
    /// Reap finished and abandoned sequences: their frames are returned, their
    /// slabs go idle and keep what was fed.
    pub fn evict_finished(&mut self) -> (gone: Vec<Eviction>)
        requires
            old(self).wf(),
        ensures
            final(self).wf(),
            final(self).active@ == live_ones(old(self).active@),
            gone@.len() == gone_ones(old(self).active@).len(),
            forall|k: int|
                0 <= k < gone@.len() ==> leaves(
                    gone_ones(old(self).active@)[k],
                    #[trigger] gone@[k],
                ),
            final(self).slots@.len() == old(self).slots@.len(),
            forall|i: int|
                0 <= i < old(self).slots@.len() ==> slot_after(
                    old(self).active@,
                    #[trigger] old(self).slots@[i],
                    final(self).slots@[i],
                    i,
                ),
            final(self).clock == old(self).clock,
            final(self).scratch_bytes == old(self).scratch_bytes,
            final(self).prefix_cache == old(self).prefix_cache,
            final(self).same_setup(old(self)),
            same_slabs(old(self), final(self)),
    {
        let ghost all = self.active@;
        let ghost slots0 = self.slots@;
        let mut rest: Vec<ActiveSeq> = Vec::new();
        std::mem::swap(&mut rest, &mut self.active);
        let mut kept: Vec<ActiveSeq> = Vec::new();
        let mut gone: Vec<Eviction> = Vec::new();
        let ghost mut from: Seq<int> = seq![];
        for seq in it: rest
            invariant
                it.seq() == all,
                all == old(self).active@,
                slots0 == old(self).slots@,
                old(self).wf(),
                self.active@.len() == 0,
                kept@ == live_ones(all.take(it.index())),
                from.len() == kept@.len(),
                forall|k: int|
                    0 <= k < kept@.len() ==> {
                        &&& 0 <= #[trigger] from[k] < it.index()
                        &&& kept@[k] == all[from[k]]
                        &&& all[from[k]].live()
                    },
                forall|k: int, l: int|
                    0 <= k < l < kept@.len() ==> #[trigger] from[k] < #[trigger] from[l],
                forall|m: int|
                    0 <= m < it.index() && (#[trigger] all[m]).live() ==> exists|k: int|
                        0 <= k < kept@.len() && #[trigger] from[k] == m,
                gone@.len() == gone_ones(all.take(it.index())).len(),
                forall|k: int|
                    0 <= k < gone@.len() ==> leaves(
                        gone_ones(all.take(it.index()))[k],
                        #[trigger] gone@[k],
                    ),
                self.slots@.len() == slots0.len(),
                forall|i: int|
                    0 <= i < slots0.len() ==> slot_after(
                        all.take(it.index()),
                        #[trigger] slots0[i],
                        self.slots@[i],
                        i,
                    ),
                self.clock == old(self).clock,
                self.scratch_bytes == old(self).scratch_bytes,
                self.prefix_cache == old(self).prefix_cache,
                self.same_setup(old(self)),
                same_slabs(old(self), self),
        {
            let ghost at = it.index();
            let ghost before = all.take(at);
            let ghost now = all.take(at + 1);
            let ghost kept0 = kept@;
            let ghost from0 = from;
            let ghost slots1 = self.slots@;
            proof {
                assert(seq == all[at]);
                assert(now.drop_last() =~= before);
                assert(now.last() == seq);
                assert(old(self).seq_ok(at));
            }
            if seq.terminal.is_none() && !seq.disconnected {
                kept.push(seq);
                proof {
                    from = from.push(at);
                    assert forall|m: int|
                        0 <= m < at + 1 && (#[trigger] all[m]).live() implies exists|k: int|
                        0 <= k < kept@.len() && #[trigger] from[k] == m by {
                        if m < at {
                            let k = choose|k: int| 0 <= k < kept0.len() && #[trigger] from0[k] == m;
                            assert(from[k] == m);
                        } else {
                            assert(from[kept0.len() as int] == m);
                        }
                    }
                    assert forall|i: int| 0 <= i < slots0.len() implies slot_after(
                        now,
                        #[trigger] slots0[i],
                        self.slots@[i],
                        i,
                    ) by {
                        assert(slot_after(before, slots0[i], slots1[i], i));
                        assert forall|m: int| #[trigger] left_from(now, i, m) implies left_from(
                            before,
                            i,
                            m,
                        ) by {}
                        assert forall|m: int| #[trigger] left_from(before, i, m) implies left_from(
                            now,
                            i,
                            m,
                        ) by {}
                    }
                }
            } else {
                let slab: usize = seq.slab as usize;
                let (e, prior) = close(seq);
                let ghost gone0 = gone@;
                gone.push(e);
                self.slots[slab].prior_tokens = prior;
                self.slots[slab].active = false;
                proof {
                    let g0 = gone_ones(before);
                    assert(gone_ones(now) == g0.push(seq));
                    assert forall|k: int| 0 <= k < gone@.len() implies leaves(
                        gone_ones(now)[k],
                        #[trigger] gone@[k],
                    ) by {
                        if k < gone0.len() {
                            assert(leaves(g0[k], gone0[k]));
                        }
                    }
                    assert forall|i: int| 0 <= i < slots0.len() implies slot_after(
                        now,
                        #[trigger] slots0[i],
                        self.slots@[i],
                        i,
                    ) by {
                        assert(slot_after(before, slots0[i], slots1[i], i));
                        if i == slab {
                            assert(left_from(now, i, at));
                            assert forall|m: int| #[trigger] left_from(now, i, m) implies m == at by {
                                if m < at {
                                    assert(all[m].slab != all[at].slab);
                                }
                            }
                        } else {
                            assert forall|m: int| #[trigger] left_from(now, i, m) implies left_from(
                                before,
                                i,
                                m,
                            ) by {}
                            assert forall|m: int| #[trigger]
                                left_from(before, i, m) implies left_from(now, i, m) by {}
                        }
                    }
                }
            }
        }
        self.active = kept;
        proof {
            assert(all.take(all.len() as int) =~= all);
            self.lemma_evicted(old(self), from);
        }
        gone
    }

    /// Once the finished ones left, the invariant holds of the rest.
    proof fn lemma_evicted(&self, before: &Worker, from: Seq<int>)
        requires
            before.wf(),
            from.len() == self.active@.len(),
            forall|k: int|
                0 <= k < self.active@.len() ==> {
                    &&& 0 <= #[trigger] from[k] < before.active@.len()
                    &&& self.active@[k] == before.active@[from[k]]
                    &&& before.active@[from[k]].live()
                },
            forall|k: int, l: int|
                0 <= k < l < self.active@.len() ==> #[trigger] from[k] < #[trigger] from[l],
            forall|m: int|
                0 <= m < before.active@.len() && (#[trigger] before.active@[m]).live()
                    ==> exists|k: int| 0 <= k < self.active@.len() && #[trigger] from[k] == m,
            self.slots@.len() == before.slots@.len(),
            forall|i: int|
                0 <= i < before.slots@.len() ==> slot_after(
                    before.active@,
                    #[trigger] before.slots@[i],
                    self.slots@[i],
                    i,
                ),
            self.prefix_cache == before.prefix_cache,
            self.same_setup(before),
            same_slabs(before, self),
        ensures
            self.wf(),
    {
        let all = before.active@;
        assert forall|a: int| 0 <= a < self.active@.len() implies #[trigger] self.seq_ok(a)
            && self.has_work(a) by {
            let m = from[a];
            assert(before.seq_ok(m));
            assert(before.has_work(m));
            let i = all[m].slab as int;
            assert(slot_after(all, before.slots@[i], self.slots@[i], i));
            assert forall|n: int| !left_from(all, i, n) by {
                if left_from(all, i, n) {
                    if n < m {
                        assert(all[n].slab != all[m].slab);
                    } else if m < n {
                        assert(all[m].slab != all[n].slab);
                    }
                }
            }
        }
        assert forall|a: int| 0 <= a < self.active@.len() implies #[trigger] self.has_work(a) by {
            assert(self.seq_ok(a));
        }
        assert forall|a: int, b: int|
            #![trigger self.active@[a], self.active@[b]]
            0 <= a < b < self.active@.len() implies self.active@[a].slab != self.active@[b].slab by {
            assert(from[a] < from[b]);
            assert(all[from[a]].slab != all[from[b]].slab);
        }
        assert forall|i: int|
            0 <= i < self.slots@.len() && (#[trigger] self.slots@[i]).active implies self.owned(
            i,
        ) by {
            assert(slot_after(all, before.slots@[i], self.slots@[i], i));
            assert forall|n: int| !left_from(all, i, n) by {
                if left_from(all, i, n) {
                    assert(!self.slots@[i].active);
                }
            }
            assert(before.slots@[i].active);
            assert(before.owned(i));
            let m = choose|m: int| 0 <= m < all.len() && (#[trigger] all[m]).slab == i;
            assert(!left_from(all, i, m));
            let k = choose|k: int| 0 <= k < self.active@.len() && #[trigger] from[k] == m;
            assert(self.active@[k].slab == i);
        }
        assert forall|i: int|
            #![trigger self.slots@[i]]
            0 <= i < self.slots@.len() && !self.slots@[i].active
                && self.slots@[i].prior_tokens@.len()
                == self.positions@[i] implies self.slots@[i].prior_tokens@ == self.fed@[i] by {
            assert(slot_after(all, before.slots@[i], self.slots@[i], i));
            if exists|m: int| left_from(all, i, m) {
                let m = choose|m: int| left_from(all, i, m);
                assert(before.seq_ok(m));
                let s = all[m];
                assert(prior_left(s) =~= s.logical().take(prior_left(s).len() as int));
            } else {
                assert forall|m: int| !left_from(all, i, m) by {}
                assert(self.slots@[i] == before.slots@[i]);
            }
        }
    }
}

/// A sequence that generated at least one token and then ended leaves its slab
/// recorded with exactly as many tokens as its cache holds, so that the next
/// turn of the conversation can continue it in place.
pub proof fn law_finished_slab_can_be_continued(w: &Worker, a: int)
    requires
        w.wf(),
        0 <= a < w.active@.len(),
        w.active@[a].generated@.len() > 0,
        w.positions@[w.active@[a].slab as int] + 1 == w.active@[a].logical().len(),
    ensures
        prior_left(w.active@[a]) == w.fed@[w.active@[a].slab as int],
        prior_left(w.active@[a]).len() == w.positions@[w.active@[a].slab as int],
{
    assert(w.seq_ok(a));
    let s = w.active@[a];
    assert(prior_left(s) =~= s.logical().take(s.logical().len() - 1));
}

} // verus!
