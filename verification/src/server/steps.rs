//! What the outcome of a forward makes of each participant: cursors move,
//! snapshots are taken, sampled tokens are streamed, and finished sequences
//! leave.
use vstd::prelude::*;

use crate::server::admission::same_slabs;
use crate::server::inference::StopReason;
use crate::server::prefix_cache::{covers, is_victim, same_bounds};
use crate::server::scheduler::{left, Advance, Capture};
use crate::server::sequence::{
    absorbed, ends, process_token, same_request, settle, ActiveSeq, Emission,
};
use crate::server::worker::Worker;
use crate::tokenizer::bundle::{stream_step, Tokenizer};

verus! {

impl Worker {
    /// Everything but the sequences and what their slabs hold is the same.
    pub open spec fn same_rest(&self, before: &Worker) -> bool {
        &&& self.slots == before.slots
        &&& self.rope_lag@ == before.rope_lag@
        &&& self.clock == before.clock
        &&& self.scratch_bytes == before.scratch_bytes
        &&& self.prefix_cache == before.prefix_cache
        &&& self.same_setup(before)
    }

    /// A change to sequence `i` and to what its own slab holds keeps the
    /// invariant, but for that sequence's having work left.
    pub proof fn lemma_one_sequence_changed(&self, before: &Worker, i: int)
        requires
            before.wf_but(i),
            0 <= i < before.active@.len(),
            self.same_rest(before),
            self.active@.len() == before.active@.len(),
            forall|a: int|
                0 <= a < self.active@.len() && a != i ==> (#[trigger] self.active@[a])
                    == before.active@[a],
            self.active@[i].slab == before.active@[i].slab,
            self.seq_ok(i),
            ({
                let slab = before.active@[i].slab as int;
                &&& self.positions@ == before.positions@.update(slab, self.positions@[slab])
                &&& self.fed@ == before.fed@.update(slab, self.fed@[slab])
                &&& self.fed@[slab].len() == self.positions@[slab]
            }),
        ensures
            self.wf_but(i),
            self.has_work(i) ==> self.wf(),
    {
        let slab = before.active@[i].slab as int;
        assert(before.seq_ok(i));
        assert forall|a: int| 0 <= a < self.active@.len() implies #[trigger] self.seq_ok(a) by {
            if a != i {
                assert(before.seq_ok(a));
                assert(self.active@[a] == before.active@[a]);
                assert(before.active@[a].slab != slab) by {
                    if a < i {
                        assert(before.active@[a].slab != before.active@[i].slab);
                    } else {
                        assert(before.active@[i].slab != before.active@[a].slab);
                    }
                }
            }
        }
        assert forall|a: int| 0 <= a < self.active@.len() && a != i implies #[trigger] self.has_work(
            a,
        ) by {
            assert(before.has_work(a));
            assert(before.seq_ok(a));
            assert(self.active@[a] == before.active@[a]);
            assert(before.active@[a].slab != slab) by {
                if a < i {
                    assert(before.active@[a].slab != before.active@[i].slab);
                } else {
                    assert(before.active@[i].slab != before.active@[a].slab);
                }
            }
        }
        assert forall|a: int, b: int|
            #![trigger self.active@[a], self.active@[b]]
            0 <= a < b < self.active@.len() implies self.active@[a].slab != self.active@[b].slab by {
            assert(before.active@[a].slab != before.active@[b].slab);
            assert(a != i ==> self.active@[a] == before.active@[a]);
            assert(b != i ==> self.active@[b] == before.active@[b]);
        }
        assert forall|k: int|
            0 <= k < self.slots@.len() && (#[trigger] self.slots@[k]).active implies self.owned(
            k,
        ) by {
            assert(before.owned(k));
            let a = choose|a: int|
                0 <= a < before.active@.len() && (#[trigger] before.active@[a]).slab == k;
            assert(self.active@[a].slab == k);
        }
        if self.has_work(i) {
            assert forall|a: int| 0 <= a < self.active@.len() implies #[trigger] self.has_work(
                a,
            ) by {}
        }
    }

    /// The conditions under which the first `p` tokens of sequence `i` are
    /// worth a snapshot: its slab holds text only, the length lies within the
    /// cache's bounds and the prompt, nothing cached covers it yet, and an
    /// unpinned pool slot can be had.
    pub open spec fn capturable(&self, i: int, p: u32) -> bool {
        let s = self.active@[i];
        &&& self.rope_lag@[s.slab as int] == 0
        &&& self.prefix_cache matches Some(pc)
        &&& pc.p_min <= p <= pc.max_cached_len
        &&& p <= s.prompt@.len()
        &&& !exists|k: int| covers(pc.entries@, s.prompt@.take(p as int), p, k)
        &&& !forall|k: int|
            0 <= k < pc.entries@.len() ==> (#[trigger] pc.entries@[k]) is Some
                && pc.entries@[k]->0.pinned
    }

    /// Whether and where the first `p` tokens of sequence `i` are snapshotted,
    /// so that a later request sharing them can be seeded from it.
    pub fn capture_checkpoint(&self, i: usize, p: u32) -> (r: Option<Capture>)
        requires
            self.wf_but(i as int),
            i < self.active@.len(),
        ensures
            r is Some <==> self.capturable(i as int, p),
            r matches Some(c) ==> {
                &&& c.p == p
                &&& c.slab == self.active@[i as int].slab
                &&& is_victim(self.prefix_cache->0.entries@, c.pool as int)
            },
    {
        assert(self.seq_ok(i as int));
        let slab: u32 = self.active[i].slab;
        if self.rope_lag[slab as usize] != 0 {
            return None;
        }
        match &self.prefix_cache {
            None => None,
            Some(pc) => match pc.capture_plan(self.active[i].prompt.as_slice(), p) {
                None => None,
                Some(pool) => Some(Capture { pool, slab, p }),
            },
        }
    }

    /// The snapshot `c` of sequence `i` was taken: its pool slot now answers
    /// for the first `c.p` tokens of the prompt.
    pub fn capture_done(&mut self, i: usize, c: &Capture, pinned: bool)
        requires
            old(self).wf(),
            i < old(self).active@.len(),
            c.p <= old(self).active@[i as int].prompt@.len(),
            old(self).prefix_cache matches Some(pc) && c.pool < pc.entries@.len() && pc.clock
                < u64::MAX,
        ensures
            final(self).wf(),
            final(self).slots == old(self).slots,
            final(self).active == old(self).active,
            final(self).clock == old(self).clock,
            final(self).scratch_bytes == old(self).scratch_bytes,
            final(self).same_setup(old(self)),
            same_slabs(old(self), final(self)),
            final(self).prefix_cache is Some,
            ({
                let before = old(self).prefix_cache->0;
                let after = final(self).prefix_cache->0;
                let s = old(self).active@[i as int];
                &&& after.clock == before.clock + 1
                &&& same_bounds(before, after)
                &&& after.entries@.len() == before.entries@.len()
                &&& forall|j: int|
                    0 <= j < before.entries@.len() && j != c.pool ==> after.entries@[j]
                        == before.entries@[j]
                &&& after.entries@[c.pool as int] matches Some(e) && e.tokens@ == s.prompt@.take(
                    c.p as int,
                ) && e.p == c.p && e.last_used == after.clock && e.pinned == pinned && (c.p
                    == old(self).positions@[s.slab as int] ==> e.tokens@ == old(
                    self,
                ).fed@[s.slab as int])
            }),
    {
        proof {
            let s = self.active@[i as int];
            assert(self.seq_ok(i as int));
            if c.p == self.positions@[s.slab as int] {
                assert(s.logical().take(c.p as int) =~= s.prompt@.take(c.p as int));
            }
        }
        if let Some(mut pc) = self.prefix_cache.take() {
            pc.captured(c.pool, self.active[i].prompt.as_slice(), c.p, pinned);
            self.prefix_cache = Some(pc);
        }
        proof {
            assert forall|a: int| 0 <= a < self.active@.len() implies #[trigger] self.seq_ok(a) by {
                assert(old(self).seq_ok(a));
            }
            assert forall|a: int| 0 <= a < self.active@.len() implies #[trigger] self.has_work(
                a,
            ) by {
                assert(old(self).has_work(a));
            }
            assert forall|k: int|
                0 <= k < self.slots@.len() && (#[trigger] self.slots@[k]).active implies self.owned(
                k,
            ) by {
                assert(old(self).owned(k));
                let a = choose|a: int|
                    0 <= a < old(self).active@.len() && (#[trigger] old(self).active@[a]).slab == k;
                assert(self.active@[a].slab == k);
            }
        }
    }

    /// A snapshot is due when prefill moves from `prev` to `p`: the cache's
    /// stride was crossed.
    pub open spec fn checkpoint_due(&self, prev: int, p: int) -> bool {
        self.prefix_cache matches Some(pc) && p / pc.ckpt_stride as int > prev
            / pc.ckpt_stride as int
    }

    /// Participant `i` of a successful mixed step was fed `n` tokens: move its
    /// cursor, and say what it does next.
    pub fn advance(&mut self, i: usize, n: u32) -> (r: Advance)
        requires
            old(self).wf(),
            old(self).unified,
            i < old(self).active@.len(),
            old(self).active@[i as int].live(),
            old(self).active@[i as int].num_computed + 1 < old(self).ctx,
            0 < n <= left(old(self).active@[i as int]),
        ensures
            final(self).same_rest(old(self)),
            ({
                let s = old(self).active@[i as int];
                let slab = s.slab as int;
                let p = (s.num_computed + n) as u32;
                let caught_up = p == s.logical().len();
                &&& final(self).positions@ == old(self).positions@.update(slab, p)
                &&& final(self).fed@ == old(self).fed@.update(slab, s.logical().take(p as int))
                &&& final(self).active@ == old(self).active@.update(
                    i as int,
                    (ActiveSeq { num_computed: p, started: s.started || caught_up, ..s }),
                )
                &&& caught_up ==> final(self).wf_but(i as int) && p < old(self).ctx
                &&& !caught_up ==> final(self).wf()
                &&& match r {
                    Advance::CaughtUp { announce } => caught_up && announce == if s.started {
                        None
                    } else {
                        Some(s.prompt_tokens)
                    },
                    Advance::Prefilling { capture } => {
                        &&& !caught_up
                        &&& capture is Some <==> old(self).checkpoint_due(
                            s.num_computed as int,
                            p as int,
                        ) && final(self).capturable(i as int, p)
                        &&& capture matches Some(c) ==> c.p == p && c.slab == s.slab && is_victim(
                            old(self).prefix_cache->0.entries@,
                            c.pool as int,
                        )
                    },
                }
            }),
    {
        assert(self.seq_ok(i as int));
        assert(self.has_work(i as int));
        let ghost s = self.active@[i as int];
        let slab: usize = self.active[i].slab as usize;
        let prev: u32 = self.active[i].num_computed;
        let p: u32 = prev + n;
        let logical: usize = self.active[i].prompt.len() + self.active[i].generated.len();
        assert(logical == s.logical().len());
        self.active[i].num_computed = p;
        self.positions[slab] = p;
        self.fed = Ghost(self.fed@.update(slab as int, s.logical().take(p as int)));
        let caught_up = p as usize == logical;
        let mut announce: Option<u32> = None;
        if caught_up && !self.active[i].started {
            self.active[i].started = true;
            announce = Some(self.active[i].prompt_tokens);
        }
        proof {
            assert(self.active@[i as int].logical() == s.logical());
            assert(self.seq_ok(i as int));
            assert(old(self).wf_but(i as int));
            self.lemma_one_sequence_changed(old(self), i as int);
            if !caught_up {
                assert(s.generated@.len() == 0);
                assert(self.has_work(i as int));
            }
            assert(self.active@ =~= old(self).active@.update(
                i as int,
                (ActiveSeq { num_computed: p, started: s.started || caught_up, ..s }),
            ));
        }
        if caught_up {
            return Advance::CaughtUp { announce };
        }
        let due = match &self.prefix_cache {
            Some(pc) => p / pc.ckpt_stride > prev / pc.ckpt_stride,
            None => false,
        };
        let capture = if due {
            self.capture_checkpoint(i, p)
        } else {
            None
        };
        Advance::Prefilling { capture }
    }

    /// The client of sequence `i` is gone.
    pub fn abandon(&mut self, i: usize)
        requires
            i < old(self).active@.len(),
            old(self).wf_but(i as int),
        ensures
            final(self).wf(),
            final(self).same_rest(old(self)),
            same_slabs(old(self), final(self)),
            final(self).active@ == old(self).active@.update(
                i as int,
                (ActiveSeq { disconnected: true, ..old(self).active@[i as int] }),
            ),
    {
        assert(self.seq_ok(i as int));
        let ghost s = self.active@[i as int];
        self.active[i].disconnected = true;
        proof {
            assert(self.active@[i as int].logical() == s.logical());
            assert(self.seq_ok(i as int));
            assert(self.positions@ =~= old(self).positions@.update(
                s.slab as int,
                self.positions@[s.slab as int],
            ));
            assert(self.fed@ =~= old(self).fed@.update(s.slab as int, self.fed@[s.slab as int]));
            self.lemma_one_sequence_changed(old(self), i as int);
            assert(self.has_work(i as int));
        }
    }

    /// Sequence `i`, fed to its end, takes the sampled `token`. What must be
    /// sent is returned; [`Worker::settle_token`] then takes whether it was
    /// delivered.
    pub fn take_token(&mut self, tokenizer: &Tokenizer, i: usize, token: u32) -> (r: Option<Emission>)
        requires
            i < old(self).active@.len(),
            old(self).wf_but(i as int),
            old(self).active@[i as int].live(),
            old(self).positions@[old(self).active@[i as int].slab as int] == old(
                self,
            ).active@[i as int].logical().len(),
            old(self).active@[i as int].logical().len() < old(self).ctx,
        ensures
            final(self).wf(),
            final(self).same_rest(old(self)),
            same_slabs(old(self), final(self)),
            final(self).active@.len() == old(self).active@.len(),
            forall|a: int|
                0 <= a < old(self).active@.len() && a != i ==> (#[trigger] final(self).active@[a])
                    == old(self).active@[a],
            ({
                let s = old(self).active@[i as int];
                let t = final(self).active@[i as int];
                let st = s.stream;
                let (text, state) = stream_step(
                    tokenizer,
                    token,
                    st.ids@,
                    st.prefix@,
                    st.prefix_index,
                    true,
                );
                &&& same_request(&(ActiveSeq { last_token: token, ..s }), &t)
                &&& t.generated@ == s.generated@.push(token)
                &&& !t.disconnected
                &&& r is None <==> ends(&s, old(self).eog_ids@, token)
                &&& r is None ==> t.terminal == Some(StopReason::Eos) && t.pending == s.pending
                    && t.stream == s.stream
                &&& r matches Some(e) ==> {
                    &&& t.terminal is None
                    &&& if st.prefix_index <= st.ids@.len() {
                        &&& absorbed(&s, &t, text.unwrap_or(None), e)
                        &&& t.stream@ == state
                    } else {
                        &&& absorbed(&s, &t, None, e)
                        &&& t.stream == st
                    }
                }
            }),
    {
        assert(self.seq_ok(i as int));
        let ghost s = self.active@[i as int];
        let r = process_token(tokenizer, self.eog_ids.as_slice(), &mut self.active[i], token);
        self.active[i].last_token = token;
        proof {
            let t = self.active@[i as int];
            assert(t.logical() =~= s.logical().push(token));
            assert(t.logical().take(s.logical().len() as int) =~= s.logical());
            assert(s.logical().take(s.logical().len() as int) =~= s.logical());
            assert(self.seq_ok(i as int));
            assert(self.positions@ =~= old(self).positions@.update(
                s.slab as int,
                self.positions@[s.slab as int],
            ));
            assert(self.fed@ =~= old(self).fed@.update(s.slab as int, self.fed@[s.slab as int]));
            self.lemma_one_sequence_changed(old(self), i as int);
            assert(self.has_work(i as int));
        }
        r
    }

    /// Take whether what sequence `i` emitted was delivered.
    pub fn settle_token(&mut self, i: usize, e: &Emission, delivered: bool)
        requires
            old(self).wf(),
            i < old(self).active@.len(),
        ensures
            final(self).wf(),
            final(self).same_rest(old(self)),
            same_slabs(old(self), final(self)),
            final(self).active@.len() == old(self).active@.len(),
            forall|a: int|
                0 <= a < old(self).active@.len() && a != i ==> (#[trigger] final(self).active@[a])
                    == old(self).active@[a],
            settled(&old(self).active@[i as int], &final(self).active@[i as int], e, delivered),
    {
        assert(self.seq_ok(i as int));
        assert(self.has_work(i as int));
        let ghost s = self.active@[i as int];
        settle(&mut self.active[i], e, delivered);
        proof {
            let t = self.active@[i as int];
            assert(t.logical() == s.logical());
            assert(self.seq_ok(i as int));
            assert(self.positions@ =~= old(self).positions@.update(
                s.slab as int,
                self.positions@[s.slab as int],
            ));
            assert(self.fed@ =~= old(self).fed@.update(s.slab as int, self.fed@[s.slab as int]));
            assert(old(self).wf_but(i as int));
            self.lemma_one_sequence_changed(old(self), i as int);
            assert(self.has_work(i as int));
        }
    }
}

/// How a sequence ends, or goes on, once it is known whether its emission was
/// delivered.
pub open spec fn settled(s: &ActiveSeq, t: &ActiveSeq, e: &Emission, delivered: bool) -> bool {
    &&& same_request(s, t)
    &&& t.generated == s.generated
    &&& t.pending == s.pending
    &&& t.stream == s.stream
    &&& match e {
        Emission::Last { text, matched } => if text@.len() > 0 && !delivered {
            t.disconnected && t.terminal == s.terminal
        } else {
            &&& t.disconnected == s.disconnected
            &&& t.terminal matches Some(StopReason::StopSequence(m)) && m@ == matched@
        },
        Emission::Text(_) if !delivered => t.disconnected && t.terminal == s.terminal,
        _ => {
            &&& t.disconnected == s.disconnected
            &&& t.terminal == if s.generated@.len() >= s.max_tokens {
                Some(StopReason::MaxTokens)
            } else {
                s.terminal
            }
        },
    }
}

} // verus!
