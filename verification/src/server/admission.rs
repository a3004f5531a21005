//! Admitting requests: which slab a prompt gets, how much of it is cached
//! already, and what the outcome of the prefill makes of the scheduler.
use vstd::prelude::*;
use vstd::slice::{slice_subrange, slice_to_vec};

use crate::server::prefix_cache::{leads, longest_leading, same_bounds, seed_of, PrefixEntry};
use crate::server::sequence::ActiveSeq;
use crate::server::slots::lcp;
use crate::server::worker::{all_busy, slab_for, AdmitError, Request, SlotMeta, Worker};
use crate::tokenizer::bundle::DecodeState;

verus! {

/// The prefill that admits a prompt: feed `delta` to slab `slab` from position
/// `start`, after clearing the slab if `reset`.
pub struct Prefill {
    pub slab: usize,
    pub start: u32,
    pub delta: Vec<u32>,
    pub reset: bool,
}

/// How a prompt starts on its slab when steps mix prefill and decode.
pub enum UnifiedStart {
    /// The slab already holds this many of its tokens.
    Reuse(u32),
    /// Copy the first `p` tokens' state from snapshot `pool`; if the copy
    /// fails, start afresh.
    Seed { pool: usize, p: u32 },
    /// Clear the slab and prefill everything.
    Fresh,
}

/// The cached prefix of slab `slab` serves `tokens` in place: its prior is
/// non-empty, `tokens` starts with it, and the slab's cursor agrees.
pub open spec fn pure_extension(w: &Worker, slab: int, tokens: Seq<u32>) -> bool {
    let prior = w.slots@[slab].prior_tokens@;
    prior.len() > 0 && prior.is_prefix_of(tokens) && prior.len() == w.positions@[slab]
}

/// How many tokens of a pure extension are kept: all of the prior, or all but
/// one where the whole prompt is cached, so that there is a token to sample
/// from.
pub open spec fn kept(w: &Worker, slab: int, tokens: Seq<u32>) -> nat {
    let n = w.slots@[slab].prior_tokens@.len();
    if n < tokens.len() {
        n
    } else {
        (n - 1) as nat
    }
}

/// A worker that differs from `w` in the stamp of slab `slab` alone.
pub open spec fn stamped(w: &Worker, after: &Worker, slab: int) -> bool {
    &&& after.same_setup(w)
    &&& after.clock == w.clock + 1
    &&& after.slots@ == w.slots@.update(
        slab,
        (SlotMeta { last_used: after.clock, ..w.slots@[slab] }),
    )
    &&& after.active == w.active
    &&& after.scratch_bytes == w.scratch_bytes
    &&& after.prefix_cache == w.prefix_cache
}

/// The slabs' contents are those of `w`.
pub open spec fn same_slabs(w: &Worker, after: &Worker) -> bool {
    &&& after.positions@ == w.positions@
    &&& after.rope_lag@ == w.rope_lag@
    &&& after.fed@ == w.fed@
}

/// The slabs' contents are those of `w` with slab `slab` cleared.
pub open spec fn cleared_slab(w: &Worker, after: &Worker, slab: int) -> bool {
    &&& after.positions@ == w.positions@.update(slab, 0)
    &&& after.rope_lag@ == w.rope_lag@.update(slab, 0)
    &&& after.fed@ == w.fed@.update(slab, seq![])
}

/// A sequence that has just been admitted.
pub open spec fn fresh_seq(s: &ActiveSeq, req: &Request, slab: int, computed: int) -> bool {
    &&& s.id == req.id
    &&& s.slab == slab
    &&& s.prompt == req.tokens
    &&& s.generated@.len() == 0
    &&& s.prompt_tokens == req.tokens@.len()
    &&& s.stop == req.stop
    &&& s.ignore_eos == req.ignore_eos
    &&& s.max_tokens == req.max_tokens
    &&& s.stream@ == (Seq::<u32>::empty(), Seq::<char>::empty(), 0usize)
    &&& s.pending@.len() == 0
    &&& s.terminal is None
    &&& !s.disconnected
    &&& s.num_computed == computed
}

impl Worker {
    /// Stamp slab `slab` with the next tick.
    pub(crate) fn stamp(&mut self, slab: usize)
        requires
            old(self).wf(),
            slab < old(self).slots@.len(),
            old(self).clock < u64::MAX,
        ensures
            stamped(old(self), final(self), slab as int),
            same_slabs(old(self), final(self)),
            final(self).wf(),
    {
        self.clock = self.clock + 1;
        let clock = self.clock;
        self.slots[slab].last_used = clock;
        proof {
            assert forall|a: int| 0 <= a < self.active@.len() implies #[trigger] self.seq_ok(a) by {
                assert(old(self).seq_ok(a));
            }
            assert forall|a: int| 0 <= a < self.active@.len() implies #[trigger] self.has_work(
                a,
            ) by {
                assert(old(self).has_work(a));
            }
            assert forall|i: int|
                0 <= i < self.slots@.len() && (#[trigger] self.slots@[i]).active implies self.owned(
                i,
            ) by {
                assert(old(self).slots@[i].active);
                assert(old(self).owned(i));
                let a = choose|a: int|
                    0 <= a < old(self).active@.len() && (#[trigger] old(self).active@[a]).slab == i;
                assert(self.active@[a].slab == i);
            }
        }
    }

    /// Clear an idle slab: nothing cached, no rope lag.
    pub fn reset_slab(&mut self, slab: usize)
        requires
            old(self).wf(),
            slab < old(self).slots@.len(),
            !old(self).slots@[slab as int].active,
        ensures
            cleared_slab(old(self), final(self), slab as int),
            final(self).slots == old(self).slots,
            final(self).active == old(self).active,
            final(self).clock == old(self).clock,
            final(self).scratch_bytes == old(self).scratch_bytes,
            final(self).prefix_cache == old(self).prefix_cache,
            final(self).same_setup(old(self)),
            final(self).wf(),
    {
        self.positions[slab] = 0;
        self.rope_lag[slab] = 0;
        self.fed = Ghost(self.fed@.update(slab as int, seq![]));
        proof {
            let prior = self.slots@[slab as int].prior_tokens@;
            assert(prior.len() == 0 ==> prior =~= self.fed@[slab as int]);
            self.lemma_idle_slab_changed(old(self), slab as int);
        }
    }

    /// Changing what an idle slab holds keeps the invariant.
    proof fn lemma_idle_slab_changed(&self, before: &Worker, slab: int)
        requires
            before.wf(),
            0 <= slab < before.slots@.len(),
            !before.slots@[slab].active,
            self.slots@.len() == before.slots@.len(),
            forall|i: int|
                0 <= i < self.slots@.len() && i != slab ==> (#[trigger] self.slots@[i])
                    == before.slots@[i],
            !self.slots@[slab].active,
            self.slots@[slab].prior_tokens@.len() == self.positions@[slab]
                ==> self.slots@[slab].prior_tokens@ == self.fed@[slab],
            self.active == before.active,
            self.same_setup(before),
            self.prefix_cache matches Some(pc) ==> pc.wf(),
            self.positions@ == before.positions@.update(slab, self.positions@[slab]),
            self.rope_lag@.len() == before.rope_lag@.len(),
            self.fed@ == before.fed@.update(slab, self.fed@[slab]),
            self.fed@[slab].len() == self.positions@[slab],
        ensures
            self.wf(),
    {
        assert forall|a: int| 0 <= a < self.active@.len() implies #[trigger] self.seq_ok(a) by {
            assert(before.seq_ok(a));
        }
        assert forall|a: int| 0 <= a < self.active@.len() implies #[trigger] self.has_work(a) by {
            assert(before.has_work(a));
            assert(before.seq_ok(a));
        }
        assert forall|i: int|
            0 <= i < self.slots@.len() && (#[trigger] self.slots@[i]).active implies self.owned(
            i,
        ) by {
            assert(before.slots@[i].active);
            assert(before.owned(i));
            let a = choose|a: int|
                0 <= a < before.active@.len() && (#[trigger] before.active@[a]).slab == i;
            assert(self.active@[a].slab == i);
        }
    }

    /// Common checks of a text prompt, in order: it is not empty, a slab is
    /// idle, and it leaves room to generate.
    fn place(&self, req: &Request) -> (r: Result<usize, AdmitError>)
        ensures
            match r {
                Err(AdmitError::EmptyPrompt) => req.tokens@.len() == 0,
                Err(AdmitError::NoFreeSlot) => req.tokens@.len() > 0 && all_busy(self.slots@),
                Err(AdmitError::PromptTooLong { tokens, ctx }) => {
                    &&& req.tokens@.len() > 0
                    &&& !all_busy(self.slots@)
                    &&& req.tokens@.len() >= self.ctx
                    &&& tokens == req.tokens@.len()
                    &&& ctx == self.ctx
                },
                Err(_) => false,
                Ok(slab) => {
                    &&& 0 < req.tokens@.len() < self.ctx
                    &&& slab < self.slots@.len()
                    &&& !self.slots@[slab as int].active
                    &&& slab_for(self.slots@, req.tokens@, req.id_slot, slab as int)
                },
            },
    {
        if req.tokens.len() == 0 {
            return Err(AdmitError::EmptyPrompt);
        }
        match self.select_free_slab(req.tokens.as_slice(), req.id_slot) {
            None => Err(AdmitError::NoFreeSlot),
            Some(slab) => {
                if req.tokens.len() >= self.ctx as usize {
                    Err(AdmitError::PromptTooLong { tokens: req.tokens.len(), ctx: self.ctx })
                } else {
                    Ok(slab)
                }
            },
        }
    }

    /// Number of tokens of a pure extension that slab `slab` keeps, or `None`
    /// where its cache cannot serve `tokens` in place.
    fn reuse(&self, slab: usize, tokens: &Vec<u32>) -> (r: Option<u32>)
        requires
            self.wf(),
            slab < self.slots@.len(),
            !self.slots@[slab as int].active,
            0 < tokens@.len() < self.ctx,
        ensures
            r is Some <==> pure_extension(self, slab as int, tokens@),
            r matches Some(n) ==> {
                &&& n == kept(self, slab as int, tokens@)
                &&& n < tokens@.len()
                &&& n <= self.positions@[slab as int]
                &&& self.fed@[slab as int].take(n as int) == tokens@.take(n as int)
            },
    {
        let common: usize = lcp(self.slots[slab].prior_tokens.as_slice(), tokens.as_slice());
        let prior: usize = self.slots[slab].prior_tokens.len();
        if common > 0 && common == prior && common == self.positions[slab] as usize {
            let n: u32 = if common < tokens.len() {
                common as u32
            } else {
                common as u32 - 1
            };
            proof {
                let p = self.slots@[slab as int].prior_tokens@;
                assert(p == self.fed@[slab as int]);
                assert(p =~= tokens@.take(common as int));
                assert(p.take(n as int) =~= tokens@.take(n as int));
            }
            Some(n)
        } else {
            None
        }
    }

    /// Admit a text prompt for a serial prefill. The slab's cached prefix is
    /// kept only where the prompt extends exactly what the slab holds; any
    /// divergence clears the slab.
    pub fn admit_text(&mut self, req: &Request) -> (r: Result<Prefill, AdmitError>)
        requires
            old(self).wf(),
            old(self).clock < u64::MAX,
        ensures
            final(self).wf(),
            match r {
                Err(AdmitError::EmptyPrompt) => req.tokens@.len() == 0,
                Err(AdmitError::NoFreeSlot) => req.tokens@.len() > 0 && all_busy(old(self).slots@),
                Err(AdmitError::PromptTooLong { tokens, ctx }) => {
                    &&& req.tokens@.len() > 0
                    &&& !all_busy(old(self).slots@)
                    &&& req.tokens@.len() >= old(self).ctx
                    &&& tokens == req.tokens@.len()
                    &&& ctx == old(self).ctx
                },
                Err(_) => false,
                Ok(p) => {
                    let slab = p.slab as int;
                    let tokens = req.tokens@;
                    &&& 0 < tokens.len() < old(self).ctx
                    &&& slab_for(old(self).slots@, tokens, req.id_slot, slab)
                    &&& p.slab < old(self).slots@.len()
                    &&& !old(self).slots@[slab].active
                    &&& stamped(old(self), final(self), slab)
                    &&& p.reset == !pure_extension(old(self), slab, tokens)
                    &&& p.reset ==> p.start == 0 && cleared_slab(old(self), final(self), slab)
                    &&& !p.reset ==> p.start == kept(old(self), slab, tokens) && same_slabs(
                        old(self),
                        final(self),
                    )
                    &&& p.delta@ == tokens.skip(p.start as int)
                    &&& p.delta@.len() > 0
                    &&& final(self).holds(slab, tokens, p.start as int)
                },
            },
            r is Err ==> *final(self) == *old(self),
    {
        let slab: usize = match self.place(req) {
            Err(e) => {
                return Err(e);
            },
            Ok(slab) => slab,
        };
        self.stamp(slab);
        match self.reuse(slab, &req.tokens) {
            Some(start) => {
                let delta = slice_to_vec(
                    slice_subrange(req.tokens.as_slice(), start as usize, req.tokens.len()),
                );
                assert(delta@ =~= req.tokens@.skip(start as int));
                Ok(Prefill { slab, start, delta, reset: false })
            },
            None => {
                self.reset_slab(slab);
                let delta = slice_to_vec(req.tokens.as_slice());
                assert(delta@ =~= req.tokens@.skip(0));
                assert(req.tokens@.take(0) =~= self.fed@[slab as int].take(0));
                Ok(Prefill { slab, start: 0, delta, reset: true })
            },
        }
    }

    /// Slab `slab` is idle, and the first `n` positions of its cache are those
    /// of `tokens`.
    pub open spec fn holds(&self, slab: int, tokens: Seq<u32>, n: int) -> bool {
        &&& 0 <= slab < self.slots@.len()
        &&& !self.slots@[slab].active
        &&& 0 <= n <= tokens.len()
        &&& n <= self.positions@[slab]
        &&& self.fed@[slab].take(n) == tokens.take(n)
    }

    /// The prefill of an admitted prompt failed: its slab is left empty.
    pub fn prefill_failed(&mut self, slab: usize)
        requires
            old(self).wf(),
            slab < old(self).slots@.len(),
            !old(self).slots@[slab as int].active,
        ensures
            cleared_slab(old(self), final(self), slab as int),
            final(self).slots@.len() == old(self).slots@.len(),
            forall|i: int|
                0 <= i < old(self).slots@.len() && i != slab ==> (#[trigger] final(self).slots@[i])
                    == old(self).slots@[i],
            final(self).slots@[slab as int].prior_tokens@.len() == 0,
            final(self).slots@[slab as int].last_used == old(self).slots@[slab as int].last_used,
            !final(self).slots@[slab as int].active,
            final(self).active == old(self).active,
            final(self).clock == old(self).clock,
            final(self).scratch_bytes == old(self).scratch_bytes,
            final(self).prefix_cache == old(self).prefix_cache,
            final(self).same_setup(old(self)),
            final(self).wf(),
    {
        self.positions[slab] = 0;
        self.rope_lag[slab] = 0;
        self.fed = Ghost(self.fed@.update(slab as int, seq![]));
        self.slots[slab].prior_tokens = Vec::new();
        proof {
            assert(self.slots@[slab as int].prior_tokens@ =~= self.fed@[slab as int]);
            self.lemma_idle_slab_changed(old(self), slab as int);
        }
    }

    /// Putting a new sequence on idle slab `slab` keeps the invariant, but for
    /// the new sequence's having work left.
    proof fn lemma_sequence_added(&self, before: &Worker, slab: int)
        requires
            before.wf(),
            0 <= slab < before.slots@.len(),
            !before.slots@[slab].active,
            self.slots@.len() == before.slots@.len(),
            forall|i: int|
                0 <= i < self.slots@.len() && i != slab ==> (#[trigger] self.slots@[i])
                    == before.slots@[i],
            self.slots@[slab].active,
            self.active@.len() == before.active@.len() + 1,
            forall|a: int|
                0 <= a < before.active@.len() ==> (#[trigger] self.active@[a]) == before.active@[a],
            self.active@.last().slab == slab,
            self.seq_ok(before.active@.len() as int),
            self.same_setup(before),
            self.prefix_cache matches Some(pc) ==> pc.wf(),
            self.positions@ == before.positions@.update(slab, self.positions@[slab]),
            self.rope_lag@.len() == before.rope_lag@.len(),
            self.fed@ == before.fed@.update(slab, self.fed@[slab]),
            self.fed@[slab].len() == self.positions@[slab],
        ensures
            self.wf_but(before.active@.len() as int),
    {
        let n = before.active@.len() as int;
        assert forall|a: int| 0 <= a < self.active@.len() implies #[trigger] self.seq_ok(a) by {
            if a < n {
                assert(before.seq_ok(a));
                assert(self.active@[a] == before.active@[a]);
            }
        }
        assert forall|a: int| 0 <= a < self.active@.len() && a != n implies #[trigger] self.has_work(
            a,
        ) by {
            assert(before.has_work(a));
            assert(before.seq_ok(a));
            assert(self.active@[a] == before.active@[a]);
        }
        assert forall|a: int, b: int|
            #![trigger self.active@[a], self.active@[b]]
            0 <= a < b < self.active@.len() implies self.active@[a].slab != self.active@[b].slab by {
            assert(before.seq_ok(a));
            assert(self.active@[a] == before.active@[a]);
            if b < n {
                assert(self.active@[b] == before.active@[b]);
            }
        }
        assert forall|i: int|
            0 <= i < self.slots@.len() && (#[trigger] self.slots@[i]).active implies self.owned(
            i,
        ) by {
            if i == slab {
                assert(self.active@[n].slab == i);
            } else {
                assert(before.slots@[i].active);
                assert(before.owned(i));
                let a = choose|a: int|
                    0 <= a < before.active@.len() && (#[trigger] before.active@[a]).slab == i;
                assert(self.active@[a].slab == i);
            }
        }
    }

    /// The prefill of an admitted prompt succeeded and sampled `first`.
    /// `delivered` says whether the client took the start of the reply: if it
    /// did, the sequence joins the active set and is due to take `first`; if
    /// not, the slab goes idle and keeps the prompt for a later reuse.
    pub fn prefilled(
        &mut self,
        req: Request,
        slab: usize,
        rope_lag: Option<u32>,
        delivered: bool,
        first: u32,
    )
        requires
            old(self).wf(),
            slab < old(self).slots@.len(),
            !old(self).slots@[slab as int].active,
            0 < req.tokens@.len() < old(self).ctx,
        ensures
            final(self).positions@ == old(self).positions@.update(
                slab as int,
                req.tokens@.len() as u32,
            ),
            final(self).rope_lag@ == match rope_lag {
                Some(lag) => old(self).rope_lag@.update(slab as int, lag),
                None => old(self).rope_lag@,
            },
            final(self).fed@ == old(self).fed@.update(slab as int, req.tokens@),
            final(self).clock == old(self).clock,
            final(self).scratch_bytes == old(self).scratch_bytes,
            final(self).prefix_cache == old(self).prefix_cache,
            final(self).same_setup(old(self)),
            final(self).slots@.len() == old(self).slots@.len(),
            forall|i: int|
                0 <= i < old(self).slots@.len() && i != slab ==> (#[trigger] final(self).slots@[i])
                    == old(self).slots@[i],
            final(self).slots@[slab as int].last_used == old(self).slots@[slab as int].last_used,
            final(self).slots@[slab as int].active == delivered,
            !delivered ==> {
                &&& final(self).slots@[slab as int].prior_tokens@ == req.tokens@
                &&& final(self).active == old(self).active
                &&& final(self).wf()
            },
            delivered ==> {
                let n = old(self).active@.len() as int;
                let s = final(self).active@[n];
                &&& final(self).slots@[slab as int].prior_tokens == old(
                    self,
                ).slots@[slab as int].prior_tokens
                &&& final(self).active@ == old(self).active@.push(s)
                &&& fresh_seq(&s, &req, slab as int, req.tokens@.len() as int)
                &&& s.started
                &&& s.last_token == first
                &&& final(self).wf_but(n)
            },
    {
        let n: u32 = req.tokens.len() as u32;
        self.positions[slab] = n;
        if let Some(lag) = rope_lag {
            self.rope_lag[slab] = lag;
        }
        self.fed = Ghost(self.fed@.update(slab as int, req.tokens@));
        if !delivered {
            self.slots[slab].prior_tokens = req.tokens;
            proof {
                self.lemma_idle_slab_changed(old(self), slab as int);
            }
            return;
        }
        self.slots[slab].active = true;
        let ghost tokens = req.tokens@;
        let seq = ActiveSeq {
            id: req.id,
            slab: slab as u32,
            prompt: req.tokens,
            generated: Vec::new(),
            prompt_tokens: n,
            stop: req.stop,
            ignore_eos: req.ignore_eos,
            max_tokens: req.max_tokens,
            stream: DecodeState { ids: Vec::new(), prefix: String::new(), prefix_index: 0 },
            pending: String::new(),
            last_token: first,
            terminal: None,
            disconnected: false,
            num_computed: n,
            started: true,
        };
        self.active.push(seq);
        proof {
            let k = old(self).active@.len() as int;
            let s = self.active@[k];
            assert(s.logical() =~= tokens);
            assert(s.logical().take(n as int) =~= tokens);
            assert(self.seq_ok(k));
            self.lemma_sequence_added(old(self), slab as int);
        }
    }

    /// Admit a prompt for mixed steps: pick a slab and how much of the prompt
    /// it starts with, without prefilling. [`Worker::begin_unified`] then takes
    /// how the start went.
    pub fn admit_unified(&mut self, req: &Request) -> (r: Result<(usize, UnifiedStart), AdmitError>)
        requires
            old(self).wf(),
            old(self).clock < u64::MAX,
        ensures
            final(self).wf(),
            match r {
                Err(AdmitError::EmptyPrompt) => req.tokens@.len() == 0,
                Err(AdmitError::NoFreeSlot) => req.tokens@.len() > 0 && all_busy(old(self).slots@),
                Err(AdmitError::PromptTooLong { tokens, ctx }) => {
                    &&& req.tokens@.len() > 0
                    &&& !all_busy(old(self).slots@)
                    &&& req.tokens@.len() >= old(self).ctx
                    &&& tokens == req.tokens@.len()
                    &&& ctx == old(self).ctx
                },
                Err(_) => false,
                Ok((slab, start)) => {
                    &&& 0 < req.tokens@.len() < old(self).ctx
                    &&& slab < old(self).slots@.len()
                    &&& !old(self).slots@[slab as int].active
                    &&& slab_for(old(self).slots@, req.tokens@, req.id_slot, slab as int)
                    &&& stamped(old(self), final(self), slab as int)
                    &&& same_slabs(old(self), final(self))
                    &&& final(self).may_begin(slab as int, req.tokens@, start)
                    &&& start is Reuse <==> pure_extension(old(self), slab as int, req.tokens@)
                    &&& start is Seed ==> start == UnifiedStart::Seed {
                        pool: start->pool,
                        p: seed_of(
                            &old(self).prefix_cache->0,
                            req.tokens@,
                            req.tokens@.len() as u32,
                            start->pool as int,
                        ),
                    } && longest_leading(
                        old(self).prefix_cache->0.entries@,
                        req.tokens@,
                        start->pool as int,
                    )
                    &&& start is Fresh ==> !pure_extension(old(self), slab as int, req.tokens@)
                        && old(self).no_seed(req.tokens@)
                    &&& start matches UnifiedStart::Reuse(n) ==> n == kept(
                        old(self),
                        slab as int,
                        req.tokens@,
                    )
                },
            },
            r is Err ==> *final(self) == *old(self),
    {
        let slab: usize = match self.place(req) {
            Err(e) => {
                return Err(e);
            },
            Ok(slab) => slab,
        };
        self.stamp(slab);
        if let Some(n) = self.reuse(slab, &req.tokens) {
            return Ok((slab, UnifiedStart::Reuse(n)));
        }
        if let Some(pc) = &self.prefix_cache {
            if let Some((pool, p)) = pc.seed_plan(req.tokens.as_slice(), req.tokens.len() as u32) {
                return Ok((slab, UnifiedStart::Seed { pool, p }));
            }
        }
        Ok((slab, UnifiedStart::Fresh))
    }

    /// No cached leading prefix of `tokens` is long enough to seed from.
    pub open spec fn no_seed(&self, tokens: Seq<u32>) -> bool {
        match self.prefix_cache {
            None => true,
            Some(pc) => {
                ||| forall|i: int| !leads(pc.entries@, tokens, i)
                ||| exists|i: int|
                    longest_leading(pc.entries@, tokens, i) && seed_of(
                        &pc,
                        tokens,
                        tokens.len() as u32,
                        i,
                    ) < pc.p_min
            },
        }
    }

    /// `start` is one that slab `slab` can begin `tokens` with.
    pub open spec fn may_begin(&self, slab: int, tokens: Seq<u32>, start: UnifiedStart) -> bool {
        &&& 0 <= slab < self.slots@.len()
        &&& !self.slots@[slab].active
        &&& match start {
            UnifiedStart::Reuse(n) => n < tokens.len() && self.holds(slab, tokens, n as int),
            UnifiedStart::Seed { pool, p } => {
                &&& self.prefix_cache is Some
                &&& leads(self.prefix_cache->0.entries@, tokens, pool as int)
                &&& p <= self.prefix_cache->0.entries@[pool as int]->0.p
                &&& p < tokens.len()
            },
            UnifiedStart::Fresh => true,
        }
    }

    /// Where a prompt that begins with `start` stands.
    pub open spec fn begin_at(start: UnifiedStart) -> u32 {
        match start {
            UnifiedStart::Reuse(n) => n,
            UnifiedStart::Seed { p, .. } => p,
            UnifiedStart::Fresh => 0,
        }
    }

    /// Put an admitted prompt on its slab, begun as `start` says. A failed seed
    /// is passed as `Fresh`.
    pub fn begin_unified(&mut self, req: Request, slab: usize, start: UnifiedStart)
        requires
            old(self).wf(),
            old(self).unified,
            old(self).may_begin(slab as int, req.tokens@, start),
            0 < req.tokens@.len() < old(self).ctx,
            old(self).prefix_cache matches Some(pc) ==> pc.clock < u64::MAX,
        ensures
            final(self).wf(),
            final(self).positions@ == old(self).positions@.update(
                slab as int,
                Worker::begin_at(start),
            ),
            final(self).rope_lag@ == if start is Reuse {
                old(self).rope_lag@
            } else {
                old(self).rope_lag@.update(slab as int, 0)
            },
            final(self).fed@ == old(self).fed@.update(
                slab as int,
                req.tokens@.take(Worker::begin_at(start) as int),
            ),
            final(self).clock == old(self).clock,
            final(self).scratch_bytes == old(self).scratch_bytes,
            final(self).same_setup(old(self)),
            final(self).slots@ == old(self).slots@.update(
                slab as int,
                (SlotMeta { active: true, ..old(self).slots@[slab as int] }),
            ),
            final(self).active@.len() == old(self).active@.len() + 1,
            final(self).active@ == old(self).active@.push(final(self).active@.last()),
            fresh_seq(
                &final(self).active@.last(),
                &req,
                slab as int,
                Worker::begin_at(start) as int,
            ),
            !final(self).active@.last().started,
            !(start is Seed) ==> final(self).prefix_cache == old(self).prefix_cache,
            start matches UnifiedStart::Seed { pool, .. } ==> {
                let before = old(self).prefix_cache->0;
                let after = final(self).prefix_cache->0;
                &&& final(self).prefix_cache is Some
                &&& after.clock == before.clock + 1
                &&& same_bounds(before, after)
                &&& after.entries@ == before.entries@.update(
                    pool as int,
                    Some(
                        (PrefixEntry {
                            last_used: after.clock,
                            ..before.entries@[pool as int]->0
                        }),
                    ),
                )
            },
    {
        let n: u32 = match &start {
            UnifiedStart::Reuse(n) => *n,
            UnifiedStart::Seed { pool, p } => {
                self.rope_lag[slab] = 0;
                if let Some(mut pc) = self.prefix_cache.take() {
                    pc.touch(*pool);
                    self.prefix_cache = Some(pc);
                }
                *p
            },
            UnifiedStart::Fresh => {
                self.rope_lag[slab] = 0;
                0
            },
        };
        self.positions[slab] = n;
        self.fed = Ghost(self.fed@.update(slab as int, req.tokens@.take(n as int)));
        self.slots[slab].active = true;
        let ghost tokens = req.tokens@;
        let prompt_tokens: u32 = req.tokens.len() as u32;
        let seq = ActiveSeq {
            id: req.id,
            slab: slab as u32,
            prompt: req.tokens,
            generated: Vec::new(),
            prompt_tokens,
            stop: req.stop,
            ignore_eos: req.ignore_eos,
            max_tokens: req.max_tokens,
            stream: DecodeState { ids: Vec::new(), prefix: String::new(), prefix_index: 0 },
            pending: String::new(),
            last_token: 0,
            terminal: None,
            disconnected: false,
            num_computed: n,
            started: false,
        };
        self.active.push(seq);
        proof {
            let k = old(self).active@.len() as int;
            let s = self.active@[k];
            assert(s.logical() =~= tokens);
            assert(self.seq_ok(k));
            self.lemma_sequence_added(old(self), slab as int);
            assert(self.has_work(k));
        }
    }
}

} // verus!
