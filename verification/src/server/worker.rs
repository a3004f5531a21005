//! Scheduler state: the cache slabs, the sequences in flight and the prefix
//! cache, with the invariant that every step keeps.
use vstd::prelude::*;
use vstd::string::*;

use crate::server::prefix_cache::PrefixCache;
use crate::server::sequence::ActiveSeq;
use crate::server::slots::{choose_slot, selected, warm};
use crate::text::{decimal, decimal_string};

verus! {

/// Per-slab metadata for prefix reuse across requests.
pub struct SlotMeta {
    /// The tokens that an idle slab's cache is taken to hold.
    pub prior_tokens: Vec<u32>,
    /// Stamp of the last request that used this slab; `0` is cold.
    pub last_used: u64,
    /// Owned by an in-flight sequence.
    pub active: bool,
}

/// What the loaded multimodal projector can encode.
pub struct MediaSupport {
    /// Images go through a transformer tower.
    pub tower: bool,
    /// Audio clips can be encoded.
    pub audio: bool,
}

/// The scheduler's state. The device holds the caches themselves; `positions`
/// and `rope_lag` mirror each slab's cursor and rope lag.
pub struct Worker {
    pub slots: Vec<SlotMeta>,
    pub positions: Vec<u32>,
    pub rope_lag: Vec<u32>,
    pub active: Vec<ActiveSeq>,
    pub eog_ids: Vec<u32>,
    /// Monotonic clock of the slots' least-recently-used order.
    pub clock: u64,
    /// Token budget of one unified step.
    pub max_batch_tokens: u32,
    /// Whether steps mix prefill chunks and decodes.
    pub unified: bool,
    /// Cache length of every slab.
    pub ctx: u32,
    pub media: Option<MediaSupport>,
    /// Bytes that the device scratch region is sized for.
    pub scratch_bytes: u64,
    pub prefix_cache: Option<PrefixCache>,
    /// The tokens whose positions each slab's cache holds.
    pub fed: Ghost<Seq<Seq<u32>>>,
}

/// A text request as the scheduler sees it.
pub struct Request {
    pub id: u64,
    pub tokens: Vec<u32>,
    pub max_tokens: u32,
    pub stop: Vec<String>,
    pub ignore_eos: bool,
    pub id_slot: Option<usize>,
}

/// Why a request was turned away.
pub enum AdmitError {
    EmptyPrompt,
    NoFreeSlot,
    PromptTooLong { tokens: usize, ctx: u32 },
    NoVision,
    NoAudio,
    ImageOverrun,
    AudioOverrun,
}

impl AdmitError {
    /// The text of the failure frame.
    pub open spec fn text(&self) -> Seq<char> {
        match self {
            AdmitError::EmptyPrompt => "empty prompt — nothing to generate"@,
            AdmitError::NoFreeSlot => "no free cache slot available"@,
            AdmitError::PromptTooLong { tokens, ctx } => "prompt is "@ + decimal(*tokens as nat)
                + " tokens but --ctx-size is "@ + decimal(*ctx as nat)
                + " (no room to generate) — raise --ctx-size or shorten the prompt"@,
            AdmitError::NoVision =>
                "this server has no vision model (mmproj); image requests are unsupported"@,
            AdmitError::NoAudio =>
                "this server has no audio model (mmproj audio encoder); audio requests are unsupported"@,
            AdmitError::ImageOverrun => "image span overruns the prompt"@,
            AdmitError::AudioOverrun => "audio span overruns the prompt"@,
        }
    }

    /// The text of the failure frame.
    pub fn message(&self) -> (r: String)
        ensures
            r@ == self.text(),
    {
        match self {
            AdmitError::EmptyPrompt => String::from_str("empty prompt — nothing to generate"),
            AdmitError::NoFreeSlot => String::from_str("no free cache slot available"),
            AdmitError::PromptTooLong { tokens, ctx } => {
                let mut s = String::from_str("prompt is ");
                s.append(decimal_string(*tokens as u64).as_str());
                s.append(" tokens but --ctx-size is ");
                s.append(decimal_string(*ctx as u64).as_str());
                s.append(" (no room to generate) — raise --ctx-size or shorten the prompt");
                s
            },
            AdmitError::NoVision => String::from_str(
                "this server has no vision model (mmproj); image requests are unsupported",
            ),
            AdmitError::NoAudio => String::from_str(
                "this server has no audio model (mmproj audio encoder); audio requests are unsupported",
            ),
            AdmitError::ImageOverrun => String::from_str("image span overruns the prompt"),
            AdmitError::AudioOverrun => String::from_str("audio span overruns the prompt"),
        }
    }
}

/// The prior tokens of each slot.
pub open spec fn priors(slots: Seq<SlotMeta>) -> Seq<Seq<u32>> {
    slots.map_values(|s: SlotMeta| s.prior_tokens@)
}

/// The age stamp of each slot.
pub open spec fn stamps(slots: Seq<SlotMeta>) -> Seq<u64> {
    slots.map_values(|s: SlotMeta| s.last_used)
}

/// Which slots are idle.
pub open spec fn idle(slots: Seq<SlotMeta>) -> Seq<bool> {
    slots.map_values(|s: SlotMeta| !s.active)
}

/// How many of the first `n` slots are idle.
pub open spec fn count_idle(slots: Seq<SlotMeta>, n: nat) -> nat
    decreases n,
{
    if n == 0 {
        0
    } else {
        count_idle(slots, (n - 1) as nat) + if slots[n - 1].active {
            0nat
        } else {
            1nat
        }
    }
}

/// `r` is the slab that a request for `new_tokens` gets: a pinned idle one, or
/// else the auto-selected among the idle ones.
pub open spec fn slab_for(
    slots: Seq<SlotMeta>,
    new_tokens: Seq<u32>,
    id_slot: Option<usize>,
    r: int,
) -> bool {
    if id_slot is Some && id_slot->0 < slots.len() && !slots[id_slot->0 as int].active {
        r == id_slot->0
    } else {
        selected(priors(slots), stamps(slots), idle(slots), new_tokens, r)
    }
}

/// No slab is idle.
pub open spec fn all_busy(slots: Seq<SlotMeta>) -> bool {
    forall|i: int| 0 <= i < slots.len() ==> (#[trigger] slots[i]).active
}

impl Worker {
    /// What the invariant says of sequence `a`, but for its having work left.
    pub open spec fn seq_ok(&self, a: int) -> bool {
        let s = self.active@[a];
        let slab = s.slab as int;
        &&& slab < self.slots@.len()
        &&& self.slots@[slab].active
        &&& 0 < s.prompt@.len() < self.ctx
        &&& s.prompt_tokens == s.prompt@.len()
        &&& s.logical().len() <= self.ctx
        &&& self.positions@[slab] <= s.logical().len()
        &&& self.fed@[slab] == s.logical().take(self.positions@[slab] as int)
        &&& self.unified ==> s.num_computed == self.positions@[slab]
    }

    /// A live sequence has something left to feed; once it generates, exactly
    /// its newest token.
    pub open spec fn has_work(&self, a: int) -> bool {
        let s = self.active@[a];
        s.live() ==> {
            &&& self.positions@[s.slab as int] < s.logical().len()
            &&& s.generated@.len() > 0 ==> self.positions@[s.slab as int] + 1 == s.logical().len()
            &&& !self.unified ==> s.generated@.len() > 0 && s.last_token == s.generated@.last()
        }
    }

    /// The slabs agree in number, and the cursor of each counts what it was fed.
    pub open spec fn slabs_ok(&self) -> bool {
        &&& self.positions@.len() == self.slots@.len()
        &&& self.rope_lag@.len() == self.slots@.len()
        &&& self.fed@.len() == self.slots@.len()
        &&& self.slots@.len() <= u32::MAX
        &&& forall|i: int|
            0 <= i < self.slots@.len() ==> (#[trigger] self.fed@[i]).len() == self.positions@[i]
    }

    /// An idle slab whose recorded prior has the length of its cache holds
    /// exactly that prior.
    pub open spec fn priors_ok(&self) -> bool {
        forall|i: int|
            #![trigger self.slots@[i]]
            0 <= i < self.slots@.len() && !self.slots@[i].active
                && self.slots@[i].prior_tokens@.len() == self.positions@[i]
                ==> self.slots@[i].prior_tokens@ == self.fed@[i]
    }

    /// Sequences sit on different slabs, and every busy slab has one.
    pub open spec fn owners_ok(&self) -> bool {
        &&& forall|a: int, b: int|
            #![trigger self.active@[a], self.active@[b]]
            0 <= a < b < self.active@.len() ==> self.active@[a].slab != self.active@[b].slab
        &&& forall|i: int|
            0 <= i < self.slots@.len() && (#[trigger] self.slots@[i]).active ==> self.owned(i)
    }

    /// Some sequence in flight sits on slab `i`.
    pub open spec fn owned(&self, i: int) -> bool {
        exists|a: int| 0 <= a < self.active@.len() && (#[trigger] self.active@[a]).slab == i
    }

    /// The invariant, but for sequence `skip` having work left.
    pub open spec fn wf_but(&self, skip: int) -> bool {
        &&& self.slabs_ok()
        &&& self.priors_ok()
        &&& self.owners_ok()
        &&& forall|a: int| 0 <= a < self.active@.len() ==> #[trigger] self.seq_ok(a)
        &&& forall|a: int| 0 <= a < self.active@.len() && a != skip ==> #[trigger] self.has_work(a)
        &&& self.prefix_cache matches Some(pc) ==> pc.wf()
    }

    /// The invariant of the scheduler.
    pub open spec fn wf(&self) -> bool {
        self.wf_but(-1)
    }

    /// The settings that no step changes.
    pub open spec fn same_setup(&self, other: &Worker) -> bool {
        &&& self.eog_ids == other.eog_ids
        &&& self.max_batch_tokens == other.max_batch_tokens
        &&& self.unified == other.unified
        &&& self.ctx == other.ctx
        &&& self.media == other.media
    }

    /// Number of slabs that no sequence owns.
    pub fn free_slabs(&self) -> (n: usize)
        ensures
            n == count_idle(self.slots@, self.slots@.len()),
            n == 0 <==> all_busy(self.slots@),
    {
        let mut n: usize = 0;
        let mut i: usize = 0;
        while i < self.slots.len()
            invariant
                i <= self.slots@.len(),
                n <= i,
                n == count_idle(self.slots@, i as nat),
                n == 0 <==> forall|j: int| 0 <= j < i ==> (#[trigger] self.slots@[j]).active,
            decreases self.slots@.len() - i,
        {
            if !self.slots[i].active {
                n += 1;
            }
            i += 1;
        }
        n
    }

    /// Pick an idle slab to serve `new_tokens`: by prefix reuse, else the least
    /// recently used; `None` if every slab is busy. An in-range, idle `id_slot`
    /// pins directly.
    pub fn select_free_slab(&self, new_tokens: &[u32], id_slot: Option<usize>) -> (r: Option<usize>)
        ensures
            r is None <==> all_busy(self.slots@),
            r matches Some(i) ==> i < self.slots@.len() && !self.slots@[i as int].active
                && slab_for(self.slots@, new_tokens@, id_slot, i as int),
    {
        if let Some(i) = id_slot {
            if i < self.slots.len() && !self.slots[i].active {
                return Some(i);
            }
        }
        let mut index: Vec<usize> = Vec::new();
        let mut view: Vec<(&[u32], u64)> = Vec::new();
        let mut i: usize = 0;
        while i < self.slots.len()
            invariant
                i <= self.slots@.len(),
                index@.len() == view@.len(),
                forall|k: int|
                    #![trigger index@[k]]
                    #![trigger view@[k]]
                    0 <= k < index@.len() ==> index@[k] < i && !self.slots@[index@[k] as int].active
                        && view@[k].0@ == self.slots@[index@[k] as int].prior_tokens@ && view@[k].1
                        == self.slots@[index@[k] as int].last_used,
                forall|k: int, l: int|
                    #![trigger index@[k], index@[l]]
                    0 <= k < l < index@.len() ==> index@[k] < index@[l],
                forall|j: int|
                    0 <= j < i && !(#[trigger] self.slots@[j]).active ==> index@.contains(j as usize),
            decreases self.slots@.len() - i,
        {
            if !self.slots[i].active {
                let ghost before = index@;
                index.push(i);
                view.push((self.slots[i].prior_tokens.as_slice(), self.slots[i].last_used));
                proof {
                    assert forall|j: int| 0 <= j < i + 1 && !(#[trigger] self.slots@[j]).active implies
                        index@.contains(j as usize) by {
                        if j < i {
                            let k = choose|k: int| 0 <= k < before.len() && before[k] == j as usize;
                            assert(index@[k] == j as usize);
                        } else {
                            assert(index@[index@.len() - 1] == j as usize);
                        }
                    }
                }
            }
            i += 1;
        }
        if index.len() == 0 {
            assert forall|j: int| 0 <= j < self.slots@.len() implies (
            #[trigger] self.slots@[j]).active by {
                if !self.slots@[j].active {
                    assert(index@.contains(j as usize));
                }
            }
            return None;
        }
        let pick: usize = choose_slot(view.as_slice(), new_tokens, None);
        proof {
            let vp = view@.map_values(|s: (&[u32], u64)| s.0@);
            let vu = view@.map_values(|s: (&[u32], u64)| s.1);
            let vf = Seq::new(view@.len(), |i: int| true);
            let sp = priors(self.slots@);
            let su = stamps(self.slots@);
            let sf = idle(self.slots@);
            let r = index@[pick as int] as int;
            assert(selected(vp, vu, vf, new_tokens@, pick as int));
            assert forall|k: int| 0 <= k < index@.len() implies #[trigger] warm(
                vp,
                vf,
                new_tokens@,
                k,
            ) == warm(sp, sf, new_tokens@, index@[k] as int) by {}
            assert forall|j: int| #[trigger] warm(sp, sf, new_tokens@, j) implies exists|k: int|
                0 <= k < index@.len() && index@[k] as int == j && #[trigger] warm(
                    vp,
                    vf,
                    new_tokens@,
                    k,
                ) by {
                assert(!self.slots@[j].active);
                assert(index@.contains(j as usize));
                let k = choose|k: int| 0 <= k < index@.len() && index@[k] == j as usize;
                assert(warm(vp, vf, new_tokens@, k));
            }
            if exists|k: int| warm(vp, vf, new_tokens@, k) {
                assert(warm(vp, vf, new_tokens@, pick as int));
                assert(warm(sp, sf, new_tokens@, r));
                assert forall|j: int| #[trigger] warm(sp, sf, new_tokens@, j) implies sp[j].len()
                    <= sp[r].len() && (j < r ==> sp[j].len() < sp[r].len()) by {
                    let k = choose|k: int|
                        0 <= k < index@.len() && index@[k] as int == j && #[trigger] warm(
                            vp,
                            vf,
                            new_tokens@,
                            k,
                        );
                    assert(vp[k].len() <= vp[pick as int].len());
                }
            } else {
                assert(!exists|j: int| warm(sp, sf, new_tokens@, j));
                assert forall|j: int| 0 <= j < sp.len() && #[trigger] sf[j] implies su[r] <= su[j]
                    && (j < r ==> su[r] < su[j]) by {
                    assert(!self.slots@[j].active);
                    assert(index@.contains(j as usize));
                    let k = choose|k: int| 0 <= k < index@.len() && index@[k] == j as usize;
                    assert(vf[k]);
                    assert(vu[pick as int] <= vu[k]);
                }
            }
        }
        Some(index[pick])
    }
}

} // verus!
