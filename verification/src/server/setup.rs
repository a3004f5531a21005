//! Bringing the scheduler up: slot count, step budget, prefix cache, and the
//! resets between runs.
use vstd::prelude::*;

use crate::server::prefix_cache::PrefixCache;
use crate::server::worker::{MediaSupport, SlotMeta, Worker};

verus! {

/// The prefix-cache settings as given, each absent where not set.
pub struct PrefixSettings {
    pub enabled: bool,
    pub slots: Option<u32>,
    pub max_len: Option<u32>,
    pub checkpoint: Option<u32>,
    pub p_min: Option<u32>,
}

/// The prefix-cache parameters in force.
#[derive(Clone, Copy, PartialEq, Eq, Structural)]
pub struct PrefixParams {
    pub capacity: u32,
    pub max_cached_len: u32,
    pub ckpt_stride: u32,
    pub p_min: u32,
}

/// The greater of two numbers.
pub open spec fn greater(a: int, b: int) -> int {
    if a >= b {
        a
    } else {
        b
    }
}

/// The greater of two numbers.
pub fn max_u32(a: u32, b: u32) -> (r: u32)
    ensures
        r == greater(a as int, b as int),
{
    if a >= b {
        a
    } else {
        b
    }
}

/// The longest prefix that is cached where none is set: the context, at most
/// 4096 tokens.
pub open spec fn default_cached_len(ctx: u32) -> u32 {
    if ctx < 4096 {
        ctx
    } else {
        4096
    }
}

/// Resolve the prefix-cache parameters for a context of `ctx` tokens: two pool
/// slots, at most 4096 tokens, a snapshot every 512 and none under 64, unless
/// set otherwise; each at least 1, and no length past the context.
pub fn prefix_params(s: &PrefixSettings, ctx: u32) -> (r: Option<PrefixParams>)
    ensures
        r is Some <==> s.enabled,
        r matches Some(p) ==> {
            &&& p.capacity == greater(s.slots.unwrap_or(2) as int, 1)
            &&& ({
                let want = s.max_len.unwrap_or(default_cached_len(ctx)) as int;
                let top = greater(ctx as int, 1);
                p.max_cached_len == if want < 1 {
                    1
                } else if want > top {
                    top
                } else {
                    want
                }
            })
            &&& p.ckpt_stride == greater(s.checkpoint.unwrap_or(512) as int, 1)
            &&& p.p_min == greater(s.p_min.unwrap_or(64) as int, 1)
        },
{
    if !s.enabled {
        return None;
    }
    let capacity: u32 = max_u32(s.slots.unwrap_or(2), 1);
    let fallback: u32 = if ctx < 4096 {
        ctx
    } else {
        4096
    };
    let want: u32 = s.max_len.unwrap_or(fallback);
    let top: u32 = max_u32(ctx, 1);
    let max_cached_len: u32 = if want < 1 {
        1
    } else if want > top {
        top
    } else {
        want
    };
    let ckpt_stride: u32 = max_u32(s.checkpoint.unwrap_or(512), 1);
    let p_min: u32 = max_u32(s.p_min.unwrap_or(64), 1);
    Some(PrefixParams { capacity, max_cached_len, ckpt_stride, p_min })
}

/// Bytes of the device-local heaps together. Each heap is given as whether it
/// is device-local, and its size.
pub open spec fn local_bytes(heaps: Seq<(bool, u64)>) -> int
    decreases heaps.len(),
{
    if heaps.len() == 0 {
        0
    } else {
        local_bytes(heaps.drop_last()) + if heaps.last().0 {
            heaps.last().1 as int
        } else {
            0
        }
    }
}

/// Total bytes across the device-local heaps, saturating.
pub fn device_local_bytes(heaps: &[(bool, u64)]) -> (total: u64)
    ensures
        local_bytes(heaps@) <= u64::MAX ==> total == local_bytes(heaps@),
        local_bytes(heaps@) > u64::MAX ==> total == u64::MAX,
{
    let mut total: u64 = 0;
    let mut i: usize = 0;
    while i < heaps.len()
        invariant
            i <= heaps@.len(),
            0 <= local_bytes(heaps@.take(i as int)),
            local_bytes(heaps@.take(i as int)) <= u64::MAX ==> total == local_bytes(
                heaps@.take(i as int),
            ),
            local_bytes(heaps@.take(i as int)) > u64::MAX ==> total == u64::MAX,
        decreases heaps@.len() - i,
    {
        assert(heaps@.take(i + 1).drop_last() =~= heaps@.take(i as int));
        if heaps[i].0 {
            total = total.saturating_add(heaps[i].1);
        }
        i += 1;
    }
    assert(heaps@.take(i as int) =~= heaps@);
    total
}

/// Bytes left of `budget` for cache slots.
pub open spec fn slot_bytes(budget: u64, weights: u64, scratch: u64, pool: u64) -> int {
    let taken = weights + scratch + pool;
    if budget > taken {
        budget - taken
    } else {
        0
    }
}

/// The number of slots: as asked where at least 1 was, otherwise as many
/// full-context slots of `per_slot` bytes as `budget` leaves after weights,
/// scratch and the prefix pool, within `[1, max(parallel_max, 1)]`. Without a slot size it falls back to 1.
pub fn resolve_n_slots(
    asked: u32,
    parallel_max: u32,
    per_slot: Option<u64>,
    budget: u64,
    weights_bytes: u64,
    scratch_bytes: u64,
    pool_bytes: u64,
) -> (n: u32)
    ensures
        asked >= 1 ==> n == asked,
        asked == 0 && !(per_slot is Some && per_slot->0 > 0) ==> n == 1,
        asked == 0 && per_slot is Some && per_slot->0 > 0 ==> {
            let top = greater(parallel_max as int, 1);
            let fit = slot_bytes(budget, weights_bytes, scratch_bytes, pool_bytes)
                / per_slot->0 as int;
            n == if fit < 1 {
                1
            } else if fit > top {
                top
            } else {
                fit
            }
        },
        n >= 1,
        asked == 0 ==> n <= greater(parallel_max as int, 1),
{
    if asked >= 1 {
        return asked;
    }
    let top: u32 = max_u32(parallel_max, 1);
    let unit: u64 = match per_slot {
        Some(b) => b,
        None => 0,
    };
    if unit == 0 {
        return 1;
    }
    let taken: u64 = weights_bytes.saturating_add(scratch_bytes).saturating_add(pool_bytes);
    let avail: u64 = budget.saturating_sub(taken);
    assert(avail == slot_bytes(budget, weights_bytes, scratch_bytes, pool_bytes));
    let whole: u64 = avail / unit;
    if whole < 1 {
        1
    } else if whole > top as u64 {
        top
    } else {
        whole as u32
    }
}

/// Bytes that the prefix pool takes: `snapshot` bytes for each of its slots.
pub fn pool_bytes(params: &PrefixSettings, snapshot: Option<u64>) -> (r: u64)
    requires
        params.enabled ==> snapshot.unwrap_or(0) * greater(params.slots.unwrap_or(2) as int, 1)
            <= u64::MAX,
    ensures
        r == if params.enabled {
            snapshot.unwrap_or(0) * greater(params.slots.unwrap_or(2) as int, 1)
        } else {
            0
        },
{
    if !params.enabled {
        return 0;
    }
    let slots: u64 = max_u32(params.slots.unwrap_or(2), 1) as u64;
    snapshot.unwrap_or(0) * slots
}

/// How a queued request is admitted.
#[derive(Clone, Copy, PartialEq, Eq, Structural)]
pub enum Route {
    Image,
    Audio,
    Unified,
    Text,
}

/// Media requests prefill in one pass, whatever the step mode; of the rest, the
/// step mode decides.
pub fn route(has_image: bool, has_audio: bool, unified: bool) -> (r: Route)
    ensures
        has_image ==> r == Route::Image,
        !has_image && has_audio ==> r == Route::Audio,
        !has_image && !has_audio && unified ==> r == Route::Unified,
        !has_image && !has_audio && !unified ==> r == Route::Text,
{
    if has_image {
        Route::Image
    } else if has_audio {
        Route::Audio
    } else if unified {
        Route::Unified
    } else {
        Route::Text
    }
}

/// Cold slot metadata for `n` slabs.
fn cold_slots(n: u32) -> (slots: Vec<SlotMeta>)
    ensures
        slots@.len() == n,
        forall|i: int|
            0 <= i < n ==> (#[trigger] slots@[i]).prior_tokens@.len() == 0 && slots@[i].last_used
                == 0 && !slots@[i].active,
{
    let mut slots: Vec<SlotMeta> = Vec::new();
    let mut i: u32 = 0;
    while i < n
        invariant
            i <= n,
            slots@.len() == i,
            forall|k: int|
                0 <= k < i ==> (#[trigger] slots@[k]).prior_tokens@.len() == 0
                    && slots@[k].last_used == 0 && !slots@[k].active,
        decreases n - i,
    {
        slots.push(SlotMeta { prior_tokens: Vec::new(), last_used: 0, active: false });
        i += 1;
    }
    slots
}

impl Worker {
    /// Every slab is cold and idle, and nothing is in flight.
    pub open spec fn cold(&self) -> bool {
        &&& self.active@.len() == 0
        &&& self.clock == 0
        &&& forall|i: int|
            0 <= i < self.slots@.len() ==> {
                let s = #[trigger] self.slots@[i];
                s.prior_tokens@.len() == 0 && s.last_used == 0 && !s.active
            }
        &&& forall|i: int| 0 <= i < self.positions@.len() ==> #[trigger] self.positions@[i] == 0
        &&& forall|i: int| 0 <= i < self.rope_lag@.len() ==> #[trigger] self.rope_lag@[i] == 0
    }

    /// The scheduler over `n_slots` cold slabs of `ctx` tokens. The step budget
    /// is the micro-batch size, at least 1.
    pub fn new(
        n_slots: u32,
        ctx: u32,
        n_ubatch: u32,
        unified: bool,
        eog_ids: Vec<u32>,
        media: Option<MediaSupport>,
        scratch_bytes: u64,
        prefix: Option<PrefixParams>,
    ) -> (w: Worker)
        requires
            prefix matches Some(p) ==> p.ckpt_stride > 0,
        ensures
            w.wf(),
            w.cold(),
            w.slots@.len() == n_slots,
            w.ctx == ctx,
            w.max_batch_tokens == greater(n_ubatch as int, 1),
            w.unified == unified,
            w.eog_ids == eog_ids,
            w.media == media,
            w.scratch_bytes == scratch_bytes,
            w.prefix_cache is Some <==> prefix is Some,
            prefix matches Some(p) ==> {
                let pc = w.prefix_cache->0;
                &&& pc.entries@.len() == p.capacity
                &&& forall|i: int| 0 <= i < p.capacity ==> (#[trigger] pc.entries@[i]) is None
                &&& pc.max_cached_len == p.max_cached_len
                &&& pc.ckpt_stride == p.ckpt_stride
                &&& pc.p_min == p.p_min
                &&& pc.clock == 0
            },
    {
        let slots = cold_slots(n_slots);
        let zero: u32 = 0;
        let positions: Vec<u32> = vec![zero; n_slots as usize];
        let rope_lag: Vec<u32> = vec![zero; n_slots as usize];
        let prefix_cache = match prefix {
            Some(p) => Some(
                PrefixCache::new(p.capacity, p.max_cached_len, p.ckpt_stride, p.p_min),
            ),
            None => None,
        };
        let w = Worker {
            slots,
            positions,
            rope_lag,
            active: Vec::new(),
            eog_ids,
            clock: 0,
            max_batch_tokens: max_u32(n_ubatch, 1),
            unified,
            ctx,
            media,
            scratch_bytes,
            prefix_cache,
            fed: Ghost(Seq::new(n_slots as nat, |i: int| Seq::empty())),
        };
        proof {
            assert forall|i: int|
                #![trigger w.slots@[i]]
                0 <= i < w.slots@.len() implies w.slots@[i].prior_tokens@ == w.fed@[i] by {
                assert(w.slots@[i].prior_tokens@ =~= w.fed@[i]);
            }
        }
        w
    }

    /// Forget every slab and sequence; with `clear_cache` the cached prefixes
    /// too.
    pub fn bench_reset_slots(&mut self, clear_cache: bool)
        requires
            old(self).wf(),
        ensures
            final(self).wf(),
            final(self).cold(),
            final(self).slots@.len() == old(self).slots@.len(),
            final(self).scratch_bytes == old(self).scratch_bytes,
            final(self).same_setup(old(self)),
            !clear_cache ==> final(self).prefix_cache == old(self).prefix_cache,
            clear_cache ==> {
                &&& final(self).prefix_cache is Some <==> old(self).prefix_cache is Some
                &&& final(self).prefix_cache matches Some(pc) ==> {
                    &&& pc.entries@.len() == old(self).prefix_cache->0.entries@.len()
                    &&& pc.clock == 0
                    &&& forall|i: int|
                        0 <= i < pc.entries@.len() ==> (#[trigger] pc.entries@[i]) is None
                }
            },
    {
        let n: usize = self.slots.len();
        self.active = Vec::new();
        self.clock = 0;
        self.slots = cold_slots(n as u32);
        let zero: u32 = 0;
        self.positions = vec![zero; n];
        self.rope_lag = vec![zero; n];
        self.fed = Ghost(Seq::new(n as nat, |i: int| Seq::empty()));
        if clear_cache {
            if let Some(mut pc) = self.prefix_cache.take() {
                pc.clear();
                self.prefix_cache = Some(pc);
            }
        }
        proof {
            assert forall|i: int|
                #![trigger self.slots@[i]]
                0 <= i < self.slots@.len() implies self.slots@[i].prior_tokens@ == self.fed@[i] by {
                assert(self.slots@[i].prior_tokens@ =~= self.fed@[i]);
            }
        }
    }

    /// Whether the cache takes a prefix of `n` tokens: there is a cache, and the
    /// length lies within its bounds.
    pub fn takes_prefix(&self, n: usize) -> (r: bool)
        ensures
            r <==> {
                &&& self.prefix_cache matches Some(pc)
                &&& n > 0
                &&& pc.p_min <= n <= pc.max_cached_len
            },
    {
        match &self.prefix_cache {
            None => false,
            Some(pc) => n > 0 && n as u64 >= pc.p_min as u64 && n as u64 <= pc.max_cached_len as u64,
        }
    }
}

/// How often a prefix is stepped before it is given up.
pub const PREFILL_STEPS: usize = 100_000;

/// What to do next with a prefix that is prefilled on its own.
#[derive(Clone, Copy, PartialEq, Eq, Structural, Debug)]
pub enum PrefillNext {
    /// Run one more step.
    Step,
    /// The prefix is in its slab: capture it.
    Capture,
    /// Clear the slabs and report whether a capture happened.
    Done(bool),
}

impl Worker {
    /// What to do next with a prefix that is prefilled on its own: `started` once
    /// its sequence has caught up, `steps` so far, and, after an attempt, whether
    /// it was captured. A sequence that is gone before it started, or that does
    /// not start within the bound, is given up.
    pub fn prefill_outcome(&self, started: bool, steps: usize, captured: Option<bool>) -> (r:
        PrefillNext)
        ensures
            r == match captured {
                Some(c) => PrefillNext::Done(c),
                None => if started && self.active@.len() > 0 {
                    PrefillNext::Capture
                } else if started || self.active@.len() == 0 || steps > PREFILL_STEPS {
                    PrefillNext::Done(false)
                } else {
                    PrefillNext::Step
                },
            },
            r == PrefillNext::Done(true) <==> captured == Some(true),
    {
        match captured {
            Some(c) => PrefillNext::Done(c),
            None => if started && self.active.len() > 0 {
                PrefillNext::Capture
            } else if started || self.active.len() == 0 || steps > PREFILL_STEPS {
                PrefillNext::Done(false)
            } else {
                PrefillNext::Step
            },
        }
    }
}

/// Tokens that a snapshot is sized for where the slots share the device's memory
/// with the prefix pool.
pub fn snapshot_len(s: &PrefixSettings, ctx: u32) -> (r: u32)
    ensures
        r == match s.max_len {
            Some(n) => n,
            None => if ctx <= 4096 {
                ctx
            } else {
                4096
            },
        },
{
    match s.max_len {
        Some(n) => n,
        None => if ctx <= 4096 {
            ctx
        } else {
            4096
        },
    }
}

} // verus!
