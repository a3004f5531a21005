//! Leading-prefix snapshots: which cached prefix serves a prompt, which pool
//! slot a new snapshot may take, and how the least-recently-used order moves.
//!
//! The snapshot bytes live with the device; entry `i` here names pool slot `i`.
use vstd::prelude::*;

use crate::server::slots::lcp;

verus! {

/// One cached leading prefix: its exact tokens (`p` of them), a
/// least-recently-used stamp and a pin flag.
pub struct PrefixEntry {
    pub tokens: Vec<u32>,
    pub p: u32,
    pub last_used: u64,
    pub pinned: bool,
}

/// The entries of the leading-prefix snapshot pool; `None` is a free pool slot.
pub struct PrefixCache {
    pub entries: Vec<Option<PrefixEntry>>,
    /// Longest prefix (in tokens) that a pool slot can hold.
    pub max_cached_len: u32,
    /// Snapshot at most once per this many prefill tokens.
    pub ckpt_stride: u32,
    /// Shortest prefix worth seeding or snapshotting.
    pub p_min: u32,
    /// Monotonic clock of the least-recently-used order.
    pub clock: u64,
}

/// Entry `i` is occupied and `new_tokens` starts with its tokens.
pub open spec fn leads(
    entries: Seq<Option<PrefixEntry>>,
    new_tokens: Seq<u32>,
    i: int,
) -> bool {
    &&& 0 <= i < entries.len()
    &&& entries[i] is Some
    &&& entries[i]->0.tokens@.is_prefix_of(new_tokens)
}

/// `i` is the first of the longest entries that lead `new_tokens`.
pub open spec fn longest_leading(
    entries: Seq<Option<PrefixEntry>>,
    new_tokens: Seq<u32>,
    i: int,
) -> bool {
    &&& leads(entries, new_tokens, i)
    &&& forall|j: int| #[trigger]
        leads(entries, new_tokens, j) ==> entries[j]->0.tokens@.len()
            <= entries[i]->0.tokens@.len() && (j < i ==> entries[j]->0.tokens@.len()
            < entries[i]->0.tokens@.len())
}

/// Entry `i` is occupied and may be evicted.
pub open spec fn evictable(entries: Seq<Option<PrefixEntry>>, i: int) -> bool {
    0 <= i < entries.len() && entries[i] is Some && !entries[i]->0.pinned
}

/// `i` is the pool slot to capture into: the first free one, otherwise the
/// first of the least recently used unpinned ones.
pub open spec fn is_victim(entries: Seq<Option<PrefixEntry>>, i: int) -> bool {
    &&& 0 <= i < entries.len()
    &&& if exists|j: int| 0 <= j < entries.len() && #[trigger] entries[j] is None {
        entries[i] is None && forall|j: int| 0 <= j < i ==> #[trigger] entries[j] is Some
    } else {
        &&& evictable(entries, i)
        &&& forall|j: int| #[trigger]
            evictable(entries, j) ==> entries[i]->0.last_used <= entries[j]->0.last_used && (j < i
                ==> entries[i]->0.last_used < entries[j]->0.last_used)
    }
}

/// Entry `i` already covers the first `p` of `tokens`.
pub open spec fn covers(
    entries: Seq<Option<PrefixEntry>>,
    tokens: Seq<u32>,
    p: u32,
    i: int,
) -> bool {
    &&& 0 <= i < entries.len()
    &&& entries[i] is Some
    &&& entries[i]->0.p >= p
    &&& entries[i]->0.tokens@.len() >= p
    &&& tokens.len() >= p
    &&& entries[i]->0.tokens@.take(p as int) == tokens.take(p as int)
}

/// Where a prompt is seeded from: the pool slot and the number of tokens.
pub open spec fn seed_of(pc: &PrefixCache, new_tokens: Seq<u32>, prompt_tokens: u32, i: int) -> u32 {
    let p = pc.entries@[i]->0.p;
    let room = if prompt_tokens == 0 {
        0u32
    } else {
        (prompt_tokens - 1) as u32
    };
    if p <= room {
        p
    } else {
        room
    }
}

/// The bounds that a cache was made with are kept.
pub open spec fn same_bounds(a: PrefixCache, b: PrefixCache) -> bool {
    &&& b.max_cached_len == a.max_cached_len
    &&& b.ckpt_stride == a.ckpt_stride
    &&& b.p_min == a.p_min
}

impl PrefixCache {
    /// Every stored length matches the stored tokens, and the stride is not 0.
    pub open spec fn wf(&self) -> bool {
        &&& self.ckpt_stride > 0
        &&& forall|i: int|
            0 <= i < self.entries@.len() && (#[trigger] self.entries@[i]) is Some
                ==> self.entries@[i]->0.p == self.entries@[i]->0.tokens@.len()
    }

    /// An empty cache over a pool of `capacity` snapshots.
    pub fn new(capacity: u32, max_cached_len: u32, ckpt_stride: u32, p_min: u32) -> (pc: Self)
        ensures
            pc.entries@.len() == capacity,
            forall|i: int| 0 <= i < capacity ==> (#[trigger] pc.entries@[i]) is None,
            pc.max_cached_len == max_cached_len,
            pc.ckpt_stride == ckpt_stride,
            pc.p_min == p_min,
            pc.clock == 0,
            ckpt_stride > 0 ==> pc.wf(),
    {
        let mut entries: Vec<Option<PrefixEntry>> = Vec::new();
        let mut i: u32 = 0;
        while i < capacity
            invariant
                i <= capacity,
                entries@.len() == i,
                forall|j: int| 0 <= j < i ==> (#[trigger] entries@[j]) is None,
            decreases capacity - i,
        {
            entries.push(None);
            i += 1;
        }
        PrefixCache { entries, max_cached_len, ckpt_stride, p_min, clock: 0 }
    }

    /// Index of the longest cached entry whose tokens are a full leading prefix
    /// of `new_tokens` (the most reuse, least re-prefill).
    pub fn lookup(&self, new_tokens: &[u32]) -> (r: Option<usize>)
        ensures
            r matches Some(i) ==> longest_leading(self.entries@, new_tokens@, i as int),
            r is None ==> forall|i: int| !leads(self.entries@, new_tokens@, i),
    {
        let mut best: Option<(usize, usize)> = None;
        let mut i: usize = 0;
        while i < self.entries.len()
            invariant
                i <= self.entries@.len(),
                best is None ==> forall|j: int|
                    0 <= j < i ==> !leads(self.entries@, new_tokens@, j),
                best matches Some((b, blen)) ==> {
                    &&& b < i
                    &&& leads(self.entries@, new_tokens@, b as int)
                    &&& blen == self.entries@[b as int]->0.tokens@.len()
                    &&& forall|j: int|
                        0 <= j < i && #[trigger] leads(self.entries@, new_tokens@, j)
                            ==> self.entries@[j]->0.tokens@.len() <= blen && (j < b
                            ==> self.entries@[j]->0.tokens@.len() < blen)
                },
            decreases self.entries@.len() - i,
        {
            match &self.entries[i] {
                Some(e) => {
                    let common: usize = lcp(e.tokens.as_slice(), new_tokens);
                    if common == e.tokens.len() {
                        assert(leads(self.entries@, new_tokens@, i as int));
                        let better = match best {
                            Some((_, blen)) => e.tokens.len() > blen,
                            None => true,
                        };
                        if better {
                            best = Some((i, e.tokens.len()));
                        }
                    } else {
                        assert(!leads(self.entries@, new_tokens@, i as int));
                    }
                },
                None => {},
            }
            i += 1;
        }
        match best {
            Some((b, _)) => Some(b),
            None => None,
        }
    }

    /// A pool index to capture into: a free slot, else the least recently used
    /// unpinned entry. `None` only when every slot is held by a pinned entry.
    pub fn reserve_victim(&self) -> (r: Option<usize>)
        ensures
            r matches Some(i) ==> is_victim(self.entries@, i as int),
            r is None <==> forall|i: int|
                0 <= i < self.entries@.len() ==> (#[trigger] self.entries@[i]) is Some
                    && self.entries@[i]->0.pinned,
    {
        let mut i: usize = 0;
        while i < self.entries.len()
            invariant
                i <= self.entries@.len(),
                forall|j: int| 0 <= j < i ==> (#[trigger] self.entries@[j]) is Some,
            decreases self.entries@.len() - i,
        {
            if self.entries[i].is_none() {
                assert(self.entries@[i as int] is None);
                return Some(i);
            }
            i += 1;
        }
        let mut best: Option<(usize, u64)> = None;
        let mut k: usize = 0;
        while k < self.entries.len()
            invariant
                k <= self.entries@.len(),
                forall|j: int| 0 <= j < self.entries@.len() ==> (#[trigger] self.entries@[j]) is Some,
                best is None ==> forall|j: int| 0 <= j < k ==> !evictable(self.entries@, j),
                best matches Some((b, lu)) ==> {
                    &&& b < k
                    &&& evictable(self.entries@, b as int)
                    &&& lu == self.entries@[b as int]->0.last_used
                    &&& forall|j: int|
                        0 <= j < k && #[trigger] evictable(self.entries@, j) ==> lu
                            <= self.entries@[j]->0.last_used && (j < b ==> lu
                            < self.entries@[j]->0.last_used)
                },
            decreases self.entries@.len() - k,
        {
            match &self.entries[k] {
                Some(e) => {
                    if !e.pinned {
                        assert(evictable(self.entries@, k as int));
                        let older = match best {
                            Some((_, lu)) => e.last_used < lu,
                            None => true,
                        };
                        if older {
                            best = Some((k, e.last_used));
                        }
                    } else {
                        assert(!evictable(self.entries@, k as int));
                    }
                },
                None => {},
            }
            k += 1;
        }
        match best {
            Some((b, _)) => {
                assert(!self.entries@[b as int]->0.pinned);
                Some(b)
            },
            None => {
                assert forall|i: int| 0 <= i < self.entries@.len() implies (
                #[trigger] self.entries@[i]) is Some && self.entries@[i]->0.pinned by {
                    assert(!evictable(self.entries@, i));
                }
                None
            },
        }
    }

    /// Whether a leading prefix of `tokens` of length at least `p` is cached
    /// already (so a redundant snapshot can be skipped).
    pub fn has_at_least(&self, tokens: &[u32], p: u32) -> (r: bool)
        ensures
            r <==> exists|i: int| covers(self.entries@, tokens@, p, i),
    {
        let mut i: usize = 0;
        while i < self.entries.len()
            invariant
                i <= self.entries@.len(),
                forall|j: int| 0 <= j < i ==> !covers(self.entries@, tokens@, p, j),
            decreases self.entries@.len() - i,
        {
            if let Some(e) = &self.entries[i] {
                let common: usize = lcp(e.tokens.as_slice(), tokens);
                if e.p >= p && common >= p as usize {
                    proof {
                        assert(e.tokens@.take(p as int) =~= e.tokens@.take(common as int).take(
                            p as int,
                        ));
                        assert(tokens@.take(p as int) =~= tokens@.take(common as int).take(p as int));
                        assert(covers(self.entries@, tokens@, p, i as int));
                    }
                    return true;
                }
                proof {
                    if covers(self.entries@, tokens@, p, i as int) {
                        assert(e.tokens@.take(p as int)[common as int] == tokens@.take(p as int)[common as int]);
                    }
                }
            }
            i += 1;
        }
        false
    }

    /// Drop every entry; the pool itself stays allocated.
    pub fn clear(&mut self)
        ensures
            final(self).entries@.len() == old(self).entries@.len(),
            forall|i: int|
                0 <= i < old(self).entries@.len() ==> (#[trigger] final(self).entries@[i]) is None,
            final(self).clock == 0,
            final(self).max_cached_len == old(self).max_cached_len,
            final(self).ckpt_stride == old(self).ckpt_stride,
            final(self).p_min == old(self).p_min,
            old(self).ckpt_stride > 0 ==> final(self).wf(),
    {
        let n: usize = self.entries.len();
        let mut entries: Vec<Option<PrefixEntry>> = Vec::new();
        let mut i: usize = 0;
        while i < n
            invariant
                i <= n,
                entries@.len() == i,
                forall|j: int| 0 <= j < i ==> (#[trigger] entries@[j]) is None,
            decreases n - i,
        {
            entries.push(None);
            i += 1;
        }
        self.entries = entries;
        self.clock = 0;
    }

    /// Where to seed a prompt of `prompt_tokens` tokens from: the pool slot of
    /// the longest leading entry and the number of tokens taken over, at least
    /// one token short of the prompt so that the first sampled logit comes from
    /// a real forward. `None` on a miss or where that falls below `p_min`.
    pub fn seed_plan(&self, new_tokens: &[u32], prompt_tokens: u32) -> (r: Option<(usize, u32)>)
        ensures
            r matches Some((i, p)) ==> {
                &&& longest_leading(self.entries@, new_tokens@, i as int)
                &&& p == seed_of(self, new_tokens@, prompt_tokens, i as int)
                &&& p >= self.p_min
            },
            r is None ==> {
                ||| forall|i: int| !leads(self.entries@, new_tokens@, i)
                ||| exists|i: int|
                    longest_leading(self.entries@, new_tokens@, i) && seed_of(
                        self,
                        new_tokens@,
                        prompt_tokens,
                        i,
                    ) < self.p_min
            },
    {
        match self.lookup(new_tokens) {
            None => None,
            Some(i) => {
                assert(leads(self.entries@, new_tokens@, i as int));
                let p: u32 = match &self.entries[i] {
                    Some(e) => e.p,
                    None => 0,
                };
                let room: u32 = if prompt_tokens == 0 {
                    0
                } else {
                    prompt_tokens - 1
                };
                let p_seed: u32 = if p <= room {
                    p
                } else {
                    room
                };
                assert(p_seed == seed_of(self, new_tokens@, prompt_tokens, i as int));
                if p_seed < self.p_min {
                    None
                } else {
                    Some((i, p_seed))
                }
            },
        }
    }

    /// Record that pool slot `i` was just used to seed a slab.
    pub fn touch(&mut self, i: usize)
        requires
            i < old(self).entries@.len(),
            old(self).clock < u64::MAX,
        ensures
            final(self).clock == old(self).clock + 1,
            final(self).entries@ == old(self).entries@.update(
                i as int,
                match old(self).entries@[i as int] {
                    Some(e) => Some((PrefixEntry { last_used: final(self).clock, ..e })),
                    None => None,
                },
            ),
            final(self).max_cached_len == old(self).max_cached_len,
            final(self).ckpt_stride == old(self).ckpt_stride,
            final(self).p_min == old(self).p_min,
            old(self).wf() ==> final(self).wf(),
    {
        self.clock = self.clock + 1;
        let ghost before = self.entries@;
        let taken = self.entries[i].take();
        match taken {
            Some(e) => {
                self.entries[i] = Some(
                    PrefixEntry {
                        tokens: e.tokens,
                        p: e.p,
                        last_used: self.clock,
                        pinned: e.pinned,
                    },
                );
            },
            None => {},
        }
    }

    /// Where a snapshot of the first `p` tokens of `prompt` goes, if anywhere:
    /// its length lies in `[p_min, max_cached_len]` and within the prompt, it is
    /// not covered yet, and an unpinned pool slot can be had.
    pub fn capture_plan(&self, prompt: &[u32], p: u32) -> (r: Option<usize>)
        ensures
            r matches Some(i) ==> is_victim(self.entries@, i as int),
            r is Some <==> {
                &&& self.p_min <= p <= self.max_cached_len
                &&& p <= prompt@.len()
                &&& !exists|i: int| covers(self.entries@, prompt@.take(p as int), p, i)
                &&& !forall|i: int|
                    0 <= i < self.entries@.len() ==> (#[trigger] self.entries@[i]) is Some
                        && self.entries@[i]->0.pinned
            },
    {
        if p < self.p_min || p > self.max_cached_len {
            return None;
        }
        if p as usize > prompt.len() {
            return None;
        }
        let head = vstd::slice::slice_subrange(prompt, 0, p as usize);
        assert(head@ == prompt@.take(p as int));
        if self.has_at_least(head, p) {
            return None;
        }
        self.reserve_victim()
    }

    /// Record the snapshot of `prompt[..p]` that pool slot `i` now holds.
    pub fn captured(&mut self, i: usize, prompt: &[u32], p: u32, pinned: bool)
        requires
            i < old(self).entries@.len(),
            p <= prompt@.len(),
            old(self).clock < u64::MAX,
        ensures
            final(self).clock == old(self).clock + 1,
            final(self).entries@.len() == old(self).entries@.len(),
            forall|j: int|
                0 <= j < old(self).entries@.len() && j != i ==> final(self).entries@[j] == old(
                    self,
                ).entries@[j],
            final(self).entries@[i as int] matches Some(e) && e.tokens@ == prompt@.take(p as int)
                && e.p == p && e.last_used == final(self).clock && e.pinned == pinned,
            final(self).max_cached_len == old(self).max_cached_len,
            final(self).ckpt_stride == old(self).ckpt_stride,
            final(self).p_min == old(self).p_min,
            old(self).wf() ==> final(self).wf(),
    {
        let head = vstd::slice::slice_subrange(prompt, 0, p as usize);
        let tokens = vstd::slice::slice_to_vec(head);
        assert(tokens@ =~= prompt@.take(p as int));
        self.clock = self.clock + 1;
        self.entries[i] = Some(PrefixEntry { tokens, p, last_used: self.clock, pinned });
    }
}

/// A pinned entry is never the one that a capture replaces.
pub proof fn law_pinned_is_never_a_victim(entries: Seq<Option<PrefixEntry>>, i: int)
    requires
        is_victim(entries, i),
    ensures
        entries[i] is None || !entries[i]->0.pinned,
{
}

/// After the first `p` tokens of a prompt are captured, every request that
/// starts with those tokens finds a leading entry at least that long.
pub proof fn law_captured_prefix_is_found(
    before: Seq<Option<PrefixEntry>>,
    i: int,
    e: PrefixEntry,
    request: Seq<u32>,
    found: int,
)
    requires
        0 <= i < before.len(),
        e.tokens@.is_prefix_of(request),
        longest_leading(before.update(i, Some(e)), request, found),
    ensures
        before.update(i, Some(e))[found]->0.tokens@.len() >= e.tokens@.len(),
        leads(before.update(i, Some(e)), request, i),
{
    assert(leads(before.update(i, Some(e)), request, i));
}

} // verus!
