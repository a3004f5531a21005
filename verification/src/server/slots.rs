//! Cache slots and the choice of a slot for a prompt.
use vstd::prelude::*;

verus! {

/// `prior` can be kept in place for `new_tokens`: it is non-empty and
/// `new_tokens` starts with it.
pub open spec fn reusable(prior: Seq<u32>, new_tokens: Seq<u32>) -> bool {
    prior.len() > 0 && prior.is_prefix_of(new_tokens)
}

/// Slot `i` may be taken and holds a prior that `new_tokens` extends.
pub open spec fn warm(
    priors: Seq<Seq<u32>>,
    free: Seq<bool>,
    new_tokens: Seq<u32>,
    i: int,
) -> bool {
    0 <= i < priors.len() && free[i] && reusable(priors[i], new_tokens)
}

/// `r` is the slot that auto-selection takes among the free ones: the first of
/// the longest reusable priors where there is one, otherwise the first of the
/// least recently used.
pub open spec fn selected(
    priors: Seq<Seq<u32>>,
    used: Seq<u64>,
    free: Seq<bool>,
    new_tokens: Seq<u32>,
    r: int,
) -> bool {
    &&& 0 <= r < priors.len()
    &&& free[r]
    &&& if exists|i: int| warm(priors, free, new_tokens, i) {
        &&& warm(priors, free, new_tokens, r)
        &&& forall|j: int| #[trigger]
            warm(priors, free, new_tokens, j) ==> priors[j].len() <= priors[r].len() && (j < r
                ==> priors[j].len() < priors[r].len())
    } else {
        forall|j: int|
            0 <= j < priors.len() && #[trigger] free[j] ==> used[r] <= used[j] && (j < r ==> used[r]
                < used[j])
    }
}

/// Length of the longest common prefix of two token sequences.
pub fn lcp(a: &[u32], b: &[u32]) -> (n: usize)
    ensures
        n <= a@.len(),
        n <= b@.len(),
        a@.take(n as int) == b@.take(n as int),
        n < a@.len() && n < b@.len() ==> a@[n as int] != b@[n as int],
        (n == a@.len()) == a@.is_prefix_of(b@),
{
    let mut n: usize = 0;
    while n < a.len() && n < b.len() && a[n] == b[n]
        invariant
            n <= a@.len(),
            n <= b@.len(),
            forall|i: int| 0 <= i < n ==> a@[i] == b@[i],
        decreases a@.len() - n,
    {
        n += 1;
    }
    assert(a@.take(n as int) =~= b@.take(n as int));
    assert((n == a@.len()) == a@.is_prefix_of(b@)) by {
        if n == a@.len() {
            assert(a@ =~= b@.take(n as int));
        } else if a@.is_prefix_of(b@) {
            assert(a@[n as int] == b@.subrange(0, a@.len() as int)[n as int]);
        }
    }
    n
}

/// Pure slot selection. `slots` is `(prior_tokens, last_used)` per slot. An
/// in-range `id_slot` pins directly. Otherwise the slot with the longest
/// non-empty prior that `new_tokens` extends is taken; failing that, the least
/// recently used one (cold slots have `last_used == 0`, so they go first).
pub fn choose_slot(slots: &[(&[u32], u64)], new_tokens: &[u32], id_slot: Option<usize>) -> (r:
    usize)
    requires
        slots@.len() > 0,
    ensures
        id_slot is Some && id_slot->0 < slots@.len() ==> r == id_slot->0,
        !(id_slot is Some && id_slot->0 < slots@.len()) ==> selected(
            slots@.map_values(|s: (&[u32], u64)| s.0@),
            slots@.map_values(|s: (&[u32], u64)| s.1),
            Seq::new(slots@.len(), |i: int| true),
            new_tokens@,
            r as int,
        ),
{
    if let Some(i) = id_slot {
        if i < slots.len() {
            return i;
        }
    }
    let ghost priors = slots@.map_values(|s: (&[u32], u64)| s.0@);
    let ghost used = slots@.map_values(|s: (&[u32], u64)| s.1);
    let ghost free = Seq::new(slots@.len(), |i: int| true);
    let mut best: Option<(usize, usize)> = None;
    let mut i: usize = 0;
    while i < slots.len()
        invariant
            i <= slots@.len(),
            priors == slots@.map_values(|s: (&[u32], u64)| s.0@),
            free == Seq::new(slots@.len(), |i: int| true),
            best is None ==> forall|j: int| 0 <= j < i ==> !warm(priors, free, new_tokens@, j),
            best matches Some((b, blen)) ==> {
                let r = b as int;
                &&& r < i
                &&& blen == priors[r].len()
                &&& warm(priors, free, new_tokens@, r)
                &&& forall|j: int|
                    0 <= j < i && #[trigger] warm(priors, free, new_tokens@, j) ==> priors[j].len()
                        <= priors[r].len() && (j < r ==> priors[j].len() < priors[r].len())
            },
        decreases slots@.len() - i,
    {
        let prior = slots[i].0;
        assert(priors[i as int] == prior@);
        if prior.len() > 0 {
            let common: usize = lcp(prior, new_tokens);
            if common == prior.len() {
                assert(warm(priors, free, new_tokens@, i as int));
                let better = match best {
                    Some((_, blen)) => prior.len() > blen,
                    None => true,
                };
                if better {
                    best = Some((i, prior.len()));
                }
            } else {
                assert(!warm(priors, free, new_tokens@, i as int));
            }
        } else {
            assert(!warm(priors, free, new_tokens@, i as int));
        }
        i += 1;
    }
    if let Some((k, _)) = best {
        return k;
    }
    assert(!exists|j: int| warm(priors, free, new_tokens@, j));
    let mut r: usize = 0;
    let mut k: usize = 1;
    while k < slots.len()
        invariant
            r < k <= slots@.len(),
            used == slots@.map_values(|s: (&[u32], u64)| s.1),
            forall|j: int| 0 <= j < k ==> used[r as int] <= #[trigger] used[j],
            forall|j: int| 0 <= j < r ==> used[r as int] < #[trigger] used[j],
        decreases slots@.len() - k,
    {
        assert(used[k as int] == slots@[k as int].1);
        assert(used[r as int] == slots@[r as int].1);
        if slots[k].1 < slots[r].1 {
            r = k;
        }
        k += 1;
    }
    r
}

} // verus!
