//! Ordered key-value lists with string keys.
use vstd::prelude::*;

use crate::text::str_eq;

verus! {

/// The value of the first pair whose key is `key`.
pub open spec fn lookup<V>(pairs: Seq<(String, V)>, key: Seq<char>) -> Option<V>
    decreases pairs.len(),
{
    if pairs.len() == 0 {
        None
    } else if pairs[0].0@ == key {
        Some(pairs[0].1)
    } else {
        lookup(pairs.drop_first(), key)
    }
}

/// Pair `i` is the first whose key is `key`.
pub open spec fn leads<V>(pairs: Seq<(String, V)>, key: Seq<char>, i: int) -> bool {
    &&& 0 <= i < pairs.len()
    &&& pairs[i].0@ == key
    &&& forall|j: int| 0 <= j < i ==> (#[trigger] pairs[j]).0@ != key
}

/// No pair has the key `key`.
pub open spec fn lacks<V>(pairs: Seq<(String, V)>, key: Seq<char>) -> bool {
    forall|i: int| 0 <= i < pairs.len() ==> (#[trigger] pairs[i]).0@ != key
}

/// A key that some pair has is found with the value of the first such pair, and
/// one that no pair has is not found.
pub proof fn law_first_pair_is_found<V>(pairs: Seq<(String, V)>, key: Seq<char>)
    ensures
        forall|i: int| #[trigger]
            leads(pairs, key, i) ==> lookup(pairs, key) == Some(pairs[i].1),
        lookup(pairs, key) is Some ==> exists|i: int| #[trigger] leads(pairs, key, i),
        lookup(pairs, key) is None <==> lacks(pairs, key),
    decreases pairs.len(),
{
    if pairs.len() > 0 {
        let rest = pairs.drop_first();
        law_first_pair_is_found(rest, key);
        if pairs[0].0@ == key {
            assert(leads(pairs, key, 0));
        } else {
            assert forall|i: int| #[trigger] leads(pairs, key, i) implies lookup(pairs, key)
                == Some(pairs[i].1) by {
                assert(rest[i - 1] == pairs[i]);
                assert forall|j: int| 0 <= j < i - 1 implies (#[trigger] rest[j]).0@ != key by {
                    assert(rest[j] == pairs[j + 1]);
                }
                assert(leads(rest, key, i - 1));
            }
            if lookup(rest, key) is Some {
                let i = choose|i: int| #[trigger] leads(rest, key, i);
                assert(rest[i] == pairs[i + 1]);
                assert forall|j: int| 0 <= j < i + 1 implies (#[trigger] pairs[j]).0@ != key by {
                    if j > 0 {
                        assert(rest[j - 1] == pairs[j]);
                    }
                }
                assert(leads(pairs, key, i + 1));
                assert(pairs[i + 1].0@ == key);
            } else {
                assert forall|i: int| 0 <= i < pairs.len() implies (#[trigger] pairs[i]).0@
                    != key by {
                    if i > 0 {
                        assert(rest[i - 1] == pairs[i]);
                    }
                }
            }
        }
    }
}

/// The value of the first pair whose key is `key`.
pub fn find_pair<'a, V>(pairs: &'a Vec<(String, V)>, key: &str) -> (r: Option<&'a V>)
    ensures
        match r {
            Some(v) => lookup(pairs@, key@) == Some(*v),
            None => lookup(pairs@, key@) is None,
        },
        match r {
            Some(v) => exists|i: int| #[trigger] leads(pairs@, key@, i) && pairs@[i].1 == *v,
            None => lacks(pairs@, key@),
        },
{
    let mut i: usize = 0;
    assert(pairs@.skip(0) =~= pairs@);
    while i < pairs.len()
        invariant
            i <= pairs@.len(),
            lookup(pairs@, key@) == lookup(pairs@.skip(i as int), key@),
        decreases pairs@.len() - i,
    {
        let pair = &pairs[i];
        assert(pairs@.skip(i as int)[0] == *pair);
        if str_eq(pair.0.as_str(), key) {
            proof {
                law_first_pair_is_found(pairs@, key@);
                let at = choose|i: int| #[trigger] leads(pairs@, key@, i);
                assert(pairs@[at].1 == pair.1);
            }
            return Some(&pair.1);
        }
        assert(pairs@.skip(i as int).drop_first() =~= pairs@.skip(i + 1));
        i += 1;
    }
    proof {
        law_first_pair_is_found(pairs@, key@);
    }
    None
}

} // verus!
