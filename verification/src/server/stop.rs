//! Text stop sequences over a decoded stream.
use vstd::prelude::*;
use vstd::string::*;
use vstd::utf8::*;

use crate::text::{bytes_at, find_bytes, lemma_utf8_first_byte, occurs_at, utf8};

verus! {

/// Result of scanning the decoded tail for stop sequences.
pub enum StopScan {
    /// A stop sequence is fully present; emit `pending[..upto]` and stop.
    Hit { upto: usize, seq: String },
    /// No full match; that many leading bytes of `pending` are safe to emit now
    /// (the rest may still grow into a stop sequence).
    Emit(usize),
}

/// The non-empty stop `k` stands in `pending` at byte offset `i`.
pub open spec fn stop_at(pending: Seq<u8>, stops: Seq<String>, k: int, i: int) -> bool {
    &&& 0 <= k < stops.len()
    &&& stops[k]@.len() > 0
    &&& occurs_at(pending, utf8(stops[k]@), i)
}

/// The last `n` bytes of `pending` are the first `n` of the non-empty stop `k`,
/// both cut between characters.
pub open spec fn held_back(pending: Seq<u8>, stops: Seq<String>, k: int, n: int) -> bool {
    &&& 0 <= k < stops.len()
    &&& stops[k]@.len() > 0
    &&& 0 < n <= pending.len()
    &&& n <= utf8(stops[k]@).len()
    &&& is_char_boundary(utf8(stops[k]@), n)
    &&& is_char_boundary(pending, pending.len() - n)
    &&& pending.subrange(pending.len() - n, pending.len() as int) == utf8(stops[k]@).subrange(0, n)
}

/// Some non-empty stop could still grow out of the last `n` bytes of `pending`.
pub open spec fn may_grow(pending: Seq<u8>, stops: Seq<String>, n: int) -> bool {
    exists|k: int| held_back(pending, stops, k, n)
}

/// Stop `k` is the match that a scan reports, at offset `at`: none starts
/// earlier, and none listed before it starts there.
pub open spec fn earliest(pending: Seq<u8>, stops: Seq<String>, k: int, at: int) -> bool {
    &&& stop_at(pending, stops, k, at)
    &&& forall|j: int, i: int| #[trigger]
        stop_at(pending, stops, j, i) ==> at <= i && (i == at ==> k <= j)
}

/// `seq` is the stop whose earliest match starts at `at`.
pub open spec fn reported(pending: Seq<u8>, stops: Seq<String>, at: int, seq: Seq<char>) -> bool {
    exists|k: int| earliest(pending, stops, k, at) && stops[k]@ == seq
}

/// What a scan of `pending` reports: the earliest full match (the first listed
/// among those that start there), or else everything but the longest suffix
/// that could still grow into a stop.
pub open spec fn scanned(pending: Seq<u8>, stops: Seq<String>, r: StopScan) -> bool {
    match r {
        StopScan::Hit { upto, seq } => reported(pending, stops, upto as int, seq@),
        StopScan::Emit(n) => {
            &&& n <= pending.len()
            &&& forall|j: int, i: int| !#[trigger] stop_at(pending, stops, j, i)
            &&& n < pending.len() ==> may_grow(pending, stops, pending.len() - n)
            &&& forall|k: int, m: int| #[trigger]
                held_back(pending, stops, k, m) ==> m <= pending.len() - n
        },
    }
}

/// The longest suffix of `pending` that begins `stop`, in bytes.
fn held_by(pending: &str, stop: &str) -> (hold: usize)
    requires
        stop@.len() > 0,
    ensures
        hold <= utf8(pending@).len(),
        hold <= utf8(stop@).len(),
        hold > 0 ==> is_char_boundary(utf8(stop@), hold as int) && is_char_boundary(
            utf8(pending@),
            utf8(pending@).len() - hold,
        ) && utf8(pending@).subrange(utf8(pending@).len() - hold, utf8(pending@).len() as int)
            == utf8(stop@).subrange(0, hold as int),
        forall|m: int|
            hold < m <= utf8(pending@).len() && m <= utf8(stop@).len() && #[trigger] is_char_boundary(
                utf8(stop@),
                m,
            ) && is_char_boundary(utf8(pending@), utf8(pending@).len() - m) ==> utf8(
                pending@,
            ).subrange(utf8(pending@).len() - m, utf8(pending@).len() as int) != utf8(
                stop@,
            ).subrange(0, m),
{
    let p = pending.as_bytes();
    let s = stop.as_bytes();
    let mut k: usize = if p.len() <= s.len() {
        p.len()
    } else {
        s.len()
    };
    while k > 0
        invariant
            p@ == utf8(pending@),
            s@ == utf8(stop@),
            k <= p@.len(),
            k <= s@.len(),
            forall|m: int|
                k < m <= p@.len() && m <= s@.len() && #[trigger] is_char_boundary(s@, m)
                    && is_char_boundary(p@, p@.len() - m) ==> p@.subrange(
                    p@.len() - m,
                    p@.len() as int,
                ) != s@.subrange(0, m),
        decreases k,
    {
        if stop.is_char_boundary(k) && pending.is_char_boundary(p.len() - k) {
            let head = vstd::slice::slice_subrange(s, 0, k);
            if bytes_at(p, head, p.len() - k) {
                return k;
            }
        }
        k -= 1;
    }
    0
}

/// Detect text stop sequences that may span several decoded pieces: a full hit
/// (the earliest match across all stops), or the number of leading bytes that
/// are safe to emit while holding back the longest suffix that could still grow
/// into a stop sequence.
pub fn scan_stop(pending: &str, stops: &[String]) -> (r: StopScan)
    ensures
        scanned(utf8(pending@), stops@, r),
{
    let p = pending.as_bytes();
    let mut hit: Option<(usize, usize)> = None;
    let mut k: usize = 0;
    while k < stops.len()
        invariant
            k <= stops@.len(),
            p@ == utf8(pending@),
            hit is None ==> forall|j: int, i: int| j < k ==> !#[trigger] stop_at(p@, stops@, j, i),
            hit matches Some((at, by)) ==> {
                &&& by < k
                &&& stop_at(p@, stops@, by as int, at as int)
                &&& forall|j: int, i: int|
                    j < k && #[trigger] stop_at(p@, stops@, j, i) ==> at <= i && (i == at ==> by
                        <= j)
            },
        decreases stops@.len() - k,
    {
        let s = stops[k].as_str();
        if !s.is_empty() {
            if let Some(idx) = find_bytes(p, s.as_bytes()) {
                assert(stop_at(p@, stops@, k as int, idx as int));
                let earlier = match hit {
                    Some((at, _)) => idx < at,
                    None => true,
                };
                assert forall|i: int| #[trigger] stop_at(p@, stops@, k as int, i) implies idx <= i by {
                    assert(occurs_at(p@, utf8(s@), i));
                }
                if earlier {
                    hit = Some((idx, k));
                }
            } else {
                assert forall|i: int| !#[trigger] stop_at(p@, stops@, k as int, i) by {
                    assert(!occurs_at(p@, utf8(s@), i));
                }
            }
        }
        k += 1;
    }
    if let Some((at, by)) = hit {
        let seq = stops[by].clone();
        assert(earliest(p@, stops@, by as int, at as int));
        assert(reported(p@, stops@, at as int, seq@));
        return StopScan::Hit { upto: at, seq };
    }
    let mut hold: usize = 0;
    let mut j: usize = 0;
    while j < stops.len()
        invariant
            j <= stops@.len(),
            p@ == utf8(pending@),
            hold <= p@.len(),
            hold > 0 ==> may_grow(p@, stops@, hold as int),
            forall|k: int, m: int| k < j && #[trigger] held_back(p@, stops@, k, m) ==> m <= hold,
        decreases stops@.len() - j,
    {
        let s = stops[j].as_str();
        if !s.is_empty() {
            let h: usize = held_by(pending, s);
            assert forall|m: int| #[trigger] held_back(p@, stops@, j as int, m) implies m <= h by {
                if m > h {
                    assert(is_char_boundary(utf8(s@), m));
                }
            }
            if h > hold {
                hold = h;
                assert(held_back(p@, stops@, j as int, hold as int));
            }
        }
        j += 1;
    }
    StopScan::Emit(p.len() - hold)
}

/// The byte offset that a scan reports lies between two characters, so neither
/// the emitted text nor the rest is cut inside one.
pub proof fn law_scan_cuts_between_characters(pending: Seq<char>, stops: Seq<String>, r: StopScan)
    requires
        scanned(utf8(pending), stops, r),
    ensures
        match r {
            StopScan::Hit { upto, .. } => is_char_boundary(utf8(pending), upto as int),
            StopScan::Emit(n) => is_char_boundary(utf8(pending), n as int),
        },
{
    let bytes = utf8(pending);
    encode_utf8_valid_utf8(pending);
    is_char_boundary_start_end_of_seq(bytes);
    match r {
        StopScan::Hit { upto, seq } => {
            let k = choose|k: int|
                earliest(bytes, stops, k, upto as int) && stops[k]@ == seq@;
            lemma_utf8_first_byte(stops[k]@);
            let s = utf8(stops[k]@);
            assert(bytes.subrange(upto as int, upto + s.len())[0] == s[0]);
            is_char_boundary_iff_not_is_continuation_byte(bytes, upto as int);
        },
        StopScan::Emit(n) => {
            if n < bytes.len() {
                let m = bytes.len() - n;
                let k = choose|k: int| held_back(bytes, stops, k, m);
                assert(held_back(bytes, stops, k, m));
            }
        },
    }
}

/// Text that a scan releases never reaches into a stop sequence: whatever is
/// decoded next, no stop starts before the end of the released bytes.
pub proof fn law_released_text_precedes_every_stop(
    pending: Seq<char>,
    stops: Seq<String>,
    n: usize,
    more: Seq<char>,
    k: int,
    i: int,
)
    requires
        scanned(utf8(pending), stops, StopScan::Emit(n)),
        stop_at(utf8(pending) + utf8(more), stops, k, i),
    ensures
        i >= n,
{
    let p = utf8(pending);
    let q = utf8(more);
    let s = utf8(stops[k]@);
    encode_utf8_valid_utf8(pending);
    encode_utf8_valid_utf8(more);
    encode_utf8_valid_utf8(stops[k]@);
    lemma_utf8_first_byte(stops[k]@);
    if i < n {
        if i + s.len() <= p.len() {
            assert(p.subrange(i, i + s.len()) =~= (p + q).subrange(i, i + s.len()));
            assert(stop_at(p, stops, k, i));
        } else {
            let m = p.len() - i;
            assert(p.subrange(i, p.len() as int) =~= s.subrange(0, m)) by {
                assert forall|j: int| 0 <= j < m implies p.subrange(i, p.len() as int)[j]
                    == s.subrange(0, m)[j] by {
                    assert((p + q).subrange(i, i + s.len())[j] == s[j]);
                }
            }
            assert(p[i] == s[0]) by {
                assert((p + q).subrange(i, i + s.len())[0] == s[0]);
            }
            is_char_boundary_iff_not_is_continuation_byte(p, i);
            assert(s[m] == q[0]) by {
                assert((p + q).subrange(i, i + s.len())[m] == s[m]);
            }
            is_char_boundary_start_end_of_seq(q);
            is_char_boundary_iff_not_is_continuation_byte(q, 0);
            is_char_boundary_iff_not_is_continuation_byte(s, m);
            assert(held_back(p, stops, k, m));
        }
    }
}

} // verus!
