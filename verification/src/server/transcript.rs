//! What a client receives over a whole stream, as against what was decoded.
use vstd::prelude::*;
use vstd::utf8::*;

use crate::server::sequence::{emitted_text, released, scan_released, Emission};
use crate::server::stop::{
    earliest, law_released_text_precedes_every_stop, reported, stop_at, StopScan,
};
use crate::text::{lemma_utf8_concat, lemma_utf8_empty, utf8};

verus! {

/// A stream without a stop match so far: each decoded piece, what was emitted
/// for it, and the text pending before each piece and after the last.
pub open spec fn streamed(
    pieces: Seq<Seq<char>>,
    ems: Seq<Emission>,
    pend: Seq<Seq<char>>,
    stops: Seq<String>,
) -> bool {
    &&& pieces.len() == ems.len()
    &&& pend.len() == ems.len() + 1
    &&& pend[0].len() == 0
    &&& forall|i: int|
        0 <= i < ems.len() ==> {
            &&& scan_released(pend[i] + pieces[i], stops, pend[i + 1], #[trigger] ems[i])
            &&& !(ems[i] is Last)
        }
}

/// The first `n` decoded pieces.
pub open spec fn decoded_text(pieces: Seq<Seq<char>>, n: int) -> Seq<char>
    decreases n,
{
    if n <= 0 {
        seq![]
    } else {
        decoded_text(pieces, n - 1) + pieces[n - 1]
    }
}

/// The text of the first `n` emissions.
pub open spec fn sent_text(ems: Seq<Emission>, n: int) -> Seq<char>
    decreases n,
{
    if n <= 0 {
        seq![]
    } else {
        sent_text(ems, n - 1) + emitted_text(ems[n - 1])
    }
}

/// Nothing decoded is lost, repeated or reordered: what was sent, followed by
/// what is pending, is the decoded text.
pub proof fn law_streaming_keeps_the_text(
    pieces: Seq<Seq<char>>,
    ems: Seq<Emission>,
    pend: Seq<Seq<char>>,
    stops: Seq<String>,
    n: int,
)
    requires
        streamed(pieces, ems, pend, stops),
        0 <= n <= ems.len(),
    ensures
        decoded_text(pieces, n) == sent_text(ems, n) + pend[n],
    decreases n,
{
    if n == 0 {
        assert(pend[0] =~= seq![]);
        assert(sent_text(ems, 0) + pend[0] =~= seq![]);
    } else {
        law_streaming_keeps_the_text(pieces, ems, pend, stops, n - 1);
        let e = ems[n - 1];
        let whole = pend[n - 1] + pieces[n - 1];
        let r = choose|r: StopScan| released(whole, stops, pend[n], e, r);
        assert(released(whole, stops, pend[n], e, r));
        assert(whole == emitted_text(e) + pend[n]);
        assert(decoded_text(pieces, n) =~= sent_text(ems, n - 1) + whole);
        assert(sent_text(ems, n) + pend[n] =~= sent_text(ems, n - 1) + whole);
    }
}

/// No stop sequence ever reaches into text that was sent, whatever is decoded
/// next.
pub proof fn law_sent_text_stays_before_every_stop(
    pieces: Seq<Seq<char>>,
    ems: Seq<Emission>,
    pend: Seq<Seq<char>>,
    stops: Seq<String>,
    n: int,
    more: Seq<char>,
    k: int,
    i: int,
)
    requires
        streamed(pieces, ems, pend, stops),
        0 <= n <= ems.len(),
        stop_at(utf8(decoded_text(pieces, n) + more), stops, k, i),
    ensures
        i >= utf8(sent_text(ems, n)).len(),
    decreases n,
{
    if n == 0 {
        lemma_utf8_empty(sent_text(ems, 0));
    } else {
        let sent0 = sent_text(ems, n - 1);
        let e = ems[n - 1];
        let whole = pend[n - 1] + pieces[n - 1];
        let r = choose|r: StopScan| released(whole, stops, pend[n], e, r);
        assert(released(whole, stops, pend[n], e, r));
        let m = r->Emit_0;
        law_streaming_keeps_the_text(pieces, ems, pend, stops, n - 1);
        let all = decoded_text(pieces, n) + more;
        assert(all =~= decoded_text(pieces, n - 1) + (pieces[n - 1] + more));
        assert(all =~= sent0 + (whole + more));
        law_sent_text_stays_before_every_stop(
            pieces,
            ems,
            pend,
            stops,
            n - 1,
            pieces[n - 1] + more,
            k,
            i,
        );
        lemma_utf8_concat(sent0, whole + more);
        lemma_utf8_concat(whole, more);
        lemma_utf8_concat(sent0, emitted_text(e));
        let off = utf8(sent0).len() as int;
        let s = utf8(stops[k]@);
        assert((utf8(whole) + utf8(more)).subrange(i - off, i - off + s.len()) =~= utf8(
            all,
        ).subrange(i, i + s.len()));
        assert(stop_at(utf8(whole) + utf8(more), stops, k, i - off));
        law_released_text_precedes_every_stop(whole, stops, m, more, k, i - off);
    }
}

/// A reply that ends on a stop sequence carries the decoded text up to the
/// first place where any stop sequence starts, and nothing of the stop itself.
pub proof fn law_stopped_reply_ends_at_the_first_stop(
    pieces: Seq<Seq<char>>,
    ems: Seq<Emission>,
    pend: Seq<Seq<char>>,
    stops: Seq<String>,
    piece: Seq<char>,
    last: Emission,
)
    requires
        streamed(pieces, ems, pend, stops),
        last is Last,
        scan_released(pend[ems.len() as int] + piece, stops, seq![], last),
    ensures
        ({
            let n = ems.len() as int;
            let all = utf8(decoded_text(pieces, n) + piece);
            let reply = sent_text(ems, n) + emitted_text(last);
            let end = utf8(reply).len() as int;
            &&& exists|k: int| #[trigger] stop_at(all, stops, k, end) && stops[k]@ == last->matched@
            &&& forall|j: int, i: int| #[trigger] stop_at(all, stops, j, i) ==> end <= i
            &&& utf8(reply) == all.subrange(0, end)
        }),
{
    let n = ems.len() as int;
    let sent = sent_text(ems, n);
    let whole = pend[n] + piece;
    let text = emitted_text(last);
    law_streaming_keeps_the_text(pieces, ems, pend, stops, n);
    assert(decoded_text(pieces, n) + piece =~= sent + whole);
    let all = utf8(decoded_text(pieces, n) + piece);
    lemma_utf8_concat(sent, whole);
    lemma_utf8_concat(sent, text);
    let off = utf8(sent).len() as int;
    let r = choose|r: StopScan| released(whole, stops, seq![], last, r);
    assert(released(whole, stops, seq![], last, r));
    let upto = r->upto as int;
    let seq = r->seq;
    assert(reported(utf8(whole), stops, upto, seq@));
    let k = choose|k: int| earliest(utf8(whole), stops, k, upto) && stops[k]@ == seq@;
    assert(stop_at(utf8(whole), stops, k, upto));
    let end = utf8(sent + text).len() as int;
    assert(utf8(text) == utf8(whole).subrange(0, upto));
    assert(end == off + upto);
    let s = utf8(stops[k]@);
    assert(all.subrange(end, end + s.len()) =~= utf8(whole).subrange(upto, upto + s.len()));
    assert(stop_at(all, stops, k, end));
    assert(utf8(sent + text) =~= all.subrange(0, end));
    assert forall|j: int, i: int| #[trigger] stop_at(all, stops, j, i) implies end <= i by {
        law_sent_text_stays_before_every_stop(pieces, ems, pend, stops, n, piece, j, i);
        let t = utf8(stops[j]@);
        assert(utf8(whole).subrange(i - off, i - off + t.len()) =~= all.subrange(i, i + t.len()));
        assert(stop_at(utf8(whole), stops, j, i - off));
    }
}

} // verus!
