//! One in-flight generation: how it takes a token, decodes it, matches stop
//! sequences and ends.
use vstd::prelude::*;
use vstd::string::*;
use vstd::utf8::*;

use crate::server::inference::StopReason;
use crate::server::stop::{law_scan_cuts_between_characters, scan_stop, scanned, StopScan};
use crate::text::{lemma_utf8_empty, split_text, utf8};
use crate::tokenizer::bundle::{step_decode_stream, stream_step, DecodeState, Tokenizer};

verus! {

/// One in-flight generation on cache slab `slab`. `id` names the request whose
/// sampler and reply channel belong to it.
pub struct ActiveSeq {
    pub id: u64,
    pub slab: u32,
    /// Rendered prompt, committed to the slab's prior tokens on eviction.
    pub prompt: Vec<u32>,
    /// Tokens generated so far (each fed back as the next input, bar the last).
    pub generated: Vec<u32>,
    pub prompt_tokens: u32,
    pub stop: Vec<String>,
    pub ignore_eos: bool,
    pub max_tokens: u32,
    pub stream: DecodeState,
    /// Decoded text held back for stop matching.
    pub pending: String,
    /// Token to feed at the next batched decode step.
    pub last_token: u32,
    pub terminal: Option<StopReason>,
    pub disconnected: bool,
    /// Cache positions written so far for this slab.
    pub num_computed: u32,
    /// Whether the start of the reply was announced.
    pub started: bool,
}

impl ActiveSeq {
    /// The tokens of the conversation so far.
    pub open spec fn logical(&self) -> Seq<u32> {
        self.prompt@ + self.generated@
    }

    /// Neither finished nor abandoned.
    pub open spec fn live(&self) -> bool {
        self.terminal is None && !self.disconnected
    }
}

/// What is to be sent after a token was taken, and what a delivered send means.
pub enum Emission {
    /// Nothing to send.
    Quiet,
    /// Send this text and go on.
    Text(String),
    /// Send this text (if it is not empty) and end on the matched stop sequence.
    Last { text: String, matched: String },
}

/// Everything but the parts that decoding moves is the same.
pub open spec fn same_request(a: &ActiveSeq, b: &ActiveSeq) -> bool {
    &&& a.id == b.id
    &&& a.slab == b.slab
    &&& a.prompt == b.prompt
    &&& a.prompt_tokens == b.prompt_tokens
    &&& a.stop == b.stop
    &&& a.ignore_eos == b.ignore_eos
    &&& a.max_tokens == b.max_tokens
    &&& a.last_token == b.last_token
    &&& a.num_computed == b.num_computed
    &&& a.started == b.started
}

/// How decoded text moves a sequence: what is emitted and what stays pending.
/// A full stop match ends the text there; otherwise all that cannot grow into a
/// stop is released.
pub open spec fn absorbed(
    before: &ActiveSeq,
    after: &ActiveSeq,
    piece: Option<Seq<char>>,
    e: Emission,
) -> bool {
    match piece {
        None => {
            &&& e is Quiet
            &&& after.pending@ == before.pending@
        },
        Some(t) => scan_released(before.pending@ + t, before.stop@, after.pending@, e),
    }
}

/// `e` and the pending `rest` are what a scan of `whole` calls for.
pub open spec fn scan_released(
    whole: Seq<char>,
    stops: Seq<String>,
    rest: Seq<char>,
    e: Emission,
) -> bool {
    exists|r: StopScan| released(whole, stops, rest, e, r)
}

/// `e` and the pending `rest` are what the scan `r` of `whole` calls for.
pub open spec fn released(
    whole: Seq<char>,
    stops: Seq<String>,
    rest: Seq<char>,
    e: Emission,
    r: StopScan,
) -> bool {
    &&& scanned(utf8(whole), stops, r)
    &&& match r {
        StopScan::Hit { upto, seq } => {
            &&& e matches Emission::Last { text, matched }
            &&& matched@ == seq@
            &&& utf8(text@) == utf8(whole).subrange(0, upto as int)
            &&& rest.len() == 0
        },
        StopScan::Emit(n) => {
            &&& whole == emitted_text(e) + rest
            &&& utf8(emitted_text(e)).len() == n
            &&& e is Quiet <==> n == 0
            &&& !(e is Last)
        },
    }
}

/// The text that an emission sends.
pub open spec fn emitted_text(e: Emission) -> Seq<char> {
    match e {
        Emission::Quiet => seq![],
        Emission::Text(t) => t@,
        Emission::Last { text, .. } => text@,
    }
}

/// Whether `token` ends the generation.
pub open spec fn ends(seq: &ActiveSeq, eog_ids: Seq<u32>, token: u32) -> bool {
    !seq.ignore_eos && eog_ids.contains(token)
}

/// Whether `ids` holds `token`.
pub fn contains_id(ids: &[u32], token: u32) -> (r: bool)
    ensures
        r == ids@.contains(token),
{
    let mut i: usize = 0;
    while i < ids.len()
        invariant
            i <= ids@.len(),
            forall|j: int| 0 <= j < i ==> ids@[j] != token,
        decreases ids@.len() - i,
    {
        if ids[i] == token {
            return true;
        }
        i += 1;
    }
    false
}

/// Add a decoded piece to the pending text and release what may be sent.
pub fn absorb_piece(seq: &mut ActiveSeq, piece: Option<String>) -> (e: Emission)
    ensures
        absorbed(
            old(seq),
            final(seq),
            match piece {
                Some(t) => Some(t@),
                None => None,
            },
            e,
        ),
        same_request(old(seq), final(seq)),
        final(seq).generated == old(seq).generated,
        final(seq).stream == old(seq).stream,
        final(seq).terminal == old(seq).terminal,
        final(seq).disconnected == old(seq).disconnected,
{
    match piece {
        None => Emission::Quiet,
        Some(t) => {
            seq.pending.append(t.as_str());
            let ghost whole = seq.pending@;
            let r = scan_stop(seq.pending.as_str(), seq.stop.as_slice());
            proof {
                law_scan_cuts_between_characters(whole, seq.stop@, r);
                encode_utf8_valid_utf8(whole);
                is_char_boundary_start_end_of_seq(utf8(whole));
            }
            let ghost scan = r;
            let e = match r {
                StopScan::Hit { upto, seq: matched } => {
                    let (text, _) = split_text(seq.pending.as_str(), upto);
                    seq.pending = String::new();
                    Emission::Last { text, matched }
                },
                StopScan::Emit(n) => {
                    if n > 0 {
                        let (text, rest) = split_text(seq.pending.as_str(), n);
                        seq.pending = rest;
                        Emission::Text(text)
                    } else {
                        proof {
                            lemma_utf8_empty(Seq::<char>::empty());
                            assert(whole =~= Seq::<char>::empty() + seq.pending@);
                        }
                        Emission::Quiet
                    }
                },
            };
            assert(released(whole, old(seq).stop@, seq.pending@, e, scan));
            e
        },
    }
}

/// Advance one sequence by `token`: end-of-generation check, append, streaming
/// decode and stop matching. What must be sent is returned; [`settle`] then
/// takes whether it was delivered.
pub fn process_token(
    tokenizer: &Tokenizer,
    eog_ids: &[u32],
    seq: &mut ActiveSeq,
    token: u32,
) -> (r: Option<Emission>)
    ensures
        same_request(old(seq), final(seq)),
        final(seq).generated@ == old(seq).generated@.push(token),
        final(seq).disconnected == old(seq).disconnected,
        r is None <==> ends(old(seq), eog_ids@, token),
        r is None ==> {
            &&& final(seq).terminal == Some(StopReason::Eos)
            &&& final(seq).pending == old(seq).pending
            &&& final(seq).stream == old(seq).stream
        },
        r matches Some(e) ==> {
            let st = old(seq).stream;
            let (text, state) = stream_step(
                tokenizer,
                token,
                st.ids@,
                st.prefix@,
                st.prefix_index,
                true,
            );
            &&& final(seq).terminal == old(seq).terminal
            &&& if st.prefix_index <= st.ids@.len() {
                &&& absorbed(old(seq), final(seq), text.unwrap_or(None), e)
                &&& final(seq).stream@ == state
            } else {
                &&& absorbed(old(seq), final(seq), None, e)
                &&& final(seq).stream == st
            }
        },
{
    if !seq.ignore_eos && contains_id(eog_ids, token) {
        // The token is in the cache now but never emitted.
        seq.generated.push(token);
        seq.terminal = Some(StopReason::Eos);
        return None;
    }
    seq.generated.push(token);
    let piece = if seq.stream.prefix_index <= seq.stream.ids.len() {
        match step_decode_stream(tokenizer, token, &mut seq.stream, true) {
            Ok(piece) => piece,
            Err(_) => None,
        }
    } else {
        None
    };
    let e = absorb_piece(seq, piece);
    Some(e)
}

/// Take whether an emission was delivered: a lost client is disconnected, a
/// delivered stop match ends the sequence, and the token bound is applied to a
/// sequence that goes on.
pub fn settle(seq: &mut ActiveSeq, e: &Emission, delivered: bool)
    ensures
        same_request(old(seq), final(seq)),
        final(seq).generated == old(seq).generated,
        final(seq).pending == old(seq).pending,
        final(seq).stream == old(seq).stream,
        match e {
            Emission::Last { text, matched } => if text@.len() > 0 && !delivered {
                final(seq).disconnected && final(seq).terminal == old(seq).terminal
            } else {
                &&& final(seq).disconnected == old(seq).disconnected
                &&& final(seq).terminal matches Some(StopReason::StopSequence(s)) && s@ == matched@
            },
            Emission::Text(_) if !delivered => final(seq).disconnected && final(seq).terminal
                == old(seq).terminal,
            _ => {
                &&& final(seq).disconnected == old(seq).disconnected
                &&& final(seq).terminal == if old(seq).generated@.len() >= old(seq).max_tokens {
                    Some(StopReason::MaxTokens)
                } else {
                    old(seq).terminal
                }
            },
        },
{
    match e {
        Emission::Last { text, matched } => {
            if !text.as_str().is_empty() && !delivered {
                seq.disconnected = true;
            } else {
                seq.terminal = Some(StopReason::StopSequence(matched.clone()));
            }
            return;
        },
        Emission::Text(_) => {
            if !delivered {
                seq.disconnected = true;
                return;
            }
        },
        Emission::Quiet => {},
    }
    if seq.generated.len() as u64 >= seq.max_tokens as u64 {
        seq.terminal = Some(StopReason::MaxTokens);
    }
}

} // verus!
