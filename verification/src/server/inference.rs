//! Generation requests, the events that answer them, and how a reply is
//! collected.
use vstd::prelude::*;
use vstd::string::*;

verus! {

/// Sampling parameters. `F` is the number type that the sampler computes in.
#[derive(Clone)]
pub struct SamplerConfig<F> {
    pub temperature: F,
    pub top_k: u32,
    pub top_p: F,
    pub min_p: F,
    pub presence_penalty: F,
    pub frequency_penalty: F,
    pub repeat_penalty: F,
    pub penalty_last_n: usize,
    pub seed: u64,
    pub logit_bias: Vec<(u32, F)>,
}

/// Per-request generation parameters.
pub struct GenConfig<F> {
    pub sampler: SamplerConfig<F>,
    pub max_tokens: u32,
    /// Text stop sequences; generation halts when the decoded tail matches one.
    pub stop: Vec<String>,
    /// Never stop on an end-of-generation token.
    pub ignore_eos: bool,
    /// Pin to a specific cache slot; `None` selects by cached prefix, then age.
    pub id_slot: Option<usize>,
}

/// An image after CPU preprocessing: its pixel data and patch grid.
pub struct PreprocessedImage<F> {
    pub pixels: Vec<F>,
    pub grid_w: u32,
    pub grid_h: u32,
}

/// One image attached to a chat request.
pub struct ServeImage<F> {
    pub pimg: PreprocessedImage<F>,
    /// Index of the first image placeholder among the prompt tokens.
    pub image_start: usize,
    /// Merged-grid dims (`n_tok = nx * ny`).
    pub nx: usize,
    pub ny: usize,
}

/// One audio clip attached to a chat request.
pub struct ServeAudio<F> {
    pub samples: Vec<F>,
    /// Index of the first audio placeholder among the prompt tokens.
    pub audio_start: usize,
    /// Number of audio frames (placeholder tokens).
    pub n_tok: usize,
}

/// Why generation stopped.
#[derive(Clone, Debug)]
pub enum StopReason {
    /// Hit an end-of-generation token.
    Eos,
    /// Matched a text stop sequence.
    StopSequence(String),
    /// Hit the requested number of tokens.
    MaxTokens,
    /// Ran out of context headroom mid-reply.
    ContextFull,
}

impl StopReason {
    /// OpenAI / llama-native `finish_reason`.
    pub fn openai_finish(&self) -> (r: &'static str)
        ensures
            self is Eos || self is StopSequence ==> r@ == "stop"@,
            self is MaxTokens || self is ContextFull ==> r@ == "length"@,
    {
        match self {
            StopReason::Eos | StopReason::StopSequence(_) => "stop",
            StopReason::MaxTokens | StopReason::ContextFull => "length",
        }
    }

    /// Anthropic `stop_reason`.
    pub fn anthropic_reason(&self) -> (r: &'static str)
        ensures
            self is Eos ==> r@ == "end_turn"@,
            self is StopSequence ==> r@ == "stop_sequence"@,
            self is MaxTokens || self is ContextFull ==> r@ == "max_tokens"@,
    {
        match self {
            StopReason::Eos => "end_turn",
            StopReason::StopSequence(_) => "stop_sequence",
            StopReason::MaxTokens | StopReason::ContextFull => "max_tokens",
        }
    }

    /// The matched stop string, if generation ended on a stop sequence.
    pub fn matched_sequence(&self) -> (r: Option<&str>)
        ensures
            self matches StopReason::StopSequence(s) ==> r is Some && r->0@ == s@,
            !(self is StopSequence) ==> r is None,
    {
        match self {
            StopReason::StopSequence(s) => Some(s.as_str()),
            _ => None,
        }
    }
}

/// Streamed output of one generation.
#[derive(Clone, Debug)]
pub enum GenEvent {
    /// Sent once, right after prefill, with the real prompt token count.
    Started { prompt_tokens: u32 },
    /// Newly decoded text.
    Delta(String),
    /// Terminal success frame.
    Done { stop_reason: StopReason, prompt_tokens: u32, completion_tokens: u32 },
    /// Terminal failure frame.
    Error(String),
}

/// The collected result of a non-streaming generation.
pub struct GenOutput {
    pub text: String,
    pub stop_reason: StopReason,
    pub prompt_tokens: u32,
    pub completion_tokens: u32,
}

/// The text of the deltas among `events`, in order.
pub open spec fn delta_text(events: Seq<GenEvent>) -> Seq<char>
    decreases events.len(),
{
    if events.len() == 0 {
        seq![]
    } else {
        let before = delta_text(events.drop_last());
        match events.last() {
            GenEvent::Delta(t) => before + t@,
            _ => before,
        }
    }
}

/// The prompt token count that the last `Started` or `Done` reported.
pub open spec fn reported_prompt_tokens(events: Seq<GenEvent>) -> u32
    decreases events.len(),
{
    if events.len() == 0 {
        0
    } else {
        match events.last() {
            GenEvent::Started { prompt_tokens } => prompt_tokens,
            GenEvent::Done { prompt_tokens, .. } => prompt_tokens,
            _ => reported_prompt_tokens(events.drop_last()),
        }
    }
}

/// The stop reason and completion count of the last `Done`.
pub open spec fn reported_end(events: Seq<GenEvent>) -> (StopReason, u32)
    decreases events.len(),
{
    if events.len() == 0 {
        (StopReason::MaxTokens, 0)
    } else {
        match events.last() {
            GenEvent::Done { stop_reason, completion_tokens, .. } => (stop_reason, completion_tokens),
            _ => reported_end(events.drop_last()),
        }
    }
}

/// Event `i` is the first failure frame.
pub open spec fn first_error(events: Seq<GenEvent>, i: int) -> bool {
    &&& 0 <= i < events.len()
    &&& events[i] is Error
    &&& forall|j: int| 0 <= j < i ==> !((#[trigger] events[j]) is Error)
}

/// Collect a whole reply: the first failure frame if there is one, otherwise
/// the concatenated text with the last reported counts.
pub fn collect(events: Vec<GenEvent>) -> (r: Result<GenOutput, String>)
    ensures
        r is Err <==> exists|i: int| first_error(events@, i),
        r matches Err(e) ==> exists|i: int|
            first_error(events@, i) && events@[i]->Error_0@ == e@,
        r matches Ok(out) ==> {
            &&& out.text@ == delta_text(events@)
            &&& out.prompt_tokens == reported_prompt_tokens(events@)
            &&& (out.stop_reason, out.completion_tokens) == reported_end(events@)
        },
{
    let mut text = String::new();
    let mut stop_reason = StopReason::MaxTokens;
    let mut prompt: u32 = 0;
    let mut completion: u32 = 0;
    let ghost all = events@;
    for ev in it: events
        invariant
            it.seq() == all,
            all == events@,
            forall|j: int| 0 <= j < it.index() ==> !((#[trigger] all[j]) is Error),
            text@ == delta_text(all.take(it.index())),
            prompt == reported_prompt_tokens(all.take(it.index())),
            (stop_reason, completion) == reported_end(all.take(it.index())),
    {
        let ghost at = it.index();
        proof {
            assert(all.take(at + 1).drop_last() =~= all.take(at));
            assert(all.take(at + 1).last() == ev);
        }
        match ev {
            GenEvent::Started { prompt_tokens } => {
                prompt = prompt_tokens;
            },
            GenEvent::Delta(t) => {
                text.append(t.as_str());
            },
            GenEvent::Done { stop_reason: why, prompt_tokens, completion_tokens } => {
                stop_reason = why;
                prompt = prompt_tokens;
                completion = completion_tokens;
            },
            GenEvent::Error(e) => {
                assert(first_error(all, at));
                return Err(e);
            },
        }
    }
    assert(all.take(all.len() as int) =~= all);
    Ok(GenOutput { text, stop_reason, prompt_tokens: prompt, completion_tokens: completion })
}

/// A reply made of deltas alone carries exactly their text, in order: the text
/// of two stretches of a stream is the text of the first, then of the second.
pub proof fn law_text_is_concatenated(a: Seq<GenEvent>, b: Seq<GenEvent>)
    ensures
        delta_text(a + b) == delta_text(a) + delta_text(b),
    decreases b.len(),
{
    if b.len() == 0 {
        assert(a + b =~= a);
        assert(delta_text(a) + delta_text(b) =~= delta_text(a));
    } else {
        law_text_is_concatenated(a, b.drop_last());
        assert((a + b).drop_last() =~= a + b.drop_last());
        assert((a + b).last() == b.last());
        assert(delta_text(a + b) =~= delta_text(a) + delta_text(b));
    }
}

} // verus!
