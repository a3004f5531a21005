//! What each endpoint asks of a generation, and what it answers.
use vstd::prelude::*;
use vstd::string::*;

use crate::gguf::texts;
use crate::json::{tree, Json, Tree};
use crate::server::convert::{
    anthropic_to_chat, anthropic_turns, byte_views, failure, mixed_outcome,
    openai_messages_to_chat_mm, parse_stop, stop_sequences, turns, value_messages_to_chat,
    value_turns, ChatMessage, ConvertError, ConvertKind,
};
use crate::server::inference::{GenConfig, GenOutput, SamplerConfig};
use crate::server::prompts::{
    encode, is_numbers, prompt_asked, prompt_tokens, prompt_value_to_tokens, strings, text_tokens,
    Prompted,
};
use crate::server::state::AppState;
use crate::server::stream::{finish_text, matched_text, reason_text};
use crate::server::types::anthropic::{
    AnthropicUsage, ContentBlock, CountTokensResponse, MessagesInputMessage, MessagesRequest,
    MessagesResponse,
};
use crate::server::types::common::Usage;
use crate::server::types::llama;
use crate::server::types::llama::{
    DetokenizeResponse, InfillRequest, PropsResponse, SlotState, TokenPiece, TokenizePieces,
    TokenizeResponse,
};
use crate::server::types::openai;
use crate::server::types::openai::{
    choose_value, chosen, copy_sampler, same_sampler, ChatChoice, ChatCompletionRequest,
    ChatCompletionResponse, CompletionChoice, CompletionRequest, CompletionResponse, Model,
    ModelListResponse,
};
use crate::tokenizer::bundle::{
    decode_ids, decoded, encoded, id_of, token_to_id, TokenizerBundle,
};

verus! {

/// Why an endpoint refuses a request.
#[derive(Debug)]
pub enum Refusal {
    /// No model is loaded.
    NoModel,
    /// More than one reply was asked for.
    ManyChoices,
    /// The request cannot be turned into a prompt.
    Convert(ConvertError),
    /// The model lacks the tokens for filling in.
    NoInfill,
}

/// The HTTP status of a refusal.
pub open spec fn refusal_status(r: Refusal) -> u16 {
    match r {
        Refusal::NoModel => 503,
        Refusal::ManyChoices => 400,
        Refusal::Convert(_) => 400,
        Refusal::NoInfill => 501,
    }
}

impl Refusal {
    /// The HTTP status of this refusal.
    pub fn status(&self) -> (r: u16)
        ensures
            r == refusal_status(*self),
            r == 503 <==> self is NoModel,
            r == 501 <==> self is NoInfill,
            r == 400 <==> self is ManyChoices || self is Convert,
    {
        match self {
            Refusal::NoModel => 503,
            Refusal::ManyChoices => 400,
            Refusal::Convert(_) => 400,
            Refusal::NoInfill => 501,
        }
    }
}

/// A refusal for a conversion that failed like this.
pub open spec fn refuses(r: Refusal, f: (ConvertKind, Seq<char>)) -> bool {
    r matches Refusal::Convert(e) && failure(e) == f
}

/// Whether a request asks for one reply, where a model is loaded.
pub fn single_choice(loaded: bool, n: Option<u32>) -> (r: Result<(), Refusal>)
    ensures
        r == if !loaded {
            Err::<(), Refusal>(Refusal::NoModel)
        } else if chosen(n, 1) > 1 {
            Err(Refusal::ManyChoices)
        } else {
            Ok(())
        },
        r is Ok <==> loaded && (n matches Some(k) ==> k <= 1),
        r matches Err(e) ==> (e is NoModel <==> !loaded) && (e is ManyChoices <==> loaded),
{
    if !loaded {
        return Err(Refusal::NoModel);
    }
    if choose_value(n, 1) > 1 {
        return Err(Refusal::ManyChoices);
    }
    Ok(())
}

/// The turns and media of a chat request, or why it is refused.
pub fn chat_turns(loaded: bool, n: Option<u32>, messages: &[openai::ChatMessage]) -> (r: Result<
    (Vec<ChatMessage>, Vec<Vec<u8>>, Vec<Vec<u8>>),
    Refusal,
>)
    ensures
        if !loaded {
            r matches Err(Refusal::NoModel)
        } else if chosen(n, 1) > 1 {
            r matches Err(Refusal::ManyChoices)
        } else {
            match r {
                Ok((chat, images, audios)) => mixed_outcome(
                    messages@,
                    Ok((turns(chat@), byte_views(images@), byte_views(audios@))),
                ),
                Err(e) => e matches Refusal::Convert(c) && mixed_outcome(
                    messages@,
                    Err(failure(c)),
                ),
            }
        },
{
    single_choice(loaded, n)?;
    match openai_messages_to_chat_mm(messages) {
        Ok(t) => Ok(t),
        Err(e) => Err(Refusal::Convert(e)),
    }
}

/// The settings of a chat generation.
pub fn chat_config<F: Copy>(state: &AppState<F>, req: &ChatCompletionRequest<F>) -> (r: GenConfig<
    F,
>)
    ensures
        same_sampler(
            r.sampler,
            SamplerConfig {
                temperature: chosen(req.temperature, state.default_sampler.temperature),
                top_k: chosen(req.top_k, state.default_sampler.top_k),
                top_p: chosen(req.top_p, state.default_sampler.top_p),
                min_p: chosen(req.min_p, state.default_sampler.min_p),
                presence_penalty: chosen(
                    req.presence_penalty,
                    state.default_sampler.presence_penalty,
                ),
                frequency_penalty: chosen(
                    req.frequency_penalty,
                    state.default_sampler.frequency_penalty,
                ),
                repeat_penalty: chosen(req.repeat_penalty, state.default_sampler.repeat_penalty),
                penalty_last_n: chosen(req.repeat_last_n, state.default_sampler.penalty_last_n),
                seed: chosen(req.seed, state.default_sampler.seed),
                logit_bias: state.default_sampler.logit_bias,
            },
        ),
        r.max_tokens == chosen(req.max_tokens, state.default_max_tokens),
        texts(r.stop@) == stop_sequences(req.stop),
        r.ignore_eos == state.default_ignore_eos,
        r.id_slot is None,
{
    GenConfig {
        sampler: req.sampler_config(&state.default_sampler),
        max_tokens: choose_value(req.max_tokens, state.default_max_tokens),
        stop: parse_stop(&req.stop),
        ignore_eos: state.default_ignore_eos,
        id_slot: None,
    }
}

/// Whether the model's tokenizer puts special tokens round a text by default.
pub open spec fn adds_special(b: TokenizerBundle) -> bool {
    b.add_bos_default || b.add_eos_default
}

/// The tokenizer, if there is one, takes a text by itself.
pub open spec fn takes_texts<F>(state: &AppState<F>) -> bool {
    state.tokenizer matches Some(b) ==> b.takes_text()
}

/// The prompt of a completion request, or why it is refused.
pub fn completion_prompt<F>(
    state: &AppState<F>,
    loaded: bool,
    n: Option<u32>,
    prompt: &Option<Json>,
) -> (r: Result<Vec<u32>, Refusal>)
    requires
        loaded && chosen(n, 1) <= 1 && (prompt_asked(*prompt) matches Ok(Prompted::Text(_)))
            ==> takes_texts(state),
    ensures
        if !loaded {
            r == Err::<Vec<u32>, _>(Refusal::NoModel)
        } else if chosen(n, 1) > 1 {
            r == Err::<Vec<u32>, _>(Refusal::ManyChoices)
        } else {
            match state.tokenizer {
                None => r == Err::<Vec<u32>, _>(Refusal::NoModel),
                Some(b) => match prompt_tokens(*prompt, b, adds_special(b)) {
                    Ok(ids) => r matches Ok(v) && v@ == ids,
                    Err(f) => r matches Err(e) && refuses(e, f),
                },
            }
        },
        r matches Ok(v) ==> (state.tokenizer matches Some(b) && match *prompt {
            Some(Json::String(s)) => encoded(
                &b.tokenizer@,
                s@,
                b.add_bos_default || b.add_eos_default,
            ) == Ok::<Seq<u32>, Seq<char>>(v@),
            Some(Json::Array(a)) => is_numbers(a@, v@) || encoded(
                &b.tokenizer@,
                strings(a@).flatten(),
                b.add_bos_default || b.add_eos_default,
            ) == Ok::<Seq<u32>, Seq<char>>(v@),
            _ => false,
        }),
{
    single_choice(loaded, n)?;
    let b = match state.tokenizer() {
        Some(b) => b,
        None => {
            return Err(Refusal::NoModel);
        },
    };
    match prompt_value_to_tokens(prompt, b, b.add_bos_default || b.add_eos_default) {
        Ok(ids) => Ok(ids),
        Err(e) => Err(Refusal::Convert(e)),
    }
}

/// The settings of a completion.
pub fn completion_config<F: Copy>(state: &AppState<F>, req: &CompletionRequest<F>) -> (r: GenConfig<
    F,
>)
    ensures
        same_sampler(
            r.sampler,
            SamplerConfig {
                temperature: chosen(req.temperature, state.default_sampler.temperature),
                ..state.default_sampler
            },
        ),
        r.max_tokens == chosen(req.max_tokens, state.default_max_tokens),
        texts(r.stop@) == stop_sequences(req.stop),
        r.ignore_eos == state.default_ignore_eos,
        r.id_slot is None,
{
    GenConfig {
        sampler: req.sampler_config(&state.default_sampler),
        max_tokens: choose_value(req.max_tokens, state.default_max_tokens),
        stop: parse_stop(&req.stop),
        ignore_eos: state.default_ignore_eos,
        id_slot: None,
    }
}

/// Copies of texts.
fn copy_texts(v: &Option<Vec<String>>) -> (r: Vec<String>)
    ensures
        texts(r@) == match v {
            Some(l) => texts(l@),
            None => seq![],
        },
{
    let mut out: Vec<String> = Vec::new();
    assert(texts(out@) =~= seq![]);
    if let Some(l) = v {
        let mut i: usize = 0;
        while i < l.len()
            invariant
                i <= l@.len(),
                texts(out@) == texts(l@.take(i as int)),
            decreases l@.len() - i,
        {
            let ghost before = out@;
            out.push(String::from_str(l[i].as_str()));
            proof {
                assert(texts(out@) =~= texts(before).push(l@[i as int]@));
                assert(texts(l@.take(i + 1)) =~= texts(l@.take(i as int)).push(l@[i as int]@));
            }
            i += 1;
        }
        assert(l@.take(i as int) =~= l@);
    }
    out
}

/// The turns of a message request, or why it is refused.
pub fn messages_turns(
    loaded: bool,
    system: &Option<Json>,
    messages: &[MessagesInputMessage],
) -> (r: Result<Vec<ChatMessage>, Refusal>)
    ensures
        if !loaded {
            r == Err::<Vec<ChatMessage>, _>(Refusal::NoModel)
        } else {
            match anthropic_turns(*system, messages@, messages@.len() as int) {
                Ok(t) => r matches Ok(v) && turns(v@) == t,
                Err(f) => r matches Err(e) && refuses(e, f),
            }
        },
{
    if !loaded {
        return Err(Refusal::NoModel);
    }
    match anthropic_to_chat(system, messages) {
        Ok(v) => Ok(v),
        Err(e) => Err(Refusal::Convert(e)),
    }
}

/// The turns that a template is asked to render, or why the request is refused.
pub fn template_turns<F>(state: &AppState<F>, messages: &[Json]) -> (r: Result<
    Vec<ChatMessage>,
    Refusal,
>)
    ensures
        match state.tokenizer {
            Some(b) if b.chat_template is Some => match value_turns(
                messages@,
                messages@.len() as int,
            ) {
                Ok(t) => r matches Ok(v) && turns(v@) == t,
                Err(f) => r matches Err(e) && refuses(e, f),
            },
            _ => r == Err::<Vec<ChatMessage>, _>(Refusal::NoModel),
        },
{
    if state.chat_template().is_none() {
        return Err(Refusal::NoModel);
    }
    match value_messages_to_chat(messages) {
        Ok(v) => Ok(v),
        Err(e) => Err(Refusal::Convert(e)),
    }
}

/// The settings of a message generation.
pub fn messages_config<F: Copy>(state: &AppState<F>, req: &MessagesRequest<F>) -> (r: GenConfig<F>)
    ensures
        same_sampler(
            r.sampler,
            SamplerConfig {
                temperature: chosen(req.temperature, state.default_sampler.temperature),
                top_p: chosen(req.top_p, state.default_sampler.top_p),
                top_k: chosen(req.top_k, state.default_sampler.top_k),
                ..state.default_sampler
            },
        ),
        r.max_tokens == chosen(req.max_tokens, state.default_max_tokens),
        texts(r.stop@) == match req.stop_sequences {
            Some(l) => texts(l@),
            None => seq![],
        },
        r.ignore_eos == state.default_ignore_eos,
        r.id_slot is None,
{
    let mut sampler = copy_sampler(&state.default_sampler);
    sampler.temperature = choose_value(req.temperature, state.default_sampler.temperature);
    sampler.top_p = choose_value(req.top_p, state.default_sampler.top_p);
    sampler.top_k = choose_value(req.top_k, state.default_sampler.top_k);
    GenConfig {
        sampler,
        max_tokens: choose_value(req.max_tokens, state.default_max_tokens),
        stop: copy_texts(&req.stop_sequences),
        ignore_eos: state.default_ignore_eos,
        id_slot: None,
    }
}

/// Tokens to generate: as many as asked for, the server's number where none or no
/// positive number was.
pub open spec fn predict_limit(n_predict: Option<i32>, default: u32) -> u32 {
    match n_predict {
        Some(n) => if n > 0 {
            n as u32
        } else {
            default
        },
        None => default,
    }
}

/// Tokens to generate.
pub fn limit_tokens(n_predict: Option<i32>, default: u32) -> (r: u32)
    ensures
        r == predict_limit(n_predict, default),
        r == default || n_predict == Some(r as i32) && r > 0,
        n_predict matches Some(n) ==> (n > 0 ==> r == n) && (n <= 0 ==> r == default),
{
    match n_predict {
        Some(n) if n > 0 => n as u32,
        _ => default,
    }
}

/// The cache slot that a native request pins, if it names one.
pub open spec fn pinned_slot(id_slot: Option<i32>) -> Option<usize> {
    match id_slot {
        Some(n) => if n >= 0 {
            Some(n as usize)
        } else {
            None
        },
        None => None,
    }
}

/// The settings of a native completion.
pub fn native_config<F: Copy>(state: &AppState<F>, req: &llama::CompletionRequest<F>) -> (r:
    GenConfig<F>)
    ensures
        same_sampler(
            r.sampler,
            SamplerConfig {
                temperature: chosen(req.temperature, state.default_sampler.temperature),
                ..state.default_sampler
            },
        ),
        r.max_tokens == predict_limit(req.n_predict, state.default_max_tokens),
        texts(r.stop@) == match req.stop {
            Some(l) => texts(l@),
            None => seq![],
        },
        r.ignore_eos == state.default_ignore_eos,
        r.id_slot == pinned_slot(req.id_slot),
        match req.id_slot {
            Some(n) if n >= 0 => r.id_slot == Some(n as usize),
            _ => r.id_slot is None,
        },
        match req.n_predict {
            Some(n) if n > 0 => r.max_tokens == n,
            _ => r.max_tokens == state.default_max_tokens,
        },
        req.temperature matches Some(t) ==> r.sampler.temperature == t,
        req.temperature is None ==> r.sampler.temperature == state.default_sampler.temperature,
{
    let mut sampler = copy_sampler(&state.default_sampler);
    sampler.temperature = choose_value(req.temperature, state.default_sampler.temperature);
    let id_slot: Option<usize> = match req.id_slot {
        Some(n) if n >= 0 => Some(n as usize),
        _ => None,
    };
    GenConfig {
        sampler,
        max_tokens: limit_tokens(req.n_predict, state.default_max_tokens),
        stop: copy_texts(&req.stop),
        ignore_eos: state.default_ignore_eos,
        id_slot,
    }
}

/// The settings of a fill-in.
pub fn infill_config<F: Copy>(state: &AppState<F>, req: &InfillRequest) -> (r: GenConfig<F>)
    ensures
        same_sampler(r.sampler, state.default_sampler),
        r.max_tokens == predict_limit(req.n_predict, state.default_max_tokens),
        r.stop@.len() == 0,
        r.ignore_eos == state.default_ignore_eos,
        r.id_slot is None,
{
    GenConfig {
        sampler: copy_sampler(&state.default_sampler),
        max_tokens: limit_tokens(req.n_predict, state.default_max_tokens),
        stop: Vec::new(),
        ignore_eos: state.default_ignore_eos,
        id_slot: None,
    }
}

/// The tokens of three texts, where all three have one.
pub open spec fn triple(
    b: TokenizerBundle,
    p: Seq<char>,
    s: Seq<char>,
    m: Seq<char>,
) -> Option<(u32, u32, u32)> {
    match (id_of(&b.tokenizer@, p), id_of(&b.tokenizer@, s), id_of(&b.tokenizer@, m)) {
        (Some(pi), Some(si), Some(mi)) => Some((pi, si, mi)),
        _ => None,
    }
}

/// The tokens that mark prefix, suffix and middle: the first known spelling that
/// the tokenizer has all three of.
pub open spec fn fim_tokens(b: TokenizerBundle) -> Option<(u32, u32, u32)> {
    if triple(b, "<|fim_prefix|>"@, "<|fim_suffix|>"@, "<|fim_middle|>"@) is Some {
        triple(b, "<|fim_prefix|>"@, "<|fim_suffix|>"@, "<|fim_middle|>"@)
    } else if triple(b, "<PRE>"@, "<SUF>"@, "<MID>"@) is Some {
        triple(b, "<PRE>"@, "<SUF>"@, "<MID>"@)
    } else {
        triple(b, "<fim_prefix>"@, "<fim_suffix>"@, "<fim_middle>"@)
    }
}

/// These are the tokens of prefix, suffix and middle in this spelling.
pub open spec fn spells(
    b: TokenizerBundle,
    prefix: u32,
    suffix: u32,
    middle: u32,
    p: Seq<char>,
    s: Seq<char>,
    m: Seq<char>,
) -> bool {
    &&& id_of(&b.tokenizer@, p) == Some(prefix)
    &&& id_of(&b.tokenizer@, s) == Some(suffix)
    &&& id_of(&b.tokenizer@, m) == Some(middle)
}

/// The tokens of three texts, where all three have one.
fn find_triple(b: &TokenizerBundle, p: &str, s: &str, m: &str) -> (r: Option<(u32, u32, u32)>)
    ensures
        r == triple(*b, p@, s@, m@),
{
    match (
        token_to_id(b.tokenizer.get(), p),
        token_to_id(b.tokenizer.get(), s),
        token_to_id(b.tokenizer.get(), m),
    ) {
        (Some(pi), Some(si), Some(mi)) => Some((pi, si, mi)),
        _ => None,
    }
}

/// The tokens that mark prefix, suffix and middle.
pub fn find_fim(b: &TokenizerBundle) -> (r: Option<(u32, u32, u32)>)
    ensures
        r == fim_tokens(*b),
        ({
            let knows = |p: Seq<char>, s: Seq<char>, m: Seq<char>|
                id_of(&b.tokenizer@, p) is Some && id_of(&b.tokenizer@, s) is Some && id_of(
                    &b.tokenizer@,
                    m,
                ) is Some;
            match r {
                Some((p, s, m)) => {
                    ||| spells(*b, p, s, m, "<|fim_prefix|>"@, "<|fim_suffix|>"@, "<|fim_middle|>"@)
                    ||| !knows("<|fim_prefix|>"@, "<|fim_suffix|>"@, "<|fim_middle|>"@) && spells(
                        *b,
                        p,
                        s,
                        m,
                        "<PRE>"@,
                        "<SUF>"@,
                        "<MID>"@,
                    )
                    ||| !knows("<|fim_prefix|>"@, "<|fim_suffix|>"@, "<|fim_middle|>"@) && !knows(
                        "<PRE>"@,
                        "<SUF>"@,
                        "<MID>"@,
                    ) && spells(
                        *b,
                        p,
                        s,
                        m,
                        "<fim_prefix>"@,
                        "<fim_suffix>"@,
                        "<fim_middle>"@,
                    )
                },
                None => !knows("<|fim_prefix|>"@, "<|fim_suffix|>"@, "<|fim_middle|>"@) && !knows(
                    "<PRE>"@,
                    "<SUF>"@,
                    "<MID>"@,
                ) && !knows("<fim_prefix>"@, "<fim_suffix>"@, "<fim_middle>"@),
            }
        }),
{
    match find_triple(b, "<|fim_prefix|>", "<|fim_suffix|>", "<|fim_middle|>") {
        Some(t) => Some(t),
        None => match find_triple(b, "<PRE>", "<SUF>", "<MID>") {
            Some(t) => Some(t),
            None => find_triple(b, "<fim_prefix>", "<fim_suffix>", "<fim_middle>"),
        },
    }
}

/// A fill-in prompt of these tokens: prefix, suffix, middle.
pub open spec fn infill_order(
    marks: (u32, u32, u32),
    prefix: Seq<u32>,
    suffix: Seq<u32>,
) -> Seq<u32> {
    seq![marks.0] + prefix + seq![marks.1] + suffix + seq![marks.2]
}

/// The prefix follows its mark, the suffix its own, and the mark of the middle comes
/// last.
pub open spec fn laid_out(
    v: Seq<u32>,
    marks: (u32, u32, u32),
    prefix: Seq<u32>,
    suffix: Seq<u32>,
) -> bool {
    let p = prefix.len() as int;
    let s = suffix.len() as int;
    &&& v.len() == p + s + 3
    &&& v[0] == marks.0
    &&& v.subrange(1, 1 + p) == prefix
    &&& v[1 + p] == marks.1
    &&& v.subrange(2 + p, 2 + p + s) == suffix
    &&& v.last() == marks.2
}

/// A fill-in prompt of these tokens.
pub fn assemble_infill(marks: (u32, u32, u32), prefix: &[u32], suffix: &[u32]) -> (r: Vec<u32>)
    ensures
        r@ == infill_order(marks, prefix@, suffix@),
        laid_out(r@, marks, prefix@, suffix@),
{
    let mut tokens: Vec<u32> = Vec::new();
    tokens.push(marks.0);
    tokens.extend_from_slice(prefix);
    tokens.push(marks.1);
    tokens.extend_from_slice(suffix);
    tokens.push(marks.2);
    assert(tokens@ =~= infill_order(marks, prefix@, suffix@));
    proof {
        let p = prefix@.len() as int;
        assert(tokens@.subrange(1, 1 + p) =~= prefix@);
        assert(tokens@.subrange(2 + p, 2 + p + suffix@.len()) =~= suffix@);
    }
    tokens
}

/// The text of an optional string; none is an empty text.
pub open spec fn text_or_empty(s: Option<String>) -> Seq<char> {
    match s {
        Some(t) => t@,
        None => ""@,
    }
}

/// Borrow an optional string; none is an empty text.
fn borrow_or_empty(s: &Option<String>) -> (r: &str)
    ensures
        r@ == text_or_empty(*s),
{
    match s {
        Some(t) => t.as_str(),
        None => "",
    }
}

/// The prompt of a fill-in request, or why it is refused.
pub fn infill_prompt<F>(state: &AppState<F>, loaded: bool, req: &InfillRequest) -> (r: Result<
    Vec<u32>,
    Refusal,
>)
    requires
        loaded && (state.tokenizer matches Some(b) && fim_tokens(b) is Some) ==> takes_texts(state),
    ensures
        if !loaded {
            r == Err::<Vec<u32>, _>(Refusal::NoModel)
        } else {
            match state.tokenizer {
                None => r == Err::<Vec<u32>, _>(Refusal::NoModel),
                Some(b) => match fim_tokens(b) {
                    None => r == Err::<Vec<u32>, _>(Refusal::NoInfill),
                    Some(marks) => match text_tokens(b, text_or_empty(req.input_prefix), false) {
                        Err(f) => r matches Err(e) && refuses(e, f),
                        Ok(p) => match text_tokens(b, text_or_empty(req.input_suffix), false) {
                            Err(f) => r matches Err(e) && refuses(e, f),
                            Ok(s) => r matches Ok(v) && v@ == infill_order(marks, p, s),
                        },
                    },
                },
            }
        },
        r matches Ok(v) ==> (state.tokenizer matches Some(b) && match (
            fim_tokens(b),
            encoded(&b.tokenizer@, text_or_empty(req.input_prefix), false),
            encoded(&b.tokenizer@, text_or_empty(req.input_suffix), false),
        ) {
            (Some(marks), Ok(p), Ok(s)) => laid_out(v@, marks, p, s),
            _ => false,
        }),
{
    if !loaded {
        return Err(Refusal::NoModel);
    }
    let b = match state.tokenizer() {
        Some(b) => b,
        None => {
            return Err(Refusal::NoModel);
        },
    };
    let marks = match find_fim(b) {
        Some(t) => t,
        None => {
            return Err(Refusal::NoInfill);
        },
    };
    let prefix = match encode(b, borrow_or_empty(&req.input_prefix), false) {
        Ok(ids) => ids,
        Err(e) => {
            return Err(Refusal::Convert(e));
        },
    };
    let suffix = match encode(b, borrow_or_empty(&req.input_suffix), false) {
        Ok(ids) => ids,
        Err(e) => {
            return Err(Refusal::Convert(e));
        },
    };
    Ok(assemble_infill(marks, prefix.as_slice(), suffix.as_slice()))
}

/// The tokens of a text, or why the request is refused.
pub fn tokenize<F>(state: &AppState<F>, req: &llama::TokenizeRequest) -> (r: Result<
    TokenizeResponse,
    Refusal,
>)
    requires
        takes_texts(state),
    ensures
        match state.tokenizer {
            None => r == Err::<TokenizeResponse, _>(Refusal::NoModel),
            Some(b) => match text_tokens(
                b,
                text_or_empty(req.content),
                chosen(req.add_special, false),
            ) {
                Ok(ids) => r matches Ok(t) && t.tokens@ == ids,
                Err(f) => r matches Err(e) && refuses(e, f),
            },
        },
        r matches Ok(t) ==> (state.tokenizer matches Some(b) && encoded(
            &b.tokenizer@,
            match req.content {
                Some(s) => s@,
                None => ""@,
            },
            req.add_special == Some(true),
        ) == Ok::<Seq<u32>, Seq<char>>(t.tokens@)),
{
    let b = match state.tokenizer() {
        Some(b) => b,
        None => {
            return Err(Refusal::NoModel);
        },
    };
    match encode(b, borrow_or_empty(&req.content), choose_value(req.add_special, false)) {
        Ok(ids) => Ok(TokenizeResponse::ids(ids)),
        Err(e) => Err(Refusal::Convert(e)),
    }
}

/// The text of tokens; none where they cannot be decoded.
pub open spec fn ids_text(b: TokenizerBundle, ids: Seq<u32>) -> Seq<char> {
    match decoded(&b.tokenizer@, ids, false) {
        Ok(t) => t,
        Err(_) => ""@,
    }
}

/// A decoded text, or an empty one where decoding failed.
pub fn text_or_none(r: Result<String, String>) -> (t: String)
    ensures
        t@ == match r {
            Ok(s) => s@,
            Err(_) => ""@,
        },
{
    match r {
        Ok(s) => s,
        Err(_) => String::from_str(""),
    }
}

/// Tokens with their texts.
pub fn pieces(b: &TokenizerBundle, ids: &[u32]) -> (r: TokenizePieces)
    ensures
        r.tokens@.len() == ids@.len(),
        forall|i: int|
            0 <= i < ids@.len() ==> (#[trigger] r.tokens@[i]).id == ids@[i] && r.tokens@[i].piece@
                == ids_text(*b, seq![ids@[i]]),
{
    let mut tokens: Vec<TokenPiece> = Vec::new();
    let mut i: usize = 0;
    while i < ids.len()
        invariant
            i <= ids@.len(),
            tokens@.len() == i,
            forall|k: int|
                0 <= k < i ==> (#[trigger] tokens@[k]).id == ids@[k] && tokens@[k].piece@
                    == ids_text(*b, seq![ids@[k]]),
        decreases ids@.len() - i,
    {
        let id: u32 = ids[i];
        let mut single: Vec<u32> = Vec::new();
        single.push(id);
        assert(single@ =~= seq![ids@[i as int]]);
        let piece = text_or_none(decode_ids(b.tokenizer.get(), single.as_slice(), false));
        tokens.push(TokenPiece { id, piece });
        i += 1;
    }
    TokenizePieces { tokens }
}

/// A reply to a request for tokens.
#[derive(Debug)]
pub enum TokenizeReply {
    /// The ids alone.
    Ids(TokenizeResponse),
    /// The ids with their texts.
    Pieces(TokenizePieces),
}

/// The reply to a request whose tokens these are.
pub fn tokenize_reply(b: &TokenizerBundle, found: TokenizeResponse, with_pieces: Option<bool>) -> (r:
    TokenizeReply)
    ensures
        if chosen(with_pieces, false) {
            r matches TokenizeReply::Pieces(p) && p.tokens@.len() == found.tokens@.len() && forall|
                i: int,
            |
                0 <= i < found.tokens@.len() ==> (#[trigger] p.tokens@[i]).id == found.tokens@[i]
                    && p.tokens@[i].piece@ == ids_text(*b, seq![found.tokens@[i]])
        } else {
            r == TokenizeReply::Ids(found)
        },
{
    if choose_value(with_pieces, false) {
        TokenizeReply::Pieces(pieces(b, found.tokens.as_slice()))
    } else {
        TokenizeReply::Ids(found)
    }
}

/// The text of tokens, special ones included, or why the request is refused.
pub fn detokenize<F>(state: &AppState<F>, tokens: &[u32]) -> (r: Result<
    DetokenizeResponse,
    Refusal,
>)
    ensures
        match state.tokenizer {
            None => r == Err::<DetokenizeResponse, _>(Refusal::NoModel),
            Some(b) => r matches Ok(t) && t.content@ == ids_text(b, tokens@),
        },
        r matches Ok(t) ==> (state.tokenizer matches Some(b) && match decoded(
            &b.tokenizer@,
            tokens@,
            false,
        ) {
            Ok(s) => t.content@ == s,
            Err(_) => t.content@.len() == 0,
        }),
{
    proof {
        reveal_strlit("");
    }
    match state.tokenizer() {
        None => Err(Refusal::NoModel),
        Some(b) => Ok(
            DetokenizeResponse {
                content: text_or_none(decode_ids(b.tokenizer.get(), tokens, false)),
            },
        ),
    }
}

/// Token counts of a reply.
pub fn usage(prompt_tokens: u32, completion_tokens: u32) -> (r: Usage)
    requires
        prompt_tokens + completion_tokens <= u32::MAX,
    ensures
        r.prompt_tokens == prompt_tokens,
        r.completion_tokens == completion_tokens,
        r.total_tokens == prompt_tokens + completion_tokens,
{
    Usage {
        prompt_tokens,
        completion_tokens,
        total_tokens: prompt_tokens + completion_tokens,
    }
}

/// A chat reply.
pub fn chat_response(id: String, created: i64, model: String, out: GenOutput) -> (r:
    ChatCompletionResponse)
    requires
        out.prompt_tokens + out.completion_tokens <= u32::MAX,
    ensures
        r.id == id,
        r.object@ == "chat.completion"@,
        r.created == created,
        r.model == model,
        r.choices@.len() == 1,
        r.choices@[0].index == 0,
        r.choices@[0].message.role@ == "assistant"@,
        tree(r.choices@[0].message.content) == Tree::Text(out.text@),
        r.choices@[0].message.name is None,
        r.choices@[0].message.tool_call_id is None,
        r.choices@[0].finish_reason@ == finish_text(out.stop_reason),
        r.usage == (Usage {
            prompt_tokens: out.prompt_tokens,
            completion_tokens: out.completion_tokens,
            total_tokens: (out.prompt_tokens + out.completion_tokens) as u32,
        }),
{
    let finish_reason = out.stop_reason.openai_finish();
    let mut choices: Vec<ChatChoice> = Vec::new();
    choices.push(
        ChatChoice {
            index: 0,
            message: openai::ChatMessage {
                role: String::from_str("assistant"),
                content: Json::String(out.text),
                name: None,
                tool_call_id: None,
            },
            finish_reason,
        },
    );
    ChatCompletionResponse {
        id,
        object: "chat.completion",
        created,
        model,
        choices,
        usage: usage(out.prompt_tokens, out.completion_tokens),
    }
}

/// A completion.
pub fn completion_response(id: String, created: i64, model: String, out: GenOutput) -> (r:
    CompletionResponse)
    requires
        out.prompt_tokens + out.completion_tokens <= u32::MAX,
    ensures
        r.id == id,
        r.object@ == "text_completion"@,
        r.created == created,
        r.model == model,
        r.choices@.len() == 1,
        r.choices@[0].index == 0,
        r.choices@[0].text == out.text,
        r.choices@[0].finish_reason@ == finish_text(out.stop_reason),
        r.choices@[0].logprobs is None,
        r.usage == (Usage {
            prompt_tokens: out.prompt_tokens,
            completion_tokens: out.completion_tokens,
            total_tokens: (out.prompt_tokens + out.completion_tokens) as u32,
        }),
{
    let finish_reason = out.stop_reason.openai_finish();
    let mut choices: Vec<CompletionChoice> = Vec::new();
    choices.push(CompletionChoice { index: 0, text: out.text, finish_reason, logprobs: None });
    CompletionResponse {
        id,
        object: "text_completion",
        created,
        model,
        choices,
        usage: usage(out.prompt_tokens, out.completion_tokens),
    }
}

/// A message reply.
pub fn messages_response(id: String, model: String, out: GenOutput) -> (r: MessagesResponse)
    ensures
        r.id == id,
        r.kind@ == "message"@,
        r.role@ == "assistant"@,
        r.model == model,
        r.content@.len() == 1,
        r.content@[0] == (ContentBlock::Text { text: out.text }),
        r.stop_reason@ == reason_text(out.stop_reason),
        match matched_text(out.stop_reason) {
            Some(s) => r.stop_sequence matches Some(t) && t@ == s,
            None => r.stop_sequence is None,
        },
        r.usage == (AnthropicUsage {
            input_tokens: out.prompt_tokens,
            output_tokens: out.completion_tokens,
        }),
{
    let stop_reason = out.stop_reason.anthropic_reason();
    let stop_sequence = match out.stop_reason.matched_sequence() {
        Some(s) => Some(String::from_str(s)),
        None => None,
    };
    let usage = AnthropicUsage {
        input_tokens: out.prompt_tokens,
        output_tokens: out.completion_tokens,
    };
    let mut content: Vec<ContentBlock> = Vec::new();
    content.push(ContentBlock::Text { text: out.text });
    MessagesResponse {
        id,
        kind: "message",
        role: "assistant",
        model,
        content,
        stop_reason,
        stop_sequence,
        usage,
    }
}

/// A native completion.
pub fn native_response(model: String, out: GenOutput) -> (r: llama::CompletionResponse)
    ensures
        r.content == out.text,
        r.stop,
        r.model == model,
        r.tokens_predicted == out.completion_tokens,
        r.tokens_evaluated == out.prompt_tokens,
{
    llama::CompletionResponse {
        content: out.text,
        stop: true,
        model,
        tokens_predicted: out.completion_tokens,
        tokens_evaluated: out.prompt_tokens,
    }
}

/// The token count of a prompt.
pub fn count_response(tokens: &[u32]) -> (r: CountTokensResponse)
    ensures
        r.input_tokens == tokens@.len() as u32,
{
    CountTokensResponse { input_tokens: #[verifier::truncate] (tokens.len() as u32) }
}

/// The models that are served: the loaded one, if there is one.
pub fn model_list<F>(state: &AppState<F>) -> (r: ModelListResponse)
    ensures
        r.object@ == "list"@,
        state.tokenizer is None ==> r.data@.len() == 0,
        state.tokenizer is Some ==> {
            &&& r.data@.len() == 1
            &&& r.data@[0].id@ == state.model_id@
            &&& r.data@[0].object@ == "model"@
            &&& r.data@[0].created == 0
            &&& r.data@[0].owned_by@ == "seeker"@
        },
{
    let mut data: Vec<Model> = Vec::new();
    if state.tokenizer().is_some() {
        data.push(
            Model {
                id: String::from_str(state.model_id.as_str()),
                object: "model",
                created: 0,
                owned_by: String::from_str("seeker"),
            },
        );
    }
    ModelListResponse { object: "list", data }
}

/// The same text, if there is one.
fn copy_text(s: Option<&str>) -> (r: Option<String>)
    ensures
        match s {
            Some(t) => r matches Some(c) && c@ == t@,
            None => r is None,
        },
{
    match s {
        Some(t) => Some(String::from_str(t)),
        None => None,
    }
}

/// What the server runs with.
pub fn props_response<F>(state: &AppState<F>, build_info: &'static str, settings: Json) -> (r:
    PropsResponse)
    ensures
        match state.model_path {
            Some(p) => r.model_path matches Some(c) && c@ == p@,
            None => r.model_path is None,
        },
        match state.tokenizer {
            Some(b) => match b.chat_template {
                Some(t) => r.chat_template matches Some(c) && c@ == t@,
                None => r.chat_template is None,
            },
            None => r.chat_template is None,
        },
        r.build_info == build_info,
        r.default_generation_settings == settings,
        r.total_slots == state.n_slots,
{
    PropsResponse {
        model_path: copy_text(state.model_path()),
        chat_template: copy_text(state.chat_template()),
        build_info,
        default_generation_settings: settings,
        total_slots: state.n_slots,
    }
}

/// The cache slots, each shown as idle.
pub fn slot_list(n_slots: u32) -> (r: Vec<SlotState>)
    ensures
        r@.len() == n_slots,
        forall|i: int|
            0 <= i < n_slots ==> (#[trigger] r@[i]).id == i && !r@[i].is_processing
                && r@[i].prompt@.len() == 0,
{
    let mut slots: Vec<SlotState> = Vec::new();
    let mut id: u32 = 0;
    while id < n_slots
        invariant
            id <= n_slots,
            slots@.len() == id,
            forall|i: int|
                0 <= i < id ==> (#[trigger] slots@[i]).id == i && !slots@[i].is_processing
                    && slots@[i].prompt@.len() == 0,
        decreases n_slots - id,
    {
        slots.push(SlotState { id, is_processing: false, prompt: String::new() });
        id += 1;
    }
    slots
}

} // verus!
