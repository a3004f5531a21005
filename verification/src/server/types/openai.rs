//! Bodies of the OpenAI-compatible surface.
use vstd::prelude::*;
use vstd::string::*;

use crate::json::Json;
use crate::server::inference::SamplerConfig;
use crate::server::types::common::Usage;

verus! {

/// A chat request.
pub struct ChatCompletionRequest<F> {
    pub model: Option<String>,
    pub messages: Vec<ChatMessage>,
    pub stream: Option<bool>,
    pub max_tokens: Option<u32>,
    pub temperature: Option<F>,
    pub top_p: Option<F>,
    pub top_k: Option<u32>,
    pub min_p: Option<F>,
    pub presence_penalty: Option<F>,
    pub frequency_penalty: Option<F>,
    pub repeat_penalty: Option<F>,
    pub repeat_last_n: Option<usize>,
    pub seed: Option<u64>,
    pub n: Option<u32>,
    pub stop: Option<Json>,
    pub user: Option<String>,
    pub tools: Option<Json>,
    pub tool_choice: Option<Json>,
    pub response_format: Option<Json>,
}

/// The value of a request where it has one, that of the server otherwise.
pub open spec fn chosen<T>(asked: Option<T>, base: T) -> T {
    match asked {
        Some(v) => v,
        None => base,
    }
}

/// The value of a request where it has one, that of the server otherwise.
pub fn choose_value<T: Copy>(asked: Option<T>, base: T) -> (r: T)
    ensures
        r == chosen(asked, base),
{
    match asked {
        Some(v) => v,
        None => base,
    }
}

/// A copy of token biases.
fn copy_bias<F: Copy>(bias: &Vec<(u32, F)>) -> (r: Vec<(u32, F)>)
    ensures
        r@ == bias@,
{
    let mut out: Vec<(u32, F)> = Vec::new();
    let mut i: usize = 0;
    while i < bias.len()
        invariant
            i <= bias@.len(),
            out@ == bias@.take(i as int),
        decreases bias@.len() - i,
    {
        out.push(bias[i]);
        assert(out@ =~= bias@.take(i + 1));
        i += 1;
    }
    assert(out@ =~= bias@);
    out
}

/// Two sampler settings agree.
pub open spec fn same_sampler<F>(a: SamplerConfig<F>, b: SamplerConfig<F>) -> bool {
    &&& a == (SamplerConfig { logit_bias: a.logit_bias, ..b })
    &&& a.logit_bias@ == b.logit_bias@
}

/// A copy of sampler settings.
pub fn copy_sampler<F: Copy>(base: &SamplerConfig<F>) -> (r: SamplerConfig<F>)
    ensures
        same_sampler(r, *base),
{
    SamplerConfig {
        temperature: base.temperature,
        top_k: base.top_k,
        top_p: base.top_p,
        min_p: base.min_p,
        presence_penalty: base.presence_penalty,
        frequency_penalty: base.frequency_penalty,
        repeat_penalty: base.repeat_penalty,
        penalty_last_n: base.penalty_last_n,
        seed: base.seed,
        logit_bias: copy_bias(&base.logit_bias),
    }
}

impl<F: Copy> ChatCompletionRequest<F> {
    /// The sampler settings of this request: what it leaves out is the server's,
    /// and token biases always are.
    pub fn sampler_config(&self, base: &SamplerConfig<F>) -> (r: SamplerConfig<F>)
        ensures
            same_sampler(
                r,
                SamplerConfig {
                    temperature: chosen(self.temperature, base.temperature),
                    top_k: chosen(self.top_k, base.top_k),
                    top_p: chosen(self.top_p, base.top_p),
                    min_p: chosen(self.min_p, base.min_p),
                    presence_penalty: chosen(self.presence_penalty, base.presence_penalty),
                    frequency_penalty: chosen(self.frequency_penalty, base.frequency_penalty),
                    repeat_penalty: chosen(self.repeat_penalty, base.repeat_penalty),
                    penalty_last_n: chosen(self.repeat_last_n, base.penalty_last_n),
                    seed: chosen(self.seed, base.seed),
                    logit_bias: base.logit_bias,
                },
            ),
    {
        SamplerConfig {
            temperature: choose_value(self.temperature, base.temperature),
            top_k: choose_value(self.top_k, base.top_k),
            top_p: choose_value(self.top_p, base.top_p),
            min_p: choose_value(self.min_p, base.min_p),
            presence_penalty: choose_value(self.presence_penalty, base.presence_penalty),
            frequency_penalty: choose_value(self.frequency_penalty, base.frequency_penalty),
            repeat_penalty: choose_value(self.repeat_penalty, base.repeat_penalty),
            penalty_last_n: choose_value(self.repeat_last_n, base.penalty_last_n),
            seed: choose_value(self.seed, base.seed),
            logit_bias: copy_bias(&base.logit_bias),
        }
    }
}

impl<F> Default for ChatCompletionRequest<F> {
    /// A request that leaves everything out.
    fn default() -> (r: Self)
        ensures
            r.messages@.len() == 0,
            r.temperature is None && r.top_p is None && r.top_k is None && r.min_p is None,
            r.presence_penalty is None && r.frequency_penalty is None,
            r.repeat_penalty is None && r.repeat_last_n is None && r.seed is None,
            r.model is None && r.stream is None && r.max_tokens is None && r.n is None,
            r.stop is None && r.user is None && r.tools is None && r.tool_choice is None,
            r.response_format is None,
    {
        ChatCompletionRequest {
            model: None,
            messages: Vec::new(),
            stream: None,
            max_tokens: None,
            temperature: None,
            top_p: None,
            top_k: None,
            min_p: None,
            presence_penalty: None,
            frequency_penalty: None,
            repeat_penalty: None,
            repeat_last_n: None,
            seed: None,
            n: None,
            stop: None,
            user: None,
            tools: None,
            tool_choice: None,
            response_format: None,
        }
    }
}

/// A turn of a conversation.
#[derive(Debug)]
pub struct ChatMessage {
    pub role: String,
    pub content: Json,
    pub name: Option<String>,
    pub tool_call_id: Option<String>,
}

/// A chat reply.
#[derive(Debug)]
pub struct ChatCompletionResponse {
    pub id: String,
    pub object: &'static str,
    pub created: i64,
    pub model: String,
    pub choices: Vec<ChatChoice>,
    pub usage: Usage,
}

/// One of a chat reply's messages.
#[derive(Debug)]
pub struct ChatChoice {
    pub index: u32,
    pub message: ChatMessage,
    pub finish_reason: &'static str,
}

/// A completion request.
pub struct CompletionRequest<F> {
    pub model: Option<String>,
    pub prompt: Option<Json>,
    pub max_tokens: Option<u32>,
    pub temperature: Option<F>,
    pub stream: Option<bool>,
    pub n: Option<u32>,
    pub stop: Option<Json>,
    pub suffix: Option<String>,
}

impl<F: Copy> CompletionRequest<F> {
    /// The sampler settings of this request: the server's, with the request's
    /// temperature where it has one.
    pub fn sampler_config(&self, base: &SamplerConfig<F>) -> (r: SamplerConfig<F>)
        ensures
            same_sampler(
                r,
                SamplerConfig { temperature: chosen(self.temperature, base.temperature), ..*base },
            ),
    {
        let mut r = copy_sampler(base);
        r.temperature = choose_value(self.temperature, base.temperature);
        r
    }
}

impl<F> Default for CompletionRequest<F> {
    /// A request that leaves everything out.
    fn default() -> (r: Self)
        ensures
            r.model is None && r.prompt is None && r.max_tokens is None && r.temperature is None,
            r.stream is None && r.n is None && r.stop is None && r.suffix is None,
    {
        CompletionRequest {
            model: None,
            prompt: None,
            max_tokens: None,
            temperature: None,
            stream: None,
            n: None,
            stop: None,
            suffix: None,
        }
    }
}

/// A completion.
#[derive(Debug)]
pub struct CompletionResponse {
    pub id: String,
    pub object: &'static str,
    pub created: i64,
    pub model: String,
    pub choices: Vec<CompletionChoice>,
    pub usage: Usage,
}

/// One of a completion's texts.
#[derive(Debug)]
pub struct CompletionChoice {
    pub index: u32,
    pub text: String,
    pub finish_reason: &'static str,
    pub logprobs: Option<Json>,
}

/// The models that are served.
#[derive(Debug)]
pub struct ModelListResponse {
    pub object: &'static str,
    pub data: Vec<Model>,
}

/// A model that is served.
#[derive(Debug)]
pub struct Model {
    pub id: String,
    pub object: &'static str,
    pub created: i64,
    pub owned_by: String,
}

} // verus!
