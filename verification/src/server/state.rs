//! What outlives a request: the tokenizer, and what the server was started with.
use vstd::prelude::*;
use vstd::string::*;

use crate::json::Json;
use crate::server::inference::SamplerConfig;
use crate::tokenizer::bundle::TokenizerBundle;

verus! {

/// How images are cut up for the vision encoder.
pub struct VisionConfig<F> {
    pub patch_size: u32,
    /// Patches a side that become one token.
    pub spatial_merge_size: u32,
    pub image_mean: Vec<F>,
    pub image_std: Vec<F>,
}

/// How audio is cut up for the audio encoder.
#[derive(Clone, Copy, Debug)]
pub struct AudioConfig {
    /// Samples that become one token.
    pub frame_size: u32,
}

/// What requests are answered with.
pub struct AppState<F> {
    /// The tokenizer and its template; none until a model is loaded.
    pub tokenizer: Option<TokenizerBundle>,
    /// Values that every template is given.
    pub template_kwargs: Vec<(String, Json)>,
    pub default_sampler: SamplerConfig<F>,
    pub default_max_tokens: u32,
    pub default_ignore_eos: bool,
    pub default_system_prompt: Option<String>,
    pub ctx_size: u32,
    pub n_slots: u32,
    pub model_id: String,
    pub model_path: Option<String>,
    pub vision_config: Option<VisionConfig<F>>,
    pub audio_config: Option<AudioConfig>,
}

/// What the state is made from once a model is loaded.
pub struct AppStateInit<F> {
    pub tokenizer: TokenizerBundle,
    pub template_kwargs: Vec<(String, Json)>,
    pub default_sampler: SamplerConfig<F>,
    pub default_max_tokens: u32,
    pub default_ignore_eos: bool,
    pub default_system_prompt: Option<String>,
    pub ctx_size: u32,
    pub n_slots: u32,
    pub model_id: String,
    pub model_path: String,
    pub vision_config: Option<VisionConfig<F>>,
    pub audio_config: Option<AudioConfig>,
}

/// The text of an optional string.
pub open spec fn opt_string(s: Option<String>) -> Option<Seq<char>> {
    match s {
        Some(t) => Some(t@),
        None => None,
    }
}

/// A borrowed text is this one.
pub open spec fn is_text(r: Option<&str>, s: Option<String>) -> bool {
    match r {
        Some(t) => opt_string(s) == Some(t@),
        None => s is None,
    }
}

/// Borrow an optional string.
fn borrow(s: &Option<String>) -> (r: Option<&str>)
    ensures
        is_text(r, *s),
{
    match s {
        Some(t) => Some(t.as_str()),
        None => None,
    }
}

impl<F> AppState<F> {
    /// The state of a server with a loaded model.
    pub fn new(init: AppStateInit<F>) -> (r: Self)
        ensures
            r == (AppState {
                tokenizer: Some(init.tokenizer),
                template_kwargs: init.template_kwargs,
                default_sampler: init.default_sampler,
                default_max_tokens: init.default_max_tokens,
                default_ignore_eos: init.default_ignore_eos,
                default_system_prompt: init.default_system_prompt,
                ctx_size: init.ctx_size,
                n_slots: init.n_slots,
                model_id: init.model_id,
                model_path: Some(init.model_path),
                vision_config: init.vision_config,
                audio_config: init.audio_config,
            }),
    {
        AppState {
            tokenizer: Some(init.tokenizer),
            template_kwargs: init.template_kwargs,
            default_sampler: init.default_sampler,
            default_max_tokens: init.default_max_tokens,
            default_ignore_eos: init.default_ignore_eos,
            default_system_prompt: init.default_system_prompt,
            ctx_size: init.ctx_size,
            n_slots: init.n_slots,
            model_id: init.model_id,
            model_path: Some(init.model_path),
            vision_config: init.vision_config,
            audio_config: init.audio_config,
        }
    }

    /// The state of a server without a model.
    pub fn empty(default_sampler: SamplerConfig<F>) -> (r: Self)
        ensures
            r.tokenizer is None,
            r.template_kwargs@.len() == 0,
            r.default_sampler == default_sampler,
            r.default_max_tokens == 0,
            !r.default_ignore_eos,
            r.default_system_prompt is None,
            r.ctx_size == 0,
            r.n_slots == 0,
            r.model_id@ == Seq::<char>::empty(),
            r.model_path is None,
            r.vision_config is None,
            r.audio_config is None,
    {
        let model_id = String::new();
        assert(model_id@ =~= Seq::<char>::empty());
        AppState {
            tokenizer: None,
            template_kwargs: Vec::new(),
            default_sampler,
            default_max_tokens: 0,
            default_ignore_eos: false,
            default_system_prompt: None,
            ctx_size: 0,
            n_slots: 0,
            model_id,
            model_path: None,
            vision_config: None,
            audio_config: None,
        }
    }

    /// The vision encoder's settings, if there is one.
    pub fn vision_config(&self) -> (r: Option<&VisionConfig<F>>)
        ensures
            match r {
                Some(v) => self.vision_config == Some(*v),
                None => self.vision_config is None,
            },
    {
        self.vision_config.as_ref()
    }

    /// The audio encoder's settings, if there is one.
    pub fn audio_config(&self) -> (r: Option<AudioConfig>)
        ensures
            r == self.audio_config,
    {
        self.audio_config
    }

    /// The tokenizer, if a model is loaded.
    pub fn tokenizer(&self) -> (r: Option<&TokenizerBundle>)
        ensures
            match r {
                Some(b) => self.tokenizer == Some(*b),
                None => self.tokenizer is None,
            },
    {
        self.tokenizer.as_ref()
    }

    /// The model's chat template.
    pub fn chat_template(&self) -> (r: Option<&str>)
        ensures
            match self.tokenizer {
                Some(b) => is_text(r, b.chat_template),
                None => r is None,
            },
    {
        match &self.tokenizer {
            Some(b) => borrow(&b.chat_template),
            None => None,
        }
    }

    /// The text of the token that begins a sequence.
    pub fn bos_token(&self) -> (r: Option<&str>)
        ensures
            match self.tokenizer {
                Some(b) => is_text(r, b.bos_token),
                None => r is None,
            },
    {
        match &self.tokenizer {
            Some(b) => borrow(&b.bos_token),
            None => None,
        }
    }

    /// The text of the token that ends a sequence.
    pub fn eos_token(&self) -> (r: Option<&str>)
        ensures
            match self.tokenizer {
                Some(b) => is_text(r, b.eos_token),
                None => r is None,
            },
    {
        match &self.tokenizer {
            Some(b) => borrow(&b.eos_token),
            None => None,
        }
    }

    /// The server's system prompt.
    pub fn default_system_prompt(&self) -> (r: Option<&str>)
        ensures
            is_text(r, self.default_system_prompt),
    {
        borrow(&self.default_system_prompt)
    }

    /// The path of the model file.
    pub fn model_path(&self) -> (r: Option<&str>)
        ensures
            is_text(r, self.model_path),
    {
        borrow(&self.model_path)
    }

    /// Values that every template is given.
    pub fn template_kwargs(&self) -> (r: &[(String, Json)])
        ensures
            r@ == self.template_kwargs@,
    {
        self.template_kwargs.as_slice()
    }

    /// The sampling settings that requests change.
    pub fn default_sampler(&self) -> (r: &SamplerConfig<F>)
        ensures
            *r == self.default_sampler,
    {
        &self.default_sampler
    }

    /// Tokens to generate where a request does not say.
    pub fn default_max_tokens(&self) -> (r: u32)
        ensures
            r == self.default_max_tokens,
    {
        self.default_max_tokens
    }

    /// Whether generation goes on past the tokens that end it.
    pub fn default_ignore_eos(&self) -> (r: bool)
        ensures
            r == self.default_ignore_eos,
    {
        self.default_ignore_eos
    }

    /// Tokens that a cache slot holds.
    pub fn ctx_size(&self) -> (r: u32)
        ensures
            r == self.ctx_size,
    {
        self.ctx_size
    }

    /// Cache slots; none without a model.
    pub fn n_slots(&self) -> (r: u32)
        ensures
            r == self.n_slots,
    {
        self.n_slots
    }

    /// The name that the model goes by.
    pub fn model_id(&self) -> (r: &str)
        ensures
            r@ == self.model_id@,
    {
        self.model_id.as_str()
    }
}

} // verus!
