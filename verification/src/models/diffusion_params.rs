//! Setting up a diffusion Gemma model from its file.
use vstd::prelude::*;

use crate::gguf::GgufFile;
use crate::models::describe::{
    columns, columns_bytes, greater, greater_of, greatest, greatest_of, lemma_columns,
    longest_pass, padded, pass_tokens, FloatConstants, Model,
};
use crate::models::diffusion_blocks::{DiffusionScWeights, DiffusiongemmaBlockWeights};
use crate::models::diffusiongemma::{
    DiffusiongemmaModel, DiffusiongemmaParams, DiffusiongemmaWeights,
};
use crate::models::gemma_blocks::Softcap;
use crate::models::llama_params::outer_names;
use crate::models::loading::{
    block_name, block_names, bools_at, f32_or, float_else, lemma_all_there, lemma_missing_first,
    lemma_missing_prefix, load, load_block, model_names, read_bool_array, read_u32_array,
    says_missing, u32_at, u32_else, u32_key, u32_or, u32s_at, vocab_at, vocab_key, words,
    ModelError, WeightsHandle,
};
use crate::models::masks::MaskValues;
use crate::models::metadata::{
    floats_as, gives, gives_bools, gives_list, gives_none, reads_as,
};
use crate::models::tensor::{GgmlType, TensorView};
use crate::models::CacheDims;
use crate::pairs::{lacks, law_first_pair_is_found, leads};
use crate::text::decimal;

verus! {

/// Why a file does not describe a model of this kind, if it does not: the first
/// failing read counts.
pub open spec fn diffusion_failure<F>(gguf: &GgufFile<F>) -> Option<ModelError> {
    let n_layer = u32_at(gguf, "diffusion-gemma.block_count")->Ok_0;
    if u32_at(gguf, "diffusion-gemma.block_count") is Err {
        Some(u32_at(gguf, "diffusion-gemma.block_count")->Err_0)
    } else if u32_at(gguf, "diffusion-gemma.attention.head_count") is Err {
        Some(u32_at(gguf, "diffusion-gemma.attention.head_count")->Err_0)
    } else if u32_at(gguf, "diffusion-gemma.embedding_length") is Err {
        Some(u32_at(gguf, "diffusion-gemma.embedding_length")->Err_0)
    } else if u32_at(gguf, "diffusion-gemma.feed_forward_length") is Err {
        Some(u32_at(gguf, "diffusion-gemma.feed_forward_length")->Err_0)
    } else if vocab_at(gguf, "diffusion-gemma.vocab_size") is Err {
        Some(vocab_at(gguf, "diffusion-gemma.vocab_size")->Err_0)
    } else if bools_at(gguf, "diffusion-gemma.attention.sliding_window_pattern", n_layer) is Err {
        Some(bools_at(gguf, "diffusion-gemma.attention.sliding_window_pattern", n_layer)->Err_0)
    } else if u32s_at(gguf, "diffusion-gemma.attention.head_count_kv", n_layer) is Err {
        Some(u32s_at(gguf, "diffusion-gemma.attention.head_count_kv", n_layer)->Err_0)
    } else if u32_at(gguf, "diffusion.canvas_length") is Err {
        Some(u32_at(gguf, "diffusion.canvas_length")->Err_0)
    } else if u32_at(gguf, "diffusion.canvas_length") == Ok::<u32, ModelError>(0) {
        Some(ModelError::EmptyCanvas)
    } else {
        None
    }
}

/// These are the parameters that a file gives.
pub open spec fn diffusion_described<F>(
    gguf: &GgufFile<F>,
    c: &FloatConstants<F>,
    p: DiffusiongemmaParams<F>,
) -> bool {
    &&& u32_at(gguf, "diffusion-gemma.block_count") == Ok::<u32, ModelError>(p.n_layer)
    &&& u32_at(gguf, "diffusion-gemma.attention.head_count") == Ok::<u32, ModelError>(p.n_head)
    &&& u32_at(gguf, "diffusion-gemma.embedding_length") == Ok::<u32, ModelError>(p.n_embd)
    &&& u32_at(gguf, "diffusion-gemma.feed_forward_length") == Ok::<u32, ModelError>(p.n_ff)
    &&& vocab_at(gguf, "diffusion-gemma.vocab_size") == Ok::<u32, ModelError>(p.n_vocab)
    &&& p.n_ctx_train == u32_else(gguf, "diffusion-gemma.context_length"@, 131072)
    &&& p.rms_eps == float_else(gguf, "diffusion-gemma.attention.layer_norm_rms_epsilon"@, c.eps_6)
    &&& p.embd_scale == c.one
    &&& p.attn_scale == c.one
    &&& p.final_logit_softcap is None
    &&& p.sliding_window == u32_else(gguf, "diffusion-gemma.attention.sliding_window"@, 0)
    &&& p.head_dim_global == u32_else(
        gguf,
        "diffusion-gemma.attention.key_length"@,
        p.n_embd / p.n_head,
    )
    &&& p.head_dim_swa == u32_else(
        gguf,
        "diffusion-gemma.attention.key_length_swa"@,
        p.head_dim_global,
    )
    &&& p.rope_base_global == float_else(gguf, "diffusion-gemma.rope.freq_base"@, c.million)
    &&& p.rope_base_swa == float_else(gguf, "diffusion-gemma.rope.freq_base_swa"@, c.ten_thousand)
    &&& bools_at(gguf, "diffusion-gemma.attention.sliding_window_pattern", p.n_layer) == Ok::<
        Seq<bool>,
        ModelError,
    >(p.swa@)
    &&& u32s_at(gguf, "diffusion-gemma.attention.head_count_kv", p.n_layer) == Ok::<
        Seq<u32>,
        ModelError,
    >(p.n_head_kv@)
    &&& p.n_expert == u32_else(gguf, "diffusion-gemma.expert_count"@, 0)
    &&& p.n_expert_used == u32_else(gguf, "diffusion-gemma.expert_used_count"@, 0)
    &&& p.expert_ff == u32_else(gguf, "diffusion-gemma.expert_feed_forward_length"@, 0)
    &&& u32_at(gguf, "diffusion.canvas_length") == Ok::<u32, ModelError>(p.canvas_length)
    &&& p.router_scale == c.one
    &&& p.out_scale@ == Seq::new(p.n_layer as nat, |i: int| c.one)
    &&& p.enc_out_scale@ == Seq::new(p.n_layer as nat, |i: int| c.one)
    &&& p.has_sc == (gguf.tensor_at("self_cond_gate.weight"@) is Some)
}

/// Heads are counted by the time that the width is shared out among them.
pub open spec fn diffusion_heads_counted<F>(gguf: &GgufFile<F>) -> bool {
    u32_at(gguf, "diffusion-gemma.attention.head_count") == Ok::<u32, ModelError>(0) ==> {
        ||| u32_at(gguf, "diffusion-gemma.block_count") is Err
        ||| u32_at(gguf, "diffusion-gemma.embedding_length") is Err
        ||| u32_at(gguf, "diffusion-gemma.feed_forward_length") is Err
    }
}

/// Read the parameters of a model. Factors that are computed from others are left
/// at one, and the bound on logits is left out; see [`DiffusiongemmaParams::scaled`].
pub fn parse_params<F: Copy>(gguf: &GgufFile<F>, c: &FloatConstants<F>) -> (r: Result<
    DiffusiongemmaParams<F>,
    ModelError,
>)
    requires
        diffusion_heads_counted(gguf),
    ensures
        match r {
            Ok(p) => diffusion_failure(gguf) is None && diffusion_described(gguf, c, p),
            Err(e) => diffusion_failure(gguf) == Some(e),
        },
        r matches Ok(p) ==> {
            &&& gives(gguf, "diffusion-gemma.block_count"@, p.n_layer)
            &&& gives(gguf, "diffusion-gemma.attention.head_count"@, p.n_head)
            &&& gives(gguf, "diffusion-gemma.embedding_length"@, p.n_embd)
            &&& gives(gguf, "diffusion-gemma.feed_forward_length"@, p.n_ff)
            &&& (gives(gguf, "diffusion-gemma.vocab_size"@, p.n_vocab) || gives_none(gguf, "diffusion-gemma.vocab_size"@) && exists|i: int| #[trigger]
                leads(gguf.tensors@, "token_embd.weight"@, i) && p.n_vocab
                    == gguf.tensors@[i].1.dims.d1 as u32)
            &&& reads_as(gguf, "diffusion-gemma.context_length"@, p.n_ctx_train, 131072)
            &&& floats_as(gguf, "diffusion-gemma.attention.layer_norm_rms_epsilon"@, p.rms_eps, c.eps_6)
            &&& reads_as(gguf, "diffusion-gemma.attention.sliding_window"@, p.sliding_window, 0)
            &&& reads_as(gguf, "diffusion-gemma.attention.key_length"@, p.head_dim_global, p.n_embd / p.n_head)
            &&& reads_as(gguf, "diffusion-gemma.attention.key_length_swa"@, p.head_dim_swa, p.head_dim_global)
            &&& floats_as(gguf, "diffusion-gemma.rope.freq_base"@, p.rope_base_global, c.million)
            &&& floats_as(gguf, "diffusion-gemma.rope.freq_base_swa"@, p.rope_base_swa, c.ten_thousand)
            &&& p.swa@.len() == p.n_layer && gives_bools(gguf, "diffusion-gemma.attention.sliding_window_pattern"@, p.swa@)
            &&& p.n_head_kv@.len() == p.n_layer && gives_list(gguf, "diffusion-gemma.attention.head_count_kv"@, p.n_head_kv@)
            &&& reads_as(gguf, "diffusion-gemma.expert_count"@, p.n_expert, 0)
            &&& reads_as(gguf, "diffusion-gemma.expert_used_count"@, p.n_expert_used, 0)
            &&& reads_as(gguf, "diffusion-gemma.expert_feed_forward_length"@, p.expert_ff, 0)
            &&& gives(gguf, "diffusion.canvas_length"@, p.canvas_length)
            &&& p.canvas_length > 0
            &&& p.has_sc == !lacks(gguf.tensors@, "self_cond_gate.weight"@)
        },
{
    let n_layer: u32 = u32_key(gguf, "diffusion-gemma.block_count")?;
    let n_head: u32 = u32_key(gguf, "diffusion-gemma.attention.head_count")?;
    let n_embd: u32 = u32_key(gguf, "diffusion-gemma.embedding_length")?;
    let n_ff: u32 = u32_key(gguf, "diffusion-gemma.feed_forward_length")?;
    let n_ctx_train: u32 = u32_or(gguf, "diffusion-gemma.context_length", 131072);
    let rms_eps = f32_or(gguf, "diffusion-gemma.attention.layer_norm_rms_epsilon", c.eps_6);
    let sliding_window: u32 = u32_or(gguf, "diffusion-gemma.attention.sliding_window", 0);
    let head_dim_global: u32 = u32_or(gguf, "diffusion-gemma.attention.key_length", n_embd / n_head);
    let head_dim_swa: u32 = u32_or(
        gguf,
        "diffusion-gemma.attention.key_length_swa",
        head_dim_global,
    );
    let rope_base_global = f32_or(gguf, "diffusion-gemma.rope.freq_base", c.million);
    let rope_base_swa = f32_or(gguf, "diffusion-gemma.rope.freq_base_swa", c.ten_thousand);
    let n_vocab: u32 = vocab_key(gguf, "diffusion-gemma.vocab_size")?;
    let swa = read_bool_array(gguf, "diffusion-gemma.attention.sliding_window_pattern", n_layer)?;
    let n_head_kv = read_u32_array(gguf, "diffusion-gemma.attention.head_count_kv", n_layer)?;
    let n_expert: u32 = u32_or(gguf, "diffusion-gemma.expert_count", 0);
    let n_expert_used: u32 = u32_or(gguf, "diffusion-gemma.expert_used_count", 0);
    let expert_ff: u32 = u32_or(gguf, "diffusion-gemma.expert_feed_forward_length", 0);
    let canvas_length: u32 = u32_key(gguf, "diffusion.canvas_length")?;
    if canvas_length == 0 {
        return Err(ModelError::EmptyCanvas);
    }
    let mut out_scale: Vec<F> = Vec::new();
    let mut enc_out_scale: Vec<F> = Vec::new();
    let mut i: u32 = 0;
    while i < n_layer
        invariant
            i <= n_layer,
            out_scale@ == Seq::new(i as nat, |k: int| c.one),
            enc_out_scale@ == Seq::new(i as nat, |k: int| c.one),
        decreases n_layer - i,
    {
        out_scale.push(c.one);
        enc_out_scale.push(c.one);
        i += 1;
        assert(out_scale@ =~= Seq::new(i as nat, |k: int| c.one));
        assert(enc_out_scale@ =~= Seq::new(i as nat, |k: int| c.one));
    }
    proof {
        law_first_pair_is_found(gguf.tensors@, "self_cond_gate.weight"@);
    }
    let has_sc: bool = gguf.tensor("self_cond_gate.weight").is_some();
    Ok(
        DiffusiongemmaParams {
            n_layer,
            n_head,
            n_embd,
            n_ff,
            n_vocab,
            n_ctx_train,
            rms_eps,
            embd_scale: c.one,
            router_scale: c.one,
            attn_scale: c.one,
            final_logit_softcap: None,
            sliding_window,
            head_dim_swa,
            rope_base_swa,
            head_dim_global,
            rope_base_global,
            swa,
            n_head_kv,
            n_expert,
            n_expert_used,
            expert_ff,
            canvas_length,
            out_scale,
            enc_out_scale,
            has_sc,
        },
    )
}

/// The bound that a file puts on logits, if it names one.
pub fn softcap_key<F: Copy>(gguf: &GgufFile<F>, none: F) -> (r: F)
    ensures
        r == float_else(gguf, "diffusion-gemma.final_logit_softcapping"@, none),
        floats_as(gguf, "diffusion-gemma.final_logit_softcapping"@, r, none),
{
    f32_or(gguf, "diffusion-gemma.final_logit_softcapping", none)
}

impl<F: Copy> DiffusiongemmaParams<F> {
    /// The parameters with the factors that are computed from others or read from
    /// tensors: those on the embeddings and the router's input, the bound on
    /// logits, and those on every layer's output over the canvas and the prompt.
    pub fn scaled(
        self,
        embd_scale: F,
        router_scale: F,
        softcap: Option<Softcap<F>>,
        out_scale: Vec<F>,
        enc_out_scale: Vec<F>,
    ) -> (r: Self)
        ensures
            r == (DiffusiongemmaParams {
                embd_scale,
                router_scale,
                final_logit_softcap: softcap,
                out_scale,
                enc_out_scale,
                ..self
            }),
    {
        DiffusiongemmaParams {
            embd_scale,
            router_scale,
            final_logit_softcap: softcap,
            out_scale,
            enc_out_scale,
            ..self
        }
    }

    /// Widths of the key projections, layer by layer.
    pub open spec fn kv_widths(&self) -> Seq<u32> {
        Seq::new(self.n_layer as nat, |il: int| (self.n_head_kv@[il] * self.head(il)) as u32)
    }

    /// Widths of the key projections, layer by layer.
    fn kv_dims(&self) -> (r: Vec<u32>)
        requires
            self.wf(self.n_layer as int),
        ensures
            r@ == self.kv_widths(),
    {
        let mut out: Vec<u32> = Vec::new();
        let mut il: usize = 0;
        while il < self.n_layer as usize
            invariant
                il <= self.n_layer,
                self.wf(self.n_layer as int),
                out@ == self.kv_widths().take(il as int),
            decreases self.n_layer - il,
        {
            assert(self.layer_wf(il as int));
            out.push(self.kv_dim(il));
            assert(out@ =~= self.kv_widths().take(il + 1));
            il += 1;
        }
        assert(out@ =~= self.kv_widths());
        out
    }

    /// Widths of the heads, layer by layer.
    pub open spec fn head_widths(&self) -> Seq<u32> {
        Seq::new(self.n_layer as nat, |il: int| self.head(il))
    }

    /// Widths of the heads, layer by layer.
    fn head_dims(&self) -> (r: Vec<u32>)
        requires
            self.wf(self.n_layer as int),
        ensures
            r@ == self.head_widths(),
    {
        let mut out: Vec<u32> = Vec::new();
        let mut il: usize = 0;
        while il < self.n_layer as usize
            invariant
                il <= self.n_layer,
                self.wf(self.n_layer as int),
                out@ == self.head_widths().take(il as int),
            decreases self.n_layer - il,
        {
            out.push(self.head_dim(il));
            assert(out@ =~= self.head_widths().take(il + 1));
            il += 1;
        }
        assert(out@ =~= self.head_widths());
        out
    }
}

/// The suffixes of the tensors that every block has.
pub open spec fn diffusion_suffixes() -> Seq<Seq<char>> {
    seq![
        "attn_norm.weight"@,
        "attn_q.weight"@,
        "attn_k.weight"@,
        "attn_output.weight"@,
        "attn_q_norm.weight"@,
        "attn_k_norm.weight"@,
        "post_attention_norm.weight"@,
        "ffn_norm.weight"@,
        "ffn_gate.weight"@,
        "ffn_up.weight"@,
        "ffn_down.weight"@,
        "post_ffw_norm_1.weight"@,
        "pre_ffw_norm_2.weight"@,
        "post_ffw_norm_2.weight"@,
        "ffn_gate_inp.weight"@,
        "ffn_gate_inp.scale"@,
        "ffn_gate_up_exps.weight"@,
        "ffn_down_exps.weight"@,
        "ffn_down_exps.scale"@,
        "post_ffw_norm.weight"@,
    ]
}

/// A block of these tensors.
pub open spec fn diffusion_block(v: Seq<TensorView>, wv: Option<TensorView>) -> DiffusiongemmaBlockWeights {
    DiffusiongemmaBlockWeights {
        attn_norm: v[0],
        wq: v[1],
        wk: v[2],
        wv,
        wo: v[3],
        attn_q_norm: v[4],
        attn_k_norm: v[5],
        post_attn_norm: v[6],
        ffn_norm: v[7],
        ffn_gate: v[8],
        ffn_up: v[9],
        ffn_down: v[10],
        ffn_post_norm_1: v[11],
        ffn_pre_norm_2: v[12],
        ffn_post_norm_2: v[13],
        ffn_gate_inp: v[14],
        ffn_gate_inp_s: v[15],
        ffn_gate_up_exps: v[16],
        ffn_down_exps: v[17],
        ffn_down_exps_s: v[18],
        ffn_post_norm: v[19],
    }
}

/// Block `i`, as the uploaded tensors have it.
pub open spec fn diffusion_block_at(handle: &WeightsHandle, i: int) -> DiffusiongemmaBlockWeights {
    diffusion_block(
        handle.views(block_names(i, diffusion_suffixes())),
        handle.at("blk."@ + decimal(i as nat) + "."@ + "attn_v.weight"@),
    )
}

/// The names of the tensors of the self-conditioning part.
pub open spec fn sc_names() -> Seq<Seq<char>> {
    seq![
        "self_cond_pre_norm.weight"@,
        "self_cond_gate.weight"@,
        "self_cond_up.weight"@,
        "self_cond_down.weight"@,
    ]
}

/// The names of the tensors outside the blocks.
pub open spec fn head_names(has_sc: bool) -> Seq<Seq<char>> {
    if has_sc {
        outer_names() + sc_names()
    } else {
        outer_names()
    }
}

/// The names of all tensors that a model of `n` blocks must have.
pub open spec fn diffusion_names(has_sc: bool, n: int) -> Seq<Seq<char>> {
    model_names(head_names(has_sc), |i: int| diffusion_suffixes(), n)
}

/// These are the uploaded tensors of a model.
pub open spec fn diffusion_collected<F: Copy>(
    handle: &WeightsHandle,
    params: DiffusiongemmaParams<F>,
    w: DiffusiongemmaWeights,
) -> bool {
    &&& handle.missing(diffusion_names(params.has_sc, params.n_layer as int)) is None
    &&& handle.at("token_embd.weight"@) == Some(w.token_embd)
    &&& handle.at("output_norm.weight"@) == Some(w.output_norm)
    &&& w.output == handle.at("output.weight"@)
    &&& w.rope_freqs == handle.at("rope_freqs.weight"@)
    &&& w.sc == if params.has_sc {
        let v = handle.views(sc_names());
        Some(DiffusionScWeights { pre_norm: v[0], gate: v[1], up: v[2], down: v[3] })
    } else {
        None
    }
    &&& w.blocks@.len() == params.n_layer
    &&& forall|i: int|
        0 <= i < params.n_layer ==> #[trigger] w.blocks@[i] == diffusion_block_at(handle, i)
}

/// Collect the tensors of a model.
pub fn collect_weights<F: Copy>(handle: &WeightsHandle, params: &DiffusiongemmaParams<F>) -> (r: Result<
    DiffusiongemmaWeights,
    ModelError,
>)
    ensures
        match r {
            Ok(w) => diffusion_collected(handle, *params, w),
            Err(e) => handle.missing(diffusion_names(params.has_sc, params.n_layer as int)) matches Some(n) && says_missing(e, n),
        },
{
    let ghost n = params.n_layer as int;
    let ghost of = |i: int| diffusion_suffixes();
    let ghost head = head_names(params.has_sc);
    let outer = match load(handle, &["token_embd.weight", "output_norm.weight"]) {
        Ok(v) => v,
        Err(e) => {
            proof {
                assert(words(["token_embd.weight", "output_norm.weight"]@) =~= outer_names());
                lemma_missing_prefix(handle, outer_names(), sc_names());
                lemma_missing_first(handle, head, of, 0, n);
            }
            return Err(e);
        },
    };
    proof {
        assert(words(["token_embd.weight", "output_norm.weight"]@) =~= outer_names());
        lemma_all_there(handle, outer_names(), 0);
        lemma_all_there(handle, outer_names(), 1);
        lemma_missing_prefix(handle, outer_names(), sc_names());
    }
    let output = handle.view("output.weight");
    let rope_freqs = handle.view("rope_freqs.weight");
    let sc = if params.has_sc {
        let names = [
            "self_cond_pre_norm.weight",
            "self_cond_gate.weight",
            "self_cond_up.weight",
            "self_cond_down.weight",
        ];
        proof {
            assert(words(names@) =~= sc_names());
        }
        let v = match load(handle, &names) {
            Ok(v) => v,
            Err(e) => {
                proof {
                    lemma_missing_first(handle, head, of, 0, n);
                }
                return Err(e);
            },
        };
        Some(DiffusionScWeights { pre_norm: v[0], gate: v[1], up: v[2], down: v[3] })
    } else {
        None
    };
    let mut blocks: Vec<DiffusiongemmaBlockWeights> = Vec::new();
    let mut i: u32 = 0;
    while i < params.n_layer
        invariant
            i <= params.n_layer,
            n == params.n_layer,
            of == |i: int| diffusion_suffixes(),
            head == head_names(params.has_sc),
            handle.missing(model_names(head, of, i as int)) is None,
            blocks@.len() == i,
            forall|k: int| 0 <= k < i ==> #[trigger] blocks@[k] == diffusion_block_at(handle, k),
        decreases params.n_layer - i,
    {
        let suffixes = [
            "attn_norm.weight",
            "attn_q.weight",
            "attn_k.weight",
            "attn_output.weight",
            "attn_q_norm.weight",
            "attn_k_norm.weight",
            "post_attention_norm.weight",
            "ffn_norm.weight",
            "ffn_gate.weight",
            "ffn_up.weight",
            "ffn_down.weight",
            "post_ffw_norm_1.weight",
            "pre_ffw_norm_2.weight",
            "post_ffw_norm_2.weight",
            "ffn_gate_inp.weight",
            "ffn_gate_inp.scale",
            "ffn_gate_up_exps.weight",
            "ffn_down_exps.weight",
            "ffn_down_exps.scale",
            "post_ffw_norm.weight",
        ];
        proof {
            assert(words(suffixes@) =~= diffusion_suffixes());
            lemma_missing_prefix(
                handle,
                model_names(head, of, i as int),
                block_names(i as int, diffusion_suffixes()),
            );
        }
        let v = match load_block(handle, i, &suffixes) {
            Ok(v) => v,
            Err(e) => {
                proof {
                    lemma_missing_first(handle, head, of, i + 1, n);
                }
                return Err(e);
            },
        };
        let wv = handle.view(block_name(i, "attn_v.weight").as_str());
        blocks.push(
            DiffusiongemmaBlockWeights {
                attn_norm: v[0],
                wq: v[1],
                wk: v[2],
                wv,
                wo: v[3],
                attn_q_norm: v[4],
                attn_k_norm: v[5],
                post_attn_norm: v[6],
                ffn_norm: v[7],
                ffn_gate: v[8],
                ffn_up: v[9],
                ffn_down: v[10],
                ffn_post_norm_1: v[11],
                ffn_pre_norm_2: v[12],
                ffn_post_norm_2: v[13],
                ffn_gate_inp: v[14],
                ffn_gate_inp_s: v[15],
                ffn_gate_up_exps: v[16],
                ffn_down_exps: v[17],
                ffn_down_exps_s: v[18],
                ffn_post_norm: v[19],
            },
        );
        i += 1;
    }
    Ok(
        DiffusiongemmaWeights { token_embd: outer[0], blocks, output_norm: outer[1], output, rope_freqs, sc },
    )
}

impl<F: Copy> DiffusiongemmaModel<F> {
    /// A model of these parameters, with the tensors that they call for. Its
    /// transposed embedding is not built yet.
    pub fn new(
        params: DiffusiongemmaParams<F>,
        handle: &WeightsHandle,
        mask: MaskValues<F>,
        group_experts: bool,
        sc_split_k: u32,
    ) -> (r: Result<Self, ModelError>)
        ensures
            match r {
                Ok(m) => {
                    &&& m.params == params
                    &&& diffusion_collected(handle, params, m.weights)
                    &&& !m.sc_embt
                    &&& m.mask == mask
                    &&& m.group_experts == group_experts
                    &&& m.sc_split_k == sc_split_k
                },
                Err(e) => handle.missing(
                    diffusion_names(params.has_sc, params.n_layer as int),
                ) matches Some(n) && says_missing(e, n),
            },
    {
        let weights = collect_weights(handle, &params)?;
        Ok(
            DiffusiongemmaModel {
                params,
                weights,
                sc_embt: false,
                mask,
                group_experts,
                sc_split_k,
            },
        )
    }
}

impl<F: Copy> Model for DiffusiongemmaModel<F> {
    open spec fn sized(&self) -> bool {
        &&& self.params.wf(self.params.n_layer as int)
        &&& self.params.n_head * greater(self.params.head_dim_global, self.params.head_dim_swa)
            <= u32::MAX
    }

    /// The whole context in one pass: dense activations, the experts' and the
    /// router's, the residual, two masks, the canvas's logits, and the last
    /// step's probabilities over it where there is self-conditioning.
    open spec fn estimate(
        &self,
        n_ubatch: u32,
        max_seq_len: u32,
        mixed: bool,
        max_batch: u32,
    ) -> int {
        let p = &self.params;
        let l = pass_tokens(0, max_seq_len);
        let q_max = p.n_head * greater(p.head_dim_global, p.head_dim_swa);
        let kv_max = greatest(p.kv_widths(), 0);
        let canvas = columns(p.n_vocab as int, greater(p.canvas_length, 1) as int);
        padded(
            columns(10 * p.n_embd + 4 * q_max + 6 * kv_max + 5 * p.n_ff, l) + columns(
                3 * (p.expert_ff * p.n_expert_used) + p.n_expert,
                l,
            ) + columns(p.n_embd as int, l) + 2 * columns(l, l) + canvas + (if p.has_sc {
                canvas
            } else {
                0
            }),
            67108864,
        )
    }

    fn arch(&self) -> (r: &'static str)
        ensures
            r@ == "diffusion-gemma"@,
    {
        "diffusion-gemma"
    }

    fn vocab_size(&self) -> (r: u32)
        ensures
            r == self.params.n_vocab,
    {
        self.params.n_vocab
    }

    /// The greatest of the layers' sizes.
    fn cache_dims(&self) -> (r: CacheDims)
        ensures
            r == (CacheDims {
                n_layer: self.params.n_layer,
                head_dim: greater(self.params.head_dim_global, self.params.head_dim_swa),
                n_head_kv: greatest(self.params.n_head_kv@, 1),
                n_head: self.params.n_head,
            }),
    {
        CacheDims {
            n_layer: self.params.n_layer,
            head_dim: greater_of(self.params.head_dim_global, self.params.head_dim_swa),
            n_head_kv: greatest_of(&self.params.n_head_kv, 1),
            n_head: self.params.n_head,
        }
    }

    fn cache_per_layer_dims(&self) -> (r: Option<(Vec<u32>, Vec<u32>)>)
        ensures
            r matches Some((head_dims, n_head_kv)) && head_dims@ == self.params.head_widths()
                && n_head_kv@ == self.params.n_head_kv@,
    {
        let n_head_kv = vstd::slice::slice_to_vec(self.params.n_head_kv.as_slice());
        Some((self.params.head_dims(), n_head_kv))
    }

    fn diffusion_canvas_length(&self) -> (r: Option<u32>)
        ensures
            r == Some(self.params.canvas_length),
    {
        Some(self.params.canvas_length)
    }

    fn scratch_bytes_estimate(
        &self,
        n_ubatch: u32,
        max_seq_len: u32,
        k_dtype: GgmlType,
        v_dtype: GgmlType,
        max_batch: u32,
    ) -> (r: u64) {
        let p = &self.params;
        let l: u64 = longest_pass(0, max_seq_len);
        let q_max: u64 = (p.n_head * greater_of(p.head_dim_global, p.head_dim_swa)) as u64;
        let kv_max: u64 = greatest_of(&p.kv_dims(), 0) as u64;
        let dense: u64 = 10 * p.n_embd as u64 + 4 * q_max + 6 * kv_max + 5 * p.n_ff as u64;
        let canvas: u64 = greater_of(p.canvas_length, 1) as u64;
        proof {
            let used = 3 * (p.expert_ff * p.n_expert_used) + p.n_expert;
            assert(0 <= p.expert_ff * p.n_expert_used) by (nonlinear_arith);
            lemma_columns(dense as int, l as int);
            lemma_columns(used, l as int);
            lemma_columns(p.n_embd as int, l as int);
            lemma_columns(l as int, l as int);
            lemma_columns(p.n_vocab as int, canvas as int);
            assert(used <= used * l * 4) by (nonlinear_arith)
                requires
                    used >= 0,
                    l >= 1,
            ;
        }
        let experts: u64 = 3 * (p.expert_ff as u64 * p.n_expert_used as u64) + p.n_expert as u64;
        let logits: u64 = columns_bytes(p.n_vocab as u64, canvas);
        let sc_probs: u64 = if p.has_sc {
            logits
        } else {
            0
        };
        let raw: u64 = columns_bytes(dense, l) + columns_bytes(experts, l) + columns_bytes(
            p.n_embd as u64,
            l,
        ) + 2 * columns_bytes(l, l) + logits + sc_probs;
        raw + raw / 3 + 67108864
    }
}

} // verus!
