//! Setting up a Gemma 4 model from its file.
use vstd::prelude::*;

use crate::gguf::GgufFile;
use crate::models::describe::{
    columns, columns_bytes, greater, greater_of, greatest, greatest_of, lemma_columns,
    lemma_partials, longest_pass, padded, partial_bytes, partials, pass_tokens, FloatConstants,
    Model,
};
use crate::models::gemma4::{Gemma4BlockWeights, Gemma4Model, Gemma4Params, Gemma4Weights};
use crate::models::gemma_blocks::Softcap;
use crate::models::llama_params::outer_names;
use crate::models::loading::{
    block_name, block_names, bools_at, f32_or, float_else, lemma_all_there, lemma_missing_first,
    lemma_missing_prefix, load, load_block, model_names, read_bool_array, read_u32_array,
    says_missing, u32_at, u32_else, u32_key, u32_or, u32s_at, vocab_at, vocab_key, words,
    ModelError, WeightsHandle,
};
use crate::models::masks::MaskValues;
use crate::models::metadata::{
    floats_as, gives, gives_bools, gives_list, gives_none, reads_as,
};
use crate::models::tensor::{GgmlType, TensorView};
use crate::models::CacheDims;
use crate::pairs::leads;
use crate::text::decimal;

verus! {

/// Why a file does not describe a model of this kind, if it does not: the first
/// failing read counts.
pub open spec fn gemma4_failure<F>(gguf: &GgufFile<F>) -> Option<ModelError> {
    let n_layer = u32_at(gguf, "gemma4.block_count")->Ok_0;
    if u32_at(gguf, "gemma4.block_count") is Err {
        Some(u32_at(gguf, "gemma4.block_count")->Err_0)
    } else if u32_at(gguf, "gemma4.attention.head_count") is Err {
        Some(u32_at(gguf, "gemma4.attention.head_count")->Err_0)
    } else if u32_at(gguf, "gemma4.embedding_length") is Err {
        Some(u32_at(gguf, "gemma4.embedding_length")->Err_0)
    } else if u32_at(gguf, "gemma4.feed_forward_length") is Err {
        Some(u32_at(gguf, "gemma4.feed_forward_length")->Err_0)
    } else if vocab_at(gguf, "gemma4.vocab_size") is Err {
        Some(vocab_at(gguf, "gemma4.vocab_size")->Err_0)
    } else if bools_at(gguf, "gemma4.attention.sliding_window_pattern", n_layer) is Err {
        Some(bools_at(gguf, "gemma4.attention.sliding_window_pattern", n_layer)->Err_0)
    } else if u32s_at(gguf, "gemma4.attention.head_count_kv", n_layer) is Err {
        Some(u32s_at(gguf, "gemma4.attention.head_count_kv", n_layer)->Err_0)
    } else {
        None
    }
}

/// These are the parameters that a file gives.
pub open spec fn gemma4_described<F>(
    gguf: &GgufFile<F>,
    c: &FloatConstants<F>,
    p: Gemma4Params<F>,
) -> bool {
    &&& u32_at(gguf, "gemma4.block_count") == Ok::<u32, ModelError>(p.n_layer)
    &&& u32_at(gguf, "gemma4.attention.head_count") == Ok::<u32, ModelError>(p.n_head)
    &&& u32_at(gguf, "gemma4.embedding_length") == Ok::<u32, ModelError>(p.n_embd)
    &&& u32_at(gguf, "gemma4.feed_forward_length") == Ok::<u32, ModelError>(p.n_ff)
    &&& vocab_at(gguf, "gemma4.vocab_size") == Ok::<u32, ModelError>(p.n_vocab)
    &&& p.n_ctx_train == u32_else(gguf, "gemma4.context_length"@, 131072)
    &&& p.rms_eps == float_else(gguf, "gemma4.attention.layer_norm_rms_epsilon"@, c.eps_6)
    &&& p.embd_scale == c.one
    &&& p.attn_scale == c.one
    &&& p.final_logit_softcap is None
    &&& p.sliding_window == u32_else(gguf, "gemma4.attention.sliding_window"@, 0)
    &&& p.head_dim_global == u32_else(
        gguf,
        "gemma4.attention.key_length"@,
        p.n_embd / p.n_head,
    )
    &&& p.head_dim_swa == u32_else(
        gguf,
        "gemma4.attention.key_length_swa"@,
        p.head_dim_global,
    )
    &&& p.rope_base_global == float_else(gguf, "gemma4.rope.freq_base"@, c.million)
    &&& p.rope_base_swa == float_else(gguf, "gemma4.rope.freq_base_swa"@, c.ten_thousand)
    &&& bools_at(gguf, "gemma4.attention.sliding_window_pattern", p.n_layer) == Ok::<
        Seq<bool>,
        ModelError,
    >(p.swa@)
    &&& u32s_at(gguf, "gemma4.attention.head_count_kv", p.n_layer) == Ok::<
        Seq<u32>,
        ModelError,
    >(p.n_head_kv@)
    &&& p.layer_output_scale@ == Seq::new(p.n_layer as nat, |i: int| None::<F>)
}

/// Heads are counted by the time that the width is shared out among them.
pub open spec fn gemma4_heads_counted<F>(gguf: &GgufFile<F>) -> bool {
    u32_at(gguf, "gemma4.attention.head_count") == Ok::<u32, ModelError>(0) ==> {
        ||| u32_at(gguf, "gemma4.block_count") is Err
        ||| u32_at(gguf, "gemma4.embedding_length") is Err
        ||| u32_at(gguf, "gemma4.feed_forward_length") is Err
    }
}

/// Read the parameters of a model. Factors that are computed from others are left
/// at one, and the bound on logits is left out; see [`Gemma4Params::scaled`].
pub fn parse_params<F: Copy>(gguf: &GgufFile<F>, c: &FloatConstants<F>) -> (r: Result<
    Gemma4Params<F>,
    ModelError,
>)
    requires
        gemma4_heads_counted(gguf),
    ensures
        match r {
            Ok(p) => gemma4_failure(gguf) is None && gemma4_described(gguf, c, p),
            Err(e) => gemma4_failure(gguf) == Some(e),
        },
        r matches Ok(p) ==> {
            &&& gives(gguf, "gemma4.block_count"@, p.n_layer)
            &&& gives(gguf, "gemma4.attention.head_count"@, p.n_head)
            &&& gives(gguf, "gemma4.embedding_length"@, p.n_embd)
            &&& gives(gguf, "gemma4.feed_forward_length"@, p.n_ff)
            &&& (gives(gguf, "gemma4.vocab_size"@, p.n_vocab) || gives_none(gguf, "gemma4.vocab_size"@) && exists|i: int| #[trigger]
                leads(gguf.tensors@, "token_embd.weight"@, i) && p.n_vocab
                    == gguf.tensors@[i].1.dims.d1 as u32)
            &&& reads_as(gguf, "gemma4.context_length"@, p.n_ctx_train, 131072)
            &&& floats_as(gguf, "gemma4.attention.layer_norm_rms_epsilon"@, p.rms_eps, c.eps_6)
            &&& reads_as(gguf, "gemma4.attention.sliding_window"@, p.sliding_window, 0)
            &&& reads_as(gguf, "gemma4.attention.key_length"@, p.head_dim_global, p.n_embd / p.n_head)
            &&& reads_as(gguf, "gemma4.attention.key_length_swa"@, p.head_dim_swa, p.head_dim_global)
            &&& floats_as(gguf, "gemma4.rope.freq_base"@, p.rope_base_global, c.million)
            &&& floats_as(gguf, "gemma4.rope.freq_base_swa"@, p.rope_base_swa, c.ten_thousand)
            &&& p.swa@.len() == p.n_layer && gives_bools(gguf, "gemma4.attention.sliding_window_pattern"@, p.swa@)
            &&& p.n_head_kv@.len() == p.n_layer && gives_list(gguf, "gemma4.attention.head_count_kv"@, p.n_head_kv@)
        },
{
    let n_layer: u32 = u32_key(gguf, "gemma4.block_count")?;
    let n_head: u32 = u32_key(gguf, "gemma4.attention.head_count")?;
    let n_embd: u32 = u32_key(gguf, "gemma4.embedding_length")?;
    let n_ff: u32 = u32_key(gguf, "gemma4.feed_forward_length")?;
    let n_ctx_train: u32 = u32_or(gguf, "gemma4.context_length", 131072);
    let rms_eps = f32_or(gguf, "gemma4.attention.layer_norm_rms_epsilon", c.eps_6);
    let sliding_window: u32 = u32_or(gguf, "gemma4.attention.sliding_window", 0);
    let head_dim_global: u32 = u32_or(gguf, "gemma4.attention.key_length", n_embd / n_head);
    let head_dim_swa: u32 = u32_or(
        gguf,
        "gemma4.attention.key_length_swa",
        head_dim_global,
    );
    let rope_base_global = f32_or(gguf, "gemma4.rope.freq_base", c.million);
    let rope_base_swa = f32_or(gguf, "gemma4.rope.freq_base_swa", c.ten_thousand);
    let n_vocab: u32 = vocab_key(gguf, "gemma4.vocab_size")?;
    let swa = read_bool_array(gguf, "gemma4.attention.sliding_window_pattern", n_layer)?;
    let n_head_kv = read_u32_array(gguf, "gemma4.attention.head_count_kv", n_layer)?;
    let mut layer_output_scale: Vec<Option<F>> = Vec::new();
    let mut i: u32 = 0;
    while i < n_layer
        invariant
            i <= n_layer,
            layer_output_scale@ == Seq::new(i as nat, |k: int| None::<F>),
        decreases n_layer - i,
    {
        layer_output_scale.push(None);
        i += 1;
        assert(layer_output_scale@ =~= Seq::new(i as nat, |k: int| None::<F>));
    }
    Ok(
        Gemma4Params {
            n_layer,
            n_head,
            n_embd,
            n_ff,
            n_vocab,
            n_ctx_train,
            rms_eps,
            embd_scale: c.one,
            attn_scale: c.one,
            final_logit_softcap: None,
            sliding_window,
            head_dim_swa,
            rope_base_swa,
            head_dim_global,
            rope_base_global,
            swa,
            n_head_kv,
            layer_output_scale,
        },
    )
}

/// The bound that a file puts on logits, if it names one.
pub fn softcap_key<F: Copy>(gguf: &GgufFile<F>, none: F) -> (r: F)
    ensures
        r == float_else(gguf, "gemma4.final_logit_softcapping"@, none),
        floats_as(gguf, "gemma4.final_logit_softcapping"@, r, none),
{
    f32_or(gguf, "gemma4.final_logit_softcapping", none)
}

impl<F: Copy> Gemma4Params<F> {
    /// The parameters with the factors that are computed from others or read from
    /// tensors: that on the embeddings, the bound on logits, and those on every
    /// layer's output.
    pub fn scaled(
        self,
        embd_scale: F,
        softcap: Option<Softcap<F>>,
        layer_output_scale: Vec<Option<F>>,
    ) -> (r: Self)
        ensures
            r == (Gemma4Params {
                embd_scale,
                final_logit_softcap: softcap,
                layer_output_scale,
                ..self
            }),
    {
        Gemma4Params { embd_scale, final_logit_softcap: softcap, layer_output_scale, ..self }
    }

    /// Widths of the key projections, layer by layer.
    pub open spec fn kv_widths(&self) -> Seq<u32> {
        Seq::new(self.n_layer as nat, |il: int| (self.n_head_kv@[il] * self.head(il)) as u32)
    }

    /// Widths of the key projections, layer by layer.
    fn kv_dims(&self) -> (r: Vec<u32>)
        requires
            self.wf(self.n_layer as int),
        ensures
            r@ == self.kv_widths(),
    {
        let mut out: Vec<u32> = Vec::new();
        let mut il: usize = 0;
        while il < self.n_layer as usize
            invariant
                il <= self.n_layer,
                self.wf(self.n_layer as int),
                out@ == self.kv_widths().take(il as int),
            decreases self.n_layer - il,
        {
            assert(self.layer_wf(il as int));
            out.push(self.kv_dim(il));
            assert(out@ =~= self.kv_widths().take(il + 1));
            il += 1;
        }
        assert(out@ =~= self.kv_widths());
        out
    }

    /// Widths of the heads, layer by layer.
    pub open spec fn head_widths(&self) -> Seq<u32> {
        Seq::new(self.n_layer as nat, |il: int| self.head(il))
    }

    /// Widths of the heads, layer by layer.
    fn head_dims(&self) -> (r: Vec<u32>)
        requires
            self.wf(self.n_layer as int),
        ensures
            r@ == self.head_widths(),
    {
        let mut out: Vec<u32> = Vec::new();
        let mut il: usize = 0;
        while il < self.n_layer as usize
            invariant
                il <= self.n_layer,
                self.wf(self.n_layer as int),
                out@ == self.head_widths().take(il as int),
            decreases self.n_layer - il,
        {
            out.push(self.head_dim(il));
            assert(out@ =~= self.head_widths().take(il + 1));
            il += 1;
        }
        assert(out@ =~= self.head_widths());
        out
    }
}

/// The suffixes of the tensors that every block has.
pub open spec fn gemma4_suffixes() -> Seq<Seq<char>> {
    seq![
        "attn_norm.weight"@,
        "attn_q.weight"@,
        "attn_k.weight"@,
        "attn_output.weight"@,
        "attn_q_norm.weight"@,
        "attn_k_norm.weight"@,
        "post_attention_norm.weight"@,
        "ffn_norm.weight"@,
        "ffn_gate.weight"@,
        "ffn_up.weight"@,
        "ffn_down.weight"@,
        "post_ffw_norm.weight"@,
    ]
}

/// A block of these tensors.
pub open spec fn gemma4_block(v: Seq<TensorView>, wv: Option<TensorView>) -> Gemma4BlockWeights {
    Gemma4BlockWeights {
        attn_norm: v[0],
        wq: v[1],
        wk: v[2],
        wv,
        wo: v[3],
        attn_q_norm: v[4],
        attn_k_norm: v[5],
        post_attn_norm: v[6],
        ffn_norm: v[7],
        ffn_gate: v[8],
        ffn_up: v[9],
        ffn_down: v[10],
        post_ffw_norm: v[11],
    }
}

/// Block `i`, as the uploaded tensors have it.
pub open spec fn gemma4_block_at(handle: &WeightsHandle, i: int) -> Gemma4BlockWeights {
    gemma4_block(
        handle.views(block_names(i, gemma4_suffixes())),
        handle.at("blk."@ + decimal(i as nat) + "."@ + "attn_v.weight"@),
    )
}

/// The names of all tensors that a model of `n` blocks must have.
pub open spec fn gemma4_names(n: int) -> Seq<Seq<char>> {
    model_names(outer_names(), |i: int| gemma4_suffixes(), n)
}

/// These are the uploaded tensors of a model.
pub open spec fn gemma4_collected<F: Copy>(
    handle: &WeightsHandle,
    params: Gemma4Params<F>,
    w: Gemma4Weights,
) -> bool {
    &&& handle.missing(gemma4_names(params.n_layer as int)) is None
    &&& handle.at("token_embd.weight"@) == Some(w.token_embd)
    &&& handle.at("output_norm.weight"@) == Some(w.output_norm)
    &&& w.output == handle.at("output.weight"@)
    &&& w.rope_freqs == handle.at("rope_freqs.weight"@)
    &&& w.blocks@.len() == params.n_layer
    &&& forall|i: int|
        0 <= i < params.n_layer ==> #[trigger] w.blocks@[i] == gemma4_block_at(handle, i)
}

/// Collect the tensors of a model.
pub fn collect_weights<F: Copy>(handle: &WeightsHandle, params: &Gemma4Params<F>) -> (r: Result<
    Gemma4Weights,
    ModelError,
>)
    ensures
        match r {
            Ok(w) => gemma4_collected(handle, *params, w),
            Err(e) => handle.missing(gemma4_names(params.n_layer as int)) matches Some(n) && says_missing(e, n),
        },
{
    let ghost n = params.n_layer as int;
    let ghost of = |i: int| gemma4_suffixes();
    let ghost head = outer_names();
    let outer = match load(handle, &["token_embd.weight", "output_norm.weight"]) {
        Ok(v) => v,
        Err(e) => {
            proof {
                assert(words(["token_embd.weight", "output_norm.weight"]@) =~= outer_names());
                lemma_missing_first(handle, head, of, 0, n);
            }
            return Err(e);
        },
    };
    proof {
        assert(words(["token_embd.weight", "output_norm.weight"]@) =~= outer_names());
        lemma_all_there(handle, outer_names(), 0);
        lemma_all_there(handle, outer_names(), 1);
    }
    let output = handle.view("output.weight");
    let rope_freqs = handle.view("rope_freqs.weight");
    let mut blocks: Vec<Gemma4BlockWeights> = Vec::new();
    let mut i: u32 = 0;
    while i < params.n_layer
        invariant
            i <= params.n_layer,
            n == params.n_layer,
            of == |i: int| gemma4_suffixes(),
            head == outer_names(),
            handle.missing(model_names(head, of, i as int)) is None,
            blocks@.len() == i,
            forall|k: int| 0 <= k < i ==> #[trigger] blocks@[k] == gemma4_block_at(handle, k),
        decreases params.n_layer - i,
    {
        let suffixes = [
            "attn_norm.weight",
            "attn_q.weight",
            "attn_k.weight",
            "attn_output.weight",
            "attn_q_norm.weight",
            "attn_k_norm.weight",
            "post_attention_norm.weight",
            "ffn_norm.weight",
            "ffn_gate.weight",
            "ffn_up.weight",
            "ffn_down.weight",
            "post_ffw_norm.weight",
        ];
        proof {
            assert(words(suffixes@) =~= gemma4_suffixes());
            lemma_missing_prefix(
                handle,
                model_names(head, of, i as int),
                block_names(i as int, gemma4_suffixes()),
            );
        }
        let v = match load_block(handle, i, &suffixes) {
            Ok(v) => v,
            Err(e) => {
                proof {
                    lemma_missing_first(handle, head, of, i + 1, n);
                }
                return Err(e);
            },
        };
        let wv = handle.view(block_name(i, "attn_v.weight").as_str());
        blocks.push(
            Gemma4BlockWeights {
                attn_norm: v[0],
                wq: v[1],
                wk: v[2],
                wv,
                wo: v[3],
                attn_q_norm: v[4],
                attn_k_norm: v[5],
                post_attn_norm: v[6],
                ffn_norm: v[7],
                ffn_gate: v[8],
                ffn_up: v[9],
                ffn_down: v[10],
                post_ffw_norm: v[11],
            },
        );
        i += 1;
    }
    Ok(
        Gemma4Weights { token_embd: outer[0], blocks, output_norm: outer[1], output, rope_freqs },
    )
}

impl<F: Copy> Gemma4Model<F> {
    /// A model of these parameters, with the tensors that they call for.
    pub fn new(params: Gemma4Params<F>, handle: &WeightsHandle, mask: MaskValues<F>) -> (r: Result<
        Self,
        ModelError,
    >)
        ensures
            match r {
                Ok(m) => {
                    &&& m.params == params
                    &&& gemma4_collected(handle, params, m.weights)
                    &&& m.mask == mask
                },
                Err(e) => handle.missing(gemma4_names(params.n_layer as int)) matches Some(n)
                    && says_missing(e, n),
            },
    {
        let weights = collect_weights(handle, &params)?;
        Ok(Gemma4Model { params, weights, mask })
    }
}

impl<F: Copy> Model for Gemma4Model<F> {
    open spec fn sized(&self) -> bool {
        &&& self.params.wf(self.params.n_layer as int)
        &&& self.params.n_head * greater(self.params.head_dim_global, self.params.head_dim_swa)
            <= u32::MAX
    }

    /// Eight activations of the model's width, four of the queries', six of the
    /// keys', five of the feed-forward's, each at its widest; the residual, the
    /// mask and one column of logits; and split attention.
    open spec fn estimate(
        &self,
        n_ubatch: u32,
        max_seq_len: u32,
        mixed: bool,
        max_batch: u32,
    ) -> int {
        let p = &self.params;
        let l = pass_tokens(n_ubatch, max_seq_len);
        let head = greater(p.head_dim_global, p.head_dim_swa);
        let kv_max = greatest(p.kv_widths(), 0);
        padded(
            columns(8 * p.n_embd + 4 * (p.n_head * head) + 6 * kv_max + 5 * p.n_ff, l) + columns(
                p.n_embd as int,
                l,
            ) + columns(l, l) + columns(p.n_vocab as int, 1) + partials(
                head,
                l,
                p.n_head,
                max_seq_len,
            ),
            33554432,
        )
    }

    fn arch(&self) -> (r: &'static str)
        ensures
            r@ == "gemma4"@,
    {
        "gemma4"
    }

    fn vocab_size(&self) -> (r: u32)
        ensures
            r == self.params.n_vocab,
    {
        self.params.n_vocab
    }

    /// The greatest of the layers' sizes.
    fn cache_dims(&self) -> (r: CacheDims)
        ensures
            r == (CacheDims {
                n_layer: self.params.n_layer,
                head_dim: greater(self.params.head_dim_global, self.params.head_dim_swa),
                n_head_kv: greatest(self.params.n_head_kv@, 1),
                n_head: self.params.n_head,
            }),
    {
        CacheDims {
            n_layer: self.params.n_layer,
            head_dim: greater_of(self.params.head_dim_global, self.params.head_dim_swa),
            n_head_kv: greatest_of(&self.params.n_head_kv, 1),
            n_head: self.params.n_head,
        }
    }

    fn cache_per_layer_dims(&self) -> (r: Option<(Vec<u32>, Vec<u32>)>)
        ensures
            r matches Some((head_dims, n_head_kv)) && head_dims@ == self.params.head_widths()
                && n_head_kv@ == self.params.n_head_kv@,
    {
        let n_head_kv = vstd::slice::slice_to_vec(self.params.n_head_kv.as_slice());
        Some((self.params.head_dims(), n_head_kv))
    }

    fn image_uses_mrope(&self) -> (r: bool)
        ensures
            !r,
    {
        false
    }

    fn recommended_prefill_ubatch(&self) -> (r: Option<u32>)
        ensures
            r == Some(128u32),
    {
        Some(128)
    }

    fn scratch_bytes_estimate(
        &self,
        n_ubatch: u32,
        max_seq_len: u32,
        k_dtype: GgmlType,
        v_dtype: GgmlType,
        max_batch: u32,
    ) -> (r: u64) {
        let p = &self.params;
        let l: u64 = longest_pass(n_ubatch, max_seq_len);
        let head: u32 = greater_of(p.head_dim_global, p.head_dim_swa);
        let kv_max: u64 = greatest_of(&p.kv_dims(), 0) as u64;
        let width: u64 = 8 * p.n_embd as u64 + 4 * (p.n_head * head) as u64 + 6 * kv_max + 5
            * p.n_ff as u64;
        proof {
            lemma_columns(width as int, l as int);
            lemma_columns(p.n_embd as int, l as int);
            lemma_columns(l as int, l as int);
            lemma_columns(p.n_vocab as int, 1);
            lemma_partials(head, l as int, p.n_head, max_seq_len);
        }
        let raw: u64 = columns_bytes(width, l) + columns_bytes(p.n_embd as u64, l) + columns_bytes(
            l,
            l,
        ) + columns_bytes(p.n_vocab as u64, 1) + partial_bytes(head, l, p.n_head, max_seq_len);
        raw + raw / 3 + 33554432
    }
}

} // verus!
