//! Setting up a LLaMA model from its file.
use vstd::prelude::*;

use crate::gguf::GgufFile;
use crate::models::describe::{
    columns, columns_bytes, lemma_columns, lemma_partials, logit_columns, longest_pass, padded, partial_bytes,
    partials, pass_tokens, FloatConstants, Model,
};
use crate::models::llama::{LlamaBlockWeights, LlamaModel, LlamaParams, LlamaWeights};
use crate::models::loading::{
    block_names, f32_or, float_else, lemma_all_there, lemma_missing_first, lemma_missing_prefix,
    load, load_block, model_names, says_missing, u32_at, u32_else, u32_key, u32_or, words,
    ModelError, WeightsHandle,
};
use crate::models::masks::MaskValues;
use crate::models::metadata::{floats_as, gives, gives_none, reads_as};
use crate::models::tensor::{GgmlType, TensorView};
use crate::models::CacheDims;
use crate::pairs::lacks;

verus! {

/// Why a file does not describe a LLaMA model, if it does not: the first failing
/// read counts.
pub open spec fn llama_failure<F>(gguf: &GgufFile<F>) -> Option<ModelError> {
    if u32_at(gguf, "llama.block_count") is Err {
        Some(u32_at(gguf, "llama.block_count")->Err_0)
    } else if u32_at(gguf, "llama.attention.head_count") is Err {
        Some(u32_at(gguf, "llama.attention.head_count")->Err_0)
    } else if u32_at(gguf, "llama.embedding_length") is Err {
        Some(u32_at(gguf, "llama.embedding_length")->Err_0)
    } else if u32_at(gguf, "llama.feed_forward_length") is Err {
        Some(u32_at(gguf, "llama.feed_forward_length")->Err_0)
    } else if u32_at(gguf, "llama.context_length") is Err {
        Some(u32_at(gguf, "llama.context_length")->Err_0)
    } else if u32_at(gguf, "llama.vocab_size") is Err {
        Some(u32_at(gguf, "llama.vocab_size")->Err_0)
    } else {
        None
    }
}

/// The parameters that a file gives.
pub open spec fn llama_params<F>(gguf: &GgufFile<F>, c: &FloatConstants<F>) -> LlamaParams<F> {
    let n_head = u32_at(gguf, "llama.attention.head_count")->Ok_0;
    let n_embd = u32_at(gguf, "llama.embedding_length")->Ok_0;
    LlamaParams {
        n_layer: u32_at(gguf, "llama.block_count")->Ok_0,
        n_head,
        n_head_kv: u32_else(gguf, "llama.attention.head_count_kv"@, n_head),
        n_embd,
        n_ff: u32_at(gguf, "llama.feed_forward_length")->Ok_0,
        n_vocab: u32_at(gguf, "llama.vocab_size")->Ok_0,
        n_ctx_train: u32_at(gguf, "llama.context_length")->Ok_0,
        rope_dim: u32_else(gguf, "llama.rope.dimension_count"@, n_embd / n_head),
        rope_freq_base: float_else(gguf, "llama.rope.freq_base"@, c.ten_thousand),
        rms_eps: float_else(gguf, "llama.attention.layer_norm_rms_epsilon"@, c.eps_5),
        attn_scale: c.one,
    }
}

/// Heads are counted by the time that the width is shared out among them.
pub open spec fn llama_heads_counted<F>(gguf: &GgufFile<F>) -> bool {
    u32_at(gguf, "llama.attention.head_count") == Ok::<u32, ModelError>(0) ==> {
        ||| u32_at(gguf, "llama.block_count") is Err
        ||| u32_at(gguf, "llama.embedding_length") is Err
        ||| u32_at(gguf, "llama.feed_forward_length") is Err
        ||| u32_at(gguf, "llama.context_length") is Err
    }
}

/// Read the parameters of a LLaMA model. The attention scale is left at one; see
/// [`LlamaParams::scaled`].
pub fn parse_params<F: Copy>(gguf: &GgufFile<F>, c: &FloatConstants<F>) -> (r: Result<
    LlamaParams<F>,
    ModelError,
>)
    requires
        llama_heads_counted(gguf),
    ensures
        match r {
            Ok(p) => llama_failure(gguf) is None && p == llama_params(gguf, c),
            Err(e) => llama_failure(gguf) == Some(e),
        },
        r matches Ok(p) ==> {
            &&& gives(gguf, "llama.block_count"@, p.n_layer)
            &&& gives(gguf, "llama.attention.head_count"@, p.n_head)
            &&& reads_as(gguf, "llama.attention.head_count_kv"@, p.n_head_kv, p.n_head)
            &&& gives(gguf, "llama.embedding_length"@, p.n_embd)
            &&& gives(gguf, "llama.feed_forward_length"@, p.n_ff)
            &&& gives(gguf, "llama.vocab_size"@, p.n_vocab)
            &&& gives(gguf, "llama.context_length"@, p.n_ctx_train)
            &&& reads_as(gguf, "llama.rope.dimension_count"@, p.rope_dim, p.n_embd / p.n_head)
            &&& floats_as(gguf, "llama.rope.freq_base"@, p.rope_freq_base, c.ten_thousand)
            &&& floats_as(gguf, "llama.attention.layer_norm_rms_epsilon"@, p.rms_eps, c.eps_5)
            &&& p.attn_scale == c.one
        },
        r is Err <==> {
            ||| gives_none(gguf, "llama.block_count"@)
            ||| gives_none(gguf, "llama.attention.head_count"@)
            ||| gives_none(gguf, "llama.embedding_length"@)
            ||| gives_none(gguf, "llama.feed_forward_length"@)
            ||| gives_none(gguf, "llama.context_length"@)
            ||| gives_none(gguf, "llama.vocab_size"@)
        },
        r matches Err(e) ==> {
            ||| e matches ModelError::MissingMetadata(k) && lacks(gguf.metadata@, k@)
            ||| e matches ModelError::BadMetadata { key: k, detail: _ } && gives_none(gguf, k@)
        },
{
    let n_layer: u32 = u32_key(gguf, "llama.block_count")?;
    let n_head: u32 = u32_key(gguf, "llama.attention.head_count")?;
    let n_head_kv: u32 = u32_or(gguf, "llama.attention.head_count_kv", n_head);
    let n_embd: u32 = u32_key(gguf, "llama.embedding_length")?;
    let n_ff: u32 = u32_key(gguf, "llama.feed_forward_length")?;
    let n_ctx_train: u32 = u32_key(gguf, "llama.context_length")?;
    let rope_dim: u32 = u32_or(gguf, "llama.rope.dimension_count", n_embd / n_head);
    let rope_freq_base = f32_or(gguf, "llama.rope.freq_base", c.ten_thousand);
    let rms_eps = f32_or(gguf, "llama.attention.layer_norm_rms_epsilon", c.eps_5);
    let n_vocab: u32 = u32_key(gguf, "llama.vocab_size")?;
    Ok(
        LlamaParams {
            n_layer,
            n_head,
            n_head_kv,
            n_embd,
            n_ff,
            n_vocab,
            n_ctx_train,
            rope_dim,
            rope_freq_base,
            rms_eps,
            attn_scale: c.one,
        },
    )
}

impl<F: Copy> LlamaParams<F> {
    /// The parameters with this scale on attention scores.
    pub fn scaled(self, attn_scale: F) -> (r: Self)
        ensures
            r == (LlamaParams { attn_scale, ..self }),
    {
        LlamaParams { attn_scale, ..self }
    }
}

/// The names of the tensors outside the blocks that every model has.
pub open spec fn outer_names() -> Seq<Seq<char>> {
    seq!["token_embd.weight"@, "output_norm.weight"@]
}

/// The suffixes of a block's tensors.
pub open spec fn llama_suffixes() -> Seq<Seq<char>> {
    seq![
        "attn_norm.weight"@,
        "attn_q.weight"@,
        "attn_k.weight"@,
        "attn_v.weight"@,
        "attn_output.weight"@,
        "ffn_norm.weight"@,
        "ffn_gate.weight"@,
        "ffn_up.weight"@,
        "ffn_down.weight"@,
    ]
}

/// A block of these tensors.
pub open spec fn llama_block(v: Seq<TensorView>) -> LlamaBlockWeights {
    LlamaBlockWeights {
        attn_norm: v[0],
        wq: v[1],
        wk: v[2],
        wv: v[3],
        wo: v[4],
        ffn_norm: v[5],
        ffn_gate: v[6],
        ffn_up: v[7],
        ffn_down: v[8],
    }
}

/// The names of all tensors that a model of `n` blocks must have.
pub open spec fn llama_names(n: int) -> Seq<Seq<char>> {
    model_names(outer_names(), |i: int| llama_suffixes(), n)
}

/// These are the uploaded tensors of a model.
pub open spec fn llama_collected<F: Copy>(
    handle: &WeightsHandle,
    params: LlamaParams<F>,
    w: LlamaWeights,
) -> bool {
    &&& handle.missing(llama_names(params.n_layer as int)) is None
    &&& handle.at("token_embd.weight"@) == Some(w.token_embd)
    &&& handle.at("output_norm.weight"@) == Some(w.output_norm)
    &&& w.output == handle.at("output.weight"@)
    &&& w.blocks@.len() == params.n_layer
    &&& forall|i: int|
        0 <= i < params.n_layer ==> #[trigger] w.blocks@[i] == llama_block(
            handle.views(block_names(i, llama_suffixes())),
        )
}

/// Collect the tensors of a model.
pub fn collect_weights<F: Copy>(handle: &WeightsHandle, params: &LlamaParams<F>) -> (r: Result<
    LlamaWeights,
    ModelError,
>)
    ensures
        match r {
            Ok(w) => llama_collected(handle, *params, w),
            Err(e) => handle.missing(llama_names(params.n_layer as int)) matches Some(n)
                && says_missing(e, n),
        },
{
    let ghost n = params.n_layer as int;
    let ghost of = |i: int| llama_suffixes();
    let outer = match load(handle, &["token_embd.weight", "output_norm.weight"]) {
        Ok(v) => v,
        Err(e) => {
            proof {
                assert(words(["token_embd.weight", "output_norm.weight"]@) =~= outer_names());
                lemma_missing_first(handle, outer_names(), of, 0, n);
            }
            return Err(e);
        },
    };
    proof {
        assert(words(["token_embd.weight", "output_norm.weight"]@) =~= outer_names());
        lemma_all_there(handle, outer_names(), 0);
        lemma_all_there(handle, outer_names(), 1);
    }
    let output = handle.view("output.weight");
    let mut blocks: Vec<LlamaBlockWeights> = Vec::new();
    let mut i: u32 = 0;
    while i < params.n_layer
        invariant
            i <= params.n_layer,
            n == params.n_layer,
            of == |i: int| llama_suffixes(),
            handle.missing(model_names(outer_names(), of, i as int)) is None,
            blocks@.len() == i,
            forall|k: int|
                0 <= k < i ==> #[trigger] blocks@[k] == llama_block(
                    handle.views(block_names(k, llama_suffixes())),
                ),
        decreases params.n_layer - i,
    {
        let suffixes = [
            "attn_norm.weight",
            "attn_q.weight",
            "attn_k.weight",
            "attn_v.weight",
            "attn_output.weight",
            "ffn_norm.weight",
            "ffn_gate.weight",
            "ffn_up.weight",
            "ffn_down.weight",
        ];
        proof {
            assert(words(suffixes@) =~= llama_suffixes());
            lemma_missing_prefix(
                handle,
                model_names(outer_names(), of, i as int),
                block_names(i as int, llama_suffixes()),
            );
        }
        let v = match load_block(handle, i, &suffixes) {
            Ok(v) => v,
            Err(e) => {
                proof {
                    lemma_missing_first(handle, outer_names(), of, i + 1, n);
                }
                return Err(e);
            },
        };
        blocks.push(
            LlamaBlockWeights {
                attn_norm: v[0],
                wq: v[1],
                wk: v[2],
                wv: v[3],
                wo: v[4],
                ffn_norm: v[5],
                ffn_gate: v[6],
                ffn_up: v[7],
                ffn_down: v[8],
            },
        );
        i += 1;
    }
    Ok(LlamaWeights { token_embd: outer[0], blocks, output_norm: outer[1], output })
}

impl<F: Copy> LlamaModel<F> {
    /// A model of these parameters, with the tensors that they call for.
    pub fn new(params: LlamaParams<F>, handle: &WeightsHandle, mask: MaskValues<F>) -> (r: Result<
        Self,
        ModelError,
    >)
        ensures
            match r {
                Ok(m) => {
                    &&& m.params == params
                    &&& llama_collected(handle, params, m.weights)
                    &&& m.mask == mask
                },
                Err(e) => handle.missing(llama_names(params.n_layer as int)) matches Some(n)
                    && says_missing(e, n),
            },
    {
        let weights = collect_weights(handle, &params)?;
        Ok(LlamaModel { params, weights, mask })
    }
}

impl<F: Copy> Model for LlamaModel<F> {
    open spec fn sized(&self) -> bool {
        self.params.wf()
    }

    /// Seven activations of the model's width, three of the keys', four of the
    /// feed-forward's; the residual, the mask and the logits of every sequence;
    /// staged caches where keys and values differ in type; and split attention.
    open spec fn estimate(
        &self,
        n_ubatch: u32,
        max_seq_len: u32,
        mixed: bool,
        max_batch: u32,
    ) -> int {
        let p = &self.params;
        let l = pass_tokens(n_ubatch, max_seq_len);
        padded(
            columns(7 * p.n_embd + 3 * p.kv_width() + 4 * p.n_ff, l) + columns(p.n_embd as int, l)
                + columns(l, l) + columns(p.n_vocab as int, logit_columns(max_batch)) + (if mixed {
                columns(2 * p.kv_width(), max_seq_len as int)
            } else {
                0
            }) + partials(p.head(), l, p.n_head, max_seq_len),
            33554432,
        )
    }

    fn arch(&self) -> (r: &'static str)
        ensures
            r@ == "llama"@,
    {
        "llama"
    }

    fn vocab_size(&self) -> (r: u32)
        ensures
            r == self.params.n_vocab,
    {
        self.params.n_vocab
    }

    fn cache_dims(&self) -> (r: CacheDims)
        ensures
            r == (CacheDims {
                n_layer: self.params.n_layer,
                head_dim: self.params.head(),
                n_head_kv: self.params.n_head_kv,
                n_head: self.params.n_head,
            }),
    {
        CacheDims {
            n_layer: self.params.n_layer,
            head_dim: self.params.head_dim(),
            n_head_kv: self.params.n_head_kv,
            n_head: self.params.n_head,
        }
    }

    fn supports_unified(&self) -> (r: bool)
        ensures
            r,
    {
        true
    }

    fn supports_batch_decode(&self) -> (r: bool)
        ensures
            r,
    {
        true
    }

    fn scratch_bytes_estimate(
        &self,
        n_ubatch: u32,
        max_seq_len: u32,
        k_dtype: GgmlType,
        v_dtype: GgmlType,
        max_batch: u32,
    ) -> (r: u64) {
        let p = &self.params;
        let l: u64 = longest_pass(n_ubatch, max_seq_len);
        let n_kv: u64 = p.n_embd_kv() as u64;
        let width: u64 = 7 * p.n_embd as u64 + 3 * n_kv + 4 * p.n_ff as u64;
        proof {
            lemma_columns(width as int, l as int);
            lemma_columns(p.n_embd as int, l as int);
            lemma_columns(l as int, l as int);
            lemma_columns(2 * n_kv, max_seq_len as int);
            lemma_partials(p.head(), l as int, p.n_head, max_seq_len);
        }
        let batch: u64 = if max_batch >= 1 {
            max_batch as u64
        } else {
            1
        };
        proof {
            lemma_columns(p.n_vocab as int, batch as int);
        }
        let staging: u64 = if k_dtype != v_dtype {
            columns_bytes(2 * n_kv, max_seq_len as u64)
        } else {
            0
        };
        let raw: u64 = columns_bytes(width, l) + columns_bytes(p.n_embd as u64, l) + columns_bytes(
            l,
            l,
        ) + columns_bytes(p.n_vocab as u64, batch) + staging + partial_bytes(
            p.head_dim(),
            l,
            p.n_head,
            max_seq_len,
        );
        raw + raw / 3 + 33554432
    }
}

} // verus!
