//! Setting up a Qwen 3 model from its file.
use vstd::prelude::*;

use crate::gguf::GgufFile;
use crate::models::describe::{
    columns, columns_bytes, lemma_columns, lemma_partials, logit_columns, longest_pass, padded,
    partial_bytes, partials, pass_tokens, FloatConstants, Model,
};
use crate::models::llama_params::outer_names;
use crate::models::loading::{
    block_names, f32_or, float_else, lemma_all_there, lemma_missing_first, lemma_missing_prefix,
    load, load_block, model_names, says_missing, u32_at, u32_else, u32_key, u32_or, vocab_at,
    vocab_key, words, Fault, ModelError, WeightsHandle,
};
use crate::models::masks::MaskValues;
use crate::models::metadata::{floats_as, gives, gives_none, reads_as};
use crate::models::qwen3::{Qwen3BlockWeights, Qwen3Model, Qwen3Params, Qwen3Weights};
use crate::models::tensor::{GgmlType, TensorView};
use crate::models::CacheDims;
use crate::pairs::leads;

verus! {

/// The parameters that a file gives.
pub open spec fn qwen3_params<F>(gguf: &GgufFile<F>, c: &FloatConstants<F>) -> Qwen3Params<F> {
    let n_head = u32_at(gguf, "qwen3.attention.head_count")->Ok_0;
    let n_embd = u32_at(gguf, "qwen3.embedding_length")->Ok_0;
    let head_dim = u32_else(gguf, "qwen3.attention.key_length"@, n_embd / n_head);
    Qwen3Params {
        n_layer: u32_at(gguf, "qwen3.block_count")->Ok_0,
        n_head,
        n_head_kv: u32_else(gguf, "qwen3.attention.head_count_kv"@, n_head),
        n_embd,
        n_ff: u32_at(gguf, "qwen3.feed_forward_length")->Ok_0,
        n_vocab: vocab_at(gguf, "qwen3.vocab_size")->Ok_0,
        n_ctx_train: u32_else(gguf, "qwen3.context_length"@, 32768),
        head_dim,
        rms_eps: float_else(gguf, "qwen3.attention.layer_norm_rms_epsilon"@, c.eps_6),
        rope_freq_base: float_else(gguf, "qwen3.rope.freq_base"@, c.million),
        rope_dim: u32_else(gguf, "qwen3.rope.dimension_count"@, head_dim),
        attn_scale: c.one,
    }
}

/// Why a file does not describe a Qwen 3 model, if it does not: the first failing
/// read or test counts.
pub open spec fn qwen3_failure<F>(gguf: &GgufFile<F>, c: &FloatConstants<F>) -> Option<
    ModelError,
> {
    let p = qwen3_params(gguf, c);
    if u32_at(gguf, "qwen3.block_count") is Err {
        Some(u32_at(gguf, "qwen3.block_count")->Err_0)
    } else if u32_at(gguf, "qwen3.attention.head_count") is Err {
        Some(u32_at(gguf, "qwen3.attention.head_count")->Err_0)
    } else if p.n_head == 0 {
        Some(
            ModelError::BadMetadata {
                key: "qwen3.attention.head_count",
                detail: Fault::NotPositive,
            },
        )
    } else if p.n_head_kv == 0 || p.n_head % p.n_head_kv != 0 {
        Some(
            ModelError::BadMetadata {
                key: "qwen3.attention.head_count_kv",
                detail: Fault::NotADivisor { n_head: p.n_head, got: p.n_head_kv },
            },
        )
    } else if u32_at(gguf, "qwen3.embedding_length") is Err {
        Some(u32_at(gguf, "qwen3.embedding_length")->Err_0)
    } else if u32_at(gguf, "qwen3.feed_forward_length") is Err {
        Some(u32_at(gguf, "qwen3.feed_forward_length")->Err_0)
    } else if p.head_dim == 0 {
        Some(
            ModelError::BadMetadata {
                key: "qwen3.attention.key_length",
                detail: Fault::NotPositive,
            },
        )
    } else if p.rope_dim == 0 || p.rope_dim > p.head_dim {
        Some(
            ModelError::BadMetadata {
                key: "qwen3.rope.dimension_count",
                detail: Fault::OutsideHead { head_dim: p.head_dim, got: p.rope_dim },
            },
        )
    } else if vocab_at(gguf, "qwen3.vocab_size") is Err {
        Some(vocab_at(gguf, "qwen3.vocab_size")->Err_0)
    } else {
        None
    }
}

/// Read the parameters of a Qwen 3 model. The attention scale is left at one; see
/// [`Qwen3Params::scaled`].
pub fn parse_params<F: Copy>(gguf: &GgufFile<F>, c: &FloatConstants<F>) -> (r: Result<
    Qwen3Params<F>,
    ModelError,
>)
    ensures
        match r {
            Ok(p) => qwen3_failure(gguf, c) is None && p == qwen3_params(gguf, c),
            Err(e) => qwen3_failure(gguf, c) == Some(e),
        },
        r matches Ok(p) ==> {
            &&& gives(gguf, "qwen3.block_count"@, p.n_layer)
            &&& gives(gguf, "qwen3.attention.head_count"@, p.n_head)
            &&& reads_as(gguf, "qwen3.attention.head_count_kv"@, p.n_head_kv, p.n_head)
            &&& gives(gguf, "qwen3.embedding_length"@, p.n_embd)
            &&& gives(gguf, "qwen3.feed_forward_length"@, p.n_ff)
            &&& (gives(gguf, "qwen3.vocab_size"@, p.n_vocab) || gives_none(gguf, "qwen3.vocab_size"@) && exists|i: int| #[trigger]
                leads(gguf.tensors@, "token_embd.weight"@, i) && p.n_vocab
                    == gguf.tensors@[i].1.dims.d1 as u32)
            &&& reads_as(gguf, "qwen3.context_length"@, p.n_ctx_train, 32768)
            &&& reads_as(gguf, "qwen3.attention.key_length"@, p.head_dim, p.n_embd / p.n_head)
            &&& floats_as(gguf, "qwen3.attention.layer_norm_rms_epsilon"@, p.rms_eps, c.eps_6)
            &&& floats_as(gguf, "qwen3.rope.freq_base"@, p.rope_freq_base, c.million)
            &&& reads_as(gguf, "qwen3.rope.dimension_count"@, p.rope_dim, p.head_dim)
            &&& p.attn_scale == c.one
            &&& p.n_head > 0 && p.n_head_kv > 0 && p.n_head % p.n_head_kv == 0
            &&& 0 < p.rope_dim <= p.head_dim
        },
{
    let n_layer: u32 = u32_key(gguf, "qwen3.block_count")?;
    let n_head: u32 = u32_key(gguf, "qwen3.attention.head_count")?;
    if n_head == 0 {
        return Err(
            ModelError::BadMetadata {
                key: "qwen3.attention.head_count",
                detail: Fault::NotPositive,
            },
        );
    }
    let n_head_kv: u32 = u32_or(gguf, "qwen3.attention.head_count_kv", n_head);
    if n_head_kv == 0 || n_head % n_head_kv != 0 {
        return Err(
            ModelError::BadMetadata {
                key: "qwen3.attention.head_count_kv",
                detail: Fault::NotADivisor { n_head, got: n_head_kv },
            },
        );
    }
    let n_embd: u32 = u32_key(gguf, "qwen3.embedding_length")?;
    let n_ff: u32 = u32_key(gguf, "qwen3.feed_forward_length")?;
    let n_ctx_train: u32 = u32_or(gguf, "qwen3.context_length", 32768);
    let rms_eps = f32_or(gguf, "qwen3.attention.layer_norm_rms_epsilon", c.eps_6);
    let head_dim: u32 = u32_or(gguf, "qwen3.attention.key_length", n_embd / n_head);
    if head_dim == 0 {
        return Err(
            ModelError::BadMetadata {
                key: "qwen3.attention.key_length",
                detail: Fault::NotPositive,
            },
        );
    }
    let rope_freq_base = f32_or(gguf, "qwen3.rope.freq_base", c.million);
    let rope_dim: u32 = u32_or(gguf, "qwen3.rope.dimension_count", head_dim);
    if rope_dim == 0 || rope_dim > head_dim {
        return Err(
            ModelError::BadMetadata {
                key: "qwen3.rope.dimension_count",
                detail: Fault::OutsideHead { head_dim, got: rope_dim },
            },
        );
    }
    let n_vocab: u32 = vocab_key(gguf, "qwen3.vocab_size")?;
    Ok(
        Qwen3Params {
            n_layer,
            n_head,
            n_head_kv,
            n_embd,
            n_ff,
            n_vocab,
            n_ctx_train,
            head_dim,
            rms_eps,
            rope_freq_base,
            rope_dim,
            attn_scale: c.one,
        },
    )
}

impl<F: Copy> Qwen3Params<F> {
    /// The parameters with this scale on attention scores.
    pub fn scaled(self, attn_scale: F) -> (r: Self)
        ensures
            r == (Qwen3Params { attn_scale, ..self }),
    {
        Qwen3Params { attn_scale, ..self }
    }
}

/// The suffixes of a block's tensors.
pub open spec fn qwen3_suffixes() -> Seq<Seq<char>> {
    seq![
        "attn_norm.weight"@,
        "attn_q.weight"@,
        "attn_q_norm.weight"@,
        "attn_k.weight"@,
        "attn_k_norm.weight"@,
        "attn_v.weight"@,
        "attn_output.weight"@,
        "ffn_norm.weight"@,
        "ffn_gate.weight"@,
        "ffn_up.weight"@,
        "ffn_down.weight"@,
    ]
}

/// A block of these tensors.
pub open spec fn qwen3_block(v: Seq<TensorView>) -> Qwen3BlockWeights {
    Qwen3BlockWeights {
        attn_norm: v[0],
        wq: v[1],
        attn_q_norm: v[2],
        wk: v[3],
        attn_k_norm: v[4],
        wv: v[5],
        wo: v[6],
        ffn_norm: v[7],
        ffn_gate: v[8],
        ffn_up: v[9],
        ffn_down: v[10],
    }
}

/// The names of all tensors that a model of `n` blocks must have.
pub open spec fn qwen3_names(n: int) -> Seq<Seq<char>> {
    model_names(outer_names(), |i: int| qwen3_suffixes(), n)
}

/// These are the uploaded tensors of a model.
pub open spec fn qwen3_collected<F: Copy>(
    handle: &WeightsHandle,
    params: Qwen3Params<F>,
    w: Qwen3Weights,
) -> bool {
    &&& handle.missing(qwen3_names(params.n_layer as int)) is None
    &&& handle.at("token_embd.weight"@) == Some(w.token_embd)
    &&& handle.at("output_norm.weight"@) == Some(w.output_norm)
    &&& w.output == handle.at("output.weight"@)
    &&& w.blocks@.len() == params.n_layer
    &&& forall|i: int|
        0 <= i < params.n_layer ==> #[trigger] w.blocks@[i] == qwen3_block(
            handle.views(block_names(i, qwen3_suffixes())),
        )
}

/// Collect the tensors of a model.
pub fn collect_weights<F: Copy>(handle: &WeightsHandle, params: &Qwen3Params<F>) -> (r: Result<
    Qwen3Weights,
    ModelError,
>)
    ensures
        match r {
            Ok(w) => qwen3_collected(handle, *params, w),
            Err(e) => handle.missing(qwen3_names(params.n_layer as int)) matches Some(n)
                && says_missing(e, n),
        },
{
    let ghost n = params.n_layer as int;
    let ghost of = |i: int| qwen3_suffixes();
    let outer = match load(handle, &["token_embd.weight", "output_norm.weight"]) {
        Ok(v) => v,
        Err(e) => {
            proof {
                assert(words(["token_embd.weight", "output_norm.weight"]@) =~= outer_names());
                lemma_missing_first(handle, outer_names(), of, 0, n);
            }
            return Err(e);
        },
    };
    proof {
        assert(words(["token_embd.weight", "output_norm.weight"]@) =~= outer_names());
        lemma_all_there(handle, outer_names(), 0);
        lemma_all_there(handle, outer_names(), 1);
    }
    let output = handle.view("output.weight");
    let mut blocks: Vec<Qwen3BlockWeights> = Vec::new();
    let mut i: u32 = 0;
    while i < params.n_layer
        invariant
            i <= params.n_layer,
            n == params.n_layer,
            of == |i: int| qwen3_suffixes(),
            handle.missing(model_names(outer_names(), of, i as int)) is None,
            blocks@.len() == i,
            forall|k: int|
                0 <= k < i ==> #[trigger] blocks@[k] == qwen3_block(
                    handle.views(block_names(k, qwen3_suffixes())),
                ),
        decreases params.n_layer - i,
    {
        let suffixes = [
            "attn_norm.weight",
            "attn_q.weight",
            "attn_q_norm.weight",
            "attn_k.weight",
            "attn_k_norm.weight",
            "attn_v.weight",
            "attn_output.weight",
            "ffn_norm.weight",
            "ffn_gate.weight",
            "ffn_up.weight",
            "ffn_down.weight",
        ];
        proof {
            assert(words(suffixes@) =~= qwen3_suffixes());
            lemma_missing_prefix(
                handle,
                model_names(outer_names(), of, i as int),
                block_names(i as int, qwen3_suffixes()),
            );
        }
        let v = match load_block(handle, i, &suffixes) {
            Ok(v) => v,
            Err(e) => {
                proof {
                    lemma_missing_first(handle, outer_names(), of, i + 1, n);
                }
                return Err(e);
            },
        };
        blocks.push(
            Qwen3BlockWeights {
                attn_norm: v[0],
                wq: v[1],
                attn_q_norm: v[2],
                wk: v[3],
                attn_k_norm: v[4],
                wv: v[5],
                wo: v[6],
                ffn_norm: v[7],
                ffn_gate: v[8],
                ffn_up: v[9],
                ffn_down: v[10],
            },
        );
        i += 1;
    }
    Ok(Qwen3Weights { token_embd: outer[0], blocks, output_norm: outer[1], output })
}

impl<F: Copy> Qwen3Model<F> {
    /// A model of these parameters, with the tensors that they call for.
    pub fn new(params: Qwen3Params<F>, handle: &WeightsHandle, mask: MaskValues<F>) -> (r: Result<
        Self,
        ModelError,
    >)
        ensures
            match r {
                Ok(m) => {
                    &&& m.params == params
                    &&& qwen3_collected(handle, params, m.weights)
                    &&& m.mask == mask
                },
                Err(e) => handle.missing(qwen3_names(params.n_layer as int)) matches Some(n)
                    && says_missing(e, n),
            },
    {
        let weights = collect_weights(handle, &params)?;
        Ok(Qwen3Model { params, weights, mask })
    }
}

impl<F: Copy> Model for Qwen3Model<F> {
    open spec fn sized(&self) -> bool {
        self.params.wf()
    }

    /// Four activations each of the model's, the queries', the keys' and the
    /// feed-forward's width; the residual, the mask and the logits of every
    /// sequence; and split attention.
    open spec fn estimate(
        &self,
        n_ubatch: u32,
        max_seq_len: u32,
        mixed: bool,
        max_batch: u32,
    ) -> int {
        let p = &self.params;
        let l = pass_tokens(n_ubatch, max_seq_len);
        padded(
            columns(4 * p.n_embd + 4 * p.q_width() + 4 * p.kv_width() + 4 * p.n_ff, l) + columns(
                p.n_embd as int,
                l,
            ) + columns(l, l) + columns(p.n_vocab as int, logit_columns(max_batch)) + partials(
                p.head_dim,
                l,
                p.n_head,
                max_seq_len,
            ),
            33554432,
        )
    }

    fn arch(&self) -> (r: &'static str)
        ensures
            r@ == "qwen3"@,
    {
        "qwen3"
    }

    fn vocab_size(&self) -> (r: u32)
        ensures
            r == self.params.n_vocab,
    {
        self.params.n_vocab
    }

    fn cache_dims(&self) -> (r: CacheDims)
        ensures
            r == (CacheDims {
                n_layer: self.params.n_layer,
                head_dim: self.params.head_dim,
                n_head_kv: self.params.n_head_kv,
                n_head: self.params.n_head,
            }),
    {
        CacheDims {
            n_layer: self.params.n_layer,
            head_dim: self.params.head_dim,
            n_head_kv: self.params.n_head_kv,
            n_head: self.params.n_head,
        }
    }

    fn supports_embed_batch(&self) -> (r: bool)
        ensures
            r,
    {
        true
    }

    fn scratch_bytes_estimate(
        &self,
        n_ubatch: u32,
        max_seq_len: u32,
        k_dtype: GgmlType,
        v_dtype: GgmlType,
        max_batch: u32,
    ) -> (r: u64) {
        let p = &self.params;
        let l: u64 = longest_pass(n_ubatch, max_seq_len);
        let width: u64 = 4 * p.n_embd as u64 + 4 * p.q_dim() as u64 + 4 * p.kv_dim() as u64 + 4
            * p.n_ff as u64;
        let batch: u64 = if max_batch >= 1 {
            max_batch as u64
        } else {
            1
        };
        proof {
            lemma_columns(width as int, l as int);
            lemma_columns(p.n_embd as int, l as int);
            lemma_columns(l as int, l as int);
            lemma_columns(p.n_vocab as int, batch as int);
            lemma_partials(p.head_dim, l as int, p.n_head, max_seq_len);
        }
        let raw: u64 = columns_bytes(width, l) + columns_bytes(p.n_embd as u64, l) + columns_bytes(
            l,
            l,
        ) + columns_bytes(p.n_vocab as u64, batch) + partial_bytes(
            p.head_dim,
            l,
            p.n_head,
            max_seq_len,
        );
        raw + raw / 3 + 33554432
    }
}

} // verus!
