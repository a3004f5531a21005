//! Setting up a Qwen 3.5 mixture-of-experts model from its file.
use vstd::prelude::*;

use crate::models::recorder::{
    ReplayPlan,
};

use crate::gguf::{as_u32, coerce_u32, GgufFile, MetadataValue};
use crate::models::blocks::{sequential, sequential_positions};
use crate::models::describe::{
    columns, columns_bytes, greater, greater_of, lemma_columns, logit_columns, longest_pass, padded,
    pass_tokens, FloatConstants, Model, ModelReplayConstants,
};
use crate::models::llama_params::outer_names;
use crate::models::loading::{
    block_names, f32_or, float_else, lemma_all_there, lemma_missing_first, lemma_missing_prefix,
    load, load_block, model_names, says_missing, u32_at, u32_else, u32_key, u32_or, words, Fault,
    ModelError, WeightsHandle,
};
use crate::models::masks::MaskValues;
use crate::models::metadata::{
    floats_as, gives, gives_none, gives_sections, is_section, law_numbers_are_cut, reads_as,
};
use crate::models::mrope::{four, four_axes};
use crate::models::qwen35_weights::{
    all_off, attention_layer, recurrent_before, AttentionBlockWeights, BlockWeights, MoeFfnWeights,
    MtpWeights, Qwen35MoeParams, Qwen35MoeWeights, QwenSwitches, SsmBlockWeights,
};
use crate::models::qwen35moe::{rope_base, Qwen35MoeModel};
use crate::models::tensor::{Dims, GgmlType};
use crate::models::{CacheDims, SsmStateDims};
use crate::pairs::{law_first_pair_is_found, leads};

verus! {

/// The first of the first `n` entries that is no unsigned number, if there is
/// one.
pub open spec fn bad_section<F>(a: Seq<MetadataValue<F>>, n: int) -> Option<int>
    decreases n,
{
    if n <= 0 {
        None
    } else if bad_section(a, n - 1) is Some {
        bad_section(a, n - 1)
    } else if as_u32(a[n - 1]) is None {
        Some(n - 1)
    } else {
        None
    }
}

/// Entry `k` of a list of sections, or 0 past its end.
pub open spec fn section<F>(a: Seq<MetadataValue<F>>, k: int) -> u64 {
    if k < a.len() {
        as_u32(a[k])->0 as u64
    } else {
        0
    }
}

/// Up to four sections under `key`.
pub open spec fn sections_at<F>(gguf: &GgufFile<F>, key: &'static str) -> Result<Dims, ModelError> {
    match gguf.at(key@) {
        None => Err(ModelError::MissingMetadata(key)),
        Some(MetadataValue::Array(a)) => if a@.len() > 4 {
            Err(
                ModelError::BadMetadata {
                    key,
                    detail: Fault::TooManySections(a@.len() as usize),
                },
            )
        } else {
            match bad_section(a@, a@.len() as int) {
                Some(i) => Err(
                    ModelError::BadMetadata { key, detail: Fault::NotUnsignedSection(i as usize) },
                ),
                None => Ok(
                    Dims {
                        d0: section(a@, 0),
                        d1: section(a@, 1),
                        d2: section(a@, 2),
                        d3: section(a@, 3),
                    },
                ),
            }
        },
        Some(_) => Err(ModelError::BadMetadata { key, detail: Fault::NotArray }),
    }
}

/// The first bad entry stays the first as more entries follow.
proof fn lemma_bad_section<F>(a: Seq<MetadataValue<F>>, k: int, n: int)
    requires
        0 <= k <= n,
        bad_section(a, k) is Some,
    ensures
        bad_section(a, n) == bad_section(a, k),
    decreases n,
{
    if k < n {
        lemma_bad_section(a, k, n - 1);
    }
}

/// Sections are the numbers that the entries hold.
proof fn lemma_sections_cut<F>(a: Seq<MetadataValue<F>>, d: Dims)
    requires
        a.len() <= 4,
        bad_section(a, a.len() as int) is None,
        d == (Dims { d0: section(a, 0), d1: section(a, 1), d2: section(a, 2), d3: section(a, 3) }),
    ensures
        is_section(a, 0, d.d0),
        is_section(a, 1, d.d1),
        is_section(a, 2, d.d2),
        is_section(a, 3, d.d3),
{
    reveal_with_fuel(bad_section, 5);
    if a.len() > 0 {
        law_numbers_are_cut(a[0]);
    }
    if a.len() > 1 {
        law_numbers_are_cut(a[1]);
    }
    if a.len() > 2 {
        law_numbers_are_cut(a[2]);
    }
    if a.len() > 3 {
        law_numbers_are_cut(a[3]);
    }
}

/// Up to four sections under `key`.
pub fn read_sections<F>(gguf: &GgufFile<F>, key: &'static str) -> (r: Result<Dims, ModelError>)
    ensures
        r == sections_at(gguf, key),
        r matches Ok(d) ==> gives_sections(gguf, key@, d),
{
    let arr = match gguf.get(key) {
        None => {
            return Err(ModelError::MissingMetadata(key));
        },
        Some(MetadataValue::Array(a)) => a,
        Some(_) => {
            return Err(ModelError::BadMetadata { key, detail: Fault::NotArray });
        },
    };
    if arr.len() > 4 {
        return Err(
            ModelError::BadMetadata { key, detail: Fault::TooManySections(arr.len()) },
        );
    }
    let mut out = Dims { d0: 0, d1: 0, d2: 0, d3: 0 };
    let mut i: usize = 0;
    while i < arr.len()
        invariant
            gguf.at(key@) == Some(MetadataValue::Array(*arr)),
            i <= arr@.len() <= 4,
            bad_section(arr@, i as int) is None,
            out.d0 == if i > 0 {
                section(arr@, 0)
            } else {
                0
            },
            out.d1 == if i > 1 {
                section(arr@, 1)
            } else {
                0
            },
            out.d2 == if i > 2 {
                section(arr@, 2)
            } else {
                0
            },
            out.d3 == if i > 3 {
                section(arr@, 3)
            } else {
                0
            },
        decreases arr@.len() - i,
    {
        let v: u64 = match coerce_u32(&arr[i]) {
            Some(n) => n as u64,
            None => {
                proof {
                    assert(bad_section(arr@, i + 1) == Some(i as int));
                    lemma_bad_section(arr@, i + 1, arr@.len() as int);
                }
                return Err(
                    ModelError::BadMetadata { key, detail: Fault::NotUnsignedSection(i) },
                );
            },
        };
        if i == 0 {
            out.d0 = v;
        } else if i == 1 {
            out.d1 = v;
        } else if i == 2 {
            out.d2 = v;
        } else {
            out.d3 = v;
        }
        i += 1;
    }
    proof {
        reveal(gives_sections);
        law_first_pair_is_found(gguf.metadata@, key@);
        let at = choose|i: int| #[trigger] leads(gguf.metadata@, key@, i);
        assert(gguf.metadata@[at].1 == MetadataValue::Array(*arr));
        lemma_sections_cut(arr@, out);
    }
    Ok(out)
}

/// Why a file's metadata does not describe a model of this kind, if it does not:
/// the first failing read counts.
pub open spec fn qwen35_failure<F>(gguf: &GgufFile<F>) -> Option<ModelError> {
    if u32_at(gguf, "qwen35moe.block_count") is Err {
        Some(u32_at(gguf, "qwen35moe.block_count")->Err_0)
    } else if u32_at(gguf, "qwen35moe.embedding_length") is Err {
        Some(u32_at(gguf, "qwen35moe.embedding_length")->Err_0)
    } else if u32_at(gguf, "qwen35moe.attention.head_count") is Err {
        Some(u32_at(gguf, "qwen35moe.attention.head_count")->Err_0)
    } else if sections_at(gguf, "qwen35moe.rope.dimension_sections") is Err {
        Some(sections_at(gguf, "qwen35moe.rope.dimension_sections")->Err_0)
    } else {
        None
    }
}

/// The vocabulary's size: the number in the metadata, or the rows of the token
/// embedding.
pub open spec fn qwen35_vocab<F>(gguf: &GgufFile<F>, handle: &WeightsHandle) -> Option<u32> {
    match u32_at(gguf, "qwen35moe.vocab_size") {
        Ok(n) => Some(n),
        Err(_) => match handle.at("token_embd.weight"@) {
            Some(t) => Some(t.dims.d1 as u32),
            None => None,
        },
    }
}

/// The parameters that a file gives.
pub open spec fn qwen35_params<F>(
    gguf: &GgufFile<F>,
    handle: &WeightsHandle,
    c: &FloatConstants<F>,
) -> Qwen35MoeParams<F> {
    let n_layer = u32_at(gguf, "qwen35moe.block_count")->Ok_0;
    let nextn = u32_else(gguf, "qwen35moe.nextn_predict_layers"@, 0);
    let n_embd = u32_at(gguf, "qwen35moe.embedding_length")->Ok_0;
    let n_head = u32_at(gguf, "qwen35moe.attention.head_count")->Ok_0;
    let head_dim_k = u32_else(gguf, "qwen35moe.attention.key_length"@, n_embd / n_head);
    Qwen35MoeParams {
        n_layer,
        n_main: if n_layer >= nextn {
            (n_layer - nextn) as u32
        } else {
            0
        },
        nextn_predict_layers: nextn,
        full_attn_interval: u32_else(gguf, "qwen35moe.full_attention_interval"@, 4),
        n_embd,
        n_head,
        n_head_kv: u32_else(gguf, "qwen35moe.attention.head_count_kv"@, n_head),
        head_dim_k,
        head_dim_v: u32_else(gguf, "qwen35moe.attention.value_length"@, n_embd / n_head),
        n_vocab: qwen35_vocab(gguf, handle)->0,
        n_ctx_train: u32_else(gguf, "qwen35moe.context_length"@, 4096),
        rope_dim: u32_else(gguf, "qwen35moe.rope.dimension_count"@, head_dim_k),
        rope_sections: sections_at(gguf, "qwen35moe.rope.dimension_sections")->Ok_0,
        rope_freq_base: float_else(gguf, "qwen35moe.rope.freq_base"@, c.ten_thousand),
        n_expert: u32_else(gguf, "qwen35moe.expert_count"@, 0),
        n_expert_used: u32_else(gguf, "qwen35moe.expert_used_count"@, 0),
        expert_ff: u32_else(gguf, "qwen35moe.expert_feed_forward_length"@, 0),
        shared_expert_ff: u32_else(gguf, "qwen35moe.expert_shared_feed_forward_length"@, 0),
        ssm_state: u32_else(gguf, "qwen35moe.ssm.state_size"@, 0),
        ssm_conv: u32_else(gguf, "qwen35moe.ssm.conv_kernel"@, 0),
        ssm_groups: u32_else(gguf, "qwen35moe.ssm.group_count"@, 0),
        ssm_dt_rank: u32_else(gguf, "qwen35moe.ssm.time_step_rank"@, 0),
        ssm_inner: u32_else(gguf, "qwen35moe.ssm.inner_size"@, 0),
        rms_eps: float_else(gguf, "qwen35moe.attention.layer_norm_rms_epsilon"@, c.eps_5),
        attn_scale: c.one,
        gdn_scale: c.one,
        l2_eps: c.eps_6,
        switches: all_off(),
    }
}

/// Heads are counted by the time that the width is shared out among them.
pub open spec fn qwen35_heads_counted<F>(gguf: &GgufFile<F>) -> bool {
    u32_at(gguf, "qwen35moe.attention.head_count") == Ok::<u32, ModelError>(0) ==> {
        ||| u32_at(gguf, "qwen35moe.block_count") is Err
        ||| u32_at(gguf, "qwen35moe.embedding_length") is Err
    }
}

/// Read the parameters of a model. Scales that are computed from others are left
/// at one; see [`Qwen35MoeParams::scaled`].
pub fn parse_params<F: Copy>(
    gguf: &GgufFile<F>,
    handle: &WeightsHandle,
    c: &FloatConstants<F>,
) -> (r: Result<Qwen35MoeParams<F>, ModelError>)
    requires
        qwen35_heads_counted(gguf),
    ensures
        match r {
            Ok(p) => {
                &&& qwen35_failure(gguf) is None
                &&& qwen35_vocab(gguf, handle) is Some
                &&& p == qwen35_params(gguf, handle, c)
            },
            Err(e) => if qwen35_failure(gguf) is Some {
                qwen35_failure(gguf) == Some(e)
            } else {
                qwen35_vocab(gguf, handle) is None && says_missing(e, "token_embd.weight"@)
            },
        },
        r matches Ok(p) ==> {
            &&& gives(gguf, "qwen35moe.block_count"@, p.n_layer)
            &&& reads_as(gguf, "qwen35moe.nextn_predict_layers"@, p.nextn_predict_layers, 0)
            &&& p.n_main == if p.n_layer >= p.nextn_predict_layers {
                p.n_layer - p.nextn_predict_layers
            } else {
                0
            }
            &&& reads_as(gguf, "qwen35moe.full_attention_interval"@, p.full_attn_interval, 4)
            &&& gives(gguf, "qwen35moe.embedding_length"@, p.n_embd)
            &&& gives(gguf, "qwen35moe.attention.head_count"@, p.n_head)
            &&& reads_as(gguf, "qwen35moe.attention.head_count_kv"@, p.n_head_kv, p.n_head)
            &&& reads_as(gguf, "qwen35moe.attention.key_length"@, p.head_dim_k, p.n_embd / p.n_head)
            &&& reads_as(gguf, "qwen35moe.attention.value_length"@, p.head_dim_v, p.n_embd / p.n_head)
            &&& (gives(gguf, "qwen35moe.vocab_size"@, p.n_vocab) || gives_none(
                gguf,
                "qwen35moe.vocab_size"@,
            ) && exists|i: int| #[trigger]
                leads(handle.tensors@, "token_embd.weight"@, i) && p.n_vocab
                    == handle.tensors@[i].1.dims.d1 as u32)
            &&& reads_as(gguf, "qwen35moe.context_length"@, p.n_ctx_train, 4096)
            &&& reads_as(gguf, "qwen35moe.rope.dimension_count"@, p.rope_dim, p.head_dim_k)
            &&& gives_sections(gguf, "qwen35moe.rope.dimension_sections"@, p.rope_sections)
            &&& floats_as(gguf, "qwen35moe.rope.freq_base"@, p.rope_freq_base, c.ten_thousand)
            &&& reads_as(gguf, "qwen35moe.expert_count"@, p.n_expert, 0)
            &&& reads_as(gguf, "qwen35moe.expert_used_count"@, p.n_expert_used, 0)
            &&& reads_as(gguf, "qwen35moe.expert_feed_forward_length"@, p.expert_ff, 0)
            &&& reads_as(gguf, "qwen35moe.expert_shared_feed_forward_length"@, p.shared_expert_ff, 0)
            &&& reads_as(gguf, "qwen35moe.ssm.state_size"@, p.ssm_state, 0)
            &&& reads_as(gguf, "qwen35moe.ssm.conv_kernel"@, p.ssm_conv, 0)
            &&& reads_as(gguf, "qwen35moe.ssm.group_count"@, p.ssm_groups, 0)
            &&& reads_as(gguf, "qwen35moe.ssm.time_step_rank"@, p.ssm_dt_rank, 0)
            &&& reads_as(gguf, "qwen35moe.ssm.inner_size"@, p.ssm_inner, 0)
            &&& floats_as(gguf, "qwen35moe.attention.layer_norm_rms_epsilon"@, p.rms_eps, c.eps_5)
            &&& p.attn_scale == c.one && p.gdn_scale == c.one && p.l2_eps == c.eps_6
        },
{
    proof {
        law_first_pair_is_found(handle.tensors@, "token_embd.weight"@);
    }
    let n_layer: u32 = u32_key(gguf, "qwen35moe.block_count")?;
    let nextn_predict_layers: u32 = u32_or(gguf, "qwen35moe.nextn_predict_layers", 0);
    let n_main: u32 = n_layer.saturating_sub(nextn_predict_layers);
    let full_attn_interval: u32 = u32_or(gguf, "qwen35moe.full_attention_interval", 4);
    let n_embd: u32 = u32_key(gguf, "qwen35moe.embedding_length")?;
    let n_head: u32 = u32_key(gguf, "qwen35moe.attention.head_count")?;
    let n_head_kv: u32 = u32_or(gguf, "qwen35moe.attention.head_count_kv", n_head);
    let head_dim_k: u32 = u32_or(gguf, "qwen35moe.attention.key_length", n_embd / n_head);
    let head_dim_v: u32 = u32_or(gguf, "qwen35moe.attention.value_length", n_embd / n_head);
    let n_ctx_train: u32 = u32_or(gguf, "qwen35moe.context_length", 4096);
    let rope_dim: u32 = u32_or(gguf, "qwen35moe.rope.dimension_count", head_dim_k);
    let rope_freq_base = f32_or(gguf, "qwen35moe.rope.freq_base", c.ten_thousand);
    let rope_sections = read_sections(gguf, "qwen35moe.rope.dimension_sections")?;
    let n_expert: u32 = u32_or(gguf, "qwen35moe.expert_count", 0);
    let n_expert_used: u32 = u32_or(gguf, "qwen35moe.expert_used_count", 0);
    let expert_ff: u32 = u32_or(gguf, "qwen35moe.expert_feed_forward_length", 0);
    let shared_expert_ff: u32 = u32_or(
        gguf,
        "qwen35moe.expert_shared_feed_forward_length",
        0,
    );
    let ssm_state: u32 = u32_or(gguf, "qwen35moe.ssm.state_size", 0);
    let ssm_conv: u32 = u32_or(gguf, "qwen35moe.ssm.conv_kernel", 0);
    let ssm_groups: u32 = u32_or(gguf, "qwen35moe.ssm.group_count", 0);
    let ssm_dt_rank: u32 = u32_or(gguf, "qwen35moe.ssm.time_step_rank", 0);
    let ssm_inner: u32 = u32_or(gguf, "qwen35moe.ssm.inner_size", 0);
    let rms_eps = f32_or(gguf, "qwen35moe.attention.layer_norm_rms_epsilon", c.eps_5);
    let n_vocab: u32 = match u32_key(gguf, "qwen35moe.vocab_size") {
        Ok(n) => n,
        Err(_) => match handle.view("token_embd.weight") {
            Some(t) => #[verifier::truncate] (t.dims.d1 as u32),
            None => {
                return Err(ModelError::MissingTensor(String::from_str("token_embd.weight")));
            },
        },
    };
    Ok(
        Qwen35MoeParams {
            n_layer,
            n_main,
            nextn_predict_layers,
            full_attn_interval,
            n_embd,
            n_head,
            n_head_kv,
            head_dim_k,
            head_dim_v,
            n_vocab,
            n_ctx_train,
            rope_dim,
            rope_sections,
            rope_freq_base,
            n_expert,
            n_expert_used,
            expert_ff,
            shared_expert_ff,
            ssm_state,
            ssm_conv,
            ssm_groups,
            ssm_dt_rank,
            ssm_inner,
            rms_eps,
            attn_scale: c.one,
            gdn_scale: c.one,
            l2_eps: c.eps_6,
            switches: QwenSwitches::off(),
        },
    )
}

impl<F: Copy> Qwen35MoeParams<F> {
    /// The parameters with these scales on attention scores and on recurrent
    /// queries.
    pub fn scaled(self, attn_scale: F, gdn_scale: F) -> (r: Self)
        ensures
            r == (Qwen35MoeParams { attn_scale, gdn_scale, ..self }),
    {
        Qwen35MoeParams { attn_scale, gdn_scale, ..self }
    }

    /// The parameters with these switches.
    pub fn switched(self, switches: QwenSwitches<F>) -> (r: Self)
        ensures
            r == (Qwen35MoeParams { switches, ..self }),
    {
        Qwen35MoeParams { switches, ..self }
    }
}

/// The suffixes of a feed-forward half's tensors.
pub open spec fn moe_suffixes() -> Seq<Seq<char>> {
    seq![
        "ffn_gate_inp.weight"@,
        "ffn_gate_inp_shexp.weight"@,
        "ffn_gate_exps.weight"@,
        "ffn_up_exps.weight"@,
        "ffn_down_exps.weight"@,
        "ffn_gate_shexp.weight"@,
        "ffn_up_shexp.weight"@,
        "ffn_down_shexp.weight"@,
    ]
}

/// The suffixes of an attention half's tensors.
pub open spec fn attention_suffixes() -> Seq<Seq<char>> {
    seq![
        "attn_norm.weight"@,
        "post_attention_norm.weight"@,
        "attn_q.weight"@,
        "attn_k.weight"@,
        "attn_v.weight"@,
        "attn_output.weight"@,
        "attn_q_norm.weight"@,
        "attn_k_norm.weight"@,
    ]
}

/// The suffixes of a recurrent half's tensors.
pub open spec fn ssm_suffixes() -> Seq<Seq<char>> {
    seq![
        "attn_norm.weight"@,
        "post_attention_norm.weight"@,
        "attn_qkv.weight"@,
        "attn_gate.weight"@,
        "ssm_alpha.weight"@,
        "ssm_beta.weight"@,
        "ssm_a"@,
        "ssm_dt.bias"@,
        "ssm_conv1d.weight"@,
        "ssm_norm.weight"@,
        "ssm_out.weight"@,
    ]
}

/// The suffixes of the draft head's own tensors.
pub open spec fn nextn_suffixes() -> Seq<Seq<char>> {
    seq![
        "nextn.enorm.weight"@,
        "nextn.hnorm.weight"@,
        "nextn.eh_proj.weight"@,
        "nextn.shared_head_norm.weight"@,
    ]
}

/// The feed-forward half of block `i`.
pub open spec fn moe_at(handle: &WeightsHandle, i: int) -> MoeFfnWeights {
    let v = handle.views(block_names(i, moe_suffixes()));
    MoeFfnWeights {
        ffn_gate_inp: v[0],
        ffn_gate_inp_shexp: v[1],
        ffn_gate_exps: v[2],
        ffn_up_exps: v[3],
        ffn_down_exps: v[4],
        ffn_gate_shexp: v[5],
        ffn_up_shexp: v[6],
        ffn_down_shexp: v[7],
    }
}

/// Block `i`, mixing by attention.
pub open spec fn attention_at(handle: &WeightsHandle, i: int) -> AttentionBlockWeights {
    let v = handle.views(block_names(i, attention_suffixes()));
    AttentionBlockWeights {
        attn_norm: v[0],
        post_attn_norm: v[1],
        wq: v[2],
        wk: v[3],
        wv: v[4],
        wo: v[5],
        attn_q_norm: v[6],
        attn_k_norm: v[7],
        moe: moe_at(handle, i),
    }
}

/// Block `i`, recurrent.
pub open spec fn ssm_at(handle: &WeightsHandle, i: int) -> SsmBlockWeights {
    let v = handle.views(block_names(i, ssm_suffixes()));
    SsmBlockWeights {
        attn_norm: v[0],
        post_attn_norm: v[1],
        attn_qkv: v[2],
        attn_gate: v[3],
        ssm_alpha: v[4],
        ssm_beta: v[5],
        ssm_a: v[6],
        ssm_dt_bias: v[7],
        ssm_conv1d: v[8],
        ssm_norm: v[9],
        ssm_out: v[10],
        moe: moe_at(handle, i),
    }
}

/// The draft head in block `i`.
pub open spec fn mtp_at(handle: &WeightsHandle, i: int) -> MtpWeights {
    let v = handle.views(block_names(i, nextn_suffixes()));
    MtpWeights {
        enorm: v[0],
        hnorm: v[1],
        eh_proj: v[2],
        shared_head_norm: v[3],
        body: attention_at(handle, i),
    }
}

/// The suffixes of block `i`'s tensors.
pub open spec fn qwen35_suffixes(n_main: u32, interval: u32, i: int) -> Seq<Seq<char>> {
    if attention_layer(n_main, interval, i) {
        moe_suffixes() + attention_suffixes()
    } else {
        moe_suffixes() + ssm_suffixes()
    }
}

/// The names of all tensors that the main trunk must have.
pub open spec fn qwen35_names(n_main: u32, interval: u32) -> Seq<Seq<char>> {
    model_names(
        outer_names(),
        |i: int| qwen35_suffixes(n_main, interval, i),
        n_main as int,
    )
}

/// The draft head in block `i` is complete.
pub open spec fn mtp_there(handle: &WeightsHandle, i: int) -> bool {
    &&& handle.missing(block_names(i, moe_suffixes())) is None
    &&& handle.missing(block_names(i, nextn_suffixes())) is None
    &&& handle.missing(block_names(i, attention_suffixes())) is None
}

/// These are the uploaded tensors of a model. The draft head is among them where
/// it was asked for and is complete.
pub open spec fn qwen35_collected<F: Copy>(
    handle: &WeightsHandle,
    p: Qwen35MoeParams<F>,
    spec_enabled: bool,
    w: Qwen35MoeWeights,
) -> bool {
    &&& handle.missing(qwen35_names(p.n_main, p.full_attn_interval)) is None
    &&& handle.at("token_embd.weight"@) == Some(w.token_embd)
    &&& handle.at("output_norm.weight"@) == Some(w.output_norm)
    &&& w.output == handle.at("output.weight"@)
    &&& w.blocks@.len() == p.n_main
    &&& forall|i: int|
        0 <= i < p.n_main ==> #[trigger] w.blocks@[i] == if attention_layer(
            p.n_main,
            p.full_attn_interval,
            i,
        ) {
            BlockWeights::Attention(attention_at(handle, i))
        } else {
            BlockWeights::Ssm(ssm_at(handle, i))
        }
    &&& w.mtp == if spec_enabled && p.nextn_predict_layers >= 1 && mtp_there(
        handle,
        p.n_main as int,
    ) {
        Some(mtp_at(handle, p.n_main as int))
    } else {
        None
    }
}

/// Load the feed-forward half of block `i`.
fn load_moe(handle: &WeightsHandle, i: u32) -> (r: Result<MoeFfnWeights, ModelError>)
    ensures
        match r {
            Ok(w) => {
                &&& handle.missing(block_names(i as int, moe_suffixes())) is None
                &&& w == moe_at(handle, i as int)
            },
            Err(e) => handle.missing(block_names(i as int, moe_suffixes())) matches Some(n)
                && says_missing(e, n),
        },
{
    let suffixes = [
        "ffn_gate_inp.weight",
        "ffn_gate_inp_shexp.weight",
        "ffn_gate_exps.weight",
        "ffn_up_exps.weight",
        "ffn_down_exps.weight",
        "ffn_gate_shexp.weight",
        "ffn_up_shexp.weight",
        "ffn_down_shexp.weight",
    ];
    assert(words(suffixes@) =~= moe_suffixes());
    let v = load_block(handle, i, &suffixes)?;
    Ok(
        MoeFfnWeights {
            ffn_gate_inp: v[0],
            ffn_gate_inp_shexp: v[1],
            ffn_gate_exps: v[2],
            ffn_up_exps: v[3],
            ffn_down_exps: v[4],
            ffn_gate_shexp: v[5],
            ffn_up_shexp: v[6],
            ffn_down_shexp: v[7],
        },
    )
}

/// Load the attention half of block `i`.
fn load_attn(handle: &WeightsHandle, i: u32, moe: MoeFfnWeights) -> (r: Result<
    AttentionBlockWeights,
    ModelError,
>)
    requires
        moe == moe_at(handle, i as int),
    ensures
        match r {
            Ok(w) => {
                &&& handle.missing(block_names(i as int, attention_suffixes())) is None
                &&& w == attention_at(handle, i as int)
            },
            Err(e) => handle.missing(block_names(i as int, attention_suffixes())) matches Some(n)
                && says_missing(e, n),
        },
{
    let suffixes = [
        "attn_norm.weight",
        "post_attention_norm.weight",
        "attn_q.weight",
        "attn_k.weight",
        "attn_v.weight",
        "attn_output.weight",
        "attn_q_norm.weight",
        "attn_k_norm.weight",
    ];
    assert(words(suffixes@) =~= attention_suffixes());
    let v = load_block(handle, i, &suffixes)?;
    Ok(
        AttentionBlockWeights {
            attn_norm: v[0],
            post_attn_norm: v[1],
            wq: v[2],
            wk: v[3],
            wv: v[4],
            wo: v[5],
            attn_q_norm: v[6],
            attn_k_norm: v[7],
            moe,
        },
    )
}

/// Load the recurrent half of block `i`.
fn load_ssm(handle: &WeightsHandle, i: u32, moe: MoeFfnWeights) -> (r: Result<
    SsmBlockWeights,
    ModelError,
>)
    requires
        moe == moe_at(handle, i as int),
    ensures
        match r {
            Ok(w) => {
                &&& handle.missing(block_names(i as int, ssm_suffixes())) is None
                &&& w == ssm_at(handle, i as int)
            },
            Err(e) => handle.missing(block_names(i as int, ssm_suffixes())) matches Some(n)
                && says_missing(e, n),
        },
{
    let suffixes = [
        "attn_norm.weight",
        "post_attention_norm.weight",
        "attn_qkv.weight",
        "attn_gate.weight",
        "ssm_alpha.weight",
        "ssm_beta.weight",
        "ssm_a",
        "ssm_dt.bias",
        "ssm_conv1d.weight",
        "ssm_norm.weight",
        "ssm_out.weight",
    ];
    assert(words(suffixes@) =~= ssm_suffixes());
    let v = load_block(handle, i, &suffixes)?;
    Ok(
        SsmBlockWeights {
            attn_norm: v[0],
            post_attn_norm: v[1],
            attn_qkv: v[2],
            attn_gate: v[3],
            ssm_alpha: v[4],
            ssm_beta: v[5],
            ssm_a: v[6],
            ssm_dt_bias: v[7],
            ssm_conv1d: v[8],
            ssm_norm: v[9],
            ssm_out: v[10],
            moe,
        },
    )
}

/// Load the draft head in block `i`.
fn load_mtp(handle: &WeightsHandle, i: u32) -> (r: Option<MtpWeights>)
    ensures
        r == if mtp_there(handle, i as int) {
            Some(mtp_at(handle, i as int))
        } else {
            None
        },
{
    let moe = match load_moe(handle, i) {
        Ok(w) => w,
        Err(_) => {
            return None;
        },
    };
    let suffixes = [
        "nextn.enorm.weight",
        "nextn.hnorm.weight",
        "nextn.eh_proj.weight",
        "nextn.shared_head_norm.weight",
    ];
    assert(words(suffixes@) =~= nextn_suffixes());
    let v = match load_block(handle, i, &suffixes) {
        Ok(v) => v,
        Err(_) => {
            return None;
        },
    };
    match load_attn(handle, i, moe) {
        Ok(body) => Some(
            MtpWeights {
                enorm: v[0],
                hnorm: v[1],
                eh_proj: v[2],
                shared_head_norm: v[3],
                body,
            },
        ),
        Err(_) => None,
    }
}

/// Load block `i` of the main trunk.
fn load_layer<F: Copy>(handle: &WeightsHandle, p: &Qwen35MoeParams<F>, i: u32) -> (r: Result<
    BlockWeights,
    ModelError,
>)
    requires
        p.full_attn_interval > 0,
    ensures
        ({
            let names = block_names(
                i as int,
                qwen35_suffixes(p.n_main, p.full_attn_interval, i as int),
            );
            match r {
                Ok(b) => {
                    &&& handle.missing(names) is None
                    &&& b == if attention_layer(p.n_main, p.full_attn_interval, i as int) {
                        BlockWeights::Attention(attention_at(handle, i as int))
                    } else {
                        BlockWeights::Ssm(ssm_at(handle, i as int))
                    }
                },
                Err(e) => handle.missing(names) matches Some(n) && says_missing(e, n),
            }
        }),
{
    let ghost m = block_names(i as int, moe_suffixes());
    proof {
        lemma_missing_prefix(handle, m, block_names(i as int, attention_suffixes()));
        lemma_missing_prefix(handle, m, block_names(i as int, ssm_suffixes()));
        assert(m + block_names(i as int, attention_suffixes()) =~= block_names(
            i as int,
            moe_suffixes() + attention_suffixes(),
        ));
        assert(m + block_names(i as int, ssm_suffixes()) =~= block_names(
            i as int,
            moe_suffixes() + ssm_suffixes(),
        ));
    }
    let moe = load_moe(handle, i)?;
    if p.is_attention_layer(i) {
        Ok(BlockWeights::Attention(load_attn(handle, i, moe)?))
    } else {
        Ok(BlockWeights::Ssm(load_ssm(handle, i, moe)?))
    }
}

/// Collect the tensors of a model.
pub fn collect_weights<F: Copy>(
    handle: &WeightsHandle,
    params: &Qwen35MoeParams<F>,
    spec_enabled: bool,
) -> (r: Result<Qwen35MoeWeights, ModelError>)
    requires
        params.n_main > 0 ==> params.full_attn_interval > 0,
    ensures
        match r {
            Ok(w) => qwen35_collected(handle, *params, spec_enabled, w),
            Err(e) => handle.missing(
                qwen35_names(params.n_main, params.full_attn_interval),
            ) matches Some(n) && says_missing(e, n),
        },
{
    let ghost n = params.n_main as int;
    let ghost of = |i: int| qwen35_suffixes(params.n_main, params.full_attn_interval, i);
    let outer = match load(handle, &["token_embd.weight", "output_norm.weight"]) {
        Ok(v) => v,
        Err(e) => {
            proof {
                assert(words(["token_embd.weight", "output_norm.weight"]@) =~= outer_names());
                lemma_missing_first(handle, outer_names(), of, 0, n);
            }
            return Err(e);
        },
    };
    proof {
        assert(words(["token_embd.weight", "output_norm.weight"]@) =~= outer_names());
        lemma_all_there(handle, outer_names(), 0);
        lemma_all_there(handle, outer_names(), 1);
    }
    let output = handle.view("output.weight");
    let mut blocks: Vec<BlockWeights> = Vec::new();
    let mut i: u32 = 0;
    while i < params.n_main
        invariant
            i <= params.n_main,
            n == params.n_main,
            params.n_main > 0 ==> params.full_attn_interval > 0,
            of == |i: int| qwen35_suffixes(params.n_main, params.full_attn_interval, i),
            handle.missing(model_names(outer_names(), of, i as int)) is None,
            blocks@.len() == i,
            forall|k: int|
                0 <= k < i ==> #[trigger] blocks@[k] == if attention_layer(
                    params.n_main,
                    params.full_attn_interval,
                    k,
                ) {
                    BlockWeights::Attention(attention_at(handle, k))
                } else {
                    BlockWeights::Ssm(ssm_at(handle, k))
                },
        decreases params.n_main - i,
    {
        proof {
            lemma_missing_prefix(
                handle,
                model_names(outer_names(), of, i as int),
                block_names(i as int, of(i as int)),
            );
        }
        let block = match load_layer(handle, params, i) {
            Ok(b) => b,
            Err(e) => {
                proof {
                    lemma_missing_first(handle, outer_names(), of, i + 1, n);
                }
                return Err(e);
            },
        };
        blocks.push(block);
        i += 1;
    }
    let mtp = if spec_enabled && params.nextn_predict_layers >= 1 {
        load_mtp(handle, params.n_main)
    } else {
        None
    };
    Ok(Qwen35MoeWeights { token_embd: outer[0], output_norm: outer[1], output, blocks, mtp })
}

/// Every tensor that was collected lies among the weights, where all that were
/// uploaded do.
proof fn lemma_collected_apart<F: Copy>(
    handle: &WeightsHandle,
    p: Qwen35MoeParams<F>,
    spec_enabled: bool,
    w: Qwen35MoeWeights,
)
    requires
        handle.apart(),
        qwen35_collected(handle, p, spec_enabled, w),
    ensures
        w.apart(),
{
    let of = |i: int| qwen35_suffixes(p.n_main, p.full_attn_interval, i);
    assert forall|i: int| 0 <= i < w.blocks@.len() implies (#[trigger] w.blocks@[i]).apart() by {
        lemma_block_there(handle, outer_names(), of, i, p.n_main as int);
        let m = block_names(i, moe_suffixes());
        let a = block_names(i, attention_suffixes());
        let s = block_names(i, ssm_suffixes());
        lemma_missing_prefix(handle, m, a);
        lemma_missing_prefix(handle, m, s);
        assert(m + a =~= block_names(i, moe_suffixes() + attention_suffixes()));
        assert(m + s =~= block_names(i, moe_suffixes() + ssm_suffixes()));
        lemma_views_apart(handle, m);
        if attention_layer(p.n_main, p.full_attn_interval, i) {
            lemma_views_apart(handle, a);
        } else {
            lemma_views_apart(handle, s);
        }
    }
    if w.mtp is Some {
        let i = p.n_main as int;
        lemma_views_apart(handle, block_names(i, moe_suffixes()));
        lemma_views_apart(handle, block_names(i, nextn_suffixes()));
        lemma_views_apart(handle, block_names(i, attention_suffixes()));
    }
    assert(handle.at("token_embd.weight"@) is Some && handle.at("output_norm.weight"@) is Some);
    assert(handle.at("output.weight"@) == w.output);
}

/// Where nothing of a model is missing, nothing of a block is.
proof fn lemma_block_there(
    handle: &WeightsHandle,
    head: Seq<Seq<char>>,
    of: spec_fn(int) -> Seq<Seq<char>>,
    i: int,
    n: int,
)
    requires
        0 <= i < n,
        handle.missing(model_names(head, of, n)) is None,
    ensures
        handle.missing(block_names(i, of(i))) is None,
    decreases n,
{
    lemma_missing_prefix(handle, model_names(head, of, n - 1), block_names(n - 1, of(n - 1)));
    if i < n - 1 {
        lemma_block_there(handle, head, of, i, n - 1);
    }
}

/// Loaded tensors lie among the weights.
proof fn lemma_views_apart(handle: &WeightsHandle, names: Seq<Seq<char>>)
    requires
        handle.apart(),
        handle.missing(names) is None,
    ensures
        forall|k: int|
            0 <= k < names.len() ==> (#[trigger] handle.views(names)[k]).buffer is Weights,
{
    assert forall|k: int| 0 <= k < names.len() implies (
    #[trigger] handle.views(names)[k]).buffer is Weights by {
        lemma_all_there(handle, names, k);
        assert(handle.at(names[k]) is Some);
    }
}

impl<F: Copy> Qwen35MoeModel<F> {
    /// A model of these parameters, with the tensors that they call for, and the
    /// draft head where it is asked for and complete. Where sizes are small enough
    /// and the uploaded tensors lie among the weights, passes can be recorded.
    pub fn new(
        params: Qwen35MoeParams<F>,
        handle: &WeightsHandle,
        spec_enabled: bool,
        mask: MaskValues<F>,
    ) -> (r: Result<Self, ModelError>)
        requires
            params.n_main > 0 ==> params.full_attn_interval > 0,
        ensures
            match r {
                Ok(m) => {
                    &&& m.params == params
                    &&& qwen35_collected(handle, params, spec_enabled, m.weights)
                    &&& m.mask == mask
                    &&& params.wf() && handle.apart() ==> m.wf()
                },
                Err(e) => handle.missing(
                    qwen35_names(params.n_main, params.full_attn_interval),
                ) matches Some(n) && says_missing(e, n),
            },
    {
        let weights = collect_weights(handle, &params, spec_enabled)?;
        let model = Qwen35MoeModel { params, weights, mask };
        proof {
            if params.wf() && handle.apart() {
                lemma_collected_apart(handle, params, spec_enabled, model.weights);
                assert forall|i: int|
                    0 <= i < model.weights.blocks@.len() implies #[trigger] model.placed(i) by {
                    assert(model.weights.blocks@[i] == model.weights.blocks@[i]);
                }
            }
        }
        Ok(model)
    }

    /// Widths of the activations of any layer, added up: those of both mixing
    /// halves and of the feed-forward half.
    pub open spec fn summed_width(&self) -> int {
        let p = &self.params;
        let key_dim = p.ssm_groups * p.ssm_state;
        let value_dim = p.ssm_dt_rank * p.ssm_state;
        7 * p.n_embd + 2 * (2 * (p.head_dim_k * p.n_head)) + 3 * (p.head_dim_v * p.n_head_kv)
            + p.head_dim_k * p.n_head_kv + p.conv_width() + 3 * value_dim + key_dim + 3 * (
        p.expert_ff * p.n_expert_used) + 2 * p.n_expert + p.shared_expert_ff
    }
}

impl<F: Copy> Model for Qwen35MoeModel<F> {
    open spec fn sized(&self) -> bool {
        self.params.wf() && self.params.n_main < u32::MAX
    }

    /// The activations of a layer; the residual, the mask and the logits of every
    /// sequence; and staged caches where keys and values differ in type.
    open spec fn estimate(
        &self,
        n_ubatch: u32,
        max_seq_len: u32,
        mixed: bool,
        max_batch: u32,
    ) -> int {
        let p = &self.params;
        let l = pass_tokens(n_ubatch, max_seq_len);
        padded(
            columns(self.summed_width(), l) + columns(p.n_embd as int, l) + columns(l, l) + columns(
                p.n_vocab as int,
                logit_columns(max_batch),
            ) + (if mixed {
                columns(
                    2 * (greater(p.head_dim_k, p.head_dim_v) * p.n_head_kv),
                    max_seq_len as int,
                )
            } else {
                0
            }),
            33554432,
        )
    }

    fn arch(&self) -> (r: &'static str)
        ensures
            r@ == "qwen35moe"@,
    {
        "qwen35moe"
    }

    fn vocab_size(&self) -> (r: u32)
        ensures
            r == self.params.n_vocab,
    {
        self.params.n_vocab
    }

    fn supports_mtp_spec(&self) -> (r: bool)
        ensures
            r == (self.weights.mtp is Some),
    {
        self.weights.mtp.is_some()
    }

    /// One layer more for the draft head, where it is loaded.
    fn cache_dims(&self) -> (r: CacheDims)
        ensures
            r == (CacheDims {
                n_layer: (self.params.n_main + if self.weights.mtp is Some {
                    1int
                } else {
                    0
                }) as u32,
                head_dim: self.params.head_dim_k,
                n_head_kv: self.params.n_head_kv,
                n_head: self.params.n_head,
            }),
    {
        let mtp_slots: u32 = if self.weights.mtp.is_some() {
            1
        } else {
            0
        };
        CacheDims {
            n_layer: self.params.n_main + mtp_slots,
            head_dim: self.params.head_dim_k,
            n_head_kv: self.params.n_head_kv,
            n_head: self.params.n_head,
        }
    }

    fn ssm_state_dims(&self) -> (r: Option<SsmStateDims>)
        ensures
            r == Some(
                SsmStateDims {
                    n_ssm_layers: recurrent_before(
                        self.params.n_main,
                        self.params.full_attn_interval,
                        self.params.n_main as int,
                    ) as u32,
                    conv_state_floats: ((self.params.ssm_conv - 1) * self.params.conv_width())
                        as u32,
                    gdn_state_floats: self.params.state_size() as u32,
                    conv_channels: self.params.conv_width() as u32,
                    conv_kernel: self.params.ssm_conv,
                },
            ),
    {
        let p = &self.params;
        proof {
            assert(0 <= p.ssm_groups * p.ssm_state && 0 <= p.ssm_dt_rank * p.ssm_state)
                by (nonlinear_arith);
            assert(p.ssm_state * p.ssm_state <= p.ssm_state * p.ssm_state * p.ssm_dt_rank)
                by (nonlinear_arith)
                requires
                    p.ssm_dt_rank >= 1,
            ;
        }
        let n_ssm_layers: u32 = p.count_recurrent(p.n_main as usize) as u32;
        let conv_channels: u32 = 2 * (p.ssm_groups * p.ssm_state) + p.ssm_dt_rank * p.ssm_state;
        Some(
            SsmStateDims {
                n_ssm_layers,
                conv_state_floats: (p.ssm_conv - 1) * conv_channels,
                gdn_state_floats: p.ssm_state * p.ssm_state * p.ssm_dt_rank,
                conv_channels,
                conv_kernel: p.ssm_conv,
            },
        )
    }

    fn replay_constants(&self) -> (r: Option<ModelReplayConstants>)
        ensures
            r == Some(
                ModelReplayConstants {
                    rope_d_offset_per_position: (self.params.head_dim_k * self.params.n_head_kv)
                        as u32,
                    v_cache_d_offset_per_position: (self.params.head_dim_v
                        * self.params.n_head_kv) as u32,
                    mrope_axes: 4,
                },
            ),
    {
        Some(
            ModelReplayConstants {
                rope_d_offset_per_position: self.params.head_dim_k * self.params.n_head_kv,
                v_cache_d_offset_per_position: self.params.head_dim_v * self.params.n_head_kv,
                mrope_axes: 4,
            },
        )
    }

    fn supports_unified(&self) -> (r: bool)
        ensures
            r,
    {
        true
    }

    fn supports_batch_decode(&self) -> (r: bool)
        ensures
            r,
    {
        true
    }

    fn scratch_bytes_estimate(
        &self,
        n_ubatch: u32,
        max_seq_len: u32,
        k_dtype: GgmlType,
        v_dtype: GgmlType,
        max_batch: u32,
    ) -> (r: u64) {
        let p = &self.params;
        let l: u64 = longest_pass(n_ubatch, max_seq_len);
        let batch: u64 = if max_batch >= 1 {
            max_batch as u64
        } else {
            1
        };
        let head: u32 = greater_of(p.head_dim_k, p.head_dim_v);
        proof {
            assert(0 <= p.ssm_groups * p.ssm_state && 0 <= p.ssm_dt_rank * p.ssm_state && 0
                <= p.head_dim_k * p.n_head && 0 <= p.expert_ff * p.n_expert_used && 0
                <= p.head_dim_k * p.n_head_kv && 0 <= p.head_dim_v * p.n_head_kv)
                by (nonlinear_arith);
            let w = self.summed_width();
            lemma_columns(w, l as int);
            lemma_columns(p.n_embd as int, l as int);
            lemma_columns(l as int, l as int);
            lemma_columns(p.n_vocab as int, batch as int);
            lemma_columns(2 * (head * p.n_head_kv), max_seq_len as int);
            assert(w <= w * l * 4) by (nonlinear_arith)
                requires
                    w >= 0,
                    l >= 1,
            ;
        }
        let value_dim: u64 = (p.ssm_dt_rank * p.ssm_state) as u64;
        let key_dim: u64 = (p.ssm_groups * p.ssm_state) as u64;
        let conv_channels: u64 = 2 * key_dim + value_dim;
        let experts: u64 = 3 * (p.expert_ff as u64 * p.n_expert_used as u64);
        let width: u64 = 7 * p.n_embd as u64 + 2 * p.wq_out() as u64 + 3 * p.n_embd_v_gqa() as u64
            + p.n_embd_k_gqa() as u64 + conv_channels + 3 * value_dim + key_dim + experts + 2
            * p.n_expert as u64 + p.shared_expert_ff as u64;
        let staging: u64 = if k_dtype != v_dtype {
            columns_bytes(2 * (head as u64 * p.n_head_kv as u64), max_seq_len as u64)
        } else {
            0
        };
        let raw: u64 = columns_bytes(width, l) + columns_bytes(p.n_embd as u64, l) + columns_bytes(
            l,
            l,
        ) + columns_bytes(p.n_vocab as u64, batch) + staging;
        raw + raw / 3 + 33554432
    }
}

/// Why a recorded pass cannot be replayed.
#[derive(Clone, Copy, PartialEq, Eq, Structural, Debug)]
pub enum ReplayError {
    NoTokenBuffer,
    NoPositionsBuffer,
}

impl ReplayError {
    /// The message for this failure.
    pub fn message(&self) -> (r: &'static str)
        ensures
            r@ == match self {
                ReplayError::NoTokenBuffer => "replay plan missing token_buf_offset"@,
                ReplayError::NoPositionsBuffer => "replay plan missing positions_buf_offset"@,
            },
    {
        match self {
            ReplayError::NoTokenBuffer => "replay plan missing token_buf_offset",
            ReplayError::NoPositionsBuffer => "replay plan missing positions_buf_offset",
        }
    }
}

/// What is written before a recorded pass is replayed: the tokens at one offset,
/// and their positions on the four axes at another.
pub struct ReplayInputs {
    pub token_offset: u64,
    pub positions_offset: u64,
    pub positions: Vec<u32>,
}

/// What to write before a recorded pass is replayed over `tokens` tokens from
/// this position on.
pub fn refresh_replay_inputs(plan: &ReplayPlan, tokens: usize, position_offset: u32) -> (r: Result<
    ReplayInputs,
    ReplayError,
>)
    requires
        position_offset + tokens <= u32::MAX,
        4 * tokens <= usize::MAX,
    ensures
        match r {
            Ok(w) => {
                let base = rope_base(position_offset, plan.rope_position_lag);
                &&& plan.token_buf_offset == Some(w.token_offset)
                &&& plan.positions_buf_offset == Some(w.positions_offset)
                &&& w.positions@ == four(sequential(base as int, tokens as nat))
            },
            Err(ReplayError::NoTokenBuffer) => plan.token_buf_offset is None,
            Err(ReplayError::NoPositionsBuffer) => {
                &&& plan.token_buf_offset is Some
                &&& plan.positions_buf_offset is None
            },
        },
{
    let token_offset: u64 = match plan.token_buf_offset {
        Some(o) => o,
        None => {
            return Err(ReplayError::NoTokenBuffer);
        },
    };
    let positions_offset: u64 = match plan.positions_buf_offset {
        Some(o) => o,
        None => {
            return Err(ReplayError::NoPositionsBuffer);
        },
    };
    let base: u32 = position_offset.saturating_sub(plan.rope_position_lag);
    let axis = sequential_positions(base, tokens as u32);
    let positions = four_axes(axis.as_slice());
    Ok(ReplayInputs { token_offset, positions_offset, positions })
}

} // verus!
