//! Which tensor of a model file each weight is.
use vstd::prelude::*;

use crate::models::diffusion_params::{diffusion_collected, diffusion_suffixes, head_names, sc_names};
use crate::models::diffusiongemma::{DiffusiongemmaParams, DiffusiongemmaWeights};
use crate::models::gemma4::{Gemma4Params, Gemma4Weights};
use crate::models::gemma4_params::{gemma4_collected, gemma4_suffixes};
use crate::models::llama::{LlamaParams, LlamaWeights};
use crate::models::llama_params::{llama_collected, llama_suffixes, outer_names};
use crate::models::loading::{
    block_names, lemma_all_there, lemma_missing_prefix, model_names, WeightsHandle,
};
use crate::models::qwen3::{Qwen3Params, Qwen3Weights};
use crate::models::qwen35_params::{
    attention_suffixes, moe_suffixes, nextn_suffixes, qwen35_collected, qwen35_suffixes,
    ssm_suffixes,
};
use crate::models::qwen35_weights::{
    AttentionBlockWeights, BlockWeights, MoeFfnWeights, Qwen35MoeParams, Qwen35MoeWeights,
    SsmBlockWeights,
};
use crate::models::qwen3_params::{qwen3_collected, qwen3_suffixes};
use crate::models::tensor::TensorView;
use crate::text::decimal;

verus! {

/// The uploaded tensor of block `i` whose name ends in `suffix` is `t`.
pub open spec fn in_block(handle: &WeightsHandle, i: int, suffix: Seq<char>, t: TensorView) -> bool {
    handle.at("blk."@ + decimal(i as nat) + "."@ + suffix) == Some(t)
}

/// Where a name is missing, the one told of is the first that no tensor has.
pub proof fn law_first_missing_name_is_told(handle: &WeightsHandle, names: Seq<Seq<char>>)
    ensures
        match handle.missing(names) {
            Some(n) => exists|k: int|
                #![trigger names[k]]
                0 <= k < names.len() && names[k] == n && handle.at(n) is None && forall|j: int|
                    0 <= j < k ==> handle.at(#[trigger] names[j]) is Some,
            None => forall|k: int|
                0 <= k < names.len() ==> handle.at(#[trigger] names[k]) is Some,
        },
    decreases names.len(),
{
    if names.len() > 0 {
        let rest = names.drop_last();
        law_first_missing_name_is_told(handle, rest);
        assert forall|j: int| 0 <= j < rest.len() implies #[trigger] rest[j] == names[j] by {}
        match handle.missing(rest) {
            Some(n) => {
                let k = choose|k: int|
                    #![trigger rest[k]]
                    0 <= k < rest.len() && rest[k] == n && handle.at(n) is None && forall|j: int|
                        0 <= j < k ==> handle.at(#[trigger] rest[j]) is Some;
                assert(names[k] == n);
                assert forall|j: int| 0 <= j < k implies handle.at(#[trigger] names[j]) is Some by {
                    assert(rest[j] == names[j]);
                }
            },
            None => {
                let last = names.len() - 1;
                assert forall|j: int| 0 <= j < last implies handle.at(
                    #[trigger] names[j],
                ) is Some by {
                    assert(rest[j] == names[j]);
                }
                assert(names[last] == names.last());
            },
        }
    }
}

/// Where nothing is missing of a model, nothing is missing of its parts.
proof fn lemma_parts_there(
    handle: &WeightsHandle,
    head: Seq<Seq<char>>,
    of: spec_fn(int) -> Seq<Seq<char>>,
    n: int,
    i: int,
)
    requires
        handle.missing(model_names(head, of, n)) is None,
        0 <= i < n,
    ensures
        handle.missing(block_names(i, of(i))) is None,
    decreases n,
{
    lemma_missing_prefix(handle, model_names(head, of, n - 1), block_names(n - 1, of(n - 1)));
    if i < n - 1 {
        lemma_parts_there(handle, head, of, n - 1, i);
    }
}

/// The tensors of a block are those of its names.
proof fn lemma_named(handle: &WeightsHandle, i: int, suffixes: Seq<Seq<char>>)
    requires
        handle.missing(block_names(i, suffixes)) is None,
    ensures
        forall|k: int|
            0 <= k < suffixes.len() ==> in_block(
                handle,
                i,
                suffixes[k],
                #[trigger] handle.views(block_names(i, suffixes))[k],
            ),
{
    assert forall|k: int| 0 <= k < suffixes.len() implies in_block(
        handle,
        i,
        suffixes[k],
        #[trigger] handle.views(block_names(i, suffixes))[k],
    ) by {
        lemma_all_there(handle, block_names(i, suffixes), k);
    }
}

/// Each weight of a LLaMA model is the tensor of its name.
pub proof fn law_llama_weights_go_by_name<F: Copy>(
    handle: &WeightsHandle,
    p: LlamaParams<F>,
    w: LlamaWeights,
    i: int,
)
    requires
        llama_collected(handle, p, w),
        0 <= i < p.n_layer,
    ensures
        handle.at("token_embd.weight"@) == Some(w.token_embd),
        handle.at("output_norm.weight"@) == Some(w.output_norm),
        handle.at("output.weight"@) == w.output,
        w.blocks@.len() == p.n_layer,
        ({
            let b = w.blocks@[i];
            &&& in_block(handle, i, "attn_norm.weight"@, b.attn_norm)
            &&& in_block(handle, i, "attn_q.weight"@, b.wq)
            &&& in_block(handle, i, "attn_k.weight"@, b.wk)
            &&& in_block(handle, i, "attn_v.weight"@, b.wv)
            &&& in_block(handle, i, "attn_output.weight"@, b.wo)
            &&& in_block(handle, i, "ffn_norm.weight"@, b.ffn_norm)
            &&& in_block(handle, i, "ffn_gate.weight"@, b.ffn_gate)
            &&& in_block(handle, i, "ffn_up.weight"@, b.ffn_up)
            &&& in_block(handle, i, "ffn_down.weight"@, b.ffn_down)
        }),
{
    let s = llama_suffixes();
    lemma_parts_there(handle, outer_names(), |j: int| s, p.n_layer as int, i);
    lemma_named(handle, i, s);
}

/// Each weight of a Qwen 3 model is the tensor of its name.
pub proof fn law_qwen3_weights_go_by_name<F: Copy>(
    handle: &WeightsHandle,
    p: Qwen3Params<F>,
    w: Qwen3Weights,
    i: int,
)
    requires
        qwen3_collected(handle, p, w),
        0 <= i < p.n_layer,
    ensures
        handle.at("token_embd.weight"@) == Some(w.token_embd),
        handle.at("output_norm.weight"@) == Some(w.output_norm),
        handle.at("output.weight"@) == w.output,
        w.blocks@.len() == p.n_layer,
        ({
            let b = w.blocks@[i];
            &&& in_block(handle, i, "attn_norm.weight"@, b.attn_norm)
            &&& in_block(handle, i, "attn_q.weight"@, b.wq)
            &&& in_block(handle, i, "attn_q_norm.weight"@, b.attn_q_norm)
            &&& in_block(handle, i, "attn_k.weight"@, b.wk)
            &&& in_block(handle, i, "attn_k_norm.weight"@, b.attn_k_norm)
            &&& in_block(handle, i, "attn_v.weight"@, b.wv)
            &&& in_block(handle, i, "attn_output.weight"@, b.wo)
            &&& in_block(handle, i, "ffn_norm.weight"@, b.ffn_norm)
            &&& in_block(handle, i, "ffn_gate.weight"@, b.ffn_gate)
            &&& in_block(handle, i, "ffn_up.weight"@, b.ffn_up)
            &&& in_block(handle, i, "ffn_down.weight"@, b.ffn_down)
        }),
{
    let s = qwen3_suffixes();
    lemma_parts_there(handle, outer_names(), |j: int| s, p.n_layer as int, i);
    lemma_named(handle, i, s);
}

/// Each weight of a Gemma 4 model is the tensor of its name; a block's value
/// weights, and the frequency factors, are there where the file has them.
pub proof fn law_gemma4_weights_go_by_name<F: Copy>(
    handle: &WeightsHandle,
    p: Gemma4Params<F>,
    w: Gemma4Weights,
    i: int,
)
    requires
        gemma4_collected(handle, p, w),
        0 <= i < p.n_layer,
    ensures
        handle.at("token_embd.weight"@) == Some(w.token_embd),
        handle.at("output_norm.weight"@) == Some(w.output_norm),
        handle.at("output.weight"@) == w.output,
        handle.at("rope_freqs.weight"@) == w.rope_freqs,
        w.blocks@.len() == p.n_layer,
        ({
            let b = w.blocks@[i];
            &&& in_block(handle, i, "attn_norm.weight"@, b.attn_norm)
            &&& in_block(handle, i, "attn_q.weight"@, b.wq)
            &&& in_block(handle, i, "attn_k.weight"@, b.wk)
            &&& handle.at("blk."@ + decimal(i as nat) + "."@ + "attn_v.weight"@) == b.wv
            &&& in_block(handle, i, "attn_output.weight"@, b.wo)
            &&& in_block(handle, i, "attn_q_norm.weight"@, b.attn_q_norm)
            &&& in_block(handle, i, "attn_k_norm.weight"@, b.attn_k_norm)
            &&& in_block(handle, i, "post_attention_norm.weight"@, b.post_attn_norm)
            &&& in_block(handle, i, "ffn_norm.weight"@, b.ffn_norm)
            &&& in_block(handle, i, "ffn_gate.weight"@, b.ffn_gate)
            &&& in_block(handle, i, "ffn_up.weight"@, b.ffn_up)
            &&& in_block(handle, i, "ffn_down.weight"@, b.ffn_down)
            &&& in_block(handle, i, "post_ffw_norm.weight"@, b.post_ffw_norm)
        }),
{
    let s = gemma4_suffixes();
    lemma_parts_there(handle, outer_names(), |j: int| s, p.n_layer as int, i);
    lemma_named(handle, i, s);
}

/// Each weight of a diffusion model is the tensor of its name.
pub proof fn law_diffusion_weights_go_by_name<F: Copy>(
    handle: &WeightsHandle,
    p: DiffusiongemmaParams<F>,
    w: DiffusiongemmaWeights,
    i: int,
)
    requires
        diffusion_collected(handle, p, w),
        0 <= i < p.n_layer,
    ensures
        handle.at("token_embd.weight"@) == Some(w.token_embd),
        handle.at("output_norm.weight"@) == Some(w.output_norm),
        handle.at("output.weight"@) == w.output,
        handle.at("rope_freqs.weight"@) == w.rope_freqs,
        w.blocks@.len() == p.n_layer,
        w.sc is Some <==> p.has_sc,
        w.sc matches Some(c) ==> {
            &&& handle.at("self_cond_pre_norm.weight"@) == Some(c.pre_norm)
            &&& handle.at("self_cond_gate.weight"@) == Some(c.gate)
            &&& handle.at("self_cond_up.weight"@) == Some(c.up)
            &&& handle.at("self_cond_down.weight"@) == Some(c.down)
        },
        ({
            let b = w.blocks@[i];
            &&& in_block(handle, i, "attn_norm.weight"@, b.attn_norm)
            &&& in_block(handle, i, "attn_q.weight"@, b.wq)
            &&& in_block(handle, i, "attn_k.weight"@, b.wk)
            &&& handle.at("blk."@ + decimal(i as nat) + "."@ + "attn_v.weight"@) == b.wv
            &&& in_block(handle, i, "attn_output.weight"@, b.wo)
            &&& in_block(handle, i, "attn_q_norm.weight"@, b.attn_q_norm)
            &&& in_block(handle, i, "attn_k_norm.weight"@, b.attn_k_norm)
            &&& in_block(handle, i, "post_attention_norm.weight"@, b.post_attn_norm)
            &&& in_block(handle, i, "ffn_norm.weight"@, b.ffn_norm)
            &&& in_block(handle, i, "ffn_gate.weight"@, b.ffn_gate)
            &&& in_block(handle, i, "ffn_up.weight"@, b.ffn_up)
            &&& in_block(handle, i, "ffn_down.weight"@, b.ffn_down)
            &&& in_block(handle, i, "post_ffw_norm_1.weight"@, b.ffn_post_norm_1)
            &&& in_block(handle, i, "pre_ffw_norm_2.weight"@, b.ffn_pre_norm_2)
            &&& in_block(handle, i, "post_ffw_norm_2.weight"@, b.ffn_post_norm_2)
            &&& in_block(handle, i, "ffn_gate_inp.weight"@, b.ffn_gate_inp)
            &&& in_block(handle, i, "ffn_gate_inp.scale"@, b.ffn_gate_inp_s)
            &&& in_block(handle, i, "ffn_gate_up_exps.weight"@, b.ffn_gate_up_exps)
            &&& in_block(handle, i, "ffn_down_exps.weight"@, b.ffn_down_exps)
            &&& in_block(handle, i, "ffn_down_exps.scale"@, b.ffn_down_exps_s)
            &&& in_block(handle, i, "post_ffw_norm.weight"@, b.ffn_post_norm)
        }),
{
    let s = diffusion_suffixes();
    let head = head_names(p.has_sc);
    lemma_parts_there(handle, head, |j: int| s, p.n_layer as int, i);
    lemma_named(handle, i, s);
    if p.has_sc {
        lemma_head_there(handle, head, |j: int| s, p.n_layer as int);
        lemma_missing_prefix(handle, outer_names(), sc_names());
        lemma_all_there(handle, sc_names(), 0);
        lemma_all_there(handle, sc_names(), 1);
        lemma_all_there(handle, sc_names(), 2);
        lemma_all_there(handle, sc_names(), 3);
    }
}

/// Where nothing is missing of a model, nothing is missing outside its blocks.
proof fn lemma_head_there(
    handle: &WeightsHandle,
    head: Seq<Seq<char>>,
    of: spec_fn(int) -> Seq<Seq<char>>,
    n: int,
)
    requires
        handle.missing(model_names(head, of, n)) is None,
    ensures
        handle.missing(head) is None,
    decreases n,
{
    if n > 0 {
        lemma_missing_prefix(handle, model_names(head, of, n - 1), block_names(n - 1, of(n - 1)));
        lemma_head_there(handle, head, of, n - 1);
    }
}

/// The feed-forward weights are the tensors of block `i` with their names.
pub open spec fn experts_named(handle: &WeightsHandle, i: int, w: MoeFfnWeights) -> bool {
    &&& in_block(handle, i, "ffn_gate_inp.weight"@, w.ffn_gate_inp)
    &&& in_block(handle, i, "ffn_gate_inp_shexp.weight"@, w.ffn_gate_inp_shexp)
    &&& in_block(handle, i, "ffn_gate_exps.weight"@, w.ffn_gate_exps)
    &&& in_block(handle, i, "ffn_up_exps.weight"@, w.ffn_up_exps)
    &&& in_block(handle, i, "ffn_down_exps.weight"@, w.ffn_down_exps)
    &&& in_block(handle, i, "ffn_gate_shexp.weight"@, w.ffn_gate_shexp)
    &&& in_block(handle, i, "ffn_up_shexp.weight"@, w.ffn_up_shexp)
    &&& in_block(handle, i, "ffn_down_shexp.weight"@, w.ffn_down_shexp)
}

/// The attention weights are the tensors of block `i` with their names.
pub open spec fn attention_named(
    handle: &WeightsHandle,
    i: int,
    a: AttentionBlockWeights,
) -> bool {
    &&& in_block(handle, i, "attn_norm.weight"@, a.attn_norm)
    &&& in_block(handle, i, "post_attention_norm.weight"@, a.post_attn_norm)
    &&& in_block(handle, i, "attn_q.weight"@, a.wq)
    &&& in_block(handle, i, "attn_k.weight"@, a.wk)
    &&& in_block(handle, i, "attn_v.weight"@, a.wv)
    &&& in_block(handle, i, "attn_output.weight"@, a.wo)
    &&& in_block(handle, i, "attn_q_norm.weight"@, a.attn_q_norm)
    &&& in_block(handle, i, "attn_k_norm.weight"@, a.attn_k_norm)
    &&& experts_named(handle, i, a.moe)
}

/// The recurrent weights are the tensors of block `i` with their names.
pub open spec fn recurrent_named(handle: &WeightsHandle, i: int, s: SsmBlockWeights) -> bool {
    &&& in_block(handle, i, "attn_norm.weight"@, s.attn_norm)
    &&& in_block(handle, i, "post_attention_norm.weight"@, s.post_attn_norm)
    &&& in_block(handle, i, "attn_qkv.weight"@, s.attn_qkv)
    &&& in_block(handle, i, "attn_gate.weight"@, s.attn_gate)
    &&& in_block(handle, i, "ssm_alpha.weight"@, s.ssm_alpha)
    &&& in_block(handle, i, "ssm_beta.weight"@, s.ssm_beta)
    &&& in_block(handle, i, "ssm_a"@, s.ssm_a)
    &&& in_block(handle, i, "ssm_dt.bias"@, s.ssm_dt_bias)
    &&& in_block(handle, i, "ssm_conv1d.weight"@, s.ssm_conv1d)
    &&& in_block(handle, i, "ssm_norm.weight"@, s.ssm_norm)
    &&& in_block(handle, i, "ssm_out.weight"@, s.ssm_out)
    &&& experts_named(handle, i, s.moe)
}

/// The feed-forward weights that are loaded for block `i` go by their names.
proof fn lemma_experts_named(handle: &WeightsHandle, i: int)
    requires
        handle.missing(block_names(i, moe_suffixes())) is None,
    ensures
        experts_named(handle, i, crate::models::qwen35_params::moe_at(handle, i)),
{
    let s = moe_suffixes();
    lemma_named(handle, i, s);
}

/// The attention weights that are loaded for block `i` go by their names.
proof fn lemma_attention_named(handle: &WeightsHandle, i: int)
    requires
        handle.missing(block_names(i, moe_suffixes())) is None,
        handle.missing(block_names(i, attention_suffixes())) is None,
    ensures
        attention_named(handle, i, crate::models::qwen35_params::attention_at(handle, i)),
{
    lemma_experts_named(handle, i);
    let s = attention_suffixes();
    lemma_named(handle, i, s);
}

/// Each weight of a Qwen 3.5 model is the tensor of its name, and every layer is of
/// the kind that its place calls for: one in `full_attn_interval` mixes by
/// attention. The draft head's weights are those of the block behind the trunk.
pub proof fn law_qwen35_weights_go_by_name<F: Copy>(
    handle: &WeightsHandle,
    p: Qwen35MoeParams<F>,
    spec_enabled: bool,
    w: Qwen35MoeWeights,
    i: int,
)
    requires
        qwen35_collected(handle, p, spec_enabled, w),
        0 <= i < p.n_main,
        p.full_attn_interval > 0,
    ensures
        handle.at("token_embd.weight"@) == Some(w.token_embd),
        handle.at("output_norm.weight"@) == Some(w.output_norm),
        handle.at("output.weight"@) == w.output,
        w.blocks@.len() == p.n_main,
        match w.blocks@[i] {
            BlockWeights::Attention(a) => (i + 1) % p.full_attn_interval as int == 0
                && attention_named(handle, i, a),
            BlockWeights::Ssm(s) => (i + 1) % p.full_attn_interval as int != 0 && recurrent_named(
                handle,
                i,
                s,
            ),
        },
        w.mtp matches Some(d) ==> {
            &&& spec_enabled && p.nextn_predict_layers >= 1
            &&& in_block(handle, p.n_main as int, "nextn.enorm.weight"@, d.enorm)
            &&& in_block(handle, p.n_main as int, "nextn.hnorm.weight"@, d.hnorm)
            &&& in_block(handle, p.n_main as int, "nextn.eh_proj.weight"@, d.eh_proj)
            &&& in_block(
                handle,
                p.n_main as int,
                "nextn.shared_head_norm.weight"@,
                d.shared_head_norm,
            )
            &&& attention_named(handle, p.n_main as int, d.body)
        },
{
    let of = |j: int| qwen35_suffixes(p.n_main, p.full_attn_interval, j);
    lemma_parts_there(handle, outer_names(), of, p.n_main as int, i);
    let all = of(i);
    let rest = match w.blocks@[i] {
        BlockWeights::Attention(_) => attention_suffixes(),
        BlockWeights::Ssm(_) => ssm_suffixes(),
    };
    assert(block_names(i, moe_suffixes() + rest) =~= block_names(i, moe_suffixes()) + block_names(
        i,
        rest,
    ));
    lemma_missing_prefix(handle, block_names(i, moe_suffixes()), block_names(i, rest));
    lemma_experts_named(handle, i);
    match w.blocks@[i] {
        BlockWeights::Attention(_) => {
            lemma_attention_named(handle, i);
        },
        BlockWeights::Ssm(_) => {
            let s = ssm_suffixes();
            lemma_named(handle, i, s);
        },
    }
    if w.mtp is Some {
        let at = p.n_main as int;
        lemma_attention_named(handle, at);
        let s = nextn_suffixes();
        lemma_named(handle, at, s);
    }
}

} // verus!
