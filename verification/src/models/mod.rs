//! Model architectures: how each lays its parameters out, and what each records
//! for a forward pass.
use vstd::prelude::*;

use crate::models::tensor::TensorView;

pub mod batch_laws;
pub mod blocks;
pub mod cache;
pub mod cache_check;
pub mod describe;
pub mod diffusion_blocks;
pub mod diffusion_params;
pub mod diffusiongemma;
pub mod feed_laws;
pub mod gemma4;
pub mod gemma4_params;
pub mod gemma_blocks;
pub mod gemma_laws;
pub mod llama;
pub mod llama_batch;
pub mod llama_laws;
pub mod llama_params;
pub mod loading;
pub mod masks;
pub mod meaning;
pub mod metadata;
pub mod mrope;
pub mod naming_laws;
pub mod open;
pub mod qwen3;
pub mod qwen3_params;
pub mod qwen35_attention;
pub mod qwen35_batch;
pub mod qwen35_moe;
pub mod qwen35_mtp;
pub mod qwen35_params;
pub mod qwen35_ssm;
pub mod qwen35_ssm_batch;
pub mod qwen35_weights;
pub mod qwen35moe;
pub mod qwen_laws;
pub mod recorder;
pub mod recurrent_laws;
pub mod shape_laws;
pub mod size_laws;
pub mod splice;
pub mod tensor;

verus! {

/// Logits and every token's hidden state of a pass.
pub struct ForwardFullOut {
    pub logits: Option<TensorView>,
    pub residual: TensorView,
}

/// Logits and hidden states of every token of packed sequences.
pub struct UnifiedVerifyOut {
    pub logits: TensorView,
    pub residual: TensorView,
}

/// A drafted token and the hidden state that the next draft starts from.
pub struct MtpDraftOut {
    pub draft_token: TensorView,
    pub block_out: TensorView,
}

/// Sizes of the recurrent state of a hybrid model.
#[derive(Clone, Copy, Debug)]
pub struct SsmStateDims {
    pub n_ssm_layers: u32,
    pub conv_state_floats: u32,
    pub gdn_state_floats: u32,
    pub conv_channels: u32,
    pub conv_kernel: u32,
}

/// What a key-value cache is sized by.
#[derive(Clone, Copy, Debug)]
pub struct CacheDims {
    pub n_layer: u32,
    pub head_dim: u32,
    pub n_head_kv: u32,
    pub n_head: u32,
}

} // verus!
