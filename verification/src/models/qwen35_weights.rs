//! Parameters and weights of the Qwen 3.5 mixture-of-experts architecture.
use vstd::prelude::*;

use crate::models::recorder::{FlashAttnParams, RopeMultiParams};
use crate::models::tensor::{dims4, Dims, TensorView};

verus! {

/// A value inside a recurrent half that a diagnostic run shows in its place.
#[derive(Clone, Copy, PartialEq, Eq, Structural, Debug)]
pub enum Shown {
    Alpha,
    Beta,
    Qkv,
    Conv,
    /// The scan's outputs, as far as they are as wide as the hidden state.
    Scan,
    /// The gated outputs, likewise.
    Gated,
    Proj,
    /// A name that stands for none: the half does what it always does.
    Other,
}

/// What a diagnostic run leaves out of a pass, or shows in its place.
#[derive(Clone, Copy)]
pub struct QwenSwitches<F> {
    /// Layers that a pass over one sequence is cut off after.
    pub max_layers: Option<u32>,
    /// Whether a pass over one sequence keeps the scratch of its layers.
    pub keep_scratch: bool,
    /// Whether a pass over one sequence leaves attention out.
    pub no_attn: bool,
    /// Whether a pass over one sequence leaves recurrent halves out.
    pub no_ssm: bool,
    /// Whether a pass over one sequence leaves feed-forward halves out.
    pub no_moe: bool,
    /// Whether a recurrent half of one sequence ends with its norm.
    pub only_rms: bool,
    /// Whether a recurrent half of one sequence leaves its convolution out.
    pub no_conv: bool,
    /// The scan's scale over one sequence, in place of the usual one.
    pub gdn_scale: Option<F>,
    /// What a recurrent half of one sequence shows.
    pub shown: Option<Shown>,
    /// Whether the routed experts are left out.
    pub no_routed: bool,
    /// Whether the shared expert is left out.
    pub no_shared: bool,
}

/// The switches of an ordinary run.
pub open spec fn all_off<F>() -> QwenSwitches<F> {
    QwenSwitches {
        max_layers: None,
        keep_scratch: false,
        no_attn: false,
        no_ssm: false,
        no_moe: false,
        only_rms: false,
        no_conv: false,
        gdn_scale: None,
        shown: None,
        no_routed: false,
        no_shared: false,
    }
}

impl<F> QwenSwitches<F> {
    /// The switches of an ordinary run.
    pub fn off() -> (r: Self)
        ensures
            r == all_off::<F>(),
    {
        QwenSwitches {
            max_layers: None,
            keep_scratch: false,
            no_attn: false,
            no_ssm: false,
            no_moe: false,
            only_rms: false,
            no_conv: false,
            gdn_scale: None,
            shown: None,
            no_routed: false,
            no_shared: false,
        }
    }
}

/// Architecture parameters. `F` is the number type of the device constants.
pub struct Qwen35MoeParams<F> {
    pub n_layer: u32,
    /// Layers of the main trunk; draft layers follow them.
    pub n_main: u32,
    pub nextn_predict_layers: u32,
    pub full_attn_interval: u32,
    pub n_embd: u32,
    pub n_head: u32,
    pub n_head_kv: u32,
    pub head_dim_k: u32,
    pub head_dim_v: u32,
    pub n_vocab: u32,
    pub n_ctx_train: u32,
    pub rope_dim: u32,
    pub rope_sections: Dims,
    pub rope_freq_base: F,
    pub n_expert: u32,
    pub n_expert_used: u32,
    pub expert_ff: u32,
    pub shared_expert_ff: u32,
    /// Width of a recurrent head.
    pub ssm_state: u32,
    pub ssm_conv: u32,
    /// Key heads of a recurrent layer.
    pub ssm_groups: u32,
    /// Value heads of a recurrent layer.
    pub ssm_dt_rank: u32,
    pub ssm_inner: u32,
    pub rms_eps: F,
    /// One over the square root of the key head width.
    pub attn_scale: F,
    /// One over the square root of the recurrent head width.
    pub gdn_scale: F,
    /// Epsilon of the recurrent heads' norm.
    pub l2_eps: F,
    pub switches: QwenSwitches<F>,
}

/// The layer mixes by attention: every `interval`-th of the main trunk does.
pub open spec fn attention_layer(n_main: u32, interval: u32, i: int) -> bool {
    i < n_main && (i + 1) % interval as int == 0
}

/// How many of the first `n` layers are recurrent.
pub open spec fn recurrent_before(n_main: u32, interval: u32, n: int) -> int
    decreases n,
{
    if n <= 0 {
        0
    } else {
        recurrent_before(n_main, interval, n - 1) + if attention_layer(n_main, interval, n - 1) {
            0int
        } else {
            1int
        }
    }
}

/// Recurrent layers are counted one by one.
pub proof fn lemma_recurrent_before(n_main: u32, interval: u32, a: int, b: int)
    requires
        0 <= a <= b,
    ensures
        0 <= recurrent_before(n_main, interval, a) <= recurrent_before(n_main, interval, b)
            <= recurrent_before(n_main, interval, a) + b - a,
        a < b && !attention_layer(n_main, interval, a) ==> recurrent_before(n_main, interval, a)
            < recurrent_before(n_main, interval, b),
    decreases b,
{
    if a < b {
        lemma_recurrent_before(n_main, interval, a, b - 1);
    } else if a > 0 {
        lemma_recurrent_before(n_main, interval, a - 1, a - 1);
    }
}

impl<F: Copy> Qwen35MoeParams<F> {
    /// Channels that a recurrent layer convolves.
    pub open spec fn conv_width(&self) -> int {
        2 * (self.ssm_groups * self.ssm_state) + self.ssm_dt_rank * self.ssm_state
    }

    /// Elements of a layer's recurrent state.
    pub open spec fn state_size(&self) -> int {
        self.ssm_state * self.ssm_state * self.ssm_dt_rank
    }

    /// Derived widths are 32-bit numbers, and there are heads.
    pub open spec fn wf(&self) -> bool {
        &&& self.n_embd > 0
        &&& self.n_head > 0
        &&& self.n_head_kv > 0
        &&& self.full_attn_interval > 0
        &&& self.head_dim_k * self.n_head_kv <= u32::MAX
        &&& self.head_dim_v * self.n_head_kv <= u32::MAX
        &&& 2 * (self.head_dim_k * self.n_head) <= u32::MAX
        &&& self.head_dim_v * self.n_head <= u32::MAX
        &&& self.ssm_conv >= 1
        &&& self.ssm_state >= 1
        &&& self.ssm_groups >= 1
        &&& self.ssm_dt_rank >= 1
        &&& self.conv_width() <= u32::MAX
        &&& (self.ssm_conv - 1) * self.conv_width() <= u32::MAX
        &&& self.state_size() <= u32::MAX
    }

    /// Whether layer `i` is an attention layer of the main trunk.
    pub fn is_attention_layer(&self, i: u32) -> (r: bool)
        requires
            self.full_attn_interval > 0,
        ensures
            r == attention_layer(self.n_main, self.full_attn_interval, i as int),
    {
        i < self.n_main && ((i + 1) % self.full_attn_interval == 0)
    }

    /// Width of the key projection.
    pub fn n_embd_k_gqa(&self) -> (r: u32)
        requires
            self.head_dim_k * self.n_head_kv <= u32::MAX,
        ensures
            r == self.head_dim_k * self.n_head_kv,
    {
        self.head_dim_k * self.n_head_kv
    }

    /// Width of the value projection.
    pub fn n_embd_v_gqa(&self) -> (r: u32)
        requires
            self.head_dim_v * self.n_head_kv <= u32::MAX,
        ensures
            r == self.head_dim_v * self.n_head_kv,
    {
        self.head_dim_v * self.n_head_kv
    }

    /// Width of the query projection: queries, and a gate for each.
    pub fn wq_out(&self) -> (r: u32)
        requires
            2 * (self.head_dim_k * self.n_head) <= u32::MAX,
        ensures
            r == 2 * (self.head_dim_k * self.n_head),
    {
        2 * (self.head_dim_k * self.n_head)
    }

    /// Rotary parameters. The axes are interleaved where an image is present.
    pub open spec fn rope(&self, image: bool) -> RopeMultiParams<F> {
        RopeMultiParams {
            dim: self.rope_dim,
            freq_base: self.rope_freq_base,
            sections: self.rope_sections,
            is_imrope: image,
        }
    }

    /// Attention parameters.
    pub open spec fn attn(&self) -> FlashAttnParams<F> {
        let ratio = self.n_head / self.n_head_kv;
        FlashAttnParams {
            head_dim_k: self.head_dim_k,
            head_dim_v: self.head_dim_v,
            gqa_ratio: if ratio >= 1 {
                ratio
            } else {
                1
            },
            scale: self.attn_scale,
            swa_window: 0,
        }
    }

    /// Rotary parameters.
    pub fn rope_params(&self, image: bool) -> (r: RopeMultiParams<F>)
        ensures
            r == self.rope(image),
    {
        RopeMultiParams {
            dim: self.rope_dim,
            freq_base: self.rope_freq_base,
            sections: self.rope_sections,
            is_imrope: image,
        }
    }

    /// Attention parameters.
    pub fn attn_params(&self) -> (r: FlashAttnParams<F>)
        requires
            self.n_head_kv > 0,
        ensures
            r == self.attn(),
    {
        let ratio: u32 = self.n_head / self.n_head_kv;
        FlashAttnParams {
            head_dim_k: self.head_dim_k,
            head_dim_v: self.head_dim_v,
            gqa_ratio: if ratio >= 1 {
                ratio
            } else {
                1
            },
            scale: self.attn_scale,
            swa_window: 0,
        }
    }

    /// How many of the first `n` layers are recurrent.
    pub fn count_recurrent(&self, n: usize) -> (r: usize)
        requires
            self.full_attn_interval > 0,
            n <= u32::MAX,
        ensures
            r == recurrent_before(self.n_main, self.full_attn_interval, n as int),
            r <= n,
    {
        let mut i: usize = 0;
        let mut count: usize = 0;
        while i < n
            invariant
                i <= n <= u32::MAX,
                count <= i,
                self.full_attn_interval > 0,
                count == recurrent_before(self.n_main, self.full_attn_interval, i as int),
            decreases n - i,
        {
            if !self.is_attention_layer(i as u32) {
                count += 1;
            }
            i += 1;
        }
        count
    }
}

/// Weights of a feed-forward half: routed experts, and one that all tokens share.
#[derive(Clone, Copy)]
pub struct MoeFfnWeights {
    pub ffn_gate_inp: TensorView,
    pub ffn_gate_inp_shexp: TensorView,
    pub ffn_gate_exps: TensorView,
    pub ffn_up_exps: TensorView,
    pub ffn_down_exps: TensorView,
    pub ffn_gate_shexp: TensorView,
    pub ffn_up_shexp: TensorView,
    pub ffn_down_shexp: TensorView,
}

impl MoeFfnWeights {
    /// Every tensor lies among the weights.
    pub open spec fn apart(&self) -> bool {
        &&& self.ffn_gate_inp.buffer is Weights
        &&& self.ffn_gate_inp_shexp.buffer is Weights
        &&& self.ffn_gate_exps.buffer is Weights
        &&& self.ffn_up_exps.buffer is Weights
        &&& self.ffn_down_exps.buffer is Weights
        &&& self.ffn_gate_shexp.buffer is Weights
        &&& self.ffn_up_shexp.buffer is Weights
        &&& self.ffn_down_shexp.buffer is Weights
    }
}

/// Weights of an attention layer.
#[derive(Clone, Copy)]
pub struct AttentionBlockWeights {
    pub attn_norm: TensorView,
    pub post_attn_norm: TensorView,
    /// Queries, each head followed by its gate.
    pub wq: TensorView,
    pub wk: TensorView,
    pub wv: TensorView,
    pub wo: TensorView,
    pub attn_q_norm: TensorView,
    pub attn_k_norm: TensorView,
    pub moe: MoeFfnWeights,
}

impl AttentionBlockWeights {
    /// Every tensor lies among the weights.
    pub open spec fn apart(&self) -> bool {
        &&& self.attn_norm.buffer is Weights
        &&& self.post_attn_norm.buffer is Weights
        &&& self.wq.buffer is Weights
        &&& self.wk.buffer is Weights
        &&& self.wv.buffer is Weights
        &&& self.wo.buffer is Weights
        &&& self.attn_q_norm.buffer is Weights
        &&& self.attn_k_norm.buffer is Weights
        &&& self.moe.apart()
    }
}

/// Weights of a recurrent layer.
#[derive(Clone, Copy)]
pub struct SsmBlockWeights {
    pub attn_norm: TensorView,
    pub post_attn_norm: TensorView,
    pub attn_qkv: TensorView,
    /// Gate of the output.
    pub attn_gate: TensorView,
    pub ssm_alpha: TensorView,
    pub ssm_beta: TensorView,
    pub ssm_a: TensorView,
    pub ssm_dt_bias: TensorView,
    pub ssm_conv1d: TensorView,
    pub ssm_norm: TensorView,
    pub ssm_out: TensorView,
    pub moe: MoeFfnWeights,
}

impl SsmBlockWeights {
    /// Every tensor lies among the weights.
    pub open spec fn apart(&self) -> bool {
        &&& self.attn_norm.buffer is Weights
        &&& self.post_attn_norm.buffer is Weights
        &&& self.attn_qkv.buffer is Weights
        &&& self.attn_gate.buffer is Weights
        &&& self.ssm_alpha.buffer is Weights
        &&& self.ssm_beta.buffer is Weights
        &&& self.ssm_a.buffer is Weights
        &&& self.ssm_dt_bias.buffer is Weights
        &&& self.ssm_conv1d.buffer is Weights
        &&& self.ssm_norm.buffer is Weights
        &&& self.ssm_out.buffer is Weights
        &&& self.moe.apart()
    }
}

/// Weights of a layer.
#[derive(Clone, Copy)]
pub enum BlockWeights {
    Attention(AttentionBlockWeights),
    Ssm(SsmBlockWeights),
}

impl BlockWeights {
    /// Every tensor lies among the weights.
    pub open spec fn apart(&self) -> bool {
        match self {
            BlockWeights::Attention(a) => a.apart(),
            BlockWeights::Ssm(s) => s.apart(),
        }
    }

    /// The feed-forward half.
    pub open spec fn experts(&self) -> MoeFfnWeights {
        match self {
            BlockWeights::Attention(a) => a.moe,
            BlockWeights::Ssm(s) => s.moe,
        }
    }

    /// The norm before the feed-forward half.
    pub open spec fn mid_norm(&self) -> TensorView {
        match self {
            BlockWeights::Attention(a) => a.post_attn_norm,
            BlockWeights::Ssm(s) => s.post_attn_norm,
        }
    }

    /// The feed-forward half, which layers of both kinds have.
    pub fn moe(&self) -> (r: &MoeFfnWeights)
        ensures
            *r == self.experts(),
    {
        match self {
            BlockWeights::Attention(a) => &a.moe,
            BlockWeights::Ssm(s) => &s.moe,
        }
    }

    /// The norm before the layer's mixing half.
    pub fn attn_norm(&self) -> (r: TensorView)
        ensures
            r == match self {
                BlockWeights::Attention(a) => a.attn_norm,
                BlockWeights::Ssm(s) => s.attn_norm,
            },
    {
        match self {
            BlockWeights::Attention(a) => a.attn_norm,
            BlockWeights::Ssm(s) => s.attn_norm,
        }
    }

    /// The norm before the feed-forward half.
    pub fn post_attn_norm(&self) -> (r: TensorView)
        ensures
            r == self.mid_norm(),
    {
        match self {
            BlockWeights::Attention(a) => a.post_attn_norm,
            BlockWeights::Ssm(s) => s.post_attn_norm,
        }
    }
}

/// Weights of the draft head.
#[derive(Clone, Copy)]
pub struct MtpWeights {
    /// Norm of the accepted token's embedding.
    pub enorm: TensorView,
    /// Norm of the hidden state.
    pub hnorm: TensorView,
    /// Projection of the two side by side.
    pub eh_proj: TensorView,
    /// Norm before the shared output head.
    pub shared_head_norm: TensorView,
    pub body: AttentionBlockWeights,
}

impl MtpWeights {
    /// Every tensor lies among the weights.
    pub open spec fn apart(&self) -> bool {
        &&& self.enorm.buffer is Weights
        &&& self.hnorm.buffer is Weights
        &&& self.eh_proj.buffer is Weights
        &&& self.shared_head_norm.buffer is Weights
        &&& self.body.apart()
    }
}

/// All weights.
pub struct Qwen35MoeWeights {
    pub token_embd: TensorView,
    pub output_norm: TensorView,
    /// Absent where the head shares the token embedding.
    pub output: Option<TensorView>,
    /// The layers of the main trunk.
    pub blocks: Vec<BlockWeights>,
    /// The draft head, where it is loaded.
    pub mtp: Option<MtpWeights>,
}

impl Qwen35MoeWeights {
    /// Every tensor lies among the weights.
    pub open spec fn apart(&self) -> bool {
        &&& self.token_embd.buffer is Weights
        &&& self.output_norm.buffer is Weights
        &&& self.output matches Some(t) ==> t.buffer is Weights
        &&& self.mtp matches Some(w) ==> w.apart()
        &&& forall|i: int| 0 <= i < self.blocks@.len() ==> (#[trigger] self.blocks@[i]).apart()
    }

    /// The output head.
    pub open spec fn head(&self) -> TensorView {
        match self.output {
            Some(t) => t,
            None => self.token_embd,
        }
    }
}

/// The queries of `[2 * head_dim * n_head, l]`, or their gates: each head is
/// followed by its gate.
pub open spec fn q_half(q: TensorView, head_dim: u64, n_head: u64, l: u64, gate: bool) -> TensorView {
    let e = q.byte_stride.d0;
    let off = if gate {
        head_dim * e
    } else {
        0
    };
    TensorView {
        byte_offset: (q.byte_offset + off) as u64,
        byte_size: (q.byte_size - off) as u64,
        dims: crate::models::tensor::headed(head_dim, n_head, l),
        byte_stride: dims4(
            e as int,
            2 * head_dim * e,
            2 * head_dim * n_head * e,
            2 * head_dim * n_head * l * e,
        ),
        element_stride: dims4(
            1,
            2 * head_dim,
            2 * head_dim * n_head,
            2 * head_dim * n_head * l,
        ),
        ..q
    }
}

/// Take the queries or the gates of a double-width projection.
pub fn slice_q_half(q_full: TensorView, head_dim: u64, n_head: u64, l: u64, is_gate: bool) -> (r:
    TensorView)
    requires
        q_full.byte_stride.d0 == 4,
        n_head >= 1,
        l >= 1,
        4 * (2 * (head_dim * n_head)) * l <= u64::MAX,
        q_full.byte_size >= 4 * head_dim,
        q_full.byte_offset + 4 * head_dim <= u64::MAX,
    ensures
        r == q_half(q_full, head_dim, n_head, l, is_gate),
{
    let elem: u64 = q_full.byte_stride.d0;
    proof {
        assert(2 * head_dim * n_head * l * 4 == 4 * (2 * (head_dim * n_head)) * l)
            by (nonlinear_arith);
        assert(2 * head_dim * n_head * 4 <= 2 * head_dim * n_head * l * 4) by (nonlinear_arith)
            requires
                l >= 1,
        ;
        assert(2 * head_dim * 4 <= 2 * head_dim * n_head * 4) by (nonlinear_arith)
            requires
                n_head >= 1,
        ;
        assert(2 * head_dim * n_head <= 2 * head_dim * n_head * 4) by (nonlinear_arith);
        assert(2 * head_dim * n_head * l <= 2 * head_dim * n_head * l * 4) by (nonlinear_arith);
    }
    let gate_offset: u64 = if is_gate {
        head_dim * elem
    } else {
        0
    };
    TensorView {
        byte_offset: q_full.byte_offset + gate_offset,
        byte_size: q_full.byte_size - gate_offset,
        dims: Dims { d0: head_dim, d1: n_head, d2: l, d3: 1 },
        byte_stride: Dims {
            d0: elem,
            d1: 2 * head_dim * elem,
            d2: 2 * head_dim * n_head * elem,
            d3: 2 * head_dim * n_head * l * elem,
        },
        element_stride: Dims {
            d0: 1,
            d1: 2 * head_dim,
            d2: 2 * head_dim * n_head,
            d3: 2 * head_dim * n_head * l,
        },
        ..q_full
    }
}

/// Element `d` of head `h` lies `head_dim` elements before its gate.
pub proof fn law_gate_follows_its_head(
    q: TensorView,
    head_dim: u64,
    n_head: u64,
    l: u64,
    d: int,
    h: int,
    token: int,
)
    requires
        q.byte_offset + head_dim * q.byte_stride.d0 <= u64::MAX,
    ensures
        crate::models::tensor::address(q_half(q, head_dim, n_head, l, true), d, h, token, 0)
            == crate::models::tensor::address(q_half(q, head_dim, n_head, l, false), d, h, token, 0)
            + head_dim * q.byte_stride.d0,
{
    assert(head_dim * q.byte_stride.d0 >= 0) by (nonlinear_arith);
}

} // verus!
