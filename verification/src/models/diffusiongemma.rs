//! DiffusionGemma: a text-diffusion model that fills a fixed-length canvas. One
//! bidirectional pass runs over the prompt and the canvas together; embeddings,
//! layer scales and masks differ between the two regions.
use vstd::prelude::*;

use crate::models::blocks::{
    embedded, gated_bytes, gated_ready, gated_term, head_bytes, lemma_released, ready, record_gated,
    record_head, same_weights, sequential, sequential_positions, undisturbed, weights_live,
    words_term, GatedWeights,
};
use crate::models::diffusion_blocks::{
    attention_bytes, diffusion_attended, diffusion_fed, fed_failure,
    record_ffn_moe, record_masked_attention, DiffusionScWeights, DiffusiongemmaBlockWeights,
    ExpertLayer, MaskedAttention,
};
use crate::models::gemma_blocks::{
    capped, lemma_columns, over_columns, record_softcap, GemmaHeads, Softcap,
};
use crate::models::masks::{region_mask_values, region_values, MaskValues};
use crate::models::recorder::{
    content, fresh, later, op1, op2, quiet, read, reserved, spends, through, DispatchContext, Fence,
    FlashAttnParams, Memory, Op, RecordError, RopeParams, Term,
};
use crate::models::tensor::{
    col_slice, columns, covers, dense, matrix, size, Buffer, Dims, GgmlType, TensorView,
};

verus! {

/// Architecture parameters. `F` is the number type of the device constants.
pub struct DiffusiongemmaParams<F> {
    pub n_layer: u32,
    pub n_head: u32,
    pub n_embd: u32,
    /// Width of the shared feed-forward stretch.
    pub n_ff: u32,
    pub n_vocab: u32,
    pub n_ctx_train: u32,
    pub rms_eps: F,
    /// The square root of the embedding width.
    pub embd_scale: F,
    /// One over the square root of the embedding width.
    pub router_scale: F,
    /// One: the learned head norms take the place of a scale.
    pub attn_scale: F,
    /// Absent where final logits are not bounded.
    pub final_logit_softcap: Option<Softcap<F>>,
    pub sliding_window: u32,
    pub head_dim_swa: u32,
    pub rope_base_swa: F,
    pub head_dim_global: u32,
    pub rope_base_global: F,
    /// Whether a layer is a sliding-window layer.
    pub swa: Vec<bool>,
    pub n_head_kv: Vec<u32>,
    pub n_expert: u32,
    pub n_expert_used: u32,
    /// Width of an expert.
    pub expert_ff: u32,
    /// Tokens of the canvas.
    pub canvas_length: u32,
    /// Factor on a layer's output over the canvas.
    pub out_scale: Vec<F>,
    /// Factor on a layer's output over the prompt.
    pub enc_out_scale: Vec<F>,
    /// Whether the self-conditioning weights are there.
    pub has_sc: bool,
}

impl<F: Copy> DiffusiongemmaParams<F> {
    /// Width of a head of layer `il`.
    pub open spec fn head(&self, il: int) -> u32 {
        if self.swa@[il] {
            self.head_dim_swa
        } else {
            self.head_dim_global
        }
    }

    /// Layer `il` has heads, and its projection widths are 32-bit numbers.
    pub open spec fn layer_wf(&self, il: int) -> bool {
        &&& self.n_head_kv@[il] > 0
        &&& self.n_head * self.head(il) <= u32::MAX
        &&& self.n_head_kv@[il] * self.head(il) <= u32::MAX
    }

    /// Every layer is described.
    pub open spec fn wf(&self, layers: int) -> bool {
        &&& self.n_head > 0
        &&& self.n_embd > 0
        &&& 2 * (self.n_vocab * self.n_embd) <= u64::MAX
        &&& layers <= self.swa@.len()
        &&& self.n_head_kv@.len() == self.swa@.len()
        &&& self.out_scale@.len() == self.swa@.len()
        &&& self.enc_out_scale@.len() == self.swa@.len()
        &&& forall|il: int| 0 <= il < self.swa@.len() ==> #[trigger] self.layer_wf(il)
    }

    /// What decides the attention of layer `il` over `n` tokens. The window of a
    /// sliding layer is in its mask.
    pub open spec fn attention(&self, il: int, freqs: Option<TensorView>, n: u32) -> MaskedAttention<
        F,
    > {
        let ratio = self.n_head / self.n_head_kv@[il];
        MaskedAttention {
            eps: self.rms_eps,
            rope: RopeParams {
                dim: self.head(il),
                freq_base: if self.swa@[il] {
                    self.rope_base_swa
                } else {
                    self.rope_base_global
                },
            },
            attn: FlashAttnParams {
                head_dim_k: self.head(il),
                head_dim_v: self.head(il),
                gqa_ratio: if ratio >= 1 {
                    ratio
                } else {
                    1
                },
                scale: self.attn_scale,
                swa_window: 0,
            },
            heads: GemmaHeads {
                head_dim: self.head(il) as u64,
                n_head: self.n_head as u64,
                n_head_kv: self.n_head_kv@[il] as u64,
                q_dim: (self.n_head * self.head(il)) as u64,
                kv_dim: (self.n_head_kv@[il] * self.head(il)) as u64,
            },
            freqs: if self.swa@[il] {
                None
            } else {
                freqs
            },
            width: self.n_embd as u64,
            n,
        }
    }

    /// What decides the feed-forward half of a layer over `n` tokens.
    pub open spec fn experts(&self, n: u32, group: bool) -> ExpertLayer<F> {
        ExpertLayer {
            eps: self.rms_eps,
            router_scale: self.router_scale,
            width: self.n_embd as u64,
            n_ff: self.n_ff as u64,
            expert_ff: self.expert_ff,
            n_expert: self.n_expert,
            n_used: self.n_expert_used,
            n,
            group,
        }
    }

    /// Width of a head of layer `il`.
    pub fn head_dim(&self, il: usize) -> (r: u32)
        requires
            il < self.swa@.len(),
        ensures
            r == self.head(il as int),
    {
        if self.swa[il] {
            self.head_dim_swa
        } else {
            self.head_dim_global
        }
    }

    /// Rotary base of layer `il`.
    pub fn rope_base(&self, il: usize) -> (r: F)
        requires
            il < self.swa@.len(),
        ensures
            r == if self.swa@[il as int] {
                self.rope_base_swa
            } else {
                self.rope_base_global
            },
    {
        if self.swa[il] {
            self.rope_base_swa
        } else {
            self.rope_base_global
        }
    }

    /// Width of the query projection of layer `il`.
    pub fn q_dim(&self, il: usize) -> (r: u32)
        requires
            il < self.swa@.len(),
            self.layer_wf(il as int),
        ensures
            r == self.n_head * self.head(il as int),
    {
        self.n_head * self.head_dim(il)
    }

    /// Width of the key projection of layer `il`.
    pub fn kv_dim(&self, il: usize) -> (r: u32)
        requires
            il < self.swa@.len(),
            il < self.n_head_kv@.len(),
            self.layer_wf(il as int),
        ensures
            r == self.n_head_kv@[il as int] * self.head(il as int),
    {
        self.n_head_kv[il] * self.head_dim(il)
    }

    /// What decides the attention of layer `il` over `n` tokens.
    fn attention_params(&self, il: usize, freqs: Option<TensorView>, n: u32) -> (r: MaskedAttention<
        F,
    >)
        requires
            self.wf(il as int + 1),
        ensures
            r == self.attention(il as int, freqs, n),
            r.heads.wf(),
    {
        assert(self.layer_wf(il as int));
        let hd: u32 = self.head_dim(il);
        let ratio: u32 = self.n_head / self.n_head_kv[il];
        let r = MaskedAttention {
            eps: self.rms_eps,
            rope: RopeParams { dim: hd, freq_base: self.rope_base(il) },
            attn: FlashAttnParams {
                head_dim_k: hd,
                head_dim_v: hd,
                gqa_ratio: if ratio >= 1 {
                    ratio
                } else {
                    1
                },
                scale: self.attn_scale,
                swa_window: 0,
            },
            heads: GemmaHeads {
                head_dim: hd as u64,
                n_head: self.n_head as u64,
                n_head_kv: self.n_head_kv[il] as u64,
                q_dim: self.q_dim(il) as u64,
                kv_dim: self.kv_dim(il) as u64,
            },
            freqs: if self.swa[il] {
                None
            } else {
                freqs
            },
            width: self.n_embd as u64,
            n,
        };
        let ghost h = r.heads;
        assert(h.q_dim == h.head_dim * h.n_head && h.kv_dim == h.head_dim * h.n_head_kv)
            by (nonlinear_arith)
            requires
                h.q_dim == h.n_head * h.head_dim,
                h.kv_dim == h.n_head_kv * h.head_dim,
        ;
        r
    }
}

/// All weights.
pub struct DiffusiongemmaWeights {
    pub token_embd: TensorView,
    pub blocks: Vec<DiffusiongemmaBlockWeights>,
    pub output_norm: TensorView,
    /// Absent where the head shares the token embedding.
    pub output: Option<TensorView>,
    /// Frequency factors of the global layers.
    pub rope_freqs: Option<TensorView>,
    /// The self-conditioning stretch, where the model has it.
    pub sc: Option<DiffusionScWeights>,
}

impl DiffusiongemmaWeights {
    /// Every tensor lies among the weights.
    pub open spec fn apart(&self) -> bool {
        &&& self.token_embd.buffer is Weights
        &&& self.output_norm.buffer is Weights
        &&& self.output matches Some(t) ==> t.buffer is Weights
        &&& self.rope_freqs matches Some(t) ==> t.buffer is Weights
        &&& self.sc matches Some(s) ==> s.apart()
        &&& forall|i: int| 0 <= i < self.blocks@.len() ==> (#[trigger] self.blocks@[i]).apart()
    }

    /// The output head.
    pub open spec fn head(&self) -> TensorView {
        match self.output {
            Some(t) => t,
            None => self.token_embd,
        }
    }
}

/// A model.
pub struct DiffusiongemmaModel<F> {
    pub params: DiffusiongemmaParams<F>,
    pub weights: DiffusiongemmaWeights,
    /// Whether the transposed token embedding was built.
    pub sc_embt: bool,
    pub mask: MaskValues<F>,
    /// Whether an expert's weights are read once for all its tokens.
    pub group_experts: bool,
    /// Into how many parts the soft embedding's inner sum is split; up to one
    /// for no split.
    pub sc_split_k: u32,
}

/// A pass over a prompt and its canvas.
pub struct CanvasPass<F> {
    pub tokens: Seq<u32>,
    /// Tokens of the prompt.
    pub prompt: int,
    /// The last step's probabilities over the canvas.
    pub probs: Option<Seq<F>>,
}

impl<F> CanvasPass<F> {
    /// All tokens.
    pub open spec fn n(&self) -> int {
        self.tokens.len() as int
    }

    /// Tokens of the canvas.
    pub open spec fn canvas(&self) -> int {
        self.n() - self.prompt
    }
}

/// The transposed embedding.
pub open spec fn transposed(vocab: u32, width: u32) -> TensorView {
    TensorView {
        buffer: Buffer::TransposedEmbedding,
        byte_offset: 0,
        byte_size: (vocab * width * 2) as u64,
        dims: matrix(vocab as u64, width as u64),
        byte_stride: crate::models::tensor::dims4(
            2,
            vocab * 2,
            vocab * width * 2,
            vocab * width * 2,
        ),
        element_stride: crate::models::tensor::dims4(
            1,
            vocab as int,
            vocab * width,
            vocab * width,
        ),
        dtype: GgmlType::F16,
    }
}

/// Tensors that a pass works on.
#[derive(Clone, Copy)]
pub struct CanvasBuffers {
    pub positions: TensorView,
    pub mask_global: TensorView,
    pub mask_swa: TensorView,
    pub residual: TensorView,
}

/// A fixed input of the pass, reserved between `from` and `to`.
pub open spec fn fixed<F: Copy>(
    ctx: &DispatchContext<F>,
    t: TensorView,
    from: int,
    to: int,
    residual: Buffer,
    value: Term<F>,
) -> bool {
    &&& t.buffer matches Buffer::Scratch { id, bytes: _ } && from <= id < to
    &&& t.buffer != residual
    &&& ready(ctx, t)
    &&& read(ctx.memory(), t) == value
}

impl<F: Copy> DiffusiongemmaModel<F> {
    /// Every layer is described, and every tensor lies among the weights.
    pub open spec fn wf(&self) -> bool {
        &&& self.params.wf(self.weights.blocks@.len() as int)
        &&& self.weights.apart()
    }

    /// The model's weights can be read.
    pub open spec fn live(&self, m: Memory<F>) -> bool {
        &&& quiet(m)
        &&& weights_live(m)
        &&& self.sc_embt ==> !(content(m, Buffer::TransposedEmbedding) is Unset)
    }

    /// The mask of a layer.
    pub open spec fn mask_value(&self, pass: CanvasPass<F>, swa: bool) -> Term<F> {
        fresh(
            Term::Floats(
                region_values(
                    self.mask,
                    pass.prompt,
                    pass.n(),
                    self.params.sliding_window as int,
                    swa,
                ),
            ),
            matrix(pass.n() as u64, pass.n() as u64),
        )
    }

    /// The expectation of the embedding under the last step's probabilities,
    /// scaled.
    pub open spec fn soft_embedding(&self, m: Memory<F>, pass: CanvasPass<F>, probs: Seq<F>) -> Term<
        F,
    > {
        let p = self.params;
        let c = pass.canvas() as u64;
        let cols = matrix(p.n_embd as u64, c);
        let product = op2(
            if self.sc_split_k > 1 {
                Op::MatMulSplitK { parts: self.sc_split_k }
            } else {
                Op::MatMul
            },
            read(m, transposed(p.n_vocab, p.n_embd)),
            fresh(Term::Floats(probs), matrix(p.n_vocab as u64, c)),
        );
        fresh(op1(Op::Scale { by: p.embd_scale }, fresh(product, cols)), cols)
    }

    /// A stretch of columns of what the residual holds.
    pub open spec fn slice(&self, h: Term<F>, pass: CanvasPass<F>, at: int, count: int) -> Term<F> {
        through(
            h,
            columns(
                dense(
                    Buffer::Scratch { id: 0, bytes: 0 },
                    matrix(self.params.n_embd as u64, pass.n() as u64),
                ),
                at,
                count,
            ),
        )
    }

    /// The residual with `value` over the columns of the prompt or the canvas.
    pub open spec fn over(
        &self,
        h: Term<F>,
        pass: CanvasPass<F>,
        at: int,
        count: int,
        value: Term<F>,
    ) -> Term<F> {
        over_columns(h, self.params.n_embd as u64, pass.n() as u64, at, count, value)
    }

    /// The embeddings with self-conditioning added over the canvas.
    pub open spec fn conditioned(&self, m: Memory<F>, pass: CanvasPass<F>, h: Term<F>) -> Term<F> {
        match pass.probs {
            Some(probs) => self.over(
                h,
                pass,
                pass.prompt,
                pass.canvas(),
                op2(
                    Op::Add,
                    self.slice(h, pass, pass.prompt, pass.canvas()),
                    gated_term(
                        m,
                        Op::Gelu,
                        self.params.rms_eps,
                        self.soft_embedding(m, pass, probs),
                        self.weights.sc->0.gated(),
                        self.params.n_embd as u64,
                        self.params.n_ff as u64,
                        pass.canvas() as u64,
                    ),
                ),
            ),
            None => h,
        }
    }

    /// The embeddings with the canvas normalized, after self-conditioning.
    pub open spec fn canvas_embedded(&self, m: Memory<F>, pass: CanvasPass<F>, h: Term<F>) -> Term<
        F,
    > {
        let h1 = self.conditioned(m, pass, h);
        self.over(
            h1,
            pass,
            pass.prompt,
            pass.canvas(),
            op1(
                Op::Copy,
                fresh(
                    op1(
                        Op::RmsNormPlain { eps: self.params.rms_eps },
                        self.slice(h1, pass, pass.prompt, pass.canvas()),
                    ),
                    matrix(self.params.n_embd as u64, pass.canvas() as u64),
                ),
            ),
        )
    }

    /// Prompt columns times the prompt's factor of layer `il`, canvas columns
    /// times the canvas's.
    pub open spec fn region_scaled(&self, pass: CanvasPass<F>, il: int, h: Term<F>) -> Term<F> {
        let p = self.params;
        let h1 = if pass.prompt > 0 {
            self.over(
                h,
                pass,
                0,
                pass.prompt,
                op1(
                    Op::Scale { by: p.enc_out_scale@[il] },
                    self.slice(h, pass, 0, pass.prompt),
                ),
            )
        } else {
            h
        };
        self.over(
            h1,
            pass,
            pass.prompt,
            pass.canvas(),
            op1(
                Op::Scale { by: p.out_scale@[il] },
                self.slice(h1, pass, pass.prompt, pass.canvas()),
            ),
        )
    }

    /// The hidden state after layer `il`.
    #[verifier::opaque]
    pub open spec fn layer(&self, m: Memory<F>, pass: CanvasPass<F>, il: int, h: Term<F>) -> Term<
        F,
    > {
        let p = self.params;
        let n = pass.n() as u32;
        let b = self.weights.blocks@[il];
        let h1 = diffusion_attended(
            m,
            p.attention(il, self.weights.rope_freqs, n),
            b,
            h,
            words_term(sequential(0, n as nat)),
            self.mask_value(pass, p.swa@[il]),
        );
        self.region_scaled(
            pass,
            il,
            diffusion_fed(m, p.experts(n, self.group_experts), b, h1),
        )
    }

    /// The hidden state after the first `n` layers.
    pub open spec fn hidden(&self, m: Memory<F>, pass: CanvasPass<F>, n: int) -> Term<F>
        decreases n,
    {
        if n <= 0 {
            let width = self.params.n_embd as u64;
            self.canvas_embedded(
                m,
                pass,
                op1(
                    Op::Scale { by: self.params.embd_scale },
                    fresh(
                        embedded(m, self.weights.token_embd, pass.tokens),
                        matrix(width, pass.n() as u64),
                    ),
                ),
            )
        } else {
            self.layer(m, pass, n - 1, self.hidden(m, pass, n - 1))
        }
    }

    /// The logits of the canvas.
    pub open spec fn logits(&self, m: Memory<F>, pass: CanvasPass<F>) -> Term<F> {
        let p = self.params;
        let vocab = p.n_vocab as u64;
        let c = pass.canvas() as u64;
        fresh(
            capped(
                p.final_logit_softcap,
                op2(
                    Op::MatMul,
                    read(m, self.weights.head()),
                    fresh(
                        op2(
                            Op::RmsNorm { eps: p.rms_eps },
                            self.slice(
                                self.hidden(m, pass, self.weights.blocks@.len() as int),
                                pass,
                                pass.prompt,
                                pass.canvas(),
                            ),
                            read(m, self.weights.output_norm),
                        ),
                        matrix(p.n_embd as u64, c),
                    ),
                ),
                vocab,
                c,
            ),
            matrix(vocab, c),
        )
    }

    /// Scratch that the inputs of the pass take.
    pub open spec fn inputs_bytes(&self, pass: CanvasPass<F>) -> nat {
        let n = pass.n() as u64;
        2 * size(matrix(n, 1)) + 2 * size(matrix(n, n)) + size(
            matrix(self.params.n_embd as u64, n),
        )
    }

    /// Scratch that self-conditioning takes.
    pub open spec fn conditioning_bytes(&self, pass: CanvasPass<F>) -> nat {
        let p = self.params;
        let c = pass.canvas() as u64;
        if pass.probs is Some {
            size(matrix(p.n_vocab as u64, c)) + size(matrix(p.n_embd as u64, c)) + gated_bytes(
                p.n_embd as u64,
                p.n_ff as u64,
                c,
            )
        } else {
            0
        }
    }

    /// Why self-conditioning fails, if it does, where `used` bytes are in use.
    pub open spec fn conditioning_failure(
        &self,
        pass: CanvasPass<F>,
        used: int,
        room: u64,
    ) -> Option<RecordError> {
        let p = self.params;
        let c = pass.canvas() as u64;
        match pass.probs {
            None => None,
            Some(probs) => if self.weights.sc is None {
                Some(RecordError::NoSelfConditioning)
            } else if !self.sc_embt {
                Some(RecordError::NoTransposedEmbedding)
            } else if probs.len() != p.n_vocab * c {
                Some(RecordError::ProbabilityLength)
            } else if used + self.conditioning_bytes(pass) > room {
                Some(RecordError::ScratchExhausted)
            } else {
                None
            },
        }
    }

    /// Why layer `il` fails, if it does, where `used` bytes are in use.
    pub open spec fn layer_failure(
        &self,
        pass: CanvasPass<F>,
        il: int,
        used: int,
        room: u64,
    ) -> Option<RecordError> {
        let p = self.params;
        let n = pass.n() as u32;
        let b = self.weights.blocks@[il];
        let attended = used + attention_bytes(
            p.attention(il, self.weights.rope_freqs, n),
            b.wv is Some,
        );
        if attended > room {
            Some(RecordError::ScratchExhausted)
        } else {
            fed_failure(p.experts(n, self.group_experts), b.ffn_down_exps.dtype, attended, room)
        }
    }

    /// Why the first `k` layers fail, if they do: the first failure counts. Each
    /// starts where `used` bytes are in use.
    pub open spec fn layers_failure(
        &self,
        pass: CanvasPass<F>,
        k: int,
        used: int,
        room: u64,
    ) -> Option<RecordError>
        decreases k,
    {
        if k <= 0 {
            None
        } else if self.layers_failure(pass, k - 1, used, room) is Some {
            self.layers_failure(pass, k - 1, used, room)
        } else {
            self.layer_failure(pass, k - 1, used, room)
        }
    }

    /// Bytes in use once the canvas is embedded, where `used` were before the pass.
    pub open spec fn embedded_end(&self, pass: CanvasPass<F>, used: u64) -> int {
        used + self.inputs_bytes(pass) + self.conditioning_bytes(pass) + size(
            matrix(self.params.n_embd as u64, pass.canvas() as u64),
        )
    }

    /// Bytes in use after the pass, where `used` were before.
    pub open spec fn pass_end(&self, pass: CanvasPass<F>, used: u64) -> int {
        self.embedded_end(pass, used) + head_bytes(
            self.params.n_embd as u64,
            self.params.n_vocab as u64,
            pass.canvas() as u64,
        )
    }

    /// Why the pass fails, if it does, where `used` bytes are in use.
    pub open spec fn failure(&self, pass: CanvasPass<F>, used: u64, room: u64) -> Option<
        RecordError,
    > {
        let layers = self.weights.blocks@.len() as int;
        let inputs = used + self.inputs_bytes(pass);
        let end = self.embedded_end(pass, used);
        if pass.n() == 0 {
            Some(RecordError::EmptyPrompt)
        } else if pass.canvas() == 0 {
            Some(RecordError::EmptyCanvas)
        } else if inputs > room {
            Some(RecordError::ScratchExhausted)
        } else if self.conditioning_failure(pass, inputs, room) is Some {
            self.conditioning_failure(pass, inputs, room)
        } else if end > room {
            Some(RecordError::ScratchExhausted)
        } else if self.layers_failure(pass, layers, end, room) is Some {
            self.layers_failure(pass, layers, end, room)
        } else if self.pass_end(pass, used) > room {
            Some(RecordError::ScratchExhausted)
        } else {
            None
        }
    }

    /// The transposed embedding, if it was built.
    pub fn sc_embt_view(&self) -> (r: Option<TensorView>)
        requires
            2 * (self.params.n_vocab * self.params.n_embd) <= u64::MAX,
        ensures
            r == if self.sc_embt {
                Some(transposed(self.params.n_vocab, self.params.n_embd))
            } else {
                None
            },
    {
        if !self.sc_embt {
            return None;
        }
        let n_vocab: u64 = self.params.n_vocab as u64;
        let n_embd: u64 = self.params.n_embd as u64;
        proof {
            assert(0 <= n_vocab * n_embd) by (nonlinear_arith);
        }
        let all: u64 = n_vocab * n_embd;
        Some(
            TensorView {
                buffer: Buffer::TransposedEmbedding,
                byte_offset: 0,
                byte_size: all * 2,
                dims: Dims { d0: n_vocab, d1: n_embd, d2: 1, d3: 1 },
                byte_stride: Dims { d0: 2, d1: n_vocab * 2, d2: all * 2, d3: all * 2 },
                element_stride: Dims { d0: 1, d1: n_vocab, d2: all, d3: all },
                dtype: GgmlType::F16,
            },
        )
    }

    /// Record self-conditioning: the gated stretch of the soft embedding is added
    /// to the canvas columns.
    #[verifier::rlimit(30)]
    fn self_condition(
        &self,
        ctx: &mut DispatchContext<F>,
        residual: TensorView,
        big_p: u32,
        n: u32,
        probs: &[F],
        Ghost(pass): Ghost<CanvasPass<F>>,
    ) -> (r: Result<(), RecordError>)
        requires
            self.wf(),
            self.live(old(ctx).memory()),
            pass.n() == n,
            pass.prompt == big_p,
            big_p < n,
            pass.probs == Some(probs@),
            4 * (self.params.n_embd as u64) * (n as u64) <= old(ctx).region,
            residual == dense(residual.buffer, matrix(self.params.n_embd as u64, n as u64)),
            covers(residual),
            residual.buffer is Scratch,
            ready(old(ctx), residual),
        ensures
            final(ctx).region == old(ctx).region,
            final(ctx).replay == old(ctx).replay,
            final(ctx).at() >= old(ctx).at(),
            match r {
                Ok(_) => {
                    let m = old(ctx).memory();
                    &&& self.conditioning_failure(pass, old(ctx).used as int, old(ctx).region) is None
                    &&& final(ctx).used == old(ctx).used + self.conditioning_bytes(pass)
                    &&& content(final(ctx).memory(), residual.buffer) == self.conditioned(
                        m,
                        pass,
                        content(m, residual.buffer),
                    )
                    &&& quiet(final(ctx).memory())
                    &&& ready(final(ctx), residual)
                    &&& undisturbed(m, final(ctx).memory(), old(ctx).at(), set![residual.buffer])
                },
                Err(e) => self.conditioning_failure(pass, old(ctx).used as int, old(ctx).region)
                    == Some(e),
            },
    {
        let ghost m0 = ctx.memory();
        let p = &self.params;
        let sc = match &self.weights.sc {
            Some(s) => s,
            None => {
                return Err(RecordError::NoSelfConditioning);
            },
        };
        let embt = match self.sc_embt_view() {
            Some(t) => t,
            None => {
                return Err(RecordError::NoTransposedEmbedding);
            },
        };
        let hidden: u64 = p.n_embd as u64;
        let c: u64 = (n - big_p) as u64;
        let vocab: u64 = p.n_vocab as u64;
        proof {
            assert(0 <= vocab * c <= u64::MAX) by (nonlinear_arith)
                requires
                    vocab <= u32::MAX,
                    c <= u32::MAX,
            ;
        }
        if probs.len() as u64 != vocab * c {
            return Err(RecordError::ProbabilityLength);
        }
        let probs_buf = ctx.alloc_matrix(vocab, c)?;
        ctx.write_f32(probs_buf, probs);
        let soft = ctx.alloc_matrix(hidden, c)?;
        if self.sc_split_k > 1 {
            ctx.apply2(
                Op::MatMulSplitK { parts: self.sc_split_k },
                embt,
                probs_buf,
                soft,
                Fence::Own,
            );
        } else {
            ctx.apply2(Op::MatMul, embt, probs_buf, soft, Fence::Own);
        }
        ctx.apply1(Op::Scale { by: p.embd_scale }, soft, soft, Fence::Own);
        let ghost m1 = ctx.memory();
        let gw = GatedWeights { norm: sc.pre_norm, gate: sc.gate, up: sc.up, down: sc.down };
        proof {
            assert forall|x: Buffer| !later(x, old(ctx).at()) implies content(m1, x) == content(
                m0,
                x,
            ) && (reserved(m0, x) ==> reserved(m1, x)) by {}
            assert(undisturbed(m0, m1, old(ctx).at(), Set::empty()));
            assert(gated_ready(ctx, gw));
            assert(ready(ctx, residual));
        }
        let sig = record_gated(ctx, Op::Gelu, p.rms_eps, soft, gw, hidden, p.n_ff as u64, c)?;
        let ghost m2 = ctx.memory();
        proof {
            assert(ready(ctx, residual));
            assert(content(m2, residual.buffer) == content(m0, residual.buffer));
            lemma_columns(residual, hidden, n as u64, big_p as int, c as int);
        }
        let canvas = col_slice(residual, big_p as u64, c);
        ctx.apply2(Op::Add, canvas, sig, canvas, Fence::Own);
        proof {
            let m3 = ctx.memory();
            assert forall|x: Buffer|
                !later(x, old(ctx).at()) && !set![residual.buffer].contains(x) implies content(
                m3,
                x,
            ) == content(m0, x) && (reserved(m0, x) ==> reserved(m3, x)) by {
                assert(content(m1, x) == content(m0, x));
                assert(content(m2, x) == content(m1, x));
            }
        }
        Ok(())
    }

    /// Record the canvas embedding: self-conditioning where asked for, then the
    /// norm, over the canvas columns.
    fn canvas_embed(
        &self,
        ctx: &mut DispatchContext<F>,
        residual: TensorView,
        big_p: u32,
        n: u32,
        sc_probs: Option<&[F]>,
        Ghost(pass): Ghost<CanvasPass<F>>,
    ) -> (r: Result<(), RecordError>)
        requires
            self.wf(),
            self.live(old(ctx).memory()),
            pass.n() == n,
            pass.prompt == big_p,
            big_p < n,
            pass.probs == match sc_probs {
                Some(s) => Some(s@),
                None => None,
            },
            4 * (self.params.n_embd as u64) * (n as u64) <= old(ctx).region,
            residual == dense(residual.buffer, matrix(self.params.n_embd as u64, n as u64)),
            covers(residual),
            residual.buffer is Scratch,
            ready(old(ctx), residual),
        ensures
            final(ctx).region == old(ctx).region,
            final(ctx).replay == old(ctx).replay,
            final(ctx).at() >= old(ctx).at(),
            match r {
                Ok(_) => {
                    let m = old(ctx).memory();
                    &&& self.conditioning_failure(pass, old(ctx).used as int, old(ctx).region) is None
                    &&& final(ctx).used == old(ctx).used + self.conditioning_bytes(pass) + size(
                        matrix(self.params.n_embd as u64, pass.canvas() as u64),
                    )
                    &&& final(ctx).used <= old(ctx).region
                    &&& content(final(ctx).memory(), residual.buffer) == self.canvas_embedded(
                        m,
                        pass,
                        content(m, residual.buffer),
                    )
                    &&& quiet(final(ctx).memory())
                    &&& ready(final(ctx), residual)
                    &&& undisturbed(m, final(ctx).memory(), old(ctx).at(), set![residual.buffer])
                },
                Err(e) => if self.conditioning_failure(
                    pass,
                    old(ctx).used as int,
                    old(ctx).region,
                ) is Some {
                    self.conditioning_failure(pass, old(ctx).used as int, old(ctx).region)
                        == Some(e)
                } else {
                    &&& e is ScratchExhausted
                    &&& old(ctx).used + self.conditioning_bytes(pass) + size(
                        matrix(self.params.n_embd as u64, pass.canvas() as u64),
                    ) > old(ctx).region
                },
            },
    {
        let ghost m0 = ctx.memory();
        let hidden: u64 = self.params.n_embd as u64;
        let c: u64 = (n - big_p) as u64;
        match sc_probs {
            Some(probs) => {
                self.self_condition(ctx, residual, big_p, n, probs, Ghost(pass))?;
            },
            None => {},
        }
        let ghost m1 = ctx.memory();
        proof {
            lemma_columns(residual, hidden, n as u64, big_p as int, c as int);
        }
        let canvas = col_slice(residual, big_p as u64, c);
        let normed = ctx.alloc_matrix(hidden, c)?;
        ctx.apply1(Op::RmsNormPlain { eps: self.params.rms_eps }, canvas, normed, Fence::Own);
        ctx.barrier_all();
        ctx.copy_part(normed, canvas);
        ctx.barrier_all();
        proof {
            let m2 = ctx.memory();
            assert forall|x: Buffer|
                !later(x, old(ctx).at()) && !set![residual.buffer].contains(x) implies content(
                m2,
                x,
            ) == content(m0, x) && (reserved(m0, x) ==> reserved(m2, x)) by {
                assert(content(m1, x) == content(m0, x));
            }
        }
        Ok(())
    }

    /// Record the factors of layer `il` on the two regions.
    fn record_region_scales(
        &self,
        ctx: &mut DispatchContext<F>,
        residual: TensorView,
        big_p: u32,
        n: u32,
        il: usize,
        Ghost(pass): Ghost<CanvasPass<F>>,
    )
        requires
            self.params.wf(il as int + 1),
            quiet(old(ctx).memory()),
            pass.n() == n,
            pass.prompt == big_p,
            big_p < n,
            4 * (self.params.n_embd as u64) * (n as u64) <= old(ctx).region,
            residual == dense(residual.buffer, matrix(self.params.n_embd as u64, n as u64)),
            covers(residual),
            residual.buffer is Scratch,
            ready(old(ctx), residual),
        ensures
            final(ctx).region == old(ctx).region,
            final(ctx).replay == old(ctx).replay,
            final(ctx).used == old(ctx).used,
            final(ctx).at() >= old(ctx).at(),
            content(final(ctx).memory(), residual.buffer) == self.region_scaled(
                pass,
                il as int,
                content(old(ctx).memory(), residual.buffer),
            ),
            quiet(final(ctx).memory()),
            ready(final(ctx), residual),
            undisturbed(
                old(ctx).memory(),
                final(ctx).memory(),
                old(ctx).at(),
                set![residual.buffer],
            ),
    {
        let hidden: u64 = self.params.n_embd as u64;
        if big_p > 0 {
            proof {
                lemma_columns(residual, hidden, n as u64, 0, big_p as int);
            }
            let prompt = col_slice(residual, 0, big_p as u64);
            ctx.apply1(
                Op::Scale { by: self.params.enc_out_scale[il] },
                prompt,
                prompt,
                Fence::Own,
            );
        }
        proof {
            lemma_columns(residual, hidden, n as u64, big_p as int, n - big_p);
        }
        let canvas = col_slice(residual, big_p as u64, (n - big_p) as u64);
        ctx.apply1(Op::Scale { by: self.params.out_scale[il] }, canvas, canvas, Fence::Own);
    }

    /// Record layer `il`.
    fn record_layer(
        &self,
        ctx: &mut DispatchContext<F>,
        io: CanvasBuffers,
        big_p: u32,
        n: u32,
        il: usize,
        Ghost(pass): Ghost<CanvasPass<F>>,
    ) -> (r: Result<(), RecordError>)
        requires
            self.wf(),
            il < self.weights.blocks@.len(),
            quiet(old(ctx).memory()),
            weights_live(old(ctx).memory()),
            pass.n() == n,
            pass.prompt == big_p,
            big_p < n,
            4 * (self.params.n_embd as u64) * (n as u64) <= old(ctx).region,
            io.residual == dense(
                io.residual.buffer,
                matrix(self.params.n_embd as u64, n as u64),
            ),
            covers(io.residual),
            io.residual.buffer is Scratch,
            ready(old(ctx), io.residual),
            ready(old(ctx), io.positions),
            read(old(ctx).memory(), io.positions) == words_term::<F>(sequential(0, n as nat)),
            ready(old(ctx), io.mask_global),
            io.mask_global.buffer != io.residual.buffer,
            read(old(ctx).memory(), io.mask_global) == self.mask_value(pass, false),
            ready(old(ctx), io.mask_swa),
            io.mask_swa.buffer != io.residual.buffer,
            read(old(ctx).memory(), io.mask_swa) == self.mask_value(pass, true),
        ensures
            final(ctx).region == old(ctx).region,
            final(ctx).replay == old(ctx).replay,
            final(ctx).at() >= old(ctx).at(),
            match r {
                Ok(_) => {
                    let m = old(ctx).memory();
                    &&& self.layer_failure(
                        pass,
                        il as int,
                        old(ctx).used as int,
                        old(ctx).region,
                    ) is None
                    &&& content(final(ctx).memory(), io.residual.buffer) == self.layer(
                        m,
                        pass,
                        il as int,
                        content(m, io.residual.buffer),
                    )
                    &&& quiet(final(ctx).memory())
                    &&& ready(final(ctx), io.residual)
                    &&& undisturbed(
                        m,
                        final(ctx).memory(),
                        old(ctx).at(),
                        set![io.residual.buffer],
                    )
                },
                Err(e) => self.layer_failure(
                    pass,
                    il as int,
                    old(ctx).used as int,
                    old(ctx).region,
                ) == Some(e),
            },
    {
        proof {
            reveal(DiffusiongemmaModel::layer);
        }
        let p = &self.params;
        let ghost m0 = ctx.memory();
        let residual = io.residual;
        let block = &self.weights.blocks[il];
        let mask = if p.swa[il] {
            io.mask_swa
        } else {
            io.mask_global
        };
        let c = p.attention_params(il, self.weights.rope_freqs, n);
        record_masked_attention(ctx, c, block, residual, io.positions, mask)?;
        let ghost m1 = ctx.memory();
        proof {
            assert(undisturbed(m0, m1, old(ctx).at(), set![residual.buffer]));
            assert(weights_live(m1));
        }
        let e = ExpertLayer {
            eps: p.rms_eps,
            router_scale: p.router_scale,
            width: p.n_embd as u64,
            n_ff: p.n_ff as u64,
            expert_ff: p.expert_ff,
            n_expert: p.n_expert,
            n_used: p.n_expert_used,
            n,
            group: self.group_experts,
        };
        assert(ready(ctx, residual));
        record_ffn_moe(ctx, e, block, residual)?;
        let ghost m2 = ctx.memory();
        proof {
            assert(ready(ctx, residual));
            lemma_same_fed(m1, m0, e, *block, content(m1, residual.buffer));
        }
        self.record_region_scales(ctx, residual, big_p, n, il, Ghost(pass));
        proof {
            let m3 = ctx.memory();
            assert forall|x: Buffer|
                !later(x, old(ctx).at()) && !set![residual.buffer].contains(x) implies content(
                m3,
                x,
            ) == content(m0, x) && (reserved(m0, x) ==> reserved(m3, x)) by {
                assert(content(m1, x) == content(m0, x));
                assert(content(m2, x) == content(m1, x));
            }
        }
        Ok(())
    }
}

impl<F: Copy> DiffusiongemmaModel<F> {
    /// The pass's inputs hold what they should, with `h` in the residual.
    pub open spec fn io_done(
        &self,
        ctx: &DispatchContext<F>,
        pass: CanvasPass<F>,
        io: CanvasBuffers,
        from: int,
        to: int,
        h: Term<F>,
    ) -> bool {
        let n = pass.n();
        &&& io.residual == dense(
            io.residual.buffer,
            matrix(self.params.n_embd as u64, n as u64),
        )
        &&& covers(io.residual)
        &&& io.residual.buffer matches Buffer::Scratch { id, bytes: _ } && from <= id < to
        &&& ready(ctx, io.residual)
        &&& content(ctx.memory(), io.residual.buffer) == h
        &&& fixed(
            ctx,
            io.positions,
            from,
            to,
            io.residual.buffer,
            words_term(sequential(0, n as nat)),
        )
        &&& fixed(
            ctx,
            io.mask_global,
            from,
            to,
            io.residual.buffer,
            self.mask_value(pass, false),
        )
        &&& fixed(ctx, io.mask_swa, from, to, io.residual.buffer, self.mask_value(pass, true))
    }

    /// Record the inputs of a pass: tokens, positions, the two masks, and the
    /// scaled embeddings.
    fn record_canvas_inputs(
        &self,
        ctx: &mut DispatchContext<F>,
        tokens: &[u32],
        big_p: u32,
        n: u32,
        Ghost(pass): Ghost<CanvasPass<F>>,
    ) -> (r: Result<CanvasBuffers, RecordError>)
        requires
            self.wf(),
            self.live(old(ctx).memory()),
            1 <= n == tokens@.len(),
            n * n <= usize::MAX,
            pass.tokens == tokens@,
            pass.prompt == big_p,
        ensures
            final(ctx).region == old(ctx).region,
            final(ctx).replay == old(ctx).replay,
            final(ctx).at() >= old(ctx).at(),
            r matches Err(e) ==> e is ScratchExhausted,
            spends(old(ctx), final(ctx), r is Ok, self.inputs_bytes(pass)),
            r is Ok ==> 4 * (self.params.n_embd as u64) * (n as u64) <= old(ctx).region,
            r matches Ok(io) ==> {
                let m = old(ctx).memory();
                &&& self.io_done(
                    final(ctx),
                    pass,
                    io,
                    old(ctx).at(),
                    final(ctx).at(),
                    op1(
                        Op::Scale { by: self.params.embd_scale },
                        fresh(
                            embedded(m, self.weights.token_embd, tokens@),
                            matrix(self.params.n_embd as u64, n as u64),
                        ),
                    ),
                )
                &&& quiet(final(ctx).memory())
                &&& undisturbed(m, final(ctx).memory(), old(ctx).at(), Set::empty())
            },
    {
        let p = &self.params;
        let nu: u64 = n as u64;
        let token_buf = ctx.alloc_matrix(nu, 1)?;
        ctx.write_u32(token_buf, tokens);
        let positions = ctx.alloc_matrix(nu, 1)?;
        let seq = sequential_positions(0, n);
        ctx.write_u32(positions, seq.as_slice());
        let mask_global = ctx.alloc_matrix(nu, nu)?;
        let global = region_mask_values(big_p, n, p.sliding_window, false, self.mask);
        ctx.write_f32(mask_global, global.as_slice());
        let mask_swa = ctx.alloc_matrix(nu, nu)?;
        let sliding = region_mask_values(big_p, n, p.sliding_window, true, self.mask);
        ctx.write_f32(mask_swa, sliding.as_slice());
        let residual = ctx.alloc_matrix(p.n_embd as u64, nu)?;
        assert(ready(ctx, self.weights.token_embd));
        ctx.apply2(
            Op::GetRows { rows: n },
            self.weights.token_embd,
            token_buf,
            residual,
            Fence::Own,
        );
        ctx.apply1(Op::Scale { by: p.embd_scale }, residual, residual, Fence::Own);
        Ok(CanvasBuffers { positions, mask_global, mask_swa, residual })
    }

    /// Record a bidirectional pass over the prompt and its canvas; the result is
    /// the canvas's logits.
    #[verifier::rlimit(30)]
    fn forward_unified(
        &self,
        ctx: &mut DispatchContext<F>,
        tokens: &[u32],
        n_prompt: u32,
        sc_probs: Option<&[F]>,
    ) -> (r: Result<TensorView, RecordError>)
        requires
            self.wf(),
            self.live(old(ctx).memory()),
            tokens@.len() <= u32::MAX,
            tokens@.len() * tokens@.len() <= usize::MAX,
        ensures
            final(ctx).region == old(ctx).region,
            final(ctx).replay == old(ctx).replay,
            self.recorded(
                old(ctx),
                final(ctx),
                canvas_pass(tokens@, n_prompt, sc_probs),
                r,
            ),
    {
        let p = &self.params;
        let n: u32 = tokens.len() as u32;
        if n == 0 {
            return Err(RecordError::EmptyPrompt);
        }
        let big_p: u32 = if n_prompt <= n {
            n_prompt
        } else {
            n
        };
        let ghost pass = canvas_pass(tokens@, n_prompt, sc_probs);
        if big_p == n {
            return Err(RecordError::EmptyCanvas);
        }
        let hidden: u64 = p.n_embd as u64;
        let ghost m0 = ctx.memory();
        let ghost at0 = ctx.at();
        let ghost layers = self.weights.blocks@.len() as int;
        let io = self.record_canvas_inputs(ctx, tokens, big_p, n, Ghost(pass))?;
        let ghost m1 = ctx.memory();
        let ghost at1 = ctx.at();
        proof {
            assert(undisturbed(m0, m1, at0, Set::empty()));
            assert(weights_live(m1));
            assert(content(m1, Buffer::TransposedEmbedding) == content(
                m0,
                Buffer::TransposedEmbedding,
            ));
        }
        let ghost h0 = content(m1, io.residual.buffer);
        self.canvas_embed(ctx, io.residual, big_p, n, sc_probs, Ghost(pass))?;
        proof {
            let m = ctx.memory();
            assert(ready(ctx, io.positions) && ready(ctx, io.mask_global) && ready(
                ctx,
                io.mask_swa,
            ));
            assert(content(m, io.positions.buffer) == content(m1, io.positions.buffer));
            assert(content(m, io.mask_global.buffer) == content(m1, io.mask_global.buffer));
            assert(content(m, io.mask_swa.buffer) == content(m1, io.mask_swa.buffer));
            self.lemma_same_canvas(m1, m0, pass, h0);
            assert forall|x: Buffer| !later(x, at0) implies content(m, x) == content(m0, x) && (
            reserved(m0, x) ==> reserved(m, x)) by {
                assert(content(m1, x) == content(m0, x));
            }
        }
        let mark: u64 = ctx.scratch_checkpoint();
        let base: u64 = ctx.used;
        let mut il: usize = 0;
        while il < self.weights.blocks.len()
            invariant
                il <= self.weights.blocks@.len(),
                layers == self.weights.blocks@.len(),
                self.wf(),
                self.live(m0),
                m0 == old(ctx).memory(),
                at0 == old(ctx).at(),
                ctx.region == old(ctx).region,
                ctx.replay == old(ctx).replay,
                pass == canvas_pass(tokens@, n_prompt, sc_probs),
                pass.n() == n,
                pass.prompt == big_p,
                big_p < n,
                4 * (self.params.n_embd as u64) * (n as u64) <= ctx.region,
                self.conditioning_failure(
                    pass,
                    old(ctx).used + self.inputs_bytes(pass),
                    ctx.region,
                ) is None,
                base == self.embedded_end(pass, old(ctx).used),
                base <= ctx.region,
                self.layers_failure(pass, il as int, base as int, ctx.region) is None,
                at0 <= mark <= ctx.at(),
                quiet(ctx.memory()),
                undisturbed(m0, ctx.memory(), at0, Set::empty()),
                self.io_done(
                    ctx,
                    pass,
                    io,
                    at0,
                    mark as int,
                    self.hidden(m0, pass, il as int),
                ),
            decreases self.weights.blocks@.len() - il,
        {
            let ghost m2 = ctx.memory();
            ctx.scratch_restore(mark, base);
            let ghost m3 = ctx.memory();
            proof {
                lemma_released(m2, mark as int);
                assert(ready(ctx, io.positions) && ready(ctx, io.mask_global) && ready(
                    ctx,
                    io.mask_swa,
                ) && ready(ctx, io.residual));
                assert forall|x: Buffer| !later(x, at0) implies content(m3, x) == content(m0, x)
                    && (reserved(m0, x) ==> reserved(m3, x)) by {
                    assert(content(m2, x) == content(m0, x));
                }
                assert(weights_live(m3));
                if self.layer_failure(pass, il as int, base as int, ctx.region) is Some {
                    lemma_failures(self, pass, il as int, layers, base as int, ctx.region);
                }
            }
            self.record_layer(ctx, io, big_p, n, il, Ghost(pass))?;
            proof {
                let m4 = ctx.memory();
                assert(ready(ctx, io.positions) && ready(ctx, io.mask_global) && ready(
                    ctx,
                    io.mask_swa,
                ));
                assert(content(m4, io.positions.buffer) == content(m3, io.positions.buffer));
                assert(content(m4, io.mask_global.buffer) == content(m3, io.mask_global.buffer));
                assert(content(m4, io.mask_swa.buffer) == content(m3, io.mask_swa.buffer));
                self.lemma_same_layer(m3, m0, pass, il as int, self.hidden(m0, pass, il as int));
                assert forall|x: Buffer| !later(x, at0) implies content(m4, x) == content(m0, x)
                    && (reserved(m0, x) ==> reserved(m4, x)) by {
                    assert(content(m3, x) == content(m0, x));
                }
            }
            il += 1;
        }
        let ghost m5 = ctx.memory();
        ctx.scratch_restore(mark, base);
        let ghost m6 = ctx.memory();
        proof {
            lemma_released(m5, mark as int);
            assert(ready(ctx, io.residual));
            assert forall|x: Buffer| !later(x, at0) implies content(m6, x) == content(m0, x) && (
            reserved(m0, x) ==> reserved(m6, x)) by {
                assert(content(m5, x) == content(m0, x));
            }
            assert(weights_live(m6));
            lemma_columns(io.residual, hidden, n as u64, big_p as int, n - big_p);
        }
        let canvas: u64 = (n - big_p) as u64;
        let canvas_res = col_slice(io.residual, big_p as u64, canvas);
        let head = match self.weights.output {
            Some(t) => t,
            None => self.weights.token_embd,
        };
        assert(ready(ctx, head) && ready(ctx, self.weights.output_norm));
        let logits = record_head(
            ctx,
            p.rms_eps,
            canvas_res,
            self.weights.output_norm,
            head,
            hidden,
            p.n_vocab as u64,
            canvas,
        )?;
        let ghost m7 = ctx.memory();
        record_softcap(ctx, p.final_logit_softcap, logits, p.n_vocab as u64, canvas);
        proof {
            let m8 = ctx.memory();
            assert forall|x: Buffer| !later(x, at0) implies content(m8, x) == content(m0, x) && (
            reserved(m0, x) ==> reserved(m8, x)) by {
                assert(content(m6, x) == content(m0, x));
                assert(content(m7, x) == content(m6, x));
            }
        }
        Ok(logits)
    }

    /// How a pass ends.
    pub open spec fn recorded(
        &self,
        before: &DispatchContext<F>,
        after: &DispatchContext<F>,
        pass: CanvasPass<F>,
        r: Result<TensorView, RecordError>,
    ) -> bool {
        match r {
            Ok(t) => {
                &&& self.failure(pass, before.used, before.region) is None
                &&& after.used == self.pass_end(pass, before.used)
                &&& ready(after, t)
                &&& read(after.memory(), t) == self.logits(before.memory(), pass)
                &&& quiet(after.memory())
                &&& undisturbed(before.memory(), after.memory(), before.at(), Set::empty())
            },
            Err(e) => self.failure(pass, before.used, before.region) == Some(e),
        }
    }

    /// Record a denoising pass over a prompt and its canvas.
    pub fn record_forward_diffusion(
        &self,
        ctx: &mut DispatchContext<F>,
        tokens: &[u32],
        n_prompt: u32,
        sc_probs: Option<&[F]>,
    ) -> (r: Result<TensorView, RecordError>)
        requires
            self.wf(),
            self.live(old(ctx).memory()),
            tokens@.len() <= u32::MAX,
            tokens@.len() * tokens@.len() <= usize::MAX,
        ensures
            final(ctx).region == old(ctx).region,
            final(ctx).replay == old(ctx).replay,
            self.recorded(
                old(ctx),
                final(ctx),
                canvas_pass(tokens@, n_prompt, sc_probs),
                r,
            ),
    {
        self.forward_unified(ctx, tokens, n_prompt, sc_probs)
    }

    /// Generation goes through denoising passes: there is no pass over a single
    /// sequence.
    pub fn record_forward(&self) -> (r: Result<Option<TensorView>, RecordError>)
        ensures
            r == Err::<Option<TensorView>, RecordError>(
                RecordError::Unsupported(
                    "diffusion-gemma uses diffusion generation; call record_forward_diffusion",
                ),
            ),
    {
        Err(
            RecordError::Unsupported(
                "diffusion-gemma uses diffusion generation; call record_forward_diffusion",
            ),
        )
    }

    /// What the transposed embedding is built from, where the model needs it.
    pub fn diffusion_sc_build_info(&self) -> (r: Option<(TensorView, u32, u32)>)
        ensures
            r == if self.params.has_sc {
                Some((self.weights.token_embd, self.params.n_embd, self.params.n_vocab))
            } else {
                None
            },
    {
        if self.params.has_sc {
            Some((self.weights.token_embd, self.params.n_embd, self.params.n_vocab))
        } else {
            None
        }
    }

    /// Note that the transposed embedding is built.
    pub fn set_diffusion_sc_embt(&mut self)
        ensures
            *final(self) == (DiffusiongemmaModel { sc_embt: true, ..*old(self) }),
    {
        self.sc_embt = true;
    }

    /// The canvas embedding depends on memory through the weights and the
    /// transposed embedding alone.
    proof fn lemma_same_canvas(
        &self,
        a: Memory<F>,
        c: Memory<F>,
        pass: CanvasPass<F>,
        h: Term<F>,
    )
        requires
            self.weights.apart(),
            pass.probs is Some ==> self.weights.sc is Some,
            same_weights(a, c),
            content(a, Buffer::TransposedEmbedding) == content(c, Buffer::TransposedEmbedding),
        ensures
            self.canvas_embedded(a, pass, h) == self.canvas_embedded(c, pass, h),
    {
    }

    /// A layer depends on memory through the weights alone.
    proof fn lemma_same_layer(
        &self,
        a: Memory<F>,
        c: Memory<F>,
        pass: CanvasPass<F>,
        il: int,
        h: Term<F>,
    )
        requires
            self.weights.apart(),
            0 <= il < self.weights.blocks@.len(),
            same_weights(a, c),
        ensures
            self.layer(a, pass, il, h) == self.layer(c, pass, il, h),
    {
        reveal(DiffusiongemmaModel::layer);
        let n = pass.n() as u32;
        let b = self.weights.blocks@[il];
        let x = self.params.attention(il, self.weights.rope_freqs, n);
        lemma_same_attended(
            a,
            c,
            x,
            b,
            h,
            words_term(sequential(0, n as nat)),
            self.mask_value(pass, self.params.swa@[il]),
        );
        let h1 = diffusion_attended(
            a,
            x,
            b,
            h,
            words_term(sequential(0, n as nat)),
            self.mask_value(pass, self.params.swa@[il]),
        );
        lemma_same_fed(a, c, self.params.experts(n, self.group_experts), b, h1);
    }
}

/// The pass over `tokens`, of which at most `n_prompt` are the prompt.
pub open spec fn canvas_pass<F>(tokens: Seq<u32>, n_prompt: u32, sc_probs: Option<&[F]>) -> CanvasPass<
    F,
> {
    CanvasPass {
        tokens,
        prompt: if n_prompt <= tokens.len() {
            n_prompt as int
        } else {
            tokens.len() as int
        },
        probs: match sc_probs {
            Some(s) => Some(s@),
            None => None,
        },
    }
}

/// A failure among the first layers is the failure of all.
proof fn lemma_failures<F: Copy>(
    model: &DiffusiongemmaModel<F>,
    pass: CanvasPass<F>,
    k: int,
    layers: int,
    used: int,
    room: u64,
)
    requires
        0 <= k < layers,
        model.layers_failure(pass, k, used, room) is None,
        model.layer_failure(pass, k, used, room) is Some,
    ensures
        model.layers_failure(pass, layers, used, room) == model.layer_failure(pass, k, used, room),
    decreases layers,
{
    if k < layers - 1 {
        lemma_failures(model, pass, k, layers - 1, used, room);
    }
}

/// The attention half depends on memory through its weights alone.
proof fn lemma_same_attended<F: Copy>(
    a: Memory<F>,
    c: Memory<F>,
    x: MaskedAttention<F>,
    b: DiffusiongemmaBlockWeights,
    h: Term<F>,
    positions: Term<F>,
    mask: Term<F>,
)
    requires
        b.apart(),
        x.freqs matches Some(t) ==> t.buffer is Weights,
        same_weights(a, c),
    ensures
        diffusion_attended(a, x, b, h, positions, mask) == diffusion_attended(
            c,
            x,
            b,
            h,
            positions,
            mask,
        ),
{
}

/// The feed-forward half depends on memory through its weights alone.
proof fn lemma_same_fed<F: Copy>(
    a: Memory<F>,
    c: Memory<F>,
    e: ExpertLayer<F>,
    b: DiffusiongemmaBlockWeights,
    h: Term<F>,
)
    requires
        b.apart(),
        same_weights(a, c),
    ensures
        diffusion_fed(a, e, b, h) == diffusion_fed(c, e, b, h),
{
}

} // verus!
