//! The draft head of the Qwen 3.5 architecture, and the rollback of recurrent
//! states after a verified draft.
use vstd::prelude::*;

use crate::models::blocks::{
    embedded, head_bytes, head_term, mask_value, ready, ready_opt, record_head, same_weights,
    sequential, sequential_positions, undisturbed, weights_live, words_term,
};
use crate::models::cache::KvCache;
use crate::models::masks::causal_mask;
use crate::models::mrope::{four, four_axes};
use crate::models::qwen35_attention::{
    attention_block, qwen_attended, qwen_attn_bytes, qwen_k_cache, qwen_v_cache, QwenPass,
};
use crate::models::qwen35_moe::{
    lemma_same_moe, moe_bytes, moe_failure, moe_ffn, moe_term,
};
use crate::models::qwen35_ssm::of_bytes;
use crate::models::qwen35_weights::MtpWeights;
use crate::models::qwen35moe::Qwen35MoeModel;
use crate::models::recorder::{
    content, fresh, later, op1, op2, put, quiet, read, reserved, spends, through, DispatchContext,
    Fence, Memory, Op, RecordError, Term,
};
use crate::models::tensor::{
    covers, dense, dims4, flat, flat_view, matrix, size, strided, strided_view, Buffer, Dims,
    TensorView,
};
use crate::models::MtpDraftOut;

verus! {

/// One half of columns that are two wide.
pub open spec fn half_view(buffer: Buffer, width: u64, l: u64, second: bool) -> TensorView {
    let off = if second {
        width as int
    } else {
        0
    };
    strided_view(
        buffer,
        4 * off,
        4 * (2 * width * l) - 4 * off,
        dims4(width as int, l as int, 1, 1),
        dims4(1, 2 * width, 2 * width * l, 2 * width * l),
    )
}

/// The draft head's input: the tokens' embeddings and the hidden states,
/// normalized, side by side, embedding first.
pub open spec fn paired<F: Copy>(
    m: Memory<F>,
    eps: F,
    token_embd: TensorView,
    w: MtpWeights,
    hiddens: Seq<F>,
    tokens: Seq<u32>,
    width: u64,
) -> Term<F> {
    let l = tokens.len() as u64;
    let cols = matrix(width, l);
    let own = of_bytes(4 * (2 * width * l));
    put(
        put(
            Term::Unset,
            half_view(own, width, l, false),
            op2(
                Op::RmsNorm { eps },
                fresh(embedded(m, token_embd, tokens), cols),
                read(m, w.enorm),
            ),
        ),
        half_view(own, width, l, true),
        op2(Op::RmsNorm { eps }, fresh(Term::Floats(hiddens), cols), read(m, w.hnorm)),
    )
}

/// The hidden state that the draft layer starts from.
pub open spec fn draft_start<F: Copy>(
    m: Memory<F>,
    eps: F,
    token_embd: TensorView,
    w: MtpWeights,
    hiddens: Seq<F>,
    tokens: Seq<u32>,
    width: u64,
) -> Term<F> {
    op2(
        Op::MatMul,
        read(m, w.eh_proj),
        fresh(
            paired(m, eps, token_embd, w, hiddens, tokens, width),
            matrix((2 * width) as u64, tokens.len() as u64),
        ),
    )
}

/// Scratch that the draft head's input takes.
pub open spec fn draft_inputs_bytes(width: u64, l: u64) -> nat {
    3 * size(matrix(width, l)) + size(matrix(l, 1)) + size(matrix((2 * width) as u64, l))
}

/// Record the draft head's input.
fn record_draft_inputs<F: Copy>(
    ctx: &mut DispatchContext<F>,
    eps: F,
    token_embd: TensorView,
    w: &MtpWeights,
    hiddens: &[F],
    tokens: &[u32],
    width: u64,
) -> (r: Result<TensorView, RecordError>)
    requires
        1 <= tokens@.len() <= u32::MAX,
        1 <= width <= u32::MAX,
        quiet(old(ctx).memory()),
        weights_live(old(ctx).memory()),
        w.apart(),
        token_embd.buffer is Weights,
    ensures
        final(ctx).region == old(ctx).region,
        final(ctx).replay == old(ctx).replay,
        final(ctx).at() >= old(ctx).at(),
        r matches Err(e) ==> e is ScratchExhausted,
        spends(old(ctx), final(ctx), r is Ok, draft_inputs_bytes(width, tokens@.len() as u64)),
        r matches Ok(t) ==> {
            let m = old(ctx).memory();
            let l = tokens@.len() as u64;
            &&& t == dense(t.buffer, matrix(width, l))
            &&& covers(t)
            &&& t.buffer is Scratch
            &&& later(t.buffer, old(ctx).at())
            &&& ready(final(ctx), t)
            &&& content(final(ctx).memory(), t.buffer) == draft_start(
                m,
                eps,
                token_embd,
                *w,
                hiddens@,
                tokens@,
                width,
            )
            &&& quiet(final(ctx).memory())
            &&& undisturbed(m, final(ctx).memory(), old(ctx).at(), Set::empty())
        },
{
    let l: u64 = tokens.len() as u64;
    let h = ctx.alloc_matrix(width, l)?;
    ctx.write_f32(h, hiddens);
    let tok = ctx.alloc_matrix(l, 1)?;
    ctx.write_u32(tok, tokens);
    let emb = ctx.alloc_matrix(width, l)?;
    assert(ready(ctx, token_embd) && ready(ctx, w.enorm) && ready(ctx, w.hnorm) && ready(
        ctx,
        w.eh_proj,
    ));
    ctx.apply2(Op::GetRows { rows: l as u32 }, token_embd, tok, emb, Fence::Own);
    let combined = ctx.alloc_matrix(2 * width, l)?;
    proof {
        assert(4 * (2 * width * l) == 4 * ((2 * width) as u64) * l) by (nonlinear_arith)
            requires
                (2 * width) as u64 == 2 * width,
        ;
        assert(4 * ((2 * width) as u64) * l * 1 * 1 == 4 * ((2 * width) as u64) * l)
            by (nonlinear_arith);
        assert(4 * (2 * width) <= 4 * (2 * width * l)) by (nonlinear_arith)
            requires
                l >= 1,
        ;
        assert(0 <= 2 * width * l) by (nonlinear_arith);
    }
    let dims = Dims { d0: width, d1: l, d2: 1, d3: 1 };
    let strides = Dims { d0: 1, d1: 2 * width, d2: 2 * width * l, d3: 2 * width * l };
    let first = strided(combined.buffer, 0, combined.byte_size, dims, strides);
    let second = strided(
        combined.buffer,
        4 * width,
        combined.byte_size - 4 * width,
        dims,
        strides,
    );
    proof {
        let own = of_bytes(4 * (2 * width * l));
        assert(first == half_view(combined.buffer, width, l, false));
        assert(second == half_view(combined.buffer, width, l, true));
        assert(covers(half_view(own, width, l, false)) == covers(first));
        assert(covers(half_view(own, width, l, true)) == covers(second));
    }
    ctx.apply2(Op::RmsNorm { eps }, emb, w.enorm, first, Fence::Own);
    ctx.apply2(Op::RmsNorm { eps }, h, w.hnorm, second, Fence::Own);
    ctx.barrier1(combined);
    let residual = ctx.alloc_matrix(width, l)?;
    ctx.apply2(Op::MatMul, w.eh_proj, combined, residual, Fence::Own);
    Ok(residual)
}

/// The buffers that the draft head changes.
pub open spec fn draft_buffers(layer: int) -> Set<Buffer> {
    set![Buffer::KeyLayer(layer as u64), Buffer::ValueLayer(layer as u64)]
}

impl<F: Copy> Qwen35MoeModel<F> {
    /// The draft head's pass over `l` tokens from `position` on.
    pub open spec fn draft_pass(&self, cache: &KvCache, l: int, position: u32) -> QwenPass<F> {
        QwenPass {
            l: l as u32,
            position,
            total_len: (position + l) as u32,
            max_seq_len: cache.max_seq_len,
            direct: cache.direct,
            rope: self.params.rope(false),
        }
    }

    /// The hidden state that the draft head starts from.
    pub open spec fn draft_hidden(&self, m: Memory<F>, hiddens: Seq<F>, tokens: Seq<u32>) -> Term<
        F,
    > {
        draft_start(
            m,
            self.params.rms_eps,
            self.weights.token_embd,
            self.weights.mtp->0,
            hiddens,
            tokens,
            self.params.n_embd as u64,
        )
    }

    /// What the draft head caches.
    pub open spec fn draft_cached(
        &self,
        m: Memory<F>,
        after: Memory<F>,
        cache: &KvCache,
        hiddens: Seq<F>,
        tokens: Seq<u32>,
        position: u32,
    ) -> bool {
        let layer = cache.layer(self.params.n_main as int);
        let l = tokens.len() as int;
        let pass = self.draft_pass(cache, l, position);
        let x = fresh(
            self.draft_hidden(m, hiddens, tokens),
            matrix(self.params.n_embd as u64, l as u64),
        );
        let body = self.weights.mtp->0.body;
        let positions = words_term(four(sequential(position as int, tokens.len())));
        &&& content(after, layer.k.buffer) == qwen_k_cache(
            m,
            &self.params,
            body,
            layer,
            x,
            positions,
            pass,
        )
        &&& content(after, layer.v.buffer) == qwen_v_cache(m, &self.params, body, layer, x, pass)
    }

    /// The draft layer's hidden state after attention.
    pub open spec fn draft_mixed(
        &self,
        m: Memory<F>,
        cache: &KvCache,
        hiddens: Seq<F>,
        tokens: Seq<u32>,
        position: u32,
        mask: Option<Seq<F>>,
    ) -> Term<F> {
        let l = tokens.len() as int;
        qwen_attended(
            m,
            &self.params,
            self.weights.mtp->0.body,
            cache.layer(self.params.n_main as int),
            self.draft_hidden(m, hiddens, tokens),
            words_term(four(sequential(position as int, tokens.len()))),
            mask_value(mask, l as u64),
            self.draft_pass(cache, l, position),
        )
    }

    /// What drafting from one token gives: the draft layer's hidden state.
    pub open spec fn draft_out(
        &self,
        m: Memory<F>,
        cache: &KvCache,
        h_last: Seq<F>,
        prev_token: u32,
        position: u32,
    ) -> Term<F> {
        let body = self.weights.mtp->0.body;
        moe_term(
            m,
            &self.params,
            body.moe,
            body.post_attn_norm,
            self.draft_mixed(m, cache, h_last, seq![prev_token], position, None),
            1,
        )
    }

    /// Bytes in use after the draft layer's attention over `l` tokens, where `used`
    /// were before.
    pub open spec fn draft_attended_end(
        &self,
        cache: &KvCache,
        l: u64,
        position: u32,
        used: u64,
    ) -> int {
        used + draft_inputs_bytes(self.params.n_embd as u64, l) + size(
            matrix((4 * l) as u64, 1),
        ) + if l > 1 {
            size(matrix(l, l))
        } else {
            0
        } + qwen_attn_bytes(
            &self.params,
            cache.layer(self.params.n_main as int).k.dtype is F16,
            self.draft_pass(cache, l as int, position),
        )
    }

    /// Bytes in use after a draft step, where `used` were before.
    pub open spec fn draft_end(&self, cache: &KvCache, position: u32, used: u64) -> int {
        let p = self.params;
        self.draft_attended_end(cache, 1, position, used) + moe_bytes(&p, 1) + head_bytes(
            p.n_embd as u64,
            p.n_vocab as u64,
            1,
        ) + size(matrix(1, 1))
    }

    /// Why drafting fails, if it does, where `used` bytes are in use.
    pub open spec fn draft_failure(
        &self,
        cache: &KvCache,
        hiddens: Seq<F>,
        position: u32,
        used: u64,
        room: u64,
    ) -> Option<RecordError> {
        let p = self.params;
        let attended = self.draft_attended_end(cache, 1, position, used);
        let mixed = moe_failure(&p, self.weights.mtp->0.body.moe, 1, attended, room);
        if self.weights.mtp is None {
            Some(RecordError::NoDraftHead)
        } else if hiddens.len() != p.n_embd {
            Some(RecordError::HiddenLength)
        } else if attended > room {
            Some(RecordError::ScratchExhausted)
        } else if mixed is Some {
            mixed
        } else if self.draft_end(cache, position, used) > room {
            Some(RecordError::ScratchExhausted)
        } else {
            None
        }
    }

    /// Why seeding fails, if it does, where `used` bytes are in use.
    pub open spec fn seed_failure(
        &self,
        cache: &KvCache,
        hiddens: Seq<F>,
        tokens: Seq<u32>,
        position: u32,
        used: u64,
        room: u64,
    ) -> Option<RecordError> {
        let p = self.params;
        if self.weights.mtp is None {
            Some(RecordError::NoDraftHead)
        } else if tokens.len() == 0 {
            None
        } else if hiddens.len() != p.n_embd * tokens.len() {
            Some(RecordError::HiddenLength)
        } else if self.draft_attended_end(cache, tokens.len() as u64, position, used) > room {
            Some(RecordError::ScratchExhausted)
        } else {
            None
        }
    }

    /// Record one draft step: the token after `prev_token`, picked greedily, and
    /// the hidden state that the next step starts from. The draft layer's cache
    /// takes `position`.
    #[verifier::rlimit(30)]
    pub fn record_mtp_draft(
        &self,
        ctx: &mut DispatchContext<F>,
        cache: &KvCache,
        h_last: &[F],
        prev_token: u32,
        position: u32,
    ) -> (r: Result<MtpDraftOut, RecordError>)
        requires
            self.wf(),
            self.live(old(ctx).memory()),
            self.cache_ok(cache, self.params.n_main as int + 1),
            position < u32::MAX,
        ensures
            final(ctx).region == old(ctx).region,
            final(ctx).replay == old(ctx).replay,
            match r {
                Ok(out) => {
                    let m = old(ctx).memory();
                    let width = self.params.n_embd as u64;
                    let block = self.draft_out(m, cache, h_last@, prev_token, position);
                    &&& self.draft_failure(
                        cache,
                        h_last@,
                        position,
                        old(ctx).used,
                        old(ctx).region,
                    ) is None
                    &&& final(ctx).used == self.draft_end(cache, position, old(ctx).used)
                    &&& ready(final(ctx), out.block_out)
                    &&& read(final(ctx).memory(), out.block_out) == fresh(block, matrix(width, 1))
                    &&& ready(final(ctx), out.draft_token)
                    &&& read(final(ctx).memory(), out.draft_token) == fresh(
                        op1(
                            Op::Greedy,
                            head_term(
                                m,
                                self.params.rms_eps,
                                fresh(block, matrix(width, 1)),
                                self.weights.mtp->0.shared_head_norm,
                                self.weights.head(),
                                width,
                                self.params.n_vocab as u64,
                                1,
                            ),
                        ),
                        matrix(1, 1),
                    )
                    &&& self.draft_cached(
                        m,
                        final(ctx).memory(),
                        cache,
                        h_last@,
                        seq![prev_token],
                        position,
                    )
                    &&& quiet(final(ctx).memory())
                    &&& undisturbed(
                        m,
                        final(ctx).memory(),
                        old(ctx).at(),
                        draft_buffers(self.params.n_main as int),
                    )
                },
                Err(e) => self.draft_failure(
                    cache,
                    h_last@,
                    position,
                    old(ctx).used,
                    old(ctx).region,
                ) == Some(e),
            },
    {
        let p = &self.params;
        let w = match &self.weights.mtp {
            Some(w) => w,
            None => {
                return Err(RecordError::NoDraftHead);
            },
        };
        let hidden: u64 = p.n_embd as u64;
        if h_last.len() as u64 != hidden {
            return Err(RecordError::HiddenLength);
        }
        let ghost m0 = ctx.memory();
        let ghost at0 = ctx.at();
        let ghost changed = draft_buffers(p.n_main as int);
        let tokens: [u32; 1] = [prev_token];
        assert(tokens@ =~= seq![prev_token]);
        let residual = record_draft_inputs(
            ctx,
            p.rms_eps,
            self.weights.token_embd,
            w,
            h_last,
            &tokens,
            hidden,
        )?;
        let ghost m1 = ctx.memory();
        let seq = sequential_positions(position, 1);
        let list = four_axes(seq.as_slice());
        let positions = ctx.alloc_matrix(4, 1)?;
        ctx.write_u32(positions, list.as_slice());
        let pass = QwenPass {
            l: 1,
            position,
            total_len: position + 1,
            max_seq_len: cache.max_seq_len,
            direct: cache.direct,
            rope: p.rope_params(false),
        };
        let layer = cache.layer_views(p.n_main as usize);
        let ghost m2 = ctx.memory();
        proof {
            assert(self.roomy(cache, p.n_main as int));
            assert(content(m2, residual.buffer) == content(m1, residual.buffer));
            assert(ready(ctx, residual));
            assert(list@.len() == 4);
            assert forall|b: Buffer| !later(b, at0) implies content(m2, b) == content(m0, b) && (
            reserved(m0, b) ==> reserved(m2, b)) by {
                assert(content(m1, b) == content(m0, b));
            }
            assert(undisturbed(m0, m2, at0, Set::empty()));
            assert(weights_live(m2) && same_weights(m2, m0));
            assert(content(m2, layer.k.buffer) == content(m0, layer.k.buffer));
            assert(content(m2, layer.v.buffer) == content(m0, layer.v.buffer));
            crate::models::qwen35_attention::lemma_same_attended(
                m2,
                m0,
                p,
                w.body,
                layer,
                content(m2, residual.buffer),
                read(m2, residual),
                read(m2, positions),
                None,
                pass,
            );
        }
        attention_block(ctx, &w.body, layer, residual, None, positions, p, pass)?;
        let ghost m3 = ctx.memory();
        proof {
            assert forall|b: Buffer|
                !later(b, at0) && !changed.contains(b) implies content(m3, b) == content(m0, b) && (
            reserved(m0, b) ==> reserved(m3, b)) by {
                assert(content(m2, b) == content(m0, b));
            }
            assert(undisturbed(m0, m3, at0, changed));
            assert(weights_live(m3) && same_weights(m3, m0));
            lemma_same_moe(
                m3,
                m0,
                p,
                w.body.moe,
                w.body.post_attn_norm,
                content(m3, residual.buffer),
                1,
            );
        }
        moe_ffn(ctx, &w.body.moe, w.body.post_attn_norm, residual, p, 1)?;
        let ghost m4 = ctx.memory();
        let head = match self.weights.output {
            Some(t) => t,
            None => self.weights.token_embd,
        };
        proof {
            assert forall|b: Buffer|
                !later(b, at0) && !changed.contains(b) implies content(m4, b) == content(m0, b) && (
            reserved(m0, b) ==> reserved(m4, b)) by {
                assert(content(m3, b) == content(m0, b));
            }
            assert(undisturbed(m0, m4, at0, changed));
            assert(ready(ctx, head) && ready(ctx, w.shared_head_norm));
            assert(content(m4, layer.k.buffer) == content(m3, layer.k.buffer));
            assert(content(m4, layer.v.buffer) == content(m3, layer.v.buffer));
        }
        let logits = record_head(
            ctx,
            p.rms_eps,
            residual,
            w.shared_head_norm,
            head,
            hidden,
            p.n_vocab as u64,
            1,
        )?;
        let ghost m5 = ctx.memory();
        assert(content(m5, residual.buffer) == content(m4, residual.buffer) && ready(
            ctx,
            residual,
        ));
        let token = ctx.alloc_matrix(1, 1)?;
        ctx.apply1(Op::Greedy, logits, token, Fence::Own);
        proof {
            let m6 = ctx.memory();
            assert(content(m5, layer.k.buffer) == content(m4, layer.k.buffer));
            assert(content(m5, layer.v.buffer) == content(m4, layer.v.buffer));
            assert forall|b: Buffer|
                !later(b, at0) && !changed.contains(b) implies content(m6, b) == content(m0, b) && (
            reserved(m0, b) ==> reserved(m6, b)) by {
                assert(content(m4, b) == content(m0, b));
                assert(content(m5, b) == content(m4, b));
            }
        }
        Ok(MtpDraftOut { draft_token: token, block_out: residual })
    }

    /// Fill the draft layer's cache from the main model's hidden states and the
    /// tokens that follow them. Its output is not wanted.
    #[verifier::rlimit(30)]
    pub fn record_mtp_seed(
        &self,
        ctx: &mut DispatchContext<F>,
        cache: &KvCache,
        hiddens: &[F],
        tokens: &[u32],
        position_offset: u32,
    ) -> (r: Result<(), RecordError>)
        requires
            self.wf(),
            self.live(old(ctx).memory()),
            self.cache_ok(cache, self.params.n_main as int + 1),
            position_offset + tokens@.len() <= u32::MAX,
            tokens@.len() * tokens@.len() <= usize::MAX,
        ensures
            final(ctx).region == old(ctx).region,
            final(ctx).replay == old(ctx).replay,
            match r {
                Ok(_) => {
                    let m = old(ctx).memory();
                    &&& self.seed_failure(
                        cache,
                        hiddens@,
                        tokens@,
                        position_offset,
                        old(ctx).used,
                        old(ctx).region,
                    ) is None
                    &&& tokens@.len() == 0 ==> final(ctx).memory() == m && final(ctx).used == old(
                        ctx,
                    ).used
                    &&& tokens@.len() > 0 ==> final(ctx).used == self.draft_attended_end(
                        cache,
                        tokens@.len() as u64,
                        position_offset,
                        old(ctx).used,
                    )
                    &&& tokens@.len() > 0 ==> self.draft_cached(
                        m,
                        final(ctx).memory(),
                        cache,
                        hiddens@,
                        tokens@,
                        position_offset,
                    )
                    &&& quiet(final(ctx).memory())
                    &&& undisturbed(
                        m,
                        final(ctx).memory(),
                        old(ctx).at(),
                        draft_buffers(self.params.n_main as int),
                    )
                },
                Err(e) => self.seed_failure(
                    cache,
                    hiddens@,
                    tokens@,
                    position_offset,
                    old(ctx).used,
                    old(ctx).region,
                ) == Some(e),
            },
    {
        let p = &self.params;
        let w = match &self.weights.mtp {
            Some(w) => w,
            None => {
                return Err(RecordError::NoDraftHead);
            },
        };
        let n: usize = tokens.len();
        if n == 0 {
            return Ok(());
        }
        let l: u32 = n as u32;
        let hidden: u64 = p.n_embd as u64;
        proof {
            assert(0 <= hidden * l <= u64::MAX) by (nonlinear_arith)
                requires
                    hidden <= u32::MAX,
                    l <= u32::MAX,
            ;
        }
        if hiddens.len() as u64 != hidden * l as u64 {
            return Err(RecordError::HiddenLength);
        }
        let ghost m0 = ctx.memory();
        let ghost at0 = ctx.at();
        let ghost changed = draft_buffers(p.n_main as int);
        let residual = record_draft_inputs(
            ctx,
            p.rms_eps,
            self.weights.token_embd,
            w,
            hiddens,
            tokens,
            hidden,
        )?;
        let ghost m1 = ctx.memory();
        let seq = sequential_positions(position_offset, l);
        let list = four_axes(seq.as_slice());
        let positions = ctx.alloc_matrix(4 * (l as u64), 1)?;
        ctx.write_u32(positions, list.as_slice());
        let mask: Option<TensorView> = if l > 1 {
            let data = causal_mask(n, self.mask);
            let t = ctx.alloc_matrix(l as u64, l as u64)?;
            ctx.write_f32(t, data.as_slice());
            Some(t)
        } else {
            None
        };
        let pass = QwenPass {
            l,
            position: position_offset,
            total_len: position_offset + l,
            max_seq_len: cache.max_seq_len,
            direct: cache.direct,
            rope: p.rope_params(false),
        };
        let layer = cache.layer_views(p.n_main as usize);
        let ghost m2 = ctx.memory();
        proof {
            assert(self.roomy(cache, p.n_main as int));
            assert(content(m2, residual.buffer) == content(m1, residual.buffer));
            assert(ready(ctx, residual) && ready(ctx, positions) && ready_opt(ctx, mask));
            assert(list@.len() == 4 * l);
            assert forall|b: Buffer| !later(b, at0) implies content(m2, b) == content(m0, b) && (
            reserved(m0, b) ==> reserved(m2, b)) by {
                assert(content(m1, b) == content(m0, b));
            }
            assert(undisturbed(m0, m2, at0, Set::empty()));
            assert(weights_live(m2) && same_weights(m2, m0));
            assert(content(m2, layer.k.buffer) == content(m0, layer.k.buffer));
            assert(content(m2, layer.v.buffer) == content(m0, layer.v.buffer));
            crate::models::qwen35_attention::lemma_same_attended(
                m2,
                m0,
                p,
                w.body,
                layer,
                content(m2, residual.buffer),
                read(m2, residual),
                read(m2, positions),
                None,
                pass,
            );
        }
        attention_block(ctx, &w.body, layer, residual, mask, positions, p, pass)?;
        proof {
            let m3 = ctx.memory();
            assert forall|b: Buffer|
                !later(b, at0) && !changed.contains(b) implies content(m3, b) == content(m0, b) && (
            reserved(m0, b) ==> reserved(m3, b)) by {
                assert(content(m2, b) == content(m0, b));
            }
        }
        Ok(())
    }
}

/// Rows of a kept convolution input from `row` on, as a convolution state.
pub open spec fn backup_rows(cache: &KvCache, j: int, row: int) -> TensorView {
    let r = cache.ssm_conv_backups@[j];
    let k1 = cache.ssm_conv_kernel - 1;
    let ch = cache.ssm_conv_channels as int;
    let padded = k1 + cache.ssm_max_snapshots;
    strided_view(
        r.buffer,
        r.offset + 4 * row,
        r.size - 4 * row,
        dims4(k1, ch, 1, 1),
        dims4(1, padded, padded * ch, padded * ch),
    )
}

/// A convolution state.
pub open spec fn conv_rows(cache: &KvCache, j: int) -> TensorView {
    let r = cache.ssm_conv_states@[j];
    let k1 = cache.ssm_conv_kernel - 1;
    let ch = cache.ssm_conv_channels as int;
    strided_view(
        r.buffer,
        r.offset as int,
        r.size as int,
        dims4(k1, ch, 1, 1),
        dims4(1, k1, k1 * ch, k1 * ch),
    )
}

/// Kept state `accept` of a recurrent layer.
pub open spec fn snapshot_view(cache: &KvCache, j: int, accept: u32) -> TensorView {
    let floats = cache.ssm_gdn_states@[j].size as int / 4;
    let r = cache.ssm_gdn_snapshots@[j];
    flat_view(r.buffer, r.offset + accept * (4 * floats), floats)
}

/// The recurrent state of a layer.
pub open spec fn state_view(cache: &KvCache, j: int) -> TensorView {
    let r = cache.ssm_gdn_states@[j];
    flat_view(r.buffer, r.offset as int, r.size as int / 4)
}

/// What is kept of layer `j` reaches `accept`.
pub open spec fn keeps_accepted(cache: &KvCache, j: int, accept: u32) -> bool {
    &&& cache.ssm_gdn_snapshots@[j].offset + accept * (4 * (cache.ssm_gdn_states@[j].size as int
        / 4)) <= u64::MAX
    &&& cache.ssm_conv_backups@[j].offset + 4 * (accept + 1) <= u64::MAX
    &&& 4 * (accept + 1) <= cache.ssm_conv_backups@[j].size
}

/// The states of layer `j` are those after `accept` and the tokens before it.
pub open spec fn rolled_back<F>(
    m: Memory<F>,
    after: Memory<F>,
    cache: &KvCache,
    j: int,
    accept: u32,
) -> bool {
    let live = cache.ssm_gdn_states@[j].buffer;
    let snap = cache.ssm_gdn_snapshots@[j].buffer;
    let conv = cache.ssm_conv_states@[j].buffer;
    let backup = cache.ssm_conv_backups@[j].buffer;
    &&& content(after, live) == put(
        content(m, live),
        state_view(cache, j),
        op1(Op::Copy, through(content(m, snap), snapshot_view(cache, j, accept))),
    )
    &&& content(after, conv) == put(
        content(m, conv),
        conv_rows(cache, j),
        op1(Op::Cast, through(content(m, backup), backup_rows(cache, j, accept + 1))),
    )
}

/// The buffers of recurrent states.
pub open spec fn state_buffers() -> Set<Buffer> {
    Set::new(|b: Buffer| b is ConvState || b is GdnState)
}

/// Both states of layer `j` are what they were.
pub open spec fn states_untouched<F>(m: Memory<F>, after: Memory<F>, j: int) -> bool {
    &&& content(after, Buffer::ConvState(j as u64)) == content(m, Buffer::ConvState(j as u64))
    &&& content(after, Buffer::GdnState(j as u64)) == content(m, Buffer::GdnState(j as u64))
}

impl<F: Copy> Qwen35MoeModel<F> {
    /// Make the states kept after `accept_len` and the tokens before it the
    /// states of every recurrent layer.
    pub fn record_ssm_finalize(
        &self,
        ctx: &mut DispatchContext<F>,
        cache: &KvCache,
        accept_len: u32,
    )
        requires
            self.live(old(ctx).memory()),
            self.cache_ok(cache, 0),
            cache.ssm_gdn_states@.len() <= u32::MAX,
            cache.ssm_gdn_states@.len() <= cache.ssm_gdn_snapshots@.len(),
            cache.ssm_gdn_states@.len() <= cache.ssm_conv_backups@.len(),
            cache.ssm_conv_kernel >= 1,
            4 * ((cache.ssm_conv_kernel - 1 + cache.ssm_max_snapshots) * cache.ssm_conv_channels)
                <= u64::MAX,
            accept_len < u32::MAX,
            forall|j: int|
                0 <= j < cache.ssm_gdn_states@.len() ==> #[trigger] keeps_accepted(
                    cache,
                    j,
                    accept_len,
                ),
        ensures
            final(ctx).region == old(ctx).region,
            final(ctx).replay == old(ctx).replay,
            final(ctx).used == old(ctx).used,
            forall|j: int|
                0 <= j < cache.ssm_gdn_states@.len() ==> #[trigger] rolled_back(
                    old(ctx).memory(),
                    final(ctx).memory(),
                    cache,
                    j,
                    accept_len,
                ),
            quiet(final(ctx).memory()),
            undisturbed(
                old(ctx).memory(),
                final(ctx).memory(),
                old(ctx).at(),
                state_buffers(),
            ),
    {
        let ghost m0 = ctx.memory();
        let ghost at0 = ctx.at();
        let k1: u64 = cache.ssm_conv_kernel as u64 - 1;
        let channels: u64 = cache.ssm_conv_channels as u64;
        let padded: u64 = k1 + cache.ssm_max_snapshots as u64;
        let n: usize = cache.ssm_gdn_states.len();
        proof {
            assert(0 <= k1 * channels && k1 * channels <= padded * channels) by (nonlinear_arith)
                requires
                    k1 <= padded,
            ;
        }
        let mut i: usize = 0;
        while i < n
            invariant
                i <= n == cache.ssm_gdn_states@.len() <= u32::MAX,
                n <= cache.ssm_gdn_snapshots@.len(),
                n <= cache.ssm_conv_backups@.len(),
                n == cache.ssm_conv_states@.len(),
                self.live(m0),
                self.cache_ok(cache, 0),
                m0 == old(ctx).memory(),
                at0 == old(ctx).at(),
                ctx.region == old(ctx).region,
                ctx.replay == old(ctx).replay,
                ctx.used == old(ctx).used,
                ctx.at() >= at0,
                k1 == cache.ssm_conv_kernel - 1,
                channels == cache.ssm_conv_channels,
                padded == k1 + cache.ssm_max_snapshots,
                4 * (padded * channels) <= u64::MAX,
                0 <= k1 * channels <= padded * channels,
                accept_len < u32::MAX,
                forall|j: int| 0 <= j < n ==> #[trigger] keeps_accepted(cache, j, accept_len),
                quiet(ctx.memory()),
                undisturbed(m0, ctx.memory(), at0, state_buffers()),
                forall|j: int|
                    0 <= j < i ==> #[trigger] rolled_back(m0, ctx.memory(), cache, j, accept_len),
                forall|j: int| i <= j < n ==> #[trigger] states_untouched(m0, ctx.memory(), j),
            decreases n - i,
        {
            let ghost m1 = ctx.memory();
            let live = cache.ssm_gdn_states[i];
            let snap = cache.ssm_gdn_snapshots[i];
            let backup = cache.ssm_conv_backups[i];
            let conv = cache.ssm_conv_states[i];
            proof {
                assert(self.states_named(cache, i as int));
                assert(keeps_accepted(cache, i as int, accept_len));
                assert(states_untouched(m0, m1, i as int));
                assert(content(m1, snap.buffer) == content(m0, snap.buffer));
                assert(content(m1, backup.buffer) == content(m0, backup.buffer));
            }
            let floats: u64 = live.size / 4;
            proof {
                assert(0 <= accept_len * (4 * floats)) by (nonlinear_arith);
            }
            let src = flat(
                snap.buffer,
                snap.offset + accept_len as u64 * (4 * floats),
                floats,
            );
            let dst = flat(live.buffer, live.offset, floats);
            ctx.copy_part(src, dst);
            ctx.barrier1(dst);
            let row: u64 = accept_len as u64 + 1;
            let dims = Dims { d0: k1, d1: channels, d2: 1, d3: 1 };
            let from = strided(
                backup.buffer,
                backup.offset + 4 * row,
                backup.size - 4 * row,
                dims,
                Dims { d0: 1, d1: padded, d2: padded * channels, d3: padded * channels },
            );
            let to = strided(
                conv.buffer,
                conv.offset,
                conv.size,
                dims,
                Dims { d0: 1, d1: k1, d2: k1 * channels, d3: k1 * channels },
            );
            ctx.apply1(Op::Cast, from, to, Fence::Own);
            proof {
                let m2 = ctx.memory();
                assert forall|b: Buffer|
                    !later(b, at0) && !state_buffers().contains(b) implies content(m2, b)
                    == content(m0, b) && (reserved(m0, b) ==> reserved(m2, b)) by {
                    assert(content(m1, b) == content(m0, b));
                }
                assert forall|j: int| 0 <= j < i implies #[trigger] rolled_back(
                    m0,
                    m2,
                    cache,
                    j,
                    accept_len,
                ) by {
                    assert(rolled_back(m0, m1, cache, j, accept_len));
                    assert(self.states_named(cache, j));
                }
                assert(rolled_back(m0, m2, cache, i as int, accept_len));
                assert forall|j: int| i < j < n implies #[trigger] states_untouched(m0, m2, j) by {
                    assert(states_untouched(m0, m1, j));
                }
            }
            i += 1;
        }
    }
}

/// Row `r` of a rolled-back convolution state is row `accept + 1 + r` of the
/// convolution input that was kept.
pub proof fn law_rollback_takes_the_accepted_rows(
    cache: &KvCache,
    j: int,
    accept: u32,
    r: int,
    channel: int,
)
    requires
        keeps_accepted(cache, j, accept),
        cache.ssm_conv_kernel >= 1,
    ensures
        crate::models::tensor::address(backup_rows(cache, j, accept + 1), r, channel, 0, 0)
            == crate::models::tensor::address(
            backup_rows(cache, j, 0),
            accept + 1 + r,
            channel,
            0,
            0,
        ),
{
    let a = backup_rows(cache, j, accept + 1);
    let b = backup_rows(cache, j, 0);
    assert(a.byte_stride == b.byte_stride && a.byte_stride.d0 == 4);
    assert(a.byte_offset == b.byte_offset + 4 * (accept + 1));
    assert((accept + 1 + r) * a.byte_stride.d0 == 4 * (accept + 1) + r * a.byte_stride.d0)
        by (nonlinear_arith)
        requires
            a.byte_stride.d0 == 4,
    ;
}

} // verus!
