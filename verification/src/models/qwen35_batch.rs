//! Batched passes of the Qwen 3.5 architecture: several sequences at once, each
//! over its own slab of the cache.
use vstd::prelude::*;

use crate::models::blocks::{
    embedded, gathered_all, head_bytes, head_term, lemma_released, prologue_bytes, prologue_done,
    ready, record_gather, record_head, record_prologue, same_weights, settled, undisturbed,
    weights_live, words_term, Prologue, SeqPlan, Sequences,
};
use crate::models::cache::{advanced, BatchKvCache};
use crate::models::llama_batch::{
    decode_plan, decode_sequences, unified_shapes, DECODE_DYN_WORDS,
};
use crate::models::masks::{lemma_starts, start_of, sum_lens, total};
use crate::models::mrope::{four, four_axes};
use crate::models::qwen35_attention::{
    attention_block_batch, lemma_same_batch_attended, qwen_batch_attended, qwen_batch_attn_bytes,
    qwen_k_slabs, qwen_v_slabs,
};
use crate::models::qwen35_moe::{lemma_same_moe, moe_failure, moe_ffn, moe_term};
use crate::models::qwen35_ssm::{
    lemma_same_ssm, of_bytes, ssm_after, ssm_block, ssm_bytes, ssm_conv_kept, ssm_fits,
    ssm_gdn_kept, ssm_shape, SsmStates,
};
use crate::models::qwen35_ssm_batch::{
    lemma_same_ssm_batch, slots_ok, ssm_batch_bytes, ssm_batch_conv, ssm_batch_fits, ssm_batch_gdn,
    ssm_batch_term, ssm_block_batch,
};
use crate::models::qwen35_weights::{lemma_recurrent_before, BlockWeights, SsmBlockWeights};
use crate::models::qwen35moe::{image_columns, is_state, states_live, Qwen35MoeModel};
use crate::models::recorder::{
    content, fresh, later, put, quiet, read, reserved, through, DispatchContext, Memory,
    RecordError, Term,
};
use crate::models::tensor::{
    covers, dense, matrix, size, strided, Buffer, Dims, TensorView,
};

verus! {

/// Everything that decides what a batched pass computes.
pub struct QwenBatch {
    pub tokens: Seq<u32>,
    /// Positions on the four axes, axis after axis.
    pub positions: Seq<u32>,
    pub seqs: SeqPlan,
    /// Every sequence brings one token.
    pub decode: bool,
}

impl QwenBatch {
    /// Tokens of all sequences.
    pub open spec fn n(&self) -> u64 {
        self.tokens.len() as u64
    }
}

/// The buffers that batched passes change.
pub open spec fn batch_buffers() -> Set<Buffer> {
    Set::new(|b: Buffer| b is KeySlabs || b is ValueSlabs || b is ConvSlabs || b is GdnSlabs)
}

/// Memory with given contents of a recurrent layer's slabs.
pub open spec fn with_slabs<F>(m: Memory<F>, j: int, conv: Term<F>, gdn: Term<F>) -> Memory<F> {
    Memory {
        held: m.held.insert(Buffer::ConvSlabs(j as u64), conv).insert(
            Buffer::GdnSlabs(j as u64),
            gdn,
        ),
        pending: m.pending,
    }
}

/// The hidden states and the slabs of a recurrent layer.
pub struct Carried<F> {
    pub h: Term<F>,
    pub conv: Term<F>,
    pub gdn: Term<F>,
}

impl<F: Copy> Qwen35MoeModel<F> {
    /// The states of sequence `s` in recurrent layer `j`.
    pub open spec fn slab_states(&self, batch: &BatchKvCache, j: int, slot: u32) -> SsmStates {
        SsmStates {
            conv: Some(batch.conv_slot(j, slot)),
            gdn: Some(batch.gdn_slot(j, slot)),
            checkpoint: None,
        }
    }

    /// A recurrent layer once the first `n` sequences have passed through it, one
    /// after the other.
    pub open spec fn carried(
        &self,
        m: Memory<F>,
        batch: &BatchKvCache,
        w: SsmBlockWeights,
        inp: QwenBatch,
        j: int,
        h: Term<F>,
        n: int,
    ) -> Carried<F>
        decreases n,
    {
        if n <= 0 {
            Carried {
                h,
                conv: content(m, Buffer::ConvSlabs(j as u64)),
                gdn: content(m, Buffer::GdnSlabs(j as u64)),
            }
        } else {
            let p = &self.params;
            let c = self.carried(m, batch, w, inp, j, h, n - 1);
            let mem = with_slabs(m, j, c.conv, c.gdn);
            let len = inp.seqs.lens[n - 1];
            let start = inp.seqs.starts[n - 1] as int;
            let width = p.n_embd as u64;
            let shape = ssm_shape(p, len as u64, 1);
            let st = self.slab_states(batch, j, inp.seqs.slots[n - 1]);
            let x = through(c.h, image_columns(of_bytes(0), width, start, len as int));
            Carried {
                h: ssm_after(
                    mem,
                    p,
                    w,
                    shape,
                    st,
                    x,
                    c.h,
                    image_columns(of_bytes(4 * width * inp.n()), width, start, len as int),
                ),
                conv: ssm_conv_kept(mem, p, w, shape, st, x),
                gdn: ssm_gdn_kept(mem, p, w, shape, st, x),
            }
        }
    }

    /// The hidden states after the mixing half of layer `i`.
    pub open spec fn batch_mixed(
        &self,
        m: Memory<F>,
        batch: &BatchKvCache,
        inp: QwenBatch,
        i: int,
        h: Term<F>,
    ) -> Term<F> {
        let p = &self.params;
        match self.weights.blocks@[i] {
            BlockWeights::Attention(a) => qwen_batch_attended(
                m,
                p,
                a,
                batch,
                i,
                inp.seqs,
                h,
                words_term(inp.positions),
                inp.n(),
                inp.decode,
            ),
            BlockWeights::Ssm(w) => if inp.decode {
                ssm_batch_term(
                    m,
                    p,
                    w,
                    batch,
                    self.rank(i),
                    inp.seqs.slots,
                    fresh(h, matrix(p.n_embd as u64, inp.n())),
                )
            } else {
                self.carried(
                    m,
                    batch,
                    w,
                    inp,
                    self.rank(i),
                    h,
                    inp.seqs.lens.len() as int,
                ).h
            },
        }
    }

    /// The hidden states after layer `i`.
    pub open spec fn batch_layer(
        &self,
        m: Memory<F>,
        batch: &BatchKvCache,
        inp: QwenBatch,
        i: int,
        h: Term<F>,
    ) -> Term<F> {
        let b = self.weights.blocks@[i];
        moe_term(
            m,
            &self.params,
            b.experts(),
            b.mid_norm(),
            self.batch_mixed(m, batch, inp, i, h),
            inp.n(),
        )
    }

    /// The hidden states after the first `n` layers.
    pub open spec fn batch_hidden(
        &self,
        m: Memory<F>,
        batch: &BatchKvCache,
        inp: QwenBatch,
        n: int,
    ) -> Term<F>
        decreases n,
    {
        if n <= 0 {
            embedded(m, self.weights.token_embd, inp.tokens)
        } else {
            self.batch_layer(m, batch, inp, n - 1, self.batch_hidden(m, batch, inp, n - 1))
        }
    }

    /// What layer `i` keeps, given the hidden states `h` before it.
    pub open spec fn batch_layer_kept(
        &self,
        m: Memory<F>,
        after: Memory<F>,
        batch: &BatchKvCache,
        inp: QwenBatch,
        i: int,
        h: Term<F>,
    ) -> bool {
        let p = &self.params;
        let x = fresh(h, matrix(p.n_embd as u64, inp.n()));
        match self.weights.blocks@[i] {
            BlockWeights::Attention(a) => {
                &&& content(after, Buffer::KeySlabs(i as u64)) == qwen_k_slabs(
                    m,
                    p,
                    a,
                    batch,
                    i,
                    inp.seqs,
                    x,
                    words_term(inp.positions),
                    inp.n(),
                )
                &&& content(after, Buffer::ValueSlabs(i as u64)) == qwen_v_slabs(
                    m,
                    p,
                    a,
                    batch,
                    i,
                    inp.seqs,
                    x,
                    inp.n(),
                )
            },
            BlockWeights::Ssm(w) => {
                let j = self.rank(i);
                if inp.decode {
                    &&& content(after, Buffer::ConvSlabs(j as u64)) == ssm_batch_conv(
                        m,
                        p,
                        w,
                        batch,
                        j,
                        inp.seqs.slots,
                        x,
                    )
                    &&& content(after, Buffer::GdnSlabs(j as u64)) == ssm_batch_gdn(
                        m,
                        p,
                        w,
                        batch,
                        j,
                        inp.seqs.slots,
                        x,
                    )
                } else {
                    let c = self.carried(m, batch, w, inp, j, h, inp.seqs.lens.len() as int);
                    &&& content(after, Buffer::ConvSlabs(j as u64)) == c.conv
                    &&& content(after, Buffer::GdnSlabs(j as u64)) == c.gdn
                }
            },
        }
    }

    /// Layer `i` keeps what the pass leaves there.
    pub open spec fn batch_kept(
        &self,
        m: Memory<F>,
        after: Memory<F>,
        batch: &BatchKvCache,
        inp: QwenBatch,
        i: int,
    ) -> bool {
        self.batch_layer_kept(m, after, batch, inp, i, self.batch_hidden(m, batch, inp, i))
    }

    /// Scratch that the first `k` sequences take in a recurrent layer. Each keeps
    /// what it took until the layer is done.
    pub open spec fn sequences_bytes(
        &self,
        batch: &BatchKvCache,
        inp: QwenBatch,
        j: int,
        k: int,
    ) -> int
        decreases k,
    {
        if k <= 0 {
            0
        } else {
            self.sequences_bytes(batch, inp, j, k - 1) + ssm_bytes(
                &self.params,
                ssm_shape(&self.params, inp.seqs.lens[k - 1] as u64, 1),
                self.slab_states(batch, j, inp.seqs.slots[k - 1]),
            )
        }
    }

    /// The recurrent half of a layer fits what `used` bytes leave of scratch.
    pub open spec fn batch_ssm_fits(
        &self,
        batch: &BatchKvCache,
        inp: QwenBatch,
        j: int,
        used: int,
        room: u64,
    ) -> bool {
        if inp.decode {
            ssm_batch_fits(&self.params, batch, inp.seqs.slots, used, room)
        } else {
            forall|s: int|
                0 <= s < inp.seqs.lens.len() ==> #[trigger] self.sequence_fits(
                    batch,
                    inp,
                    j,
                    s,
                    used,
                    room,
                )
        }
    }

    /// Sequence `s` fits what `used` bytes and the sequences before it leave of
    /// scratch in a recurrent layer.
    pub open spec fn sequence_fits(
        &self,
        batch: &BatchKvCache,
        inp: QwenBatch,
        j: int,
        s: int,
        used: int,
        room: u64,
    ) -> bool {
        ssm_fits(
            &self.params,
            ssm_shape(&self.params, inp.seqs.lens[s] as u64, 1),
            self.slab_states(batch, j, inp.seqs.slots[s]),
            used + self.sequences_bytes(batch, inp, j, s),
            room,
        )
    }

    /// Bytes in use after the first half of layer `i`, where `used` were before.
    pub open spec fn batch_half_end(
        &self,
        batch: &BatchKvCache,
        inp: QwenBatch,
        i: int,
        used: int,
    ) -> int {
        match self.weights.blocks@[i] {
            BlockWeights::Attention(_) => used + qwen_batch_attn_bytes(&self.params, inp.n()),
            BlockWeights::Ssm(_) => used + if inp.decode {
                ssm_batch_bytes(&self.params, batch, inp.seqs.slots)
            } else {
                self.sequences_bytes(batch, inp, self.rank(i), inp.seqs.lens.len() as int)
            },
        }
    }

    /// Why layer `i` fails, if it does, where `used` bytes are in use.
    pub open spec fn batch_layer_failure(
        &self,
        batch: &BatchKvCache,
        inp: QwenBatch,
        i: int,
        used: int,
        room: u64,
    ) -> Option<RecordError> {
        let half = self.batch_half_end(batch, inp, i, used);
        let fit = match self.weights.blocks@[i] {
            BlockWeights::Attention(_) => half <= room,
            BlockWeights::Ssm(_) => self.batch_ssm_fits(batch, inp, self.rank(i), used, room),
        };
        if !fit {
            Some(RecordError::ScratchExhausted)
        } else {
            moe_failure(&self.params, self.weights.blocks@[i].experts(), inp.n(), half, room)
        }
    }

    /// Why the first `k` layers fail, if they do: the first failure counts. Each
    /// starts where `used` bytes are in use.
    pub open spec fn batch_layers_failure(
        &self,
        batch: &BatchKvCache,
        inp: QwenBatch,
        k: int,
        used: int,
        room: u64,
    ) -> Option<RecordError>
        decreases k,
    {
        if k <= 0 {
            None
        } else if self.batch_layers_failure(batch, inp, k - 1, used, room) is Some {
            self.batch_layers_failure(batch, inp, k - 1, used, room)
        } else {
            self.batch_layer_failure(batch, inp, k - 1, used, room)
        }
    }

    /// Whether `b` keeps something of layer `i`.
    pub open spec fn batch_belongs(&self, i: int, b: Buffer) -> bool {
        match self.weights.blocks@[i] {
            BlockWeights::Attention(_) => b == Buffer::KeySlabs(i as u64) || b
                == Buffer::ValueSlabs(i as u64),
            BlockWeights::Ssm(_) => {
                let j = self.rank(i) as u64;
                b == Buffer::ConvSlabs(j) || b == Buffer::GdnSlabs(j)
            },
        }
    }

    /// What is kept of layer `i` is what was kept before.
    pub open spec fn batch_untouched(&self, m: Memory<F>, after: Memory<F>, i: int) -> bool {
        forall|b: Buffer|
            #![trigger content(after, b)]
            self.batch_belongs(i, b) ==> content(after, b) == content(m, b)
    }

    /// The cache has slabs for every layer.
    pub open spec fn batch_ok(&self, batch: &BatchKvCache) -> bool {
        &&& batch.layered(self.weights.blocks@.len() as int)
        &&& batch.ssm_layered(self.rank(self.weights.blocks@.len() as int))
        &&& batch.gdn_slot_floats == self.params.state_size()
    }

    /// What two layers keep lies apart.
    proof fn lemma_batch_apart(&self, i: int, k: int, b: Buffer)
        requires
            self.wf(),
            0 <= i < self.weights.blocks@.len(),
            0 <= k < self.weights.blocks@.len(),
            i != k,
            self.batch_belongs(i, b),
        ensures
            !self.batch_belongs(k, b),
    {
        assert(self.placed(i) && self.placed(k));
        let n = self.params.n_main;
        let v = self.params.full_attn_interval;
        lemma_recurrent_before(n, v, 0, i);
        lemma_recurrent_before(n, v, 0, k);
        if i < k {
            lemma_recurrent_before(n, v, i, k);
        } else {
            lemma_recurrent_before(n, v, k, i);
        }
    }

    /// Record a recurrent layer over packed sequences, one after the other.
    #[verifier::rlimit(30)]
    fn record_sequences(
        &self,
        ctx: &mut DispatchContext<F>,
        batch: &BatchKvCache,
        w: &SsmBlockWeights,
        residual: TensorView,
        seqs: &Sequences,
        n: u64,
        j: usize,
        Ghost(inp): Ghost<QwenBatch>,
    ) -> (r: Result<(), RecordError>)
        requires
            self.params.wf(),
            quiet(old(ctx).memory()),
            weights_live(old(ctx).memory()),
            states_live(old(ctx).memory()),
            w.apart(),
            inp.n() == n,
            inp.seqs == seqs@,
            batch.ssm_layered(j as int + 1),
            seqs.wf(n as int, batch.positions@.len() as int),
            residual == dense(residual.buffer, matrix(self.params.n_embd as u64, n)),
            residual.buffer matches Buffer::Scratch { id: _, bytes } && bytes == 4 * (
            self.params.n_embd as u64) * n,
            4 * (self.params.n_embd as u64) * n <= old(ctx).region,
            ready(old(ctx), residual),
        ensures
            final(ctx).region == old(ctx).region,
            final(ctx).replay == old(ctx).replay,
            final(ctx).at() >= old(ctx).at(),
            r matches Err(e) ==> e is ScratchExhausted,
            r is Ok <==> forall|s: int|
                0 <= s < inp.seqs.lens.len() ==> #[trigger] self.sequence_fits(
                    batch,
                    inp,
                    j as int,
                    s,
                    old(ctx).used as int,
                    old(ctx).region,
                ),
            r is Ok ==> final(ctx).used == old(ctx).used + self.sequences_bytes(
                batch,
                inp,
                j as int,
                inp.seqs.lens.len() as int,
            ),
            r is Ok ==> {
                let m = old(ctx).memory();
                let c = self.carried(
                    m,
                    batch,
                    *w,
                    inp,
                    j as int,
                    content(m, residual.buffer),
                    inp.seqs.lens.len() as int,
                );
                let after = final(ctx).memory();
                &&& content(after, residual.buffer) == c.h
                &&& content(after, Buffer::ConvSlabs(j as u64)) == c.conv
                &&& content(after, Buffer::GdnSlabs(j as u64)) == c.gdn
                &&& !(content(after, Buffer::ConvSlabs(j as u64)) is Unset)
                &&& !(content(after, Buffer::GdnSlabs(j as u64)) is Unset)
                &&& ready(final(ctx), residual)
                &&& quiet(after)
                &&& undisturbed(
                    m,
                    after,
                    old(ctx).at(),
                    set![
                        residual.buffer,
                        Buffer::ConvSlabs(j as u64),
                        Buffer::GdnSlabs(j as u64),
                    ],
                )
            },
    {
        let p = &self.params;
        let width: u64 = p.n_embd as u64;
        let ghost m0 = ctx.memory();
        let ghost h0 = content(m0, residual.buffer);
        let ghost cb = Buffer::ConvSlabs(j as u64);
        let ghost gb = Buffer::GdnSlabs(j as u64);
        let ghost changed = set![residual.buffer, cb, gb];
        proof {
            assert(is_state(cb) && is_state(gb));
        }
        let mut s: usize = 0;
        while s < seqs.lens.len()
            invariant
                s <= seqs.lens@.len(),
                p == &self.params,
                p.wf(),
                width == p.n_embd,
                m0 == old(ctx).memory(),
                h0 == content(m0, residual.buffer),
                cb == Buffer::ConvSlabs(j as u64),
                gb == Buffer::GdnSlabs(j as u64),
                changed == set![residual.buffer, cb, gb],
                quiet(ctx.memory()),
                weights_live(m0),
                w.apart(),
                inp.n() == n,
                inp.seqs == seqs@,
                batch.ssm_layered(j as int + 1),
                seqs.wf(n as int, batch.positions@.len() as int),
                residual == dense(residual.buffer, matrix(width, n)),
                residual.buffer matches Buffer::Scratch { id: _, bytes } && bytes == 4 * width * n,
                4 * width * n <= ctx.region,
                ctx.region == old(ctx).region,
                ctx.replay == old(ctx).replay,
                ctx.at() >= old(ctx).at(),
                ready(ctx, residual),
                !(content(ctx.memory(), cb) is Unset),
                !(content(ctx.memory(), gb) is Unset),
                undisturbed(m0, ctx.memory(), old(ctx).at(), changed),
                forall|k: int|
                    0 <= k < s ==> #[trigger] self.sequence_fits(
                        batch,
                        inp,
                        j as int,
                        k,
                        old(ctx).used as int,
                        ctx.region,
                    ),
                ctx.used == old(ctx).used + self.sequences_bytes(batch, inp, j as int, s as int),
                ({
                    let c = self.carried(m0, batch, *w, inp, j as int, h0, s as int);
                    &&& content(ctx.memory(), residual.buffer) == c.h
                    &&& content(ctx.memory(), cb) == c.conv
                    &&& content(ctx.memory(), gb) == c.gdn
                }),
            decreases seqs.lens@.len() - s,
        {
            let ghost m1 = ctx.memory();
            let ghost c = self.carried(m0, batch, *w, inp, j as int, h0, s as int);
            let ghost mem = with_slabs(m0, j as int, c.conv, c.gdn);
            assert(seqs.placed(s as int, n as int, batch.positions@.len() as int));
            let len: u32 = seqs.lens[s];
            let count: u64 = len as u64;
            let start: u64 = seqs.starts[s];
            let slot: u32 = seqs.slots[s];
            proof {
                assert(width * count == count * width) by (nonlinear_arith);
                assert(0 <= start * width && start * width <= n * width && 0 <= count * width
                    && count * width <= n * width) by (nonlinear_arith)
                    requires
                        0 <= start <= n,
                        0 <= count <= n,
                        width >= 0,
                ;
                assert(4 * (n * width) == 4 * width * n) by (nonlinear_arith);
                assert(4 * width <= 4 * width * n) by (nonlinear_arith)
                    requires
                        n >= 1,
                ;
                assert(batch.ssm_named(j as int));
            }
            let slice = strided(
                residual.buffer,
                4 * (start * width),
                4 * (count * width),
                Dims { d0: width, d1: count, d2: 1, d3: 1 },
                Dims { d0: 1, d1: width, d2: width * count, d3: width * count },
            );
            let st = SsmStates {
                conv: Some(batch.conv_state_slot(j, slot)),
                gdn: Some(batch.gdn_state_slot(j, slot)),
                checkpoint: None,
            };
            proof {
                assert(slice == image_columns(
                    residual.buffer,
                    width,
                    start as int,
                    count as int,
                ));
                assert(st == self.slab_states(batch, j as int, slot));
                assert(st.live(m1));
                assert forall|b: Buffer| b is Weights implies !(#[trigger] content(m1, b) is Unset) by {
                    assert(content(m1, b) == content(m0, b));
                }
                assert(weights_live(m1));
                assert(covers(
                    image_columns(
                        of_bytes(4 * width * n),
                        width,
                        start as int,
                        count as int,
                    ),
                ) == covers(slice));
                assert(content(mem, cb) == c.conv && content(mem, gb) == c.gdn);
                assert forall|b: Buffer| b is Weights implies #[trigger] content(m1, b) == content(
                    mem,
                    b,
                ) by {
                    assert(content(m1, b) == content(m0, b));
                }
                assert(same_weights(m1, mem));
                lemma_same_ssm(
                    m1,
                    mem,
                    p,
                    *w,
                    ssm_shape(p, count, 1),
                    st,
                    read(m1, slice),
                );
                if !self.sequence_fits(
                    batch,
                    inp,
                    j as int,
                    s as int,
                    old(ctx).used as int,
                    ctx.region,
                ) {
                    assert(!(forall|k: int|
                        0 <= k < inp.seqs.lens.len() ==> #[trigger] self.sequence_fits(
                            batch,
                            inp,
                            j as int,
                            k,
                            old(ctx).used as int,
                            ctx.region,
                        )));
                }
            }
            ssm_block(ctx, w, slice, p, len, st)?;
            proof {
                let m2 = ctx.memory();
                assert(ready(ctx, residual));
                assert forall|b: Buffer|
                    !later(b, old(ctx).at()) && !changed.contains(b) implies content(m2, b)
                    == content(m0, b) && (reserved(m0, b) ==> reserved(m2, b)) by {
                    assert(content(m1, b) == content(m0, b));
                }
                let c2 = self.carried(m0, batch, *w, inp, j as int, h0, s + 1);
                assert(read(m1, slice) == through(
                    c.h,
                    image_columns(of_bytes(0), width, start as int, count as int),
                ));
                assert(content(m2, residual.buffer) == c2.h);
                assert(content(m2, cb) == c2.conv);
                assert(content(m2, gb) == c2.gdn);
            }
            s += 1;
        }
        Ok(())
    }
}

impl<F: Copy> Qwen35MoeModel<F> {
    /// Where the passes of a batch stand, and what they need: a quiet device and
    /// slabs for every layer.
    pub open spec fn batch_room(&self, batch: &BatchKvCache, n: u64, room: u64) -> bool {
        &&& self.batch_ok(batch)
        &&& 4 * (self.params.n_embd as u64) * n <= room
    }

    /// Record one layer of a batched pass.
    #[verifier::rlimit(40)]
    fn record_slab_layer(
        &self,
        ctx: &mut DispatchContext<F>,
        batch: &BatchKvCache,
        i: usize,
        pro: Prologue,
        fa_dyn: TensorView,
        seqs: &Sequences,
        n: u32,
        decode: bool,
        Ghost(inp): Ghost<QwenBatch>,
    ) -> (r: Result<(), RecordError>)
        requires
            self.wf(),
            i < self.weights.blocks@.len(),
            self.live(old(ctx).memory()),
            self.batch_room(batch, n as u64, old(ctx).region),
            n >= 1,
            inp.n() == n,
            inp.seqs == seqs@,
            inp.decode == decode,
            seqs.wf(n as int, batch.positions@.len() as int),
            decode ==> seqs.slots@.len() == n,
            pro.residual == dense(
                pro.residual.buffer,
                matrix(self.params.n_embd as u64, n as u64),
            ),
            covers(pro.residual),
            pro.residual.buffer is Scratch,
            ready(old(ctx), pro.residual),
            ready(old(ctx), pro.positions),
            pro.positions.buffer is Scratch,
            pro.positions.buffer != pro.residual.buffer,
            read(old(ctx).memory(), pro.positions) == words_term::<F>(inp.positions),
            fa_dyn == dense(fa_dyn.buffer, matrix(DECODE_DYN_WORDS, seqs.lens@.len() as u64)),
            covers(fa_dyn),
            reserved(old(ctx).memory(), fa_dyn.buffer) && old(ctx).known(fa_dyn.buffer),
            fa_dyn.buffer != pro.residual.buffer,
            fa_dyn.buffer != pro.positions.buffer,
        ensures
            final(ctx).region == old(ctx).region,
            final(ctx).replay == old(ctx).replay,
            final(ctx).at() >= old(ctx).at(),
            match r {
                Ok(_) => {
                    let m = old(ctx).memory();
                    let h = content(m, pro.residual.buffer);
                    &&& self.batch_layer_failure(
                        batch,
                        inp,
                        i as int,
                        old(ctx).used as int,
                        old(ctx).region,
                    ) is None
                    &&& content(final(ctx).memory(), pro.residual.buffer) == self.batch_layer(
                        m,
                        batch,
                        inp,
                        i as int,
                        h,
                    )
                    &&& self.batch_layer_kept(m, final(ctx).memory(), batch, inp, i as int, h)
                    &&& ready(final(ctx), pro.residual)
                    &&& reserved(final(ctx).memory(), fa_dyn.buffer)
                    &&& self.live(final(ctx).memory())
                    &&& undisturbed(
                        m,
                        final(ctx).memory(),
                        old(ctx).at(),
                        Set::new(
                            |b: Buffer|
                                b == pro.residual.buffer || b == fa_dyn.buffer
                                    || self.batch_belongs(i as int, b),
                        ),
                    )
                },
                Err(e) => self.batch_layer_failure(
                    batch,
                    inp,
                    i as int,
                    old(ctx).used as int,
                    old(ctx).region,
                ) == Some(e),
            },
    {
        let p = &self.params;
        let ghost m0 = ctx.memory();
        let ghost at0 = ctx.at();
        let ghost changed = Set::new(
            |b: Buffer|
                b == pro.residual.buffer || b == fa_dyn.buffer || self.batch_belongs(i as int, b),
        );
        let residual = pro.residual;
        let ghost blocks = self.weights.blocks@.len() as int;
        proof {
            lemma_recurrent_before(p.n_main, p.full_attn_interval, 0, i as int);
            lemma_recurrent_before(p.n_main, p.full_attn_interval, i as int + 1, blocks);
            assert(self.placed(i as int));
        }
        let block = &self.weights.blocks[i];
        match block {
            BlockWeights::Attention(att) => {
                attention_block_batch(
                    ctx,
                    att,
                    batch,
                    i,
                    residual,
                    pro.positions,
                    fa_dyn,
                    seqs,
                    p,
                    n as u64,
                    decode,
                )?;
            },
            BlockWeights::Ssm(w) => {
                let j: usize = p.count_recurrent(i);
                proof {
                    assert(batch.ssm_layered(j as int + 1));
                    assert(is_state(Buffer::ConvSlabs(j as u64)) && !(content(
                        m0,
                        Buffer::ConvSlabs(j as u64),
                    ) is Unset));
                    assert(is_state(Buffer::GdnSlabs(j as u64)) && !(content(
                        m0,
                        Buffer::GdnSlabs(j as u64),
                    ) is Unset));
                }
                if decode {
                    proof {
                        assert forall|s: int| 0 <= s < seqs.slots@.len() implies (
                        #[trigger] seqs.slots@[s]) < batch.positions@.len() by {
                            assert(seqs.placed(s, n as int, batch.positions@.len() as int));
                        }
                    }
                    ssm_block_batch(ctx, w, batch, residual, p, j, seqs.slots.as_slice())?;
                } else {
                    let ghost d = residual.dims;
                    assert(0 <= 4 * d.d0 * d.d1 == 4 * d.d0 * d.d1 * d.d2 * d.d3)
                        by (nonlinear_arith)
                        requires
                            d.d2 == 1,
                            d.d3 == 1,
                    ;
                    assert(residual.byte_size == 4 * (p.n_embd as u64) * (n as u64));
                    self.record_sequences(
                        ctx,
                        batch,
                        w,
                        residual,
                        seqs,
                        n as u64,
                        j,
                        Ghost(inp),
                    )?;
                }
            },
        }
        let ghost m1 = ctx.memory();
        proof {
            assert forall|b: Buffer| !later(b, at0) && !changed.contains(b) implies content(m1, b)
                == content(m0, b) && (reserved(m0, b) ==> reserved(m1, b)) by {}
            assert(undisturbed(m0, m1, at0, changed));
            assert(weights_live(m1));
            assert forall|b: Buffer| is_state(b) implies !(content(m1, b) is Unset) by {
                assert(content(m0, b) == content(m0, b));
                if !self.batch_belongs(i as int, b) {
                    assert(content(m1, b) == content(m0, b));
                }
            }
            assert(states_live(m1));
            assert(same_weights(m1, m0));
            assert(reserved(m1, fa_dyn.buffer));
        }
        moe_ffn(ctx, block.moe(), block.post_attn_norm(), residual, p, n)?;
        proof {
            let m2 = ctx.memory();
            lemma_same_moe(
                m1,
                m0,
                p,
                block.experts(),
                block.mid_norm(),
                content(m1, residual.buffer),
                n as u64,
            );
            assert forall|b: Buffer| !later(b, at0) && !changed.contains(b) implies content(m2, b)
                == content(m0, b) && (reserved(m0, b) ==> reserved(m2, b)) by {
                assert(content(m1, b) == content(m0, b));
            }
            assert(undisturbed(m0, m2, at0, changed));
            assert forall|b: Buffer| self.batch_belongs(i as int, b) implies content(m2, b)
                == content(m1, b) by {}
            assert(weights_live(m2));
            assert forall|b: Buffer| is_state(b) implies !(content(m2, b) is Unset) by {
                assert(content(m1, b) == content(m1, b));
                assert(content(m2, b) == content(m1, b));
            }
            assert(states_live(m2));
        }
        Ok(())
    }

    /// What is carried through a recurrent layer depends on memory through the
    /// weights and the slabs alone.
    proof fn lemma_same_carried(
        &self,
        a: Memory<F>,
        m: Memory<F>,
        batch: &BatchKvCache,
        w: SsmBlockWeights,
        inp: QwenBatch,
        j: int,
        h: Term<F>,
        n: int,
    )
        requires
            w.apart(),
            same_weights(a, m),
            0 <= j,
            batch.ssm_layered(j + 1),
            content(a, Buffer::ConvSlabs(j as u64)) == content(m, Buffer::ConvSlabs(j as u64)),
            content(a, Buffer::GdnSlabs(j as u64)) == content(m, Buffer::GdnSlabs(j as u64)),
        ensures
            self.carried(a, batch, w, inp, j, h, n) == self.carried(m, batch, w, inp, j, h, n),
        decreases n,
    {
        if n > 0 {
            self.lemma_same_carried(a, m, batch, w, inp, j, h, n - 1);
            let c = self.carried(m, batch, w, inp, j, h, n - 1);
            let p = &self.params;
            let len = inp.seqs.lens[n - 1];
            let am = with_slabs(a, j, c.conv, c.gdn);
            let mm = with_slabs(m, j, c.conv, c.gdn);
            assert(batch.ssm_named(j));
            assert forall|b: Buffer| b is Weights implies #[trigger] content(am, b) == content(
                mm,
                b,
            ) by {
                assert(content(a, b) == content(m, b));
            }
            assert(same_weights(am, mm));
            lemma_same_ssm(
                am,
                mm,
                p,
                w,
                ssm_shape(p, len as u64, 1),
                self.slab_states(batch, j, inp.seqs.slots[n - 1]),
                through(
                    c.h,
                    image_columns(
                        of_bytes(0),
                        p.n_embd as u64,
                        inp.seqs.starts[n - 1] as int,
                        len as int,
                    ),
                ),
            );
        }
    }

    /// A layer depends on memory through the weights and what the layer keeps
    /// alone.
    proof fn lemma_same_slab_layer(
        &self,
        a: Memory<F>,
        m: Memory<F>,
        after: Memory<F>,
        batch: &BatchKvCache,
        inp: QwenBatch,
        i: int,
        h: Term<F>,
    )
        requires
            self.wf(),
            0 <= i < self.weights.blocks@.len(),
            self.batch_ok(batch),
            same_weights(a, m),
            self.batch_untouched(m, a, i),
        ensures
            self.batch_layer(a, batch, inp, i, h) == self.batch_layer(m, batch, inp, i, h),
            self.batch_layer_kept(a, after, batch, inp, i, h) ==> self.batch_layer_kept(
                m,
                after,
                batch,
                inp,
                i,
                h,
            ),
    {
        let p = &self.params;
        let b = self.weights.blocks@[i];
        let x = fresh(h, matrix(p.n_embd as u64, inp.n()));
        lemma_recurrent_before(p.n_main, p.full_attn_interval, 0, i);
        lemma_recurrent_before(
            p.n_main,
            p.full_attn_interval,
            i + 1,
            self.weights.blocks@.len() as int,
        );
        assert(self.placed(i));
        match b {
            BlockWeights::Attention(att) => {
                assert(self.batch_belongs(i, Buffer::KeySlabs(i as u64)));
                assert(self.batch_belongs(i, Buffer::ValueSlabs(i as u64)));
                assert(content(a, Buffer::KeySlabs(i as u64)) == content(
                    m,
                    Buffer::KeySlabs(i as u64),
                ));
                assert(content(a, Buffer::ValueSlabs(i as u64)) == content(
                    m,
                    Buffer::ValueSlabs(i as u64),
                ));
                assert(batch.layered(i + 1));
                lemma_same_batch_attended(
                    a,
                    m,
                    p,
                    att,
                    batch,
                    i,
                    inp.seqs,
                    h,
                    x,
                    words_term(inp.positions),
                    inp.n(),
                    inp.decode,
                );
            },
            BlockWeights::Ssm(w) => {
                let j = self.rank(i);
                assert(self.batch_belongs(i, Buffer::ConvSlabs(j as u64)));
                assert(self.batch_belongs(i, Buffer::GdnSlabs(j as u64)));
                assert(content(a, Buffer::ConvSlabs(j as u64)) == content(
                    m,
                    Buffer::ConvSlabs(j as u64),
                ));
                assert(content(a, Buffer::GdnSlabs(j as u64)) == content(
                    m,
                    Buffer::GdnSlabs(j as u64),
                ));
                assert(batch.ssm_layered(j + 1));
                assert(batch.ssm_named(j));
                if inp.decode {
                    lemma_same_ssm_batch(a, m, p, w, batch, j, inp.seqs.slots, x);
                } else {
                    self.lemma_same_carried(
                        a,
                        m,
                        batch,
                        w,
                        inp,
                        j,
                        h,
                        inp.seqs.lens.len() as int,
                    );
                }
            },
        }
        lemma_same_moe(
            a,
            m,
            p,
            b.experts(),
            b.mid_norm(),
            self.batch_mixed(a, batch, inp, i, h),
            inp.n(),
        );
    }

    /// A failure among the first layers is the failure of all.
    proof fn lemma_batch_failures(
        &self,
        batch: &BatchKvCache,
        inp: QwenBatch,
        k: int,
        layers: int,
        used: int,
        room: u64,
    )
        requires
            0 <= k < layers,
            self.batch_layers_failure(batch, inp, k, used, room) is None,
            self.batch_layer_failure(batch, inp, k, used, room) is Some,
        ensures
            self.batch_layers_failure(batch, inp, layers, used, room) == self.batch_layer_failure(
                batch,
                inp,
                k,
                used,
                room,
            ),
        decreases layers,
    {
        if k < layers - 1 {
            self.lemma_batch_failures(batch, inp, k, layers - 1, used, room);
        }
    }

    /// What a layer keeps stays while nothing that belongs to it changes.
    proof fn lemma_batch_stays(
        &self,
        m0: Memory<F>,
        a: Memory<F>,
        c: Memory<F>,
        batch: &BatchKvCache,
        inp: QwenBatch,
        j: int,
    )
        requires
            0 <= j < self.weights.blocks@.len(),
            self.batch_kept(m0, a, batch, inp, j),
            forall|b: Buffer|
                #[trigger] self.batch_belongs(j, b) ==> content(c, b) == content(a, b),
        ensures
            self.batch_kept(m0, c, batch, inp, j),
    {
        match self.weights.blocks@[j] {
            BlockWeights::Attention(_) => {
                assert(self.batch_belongs(j, Buffer::KeySlabs(j as u64)));
                assert(self.batch_belongs(j, Buffer::ValueSlabs(j as u64)));
            },
            BlockWeights::Ssm(_) => {
                assert(self.batch_belongs(j, Buffer::ConvSlabs(self.rank(j) as u64)));
                assert(self.batch_belongs(j, Buffer::GdnSlabs(self.rank(j) as u64)));
            },
        }
    }
}

impl<F: Copy> Qwen35MoeModel<F> {
    /// Bytes in use after the inputs of a batched pass, where `used` were before.
    pub open spec fn batch_inputs_end(&self, inp: QwenBatch, used: u64) -> int {
        used + prologue_bytes(
            inp.n(),
            inp.positions.len() as u64,
            false,
            self.params.n_embd as u64,
        ) + size(matrix(DECODE_DYN_WORDS, inp.seqs.lens.len() as u64))
    }

    /// Bytes in use after a batched pass, where `used` were before. The last tokens
    /// of longer sequences are gathered before the head.
    pub open spec fn batch_pass_end(&self, inp: QwenBatch, used: u64) -> int {
        let b = inp.seqs.lens.len() as u64;
        let width = self.params.n_embd as u64;
        self.batch_inputs_end(inp, used) + if inp.decode {
            0
        } else {
            size(matrix(width, b))
        } + head_bytes(width, self.params.n_vocab as u64, b)
    }

    /// Why a batched pass fails, if it does, where `used` bytes are in use.
    pub open spec fn batch_failure(
        &self,
        batch: &BatchKvCache,
        inp: QwenBatch,
        used: u64,
        room: u64,
    ) -> Option<RecordError> {
        let end = self.batch_inputs_end(inp, used);
        let layers = self.batch_layers_failure(
            batch,
            inp,
            self.weights.blocks@.len() as int,
            end,
            room,
        );
        if end > room {
            Some(RecordError::ScratchExhausted)
        } else if layers is Some {
            layers
        } else if self.batch_pass_end(inp, used) > room {
            Some(RecordError::ScratchExhausted)
        } else {
            None
        }
    }

    /// The logits of a batched pass: those of every sequence's last token.
    pub open spec fn batch_logits(
        &self,
        m: Memory<F>,
        batch: &BatchKvCache,
        inp: QwenBatch,
    ) -> Term<F> {
        let width = self.params.n_embd as u64;
        let h = self.batch_hidden(m, batch, inp, self.weights.blocks@.len() as int);
        head_term(
            m,
            self.params.rms_eps,
            if inp.decode {
                fresh(h, matrix(width, inp.n()))
            } else {
                gathered_all(h, width, inp.n(), inp.seqs.lens, inp.seqs.starts)
            },
            self.weights.output_norm,
            self.weights.head(),
            width,
            self.params.n_vocab as u64,
            inp.seqs.lens.len() as u64,
        )
    }

    /// How a batched pass ends.
    pub open spec fn batch_recorded(
        &self,
        before: &DispatchContext<F>,
        after: &DispatchContext<F>,
        batch: &BatchKvCache,
        batch_after: &BatchKvCache,
        inp: QwenBatch,
        r: Result<TensorView, RecordError>,
    ) -> bool {
        let m = before.memory();
        let n = self.weights.blocks@.len() as int;
        match r {
            Ok(t) => {
                &&& self.batch_failure(batch, inp, before.used, before.region) is None
                &&& after.used == self.batch_pass_end(inp, before.used)
                &&& ready(after, t)
                &&& read(after.memory(), t) == self.batch_logits(m, batch, inp)
                &&& forall|i: int|
                    0 <= i < n ==> #[trigger] self.batch_kept(m, after.memory(), batch, inp, i)
                &&& undisturbed(m, after.memory(), before.at(), batch_buffers())
                &&& self.live(after.memory())
                &&& batch_after.same_but_positions(batch)
                &&& batch_after.positions@ == advanced(
                    batch.positions@,
                    inp.seqs.slots,
                    inp.seqs.kv_lens,
                    inp.seqs.slots.len() as int,
                )
            },
            Err(e) => {
                &&& self.batch_failure(batch, inp, before.used, before.region) == Some(e)
                &&& *batch_after == *batch
            },
        }
    }

    /// Record the layers of a batched pass.
    #[verifier::rlimit(40)]
    fn record_slab_layers(
        &self,
        ctx: &mut DispatchContext<F>,
        batch: &BatchKvCache,
        pro: Prologue,
        fa_dyn: TensorView,
        seqs: &Sequences,
        count: u32,
        decode: bool,
        Ghost(inp): Ghost<QwenBatch>,
        Ghost(m0): Ghost<Memory<F>>,
        Ghost(at0): Ghost<int>,
    ) -> (r: Result<(), RecordError>)
        requires
            self.wf(),
            self.live(m0),
            self.live(old(ctx).memory()),
            self.batch_room(batch, count as u64, old(ctx).region),
            count >= 1,
            inp.n() == count,
            inp.seqs == seqs@,
            inp.decode == decode,
            seqs.wf(count as int, batch.positions@.len() as int),
            decode ==> seqs.slots@.len() == count,
            0 <= at0 <= old(ctx).at(),
            prologue_done(
                old(ctx),
                at0,
                pro,
                self.params.n_embd as u64,
                count as u64,
                inp.positions,
                None,
                self.batch_hidden(m0, batch, inp, 0),
            ),
            settled(fa_dyn, at0, old(ctx).at(), pro.residual.buffer),
            fa_dyn.buffer != pro.positions.buffer,
            fa_dyn == dense(fa_dyn.buffer, matrix(DECODE_DYN_WORDS, seqs.lens@.len() as u64)),
            covers(fa_dyn),
            reserved(old(ctx).memory(), fa_dyn.buffer),
            undisturbed(m0, old(ctx).memory(), at0, Set::empty()),
        ensures
            final(ctx).region == old(ctx).region,
            final(ctx).replay == old(ctx).replay,
            final(ctx).at() >= old(ctx).at(),
            match r {
                Ok(_) => {
                    let n = self.weights.blocks@.len() as int;
                    let m = final(ctx).memory();
                    &&& self.batch_layers_failure(
                        batch,
                        inp,
                        n,
                        old(ctx).used as int,
                        old(ctx).region,
                    ) is None
                    &&& final(ctx).used == old(ctx).used
                    &&& content(m, pro.residual.buffer) == self.batch_hidden(m0, batch, inp, n)
                    &&& ready(final(ctx), pro.residual)
                    &&& self.live(m)
                    &&& undisturbed(m0, m, at0, batch_buffers())
                    &&& forall|i: int|
                        0 <= i < n ==> #[trigger] self.batch_kept(m0, m, batch, inp, i)
                },
                Err(e) => self.batch_layers_failure(
                    batch,
                    inp,
                    self.weights.blocks@.len() as int,
                    old(ctx).used as int,
                    old(ctx).region,
                ) == Some(e),
            },
    {
        let ghost n = self.weights.blocks@.len() as int;
        let ghost first = ctx.memory();
        let mark: u64 = ctx.scratch_checkpoint();
        let base: u64 = ctx.used;
        proof {
            assert(undisturbed(m0, first, at0, batch_buffers()));
            assert forall|j: int| 0 <= j < n implies #[trigger] self.batch_untouched(
                m0,
                first,
                j,
            ) by {
                assert forall|b: Buffer| self.batch_belongs(j, b) implies content(first, b)
                    == content(m0, b) by {}
            }
        }
        let mut i: usize = 0;
        while i < self.weights.blocks.len()
            invariant
                i <= self.weights.blocks@.len(),
                n == self.weights.blocks@.len(),
                self.wf(),
                self.live(m0),
                self.live(ctx.memory()),
                ctx.region == old(ctx).region,
                ctx.replay == old(ctx).replay,
                self.batch_room(batch, count as u64, ctx.region),
                count >= 1,
                inp.n() == count,
                inp.seqs == seqs@,
                inp.decode == decode,
                seqs.wf(count as int, batch.positions@.len() as int),
                decode ==> seqs.slots@.len() == count,
                0 <= at0 <= mark <= ctx.at(),
                mark == old(ctx).at(),
                base == old(ctx).used,
                self.batch_layers_failure(batch, inp, i as int, base as int, ctx.region) is None,
                prologue_done(
                    ctx,
                    at0,
                    pro,
                    self.params.n_embd as u64,
                    count as u64,
                    inp.positions,
                    None,
                    self.batch_hidden(m0, batch, inp, i as int),
                ),
                settled(pro.positions, at0, mark as int, pro.residual.buffer),
                pro.residual.buffer matches Buffer::Scratch { id, bytes: _ } && at0 <= id < mark,
                settled(fa_dyn, at0, mark as int, pro.residual.buffer),
                fa_dyn.buffer != pro.positions.buffer,
                fa_dyn == dense(fa_dyn.buffer, matrix(DECODE_DYN_WORDS, seqs.lens@.len() as u64)),
                covers(fa_dyn),
                reserved(ctx.memory(), fa_dyn.buffer),
                undisturbed(m0, ctx.memory(), at0, batch_buffers()),
                forall|j: int|
                    0 <= j < i ==> #[trigger] self.batch_kept(m0, ctx.memory(), batch, inp, j),
                forall|j: int| i <= j < n ==> #[trigger] self.batch_untouched(m0, ctx.memory(), j),
            decreases self.weights.blocks@.len() - i,
        {
            let ghost m1 = ctx.memory();
            ctx.scratch_restore(mark, base);
            let ghost m2 = ctx.memory();
            let ghost h = self.batch_hidden(m0, batch, inp, i as int);
            proof {
                lemma_released(m1, mark as int);
                assert(ready(ctx, pro.residual) && ready(ctx, pro.positions));
                assert(reserved(m2, fa_dyn.buffer));
                assert forall|b: Buffer|
                    !later(b, at0) && !batch_buffers().contains(b) implies content(m2, b)
                    == content(m0, b) && (reserved(m0, b) ==> reserved(m2, b)) by {
                    assert(content(m1, b) == content(m0, b));
                }
                assert(undisturbed(m0, m2, at0, batch_buffers()));
                assert(weights_live(m2));
                assert forall|b: Buffer| is_state(b) implies !(content(m2, b) is Unset) by {
                    assert(content(m2, b) == content(m1, b));
                }
                assert(states_live(m2));
                assert(self.batch_untouched(m0, m1, i as int));
                assert forall|b: Buffer| self.batch_belongs(i as int, b) implies content(m2, b)
                    == content(m0, b) by {
                    assert(content(m1, b) == content(m0, b));
                }
                assert(self.batch_untouched(m0, m2, i as int));
                if self.batch_layer_failure(batch, inp, i as int, base as int, ctx.region) is Some {
                    self.lemma_batch_failures(batch, inp, i as int, n, base as int, ctx.region);
                }
            }
            self.record_slab_layer(ctx, batch, i, pro, fa_dyn, seqs, count, decode, Ghost(inp))?;
            proof {
                let m3 = ctx.memory();
                self.lemma_same_slab_layer(m2, m0, m3, batch, inp, i as int, h);
                assert(content(m3, pro.residual.buffer) == self.batch_hidden(
                    m0,
                    batch,
                    inp,
                    i + 1,
                ));
                assert(content(m3, pro.positions.buffer) == content(m2, pro.positions.buffer));
                assert(ready(ctx, pro.positions));
                assert forall|b: Buffer|
                    !later(b, at0) && !batch_buffers().contains(b) implies content(m3, b)
                    == content(m0, b) && (reserved(m0, b) ==> reserved(m3, b)) by {
                    assert(content(m2, b) == content(m0, b));
                    assert(!self.batch_belongs(i as int, b));
                }
                assert forall|j: int| 0 <= j < i implies #[trigger] self.batch_kept(
                    m0,
                    m3,
                    batch,
                    inp,
                    j,
                ) by {
                    assert(self.batch_kept(m0, m1, batch, inp, j));
                    assert forall|b: Buffer| #[trigger] self.batch_belongs(j, b) implies content(
                        m3,
                        b,
                    ) == content(m1, b) by {
                        self.lemma_batch_apart(j, i as int, b);
                        assert(content(m2, b) == content(m1, b));
                    }
                    self.lemma_batch_stays(m0, m1, m3, batch, inp, j);
                }
                assert(self.batch_kept(m0, m3, batch, inp, i as int));
                assert forall|j: int| i < j < n implies #[trigger] self.batch_untouched(
                    m0,
                    m3,
                    j,
                ) by {
                    assert(self.batch_untouched(m0, m1, j));
                    assert forall|b: Buffer| self.batch_belongs(j, b) implies content(m3, b)
                        == content(m0, b) by {
                        self.lemma_batch_apart(j, i as int, b);
                        assert(content(m1, b) == content(m0, b));
                        assert(content(m2, b) == content(m1, b));
                    }
                }
            }
            i += 1;
        }
        let ghost m4 = ctx.memory();
        ctx.scratch_restore(mark, base);
        proof {
            lemma_released(m4, mark as int);
            let m5 = ctx.memory();
            assert(ready(ctx, pro.residual));
            assert forall|b: Buffer|
                !later(b, at0) && !batch_buffers().contains(b) implies content(m5, b) == content(
                m0,
                b,
            ) && (reserved(m0, b) ==> reserved(m5, b)) by {
                assert(content(m4, b) == content(m0, b));
            }
            assert(undisturbed(m0, m5, at0, batch_buffers()));
            assert(weights_live(m5));
            assert forall|b: Buffer| is_state(b) implies !(content(m5, b) is Unset) by {
                assert(content(m5, b) == content(m4, b));
            }
            assert(states_live(m5));
            assert forall|j: int| 0 <= j < n implies #[trigger] self.batch_kept(
                m0,
                m5,
                batch,
                inp,
                j,
            ) by {
                assert(self.batch_kept(m0, m4, batch, inp, j));
                assert forall|b: Buffer| #[trigger] self.batch_belongs(j, b) implies content(m5, b)
                    == content(m4, b) by {}
                self.lemma_batch_stays(m0, m4, m5, batch, inp, j);
            }
        }
        Ok(())
    }

    /// Record a batched pass over planned sequences.
    #[verifier::rlimit(40)]
    fn record_slabs(
        &self,
        ctx: &mut DispatchContext<F>,
        batch: &mut BatchKvCache,
        tokens: &[u32],
        positions: &[u32],
        seqs: &Sequences,
        decode: bool,
        Ghost(inp): Ghost<QwenBatch>,
    ) -> (r: Result<TensorView, RecordError>)
        requires
            self.wf(),
            self.live(old(ctx).memory()),
            self.batch_ok(old(batch)),
            1 <= tokens@.len() <= u32::MAX,
            inp == (QwenBatch { tokens: tokens@, positions: positions@, seqs: seqs@, decode }),
            seqs.wf(tokens@.len() as int, old(batch).positions@.len() as int),
            decode ==> seqs.slots@.len() == tokens@.len(),
        ensures
            final(ctx).region == old(ctx).region,
            final(ctx).replay == old(ctx).replay,
            self.batch_recorded(old(ctx), final(ctx), old(batch), final(batch), inp, r),
    {
        let p = &self.params;
        let hidden: u64 = p.n_embd as u64;
        let count: u32 = tokens.len() as u32;
        let n: u64 = count as u64;
        let b: u64 = seqs.lens.len() as u64;
        let ghost m0 = ctx.memory();
        let ghost at0 = ctx.at();
        let ghost layers = self.weights.blocks@.len() as int;
        let ghost before = *batch;
        proof {
            assert(!(content(m0, self.weights.token_embd.buffer) is Unset));
            assert(ready(ctx, self.weights.token_embd));
        }
        let pro = record_prologue(ctx, tokens, positions, None, self.weights.token_embd, hidden)?;
        let ghost m1 = ctx.memory();
        let fa_dyn = ctx.alloc_matrix(DECODE_DYN_WORDS, b)?;
        let ghost m2 = ctx.memory();
        proof {
            assert(content(m2, pro.residual.buffer) == content(m1, pro.residual.buffer));
            assert(content(m2, pro.positions.buffer) == content(m1, pro.positions.buffer));
            assert forall|x: Buffer| !later(x, at0) implies content(m2, x) == content(m0, x) && (
            reserved(m0, x) ==> reserved(m2, x)) by {
                assert(content(m1, x) == content(m0, x));
            }
            assert(undisturbed(m0, m2, at0, Set::empty()));
            assert(weights_live(m2));
            assert forall|x: Buffer| is_state(x) implies !(content(m2, x) is Unset) by {
                assert(content(m2, x) == content(m0, x));
            }
            assert(states_live(m2));
        }
        self.record_slab_layers(
            ctx,
            &*batch,
            pro,
            fa_dyn,
            seqs,
            count,
            decode,
            Ghost(inp),
            Ghost(m0),
            Ghost(at0),
        )?;
        let ghost m3 = ctx.memory();
        let ghost at3 = ctx.at();
        let last = if decode {
            pro.residual
        } else {
            record_gather(ctx, pro.residual, seqs, hidden, n, batch.positions.len())?
        };
        let ghost m4 = ctx.memory();
        let head = match self.weights.output {
            Some(t) => t,
            None => self.weights.token_embd,
        };
        proof {
            assert forall|x: Buffer| !later(x, at3) implies content(m4, x) == content(m3, x) && (
            reserved(m3, x) ==> reserved(m4, x)) by {}
            assert(content(m4, self.weights.output_norm.buffer) == content(
                m0,
                self.weights.output_norm.buffer,
            ));
            assert(content(m4, head.buffer) == content(m0, head.buffer));
            assert(ready(ctx, self.weights.output_norm) && ready(ctx, head));
        }
        let logits = record_head(
            ctx,
            p.rms_eps,
            last,
            self.weights.output_norm,
            head,
            hidden,
            p.n_vocab as u64,
            b,
        )?;
        proof {
            let m5 = ctx.memory();
            assert forall|x: Buffer| !later(x, at3) implies content(m5, x) == content(m3, x) && (
            reserved(m3, x) ==> reserved(m5, x)) by {
                assert(content(m4, x) == content(m3, x));
            }
            assert forall|x: Buffer| !later(x, at0) && !batch_buffers().contains(x) implies content(
                m5,
                x,
            ) == content(m0, x) && (reserved(m0, x) ==> reserved(m5, x)) by {
                assert(content(m3, x) == content(m0, x));
                assert(!later(x, at3));
            }
            assert(undisturbed(m0, m5, at0, batch_buffers()));
            assert(weights_live(m5));
            assert forall|x: Buffer| is_state(x) implies !(content(m5, x) is Unset) by {
                assert(content(m5, x) == content(m3, x));
            }
            assert(states_live(m5));
            assert forall|j: int| 0 <= j < layers implies #[trigger] self.batch_kept(
                m0,
                m5,
                &before,
                inp,
                j,
            ) by {
                assert(self.batch_kept(m0, m3, &before, inp, j));
                assert forall|x: Buffer| #[trigger] self.batch_belongs(j, x) implies content(m5, x)
                    == content(m3, x) by {}
                self.lemma_batch_stays(m0, m3, m5, &before, inp, j);
            }
            assert forall|s: int| 0 <= s < seqs.slots@.len() implies (#[trigger] seqs.slots@[s])
                < batch.positions@.len() by {
                assert(seqs.placed(s, n as int, batch.positions@.len() as int));
            }
        }
        batch.set_positions(seqs.slots.as_slice(), seqs.kv_lens.as_slice());
        Ok(logits)
    }

    /// Record a batched decode: one token for each of several sequences.
    /// `slots[s]` is the slab of sequence `s`, whose token is cached at
    /// `positions[s]`. The result holds the logits of sequence `s` in column `s`.
    pub fn record_forward_batch(
        &self,
        ctx: &mut DispatchContext<F>,
        batch: &mut BatchKvCache,
        tokens: &[u32],
        positions: &[u32],
        slots: &[u32],
    ) -> (r: Result<TensorView, RecordError>)
        requires
            self.wf(),
            self.live(old(ctx).memory()),
            self.batch_ok(old(batch)),
            tokens@.len() <= u32::MAX,
            slots_ok(old(batch), slots@),
            forall|s: int| 0 <= s < positions@.len() ==> (#[trigger] positions@[s]) < u32::MAX,
        ensures
            final(ctx).region == old(ctx).region,
            final(ctx).replay == old(ctx).replay,
            if tokens@.len() == 0 {
                r == Err::<TensorView, _>(RecordError::EmptyBatch) && *final(batch) == *old(batch)
            } else if positions@.len() != tokens@.len() || slots@.len() != tokens@.len() {
                &&& r == Err::<TensorView, _>(RecordError::LengthMismatch)
                &&& *final(batch) == *old(batch)
            } else {
                self.batch_recorded(
                    old(ctx),
                    final(ctx),
                    old(batch),
                    final(batch),
                    QwenBatch {
                        tokens: tokens@,
                        positions: four(positions@),
                        seqs: decode_plan(positions@, slots@),
                        decode: true,
                    },
                    r,
                )
            },
    {
        let n: usize = tokens.len();
        if n == 0 {
            return Err(RecordError::EmptyBatch);
        }
        if positions.len() != n || slots.len() != n {
            return Err(RecordError::LengthMismatch);
        }
        let seqs = decode_sequences(positions, slots);
        let axes = four_axes(positions);
        proof {
            assert forall|s: int| 0 <= s < seqs.lens@.len() implies #[trigger] seqs.placed(
                s,
                n as int,
                batch.positions@.len() as int,
            ) by {
                assert(seqs@.slots[s] == slots@[s] && seqs@.lens[s] == 1 && seqs@.starts[s] == s);
            }
            assert(seqs.wf(n as int, batch.positions@.len() as int));
        }
        self.record_slabs(
            ctx,
            batch,
            tokens,
            axes.as_slice(),
            &seqs,
            true,
            Ghost(
                QwenBatch {
                    tokens: tokens@,
                    positions: four(positions@),
                    seqs: decode_plan(positions@, slots@),
                    decode: true,
                },
            ),
        )
    }

    /// Record a pass over packed sequences: sequence `s` brings `seq_lens[s]`
    /// tokens, a stretch of prompt or one decoded token, continuing slab
    /// `slots[s]` where it stands; `positions` holds rotary positions only.
    /// Column `s` of the result holds the logits of sequence `s`'s last token.
    pub fn record_forward_unified(
        &self,
        ctx: &mut DispatchContext<F>,
        batch: &mut BatchKvCache,
        tokens: &[u32],
        positions: &[u32],
        seq_lens: &[u32],
        slots: &[u32],
    ) -> (r: Result<TensorView, RecordError>)
        requires
            self.wf(),
            self.live(old(ctx).memory()),
            self.batch_ok(old(batch)),
            tokens@.len() <= u32::MAX,
            seq_lens@.len() <= u32::MAX,
            slots_ok(old(batch), slots@),
            unified_shapes(tokens@, positions@, seq_lens@, slots@) ==> forall|s: int|
                0 <= s < seq_lens@.len() ==> #[trigger] slab_ok(
                    old(batch).positions@,
                    seq_lens@,
                    slots@,
                    s,
                ),
        ensures
            final(ctx).region == old(ctx).region,
            final(ctx).replay == old(ctx).replay,
            if seq_lens@.len() == 0 || tokens@.len() == 0 {
                r == Err::<TensorView, _>(RecordError::EmptyBatch) && *final(batch) == *old(batch)
            } else if positions@.len() != tokens@.len() || slots@.len() != seq_lens@.len() {
                &&& r == Err::<TensorView, _>(RecordError::LengthMismatch)
                &&& *final(batch) == *old(batch)
            } else if total(seq_lens@) != tokens@.len() {
                r == Err::<TensorView, _>(RecordError::LengthSum) && *final(batch) == *old(batch)
            } else {
                self.batch_recorded(
                    old(ctx),
                    final(ctx),
                    old(batch),
                    final(batch),
                    QwenBatch {
                        tokens: tokens@,
                        positions: four(positions@),
                        seqs: slab_plan(old(batch).positions@, seq_lens@, slots@),
                        decode: false,
                    },
                    r,
                )
            },
    {
        let n: usize = tokens.len();
        let nb: usize = seq_lens.len();
        if nb == 0 || n == 0 {
            return Err(RecordError::EmptyBatch);
        }
        if positions.len() != n || slots.len() != nb {
            return Err(RecordError::LengthMismatch);
        }
        if sum_lens(seq_lens) != n as u64 {
            return Err(RecordError::LengthSum);
        }
        let seqs = slab_sequences(batch.positions.as_slice(), seq_lens, slots);
        let axes = four_axes(positions);
        proof {
            assert forall|s: int| 0 <= s < seqs.lens@.len() implies #[trigger] seqs.placed(
                s,
                n as int,
                batch.positions@.len() as int,
            ) by {
                assert(seqs@.slots[s] == slots@[s]);
                assert(slab_ok(batch.positions@, seq_lens@, slots@, s));
                lemma_starts(seq_lens@, s + 1, seq_lens@.len() as int);
                lemma_starts(seq_lens@, 0, s);
            }
            assert(seqs.wf(n as int, batch.positions@.len() as int));
        }
        let ghost plan = slab_plan(old(batch).positions@, seq_lens@, slots@);
        self.record_slabs(
            ctx,
            batch,
            tokens,
            axes.as_slice(),
            &seqs,
            false,
            Ghost(
                QwenBatch {
                    tokens: tokens@,
                    positions: four(positions@),
                    seqs: plan,
                    decode: false,
                },
            ),
        )
    }
}

/// The plan of packed sequences that go on where their slabs stand.
pub open spec fn slab_plan(cached: Seq<u32>, lens: Seq<u32>, slots: Seq<u32>) -> SeqPlan {
    SeqPlan {
        lens,
        starts: Seq::new(lens.len(), |s: int| start_of(lens, s) as u64),
        bases: Seq::new(lens.len(), |s: int| cached[slots[s] as int]),
        slots,
        kv_lens: Seq::new(lens.len(), |s: int| (cached[slots[s] as int] + lens[s]) as u32),
    }
}

/// Sequence `s` has a token and ends within 32 bits.
pub open spec fn slab_ok(cached: Seq<u32>, lens: Seq<u32>, slots: Seq<u32>, s: int) -> bool {
    &&& lens[s] >= 1
    &&& slots[s] < cached.len()
    &&& cached[slots[s] as int] + lens[s] <= u32::MAX
}

/// Plan packed sequences that go on where their slabs stand.
pub fn slab_sequences(cached: &[u32], seq_lens: &[u32], slots: &[u32]) -> (r: Sequences)
    requires
        slots@.len() == seq_lens@.len(),
        total(seq_lens@) <= u32::MAX,
        forall|s: int|
            0 <= s < seq_lens@.len() ==> #[trigger] slab_ok(cached@, seq_lens@, slots@, s),
    ensures
        r@ == slab_plan(cached@, seq_lens@, slots@),
{
    let mut starts: Vec<u64> = Vec::new();
    let mut bases: Vec<u32> = Vec::new();
    let mut kv_lens: Vec<u32> = Vec::new();
    let ghost plan = slab_plan(cached@, seq_lens@, slots@);
    let mut start: u64 = 0;
    let mut s: usize = 0;
    while s < seq_lens.len()
        invariant
            s <= seq_lens@.len(),
            slots@.len() == seq_lens@.len(),
            plan == slab_plan(cached@, seq_lens@, slots@),
            total(seq_lens@) <= u32::MAX,
            start == start_of(seq_lens@, s as int),
            forall|j: int|
                0 <= j < seq_lens@.len() ==> #[trigger] slab_ok(cached@, seq_lens@, slots@, j),
            starts@ == plan.starts.take(s as int),
            bases@ == plan.bases.take(s as int),
            kv_lens@ == plan.kv_lens.take(s as int),
        decreases seq_lens@.len() - s,
    {
        proof {
            assert(slab_ok(cached@, seq_lens@, slots@, s as int));
            lemma_starts(seq_lens@, s + 1, seq_lens@.len() as int);
        }
        let base: u32 = cached[slots[s] as usize];
        starts.push(start);
        bases.push(base);
        kv_lens.push(base + seq_lens[s]);
        assert(starts@ =~= plan.starts.take(s + 1));
        assert(bases@ =~= plan.bases.take(s + 1));
        assert(kv_lens@ =~= plan.kv_lens.take(s + 1));
        start = start + seq_lens[s] as u64;
        s += 1;
    }
    assert(starts@ =~= plan.starts && bases@ =~= plan.bases && kv_lens@ =~= plan.kv_lens);
    Sequences {
        lens: vstd::slice::slice_to_vec(seq_lens),
        starts,
        bases,
        slots: vstd::slice::slice_to_vec(slots),
        kv_lens,
    }
}

} // verus!
