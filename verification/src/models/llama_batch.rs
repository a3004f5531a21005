//! Batched passes of the LLaMA architecture: several sequences at once, each
//! over its own slab of the cache.
use vstd::prelude::*;

use crate::models::blocks::{
    alloc_headed, embedded, gated_bytes, gated_ready, gated_term, gathered_all, head_bytes,
    head_term, lemma_heads_within, lemma_released, projected, projection_bytes, prologue_bytes,
    prologue_done, ready, record_gated_residual, record_gather, record_head, record_projections,
    record_prologue, record_slab_writes, settled, slab_term, undisturbed, words_term, GatedWeights,
    ProjectionWeights, SeqPlan, Sequences,
};
use crate::models::cache::{advanced, BatchKvCache};
use crate::models::llama::{for_attn, llama_k, llama_q, LlamaBlockWeights, LlamaModel, LlamaParams};
use crate::models::masks::{lemma_starts, start_of, sum_lens, total};
use crate::models::recorder::{
    content, fresh, later, op2, op3_opt, quiet, read, reserved, spends, through, DispatchContext,
    Fence, Memory, Op, RecordError, Term,
};
use crate::models::tensor::{
    covers, dense, dims4, headed, matrix, permute_to_attn, reshape_for_rope, size, Buffer, Dims,
    TensorView,
};

verus! {

/// Words of device state per sequence of a batched pass.
pub const DECODE_DYN_WORDS: u64 = 8;

/// Queries of one token per sequence, as batched attention wants them: one row
/// for each head of each sequence, `stride` elements from sequence to sequence.
pub open spec fn batched_q(t: TensorView, head_dim: u64, heads: u64, b: u64, stride: u64) -> TensorView {
    TensorView {
        dims: Dims { d0: head_dim, d1: 1, d2: heads, d3: b },
        byte_stride: dims4(
            t.byte_stride.d0 as int,
            t.byte_stride.d0 * head_dim,
            t.byte_stride.d0 * head_dim,
            t.byte_stride.d0 * stride,
        ),
        element_stride: Dims { d0: 1, d1: head_dim, d2: head_dim, d3: stride },
        ..t
    }
}

/// Reinterpret `[head_dim, heads, b]` queries for batched attention.
pub fn batched_q_attn_view(t: TensorView, head_dim: u64, n_head: u64, b: u64, stride: u64) -> (r:
    TensorView)
    requires
        t.byte_stride.d0 * head_dim <= u64::MAX,
        t.byte_stride.d0 * stride <= u64::MAX,
    ensures
        r == batched_q(t, head_dim, n_head, b, stride),
{
    let elem: u64 = t.byte_stride.d0;
    TensorView {
        dims: Dims { d0: head_dim, d1: 1, d2: n_head, d3: b },
        byte_stride: Dims {
            d0: elem,
            d1: elem * head_dim,
            d2: elem * head_dim,
            d3: elem * stride,
        },
        element_stride: Dims { d0: 1, d1: head_dim, d2: head_dim, d3: stride },
        ..t
    }
}

/// Everything that decides what a batched pass computes, apart from the weights.
pub struct BatchPass {
    /// Tokens in the packed stream.
    pub n_total: u64,
    /// Every sequence brings one token.
    pub decode: bool,
}

/// What attention is told of the sequences.
pub open spec fn lengths_term<F>(seqs: SeqPlan, decode: bool) -> Term<F> {
    fresh(
        Term::Lengths {
            kv: seqs.kv_lens,
            slots: seqs.slots,
            queries: if decode {
                None
            } else {
                Some(seqs.lens)
            },
        },
        matrix(DECODE_DYN_WORDS, seqs.lens.len() as u64),
    )
}

/// The key slabs of a layer after the pass.
pub open spec fn llama_k_slabs<F: Copy>(
    m: Memory<F>,
    p: &LlamaParams<F>,
    b: LlamaBlockWeights,
    batch: &BatchKvCache,
    layer: int,
    seqs: SeqPlan,
    x: Term<F>,
    positions: Term<F>,
    n_total: u64,
) -> Term<F> {
    slab_term(
        m,
        batch.k_slab@[layer],
        batch.k_slab_bytes,
        llama_k(m, p, b, x, positions, n_total),
        seqs,
        p.head() as u64,
        p.n_head_kv as u64,
        seqs.lens.len() as int,
    )
}

/// The value slabs of a layer after the pass.
pub open spec fn llama_v_slabs<F: Copy>(
    m: Memory<F>,
    p: &LlamaParams<F>,
    b: LlamaBlockWeights,
    batch: &BatchKvCache,
    layer: int,
    seqs: SeqPlan,
    x: Term<F>,
    n_total: u64,
) -> Term<F> {
    slab_term(
        m,
        batch.v_slab@[layer],
        batch.v_slab_bytes,
        projected(m, p.rms_eps, x, b.attn_norm, b.wv, p.n_embd as u64, n_total),
        seqs,
        p.head() as u64,
        p.n_head_kv as u64,
        seqs.lens.len() as int,
    )
}

/// The hidden state after a layer of a batched pass.
pub open spec fn llama_batch_layer<F: Copy>(
    m: Memory<F>,
    p: &LlamaParams<F>,
    b: LlamaBlockWeights,
    batch: &BatchKvCache,
    layer: int,
    seqs: SeqPlan,
    h: Term<F>,
    positions: Term<F>,
    pass: BatchPass,
) -> Term<F> {
    let n = pass.n_total;
    let cols = matrix(p.n_embd as u64, n);
    let x = fresh(h, cols);
    let q = llama_q(m, p, b, x, positions, n);
    let q_read = if pass.decode {
        through(
            q,
            batched_q(
                dense(
                    Buffer::Scratch { id: 0, bytes: 0 },
                    headed(p.head() as u64, p.n_head as u64, n),
                ),
                p.head() as u64,
                p.n_head as u64,
                n,
                p.n_embd as u64,
            ),
        )
    } else {
        for_attn(q, p.head() as u64, p.n_head as u64, n)
    };
    let out = op3_opt(
        Op::FlashAttnBatched { params: p.attn() },
        q_read,
        through(
            llama_k_slabs(m, p, b, batch, layer, seqs, x, positions, n),
            batch.k_attn@[layer],
        ),
        through(llama_v_slabs(m, p, b, batch, layer, seqs, x, n), batch.v_attn@[layer]),
        Some(lengths_term(seqs, pass.decode)),
    );
    let mid = fresh(
        op2(Op::Add, x, fresh(op2(Op::MatMul, read(m, b.wo), fresh(out, cols)), cols)),
        cols,
    );
    op2(
        Op::Add,
        mid,
        gated_term(m, Op::Silu, p.rms_eps, mid, b.gated(), p.n_embd as u64, p.n_ff as u64, n),
    )
}

/// Scratch that a layer of a batched pass takes.
pub open spec fn llama_batch_bytes<F: Copy>(p: &LlamaParams<F>, n: u64) -> nat {
    let hidden = p.n_embd as u64;
    let kv = p.kv_width() as u64;
    let head = p.head() as u64;
    projection_bytes(hidden, hidden, kv, kv, n) + size(headed(head, p.n_head as u64, n)) + size(
        headed(head, p.n_head_kv as u64, n),
    ) + 2 * size(matrix(hidden, n)) + gated_bytes(hidden, p.n_ff as u64, n)
}

/// Record a layer of a batched pass.
#[verifier::rlimit(30)]
pub fn record_batch_layer<F: Copy>(
    ctx: &mut DispatchContext<F>,
    p: &LlamaParams<F>,
    b: &LlamaBlockWeights,
    batch: &BatchKvCache,
    layer: usize,
    seqs: &Sequences,
    residual: TensorView,
    positions: TensorView,
    fa_dyn: TensorView,
    pass: &BatchPass,
) -> (r: Result<(), RecordError>)
    requires
        p.wf(),
        pass.n_total >= 1,
        quiet(old(ctx).memory()),
        residual == dense(residual.buffer, matrix(p.n_embd as u64, pass.n_total)),
        covers(residual),
        ready(old(ctx), residual),
        ready(old(ctx), positions),
        positions.buffer is Scratch,
        positions.buffer != residual.buffer,
        fa_dyn == dense(fa_dyn.buffer, matrix(DECODE_DYN_WORDS, seqs.lens@.len() as u64)),
        covers(fa_dyn),
        reserved(old(ctx).memory(), fa_dyn.buffer) && old(ctx).known(fa_dyn.buffer),
        fa_dyn.buffer != residual.buffer,
        fa_dyn.buffer != positions.buffer,
        b.ready(old(ctx)),
        b.apart(),
        batch.layered(layer as int + 1),
        seqs.wf(pass.n_total as int, batch.positions@.len() as int),
    ensures
        final(ctx).region == old(ctx).region,
        final(ctx).replay == old(ctx).replay,
        final(ctx).at() >= old(ctx).at(),
        r matches Err(e) ==> e is ScratchExhausted,
        spends(old(ctx), final(ctx), r is Ok, llama_batch_bytes(p, pass.n_total)),
        r is Ok ==> {
            let m = old(ctx).memory();
            let x = read(m, residual);
            &&& content(final(ctx).memory(), residual.buffer) == llama_batch_layer(
                m,
                p,
                *b,
                batch,
                layer as int,
                seqs@,
                content(m, residual.buffer),
                read(m, positions),
                *pass,
            )
            &&& content(final(ctx).memory(), Buffer::KeySlabs(layer as u64)) == llama_k_slabs(
                m,
                p,
                *b,
                batch,
                layer as int,
                seqs@,
                x,
                read(m, positions),
                pass.n_total,
            )
            &&& content(final(ctx).memory(), Buffer::ValueSlabs(layer as u64)) == llama_v_slabs(
                m,
                p,
                *b,
                batch,
                layer as int,
                seqs@,
                x,
                pass.n_total,
            )
            &&& quiet(final(ctx).memory())
            &&& undisturbed(
                m,
                final(ctx).memory(),
                old(ctx).at(),
                set![
                    residual.buffer,
                    fa_dyn.buffer,
                    Buffer::KeySlabs(layer as u64),
                    Buffer::ValueSlabs(layer as u64),
                ],
            )
            &&& reserved(final(ctx).memory(), fa_dyn.buffer)
        },
{
    let hidden: u64 = p.n_embd as u64;
    let head_dim: u64 = p.head_dim() as u64;
    let n_head: u64 = p.n_head as u64;
    let n_head_kv: u64 = p.n_head_kv as u64;
    let kv: u64 = p.n_embd_kv() as u64;
    let n: u64 = pass.n_total;
    let ghost m0 = ctx.memory();
    let ghost kb = Buffer::KeySlabs(layer as u64);
    let ghost vb = Buffer::ValueSlabs(layer as u64);
    proof {
        assert(batch.layer_named(layer as int));
        assert(head_dim * n_head <= hidden) by (nonlinear_arith)
            requires
                head_dim == hidden / n_head,
                n_head > 0,
        ;
    }
    let (q, k, v) = record_projections(
        ctx,
        p.rms_eps,
        residual,
        ProjectionWeights { norm: b.attn_norm, wq: b.wq, wk: b.wk, wv: b.wv },
        hidden,
        hidden,
        kv,
        kv,
        n,
    )?;
    let ghost m1 = ctx.memory();
    proof {
        assert(ready(ctx, positions) && ready(ctx, residual) && ready(ctx, b.wo));
        assert(reserved(m1, fa_dyn.buffer));
        assert(content(m1, kb) == content(m0, kb) && content(m1, vb) == content(m0, vb));
        lemma_heads_within(head_dim, n_head, hidden, n, ctx.region);
        lemma_heads_within(head_dim, n_head_kv, kv, n, ctx.region);
    }
    let q_view = reshape_for_rope(q, head_dim, n_head, n);
    let k_view = reshape_for_rope(k, head_dim, n_head_kv, n);
    let q_roped = alloc_headed(ctx, head_dim, n_head, n)?;
    let k_roped = alloc_headed(ctx, head_dim, n_head_kv, n)?;
    ctx.apply2(Op::Rope { params: p.rope_params() }, q_view, positions, q_roped, Fence::No);
    ctx.apply2(Op::Rope { params: p.rope_params() }, k_view, positions, k_roped, Fence::No);
    ctx.barrier2(q_roped, k_roped);
    let k_natural = reshape_for_rope(k_roped, head_dim, n_head_kv, n);
    let v_natural = reshape_for_rope(v, head_dim, n_head_kv, n);
    let ghost m2 = ctx.memory();
    record_slab_writes(
        ctx,
        batch,
        layer,
        k_natural,
        v_natural,
        seqs,
        head_dim,
        head_dim,
        n_head_kv,
        n,
    );
    let ghost m3 = ctx.memory();
    assert(ready(ctx, q_roped) && ready(ctx, residual) && ready(ctx, b.wo));
    assert(reserved(m3, fa_dyn.buffer));
    let q_attn = if pass.decode {
        proof {
            assert(4 * hidden <= 4 * hidden * n) by (nonlinear_arith)
                requires
                    n >= 1,
            ;
        }
        batched_q_attn_view(q_roped, head_dim, n_head, n, hidden)
    } else {
        permute_to_attn(q_roped, head_dim, n, n_head)
    };
    let k_attn = batch.k_attn[layer];
    let v_attn = batch.v_attn[layer];
    let out = ctx.alloc_matrix(hidden, n)?;
    let queries: Option<&[u32]> = if pass.decode {
        None
    } else {
        Some(seqs.lens.as_slice())
    };
    ctx.write_lengths(fa_dyn, seqs.kv_lens.as_slice(), seqs.slots.as_slice(), queries);
    ctx.apply3_opt(
        Op::FlashAttnBatched { params: p.attn_params() },
        q_attn,
        k_attn,
        v_attn,
        Some(fa_dyn),
        out,
        Fence::Own,
    );
    let proj = ctx.alloc_matrix(hidden, n)?;
    ctx.apply2(Op::MatMul, b.wo, out, proj, Fence::Own);
    ctx.apply2(Op::Add, residual, proj, residual, Fence::Own);
    let ghost m4 = ctx.memory();
    let w = GatedWeights {
        norm: b.ffn_norm,
        gate: b.ffn_gate,
        up: b.ffn_up,
        down: b.ffn_down,
    };
    proof {
        assert forall|x: Buffer|
            !later(x, old(ctx).at()) && !set![residual.buffer, fa_dyn.buffer, kb, vb].contains(
                x,
            ) implies content(m4, x) == content(m0, x) && (reserved(m0, x) ==> reserved(m4, x)) by {
            assert(content(m1, x) == content(m0, x));
            assert(content(m3, x) == content(m2, x));
        }
        assert(gated_ready(ctx, w));
    }
    record_gated_residual(ctx, Op::Silu, p.rms_eps, residual, w, hidden, p.n_ff as u64, n)?;
    proof {
        let m5 = ctx.memory();
        assert(content(m5, kb) == content(m4, kb) && content(m5, vb) == content(m4, vb));
        assert(reserved(m5, fa_dyn.buffer));
        assert forall|x: Buffer|
            !later(x, old(ctx).at()) && !set![residual.buffer, fa_dyn.buffer, kb, vb].contains(
                x,
            ) implies content(m5, x) == content(m0, x) && (reserved(m0, x) ==> reserved(m5, x)) by {
            assert(content(m4, x) == content(m0, x));
        }
    }
    Ok(())
}

/// The slab buffers of the batch cache.
pub open spec fn slab_buffers() -> Set<Buffer> {
    Set::new(|b: Buffer| b is KeySlabs || b is ValueSlabs)
}

/// Both slab buffers of a layer hold what they held.
pub open spec fn slabs_untouched<F>(before: Memory<F>, after: Memory<F>, layer: int) -> bool {
    &&& content(after, Buffer::KeySlabs(layer as u64)) == content(
        before,
        Buffer::KeySlabs(layer as u64),
    )
    &&& content(after, Buffer::ValueSlabs(layer as u64)) == content(
        before,
        Buffer::ValueSlabs(layer as u64),
    )
}

/// A layer's weights and slabs hold the same in both memories.
pub open spec fn same_batch_inputs<F>(
    a: Memory<F>,
    c: Memory<F>,
    b: LlamaBlockWeights,
    layer: int,
) -> bool {
    &&& content(a, b.attn_norm.buffer) == content(c, b.attn_norm.buffer)
    &&& content(a, b.wq.buffer) == content(c, b.wq.buffer)
    &&& content(a, b.wk.buffer) == content(c, b.wk.buffer)
    &&& content(a, b.wv.buffer) == content(c, b.wv.buffer)
    &&& content(a, b.wo.buffer) == content(c, b.wo.buffer)
    &&& content(a, b.ffn_norm.buffer) == content(c, b.ffn_norm.buffer)
    &&& content(a, b.ffn_gate.buffer) == content(c, b.ffn_gate.buffer)
    &&& content(a, b.ffn_up.buffer) == content(c, b.ffn_up.buffer)
    &&& content(a, b.ffn_down.buffer) == content(c, b.ffn_down.buffer)
    &&& slabs_untouched(a, c, layer)
}

/// What a layer does depends on memory through its weights and slabs alone.
proof fn lemma_same_batch_layer<F: Copy>(
    a: Memory<F>,
    c: Memory<F>,
    p: &LlamaParams<F>,
    b: LlamaBlockWeights,
    batch: &BatchKvCache,
    layer: int,
    seqs: SeqPlan,
    h: Term<F>,
    positions: Term<F>,
    pass: BatchPass,
)
    requires
        same_batch_inputs(a, c, b, layer),
        batch.layer_named(layer),
    ensures
        llama_batch_layer(a, p, b, batch, layer, seqs, h, positions, pass) == llama_batch_layer(
            c,
            p,
            b,
            batch,
            layer,
            seqs,
            h,
            positions,
            pass,
        ),
        forall|x: Term<F>|
            llama_k_slabs(a, p, b, batch, layer, seqs, x, positions, pass.n_total)
                == #[trigger] llama_k_slabs(
                c,
                p,
                b,
                batch,
                layer,
                seqs,
                x,
                positions,
                pass.n_total,
            ),
        forall|x: Term<F>|
            llama_v_slabs(a, p, b, batch, layer, seqs, x, pass.n_total)
                == #[trigger] llama_v_slabs(c, p, b, batch, layer, seqs, x, pass.n_total),
{
}

/// The plan of a decode batch: one token for each sequence.
pub open spec fn decode_plan(positions: Seq<u32>, slots: Seq<u32>) -> SeqPlan {
    SeqPlan {
        lens: Seq::new(positions.len(), |s: int| 1u32),
        starts: Seq::new(positions.len(), |s: int| s as u64),
        bases: positions,
        slots,
        kv_lens: Seq::new(positions.len(), |s: int| (positions[s] + 1) as u32),
    }
}

/// Plan a decode batch.
pub fn decode_sequences(positions: &[u32], slots: &[u32]) -> (r: Sequences)
    requires
        slots@.len() == positions@.len(),
        forall|s: int| 0 <= s < positions@.len() ==> (#[trigger] positions@[s]) < u32::MAX,
    ensures
        r@ == decode_plan(positions@, slots@),
{
    let mut lens: Vec<u32> = Vec::new();
    let mut starts: Vec<u64> = Vec::new();
    let mut kv_lens: Vec<u32> = Vec::new();
    let ghost plan = decode_plan(positions@, slots@);
    let mut s: usize = 0;
    while s < positions.len()
        invariant
            s <= positions@.len(),
            plan == decode_plan(positions@, slots@),
            forall|j: int| 0 <= j < positions@.len() ==> (#[trigger] positions@[j]) < u32::MAX,
            lens@ == plan.lens.take(s as int),
            starts@ == plan.starts.take(s as int),
            kv_lens@ == plan.kv_lens.take(s as int),
        decreases positions@.len() - s,
    {
        lens.push(1);
        starts.push(s as u64);
        kv_lens.push(positions[s] + 1);
        assert(lens@ =~= plan.lens.take(s + 1));
        assert(starts@ =~= plan.starts.take(s + 1));
        assert(kv_lens@ =~= plan.kv_lens.take(s + 1));
        s += 1;
    }
    assert(lens@ =~= plan.lens && starts@ =~= plan.starts && kv_lens@ =~= plan.kv_lens);
    Sequences {
        lens,
        starts,
        bases: vstd::slice::slice_to_vec(positions),
        slots: vstd::slice::slice_to_vec(slots),
        kv_lens,
    }
}

/// The plan of packed sequences: sequence `s` brings `lens[s]` tokens, cached
/// from its first token's position on.
pub open spec fn packed_plan(positions: Seq<u32>, lens: Seq<u32>, slots: Seq<u32>) -> SeqPlan {
    SeqPlan {
        lens,
        starts: Seq::new(lens.len(), |s: int| start_of(lens, s) as u64),
        bases: Seq::new(lens.len(), |s: int| positions[start_of(lens, s)]),
        slots,
        kv_lens: Seq::new(lens.len(), |s: int| (positions[start_of(lens, s)] + lens[s]) as u32),
    }
}

/// Every packed sequence has a token and ends within 32 bits.
pub open spec fn packed_ok(positions: Seq<u32>, lens: Seq<u32>, s: int) -> bool {
    &&& lens[s] >= 1
    &&& positions[start_of(lens, s)] + lens[s] <= u32::MAX
}

/// Plan packed sequences.
pub fn packed_sequences(positions: &[u32], seq_lens: &[u32], slots: &[u32]) -> (r: Sequences)
    requires
        slots@.len() == seq_lens@.len(),
        seq_lens@.len() <= u32::MAX,
        total(seq_lens@) == positions@.len(),
        forall|s: int|
            0 <= s < seq_lens@.len() ==> #[trigger] packed_ok(positions@, seq_lens@, s),
    ensures
        r@ == packed_plan(positions@, seq_lens@, slots@),
{
    let n: usize = positions.len();
    let mut starts: Vec<u64> = Vec::new();
    let mut bases: Vec<u32> = Vec::new();
    let mut kv_lens: Vec<u32> = Vec::new();
    let ghost plan = packed_plan(positions@, seq_lens@, slots@);
    let mut start: usize = 0;
    let mut s: usize = 0;
    while s < seq_lens.len()
        invariant
            s <= seq_lens@.len(),
            n == positions@.len(),
            plan == packed_plan(positions@, seq_lens@, slots@),
            total(seq_lens@) == positions@.len(),
            start == start_of(seq_lens@, s as int),
            forall|j: int|
                0 <= j < seq_lens@.len() ==> #[trigger] packed_ok(positions@, seq_lens@, j),
            starts@ == plan.starts.take(s as int),
            bases@ == plan.bases.take(s as int),
            kv_lens@ == plan.kv_lens.take(s as int),
        decreases seq_lens@.len() - s,
    {
        proof {
            assert(packed_ok(positions@, seq_lens@, s as int));
            lemma_starts(seq_lens@, s + 1, seq_lens@.len() as int);
        }
        starts.push(start as u64);
        bases.push(positions[start]);
        kv_lens.push(positions[start] + seq_lens[s]);
        assert(starts@ =~= plan.starts.take(s + 1));
        assert(bases@ =~= plan.bases.take(s + 1));
        assert(kv_lens@ =~= plan.kv_lens.take(s + 1));
        start = start + seq_lens[s] as usize;
        s += 1;
    }
    assert(starts@ =~= plan.starts && bases@ =~= plan.bases && kv_lens@ =~= plan.kv_lens);
    Sequences {
        lens: vstd::slice::slice_to_vec(seq_lens),
        starts,
        bases,
        slots: vstd::slice::slice_to_vec(slots),
        kv_lens,
    }
}

impl<F: Copy> LlamaModel<F> {
    /// The hidden states of a batched pass after the first `n` layers.
    pub open spec fn batch_hidden(
        &self,
        m: Memory<F>,
        batch: &BatchKvCache,
        seqs: SeqPlan,
        tokens: Seq<u32>,
        positions: Seq<u32>,
        pass: BatchPass,
        n: int,
    ) -> Term<F>
        decreases n,
    {
        if n <= 0 {
            embedded(m, self.weights.token_embd, tokens)
        } else {
            llama_batch_layer(
                m,
                &self.params,
                self.weights.blocks@[n - 1],
                batch,
                n - 1,
                seqs,
                self.batch_hidden(m, batch, seqs, tokens, positions, pass, n - 1),
                words_term(positions),
                pass,
            )
        }
    }

    /// Layer `i` of the slabs holds what the pass leaves there.
    pub open spec fn slabs_cached(
        &self,
        m: Memory<F>,
        after: Memory<F>,
        batch: &BatchKvCache,
        seqs: SeqPlan,
        tokens: Seq<u32>,
        positions: Seq<u32>,
        pass: BatchPass,
        i: int,
    ) -> bool {
        let x = fresh(
            self.batch_hidden(m, batch, seqs, tokens, positions, pass, i),
            matrix(self.params.n_embd as u64, pass.n_total),
        );
        &&& content(after, Buffer::KeySlabs(i as u64)) == llama_k_slabs(
            m,
            &self.params,
            self.weights.blocks@[i],
            batch,
            i,
            seqs,
            x,
            words_term(positions),
            pass.n_total,
        )
        &&& content(after, Buffer::ValueSlabs(i as u64)) == llama_v_slabs(
            m,
            &self.params,
            self.weights.blocks@[i],
            batch,
            i,
            seqs,
            x,
            pass.n_total,
        )
    }

    /// Bytes in use after the inputs of a batched pass, where `used` were before.
    pub open spec fn batch_end(&self, n_total: u64, b: u64, used: u64) -> nat {
        used as nat + prologue_bytes(n_total, n_total, false, self.params.n_embd as u64) + size(
            matrix(DECODE_DYN_WORDS, b),
        )
    }

    /// The inputs of a batched pass, and behind them one layer at a time, fit what
    /// `used` bytes leave of the region.
    pub open spec fn batch_fits(&self, n_total: u64, b: u64, used: u64, room: u64) -> bool {
        let end = self.batch_end(n_total, b, used);
        &&& end <= room
        &&& self.weights.blocks@.len() > 0 ==> end + llama_batch_bytes(&self.params, n_total)
            <= room
    }

    /// A batched decode fits: its layers, then its head.
    pub open spec fn decode_fits(&self, b: u64, used: u64, room: u64) -> bool {
        &&& self.batch_fits(b, b, used, room)
        &&& self.decode_end(b, used) <= room
    }

    /// Bytes in use after a batched decode, where `used` were before.
    pub open spec fn decode_end(&self, b: u64, used: u64) -> nat {
        self.batch_end(b, b, used) + head_bytes(
            self.params.n_embd as u64,
            self.params.n_vocab as u64,
            b,
        )
    }

    /// Record the inputs and layers of a batched pass.
    #[verifier::rlimit(30)]
    fn record_batched(
        &self,
        ctx: &mut DispatchContext<F>,
        batch: &BatchKvCache,
        tokens: &[u32],
        positions: &[u32],
        seqs: &Sequences,
        pass: &BatchPass,
    ) -> (r: Result<TensorView, RecordError>)
        requires
            self.ready(old(ctx)),
            quiet(old(ctx).memory()),
            batch.layered(self.weights.blocks@.len() as int),
            1 <= tokens@.len() <= u32::MAX,
            pass.n_total == tokens@.len(),
            positions@.len() == tokens@.len(),
            seqs.wf(pass.n_total as int, batch.positions@.len() as int),
        ensures
            final(ctx).region == old(ctx).region,
            final(ctx).replay == old(ctx).replay,
            final(ctx).at() >= old(ctx).at(),
            r matches Err(e) ==> e is ScratchExhausted,
            r is Ok <==> self.batch_fits(
                pass.n_total,
                seqs.lens@.len() as u64,
                old(ctx).used,
                old(ctx).region,
            ),
            r is Ok ==> final(ctx).used == self.batch_end(
                pass.n_total,
                seqs.lens@.len() as u64,
                old(ctx).used,
            ) && 4 * (self.params.n_embd as u64) * pass.n_total <= old(ctx).region,
            r matches Ok(t) ==> {
                let m = old(ctx).memory();
                &&& t == dense(t.buffer, matrix(self.params.n_embd as u64, pass.n_total))
                &&& ready(final(ctx), t)
                &&& content(final(ctx).memory(), t.buffer) == self.batch_hidden(
                    m,
                    batch,
                    seqs@,
                    tokens@,
                    positions@,
                    *pass,
                    self.weights.blocks@.len() as int,
                )
                &&& quiet(final(ctx).memory())
                &&& undisturbed(m, final(ctx).memory(), old(ctx).at(), slab_buffers())
                &&& forall|i: int|
                    0 <= i < self.weights.blocks@.len() ==> #[trigger] self.slabs_cached(
                        m,
                        final(ctx).memory(),
                        batch,
                        seqs@,
                        tokens@,
                        positions@,
                        *pass,
                        i,
                    )
            },
    {
        let p = &self.params;
        let hidden: u64 = p.n_embd as u64;
        let n: u64 = pass.n_total;
        let b: u64 = seqs.lens.len() as u64;
        let ghost m0 = ctx.memory();
        let ghost at0 = ctx.at();
        let pro = record_prologue(ctx, tokens, positions, None, self.weights.token_embd, hidden)?;
        let ghost m1 = ctx.memory();
        let fa_dyn = ctx.alloc_matrix(DECODE_DYN_WORDS, b)?;
        let mark: u64 = ctx.scratch_checkpoint();
        let base: u64 = ctx.used;
        proof {
            let m2 = ctx.memory();
            assert forall|x: Buffer| !later(x, at0) && !slab_buffers().contains(x) implies content(
                m2,
                x,
            ) == content(m0, x) && (reserved(m0, x) ==> reserved(m2, x)) by {
                assert(content(m1, x) == content(m0, x));
            }
            assert(content(m2, pro.residual.buffer) == content(m1, pro.residual.buffer));
            assert forall|j: int| 0 <= j < self.weights.blocks@.len() implies #[trigger]
            slabs_untouched(m0, m2, j) by {
                assert(content(m1, Buffer::KeySlabs(j as u64)) == content(
                    m0,
                    Buffer::KeySlabs(j as u64),
                ));
                assert(content(m1, Buffer::ValueSlabs(j as u64)) == content(
                    m0,
                    Buffer::ValueSlabs(j as u64),
                ));
            }
        }
        let mut i: usize = 0;
        while i < self.weights.blocks.len()
            invariant
                i <= self.weights.blocks@.len(),
                p == &self.params,
                self.params.wf(),
                m0 == old(ctx).memory(),
                at0 == old(ctx).at(),
                self.ready(old(ctx)),
                ctx.region == old(ctx).region,
                ctx.replay == old(ctx).replay,
                batch.layered(self.weights.blocks@.len() as int),
                seqs.wf(n as int, batch.positions@.len() as int),
                1 <= n == tokens@.len() == pass.n_total,
                b == seqs.lens@.len(),
                hidden == p.n_embd,
                at0 <= mark <= ctx.at(),
                quiet(ctx.memory()),
                4 * hidden * n <= ctx.region,
                base == self.batch_end(n, b, old(ctx).used),
                base <= ctx.region,
                i > 0 ==> base + llama_batch_bytes(p, n) <= ctx.region,
                prologue_done(
                    ctx,
                    at0,
                    pro,
                    hidden,
                    n,
                    positions@,
                    None,
                    self.batch_hidden(m0, batch, seqs@, tokens@, positions@, *pass, i as int),
                ),
                settled(pro.positions, at0, mark as int, pro.residual.buffer),
                pro.residual.buffer matches Buffer::Scratch { id, bytes: _ } && at0 <= id < mark,
                settled(fa_dyn, at0, mark as int, pro.residual.buffer),
                fa_dyn.buffer != pro.positions.buffer,
                fa_dyn == dense(fa_dyn.buffer, matrix(DECODE_DYN_WORDS, b)),
                covers(fa_dyn),
                reserved(ctx.memory(), fa_dyn.buffer),
                undisturbed(m0, ctx.memory(), at0, slab_buffers()),
                forall|j: int|
                    0 <= j < i ==> #[trigger] self.slabs_cached(
                        m0,
                        ctx.memory(),
                        batch,
                        seqs@,
                        tokens@,
                        positions@,
                        *pass,
                        j,
                    ),
                forall|j: int|
                    i <= j < self.weights.blocks@.len() ==> #[trigger] slabs_untouched(
                        m0,
                        ctx.memory(),
                        j,
                    ),
            decreases self.weights.blocks@.len() - i,
        {
            let ghost m1 = ctx.memory();
            ctx.scratch_restore(mark, base);
            proof {
                lemma_released(m1, mark as int);
            }
            let ghost m2 = ctx.memory();
            let block = &self.weights.blocks[i];
            proof {
                assert(block.ready(old(ctx)) && block.apart());
                assert(slabs_untouched(m0, m1, i as int));
                assert(same_batch_inputs(m1, m0, *block, i as int));
                assert(same_batch_inputs(m2, m1, *block, i as int));
                assert(block.ready(ctx));
                assert(batch.layer_named(i as int));
                assert(ready(ctx, pro.residual) && ready(ctx, pro.positions));
                assert(reserved(m2, fa_dyn.buffer));
                lemma_same_batch_layer(
                    m2,
                    m0,
                    p,
                    *block,
                    batch,
                    i as int,
                    seqs@,
                    self.batch_hidden(m0, batch, seqs@, tokens@, positions@, *pass, i as int),
                    words_term(positions@),
                    *pass,
                );
            }
            record_batch_layer(
                ctx,
                p,
                block,
                batch,
                i,
                seqs,
                pro.residual,
                pro.positions,
                fa_dyn,
                pass,
            )?;
            proof {
                let m3 = ctx.memory();
                assert forall|x: Buffer|
                    !later(x, at0) && !slab_buffers().contains(x) implies content(m3, x)
                    == content(m0, x) && (reserved(m0, x) ==> reserved(m3, x)) by {
                    assert(content(m1, x) == content(m0, x));
                    assert(content(m2, x) == content(m1, x));
                }
                assert(ready(ctx, pro.positions));
                assert forall|j: int| 0 <= j < i implies #[trigger] self.slabs_cached(
                    m0,
                    m3,
                    batch,
                    seqs@,
                    tokens@,
                    positions@,
                    *pass,
                    j,
                ) by {
                    assert(self.slabs_cached(
                        m0,
                        m1,
                        batch,
                        seqs@,
                        tokens@,
                        positions@,
                        *pass,
                        j,
                    ));
                    assert(slabs_untouched(m1, m2, j));
                }
                assert(self.slabs_cached(
                    m0,
                    m3,
                    batch,
                    seqs@,
                    tokens@,
                    positions@,
                    *pass,
                    i as int,
                ));
                assert forall|j: int| i < j < self.weights.blocks@.len() implies #[trigger]
                slabs_untouched(m0, m3, j) by {
                    assert(slabs_untouched(m0, m1, j));
                    assert(slabs_untouched(m1, m2, j));
                }
            }
            i += 1;
        }
        let ghost m4 = ctx.memory();
        ctx.scratch_restore(mark, base);
        proof {
            lemma_released(m4, mark as int);
            let m5 = ctx.memory();
            assert forall|x: Buffer| !later(x, at0) && !slab_buffers().contains(x) implies content(
                m5,
                x,
            ) == content(m0, x) && (reserved(m0, x) ==> reserved(m5, x)) by {
                assert(content(m4, x) == content(m0, x));
            }
            assert forall|j: int| 0 <= j < self.weights.blocks@.len() implies #[trigger]
            self.slabs_cached(m0, m5, batch, seqs@, tokens@, positions@, *pass, j) by {
                assert(self.slabs_cached(
                    m0,
                    m4,
                    batch,
                    seqs@,
                    tokens@,
                    positions@,
                    *pass,
                    j,
                ));
                assert(slabs_untouched(m4, m5, j));
            }
            assert(ready(ctx, pro.residual));
        }
        Ok(pro.residual)
    }

    /// What a pass leaves: the slabs of every layer, and the token counts of the
    /// slabs used.
    pub open spec fn batch_done(
        &self,
        m: Memory<F>,
        after: Memory<F>,
        before: &BatchKvCache,
        now: &BatchKvCache,
        seqs: SeqPlan,
        tokens: Seq<u32>,
        positions: Seq<u32>,
        pass: BatchPass,
    ) -> bool {
        &&& forall|i: int|
            0 <= i < self.weights.blocks@.len() ==> #[trigger] self.slabs_cached(
                m,
                after,
                before,
                seqs,
                tokens,
                positions,
                pass,
                i,
            )
        &&& now.same_but_positions(before)
        &&& now.positions@ == advanced(
            before.positions@,
            seqs.slots,
            seqs.kv_lens,
            seqs.slots.len() as int,
        )
    }

    /// Record a batched decode: one token for each of several sequences.
    /// `slots[s]` is the slab of sequence `s`, whose token is cached at
    /// `positions[s]`. The result holds the logits of sequence `s` in column `s`.
    pub fn record_forward_batch(
        &self,
        ctx: &mut DispatchContext<F>,
        batch: &mut BatchKvCache,
        tokens: &[u32],
        positions: &[u32],
        slots: &[u32],
    ) -> (r: Result<TensorView, RecordError>)
        requires
            self.ready(old(ctx)),
            quiet(old(ctx).memory()),
            old(batch).layered(self.weights.blocks@.len() as int),
            tokens@.len() <= u32::MAX,
            forall|s: int|
                0 <= s < slots@.len() ==> (#[trigger] slots@[s]) < old(batch).positions@.len(),
            forall|s: int| 0 <= s < positions@.len() ==> (#[trigger] positions@[s]) < u32::MAX,
        ensures
            final(ctx).region == old(ctx).region,
            final(ctx).replay == old(ctx).replay,
            match r {
                Ok(t) => {
                    let m = old(ctx).memory();
                    let b = tokens@.len() as u64;
                    let width = self.params.n_embd as u64;
                    let seqs = decode_plan(positions@, slots@);
                    let pass = BatchPass { n_total: b, decode: true };
                    &&& 1 <= b && positions@.len() == b && slots@.len() == b
                    &&& self.decode_fits(b, old(ctx).used, old(ctx).region)
                    &&& final(ctx).used == self.decode_end(b, old(ctx).used)
                    &&& ready(final(ctx), t)
                    &&& read(final(ctx).memory(), t) == head_term(
                        m,
                        self.params.rms_eps,
                        fresh(
                            self.batch_hidden(
                                m,
                                old(batch),
                                seqs,
                                tokens@,
                                positions@,
                                pass,
                                self.weights.blocks@.len() as int,
                            ),
                            matrix(width, b),
                        ),
                        self.weights.output_norm,
                        self.head(),
                        width,
                        self.params.n_vocab as u64,
                        b,
                    )
                    &&& self.batch_done(
                        m,
                        final(ctx).memory(),
                        old(batch),
                        final(batch),
                        seqs,
                        tokens@,
                        positions@,
                        pass,
                    )
                    &&& undisturbed(m, final(ctx).memory(), old(ctx).at(), slab_buffers())
                    &&& quiet(final(ctx).memory())
                },
                Err(RecordError::EmptyBatch) => tokens@.len() == 0,
                Err(RecordError::LengthMismatch) => tokens@.len() > 0 && (positions@.len()
                    != tokens@.len() || slots@.len() != tokens@.len()),
                Err(RecordError::ScratchExhausted) => {
                    let b = tokens@.len() as u64;
                    &&& 1 <= b && positions@.len() == b && slots@.len() == b
                    &&& !self.decode_fits(b, old(ctx).used, old(ctx).region)
                },
                Err(_) => false,
            },
            r is Err ==> *final(batch) == *old(batch),
    {
        let n: usize = tokens.len();
        if n == 0 {
            return Err(RecordError::EmptyBatch);
        }
        if positions.len() != n || slots.len() != n {
            return Err(RecordError::LengthMismatch);
        }
        let p = &self.params;
        let b: u64 = n as u64;
        let seqs = decode_sequences(positions, slots);
        let pass = BatchPass { n_total: b, decode: true };
        let ghost plan = decode_plan(positions@, slots@);
        proof {
            assert forall|s: int| 0 <= s < seqs.lens@.len() implies #[trigger] seqs.placed(
                s,
                b as int,
                batch.positions@.len() as int,
            ) by {
                assert(seqs@.slots[s] == slots@[s] && seqs@.lens[s] == 1 && seqs@.starts[s] == s);
            }
            assert(seqs.wf(b as int, batch.positions@.len() as int));
        }
        let ghost m0 = ctx.memory();
        let residual = self.record_batched(ctx, &*batch, tokens, positions, &seqs, &pass)?;
        let ghost m1 = ctx.memory();
        let head = match self.weights.output {
            Some(t) => t,
            None => self.weights.token_embd,
        };
        proof {
            assert(ready(ctx, self.weights.output_norm) && ready(ctx, self.head()));
            assert(content(m1, self.weights.output_norm.buffer) == content(
                m0,
                self.weights.output_norm.buffer,
            ));
            assert(content(m1, self.head().buffer) == content(m0, self.head().buffer));
        }
        let logits = record_head(
            ctx,
            p.rms_eps,
            residual,
            self.weights.output_norm,
            head,
            p.n_embd as u64,
            p.n_vocab as u64,
            b,
        )?;
        proof {
            self.lemma_still_cached(m0, m1, ctx.memory(), old(ctx).at(), &*batch, plan, tokens@, positions@, pass);
        }
        batch.set_positions(slots, seqs.kv_lens.as_slice());
        Ok(logits)
    }

    /// Later scratch work leaves the slabs alone.
    proof fn lemma_still_cached(
        &self,
        m0: Memory<F>,
        m1: Memory<F>,
        m2: Memory<F>,
        at0: int,
        batch: &BatchKvCache,
        seqs: SeqPlan,
        tokens: Seq<u32>,
        positions: Seq<u32>,
        pass: BatchPass,
    )
        requires
            exists|at: int| at0 <= at && #[trigger] undisturbed(m1, m2, at, Set::empty()),
            undisturbed(m0, m1, at0, slab_buffers()),
            forall|i: int|
                0 <= i < self.weights.blocks@.len() ==> #[trigger] self.slabs_cached(
                    m0,
                    m1,
                    batch,
                    seqs,
                    tokens,
                    positions,
                    pass,
                    i,
                ),
        ensures
            undisturbed(m0, m2, at0, slab_buffers()),
            forall|i: int|
                0 <= i < self.weights.blocks@.len() ==> #[trigger] self.slabs_cached(
                    m0,
                    m2,
                    batch,
                    seqs,
                    tokens,
                    positions,
                    pass,
                    i,
                ),
    {
        let at = choose|at: int| at0 <= at && #[trigger] undisturbed(m1, m2, at, Set::empty());
        assert forall|x: Buffer| !later(x, at0) && !slab_buffers().contains(x) implies content(
            m2,
            x,
        ) == content(m0, x) && (reserved(m0, x) ==> reserved(m2, x)) by {
            assert(!later(x, at));
            assert(content(m1, x) == content(m0, x));
        }
        assert forall|i: int| 0 <= i < self.weights.blocks@.len() implies #[trigger]
        self.slabs_cached(m0, m2, batch, seqs, tokens, positions, pass, i) by {
            assert(self.slabs_cached(m0, m1, batch, seqs, tokens, positions, pass, i));
            assert(slabs_untouched(m1, m2, i));
        }
    }

    /// Record a pass over packed sequences: sequence `s` brings `seq_lens[s]`
    /// tokens, a stretch of prompt or one decoded token, continuing in slab
    /// `slots[s]` from its first token's position on. Column `s` of the result
    /// holds the logits of sequence `s`'s last token.
    pub fn record_forward_unified(
        &self,
        ctx: &mut DispatchContext<F>,
        batch: &mut BatchKvCache,
        tokens: &[u32],
        positions: &[u32],
        seq_lens: &[u32],
        slots: &[u32],
    ) -> (r: Result<TensorView, RecordError>)
        requires
            self.ready(old(ctx)),
            self.params.n_embd >= 1,
            quiet(old(ctx).memory()),
            old(batch).layered(self.weights.blocks@.len() as int),
            tokens@.len() <= u32::MAX,
            seq_lens@.len() <= u32::MAX,
            forall|s: int|
                0 <= s < slots@.len() ==> (#[trigger] slots@[s]) < old(batch).positions@.len(),
            positions@.len() == tokens@.len() && total(seq_lens@) == tokens@.len() ==> forall|
                s: int,
            |
                0 <= s < seq_lens@.len() ==> #[trigger] packed_ok(positions@, seq_lens@, s),
        ensures
            final(ctx).region == old(ctx).region,
            final(ctx).replay == old(ctx).replay,
            match r {
                Ok(t) => {
                    let m = old(ctx).memory();
                    let n = tokens@.len() as u64;
                    let b = seq_lens@.len() as u64;
                    let width = self.params.n_embd as u64;
                    let seqs = packed_plan(positions@, seq_lens@, slots@);
                    let pass = BatchPass { n_total: n, decode: false };
                    &&& unified_shapes(tokens@, positions@, seq_lens@, slots@)
                    &&& self.unified_fits(n, b, old(ctx).used, old(ctx).region)
                    &&& final(ctx).used == self.unified_end(n, b, old(ctx).used)
                    &&& ready(final(ctx), t)
                    &&& read(final(ctx).memory(), t) == head_term(
                        m,
                        self.params.rms_eps,
                        gathered_all(
                            self.batch_hidden(
                                m,
                                old(batch),
                                seqs,
                                tokens@,
                                positions@,
                                pass,
                                self.weights.blocks@.len() as int,
                            ),
                            width,
                            n,
                            seqs.lens,
                            seqs.starts,
                        ),
                        self.weights.output_norm,
                        self.head(),
                        width,
                        self.params.n_vocab as u64,
                        b,
                    )
                    &&& self.batch_done(
                        m,
                        final(ctx).memory(),
                        old(batch),
                        final(batch),
                        seqs,
                        tokens@,
                        positions@,
                        pass,
                    )
                    &&& undisturbed(m, final(ctx).memory(), old(ctx).at(), slab_buffers())
                    &&& quiet(final(ctx).memory())
                },
                Err(RecordError::EmptyBatch) => seq_lens@.len() == 0 || tokens@.len() == 0,
                Err(RecordError::LengthMismatch) => seq_lens@.len() > 0 && tokens@.len() > 0 && (
                positions@.len() != tokens@.len() || slots@.len() != seq_lens@.len()),
                Err(RecordError::LengthSum) => {
                    &&& seq_lens@.len() > 0 && tokens@.len() > 0
                    &&& positions@.len() == tokens@.len() && slots@.len() == seq_lens@.len()
                    &&& total(seq_lens@) != tokens@.len()
                },
                Err(RecordError::ScratchExhausted) => {
                    &&& unified_shapes(tokens@, positions@, seq_lens@, slots@)
                    &&& !self.unified_fits(
                        tokens@.len() as u64,
                        seq_lens@.len() as u64,
                        old(ctx).used,
                        old(ctx).region,
                    )
                },
                Err(_) => false,
            },
            r is Err ==> *final(batch) == *old(batch),
    {
        let n: usize = tokens.len();
        let nb: usize = seq_lens.len();
        if nb == 0 || n == 0 {
            return Err(RecordError::EmptyBatch);
        }
        if positions.len() != n || slots.len() != nb {
            return Err(RecordError::LengthMismatch);
        }
        if sum_lens(seq_lens) != n as u64 {
            return Err(RecordError::LengthSum);
        }
        let p = &self.params;
        let hidden: u64 = p.n_embd as u64;
        let n_total: u64 = n as u64;
        let seqs = packed_sequences(positions, seq_lens, slots);
        let pass = BatchPass { n_total, decode: false };
        let ghost plan = packed_plan(positions@, seq_lens@, slots@);
        proof {
            assert forall|s: int| 0 <= s < seqs.lens@.len() implies #[trigger] seqs.placed(
                s,
                n_total as int,
                batch.positions@.len() as int,
            ) by {
                assert(seqs@.slots[s] == slots@[s]);
                assert(packed_ok(positions@, seq_lens@, s));
                lemma_starts(seq_lens@, s + 1, seq_lens@.len() as int);
                lemma_starts(seq_lens@, 0, s);
            }
            assert(seqs.wf(n_total as int, batch.positions@.len() as int));
        }
        let ghost m0 = ctx.memory();
        let ghost at0 = ctx.at();
        let residual = self.record_batched(ctx, &*batch, tokens, positions, &seqs, &pass)?;
        let ghost m1 = ctx.memory();
        let last = record_gather(ctx, residual, &seqs, hidden, n_total, batch.positions.len())?;
        let ghost m2 = ctx.memory();
        let head = match self.weights.output {
            Some(t) => t,
            None => self.weights.token_embd,
        };
        proof {
            self.lemma_still_cached(m0, m1, m2, at0, &*batch, plan, tokens@, positions@, pass);
            assert(ready(ctx, self.weights.output_norm) && ready(ctx, self.head()));
            assert(content(m2, self.weights.output_norm.buffer) == content(
                m0,
                self.weights.output_norm.buffer,
            ));
            assert(content(m2, self.head().buffer) == content(m0, self.head().buffer));
        }
        let logits = record_head(
            ctx,
            p.rms_eps,
            last,
            self.weights.output_norm,
            head,
            hidden,
            p.n_vocab as u64,
            nb as u64,
        )?;
        proof {
            self.lemma_still_cached(m0, m2, ctx.memory(), at0, &*batch, plan, tokens@, positions@, pass);
        }
        batch.set_positions(slots, seqs.kv_lens.as_slice());
        Ok(logits)
    }

    /// A pass over packed sequences fits: its layers, then the gathered last
    /// tokens and the head.
    pub open spec fn unified_fits(&self, n_total: u64, b: u64, used: u64, room: u64) -> bool {
        &&& self.batch_fits(n_total, b, used, room)
        &&& self.unified_end(n_total, b, used) <= room
    }

    /// Bytes in use after a pass over packed sequences, where `used` were before.
    pub open spec fn unified_end(&self, n_total: u64, b: u64, used: u64) -> nat {
        let width = self.params.n_embd as u64;
        self.batch_end(n_total, b, used) + size(matrix(width, b)) + head_bytes(
            width,
            self.params.n_vocab as u64,
            b,
        )
    }
}

/// The lists of a packed pass fit together.
pub open spec fn unified_shapes(
    tokens: Seq<u32>,
    positions: Seq<u32>,
    seq_lens: Seq<u32>,
    slots: Seq<u32>,
) -> bool {
    &&& tokens.len() > 0
    &&& seq_lens.len() > 0
    &&& positions.len() == tokens.len()
    &&& slots.len() == seq_lens.len()
    &&& total(seq_lens) == tokens.len()
}

} // verus!
