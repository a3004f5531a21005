//! The Qwen 3.5 mixture-of-experts architecture: attention and recurrent layers
//! in turn, every one with routed experts.
use vstd::prelude::*;

use crate::models::blocks::{
    embedded, head_bytes, head_term, holds_tokens, lemma_released, mask_value, prologue_bytes,
    prologue_done, ready, ready_opt, record_head, record_prologue, same_weights, settled,
    undisturbed, weights_live, words_term, Prologue,
};
use crate::models::cache::{has_room, KvCache};
use crate::models::llama::mask_term;
use crate::models::masks::{causal_mask, causal_values, MaskValues};
use crate::models::gemma4::lemma_columns_within;
use crate::models::mrope::{
    axes_from, build_decoder_mrope_positions, build_decoder_mrope_positions_window, flattened,
    lemma_cursor,
    lemma_flattened, window_axes, ImageSpan,
};
use crate::models::qwen35_attention::{
    attention_block, lemma_same_attended, qwen_attended, qwen_attn_bytes, qwen_k_cache,
    qwen_v_cache, QwenPass,
};
use crate::models::qwen35_moe::{
    lemma_same_moe, moe_bytes, moe_failure, moe_ffn, moe_term,
};
use crate::models::qwen35_ssm::{
    conv_target, lemma_same_ssm, of_bytes, ssm_block, ssm_bytes, ssm_conv_kept, ssm_fits,
    ssm_gdn_kept, ssm_shape, ssm_term, SsmStates,
};
use crate::models::qwen35_weights::{
    attention_layer, lemma_recurrent_before, recurrent_before, BlockWeights, Qwen35MoeParams,
    Qwen35MoeWeights,
};
use crate::models::recorder::{
    content, fresh, later, op1, put, quiet, read, reserved, spends, through, DispatchContext, Fence,
    Memory, Op, RecordError, ReplayPlan, Term,
};
use crate::models::splice::{
    chunk_columns, image_overlap, law_every_column_is_taken_once, lemma_chunk, parts_prompt,
    spliced_at, splices, taken_columns,
};
use crate::models::tensor::{
    covers, dense, dims4, last_column, lemma_size_matrix, matrix, one_column, size, strided,
    strided_view, Buffer, BufferRange, Dims, TensorView,
};
use crate::models::ForwardFullOut;

verus! {

/// A model.
pub struct Qwen35MoeModel<F> {
    pub params: Qwen35MoeParams<F>,
    pub weights: Qwen35MoeWeights,
    pub mask: MaskValues<F>,
}

/// Everything that decides what a pass over one sequence computes.
pub struct QwenInput<F> {
    pub tokens: Seq<u32>,
    /// Positions on the four axes, axis after axis.
    pub positions: Seq<u32>,
    pub mask: Option<Seq<F>>,
    /// Image columns, and the column that the first goes to.
    pub splice: Option<(Seq<F>, int)>,
    pub pass: QwenPass<F>,
    /// Whether states are kept for a rollback in place of being carried on.
    pub checkpoint: bool,
}

/// An image's part in a pass: the positions of all tokens, and the columns that
/// fall in it.
pub struct ForwardImage<'a, F> {
    pub positions: &'a [u32],
    pub splice: Option<(&'a [F], usize)>,
}

/// Columns from `start` on of a hidden state of this width.
pub open spec fn image_columns(buffer: Buffer, width: u64, start: int, count: int) -> TensorView {
    strided_view(
        buffer,
        4 * (start * width),
        4 * (count * width),
        dims4(width as int, count, 1, 1),
        dims4(1, width as int, width * count, width * count),
    )
}

/// A hidden state with image columns in place.
pub open spec fn with_columns<F>(
    h: Term<F>,
    splice: Option<(Seq<F>, int)>,
    width: u64,
    l: u64,
) -> Term<F> {
    match splice {
        None => h,
        Some((data, start)) => {
            let count = data.len() as int / width as int;
            put(
                h,
                image_columns(of_bytes(4 * width * l), width, start, count),
                op1(
                    Op::Cast,
                    through(Term::Floats(data), image_columns(of_bytes(0), width, 0, count)),
                ),
            )
        },
    }
}

/// Buffers that keep recurrent state.
pub open spec fn is_state(b: Buffer) -> bool {
    b is ConvState || b is GdnState || b is ConvBackup || b is GdnSnapshots || b is ConvSlabs
        || b is GdnSlabs
}

/// No recurrent state is left unset.
pub open spec fn states_live<F>(m: Memory<F>) -> bool {
    forall|b: Buffer| #![trigger content(m, b)] is_state(b) ==> !(content(m, b) is Unset)
}

/// The buffers that passes over one sequence change.
pub open spec fn sequence_buffers() -> Set<Buffer> {
    Set::new(
        |b: Buffer|
            b is KeyLayer || b is ValueLayer || b is ConvState || b is GdnState || b is ConvBackup
                || b is GdnSnapshots,
    )
}

/// Entry `j` of a list, if there is one.
pub open spec fn entry(s: Seq<BufferRange>, j: int) -> Option<BufferRange> {
    if 0 <= j < s.len() {
        Some(s[j])
    } else {
        None
    }
}

/// Entry `j` of a list, if there is one.
pub(crate) fn get_range(v: &Vec<BufferRange>, j: usize) -> (r: Option<BufferRange>)
    ensures
        r == entry(v@, j as int),
{
    if j < v.len() {
        Some(v[j])
    } else {
        None
    }
}

impl<F: Copy> Qwen35MoeModel<F> {
    /// Sizes are small enough, tensors lie among the weights, and each layer is
    /// of the kind that its place says.
    pub open spec fn wf(&self) -> bool {
        &&& self.params.wf()
        &&& self.weights.apart()
        &&& self.weights.blocks@.len() <= u32::MAX
        &&& forall|i: int| 0 <= i < self.weights.blocks@.len() ==> #[trigger] self.placed(i)
    }

    /// Layer `i` is of the kind that its place says.
    pub open spec fn placed(&self, i: int) -> bool {
        self.weights.blocks@[i] is Attention <==> attention_layer(
            self.params.n_main,
            self.params.full_attn_interval,
            i,
        )
    }

    /// The device memory that passes start from.
    pub open spec fn live(&self, m: Memory<F>) -> bool {
        quiet(m) && weights_live(m) && states_live(m)
    }

    /// Layer `i` of the cache has room for whole heads.
    pub open spec fn roomy(&self, cache: &KvCache, i: int) -> bool {
        &&& holds_tokens(
            cache.layer(i).k,
            self.params.head_dim_k as u64,
            self.params.n_head_kv as u64,
            cache.layer(i).k.dims.d2,
        )
        &&& holds_tokens(
            cache.layer(i).v,
            self.params.head_dim_v as u64,
            self.params.n_head_kv as u64,
            cache.layer(i).k.dims.d2,
        )
    }

    /// Recurrent layer `j` has its own buffers.
    pub open spec fn states_named(&self, cache: &KvCache, j: int) -> bool {
        &&& entry(cache.ssm_conv_states@, j) matches Some(r) ==> r.buffer == Buffer::ConvState(
            j as u64,
        )
        &&& entry(cache.ssm_gdn_states@, j) matches Some(r) ==> r.buffer == Buffer::GdnState(
            j as u64,
        )
        &&& entry(cache.ssm_gdn_snapshots@, j) matches Some(r) ==> r.buffer
            == Buffer::GdnSnapshots(j as u64)
        &&& entry(cache.ssm_conv_backups@, j) matches Some(r) ==> r.buffer == Buffer::ConvBackup(
            j as u64,
        )
    }

    /// The cache has `n` layers with room, and states with their own buffers.
    pub open spec fn cache_ok(&self, cache: &KvCache, n: int) -> bool {
        &&& cache.layered(n)
        &&& cache.ssm_conv_states@.len() == cache.ssm_gdn_states@.len()
        &&& forall|i: int| 0 <= i < n ==> #[trigger] self.roomy(cache, i)
        &&& forall|j: int| 0 <= j <= u32::MAX ==> #[trigger] self.states_named(cache, j)
    }

    /// How many recurrent layers come before layer `i`.
    pub open spec fn rank(&self, i: int) -> int {
        recurrent_before(self.params.n_main, self.params.full_attn_interval, i)
    }

    /// The states of layer `i`.
    pub open spec fn states(&self, cache: &KvCache, i: int, checkpoint: bool) -> SsmStates {
        let j = self.rank(i);
        SsmStates {
            conv: entry(cache.ssm_conv_states@, j),
            gdn: entry(cache.ssm_gdn_states@, j),
            checkpoint: if checkpoint {
                match entry(cache.ssm_gdn_snapshots@, j) {
                    Some(g) => match entry(cache.ssm_conv_backups@, j) {
                        Some(c) => Some((g, c)),
                        None => None,
                    },
                    None => None,
                }
            } else {
                None
            },
        }
    }

    /// Layers that a pass over one sequence goes through.
    pub open spec fn depth(&self) -> int {
        match self.params.switches.max_layers {
            Some(n) => if n < self.weights.blocks@.len() {
                n as int
            } else {
                self.weights.blocks@.len() as int
            },
            None => self.weights.blocks@.len() as int,
        }
    }

    /// A pass over one sequence leaves the mixing half of layer `i` out.
    pub open spec fn unmixed(&self, i: int) -> bool {
        match self.weights.blocks@[i] {
            BlockWeights::Attention(_) => self.params.switches.no_attn,
            BlockWeights::Ssm(_) => self.params.switches.no_ssm,
        }
    }

    /// The hidden state after the mixing half of layer `i`.
    pub open spec fn mixed(
        &self,
        m: Memory<F>,
        cache: &KvCache,
        inp: QwenInput<F>,
        i: int,
        h: Term<F>,
    ) -> Term<F> {
        let l = inp.pass.l as u64;
        if self.unmixed(i) {
            h
        } else {
            match self.weights.blocks@[i] {
                BlockWeights::Attention(a) => qwen_attended(
                    m,
                    &self.params,
                    a,
                    cache.layer(i),
                    h,
                    words_term(inp.positions),
                    mask_value(inp.mask, l),
                    inp.pass,
                ),
                BlockWeights::Ssm(s) => if self.params.switches.only_rms {
                    h
                } else {
                    ssm_term(
                        m,
                        &self.params,
                        s,
                        ssm_shape(&self.params, l, 1),
                        self.states(cache, i, inp.checkpoint),
                        fresh(h, matrix(self.params.n_embd as u64, l)),
                    )
                },
            }
        }
    }

    /// The hidden state after layer `i`.
    pub open spec fn layer(
        &self,
        m: Memory<F>,
        cache: &KvCache,
        inp: QwenInput<F>,
        i: int,
        h: Term<F>,
    ) -> Term<F> {
        let b = self.weights.blocks@[i];
        let mixed = self.mixed(m, cache, inp, i, h);
        if self.params.switches.no_moe {
            mixed
        } else {
            moe_term(m, &self.params, b.experts(), b.mid_norm(), mixed, inp.pass.l as u64)
        }
    }

    /// The hidden state after the first `n` layers.
    pub open spec fn hidden(&self, m: Memory<F>, cache: &KvCache, inp: QwenInput<F>, n: int) -> Term<
        F,
    >
        decreases n,
    {
        if n <= 0 {
            with_columns(
                embedded(m, self.weights.token_embd, inp.tokens),
                inp.splice,
                self.params.n_embd as u64,
                inp.pass.l as u64,
            )
        } else {
            self.layer(m, cache, inp, n - 1, self.hidden(m, cache, inp, n - 1))
        }
    }

    /// Bytes in use after the first half of layer `i`, where `used` were before.
    pub open spec fn half_end(&self, cache: &KvCache, inp: QwenInput<F>, i: int, used: int) -> int {
        if self.unmixed(i) {
            used
        } else {
            match self.weights.blocks@[i] {
                BlockWeights::Attention(_) => used + qwen_attn_bytes(
                    &self.params,
                    cache.layer(i).k.dtype is F16,
                    inp.pass,
                ),
                BlockWeights::Ssm(_) => used + ssm_bytes(
                    &self.params,
                    ssm_shape(&self.params, inp.pass.l as u64, 1),
                    self.states(cache, i, inp.checkpoint),
                ),
            }
        }
    }

    /// Bytes in use after layer `i`, where `used` were before.
    pub open spec fn layer_end(&self, cache: &KvCache, inp: QwenInput<F>, i: int, used: int) -> int {
        self.half_end(cache, inp, i, used) + if self.params.switches.no_moe {
            0
        } else {
            moe_bytes(&self.params, inp.pass.l as u64)
        }
    }

    /// Bytes in use before layer `i`, where `used` were before the first: the same,
    /// or more where the layers' scratch is kept.
    pub open spec fn used_before(
        &self,
        cache: &KvCache,
        inp: QwenInput<F>,
        i: int,
        used: int,
    ) -> int
        decreases i,
    {
        if i <= 0 || !self.params.switches.keep_scratch {
            used
        } else {
            self.layer_end(cache, inp, i - 1, self.used_before(cache, inp, i - 1, used))
        }
    }

    /// Why layer `i` fails, if it does, where `used` bytes are in use.
    pub open spec fn layer_failure(
        &self,
        cache: &KvCache,
        inp: QwenInput<F>,
        i: int,
        used: int,
        room: u64,
    ) -> Option<RecordError> {
        let l = inp.pass.l as u64;
        let half = self.half_end(cache, inp, i, used);
        let fit = self.unmixed(i) || match self.weights.blocks@[i] {
            BlockWeights::Attention(_) => half <= room,
            BlockWeights::Ssm(_) => ssm_fits(
                &self.params,
                ssm_shape(&self.params, l, 1),
                self.states(cache, i, inp.checkpoint),
                used,
                room,
            ),
        };
        if !fit {
            Some(RecordError::ScratchExhausted)
        } else if self.params.switches.no_moe {
            None
        } else {
            moe_failure(&self.params, self.weights.blocks@[i].experts(), l, half, room)
        }
    }

    /// Why the first `k` layers fail, if they do: the first failure counts. The
    /// first one starts where `used` bytes are in use.
    pub open spec fn layers_failure(
        &self,
        cache: &KvCache,
        inp: QwenInput<F>,
        k: int,
        used: int,
        room: u64,
    ) -> Option<RecordError>
        decreases k,
    {
        if k <= 0 {
            None
        } else if self.layers_failure(cache, inp, k - 1, used, room) is Some {
            self.layers_failure(cache, inp, k - 1, used, room)
        } else {
            self.layer_failure(
                cache,
                inp,
                k - 1,
                self.used_before(cache, inp, k - 1, used),
                room,
            )
        }
    }

    /// What layer `i` caches, given the hidden state `h` before it.
    pub open spec fn layer_kept(
        &self,
        m: Memory<F>,
        after: Memory<F>,
        cache: &KvCache,
        inp: QwenInput<F>,
        i: int,
        h: Term<F>,
    ) -> bool {
        let l = inp.pass.l as u64;
        let x = fresh(h, matrix(self.params.n_embd as u64, l));
        if self.unmixed(i) {
            self.untouched(m, after, i)
        } else {
            match self.weights.blocks@[i] {
                BlockWeights::Attention(a) => {
                    &&& content(after, cache.layer(i).k.buffer) == qwen_k_cache(
                        m,
                        &self.params,
                        a,
                        cache.layer(i),
                        x,
                        words_term(inp.positions),
                        inp.pass,
                    )
                    &&& content(after, cache.layer(i).v.buffer) == qwen_v_cache(
                        m,
                        &self.params,
                        a,
                        cache.layer(i),
                        x,
                        inp.pass,
                    )
                },
                BlockWeights::Ssm(s) => {
                    let c = ssm_shape(&self.params, l, 1);
                    let st = self.states(cache, i, inp.checkpoint);
                    &&& conv_target(st.conv, st.backup()) matches Some(b) ==> content(after, b)
                        == ssm_conv_kept(m, &self.params, s, c, st, x)
                    &&& st.kept() matches Some(r) ==> content(after, r.buffer) == ssm_gdn_kept(
                        m,
                        &self.params,
                        s,
                        c,
                        st,
                        x,
                    )
                },
            }
        }
    }

    /// Layer `i` caches what the pass leaves there; one that the pass does not reach
    /// is what it was.
    pub open spec fn cached(
        &self,
        m: Memory<F>,
        after: Memory<F>,
        cache: &KvCache,
        inp: QwenInput<F>,
        i: int,
    ) -> bool {
        if i < self.depth() {
            self.layer_kept(m, after, cache, inp, i, self.hidden(m, cache, inp, i))
        } else {
            self.untouched(m, after, i)
        }
    }

    /// Whether `b` keeps something of layer `i`.
    pub open spec fn belongs(&self, i: int, b: Buffer) -> bool {
        match self.weights.blocks@[i] {
            BlockWeights::Attention(_) => b == Buffer::KeyLayer(i as u64) || b
                == Buffer::ValueLayer(i as u64),
            BlockWeights::Ssm(_) => {
                let j = self.rank(i) as u64;
                b == Buffer::ConvState(j) || b == Buffer::GdnState(j) || b == Buffer::ConvBackup(j)
                    || b == Buffer::GdnSnapshots(j)
            },
        }
    }

    /// What is kept of layer `i` is what was kept before.
    pub open spec fn untouched(&self, m: Memory<F>, after: Memory<F>, i: int) -> bool {
        forall|b: Buffer|
            #![trigger content(after, b)]
            self.belongs(i, b) ==> content(after, b) == content(m, b)
    }

    /// What two layers keep lies apart.
    proof fn lemma_apart(&self, i: int, k: int, b: Buffer)
        requires
            self.wf(),
            0 <= i < self.weights.blocks@.len(),
            0 <= k < self.weights.blocks@.len(),
            i != k,
            self.belongs(i, b),
        ensures
            !self.belongs(k, b),
    {
        assert(self.placed(i) && self.placed(k));
        let n = self.params.n_main;
        let v = self.params.full_attn_interval;
        lemma_recurrent_before(n, v, 0, i);
        lemma_recurrent_before(n, v, 0, k);
        if i < k {
            lemma_recurrent_before(n, v, i, k);
        } else {
            lemma_recurrent_before(n, v, k, i);
        }
    }

    /// The states of layer `i`.
    fn layer_states(&self, cache: &KvCache, i: usize, checkpoint: bool) -> (r: SsmStates)
        requires
            self.wf(),
            i < self.weights.blocks@.len(),
        ensures
            r == self.states(cache, i as int, checkpoint),
    {
        let j: usize = self.params.count_recurrent(i);
        let kept: Option<(BufferRange, BufferRange)> = if checkpoint {
            match get_range(&cache.ssm_gdn_snapshots, j) {
                Some(g) => match get_range(&cache.ssm_conv_backups, j) {
                    Some(c) => Some((g, c)),
                    None => None,
                },
                None => None,
            }
        } else {
            None
        };
        SsmStates {
            conv: get_range(&cache.ssm_conv_states, j),
            gdn: get_range(&cache.ssm_gdn_states, j),
            checkpoint: kept,
        }
    }

    /// Record layer `i`.
    #[verifier::rlimit(30)]
    fn record_layer(
        &self,
        ctx: &mut DispatchContext<F>,
        cache: &KvCache,
        i: usize,
        pro: Prologue,
        pass: QwenPass<F>,
        checkpoint: bool,
        Ghost(inp): Ghost<QwenInput<F>>,
    ) -> (r: Result<(), RecordError>)
        requires
            self.wf(),
            i < self.weights.blocks@.len(),
            self.live(old(ctx).memory()),
            self.cache_ok(cache, self.weights.blocks@.len() as int),
            inp.pass == pass,
            inp.checkpoint == checkpoint,
            pass.l >= 1,
            pass.total_len >= 1,
            pro.residual == dense(
                pro.residual.buffer,
                matrix(self.params.n_embd as u64, pass.l as u64),
            ),
            covers(pro.residual),
            pro.residual.buffer is Scratch,
            ready(old(ctx), pro.residual),
            ready(old(ctx), pro.positions),
            pro.positions.buffer is Scratch,
            read(old(ctx).memory(), pro.positions) == words_term::<F>(inp.positions),
            ready_opt(old(ctx), pro.mask),
            pro.mask matches Some(t) ==> t.buffer is Scratch,
            mask_term(old(ctx).memory(), pro.mask) == mask_value(inp.mask, pass.l as u64),
        ensures
            final(ctx).region == old(ctx).region,
            final(ctx).replay == old(ctx).replay,
            final(ctx).at() >= old(ctx).at(),
            match r {
                Ok(_) => {
                    let m = old(ctx).memory();
                    let h = content(m, pro.residual.buffer);
                    &&& self.layer_failure(
                        cache,
                        inp,
                        i as int,
                        old(ctx).used as int,
                        old(ctx).region,
                    ) is None
                    &&& final(ctx).used == self.layer_end(
                        cache,
                        inp,
                        i as int,
                        old(ctx).used as int,
                    )
                    &&& content(final(ctx).memory(), pro.residual.buffer) == self.layer(
                        m,
                        cache,
                        inp,
                        i as int,
                        h,
                    )
                    &&& self.layer_kept(m, final(ctx).memory(), cache, inp, i as int, h)
                    &&& ready(final(ctx), pro.residual)
                    &&& self.live(final(ctx).memory())
                    &&& undisturbed(
                        m,
                        final(ctx).memory(),
                        old(ctx).at(),
                        Set::new(|b: Buffer| b == pro.residual.buffer || self.belongs(i as int, b)),
                    )
                },
                Err(e) => self.layer_failure(
                    cache,
                    inp,
                    i as int,
                    old(ctx).used as int,
                    old(ctx).region,
                ) == Some(e),
            },
    {
        let p = &self.params;
        let ghost m0 = ctx.memory();
        let ghost at0 = ctx.at();
        let ghost changed = Set::new(
            |b: Buffer| b == pro.residual.buffer || self.belongs(i as int, b),
        );
        let residual = pro.residual;
        proof {
            assert(self.roomy(cache, i as int));
            lemma_recurrent_before(p.n_main, p.full_attn_interval, 0, i as int);
            assert(self.states_named(cache, self.rank(i as int)));
        }
        let block = &self.weights.blocks[i];
        match block {
            BlockWeights::Attention(att) => if !p.switches.no_attn {
                let layer = cache.layer_views(i);
                attention_block(
                    ctx,
                    att,
                    layer,
                    residual,
                    pro.mask,
                    pro.positions,
                    p,
                    pass,
                )?;
            },
            BlockWeights::Ssm(w) => if !p.switches.no_ssm {
                let st = self.layer_states(cache, i, checkpoint);
                proof {
                    assert(st.conv matches Some(r) ==> is_state(r.buffer) && !(content(
                        m0,
                        r.buffer,
                    ) is Unset));
                    assert(st.gdn matches Some(r) ==> is_state(r.buffer) && !(content(
                        m0,
                        r.buffer,
                    ) is Unset));
                    assert(st.checkpoint matches Some((g, b)) ==> is_state(g.buffer) && is_state(
                        b.buffer,
                    ) && !(content(m0, g.buffer) is Unset) && !(content(m0, b.buffer) is Unset));
                    assert(st.live(m0));
                }
                ssm_block(ctx, w, residual, p, pass.l, st)?;
            },
        }
        let ghost m1 = ctx.memory();
        proof {
            assert forall|b: Buffer| !later(b, at0) && !changed.contains(b) implies content(m1, b)
                == content(m0, b) && (reserved(m0, b) ==> reserved(m1, b)) by {}
            assert(undisturbed(m0, m1, at0, changed));
            assert(weights_live(m1));
            assert forall|b: Buffer| is_state(b) implies !(content(m1, b) is Unset) by {
                assert(content(m0, b) == content(m0, b));
                if !self.belongs(i as int, b) {
                    assert(content(m1, b) == content(m0, b));
                }
            }
            assert(states_live(m1));
            assert(same_weights(m1, m0));
        }
        if p.switches.no_moe {
            return Ok(());
        }
        moe_ffn(ctx, block.moe(), block.post_attn_norm(), residual, p, pass.l)?;
        proof {
            let m2 = ctx.memory();
            lemma_same_moe(
                m1,
                m0,
                p,
                block.experts(),
                block.mid_norm(),
                content(m1, residual.buffer),
                pass.l as u64,
            );
            assert forall|b: Buffer| !later(b, at0) && !changed.contains(b) implies content(m2, b)
                == content(m0, b) && (reserved(m0, b) ==> reserved(m2, b)) by {
                assert(content(m1, b) == content(m0, b));
            }
            assert(undisturbed(m0, m2, at0, changed));
            assert forall|b: Buffer| self.belongs(i as int, b) implies content(m2, b) == content(
                m1,
                b,
            ) by {}
            assert(weights_live(m2));
            assert forall|b: Buffer| is_state(b) implies !(content(m2, b) is Unset) by {
                assert(content(m1, b) == content(m1, b));
                assert(content(m2, b) == content(m1, b));
            }
            assert(states_live(m2));
        }
        Ok(())
    }
}

impl<F: Copy> Qwen35MoeModel<F> {
    /// A layer depends on memory through the weights and what the layer keeps
    /// alone.
    proof fn lemma_same_layer(
        &self,
        a: Memory<F>,
        m: Memory<F>,
        after: Memory<F>,
        cache: &KvCache,
        inp: QwenInput<F>,
        i: int,
        h: Term<F>,
    )
        requires
            self.wf(),
            0 <= i < self.weights.blocks@.len(),
            self.cache_ok(cache, self.weights.blocks@.len() as int),
            same_weights(a, m),
            self.untouched(m, a, i),
        ensures
            self.layer(a, cache, inp, i, h) == self.layer(m, cache, inp, i, h),
            self.layer_kept(a, after, cache, inp, i, h) ==> self.layer_kept(
                m,
                after,
                cache,
                inp,
                i,
                h,
            ),
    {
        let p = &self.params;
        let b = self.weights.blocks@[i];
        let l = inp.pass.l as u64;
        let x = fresh(h, matrix(p.n_embd as u64, l));
        lemma_recurrent_before(p.n_main, p.full_attn_interval, 0, i);
        match b {
            BlockWeights::Attention(att) => {
                assert(cache.layer_named(i));
                assert(self.belongs(i, cache.layer(i).k.buffer));
                assert(self.belongs(i, cache.layer(i).v.buffer));
                assert(content(a, cache.layer(i).k.buffer) == content(
                    m,
                    cache.layer(i).k.buffer,
                ));
                lemma_same_attended(
                    a,
                    m,
                    p,
                    att,
                    cache.layer(i),
                    h,
                    x,
                    words_term(inp.positions),
                    mask_value(inp.mask, l),
                    inp.pass,
                );
            },
            BlockWeights::Ssm(w) => {
                let st = self.states(cache, i, inp.checkpoint);
                assert(self.states_named(cache, self.rank(i)));
                assert(st.conv matches Some(r) ==> self.belongs(i, r.buffer) && content(
                    a,
                    r.buffer,
                ) == content(m, r.buffer));
                assert(st.gdn matches Some(r) ==> self.belongs(i, r.buffer) && content(
                    a,
                    r.buffer,
                ) == content(m, r.buffer));
                assert(st.checkpoint matches Some((g, c)) ==> self.belongs(i, g.buffer)
                    && self.belongs(i, c.buffer) && content(a, g.buffer) == content(m, g.buffer)
                    && content(a, c.buffer) == content(m, c.buffer));
                lemma_same_ssm(a, m, p, w, ssm_shape(p, l, 1), st, x);
            },
        }
        lemma_same_moe(a, m, p, b.experts(), b.mid_norm(), self.mixed(a, cache, inp, i, h), l);
        if self.unmixed(i) && self.layer_kept(a, after, cache, inp, i, h) {
            assert forall|x: Buffer| self.belongs(i, x) implies content(after, x) == content(m, x) by {
                assert(content(a, x) == content(m, x));
            }
        }
    }

    /// A failure among the first layers is the failure of all.
    proof fn lemma_failures(
        &self,
        cache: &KvCache,
        inp: QwenInput<F>,
        k: int,
        layers: int,
        used: int,
        room: u64,
    )
        requires
            0 <= k < layers,
            self.layers_failure(cache, inp, k, used, room) is None,
            self.layer_failure(cache, inp, k, self.used_before(cache, inp, k, used), room) is Some,
        ensures
            self.layers_failure(cache, inp, layers, used, room) == self.layer_failure(
                cache,
                inp,
                k,
                self.used_before(cache, inp, k, used),
                room,
            ),
        decreases layers,
    {
        if k < layers - 1 {
            self.lemma_failures(cache, inp, k, layers - 1, used, room);
        }
    }

    /// Record the layers of a pass over one sequence.
    #[verifier::rlimit(40)]
    fn record_layers(
        &self,
        ctx: &mut DispatchContext<F>,
        cache: &KvCache,
        pro: Prologue,
        pass: QwenPass<F>,
        checkpoint: bool,
        Ghost(inp): Ghost<QwenInput<F>>,
        Ghost(m0): Ghost<Memory<F>>,
        Ghost(at0): Ghost<int>,
    ) -> (r: Result<(), RecordError>)
        requires
            self.wf(),
            self.live(m0),
            self.live(old(ctx).memory()),
            self.cache_ok(cache, self.weights.blocks@.len() as int),
            inp.pass == pass,
            inp.checkpoint == checkpoint,
            pass.l >= 1,
            pass.total_len >= 1,
            0 <= at0 <= old(ctx).at(),
            prologue_done(
                old(ctx),
                at0,
                pro,
                self.params.n_embd as u64,
                pass.l as u64,
                inp.positions,
                inp.mask,
                self.hidden(m0, cache, inp, 0),
            ),
            undisturbed(m0, old(ctx).memory(), at0, Set::empty()),
        ensures
            final(ctx).region == old(ctx).region,
            final(ctx).replay == old(ctx).replay,
            final(ctx).at() >= old(ctx).at(),
            match r {
                Ok(_) => {
                    let n = self.weights.blocks@.len() as int;
                    let m = final(ctx).memory();
                    &&& self.layers_failure(
                        cache,
                        inp,
                        self.depth(),
                        old(ctx).used as int,
                        old(ctx).region,
                    ) is None
                    &&& final(ctx).used == self.used_before(
                        cache,
                        inp,
                        self.depth(),
                        old(ctx).used as int,
                    )
                    &&& content(m, pro.residual.buffer) == self.hidden(
                        m0,
                        cache,
                        inp,
                        self.depth(),
                    )
                    &&& ready(final(ctx), pro.residual)
                    &&& self.live(m)
                    &&& undisturbed(m0, m, at0, sequence_buffers())
                    &&& forall|i: int| 0 <= i < n ==> #[trigger] self.cached(m0, m, cache, inp, i)
                },
                Err(e) => self.layers_failure(
                    cache,
                    inp,
                    self.depth(),
                    old(ctx).used as int,
                    old(ctx).region,
                ) == Some(e),
            },
    {
        let p = &self.params;
        let ghost n = self.weights.blocks@.len() as int;
        let ghost first = ctx.memory();
        let mark: u64 = ctx.scratch_checkpoint();
        let base: u64 = ctx.used;
        proof {
            assert(undisturbed(m0, first, at0, sequence_buffers()));
            assert forall|j: int| 0 <= j < n implies #[trigger] self.untouched(m0, first, j) by {
                assert forall|b: Buffer| self.belongs(j, b) implies content(first, b) == content(
                    m0,
                    b,
                ) by {}
            }
        }
        let keep: bool = p.switches.keep_scratch;
        let depth: usize = match p.switches.max_layers {
            Some(most) => if (most as u64) < self.weights.blocks.len() as u64 {
                most as usize
            } else {
                self.weights.blocks.len()
            },
            None => self.weights.blocks.len(),
        };
        let mut i: usize = 0;
        while i < depth
            invariant
                i <= depth,
                depth == self.depth(),
                depth <= n,
                n == self.weights.blocks@.len(),
                keep == self.params.switches.keep_scratch,
                keep ==> ctx.used == self.used_before(cache, inp, i as int, base as int),
                self.wf(),
                self.live(m0),
                self.live(ctx.memory()),
                ctx.region == old(ctx).region,
                ctx.replay == old(ctx).replay,
                self.cache_ok(cache, n),
                inp.pass == pass,
                inp.checkpoint == checkpoint,
                pass.l >= 1,
                pass.total_len >= 1,
                0 <= at0 <= mark <= ctx.at(),
                mark == old(ctx).at(),
                base == old(ctx).used,
                self.layers_failure(cache, inp, i as int, base as int, ctx.region) is None,
                prologue_done(
                    ctx,
                    at0,
                    pro,
                    self.params.n_embd as u64,
                    pass.l as u64,
                    inp.positions,
                    inp.mask,
                    self.hidden(m0, cache, inp, i as int),
                ),
                settled(pro.positions, at0, mark as int, pro.residual.buffer),
                pro.mask matches Some(t) ==> settled(t, at0, mark as int, pro.residual.buffer),
                pro.residual.buffer matches Buffer::Scratch { id, bytes: _ } && at0 <= id < mark,
                undisturbed(m0, ctx.memory(), at0, sequence_buffers()),
                forall|j: int|
                    0 <= j < i ==> #[trigger] self.cached(m0, ctx.memory(), cache, inp, j),
                forall|j: int| i <= j < n ==> #[trigger] self.untouched(m0, ctx.memory(), j),
            decreases depth - i,
        {
            let ghost m1 = ctx.memory();
            if !keep {
                ctx.scratch_restore(mark, base);
            }
            let ghost m2 = ctx.memory();
            let ghost start = self.used_before(cache, inp, i as int, base as int);
            let ghost h = self.hidden(m0, cache, inp, i as int);
            proof {
                if !keep {
                    lemma_released(m1, mark as int);
                }
                assert(ctx.used == start);
                assert(ready(ctx, pro.residual) && ready(ctx, pro.positions) && ready_opt(
                    ctx,
                    pro.mask,
                ));
                assert(mask_term(m2, pro.mask) == mask_value(inp.mask, pass.l as u64));
                assert forall|b: Buffer|
                    !later(b, at0) && !sequence_buffers().contains(b) implies content(m2, b)
                    == content(m0, b) && (reserved(m0, b) ==> reserved(m2, b)) by {
                    assert(content(m1, b) == content(m0, b));
                }
                assert(undisturbed(m0, m2, at0, sequence_buffers()));
                assert(weights_live(m2));
                assert forall|b: Buffer| is_state(b) implies !(content(m2, b) is Unset) by {
                    assert(content(m2, b) == content(m1, b));
                }
                assert(states_live(m2));
                assert(self.untouched(m0, m1, i as int));
                assert forall|b: Buffer| self.belongs(i as int, b) implies content(m2, b)
                    == content(m0, b) by {
                    assert(content(m1, b) == content(m0, b));
                }
                assert(self.untouched(m0, m2, i as int));
                if self.layer_failure(cache, inp, i as int, start, ctx.region) is Some {
                    self.lemma_failures(cache, inp, i as int, depth as int, base as int, ctx.region);
                }
            }
            self.record_layer(ctx, cache, i, pro, pass, checkpoint, Ghost(inp))?;
            proof {
                let m3 = ctx.memory();
                self.lemma_same_layer(m2, m0, m3, cache, inp, i as int, h);
                assert(content(m3, pro.residual.buffer) == self.hidden(m0, cache, inp, i + 1));
                assert(content(m3, pro.positions.buffer) == content(m2, pro.positions.buffer));
                assert(pro.mask matches Some(t) ==> content(m3, t.buffer) == content(m2, t.buffer));
                assert(ready(ctx, pro.positions) && ready_opt(ctx, pro.mask));
                assert forall|b: Buffer|
                    !later(b, at0) && !sequence_buffers().contains(b) implies content(m3, b)
                    == content(m0, b) && (reserved(m0, b) ==> reserved(m3, b)) by {
                    assert(content(m2, b) == content(m0, b));
                    assert(!self.belongs(i as int, b));
                }
                assert forall|j: int| 0 <= j < i implies #[trigger] self.cached(
                    m0,
                    m3,
                    cache,
                    inp,
                    j,
                ) by {
                    assert(self.cached(m0, m1, cache, inp, j));
                    assert forall|b: Buffer| #[trigger] self.belongs(j, b) implies content(m3, b)
                        == content(m1, b) by {
                        self.lemma_apart(j, i as int, b);
                        assert(content(m2, b) == content(m1, b));
                    }
                    self.lemma_cached_stays(m0, m1, m3, cache, inp, j);
                }
                assert(self.cached(m0, m3, cache, inp, i as int));
                assert forall|j: int| i < j < n implies #[trigger] self.untouched(m0, m3, j) by {
                    assert(self.untouched(m0, m1, j));
                    assert forall|b: Buffer| self.belongs(j, b) implies content(m3, b) == content(
                        m0,
                        b,
                    ) by {
                        self.lemma_apart(j, i as int, b);
                        assert(content(m1, b) == content(m0, b));
                        assert(content(m2, b) == content(m1, b));
                    }
                }
            }
            i += 1;
        }
        let ghost m4 = ctx.memory();
        if !keep {
            ctx.scratch_restore(mark, base);
        }
        proof {
            if !keep {
                lemma_released(m4, mark as int);
            }
            let m5 = ctx.memory();
            assert(ready(ctx, pro.residual));
            assert forall|b: Buffer|
                !later(b, at0) && !sequence_buffers().contains(b) implies content(m5, b) == content(
                m0,
                b,
            ) && (reserved(m0, b) ==> reserved(m5, b)) by {
                assert(content(m4, b) == content(m0, b));
            }
            assert(undisturbed(m0, m5, at0, sequence_buffers()));
            assert(weights_live(m5));
            assert forall|b: Buffer| is_state(b) implies !(content(m5, b) is Unset) by {
                assert(content(m5, b) == content(m4, b));
            }
            assert(states_live(m5));
            assert forall|j: int| 0 <= j < n implies #[trigger] self.cached(
                m0,
                m5,
                cache,
                inp,
                j,
            ) by {
                if j >= depth {
                    assert(self.untouched(m0, m4, j));
                }
                assert(self.cached(m0, m4, cache, inp, j));
                assert forall|b: Buffer| #[trigger] self.belongs(j, b) implies content(m5, b)
                    == content(m4, b) by {}
                self.lemma_cached_stays(m0, m4, m5, cache, inp, j);
            }
        }
        Ok(())
    }

    /// What a layer keeps stays while nothing that belongs to it changes.
    proof fn lemma_cached_stays(
        &self,
        m0: Memory<F>,
        a: Memory<F>,
        c: Memory<F>,
        cache: &KvCache,
        inp: QwenInput<F>,
        j: int,
    )
        requires
            self.wf(),
            0 <= j < self.weights.blocks@.len(),
            self.cache_ok(cache, self.weights.blocks@.len() as int),
            self.cached(m0, a, cache, inp, j),
            forall|b: Buffer| #[trigger] self.belongs(j, b) ==> content(c, b) == content(a, b),
        ensures
            self.cached(m0, c, cache, inp, j),
    {
        if j >= self.depth() || self.unmixed(j) {
            assert forall|b: Buffer| self.belongs(j, b) implies content(c, b) == content(m0, b) by {
                assert(content(a, b) == content(m0, b));
            }
        }
        let p = &self.params;
        lemma_recurrent_before(p.n_main, p.full_attn_interval, 0, j);
        assert(self.states_named(cache, self.rank(j)));
        match self.weights.blocks@[j] {
            BlockWeights::Attention(_) => {
                assert(cache.layer_named(j));
                assert(self.belongs(j, cache.layer(j).k.buffer));
                assert(self.belongs(j, cache.layer(j).v.buffer));
            },
            BlockWeights::Ssm(_) => {
                let st = self.states(cache, j, inp.checkpoint);
                assert(conv_target(st.conv, st.backup()) matches Some(b) ==> self.belongs(j, b));
                assert(st.kept() matches Some(r) ==> self.belongs(j, r.buffer));
            },
        }
    }
}

/// The image columns of a pass.
pub open spec fn given_columns<F>(image: Option<ForwardImage<'_, F>>) -> Option<(Seq<F>, int)> {
    match image {
        Some(fi) => match fi.splice {
            Some((data, start)) => Some((data@, start as int)),
            None => None,
        },
        None => None,
    }
}

/// Record image columns over the hidden state.
fn record_image<F: Copy>(
    ctx: &mut DispatchContext<F>,
    residual: TensorView,
    data: &[F],
    start: usize,
    width: u64,
    l: u64,
) -> (r: Result<(), RecordError>)
    requires
        quiet(old(ctx).memory()),
        width >= 1,
        l >= 1,
        residual == dense(residual.buffer, matrix(width, l)),
        residual.buffer matches Buffer::Scratch { id: _, bytes } && bytes == 4 * width * l,
        4 * width * l <= old(ctx).region,
        ready(old(ctx), residual),
        start + data@.len() as int / width as int <= l,
    ensures
        final(ctx).region == old(ctx).region,
        final(ctx).replay == old(ctx).replay,
        final(ctx).at() >= old(ctx).at(),
        r matches Err(e) ==> e is ScratchExhausted,
        spends(old(ctx), final(ctx), r is Ok, size(matrix(data@.len() as u64, 1))),
        r is Ok ==> {
            let m = old(ctx).memory();
            &&& content(final(ctx).memory(), residual.buffer) == with_columns(
                content(m, residual.buffer),
                Some((data@, start as int)),
                width,
                l,
            )
            &&& ready(final(ctx), residual)
            &&& quiet(final(ctx).memory())
            &&& undisturbed(m, final(ctx).memory(), old(ctx).at(), set![residual.buffer])
        },
{
    let len: u64 = data.len() as u64;
    let count: u64 = len / width;
    let src_buf = ctx.alloc_matrix(len, 1)?;
    ctx.write_f32(src_buf, data);
    proof {
        assert(count * width <= len) by (nonlinear_arith)
            requires
                count == len / width,
                width >= 1,
        ;
        assert(width * count == count * width) by (nonlinear_arith);
        assert(0 <= start * width && start * width <= l * width && count * width <= l * width)
            by (nonlinear_arith)
            requires
                0 <= start <= l,
                0 <= count <= l,
                width >= 0,
        ;
        assert(4 * (l * width) == 4 * width * l) by (nonlinear_arith);
        assert(4 * width <= 4 * width * l) by (nonlinear_arith)
            requires
                l >= 1,
        ;
    }
    let dims = Dims { d0: width, d1: count, d2: 1, d3: 1 };
    let strides = Dims { d0: 1, d1: width, d2: width * count, d3: width * count };
    let src = strided(src_buf.buffer, 0, 4 * (count * width), dims, strides);
    let dst = strided(
        residual.buffer,
        4 * (start as u64 * width),
        4 * (count * width),
        dims,
        strides,
    );
    proof {
        assert(0 * width == 0);
        let own = of_bytes(4 * width * l);
        assert(covers(image_columns(own, width, start as int, count as int)) == covers(dst));
    }
    ctx.apply1(Op::Cast, src, dst, Fence::Own);
    Ok(())
}

/// What a pass notes where its recording is kept for a replay: the first tensor of
/// the pass holds its tokens, and the next one their positions.
pub open spec fn replayed<F>(before: &DispatchContext<F>, l: nat, lag: u32) -> Option<ReplayPlan> {
    if before.replay is Some {
        Some(
            ReplayPlan {
                token_buf_offset: Some(before.used),
                positions_buf_offset: Some((before.used + 4 * l) as u64),
                rope_position_lag: lag,
            },
        )
    } else {
        None
    }
}

/// Where the rotary cursor stands when `position` tokens are cached.
pub open spec fn rope_base(position: u32, lag: u32) -> u32 {
    if position >= lag {
        (position - lag) as u32
    } else {
        0
    }
}

impl<F: Copy> Qwen35MoeModel<F> {
    /// A pass over one sequence.
    pub open spec fn input(
        &self,
        cache: &KvCache,
        tokens: Seq<u32>,
        position: u32,
        image: Option<ForwardImage<'_, F>>,
        checkpoint: bool,
    ) -> QwenInput<F> {
        let l = tokens.len();
        QwenInput {
            tokens,
            positions: match image {
                Some(fi) => fi.positions@,
                None => flattened(
                    axes_from(
                        seq![],
                        l as int,
                        0,
                        rope_base(position, cache.rope_position_lag) as int,
                    ),
                ),
            },
            mask: if l > 1 {
                Some(causal_values(self.mask, l as int))
            } else {
                None
            },
            splice: given_columns(image),
            pass: QwenPass {
                l: l as u32,
                position,
                total_len: (position + l) as u32,
                max_seq_len: cache.max_seq_len,
                direct: cache.direct,
                rope: self.params.rope(image is Some),
            },
            checkpoint,
        }
    }

    /// How many columns the logits have.
    pub open spec fn columns_out(&self, l: u64, full: bool) -> u64 {
        if full {
            l
        } else {
            1
        }
    }

    /// Bytes in use after the inputs of a pass, where `used` were before.
    pub open spec fn inputs_end(&self, inp: QwenInput<F>, used: u64) -> int {
        let l = inp.tokens.len() as u64;
        used + prologue_bytes(
            l,
            inp.positions.len() as u64,
            l > 1,
            self.params.n_embd as u64,
        ) + match inp.splice {
            Some((data, _)) => size(matrix(data.len() as u64, 1)),
            None => 0,
        }
    }

    /// Bytes in use after a pass, where `used` were before.
    pub open spec fn pass_end(
        &self,
        cache: &KvCache,
        inp: QwenInput<F>,
        compute_logits: bool,
        full: bool,
        used: u64,
    ) -> int {
        self.used_before(cache, inp, self.depth(), self.inputs_end(inp, used)) + if compute_logits {
            head_bytes(
                self.params.n_embd as u64,
                self.params.n_vocab as u64,
                self.columns_out(inp.tokens.len() as u64, full),
            )
        } else {
            0
        }
    }

    /// Why a pass fails, if it does, where `used` bytes are in use.
    pub open spec fn failure(
        &self,
        cache: &KvCache,
        inp: QwenInput<F>,
        position: u32,
        compute_logits: bool,
        full: bool,
        used: u64,
        room: u64,
    ) -> Option<RecordError> {
        let p = self.params;
        let layers = self.depth();
        let end = self.inputs_end(inp, used);
        if inp.tokens.len() == 0 {
            Some(RecordError::EmptyPrompt)
        } else if inp.splice matches Some((data, start)) && start + data.len() as int
            / p.n_embd as int > inp.tokens.len() {
            Some(RecordError::SpliceOverrun)
        } else if cache.position != position {
            Some(RecordError::PositionMismatch { cached: cache.position, given: position })
        } else if end > room {
            Some(RecordError::ScratchExhausted)
        } else if self.layers_failure(cache, inp, layers, end, room) is Some {
            self.layers_failure(cache, inp, layers, end, room)
        } else if compute_logits && self.pass_end(cache, inp, compute_logits, full, used) > room {
            Some(RecordError::ScratchExhausted)
        } else {
            None
        }
    }

    /// The logits of a pass: of its last token, or of all.
    pub open spec fn logits(
        &self,
        m: Memory<F>,
        cache: &KvCache,
        inp: QwenInput<F>,
        full: bool,
    ) -> Term<F> {
        let width = self.params.n_embd as u64;
        let l = inp.pass.l as u64;
        let h = self.hidden(m, cache, inp, self.depth());
        let own = dense(Buffer::Scratch { id: 0, bytes: 0 }, matrix(width, l));
        head_term(
            m,
            self.params.rms_eps,
            if full {
                fresh(h, matrix(width, l))
            } else {
                through(h, one_column(own, width, l - 1))
            },
            self.weights.output_norm,
            self.weights.head(),
            width,
            self.params.n_vocab as u64,
            self.columns_out(l, full),
        )
    }

    /// How a pass ends.
    pub open spec fn recorded(
        &self,
        before: &DispatchContext<F>,
        after: &DispatchContext<F>,
        cache: &KvCache,
        cache_after: &KvCache,
        inp: QwenInput<F>,
        position: u32,
        compute_logits: bool,
        full: bool,
        r: Result<ForwardFullOut, RecordError>,
    ) -> bool {
        let m = before.memory();
        let n = self.weights.blocks@.len() as int;
        match r {
            Ok(out) => {
                &&& self.failure(
                    cache,
                    inp,
                    position,
                    compute_logits,
                    full,
                    before.used,
                    before.region,
                ) is None
                &&& after.used == self.pass_end(cache, inp, compute_logits, full, before.used)
                &&& after.replay == replayed(before, inp.tokens.len(), cache.rope_position_lag)
                &&& (out.logits is Some <==> compute_logits)
                &&& out.logits matches Some(t) ==> ready(after, t) && read(after.memory(), t)
                    == self.logits(m, cache, inp, full)
                &&& ready(after, out.residual)
                &&& read(after.memory(), out.residual) == fresh(
                    self.hidden(m, cache, inp, self.depth()),
                    matrix(self.params.n_embd as u64, inp.pass.l as u64),
                )
                &&& forall|i: int|
                    0 <= i < n ==> #[trigger] self.cached(m, after.memory(), cache, inp, i)
                &&& undisturbed(m, after.memory(), before.at(), sequence_buffers())
                &&& self.live(after.memory())
                &&& cache_after.position == position + inp.tokens.len()
                &&& cache_after.same_but_position(cache)
            },
            Err(e) => {
                &&& self.failure(
                    cache,
                    inp,
                    position,
                    compute_logits,
                    full,
                    before.used,
                    before.region,
                ) == Some(e)
                &&& after.replay == before.replay || after.replay == replayed(
                    before,
                    inp.tokens.len(),
                    cache.rope_position_lag,
                )
                &&& *cache_after == *cache
            },
        }
    }

    /// Record a pass over one sequence.
    #[verifier::rlimit(40)]
    fn forward_impl(
        &self,
        ctx: &mut DispatchContext<F>,
        cache: &mut KvCache,
        tokens: &[u32],
        position_offset: u32,
        compute_logits: bool,
        full_logits: bool,
        checkpoint: bool,
        image: Option<ForwardImage<'_, F>>,
    ) -> (r: Result<ForwardFullOut, RecordError>)
        requires
            self.wf(),
            self.live(old(ctx).memory()),
            self.cache_ok(old(cache), self.weights.blocks@.len() as int),
            has_room(old(cache), position_offset, tokens@.len()),
            tokens@.len() * tokens@.len() <= usize::MAX,
            4 * tokens@.len() <= usize::MAX,
            image matches Some(fi) ==> fi.positions@.len() == 4 * tokens@.len(),
            given_columns(image) matches Some((data, start)) ==> start + data.len() <= usize::MAX,
        ensures
            final(ctx).region == old(ctx).region,
            self.recorded(
                old(ctx),
                final(ctx),
                old(cache),
                final(cache),
                self.input(old(cache), tokens@, position_offset, image, checkpoint),
                position_offset,
                compute_logits,
                full_logits,
                r,
            ),
    {
        let p = &self.params;
        let n: usize = tokens.len();
        let ghost inp = self.input(cache, tokens@, position_offset, image, checkpoint);
        if n == 0 {
            return Err(RecordError::EmptyPrompt);
        }
        let splice: Option<(&[F], usize)> = match &image {
            Some(fi) => fi.splice,
            None => None,
        };
        match splice {
            Some((data, start)) => {
                let cols: usize = data.len() / p.n_embd as usize;
                assert(cols <= data@.len()) by (nonlinear_arith)
                    requires
                        cols == data@.len() as int / p.n_embd as int,
                        p.n_embd >= 1,
                ;
                if start + cols > n {
                    return Err(RecordError::SpliceOverrun);
                }
            },
            None => {},
        }
        if cache.position != position_offset {
            return Err(
                RecordError::PositionMismatch { cached: cache.position, given: position_offset },
            );
        }
        let l: u32 = n as u32;
        let total_len: u32 = position_offset + l;
        let hidden: u64 = p.n_embd as u64;
        let imrope: bool = image.is_some();
        let pass = QwenPass {
            l,
            position: position_offset,
            total_len,
            max_seq_len: cache.max_seq_len,
            direct: cache.direct,
            rope: p.rope_params(imrope),
        };
        let lag: u32 = cache.rope_position_lag;
        let base: u32 = if position_offset >= lag {
            position_offset - lag
        } else {
            0
        };
        let positions: Vec<u32> = match &image {
            Some(fi) => vstd::slice::slice_to_vec(fi.positions),
            None => {
                let none: [ImageSpan; 0] = [];
                proof {
                    lemma_cursor(none@, n as int, 0, base as int);
                }
                let list = build_decoder_mrope_positions(n, base, &none);
                proof {
                    assert(none@ =~= seq![]);
                    lemma_flattened(list@, axes_from(seq![], n as int, 0, base as int));
                }
                list
            },
        };
        let mask: Option<Vec<F>> = if l > 1 {
            Some(causal_mask(n, self.mask))
        } else {
            None
        };
        let mask_data: Option<&[F]> = match &mask {
            Some(data) => Some(data.as_slice()),
            None => None,
        };
        let ghost m0 = ctx.memory();
        let ghost at0 = ctx.at();
        let start: u64 = ctx.used;
        assert(ready(ctx, self.weights.token_embd));
        let pro = record_prologue(
            ctx,
            tokens,
            positions.as_slice(),
            mask_data,
            self.weights.token_embd,
            hidden,
        )?;
        let ghost m1 = ctx.memory();
        proof {
            lemma_size_matrix(l as u64, 1);
            assert(4 * hidden * (l as u64) * 1 * 1 == 4 * hidden * l) by (nonlinear_arith);
            assert(pro.residual.buffer matches Buffer::Scratch { id: _, bytes } && bytes == 4
                * hidden * l);
        }
        if ctx.replay.is_some() {
            ctx.replay = Some(
                ReplayPlan {
                    token_buf_offset: Some(start),
                    positions_buf_offset: Some(start + 4 * l as u64),
                    rope_position_lag: cache.rope_position_lag,
                },
            );
        }
        match splice {
            Some((data, start)) => {
                record_image(ctx, pro.residual, data, start, hidden, l as u64)?;
            },
            None => {},
        }
        proof {
            let m2 = ctx.memory();
            assert(content(m2, pro.positions.buffer) == content(m1, pro.positions.buffer));
            assert(pro.mask matches Some(t) ==> content(m2, t.buffer) == content(m1, t.buffer));
            assert(ready(ctx, pro.positions) && ready_opt(ctx, pro.mask) && ready(
                ctx,
                pro.residual,
            ));
            assert forall|b: Buffer| !later(b, at0) implies content(m2, b) == content(m0, b) && (
            reserved(m0, b) ==> reserved(m2, b)) by {
                assert(content(m1, b) == content(m0, b));
            }
            assert(undisturbed(m0, m2, at0, Set::empty()));
            assert(weights_live(m2));
            assert(states_live(m2));
        }
        self.record_layers(
            ctx,
            &*cache,
            pro,
            pass,
            checkpoint,
            Ghost(inp),
            Ghost(m0),
            Ghost(at0),
        )?;
        let ghost m3 = ctx.memory();
        if !compute_logits {
            cache.advance(l);
            return Ok(ForwardFullOut { logits: None, residual: pro.residual });
        }
        let head = match self.weights.output {
            Some(t) => t,
            None => self.weights.token_embd,
        };
        proof {
            assert(ready(ctx, head) && ready(ctx, self.weights.output_norm));
            assert((l - 1) * hidden * 4 <= 4 * hidden * l) by (nonlinear_arith)
                requires
                    l >= 1,
            ;
            assert((l - 1) * hidden <= (l - 1) * hidden * 4) by (nonlinear_arith)
                requires
                    l >= 1,
            ;
            assert(hidden * 4 <= 4 * hidden * l) by (nonlinear_arith)
                requires
                    l >= 1,
            ;
        }
        let (x, cols): (TensorView, u64) = if full_logits {
            (pro.residual, l as u64)
        } else {
            (last_column(pro.residual, hidden, l as u64 - 1), 1)
        };
        let logits = record_head(
            ctx,
            p.rms_eps,
            x,
            self.weights.output_norm,
            head,
            hidden,
            p.n_vocab as u64,
            cols,
        )?;
        proof {
            let m4 = ctx.memory();
            assert(content(m4, pro.residual.buffer) == content(m3, pro.residual.buffer));
            assert(ready(ctx, pro.residual));
            assert forall|b: Buffer|
                !later(b, at0) && !sequence_buffers().contains(b) implies content(m4, b) == content(
                m0,
                b,
            ) && (reserved(m0, b) ==> reserved(m4, b)) by {
                assert(content(m3, b) == content(m0, b));
            }
            assert(undisturbed(m0, m4, at0, sequence_buffers()));
            assert(weights_live(m4));
            assert forall|b: Buffer| is_state(b) implies !(content(m4, b) is Unset) by {
                assert(content(m4, b) == content(m3, b));
            }
            assert(states_live(m4));
            assert forall|j: int| 0 <= j < self.weights.blocks@.len() implies #[trigger] self.cached(
                m0,
                m4,
                cache,
                inp,
                j,
            ) by {
                assert(self.cached(m0, m3, cache, inp, j));
                assert forall|b: Buffer| #[trigger] self.belongs(j, b) implies content(m4, b)
                    == content(m3, b) by {}
                self.lemma_cached_stays(m0, m3, m4, &*cache, inp, j);
            }
        }
        cache.advance(l);
        Ok(ForwardFullOut { logits: Some(logits), residual: pro.residual })
    }

    /// Record a forward pass of one sequence; the last token's logits are
    /// computed on request only.
    pub fn record_forward(
        &self,
        ctx: &mut DispatchContext<F>,
        cache: &mut KvCache,
        tokens: &[u32],
        position_offset: u32,
        compute_logits: bool,
    ) -> (r: Result<Option<TensorView>, RecordError>)
        requires
            self.wf(),
            self.live(old(ctx).memory()),
            self.cache_ok(old(cache), self.weights.blocks@.len() as int),
            has_room(old(cache), position_offset, tokens@.len()),
            tokens@.len() * tokens@.len() <= usize::MAX,
            4 * tokens@.len() <= usize::MAX,
        ensures
            final(ctx).region == old(ctx).region,
            self.recorded_logits(
                old(ctx),
                final(ctx),
                old(cache),
                final(cache),
                self.input(old(cache), tokens@, position_offset, None, false),
                position_offset,
                compute_logits,
                r,
            ),
    {
        let out = self.forward_impl(
            ctx,
            cache,
            tokens,
            position_offset,
            compute_logits,
            false,
            false,
            None,
        )?;
        Ok(out.logits)
    }

    /// How a pass ends whose hidden states are not asked for.
    pub open spec fn recorded_logits(
        &self,
        before: &DispatchContext<F>,
        after: &DispatchContext<F>,
        cache: &KvCache,
        cache_after: &KvCache,
        inp: QwenInput<F>,
        position: u32,
        compute_logits: bool,
        r: Result<Option<TensorView>, RecordError>,
    ) -> bool {
        match r {
            Ok(logits) => exists|residual: TensorView| #[trigger]
                self.recorded(
                    before,
                    after,
                    cache,
                    cache_after,
                    inp,
                    position,
                    compute_logits,
                    false,
                    Ok(ForwardFullOut { logits, residual }),
                ),
            Err(e) => self.recorded(
                before,
                after,
                cache,
                cache_after,
                inp,
                position,
                compute_logits,
                false,
                Err(e),
            ),
        }
    }

    /// Record a forward pass that gives every token's hidden state, and logits of
    /// the last token or of all. With a checkpoint, recurrent states are kept for
    /// a rollback in place of being carried on.
    pub fn record_forward_full(
        &self,
        ctx: &mut DispatchContext<F>,
        cache: &mut KvCache,
        tokens: &[u32],
        position_offset: u32,
        full_logits: bool,
        checkpoint: bool,
    ) -> (r: Result<ForwardFullOut, RecordError>)
        requires
            self.wf(),
            self.live(old(ctx).memory()),
            self.cache_ok(old(cache), self.weights.blocks@.len() as int),
            has_room(old(cache), position_offset, tokens@.len()),
            tokens@.len() * tokens@.len() <= usize::MAX,
            4 * tokens@.len() <= usize::MAX,
        ensures
            final(ctx).region == old(ctx).region,
            self.recorded(
                old(ctx),
                final(ctx),
                old(cache),
                final(cache),
                self.input(old(cache), tokens@, position_offset, None, checkpoint),
                position_offset,
                true,
                full_logits,
                r,
            ),
    {
        self.forward_impl(
            ctx,
            cache,
            tokens,
            position_offset,
            true,
            full_logits,
            checkpoint,
            None,
        )
    }

    /// The pass over one chunk of a prompt that holds an image.
    pub open spec fn chunk_input(
        &self,
        cache: &KvCache,
        tokens: Seq<u32>,
        chunk: int,
        embeddings: Seq<F>,
        span: ImageSpan,
        prompt_pos0: u32,
    ) -> QwenInput<F> {
        let width = self.params.n_embd as int;
        QwenInput {
            positions: flattened(
                Seq::new(
                    tokens.len(),
                    |t: int|
                        window_axes(
                            rope_base(prompt_pos0, cache.rope_position_lag),
                            Some(span),
                            chunk + t,
                        ),
                ),
            ),
            splice: taken_columns(
                embeddings,
                width,
                chunk,
                tokens.len() as int,
                span.start as int,
                span.n_tok as int,
            ),
            pass: QwenPass {
                rope: self.params.rope(true),
                ..self.input(cache, tokens, cache.position, None, false).pass
            },
            ..self.input(cache, tokens, cache.position, None, false)
        }
    }

    /// The image columns that chunk `k` of a prompt takes.
    pub open spec fn chunk_splice(
        &self,
        caches: Seq<KvCache>,
        tokens: Seq<u32>,
        cuts: Seq<int>,
        k: int,
        embeddings: Seq<F>,
        span: ImageSpan,
        prompt_pos0: u32,
    ) -> Option<(Seq<F>, int)> {
        self.chunk_input(
            &caches[k],
            tokens.subrange(cuts[k], cuts[k + 1]),
            cuts[k],
            embeddings,
            span,
            prompt_pos0,
        ).splice
    }

    /// Over the chunks of a prompt that holds the whole image, each image column is
    /// spliced exactly once: in the chunk that holds its token, at that token's
    /// column. Every column that a chunk splices is that of an image token.
    pub proof fn law_chunks_splice_every_column(
        &self,
        caches: Seq<KvCache>,
        tokens: Seq<u32>,
        cuts: Seq<int>,
        embeddings: Seq<F>,
        span: ImageSpan,
        prompt_pos0: u32,
        j: int,
    ) -> (k: int)
        requires
            self.params.n_embd > 0,
            parts_prompt(cuts),
            cuts.last() == tokens.len(),
            span.start + span.n_tok <= tokens.len(),
            embeddings.len() == self.params.n_embd * span.n_tok,
            0 <= j < span.n_tok,
        ensures
            0 <= k < cuts.len() - 1,
            spliced_at(
                self.chunk_splice(caches, tokens, cuts, k, embeddings, span, prompt_pos0),
                self.params.n_embd as int,
                span.start + j - cuts[k],
                embeddings.subrange(
                    j * self.params.n_embd,
                    (j + 1) * self.params.n_embd,
                ),
            ),
            forall|other: int|
                0 <= other < cuts.len() - 1 && other != k ==> !#[trigger] splices(
                    self.chunk_splice(caches, tokens, cuts, other, embeddings, span, prompt_pos0),
                    self.params.n_embd as int,
                    span.start + j - cuts[other],
                ),
            forall|other: int, c: int|
                0 <= other < cuts.len() - 1 && #[trigger] splices(
                    self.chunk_splice(caches, tokens, cuts, other, embeddings, span, prompt_pos0),
                    self.params.n_embd as int,
                    c,
                ) ==> span.start <= cuts[other] + c < span.start + span.n_tok,
    {
        let width = self.params.n_embd as int;
        assert forall|other: int| 0 <= other < cuts.len() - 1 implies #[trigger] self.chunk_splice(
            caches,
            tokens,
            cuts,
            other,
            embeddings,
            span,
            prompt_pos0,
        ) == chunk_columns(
            embeddings,
            width,
            cuts,
            other,
            span.start as int,
            span.n_tok as int,
        ) by {
            lemma_chunk(cuts, other);
            assert(tokens.subrange(cuts[other], cuts[other + 1]).len() == cuts[other + 1]
                - cuts[other]);
        }
        let k = law_every_column_is_taken_once(
            embeddings,
            width,
            cuts,
            span.start as int,
            span.n_tok as int,
            j,
        );
        assert(self.chunk_splice(caches, tokens, cuts, k, embeddings, span, prompt_pos0)
            == chunk_columns(
            embeddings,
            width,
            cuts,
            k,
            span.start as int,
            span.n_tok as int,
        ));
        k
    }

    /// Record one chunk of a prompt that holds an image. Positions follow the
    /// image's grid, and the image's columns take the places of its tokens.
    pub fn record_forward_image_chunk(
        &self,
        ctx: &mut DispatchContext<F>,
        cache: &mut KvCache,
        chunk_tokens: &[u32],
        chunk_global_start: usize,
        image_embeddings: &[F],
        image_global_start: usize,
        image_nx: usize,
        image_ny: usize,
        prompt_pos0: u32,
        compute_logits: bool,
    ) -> (r: Result<Option<TensorView>, RecordError>)
        requires
            self.wf(),
            self.live(old(ctx).memory()),
            self.cache_ok(old(cache), self.weights.blocks@.len() as int),
            has_room(old(cache), old(cache).position, chunk_tokens@.len()),
            chunk_tokens@.len() * chunk_tokens@.len() <= usize::MAX,
            4 * chunk_tokens@.len() <= usize::MAX,
            chunk_global_start + chunk_tokens@.len() <= usize::MAX,
            image_nx * image_ny <= usize::MAX,
            image_global_start + image_nx * image_ny <= usize::MAX,
            self.params.n_embd * (image_nx * image_ny) <= usize::MAX,
            chunk_tokens@.len() + self.params.n_embd * (image_nx * image_ny) <= usize::MAX,
            forall|j: int|
                chunk_global_start <= j < chunk_global_start + chunk_tokens@.len()
                    ==> crate::models::mrope::fits(
                    #[trigger] window_axes(
                        rope_base(prompt_pos0, old(cache).rope_position_lag),
                        Some(
                            ImageSpan {
                                start: image_global_start,
                                n_tok: (image_nx * image_ny) as usize,
                                nx: image_nx,
                                ny: image_ny,
                            },
                        ),
                        j,
                    ),
                ),
        ensures
            final(ctx).region == old(ctx).region,
            if image_embeddings@.len() != self.params.n_embd * (image_nx * image_ny) {
                &&& r == Err::<Option<TensorView>, RecordError>(RecordError::ImageColumns)
                &&& *final(cache) == *old(cache)
                &&& *final(ctx) == *old(ctx)
            } else {
                self.recorded_logits(
                    old(ctx),
                    final(ctx),
                    old(cache),
                    final(cache),
                    self.chunk_input(
                        old(cache),
                        chunk_tokens@,
                        chunk_global_start as int,
                        image_embeddings@,
                        ImageSpan {
                            start: image_global_start,
                            n_tok: (image_nx * image_ny) as usize,
                            nx: image_nx,
                            ny: image_ny,
                        },
                        prompt_pos0,
                    ),
                    old(cache).position,
                    compute_logits,
                    r,
                )
            },
    {
        let n_embd: usize = self.params.n_embd as usize;
        let n_tok: usize = image_nx * image_ny;
        if image_embeddings.len() != n_embd * n_tok {
            return Err(RecordError::ImageColumns);
        }
        let l: usize = chunk_tokens.len();
        let span = ImageSpan { start: image_global_start, n_tok, nx: image_nx, ny: image_ny };
        let lag: u32 = cache.rope_position_lag;
        let base: u32 = if prompt_pos0 >= lag {
            prompt_pos0 - lag
        } else {
            0
        };
        proof {
            assert(n_tok > 0 ==> image_nx > 0) by (nonlinear_arith)
                requires
                    n_tok == image_nx * image_ny,
            ;
        }
        let positions = build_decoder_mrope_positions_window(
            base,
            Some(span),
            chunk_global_start,
            l,
        );
        let ghost inp = self.chunk_input(
            cache,
            chunk_tokens@,
            chunk_global_start as int,
            image_embeddings@,
            span,
            prompt_pos0,
        );
        proof {
            lemma_flattened(
                positions@,
                Seq::new(
                    l as nat,
                    |t: int| window_axes(base, Some(span), chunk_global_start + t),
                ),
            );
        }
        let position: u32 = cache.position;
        let splice: Option<(&[F], usize)> = match image_overlap(
            chunk_global_start,
            l,
            image_global_start,
            n_tok,
        ) {
            Some(s) => {
                proof {
                    lemma_columns_within(
                        s.first as int,
                        s.count as int,
                        n_embd as int,
                        n_tok as int,
                    );
                    assert((s.first + s.count) * n_embd - s.first * n_embd == s.count * n_embd)
                        by (nonlinear_arith);
                    assert(s.count * n_embd <= n_embd * n_tok) by (nonlinear_arith)
                        requires
                            s.count <= n_tok,
                    ;
                    assert((s.count * n_embd) as int / n_embd as int == s.count)
                        by (nonlinear_arith)
                        requires
                            n_embd >= 1,
                    ;
                }
                let sub = vstd::slice::slice_subrange(
                    image_embeddings,
                    s.first * n_embd,
                    (s.first + s.count) * n_embd,
                );
                Some((sub, s.at))
            },
            None => None,
        };
        let image = Some(ForwardImage { positions: positions.as_slice(), splice });
        assert(self.input(cache, chunk_tokens@, position, image, false) == inp);
        let out = self.forward_impl(
            ctx,
            cache,
            chunk_tokens,
            position,
            compute_logits,
            false,
            false,
            image,
        )?;
        Ok(out.logits)
    }
}

} // verus!
