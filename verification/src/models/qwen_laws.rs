//! What the passes of the Qwen 3.5 mixture-of-experts model compute.
use vstd::prelude::*;

use crate::models::blocks::{
    mask_value, slab_term, words_term, LayerCache, SeqPlan,
};
use crate::models::cache::{BatchKvCache, KvCache};
use crate::models::llama_laws::{grouped, lemma_ratio, lemma_slabs_alike};
use crate::models::meaning::{
    flat, lemma_values, replaced, value, value_opt, weighed, ConvSizes, Meaning,
};
use crate::models::qwen35_attention::{
    own_matrix, q_width, qwen_attended, qwen_batch_attended, qwen_k, qwen_k_cache, qwen_k_slabs,
    qwen_v, qwen_v_cache, qwen_v_slabs, QwenPass,
};
use crate::models::qwen35_batch::QwenBatch;
use crate::models::qwen35_moe::moe_term;
use crate::models::qwen35_mtp::{draft_start, half_view};
use crate::models::qwen35_ssm::{
    of_bytes, shown_term, ssm_conv_input, ssm_conv_kept, ssm_gdn_kept, ssm_scan, ssm_shape, ssm_term,
    SsmShape,
    SsmStates,
};
use crate::models::qwen35_ssm_batch::{batch_conv_input, batch_scan, ssm_batch_term};
use crate::models::qwen35_weights::{
    q_half, AttentionBlockWeights, BlockWeights, MtpWeights, Qwen35MoeParams, Shown, SsmBlockWeights,
};
use crate::models::qwen35moe::{Qwen35MoeModel, QwenInput};
use crate::models::recorder::{content, fresh, read, shape, Memory, RopeMultiParams, Term};
use crate::models::tensor::{
    attn_view, dense, flat_view, matrix, one_column, Buffer, TensorView,
};

verus! {

/// A cache layer that holds `held`, as attention reads it: in place, or a copy of
/// its first tokens.
pub open spec fn recalled_whole<F, V>(
    k: Meaning<F, V>,
    held: V,
    layer: TensorView,
    head_dim: u32,
    heads: u32,
    capacity: u64,
    len: u32,
    direct: bool,
) -> V {
    if direct {
        (k.seen)(held, shape(attn_view(layer, head_dim as u64, capacity, heads as u64)))
    } else {
        (k.first)(len, (k.seen)(held, shape(layer)))
    }
}

/// What an attention layer caches: the product of the normalized input with the
/// key weights, normalized head by head and rotated, behind the keys that are
/// there; and that with the value weights behind the values. It is the same for
/// caches of half floats and of other types.
pub proof fn law_qwen_caches_keys_and_values<F: Copy, V>(
    k: Meaning<F, V>,
    m: Memory<F>,
    p: &Qwen35MoeParams<F>,
    b: AttentionBlockWeights,
    layer: LayerCache,
    x: Term<F>,
    positions: Term<F>,
    pass: QwenPass<F>,
)
    requires
        flat(k),
    ensures
        ({
            let n = weighed(k, p.rms_eps, value(k, x), value(k, read(m, b.attn_norm)));
            let keys = (k.turned)(
                pass.rope,
                weighed(
                    k,
                    p.rms_eps,
                    (k.product)(value(k, read(m, b.wk)), n),
                    value(k, read(m, b.attn_k_norm)),
                ),
                value(k, positions),
            );
            let values = (k.product)(value(k, read(m, b.wv)), n);
            &&& value(k, qwen_k_cache(m, p, b, layer, x, positions, pass)) == (k.over)(
                value(k, content(m, layer.k.buffer)),
                shape(layer.k),
                (k.placed)(pass.position, keys),
            )
            &&& value(k, qwen_v_cache(m, p, b, layer, x, pass)) == (k.over)(
                value(k, content(m, layer.v.buffer)),
                shape(layer.v),
                (k.placed)(pass.position, values),
            )
        }),
{
    reveal(qwen_k_cache);
    reveal(qwen_v_cache);
    lemma_values(k);
}

/// The double projection behind an attention half: for each head a query and a
/// gate. The query is normalized and rotated; attention's output is multiplied by
/// the sigmoid of that gate, and goes through the output weights onto the input.
pub open spec fn gated_attention<F, V>(
    k: Meaning<F, V>,
    m: Memory<F>,
    p: &Qwen35MoeParams<F>,
    b: AttentionBlockWeights,
    x: V,
    both: V,
    out: V,
    l: u64,
) -> V {
    let gate = (k.seen)(
        both,
        shape(q_half(own_matrix(q_width(p), l), p.head_dim_k as u64, p.n_head as u64, l, true)),
    );
    (k.sum)(
        x,
        (k.product)(value(k, read(m, b.wo)), (k.times)((k.sigmoid)(gate), out)),
    )
}

/// The attention half of a layer adds to its input the gated output of attention
/// through the output weights: attention of the rotated queries over the cache as
/// this pass leaves it. That it is added in one step for a single token, and in two
/// for several, makes no difference.
pub proof fn law_qwen_attends_behind_a_gate<F: Copy, V>(
    k: Meaning<F, V>,
    m: Memory<F>,
    p: &Qwen35MoeParams<F>,
    b: AttentionBlockWeights,
    layer: LayerCache,
    h: Term<F>,
    positions: Term<F>,
    mask: Option<Term<F>>,
    pass: QwenPass<F>,
)
    requires
        flat(k),
        p.n_head_kv > 0,
    ensures
        ({
            let l = pass.l as u64;
            let x = value(k, h);
            let xt = fresh(h, matrix(p.n_embd as u64, l));
            let n = weighed(k, p.rms_eps, x, value(k, read(m, b.attn_norm)));
            let both = (k.product)(value(k, read(m, b.wq)), n);
            let q = (k.turned)(
                pass.rope,
                weighed(k, p.rms_eps, both, value(k, read(m, b.attn_q_norm))),
                value(k, positions),
            );
            let out = (k.attend)(
                grouped(p.head_dim_k, p.head_dim_v, p.n_head, p.n_head_kv, p.attn_scale, 0),
                pass.total_len,
                q,
                recalled_whole(
                    k,
                    value(k, qwen_k_cache(m, p, b, layer, xt, positions, pass)),
                    layer.k,
                    p.head_dim_k,
                    p.n_head_kv,
                    layer.k.dims.d2,
                    pass.total_len,
                    pass.direct,
                ),
                recalled_whole(
                    k,
                    value(k, qwen_v_cache(m, p, b, layer, xt, pass)),
                    layer.v,
                    p.head_dim_v,
                    p.n_head_kv,
                    layer.k.dims.d2,
                    pass.total_len,
                    pass.direct,
                ),
                value_opt(k, mask),
            );
            value(k, qwen_attended(m, p, b, layer, h, positions, mask, pass)) == gated_attention(
                k,
                m,
                p,
                b,
                x,
                both,
                out,
                l,
            )
        }),
{
    reveal(qwen_attended);
    lemma_values(k);
    lemma_ratio(p.n_head, p.n_head_kv);
}

/// The attention half of a batched pass does over the slabs what it does over one
/// cache.
pub proof fn law_qwen_batch_attends_behind_a_gate<F: Copy, V>(
    k: Meaning<F, V>,
    m: Memory<F>,
    p: &Qwen35MoeParams<F>,
    b: AttentionBlockWeights,
    batch: &BatchKvCache,
    layer: int,
    seqs: SeqPlan,
    h: Term<F>,
    positions: Term<F>,
    n_total: u64,
    decode: bool,
)
    requires
        flat(k),
        p.n_head_kv > 0,
    ensures
        ({
            let x = value(k, h);
            let xt = fresh(h, matrix(p.n_embd as u64, n_total));
            let n = weighed(k, p.rms_eps, x, value(k, read(m, b.attn_norm)));
            let both = (k.product)(value(k, read(m, b.wq)), n);
            let q = (k.turned)(
                RopeMultiParams {
                    dim: p.rope_dim,
                    freq_base: p.rope_freq_base,
                    sections: p.rope_sections,
                    is_imrope: false,
                },
                weighed(k, p.rms_eps, both, value(k, read(m, b.attn_q_norm))),
                value(k, positions),
            );
            let out = (k.attend_many)(
                grouped(p.head_dim_k, p.head_dim_v, p.n_head, p.n_head_kv, p.attn_scale, 0),
                q,
                (k.seen)(
                    value(k, qwen_k_slabs(m, p, b, batch, layer, seqs, xt, positions, n_total)),
                    shape(batch.k_attn@[layer]),
                ),
                (k.seen)(
                    value(k, qwen_v_slabs(m, p, b, batch, layer, seqs, xt, n_total)),
                    shape(batch.v_attn@[layer]),
                ),
                (k.lengths)(
                    seqs.kv_lens,
                    seqs.slots,
                    if decode {
                        None
                    } else {
                        Some(seqs.lens)
                    },
                ),
            );
            value(
                k,
                qwen_batch_attended(m, p, b, batch, layer, seqs, h, positions, n_total, decode),
            ) == gated_attention(k, m, p, b, x, both, out, n_total)
        }),
{
    reveal(qwen_batch_attended);
    lemma_values(k);
    lemma_ratio(p.n_head, p.n_head_kv);
}

/// What a batched pass writes into the key slabs of an attention layer is made with
/// the key weights, normalized and rotated, and what it writes into the value slabs
/// with the value weights.
pub proof fn law_qwen_slabs_keep_keys_and_values<F: Copy, V>(
    k: Meaning<F, V>,
    m: Memory<F>,
    p: &Qwen35MoeParams<F>,
    b: AttentionBlockWeights,
    batch: &BatchKvCache,
    layer: int,
    seqs: SeqPlan,
    x: Term<F>,
    positions: Term<F>,
    n_total: u64,
    keys: Term<F>,
    values: Term<F>,
)
    requires
        flat(k),
        ({
            let n = weighed(k, p.rms_eps, value(k, x), value(k, read(m, b.attn_norm)));
            &&& value(k, keys) == (k.turned)(
                RopeMultiParams {
                    dim: p.rope_dim,
                    freq_base: p.rope_freq_base,
                    sections: p.rope_sections,
                    is_imrope: false,
                },
                weighed(
                    k,
                    p.rms_eps,
                    (k.product)(value(k, read(m, b.wk)), n),
                    value(k, read(m, b.attn_k_norm)),
                ),
                value(k, positions),
            )
            &&& value(k, values) == (k.product)(value(k, read(m, b.wv)), n)
        }),
    ensures
        value(k, qwen_k_slabs(m, p, b, batch, layer, seqs, x, positions, n_total)) == value(
            k,
            slab_term(
                m,
                batch.k_slab@[layer],
                batch.k_slab_bytes,
                keys,
                seqs,
                p.head_dim_k as u64,
                p.n_head_kv as u64,
                seqs.lens.len() as int,
            ),
        ),
        value(k, qwen_v_slabs(m, p, b, batch, layer, seqs, x, n_total)) == value(
            k,
            slab_term(
                m,
                batch.v_slab@[layer],
                batch.v_slab_bytes,
                values,
                seqs,
                p.head_dim_v as u64,
                p.n_head_kv as u64,
                seqs.lens.len() as int,
            ),
        ),
{
    reveal(qwen_k_slabs);
    reveal(qwen_v_slabs);
    lemma_values(k);
    let held = content(m, batch.k_slab@[layer].buffer);
    lemma_slabs_alike(
        k,
        held,
        held,
        batch.k_slab@[layer],
        batch.k_slab_bytes,
        qwen_k(m, p, b, p.rope(false), x, positions, n_total),
        keys,
        seqs,
        p.head_dim_k as u64,
        p.n_head_kv as u64,
        seqs.lens.len() as int,
    );
    let held = content(m, batch.v_slab@[layer].buffer);
    lemma_slabs_alike(
        k,
        held,
        held,
        batch.v_slab@[layer],
        batch.v_slab_bytes,
        qwen_v(m, p, b, x, n_total),
        values,
        seqs,
        p.head_dim_v as u64,
        p.n_head_kv as u64,
        seqs.lens.len() as int,
    );
}

/// The decay of a recurrent layer's scan over the normalized input `n`, and its
/// rate.
pub open spec fn decay<F, V>(
    k: Meaning<F, V>,
    m: Memory<F>,
    w: SsmBlockWeights,
    heads: u64,
    n: V,
) -> V {
    (k.times)(
        (k.softplus)(
            heads as u32,
            (k.sum)(
                (k.product)(value(k, read(m, w.ssm_alpha)), n),
                value(k, read(m, w.ssm_dt_bias)),
            ),
        ),
        value(k, read(m, w.ssm_a)),
    )
}

/// The rate of a recurrent layer's scan over the normalized input `n`.
pub open spec fn rate<F, V>(k: Meaning<F, V>, m: Memory<F>, w: SsmBlockWeights, n: V) -> V {
    (k.sigmoid)((k.product)(value(k, read(m, w.ssm_beta)), n))
}

/// The convolution's input: the state's tokens, where there is a state, before the
/// projections of the new ones.
pub open spec fn lined_up<F, V>(
    k: Meaning<F, V>,
    m: Memory<F>,
    c: SsmShape,
    conv: Option<crate::models::tensor::BufferRange>,
    qkv: V,
) -> V {
    let own = of_bytes(c.conv_bytes());
    let before = match conv {
        Some(r) => replaced(
            k,
            k.zeros,
            c.prefix(own),
            (k.seen)(value(k, content(m, r.buffer)), shape(c.conv_state(r))),
        ),
        None => k.zeros,
    };
    replaced(k, before, c.tail(own), (k.seen)(qkv, shape(c.by_token(own))))
}

/// A recurrent layer's convolution works on its state followed by the projections
/// of the new tokens by the joint weights.
pub proof fn law_convolution_continues_its_state<F: Copy, V>(
    k: Meaning<F, V>,
    m: Memory<F>,
    p: &Qwen35MoeParams<F>,
    w: SsmBlockWeights,
    c: SsmShape,
    st: SsmStates,
    x: Term<F>,
)
    requires
        flat(k),
    ensures
        ({
            let n = weighed(k, p.rms_eps, value(k, x), value(k, read(m, w.attn_norm)));
            value(k, ssm_conv_input(m, p, w, c, st, x)) == lined_up(
                k,
                m,
                c,
                st.conv,
                (k.product)(value(k, read(m, w.attn_qkv)), n),
            )
        }),
{
    lemma_values(k);
}

/// Sizes of a recurrent layer's convolution: all heads' queries, keys and values are
/// channels, and each token is convolved with the ones before it that the kernel
/// reaches.
pub open spec fn sizes_of(c: SsmShape) -> ConvSizes {
    ConvSizes {
        channels: (c.num_k * c.s_v + c.num_k * c.s_v + c.num_v * c.s_v) as u32 as int,
        before_and_new: (c.kernel - 1 + c.l) as u32 as int,
        new: c.l as u32 as int,
        sequences: c.b as u32 as int,
        taps: c.kernel as u32 as int,
    }
}

/// The scan of a recurrent layer over convolved projections: queries and keys of
/// unit length from its first two stretches, values from its third, with the
/// layer's decay and rate.
pub open spec fn scanned<F: Copy, V>(
    k: Meaning<F, V>,
    m: Memory<F>,
    p: &Qwen35MoeParams<F>,
    w: SsmBlockWeights,
    c: SsmShape,
    snapshots: u64,
    scale: F,
    n: V,
    conv: V,
    state: V,
) -> V {
    let own = of_bytes(0);
    (k.scan)(
        crate::models::qwen35_ssm::scan_params(c, snapshots, scale),
        (k.unit)(p.l2_eps, (k.seen)(conv, shape(c.heads(own, 0, c.num_k)))),
        (k.unit)(p.l2_eps, (k.seen)(conv, shape(c.heads(own, c.key_dim(), c.num_k)))),
        (k.seen)(conv, shape(c.heads(own, 2 * c.key_dim(), c.num_v))),
        decay(k, m, w, c.num_v, n),
        rate(k, m, w, n),
        state,
    )
}

/// The end of a recurrent half: the scan's outputs, normalized head by head, times
/// `silu` of its gate projection, through the output weights onto the input.
pub open spec fn gated_scan<F, V>(
    k: Meaning<F, V>,
    m: Memory<F>,
    p: &Qwen35MoeParams<F>,
    w: SsmBlockWeights,
    c: SsmShape,
    x: V,
    n: V,
    scan: V,
) -> V {
    (k.sum)(
        x,
        (k.product)(
            value(k, read(m, w.ssm_out)),
            (k.times)(
                weighed(
                    k,
                    p.rms_eps,
                    (k.headwise)(
                        c.s_v as u32,
                        c.num_v as u32,
                        (c.l * c.b) as u32,
                        (k.seen)(scan, shape(c.scanned(of_bytes(0)))),
                    ),
                    value(k, read(m, w.ssm_norm)),
                ),
                (k.silu)((k.product)(value(k, read(m, w.attn_gate)), n)),
            ),
        ),
    )
}

/// The recurrent half of a layer scans the convolved projections of its input from
/// the kept state on, or from zeros, and adds the gated result to the input.
pub proof fn law_recurrent_half_scans_behind_a_gate<F: Copy, V>(
    k: Meaning<F, V>,
    m: Memory<F>,
    p: &Qwen35MoeParams<F>,
    w: SsmBlockWeights,
    c: SsmShape,
    st: SsmStates,
    x: Term<F>,
)
    requires
        flat(k),
        p.switches.shown is None,
        !p.switches.no_conv,
    ensures
        ({
            let n = weighed(k, p.rms_eps, value(k, x), value(k, read(m, w.attn_norm)));
            let conv = (k.silu)(
                (k.convolved)(
                    sizes_of(c),
                    value(k, ssm_conv_input(m, p, w, c, st, x)),
                    value(k, read(m, w.ssm_conv1d)),
                ),
            );
            let state = match st.gdn {
                Some(r) => (k.seen)(
                    value(k, content(m, r.buffer)),
                    shape(flat_view(r.buffer, r.offset as int, c.b * c.state())),
                ),
                None => k.zeros,
            };
            let scan = scanned(
                k,
                m,
                p,
                w,
                c,
                st.snapshots(c.l),
                match p.switches.gdn_scale {
                    Some(s) => s,
                    None => p.gdn_scale,
                },
                n,
                conv,
                state,
            );
            &&& value(k, ssm_scan(m, p, w, c, st, x)) == scan
            &&& value(k, ssm_term(m, p, w, c, st, x)) == gated_scan(
                k,
                m,
                p,
                w,
                c,
                value(k, x),
                n,
                scan,
            )
        }),
{
    reveal(ssm_term);
    lemma_values(k);
}

/// What a recurrent layer keeps of a pass without a checkpoint: the last tokens of
/// its convolution's input, and the state that its scan ends in.
pub proof fn law_recurrent_half_keeps_its_end<F: Copy, V>(
    k: Meaning<F, V>,
    m: Memory<F>,
    p: &Qwen35MoeParams<F>,
    w: SsmBlockWeights,
    c: SsmShape,
    st: SsmStates,
    x: Term<F>,
)
    requires
        flat(k),
        !p.switches.only_rms,
        st.checkpoint is None,
    ensures
        st.conv matches Some(r) ==> value(k, ssm_conv_kept(m, p, w, c, st, x)) == replaced(
            k,
            value(k, content(m, r.buffer)),
            c.conv_state(r),
            (k.seen)(
                value(k, ssm_conv_input(m, p, w, c, st, x)),
                shape(c.last(of_bytes(c.conv_bytes()))),
            ),
        ),
        st.gdn matches Some(r) ==> value(k, ssm_gdn_kept(m, p, w, c, st, x)) == replaced(
            k,
            value(k, content(m, r.buffer)),
            flat_view(r.buffer, r.offset as int, c.b * c.state()),
            (k.seen)(
                value(k, ssm_scan(m, p, w, c, st, x)),
                shape(flat_view(of_bytes(0), 4 * c.outputs(), c.b * c.state())),
            ),
        ),
{
    reveal(ssm_conv_kept);
    reveal(ssm_gdn_kept);
    lemma_values(k);
    assert(1 * (c.b * c.state()) == c.b * c.state());
}

/// What a recurrent layer keeps of a pass with a checkpoint: all of its convolution's
/// input in one place, and in another the state after each of its tokens. Its own
/// states are left as they are.
pub proof fn law_checkpoint_keeps_every_state<F: Copy, V>(
    k: Meaning<F, V>,
    m: Memory<F>,
    p: &Qwen35MoeParams<F>,
    w: SsmBlockWeights,
    c: SsmShape,
    st: SsmStates,
    x: Term<F>,
)
    requires
        flat(k),
        !p.switches.only_rms,
        st.checkpoint is Some,
    ensures
        ({
            let (states, inputs) = st.checkpoint->0;
            let all = c.l * (c.b * c.state());
            &&& value(k, ssm_conv_kept(m, p, w, c, st, x)) == replaced(
                k,
                value(k, content(m, inputs.buffer)),
                flat_view(
                    inputs.buffer,
                    inputs.offset as int,
                    (c.kernel - 1 + c.l) * c.channels() * c.b,
                ),
                value(k, ssm_conv_input(m, p, w, c, st, x)),
            )
            &&& value(k, ssm_gdn_kept(m, p, w, c, st, x)) == replaced(
                k,
                value(k, content(m, states.buffer)),
                flat_view(states.buffer, states.offset as int, all),
                (k.seen)(
                    value(k, ssm_scan(m, p, w, c, st, x)),
                    shape(flat_view(of_bytes(0), 4 * c.outputs(), all)),
                ),
            )
            &&& st.kept() == Some(states)
            &&& st.snapshots(c.l) == c.l
        }),
{
    reveal(ssm_conv_kept);
    reveal(ssm_gdn_kept);
    lemma_values(k);
}

/// What is shown in place of a recurrent half's output is the value that was named.
pub proof fn law_named_values_are_shown<F: Copy, V>(
    k: Meaning<F, V>,
    m: Memory<F>,
    p: &Qwen35MoeParams<F>,
    w: SsmBlockWeights,
    c: SsmShape,
    x: Term<F>,
    alpha: Term<F>,
    beta: Term<F>,
    qkv: Term<F>,
    conv: Term<F>,
    scan: Term<F>,
)
    requires
        flat(k),
    ensures
        ({
            let shown = |s: Shown| value(
                k,
                shown_term(m, p, w, c, x, s, alpha, beta, qkv, conv, scan),
            );
            &&& shown(Shown::Alpha) == value(k, alpha)
            &&& shown(Shown::Beta) == value(k, beta)
            &&& shown(Shown::Qkv) == value(k, qkv)
            &&& shown(Shown::Conv) == value(k, conv)
            &&& shown(Shown::Scan) == value(k, scan)
            &&& (k.sum)(value(k, x), shown(Shown::Proj)) == shown(Shown::Other)
            &&& shown(Shown::Proj) == (k.product)(
                value(k, read(m, w.ssm_out)),
                shown(Shown::Gated),
            )
        }),
{
    lemma_values(k);
}

/// The recurrent half of a batched decode does the same over the sequences' states.
pub proof fn law_recurrent_batch_scans_behind_a_gate<F: Copy, V>(
    k: Meaning<F, V>,
    m: Memory<F>,
    p: &Qwen35MoeParams<F>,
    w: SsmBlockWeights,
    batch: &BatchKvCache,
    layer: int,
    slots: Seq<u32>,
    x: Term<F>,
    state: Term<F>,
)
    requires
        flat(k),
        ({
            let c = ssm_shape(p, 1, slots.len() as u64);
            let all = batch.gdn_states@[layer];
            let r = crate::models::qwen35_ssm_batch::working(all, batch.gdn_slot_floats, slots);
            state == crate::models::recorder::through(
                crate::models::qwen35_ssm_batch::working_held(
                    m,
                    all,
                    batch.gdn_slot_floats,
                    slots,
                ),
                flat_view(r.buffer, r.offset as int, c.b * c.state()),
            )
        }),
    ensures
        ({
            let c = ssm_shape(p, 1, slots.len() as u64);
            let n = weighed(k, p.rms_eps, value(k, x), value(k, read(m, w.attn_norm)));
            let conv = (k.silu)(
                (k.convolved)(
                    sizes_of(c),
                    value(k, batch_conv_input(m, p, w, batch, layer, slots, x)),
                    value(k, read(m, w.ssm_conv1d)),
                ),
            );
            let scan = scanned(k, m, p, w, c, 1, p.gdn_scale, n, conv, value(k, state));
            &&& value(k, batch_scan(m, p, w, batch, layer, slots, x)) == scan
            &&& value(k, ssm_batch_term(m, p, w, batch, layer, slots, x)) == gated_scan(
                k,
                m,
                p,
                w,
                c,
                value(k, x),
                n,
                scan,
            )
        }),
{
    reveal(ssm_batch_term);
    lemma_values(k);
}

/// A pass starts from the embeddings of its tokens and goes through the layers in
/// order: an attention layer mixes by attention over its own cache, a recurrent one
/// by its scan over its own states, and each then feeds its experts behind its own
/// norm.
pub proof fn law_qwen_goes_through_its_layers<F: Copy, V>(
    k: Meaning<F, V>,
    model: &Qwen35MoeModel<F>,
    m: Memory<F>,
    cache: &KvCache,
    inp: QwenInput<F>,
    i: int,
)
    requires
        flat(k),
        0 <= i,
        !model.params.switches.no_moe,
        !model.params.switches.no_attn,
        !model.params.switches.no_ssm,
        !model.params.switches.only_rms,
    ensures
        inp.splice is None ==> value(k, model.hidden(m, cache, inp, 0)) == (k.rows)(
            inp.tokens.len() as u32,
            value(k, read(m, model.weights.token_embd)),
            (k.words)(inp.tokens),
        ),
        ({
            let l = inp.pass.l as u64;
            let h = model.hidden(m, cache, inp, i);
            model.hidden(m, cache, inp, i + 1) == match model.weights.blocks@[i] {
                BlockWeights::Attention(a) => moe_term(
                    m,
                    &model.params,
                    a.moe,
                    a.post_attn_norm,
                    qwen_attended(
                        m,
                        &model.params,
                        a,
                        cache.layer(i),
                        h,
                        words_term(inp.positions),
                        mask_value(inp.mask, l),
                        inp.pass,
                    ),
                    l,
                ),
                BlockWeights::Ssm(s) => moe_term(
                    m,
                    &model.params,
                    s.moe,
                    s.post_attn_norm,
                    ssm_term(
                        m,
                        &model.params,
                        s,
                        ssm_shape(&model.params, l, 1),
                        model.states(cache, i, inp.checkpoint),
                        fresh(h, matrix(model.params.n_embd as u64, l)),
                    ),
                    l,
                ),
            }
        }),
{
    lemma_values(k);
}

/// The logits of a pass are the product of the output weights, or of the token
/// embedding where there are none, with the normalized hidden states: of all tokens,
/// or of the last.
pub proof fn law_qwen_logits_are_of_hidden_states<F: Copy, V>(
    k: Meaning<F, V>,
    model: &Qwen35MoeModel<F>,
    m: Memory<F>,
    cache: &KvCache,
    inp: QwenInput<F>,
    full: bool,
)
    requires
        flat(k),
        model.params.switches.max_layers is None,
    ensures
        ({
            let width = model.params.n_embd as u64;
            let all = value(k, model.hidden(m, cache, inp, model.weights.blocks@.len() as int));
            let last = (k.seen)(
                all,
                shape(
                    one_column(
                        dense(
                            Buffer::Scratch { id: 0, bytes: 0 },
                            matrix(width, inp.pass.l as u64),
                        ),
                        width,
                        inp.pass.l - 1,
                    ),
                ),
            );
            let n = weighed(
                k,
                model.params.rms_eps,
                if full {
                    all
                } else {
                    last
                },
                value(k, read(m, model.weights.output_norm)),
            );
            value(k, model.logits(m, cache, inp, full)) == match model.weights.output {
                Some(t) => (k.product)(value(k, read(m, t)), n),
                None => (k.product)(value(k, read(m, model.weights.token_embd)), n),
            }
        }),
{
    lemma_values(k);
}

/// A batched pass starts from the embeddings of its tokens and, in a decode, sends
/// them through the layers as a pass over one sequence does.
pub proof fn law_qwen_batch_goes_through_its_layers<F: Copy, V>(
    k: Meaning<F, V>,
    model: &Qwen35MoeModel<F>,
    m: Memory<F>,
    batch: &BatchKvCache,
    inp: QwenBatch,
    i: int,
)
    requires
        flat(k),
        0 <= i,
    ensures
        value(k, model.batch_hidden(m, batch, inp, 0)) == (k.rows)(
            inp.tokens.len() as u32,
            value(k, read(m, model.weights.token_embd)),
            (k.words)(inp.tokens),
        ),
        ({
            let h = model.batch_hidden(m, batch, inp, i);
            match model.weights.blocks@[i] {
                BlockWeights::Attention(a) => model.batch_hidden(m, batch, inp, i + 1) == moe_term(
                    m,
                    &model.params,
                    a.moe,
                    a.post_attn_norm,
                    qwen_batch_attended(
                        m,
                        &model.params,
                        a,
                        batch,
                        i,
                        inp.seqs,
                        h,
                        words_term(inp.positions),
                        inp.n(),
                        inp.decode,
                    ),
                    inp.n(),
                ),
                BlockWeights::Ssm(s) => inp.decode ==> model.batch_hidden(m, batch, inp, i + 1)
                    == moe_term(
                    m,
                    &model.params,
                    s.moe,
                    s.post_attn_norm,
                    ssm_batch_term(
                        m,
                        &model.params,
                        s,
                        batch,
                        model.rank(i),
                        inp.seqs.slots,
                        fresh(h, matrix(model.params.n_embd as u64, inp.n())),
                    ),
                    inp.n(),
                ),
            }
        }),
        inp.decode ==> value(k, model.batch_logits(m, batch, inp)) == (k.product)(
            match model.weights.output {
                Some(t) => value(k, read(m, t)),
                None => value(k, read(m, model.weights.token_embd)),
            },
            weighed(
                k,
                model.params.rms_eps,
                value(k, model.batch_hidden(m, batch, inp, model.weights.blocks@.len() as int)),
                value(k, read(m, model.weights.output_norm)),
            ),
        ),
{
    lemma_values(k);
}

/// The draft head starts from the joint projection of two halves: the tokens'
/// embeddings behind one norm, and the hidden states behind another.
pub proof fn law_draft_pairs_embedding_and_hidden<F: Copy, V>(
    k: Meaning<F, V>,
    m: Memory<F>,
    eps: F,
    token_embd: TensorView,
    w: MtpWeights,
    hiddens: Seq<F>,
    tokens: Seq<u32>,
    width: u64,
)
    requires
        flat(k),
    ensures
        ({
            let l = tokens.len() as u64;
            let own = of_bytes(4 * (2 * width * l));
            let embedding = weighed(
                k,
                eps,
                (k.rows)(
                    tokens.len() as u32,
                    value(k, read(m, token_embd)),
                    (k.words)(tokens),
                ),
                value(k, read(m, w.enorm)),
            );
            let hidden = weighed(k, eps, (k.floats)(hiddens), value(k, read(m, w.hnorm)));
            value(k, draft_start(m, eps, token_embd, w, hiddens, tokens, width)) == (k.product)(
                value(k, read(m, w.eh_proj)),
                replaced(
                    k,
                    replaced(k, k.unset, half_view(own, width, l, false), embedding),
                    half_view(own, width, l, true),
                    hidden,
                ),
            )
        }),
{
    lemma_values(k);
}

/// The draft layer attends with the draft head's own weights over the cache layer
/// behind the model's, and feeds its own experts.
pub proof fn law_draft_goes_through_its_layer<F: Copy>(
    model: &Qwen35MoeModel<F>,
    m: Memory<F>,
    cache: &KvCache,
    h_last: Seq<F>,
    prev_token: u32,
    position: u32,
)
    requires
        model.weights.mtp is Some,
        position < u32::MAX,
    ensures
        ({
            let w = model.weights.mtp->0;
            let start = draft_start(
                m,
                model.params.rms_eps,
                model.weights.token_embd,
                w,
                h_last,
                seq![prev_token],
                model.params.n_embd as u64,
            );
            model.draft_out(m, cache, h_last, prev_token, position) == moe_term(
                m,
                &model.params,
                w.body.moe,
                w.body.post_attn_norm,
                qwen_attended(
                    m,
                    &model.params,
                    w.body,
                    cache.layer(model.params.n_main as int),
                    start,
                    words_term(seq![position, position, position, position]),
                    None,
                    QwenPass {
                        l: 1,
                        position,
                        total_len: (position + 1) as u32,
                        max_seq_len: cache.max_seq_len,
                        direct: cache.direct,
                        rope: RopeMultiParams {
                            dim: model.params.rope_dim,
                            freq_base: model.params.rope_freq_base,
                            sections: model.params.rope_sections,
                            is_imrope: false,
                        },
                    },
                ),
                1,
            )
        }),
{
    assert(crate::models::mrope::four(
        crate::models::blocks::sequential(position as int, 1),
    ) =~= seq![position, position, position, position]);
}

} // verus!
