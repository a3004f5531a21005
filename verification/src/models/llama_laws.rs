//! What the passes of the LLaMA and Qwen 3 models compute.
use vstd::prelude::*;

use crate::models::blocks::{
    mask_value, slab_term, slabs_written, words_term, LayerCache, SeqPlan,
};
use crate::models::cache::{BatchKvCache, KvCache};
use crate::models::llama::{
    llama_k_cache, llama_layer, llama_v_cache, Inference, LlamaBlockWeights,
    LlamaModel, LlamaParams, Pass,
};
use crate::models::llama_batch::{
    llama_batch_layer, llama_k_slabs, llama_v_slabs, BatchPass,
};
use crate::models::meaning::{
    flat, gated_output, lemma_values, value, value_opt, weighed, Meaning,
};
use crate::models::qwen3::{
    qwen3_k_cache, qwen3_layer, qwen3_v_cache, Qwen3BlockWeights, Qwen3Model, Qwen3Params,
};
use crate::models::recorder::{
    content, read, shape, FlashAttnParams, Memory, RopeParams, Term,
};
use crate::models::tensor::{attn_view, dense, matrix, one_column, prefix_view, Buffer, TensorView};

verus! {

/// Attention of `n_head` query heads, each key head serving as many of them as
/// there are, and at least one.
pub open spec fn grouped<F>(
    head_k: u32,
    head_v: u32,
    n_head: u32,
    n_head_kv: u32,
    scale: F,
    window: u32,
) -> FlashAttnParams<F> {
    FlashAttnParams {
        head_dim_k: head_k,
        head_dim_v: head_v,
        gqa_ratio: if n_head < n_head_kv {
            1
        } else {
            n_head / n_head_kv
        },
        scale,
        swa_window: window,
    }
}

/// The first `len` tokens of a cache layer that holds `held`, as attention reads
/// them: in place, or a copy.
pub open spec fn recalled<F, V>(
    k: Meaning<F, V>,
    held: V,
    layer: TensorView,
    head_dim: u32,
    heads: u32,
    len: u32,
    direct: bool,
) -> V {
    if direct {
        (k.seen)(
            held,
            shape(attn_view(prefix_view(layer, len as u64), head_dim as u64, len as u64, heads as u64)),
        )
    } else {
        (k.first)(len, (k.seen)(held, shape(layer)))
    }
}

/// A cache layer with new tokens put into it from a position on.
pub open spec fn extended<F, V>(
    k: Meaning<F, V>,
    m: Memory<F>,
    layer: TensorView,
    position: u32,
    tokens: V,
) -> V {
    (k.over)(value(k, content(m, layer.buffer)), shape(layer), (k.placed)(position, tokens))
}

/// What a LLaMA layer caches: the product of the normalized input with the key
/// weights, rotated by the positions, behind the keys that are there; and that with
/// the value weights, not rotated, behind the values.
pub proof fn law_llama_caches_keys_and_values<F: Copy, V>(
    k: Meaning<F, V>,
    m: Memory<F>,
    p: &LlamaParams<F>,
    b: LlamaBlockWeights,
    layer: LayerCache,
    x: Term<F>,
    positions: Term<F>,
    pass: Pass,
)
    requires
        flat(k),
    ensures
        ({
            let n = weighed(k, p.rms_eps, value(k, x), value(k, read(m, b.attn_norm)));
            &&& value(k, llama_k_cache(m, p, b, layer, x, positions, pass)) == extended(
                k,
                m,
                layer.k,
                pass.position,
                (k.rotated)(
                    RopeParams { dim: p.rope_dim, freq_base: p.rope_freq_base },
                    false,
                    (k.product)(value(k, read(m, b.wk)), n),
                    value(k, positions),
                    None,
                ),
            )
            &&& value(k, llama_v_cache(m, p, b, layer, x, pass)) == extended(
                k,
                m,
                layer.v,
                pass.position,
                (k.product)(value(k, read(m, b.wv)), n),
            )
        }),
{
    lemma_values(k);
}

/// A LLaMA layer adds to its input what attention gives through the output
/// weights, and to that the gated stretch over it. Attention is that of the rotated
/// queries over the cache as this pass leaves it.
pub proof fn law_llama_layer_attends_and_feeds<F: Copy, V>(
    k: Meaning<F, V>,
    m: Memory<F>,
    p: &LlamaParams<F>,
    b: LlamaBlockWeights,
    layer: LayerCache,
    h: Term<F>,
    positions: Term<F>,
    mask: Option<Term<F>>,
    pass: Pass,
)
    requires
        flat(k),
        p.wf(),
    ensures
        ({
            let x = value(k, h);
            let n = weighed(k, p.rms_eps, x, value(k, read(m, b.attn_norm)));
            let rope = RopeParams { dim: p.rope_dim, freq_base: p.rope_freq_base };
            let head = p.n_embd / p.n_head;
            let at = value(k, positions);
            let q = (k.rotated)(rope, false, (k.product)(value(k, read(m, b.wq)), n), at, None);
            let keys = extended(
                k,
                m,
                layer.k,
                pass.position,
                (k.rotated)(rope, false, (k.product)(value(k, read(m, b.wk)), n), at, None),
            );
            let values = extended(
                k,
                m,
                layer.v,
                pass.position,
                (k.product)(value(k, read(m, b.wv)), n),
            );
            let out = (k.attend)(
                grouped(head, head, p.n_head, p.n_head_kv, p.attn_scale, 0),
                pass.total_len,
                if layer.k.dtype is Turbo {
                    (k.mixed)(true, q)
                } else {
                    q
                },
                recalled(k, keys, layer.k, head, p.n_head_kv, pass.total_len, pass.direct),
                recalled(k, values, layer.v, head, p.n_head_kv, pass.total_len, pass.direct),
                value_opt(k, mask),
            );
            let mid = (k.sum)(
                x,
                (k.product)(
                    value(k, read(m, b.wo)),
                    if layer.v.dtype is Turbo {
                        (k.mixed)(false, out)
                    } else {
                        out
                    },
                ),
            );
            value(k, llama_layer(m, p, b, layer, h, positions, mask, pass)) == (k.sum)(
                mid,
                gated_output(
                    k,
                    k.silu,
                    weighed(k, p.rms_eps, mid, value(k, read(m, b.ffn_norm))),
                    value(k, read(m, b.ffn_gate)),
                    value(k, read(m, b.ffn_up)),
                    value(k, read(m, b.ffn_down)),
                ),
            )
        }),
{
    lemma_values(k);
    lemma_ratio(p.n_head, p.n_head_kv);
}

/// A number goes into a smaller one no times, and into one no smaller at least
/// once.
pub proof fn lemma_ratio(a: u32, b: u32)
    requires
        b > 0,
    ensures
        a < b <==> a / b == 0,
{
    assert(a < b <==> a as int / b as int == 0) by (nonlinear_arith)
        requires
            b > 0,
            a >= 0,
    ;
}

/// A LLaMA pass starts from the embeddings of its tokens and goes through the
/// layers in order, each with its own cache.
pub proof fn law_llama_goes_through_its_layers<F: Copy, V>(
    k: Meaning<F, V>,
    model: &LlamaModel<F>,
    m: Memory<F>,
    cache: &KvCache,
    inf: Inference<F>,
    i: int,
)
    requires
        flat(k),
        0 <= i,
    ensures
        value(k, model.hidden(m, cache, inf, 0)) == (k.rows)(
            inf.tokens.len() as u32,
            value(k, read(m, model.weights.token_embd)),
            (k.words)(inf.tokens),
        ),
        model.hidden(m, cache, inf, i + 1) == llama_layer(
            m,
            &model.params,
            model.weights.blocks@[i],
            cache.layer(i),
            model.hidden(m, cache, inf, i),
            words_term(inf.positions),
            mask_value(inf.mask, inf.pass.l as u64),
            inf.pass,
        ),
{
    lemma_values(k);
}

/// The logits of a LLaMA pass are the product of the output weights, or of the
/// token embedding where there are none, with the last token's normalized hidden
/// state.
pub proof fn law_llama_logits_are_of_the_last_token<F: Copy, V>(
    k: Meaning<F, V>,
    model: &LlamaModel<F>,
    m: Memory<F>,
    cache: &KvCache,
    inf: Inference<F>,
)
    requires
        flat(k),
    ensures
        ({
            let width = model.params.n_embd as u64;
            let last = (k.seen)(
                value(k, model.hidden(m, cache, inf, model.weights.blocks@.len() as int)),
                shape(
                    one_column(
                        dense(
                            Buffer::Scratch { id: 0, bytes: 0 },
                            matrix(width, inf.pass.l as u64),
                        ),
                        width,
                        inf.pass.l - 1,
                    ),
                ),
            );
            let n = weighed(
                k,
                model.params.rms_eps,
                last,
                value(k, read(m, model.weights.output_norm)),
            );
            value(k, model.logits(m, cache, inf)) == match model.weights.output {
                Some(t) => (k.product)(value(k, read(m, t)), n),
                None => (k.product)(value(k, read(m, model.weights.token_embd)), n),
            }
        }),
{
    lemma_values(k);
}

/// A pass over `l` tokens at `position` rotates token `i` by `position + i`,
/// attends over all tokens cached by then, and masks only where it brings several.
pub proof fn law_llama_counts_from_the_cached<F: Copy>(
    model: &LlamaModel<F>,
    cache: &KvCache,
    tokens: Seq<u32>,
    position: u32,
    i: int,
)
    requires
        0 <= i < tokens.len(),
        position + tokens.len() <= u32::MAX,
    ensures
        ({
            let inf = model.inference(cache, tokens, position);
            &&& inf.tokens == tokens
            &&& inf.positions.len() == tokens.len()
            &&& inf.positions[i] == position + i
            &&& inf.pass.l == tokens.len()
            &&& inf.pass.position == position
            &&& inf.pass.total_len == position + tokens.len()
            &&& inf.pass.direct == cache.direct
            &&& inf.mask is None <==> tokens.len() == 1
        }),
{
}

/// Slabs that are written alike hold alike.
pub proof fn lemma_slabs_alike<F, V>(
    k: Meaning<F, V>,
    h1: Term<F>,
    h2: Term<F>,
    first: TensorView,
    bytes: u64,
    v1: Term<F>,
    v2: Term<F>,
    seqs: SeqPlan,
    head_dim: u64,
    heads: u64,
    n: int,
)
    requires
        value(k, h1) == value(k, h2),
        value(k, v1) == value(k, v2),
    ensures
        value(
            k,
            slabs_written(
                h1,
                first,
                bytes,
                v1,
                seqs.lens,
                seqs.starts,
                seqs.bases,
                seqs.slots,
                head_dim,
                heads,
                n,
            ),
        ) == value(
            k,
            slabs_written(
                h2,
                first,
                bytes,
                v2,
                seqs.lens,
                seqs.starts,
                seqs.bases,
                seqs.slots,
                head_dim,
                heads,
                n,
            ),
        ),
    decreases n,
{
    if n > 0 {
        lemma_slabs_alike(k, h1, h2, first, bytes, v1, v2, seqs, head_dim, heads, n - 1);
        reveal_with_fuel(value, 4);
    }
}

/// What a batched LLaMA pass writes into the key slabs is made with the key
/// weights alone, and what it writes into the value slabs with the value weights:
/// memories that agree on these, on the norm and on the slabs give slabs alike. The
/// keys are those that a term for the rotated product would give.
pub proof fn law_llama_slabs_keep_keys_and_values<F: Copy, V>(
    k: Meaning<F, V>,
    m: Memory<F>,
    p: &LlamaParams<F>,
    b: LlamaBlockWeights,
    batch: &BatchKvCache,
    layer: int,
    seqs: SeqPlan,
    x: Term<F>,
    positions: Term<F>,
    n_total: u64,
    keys: Term<F>,
    values: Term<F>,
)
    requires
        flat(k),
        ({
            let n = weighed(k, p.rms_eps, value(k, x), value(k, read(m, b.attn_norm)));
            &&& value(k, keys) == (k.rotated)(
                RopeParams { dim: p.rope_dim, freq_base: p.rope_freq_base },
                false,
                (k.product)(value(k, read(m, b.wk)), n),
                value(k, positions),
                None,
            )
            &&& value(k, values) == (k.product)(value(k, read(m, b.wv)), n)
        }),
    ensures
        value(k, llama_k_slabs(m, p, b, batch, layer, seqs, x, positions, n_total)) == value(
            k,
            slab_term(
                m,
                batch.k_slab@[layer],
                batch.k_slab_bytes,
                keys,
                seqs,
                (p.n_embd / p.n_head) as u64,
                p.n_head_kv as u64,
                seqs.lens.len() as int,
            ),
        ),
        value(k, llama_v_slabs(m, p, b, batch, layer, seqs, x, n_total)) == value(
            k,
            slab_term(
                m,
                batch.v_slab@[layer],
                batch.v_slab_bytes,
                values,
                seqs,
                (p.n_embd / p.n_head) as u64,
                p.n_head_kv as u64,
                seqs.lens.len() as int,
            ),
        ),
{
    lemma_values(k);
    let held = content(m, batch.k_slab@[layer].buffer);
    lemma_slabs_alike(
        k,
        held,
        held,
        batch.k_slab@[layer],
        batch.k_slab_bytes,
        crate::models::llama::llama_k(m, p, b, x, positions, n_total),
        keys,
        seqs,
        p.head() as u64,
        p.n_head_kv as u64,
        seqs.lens.len() as int,
    );
    let held = content(m, batch.v_slab@[layer].buffer);
    lemma_slabs_alike(
        k,
        held,
        held,
        batch.v_slab@[layer],
        batch.v_slab_bytes,
        crate::models::blocks::projected(
            m,
            p.rms_eps,
            x,
            b.attn_norm,
            b.wv,
            p.n_embd as u64,
            n_total,
        ),
        values,
        seqs,
        p.head() as u64,
        p.n_head_kv as u64,
        seqs.lens.len() as int,
    );
}

/// A batched LLaMA layer does over the slabs what a layer does over one cache:
/// attention through the output weights onto the input, and the gated stretch onto
/// that.
pub proof fn law_llama_batch_layer_attends_and_feeds<F: Copy, V>(
    k: Meaning<F, V>,
    m: Memory<F>,
    p: &LlamaParams<F>,
    b: LlamaBlockWeights,
    batch: &BatchKvCache,
    layer: int,
    seqs: SeqPlan,
    h: Term<F>,
    positions: Term<F>,
    pass: BatchPass,
)
    requires
        flat(k),
        p.wf(),
    ensures
        ({
            let x = value(k, h);
            let n = weighed(k, p.rms_eps, x, value(k, read(m, b.attn_norm)));
            let head = p.n_embd / p.n_head;
            let xt = crate::models::recorder::fresh(h, matrix(p.n_embd as u64, pass.n_total));
            let q = (k.rotated)(
                RopeParams { dim: p.rope_dim, freq_base: p.rope_freq_base },
                false,
                (k.product)(value(k, read(m, b.wq)), n),
                value(k, positions),
                None,
            );
            let out = (k.attend_many)(
                grouped(head, head, p.n_head, p.n_head_kv, p.attn_scale, 0),
                q,
                (k.seen)(
                    value(
                        k,
                        llama_k_slabs(m, p, b, batch, layer, seqs, xt, positions, pass.n_total),
                    ),
                    shape(batch.k_attn@[layer]),
                ),
                (k.seen)(
                    value(k, llama_v_slabs(m, p, b, batch, layer, seqs, xt, pass.n_total)),
                    shape(batch.v_attn@[layer]),
                ),
                (k.lengths)(
                    seqs.kv_lens,
                    seqs.slots,
                    if pass.decode {
                        None
                    } else {
                        Some(seqs.lens)
                    },
                ),
            );
            let mid = (k.sum)(x, (k.product)(value(k, read(m, b.wo)), out));
            value(k, llama_batch_layer(m, p, b, batch, layer, seqs, h, positions, pass))
                == (k.sum)(
                mid,
                gated_output(
                    k,
                    k.silu,
                    weighed(k, p.rms_eps, mid, value(k, read(m, b.ffn_norm))),
                    value(k, read(m, b.ffn_gate)),
                    value(k, read(m, b.ffn_up)),
                    value(k, read(m, b.ffn_down)),
                ),
            )
        }),
{
    lemma_values(k);
    lemma_ratio(p.n_head, p.n_head_kv);
}

/// What a Qwen 3 layer caches: keys normalized head by head and rotated, and
/// values as projected.
pub proof fn law_qwen3_caches_keys_and_values<F: Copy, V>(
    k: Meaning<F, V>,
    m: Memory<F>,
    p: &Qwen3Params<F>,
    b: Qwen3BlockWeights,
    layer: LayerCache,
    x: Term<F>,
    positions: Term<F>,
    pass: Pass,
)
    requires
        flat(k),
    ensures
        ({
            let n = weighed(k, p.rms_eps, value(k, x), value(k, read(m, b.attn_norm)));
            &&& value(k, qwen3_k_cache(m, p, b, layer, x, positions, pass)) == extended(
                k,
                m,
                layer.k,
                pass.position,
                (k.rotated)(
                    RopeParams { dim: p.rope_dim, freq_base: p.rope_freq_base },
                    true,
                    weighed(
                        k,
                        p.rms_eps,
                        (k.product)(value(k, read(m, b.wk)), n),
                        value(k, read(m, b.attn_k_norm)),
                    ),
                    value(k, positions),
                    None,
                ),
            )
            &&& value(k, qwen3_v_cache(m, p, b, layer, x, pass)) == extended(
                k,
                m,
                layer.v,
                pass.position,
                (k.product)(value(k, read(m, b.wv)), n),
            )
        }),
{
    lemma_values(k);
}

/// A Qwen 3 layer adds to its input what attention gives through the output
/// weights, and to that the gated stretch over it. Queries and keys are normalized
/// head by head, each by its own weights, before they are rotated.
pub proof fn law_qwen3_layer_attends_and_feeds<F: Copy, V>(
    k: Meaning<F, V>,
    m: Memory<F>,
    p: &Qwen3Params<F>,
    b: Qwen3BlockWeights,
    layer: LayerCache,
    h: Term<F>,
    positions: Term<F>,
    mask: Option<Term<F>>,
    pass: Pass,
)
    requires
        flat(k),
        p.wf(),
    ensures
        ({
            let x = value(k, h);
            let n = weighed(k, p.rms_eps, x, value(k, read(m, b.attn_norm)));
            let rope = RopeParams { dim: p.rope_dim, freq_base: p.rope_freq_base };
            let at = value(k, positions);
            let q = (k.rotated)(
                rope,
                true,
                weighed(
                    k,
                    p.rms_eps,
                    (k.product)(value(k, read(m, b.wq)), n),
                    value(k, read(m, b.attn_q_norm)),
                ),
                at,
                None,
            );
            let keys = extended(
                k,
                m,
                layer.k,
                pass.position,
                (k.rotated)(
                    rope,
                    true,
                    weighed(
                        k,
                        p.rms_eps,
                        (k.product)(value(k, read(m, b.wk)), n),
                        value(k, read(m, b.attn_k_norm)),
                    ),
                    at,
                    None,
                ),
            );
            let values = extended(
                k,
                m,
                layer.v,
                pass.position,
                (k.product)(value(k, read(m, b.wv)), n),
            );
            let out = (k.attend)(
                grouped(p.head_dim, p.head_dim, p.n_head, p.n_head_kv, p.attn_scale, 0),
                pass.total_len,
                q,
                recalled(k, keys, layer.k, p.head_dim, p.n_head_kv, pass.total_len, pass.direct),
                recalled(k, values, layer.v, p.head_dim, p.n_head_kv, pass.total_len, pass.direct),
                value_opt(k, mask),
            );
            let mid = (k.sum)(x, (k.product)(value(k, read(m, b.wo)), out));
            value(k, qwen3_layer(m, p, b, layer, h, positions, mask, pass)) == (k.sum)(
                mid,
                gated_output(
                    k,
                    k.silu,
                    weighed(k, p.rms_eps, mid, value(k, read(m, b.ffn_norm))),
                    value(k, read(m, b.ffn_gate)),
                    value(k, read(m, b.ffn_up)),
                    value(k, read(m, b.ffn_down)),
                ),
            )
        }),
{
    lemma_values(k);
    lemma_ratio(p.n_head, p.n_head_kv);
}

/// A Qwen 3 pass starts from the embeddings of its tokens and goes through the
/// layers in order, each with its own cache.
pub proof fn law_qwen3_goes_through_its_layers<F: Copy, V>(
    k: Meaning<F, V>,
    model: &Qwen3Model<F>,
    m: Memory<F>,
    cache: &KvCache,
    inf: Inference<F>,
    i: int,
)
    requires
        flat(k),
        0 <= i,
    ensures
        value(k, model.hidden(m, cache, inf, 0)) == (k.rows)(
            inf.tokens.len() as u32,
            value(k, read(m, model.weights.token_embd)),
            (k.words)(inf.tokens),
        ),
        model.hidden(m, cache, inf, i + 1) == qwen3_layer(
            m,
            &model.params,
            model.weights.blocks@[i],
            cache.layer(i),
            model.hidden(m, cache, inf, i),
            words_term(inf.positions),
            mask_value(inf.mask, inf.pass.l as u64),
            inf.pass,
        ),
{
    lemma_values(k);
}

/// The logits of a Qwen 3 pass are the product of the output weights, or of the
/// token embedding where there are none, with the normalized hidden states: of all
/// tokens, or of the last.
pub proof fn law_qwen3_logits_are_of_hidden_states<F: Copy, V>(
    k: Meaning<F, V>,
    model: &Qwen3Model<F>,
    m: Memory<F>,
    cache: &KvCache,
    inf: Inference<F>,
    full: bool,
)
    requires
        flat(k),
    ensures
        ({
            let width = model.params.n_embd as u64;
            let all = value(k, model.hidden(m, cache, inf, model.weights.blocks@.len() as int));
            let last = (k.seen)(
                all,
                shape(
                    one_column(
                        dense(
                            Buffer::Scratch { id: 0, bytes: 0 },
                            matrix(width, inf.pass.l as u64),
                        ),
                        width,
                        inf.pass.l - 1,
                    ),
                ),
            );
            let n = weighed(
                k,
                model.params.rms_eps,
                if full {
                    all
                } else {
                    last
                },
                value(k, read(m, model.weights.output_norm)),
            );
            value(k, model.logits(m, cache, inf, full)) == match model.weights.output {
                Some(t) => (k.product)(value(k, read(m, t)), n),
                None => (k.product)(value(k, read(m, model.weights.token_embd)), n),
            }
        }),
{
    lemma_values(k);
}

} // verus!
