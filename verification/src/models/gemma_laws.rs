//! What the passes of the Gemma models compute.
use vstd::prelude::*;

use crate::models::blocks::{mask_value, words_term, LayerCache};
use crate::models::cache::KvCache;
use crate::models::diffusion_blocks::{
    diffusion_attended, diffusion_fed, DiffusiongemmaBlockWeights, ExpertLayer, MaskedAttention,
};
use crate::models::diffusiongemma::{CanvasPass, DiffusiongemmaModel, DiffusiongemmaParams};
use crate::models::gemma4::{
    gemma4_k_cache, gemma4_layer, gemma4_v_cache, Gemma4BlockWeights, Gemma4Input, Gemma4Model,
    Gemma4Params,
};
use crate::models::gemma_blocks::{
    capped, gemma_k, gemma_q, gemma_v, GemmaHeadWeights, GemmaHeads, Softcap,
};
use crate::models::llama::Pass;
use crate::models::llama_laws::{extended, grouped, lemma_ratio, recalled};
use crate::models::meaning::{
    flat, gated_output, lemma_values, value, value_opt, weighed, Meaning,
};
use crate::models::recorder::{content, read, shape, Memory, RopeParams, Term};
use crate::models::tensor::{dense, matrix, one_column, repeated, Buffer, GgmlType, TensorView};

verus! {

/// What a tensor that may be absent stands for.
pub open spec fn factors<F, V>(k: Meaning<F, V>, m: Memory<F>, t: Option<TensorView>) -> Option<V> {
    match t {
        Some(v) => Some(value(k, read(m, v))),
        None => None,
    }
}

/// The values of a layer's heads are the product of the normalized input with the
/// value weights, normalized head by head; where a layer has no value weights, that
/// with the key weights, which the keys' own norm and rotation do not touch.
pub proof fn law_values_have_their_own_weights<F, V>(
    k: Meaning<F, V>,
    m: Memory<F>,
    eps: F,
    x: Term<F>,
    w: GemmaHeadWeights,
    width: u64,
    h: GemmaHeads,
    l: u64,
)
    requires
        flat(k),
    ensures
        ({
            let n = weighed(k, eps, value(k, x), value(k, read(m, w.norm)));
            &&& w.wv matches Some(t) ==> value(k, gemma_v(m, eps, x, w, width, h, l))
                == (k.normed)(eps, (k.product)(value(k, read(m, t)), n))
            &&& w.wv is None ==> value(k, gemma_v(m, eps, x, w, width, h, l)) == (k.normed)(
                eps,
                (k.product)(value(k, read(m, w.wk)), n),
            )
        }),
{
    lemma_values(k);
}

/// Queries and keys are products with their own weights, normalized head by head
/// by their own norms and then rotated.
pub proof fn law_queries_and_keys_are_rotated<F, V>(
    k: Meaning<F, V>,
    m: Memory<F>,
    eps: F,
    rope: RopeParams<F>,
    x: Term<F>,
    w: GemmaHeadWeights,
    width: u64,
    h: GemmaHeads,
    positions: Term<F>,
    l: u64,
)
    requires
        flat(k),
    ensures
        ({
            let n = weighed(k, eps, value(k, x), value(k, read(m, w.norm)));
            let at = value(k, positions);
            &&& value(k, gemma_q(m, eps, rope, x, w, width, h, positions, l)) == (k.rotated)(
                rope,
                true,
                weighed(
                    k,
                    eps,
                    (k.product)(value(k, read(m, w.wq)), n),
                    value(k, read(m, w.q_norm)),
                ),
                at,
                factors(k, m, w.freqs),
            )
            &&& value(k, gemma_k(m, eps, rope, x, w, width, h, positions, l)) == (k.rotated)(
                rope,
                true,
                weighed(
                    k,
                    eps,
                    (k.product)(value(k, read(m, w.wk)), n),
                    value(k, read(m, w.k_norm)),
                ),
                at,
                factors(k, m, w.freqs),
            )
        }),
{
    lemma_values(k);
}

/// Values of different weights differ: where a layer has value weights, two
/// memories in which their terms differ give different values, and one that
/// differs in the key weights alone gives the same.
pub proof fn law_values_tell_their_weights_apart<F>(
    m: Memory<F>,
    m2: Memory<F>,
    eps: F,
    x: Term<F>,
    w: GemmaHeadWeights,
    width: u64,
    h: GemmaHeads,
    l: u64,
)
    requires
        read(m, w.norm) == read(m2, w.norm),
    ensures
        w.wv matches Some(t) ==> (gemma_v(m, eps, x, w, width, h, l) == gemma_v(
            m2,
            eps,
            x,
            w,
            width,
            h,
            l,
        ) <==> read(m, t) == read(m2, t)),
        w.wv is None ==> (gemma_v(m, eps, x, w, width, h, l) == gemma_v(
            m2,
            eps,
            x,
            w,
            width,
            h,
            l,
        ) <==> read(m, w.wk) == read(m2, w.wk)),
{
}

/// What a Gemma 4 layer caches: its keys, normalized and rotated, and its values,
/// normalized; the values are made with the layer's value weights where it has
/// them, and with its key weights only where it has none.
pub proof fn law_gemma4_caches_keys_and_values<F: Copy, V>(
    k: Meaning<F, V>,
    m: Memory<F>,
    p: &Gemma4Params<F>,
    b: Gemma4BlockWeights,
    freqs: Option<TensorView>,
    il: int,
    layer: LayerCache,
    x: Term<F>,
    positions: Term<F>,
    pass: Pass,
)
    requires
        flat(k),
    ensures
        ({
            let n = weighed(k, p.rms_eps, value(k, x), value(k, read(m, b.attn_norm)));
            &&& value(k, gemma4_v_cache(m, p, b, freqs, il, layer, x, pass)) == extended(
                k,
                m,
                layer.v,
                pass.position,
                (k.normed)(
                    p.rms_eps,
                    (k.product)(
                        match b.wv {
                            Some(t) => value(k, read(m, t)),
                            None => value(k, read(m, b.wk)),
                        },
                        n,
                    ),
                ),
            )
            &&& value(k, gemma4_k_cache(m, p, b, freqs, il, layer, x, positions, pass))
                == extended(
                k,
                m,
                layer.k,
                pass.position,
                (k.rotated)(
                    RopeParams {
                        dim: if p.swa@[il] {
                            p.head_dim_swa
                        } else {
                            p.head_dim_global
                        },
                        freq_base: if p.swa@[il] {
                            p.rope_base_swa
                        } else {
                            p.rope_base_global
                        },
                    },
                    true,
                    weighed(
                        k,
                        p.rms_eps,
                        (k.product)(value(k, read(m, b.wk)), n),
                        value(k, read(m, b.attn_k_norm)),
                    ),
                    value(k, positions),
                    factors(k, m, freqs),
                ),
            )
        }),
{
    reveal(gemma4_k_cache);
    reveal(gemma4_v_cache);
    lemma_values(k);
}

/// A Gemma 4 layer adds to its input the normalized output of attention, and to
/// that the normalized output of the gated stretch over it; the sum is multiplied
/// by the layer's factor, where it has one. Sliding layers see a window of the most
/// recent keys, the others all.
pub proof fn law_gemma4_layer_attends_and_feeds<F: Copy, V>(
    k: Meaning<F, V>,
    m: Memory<F>,
    p: &Gemma4Params<F>,
    b: Gemma4BlockWeights,
    freqs: Option<TensorView>,
    il: int,
    layer: LayerCache,
    h: Term<F>,
    positions: Term<F>,
    mask: Option<Term<F>>,
    pass: Pass,
)
    requires
        flat(k),
        p.layer_wf(il),
    ensures
        ({
            let x = value(k, h);
            let xt = crate::models::recorder::fresh(h, matrix(p.n_embd as u64, pass.l as u64));
            let n = weighed(k, p.rms_eps, x, value(k, read(m, b.attn_norm)));
            let swa = p.swa@[il];
            let head = if swa {
                p.head_dim_swa
            } else {
                p.head_dim_global
            };
            let q = (k.rotated)(
                RopeParams {
                    dim: head,
                    freq_base: if swa {
                        p.rope_base_swa
                    } else {
                        p.rope_base_global
                    },
                },
                true,
                weighed(
                    k,
                    p.rms_eps,
                    (k.product)(value(k, read(m, b.wq)), n),
                    value(k, read(m, b.attn_q_norm)),
                ),
                value(k, positions),
                factors(k, m, freqs),
            );
            let n_kv = p.n_head_kv@[il];
            let out = (k.attend)(
                grouped(
                    head,
                    head,
                    p.n_head,
                    n_kv,
                    p.attn_scale,
                    if swa {
                        p.sliding_window
                    } else {
                        0
                    },
                ),
                pass.total_len,
                q,
                recalled(
                    k,
                    value(k, gemma4_k_cache(m, p, b, freqs, il, layer, xt, positions, pass)),
                    layer.k,
                    head,
                    n_kv,
                    pass.total_len,
                    pass.direct,
                ),
                recalled(
                    k,
                    value(k, gemma4_v_cache(m, p, b, freqs, il, layer, xt, pass)),
                    layer.v,
                    head,
                    n_kv,
                    pass.total_len,
                    pass.direct,
                ),
                value_opt(k, mask),
            );
            let mid = (k.sum)(
                x,
                weighed(
                    k,
                    p.rms_eps,
                    (k.product)(value(k, read(m, b.wo)), out),
                    value(k, read(m, b.post_attn_norm)),
                ),
            );
            let fed = (k.sum)(
                mid,
                weighed(
                    k,
                    p.rms_eps,
                    gated_output(
                        k,
                        k.gelu,
                        weighed(k, p.rms_eps, mid, value(k, read(m, b.ffn_norm))),
                        value(k, read(m, b.ffn_gate)),
                        value(k, read(m, b.ffn_up)),
                        value(k, read(m, b.ffn_down)),
                    ),
                    value(k, read(m, b.post_ffw_norm)),
                ),
            );
            value(k, gemma4_layer(m, p, b, freqs, il, layer, h, positions, mask, pass))
                == match p.layer_output_scale@[il] {
                Some(s) => (k.scale)(s, fed),
                None => fed,
            }
        }),
{
    reveal(gemma4_layer);
    lemma_values(k);
    lemma_ratio(p.n_head, p.n_head_kv@[il]);
}

/// A Gemma 4 pass over text starts from the scaled embeddings of its tokens and
/// goes through the layers in order, each with its own cache; only layers that do
/// not slide use the file's frequency factors.
pub proof fn law_gemma4_goes_through_its_layers<F: Copy, V>(
    k: Meaning<F, V>,
    model: &Gemma4Model<F>,
    m: Memory<F>,
    cache: &KvCache,
    inp: Gemma4Input<F>,
    i: int,
)
    requires
        flat(k),
        0 <= i,
    ensures
        inp.image is None ==> value(k, model.hidden(m, cache, inp, 0)) == (k.scale)(
            model.params.embd_scale,
            (k.rows)(
                inp.inf.tokens.len() as u32,
                value(k, read(m, model.weights.token_embd)),
                (k.words)(inp.inf.tokens),
            ),
        ),
        model.hidden(m, cache, inp, i + 1) == gemma4_layer(
            m,
            &model.params,
            model.weights.blocks@[i],
            if model.params.swa@[i] {
                None
            } else {
                model.weights.rope_freqs
            },
            i,
            cache.layer(i),
            model.hidden(m, cache, inp, i),
            words_term(inp.inf.positions),
            mask_value(inp.inf.mask, inp.inf.pass.l as u64),
            inp.inf.pass,
        ),
{
    lemma_values(k);
}

/// Logits bounded by a cap: divided by it, through `tanh`, and multiplied by it.
pub open spec fn bounded<F, V>(k: Meaning<F, V>, cap: Option<Softcap<F>>, v: V) -> V {
    match cap {
        Some(c) => (k.scale)(c.cap, (k.tanh)((k.scale)(c.inverse, v))),
        None => v,
    }
}

/// The logits of a Gemma 4 pass are the product of the output weights, or of the
/// token embedding where there are none, with the last token's normalized hidden
/// state, bounded.
pub proof fn law_gemma4_logits_are_of_the_last_token<F: Copy, V>(
    k: Meaning<F, V>,
    model: &Gemma4Model<F>,
    m: Memory<F>,
    cache: &KvCache,
    inp: Gemma4Input<F>,
)
    requires
        flat(k),
    ensures
        ({
            let width = model.params.n_embd as u64;
            let last = (k.seen)(
                value(k, model.hidden(m, cache, inp, model.weights.blocks@.len() as int)),
                shape(
                    one_column(
                        dense(
                            Buffer::Scratch { id: 0, bytes: 0 },
                            matrix(width, inp.inf.pass.l as u64),
                        ),
                        width,
                        inp.inf.pass.l - 1,
                    ),
                ),
            );
            let n = weighed(
                k,
                model.params.rms_eps,
                last,
                value(k, read(m, model.weights.output_norm)),
            );
            let head = match model.weights.output {
                Some(t) => value(k, read(m, t)),
                None => value(k, read(m, model.weights.token_embd)),
            };
            value(k, model.logits(m, cache, inp)) == bounded(
                k,
                model.params.final_logit_softcap,
                (k.product)(head, n),
            )
        }),
{
    lemma_values(k);
}

/// The attention half of a diffusion layer adds to its input the normalized output
/// of attention over the pass's own keys and values, as far as the mask lets each
/// token see.
pub proof fn law_diffusion_attends_over_the_pass<F: Copy, V>(
    k: Meaning<F, V>,
    m: Memory<F>,
    c: MaskedAttention<F>,
    b: DiffusiongemmaBlockWeights,
    h: Term<F>,
    positions: Term<F>,
    mask: Term<F>,
)
    requires
        flat(k),
    ensures
        ({
            let x = value(k, h);
            let n = weighed(k, c.eps, x, value(k, read(m, b.attn_norm)));
            let at = value(k, positions);
            let f = factors(k, m, c.freqs);
            let q = (k.rotated)(
                c.rope,
                true,
                weighed(
                    k,
                    c.eps,
                    (k.product)(value(k, read(m, b.wq)), n),
                    value(k, read(m, b.attn_q_norm)),
                ),
                at,
                f,
            );
            let keys = (k.rotated)(
                c.rope,
                true,
                weighed(
                    k,
                    c.eps,
                    (k.product)(value(k, read(m, b.wk)), n),
                    value(k, read(m, b.attn_k_norm)),
                ),
                at,
                f,
            );
            let values = (k.normed)(
                c.eps,
                (k.product)(
                    match b.wv {
                        Some(t) => value(k, read(m, t)),
                        None => value(k, read(m, b.wk)),
                    },
                    n,
                ),
            );
            value(k, diffusion_attended(m, c, b, h, positions, mask)) == (k.sum)(
                x,
                weighed(
                    k,
                    c.eps,
                    (k.product)(
                        value(k, read(m, b.wo)),
                        (k.attend_masked)(c.attn, c.n, q, keys, values, value(k, mask)),
                    ),
                    value(k, read(m, b.post_attn_norm)),
                ),
            )
        }),
{
    lemma_values(k);
}

/// The feed-forward half of a diffusion layer adds to its input the normalized sum
/// of the shared stretch and the picked experts. The router sees the input without
/// weights, scaled; the experts see it behind a norm of their own; `gelu` is applied
/// to the first half of each expert's double product and multiplied by the second;
/// shares are multiplied by the experts' factors.
pub proof fn law_diffusion_feeds_shared_and_experts<F: Copy, V>(
    k: Meaning<F, V>,
    m: Memory<F>,
    c: ExpertLayer<F>,
    b: DiffusiongemmaBlockWeights,
    h: Term<F>,
)
    requires
        flat(k),
    ensures
        ({
            let x = value(k, h);
            let shared = weighed(
                k,
                c.eps,
                gated_output(
                    k,
                    k.gelu,
                    weighed(k, c.eps, x, value(k, read(m, b.ffn_norm))),
                    value(k, read(m, b.ffn_gate)),
                    value(k, read(m, b.ffn_up)),
                    value(k, read(m, b.ffn_down)),
                ),
                value(k, read(m, b.ffn_post_norm_1)),
            );
            let logits = (k.product)(
                value(k, read(m, b.ffn_gate_inp)),
                (k.times)(
                    (k.scale)(c.router_scale, (k.normed)(c.eps, x)),
                    value(k, read(m, repeated(b.ffn_gate_inp_s, c.n as u64))),
                ),
            );
            let ids = (k.picked)(c.n_expert, c.n_used, true, logits);
            let shares = (k.rated)(
                c.n_used,
                c.n_expert,
                c.n,
                ids,
                value(k, read(m, b.ffn_down_exps_s)),
                (k.shares)(c.n_expert, c.n_used, true, logits),
            );
            let both = (k.each)(
                GgmlType::Q5_K,
                c.n_used,
                value(k, read(m, b.ffn_gate_up_exps)),
                weighed(k, c.eps, x, value(k, read(m, b.ffn_pre_norm_2))),
                ids,
            );
            let experts = weighed(
                k,
                c.eps,
                (k.mix)(
                    b.ffn_down_exps.dtype,
                    c.n_used,
                    value(k, read(m, b.ffn_down_exps)),
                    (k.times)((k.gelu)((k.half)(false, both)), (k.half)(true, both)),
                    ids,
                    shares,
                ),
                value(k, read(m, b.ffn_post_norm_2)),
            );
            value(k, diffusion_fed(m, c, b, h)) == (k.sum)(
                x,
                weighed(
                    k,
                    c.eps,
                    (k.sum)(shared, experts),
                    value(k, read(m, b.ffn_post_norm)),
                ),
            )
        }),
{
    lemma_values(k);
}

/// Layer `il` of a diffusion model attends with its own head width, base and
/// window, all read from the parameters; the window is in the mask, and only layers
/// that do not slide use the file's frequency factors.
pub proof fn law_diffusion_layers_have_their_own_heads<F: Copy>(
    p: &DiffusiongemmaParams<F>,
    il: int,
    freqs: Option<TensorView>,
    n: u32,
)
    requires
        p.layer_wf(il),
    ensures
        ({
            let c = p.attention(il, freqs, n);
            let head = if p.swa@[il] {
                p.head_dim_swa
            } else {
                p.head_dim_global
            };
            &&& c.eps == p.rms_eps
            &&& c.rope.dim == head
            &&& c.rope.freq_base == if p.swa@[il] {
                p.rope_base_swa
            } else {
                p.rope_base_global
            }
            &&& c.attn == grouped(head, head, p.n_head, p.n_head_kv@[il], p.attn_scale, 0)
            &&& c.heads.head_dim == head && c.heads.n_head == p.n_head && c.heads.n_head_kv
                == p.n_head_kv@[il]
            &&& c.freqs == if p.swa@[il] {
                None
            } else {
                freqs
            }
            &&& c.width == p.n_embd && c.n == n
        }),
{
    lemma_ratio(p.n_head, p.n_head_kv@[il]);
}

/// A diffusion pass goes through its layers in order: attention of its tokens at
/// positions from zero on under the layer's mask, then the feed-forward half, then
/// the factors of prompt and canvas. Its logits are of the canvas alone, behind the
/// output norm, and bounded.
pub proof fn law_diffusion_goes_through_its_layers<F: Copy, V>(
    k: Meaning<F, V>,
    model: &DiffusiongemmaModel<F>,
    m: Memory<F>,
    pass: CanvasPass<F>,
    i: int,
)
    requires
        flat(k),
        0 <= i,
    ensures
        ({
            let p = model.params;
            let n = pass.n() as u32;
            let b = model.weights.blocks@[i];
            let mid = diffusion_attended(
                m,
                p.attention(i, model.weights.rope_freqs, n),
                b,
                model.hidden(m, pass, i),
                words_term(Seq::new(n as nat, |t: int| t as u32)),
                model.mask_value(pass, p.swa@[i]),
            );
            model.hidden(m, pass, i + 1) == model.region_scaled(
                pass,
                i,
                diffusion_fed(m, p.experts(n, model.group_experts), b, mid),
            )
        }),
        ({
            let n = weighed(
                k,
                model.params.rms_eps,
                value(
                    k,
                    model.slice(
                        model.hidden(m, pass, model.weights.blocks@.len() as int),
                        pass,
                        pass.prompt,
                        pass.canvas(),
                    ),
                ),
                value(k, read(m, model.weights.output_norm)),
            );
            let head = match model.weights.output {
                Some(t) => value(k, read(m, t)),
                None => value(k, read(m, model.weights.token_embd)),
            };
            value(k, model.logits(m, pass)) == bounded(
                k,
                model.params.final_logit_softcap,
                (k.product)(head, n),
            )
        }),
{
    reveal(DiffusiongemmaModel::layer);
    lemma_values(k);
    assert(Seq::new(pass.n() as u32 as nat, |t: int| t as u32)
        =~= crate::models::blocks::sequential(0, pass.n() as u32 as nat));
}

/// Where the canvas is the whole pass, it starts from its scaled embeddings, plus
/// the gated stretch over the last step's expected embedding where there was one,
/// normalized; and every layer's output is multiplied by the canvas's factor.
pub proof fn law_a_bare_canvas_is_conditioned<F: Copy, V>(
    k: Meaning<F, V>,
    model: &DiffusiongemmaModel<F>,
    m: Memory<F>,
    pass: CanvasPass<F>,
    h: Term<F>,
    i: int,
)
    requires
        flat(k),
        pass.prompt == 0,
        pass.canvas() == pass.n(),
        0 < pass.n() <= u32::MAX,
    ensures
        ({
            let p = model.params;
            let start = (k.scale)(
                p.embd_scale,
                (k.rows)(
                    pass.tokens.len() as u32,
                    value(k, read(m, model.weights.token_embd)),
                    (k.words)(pass.tokens),
                ),
            );
            value(k, model.hidden(m, pass, 0)) == match pass.probs {
                None => (k.normed)(p.rms_eps, start),
                Some(probs) => {
                    let w = model.weights.sc->0;
                    let soft = (k.scale)(
                        p.embd_scale,
                        (k.product)(
                            value(
                                k,
                                read(
                                    m,
                                    crate::models::diffusiongemma::transposed(p.n_vocab, p.n_embd),
                                ),
                            ),
                            (k.floats)(probs),
                        ),
                    );
                    (k.normed)(
                        p.rms_eps,
                        (k.sum)(
                            start,
                            gated_output(
                                k,
                                k.gelu,
                                weighed(k, p.rms_eps, soft, value(k, read(m, w.pre_norm))),
                                value(k, read(m, w.gate)),
                                value(k, read(m, w.up)),
                                value(k, read(m, w.down)),
                            ),
                        ),
                    )
                },
            }
        }),
        value(k, model.region_scaled(pass, i, h)) == (k.scale)(
            model.params.out_scale@[i],
            value(k, h),
        ),
{
    lemma_values(k);
}

} // verus!
