//! How requests come in, take their settings, and leave.
use vstd::prelude::*;

use crate::gguf::{scalar_bits, ScalarBits};
use crate::models::mrope::{window_axes, ImageSpan};
use crate::models::qwen35_weights::Shown;
use crate::models::tensor::GgmlType;
use crate::runtime_flags::{shown_named, switched_by, QwenVariables};
use crate::server::decode::{live_indices, marked_by_slab};
use crate::server::eviction::{gone_ones, leaves, live_ones, prior_left, Eviction};
use crate::server::inference::{GenEvent, StopReason};
use crate::server::media::{lag_of, overruns};
use crate::server::prompts::frames;
use crate::server::sequence::ActiveSeq;
use crate::server::setup::{default_cached_len, local_bytes, slot_bytes};
use crate::server::types::openai::chosen;
use crate::server::worker::{all_busy, AdmitError, Worker};

verus! {

/// Positions lag behind tokens, once an image is behind them, by as much as the
/// image takes more tokens than positions.
pub proof fn law_lag_is_what_an_image_saves(pos0: u32, im: ImageSpan, after: int)
    requires
        im.nx >= 1,
        im.ny >= 1,
        im.n_tok == im.nx * im.ny,
        after >= 0,
    ensures
        ({
            let token = im.start + im.n_tok + after;
            window_axes(pos0, Some(im), token).0 == pos0 + token - lag_of(
                im.nx as int,
                im.ny as int,
            )
        }),
        lag_of(im.nx as int, im.ny as int) >= 0,
{
    assert(im.nx * im.ny >= im.nx && im.nx * im.ny >= im.ny) by (nonlinear_arith)
        requires
            im.nx >= 1,
            im.ny >= 1,
    ;
}

/// A span of placeholders fits where its last one is a token of the prompt.
pub proof fn law_spans_end_within_the_prompt(start: int, len: int, n: int)
    requires
        0 <= start,
        0 <= len,
    ensures
        overruns(start, len, n) <==> !(start + len <= n),
        len > 0 && !overruns(start, len, n) ==> start + len - 1 < n,
{
}

/// A media prompt is taken where it has tokens, fewer than the context holds, its
/// media fit in it and a slab is free. Where several fail, the first of these is
/// what is told.
pub proof fn law_media_prompts_are_taken_or_told_why(
    w: &Worker,
    tokens: Seq<u32>,
    overrun: Option<AdmitError>,
)
    requires
        tokens.len() <= usize::MAX,
    ensures
        w.prompt_refusal(tokens, overrun) is None <==> {
            &&& 0 < tokens.len() < w.ctx
            &&& overrun is None
            &&& !all_busy(w.slots@)
        },
        tokens.len() == 0 ==> w.prompt_refusal(tokens, overrun) == Some(AdmitError::EmptyPrompt),
        tokens.len() > 0 && tokens.len() >= w.ctx ==> w.prompt_refusal(tokens, overrun) == Some(
            AdmitError::PromptTooLong { tokens: tokens.len() as usize, ctx: w.ctx },
        ),
        0 < tokens.len() < w.ctx && overrun is Some ==> w.prompt_refusal(tokens, overrun)
            == overrun,
        0 < tokens.len() < w.ctx && overrun is None && all_busy(w.slots@) ==> w.prompt_refusal(
            tokens,
            overrun,
        ) == Some(AdmitError::NoFreeSlot),
{
}

/// The sequences of a decode step are the live ones, in order, and all of them.
pub proof fn law_a_decode_takes_the_live_ones(active: Seq<ActiveSeq>, n: int, k: int)
    requires
        0 <= n <= active.len() <= usize::MAX,
    ensures
        0 <= k < n && active[k].live() ==> live_indices(active, n).contains(k as usize),
        0 <= k < live_indices(active, n).len() ==> {
            let i = live_indices(active, n)[k];
            &&& i < n
            &&& active[i as int].live()
            &&& k > 0 ==> live_indices(active, n)[k - 1] < i
        },
    decreases n,
{
    if n > 0 {
        let before = live_indices(active, n - 1);
        law_a_decode_takes_the_live_ones(active, n - 1, k);
        if before.len() > 0 {
            law_a_decode_takes_the_live_ones(active, n - 1, before.len() - 1);
        }
        if 0 <= k < n && active[k].live() {
            if k < n - 1 {
                let j = choose|j: int| 0 <= j < before.len() && before[j] == k as usize;
                assert(live_indices(active, n)[j] == before[j]);
            } else {
                assert(live_indices(active, n)[before.len() as int] == k as usize);
            }
        }
        if 0 < k < live_indices(active, n).len() && k == before.len() {
            assert(live_indices(active, n)[k - 1] == before[k - 1]);
        }
    }
}

/// A live sequence whose slab has no room for another token ends as one that
/// filled the context; every other one is left as it is.
pub proof fn law_a_full_slab_ends_its_sequence(
    active: Seq<ActiveSeq>,
    positions: Seq<u32>,
    ctx: u32,
    i: int,
)
    requires
        0 <= i < active.len(),
    ensures
        ({
            let after = marked_by_slab(active, positions, ctx);
            let full = active[i].live() && positions[active[i].slab as int] + 1 >= ctx;
            &&& after.len() == active.len()
            &&& full ==> after[i].terminal == Some(StopReason::ContextFull)
            &&& full ==> after[i].id == active[i].id && after[i].logical() == active[i].logical()
            &&& !full ==> after[i] == active[i]
        }),
{
}

/// Every sequence either stays or leaves: the live ones stay, and no others.
pub proof fn law_sequences_stay_or_leave(a: Seq<ActiveSeq>, i: int)
    ensures
        live_ones(a).len() + gone_ones(a).len() == a.len(),
        0 <= i < live_ones(a).len() ==> live_ones(a)[i].live() && a.contains(live_ones(a)[i]),
        0 <= i < gone_ones(a).len() ==> !gone_ones(a)[i].live() && a.contains(gone_ones(a)[i]),
        0 <= i < a.len() && a[i].live() ==> live_ones(a).contains(a[i]),
        0 <= i < a.len() && !a[i].live() ==> gone_ones(a).contains(a[i]),
    decreases a.len(),
{
    if a.len() > 0 {
        let w = a.drop_last();
        law_sequences_stay_or_leave(w, i);
        let ls = live_ones(w);
        let gs = gone_ones(w);
        assert(a[a.len() - 1] == a.last());
        if 0 <= i < ls.len() {
            let j = choose|j: int| 0 <= j < w.len() && w[j] == ls[i];
            assert(a[j] == ls[i]);
        }
        if 0 <= i < gs.len() {
            let j = choose|j: int| 0 <= j < w.len() && w[j] == gs[i];
            assert(a[j] == gs[i]);
        }
        if 0 <= i < w.len() {
            assert(w[i] == a[i]);
            if a[i].live() {
                let j = choose|j: int| 0 <= j < ls.len() && ls[j] == a[i];
                assert(live_ones(a)[j] == a[i]);
            } else {
                let j = choose|j: int| 0 <= j < gs.len() && gs[j] == a[i];
                assert(gone_ones(a)[j] == a[i]);
            }
        } else if i == w.len() {
            if a.last().live() {
                assert(live_ones(a)[ls.len() as int] == a[i]);
            } else {
                assert(gone_ones(a)[gs.len() as int] == a[i]);
            }
        }
    }
}

/// What a sequence leaves in its slab is its whole conversation but for the last
/// token generated, which was never fed back.
pub proof fn law_all_but_the_last_token_stays(s: ActiveSeq)
    ensures
        s.generated@.len() > 0 ==> prior_left(s).push(s.generated@.last()) == s.logical(),
        s.generated@.len() == 0 ==> prior_left(s) == s.logical(),
{
    if s.generated@.len() > 0 {
        assert(prior_left(s).push(s.generated@.last()) =~= s.logical());
    } else {
        assert(prior_left(s) =~= s.logical());
    }
}

/// A client that is still there gets, last of all, the reason and the counts; just
/// before that, the text that was held back, where there is any. One that is gone
/// gets nothing.
pub proof fn law_a_leaving_sequence_closes_its_reply(s: ActiveSeq, e: Eviction)
    requires
        leaves(s, e),
    ensures
        e.id == s.id,
        s.disconnected <==> e.frames@.len() == 0,
        !s.disconnected ==> {
            &&& e.frames@.last() matches GenEvent::Done {
                stop_reason,
                prompt_tokens,
                completion_tokens,
            }
            &&& s.terminal matches Some(why) ==> stop_reason == why
            &&& s.terminal is None ==> stop_reason == StopReason::MaxTokens
            &&& prompt_tokens == s.prompt_tokens
            &&& s.generated@.len() <= u32::MAX ==> completion_tokens == s.generated@.len()
            &&& s.pending@.len() == 0 <==> e.frames@.len() == 1
            &&& s.pending@.len() > 0 ==> e.frames@.len() == 2 && (e.frames@[0] matches
                GenEvent::Delta(t) && t@ == s.pending@)
        },
{
}

/// What a request asks for is what it gets; what it leaves out is the server's.
pub proof fn law_requests_come_before_defaults<T>(asked: Option<T>, base: T)
    ensures
        asked matches Some(v) ==> chosen(asked, base) == v,
        asked is None ==> chosen(asked, base) == base,
{
}

/// Only the device's own heaps count, and all of them; their order does not matter.
pub proof fn law_only_the_devices_heaps_count(heaps: Seq<(bool, u64)>, more: Seq<(bool, u64)>, size: u64)
    ensures
        local_bytes(heaps.push((true, size))) == local_bytes(heaps) + size,
        local_bytes(heaps.push((false, size))) == local_bytes(heaps),
        local_bytes(heaps + more) == local_bytes(heaps) + local_bytes(more),
        local_bytes(heaps + more) == local_bytes(more + heaps),
    decreases more.len() + heaps.len(),
{
    assert(heaps.push((true, size)).drop_last() =~= heaps);
    assert(heaps.push((false, size)).drop_last() =~= heaps);
    lemma_heaps_add_up(heaps, more);
    lemma_heaps_add_up(more, heaps);
}

/// Bytes of two lists of heaps add up.
proof fn lemma_heaps_add_up(heaps: Seq<(bool, u64)>, more: Seq<(bool, u64)>)
    ensures
        local_bytes(heaps + more) == local_bytes(heaps) + local_bytes(more),
    decreases more.len(),
{
    if more.len() == 0 {
        assert(heaps + more =~= heaps);
    } else {
        assert((heaps + more).drop_last() =~= heaps + more.drop_last());
        lemma_heaps_add_up(heaps, more.drop_last());
    }
}

/// What is left for slots, with weights, scratch and pool, is the whole budget;
/// nothing is left where these already take it.
pub proof fn law_slots_get_what_is_left(budget: u64, weights: u64, scratch: u64, pool: u64)
    ensures
        slot_bytes(budget, weights, scratch, pool) >= 0,
        weights + scratch + pool <= budget ==> slot_bytes(budget, weights, scratch, pool) + weights
            + scratch + pool == budget,
        weights + scratch + pool > budget ==> slot_bytes(budget, weights, scratch, pool) == 0,
{
}

/// Where no length is set, prefixes are cached up to the context's length and up
/// to 4096 tokens, whichever is reached first.
pub proof fn law_cached_prefixes_are_bounded(ctx: u32)
    ensures
        default_cached_len(ctx) <= ctx,
        default_cached_len(ctx) <= 4096,
        default_cached_len(ctx) == ctx || default_cached_len(ctx) == 4096,
{
}

/// Numbers of one element are stored with the least significant byte first, four
/// bytes for a single float and two for a half.
pub proof fn law_numbers_are_little_endian(bytes: Seq<u8>)
    ensures
        bytes.len() >= 4 ==> scalar_bits(GgmlType::F32, bytes) == Some(
            ScalarBits::Single(
                (bytes[0] + 0x100 * bytes[1] + 0x1_0000 * bytes[2] + 0x100_0000 * bytes[3]) as u32,
            ),
        ),
        bytes.len() < 4 ==> scalar_bits(GgmlType::F32, bytes) is None,
        bytes.len() >= 2 ==> scalar_bits(GgmlType::F16, bytes) == Some(
            ScalarBits::Half((bytes[0] + 0x100 * bytes[1]) as u16),
        ),
        bytes.len() < 2 ==> scalar_bits(GgmlType::F16, bytes) is None,
{
    reveal_with_fuel(crate::gguf::little_endian, 5);
}

/// Every variable switches its own part, and a name shows its own value.
pub proof fn law_variables_switch_their_own_parts<F>(v: QwenVariables, one: F)
    ensures
        ({
            let s = switched_by(v, one);
            &&& s.keep_scratch == v.diff_dump
            &&& s.no_attn == v.no_attn
            &&& s.no_ssm == v.no_ssm
            &&& s.no_moe == v.no_moe
            &&& s.only_rms == v.only_rms
            &&& s.no_conv == v.no_conv
            &&& s.no_routed == v.no_routed
            &&& s.no_shared == v.no_shared
            &&& s.gdn_scale == Some(one) || s.gdn_scale is None
            &&& s.gdn_scale is Some <==> (v.gdn_scale matches Some(t) && t@ == "one"@)
            &&& v.max_layers is None ==> s.max_layers is None
            &&& s.shown is Some <==> v.ssm_dump is Some
        }),
        shown_named("alpha"@) == Shown::Alpha,
        shown_named("beta"@) == Shown::Beta,
        shown_named("qkv"@) == Shown::Qkv,
        shown_named("conv"@) == Shown::Conv,
        shown_named("gdn_attn"@) == Shown::Scan,
        shown_named("gated"@) == Shown::Gated,
        shown_named("proj"@) == Shown::Proj,
{
    reveal_strlit("alpha");
    reveal_strlit("beta");
    reveal_strlit("qkv");
    reveal_strlit("conv");
    reveal_strlit("gdn_attn");
    reveal_strlit("gated");
    reveal_strlit("proj");
    assert("alpha"@[0] != "beta"@[0]);
    assert("beta"@.len() == 4);
    assert("conv"@[0] != "beta"@[0]);
    assert("proj"@[0] != "beta"@[0] && "proj"@[0] != "conv"@[0]);
    assert("gated"@[0] != "alpha"@[0] && "gated"@[0] != "proj"@[0]);
    assert("gated"@.len() == 5 && "gdn_attn"@.len() == 8);
    assert("qkv"@.len() == 3 && "conv"@.len() == 4 && "alpha"@.len() == 5);
}

/// As many frames are counted as hold all samples, and no frame more.
pub proof fn law_frames_hold_all_samples(samples: int, frame_size: int)
    requires
        0 <= samples,
        frame_size > 0,
    ensures
        frames(samples, frame_size) * frame_size >= samples,
        (frames(samples, frame_size) - 1) * frame_size < samples || samples == 0,
        samples == 0 ==> frames(samples, frame_size) == 0,
{
    let q = samples / frame_size;
    let r = samples % frame_size;
    vstd::arithmetic::div_mod::lemma_fundamental_div_mod(samples, frame_size);
    assert(0 <= r < frame_size);
    assert(q * frame_size == frame_size * q) by (nonlinear_arith);
    assert((q + 1) * frame_size == frame_size * q + frame_size) by (nonlinear_arith);
    assert((q - 1) * frame_size == frame_size * q - frame_size) by (nonlinear_arith);
    if samples == 0 {
        vstd::arithmetic::div_mod::lemma_fundamental_div_mod_converse(0, frame_size, 0, 0);
    }
}

} // verus!
