//! Key-value caches as the forward passes see them.
use vstd::prelude::*;

use crate::models::blocks::{holds_tokens, LayerCache};
use crate::models::tensor::{Buffer, BufferRange, GgmlType, TensorView};

verus! {

/// The cache of one sequence.
pub struct KvCache {
    /// Tokens cached so far.
    pub position: u32,
    /// How far the rotary cursor trails the token count.
    pub rope_position_lag: u32,
    pub k_layers: Vec<TensorView>,
    pub v_layers: Vec<TensorView>,
    pub k_dtype: GgmlType,
    pub v_dtype: GgmlType,
    pub max_seq_len: u32,
    /// Whether attention reads this pair of types in place.
    pub direct: bool,
    /// Convolution states, by recurrent layer.
    pub ssm_conv_states: Vec<BufferRange>,
    /// Recurrent states, by recurrent layer.
    pub ssm_gdn_states: Vec<BufferRange>,
    /// Recurrent states kept for a rollback, by recurrent layer.
    pub ssm_gdn_snapshots: Vec<BufferRange>,
    /// Convolution inputs kept for a rollback, by recurrent layer.
    pub ssm_conv_backups: Vec<BufferRange>,
    pub ssm_conv_kernel: u32,
    pub ssm_conv_channels: u32,
    /// Tokens of a pass whose states can be kept.
    pub ssm_max_snapshots: u32,
}

/// A cache that stands at `position` has room for `n` more tokens. One that stands
/// elsewhere, or takes none, need not.
pub open spec fn has_room(cache: &KvCache, position: u32, n: nat) -> bool {
    n > 0 && cache.position == position ==> position + n <= cache.max_seq_len
}

impl KvCache {
    /// Layer `i` is its own pair of buffers.
    pub open spec fn layer_named(&self, i: int) -> bool {
        &&& self.k_layers@[i].buffer == Buffer::KeyLayer(i as u64)
        &&& self.v_layers@[i].buffer == Buffer::ValueLayer(i as u64)
    }

    /// There are `n` layers, each with its own pair of buffers.
    pub open spec fn layered(&self, n: int) -> bool {
        &&& n <= self.k_layers@.len()
        &&& self.k_layers@.len() == self.v_layers@.len()
        &&& self.k_layers@.len() <= u64::MAX
        &&& forall|i: int| 0 <= i < self.k_layers@.len() ==> #[trigger] self.layer_named(i)
    }

    /// Layer `i`.
    pub open spec fn layer(&self, i: int) -> LayerCache {
        LayerCache { k: self.k_layers@[i], v: self.v_layers@[i] }
    }

    /// Layer `i` has room for the whole sequence.
    pub open spec fn roomy(&self, i: int, k_dim: u64, v_dim: u64, heads: u64) -> bool {
        &&& holds_tokens(self.k_layers@[i], k_dim, heads, self.max_seq_len as u64)
        &&& holds_tokens(self.v_layers@[i], v_dim, heads, self.max_seq_len as u64)
    }

    /// The same cache apart from the token count.
    pub open spec fn same_but_position(&self, other: &KvCache) -> bool {
        &&& self.rope_position_lag == other.rope_position_lag
        &&& self.k_layers == other.k_layers
        &&& self.v_layers == other.v_layers
        &&& self.k_dtype == other.k_dtype
        &&& self.v_dtype == other.v_dtype
        &&& self.max_seq_len == other.max_seq_len
        &&& self.direct == other.direct
        &&& self.ssm_conv_states == other.ssm_conv_states
        &&& self.ssm_gdn_states == other.ssm_gdn_states
        &&& self.ssm_gdn_snapshots == other.ssm_gdn_snapshots
        &&& self.ssm_conv_backups == other.ssm_conv_backups
        &&& self.ssm_conv_kernel == other.ssm_conv_kernel
        &&& self.ssm_conv_channels == other.ssm_conv_channels
        &&& self.ssm_max_snapshots == other.ssm_max_snapshots
    }

    /// The views of layer `i`.
    pub fn layer_views(&self, i: usize) -> (r: LayerCache)
        requires
            self.layered(i as int + 1),
        ensures
            r == self.layer(i as int),
            r.k.buffer == Buffer::KeyLayer(i as u64),
            r.v.buffer == Buffer::ValueLayer(i as u64),
    {
        assert(self.layer_named(i as int));
        LayerCache { k: self.k_layers[i], v: self.v_layers[i] }
    }

    /// Count `l` more tokens.
    pub fn advance(&mut self, l: u32)
        requires
            old(self).position + l <= u32::MAX,
        ensures
            final(self).position == old(self).position + l,
            final(self).same_but_position(old(self)),
    {
        self.position = self.position + l;
    }
}

/// The cache of several sequences, one slab each.
pub struct BatchKvCache {
    /// Tokens cached so far, by slab.
    pub positions: Vec<u32>,
    /// Keys of all slabs as attention reads them, by layer.
    pub k_attn: Vec<TensorView>,
    /// Values of all slabs as attention reads them, by layer.
    pub v_attn: Vec<TensorView>,
    /// Keys of the first slab, by layer.
    pub k_slab: Vec<TensorView>,
    /// Values of the first slab, by layer.
    pub v_slab: Vec<TensorView>,
    /// Bytes from one slab's keys to the next.
    pub k_slab_bytes: u64,
    /// Bytes from one slab's values to the next.
    pub v_slab_bytes: u64,
    /// Convolution states of all slabs, by recurrent layer.
    pub conv_states: Vec<BufferRange>,
    /// Recurrent states of all slabs, by recurrent layer.
    pub gdn_states: Vec<BufferRange>,
    /// Elements of one slab's convolution state.
    pub conv_slot_floats: u64,
    /// Elements of one slab's recurrent state.
    pub gdn_slot_floats: u64,
}

/// Slab `slot` of a layer whose first slab is `first`.
pub open spec fn slab_of(first: TensorView, bytes: u64, slot: u32) -> TensorView {
    TensorView { byte_offset: (first.byte_offset + slot * bytes) as u64, ..first }
}

/// The part of slab `slot` in a stretch of slabs of `floats` elements each.
pub open spec fn slot_range(all: BufferRange, floats: u64, slot: u32) -> BufferRange {
    BufferRange {
        buffer: all.buffer,
        offset: (all.offset + slot * (4 * floats)) as u64,
        size: (4 * floats) as u64,
    }
}

impl BatchKvCache {
    /// Layer `i` is its own pair of buffers.
    pub open spec fn layer_named(&self, i: int) -> bool {
        &&& self.k_attn@[i].buffer == Buffer::KeySlabs(i as u64)
        &&& self.v_attn@[i].buffer == Buffer::ValueSlabs(i as u64)
        &&& self.k_slab@[i].buffer == Buffer::KeySlabs(i as u64)
        &&& self.v_slab@[i].buffer == Buffer::ValueSlabs(i as u64)
        &&& self.k_slab@[i].byte_offset + self.positions@.len() * self.k_slab_bytes <= u64::MAX
        &&& self.v_slab@[i].byte_offset + self.positions@.len() * self.v_slab_bytes <= u64::MAX
    }

    /// There are `n` layers, each with its own pair of buffers.
    pub open spec fn layered(&self, n: int) -> bool {
        &&& n <= self.k_attn@.len() <= u64::MAX
        &&& self.k_attn@.len() == self.v_attn@.len()
        &&& self.k_attn@.len() == self.k_slab@.len()
        &&& self.k_attn@.len() == self.v_slab@.len()
        &&& self.positions@.len() <= u32::MAX
        &&& forall|i: int| 0 <= i < self.k_attn@.len() ==> #[trigger] self.layer_named(i)
    }

    /// The same cache apart from the token counts.
    pub open spec fn same_but_positions(&self, other: &BatchKvCache) -> bool {
        &&& self.positions@.len() == other.positions@.len()
        &&& self.k_attn == other.k_attn
        &&& self.v_attn == other.v_attn
        &&& self.k_slab == other.k_slab
        &&& self.v_slab == other.v_slab
        &&& self.k_slab_bytes == other.k_slab_bytes
        &&& self.v_slab_bytes == other.v_slab_bytes
        &&& self.conv_states == other.conv_states
        &&& self.gdn_states == other.gdn_states
        &&& self.conv_slot_floats == other.conv_slot_floats
        &&& self.gdn_slot_floats == other.gdn_slot_floats
    }

    /// Keys of a slab.
    pub open spec fn k_slot(&self, slot: u32, layer: int) -> TensorView {
        slab_of(self.k_slab@[layer], self.k_slab_bytes, slot)
    }

    /// Values of a slab.
    pub open spec fn v_slot(&self, slot: u32, layer: int) -> TensorView {
        slab_of(self.v_slab@[layer], self.v_slab_bytes, slot)
    }

    /// Keys of a slab.
    pub fn slot_k_view(&self, slot: u32, layer: usize) -> (r: TensorView)
        requires
            self.layered(layer as int + 1),
            slot < self.positions@.len(),
        ensures
            r == self.k_slot(slot, layer as int),
            r.buffer == Buffer::KeySlabs(layer as u64),
    {
        assert(self.layer_named(layer as int));
        let first = self.k_slab[layer];
        assert(slot * self.k_slab_bytes <= self.positions@.len() * self.k_slab_bytes)
            by (nonlinear_arith)
            requires
                slot <= self.positions@.len(),
        ;
        TensorView { byte_offset: first.byte_offset + slot as u64 * self.k_slab_bytes, ..first }
    }

    /// Values of a slab.
    pub fn slot_v_view(&self, slot: u32, layer: usize) -> (r: TensorView)
        requires
            self.layered(layer as int + 1),
            slot < self.positions@.len(),
        ensures
            r == self.v_slot(slot, layer as int),
            r.buffer == Buffer::ValueSlabs(layer as u64),
    {
        assert(self.layer_named(layer as int));
        let first = self.v_slab[layer];
        assert(slot * self.v_slab_bytes <= self.positions@.len() * self.v_slab_bytes)
            by (nonlinear_arith)
            requires
                slot <= self.positions@.len(),
        ;
        TensorView { byte_offset: first.byte_offset + slot as u64 * self.v_slab_bytes, ..first }
    }

    /// Recurrent layer `i` is its own pair of buffers.
    pub open spec fn ssm_named(&self, i: int) -> bool {
        &&& self.conv_states@[i].buffer == Buffer::ConvSlabs(i as u64)
        &&& self.gdn_states@[i].buffer == Buffer::GdnSlabs(i as u64)
        &&& self.conv_states@[i].offset + self.positions@.len() * (4 * self.conv_slot_floats)
            <= u64::MAX
        &&& self.gdn_states@[i].offset + self.positions@.len() * (4 * self.gdn_slot_floats)
            <= u64::MAX
    }

    /// There are `n` recurrent layers, each with its own pair of buffers.
    pub open spec fn ssm_layered(&self, n: int) -> bool {
        &&& n <= self.conv_states@.len() <= u64::MAX
        &&& self.conv_states@.len() == self.gdn_states@.len()
        &&& 4 * self.conv_slot_floats <= u64::MAX
        &&& 4 * self.gdn_slot_floats <= u64::MAX
        &&& forall|i: int| 0 <= i < self.conv_states@.len() ==> #[trigger] self.ssm_named(i)
    }

    /// The convolution state of a slab.
    pub open spec fn conv_slot(&self, layer: int, slot: u32) -> BufferRange {
        slot_range(self.conv_states@[layer], self.conv_slot_floats, slot)
    }

    /// The recurrent state of a slab.
    pub open spec fn gdn_slot(&self, layer: int, slot: u32) -> BufferRange {
        slot_range(self.gdn_states@[layer], self.gdn_slot_floats, slot)
    }

    /// The convolution state of a slab.
    pub fn conv_state_slot(&self, layer: usize, slot: u32) -> (r: BufferRange)
        requires
            self.ssm_layered(layer as int + 1),
            slot < self.positions@.len(),
        ensures
            r == self.conv_slot(layer as int, slot),
            r.buffer == Buffer::ConvSlabs(layer as u64),
    {
        assert(self.ssm_named(layer as int));
        let bytes: u64 = 4 * self.conv_slot_floats;
        assert(slot * bytes <= self.positions@.len() * bytes) by (nonlinear_arith)
            requires
                slot <= self.positions@.len(),
        ;
        let all = self.conv_states[layer];
        BufferRange { buffer: all.buffer, offset: all.offset + slot as u64 * bytes, size: bytes }
    }

    /// The recurrent state of a slab.
    pub fn gdn_state_slot(&self, layer: usize, slot: u32) -> (r: BufferRange)
        requires
            self.ssm_layered(layer as int + 1),
            slot < self.positions@.len(),
        ensures
            r == self.gdn_slot(layer as int, slot),
            r.buffer == Buffer::GdnSlabs(layer as u64),
    {
        assert(self.ssm_named(layer as int));
        let bytes: u64 = 4 * self.gdn_slot_floats;
        assert(slot * bytes <= self.positions@.len() * bytes) by (nonlinear_arith)
            requires
                slot <= self.positions@.len(),
        ;
        let all = self.gdn_states[layer];
        BufferRange { buffer: all.buffer, offset: all.offset + slot as u64 * bytes, size: bytes }
    }

    /// Set the token counts of the slabs that a pass used.
    pub fn set_positions(&mut self, slots: &[u32], kv_lens: &[u32])
        requires
            slots@.len() == kv_lens@.len(),
            forall|s: int|
                0 <= s < slots@.len() ==> (#[trigger] slots@[s]) < old(self).positions@.len(),
        ensures
            final(self).same_but_positions(old(self)),
            final(self).positions@ == advanced(
                old(self).positions@,
                slots@,
                kv_lens@,
                slots@.len() as int,
            ),
    {
        let mut s: usize = 0;
        while s < slots.len()
            invariant
                s <= slots@.len(),
                slots@.len() == kv_lens@.len(),
                forall|j: int|
                    0 <= j < slots@.len() ==> (#[trigger] slots@[j]) < old(self).positions@.len(),
                self.same_but_positions(old(self)),
                self.positions@ == advanced(old(self).positions@, slots@, kv_lens@, s as int),
            decreases slots@.len() - s,
        {
            let slot: usize = slots[s] as usize;
            self.positions[slot] = kv_lens[s];
            s += 1;
        }
    }
}

/// Token counts once the first `n` slabs used are set.
pub open spec fn advanced(positions: Seq<u32>, slots: Seq<u32>, kv_lens: Seq<u32>, n: int) -> Seq<
    u32,
>
    decreases n,
{
    if n <= 0 {
        positions
    } else {
        advanced(positions, slots, kv_lens, n - 1).update(slots[n - 1] as int, kv_lens[n - 1])
    }
}

/// Slabs that the pass did not use keep their token counts.
pub proof fn law_other_slabs_keep_their_place(
    positions: Seq<u32>,
    slots: Seq<u32>,
    kv_lens: Seq<u32>,
    n: int,
    slot: int,
)
    requires
        0 <= n <= slots.len(),
        0 <= slot < positions.len(),
        forall|s: int| 0 <= s < n ==> (#[trigger] slots[s]) < positions.len() && slots[s] != slot,
    ensures
        advanced(positions, slots, kv_lens, n).len() == positions.len(),
        advanced(positions, slots, kv_lens, n)[slot] == positions[slot],
    decreases n,
{
    if n > 0 {
        law_other_slabs_keep_their_place(positions, slots, kv_lens, n - 1, slot);
        assert(slots[n - 1] != slot);
    }
}

/// Fewer tokens fit where more do.
pub proof fn lemma_fewer_tokens(t: TensorView, head_dim: u64, heads: u64, max: u64, len: u64)
    requires
        holds_tokens(t, head_dim, heads, max),
        len <= max,
    ensures
        holds_tokens(t, head_dim, heads, len),
{
    assert(t.byte_stride.d2 * len <= t.byte_stride.d2 * max) by (nonlinear_arith)
        requires
            len <= max,
    ;
    let s = t.byte_stride.d0 * head_dim * heads;
    assert(s * len <= s * max) by (nonlinear_arith)
        requires
            len <= max,
            s >= 0,
    ;
    let e = head_dim * heads;
    assert(e * len <= e * max) by (nonlinear_arith)
        requires
            len <= max,
            e >= 0,
    ;
}

} // verus!
