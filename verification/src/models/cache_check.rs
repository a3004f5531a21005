//! Whether a cache is laid out as the passes of a model take it.
use vstd::prelude::*;

use crate::models::blocks::holds_tokens;
use crate::models::cache::{BatchKvCache, KvCache};
use crate::models::gemma4::Gemma4Model;
use crate::models::llama::LlamaModel;
use crate::models::qwen3::Qwen3Model;
use crate::models::qwen35moe::{get_range, Qwen35MoeModel};
use crate::models::tensor::{Buffer, BufferRange, TensorView};

verus! {

/// Whether a layer has room for `len` tokens of `heads` heads of `head_dim`.
fn room_for(t: &TensorView, head_dim: u64, heads: u64, len: u64) -> (r: bool)
    ensures
        r == holds_tokens(*t, head_dim, heads, len),
{
    if t.byte_stride.d2.checked_mul(len).is_none() {
        return false;
    }
    let head_bytes: u64 = match t.byte_stride.d0.checked_mul(head_dim) {
        Some(v) => v,
        None => {
            return false;
        },
    };
    let token_bytes: u64 = match head_bytes.checked_mul(heads) {
        Some(v) => v,
        None => {
            return false;
        },
    };
    if token_bytes.checked_mul(len).is_none() {
        return false;
    }
    let token: u64 = match head_dim.checked_mul(heads) {
        Some(v) => v,
        None => {
            return false;
        },
    };
    token.checked_mul(len).is_some()
}

/// Whether `count` parts of `bytes` from `offset` on end within 64-bit addresses.
fn parts_end(offset: u64, count: usize, bytes: u64) -> (r: bool)
    ensures
        r == (offset + count * bytes <= u64::MAX),
{
    assert(0 <= count * bytes) by (nonlinear_arith);
    match (count as u64).checked_mul(bytes) {
        Some(all) => offset.checked_add(all).is_some(),
        None => false,
    }
}

impl KvCache {
    /// Whether there are `n` layers, each with its own pair of buffers.
    pub fn is_layered(&self, n: usize) -> (r: bool)
        ensures
            r == self.layered(n as int),
    {
        if n > self.k_layers.len() || self.k_layers.len() != self.v_layers.len() {
            return false;
        }
        let mut i: usize = 0;
        while i < self.k_layers.len()
            invariant
                i <= self.k_layers@.len() == self.v_layers@.len(),
                forall|j: int| 0 <= j < i ==> #[trigger] self.layer_named(j),
            decreases self.k_layers@.len() - i,
        {
            if self.k_layers[i].buffer != Buffer::KeyLayer(i as u64) || self.v_layers[i].buffer
                != Buffer::ValueLayer(i as u64) {
                assert(!self.layer_named(i as int));
                return false;
            }
            i += 1;
        }
        true
    }

    /// Whether layer `i` has room for the whole sequence.
    pub fn is_roomy(&self, i: usize, k_dim: u64, v_dim: u64, heads: u64) -> (r: bool)
        requires
            i < self.k_layers@.len(),
            i < self.v_layers@.len(),
        ensures
            r == self.roomy(i as int, k_dim, v_dim, heads),
    {
        let len: u64 = self.max_seq_len as u64;
        room_for(&self.k_layers[i], k_dim, heads, len) && room_for(
            &self.v_layers[i],
            v_dim,
            heads,
            len,
        )
    }

    /// Whether there are `n` layers of the same heads, each with its own pair of
    /// buffers and room for the whole sequence.
    pub fn takes_heads(&self, n: usize, dim: u64, heads: u64) -> (r: bool)
        ensures
            r == (self.layered(n as int) && forall|i: int|
                0 <= i < n ==> #[trigger] self.roomy(i, dim, dim, heads)),
    {
        if !self.is_layered(n) {
            return false;
        }
        let mut i: usize = 0;
        while i < n
            invariant
                i <= n <= self.k_layers@.len() == self.v_layers@.len(),
                forall|j: int| 0 <= j < i ==> #[trigger] self.roomy(j, dim, dim, heads),
            decreases n - i,
        {
            if !self.is_roomy(i, dim, dim, heads) {
                return false;
            }
            i += 1;
        }
        true
    }
}

impl BatchKvCache {
    /// Whether there are `n` layers, each with its own pair of buffers.
    pub fn is_layered(&self, n: usize) -> (r: bool)
        ensures
            r == self.layered(n as int),
    {
        let layers: usize = self.k_attn.len();
        let slabs: usize = self.positions.len();
        if n > layers || layers != self.v_attn.len() || layers != self.k_slab.len() || layers
            != self.v_slab.len() || slabs as u64 > u32::MAX as u64 {
            return false;
        }
        let mut i: usize = 0;
        while i < layers
            invariant
                i <= layers == self.k_attn@.len(),
                layers == self.v_attn@.len(),
                layers == self.k_slab@.len(),
                layers == self.v_slab@.len(),
                slabs == self.positions@.len(),
                forall|j: int| 0 <= j < i ==> #[trigger] self.layer_named(j),
            decreases layers - i,
        {
            let keys = Buffer::KeySlabs(i as u64);
            let values = Buffer::ValueSlabs(i as u64);
            let named: bool = self.k_attn[i].buffer == keys && self.v_attn[i].buffer == values
                && self.k_slab[i].buffer == keys && self.v_slab[i].buffer == values;
            let within: bool = parts_end(self.k_slab[i].byte_offset, slabs, self.k_slab_bytes)
                && parts_end(self.v_slab[i].byte_offset, slabs, self.v_slab_bytes);
            if !named || !within {
                assert(!self.layer_named(i as int));
                return false;
            }
            i += 1;
        }
        true
    }

    /// Whether there are `n` recurrent layers, each with its own pair of buffers.
    pub fn is_ssm_layered(&self, n: usize) -> (r: bool)
        ensures
            r == self.ssm_layered(n as int),
    {
        let layers: usize = self.conv_states.len();
        let slabs: usize = self.positions.len();
        if n > layers || layers != self.gdn_states.len() {
            return false;
        }
        let conv: u64 = match 4u64.checked_mul(self.conv_slot_floats) {
            Some(v) => v,
            None => {
                return false;
            },
        };
        let gdn: u64 = match 4u64.checked_mul(self.gdn_slot_floats) {
            Some(v) => v,
            None => {
                return false;
            },
        };
        let mut i: usize = 0;
        while i < layers
            invariant
                i <= layers == self.conv_states@.len(),
                layers == self.gdn_states@.len(),
                slabs == self.positions@.len(),
                conv == 4 * self.conv_slot_floats,
                gdn == 4 * self.gdn_slot_floats,
                forall|j: int| 0 <= j < i ==> #[trigger] self.ssm_named(j),
            decreases layers - i,
        {
            let named: bool = self.conv_states[i].buffer == Buffer::ConvSlabs(i as u64)
                && self.gdn_states[i].buffer == Buffer::GdnSlabs(i as u64);
            let within: bool = parts_end(self.conv_states[i].offset, slabs, conv) && parts_end(
                self.gdn_states[i].offset,
                slabs,
                gdn,
            );
            if !named || !within {
                assert(!self.ssm_named(i as int));
                return false;
            }
            i += 1;
        }
        true
    }
}

impl<F: Copy> LlamaModel<F> {
    /// Whether the cache has a layer, with room, for each layer of the model.
    pub fn takes_cache(&self, cache: &KvCache) -> (r: bool)
        requires
            self.params.wf(),
        ensures
            r == (cache.layered(self.weights.blocks@.len() as int) && forall|i: int|
                0 <= i < self.weights.blocks@.len() ==> #[trigger] cache.roomy(
                    i,
                    self.params.head() as u64,
                    self.params.head() as u64,
                    self.params.n_head_kv as u64,
                )),
    {
        cache.takes_heads(
            self.weights.blocks.len(),
            self.params.head_dim() as u64,
            self.params.n_head_kv as u64,
        )
    }

    /// Whether the cache has slabs for each layer of the model.
    pub fn takes_batch(&self, batch: &BatchKvCache) -> (r: bool)
        ensures
            r == batch.layered(self.weights.blocks@.len() as int),
    {
        batch.is_layered(self.weights.blocks.len())
    }
}

impl<F: Copy> Qwen3Model<F> {
    /// Whether the cache has a layer, with room, for each layer of the model.
    pub fn takes_cache(&self, cache: &KvCache) -> (r: bool)
        ensures
            r == self.cache_ok(cache),
    {
        cache.takes_heads(
            self.weights.blocks.len(),
            self.params.head_dim as u64,
            self.params.n_head_kv as u64,
        )
    }
}

impl<F: Copy> Gemma4Model<F> {
    /// Whether the cache has a layer, with room, for each layer of the model.
    pub fn takes_cache(&self, cache: &KvCache) -> (r: bool)
        requires
            self.params.wf(self.weights.blocks@.len() as int),
        ensures
            r == self.cache_ok(cache),
    {
        let n: usize = self.weights.blocks.len();
        if !cache.is_layered(n) {
            return false;
        }
        let mut i: usize = 0;
        while i < n
            invariant
                i <= n == self.weights.blocks@.len(),
                n <= cache.k_layers@.len() == cache.v_layers@.len(),
                self.params.wf(n as int),
                forall|j: int|
                    0 <= j < i ==> #[trigger] cache.roomy(
                        j,
                        self.params.heads(j).head_dim,
                        self.params.heads(j).head_dim,
                        self.params.heads(j).n_head_kv,
                    ),
            decreases n - i,
        {
            let h = self.params.layer_heads(i);
            if !cache.is_roomy(i, h.head_dim, h.head_dim, h.n_head_kv) {
                return false;
            }
            i += 1;
        }
        true
    }
}

/// Whether a state, if there is one, has this buffer.
fn owns(state: Option<BufferRange>, buffer: Buffer) -> (r: bool)
    ensures
        r == (state matches Some(s) ==> s.buffer == buffer),
{
    match state {
        Some(s) => s.buffer == buffer,
        None => true,
    }
}

impl<F: Copy> Qwen35MoeModel<F> {
    /// Whether every recurrent layer has its own buffers.
    fn owns_states(&self, cache: &KvCache) -> (r: bool)
        ensures
            r == forall|j: int| 0 <= j <= u32::MAX ==> #[trigger] self.states_named(cache, j),
    {
        let mut j: usize = 0;
        while j as u64 <= u32::MAX as u64 && (j < cache.ssm_conv_states.len() || j
            < cache.ssm_gdn_states.len() || j < cache.ssm_gdn_snapshots.len() || j
            < cache.ssm_conv_backups.len())
            invariant
                forall|k: int| 0 <= k < j ==> #[trigger] self.states_named(cache, k),
            decreases cache.ssm_conv_states@.len() + cache.ssm_gdn_states@.len()
                + cache.ssm_gdn_snapshots@.len() + cache.ssm_conv_backups@.len() - j,
        {
            let at: u64 = j as u64;
            let named: bool = owns(get_range(&cache.ssm_conv_states, j), Buffer::ConvState(at))
                && owns(get_range(&cache.ssm_gdn_states, j), Buffer::GdnState(at)) && owns(
                get_range(&cache.ssm_gdn_snapshots, j),
                Buffer::GdnSnapshots(at),
            ) && owns(get_range(&cache.ssm_conv_backups, j), Buffer::ConvBackup(at));
            if !named {
                assert(!self.states_named(cache, j as int));
                return false;
            }
            j += 1;
        }
        true
    }

    /// Whether the cache has `n` layers with room, and states with their own
    /// buffers.
    pub fn takes_cache(&self, cache: &KvCache, n: usize) -> (r: bool)
        ensures
            r == self.cache_ok(cache, n as int),
    {
        if !cache.is_layered(n) || cache.ssm_conv_states.len() != cache.ssm_gdn_states.len() {
            return false;
        }
        let mut i: usize = 0;
        while i < n
            invariant
                i <= n <= cache.k_layers@.len() == cache.v_layers@.len(),
                forall|j: int| 0 <= j < i ==> #[trigger] self.roomy(cache, j),
            decreases n - i,
        {
            let k = &cache.k_layers[i];
            let v = &cache.v_layers[i];
            let heads: u64 = self.params.n_head_kv as u64;
            if !room_for(k, self.params.head_dim_k as u64, heads, k.dims.d2) || !room_for(
                v,
                self.params.head_dim_v as u64,
                heads,
                k.dims.d2,
            ) {
                assert(!self.roomy(cache, i as int));
                return false;
            }
            i += 1;
        }
        self.owns_states(cache)
    }

    /// Whether the cache has slabs for every layer.
    pub fn takes_batch(&self, batch: &BatchKvCache) -> (r: bool)
        requires
            self.wf(),
        ensures
            r == self.batch_ok(batch),
    {
        let n: usize = self.weights.blocks.len();
        let p = &self.params;
        proof {
            assert(0 <= p.ssm_state * p.ssm_state <= u32::MAX * u32::MAX) by (nonlinear_arith)
                requires
                    p.ssm_state <= u32::MAX,
            ;
        }
        let square: u64 = p.ssm_state as u64 * p.ssm_state as u64;
        let floats: u64 = square * p.ssm_dt_rank as u64;
        batch.is_layered(n) && batch.is_ssm_layered(p.count_recurrent(n)) && batch.gdn_slot_floats
            == floats
    }
}

} // verus!
