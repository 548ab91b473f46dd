use vstd::prelude::*;
use crate::components::layer::{RenderLayer, layer_index};

verus! {

/// Generation counter after one more bake/invalidate/unbake call
/// (it wraps around at `u32::MAX`).
pub open spec fn next_generation(g: u32) -> u32 {
    if g == u32::MAX {
        0
    } else {
        (g + 1) as u32
    }
}

/// Bit of the bake mask that belongs to a layer.
pub open spec fn layer_bit(layer: RenderLayer) -> u8 {
    (1u8 << layer_index(layer))
}

/// The header word for a mask and a generation: `mask | (generation << 6)`,
/// the shift dropping the generation's top six bits.
pub open spec fn encode_word(mask: u8, generation: u32) -> u32 {
    (mask as u32) | (generation << 6u32)
}

/// A call that changes the bake state, with the layer it names.
pub enum BakeOp {
    Bake(RenderLayer),
    Unbake(RenderLayer),
    Invalidate(RenderLayer),
}

/// The bake mask after one call.
pub open spec fn mask_after(mask: u8, op: BakeOp) -> u8 {
    match op {
        BakeOp::Bake(layer) => mask | layer_bit(layer),
        BakeOp::Unbake(layer) => mask & !layer_bit(layer),
        BakeOp::Invalidate(_) => mask,
    }
}

/// The bake mask of a fresh bake state after a sequence of calls.
pub open spec fn mask_after_ops(ops: Seq<BakeOp>) -> u8
    decreases ops.len(),
{
    if ops.len() == 0 {
        0
    } else {
        mask_after(mask_after_ops(ops.drop_last()), ops.last())
    }
}

/// Whether the most recent bake or unbake naming `layer` in `ops` was a
/// bake (false when there was none).
pub open spec fn last_baked(ops: Seq<BakeOp>, layer: RenderLayer) -> bool
    decreases ops.len(),
{
    if ops.len() == 0 {
        false
    } else {
        match ops.last() {
            BakeOp::Bake(l) => if l == layer {
                true
            } else {
                last_baked(ops.drop_last(), layer)
            },
            BakeOp::Unbake(l) => if l == layer {
                false
            } else {
                last_baked(ops.drop_last(), layer)
            },
            BakeOp::Invalidate(_) => last_baked(ops.drop_last(), layer),
        }
    }
}

/// Manages layer baking state for render caching.
///
/// Layers can be "baked" to an intermediate texture and reused across frames
/// for static content (e.g., terrain). The generation counter tracks changes
/// so the renderer knows when to refresh cached textures.
#[derive(Debug, Clone, Copy)]
pub struct BakeState {
    /// Bitmask of layers marked for baking (bits 0-5 correspond to RenderLayer variants).
    mask: u8,
    /// Counter incremented (wrapping) on every bake/invalidate/unbake call.
    generation: u32,
}

impl BakeState {
    /// Only the six layer bits can ever be set.
    #[verifier::type_invariant]
    spec fn inv(self) -> bool {
        self.mask < 64
    }

    /// The baked-layers bitmask.
    pub closed spec fn mask_bits(&self) -> u8 {
        self.mask
    }

    /// The bake generation counter.
    pub closed spec fn generation_count(&self) -> u32 {
        self.generation
    }

    /// Create a new BakeState with no baked layers.
    pub fn new() -> (r: Self)
        ensures
            r.mask_bits() == 0,
            r.mask_bits() == mask_after_ops(Seq::empty()),
            r.generation_count() == 0,
    {
        BakeState { mask: 0, generation: 0 }
    }

    /// Mark a layer for baking. The renderer will cache this layer's contents
    /// to an intermediate texture and reuse it until `invalidate()` is called.
    pub fn bake(&mut self, layer: RenderLayer)
        ensures
            final(self).mask_bits() == old(self).mask_bits() | layer_bit(layer),
            final(self).mask_bits() == mask_after(old(self).mask_bits(), BakeOp::Bake(layer)),
            final(self).generation_count() == next_generation(old(self).generation_count()),
    {
        proof { use_type_invariant(&*self); }
        let shift = layer.as_u8();
        let m = self.mask;
        let new_mask = m | (1u8 << shift);
        assert(new_mask < 64) by (bit_vector)
            requires new_mask == m | (1u8 << shift), m < 64, shift < 6;
        *self = BakeState { mask: new_mask, generation: self.generation.wrapping_add(1) };
    }

    /// Mark a baked layer as dirty, signaling the renderer to re-render
    /// this layer's cached texture on the next frame.
    pub fn invalidate(&mut self, _layer: RenderLayer)
        ensures
            final(self).mask_bits() == old(self).mask_bits(),
            final(self).mask_bits() == mask_after(old(self).mask_bits(), BakeOp::Invalidate(_layer)),
            final(self).generation_count() == next_generation(old(self).generation_count()),
    {
        proof { use_type_invariant(&*self); }
        *self = BakeState { mask: self.mask, generation: self.generation.wrapping_add(1) };
    }

    /// Remove a layer from baking: it will be rendered live every frame.
    pub fn unbake(&mut self, layer: RenderLayer)
        ensures
            final(self).mask_bits() == old(self).mask_bits() & !layer_bit(layer),
            final(self).mask_bits() == mask_after(old(self).mask_bits(), BakeOp::Unbake(layer)),
            final(self).generation_count() == next_generation(old(self).generation_count()),
    {
        proof { use_type_invariant(&*self); }
        let shift = layer.as_u8();
        let m = self.mask;
        let new_mask = m & !(1u8 << shift);
        assert(new_mask < 64) by (bit_vector)
            requires new_mask == m & !(1u8 << shift), m < 64, shift < 6;
        *self = BakeState { mask: new_mask, generation: self.generation.wrapping_add(1) };
    }

    /// Get the baked layers bitmask (bits 0-5 correspond to RenderLayer variants).
    pub fn mask(&self) -> (r: u8)
        ensures
            r == self.mask_bits(),
            r < 64,
    {
        proof { use_type_invariant(self); }
        self.mask
    }

    /// Get the bake generation counter.
    pub fn generation(&self) -> (r: u32)
        ensures
            r == self.generation_count(),
    {
        self.generation
    }

    /// The bake state as the integer word the shared-buffer header carries:
    /// `mask | (generation << 6)`.
    pub fn encode_bits(&self) -> (r: u32)
        ensures
            r == encode_word(self.mask_bits(), self.generation_count()),
    {
        (self.mask as u32) | (self.generation << 6u32)
    }
}

impl Default for BakeState {
    fn default() -> (r: Self)
        ensures
            r.mask_bits() == 0,
            r.generation_count() == 0,
    {
        BakeState::new()
    }
}

/// Baking sets exactly the layer's bit: that layer reads as baked afterwards,
/// and every other layer keeps its state.
pub proof fn lemma_bake_sets_only_its_bit(mask: u8, layer: RenderLayer, other: RenderLayer)
    requires
        mask < 64,
    ensures
        (mask | layer_bit(layer)) & layer_bit(layer) != 0,
        (mask | layer_bit(layer)) < 64,
        other != layer ==> ((mask | layer_bit(layer)) & layer_bit(other)) == (mask & layer_bit(other)),
{
    let a = layer_index(layer);
    let b = layer_index(other);
    assert(a < 6 && b < 6);
    assert(((mask | (1u8 << a)) & (1u8 << a)) != 0) by (bit_vector)
        requires a < 6;
    assert((mask | (1u8 << a)) < 64) by (bit_vector)
        requires mask < 64, a < 6;
    if other != layer {
        assert(a != b);
        assert(((mask | (1u8 << a)) & (1u8 << b)) == (mask & (1u8 << b))) by (bit_vector)
            requires a < 6, b < 6, a != b;
    }
}

/// Unbaking clears exactly the layer's bit: that layer reads as not baked
/// afterwards, and every other layer keeps its state.
pub proof fn lemma_unbake_clears_only_its_bit(mask: u8, layer: RenderLayer, other: RenderLayer)
    requires
        mask < 64,
    ensures
        (mask & !layer_bit(layer)) & layer_bit(layer) == 0,
        other != layer ==> ((mask & !layer_bit(layer)) & layer_bit(other)) == (mask & layer_bit(other)),
{
    let a = layer_index(layer);
    let b = layer_index(other);
    assert(((mask & !(1u8 << a)) & (1u8 << a)) == 0) by (bit_vector)
        requires a < 6;
    if other != layer {
        assert(a != b);
        assert(((mask & !(1u8 << a)) & (1u8 << b)) == (mask & (1u8 << b))) by (bit_vector)
            requires a < 6, b < 6, a != b;
    }
}

/// Unbaking a layer right after baking it leaves the mask as it was when
/// the layer was not baked before.
pub proof fn lemma_unbake_undoes_bake(mask: u8, layer: RenderLayer)
    requires
        mask < 64,
        mask & layer_bit(layer) == 0,
    ensures
        ((mask | layer_bit(layer)) & !layer_bit(layer)) == mask,
{
    let a = layer_index(layer);
    assert(((mask | (1u8 << a)) & !(1u8 << a)) == mask) by (bit_vector)
        requires a < 6, mask & (1u8 << a) == 0;
}

/// The header word decodes back to the mask (low six bits) and, while the
/// generation fits in 26 bits, to the generation (the bits above).
pub proof fn lemma_encode_round_trip(mask: u8, generation: u32)
    requires
        mask < 64,
    ensures
        encode_word(mask, generation) & 0x3Fu32 == mask as u32,
        generation < 0x400_0000 ==> encode_word(mask, generation) >> 6u32 == generation,
{
    let m = mask as u32;
    assert(m < 64);
    assert(((m | (generation << 6u32)) & 0x3Fu32) == m) by (bit_vector)
        requires m < 64;
    if generation < 0x400_0000 {
        assert(((m | (generation << 6u32)) >> 6u32) == generation) by (bit_vector)
            requires m < 64, generation < 0x400_0000;
    }
}

/// History law of baking: starting from a fresh bake state, after any
/// sequence of bake, unbake and invalidate calls only the six layer bits can
/// be set, and a layer's bit is set exactly when the most recent bake or
/// unbake naming that layer was a bake.
pub proof fn lemma_bake_history(ops: Seq<BakeOp>, layer: RenderLayer)
    ensures
        mask_after_ops(ops) < 64,
        mask_after_ops(ops) & 0xC0u8 == 0,
        (mask_after_ops(ops) & layer_bit(layer) != 0) == last_baked(ops, layer),
    decreases ops.len(),
{
    let m = mask_after_ops(ops);
    if ops.len() == 0 {
        assert(m == 0);
        let a = layer_index(layer);
        assert(0u8 & (1u8 << a) == 0) by (bit_vector);
    } else {
        let d = ops.drop_last();
        lemma_bake_history(d, layer);
        let md = mask_after_ops(d);
        match ops.last() {
            BakeOp::Bake(l) => {
                lemma_bake_sets_only_its_bit(md, l, layer);
            },
            BakeOp::Unbake(l) => {
                lemma_unbake_clears_only_its_bit(md, l, layer);
                let a = layer_index(l);
                assert((md & !(1u8 << a)) < 64) by (bit_vector)
                    requires md < 64;
            },
            BakeOp::Invalidate(_) => {},
        }
    }
    assert(m & 0xC0u8 == 0) by (bit_vector)
        requires m < 64;
}

} // verus!
