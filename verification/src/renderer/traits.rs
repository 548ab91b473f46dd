//! Data handed to GPU backends: render tier, layer batch descriptors,
//! bake state and draw timings.
use vstd::prelude::*;

verus! {

/// Render tier indicating GPU capabilities.
#[derive(Debug, Clone, Copy, PartialEq, Eq, Structural)]
pub enum RenderTier {
    /// HDR with Extended Dynamic Range (Display-P3, extended tone mapping)
    HdrEdr,
    /// HDR within sRGB gamut (rgba16float but no EDR)
    HdrSrgb,
    /// Standard Dynamic Range (bgra8unorm)
    Sdr,
    /// Software fallback (Canvas 2D / CPU rasterization)
    Software,
}

/// Layer batch descriptor for multi-layer rendering.
/// Mirrors the wire format: 4 floats per batch.
#[derive(Debug, Clone, Copy, Default, PartialEq, Eq, Structural)]
pub struct LayerBatch {
    /// Layer ID (0=Background through 5=UI)
    pub layer_id: u8,
    /// Start index in the instance array
    pub start: u32,
    /// End index (exclusive) in the instance array
    pub end: u32,
    /// Atlas split within this layer's instances
    pub atlas_split: u32,
}

/// Bake state for layer caching.
#[derive(Debug, Clone, Copy, Default, PartialEq, Eq, Structural)]
pub struct BakeState {
    /// Bitmask of baked layers (bits 0-5)
    pub mask: u8,
    /// Generation counter for dirty detection
    pub generation: u32,
}

/// Timing information from a draw call.
#[derive(Debug, Clone, Copy, Default, PartialEq, Eq, Structural)]
pub struct DrawTiming {
    /// Time spent submitting draw calls (microseconds)
    pub draw_us: u32,
    /// Time spent in GPU rasterization (microseconds, if measurable)
    pub raster_us: u32,
}

} // verus!
