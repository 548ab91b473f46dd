use vstd::prelude::*;

verus! {

/// Identifies which texture atlas a sprite belongs to.
/// Index into the asset manifest's atlas list.
#[derive(Debug, Clone, Copy, PartialEq, Eq, Hash, Default, Structural)]
pub struct AtlasId(pub u32);

/// Blend mode for sprite rendering.
#[derive(Debug, Clone, Copy, PartialEq, Eq, Default, Structural)]
pub enum BlendMode {
    /// Standard alpha blending (src-alpha, one-minus-src-alpha).
    #[default]
    Alpha,
    /// Additive blending for HDR glow effects (src-alpha, one).
    Additive,
}

} // verus!
