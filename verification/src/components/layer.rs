use vstd::prelude::*;

verus! {

/// Render layer: controls draw order for entities.
///
/// Layers are drawn back-to-front: `Background` first, `UI` last.
/// Within a layer, entities are grouped by atlas for batched rendering.
/// The default layer is `Objects`.
#[derive(Debug, Clone, Copy, PartialEq, Eq, PartialOrd, Ord, Hash, Default, Structural)]
pub enum RenderLayer {
    Background,
    Terrain,
    #[default]
    Objects,
    Foreground,
    VFX,
    UI,
}

/// Wire number of a layer (its position in back-to-front order).
pub open spec fn layer_index(layer: RenderLayer) -> u8 {
    match layer {
        RenderLayer::Background => 0,
        RenderLayer::Terrain => 1,
        RenderLayer::Objects => 2,
        RenderLayer::Foreground => 3,
        RenderLayer::VFX => 4,
        RenderLayer::UI => 5,
    }
}

/// Layer with the given wire number, if there is one.
pub open spec fn layer_of_index(value: u8) -> Option<RenderLayer> {
    if value == 0 {
        Some(RenderLayer::Background)
    } else if value == 1 {
        Some(RenderLayer::Terrain)
    } else if value == 2 {
        Some(RenderLayer::Objects)
    } else if value == 3 {
        Some(RenderLayer::Foreground)
    } else if value == 4 {
        Some(RenderLayer::VFX)
    } else if value == 5 {
        Some(RenderLayer::UI)
    } else {
        None
    }
}

impl RenderLayer {
    /// Total number of render layers.
    pub const COUNT: usize = 6;

    /// Convert from a u8 value to a RenderLayer.
    /// Returns None if the value is out of range.
    pub fn from_u8(value: u8) -> (r: Option<RenderLayer>)
        ensures
            r == layer_of_index(value),
            r is Some <==> value < 6,
            r matches Some(l) ==> layer_index(l) == value,
    {
        match value {
            0 => Some(RenderLayer::Background),
            1 => Some(RenderLayer::Terrain),
            2 => Some(RenderLayer::Objects),
            3 => Some(RenderLayer::Foreground),
            4 => Some(RenderLayer::VFX),
            5 => Some(RenderLayer::UI),
            _ => None,
        }
    }

    /// Convert to u8 for protocol serialization.
    pub fn as_u8(self) -> (r: u8)
        ensures
            r == layer_index(self),
            r < 6,
    {
        match self {
            RenderLayer::Background => 0,
            RenderLayer::Terrain => 1,
            RenderLayer::Objects => 2,
            RenderLayer::Foreground => 3,
            RenderLayer::VFX => 4,
            RenderLayer::UI => 5,
        }
    }
}

/// Every layer survives a trip through its wire number.
pub proof fn lemma_layer_round_trip(layer: RenderLayer)
    ensures
        layer_index(layer) < 6,
        layer_of_index(layer_index(layer)) == Some(layer),
{
}

/// Every in-range wire number survives a trip through its layer, and the
/// wire numbers of distinct layers are distinct.
pub proof fn lemma_index_round_trip(value: u8, a: RenderLayer, b: RenderLayer)
    ensures
        value < 6 ==> (layer_of_index(value) matches Some(l) && layer_index(l) == value),
        value >= 6 ==> layer_of_index(value) is None,
        layer_index(a) == layer_index(b) ==> a == b,
{
}

} // verus!
