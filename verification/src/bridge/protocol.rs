//! Shared-buffer layout. Must stay in sync with the front end's protocol.
//!
//! Layout (all values are 4-byte floats on the wire):
//! ```text
//! [Header: 22 floats]
//! [Instances: max_instances × 8 floats]
//! [Effects: max_effects_vertices × 5 floats]
//! [Sounds: max_sounds × 1 float]
//! [Events: max_events × 4 floats]
//! [SDF: max_sdf_instances × 12 floats]
//! [Vectors: max_vector_vertices × 6 floats]
//! [LayerBatches: max_layer_batches × 4 floats]
//! ```
//!
//! Capacities are written once into the header at init; the front end reads
//! them from the header to compute offsets dynamically.
use vstd::prelude::*;

verus! {

/// Number of floats in the header section.
pub const HEADER_FLOATS: usize = 22;

/// Header field indices.
pub const HEADER_LOCK: usize = 0;
pub const HEADER_FRAME_COUNTER: usize = 1;
pub const HEADER_MAX_INSTANCES: usize = 2;
pub const HEADER_INSTANCE_COUNT: usize = 3;
pub const HEADER_ATLAS_SPLIT: usize = 4;
pub const HEADER_MAX_EFFECTS_VERTICES: usize = 5;
pub const HEADER_EFFECTS_VERTEX_COUNT: usize = 6;
pub const HEADER_WORLD_WIDTH: usize = 7;
pub const HEADER_WORLD_HEIGHT: usize = 8;
pub const HEADER_MAX_SOUNDS: usize = 9;
pub const HEADER_SOUND_COUNT: usize = 10;
pub const HEADER_MAX_EVENTS: usize = 11;
pub const HEADER_EVENT_COUNT: usize = 12;
pub const HEADER_PROTOCOL_VERSION: usize = 13;
pub const HEADER_MAX_SDF_INSTANCES: usize = 14;
pub const HEADER_SDF_INSTANCE_COUNT: usize = 15;
pub const HEADER_MAX_VECTOR_VERTICES: usize = 16;
pub const HEADER_VECTOR_VERTEX_COUNT: usize = 17;
pub const HEADER_MAX_LAYER_BATCHES: usize = 18;
pub const HEADER_LAYER_BATCH_COUNT: usize = 19;
pub const HEADER_LAYER_BATCH_OFFSET: usize = 20;
/// Encoded bake state: `baked_layers_mask | (bake_generation << 6)`.
pub const HEADER_BAKE_STATE: usize = 21;

/// Protocol version written into the header (as a float on the wire).
pub const PROTOCOL_VERSION: u32 = 3;

/// Floats per render instance (wire format).
pub const INSTANCE_FLOATS: usize = 8;

/// Floats per effects vertex: x, y, z, u, v (wire format).
pub const EFFECTS_VERTEX_FLOATS: usize = 5;

/// Floats per game event: kind, a, b, c (wire format).
pub const EVENT_FLOATS: usize = 4;

/// Floats per SDF instance: x, y, radius, rotation, r, g, b, shininess, emissive, shape_type, half_height, extra.
pub const SDF_INSTANCE_FLOATS: usize = 12;

/// Floats per vector vertex: x, y, r, g, b, a (wire format).
pub const VECTOR_VERTEX_FLOATS: usize = 6;

/// Floats per layer batch descriptor: layer_id, start, end, atlas_split.
pub const LAYER_BATCH_FLOATS: usize = 4;

/// Floats per point light: x, y, r, g, b, intensity, radius, layer_mask.
pub const LIGHT_FLOATS: usize = 8;

/// Default maximum layer batches (one per RenderLayer).
pub const DEFAULT_MAX_LAYER_BATCHES: usize = 6;

/// Default maximum number of point lights.
pub const DEFAULT_MAX_LIGHTS: usize = 64;

/// Number of floats the whole buffer takes for the given capacities.
pub open spec fn total_floats(
    max_instances: int,
    max_effects_vertices: int,
    max_sounds: int,
    max_events: int,
    max_sdf_instances: int,
    max_vector_vertices: int,
    max_layer_batches: int,
) -> int {
    HEADER_FLOATS + max_instances * 8 + max_effects_vertices * 5 + max_sounds + max_events * 4
        + max_sdf_instances * 12 + max_vector_vertices * 6 + max_layer_batches * 4
}

/// Runtime-computed buffer layout.
#[derive(Debug, Clone, PartialEq, Eq, Structural)]
pub struct ProtocolLayout {
    /// Maximum render instances.
    pub max_instances: usize,
    /// Maximum effects vertices.
    pub max_effects_vertices: usize,
    /// Maximum sound events per frame.
    pub max_sounds: usize,
    /// Maximum game events per frame.
    pub max_events: usize,
    /// Maximum SDF instances.
    pub max_sdf_instances: usize,
    /// Maximum vector vertices.
    pub max_vector_vertices: usize,
    /// Maximum layer batches.
    pub max_layer_batches: usize,
    /// Size of instance data section in floats.
    pub instance_data_floats: usize,
    /// Size of effects data section in floats.
    pub effects_data_floats: usize,
    /// Size of sound data section in floats.
    pub sound_data_floats: usize,
    /// Size of event data section in floats.
    pub event_data_floats: usize,
    /// Size of SDF data section in floats.
    pub sdf_data_floats: usize,
    /// Size of vector data section in floats.
    pub vector_data_floats: usize,
    /// Size of layer batch data section in floats.
    pub layer_batch_data_floats: usize,
    /// Offset (in floats) where instance data begins.
    pub instance_data_offset: usize,
    /// Offset (in floats) where effects data begins.
    pub effects_data_offset: usize,
    /// Offset (in floats) where sound data begins.
    pub sound_data_offset: usize,
    /// Offset (in floats) where event data begins.
    pub event_data_offset: usize,
    /// Offset (in floats) where SDF data begins.
    pub sdf_data_offset: usize,
    /// Offset (in floats) where vector data begins.
    pub vector_data_offset: usize,
    /// Offset (in floats) where layer batch data begins.
    pub layer_batch_data_offset: usize,
    /// Total buffer size in floats.
    pub buffer_total_floats: usize,
    /// Total buffer size in bytes.
    pub buffer_total_bytes: usize,
}

impl ProtocolLayout {
    /// Sections follow the header in a fixed order, each starting where the
    /// previous one ends, and the buffer ends where the last section ends.
    pub open spec fn sections_contiguous(&self) -> bool {
        &&& self.instance_data_offset == HEADER_FLOATS
        &&& self.effects_data_offset == self.instance_data_offset + self.instance_data_floats
        &&& self.sound_data_offset == self.effects_data_offset + self.effects_data_floats
        &&& self.event_data_offset == self.sound_data_offset + self.sound_data_floats
        &&& self.sdf_data_offset == self.event_data_offset + self.event_data_floats
        &&& self.vector_data_offset == self.sdf_data_offset + self.sdf_data_floats
        &&& self.layer_batch_data_offset == self.vector_data_offset + self.vector_data_floats
        &&& self.buffer_total_floats == self.layer_batch_data_offset + self.layer_batch_data_floats
        &&& self.buffer_total_bytes == self.buffer_total_floats * 4
    }

    /// Each section is its capacity times the wire size of one record.
    pub open spec fn sections_sized(&self) -> bool {
        &&& self.instance_data_floats == self.max_instances * INSTANCE_FLOATS
        &&& self.effects_data_floats == self.max_effects_vertices * EFFECTS_VERTEX_FLOATS
        &&& self.sound_data_floats == self.max_sounds
        &&& self.event_data_floats == self.max_events * EVENT_FLOATS
        &&& self.sdf_data_floats == self.max_sdf_instances * SDF_INSTANCE_FLOATS
        &&& self.vector_data_floats == self.max_vector_vertices * VECTOR_VERTEX_FLOATS
        &&& self.layer_batch_data_floats == self.max_layer_batches * LAYER_BATCH_FLOATS
    }

    /// Compute layout from raw capacity values.
    pub fn new(
        max_instances: usize,
        max_effects_vertices: usize,
        max_sounds: usize,
        max_events: usize,
        max_sdf_instances: usize,
        max_vector_vertices: usize,
        max_layer_batches: usize,
    ) -> (r: Self)
        requires
            total_floats(
                max_instances as int,
                max_effects_vertices as int,
                max_sounds as int,
                max_events as int,
                max_sdf_instances as int,
                max_vector_vertices as int,
                max_layer_batches as int,
            ) * 4 <= usize::MAX,
        ensures
            r.max_instances == max_instances,
            r.max_effects_vertices == max_effects_vertices,
            r.max_sounds == max_sounds,
            r.max_events == max_events,
            r.max_sdf_instances == max_sdf_instances,
            r.max_vector_vertices == max_vector_vertices,
            r.max_layer_batches == max_layer_batches,
            r.sections_sized(),
            r.sections_contiguous(),
            r.buffer_total_floats == total_floats(
                max_instances as int,
                max_effects_vertices as int,
                max_sounds as int,
                max_events as int,
                max_sdf_instances as int,
                max_vector_vertices as int,
                max_layer_batches as int,
            ),
    {
        let instance_data_floats = max_instances * INSTANCE_FLOATS;
        let effects_data_floats = max_effects_vertices * EFFECTS_VERTEX_FLOATS;
        let sound_data_floats = max_sounds;
        let event_data_floats = max_events * EVENT_FLOATS;
        let sdf_data_floats = max_sdf_instances * SDF_INSTANCE_FLOATS;
        let vector_data_floats = max_vector_vertices * VECTOR_VERTEX_FLOATS;
        let layer_batch_data_floats = max_layer_batches * LAYER_BATCH_FLOATS;

        let instance_data_offset = HEADER_FLOATS;
        let effects_data_offset = instance_data_offset + instance_data_floats;
        let sound_data_offset = effects_data_offset + effects_data_floats;
        let event_data_offset = sound_data_offset + sound_data_floats;
        let sdf_data_offset = event_data_offset + event_data_floats;
        let vector_data_offset = sdf_data_offset + sdf_data_floats;
        let layer_batch_data_offset = vector_data_offset + vector_data_floats;

        let buffer_total_floats = layer_batch_data_offset + layer_batch_data_floats;
        let buffer_total_bytes = buffer_total_floats * 4;

        ProtocolLayout {
            max_instances,
            max_effects_vertices,
            max_sounds,
            max_events,
            max_sdf_instances,
            max_vector_vertices,
            max_layer_batches,
            instance_data_floats,
            effects_data_floats,
            sound_data_floats,
            event_data_floats,
            sdf_data_floats,
            vector_data_floats,
            layer_batch_data_floats,
            instance_data_offset,
            effects_data_offset,
            sound_data_offset,
            event_data_offset,
            sdf_data_offset,
            vector_data_offset,
            layer_batch_data_offset,
            buffer_total_floats,
            buffer_total_bytes,
        }
    }
}

/// In a well-formed layout the sections do not overlap: every section lies
/// after the header, below the next section's offset and inside the buffer.
pub proof fn lemma_sections_disjoint(l: ProtocolLayout)
    requires
        l.sections_contiguous(),
    ensures
        HEADER_FLOATS <= l.instance_data_offset <= l.effects_data_offset <= l.sound_data_offset
            <= l.event_data_offset <= l.sdf_data_offset <= l.vector_data_offset
            <= l.layer_batch_data_offset <= l.buffer_total_floats,
        l.layer_batch_data_offset + l.layer_batch_data_floats == l.buffer_total_floats,
{
}

} // verus!
