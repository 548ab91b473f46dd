use vstd::prelude::*;
use crate::systems::effects::segment_color::SegmentColor;

verus! {

/// How the emitter releases particles.
#[derive(Debug, Clone, Copy, PartialEq, Eq, Structural)]
pub enum EmissionMode {
    /// Emit particles continuously at a fixed rate.
    Continuous,
    /// Emit particles in bursts.
    Burst,
}

/// How particle colors are chosen.
#[derive(Debug, Clone)]
pub enum ParticleColorMode {
    /// Pick a random SegmentColor for each particle.
    Random,
    /// All particles use the same color.
    Fixed(SegmentColor),
    /// Pick randomly from a palette of colors.
    Palette(Vec<SegmentColor>),
}

} // verus!
