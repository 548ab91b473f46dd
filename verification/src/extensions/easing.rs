use vstd::prelude::*;

verus! {

/// Easing curve used to shape an animation's progress.
#[derive(Debug, Clone, Copy, PartialEq, Eq, Default, Structural)]
pub enum Easing {
    /// Constant velocity (no easing).
    #[default]
    Linear,
    /// Slow start.
    QuadIn,
    /// Slow end.
    QuadOut,
    /// Slow start and end.
    QuadInOut,
    /// Stronger slow start.
    CubicIn,
    /// Stronger slow end.
    CubicOut,
    /// Stronger slow start and end.
    CubicInOut,
    /// Very strong slow start.
    QuartIn,
    /// Very strong slow end.
    QuartOut,
    /// Very strong slow start and end.
    QuartInOut,
    /// Sine wave easing (smooth).
    SineIn,
    SineOut,
    SineInOut,
    /// Exponential easing (dramatic).
    ExpoIn,
    ExpoOut,
    ExpoInOut,
    /// Overshoot then settle.
    BackIn,
    BackOut,
    BackInOut,
    /// Bouncy finish.
    BounceOut,
    /// Elastic spring.
    ElasticOut,
}

} // verus!
