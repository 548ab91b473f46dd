pub mod easing;
pub mod spatial;
pub mod transform;
pub mod tween;
