pub mod geometry;
pub mod rng;
pub mod segment_color;
