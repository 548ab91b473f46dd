pub mod emitter;
pub mod layer;
pub mod sprite;
pub mod tilemap;
pub mod animation;
