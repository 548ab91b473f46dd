//! Verified core of a data-oriented 2D game engine: render layers, layer
//! baking, the shared-buffer protocol layout, visibility masks, the effects
//! random number generator, and the bookkeeping structures behind scenes,
//! spatial queries, transform hierarchies, tilemaps and render batching.
pub mod api;
pub mod assets;
pub mod bridge;
pub mod components;
pub mod extensions;
pub mod grid_index;
pub mod input;
pub mod id_list;
pub mod renderer;
pub mod scene;
pub mod systems;
