pub mod effects;
pub mod render;
pub mod text;
pub mod visibility;
