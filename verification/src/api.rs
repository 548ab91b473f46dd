pub mod game;
pub mod types;
