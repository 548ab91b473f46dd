//! Asset manifest data: the atlases and named sprites and sounds a game
//! ships with. Parsing the manifest from JSON happens outside this crate;
//! these are the plain values the engine works with.
use vstd::prelude::*;
use std::collections::HashMap;

verus! {

/// Asset manifest describing all atlases and named sprites for a game.
#[derive(Debug, Clone)]
pub struct AssetManifest {
    /// List of texture atlases.
    pub atlases: Vec<AtlasDescriptor>,
    /// Named sprite lookup: name → atlas index + cell coordinates.
    pub sprites: HashMap<String, SpriteDescriptor>,
    /// Optional audio assets.
    pub sounds: HashMap<String, SoundDescriptor>,
}

/// Describes a single texture atlas.
#[derive(Debug, Clone)]
pub struct AtlasDescriptor {
    /// Human-readable name (e.g., "base_tiles").
    pub name: String,
    /// Number of columns in the atlas grid.
    pub cols: u32,
    /// Number of rows in the atlas grid.
    pub rows: u32,
    /// Relative path to the PNG file (e.g., "base_tiles.png").
    pub path: String,
}

/// Describes a named sprite within an atlas.
#[derive(Debug, Clone, Copy, PartialEq, Eq, Structural)]
pub struct SpriteDescriptor {
    /// Index into the atlases array.
    pub atlas: u32,
    /// Column in the atlas grid.
    pub col: u32,
    /// Row in the atlas grid.
    pub row: u32,
    /// Number of cells this sprite spans (default: 1).
    pub span: u32,
}

/// Describes an audio asset.
#[derive(Debug, Clone)]
pub struct SoundDescriptor {
    /// Relative path to the audio file.
    pub path: String,
    /// Numeric event ID that triggers this sound from Rust.
    pub event_id: Option<u32>,
}

/// The span a sprite descriptor gets when the manifest names none.
pub fn default_span() -> (r: u32)
    ensures
        r == 1,
{
    1
}

} // verus!
