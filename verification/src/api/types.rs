use vstd::prelude::*;

verus! {

/// Unique identifier for an entity in the scene.
#[derive(Debug, Clone, Copy, PartialEq, Eq, Hash, Structural)]
pub struct EntityId(pub u32);

/// A sound event emitted by the game logic.
/// The numeric value maps to a game-defined sound in the front end's sound manager.
#[derive(Debug, Clone, Copy, PartialEq, Eq, Structural)]
pub struct SoundEvent(pub u32);

} // verus!
