//! Tile classification for gameplay rules.

use vstd::prelude::*;

verus! {

/// What kind of terrain or object a tile is, for gameplay purposes.
#[derive(Debug, Clone, PartialEq)]
pub enum TileType {
    Ground,
    Water,
    Lava,
    Ice,
    Mud,
    Sand,
    Platform,
    Decoration,
    Trigger,
    /// A game-defined kind under its own name.
    Custom(String),
}

} // verus!
