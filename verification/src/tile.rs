//! What one cell of the board holds.

use vstd::prelude::*;

verus! {

/// The content of a cell. A `Dot` turns `Empty` when the player eats it;
/// `Wall` and `Empty` stay what they are for the whole session.
#[derive(Clone, Copy, PartialEq, Eq, Debug, Structural)]
pub enum TileType {
    Empty,
    Wall,
    Dot,
}

} // verus!
