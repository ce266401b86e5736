//! The values a cell can hold.

use vstd::prelude::*;

verus! {

/// A tile of a dungeon. The number picks one of several looks or kinds of the same
/// tile: a wall texture, or a floor that is ice or lava.
#[derive(Clone, Copy, Debug, PartialEq, Eq, Structural, Hash)]
pub enum Tile {
    Wall(usize),
    Floor(usize),
    Void(usize),
}

impl Default for Tile {
    fn default() -> (t: Tile)
        ensures
            t == Tile::Void(0),
    {
        Tile::Void(0)
    }
}

/// Who holds a cell of a territory map.
#[derive(Clone, Copy, Debug, PartialEq, Eq, Structural, Hash)]
pub enum Faction {
    /// The cell belongs to the faction with this number.
    Faction(usize),
    /// Nobody holds the cell yet; a faction next to it may claim it.
    Neutral,
    /// Nobody can ever hold the cell.
    Void,
}

impl Default for Faction {
    fn default() -> (f: Faction)
        ensures
            f == Faction::Neutral,
    {
        Faction::Neutral
    }
}

} // verus!
