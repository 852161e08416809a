use vstd::prelude::*;

verus! {

/// One cell of the map: whether it stops movement and whether it stops sight.
#[derive(Clone, Copy, Debug, PartialEq, Eq, Structural)]
pub struct Tile {
    pub blocked: bool,
    pub block_sight: bool,
}

impl Tile {
    /// The floor preset: passable and transparent.
    pub open spec fn spec_empty() -> Tile {
        Tile { blocked: false, block_sight: false }
    }

    /// The wall preset: blocks movement and sight.
    pub open spec fn spec_wall() -> Tile {
        Tile { blocked: true, block_sight: true }
    }

    pub fn empty() -> (t: Tile)
        ensures
            t == Tile::spec_empty(),
    {
        Tile { blocked: false, block_sight: false }
    }

    pub fn wall() -> (t: Tile)
        ensures
            t == Tile::spec_wall(),
    {
        Tile { blocked: true, block_sight: true }
    }
}

} // verus!
