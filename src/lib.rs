//! Level generation and field of view for a grid-based dungeon crawler: tiles,
//! rooms, tunnels, a connected generated level, what an observer sees from a
//! cell, and how an object moves over the map.
use vstd::prelude::*;

pub mod tile;
pub mod rect;
pub mod grid;
pub mod random;
pub mod dungeon;
pub mod reach;
pub mod fov;
pub mod object;

verus! {

} // verus!
