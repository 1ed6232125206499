//! One cell of the maze map.

use vstd::prelude::*;
use crate::walls::Walls;

verus! {

/// Whether the player has stood on a cell.
#[derive(Debug, Clone, Copy, PartialEq, Eq, Structural)]
pub enum CellState {
    NotVisited,
    Visited,
}

/// A cell of the map: what is known of its walls, and whether it was visited.
#[derive(Debug, Clone, Copy, PartialEq, Eq, Structural)]
pub struct Cell {
    pub walls: Walls,
    pub state: CellState,
}

impl Cell {
    /// A cell of which nothing is known.
    pub open spec fn fresh() -> Cell {
        Cell { walls: Walls::unknown(), state: CellState::NotVisited }
    }

    /// A cell of which nothing is known.
    pub fn new() -> (r: Self)
        ensures
            r == Cell::fresh(),
    {
        Self { walls: Walls::default(), state: CellState::NotVisited }
    }
}

} // verus!
