//! The four walls of a map cell, in absolute orientation.

use vstd::prelude::*;
use crate::direction::Direction;
use crate::radarview::Wall;

verus! {

/// What is known of the four edges of a cell.
#[derive(Debug, Clone, Copy, PartialEq, Eq, Structural)]
pub struct Walls {
    pub north: Wall,
    pub east: Wall,
    pub south: Wall,
    pub west: Wall,
}

impl Walls {
    /// Four edges of which nothing is known.
    pub open spec fn unknown() -> Walls {
        Walls {
            north: Wall::Undefined,
            east: Wall::Undefined,
            south: Wall::Undefined,
            west: Wall::Undefined,
        }
    }

    /// The edge on the given side.
    pub open spec fn side(self, d: Direction) -> Wall {
        match d {
            Direction::North => self.north,
            Direction::East => self.east,
            Direction::South => self.south,
            Direction::West => self.west,
        }
    }

    /// The walls of a cell seen by an observer facing `d`, given the edge in
    /// front of the cell, the one to its right, the one behind and the one
    /// to its left.
    pub open spec fn oriented(d: Direction, front: Wall, right: Wall, back: Wall, left: Wall) -> Walls {
        match d {
            Direction::North => Walls { north: front, east: right, south: back, west: left },
            Direction::East => Walls { north: left, east: front, south: right, west: back },
            Direction::South => Walls { north: back, east: left, south: front, west: right },
            Direction::West => Walls { north: right, east: back, south: left, west: front },
        }
    }

    /// The edge on the given side.
    pub fn get(&self, d: Direction) -> (r: Wall)
        ensures
            r == self.side(d),
    {
        match d {
            Direction::North => self.north,
            Direction::East => self.east,
            Direction::South => self.south,
            Direction::West => self.west,
        }
    }

    /// Turns observer-relative edges into absolute walls.
    pub fn from_relative(d: Direction, front: Wall, right: Wall, back: Wall, left: Wall) -> (r: Walls)
        ensures
            r == Walls::oriented(d, front, right, back, left),
    {
        match d {
            Direction::North => Walls { north: front, east: right, south: back, west: left },
            Direction::East => Walls { north: left, east: front, south: right, west: back },
            Direction::South => Walls { north: back, east: left, south: front, west: right },
            Direction::West => Walls { north: right, east: back, south: left, west: front },
        }
    }
}

impl Default for Walls {
    fn default() -> (r: Self)
        ensures
            r == Walls::unknown(),
    {
        Walls {
            north: Wall::Undefined,
            east: Wall::Undefined,
            south: Wall::Undefined,
            west: Wall::Undefined,
        }
    }
}

} // verus!
