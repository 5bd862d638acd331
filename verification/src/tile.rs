use vstd::prelude::*;

verus! {

/// What a cell of the level grid holds when the level is loaded.
#[derive(Copy, Clone, PartialEq, Eq, Structural, Debug)]
pub enum Tile {
    Empty,
    Wall,
    Player,
    Box,
    Goal,
    BoxInGoal,
}

impl Tile {
    /// The tile that a character of the level text stands for. Every
    /// character outside the six-character alphabet leaves its cell empty.
    pub open spec fn of_char(c: char) -> Tile {
        if c == '#' {
            Tile::Wall
        } else if c == '.' {
            Tile::Goal
        } else if c == '$' {
            Tile::Box
        } else if c == '@' {
            Tile::Player
        } else if c == '+' {
            Tile::BoxInGoal
        } else {
            Tile::Empty
        }
    }

    /// Reads one character of the level text.
    pub fn from_char(c: char) -> (t: Tile)
        ensures
            t == Tile::of_char(c),
    {
        match c {
            '#' => Tile::Wall,
            '.' => Tile::Goal,
            '$' => Tile::Box,
            '@' => Tile::Player,
            '+' => Tile::BoxInGoal,
            _ => Tile::Empty,
        }
    }
}

} // verus!
