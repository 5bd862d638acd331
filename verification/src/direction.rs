use crate::level::{in_arena, ARENA_HEIGHT, ARENA_WIDTH};
use vstd::prelude::*;

verus! {

/// One of the four axis directions. `Up` is towards larger `y`.
#[derive(Copy, Clone, PartialEq, Eq, Structural, Debug)]
pub enum Direction {
    Up,
    Down,
    Left,
    Right,
}

impl Direction {
    /// Change of the column by one step in this direction.
    pub open spec fn dx(self) -> int {
        match self {
            Direction::Left => -1,
            Direction::Right => 1,
            _ => 0,
        }
    }

    /// Change of the row by one step in this direction.
    pub open spec fn dy(self) -> int {
        match self {
            Direction::Up => 1,
            Direction::Down => -1,
            _ => 0,
        }
    }

    /// The displacement of length `scale` in this direction.
    pub fn to_velocity(&self, scale: i64) -> (v: (i64, i64))
        requires
            scale > i64::MIN,
        ensures
            v.0 == self.dx() * scale,
            v.1 == self.dy() * scale,
    {
        match self {
            Direction::Up => (0, scale),
            Direction::Down => (0, -scale),
            Direction::Left => (-scale, 0),
            Direction::Right => (scale, 0),
        }
    }

    /// The cell one step from `(x, y)` in this direction, or `None` where that
    /// step leaves the arena.
    pub fn step_from(&self, x: usize, y: usize) -> (r: Option<(usize, usize)>)
        ensures
            match r {
                Some(c) => c.0 == x + self.dx() && c.1 == y + self.dy() && in_arena(
                    c.0 as int,
                    c.1 as int,
                ),
                None => !in_arena(x + self.dx(), y + self.dy()),
            },
    {
        match self {
            Direction::Up => if x < ARENA_WIDTH && y < ARENA_HEIGHT - 1 {
                Some((x, y + 1))
            } else {
                None
            },
            Direction::Down => if x < ARENA_WIDTH && 0 < y && y <= ARENA_HEIGHT {
                Some((x, y - 1))
            } else {
                None
            },
            Direction::Left => if 0 < x && x <= ARENA_WIDTH && y < ARENA_HEIGHT {
                Some((x - 1, y))
            } else {
                None
            },
            Direction::Right => if x < ARENA_WIDTH - 1 && y < ARENA_HEIGHT {
                Some((x + 1, y))
            } else {
                None
            },
        }
    }
}

} // verus!
