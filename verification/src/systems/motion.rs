use crate::direction::Direction;
use crate::play::Movable;
use vstd::prelude::*;

verus! {

/// Length of the side of a cell, in position units. A position unit is a
/// thousandth of a world unit, and a cell measures sixteen world units.
pub const TILE_SIZE: i64 = 16_000;

/// Speed of a moving actor, in position units per millisecond.
pub const SPEED: i64 = 48;

/// Carries pending moves forward in time.
pub struct MoveSystem;

impl MoveSystem {
    /// The position of the cell `(x, y)`.
    pub open spec fn position_of(x: int, y: int) -> (int, int) {
        (x * TILE_SIZE, y * TILE_SIZE)
    }

    /// Where an actor at `from` stands after travelling in `dir` for
    /// `elapsed_ms` milliseconds, if nothing stops it.
    pub open spec fn advanced(from: (int, int), dir: Direction, elapsed_ms: int) -> (int, int) {
        match dir {
            Direction::Up => (from.0, from.1 + SPEED * elapsed_ms),
            Direction::Down => (from.0, from.1 - SPEED * elapsed_ms),
            Direction::Left => (from.0 - SPEED * elapsed_ms, from.1),
            Direction::Right => (from.0 + SPEED * elapsed_ms, from.1),
        }
    }

    /// How far an actor at `from` that travels in `dir` is from `goal`,
    /// measured along `dir`. Negative once the actor has passed the goal.
    pub open spec fn remaining(dir: Direction, from: (int, int), goal: (int, int)) -> int {
        match dir {
            Direction::Up => goal.1 - from.1,
            Direction::Down => from.1 - goal.1,
            Direction::Left => from.0 - goal.0,
            Direction::Right => goal.0 - from.0,
        }
    }

    /// An actor travelling in `dir` that stands at `at` has reached `goal`
    /// or passed it.
    pub open spec fn reached(dir: Direction, at: (int, int), goal: (int, int)) -> bool {
        match dir {
            Direction::Up => at.1 >= goal.1,
            Direction::Down => at.1 <= goal.1,
            Direction::Left => at.0 <= goal.0,
            Direction::Right => at.0 >= goal.0,
        }
    }

    /// The position `at` with the coordinate along `dir` set to that of `goal`.
    pub open spec fn snapped(dir: Direction, at: (int, int), goal: (int, int)) -> (int, int) {
        match dir {
            Direction::Up | Direction::Down => (at.0, goal.1),
            Direction::Left | Direction::Right => (goal.0, at.1),
        }
    }

    /// The step fits the machine's integers: the target's position and every
    /// position within reach of `position` in `elapsed_ms` milliseconds.
    pub open spec fn fits(movable: &Movable, position: (i64, i64), elapsed_ms: u32) -> bool {
        movable.moving_to matches Some(m) ==> {
            &&& m.0 * TILE_SIZE <= i64::MAX
            &&& m.1 * TILE_SIZE <= i64::MAX
            &&& i64::MIN <= position.0 - SPEED * elapsed_ms
            &&& position.0 + SPEED * elapsed_ms <= i64::MAX
            &&& i64::MIN <= position.1 - SPEED * elapsed_ms
            &&& position.1 + SPEED * elapsed_ms <= i64::MAX
        }
    }

    /// Moves an actor for `elapsed_ms` milliseconds.
    ///
    /// An actor without a pending move stays where it is. Otherwise it
    /// travels in the direction of its move; once it has reached or passed
    /// the target along that direction it is set exactly onto the target's
    /// coordinate and the move is over.
    pub fn run(&self, movable: &mut Movable, position: &mut (i64, i64), elapsed_ms: u32)
        requires
            Self::fits(old(movable), *old(position), elapsed_ms),
        ensures
            match old(movable).moving_to {
                None => *final(movable) == *old(movable) && *final(position) == *old(position),
                Some(m) => {
                    let at = Self::advanced(
                        (old(position).0 as int, old(position).1 as int),
                        m.2,
                        elapsed_ms as int,
                    );
                    let goal = Self::position_of(m.0 as int, m.1 as int);
                    if Self::reached(m.2, at, goal) {
                        &&& final(movable).moving_to is None
                        &&& (final(position).0 as int, final(position).1 as int) == Self::snapped(
                            m.2,
                            at,
                            goal,
                        )
                    } else {
                        &&& *final(movable) == *old(movable)
                        &&& (final(position).0 as int, final(position).1 as int) == at
                    }
                },
            },
    {
        let (tx, ty, dir) = match movable.moving_to {
            None => {
                return ;
            },
            Some(m) => m,
        };
        let distance: i64 = SPEED * (elapsed_ms as i64);
        let velocity = dir.to_velocity(distance);
        assert(velocity.0 == 0 || velocity.0 == distance || velocity.0 == -distance);
        assert(velocity.1 == 0 || velocity.1 == distance || velocity.1 == -distance);
        let goal: (i64, i64) = ((tx as i64) * TILE_SIZE, (ty as i64) * TILE_SIZE);
        position.0 = position.0 + velocity.0;
        position.1 = position.1 + velocity.1;
        match dir {
            Direction::Up => {
                if position.1 >= goal.1 {
                    position.1 = goal.1;
                    movable.moving_to = None;
                }
            },
            Direction::Down => {
                if position.1 <= goal.1 {
                    position.1 = goal.1;
                    movable.moving_to = None;
                }
            },
            Direction::Left => {
                if position.0 <= goal.0 {
                    position.0 = goal.0;
                    movable.moving_to = None;
                }
            },
            Direction::Right => {
                if position.0 >= goal.0 {
                    position.0 = goal.0;
                    movable.moving_to = None;
                }
            },
        }
    }

    /// A move always ends: time brings the actor nearer to its target by
    /// the distance travelled, and the actor has arrived exactly when that
    /// distance covers what was left.
    pub proof fn lemma_move_ends(dir: Direction, from: (int, int), goal: (int, int), elapsed_ms: int)
        ensures
            Self::remaining(dir, Self::advanced(from, dir, elapsed_ms), goal) == Self::remaining(
                dir,
                from,
                goal,
            ) - SPEED * elapsed_ms,
            Self::reached(dir, Self::advanced(from, dir, elapsed_ms), goal) <==> Self::remaining(
                dir,
                from,
                goal,
            ) <= SPEED * elapsed_ms,
    {
    }
}

} // verus!
