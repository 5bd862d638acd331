use crate::direction::Direction;
use crate::level::{Level, LevelError, ARENA_CELLS};
use crate::tile::Tile;
use vstd::prelude::*;

verus! {

/// The move that an actor is still carrying out: the cell it is heading for
/// and the direction it travels in. `None` while the actor rests on its cell.
#[derive(Copy, Clone, PartialEq, Eq, Debug)]
pub struct Movable {
    pub moving_to: Option<(usize, usize, Direction)>,
}

/// The directions that are held down during one tick.
#[derive(Copy, Clone, Debug)]
pub struct Input {
    pub up: bool,
    pub down: bool,
    pub left: bool,
    pub right: bool,
}

/// What became of a movement request.
#[derive(Copy, Clone, PartialEq, Eq, Structural, Debug)]
pub enum Outcome {
    /// Nothing was evaluated: the player is still moving, or no direction was asked for.
    Ignored,
    /// A wall or a box that cannot be pushed is in the way.
    Rejected,
    /// The player stepped onto a free cell.
    Walked,
    /// The player stepped forward and pushed the box of this index ahead.
    Pushed(usize),
}

/// The state of a game in progress: the level's geometry, the cells of the
/// player and of the boxes, and the player's pending move.
pub struct PlayState {
    pub level: Level,
    pub player: (usize, usize),
    pub boxes: Vec<(usize, usize)>,
    pub movable: Movable,
}

impl PlayState {
    /// Whether some box stands on `(x, y)`.
    pub open spec fn box_at(&self, x: int, y: int) -> bool {
        exists|i: int|
            0 <= i < self.boxes@.len() && (#[trigger] self.boxes@[i]).0 == x && self.boxes@[i].1 == y
    }

    /// Index of the first box on `(x, y)`.
    pub open spec fn is_first_box_at(&self, i: int, x: int, y: int) -> bool {
        &&& 0 <= i < self.boxes@.len()
        &&& self.boxes@[i].0 == x && self.boxes@[i].1 == y
        &&& forall|j: int| 0 <= j < i ==> !((#[trigger] self.boxes@[j]).0 == x && self.boxes@[j].1 == y)
    }

    /// The cell that the player would step onto.
    pub open spec fn target(&self, dir: Direction) -> (int, int) {
        (self.player.0 + dir.dx(), self.player.1 + dir.dy())
    }

    /// The cell behind the target, where a pushed box would come to stand.
    pub open spec fn beyond(&self, dir: Direction) -> (int, int) {
        (self.player.0 + 2 * dir.dx(), self.player.1 + 2 * dir.dy())
    }

    /// A step in `dir` is barred: the target is a wall, or it holds a box
    /// that has a wall or another box behind it.
    pub open spec fn blocked(&self, dir: Direction) -> bool {
        let t = self.target(dir);
        let b = self.beyond(dir);
        self.level.wall(t.0, t.1) || (self.box_at(t.0, t.1) && (self.level.wall(b.0, b.1)
            || self.box_at(b.0, b.1)))
    }

    /// The player and the boxes stand on cells of the arena that are no
    /// walls, and no two of them share a cell.
    pub open spec fn wf(&self) -> bool {
        &&& !self.level.wall(self.player.0 as int, self.player.1 as int)
        &&& forall|i: int|
            0 <= i < self.boxes@.len() ==> !self.level.wall(
                (#[trigger] self.boxes@[i]).0 as int,
                self.boxes@[i].1 as int,
            )
        &&& forall|i: int| 0 <= i < self.boxes@.len() ==> #[trigger] self.boxes@[i] != self.player
        &&& forall|i: int, j: int|
            0 <= i < j < self.boxes@.len() ==> #[trigger] self.boxes@[i] != #[trigger] self.boxes@[j]
    }

    /// `next` is this state after an accepted step in `dir` that was
    /// reported as `out`: the player stands on the target and heads for it,
    /// and a box that stood there has moved one cell on.
    pub open spec fn steps_to(&self, dir: Direction, next: &PlayState, out: Outcome) -> bool {
        let t = self.target(dir);
        let b = self.beyond(dir);
        &&& next.level == self.level
        &&& next.player == (t.0 as usize, t.1 as usize)
        &&& next.movable.moving_to == Some((t.0 as usize, t.1 as usize, dir))
        &&& if self.box_at(t.0, t.1) {
            &&& out matches Outcome::Pushed(i)
            &&& self.is_first_box_at(i as int, t.0, t.1)
            &&& next.boxes@ == self.boxes@.update(i as int, (b.0 as usize, b.1 as usize))
        } else {
            &&& out == Outcome::Walked
            &&& next.boxes@ == self.boxes@
        }
    }

    /// The state in which a game on `level` begins: the player and the
    /// boxes stand where the level puts them, and no move is pending.
    pub fn new(level: Level) -> (r: Result<PlayState, LevelError>)
        ensures
            match r {
                Ok(state) => {
                    &&& state.level == level
                    &&& level.is_player_pos(state.player.0 as int, state.player.1 as int)
                    &&& state.boxes@ == level.box_cells()
                    &&& state.movable.moving_to is None
                    &&& state.wf()
                },
                Err(e) => e == LevelError::NoPlayer && !level.has_player(),
            },
    {
        let player = match level.player_pos() {
            Err(e) => {
                return Err(e);
            },
            Ok(p) => p,
        };
        let boxes = level.boxes_pos();
        proof {
            level.lemma_cells_holding(Tile::Box, Tile::BoxInGoal, ARENA_CELLS as int);
            assert forall|i: int, j: int| 0 <= i < j < boxes@.len() implies #[trigger] boxes@[i]
                != #[trigger] boxes@[j] by {
                let c = boxes@[i];
                let d = boxes@[j];
                assert(Level::place_of(c.0 as int, c.1 as int) < Level::place_of(
                    d.0 as int,
                    d.1 as int,
                ));
            }
        }
        Ok(PlayState { level, player, boxes, movable: Movable { moving_to: None } })
    }

    /// Index of the first box on `(x, y)`, if there is one.
    pub fn find_box(&self, x: usize, y: usize) -> (r: Option<usize>)
        ensures
            match r {
                Some(i) => self.is_first_box_at(i as int, x as int, y as int),
                None => !self.box_at(x as int, y as int),
            },
    {
        let mut i: usize = 0;
        while i < self.boxes.len()
            invariant
                i <= self.boxes@.len(),
                forall|j: int| 0 <= j < i ==> !((#[trigger] self.boxes@[j]).0 == x && self.boxes@[j].1 == y),
            decreases self.boxes@.len() - i,
        {
            let b = self.boxes[i];
            if b.0 == x && b.1 == y {
                return Some(i);
            }
            i += 1;
        }
        None
    }

    /// Whether a step in `dir` is barred.
    pub fn is_blocked(&self, dir: Direction) -> (b: bool)
        ensures
            b == self.blocked(dir),
    {
        match dir.step_from(self.player.0, self.player.1) {
            None => true,
            Some(t) => {
                if self.level.is_wall(t.0, t.1) {
                    true
                } else if self.find_box(t.0, t.1).is_some() {
                    match dir.step_from(t.0, t.1) {
                        None => true,
                        Some(b) => self.level.is_wall(b.0, b.1) || self.find_box(b.0, b.1).is_some(),
                    }
                } else {
                    false
                }
            },
        }
    }
}

} // verus!
