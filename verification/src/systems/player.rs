use crate::direction::Direction;
use crate::play::{Input, Outcome, PlayState};
use vstd::prelude::*;

verus! {

/// Decides what a movement request does to the game.
pub struct PlayerSystem;

impl PlayerSystem {
    /// The direction that a tick acts on: of the directions held down, the
    /// last one in the order up, down, left, right in which a step is not barred.
    pub open spec fn choice(state: &PlayState, input: Input) -> Option<Direction> {
        if input.right && !state.blocked(Direction::Right) {
            Some(Direction::Right)
        } else if input.left && !state.blocked(Direction::Left) {
            Some(Direction::Left)
        } else if input.down && !state.blocked(Direction::Down) {
            Some(Direction::Down)
        } else if input.up && !state.blocked(Direction::Up) {
            Some(Direction::Up)
        } else {
            None
        }
    }

    /// Asks for one step of the player in `dir`.
    ///
    /// While an earlier move is still pending the request is ignored. A step
    /// into a wall, or into a box with a wall or another box behind it, is
    /// rejected. In both cases nothing changes. Otherwise the player takes
    /// the step, pushing the box on the target cell one cell ahead, and the
    /// step becomes the pending move.
    pub fn request(&self, state: &mut PlayState, dir: Direction) -> (out: Outcome)
        ensures
            old(state).movable.moving_to is Some ==> out == Outcome::Ignored && *final(state) == *old(
                state,
            ),
            old(state).movable.moving_to is None && old(state).blocked(dir) ==> out
                == Outcome::Rejected && *final(state) == *old(state),
            old(state).movable.moving_to is None && !old(state).blocked(dir) ==> old(state).steps_to(
                dir,
                final(state),
                out,
            ),
            old(state).wf() ==> final(state).wf(),
    {
        if state.movable.moving_to.is_some() {
            return Outcome::Ignored;
        }
        let target = match dir.step_from(state.player.0, state.player.1) {
            None => {
                return Outcome::Rejected;
            },
            Some(t) => t,
        };
        if state.level.is_wall(target.0, target.1) {
            return Outcome::Rejected;
        }
        match state.find_box(target.0, target.1) {
            None => {
                state.player = target;
                state.movable.moving_to = Some((target.0, target.1, dir));
                Outcome::Walked
            },
            Some(i) => {
                let beyond = match dir.step_from(target.0, target.1) {
                    None => {
                        return Outcome::Rejected;
                    },
                    Some(b) => b,
                };
                if state.level.is_wall(beyond.0, beyond.1) || state.find_box(
                    beyond.0,
                    beyond.1,
                ).is_some() {
                    return Outcome::Rejected;
                }
                state.boxes[i] = beyond;
                state.player = target;
                state.movable.moving_to = Some((target.0, target.1, dir));
                Outcome::Pushed(i)
            },
        }
    }

    /// Handles the directions held down during one tick.
    ///
    /// While a move is pending, or when no direction is held, nothing is
    /// evaluated. Otherwise the step chosen by [`PlayerSystem::choice`] is
    /// taken; when every held direction is barred the tick is rejected.
    pub fn run(&self, state: &mut PlayState, input: Input) -> (out: Outcome)
        ensures
            old(state).movable.moving_to is Some ==> out == Outcome::Ignored && *final(state) == *old(
                state,
            ),
            old(state).movable.moving_to is None ==> match Self::choice(old(state), input) {
                Some(dir) => old(state).steps_to(dir, final(state), out),
                None => *final(state) == *old(state) && out == if input.up || input.down
                    || input.left || input.right {
                    Outcome::Rejected
                } else {
                    Outcome::Ignored
                },
            },
            old(state).wf() ==> final(state).wf(),
    {
        if state.movable.moving_to.is_some() {
            return Outcome::Ignored;
        }
        let mut chosen: Option<Direction> = None;
        if input.up && !state.is_blocked(Direction::Up) {
            chosen = Some(Direction::Up);
        }
        if input.down && !state.is_blocked(Direction::Down) {
            chosen = Some(Direction::Down);
        }
        if input.left && !state.is_blocked(Direction::Left) {
            chosen = Some(Direction::Left);
        }
        if input.right && !state.is_blocked(Direction::Right) {
            chosen = Some(Direction::Right);
        }
        match chosen {
            Some(dir) => self.request(state, dir),
            None => if input.up || input.down || input.left || input.right {
                Outcome::Rejected
            } else {
                Outcome::Ignored
            },
        }
    }
}

} // verus!
