//! Logic core of a grid-based box-pushing puzzle: the level grid and its
//! textual format, the reachable-floor analysis and the decorative tile
//! classifier built on it, and the rules by which the player walks and pushes
//! boxes. Every function is verified against the contract it carries.

pub mod direction;
pub mod ground;
pub mod level;
pub mod parse;
pub mod play;
pub mod reach;
pub mod systems;
pub mod tally;
pub mod text;
pub mod tile;

pub use level::{Level, LevelError, ARENA_CELLS, ARENA_HEIGHT, ARENA_WIDTH};
pub use direction::Direction;
pub use play::{Input, Movable, Outcome, PlayState};
pub use systems::motion::{MoveSystem, SPEED, TILE_SIZE};
pub use systems::player::PlayerSystem;
pub use tile::Tile;
