//! Reading a level from its text.

use crate::level::{in_arena, Level, LevelError, ARENA_CELLS, ARENA_HEIGHT, ARENA_WIDTH};
use crate::tally::lemma_tally_agree;
use crate::text::{
    cells_given, count_of, gives, height, lemma_cells_counted, lemma_player_placed, measure, place,
    tile_from, well_formed, width,
};
use crate::tile::Tile;
use vstd::prelude::*;

verus! {

impl Level {
    /// This level is the text `s` laid out on the arena: every cell holds
    /// the tile that the text puts there.
    pub open spec fn shows(&self, s: Seq<char>) -> bool {
        forall|x: int, y: int| in_arena(x, y) ==> #[trigger] self.tile(x, y) == tile_from(s, x, y)
    }

    /// Reads a level from its text.
    ///
    /// Rows are separated by line breaks. `#` is a wall, `.` a goal, `$` a
    /// box, `@` the player, `+` a box on a goal; a blank and every other
    /// character leave their cell empty. The text is centred in the arena.
    /// A text without a player, or one that is wider or higher than the
    /// arena, is malformed.
    pub fn parse(source: &str) -> (r: Result<Level, LevelError>)
        ensures
            match r {
                Ok(level) => well_formed(source@) && level.shows(source@) && level.has_player(),
                Err(e) => e == LevelError::MalformedLevel && !well_formed(source@),
            },
    {
        let extent = match measure(source) {
            None => {
                return Err(LevelError::MalformedLevel);
            },
            Some(e) => e,
        };
        if !extent.player {
            return Err(LevelError::MalformedLevel);
        }
        let tiles = place(source, extent);
        let level = Level::from_tiles(tiles);
        proof {
            assert forall|x: int, y: int| in_arena(x, y) implies #[trigger] level.tile(x, y)
                == tile_from(source@, x, y) by {
                assert(tiles[y][x] == tile_from(source@, x, y));
            }
            lemma_player_placed(source@);
            let (x, y) = choose|x: int, y: int|
                0 <= x < ARENA_WIDTH && 0 <= y < ARENA_HEIGHT && #[trigger] tile_from(source@, x, y)
                    == Tile::Player;
            assert(in_arena(x, y) && level.tile(x, y) == Tile::Player);
        }
        Ok(level)
    }

    /// A level read from a text holds as many boxes as the text holds
    /// characters `$` and `+`, and as many goals as it holds characters `.`
    /// and `+`.
    pub proof fn lemma_round_trip_counts(&self, s: Seq<char>)
        requires
            width(s) <= ARENA_WIDTH,
            height(s) <= ARENA_HEIGHT,
            self.shows(s),
        ensures
            self.box_cells().len() == count_of(s, '$') + count_of(s, '+'),
            self.goal_cells().len() == count_of(s, '.') + count_of(s, '+'),
    {
        lemma_cells_counted(s);
        self.lemma_shown_counts(s, Tile::Box, Tile::BoxInGoal);
        self.lemma_shown_counts(s, Tile::Goal, Tile::BoxInGoal);
    }

    /// A level holds as many cells with a tile `a` or `b` as the text it
    /// shows gives such a tile.
    proof fn lemma_shown_counts(&self, s: Seq<char>, a: Tile, b: Tile)
        requires
            self.shows(s),
        ensures
            self.cells_holding(a, b, ARENA_CELLS as int).len() == cells_given(s, a, b),
    {
        self.lemma_cells_holding(a, b, ARENA_CELLS as int);
        assert forall|k: int| 0 <= k < ARENA_CELLS implies #[trigger] self.holding(a, b)(k) == gives(
            s,
            a,
            b,
        )(k) by {
            assert(in_arena(Self::column_of(k), Self::row_of(k)));
        }
        lemma_tally_agree(self.holding(a, b), gives(s, a, b), ARENA_CELLS as int);
    }
}

} // verus!
