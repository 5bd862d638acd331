use crate::tally::tally;
use crate::tile::Tile;
use vstd::prelude::*;

verus! {

/// Number of columns of the arena that every level is centred in.
pub const ARENA_WIDTH: usize = 20;

/// Number of rows of the arena.
pub const ARENA_HEIGHT: usize = 16;

/// Number of cells of the arena.
pub const ARENA_CELLS: usize = 320;

/// Why a level cannot be loaded or used.
#[derive(Copy, Clone, PartialEq, Eq, Structural, Debug)]
pub enum LevelError {
    /// The text holds no player, or its rows or columns do not fit the arena.
    MalformedLevel,
    /// The grid holds no player tile.
    NoPlayer,
}

/// Whether `(x, y)` names a cell of the arena.
pub open spec fn in_arena(x: int, y: int) -> bool {
    0 <= x < ARENA_WIDTH && 0 <= y < ARENA_HEIGHT
}

/// The static grid of a level: one tile per arena cell, row by row.
pub struct Level {
    tiles: [[Tile; ARENA_WIDTH]; ARENA_HEIGHT],
}

impl View for Level {
    type V = Seq<Seq<Tile>>;

    /// The rows of the grid, row 0 first; each row runs from column 0.
    closed spec fn view(&self) -> Seq<Seq<Tile>> {
        Seq::new(ARENA_HEIGHT as nat, |y: int| self.tiles[y]@)
    }
}

impl Level {
    /// The tile at column `x` of row `y`.
    pub open spec fn tile(&self, x: int, y: int) -> Tile {
        self@[y][x]
    }

    /// A cell that nothing can enter: a wall, or any place outside the arena.
    pub open spec fn wall(&self, x: int, y: int) -> bool {
        !in_arena(x, y) || self.tile(x, y) == Tile::Wall
    }

    /// Every level has the shape of the arena.
    pub proof fn shape(&self)
        ensures
            self@.len() == ARENA_HEIGHT,
            forall|y: int| 0 <= y < ARENA_HEIGHT ==> (#[trigger] self@[y]).len() == ARENA_WIDTH,
    {
    }

    /// Takes a grid as it stands.
    pub fn from_tiles(tiles: [[Tile; ARENA_WIDTH]; ARENA_HEIGHT]) -> (level: Level)
        ensures
            forall|x: int, y: int| in_arena(x, y) ==> #[trigger] level.tile(x, y) == tiles[y][x],
    {
        Level { tiles }
    }

    /// The tile at column `x` of row `y`, or `None` outside the arena.
    pub fn get(&self, x: usize, y: usize) -> (t: Option<Tile>)
        ensures
            t == if in_arena(x as int, y as int) {
                Some(self.tile(x as int, y as int))
            } else {
                None
            },
    {
        if x < ARENA_WIDTH && y < ARENA_HEIGHT {
            Some(self.tiles[y][x])
        } else {
            None
        }
    }

    /// Whether the player is barred from `(x, y)` by the level's geometry.
    /// Asking about a place outside the arena is answered as for a wall.
    pub fn is_wall(&self, x: usize, y: usize) -> (b: bool)
        ensures
            b == self.wall(x as int, y as int),
    {
        if x < ARENA_WIDTH && y < ARENA_HEIGHT {
            self.tiles[y][x] == Tile::Wall
        } else {
            true
        }
    }

    /// Column of the `k`-th cell in reading order: row 0 from column 0, then row 1.
    pub open spec fn column_of(k: int) -> int {
        k % (ARENA_WIDTH as int)
    }

    /// Row of the `k`-th cell in reading order.
    pub open spec fn row_of(k: int) -> int {
        k / (ARENA_WIDTH as int)
    }

    /// Place of the cell `(x, y)` in reading order.
    pub open spec fn place_of(x: int, y: int) -> int {
        y * ARENA_WIDTH + x
    }

    /// Some cell holds the player.
    pub open spec fn has_player(&self) -> bool {
        exists|x: int, y: int| in_arena(x, y) && #[trigger] self.tile(x, y) == Tile::Player
    }

    /// `(x, y)` is the first cell in reading order that holds the player.
    pub open spec fn is_player_pos(&self, x: int, y: int) -> bool {
        &&& in_arena(x, y)
        &&& self.tile(x, y) == Tile::Player
        &&& forall|a: int, b: int|
            in_arena(a, b) && Self::place_of(a, b) < Self::place_of(x, y) ==> #[trigger] self.tile(
                a,
                b,
            ) != Tile::Player
    }

    /// The cell that the player starts on.
    pub open spec fn start(&self) -> (int, int) {
        choose|c: (int, int)| self.is_player_pos(c.0, c.1)
    }

    /// The player's cell is the only one that [`Level::is_player_pos`] accepts.
    pub proof fn lemma_start(&self, x: int, y: int)
        requires
            self.is_player_pos(x, y),
        ensures
            self.start() == (x, y),
            self.has_player(),
    {
        let c = self.start();
        assert(self.is_player_pos((x, y).0, (x, y).1));
        assert(self.is_player_pos(c.0, c.1));
        if Self::place_of(c.0, c.1) < Self::place_of(x, y) {
            assert(self.tile(c.0, c.1) != Tile::Player);
        }
        if Self::place_of(x, y) < Self::place_of(c.0, c.1) {
            assert(self.tile(x, y) != Tile::Player);
        }
    }

    /// The cells, by their place in reading order, whose tile is `a` or `b`.
    pub open spec fn holding(&self, a: Tile, b: Tile) -> spec_fn(int) -> bool {
        |k: int|
            self.tile(Self::column_of(k), Self::row_of(k)) == a || self.tile(
                Self::column_of(k),
                Self::row_of(k),
            ) == b
    }

    /// The cells among the first `n` in reading order whose tile is `a` or
    /// `b`, in that order.
    pub open spec fn cells_holding(&self, a: Tile, b: Tile, n: int) -> Seq<(usize, usize)>
        decreases n,
    {
        if n <= 0 {
            Seq::empty()
        } else {
            let before = self.cells_holding(a, b, n - 1);
            let x = Self::column_of(n - 1);
            let y = Self::row_of(n - 1);
            if self.tile(x, y) == a || self.tile(x, y) == b {
                before.push((x as usize, y as usize))
            } else {
                before
            }
        }
    }

    /// The cells on which a box stands at the start, in reading order.
    pub open spec fn box_cells(&self) -> Seq<(usize, usize)> {
        self.cells_holding(Tile::Box, Tile::BoxInGoal, ARENA_CELLS as int)
    }

    /// The goal cells, in reading order.
    pub open spec fn goal_cells(&self) -> Seq<(usize, usize)> {
        self.cells_holding(Tile::Goal, Tile::BoxInGoal, ARENA_CELLS as int)
    }

    /// What [`Level::cells_holding`] lists: every cell among the first `n`
    /// whose tile is `a` or `b`, once, and in reading order; so it has as
    /// many entries as there are such cells.
    pub proof fn lemma_cells_holding(&self, a: Tile, b: Tile, n: int)
        requires
            0 <= n <= ARENA_CELLS,
        ensures
            self.cells_holding(a, b, n).len() == tally(self.holding(a, b), n),
            forall|i: int|
                0 <= i < self.cells_holding(a, b, n).len() ==> {
                    let c = #[trigger] self.cells_holding(a, b, n)[i];
                    &&& in_arena(c.0 as int, c.1 as int)
                    &&& Self::place_of(c.0 as int, c.1 as int) < n
                    &&& (self.tile(c.0 as int, c.1 as int) == a || self.tile(c.0 as int, c.1 as int) == b)
                },
            forall|i: int, j: int|
                0 <= i < j < self.cells_holding(a, b, n).len() ==> {
                    let c = #[trigger] self.cells_holding(a, b, n)[i];
                    let d = #[trigger] self.cells_holding(a, b, n)[j];
                    Self::place_of(c.0 as int, c.1 as int) < Self::place_of(d.0 as int, d.1 as int)
                },
            forall|x: int, y: int|
                in_arena(x, y) && Self::place_of(x, y) < n && (#[trigger] self.tile(x, y) == a || self.tile(x, y) == b)
                    ==> self.cells_holding(a, b, n).contains((x as usize, y as usize)),
        decreases n,
    {
        if n > 0 {
            self.lemma_cells_holding(a, b, n - 1);
            let before = self.cells_holding(a, b, n - 1);
            let now = self.cells_holding(a, b, n);
            let x = Self::column_of(n - 1);
            let y = Self::row_of(n - 1);
            assert(in_arena(x, y) && Self::place_of(x, y) == n - 1);
            assert forall|u: int, v: int|
                in_arena(u, v) && Self::place_of(u, v) < n && (#[trigger] self.tile(u, v) == a || self.tile(u, v) == b)
                implies now.contains((u as usize, v as usize)) by {
                if Self::place_of(u, v) < n - 1 {
                    assert(before.contains((u as usize, v as usize)));
                    let i = choose|i: int| 0 <= i < before.len() && before[i] == (u as usize, v as usize);
                    assert(now[i] == (u as usize, v as usize));
                } else {
                    assert(u == x && v == y);
                    assert(now[now.len() - 1] == (u as usize, v as usize));
                }
            }
        }
    }

    /// The cell on which the player starts: the first player tile in reading order.
    pub fn player_pos(&self) -> (r: Result<(usize, usize), LevelError>)
        ensures
            match r {
                Ok(c) => self.is_player_pos(c.0 as int, c.1 as int),
                Err(e) => e == LevelError::NoPlayer && !self.has_player(),
            },
    {
        let mut y: usize = 0;
        while y < ARENA_HEIGHT
            invariant
                y <= ARENA_HEIGHT,
                forall|a: int, b: int|
                    in_arena(a, b) && b < y ==> #[trigger] self.tile(a, b) != Tile::Player,
            decreases ARENA_HEIGHT - y,
        {
            let mut x: usize = 0;
            while x < ARENA_WIDTH
                invariant
                    y < ARENA_HEIGHT,
                    x <= ARENA_WIDTH,
                    forall|a: int, b: int|
                        in_arena(a, b) && (b < y || (b == y && a < x)) ==> #[trigger] self.tile(a, b)
                            != Tile::Player,
                decreases ARENA_WIDTH - x,
            {
                if self.tiles[y][x] == Tile::Player {
                    return Ok((x, y));
                }
                x += 1;
            }
            y += 1;
        }
        Err(LevelError::NoPlayer)
    }

    /// The cells whose tile is `a` or `b`, in reading order.
    fn cells_of(&self, a: Tile, b: Tile) -> (cells: Vec<(usize, usize)>)
        ensures
            cells@ == self.cells_holding(a, b, ARENA_CELLS as int),
    {
        let mut cells: Vec<(usize, usize)> = Vec::new();
        let mut y: usize = 0;
        while y < ARENA_HEIGHT
            invariant
                y <= ARENA_HEIGHT,
                cells@ == self.cells_holding(a, b, y * ARENA_WIDTH),
            decreases ARENA_HEIGHT - y,
        {
            let mut x: usize = 0;
            while x < ARENA_WIDTH
                invariant
                    y < ARENA_HEIGHT,
                    x <= ARENA_WIDTH,
                    cells@ == self.cells_holding(a, b, y * ARENA_WIDTH + x),
                decreases ARENA_WIDTH - x,
            {
                let t = self.tiles[y][x];
                proof {
                    let n = y * ARENA_WIDTH + x + 1;
                    assert(Self::column_of(n - 1) == x && Self::row_of(n - 1) == y);
                }
                if t == a || t == b {
                    cells.push((x, y));
                }
                x += 1;
            }
            y += 1;
        }
        cells
    }

    /// The cells on which a box stands at the start, in reading order.
    pub fn boxes_pos(&self) -> (cells: Vec<(usize, usize)>)
        ensures
            cells@ == self.box_cells(),
    {
        self.cells_of(Tile::Box, Tile::BoxInGoal)
    }

    /// The goal cells, in reading order.
    pub fn goals_pos(&self) -> (cells: Vec<(usize, usize)>)
        ensures
            cells@ == self.goal_cells(),
    {
        self.cells_of(Tile::Goal, Tile::BoxInGoal)
    }
}

} // verus!
