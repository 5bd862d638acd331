//! The text of a level: its rows, its extent, and where each character goes.

use crate::level::{ARENA_CELLS, ARENA_HEIGHT, ARENA_WIDTH};
use crate::tally::{lemma_tally_agree, lemma_tally_either, lemma_tally_gain, tally};
use crate::tile::Tile;
use vstd::prelude::*;

verus! {

/// White space: the characters that do not count when the rows of a level
/// are counted from its end.
pub open spec fn is_blank(c: char) -> bool {
    let p = c as u32;
    ||| 0x09 <= p <= 0x0d
    ||| p == 0x20
    ||| p == 0x85
    ||| p == 0xa0
    ||| p == 0x1680
    ||| 0x2000 <= p <= 0x200a
    ||| p == 0x2028
    ||| p == 0x2029
    ||| p == 0x202f
    ||| p == 0x205f
    ||| p == 0x3000
}

/// Row of the position `i` of the text: the number of line breaks before it.
pub open spec fn row_at(s: Seq<char>, i: int) -> int
    decreases i,
{
    if i <= 0 {
        0
    } else {
        row_at(s, i - 1) + if s[i - 1] == '\n' {
            1int
        } else {
            0int
        }
    }
}

/// Column of the position `i` of the text: the number of characters
/// between the last line break before it and the position itself.
pub open spec fn col_at(s: Seq<char>, i: int) -> int
    decreases i,
{
    if i <= 0 {
        0
    } else if s[i - 1] == '\n' {
        0
    } else {
        col_at(s, i - 1) + 1
    }
}

/// The largest column among the positions up to `n`.
pub open spec fn width_upto(s: Seq<char>, n: int) -> int
    decreases n,
{
    if n <= 0 {
        0
    } else if col_at(s, n) > width_upto(s, n - 1) {
        col_at(s, n)
    } else {
        width_upto(s, n - 1)
    }
}

/// Width of the text: the length of its longest row.
pub open spec fn width(s: Seq<char>) -> int {
    width_upto(s, s.len() as int)
}

/// One more than the row of the last character among the first `n` that is
/// no white space; zero where there is none.
pub open spec fn height_upto(s: Seq<char>, n: int) -> int
    decreases n,
{
    if n <= 0 {
        0
    } else if !is_blank(s[n - 1]) {
        row_at(s, n - 1) + 1
    } else {
        height_upto(s, n - 1)
    }
}

/// Height of the text: the number of its rows, not counting rows of white
/// space at its end.
pub open spec fn height(s: Seq<char>) -> int {
    height_upto(s, s.len() as int)
}

/// Number of empty columns left of the text when it is centred in the arena.
pub open spec fn left_margin(s: Seq<char>) -> int {
    (ARENA_WIDTH - width(s)) / 2
}

/// Number of empty rows above the text when it is centred in the arena.
pub open spec fn top_margin(s: Seq<char>) -> int {
    (ARENA_HEIGHT - height(s)) / 2
}

/// The character at index `i` of the text goes to the cell `(x, y)`.
pub open spec fn placed_at(s: Seq<char>, i: int, x: int, y: int) -> bool {
    &&& 0 <= i < s.len()
    &&& s[i] != '\n'
    &&& x == left_margin(s) + col_at(s, i)
    &&& y == top_margin(s) + row_at(s, i)
}

/// The tile that the text puts on the cell `(x, y)`: that of the character
/// that goes there, and `Empty` where none does.
pub open spec fn tile_from(s: Seq<char>, x: int, y: int) -> Tile {
    if exists|i: int| placed_at(s, i, x, y) {
        Tile::of_char(s[choose|i: int| placed_at(s, i, x, y)])
    } else {
        Tile::Empty
    }
}

/// The text fits the arena and holds a player.
pub open spec fn well_formed(s: Seq<char>) -> bool {
    &&& width(s) <= ARENA_WIDTH
    &&& height(s) <= ARENA_HEIGHT
    &&& s.contains('@')
}

/// Rows and columns are never negative.
pub proof fn lemma_row_col_bounds(s: Seq<char>, i: int)
    ensures
        0 <= row_at(s, i),
        0 <= col_at(s, i),
    decreases i,
{
    if i > 0 {
        lemma_row_col_bounds(s, i - 1);
    }
}

/// Rows do not decrease along the text.
pub proof fn lemma_row_monotone(s: Seq<char>, i: int, j: int)
    requires
        i <= j,
    ensures
        row_at(s, i) <= row_at(s, j),
    decreases j - i,
{
    if i < j {
        lemma_row_monotone(s, i, j - 1);
        lemma_row_col_bounds(s, j - 1);
    }
}

/// Within one row the column grows with the index.
pub proof fn lemma_col_in_row(s: Seq<char>, i: int, j: int)
    requires
        0 <= i <= j,
        row_at(s, i) == row_at(s, j),
    ensures
        col_at(s, j) == col_at(s, i) + (j - i),
    decreases j - i,
{
    if i < j {
        lemma_row_monotone(s, i, j - 1);
        lemma_row_monotone(s, j - 1, j);
        lemma_col_in_row(s, i, j - 1);
    }
}

/// No two characters go to the same cell.
pub proof fn lemma_placed_once(s: Seq<char>, i: int, j: int, x: int, y: int)
    requires
        placed_at(s, i, x, y),
        placed_at(s, j, x, y),
    ensures
        i == j,
{
    if i < j {
        lemma_col_in_row(s, i, j);
    } else if j < i {
        lemma_col_in_row(s, j, i);
    }
}

/// The cell of a character holds the tile of that character.
pub proof fn lemma_tile_of_placed(s: Seq<char>, i: int, x: int, y: int)
    requires
        placed_at(s, i, x, y),
    ensures
        tile_from(s, x, y) == Tile::of_char(s[i]),
{
    let j = choose|j: int| placed_at(s, j, x, y);
    lemma_placed_once(s, i, j, x, y);
}

/// The width bounds the column of every position, and more so as more of
/// the text is counted.
pub proof fn lemma_width_covers(s: Seq<char>, k: int, n: int)
    requires
        0 <= k <= n,
    ensures
        col_at(s, k) <= width_upto(s, n),
        width_upto(s, k) <= width_upto(s, n),
        0 <= width_upto(s, k),
    decreases n,
{
    lemma_row_col_bounds(s, k);
    if k < n {
        lemma_width_covers(s, k, n - 1);
    } else if k > 0 {
        lemma_width_covers(s, k - 1, k - 1);
    }
}

/// The height lies beyond the row of every character that is no white
/// space, and grows as more of the text is counted.
pub proof fn lemma_height_covers(s: Seq<char>, i: int, n: int)
    requires
        0 <= i < n,
    ensures
        !is_blank(s[i]) ==> row_at(s, i) + 1 <= height_upto(s, n),
        height_upto(s, i) <= height_upto(s, n),
        0 <= height_upto(s, i) <= row_at(s, i) + 1,
    decreases n,
{
    lemma_row_col_bounds(s, i);
    if i > 0 {
        lemma_height_covers(s, i - 1, i);
        lemma_row_monotone(s, i - 1, i);
    }
    if i < n - 1 {
        lemma_height_covers(s, i, n - 1);
        lemma_row_monotone(s, i, n - 1);
    }
}

/// A character of the text that is no line break lies within the width of
/// the text, and within its height unless it is white space.
pub proof fn lemma_within_extent(s: Seq<char>, i: int)
    requires
        0 <= i < s.len(),
        s[i] != '\n',
    ensures
        0 <= col_at(s, i) < width(s),
        0 <= row_at(s, i),
        !is_blank(s[i]) ==> row_at(s, i) < height(s),
{
    lemma_row_col_bounds(s, i);
    lemma_width_covers(s, i + 1, s.len() as int);
    lemma_height_covers(s, i, s.len() as int);
}

/// Whether `c` is white space.
pub fn blank(c: char) -> (b: bool)
    ensures
        b == is_blank(c),
{
    let p: u32 = c as u32;
    (0x09 <= p && p <= 0x0d) || p == 0x20 || p == 0x85 || p == 0xa0 || p == 0x1680 || (0x2000 <= p
        && p <= 0x200a) || p == 0x2028 || p == 0x2029 || p == 0x202f || p == 0x205f || p == 0x3000
}

/// What the measuring of a text finds.
#[derive(Copy, Clone, Debug)]
pub struct Extent {
    /// Length of the longest row.
    pub width: usize,
    /// Number of rows up to the last one that holds more than white space.
    pub height: usize,
    /// Whether the text holds a player.
    pub player: bool,
}

/// Measures a text. `None` stands for a text that is wider or higher than
/// the arena.
pub fn measure(source: &str) -> (r: Option<Extent>)
    ensures
        match r {
            Some(e) => {
                &&& e.width == width(source@)
                &&& e.height == height(source@)
                &&& e.width <= ARENA_WIDTH
                &&& e.height <= ARENA_HEIGHT
                &&& e.player == source@.contains('@')
            },
            None => width(source@) > ARENA_WIDTH || height(source@) > ARENA_HEIGHT,
        },
{
    let mut col: usize = 0;
    let mut row: usize = 0;
    let mut wide: usize = 0;
    let mut high: usize = 0;
    let mut player = false;
    for c in it: source.chars()
        invariant
            it.seq() == source@,
            col == col_at(source@, it.index()),
            wide == width_upto(source@, it.index()),
            wide <= ARENA_WIDTH,
            high == height_upto(source@, it.index()),
            high <= ARENA_HEIGHT,
            row <= ARENA_HEIGHT,
            row == row_at(source@, it.index()) || (row == ARENA_HEIGHT && row_at(source@, it.index())
                > ARENA_HEIGHT),
            player <==> exists|i: int| 0 <= i < it.index() && source@[i] == '@',
    {
        let ghost i = it.index();
        proof {
            assert(c == source@[i]);
            lemma_width_covers(source@, i, i);
            lemma_width_covers(source@, i + 1, source@.len() as int);
            lemma_height_covers(source@, i, source@.len() as int);
        }
        if c == '\n' {
            col = 0;
            if row < ARENA_HEIGHT {
                row = row + 1;
            }
        } else {
            if col >= ARENA_WIDTH {
                return None;
            }
            col = col + 1;
            if col > wide {
                wide = col;
            }
            if !blank(c) {
                if row >= ARENA_HEIGHT {
                    return None;
                }
                high = row + 1;
            }
            if c == '@' {
                player = true;
            }
        }
    }
    Some(Extent { width: wide, height: high, player })
}

/// The tile that the first `n` characters of the text put on `(x, y)`.
spec fn tile_upto(s: Seq<char>, n: int, x: int, y: int) -> Tile
    decreases n,
{
    if n <= 0 {
        Tile::Empty
    } else if placed_at(s, n - 1, x, y) {
        Tile::of_char(s[n - 1])
    } else {
        tile_upto(s, n - 1, x, y)
    }
}

/// What [`tile_upto`] computes: the tile of the one character among the
/// first `n` that goes to the cell, and `Empty` where none does.
proof fn lemma_tile_upto(s: Seq<char>, n: int, x: int, y: int)
    requires
        0 <= n <= s.len(),
    ensures
        forall|i: int|
            0 <= i < n && #[trigger] placed_at(s, i, x, y) ==> tile_upto(s, n, x, y) == Tile::of_char(
                s[i],
            ),
        (forall|i: int| 0 <= i < n ==> !#[trigger] placed_at(s, i, x, y)) ==> tile_upto(s, n, x, y)
            == Tile::Empty,
    decreases n,
{
    if n > 0 {
        lemma_tile_upto(s, n - 1, x, y);
        if placed_at(s, n - 1, x, y) {
            assert forall|i: int| 0 <= i < n && #[trigger] placed_at(s, i, x, y) implies tile_upto(
                s,
                n,
                x,
                y,
            ) == Tile::of_char(s[i]) by {
                lemma_placed_once(s, i, n - 1, x, y);
            }
        }
    }
}

/// Over the whole text, [`tile_upto`] is [`tile_from`].
proof fn lemma_tile_upto_whole(s: Seq<char>, x: int, y: int)
    ensures
        tile_upto(s, s.len() as int, x, y) == tile_from(s, x, y),
{
    lemma_tile_upto(s, s.len() as int, x, y);
    if exists|i: int| placed_at(s, i, x, y) {
        let i = choose|i: int| placed_at(s, i, x, y);
        assert(placed_at(s, i, x, y));
    }
}

/// Lays a text that fits the arena out on the grid, centred.
pub(crate) fn place(source: &str, extent: Extent) -> (tiles: [[Tile; ARENA_WIDTH]; ARENA_HEIGHT])
    requires
        extent.width == width(source@),
        extent.height == height(source@),
        extent.width <= ARENA_WIDTH,
        extent.height <= ARENA_HEIGHT,
    ensures
        forall|x: int, y: int|
            0 <= x < ARENA_WIDTH && 0 <= y < ARENA_HEIGHT ==> (#[trigger] tiles[y][x]) == tile_from(
                source@,
                x,
                y,
            ),
{
    let left: usize = (ARENA_WIDTH - extent.width) / 2;
    let top: usize = (ARENA_HEIGHT - extent.height) / 2;
    let mut tiles = [[Tile::Empty; ARENA_WIDTH]; ARENA_HEIGHT];
    let mut col: usize = 0;
    let mut row: usize = 0;
    for c in it: source.chars()
        invariant
            it.seq() == source@,
            extent.width == width(source@),
            extent.width <= ARENA_WIDTH,
            left == left_margin(source@),
            top == top_margin(source@),
            top <= ARENA_HEIGHT,
            col == col_at(source@, it.index()),
            row <= ARENA_HEIGHT,
            row == row_at(source@, it.index()) || (row == ARENA_HEIGHT && row_at(source@, it.index())
                > ARENA_HEIGHT),
            forall|x: int, y: int|
                0 <= x < ARENA_WIDTH && 0 <= y < ARENA_HEIGHT ==> (#[trigger] tiles[y][x])
                    == tile_upto(source@, it.index(), x, y),
    {
        let ghost i = it.index();
        proof {
            assert(c == source@[i]);
        }
        if c == '\n' {
            col = 0;
            if row < ARENA_HEIGHT {
                row = row + 1;
            }
        } else {
            proof {
                lemma_within_extent(source@, i);
            }
            let x = left + col;
            let y = top + row;
            if y < ARENA_HEIGHT {
                tiles[y][x] = Tile::from_char(c);
            }
            col = col + 1;
        }
    }
    proof {
        assert forall|x: int, y: int| 0 <= x < ARENA_WIDTH && 0 <= y < ARENA_HEIGHT implies (
        #[trigger] tiles[y][x]) == tile_from(source@, x, y) by {
            lemma_tile_upto_whole(source@, x, y);
        }
    }
    tiles
}

/// The indices at which the text holds the character `c`.
pub open spec fn holds_char(s: Seq<char>, c: char) -> spec_fn(int) -> bool {
    |i: int| s[i] == c
}

/// How often the character `c` occurs in the text.
pub open spec fn count_of(s: Seq<char>, c: char) -> int {
    tally(holds_char(s, c), s.len() as int)
}

/// The cells, by their place in reading order, to which the text gives a
/// tile that is `a` or `b`.
pub open spec fn gives(s: Seq<char>, a: Tile, b: Tile) -> spec_fn(int) -> bool {
    |k: int|
        tile_from(s, k % (ARENA_WIDTH as int), k / (ARENA_WIDTH as int)) == a || tile_from(
            s,
            k % (ARENA_WIDTH as int),
            k / (ARENA_WIDTH as int),
        ) == b
}

/// How many cells of the arena the text gives a tile that is `a` or `b`.
pub open spec fn cells_given(s: Seq<char>, a: Tile, b: Tile) -> int {
    tally(gives(s, a, b), ARENA_CELLS as int)
}

/// The cells to which the first `n` characters give a tile that is `a` or `b`.
spec fn gives_upto(s: Seq<char>, n: int, a: Tile, b: Tile) -> spec_fn(int) -> bool {
    |k: int|
        tile_upto(s, n, k % (ARENA_WIDTH as int), k / (ARENA_WIDTH as int)) == a || tile_upto(
            s,
            n,
            k % (ARENA_WIDTH as int),
            k / (ARENA_WIDTH as int),
        ) == b
}

/// The indices of the characters that stand for the tile `a` or `b`.
spec fn stands_for(s: Seq<char>, a: Tile, b: Tile) -> spec_fn(int) -> bool {
    |i: int| Tile::of_char(s[i]) == a || Tile::of_char(s[i]) == b
}

/// The text is centred: the character at row `r` and column `c` of the text
/// goes to the cell at column `left_margin + c` of row `top_margin + r`, so
/// the first character of the text goes to `(left_margin, top_margin)`;
/// every cell outside the block of `width` columns and `height` rows that
/// starts there is empty; and for a text that fits the arena the block lies
/// within the arena, with margins that differ by one at most.
pub proof fn lemma_centred(s: Seq<char>)
    ensures
        forall|i: int|
            0 <= i < s.len() && s[i] != '\n' ==> #[trigger] tile_from(
                s,
                left_margin(s) + col_at(s, i),
                top_margin(s) + row_at(s, i),
            ) == Tile::of_char(s[i]),
        s.len() > 0 && s[0] != '\n' ==> tile_from(s, left_margin(s), top_margin(s)) == Tile::of_char(
            s[0],
        ),
        forall|x: int, y: int|
            !(left_margin(s) <= x < left_margin(s) + width(s) && top_margin(s) <= y < top_margin(s)
                + height(s)) ==> #[trigger] tile_from(s, x, y) == Tile::Empty,
        width(s) <= ARENA_WIDTH ==> 0 <= left_margin(s) && left_margin(s) + width(s) <= ARENA_WIDTH
            && 0 <= ARENA_WIDTH - width(s) - 2 * left_margin(s) <= 1,
        height(s) <= ARENA_HEIGHT ==> 0 <= top_margin(s) && top_margin(s) + height(s)
            <= ARENA_HEIGHT && 0 <= ARENA_HEIGHT - height(s) - 2 * top_margin(s) <= 1,
{
    assert forall|i: int| 0 <= i < s.len() && s[i] != '\n' implies #[trigger] tile_from(
        s,
        left_margin(s) + col_at(s, i),
        top_margin(s) + row_at(s, i),
    ) == Tile::of_char(s[i]) by {
        lemma_tile_of_placed(s, i, left_margin(s) + col_at(s, i), top_margin(s) + row_at(s, i));
    }
    if s.len() > 0 && s[0] != '\n' {
        lemma_tile_of_placed(s, 0, left_margin(s), top_margin(s));
    }
    assert forall|x: int, y: int|
        !(left_margin(s) <= x < left_margin(s) + width(s) && top_margin(s) <= y < top_margin(s)
            + height(s)) implies #[trigger] tile_from(s, x, y) == Tile::Empty by {
        if exists|i: int| placed_at(s, i, x, y) {
            let i = choose|i: int| placed_at(s, i, x, y);
            lemma_within_extent(s, i);
        }
    }
    lemma_width_covers(s, 0, s.len() as int);
    if s.len() > 0 {
        lemma_height_covers(s, 0, s.len() as int);
    }
}

/// A text that fits the arena and holds a player puts the player on a cell
/// of the arena.
pub proof fn lemma_player_placed(s: Seq<char>)
    requires
        well_formed(s),
    ensures
        exists|x: int, y: int|
            0 <= x < ARENA_WIDTH && 0 <= y < ARENA_HEIGHT && #[trigger] tile_from(s, x, y)
                == Tile::Player,
{
    let i = choose|i: int| 0 <= i < s.len() && s[i] == '@';
    lemma_within_extent(s, i);
    let x = left_margin(s) + col_at(s, i);
    let y = top_margin(s) + row_at(s, i);
    lemma_tile_of_placed(s, i, x, y);
    assert(0 <= x < ARENA_WIDTH && 0 <= y < ARENA_HEIGHT && tile_from(s, x, y) == Tile::Player);
}

/// The first `n` characters of a text that fits the arena give as many
/// cells a tile that is `a` or `b` as there are characters among them that
/// stand for `a` or `b`.
proof fn lemma_cells_counted_upto(s: Seq<char>, a: Tile, b: Tile, n: int)
    requires
        0 <= n <= s.len(),
        width(s) <= ARENA_WIDTH,
        height(s) <= ARENA_HEIGHT,
        a != Tile::Empty,
        b != Tile::Empty,
    ensures
        tally(gives_upto(s, n, a, b), ARENA_CELLS as int) == tally(stands_for(s, a, b), n),
    decreases n,
{
    let now = gives_upto(s, n, a, b);
    if n <= 0 {
        lemma_tally_none(now, ARENA_CELLS as int);
    } else {
        lemma_cells_counted_upto(s, a, b, n - 1);
        let before = gives_upto(s, n - 1, a, b);
        let c = s[n - 1];
        let x = left_margin(s) + col_at(s, n - 1);
        let y = top_margin(s) + row_at(s, n - 1);
        if c != '\n' {
            lemma_tile_upto(s, n - 1, x, y);
            assert forall|i: int| 0 <= i < n - 1 implies !#[trigger] placed_at(s, i, x, y) by {
                if placed_at(s, i, x, y) {
                    lemma_placed_once(s, i, n - 1, x, y);
                }
            }
            assert(tile_upto(s, n - 1, x, y) == Tile::Empty);
            assert(tile_upto(s, n, x, y) == Tile::of_char(c));
        }
        if c != '\n' && (Tile::of_char(c) == a || Tile::of_char(c) == b) {
            lemma_within_extent(s, n - 1);
            let k0 = y * ARENA_WIDTH + x;
            assert(0 <= x < ARENA_WIDTH && 0 <= y < ARENA_HEIGHT);
            assert(k0 % (ARENA_WIDTH as int) == x && k0 / (ARENA_WIDTH as int) == y);
            assert forall|k: int| 0 <= k < ARENA_CELLS && k != k0 implies #[trigger] before(k)
                == now(k) by {
                assert(!placed_at(s, n - 1, k % (ARENA_WIDTH as int), k / (ARENA_WIDTH as int)));
            }
            lemma_tally_gain(before, now, k0, ARENA_CELLS as int);
        } else {
            assert forall|k: int| 0 <= k < ARENA_CELLS implies #[trigger] before(k) == now(k) by {
                let kx = k % (ARENA_WIDTH as int);
                let ky = k / (ARENA_WIDTH as int);
                if placed_at(s, n - 1, kx, ky) {
                    assert(kx == x && ky == y);
                }
            }
            lemma_tally_agree(before, now, ARENA_CELLS as int);
        }
    }
}

/// A predicate that holds nowhere below the bound has the tally zero.
proof fn lemma_tally_none(f: spec_fn(int) -> bool, n: int)
    requires
        forall|k: int| 0 <= k < n ==> !#[trigger] f(k),
    ensures
        tally(f, n) == 0,
    decreases n,
{
    if n > 0 {
        lemma_tally_none(f, n - 1);
    }
}

/// The text gives as many cells a tile that is `a` or `b` as it holds
/// characters `ca` and `cb`, where these two are the characters that stand
/// for `a` and `b`.
proof fn lemma_pair_counted(s: Seq<char>, a: Tile, b: Tile, ca: char, cb: char)
    requires
        width(s) <= ARENA_WIDTH,
        height(s) <= ARENA_HEIGHT,
        a != Tile::Empty,
        b != Tile::Empty,
        ca != cb,
        forall|c: char| (#[trigger] Tile::of_char(c) == a || Tile::of_char(c) == b) <==> (c == ca || c == cb),
    ensures
        cells_given(s, a, b) == count_of(s, ca) + count_of(s, cb),
{
    let n = s.len() as int;
    lemma_cells_counted_upto(s, a, b, n);
    assert forall|k: int| 0 <= k < ARENA_CELLS implies #[trigger] gives(s, a, b)(k) == gives_upto(
        s,
        n,
        a,
        b,
    )(k) by {
        lemma_tile_upto_whole(s, k % (ARENA_WIDTH as int), k / (ARENA_WIDTH as int));
    }
    lemma_tally_agree(gives(s, a, b), gives_upto(s, n, a, b), ARENA_CELLS as int);
    assert forall|i: int| 0 <= i < n implies (#[trigger] stands_for(s, a, b)(i) <==> holds_char(
        s,
        ca,
    )(i) || holds_char(s, cb)(i)) by {
        assert((Tile::of_char(s[i]) == a || Tile::of_char(s[i]) == b) <==> (s[i] == ca || s[i] == cb));
    }
    lemma_tally_either(holds_char(s, ca), holds_char(s, cb), stands_for(s, a, b), n);
}

/// A text that fits the arena gives a box to as many cells as it holds
/// characters `$` and `+`, and makes as many cells a goal as it holds
/// characters `.` and `+`.
pub proof fn lemma_cells_counted(s: Seq<char>)
    requires
        width(s) <= ARENA_WIDTH,
        height(s) <= ARENA_HEIGHT,
    ensures
        cells_given(s, Tile::Box, Tile::BoxInGoal) == count_of(s, '$') + count_of(s, '+'),
        cells_given(s, Tile::Goal, Tile::BoxInGoal) == count_of(s, '.') + count_of(s, '+'),
{
    lemma_pair_counted(s, Tile::Box, Tile::BoxInGoal, '$', '+');
    lemma_pair_counted(s, Tile::Goal, Tile::BoxInGoal, '.', '+');
}

} // verus!
