//! The decorative variant of a floor tile, read off the floor around it.

use crate::level::{in_arena, Level, LevelError, ARENA_HEIGHT, ARENA_WIDTH};
use crate::reach::{marked, Mask};
use vstd::prelude::*;

verus! {

/// One variant number per arena cell, indexed by row and then by column.
/// Zero stands for a cell that gets no floor tile.
pub type Variants = [[usize; ARENA_WIDTH]; ARENA_HEIGHT];

/// A pattern entry that accepts floor and void alike.
pub const ANY: u8 = 2;

/// A pattern entry that asks for floor.
pub const YES: u8 = 1;

/// A pattern entry that asks for void.
pub const NOT: u8 = 0;

/// Number of rules in the table.
pub const RULE_COUNT: usize = 31;

/// The rule table. The first nine entries of a rule are its pattern over the
/// window of a cell, read row by row from the row above the cell: above
/// left, above, above right, left, the cell itself, right, below left,
/// below, below right. The tenth entry is the variant that the rule assigns.
/// The first rule whose pattern fits a window decides its variant.
pub const RULES: [[u8; 10]; 31] = [
    // Outer corners, wide and tight.
    [ANY, YES, YES, NOT, YES, YES, ANY, NOT, ANY, 1],
    [ANY, YES, NOT, NOT, YES, YES, ANY, NOT, ANY, 16],
    [YES, YES, ANY, YES, YES, NOT, ANY, NOT, ANY, 2],
    [NOT, YES, ANY, YES, YES, NOT, ANY, NOT, ANY, 17],
    [ANY, NOT, ANY, NOT, YES, YES, ANY, YES, YES, 3],
    [ANY, NOT, ANY, NOT, YES, YES, ANY, YES, NOT, 18],
    [ANY, NOT, ANY, YES, YES, NOT, YES, YES, ANY, 4],
    [ANY, NOT, ANY, YES, YES, NOT, NOT, YES, ANY, 19],
    // Wide borders.
    [ANY, YES, YES, NOT, YES, YES, ANY, YES, YES, 5],
    [YES, YES, ANY, YES, YES, NOT, YES, YES, ANY, 6],
    [YES, YES, YES, YES, YES, YES, ANY, NOT, ANY, 7],
    [ANY, NOT, ANY, YES, YES, YES, YES, YES, YES, 8],
    // Corridors one cell wide.
    [ANY, NOT, ANY, YES, YES, YES, ANY, NOT, ANY, 14],
    [ANY, YES, ANY, NOT, YES, NOT, ANY, YES, ANY, 15],
    // Dead ends.
    [ANY, YES, ANY, NOT, YES, NOT, ANY, NOT, ANY, 20],
    [ANY, NOT, ANY, YES, YES, NOT, ANY, NOT, ANY, 21],
    [ANY, NOT, ANY, NOT, YES, NOT, ANY, YES, ANY, 22],
    [ANY, NOT, ANY, NOT, YES, YES, ANY, NOT, ANY, 23],
    // Junctions of three corridors.
    [NOT, YES, NOT, YES, YES, YES, ANY, NOT, ANY, 24],
    [NOT, YES, ANY, YES, YES, NOT, NOT, YES, ANY, 25],
    [ANY, YES, NOT, NOT, YES, YES, ANY, YES, NOT, 26],
    [ANY, NOT, ANY, YES, YES, YES, NOT, YES, NOT, 27],
    // Crossing of four corridors.
    [NOT, YES, NOT, YES, YES, YES, NOT, YES, NOT, 28],
    // Two irregular shapes.
    [NOT, YES, YES, YES, YES, YES, ANY, NOT, NOT, 29],
    [YES, YES, NOT, YES, YES, YES, NOT, NOT, ANY, 30],
    // Void cells above floor.
    [ANY, ANY, ANY, ANY, NOT, ANY, NOT, YES, YES, 10],
    [ANY, ANY, ANY, ANY, NOT, ANY, YES, YES, NOT, 11],
    [ANY, ANY, ANY, ANY, NOT, ANY, YES, YES, YES, 12],
    [ANY, ANY, ANY, ANY, NOT, ANY, NOT, YES, NOT, 13],
    // Whatever is left: plain floor, or nothing.
    [ANY, ANY, ANY, ANY, YES, ANY, ANY, ANY, ANY, 9],
    [ANY, ANY, ANY, ANY, ANY, ANY, ANY, ANY, ANY, 0],
];

/// Whether a pattern entry accepts a cell of the window.
pub open spec fn allows(want: u8, have: bool) -> bool {
    want == ANY || (want == YES && have) || (want == NOT && !have)
}

/// Whether the pattern of rule `rule` fits the window `w`.
pub open spec fn fits(rule: int, w: Seq<bool>) -> bool {
    &&& allows(RULES[rule][0], w[0])
    &&& allows(RULES[rule][1], w[1])
    &&& allows(RULES[rule][2], w[2])
    &&& allows(RULES[rule][3], w[3])
    &&& allows(RULES[rule][4], w[4])
    &&& allows(RULES[rule][5], w[5])
    &&& allows(RULES[rule][6], w[6])
    &&& allows(RULES[rule][7], w[7])
    &&& allows(RULES[rule][8], w[8])
}

/// Index of the first rule at or after `from` that fits `w`, or the number
/// of rules where none does.
pub open spec fn first_fit(w: Seq<bool>, from: int) -> int
    decreases RULE_COUNT - from,
{
    if from >= RULE_COUNT {
        RULE_COUNT as int
    } else if fits(from, w) {
        from
    } else {
        first_fit(w, from + 1)
    }
}

/// The variant of a cell with window `w`: what the first fitting rule assigns.
pub open spec fn variant_of(w: Seq<bool>) -> usize {
    RULES[first_fit(w, 0)][9] as usize
}

/// Whether a pattern entry accepts a cell of the window.
fn entry_allows(want: u8, have: bool) -> (b: bool)
    ensures
        b == allows(want, have),
{
    want == ANY || (want == YES && have) || (want == NOT && !have)
}

/// Whether the pattern of rule `rule` fits the window `w`.
pub fn rule_fits(rule: usize, w: &[bool; 9]) -> (b: bool)
    requires
        rule < RULE_COUNT,
    ensures
        b == fits(rule as int, w@),
{
    let mut k: usize = 0;
    while k < 9
        invariant
            k <= 9,
            rule < RULE_COUNT,
            forall|j: int| 0 <= j < k ==> allows(#[trigger] RULES[rule as int][j], w@[j]),
        decreases 9 - k,
    {
        if !entry_allows(RULES[rule][k], w[k]) {
            return false;
        }
        k += 1;
    }
    true
}

/// The variant of a cell, given the window around it.
pub fn classify_window(w: &[bool; 9]) -> (v: usize)
    ensures
        v == variant_of(w@),
        v <= 30,
{
    proof {
        lemma_variant_by_centre(w@);
    }
    let mut i: usize = 0;
    while i < RULE_COUNT
        invariant
            i <= RULE_COUNT,
            first_fit(w@, 0) == first_fit(w@, i as int),
            forall|j: int| 0 <= j < i ==> !fits(j, w@),
        decreases RULE_COUNT - i,
    {
        if rule_fits(i, w) {
            return RULES[i][9] as usize;
        }
        i += 1;
    }
    proof {
        assert(fits(30, w@));
    }
    0
}

/// The first fitting rule is a rule of the table, it fits, and no rule
/// before it does.
pub proof fn lemma_first_fit(w: Seq<bool>, from: int)
    requires
        0 <= from <= RULE_COUNT - 1,
    ensures
        from <= first_fit(w, from) < RULE_COUNT,
        fits(first_fit(w, from), w),
        forall|j: int| from <= j < first_fit(w, from) ==> !fits(j, w),
    decreases RULE_COUNT - from,
{
    if from == RULE_COUNT - 1 {
        assert(fits(30, w));
    } else if !fits(from, w) {
        lemma_first_fit(w, from + 1);
    }
}

/// A floor cell gets one of the floor variants, never zero. A void cell gets
/// zero unless there is floor right below it, and then the variant that its
/// lower corners select.
pub proof fn lemma_variant_by_centre(w: Seq<bool>)
    requires
        w.len() == 9,
    ensures
        variant_of(w) <= 30,
        w[4] ==> 1 <= variant_of(w) <= 9 || 14 <= variant_of(w) <= 30,
        !w[4] ==> variant_of(w) == if !w[7] {
            0usize
        } else if w[6] && w[8] {
            12usize
        } else if w[6] {
            11usize
        } else if w[8] {
            10usize
        } else {
            13usize
        },
{
    lemma_first_fit(w, 0);
    let i = first_fit(w, 0);
    if w[4] {
        assert(!fits(25, w) && !fits(26, w) && !fits(27, w) && !fits(28, w));
        assert(fits(29, w));
        assert(i <= 29 && i != 25 && i != 26 && i != 27 && i != 28);
    } else {
        assert(forall|j: int| 0 <= j < 25 ==> !fits(j, w));
        assert(!fits(29, w));
        assert(25 <= i <= 30 && i != 29);
        assert(fits(25, w) <==> !w[6] && w[7] && w[8]);
        assert(fits(26, w) <==> w[6] && w[7] && !w[8]);
        assert(fits(27, w) <==> w[6] && w[7] && w[8]);
        assert(fits(28, w) <==> !w[6] && w[7] && !w[8]);
    }
}

/// The window of the cell `(x, y)`: the flags of the cell and of the eight
/// cells around it, row by row from the row above.
pub open spec fn window(mask: Mask, x: int, y: int) -> Seq<bool> {
    seq![
        marked(mask, x - 1, y - 1),
        marked(mask, x, y - 1),
        marked(mask, x + 1, y - 1),
        marked(mask, x - 1, y),
        marked(mask, x, y),
        marked(mask, x + 1, y),
        marked(mask, x - 1, y + 1),
        marked(mask, x, y + 1),
        marked(mask, x + 1, y + 1),
    ]
}

/// A cell that does not lie on the border of the arena.
pub open spec fn interior(x: int, y: int) -> bool {
    1 <= x < ARENA_WIDTH - 1 && 1 <= y < ARENA_HEIGHT - 1
}

/// The variant of the cell `(x, y)` under the floor mask `mask`: that of its
/// window for an interior cell, zero on the border.
pub open spec fn variant_at(mask: Mask, x: int, y: int) -> usize {
    if interior(x, y) {
        variant_of(window(mask, x, y))
    } else {
        0
    }
}

/// `grid` holds the variant of every cell under `mask`.
pub open spec fn classifies(mask: Mask, grid: Variants) -> bool {
    forall|x: int, y: int| in_arena(x, y) ==> (#[trigger] grid[y][x]) == variant_at(mask, x, y)
}

/// The window of an interior cell.
pub fn window_of(mask: &Mask, x: usize, y: usize) -> (w: [bool; 9])
    requires
        interior(x as int, y as int),
    ensures
        w@ == window(*mask, x as int, y as int),
{
    let w = [
        mask[y - 1][x - 1],
        mask[y - 1][x],
        mask[y - 1][x + 1],
        mask[y][x - 1],
        mask[y][x],
        mask[y][x + 1],
        mask[y + 1][x - 1],
        mask[y + 1][x],
        mask[y + 1][x + 1],
    ];
    assert(w@ =~= window(*mask, x as int, y as int));
    w
}

/// Assigns every cell its variant.
pub fn classify(mask: &Mask) -> (grid: Variants)
    ensures
        classifies(*mask, grid),
{
    let mut grid: Variants = [[0usize; ARENA_WIDTH]; ARENA_HEIGHT];
    let mut y: usize = 1;
    while y < ARENA_HEIGHT - 1
        invariant
            1 <= y <= ARENA_HEIGHT - 1,
            forall|a: int, b: int|
                in_arena(a, b) ==> (#[trigger] grid[b][a]) == if b < y {
                    variant_at(*mask, a, b)
                } else {
                    0
                },
        decreases ARENA_HEIGHT - y,
    {
        let mut x: usize = 1;
        while x < ARENA_WIDTH - 1
            invariant
                1 <= y < ARENA_HEIGHT - 1,
                1 <= x <= ARENA_WIDTH - 1,
                forall|a: int, b: int|
                    in_arena(a, b) ==> (#[trigger] grid[b][a]) == if b < y || (b == y && a < x) {
                        variant_at(*mask, a, b)
                    } else {
                        0
                    },
            decreases ARENA_WIDTH - x,
        {
            let w = window_of(mask, x, y);
            grid[y][x] = classify_window(&w);
            x += 1;
        }
        y += 1;
    }
    grid
}

/// The classification is a function of the mask: two grids that classify
/// the same mask are the same grid, and its border holds zeros.
pub proof fn lemma_classification_unique(mask: Mask, first: Variants, second: Variants)
    requires
        classifies(mask, first),
        classifies(mask, second),
    ensures
        first == second,
        forall|x: int, y: int| in_arena(x, y) && !interior(x, y) ==> (#[trigger] first[y][x]) == 0,
{
    assert forall|y: int| 0 <= y < ARENA_HEIGHT implies first[y] == second[y] by {
        assert forall|x: int| 0 <= x < ARENA_WIDTH implies first[y][x] == second[y][x] by {
            assert(in_arena(x, y));
        }
        assert(first[y] =~= second[y]);
    }
    assert(first =~= second);
}

impl Level {
    /// The window of the cell `(x, y)` over the floor of this level.
    pub open spec fn floor_window(&self, x: int, y: int) -> Seq<bool> {
        seq![
            self.floor(x - 1, y - 1),
            self.floor(x, y - 1),
            self.floor(x + 1, y - 1),
            self.floor(x - 1, y),
            self.floor(x, y),
            self.floor(x + 1, y),
            self.floor(x - 1, y + 1),
            self.floor(x, y + 1),
            self.floor(x + 1, y + 1),
        ]
    }

    /// The variant of the floor tile at `(x, y)`; zero on the border of the arena.
    pub open spec fn variant(&self, x: int, y: int) -> usize {
        if interior(x, y) {
            variant_of(self.floor_window(x, y))
        } else {
            0
        }
    }

    /// The variant of the floor tile of every cell: the floor is found from
    /// the player's cell, and every interior cell is classified by the floor
    /// around it.
    pub fn ground(&self) -> (r: Result<Variants, LevelError>)
        ensures
            match r {
                Ok(grid) => self.has_player() && forall|x: int, y: int|
                    in_arena(x, y) ==> (#[trigger] grid[y][x]) == self.variant(x, y),
                Err(e) => e == LevelError::NoPlayer && !self.has_player(),
            },
    {
        match self.reachable() {
            Err(e) => Err(e),
            Ok(mask) => {
                let grid = classify(&mask);
                proof {
                    assert forall|x: int, y: int| in_arena(x, y) implies (#[trigger] grid[y][x])
                        == self.variant(x, y) by {
                        if interior(x, y) {
                            assert(in_arena(x - 1, y - 1) && in_arena(x, y - 1) && in_arena(x + 1, y - 1));
                            assert(in_arena(x - 1, y) && in_arena(x + 1, y));
                            assert(in_arena(x - 1, y + 1) && in_arena(x, y + 1) && in_arena(x + 1, y + 1));
                            assert(window(mask, x, y) =~= self.floor_window(x, y));
                        }
                    }
                }
                Ok(grid)
            },
        }
    }
}

} // verus!
