//! Which cells the player could walk to if no box stood in the way.

use crate::direction::Direction;
use crate::level::{in_arena, Level, LevelError, ARENA_CELLS, ARENA_HEIGHT, ARENA_WIDTH};
use crate::tile::Tile;
use crate::tally::{lemma_tally_bounds, lemma_tally_gain, tally};
use vstd::prelude::*;

verus! {

/// One flag per arena cell, indexed by row and then by column.
pub type Mask = [[bool; ARENA_WIDTH]; ARENA_HEIGHT];

/// Two cells that share an edge.
pub open spec fn adjacent(a: (int, int), b: (int, int)) -> bool {
    (a.0 == b.0 && (a.1 == b.1 + 1 || b.1 == a.1 + 1)) || (a.1 == b.1 && (a.0 == b.0 + 1 || b.0
        == a.0 + 1))
}

impl Level {
    /// A walk over cells that are no walls, each step to a cell that shares
    /// an edge with the one before.
    pub open spec fn is_path(&self, p: Seq<(int, int)>) -> bool {
        &&& p.len() > 0
        &&& forall|i: int| 0 <= i < p.len() ==> !self.wall((#[trigger] p[i]).0, p[i].1)
        &&& forall|i: int| 0 <= i < p.len() - 1 ==> adjacent(#[trigger] p[i], p[i + 1])
    }

    /// Some path leads from `a` to `b`.
    pub open spec fn connected(&self, a: (int, int), b: (int, int)) -> bool {
        exists|p: Seq<(int, int)>| #[trigger] self.is_path(p) && p[0] == a && p.last() == b
    }

    /// A cell that is no wall is connected to itself.
    pub proof fn lemma_connected_here(&self, a: (int, int))
        requires
            !self.wall(a.0, a.1),
        ensures
            self.connected(a, a),
    {
        let p = seq![a];
        assert(self.is_path(p));
        assert(p[0] == a && p.last() == a);
    }

    /// A connection can be carried on by one step to a neighbour that is no wall.
    pub proof fn lemma_connected_step(&self, a: (int, int), b: (int, int), c: (int, int))
        requires
            self.connected(a, b),
            adjacent(b, c),
            !self.wall(c.0, c.1),
        ensures
            self.connected(a, c),
    {
        let p = choose|p: Seq<(int, int)>| #[trigger] self.is_path(p) && p[0] == a && p.last() == b;
        let q = p.push(c);
        assert forall|i: int| 0 <= i < q.len() - 1 implies adjacent(#[trigger] q[i], q[i + 1]) by {
            if i < p.len() - 1 {
                assert(q[i] == p[i] && q[i + 1] == p[i + 1]);
            }
        }
        assert(self.is_path(q));
        assert(q[0] == a && q.last() == c);
    }

    /// Both ends of a connection are cells of the arena that are no walls.
    pub proof fn lemma_connected_open(&self, a: (int, int), b: (int, int))
        requires
            self.connected(a, b),
        ensures
            !self.wall(a.0, a.1),
            !self.wall(b.0, b.1),
    {
        let p = choose|p: Seq<(int, int)>| #[trigger] self.is_path(p) && p[0] == a && p.last() == b;
        assert(!self.wall(p[0].0, p[0].1));
        assert(!self.wall(p[p.len() - 1].0, p[p.len() - 1].1));
    }
}

/// The flag of cell `(x, y)`.
pub open spec fn marked(mask: Mask, x: int, y: int) -> bool {
    mask[y][x]
}

/// How many cells of the arena are flagged.
pub open spec fn marked_count(mask: Mask) -> int {
    tally(|k: int| marked(mask, k % (ARENA_WIDTH as int), k / (ARENA_WIDTH as int)), ARENA_CELLS as int)
}

/// Some entry of the stack is the cell `(x, y)`.
spec fn pending(stack: Seq<(usize, usize)>, x: int, y: int) -> bool {
    exists|k: int| 0 <= k < stack.len() && (#[trigger] stack[k]).0 == x && stack[k].1 == y
}

/// Every flagged cell, and every entry of the stack, is connected to `s`.
spec fn sound(level: &Level, s: (int, int), mask: Mask, stack: Seq<(usize, usize)>) -> bool {
    &&& forall|x: int, y: int|
        in_arena(x, y) && #[trigger] marked(mask, x, y) ==> level.connected(s, (x, y))
    &&& forall|k: int|
        0 <= k < stack.len() ==> level.connected(
            s,
            ((#[trigger] stack[k]).0 as int, stack[k].1 as int),
        )
}

/// Every neighbour of a flagged cell that is no wall is flagged or on the stack.
spec fn closed(level: &Level, mask: Mask, stack: Seq<(usize, usize)>) -> bool {
    forall|a: (int, int), b: (int, int)|
        in_arena(a.0, a.1) && marked(mask, a.0, a.1) && #[trigger] adjacent(a, b) && !level.wall(
            b.0,
            b.1,
        ) ==> marked(mask, b.0, b.1) || pending(stack, b.0, b.1)
}

/// Where no entry is pending, a closed mask that holds the start of a path
/// holds all of it.
proof fn lemma_closed_covers(level: &Level, mask: Mask, p: Seq<(int, int)>, i: int)
    requires
        level.is_path(p),
        marked(mask, p[0].0, p[0].1),
        closed(level, mask, Seq::empty()),
        0 <= i < p.len(),
    ensures
        marked(mask, p[i].0, p[i].1),
    decreases i,
{
    if i > 0 {
        lemma_closed_covers(level, mask, p, i - 1);
        assert(!level.wall(p[i - 1].0, p[i - 1].1));
        assert(!level.wall(p[i].0, p[i].1));
        assert(adjacent(p[i - 1], p[i]));
        assert(!pending(Seq::empty(), p[i].0, p[i].1));
    }
}

/// The stack `b` is the stack `a` with cells added on top, each of them a
/// neighbour of `c` that is no wall.
spec fn grown(level: &Level, a: Seq<(usize, usize)>, b: Seq<(usize, usize)>, c: (int, int)) -> bool {
    &&& a.len() <= b.len()
    &&& forall|k: int| 0 <= k < a.len() ==> #[trigger] b[k] == a[k]
    &&& forall|k: int|
        a.len() <= k < b.len() ==> adjacent(c, ((#[trigger] b[k]).0 as int, b[k].1 as int))
            && !level.wall(b[k].0 as int, b[k].1 as int)
}

/// What is pending stays pending when the stack grows.
proof fn lemma_pending_grown(
    level: &Level,
    a: Seq<(usize, usize)>,
    b: Seq<(usize, usize)>,
    c: (int, int),
    x: int,
    y: int,
)
    requires
        grown(level, a, b, c),
        pending(a, x, y),
    ensures
        pending(b, x, y),
{
    let k = choose|k: int| 0 <= k < a.len() && (#[trigger] a[k]).0 == x && a[k].1 == y;
    assert(b[k] == a[k]);
}

/// Dropping a flagged cell from the top of the stack keeps the invariants.
proof fn lemma_skip(level: &Level, s: (int, int), mask: Mask, stack: Seq<(usize, usize)>)
    requires
        sound(level, s, mask, stack),
        closed(level, mask, stack),
        stack.len() > 0,
        marked(mask, stack.last().0 as int, stack.last().1 as int),
    ensures
        sound(level, s, mask, stack.drop_last()),
        closed(level, mask, stack.drop_last()),
        forall|x: int, y: int|
            pending(stack, x, y) ==> marked(mask, x, y) || pending(stack.drop_last(), x, y),
{
    let rest = stack.drop_last();
    assert forall|x: int, y: int| pending(stack, x, y) implies marked(mask, x, y) || pending(
        rest,
        x,
        y,
    ) by {
        let k = choose|k: int| 0 <= k < stack.len() && (#[trigger] stack[k]).0 == x && stack[k].1 == y;
        if k < rest.len() {
            assert(rest[k] == stack[k]);
        }
    }
    assert forall|k: int| 0 <= k < rest.len() implies level.connected(
        s,
        ((#[trigger] rest[k]).0 as int, rest[k].1 as int),
    ) by {
        assert(rest[k] == stack[k]);
    }
}

/// Flagging the top of the stack and replacing it by its neighbours that are
/// no walls and not flagged keeps the invariants.
proof fn lemma_visit(
    level: &Level,
    s: (int, int),
    before: Mask,
    after: Mask,
    stack: Seq<(usize, usize)>,
    next: Seq<(usize, usize)>,
)
    requires
        sound(level, s, before, stack),
        closed(level, before, stack),
        stack.len() > 0,
        in_arena(stack.last().0 as int, stack.last().1 as int),
        forall|x: int, y: int|
            in_arena(x, y) ==> (#[trigger] marked(after, x, y) <==> marked(before, x, y) || (x
                == stack.last().0 && y == stack.last().1)),
        grown(level, stack.drop_last(), next, (stack.last().0 as int, stack.last().1 as int)),
        forall|b: (int, int)|
            #[trigger] adjacent((stack.last().0 as int, stack.last().1 as int), b) && !level.wall(
                b.0,
                b.1,
            ) ==> marked(after, b.0, b.1) || pending(next, b.0, b.1),
    ensures
        sound(level, s, after, next),
        closed(level, after, next),
        forall|x: int, y: int|
            pending(stack, x, y) ==> marked(after, x, y) || pending(next, x, y),
{
    let c = (stack.last().0 as int, stack.last().1 as int);
    let rest = stack.drop_last();
    assert(level.connected(s, c));
    assert forall|x: int, y: int| pending(stack, x, y) implies marked(after, x, y) || pending(
        next,
        x,
        y,
    ) by {
        let k = choose|k: int| 0 <= k < stack.len() && (#[trigger] stack[k]).0 == x && stack[k].1 == y;
        if k < rest.len() {
            assert(rest[k] == stack[k]);
            assert(pending(rest, x, y));
            lemma_pending_grown(level, rest, next, c, x, y);
        } else {
            assert(in_arena(x, y));
        }
    }
    assert forall|k: int| 0 <= k < next.len() implies level.connected(
        s,
        ((#[trigger] next[k]).0 as int, next[k].1 as int),
    ) by {
        if k < rest.len() {
            assert(next[k] == rest[k]);
            assert(rest[k] == stack[k]);
        } else {
            level.lemma_connected_step(s, c, (next[k].0 as int, next[k].1 as int));
        }
    }
    assert forall|a: (int, int), b: (int, int)|
        in_arena(a.0, a.1) && marked(after, a.0, a.1) && #[trigger] adjacent(a, b) && !level.wall(
            b.0,
            b.1,
        ) implies marked(after, b.0, b.1) || pending(next, b.0, b.1) by {
        if a == c {
        } else {
            assert(marked(before, a.0, a.1));
            if !marked(before, b.0, b.1) {
                assert(pending(stack, b.0, b.1));
            }
        }
    }
}

/// The stack `after` is the stack `before`, with the neighbour of `c` in
/// `dir` on top of it if that cell is no wall and not flagged.
spec fn enqueued(
    level: &Level,
    mask: Mask,
    before: Seq<(usize, usize)>,
    after: Seq<(usize, usize)>,
    c: (usize, usize),
    dir: Direction,
) -> bool {
    let n = (c.0 + dir.dx(), c.1 + dir.dy());
    if !level.wall(n.0, n.1) && !marked(mask, n.0, n.1) {
        after == before.push((n.0 as usize, n.1 as usize))
    } else {
        after == before
    }
}

/// After the four neighbours of `c` were offered to the stack, the stack has
/// grown by neighbours of `c` only, and each neighbour that is no wall is
/// flagged or pending.
proof fn lemma_neighbours_enqueued(
    level: &Level,
    mask: Mask,
    st0: Seq<(usize, usize)>,
    st1: Seq<(usize, usize)>,
    st2: Seq<(usize, usize)>,
    st3: Seq<(usize, usize)>,
    st4: Seq<(usize, usize)>,
    c: (usize, usize),
)
    requires
        enqueued(level, mask, st0, st1, c, Direction::Left),
        enqueued(level, mask, st1, st2, c, Direction::Right),
        enqueued(level, mask, st2, st3, c, Direction::Down),
        enqueued(level, mask, st3, st4, c, Direction::Up),
    ensures
        grown(level, st0, st4, (c.0 as int, c.1 as int)),
        forall|b: (int, int)|
            #[trigger] adjacent((c.0 as int, c.1 as int), b) && !level.wall(b.0, b.1) ==> marked(
                mask,
                b.0,
                b.1,
            ) || pending(st4, b.0, b.1),
{
    let cc = (c.0 as int, c.1 as int);
    assert(grown(level, st0, st1, cc));
    assert(grown(level, st1, st2, cc));
    assert(grown(level, st2, st3, cc));
    assert(grown(level, st3, st4, cc));
    assert(grown(level, st0, st2, cc));
    assert(grown(level, st0, st3, cc));
    assert(grown(level, st0, st4, cc));
    assert(grown(level, st1, st3, cc));
    assert(grown(level, st1, st4, cc));
    assert(grown(level, st2, st4, cc));
    assert forall|b: (int, int)| #[trigger]
        adjacent(cc, b) && !level.wall(b.0, b.1) implies marked(mask, b.0, b.1) || pending(
        st4,
        b.0,
        b.1,
    ) by {
        if !marked(mask, b.0, b.1) {
            if b.0 == cc.0 - 1 {
                assert(st1.last() == (b.0 as usize, b.1 as usize));
                assert(pending(st1, b.0, b.1));
                lemma_pending_grown(level, st1, st4, cc, b.0, b.1);
            } else if b.0 == cc.0 + 1 {
                assert(st2.last() == (b.0 as usize, b.1 as usize));
                assert(pending(st2, b.0, b.1));
                lemma_pending_grown(level, st2, st4, cc, b.0, b.1);
            } else if b.1 == cc.1 - 1 {
                assert(st3.last() == (b.0 as usize, b.1 as usize));
                assert(pending(st3, b.0, b.1));
                lemma_pending_grown(level, st3, st4, cc, b.0, b.1);
            } else {
                assert(st4.last() == (b.0 as usize, b.1 as usize));
                assert(pending(st4, b.0, b.1));
            }
        }
    }
}

/// Flagging one cell that was not flagged adds one to the count.
proof fn lemma_one_more_marked(before: Mask, after: Mask, c: (usize, usize))
    requires
        in_arena(c.0 as int, c.1 as int),
        !marked(before, c.0 as int, c.1 as int),
        forall|x: int, y: int|
            in_arena(x, y) ==> (#[trigger] marked(after, x, y) <==> marked(before, x, y) || (x
                == c.0 && y == c.1)),
    ensures
        marked_count(after) == marked_count(before) + 1,
        0 <= marked_count(after) <= ARENA_CELLS,
{
    let f = |k: int| marked(before, k % (ARENA_WIDTH as int), k / (ARENA_WIDTH as int));
    let g = |k: int| marked(after, k % (ARENA_WIDTH as int), k / (ARENA_WIDTH as int));
    let k = c.1 * ARENA_WIDTH + c.0;
    assert forall|i: int| 0 <= i < ARENA_CELLS && i != k implies #[trigger] f(i) == g(i) by {
        assert(in_arena(i % (ARENA_WIDTH as int), i / (ARENA_WIDTH as int)));
    }
    lemma_tally_gain(f, g, k, ARENA_CELLS as int);
    lemma_tally_bounds(g, ARENA_CELLS as int);
}

/// Flags the cells that are connected to `start`: a depth-first fill over
/// the cells that are no walls.
#[verifier::rlimit(40)]
pub fn flood(level: &Level, start: (usize, usize)) -> (mask: Mask)
    ensures
        forall|x: int, y: int|
            in_arena(x, y) ==> (#[trigger] marked(mask, x, y) <==> level.connected(
                (start.0 as int, start.1 as int),
                (x, y),
            )),
{
    let ghost s = (start.0 as int, start.1 as int);
    let mut mask: Mask = [[false; ARENA_WIDTH]; ARENA_HEIGHT];
    let mut stack: Vec<(usize, usize)> = Vec::new();
    if level.is_wall(start.0, start.1) {
        proof {
            assert forall|x: int, y: int| in_arena(x, y) implies !level.connected(s, (x, y)) by {
                if level.connected(s, (x, y)) {
                    level.lemma_connected_open(s, (x, y));
                }
            }
        }
        return mask;
    }
    stack.push(start);
    proof {
        level.lemma_connected_here(s);
        assert(stack@[0] == start);
        assert(pending(stack@, s.0, s.1));
        lemma_tally_bounds(
            |k: int| marked(mask, k % (ARENA_WIDTH as int), k / (ARENA_WIDTH as int)),
            ARENA_CELLS as int,
        );
    }
    while stack.len() > 0
        invariant
            s == (start.0 as int, start.1 as int),
            in_arena(s.0, s.1),
            sound(level, s, mask, stack@),
            closed(level, mask, stack@),
            marked(mask, s.0, s.1) || pending(stack@, s.0, s.1),
            0 <= marked_count(mask) <= ARENA_CELLS,
        decreases ARENA_CELLS - marked_count(mask), stack@.len(),
    {
        let ghost before = mask;
        let ghost full = stack@;
        let c = stack.pop().unwrap();
        proof {
            assert(c == full.last());
            assert(stack@ == full.drop_last());
            assert(level.connected(s, (full[full.len() - 1].0 as int, full[full.len() - 1].1 as int)));
            level.lemma_connected_open(s, (c.0 as int, c.1 as int));
        }
        if mask[c.1][c.0] {
            proof {
                lemma_skip(level, s, mask, full);
            }
        } else {
            mask[c.1][c.0] = true;
            let ghost rest = stack@;
            enqueue(level, &mask, &mut stack, c, Direction::Left);
            let ghost st1 = stack@;
            enqueue(level, &mask, &mut stack, c, Direction::Right);
            let ghost st2 = stack@;
            enqueue(level, &mask, &mut stack, c, Direction::Down);
            let ghost st3 = stack@;
            enqueue(level, &mask, &mut stack, c, Direction::Up);
            proof {
                assert forall|x: int, y: int| in_arena(x, y) implies (#[trigger] marked(mask, x, y)
                    <==> marked(before, x, y) || (x == c.0 && y == c.1)) by {}
                lemma_neighbours_enqueued(level, mask, rest, st1, st2, st3, stack@, c);
                lemma_visit(level, s, before, mask, full, stack@);
                lemma_one_more_marked(before, mask, c);
            }
        }
    }
    proof {
        assert(stack@ =~= Seq::empty());
        assert(!pending(stack@, s.0, s.1));
        assert forall|x: int, y: int| in_arena(x, y) && level.connected(s, (x, y)) implies marked(
            mask,
            x,
            y,
        ) by {
            let p = choose|p: Seq<(int, int)>| #[trigger]
                level.is_path(p) && p[0] == s && p.last() == (x, y);
            lemma_closed_covers(level, mask, p, p.len() - 1);
        }
    }
    mask
}

/// Puts the neighbour of `c` in `dir` on the stack if it is no wall and not flagged.
fn enqueue(
    level: &Level,
    mask: &Mask,
    stack: &mut Vec<(usize, usize)>,
    c: (usize, usize),
    dir: Direction,
)
    ensures
        enqueued(level, *mask, old(stack)@, final(stack)@, c, dir),
{
    if let Some(n) = dir.step_from(c.0, c.1) {
        if !level.is_wall(n.0, n.1) && !mask[n.1][n.0] {
            stack.push(n);
        }
    }
}

impl Level {
    /// Floor: a cell that a path over cells that are no walls joins to the
    /// cell the player starts on. Boxes do not count as obstacles.
    pub open spec fn floor(&self, x: int, y: int) -> bool {
        self.connected(self.start(), (x, y))
    }

    /// The floor of the level, as one flag per cell. No wall is ever flagged.
    pub fn reachable(&self) -> (r: Result<Mask, LevelError>)
        ensures
            match r {
                Ok(mask) => {
                    &&& self.has_player()
                    &&& forall|x: int, y: int|
                        in_arena(x, y) ==> (#[trigger] marked(mask, x, y) <==> self.floor(x, y))
                    &&& forall|x: int, y: int|
                        in_arena(x, y) && #[trigger] marked(mask, x, y) ==> self.tile(x, y)
                            != Tile::Wall
                },
                Err(e) => e == LevelError::NoPlayer && !self.has_player(),
            },
    {
        match self.player_pos() {
            Err(e) => Err(e),
            Ok(start) => {
                let mask = flood(self, start);
                proof {
                    self.lemma_start(start.0 as int, start.1 as int);
                    assert forall|x: int, y: int| in_arena(x, y) && #[trigger] marked(
                        mask,
                        x,
                        y,
                    ) implies self.tile(x, y) != Tile::Wall by {
                        self.lemma_connected_open(self.start(), (x, y));
                    }
                }
                Ok(mask)
            },
        }
    }
}

} // verus!
