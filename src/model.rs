//! The mathematical state of a game and the rules of one step.

use vstd::prelude::*;
use crate::cells::{lemma_push_fresh, lemma_swap_out, swap_out};
use crate::coord::{delta, in_board, shifted, Coord, Direction};

verus! {

/// The abstract state of a game.
pub struct SnakeView {
    /// The body, head first.
    pub body: Seq<Coord>,
    /// The free cells as `(x, y)` pairs, in the index's order.
    pub free: Seq<(u8, u8)>,
    /// The current heading.
    pub heading: Direction,
    /// The food cell.
    pub food: Coord,
    /// The side of the square board.
    pub size: u8,
}

/// The key under which a cell is held in the free-cell index.
pub open spec fn key(c: Coord) -> (u8, u8) {
    (c.x, c.y)
}

/// The free cells and the body split the board: every cell of the board is in
/// exactly one of them, and the free cells lie on the board.
pub open spec fn partitions(free: Seq<(u8, u8)>, body: Seq<Coord>, size: u8) -> bool {
    &&& forall|i: int| 0 <= i < free.len() ==> (#[trigger] free[i]).0 < size && free[i].1 < size
    &&& forall|c: Coord|
        #![trigger free.contains(key(c))]
        #![trigger body.contains(c)]
        in_board(c, size as int) ==> (free.contains(key(c)) <==> !body.contains(c))
}

impl SnakeView {
    /// The invariant of every reachable state.
    pub open spec fn valid(self) -> bool {
        &&& 2 <= self.size
        &&& self.heading != Direction::Center
        &&& 1 <= self.body.len()
        &&& self.body.no_duplicates()
        &&& self.free.no_duplicates()
        &&& forall|i: int|
            0 <= i < self.body.len() ==> in_board(#[trigger] self.body[i], self.size as int)
        &&& partitions(self.free, self.body, self.size)
        &&& in_board(self.food, self.size as int)
    }

    /// The head cell.
    pub open spec fn head(self) -> Coord {
        self.body[0]
    }

    /// The cell is held by the free-cell index; in a valid state, it is on
    /// the board and not part of the body.
    pub open spec fn is_free(self, c: Coord) -> bool {
        self.free.contains(key(c))
    }
}

/// The heading after a requested direction: a turn to either side replaces
/// it; a reversal or `Center` keeps it.
pub open spec fn resolve(heading: Direction, req: Direction) -> Direction {
    match heading {
        Direction::Left | Direction::Right => {
            if req == Direction::Up || req == Direction::Down {
                req
            } else {
                heading
            }
        },
        Direction::Up | Direction::Down => {
            if req == Direction::Left || req == Direction::Right {
                req
            } else {
                heading
            }
        },
        Direction::Center => heading,
    }
}

/// The cell one step from `c` in `d`, or `None` where it is off the board.
pub open spec fn next_cell(c: Coord, d: Direction, size: u8) -> Option<Coord> {
    match shifted(c, d) {
        Some(n) => if in_board(n, size as int) {
            Some(n)
        } else {
            None
        },
        None => None,
    }
}

/// Where the head would go on request `req`; `None` is a wall.
pub open spec fn projected(m: SnakeView, req: Direction) -> Option<Coord> {
    next_cell(m.head(), resolve(m.heading, req), m.size)
}

/// The head moves onto a free cell.
pub open spec fn moves(m: SnakeView, req: Direction) -> bool {
    projected(m, req) matches Some(c) && m.is_free(c)
}

/// The head moves onto the food.
pub open spec fn eats(m: SnakeView, req: Direction) -> bool {
    moves(m, req) && projected(m, req) == Some(m.food)
}

/// The new head of a move.
pub open spec fn new_head(m: SnakeView, req: Direction) -> Coord {
    projected(m, req)->Some_0
}

/// The body after request `req`: unchanged on a collision; otherwise the new
/// head in front, and the tail dropped unless the food was eaten.
pub open spec fn body_after(m: SnakeView, req: Direction) -> Seq<Coord> {
    if !moves(m, req) {
        m.body
    } else if eats(m, req) {
        seq![new_head(m, req)] + m.body
    } else {
        (seq![new_head(m, req)] + m.body).drop_last()
    }
}

/// The free cells after request `req`: unchanged on a collision; otherwise
/// the new head swap-removed, and the vacated tail appended unless the food
/// was eaten.
pub open spec fn free_after(m: SnakeView, req: Direction) -> Seq<(u8, u8)> {
    if !moves(m, req) {
        m.free
    } else {
        let f = take_out(m.free, key(new_head(m, req)));
        if eats(m, req) {
            f
        } else {
            f.push(key(m.body.last()))
        }
    }
}

/// The cells of column `x` of a board of side `size`, top to bottom.
pub open spec fn column(x: int, size: u8) -> Seq<(u8, u8)> {
    Seq::new(size as nat, |y: int| (x as u8, y as u8))
}

/// The cells of the first `n` columns, column by column: the order in which a
/// new game fills its free-cell index.
pub open spec fn board_cells(size: u8, n: nat) -> Seq<(u8, u8)>
    decreases n,
{
    if n == 0 {
        Seq::empty()
    } else {
        board_cells(size, (n - 1) as nat) + column(n - 1, size)
    }
}

/// The free cells `s` after swap-removing the cell `v`, which must be there.
pub open spec fn take_out(s: Seq<(u8, u8)>, v: (u8, u8)) -> Seq<(u8, u8)> {
    swap_out(s, s.index_of(v))
}

/// The free cells `s` after swap-removing the cells of `body` in order.
pub open spec fn carved(s: Seq<(u8, u8)>, body: Seq<Coord>) -> Seq<(u8, u8)>
    decreases body.len(),
{
    if body.len() == 0 {
        s
    } else {
        take_out(carved(s, body.drop_last()), key(body.last()))
    }
}

/// The eight rays of the sensors, as unit steps, in the order left, up-left,
/// up, up-right, right, down-right, down, down-left.
pub open spec fn ray(k: int) -> (int, int) {
    if k == 0 {
        delta(Direction::Left)
    } else if k == 1 {
        (-1, -1)
    } else if k == 2 {
        delta(Direction::Up)
    } else if k == 3 {
        (1, -1)
    } else if k == 4 {
        delta(Direction::Right)
    } else if k == 5 {
        (1, 1)
    } else if k == 6 {
        delta(Direction::Down)
    } else {
        (-1, 1)
    }
}

/// Putting a free cell of the board in front of the body, and swap-removing
/// it from the free cells, keeps a state valid.
pub proof fn lemma_grow_valid(m: SnakeView, h: Coord)
    requires
        m.valid(),
        in_board(h, m.size as int),
        m.is_free(h),
    ensures
        (SnakeView {
            body: seq![h] + m.body,
            free: take_out(m.free, key(h)),
            heading: m.heading,
            food: m.food,
            size: m.size,
        }).valid(),
{
    let body = seq![h] + m.body;
    let k = m.free.index_of(key(h));
    lemma_swap_out(m.free, k);
    let free = swap_out(m.free, k);
    assert(!m.body.contains(h));
    assert forall|c: Coord| #[trigger] body.contains(c) <==> (c == h || m.body.contains(c)) by {
        if body.contains(c) {
            let j = choose|j: int| 0 <= j < body.len() && body[j] == c;
            if j > 0 {
                assert(m.body[j - 1] == c);
            }
        }
        if m.body.contains(c) {
            let j = choose|j: int| 0 <= j < m.body.len() && m.body[j] == c;
            assert(body[j + 1] == c);
        }
        if c == h {
            assert(body[0] == c);
        }
    }
    assert forall|a: int, b: int| 0 <= a < body.len() && 0 <= b < body.len() && a != b implies body[a]
        != body[b] by {
        if a == 0 {
            assert(m.body.contains(body[b]));
        } else if b == 0 {
            assert(m.body.contains(body[a]));
        } else {
            assert(body[a] == m.body[a - 1]);
            assert(body[b] == m.body[b - 1]);
        }
    }
    assert forall|i: int| 0 <= i < body.len() implies in_board(#[trigger] body[i], m.size as int) by {
        if i > 0 {
            assert(body[i] == m.body[i - 1]);
        }
    }
    assert forall|i: int| 0 <= i < free.len() implies (#[trigger] free[i]).0 < m.size && free[i].1
        < m.size by {
        assert(m.free.contains(free[i]));
    }
    assert forall|c: Coord| in_board(c, m.size as int) implies (free.contains(key(c))
        <==> !body.contains(c)) by {
        assert(m.free.contains(key(c)) <==> !m.body.contains(c));
        assert(m.free[k] == key(h));
    }
}

/// Dropping the tail of a body of two cells or more, and appending it to the
/// free cells, keeps a state valid.
pub proof fn lemma_shrink_valid(m: SnakeView)
    requires
        m.valid(),
        2 <= m.body.len(),
    ensures
        (SnakeView {
            body: m.body.drop_last(),
            free: m.free.push(key(m.body.last())),
            heading: m.heading,
            food: m.food,
            size: m.size,
        }).valid(),
{
    let t = m.body.last();
    let n = m.body.len() - 1;
    let body = m.body.drop_last();
    assert(m.body.contains(t)) by {
        assert(m.body[n] == t);
    }
    assert(in_board(t, m.size as int)) by {
        assert(m.body[n] == t);
    }
    lemma_push_fresh(m.free, key(t));
    let free = m.free.push(key(t));
    assert forall|c: Coord| #[trigger] body.contains(c) <==> (m.body.contains(c) && c != t) by {
        if body.contains(c) {
            let j = choose|j: int| 0 <= j < body.len() && body[j] == c;
            assert(m.body[j] == c);
        }
        if m.body.contains(c) && c != t {
            let j = choose|j: int| 0 <= j < m.body.len() && m.body[j] == c;
            assert(body[j] == c);
        }
    }
    assert forall|a: int, b: int| 0 <= a < body.len() && 0 <= b < body.len() && a != b implies body[a]
        != body[b] by {
        assert(body[a] == m.body[a]);
        assert(body[b] == m.body[b]);
    }
    assert forall|i: int| 0 <= i < body.len() implies in_board(#[trigger] body[i], m.size as int) by {
        assert(body[i] == m.body[i]);
    }
    assert forall|i: int| 0 <= i < free.len() implies (#[trigger] free[i]).0 < m.size && free[i].1
        < m.size by {
        if i < m.free.len() {
            assert(free[i] == m.free[i]);
        }
    }
    assert forall|c: Coord| in_board(c, m.size as int) implies (free.contains(key(c))
        <==> !body.contains(c)) by {
        assert(m.free.contains(key(c)) <==> !m.body.contains(c));
    }
}

} // verus!
