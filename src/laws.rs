//! Laws of the transition, stated over the abstract state.

use vstd::prelude::*;

use crate::coord::{Coord, Direction};
use crate::model::{body_after, eats, free_after, moves, next_cell, projected, resolve, SnakeView};

verus! {

/// A snake heading right that is asked to go left keeps heading right: its
/// head, if it moves, moves one cell to the right.
pub proof fn lemma_no_reversal(m: SnakeView)
    requires
        m.valid(),
        m.heading == Direction::Right,
    ensures
        resolve(m.heading, Direction::Left) == Direction::Right,
        projected(m, Direction::Left) == next_cell(m.head(), Direction::Right, m.size),
        projected(m, Direction::Left) matches Some(c) ==> c.x == m.head().x + 1 && c.y
            == m.head().y,
{
}

/// A snake in the left column heading left, asked to go left or given no
/// input, hits the wall: the step ends the game and leaves the body and the
/// free cells as they were.
pub proof fn lemma_wall_ends_game(m: SnakeView, req: Direction)
    requires
        m.valid(),
        m.head().x == 0,
        m.heading == Direction::Left,
        req == Direction::Left || req == Direction::Center,
    ensures
        projected(m, req) is None,
        !moves(m, req),
        body_after(m, req) == m.body,
        free_after(m, req) == m.free,
{
}

/// A step whose head would land on a cell of the body ends the game and
/// leaves the body and the free cells as they were.
pub proof fn lemma_self_collision_ends_game(m: SnakeView, req: Direction, c: Coord)
    requires
        m.valid(),
        projected(m, req) == Some(c),
        m.body.contains(c),
    ensures
        !moves(m, req),
        body_after(m, req) == m.body,
        free_after(m, req) == m.free,
{
    assert(m.free.contains((c.x, c.y)) <==> !m.body.contains(c));
}

/// Two equal states given the same request step alike: the same heading, body
/// and free cells, the same outcome of the move, and food eaten in both or in
/// neither. Only a newly drawn food cell comes from the generator.
pub proof fn lemma_step_determined(a: SnakeView, b: SnakeView, req: Direction)
    requires
        a == b,
    ensures
        resolve(a.heading, req) == resolve(b.heading, req),
        moves(a, req) == moves(b, req),
        eats(a, req) == eats(b, req),
        body_after(a, req) == body_after(b, req),
        free_after(a, req) == free_after(b, req),
{
}

} // verus!
