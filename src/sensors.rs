//! The directional sensors. Each holds eight cell counts, in the order left,
//! up-left, up, up-right, right, down-right, down, down-left; a count divided
//! by the board's side is the normalized feature, so a count equal to the side
//! reads as "nothing in that direction".

use indexmap::IndexSet;
use vstd::prelude::*;

use crate::cells::{cells_contains, cells_of};
use crate::coord::{delta, in_board, Coord, Direction};

verus! {

pub open spec fn least(a: int, b: int) -> int {
    if a < b {
        a
    } else {
        b
    }
}

/// The distances from `head` to the edges of the board along the eight rays:
/// a row or column count on the axes, the smaller of the two on a diagonal.
pub open spec fn wall_gaps(head: Coord, size: u8) -> Seq<int> {
    let x = head.x as int;
    let y = head.y as int;
    let s = size - 1;
    seq![x, least(x, y), y, least(s - x, y), s - x, least(s - x, s - y), s - y, least(x, s - y)]
}

/// Marching from `(x, y)` by `d` at step `i`: the first step whose cell is off
/// the board gives `size`, the first whose cell is not free gives its step
/// number, and reaching step `size` gives `size`.
pub open spec fn ray_hit(free: Seq<(u8, u8)>, size: u8, x: int, y: int, d: (int, int), i: int) -> int
    decreases size - i,
{
    if size <= i {
        size as int
    } else {
        let nx = x + d.0;
        let ny = y + d.1;
        if nx < 0 || ny < 0 || size <= nx || size <= ny {
            size as int
        } else if !free.contains((nx as u8, ny as u8)) {
            i
        } else {
            ray_hit(free, size, nx, ny, d, i + 1)
        }
    }
}

/// The food signal: `size` everywhere, except where the food lies on one of
/// the eight rays from the head, whose entry is then its distance in cells.
pub open spec fn food_signal(head: Coord, food: Coord, size: u8) -> Seq<int> {
    let hx = head.x as int;
    let hy = head.y as int;
    let fx = food.x as int;
    let fy = food.y as int;
    let none = Seq::new(8, |k: int| size as int);
    if hy == fy {
        if hx < fx {
            none.update(4, fx - hx)
        } else {
            none.update(0, hx - fx)
        }
    } else if hx == fx {
        if hy < fy {
            none.update(6, fy - hy)
        } else {
            none.update(2, hy - fy)
        }
    } else if hx + hy == fx + fy {
        if hx < fx {
            none.update(3, fx - hx)
        } else {
            none.update(7, hx - fx)
        }
    } else if hx - hy == fx - fy {
        if hx < fx {
            none.update(5, fx - hx)
        } else {
            none.update(1, hx - fx)
        }
    } else {
        none
    }
}

fn smaller(a: u8, b: u8) -> (r: u8)
    ensures
        r == least(a as int, b as int),
{
    if a < b {
        a
    } else {
        b
    }
}

/// The wall distances of a head on a board of side `size`.
pub fn wall_distances(head: Coord, size: u8) -> (r: Vec<u8>)
    requires
        in_board(head, size as int),
    ensures
        r@.len() == 8,
        forall|k: int| 0 <= k < 8 ==> #[trigger] r@[k] == wall_gaps(head, size)[k],
{
    let s = size - 1;
    let mut walls: Vec<u8> = Vec::with_capacity(8);
    walls.push(head.x);
    walls.push(smaller(head.x, head.y));
    walls.push(head.y);
    walls.push(smaller(s - head.x, head.y));
    walls.push(s - head.x);
    walls.push(smaller(s - head.x, s - head.y));
    walls.push(s - head.y);
    walls.push(smaller(head.x, s - head.y));
    walls
}

/// The ray of the sensors made of one step in `d1` then one in `d2`.
pub open spec fn pair_step(d1: Direction, d2: Direction) -> (int, int) {
    (delta(d1).0 + delta(d2).0, delta(d1).1 + delta(d2).1)
}

/// The body distance along the ray that repeats one step in `d1` then one in
/// `d2`, from `head`, over the free cells `free`.
pub(crate) fn ray_distance(
    free: &IndexSet<(u8, u8)>,
    size: u8,
    head: Coord,
    d1: Direction,
    d2: Direction,
) -> (r: u8)
    requires
        in_board(head, size as int),
        d1 != Direction::Center,
        d2 == Direction::Left || d2 == Direction::Right || d2 == Direction::Center,
        d1 == Direction::Left || d1 == Direction::Right ==> d2 == Direction::Center,
    ensures
        r == ray_hit(cells_of(*free), size, head.x as int, head.y as int, pair_step(d1, d2), 1),
{
    let ghost d = pair_step(d1, d2);
    let mut c = head;
    let mut i: u8 = 1;
    while i < size
        invariant
            1 <= i <= size,
            in_board(c, size as int),
            d == pair_step(d1, d2),
            d1 != Direction::Center,
            d2 == Direction::Left || d2 == Direction::Right || d2 == Direction::Center,
            d1 == Direction::Left || d1 == Direction::Right ==> d2 == Direction::Center,
            ray_hit(cells_of(*free), size, head.x as int, head.y as int, d, 1) == ray_hit(
                cells_of(*free),
                size,
                c.x as int,
                c.y as int,
                d,
                i as int,
            ),
        decreases size - i,
    {
        c = match c.add(d1) {
            Err(_) => {
                return size;
            },
            Ok(val) => val,
        };
        c = match c.add(d2) {
            Err(_) => {
                return size;
            },
            Ok(val) => val,
        };
        if !c.in_bounds(size) {
            return size;
        }
        if !cells_contains(free, (c.x, c.y)) {
            return i;
        }
        i = i + 1;
    }
    size
}

/// The food distances of a head and a food cell on a board of side `size`.
pub fn food_distances(head: Coord, food: Coord, size: u8) -> (r: Vec<u8>)
    ensures
        r@.len() == 8,
        forall|k: int| 0 <= k < 8 ==> #[trigger] r@[k] == food_signal(head, food, size)[k],
{
    let mut dir: Vec<u8> = vec![size, size, size, size, size, size, size, size];
    if head.y == food.y {
        if head.x < food.x {
            dir.set(4, food.x - head.x);
        } else {
            dir.set(0, head.x - food.x);
        }
    } else if head.x == food.x {
        if head.y < food.y {
            dir.set(6, food.y - head.y);
        } else {
            dir.set(2, head.y - food.y);
        }
    } else if head.x as u16 + head.y as u16 == food.x as u16 + food.y as u16 {
        if head.x < food.x {
            dir.set(3, food.x - head.x);
        } else {
            dir.set(7, head.x - food.x);
        }
    } else if head.x as i16 - head.y as i16 == food.x as i16 - food.y as i16 {
        if head.x < food.x {
            dir.set(5, food.x - head.x);
        } else {
            dir.set(1, head.x - food.x);
        }
    }
    dir
}

} // verus!
