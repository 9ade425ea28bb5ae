//! The game: its state, the construction and the per-step transition.

use std::collections::VecDeque;

use indexmap::IndexSet;
use rand::rngs::StdRng;
use vstd::prelude::*;

use crate::cells::{
    cells_contains, cells_get, cells_insert, cells_len, cells_new, cells_of, cells_remove,
    lemma_push_fresh, lemma_swap_out,
};
use crate::coord::{in_board, Coord, Direction};
use crate::model::{
    board_cells, body_after, carved, column, eats, free_after, key, lemma_grow_valid, lemma_shrink_valid, moves, partitions,
    projected, ray, resolve, SnakeView,
};
use crate::rng::{draw_below, seeded};
use crate::sensors::{
    food_distances, food_signal, pair_step, ray_distance, ray_hit, wall_distances, wall_gaps,
};

verus! {

/// An instance of the game: the body, the free-cell index, the heading, the
/// food and the generator that places food.
pub struct Snake {
    snake: VecDeque<Coord>,
    empty: IndexSet<(u8, u8)>,
    dir: Direction,
    food: Coord,
    size: u8,
    rng: StdRng,
}

impl View for Snake {
    type V = SnakeView;

    closed spec fn view(&self) -> SnakeView {
        SnakeView {
            body: self.snake@,
            free: cells_of(self.empty),
            heading: self.dir,
            food: self.food,
            size: self.size,
        }
    }
}

/// An index holding every cell of a board of side `size`.
fn full_board(size: u8) -> (r: IndexSet<(u8, u8)>)
    ensures
        cells_of(r).no_duplicates(),
        forall|i: int|
            0 <= i < cells_of(r).len() ==> (#[trigger] cells_of(r)[i]).0 < size && cells_of(r)[i].1
                < size,
        forall|c: (u8, u8)| #[trigger] cells_of(r).contains(c) <==> (c.0 < size && c.1 < size),
        cells_of(r) == board_cells(size, size as nat),
{
    let mut empty = cells_new();
    let mut x: u8 = 0;
    while x < size
        invariant
            x <= size,
            cells_of(empty).no_duplicates(),
            forall|i: int|
                0 <= i < cells_of(empty).len() ==> (#[trigger] cells_of(empty)[i]).0 < size
                    && cells_of(empty)[i].1 < size,
            forall|c: (u8, u8)| #[trigger]
                cells_of(empty).contains(c) <==> (c.0 < x && c.1 < size),
            cells_of(empty) == board_cells(size, x as nat),
        decreases size - x,
    {
        let mut y: u8 = 0;
        while y < size
            invariant
                x < size,
                y <= size,
                cells_of(empty).no_duplicates(),
                forall|i: int|
                    0 <= i < cells_of(empty).len() ==> (#[trigger] cells_of(empty)[i]).0 < size
                        && cells_of(empty)[i].1 < size,
                forall|c: (u8, u8)| #[trigger]
                    cells_of(empty).contains(c) <==> ((c.0 < x && c.1 < size) || (c.0 == x && c.1
                        < y)),
                cells_of(empty) == board_cells(size, x as nat) + Seq::new(
                    y as nat,
                    |j: int| (x, j as u8),
                ),
            decreases size - y,
        {
            proof {
                lemma_push_fresh(cells_of(empty), (x, y));
                assert(Seq::new(y as nat, |j: int| (x, j as u8)).push((x, y)) =~= Seq::new(
                    (y + 1) as nat,
                    |j: int| (x, j as u8),
                ));
                assert((board_cells(size, x as nat) + Seq::new(y as nat, |j: int| (x, j as u8))).push(
                    (x, y),
                ) =~= board_cells(size, x as nat) + Seq::new(y as nat, |j: int| (x, j as u8)).push(
                    (x, y),
                ));
            }
            cells_insert(&mut empty, (x, y));
            y = y + 1;
        }
        assert(Seq::new(size as nat, |j: int| (x, j as u8)) =~= column(x as int, size));
        x = x + 1;
    }
    empty
}


/// Takes the cells of `body` out of an index that holds the whole board.
/// Succeeds exactly when the cells are all on the board and pairwise distinct;
/// the index then holds the rest of the board.
fn carve(free: &mut IndexSet<(u8, u8)>, body: &Vec<Coord>, size: u8) -> (r: bool)
    requires
        cells_of(*old(free)).no_duplicates(),
        forall|i: int|
            0 <= i < cells_of(*old(free)).len() ==> (#[trigger] cells_of(*old(free))[i]).0 < size
                && cells_of(*old(free))[i].1 < size,
        forall|c: (u8, u8)| #[trigger]
            cells_of(*old(free)).contains(c) <==> (c.0 < size && c.1 < size),
    ensures
        r <==> (body@.no_duplicates() && forall|i: int|
            0 <= i < body@.len() ==> in_board(#[trigger] body@[i], size as int)),
        r ==> cells_of(*final(free)).no_duplicates(),
        r ==> partitions(cells_of(*final(free)), body@, size),
        r ==> cells_of(*final(free)) == carved(cells_of(*old(free)), body@),
{
    let mut i: usize = 0;
    while i < body.len()
        invariant
            i <= body@.len(),
            cells_of(*free).no_duplicates(),
            body@.take(i as int).no_duplicates(),
            forall|j: int| 0 <= j < i ==> in_board(#[trigger] body@[j], size as int),
            partitions(cells_of(*free), body@.take(i as int), size),
            cells_of(*free) == carved(cells_of(*old(free)), body@.take(i as int)),
        decreases body@.len() - i,
    {
        let c = body[i];
        let ghost before = cells_of(*free);
        let ghost prefix = body@.take(i as int);
        assert(body@.take(i + 1) == prefix.push(c));
        assert(body@.take(i + 1).drop_last() == prefix);
        let present = cells_remove(free, (c.x, c.y));
        if !present {
            proof {
                if in_board(c, size as int) {
                    assert(prefix.contains(c));
                    let j = choose|j: int| 0 <= j < prefix.len() && prefix[j] == c;
                    assert(body@[j] == body@[i as int]);
                }
            }
            return false;
        }
        proof {
            let k = before.index_of(key(c));
            assert(before[k] == key(c));
            lemma_swap_out(before, k);
            assert(in_board(c, size as int));
            let after = prefix.push(c);
            assert forall|a: Coord| #[trigger] after.contains(a) <==> (prefix.contains(a) || a == c) by {
                if after.contains(a) {
                    let j = choose|j: int| 0 <= j < after.len() && after[j] == a;
                    if j < prefix.len() {
                        assert(prefix[j] == a);
                    }
                }
                if prefix.contains(a) {
                    let j = choose|j: int| 0 <= j < prefix.len() && prefix[j] == a;
                    assert(after[j] == a);
                }
                if a == c {
                    assert(after[prefix.len() as int] == a);
                }
            }
            assert(!prefix.contains(c));
            assert forall|a: int, b: int| 0 <= a < after.len() && 0 <= b < after.len() && a != b
                implies after[a] != after[b] by {
                if a == prefix.len() {
                    assert(after[b] == prefix[b]);
                } else if b == prefix.len() {
                    assert(after[a] == prefix[a]);
                }
            }
        }
        i = i + 1;
    }
    assert(body@.take(body@.len() as int) == body@);
    true
}

impl Snake {
    /// The invariant of the game: the body and the free cells split the board.
    pub open spec fn wf(&self) -> bool {
        self@.valid()
    }

    /// A game on a board of side `size` whose food is drawn from a generator
    /// seeded with `seed`. The snake is two cells long at the middle of the
    /// row above the centre, heading right.
    pub fn new(seed: u64, size: u8) -> (r: Snake)
        requires
            2 <= size,
        ensures
            r.wf(),
            r@.size == size,
            r@.heading == Direction::Right,
            r@.body == seq![
                Coord { x: (size / 2) as u8, y: (size / 2 - 1) as u8 },
                Coord { x: (size / 2 - 1) as u8, y: (size / 2 - 1) as u8 },
            ],
            r@.free == carved(board_cells(size, size as nat), r@.body),
            r@.is_free(r@.food),
    {
        let snake_first = Coord { x: size / 2, y: size / 2 - 1 };
        let snake_second = Coord { x: size / 2 - 1, y: size / 2 - 1 };
        let body = vec![snake_first, snake_second];
        match Snake::from_body(seed, size, body, Direction::Right) {
            Some(s) => {
                proof {
                    let c = Coord { x: (size / 2) as u8, y: (size / 2) as u8 };
                    assert(in_board(c, size as int));
                    assert(s@.body[0] != c && s@.body[1] != c);
                    assert(!s@.body.contains(c));
                    assert(s@.free.contains(key(c)));
                }
                s
            },
            None => {
                proof {
                    assert(body@[0] != body@[1]);
                    assert(false);
                }
                Snake::from_body(seed, size, Vec::new(), Direction::Right).unwrap()
            }
        }
    }

    /// A game with the given body (head first) and heading. It is `None`
    /// exactly when the board is smaller than 2, the heading is `Center`, or
    /// the body is empty, leaves the board or repeats a cell. The food is drawn
    /// among the free cells; where there are none it is put on the head.
    pub fn from_body(seed: u64, size: u8, body: Vec<Coord>, heading: Direction) -> (r: Option<
        Snake,
    >)
        ensures
            r is Some <==> (2 <= size && heading != Direction::Center && 1 <= body@.len()
                && body@.no_duplicates() && forall|i: int|
                0 <= i < body@.len() ==> in_board(#[trigger] body@[i], size as int)),
            r matches Some(s) ==> {
                &&& s.wf()
                &&& s@.size == size
                &&& s@.heading == heading
                &&& s@.body == body@
                &&& s@.free == carved(board_cells(size, size as nat), body@)
                &&& s@.free.len() > 0 ==> s@.is_free(s@.food)
                &&& s@.free.len() == 0 ==> s@.food == body@[0]
            },
    {
        if size < 2 || heading == Direction::Center || body.len() == 0 {
            return None;
        }
        let mut empty = full_board(size);
        if !carve(&mut empty, &body, size) {
            return None;
        }
        let mut snake: VecDeque<Coord> = VecDeque::new();
        let mut i: usize = 0;
        while i < body.len()
            invariant
                i <= body@.len(),
                snake@ == body@.take(i as int),
            decreases body@.len() - i,
        {
            snake.push_back(body[i]);
            assert(body@.take(i + 1) == body@.take(i as int).push(body@[i as int]));
            i = i + 1;
        }
        assert(body@.take(body@.len() as int) == body@);
        let head = body[0];
        let mut s = Snake { snake, empty, dir: heading, food: head, size, rng: seeded(seed) };
        s.gen_food();
        Some(s)
    }

    /// Draws the food among the free cells; `false` when there are none.
    fn gen_food(&mut self) -> (r: bool)
        requires
            old(self).wf(),
        ensures
            final(self).wf(),
            final(self)@.body == old(self)@.body,
            final(self)@.free == old(self)@.free,
            final(self)@.heading == old(self)@.heading,
            final(self)@.size == old(self)@.size,
            r == (old(self)@.free.len() > 0),
            r ==> final(self)@.is_free(final(self)@.food),
            !r ==> final(self)@.food == old(self)@.food,
    {
        let n = cells_len(&self.empty);
        if n == 0 {
            return false;
        }
        let i = draw_below(&mut self.rng, n);
        match cells_get(&self.empty, i) {
            Some(c) => {
                self.food = Coord { x: c.0, y: c.1 };
                assert(key(self.food) == c);
                assert(self@.free[i as int] == c);
                true
            },
            None => false,
        }
    }

    /// Plays one step with requested direction `dir` and tells whether the
    /// game goes on. A request to the side replaces the heading; a reversal
    /// or `Center` keeps it. The step ends the game, with the body and free
    /// cells untouched, where the head would leave the board or enter the
    /// body (its tail included). Otherwise the head moves; on the food the
    /// snake grows and new food is drawn, which ends the game when no cell is
    /// free; elsewhere the tail cell is freed.
    pub fn turn(&mut self, dir: Direction) -> (r: bool)
        requires
            old(self).wf(),
        ensures
            final(self).wf(),
            partitions(final(self)@.free, final(self)@.body, final(self)@.size),
            final(self)@.size == old(self)@.size,
            final(self)@.heading == resolve(old(self)@.heading, dir),
            final(self)@.body == body_after(old(self)@, dir),
            final(self)@.free == free_after(old(self)@, dir),
            r == (moves(old(self)@, dir) && (eats(old(self)@, dir) ==> final(self)@.free.len()
                > 0)),
            r && eats(old(self)@, dir) ==> final(self)@.is_free(final(self)@.food),
            !(r && eats(old(self)@, dir)) ==> final(self)@.food == old(self)@.food,
            r ==> final(self)@.body.len() == old(self)@.body.len() + if eats(old(self)@, dir) {
                1int
            } else {
                0int
            },
    {
        let ghost m = self@;
        match self.dir {
            Direction::Left | Direction::Right => {
                if dir == Direction::Up || dir == Direction::Down {
                    self.dir = dir;
                }
            },
            Direction::Up | Direction::Down => {
                if dir == Direction::Left || dir == Direction::Right {
                    self.dir = dir;
                }
            },
            Direction::Center => {},
        }
        let curr_pos = self.snake[0];
        let at_wall = match self.dir {
            Direction::Left => curr_pos.x == 0,
            Direction::Right => curr_pos.x == self.size - 1,
            Direction::Up => curr_pos.y == 0,
            Direction::Down => curr_pos.y == self.size - 1,
            Direction::Center => true,
        };
        if at_wall {
            return false;
        }
        let new_head = match curr_pos.add(self.dir) {
            Ok(c) => c,
            Err(_) => {
                return false;
            },
        };
        assert(projected(m, dir) == Some(new_head));
        let k = (new_head.x, new_head.y);
        if !cells_contains(&self.empty, k) {
            return false;
        }
        proof {
            lemma_grow_valid(self@, new_head);
        }
        self.snake.push_front(new_head);
        cells_remove(&mut self.empty, k);
        if new_head != self.food {
            proof {
                lemma_shrink_valid(self@);
            }
            match self.snake.pop_back() {
                Some(tail) => {
                    cells_insert(&mut self.empty, (tail.x, tail.y));
                },
                None => {},
            }
            true
        } else {
            self.gen_food()
        }
    }

    /// The number of cells of the body.
    pub fn length(&self) -> (r: usize)
        ensures
            r == self@.body.len(),
    {
        self.snake.len()
    }

    /// The current heading.
    pub fn current_direction(&self) -> (r: Direction)
        ensures
            r == self@.heading,
    {
        self.dir
    }

    /// The side of the board.
    pub fn size(&self) -> (r: u8)
        ensures
            r == self@.size,
    {
        self.size
    }

    /// The head cell.
    pub fn head(&self) -> (r: Coord)
        requires
            self.wf(),
        ensures
            r == self@.head(),
    {
        self.snake[0]
    }

    /// The body, head first.
    pub fn body(&self) -> (r: Vec<Coord>)
        ensures
            r@ == self@.body,
    {
        let mut out: Vec<Coord> = Vec::new();
        let mut i: usize = 0;
        while i < self.snake.len()
            invariant
                i <= self@.body.len(),
                out@ == self@.body.take(i as int),
            decreases self@.body.len() - i,
        {
            out.push(self.snake[i]);
            assert(self@.body.take(i + 1) == self@.body.take(i as int).push(self@.body[i as int]));
            i = i + 1;
        }
        assert(self@.body.take(self@.body.len() as int) == self@.body);
        out
    }

    /// The food cell.
    pub fn food_cell(&self) -> (r: Coord)
        ensures
            r == self@.food,
    {
        self.food
    }

    /// Puts the food on a cell of the board.
    pub fn set_food(&mut self, c: Coord)
        requires
            old(self).wf(),
            in_board(c, old(self)@.size as int),
        ensures
            final(self).wf(),
            final(self)@.food == c,
            final(self)@.body == old(self)@.body,
            final(self)@.free == old(self)@.free,
            final(self)@.heading == old(self)@.heading,
            final(self)@.size == old(self)@.size,
    {
        self.food = c;
    }

    /// Whether the head is on the food.
    pub fn found_food(&self) -> (r: bool)
        requires
            self.wf(),
        ensures
            r == (self@.head() == self@.food),
    {
        self.snake[0] == self.food
    }

    /// Whether `c` is a free cell: on the board and not part of the body.
    pub fn is_free(&self, c: Coord) -> (r: bool)
        requires
            self.wf(),
        ensures
            r == (in_board(c, self@.size as int) && !self@.body.contains(c)),
            r == self@.is_free(c),
    {
        if !c.in_bounds(self.size) {
            proof {
                if self@.free.contains(key(c)) {
                    let i = choose|i: int| 0 <= i < self@.free.len() && self@.free[i] == key(c);
                    assert(self@.free[i].0 < self@.size);
                }
            }
            return false;
        }
        cells_contains(&self.empty, (c.x, c.y))
    }

    /// The distances from the head to the edges of the board.
    pub fn walls(&self) -> (r: Vec<u8>)
        requires
            self.wf(),
        ensures
            r@.len() == 8,
            forall|k: int| 0 <= k < 8 ==> #[trigger] r@[k] == wall_gaps(self@.head(), self@.size)[k],
    {
        wall_distances(self.snake[0], self.size)
    }

    /// The distances from the head to the body along the eight rays.
    pub fn snake(&self) -> (r: Vec<u8>)
        requires
            self.wf(),
        ensures
            r@.len() == 8,
            forall|k: int|
                0 <= k < 8 ==> #[trigger] r@[k] == ray_hit(
                    self@.free,
                    self@.size,
                    self@.head().x as int,
                    self@.head().y as int,
                    ray(k),
                    1,
                ),
    {
        let head = self.snake[0];
        let mut snake: Vec<u8> = Vec::with_capacity(8);
        snake.push(ray_distance(&self.empty, self.size, head, Direction::Left, Direction::Center));
        snake.push(ray_distance(&self.empty, self.size, head, Direction::Up, Direction::Left));
        snake.push(ray_distance(&self.empty, self.size, head, Direction::Up, Direction::Center));
        snake.push(ray_distance(&self.empty, self.size, head, Direction::Up, Direction::Right));
        snake.push(ray_distance(&self.empty, self.size, head, Direction::Right, Direction::Center));
        snake.push(ray_distance(&self.empty, self.size, head, Direction::Down, Direction::Right));
        snake.push(ray_distance(&self.empty, self.size, head, Direction::Down, Direction::Center));
        snake.push(ray_distance(&self.empty, self.size, head, Direction::Down, Direction::Left));
        assert(pair_step(Direction::Up, Direction::Left) == ray(1));
        snake
    }

    /// The food signal of the head and the food.
    pub fn food(&self) -> (r: Vec<u8>)
        requires
            self.wf(),
        ensures
            r@.len() == 8,
            forall|k: int|
                0 <= k < 8 ==> #[trigger] r@[k] == food_signal(self@.head(), self@.food, self@.size)[k],
    {
        food_distances(self.snake[0], self.food, self.size)
    }
}

} // verus!
