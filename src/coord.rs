use vstd::prelude::*;

verus! {

/// Choice for direction on the board. `Center` means "no new input".
#[derive(Clone, Copy, Debug, PartialEq, Eq, Structural)]
pub enum Direction {
    Up,
    Down,
    Left,
    Right,
    Center,
}

/// A cell of the board; `y` grows downwards.
#[derive(Clone, Copy, Debug, PartialEq, Eq, Structural, Hash)]
pub struct Coord {
    pub x: u8,
    pub y: u8,
}

/// The cell lies on a square board of side `size`.
pub open spec fn in_board(c: Coord, size: int) -> bool {
    c.x < size && c.y < size
}

/// The unit step of a direction, as a change of `x` and of `y`.
pub open spec fn delta(d: Direction) -> (int, int) {
    match d {
        Direction::Up => (0, -1),
        Direction::Down => (0, 1),
        Direction::Left => (-1, 0),
        Direction::Right => (1, 0),
        Direction::Center => (0, 0),
    }
}

/// The cell one step from `c` in direction `d`, or `None` where that step
/// would go below zero on either axis.
pub open spec fn shifted(c: Coord, d: Direction) -> Option<Coord> {
    let nx = c.x + delta(d).0;
    let ny = c.y + delta(d).1;
    if nx < 0 || ny < 0 {
        None
    } else {
        Some(Coord { x: nx as u8, y: ny as u8 })
    }
}

impl Coord {
    pub fn in_bounds(self, size: u8) -> (r: bool)
        ensures
            r == in_board(self, size as int),
    {
        self.x < size && self.y < size
    }

    /// Moves one cell in `dir`. Fails where the move would leave the board
    /// through its top row or its left column.
    pub fn add(self, dir: Direction) -> (r: Result<Coord, &'static str>)
        requires
            dir == Direction::Down ==> self.y < 255,
            dir == Direction::Right ==> self.x < 255,
        ensures
            r is Ok <==> shifted(self, dir) is Some,
            r matches Ok(c) ==> shifted(self, dir) == Some(c),
    {
        match dir {
            Direction::Up => {
                if self.y == 0 {
                    Err("Already at top row")
                } else {
                    Ok(Coord { x: self.x, y: self.y - 1 })
                }
            },
            Direction::Down => Ok(Coord { x: self.x, y: self.y + 1 }),
            Direction::Left => {
                if self.x == 0 {
                    Err("Already at left column")
                } else {
                    Ok(Coord { x: self.x - 1, y: self.y })
                }
            },
            Direction::Right => Ok(Coord { x: self.x + 1, y: self.y }),
            Direction::Center => Ok(self),
        }
    }
}

} // verus!
