use vstd::prelude::*;

use crate::position::Point;

verus! {

/// One of the four axis-aligned headings.
#[derive(Eq, PartialEq, Structural, Copy, Clone, Debug)]
pub enum Direction {
    Up,
    Right,
    Down,
    Left,
}

impl Direction {
    /// One step ahead along this heading; the vertical axis grows downward.
    pub fn go_forward(&self, p: Point) -> (r: Point)
        requires
            (*self == Direction::Up ==> p.y > i16::MIN),
            (*self == Direction::Right ==> p.x < i16::MAX),
            (*self == Direction::Down ==> p.y < i16::MAX),
            (*self == Direction::Left ==> p.x > i16::MIN),
        ensures
            (match *self {
                Direction::Up => r.x == p.x && r.y == p.y - 1,
                Direction::Right => r.x == p.x + 1 && r.y == p.y,
                Direction::Down => r.x == p.x && r.y == p.y + 1,
                Direction::Left => r.x == p.x - 1 && r.y == p.y,
            }),
    {
        match *self {
            Direction::Up => Point { x: p.x, y: p.y - 1 },
            Direction::Right => Point { x: p.x + 1, y: p.y },
            Direction::Down => Point { x: p.x, y: p.y + 1 },
            Direction::Left => Point { x: p.x - 1, y: p.y },
        }
    }

    /// One step back: the exact inverse of `go_forward`.
    pub fn go_back(&self, p: Point) -> (r: Point)
        requires
            (*self == Direction::Up ==> p.y < i16::MAX),
            (*self == Direction::Right ==> p.x > i16::MIN),
            (*self == Direction::Down ==> p.y > i16::MIN),
            (*self == Direction::Left ==> p.x < i16::MAX),
        ensures
            (match *self {
                Direction::Up => r.x == p.x && r.y == p.y + 1,
                Direction::Right => r.x == p.x - 1 && r.y == p.y,
                Direction::Down => r.x == p.x && r.y == p.y - 1,
                Direction::Left => r.x == p.x + 1 && r.y == p.y,
            }),
    {
        match *self {
            Direction::Up => Point { x: p.x, y: p.y + 1 },
            Direction::Right => Point { x: p.x - 1, y: p.y },
            Direction::Down => Point { x: p.x, y: p.y - 1 },
            Direction::Left => Point { x: p.x + 1, y: p.y },
        }
    }

    /// The next heading a quarter turn clockwise.
    pub fn next_clockwise(&self) -> (r: Direction)
        ensures
            r == self.spec_next_clockwise(),
    {
        match *self {
            Direction::Up => Direction::Right,
            Direction::Right => Direction::Down,
            Direction::Down => Direction::Left,
            Direction::Left => Direction::Up,
        }
    }

    pub open spec fn spec_next_clockwise(self) -> Direction {
        match self {
            Direction::Up => Direction::Right,
            Direction::Right => Direction::Down,
            Direction::Down => Direction::Left,
            Direction::Left => Direction::Up,
        }
    }

    /// How many clockwise quarter turns lead from `self` to `to`: at most
    /// three, and zero only when the headings already agree.
    pub open spec fn spec_turns_to(self, to: Direction) -> int {
        if self == to {
            0
        } else if self.spec_next_clockwise() == to {
            1
        } else if self.spec_next_clockwise().spec_next_clockwise() == to {
            2
        } else {
            3
        }
    }
}

} // verus!
