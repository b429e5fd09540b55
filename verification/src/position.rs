use vstd::prelude::*;

verus! {

/// The coordinate type of one dot: a signed, fixed-width integer.
pub type IndexType = i16;

/// The larger of two mathematical integers.
pub open spec fn imax(a: int, b: int) -> int {
    if a > b {
        a
    } else {
        b
    }
}

/// The smaller of two mathematical integers.
pub open spec fn imin(a: int, b: int) -> int {
    if a < b {
        a
    } else {
        b
    }
}

/// One addressable sub-pixel in world or sprite coordinate space.
/// Two points are equal iff both coordinates match.
#[derive(Hash, Eq, PartialEq, Structural, Copy, Clone, Debug)]
pub struct Point {
    pub x: IndexType,
    pub y: IndexType,
}

impl Point {
    pub fn new(x: IndexType, y: IndexType) -> (p: Point)
        ensures
            p.x == x,
            p.y == y,
    {
        Point { x, y }
    }

    pub fn move_to(&mut self, x: IndexType, y: IndexType)
        ensures
            final(self).x == x,
            final(self).y == y,
    {
        self.x = x;
        self.y = y;
    }
}

/// Conversion of a coordinate pair into a `Point`.
pub trait AsPoint {
    fn as_point(&self) -> (p: Point);
}

impl AsPoint for (IndexType, IndexType) {
    fn as_point(&self) -> (p: Point)
        ensures
            p.x == self.0,
            p.y == self.1,
    {
        Point { x: self.0, y: self.1 }
    }
}

} // verus!
