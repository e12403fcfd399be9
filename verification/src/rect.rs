//! Axis-aligned rectangles that stand for rooms.

use vstd::prelude::*;

verus! {

/// Midpoint of two coordinates, rounded toward zero.
pub open spec fn midpoint(a: int, b: int) -> int {
    if a + b >= 0 {
        (a + b) / 2
    } else {
        -((-(a + b)) / 2)
    }
}

/// A rectangle with corners `(x1, y1)` and `(x2, y2)`.
///
/// As a room it keeps its left column and top row as wall: its interior is
/// the tiles with `x1 < x <= x2` and `y1 < y <= y2`.
#[derive(Clone, Copy, Debug, PartialEq, Eq, Structural)]
pub struct Rect {
    pub x1: i32,
    pub y1: i32,
    pub x2: i32,
    pub y2: i32,
}

impl Rect {
    /// A rectangle is non-degenerate when it spans at least one tile each way.
    pub open spec fn non_degenerate(&self) -> bool {
        self.x1 < self.x2 && self.y1 < self.y2
    }

    /// Inclusive-bounds overlap: two rectangles that merely touch do overlap.
    pub open spec fn overlaps(&self, other: Rect) -> bool {
        self.x1 <= other.x2 && self.x2 >= other.x1 && self.y1 <= other.y2 && self.y2 >= other.y1
    }

    /// Whether `(x, y)` is one of the interior tiles.
    pub open spec fn contains(&self, x: int, y: int) -> bool {
        self.x1 < x <= self.x2 && self.y1 < y <= self.y2
    }

    /// The column of the center.
    pub open spec fn center_x(&self) -> int {
        midpoint(self.x1 as int, self.x2 as int)
    }

    /// The row of the center.
    pub open spec fn center_y(&self) -> int {
        midpoint(self.y1 as int, self.y2 as int)
    }

    /// The rectangle with top-left corner `(x, y)`, `w` wide and `h` high.
    pub fn new(x: i32, y: i32, w: i32, h: i32) -> (r: Rect)
        requires
            i32::MIN <= x + w <= i32::MAX,
            i32::MIN <= y + h <= i32::MAX,
        ensures
            r.x1 == x,
            r.y1 == y,
            r.x2 == x + w,
            r.y2 == y + h,
    {
        Rect { x1: x, y1: y, x2: x + w, y2: y + h }
    }

    /// True when the two rectangles overlap, bounds included.
    pub fn intersect(&self, other: &Rect) -> (hit: bool)
        ensures
            hit == self.overlaps(*other),
    {
        self.x1 <= other.x2 && self.x2 >= other.x1 && self.y1 <= other.y2 && self.y2 >= other.y1
    }

    /// The midpoint of the rectangle, each coordinate rounded toward zero.
    pub fn center(&self) -> (c: (i32, i32))
        ensures
            c.0 == self.center_x(),
            c.1 == self.center_y(),
    {
        (mid(self.x1, self.x2), mid(self.y1, self.y2))
    }
}

fn mid(a: i32, b: i32) -> (m: i32)
    ensures
        m == midpoint(a as int, b as int),
{
    let s: i64 = a as i64 + b as i64;
    if s >= 0 {
        (s / 2) as i32
    } else {
        (-((-s) / 2)) as i32
    }
}

/// The center of a rectangle lies between its corners, and strictly inside
/// the interior once the rectangle spans two tiles each way.
pub proof fn lemma_center_inside(r: Rect)
    requires
        r.x1 + 2 <= r.x2,
        r.y1 + 2 <= r.y2,
    ensures
        r.contains(r.center_x(), r.center_y()),
        r.x1 < r.center_x() < r.x2,
        r.y1 < r.center_y() < r.y2,
{
}

} // verus!
