//! Integer points, positions and rectangles.
use vstd::prelude::*;

verus! {

/// A point or a size in an object's local frame.
#[derive(Clone, Copy, Debug, PartialEq, Eq, Structural)]
pub struct Point {
    pub x: i32,
    pub y: i32,
}

/// An object's world position; `z` is its depth (drawing order), not a spatial axis.
#[derive(Clone, Copy, Debug, PartialEq, Eq, Structural)]
pub struct Position {
    pub x: i32,
    pub y: i32,
    pub z: i32,
}

/// An axis-aligned rectangle given by its minimum and maximum corners.
#[derive(Clone, Copy, Debug, PartialEq, Eq, Structural)]
pub struct Rect {
    pub min: Point,
    pub max: Point,
}

/// An axis-aligned rectangle in world coordinates.
#[derive(Clone, Copy, Debug, PartialEq, Eq, Structural)]
pub struct WorldRect {
    pub min_x: i64,
    pub min_y: i64,
    pub max_x: i64,
    pub max_y: i64,
}

pub open spec fn min_i(a: int, b: int) -> int {
    if a <= b { a } else { b }
}

pub open spec fn max_i(a: int, b: int) -> int {
    if a >= b { a } else { b }
}

impl Point {
    pub fn new(x: i32, y: i32) -> (r: Point)
        ensures
            r.x == x,
            r.y == y,
    {
        Point { x, y }
    }
}

impl Position {
    pub fn new(x: i32, y: i32, z: i32) -> (r: Position)
        ensures
            r.x == x,
            r.y == y,
            r.z == z,
    {
        Position { x, y, z }
    }
}

impl Rect {
    /// Corners ordered on both axes.
    pub open spec fn wf(self) -> bool {
        self.min.x <= self.max.x && self.min.y <= self.max.y
    }

    pub open spec fn has_positive_area(self) -> bool {
        self.min.x < self.max.x && self.min.y < self.max.y
    }

    /// The rectangle spanned by two opposite corners, in either order.
    pub fn new(x0: i32, y0: i32, x1: i32, y1: i32) -> (r: Rect)
        ensures
            r.wf(),
            r.min.x == min_i(x0 as int, x1 as int),
            r.min.y == min_i(y0 as int, y1 as int),
            r.max.x == max_i(x0 as int, x1 as int),
            r.max.y == max_i(y0 as int, y1 as int),
    {
        let (min_x, max_x) = if x0 <= x1 { (x0, x1) } else { (x1, x0) };
        let (min_y, max_y) = if y0 <= y1 { (y0, y1) } else { (y1, y0) };
        Rect { min: Point { x: min_x, y: min_y }, max: Point { x: max_x, y: max_y } }
    }
}

impl WorldRect {
    /// The two rectangles share interior: their intersection has positive width and height.
    /// Rectangles that only touch along an edge or at a corner do not overlap.
    pub open spec fn overlaps(self, other: WorldRect) -> bool {
        &&& max_i(self.min_x as int, other.min_x as int) < min_i(self.max_x as int, other.max_x as int)
        &&& max_i(self.min_y as int, other.min_y as int) < min_i(self.max_y as int, other.max_y as int)
    }

    /// `other` lies inside this rectangle or on its boundary.
    pub open spec fn encloses(self, other: WorldRect) -> bool {
        &&& self.min_x <= other.min_x
        &&& self.min_y <= other.min_y
        &&& self.max_x >= other.max_x
        &&& self.max_y >= other.max_y
    }

    /// The point lies inside this rectangle or on its boundary.
    pub open spec fn holds_point(self, p: Point) -> bool {
        self.min_x <= p.x <= self.max_x && self.min_y <= p.y <= self.max_y
    }

    /// Whether the intersection of the two rectangles is non-empty.
    pub fn intersects(&self, other: &WorldRect) -> (r: bool)
        ensures
            r == self.overlaps(*other),
    {
        let lo_x = if self.min_x >= other.min_x { self.min_x } else { other.min_x };
        let hi_x = if self.max_x <= other.max_x { self.max_x } else { other.max_x };
        let lo_y = if self.min_y >= other.min_y { self.min_y } else { other.min_y };
        let hi_y = if self.max_y <= other.max_y { self.max_y } else { other.max_y };
        lo_x < hi_x && lo_y < hi_y
    }

    /// Whether `other` lies inside this rectangle or on its boundary.
    pub fn contains_rect(&self, other: &WorldRect) -> (r: bool)
        ensures
            r == self.encloses(*other),
    {
        self.min_x <= other.min_x && self.min_y <= other.min_y && self.max_x >= other.max_x
            && self.max_y >= other.max_y
    }

    /// Whether the point lies inside this rectangle or on its boundary.
    pub fn contains(&self, p: Point) -> (r: bool)
        ensures
            r == self.holds_point(p),
    {
        self.min_x <= p.x as i64 && p.x as i64 <= self.max_x && self.min_y <= p.y as i64
            && p.y as i64 <= self.max_y
    }
}

} // verus!
