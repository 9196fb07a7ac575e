//! Points and axis-aligned rectangles with integer coordinates.
//!
//! Positions in a grid are `usize` pairs of a row and a column. Geographic
//! positions are `i32` pairs in a fixed-point unit of the caller's choice,
//! for instance a ten-millionth of a degree.

use vstd::prelude::*;

verus! {

/// A point of the plane.
#[derive(Clone, Copy, Debug, PartialEq, Eq)]
pub struct Coordinate<T> {
    pub x: T,
    pub y: T,
}

/// An axis-aligned rectangle, given by its smallest and its largest corner.
/// Both corners belong to the rectangle, so a single point is a rectangle too.
#[derive(Clone, Copy, Debug, PartialEq, Eq)]
pub struct Rect<T> {
    pub min: Coordinate<T>,
    pub max: Coordinate<T>,
}

impl Rect<usize> {
    /// The corners are in order on both axes.
    pub open spec fn wf(self) -> bool {
        self.min.x <= self.max.x && self.min.y <= self.max.y
    }

    /// The point `(x, y)` lies in the rectangle.
    pub open spec fn contains(self, x: int, y: int) -> bool {
        self.min.x <= x <= self.max.x && self.min.y <= y <= self.max.y
    }

    /// The rectangle spanned by two opposite corners, given in any order.
    pub fn new(c1: Coordinate<usize>, c2: Coordinate<usize>) -> (r: Self)
        ensures
            r.wf(),
            r.min.x == vstd::math::min(c1.x as int, c2.x as int),
            r.max.x == vstd::math::max(c1.x as int, c2.x as int),
            r.min.y == vstd::math::min(c1.y as int, c2.y as int),
            r.max.y == vstd::math::max(c1.y as int, c2.y as int),
    {
        let (min_x, max_x) = if c1.x <= c2.x { (c1.x, c2.x) } else { (c2.x, c1.x) };
        let (min_y, max_y) = if c1.y <= c2.y { (c1.y, c2.y) } else { (c2.y, c1.y) };
        Rect { min: Coordinate { x: min_x, y: min_y }, max: Coordinate { x: max_x, y: max_y } }
    }

    /// The smallest corner.
    pub fn min(&self) -> (c: Coordinate<usize>)
        ensures
            c == self.min,
    {
        self.min
    }

    /// The largest corner.
    pub fn max(&self) -> (c: Coordinate<usize>)
        ensures
            c == self.max,
    {
        self.max
    }
}

/// The distance along one axis from the position `k` to the range
/// `min..=max`; 0 inside the range.
pub open spec fn axis_dist(k: int, min: int, max: int) -> int {
    if k < min {
        min - k
    } else if k > max {
        k - max
    } else {
        0
    }
}

impl Rect<i32> {
    /// The corners are in order on both axes.
    pub open spec fn wf(self) -> bool {
        self.min.x <= self.max.x && self.min.y <= self.max.y
    }

    /// The two rectangles share a point; touching edges and corners count.
    pub open spec fn intersects(self, other: Rect<i32>) -> bool {
        &&& self.min.x <= other.max.x
        &&& other.min.x <= self.max.x
        &&& self.min.y <= other.max.y
        &&& other.min.y <= self.max.y
    }

    /// The square of the distance from the point `p` to the nearest point
    /// of the rectangle; 0 for a point inside.
    pub open spec fn dist_squared(self, p: Coordinate<i32>) -> int {
        let dx = axis_dist(p.x as int, self.min.x as int, self.max.x as int);
        let dy = axis_dist(p.y as int, self.min.y as int, self.max.y as int);
        dx * dx + dy * dy
    }

    /// `self` is the smallest rectangle that holds every rectangle of
    /// `rects`.
    pub open spec fn is_bounds_of(self, rects: Seq<Rect<i32>>) -> bool {
        &&& forall|i: int|
            0 <= i < rects.len() ==> {
                &&& self.min.x <= (#[trigger] rects[i]).min.x
                &&& self.min.y <= rects[i].min.y
                &&& rects[i].max.x <= self.max.x
                &&& rects[i].max.y <= self.max.y
            }
        &&& exists|i: int| 0 <= i < rects.len() && (#[trigger] rects[i]).min.x == self.min.x
        &&& exists|i: int| 0 <= i < rects.len() && (#[trigger] rects[i]).min.y == self.min.y
        &&& exists|i: int| 0 <= i < rects.len() && (#[trigger] rects[i]).max.x == self.max.x
        &&& exists|i: int| 0 <= i < rects.len() && (#[trigger] rects[i]).max.y == self.max.y
    }

    /// The rectangle spanned by two opposite corners, given in any order.
    pub fn new(c1: Coordinate<i32>, c2: Coordinate<i32>) -> (r: Self)
        ensures
            r.wf(),
            r.min.x == vstd::math::min(c1.x as int, c2.x as int),
            r.max.x == vstd::math::max(c1.x as int, c2.x as int),
            r.min.y == vstd::math::min(c1.y as int, c2.y as int),
            r.max.y == vstd::math::max(c1.y as int, c2.y as int),
    {
        let (min_x, max_x) = if c1.x <= c2.x { (c1.x, c2.x) } else { (c2.x, c1.x) };
        let (min_y, max_y) = if c1.y <= c2.y { (c1.y, c2.y) } else { (c2.y, c1.y) };
        Rect { min: Coordinate { x: min_x, y: min_y }, max: Coordinate { x: max_x, y: max_y } }
    }

    /// Tells whether the corners are in order on both axes.
    pub fn is_valid(&self) -> (r: bool)
        ensures
            r == self.wf(),
    {
        self.min.x <= self.max.x && self.min.y <= self.max.y
    }
}

} // verus!
