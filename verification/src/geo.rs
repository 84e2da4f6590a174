//! Simple geometry primitives.

use crate::sprites::Drawable;
use vstd::prelude::*;

verus! {

/// A tiny absolute position vector.
#[derive(Clone, Copy, Debug, Default, PartialEq, Eq, Structural)]
pub struct Point {
    pub x: usize,
    pub y: usize,
}

/// A tiny absolute rectangle based on two `Point`s.
#[derive(Clone, Copy, Debug, Default, PartialEq, Eq, Structural)]
pub struct Rect {
    pub p1: Point,
    pub p2: Point,
}

impl Point {
    /// Create a new point.
    pub fn new(x: usize, y: usize) -> (p: Point)
        ensures
            p.x == x,
            p.y == y,
    {
        Point { x, y }
    }

    /// Component-wise sum of two points.
    pub fn add(self, other: Point) -> (p: Point)
        requires
            self.x + other.x <= usize::MAX,
            self.y + other.y <= usize::MAX,
        ensures
            p.x == self.x + other.x,
            p.y == self.y + other.y,
    {
        Point::new(self.x + other.x, self.y + other.y)
    }

    /// Component-wise product of two points.
    pub fn mul(self, other: Point) -> (p: Point)
        requires
            self.x * other.x <= usize::MAX,
            self.y * other.y <= usize::MAX,
        ensures
            p.x == self.x * other.x,
            p.y == self.y * other.y,
    {
        Point::new(self.x * other.x, self.y * other.y)
    }
}

/// The rectangle as the half-open box `[p1.x, p2.x) x [p1.y, p2.y)` contains the point `(x, y)`.
pub open spec fn rect_contains(r: Rect, x: int, y: int) -> bool {
    r.p1.x <= x < r.p2.x && r.p1.y <= y < r.p2.y
}

/// A rectangle whose corners are ordered and which covers at least one pixel.
pub open spec fn rect_nonempty(r: Rect) -> bool {
    r.p1.x < r.p2.x && r.p1.y < r.p2.y
}

/// Two rectangles intersect when, on each axis, each one starts before the other one ends.
pub open spec fn rects_intersect(a: Rect, b: Rect) -> bool {
    &&& a.p2.y > b.p1.y
    &&& b.p2.y > a.p1.y
    &&& a.p2.x > b.p1.x
    &&& b.p2.x > a.p1.x
}

/// The rectangle placed at `p1` with the size of a drawable.
pub open spec fn drawable_rect(p1: Point, width: usize, height: usize) -> Rect {
    Rect {
        p1,
        p2: Point { x: (p1.x + width) as usize, y: (p1.y + height) as usize },
    }
}

impl Rect {
    /// Create a rectangle from two `Point`s.
    pub fn new(p1: Point, p2: Point) -> (r: Rect)
        ensures
            r.p1 == p1,
            r.p2 == p2,
    {
        Rect { p1, p2 }
    }

    /// Create a rectangle from a `Point` and a `Drawable`.
    pub fn from_drawable<D: Drawable>(p1: Point, drawable: &D) -> (r: Rect)
        requires
            p1.x + drawable.spec_width() <= usize::MAX,
            p1.y + drawable.spec_height() <= usize::MAX,
        ensures
            r == drawable_rect(p1, drawable.spec_width(), drawable.spec_height()),
    {
        let p2 = p1.add(Point::new(drawable.width(), drawable.height()));
        Rect { p1, p2 }
    }

    /// Test for intersections between two rectangles.
    ///
    /// Rectangles intersect when the geometry of either overlaps.
    pub fn intersects(&self, other: Rect) -> (b: bool)
        ensures
            b == rects_intersect(*self, other),
    {
        let (top1, right1, bottom1, left1) = self.get_bounds();
        let (top2, right2, bottom2, left2) = other.get_bounds();

        bottom1 > top2 && bottom2 > top1 && right1 > left2 && right2 > left1
    }

    /// Compute the bounding box for this rectangle.
    ///
    /// Returns a tuple of `(top, right, bottom, left)`, e.g. in CSS clockwise order.
    pub fn get_bounds(&self) -> (r: (usize, usize, usize, usize))
        ensures
            r == (self.p1.y, self.p2.x, self.p2.y, self.p1.x),
    {
        (self.p1.y, self.p2.x, self.p2.y, self.p1.x)
    }
}

/// Intersection does not depend on the order in which two rectangles are compared.
pub proof fn lemma_intersects_symmetric(a: Rect, b: Rect)
    ensures
        rects_intersect(a, b) == rects_intersect(b, a),
{
}

/// For rectangles that cover at least one pixel, intersecting means sharing a pixel.
pub proof fn lemma_intersects_iff_shared_pixel(a: Rect, b: Rect)
    requires
        rect_nonempty(a),
        rect_nonempty(b),
    ensures
        rects_intersect(a, b) <==> exists|x: int, y: int|
            rect_contains(a, x, y) && rect_contains(b, x, y),
{
    if rects_intersect(a, b) {
        let x: int = if a.p1.x < b.p1.x { b.p1.x as int } else { a.p1.x as int };
        let y: int = if a.p1.y < b.p1.y { b.p1.y as int } else { a.p1.y as int };
        assert(rect_contains(a, x, y) && rect_contains(b, x, y));
    }
}

/// Every rectangle that covers a pixel intersects itself.
pub proof fn lemma_nonempty_intersects_itself(r: Rect)
    requires
        rect_nonempty(r),
    ensures
        rects_intersect(r, r),
{
}

} // verus!
