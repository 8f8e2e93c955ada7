//! The geometric primitives: circle, directed segment, axis-aligned box,
//! and the two point tests.

use vstd::prelude::*;
use crate::vector::{Point2, pt_in_range, COORD_MAX};
use crate::frac::{FracPoint2, spec_frac_point};
use crate::intersect::{Intersect, Intersection, SpecIntersection};

verus! {

/// A circle given by its centre and radius; a radius of zero degenerates
/// to a point.
#[derive(Debug, Clone, Copy, PartialEq, Eq, Structural)]
pub struct Circle {
    pub pos: Point2,
    pub radius: i64,
}

/// A directed segment from `a` to `b`; zero-length segments are valid.
#[derive(Debug, Clone, Copy, PartialEq, Eq, Structural)]
pub struct Line {
    pub a: Point2,
    pub b: Point2,
}

/// An axis-aligned box given by its top-left and bottom-right corners,
/// with the vertical axis growing upward: `tl.x <= br.x` and `br.y <= tl.y`.
/// Zero-area boxes are permitted but contain no point.
#[derive(Debug, Clone, Copy, PartialEq, Eq, Structural)]
pub struct AABB2 {
    pub tl: Point2,
    pub br: Point2,
}

/// The box's corners are ordered: left of or at the right edge, and the
/// top at or above the bottom.
pub open spec fn aabb_wf(b: AABB2) -> bool {
    b.tl.x <= b.br.x && b.br.y <= b.tl.y
}

/// The circle's centre and radius are in coordinate range.
pub open spec fn circle_in_range(c: Circle) -> bool {
    pt_in_range(c.pos) && 0 <= c.radius <= COORD_MAX
}

/// Both segment endpoints are in coordinate range.
pub open spec fn line_in_range(l: Line) -> bool {
    pt_in_range(l.a) && pt_in_range(l.b)
}

/// Both box corners are in coordinate range.
pub open spec fn aabb_in_range(b: AABB2) -> bool {
    pt_in_range(b.tl) && pt_in_range(b.br)
}

impl Line {
    pub fn new(a: Point2, b: Point2) -> (l: Line)
        ensures
            l == (Line { a, b }),
    {
        Line { a, b }
    }
}

impl Circle {
    pub fn new(pos: Point2, radius: i64) -> (c: Circle)
        requires
            radius >= 0,
        ensures
            c == (Circle { pos, radius }),
    {
        Circle { pos, radius }
    }
}

impl AABB2 {
    pub fn new(tl: Point2, br: Point2) -> (b: AABB2)
        requires
            tl.x <= br.x,
            br.y <= tl.y,
        ensures
            b == (AABB2 { tl, br }),
            aabb_wf(b),
    {
        AABB2 { tl, br }
    }
}

/// The squared Euclidean distance between two points.
pub open spec fn dist_sq(p: Point2, q: Point2) -> int {
    (p.x - q.x) * (p.x - q.x) + (p.y - q.y) * (p.y - q.y)
}

/// The point lies strictly inside the box on both axes.
pub open spec fn aabb_contains_pt(b: AABB2, p: Point2) -> bool {
    p.x > b.tl.x && p.x < b.br.x && p.y < b.tl.y && p.y > b.br.y
}

/// The point lies exactly on the box's boundary: on a vertical edge
/// with its height within the edge, or on a horizontal edge with its
/// width within the edge.
pub open spec fn aabb_touches_pt(b: AABB2, p: Point2) -> bool {
    ||| (p.x == b.tl.x || p.x == b.br.x) && b.br.y <= p.y <= b.tl.y
    ||| (p.y == b.tl.y || p.y == b.br.y) && b.tl.x <= p.x <= b.br.x
}

/// The exact box-versus-point result: strict containment, edge touch,
/// or apart.
pub open spec fn spec_aabb_pt_intersection(b: AABB2, p: Point2) -> SpecIntersection {
    if aabb_contains_pt(b, p) {
        SpecIntersection::Inside
    } else if aabb_touches_pt(b, p) {
        SpecIntersection::Intersects(spec_frac_point(p.x as int, 1, p.y as int, 1), None)
    } else {
        SpecIntersection::Outside
    }
}

impl Intersect<Point2> for AABB2 {
    open spec fn intersection_spec(&self, other: &Point2) -> SpecIntersection {
        spec_aabb_pt_intersection(*self, *other)
    }

    open spec fn intersect_req(&self, other: &Point2) -> bool {
        true
    }

    open spec fn intersects_spec(&self, other: &Point2) -> bool {
        aabb_touches_pt(*self, *other)
    }

    open spec fn contains_spec(&self, other: &Point2) -> bool {
        aabb_contains_pt(*self, *other)
    }

    fn intersection(&self, other: &Point2) -> (r: Intersection) {
        if self.contains(other) {
            return Intersection::Inside;
        } else if self.intersects(other) {
            return Intersection::Intersects(FracPoint2::from_point(other), None);
        }
        Intersection::Outside
    }

    fn intersects(&self, other: &Point2) -> (r: bool) {
        ((other.x == self.tl.x || other.x == self.br.x) && self.br.y <= other.y && other.y
            <= self.tl.y) || ((other.y == self.tl.y || other.y == self.br.y) && self.tl.x
            <= other.x && other.x <= self.br.x)
    }

    fn contains(&self, other: &Point2) -> (r: bool) {
        other.x > self.tl.x && other.x < self.br.x && other.y < self.tl.y && other.y > self.br.y
    }
}

/// The axis-wise circle-versus-point result the engine uses: each
/// coordinate delta is compared against the radius on its own axis.
/// This is deliberately axis-aligned rather than Euclidean.
pub open spec fn spec_circle_pt_intersection(c: Circle, p: Point2) -> SpecIntersection {
    let dx = p.x - c.pos.x;
    let dy = p.y - c.pos.y;
    let ax = if dx >= 0 { dx } else { -dx };
    let ay = if dy >= 0 { dy } else { -dy };
    if ax < c.radius && ay < c.radius {
        SpecIntersection::Inside
    } else if ax > c.radius && ay > c.radius {
        SpecIntersection::Outside
    } else {
        SpecIntersection::Intersects(spec_frac_point(p.x as int, 1, p.y as int, 1), None)
    }
}

/// The point's deltas both sit exactly on the radius.
pub open spec fn spec_circle_pt_touches(c: Circle, p: Point2) -> bool {
    let dx = p.x - c.pos.x;
    let dy = p.y - c.pos.y;
    let ax = if dx >= 0 { dx } else { -dx };
    let ay = if dy >= 0 { dy } else { -dy };
    ax == c.radius && ay == c.radius
}

impl Intersect<Point2> for Circle {
    open spec fn intersection_spec(&self, other: &Point2) -> SpecIntersection {
        spec_circle_pt_intersection(*self, *other)
    }

    open spec fn intersect_req(&self, other: &Point2) -> bool {
        circle_in_range(*self) && pt_in_range(*other)
    }

    open spec fn intersects_spec(&self, other: &Point2) -> bool {
        spec_circle_pt_touches(*self, *other)
    }

    open spec fn contains_spec(&self, other: &Point2) -> bool {
        spec_circle_pt_intersection(*self, *other) is Inside
    }

    fn intersection(&self, other: &Point2) -> (r: Intersection) {
        let dx = other.x - self.pos.x;
        let dy = other.y - self.pos.y;
        let ax = if dx >= 0 { dx } else { -dx };
        let ay = if dy >= 0 { dy } else { -dy };
        if ax < self.radius && ay < self.radius {
            Intersection::Inside
        } else if ax > self.radius && ay > self.radius {
            Intersection::Outside
        } else {
            Intersection::Intersects(FracPoint2::from_point(other), None)
        }
    }

    fn intersects(&self, other: &Point2) -> (r: bool) {
        let dx = other.x - self.pos.x;
        let dy = other.y - self.pos.y;
        let ax = if dx >= 0 { dx } else { -dx };
        let ay = if dy >= 0 { dy } else { -dy };
        ax == self.radius && ay == self.radius
    }

    fn contains(&self, other: &Point2) -> (r: bool) {
        let r = self.intersection(other);
        r.inside()
    }
}

} // verus!
