//! Boolean collision tests between moving shapes: the shapes describe
//! extents, and the caller passes each shape's current position.

use vstd::prelude::*;
use crate::vector::{Point2, pt_in_range, lemma_mul_le, COORD_MAX, VEC_MAX};
use crate::primitive::{Circle, dist_sq};

verus! {

/// A pairwise overlap test between two positioned shapes.
pub trait Collision<C, V> {
    /// Whether the shapes overlap at the given positions.
    spec fn colliding_spec(&self, pos: &V, other: &C, other_pos: &V) -> bool;

    /// Inputs on which the test is computed without overflow.
    spec fn colliding_req(&self, pos: &V, other: &C, other_pos: &V) -> bool;

    fn colliding(&self, pos: &V, other: &C, other_pos: &V) -> (r: bool)
        requires
            self.colliding_req(pos, other, other_pos),
        ensures
            r == self.colliding_spec(pos, other, other_pos),
    ;
}

/// A membership test of a point against a positioned shape.
pub trait PointCollision<V> {
    /// Whether the point lies strictly inside the shape at the given
    /// position.
    spec fn point_inside_spec(&self, pos: &V, point: &V) -> bool;

    /// Inputs on which the test is computed without overflow.
    spec fn point_inside_req(&self, pos: &V, point: &V) -> bool;

    fn point_inside(&self, pos: &V, point: &V) -> (r: bool)
        requires
            self.point_inside_req(pos, point),
        ensures
            r == self.point_inside_spec(pos, point),
    ;
}

impl Collision<Circle, Point2> for Circle {
    /// Two circles overlap when their centres are nearer than the sum
    /// of the radii; the shapes' own stored centres are not consulted.
    open spec fn colliding_spec(&self, pos: &Point2, other: &Circle, other_pos: &Point2) -> bool {
        dist_sq(*pos, *other_pos) < (self.radius + other.radius) * (self.radius + other.radius)
    }

    open spec fn colliding_req(&self, pos: &Point2, other: &Circle, other_pos: &Point2) -> bool {
        &&& pt_in_range(*pos)
        &&& pt_in_range(*other_pos)
        &&& 0 <= self.radius <= COORD_MAX
        &&& 0 <= other.radius <= COORD_MAX
    }

    fn colliding(&self, pos: &Point2, other: &Circle, other_pos: &Point2) -> (r: bool) {
        let dx: i128 = (pos.x - other_pos.x) as i128;
        let dy: i128 = (pos.y - other_pos.y) as i128;
        let rs: i128 = (self.radius + other.radius) as i128;
        proof {
            lemma_mul_le(dx as int, dx as int, VEC_MAX as int, VEC_MAX as int);
            lemma_mul_le(dy as int, dy as int, VEC_MAX as int, VEC_MAX as int);
            lemma_mul_le(rs as int, rs as int, VEC_MAX as int, VEC_MAX as int);
        }
        dx * dx + dy * dy < rs * rs
    }
}

impl PointCollision<Point2> for Circle {
    /// Strict Euclidean membership: the point is nearer the centre
    /// than the radius.
    open spec fn point_inside_spec(&self, pos: &Point2, point: &Point2) -> bool {
        dist_sq(*pos, *point) < self.radius * self.radius
    }

    open spec fn point_inside_req(&self, pos: &Point2, point: &Point2) -> bool {
        &&& pt_in_range(*pos)
        &&& pt_in_range(*point)
        &&& 0 <= self.radius <= COORD_MAX
    }

    fn point_inside(&self, pos: &Point2, point: &Point2) -> (r: bool) {
        let dx: i128 = (pos.x - point.x) as i128;
        let dy: i128 = (pos.y - point.y) as i128;
        let rad: i128 = self.radius as i128;
        proof {
            lemma_mul_le(dx as int, dx as int, VEC_MAX as int, VEC_MAX as int);
            lemma_mul_le(dy as int, dy as int, VEC_MAX as int, VEC_MAX as int);
            lemma_mul_le(rad as int, rad as int, COORD_MAX as int, COORD_MAX as int);
        }
        dx * dx + dy * dy < rad * rad
    }
}

} // verus!
