//! Planar points and vectors over exact, bounded integer coordinates.

use vstd::prelude::*;

verus! {

/// Largest coordinate magnitude the library accepts.  Keeping every
/// coordinate within this bound lets each intermediate product of the
/// intersection algorithms be computed exactly in 128-bit integers.
pub const COORD_MAX: i64 = 1_000_000;

/// Largest coordinate magnitude of a difference of two in-range points.
pub const VEC_MAX: i64 = 2_000_000;

/// A position in the plane.
#[derive(Clone, Copy, PartialEq, Eq, Structural, Debug)]
pub struct Point2 {
    pub x: i64,
    pub y: i64,
}

/// A displacement between two positions.
#[derive(Clone, Copy, PartialEq, Eq, Structural, Debug)]
pub struct Vector2 {
    pub x: i64,
    pub y: i64,
}

/// Both coordinates of a point lie within the accepted range.
pub open spec fn pt_in_range(p: Point2) -> bool {
    &&& -COORD_MAX <= p.x <= COORD_MAX
    &&& -COORD_MAX <= p.y <= COORD_MAX
}

/// Both coordinates of a vector lie within twice the accepted range,
/// which holds of any difference of two in-range points.
pub open spec fn vec_in_range(v: Vector2) -> bool {
    &&& -VEC_MAX <= v.x <= VEC_MAX
    &&& -VEC_MAX <= v.y <= VEC_MAX
}

/// Cross product of two vectors given by their coordinates.
pub open spec fn spec_cross(ax: int, ay: int, bx: int, by: int) -> int {
    ax * by - ay * bx
}

/// Dot product of two vectors given by their coordinates.
pub open spec fn spec_dot(ax: int, ay: int, bx: int, by: int) -> int {
    ax * bx + ay * by
}

/// Bounds on a product follow from bounds on its factors.
pub proof fn lemma_mul_le(a: int, b: int, m: int, n: int)
    by (nonlinear_arith)
    requires
        -m <= a <= m,
        -n <= b <= n,
        0 <= m,
        0 <= n,
    ensures
        -(m * n) <= a * b <= m * n,
{
}

impl Point2 {
    pub fn new(x: i64, y: i64) -> (p: Point2)
        ensures
            p == (Point2 { x, y }),
    {
        Point2 { x, y }
    }

    /// The displacement from `other` to `self`.
    pub fn sub(&self, other: &Point2) -> (v: Vector2)
        requires
            pt_in_range(*self),
            pt_in_range(*other),
        ensures
            v.x == self.x - other.x,
            v.y == self.y - other.y,
            vec_in_range(v),
    {
        Vector2 { x: self.x - other.x, y: self.y - other.y }
    }
}

impl Vector2 {
    pub fn new(x: i64, y: i64) -> (v: Vector2)
        ensures
            v == (Vector2 { x, y }),
    {
        Vector2 { x, y }
    }
}

/// The planar cross product, a scalar.
pub trait Cross<T> {
    /// The mathematical value the implementation returns.
    spec fn cross_spec(&self, other: &T) -> int;

    /// Inputs on which the product is computed without overflow.
    spec fn cross_req(&self, other: &T) -> bool;

    fn cross(&self, other: &T) -> (r: i64)
        requires
            self.cross_req(other),
        ensures
            r as int == self.cross_spec(other),
    ;
}

/// The dot product.
pub trait Dot<T> {
    /// The mathematical value the implementation returns.
    spec fn dot_spec(&self, other: &T) -> int;

    /// Inputs on which the product is computed without overflow.
    spec fn dot_req(&self, other: &T) -> bool;

    fn dot(&self, other: &T) -> (r: i64)
        requires
            self.dot_req(other),
        ensures
            r as int == self.dot_spec(other),
    ;
}

/// Adding one scalar to every coordinate.
pub trait AddScalar<T> {
    /// Inputs on which the sums stay in range.
    spec fn add_scalar_req(self, rhs: i64) -> bool;

    /// The value the implementation returns.
    spec fn add_scalar_spec(self, rhs: i64) -> T;

    fn add_scalar(self, rhs: i64) -> (r: T)
        requires
            self.add_scalar_req(rhs),
        ensures
            r == self.add_scalar_spec(rhs),
    ;
}

impl Cross<Vector2> for Vector2 {
    open spec fn cross_spec(&self, other: &Vector2) -> int {
        spec_cross(self.x as int, self.y as int, other.x as int, other.y as int)
    }

    open spec fn cross_req(&self, other: &Vector2) -> bool {
        vec_in_range(*self) && vec_in_range(*other)
    }

    fn cross(&self, other: &Vector2) -> (r: i64) {
        proof {
            lemma_mul_le(self.x as int, other.y as int, VEC_MAX as int, VEC_MAX as int);
            lemma_mul_le(self.y as int, other.x as int, VEC_MAX as int, VEC_MAX as int);
        }
        let r: i128 = (self.x as i128) * (other.y as i128) - (self.y as i128) * (other.x as i128);
        r as i64
    }
}

impl Cross<Point2> for Point2 {
    open spec fn cross_spec(&self, other: &Point2) -> int {
        spec_cross(self.x as int, self.y as int, other.x as int, other.y as int)
    }

    open spec fn cross_req(&self, other: &Point2) -> bool {
        pt_in_range(*self) && pt_in_range(*other)
    }

    fn cross(&self, other: &Point2) -> (r: i64) {
        proof {
            lemma_mul_le(self.x as int, other.y as int, COORD_MAX as int, COORD_MAX as int);
            lemma_mul_le(self.y as int, other.x as int, COORD_MAX as int, COORD_MAX as int);
        }
        let r: i128 = (self.x as i128) * (other.y as i128) - (self.y as i128) * (other.x as i128);
        r as i64
    }
}

impl Dot<Vector2> for Vector2 {
    open spec fn dot_spec(&self, other: &Vector2) -> int {
        spec_dot(self.x as int, self.y as int, other.x as int, other.y as int)
    }

    open spec fn dot_req(&self, other: &Vector2) -> bool {
        vec_in_range(*self) && vec_in_range(*other)
    }

    fn dot(&self, other: &Vector2) -> (r: i64) {
        proof {
            lemma_mul_le(self.x as int, other.x as int, VEC_MAX as int, VEC_MAX as int);
            lemma_mul_le(self.y as int, other.y as int, VEC_MAX as int, VEC_MAX as int);
        }
        let r: i128 = (self.x as i128) * (other.x as i128) + (self.y as i128) * (other.y as i128);
        r as i64
    }
}

impl Dot<Point2> for Point2 {
    open spec fn dot_spec(&self, other: &Point2) -> int {
        spec_dot(self.x as int, self.y as int, other.x as int, other.y as int)
    }

    open spec fn dot_req(&self, other: &Point2) -> bool {
        pt_in_range(*self) && pt_in_range(*other)
    }

    fn dot(&self, other: &Point2) -> (r: i64) {
        proof {
            lemma_mul_le(self.x as int, other.x as int, COORD_MAX as int, COORD_MAX as int);
            lemma_mul_le(self.y as int, other.y as int, COORD_MAX as int, COORD_MAX as int);
        }
        let r: i128 = (self.x as i128) * (other.x as i128) + (self.y as i128) * (other.y as i128);
        r as i64
    }
}

impl AddScalar<Point2> for Point2 {
    open spec fn add_scalar_req(self, rhs: i64) -> bool {
        &&& pt_in_range(self)
        &&& -COORD_MAX <= rhs <= COORD_MAX
    }

    open spec fn add_scalar_spec(self, rhs: i64) -> Point2 {
        Point2 { x: (self.x + rhs) as i64, y: (self.y + rhs) as i64 }
    }

    fn add_scalar(self, rhs: i64) -> (r: Point2) {
        Point2 { x: self.x + rhs, y: self.y + rhs }
    }
}

} // verus!
