//! Segment-versus-segment intersection, solved exactly with cross and
//! dot products of the two direction vectors.

use vstd::prelude::*;
use crate::vector::{Vector2, Cross, Dot, spec_cross, spec_dot, lemma_mul_le, COORD_MAX,
    VEC_MAX};
use crate::frac::{Frac, FracPoint2, frac_pt_wf, spec_frac_point};
use crate::intersect::{Intersect, Intersection, SpecIntersection};
use crate::primitive::{Line, line_in_range};

verus! {

/// Largest magnitude of a parameter numerator handed to [`Line::point_at`]:
/// room for a quadratic coefficient plus the root of a discriminant.
pub const PARAM_MAX: i64 = 50_000_000_000_000;

/// Largest magnitude of a parameter denominator handed to
/// [`Line::point_at`]: room for twice a squared segment length.
pub const DENOM_MAX: i64 = 20_000_000_000_000;

/// Largest magnitude of a cross or dot product of two difference vectors.
pub const PROD_MAX: i64 = 8_000_000_000_000;

/// The numerator clamped into `[0, den]`, for a positive denominator:
/// the parameter `num / den` clipped to the unit interval.
pub open spec fn clamp_unit(num: int, den: int) -> int {
    if num < 0 {
        0
    } else if num > den {
        den
    } else {
        num
    }
}

/// Whether the rational `num / den` lies in the closed unit interval;
/// `den` must not be zero.
pub open spec fn in_unit(num: int, den: int) -> bool {
    if den > 0 {
        0 <= num <= den
    } else {
        den <= num <= 0
    }
}

/// The point `a + (num / den) * (b - a)` of a segment, in canonical
/// rational coordinates.
pub open spec fn spec_line_point_at(l: Line, num: int, den: int) -> FracPoint2 {
    spec_frac_point(
        l.a.x * den + (l.b.x - l.a.x) * num,
        den,
        l.a.y * den + (l.b.y - l.a.y) * num,
        den,
    )
}

/// The exact segment-versus-segment result.
///
/// With direction vectors `r` and `s` and offset `f` from the first
/// segment's origin to the second's, the classification goes by the
/// cross products `f x r` and `r x s`:
/// both zero means collinear, and the second segment's endpoints are
/// projected onto the first segment's parameter range `[0, 1]`; if the
/// projected interval meets `[0, 1]`, its endpoints are clipped to the
/// first segment and returned, ordered by whether the directions
/// agree; else the segments are apart.
/// Only `r x s` zero means parallel, non-collinear.
/// Otherwise the crossing parameters `t` (first segment) and `u` (second)
/// are compared against `[0, 1]`, both inside giving the crossing point.
/// A zero-length first segment in the collinear case is apart.
pub open spec fn spec_line_line_intersection(l1: Line, l2: Line) -> SpecIntersection {
    let rx = l1.b.x - l1.a.x;
    let ry = l1.b.y - l1.a.y;
    let sx = l2.b.x - l2.a.x;
    let sy = l2.b.y - l2.a.y;
    let fx = l2.a.x - l1.a.x;
    let fy = l2.a.y - l1.a.y;
    let unum = spec_cross(fx, fy, rx, ry);
    let denom = spec_cross(rx, ry, sx, sy);
    if unum == 0 && denom == 0 {
        let rr = spec_dot(rx, ry, rx, ry);
        if rr == 0 {
            SpecIntersection::Outside
        } else {
            let d1 = spec_dot(fx, fy, rx, ry);
            let sr = spec_dot(sx, sy, rx, ry);
            if sr < 0 && d1 + sr <= rr && 0 <= d1 {
                SpecIntersection::Overlap(
                    spec_line_point_at(l1, clamp_unit(d1 + sr, rr), rr),
                    spec_line_point_at(l1, clamp_unit(d1, rr), rr),
                )
            } else if d1 <= rr && 0 <= d1 + sr {
                SpecIntersection::Overlap(
                    spec_line_point_at(l1, clamp_unit(d1, rr), rr),
                    spec_line_point_at(l1, clamp_unit(d1 + sr, rr), rr),
                )
            } else {
                SpecIntersection::Outside
            }
        }
    } else if denom == 0 {
        SpecIntersection::Parallel
    } else {
        let tnum = spec_cross(fx, fy, sx, sy);
        if in_unit(tnum, denom) && in_unit(unum, denom) {
            SpecIntersection::Intersects(spec_line_point_at(l1, tnum, denom), None)
        } else {
            SpecIntersection::Outside
        }
    }
}

/// The conservative sub-segment check `contains` uses: an overlap whose
/// first point is past `a` and whose second point is before `b`,
/// coordinate-wise.
pub open spec fn spec_line_line_contains(l1: Line, l2: Line) -> bool {
    match spec_line_line_intersection(l1, l2) {
        SpecIntersection::Overlap(p, q) => {
            &&& p.x.num >= l1.a.x * p.x.den
            &&& p.y.num >= l1.a.y * p.y.den
            &&& q.x.num <= l1.b.x * q.x.den
            &&& q.y.num <= l1.b.y * q.y.den
        },
        _ => false,
    }
}

/// Cross and dot products of two in-range difference vectors stay within
/// [`PROD_MAX`].
pub proof fn lemma_vec_products_bounded(a: Vector2, b: Vector2)
    requires
        crate::vector::vec_in_range(a),
        crate::vector::vec_in_range(b),
    ensures
        -PROD_MAX <= spec_cross(a.x as int, a.y as int, b.x as int, b.y as int) <= PROD_MAX,
        -PROD_MAX <= spec_dot(a.x as int, a.y as int, b.x as int, b.y as int) <= PROD_MAX,
{
    lemma_mul_le(a.x as int, b.y as int, VEC_MAX as int, VEC_MAX as int);
    lemma_mul_le(a.y as int, b.x as int, VEC_MAX as int, VEC_MAX as int);
    lemma_mul_le(a.x as int, b.x as int, VEC_MAX as int, VEC_MAX as int);
    lemma_mul_le(a.y as int, b.y as int, VEC_MAX as int, VEC_MAX as int);
}

impl Line {
    /// The point of the segment at parameter `num / den`, in canonical
    /// rational coordinates.
    pub(crate) fn point_at(&self, num: i64, den: i64) -> (p: FracPoint2)
        requires
            line_in_range(*self),
            den != 0,
            -DENOM_MAX <= den <= DENOM_MAX,
            -PARAM_MAX <= num <= PARAM_MAX,
        ensures
            p == spec_line_point_at(*self, num as int, den as int),
            frac_pt_wf(p),
    {
        proof {
            lemma_mul_le(self.a.x as int, den as int, COORD_MAX as int, DENOM_MAX as int);
            lemma_mul_le(self.a.y as int, den as int, COORD_MAX as int, DENOM_MAX as int);
            lemma_mul_le((self.b.x - self.a.x) as int, num as int, VEC_MAX as int, PARAM_MAX as int);
            lemma_mul_le((self.b.y - self.a.y) as int, num as int, VEC_MAX as int, PARAM_MAX as int);
        }
        let nx: i128 = (self.a.x as i128) * (den as i128) + ((self.b.x - self.a.x) as i128) * (
        num as i128);
        let ny: i128 = (self.a.y as i128) * (den as i128) + ((self.b.y - self.a.y) as i128) * (
        num as i128);
        let fx = Frac::new(nx, den as i128);
        let fy = Frac::new(ny, den as i128);
        FracPoint2::new(fx, fy)
    }
}

impl Intersect<Line> for Line {
    open spec fn intersection_spec(&self, other: &Line) -> SpecIntersection {
        spec_line_line_intersection(*self, *other)
    }

    open spec fn intersect_req(&self, other: &Line) -> bool {
        line_in_range(*self) && line_in_range(*other)
    }

    open spec fn intersects_spec(&self, other: &Line) -> bool {
        spec_line_line_intersection(*self, *other) is Overlap || spec_line_line_intersection(
            *self,
            *other,
        ) is Intersects
    }

    open spec fn contains_spec(&self, other: &Line) -> bool {
        spec_line_line_contains(*self, *other)
    }

    fn intersection(&self, other: &Line) -> (ret: Intersection) {
        let r = self.b.sub(&self.a);
        let s = other.b.sub(&other.a);
        let f = other.a.sub(&self.a);

        proof {
            lemma_vec_products_bounded(f, r);
            lemma_vec_products_bounded(r, s);
            lemma_vec_products_bounded(f, s);
            lemma_vec_products_bounded(s, r);
            lemma_vec_products_bounded(r, r);
        }
        let unum = f.cross(&r);
        let denom = r.cross(&s);

        if unum == 0 && denom == 0 {
            let rr = r.dot(&r);
            if rr == 0 {
                return Intersection::Outside;
            }
            let d1 = f.dot(&r);
            let sr = s.dot(&r);
            let c0: i64 = if d1 < 0 {
                0
            } else if d1 > rr {
                rr
            } else {
                d1
            };
            let c1: i64 = if d1 + sr < 0 {
                0
            } else if d1 + sr > rr {
                rr
            } else {
                d1 + sr
            };
            if sr < 0 && d1 + sr <= rr && 0 <= d1 {
                return Intersection::Overlap(
                    self.point_at(c1, rr),
                    self.point_at(c0, rr),
                );
            } else if d1 <= rr && 0 <= d1 + sr {
                return Intersection::Overlap(
                    self.point_at(c0, rr),
                    self.point_at(c1, rr),
                );
            }
            return Intersection::Outside;
        }

        if denom == 0 {
            return Intersection::Parallel;
        }

        let tnum = f.cross(&s);
        let t_in = if denom > 0 {
            0 <= tnum && tnum <= denom
        } else {
            denom <= tnum && tnum <= 0
        };
        let u_in = if denom > 0 {
            0 <= unum && unum <= denom
        } else {
            denom <= unum && unum <= 0
        };
        if t_in && u_in {
            return Intersection::Intersects(self.point_at(tnum, denom), None);
        }

        Intersection::Outside
    }

    fn intersects(&self, other: &Line) -> (ret: bool) {
        let r = self.intersection(other);
        match r {
            Intersection::Overlap(_, _) => true,
            Intersection::Intersects(_, _) => true,
            _ => false,
        }
    }

    fn contains(&self, other: &Line) -> (ret: bool) {
        let r = self.intersection(other);
        match r {
            Intersection::Overlap(p, q) => {
                p.x.ge_int(self.a.x) && p.y.ge_int(self.a.y) && q.x.le_int(self.b.x) && q.y.le_int(
                    self.b.y,
                )
            },
            _ => false,
        }
    }
}

} // verus!
