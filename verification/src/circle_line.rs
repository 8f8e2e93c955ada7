//! Circle-versus-segment intersection, solved exactly through the
//! standard quadratic for the segment parameter.
//!
//! The classification compares the real roots of the quadratic against
//! the parameter range `[0, 1]` exactly, by comparing squares instead of
//! taking a square root.  The reported contact points use the integer
//! square root of the discriminant, so they are exact whenever the
//! discriminant is a perfect square (every tangency, and every crossing
//! whose points have rational coordinates) and the nearest representable
//! parameter otherwise.

use vstd::prelude::*;
use crate::vector::{Point2, Dot, spec_dot, lemma_mul_le, COORD_MAX};
use crate::frac::{FracPoint2, frac_pt_wf, spec_isqrt, lemma_isqrt_bounds, isqrt_u128};
use crate::intersect::{Intersect, Intersection, SpecIntersection};
use crate::primitive::{Circle, Line, line_in_range, circle_in_range, spec_circle_pt_intersection};
use crate::line_line::{spec_line_point_at, lemma_vec_products_bounded};

verus! {

/// Whether `k` is strictly below the real square root of `dis`.
pub open spec fn lt_sqrt(k: int, dis: int) -> bool {
    k < 0 || k * k < dis
}

/// Whether `k` is at most the real square root of `dis`.
pub open spec fn le_sqrt(k: int, dis: int) -> bool {
    k <= 0 || k * k <= dis
}

/// The quadratic's leading coefficient: the squared segment length.
pub open spec fn spec_qa(c: Circle, l: Line) -> int {
    spec_dot(l.b.x - l.a.x, l.b.y - l.a.y, l.b.x - l.a.x, l.b.y - l.a.y)
}

/// The quadratic's linear coefficient.
pub open spec fn spec_qb(c: Circle, l: Line) -> int {
    2 * spec_dot(l.a.x - c.pos.x, l.a.y - c.pos.y, l.b.x - l.a.x, l.b.y - l.a.y)
}

/// The quadratic's constant coefficient: the squared distance of the
/// segment's origin from the centre, less the squared radius.
pub open spec fn spec_qc(c: Circle, l: Line) -> int {
    spec_dot(l.a.x - c.pos.x, l.a.y - c.pos.y, l.a.x - c.pos.x, l.a.y - c.pos.y) - c.radius
        * c.radius
}

/// The discriminant of the quadratic.
pub open spec fn spec_disc(c: Circle, l: Line) -> int {
    spec_qb(c, l) * spec_qb(c, l) - 4 * spec_qa(c, l) * spec_qc(c, l)
}

/// The exact circle-versus-segment result.
///
/// A zero-length segment is handed to the circle-versus-point test.
/// A negative discriminant means apart; a zero discriminant is a
/// tangency at the single root.  With two real roots `t0 <= t1`, the
/// branches follow the roots' positions against `[0, 1]`: `t0` below
/// zero and `t1` inside the range reports the point at `t1`; `t0`
/// inside the range and `t1` above one reports the point at `t0`;
/// both outside on opposite sides means the segment lies inside the
/// circle; both strictly inside reports both points; anything else,
/// including both roots on the same side of the range, is apart.
pub open spec fn spec_circle_line_intersection(c: Circle, l: Line) -> SpecIntersection {
    if l.b.x - l.a.x == 0 && l.b.y - l.a.y == 0 {
        spec_circle_pt_intersection(c, l.a)
    } else {
        let qa = spec_qa(c, l);
        let qb = spec_qb(c, l);
        let dis = spec_disc(c, l);
        if dis < 0 {
            SpecIntersection::Outside
        } else if dis == 0 {
            SpecIntersection::Intersects(spec_line_point_at(l, -qb, 2 * qa), None)
        } else {
            let si = spec_isqrt(dis as nat) as int;
            if lt_sqrt(-qb, dis) && !lt_sqrt(2 * qa + qb, dis) && le_sqrt(qb, dis) {
                SpecIntersection::Intersects(spec_line_point_at(l, -qb + si, 2 * qa), None)
            } else if lt_sqrt(2 * qa + qb, dis) && !lt_sqrt(-qb, dis) && le_sqrt(-qb - 2 * qa, dis) {
                SpecIntersection::Intersects(spec_line_point_at(l, -qb - si, 2 * qa), None)
            } else if lt_sqrt(2 * qa + qb, dis) && lt_sqrt(-qb, dis) {
                SpecIntersection::Inside
            } else if !le_sqrt(-qb, dis) && lt_sqrt(-qb - 2 * qa, dis) && lt_sqrt(qb, dis)
                && !le_sqrt(2 * qa + qb, dis) {
                SpecIntersection::Intersects(
                    spec_line_point_at(l, -qb - si, 2 * qa),
                    Some(spec_line_point_at(l, -qb + si, 2 * qa)),
                )
            } else {
                SpecIntersection::Outside
            }
        }
    }
}

/// Whether `k` is strictly below the real square root of `dis`,
/// computed exactly.
fn lt_sqrt_e(k: i128, dis: i128) -> (r: bool)
    requires
        -100_000_000_000_000 <= k <= 100_000_000_000_000,
    ensures
        r == lt_sqrt(k as int, dis as int),
{
    if k < 0 {
        true
    } else {
        proof {
            lemma_mul_le(k as int, k as int, 100_000_000_000_000, 100_000_000_000_000);
        }
        k * k < dis
    }
}

/// Whether `k` is at most the real square root of `dis`, computed
/// exactly.
fn le_sqrt_e(k: i128, dis: i128) -> (r: bool)
    requires
        -100_000_000_000_000 <= k <= 100_000_000_000_000,
    ensures
        r == le_sqrt(k as int, dis as int),
{
    if k <= 0 {
        true
    } else {
        proof {
            lemma_mul_le(k as int, k as int, 100_000_000_000_000, 100_000_000_000_000);
        }
        k * k <= dis
    }
}

impl Intersect<Line> for Circle {
    open spec fn intersection_spec(&self, other: &Line) -> SpecIntersection {
        spec_circle_line_intersection(*self, *other)
    }

    open spec fn intersect_req(&self, other: &Line) -> bool {
        circle_in_range(*self) && line_in_range(*other)
    }

    open spec fn intersects_spec(&self, other: &Line) -> bool {
        spec_circle_line_intersection(*self, *other) is Intersects
    }

    open spec fn contains_spec(&self, other: &Line) -> bool {
        spec_circle_line_intersection(*self, *other) is Inside
    }

    fn intersection(&self, other: &Line) -> (ret: Intersection) {
        let d = other.b.sub(&other.a);

        if d.x == 0 && d.y == 0 {
            let pr: Intersection = self.intersection(&other.a);
            return pr;
        }

        let f = other.a.sub(&self.pos);
        proof {
            lemma_vec_products_bounded(d, d);
            lemma_vec_products_bounded(f, d);
            lemma_vec_products_bounded(f, f);
            lemma_mul_le(self.radius as int, self.radius as int, COORD_MAX as int, COORD_MAX as int);
        }
        let qa: i128 = d.dot(&d) as i128;
        let qb: i128 = 2 * (f.dot(&d) as i128);
        let qc: i128 = (f.dot(&f) as i128) - (self.radius as i128) * (self.radius as i128);

        proof {
            assert(qa > 0) by (nonlinear_arith)
                requires
                    qa == (d.x as int) * (d.x as int) + (d.y as int) * (d.y as int),
                    d.x != 0 || d.y != 0;
            lemma_mul_le(qb as int, qb as int, 16_000_000_000_000, 16_000_000_000_000);
            lemma_mul_le(qa as int, qc as int, 8_000_000_000_000, 9_000_000_000_000);
        }
        let qac: i128 = qa * qc;
        let dis: i128 = qb * qb - 4 * qac;
        proof {
            assert((qb as int) * (qb as int) - 4 * ((qa as int) * (qc as int)) == (qb as int) * (
            qb as int) - 4 * (qa as int) * (qc as int)) by (nonlinear_arith);
        }
        assert(dis as int == spec_disc(*self, *other));

        if dis < 0 {
            return Intersection::Outside;
        } else if dis == 0 {
            let nb: i64 = (-qb) as i64;
            let den: i64 = (2 * qa) as i64;
            return Intersection::Intersects(other.point_at(nb, den), None);
        }

        let si128: u128 = isqrt_u128(dis as u128);
        proof {
            lemma_isqrt_bounds(dis as nat);
            assert((si128 as int) <= 25_000_000_000_000) by (nonlinear_arith)
                requires
                    (si128 as int) * (si128 as int) <= dis as int,
                    dis as int <= 600_000_000_000_000_000_000_000_000,
                    si128 as int >= 0;
        }
        let si: i128 = si128 as i128;

        let t0_lt_0 = lt_sqrt_e(-qb, dis);
        let t1_le_1 = !lt_sqrt_e(2 * qa + qb, dis);
        let t1_ge_0 = le_sqrt_e(qb, dis);
        let t0_le_1 = le_sqrt_e(-qb - 2 * qa, dis);
        let t0_ge_0 = !t0_lt_0;
        let t1_gt_1 = !t1_le_1;

        if t0_lt_0 && t1_le_1 && t1_ge_0 {
            return Intersection::Intersects(other.point_at((-qb + si) as i64, (2 * qa) as i64), None);
        } else if t1_gt_1 && t0_ge_0 && t0_le_1 {
            return Intersection::Intersects(other.point_at((-qb - si) as i64, (2 * qa) as i64), None);
        } else if t1_gt_1 && t0_lt_0 {
            return Intersection::Inside;
        } else {
            let t0_gt_0 = !le_sqrt_e(-qb, dis);
            let t0_lt_1 = lt_sqrt_e(-qb - 2 * qa, dis);
            let t1_gt_0 = lt_sqrt_e(qb, dis);
            let t1_lt_1 = !le_sqrt_e(2 * qa + qb, dis);
            if t0_gt_0 && t0_lt_1 && t1_gt_0 && t1_lt_1 {
                return Intersection::Intersects(
                    other.point_at((-qb - si) as i64, (2 * qa) as i64),
                    Some(other.point_at((-qb + si) as i64, (2 * qa) as i64)),
                );
            }
        }
        Intersection::Outside
    }

    fn intersects(&self, other: &Line) -> (ret: bool) {
        let r = self.intersection(other);
        match r {
            Intersection::Intersects(_, _) => true,
            _ => false,
        }
    }

    fn contains(&self, other: &Line) -> (ret: bool) {
        let r = self.intersection(other);
        match r {
            Intersection::Inside => true,
            _ => false,
        }
    }
}

impl Intersect<Circle> for Line {
    open spec fn intersection_spec(&self, other: &Circle) -> SpecIntersection {
        spec_circle_line_intersection(*other, *self)
    }

    open spec fn intersect_req(&self, other: &Circle) -> bool {
        circle_in_range(*other) && line_in_range(*self)
    }

    open spec fn intersects_spec(&self, other: &Circle) -> bool {
        spec_circle_line_intersection(*other, *self) is Intersects
    }

    /// A segment "contains" a circle exactly when the circle does not
    /// swallow the segment; this mirrored negation is the engine's
    /// deliberate reading of containment for this pair.
    open spec fn contains_spec(&self, other: &Circle) -> bool {
        !(spec_circle_line_intersection(*other, *self) is Inside)
    }

    fn intersection(&self, other: &Circle) -> (ret: Intersection) {
        other.intersection(self)
    }

    fn intersects(&self, other: &Circle) -> (ret: bool) {
        other.intersects(self)
    }

    fn contains(&self, other: &Circle) -> (ret: bool) {
        !other.contains(self)
    }
}

} // verus!
