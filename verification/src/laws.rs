//! Laws the intersection engine obeys across calls and across argument
//! orders.

use vstd::prelude::*;
use crate::vector::Point2;
use crate::intersect::SpecIntersection;
use crate::primitive::{Circle, Line, AABB2, spec_aabb_pt_intersection, spec_circle_pt_intersection};
use crate::line_line::{spec_line_line_intersection, in_unit};
use crate::circle_line::spec_circle_line_intersection;
use crate::circle_aabb::spec_circle_aabb_intersection;

verus! {

/// Classification is a function of the inputs: two runs of the segment
/// test on unchanged segments give the same result.
pub proof fn lemma_line_line_idempotent(
    l1: Line,
    l2: Line,
    r1: SpecIntersection,
    r2: SpecIntersection,
)
    requires
        r1 == spec_line_line_intersection(l1, l2),
        r2 == spec_line_line_intersection(l1, l2),
    ensures
        r1 == r2,
{
}

/// Two runs of the circle-versus-segment test on unchanged inputs give
/// the same result.
pub proof fn lemma_circle_line_idempotent(
    c: Circle,
    l: Line,
    r1: SpecIntersection,
    r2: SpecIntersection,
)
    requires
        r1 == spec_circle_line_intersection(c, l),
        r2 == spec_circle_line_intersection(c, l),
    ensures
        r1 == r2,
{
}

/// Two runs of the circle-versus-box test on unchanged inputs give the
/// same result.
pub proof fn lemma_circle_aabb_idempotent(
    c: Circle,
    b: AABB2,
    r1: SpecIntersection,
    r2: SpecIntersection,
)
    requires
        r1 == spec_circle_aabb_intersection(c, b),
        r2 == spec_circle_aabb_intersection(c, b),
    ensures
        r1 == r2,
{
}

/// Two runs of the box-versus-point test on unchanged inputs give the
/// same result.
pub proof fn lemma_aabb_pt_idempotent(
    b: AABB2,
    p: Point2,
    r1: SpecIntersection,
    r2: SpecIntersection,
)
    requires
        r1 == spec_aabb_pt_intersection(b, p),
        r2 == spec_aabb_pt_intersection(b, p),
    ensures
        r1 == r2,
{
}

/// Two runs of the circle-versus-point test on unchanged inputs give
/// the same result.
pub proof fn lemma_circle_pt_idempotent(
    c: Circle,
    p: Point2,
    r1: SpecIntersection,
    r2: SpecIntersection,
)
    requires
        r1 == spec_circle_pt_intersection(c, p),
        r2 == spec_circle_pt_intersection(c, p),
    ensures
        r1 == r2,
{
}

/// The segment-versus-circle test delegates to the circle-versus-
/// segment test, so the boolean projections of the two orders agree.
pub proof fn lemma_circle_line_intersects_symmetric(c: Circle, l: Line)
    ensures
        crate::intersect::Intersect::<Circle>::intersects_spec(&l, &c)
            == crate::intersect::Intersect::<Line>::intersects_spec(&c, &l),
{
}

/// Whether the segment results count as meeting.
pub open spec fn line_line_meets(l1: Line, l2: Line) -> bool {
    spec_line_line_intersection(l1, l2) is Overlap || spec_line_line_intersection(
        l1,
        l2,
    ) is Intersects
}

/// A Lagrange-style identity connecting planar cross and dot products,
/// proved by expanding both sides into reordered monomials.
proof fn lemma_cross_dot_identity_a(fx: int, fy: int, rx: int, ry: int, sx: int, sy: int)
    ensures
        (fx * ry - fy * rx) * (sx * ry - sy * rx) == (fx * sx + fy * sy) * (rx * rx + ry * ry) - (
        fx * rx + fy * ry) * (rx * sx + ry * sy),
{
    let a = fx * ry;
    let b = fy * rx;
    let c = sx * ry;
    let d = sy * rx;
    let p1 = fx * sx;
    let p2 = fy * sy;
    let q1 = rx * rx;
    let q2 = ry * ry;
    let m1 = fx * rx;
    let m2 = fy * ry;
    let n1 = rx * sx;
    let n2 = ry * sy;
    assert((a - b) * (c - d) == a * c - a * d - b * c + b * d) by (nonlinear_arith);
    assert((p1 + p2) * (q1 + q2) == p1 * q1 + p1 * q2 + p2 * q1 + p2 * q2) by (nonlinear_arith);
    assert((m1 + m2) * (n1 + n2) == m1 * n1 + m1 * n2 + m2 * n1 + m2 * n2) by (nonlinear_arith);
    assert(p1 * q1 == m1 * n1) by (nonlinear_arith)
        requires p1 == fx * sx, q1 == rx * rx, m1 == fx * rx, n1 == rx * sx;
    assert(p2 * q2 == m2 * n2) by (nonlinear_arith)
        requires p2 == fy * sy, q2 == ry * ry, m2 == fy * ry, n2 == ry * sy;
    assert(a * c == p1 * q2) by (nonlinear_arith)
        requires a == fx * ry, c == sx * ry, p1 == fx * sx, q2 == ry * ry;
    assert(b * d == p2 * q1) by (nonlinear_arith)
        requires b == fy * rx, d == sy * rx, p2 == fy * sy, q1 == rx * rx;
    assert(a * d == m1 * n2) by (nonlinear_arith)
        requires a == fx * ry, d == sy * rx, m1 == fx * rx, n2 == ry * sy;
    assert(b * c == m2 * n1) by (nonlinear_arith)
        requires b == fy * rx, c == sx * ry, m2 == fy * ry, n1 == rx * sx;
}

/// The squared cross product against the squared lengths and the dot
/// product, proved by expanding both sides into reordered monomials.
proof fn lemma_cross_dot_identity_b(rx: int, ry: int, sx: int, sy: int)
    ensures
        (sx * ry - sy * rx) * (sx * ry - sy * rx) == (sx * sx + sy * sy) * (rx * rx + ry * ry) - (
        sx * rx + sy * ry) * (sx * rx + sy * ry),
{
    let a = sx * ry;
    let b = sy * rx;
    let sxx = sx * sx;
    let syy = sy * sy;
    let rxx = rx * rx;
    let ryy = ry * ry;
    let u = sx * rx;
    let v = sy * ry;
    assert((a - b) * (a - b) == a * a - 2 * (a * b) + b * b) by (nonlinear_arith);
    assert((sxx + syy) * (rxx + ryy) == sxx * rxx + sxx * ryy + syy * rxx + syy * ryy)
        by (nonlinear_arith);
    assert((u + v) * (u + v) == u * u + 2 * (u * v) + v * v) by (nonlinear_arith);
    assert(a * a == sxx * ryy) by (nonlinear_arith)
        requires a == sx * ry, sxx == sx * sx, ryy == ry * ry;
    assert(b * b == syy * rxx) by (nonlinear_arith)
        requires b == sy * rx, syy == sy * sy, rxx == rx * rx;
    assert(a * b == u * v) by (nonlinear_arith)
        requires a == sx * ry, b == sy * rx, u == sx * rx, v == sy * ry;
    assert(u * u == sxx * rxx) by (nonlinear_arith)
        requires u == sx * rx, sxx == sx * sx, rxx == rx * rx;
    assert(v * v == syy * ryy) by (nonlinear_arith)
        requires v == sy * ry, syy == sy * sy, ryy == ry * ry;
}

/// A cross product scaled by a squared length, in terms of the other
/// products, proved by expanding both sides into reordered monomials.
proof fn lemma_cross_dot_identity_c(fx: int, fy: int, rx: int, ry: int, sx: int, sy: int)
    ensures
        (fx * ry - fy * rx) * (sx * sx + sy * sy) == (fx * sy - fy * sx) * (rx * sx + ry * sy) - (
        fx * sx + fy * sy) * (rx * sy - ry * sx),
{
    let a = fx * ry;
    let b = fy * rx;
    let sxx = sx * sx;
    let syy = sy * sy;
    let e = fx * sy;
    let g = fy * sx;
    let n1 = rx * sx;
    let n2 = ry * sy;
    let p1 = fx * sx;
    let p2 = fy * sy;
    let h1 = rx * sy;
    let h2 = ry * sx;
    assert((a - b) * (sxx + syy) == a * sxx + a * syy - b * sxx - b * syy) by (nonlinear_arith);
    assert((e - g) * (n1 + n2) == e * n1 + e * n2 - g * n1 - g * n2) by (nonlinear_arith);
    assert((p1 + p2) * (h1 - h2) == p1 * h1 - p1 * h2 + p2 * h1 - p2 * h2) by (nonlinear_arith);
    assert(e * n1 == p1 * h1) by (nonlinear_arith)
        requires e == fx * sy, n1 == rx * sx, p1 == fx * sx, h1 == rx * sy;
    assert(e * n2 == a * syy) by (nonlinear_arith)
        requires e == fx * sy, n2 == ry * sy, a == fx * ry, syy == sy * sy;
    assert(g * n1 == b * sxx) by (nonlinear_arith)
        requires g == fy * sx, n1 == rx * sx, b == fy * rx, sxx == sx * sx;
    assert(g * n2 == p2 * h2) by (nonlinear_arith)
        requires g == fy * sx, n2 == ry * sy, p2 == fy * sy, h2 == ry * sx;
    assert(p1 * h2 == a * sxx) by (nonlinear_arith)
        requires p1 == fx * sx, h2 == ry * sx, a == fx * ry, sxx == sx * sx;
    assert(p2 * h1 == b * syy) by (nonlinear_arith)
        requires p2 == fy * sy, h1 == rx * sy, b == fy * rx, syy == sy * sy;
}

/// Symmetry of the boolean projection: for two segments of nonzero
/// length, whether they meet does not depend on the argument order,
/// though the returned point data may.  (A zero-length segment is the
/// one exception: its own test degenerates to apart, while the
/// opposite order can still report a touching overlap.)
pub proof fn lemma_line_line_intersects_symmetric(l1: Line, l2: Line)
    requires
        l1.a != l1.b,
        l2.a != l2.b,
    ensures
        line_line_meets(l1, l2) == line_line_meets(l2, l1),
{
    let rx = l1.b.x - l1.a.x as int;
    let ry = l1.b.y - l1.a.y as int;
    let sx = l2.b.x - l2.a.x as int;
    let sy = l2.b.y - l2.a.y as int;
    let fx = l2.a.x - l1.a.x as int;
    let fy = l2.a.y - l1.a.y as int;

    let unum = fx * ry - fy * rx;
    let denom = rx * sy - ry * sx;
    let tnum = fx * sy - fy * sx;

    let unum2 = (-fx) * sy - (-fy) * sx;
    let denom2 = sx * ry - sy * rx;
    let tnum2 = (-fx) * ry - (-fy) * rx;

    assert(unum2 == -tnum) by (nonlinear_arith)
        requires
            unum2 == (-fx) * sy - (-fy) * sx,
            tnum == fx * sy - fy * sx;
    assert(tnum2 == -unum) by (nonlinear_arith)
        requires
            tnum2 == (-fx) * ry - (-fy) * rx,
            unum == fx * ry - fy * rx;
    assert(denom2 == -denom) by (nonlinear_arith)
        requires
            denom2 == sx * ry - sy * rx,
            denom == rx * sy - ry * sx;

    let rr = rx * rx + ry * ry;
    let ss = sx * sx + sy * sy;
    let sr = sx * rx + sy * ry;
    let d1 = fx * rx + fy * ry;
    let d1b = (-fx) * sx + (-fy) * sy;

    assert(rr > 0) by (nonlinear_arith)
        requires
            rr == rx * rx + ry * ry,
            rx != 0 || ry != 0;
    assert(ss > 0) by (nonlinear_arith)
        requires
            ss == sx * sx + sy * sy,
            sx != 0 || sy != 0;

    if denom != 0 {
        assert(line_line_meets(l1, l2) == (in_unit(tnum, denom) && in_unit(unum, denom)));
        assert(line_line_meets(l2, l1) == (in_unit(tnum2, denom2) && in_unit(unum2, denom2)));
        assert(in_unit(-unum, -denom) == in_unit(unum, denom));
        assert(in_unit(-tnum, -denom) == in_unit(tnum, denom));
    } else if unum != 0 {
        // Parallel in the first order; the lines cannot be collinear in
        // the other order either, because the directions are parallel
        // and the second direction is nonzero.
        lemma_cross_dot_identity_c(fx, fy, rx, ry, sx, sy);
        if tnum == 0 {
            assert(unum * ss == tnum * sr - (fx * sx + fy * sy) * (rx * sy - ry * sx));
            assert(unum * ss == 0) by (nonlinear_arith)
                requires
                    unum * ss == tnum * sr - (fx * sx + fy * sy) * (rx * sy - ry * sx),
                    tnum == 0,
                    rx * sy - ry * sx == 0;
            assert(false) by (nonlinear_arith)
                requires
                    unum * ss == 0,
                    unum != 0,
                    ss > 0;
        }
        assert(!line_line_meets(l1, l2));
        assert(!line_line_meets(l2, l1));
    } else {
        // Collinear: the overlap conditions translate between the two
        // parameterizations through the product identities.
        lemma_cross_dot_identity_a(fx, fy, rx, ry, sx, sy);
        lemma_cross_dot_identity_b(rx, ry, sx, sy);
        lemma_cross_dot_identity_c(fx, fy, rx, ry, sx, sy);
        assert(sx * rx + sy * ry == rx * sx + ry * sy) by (nonlinear_arith);
        assert(0 == (fx * sx + fy * sy) * rr - d1 * sr) by (nonlinear_arith)
            requires
                (fx * ry - fy * rx) * (sx * ry - sy * rx) == (fx * sx + fy * sy) * (rx * rx + ry
                    * ry) - (fx * rx + fy * ry) * (rx * sx + ry * sy),
                fx * ry - fy * rx == 0,
                rr == rx * rx + ry * ry,
                sr == rx * sx + ry * sy,
                d1 == fx * rx + fy * ry;
        assert(d1b * rr == -(d1 * sr)) by (nonlinear_arith)
            requires
                0 == (fx * sx + fy * sy) * rr - d1 * sr,
                d1b == (-fx) * sx + (-fy) * sy;
        assert(sr * sr == ss * rr) by (nonlinear_arith)
            requires
                (sx * ry - sy * rx) * (sx * ry - sy * rx) == (sx * sx + sy * sy) * (rx * rx + ry
                    * ry) - (sx * rx + sy * ry) * (sx * rx + sy * ry),
                sx * ry - sy * rx == 0,
                ss == sx * sx + sy * sy,
                rr == rx * rx + ry * ry,
                sr == sx * rx + sy * ry,
                denom == rx * sy - ry * sx,
                denom == 0;
        assert(sr != 0) by (nonlinear_arith)
            requires
                sr * sr == ss * rr,
                ss > 0,
                rr > 0;
        assert(tnum * sr == 0) by (nonlinear_arith)
            requires
                (fx * ry - fy * rx) * (sx * sx + sy * sy) == (fx * sy - fy * sx) * (rx * sx + ry
                    * sy) - (fx * sx + fy * sy) * (rx * sy - ry * sx),
                fx * ry - fy * rx == 0,
                rx * sy - ry * sx == 0,
                tnum == fx * sy - fy * sx,
                sr == rx * sx + ry * sy;
        assert(tnum == 0) by (nonlinear_arith)
            requires
                tnum * sr == 0,
                sr != 0;
        let meets1 = (sr < 0 && d1 + sr <= rr && 0 <= d1) || (d1 <= rr && 0 <= d1 + sr);
        let meets2 = (sr < 0 && d1b + sr <= ss && 0 <= d1b) || (d1b <= ss && 0 <= d1b + sr);
        assert(line_line_meets(l1, l2) == meets1);
        assert(line_line_meets(l2, l1) == meets2);
        if sr > 0 {
            assert((d1b <= ss) == (0 <= d1 + sr)) by (nonlinear_arith)
                requires
                    d1b * rr == -(d1 * sr),
                    sr * sr == ss * rr,
                    rr > 0,
                    sr > 0;
            assert((0 <= d1b + sr) == (d1 <= rr)) by (nonlinear_arith)
                requires
                    d1b * rr == -(d1 * sr),
                    sr * sr == ss * rr,
                    rr > 0,
                    sr > 0;
        } else {
            assert((0 <= d1b) == (0 <= d1)) by (nonlinear_arith)
                requires
                    d1b * rr == -(d1 * sr),
                    rr > 0,
                    sr < 0;
            assert((d1b + sr <= ss) == (d1 + sr <= rr)) by (nonlinear_arith)
                requires
                    d1b * rr == -(d1 * sr),
                    sr * sr == ss * rr,
                    rr > 0,
                    sr < 0;
            assert(meets1 == (sr < 0 && d1 + sr <= rr && 0 <= d1)) by (nonlinear_arith)
                requires
                    meets1 == ((sr < 0 && d1 + sr <= rr && 0 <= d1) || (d1 <= rr && 0 <= d1
                        + sr)),
                    sr < 0;
            assert(meets2 == (sr < 0 && d1b + sr <= ss && 0 <= d1b)) by (nonlinear_arith)
                requires
                    meets2 == ((sr < 0 && d1b + sr <= ss && 0 <= d1b) || (d1b <= ss && 0 <= d1b
                        + sr)),
                    sr < 0;
        }
    }
}

} // verus!
