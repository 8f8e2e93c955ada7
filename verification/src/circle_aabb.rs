//! Circle-versus-box intersection: the box is decomposed into its four
//! edges and the circle is intersected with each in turn.

use vstd::prelude::*;
use crate::vector::Point2;
use crate::frac::{FracPoint2, frac_pt_wf};
use crate::intersect::{Intersect, Intersection, SpecIntersection, spec_result_wf};
use crate::primitive::{Circle, Line, AABB2, circle_in_range, aabb_in_range, aabb_contains_pt, dist_sq};
use crate::circle_line::{spec_circle_line_intersection, lt_sqrt};

verus! {

/// The box's top edge, traversed left to right.
pub open spec fn spec_top_edge(b: AABB2) -> Line {
    Line { a: b.tl, b: Point2 { x: b.br.x, y: b.tl.y } }
}

/// The box's right edge, traversed top to bottom.
pub open spec fn spec_right_edge(b: AABB2) -> Line {
    Line { a: Point2 { x: b.br.x, y: b.tl.y }, b: b.br }
}

/// The box's bottom edge, traversed right to left.
pub open spec fn spec_bottom_edge(b: AABB2) -> Line {
    Line { a: b.br, b: Point2 { x: b.tl.x, y: b.br.y } }
}

/// The box's left edge, traversed bottom to top.
pub open spec fn spec_left_edge(b: AABB2) -> Line {
    Line { a: Point2 { x: b.tl.x, y: b.br.y }, b: b.tl }
}

/// The contact points one edge contributes to the collected result.
pub open spec fn spec_edge_pts(r: SpecIntersection) -> Seq<FracPoint2> {
    match r {
        SpecIntersection::Intersects(a, ob) => match ob {
            Some(bb) => seq![a, bb],
            None => seq![a],
        },
        _ => Seq::empty(),
    }
}

/// The exact circle-versus-box result.
///
/// Each edge is intersected with the circle in traversal order: top,
/// right, bottom, left.  An edge fully inside the circle makes the
/// whole result `Inside` (the circle swallows the box's boundary).
/// All four edges apart means either `InverseContain` (the box holds
/// the circle's centre) or `Outside`.  Otherwise the contact points of
/// the edges are collected, in traversal order, into `IntersectsN`.
pub open spec fn spec_circle_aabb_intersection(c: Circle, b: AABB2) -> SpecIntersection {
    let r1 = spec_circle_line_intersection(c, spec_top_edge(b));
    let r2 = spec_circle_line_intersection(c, spec_right_edge(b));
    let r3 = spec_circle_line_intersection(c, spec_bottom_edge(b));
    let r4 = spec_circle_line_intersection(c, spec_left_edge(b));
    if r1 is Inside || r2 is Inside || r3 is Inside || r4 is Inside {
        SpecIntersection::Inside
    } else if r1 is Outside && r2 is Outside && r3 is Outside && r4 is Outside {
        if aabb_contains_pt(b, c.pos) {
            SpecIntersection::InverseContain
        } else {
            SpecIntersection::Outside
        }
    } else {
        SpecIntersection::IntersectsN(
            spec_edge_pts(r1) + spec_edge_pts(r2) + spec_edge_pts(r3) + spec_edge_pts(r4),
        )
    }
}

/// Appends the contact points one edge contributed.
fn push_edge_pts(v: &mut Vec<FracPoint2>, r: &Intersection)
    requires
        spec_result_wf(r@),
    ensures
        final(v)@ == old(v)@ + spec_edge_pts(r@),
        (forall|i: int| 0 <= i < old(v)@.len() ==> frac_pt_wf(#[trigger] old(v)@[i])) ==> (forall|
            i: int,
        | 0 <= i < final(v)@.len() ==> frac_pt_wf(#[trigger] final(v)@[i])),
{
    match r {
        Intersection::Intersects(a, ob) => {
            v.push(*a);
            match ob {
                Some(bb) => {
                    v.push(*bb);
                    assert(v@ =~= old(v)@ + spec_edge_pts(r@));
                },
                None => {
                    assert(v@ =~= old(v)@ + spec_edge_pts(r@));
                },
            }
        },
        _ => {
            assert(v@ =~= old(v)@ + spec_edge_pts(r@));
        },
    }
}

impl Intersect<AABB2> for Circle {
    open spec fn intersection_spec(&self, other: &AABB2) -> SpecIntersection {
        spec_circle_aabb_intersection(*self, *other)
    }

    open spec fn intersect_req(&self, other: &AABB2) -> bool {
        circle_in_range(*self) && aabb_in_range(*other)
    }

    open spec fn intersects_spec(&self, other: &AABB2) -> bool {
        spec_circle_aabb_intersection(*self, *other) is IntersectsN
    }

    open spec fn contains_spec(&self, other: &AABB2) -> bool {
        spec_circle_aabb_intersection(*self, *other) is Inside
    }

    fn intersection(&self, other: &AABB2) -> (ret: Intersection) {
        let top = Line::new(other.tl, Point2::new(other.br.x, other.tl.y));
        let right = Line::new(Point2::new(other.br.x, other.tl.y), other.br);
        let bottom = Line::new(other.br, Point2::new(other.tl.x, other.br.y));
        let left = Line::new(Point2::new(other.tl.x, other.br.y), other.tl);

        let r1 = self.intersection(&top);
        let r2 = self.intersection(&right);
        let r3 = self.intersection(&bottom);
        let r4 = self.intersection(&left);

        if r1.inside() || r2.inside() || r3.inside() || r4.inside() {
            return Intersection::Inside;
        }

        if r1.outside() && r2.outside() && r3.outside() && r4.outside() {
            if other.contains(&self.pos) {
                return Intersection::InverseContain;
            }
            return Intersection::Outside;
        }

        let mut p: Vec<FracPoint2> = Vec::new();
        push_edge_pts(&mut p, &r1);
        push_edge_pts(&mut p, &r2);
        push_edge_pts(&mut p, &r3);
        push_edge_pts(&mut p, &r4);
        proof {
            assert(p@ =~= spec_edge_pts(r1@) + spec_edge_pts(r2@) + spec_edge_pts(r3@)
                + spec_edge_pts(r4@));
        }
        Intersection::IntersectsN(p)
    }

    fn intersects(&self, other: &AABB2) -> (ret: bool) {
        let r = self.intersection(other);
        match r {
            Intersection::IntersectsN(_) => true,
            _ => false,
        }
    }

    fn contains(&self, other: &AABB2) -> (ret: bool) {
        let r = self.intersection(other);
        match r {
            Intersection::Inside => true,
            _ => false,
        }
    }
}

/// The circle strictly encloses all four corners of the box.
pub open spec fn circle_covers_box(c: Circle, b: AABB2) -> bool {
    &&& dist_sq(b.tl, c.pos) < c.radius * c.radius
    &&& dist_sq(Point2 { x: b.br.x, y: b.tl.y }, c.pos) < c.radius * c.radius
    &&& dist_sq(b.br, c.pos) < c.radius * c.radius
    &&& dist_sq(Point2 { x: b.tl.x, y: b.br.y }, c.pos) < c.radius * c.radius
}

/// A segment whose endpoints both lie strictly inside the circle is
/// classified as fully inside it.
pub proof fn lemma_covered_edge_inside(c: Circle, l: Line)
    requires
        c.radius >= 0,
        dist_sq(l.a, c.pos) < c.radius * c.radius,
        dist_sq(l.b, c.pos) < c.radius * c.radius,
    ensures
        spec_circle_line_intersection(c, l) is Inside,
{
    let r = c.radius as int;
    let fx = l.a.x - c.pos.x;
    let fy = l.a.y - c.pos.y;
    let dx = l.b.x - l.a.x;
    let dy = l.b.y - l.a.y;
    if dx == 0 && dy == 0 {
        let ax: int = if fx >= 0 { fx } else { -fx };
        let ay: int = if fy >= 0 { fy } else { -fy };
        assert(ax < r && ay < r) by (nonlinear_arith)
            requires
                fx * fx + fy * fy < r * r,
                r >= 0,
                ax == (if fx >= 0 { fx } else { -fx }),
                ay == (if fy >= 0 { fy } else { -fy });
    } else {
        let qa = crate::circle_line::spec_qa(c, l);
        let qb = crate::circle_line::spec_qb(c, l);
        let qc = crate::circle_line::spec_qc(c, l);
        let dis = crate::circle_line::spec_disc(c, l);
        assert(qc == dist_sq(l.a, c.pos) - r * r);
        assert(qc < 0);
        assert(qa + qb + qc == dist_sq(l.b, c.pos) - r * r) by (nonlinear_arith)
            requires
                qa == dx * dx + dy * dy,
                qb == 2 * (fx * dx + fy * dy),
                qc == fx * fx + fy * fy - r * r,
                dist_sq(l.b, c.pos) == (fx + dx) * (fx + dx) + (fy + dy) * (fy + dy);
        assert(qa > 0) by (nonlinear_arith)
            requires
                qa == dx * dx + dy * dy,
                dx != 0 || dy != 0;
        assert(dis > qb * qb && dis > (2 * qa + qb) * (2 * qa + qb)) by (nonlinear_arith)
            requires
                dis == qb * qb - 4 * qa * qc,
                qa > 0,
                qc < 0,
                qa + qb + qc < 0;
        assert(dis > 0) by (nonlinear_arith)
            requires
                dis > qb * qb;
        assert(lt_sqrt(-qb, dis)) by (nonlinear_arith)
            requires
                dis > qb * qb;
        assert(lt_sqrt(2 * qa + qb, dis));
    }
}

/// A circle that strictly encloses every corner of a box classifies the
/// whole box as inside itself.
pub proof fn lemma_covers_box_inside(c: Circle, b: AABB2)
    requires
        c.radius >= 0,
        circle_covers_box(c, b),
    ensures
        spec_circle_aabb_intersection(c, b) is Inside,
{
    lemma_covered_edge_inside(c, spec_top_edge(b));
}

/// Any point of the closed box lies strictly inside a circle that
/// strictly encloses the box's corners.
pub proof fn lemma_covered_box_point(c: Circle, b: AABB2, p: Point2)
    requires
        c.radius >= 0,
        circle_covers_box(c, b),
        b.tl.x <= p.x <= b.br.x,
        b.br.y <= p.y <= b.tl.y,
    ensures
        dist_sq(p, c.pos) < c.radius * c.radius,
{
    let dx = p.x - c.pos.x;
    let dy = p.y - c.pos.y;
    let xl = b.tl.x - c.pos.x;
    let xr = b.br.x - c.pos.x;
    let yt = b.tl.y - c.pos.y;
    let yb = b.br.y - c.pos.y;
    assert(dx * dx <= xl * xl || dx * dx <= xr * xr) by (nonlinear_arith)
        requires
            xl <= dx <= xr;
    assert(dy * dy <= yb * yb || dy * dy <= yt * yt) by (nonlinear_arith)
        requires
            yb <= dy <= yt;
    assert(dist_sq(p, c.pos) == dx * dx + dy * dy);
    assert(dist_sq(b.tl, c.pos) == xl * xl + yt * yt);
    assert(dist_sq(Point2 { x: b.br.x, y: b.tl.y }, c.pos) == xr * xr + yt * yt);
    assert(dist_sq(b.br, c.pos) == xr * xr + yb * yb);
    assert(dist_sq(Point2 { x: b.tl.x, y: b.br.y }, c.pos) == xl * xl + yb * yb);
}

/// A circle that strictly encloses a box's corners strictly encloses
/// the corners of any box nested inside it.
pub proof fn lemma_covers_sub_box(c: Circle, outer: AABB2, inner: AABB2)
    requires
        c.radius >= 0,
        circle_covers_box(c, outer),
        outer.tl.x <= inner.tl.x <= inner.br.x <= outer.br.x,
        outer.br.y <= inner.br.y <= inner.tl.y <= outer.tl.y,
    ensures
        circle_covers_box(c, inner),
{
    lemma_covered_box_point(c, outer, inner.tl);
    lemma_covered_box_point(c, outer, Point2 { x: inner.br.x, y: inner.tl.y });
    lemma_covered_box_point(c, outer, inner.br);
    lemma_covered_box_point(c, outer, Point2 { x: inner.tl.x, y: inner.br.y });
}

} // verus!
