//! Tests for the pairwise intersection engine.

use collide2d::vector::Point2;
use collide2d::frac::{Frac, FracPoint2};
use collide2d::intersect::{Intersect, Intersection};
use collide2d::primitive::{Circle, Line, AABB2};
use collide2d::vector::{AddScalar, Cross, Dot, Vector2};

fn fp(x: i64, y: i64) -> FracPoint2 {
    FracPoint2::new(Frac::from_int(x), Frac::from_int(y))
}

#[test]
fn line_intersection() {
    let mut l1 = Line::new(Point2::new(-5, 5), Point2::new(-1, 5));
    let mut l2 = Line::new(Point2::new(0, -5), Point2::new(0, 5));

    // no intersection
    assert_eq!(l1.intersection(&l2), Intersection::Outside);

    l1.b.x = 5;
    // intersection
    assert_eq!(l1.intersection(&l2), Intersection::Intersects(fp(0, 5), None));

    l1 = Line::new(Point2::new(0, 0), Point2::new(0, 10));
    l2 = Line::new(Point2::new(2, 0), Point2::new(2, 10));
    // parallel, vertical
    assert_eq!(l1.intersection(&l2), Intersection::Parallel);

    l1 = Line::new(Point2::new(0, 0), Point2::new(5, 5));
    l2 = Line::new(Point2::new(2, 0), Point2::new(7, 5));
    // parallel, diagonal
    assert_eq!(l1.intersection(&l2), Intersection::Parallel);

    l1 = Line::new(Point2::new(0, 0), Point2::new(5, 5));
    l2 = Line::new(Point2::new(2, 2), Point2::new(7, 7));
    // collinear, overlap, clipped to the first segment
    assert_eq!(l1.intersection(&l2), Intersection::Overlap(fp(2, 2), fp(5, 5)));

    l1 = Line::new(Point2::new(0, 0), Point2::new(5, 5));
    l2 = Line::new(Point2::new(7, 7), Point2::new(10, 10));
    // collinear, no overlap
    assert_eq!(l1.intersection(&l2), Intersection::Outside);

    l1.b.x = 15;
    l1.b.y = 15;
    // with exact arithmetic the shared endpoints come out whole
    assert_eq!(l1.intersection(&l2), Intersection::Overlap(fp(7, 7), fp(10, 10)));
    assert_eq!(l1.contains(&l2), true)
}

#[test]
fn circle_line_intersection() {
    let circle = Circle::new(Point2::new(3, 1), 6);
    let mut line = Line::new(Point2::new(-3, -3), Point2::new(-3, 3));

    // tangent
    assert_eq!(circle.intersection(&line), Intersection::Intersects(fp(-3, 1), None));

    line.a = Point2::new(-6, 1);
    line.b = Point2::new(12, 1);
    // intersection A -> B
    assert_eq!(
        circle.intersection(&line),
        Intersection::Intersects(fp(-3, 1), Some(fp(9, 1)))
    );

    let temp = line.a;
    line.a = line.b;
    line.b = temp;
    // intersection B -> A
    assert_eq!(
        circle.intersection(&line),
        Intersection::Intersects(fp(9, 1), Some(fp(-3, 1)))
    );

    line.b = line.a;
    line.a = circle.pos.clone();
    // intersection A inside circle
    assert_eq!(circle.intersection(&line), Intersection::Intersects(fp(9, 1), None));

    line.a = Point2::new(-6, 1);
    line.b = circle.pos;
    // intersection B inside circle
    assert_eq!(circle.intersection(&line), Intersection::Intersects(fp(-3, 1), None));

    line.a = circle.pos.add_scalar(circle.radius / 2);
    line.b = circle.pos;
    // line completely inside
    assert_eq!(circle.intersection(&line), Intersection::Inside);

    line.a = Point2::new(-20, 20);
    line.b = Point2::new(20, 20);
    // line completely outside
    assert_eq!(circle.intersection(&line), Intersection::Outside);

    line.b = line.a.clone();
    // zero length line outside
    assert_eq!(circle.intersection(&line), Intersection::Outside);

    line.a = circle.pos.clone();
    line.b = line.a.clone();
    // zero length line inside
    assert_eq!(circle.intersection(&line), Intersection::Inside);
}

#[test]
fn circle_aabb2_intersection() {
    let mut circle = Circle::new(Point2::new(0, 0), 5);
    let aabb = AABB2::new(Point2::new(-5, 5), Point2::new(5, -5));

    // four faces
    assert_eq!(
        circle.intersection(&aabb),
        Intersection::IntersectsN(vec![fp(0, 5), fp(5, 0), fp(0, -5), fp(-5, 0)])
    );

    // four corners exactly on the circle: with exact comparisons the
    // boundary contact does not count, and the box holds the centre
    let on_corners = Circle::new(Point2::new(0, 0), 5);
    let corner_box = AABB2::new(Point2::new(-3, 4), Point2::new(3, -4));
    assert_eq!(on_corners.intersection(&corner_box), Intersection::InverseContain);

    // inside
    circle.radius = 10;
    assert_eq!(circle.intersection(&aabb), Intersection::Inside);

    // circle inside aabb
    circle.radius = 3;
    assert_eq!(circle.intersection(&aabb), Intersection::InverseContain);
}

#[test]
fn perpendicular_unit_segments_cross_at_midpoints() {
    // two perpendicular segments of length two crossing at their midpoints
    let l1 = Line::new(Point2::new(0, 0), Point2::new(2, 0));
    let l2 = Line::new(Point2::new(1, -1), Point2::new(1, 1));
    assert_eq!(l1.intersection(&l2), Intersection::Intersects(fp(1, 0), None));
}

#[test]
fn collinear_overlap_is_the_clipped_shared_interval() {
    // the second segment sticks out past the first: the overlap is
    // clipped to the shared sub-interval
    let l1 = Line::new(Point2::new(0, 0), Point2::new(10, 0));
    let l2 = Line::new(Point2::new(4, 0), Point2::new(14, 0));
    assert_eq!(l1.intersection(&l2), Intersection::Overlap(fp(4, 0), fp(10, 0)));

    // the opposite direction inverts the projection order, so the
    // clipped endpoints still come out near end first
    let l3 = Line::new(Point2::new(14, 0), Point2::new(4, 0));
    assert_eq!(l1.intersection(&l3), Intersection::Overlap(fp(4, 0), fp(10, 0)));

    // a contained segment is its own overlap
    let l4 = Line::new(Point2::new(2, 0), Point2::new(6, 0));
    assert_eq!(l1.intersection(&l4), Intersection::Overlap(fp(2, 0), fp(6, 0)));
}

#[test]
fn roots_on_one_side_of_the_segment_are_outside() {
    // the segment's line crosses the circle, but both crossings lie
    // before the segment's start: apart, not a contact
    let c = Circle::new(Point2::new(0, 0), 1);
    let right = Line::new(Point2::new(5, 0), Point2::new(6, 0));
    assert_eq!(c.intersection(&right), Intersection::Outside);

    // and likewise past the segment's end
    let left = Line::new(Point2::new(-6, 0), Point2::new(-5, 0));
    assert_eq!(c.intersection(&left), Intersection::Outside);
}

#[test]
fn intersects_is_symmetric() {
    let l1 = Line::new(Point2::new(0, 0), Point2::new(4, 4));
    let l2 = Line::new(Point2::new(0, 4), Point2::new(4, 0));
    assert_eq!(l1.intersects(&l2), l2.intersects(&l1));
    assert!(l1.intersects(&l2));

    let l3 = Line::new(Point2::new(20, 20), Point2::new(30, 20));
    assert_eq!(l1.intersects(&l3), l3.intersects(&l1));
    assert!(!l1.intersects(&l3));

    let c = Circle::new(Point2::new(0, 0), 5);
    let chord = Line::new(Point2::new(-6, 0), Point2::new(6, 0));
    assert_eq!(c.intersects(&chord), chord.intersects(&c));
}

#[test]
fn classification_is_idempotent() {
    let c = Circle::new(Point2::new(3, 1), 6);
    let line = Line::new(Point2::new(-6, 1), Point2::new(12, 1));
    assert_eq!(c.intersection(&line), c.intersection(&line));

    let b = AABB2::new(Point2::new(-5, 5), Point2::new(5, -5));
    let q = Circle::new(Point2::new(0, 0), 5);
    assert_eq!(q.intersection(&b), q.intersection(&b));
}

#[test]
fn aabb_point_boundary_is_touch_not_containment() {
    let b = AABB2::new(Point2::new(-5, 5), Point2::new(5, -5));
    let edge = Point2::new(5, 0);
    assert!(!b.contains(&edge));
    assert!(b.intersects(&edge));
    assert_eq!(b.intersection(&edge), Intersection::Intersects(fp(5, 0), None));

    let inside = Point2::new(0, 0);
    assert!(b.contains(&inside));
    assert_eq!(b.intersection(&inside), Intersection::Inside);

    let outside = Point2::new(7, 9);
    assert_eq!(b.intersection(&outside), Intersection::Outside);

    // a point aligned with an edge's line but beyond the corner is not
    // on the boundary
    let far = Point2::new(5, 100);
    assert!(!b.intersects(&far));
    let corner = Point2::new(5, 5);
    assert!(b.intersects(&corner));
}

#[test]
fn circle_point_is_axis_aligned() {
    let c = Circle::new(Point2::new(0, 0), 5);
    // inside on both axes, although farther than the radius euclideanly
    assert_eq!(c.intersection(&Point2::new(4, 4)), Intersection::Inside);
    assert_eq!(c.intersection(&Point2::new(6, 6)), Intersection::Outside);
    assert_eq!(
        c.intersection(&Point2::new(5, 2)),
        Intersection::Intersects(fp(5, 2), None)
    );
    assert!(c.intersects(&Point2::new(5, 5)));
    assert!(!c.intersects(&Point2::new(5, 2)));
}

#[test]
fn fractions_reduce_to_canonical_form() {
    assert_eq!(Frac::new(2, 4), Frac::new(1, 2));
    assert_eq!(Frac::new(-2, -4), Frac::new(1, 2));
    assert_eq!(Frac::new(2, -4), Frac::new(-1, 2));
    assert_eq!(Frac::new(0, 7), Frac::from_int(0));
    assert_eq!(Frac::new(9, 3), Frac::from_int(3));
    let f = Frac::new(-3, 6);
    assert_eq!(f.num, -1);
    assert_eq!(f.den, 2);
    assert!(f.le_int(0));
    assert!(!f.ge_int(0));
}

#[test]
fn vector_products() {
    let a = Vector2::new(3, 4);
    let b = Vector2::new(-2, 5);
    assert_eq!(a.cross(&b), 3 * 5 - 4 * (-2));
    assert_eq!(a.dot(&b), 3 * (-2) + 4 * 5);
    let p = Point2::new(1, 2);
    let q = Point2::new(3, 4);
    assert_eq!(p.cross(&q), 1 * 4 - 2 * 3);
    assert_eq!(p.dot(&q), 1 * 3 + 2 * 4);
    assert_eq!(p.add_scalar(10), Point2::new(11, 12));
    assert_eq!(q.sub(&p), Vector2::new(2, 2));
}
