//! The tagged result of a pairwise geometric test, and the trait the
//! shape pairs implement.

use vstd::prelude::*;
use crate::frac::{FracPoint2, frac_pt_wf};

verus! {

/// The mathematical value of an intersection result: the same tags as
/// [`Intersection`], with the contact points of `IntersectsN` as a sequence.
pub enum SpecIntersection {
    Outside,
    Inside,
    InverseContain,
    Parallel,
    Overlap(FracPoint2, FracPoint2),
    Intersects(FracPoint2, Option<FracPoint2>),
    IntersectsN(Seq<FracPoint2>),
}

/// Every contact point carried by the result is a well-formed rational point.
pub open spec fn spec_result_wf(s: SpecIntersection) -> bool {
    match s {
        SpecIntersection::Outside => true,
        SpecIntersection::Inside => true,
        SpecIntersection::InverseContain => true,
        SpecIntersection::Parallel => true,
        SpecIntersection::Overlap(a, b) => frac_pt_wf(a) && frac_pt_wf(b),
        SpecIntersection::Intersects(a, b) => frac_pt_wf(a) && (b matches Some(p) ==> frac_pt_wf(p)),
        SpecIntersection::IntersectsN(ps) => forall|i: int| 0 <= i < ps.len() ==> frac_pt_wf(#[trigger] ps[i]),
    }
}

/// The tagged outcome of a pairwise geometric test.
///
/// `Outside` and `Inside` describe the second shape relative to the first;
/// `InverseContain` says the first shape lies inside the second;
/// `Parallel` is returned for non-collinear parallel segments;
/// `Overlap` carries the shared sub-segment of two collinear segments;
/// `Intersects` carries one contact point and possibly a second;
/// `IntersectsN` carries every contact point a box's edges contribute.
#[derive(Debug, Clone)]
pub enum Intersection {
    Outside,
    Inside,
    InverseContain,
    Parallel,
    Overlap(FracPoint2, FracPoint2),
    Intersects(FracPoint2, Option<FracPoint2>),
    IntersectsN(Vec<FracPoint2>),
}

impl View for Intersection {
    type V = SpecIntersection;

    open spec fn view(&self) -> SpecIntersection {
        match *self {
            Intersection::Outside => SpecIntersection::Outside,
            Intersection::Inside => SpecIntersection::Inside,
            Intersection::InverseContain => SpecIntersection::InverseContain,
            Intersection::Parallel => SpecIntersection::Parallel,
            Intersection::Overlap(a, b) => SpecIntersection::Overlap(a, b),
            Intersection::Intersects(a, b) => SpecIntersection::Intersects(a, b),
            Intersection::IntersectsN(ref ps) => SpecIntersection::IntersectsN(ps@),
        }
    }
}

impl Intersection {
    /// Whether the result says the second shape lies inside the first.
    pub fn inside(&self) -> (b: bool)
        ensures
            b == (self@ is Inside),
    {
        match *self {
            Intersection::Inside => true,
            _ => false,
        }
    }

    /// Whether the result says the shapes are apart.
    pub fn outside(&self) -> (b: bool)
        ensures
            b == (self@ is Outside),
    {
        match *self {
            Intersection::Outside => true,
            _ => false,
        }
    }

    /// Whether the result carries a single pair of contact points.
    pub fn intersects(&self) -> (b: bool)
        ensures
            b == (self@ is Intersects),
    {
        match *self {
            Intersection::Intersects(_, _) => true,
            _ => false,
        }
    }
}

fn frac_points_eq(a: &Vec<FracPoint2>, b: &Vec<FracPoint2>) -> (r: bool)
    ensures
        r == (a@ == b@),
{
    if a.len() != b.len() {
        return false;
    }
    let mut i: usize = 0;
    while i < a.len()
        invariant
            0 <= i <= a.len(),
            a@.len() == b@.len(),
            forall|j: int| 0 <= j < i ==> a@[j] == b@[j],
        decreases a.len() - i,
    {
        if a[i] != b[i] {
            return false;
        }
        i += 1;
    }
    proof {
        assert(a@ =~= b@);
    }
    true
}

impl PartialEq for Intersection {
    fn eq(&self, other: &Intersection) -> (r: bool) {
        match (self, other) {
            (Intersection::Outside, Intersection::Outside) => true,
            (Intersection::Inside, Intersection::Inside) => true,
            (Intersection::InverseContain, Intersection::InverseContain) => true,
            (Intersection::Parallel, Intersection::Parallel) => true,
            (Intersection::Overlap(a1, b1), Intersection::Overlap(a2, b2)) => {
                *a1 == *a2 && *b1 == *b2
            },
            (Intersection::Intersects(a1, o1), Intersection::Intersects(a2, o2)) => {
                *a1 == *a2 && match (o1, o2) {
                    (Some(p1), Some(p2)) => *p1 == *p2,
                    (None, None) => true,
                    _ => false,
                }
            },
            (Intersection::IntersectsN(v1), Intersection::IntersectsN(v2)) => {
                frac_points_eq(v1, v2)
            },
            _ => false,
        }
    }
}

impl vstd::std_specs::cmp::PartialEqSpecImpl for Intersection {
    open spec fn obeys_eq_spec() -> bool {
        true
    }

    open spec fn eq_spec(&self, other: &Intersection) -> bool {
        self@ == other@
    }
}

/// A pairwise geometric test between a shape and another shape or point.
pub trait Intersect<T> {
    /// The exact result of the test.
    spec fn intersection_spec(&self, other: &T) -> SpecIntersection;

    /// Inputs on which the exact arithmetic is computed without overflow.
    spec fn intersect_req(&self, other: &T) -> bool;

    /// The boolean "do the shapes meet" projection of the result.
    spec fn intersects_spec(&self, other: &T) -> bool;

    /// The boolean "does the first shape contain the second" projection.
    spec fn contains_spec(&self, other: &T) -> bool;

    fn intersection(&self, other: &T) -> (r: Intersection)
        requires
            self.intersect_req(other),
        ensures
            r@ == self.intersection_spec(other),
            spec_result_wf(r@),
    ;

    fn intersects(&self, other: &T) -> (r: bool)
        requires
            self.intersect_req(other),
        ensures
            r == self.intersects_spec(other),
    ;

    fn contains(&self, other: &T) -> (r: bool)
        requires
            self.intersect_req(other),
        ensures
            r == self.contains_spec(other),
    ;
}

} // verus!
