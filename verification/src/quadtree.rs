//! A quadtree spatial index over reference-counted entities.
//!
//! Each node is either a leaf holding a bucket of entity handles or an
//! internal node with exactly four children covering the NW, NE, SE and
//! SW quadrants of its volume.  A leaf subdivides, once and
//! irreversibly, when an insertion would push its bucket past the
//! configured capacity; a volume too small to split any further keeps
//! growing its bucket instead, so every operation terminates.

use vstd::prelude::*;
use std::rc::Rc;
use vstd::multiset::Multiset;
use crate::vector::Point2;
use crate::primitive::{Circle, AABB2, aabb_wf, aabb_in_range, circle_in_range, aabb_contains_pt,
    aabb_touches_pt};
use crate::intersect::Intersect;
use crate::circle_aabb::{spec_circle_aabb_intersection, circle_covers_box, lemma_covers_box_inside, lemma_covers_sub_box};

verus! {

/// An entity the index can route: it exposes a stable current position.
pub trait SpacialIndex {
    /// The position the contracts see.
    spec fn spec_position(&self) -> Point2;

    fn get_position(&self) -> (p: Point2)
        ensures
            p == self.spec_position(),
    ;
}

/// A point entity, the simplest thing the index can hold.
#[derive(Debug, Clone, PartialEq, Eq, Structural)]
pub struct TestEntity {
    pub pos: Point2,
}

impl TestEntity {
    pub fn new(p: Point2) -> (e: TestEntity)
        ensures
            e == (TestEntity { pos: p }),
    {
        TestEntity { pos: p }
    }
}

impl SpacialIndex for TestEntity {
    open spec fn spec_position(&self) -> Point2 {
        self.pos
    }

    fn get_position(&self) -> (p: Point2) {
        self.pos
    }
}

/// The point is neither inside the box nor touching one of its edge
/// coordinates: the box's point test reports `Outside`.
pub open spec fn pt_outside_vol(b: AABB2, p: Point2) -> bool {
    !aabb_contains_pt(b, p) && !aabb_touches_pt(b, p)
}

/// The box is large enough to quarter into strictly smaller quadrants.
pub open spec fn aabb_splittable(v: AABB2) -> bool {
    v.br.x - v.tl.x >= 2 && v.tl.y - v.br.y >= 2
}

/// The horizontal coordinate where the box splits into west and east.
pub open spec fn mid_x(v: AABB2) -> int {
    v.tl.x + (v.br.x - v.tl.x) / 2
}

/// The vertical coordinate where the box splits into north and south.
pub open spec fn mid_y(v: AABB2) -> int {
    v.tl.y - (v.tl.y - v.br.y) / 2
}

/// The north-west quadrant of a box.
pub open spec fn nw_vol(v: AABB2) -> AABB2 {
    AABB2 { tl: v.tl, br: Point2 { x: mid_x(v) as i64, y: mid_y(v) as i64 } }
}

/// The north-east quadrant of a box.
pub open spec fn ne_vol(v: AABB2) -> AABB2 {
    AABB2 {
        tl: Point2 { x: mid_x(v) as i64, y: v.tl.y },
        br: Point2 { x: v.br.x, y: mid_y(v) as i64 },
    }
}

/// The south-east quadrant of a box.
pub open spec fn se_vol(v: AABB2) -> AABB2 {
    AABB2 { tl: Point2 { x: mid_x(v) as i64, y: mid_y(v) as i64 }, br: v.br }
}

/// The south-west quadrant of a box.
pub open spec fn sw_vol(v: AABB2) -> AABB2 {
    AABB2 {
        tl: Point2 { x: v.tl.x, y: mid_y(v) as i64 },
        br: Point2 { x: mid_x(v) as i64, y: v.br.y },
    }
}

/// The measure the recursive operations decrease: the box's width plus
/// its height.
pub open spec fn vol_size(v: AABB2) -> int {
    (v.br.x - v.tl.x) + (v.tl.y - v.br.y)
}

/// The quadrant a position is routed to: the first of NW, NE, SE, SW
/// whose volume accepts it, or `-1` when the box rejects it everywhere.
pub open spec fn spec_route(v: AABB2, p: Point2) -> int {
    if !pt_outside_vol(nw_vol(v), p) {
        0
    } else if !pt_outside_vol(ne_vol(v), p) {
        1
    } else if !pt_outside_vol(se_vol(v), p) {
        2
    } else if !pt_outside_vol(sw_vol(v), p) {
        3
    } else {
        -1
    }
}

/// The handles of the sequence that the box routes to quadrant `j`.
pub open spec fn route_filter<T: SpacialIndex>(s: Seq<Rc<T>>, v: AABB2, j: int) -> Multiset<
    Rc<T>,
>
    decreases s.len(),
{
    if s.len() == 0 {
        Multiset::empty()
    } else if spec_route(v, s.first().spec_position()) == j {
        route_filter(s.drop_first(), v, j).insert(s.first())
    } else {
        route_filter(s.drop_first(), v, j)
    }
}

/// A quadtree node: a bounded-capacity bucket of entity handles, the
/// volume it covers, and either no children or exactly four.
#[derive(Debug)]
#[verifier::reject_recursive_types(T)]
pub struct QuadTree<T> {
    bucket: Vec<Rc<T>>,
    children: Option<Box<Quads<T>>>,
    capacity: usize,
    volume: AABB2,
}

/// The four children of an internal node, in NW, NE, SE, SW order.
#[derive(Debug)]
#[verifier::reject_recursive_types(T)]
struct Quads<T> {
    nw: QuadTree<T>,
    ne: QuadTree<T>,
    se: QuadTree<T>,
    sw: QuadTree<T>,
}

impl<T: SpacialIndex> QuadTree<T> {
    /// Every entity handle stored in the subtree, in traversal order:
    /// a leaf's bucket, or the four children's contents in NW, NE, SE,
    /// SW order.
    pub closed spec fn contents(self) -> Seq<Rc<T>>
        decreases self,
    {
        match self.children {
            None => self.bucket@,
            Some(q) => q.nw.contents() + q.ne.contents() + q.se.contents() + q.sw.contents(),
        }
    }

    /// The volume this node covers.
    pub closed spec fn spec_volume(self) -> AABB2 {
        self.volume
    }

    /// The bucket capacity that triggers subdivision.
    pub closed spec fn spec_capacity(self) -> int {
        self.capacity as int
    }

    /// Whether this node is a leaf.
    pub closed spec fn is_leaf(self) -> bool {
        self.children is None
    }

    /// The handles sitting directly in this node's bucket.
    pub closed spec fn bucket_seq(self) -> Seq<Rc<T>> {
        self.bucket@
    }

    /// Well-formedness: the volume is ordered and in coordinate range,
    /// the capacity positive, every stored entity's position accepted
    /// by the volume, and an internal node has an empty bucket and four
    /// well-formed children covering its quadrants, built only from a
    /// splittable volume.
    pub closed spec fn wf(self) -> bool
        decreases self,
    {
        &&& aabb_wf(self.volume)
        &&& aabb_in_range(self.volume)
        &&& self.capacity >= 1
        &&& forall|i: int|
            0 <= i < self.contents().len() ==> !pt_outside_vol(
                self.volume,
                (#[trigger] self.contents()[i]).spec_position(),
            )
        &&& match self.children {
            None => true,
            Some(q) => {
                &&& self.bucket@.len() == 0
                &&& aabb_splittable(self.volume)
                &&& q.nw.volume == nw_vol(self.volume)
                &&& q.ne.volume == ne_vol(self.volume)
                &&& q.se.volume == se_vol(self.volume)
                &&& q.sw.volume == sw_vol(self.volume)
                &&& q.nw.capacity == self.capacity
                &&& q.ne.capacity == self.capacity
                &&& q.se.capacity == self.capacity
                &&& q.sw.capacity == self.capacity
                &&& q.nw.wf()
                &&& q.ne.wf()
                &&& q.se.wf()
                &&& q.sw.wf()
            },
        }
    }

    /// Builds a single-leaf tree covering `volume`.
    pub fn with_capacity(volume: AABB2, capacity: usize) -> (t: QuadTree<T>)
        requires
            aabb_wf(volume),
            aabb_in_range(volume),
            capacity >= 1,
        ensures
            t.wf(),
            t.contents() == Seq::<Rc<T>>::empty(),
            t.spec_volume() == volume,
            t.spec_capacity() == capacity,
            t.is_leaf(),
    {
        let t = QuadTree { bucket: Vec::new(), children: None, capacity, volume };
        proof {
            assert(t.contents() =~= Seq::<Rc<T>>::empty());
        }
        t
    }

    /// The volume this node covers.
    pub fn volume(&self) -> (v: AABB2)
        ensures
            v == self.spec_volume(),
    {
        self.volume
    }

    /// The bucket capacity that triggers subdivision.
    pub fn capacity(&self) -> (c: usize)
        ensures
            c == self.spec_capacity(),
    {
        self.capacity
    }

    /// How many handles sit directly in this node's bucket.
    pub fn bucket_len(&self) -> (n: usize)
        ensures
            n == self.bucket_seq().len(),
    {
        self.bucket.len()
    }

    /// The handle at one bucket slot.
    pub fn bucket_get(&self, i: usize) -> (e: Rc<T>)
        requires
            i < self.bucket_seq().len(),
        ensures
            e == self.bucket_seq()[i as int],
    {
        self.bucket[i].clone()
    }

    /// Whether this node has been subdivided.
    pub fn is_subdivided(&self) -> (b: bool)
        ensures
            b == !self.is_leaf(),
    {
        self.children.is_some()
    }

    /// The child covering the quadrant at `i`, in NW, NE, SE, SW order,
    /// of a subdivided node.
    pub fn child(&self, i: usize) -> (c: &QuadTree<T>)
        requires
            !self.is_leaf(),
            i < 4,
        ensures
            *c == self.spec_child(i as int),
    {
        match &self.children {
            Some(q) => {
                if i == 0 {
                    &q.nw
                } else if i == 1 {
                    &q.ne
                } else if i == 2 {
                    &q.se
                } else {
                    &q.sw
                }
            },
            None => {
                proof {
                    assert(false);
                }
                &*self
            },
        }
    }

    /// The child at `i`, in NW, NE, SE, SW order.
    pub closed spec fn spec_child(self, i: int) -> QuadTree<T> {
        match self.children {
            Some(q) => {
                if i == 0 {
                    q.nw
                } else if i == 1 {
                    q.ne
                } else if i == 2 {
                    q.se
                } else {
                    q.sw
                }
            },
            None => self,
        }
    }
}

/// Halving stays within the interval, and strictly within it when the
/// width is at least two.
proof fn lemma_half_bounds(w: int)
    requires
        w >= 0,
    ensures
        0 <= w / 2 <= w,
        w >= 2 ==> 1 <= w / 2 <= w - 1,
{
    vstd::arithmetic::div_mod::lemma_fundamental_div_mod(w, 2);
    vstd::arithmetic::div_mod::lemma_mod_bound(w, 2);
}

/// The quadrant volumes of an ordered, in-range box are themselves
/// ordered and in range, and strictly smaller when the box is
/// splittable.
proof fn lemma_quadrant_vols(v: AABB2)
    requires
        aabb_wf(v),
        aabb_in_range(v),
    ensures
        v.tl.x <= mid_x(v) <= v.br.x,
        v.br.y <= mid_y(v) <= v.tl.y,
        aabb_wf(nw_vol(v)) && aabb_in_range(nw_vol(v)),
        aabb_wf(ne_vol(v)) && aabb_in_range(ne_vol(v)),
        aabb_wf(se_vol(v)) && aabb_in_range(se_vol(v)),
        aabb_wf(sw_vol(v)) && aabb_in_range(sw_vol(v)),
        aabb_splittable(v) ==> vol_size(nw_vol(v)) < vol_size(v) && vol_size(ne_vol(v)) < vol_size(
            v,
        ) && vol_size(se_vol(v)) < vol_size(v) && vol_size(sw_vol(v)) < vol_size(v),
{
    lemma_half_bounds(v.br.x - v.tl.x);
    lemma_half_bounds(v.tl.y - v.br.y);
}

/// A point the whole box accepts is accepted by at least one quadrant.
proof fn lemma_quarters_cover(v: AABB2, p: Point2)
    requires
        aabb_wf(v),
        !pt_outside_vol(v, p),
    ensures
        !pt_outside_vol(nw_vol(v), p) || !pt_outside_vol(ne_vol(v), p) || !pt_outside_vol(
            sw_vol(v),
            p,
        ) || !pt_outside_vol(se_vol(v), p),
{
    lemma_half_bounds(v.br.x - v.tl.x);
    lemma_half_bounds(v.tl.y - v.br.y);
}

impl<T: SpacialIndex> QuadTree<T> {
    /// Appends a handle the volume accepts to a leaf's bucket.
    fn leaf_push(&mut self, val: Rc<T>)
        requires
            old(self).wf(),
            old(self).is_leaf(),
            !pt_outside_vol(old(self).spec_volume(), val.spec_position()),
        ensures
            final(self).wf(),
            final(self).is_leaf(),
            final(self).volume == old(self).volume,
            final(self).capacity == old(self).capacity,
            final(self).bucket@ == old(self).bucket@.push(val),
            final(self).contents() == old(self).contents().push(val),
    {
        self.bucket.push(val);
        proof {
            assert(self.contents() == self.bucket@);
            assert(old(self).contents() == old(self).bucket@);
            assert forall|i: int|
                0 <= i < self.contents().len() implies !pt_outside_vol(
                self.volume,
                (#[trigger] self.contents()[i]).spec_position(),
            ) by {
                if i < old(self).contents().len() {
                    assert(self.contents()[i] == old(self).contents()[i]);
                } else {
                    assert(self.contents()[i] == val);
                }
            }
        }
    }

    /// Builds the four fresh leaf children of a splittable volume.
    fn make_quads(volume: AABB2, capacity: usize) -> (q: Box<Quads<T>>)
        requires
            aabb_wf(volume),
            aabb_in_range(volume),
            aabb_splittable(volume),
            capacity >= 1,
        ensures
            q.nw.wf() && q.ne.wf() && q.se.wf() && q.sw.wf(),
            q.nw.is_leaf() && q.ne.is_leaf() && q.se.is_leaf() && q.sw.is_leaf(),
            q.nw.contents() == Seq::<Rc<T>>::empty(),
            q.ne.contents() == Seq::<Rc<T>>::empty(),
            q.se.contents() == Seq::<Rc<T>>::empty(),
            q.sw.contents() == Seq::<Rc<T>>::empty(),
            q.nw.volume == nw_vol(volume),
            q.ne.volume == ne_vol(volume),
            q.se.volume == se_vol(volume),
            q.sw.volume == sw_vol(volume),
            q.nw.capacity == capacity && q.ne.capacity == capacity && q.se.capacity == capacity
                && q.sw.capacity == capacity,
    {
        proof {
            lemma_quadrant_vols(volume);
        }
        let hw = ((volume.br.x - volume.tl.x) as u64 / 2) as i64;
        let hh = ((volume.tl.y - volume.br.y) as u64 / 2) as i64;
        let mx = volume.tl.x + hw;
        let my = volume.tl.y - hh;
        Box::new(
            Quads {
                nw: QuadTree::with_capacity(AABB2::new(volume.tl, Point2::new(mx, my)), capacity),
                ne: QuadTree::with_capacity(
                    AABB2::new(Point2::new(mx, volume.tl.y), Point2::new(volume.br.x, my)),
                    capacity,
                ),
                se: QuadTree::with_capacity(AABB2::new(Point2::new(mx, my), volume.br), capacity),
                sw: QuadTree::with_capacity(
                    AABB2::new(Point2::new(volume.tl.x, my), Point2::new(mx, volume.br.y)),
                    capacity,
                ),
            },
        )
    }
}

/// The handles stored across the four children, in NW, NE, SE, SW order.
spec fn quads_contents<T: SpacialIndex>(q: Quads<T>) -> Seq<Rc<T>> {
    q.nw.contents() + q.ne.contents() + q.se.contents() + q.sw.contents()
}

/// The four children are well-formed and cover the quadrants of `v`
/// with capacity `cap`.
spec fn quads_wf<T: SpacialIndex>(q: Quads<T>, v: AABB2, cap: int) -> bool {
    &&& q.nw.wf() && q.ne.wf() && q.se.wf() && q.sw.wf()
    &&& q.nw.volume == nw_vol(v) && q.ne.volume == ne_vol(v) && q.se.volume == se_vol(v)
        && q.sw.volume == sw_vol(v)
    &&& q.nw.capacity == cap && q.ne.capacity == cap && q.se.capacity == cap && q.sw.capacity
        == cap
}

/// As [`quads_wf`], with all four children still leaves.
spec fn quads_leaves_wf<T: SpacialIndex>(q: Quads<T>, v: AABB2, cap: int) -> bool {
    &&& quads_wf(q, v, cap)
    &&& q.nw.is_leaf() && q.ne.is_leaf() && q.se.is_leaf() && q.sw.is_leaf()
}

/// The child of a quadruple at `k`, in NW, NE, SE, SW order.
spec fn quads_child<T: SpacialIndex>(q: Quads<T>, k: int) -> QuadTree<T> {
    if k == 0 {
        q.nw
    } else if k == 1 {
        q.ne
    } else if k == 2 {
        q.se
    } else {
        q.sw
    }
}

/// Routes one handle to the first quadrant child that accepts its
/// position and appends it to that child's bucket.
fn route_push<T: SpacialIndex>(q: &mut Box<Quads<T>>, val: Rc<T>, parent: Ghost<AABB2>)
    requires
        aabb_wf(parent@),
        quads_leaves_wf(**old(q), parent@, old(q).nw.capacity as int),
        !pt_outside_vol(parent@, val.spec_position()),
    ensures
        quads_leaves_wf(**final(q), parent@, old(q).nw.capacity as int),
        quads_contents(**final(q)).to_multiset() == quads_contents(**old(q)).to_multiset().insert(
            val,
        ),
        0 <= spec_route(parent@, val.spec_position()) < 4,
        final(q).nw.bucket@ == (if spec_route(parent@, val.spec_position()) == 0 {
            old(q).nw.bucket@.push(val)
        } else {
            old(q).nw.bucket@
        }),
        final(q).ne.bucket@ == (if spec_route(parent@, val.spec_position()) == 1 {
            old(q).ne.bucket@.push(val)
        } else {
            old(q).ne.bucket@
        }),
        final(q).se.bucket@ == (if spec_route(parent@, val.spec_position()) == 2 {
            old(q).se.bucket@.push(val)
        } else {
            old(q).se.bucket@
        }),
        final(q).sw.bucket@ == (if spec_route(parent@, val.spec_position()) == 3 {
            old(q).sw.bucket@.push(val)
        } else {
            old(q).sw.bucket@
        }),
{
    broadcast use vstd::seq_lib::group_to_multiset_ensures;
    broadcast use vstd::seq_lib::lemma_multiset_commutative;

    let pos = val.get_position();
    let r1 = q.nw.volume.intersection(&pos);
    if !r1.outside() {
        q.nw.leaf_push(val);
        proof {
            assert(quads_contents(**q).to_multiset() =~= quads_contents(
                **old(q),
            ).to_multiset().insert(val));
        }
        return ;
    }
    let r2 = q.ne.volume.intersection(&pos);
    if !r2.outside() {
        q.ne.leaf_push(val);
        proof {
            assert(quads_contents(**q).to_multiset() =~= quads_contents(
                **old(q),
            ).to_multiset().insert(val));
        }
        return ;
    }
    let r3 = q.se.volume.intersection(&pos);
    if !r3.outside() {
        q.se.leaf_push(val);
        proof {
            assert(quads_contents(**q).to_multiset() =~= quads_contents(
                **old(q),
            ).to_multiset().insert(val));
        }
        return ;
    }
    let r4 = q.sw.volume.intersection(&pos);
    if !r4.outside() {
        q.sw.leaf_push(val);
        proof {
            assert(quads_contents(**q).to_multiset() =~= quads_contents(
                **old(q),
            ).to_multiset().insert(val));
        }
        return ;
    }
    proof {
        lemma_quarters_cover(parent@, val.spec_position());
    }
    assert(false);
}

/// The sequences carry the same handles, so bounds on the positions
/// carry over.
proof fn lemma_pos_transfer<T: SpacialIndex>(a: Seq<Rc<T>>, b: Seq<Rc<T>>, v: AABB2)
    requires
        a.to_multiset() == b.to_multiset(),
        forall|i: int|
            0 <= i < b.len() ==> !pt_outside_vol(v, (#[trigger] b[i]).spec_position()),
    ensures
        forall|i: int|
            0 <= i < a.len() ==> !pt_outside_vol(v, (#[trigger] a[i]).spec_position()),
{
    broadcast use vstd::seq_lib::group_to_multiset_ensures;

    assert forall|i: int|
        0 <= i < a.len() implies !pt_outside_vol(v, (#[trigger] a[i]).spec_position()) by {
        let x = a[i];
        assert(a.contains(x));
        assert(b.to_multiset().count(x) > 0);
        assert(b.contains(x));
        let j = choose|j: int| 0 <= j < b.len() && b[j] == x;
        assert(!pt_outside_vol(v, b[j].spec_position()));
    }
}

/// As above, with one extra handle whose position the box accepts.
proof fn lemma_pos_transfer_insert<T: SpacialIndex>(
    a: Seq<Rc<T>>,
    b: Seq<Rc<T>>,
    extra: Rc<T>,
    v: AABB2,
)
    requires
        a.to_multiset() == b.to_multiset().insert(extra),
        forall|i: int|
            0 <= i < b.len() ==> !pt_outside_vol(v, (#[trigger] b[i]).spec_position()),
        !pt_outside_vol(v, extra.spec_position()),
    ensures
        forall|i: int|
            0 <= i < a.len() ==> !pt_outside_vol(v, (#[trigger] a[i]).spec_position()),
{
    broadcast use vstd::seq_lib::group_to_multiset_ensures;

    assert forall|i: int|
        0 <= i < a.len() implies !pt_outside_vol(v, (#[trigger] a[i]).spec_position()) by {
        let x = a[i];
        assert(a.contains(x));
        assert(a.to_multiset().count(x) > 0);
        if x != extra {
            assert(b.to_multiset().count(x) > 0);
            assert(b.contains(x));
            let j = choose|j: int| 0 <= j < b.len() && b[j] == x;
            assert(!pt_outside_vol(v, b[j].spec_position()));
        }
    }
}

/// After a full splittable leaf subdivides: the old bucket is dealt to
/// the four fresh quadrant children by position, and the incoming
/// handle joins the child accepting its position, which stays a leaf
/// if the handles dealt to it left room.
pub open spec fn subdivide_post<T: SpacialIndex>(
    pre: QuadTree<T>,
    post: QuadTree<T>,
    obj: Rc<T>,
) -> bool {
    let v = pre.spec_volume();
    let k = spec_route(v, obj.spec_position());
    &&& !post.is_leaf()
    &&& post.bucket_seq().len() == 0
    &&& 0 <= k < 4
    &&& (forall|j: int|
        0 <= j < 4 && j != k ==> (#[trigger] post.spec_child(j)).is_leaf() && post.spec_child(
            j,
        ).bucket_seq().to_multiset() == route_filter(pre.bucket_seq(), v, j))
    &&& post.spec_child(k).contents().to_multiset() == route_filter(
        pre.bucket_seq(),
        v,
        k,
    ).insert(obj)
    &&& (route_filter(pre.bucket_seq(), v, k).len() < pre.spec_capacity() ==> (post.spec_child(
        k,
    ).is_leaf() && post.spec_child(k).bucket_seq().to_multiset() == route_filter(
        pre.bucket_seq(),
        v,
        k,
    ).insert(obj)))
}

/// Everything `insert` guarantees, relating the tree before the call,
/// the tree after it, the inserted handle, and the returned flag.
/// Through an internal node the statement recurses: the first quadrant
/// child accepting the position receives the handle under this same
/// contract, and the other three children are untouched.
pub open spec fn insert_post<T: SpacialIndex>(
    pre: QuadTree<T>,
    post: QuadTree<T>,
    obj: Rc<T>,
    ok: bool,
) -> bool
    decreases pre,
{
    &&& post.wf()
    &&& post.spec_volume() == pre.spec_volume()
    &&& post.spec_capacity() == pre.spec_capacity()
    &&& ok == !pt_outside_vol(pre.spec_volume(), obj.spec_position())
    &&& (ok ==> post.contents().to_multiset() == pre.contents().to_multiset().insert(obj))
    &&& (!ok ==> post == pre)
    &&& (!pre.is_leaf() ==> !post.is_leaf())
    &&& ((ok && pre.is_leaf() && (pre.bucket_seq().len() < pre.spec_capacity()
        || !aabb_splittable(pre.spec_volume()))) ==> (post.is_leaf() && post.bucket_seq()
        == pre.bucket_seq().push(obj)))
    &&& ((ok && pre.is_leaf() && pre.bucket_seq().len() >= pre.spec_capacity()
        && aabb_splittable(pre.spec_volume())) ==> subdivide_post(pre, post, obj))
    &&& ((ok && !pre.is_leaf()) ==> {
        let k = spec_route(pre.spec_volume(), obj.spec_position());
        &&& 0 <= k < 4
        &&& (forall|j: int|
            0 <= j < 4 && j != k ==> #[trigger] post.spec_child(j) == pre.spec_child(j))
        &&& insert_post(pre.spec_child(k), post.spec_child(k), obj, true)
    })
}

/// Inserts the handle into the first quadrant child that accepts its
/// position.
fn insert_into_quads<T: SpacialIndex>(q: &mut Box<Quads<T>>, obj: &Rc<T>, parent: Ghost<AABB2>, cap: Ghost<int>) -> (ok: bool)
    requires
        aabb_wf(parent@),
        aabb_in_range(parent@),
        aabb_splittable(parent@),
        quads_wf(**old(q), parent@, cap@),
        !pt_outside_vol(parent@, obj.spec_position()),
    ensures
        quads_wf(**final(q), parent@, cap@),
        ok,
        quads_contents(**final(q)).to_multiset() == quads_contents(**old(q)).to_multiset().insert(
            *obj,
        ),
        0 <= spec_route(parent@, obj.spec_position()) < 4,
        forall|j: int|
            0 <= j < 4 && j != spec_route(parent@, obj.spec_position()) ==> quads_child(
                **final(q),
                j,
            ) == quads_child(**old(q), j),
        insert_post(
            quads_child(**old(q), spec_route(parent@, obj.spec_position())),
            quads_child(**final(q), spec_route(parent@, obj.spec_position())),
            *obj,
            true,
        ),
    decreases vol_size(parent@), 0int,
{
    broadcast use vstd::seq_lib::group_to_multiset_ensures;
    broadcast use vstd::seq_lib::lemma_multiset_commutative;

    proof {
        lemma_quadrant_vols(parent@);
        lemma_quarters_cover(parent@, obj.spec_position());
    }
    let mut ok = q.nw.insert(obj);
    if !ok {
        ok = q.ne.insert(obj);
    }
    if !ok {
        ok = q.se.insert(obj);
    }
    if !ok {
        ok = q.sw.insert(obj);
    }
    proof {
        assert(quads_contents(**q).to_multiset() =~= quads_contents(**old(q)).to_multiset().insert(
            *obj,
        ));
    }
    ok
}

impl<T: SpacialIndex> QuadTree<T> {
    /// Inserts an entity handle.
    ///
    /// A position the volume rejects is refused without change.  An
    /// accepted handle lands in this node's bucket if it is a leaf with
    /// room (or one whose volume cannot split further), and otherwise
    /// the node subdivides if needed, redistributes its bucket over the
    /// four fresh children, and the handle descends into the first
    /// child that accepts it.
    pub fn insert(&mut self, obj: &Rc<T>) -> (ok: bool)
        requires
            old(self).wf(),
        ensures
            insert_post(*old(self), *final(self), *obj, ok),
        decreases vol_size(old(self).spec_volume()), 1int,
    {
        broadcast use vstd::seq_lib::group_to_multiset_ensures;
        broadcast use vstd::seq_lib::lemma_multiset_commutative;

        let pos = obj.get_position();
        let r0 = self.volume.intersection(&pos);
        if r0.outside() {
            return false;
        }

        if self.children.is_none() {
            let can_split = self.volume.br.x - self.volume.tl.x >= 2 && self.volume.tl.y
                - self.volume.br.y >= 2;
            if self.bucket.len() < self.capacity || !can_split {
                self.leaf_push(obj.clone());
                return true;
            }
            let ghost pre = *self;
            let mut quads = Self::make_quads(self.volume, self.capacity);
            proof {
                assert(quads_contents(*quads) =~= Seq::<Rc<T>>::empty());
                assert(quads_contents(*quads).to_multiset().add(self.bucket@.to_multiset()) =~= pre.bucket@.to_multiset());
                assert(pre.bucket@.subrange(0, pre.bucket@.len() as int) =~= pre.bucket@);
                assert(pre.bucket@.skip(pre.bucket@.len() as int) =~= Seq::<Rc<T>>::empty());
                assert(quads.nw.bucket@.to_multiset() =~= Multiset::<Rc<T>>::empty());
                assert(quads.ne.bucket@.to_multiset() =~= Multiset::<Rc<T>>::empty());
                assert(quads.se.bucket@.to_multiset() =~= Multiset::<Rc<T>>::empty());
                assert(quads.sw.bucket@.to_multiset() =~= Multiset::<Rc<T>>::empty());
            }
            while self.bucket.len() > 0
                invariant
                    aabb_wf(self.volume),
                    aabb_in_range(self.volume),
                    aabb_splittable(self.volume),
                    self.capacity >= 1,
                    pre.wf(),
                    pre.children is None,
                    *self == (QuadTree { bucket: self.bucket, ..pre }),
                    quads_leaves_wf(*quads, self.volume, self.capacity as int),
                    self.bucket@.len() <= pre.bucket@.len(),
                    self.bucket@ == pre.bucket@.subrange(0, self.bucket@.len() as int),
                    quads_contents(*quads).to_multiset().add(self.bucket@.to_multiset())
                        == pre.bucket@.to_multiset(),
                    quads.nw.bucket@.to_multiset() == route_filter(
                        pre.bucket@.skip(self.bucket@.len() as int),
                        self.volume,
                        0,
                    ),
                    quads.ne.bucket@.to_multiset() == route_filter(
                        pre.bucket@.skip(self.bucket@.len() as int),
                        self.volume,
                        1,
                    ),
                    quads.se.bucket@.to_multiset() == route_filter(
                        pre.bucket@.skip(self.bucket@.len() as int),
                        self.volume,
                        2,
                    ),
                    quads.sw.bucket@.to_multiset() == route_filter(
                        pre.bucket@.skip(self.bucket@.len() as int),
                        self.volume,
                        3,
                    ),
                decreases self.bucket.len(),
            {
                let ghost bpre = self.bucket@;
                let ghost qpre = quads_contents(*quads).to_multiset();
                let val = self.bucket.pop().unwrap();
                proof {
                    broadcast use vstd::seq_lib::group_to_multiset_ensures;
                    broadcast use vstd::seq_lib::lemma_multiset_commutative;

                    assert(bpre == pre.bucket@.subrange(0, bpre.len() as int));
                    assert(val == pre.bucket@[bpre.len() - 1]);
                    assert(pre.contents() == pre.bucket@);
                    assert(!pt_outside_vol(self.volume, val.spec_position()));
                    assert(self.bucket@ =~= pre.bucket@.subrange(0, self.bucket@.len() as int));
                    assert(self.bucket@ =~= bpre.remove(bpre.len() - 1));
                    assert(bpre.remove(bpre.len() - 1).to_multiset() =~= bpre.to_multiset().remove(
                        val,
                    ));
                    assert(self.bucket@.to_multiset() =~= bpre.to_multiset().remove(val));
                    assert(bpre.contains(val));
                    assert(bpre.to_multiset().count(val) > 0);
                    assert(bpre.to_multiset() =~= self.bucket@.to_multiset().insert(val));
                }
                route_push(&mut quads, val, Ghost(self.volume));
                proof {
                    broadcast use vstd::seq_lib::group_to_multiset_ensures;

                    assert(quads_contents(*quads).to_multiset().add(self.bucket@.to_multiset())
                        =~= pre.bucket@.to_multiset().remove(val).insert(val));
                    assert(pre.bucket@.to_multiset().remove(val).insert(val) =~= pre.bucket@.to_multiset());
                    assert(quads_contents(*quads).to_multiset().add(self.bucket@.to_multiset())
                        =~= pre.bucket@.to_multiset());

                    let processed = pre.bucket@.skip(bpre.len() as int);
                    let processed2 = pre.bucket@.skip(self.bucket@.len() as int);
                    assert(processed2 =~= seq![val] + processed);
                    assert((seq![val] + processed).first() == val);
                    assert((seq![val] + processed).drop_first() =~= processed);
                    assert(route_filter(processed2, self.volume, 0) == route_filter(
                        seq![val] + processed,
                        self.volume,
                        0,
                    ));
                    assert(route_filter(processed2, self.volume, 1) == route_filter(
                        seq![val] + processed,
                        self.volume,
                        1,
                    ));
                    assert(route_filter(processed2, self.volume, 2) == route_filter(
                        seq![val] + processed,
                        self.volume,
                        2,
                    ));
                    assert(route_filter(processed2, self.volume, 3) == route_filter(
                        seq![val] + processed,
                        self.volume,
                        3,
                    ));
                }
            }
            proof {
                assert(self.bucket@ =~= Seq::<Rc<T>>::empty());
                assert(self.bucket@.to_multiset() =~= Multiset::<Rc<T>>::empty());
                assert(quads_contents(*quads).to_multiset() =~= pre.bucket@.to_multiset());
                assert(pre.bucket@.skip(0) =~= pre.bucket@);
                lemma_quarters_cover(self.volume, obj.spec_position());
            }
            let ghost dealt = *quads;
            let ok = insert_into_quads(&mut quads, obj, Ghost(self.volume), Ghost(self.capacity as int));
            self.children = Some(quads);
            proof {
                assert(self.contents() == quads_contents(*quads));
                assert(self.contents().to_multiset() =~= pre.contents().to_multiset().insert(
                    *obj,
                ));
                lemma_pos_transfer_insert(
                    self.contents(),
                    pre.contents(),
                    *obj,
                    self.volume,
                );
                let k = spec_route(pre.spec_volume(), obj.spec_position());
                assert forall|j: int| 0 <= j < 4 implies #[trigger] self.spec_child(j)
                    == quads_child(*quads, j) by {}
                assert(quads_child(dealt, k).is_leaf());
                assert(quads_child(dealt, k).contents() == quads_child(dealt, k).bucket_seq());
                assert(quads_child(dealt, k).bucket_seq().to_multiset() == route_filter(
                    pre.bucket_seq(),
                    pre.spec_volume(),
                    k,
                ));
                assert(quads_child(dealt, k).bucket_seq().len() == route_filter(
                    pre.bucket_seq(),
                    pre.spec_volume(),
                    k,
                ).len());
                assert(subdivide_post(pre, *self, *obj));
            }
            return ok;
        }

        let ghost pre = *self;
        proof {
            lemma_quadrant_vols(self.volume);
        }
        let mut quads = self.children.take().unwrap();
        let ok = insert_into_quads(&mut quads, obj, Ghost(self.volume), Ghost(self.capacity as int));
        self.children = Some(quads);
        proof {
            assert(pre.contents() == quads_contents(*pre.children.unwrap()));
            assert(self.contents() == quads_contents(*quads));
            lemma_pos_transfer_insert(self.contents(), pre.contents(), *obj, self.volume);
            let k = spec_route(pre.spec_volume(), obj.spec_position());
            assert forall|j: int| 0 <= j < 4 implies #[trigger] self.spec_child(j) == quads_child(
                *quads,
                j,
            ) by {}
            assert forall|j: int| 0 <= j < 4 implies #[trigger] pre.spec_child(j) == quads_child(
                *pre.children.unwrap(),
                j,
            ) by {}
            assert(insert_post(pre.spec_child(k), self.spec_child(k), *obj, true));
        }
        ok
    }
}

/// The index of the first handle in the sequence whose position equals
/// the key, or `-1` when there is none.
pub open spec fn first_match<T: SpacialIndex>(s: Seq<Rc<T>>, k: Point2) -> int
    decreases s.len(),
{
    if s.len() == 0 {
        -1
    } else if s[0].spec_position() == k {
        0
    } else if first_match(s.drop_first(), k) < 0 {
        -1
    } else {
        1 + first_match(s.drop_first(), k)
    }
}

/// The first match, if any, is a position match, and nothing before it
/// matches; no match means nothing matches at all.
pub proof fn lemma_first_match_bounds<T: SpacialIndex>(s: Seq<Rc<T>>, k: Point2)
    ensures
        -1 <= first_match(s, k) < s.len(),
        first_match(s, k) >= 0 ==> (#[trigger] s[first_match(s, k)]).spec_position() == k,
        first_match(s, k) >= 0 ==> forall|j: int|
            0 <= j < first_match(s, k) ==> (#[trigger] s[j]).spec_position() != k,
        first_match(s, k) < 0 ==> forall|j: int|
            0 <= j < s.len() ==> (#[trigger] s[j]).spec_position() != k,
    decreases s.len(),
{
    if s.len() == 0 {
    } else if s[0].spec_position() == k {
    } else {
        lemma_first_match_bounds(s.drop_first(), k);
        assert forall|j: int| 1 <= j < s.len() implies s[j] == s.drop_first()[j - 1] by {}
    }
}

/// Where the scan finds the first match directly.
pub proof fn lemma_first_match_at<T: SpacialIndex>(s: Seq<Rc<T>>, k: Point2, i: int)
    requires
        0 <= i < s.len(),
        s[i].spec_position() == k,
        forall|j: int| 0 <= j < i ==> (#[trigger] s[j]).spec_position() != k,
    ensures
        first_match(s, k) == i,
    decreases s.len(),
{
    if i == 0 {
    } else {
        assert forall|j: int| 1 <= j < s.len() implies s[j] == s.drop_first()[j - 1] by {}
        lemma_first_match_at(s.drop_first(), k, i - 1);
    }
}

/// How the first match distributes over concatenation.
pub proof fn lemma_first_match_concat<T: SpacialIndex>(a: Seq<Rc<T>>, b: Seq<Rc<T>>, k: Point2)
    ensures
        first_match(a + b, k) == (if first_match(a, k) >= 0 {
            first_match(a, k)
        } else if first_match(b, k) >= 0 {
            a.len() + first_match(b, k)
        } else {
            -1
        }),
    decreases a.len(),
{
    lemma_first_match_bounds(a, k);
    lemma_first_match_bounds(b, k);
    lemma_first_match_bounds(a + b, k);
    if a.len() == 0 {
        assert(a + b =~= b);
    } else {
        assert((a + b).drop_first() =~= a.drop_first() + b);
        lemma_first_match_concat(a.drop_first(), b, k);
        assert((a + b)[0] == a[0]);
    }
}

/// Removing at an index in the left part of a concatenation.
proof fn lemma_remove_concat_left<A>(x: Seq<A>, y: Seq<A>, i: int)
    requires
        0 <= i < x.len(),
    ensures
        (x + y).remove(i) =~= x.remove(i) + y,
{
}

/// Removing at an index in the right part of a concatenation.
proof fn lemma_remove_concat_right<A>(x: Seq<A>, y: Seq<A>, i: int)
    requires
        0 <= i < y.len(),
    ensures
        (x + y).remove(x.len() + i) =~= x + y.remove(i),
{
}

/// Every handle of a sequence with one index removed keeps its
/// position bound.
proof fn lemma_pos_after_remove<T: SpacialIndex>(s: Seq<Rc<T>>, i: int, v: AABB2)
    requires
        0 <= i < s.len(),
        forall|j: int|
            0 <= j < s.len() ==> !pt_outside_vol(v, (#[trigger] s[j]).spec_position()),
    ensures
        forall|j: int|
            0 <= j < s.remove(i).len() ==> !pt_outside_vol(
                v,
                (#[trigger] s.remove(i)[j]).spec_position(),
            ),
{
    assert forall|j: int|
        0 <= j < s.remove(i).len() implies !pt_outside_vol(
        v,
        (#[trigger] s.remove(i)[j]).spec_position(),
    ) by {
        if j < i {
            assert(s.remove(i)[j] == s[j]);
        } else {
            assert(s.remove(i)[j] == s[j + 1]);
        }
    }
}

/// Everything `remove_key` guarantees, relating the tree before the
/// call, the tree after it, the key, and the extracted handle: the
/// first handle in traversal order whose position equals the key is
/// removed, and in an internal node the removal happens inside the
/// first child whose subtree holds a match, the other three untouched.
pub open spec fn remove_post<T: SpacialIndex>(
    pre: QuadTree<T>,
    post: QuadTree<T>,
    k: Point2,
    r: Option<Rc<T>>,
) -> bool {
    &&& post.wf()
    &&& post.spec_volume() == pre.spec_volume()
    &&& post.spec_capacity() == pre.spec_capacity()
    &&& post.is_leaf() == pre.is_leaf()
    &&& match r {
        Some(e) => {
            &&& first_match(pre.contents(), k) >= 0
            &&& e == pre.contents()[first_match(pre.contents(), k)]
            &&& post.contents() == pre.contents().remove(first_match(pre.contents(), k))
            &&& (!pre.is_leaf() ==> {
                let j0 = spec_remove_child(pre, k);
                &&& 0 <= j0 < 4
                &&& (forall|j: int|
                    0 <= j < 4 && j != j0 ==> #[trigger] post.spec_child(j) == pre.spec_child(j))
                &&& post.spec_child(j0).contents() == pre.spec_child(j0).contents().remove(
                    first_match(pre.spec_child(j0).contents(), k),
                )
            })
        },
        None => {
            &&& first_match(pre.contents(), k) < 0
            &&& post == pre
        },
    }
}

impl<T: SpacialIndex> QuadTree<T> {
    /// Removes and returns the first stored handle, in traversal
    /// order, whose current position equals the key exactly; the tree
    /// is unchanged when no stored position matches.  Subtrees whose
    /// volume rejects the key are skipped, which loses nothing because
    /// every stored position is accepted by its node's volume.
    pub fn remove_key(&mut self, old_pos: &Point2) -> (r: Option<Rc<T>>)
        requires
            old(self).wf(),
        ensures
            remove_post(*old(self), *final(self), *old_pos, r),
        decreases vol_size(old(self).spec_volume()),
    {
        let ghost pre = *self;
        let r0 = self.volume.intersection(old_pos);
        if r0.outside() {
            proof {
                lemma_first_match_bounds(pre.contents(), *old_pos);
                if first_match(pre.contents(), *old_pos) >= 0 {
                    let fm = first_match(pre.contents(), *old_pos);
                    assert(!pt_outside_vol(pre.volume, pre.contents()[fm].spec_position()));
                }
            }
            return None;
        }

        if self.children.is_none() {
            let mut i: usize = 0;
            while i < self.bucket.len()
                invariant
                    *self == pre,
                    pre == *old(self),
                    pre.wf(),
                    pre.children is None,
                    i <= self.bucket@.len(),
                    forall|j: int|
                        0 <= j < i ==> (#[trigger] self.bucket@[j]).spec_position() != *old_pos,
                decreases self.bucket@.len() - i,
            {
                let p = self.bucket[i].get_position();
                if p == *old_pos {
                    let e = self.bucket.remove(i);
                    proof {
                        assert(pre.contents() == pre.bucket@);
                        assert forall|j: int|
                            0 <= j < pre.bucket@.len() implies !pt_outside_vol(
                            pre.volume,
                            (#[trigger] pre.bucket@[j]).spec_position(),
                        ) by {
                            assert(pre.contents()[j] == pre.bucket@[j]);
                        }
                        lemma_first_match_at(pre.bucket@, *old_pos, i as int);
                        assert(self.contents() == self.bucket@);
                        lemma_pos_after_remove(pre.bucket@, i as int, pre.volume);
                    }
                    return Some(e);
                }
                i += 1;
            }
            proof {
                assert(pre.contents() == pre.bucket@);
                lemma_first_match_bounds(pre.bucket@, *old_pos);
            }
            return None;
        }

        proof {
            lemma_quadrant_vols(self.volume);
        }
        let mut quads = self.children.take().unwrap();
        let ghost a = quads.nw.contents();
        let ghost b = quads.ne.contents();
        let ghost c = quads.se.contents();
        let ghost d = quads.sw.contents();
        let ghost k = *old_pos;

        let mut r = quads.nw.remove_key(old_pos);
        if r.is_none() {
            r = quads.ne.remove_key(old_pos);
        }
        if r.is_none() {
            r = quads.se.remove_key(old_pos);
        }
        if r.is_none() {
            r = quads.sw.remove_key(old_pos);
        }
        self.children = Some(quads);
        proof {
            assert(pre.contents() == ((a + b) + c) + d);
            assert(self.contents() == ((quads.nw.contents() + quads.ne.contents())
                + quads.se.contents()) + quads.sw.contents());
            lemma_first_match_bounds(a, k);
            lemma_first_match_bounds(b, k);
            lemma_first_match_bounds(c, k);
            lemma_first_match_bounds(d, k);
            lemma_first_match_concat(a, b, k);
            lemma_first_match_concat(a + b, c, k);
            lemma_first_match_concat((a + b) + c, d, k);
            let fm = first_match(pre.contents(), k);
            match r {
                Some(_) => {
                    if first_match(a, k) >= 0 {
                        lemma_remove_concat_left(a, b, first_match(a, k));
                        lemma_remove_concat_left(a + b, c, first_match(a, k));
                        lemma_remove_concat_left((a + b) + c, d, first_match(a, k));
                    } else if first_match(b, k) >= 0 {
                        lemma_remove_concat_right(a, b, first_match(b, k));
                        lemma_remove_concat_left(a + b, c, a.len() as int + first_match(b, k));
                        lemma_remove_concat_left(
                            (a + b) + c,
                            d,
                            a.len() as int + first_match(b, k),
                        );
                    } else if first_match(c, k) >= 0 {
                        lemma_remove_concat_right(a + b, c, first_match(c, k));
                        lemma_remove_concat_left(
                            (a + b) + c,
                            d,
                            (a + b).len() as int + first_match(c, k),
                        );
                    } else {
                        lemma_remove_concat_right((a + b) + c, d, first_match(d, k));
                    }
                    lemma_pos_after_remove(pre.contents(), fm, pre.volume);
                    assert forall|j: int|
                        0 <= j < 4 implies #[trigger] self.spec_child(j) == quads_child(
                        *quads,
                        j,
                    ) by {}
                    assert forall|j: int|
                        0 <= j < 4 implies #[trigger] pre.spec_child(j) == quads_child(
                        *pre.children.unwrap(),
                        j,
                    ) by {}
                    assert(pre.spec_child(0).contents() == a);
                    assert(pre.spec_child(1).contents() == b);
                    assert(pre.spec_child(2).contents() == c);
                    assert(pre.spec_child(3).contents() == d);
                },
                None => {
                },
            }
        }
        r
    }
}

impl<T: SpacialIndex> QuadTree<T> {
    /// Relocates an entity: removes the first handle stored at
    /// `old_pos`, and only if one was found inserts the new handle.
    pub fn update(&mut self, old_pos: &Point2, new: &Rc<T>) -> (ok: bool)
        requires
            old(self).wf(),
        ensures
            final(self).wf(),
            final(self).spec_volume() == old(self).spec_volume(),
            final(self).spec_capacity() == old(self).spec_capacity(),
            first_match(old(self).contents(), *old_pos) < 0 ==> !ok && *final(self) == *old(self),
            first_match(old(self).contents(), *old_pos) >= 0 ==> {
                let removed = old(self).contents().remove(
                    first_match(old(self).contents(), *old_pos),
                );
                &&& ok == !pt_outside_vol(old(self).spec_volume(), new.spec_position())
                &&& (ok ==> final(self).contents().to_multiset() == removed.to_multiset().insert(
                    *new,
                ))
                &&& (!ok ==> final(self).contents() == removed)
            },
            first_match(old(self).contents(), *old_pos) >= 0 ==> exists|mid: QuadTree<T>|
                {
                    &&& #[trigger] remove_post(
                        *old(self),
                        mid,
                        *old_pos,
                        Some(
                            old(self).contents()[first_match(old(self).contents(), *old_pos)],
                        ),
                    )
                    &&& insert_post(mid, *final(self), *new, ok)
                },
    {
        let r = self.remove_key(old_pos);
        let ghost mid = *self;
        if r.is_some() {
            let ok = self.insert(new);
            proof {
                if first_match(old(self).contents(), *old_pos) >= 0 {
                    assert(remove_post(
                        *old(self),
                        mid,
                        *old_pos,
                        Some(
                            old(self).contents()[first_match(old(self).contents(), *old_pos)],
                        ),
                    ));
                    assert(insert_post(mid, *self, *new, ok));
                }
            }
            return ok;
        }
        false
    }

    /// Every handle stored in the parts of the tree whose volume the
    /// query circle does not rule out, in traversal order: a pruned
    /// subtree contributes nothing, a surviving leaf contributes its
    /// whole bucket.
    pub closed spec fn gather(self, c: Circle) -> Seq<Rc<T>>
        decreases self,
    {
        if spec_circle_aabb_intersection(c, self.volume) is Outside {
            Seq::empty()
        } else {
            match self.children {
                None => self.bucket@,
                Some(q) => q.nw.gather(c) + q.ne.gather(c) + q.se.gather(c) + q.sw.gather(c),
            }
        }
    }

    /// The conservative range query: `None` when the circle rules the
    /// whole volume out, and otherwise every handle of every subtree
    /// the circle's box test does not rule out.  Handles in surviving
    /// leaves are not distance-filtered individually.
    #[verifier::spinoff_prover]
    #[verifier::rlimit(30)]
    pub fn get_in_radius(&self, at: &Circle) -> (r: Option<Vec<Rc<T>>>)
        requires
            self.wf(),
            circle_in_range(*at),
        ensures
            match r {
                None => spec_circle_aabb_intersection(*at, self.spec_volume()) is Outside,
                Some(v) => {
                    &&& !(spec_circle_aabb_intersection(*at, self.spec_volume()) is Outside)
                    &&& v@ == self.gather(*at)
                },
            },
        decreases vol_size(self.spec_volume()),
    {
        let r0 = at.intersection(&self.volume);
        if r0.outside() {
            return None;
        }

        let mut ret: Vec<Rc<T>> = Vec::new();
        match &self.children {
            Some(q) => {
                proof {
                    lemma_quadrant_vols(self.volume);
                }
                let r1 = q.nw.get_in_radius(at);
                match r1 {
                    Some(mut items) => {
                        ret.append(&mut items);
                    },
                    None => {},
                }
                let r2 = q.ne.get_in_radius(at);
                match r2 {
                    Some(mut items) => {
                        ret.append(&mut items);
                    },
                    None => {},
                }
                let r3 = q.se.get_in_radius(at);
                match r3 {
                    Some(mut items) => {
                        ret.append(&mut items);
                    },
                    None => {},
                }
                let r4 = q.sw.get_in_radius(at);
                match r4 {
                    Some(mut items) => {
                        ret.append(&mut items);
                    },
                    None => {},
                }
                proof {
                    assert(ret@ =~= q.nw.gather(*at) + q.ne.gather(*at) + q.se.gather(*at)
                        + q.sw.gather(*at));
                }
            },
            None => {
                let mut i: usize = 0;
                while i < self.bucket.len()
                    invariant
                        i <= self.bucket@.len(),
                        ret@ == self.bucket@.subrange(0, i as int),
                    decreases self.bucket@.len() - i,
                {
                    let e = self.bucket[i].clone();
                    ret.push(e);
                    proof {
                        assert(ret@ =~= self.bucket@.subrange(0, i + 1 as int));
                    }
                    i += 1;
                }
                proof {
                    assert(ret@ =~= self.bucket@);
                }
            },
        }
        Some(ret)
    }
}

/// The child a removal descends into: the first of NW, NE, SE, SW
/// whose subtree stores a handle at the key, or `-1` when none does.
pub open spec fn spec_remove_child<T: SpacialIndex>(t: QuadTree<T>, k: Point2) -> int {
    if first_match(t.spec_child(0).contents(), k) >= 0 {
        0
    } else if first_match(t.spec_child(1).contents(), k) >= 0 {
        1
    } else if first_match(t.spec_child(2).contents(), k) >= 0 {
        2
    } else if first_match(t.spec_child(3).contents(), k) >= 0 {
        3
    } else {
        -1
    }
}

/// What well-formedness says of an internal node: an empty bucket, a
/// splittable volume, and four well-formed children that cover its
/// quadrants in NW, NE, SE, SW order, share its capacity, and together
/// carry its contents.
pub proof fn lemma_internal_structure<T: SpacialIndex>(t: QuadTree<T>)
    requires
        t.wf(),
        !t.is_leaf(),
    ensures
        t.bucket_seq().len() == 0,
        aabb_splittable(t.spec_volume()),
        forall|j: int| 0 <= j < 4 ==> (#[trigger] t.spec_child(j)).wf(),
        t.spec_child(0).spec_volume() == nw_vol(t.spec_volume()),
        t.spec_child(1).spec_volume() == ne_vol(t.spec_volume()),
        t.spec_child(2).spec_volume() == se_vol(t.spec_volume()),
        t.spec_child(3).spec_volume() == sw_vol(t.spec_volume()),
        forall|j: int|
            0 <= j < 4 ==> (#[trigger] t.spec_child(j)).spec_capacity() == t.spec_capacity(),
        t.contents() == t.spec_child(0).contents() + t.spec_child(1).contents() + t.spec_child(
            2,
        ).contents() + t.spec_child(3).contents(),
{
}

/// A leaf's contents are exactly its bucket, in order.
pub proof fn lemma_leaf_contents<T: SpacialIndex>(t: QuadTree<T>)
    requires
        t.is_leaf(),
    ensures
        t.contents() == t.bucket_seq(),
{
}

/// How the range query's gathered sequence unfolds, one node at a
/// time: nothing from a node the circle rules out, the whole bucket of
/// a surviving leaf, and the four children's gatherings of a surviving
/// internal node.
pub proof fn lemma_gather_unfold<T: SpacialIndex>(t: QuadTree<T>, c: Circle)
    ensures
        spec_circle_aabb_intersection(c, t.spec_volume()) is Outside ==> t.gather(c) == Seq::<
            Rc<T>,
        >::empty(),
        !(spec_circle_aabb_intersection(c, t.spec_volume()) is Outside) && t.is_leaf() ==> t.gather(
            c,
        ) == t.bucket_seq(),
        !(spec_circle_aabb_intersection(c, t.spec_volume()) is Outside) && !t.is_leaf()
            ==> t.gather(c) == t.spec_child(0).gather(c) + t.spec_child(1).gather(c)
            + t.spec_child(2).gather(c) + t.spec_child(3).gather(c),
{
}

/// Quadtree completeness: a range query whose circle strictly encloses
/// every corner of the tree's whole volume prunes nothing, so it
/// returns every currently stored handle, each exactly as often as it
/// is stored, in traversal order.
pub proof fn lemma_covering_query_returns_all<T: SpacialIndex>(t: QuadTree<T>, c: Circle)
    requires
        t.wf(),
        c.radius >= 0,
        circle_covers_box(c, t.spec_volume()),
    ensures
        t.gather(c) == t.contents(),
    decreases t,
{
    lemma_covers_box_inside(c, t.volume);
    match t.children {
        None => {},
        Some(q) => {
            lemma_quadrant_vols(t.volume);
            lemma_covers_sub_box(c, t.volume, q.nw.volume);
            lemma_covers_sub_box(c, t.volume, q.ne.volume);
            lemma_covers_sub_box(c, t.volume, q.se.volume);
            lemma_covers_sub_box(c, t.volume, q.sw.volume);
            lemma_covering_query_returns_all(q.nw, c);
            lemma_covering_query_returns_all(q.ne, c);
            lemma_covering_query_returns_all(q.se, c);
            lemma_covering_query_returns_all(q.sw, c);
        },
    }
}

} // verus!
