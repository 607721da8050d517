//! A bounding volume hierarchy: a binary tree over the objects of a scene,
//! each node with the box around all that is below it.

use vstd::prelude::*;
use crate::aabb::{slab_source, widening, Aabb, Slab};
use crate::chance::uniform_below;
use crate::hitable::{
    bounds, join, lemma_bounds_any_order, lemma_bounds_concat, scan, tightened, HitRecord, Hitable,
};
use crate::nearest::{
    all_steady, bounded, closest, lemma_closest_agree, lemma_closest_join, lemma_closest_same,
    lemma_closest_single, lemma_scan_closest, reach, steady, unmistakable,
};
use crate::objects::Object;
use crate::ray::Ray;
use crate::scalar::Scalar;

verus! {

/// What hangs below a node on one side.
#[derive(Debug)]
enum Child<H: Hitable> {
    /// One object.
    Leaf(Object<H>),
    /// A further node.
    Node(Box<BvhNode<H>>),
}

/// A node of the hierarchy.
#[derive(Debug)]
pub struct BvhNode<H: Hitable> {
    bbox: Option<Aabb>,
    left: Option<Child<H>>,
    right: Option<Child<H>>,
}

/// Whether the first object goes before the second along an axis: it does
/// where either has no box, and else where the smallest corner of its box has
/// the smaller coordinate.
pub open spec fn precedes_model<H: Hitable>(a: Object<H>, b: Object<H>, axis: int) -> bool {
    match (a.bbox(), b.bbox()) {
        (Some(box_a), Some(box_b)) => box_a.spec_min().axis(axis).spec_lt(box_b.spec_min().axis(axis)),
        _ => true,
    }
}

/// Whether two objects stand in order along an axis: where both have a box,
/// the first one's smallest corner has no larger coordinate than the
/// second's.
pub open spec fn in_order<H: Hitable>(a: Object<H>, b: Object<H>, axis: int) -> bool {
    match (a.bbox(), b.bbox()) {
        (Some(box_a), Some(box_b)) => box_a.spec_min().axis(axis).spec_le(box_b.spec_min().axis(axis)),
        _ => true,
    }
}

/// Whether a run of objects is sorted along an axis: any two of them stand in
/// order.
pub open spec fn sorted_along<H: Hitable>(objects: Seq<Object<H>>, axis: int) -> bool {
    forall|i: int, j: int| 0 <= i < j < objects.len() ==> in_order(#[trigger] objects[i], #[trigger] objects[j], axis)
}

/// Whether two objects lie level along an axis: both have a box, and the
/// smallest corners of the two have the same coordinate.
pub open spec fn tied<H: Hitable>(a: Object<H>, b: Object<H>, axis: int) -> bool {
    match (a.bbox(), b.bbox()) {
        (Some(box_a), Some(box_b)) => box_a.spec_min().axis(axis).same(box_b.spec_min().axis(axis)),
        _ => false,
    }
}

/// Whether a run of objects is another run in a new order, `order` telling
/// for each place of the new run the place that its object had, and objects
/// that lie level along the axis have kept their order.
pub open spec fn arranged<H: Hitable>(
    given: Seq<Object<H>>,
    sorted: Seq<Object<H>>,
    order: Seq<int>,
    axis: int,
) -> bool {
    &&& order.len() == given.len()
    &&& sorted.len() == given.len()
    &&& forall|k: int|
        0 <= k < order.len() ==> 0 <= #[trigger] order[k] < given.len() && sorted[k]
            == given[order[k]]
    &&& forall|a: int, b: int| 0 <= a < b < order.len() ==> #[trigger] order[a] != #[trigger] order[b]
    &&& forall|a: int, b: int|
        0 <= a < b < order.len() && tied(#[trigger] sorted[a], #[trigger] sorted[b], axis)
            ==> order[a] < order[b]
}

/// Whether every object of one run stands in order with every object of
/// another.
pub open spec fn separated<H: Hitable>(
    low: Seq<Object<H>>,
    high: Seq<Object<H>>,
    axis: int,
) -> bool {
    forall|i: int, j: int|
        0 <= i < low.len() && 0 <= j < high.len() ==> in_order(#[trigger] low[i], #[trigger] high[j], axis)
}

/// Whether the box of every object of a run, where it has one, is a box.
pub open spec fn all_wf<H: Hitable>(objects: Seq<Object<H>>) -> bool {
    forall|i: int| 0 <= i < objects.len() ==> (#[trigger] objects[i]).wf()
}

/// Whether an object has a box, and the ray, as `slab` tells of it, lies
/// between the planes of that box within each range of distances in which it
/// hits the object.
pub open spec fn enclosed<H: Hitable, F: Fn(Ray, usize, Scalar, Scalar) -> Slab>(
    object: Object<H>,
    ray: Ray,
    t_min: Scalar,
    slab: F,
) -> bool {
    &&& object.bbox() is Some
    &&& forall|t_max: Scalar|
        !t_max.spec_is_nan() && #[trigger] object.hit_model(ray, t_min, t_max) is Some
            ==> object.bbox().unwrap().hit_model(ray, t_min, t_max, slab)
}

/// Whether every object of a run is enclosed.
pub open spec fn all_enclosed<H: Hitable, F: Fn(Ray, usize, Scalar, Scalar) -> Slab>(
    objects: Seq<Object<H>>,
    ray: Ray,
    t_min: Scalar,
    slab: F,
) -> bool {
    forall|i: int| 0 <= i < objects.len() ==> enclosed(#[trigger] objects[i], ray, t_min, slab)
}

/// Whether the first object goes before the second along an axis.
pub fn precedes<H: Hitable>(a: &Object<H>, b: &Object<H>, axis: usize) -> (before: bool)
    requires
        axis < 3,
    ensures
        before == precedes_model(*a, *b, axis as int),
        a.wf(),
        b.wf(),
{
    let instant = (Scalar::zero(), Scalar::zero());
    match (a.bounding_box(instant), b.bounding_box(instant)) {
        (Some(box_a), Some(box_b)) => box_a.min().index(axis).lt(box_b.min().index(axis)),
        _ => true,
    }
}

/// Sorts objects along an axis, by the smallest corners of their boxes, and
/// keeps the order of those that lie level. An object without a box goes
/// before all that stood before it.
pub fn sort_along<H: Hitable>(objects: &mut Vec<Object<H>>, axis: usize)
    requires
        axis < 3,
    ensures
        final(objects)@.to_multiset() == old(objects)@.to_multiset(),
        final(objects)@.len() == old(objects)@.len(),
        sorted_along(final(objects)@, axis as int),
        all_wf(final(objects)@),
        exists|order: Seq<int>| #[trigger] arranged(old(objects)@, final(objects)@, order, axis as int),
{
    broadcast use {vstd::seq_lib::group_to_multiset_ensures, vstd::multiset::group_multiset_axioms};

    let n: usize = objects.len();
    let ghost mut order: Seq<int> = Seq::new(n as nat, |k: int| k);
    let mut i: usize = 0;
    while i < n
        invariant
            axis < 3,
            i <= n,
            objects@.len() == n,
            old(objects)@.len() == n,
            objects@.to_multiset() == old(objects)@.to_multiset(),
            sorted_along(objects@.take(i as int), axis as int),
            all_wf(objects@.take(i as int)),
            order.len() == n,
            forall|k: int| 0 <= k < n ==> objects@[k] == old(objects)@[#[trigger] order[k]],
            forall|k: int| 0 <= k < i ==> 0 <= #[trigger] order[k] < i,
            forall|k: int| i <= k < n ==> #[trigger] order[k] == k,
            forall|a: int, b: int| 0 <= a < b < n ==> #[trigger] order[a] != #[trigger] order[b],
            forall|a: int, b: int|
                0 <= a < b < i && tied(#[trigger] objects@[a], #[trigger] objects@[b], axis as int)
                    ==> order[a] < order[b],
        decreases n - i,
    {
        let ghost old_order = order;
        let ghost before = objects@;
        let moved = objects.remove(i);
        let ghost rest = objects@;
        let mut j: usize = i;
        while j > 0 && precedes(&moved, &objects[j - 1], axis)
            invariant
                axis < 3,
                j <= i,
                i < n,
                objects@ == rest,
                rest.len() == n - 1,
                forall|k: int| j <= k < i ==> precedes_model(moved, #[trigger] rest[k], axis as int),
            decreases j,
        {
            j -= 1;
        }
        let ghost moved_object = moved;
        proof {
            use_type_invariant(&moved);
        }
        objects.insert(j, moved);
        proof {
            let moved = moved_object;
            let after = objects@;
            assert(after.to_multiset() == before.to_multiset()) by {
                vstd::seq_lib::to_multiset_remove(before, i as int);
                vstd::seq_lib::to_multiset_insert(rest, j as int, moved);
                assert(rest.to_multiset() == before.to_multiset().remove(moved));
                assert(after.to_multiset() == rest.to_multiset().insert(moved));
                assert(before.to_multiset().count(moved) > 0) by {
                    assert(before[i as int] == moved);
                    assert(before.contains(moved));
                    vstd::seq_lib::to_multiset_contains(before, moved);
                }
                assert(after.to_multiset() =~= before.to_multiset());
            }
            let head = after.take(i + 1);
            let old_head = before.take(i as int);
            assert forall|a: int| 0 <= a < i + 1 implies (#[trigger] head[a]).wf() by {
                if a < j {
                    assert(head[a] == old_head[a]);
                } else if a > j {
                    assert(head[a] == old_head[a - 1]);
                }
            }
            assert forall|a: int, b: int| 0 <= a < b < i + 1 implies in_order(
                #[trigger] head[a],
                #[trigger] head[b],
                axis as int,
            ) by {
                if b < j {
                    assert(head[a] == old_head[a] && head[b] == old_head[b]);
                } else if a > j {
                    assert(head[a] == old_head[a - 1] && head[b] == old_head[b - 1]);
                } else if a < j && b > j {
                    assert(head[a] == old_head[a] && head[b] == old_head[b - 1]);
                } else if a == j {
                    assert(head[b] == rest[b - 1]);
                    assert(precedes_model(moved, rest[b - 1], axis as int));
                } else {
                    // b == j, a < j: the object stopped behind `rest[j - 1]`.
                    assert(head[a] == old_head[a]);
                    assert(j > 0);
                    assert(!precedes_model(moved, rest[j - 1], axis as int));
                    assert(rest[j - 1] == old_head[j - 1]);
                    assert(old_head[j - 1].wf());
                    if a < j - 1 {
                        assert(in_order(old_head[a], old_head[j - 1], axis as int));
                    }
                }
            }
            order = old_order.remove(i as int).insert(j as int, i as int);
            assert forall|k: int| 0 <= k < n implies after[k] == old(objects)@[#[trigger] order[k]] by {
                if k < j {
                    assert(after[k] == before[k] && order[k] == old_order[k]);
                } else if k == j {
                    assert(order[k] == i && old_order[i as int] == i);
                } else if k <= i {
                    assert(after[k] == before[k - 1] && order[k] == old_order[k - 1]);
                } else {
                    assert(after[k] == before[k] && order[k] == old_order[k]);
                }
            }
            assert forall|k: int| 0 <= k < i + 1 implies 0 <= #[trigger] order[k] < i + 1 by {
                if k < j {
                    assert(order[k] == old_order[k]);
                } else if k > j {
                    assert(order[k] == old_order[k - 1]);
                }
            }
            assert forall|k: int| i + 1 <= k < n implies #[trigger] order[k] == k by {
                assert(order[k] == old_order[k]);
            }
            assert forall|a: int, b: int| 0 <= a < b < n implies #[trigger] order[a]
                != #[trigger] order[b] by {
                let source = |k: int| if k < j { k } else if k == j { i as int } else if k <= i { k - 1 } else { k };
                assert(order[a] == old_order[source(a)]);
                assert(order[b] == old_order[source(b)]);
                assert(source(a) != source(b));
                if source(a) < source(b) {
                    assert(old_order[source(a)] != old_order[source(b)]);
                } else {
                    assert(old_order[source(b)] != old_order[source(a)]);
                }
            }
            assert forall|a: int, b: int|
                0 <= a < b < i + 1 && tied(#[trigger] after[a], #[trigger] after[b], axis as int) implies order[a]
                < order[b] by {
                if b < j {
                    assert(after[a] == before[a] && after[b] == before[b]);
                    assert(order[a] == old_order[a] && order[b] == old_order[b]);
                } else if a > j {
                    assert(after[a] == before[a - 1] && after[b] == before[b - 1]);
                    assert(order[a] == old_order[a - 1] && order[b] == old_order[b - 1]);
                } else if a < j && b > j {
                    assert(after[a] == before[a] && after[b] == before[b - 1]);
                    assert(order[a] == old_order[a] && order[b] == old_order[b - 1]);
                } else if a == j {
                    assert(after[b] == rest[b - 1]);
                    assert(precedes_model(moved, rest[b - 1], axis as int));
                } else {
                    assert(order[a] == old_order[a]);
                    assert(order[b] == i);
                }
            }
        }
        i += 1;
    }
    proof {
        assert(objects@.take(n as int) =~= objects@);
        assert(arranged(old(objects)@, objects@, order, axis as int));
    }
}

/// Two objects in the order in which they hang on a node: as given where the
/// first goes before the second along the axis, and the other way round
/// where it does not.
pub fn order_pair<H: Hitable>(first: Object<H>, second: Object<H>, axis: usize) -> (pair: (
    Object<H>,
    Object<H>,
))
    requires
        axis < 3,
    ensures
        pair == if precedes_model(first, second, axis as int) {
            (first, second)
        } else {
            (second, first)
        },
        in_order(pair.0, pair.1, axis as int),
        pair.0.wf(),
        pair.1.wf(),
{
    if precedes(&first, &second, axis) {
        (first, second)
    } else {
        (second, first)
    }
}

/// Some objects sorted along an axis and parted in the middle: the first
/// half, rounded down, and the rest.
pub fn split_along<H: Hitable>(objects: Vec<Object<H>>, axis: usize) -> (halves: (
    Vec<Object<H>>,
    Vec<Object<H>>,
))
    requires
        axis < 3,
    ensures
        halves.0@.len() == objects@.len() / 2,
        halves.0@.len() + halves.1@.len() == objects@.len(),
        sorted_along(halves.0@ + halves.1@, axis as int),
        all_wf(halves.0@ + halves.1@),
        (halves.0@ + halves.1@).to_multiset() == objects@.to_multiset(),
        exists|order: Seq<int>| #[trigger] arranged(objects@, halves.0@ + halves.1@, order, axis as int),
        separated(halves.0@, halves.1@, axis as int),
{
    let mut low = objects;
    let n: usize = low.len();
    sort_along(&mut low, axis);
    let ghost sorted = low@;
    let high = low.split_off(n / 2);
    proof {
        assert(low@ + high@ =~= sorted);
        assert forall|i: int, j: int| 0 <= i < low@.len() && 0 <= j < high@.len() implies in_order(
            #[trigger] low@[i],
            #[trigger] high@[j],
            axis as int,
        ) by {
            assert(sorted[i] == low@[i]);
            assert(sorted[low@.len() + j] == high@[j]);
        }
    }
    (low, high)
}

impl<H: Hitable> BvhNode<H> {
    /// The objects below the node, from left to right.
    pub closed spec fn leaves(self) -> Seq<Object<H>>
        decreases self,
    {
        Self::leaves_below(self.left) + Self::leaves_below(self.right)
    }

    spec fn leaves_below(child: Option<Child<H>>) -> Seq<Object<H>>
        decreases child,
    {
        match child {
            None => Seq::empty(),
            Some(Child::Leaf(object)) => seq![object],
            Some(Child::Node(node)) => node.leaves(),
        }
    }

    /// The box around all that is below the node, if it has one.
    pub closed spec fn bbox(self) -> Option<Aabb> {
        self.bbox
    }

    spec fn box_below(child: Option<Child<H>>) -> Option<Aabb> {
        match child {
            None => None,
            Some(Child::Leaf(object)) => object.bbox(),
            Some(Child::Node(node)) => node.bbox,
        }
    }

    /// The box of a node over two sides: that of the left side where there is
    /// no right side, and else the box around both, if both have one.
    spec fn joined(left: Option<Aabb>, right: Option<Option<Aabb>>) -> Option<Aabb> {
        match right {
            None => left,
            Some(right_box) => match (left, right_box) {
                (Some(a), Some(b)) => Some(Aabb::union(a, b)),
                _ => None,
            },
        }
    }

    spec fn side(child: Option<Child<H>>) -> Option<Option<Aabb>> {
        match child {
            None => None,
            Some(_) => Some(Self::box_below(child)),
        }
    }

    /// Nothing hangs on the right of a node that has nothing on its left; a
    /// node below another holds at least one object; every node's box is the
    /// one its two sides give; and every object's box, where it has one, is a
    /// box.
    pub closed spec fn wf(self) -> bool
        decreases self,
    {
        &&& (self.right is Some ==> self.left is Some)
        &&& self.bbox == Self::joined(Self::box_below(self.left), Self::side(self.right))
        &&& Self::wf_below(self.left)
        &&& Self::wf_below(self.right)
    }

    spec fn wf_below(child: Option<Child<H>>) -> bool
        decreases child,
    {
        match child {
            None => true,
            Some(Child::Leaf(object)) => object.wf(),
            Some(Child::Node(node)) => node.wf() && node.leaves().len() > 0,
        }
    }

    /// Every node with two sides holds on its left half of the objects below
    /// it, rounded down, and there is an axis along which each object on the
    /// left stands in order with each on the right.
    pub closed spec fn median_split(self) -> bool
        decreases self,
    {
        &&& Self::median_split_below(self.left)
        &&& Self::median_split_below(self.right)
        &&& self.right is Some ==> {
            &&& Self::leaves_below(self.left).len() == self.leaves().len() / 2
            &&& exists|axis: int|
                0 <= axis < 3 && #[trigger] separated(
                    Self::leaves_below(self.left),
                    Self::leaves_below(self.right),
                    axis,
                )
        }
    }

    spec fn median_split_below(child: Option<Child<H>>) -> bool
        decreases child,
    {
        match child {
            None => true,
            Some(Child::Leaf(_)) => true,
            Some(Child::Node(node)) => node.median_split(),
        }
    }

    /// What `hit` answers. Nothing, where the node has no box or the ray
    /// passes its box by. Else the left side is asked first, then the right
    /// side for what is nearer than the left side's hit; the right side's
    /// answer is taken where it has one, else the left side's.
    pub closed spec fn hit_model<F: Fn(Ray, usize, Scalar, Scalar) -> Slab>(
        self,
        ray: Ray,
        t_min: Scalar,
        t_max: Scalar,
        slab: F,
    ) -> Option<HitRecord<H::Material>>
        decreases self,
    {
        if !(self.bbox matches Some(b) && b.hit_model(ray, t_min, t_max, slab)) {
            None
        } else {
            let left = Self::hit_below(self.left, ray, t_min, t_max, slab);
            let right = Self::hit_below(self.right, ray, t_min, tightened(left, t_max), slab);
            match right {
                Some(record) => Some(record),
                None => left,
            }
        }
    }

    spec fn hit_below<F: Fn(Ray, usize, Scalar, Scalar) -> Slab>(
        child: Option<Child<H>>,
        ray: Ray,
        t_min: Scalar,
        t_max: Scalar,
        slab: F,
    ) -> Option<HitRecord<H::Material>>
        decreases child,
    {
        match child {
            None => None,
            Some(Child::Leaf(object)) => object.hit_model(ray, t_min, t_max),
            Some(Child::Node(node)) => node.hit_model(ray, t_min, t_max, slab),
        }
    }

    /// The box that hangs on one side, as the side itself gives it.
    fn box_of(child: &Child<H>, time_interval: (Scalar, Scalar)) -> (bbox: Option<Aabb>)
        requires
            Self::wf_below(Some(*child)),
        ensures
            bbox == Self::box_below(Some(*child)),
            bbox matches Some(b) ==> b.wf(),
    {
        match child {
            Child::Leaf(object) => object.bounding_box(time_interval),
            Child::Node(node) => {
                proof {
                    node.lemma_box_wf();
                }
                node.bounding_box(time_interval)
            },
        }
    }

    /// The node over one or two sides.
    fn over(left: Child<H>, right: Option<Child<H>>, time_interval: (Scalar, Scalar)) -> (node: Self)
        requires
            Self::wf_below(Some(left)),
            Self::wf_below(right),
        ensures
            node.wf(),
            node.left == Some(left),
            node.right == right,
    {
        let left_bbox = Self::box_of(&left, time_interval);
        let bbox = match &right {
            None => left_bbox,
            Some(child) => {
                let right_bbox = Self::box_of(child, time_interval);
                match (left_bbox, right_bbox) {
                    (Some(lb), Some(rb)) => Some(Aabb::surrounding_box(&lb, &rb)),
                    _ => None,
                }
            },
        };
        BvhNode { bbox, left: Some(left), right }
    }

    /// The box of a node in order is a box.
    pub proof fn lemma_box_wf(self)
        requires
            self.wf(),
        ensures
            self.bbox() matches Some(b) ==> b.wf(),
        decreases self,
    {
        match self.left {
            Some(Child::Node(node)) => node.lemma_box_wf(),
            _ => {},
        }
        match self.right {
            Some(Child::Node(node)) => node.lemma_box_wf(),
            _ => {},
        }
        match (Self::box_below(self.left), Self::box_below(self.right)) {
            (Some(a), Some(b)) => Aabb::lemma_union(a, b),
            _ => {},
        }
    }

    /// Where every object below a node has a box, so has the node, and its
    /// box holds all of theirs.
    pub proof fn lemma_box_holds_leaves(self)
        requires
            self.wf(),
            self.leaves().len() > 0,
            forall|i: int| 0 <= i < self.leaves().len() ==> (#[trigger] self.leaves()[i]).bbox() is Some,
        ensures
            self.bbox() is Some,
            self.bbox().unwrap().wf(),
            forall|i: int|
                0 <= i < self.leaves().len() ==> (#[trigger] self.leaves()[i]).bbox().unwrap().within(
                    self.bbox().unwrap(),
                ),
        decreases self,
    {
        let low = Self::leaves_below(self.left);
        let high = Self::leaves_below(self.right);
        let all = self.leaves();
        assert(all == low + high);
        assert forall|i: int| 0 <= i < low.len() implies (#[trigger] low[i]).bbox() is Some by {
            assert(low[i] == all[i]);
        }
        assert forall|j: int| 0 <= j < high.len() implies (#[trigger] high[j]).bbox() is Some by {
            assert(high[j] == all[low.len() + j]);
        }
        self.lemma_box_wf();
        Self::lemma_side_holds_leaves(self.left);
        Self::lemma_side_holds_leaves(self.right);
        let outer = self.bbox.unwrap();
        if self.right is Some {
            let a = Self::box_below(self.left).unwrap();
            let b = Self::box_below(self.right).unwrap();
            Aabb::lemma_union(a, b);
            assert forall|i: int| 0 <= i < all.len() implies (#[trigger] all[i]).bbox().unwrap().within(
                outer,
            ) by {
                if i < low.len() {
                    assert(all[i] == low[i]);
                    assert(low[i].bbox().unwrap().within(a));
                    Self::lemma_within_chain(low[i].bbox().unwrap(), a, outer);
                } else {
                    assert(all[i] == high[i - low.len()]);
                    assert(high[i - low.len()].bbox().unwrap().within(b));
                    Self::lemma_within_chain(high[i - low.len()].bbox().unwrap(), b, outer);
                }
            }
        } else {
            assert(all =~= low);
        }
    }

    /// The box of a node is the box around the boxes of the objects below it,
    /// taken one after another from left to right.
    pub proof fn lemma_box_is_bounds(self, time_interval: (Scalar, Scalar))
        requires
            self.wf(),
            self.leaves().len() > 0,
        ensures
            self.bbox() == bounds(self.leaves(), time_interval),
        decreases self,
    {
        let low = Self::leaves_below(self.left);
        let high = Self::leaves_below(self.right);
        Self::lemma_side_is_bounds(self.left, time_interval);
        Self::lemma_side_is_bounds(self.right, time_interval);
        if self.right is Some {
            lemma_bounds_concat(low, high, time_interval);
        } else {
            assert(self.leaves() =~= low);
        }
    }

    /// The box of a node is the box around the boxes of the objects below it,
    /// taken in whatever order.
    pub proof fn lemma_box_any_order(self, objects: Seq<Object<H>>, time_interval: (Scalar, Scalar))
        requires
            self.wf(),
            self.leaves().len() > 0,
            self.leaves().to_multiset() == objects.to_multiset(),
        ensures
            self.bbox() == bounds(objects, time_interval),
    {
        let leaves = self.leaves();
        self.lemma_box_is_bounds(time_interval);
        self.lemma_leaves_wf();
        assert forall|i: int| 0 <= i < objects.len() implies (#[trigger] objects[i]).wf() by {
            assert(objects.contains(objects[i]));
            vstd::seq_lib::to_multiset_contains(objects, objects[i]);
            vstd::seq_lib::to_multiset_contains(leaves, objects[i]);
            let j = choose|j: int| 0 <= j < leaves.len() && leaves[j] == objects[i];
            assert(leaves[j].wf());
        }
        lemma_bounds_any_order(leaves, objects, time_interval);
    }

    /// The same of one side, together with what the law above needs of it:
    /// a side holds an object, and each box on it is a box.
    proof fn lemma_side_is_bounds(child: Option<Child<H>>, time_interval: (Scalar, Scalar))
        requires
            Self::wf_below(child),
        ensures
            child is Some ==> Self::leaves_below(child).len() > 0 && Self::box_below(child)
                == bounds(Self::leaves_below(child), time_interval),
            forall|i: int|
                0 <= i < Self::leaves_below(child).len() ==> ((#[trigger] Self::leaves_below(
                    child,
                )[i]).bounding_box_model(time_interval) matches Some(b) ==> b.wf()),
        decreases child,
    {
        match child {
            None => {},
            Some(Child::Leaf(object)) => {
                assert(Self::leaves_below(child)[0] == object);
            },
            Some(Child::Node(node)) => {
                node.lemma_box_is_bounds(time_interval);
                node.lemma_leaves_wf();
            },
        }
    }

    /// Each box of an object below a node in order is a box.
    pub proof fn lemma_leaves_wf(self)
        requires
            self.wf(),
        ensures
            all_wf(self.leaves()),
        decreases self,
    {
        let low = Self::leaves_below(self.left);
        let high = Self::leaves_below(self.right);
        match self.left {
            Some(Child::Node(node)) => node.lemma_leaves_wf(),
            _ => {},
        }
        match self.right {
            Some(Child::Node(node)) => node.lemma_leaves_wf(),
            _ => {},
        }
        assert forall|i: int| 0 <= i < self.leaves().len() implies (#[trigger] self.leaves()[i]).wf() by {
            if i < low.len() {
                assert(self.leaves()[i] == low[i]);
            } else {
                assert(self.leaves()[i] == high[i - low.len()]);
            }
        }
    }

    /// A box within a box within a third lies within the third.
    proof fn lemma_within_chain(inner: Aabb, middle: Aabb, outer: Aabb)
        requires
            inner.within(middle),
            middle.within(outer),
        ensures
            inner.within(outer),
    {
    }

    /// The same of one side: where it holds an object, and each object on it
    /// has a box, the side has a box that holds them all.
    proof fn lemma_side_holds_leaves(child: Option<Child<H>>)
        requires
            Self::wf_below(child),
            forall|i: int|
                0 <= i < Self::leaves_below(child).len() ==> (#[trigger] Self::leaves_below(
                    child,
                )[i]).bbox() is Some,
        ensures
            child is Some ==> {
                &&& Self::leaves_below(child).len() > 0
                &&& Self::box_below(child) is Some
                &&& Self::box_below(child).unwrap().wf()
                &&& forall|i: int|
                    0 <= i < Self::leaves_below(child).len() ==> (#[trigger] Self::leaves_below(
                        child,
                    )[i]).bbox().unwrap().within(Self::box_below(child).unwrap())
            },
        decreases child,
    {
        match child {
            None => {},
            Some(Child::Leaf(object)) => {
                assert(Self::leaves_below(child)[0] == object);
            },
            Some(Child::Node(node)) => {
                node.lemma_box_holds_leaves();
            },
        }
    }

    /// No ray hits a node without a box.
    pub proof fn lemma_no_box_no_hit<F: Fn(Ray, usize, Scalar, Scalar) -> Slab>(
        self,
        ray: Ray,
        t_min: Scalar,
        t_max: Scalar,
        slab: F,
    )
        requires
            self.bbox() is None,
        ensures
            self.hit_model(ray, t_min, t_max, slab) is None,
    {
    }

    /// Over steady, enclosed objects, and with slabs that widen with their
    /// planes, what `hit` answers is the nearest of what the objects answer.
    pub proof fn lemma_hit_closest<F: Fn(Ray, usize, Scalar, Scalar) -> Slab>(
        self,
        ray: Ray,
        t_min: Scalar,
        t_max: Scalar,
        slab: F,
    )
        requires
            self.wf(),
            !t_max.spec_is_nan(),
            widening(slab, ray),
            all_steady(self.leaves(), ray, t_min),
            all_enclosed(self.leaves(), ray, t_min, slab),
        ensures
            closest(self.hit_model(ray, t_min, t_max, slab), self.leaves(), ray, t_min, t_max),
        decreases self, 1int,
    {
        let low = Self::leaves_below(self.left);
        let high = Self::leaves_below(self.right);
        let all = self.leaves();
        assert(all == low + high);
        assert forall|i: int| 0 <= i < low.len() implies steady(#[trigger] low[i], ray, t_min)
            && enclosed(low[i], ray, t_min, slab) by {
            assert(low[i] == all[i]);
        }
        assert forall|j: int| 0 <= j < high.len() implies steady(#[trigger] high[j], ray, t_min)
            && enclosed(high[j], ray, t_min, slab) by {
            assert(high[j] == all[low.len() + j]);
        }
        if all.len() == 0 {
            assert(self.left is None);
        } else {
            assert forall|i: int| 0 <= i < all.len() implies (#[trigger] all[i]).bbox() is Some by {
                assert(enclosed(all[i], ray, t_min, slab));
            }
            self.lemma_box_holds_leaves();
            let outer = self.bbox.unwrap();
            if !outer.hit_model(ray, t_min, t_max, slab) {
                assert forall|i: int| 0 <= i < all.len() implies (#[trigger] all[i]).hit_model(
                    ray,
                    t_min,
                    t_max,
                ) is None by {
                    assert(enclosed(all[i], ray, t_min, slab));
                    if all[i].hit_model(ray, t_min, t_max) is Some {
                        Aabb::lemma_hit_wider(
                            all[i].bbox().unwrap(),
                            outer,
                            ray,
                            t_min,
                            t_max,
                            slab,
                        );
                    }
                }
            } else {
                let left = Self::hit_below(self.left, ray, t_min, t_max, slab);
                Self::lemma_side_closest(self.left, ray, t_min, t_max, slab);
                let bound = tightened(left, t_max);
                if let Some(ra) = left {
                    let i0 = choose|i: int|
                        0 <= i < low.len() && (#[trigger] low[i]).hit_model(ray, t_min, t_max) == Some(
                            ra,
                        );
                    assert(steady(low[i0], ray, t_min));
                    assert(low[i0].hit_model(ray, t_min, t_max) == bounded(
                        low[i0].hit_model(ray, t_min, Scalar::spec_infinity()),
                        t_max,
                    ));
                }
                Self::lemma_side_closest(self.right, ray, t_min, bound, slab);
                let right = Self::hit_below(self.right, ray, t_min, bound, slab);
                lemma_closest_join(left, low, right, high, ray, t_min, t_max);
            }
        }
    }

    /// The same of one side.
    proof fn lemma_side_closest<F: Fn(Ray, usize, Scalar, Scalar) -> Slab>(
        child: Option<Child<H>>,
        ray: Ray,
        t_min: Scalar,
        t_max: Scalar,
        slab: F,
    )
        requires
            Self::wf_below(child),
            !t_max.spec_is_nan(),
            widening(slab, ray),
            all_steady(Self::leaves_below(child), ray, t_min),
            all_enclosed(Self::leaves_below(child), ray, t_min, slab),
        ensures
            closest(
                Self::hit_below(child, ray, t_min, t_max, slab),
                Self::leaves_below(child),
                ray,
                t_min,
                t_max,
            ),
        decreases child, 0int,
    {
        match child {
            None => {},
            Some(Child::Leaf(object)) => {
                assert(Self::leaves_below(child)[0] == object);
                lemma_closest_single(object, ray, t_min, t_max);
            },
            Some(Child::Node(node)) => {
                node.lemma_hit_closest(ray, t_min, t_max, slab);
            },
        }
    }

    /// A ray hits the hierarchy at the distance at which it hits the objects
    /// below it gone through one after another, in whatever order, or it
    /// hits both not at all: provided that each object is steady and
    /// enclosed, and that the slabs of the ray widen with their planes.
    pub proof fn lemma_hit_matches_scan<F: Fn(Ray, usize, Scalar, Scalar) -> Slab>(
        self,
        objects: Seq<Object<H>>,
        ray: Ray,
        t_min: Scalar,
        t_max: Scalar,
        slab: F,
    )
        requires
            self.wf(),
            self.leaves().to_multiset() == objects.to_multiset(),
            !t_max.spec_is_nan(),
            widening(slab, ray),
            all_steady(objects, ray, t_min),
            all_enclosed(objects, ray, t_min, slab),
        ensures
            reach(self.hit_model(ray, t_min, t_max, slab)) == reach(scan(objects, ray, t_min, t_max)),
    {
        let leaves = self.leaves();
        assert forall|i: int| 0 <= i < leaves.len() implies steady(#[trigger] leaves[i], ray, t_min)
            && enclosed(leaves[i], ray, t_min, slab) by {
            assert(leaves.contains(leaves[i]));
            vstd::seq_lib::to_multiset_contains(leaves, leaves[i]);
            vstd::seq_lib::to_multiset_contains(objects, leaves[i]);
            let j = choose|j: int| 0 <= j < objects.len() && objects[j] == leaves[i];
            assert(steady(objects[j], ray, t_min));
            assert(enclosed(objects[j], ray, t_min, slab));
        }
        self.lemma_hit_closest(ray, t_min, t_max, slab);
        lemma_scan_closest(objects, ray, t_min, t_max);
        lemma_closest_agree(
            self.hit_model(ray, t_min, t_max, slab),
            leaves,
            scan(objects, ray, t_min, t_max),
            objects,
            ray,
            t_min,
            t_max,
        );
    }

    /// A ray hits the hierarchy with the record with which it hits the
    /// objects below it gone through one after another, in whatever order:
    /// provided that each object is steady and enclosed, that the slabs of
    /// the ray widen with their planes, and that no two objects answer at the
    /// same distance.
    pub proof fn lemma_hit_is_scan<F: Fn(Ray, usize, Scalar, Scalar) -> Slab>(
        self,
        objects: Seq<Object<H>>,
        ray: Ray,
        t_min: Scalar,
        t_max: Scalar,
        slab: F,
    )
        requires
            self.wf(),
            self.leaves().to_multiset() == objects.to_multiset(),
            !t_max.spec_is_nan(),
            widening(slab, ray),
            all_steady(objects, ray, t_min),
            all_enclosed(objects, ray, t_min, slab),
            unmistakable(objects, ray, t_min, t_max),
        ensures
            self.hit_model(ray, t_min, t_max, slab) == scan(objects, ray, t_min, t_max),
    {
        let leaves = self.leaves();
        assert forall|i: int| 0 <= i < leaves.len() implies steady(#[trigger] leaves[i], ray, t_min)
            && enclosed(leaves[i], ray, t_min, slab) by {
            assert(leaves.contains(leaves[i]));
            vstd::seq_lib::to_multiset_contains(leaves, leaves[i]);
            vstd::seq_lib::to_multiset_contains(objects, leaves[i]);
            let j = choose|j: int| 0 <= j < objects.len() && objects[j] == leaves[i];
            assert(steady(objects[j], ray, t_min));
            assert(enclosed(objects[j], ray, t_min, slab));
        }
        self.lemma_hit_closest(ray, t_min, t_max, slab);
        lemma_scan_closest(objects, ray, t_min, t_max);
        lemma_closest_same(
            scan(objects, ray, t_min, t_max),
            objects,
            self.hit_model(ray, t_min, t_max, slab),
            leaves,
            ray,
            t_min,
            t_max,
        );
    }

    /// The hierarchy over some objects.
    ///
    /// Over no object it is a node with nothing below it and no box, which no
    /// ray hits. One object hangs alone on the left of its node. Two hang left and
    /// right, in order along an axis drawn at random. More are sorted along
    /// such an axis and parted in the middle, the smaller half to the left,
    /// and a hierarchy built over each half, with an axis of its own. Whatever
    /// the axes, the box of the hierarchy is the box around all the objects.
    pub fn new(objects: Vec<Object<H>>, time_interval: (Scalar, Scalar)) -> (node: Self)
        ensures
            node.wf(),
            node.median_split(),
            node.leaves().to_multiset() == objects@.to_multiset(),
            node.leaves().len() == objects@.len(),
            node.bbox() == bounds(node.leaves(), time_interval),
            objects@.len() == 0 ==> node.bbox() is None,
            node.bbox() == bounds(objects@, time_interval),
        decreases objects@.len(),
    {
        broadcast use {vstd::seq_lib::group_to_multiset_ensures, vstd::multiset::group_multiset_axioms};

        let mut objects = objects;
        let ghost given = objects@;
        let n: usize = objects.len();
        if n == 0 {
            proof {
                assert(given =~= Seq::empty());
            }
            return Self::default();
        }
        let axis: usize = uniform_below(3);
        if n == 1 {
            let first = objects.remove(0);
            proof {
                use_type_invariant(&first);
                assert(given =~= seq![first]);
            }
            let node = Self::over(Child::Leaf(first), None, time_interval);
            proof {
                assert(node.leaves() =~= seq![first]);
                node.lemma_box_is_bounds(time_interval);
            }
            node
        } else if n == 2 {
            let first = objects.remove(0);
            let second = objects.remove(0);
            proof {
                assert(given =~= seq![first, second]);
            }
            let (left, right) = order_pair(first, second, axis);
            let ghost (low, high) = (left, right);
            let node = Self::over(Child::Leaf(left), Some(Child::Leaf(right)), time_interval);
            proof {
                assert(node.leaves() =~= seq![low, high]);
                assert(Self::leaves_below(node.left) =~= seq![low]);
                assert(Self::leaves_below(node.right) =~= seq![high]);
                assert(in_order(low, high, axis as int));
                assert(separated(seq![low], seq![high], axis as int));
                assert(seq![first, second] =~= seq![first] + seq![second]);
                assert(seq![second, first] =~= seq![second] + seq![first]);
                vstd::seq_lib::lemma_multiset_commutative(seq![first], seq![second]);
                vstd::seq_lib::lemma_multiset_commutative(seq![second], seq![first]);
                assert(node.leaves().to_multiset() =~= given.to_multiset());
                node.lemma_box_is_bounds(time_interval);
                assert(seq![first, second].drop_last() =~= seq![first]);
                assert(seq![second, first].drop_last() =~= seq![second]);
                assert(bounds(seq![first], time_interval) == first.bbox());
                assert(bounds(seq![second], time_interval) == second.bbox());
                assert(bounds(seq![first, second], time_interval) == join(
                    first.bbox(),
                    second.bbox(),
                ));
                assert(bounds(seq![second, first], time_interval) == join(
                    second.bbox(),
                    first.bbox(),
                ));
                match (first.bbox(), second.bbox()) {
                    (Some(a), Some(b)) => Aabb::lemma_union_commutes(a, b),
                    _ => {},
                }
            }
            node
        } else {
            let (first_half, second_half) = split_along(objects, axis);
            let ghost low = first_half@;
            let ghost high = second_half@;
            let ghost sorted = low + high;
            proof {
                vstd::seq_lib::lemma_multiset_commutative(low, high);
            }
            let left = Self::new(first_half, time_interval);
            let right = Self::new(second_half, time_interval);
            let ghost left_leaves = left.leaves();
            let ghost right_leaves = right.leaves();
            let node = Self::over(
                Child::Node(Box::new(left)),
                Some(Child::Node(Box::new(right))),
                time_interval,
            );
            proof {
                assert(Self::leaves_below(node.left) == left_leaves);
                assert(Self::leaves_below(node.right) == right_leaves);
                assert(node.leaves() == left_leaves + right_leaves);
                vstd::seq_lib::lemma_multiset_commutative(left_leaves, right_leaves);
                assert(node.leaves().to_multiset() =~= given.to_multiset());
                assert forall|i: int, j: int|
                    0 <= i < left_leaves.len() && 0 <= j < right_leaves.len() implies in_order(
                    #[trigger] left_leaves[i],
                    #[trigger] right_leaves[j],
                    axis as int,
                ) by {
                    let a = left_leaves[i];
                    let b = right_leaves[j];
                    assert(left_leaves.contains(a));
                    assert(right_leaves.contains(b));
                    vstd::seq_lib::to_multiset_contains(left_leaves, a);
                    vstd::seq_lib::to_multiset_contains(low, a);
                    vstd::seq_lib::to_multiset_contains(right_leaves, b);
                    vstd::seq_lib::to_multiset_contains(high, b);
                    let x = choose|x: int| 0 <= x < low.len() && low[x] == a;
                    let y = choose|y: int| 0 <= y < high.len() && high[y] == b;
                    assert(sorted[x] == a);
                    assert(sorted[low.len() + y] == b);
                }
                assert(separated(left_leaves, right_leaves, axis as int));
                node.lemma_box_is_bounds(time_interval);
                node.lemma_box_any_order(given, time_interval);
            }
            node
        }
    }

    /// The closest hit of a ray on what is below the node, at a distance
    /// strictly between `t_min` and `t_max`. The ray is known to the boxes
    /// through `slab`, as `Aabb::hit` takes it.
    pub fn hit<F: Fn(Ray, usize, Scalar, Scalar) -> Slab>(
        &self,
        ray: &Ray,
        t_min: Scalar,
        t_max: Scalar,
        slab: &F,
    ) -> (record: Option<HitRecord<H::Material>>)
        requires
            slab_source(*slab),
        ensures
            record == self.hit_model(*ray, t_min, t_max, *slab),
            record matches Some(found) ==> t_min.spec_lt(found.t) && found.t.spec_lt(t_max),
        decreases self,
    {
        let crossed = match &self.bbox {
            Some(b) => b.hit(ray, t_min, t_max, slab),
            None => false,
        };
        if !crossed {
            return None;
        }
        let left_record = match &self.left {
            None => None,
            Some(Child::Leaf(object)) => object.hit(ray, t_min, t_max),
            Some(Child::Node(node)) => node.hit(ray, t_min, t_max, slab),
        };
        let bound = match &left_record {
            Some(record) => record.t,
            None => t_max,
        };
        let right_record = match &self.right {
            None => None,
            Some(Child::Leaf(object)) => object.hit(ray, t_min, bound),
            Some(Child::Node(node)) => node.hit(ray, t_min, bound, slab),
        };
        match right_record {
            Some(record) => Some(record),
            None => left_record,
        }
    }

    /// The box around all that is below the node, if it has one.
    pub fn bounding_box(&self, _time_interval: (Scalar, Scalar)) -> (bbox: Option<Aabb>)
        ensures
            bbox == self.bbox(),
    {
        self.bbox
    }
}

impl<H: Hitable> Default for BvhNode<H> {
    /// A node with nothing below it and no box; no ray hits it.
    fn default() -> (node: Self)
        ensures
            node.wf(),
            node.median_split(),
            node.leaves() =~= Seq::<Object<H>>::empty(),
            node.bbox() is None,
    {
        BvhNode { bbox: None, left: None, right: None }
    }
}

} // verus!
