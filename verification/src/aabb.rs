//! Axis-aligned bounding boxes.

use vstd::prelude::*;
use crate::ray::Ray;
use crate::scalar::Scalar;
use crate::vec::Vec3;

verus! {

/// Where a ray enters and leaves the slab between two parallel planes, as
/// distances along the ray, the entry first.
pub type Slab = (Scalar, Scalar);

/// Whether a function can be asked for the slab of every ray on every axis,
/// and answers the same question always alike.
pub open spec fn slab_source<F: Fn(Ray, usize, Scalar, Scalar) -> Slab>(f: F) -> bool {
    &&& forall|ray: Ray, axis: usize, low: Scalar, high: Scalar|
        axis < 3 ==> call_requires(f, (ray, axis, low, high))
    &&& forall|ray: Ray, axis: usize, low: Scalar, high: Scalar, a: Slab, b: Slab|
        call_ensures(f, (ray, axis, low, high), a) && call_ensures(f, (ray, axis, low, high), b)
            ==> a == b
}

/// The slab that a function answers with for a ray, an axis and the two
/// planes.
pub open spec fn slab_of<F: Fn(Ray, usize, Scalar, Scalar) -> Slab>(
    f: F,
    ray: Ray,
    axis: usize,
    low: Scalar,
    high: Scalar,
) -> Slab {
    choose|slab: Slab| call_ensures(f, (ray, axis, low, high), slab)
}

/// A range of distances narrowed to a slab: from the later of the two
/// starts to the earlier of the two ends.
pub open spec fn narrowed(range: (Scalar, Scalar), slab: Slab) -> (Scalar, Scalar) {
    (range.0.spec_max(slab.0), range.1.spec_min(slab.1))
}

/// Whether a range of distances holds more than a point: its start lies
/// strictly before its end.
pub open spec fn spans(range: (Scalar, Scalar)) -> bool {
    !range.1.spec_le(range.0)
}

/// Whether one range of distances lies within another, or is the same.
pub open spec fn range_within(inner: (Scalar, Scalar), outer: (Scalar, Scalar)) -> bool {
    &&& outer.0 == inner.0 || outer.0.spec_le(inner.0)
    &&& outer.1 == inner.1 || inner.1.spec_le(outer.1)
}

/// Whether a function gives, for a ray, no narrower a slab for planes
/// further apart: the ray enters no later and leaves no sooner.
pub open spec fn widening<F: Fn(Ray, usize, Scalar, Scalar) -> Slab>(slab: F, ray: Ray) -> bool {
    forall|axis: usize, low: Scalar, high: Scalar, lower: Scalar, higher: Scalar|
        #![trigger slab_of(slab, ray, axis, low, high), slab_of(slab, ray, axis, lower, higher)]
        axis < 3 && lower.spec_le(low) && high.spec_le(higher) ==> {
            &&& slab_of(slab, ray, axis, lower, higher).0.spec_le(
                slab_of(slab, ray, axis, low, high).0,
            )
            &&& slab_of(slab, ray, axis, low, high).1.spec_le(
                slab_of(slab, ray, axis, lower, higher).1,
            )
        }
}

/// A range that holds no more than a point holds no more when it is
/// narrowed.
pub proof fn lemma_narrowed_stays_empty(range: (Scalar, Scalar), slab: Slab)
    requires
        !spans(range),
    ensures
        !spans(narrowed(range, slab)),
{
}

/// Of two ranges, one within the other, narrowed to two slabs, one within
/// the other, the one lies within the other again.
pub proof fn lemma_narrowed_wider(
    inner: (Scalar, Scalar),
    outer: (Scalar, Scalar),
    inner_slab: Slab,
    outer_slab: Slab,
)
    requires
        range_within(inner, outer),
        outer_slab.0.spec_le(inner_slab.0),
        inner_slab.1.spec_le(outer_slab.1),
    ensures
        narrowed(outer, outer_slab).0.spec_le(narrowed(inner, inner_slab).0),
        narrowed(inner, inner_slab).1.spec_le(narrowed(outer, outer_slab).1),
        range_within(narrowed(inner, inner_slab), narrowed(outer, outer_slab)),
{
}

/// A range around a range that holds more than a point holds more than a
/// point, where the ends of both are numbers.
pub proof fn lemma_spans_wider(inner: (Scalar, Scalar), outer: (Scalar, Scalar))
    requires
        outer.0.spec_le(inner.0),
        inner.1.spec_le(outer.1),
        spans(inner),
    ensures
        spans(outer),
{
}

/// An axis-aligned bounding box, given by two opposite corners.
#[derive(Clone, Copy, Debug, PartialEq)]
pub struct Aabb {
    /// The corner with the smallest coordinate on every axis.
    min: Vec3,
    /// The corner with the largest coordinate on every axis.
    max: Vec3,
}

impl Aabb {
    /// The corner with the smallest coordinate on every axis.
    pub closed spec fn spec_min(&self) -> Vec3 {
        self.min
    }

    /// The corner with the largest coordinate on every axis.
    pub closed spec fn spec_max(&self) -> Vec3 {
        self.max
    }

    /// Both corners hold numbers, and on no axis does the smaller corner lie
    /// beyond the larger.
    pub open spec fn wf(&self) -> bool {
        &&& self.spec_min().wf()
        &&& self.spec_max().wf()
        &&& self.spec_min().all_le(self.spec_max())
    }

    /// The box that two corners give.
    pub closed spec fn from_corners(min: Vec3, max: Vec3) -> Aabb {
        Aabb { min, max }
    }

    /// The smallest box around two boxes.
    pub open spec fn union(a: Aabb, b: Aabb) -> Aabb {
        Self::from_corners(a.spec_min().spec_min(b.spec_min()), a.spec_max().spec_max(b.spec_max()))
    }

    /// Whether this box lies within another, on every axis.
    pub open spec fn within(&self, outer: Aabb) -> bool {
        outer.spec_min().all_le(self.spec_min()) && self.spec_max().all_le(outer.spec_max())
    }

    /// The distances, within a range, at which a ray lies between the box's
    /// planes on all three axes: the range narrowed to the slab of each axis
    /// in turn.
    pub open spec fn inside<F: Fn(Ray, usize, Scalar, Scalar) -> Slab>(
        &self,
        ray: Ray,
        t_min: Scalar,
        t_max: Scalar,
        slab: F,
    ) -> (Scalar, Scalar) {
        narrowed(
            narrowed(
                narrowed(
                    (t_min, t_max),
                    slab_of(slab, ray, 0, self.spec_min().x, self.spec_max().x),
                ),
                slab_of(slab, ray, 1, self.spec_min().y, self.spec_max().y),
            ),
            slab_of(slab, ray, 2, self.spec_min().z, self.spec_max().z),
        )
    }

    /// What `hit` answers: the ray lies within the box at more than a point
    /// of the range.
    pub open spec fn hit_model<F: Fn(Ray, usize, Scalar, Scalar) -> Slab>(
        &self,
        ray: Ray,
        t_min: Scalar,
        t_max: Scalar,
        slab: F,
    ) -> bool {
        spans(self.inside(ray, t_min, t_max, slab))
    }

    /// A box is fixed by its two corners.
    pub proof fn lemma_corners(min: Vec3, max: Vec3)
        ensures
            Self::from_corners(min, max).spec_min() == min,
            Self::from_corners(min, max).spec_max() == max,
            forall|b: Aabb| b.spec_min() == min && b.spec_max() == max ==> b == Self::from_corners(min, max),
    {
    }

    /// A box from two opposite corners, the smaller one first.
    pub fn new(min: Vec3, max: Vec3) -> (bbox: Self)
        requires
            min.wf(),
            max.wf(),
            min.all_le(max),
        ensures
            bbox == Self::from_corners(min, max),
            bbox.spec_min() == min,
            bbox.spec_max() == max,
            bbox.wf(),
    {
        Aabb { min, max }
    }

    /// The smallest box around two boxes: its corners are, coordinate by
    /// coordinate, the smaller of the two smaller corners and the larger of
    /// the two larger ones.
    pub fn surrounding_box(bbox0: &Self, bbox1: &Self) -> (bbox: Self)
        requires
            bbox0.wf(),
            bbox1.wf(),
        ensures
            bbox == Self::union(*bbox0, *bbox1),
            bbox.spec_min() == bbox0.spec_min().spec_min(bbox1.spec_min()),
            bbox.spec_max() == bbox0.spec_max().spec_max(bbox1.spec_max()),
            bbox.wf(),
            bbox0.within(bbox),
            bbox1.within(bbox),
    {
        proof {
            Self::lemma_union(*bbox0, *bbox1);
        }
        Self::new(bbox0.min.min(&bbox1.min), bbox0.max.max(&bbox1.max))
    }

    /// Whether a ray passes through the box within a range of distances.
    /// `slab` tells for the ray, an axis and the box's two planes on it where
    /// the ray enters and leaves the slab between them; the range is narrowed
    /// to one slab after another, and the ray passes the box by as soon as no
    /// more than a point is left of it.
    pub fn hit<F: Fn(Ray, usize, Scalar, Scalar) -> Slab>(
        &self,
        ray: &Ray,
        t_min: Scalar,
        t_max: Scalar,
        slab: &F,
    ) -> (crossed: bool)
        requires
            slab_source(*slab),
        ensures
            crossed == self.hit_model(*ray, t_min, t_max, *slab),
    {
        let ghost s0 = slab_of(*slab, *ray, 0, self.spec_min().x, self.spec_max().x);
        let ghost s1 = slab_of(*slab, *ray, 1, self.spec_min().y, self.spec_max().y);
        let ghost s2 = slab_of(*slab, *ray, 2, self.spec_min().z, self.spec_max().z);
        let ghost start = (t_min, t_max);
        let mut entered = t_min;
        let mut left = t_max;
        let mut axis: usize = 0;
        while axis < 3
            invariant
                axis <= 3,
                slab_source(*slab),
                s0 == slab_of(*slab, *ray, 0, self.spec_min().x, self.spec_max().x),
                s1 == slab_of(*slab, *ray, 1, self.spec_min().y, self.spec_max().y),
                s2 == slab_of(*slab, *ray, 2, self.spec_min().z, self.spec_max().z),
                start == (t_min, t_max),
                axis == 0 ==> (entered, left) == start,
                axis == 1 ==> (entered, left) == narrowed(start, s0),
                axis == 2 ==> (entered, left) == narrowed(narrowed(start, s0), s1),
                axis == 3 ==> (entered, left) == narrowed(narrowed(narrowed(start, s0), s1), s2),
                axis > 0 ==> spans((entered, left)),
            decreases 3 - axis,
        {
            let low = self.min.index(axis);
            let high = self.max.index(axis);
            let (t0, t1) = slab(*ray, axis, low, high);
            assert((t0, t1) == slab_of(*slab, *ray, axis, low, high));
            entered = entered.max(t0);
            left = left.min(t1);
            if left.le(entered) {
                proof {
                    if axis == 0 {
                        lemma_narrowed_stays_empty(narrowed(start, s0), s1);
                        lemma_narrowed_stays_empty(narrowed(narrowed(start, s0), s1), s2);
                    } else if axis == 1 {
                        lemma_narrowed_stays_empty(narrowed(narrowed(start, s0), s1), s2);
                    }
                }
                return false;
            }
            axis += 1;
        }
        true
    }

    /// The corner with the smallest coordinate on every axis.
    pub fn min(&self) -> (corner: &Vec3)
        ensures
            *corner == self.spec_min(),
    {
        &self.min
    }

    /// The corner with the largest coordinate on every axis.
    pub fn max(&self) -> (corner: &Vec3)
        ensures
            *corner == self.spec_max(),
    {
        &self.max
    }

    /// The box around two boxes is a box, and holds both.
    pub proof fn lemma_union(a: Aabb, b: Aabb)
        requires
            a.wf(),
            b.wf(),
        ensures
            Self::union(a, b).wf(),
            a.within(Self::union(a, b)),
            b.within(Self::union(a, b)),
            Self::union(a, b).spec_min() == a.spec_min().spec_min(b.spec_min()),
            Self::union(a, b).spec_max() == a.spec_max().spec_max(b.spec_max()),
    {
        Scalar::lemma_min_max(a.spec_min().x, b.spec_min().x);
        Scalar::lemma_min_max(a.spec_min().y, b.spec_min().y);
        Scalar::lemma_min_max(a.spec_min().z, b.spec_min().z);
        Scalar::lemma_min_max(a.spec_max().x, b.spec_max().x);
        Scalar::lemma_min_max(a.spec_max().y, b.spec_max().y);
        Scalar::lemma_min_max(a.spec_max().z, b.spec_max().z);
    }

    /// The box around two boxes does not depend on their order.
    pub proof fn lemma_union_commutes(a: Aabb, b: Aabb)
        requires
            a.wf(),
            b.wf(),
        ensures
            Self::union(a, b) == Self::union(b, a),
    {
        Scalar::lemma_min_max(a.spec_min().x, b.spec_min().x);
        Scalar::lemma_min_max(a.spec_min().y, b.spec_min().y);
        Scalar::lemma_min_max(a.spec_min().z, b.spec_min().z);
        Scalar::lemma_min_max(a.spec_max().x, b.spec_max().x);
        Scalar::lemma_min_max(a.spec_max().y, b.spec_max().y);
        Scalar::lemma_min_max(a.spec_max().z, b.spec_max().z);
    }

    /// A ray that passes through a box passes through every box around it,
    /// where the slabs widen with the planes.
    pub proof fn lemma_hit_wider<F: Fn(Ray, usize, Scalar, Scalar) -> Slab>(
        inner: Aabb,
        outer: Aabb,
        ray: Ray,
        t_min: Scalar,
        t_max: Scalar,
        slab: F,
    )
        requires
            inner.within(outer),
            widening(slab, ray),
            inner.hit_model(ray, t_min, t_max, slab),
        ensures
            outer.hit_model(ray, t_min, t_max, slab),
    {
        let start = (t_min, t_max);
        let i0 = slab_of(slab, ray, 0, inner.spec_min().x, inner.spec_max().x);
        let i1 = slab_of(slab, ray, 1, inner.spec_min().y, inner.spec_max().y);
        let i2 = slab_of(slab, ray, 2, inner.spec_min().z, inner.spec_max().z);
        let o0 = slab_of(slab, ray, 0, outer.spec_min().x, outer.spec_max().x);
        let o1 = slab_of(slab, ray, 1, outer.spec_min().y, outer.spec_max().y);
        let o2 = slab_of(slab, ray, 2, outer.spec_min().z, outer.spec_max().z);
        lemma_narrowed_wider(start, start, i0, o0);
        lemma_narrowed_wider(narrowed(start, i0), narrowed(start, o0), i1, o1);
        lemma_narrowed_wider(
            narrowed(narrowed(start, i0), i1),
            narrowed(narrowed(start, o0), o1),
            i2,
            o2,
        );
        lemma_spans_wider(
            inner.inside(ray, t_min, t_max, slab),
            outer.inside(ray, t_min, t_max, slab),
        );
    }

    /// The box around three boxes does not depend on which two are taken
    /// together first.
    pub proof fn lemma_union_associates(a: Aabb, b: Aabb, c: Aabb)
        requires
            a.wf(),
            b.wf(),
            c.wf(),
        ensures
            Self::union(Self::union(a, b), c) == Self::union(a, Self::union(b, c)),
    {
        Self::lemma_union(a, b);
        Self::lemma_union(b, c);
        Scalar::lemma_min_max_associate(a.spec_min().x, b.spec_min().x, c.spec_min().x);
        Scalar::lemma_min_max_associate(a.spec_min().y, b.spec_min().y, c.spec_min().y);
        Scalar::lemma_min_max_associate(a.spec_min().z, b.spec_min().z, c.spec_min().z);
        Scalar::lemma_min_max_associate(a.spec_max().x, b.spec_max().x, c.spec_max().x);
        Scalar::lemma_min_max_associate(a.spec_max().y, b.spec_max().y, c.spec_max().y);
        Scalar::lemma_min_max_associate(a.spec_max().z, b.spec_max().z, c.spec_max().z);
    }

    /// The box around a box and itself is that box.
    pub proof fn lemma_union_idempotent(a: Aabb)
        requires
            a.wf(),
        ensures
            Self::union(a, a) == a,
    {
        Scalar::lemma_min_max(a.spec_min().x, a.spec_min().x);
        Scalar::lemma_min_max(a.spec_min().y, a.spec_min().y);
        Scalar::lemma_min_max(a.spec_min().z, a.spec_min().z);
        Scalar::lemma_min_max(a.spec_max().x, a.spec_max().x);
        Scalar::lemma_min_max(a.spec_max().y, a.spec_max().y);
        Scalar::lemma_min_max(a.spec_max().z, a.spec_max().z);
    }
}

impl Default for Aabb {
    /// The box that holds the origin alone.
    fn default() -> (bbox: Self)
        ensures
            bbox.spec_min() == Vec3::spec_zero(),
            bbox.spec_max() == Vec3::spec_zero(),
            bbox.wf(),
    {
        Aabb { min: Vec3::zero(), max: Vec3::zero() }
    }
}

} // verus!
