//! The nearest of what several objects answer a ray with.

use vstd::prelude::*;
use crate::hitable::{scan, tightened, HitRecord, Hitable};
use crate::ray::Ray;
use crate::scalar::Scalar;

verus! {

/// A hit, where it is nearer than a bound.
pub open spec fn bounded<M>(found: Option<HitRecord<M>>, t_max: Scalar) -> Option<HitRecord<M>> {
    match found {
        Some(record) => if record.t.spec_lt(t_max) {
            Some(record)
        } else {
            None
        },
        None => None,
    }
}

/// The place of a hit's distance in the order of all numbers.
pub open spec fn reach<M>(found: Option<HitRecord<M>>) -> Option<int> {
    match found {
        Some(record) => Some(record.t.key()),
        None => None,
    }
}

/// Whether an object answers a ray from `t_min` on as one with a single
/// nearest hit does: the distance of its hit without a bound is a number, and
/// under a bound it gives that hit where it is nearer than the bound, and none
/// otherwise.
pub open spec fn steady<T: Hitable>(object: T, ray: Ray, t_min: Scalar) -> bool {
    &&& object.hit_model(ray, t_min, Scalar::spec_infinity()) matches Some(record)
        ==> !record.t.spec_is_nan()
    &&& forall|t_max: Scalar|
        !t_max.spec_is_nan() ==> #[trigger] object.hit_model(ray, t_min, t_max) == bounded(
            object.hit_model(ray, t_min, Scalar::spec_infinity()),
            t_max,
        )
}

/// Whether every object of a run is steady.
pub open spec fn all_steady<T: Hitable>(objects: Seq<T>, ray: Ray, t_min: Scalar) -> bool {
    forall|i: int| 0 <= i < objects.len() ==> steady(#[trigger] objects[i], ray, t_min)
}

/// Whether `found` is the nearest of what the objects answer under the
/// bound: one of them gives it and none gives a nearer one; or there is
/// none, and none of them answers.
pub open spec fn closest<T: Hitable>(
    found: Option<HitRecord<T::Material>>,
    objects: Seq<T>,
    ray: Ray,
    t_min: Scalar,
    t_max: Scalar,
) -> bool {
    match found {
        None => forall|i: int|
            0 <= i < objects.len() ==> (#[trigger] objects[i]).hit_model(ray, t_min, t_max) is None,
        Some(record) => {
            &&& exists|i: int|
                0 <= i < objects.len() && (#[trigger] objects[i]).hit_model(ray, t_min, t_max)
                    == Some(record)
            &&& forall|j: int|
                0 <= j < objects.len() ==> ((#[trigger] objects[j]).hit_model(ray, t_min, t_max) matches Some(
                    other,
                ) ==> record.t.spec_le(other.t))
        },
    }
}

/// The nearest of two runs of objects, where the second run was asked under
/// the bound that the first run's nearest hit sets, is the second run's
/// answer where it has one, and else the first's.
pub proof fn lemma_closest_join<T: Hitable>(
    first: Option<HitRecord<T::Material>>,
    head: Seq<T>,
    second: Option<HitRecord<T::Material>>,
    tail: Seq<T>,
    ray: Ray,
    t_min: Scalar,
    t_max: Scalar,
)
    requires
        !t_max.spec_is_nan(),
        all_steady(head, ray, t_min),
        all_steady(tail, ray, t_min),
        closest(first, head, ray, t_min, t_max),
        closest(second, tail, ray, t_min, tightened(first, t_max)),
    ensures
        closest(
            match second {
                Some(record) => Some(record),
                None => first,
            },
            head + tail,
            ray,
            t_min,
            t_max,
        ),
        !tightened(first, t_max).spec_is_nan(),
{
    let all = head + tail;
    let bound = tightened(first, t_max);
    let inf = Scalar::spec_infinity();
    if let Some(ra) = first {
        let i0 = choose|i: int| 0 <= i < head.len() && (#[trigger] head[i]).hit_model(ray, t_min, t_max) == Some(ra);
        assert(steady(head[i0], ray, t_min));
        assert(head[i0].hit_model(ray, t_min, t_max) == bounded(head[i0].hit_model(ray, t_min, inf), t_max));
        assert(!ra.t.spec_is_nan());
        assert(ra.t.spec_lt(t_max));
        assert(all[i0] == head[i0]);
    }
    assert(!bound.spec_is_nan());
    assert(bound.spec_le(t_max));
    assert forall|j: int| 0 <= j < tail.len() implies {
        &&& (#[trigger] tail[j]).hit_model(ray, t_min, bound) == bounded(tail[j].hit_model(ray, t_min, inf), bound)
        &&& tail[j].hit_model(ray, t_min, t_max) == bounded(tail[j].hit_model(ray, t_min, inf), t_max)
        &&& tail[j].hit_model(ray, t_min, inf) matches Some(record) ==> !record.t.spec_is_nan()
    } by {
        assert(steady(tail[j], ray, t_min));
    }
    match second {
        Some(rb) => {
            let j0 = choose|j: int| 0 <= j < tail.len() && (#[trigger] tail[j]).hit_model(ray, t_min, bound) == Some(rb);
            assert(tail[j0].hit_model(ray, t_min, bound) == bounded(tail[j0].hit_model(ray, t_min, inf), bound));
            assert(rb.t.spec_lt(bound));
            assert(all[head.len() + j0] == tail[j0]);
            assert(all[head.len() + j0].hit_model(ray, t_min, t_max) == Some(rb));
            assert forall|k: int| 0 <= k < all.len() implies ((#[trigger] all[k]).hit_model(ray, t_min, t_max) matches Some(
                other,
            ) ==> rb.t.spec_le(other.t)) by {
                if k < head.len() {
                    assert(all[k] == head[k]);
                } else {
                    let j = k - head.len();
                    assert(all[k] == tail[j]);
                    if let Some(other) = tail[j].hit_model(ray, t_min, t_max) {
                        if other.t.spec_lt(bound) {
                            assert(tail[j].hit_model(ray, t_min, bound) == Some(other));
                        }
                    }
                }
            }
        },
        None => {
            match first {
                Some(ra) => {
                    assert forall|k: int| 0 <= k < all.len() implies ((#[trigger] all[k]).hit_model(
                        ray,
                        t_min,
                        t_max,
                    ) matches Some(other) ==> ra.t.spec_le(other.t)) by {
                        if k < head.len() {
                            assert(all[k] == head[k]);
                        } else {
                            let j = k - head.len();
                            assert(all[k] == tail[j]);
                            assert(tail[j].hit_model(ray, t_min, bound) is None);
                        }
                    }
                },
                None => {
                    assert forall|k: int| 0 <= k < all.len() implies (#[trigger] all[k]).hit_model(
                        ray,
                        t_min,
                        t_max,
                    ) is None by {
                        if k < head.len() {
                            assert(all[k] == head[k]);
                        } else {
                            let j = k - head.len();
                            assert(all[k] == tail[j]);
                            assert(tail[j].hit_model(ray, t_min, bound) is None);
                        }
                    }
                },
            }
        },
    }
}

/// What a single steady object answers is the nearest of what it answers.
pub proof fn lemma_closest_single<T: Hitable>(object: T, ray: Ray, t_min: Scalar, t_max: Scalar)
    requires
        !t_max.spec_is_nan(),
        steady(object, ray, t_min),
    ensures
        closest(object.hit_model(ray, t_min, t_max), seq![object], ray, t_min, t_max),
{
    let only = seq![object];
    assert(only[0] == object);
    assert(object.hit_model(ray, t_min, t_max) == bounded(
        object.hit_model(ray, t_min, Scalar::spec_infinity()),
        t_max,
    ));
}

/// Going through steady objects one after another finds the nearest of what
/// they answer.
pub proof fn lemma_scan_closest<T: Hitable>(objects: Seq<T>, ray: Ray, t_min: Scalar, t_max: Scalar)
    requires
        !t_max.spec_is_nan(),
        all_steady(objects, ray, t_min),
    ensures
        closest(scan(objects, ray, t_min, t_max), objects, ray, t_min, t_max),
    decreases objects.len(),
{
    if objects.len() > 0 {
        let head = objects.drop_last();
        let last = objects.last();
        assert forall|i: int| 0 <= i < head.len() implies steady(#[trigger] head[i], ray, t_min) by {
            assert(head[i] == objects[i]);
        }
        lemma_scan_closest(head, ray, t_min, t_max);
        let before = scan(head, ray, t_min, t_max);
        let bound = tightened(before, t_max);
        assert(steady(last, ray, t_min));
        assert(seq![last][0] == last);
        if let Some(ra) = before {
            let i0 = choose|i: int| 0 <= i < head.len() && (#[trigger] head[i]).hit_model(ray, t_min, t_max) == Some(ra);
            assert(steady(head[i0], ray, t_min));
            assert(head[i0].hit_model(ray, t_min, t_max) == bounded(
                head[i0].hit_model(ray, t_min, Scalar::spec_infinity()),
                t_max,
            ));
        }
        lemma_closest_single(last, ray, t_min, bound);
        lemma_closest_join(before, head, last.hit_model(ray, t_min, bound), seq![last], ray, t_min, t_max);
        assert(head + seq![last] =~= objects);
    }
}

/// Steady objects gone through one after another answer as one steady
/// object does: the distance of their hit without a bound is a number, and
/// under a bound they give that hit where it is nearer than the bound, and none
/// otherwise.
pub proof fn lemma_scan_steady<T: Hitable>(objects: Seq<T>, ray: Ray, t_min: Scalar)
    requires
        all_steady(objects, ray, t_min),
    ensures
        scan(objects, ray, t_min, Scalar::spec_infinity()) matches Some(record)
            ==> !record.t.spec_is_nan(),
        forall|t_max: Scalar|
            !t_max.spec_is_nan() ==> #[trigger] scan(objects, ray, t_min, t_max) == bounded(
                scan(objects, ray, t_min, Scalar::spec_infinity()),
                t_max,
            ),
    decreases objects.len(),
{
    let inf = Scalar::spec_infinity();
    assert(!inf.spec_is_nan()) by {
        assert(0x7f80_0000u32 & 0x7fff_ffffu32 == 0x7f80_0000u32) by (bit_vector);
    }
    if objects.len() > 0 {
        let head = objects.drop_last();
        let last = objects.last();
        assert forall|i: int| 0 <= i < head.len() implies steady(#[trigger] head[i], ray, t_min) by {
            assert(head[i] == objects[i]);
        }
        lemma_scan_steady(head, ray, t_min);
        assert(steady(last, ray, t_min));
        let far = scan(head, ray, t_min, inf);
        let unbounded = last.hit_model(ray, t_min, inf);
        assert(last.hit_model(ray, t_min, tightened(far, inf)) == bounded(
            unbounded,
            tightened(far, inf),
        ));
        assert forall|t_max: Scalar| !t_max.spec_is_nan() implies #[trigger] scan(
            objects,
            ray,
            t_min,
            t_max,
        ) == bounded(scan(objects, ray, t_min, inf), t_max) by {
            let near = scan(head, ray, t_min, t_max);
            assert(near == bounded(far, t_max));
            assert(last.hit_model(ray, t_min, tightened(near, t_max)) == bounded(
                unbounded,
                tightened(near, t_max),
            ));
        }
    }
}

/// A run of steady objects is, taken as one object, steady.
pub proof fn lemma_vec_steady<T: Hitable>(objects: Vec<T>, ray: Ray, t_min: Scalar)
    requires
        all_steady(objects@, ray, t_min),
    ensures
        steady(objects, ray, t_min),
{
    lemma_scan_steady(objects@, ray, t_min);
}

/// Two nearest hits over the same objects, in whatever order, lie at the
/// same distance; or both are none.
pub proof fn lemma_closest_agree<T: Hitable>(
    first: Option<HitRecord<T::Material>>,
    one: Seq<T>,
    second: Option<HitRecord<T::Material>>,
    other: Seq<T>,
    ray: Ray,
    t_min: Scalar,
    t_max: Scalar,
)
    requires
        !t_max.spec_is_nan(),
        all_steady(one, ray, t_min),
        one.to_multiset() == other.to_multiset(),
        closest(first, one, ray, t_min, t_max),
        closest(second, other, ray, t_min, t_max),
    ensures
        reach(first) == reach(second),
{
    if let Some(ra) = first {
        let i = choose|i: int| 0 <= i < one.len() && (#[trigger] one[i]).hit_model(ray, t_min, t_max) == Some(ra);
        assert(one.contains(one[i]));
        vstd::seq_lib::to_multiset_contains(one, one[i]);
        vstd::seq_lib::to_multiset_contains(other, one[i]);
        let j = choose|j: int| 0 <= j < other.len() && other[j] == one[i];
        assert(other[j].hit_model(ray, t_min, t_max) == Some(ra));
        assert(steady(one[i], ray, t_min));
        assert(one[i].hit_model(ray, t_min, t_max) == bounded(
            one[i].hit_model(ray, t_min, Scalar::spec_infinity()),
            t_max,
        ));
    }
    if let Some(rb) = second {
        let j = choose|j: int| 0 <= j < other.len() && (#[trigger] other[j]).hit_model(ray, t_min, t_max) == Some(rb);
        assert(other.contains(other[j]));
        vstd::seq_lib::to_multiset_contains(other, other[j]);
        vstd::seq_lib::to_multiset_contains(one, other[j]);
        let i = choose|i: int| 0 <= i < one.len() && one[i] == other[j];
        assert(one[i].hit_model(ray, t_min, t_max) == Some(rb));
        assert(steady(one[i], ray, t_min));
        assert(one[i].hit_model(ray, t_min, t_max) == bounded(
            one[i].hit_model(ray, t_min, Scalar::spec_infinity()),
            t_max,
        ));
    }
}

/// Whether no two objects of a run answer a ray under a bound at the same
/// distance, unless with the same record.
pub open spec fn unmistakable<T: Hitable>(
    objects: Seq<T>,
    ray: Ray,
    t_min: Scalar,
    t_max: Scalar,
) -> bool {
    forall|i: int, j: int|
        0 <= i < objects.len() && 0 <= j < objects.len() ==> ((#[trigger] objects[i]).hit_model(
            ray,
            t_min,
            t_max,
        ) matches Some(one) ==> ((#[trigger] objects[j]).hit_model(ray, t_min, t_max) matches Some(
            other,
        ) ==> (one.t.key() == other.t.key() ==> one == other)))
}

/// Two nearest hits over the same objects, in whatever order, are the same
/// record, where no two of the objects answer at the same distance.
pub proof fn lemma_closest_same<T: Hitable>(
    first: Option<HitRecord<T::Material>>,
    one: Seq<T>,
    second: Option<HitRecord<T::Material>>,
    other: Seq<T>,
    ray: Ray,
    t_min: Scalar,
    t_max: Scalar,
)
    requires
        !t_max.spec_is_nan(),
        all_steady(one, ray, t_min),
        one.to_multiset() == other.to_multiset(),
        closest(first, one, ray, t_min, t_max),
        closest(second, other, ray, t_min, t_max),
        unmistakable(one, ray, t_min, t_max),
    ensures
        first == second,
{
    lemma_closest_agree(first, one, second, other, ray, t_min, t_max);
    if let Some(ra) = first {
        let rb = second.unwrap();
        let i = choose|i: int|
            0 <= i < one.len() && (#[trigger] one[i]).hit_model(ray, t_min, t_max) == Some(ra);
        let j = choose|j: int|
            0 <= j < other.len() && (#[trigger] other[j]).hit_model(ray, t_min, t_max) == Some(rb);
        assert(other.contains(other[j]));
        vstd::seq_lib::to_multiset_contains(other, other[j]);
        vstd::seq_lib::to_multiset_contains(one, other[j]);
        let k = choose|k: int| 0 <= k < one.len() && one[k] == other[j];
        assert(one[k].hit_model(ray, t_min, t_max) == Some(rb));
        assert(one[i].hit_model(ray, t_min, t_max) == Some(ra));
    }
}

} // verus!
