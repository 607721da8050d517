//! A volume turned about the y axis.

use vstd::prelude::*;
use crate::aabb::Aabb;
use crate::hitable::Hitable;
use crate::scalar::Scalar;
use crate::vec::{Point3, Vec3};

verus! {

/// The span of time over which the box of a volume is taken before it is
/// turned: from zero to one.
pub open spec fn turn_span() -> (Scalar, Scalar) {
    (Scalar::spec_zero(), Scalar::spec_one())
}

/// One of the eight corners of a box: on each axis the larger coordinate
/// where the flag of the axis is set, and the smaller one where it is not.
pub open spec fn corner(bbox: Aabb, i: bool, j: bool, k: bool) -> Point3 {
    Vec3 {
        x: if i {
            bbox.spec_max().x
        } else {
            bbox.spec_min().x
        },
        y: if j {
            bbox.spec_max().y
        } else {
            bbox.spec_min().y
        },
        z: if k {
            bbox.spec_max().z
        } else {
            bbox.spec_min().z
        },
    }
}

/// The eight corners of a box, the flag of z turning fastest and that of x
/// slowest.
pub open spec fn corners(bbox: Aabb) -> Seq<Point3> {
    seq![
        corner(bbox, false, false, false),
        corner(bbox, false, false, true),
        corner(bbox, false, true, false),
        corner(bbox, false, true, true),
        corner(bbox, true, false, false),
        corner(bbox, true, false, true),
        corner(bbox, true, true, false),
        corner(bbox, true, true, true),
    ]
}

/// The smallest corner of the box around some points: coordinate by
/// coordinate their minimum, and infinity where there is no point.
pub open spec fn low_corner(points: Seq<Point3>) -> Point3
    decreases points.len(),
{
    if points.len() == 0 {
        Vec3 { x: Scalar::spec_infinity(), y: Scalar::spec_infinity(), z: Scalar::spec_infinity() }
    } else {
        low_corner(points.drop_last()).spec_min(points.last())
    }
}

/// The largest corner of the box around some points: coordinate by
/// coordinate their maximum, and minus infinity where there is no point.
pub open spec fn high_corner(points: Seq<Point3>) -> Point3
    decreases points.len(),
{
    if points.len() == 0 {
        Vec3 {
            x: Scalar::spec_neg_infinity(),
            y: Scalar::spec_neg_infinity(),
            z: Scalar::spec_neg_infinity(),
        }
    } else {
        high_corner(points.drop_last()).spec_max(points.last())
    }
}

/// Whether a function can be asked to turn every point, and turns the same
/// point always into the same.
pub open spec fn turning<F: Fn(Point3) -> Point3>(turn: F) -> bool {
    &&& forall|p: Point3| call_requires(turn, (p,))
    &&& forall|p: Point3, q: Point3, r: Point3|
        call_ensures(turn, (p,), q) && call_ensures(turn, (p,), r) ==> q == r
}

/// The box whose corners are turned: that of a volume over the span from
/// zero to one, and the box of the origin alone where the volume has none.
pub open spec fn box_to_turn<H: Hitable>(hitable: H) -> Aabb {
    match hitable.bounding_box_model(turn_span()) {
        Some(b) => b,
        None => Aabb::from_corners(Vec3::spec_zero(), Vec3::spec_zero()),
    }
}

/// What a function turns a point into.
pub open spec fn turned<F: Fn(Point3) -> Point3>(turn: F, p: Point3) -> Point3 {
    choose|q: Point3| call_ensures(turn, (p,), q)
}

/// A volume turned about the y axis.
#[derive(Debug)]
pub struct RotateY<H> {
    hitable: H,
    sin_theta: Scalar,
    cos_theta: Scalar,
    hasbox: bool,
    bbox: Aabb,
}

impl<H: Hitable> RotateY<H> {
    /// The volume that is turned.
    pub closed spec fn spec_hitable(&self) -> H {
        self.hitable
    }

    /// The sine of the angle.
    pub closed spec fn spec_sin_theta(&self) -> Scalar {
        self.sin_theta
    }

    /// The cosine of the angle.
    pub closed spec fn spec_cos_theta(&self) -> Scalar {
        self.cos_theta
    }

    /// Whether the volume has a box.
    pub closed spec fn spec_hasbox(&self) -> bool {
        self.hasbox
    }

    /// The box around the turned corners of the volume's box.
    pub closed spec fn spec_bbox(&self) -> Aabb {
        self.bbox
    }

    /// A volume turned by an angle, given by its sine and its cosine; `turn`
    /// turns a point by that angle, and turns each of the eight corners of
    /// the volume's box into numbers. The box of the turned volume is the
    /// box around those eight corners, each turned; a volume without a box
    /// counts as one with the box of the origin alone.
    pub fn new<F: Fn(Point3) -> Point3>(
        hitable: H,
        sin_theta: Scalar,
        cos_theta: Scalar,
        turn: &F,
    ) -> (rotated: Self)
        requires
            turning(*turn),
            forall|k: int|
                0 <= k < 8 ==> turned(*turn, #[trigger] corners(box_to_turn(hitable))[k]).wf(),
        ensures
            rotated.spec_hitable() == hitable,
            rotated.spec_sin_theta() == sin_theta,
            rotated.spec_cos_theta() == cos_theta,
            rotated.spec_hasbox() == hitable.bounding_box_model(turn_span()) is Some,
            rotated.spec_bbox().wf(),
            ({
                let points = corners(box_to_turn(hitable)).map_values(
                    |p: Point3| turned(*turn, p),
                );
                &&& rotated.spec_bbox().spec_min() == low_corner(points)
                &&& rotated.spec_bbox().spec_max() == high_corner(points)
            }),
    {
        let found = hitable.bounding_box((Scalar::zero(), Scalar::one()));
        let hasbox = found.is_some();
        let bbox = match found {
            Some(b) => b,
            None => Aabb::default(),
        };
        proof {
            Aabb::lemma_corners(Vec3::spec_zero(), Vec3::spec_zero());
            assert(bbox == box_to_turn(hitable));
        }
        let ghost points = corners(bbox).map_values(|p: Point3| turned(*turn, p));
        let mut min = Point3::new(Scalar::infinity(), Scalar::infinity(), Scalar::infinity());
        let mut max = Point3::new(
            Scalar::neg_infinity(),
            Scalar::neg_infinity(),
            Scalar::neg_infinity(),
        );
        proof {
            assert(points.take(0) =~= Seq::empty());
        }
        let mut n: usize = 0;
        while n < 8
            invariant
                n <= 8,
                turning(*turn),
                forall|k: int| 0 <= k < 8 ==> turned(*turn, #[trigger] corners(bbox)[k]).wf(),
                points == corners(bbox).map_values(|p: Point3| turned(*turn, p)),
                points.len() == 8,
                min == low_corner(points.take(n as int)),
                max == high_corner(points.take(n as int)),
                min.wf(),
                max.wf(),
                n > 0 ==> min.all_le(max),
            decreases 8 - n,
        {
            let i = n >= 4;
            let j = n % 4 >= 2;
            let k = n % 2 == 1;
            let x = if i {
                bbox.max().x
            } else {
                bbox.min().x
            };
            let y = if j {
                bbox.max().y
            } else {
                bbox.min().y
            };
            let z = if k {
                bbox.max().z
            } else {
                bbox.min().z
            };
            let tester = turn(Vec3 { x, y, z });
            proof {
                assert(corners(bbox)[n as int] == (Vec3 { x, y, z }));
                assert(points[n as int] == turned(*turn, corners(bbox)[n as int]));
                assert(tester == points[n as int]);
                assert(points.take(n + 1).drop_last() =~= points.take(n as int));
                assert(points.take(n + 1).last() == tester);
                Scalar::lemma_min_max(min.x, tester.x);
                Scalar::lemma_min_max(min.y, tester.y);
                Scalar::lemma_min_max(min.z, tester.z);
                Scalar::lemma_min_max(max.x, tester.x);
                Scalar::lemma_min_max(max.y, tester.y);
                Scalar::lemma_min_max(max.z, tester.z);
            }
            min = min.min(&tester);
            max = max.max(&tester);
            n += 1;
        }
        proof {
            assert(points.take(8) =~= points);
        }
        RotateY { hitable, sin_theta, cos_theta, hasbox, bbox: Aabb::new(min, max) }
    }

    /// The volume that is turned.
    pub fn hitable(&self) -> (hitable: &H)
        ensures
            *hitable == self.spec_hitable(),
    {
        &self.hitable
    }

    /// The sine of the angle.
    pub fn sin_theta(&self) -> (sin_theta: Scalar)
        ensures
            sin_theta == self.spec_sin_theta(),
    {
        self.sin_theta
    }

    /// The cosine of the angle.
    pub fn cos_theta(&self) -> (cos_theta: Scalar)
        ensures
            cos_theta == self.spec_cos_theta(),
    {
        self.cos_theta
    }

    /// The box of the turned volume, if the volume has one.
    pub fn bounding_box(&self, _time_interval: (Scalar, Scalar)) -> (bbox: Option<Aabb>)
        ensures
            bbox == if self.spec_hasbox() {
                Some(self.spec_bbox())
            } else {
                None
            },
    {
        if self.hasbox {
            Some(self.bbox)
        } else {
            None
        }
    }
}

} // verus!
