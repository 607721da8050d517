use crab_rt::aabb::Aabb;
use crab_rt::hitable::{HitRecord, Hitable};
use crab_rt::objects::{AaBox, ConstantMedium, RotateY, XyRect, XzRect, YzRect};
use crab_rt::ray::Ray;
use crab_rt::scalar::Scalar;
use crab_rt::vec::Vec3;

fn s(value: f32) -> Scalar {
    Scalar::from_bits(value.to_bits())
}

fn f(value: Scalar) -> f32 {
    f32::from_bits(value.to_bits())
}

fn v(x: f32, y: f32, z: f32) -> Vec3 {
    Vec3::new(s(x), s(y), s(z))
}

fn pair(a: f32, b: f32) -> (Scalar, Scalar) {
    (s(a), s(b))
}

/// A thing with a box and nothing else.
struct Boxed(Option<Aabb>);

impl Hitable for Boxed {
    type Material = u8;

    fn hit(&self, _ray: &Ray, _t_min: Scalar, _t_max: Scalar) -> Option<HitRecord<u8>> {
        None
    }

    fn bounding_box(&self, _time_interval: (Scalar, Scalar)) -> Option<Aabb> {
        self.0
    }
}

#[test]
fn xy_rect_meets_within_its_sides() {
    let rect = XyRect::new(pair(0., 2.), pair(1., 3.), s(5.), 0u8);

    assert!(rect.meets(s(1.), s(0.), s(10.), s(1.), s(2.)));
    assert!(rect.meets(s(1.), s(0.), s(10.), s(0.), s(1.)));
    assert!(rect.meets(s(1.), s(0.), s(10.), s(2.), s(3.)));
    assert!(!rect.meets(s(0.), s(0.), s(10.), s(1.), s(2.)));
    assert!(!rect.meets(s(10.), s(0.), s(10.), s(1.), s(2.)));
    assert!(!rect.meets(s(f32::NAN), s(0.), s(10.), s(1.), s(2.)));
    assert!(rect.meets(s(9.5), s(0.), s(10.), s(1.), s(2.)));
    assert!(!rect.meets(s(11.), s(0.), s(10.), s(1.), s(2.)));
    assert!(!rect.meets(s(-1.), s(0.), s(10.), s(1.), s(2.)));
    assert!(!rect.meets(s(1.), s(0.), s(10.), s(-0.5), s(2.)));
    assert!(!rect.meets(s(1.), s(0.), s(10.), s(2.5), s(2.)));
    assert!(!rect.meets(s(1.), s(0.), s(10.), s(1.), s(0.5)));
    assert!(!rect.meets(s(1.), s(0.), s(10.), s(1.), s(3.5)));
}

#[test]
fn xz_and_yz_rect_meet_within_their_sides() {
    let xz = XzRect::new(pair(0., 2.), pair(1., 3.), s(5.), 0u8);
    assert!(xz.meets(s(1.), s(0.), s(10.), s(1.), s(2.)));
    assert!(!xz.meets(s(1.), s(0.), s(10.), s(1.), s(0.)));
    assert!(!xz.meets(s(1.), s(0.), s(10.), s(3.), s(2.)));

    let yz = YzRect::new(pair(0., 2.), pair(1., 3.), s(5.), 0u8);
    assert!(yz.meets(s(1.), s(0.), s(10.), s(1.), s(2.)));
    assert!(!yz.meets(s(1.), s(0.), s(10.), s(1.), s(0.)));
    assert!(!yz.meets(s(1.), s(0.), s(10.), s(3.), s(2.)));
}

#[test]
fn rect_keeps_what_it_is_given() {
    let rect = XyRect::new(pair(0., 2.), pair(1., 3.), s(5.), 7u8);

    assert_eq!(rect.x, pair(0., 2.));
    assert_eq!(rect.y, pair(1., 3.));
    assert_eq!(f(rect.k), 5.);
    assert_eq!(rect.material, 7);
}

#[test]
fn aabox_has_a_face_on_each_side() {
    let aabox = AaBox::new(v(1., 2., 3.), v(4., 5., 6.), 9u8);

    assert_eq!(aabox.min, v(1., 2., 3.));
    assert_eq!(aabox.max, v(4., 5., 6.));
    assert_eq!((aabox.back.x, aabox.back.y, f(aabox.back.k)), (pair(1., 4.), pair(2., 5.), 3.));
    assert_eq!((aabox.front.x, aabox.front.y, f(aabox.front.k)), (pair(1., 4.), pair(2., 5.), 6.));
    assert_eq!((aabox.bottom.x, aabox.bottom.z, f(aabox.bottom.k)), (pair(1., 4.), pair(3., 6.), 2.));
    assert_eq!((aabox.top.x, aabox.top.z, f(aabox.top.k)), (pair(1., 4.), pair(3., 6.), 5.));
    assert_eq!((aabox.left.y, aabox.left.z, f(aabox.left.k)), (pair(2., 5.), pair(3., 6.), 1.));
    assert_eq!((aabox.right.y, aabox.right.z, f(aabox.right.k)), (pair(2., 5.), pair(3., 6.), 4.));
    assert_eq!(aabox.back.material, 9);
    assert_eq!(aabox.right.material, 9);
}

#[test]
fn aabox_bounding_box_is_between_its_corners() {
    let aabox = AaBox::new(v(1., 2., 3.), v(4., 5., 6.), 9u8);

    assert_eq!(aabox.bounding_box(), Some(Aabb::new(v(1., 2., 3.), v(4., 5., 6.))));
}

#[test]
fn medium_segment_lies_in_the_boundary_and_the_range() {
    let segment = |entry: f32, exit: f32, t_min: f32, t_max: f32| {
        ConstantMedium::<u8, u8>::segment(s(entry), s(exit), s(t_min), s(t_max))
            .map(|(from, to)| (f(from), f(to)))
    };

    assert_eq!(segment(1., 3., 0., 10.), Some((1., 3.)));
    assert_eq!(segment(1., 3., 2., 10.), Some((2., 3.)));
    assert_eq!(segment(1., 3., 0., 2.), Some((1., 2.)));
    assert_eq!(segment(1., 3., 1.5, 2.5), Some((1.5, 2.5)));
    assert_eq!(segment(-2., 3., -5., 10.), Some((0., 3.)));
    assert_eq!(segment(-2., 3., -1., 10.), Some((0., 3.)));
    assert_eq!(segment(1., 3., 3., 10.), None);
    assert_eq!(segment(1., 3., 0., 1.), None);
    assert_eq!(segment(1., 3., 4., 10.), None);
    assert_eq!(segment(3., 3., 0., 10.), None);
    assert_eq!(segment(-3., -1., -5., 10.), Some((0., -1.)));
}

#[test]
fn medium_scatters_within_the_segment() {
    assert!(ConstantMedium::<u8, u8>::scatters(s(1.), s(2.)));
    assert!(ConstantMedium::<u8, u8>::scatters(s(2.), s(2.)));
    assert!(!ConstantMedium::<u8, u8>::scatters(s(2.5), s(2.)));
}

#[test]
fn medium_keeps_what_it_is_given() {
    let medium = ConstantMedium::new(3u8, s(0.01), 4u8);

    assert_eq!(*medium.boundary(), 3);
    assert_eq!(f(medium.density()), 0.01);
    assert_eq!(*medium.phase_function(), 4);
}

#[test]
fn rotate_by_a_quarter_turn() {
    // A quarter turn about y takes (x, y, z) to (z, y, -x).
    let turn = |p: Vec3| v(f(p.z), f(p.y), -f(p.x));
    let inner = Boxed(Some(Aabb::new(v(1., 2., 3.), v(4., 5., 6.))));

    let rotated = RotateY::new(inner, s(1.), s(0.), &turn);

    assert_eq!(f(rotated.sin_theta()), 1.);
    assert_eq!(f(rotated.cos_theta()), 0.);
    assert_eq!(
        rotated.bounding_box((s(0.), s(1.))),
        Some(Aabb::new(v(3., 2., -4.), v(6., 5., -1.)))
    );
}

#[test]
fn rotate_by_no_turn_keeps_the_box() {
    let turn = |p: Vec3| p;
    let inner = Boxed(Some(Aabb::new(v(-1., -2., -3.), v(4., 5., 6.))));

    let rotated = RotateY::new(inner, s(0.), s(1.), &turn);

    assert_eq!(
        rotated.bounding_box((s(0.), s(1.))),
        Some(Aabb::new(v(-1., -2., -3.), v(4., 5., 6.)))
    );
}

#[test]
fn rotate_what_has_no_box() {
    let turn = |p: Vec3| p;

    let rotated = RotateY::new(Boxed(None), s(0.), s(1.), &turn);

    assert_eq!(rotated.bounding_box((s(0.), s(1.))), None);
    assert!(rotated.hitable().0.is_none());
}

#[test]
fn rect_normals_lie_across_their_planes() {
    let xy = XyRect::new(pair(0., 1.), pair(0., 1.), s(2.), 0u8);
    let xz = XzRect::new(pair(0., 1.), pair(0., 1.), s(2.), 0u8);
    let yz = YzRect::new(pair(0., 1.), pair(0., 1.), s(2.), 0u8);

    assert_eq!(xy.normal(), v(0., 0., 1.));
    assert_eq!(xz.normal(), v(0., 1., 0.));
    assert_eq!(yz.normal(), v(1., 0., 0.));
}

#[test]
fn yz_rect_hit_along_x() {
    // A ray along x through the middle of a rectangle at x = 2.
    let rect = YzRect::new(pair(0., 1.), pair(0., 1.), s(2.), 7u8);
    let origin = [0.0f32, 0.5, 0.5];
    let direction = [1.0f32, 0., 0.];
    let t = (f(rect.k) - origin[0]) / direction[0];
    let (y, z) = (origin[1] + t * direction[1], origin[2] + t * direction[2]);
    assert!(rect.meets(s(t), s(0.001), s(f32::INFINITY), s(y), s(z)));

    let n = rect.normal();
    let mut record = HitRecord::new(
        s(t),
        v(origin[0] + t * direction[0], y, z),
        n,
        (s((y - 0.) / (1. - 0.)), s((z - 0.) / (1. - 0.))),
        rect.material,
    );
    record.set_face_normal(s(direction[0] * f(n.x) + direction[1] * f(n.y) + direction[2] * f(n.z)));

    assert_eq!(f(record.t()), 2.);
    assert_eq!(record.hit_point(), &v(2., 0.5, 0.5));
    assert_eq!(record.texture_coordinates(), (s(0.5), s(0.5)));
    assert_eq!(record.normal(), &v(-1., 0., 0.));
    assert_eq!(record.front_face(), false);
}

#[test]
fn aabox_hit_takes_the_nearest_face() {
    let aabox = AaBox::new(v(0., 0., 0.), v(1., 1., 1.), 9u8);
    let ray = Ray::new(v(0.5, 0.5, -1.), v(0., 0., 1.), s(0.));
    // Each face answers at a distance of its own; the fourth not at all.
    let distances = [5.0f32, 3., 4., f32::NAN, 3., 6.];
    let face = |index: usize, _ray: Ray, t_min: Scalar, t_max: Scalar| {
        let t = distances[index];
        if t_min.lt(s(t)) && s(t).lt(t_max) {
            Some(HitRecord::new(s(t), v(0., 0., 0.), v(0., 0., 1.), (s(0.), s(0.)), index as u8))
        } else {
            None
        }
    };

    let record = aabox.hit(&ray, s(0.001), s(f32::INFINITY), &face).unwrap();
    assert_eq!(f(record.t()), 3.);
    // Of two faces at the same distance the first one asked is kept.
    assert_eq!(*record.material(), 1);
    let record = aabox.hit(&ray, s(3.), s(f32::INFINITY), &face).unwrap();
    assert_eq!((f(record.t()), *record.material()), (4., 2));
    let record = aabox.hit(&ray, s(0.001), s(5.5), &face).unwrap();
    assert_eq!((f(record.t()), *record.material()), (3., 1));
    assert!(aabox.hit(&ray, s(6.), s(f32::INFINITY), &face).is_none());
    assert!(aabox.hit(&ray, s(0.001), s(3.), &face).is_none());
}

#[test]
fn aabox_faces_have_the_material() {
    let aabox = AaBox::new(v(1., 2., 3.), v(4., 5., 6.), vec![1u8, 2, 3]);

    for material in [
        &aabox.back.material,
        &aabox.front.material,
        &aabox.bottom.material,
        &aabox.top.material,
        &aabox.left.material,
        &aabox.right.material,
    ] {
        assert_eq!(material, &vec![1u8, 2, 3]);
    }
}
