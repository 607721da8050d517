use crab_rt::aabb::Aabb;
use crab_rt::bvh::{order_pair, precedes, sort_along, split_along, BvhNode};
use crab_rt::hitable::{HitRecord, Hitable};
use crab_rt::objects::{Object, Sphere};
use crab_rt::ray::Ray;
use crab_rt::scalar::Scalar;
use crab_rt::vec::Vec3;

fn s(value: f32) -> Scalar {
    Scalar::from_bits(value.to_bits())
}

fn f(value: Scalar) -> f32 {
    f32::from_bits(value.to_bits())
}

fn v(x: f32, y: f32, z: f32) -> Vec3 {
    Vec3::new(s(x), s(y), s(z))
}

/// A sphere whose arithmetic is done here, on binary32 numbers.
#[derive(Clone, Debug)]
struct Ball {
    center: [f32; 3],
    radius: f32,
    tag: usize,
}

impl Ball {
    fn new(x: f32, y: f32, z: f32, radius: f32, tag: usize) -> Self {
        Ball { center: [x, y, z], radius, tag }
    }
}

impl Hitable for Ball {
    type Material = usize;

    fn hit(&self, ray: &Ray, t_min: Scalar, t_max: Scalar) -> Option<HitRecord<usize>> {
        let o = ray.get_origin();
        let d = ray.get_direction();
        let o = [f(o.x), f(o.y), f(o.z)];
        let d = [f(d.x), f(d.y), f(d.z)];
        let oc = [o[0] - self.center[0], o[1] - self.center[1], o[2] - self.center[2]];
        let a = d[0] * d[0] + d[1] * d[1] + d[2] * d[2];
        let half_b = oc[0] * d[0] + oc[1] * d[1] + oc[2] * d[2];
        let c = oc[0] * oc[0] + oc[1] * oc[1] + oc[2] * oc[2] - self.radius * self.radius;
        let discriminant = half_b * half_b - a * c;
        let root = discriminant.sqrt();
        let near = (-half_b - root) / a;
        let far = (-half_b + root) / a;
        let t = Sphere::<usize>::root(s(discriminant), s(near), s(far), t_min, t_max)?;
        let t = f(t);
        let p = [o[0] + t * d[0], o[1] + t * d[1], o[2] + t * d[2]];
        let n = [
            (p[0] - self.center[0]) / self.radius,
            (p[1] - self.center[1]) / self.radius,
            (p[2] - self.center[2]) / self.radius,
        ];
        let mut record = HitRecord::new(
            s(t),
            v(p[0], p[1], p[2]),
            v(n[0], n[1], n[2]),
            (s(0.), s(0.)),
            self.tag,
        );
        record.set_face_normal(s(d[0] * n[0] + d[1] * n[1] + d[2] * n[2]));
        Some(record)
    }

    fn bounding_box(&self, _time_interval: (Scalar, Scalar)) -> Option<Aabb> {
        let [x, y, z] = self.center;
        let r = self.radius;
        Some(Aabb::new(v(x - r, y - r, z - r), v(x + r, y + r, z + r)))
    }
}

/// A thing without a box, which no ray hits.
#[derive(Clone, Debug)]
struct Ghostly;

impl Hitable for Ghostly {
    type Material = usize;

    fn hit(&self, _ray: &Ray, _t_min: Scalar, _t_max: Scalar) -> Option<HitRecord<usize>> {
        None
    }

    fn bounding_box(&self, _time_interval: (Scalar, Scalar)) -> Option<Aabb> {
        None
    }
}

/// Where a ray enters and leaves the slab between two planes across an axis.
fn slab(ray: Ray, axis: usize, low: Scalar, high: Scalar) -> (Scalar, Scalar) {
    let inv = f(ray.get_direction().index(axis)).recip();
    let origin = f(ray.get_origin().index(axis));
    let t0 = (f(low) - origin) * inv;
    let t1 = (f(high) - origin) * inv;
    if inv < 0. {
        (s(t1), s(t0))
    } else {
        (s(t0), s(t1))
    }
}

fn balls(count: usize) -> Vec<Ball> {
    // A fixed scatter of spheres, from a small generator of numbers.
    let mut state: u32 = 12345;
    let mut next = move || {
        state = state.wrapping_mul(1664525).wrapping_add(1013904223);
        ((state >> 8) as f32) / ((1u32 << 24) as f32)
    };
    (0..count)
        .map(|tag| {
            let x = next() * 20. - 10.;
            let y = next() * 20. - 10.;
            let z = next() * 20. - 10.;
            let r = 0.25 + next();
            Ball::new(x, y, z, r, tag)
        })
        .collect()
}

fn objects(balls: &[Ball]) -> Vec<Object<Ball>> {
    balls.iter().cloned().map(Object::new).collect()
}

fn distance(found: Option<HitRecord<usize>>) -> Option<f32> {
    found.map(|record| f(record.t()))
}

#[test]
fn new_with_one_object() {
    let time_interval = (s(0.), s(0.));
    let sphere = Ball::new(0., 0., 0., 1., 0);
    let sphere_bbox = sphere.bounding_box(time_interval);

    let testee = BvhNode::new(vec![Object::new(sphere)], time_interval);
    assert_eq!(testee.bounding_box(time_interval), sphere_bbox);
}

#[test]
fn new_with_two_object() {
    let time_interval = (s(0.), s(0.));
    let sphere1 = Ball::new(0., 0., 0., 1., 0);
    let sphere2 = Ball::new(1., 2., 3., 1., 1);

    let sphere1_bbox = sphere1.bounding_box(time_interval);
    let sphere2_bbox = sphere2.bounding_box(time_interval);

    let testee = BvhNode::new(
        vec![Object::new(sphere1), Object::new(sphere2)],
        time_interval,
    );
    assert_eq!(
        testee.bounding_box(time_interval),
        Some(Aabb::surrounding_box(
            &sphere1_bbox.unwrap(),
            &sphere2_bbox.unwrap(),
        ))
    );
}

#[test]
fn new_draws_an_axis_of_the_three() {
    // The box of two objects is asked for along the axis drawn: an axis
    // beyond the third would find no coordinate.
    for _ in 0..50 {
        let node = BvhNode::new(objects(&balls(2)), (s(0.), s(0.)));
        assert!(node.bounding_box((s(0.), s(0.))).is_some());
    }
}

#[test]
fn new_box_holds_every_object() {
    let time_interval = (s(0.), s(0.));
    let all = balls(37);
    let node = BvhNode::new(objects(&all), time_interval);
    let bbox = node.bounding_box(time_interval).unwrap();
    let mut expected = all[0].bounding_box(time_interval).unwrap();
    for ball in &all[1..] {
        expected = Aabb::surrounding_box(&expected, &ball.bounding_box(time_interval).unwrap());
    }

    assert_eq!(bbox, expected);
}

#[test]
fn default_node_is_hit_by_nothing() {
    let node: BvhNode<Ball> = BvhNode::default();
    let ray = Ray::new(v(0., 0., 0.), v(1., 0., 0.), s(0.));

    assert_eq!(node.bounding_box((s(0.), s(0.))), None);
    assert!(node.hit(&ray, s(0.001), s(f32::INFINITY), &slab).is_none());
}

#[test]
fn node_without_a_box_is_hit_by_nothing() {
    let node = BvhNode::new(vec![Object::new(Ghostly), Object::new(Ghostly)], (s(0.), s(0.)));
    let ray = Ray::new(v(0., 0., 0.), v(1., 0., 0.), s(0.));

    assert_eq!(node.bounding_box((s(0.), s(0.))), None);
    assert!(node.hit(&ray, s(0.001), s(f32::INFINITY), &slab).is_none());
}

#[test]
fn hit_of_one_object() {
    let node = BvhNode::new(vec![Object::new(Ball::new(0., 0., 0., 0.5, 7))], (s(0.), s(0.)));
    let ray = Ray::new(v(1., 0., 0.), v(-1., 0., 0.), s(0.));

    let record = node.hit(&ray, s(0.001), s(f32::INFINITY), &slab).unwrap();
    assert_eq!(f(record.t()), 0.5);
    assert_eq!(*record.material(), 7);
    assert_eq!(record.front_face(), true);
}

#[test]
fn hit_takes_the_nearer_of_two_objects() {
    let near = Ball::new(0., 0., -2., 0.5, 1);
    let far = Ball::new(0., 0., -5., 0.5, 2);
    let ray = Ray::new(v(0., 0., 0.), v(0., 0., -1.), s(0.));

    for pair in [vec![near.clone(), far.clone()], vec![far, near]] {
        let node = BvhNode::new(objects(&pair), (s(0.), s(0.)));
        let record = node.hit(&ray, s(0.001), s(f32::INFINITY), &slab).unwrap();
        assert_eq!(f(record.t()), 1.5);
        assert_eq!(*record.material(), 1);
    }
}

#[test]
fn hit_respects_the_range() {
    let node = BvhNode::new(
        objects(&[Ball::new(0., 0., -2., 0.5, 1), Ball::new(0., 0., -5., 0.5, 2)]),
        (s(0.), s(0.)),
    );
    let ray = Ray::new(v(0., 0., 0.), v(0., 0., -1.), s(0.));

    assert_eq!(distance(node.hit(&ray, s(0.001), s(1.), &slab)), None);
    assert_eq!(distance(node.hit(&ray, s(0.001), s(2.), &slab)), Some(1.5));
    assert_eq!(distance(node.hit(&ray, s(2.), s(4.), &slab)), Some(2.5));
    assert_eq!(distance(node.hit(&ray, s(3.), s(10.), &slab)), Some(4.5));
    assert_eq!(distance(node.hit(&ray, s(6.), s(10.), &slab)), None);
}

#[test]
fn hit_is_that_of_going_through_all() {
    for count in [0usize, 1, 2, 3, 4, 5, 8, 17, 64] {
        let all = balls(count);
        let scan: Vec<Object<Ball>> = objects(&all);
        let node = if count == 0 {
            BvhNode::default()
        } else {
            BvhNode::new(objects(&all), (s(0.), s(0.)))
        };
        let mut hits = 0;
        for target in balls(count.max(4) + 3) {
            // Rays from a corner through the middle of a sphere.
            let origin = [-15.0f32, -14.0, -13.0];
            let ray = Ray::new(
                v(origin[0], origin[1], origin[2]),
                v(
                    target.center[0] - origin[0],
                    target.center[1] - origin[1],
                    target.center[2] - origin[2],
                ),
                s(0.),
            );
            let through_tree = distance(node.hit(&ray, s(0.001), s(f32::INFINITY), &slab));
            let through_all = distance(scan.hit(&ray, s(0.001), s(f32::INFINITY)));
            assert_eq!(through_tree, through_all, "{} objects", count);
            if through_all.is_some() {
                hits += 1;
            }
        }
        if count >= 4 {
            assert!(hits > 0);
        }
    }
}

#[test]
fn precedes_by_the_smallest_corner() {
    let a = Object::new(Ball::new(0., 5., 0., 1., 0));
    let b = Object::new(Ball::new(1., 2., 0., 1., 1));

    assert_eq!(precedes(&a, &b, 0), true);
    assert_eq!(precedes(&b, &a, 0), false);
    assert_eq!(precedes(&a, &b, 1), false);
    assert_eq!(precedes(&b, &a, 1), true);
    assert_eq!(precedes(&a, &b, 2), false);
    assert_eq!(precedes(&b, &a, 2), false);
}

#[test]
fn sort_along_orders_by_the_smallest_corner() {
    for axis in 0..3 {
        let mut sorted = objects(&balls(40));
        sort_along(&mut sorted, axis);

        assert_eq!(sorted.len(), 40);
        let keys: Vec<f32> = sorted
            .iter()
            .map(|object| f(object.bounding_box((s(0.), s(0.))).unwrap().min().index(axis)))
            .collect();
        for pair in keys.windows(2) {
            assert!(pair[0] <= pair[1]);
        }
        // The same objects, each as often as before.
        let mut after: Vec<u32> = sorted
            .iter()
            .map(|object| object.bounding_box((s(0.), s(0.))).unwrap().min().index(axis).to_bits())
            .collect();
        let mut before: Vec<u32> = objects(&balls(40))
            .iter()
            .map(|object| object.bounding_box((s(0.), s(0.))).unwrap().min().index(axis).to_bits())
            .collect();
        after.sort();
        before.sort();
        assert_eq!(after, before);
    }
}

#[test]
fn sort_along_keeps_the_order_of_level_objects() {
    // Four spheres, two and two level along x; their heights tell them apart.
    let mut sorted = objects(&[
        Ball::new(5., 0., 0., 1., 0),
        Ball::new(1., 1., 0., 1., 1),
        Ball::new(5., 2., 0., 1., 2),
        Ball::new(1., 3., 0., 1., 3),
    ]);
    sort_along(&mut sorted, 0);

    let order: Vec<f32> = sorted
        .iter()
        .map(|object| f(object.bounding_box((s(0.), s(0.))).unwrap().min().index(1)))
        .collect();
    assert_eq!(order, vec![0., 2., -1., 1.]);
}

#[test]
fn order_pair_by_the_smallest_corner() {
    let height = |object: &Object<Ball>| f(object.bounding_box((s(0.), s(0.))).unwrap().min().index(1));
    let a = || Object::new(Ball::new(0., 5., 0., 1., 0));
    let b = || Object::new(Ball::new(1., 2., 0., 1., 1));

    let (left, right) = order_pair(a(), b(), 0);
    assert_eq!((height(&left), height(&right)), (4., 1.));
    let (left, right) = order_pair(b(), a(), 0);
    assert_eq!((height(&left), height(&right)), (4., 1.));
    let (left, right) = order_pair(a(), b(), 1);
    assert_eq!((height(&left), height(&right)), (1., 4.));
    // Level along z: the two change places.
    let (left, right) = order_pair(a(), b(), 2);
    assert_eq!((height(&left), height(&right)), (1., 4.));
    let (left, right) = order_pair(b(), a(), 2);
    assert_eq!((height(&left), height(&right)), (4., 1.));
}

#[test]
fn order_pair_without_a_box() {
    let boxed = |object: &Object<Ghostly>| object.bounding_box((s(0.), s(0.))).is_some();

    let (left, right) = order_pair(Object::new(Ghostly), Object::new(Ghostly), 0);
    assert!(!boxed(&left) && !boxed(&right));
}

#[test]
fn split_along_parts_in_the_middle() {
    for (count, half) in [(0usize, 0usize), (1, 0), (2, 1), (3, 1), (4, 2), (5, 2), (40, 20), (41, 20)] {
        for axis in 0..3 {
            let (low, high) = split_along(objects(&balls(count)), axis);
            assert_eq!(low.len(), half);
            assert_eq!(high.len(), count - half);
            let key = |object: &Object<Ball>| f(object.bounding_box((s(0.), s(0.))).unwrap().min().index(axis));
            for a in &low {
                for b in &high {
                    assert!(key(a) <= key(b));
                }
            }
        }
    }
}

#[test]
fn new_over_no_object() {
    let node: BvhNode<Ball> = BvhNode::new(Vec::new(), (s(0.), s(0.)));

    assert_eq!(node.bounding_box((s(0.), s(0.))), None);
    for direction in [v(1., 0., 0.), v(0., -1., 0.), v(0.3, 0.4, -1.)] {
        let ray = Ray::new(v(0., 0., 0.), direction, s(0.));
        assert!(node.hit(&ray, s(0.001), s(f32::INFINITY), &slab).is_none());
        assert!(node.hit(&ray, s(f32::NEG_INFINITY), s(f32::INFINITY), &slab).is_none());
    }
}

#[test]
fn hit_counts_neither_end_of_the_range_in() {
    let node = BvhNode::new(
        objects(&[Ball::new(0., 0., -2., 0.5, 1), Ball::new(0., 0., -5., 0.5, 2)]),
        (s(0.), s(0.)),
    );
    let ray = Ray::new(v(0., 0., 0.), v(0., 0., -1.), s(0.));

    assert_eq!(distance(node.hit(&ray, s(1.5), s(10.), &slab)), Some(2.5));
    assert_eq!(distance(node.hit(&ray, s(0.001), s(1.5), &slab)), None);
    assert_eq!(distance(node.hit(&ray, s(2.5), s(4.5), &slab)), None);
    assert_eq!(distance(node.hit(&ray, s(5.5), s(10.), &slab)), None);
}
