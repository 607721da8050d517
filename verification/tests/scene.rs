use crab_rt::aabb::Aabb;
use crab_rt::hitable::{HitRecord, Hitable};
use crab_rt::objects::Object;
use crab_rt::ray::Ray;
use crab_rt::scalar::Scalar;
use crab_rt::scene::{Background, Scene, SceneBuilder};
use crab_rt::vec::Vec3;

fn s(value: f32) -> Scalar {
    Scalar::from_bits(value.to_bits())
}

fn f(value: Scalar) -> f32 {
    f32::from_bits(value.to_bits())
}

fn v(x: f32, y: f32, z: f32) -> Vec3 {
    Vec3::new(s(x), s(y), s(z))
}

/// A cube about a point, which no ray hits.
#[derive(Clone, Debug)]
struct Cube(f32);

impl Hitable for Cube {
    type Material = u8;

    fn hit(&self, _ray: &Ray, _t_min: Scalar, _t_max: Scalar) -> Option<HitRecord<u8>> {
        None
    }

    fn bounding_box(&self, _time_interval: (Scalar, Scalar)) -> Option<Aabb> {
        Some(Aabb::new(v(self.0 - 1., -1., -1.), v(self.0 + 1., 1., 1.)))
    }
}

fn blend(t: f32) -> impl Fn(Vec3, Vec3) -> Vec3 {
    move |top: Vec3, bottom: Vec3| {
        v(
            t * f(top.x) + (1. - t) * f(bottom.x),
            t * f(top.y) + (1. - t) * f(bottom.y),
            t * f(top.z) + (1. - t) * f(bottom.z),
        )
    }
}

#[test]
fn background_of_one_colour() {
    let background = Background::Color(v(0.1, 0.2, 0.3));

    assert_eq!(background.color(blend(0.)), v(0.1, 0.2, 0.3));
    assert_eq!(background.color(blend(0.7)), v(0.1, 0.2, 0.3));
}

#[test]
fn background_gradient_runs_from_one_colour_to_the_other() {
    let background = Background::Gradient(v(0.5, 0.7, 1.), v(1., 1., 1.));

    assert_eq!(background.color(blend(1.)), v(0.5, 0.7, 1.));
    assert_eq!(background.color(blend(0.)), v(1., 1., 1.));
    assert_eq!(background.color(blend(0.5)), v(0.75, 0.85, 1.));
}

#[test]
fn background_default_is_black() {
    assert_eq!(Background::default(), Background::Color(Vec3::zero()));
}

#[test]
fn scene_keeps_its_background() {
    let scene: Scene<Cube> = Scene::new(Vec::new(), Background::Color(v(0.1, 0.2, 0.3)));
    assert_eq!(scene.background(), &Background::Color(v(0.1, 0.2, 0.3)));

    let scene: Scene<Cube> =
        Scene::new(Vec::new(), Background::Gradient(v(0.1, 0.2, 0.3), v(1., 1., 1.)));
    assert_eq!(
        scene.background(),
        &Background::Gradient(v(0.1, 0.2, 0.3), v(1., 1., 1.))
    );
}

#[test]
fn scene_of_nothing_has_no_box() {
    let scene: Scene<Cube> = Scene::new(Vec::new(), Background::default());
    assert_eq!(scene.bvh().bounding_box((s(0.), s(1.))), None);

    let scene: Scene<Cube> = Scene::default();
    assert_eq!(scene.bvh().bounding_box((s(0.), s(1.))), None);
    assert_eq!(scene.background(), &Background::Color(Vec3::zero()));
}

#[test]
fn scene_builder_builds_over_what_was_added() {
    let scene_builder: SceneBuilder<Cube> = SceneBuilder::new(Background::Color(Vec3::zero()));
    assert_eq!(scene_builder.build().background(), &Background::Color(Vec3::zero()));

    let scene = SceneBuilder::new(Background::Color(Vec3::zero()))
        .add_object(Object::new(Cube(0.)))
        .add_sphere(Cube(5.))
        .add_sphere(Cube(-3.))
        .build();
    assert_eq!(
        scene.bvh().bounding_box((s(0.), s(1.))),
        Some(Aabb::new(v(-4., -1., -1.), v(6., 1., 1.)))
    );
}
