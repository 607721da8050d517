use crab_rt::hitable::HitRecord;
use crab_rt::materials::{Dielectric, Isotropic, Lambertian, Light, Material, Metal};
use crab_rt::ray::Ray;
use crab_rt::scalar::Scalar;
use crab_rt::textures::{Monochrome, Texture};
use crab_rt::vec::Vec3;

fn s(value: f32) -> Scalar {
    Scalar::from_bits(value.to_bits())
}

fn f(value: Scalar) -> f32 {
    f32::from_bits(value.to_bits())
}

fn v(x: f32, y: f32, z: f32) -> Vec3 {
    Vec3::new(s(x), s(y), s(z))
}

fn incoming() -> Ray {
    Ray::new(v(0., 2., 0.), v(0.5, -0.5, 0.), s(0.25))
}

fn record() -> HitRecord<u8> {
    HitRecord::new(s(1.), v(1., 1., 1.), v(0., 1., 0.), (s(0.), s(0.5)), 0u8)
}

/// The mirrored direction, worked out on binary32 numbers.
fn reflect(d: [f32; 3], n: [f32; 3]) -> [f32; 3] {
    let dot = d[0] * n[0] + d[1] * n[1] + d[2] * n[2];
    [d[0] - 2. * dot * n[0], d[1] - 2. * dot * n[1], d[2] - 2. * dot * n[2]]
}

#[test]
fn monochrome_is_one_colour_everywhere() {
    let texture = Monochrome::from_rgb(s(1.), s(0.), s(0.5));

    assert_eq!(texture.value((s(0.), s(0.)), &v(0., 0., 0.)), v(1., 0., 0.5));
    assert_eq!(texture.value((s(0.3), s(0.9)), &v(5., -3., 2.)), v(1., 0., 0.5));
    assert_eq!(texture.value_from_hit(&record()), v(1., 0., 0.5));
    assert_eq!(
        Monochrome::new(v(0.1, 0.2, 0.3)).value((s(0.), s(0.)), &v(0., 0., 0.)),
        v(0.1, 0.2, 0.3)
    );
}

#[test]
fn light_sends_no_ray_on() {
    let light = Light::new(Monochrome::from_rgb(s(4.), s(4.), s(4.)));
    let met = HitRecord::new(
        s(1.),
        v(1., 1., 1.),
        v(0., 1., 0.),
        (s(0.), s(0.5)),
        Light::new(Monochrome::from_rgb(s(4.), s(4.), s(4.))),
    );

    assert!(light.scatter(&incoming(), &met).is_none());
    assert!(light.takes_in(&incoming(), &record()).is_none());
    assert_eq!(light.emitted((s(0.), s(0.)), &v(1., 2., 3.)), v(4., 4., 4.));
}

#[test]
fn lambertian_goes_on_along_the_candidate() {
    let material = Lambertian::from_rgb(s(1.), s(0.), s(0.));

    let (onward, attenuation) = material.scatter(&incoming(), &record(), v(0.3, 1.2, -0.4)).unwrap();
    assert_eq!(onward.get_origin(), &v(1., 1., 1.));
    assert_eq!(onward.get_direction(), &v(0.3, 1.2, -0.4));
    assert_eq!(f(onward.get_time()), 0.25);
    assert_eq!(attenuation, v(1., 0., 0.));
}

#[test]
fn lambertian_takes_the_normal_for_a_candidate_near_zero() {
    let material = Lambertian::new(Monochrome::from_rgb(s(0.2), s(0.4), s(0.6)));

    let (onward, attenuation) = material.scatter(&incoming(), &record(), v(1e-9, -1e-10, 0.)).unwrap();
    assert_eq!(onward.get_direction(), &v(0., 1., 0.));
    assert_eq!(attenuation, v(0.2, 0.4, 0.6));
    let (onward, _) = material.scatter(&incoming(), &record(), v(0., 0., 0.)).unwrap();
    assert_eq!(onward.get_direction(), &v(0., 1., 0.));
}

#[test]
fn lambertian_default_is_black() {
    let material = Lambertian::default();

    let (_, attenuation) = material.scatter(&incoming(), &record(), v(0., 1., 0.)).unwrap();
    assert_eq!(attenuation, v(0., 0., 0.));
}

#[test]
fn metal_holds_its_blur_between_zero_and_one() {
    assert_eq!(f(Metal::new(v(1., 1., 1.), s(0.)).get_fuzziness()), 0.);
    assert_eq!(f(Metal::new(v(1., 1., 1.), s(0.3)).get_fuzziness()), 0.3);
    assert_eq!(f(Metal::new(v(1., 1., 1.), s(1.)).get_fuzziness()), 1.);
    assert_eq!(f(Metal::new(v(1., 1., 1.), s(7.)).get_fuzziness()), 1.);
    assert_eq!(f(Metal::new(v(1., 1., 1.), s(-2.)).get_fuzziness()), 0.);
}

#[test]
fn metal_without_blur_mirrors_the_ray() {
    let material = Metal::new(v(0.8, 0.6, 0.2), s(0.));
    let d = [0.5f32, -0.5, 0.];
    let n = [0.0f32, 1., 0.];
    let mirrored = reflect(d, n);
    let facing = mirrored[0] * n[0] + mirrored[1] * n[1] + mirrored[2] * n[2];

    let (onward, attenuation) = material
        .scatter(&incoming(), &record(), v(mirrored[0], mirrored[1], mirrored[2]), s(facing))
        .unwrap();
    assert_eq!(onward.get_origin(), &v(1., 1., 1.));
    assert_eq!(onward.get_direction(), &v(0.5, 0.5, 0.));
    assert_eq!(f(onward.get_time()), 0.25);
    assert_eq!(attenuation, v(0.8, 0.6, 0.2));
}

#[test]
fn metal_takes_in_what_points_into_the_surface() {
    let material = Metal::new(v(0.8, 0.6, 0.2), s(1.));

    assert!(material.scatter(&incoming(), &record(), v(0.5, -0.1, 0.), s(-0.1)).is_none());
    assert!(material.scatter(&incoming(), &record(), v(0.5, 0., 0.), s(0.)).is_none());
    assert!(material.scatter(&incoming(), &record(), v(0.5, 0., 0.), s(f32::NAN)).is_none());
    assert!(material.scatter(&incoming(), &record(), v(0., 0., 0.), s(0.5)).is_none());
    assert!(material.scatter(&incoming(), &record(), v(0.5, 0.1, 0.), s(0.1)).is_some());
}

#[test]
fn dielectric_keeps_all_light() {
    for material in [Dielectric::new(s(1.5)), Dielectric::water(), Dielectric::diamond()] {
        for direction in [v(0.5, 0.5, 0.), v(0.3, -0.9, 0.1), v(0., -1., 0.)] {
            let (onward, attenuation) = material.scatter(&incoming(), &record(), direction).unwrap();
            assert_eq!(attenuation, v(1., 1., 1.));
            assert_eq!(attenuation.x.to_bits(), 1.0f32.to_bits());
            assert_eq!(attenuation.y.to_bits(), 1.0f32.to_bits());
            assert_eq!(attenuation.z.to_bits(), 1.0f32.to_bits());
            assert_eq!(onward.get_origin(), &v(1., 1., 1.));
            assert_eq!(onward.get_direction(), &direction);
            assert_eq!(f(onward.get_time()), 0.25);
        }
    }
}

#[test]
fn dielectric_indices() {
    assert_eq!(f(Dielectric::new(s(1.1)).get_refractive_index()), 1.1);
    assert_eq!(f(Dielectric::water().get_refractive_index()), 1.333);
    assert_eq!(f(Dielectric::diamond().get_refractive_index()), 2.417);
}

#[test]
fn dielectric_mirrors_by_chance_or_by_need() {
    assert!(Dielectric::reflects(true, s(0.), s(0.9)));
    assert!(Dielectric::reflects(true, s(f32::NAN), s(0.9)));
    assert!(Dielectric::reflects(false, s(0.5), s(0.4)));
    assert!(!Dielectric::reflects(false, s(0.5), s(0.5)));
    assert!(!Dielectric::reflects(false, s(0.5), s(0.6)));
    assert!(!Dielectric::reflects(false, s(f32::NAN), s(0.6)));
}

#[test]
fn isotropic_goes_on_in_the_direction_drawn() {
    let material = Isotropic::new(Monochrome::from_rgb(s(0.5), s(0.5), s(0.5)));

    let (onward, attenuation) = material.scatter(&incoming(), &record(), v(-0.2, 0.1, 0.7)).unwrap();
    assert_eq!(onward.get_origin(), &v(1., 1., 1.));
    assert_eq!(onward.get_direction(), &v(-0.2, 0.1, 0.7));
    assert_eq!(f(onward.get_time()), 0.25);
    assert_eq!(attenuation, v(0.5, 0.5, 0.5));
}

/// A material that takes every ray in and says nothing of light.
struct Soot;

impl Material for Soot {
    fn scatter(&self, _ray: &Ray, _record: &HitRecord<Self>) -> Option<(Ray, Vec3)> {
        None
    }
}

#[test]
fn material_gives_off_no_light_unless_it_says_so() {
    assert_eq!(Soot.emitted((s(0.), s(0.)), &v(1., 2., 3.)), v(0., 0., 0.));
    assert_eq!(Soot.emitted((s(0.3), s(0.9)), &v(-5., 0., 7.)), Vec3::zero());
    let dark = Soot.emitted((s(0.), s(0.)), &v(1., 2., 3.));
    assert_eq!((dark.x.to_bits(), dark.y.to_bits(), dark.z.to_bits()), (0, 0, 0));
}
