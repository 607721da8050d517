use crab_rt::materials::dielectric::{DIAMOND_REFRACTIVE_INDEX_BITS, WATER_REFRACTIVE_INDEX_BITS};
use crab_rt::objects::object::SPAN_END_BITS;
use crab_rt::raytracer::NEAR_BITS;
use crab_rt::scalar::Scalar;
use crab_rt::vec::NEAR_ZERO_BITS;

fn s(value: f32) -> Scalar {
    Scalar::from_bits(value.to_bits())
}

fn f(value: Scalar) -> f32 {
    f32::from_bits(value.to_bits())
}

fn samples() -> Vec<f32> {
    vec![
        0.0,
        -0.0,
        1.0,
        -1.0,
        0.5,
        -0.5,
        1e-8,
        -1e-8,
        1e-45,
        -1e-45,
        3.4028235e38,
        -3.4028235e38,
        f32::MIN_POSITIVE,
        -f32::MIN_POSITIVE,
        f32::INFINITY,
        f32::NEG_INFINITY,
        f32::NAN,
        -f32::NAN,
        0.001,
        100.5,
        -100.5,
        2.2,
        13.0,
    ]
}

#[test]
fn scalar_keeps_its_pattern() {
    for a in samples() {
        assert_eq!(s(a).to_bits(), a.to_bits());
        assert_eq!(Scalar::from_bits(a.to_bits()).bits, a.to_bits());
    }
}

#[test]
fn scalar_order_is_that_of_the_numbers() {
    for a in samples() {
        for b in samples() {
            assert_eq!(s(a).lt(s(b)), a < b, "{} < {}", a, b);
            assert_eq!(s(a).le(s(b)), a <= b, "{} <= {}", a, b);
            assert_eq!(s(a).gt(s(b)), a > b, "{} > {}", a, b);
            assert_eq!(s(a).ge(s(b)), a >= b, "{} >= {}", a, b);
            assert_eq!(s(a).equals(s(b)), a == b, "{} == {}", a, b);
            assert_eq!(s(a) == s(b), a == b, "{} == {}", a, b);
        }
    }
}

#[test]
fn scalar_rank_follows_the_order() {
    assert_eq!(s(0.0).rank(), 0);
    assert_eq!(s(-0.0).rank(), 0);
    assert_eq!(s(1.0).rank(), 0x3f80_0000);
    assert_eq!(s(-1.0).rank(), -0x3f80_0000);
    assert_eq!(s(f32::INFINITY).rank(), 0x7f80_0000);
    assert_eq!(s(f32::NEG_INFINITY).rank(), -0x7f80_0000);
    assert!(s(2.0).rank() > s(1.5).rank());
    assert!(s(-2.0).rank() < s(-1.5).rank());
}

#[test]
fn scalar_min_max_are_those_of_the_numbers() {
    for a in samples() {
        for b in samples() {
            let low = f(s(a).min(s(b)));
            let high = f(s(a).max(s(b)));
            if a.is_nan() && b.is_nan() {
                assert!(low.is_nan());
                assert!(high.is_nan());
            } else {
                assert_eq!(low, a.min(b), "min({}, {})", a, b);
                assert_eq!(high, a.max(b), "max({}, {})", a, b);
            }
        }
    }
}

#[test]
fn scalar_min_max_of_the_two_zeros() {
    assert_eq!(s(0.0).min(s(-0.0)).to_bits(), (-0.0f32).to_bits());
    assert_eq!(s(-0.0).min(s(0.0)).to_bits(), (-0.0f32).to_bits());
    assert_eq!(s(0.0).max(s(-0.0)).to_bits(), 0.0f32.to_bits());
    assert_eq!(s(-0.0).max(s(0.0)).to_bits(), 0.0f32.to_bits());
}

#[test]
fn scalar_neg_and_abs_are_those_of_the_numbers() {
    for a in samples() {
        assert_eq!(s(a).neg().to_bits(), (-a).to_bits());
        assert_eq!(s(a).abs().to_bits(), a.abs().to_bits());
        assert_eq!(s(a).is_nan(), a.is_nan());
        assert_eq!(s(a).is_zero(), a == 0.0);
    }
}

#[test]
fn scalar_clamp_holds_between_the_bounds() {
    assert_eq!(f(s(1.5).clamp(s(0.), s(1.))), 1.0);
    assert_eq!(f(s(-0.5).clamp(s(0.), s(1.))), 0.0);
    assert_eq!(f(s(0.25).clamp(s(0.), s(1.))), 0.25);
    assert_eq!(f(s(1.0).clamp(s(0.), s(1.))), 1.0);
    assert!(f(s(f32::NAN).clamp(s(0.), s(1.))).is_nan());
    for a in samples() {
        if !a.is_nan() {
            assert_eq!(f(s(a).clamp(s(-1.), s(2.))), a.clamp(-1., 2.));
        }
    }
}

#[test]
fn scalar_constants_are_the_numbers_they_name() {
    assert_eq!(f(Scalar::zero()), 0.0);
    assert_eq!(Scalar::zero().to_bits(), 0);
    assert_eq!(f(Scalar::one()), 1.0);
    assert_eq!(f(Scalar::infinity()), f32::INFINITY);
    assert_eq!(f(Scalar::neg_infinity()), f32::NEG_INFINITY);
    assert_eq!(NEAR_ZERO_BITS, 1e-8f32.to_bits());
    assert_eq!(SPAN_END_BITS, 0.1f32.to_bits());
    assert_eq!(NEAR_BITS, 0.001f32.to_bits());
    assert_eq!(WATER_REFRACTIVE_INDEX_BITS, 1.333f32.to_bits());
    assert_eq!(DIAMOND_REFRACTIVE_INDEX_BITS, 2.417f32.to_bits());
}
