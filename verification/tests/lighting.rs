use norays::light::bounce_quota::BounceQuota;
use norays::light::bounce_quota::BounceType;
use norays::light::spectrum::Spectrum;
use norays::math::point::Point;
use norays::math::scalar::Scalar;
use norays::math::uv::UV;
use norays::math::vector::Vector;
use norays::shading::material::DebugNormalMaterial;
use norays::shading::material::Material;
use norays::tracing::hit::HitPointData;

#[test]
fn quota_spends_exactly_its_budget() {
    let quota = BounceQuota::new(2, 5, 5, 5);
    // attempt 1 and 2 succeed, attempt 3 fails
    let after_one = quota.attempt(BounceType::Diffuse).expect("first spend");
    let after_two = after_one.attempt(BounceType::Diffuse).expect("second spend");
    assert!(after_two.attempt(BounceType::Diffuse).is_none());
    // the other three categories are untouched throughout
    assert!(after_two.attempt(BounceType::Glossy).is_some());
    assert!(after_two.attempt(BounceType::Transmission).is_some());
    assert!(after_two.attempt(BounceType::Volume).is_some());
}

#[test]
fn quota_categories_are_independent() {
    let quota = BounceQuota::new(1, 0, 1, 0);
    assert!(quota.attempt(BounceType::Glossy).is_none());
    assert!(quota.attempt(BounceType::Volume).is_none());
    let spent = quota.attempt(BounceType::Diffuse).expect("one diffuse unit");
    assert!(spent.attempt(BounceType::Diffuse).is_none());
    assert!(spent.attempt(BounceType::Transmission).is_some());
}

#[test]
fn spectrum_zero_is_dark_everywhere() {
    let z = Spectrum::zero();
    for i in 0..4 {
        assert_eq!(z.v[i].raw, 0);
    }
}

fn some_hit() -> HitPointData {
    HitPointData::new(
        Point::new(Scalar::zero(), Scalar::zero(), Scalar::zero()),
        Vector::new(Scalar::from_raw(100), Scalar::from_raw(-200), Scalar::from_raw(300)),
        Vector::new(Scalar::zero(), Scalar::zero(), Scalar::one()),
        UV { u: Scalar::zero(), v: Scalar::zero() },
    )
}

#[test]
fn debug_material_shades_with_the_normal() {
    let m = DebugNormalMaterial {};
    let lit = m.evaluate(some_hit(), BounceQuota::new(1, 0, 0, 0));
    assert_eq!(lit.v[0].raw, 100);
    assert_eq!(lit.v[1].raw, -200);
    assert_eq!(lit.v[2].raw, 300);
    assert_eq!(lit.v[3].raw, 0);
}

#[test]
fn debug_material_goes_dark_without_quota() {
    let m = DebugNormalMaterial {};
    let dark = m.evaluate(some_hit(), BounceQuota::new(0, 9, 9, 9));
    for i in 0..4 {
        assert_eq!(dark.v[i].raw, 0);
    }
}
