use norays::math::scalar::Scalar;
use norays::math::scalar::SCALE;

#[test]
fn multiplication_truncates_toward_zero() {
    let a = Scalar::from_raw(-229376); // -3.5
    let half = Scalar::half();
    assert_eq!(a.mul(half).raw, -114688); // -1.75 exactly
    let third = Scalar::from_int(1).div(Scalar::from_int(3));
    assert_eq!(third.raw, 21845); // 1/3 rounded toward zero
    assert_eq!(Scalar::from_int(-1).div(Scalar::from_int(3)).raw, -21845);
}

#[test]
fn square_roots_round_down() {
    assert_eq!(Scalar::from_int(9).sqrt(), Scalar::from_int(3));
    // sqrt(2) on the raw grid: floor(sqrt(2) * 2^16)
    assert_eq!(Scalar::from_int(2).sqrt().raw, 92681);
    assert_eq!(Scalar::zero().sqrt(), Scalar::zero());
}

#[test]
fn reciprocal_saturates_at_zero() {
    assert_eq!(Scalar::from_int(4).recip().raw, SCALE / 4);
    assert_eq!(Scalar::zero().recip().raw, i64::MAX);
    assert_eq!(Scalar::from_int(-2).recip().raw, -SCALE / 2);
}

#[test]
fn saturating_products_clamp_at_the_raw_range() {
    let big = Scalar::from_raw(i64::MAX);
    assert_eq!(big.mul_sat(big).raw, i64::MAX);
    assert_eq!(big.mul_sat(Scalar::from_raw(i64::MIN)).raw, i64::MIN);
    assert_eq!(Scalar::from_int(2).mul_sat(Scalar::from_int(3)), Scalar::from_int(6));
}

#[test]
fn lerp_interpolates_linearly() {
    let a = Scalar::from_int(10);
    let b = Scalar::from_int(20);
    assert_eq!(Scalar::half().lerp(a, b), Scalar::from_int(15));
    assert_eq!(Scalar::zero().lerp(a, b), a);
    assert_eq!(Scalar::one().lerp(a, b), b);
}
