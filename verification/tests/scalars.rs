use threshold_crypto::algebra::{hash_to_g1, G2Point, Scalar};

#[test]
fn scalar_field_arithmetic() {
    let two = Scalar::from_u32(2);
    let three = Scalar::from_u32(3);
    assert!(two.add(&three).equals(&Scalar::from_u32(5)));
    assert!(two.mul(&three).equals(&Scalar::from_u32(6)));
    assert!(!two.equals(&three));
    assert!(two.add(&Scalar::zero()).equals(&two));
    assert!(two.mul(&Scalar::one()).equals(&two));
}

#[test]
fn scalar_negation_cancels() {
    let five = Scalar::from_u32(5);
    assert!(five.add(&five.neg()).equals(&Scalar::zero()));
    assert!(!five.neg().equals(&five));
}

#[test]
fn scalar_inverse_multiplies_to_one() {
    let seven = Scalar::from_u32(7);
    let inv = seven.inverse().unwrap();
    assert!(inv.mul(&seven).equals(&Scalar::one()));
    assert!(Scalar::zero().inverse().is_none());
}

#[test]
fn group_scalar_multiplication_matches_addition() {
    let g = G2Point::generator();
    let double = g.add(&g);
    assert!(g.mul(&Scalar::from_u32(2)).equals(&double));
    assert!(!g.mul(&Scalar::from_u32(3)).equals(&double));
    assert!(g.mul(&Scalar::zero()).equals(&G2Point::identity()));
}

#[test]
fn hash_to_curve_is_deterministic_and_spreads() {
    let a1 = hash_to_g1(b"a");
    let a2 = hash_to_g1(b"a");
    let b = hash_to_g1(b"b");
    assert!(a1.equals(&a2));
    assert!(!a1.equals(&b));
}

#[test]
fn signed_conversion_matches_negation() {
    let m3 = Scalar::from_i64(-3);
    assert!(m3.equals(&Scalar::from_u32(3).neg()));
    assert!(Scalar::from_i64(5).equals(&Scalar::from_u32(5)));
    assert!(m3.add(&Scalar::from_u32(3)).equals(&Scalar::zero()));
}
