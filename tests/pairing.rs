use blstrs::{pairing, G1Affine, G1Projective, G2Projective, Scalar};
use group::prime::PrimeCurveAffine;
use group::{Curve, Group};

#[test]
fn intuition_1() {
    let a = G1Projective::generator() * Scalar::from(5);
    let b = G2Projective::generator() * Scalar::from(6);
    let c = G2Projective::generator() * Scalar::from(5 * 6);

    let pairing_a = pairing(&a.into(), &b.into());
    let pairing_b = pairing(&G1Affine::generator(), &c.into());

    assert!(pairing_a == pairing_b);
}

#[test]
fn intuition_2() {
    let a = G1Projective::generator() * Scalar::from(5);
    let b = G1Projective::generator() * Scalar::from(6);

    // Some additive homomorphic property on the commitment
    let pairing_a = pairing(
        &(a + G1Projective::generator()).to_affine(),
        &G2Projective::generator().to_affine(),
    );
    let pairing_b = pairing(&b.to_affine(), &G2Projective::generator().to_affine());

    assert!(pairing_a == pairing_b);
}

#[test]
fn intuition_committed_polynomial_evaluation_basic() {
    // 39 == x^3 -4x^2 +3x -1
    // Only the point being evaluated raised to the degree of each coeefficient
    let x3 = G1Projective::generator() * Scalar::from(5_u64.pow(3));
    let x2 = G1Projective::generator() * Scalar::from(5_u64.pow(2));
    let x = G1Projective::generator() * Scalar::from(5);

    // commitment to the evaluation of the above
    let evaluation_commit = G1Projective::generator() * Scalar::from(39);

    let lhs = evaluation_commit;

    let rhs = x3 * Scalar::from(1)
        + x2 * -Scalar::from(4)
        + x * Scalar::from(3)
        + G1Projective::generator() * -Scalar::from(1);

    assert_eq!(lhs, rhs);
}
