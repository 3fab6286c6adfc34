use kzg::curve::Scalar;
use kzg::polynomials::Polynomial;

#[test]
fn basic_evaluation() {
    let poly = Polynomial::new_from_bytes(&[1, 2, 3]);

    let point = Scalar::from(5_u64);
    assert_eq!(poly.evaluate(point), Scalar::from(86_u64));
}

#[test]
fn evaluation_with_leading_coefficient() {
    let poly = Polynomial::new_from_bytes(&[2, 4, 3]);
    let point = Scalar::from(6_u64);
    assert_eq!(poly.evaluate(point), Scalar::from(134_u64));
}

#[test]
fn divides_polynomials() {
    //  2x^2+5x+3
    let dividend = Polynomial::new(&vec![Scalar::from(2), Scalar::from(5), Scalar::from(3)]);
    // x + 1
    let divisor = Polynomial::new(&vec![Scalar::from(1), Scalar::from(1)]);
    // 2x+3
    let ans: Polynomial = Polynomial::new(&[Scalar::from(2), Scalar::from(3)]);
    assert_eq!(dividend.div(divisor), ans)
}

#[test]
fn evaluates_empty_polynomial_to_zero() {
    let poly = Polynomial::new(&[]);
    assert_eq!(poly.evaluate(Scalar::from(9_u64)), Scalar::from(0_u64));
}

#[test]
fn evaluates_at_zero_to_constant_term() {
    let poly = Polynomial::new_from_bytes(&[7, 200, 13]);
    assert_eq!(poly.evaluate(Scalar::from(0_u64)), Scalar::from(7_u64));
}

#[test]
fn divides_by_non_monic_divisor() {
    // (3 + 5x + 2x^2) / (3 + 2x) = 1 + x
    let dividend = Polynomial::new(&[Scalar::from(3), Scalar::from(5), Scalar::from(2)]);
    let divisor = Polynomial::new(&[Scalar::from(3), Scalar::from(2)]);
    assert_eq!(
        dividend.div(divisor),
        Polynomial::new(&[Scalar::from(1), Scalar::from(1)])
    );
}

#[test]
fn divides_with_a_remainder() {
    // (1 + x^2) / (1 + x) = -1 + x, remainder 2
    let dividend = Polynomial::new(&[Scalar::from(1), Scalar::from(0), Scalar::from(1)]);
    let divisor = Polynomial::new(&[Scalar::from(1), Scalar::from(1)]);
    let quotient = dividend.div(divisor);
    assert_eq!(quotient.0.len(), 2);
    assert_eq!(quotient.0[1], Scalar::from(1));
    assert_eq!(quotient.evaluate(Scalar::from(1)), Scalar::from(0));
    assert_eq!(quotient.evaluate(Scalar::from(2)), Scalar::from(1));
}

#[test]
fn divides_zero_polynomial_to_zero() {
    let dividend = Polynomial::new(&[Scalar::from(0), Scalar::from(0)]);
    let divisor = Polynomial::new(&[Scalar::from(4), Scalar::from(1)]);
    assert_eq!(dividend.div(divisor), Polynomial::new(&[Scalar::from(0)]));
}

#[test]
fn divides_shorter_dividend_to_zero() {
    let dividend = Polynomial::new(&[Scalar::from(6)]);
    let divisor = Polynomial::new(&[Scalar::from(4), Scalar::from(1)]);
    assert_eq!(dividend.div(divisor), Polynomial::new(&[Scalar::from(0)]));
}

#[test]
fn pads_short_polynomial_keeping_its_coefficients() {
    let mut poly = Polynomial::new_from_bytes(&[1, 2, 3]);
    let adjusted = poly.adjust_to_degree(25);
    assert_eq!(adjusted.0.len(), 25);
    assert_eq!(poly.0.len(), 25);
    assert_eq!(&poly.0[..3], &Polynomial::new_from_bytes(&[1, 2, 3]).0[..]);
}

#[test]
fn truncates_long_polynomial_to_its_first_coefficients() {
    let mut poly = Polynomial::new_from_bytes(&[9, 8, 7, 6, 5]);
    poly.adjust_to_degree(2);
    assert_eq!(poly, Polynomial::new_from_bytes(&[9, 8]));
}

#[test]
fn leaves_polynomial_of_right_length_alone() {
    let mut poly = Polynomial::new_from_bytes(&[4, 5, 6]);
    poly.adjust_to_degree(3);
    assert_eq!(poly, Polynomial::new_from_bytes(&[4, 5, 6]));
}

#[test]
fn pads_with_varying_values() {
    let mut a = Polynomial::new_from_bytes(&[]);
    a.adjust_to_degree(8);
    let mut b = Polynomial::new_from_bytes(&[]);
    b.adjust_to_degree(8);
    assert_eq!(a.0.len(), 8);
    assert_ne!(a, b);
}

#[test]
fn tells_zero_polynomials() {
    assert!(Polynomial::new(&[]).is_zero());
    assert!(Polynomial::new_from_bytes(&[0, 0, 0]).is_zero());
    assert!(!Polynomial::new_from_bytes(&[0, 0, 1]).is_zero());
}

#[test]
fn gives_leading_coefficient() {
    assert_eq!(Polynomial::new(&[]).leading_coefficient(), None);
    assert_eq!(
        Polynomial::new_from_bytes(&[3, 0, 9]).leading_coefficient(),
        Some(Scalar::from(9_u64))
    );
}

#[test]
fn writes_polynomial_as_text() {
    let text = Polynomial::new_from_bytes(&[1, 2]).to_string();
    assert!(text.ends_with("x^1"));
    assert_eq!(text.matches(" + ").count(), 1);
    assert!(text.contains("x^0 + "));
    assert_eq!(Polynomial::new(&[]).to_string(), "");
}
