use kzg::field::{BigNat, Field, FieldElement};

#[test]
fn adds() {
    let field = Field(BigNat::from(101_u32));

    let field_element_lower = FieldElement::new(BigNat::from(100_u32), field.clone());
    let field_element_higher = FieldElement::new(BigNat::from(2_u32), field.clone());

    assert_eq!(
        field_element_lower.add(field_element_higher),
        FieldElement::new(BigNat::from(1_u32), field)
    );
}

#[test]
fn subtracts() {
    let field = Field(BigNat::from(101_u32));

    let field_element_lower = FieldElement::new(BigNat::from(3_u32), field.clone());
    let field_element_higher = FieldElement::new(BigNat::from(5_u32), field.clone());

    assert_eq!(
        field_element_lower.sub(field_element_higher),
        FieldElement::new(BigNat::from(99_u32), field)
    );
}

#[test]
fn multiplies() {
    let field = Field(BigNat::from(101_u32));

    let field_element_lower = FieldElement::new(BigNat::from(103_u32), field.clone());
    let field_element_higher = FieldElement::new(BigNat::from(1_u32), field.clone());

    assert_eq!(
        field_element_lower.mul(field_element_higher),
        FieldElement::new(BigNat::from(2_u32), field)
    );
}

#[test]
fn exponentiates() {
    let field = Field(BigNat::from(101_u32));

    let field_element_lower = FieldElement::new(BigNat::from(2_u32), field.clone());
    let field_element_higher = FieldElement::new(BigNat::from(7_u32), field.clone());

    assert_eq!(
        field_element_lower.pow(field_element_higher),
        FieldElement::new(BigNat::from(27_u32), field)
    );
}

#[test]
fn example_field() {
    let field = Field(BigNat::from(41_u32));

    let field_element_lower = FieldElement::new(BigNat::from(1_u32), field.clone());
    let field_element_higher = FieldElement::new(BigNat::from(40_u32), field.clone());

    assert_eq!(
        field_element_lower.add(field_element_higher),
        FieldElement::new(BigNat::from(0_u32), field)
    );
}

#[test]
fn low_field() {
    let field = Field(BigNat::from(13_u32));

    let field_element_lower = FieldElement::new(BigNat::from(3_u32), field.clone());
    let field_element_higher = FieldElement::new(BigNat::from(10_u32), field.clone());

    assert_eq!(
        field_element_lower.add(field_element_higher),
        FieldElement::new(BigNat::from(0_u32), field)
    );
}

#[test]
fn adds_in_place() {
    let field = Field(BigNat::from(7_u32));
    let mut element = FieldElement::new(BigNat::from(5_u32), field.clone());
    element.add_assign(FieldElement::new(BigNat::from(4_u32), field.clone()));
    assert_eq!(element, FieldElement::new(BigNat::from(2_u32), field));
}

#[test]
fn negates() {
    let field = Field(BigNat::from(101_u32));
    let element = FieldElement::new(BigNat::from(1_u32), field.clone());
    assert_eq!(element.neg(), FieldElement::new(BigNat::from(100_u32), field.clone()));
    let zero = FieldElement::new(BigNat::from(0_u32), field.clone());
    assert_eq!(zero.neg(), FieldElement::new(BigNat::from(0_u32), field));
}

#[test]
fn divides_as_integers() {
    let field = Field(BigNat::from(101_u32));
    let a = FieldElement::new(BigNat::from(100_u32), field.clone());
    let b = FieldElement::new(BigNat::from(7_u32), field.clone());
    assert_eq!(a.div(b), FieldElement::new(BigNat::from(14_u32), field.clone()));
    let c = FieldElement::new(BigNat::from(90_u32), field.clone());
    let d = FieldElement::new(BigNat::from(30_u32), field.clone());
    assert_eq!(c.div(d), FieldElement::new(BigNat::from(3_u32), field));
}

#[test]
fn multiplies_beyond_one_digit() {
    let field = Field(BigNat::from(4_294_967_291_u32));
    let a = FieldElement::new(BigNat::from(4_000_000_000_u32), field.clone());
    let b = FieldElement::new(BigNat::from(3_000_000_000_u32), field.clone());
    // 4e9 * 3e9 = 12e18, reduced modulo 2^32 - 5
    let expected = (4_000_000_000_u128 * 3_000_000_000_u128 % 4_294_967_291_u128) as u32;
    assert_eq!(a.mul(b), FieldElement::new(BigNat::from(expected), field));
}

#[test]
fn exponentiates_past_the_modulus() {
    let field = Field(BigNat::from(13_u32));
    let a = FieldElement::new(BigNat::from(3_u32), field.clone());
    let e = FieldElement::new(BigNat::from(5_u32), field.clone());
    // 3^5 = 243 = 18·13 + 9
    assert_eq!(a.pow(e), FieldElement::new(BigNat::from(9_u32), field));
}

#[test]
fn draws_below_the_modulus() {
    let field = Field(BigNat::from(5_u32));
    for _ in 0..50 {
        let element = field.rand();
        let below = (0..5_u32).any(|v| {
            element.clone() == FieldElement::new(BigNat::from(v), field.clone())
        });
        assert!(below);
    }
}
