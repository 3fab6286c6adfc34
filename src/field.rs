use num_bigint::BigUint;
use rand::Rng;
use vstd::arithmetic::power::pow;
use vstd::prelude::*;

verus! {

/// The value of base-2^32 digits, least significant first.
pub open spec fn digits_value(d: Seq<u32>) -> nat
    decreases d.len(),
{
    if d.len() == 0 {
        0
    } else {
        (d[0] + 0x1_0000_0000 * digits_value(d.subrange(1, d.len() as int))) as nat
    }
}

/// A natural number of any size, as its base-2^32 digits, least significant first and
/// without trailing zeros.
#[derive(Clone, Debug, PartialEq, Eq)]
pub struct BigNat {
    digits: Vec<u32>,
}

impl BigNat {
    /// The number.
    pub closed spec fn value(self) -> nat {
        digits_value(self.digits@)
    }

    pub fn from_u32(x: u32) -> (r: BigNat)
        ensures
            r.value() == x as nat,
    {
        if x == 0 {
            BigNat { digits: Vec::new() }
        } else {
            let r = BigNat { digits: vec![x] };
            proof {
                assert(r.digits@.subrange(1, 1).len() == 0);
                assert(digits_value(r.digits@.subrange(1, 1)) == 0);
            }
            r
        }
    }

    /// A second copy of the same number.
    fn copy(&self) -> (r: BigNat)
        ensures
            r.value() == self.value(),
    {
        let mut digits: Vec<u32> = Vec::with_capacity(self.digits.len());
        let mut i: usize = 0;
        while i < self.digits.len()
            invariant
                i <= self.digits@.len(),
                digits@ == self.digits@.take(i as int),
            decreases self.digits@.len() - i,
        {
            digits.push(self.digits[i]);
            i += 1;
            proof {
                assert(digits@ =~= self.digits@.take(i as int));
            }
        }
        proof {
            assert(self.digits@.take(i as int) =~= self.digits@);
        }
        BigNat { digits }
    }
}

impl From<u32> for BigNat {
    fn from(x: u32) -> BigNat {
        BigNat::from_u32(x)
    }
}

impl vstd::std_specs::convert::FromSpecImpl<u32> for BigNat {
    /// What `from` returns is said by `from_u32` over `value`.
    open spec fn obeys_from_spec() -> bool {
        false
    }

    open spec fn from_spec(x: u32) -> BigNat {
        arbitrary()
    }
}

/// Relies on num-bigint's `Add for BigUint`.
#[verifier::external_body]
fn big_add(a: &BigNat, b: &BigNat) -> (r: BigNat)
    ensures
        r.value() == a.value() + b.value(),
{
    let x = BigUint::new(a.digits.clone());
    let y = BigUint::new(b.digits.clone());
    BigNat { digits: (x + y).to_u32_digits() }
}

/// Relies on num-bigint's `Sub for BigUint`, which panics below zero.
#[verifier::external_body]
fn big_sub(a: &BigNat, b: &BigNat) -> (r: BigNat)
    requires
        b.value() <= a.value(),
    ensures
        r.value() == a.value() - b.value(),
{
    let x = BigUint::new(a.digits.clone());
    let y = BigUint::new(b.digits.clone());
    BigNat { digits: (x - y).to_u32_digits() }
}

/// Relies on num-bigint's `Mul for BigUint`.
#[verifier::external_body]
fn big_mul(a: &BigNat, b: &BigNat) -> (r: BigNat)
    ensures
        r.value() == a.value() * b.value(),
{
    let x = BigUint::new(a.digits.clone());
    let y = BigUint::new(b.digits.clone());
    BigNat { digits: (x * y).to_u32_digits() }
}

/// Relies on num-bigint's `Div for BigUint`: the quotient rounded down; it panics on a
/// zero divisor.
#[verifier::external_body]
fn big_div(a: &BigNat, b: &BigNat) -> (r: BigNat)
    requires
        b.value() != 0,
    ensures
        r.value() == a.value() / b.value(),
{
    let x = BigUint::new(a.digits.clone());
    let y = BigUint::new(b.digits.clone());
    BigNat { digits: (x / y).to_u32_digits() }
}

/// Relies on num-bigint's `Rem for BigUint`; it panics on a zero modulus.
#[verifier::external_body]
fn big_rem(a: &BigNat, m: &BigNat) -> (r: BigNat)
    requires
        m.value() != 0,
    ensures
        r.value() == a.value() % m.value(),
{
    let x = BigUint::new(a.digits.clone());
    let y = BigUint::new(m.digits.clone());
    BigNat { digits: (x % y).to_u32_digits() }
}

/// Relies on num-bigint's `BigUint::pow`.
#[verifier::external_body]
fn big_pow(a: &BigNat, e: u32) -> (r: BigNat)
    ensures
        r.value() == pow(a.value() as int, e as nat),
{
    let x = BigUint::new(a.digits.clone());
    BigNat { digits: x.pow(e).to_u32_digits() }
}

/// Relies on num-bigint's `TryFrom<BigUint> for u32`: the number when it fits.
#[verifier::external_body]
fn big_to_u32(a: &BigNat) -> (r: Option<u32>)
    ensures
        r is Some <==> a.value() <= u32::MAX,
        r is Some ==> r->0 as nat == a.value(),
{
    u32::try_from(BigUint::new(a.digits.clone())).ok()
}

/// Relies on rand's `Rng::gen_range` on the thread-local generator: a number below
/// `bound`, drawn uniformly. It panics on an empty range.
#[verifier::external_body]
fn random_below(bound: u32) -> (r: u32)
    requires
        bound > 0,
    ensures
        r < bound,
{
    rand::thread_rng().gen_range(0..bound)
}

/// The integers modulo the number it holds.
#[derive(Clone, Debug, PartialEq, Eq)]
pub struct Field(pub BigNat);

impl Field {
    /// An element drawn uniformly below the modulus, which must be a non-zero `u32`.
    pub fn rand(&self) -> (r: FieldElement)
        requires
            0 < self.0.value() <= u32::MAX,
        ensures
            r.number() < self.0.value(),
            r.field().0.value() == self.0.value(),
    {
        let bound = match big_to_u32(&self.0) {
            Some(bound) => bound,
            None => vstd::pervasive::unreached(),
        };
        let random_field_element_number = random_below(bound);
        FieldElement {
            value: BigNat::from_u32(random_field_element_number),
            field: Field(self.0.copy()),
        }
    }
}

/// A number together with the field it is taken in. The arithmetic reduces its result
/// modulo the field of the left operand; the number itself may be unreduced.
#[derive(Clone, Debug, PartialEq, Eq)]
pub struct FieldElement {
    pub value: BigNat,
    field: Field,
}

impl FieldElement {
    /// The field the element is taken in.
    pub closed spec fn field(self) -> Field {
        self.field
    }

    /// The number held, which need not be reduced.
    pub closed spec fn number(self) -> nat {
        self.value.value()
    }

    /// The modulus of that field.
    pub open spec fn modulus(self) -> nat {
        self.field().0.value()
    }

    pub fn new(value: BigNat, field: Field) -> (r: FieldElement)
        ensures
            r.number() == value.value(),
            r.field() == field,
    {
        FieldElement { value, field }
    }

    /// `self^rhs` modulo the field; both must be of one field, and the exponent must
    /// fit in a `u32`.
    pub fn pow(self, rhs: Self) -> (r: FieldElement)
        requires
            self.field() == rhs.field(),
            rhs.number() <= u32::MAX,
            self.modulus() > 0,
        ensures
            r.number() == pow(self.number() as int, rhs.number()) % (self.modulus() as int),
            r.field() == self.field(),
    {
        let exponent = match big_to_u32(&rhs.value) {
            Some(exponent) => exponent,
            None => vstd::pervasive::unreached(),
        };
        let power = big_pow(&self.value, exponent);
        let result = big_rem(&power, &self.field.0);
        FieldElement::new(result, self.field)
    }

    /// `(self + rhs)` modulo the field of `self`.
    pub fn add(self, rhs: Self) -> (r: FieldElement)
        requires
            self.modulus() > 0,
        ensures
            r.number() == (self.number() + rhs.number()) % self.modulus(),
            r.field() == self.field(),
    {
        let sum = big_add(&self.value, &rhs.value);
        let ans = big_rem(&sum, &self.field.0);
        FieldElement::new(ans, self.field)
    }

    /// Replaces the number by `(self + rhs)` modulo the field.
    pub fn add_assign(&mut self, rhs: Self)
        requires
            old(self).modulus() > 0,
        ensures
            final(self).number() == (old(self).number() + rhs.number()) % old(self).modulus(),
            final(self).field() == old(self).field(),
    {
        let sum = big_add(&self.value, &rhs.value);
        self.value = big_rem(&sum, &self.field.0);
    }

    /// `(p - self)` modulo `p`, the modulus; the number must not exceed it.
    pub fn neg(self) -> (r: FieldElement)
        requires
            self.modulus() > 0,
            self.number() <= self.modulus(),
        ensures
            r.number() == (self.modulus() - self.number()) as nat % self.modulus(),
            r.field() == self.field(),
    {
        let difference = big_sub(&self.field.0, &self.value);
        let result = big_rem(&difference, &self.field.0);
        FieldElement::new(result, self.field)
    }

    /// `self + (-rhs)`.
    pub fn sub(self, rhs: Self) -> (r: FieldElement)
        requires
            self.modulus() > 0,
            rhs.modulus() > 0,
            rhs.number() <= rhs.modulus(),
        ensures
            r.number() == (self.number() + (rhs.modulus() - rhs.number()) as nat
                % rhs.modulus()) % self.modulus(),
            r.field() == self.field(),
    {
        self.add(rhs.neg())
    }

    /// `(self · rhs)` modulo the field of `self`.
    pub fn mul(self, rhs: Self) -> (r: FieldElement)
        requires
            self.modulus() > 0,
        ensures
            r.number() == (self.number() * rhs.number()) % self.modulus(),
            r.field() == self.field(),
    {
        let product = big_mul(&self.value, &rhs.value);
        let result = big_rem(&product, &self.field.0);
        FieldElement::new(result, self.field)
    }

    /// The integer quotient `self / rhs`, rounded down, modulo the field of `self`.
    pub fn div(self, rhs: Self) -> (r: FieldElement)
        requires
            self.modulus() > 0,
            rhs.number() != 0,
        ensures
            r.number() == (self.number() / rhs.number()) % self.modulus(),
            r.field() == self.field(),
    {
        let quotient = big_div(&self.value, &rhs.value);
        let result = big_rem(&quotient, &self.field.0);
        FieldElement::new(result, self.field)
    }
}

} // verus!
