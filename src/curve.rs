use blstrs::{G1Projective, G2Projective, Gt};
use group::ff::Field;
use group::{Curve, Group};
use vstd::prelude::*;

verus! {

/// The order of the BLS12-381 scalar field.
pub open spec fn modulus() -> int {
    (0x73eda753299d7d483339d80809a1d805 as int) * 0x10000000000000000 * 0x10000000000000000
        + 0x53bda402fffe5bfeffffffff00000001
}

/// The field values of a sequence of scalars.
pub open spec fn values(s: Seq<Scalar>) -> Seq<int> {
    s.map_values(|c: Scalar| c.val())
}

/// Little-endian value of a byte string.
pub open spec fn le_value(b: Seq<u8>) -> nat
    decreases b.len(),
{
    if b.len() == 0 {
        0
    } else {
        (b[0] + 256 * le_value(b.subrange(1, b.len() as int))) as nat
    }
}

/// An element of the scalar field, held as its canonical little-endian bytes. The
/// operations below hand these to blstrs through `Scalar::from_bytes_le`, which
/// accepts exactly the canonical bytes, and take results back through
/// `Scalar::to_bytes_le`.
#[derive(Clone, Copy, Debug, PartialEq, Eq)]
pub struct Scalar {
    bytes: [u8; 32],
}

impl Scalar {
    /// The integer in `0 .. modulus()` that this element stands for (its bytes are
    /// canonical, so the reduction changes nothing).
    pub closed spec fn val(self) -> int {
        le_value(self.bytes@) as int % modulus()
    }

    /// The value lies in the field.
    pub broadcast proof fn lemma_val_range(self)
        ensures
            0 <= #[trigger] self.val() < modulus(),
    {
    }

    #[verifier::type_invariant]
    spec fn canonical(self) -> bool {
        le_value(self.bytes@) < modulus()
    }
}

/// Relies on blstrs's `From<u64> for Scalar`: the element whose value is `x`.
#[verifier::external_body]
pub(crate) fn scalar_from_u64(x: u64) -> (r: Scalar)
    ensures
        r.val() == x as int,
{
    Scalar { bytes: blstrs::Scalar::from(x).to_bytes_le() }
}

/// Relies on blstrs's `Add for Scalar`: the sum modulo the field order.
#[verifier::external_body]
pub(crate) fn scalar_add(a: Scalar, b: Scalar) -> (r: Scalar)
    ensures
        r.val() == (a.val() + b.val()) % modulus(),
{
    let x = blstrs::Scalar::from_bytes_le(&a.bytes).unwrap();
    let y = blstrs::Scalar::from_bytes_le(&b.bytes).unwrap();
    Scalar { bytes: (x + y).to_bytes_le() }
}

/// Relies on blstrs's `Sub for Scalar`: the difference modulo the field order.
#[verifier::external_body]
pub(crate) fn scalar_sub(a: Scalar, b: Scalar) -> (r: Scalar)
    ensures
        r.val() == (a.val() - b.val()) % modulus(),
{
    let x = blstrs::Scalar::from_bytes_le(&a.bytes).unwrap();
    let y = blstrs::Scalar::from_bytes_le(&b.bytes).unwrap();
    Scalar { bytes: (x - y).to_bytes_le() }
}

/// Relies on blstrs's `Mul for Scalar`: the product modulo the field order.
#[verifier::external_body]
pub(crate) fn scalar_mul(a: Scalar, b: Scalar) -> (r: Scalar)
    ensures
        r.val() == (a.val() * b.val()) % modulus(),
{
    let x = blstrs::Scalar::from_bytes_le(&a.bytes).unwrap();
    let y = blstrs::Scalar::from_bytes_le(&b.bytes).unwrap();
    Scalar { bytes: (x * y).to_bytes_le() }
}

/// Relies on blstrs's `Neg for Scalar`: the additive inverse modulo the field order.
#[verifier::external_body]
pub(crate) fn scalar_neg(a: Scalar) -> (r: Scalar)
    ensures
        r.val() == (-a.val()) % modulus(),
{
    let x = blstrs::Scalar::from_bytes_le(&a.bytes).unwrap();
    Scalar { bytes: (-x).to_bytes_le() }
}

/// Relies on ff's `Field::invert` for blstrs's `Scalar`: the multiplicative inverse,
/// which exists for every non-zero element.
#[verifier::external_body]
pub(crate) fn scalar_invert(a: Scalar) -> (r: Scalar)
    requires
        a.val() != 0,
    ensures
        (a.val() * r.val()) % modulus() == 1,
{
    let x = blstrs::Scalar::from_bytes_le(&a.bytes).unwrap();
    Scalar { bytes: x.invert().unwrap().to_bytes_le() }
}

/// Relies on ff's `Field::is_zero` for blstrs's `Scalar`.
#[verifier::external_body]
pub(crate) fn scalar_is_zero(a: Scalar) -> (r: bool)
    ensures
        r == (a.val() == 0),
{
    let x = blstrs::Scalar::from_bytes_le(&a.bytes).unwrap();
    bool::from(x.is_zero())
}

/// Relies on ff's `Field::random` for blstrs's `Scalar`, fed by rand's thread-local
/// generator: an element drawn uniformly from the field. Nothing is known of which.
#[verifier::external_body]
pub(crate) fn random_scalar() -> (r: Scalar) {
    let x = blstrs::Scalar::random(rand::thread_rng());
    Scalar { bytes: x.to_bytes_le() }
}

/// The text that `format!("{}x^{}", c, power)` gives for a coefficient of value `coeff`,
/// the coefficient written as blstrs displays a scalar.
pub uninterp spec fn term_text(coeff: int, power: int) -> Seq<char>;

/// Relies on blstrs's `Display for Scalar` and std's `format!`: the text depends on the
/// value and the power alone.
#[verifier::external_body]
pub(crate) fn scalar_term_text(coeff: Scalar, power: usize) -> (r: String)
    ensures
        r@ == term_text(coeff.val(), power as int),
{
    let x = blstrs::Scalar::from_bytes_le(&coeff.bytes).unwrap();
    format!("{}x^{}", x, power)
}

impl From<u64> for Scalar {
    fn from(x: u64) -> Scalar {
        scalar_from_u64(x)
    }
}

impl vstd::std_specs::convert::FromSpecImpl<u64> for Scalar {
    /// What `from` returns is said by `scalar_from_u64` over `val`, not as a value.
    open spec fn obeys_from_spec() -> bool {
        false
    }

    open spec fn from_spec(x: u64) -> Scalar {
        arbitrary()
    }
}

#[verifier::external_type_specification]
#[verifier::external_body]
pub struct ExG1Projective(G1Projective);

#[verifier::external_type_specification]
#[verifier::external_body]
pub struct ExG2Projective(G2Projective);

#[verifier::external_type_specification]
#[verifier::external_body]
pub struct ExGt(Gt);

/// The discrete logarithm of a point of G1 to the base of G1's generator: the
/// element of the scalar field that the point stands for. The group has prime order
/// `modulus()`, so this determines the point.
pub uninterp spec fn g1_log(p: G1Projective) -> int;

/// The discrete logarithm of a point of G2 to the base of G2's generator.
pub uninterp spec fn g2_log(p: G2Projective) -> int;

/// The discrete logarithm of an element of the target group to the base of the
/// pairing of the two generators.
pub uninterp spec fn gt_log(t: Gt) -> int;

/// `Σ g1_log(points[i])·coeffs[i]` over the indices of `coeffs`, as an integer.
pub open spec fn g1_combination(points: Seq<G1Projective>, coeffs: Seq<int>) -> int
    decreases coeffs.len(),
{
    if coeffs.len() == 0 {
        0
    } else {
        g1_combination(points, coeffs.drop_last()) + g1_log(points[coeffs.len() - 1])
            * coeffs.last()
    }
}

/// Relies on group's `Group::generator` for blstrs's `G1Projective`.
#[verifier::external_body]
pub(crate) fn g1_generator() -> (r: G1Projective)
    ensures
        g1_log(r) == 1,
{
    G1Projective::generator()
}

/// Relies on group's `Group::generator` for blstrs's `G2Projective`.
#[verifier::external_body]
pub(crate) fn g2_generator() -> (r: G2Projective)
    ensures
        g2_log(r) == 1,
{
    G2Projective::generator()
}

/// Relies on group's `Group::identity` for blstrs's `G1Projective`: the neutral point.
#[verifier::external_body]
pub(crate) fn g1_identity() -> (r: G1Projective)
    ensures
        g1_log(r) == 0,
{
    G1Projective::identity()
}

/// Relies on blstrs's `Mul<Scalar> for G1Projective`: scalar multiplication.
#[verifier::external_body]
pub(crate) fn g1_mul(p: G1Projective, s: Scalar) -> (r: G1Projective)
    ensures
        g1_log(r) == (g1_log(p) * s.val()) % modulus(),
{
    p * blstrs::Scalar::from_bytes_le(&s.bytes).unwrap()
}

/// Relies on blstrs's `Mul<Scalar> for G2Projective`: scalar multiplication.
#[verifier::external_body]
pub(crate) fn g2_mul(p: G2Projective, s: Scalar) -> (r: G2Projective)
    ensures
        g2_log(r) == (g2_log(p) * s.val()) % modulus(),
{
    p * blstrs::Scalar::from_bytes_le(&s.bytes).unwrap()
}

/// Relies on blstrs's `Add for G1Projective`: the group operation.
#[verifier::external_body]
pub(crate) fn g1_add(a: G1Projective, b: G1Projective) -> (r: G1Projective)
    ensures
        g1_log(r) == (g1_log(a) + g1_log(b)) % modulus(),
{
    a + b
}

/// Relies on blstrs's `Add for G2Projective`: the group operation.
#[verifier::external_body]
pub(crate) fn g2_add(a: G2Projective, b: G2Projective) -> (r: G2Projective)
    ensures
        g2_log(r) == (g2_log(a) + g2_log(b)) % modulus(),
{
    a + b
}

/// Relies on blstrs's `G1Projective::multi_exp`: `Σ points[i]·scalars[i]`. It reads
/// the first point unconditionally and wants a scalar for every point.
#[verifier::external_body]
pub(crate) fn g1_multi_exp(points: &[G1Projective], scalars: &Vec<Scalar>) -> (r: G1Projective)
    requires
        1 <= points@.len() == scalars@.len(),
    ensures
        g1_log(r) == g1_combination(points@, values(scalars@)) % modulus(),
{
    let s: Vec<blstrs::Scalar> = scalars
        .iter()
        .map(|c| blstrs::Scalar::from_bytes_le(&c.bytes).unwrap())
        .collect();
    G1Projective::multi_exp(points, &s)
}

/// Relies on blstrs's `pairing` (after group's `Curve::to_affine` on both points): the
/// bilinear map, under which the pair of generators goes to the base of `gt_log`.
#[verifier::external_body]
pub(crate) fn pairing(p: G1Projective, q: G2Projective) -> (r: Gt)
    ensures
        gt_log(r) == (g1_log(p) * g2_log(q)) % modulus(),
{
    blstrs::pairing(&p.to_affine(), &q.to_affine())
}

/// Relies on blstrs's `PartialEq for Gt`.
#[verifier::external_body]
pub(crate) fn gt_eq(a: Gt, b: Gt) -> (r: bool)
    ensures
        r == (gt_log(a) % modulus() == gt_log(b) % modulus()),
{
    a == b
}

} // verus!
