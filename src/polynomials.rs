use vstd::arithmetic::div_mod::*;
use vstd::arithmetic::power::*;
use vstd::prelude::*;

use crate::curve::{
    modulus, random_scalar, scalar_add, scalar_from_u64, scalar_invert, scalar_is_zero, scalar_mul,
    scalar_sub, scalar_term_text, term_text, values, Scalar,
};

verus! {

/// `c[0] + c[1]·z + ... + c[n-1]·z^(n-1)`, over the integers.
pub open spec fn poly_sum(c: Seq<int>, z: int) -> int
    decreases c.len(),
{
    if c.len() == 0 {
        0
    } else {
        poly_sum(c.drop_last(), z) + c.last() * pow(z, (c.len() - 1) as nat)
    }
}

/// Every coefficient is the zero of the field.
pub open spec fn all_zero(c: Seq<int>) -> bool {
    forall|i: int| 0 <= i < c.len() ==> #[trigger] c[i] == 0
}

proof fn lemma_sum_update(c: Seq<int>, k: int, v: int, z: int)
    requires
        0 <= k < c.len(),
    ensures
        poly_sum(c.update(k, v), z) == poly_sum(c, z) + (v - c[k]) * pow(z, k as nat),
    decreases c.len(),
{
    let u = c.update(k, v);
    if k == c.len() - 1 {
        assert(u.drop_last() =~= c.drop_last());
        let p = pow(z, k as nat);
        assert((v - c[k]) * p == v * p - c[k] * p) by (nonlinear_arith);
    } else {
        assert(u.drop_last() =~= c.drop_last().update(k, v));
        lemma_sum_update(c.drop_last(), k, v, z);
    }
}

proof fn lemma_sum_all_zero(c: Seq<int>, z: int)
    requires
        all_zero(c),
    ensures
        poly_sum(c, z) == 0,
    decreases c.len(),
{
    if c.len() > 0 {
        assert(c.last() == c[c.len() - 1]);
        assert(all_zero(c.drop_last()));
        lemma_sum_all_zero(c.drop_last(), z);
    }
}

proof fn lemma_mod_add_cong(a: int, x: int, y: int)
    requires
        x % modulus() == y % modulus(),
    ensures
        (a + x) % modulus() == (a + y) % modulus(),
{
    lemma_add_mod_noop_right(a, x, modulus());
    lemma_add_mod_noop_right(a, y, modulus());
}

proof fn lemma_mod_mul_cong(x: int, y: int, a: int)
    requires
        x % modulus() == y % modulus(),
    ensures
        (x * a) % modulus() == (y * a) % modulus(),
{
    lemma_mul_mod_noop_left(x, a, modulus());
    lemma_mul_mod_noop_left(y, a, modulus());
}

/// One coefficient of the remainder loses `c·d_i` at the position of `z^k·z^i`.
proof fn lemma_subtract_step(
    r_old: int,
    r_new: int,
    r0: int,
    c: int,
    p: int,
    dt: int,
    di: int,
    pi: int,
    old: int,
    new: int,
)
    requires
        r_new == r_old + (new - old) * (p * pi),
        new == (old - (c * di) % modulus()) % modulus(),
        r_old % modulus() == (r0 - c * p * dt) % modulus(),
    ensures
        r_new % modulus() == (r0 - c * p * (dt + di * pi)) % modulus(),
{
    let m = modulus();
    lemma_sub_mod_noop_right(old, c * di, m);
    lemma_mod_twice(old - c * di, m);
    assert((new - old) % m == (-(c * di)) % m) by {
        lemma_mod_add_cong(-old, new, old - c * di);
    }
    lemma_mod_mul_cong(new - old, -(c * di), p * pi);
    lemma_add_mod_noop(r_old, (new - old) * (p * pi), m);
    lemma_add_mod_noop(r0 - c * p * dt, -(c * di) * (p * pi), m);
    assert((r0 - c * p * dt) + -(c * di) * (p * pi) == r0 - c * p * (dt + di * pi))
        by (nonlinear_arith);
}

proof fn lemma_horner_step(s: int, p: int, ci: int, x: int)
    ensures
        ((s % modulus()) + ((p % modulus()) * ci) % modulus()) % modulus() == (s + ci * p)
            % modulus(),
        ((p % modulus()) * x) % modulus() == (x * p) % modulus(),
{
    let m = modulus();
    lemma_mul_mod_noop_left(p, ci, m);
    lemma_add_mod_noop(s, p * ci, m);
    lemma_mod_twice(s, m);
    lemma_mod_twice(p * ci, m);
    assert(p * ci == ci * p) by (nonlinear_arith);
    lemma_mul_mod_noop_left(p, x, m);
    assert(p * x == x * p) by (nonlinear_arith);
}

/// With `c = lead / d`, the leading coefficient `lead - c·d` vanishes.
proof fn lemma_leading_cancels(lead: int, d: int, inv: int, c: int)
    requires
        (d * inv) % modulus() == 1,
        c == (lead * inv) % modulus(),
    ensures
        (lead - (c * d) % modulus()) % modulus() == 0,
{
    let m = modulus();
    lemma_mul_mod_noop_left(lead * inv, d, m);
    assert((c * d) % m == (lead * inv * d) % m);
    assert(lead * inv * d == lead * (d * inv)) by (nonlinear_arith);
    lemma_mul_mod_noop_right(lead, d * inv, m);
    assert((lead * (d * inv)) % m == (lead * 1) % m);
    assert((c * d) % m == lead % m);
    lemma_sub_mod_noop_right(lead, c * d, m);
    lemma_sub_mod_noop(lead, c * d, m);
    lemma_mod_twice(lead, m);
    assert(lead % m - lead % m == 0);
    lemma_small_mod(0, m as nat);
}

/// Adding `c·z^k·d` to the quotient's value and taking it from the remainder's keeps
/// `q·d + r`.
proof fn lemma_outer_step(n: int, q: int, q_new: int, d: int, r: int, r_new: int, c: int, p: int)
    requires
        n % modulus() == (q * d + r) % modulus(),
        q_new == q + c * p,
        r_new % modulus() == (r - c * p * d) % modulus(),
    ensures
        n % modulus() == (q_new * d + r_new) % modulus(),
{
    let m = modulus();
    lemma_mod_add_cong(q_new * d, r_new, r - c * p * d);
    assert(q_new * d + (r - c * p * d) == q * d + r) by (nonlinear_arith)
        requires
            q_new == q + c * p,
    ;
}

/// The division `n / d` is defined: `n` is zero, or `d` is not, and `d`'s last
/// coefficient can be inverted wherever the long division needs it.
pub open spec fn div_defined(n: Seq<int>, d: Seq<int>) -> bool {
    all_zero(n) || (!all_zero(d) && (n.len() < d.len() || d.last() != 0))
}

/// `n = q·d + r` as functions on the field, with `r` zero or shorter than `d`.
pub open spec fn is_division(n: Seq<int>, d: Seq<int>, q: Seq<int>, r: Seq<int>) -> bool {
    &&& (all_zero(r) || r.len() < d.len())
    &&& forall|z: int|
        #[trigger] poly_sum(n, z) % modulus() == (poly_sum(q, z) * poly_sum(d, z) + poly_sum(r, z))
            % modulus()
}

/// `c(z) - y = q(z)·(z - x)` at every `z` of the field: `q` is `(c - y) / (x - point)`
/// with nothing left over.
pub open spec fn divides_out(c: Seq<int>, x: int, y: int, q: Seq<int>) -> bool {
    forall|z: int| #[trigger]
        poly_sum(q, z) * (z - x) % modulus() == (poly_sum(c, z) - y) % modulus()
}

/// A remainder that is zero or shorter than two coefficients is a constant.
proof fn lemma_constant_remainder(r: Seq<int>, z: int)
    requires
        all_zero(r) || r.len() < 2,
    ensures
        poly_sum(r, z) == (if all_zero(r) || r.len() == 0 { 0 } else { r[0] }),
{
    if all_zero(r) {
        lemma_sum_all_zero(r, z);
    } else if r.len() == 1 {
        assert(r.drop_last().len() == 0);
        assert(poly_sum(r.drop_last(), z) == 0);
        assert(r.last() == r[0]);
        lemma_pow0(z);
    }
}

/// The polynomial remainder theorem, as the witness construction uses it: with
/// `y = c(x)`, dividing `c` with `y` taken off its constant term by `z - x` leaves
/// nothing over.
pub proof fn lemma_remainder_theorem(c: Seq<int>, x: int, y: int, q: Seq<int>, r: Seq<int>)
    requires
        c.len() >= 1,
        y == poly_sum(c, x) % modulus(),
        is_division(c.update(0, (c[0] - y) % modulus()), seq![(-x) % modulus(), 1], q, r),
    ensures
        divides_out(c, x, y, q),
{
    let m = modulus();
    let c1 = c.update(0, (c[0] - y) % m);
    let d = seq![(-x) % m, 1int];
    let rc = if all_zero(r) || r.len() == 0 { 0 } else { r[0] };
    assert forall|z: int| #[trigger] poly_sum(c1, z) % m == (poly_sum(c, z) - y) % m by {
        let s = poly_sum(c, z);
        let e = (c[0] - y) % m;
        lemma_sum_update(c, 0, e, z);
        lemma_pow0(z);
        assert(poly_sum(c1, z) == s + (e - c[0]) * 1);
        assert(poly_sum(c1, z) == (s - c[0]) + e);
        lemma_mod_twice(c[0] - y, m);
        lemma_mod_add_cong(s - c[0], e, c[0] - y);
        assert((s - c[0]) + (c[0] - y) == s - y);
    }
    assert forall|z: int| #[trigger] poly_sum(d, z) == (-x) % m + z by {
        let d1 = d.drop_last();
        assert(d1 =~= seq![(-x) % m]);
        assert(d1.drop_last().len() == 0);
        assert(poly_sum(d1.drop_last(), z) == 0);
        lemma_pow0(z);
        lemma_pow1(z);
        assert(poly_sum(d1, z) == (-x) % m);
        assert(poly_sum(d, z) == poly_sum(d1, z) + 1 * pow(z, 1));
    }
    assert forall|z: int| #[trigger] poly_sum(d, z) % m == (z - x) % m by {
        lemma_mod_twice(-x, m);
        lemma_mod_add_cong(z, (-x) % m, -x);
    }
    assert(rc % m == 0) by {
        lemma_constant_remainder(r, x);
        assert(poly_sum(c1, x) % m == 0) by {
            lemma_sub_mod_noop(poly_sum(c, x), y, m);
            lemma_mod_twice(poly_sum(c, x), m);
            lemma_small_mod(0, m as nat);
        }
        assert(poly_sum(d, x) % m == 0) by {
            lemma_small_mod(0, m as nat);
        }
        lemma_mul_mod_noop_right(poly_sum(q, x), poly_sum(d, x), m);
        assert(poly_sum(q, x) * 0 == 0);
        lemma_small_mod(0, m as nat);
        lemma_mod_add_cong(rc, poly_sum(q, x) * poly_sum(d, x), 0);
    }
    assert forall|z: int| #[trigger]
        poly_sum(q, z) * (z - x) % m == (poly_sum(c, z) - y) % m by {
        lemma_constant_remainder(r, z);
        let qd = poly_sum(q, z) * poly_sum(d, z);
        lemma_small_mod(0, m as nat);
        lemma_mod_add_cong(qd, rc, 0);
        assert(poly_sum(c1, z) % m == (qd + poly_sum(r, z)) % m);
        assert(poly_sum(c1, z) % m == qd % m);
        lemma_mul_mod_noop_right(poly_sum(q, z), poly_sum(d, z), m);
        lemma_mul_mod_noop_right(poly_sum(q, z), z - x, m);
    }
}

/// The terms `<coefficient>x^<i>` joined by ` + `, lowest power first.
pub open spec fn poly_text(c: Seq<Scalar>) -> Seq<char>
    decreases c.len(),
{
    if c.len() == 0 {
        Seq::empty()
    } else if c.len() == 1 {
        term_text(c[0].val(), 0)
    } else {
        poly_text(c.drop_last()) + seq![' ', '+', ' '] + term_text(c.last().val(), c.len() - 1)
    }
}

/// Relies on std's `String::push_str`: `t` is appended.
#[verifier::external_body]
fn append(s: &mut String, t: &str)
    ensures
        final(s)@ == old(s)@ + t@,
{
    s.push_str(t)
}

/// A polynomial over the scalar field, as its coefficients: index `i` holds the
/// coefficient of `x^i`. Its length is its capacity, not its degree.
#[derive(Clone, Debug, PartialEq, Eq)]
pub struct Polynomial(pub Vec<Scalar>);

impl Polynomial {
    /// The coefficients as field values.
    pub open spec fn coeffs(self) -> Seq<int> {
        values(self.0@)
    }

    /// The value of the polynomial at `z`, in the field.
    pub open spec fn eval(self, z: int) -> int {
        poly_sum(self.coeffs(), z) % modulus()
    }

    pub fn new(scalars: &[Scalar]) -> (r: Polynomial)
        ensures
            r.0@ == scalars@,
    {
        Polynomial(vstd::slice::slice_to_vec(scalars))
    }

    /// One coefficient for each byte, the byte's value.
    pub fn new_from_bytes(bytes: &[u8]) -> (r: Polynomial)
        ensures
            r.0@.len() == bytes@.len(),
            forall|i: int| 0 <= i < bytes@.len() ==> #[trigger] r.0@[i].val() == bytes@[i] as int,
    {
        let mut scalars: Vec<Scalar> = Vec::with_capacity(bytes.len());
        let mut i: usize = 0;
        while i < bytes.len()
            invariant
                i <= bytes@.len(),
                scalars@.len() == i,
                forall|j: int| 0 <= j < i ==> #[trigger] scalars@[j].val() == bytes@[j] as int,
            decreases bytes@.len() - i,
        {
            scalars.push(scalar_from_u64(bytes[i] as u64));
            i += 1;
        }
        Polynomial(scalars)
    }

    /// The value at `point`: the sum of `coefficient[i]·point^i` in the field.
    pub fn evaluate(&self, point: Scalar) -> (r: Scalar)
        ensures
            r.val() == self.eval(point.val()),
    {
        let ghost c = self.coeffs();
        let ghost x = point.val();
        let mut total = scalar_from_u64(0);
        let mut power = scalar_from_u64(1);
        let mut i: usize = 0;
        proof {
            assert(c.take(0) =~= Seq::<int>::empty());
            lemma_pow0(x);
            lemma_small_mod(1, modulus() as nat);
        }
        while i < self.0.len()
            invariant
                i <= self.0@.len(),
                c == self.coeffs(),
                x == point.val(),
                total.val() == poly_sum(c.take(i as int), x) % modulus(),
                power.val() == pow(x, i as nat) % modulus(),
            decreases self.0@.len() - i,
        {
            let term = scalar_mul(power, self.0[i]);
            let ghost s = poly_sum(c.take(i as int), x);
            let ghost p = pow(x, i as nat);
            proof {
                assert(c.take(i + 1).drop_last() =~= c.take(i as int));
                assert(poly_sum(c.take(i + 1), x) == s + c[i as int] * p);
                assert(c[i as int] == self.0@[i as int].val());
                lemma_horner_step(s, p, c[i as int], x);
                reveal_with_fuel(pow, 1);
                assert(pow(x, (i + 1) as nat) == x * p);
            }
            total = scalar_add(total, term);
            power = scalar_mul(power, point);
            i += 1;
        }
        proof {
            assert(c.take(i as int) =~= c);
        }
        total
    }

    /// Brings the length to `d`: a shorter polynomial is padded at the high end with
    /// coefficients drawn uniformly from the field, a longer one loses its
    /// coefficients from `d` on.
    pub fn adjust_to_degree(&mut self, d: usize) -> (r: &mut Self)
        ensures
            r.0@.len() == d,
            old(self).0@.len() >= d ==> r.0@ == old(self).0@.take(d as int),
            old(self).0@.len() < d ==> r.0@.take(old(self).0@.len() as int) == old(self).0@,
            *final(self) == *final(r),
    {
        if self.0.len() < d {
            let ghost start = self.0@;
            while self.0.len() < d
                invariant
                    start.len() < d,
                    start.len() <= self.0@.len() <= d,
                    self.0@.take(start.len() as int) == start,
                decreases d - self.0@.len(),
            {
                let ghost before = self.0@;
                self.0.push(random_scalar());
                proof {
                    assert(self.0@.take(start.len() as int) =~= before.take(start.len() as int));
                }
            }
        } else {
            self.0.truncate(d);
        }
        self
    }

    /// The polynomial as text, `c0x^0 + c1x^1 + ...`.
    pub fn to_string(&self) -> (r: String)
        ensures
            r@ == poly_text(self.0@),
    {
        let mut result = String::new();
        let mut i: usize = 0;
        while i < self.0.len()
            invariant
                i <= self.0@.len(),
                result@ == poly_text(self.0@.take(i as int)),
            decreases self.0@.len() - i,
        {
            let ghost before = result@;
            if i > 0 {
                proof {
                    reveal_strlit(" + ");
                }
                append(&mut result, " + ");
            }
            let term = scalar_term_text(self.0[i], i);
            append(&mut result, term.as_str());
            proof {
                let t = self.0@.take(i + 1);
                assert(t.drop_last() =~= self.0@.take(i as int));
                if i == 0 {
                    assert(before =~= Seq::<char>::empty());
                    assert(result@ =~= term_text(t[0].val(), 0));
                } else {
                    let joint = seq![' ', '+', ' '];
                    assert(result@ =~= before + joint + term_text(t.last().val(), i as int));
                }
            }
            i += 1;
        }
        proof {
            assert(self.0@.take(i as int) =~= self.0@);
        }
        result
    }

    /// True when there are no coefficients or all of them are zero.
    pub fn is_zero(&self) -> (r: bool)
        ensures
            r == all_zero(self.coeffs()),
    {
        let mut i: usize = 0;
        while i < self.0.len()
            invariant
                i <= self.0@.len(),
                forall|j: int| 0 <= j < i ==> #[trigger] self.coeffs()[j] == 0,
            decreases self.0@.len() - i,
        {
            if !scalar_is_zero(self.0[i]) {
                assert(self.coeffs()[i as int] != 0);
                return false;
            }
            i += 1;
        }
        true
    }

    /// The last stored coefficient, if any.
    pub fn leading_coefficient(&self) -> (r: Option<Scalar>)
        ensures
            self.0@.len() == 0 ==> r is None,
            self.0@.len() > 0 ==> r == Some(self.0@.last()),
    {
        if self.0.len() == 0 {
            None
        } else {
            Some(self.0[self.0.len() - 1])
        }
    }

    /// Long division by `divisor`, returning the quotient. A zero dividend, or one
    /// shorter than the divisor, gives the zero polynomial `[0]`.
    pub fn div(self, divisor: Polynomial) -> (q: Polynomial)
        requires
            div_defined(self.coeffs(), divisor.coeffs()),
        ensures
            (all_zero(self.coeffs()) || self.0@.len() < divisor.0@.len()) ==> q.coeffs()
                == seq![0int],
            !(all_zero(self.coeffs()) || self.0@.len() < divisor.0@.len()) ==> q.0@.len()
                == self.0@.len() - divisor.0@.len() + 1,
            exists|r: Seq<int>| is_division(self.coeffs(), divisor.coeffs(), q.coeffs(), r),
    {
        let ghost nc = self.coeffs();
        let ghost dc = divisor.coeffs();
        let m = Ghost(modulus());
        if self.is_zero() {
            let q = Polynomial(vec![scalar_from_u64(0)]);
            proof {
                assert(q.coeffs() =~= seq![0int]);
                assert forall|z: int| #[trigger]
                    poly_sum(nc, z) % modulus() == (poly_sum(q.coeffs(), z) * poly_sum(dc, z)
                        + poly_sum(Seq::<int>::empty(), z)) % modulus() by {
                    lemma_sum_all_zero(nc, z);
                    lemma_sum_all_zero(q.coeffs(), z);
                }
                assert(all_zero(Seq::<int>::empty()));
                assert(is_division(nc, dc, q.coeffs(), Seq::<int>::empty()));
            }
            return q;
        }
        let n = self.0.len();
        let dl = divisor.0.len();
        if n < dl {
            let q = Polynomial(vec![scalar_from_u64(0)]);
            proof {
                assert(q.coeffs() =~= seq![0int]);
                assert forall|z: int| #[trigger]
                    poly_sum(nc, z) % modulus() == (poly_sum(q.coeffs(), z) * poly_sum(dc, z)
                        + poly_sum(nc, z)) % modulus() by {
                    lemma_sum_all_zero(q.coeffs(), z);
                }
                assert(is_division(nc, dc, q.coeffs(), nc));
            }
            return q;
        }
        proof {
            if dl == 0 {
                assert(all_zero(dc));
            }
        }
        let mut quotient: Vec<Scalar> = Vec::with_capacity(n - dl + 1);
        while quotient.len() < n - dl + 1
            invariant
                1 <= dl <= n,
                quotient@.len() <= n - dl + 1,
                forall|j: int| 0 <= j < quotient@.len() ==> #[trigger] quotient@[j].val() == 0,
            decreases n - dl + 1 - quotient@.len(),
        {
            quotient.push(scalar_from_u64(0));
        }
        proof {
            assert(all_zero(values(quotient@)));
        }
        proof {
            assert(dc.last() == dc[dl - 1]);
        }
        let lead_inv = scalar_invert(divisor.0[dl - 1]);
        let mut remainder = self;
        proof {
            assert forall|z: int| #[trigger]
                poly_sum(nc, z) % modulus() == (poly_sum(values(quotient@), z) * poly_sum(dc, z)
                    + poly_sum(remainder.coeffs(), z)) % modulus() by {
                lemma_sum_all_zero(values(quotient@), z);
            }
        }
        while !remainder.is_zero() && remainder.0.len() >= dl
            invariant
                nc == values(self.0@),
                dc == divisor.coeffs(),
                dl == divisor.0@.len(),
                1 <= dl <= n,
                n == self.0@.len(),
                quotient@.len() == n - dl + 1,
                remainder.0@.len() <= n,
                (dc.last() * lead_inv.val()) % modulus() == 1,
                forall|j: int|
                    0 <= j < quotient@.len() && j + dl <= remainder.0@.len() ==> #[trigger]
                    quotient@[j].val() == 0,
                forall|z: int| #[trigger]
                    poly_sum(nc, z) % modulus() == (poly_sum(values(quotient@), z) * poly_sum(dc, z)
                        + poly_sum(remainder.coeffs(), z)) % modulus(),
            decreases remainder.0@.len(),
        {
            let rl = remainder.0.len();
            let lead = remainder.0[rl - 1];
            let c = scalar_mul(lead, lead_inv);
            let k = rl - dl;
            let ghost q0 = values(quotient@);
            let ghost r0 = remainder.coeffs();
            quotient.set(k, c);
            let mut i: usize = 0;
            proof {
                assert(dc.take(0) =~= Seq::<int>::empty());
                assert forall|z: int| #[trigger] poly_sum(remainder.coeffs(), z) % modulus() == (
                    poly_sum(r0, z) - c.val() * pow(z, k as nat) * poly_sum(dc.take(0), z))
                    % modulus() by {}
            }
            while i < dl
                invariant
                    dc == divisor.coeffs(),
                    dl == divisor.0@.len(),
                    k + dl == rl,
                    i <= dl,
                    remainder.0@.len() == rl,
                    r0.len() == rl,
                    forall|j: int| k + i <= j < rl ==> #[trigger] remainder.coeffs()[j] == r0[j],
                    forall|j: int|
                        k <= j < k + i ==> #[trigger] remainder.coeffs()[j] == (r0[j] - (c.val()
                            * dc[j - k]) % modulus()) % modulus(),
                    forall|z: int| #[trigger] poly_sum(remainder.coeffs(), z) % modulus() == (
                        poly_sum(r0, z) - c.val() * pow(z, k as nat) * poly_sum(dc.take(i as int), z))
                        % modulus(),
                decreases dl - i,
            {
                let old_c = remainder.0[k + i];
                proof {
                    assert(remainder.coeffs()[k + i] == old_c.val());
                }
                let v = scalar_sub(old_c, scalar_mul(c, divisor.0[i]));
                let ghost before = remainder.coeffs();
                remainder.0.set(k + i, v);
                proof {
                    assert(remainder.coeffs() =~= before.update(k + i, v.val()));
                    assert(old_c.val() == r0[k + i]);
                    assert forall|j: int| k <= j < k + i + 1 implies #[trigger] remainder.coeffs()[j] == (
                    r0[j] - (c.val() * dc[j - k]) % modulus()) % modulus() by {
                        if j == k + i {
                            assert(remainder.coeffs()[j] == v.val());
                        } else {
                            assert(remainder.coeffs()[j] == before[j]);
                        }
                    }
                    assert(dc.take(i + 1).drop_last() =~= dc.take(i as int));
                    assert forall|z: int| #[trigger] poly_sum(remainder.coeffs(), z) % modulus() == (
                        poly_sum(r0, z) - c.val() * pow(z, k as nat) * poly_sum(
                            dc.take(i + 1),
                            z,
                        )) % modulus() by {
                        lemma_sum_update(before, k + i, v.val(), z);
                        lemma_pow_adds(z, k as nat, i as nat);
                        lemma_subtract_step(
                            poly_sum(before, z),
                            poly_sum(remainder.coeffs(), z),
                            poly_sum(r0, z),
                            c.val(),
                            pow(z, k as nat),
                            poly_sum(dc.take(i as int), z),
                            dc[i as int],
                            pow(z, i as nat),
                            old_c.val(),
                            v.val(),
                        );
                    }
                }
                i += 1;
            }
            proof {
                assert(dc.take(dl as int) =~= dc);
                lemma_leading_cancels(r0[rl - 1], dc[dl - 1], lead_inv.val(), c.val());
            }
            let ghost subtracted = remainder.coeffs();
            while remainder.0.len() > 0 && scalar_is_zero(remainder.0[remainder.0.len() - 1])
                invariant
                    remainder.0@.len() <= rl,
                    remainder.0@.len() == rl ==> remainder.coeffs()[rl - 1] == 0,
                    forall|z: int|
                        #[trigger] poly_sum(remainder.coeffs(), z) == poly_sum(subtracted, z),
                decreases remainder.0@.len(),
            {
                let ghost before = remainder.coeffs();
                remainder.0.pop();
                proof {
                    assert(remainder.coeffs() =~= before.drop_last());
                    assert forall|z: int| #[trigger] poly_sum(remainder.coeffs(), z) == poly_sum(
                        subtracted,
                        z,
                    ) by {
                        assert(before.last() == 0);
                        assert(poly_sum(before, z) == poly_sum(before.drop_last(), z) + before.last()
                            * pow(z, (before.len() - 1) as nat));
                    }
                }
            }
            proof {
                assert forall|j: int|
                    0 <= j < quotient@.len() && j + dl <= remainder.0@.len() implies #[trigger]
                    quotient@[j].val() == 0 by {
                    assert(values(quotient@)[j] == q0[j]);
                }
                assert forall|z: int| #[trigger]
                    poly_sum(nc, z) % modulus() == (poly_sum(values(quotient@), z) * poly_sum(dc, z)
                        + poly_sum(remainder.coeffs(), z)) % modulus() by {
                    assert(values(quotient@) =~= q0.update(k as int, c.val()));
                    lemma_sum_update(q0, k as int, c.val(), z);
                    lemma_outer_step(
                        poly_sum(nc, z),
                        poly_sum(q0, z),
                        poly_sum(values(quotient@), z),
                        poly_sum(dc, z),
                        poly_sum(r0, z),
                        poly_sum(remainder.coeffs(), z),
                        c.val(),
                        pow(z, k as nat),
                    );
                }
            }
        }
        let q = Polynomial(quotient);
        proof {
            assert(is_division(nc, dc, q.coeffs(), remainder.coeffs()));
        }
        q
    }
}

} // verus!
