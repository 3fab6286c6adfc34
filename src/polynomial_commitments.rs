use blstrs::{G1Projective, G2Projective};
use vstd::arithmetic::div_mod::*;
use vstd::arithmetic::power::*;
use vstd::pervasive::unreached;
use vstd::prelude::*;

use crate::curve::{
    g1_add, g1_combination, g1_generator, g1_identity, g1_log, g1_mul, g1_multi_exp, g2_add,
    g2_generator, g2_log, g2_mul, gt_eq, modulus, pairing, random_scalar, scalar_from_u64,
    scalar_neg, scalar_sub, Scalar,
};
use crate::polynomials::{divides_out, is_division, lemma_remainder_theorem, poly_sum, Polynomial};

verus! {

proof fn lemma_next_power(p: int, t: int, i: nat)
    ensures
        ((p % modulus()) * t) % modulus() == (p * t) % modulus(),
        pow(t, i + 1) == t * pow(t, i),
{
    lemma_mul_mod_noop_left(p, t, modulus());
    reveal_with_fuel(pow, 1);
}

proof fn lemma_combination_prefix(a: Seq<G1Projective>, b: Seq<G1Projective>, q: Seq<int>)
    requires
        q.len() <= a.len(),
        q.len() <= b.len(),
        forall|i: int| 0 <= i < q.len() ==> a[i] == b[i],
    ensures
        g1_combination(a, q) == g1_combination(b, q),
    decreases q.len(),
{
    if q.len() > 0 {
        lemma_combination_prefix(a, b, q.drop_last());
    }
}

/// The logarithms of the two sides of the verifier's pairing check.
proof fn lemma_pairing_sides(c: int, y: int, w: int, h: int, x: int)
    ensures
        ((((c + (1 * ((-y) % modulus())) % modulus()) % modulus()) * 1) % modulus()) % modulus()
            == (c - y) % modulus(),
        ((w * ((h + (1 * ((-x) % modulus())) % modulus()) % modulus())) % modulus()) % modulus()
            == (w * (h - x)) % modulus(),
{
    let m = modulus();
    lemma_mod_twice(-y, m);
    lemma_mod_twice(-x, m);
    lemma_add_mod_noop_right(c, -y, m);
    lemma_mod_twice(c - y, m);
    lemma_add_mod_noop_right(h, -x, m);
    lemma_mul_mod_noop_right(w, h + (-x) % m, m);
    lemma_mul_mod_noop_right(w, h - x, m);
    lemma_mod_twice(w * (h - x), m);
}

/// `[G1, G1·tau, G1·tau², ...]`, `length` points.
fn generate_tau_points_g1(tau: Scalar, length: usize) -> (r: Vec<G1Projective>)
    ensures
        r@.len() == length,
        forall|i: int|
            0 <= i < length ==> #[trigger] g1_log(r@[i]) == pow(tau.val(), i as nat) % modulus(),
{
    let ghost t = tau.val();
    let mut points: Vec<G1Projective> = Vec::with_capacity(length);
    if length == 0 {
        return points;
    }
    let mut point = g1_generator();
    proof {
        lemma_pow0(t);
        lemma_small_mod(1, modulus() as nat);
    }
    points.push(point);
    while points.len() < length
        invariant
            t == tau.val(),
            1 <= points@.len() <= length,
            point == points@.last(),
            forall|i: int|
                0 <= i < points@.len() ==> #[trigger] g1_log(points@[i]) == pow(t, i as nat)
                    % modulus(),
        decreases length - points@.len(),
    {
        let ghost n = (points@.len() - 1) as nat;
        proof {
            lemma_next_power(pow(t, n), t, n);
            assert(g1_log(point) == pow(t, n) % modulus());
            assert(pow(t, n) * t == t * pow(t, n)) by (nonlinear_arith);
        }
        point = g1_mul(point, tau);
        points.push(point);
    }
    points
}

/// `[G2, G2·tau, G2·tau², ...]`, `length` points.
fn generate_tau_points_g2(tau: Scalar, length: usize) -> (r: Vec<G2Projective>)
    ensures
        r@.len() == length,
        forall|i: int|
            0 <= i < length ==> #[trigger] g2_log(r@[i]) == pow(tau.val(), i as nat) % modulus(),
{
    let ghost t = tau.val();
    let mut points: Vec<G2Projective> = Vec::with_capacity(length);
    if length == 0 {
        return points;
    }
    let mut point = g2_generator();
    proof {
        lemma_pow0(t);
        lemma_small_mod(1, modulus() as nat);
    }
    points.push(point);
    while points.len() < length
        invariant
            t == tau.val(),
            1 <= points@.len() <= length,
            point == points@.last(),
            forall|i: int|
                0 <= i < points@.len() ==> #[trigger] g2_log(points@[i]) == pow(t, i as nat)
                    % modulus(),
        decreases length - points@.len(),
    {
        let ghost n = (points@.len() - 1) as nat;
        proof {
            lemma_next_power(pow(t, n), t, n);
            assert(g2_log(point) == pow(t, n) % modulus());
            assert(pow(t, n) * t == t * pow(t, n)) by (nonlinear_arith);
        }
        point = g2_mul(point, tau);
        points.push(point);
    }
    points
}

fn copy_all<T: Copy>(v: &Vec<T>) -> (r: Vec<T>)
    ensures
        r@ == v@,
{
    let mut out: Vec<T> = Vec::with_capacity(v.len());
    let mut i: usize = 0;
    while i < v.len()
        invariant
            i <= v@.len(),
            out@ == v@.take(i as int),
        decreases v@.len() - i,
    {
        out.push(v[i]);
        i += 1;
        proof {
            assert(out@ =~= v@.take(i as int));
        }
    }
    proof {
        assert(v@.take(i as int) =~= v@);
    }
    out
}

/// The structured reference string: `gs[i] = tau^i·G1` and `hs[i] = tau^i·G2` for a
/// trapdoor `tau` that is not kept anywhere.
#[derive(Clone, Debug)]
pub struct GlobalParameters {
    pub gs: Vec<G1Projective>,
    pub hs: Vec<G2Projective>,
}

impl GlobalParameters {
    /// Both sequences hold the first powers of `tau`, as many in each.
    pub open spec fn made_from(self, tau: int) -> bool {
        &&& 0 <= tau < modulus()
        &&& self.gs@.len() == self.hs@.len()
        &&& forall|i: int|
            0 <= i < self.gs@.len() ==> #[trigger] g1_log(self.gs@[i]) == pow(tau, i as nat)
                % modulus()
        &&& forall|i: int|
            0 <= i < self.hs@.len() ==> #[trigger] g2_log(self.hs@[i]) == pow(
                tau,
                i as nat,
            ) % modulus()
    }

    /// The same two sequences of points.
    pub open spec fn same(self, o: GlobalParameters) -> bool {
        self.gs@ == o.gs@ && self.hs@ == o.hs@
    }

    /// Some trapdoor made these parameters.
    pub open spec fn wf(self) -> bool {
        exists|tau: int| self.made_from(tau)
    }

    /// The trapdoor that made these parameters, as a value of the proofs only.
    pub open spec fn trapdoor(self) -> int {
        choose|tau: int| self.made_from(tau)
    }

    /// The pairing check `e(c - y·G1, G2) == e(w, tau·G2 - x·G2)` that the verifier
    /// makes, over the discrete logarithms.
    pub open spec fn accepts(self, c: G1Projective, x: int, y: int, w: G1Projective) -> bool {
        (g1_log(c) - y) % modulus() == (g1_log(w) * (g2_log(self.hs@[1]) - x)) % modulus()
    }

    fn new(gs: Vec<G1Projective>, hs: Vec<G2Projective>) -> (r: GlobalParameters)
        ensures
            r.gs == gs,
            r.hs@ == hs@,
    {
        GlobalParameters { gs, hs }
    }

    fn copy(&self) -> (r: GlobalParameters)
        ensures
            r.gs@ == self.gs@,
            r.hs@ == self.hs@,
    {
        GlobalParameters { gs: copy_all(&self.gs), hs: copy_all(&self.hs) }
    }
}

#[derive(Debug, PartialEq, Eq)]
pub enum Error {
    /// The polynomial's length is not the reference string's.
    IncorrectDegree,
    /// The scheme was used before `setup`.
    SetupIncomplete,
}

/// `w` opens a commitment to `c` at `x` with value `y`: `y = c(x)`, and `w` commits,
/// over `points`, to a `q` with `c(z) - y = q(z)·(z - x)`.
pub open spec fn is_opening(
    points: Seq<G1Projective>,
    c: Seq<int>,
    x: int,
    y: int,
    w: G1Projective,
) -> bool {
    &&& y == poly_sum(c, x) % modulus()
    &&& exists|q: Seq<int>|
        {
            &&& q.len() <= points.len()
            &&& #[trigger] divides_out(c, x, y, q)
            &&& g1_log(w) == g1_combination(points, q) % modulus()
        }
}

pub trait PolynomialCommitment: Sized {
    /// The reference string that the last `setup` stored, if one has run.
    spec fn parameters(&self) -> Option<GlobalParameters>;

    /// Draws a fresh trapdoor and stores the reference string of `d` powers of it.
    fn setup(&mut self, d: usize) -> (r: GlobalParameters)
        ensures
            r.gs@.len() == d,
            r.hs@.len() == d,
            r.wf(),
            final(self).parameters() is Some,
            final(self).parameters()->0.same(r),
    ;

    /// The commitment `Σ coefficient[i]·gs[i]`.
    fn commit(&self, polynomial: &Polynomial) -> (r: Result<G1Projective, Error>)
        ensures
            self.parameters() is None ==> r == Err::<G1Projective, Error>(Error::SetupIncomplete),
            self.parameters() is Some && polynomial.0@.len() != self.parameters()->0.gs@.len()
                ==> r == Err::<G1Projective, Error>(Error::IncorrectDegree),
            self.parameters() is Some && polynomial.0@.len() == self.parameters()->0.gs@.len()
                ==> r is Ok && g1_log(r->Ok_0) == g1_combination(
                self.parameters()->0.gs@,
                polynomial.coeffs(),
            ) % modulus(),
    ;

    /// The witness and the value of `polynomial` at `point`.
    fn create_witness(&self, polynomial: Polynomial, point: Scalar) -> (r: (G1Projective, Scalar))
        requires
            self.parameters() is Some,
            1 <= polynomial.0@.len() <= self.parameters()->0.gs@.len() + 1,
            1 <= self.parameters()->0.gs@.len(),
        ensures
            r.1.val() == polynomial.eval(point.val()),
            is_opening(self.parameters()->0.gs@, polynomial.coeffs(), point.val(), r.1.val(), r.0),
    ;

    /// Whether `witness` shows that the polynomial committed in `committed_polynomial`
    /// takes the value `evaluation` at `point`.
    fn verify_evaluation(
        &self,
        committed_polynomial: G1Projective,
        point: Scalar,
        evaluation: Scalar,
        witness: G1Projective,
    ) -> (r: bool)
        requires
            self.parameters() is Some,
            self.parameters()->0.hs@.len() >= 2,
        ensures
            r == self.parameters()->0.accepts(
                committed_polynomial,
                point.val(),
                evaluation.val(),
                witness,
            ),
    ;
}

/// The commitment scheme, before `setup` without a reference string.
#[derive(Debug)]
pub struct GenericPolynomialCommitment {
    global_parameters: Option<GlobalParameters>,
}

impl GenericPolynomialCommitment {
    pub fn new() -> (r: Self)
        ensures
            r.parameters() is None,
    {
        GenericPolynomialCommitment { global_parameters: None }
    }
}

impl PolynomialCommitment for GenericPolynomialCommitment {
    closed spec fn parameters(&self) -> Option<GlobalParameters> {
        self.global_parameters
    }

    fn setup(&mut self, d: usize) -> (r: GlobalParameters) {
        let tau = random_scalar();
        let gs = generate_tau_points_g1(tau, d);
        let hs = generate_tau_points_g2(tau, d);
        let global_parameters = GlobalParameters::new(gs, hs);
        proof {
            tau.lemma_val_range();
            assert(global_parameters.made_from(tau.val()));
        }
        self.global_parameters = Some(global_parameters.copy());
        global_parameters
    }

    fn commit(&self, polynomial: &Polynomial) -> (r: Result<G1Projective, Error>) {
        match &self.global_parameters {
            None => Err(Error::SetupIncomplete),
            Some(global_parameters) => {
                if polynomial.0.len() != global_parameters.gs.len() {
                    Err(Error::IncorrectDegree)
                } else if polynomial.0.len() == 0 {
                    proof {
                        assert(g1_combination(global_parameters.gs@, polynomial.coeffs()) == 0);
                        lemma_small_mod(0, modulus() as nat);
                    }
                    Ok(g1_identity())
                } else {
                    Ok(g1_multi_exp(global_parameters.gs.as_slice(), &polynomial.0))
                }
            },
        }
    }

    fn create_witness(&self, polynomial: Polynomial, point: Scalar) -> (r: (G1Projective, Scalar)) {
        let ghost c = polynomial.coeffs();
        let evaluation = polynomial.evaluate(point);
        let mut witness_polynomial = polynomial;
        let first = witness_polynomial.0[0];
        witness_polynomial.0.set(0, scalar_sub(first, evaluation));
        let divisor = Polynomial(vec![scalar_neg(point), scalar_from_u64(1)]);
        proof {
            let c1 = c.update(0, (c[0] - evaluation.val()) % modulus());
            assert(witness_polynomial.coeffs() =~= c1);
            assert(divisor.coeffs() =~= seq![(-point.val()) % modulus(), 1int]);
            assert(divisor.coeffs()[1] == 1);
        }
        let quotient = witness_polynomial.div(divisor);
        let ghost q = quotient.coeffs();
        proof {
            assert(quotient.0@.len() == q.len());
            assert(1 <= q.len() <= polynomial.0@.len() - 1 || q.len() == 1);
            let rem = choose|rem: Seq<int>|
                is_division(witness_polynomial.coeffs(), divisor.coeffs(), q, rem);
            lemma_remainder_theorem(c, point.val(), evaluation.val(), q, rem);
        }
        let global_parameters = match &self.global_parameters {
            Some(global_parameters) => global_parameters,
            None => unreached(),
        };
        let gs = global_parameters.gs.as_slice();
        let points = vstd::slice::slice_subrange(gs, 0, quotient.0.len());
        let witness = g1_multi_exp(points, &quotient.0);
        proof {
            lemma_combination_prefix(points@, global_parameters.gs@, q);
        }
        (witness, evaluation)
    }

    fn verify_evaluation(
        &self,
        committed_polynomial: G1Projective,
        point: Scalar,
        evaluation: Scalar,
        witness: G1Projective,
    ) -> (r: bool) {
        let global_parameters = match &self.global_parameters {
            Some(global_parameters) => global_parameters,
            None => unreached(),
        };
        let g1 = g1_generator();
        let g2 = g2_generator();
        let evaluation_inverse = g1_mul(g1, scalar_neg(evaluation));
        let left_pairing = g1_add(committed_polynomial, evaluation_inverse);
        let lhs = pairing(left_pairing, g2);
        let point_commitment_inverted = g2_mul(g2, scalar_neg(point));
        let right_side = g2_add(global_parameters.hs[1], point_commitment_inverted);
        let rhs = pairing(witness, right_side);
        proof {
            lemma_pairing_sides(
                g1_log(committed_polynomial),
                evaluation.val(),
                g1_log(witness),
                g2_log(global_parameters.hs@[1]),
                point.val(),
            );
        }
        gt_eq(lhs, rhs)
    }
}

proof fn lemma_sum_cong(a: int, b: int, x: int, y: int)
    requires
        a % modulus() == b % modulus(),
        x % modulus() == y % modulus(),
    ensures
        (a + x) % modulus() == (b + y) % modulus(),
{
    lemma_add_mod_noop(a, x, modulus());
    lemma_add_mod_noop(b, y, modulus());
}

proof fn lemma_product_cong(a: int, b: int, u: int)
    requires
        a % modulus() == b % modulus(),
    ensures
        (a * u) % modulus() == (b * u) % modulus(),
{
    lemma_mul_mod_noop_left(a, u, modulus());
    lemma_mul_mod_noop_left(b, u, modulus());
}

/// `a·u = b·u` with `u` invertible gives `a = b`, in the field.
proof fn lemma_cancel(a: int, b: int, u: int, v: int)
    requires
        (a * u) % modulus() == (b * u) % modulus(),
        (u * v) % modulus() == 1,
    ensures
        a % modulus() == b % modulus(),
{
    let m = modulus();
    lemma_product_cong(a * u, b * u, v);
    assert(a * u * v == a * (u * v)) by (nonlinear_arith);
    assert(b * u * v == b * (u * v)) by (nonlinear_arith);
    lemma_mul_mod_noop_right(a, u * v, m);
    lemma_mul_mod_noop_right(b, u * v, m);
}

/// Over powers of `tau`, a combination of the points is the polynomial's value at `tau`.
proof fn lemma_combination_is_evaluation(params: GlobalParameters, tau: int, c: Seq<int>)
    requires
        params.made_from(tau),
        c.len() <= params.gs@.len(),
    ensures
        g1_combination(params.gs@, c) % modulus() == poly_sum(c, tau) % modulus(),
    decreases c.len(),
{
    if c.len() > 0 {
        let n = c.len() - 1;
        let p = pow(tau, n as nat);
        lemma_combination_is_evaluation(params, tau, c.drop_last());
        assert(g1_log(params.gs@[n]) == p % modulus());
        lemma_mod_twice(p, modulus());
        lemma_product_cong(p % modulus(), p, c.last());
        assert(p * c.last() == c.last() * p) by (nonlinear_arith);
        lemma_sum_cong(
            g1_combination(params.gs@, c.drop_last()),
            poly_sum(c.drop_last(), tau),
            g1_log(params.gs@[n]) * c.last(),
            c.last() * p,
        );
    }
}

/// An element with a multiplicative inverse; in the scalar field, whose order is
/// prime, every element but zero.
pub open spec fn invertible(a: int) -> bool {
    exists|b: int| #[trigger] (a * b) % modulus() == 1
}

/// Round trip: once `setup` has run, a commitment to a polynomial of the reference
/// string's length, the polynomial's value at any point and the witness made for that
/// point pass the verifier.
pub proof fn lemma_round_trip(
    scheme: GenericPolynomialCommitment,
    polynomial: Polynomial,
    point: Scalar,
    commitment: G1Projective,
    evaluation: Scalar,
    witness: G1Projective,
)
    requires
        scheme.parameters() is Some,
        scheme.parameters()->0.wf(),
        scheme.parameters()->0.hs@.len() >= 2,
        polynomial.0@.len() == scheme.parameters()->0.gs@.len(),
        g1_log(commitment) == g1_combination(scheme.parameters()->0.gs@, polynomial.coeffs())
            % modulus(),
        evaluation.val() == polynomial.eval(point.val()),
        is_opening(
            scheme.parameters()->0.gs@,
            polynomial.coeffs(),
            point.val(),
            evaluation.val(),
            witness,
        ),
    ensures
        scheme.parameters()->0.accepts(commitment, point.val(), evaluation.val(), witness),
{
    let m = modulus();
    let params = scheme.parameters()->0;
    let tau = params.trapdoor();
    let c = polynomial.coeffs();
    let x = point.val();
    let y = evaluation.val();
    assert(params.made_from(tau));
    let q = choose|q: Seq<int>|
        q.len() <= params.gs@.len() && #[trigger] divides_out(c, x, y, q) && g1_log(witness)
            == g1_combination(params.gs@, q) % m;
    lemma_combination_is_evaluation(params, tau, c);
    lemma_combination_is_evaluation(params, tau, q);
    assert(g2_log(params.hs@[1]) == tau) by {
        lemma_pow1(tau);
        lemma_small_mod(tau as nat, m as nat);
    }
    assert(poly_sum(q, tau) * (tau - x) % m == (poly_sum(c, tau) - y) % m);
    lemma_mod_twice(g1_combination(params.gs@, c), m);
    lemma_sum_cong(g1_log(commitment), poly_sum(c, tau), -y, -y);
    lemma_mod_twice(g1_combination(params.gs@, q), m);
    lemma_product_cong(g1_log(witness), poly_sum(q, tau), tau - x);
}

/// Tampering: when the verifier accepts a commitment, point, value and witness, it
/// rejects them with the commitment replaced by another point, or the value by
/// another value; with the witness replaced by another point, unless the point is the
/// trapdoor; and with the point replaced by another, unless the witness is the neutral
/// point.
pub proof fn lemma_tamper_detection(
    params: GlobalParameters,
    commitment: G1Projective,
    point: int,
    evaluation: int,
    witness: G1Projective,
    other_commitment: G1Projective,
    other_point: int,
    other_evaluation: int,
    other_witness: G1Projective,
)
    requires
        params.wf(),
        params.hs@.len() >= 2,
        params.accepts(commitment, point, evaluation, witness),
    ensures
        g1_log(other_commitment) % modulus() != g1_log(commitment) % modulus() ==> !params.accepts(
            other_commitment,
            point,
            evaluation,
            witness,
        ),
        other_evaluation % modulus() != evaluation % modulus() ==> !params.accepts(
            commitment,
            point,
            other_evaluation,
            witness,
        ),
        invertible(params.trapdoor() - point) && g1_log(other_witness) % modulus() != g1_log(
            witness,
        ) % modulus() ==> !params.accepts(commitment, point, evaluation, other_witness),
        invertible(g1_log(witness)) && other_point % modulus() != point % modulus()
            ==> !params.accepts(commitment, other_point, evaluation, witness),
{
    let m = modulus();
    let tau = params.trapdoor();
    let h = g2_log(params.hs@[1]);
    assert(params.made_from(tau));
    assert(h == tau) by {
        lemma_pow1(tau);
        lemma_small_mod(tau as nat, m as nat);
    }
    if params.accepts(other_commitment, point, evaluation, witness) {
        let (a, b) = (g1_log(other_commitment), g1_log(commitment));
        lemma_sum_cong(a - evaluation, b - evaluation, evaluation, evaluation);
    }
    if params.accepts(commitment, point, other_evaluation, witness) {
        let c = g1_log(commitment);
        lemma_sum_cong(c - other_evaluation, c - evaluation, -c, -c);
        lemma_product_cong(-other_evaluation, -evaluation, -1);
    }
    if invertible(tau - point) && params.accepts(commitment, point, evaluation, other_witness) {
        let v = choose|v: int| #[trigger] ((tau - point) * v) % m == 1;
        lemma_cancel(g1_log(other_witness), g1_log(witness), tau - point, v);
    }
    if invertible(g1_log(witness)) && params.accepts(commitment, other_point, evaluation, witness) {
        let w = g1_log(witness);
        let v = choose|v: int| #[trigger] (w * v) % m == 1;
        assert(w * (h - other_point) == (h - other_point) * w) by (nonlinear_arith);
        assert(w * (h - point) == (h - point) * w) by (nonlinear_arith);
        lemma_cancel(h - other_point, h - point, w, v);
        lemma_sum_cong(h - other_point, h - point, -h, -h);
        lemma_product_cong(-other_point, -point, -1);
    }
}

} // verus!
