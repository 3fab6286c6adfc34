use blstrs::G1Projective;
use group::Group;
use kzg::curve::Scalar;
use kzg::polynomial_commitments::{Error, GenericPolynomialCommitment, PolynomialCommitment};
use kzg::polynomials::Polynomial;

#[test]
fn setup() {
    let mut polynomial_committer = GenericPolynomialCommitment::new();
    let gp = polynomial_committer.setup(5);
    assert_eq!(gp.gs.len(), 5);
}

#[test]
fn errs_on_incorrect_polynomial_degree() {
    let small_polynomial = Polynomial::new_from_bytes(&[1, 2, 3]);
    let large_polynomial = Polynomial::new_from_bytes(&[1; 420]);

    let mut polynomial_committer = GenericPolynomialCommitment::new();

    let max_degree = 25;
    polynomial_committer.setup(max_degree);

    let too_small_commitment = polynomial_committer.commit(&small_polynomial);
    let too_large_commitment = polynomial_committer.commit(&large_polynomial);
    assert_eq!(too_small_commitment, Err(Error::IncorrectDegree));
    assert_eq!(too_large_commitment, Err(Error::IncorrectDegree));
}

#[test]
fn adjusts_polynomial_of_different_size_to_correct_degree() {
    let mut small_polynomial = Polynomial::new_from_bytes(&[1, 2, 3]);
    let mut large_polynomial = Polynomial::new_from_bytes(&[1; 420]);

    let mut polynomial_committer = GenericPolynomialCommitment::new();

    let max_degree = 25;
    polynomial_committer.setup(max_degree);

    let too_small_polynomial_then_adjusted = small_polynomial.adjust_to_degree(max_degree);
    let too_large_polynomial_then_adjusted = large_polynomial.adjust_to_degree(max_degree);

    let too_small_commitment = polynomial_committer.commit(too_small_polynomial_then_adjusted);
    let too_large_commitment = polynomial_committer.commit(too_large_polynomial_then_adjusted);

    assert!(too_small_commitment.is_ok());
    assert!(too_large_commitment.is_ok());
}

#[test]
fn polynomial_commitment() {
    let mut polynomial = Polynomial::new_from_bytes(&[1, 2, 3]);
    let mut polynomial_committer = GenericPolynomialCommitment::new();
    let max_degree = 25;

    polynomial_committer.setup(max_degree);

    // Get degree of polynomial commitment, and pad accordingly
    polynomial.adjust_to_degree(max_degree);

    let commitment = polynomial_committer.commit(&polynomial);

    assert!(commitment.is_ok());
}

#[test]
fn creates_and_verifies_witness_polynomial_evaluation() {
    let mut polynomial_committer = GenericPolynomialCommitment::new();
    polynomial_committer.setup(3);

    let polynomial = Polynomial::new_from_bytes(&[1, 2, 3]);
    let point = Scalar::from(5);

    let commitment = polynomial_committer.commit(&polynomial);
    let (witness, evaluation) = polynomial_committer.create_witness(polynomial, point);
    let result =
        polynomial_committer.verify_evaluation(commitment.unwrap(), point, evaluation, witness);

    assert!(result);
}

#[test]
fn commit_before_setup_is_refused() {
    let polynomial_committer = GenericPolynomialCommitment::new();
    let polynomial = Polynomial::new_from_bytes(&[1, 2, 3]);
    assert_eq!(polynomial_committer.commit(&polynomial), Err(Error::SetupIncomplete));
}

#[test]
fn setup_gives_both_sequences_the_asked_length() {
    let mut polynomial_committer = GenericPolynomialCommitment::new();
    let gp = polynomial_committer.setup(7);
    assert_eq!(gp.gs.len(), 7);
    assert_eq!(gp.hs.len(), 7);
    let empty = polynomial_committer.setup(0);
    assert_eq!(empty.gs.len(), 0);
    assert_eq!(empty.hs.len(), 0);
}

#[test]
fn setup_again_replaces_the_reference_string() {
    let mut polynomial_committer = GenericPolynomialCommitment::new();
    polynomial_committer.setup(3);
    polynomial_committer.setup(4);
    let polynomial = Polynomial::new_from_bytes(&[1, 2, 3, 4]);
    assert!(polynomial_committer.commit(&polynomial).is_ok());
    let short = Polynomial::new_from_bytes(&[1, 2, 3]);
    assert_eq!(polynomial_committer.commit(&short), Err(Error::IncorrectDegree));
}

#[test]
fn empty_reference_string_commits_empty_polynomial_to_identity() {
    let mut polynomial_committer = GenericPolynomialCommitment::new();
    polynomial_committer.setup(0);
    let commitment = polynomial_committer.commit(&Polynomial::new(&[])).unwrap();
    assert_eq!(commitment, G1Projective::generator() * blstrs::Scalar::from(0_u64));
}

#[test]
fn commitment_is_first_point_times_constant() {
    let mut polynomial_committer = GenericPolynomialCommitment::new();
    let gp = polynomial_committer.setup(2);
    assert_eq!(gp.gs[0], G1Projective::generator());
    let polynomial = Polynomial::new_from_bytes(&[9, 0]);
    let commitment = polynomial_committer.commit(&polynomial).unwrap();
    assert_eq!(commitment, G1Projective::generator() * blstrs::Scalar::from(9_u64));
}

fn opened(degree: usize, bytes: &[u8], x: u64) -> (GenericPolynomialCommitment, G1Projective, Scalar, Scalar, G1Projective) {
    let mut polynomial_committer = GenericPolynomialCommitment::new();
    polynomial_committer.setup(degree);
    let mut polynomial = Polynomial::new_from_bytes(bytes);
    polynomial.adjust_to_degree(degree);
    let point = Scalar::from(x);
    let commitment = polynomial_committer.commit(&polynomial).unwrap();
    let expected = polynomial.evaluate(point);
    let (witness, evaluation) = polynomial_committer.create_witness(polynomial, point);
    assert_eq!(evaluation, expected);
    (polynomial_committer, commitment, point, evaluation, witness)
}

#[test]
fn round_trip_verifies_after_padding() {
    let (committer, commitment, point, evaluation, witness) = opened(25, &[1, 2, 3], 11);
    assert!(committer.verify_evaluation(commitment, point, evaluation, witness));
}

#[test]
fn round_trip_verifies_at_zero() {
    let (committer, commitment, point, evaluation, witness) = opened(6, &[4, 4, 4, 4, 4, 4], 0);
    assert!(committer.verify_evaluation(commitment, point, evaluation, witness));
}

#[test]
fn tampered_commitment_is_rejected() {
    let (committer, commitment, point, evaluation, witness) = opened(8, &[1, 2, 3], 5);
    let other = commitment + G1Projective::generator();
    assert!(!committer.verify_evaluation(other, point, evaluation, witness));
}

#[test]
fn tampered_point_is_rejected() {
    let (committer, commitment, _point, evaluation, witness) = opened(8, &[1, 2, 3], 5);
    assert!(!committer.verify_evaluation(commitment, Scalar::from(6), evaluation, witness));
}

#[test]
fn tampered_evaluation_is_rejected() {
    let (committer, commitment, point, evaluation, witness) = opened(8, &[1, 2, 3], 5);
    let other = Polynomial::new(&[evaluation, Scalar::from(1)]).evaluate(Scalar::from(1));
    assert!(!committer.verify_evaluation(commitment, point, other, witness));
}

#[test]
fn tampered_witness_is_rejected() {
    let (committer, commitment, point, evaluation, witness) = opened(8, &[1, 2, 3], 5);
    let other = witness + G1Projective::generator();
    assert!(!committer.verify_evaluation(commitment, point, evaluation, other));
}
