use poly_commit_benches::ark::curve::G1Point;
use poly_commit_benches::ark::field::{rand_u128, test_rng, Scalar};
use poly_commit_benches::ark::poly::{divide_with_q_and_r, powers, DensePolynomial};
use poly_commit_benches::ark::roots::{linear_combination, vanishing_polynomial};
use poly_commit_benches::ark::streaming_kzg::time::CommitterKey;
use poly_commit_benches::ark::streaming_kzg::{
    msm, Commitment, EvaluationProof, VerificationError, VerifierKey,
};

/// Polynomial evaluation, assuming that the
/// coefficients are in little-endian.
fn evaluate_le(polynomial: &[Scalar], x: &Scalar) -> Scalar {
    evaluate_be(polynomial.iter().rev(), x)
}

/// Polynomial evaluation, assuming that the
/// coeffients are in big-endian.
fn evaluate_be<'a, I>(polynomial: I, x: &Scalar) -> Scalar
where
    I: IntoIterator<Item = &'a Scalar>,
{
    polynomial.into_iter().fold(Scalar::zero(), |previous, c| previous.mul(x).add(c))
}

#[test]
fn test_open_multipoints_correctness() {
    let rng = &mut test_rng();
    let d = 100;

    let eval_points = (0..5).map(|_| Scalar::rand(rng)).collect::<Vec<_>>();
    let polynomials = (0..15).map(|_| DensePolynomial::rand(d, rng).coeffs).collect::<Vec<_>>();
    let evals = polynomials
        .iter()
        .map(|p| eval_points.iter().map(|e| evaluate_le(p, e)).collect::<Vec<_>>())
        .collect::<Vec<_>>();

    let time_ck = CommitterKey::new(d + 1, eval_points.len(), rng);
    let time_vk = VerifierKey::from(&time_ck);

    let time_batched_commitments = time_ck.batch_commit(&polynomials);

    let eta: Scalar = Scalar::from_u128(rand_u128(rng));

    let proof = time_ck.batch_open_multi_points(&polynomials, &eval_points, &eta);

    let verification_result = time_vk.verify_multi_points(
        &time_batched_commitments,
        &eval_points,
        &evals,
        &proof,
        &eta,
    );

    assert!(verification_result.is_ok());
}

#[test]
fn test_vanishing_polynomial() {
    let points = [Scalar::from_u64(10), Scalar::from_u64(5), Scalar::from_u64(13)];
    let zeros = vanishing_polynomial(&points);
    assert_eq!(evaluate_le(&zeros, &points[0]), Scalar::zero());
    assert_eq!(evaluate_le(&zeros, &points[1]), Scalar::zero());
    assert_eq!(evaluate_le(&zeros, &points[2]), Scalar::zero());
}

#[test]
fn test_srs() {
    let rng = &mut test_rng();
    let ck = CommitterKey::new(10, 3, rng);
    let vk = VerifierKey::from(&ck);
    // Make sure that there are enough elements for the entire array.
    assert_eq!(ck.powers_of_g.len(), 11);
    assert_eq!(ck.powers_of_g2, &vk.powers_of_g2[..]);
}

#[test]
fn test_trivial_commitment() {
    let rng = &mut test_rng();
    let ck = CommitterKey::new(10, 3, rng);
    let vk = VerifierKey::from(&ck);
    let polynomial =
        DensePolynomial::from_coefficients_slice(&[Scalar::zero(), Scalar::one(), Scalar::one()]);
    let alpha = Scalar::zero();

    let commitment = ck.commit(&polynomial.coeffs);
    let (evaluation, proof) = ck.open(&polynomial.coeffs, &alpha);
    assert_eq!(evaluation, Scalar::zero());
    assert!(vk.verify(&commitment, &alpha, &evaluation, &proof).is_ok())
}

#[test]
fn test_commitment() {
    let rng = &mut test_rng();
    let ck = CommitterKey::new(100, 3, rng);
    let vk = VerifierKey::from(&ck);
    let polynomial = DensePolynomial::rand(100, rng);
    let alpha = Scalar::zero();

    let commitment = ck.commit(&polynomial.coeffs);
    let (evaluation, proof) = ck.open(&polynomial.coeffs, &alpha);
    let expected_evaluation = polynomial.evaluate(&alpha);
    assert_eq!(evaluation, expected_evaluation);
    assert!(vk.verify(&commitment, &alpha, &evaluation, &proof).is_ok())
}

#[test]
fn test_open_multi_points() {
    let rng = &mut test_rng();
    // f = 80*x^6 + 80*x^5 + 88*x^4 + 3*x^3 + 73*x^2 + 7*x + 24
    let polynomial = [
        Scalar::from_u64(80),
        Scalar::from_u64(80),
        Scalar::from_u64(88),
        Scalar::from_u64(3),
        Scalar::from_u64(73),
        Scalar::from_u64(7),
        Scalar::from_u64(24),
    ];
    let polynomial_stream = &polynomial[..];

    let time_ck = CommitterKey::new(200, 3, rng);

    // get a random polynomial with random coefficient,
    let _polynomial: Vec<Scalar> = DensePolynomial::rand(100, rng).coeffs.to_vec();
    let beta = Scalar::rand(rng);
    let evaluation_proof_batch = time_ck.open_multi_points(&polynomial_stream, &[beta]);
    let (_, evaluation_proof_single) = time_ck.open(&polynomial_stream, &beta);
    assert_eq!(evaluation_proof_batch, evaluation_proof_single);
}

fn pdiv(f: &DensePolynomial, other: &DensePolynomial) -> (DensePolynomial, DensePolynomial) {
    let (q, r) = divide_with_q_and_r(&f.coeffs, &other.coeffs);
    (DensePolynomial { coeffs: q }, DensePolynomial { coeffs: r })
}

#[test]
fn test_single_remainder_sanity() {
    let poly = DensePolynomial::rand(50, &mut test_rng());
    let rng = &mut test_rng();
    let pts = (0..10).map(|_| Scalar::rand(rng)).collect::<Vec<_>>();
    let vp = DensePolynomial { coeffs: vanishing_polynomial(&pts) };
    for p in &pts {
        assert_eq!(vp.evaluate(&p), Scalar::zero());
    }

    let (_, rem) = pdiv(&poly, &vp);
    for p in &pts {
        assert_eq!(rem.evaluate(&p), poly.evaluate(&p));
    }
}

#[test]
fn test_sum_remainder_sanity() {
    let rng = &mut test_rng();
    let polys = (0..5).map(|_| DensePolynomial::rand(50, rng).coeffs).collect::<Vec<Vec<Scalar>>>();
    let pts = (0..10).map(|_| Scalar::rand(rng)).collect::<Vec<_>>();
    let chal = Scalar::rand(rng);
    let powers = powers(chal, polys.len());

    // Compute the remainders just by doing some aggregate math
    let vp = DensePolynomial { coeffs: vanishing_polynomial(&pts) };
    let agg_poly =
        DensePolynomial::from_coefficients_vec(linear_combination(&polys, &powers).unwrap());

    let (_, agg_rem) = pdiv(&agg_poly, &vp);

    // Now compute each of the remainders separately and aggregate
    let mut rems = Vec::new();
    for p in polys {
        let (_, remi) = pdiv(&DensePolynomial::from_coefficients_vec(p), &vp);
        rems.push(remi.coeffs);
    }
    let rems_poly = linear_combination(&rems, &powers).unwrap();

    assert_eq!(rems_poly, agg_rem.coeffs);
}

#[test]
fn singleton_openings_agree_for_random_polynomials() {
    let rng = &mut test_rng();
    let ck = CommitterKey::new(20, 3, rng);
    for d in 0..8 {
        let p = DensePolynomial::rand(d, rng);
        let beta = Scalar::rand(rng);
        let multi = ck.open_multi_points(&p.coeffs, &[beta]);
        let (value, single) = ck.open(&p.coeffs, &beta);
        assert_eq!(multi, single);
        assert_eq!(value, p.evaluate(&beta));
    }
}

#[test]
fn committer_key_holds_the_powers_of_the_secret() {
    let rng = &mut test_rng();
    let tau = Scalar::from_u64(2);
    let g = G1Point::rand(rng);
    let g2 = poly_commit_benches::ark::curve::G2Point::rand(rng);
    let ck = CommitterKey::new_from_trapdoor(4, 2, &tau, &g, &g2);
    assert_eq!(ck.powers_of_g.len(), 5);
    assert_eq!(ck.powers_of_g2.len(), 3);
    assert_eq!(ck.max_eval_points(), 2);
    assert_eq!(ck.powers_of_g[3], g.mul(&Scalar::from_u64(8)));
    assert_eq!(ck.powers_of_g2[2], g2.mul(&Scalar::from_u64(4)));
    // No more powers in the second group than secrets were computed.
    let ck = CommitterKey::new_from_trapdoor(2, 7, &tau, &g, &g2);
    assert_eq!(ck.powers_of_g2.len(), 3);
    let vk = VerifierKey::from(&ck);
    assert_eq!(vk.powers_of_g, ck.powers_of_g[..2].to_vec());
    // 3 + 5 x commits to 3 g + 5 (2 g).
    let c = ck.commit(&[Scalar::from_u64(3), Scalar::from_u64(5)]);
    assert_eq!(c, Commitment(g.mul(&Scalar::from_u64(13))));
    assert_eq!(c.size_in_bytes(), 48);
    assert_eq!(msm(&ck.powers_of_g, &[Scalar::one()]), g);
    let all = ck.batch_commit(&[vec![Scalar::one()], vec![Scalar::zero(), Scalar::one()]]);
    assert_eq!(all, vec![Commitment(g), Commitment(g.double())]);
}

#[test]
fn index_by_adds_each_power_into_its_slot() {
    let rng = &mut test_rng();
    let ck = CommitterKey::new(3, 1, rng);
    let indexed = ck.index_by(&[2, 0, 2]);
    assert_eq!(indexed.powers_of_g2, ck.powers_of_g2);
    assert_eq!(indexed.powers_of_g.len(), 4);
    assert_eq!(indexed.powers_of_g[0], ck.powers_of_g[1]);
    assert_eq!(indexed.powers_of_g[1], G1Point::identity());
    assert_eq!(indexed.powers_of_g[2], ck.powers_of_g[0].add(&ck.powers_of_g[2]));
    assert_eq!(indexed.powers_of_g[3], G1Point::identity());
}

#[test]
fn openings_with_wrong_values_are_rejected() {
    let rng = &mut test_rng();
    let ck = CommitterKey::new(10, 3, rng);
    let vk = VerifierKey::from(&ck);
    let p = DensePolynomial::rand(8, rng).coeffs;
    let alpha = Scalar::rand(rng);
    let commitment = ck.commit(&p);
    let (evaluation, proof) = ck.open(&p, &alpha);
    assert_eq!(vk.verify(&commitment, &alpha, &evaluation, &proof), Ok(()));
    let wrong = evaluation.add(&Scalar::one());
    assert_eq!(vk.verify(&commitment, &alpha, &wrong, &proof), Err(VerificationError));
    assert_eq!(VerificationError.message(), "Error in stream.");

    let points = vec![Scalar::from_u64(1), Scalar::from_u64(2), Scalar::from_u64(3)];
    let polys = vec![p.clone(), DensePolynomial::rand(5, rng).coeffs];
    let evals = polys
        .iter()
        .map(|q| points.iter().map(|x| evaluate_le(q, x)).collect::<Vec<_>>())
        .collect::<Vec<_>>();
    let comms = ck.batch_commit(&polys);
    let eta = Scalar::rand(rng);
    let proof = ck.batch_open_multi_points(&polys, &points, &eta);
    assert_eq!(vk.verify_multi_points(&comms, &points, &evals, &proof, &eta), Ok(()));
    let mut bad = evals.clone();
    bad[1][2] = bad[1][2].add(&Scalar::one());
    assert_eq!(vk.verify_multi_points(&comms, &points, &bad, &proof, &eta), Err(VerificationError));
    // No evaluations, or a point given twice: rejected.
    assert_eq!(vk.verify_multi_points(&comms, &points, &[], &proof, &eta), Err(VerificationError));
    let twice = vec![Scalar::from_u64(1), Scalar::from_u64(2), Scalar::from_u64(1)];
    assert_eq!(vk.verify_multi_points(&comms, &twice, &evals, &proof, &eta), Err(VerificationError));
    // No polynomial: the zero polynomial is opened.
    let none = ck.batch_open_multi_points(&[], &points, &eta);
    assert_eq!(none, EvaluationProof(G1Point::identity()));
}

#[test]
fn proofs_add_up() {
    let rng = &mut test_rng();
    let a = EvaluationProof(G1Point::rand(rng));
    let b = EvaluationProof(G1Point::rand(rng));
    assert_eq!(a.add(b), EvaluationProof(a.0.add(&b.0)));
    assert_eq!(EvaluationProof::sum(&[a, b, a]), EvaluationProof(a.0.double().add(&b.0)));
    assert_eq!(EvaluationProof::sum(&[]), EvaluationProof(G1Point::identity()));
}
