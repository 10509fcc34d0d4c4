use poly_commit_benches::ark::field::{test_rng, Scalar};
use poly_commit_benches::ark::kzg_multiproof::{
    curve_msm, gen_powers, lagrange_interp, method1, method2, poly_div_q_r, Error,
};
use poly_commit_benches::ark::kzg_multiproof::method2::Setup;
use poly_commit_benches::ark::poly::{evaluate, DensePolynomial};

#[test]
fn test_basic_open_works() {
    let rng = &mut test_rng();
    let s = Setup::new(256, 32, rng);
    let points = (0..30).map(|_| Scalar::rand(rng)).collect::<Vec<_>>();
    let polys = (0..20).map(|_| DensePolynomial::rand(50, rng)).collect::<Vec<_>>();
    let evals: Vec<Vec<_>> =
        polys.iter().map(|p| points.iter().map(|x| p.evaluate(x)).collect()).collect();
    let coeffs = polys.iter().map(|p| p.coeffs.clone()).collect::<Vec<_>>();
    let commits = coeffs.iter().map(|p| s.commit(p).expect("Commit failed")).collect::<Vec<_>>();
    let challenge1 = Scalar::rand(rng);
    let challenge2 = Scalar::rand(rng);
    let open = s.open(&coeffs, &points, challenge1, challenge2).expect("Open failed");
    assert_eq!(Ok(true), s.verify(&commits, &points, &evals, &open, challenge1, challenge2));
}

fn random_instance(
    n_pts: usize,
    n_poly: usize,
    d: usize,
) -> (Vec<Vec<Scalar>>, Vec<Scalar>, Vec<Vec<Scalar>>) {
    let rng = &mut test_rng();
    let polys = (0..n_poly).map(|_| DensePolynomial::rand(d, rng).coeffs).collect::<Vec<_>>();
    let points = (0..n_pts).map(|_| Scalar::rand(rng)).collect::<Vec<_>>();
    let evals = polys
        .iter()
        .map(|p| points.iter().map(|x| evaluate(p, x)).collect::<Vec<_>>())
        .collect::<Vec<_>>();
    (polys, points, evals)
}

fn method1_works(n_pts: usize, n_poly: usize) {
    let rng = &mut test_rng();
    let s = method1::Setup::new(64, n_pts, rng);
    let (polys, points, evals) = random_instance(n_pts, n_poly, 64);
    let commits = polys.iter().map(|p| s.commit(p).unwrap()).collect::<Vec<_>>();
    let chal = Scalar::rand(rng);
    let proof = s.open(&polys, &points, chal).unwrap();
    assert_eq!(s.verify(&commits, &points, &evals, &proof, chal), Ok(true));
    let mut bad = evals.clone();
    bad[0][0] = bad[0][0].add(&Scalar::one());
    assert_eq!(s.verify(&commits, &points, &bad, &proof, chal), Ok(false));
}

fn method2_works(n_pts: usize, n_poly: usize) {
    let rng = &mut test_rng();
    let s = method2::Setup::new(64, n_pts, rng);
    let (polys, points, evals) = random_instance(n_pts, n_poly, 64);
    let commits = polys.iter().map(|p| s.commit(p).unwrap()).collect::<Vec<_>>();
    let chal1 = Scalar::rand(rng);
    let chal2 = Scalar::rand(rng);
    let proof = s.open(&polys, &points, chal1, chal2).unwrap();
    assert_eq!(s.verify(&commits, &points, &evals, &proof, chal1, chal2), Ok(true));
    let mut bad = evals.clone();
    bad[0][0] = bad[0][0].add(&Scalar::one());
    assert_eq!(s.verify(&commits, &points, &bad, &proof, chal1, chal2), Ok(false));
}

#[test]
fn method1_opens_and_verifies() {
    method1_works(5, 5);
    method1_works(1, 1);
    method1_works(1, 5);
    method1_works(5, 1);
}

#[test]
fn method2_opens_and_verifies() {
    method2_works(5, 5);
    method2_works(1, 1);
    method2_works(1, 5);
    method2_works(5, 1);
}

#[test]
fn structural_errors_are_reported() {
    let rng = &mut test_rng();
    let s1 = method1::Setup::new(4, 2, rng);
    let s2 = method2::Setup::new(4, 2, rng);
    let points = vec![Scalar::from_u64(1), Scalar::from_u64(2)];
    let chal = Scalar::from_u64(3);
    let z = Scalar::from_u64(11);
    let none: Vec<Vec<Scalar>> = Vec::new();

    assert_eq!(s1.open(&none, &points, chal), Err(Error::NoPolynomialsGiven));
    assert_eq!(s2.open(&none, &points, chal, z), Err(Error::NoPolynomialsGiven));

    let long = vec![Scalar::one(); 6];
    let too_large = Error::PolynomialTooLarge { n_coeffs: 6, expected_max: 5 };
    assert_eq!(s1.commit(&long), Err(too_large));
    assert_eq!(s2.commit(&long), Err(too_large));
    assert_eq!(curve_msm(&s1.powers_of_g1, &long), Err(too_large));

    // Polynomials of degree 8 divided by two points leave a quotient of
    // degree 6, with more coefficients than the setup has powers.
    let (polys, _, evals) = random_instance(2, 1, 8);
    assert_eq!(
        s1.open(&polys, &points, chal),
        Err(Error::PolynomialTooLarge { n_coeffs: 7, expected_max: 5 })
    );
    assert_eq!(
        s2.open(&polys, &points, chal, z),
        Err(Error::PolynomialTooLarge { n_coeffs: 7, expected_max: 5 })
    );

    let p1 = method1::Proof(s1.powers_of_g1[0]);
    let p2 = method2::Proof(s2.powers_of_g1[0], s2.powers_of_g1[1]);
    assert_eq!(s1.verify(&[], &points, &none, &p1, chal), Err(Error::NoPolynomialsGiven));
    assert_eq!(s2.verify(&[], &points, &none, &p2, chal, z), Err(Error::NoPolynomialsGiven));

    let twice = vec![Scalar::from_u64(1), Scalar::from_u64(1)];
    assert_eq!(s1.verify(&[], &twice, &evals, &p1, chal), Err(Error::RepeatedPoint));
    assert_eq!(s2.verify(&[], &twice, &evals, &p2, chal, z), Err(Error::RepeatedPoint));

    let many = vec![Scalar::from_u64(1), Scalar::from_u64(2), Scalar::from_u64(3)];
    assert_eq!(
        s1.verify(&[], &many, &evals, &p1, chal),
        Err(Error::TooManyPoints { n_points: 3, expected_max: 2 })
    );

    // More values than commitments.
    assert_eq!(
        s1.verify(&[], &points, &evals, &p1, chal),
        Err(Error::PolynomialTooLarge { n_coeffs: 1, expected_max: 0 })
    );
    assert_eq!(
        s2.verify(&[], &points, &evals, &p2, chal, z),
        Err(Error::PolynomialTooLarge { n_coeffs: 1, expected_max: 0 })
    );

    assert_eq!(poly_div_q_r(&long, &vec![]), Err(Error::DivisorIsZero));
    assert_eq!(
        poly_div_q_r(&vec![Scalar::from_u64(5), Scalar::from_u64(2)], &vec![Scalar::from_u64(2)]),
        Ok((vec![Scalar::from_u64(5).mul(&Scalar::from_u64(2).inverse().unwrap()), Scalar::one()], vec![]))
    );
}

#[test]
fn helpers_compute_powers_and_interpolants() {
    assert_eq!(
        gen_powers(Scalar::from_u64(3), 4),
        vec![Scalar::one(), Scalar::from_u64(3), Scalar::from_u64(9), Scalar::from_u64(27)]
    );
    assert_eq!(gen_powers(Scalar::from_u64(3), 0), vec![]);
    // The values of 1 + x^2 and of 2 x at 0, 1, 2.
    let points = vec![Scalar::from_u64(0), Scalar::from_u64(1), Scalar::from_u64(2)];
    let evals = vec![
        vec![Scalar::from_u64(1), Scalar::from_u64(2), Scalar::from_u64(5)],
        vec![Scalar::from_u64(0), Scalar::from_u64(2), Scalar::from_u64(4)],
    ];
    let r = lagrange_interp(&evals, &points).unwrap();
    assert_eq!(r[0], vec![Scalar::one(), Scalar::zero(), Scalar::one()]);
    assert_eq!(r[1], vec![Scalar::zero(), Scalar::from_u64(2)]);
    let twice = vec![Scalar::from_u64(1), Scalar::from_u64(1)];
    assert_eq!(lagrange_interp(&evals, &twice), None);
    assert_eq!(lagrange_interp(&[], &twice), Some(vec![]));
}

#[test]
fn a_setup_for_no_points_has_one_power_in_the_second_group() {
    let rng = &mut test_rng();
    let s = Setup::new(4, 0, rng);
    assert_eq!(s.powers_of_g1.len(), 5);
    assert_eq!(s.powers_of_g2.len(), 1);
    let x = Scalar::from_u64(3);
    let g1 = poly_commit_benches::ark::curve::G1Point::rand(rng);
    let g2 = poly_commit_benches::ark::curve::G2Point::rand(rng);
    let s = Setup::new_from_trapdoor(4, 0, &x, &g1, &g2);
    assert_eq!(s.powers_of_g1[2], g1.mul(&Scalar::from_u64(9)));
    assert_eq!(s.powers_of_g2, vec![g2]);
    let poly = vec![Scalar::from_u64(1), Scalar::from_u64(2)];
    assert!(s.commit(&poly).is_ok());
}
