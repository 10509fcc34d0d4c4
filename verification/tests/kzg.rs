use poly_commit_benches::ark::curve::G1Point;
use poly_commit_benches::ark::domain::Radix2EvaluationDomain;
use poly_commit_benches::ark::field::{rand_index, test_rng, Scalar};
use poly_commit_benches::ark::kzg::{
    contains_bound, skip_leading_zeros, Commitment, Error, LabeledPolynomial, PreparedCommitment,
    Proof, KZG10,
};
use poly_commit_benches::ark::poly::{scale, DensePolynomial};

#[test]
fn add_commitments_test() {
    let rng = &mut test_rng();
    let p = DensePolynomial::from_coefficients_slice(&[
        Scalar::rand(rng),
        Scalar::rand(rng),
        Scalar::rand(rng),
        Scalar::rand(rng),
        Scalar::rand(rng),
    ]);
    let f = Scalar::rand(rng);
    let f_p = DensePolynomial::from_coefficients_vec(scale(&p.coeffs, &f));

    let degree = 4;
    let pp = KZG10::setup(degree, false, rng).unwrap();
    let (powers, _) = KZG10::trim(&pp, degree).unwrap();

    let comm = KZG10::commit(&powers, &p).unwrap();
    let f_comm = KZG10::commit(&powers, &f_p).unwrap();
    let mut f_comm_2 = Commitment::empty();
    f_comm_2.add_assign(&f, &comm);

    assert_eq!(f_comm, f_comm_2);
}

fn end_to_end_test_template() -> Result<(), Error> {
    let rng = &mut test_rng();
    for _ in 0..100 {
        let mut degree = 0;
        while degree <= 1 {
            degree = rand_index(rng, 20);
        }
        let pp = KZG10::setup(degree, false, rng)?;
        let (ck, vk) = KZG10::trim(&pp, degree)?;
        let p = DensePolynomial::rand(degree, rng);
        let comm = KZG10::commit(&ck, &p)?;
        let point = Scalar::rand(rng);
        let value = p.evaluate(&point);
        let proof = KZG10::open(&ck, &p, point)?;
        assert!(
            KZG10::check(&vk, &comm, point, value, &proof)?,
            "proof was incorrect for max_degree = {}, polynomial_degree = {}",
            degree,
            p.degree(),
        );
    }
    Ok(())
}

fn linear_polynomial_test_template() -> Result<(), Error> {
    let rng = &mut test_rng();
    for _ in 0..100 {
        let degree = 50;
        let pp = KZG10::setup(degree, false, rng)?;
        let (ck, vk) = KZG10::trim(&pp, 2)?;
        let p = DensePolynomial::rand(1, rng);
        let comm = KZG10::commit(&ck, &p)?;
        let point = Scalar::rand(rng);
        let value = p.evaluate(&point);
        let proof = KZG10::open(&ck, &p, point)?;
        assert!(
            KZG10::check(&vk, &comm, point, value, &proof)?,
            "proof was incorrect for max_degree = {}, polynomial_degree = {}",
            degree,
            p.degree(),
        );
    }
    Ok(())
}

fn batch_check_test_template() -> Result<(), Error> {
    let rng = &mut test_rng();
    for _ in 0..10 {
        let mut degree = 0;
        while degree <= 1 {
            degree = rand_index(rng, 20);
        }
        let pp = KZG10::setup(degree, false, rng)?;
        let (ck, vk) = KZG10::trim(&pp, degree)?;
        let mut comms = Vec::new();
        let mut values = Vec::new();
        let mut points = Vec::new();
        let mut proofs = Vec::new();
        for _ in 0..10 {
            let p = DensePolynomial::rand(degree, rng);
            let comm = KZG10::commit(&ck, &p)?;
            let point = Scalar::rand(rng);
            let value = p.evaluate(&point);
            let proof = KZG10::open(&ck, &p, point)?;

            assert!(KZG10::check(&vk, &comm, point, value, &proof)?);
            comms.push(comm);
            values.push(value);
            points.push(point);
            proofs.push(proof);
        }
        assert!(KZG10::batch_check(&vk, &comms, &points, &values, &proofs, rng)?);
    }
    Ok(())
}

#[test]
fn end_to_end_test() {
    end_to_end_test_template().expect("test failed for bls12-381");
}

#[test]
fn linear_polynomial_test() {
    linear_polynomial_test_template().expect("test failed for bls12-381");
}

#[test]
fn batch_check_test() {
    batch_check_test_template().expect("test failed for bls12-381");
}

#[test]
fn test_degree_is_too_large() {
    let rng = &mut test_rng();

    let max_degree = 123;
    let pp = KZG10::setup(max_degree, false, rng).unwrap();
    let (powers, _) = KZG10::trim(&pp, max_degree).unwrap();

    let p = DensePolynomial::rand(max_degree + 1, rng);
    assert!(p.degree() > max_degree);
    assert!(KZG10::check_degree_is_too_large(p.degree(), powers.size()).is_err());
}

#[test]
fn commit_linear_extension() {
    const N: usize = 4;
    let rng = &mut test_rng();

    let max_degree = N - 1; // Length 4 poly
    let pp = KZG10::setup(max_degree, false, rng).unwrap();
    let (powers, vk) = KZG10::trim(&pp, max_degree).unwrap();
    let domain_n = Radix2EvaluationDomain::new(N).expect("Failed to make N domain");
    let domain_2n = Radix2EvaluationDomain::new(2 * N).expect("Failed to make 2N domain");

    let mut grid = vec![vec![Scalar::zero(); N]; N];
    for i in 0..4 {
        for j in 0..4 {
            grid[i][j] = Scalar::rand(rng);
        }
    }
    // commit along rows before extending
    let mut commits = Vec::new();
    let mut col0_opens = Vec::new();
    for row in grid.iter() {
        let mut coeffs = row.clone();
        domain_n.ifft_in_place(&mut coeffs);
        let poly = DensePolynomial::from_coefficients_vec(coeffs);
        commits.push(KZG10::commit(&powers, &poly).expect("Failed to commit to poly").0);
        col0_opens.push(KZG10::open(&powers, &poly, domain_n.element(0)).expect("Failed to open").w);
    }

    // Extend grid elements column wise
    let mut extended_grid = vec![vec![Scalar::zero(); N]; 2 * N];
    for j in 0..N {
        let mut col_evals = (0..N).map(|i| grid[i][j].clone()).collect::<Vec<_>>();
        domain_n.ifft_in_place(&mut col_evals);
        domain_2n.fft_in_place(&mut col_evals);
        assert_eq!(col_evals.len(), 2 * N);
        for i in 0..(2 * N) {
            extended_grid[i][j] = col_evals[i];
        }
    }

    // Extend commitments
    domain_n.ifft_in_place_g1(&mut commits);
    domain_2n.fft_in_place_g1(&mut commits);

    // Extend openings
    domain_n.ifft_in_place_g1(&mut col0_opens);
    domain_2n.fft_in_place_g1(&mut col0_opens);

    // Check commitments
    for i in 0..extended_grid.len() {
        let mut coeffs = extended_grid[i].clone();
        domain_n.ifft_in_place(&mut coeffs);
        let res_commit = KZG10::commit(&powers, &DensePolynomial::from_coefficients_vec(coeffs))
            .expect("Failed commit");
        assert_eq!(res_commit.0, commits[i]);
        assert!(KZG10::check(
            &vk,
            &res_commit,
            domain_n.element(0),
            extended_grid[i][0],
            &Proof { w: col0_opens[i] },
        )
        .expect("Failed to check"));
    }
}

#[test]
fn setup_rejects_degree_zero() {
    let rng = &mut test_rng();
    assert_eq!(KZG10::setup(0, false, rng).err(), Some(Error::DegreeIsZero));
    let beta = Scalar::from_u64(5);
    let g = G1Point::rand(rng);
    let h = poly_commit_benches::ark::curve::G2Point::rand(rng);
    assert_eq!(KZG10::setup_from_trapdoor(0, &beta, &g, &g, &h).err(), Some(Error::DegreeIsZero));
}

#[test]
fn setup_holds_the_powers_of_the_secret() {
    let rng = &mut test_rng();
    let beta = Scalar::from_u64(3);
    let g = G1Point::rand(rng);
    let gamma_g = G1Point::rand(rng);
    let h = poly_commit_benches::ark::curve::G2Point::rand(rng);
    let pp = KZG10::setup_from_trapdoor(4, &beta, &g, &gamma_g, &h).unwrap();
    assert_eq!(pp.max_degree(), 4);
    assert_eq!(pp.powers_of_g.len(), 5);
    assert_eq!(pp.powers_of_gamma_g.len(), 6);
    assert_eq!(pp.powers_of_g[0], g);
    assert_eq!(pp.powers_of_g[1], g.mul(&Scalar::from_u64(3)));
    assert_eq!(pp.powers_of_g[4], g.mul(&Scalar::from_u64(81)));
    assert_eq!(pp.powers_of_gamma_g.keys().copied().collect::<Vec<usize>>(), vec![0, 1, 2, 3, 4, 5]);
    assert_eq!(pp.powers_of_gamma_g[&0], gamma_g);
    assert_eq!(pp.powers_of_gamma_g[&4], gamma_g.mul(&Scalar::from_u64(81)));
    assert_eq!(pp.powers_of_gamma_g[&5], gamma_g.mul(&Scalar::from_u64(243)));
    assert_eq!(pp.h, h);
    assert_eq!(pp.beta_h, h.mul(&beta));
    assert_eq!(pp.prepared_h, h);
    assert_eq!(pp.prepared_beta_h, h.mul(&beta));
}

#[test]
fn trim_keeps_a_prefix_and_counts_one_as_two() {
    let rng = &mut test_rng();
    let pp = KZG10::setup(8, false, rng).unwrap();
    let (powers, vk) = KZG10::trim(&pp, 1).unwrap();
    assert_eq!(powers.size(), 3);
    assert_eq!(powers.powers_of_g[..], pp.powers_of_g[..3]);
    let hiding: Vec<G1Point> = (0..3).map(|i| pp.powers_of_gamma_g[&i]).collect();
    assert_eq!(powers.powers_of_gamma_g, hiding);
    assert_eq!(vk.g, pp.powers_of_g[0]);
    assert_eq!(vk.gamma_g, pp.powers_of_gamma_g[&0]);
    assert_eq!(vk.h, pp.h);
    assert_eq!(vk.beta_h, pp.beta_h);
    assert_eq!(vk.prepared_h, pp.prepared_h);
    assert_eq!(vk.prepared_beta_h, pp.prepared_beta_h);
    let (powers, _) = KZG10::trim(&pp, 5).unwrap();
    assert_eq!(powers.size(), 6);
    let (powers, _) = KZG10::trim(&pp, 0).unwrap();
    assert_eq!(powers.size(), 1);
}

#[test]
fn commit_rejects_a_degree_beyond_the_key() {
    let rng = &mut test_rng();
    let pp = KZG10::setup(8, false, rng).unwrap();
    let (powers, _) = KZG10::trim(&pp, 4).unwrap();
    let mut coeffs = vec![Scalar::zero(); 7];
    coeffs[6] = Scalar::one();
    let p = DensePolynomial::from_coefficients_vec(coeffs);
    let expected = Error::TooManyCoefficients { num_coefficients: 7, num_powers: 5 };
    assert_eq!(KZG10::commit(&powers, &p).err(), Some(expected.clone()));
    assert_eq!(KZG10::open(&powers, &p, Scalar::from_u64(2)).err(), Some(expected.clone()));
    assert_eq!(KZG10::open_with_witness_polynomial(&powers, &p).err(), Some(expected.clone()));
    assert_eq!(KZG10::check_degree_is_too_large(6, 5).err(), Some(expected));
    assert_eq!(KZG10::check_degree_is_too_large(4, 5), Ok(()));
    // A polynomial that just fits is committed to.
    let p = DensePolynomial::rand(4, rng);
    assert!(KZG10::commit(&powers, &p).is_ok());
}

#[test]
fn commitment_is_the_sum_of_the_powers_times_the_coefficients() {
    let rng = &mut test_rng();
    let pp = KZG10::setup(4, false, rng).unwrap();
    let (powers, _) = KZG10::trim(&pp, 4).unwrap();
    // 0 + 0 x + 3 x^2 + 5 x^3: the leading zeros are skipped.
    let p = DensePolynomial::from_coefficients_slice(&[
        Scalar::zero(),
        Scalar::zero(),
        Scalar::from_u64(3),
        Scalar::from_u64(5),
    ]);
    let (n, rest) = skip_leading_zeros(&p.coeffs);
    assert_eq!(n, 2);
    assert_eq!(rest, vec![Scalar::from_u64(3), Scalar::from_u64(5)]);
    let expected = powers.powers_of_g[2]
        .mul(&Scalar::from_u64(3))
        .add(&powers.powers_of_g[3].mul(&Scalar::from_u64(5)));
    assert_eq!(KZG10::commit(&powers, &p).unwrap().0, expected);
    // The zero polynomial commits to the neutral element.
    assert_eq!(KZG10::commit(&powers, &DensePolynomial::zero()).unwrap(), Commitment::empty());
    assert_eq!(Commitment::empty().0, G1Point::identity());
}

#[test]
fn witness_polynomial_is_the_quotient_by_the_linear_factor() {
    // p = 24 + 7 x + 73 x^2 + 3 x^3, z = 2: p = (x - 2)(3 x^2 + 79 x + 165) + 354
    let p = DensePolynomial::from_coefficients_slice(&[
        Scalar::from_u64(24),
        Scalar::from_u64(7),
        Scalar::from_u64(73),
        Scalar::from_u64(3),
    ]);
    let w = KZG10::compute_witness_polynomial(&p, Scalar::from_u64(2)).unwrap();
    assert_eq!(w.coeffs, vec![Scalar::from_u64(165), Scalar::from_u64(79), Scalar::from_u64(3)]);
    assert_eq!(p.evaluate(&Scalar::from_u64(2)), Scalar::from_u64(354));
    // A constant has the zero polynomial as its witness.
    let c = DensePolynomial::from_coefficients_slice(&[Scalar::from_u64(9)]);
    assert!(KZG10::compute_witness_polynomial(&c, Scalar::from_u64(2)).unwrap().is_zero());
}

#[test]
fn check_fails_after_any_one_change() {
    let rng = &mut test_rng();
    let pp = KZG10::setup(10, false, rng).unwrap();
    let (ck, vk) = KZG10::trim(&pp, 10).unwrap();
    let p = DensePolynomial::rand(10, rng);
    let comm = KZG10::commit(&ck, &p).unwrap();
    let point = Scalar::rand(rng);
    let value = p.evaluate(&point);
    let proof = KZG10::open(&ck, &p, point).unwrap();
    assert_eq!(KZG10::check(&vk, &comm, point, value, &proof), Ok(true));

    let other_comm = Commitment(comm.0.add(&vk.g));
    assert_eq!(KZG10::check(&vk, &other_comm, point, value, &proof), Ok(false));
    let other_proof = Proof { w: proof.w.double() };
    assert_eq!(KZG10::check(&vk, &comm, point, value, &other_proof), Ok(false));
    let other_value = value.add(&Scalar::one());
    assert_eq!(KZG10::check(&vk, &comm, point, other_value, &proof), Ok(false));
    let other_point = point.add(&Scalar::one());
    assert_eq!(KZG10::check(&vk, &comm, other_point, value, &proof), Ok(false));
}

#[test]
fn batch_check_fails_on_one_corrupted_opening() {
    let rng = &mut test_rng();
    let pp = KZG10::setup(6, false, rng).unwrap();
    let (ck, vk) = KZG10::trim(&pp, 6).unwrap();
    let mut comms = Vec::new();
    let mut values = Vec::new();
    let mut points = Vec::new();
    let mut proofs = Vec::new();
    for _ in 0..5 {
        let p = DensePolynomial::rand(6, rng);
        let point = Scalar::rand(rng);
        comms.push(KZG10::commit(&ck, &p).unwrap());
        values.push(p.evaluate(&point));
        proofs.push(KZG10::open(&ck, &p, point).unwrap());
        points.push(point);
    }
    assert_eq!(KZG10::batch_check(&vk, &comms, &points, &values, &proofs, rng), Ok(true));
    for k in 0..5 {
        let mut bad = values.clone();
        bad[k] = bad[k].add(&Scalar::one());
        assert_eq!(KZG10::batch_check(&vk, &comms, &points, &bad, &proofs, rng), Ok(false));
        assert_eq!(KZG10::check(&vk, &comms[k], points[k], bad[k], &proofs[k]), Ok(false));
    }
    // With all randomizers one, the batch is the plain sum of the openings.
    let ones = vec![Scalar::one(); 5];
    assert_eq!(
        KZG10::batch_check_with_randomizers(&vk, &comms, &points, &values, &proofs, &ones),
        Ok(true)
    );
    // The empty batch holds.
    assert_eq!(KZG10::batch_check(&vk, &[], &[], &[], &[], rng), Ok(true));
}

#[test]
fn degree_bounds_are_checked() {
    let p = LabeledPolynomial {
        label: "Test".to_string(),
        polynomial: DensePolynomial::from_coefficients_slice(&[
            Scalar::one(),
            Scalar::one(),
            Scalar::one(),
        ]),
        degree_bound: Some(4),
    };
    let bounds = [2usize, 4, 8];
    assert_eq!(KZG10::check_degrees_and_bounds(10, 10, Some(&bounds), &p), Ok(()));
    assert_eq!(
        KZG10::check_degrees_and_bounds(10, 10, None, &p),
        Err(Error::UnsupportedDegreeBound(4))
    );
    assert_eq!(
        KZG10::check_degrees_and_bounds(10, 10, Some(&[2, 8]), &p),
        Err(Error::UnsupportedDegreeBound(4))
    );
    assert_eq!(
        KZG10::check_degrees_and_bounds(7, 3, Some(&bounds), &p),
        Err(Error::IncorrectDegreeBound {
            poly_degree: 2,
            degree_bound: 4,
            supported_degree: 7,
            label: "Test".to_string(),
        })
    );
    let low = LabeledPolynomial { degree_bound: Some(1), ..p.clone() };
    assert_eq!(
        KZG10::check_degrees_and_bounds(7, 10, Some(&[1, 4]), &low),
        Err(Error::IncorrectDegreeBound {
            poly_degree: 2,
            degree_bound: 1,
            supported_degree: 7,
            label: "Test".to_string(),
        })
    );
    let unbounded = LabeledPolynomial { degree_bound: None, ..p };
    assert_eq!(KZG10::check_degrees_and_bounds(7, 3, None, &unbounded), Ok(()));
    assert!(contains_bound(&bounds, 8));
    assert!(contains_bound(&bounds, 2));
    assert!(!contains_bound(&bounds, 3));
    assert!(!contains_bound(&[], 3));
    assert!(contains_bound(&[9, 2, 7], 7));
    assert!(contains_bound(&[9, 2, 7], 9));
    assert!(!contains_bound(&[9, 2, 7], 3));
}

#[test]
fn commitments_and_proofs_have_fixed_sizes() {
    let rng = &mut test_rng();
    let c = Commitment(G1Point::rand(rng));
    assert_eq!(c.size_in_bytes(), 48);
    assert!(!c.has_degree_bound());
    assert_eq!(Proof { w: c.0 }.size_in_bytes(), 48);
    let prepared = PreparedCommitment::prepare(&c);
    assert_eq!(prepared.0.len(), 255);
    assert_eq!(prepared.0[0], c.0);
    assert_eq!(prepared.0[1], c.0.add(&c.0));
    assert_eq!(prepared.0[3], c.0.mul(&Scalar::from_u64(8)));
}

#[test]
fn batch_check_pairs_with_the_prepared_elements() {
    let rng = &mut test_rng();
    let pp = KZG10::setup(4, false, rng).unwrap();
    let (ck, vk) = KZG10::trim(&pp, 4).unwrap();
    let p = DensePolynomial::rand(4, rng);
    let point = Scalar::rand(rng);
    let value = p.evaluate(&point);
    let comm = KZG10::commit(&ck, &p).unwrap();
    let proof = KZG10::open(&ck, &p, point).unwrap();
    assert_eq!(KZG10::batch_check(&vk, &[comm], &[point], &[value], &[proof], rng), Ok(true));
    // A key whose prepared elements are not those of its plain ones: the
    // single check reads the plain ones, the batch the prepared ones.
    let other = poly_commit_benches::ark::kzg::VerifierKey { prepared_h: vk.beta_h, ..vk };
    assert_eq!(KZG10::check(&other, &comm, point, value, &proof), Ok(true));
    assert_eq!(KZG10::batch_check(&other, &[comm], &[point], &[value], &[proof], rng), Ok(false));
}
