use poly_commit_benches::ark::field::test_rng;
use poly_commit_benches::ark::field::Scalar;
use poly_commit_benches::ark::domain::Radix2EvaluationDomain;
use poly_commit_benches::ark::poly::evaluate;
use poly_commit_benches::plonk_kzg::enc_bench::{erasure_encode, new_domain, PlonkEncBench, PlonkFft};
use poly_commit_benches::ark::domain::Transform;
use poly_commit_benches::ark::poly::{divide_by_linear, trim};
use poly_commit_benches::plonk_kzg::grid_bench::{element, extend_grid, make_commits, open_column_at, PlonkGridBench};
use poly_commit_benches::plonk_kzg::{check, commit, compute_single_witness, setup_parameters, trim_parameters, PlonkKZG};
use poly_commit_benches::{test_works as scheme_works, ErasureEncodeBench, GridBench, PcBench};
use poly_commit_benches::test_enc_works;

#[test]
fn test_works() {
    let pts = test_enc_works::<PlonkEncBench>(&mut test_rng());
    assert_eq!(pts.len(), 64);
}

#[test]
fn plonk_domains_have_the_least_sufficient_power_of_two() {
    assert_eq!(new_domain(5).unwrap().size(), 8);
    assert_eq!(new_domain(5).unwrap().log_size_of_group, 3);
    assert_eq!(new_domain(0).unwrap().size(), 1);
    assert_eq!(new_domain(1 << 31).unwrap().size(), 1 << 31);
    assert!(new_domain((1 << 31) + 1).is_none());
    assert!(new_domain(1 << 32).is_none());
    assert_eq!(PlonkEncBench::make_domain(64).size(), 64);
    // The domains are those of the other library.
    for k in [0, 1, 3, 10, 31] {
        assert_eq!(new_domain(1 << k), Radix2EvaluationDomain::new(1 << k));
    }
}

#[test]
fn plonk_transforms_evaluate_and_interpolate() {
    let rng = &mut test_rng();
    let d = new_domain(8).unwrap();
    let coeffs = PlonkEncBench::rand_points(8, rng);
    let mut evals = coeffs.clone();
    PlonkFft::fft_in_place(&d, &mut evals);
    for i in 0..8 {
        assert_eq!(evals[i], evaluate(&coeffs, &d.element(i)));
    }
    let mut back = evals.clone();
    PlonkFft::ifft_in_place(&d, &mut back);
    assert_eq!(back, coeffs);
    let mut short = vec![Scalar::from_u64(7), Scalar::from_u64(2)];
    PlonkFft::fft_in_place(&d, &mut short);
    assert_eq!(short.len(), 8);
    assert_eq!(short[1], Scalar::from_u64(7).add(&d.group_gen.mul(&Scalar::from_u64(2))));
    let mut long = PlonkEncBench::rand_points(10, rng);
    let cut = long[..8].to_vec();
    PlonkFft::fft_in_place(&d, &mut long);
    assert_eq!(long.len(), 8);
    assert_eq!(long[5], evaluate(&cut, &d.element(5)));
    let mut few = vec![Scalar::from_u64(3)];
    PlonkFft::ifft_in_place(&d, &mut few);
    assert_eq!(few.len(), 8);
    for i in 0..8 {
        let expected = if i == 0 { Scalar::from_u64(3) } else { Scalar::zero() };
        assert_eq!(evaluate(&few, &d.element(i)), expected);
    }
}

#[test]
fn plonk_extension_keeps_the_values_at_even_indices() {
    let rng = &mut test_rng();
    let sub = new_domain(8).unwrap();
    let big = new_domain(16).unwrap();
    let evals = PlonkEncBench::rand_points(8, rng);
    let mut pts = evals.clone();
    erasure_encode(&mut pts, &sub, &big);
    assert_eq!(pts.len(), 16);
    for i in 0..8 {
        assert_eq!(pts[2 * i], evals[i]);
    }
    assert!(pts[1] != evals[1]);
    // Both libraries extend in the same way.
    let mut ark = evals.clone();
    poly_commit_benches::ark::domain::erasure_encode(
        &mut ark,
        &poly_commit_benches::ark::domain::Radix2EvaluationDomain::new(8).unwrap(),
        &poly_commit_benches::ark::domain::Radix2EvaluationDomain::new(16).unwrap(),
    );
    assert_eq!(pts, ark);
    // A constant stays constant.
    let mut ones = vec![Scalar::from_u64(5); 8];
    <PlonkEncBench as ErasureEncodeBench>::erasure_encode(&mut ones, &sub, &big);
    assert_eq!(ones, vec![Scalar::from_u64(5); 16]);
}

#[test]
fn test_it_works() {
    assert!(scheme_works::<PlonkKZG>());
}

#[test]
fn plonk_scheme_rejects_a_wrong_value_and_refuses_degrees() {
    let mut s = PlonkKZG::setup(16);
    let t = PlonkKZG::trim(&s, 8);
    assert!(t.is_some());
    let (poly, point, value) = PlonkKZG::rand_poly(&mut s, 8);
    assert_eq!(poly.len(), 9);
    let c = PlonkKZG::commit(&t, &mut s, &poly);
    let w = PlonkKZG::open(&t, &mut s, &poly, &point);
    assert!(c.is_some() && w.is_some());
    assert!(c != w);
    assert!(PlonkKZG::verify(&t, &c, &w, &value, &point));
    assert!(!PlonkKZG::verify(&t, &c, &w, &point, &point));
    assert!(!PlonkKZG::verify(&t, &w, &c, &value, &point));
    assert!(!PlonkKZG::verify(&t, &None, &w, &value, &point));
    assert!(!PlonkKZG::verify(&None, &c, &w, &value, &point));
    // A polynomial of a degree beyond the keys is refused.
    let (long, _, _) = PlonkKZG::rand_poly(&mut s, 9);
    assert!(PlonkKZG::commit(&t, &mut s, &long).is_none());
    // So is a trim beyond the setup, and a setup for degree zero.
    assert!(PlonkKZG::trim(&s, 17).is_none());
    assert!(PlonkKZG::trim(&s, 0).is_none());
    assert!(PlonkKZG::setup(0).params.is_none());
    assert!(setup_parameters(0, &mut test_rng()).is_none());
    assert_eq!(PlonkKZG::bytes_per_elem(), 32);
}

#[test]
fn plonk_witness_is_the_quotient_of_synthetic_division() {
    let rng = &mut test_rng();
    let pp = setup_parameters(8, rng).unwrap();
    let (ck, _) = trim_parameters(&pp, 8).unwrap();
    let p = PlonkEncBench::rand_points(7, rng);
    let z = Scalar::rand(rng);
    let w = compute_single_witness(&ck, &p, &z);
    assert_eq!(w, divide_by_linear(&p, &z).1);
    assert_eq!(w.len(), 6);
    // Zeros of highest degree are dropped before and after.
    let mut padded = p.clone();
    padded.push(Scalar::zero());
    assert_eq!(compute_single_witness(&ck, &padded, &z), w);
    let q = vec![Scalar::from_u64(2), Scalar::from_u64(1), Scalar::zero()];
    // x + 2 by x - 2 leaves 1.
    assert_eq!(compute_single_witness(&ck, &q, &Scalar::from_u64(2)), vec![Scalar::one()]);
    assert_eq!(trim(divide_by_linear(&q, &Scalar::from_u64(2)).1), vec![Scalar::one()]);
    // The commitment is linear: to 2 p it is twice that to p, so they differ.
    let twice: Vec<_> = p.iter().map(|c| c.add(c)).collect();
    assert!(commit(&ck, &p).is_some());
    assert!(commit(&ck, &p) != commit(&ck, &twice));
    assert_eq!(commit(&ck, &p), commit(&ck, &padded));
}

#[test]
fn plonk_grid_is_extended_committed_and_opened() {
    let rng = &mut test_rng();
    let s = PlonkGridBench::do_setup(4, rng);
    assert!(s.ck.is_some());
    assert_eq!(s.domain_n.size(), 4);
    assert_eq!(s.domain_2n.size(), 8);
    let grid = PlonkGridBench::rand_grid(4, rng);
    let eg = extend_grid(&s, &grid);
    assert_eq!(eg.len(), 8);
    for i in 0..4 {
        assert_eq!(eg[2 * i], grid[i]);
    }
    assert_eq!(<PlonkGridBench as GridBench>::extend_grid(&s, &grid), eg);
    let commits = make_commits(&s, &eg);
    assert_eq!(commits.len(), 8);
    assert!(commits.iter().all(|c| c.is_some()));
    assert!(commits[0] != commits[1]);
    assert_eq!(element(&s.domain_n, 0), Scalar::one());
    assert_eq!(element(&s.domain_n, 1), s.domain_n.group_gen);
    assert_eq!(element(&s.domain_n, 3), s.domain_n.element(3));
    let opens = open_column_at(&s, &eg, 1);
    assert_eq!(opens.len(), 8);
    assert!(opens.iter().all(|c| c.is_some()));
    let drawn = <PlonkGridBench as GridBench>::open_column(&s, &eg, rng);
    assert!((0..4).any(|j| open_column_at(&s, &eg, j) == drawn));
    assert_eq!(PlonkGridBench::bytes_per_elem(), 31);
}

#[test]
fn plonk_keys_take_the_degrees_that_they_were_trimmed_to() {
    let rng = &mut test_rng();
    let pp = setup_parameters(8, rng).unwrap();
    // A trim to degree one counts as one to degree two.
    let (ck, vk) = trim_parameters(&pp, 1).unwrap();
    let line = vec![Scalar::from_u64(3), Scalar::from_u64(5)];
    let square = vec![Scalar::from_u64(3), Scalar::from_u64(5), Scalar::from_u64(7)];
    let cube = vec![Scalar::one(); 4];
    assert!(commit(&ck, &line).is_some());
    assert!(commit(&ck, &square).is_some());
    assert!(commit(&ck, &cube).is_none());
    // Constants are refused, with or without zeros of higher degree.
    assert!(commit(&ck, &vec![Scalar::from_u64(9)]).is_none());
    assert!(commit(&ck, &vec![Scalar::from_u64(9), Scalar::zero()]).is_none());
    assert!(commit(&ck, &vec![]).is_none());
    // The bounds of a trim: not zero, and not beyond the parameters.
    assert!(trim_parameters(&pp, 0).is_none());
    assert!(trim_parameters(&pp, 8).is_some());
    assert!(trim_parameters(&pp, 9).is_none());
    let small = setup_parameters(1, rng).unwrap();
    assert!(trim_parameters(&small, 1).is_none());
    // Keys of different trims commit alike where both take the degree.
    let (wide, _) = trim_parameters(&pp, 5).unwrap();
    assert_eq!(commit(&wide, &square), commit(&ck, &square));
    assert!(commit(&wide, &cube).is_some());
    // The opening key accepts a true value, and no encoding that is none.
    let z = Scalar::from_u64(2);
    let c = commit(&ck, &square).unwrap();
    // The witness of a line is a constant, which is refused.
    assert_eq!(compute_single_witness(&ck, &line, &z), vec![Scalar::from_u64(5)]);
    assert!(commit(&ck, &compute_single_witness(&ck, &line, &z)).is_none());
    let cubic = vec![Scalar::from_u64(1), Scalar::from_u64(2), Scalar::from_u64(3), Scalar::from_u64(4)];
    let cc = commit(&wide, &cubic).unwrap();
    let cw = commit(&wide, &compute_single_witness(&wide, &cubic, &z)).unwrap();
    let value = evaluate(&cubic, &z);
    assert_eq!(value, Scalar::from_u64(49));
    assert_eq!(check(&vk, &z, &cc, &value, &cw), Some(true));
    assert_eq!(check(&vk, &z, &cc, &Scalar::from_u64(50), &cw), Some(false));
    assert_eq!(check(&vk, &z, &c, &value, &cw), Some(false));
    assert_eq!(check(&vk, &z, &[0u8; 48], &value, &cw), None);
    assert_eq!(check(&vk, &z, &cc, &value, &[0xffu8; 48]), None);
}

#[test]
fn the_plonk_grid_setup_holds_every_power_or_no_key() {
    let s = PlonkGridBench::do_setup(4, &mut test_rng());
    assert_eq!(s.ck.map(|ck| ck.max_degree()), Some(3));
    assert_eq!((s.domain_n.size(), s.domain_2n.size()), (4, 8));
    // A key for lines is trimmed as one for parabolas, which a setup for
    // lines does not hold.
    let s = PlonkGridBench::do_setup(2, &mut test_rng());
    assert!(s.ck.is_none());
    assert_eq!((s.domain_n.size(), s.domain_2n.size()), (2, 4));
}
