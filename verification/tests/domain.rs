use poly_commit_benches::ark::curve::G1Point;
use poly_commit_benches::ark::domain::{
    erasure_encode, erasure_encode_g1, make_domain, Radix2EvaluationDomain,
};
use poly_commit_benches::ark::enc_bench::{Bls12_381G1EncBench, Bls12_381ScalarEncBench};
use poly_commit_benches::ark::field::{test_rng, Scalar};
use poly_commit_benches::ark::poly::evaluate;
use poly_commit_benches::test_enc_works;

#[test]
fn enc_bench_test_interp_bench() {
    let rng = &mut test_rng();
    assert_eq!(test_enc_works::<Bls12_381G1EncBench>(rng).len(), 64);
    assert_eq!(test_enc_works::<Bls12_381ScalarEncBench>(rng).len(), 64);
}

fn domain_encoding() {
    let rng = &mut test_rng();
    let domain_4 = Radix2EvaluationDomain::new(4).unwrap();
    let domain_8 = Radix2EvaluationDomain::new(8).unwrap();

    let d4_evals: Vec<_> = (0..4).map(|_| Scalar::rand(rng)).collect();
    let mut d4_coeffs = d4_evals.clone();
    domain_4.ifft_in_place(&mut d4_coeffs);
    let mut d8_coeffs = vec![Scalar::zero(); 8];
    for (i, coeff) in d4_coeffs.iter().enumerate() {
        d8_coeffs[i] = *coeff;
    }
    let mut d8_evals = d8_coeffs.clone();
    domain_8.fft_in_place(&mut d8_evals);
    let size_scale = domain_8.size() / domain_4.size();
    for (j, d4_eval) in d4_evals.iter().enumerate() {
        assert_eq!(d4_eval, &d8_evals[size_scale * j]);
    }
}

#[test]
fn enc_bench_test_domain_encoding() {
    domain_encoding();
}

#[test]
fn fft_bench_test_domain_encoding() {
    domain_encoding();
}

#[test]
fn test_can_fft() {
    let rng = &mut test_rng();
    let size: usize = 32;
    let domain = Radix2EvaluationDomain::new(size).unwrap();
    let mut pts = vec![];
    for _ in 0..size {
        pts.push(Scalar::rand(rng));
    }
    pts.resize(domain.size(), Scalar::zero());
    let mut fftd = pts.clone();
    domain.fft_in_place(&mut fftd);
    let mut ifftd = fftd.clone();
    domain.ifft_in_place(&mut ifftd);
    assert_eq!(pts, ifftd);
    assert!(pts != fftd);
}

#[test]
fn domains_have_the_least_sufficient_power_of_two() {
    let d = Radix2EvaluationDomain::new(5).unwrap();
    assert_eq!(d.size(), 8);
    assert_eq!(d.log_size_of_group, 3);
    assert_eq!(Radix2EvaluationDomain::new(0).unwrap().size(), 1);
    assert_eq!(Radix2EvaluationDomain::new(1).unwrap().size(), 1);
    assert_eq!(Radix2EvaluationDomain::new(64).unwrap().size(), 64);
    assert_eq!(make_domain(33).size(), 64);
    assert!(Radix2EvaluationDomain::new((1 << 32) + 1).is_none());
    // The largest domain is generated by the two-adic root of unity, and
    // every other generator is a power of it.
    let top = Radix2EvaluationDomain::new(1 << 32).unwrap();
    let root = Scalar::from_limbs(
        0x3829_971f_439f_0d2b,
        0xb636_8350_8c22_80b9,
        0xd09b_6819_22c8_13b4,
        0x16a2_a19e_dfe8_1f20,
    )
    .unwrap();
    assert_eq!(top.group_gen, root);
    assert_eq!(top.log_size_of_group, 32);
    assert_eq!(d.group_gen, root.pow(1 << 29));
    assert_eq!(d.group_gen.pow(8), Scalar::one());
    assert!(d.group_gen.pow(4) != Scalar::one());
    assert_eq!(d.element(0), Scalar::one());
    assert_eq!(d.element(3), d.group_gen.mul(&d.group_gen).mul(&d.group_gen));
}

#[test]
fn transforms_evaluate_and_interpolate() {
    let rng = &mut test_rng();
    let d = Radix2EvaluationDomain::new(8).unwrap();
    let coeffs: Vec<_> = (0..8).map(|_| Scalar::rand(rng)).collect();
    let mut evals = coeffs.clone();
    d.fft_in_place(&mut evals);
    for i in 0..8 {
        assert_eq!(evals[i], evaluate(&coeffs, &d.element(i)));
    }
    let mut back = evals.clone();
    d.ifft_in_place(&mut back);
    assert_eq!(back, coeffs);
    // Fewer coefficients are taken as they are, and more are cut off.
    let mut short = vec![Scalar::from_u64(7), Scalar::from_u64(2)];
    d.fft_in_place(&mut short);
    assert_eq!(short.len(), 8);
    assert_eq!(short[0], Scalar::from_u64(9));
    assert_eq!(short[1], Scalar::from_u64(7).add(&d.group_gen.mul(&Scalar::from_u64(2))));
    let mut none: Vec<Scalar> = Vec::new();
    d.fft_in_place(&mut none);
    assert_eq!(none, vec![Scalar::zero(); 8]);
    let mut none: Vec<Scalar> = Vec::new();
    d.ifft_in_place(&mut none);
    assert_eq!(none, vec![Scalar::zero(); 8]);
    let mut long: Vec<_> = (0..10).map(|_| Scalar::rand(rng)).collect();
    let cut = long[..8].to_vec();
    d.fft_in_place(&mut long);
    assert_eq!(long.len(), 8);
    assert_eq!(long[5], evaluate(&cut, &d.element(5)));
}

fn extension_keeps_the_values(n: usize, k: usize) {
    let rng = &mut test_rng();
    let sub = Radix2EvaluationDomain::new(n).unwrap();
    let big = Radix2EvaluationDomain::new(k * n).unwrap();
    let evals: Vec<_> = (0..n).map(|_| Scalar::rand(rng)).collect();
    let mut pts = evals.clone();
    erasure_encode(&mut pts, &sub, &big);
    assert_eq!(pts.len(), k * n);
    for i in 0..n {
        assert_eq!(pts[i * k], evals[i]);
    }
    if k > 1 && n > 1 {
        assert!(pts[1] != evals[1]);
    }
}

#[test]
fn extension_keeps_the_values_at_the_multiples_of_the_stride() {
    extension_keeps_the_values(1, 1);
    extension_keeps_the_values(1, 4);
    extension_keeps_the_values(4, 1);
    extension_keeps_the_values(4, 2);
    extension_keeps_the_values(8, 4);
    extension_keeps_the_values(32, 2);
    extension_keeps_the_values(16, 16);
}

#[test]
fn group_elements_are_extended_as_their_scalars_are() {
    let rng = &mut test_rng();
    let sub = Radix2EvaluationDomain::new(4).unwrap();
    let big = Radix2EvaluationDomain::new(8).unwrap();
    let g = G1Point::rand(rng);
    let scalars: Vec<_> = (0..4).map(|_| Scalar::rand(rng)).collect();
    let mut points: Vec<_> = scalars.iter().map(|s| g.mul(s)).collect();
    let originals = points.clone();
    let mut extended = scalars.clone();
    erasure_encode(&mut extended, &sub, &big);
    erasure_encode_g1(&mut points, &sub, &big);
    assert_eq!(points.len(), 8);
    for i in 0..8 {
        assert_eq!(points[i], g.mul(&extended[i]));
    }
    for i in 0..4 {
        assert_eq!(points[2 * i], originals[i]);
    }
    let mut round = originals.clone();
    sub.fft_in_place_g1(&mut round);
    assert!(round != originals);
    sub.ifft_in_place_g1(&mut round);
    assert_eq!(round, originals);
}
