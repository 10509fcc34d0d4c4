use poly_commit_benches::ark::field::{test_rng, Scalar};
use poly_commit_benches::ark::poly::{
    add, copy_of, divide_by_linear, divide_with_q_and_r, evaluate, naive_mul, powers, scale, sub,
    trim, zeros, DensePolynomial,
};
use poly_commit_benches::ark::roots::{
    interpolate, linear_combination, roots_polynomial, vanishing_polynomial,
};

fn s(x: u64) -> Scalar {
    Scalar::from_u64(x)
}

fn v(xs: &[u64]) -> Vec<Scalar> {
    xs.iter().map(|x| s(*x)).collect()
}

fn minus(x: u64) -> Scalar {
    s(x).neg()
}

#[test]
fn polynomials_evaluate_by_horner() {
    // 24 + 7 x + 73 x^2 + 3 x^3 + 88 x^4 + 80 x^5 + 80 x^6 at 2
    let p = v(&[24, 7, 73, 3, 88, 80, 80]);
    assert_eq!(evaluate(&p, &s(2)), s(24 + 14 + 292 + 24 + 1408 + 2560 + 5120));
    assert_eq!(evaluate(&p, &s(0)), s(24));
    assert_eq!(evaluate(&p, &s(1)), s(355));
    assert_eq!(evaluate(&vec![], &s(5)), s(0));
    assert_eq!(powers(s(2), 5), v(&[1, 2, 4, 8, 16]));
    assert_eq!(powers(s(0), 3), v(&[1, 0, 0]));
    assert_eq!(powers(s(7), 0), vec![]);
}

#[test]
fn arithmetic_is_coefficient_wise_and_trimmed() {
    assert_eq!(add(&v(&[1, 2, 3]), &v(&[4, 5])), v(&[5, 7, 3]));
    assert_eq!(add(&v(&[1, 2, 3]), &vec![s(0), s(0), minus(3)]), v(&[1, 2]));
    assert_eq!(sub(&v(&[5, 7, 3]), &v(&[4, 5, 3])), v(&[1, 2]));
    assert_eq!(sub(&v(&[1]), &v(&[2])), vec![minus(1)]);
    assert_eq!(sub(&v(&[1, 2]), &v(&[1, 2])), vec![]);
    assert_eq!(scale(&v(&[1, 2, 3]), &s(3)), v(&[3, 6, 9]));
    assert_eq!(scale(&v(&[1, 2, 3]), &s(0)), vec![]);
    // (1 + 2 x)(3 + x + x^2) = 3 + 7 x + 3 x^2 + 2 x^3
    assert_eq!(naive_mul(&v(&[1, 2]), &v(&[3, 1, 1])), v(&[3, 7, 3, 2]));
    assert_eq!(naive_mul(&v(&[3, 1, 1]), &v(&[1, 2])), v(&[3, 7, 3, 2]));
    assert_eq!(naive_mul(&v(&[1, 2]), &vec![]), vec![]);
    assert_eq!(naive_mul(&vec![], &v(&[1, 2])), vec![]);
    assert_eq!(trim(v(&[1, 0, 2, 0, 0])), v(&[1, 0, 2]));
    assert_eq!(trim(v(&[0, 0])), vec![]);
    assert_eq!(zeros(3), v(&[0, 0, 0]));
    assert_eq!(copy_of(&v(&[4, 0])), v(&[4, 0]));
}

#[test]
fn division_leaves_quotient_and_remainder() {
    // x^3 - 28 x^2 + 245 x - 650 = (x - 10)(x - 5)(x - 13)
    let f = vec![minus(650), s(245), minus(28), s(1)];
    let d = vec![minus(10), s(1)];
    let (q, r) = divide_with_q_and_r(&f, &d);
    assert_eq!(q, vec![s(65), minus(18), s(1)]);
    assert_eq!(r, vec![]);
    // 3 + 7 x + 3 x^2 + 2 x^3 + (5 + x) by 3 + x + x^2
    let f = v(&[8, 8, 3, 2]);
    let (q, r) = divide_with_q_and_r(&f, &v(&[3, 1, 1]));
    assert_eq!(q, v(&[1, 2]));
    assert_eq!(r, v(&[5, 1]));
    // A divisor that is not monic: 6 x^2 + 4 by 2 x.
    let (q, r) = divide_with_q_and_r(&v(&[4, 0, 6]), &v(&[0, 2]));
    assert_eq!(q, v(&[0, 3]));
    assert_eq!(r, v(&[4]));
    // A dividend of lower degree is the remainder.
    let (q, r) = divide_with_q_and_r(&v(&[4, 1]), &v(&[0, 0, 2]));
    assert_eq!(q, vec![]);
    assert_eq!(r, v(&[4, 1]));
    let (q, r) = divide_with_q_and_r(&v(&[0, 0]), &v(&[1, 2]));
    assert_eq!(q, vec![]);
    assert_eq!(r, vec![]);
    let (value, quotient) = divide_by_linear(&v(&[24, 7, 73, 3]), &s(2));
    assert_eq!(value, s(354));
    assert_eq!(quotient, v(&[165, 79, 3]));
    let (value, quotient) = divide_by_linear(&[], &s(2));
    assert_eq!(value, s(0));
    assert_eq!(quotient, vec![]);
    // A random check: f = q d + r.
    let rng = &mut test_rng();
    let f = DensePolynomial::rand(12, rng).coeffs;
    let d = DensePolynomial::rand(5, rng).coeffs;
    let (q, r) = divide_with_q_and_r(&f, &d);
    assert!(r.len() < d.len());
    assert_eq!(add(&naive_mul(&q, &d), &r), f);
}

#[test]
fn vanishing_polynomial_has_the_points_as_roots() {
    let z = vanishing_polynomial(&v(&[10, 5, 13]));
    assert_eq!(z, vec![minus(650), s(245), minus(28), s(1)]);
    assert_eq!(vanishing_polynomial(&[]), v(&[1]));
    assert_eq!(vanishing_polynomial(&v(&[0])), v(&[0, 1]));
    // A point given twice is a double root.
    assert_eq!(vanishing_polynomial(&v(&[1, 1])), vec![s(1), minus(2), s(1)]);
    assert_eq!(roots_polynomial(&v(&[10, 5, 13]), Some(1)), vec![s(130), minus(23), s(1)]);
    assert_eq!(roots_polynomial(&v(&[10, 5, 13]), Some(7)), z);
    let rng = &mut test_rng();
    let points: Vec<_> = (0..9).map(|_| Scalar::rand(rng)).collect();
    let z = vanishing_polynomial(&points);
    assert_eq!(z.len(), 10);
    assert_eq!(z[9], Scalar::one());
    for p in &points {
        assert_eq!(evaluate(&z, p), Scalar::zero());
    }
    assert!(evaluate(&z, &Scalar::rand(rng)) != Scalar::zero());
}

#[test]
fn linear_combinations_add_the_multiples() {
    let polys = vec![v(&[1, 2]), v(&[0, 0, 1]), v(&[5])];
    assert_eq!(linear_combination(&polys, &v(&[2, 3, 4])), Some(v(&[22, 4, 3])));
    assert_eq!(linear_combination(&polys, &v(&[2, 3])), Some(v(&[2, 4, 3])));
    assert_eq!(linear_combination(&polys[..1], &v(&[0, 3])), Some(vec![]));
    assert_eq!(linear_combination(&polys, &[]), None);
    assert_eq!(linear_combination(&[], &v(&[1])), None);
}

#[test]
fn interpolation_takes_the_given_values() {
    // 1 + x^2 at 0, 1, 2
    assert_eq!(interpolate(&v(&[0, 1, 2]), &v(&[1, 2, 5])), Some(v(&[1, 0, 1])));
    // Values that are missing count as zero: x (2 - x) at 0, 1, 2.
    assert_eq!(interpolate(&v(&[0, 1, 2]), &v(&[0, 1])), Some(vec![s(0), s(2), minus(1)]));
    assert_eq!(interpolate(&v(&[3]), &v(&[9])), Some(v(&[9])));
    assert_eq!(interpolate(&[], &v(&[9])), Some(vec![]));
    assert_eq!(interpolate(&v(&[4, 7, 4]), &v(&[1, 2, 1])), None);
    let rng = &mut test_rng();
    let points: Vec<_> = (0..7).map(|_| Scalar::rand(rng)).collect();
    let values: Vec<_> = (0..7).map(|_| Scalar::rand(rng)).collect();
    let p = interpolate(&points, &values).unwrap();
    assert!(p.len() <= 7);
    for i in 0..7 {
        assert_eq!(evaluate(&p, &points[i]), values[i]);
    }
}

#[test]
fn dense_polynomials_are_trimmed() {
    let p = DensePolynomial::from_coefficients_vec(v(&[1, 2, 0, 0]));
    assert_eq!(p.coeffs, v(&[1, 2]));
    assert_eq!(p.degree(), 1);
    assert!(!p.is_zero());
    assert_eq!(p.evaluate(&s(10)), s(21));
    assert_eq!(DensePolynomial::from_coefficients_slice(&v(&[0, 0])), DensePolynomial::zero());
    assert_eq!(DensePolynomial::zero().degree(), 0);
    assert!(DensePolynomial::zero().is_zero());
    let rng = &mut test_rng();
    let r = DensePolynomial::rand(9, rng);
    assert_eq!(r.coeffs.len(), 10);
    assert_eq!(r.degree(), 9);
}

#[test]
fn a_polynomial_is_its_quotient_times_the_factor_plus_its_value() {
    let rng = &mut test_rng();
    for d in 0..6 {
        let p = DensePolynomial::rand(d, rng).coeffs;
        let z = Scalar::rand(rng);
        let x = Scalar::rand(rng);
        let (value, q) = divide_by_linear(&p, &z);
        assert_eq!(value, evaluate(&p, &z));
        assert_eq!(evaluate(&p, &x), evaluate(&q, &x).mul(&x.sub(&z)).add(&value));
    }
}

#[test]
fn the_value_of_a_product_is_the_product_of_the_values() {
    let rng = &mut test_rng();
    let a = DensePolynomial::rand(5, rng).coeffs;
    let b = DensePolynomial::rand(3, rng).coeffs;
    let x = Scalar::rand(rng);
    assert_eq!(evaluate(&naive_mul(&a, &b), &x), evaluate(&a, &x).mul(&evaluate(&b, &x)));
    assert_eq!(evaluate(&add(&a, &b), &x), evaluate(&a, &x).add(&evaluate(&b, &x)));
    assert_eq!(evaluate(&sub(&a, &b), &x), evaluate(&a, &x).sub(&evaluate(&b, &x)));
    assert_eq!(evaluate(&scale(&a, &x), &x), evaluate(&a, &x).mul(&x));
}
