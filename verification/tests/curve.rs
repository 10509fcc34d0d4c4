use poly_commit_benches::ark::curve::{
    g1_msm, g1_multiples, g2_msm, pairing_equal, pairing_product_is_one, G1Point, G2Point,
};
use poly_commit_benches::ark::field::{test_rng, Scalar};

#[test]
fn group_operations_agree_with_each_other() {
    let rng = &mut test_rng();
    let g = G1Point::rand(rng);
    let h = G1Point::rand(rng);
    assert!(g != h);
    assert_eq!(g.add(&h), h.add(&g));
    assert_eq!(g.add(&G1Point::identity()), g);
    assert_eq!(g.sub(&g), G1Point::identity());
    assert_eq!(g.add(&g.neg()), G1Point::identity());
    assert_eq!(g.add(&h).sub(&h), g);
    assert_eq!(g.double(), g.add(&g));
    assert_eq!(g.mul(&Scalar::from_u64(2)), g.double());
    assert_eq!(g.mul(&Scalar::from_u64(3)), g.double().add(&g));
    assert_eq!(g.mul(&Scalar::zero()), G1Point::identity());
    assert_eq!(g.mul(&Scalar::one()), g);
    assert!(g.equals(&g));
    assert!(!g.equals(&h));
    assert_eq!(G1Point::identity().coordinates(), ([0; 6], [0; 6], true));
    assert!(!g.coordinates().2);
    assert!(g.coordinates().0 != h.coordinates().0);
    assert_eq!(g.compressed_size(), 48);
}

#[test]
fn multi_scalar_multiplication_is_the_sum_of_the_multiples() {
    let rng = &mut test_rng();
    let g = G1Point::rand(rng);
    let h = G1Point::rand(rng);
    let a = Scalar::rand(rng);
    let b = Scalar::rand(rng);
    assert_eq!(g1_msm(&[g, h], &[a, b]), g.mul(&a).add(&h.mul(&b)));
    // The shorter of the two lists decides.
    assert_eq!(g1_msm(&[g, h], &[a]), g.mul(&a));
    assert_eq!(g1_msm(&[g], &[a, b]), g.mul(&a));
    assert_eq!(g1_msm(&[], &[]), G1Point::identity());
    let multiples = g1_multiples(&g, &vec![a, b, Scalar::one()]);
    assert_eq!(multiples, vec![g.mul(&a), g.mul(&b), g]);
    assert_eq!(g1_multiples(&g, &vec![]), vec![]);
    let p = G2Point::rand(rng);
    let q = G2Point::rand(rng);
    assert_eq!(g2_msm(&[p], &[Scalar::from_u64(1)]), p);
    assert_eq!(g2_msm(&[p, q], &[Scalar::one(), Scalar::zero()]), p);
    assert_eq!(g2_msm(&[p, q], &[a, b]).sub(&q.mul(&b)), p.mul(&a));
    assert!(p.equals(&p));
    assert!(!p.equals(&q));
    assert_eq!(G2Point::identity().coordinates(), ([[0; 6]; 4], true));
    assert_eq!(p.sub(&p), G2Point::identity());
    assert!(!p.coordinates().1);
}

#[test]
fn pairing_is_bilinear() {
    let rng = &mut test_rng();
    let g = G1Point::rand(rng);
    let h = G2Point::rand(rng);
    let a = Scalar::rand(rng);
    assert!(pairing_equal(&g.mul(&a), &h, &g, &h.mul(&a)));
    assert!(!pairing_equal(&g, &h, &g, &h.mul(&a)));
    assert!(pairing_equal(&g, &h, &g, &h));
    // e(-a g, h) * e(g, a h) is the identity.
    assert!(pairing_product_is_one(&vec![g.mul(&a).neg(), g], &vec![h, h.mul(&a)]));
    assert!(!pairing_product_is_one(&vec![g.mul(&a), g], &vec![h, h.mul(&a)]));
    assert!(pairing_product_is_one(&vec![], &vec![]));
}
