use poly_commit_benches::ark::kzg_bench::KzgPcBench;
use poly_commit_benches::ark::kzg_multiproof_bench::{Multiproof1Bench, Multiproof2Bench};
use poly_commit_benches::ark::streaming_kzg_bench::{
    elements_bytes, rand_instance, StreamingKzgBench,
};
use poly_commit_benches::ark::poly::evaluate;
use poly_commit_benches::{test_works, PcBench};

#[test]
fn kzg_multiproof_bench_bls12_381_works() {
    assert!(test_works::<Multiproof1Bench<5, 5>>());
    assert!(test_works::<Multiproof1Bench<1, 1>>());
    assert!(test_works::<Multiproof1Bench<1, 5>>());
    assert!(test_works::<Multiproof1Bench<5, 1>>());
    assert!(test_works::<Multiproof2Bench<5, 5>>());
    assert!(test_works::<Multiproof2Bench<1, 1>>());
    assert!(test_works::<Multiproof2Bench<1, 5>>());
    assert!(test_works::<Multiproof2Bench<5, 1>>());
}

#[test]
fn streaming_kzg_bench_bls12_381_works() {
    assert!(test_works::<StreamingKzgBench<5, 5>>());
    assert!(test_works::<StreamingKzgBench<1, 1>>());
    assert!(test_works::<StreamingKzgBench<1, 5>>());
    assert!(test_works::<StreamingKzgBench<5, 1>>());
}

#[test]
fn kzg_bench_works() {
    assert!(test_works::<KzgPcBench>());
    assert_eq!(KzgPcBench::bytes_per_elem(), 31);
}

#[test]
fn a_wrong_value_is_rejected_through_the_interface() {
    let mut s = KzgPcBench::setup(16);
    let t = KzgPcBench::trim(&s, 8);
    let (poly, point, value) = KzgPcBench::rand_poly(&mut s, 8);
    let c = KzgPcBench::commit(&t, &mut s, &poly);
    let p = KzgPcBench::open(&t, &mut s, &poly, &point);
    assert!(KzgPcBench::verify(&t, &c, &p, &value, &point));
    assert!(!KzgPcBench::verify(&t, &c, &p, &point, &point));

    let t = <StreamingKzgBench<2, 3>>::trim(&(), 8);
    let (polys, points, values) = <StreamingKzgBench<2, 3>>::rand_poly(&mut (), 8);
    let c = <StreamingKzgBench<2, 3>>::commit(&t, &mut (), &polys);
    let p = <StreamingKzgBench<2, 3>>::open(&t, &mut (), &polys, &points);
    assert!(<StreamingKzgBench<2, 3>>::verify(&t, &c, &p, &values, &points));
    let mut wrong = values.clone();
    wrong[2][1] = wrong[0][0];
    assert!(!<StreamingKzgBench<2, 3>>::verify(&t, &c, &p, &wrong, &points));
}

#[test]
fn instances_hold_the_values_of_the_polynomials() {
    let (polys, points, values) = rand_instance(3, 4, 6);
    assert_eq!(polys.len(), 3);
    assert_eq!(points.len(), 4);
    assert_eq!(values.len(), 3);
    for i in 0..3 {
        assert_eq!(polys[i].len(), 7);
        for j in 0..4 {
            assert_eq!(values[i][j], evaluate(&polys[i], &points[j]));
        }
    }
    assert_eq!(elements_bytes(5, 3), 31 * 15);
    assert_eq!(elements_bytes(0, 3), 0);
    assert_eq!(elements_bytes(usize::MAX, 0), 0);
    assert_eq!(elements_bytes(usize::MAX, 2), usize::MAX);
    assert_eq!(<StreamingKzgBench<5, 5>>::bytes_per_elem(), 31 * 25);
    assert_eq!(<Multiproof1Bench<2, 5>>::bytes_per_elem(), 31 * 10);
    assert_eq!(<Multiproof2Bench<2, 1>>::bytes_per_elem(), 31 * 2);
}

#[test]
fn the_interface_trims_to_a_prefix_of_the_setup() {
    let s = KzgPcBench::setup(8);
    assert_eq!(s.params.powers_of_g.len(), 9);
    assert_eq!(s.params.powers_of_gamma_g.len(), 10);
    let (powers, vk) = KzgPcBench::trim(&s, 1);
    assert_eq!(powers.powers_of_g[..], s.params.powers_of_g[..3]);
    assert_eq!(powers.powers_of_gamma_g.len(), 3);
    for i in 0..3 {
        assert_eq!(powers.powers_of_gamma_g[i], s.params.powers_of_gamma_g[&i]);
    }
    assert_eq!(vk.g, s.params.powers_of_g[0]);
    assert_eq!(vk.gamma_g, s.params.powers_of_gamma_g[&0]);
    assert_eq!(vk.h, s.params.h);
    assert_eq!(vk.beta_h, s.params.beta_h);
    assert!(vk.g != vk.gamma_g);

    let t = <StreamingKzgBench<2, 3>>::trim(&(), 8);
    assert_eq!(t.ck.powers_of_g.len(), 9);
    assert_eq!(t.ck.powers_of_g2.len(), 3);
    assert_eq!(t.vk.powers_of_g2, t.ck.powers_of_g2);
    assert_eq!(t.vk.powers_of_g[..], t.ck.powers_of_g[..2]);

    let t = <Multiproof1Bench<2, 3>>::trim(&(), 8);
    assert_eq!((t.powers_of_g1.len(), t.powers_of_g2.len()), (9, 3));
    let t = <Multiproof2Bench<2, 3>>::trim(&(), 8);
    assert_eq!((t.powers_of_g1.len(), t.powers_of_g2.len()), (9, 3));
}
