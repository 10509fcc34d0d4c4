use poly_commit_benches::ark::field::{rand_index, rand_u128, seeded_rng, test_rng, Scalar};

fn modulus_minus(k: u64) -> Scalar {
    // The modulus ends in the limb 0xffffffff00000001.
    Scalar::from_limbs(
        0xffff_ffff_0000_0001 - k,
        0x53bd_a402_fffe_5bfe,
        0x3339_d808_09a1_d805,
        0x73ed_a753_299d_7d48,
    )
    .unwrap()
}

#[test]
fn field_operations_compute_in_the_field() {
    let two = Scalar::from_u64(2);
    let three = Scalar::from_u64(3);
    assert_eq!(two.add(&three), Scalar::from_u64(5));
    assert_eq!(two.mul(&three), Scalar::from_u64(6));
    assert_eq!(three.sub(&two), Scalar::one());
    assert_eq!(two.sub(&three), modulus_minus(1));
    assert_eq!(two.neg(), modulus_minus(2));
    assert_eq!(Scalar::zero().neg(), Scalar::zero());
    assert_eq!(modulus_minus(1).add(&two), Scalar::one());
    assert_eq!(modulus_minus(1).mul(&modulus_minus(1)), Scalar::one());
    assert_eq!(two.pow(10), Scalar::from_u64(1024));
    assert_eq!(two.pow(0), Scalar::one());
    assert_eq!(Scalar::zero().pow(0), Scalar::one());
}

#[test]
fn inverse_is_the_multiplicative_inverse() {
    assert_eq!(Scalar::zero().inverse(), None);
    assert_eq!(Scalar::one().inverse(), Some(Scalar::one()));
    let seven = Scalar::from_u64(7);
    let inv = seven.inverse().unwrap();
    assert_eq!(inv.mul(&seven), Scalar::one());
    assert!(inv != seven);
    let rng = &mut test_rng();
    for _ in 0..20 {
        let x = Scalar::rand(rng);
        if !x.is_zero() {
            assert_eq!(x.inverse().unwrap().mul(&x), Scalar::one());
        }
    }
}

#[test]
fn scalars_are_built_from_integers_and_limbs() {
    assert!(Scalar::zero().is_zero());
    assert!(!Scalar::one().is_zero());
    assert_eq!(Scalar::from_u64(0), Scalar::zero());
    assert_eq!(Scalar::from_u64(1), Scalar::one());
    assert_eq!(Scalar::from_u64(9).to_limbs(), (9, 0, 0, 0));
    let big = Scalar::from_u128((1u128 << 64) + 5);
    assert_eq!(big.to_limbs(), (5, 1, 0, 0));
    assert_eq!(big, Scalar::from_u64(u64::MAX).add(&Scalar::from_u64(6)));
    assert_eq!(Scalar::from_u128(u128::MAX).to_limbs(), (u64::MAX, u64::MAX, 0, 0));
    // The modulus itself is no canonical representative; one below it is.
    assert_eq!(
        Scalar::from_limbs(
            0xffff_ffff_0000_0001,
            0x53bd_a402_fffe_5bfe,
            0x3339_d808_09a1_d805,
            0x73ed_a753_299d_7d48
        ),
        None
    );
    assert_eq!(Scalar::from_limbs(0, 0, 0, 0x73ed_a753_299d_7d49), None);
    assert_eq!(Scalar::from_limbs(u64::MAX, u64::MAX, u64::MAX, u64::MAX), None);
    assert!(modulus_minus(1).equals(&Scalar::zero().sub(&Scalar::one())));
    assert!(!Scalar::one().equals(&Scalar::zero()));
    assert_eq!(Scalar::one().serialized_size(), 32);
}

#[test]
fn generators_with_one_seed_agree() {
    let a = Scalar::rand(&mut test_rng());
    let b = Scalar::rand(&mut test_rng());
    assert_eq!(a, b);
    let mut seed = [0u8; 32];
    seed[0] = 7;
    let c = Scalar::rand(&mut seeded_rng(seed));
    let d = Scalar::rand(&mut seeded_rng(seed));
    assert_eq!(c, d);
    assert!(a != c);
    let rng = &mut test_rng();
    let x = rand_u128(rng);
    let y = rand_u128(rng);
    assert!(x != y);
    for n in 1..50 {
        assert!(rand_index(rng, n) < n);
    }
}
