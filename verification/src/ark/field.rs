//! The scalar field of BLS12-381.
//!
//! A [`Scalar`] holds the canonical representative of a field element as
//! four little-endian 64-bit limbs. Its view is that representative: an
//! integer from zero up to, and not including, [`modulus`]. The arithmetic
//! itself is performed by `ark_bls12_381::Fr`; the functions here state what
//! it computes.
use ark_bls12_381::Fr;
use ark_ff::{BigInt, Field, PrimeField, UniformRand};
use ark_serialize::{CanonicalSerialize, Compress};
use rand::distributions::uniform::SampleRange;
use rand::rngs::StdRng;
use rand::SeedableRng;
use vstd::arithmetic::div_mod::{
    lemma_mod_add_multiples_vanish, lemma_mod_sub_multiples_vanish, lemma_small_mod,
};
use vstd::arithmetic::power::pow;
use vstd::prelude::*;

verus! {

/// The order of the scalar field.
pub open spec fn modulus() -> int {
    limbs_value(
        0xffff_ffff_0000_0001,
        0x53bd_a402_fffe_5bfe,
        0x3339_d808_09a1_d805,
        0x73ed_a753_299d_7d48,
    )
}

/// The integer denoted by four little-endian 64-bit limbs.
pub open spec fn limbs_value(l0: u64, l1: u64, l2: u64, l3: u64) -> int {
    (l0 as int) + 0x1_0000_0000_0000_0000 * ((l1 as int) + 0x1_0000_0000_0000_0000 * ((l2 as int)
        + 0x1_0000_0000_0000_0000 * (l3 as int)))
}

/// A source of randomness, passed explicitly to every operation that samples.
#[verifier::external_type_specification]
#[verifier::external_body]
pub struct ExStdRng(StdRng);

/// An element of the scalar field.
#[derive(Clone, Copy, Debug, PartialEq, Eq)]
pub struct Scalar {
    pub(crate) limbs: [u64; 4],
}

impl View for Scalar {
    type V = int;

    closed spec fn view(&self) -> int {
        limbs_value(self.limbs[0], self.limbs[1], self.limbs[2], self.limbs[3])
    }
}

/// `ark_bls12_381::Fr` addition: the sum of the two elements, reduced.
#[verifier::external_body]
fn fr_add(a: &Scalar, b: &Scalar) -> (r: Scalar)
    requires
        a.wf(),
        b.wf(),
    ensures
        r.wf(),
        r@ == (a@ + b@) % modulus(),
{
    let x = Fr::new(BigInt(a.limbs)) + Fr::new(BigInt(b.limbs));
    Scalar { limbs: x.into_bigint().0 }
}

/// `ark_bls12_381::Fr` subtraction: the difference of the two elements, reduced.
#[verifier::external_body]
fn fr_sub(a: &Scalar, b: &Scalar) -> (r: Scalar)
    requires
        a.wf(),
        b.wf(),
    ensures
        r.wf(),
        r@ == (a@ - b@) % modulus(),
{
    let x = Fr::new(BigInt(a.limbs)) - Fr::new(BigInt(b.limbs));
    Scalar { limbs: x.into_bigint().0 }
}

/// `ark_bls12_381::Fr` multiplication: the product of the two elements, reduced.
#[verifier::external_body]
fn fr_mul(a: &Scalar, b: &Scalar) -> (r: Scalar)
    requires
        a.wf(),
        b.wf(),
    ensures
        r.wf(),
        r@ == (a@ * b@) % modulus(),
{
    let x = Fr::new(BigInt(a.limbs)) * Fr::new(BigInt(b.limbs));
    Scalar { limbs: x.into_bigint().0 }
}

/// `ark_bls12_381::Fr` negation: the additive inverse of the element.
#[verifier::external_body]
fn fr_neg(a: &Scalar) -> (r: Scalar)
    requires
        a.wf(),
    ensures
        r.wf(),
        r@ == (-a@) % modulus(),
{
    let x = -Fr::new(BigInt(a.limbs));
    Scalar { limbs: x.into_bigint().0 }
}

/// `ark_ff::Field::inverse` on `ark_bls12_381::Fr`: nothing for zero, and
/// otherwise the element whose product with the argument is one.
#[verifier::external_body]
fn fr_inverse(a: &Scalar) -> (r: Option<Scalar>)
    requires
        a.wf(),
    ensures
        r.is_none() <==> a@ == 0,
        r.is_some() ==> r.unwrap().wf() && (r.unwrap()@ * a@) % modulus() == 1,
{
    match Fr::new(BigInt(a.limbs)).inverse() {
        Some(x) => Some(Scalar { limbs: x.into_bigint().0 }),
        None => None,
    }
}

/// `ark_ff::Field::pow` on `ark_bls12_381::Fr` with a one-limb exponent: the
/// element raised to that power.
#[verifier::external_body]
fn fr_pow(a: &Scalar, e: u64) -> (r: Scalar)
    requires
        a.wf(),
    ensures
        r.wf(),
        r@ == pow(a@, e as nat) % modulus(),
{
    let x = Fr::new(BigInt(a.limbs)).pow([e]);
    Scalar { limbs: x.into_bigint().0 }
}

/// `ark_ff::UniformRand::rand` for `ark_bls12_381::Fr`: some field element.
#[verifier::external_body]
fn fr_rand(rng: &mut StdRng) -> (r: Scalar)
    ensures
        r.wf(),
{
    Scalar { limbs: Fr::rand(rng).into_bigint().0 }
}

/// `ark_serialize::CanonicalSerialize::serialized_size` of an
/// `ark_bls12_381::Fr` element: the bytes that hold the bits of the modulus.
#[verifier::external_body]
fn fr_serialized_size(a: &Scalar) -> (r: usize)
    ensures
        r == 32,
{
    Fr::new(BigInt(a.limbs)).serialized_size(Compress::Yes)
}

/// `rand::distributions::uniform::SampleRange::sample_single` on the range
/// from zero to `n`: some index below `n`.
#[verifier::external_body]
fn rng_index(rng: &mut StdRng, n: usize) -> (r: usize)
    requires
        n > 0,
    ensures
        r < n,
{
    (0..n).sample_single(rng)
}

/// `rand::SeedableRng::from_seed` for `rand::rngs::StdRng`: the generator
/// that the seed determines.
#[verifier::external_body]
fn rng_from_seed(seed: [u8; 32]) -> (r: StdRng) {
    StdRng::from_seed(seed)
}

/// A generator with a fixed seed, for tests and benchmarks only: what it
/// gives is known to everybody.
pub fn test_rng() -> (r: StdRng) {
    rng_from_seed(
        [
            1, 0, 0, 0, 23, 0, 0, 0, 200, 1, 0, 0, 210, 30, 0, 0, 0, 0, 0, 0, 0, 0, 0, 0, 0, 0, 0, 0,
            0, 0, 0, 0,
        ],
    )
}

/// A generator with the given seed.
pub fn seeded_rng(seed: [u8; 32]) -> (r: StdRng) {
    rng_from_seed(seed)
}

/// An index below `n` drawn from `rng`.
pub fn rand_index(rng: &mut StdRng, n: usize) -> (r: usize)
    requires
        n > 0,
    ensures
        r < n,
{
    rng_index(rng, n)
}

/// `rand::Rng::gen` for `u128`: some 128-bit number.
#[verifier::external_body]
fn rng_u128(rng: &mut StdRng) -> (r: u128) {
    rand::Rng::gen::<u128>(rng)
}

/// A 128-bit number drawn from `rng`.
pub fn rand_u128(rng: &mut StdRng) -> (r: u128) {
    rng_u128(rng)
}

impl Scalar {
    /// Whether the limbs hold a canonical representative.
    pub open spec fn wf(&self) -> bool {
        0 <= self@ < modulus()
    }

    /// The additive identity.
    pub fn zero() -> (r: Scalar)
        ensures
            r.wf(),
            r@ == 0,
    {
        Scalar { limbs: [0, 0, 0, 0] }
    }

    /// The multiplicative identity.
    pub fn one() -> (r: Scalar)
        ensures
            r.wf(),
            r@ == 1,
    {
        Scalar { limbs: [1, 0, 0, 0] }
    }

    /// The field element with the given small value.
    pub fn from_u64(x: u64) -> (r: Scalar)
        ensures
            r.wf(),
            r@ == x,
    {
        Scalar { limbs: [x, 0, 0, 0] }
    }

    /// The field element with the given 128-bit value.
    pub fn from_u128(x: u128) -> (r: Scalar)
        ensures
            r.wf(),
            r@ == x,
    {
        let lo = (x & 0xffff_ffff_ffff_ffff) as u64;
        let hi = (x >> 64) as u64;
        assert(x == (x & 0xffff_ffff_ffff_ffff) + (x >> 64) * 0x1_0000_0000_0000_0000) by (bit_vector);
        assert((x & 0xffff_ffff_ffff_ffff) <= 0xffff_ffff_ffff_ffff) by (bit_vector);
        assert((x >> 64) <= 0xffff_ffff_ffff_ffff) by (bit_vector);
        Scalar { limbs: [lo, hi, 0, 0] }
    }

    /// Whether this is the additive identity.
    pub fn is_zero(&self) -> (b: bool)
        ensures
            b == (self@ == 0),
    {
        self.limbs[0] == 0 && self.limbs[1] == 0 && self.limbs[2] == 0 && self.limbs[3] == 0
    }

    /// Whether two elements are the same.
    pub fn equals(&self, other: &Scalar) -> (b: bool)
        ensures
            b == (self@ == other@),
            b == (*self == *other),
    {
        let b = self.limbs[0] == other.limbs[0] && self.limbs[1] == other.limbs[1]
            && self.limbs[2] == other.limbs[2] && self.limbs[3] == other.limbs[3];
        proof {
            if b {
                assert(self.limbs =~= other.limbs);
            }
        }
        b
    }

    /// The sum of two elements.
    pub fn add(&self, other: &Scalar) -> (r: Scalar)
        requires
            self.wf(),
            other.wf(),
        ensures
            r.wf(),
            r@ == (self@ + other@) % modulus(),
            r@ == if self@ + other@ < modulus() {
                self@ + other@
            } else {
                self@ + other@ - modulus()
            },
    {
        proof {
            let sum = self@ + other@;
            if sum < modulus() {
                lemma_small_mod(sum as nat, modulus() as nat);
            } else {
                lemma_small_mod((sum - modulus()) as nat, modulus() as nat);
                lemma_mod_sub_multiples_vanish(sum, modulus());
            }
        }
        fr_add(self, other)
    }

    /// The difference of two elements.
    pub fn sub(&self, other: &Scalar) -> (r: Scalar)
        requires
            self.wf(),
            other.wf(),
        ensures
            r.wf(),
            r@ == (self@ - other@) % modulus(),
            r@ == if self@ >= other@ {
                self@ - other@
            } else {
                self@ - other@ + modulus()
            },
    {
        proof {
            let d = self@ - other@;
            if d >= 0 {
                lemma_small_mod(d as nat, modulus() as nat);
            } else {
                lemma_small_mod((d + modulus()) as nat, modulus() as nat);
                lemma_mod_add_multiples_vanish(d, modulus());
            }
        }
        fr_sub(self, other)
    }

    /// The product of two elements.
    pub fn mul(&self, other: &Scalar) -> (r: Scalar)
        requires
            self.wf(),
            other.wf(),
        ensures
            r.wf(),
            r@ == (self@ * other@) % modulus(),
            self@ * other@ < modulus() ==> r@ == self@ * other@,
    {
        proof {
            assert(self@ * other@ >= 0) by (nonlinear_arith)
                requires
                    self@ >= 0,
                    other@ >= 0,
            ;
            if self@ * other@ < modulus() {
                lemma_small_mod((self@ * other@) as nat, modulus() as nat);
            }
        }
        fr_mul(self, other)
    }

    /// The additive inverse of an element.
    pub fn neg(&self) -> (r: Scalar)
        requires
            self.wf(),
        ensures
            r.wf(),
            r@ == (-self@) % modulus(),
            r@ == if self@ == 0 {
                0
            } else {
                modulus() - self@
            },
    {
        proof {
            if self@ == 0 {
                lemma_small_mod(0, modulus() as nat);
            } else {
                lemma_small_mod((modulus() - self@) as nat, modulus() as nat);
                lemma_mod_add_multiples_vanish(-self@, modulus());
            }
        }
        fr_neg(self)
    }

    /// The multiplicative inverse of an element, if it is not zero.
    pub fn inverse(&self) -> (r: Option<Scalar>)
        requires
            self.wf(),
        ensures
            r.is_none() <==> self@ == 0,
            r.is_some() ==> r.unwrap().wf() && (r.unwrap()@ * self@) % modulus() == 1,
    {
        fr_inverse(self)
    }

    /// The element raised to the power `e`.
    pub fn pow(&self, e: u64) -> (r: Scalar)
        requires
            self.wf(),
        ensures
            r.wf(),
            r@ == pow(self@, e as nat) % modulus(),
    {
        fr_pow(self, e)
    }

    /// The element with the given little-endian limbs, if they denote a
    /// number below the field's order.
    pub fn from_limbs(l0: u64, l1: u64, l2: u64, l3: u64) -> (r: Option<Scalar>)
        ensures
            r.is_some() <==> limbs_value(l0, l1, l2, l3) < modulus(),
            r.is_some() ==> r.unwrap().wf() && r.unwrap()@ == limbs_value(l0, l1, l2, l3),
    {
        let below = l3 < 0x73ed_a753_299d_7d48 || (l3 == 0x73ed_a753_299d_7d48 && (l2
            < 0x3339_d808_09a1_d805 || (l2 == 0x3339_d808_09a1_d805 && (l1 < 0x53bd_a402_fffe_5bfe || (
        l1 == 0x53bd_a402_fffe_5bfe && l0 < 0xffff_ffff_0000_0001)))));
        if below {
            Some(Scalar { limbs: [l0, l1, l2, l3] })
        } else {
            None
        }
    }

    /// The little-endian limbs of the element's canonical representative.
    pub fn to_limbs(&self) -> (r: (u64, u64, u64, u64))
        ensures
            limbs_value(r.0, r.1, r.2, r.3) == self@,
    {
        (self.limbs[0], self.limbs[1], self.limbs[2], self.limbs[3])
    }

    /// Canonical elements with the same value are the same.
    pub proof fn lemma_same_value(a: Scalar, b: Scalar)
        requires
            a@ == b@,
        ensures
            a == b,
    {
        assert(a.limbs =~= b.limbs);
    }

    /// The number of bytes of the element's encoding.
    pub fn serialized_size(&self) -> (r: usize)
        ensures
            r == 32,
    {
        fr_serialized_size(self)
    }

    /// A field element drawn from `rng`.
    pub fn rand(rng: &mut StdRng) -> (r: Scalar)
        ensures
            r.wf(),
    {
        fr_rand(rng)
    }
}

} // verus!
