//! Keys, commitments and proofs of the KZG10 scheme.
use crate::ark::curve::{g1_doubling, g1_product, g1_sum, G1Point, G2Point};
use crate::ark::field::Scalar;
use std::collections::BTreeMap;
use vstd::prelude::*;

verus! {

/// The structured reference string: powers of a secret scalar in the first
/// group, over two generators, and the secret times a generator of the second
/// group.
#[derive(Clone, Debug)]
pub struct UniversalParams {
    /// Group elements of the form `beta^i G`, where `i` ranges from 0 to `degree`.
    pub powers_of_g: Vec<G1Point>,
    /// Group elements of the form `beta^i gamma G`, where `i` ranges from 0
    /// to `degree + 1`, each under its `i`.
    pub powers_of_gamma_g: BTreeMap<usize, G1Point>,
    /// The generator of G2.
    pub h: G2Point,
    /// `beta` times the above generator of G2.
    pub beta_h: G2Point,
    /// The generator of G2, as pairings take it.
    pub prepared_h: G2Point,
    /// `beta` times the above generator of G2, as pairings take it.
    pub prepared_beta_h: G2Point,
}

impl UniversalParams {
    /// Whether there is at least one power, and a power of the hiding
    /// generator under every index up to the number of powers, which is one
    /// more than those, and under no other.
    pub open spec fn wf(&self) -> bool {
        &&& self.powers_of_g.len() >= 1
        &&& forall|i: usize|
            self.powers_of_gamma_g@.contains_key(i) <==> i <= self.powers_of_g.len()
    }

    /// The largest degree that the parameters support.
    pub fn max_degree(&self) -> (r: usize)
        requires
            self.powers_of_g.len() >= 1,
        ensures
            r == self.powers_of_g.len() - 1,
    {
        self.powers_of_g.len() - 1
    }
}

/// `Powers` is used to commit to and create evaluation proofs for a given
/// polynomial.
#[derive(Clone, Debug)]
pub struct Powers {
    /// Group elements of the form `beta^i G`, for different values of `i`.
    pub powers_of_g: Vec<G1Point>,
    /// Group elements of the form `beta^i gamma G`, for different values of `i`.
    pub powers_of_gamma_g: Vec<G1Point>,
}

impl Powers {
    /// The number of powers in `self`.
    pub fn size(&self) -> (r: usize)
        ensures
            r == self.powers_of_g.len(),
    {
        self.powers_of_g.len()
    }
}

/// `VerifierKey` is used to check evaluation proofs for a given commitment.
#[derive(Clone, Copy, Debug, PartialEq, Eq)]
pub struct VerifierKey {
    /// The generator of G1.
    pub g: G1Point,
    /// The generator of G1 that is used for making a commitment hiding.
    pub gamma_g: G1Point,
    /// The generator of G2.
    pub h: G2Point,
    /// `beta` times the above generator of G2.
    pub beta_h: G2Point,
    /// The generator of G2, as pairings take it.
    pub prepared_h: G2Point,
    /// `beta` times the above generator of G2, as pairings take it.
    pub prepared_beta_h: G2Point,
}

/// `PreparedVerifierKey` holds the powers of two of the generator of G1,
/// beside the elements of G2. The hiding generator is left out.
#[derive(Clone, Debug)]
pub struct PreparedVerifierKey {
    /// The generator of G1, prepared for power series.
    pub prepared_g: Vec<G1Point>,
    /// The generator of G2, as pairings take it.
    pub prepared_h: G2Point,
    /// `beta` times the above generator of G2, as pairings take it.
    pub prepared_beta_h: G2Point,
}

/// `Commitment` commits to a polynomial. It is output by `KZG10::commit`.
#[derive(Clone, Copy, Debug, PartialEq, Eq)]
pub struct Commitment(
    /// The commitment is a group element.
    pub G1Point,
);

impl Commitment {
    /// The commitment to the zero polynomial: the neutral element.
    pub fn empty() -> (r: Commitment)
        ensures
            r.0 == G1Point::spec_identity(),
    {
        Commitment(G1Point::identity())
    }

    /// A plain commitment carries no degree bound.
    pub fn has_degree_bound(&self) -> (r: bool)
        ensures
            !r,
    {
        false
    }

    /// The number of bytes of the compressed commitment.
    pub fn size_in_bytes(&self) -> (r: usize)
        ensures
            r == 48,
    {
        self.0.compressed_size()
    }

    /// Adds `f` times `other` to this commitment.
    pub fn add_assign(&mut self, f: &Scalar, other: &Commitment)
        requires
            f.wf(),
        ensures
            final(self).0 == g1_sum(g1_product(other.0, f@), old(self).0),
    {
        let scaled = other.0.mul(f);
        self.0 = scaled.add(&self.0);
    }
}

/// The point doubled `n` times.
pub open spec fn repeated_doubling(p: G1Point, n: nat) -> G1Point
    decreases n,
{
    if n == 0 {
        p
    } else {
        g1_doubling(repeated_doubling(p, (n - 1) as nat))
    }
}

/// The number of bits of the scalar field's order.
pub const MODULUS_BIT_SIZE: usize = 255;

/// `PreparedCommitment` commits to a polynomial and prepares for mul_bits.
#[derive(Clone, Debug)]
pub struct PreparedCommitment(
    /// The commitment's multiples by the powers of two.
    pub Vec<G1Point>,
);

impl PreparedCommitment {
    /// prepare `PreparedCommitment` from `Commitment`
    pub fn prepare(comm: &Commitment) -> (r: PreparedCommitment)
        ensures
            r.0.len() == MODULUS_BIT_SIZE,
            forall|i: int| 0 <= i < MODULUS_BIT_SIZE ==> #[trigger] r.0[i] == repeated_doubling(comm.0, i as nat),
    {
        let mut prepared_comm: Vec<G1Point> = Vec::new();
        let mut cur = comm.0;
        let mut i: usize = 0;
        while i < MODULUS_BIT_SIZE
            invariant
                0 <= i <= MODULUS_BIT_SIZE,
                prepared_comm.len() == i,
                cur == repeated_doubling(comm.0, i as nat),
                forall|j: int| 0 <= j < i ==> #[trigger] prepared_comm[j] == repeated_doubling(comm.0, j as nat),
            decreases MODULUS_BIT_SIZE - i,
        {
            prepared_comm.push(cur);
            cur = cur.double();
            i = i + 1;
        }
        PreparedCommitment(prepared_comm)
    }
}

/// `Proof` is an evaluation proof that is output by `KZG10::open`.
#[derive(Clone, Copy, Debug, PartialEq, Eq)]
pub struct Proof {
    /// This is a commitment to the witness polynomial.
    pub w: G1Point,
}

impl Proof {
    /// The number of bytes of the compressed proof.
    pub fn size_in_bytes(&self) -> (r: usize)
        ensures
            r == 48,
    {
        self.w.compressed_size()
    }
}

} // verus!
