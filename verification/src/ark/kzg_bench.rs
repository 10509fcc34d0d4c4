//! The KZG10 scheme behind the benchmark interface.
use crate::ark::curve::{G1Point, G2Point};
use crate::ark::field::{modulus, test_rng, Scalar};
use crate::ark::kzg::{
    check_equation, commitment_of, is_srs, is_trimmed, Commitment, Powers, Proof, UniversalParams,
    VerifierKey, KZG10,
};
use crate::ark::poly::{eval, quotient_by_linear, DensePolynomial};
use crate::PcBench;
use rand::rngs::StdRng;
use vstd::prelude::*;

verus! {

/// The scheme over BLS12-381.
pub type KzgBls12_381Bench = KzgPcBench;

/// The reference string and the generator that polynomials are drawn from.
pub struct Setup {
    pub params: UniversalParams,
    pub rng: StdRng,
}

/// The KZG10 scheme.
pub struct KzgPcBench {}

impl PcBench for KzgPcBench {
    type Setup = Setup;

    type Trimmed = (Powers, VerifierKey);

    type Poly = DensePolynomial;

    type Point = Scalar;

    type Eval = Scalar;

    type Commit = Commitment;

    type Proof = Proof;

    open spec fn valid_max_degree(max_degree: usize) -> bool {
        1 <= max_degree < usize::MAX - 1
    }

    open spec fn setup_wf(s: &Setup) -> bool {
        s.params.wf()
    }

    open spec fn made_for(s: &Setup, max_degree: usize) -> bool {
        exists|beta: int, g: G1Point, gamma_g: G1Point, h: G2Point|
            0 <= beta < modulus() && #[trigger] is_srs(s.params, max_degree as int, beta, g, gamma_g, h)
    }

    open spec fn valid_trim(s: &Setup, supported_degree: usize) -> bool {
        (if supported_degree == 1 {
            2
        } else {
            supported_degree as int
        }) <= s.params.powers_of_g.len() - 1
    }

    open spec fn trimmed_wf(t: &(Powers, VerifierKey)) -> bool {
        t.0.powers_of_g.len() >= 1
    }

    open spec fn trimmed_degree(t: &(Powers, VerifierKey)) -> nat {
        (t.0.powers_of_g.len() - 1) as nat
    }

    open spec fn poly_wf(p: &DensePolynomial) -> bool {
        p.wf()
    }

    open spec fn poly_degree(p: &DensePolynomial) -> nat {
        p.spec_degree()
    }

    open spec fn point_wf(pt: &Scalar) -> bool {
        pt.wf()
    }

    open spec fn eval_wf(value: &Scalar) -> bool {
        value.wf()
    }

    open spec fn proof_wf(proof: &Proof) -> bool {
        true
    }

    open spec fn bytes() -> nat {
        31
    }

    open spec fn is_value(p: &DensePolynomial, pt: &Scalar, value: &Scalar) -> bool {
        value@ == eval(p@, pt@) % modulus()
    }

    open spec fn is_commitment(t: &(Powers, VerifierKey), p: &DensePolynomial, c: &Commitment) -> bool {
        c.0 == commitment_of(t.0.powers_of_g@, p@)
    }

    open spec fn is_proof(t: &(Powers, VerifierKey), p: &DensePolynomial, pt: &Scalar, proof: &Proof) -> bool {
        proof.w == commitment_of(t.0.powers_of_g@, quotient_by_linear(p@, pt@))
    }

    open spec fn is_verdict(
        t: &(Powers, VerifierKey),
        c: &Commitment,
        proof: &Proof,
        value: &Scalar,
        pt: &Scalar,
        accepted: bool,
    ) -> bool {
        accepted == check_equation(t.1, *c, pt@, value@, *proof)
    }

    fn setup(max_degree: usize) -> (s: Setup) {
        let mut rng = test_rng();
        let params = match KZG10::setup(max_degree, false, &mut rng) {
            Ok(pp) => pp,
            Err(_) => unreached(),
        };
        Setup { params, rng: test_rng() }
    }

    fn trim(s: &Setup, supported_degree: usize) -> (t: (Powers, VerifierKey))
        ensures
            is_trimmed(s.params, supported_degree as int, t.0, t.1),
    {
        match KZG10::trim(&s.params, supported_degree) {
            Ok(t) => t,
            Err(_) => unreached(),
        }
    }

    fn rand_poly(s: &mut Setup, d: usize) -> (r: (DensePolynomial, Scalar, Scalar)) {
        let poly = DensePolynomial::rand(d, &mut s.rng);
        let pt = Scalar::rand(&mut s.rng);
        let eval = poly.evaluate(&pt);
        (poly, pt, eval)
    }

    fn bytes_per_elem() -> (r: usize) {
        Scalar::one().serialized_size() - 1
    }

    fn commit(t: &(Powers, VerifierKey), _s: &mut Setup, p: &DensePolynomial) -> (c: Commitment) {
        match KZG10::commit(&t.0, p) {
            Ok(c) => c,
            Err(_) => unreached(),
        }
    }

    fn open(t: &(Powers, VerifierKey), _s: &mut Setup, p: &DensePolynomial, pt: &Scalar) -> (proof:
        Proof) {
        match KZG10::open(&t.0, p, *pt) {
            Ok(proof) => proof,
            Err(_) => unreached(),
        }
    }

    fn verify(
        t: &(Powers, VerifierKey),
        c: &Commitment,
        proof: &Proof,
        value: &Scalar,
        pt: &Scalar,
    ) -> (accepted: bool) {
        match KZG10::check(&t.1, c, *pt, *value, proof) {
            Ok(b) => b,
            Err(_) => unreached(),
        }
    }
}

} // verus!
