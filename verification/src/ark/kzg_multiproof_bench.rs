//! The two multiproof schemes behind the benchmark interface: `N_POLY`
//! polynomials are opened at `N_PTS` points with one proof.
use crate::ark::curve::{G1Point, G2Point};
use crate::ark::field::{modulus, test_rng, Scalar};
use crate::ark::kzg_multiproof::{curve_msm_result, method1, method2, Error};
use crate::ark::poly::{all_wf, vals};
use crate::ark::roots::{all_wf2, lemma_longest_bound, lemma_longest_is_upper, vals2};
use crate::ark::streaming_kzg_bench::{
    are_values, elements_bytes, instance_degree, rand_instance, spec_elements_bytes,
};
use crate::PcBench;
use vstd::prelude::*;

verus! {

/// The first multiproof scheme for `N_POLY` polynomials and `N_PTS` points.
pub struct Multiproof1Bench<const N_PTS: usize, const N_POLY: usize> {}

/// The second multiproof scheme for `N_POLY` polynomials and `N_PTS` points.
pub struct Multiproof2Bench<const N_PTS: usize, const N_POLY: usize> {}

/// No polynomial of degree up to `d` has more than `d + 1` coefficients.
pub proof fn lemma_instance_lengths(p: Seq<Vec<Scalar>>, bound: int)
    requires
        bound >= 1,
        instance_degree(p) <= bound - 1,
    ensures
        forall|i: int| 0 <= i < p.len() ==> (#[trigger] p[i]).len() <= bound,
{
    assert forall|i: int| 0 <= i < p.len() implies (#[trigger] p[i]).len() <= bound by {
        lemma_longest_is_upper(p, p.len(), i);
    }
}

impl<const N_PTS: usize, const N_POLY: usize> PcBench for Multiproof1Bench<N_PTS, N_POLY> {
    type Setup = ();

    type Trimmed = method1::Setup;

    type Poly = Vec<Vec<Scalar>>;

    type Point = Vec<Scalar>;

    type Eval = Vec<Vec<Scalar>>;

    type Commit = Vec<method1::Commitment>;

    type Proof = (method1::Proof, Scalar);

    open spec fn valid_max_degree(max_degree: usize) -> bool {
        N_PTS < usize::MAX - 2 && N_POLY >= 1
    }

    open spec fn setup_wf(s: &()) -> bool {
        N_PTS < usize::MAX - 2 && N_POLY >= 1
    }

    open spec fn made_for(s: &(), max_degree: usize) -> bool {
        true
    }

    open spec fn valid_trim(s: &(), supported_degree: usize) -> bool {
        N_PTS <= supported_degree < usize::MAX
    }

    open spec fn trimmed_wf(t: &method1::Setup) -> bool {
        t.powers_of_g1.len() >= 1 && t.powers_of_g2.len() >= 1
    }

    open spec fn trimmed_degree(t: &method1::Setup) -> nat {
        (t.powers_of_g1.len() - 1) as nat
    }

    open spec fn poly_wf(p: &Vec<Vec<Scalar>>) -> bool {
        all_wf2(p@) && p.len() >= 1
    }

    open spec fn poly_degree(p: &Vec<Vec<Scalar>>) -> nat {
        instance_degree(p@)
    }

    open spec fn point_wf(pt: &Vec<Scalar>) -> bool {
        all_wf(pt@) && pt.len() < usize::MAX - 2
    }

    open spec fn eval_wf(value: &Vec<Vec<Scalar>>) -> bool {
        all_wf2(value@)
    }

    open spec fn proof_wf(proof: &(method1::Proof, Scalar)) -> bool {
        proof.1.wf()
    }

    open spec fn bytes() -> nat {
        spec_elements_bytes(N_PTS, N_POLY)
    }

    open spec fn is_value(p: &Vec<Vec<Scalar>>, pt: &Vec<Scalar>, value: &Vec<Vec<Scalar>>) -> bool {
        are_values(p@, pt@, value@)
    }

    open spec fn is_commitment(t: &method1::Setup, p: &Vec<Vec<Scalar>>, c: &Vec<method1::Commitment>) -> bool {
        &&& c.len() == p.len()
        &&& forall|i: int|
            0 <= i < p.len() ==> curve_msm_result(t.powers_of_g1@, vals(p[i]@)) == Ok::<
                G1Point,
                Error,
            >((#[trigger] c[i]).0)
    }

    open spec fn is_proof(
        t: &method1::Setup,
        p: &Vec<Vec<Scalar>>,
        pt: &Vec<Scalar>,
        proof: &(method1::Proof, Scalar),
    ) -> bool {
        method1::open_result(*t, vals2(p@), vals(pt@), proof.1@) == Ok::<method1::Proof, Error>(
            proof.0,
        )
    }

    open spec fn is_verdict(
        t: &method1::Setup,
        c: &Vec<method1::Commitment>,
        proof: &(method1::Proof, Scalar),
        value: &Vec<Vec<Scalar>>,
        pt: &Vec<Scalar>,
        accepted: bool,
    ) -> bool {
        accepted == (method1::verify_result(*t, c@, vals(pt@), vals2(value@), proof.0, proof.1@)
            == Ok::<bool, Error>(true))
    }

    fn setup(_max_degree: usize) -> (s: ()) {
        ()
    }

    fn trim(_s: &(), supported_degree: usize) -> (t: method1::Setup)
        ensures
            exists|x: int, g1: G1Point, g2: G2Point|
                0 <= x < modulus() && #[trigger] method1::is_setup(
                    t.powers_of_g1@,
                    t.powers_of_g2@,
                    supported_degree as int,
                    N_PTS as int,
                    x,
                    g1,
                    g2,
                ),
    {
        method1::Setup::new(supported_degree, N_PTS, &mut test_rng())
    }

    fn rand_poly(_s: &mut (), d: usize) -> (r: (Vec<Vec<Scalar>>, Vec<Scalar>, Vec<Vec<Scalar>>)) {
        let r = rand_instance(N_POLY, N_PTS, d);
        proof {
            lemma_longest_bound(r.0@, r.0.len() as nat, d + 1);
        }
        r
    }

    fn bytes_per_elem() -> (r: usize) {
        elements_bytes(N_PTS, N_POLY)
    }

    fn commit(t: &method1::Setup, _s: &mut (), p: &Vec<Vec<Scalar>>) -> (c: Vec<method1::Commitment>) {
        let mut c: Vec<method1::Commitment> = Vec::new();
        let mut i: usize = 0;
        proof {
            lemma_instance_lengths(p@, t.powers_of_g1.len() as int);
        }
        while i < p.len()
            invariant
                0 <= i <= p.len(),
                all_wf2(p@),
                c.len() == i,
                forall|k: int| 0 <= k < p.len() ==> (#[trigger] p[k]).len() <= t.powers_of_g1.len(),
                forall|k: int|
                    0 <= k < i ==> curve_msm_result(t.powers_of_g1@, vals(p[k]@)) == Ok::<
                        G1Point,
                        Error,
                    >((#[trigger] c[k]).0),
            decreases p.len() - i,
        {
            assert(all_wf(p[i as int]@));
            match t.commit(p[i].as_slice()) {
                Ok(x) => c.push(x),
                Err(_) => unreached(),
            }
            i = i + 1;
        }
        c
    }

    fn open(t: &method1::Setup, _s: &mut (), p: &Vec<Vec<Scalar>>, pt: &Vec<Scalar>) -> (proof: (
        method1::Proof,
        Scalar,
    )) {
        let chal = Scalar::rand(&mut test_rng());
        proof {
            lemma_instance_lengths(p@, t.powers_of_g1.len() as int);
        }
        match t.open(p.as_slice(), pt.as_slice(), chal) {
            Ok(proof) => (proof, chal),
            Err(_) => unreached(),
        }
    }

    fn verify(
        t: &method1::Setup,
        c: &Vec<method1::Commitment>,
        proof: &(method1::Proof, Scalar),
        value: &Vec<Vec<Scalar>>,
        pt: &Vec<Scalar>,
    ) -> (accepted: bool) {
        match t.verify(c.as_slice(), pt.as_slice(), value.as_slice(), &proof.0, proof.1) {
            Ok(b) => b,
            Err(_) => false,
        }
    }
}

impl<const N_PTS: usize, const N_POLY: usize> PcBench for Multiproof2Bench<N_PTS, N_POLY> {
    type Setup = ();

    type Trimmed = method2::Setup;

    type Poly = Vec<Vec<Scalar>>;

    type Point = Vec<Scalar>;

    type Eval = Vec<Vec<Scalar>>;

    type Commit = Vec<method2::Commitment>;

    type Proof = (method2::Proof, Scalar, Scalar);

    open spec fn valid_max_degree(max_degree: usize) -> bool {
        1 <= N_PTS < usize::MAX / 2 - 2 && N_POLY >= 1
    }

    open spec fn setup_wf(s: &()) -> bool {
        1 <= N_PTS < usize::MAX / 2 - 2 && N_POLY >= 1
    }

    open spec fn made_for(s: &(), max_degree: usize) -> bool {
        true
    }

    open spec fn valid_trim(s: &(), supported_degree: usize) -> bool {
        N_PTS <= supported_degree < usize::MAX
    }

    open spec fn trimmed_wf(t: &method2::Setup) -> bool {
        t.wf()
    }

    open spec fn trimmed_degree(t: &method2::Setup) -> nat {
        (t.powers_of_g1.len() - 1) as nat
    }

    open spec fn poly_wf(p: &Vec<Vec<Scalar>>) -> bool {
        all_wf2(p@) && p.len() >= 1
    }

    open spec fn poly_degree(p: &Vec<Vec<Scalar>>) -> nat {
        instance_degree(p@)
    }

    open spec fn point_wf(pt: &Vec<Scalar>) -> bool {
        all_wf(pt@) && pt.len() < usize::MAX / 2 - 2
    }

    open spec fn eval_wf(value: &Vec<Vec<Scalar>>) -> bool {
        all_wf2(value@)
    }

    open spec fn proof_wf(proof: &(method2::Proof, Scalar, Scalar)) -> bool {
        proof.1.wf() && proof.2.wf()
    }

    open spec fn bytes() -> nat {
        spec_elements_bytes(N_PTS, N_POLY)
    }

    open spec fn is_value(p: &Vec<Vec<Scalar>>, pt: &Vec<Scalar>, value: &Vec<Vec<Scalar>>) -> bool {
        are_values(p@, pt@, value@)
    }

    open spec fn is_commitment(t: &method2::Setup, p: &Vec<Vec<Scalar>>, c: &Vec<method2::Commitment>) -> bool {
        &&& c.len() == p.len()
        &&& forall|i: int|
            0 <= i < p.len() ==> curve_msm_result(t.powers_of_g1@, vals(p[i]@)) == Ok::<
                G1Point,
                Error,
            >((#[trigger] c[i]).0)
    }

    open spec fn is_proof(
        t: &method2::Setup,
        p: &Vec<Vec<Scalar>>,
        pt: &Vec<Scalar>,
        proof: &(method2::Proof, Scalar, Scalar),
    ) -> bool {
        method2::open_result(*t, vals2(p@), vals(pt@), proof.1@, proof.2@) == Ok::<
            method2::Proof,
            Error,
        >(proof.0)
    }

    open spec fn is_verdict(
        t: &method2::Setup,
        c: &Vec<method2::Commitment>,
        proof: &(method2::Proof, Scalar, Scalar),
        value: &Vec<Vec<Scalar>>,
        pt: &Vec<Scalar>,
        accepted: bool,
    ) -> bool {
        accepted == (method2::verify_result(
            *t,
            c@,
            vals(pt@),
            vals2(value@),
            proof.0,
            proof.1@,
            proof.2@,
        ) == Ok::<bool, Error>(true))
    }

    fn setup(_max_degree: usize) -> (s: ()) {
        ()
    }

    fn trim(_s: &(), supported_degree: usize) -> (t: method2::Setup)
        ensures
            exists|x: int, g1: G1Point, g2: G2Point|
                0 <= x < modulus() && #[trigger] method1::is_setup(
                    t.powers_of_g1@,
                    t.powers_of_g2@,
                    supported_degree as int,
                    N_PTS as int,
                    x,
                    g1,
                    g2,
                ),
    {
        method2::Setup::new(supported_degree, N_PTS, &mut test_rng())
    }

    fn rand_poly(_s: &mut (), d: usize) -> (r: (Vec<Vec<Scalar>>, Vec<Scalar>, Vec<Vec<Scalar>>)) {
        let r = rand_instance(N_POLY, N_PTS, d);
        proof {
            lemma_longest_bound(r.0@, r.0.len() as nat, d + 1);
        }
        r
    }

    fn bytes_per_elem() -> (r: usize) {
        elements_bytes(N_PTS, N_POLY)
    }

    fn commit(t: &method2::Setup, _s: &mut (), p: &Vec<Vec<Scalar>>) -> (c: Vec<method2::Commitment>) {
        let mut c: Vec<method2::Commitment> = Vec::new();
        let mut i: usize = 0;
        proof {
            lemma_instance_lengths(p@, t.powers_of_g1.len() as int);
        }
        while i < p.len()
            invariant
                0 <= i <= p.len(),
                all_wf2(p@),
                c.len() == i,
                forall|k: int| 0 <= k < p.len() ==> (#[trigger] p[k]).len() <= t.powers_of_g1.len(),
                forall|k: int|
                    0 <= k < i ==> curve_msm_result(t.powers_of_g1@, vals(p[k]@)) == Ok::<
                        G1Point,
                        Error,
                    >((#[trigger] c[k]).0),
            decreases p.len() - i,
        {
            assert(all_wf(p[i as int]@));
            match t.commit(p[i].as_slice()) {
                Ok(x) => c.push(x),
                Err(_) => unreached(),
            }
            i = i + 1;
        }
        c
    }

    fn open(t: &method2::Setup, _s: &mut (), p: &Vec<Vec<Scalar>>, pt: &Vec<Scalar>) -> (proof: (
        method2::Proof,
        Scalar,
        Scalar,
    )) {
        let chal1 = Scalar::rand(&mut test_rng());
        let chal2 = Scalar::rand(&mut test_rng());
        proof {
            lemma_instance_lengths(p@, t.powers_of_g1.len() as int);
        }
        match t.open(p.as_slice(), pt.as_slice(), chal1, chal2) {
            Ok(proof) => (proof, chal1, chal2),
            Err(_) => unreached(),
        }
    }

    fn verify(
        t: &method2::Setup,
        c: &Vec<method2::Commitment>,
        proof: &(method2::Proof, Scalar, Scalar),
        value: &Vec<Vec<Scalar>>,
        pt: &Vec<Scalar>,
    ) -> (accepted: bool) {
        match t.verify(c.as_slice(), pt.as_slice(), value.as_slice(), &proof.0, proof.1, proof.2) {
            Ok(b) => b,
            Err(_) => false,
        }
    }
}

} // verus!
