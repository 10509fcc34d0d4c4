//! The commitment scheme and the FFT of the PLONK library behind the
//! benchmark interfaces.
//!
//! The keys are the library's own and are carried through as they are; what
//! they hold is named by the encodings of their points. Commitments cross as
//! those encodings. Where the library refuses a degree, nothing is handed on,
//! and verification fails.
use crate::ark::field::{modulus, test_rng, Scalar};
use crate::ark::poly::{all_wf, canon, eval, evaluate, quotient_by_linear, vals};
use crate::PcBench;
use dusk_bytes::Serializable;
use dusk_plonk::bls12_381::{BlsScalar, G1Affine};
use dusk_plonk::commitment_scheme::kzg10;
use dusk_plonk::commitment_scheme::kzg10::{CommitKey, OpeningKey, PublicParameters};
use dusk_plonk::fft::Polynomial;
use rand::rngs::StdRng;
use rand::Rng;
use rand_chacha::ChaCha20Rng;
use rand_core::SeedableRng;
use vstd::prelude::*;

pub mod enc_bench;
pub mod grid_bench;

verus! {

/// The public parameters of the scheme.
#[verifier::external_type_specification]
#[verifier::external_body]
pub struct ExPublicParameters(dusk_plonk::commitment_scheme::kzg10::PublicParameters);

/// The key that commits.
#[verifier::external_type_specification]
#[verifier::external_body]
pub struct ExCommitKey(dusk_plonk::commitment_scheme::kzg10::CommitKey);

/// The key that verifies openings.
#[verifier::external_type_specification]
#[verifier::external_body]
pub struct ExOpeningKey(dusk_plonk::commitment_scheme::kzg10::OpeningKey);

/// The powers in the first group that the parameters hold, each in its
/// compressed encoding.
pub uninterp spec fn params_powers(pp: PublicParameters) -> Seq<Seq<u8>>;

/// The points of the opening key that the parameters hold, each in its
/// compressed encoding.
pub uninterp spec fn params_opening(pp: PublicParameters) -> Seq<Seq<u8>>;

/// The powers in the first group that the key holds, each in its compressed
/// encoding.
pub uninterp spec fn key_powers(ck: CommitKey) -> Seq<Seq<u8>>;

/// The points that the opening key holds, each in its compressed encoding.
pub uninterp spec fn opening_points(vk: OpeningKey) -> Seq<Seq<u8>>;

/// The powers that a setup for the degree gives from the seed.
pub uninterp spec fn setup_powers(max_degree: int, seed: Seq<u8>) -> Seq<Seq<u8>>;

/// The encoding of the commitment to the coefficients under the powers.
pub uninterp spec fn commitment_bytes(powers: Seq<Seq<u8>>, coeffs: Seq<int>) -> Seq<u8>;

/// Whether the opening key accepts the proof made of the two encoded
/// commitments and the value, where both encodings are those of points.
pub uninterp spec fn check_verdict(
    opening: Seq<Seq<u8>>,
    point: int,
    c: Seq<u8>,
    value: int,
    witness: Seq<u8>,
) -> Option<bool>;

/// The degree that a trim to `degree` keeps: one counts as two.
pub open spec fn kept_degree(degree: int) -> int {
    if degree == 1 {
        2
    } else {
        degree
    }
}

/// Whether parameters with `n` powers can be trimmed to the degree: the
/// degree that is kept is not zero and has its power.
pub open spec fn trims(n: int, degree: int) -> bool {
    1 <= kept_degree(degree) <= n - 1
}

/// The degree of the polynomial with the given coefficients: zero for the
/// zero polynomial.
pub open spec fn degree_of(coeffs: Seq<int>) -> int {
    if canon(coeffs).len() == 0 {
        0
    } else {
        canon(coeffs).len() - 1
    }
}

/// What committing to the coefficients under the powers gives: nothing for
/// a constant and for a degree beyond the powers, and else the commitment.
pub open spec fn commit_result(powers: Seq<Seq<u8>>, coeffs: Seq<int>) -> Option<Seq<u8>> {
    if 1 <= degree_of(coeffs) <= powers.len() - 1 {
        Some(commitment_bytes(powers, coeffs))
    } else {
        None
    }
}

/// The bytes of an encoded point, if there is one.
pub open spec fn encoded(c: Option<[u8; 48]>) -> Option<Seq<u8>> {
    match c {
        Some(b) => Some(b@),
        None => None,
    }
}

/// `rand::Rng::gen` for an array of 32 bytes: some seed.
#[verifier::external_body]
fn rng_seed(rng: &mut StdRng) -> (r: [u8; 32]) {
    rng.gen::<[u8; 32]>()
}

/// `dusk_plonk::commitment_scheme::kzg10::PublicParameters::setup` with a
/// `rand_chacha::ChaCha20Rng` made from the seed: parameters with one power
/// for each degree up to `max_degree`, unless the degree is less than one.
#[verifier::external_body]
fn plonk_setup(max_degree: usize, seed: [u8; 32]) -> (r: Option<PublicParameters>)
    requires
        max_degree < usize::MAX,
    ensures
        r.is_some() <==> max_degree >= 1,
        r.is_some() ==> params_powers(r.unwrap()) == setup_powers(max_degree as int, seed@)
            && params_powers(r.unwrap()).len() == max_degree + 1,
{
    PublicParameters::setup(max_degree, &mut ChaCha20Rng::from_seed(seed)).ok()
}

/// `dusk_plonk::commitment_scheme::kzg10::PublicParameters::trim`: a key
/// with the powers up to the degree, where a degree of one counts as two,
/// and the opening key of the parameters; nothing where that degree is zero
/// or beyond the powers. Parameters without a power are left out.
#[verifier::external_body]
fn plonk_trim(pp: &PublicParameters, degree: usize) -> (r: Option<(CommitKey, OpeningKey)>)
    requires
        params_powers(*pp).len() >= 1,
    ensures
        r.is_some() <==> trims(params_powers(*pp).len() as int, degree as int),
        r.is_some() ==> key_powers(r.unwrap().0) == params_powers(*pp).take(
            kept_degree(degree as int) + 1,
        ) && opening_points(r.unwrap().1) == params_opening(*pp),
{
    pp.trim(degree).ok()
}

/// `dusk_plonk::commitment_scheme::kzg10::CommitKey::commit` on the
/// polynomial with the given coefficients: the encoding of the commitment,
/// unless the polynomial is constant or its degree is beyond the powers of
/// the key. A key without a power is left out.
#[verifier::external_body]
fn plonk_commit(ck: &CommitKey, coeffs: &Vec<Scalar>) -> (r: Option<[u8; 48]>)
    requires
        all_wf(coeffs@),
        key_powers(*ck).len() >= 1,
    ensures
        r.is_some() <==> 1 <= degree_of(vals(coeffs@)) <= key_powers(*ck).len() - 1,
        r.is_some() ==> r.unwrap()@ == commitment_bytes(key_powers(*ck), vals(coeffs@)),
{
    let c = coeffs.iter().map(|s| BlsScalar::from_raw(s.limbs)).collect();
    ck.commit(&Polynomial::from_coefficients_vec(c)).ok().map(|x| x.0.to_bytes())
}

/// `dusk_plonk::commitment_scheme::kzg10::CommitKey::compute_single_witness`
/// on the polynomial with the given coefficients: the quotient by `x - point`
/// of synthetic division, without its zeros of highest degree.
#[verifier::external_body]
fn plonk_single_witness(ck: &CommitKey, coeffs: &Vec<Scalar>, point: &Scalar) -> (r: Vec<Scalar>)
    requires
        all_wf(coeffs@),
        point.wf(),
    ensures
        all_wf(r@),
        vals(r@) == canon(quotient_by_linear(canon(vals(coeffs@)), point@)),
{
    let c = coeffs.iter().map(|s| BlsScalar::from_raw(s.limbs)).collect();
    let w = ck.compute_single_witness(&Polynomial::from_coefficients_vec(c), &BlsScalar::from_raw(point.limbs));
    w.coeffs.iter().map(|x| Scalar { limbs: x.reduce().0 }).collect()
}

/// `dusk_plonk::commitment_scheme::kzg10::OpeningKey::check` on the proof
/// made of the two commitments, decoded with `from_bytes`, and the value:
/// whether it accepts, and nothing where a commitment does not decode.
#[verifier::external_body]
fn plonk_check(vk: &OpeningKey, point: &Scalar, c: &[u8; 48], value: &Scalar, witness: &[u8; 48]) -> (r:
    Option<bool>)
    requires
        point.wf(),
        value.wf(),
    ensures
        r == check_verdict(opening_points(*vk), point@, c@, value@, witness@),
{
    match (G1Affine::from_bytes(c), G1Affine::from_bytes(witness)) {
        (Ok(c), Ok(w)) => {
            let proof = kzg10::Proof {
                commitment_to_witness: kzg10::Commitment(w),
                evaluated_point: BlsScalar::from_raw(value.limbs),
                commitment_to_polynomial: kzg10::Commitment(c),
            };
            Some(vk.check(BlsScalar::from_raw(point.limbs), proof))
        },
        _ => None,
    }
}

/// The commitment to the polynomial with the given coefficients, if the key
/// takes its degree: nothing for a constant and for a degree beyond the
/// powers of the key.
pub fn commit(ck: &CommitKey, coeffs: &Vec<Scalar>) -> (r: Option<[u8; 48]>)
    requires
        all_wf(coeffs@),
        key_powers(*ck).len() >= 1,
    ensures
        encoded(r) == commit_result(key_powers(*ck), vals(coeffs@)),
{
    plonk_commit(ck, coeffs)
}

/// The witness of the value of a polynomial at a point: the quotient by
/// `x - point`.
pub fn compute_single_witness(ck: &CommitKey, coeffs: &Vec<Scalar>, point: &Scalar) -> (r: Vec<Scalar>)
    requires
        all_wf(coeffs@),
        point.wf(),
    ensures
        all_wf(r@),
        vals(r@) == canon(quotient_by_linear(canon(vals(coeffs@)), point@)),
{
    plonk_single_witness(ck, coeffs, point)
}

/// Whether the opening key accepts the two commitments as a proof that the
/// committed polynomial has the value at the point; nothing where a
/// commitment does not decode.
pub fn check(vk: &OpeningKey, point: &Scalar, c: &[u8; 48], value: &Scalar, witness: &[u8; 48]) -> (r:
    Option<bool>)
    requires
        point.wf(),
        value.wf(),
    ensures
        r == check_verdict(opening_points(*vk), point@, c@, value@, witness@),
{
    plonk_check(vk, point, c, value, witness)
}

/// Whether the parameters are those of a setup for the degree from some
/// seed.
pub open spec fn is_setup_for(pp: PublicParameters, max_degree: int) -> bool {
    &&& params_powers(pp).len() == max_degree + 1
    &&& exists|seed: Seq<u8>| params_powers(pp) == #[trigger] setup_powers(max_degree, seed)
}

/// The parameters for polynomials of degree up to `max_degree`, from a seed
/// drawn from `rng`; none where the degree is less than one.
pub fn setup_parameters(max_degree: usize, rng: &mut StdRng) -> (r: Option<PublicParameters>)
    requires
        max_degree < usize::MAX,
    ensures
        r.is_some() <==> max_degree >= 1,
        r.is_some() ==> is_setup_for(r.unwrap(), max_degree as int),
{
    let seed = rng_seed(rng);
    plonk_setup(max_degree, seed)
}

/// The keys for polynomials of degree up to `degree`, where a degree of one
/// counts as two: the powers of the parameters up to that degree, and their
/// opening key. There are none where that degree is zero or beyond the
/// powers.
pub fn trim_parameters(pp: &PublicParameters, degree: usize) -> (r: Option<(CommitKey, OpeningKey)>)
    requires
        params_powers(*pp).len() >= 1,
    ensures
        r.is_some() <==> trims(params_powers(*pp).len() as int, degree as int),
        r.is_some() ==> key_powers(r.unwrap().0) == params_powers(*pp).take(
            kept_degree(degree as int) + 1,
        ) && opening_points(r.unwrap().1) == params_opening(*pp),
{
    plonk_trim(pp, degree)
}

/// The parameters, if the scheme gave any, and the generator that
/// polynomials are drawn from.
pub struct PlonkSetup {
    pub params: Option<PublicParameters>,
    pub rng: StdRng,
}

/// The scheme of the PLONK library.
pub struct PlonkKZG {}

/// What trimming the setup to the degree gives.
pub open spec fn is_trimmed(
    params: Option<PublicParameters>,
    degree: int,
    t: Option<(CommitKey, OpeningKey)>,
) -> bool {
    &&& t.is_some() <==> params.is_some() && trims(
        params_powers(params.unwrap()).len() as int,
        degree,
    )
    &&& t.is_some() ==> key_powers(t.unwrap().0) == params_powers(params.unwrap()).take(
        kept_degree(degree) + 1,
    ) && opening_points(t.unwrap().1) == params_opening(params.unwrap())
}

/// What committing to the coefficients under the keys gives: nothing without
/// keys.
pub open spec fn committed(t: Option<(CommitKey, OpeningKey)>, coeffs: Seq<int>) -> Option<Seq<u8>> {
    if t.is_some() {
        commit_result(key_powers(t.unwrap().0), coeffs)
    } else {
        None
    }
}

/// Whether the scheme accepts: there are keys, a commitment and a proof,
/// both decode, and the opening key accepts them.
pub open spec fn accepts(
    t: Option<(CommitKey, OpeningKey)>,
    c: Option<[u8; 48]>,
    proof: Option<[u8; 48]>,
    value: int,
    pt: int,
) -> bool {
    t.is_some() && c.is_some() && proof.is_some() && check_verdict(
        opening_points(t.unwrap().1),
        pt,
        c.unwrap()@,
        value,
        proof.unwrap()@,
    ) == Some(true)
}

impl PcBench for PlonkKZG {
    type Setup = PlonkSetup;

    type Trimmed = Option<(CommitKey, OpeningKey)>;

    type Poly = Vec<Scalar>;

    type Point = Scalar;

    type Eval = Scalar;

    type Commit = Option<[u8; 48]>;

    type Proof = Option<[u8; 48]>;

    open spec fn valid_max_degree(max_degree: usize) -> bool {
        max_degree < usize::MAX
    }

    /// Parameters have at least one power.
    open spec fn setup_wf(s: &PlonkSetup) -> bool {
        s.params.is_some() ==> params_powers(s.params.unwrap()).len() >= 1
    }

    open spec fn made_for(s: &PlonkSetup, max_degree: usize) -> bool {
        &&& s.params.is_some() <==> max_degree >= 1
        &&& s.params.is_some() ==> is_setup_for(s.params.unwrap(), max_degree as int)
    }

    open spec fn valid_trim(s: &PlonkSetup, supported_degree: usize) -> bool {
        true
    }

    /// A key has at least one power.
    open spec fn trimmed_wf(t: &Option<(CommitKey, OpeningKey)>) -> bool {
        t.is_some() ==> key_powers(t.unwrap().0).len() >= 1
    }

    /// Any polynomial may be handed over: the scheme refuses what is too
    /// large for the keys.
    open spec fn trimmed_degree(t: &Option<(CommitKey, OpeningKey)>) -> nat {
        usize::MAX as nat
    }

    open spec fn poly_wf(p: &Vec<Scalar>) -> bool {
        all_wf(p@)
    }

    open spec fn poly_degree(p: &Vec<Scalar>) -> nat {
        if p.len() == 0 {
            0
        } else {
            (p.len() - 1) as nat
        }
    }

    open spec fn point_wf(pt: &Scalar) -> bool {
        pt.wf()
    }

    open spec fn eval_wf(value: &Scalar) -> bool {
        value.wf()
    }

    open spec fn proof_wf(proof: &Option<[u8; 48]>) -> bool {
        true
    }

    open spec fn bytes() -> nat {
        32
    }

    open spec fn is_value(p: &Vec<Scalar>, pt: &Scalar, value: &Scalar) -> bool {
        value@ == eval(vals(p@), pt@) % modulus()
    }

    open spec fn is_commitment(t: &Option<(CommitKey, OpeningKey)>, p: &Vec<Scalar>, c: &Option<[u8; 48]>) -> bool {
        encoded(*c) == committed(*t, vals(p@))
    }

    open spec fn is_proof(
        t: &Option<(CommitKey, OpeningKey)>,
        p: &Vec<Scalar>,
        pt: &Scalar,
        proof: &Option<[u8; 48]>,
    ) -> bool {
        encoded(*proof) == committed(*t, canon(quotient_by_linear(canon(vals(p@)), pt@)))
    }

    open spec fn is_verdict(
        t: &Option<(CommitKey, OpeningKey)>,
        c: &Option<[u8; 48]>,
        proof: &Option<[u8; 48]>,
        value: &Scalar,
        pt: &Scalar,
        accepted: bool,
    ) -> bool {
        accepted == accepts(*t, *c, *proof, value@, pt@)
    }

    fn setup(max_degree: usize) -> (s: PlonkSetup) {
        let mut rng = test_rng();
        let params = setup_parameters(max_degree, &mut rng);
        PlonkSetup { params, rng }
    }

    fn trim(s: &PlonkSetup, supported_degree: usize) -> (t: Option<(CommitKey, OpeningKey)>)
        ensures
            is_trimmed(s.params, supported_degree as int, t),
    {
        match &s.params {
            Some(pp) => trim_parameters(pp, supported_degree),
            None => None,
        }
    }

    fn bytes_per_elem() -> (r: usize) {
        32
    }

    fn commit(t: &Option<(CommitKey, OpeningKey)>, _s: &mut PlonkSetup, p: &Vec<Scalar>) -> (c: Option<
        [u8; 48],
    >) {
        match t {
            Some(keys) => commit(&keys.0, p),
            None => None,
        }
    }

    fn open(t: &Option<(CommitKey, OpeningKey)>, _s: &mut PlonkSetup, p: &Vec<Scalar>, pt: &Scalar) -> (proof:
        Option<[u8; 48]>) {
        match t {
            Some(keys) => {
                let witness_poly = compute_single_witness(&keys.0, p, pt);
                commit(&keys.0, &witness_poly)
            },
            None => None,
        }
    }

    fn verify(
        t: &Option<(CommitKey, OpeningKey)>,
        c: &Option<[u8; 48]>,
        proof: &Option<[u8; 48]>,
        value: &Scalar,
        pt: &Scalar,
    ) -> (accepted: bool) {
        match (t, c, proof) {
            (Some(keys), Some(c), Some(w)) => {
                match check(&keys.1, pt, c, value, w) {
                    Some(b) => b,
                    None => false,
                }
            },
            _ => false,
        }
    }

    fn rand_poly(s: &mut PlonkSetup, d: usize) -> (r: (Vec<Scalar>, Scalar, Scalar)) {
        let pt = Scalar::rand(&mut s.rng);
        let mut poly: Vec<Scalar> = Vec::new();
        let mut i: usize = 0;
        while i <= d
            invariant
                0 <= i <= d + 1,
                d < usize::MAX,
                poly.len() == i,
                all_wf(poly@),
                s.params == old(s).params,
            decreases d + 1 - i,
        {
            let c = Scalar::rand(&mut s.rng);
            poly.push(c);
            i = i + 1;
        }
        let value = evaluate(&poly, &pt);
        (poly, pt, value)
    }
}

} // verus!
