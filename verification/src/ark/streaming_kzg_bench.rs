//! The streaming KZG scheme behind the benchmark interface: `N_POLY`
//! polynomials are opened at `N_PTS` points with one proof.
use crate::ark::curve::{g1_msm_value, G1Point, G2Point};
use crate::ark::field::{modulus, test_rng, Scalar};
use crate::ark::poly::{all_wf, eval, evaluate, vals, DensePolynomial};
use crate::ark::roots::{
    all_wf2, interpolable, lemma_longest_bound, lincomb, longest, vals2,
};
use crate::ark::streaming_kzg::time::{is_committer_key, multi_opening};
use crate::ark::streaming_kzg::{multi_points_equation, power_values};
use crate::ark::streaming_kzg::{Commitment, CommitterKey, EvaluationProof, VerifierKey};
use crate::PcBench;
use vstd::prelude::*;

verus! {

/// The streaming scheme for `N_POLY` polynomials and `N_PTS` points.
pub struct StreamingKzgBench<const N_PTS: usize, const N_POLY: usize> {}

/// The keys of the committer and of the verifier.
pub struct Setup {
    pub ck: CommitterKey,
    pub vk: VerifierKey,
}

/// Whether the setup holds the committer key of some secret and generators
/// for polynomials of degree up to `max_degree` and openings at up to
/// `max_eval_points` points, and the verifier key that belongs to it: all
/// its powers in the second group, and one power fewer in the first.
pub open spec fn is_key_pair(t: Setup, max_degree: int, max_eval_points: int) -> bool {
    &&& exists|tau: int, g: G1Point, g2: G2Point|
        0 <= tau < modulus() && #[trigger] is_committer_key(t.ck, max_degree, max_eval_points, tau, g, g2)
    &&& t.vk.powers_of_g2@ == t.ck.powers_of_g2@
    &&& t.vk.powers_of_g@ == t.ck.powers_of_g@.take(t.ck.powers_of_g2.len() - 1)
}

/// Whether there are `n` polynomials of canonical coefficients, none with
/// more coefficients than `d + 1`.
pub open spec fn is_instance(polys: Seq<Vec<Scalar>>, n: int, d: int) -> bool {
    &&& polys.len() == n
    &&& all_wf2(polys)
    &&& forall|i: int| 0 <= i < n ==> (#[trigger] polys[i]).len() <= d + 1
}

/// Whether `values` holds, for each polynomial, its values at the points.
pub open spec fn are_values(polys: Seq<Vec<Scalar>>, points: Seq<Scalar>, values: Seq<Vec<Scalar>>) -> bool {
    &&& values.len() == polys.len()
    &&& forall|i: int| 0 <= i < polys.len() ==> (#[trigger] values[i]).len() == points.len()
    &&& forall|i: int, j: int|
        0 <= i < polys.len() && 0 <= j < points.len() ==> (#[trigger] values[i][j])@ == eval(
            vals(polys[i]@),
            points[j]@,
        ) % modulus()
}

/// The number of bytes of data that `n_pts * n_poly` scalars carry, or the
/// largest number where that is beyond it.
pub open spec fn spec_elements_bytes(n_pts: usize, n_poly: usize) -> nat {
    if 31 * n_pts * n_poly <= usize::MAX {
        (31 * n_pts * n_poly) as nat
    } else {
        usize::MAX as nat
    }
}

/// The largest degree of the polynomials.
pub open spec fn instance_degree(polys: Seq<Vec<Scalar>>) -> nat {
    let l = longest(polys, polys.len());
    if l == 0 {
        0
    } else {
        (l - 1) as nat
    }
}

/// The number of bytes of data that `n_pts * n_poly` scalars carry, or the
/// largest number where that is beyond it.
pub fn elements_bytes(n_pts: usize, n_poly: usize) -> (r: usize)
    ensures
        r == spec_elements_bytes(n_pts, n_poly),
{
    let per = Scalar::one().serialized_size() - 1;
    if n_pts == 0 || n_poly == 0 {
        assert(31 * n_pts * n_poly == 0) by (nonlinear_arith)
            requires
                n_pts == 0 || n_poly == 0,
        ;
        return 0;
    }
    match per.checked_mul(n_pts) {
        Some(a) => match a.checked_mul(n_poly) {
            Some(b) => b,
            None => usize::MAX,
        },
        None => {
            assert(31 * n_pts * n_poly > usize::MAX) by (nonlinear_arith)
                requires
                    31 * n_pts > usize::MAX,
                    n_poly >= 1,
            ;
            usize::MAX
        },
    }
}

/// `n_poly` polynomials of degree up to `d`, `n_pts` points, and the values
/// of the polynomials at the points, drawn from a generator with a fixed
/// seed.
pub fn rand_instance(n_poly: usize, n_pts: usize, d: usize) -> (r: (
    Vec<Vec<Scalar>>,
    Vec<Scalar>,
    Vec<Vec<Scalar>>,
))
    requires
        d < usize::MAX,
    ensures
        is_instance(r.0@, n_poly as int, d as int),
        r.1.len() == n_pts,
        all_wf(r.1@),
        r.2.len() == n_poly,
        all_wf2(r.2@),
        forall|i: int| 0 <= i < n_poly ==> (#[trigger] r.2[i]).len() == n_pts,
        are_values(r.0@, r.1@, r.2@),
{
    let mut rng = test_rng();
    let mut polys: Vec<Vec<Scalar>> = Vec::new();
    let mut i: usize = 0;
    while i < n_poly
        invariant
            0 <= i <= n_poly,
            d < usize::MAX,
            is_instance(polys@, i as int, d as int),
        decreases n_poly - i,
    {
        let p = DensePolynomial::rand(d, &mut rng);
        polys.push(p.coeffs);
        i = i + 1;
    }
    let mut open_pts: Vec<Scalar> = Vec::new();
    let mut j: usize = 0;
    while j < n_pts
        invariant
            0 <= j <= n_pts,
            open_pts.len() == j,
            all_wf(open_pts@),
        decreases n_pts - j,
    {
        let x = Scalar::rand(&mut rng);
        open_pts.push(x);
        j = j + 1;
    }
    let mut evals: Vec<Vec<Scalar>> = Vec::new();
    let mut k: usize = 0;
    while k < n_poly
        invariant
            0 <= k <= n_poly,
            is_instance(polys@, n_poly as int, d as int),
            open_pts.len() == n_pts,
            all_wf(open_pts@),
            evals.len() == k,
            all_wf2(evals@),
            forall|i: int| 0 <= i < k ==> (#[trigger] evals[i]).len() == n_pts,
            forall|i: int, j: int|
                0 <= i < k && 0 <= j < n_pts ==> (#[trigger] evals[i][j])@ == eval(
                    vals(polys[i]@),
                    open_pts[j]@,
                ) % modulus(),
        decreases n_poly - k,
    {
        let mut row: Vec<Scalar> = Vec::new();
        let mut t: usize = 0;
        while t < n_pts
            invariant
                0 <= t <= n_pts,
                k < n_poly,
                is_instance(polys@, n_poly as int, d as int),
                open_pts.len() == n_pts,
                all_wf(open_pts@),
                row.len() == t,
                all_wf(row@),
                forall|j: int|
                    0 <= j < t ==> (#[trigger] row[j])@ == eval(vals(polys[k as int]@), open_pts[j]@)
                        % modulus(),
            decreases n_pts - t,
        {
            assert(all_wf(polys[k as int]@));
            let x = open_pts[t];
            assert(x.wf());
            row.push(evaluate(&polys[k], &x));
            t = t + 1;
        }
        evals.push(row);
        k = k + 1;
    }
    (polys, open_pts, evals)
}

impl<const N_PTS: usize, const N_POLY: usize> PcBench for StreamingKzgBench<N_PTS, N_POLY> {
    type Setup = ();

    type Trimmed = Setup;

    type Poly = Vec<Vec<Scalar>>;

    type Point = Vec<Scalar>;

    type Eval = Vec<Vec<Scalar>>;

    type Commit = Vec<Commitment>;

    type Proof = (EvaluationProof, Scalar);

    open spec fn valid_max_degree(max_degree: usize) -> bool {
        N_PTS < usize::MAX - 2
    }

    open spec fn setup_wf(s: &()) -> bool {
        N_PTS < usize::MAX - 2
    }

    open spec fn made_for(s: &(), max_degree: usize) -> bool {
        true
    }

    open spec fn valid_trim(s: &(), supported_degree: usize) -> bool {
        N_PTS <= supported_degree < usize::MAX
    }

    open spec fn trimmed_wf(t: &Setup) -> bool {
        &&& t.ck.powers_of_g.len() >= 1
        &&& t.ck.powers_of_g2.len() > N_PTS
        &&& t.vk.powers_of_g2.len() >= 1
    }

    open spec fn trimmed_degree(t: &Setup) -> nat {
        (t.ck.powers_of_g.len() - 1) as nat
    }

    open spec fn poly_wf(p: &Vec<Vec<Scalar>>) -> bool {
        all_wf2(p@)
    }

    open spec fn poly_degree(p: &Vec<Vec<Scalar>>) -> nat {
        instance_degree(p@)
    }

    open spec fn point_wf(pt: &Vec<Scalar>) -> bool {
        all_wf(pt@) && pt.len() == N_PTS && N_PTS < usize::MAX - 2
    }

    open spec fn eval_wf(value: &Vec<Vec<Scalar>>) -> bool {
        all_wf2(value@)
    }

    open spec fn proof_wf(proof: &(EvaluationProof, Scalar)) -> bool {
        proof.1.wf()
    }

    open spec fn bytes() -> nat {
        spec_elements_bytes(N_PTS, N_POLY)
    }

    open spec fn is_value(p: &Vec<Vec<Scalar>>, pt: &Vec<Scalar>, value: &Vec<Vec<Scalar>>) -> bool {
        are_values(p@, pt@, value@)
    }

    open spec fn is_commitment(t: &Setup, p: &Vec<Vec<Scalar>>, c: &Vec<Commitment>) -> bool {
        &&& c.len() == p.len()
        &&& forall|i: int|
            0 <= i < p.len() ==> (#[trigger] c[i]).0 == g1_msm_value(
                t.ck.powers_of_g@,
                vals(p[i]@),
            )
    }

    open spec fn is_proof(
        t: &Setup,
        p: &Vec<Vec<Scalar>>,
        pt: &Vec<Scalar>,
        proof: &(EvaluationProof, Scalar),
    ) -> bool {
        proof.0.0 == multi_opening(
            t.ck.powers_of_g@,
            lincomb(vals2(p@), power_values(proof.1@, p.len() as nat), p.len() as nat),
            vals(pt@),
        )
    }

    open spec fn is_verdict(
        t: &Setup,
        c: &Vec<Commitment>,
        proof: &(EvaluationProof, Scalar),
        value: &Vec<Vec<Scalar>>,
        pt: &Vec<Scalar>,
        accepted: bool,
    ) -> bool {
        accepted == (value.len() > 0 && interpolable(vals(pt@)) && multi_points_equation(
            t.vk,
            c@,
            vals(pt@),
            vals2(value@),
            proof.0,
            proof.1@,
        ))
    }

    fn setup(_max_degree: usize) -> (s: ()) {
        ()
    }

    fn trim(_s: &(), supported_degree: usize) -> (t: Setup)
        ensures
            is_key_pair(t, supported_degree as int, N_PTS as int),
    {
        let ck = CommitterKey::new(supported_degree, N_PTS, &mut test_rng());
        let vk = VerifierKey::from(&ck);
        Setup { ck, vk }
    }

    fn rand_poly(_s: &mut (), d: usize) -> (r: (Vec<Vec<Scalar>>, Vec<Scalar>, Vec<Vec<Scalar>>)) {
        let r = rand_instance(N_POLY, N_PTS, d);
        proof {
            lemma_longest_bound(r.0@, r.0.len() as nat, d + 1);
        }
        r
    }

    fn bytes_per_elem() -> (r: usize) {
        elements_bytes(N_PTS, N_POLY)
    }

    fn commit(t: &Setup, _s: &mut (), p: &Vec<Vec<Scalar>>) -> (c: Vec<Commitment>) {
        t.ck.batch_commit(p.as_slice())
    }

    fn open(t: &Setup, _s: &mut (), p: &Vec<Vec<Scalar>>, pt: &Vec<Scalar>) -> (proof: (
        EvaluationProof,
        Scalar,
    )) {
        let chal = Scalar::rand(&mut test_rng());
        (t.ck.batch_open_multi_points(p.as_slice(), pt.as_slice(), &chal), chal)
    }

    fn verify(
        t: &Setup,
        c: &Vec<Commitment>,
        proof: &(EvaluationProof, Scalar),
        value: &Vec<Vec<Scalar>>,
        pt: &Vec<Scalar>,
    ) -> (accepted: bool) {
        t.vk.verify_multi_points(c.as_slice(), pt.as_slice(), value.as_slice(), &proof.0, &proof.1).is_ok()
    }
}

} // verus!
