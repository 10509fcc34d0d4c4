//! A time-efficient version of the polynomial commitment of Kate, Zaverucha
//! and Goldberg, with openings of many polynomials at many points in one
//! proof.
//!
//! Polynomials are vectors of coefficients in increasing order of degree. The
//! committer key holds powers of a secret in both source groups of the
//! curve; the verifier key holds the first of each.
use crate::ark::curve::{
    g1_difference, g1_msm, g1_msm_value, g1_product, g1_sum, g2_msm, g2_msm_value, pairing_equal,
    pairings_agree, G1Point, G2Point,
};
use crate::ark::field::{modulus, Scalar};
use crate::ark::poly::{all_wf, canon, powers, vals};
pub use crate::ark::poly::power_values;
use crate::ark::roots::{
    all_wf2, interpolable, interpolant, interpolate, lincomb, linear_combination, roots_poly,
    vals2, vanishing_polynomial,
};

use vstd::prelude::*;

pub mod time;

pub use time::CommitterKey;

verus! {

/// A Kate polynomial commitment over a bilinear group, represented as a
/// single element of the first group.
#[derive(Debug, Copy, Clone, PartialEq, Eq)]
pub struct Commitment(pub G1Point);

impl Commitment {
    /// Return the size of Commitment in bytes.
    pub fn size_in_bytes(&self) -> (r: usize)
        ensures
            r == 48,
    {
        G1Point::identity().compressed_size()
    }
}

/// The multi-scalar multiplication of `bases` by `scalars`, over the
/// indices that both have.
pub fn msm(bases: &[G1Point], scalars: &[Scalar]) -> (r: G1Point)
    requires
        all_wf(scalars@),
    ensures
        r == g1_msm_value(bases@, vals(scalars@)),
{
    g1_msm(bases, scalars)
}

/// Polynomial evaluation proof, represented as a single element of the
/// first group.
#[derive(Clone, Copy, Debug, PartialEq, Eq)]
pub struct EvaluationProof(pub G1Point);

/// The sum of the first `n` proofs, starting from the neutral element.
pub open spec fn proof_sum(proofs: Seq<EvaluationProof>, n: nat) -> G1Point
    decreases n,
{
    if n == 0 {
        G1Point::spec_identity()
    } else {
        g1_sum(proof_sum(proofs, (n - 1) as nat), proofs[n - 1].0)
    }
}

impl EvaluationProof {
    /// The sum of two proofs.
    pub fn add(self, rhs: EvaluationProof) -> (r: EvaluationProof)
        ensures
            r.0 == g1_sum(self.0, rhs.0),
    {
        EvaluationProof(self.0.add(&rhs.0))
    }

    /// The sum of the proofs.
    pub fn sum(proofs: &[EvaluationProof]) -> (r: EvaluationProof)
        ensures
            r.0 == proof_sum(proofs@, proofs.len() as nat),
    {
        let mut acc = EvaluationProof(G1Point::identity());
        let mut i: usize = 0;
        while i < proofs.len()
            invariant
                0 <= i <= proofs.len(),
                acc.0 == proof_sum(proofs@, i as nat),
            decreases proofs.len() - i,
        {
            acc = acc.add(proofs[i]);
            i = i + 1;
        }
        acc
    }
}

/// Error type denoting an incorrect evaluation proof.
#[derive(Debug, Clone, Copy, PartialEq, Eq)]
pub struct VerificationError;

impl VerificationError {
    /// The words that describe the error.
    pub fn message(&self) -> (r: &'static str)
        ensures
            r@ == "Error in stream."@,
    {
        "Error in stream."
    }
}

/// The verification key for the polynomial commitment scheme.
/// It also implements verification functions for the evaluation proof.
#[derive(Debug, Clone, PartialEq, Eq)]
pub struct VerifierKey {
    /// The generator of the first group, and its first powers.
    pub powers_of_g: Vec<G1Point>,
    /// The generator of the second group, together with its multiplication
    /// by the trapdoor.
    pub powers_of_g2: Vec<G2Point>,
}

/// The group elements that commitments hold.
pub open spec fn commitment_points(commitments: Seq<Commitment>) -> Seq<G1Point> {
    Seq::new(commitments.len(), |i: int| commitments[i].0)
}

/// The interpolants of the rows of `evaluations` over `points`.
pub open spec fn interpolants(points: Seq<int>, evaluations: Seq<Seq<int>>) -> Seq<Seq<int>> {
    Seq::new(evaluations.len(), |i: int| interpolant(points, evaluations[i]))
}

/// The interpolants of the rows of `evaluations`, combined with the powers
/// of `challenge`.
pub open spec fn combined_interpolant(points: Seq<int>, evaluations: Seq<Seq<int>>, challenge: int) -> Seq<
    int,
> {
    canon(
        lincomb(
            interpolants(points, evaluations),
            power_values(challenge, evaluations.len()),
            evaluations.len(),
        ),
    )
}

/// The pairing equation of an opening at one point:
/// `e(C - v * G, H) == e(proof, tau * H - alpha * H)`.
pub open spec fn single_point_equation(
    vk: VerifierKey,
    commitment: Commitment,
    alpha: int,
    evaluation: int,
    proof: EvaluationProof,
) -> bool {
    pairings_agree(
        g1_difference(commitment.0, g1_product(vk.powers_of_g[0], evaluation)),
        vk.powers_of_g2[0],
        proof.0,
        g2_msm_value(vk.powers_of_g2@, seq![(-alpha) % modulus(), 1int]),
    )
}

/// The pairing equation of an opening of many polynomials at many points:
/// `e(F - I, H) == e(proof, Z)`, where `F` combines the commitments with
/// the powers of the challenge, `I` commits to the interpolants of the
/// claimed values combined in the same way, and `Z` is the vanishing
/// polynomial of the points in the second group.
pub open spec fn multi_points_equation(
    vk: VerifierKey,
    commitments: Seq<Commitment>,
    points: Seq<int>,
    evaluations: Seq<Seq<int>>,
    proof: EvaluationProof,
    challenge: int,
) -> bool {
    let zeros = canon(roots_poly(points, -1));
    let etas = power_values(challenge, evaluations.len());
    let f_comm = g1_msm_value(commitment_points(commitments), etas);
    let i_comm = g1_msm_value(vk.powers_of_g@, combined_interpolant(points, evaluations, challenge));
    pairings_agree(
        g1_difference(f_comm, i_comm),
        vk.powers_of_g2[0],
        proof.0,
        g2_msm_value(vk.powers_of_g2@, zeros),
    )
}

impl VerifierKey {
    /// Whether the key holds a generator in each group.
    pub open spec fn wf(&self) -> bool {
        self.powers_of_g.len() >= 1 && self.powers_of_g2.len() >= 1
    }

    /// The verifier key of a committer key: the powers in the second group,
    /// and as many in the first as there are points to open at.
    pub fn from(ck: &CommitterKey) -> (vk: VerifierKey)
        requires
            ck.powers_of_g2.len() >= 1,
            ck.powers_of_g.len() >= ck.powers_of_g2.len() - 1,
        ensures
            vk.powers_of_g2@ == ck.powers_of_g2@,
            vk.powers_of_g@ == ck.powers_of_g@.take(ck.powers_of_g2.len() - 1),
    {
        let max_eval_points = ck.max_eval_points();
        let mut powers_of_g2: Vec<G2Point> = Vec::new();
        let mut i: usize = 0;
        while i < max_eval_points + 1
            invariant
                0 <= i <= max_eval_points + 1,
                max_eval_points + 1 == ck.powers_of_g2.len(),
                powers_of_g2@ == ck.powers_of_g2@.take(i as int),
            decreases max_eval_points + 1 - i,
        {
            powers_of_g2.push(ck.powers_of_g2[i]);
            proof {
                assert(ck.powers_of_g2@.take(i + 1) =~= ck.powers_of_g2@.take(i as int).push(
                    ck.powers_of_g2[i as int],
                ));
            }
            i = i + 1;
        }
        let mut powers_of_g: Vec<G1Point> = Vec::new();
        let mut j: usize = 0;
        while j < max_eval_points
            invariant
                0 <= j <= max_eval_points,
                max_eval_points <= ck.powers_of_g.len(),
                powers_of_g@ == ck.powers_of_g@.take(j as int),
            decreases max_eval_points - j,
        {
            powers_of_g.push(ck.powers_of_g[j]);
            proof {
                assert(ck.powers_of_g@.take(j + 1) =~= ck.powers_of_g@.take(j as int).push(
                    ck.powers_of_g[j as int],
                ));
            }
            j = j + 1;
        }
        proof {
            assert(ck.powers_of_g2@.take(ck.powers_of_g2.len() as int) =~= ck.powers_of_g2@);
        }
        VerifierKey { powers_of_g, powers_of_g2 }
    }

    /// The verification procedure for the EvaluationProof with a single
    /// polynomial evaluated at a single evaluation point. The polynomial is
    /// evaluated at the point `alpha` and is committed as `commitment`.
    pub fn verify(
        &self,
        commitment: &Commitment,
        alpha: &Scalar,
        evaluation: &Scalar,
        proof: &EvaluationProof,
    ) -> (r: Result<(), VerificationError>)
        requires
            self.wf(),
            alpha.wf(),
            evaluation.wf(),
        ensures
            r.is_ok() <==> single_point_equation(*self, *commitment, alpha@, evaluation@, *proof),
    {
        let mut scalars: Vec<Scalar> = Vec::new();
        scalars.push(alpha.neg());
        scalars.push(Scalar::one());
        let ep = g2_msm(self.powers_of_g2.as_slice(), scalars.as_slice());
        let lhs = commitment.0.sub(&self.powers_of_g[0].mul(evaluation));
        let g2 = self.powers_of_g2[0];
        proof {
            assert(vals(scalars@) =~= seq![(-alpha@) % modulus(), 1int]);
        }
        if pairing_equal(&lhs, &g2, &proof.0, &ep) {
            Ok(())
        } else {
            Err(VerificationError)
        }
    }

    /// The verification procedure for the EvaluationProof with a set of
    /// polynomials evaluated at a set of evaluation points. All the
    /// polynomials are evaluated at the set of points `eval_points` and are
    /// committed as `commitments`. `evaluations` contains evaluations of each
    /// polynomial at each point in `eval_points`, in the order of the
    /// commitments and of the points. `open_chal` is a random challenge for
    /// batching evaluation proofs across different polynomials.
    ///
    /// The proof is rejected where there are no evaluations, where a point
    /// occurs twice, and where the pairing equation fails.
    pub fn verify_multi_points(
        &self,
        commitments: &[Commitment],
        eval_points: &[Scalar],
        evaluations: &[Vec<Scalar>],
        proof: &EvaluationProof,
        open_chal: &Scalar,
    ) -> (r: Result<(), VerificationError>)
        requires
            self.powers_of_g2.len() >= 1,
            all_wf(eval_points@),
            all_wf2(evaluations@),
            open_chal.wf(),
            eval_points.len() < usize::MAX - 2,
        ensures
            r.is_ok() <==> evaluations.len() > 0 && interpolable(vals(eval_points@))
                && multi_points_equation(
                *self,
                commitments@,
                vals(eval_points@),
                vals2(evaluations@),
                *proof,
                open_chal@,
            ),
    {
        let ghost pts = vals(eval_points@);
        let ghost evs = vals2(evaluations@);
        // The vanishing polynomial over eval_points, in the second group.
        let zeros = vanishing_polynomial(eval_points);
        let zeros_g2 = g2_msm(self.powers_of_g2.as_slice(), zeros.as_slice());

        // The interpolated polynomials.
        let mut interpolated_polynomials: Vec<Vec<Scalar>> = Vec::new();
        let mut i: usize = 0;
        while i < evaluations.len()
            invariant
                0 <= i <= evaluations.len(),
                pts == vals(eval_points@),
                evs == vals2(evaluations@),
                all_wf(eval_points@),
                all_wf2(evaluations@),
                eval_points.len() < usize::MAX - 2,
                interpolated_polynomials.len() == i,
                all_wf2(interpolated_polynomials@),
                i > 0 ==> interpolable(pts),
                forall|t: int|
                    0 <= t < i ==> vals((#[trigger] interpolated_polynomials[t])@) == interpolant(
                        pts,
                        evs[t],
                    ),
            decreases evaluations.len() - i,
        {
            assert(all_wf(evaluations[i as int]@));
            match interpolate(eval_points, evaluations[i].as_slice()) {
                None => {
                    return Err(VerificationError);
                },
                Some(p) => {
                    interpolated_polynomials.push(p);
                },
            }
            i = i + 1;
        }
        let etas = powers(*open_chal, evaluations.len());
        let i_poly = match linear_combination(interpolated_polynomials.as_slice(), etas.as_slice()) {
            None => {
                return Err(VerificationError);
            },
            Some(p) => p,
        };
        let i_comm = msm(self.powers_of_g.as_slice(), i_poly.as_slice());

        // Gathering commitments
        let mut comm_vec: Vec<G1Point> = Vec::new();
        let mut j: usize = 0;
        while j < commitments.len()
            invariant
                0 <= j <= commitments.len(),
                comm_vec@ == commitment_points(commitments@).take(j as int),
            decreases commitments.len() - j,
        {
            comm_vec.push(commitments[j].0);
            proof {
                assert(commitment_points(commitments@).take(j + 1) =~= commitment_points(
                    commitments@,
                ).take(j as int).push(commitments[j as int].0));
            }
            j = j + 1;
        }
        let f_comm = g1_msm(comm_vec.as_slice(), etas.as_slice());
        let g2 = self.powers_of_g2[0];
        proof {
            assert(commitment_points(commitments@).take(commitments.len() as int)
                =~= commitment_points(commitments@));
            assert(vals(etas@) =~= power_values(open_chal@, evaluations.len() as nat));
            assert(vals2(interpolated_polynomials@) =~= interpolants(pts, evs));
        }
        if pairing_equal(&f_comm.sub(&i_comm), &g2, &proof.0, &zeros_g2) {
            Ok(())
        } else {
            Err(VerificationError)
        }
    }
}

} // verus!
