//! The committer's side of the scheme: the key, commitments and openings.
use crate::ark::curve::{
    g1_fixed_base_value, g1_msm_value, g1_multiples, g1_sum, g2_product, G1Point, G2Point,
};
use crate::ark::field::{modulus, Scalar};
use crate::ark::poly::{
    all_wf, canon, canonical, coeff, cong, divide_by_linear, divide_with_q_and_r, eval,
    is_normal, lemma_canon_properties, lemma_canon_unique, lemma_linear_quotient,
    lemma_vals_canonical, linear_product, powers, quotient, quotient_by_linear, same_poly, vals,
    DensePolynomial,
};
use crate::ark::roots::{
    all_wf2, lincomb, linear_combination, roots_poly, vals2, vanishing_polynomial,
};
use crate::ark::streaming_kzg::{msm, power_values, Commitment, EvaluationProof};
use rand::rngs::StdRng;
use vstd::arithmetic::div_mod::lemma_small_mod;
use vstd::arithmetic::power::pow;
use vstd::prelude::*;

verus! {

/// The SRS for the polynomial commitment scheme.
///
/// The SRS consists of the `max_degree` powers of the secret in the first
/// group plus the `max_eval_points` powers in the second, where `max_degree`
/// is the largest degree of a polynomial to commit to, and `max_eval_points`
/// is the largest number of points to open at together.
#[derive(Debug, Clone)]
pub struct CommitterKey {
    pub powers_of_g: Vec<G1Point>,
    pub powers_of_g2: Vec<G2Point>,
}

/// Whether `ck` is the committer key for the secret `tau` and the generators
/// `g` and `g2`: the multiples of `g` by the powers of `tau` up to
/// `max_degree`, and those of `g2` by as many powers as there are points to
/// open at, and one more, but no more than there are in the first group.
pub open spec fn is_committer_key(
    ck: CommitterKey,
    max_degree: int,
    max_eval_points: int,
    tau: int,
    g: G1Point,
    g2: G2Point,
) -> bool {
    &&& ck.powers_of_g.len() == max_degree + 1
    &&& ck.powers_of_g@ == g1_fixed_base_value(g, power_values(tau, (max_degree + 1) as nat))
    &&& ck.powers_of_g2.len() == (if max_eval_points < max_degree {
        max_eval_points + 1
    } else {
        max_degree + 1
    })
    &&& forall|i: int|
        0 <= i < ck.powers_of_g2.len() ==> #[trigger] ck.powers_of_g2[i] == g2_product(
            g2,
            pow(tau, i as nat) % modulus(),
        )
}

/// The powers of the first group, each added into the slot that `indices`
/// names for it, over the first `n` powers.
pub open spec fn indexed_powers(powers: Seq<G1Point>, indices: Seq<usize>, n: nat) -> Seq<G1Point>
    decreases n,
{
    if n == 0 {
        Seq::new(powers.len(), |i: int| G1Point::spec_identity())
    } else {
        let prev = indexed_powers(powers, indices, (n - 1) as nat);
        let i = indices[n - 1] as int;
        prev.update(i, g1_sum(prev[i], powers[n - 1]))
    }
}

/// The proof of an opening at one point: the commitment to the quotient of
/// synthetic division.
pub open spec fn single_opening(powers: Seq<G1Point>, polynomial: Seq<int>, point: int) -> G1Point {
    g1_msm_value(powers, quotient_by_linear(polynomial, point))
}

/// The proof of an opening at many points: the commitment to the quotient
/// of the polynomial by the vanishing polynomial of the points.
pub open spec fn multi_opening(powers: Seq<G1Point>, polynomial: Seq<int>, points: Seq<int>) -> G1Point {
    g1_msm_value(powers, quotient(canon(polynomial), canon(roots_poly(points, -1))))
}

impl CommitterKey {
    /// The setup algorithm for the commitment scheme.
    ///
    /// Given a degree bound `max_degree`, an evaluation point bound
    /// `max_eval_points`, and a cryptographically-secure random number
    /// generator `rng`, construct the committer key.
    pub fn new(max_degree: usize, max_eval_points: usize, rng: &mut StdRng) -> (ck: CommitterKey)
        requires
            max_degree < usize::MAX,
            max_eval_points < usize::MAX,
        ensures
            exists|tau: int, g: G1Point, g2: G2Point|
                0 <= tau < modulus() && is_committer_key(
                    ck,
                    max_degree as int,
                    max_eval_points as int,
                    tau,
                    g,
                    g2,
                ),
    {
        let tau = Scalar::rand(rng);
        let g = G1Point::rand(rng);
        let g2 = G2Point::rand(rng);
        let ck = Self::new_from_trapdoor(max_degree, max_eval_points, &tau, &g, &g2);
        proof {
            assert(is_committer_key(ck, max_degree as int, max_eval_points as int, tau@, g, g2));
        }
        ck
    }

    /// The committer key for the secret `tau` and the generators `g` and
    /// `g2`.
    pub fn new_from_trapdoor(
        max_degree: usize,
        max_eval_points: usize,
        tau: &Scalar,
        g: &G1Point,
        g2: &G2Point,
    ) -> (ck: CommitterKey)
        requires
            max_degree < usize::MAX,
            max_eval_points < usize::MAX,
            tau.wf(),
        ensures
            is_committer_key(ck, max_degree as int, max_eval_points as int, tau@, *g, *g2),
    {
        // The consecutive powers of the secret.
        let powers_of_tau = powers(*tau, max_degree + 1);
        let powers_of_g = g1_multiples(g, &powers_of_tau);
        let count = if max_eval_points < max_degree { max_eval_points + 1 } else { max_degree + 1 };
        let mut powers_of_g2: Vec<G2Point> = Vec::new();
        let mut i: usize = 0;
        while i < count
            invariant
                0 <= i <= count,
                count <= powers_of_tau.len(),
                all_wf(powers_of_tau@),
                tau.wf(),
                forall|t: int|
                    0 <= t < powers_of_tau.len() ==> (#[trigger] powers_of_tau[t])@ == pow(
                        tau@,
                        t as nat,
                    ) % modulus(),
                powers_of_g2.len() == i,
                forall|t: int|
                    0 <= t < i ==> #[trigger] powers_of_g2[t] == g2_product(
                        *g2,
                        pow(tau@, t as nat) % modulus(),
                    ),
            decreases count - i,
        {
            let t = powers_of_tau[i];
            assert(t.wf());
            powers_of_g2.push(g2.mul(&t));
            i = i + 1;
        }
        CommitterKey { powers_of_g, powers_of_g2 }
    }

    /// Return the bound on evaluation points.
    pub fn max_eval_points(&self) -> (r: usize)
        requires
            self.powers_of_g2.len() >= 1,
        ensures
            r == self.powers_of_g2.len() - 1,
    {
        self.powers_of_g2.len() - 1
    }

    /// Given a polynomial `polynomial` of degree less than `max_degree`,
    /// return a commitment to `polynomial`.
    pub fn commit(&self, polynomial: &[Scalar]) -> (r: Commitment)
        requires
            all_wf(polynomial@),
        ensures
            r.0 == g1_msm_value(self.powers_of_g@, vals(polynomial@)),
    {
        Commitment(msm(self.powers_of_g.as_slice(), polynomial))
    }

    /// Obtain a new preprocessed committer key defined by the indices
    /// `indices`.
    pub fn index_by(&self, indices: &[usize]) -> (r: CommitterKey)
        requires
            forall|k: int|
                0 <= k < indices.len() && k < self.powers_of_g.len() ==> (#[trigger] indices[k])
                    < self.powers_of_g.len(),
        ensures
            r.powers_of_g2@ == self.powers_of_g2@,
            r.powers_of_g@ == indexed_powers(
                self.powers_of_g@,
                indices@,
                (if indices.len() < self.powers_of_g.len() {
                    indices.len()
                } else {
                    self.powers_of_g.len()
                }) as nat,
            ),
    {
        let len = self.powers_of_g.len();
        let mut indexed_powers_of_g: Vec<G1Point> = Vec::new();
        let mut i: usize = 0;
        while i < len
            invariant
                0 <= i <= len,
                indexed_powers_of_g@ == Seq::new(i as nat, |t: int| G1Point::spec_identity()),
            decreases len - i,
        {
            indexed_powers_of_g.push(G1Point::identity());
            proof {
                assert(indexed_powers_of_g@ =~= Seq::new(
                    (i + 1) as nat,
                    |t: int| G1Point::spec_identity(),
                ));
            }
            i = i + 1;
        }
        let n = if indices.len() < len { indices.len() } else { len };
        let mut k: usize = 0;
        while k < n
            invariant
                0 <= k <= n,
                n <= indices.len(),
                n <= len,
                len == self.powers_of_g.len(),
                indexed_powers_of_g.len() == len,
                forall|t: int|
                    0 <= t < indices.len() && t < self.powers_of_g.len() ==> (#[trigger] indices[t])
                        < self.powers_of_g.len(),
                indexed_powers_of_g@ == indexed_powers(self.powers_of_g@, indices@, k as nat),
            decreases n - k,
        {
            let i = indices[k];
            let g = self.powers_of_g[k];
            let sum = indexed_powers_of_g[i].add(&g);
            indexed_powers_of_g.set(i, sum);
            k = k + 1;
        }
        let mut powers_of_g2: Vec<G2Point> = Vec::new();
        let mut j: usize = 0;
        while j < self.powers_of_g2.len()
            invariant
                0 <= j <= self.powers_of_g2.len(),
                powers_of_g2@ == self.powers_of_g2@.take(j as int),
            decreases self.powers_of_g2.len() - j,
        {
            powers_of_g2.push(self.powers_of_g2[j]);
            proof {
                assert(self.powers_of_g2@.take(j + 1) =~= self.powers_of_g2@.take(j as int).push(
                    self.powers_of_g2[j as int],
                ));
            }
            j = j + 1;
        }
        proof {
            assert(self.powers_of_g2@.take(self.powers_of_g2.len() as int) =~= self.powers_of_g2@);
        }
        CommitterKey { powers_of_g2, powers_of_g: indexed_powers_of_g }
    }

    /// Given `polynomials`, expressed as vectors of coefficients, return a
    /// vector of commitments to all of them.
    pub fn batch_commit(&self, polynomials: &[Vec<Scalar>]) -> (r: Vec<Commitment>)
        requires
            all_wf2(polynomials@),
        ensures
            r.len() == polynomials.len(),
            forall|i: int|
                0 <= i < polynomials.len() ==> (#[trigger] r[i]).0 == g1_msm_value(
                    self.powers_of_g@,
                    vals(polynomials[i]@),
                ),
    {
        let mut r: Vec<Commitment> = Vec::new();
        let mut i: usize = 0;
        while i < polynomials.len()
            invariant
                0 <= i <= polynomials.len(),
                all_wf2(polynomials@),
                r.len() == i,
                forall|t: int|
                    0 <= t < i ==> (#[trigger] r[t]).0 == g1_msm_value(
                        self.powers_of_g@,
                        vals(polynomials[t]@),
                    ),
            decreases polynomials.len() - i,
        {
            assert(all_wf(polynomials[i as int]@));
            r.push(self.commit(polynomials[i].as_slice()));
            i = i + 1;
        }
        r
    }

    /// Given a polynomial `polynomial` and an evaluation point
    /// `evaluation_point`, return the evaluation of `polynomial` in
    /// `evaluation_point`, together with an evaluation proof.
    pub fn open(&self, polynomial: &[Scalar], evaluation_point: &Scalar) -> (r: (
        Scalar,
        EvaluationProof,
    ))
        requires
            all_wf(polynomial@),
            evaluation_point.wf(),
        ensures
            r.0.wf(),
            r.0@ == eval(vals(polynomial@), evaluation_point@) % modulus(),
            r.1.0 == single_opening(self.powers_of_g@, vals(polynomial@), evaluation_point@),
    {
        let (evaluation, quotient) = divide_by_linear(polynomial, evaluation_point);
        let evaluation_proof = msm(self.powers_of_g.as_slice(), quotient.as_slice());
        (evaluation, EvaluationProof(evaluation_proof))
    }

    /// Evaluate a single polynomial at a set of points `eval_points`, and
    /// provide a single evaluation proof: the commitment to the quotient by
    /// the vanishing polynomial of the points. At a single point, the proof
    /// is that of `open` for the polynomial without its superfluous zeros.
    pub fn open_multi_points(&self, polynomial: &[Scalar], eval_points: &[Scalar]) -> (r:
        EvaluationProof)
        requires
            all_wf(polynomial@),
            all_wf(eval_points@),
            eval_points.len() < usize::MAX - 2,
        ensures
            r.0 == multi_opening(self.powers_of_g@, vals(polynomial@), vals(eval_points@)),
            eval_points.len() == 1 ==> r.0 == single_opening(
                self.powers_of_g@,
                canon(vals(polynomial@)),
                eval_points[0]@,
            ),
            eval_points.len() == 1 && is_normal(vals(polynomial@)) ==> r.0 == single_opening(
                self.powers_of_g@,
                vals(polynomial@),
                eval_points[0]@,
            ),
    {
        // The vanishing polynomial over eval_points
        let z_poly = vanishing_polynomial(eval_points);
        let f_poly = DensePolynomial::from_coefficients_slice(polynomial);
        let (q_poly, remainder) = divide_with_q_and_r(&f_poly.coeffs, &z_poly);
        proof {
            let f = vals(polynomial@);
            lemma_vals_canonical(polynomial@);
            lemma_vals_canonical(f_poly.coeffs@);
            assert(same_poly(f_poly@, f)) by {
                assert forall|k: int|
                    #[trigger] coeff(f_poly@, k) == coeff(f, k) by {
                    if 0 <= k < f_poly.coeffs.len() {
                        assert(f_poly.coeffs[k] == polynomial[k]);
                    } else if 0 <= k < polynomial.len() {
                        assert(polynomial[k]@ == 0);
                    }
                }
            }
            lemma_canon_unique(f_poly@, f);
            if eval_points.len() == 1 {
                let beta = eval_points[0]@;
                let pts = vals(eval_points@);
                let d = vals(z_poly@);
                assert(pts.drop_last().len() == 0);
                assert(pts.last() == beta);
                assert(roots_poly(pts.drop_last(), -1) == seq![1int]);
                let lp = linear_product(seq![1int], -beta);
                assert(roots_poly(pts, -1) == lp);
                lemma_canon_properties(lp);
                assert(cong(
                    coeff(d, 0),
                    coeff(lp, 0),
                ));
                assert((-beta) * 1 == -beta);
                assert(lp[0] == -beta);
                lemma_canon_properties(f);
                lemma_linear_quotient(canon(f), beta, d, vals(q_poly@), vals(remainder@));
                if is_normal(f) {
                    lemma_normal_is_canon(f);
                }
            }
        }
        EvaluationProof(self.commit(q_poly.as_slice()).0)
    }

    /// Evaluate a set of polynomials at a set of points `eval_points`, and
    /// provide a single batched evaluation proof. `eval_chal` is the random
    /// challenge for batching evaluation proofs across different
    /// polynomials: the polynomials are combined with its powers, and the
    /// combination is opened at the points.
    pub fn batch_open_multi_points(
        &self,
        polynomials: &[Vec<Scalar>],
        eval_points: &[Scalar],
        eval_chal: &Scalar,
    ) -> (r: EvaluationProof)
        requires
            eval_points.len() < self.powers_of_g2.len(),
            all_wf2(polynomials@),
            all_wf(eval_points@),
            eval_chal.wf(),
            eval_points.len() < usize::MAX - 2,
        ensures
            r.0 == multi_opening(
                self.powers_of_g@,
                lincomb(
                    vals2(polynomials@),
                    power_values(eval_chal@, polynomials.len() as nat),
                    polynomials.len() as nat,
                ),
                vals(eval_points@),
            ),
    {
        let etas = powers(*eval_chal, polynomials.len());
        proof {
            assert(vals(etas@) =~= power_values(eval_chal@, polynomials.len() as nat));
        }
        let batched_polynomial = match linear_combination(polynomials, etas.as_slice()) {
            Some(p) => p,
            None => {
                let mut zero: Vec<Scalar> = Vec::new();
                zero.push(Scalar::zero());
                zero
            },
        };
        proof {
            let target = lincomb(
                vals2(polynomials@),
                power_values(eval_chal@, polynomials.len() as nat),
                polynomials.len() as nat,
            );
            if polynomials.len() == 0 {
                assert(target.len() == 0);
                assert(canon(target).len() == 0) by {
                    lemma_canon_properties(target);
                }
                let b = vals(batched_polynomial@);
                assert(b.len() == 1 && b[0] == 0);
                lemma_small_mod(0, modulus() as nat);
                let e = Seq::<int>::empty();
                assert(same_poly(e, b));
                lemma_canon_unique(e, b);
                assert(same_poly(e, target));
                lemma_canon_unique(e, target);
                assert(canon(b) == canon(target));
            } else {
                let b = vals(batched_polynomial@);
                lemma_canon_properties(target);
                lemma_normal_is_canon(canon(target));
            }
        }
        self.open_multi_points(batched_polynomial.as_slice(), eval_points)
    }
}

/// A canonical sequence without superfluous zeros is its own canonical form.
pub proof fn lemma_normal_is_canon(p: Seq<int>)
    requires
        canonical(p),
        is_normal(p),
    ensures
        canon(p) == p,
{
    assert(same_poly(p, p));
    lemma_canon_unique(p, p);
}

} // verus!
