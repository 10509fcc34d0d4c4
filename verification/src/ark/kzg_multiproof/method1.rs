//! The first construction: the proof commits to the quotient of the combined
//! polynomials by the vanishing polynomial of the points, and is checked
//! against that polynomial in the second group.
use crate::ark::curve::{
    g1_difference, g2_msm, g2_msm_value, g2_product, g1_product, pairing_equal, pairings_agree,
    G1Point, G2Point,
};
use crate::ark::field::{modulus, Scalar};
use crate::ark::kzg_multiproof::{
    combined, curve_msm, curve_msm_result, gen_curve_powers_g1, gen_curve_powers_g2, gen_powers,
    lagrange_interp, poly_div_q_r, Error,
};
use crate::ark::poly::{all_wf, canon, quotient, vals};
use crate::ark::roots::{
    all_wf2, interpolable, lemma_longest_bound, lincomb, linear_combination, roots_poly, vals2,
    vanishing_polynomial,
};
use crate::ark::streaming_kzg::{interpolants, power_values};
use rand::rngs::StdRng;
use vstd::arithmetic::power::pow;
use vstd::prelude::*;

verus! {

/// The powers of a secret in both groups.
#[derive(Debug, Clone)]
pub struct Setup {
    pub powers_of_g1: Vec<G1Point>,
    pub powers_of_g2: Vec<G2Point>,
}

/// A commitment to a polynomial.
#[derive(Debug, Clone, Copy, PartialEq, Eq)]
pub struct Commitment(pub G1Point);

/// A proof of the values of several polynomials at several points.
#[derive(Debug, Clone, Copy, PartialEq, Eq)]
pub struct Proof(pub G1Point);

/// Whether the two lists hold the powers of `x` over the generators `g1` and
/// `g2`: `max_degree + 1` in the first group and `max_pts + 1` in the second.
pub open spec fn is_setup(
    powers_of_g1: Seq<G1Point>,
    powers_of_g2: Seq<G2Point>,
    max_degree: int,
    max_pts: int,
    x: int,
    g1: G1Point,
    g2: G2Point,
) -> bool {
    &&& powers_of_g1.len() == max_degree + 1
    &&& forall|i: int|
        0 <= i <= max_degree ==> #[trigger] powers_of_g1[i] == g1_product(
            g1,
            pow(x, i as nat) % modulus(),
        )
    &&& powers_of_g2.len() == max_pts + 1
    &&& forall|i: int|
        0 <= i <= max_pts ==> #[trigger] powers_of_g2[i] == g2_product(
            g2,
            pow(x, i as nat) % modulus(),
        )
}

/// The group elements that commitments hold.
pub open spec fn commitment_points(commitments: Seq<Commitment>) -> Seq<G1Point> {
    Seq::new(commitments.len(), |i: int| commitments[i].0)
}

/// What opening `polys` at `points` under the challenge `gamma` gives.
pub open spec fn open_result(
    setup: Setup,
    polys: Seq<Seq<int>>,
    points: Seq<int>,
    gamma: int,
) -> Result<Proof, Error> {
    if polys.len() == 0 {
        Err(Error::NoPolynomialsGiven)
    } else {
        let f = combined(polys, gamma, polys.len());
        let zs = canon(roots_poly(points, -1));
        match curve_msm_result(setup.powers_of_g1@, quotient(f, zs)) {
            Err(e) => Err(e),
            Ok(w) => Ok(Proof(w)),
        }
    }
}

/// What verifying a proof for `evals` at `pts` gives.
pub open spec fn verify_result(
    setup: Setup,
    commits: Seq<Commitment>,
    pts: Seq<int>,
    evals: Seq<Seq<int>>,
    proof: Proof,
    gamma: int,
) -> Result<bool, Error> {
    if pts.len() + 1 > setup.powers_of_g2.len() {
        Err(
            Error::TooManyPoints {
                n_points: pts.len() as usize,
                expected_max: (setup.powers_of_g2.len() - 1) as usize,
            },
        )
    } else if evals.len() == 0 {
        Err(Error::NoPolynomialsGiven)
    } else if !interpolable(pts) {
        Err(Error::RepeatedPoint)
    } else {
        let zs = canon(roots_poly(pts, -1));
        let gammas = power_values(gamma, evals.len());
        let r = canon(lincomb(interpolants(pts, evals), gammas, evals.len()));
        match curve_msm_result(setup.powers_of_g1@, r) {
            Err(e) => Err(e),
            Ok(r_comm) => match curve_msm_result(commitment_points(commits), gammas) {
                Err(e) => Err(e),
                Ok(cm) => Ok(
                    pairings_agree(
                        g1_difference(cm, r_comm),
                        setup.powers_of_g2[0],
                        proof.0,
                        g2_msm_value(setup.powers_of_g2@, zs),
                    ),
                ),
            },
        }
    }
}

impl Setup {
    /// Whether the setup has a generator in the second group.
    pub open spec fn wf(&self) -> bool {
        self.powers_of_g2.len() >= 1
    }

    /// A setup for polynomials of degree up to `max_degree` and openings at
    /// up to `max_pts` points, from a secret and generators drawn from `rng`.
    pub fn new(max_degree: usize, max_pts: usize, rng: &mut StdRng) -> (s: Setup)
        requires
            max_degree < usize::MAX,
            max_pts <= max_degree,
        ensures
            s.wf(),
            exists|x: int, g1: G1Point, g2: G2Point|
                0 <= x < modulus() && is_setup(
                    s.powers_of_g1@,
                    s.powers_of_g2@,
                    max_degree as int,
                    max_pts as int,
                    x,
                    g1,
                    g2,
                ),
    {
        let x = Scalar::rand(rng);
        let g1 = G1Point::rand(rng);
        let g2 = G2Point::rand(rng);
        let s = Self::new_from_trapdoor(max_degree, max_pts, &x, &g1, &g2);
        proof {
            assert(is_setup(
                s.powers_of_g1@,
                s.powers_of_g2@,
                max_degree as int,
                max_pts as int,
                x@,
                g1,
                g2,
            ));
        }
        s
    }

    /// The setup for the secret `x` and the generators `g1` and `g2`.
    pub fn new_from_trapdoor(
        max_degree: usize,
        max_pts: usize,
        x: &Scalar,
        g1: &G1Point,
        g2: &G2Point,
    ) -> (s: Setup)
        requires
            max_degree < usize::MAX,
            max_pts <= max_degree,
            x.wf(),
        ensures
            s.wf(),
            is_setup(s.powers_of_g1@, s.powers_of_g2@, max_degree as int, max_pts as int, x@, *g1, *g2),
    {
        let num_scalars = max_degree + 1;
        let x_powers = gen_powers(*x, num_scalars);
        let powers_of_g1 = gen_curve_powers_g1(x_powers.as_slice(), g1);
        let powers_of_g2 = gen_curve_powers_g2(x_powers.as_slice(), max_pts + 1, g2);
        Setup { powers_of_g1, powers_of_g2 }
    }

    /// The commitment to a polynomial, unless it has more coefficients than
    /// the setup has powers.
    pub fn commit(&self, poly: &[Scalar]) -> (r: Result<Commitment, Error>)
        requires
            all_wf(poly@),
        ensures
            r == (match curve_msm_result(self.powers_of_g1@, vals(poly@)) {
                Err(e) => Err::<Commitment, Error>(e),
                Ok(p) => Ok(Commitment(p)),
            }),
    {
        match curve_msm(self.powers_of_g1.as_slice(), poly) {
            Err(e) => Err(e),
            Ok(p) => Ok(Commitment(p)),
        }
    }

    /// Opens the polynomials at the points: they are combined with the
    /// powers of `gamma`, and the proof commits to the quotient of the
    /// combination by the vanishing polynomial of the points.
    pub fn open(&self, polys: &[Vec<Scalar>], points: &[Scalar], gamma: Scalar) -> (r: Result<
        Proof,
        Error,
    >)
        requires
            all_wf2(polys@),
            all_wf(points@),
            gamma.wf(),
            points.len() < usize::MAX - 2,
        ensures
            r == open_result(*self, vals2(polys@), vals(points@), gamma@),
            polys.len() > 0 && (forall|i: int|
                0 <= i < polys.len() ==> (#[trigger] polys[i]).len() <= self.powers_of_g1.len())
                ==> r.is_ok(),
    {
        let gammas = gen_powers(gamma, polys.len());
        proof {
            assert(vals(gammas@) =~= power_values(gamma@, polys.len() as nat));
        }
        let gamma_fis = match linear_combination(polys, gammas.as_slice()) {
            None => {
                return Err(Error::NoPolynomialsGiven);
            },
            Some(p) => p,
        };
        proof {
            if forall|i: int|
                0 <= i < polys.len() ==> (#[trigger] polys[i]).len() <= self.powers_of_g1.len() {
                lemma_longest_bound(polys@, polys.len() as nat, self.powers_of_g1.len() as int);
            }
        }
        let z_s = vanishing_polynomial(points);
        let (h, _rem) = match poly_div_q_r(&gamma_fis, &z_s) {
            Err(e) => {
                return Err(e);
            },
            Ok(qr) => qr,
        };
        match curve_msm(self.powers_of_g1.as_slice(), h.as_slice()) {
            Err(e) => Err(e),
            Ok(w) => Ok(Proof(w)),
        }
    }

    /// Verifies a proof for the values `evals` of the committed polynomials
    /// at `pts`: the interpolants of the values are combined with the powers
    /// of `gamma`, as the commitments are, and one pairing equation is
    /// checked.
    pub fn verify(
        &self,
        commits: &[Commitment],
        pts: &[Scalar],
        evals: &[Vec<Scalar>],
        proof: &Proof,
        gamma: Scalar,
    ) -> (r: Result<bool, Error>)
        requires
            self.wf(),
            all_wf(pts@),
            all_wf2(evals@),
            gamma.wf(),
            pts.len() < usize::MAX - 2,
        ensures
            r == verify_result(*self, commits@, vals(pts@), vals2(evals@), *proof, gamma@),
    {
        if pts.len() + 1 > self.powers_of_g2.len() {
            return Err(
                Error::TooManyPoints { n_points: pts.len(), expected_max: self.powers_of_g2.len() - 1 },
            );
        }
        if evals.len() == 0 {
            return Err(Error::NoPolynomialsGiven);
        }
        let zeros = vanishing_polynomial(pts);
        let zeros_g2 = g2_msm(self.powers_of_g2.as_slice(), zeros.as_slice());
        let gammas = gen_powers(gamma, evals.len());
        proof {
            assert(vals(gammas@) =~= power_values(gamma@, evals.len() as nat));
        }
        let ri_s = match lagrange_interp(evals, pts) {
            None => {
                return Err(Error::RepeatedPoint);
            },
            Some(v) => v,
        };
        proof {
            assert(vals2(ri_s@).len() == ri_s.len());
            assert(interpolants(vals(pts@), vals2(evals@)).len() == evals.len());
        }
        let gamma_ris = match linear_combination(ri_s.as_slice(), gammas.as_slice()) {
            None => {
                return Err(Error::NoPolynomialsGiven);
            },
            Some(p) => p,
        };
        let r_comm = match curve_msm(self.powers_of_g1.as_slice(), gamma_ris.as_slice()) {
            Err(e) => {
                return Err(e);
            },
            Ok(p) => p,
        };
        let mut cms: Vec<G1Point> = Vec::new();
        let mut j: usize = 0;
        while j < commits.len()
            invariant
                0 <= j <= commits.len(),
                cms@ == commitment_points(commits@).take(j as int),
            decreases commits.len() - j,
        {
            cms.push(commits[j].0);
            proof {
                assert(commitment_points(commits@).take(j + 1) =~= commitment_points(commits@).take(
                    j as int,
                ).push(commits[j as int].0));
            }
            j = j + 1;
        }
        proof {
            assert(commitment_points(commits@).take(commits.len() as int) =~= commitment_points(
                commits@,
            ));
        }
        let cm = match curve_msm(cms.as_slice(), gammas.as_slice()) {
            Err(e) => {
                return Err(e);
            },
            Ok(p) => p,
        };
        let f = cm.sub(&r_comm);
        Ok(pairing_equal(&f, &self.powers_of_g2[0], &proof.0, &zeros_g2))
    }
}

} // verus!
