//! The second construction: beside the quotient by the vanishing polynomial
//! of the points, the proof holds an opening of a derived polynomial at a
//! further challenge point, and is checked with one pairing equation in
//! which the second group enters with two elements only.
use crate::ark::curve::{
    g1_difference, g1_product, g2_difference, g2_product, pairing_equal, pairings_agree, G1Point,
    G2Point,
};
use crate::ark::field::{modulus, Scalar};
use crate::ark::kzg_multiproof::method1::is_setup;
use crate::ark::kzg_multiproof::{
    combined, constant_polynomial, curve_msm, curve_msm_result, gen_curve_powers_g1,
    gen_curve_powers_g2, gen_powers, lagrange_interp, linear_divisor, poly_div_q_r, Error,
};
use crate::ark::poly::{
    all_wf, canon, eval, evaluate, naive_mul, p_mul, p_scale, p_sub, quotient, remainder, scale,
    vals,
};
use crate::ark::roots::{
    all_wf2, interpolable, lemma_longest_bound, lincomb, linear_combination, roots_poly, vals2,
    vanishing_polynomial,
};
use crate::ark::streaming_kzg::{interpolants, power_values};
use rand::rngs::StdRng;
use vstd::prelude::*;

verus! {

/// The powers of a secret in both groups.
#[derive(Debug, Clone)]
pub struct Setup {
    pub powers_of_g1: Vec<G1Point>,
    pub powers_of_g2: Vec<G2Point>,
}

/// A commitment to a polynomial.
#[derive(Debug, Clone, Copy, PartialEq, Eq)]
pub struct Commitment(pub G1Point);

/// A proof of the values of several polynomials at several points: the
/// commitment to the quotient by the vanishing polynomial, and the opening
/// at the challenge point.
#[derive(Debug, Clone, Copy, PartialEq, Eq)]
pub struct Proof(pub G1Point, pub G1Point);

/// The group elements that commitments hold.
pub open spec fn commitment_points(commitments: Seq<Commitment>) -> Seq<G1Point> {
    Seq::new(commitments.len(), |i: int| commitments[i].0)
}

/// The two polynomials that a proof commits to: the quotient `h` of the
/// combined polynomials `f` by the vanishing polynomial `Z` of the points,
/// and the quotient by `x - z` of `f - c - Z(z) * h`, where the constant `c`
/// is the value at `z` of the remainder times `Z`.
pub open spec fn opening_polynomials(
    polys: Seq<Seq<int>>,
    points: Seq<int>,
    gamma: int,
    z: int,
    n_gammas: nat,
) -> (Seq<int>, Seq<int>) {
    let f = combined(polys, gamma, n_gammas);
    let zs = canon(roots_poly(points, -1));
    let h = quotient(f, zs);
    let rem = remainder(f, zs);
    let c = eval(canon(p_mul(rem, zs)), z) % modulus();
    let f_z = canon(p_sub(f, canon(seq![c])));
    let l = canon(p_sub(f_z, canon(p_scale(eval(zs, z) % modulus(), h))));
    (h, quotient(l, seq![(-z) % modulus(), 1int]))
}

/// What opening `polys` at `points` under the challenges `gamma` and `z`
/// gives.
pub open spec fn open_result(
    setup: Setup,
    polys: Seq<Seq<int>>,
    points: Seq<int>,
    gamma: int,
    z: int,
) -> Result<Proof, Error> {
    if polys.len() == 0 || setup.powers_of_g1.len() == 0 {
        Err(Error::NoPolynomialsGiven)
    } else {
        let (h, lq) = opening_polynomials(polys, points, gamma, z, setup.powers_of_g1.len() as nat);
        match curve_msm_result(setup.powers_of_g1@, h) {
            Err(e) => Err(e),
            Ok(w1) => match curve_msm_result(setup.powers_of_g1@, lq) {
                Err(e) => Err(e),
                Ok(w2) => Ok(Proof(w1, w2)),
            },
        }
    }
}

/// What verifying a proof for `evals` at `pts` gives: the equation
/// `e(F - r(z) * G - Z(z) * W1, H) == e(W2, x * H - z * H)`, where `F`
/// combines the commitments with the powers of `gamma` and `r` combines the
/// interpolants of the values in the same way.
pub open spec fn verify_result(
    setup: Setup,
    commits: Seq<Commitment>,
    pts: Seq<int>,
    evals: Seq<Seq<int>>,
    proof: Proof,
    gamma: int,
    z: int,
) -> Result<bool, Error> {
    if evals.len() == 0 {
        Err(Error::NoPolynomialsGiven)
    } else if !interpolable(pts) {
        Err(Error::RepeatedPoint)
    } else {
        let zeros_z = eval(canon(roots_poly(pts, -1)), z) % modulus();
        let gammas = power_values(gamma, evals.len());
        let r = canon(lincomb(interpolants(pts, evals), gammas, evals.len()));
        let r_z = eval(r, z) % modulus();
        match curve_msm_result(commitment_points(commits), gammas) {
            Err(e) => Err(e),
            Ok(cm) => Ok(
                pairings_agree(
                    g1_difference(
                        g1_difference(cm, g1_product(setup.powers_of_g1[0], r_z)),
                        g1_product(proof.0, zeros_z),
                    ),
                    setup.powers_of_g2[0],
                    proof.1,
                    g2_difference(setup.powers_of_g2[1], g2_product(setup.powers_of_g2[0], z)),
                ),
            ),
        }
    }
}

impl Setup {
    /// Whether the setup has a generator in the first group, and a generator
    /// and its multiple by the secret in the second.
    pub open spec fn wf(&self) -> bool {
        self.powers_of_g1.len() >= 1 && self.powers_of_g2.len() >= 2
    }

    /// A setup for polynomials of degree up to `max_degree` and openings at
    /// up to `max_pts` points, from a secret and generators drawn from `rng`.
    pub fn new(max_degree: usize, max_pts: usize, rng: &mut StdRng) -> (s: Setup)
        requires
            max_degree < usize::MAX,
            max_pts <= max_degree,
        ensures
            max_pts >= 1 ==> s.wf(),
            exists|x: int, g1: G1Point, g2: G2Point|
                0 <= x < modulus() && is_setup(
                    s.powers_of_g1@,
                    s.powers_of_g2@,
                    max_degree as int,
                    max_pts as int,
                    x,
                    g1,
                    g2,
                ),
    {
        let x = Scalar::rand(rng);
        let g1 = G1Point::rand(rng);
        let g2 = G2Point::rand(rng);
        let s = Self::new_from_trapdoor(max_degree, max_pts, &x, &g1, &g2);
        proof {
            assert(is_setup(
                s.powers_of_g1@,
                s.powers_of_g2@,
                max_degree as int,
                max_pts as int,
                x@,
                g1,
                g2,
            ));
        }
        s
    }

    /// The setup for the secret `x` and the generators `g1` and `g2`.
    pub fn new_from_trapdoor(
        max_degree: usize,
        max_pts: usize,
        x: &Scalar,
        g1: &G1Point,
        g2: &G2Point,
    ) -> (s: Setup)
        requires
            max_degree < usize::MAX,
            max_pts <= max_degree,
            x.wf(),
        ensures
            max_pts >= 1 ==> s.wf(),
            is_setup(s.powers_of_g1@, s.powers_of_g2@, max_degree as int, max_pts as int, x@, *g1, *g2),
    {
        let num_scalars = max_degree + 1;
        let x_powers = gen_powers(*x, num_scalars);
        let powers_of_g1 = gen_curve_powers_g1(x_powers.as_slice(), g1);
        let powers_of_g2 = gen_curve_powers_g2(x_powers.as_slice(), max_pts + 1, g2);
        Setup { powers_of_g1, powers_of_g2 }
    }

    /// The commitment to a polynomial, unless it has more coefficients than
    /// the setup has powers.
    pub fn commit(&self, poly: &[Scalar]) -> (r: Result<Commitment, Error>)
        requires
            all_wf(poly@),
        ensures
            r == (match curve_msm_result(self.powers_of_g1@, vals(poly@)) {
                Err(e) => Err::<Commitment, Error>(e),
                Ok(p) => Ok(Commitment(p)),
            }),
    {
        match curve_msm(self.powers_of_g1.as_slice(), poly) {
            Err(e) => Err(e),
            Ok(p) => Ok(Commitment(p)),
        }
    }

    /// Opens the polynomials at the points, under the challenge `gamma` that
    /// combines them and the challenge point `chal_z`.
    pub fn open(
        &self,
        polys: &[Vec<Scalar>],
        points: &[Scalar],
        gamma: Scalar,
        chal_z: Scalar,
    ) -> (r: Result<Proof, Error>)
        requires
            all_wf2(polys@),
            all_wf(points@),
            gamma.wf(),
            chal_z.wf(),
            points.len() < usize::MAX / 2 - 2,
        ensures
            r == open_result(*self, vals2(polys@), vals(points@), gamma@, chal_z@),
            polys.len() > 0 && self.powers_of_g1.len() > 0 && (forall|i: int|
                0 <= i < polys.len() ==> (#[trigger] polys[i]).len() <= self.powers_of_g1.len())
                ==> r.is_ok(),
    {
        let gammas = gen_powers(gamma, self.powers_of_g1.len());
        proof {
            assert(vals(gammas@) =~= power_values(gamma@, self.powers_of_g1.len() as nat));
        }
        let gamma_fis = match linear_combination(polys, gammas.as_slice()) {
            None => {
                return Err(Error::NoPolynomialsGiven);
            },
            Some(p) => p,
        };
        proof {
            if forall|i: int|
                0 <= i < polys.len() ==> (#[trigger] polys[i]).len() <= self.powers_of_g1.len() {
                let n = if polys.len() < self.powers_of_g1.len() {
                    polys.len()
                } else {
                    self.powers_of_g1.len()
                };
                lemma_longest_bound(polys@, n as nat, self.powers_of_g1.len() as int);
            }
        }
        let z_s = vanishing_polynomial(points);
        let (h, gamma_ris) = match poly_div_q_r(&gamma_fis, &z_s) {
            Err(e) => {
                return Err(e);
            },
            Ok(qr) => qr,
        };
        let w_1 = match curve_msm(self.powers_of_g1.as_slice(), h.as_slice()) {
            Err(e) => {
                return Err(e);
            },
            Ok(p) => p,
        };
        let gamma_ri_z = evaluate(&naive_mul(&gamma_ris, &z_s), &chal_z);
        let f_z = crate::ark::poly::sub(&gamma_fis, &constant_polynomial(gamma_ri_z));
        let zeros_z = evaluate(&z_s, &chal_z);
        let l = crate::ark::poly::sub(&f_z, &scale(&h, &zeros_z));
        let x_minus_z = linear_divisor(&chal_z);
        let (l_quotient, _rem) = match poly_div_q_r(&l, &x_minus_z) {
            Err(e) => {
                return Err(e);
            },
            Ok(qr) => qr,
        };
        proof {
            if polys.len() > 0 && self.powers_of_g1.len() > 0 && forall|i: int|
                0 <= i < polys.len() ==> (#[trigger] polys[i]).len() <= self.powers_of_g1.len() {
                let bound = self.powers_of_g1.len();
                assert(gamma_fis.len() <= bound);
                assert(vals(h@).len() == h.len());
                assert(vals(gamma_fis@).len() == gamma_fis.len());
                assert(h.len() <= bound);
                assert(f_z.len() <= bound);
                assert(l.len() <= bound);
                assert(vals(l_quotient@).len() == l_quotient.len());
                assert(vals(l@).len() == l.len());
                assert(vals(x_minus_z@).len() == 2);
                assert(l_quotient.len() <= bound);
            }
        }
        match curve_msm(self.powers_of_g1.as_slice(), l_quotient.as_slice()) {
            Err(e) => Err(e),
            Ok(w_2) => Ok(Proof(w_1, w_2)),
        }
    }

    /// Verifies a proof for the values `evals` of the committed polynomials
    /// at `pts`, under the challenges `gamma` and `chal_z`.
    pub fn verify(
        &self,
        commits: &[Commitment],
        pts: &[Scalar],
        evals: &[Vec<Scalar>],
        proof: &Proof,
        gamma: Scalar,
        chal_z: Scalar,
    ) -> (r: Result<bool, Error>)
        requires
            self.wf(),
            all_wf(pts@),
            all_wf2(evals@),
            gamma.wf(),
            chal_z.wf(),
            pts.len() < usize::MAX - 2,
        ensures
            r == verify_result(*self, commits@, vals(pts@), vals2(evals@), *proof, gamma@, chal_z@),
    {
        if evals.len() == 0 {
            return Err(Error::NoPolynomialsGiven);
        }
        let zeros = vanishing_polynomial(pts);
        let zeros_z = evaluate(&zeros, &chal_z);

        // The r_i polynomials, by Lagrange interpolation.
        let gammas = gen_powers(gamma, evals.len());
        proof {
            assert(vals(gammas@) =~= power_values(gamma@, evals.len() as nat));
        }
        let ri_s = match lagrange_interp(evals, pts) {
            None => {
                return Err(Error::RepeatedPoint);
            },
            Some(v) => v,
        };
        proof {
            assert(vals2(ri_s@).len() == ri_s.len());
            assert(interpolants(vals(pts@), vals2(evals@)).len() == evals.len());
        }
        // Aggregate the r_i and evaluate at chal_z.
        let gamma_ris = match linear_combination(ri_s.as_slice(), gammas.as_slice()) {
            None => {
                return Err(Error::NoPolynomialsGiven);
            },
            Some(p) => p,
        };
        let gamma_ris_z = evaluate(&gamma_ris, &chal_z);
        let gamma_ris_z_pt = self.powers_of_g1[0].mul(&gamma_ris_z);

        // A single msm of the gammas and the commitments.
        let mut cms: Vec<G1Point> = Vec::new();
        let mut j: usize = 0;
        while j < commits.len()
            invariant
                0 <= j <= commits.len(),
                cms@ == commitment_points(commits@).take(j as int),
            decreases commits.len() - j,
        {
            cms.push(commits[j].0);
            proof {
                assert(commitment_points(commits@).take(j + 1) =~= commitment_points(commits@).take(
                    j as int,
                ).push(commits[j as int].0));
            }
            j = j + 1;
        }
        proof {
            assert(commitment_points(commits@).take(commits.len() as int) =~= commitment_points(
                commits@,
            ));
        }
        let gamma_cm_pt = match curve_msm(cms.as_slice(), gammas.as_slice()) {
            Err(e) => {
                return Err(e);
            },
            Ok(p) => p,
        };
        let f = gamma_cm_pt.sub(&gamma_ris_z_pt).sub(&proof.0.mul(&zeros_z));
        let g2 = self.powers_of_g2[0];
        let g2x = self.powers_of_g2[1];
        let x_minus_z = g2x.sub(&g2.mul(&chal_z));
        Ok(pairing_equal(&f, &g2, &proof.1, &x_minus_z))
    }
}

} // verus!
