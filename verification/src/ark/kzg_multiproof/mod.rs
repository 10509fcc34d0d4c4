//! Openings of several polynomials at several points with a proof of
//! constant size, in two constructions.
//!
//! Both combine the polynomials with the powers of a challenge and divide
//! the combination by the vanishing polynomial of the points. The first
//! commits to the quotient and checks it against the vanishing polynomial in
//! the second group. The second takes a further challenge point and turns the
//! opening into one at that point, with a proof of two elements.
use crate::ark::curve::{g1_msm, g1_msm_value, g1_product, g2_product, G1Point, G2Point};
use crate::ark::field::{modulus, Scalar};
use crate::ark::poly::{
    all_wf, canon, divide_with_q_and_r, is_division, lemma_canon_unique, lemma_vals_canonical,
    powers, quotient, remainder, same_poly, trim, vals,
};
use crate::ark::roots::{all_wf2, interpolable, interpolant, interpolate, lincomb, min_len, vals2};
use crate::ark::streaming_kzg::{interpolants, power_values};

use vstd::arithmetic::power::pow;
use vstd::prelude::*;

pub mod method1;
pub mod method2;

verus! {

/// The structural errors of the multiproof schemes.
#[derive(Debug, Clone, Copy, PartialEq, Eq)]
pub enum Error {
    /// A polynomial has more coefficients than there are powers to commit
    /// with.
    PolynomialTooLarge { n_coeffs: usize, expected_max: usize },
    /// There are more points than the setup provides for.
    TooManyPoints { n_points: usize, expected_max: usize },
    /// The divisor of a polynomial division is zero.
    DivisorIsZero,
    /// No polynomial was given to combine.
    NoPolynomialsGiven,
    /// A point occurs twice, so that no polynomial interpolates the values.
    RepeatedPoint,
}

/// The first `len` powers of `element`, starting with one.
pub fn gen_powers(element: Scalar, len: usize) -> (r: Vec<Scalar>)
    requires
        element.wf(),
    ensures
        r.len() == len,
        all_wf(r@),
        forall|i: int| 0 <= i < len ==> (#[trigger] r[i])@ == pow(element@, i as nat) % modulus(),
{
    powers(element, len)
}

/// The multiples of `g` by each of `powers`, in the first group.
pub fn gen_curve_powers_g1(powers: &[Scalar], g: &G1Point) -> (r: Vec<G1Point>)
    requires
        all_wf(powers@),
    ensures
        r.len() == powers.len(),
        forall|i: int| 0 <= i < powers.len() ==> #[trigger] r[i] == g1_product(*g, powers[i]@),
{
    let mut r: Vec<G1Point> = Vec::new();
    let mut i: usize = 0;
    while i < powers.len()
        invariant
            0 <= i <= powers.len(),
            all_wf(powers@),
            r.len() == i,
            forall|t: int| 0 <= t < i ==> #[trigger] r[t] == g1_product(*g, powers[t]@),
        decreases powers.len() - i,
    {
        let p = powers[i];
        assert(p.wf());
        r.push(g.mul(&p));
        i = i + 1;
    }
    r
}

/// The multiples of `g` by each of the first `count` of `powers`, in the
/// second group.
pub fn gen_curve_powers_g2(powers: &[Scalar], count: usize, g: &G2Point) -> (r: Vec<G2Point>)
    requires
        all_wf(powers@),
        count <= powers.len(),
    ensures
        r.len() == count,
        forall|i: int| 0 <= i < count ==> #[trigger] r[i] == g2_product(*g, powers[i]@),
{
    let mut r: Vec<G2Point> = Vec::new();
    let mut i: usize = 0;
    while i < count
        invariant
            0 <= i <= count,
            count <= powers.len(),
            all_wf(powers@),
            r.len() == i,
            forall|t: int| 0 <= t < i ==> #[trigger] r[t] == g2_product(*g, powers[t]@),
        decreases count - i,
    {
        let p = powers[i];
        assert(p.wf());
        r.push(g.mul(&p));
        i = i + 1;
    }
    r
}

/// What committing to `scalars` under `bases` gives: an error where there
/// are more scalars than bases, and else the multi-scalar multiplication.
pub open spec fn curve_msm_result(bases: Seq<G1Point>, scalars: Seq<int>) -> Result<G1Point, Error> {
    if scalars.len() > bases.len() {
        Err(
            Error::PolynomialTooLarge {
                n_coeffs: scalars.len() as usize,
                expected_max: bases.len() as usize,
            },
        )
    } else {
        Ok(g1_msm_value(bases, scalars))
    }
}

/// The multi-scalar multiplication of `bases` by `scalars`, unless there are
/// more scalars than bases.
pub fn curve_msm(bases: &[G1Point], scalars: &[Scalar]) -> (r: Result<G1Point, Error>)
    requires
        all_wf(scalars@),
    ensures
        r == curve_msm_result(bases@, vals(scalars@)),
{
    if scalars.len() > bases.len() {
        Err(Error::PolynomialTooLarge { n_coeffs: scalars.len(), expected_max: bases.len() })
    } else {
        Ok(g1_msm(bases, scalars))
    }
}

/// The quotient and the remainder of `f` by `d`, unless `d` is zero.
pub fn poly_div_q_r(f: &Vec<Scalar>, d: &Vec<Scalar>) -> (r: Result<(Vec<Scalar>, Vec<Scalar>), Error>)
    requires
        all_wf(f@),
        all_wf(d@),
        d.len() == 0 || d[d.len() - 1]@ != 0,
    ensures
        d.len() == 0 <==> r == Err::<(Vec<Scalar>, Vec<Scalar>), Error>(Error::DivisorIsZero),
        d.len() > 0 ==> r.is_ok() && {
            let (q, rem) = r.unwrap();
            &&& all_wf(q@)
            &&& all_wf(rem@)
            &&& is_division(vals(f@), vals(d@), vals(q@), vals(rem@))
            &&& vals(q@) == quotient(vals(f@), vals(d@))
            &&& vals(rem@) == remainder(vals(f@), vals(d@))
        },
{
    if d.len() == 0 {
        Err(Error::DivisorIsZero)
    } else {
        Ok(divide_with_q_and_r(f, d))
    }
}

/// The polynomials combined with the first `n` powers of `gamma`, over the
/// indices that both have.
pub open spec fn combined(polys: Seq<Seq<int>>, gamma: int, n: nat) -> Seq<int> {
    canon(lincomb(polys, power_values(gamma, n), min_len(polys.len() as int, n as int) as nat))
}

/// The polynomial with the single coefficient `c`.
pub fn constant_polynomial(c: Scalar) -> (r: Vec<Scalar>)
    requires
        c.wf(),
    ensures
        all_wf(r@),
        r.len() <= 1,
        vals(r@) == canon(seq![c@]),
{
    let mut v: Vec<Scalar> = Vec::new();
    v.push(c);
    let r = trim(v);
    proof {
        lemma_vals_canonical(r@);
        assert(vals(v@) =~= seq![c@]);
        assert(same_poly(vals(r@), seq![c@]));
        lemma_canon_unique(vals(r@), seq![c@]);
    }
    r
}

/// The polynomial `x - z`.
pub fn linear_divisor(z: &Scalar) -> (r: Vec<Scalar>)
    requires
        z.wf(),
    ensures
        all_wf(r@),
        r.len() == 2,
        r[1]@ == 1,
        vals(r@) == seq![(-z@) % modulus(), 1int],
{
    let mut v: Vec<Scalar> = Vec::new();
    v.push(z.neg());
    v.push(Scalar::one());
    proof {
        assert(vals(v@) =~= seq![(-z@) % modulus(), 1int]);
    }
    v
}

/// For each row of `evals`, the polynomial of least degree that takes its
/// values at `points`; nothing where a point occurs twice and there is a row.
pub fn lagrange_interp(evals: &[Vec<Scalar>], points: &[Scalar]) -> (r: Option<Vec<Vec<Scalar>>>)
    requires
        all_wf2(evals@),
        all_wf(points@),
        points.len() < usize::MAX - 2,
    ensures
        r.is_none() <==> evals.len() > 0 && !interpolable(vals(points@)),
        r.is_some() ==> all_wf2(r.unwrap()@) && vals2(r.unwrap()@) == interpolants(
            vals(points@),
            vals2(evals@),
        ),
{
    let mut out: Vec<Vec<Scalar>> = Vec::new();
    let mut i: usize = 0;
    while i < evals.len()
        invariant
            0 <= i <= evals.len(),
            all_wf2(evals@),
            all_wf(points@),
            points.len() < usize::MAX - 2,
            out.len() == i,
            all_wf2(out@),
            i > 0 ==> interpolable(vals(points@)),
            forall|t: int|
                0 <= t < i ==> vals((#[trigger] out[t])@) == interpolant(
                    vals(points@),
                    vals2(evals@)[t],
                ),
        decreases evals.len() - i,
    {
        assert(all_wf(evals[i as int]@));
        match interpolate(points, evals[i].as_slice()) {
            None => {
                return None;
            },
            Some(p) => {
                out.push(p);
            },
        }
        i = i + 1;
    }
    proof {
        assert(vals2(out@) =~= interpolants(vals(points@), vals2(evals@)));
    }
    Some(out)
}

} // verus!
