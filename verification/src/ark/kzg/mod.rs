//! A polynomial commitment that lets a prover commit to a single polynomial
//! `p` and later give an evaluation proof that convinces verifiers that a
//! claimed value `v` is the evaluation of `p` at a chosen point `x`, after
//! Kate, Zaverucha and Goldberg.
use crate::ark::curve::{
    g1_difference, g1_fixed_base_value, g1_msm, g1_msm_value, g1_multiples, g1_negation,
    g1_product, g1_sum,
    g2_difference, g2_product, pairing_equal, pairing_product_is_identity, pairing_product_is_one,
    pairings_agree, G1Point, G2Point,
};
use crate::ark::field::{modulus, rand_u128, Scalar};
use crate::ark::poly::{
    all_wf, divide_with_q_and_r, lemma_cong_add, lemma_cong_reduce, lemma_linear_quotient,
    lemma_vals_canonical, power_values, powers, quotient_by_linear, vals, DensePolynomial,
};
use rand::rngs::StdRng;
use std::collections::BTreeMap;
use vstd::arithmetic::div_mod::lemma_small_mod;
use vstd::prelude::*;
use vstd::slice::slice_subrange;

pub mod data_structures;

pub use data_structures::{
    repeated_doubling, Commitment, Powers, PreparedCommitment, PreparedVerifierKey, Proof,
    UniversalParams, VerifierKey, MODULUS_BIT_SIZE,
};

verus! {

/// The structural errors of the scheme.
#[derive(Debug, Clone, PartialEq, Eq)]
pub enum Error {
    /// The requested maximum degree is below one.
    DegreeIsZero,
    /// The degree bound is not among those that the key enforces.
    UnsupportedDegreeBound(usize),
    /// The degree bound is below the polynomial's degree or above the maximum.
    IncorrectDegreeBound {
        poly_degree: usize,
        degree_bound: usize,
        supported_degree: usize,
        label: String,
    },
    /// The polynomial has more coefficients than the key has powers.
    TooManyCoefficients { num_coefficients: usize, num_powers: usize },
}

/// A polynomial with a name and, possibly, a bound on its degree that a
/// commitment is to enforce.
#[derive(Debug, Clone)]
pub struct LabeledPolynomial {
    pub label: String,
    pub polynomial: DensePolynomial,
    pub degree_bound: Option<usize>,
}

/// The KZG10 polynomial commitment scheme over BLS12-381.
pub struct KZG10 {}

/// Whether `pp` is the reference string of degree `max_degree` for the secret
/// `beta` and the generators `g`, `gamma_g` and `h`: the multiples of `g` and
/// of `gamma_g` by the powers of `beta` up to `max_degree`, one further power
/// of `beta` times `gamma_g`, and `h` with its multiple by `beta`, which are
/// also the elements that pairings take.
pub open spec fn is_srs(
    pp: UniversalParams,
    max_degree: int,
    beta: int,
    g: G1Point,
    gamma_g: G1Point,
    h: G2Point,
) -> bool {
    &&& pp.powers_of_g.len() == max_degree + 1
    &&& pp.powers_of_g@ == g1_fixed_base_value(g, power_values(beta, (max_degree + 1) as nat))
    &&& forall|i: usize| pp.powers_of_gamma_g@.contains_key(i) <==> i <= max_degree + 1
    &&& forall|i: usize|
        i <= max_degree ==> #[trigger] pp.powers_of_gamma_g@[i] == g1_fixed_base_value(
            gamma_g,
            power_values(beta, (max_degree + 1) as nat),
        )[i as int]
    &&& pp.powers_of_gamma_g@[(max_degree + 1) as usize] == g1_product(
        pp.powers_of_gamma_g@[max_degree as usize],
        beta,
    )
    &&& pp.h == h
    &&& pp.beta_h == g2_product(h, beta)
    &&& pp.prepared_h == pp.h
    &&& pp.prepared_beta_h == pp.beta_h
}

/// Whether `powers` and `vk` are the keys that `pp` gives for polynomials of
/// degree up to `supported_degree`, where a degree of one counts as two: the
/// powers of both lists up to that degree, and the generators and the
/// elements of the second group for the verifier.
pub open spec fn is_trimmed(pp: UniversalParams, supported_degree: int, powers: Powers, vk: VerifierKey) -> bool {
    let d = if supported_degree == 1 {
        2
    } else {
        supported_degree
    };
    &&& powers.powers_of_g@ == pp.powers_of_g@.take(d + 1)
    &&& powers.powers_of_gamma_g.len() == d + 1
    &&& forall|i: usize|
        i <= d ==> #[trigger] powers.powers_of_gamma_g[i as int] == pp.powers_of_gamma_g@[i]
    &&& vk.g == pp.powers_of_g[0]
    &&& vk.gamma_g == pp.powers_of_gamma_g@[0]
    &&& vk.h == pp.h
    &&& vk.beta_h == pp.beta_h
    &&& vk.prepared_h == pp.prepared_h
    &&& vk.prepared_beta_h == pp.prepared_beta_h
}

/// The number of zero coefficients of lowest degree.
pub open spec fn leading_zeros(c: Seq<int>) -> nat
    decreases c.len(),
{
    if c.len() == 0 || c[0] != 0 {
        0
    } else {
        1 + leading_zeros(c.skip(1))
    }
}

/// The commitment to the coefficients `c` under `powers`: the multi-scalar
/// multiplication of the coefficients from the first non-zero one on, with
/// the powers of the same degrees.
pub open spec fn commitment_of(powers: Seq<G1Point>, c: Seq<int>) -> G1Point {
    let n = leading_zeros(c) as int;
    g1_msm_value(powers.skip(n), c.skip(n))
}

/// The count of leading zeros is the index of the first non-zero coefficient.
pub proof fn lemma_leading_zeros(c: Seq<int>, n: int)
    requires
        0 <= n <= c.len(),
        forall|i: int| 0 <= i < n ==> c[i] == 0,
        n == c.len() || c[n] != 0,
    ensures
        leading_zeros(c) == n,
    decreases n,
{
    if n > 0 {
        assert(c[0] == 0);
        let t = c.skip(1);
        assert forall|i: int| 0 <= i < n - 1 implies t[i] == 0 by {
            assert(c[i + 1] == 0);
        }
        lemma_leading_zeros(t, n - 1);
    }
}

/// The number of zero coefficients of lowest degree, and the coefficients
/// that follow them.
pub fn skip_leading_zeros(coeffs: &Vec<Scalar>) -> (res: (usize, Vec<Scalar>))
    ensures
        res.0 == leading_zeros(vals(coeffs@)),
        res.0 <= coeffs.len(),
        res.1@ == coeffs@.skip(res.0 as int),
{
    let mut num_leading_zeros: usize = 0;
    while num_leading_zeros < coeffs.len() && coeffs[num_leading_zeros].is_zero()
        invariant
            0 <= num_leading_zeros <= coeffs.len(),
            forall|i: int| 0 <= i < num_leading_zeros ==> (#[trigger] coeffs[i])@ == 0,
        decreases coeffs.len() - num_leading_zeros,
    {
        num_leading_zeros = num_leading_zeros + 1;
    }
    proof {
        let c = vals(coeffs@);
        assert forall|i: int| 0 <= i < num_leading_zeros implies c[i] == 0 by {
            assert(coeffs[i]@ == 0);
        }
        lemma_leading_zeros(c, num_leading_zeros as int);
    }
    let mut rest: Vec<Scalar> = Vec::new();
    let mut i: usize = num_leading_zeros;
    while i < coeffs.len()
        invariant
            num_leading_zeros <= i <= coeffs.len(),
            rest@ == coeffs@.subrange(num_leading_zeros as int, i as int),
        decreases coeffs.len() - i,
    {
        rest.push(coeffs[i]);
        proof {
            assert(coeffs@.subrange(num_leading_zeros as int, i + 1) =~= coeffs@.subrange(
                num_leading_zeros as int,
                i as int,
            ).push(coeffs[i as int]));
        }
        i = i + 1;
    }
    proof {
        assert(coeffs@.subrange(num_leading_zeros as int, coeffs.len() as int) =~= coeffs@.skip(
            num_leading_zeros as int,
        ));
    }
    (num_leading_zeros, rest)
}

/// The first `n` elements of `v`.
fn prefix(v: &Vec<G1Point>, n: usize) -> (r: Vec<G1Point>)
    requires
        n <= v.len(),
    ensures
        r@ == v@.take(n as int),
{
    let mut r: Vec<G1Point> = Vec::new();
    let mut i: usize = 0;
    while i < n
        invariant
            0 <= i <= n,
            n <= v.len(),
            r@ == v@.take(i as int),
        decreases n - i,
    {
        r.push(v[i]);
        proof {
            assert(v@.take(i + 1) =~= v@.take(i as int).push(v[i as int]));
        }
        i = i + 1;
    }
    r
}

/// The elements of `v`, each under its index.
fn enumerated(v: &Vec<G1Point>) -> (m: BTreeMap<usize, G1Point>)
    ensures
        forall|i: usize| m@.contains_key(i) <==> i < v.len(),
        forall|i: usize| i < v.len() ==> #[trigger] m@[i] == v[i as int],
{
    let mut m: BTreeMap<usize, G1Point> = BTreeMap::new();
    let mut i: usize = 0;
    while i < v.len()
        invariant
            0 <= i <= v.len(),
            forall|k: usize| m@.contains_key(k) <==> k < i,
            forall|k: usize| k < i ==> #[trigger] m@[k] == v[k as int],
        decreases v.len() - i,
    {
        m.insert(i, v[i]);
        i = i + 1;
    }
    m
}

/// The elements that `m` holds under the indices below `n`, in their order.
fn listed(m: &BTreeMap<usize, G1Point>, n: usize) -> (r: Vec<G1Point>)
    requires
        forall|i: usize| i < n ==> m@.contains_key(i),
    ensures
        r.len() == n,
        forall|i: usize| i < n ==> #[trigger] r[i as int] == m@[i],
{
    let mut r: Vec<G1Point> = Vec::new();
    let mut i: usize = 0;
    while i < n
        invariant
            0 <= i <= n,
            forall|k: usize| k < n ==> m@.contains_key(k),
            r.len() == i,
            forall|k: usize| k < i ==> #[trigger] r[k as int] == m@[k],
        decreases n - i,
    {
        match m.get(&i) {
            Some(p) => r.push(*p),
            None => unreached(),
        }
        i = i + 1;
    }
    r
}

impl KZG10 {
    /// Constructs public parameters for polynomials of degree up to
    /// `max_degree`, from a secret and generators drawn from `rng`. No powers
    /// in the second group are produced, whatever `produce_g2_powers` says.
    pub fn setup(max_degree: usize, produce_g2_powers: bool, rng: &mut StdRng) -> (r: Result<
        UniversalParams,
        Error,
    >)
        requires
            max_degree < usize::MAX - 1,
        ensures
            max_degree < 1 ==> r == Err::<UniversalParams, Error>(Error::DegreeIsZero),
            max_degree >= 1 ==> r.is_ok() && exists|beta: int, g: G1Point, gamma_g: G1Point, h: G2Point|
                0 <= beta < modulus() && is_srs(r.unwrap(), max_degree as int, beta, g, gamma_g, h),
            r.is_ok() ==> r.unwrap().wf() && r.unwrap().powers_of_g.len() == max_degree + 1,
    {
        if max_degree < 1 {
            return Err(Error::DegreeIsZero);
        }
        let beta = Scalar::rand(rng);
        let g = G1Point::rand(rng);
        let gamma_g = G1Point::rand(rng);
        let h = G2Point::rand(rng);
        let r = Self::setup_from_trapdoor(max_degree, &beta, &g, &gamma_g, &h);
        proof {
            assert(is_srs(r.unwrap(), max_degree as int, beta@, g, gamma_g, h));
        }
        r
    }

    /// Constructs public parameters for polynomials of degree up to
    /// `max_degree` from the secret `beta` and the generators `g`, `gamma_g`
    /// and `h`.
    pub fn setup_from_trapdoor(
        max_degree: usize,
        beta: &Scalar,
        g: &G1Point,
        gamma_g: &G1Point,
        h: &G2Point,
    ) -> (r: Result<UniversalParams, Error>)
        requires
            max_degree < usize::MAX - 1,
            beta.wf(),
        ensures
            max_degree < 1 ==> r == Err::<UniversalParams, Error>(Error::DegreeIsZero),
            max_degree >= 1 ==> r.is_ok() && is_srs(r.unwrap(), max_degree as int, beta@, *g, *gamma_g, *h),
            r.is_ok() ==> r.unwrap().wf(),
    {
        if max_degree < 1 {
            return Err(Error::DegreeIsZero);
        }
        let powers_of_beta = powers(*beta, max_degree + 1);
        let powers_of_g = g1_multiples(g, &powers_of_beta);
        let mut gamma_powers = g1_multiples(gamma_g, &powers_of_beta);
        // One more power of gamma_g, to support up to D queries.
        let last = gamma_powers[max_degree];
        let ghost before = gamma_powers@;
        gamma_powers.push(last.mul(beta));
        assert(gamma_powers[max_degree as int] == before[max_degree as int]);
        let powers_of_gamma_g = enumerated(&gamma_powers);
        let beta_h = h.mul(beta);
        let pp = UniversalParams {
            powers_of_g,
            powers_of_gamma_g,
            h: *h,
            beta_h,
            prepared_h: *h,
            prepared_beta_h: beta_h,
        };
        proof {
            assert forall|i: usize| i <= max_degree implies #[trigger] pp.powers_of_gamma_g@[i]
                == before[i as int] by {
                assert(pp.powers_of_gamma_g@[i] == gamma_powers[i as int]);
            }
        }
        Ok(pp)
    }

    /// Specializes the public parameters for polynomials of degree up to
    /// `supported_degree`, where a degree of one counts as two.
    pub fn trim(pp: &UniversalParams, supported_degree: usize) -> (r: Result<
        (Powers, VerifierKey),
        Error,
    >)
        requires
            pp.wf(),
            (if supported_degree == 1 { 2 } else { supported_degree as int }) <= pp.powers_of_g.len() - 1,
        ensures
            r.is_ok(),
            is_trimmed(*pp, supported_degree as int, r.unwrap().0, r.unwrap().1),
    {
        let degree = if supported_degree == 1 { 2 } else { supported_degree };
        let powers_of_g = prefix(&pp.powers_of_g, degree + 1);
        let powers_of_gamma_g = listed(&pp.powers_of_gamma_g, degree + 1);
        let gamma_g = powers_of_gamma_g[0];
        let powers = Powers { powers_of_g, powers_of_gamma_g };
        let vk = VerifierKey {
            g: pp.powers_of_g[0],
            gamma_g,
            h: pp.h,
            beta_h: pp.beta_h,
            prepared_h: pp.prepared_h,
            prepared_beta_h: pp.prepared_beta_h,
        };
        Ok((powers, vk))
    }

    /// Rejects a polynomial of the given degree if `num_powers` powers do not
    /// suffice for its coefficients.
    pub fn check_degree_is_too_large(degree: usize, num_powers: usize) -> (r: Result<(), Error>)
        requires
            degree < usize::MAX,
        ensures
            degree + 1 > num_powers ==> r == Err::<(), Error>(
                Error::TooManyCoefficients { num_coefficients: (degree + 1) as usize, num_powers },
            ),
            degree + 1 <= num_powers ==> r.is_ok(),
    {
        let num_coefficients = degree + 1;
        if num_coefficients > num_powers {
            Err(Error::TooManyCoefficients { num_coefficients, num_powers })
        } else {
            Ok(())
        }
    }

    /// Outputs a commitment to `polynomial`: an error if it has more
    /// coefficients than there are powers, and else the multi-scalar
    /// multiplication of its coefficients with the powers.
    pub fn commit(powers: &Powers, polynomial: &DensePolynomial) -> (r: Result<Commitment, Error>)
        requires
            polynomial.wf(),
        ensures
            polynomial.spec_degree() + 1 > powers.powers_of_g.len() ==> r == Err::<Commitment, Error>(
                Error::TooManyCoefficients {
                    num_coefficients: (polynomial.spec_degree() + 1) as usize,
                    num_powers: powers.powers_of_g.len(),
                },
            ),
            polynomial.spec_degree() + 1 <= powers.powers_of_g.len() ==> r.is_ok() && r.unwrap().0
                == commitment_of(powers.powers_of_g@, polynomial@),
    {
        match Self::check_degree_is_too_large(polynomial.degree(), powers.size()) {
            Err(e) => Err(e),
            Ok(_) => Ok(Commitment(Self::msm_skipping_zeros(powers, polynomial))),
        }
    }

    /// The multi-scalar multiplication of the coefficients from the first
    /// non-zero one on, with the powers of the same degrees.
    fn msm_skipping_zeros(powers: &Powers, polynomial: &DensePolynomial) -> (r: G1Point)
        requires
            polynomial.wf(),
            polynomial.spec_degree() + 1 <= powers.powers_of_g.len(),
        ensures
            r == commitment_of(powers.powers_of_g@, polynomial@),
    {
        let (num_leading_zeros, plain_coeffs) = skip_leading_zeros(&polynomial.coeffs);
        let bases = slice_subrange(
            powers.powers_of_g.as_slice(),
            num_leading_zeros,
            powers.powers_of_g.len(),
        );
        proof {
            let n = num_leading_zeros as int;
            assert(vals(plain_coeffs@) =~= polynomial@.skip(n));
            assert(bases@ =~= powers.powers_of_g@.skip(n));
            assert forall|i: int| 0 <= i < plain_coeffs.len() implies (#[trigger] plain_coeffs[i]).wf() by {
                assert(polynomial.coeffs[i + n].wf());
            }
        }
        g1_msm(bases, plain_coeffs.as_slice())
    }

    /// Compute witness polynomial.
    ///
    /// The witness polynomial `w(x)` is the quotient of the division
    /// `(p(x) - p(z)) / (x - z)`. The quotient does not change with the
    /// constant term, so `p` itself is divided: the result is the quotient of
    /// synthetic division of `p` by `x - z`.
    pub fn compute_witness_polynomial(p: &DensePolynomial, point: Scalar) -> (r: Result<
        DensePolynomial,
        Error,
    >)
        requires
            p.wf(),
            point.wf(),
        ensures
            r.is_ok(),
            r.unwrap().wf(),
            r.unwrap()@ == quotient_by_linear(p@, point@),
    {
        let mut divisor: Vec<Scalar> = Vec::new();
        divisor.push(point.neg());
        divisor.push(Scalar::one());
        let (q, rem) = divide_with_q_and_r(&p.coeffs, &divisor);
        proof {
            lemma_vals_canonical(q@);
            lemma_vals_canonical(rem@);
            lemma_vals_canonical(p.coeffs@);
            lemma_cong_reduce(-point@);
            lemma_linear_quotient(p@, point@, vals(divisor@), vals(q@), vals(rem@));
        }
        Ok(DensePolynomial { coeffs: q })
    }

    /// The proof that commits to the given witness polynomial.
    pub fn open_with_witness_polynomial(powers: &Powers, witness_polynomial: &DensePolynomial) -> (r:
        Result<Proof, Error>)
        requires
            witness_polynomial.wf(),
        ensures
            witness_polynomial.spec_degree() + 1 > powers.powers_of_g.len() ==> r == Err::<Proof, Error>(
                Error::TooManyCoefficients {
                    num_coefficients: (witness_polynomial.spec_degree() + 1) as usize,
                    num_powers: powers.powers_of_g.len(),
                },
            ),
            witness_polynomial.spec_degree() + 1 <= powers.powers_of_g.len() ==> r.is_ok()
                && r.unwrap().w == commitment_of(powers.powers_of_g@, witness_polynomial@),
    {
        match Self::check_degree_is_too_large(witness_polynomial.degree(), powers.size()) {
            Err(e) => Err(e),
            Ok(_) => Ok(Proof { w: Self::msm_skipping_zeros(powers, witness_polynomial) }),
        }
    }

    /// On input a polynomial `p` and a point `point`, outputs a proof for the
    /// same: the commitment to the witness polynomial.
    pub fn open(powers: &Powers, p: &DensePolynomial, point: Scalar) -> (r: Result<Proof, Error>)
        requires
            p.wf(),
            point.wf(),
        ensures
            p.spec_degree() + 1 > powers.powers_of_g.len() ==> r == Err::<Proof, Error>(
                Error::TooManyCoefficients {
                    num_coefficients: (p.spec_degree() + 1) as usize,
                    num_powers: powers.powers_of_g.len(),
                },
            ),
            p.spec_degree() + 1 <= powers.powers_of_g.len() ==> r.is_ok() && r.unwrap().w
                == commitment_of(powers.powers_of_g@, quotient_by_linear(p@, point@)),
    {
        match Self::check_degree_is_too_large(p.degree(), powers.size()) {
            Err(e) => Err(e),
            Ok(_) => {
                match Self::compute_witness_polynomial(p, point) {
                    Err(e) => Err(e),
                    Ok(witness_poly) => Self::open_with_witness_polynomial(powers, &witness_poly),
                }
            },
        }
    }

    /// Verifies that `value` is the evaluation at `point` of the polynomial
    /// committed inside `comm`: whether
    /// `e(comm - value * g, h) == e(proof.w, beta_h - point * h)`.
    pub fn check(vk: &VerifierKey, comm: &Commitment, point: Scalar, value: Scalar, proof: &Proof) -> (r:
        Result<bool, Error>)
        requires
            point.wf(),
            value.wf(),
        ensures
            r == Ok::<bool, Error>(check_equation(*vk, *comm, point@, value@, *proof)),
    {
        let inner = comm.0.sub(&vk.g.mul(&value));
        let inner2 = vk.beta_h.sub(&vk.h.mul(&point));
        Ok(pairing_equal(&inner, &vk.h, &proof.w, &inner2))
    }
}

/// The verification equation of one opening:
/// `e(comm - value * g, h) == e(proof.w, beta_h - point * h)`.
pub open spec fn check_equation(vk: VerifierKey, comm: Commitment, point: int, value: int, proof: Proof) -> bool {
    pairings_agree(
        g1_difference(comm.0, g1_product(vk.g, value)),
        vk.h,
        proof.w,
        g2_difference(vk.beta_h, g2_product(vk.h, point)),
    )
}

/// The sum of the randomizers times the claimed values, over the first `n`
/// openings.
pub open spec fn batch_multiplier(values: Seq<int>, randomizers: Seq<int>, n: nat) -> int
    decreases n,
{
    if n == 0 {
        0
    } else {
        batch_multiplier(values, randomizers, (n - 1) as nat) + randomizers[n - 1] * values[n - 1]
    }
}

/// The sum over the first `n` openings of the randomizer times
/// `point * proof + commitment`.
pub open spec fn batch_total_c(
    commitments: Seq<Commitment>,
    points: Seq<int>,
    proofs: Seq<Proof>,
    randomizers: Seq<int>,
    n: nat,
) -> G1Point
    decreases n,
{
    if n == 0 {
        G1Point::spec_identity()
    } else {
        let i = n - 1;
        g1_sum(
            batch_total_c(commitments, points, proofs, randomizers, i as nat),
            g1_product(g1_sum(g1_product(proofs[i].w, points[i]), commitments[i].0), randomizers[i]),
        )
    }
}

/// The sum over the first `n` openings of the randomizer times the proof.
pub open spec fn batch_total_w(proofs: Seq<Proof>, randomizers: Seq<int>, n: nat) -> G1Point
    decreases n,
{
    if n == 0 {
        G1Point::spec_identity()
    } else {
        let i = n - 1;
        g1_sum(batch_total_w(proofs, randomizers, i as nat), g1_product(proofs[i].w, randomizers[i]))
    }
}

/// The number of openings that a batch holds: the shortest of the four lists.
pub open spec fn batch_len(commitments: int, points: int, values: int, proofs: int) -> int {
    let a = if commitments < points { commitments } else { points };
    let b = if values < proofs { values } else { proofs };
    if a < b { a } else { b }
}

/// The one pairing equation that checks a batch of openings under the given
/// randomizers: the product of `e(-W, beta_h)` and `e(C, h)` is the identity,
/// where `W` is the randomized sum of the proofs and `C` the randomized sum
/// of `point * proof + commitment`, less the generator times the randomized
/// sum of the values.
pub open spec fn batch_equation(
    vk: VerifierKey,
    commitments: Seq<Commitment>,
    points: Seq<int>,
    values: Seq<int>,
    proofs: Seq<Proof>,
    randomizers: Seq<int>,
) -> bool {
    let n = batch_len(
        commitments.len() as int,
        points.len() as int,
        values.len() as int,
        proofs.len() as int,
    ) as nat;
    let c = batch_total_c(commitments, points, proofs, randomizers, n);
    let w = batch_total_w(proofs, randomizers, n);
    let m = batch_multiplier(values, randomizers, n) % modulus();
    let c1 = g1_difference(c, g1_product(vk.g, m));
    let c2 = g1_difference(c1, g1_product(vk.gamma_g, 0));
    pairing_product_is_identity(seq![g1_negation(w), c2], seq![vk.prepared_beta_h, vk.prepared_h])
        == Some(true)
}

/// Whether `bounds` hold `bound`.
pub fn contains_bound(bounds: &[usize], bound: usize) -> (r: bool)
    ensures
        r == bounds@.contains(bound),
{
    let mut i: usize = 0;
    while i < bounds.len()
        invariant
            0 <= i <= bounds.len(),
            forall|t: int| 0 <= t < i ==> bounds[t] != bound,
        decreases bounds.len() - i,
    {
        if bounds[i] == bound {
            return true;
        }
        i = i + 1;
    }
    false
}

impl KZG10 {
    /// Checks the degree bound of a labeled polynomial, if it has one: the
    /// bound must be among the enforced ones, not below the polynomial's
    /// degree and not above `max_degree`.
    pub fn check_degrees_and_bounds(
        supported_degree: usize,
        max_degree: usize,
        enforced_degree_bounds: Option<&[usize]>,
        p: &LabeledPolynomial,
    ) -> (r: Result<(), Error>)
        ensures
            r == degree_bound_verdict(
                supported_degree,
                max_degree,
                match enforced_degree_bounds {
                    Some(b) => Some(b@),
                    None => None,
                },
                *p,
            ),
    {
        match p.degree_bound {
            None => Ok(()),
            Some(bound) => {
                match enforced_degree_bounds {
                    None => Err(Error::UnsupportedDegreeBound(bound)),
                    Some(bounds) => {
                        if !contains_bound(bounds, bound) {
                            Err(Error::UnsupportedDegreeBound(bound))
                        } else if bound < p.polynomial.degree() || bound > max_degree {
                            Err(
                                Error::IncorrectDegreeBound {
                                    poly_degree: p.polynomial.degree(),
                                    degree_bound: bound,
                                    supported_degree,
                                    label: p.label.clone(),
                                },
                            )
                        } else {
                            Ok(())
                        }
                    },
                }
            },
        }
    }

    /// Check that each `proof_i` in `proofs` is a valid proof of evaluation
    /// for `commitment_i` at `point_i`, with one pairing equation in which the
    /// openings are combined under the given randomizers.
    pub fn batch_check_with_randomizers(
        vk: &VerifierKey,
        commitments: &[Commitment],
        points: &[Scalar],
        values: &[Scalar],
        proofs: &[Proof],
        randomizers: &[Scalar],
    ) -> (r: Result<bool, Error>)
        requires
            all_wf(points@),
            all_wf(values@),
            all_wf(randomizers@),
            randomizers.len() >= batch_len(
                commitments.len() as int,
                points.len() as int,
                values.len() as int,
                proofs.len() as int,
            ),
        ensures
            r == Ok::<bool, Error>(
                batch_equation(*vk, commitments@, vals(points@), vals(values@), proofs@, vals(randomizers@)),
            ),
    {
        let a = if commitments.len() < points.len() { commitments.len() } else { points.len() };
        let b = if values.len() < proofs.len() { values.len() } else { proofs.len() };
        let n = if a < b { a } else { b };
        let ghost pv = vals(points@);
        let ghost vv = vals(values@);
        let ghost rv = vals(randomizers@);
        let mut total_c = G1Point::identity();
        let mut total_w = G1Point::identity();
        // Instead of multiplying g in each turn, its coefficients are
        // accumulated and multiplied once at the end.
        let mut g_multiplier = Scalar::zero();
        let gamma_g_multiplier = Scalar::zero();
        let mut i: usize = 0;
        proof {
            lemma_small_mod(0, modulus() as nat);
        }
        while i < n
            invariant
                0 <= i <= n,
                n <= commitments.len(),
                n <= points.len(),
                n <= values.len(),
                n <= proofs.len(),
                n <= randomizers.len(),
                all_wf(points@),
                all_wf(values@),
                all_wf(randomizers@),
                pv == vals(points@),
                vv == vals(values@),
                rv == vals(randomizers@),
                g_multiplier.wf(),
                g_multiplier@ == batch_multiplier(vv, rv, i as nat) % modulus(),
                total_c == batch_total_c(commitments@, pv, proofs@, rv, i as nat),
                total_w == batch_total_w(proofs@, rv, i as nat),
            decreases n - i,
        {
            let c = commitments[i];
            let z = points[i];
            let v = values[i];
            let w = proofs[i].w;
            let randomizer = randomizers[i];
            assert(z.wf() && v.wf() && randomizer.wf());
            let temp = w.mul(&z).add(&c.0);
            let rv_i = randomizer.mul(&v);
            let next = g_multiplier.add(&rv_i);
            proof {
                let prev = batch_multiplier(vv, rv, i as nat);
                lemma_cong_reduce(prev);
                lemma_cong_reduce(randomizer@ * v@);
                lemma_cong_add(g_multiplier@, prev, rv_i@, randomizer@ * v@);
                lemma_cong_reduce(g_multiplier@ + rv_i@);
                lemma_small_mod(next@ as nat, modulus() as nat);
            }
            g_multiplier = next;
            total_c = total_c.add(&temp.mul(&randomizer));
            total_w = total_w.add(&w.mul(&randomizer));
            i = i + 1;
        }
        total_c = total_c.sub(&vk.g.mul(&g_multiplier));
        total_c = total_c.sub(&vk.gamma_g.mul(&gamma_g_multiplier));
        let mut ps: Vec<G1Point> = Vec::new();
        ps.push(total_w.neg());
        ps.push(total_c);
        let mut qs: Vec<G2Point> = Vec::new();
        qs.push(vk.prepared_beta_h);
        qs.push(vk.prepared_h);
        proof {
            assert(ps@ =~= seq![ps@[0], ps@[1]]);
            assert(qs@ =~= seq![vk.prepared_beta_h, vk.prepared_h]);
        }
        Ok(pairing_product_is_one(&ps, &qs))
    }

    /// Check that each `proof_i` in `proofs` is a valid proof of evaluation
    /// for `commitment_i` at `point_i`. The first opening is taken as it is,
    /// and each later one is multiplied by a 128-bit randomizer drawn from
    /// `rng`.
    pub fn batch_check(
        vk: &VerifierKey,
        commitments: &[Commitment],
        points: &[Scalar],
        values: &[Scalar],
        proofs: &[Proof],
        rng: &mut StdRng,
    ) -> (r: Result<bool, Error>)
        requires
            all_wf(points@),
            all_wf(values@),
        ensures
            exists|randomizers: Seq<Scalar>|
                {
                    &&& randomizers.len() == batch_len(
                        commitments.len() as int,
                        points.len() as int,
                        values.len() as int,
                        proofs.len() as int,
                    )
                    &&& all_wf(randomizers)
                    &&& (randomizers.len() > 0 ==> randomizers[0]@ == 1)
                    &&& (forall|i: int|
                        0 <= i < randomizers.len() ==> (#[trigger] randomizers[i])@
                            < 0x1_0000_0000_0000_0000_0000_0000_0000_0000)
                    &&& r == Ok::<bool, Error>(
                        batch_equation(
                            *vk,
                            commitments@,
                            vals(points@),
                            vals(values@),
                            proofs@,
                            vals(randomizers),
                        ),
                    )
                },
    {
        let a = if commitments.len() < points.len() { commitments.len() } else { points.len() };
        let b = if values.len() < proofs.len() { values.len() } else { proofs.len() };
        let n = if a < b { a } else { b };
        let mut randomizers: Vec<Scalar> = Vec::new();
        let mut randomizer = Scalar::one();
        let mut i: usize = 0;
        while i < n
            invariant
                0 <= i <= n,
                randomizers.len() == i,
                all_wf(randomizers@),
                randomizer.wf(),
                randomizer@ < 0x1_0000_0000_0000_0000_0000_0000_0000_0000,
                i == 0 ==> randomizer@ == 1,
                i > 0 ==> randomizers[0]@ == 1,
                forall|j: int|
                    0 <= j < i ==> (#[trigger] randomizers[j])@ < 0x1_0000_0000_0000_0000_0000_0000_0000_0000,
            decreases n - i,
        {
            randomizers.push(randomizer);
            // Randomizers are sampled from 128-bit strings, not from the
            // full field.
            randomizer = Scalar::from_u128(rand_u128(rng));
            i = i + 1;
        }
        Self::batch_check_with_randomizers(
            vk,
            commitments,
            points,
            values,
            proofs,
            randomizers.as_slice(),
        )
    }
}

/// What the check of a labeled polynomial's degree bound answers.
pub open spec fn degree_bound_verdict(
    supported_degree: usize,
    max_degree: usize,
    enforced_degree_bounds: Option<Seq<usize>>,
    p: LabeledPolynomial,
) -> Result<(), Error> {
    match p.degree_bound {
        None => Ok(()),
        Some(bound) => {
            if enforced_degree_bounds.is_none() || !enforced_degree_bounds.unwrap().contains(bound) {
                Err(Error::UnsupportedDegreeBound(bound))
            } else if bound < p.polynomial.spec_degree() || bound > max_degree {
                Err(
                    Error::IncorrectDegreeBound {
                        poly_degree: p.polynomial.spec_degree() as usize,
                        degree_bound: bound,
                        supported_degree,
                        label: p.label,
                    },
                )
            } else {
                Ok(())
            }
        },
    }
}

} // verus!
