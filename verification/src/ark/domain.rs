//! Radix-2 evaluation domains: the powers of a root of unity whose order is a
//! power of two, over which `ark_poly` computes FFTs.
//!
//! A forward transform evaluates a polynomial at the domain's elements, and
//! an inverse transform finds the coefficients from the evaluations. Over the
//! scalar field the contracts say so; over the first group of the curve the
//! results are named.
use crate::ark::curve::G1Point;
use crate::ark::field::{limbs_value, modulus, Scalar};
use crate::ark::poly::{
    all_wf, canonical, coeff, cong, eval, lemma_eval_cong, lemma_eval_same_poly,
    lemma_vals_canonical, vals,
};
use ark_bls12_381::{Fq, Fr, G1Affine, G1Projective};
use ark_ec::{AffineRepr, CurveGroup};
use ark_ff::{BigInt, PrimeField};
use ark_poly::EvaluationDomain;
use vstd::arithmetic::div_mod::{lemma_small_mod};
use vstd::arithmetic::power::{lemma_pow_mod_noop, lemma_pow_multiplies, pow};
use vstd::arithmetic::power2::{lemma_pow2_adds, lemma_pow2_pos, lemma_pow2_strictly_increases, pow2};
use rand::rngs::StdRng;
use vstd::prelude::*;

verus! {

/// The largest `s` such that the field has a root of unity of order `2^s`.
pub const TWO_ADICITY: u32 = 32;

/// The root of unity of order `2^32` from which the generators of all
/// domains are derived: seven to the power `(modulus - 1) / 2^32`.
pub open spec fn two_adic_root() -> int {
    limbs_value(
        0x3829_971f_439f_0d2b,
        0xb636_8350_8c22_80b9,
        0xd09b_6819_22c8_13b4,
        0x16a2_a19e_dfe8_1f20,
    )
}

/// A multiplicative subgroup of the scalar field whose size is a power of two.
#[derive(Clone, Copy, Debug, PartialEq, Eq)]
pub struct Radix2EvaluationDomain {
    /// The size of the domain.
    pub size: usize,
    /// `log_2(self.size)`.
    pub log_size_of_group: u32,
    /// A generator of the subgroup.
    pub group_gen: Scalar,
}

/// The transform of `points` over `domain` in the first group of the curve.
pub uninterp spec fn g1_fft_value(domain: Radix2EvaluationDomain, points: Seq<G1Point>) -> Seq<G1Point>;

/// The inverse transform of `points` over `domain` in the first group.
pub uninterp spec fn g1_ifft_value(domain: Radix2EvaluationDomain, points: Seq<G1Point>) -> Seq<G1Point>;

/// `ark_poly::EvaluationDomain::new` for
/// `ark_poly::Radix2EvaluationDomain<ark_bls12_381::Fr>`: the domain whose
/// size is the least power of two that is not below `num_coeffs`, unless that
/// size is beyond `2^32`. Its generator is the two-adic root of unity, squared
/// once for each power of two that the size is short of `2^32`.
#[verifier::external_body]
fn radix2_new(num_coeffs: usize) -> (r: Option<Radix2EvaluationDomain>)
    ensures
        r.is_none() <==> num_coeffs > 0x1_0000_0000,
        r.is_some() ==> {
            let d = r.unwrap();
            &&& d.wf()
            &&& d.size >= num_coeffs
            &&& (d.log_size_of_group == 0 || pow2((d.log_size_of_group - 1) as nat) < num_coeffs)
        },
{
    match ark_poly::Radix2EvaluationDomain::<Fr>::new(num_coeffs) {
        Some(d) => Some(
            Radix2EvaluationDomain {
                size: d.size as usize,
                log_size_of_group: d.log_size_of_group,
                group_gen: Scalar { limbs: d.group_gen.into_bigint().0 },
            },
        ),
        None => None,
    }
}

/// `ark_poly::EvaluationDomain::fft_in_place` on scalars: the vector is cut
/// or filled with zeros to the domain's size and replaced by the values of
/// the polynomial with those coefficients at the powers of the generator.
#[verifier::external_body]
fn fr_fft_in_place(domain: &Radix2EvaluationDomain, coeffs: &mut Vec<Scalar>)
    requires
        domain.wf(),
        all_wf(old(coeffs)@),
    ensures
        final(coeffs).len() == domain.size,
        all_wf(final(coeffs)@),
        forall|i: int|
            0 <= i < domain.size ==> (#[trigger] final(coeffs)[i])@ == eval(
                fitted(vals(old(coeffs)@), domain.size as int),
                pow(domain.group_gen@, i as nat),
            ) % modulus(),
{
    let d = ark_poly::Radix2EvaluationDomain::<Fr>::new(domain.size).unwrap();
    let mut v: Vec<Fr> = coeffs.iter().map(|s| Fr::new(BigInt(s.limbs))).collect();
    d.fft_in_place(&mut v);
    *coeffs = v.iter().map(|x| Scalar { limbs: x.into_bigint().0 }).collect();
}

/// `ark_poly::EvaluationDomain::ifft_in_place` on scalars: the vector is cut
/// or filled with zeros to the domain's size and replaced by the coefficients
/// of the polynomial that takes those values at the powers of the generator.
#[verifier::external_body]
fn fr_ifft_in_place(domain: &Radix2EvaluationDomain, evals: &mut Vec<Scalar>)
    requires
        domain.wf(),
        all_wf(old(evals)@),
    ensures
        final(evals).len() == domain.size,
        all_wf(final(evals)@),
        forall|i: int|
            0 <= i < domain.size ==> eval(
                vals(final(evals)@),
                #[trigger] pow(domain.group_gen@, i as nat),
            ) % modulus() == coeff(vals(old(evals)@), i),
{
    let d = ark_poly::Radix2EvaluationDomain::<Fr>::new(domain.size).unwrap();
    let mut v: Vec<Fr> = evals.iter().map(|s| Fr::new(BigInt(s.limbs))).collect();
    d.ifft_in_place(&mut v);
    *evals = v.iter().map(|x| Scalar { limbs: x.into_bigint().0 }).collect();
}

/// `ark_poly::EvaluationDomain::fft_in_place` on points of
/// `ark_bls12_381::G1Projective`, normalised with `into_affine`: as many
/// points as the domain has elements.
#[verifier::external_body]
fn g1_fft_in_place(domain: &Radix2EvaluationDomain, points: &mut Vec<G1Point>)
    requires
        domain.wf(),
    ensures
        final(points)@ == g1_fft_value(*domain, old(points)@),
        final(points).len() == domain.size,
{
    let d = ark_poly::Radix2EvaluationDomain::<Fr>::new(domain.size).unwrap();
    let f = |p: &G1Point| G1Affine { x: Fq::new(BigInt(p.x)), y: Fq::new(BigInt(p.y)), infinity: p.infinity }.into_group();
    let mut v: Vec<G1Projective> = points.iter().map(f).collect();
    d.fft_in_place(&mut v);
    let out = G1Projective::normalize_batch(&v);
    *points = out.iter().map(|r| G1Point { x: r.x.into_bigint().0, y: r.y.into_bigint().0, infinity: r.infinity }).collect();
}

/// `ark_poly::EvaluationDomain::ifft_in_place` on points of
/// `ark_bls12_381::G1Projective`, normalised with `into_affine`: as many
/// points as the domain has elements.
#[verifier::external_body]
fn g1_ifft_in_place(domain: &Radix2EvaluationDomain, points: &mut Vec<G1Point>)
    requires
        domain.wf(),
    ensures
        final(points)@ == g1_ifft_value(*domain, old(points)@),
        final(points).len() == domain.size,
{
    let d = ark_poly::Radix2EvaluationDomain::<Fr>::new(domain.size).unwrap();
    let f = |p: &G1Point| G1Affine { x: Fq::new(BigInt(p.x)), y: Fq::new(BigInt(p.y)), infinity: p.infinity }.into_group();
    let mut v: Vec<G1Projective> = points.iter().map(f).collect();
    d.ifft_in_place(&mut v);
    let out = G1Projective::normalize_batch(&v);
    *points = out.iter().map(|r| G1Point { x: r.x.into_bigint().0, y: r.y.into_bigint().0, infinity: r.infinity }).collect();
}

/// The coefficients that a transform of size `n` reads: no more than `n`.
pub open spec fn fitted(c: Seq<int>, n: int) -> Seq<int> {
    if c.len() > n {
        c.take(n)
    } else {
        c
    }
}

impl Radix2EvaluationDomain {
    /// Whether the size is the power of two that the logarithm gives, within
    /// the field's two-adicity, and the generator is the root of unity of
    /// that order derived from the two-adic root.
    pub open spec fn wf(&self) -> bool {
        &&& self.log_size_of_group <= TWO_ADICITY
        &&& self.size == pow2(self.log_size_of_group as nat)
        &&& self.group_gen.wf()
        &&& self.group_gen@ == pow(
            two_adic_root(),
            pow2((TWO_ADICITY - self.log_size_of_group) as nat),
        ) % modulus()
    }

    /// The domain that is large enough for the evaluations of a polynomial
    /// with `num_coeffs` coefficients, if the field has one.
    pub fn new(num_coeffs: usize) -> (r: Option<Radix2EvaluationDomain>)
        ensures
            r.is_none() <==> num_coeffs > 0x1_0000_0000,
            r.is_some() ==> {
                let d = r.unwrap();
                &&& d.wf()
                &&& d.size >= num_coeffs
                &&& (d.log_size_of_group == 0 || pow2((d.log_size_of_group - 1) as nat) < num_coeffs)
            },
    {
        radix2_new(num_coeffs)
    }

    /// The number of elements of the domain.
    pub fn size(&self) -> (r: usize)
        ensures
            r == self.size,
    {
        self.size
    }

    /// The `i`-th element of the domain: the generator to the power `i`.
    pub fn element(&self, i: usize) -> (r: Scalar)
        requires
            self.wf(),
        ensures
            r.wf(),
            r@ == pow(self.group_gen@, i as nat) % modulus(),
    {
        self.group_gen.pow(i as u64)
    }

    /// Replaces coefficients by the values of their polynomial at the
    /// elements of the domain.
    pub fn fft_in_place(&self, coeffs: &mut Vec<Scalar>)
        requires
            self.wf(),
            all_wf(old(coeffs)@),
        ensures
            final(coeffs).len() == self.size,
            all_wf(final(coeffs)@),
            forall|i: int|
                0 <= i < self.size ==> (#[trigger] final(coeffs)[i])@ == eval(
                    fitted(vals(old(coeffs)@), self.size as int),
                    pow(self.group_gen@, i as nat),
                ) % modulus(),
    {
        fr_fft_in_place(self, coeffs)
    }

    /// Replaces the values of a polynomial at the elements of the domain by
    /// its coefficients.
    pub fn ifft_in_place(&self, evals: &mut Vec<Scalar>)
        requires
            self.wf(),
            all_wf(old(evals)@),
        ensures
            final(evals).len() == self.size,
            all_wf(final(evals)@),
            forall|i: int|
                0 <= i < self.size ==> eval(
                    vals(final(evals)@),
                    #[trigger] pow(self.group_gen@, i as nat),
                ) % modulus() == coeff(vals(old(evals)@), i),
    {
        fr_ifft_in_place(self, evals)
    }

    /// The transform of group elements over the domain.
    pub fn fft_in_place_g1(&self, points: &mut Vec<G1Point>)
        requires
            self.wf(),
        ensures
            final(points)@ == g1_fft_value(*self, old(points)@),
            final(points).len() == self.size,
    {
        g1_fft_in_place(self, points)
    }

    /// The inverse transform of group elements over the domain.
    pub fn ifft_in_place_g1(&self, points: &mut Vec<G1Point>)
        requires
            self.wf(),
        ensures
            final(points)@ == g1_ifft_value(*self, old(points)@),
            final(points).len() == self.size,
    {
        g1_ifft_in_place(self, points)
    }
}

/// A library that computes the transforms over the domains.
pub trait Transform {
    /// Whether the library has the domain.
    spec fn supports(domain: Radix2EvaluationDomain) -> bool;

    /// Replaces coefficients by the values of their polynomial at the
    /// elements of the domain.
    fn fft_in_place(domain: &Radix2EvaluationDomain, coeffs: &mut Vec<Scalar>)
        requires
            domain.wf(),
            Self::supports(*domain),
            all_wf(old(coeffs)@),
        ensures
            final(coeffs).len() == domain.size,
            all_wf(final(coeffs)@),
            forall|i: int|
                0 <= i < domain.size ==> (#[trigger] final(coeffs)[i])@ == eval(
                    fitted(vals(old(coeffs)@), domain.size as int),
                    pow(domain.group_gen@, i as nat),
                ) % modulus(),
    ;

    /// Replaces the values of a polynomial at the elements of the domain by
    /// its coefficients.
    fn ifft_in_place(domain: &Radix2EvaluationDomain, evals: &mut Vec<Scalar>)
        requires
            domain.wf(),
            Self::supports(*domain),
            all_wf(old(evals)@),
        ensures
            final(evals).len() == domain.size,
            all_wf(final(evals)@),
            forall|i: int|
                0 <= i < domain.size ==> eval(
                    vals(final(evals)@),
                    #[trigger] pow(domain.group_gen@, i as nat),
                ) % modulus() == coeff(vals(old(evals)@), i),
    ;
}

/// The transforms of `ark_poly`.
pub struct ArkFft {}

impl Transform for ArkFft {
    open spec fn supports(domain: Radix2EvaluationDomain) -> bool {
        true
    }

    fn fft_in_place(domain: &Radix2EvaluationDomain, coeffs: &mut Vec<Scalar>) {
        domain.fft_in_place(coeffs)
    }

    fn ifft_in_place(domain: &Radix2EvaluationDomain, evals: &mut Vec<Scalar>) {
        domain.ifft_in_place(evals)
    }
}

/// The generator of a domain, raised to the quotient of the sizes, is the
/// generator of a domain whose size divides its own.
pub proof fn lemma_subdomain_generator(sub: Radix2EvaluationDomain, big: Radix2EvaluationDomain)
    requires
        sub.wf(),
        big.wf(),
        sub.log_size_of_group <= big.log_size_of_group,
    ensures
        big.size == sub.size * pow2((big.log_size_of_group - sub.log_size_of_group) as nat),
        pow(big.group_gen@, pow2((big.log_size_of_group - sub.log_size_of_group) as nat)) % modulus()
            == sub.group_gen@,
{
    let a = sub.log_size_of_group as nat;
    let b = big.log_size_of_group as nat;
    let k = pow2((b - a) as nat);
    let t = two_adic_root();
    let eb = pow2((32 - b) as nat);
    let ea = pow2((32 - a) as nat);
    lemma_pow2_adds(a, (b - a) as nat);
    lemma_pow2_adds((32 - b) as nat, (b - a) as nat);
    assert(eb * k == ea);
    lemma_pow_mod_noop(pow(t, eb), k, modulus());
    lemma_pow_multiplies(t, eb, k);
    lemma_small_mod(sub.group_gen@ as nat, modulus() as nat);
}

/// A domain whose size divides that of another has the smaller logarithm.
pub proof fn lemma_divisible_sizes(sub: Radix2EvaluationDomain, big: Radix2EvaluationDomain)
    requires
        sub.wf(),
        big.wf(),
        big.size % sub.size == 0,
    ensures
        sub.log_size_of_group <= big.log_size_of_group,
{
    lemma_pow2_pos(big.log_size_of_group as nat);
    lemma_pow2_pos(sub.log_size_of_group as nat);
    if sub.log_size_of_group > big.log_size_of_group {
        lemma_pow2_strictly_increases(big.log_size_of_group as nat, sub.log_size_of_group as nat);
        lemma_small_mod(big.size as nat, sub.size as nat);
    }
}

/// Whether `c` holds the coefficients of the polynomial that takes the
/// values `evals` at the elements of `domain`.
pub open spec fn interpolates(c: Seq<int>, domain: Radix2EvaluationDomain, evals: Seq<int>) -> bool {
    &&& c.len() == domain.size
    &&& canonical(c)
    &&& forall|i: int|
        0 <= i < domain.size ==> eval(c, #[trigger] pow(domain.group_gen@, i as nat)) % modulus()
            == coeff(evals, i)
}

/// Whether `values` holds the values of the polynomial with coefficients `c`
/// at the elements of `domain`.
pub open spec fn evaluates(values: Seq<int>, domain: Radix2EvaluationDomain, c: Seq<int>) -> bool {
    &&& values.len() == domain.size
    &&& forall|j: int|
        0 <= j < domain.size ==> #[trigger] values[j] == eval(c, pow(domain.group_gen@, j as nat))
            % modulus()
}

/// The index in the larger vector at which the `i`-th value of the smaller
/// one is found again: `i` times the quotient of the sizes.
pub open spec fn stride_index(i: int, big: int, sub: int) -> int {
    i * (big / sub)
}

/// Whether `after` extends the evaluations `before` from `sub_domain` to
/// `big_domain`: both hold the values of one polynomial with as many
/// coefficients as the smaller domain has elements, so that the values at the
/// multiples of the quotient of the sizes are the values given.
pub open spec fn is_scalar_extension(
    before: Seq<Scalar>,
    sub_domain: Radix2EvaluationDomain,
    big_domain: Radix2EvaluationDomain,
    after: Seq<Scalar>,
) -> bool {
    &&& exists|c: Seq<int>|
        interpolates(c, sub_domain, vals(before)) && evaluates(vals(after), big_domain, c)
    &&& forall|i: int|
        0 <= i < sub_domain.size ==> {
            let j = #[trigger] stride_index(i, big_domain.size as int, sub_domain.size as int);
            0 <= j < big_domain.size && after[j] == before[i]
        }
}

/// Extends evaluations over `sub_domain` to evaluations of the same
/// polynomial over `big_domain`, whose size is a multiple, with the
/// transforms of `T`: the polynomial is interpolated, and evaluated on the
/// larger domain. The values at the multiples of the quotient of the sizes
/// are the values given.
pub fn erasure_encode_with<T: Transform>(
    pts: &mut Vec<Scalar>,
    sub_domain: &Radix2EvaluationDomain,
    big_domain: &Radix2EvaluationDomain,
)
    requires
        sub_domain.wf(),
        big_domain.wf(),
        T::supports(*sub_domain),
        T::supports(*big_domain),
        all_wf(old(pts)@),
        sub_domain.size == old(pts).len(),
        big_domain.size % sub_domain.size == 0,
    ensures
        final(pts).len() == big_domain.size,
        all_wf(final(pts)@),
        exists|c: Seq<int>|
            interpolates(c, *sub_domain, vals(old(pts)@)) && evaluates(
                vals(final(pts)@),
                *big_domain,
                c,
            ),
        forall|i: int|
            0 <= i < sub_domain.size ==> {
                let j = #[trigger] stride_index(i, big_domain.size as int, sub_domain.size as int);
                0 <= j < big_domain.size && final(pts)@[j] == old(pts)@[i]
            },
        is_scalar_extension(old(pts)@, *sub_domain, *big_domain, final(pts)@),
{
    let ghost before = pts@;
    let n = sub_domain.size();
    let m = big_domain.size();
    proof {
        lemma_divisible_sizes(*sub_domain, *big_domain);
        lemma_subdomain_generator(*sub_domain, *big_domain);
        lemma_pow2_pos(sub_domain.log_size_of_group as nat);
    }
    let ghost k = pow2((big_domain.log_size_of_group - sub_domain.log_size_of_group) as nat) as int;
    proof {
        lemma_pow2_pos((big_domain.log_size_of_group - sub_domain.log_size_of_group) as nat);
        assert(m / n == k) by (nonlinear_arith)
            requires
                m == n * k,
                n > 0,
        ;
        assert(n <= m) by (nonlinear_arith)
            requires
                m == n * k,
                n > 0,
                k > 0,
        ;
    }
    T::ifft_in_place(sub_domain, pts);
    let ghost c1 = pts@;
    while pts.len() < m
        invariant
            n <= pts.len() <= m,
            c1.len() == n,
            all_wf(c1),
            all_wf(pts@),
            pts@.take(n as int) == c1,
            forall|j: int| n <= j < pts.len() ==> (#[trigger] pts[j])@ == 0,
        decreases m - pts.len(),
    {
        let ghost prev = pts@;
        pts.push(Scalar::zero());
        proof {
            assert(pts@.take(n as int) =~= prev.take(n as int));
        }
    }
    let ghost c2 = pts@;
    T::fft_in_place(big_domain, pts);
    proof {
        let a = vals(c1);
        let b = vals(c2);
        let wn = sub_domain.group_gen@;
        let wm = big_domain.group_gen@;
        lemma_vals_canonical(c1);
        assert(fitted(b, m as int) == b);
        assert(fitted(vals(before), n as int) == vals(before));
        assert forall|j: int| cong(#[trigger] coeff(b, j), coeff(a, j)) by {
            if 0 <= j < n {
                assert(c2[j] == c2.take(n as int)[j]);
            } else if n <= j < m {
                assert(c2[j]@ == 0);
            }
        }
        assert forall|j: int| 0 <= j < m implies #[trigger] vals(pts@)[j] == eval(
            a,
            pow(wm, j as nat),
        ) % modulus() by {
            assert(pts[j]@ == eval(b, pow(wm, j as nat)) % modulus());
            lemma_eval_same_poly(b, a, pow(wm, j as nat));
        }
        assert(interpolates(a, *sub_domain, vals(before)));
        assert(evaluates(vals(pts@), *big_domain, a));
        assert forall|i: int| 0 <= i < sub_domain.size implies {
            let j = #[trigger] stride_index(i, big_domain.size as int, sub_domain.size as int);
            0 <= j < big_domain.size && pts@[j] == before[i]
        } by {
            let idx = i * k;
            assert(big_domain.size as int / sub_domain.size as int == k);
            assert(0 <= idx < m) by (nonlinear_arith)
                requires
                    0 <= i < n,
                    m == n * k,
                    k > 0,
                    idx == i * k,
            ;
            let x = pow(wm, idx as nat);
            let y = pow(wn, i as nat);
            lemma_pow_multiplies(wm, k as nat, i as nat);
            assert(k * i == i * k) by (nonlinear_arith);
            lemma_pow_mod_noop(pow(wm, k as nat), i as nat, modulus());
            lemma_small_mod(wn as nat, modulus() as nat);
            assert(cong(x, y));
            assert(vals(pts@)[idx] == eval(a, pow(wm, idx as nat)) % modulus());
            assert(pts[idx]@ == eval(a, x) % modulus());
            lemma_eval_cong(a, a, x, y);
            assert(eval(a, y) % modulus() == coeff(vals(before), i));
            assert(before[i].wf());
            Scalar::lemma_same_value(pts[idx], before[i]);
        }
    }
}

/// Extends evaluations over `sub_domain` to evaluations of the same
/// polynomial over `big_domain`, with the transforms of `ark_poly`.
pub fn erasure_encode(
    pts: &mut Vec<Scalar>,
    sub_domain: &Radix2EvaluationDomain,
    big_domain: &Radix2EvaluationDomain,
)
    requires
        sub_domain.wf(),
        big_domain.wf(),
        all_wf(old(pts)@),
        sub_domain.size == old(pts).len(),
        big_domain.size % sub_domain.size == 0,
    ensures
        final(pts).len() == big_domain.size,
        all_wf(final(pts)@),
        forall|i: int|
            0 <= i < sub_domain.size ==> {
                let j = #[trigger] stride_index(i, big_domain.size as int, sub_domain.size as int);
                0 <= j < big_domain.size && final(pts)@[j] == old(pts)@[i]
            },
        is_scalar_extension(old(pts)@, *sub_domain, *big_domain, final(pts)@),
{
    erasure_encode_with::<ArkFft>(pts, sub_domain, big_domain)
}

/// Extends a vector of group elements from `sub_domain` to `big_domain` in
/// the same way: inverse transform, filling with the neutral element, and
/// forward transform.
pub fn erasure_encode_g1(
    pts: &mut Vec<G1Point>,
    sub_domain: &Radix2EvaluationDomain,
    big_domain: &Radix2EvaluationDomain,
)
    requires
        sub_domain.wf(),
        big_domain.wf(),
        sub_domain.size == old(pts).len(),
        big_domain.size % sub_domain.size == 0,
    ensures
        final(pts).len() == big_domain.size,
        final(pts)@ == extended_g1(old(pts)@, *sub_domain, *big_domain),
{
    let m = big_domain.size();
    proof {
        lemma_divisible_sizes(*sub_domain, *big_domain);
        lemma_subdomain_generator(*sub_domain, *big_domain);
        lemma_pow2_pos(sub_domain.log_size_of_group as nat);
        lemma_pow2_pos((big_domain.log_size_of_group - sub_domain.log_size_of_group) as nat);
        let k = pow2((big_domain.log_size_of_group - sub_domain.log_size_of_group) as nat) as int;
        assert(sub_domain.size <= m) by (nonlinear_arith)
            requires
                m == sub_domain.size * k,
                sub_domain.size > 0,
                k > 0,
        ;
    }
    sub_domain.ifft_in_place_g1(pts);
    let ghost c1 = pts@;
    while pts.len() < m
        invariant
            c1.len() <= pts.len() <= m,
            pts@ == c1 + Seq::new((pts.len() - c1.len()) as nat, |j: int| G1Point::spec_identity()),
        decreases m - pts.len(),
    {
        let ghost prev = pts@;
        pts.push(G1Point::identity());
        proof {
            assert(pts@ =~= c1 + Seq::new(
                (pts.len() - c1.len()) as nat,
                |j: int| G1Point::spec_identity(),
            ));
        }
    }
    big_domain.fft_in_place_g1(pts);
}

/// The extension of group elements from one domain to a larger one: the
/// inverse transform over the smaller domain, filled with the neutral
/// element to the larger size, and transformed over the larger domain.
pub open spec fn extended_g1(
    points: Seq<G1Point>,
    sub_domain: Radix2EvaluationDomain,
    big_domain: Radix2EvaluationDomain,
) -> Seq<G1Point> {
    let c = g1_ifft_value(sub_domain, points);
    g1_fft_value(
        big_domain,
        c + Seq::new((big_domain.size - c.len()) as nat, |j: int| G1Point::spec_identity()),
    )
}

/// What a domain can transform: scalars, and elements of the first group.
pub trait DomainCoeff: Sized {
    /// Whether the value is a valid coefficient.
    spec fn valid(&self) -> bool;

    /// Whether `after` is the extension of `before` from `sub_domain` to
    /// `big_domain`.
    spec fn is_extension(
        before: Seq<Self>,
        sub_domain: Radix2EvaluationDomain,
        big_domain: Radix2EvaluationDomain,
        after: Seq<Self>,
    ) -> bool;

    /// A coefficient drawn from `rng`.
    fn rand(rng: &mut StdRng) -> (r: Self)
        ensures
            r.valid(),
    ;

    /// Extends `pts` from `sub_domain` to `big_domain`: inverse transform,
    /// filling with zeros, and forward transform.
    fn extend(pts: &mut Vec<Self>, sub_domain: &Radix2EvaluationDomain, big_domain: &Radix2EvaluationDomain)
        requires
            sub_domain.wf(),
            big_domain.wf(),
            forall|i: int| 0 <= i < old(pts).len() ==> (#[trigger] old(pts)[i]).valid(),
            sub_domain.size == old(pts).len(),
            big_domain.size % sub_domain.size == 0,
        ensures
            final(pts).len() == big_domain.size,
            forall|i: int| 0 <= i < final(pts).len() ==> (#[trigger] final(pts)[i]).valid(),
            Self::is_extension(old(pts)@, *sub_domain, *big_domain, final(pts)@),
    ;
}

impl DomainCoeff for Scalar {
    open spec fn valid(&self) -> bool {
        self.wf()
    }

    open spec fn is_extension(
        before: Seq<Scalar>,
        sub_domain: Radix2EvaluationDomain,
        big_domain: Radix2EvaluationDomain,
        after: Seq<Scalar>,
    ) -> bool {
        is_scalar_extension(before, sub_domain, big_domain, after)
    }

    fn rand(rng: &mut StdRng) -> (r: Scalar) {
        Scalar::rand(rng)
    }

    fn extend(pts: &mut Vec<Scalar>, sub_domain: &Radix2EvaluationDomain, big_domain: &Radix2EvaluationDomain) {
        erasure_encode(pts, sub_domain, big_domain)
    }
}

impl DomainCoeff for G1Point {
    open spec fn valid(&self) -> bool {
        true
    }

    open spec fn is_extension(
        before: Seq<G1Point>,
        sub_domain: Radix2EvaluationDomain,
        big_domain: Radix2EvaluationDomain,
        after: Seq<G1Point>,
    ) -> bool {
        after == extended_g1(before, sub_domain, big_domain)
    }

    fn rand(rng: &mut StdRng) -> (r: G1Point) {
        G1Point::rand(rng)
    }

    fn extend(pts: &mut Vec<G1Point>, sub_domain: &Radix2EvaluationDomain, big_domain: &Radix2EvaluationDomain) {
        erasure_encode_g1(pts, sub_domain, big_domain)
    }
}

/// A domain that holds `size` elements, while the domain of half its size
/// does not, has `size` elements where `size` is a power of two.
pub proof fn lemma_least_domain_size(d: Radix2EvaluationDomain, size: int)
    requires
        d.wf(),
        d.size >= size,
        d.log_size_of_group == 0 || pow2((d.log_size_of_group - 1) as nat) < size,
        crate::is_power_of_two(size),
    ensures
        d.size == size,
{
    let k = choose|k: nat| size == pow2(k);
    let l = d.log_size_of_group as nat;
    if l > k {
        if k < l - 1 {
            lemma_pow2_strictly_increases(k, (l - 1) as nat);
        }
    }
    if l < k {
        lemma_pow2_strictly_increases(l, k);
    }
}

/// The domain of the least size that is a power of two and not below `size`,
/// which is `size` itself where that is a power of two.
pub fn make_domain(size: usize) -> (d: Radix2EvaluationDomain)
    requires
        size <= 0x1_0000_0000,
    ensures
        d.wf(),
        d.size >= size,
        d.log_size_of_group == 0 || pow2((d.log_size_of_group - 1) as nat) < size,
        crate::is_power_of_two(size as int) ==> d.size == size,
{
    match Radix2EvaluationDomain::new(size) {
        Some(d) => {
            proof {
                if crate::is_power_of_two(size as int) {
                    lemma_least_domain_size(d, size as int);
                }
            }
            d
        },
        None => unreached(),
    }
}

} // verus!
