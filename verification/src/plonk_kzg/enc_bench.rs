//! Erasure encoding over the evaluation domains of `dusk_plonk`, which are
//! those of `ark_poly` up to one size less.
use crate::ark::domain::{
    lemma_least_domain_size,
    erasure_encode_with, fitted, is_scalar_extension, stride_index, Radix2EvaluationDomain,
    Transform,
};
use crate::ark::field::{modulus, Scalar};
use crate::ark::poly::{all_wf, coeff, eval, vals};
use crate::{is_power_of_two, ErasureEncodeBench};
use dusk_plonk::bls12_381::BlsScalar;
use dusk_plonk::fft::EvaluationDomain;
use rand::rngs::StdRng;
use vstd::arithmetic::power::pow;
use vstd::arithmetic::power2::pow2;
use vstd::prelude::*;

verus! {

/// Whether the PLONK library has the domain: its size is below `2^32`.
pub open spec fn in_reach(domain: Radix2EvaluationDomain) -> bool {
    domain.log_size_of_group < 32
}

/// `dusk_plonk::fft::EvaluationDomain::new`: the domain whose size is the
/// least power of two that is not below `num_coeffs`, unless that size is
/// `2^32` or more. Its generator is the two-adic root of unity, squared once
/// for each power of two that the size is short of `2^32`. The number of
/// coefficients is kept to where the next power of two exists.
#[verifier::external_body]
fn plonk_domain_new(num_coeffs: usize) -> (r: Option<Radix2EvaluationDomain>)
    requires
        num_coeffs <= 0x1_0000_0000,
    ensures
        r.is_none() <==> num_coeffs > 0x8000_0000,
        r.is_some() ==> {
            let d = r.unwrap();
            &&& d.wf()
            &&& in_reach(d)
            &&& d.size >= num_coeffs
            &&& (d.log_size_of_group == 0 || pow2((d.log_size_of_group - 1) as nat) < num_coeffs)
        },
{
    match EvaluationDomain::new(num_coeffs) {
        Ok(d) => Some(
            Radix2EvaluationDomain {
                size: d.size(),
                log_size_of_group: d.log_size_of_group,
                group_gen: Scalar { limbs: d.group_gen.reduce().0 },
            },
        ),
        Err(_) => None,
    }
}

/// `dusk_plonk::fft::EvaluationDomain::fft`: the coefficients are cut or
/// filled with zeros to the domain's size, and the values of the polynomial
/// with those coefficients at the powers of the generator are returned.
#[verifier::external_body]
fn plonk_fft(domain: &Radix2EvaluationDomain, coeffs: &Vec<Scalar>) -> (r: Vec<Scalar>)
    requires
        domain.wf(),
        in_reach(*domain),
        all_wf(coeffs@),
    ensures
        r.len() == domain.size,
        all_wf(r@),
        forall|i: int|
            0 <= i < domain.size ==> (#[trigger] r[i])@ == eval(
                fitted(vals(coeffs@), domain.size as int),
                pow(domain.group_gen@, i as nat),
            ) % modulus(),
{
    let d = EvaluationDomain::new(domain.size).unwrap();
    let v: Vec<BlsScalar> = coeffs.iter().map(|s| BlsScalar::from_raw(s.limbs)).collect();
    d.fft(&v).iter().map(|x| Scalar { limbs: x.reduce().0 }).collect()
}

/// `dusk_plonk::fft::EvaluationDomain::ifft_in_place`: the vector is cut or
/// filled with zeros to the domain's size and replaced by the coefficients of
/// the polynomial that takes those values at the powers of the generator.
#[verifier::external_body]
fn plonk_ifft_in_place(domain: &Radix2EvaluationDomain, evals: &mut Vec<Scalar>)
    requires
        domain.wf(),
        in_reach(*domain),
        all_wf(old(evals)@),
    ensures
        final(evals).len() == domain.size,
        all_wf(final(evals)@),
        forall|i: int|
            0 <= i < domain.size ==> eval(
                vals(final(evals)@),
                #[trigger] pow(domain.group_gen@, i as nat),
            ) % modulus() == coeff(vals(old(evals)@), i),
{
    let d = EvaluationDomain::new(domain.size).unwrap();
    let mut v: Vec<BlsScalar> = evals.iter().map(|s| BlsScalar::from_raw(s.limbs)).collect();
    d.ifft_in_place(&mut v);
    *evals = v.iter().map(|x| Scalar { limbs: x.reduce().0 }).collect();
}

/// The domain of the PLONK library that is large enough for `num_coeffs`
/// coefficients, if there is one.
pub fn new_domain(num_coeffs: usize) -> (r: Option<Radix2EvaluationDomain>)
    requires
        num_coeffs <= 0x1_0000_0000,
    ensures
        r.is_none() <==> num_coeffs > 0x8000_0000,
        r.is_some() ==> {
            let d = r.unwrap();
            &&& d.wf()
            &&& in_reach(d)
            &&& d.size >= num_coeffs
            &&& (d.log_size_of_group == 0 || pow2((d.log_size_of_group - 1) as nat) < num_coeffs)
        },
{
    plonk_domain_new(num_coeffs)
}

/// The domain of the least size that is a power of two and not below `size`,
/// which is `size` itself where that is a power of two.
pub fn make_domain(size: usize) -> (d: Radix2EvaluationDomain)
    requires
        size <= 0x8000_0000,
    ensures
        d.wf(),
        in_reach(d),
        d.size >= size,
        d.log_size_of_group == 0 || pow2((d.log_size_of_group - 1) as nat) < size,
        is_power_of_two(size as int) ==> d.size == size,
{
    match new_domain(size) {
        Some(d) => {
            proof {
                if is_power_of_two(size as int) {
                    lemma_least_domain_size(d, size as int);
                }
            }
            d
        },
        None => unreached(),
    }
}

/// The transforms of the PLONK library.
pub struct PlonkFft {}

impl Transform for PlonkFft {
    open spec fn supports(domain: Radix2EvaluationDomain) -> bool {
        in_reach(domain)
    }

    fn fft_in_place(domain: &Radix2EvaluationDomain, coeffs: &mut Vec<Scalar>) {
        let out = plonk_fft(domain, coeffs);
        *coeffs = out;
    }

    fn ifft_in_place(domain: &Radix2EvaluationDomain, evals: &mut Vec<Scalar>) {
        plonk_ifft_in_place(domain, evals)
    }
}

/// Extends evaluations over `sub_domain` to evaluations of the same
/// polynomial over `big_domain`, with the transforms of the PLONK library.
pub fn erasure_encode(
    pts: &mut Vec<Scalar>,
    sub_domain: &Radix2EvaluationDomain,
    big_domain: &Radix2EvaluationDomain,
)
    requires
        sub_domain.wf(),
        big_domain.wf(),
        in_reach(*sub_domain),
        in_reach(*big_domain),
        all_wf(old(pts)@),
        sub_domain.size == old(pts).len(),
        big_domain.size % sub_domain.size == 0,
    ensures
        final(pts).len() == big_domain.size,
        all_wf(final(pts)@),
        forall|i: int|
            0 <= i < sub_domain.size ==> {
                let j = #[trigger] stride_index(i, big_domain.size as int, sub_domain.size as int);
                0 <= j < big_domain.size && final(pts)@[j] == old(pts)@[i]
            },
        is_scalar_extension(old(pts)@, *sub_domain, *big_domain, final(pts)@),
{
    erasure_encode_with::<PlonkFft>(pts, sub_domain, big_domain)
}

/// The encoder over the scalar field with the transforms of `dusk_plonk`.
pub struct PlonkEncBench {}

impl ErasureEncodeBench for PlonkEncBench {
    type Domain = Radix2EvaluationDomain;

    type Point = Scalar;

    open spec fn max_domain_size() -> nat {
        0x8000_0000
    }

    open spec fn domain_size(d: &Radix2EvaluationDomain) -> nat {
        d.size as nat
    }

    open spec fn domain_wf(d: &Radix2EvaluationDomain) -> bool {
        d.wf() && in_reach(*d)
    }

    open spec fn points_wf(pts: Seq<Scalar>) -> bool {
        all_wf(pts)
    }

    open spec fn is_encoding(
        before: Seq<Scalar>,
        sub_domain: &Radix2EvaluationDomain,
        big_domain: &Radix2EvaluationDomain,
        after: Seq<Scalar>,
    ) -> bool {
        is_scalar_extension(before, *sub_domain, *big_domain, after)
    }

    fn make_domain(size: usize) -> (d: Radix2EvaluationDomain) {
        make_domain(size)
    }

    fn rand_points(size: usize, rng: &mut StdRng) -> (pts: Vec<Scalar>) {
        let mut pts: Vec<Scalar> = Vec::new();
        let mut i: usize = 0;
        while i < size
            invariant
                0 <= i <= size,
                pts.len() == i,
                all_wf(pts@),
            decreases size - i,
        {
            let p = Scalar::rand(rng);
            pts.push(p);
            i = i + 1;
        }
        pts
    }

    fn erasure_encode(
        pts: &mut Vec<Scalar>,
        sub_domain: &Radix2EvaluationDomain,
        big_domain: &Radix2EvaluationDomain,
    ) {
        erasure_encode(pts, sub_domain, big_domain)
    }
}

} // verus!
