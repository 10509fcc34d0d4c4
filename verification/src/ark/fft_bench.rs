//! Erasure encoding of scalars by FFT.
use crate::ark::domain::{
    erasure_encode, is_scalar_extension, make_domain, Radix2EvaluationDomain,
};
use crate::ark::field::Scalar;
use crate::ark::poly::all_wf;
use crate::ErasureEncodeBench;
use rand::rngs::StdRng;
use vstd::prelude::*;

verus! {

/// The encoder of scalars over the domains of the scalar field.
pub struct FftFieldBench {}

/// The encoder over the scalar field of BLS12-381.
pub type Bls12_381ScalarFftBench = FftFieldBench;

impl ErasureEncodeBench for FftFieldBench {
    type Domain = Radix2EvaluationDomain;

    type Point = Scalar;

    open spec fn max_domain_size() -> nat {
        0x1_0000_0000
    }

    open spec fn domain_size(d: &Radix2EvaluationDomain) -> nat {
        d.size as nat
    }

    open spec fn domain_wf(d: &Radix2EvaluationDomain) -> bool {
        d.wf()
    }

    open spec fn points_wf(pts: Seq<Scalar>) -> bool {
        all_wf(pts)
    }

    open spec fn is_encoding(
        before: Seq<Scalar>,
        sub_domain: &Radix2EvaluationDomain,
        big_domain: &Radix2EvaluationDomain,
        after: Seq<Scalar>,
    ) -> bool {
        is_scalar_extension(before, *sub_domain, *big_domain, after)
    }

    // Size should be a power of 2 here
    fn make_domain(size: usize) -> (d: Radix2EvaluationDomain) {
        make_domain(size)
    }

    fn rand_points(size: usize, rng: &mut StdRng) -> (pts: Vec<Scalar>) {
        let mut pts: Vec<Scalar> = Vec::new();
        let mut i: usize = 0;
        while i < size
            invariant
                0 <= i <= size,
                pts.len() == i,
                all_wf(pts@),
            decreases size - i,
        {
            let p = Scalar::rand(rng);
            pts.push(p);
            i = i + 1;
        }
        pts
    }

    // `pts` must be the same size as `sub_domain`. The `i`-th point of the
    // input will be the same as the
    // `i * big_domain.size()/sub_domain.size()`-th point of the output.
    fn erasure_encode(
        pts: &mut Vec<Scalar>,
        sub_domain: &Radix2EvaluationDomain,
        big_domain: &Radix2EvaluationDomain,
    ) {
        erasure_encode(pts, sub_domain, big_domain)
    }
}

} // verus!
