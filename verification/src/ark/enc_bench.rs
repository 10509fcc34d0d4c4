//! Erasure encoding of scalars and of group elements over radix-2 domains.
use crate::ark::curve::G1Point;
use crate::ark::domain::{make_domain, DomainCoeff, Radix2EvaluationDomain};
use crate::ark::field::Scalar;
use crate::ErasureEncodeBench;
use rand::rngs::StdRng;
use std::marker::PhantomData;
use vstd::prelude::*;

verus! {

/// The encoder of coefficients of the type `Dc` over the domains of the
/// scalar field.
pub struct ArkEncFieldBench<Dc> {
    _coeff: PhantomData<Dc>,
}

/// The encoder of scalars.
pub type Bls12_381ScalarEncBench = ArkEncFieldBench<Scalar>;

/// The encoder of elements of the first group.
pub type Bls12_381G1EncBench = ArkEncFieldBench<G1Point>;

impl<Dc: DomainCoeff> ErasureEncodeBench for ArkEncFieldBench<Dc> {
    type Domain = Radix2EvaluationDomain;

    type Point = Dc;

    open spec fn max_domain_size() -> nat {
        0x1_0000_0000
    }

    open spec fn domain_size(d: &Radix2EvaluationDomain) -> nat {
        d.size as nat
    }

    open spec fn domain_wf(d: &Radix2EvaluationDomain) -> bool {
        d.wf()
    }

    open spec fn points_wf(pts: Seq<Dc>) -> bool {
        forall|i: int| 0 <= i < pts.len() ==> (#[trigger] pts[i]).valid()
    }

    open spec fn is_encoding(
        before: Seq<Dc>,
        sub_domain: &Radix2EvaluationDomain,
        big_domain: &Radix2EvaluationDomain,
        after: Seq<Dc>,
    ) -> bool {
        Dc::is_extension(before, *sub_domain, *big_domain, after)
    }

    // Size should be a power of 2 here
    fn make_domain(size: usize) -> (d: Radix2EvaluationDomain) {
        make_domain(size)
    }

    fn rand_points(size: usize, rng: &mut StdRng) -> (pts: Vec<Dc>) {
        let mut pts: Vec<Dc> = Vec::new();
        let mut i: usize = 0;
        while i < size
            invariant
                0 <= i <= size,
                pts.len() == i,
                forall|t: int| 0 <= t < pts.len() ==> (#[trigger] pts[t]).valid(),
            decreases size - i,
        {
            let p = Dc::rand(rng);
            pts.push(p);
            i = i + 1;
        }
        pts
    }

    // `pts` must be the same size as `sub_domain`. The `i`-th point of the
    // input will be the same as the
    // `i * big_domain.size()/sub_domain.size()`-th point of the output.
    fn erasure_encode(
        pts: &mut Vec<Dc>,
        sub_domain: &Radix2EvaluationDomain,
        big_domain: &Radix2EvaluationDomain,
    ) {
        Dc::extend(pts, sub_domain, big_domain)
    }
}

} // verus!
