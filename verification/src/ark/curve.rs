//! The groups of BLS12-381 and its pairing.
//!
//! Points are held in affine coordinates, each coordinate as little-endian
//! 64-bit limbs of its canonical representative. The group law, scalar
//! multiplication, multi-scalar multiplication and the pairing are computed
//! by `ark_bls12_381`; what they return is named here by uninterpreted
//! functions of the arguments, and the scheme's contracts are stated over
//! those names.
use crate::ark::field::Scalar;
use crate::ark::poly::{all_wf, vals};
use ark_bls12_381::{Bls12_381, Fq, Fq2, Fr, G1Affine, G1Projective, G2Affine, G2Projective};
use ark_ec::pairing::Pairing;
use ark_ec::scalar_mul::fixed_base::FixedBase;
use ark_ec::{AffineRepr, CurveGroup, Group, VariableBaseMSM};
use ark_ff::{BigInt, Field, PrimeField, UniformRand, Zero};
use ark_serialize::{CanonicalSerialize, Compress};
use rand::rngs::StdRng;
use vstd::prelude::*;

verus! {

/// A point of the first source group.
#[derive(Clone, Copy, Debug, PartialEq, Eq)]
pub struct G1Point {
    pub(crate) x: [u64; 6],
    pub(crate) y: [u64; 6],
    pub(crate) infinity: bool,
}

/// A point of the second source group, with coordinates in the quadratic
/// extension of the base field.
#[derive(Clone, Copy, Debug, PartialEq, Eq)]
pub struct G2Point {
    /// The two limbs vectors of `x`, then those of `y`.
    pub(crate) c: [[u64; 6]; 4],
    pub(crate) infinity: bool,
}

/// The sum of two points of the first group.
pub uninterp spec fn g1_sum(a: G1Point, b: G1Point) -> G1Point;

/// The difference of two points of the first group.
pub uninterp spec fn g1_difference(a: G1Point, b: G1Point) -> G1Point;

/// The inverse of a point of the first group.
pub uninterp spec fn g1_negation(a: G1Point) -> G1Point;

/// The double of a point of the first group.
pub uninterp spec fn g1_doubling(a: G1Point) -> G1Point;

/// The point of the first group multiplied by the scalar with the given value.
pub uninterp spec fn g1_product(p: G1Point, s: int) -> G1Point;

/// The multiples of the point of the first group by the scalars with the
/// given values, as multiplication with a table of the point's multiples
/// gives them.
pub uninterp spec fn g1_fixed_base_value(g: G1Point, scalars: Seq<int>) -> Seq<G1Point>;

/// The sum of the bases, each multiplied by the scalar at the same index, over
/// the indices that both sequences have.
pub uninterp spec fn g1_msm_value(bases: Seq<G1Point>, scalars: Seq<int>) -> G1Point;

/// The difference of two points of the second group.
pub uninterp spec fn g2_difference(a: G2Point, b: G2Point) -> G2Point;

/// The point of the second group multiplied by the scalar with the given value.
pub uninterp spec fn g2_product(p: G2Point, s: int) -> G2Point;

/// The multi-scalar multiplication in the second group.
pub uninterp spec fn g2_msm_value(bases: Seq<G2Point>, scalars: Seq<int>) -> G2Point;

/// The pairing of two points as the limbs of the target-field element, where
/// the final exponentiation is defined.
pub uninterp spec fn pairing_value(p: G1Point, q: G2Point) -> Option<Seq<u64>>;

/// Whether the product of the pairings of the points at equal indices is the
/// identity of the target group, where the final exponentiation is defined.
pub uninterp spec fn pairing_product_is_identity(ps: Seq<G1Point>, qs: Seq<G2Point>) -> Option<bool>;

/// `+` on `ark_bls12_381::G1Projective`, normalised with `into_affine`.
#[verifier::external_body]
fn g1_add(a: &G1Point, b: &G1Point) -> (r: G1Point)
    ensures
        r == g1_sum(*a, *b),
{
    let pa = G1Affine { x: Fq::new(BigInt(a.x)), y: Fq::new(BigInt(a.y)), infinity: a.infinity };
    let pb = G1Affine { x: Fq::new(BigInt(b.x)), y: Fq::new(BigInt(b.y)), infinity: b.infinity };
    let r = (G1Projective::from(pa) + G1Projective::from(pb)).into_affine();
    G1Point { x: r.x.into_bigint().0, y: r.y.into_bigint().0, infinity: r.infinity }
}

/// `-` on `ark_bls12_381::G1Projective`, normalised with `into_affine`.
#[verifier::external_body]
fn g1_sub(a: &G1Point, b: &G1Point) -> (r: G1Point)
    ensures
        r == g1_difference(*a, *b),
{
    let pa = G1Affine { x: Fq::new(BigInt(a.x)), y: Fq::new(BigInt(a.y)), infinity: a.infinity };
    let pb = G1Affine { x: Fq::new(BigInt(b.x)), y: Fq::new(BigInt(b.y)), infinity: b.infinity };
    let r = (G1Projective::from(pa) - G1Projective::from(pb)).into_affine();
    G1Point { x: r.x.into_bigint().0, y: r.y.into_bigint().0, infinity: r.infinity }
}

/// Unary `-` on `ark_bls12_381::G1Projective`, normalised with `into_affine`.
#[verifier::external_body]
fn g1_neg(a: &G1Point) -> (r: G1Point)
    ensures
        r == g1_negation(*a),
{
    let pa = G1Affine { x: Fq::new(BigInt(a.x)), y: Fq::new(BigInt(a.y)), infinity: a.infinity };
    let r = (-G1Projective::from(pa)).into_affine();
    G1Point { x: r.x.into_bigint().0, y: r.y.into_bigint().0, infinity: r.infinity }
}

/// `ark_ec::Group::double_in_place` on `ark_bls12_381::G1Projective`,
/// normalised with `into_affine`.
#[verifier::external_body]
fn g1_double(a: &G1Point) -> (r: G1Point)
    ensures
        r == g1_doubling(*a),
{
    let pa = G1Affine { x: Fq::new(BigInt(a.x)), y: Fq::new(BigInt(a.y)), infinity: a.infinity };
    let mut p = G1Projective::from(pa);
    p.double_in_place();
    let r = p.into_affine();
    G1Point { x: r.x.into_bigint().0, y: r.y.into_bigint().0, infinity: r.infinity }
}

/// `*` of an `ark_bls12_381::G1Affine` point by an `ark_bls12_381::Fr`
/// scalar, normalised with `into_affine`.
#[verifier::external_body]
fn g1_mul(p: &G1Point, s: &Scalar) -> (r: G1Point)
    requires
        s.wf(),
    ensures
        r == g1_product(*p, s@),
{
    let pa = G1Affine { x: Fq::new(BigInt(p.x)), y: Fq::new(BigInt(p.y)), infinity: p.infinity };
    let r = (pa * ark_bls12_381::Fr::new(BigInt(s.limbs))).into_affine();
    G1Point { x: r.x.into_bigint().0, y: r.y.into_bigint().0, infinity: r.infinity }
}

/// `ark_ec::VariableBaseMSM::msm_bigint` on `ark_bls12_381::G1Projective`,
/// normalised with `into_affine`. It pairs bases and scalars up to the shorter
/// of the two lengths.
#[verifier::external_body]
fn g1_msm_bigint(bases: &[G1Point], scalars: &[Scalar]) -> (r: G1Point)
    requires
        all_wf(scalars@),
    ensures
        r == g1_msm_value(bases@, vals(scalars@)),
{
    let f = |p: &G1Point| G1Affine { x: Fq::new(BigInt(p.x)), y: Fq::new(BigInt(p.y)), infinity: p.infinity };
    let b: Vec<G1Affine> = bases.iter().map(f).collect();
    let s: Vec<BigInt<4>> = scalars.iter().map(|s| BigInt(s.limbs)).collect();
    let r = G1Projective::msm_bigint(&b, &s).into_affine();
    G1Point { x: r.x.into_bigint().0, y: r.y.into_bigint().0, infinity: r.infinity }
}

/// `ark_ec::scalar_mul::fixed_base::FixedBase::msm` with the window table of
/// `g` that `get_window_table` makes for the window size that
/// `get_mul_window_size` gives for the number of scalars, normalised with
/// `normalize_batch`: one point for each scalar.
#[verifier::external_body]
fn g1_fixed_base_msm(g: &G1Point, scalars: &Vec<Scalar>) -> (r: Vec<G1Point>)
    requires
        all_wf(scalars@),
    ensures
        r.len() == scalars.len(),
        r@ == g1_fixed_base_value(*g, vals(scalars@)),
{
    let base = G1Affine { x: Fq::new(BigInt(g.x)), y: Fq::new(BigInt(g.y)), infinity: g.infinity };
    let v: Vec<Fr> = scalars.iter().map(|s| Fr::new(BigInt(s.limbs))).collect();
    let (bits, window) = (Fr::MODULUS_BIT_SIZE as usize, FixedBase::get_mul_window_size(v.len()));
    let table = FixedBase::get_window_table(bits, window, base.into_group());
    let out = G1Projective::normalize_batch(&FixedBase::msm::<G1Projective>(bits, window, &table, &v));
    out.iter().map(|r| G1Point { x: r.x.into_bigint().0, y: r.y.into_bigint().0, infinity: r.infinity }).collect()
}

/// `ark_ff::UniformRand::rand` for `ark_bls12_381::G1Projective`, normalised
/// with `into_affine`: some point of the group.
#[verifier::external_body]
fn g1_rand(rng: &mut StdRng) -> (r: G1Point) {
    let r = G1Projective::rand(rng).into_affine();
    G1Point { x: r.x.into_bigint().0, y: r.y.into_bigint().0, infinity: r.infinity }
}

/// `ark_serialize::CanonicalSerialize::serialized_size` of an
/// `ark_bls12_381::G1Affine` point in compressed form: one base-field element,
/// whose spare bits hold the flags.
#[verifier::external_body]
fn g1_compressed_size(p: &G1Point) -> (r: usize)
    ensures
        r == 48,
{
    let pa = G1Affine { x: Fq::new(BigInt(p.x)), y: Fq::new(BigInt(p.y)), infinity: p.infinity };
    pa.serialized_size(Compress::Yes)
}

/// `-` on `ark_bls12_381::G2Projective`, normalised with `into_affine`.
#[verifier::external_body]
fn g2_sub(a: &G2Point, b: &G2Point) -> (r: G2Point)
    ensures
        r == g2_difference(*a, *b),
{
    let f = |p: &G2Point| {
        let [a, b, c, d] = p.c.map(|l| Fq::new(BigInt(l)));
        G2Affine { x: Fq2::new(a, b), y: Fq2::new(c, d), infinity: p.infinity }
    };
    let r = (f(a).into_group() - f(b)).into_affine();
    G2Point { c: [r.x.c0, r.x.c1, r.y.c0, r.y.c1].map(|c| c.into_bigint().0), infinity: r.infinity }
}

/// `*` of an `ark_bls12_381::G2Affine` point by an `ark_bls12_381::Fr`
/// scalar, normalised with `into_affine`.
#[verifier::external_body]
fn g2_mul(p: &G2Point, s: &Scalar) -> (r: G2Point)
    requires
        s.wf(),
    ensures
        r == g2_product(*p, s@),
{
    let f = |p: &G2Point| {
        let [a, b, c, d] = p.c.map(|l| Fq::new(BigInt(l)));
        G2Affine { x: Fq2::new(a, b), y: Fq2::new(c, d), infinity: p.infinity }
    };
    let r = (f(p) * ark_bls12_381::Fr::new(BigInt(s.limbs))).into_affine();
    G2Point { c: [r.x.c0, r.x.c1, r.y.c0, r.y.c1].map(|c| c.into_bigint().0), infinity: r.infinity }
}

/// `ark_ec::VariableBaseMSM::msm_bigint` on `ark_bls12_381::G2Projective`,
/// normalised with `into_affine`.
#[verifier::external_body]
fn g2_msm_bigint(bases: &[G2Point], scalars: &[Scalar]) -> (r: G2Point)
    requires
        all_wf(scalars@),
    ensures
        r == g2_msm_value(bases@, vals(scalars@)),
{
    let f = |p: &G2Point| {
        let [a, b, c, d] = p.c.map(|l| Fq::new(BigInt(l)));
        G2Affine { x: Fq2::new(a, b), y: Fq2::new(c, d), infinity: p.infinity }
    };
    let s: Vec<_> = scalars.iter().map(|s| BigInt(s.limbs)).collect();
    let r = G2Projective::msm_bigint(&bases.iter().map(f).collect::<Vec<_>>(), &s).into_affine();
    G2Point { c: [r.x.c0, r.x.c1, r.y.c0, r.y.c1].map(|c| c.into_bigint().0), infinity: r.infinity }
}

/// `ark_ff::UniformRand::rand` for `ark_bls12_381::G2Projective`, normalised
/// with `into_affine`: some point of the group.
#[verifier::external_body]
fn g2_rand(rng: &mut StdRng) -> (r: G2Point) {
    let r = G2Projective::rand(rng).into_affine();
    G2Point { c: [r.x.c0, r.x.c1, r.y.c0, r.y.c1].map(|c| c.into_bigint().0), infinity: r.infinity }
}

/// `ark_ec::pairing::Pairing::multi_miller_loop` on one pair of points and
/// then `final_exponentiation`, for `ark_bls12_381::Bls12_381`: the limbs of
/// the twelve base-field coordinates of the result, or nothing where the
/// final exponentiation gives nothing.
#[verifier::external_body]
fn pairing_limbs(p: &G1Point, q: &G2Point) -> (r: Option<Vec<u64>>)
    ensures
        r.is_some() == pairing_value(*p, *q).is_some(),
        r.is_some() ==> r.unwrap()@ == pairing_value(*p, *q).unwrap(),
{
    let pa = G1Affine { x: Fq::new(BigInt(p.x)), y: Fq::new(BigInt(p.y)), infinity: p.infinity };
    let [a, b, c, d] = q.c.map(|l| Fq::new(BigInt(l)));
    let qa = G2Affine { x: Fq2::new(a, b), y: Fq2::new(c, d), infinity: q.infinity };
    let out = Bls12_381::final_exponentiation(Bls12_381::multi_miller_loop([pa], [qa]));
    out.map(|o| o.0.to_base_prime_field_elements().flat_map(|c| c.into_bigint().0).collect())
}

/// `ark_ec::pairing::Pairing::multi_miller_loop` on the pairs of points and
/// then `final_exponentiation`, for `ark_bls12_381::Bls12_381`, tested with
/// `is_zero`, which holds of the identity of the target group. The loop
/// pairs the two lists item by item and does not return where one is longer
/// than the other, so the lists have one length.
#[verifier::external_body]
fn pairing_product_check(ps: &Vec<G1Point>, qs: &Vec<G2Point>) -> (r: Option<bool>)
    requires
        ps.len() == qs.len(),
    ensures
        r == pairing_product_is_identity(ps@, qs@),
{
    let f = |p: &G1Point| G1Affine { x: Fq::new(BigInt(p.x)), y: Fq::new(BigInt(p.y)), infinity: p.infinity };
    let g = |q: &G2Point| {
        let [a, b, c, d] = q.c.map(|l| Fq::new(BigInt(l)));
        G2Affine { x: Fq2::new(a, b), y: Fq2::new(c, d), infinity: q.infinity }
    };
    let out = Bls12_381::multi_miller_loop(ps.iter().map(f), qs.iter().map(g));
    Bls12_381::final_exponentiation(out).map(|o| o.is_zero())
}

/// Whether two limb arrays are equal.
fn limbs_equal(a: &[u64; 6], b: &[u64; 6]) -> (r: bool)
    ensures
        r == (*a == *b),
{
    let r = a[0] == b[0] && a[1] == b[1] && a[2] == b[2] && a[3] == b[3] && a[4] == b[4] && a[5]
        == b[5];
    proof {
        if r {
            assert(*a =~= *b);
        }
    }
    r
}

impl G1Point {
    /// The neutral element.
    pub fn identity() -> (r: G1Point)
        ensures
            r == Self::spec_identity(),
    {
        G1Point { x: [0, 0, 0, 0, 0, 0], y: [0, 0, 0, 0, 0, 0], infinity: true }
    }

    /// The neutral element: the point at infinity, with both coordinates zero.
    pub closed spec fn spec_identity() -> G1Point {
        G1Point { x: [0u64, 0, 0, 0, 0, 0], y: [0u64, 0, 0, 0, 0, 0], infinity: true }
    }

    /// The limbs of the two coordinates, and whether this is the point at
    /// infinity.
    pub fn coordinates(&self) -> (r: ([u64; 6], [u64; 6], bool))
        ensures
            r == self.spec_coordinates(),
    {
        (self.x, self.y, self.infinity)
    }

    /// The limbs of the two coordinates, and whether this is the point at
    /// infinity.
    pub closed spec fn spec_coordinates(&self) -> ([u64; 6], [u64; 6], bool) {
        (self.x, self.y, self.infinity)
    }

    /// Whether two points are the same.
    pub fn equals(&self, other: &G1Point) -> (r: bool)
        ensures
            r == (*self == *other),
    {
        limbs_equal(&self.x, &other.x) && limbs_equal(&self.y, &other.y) && self.infinity
            == other.infinity
    }

    /// The sum of two points.
    pub fn add(&self, other: &G1Point) -> (r: G1Point)
        ensures
            r == g1_sum(*self, *other),
    {
        g1_add(self, other)
    }

    /// The difference of two points.
    pub fn sub(&self, other: &G1Point) -> (r: G1Point)
        ensures
            r == g1_difference(*self, *other),
    {
        g1_sub(self, other)
    }

    /// The inverse of the point.
    pub fn neg(&self) -> (r: G1Point)
        ensures
            r == g1_negation(*self),
    {
        g1_neg(self)
    }

    /// The double of the point.
    pub fn double(&self) -> (r: G1Point)
        ensures
            r == g1_doubling(*self),
    {
        g1_double(self)
    }

    /// The point multiplied by a scalar.
    pub fn mul(&self, s: &Scalar) -> (r: G1Point)
        requires
            s.wf(),
        ensures
            r == g1_product(*self, s@),
    {
        g1_mul(self, s)
    }

    /// A point drawn from `rng`.
    pub fn rand(rng: &mut StdRng) -> (r: G1Point) {
        g1_rand(rng)
    }

    /// The number of bytes of the point's compressed encoding.
    pub fn compressed_size(&self) -> (r: usize)
        ensures
            r == 48,
    {
        g1_compressed_size(self)
    }
}

impl G2Point {
    /// The neutral element.
    pub fn identity() -> (r: G2Point)
        ensures
            r == Self::spec_identity(),
    {
        G2Point {
            c: [
                [0, 0, 0, 0, 0, 0],
                [0, 0, 0, 0, 0, 0],
                [0, 0, 0, 0, 0, 0],
                [0, 0, 0, 0, 0, 0],
            ],
            infinity: true,
        }
    }

    /// The neutral element: the point at infinity, with all coordinates zero.
    pub closed spec fn spec_identity() -> G2Point {
        G2Point {
            c: [
                [0u64, 0, 0, 0, 0, 0],
                [0u64, 0, 0, 0, 0, 0],
                [0u64, 0, 0, 0, 0, 0],
                [0u64, 0, 0, 0, 0, 0],
            ],
            infinity: true,
        }
    }

    /// The limbs of the two parts of each coordinate, `x` first, and whether
    /// this is the point at infinity.
    pub fn coordinates(&self) -> (r: ([[u64; 6]; 4], bool))
        ensures
            r == self.spec_coordinates(),
    {
        (self.c, self.infinity)
    }

    /// The limbs of the two parts of each coordinate, `x` first, and whether
    /// this is the point at infinity.
    pub closed spec fn spec_coordinates(&self) -> ([[u64; 6]; 4], bool) {
        (self.c, self.infinity)
    }

    /// Whether two points are the same.
    pub fn equals(&self, other: &G2Point) -> (r: bool)
        ensures
            r == (*self == *other),
    {
        let r = limbs_equal(&self.c[0], &other.c[0]) && limbs_equal(&self.c[1], &other.c[1])
            && limbs_equal(&self.c[2], &other.c[2]) && limbs_equal(&self.c[3], &other.c[3])
            && self.infinity == other.infinity;
        proof {
            if r {
                assert(self.c =~= other.c);
            }
        }
        r
    }

    /// The difference of two points.
    pub fn sub(&self, other: &G2Point) -> (r: G2Point)
        ensures
            r == g2_difference(*self, *other),
    {
        g2_sub(self, other)
    }

    /// The point multiplied by a scalar.
    pub fn mul(&self, s: &Scalar) -> (r: G2Point)
        requires
            s.wf(),
        ensures
            r == g2_product(*self, s@),
    {
        g2_mul(self, s)
    }

    /// A point drawn from `rng`.
    pub fn rand(rng: &mut StdRng) -> (r: G2Point) {
        g2_rand(rng)
    }
}

/// The multi-scalar multiplication of `bases` by `scalars` in the first group.
pub fn g1_msm(bases: &[G1Point], scalars: &[Scalar]) -> (r: G1Point)
    requires
        all_wf(scalars@),
    ensures
        r == g1_msm_value(bases@, vals(scalars@)),
{
    g1_msm_bigint(bases, scalars)
}

/// The multi-scalar multiplication of `bases` by `scalars` in the second group.
pub fn g2_msm(bases: &[G2Point], scalars: &[Scalar]) -> (r: G2Point)
    requires
        all_wf(scalars@),
    ensures
        r == g2_msm_value(bases@, vals(scalars@)),
{
    g2_msm_bigint(bases, scalars)
}

/// The multiples of `g` by each of `scalars`, in order, by multiplication
/// with a table of the multiples of `g`.
pub fn g1_multiples(g: &G1Point, scalars: &Vec<Scalar>) -> (r: Vec<G1Point>)
    requires
        all_wf(scalars@),
    ensures
        r.len() == scalars.len(),
        r@ == g1_fixed_base_value(*g, vals(scalars@)),
{
    g1_fixed_base_msm(g, scalars)
}

/// Whether the pairings of `(p1, q1)` and of `(p2, q2)` are defined and equal.
pub open spec fn pairings_agree(p1: G1Point, q1: G2Point, p2: G1Point, q2: G2Point) -> bool {
    pairing_value(p1, q1).is_some() && pairing_value(p1, q1) == pairing_value(p2, q2)
}

/// Tests whether `e(p1, q1) == e(p2, q2)`.
pub fn pairing_equal(p1: &G1Point, q1: &G2Point, p2: &G1Point, q2: &G2Point) -> (r: bool)
    ensures
        r == pairings_agree(*p1, *q1, *p2, *q2),
{
    let left = pairing_limbs(p1, q1);
    let right = pairing_limbs(p2, q2);
    match (left, right) {
        (Some(a), Some(b)) => {
            if a.len() != b.len() {
                proof {
                    assert(a@.len() != b@.len());
                }
                return false;
            }
            let mut i: usize = 0;
            while i < a.len()
                invariant
                    0 <= i <= a.len(),
                    a.len() == b.len(),
                    pairing_value(*p1, *q1) == Some(a@),
                    pairing_value(*p2, *q2) == Some(b@),
                    forall|j: int| 0 <= j < i ==> a[j] == b[j],
                decreases a.len() - i,
            {
                if a[i] != b[i] {
                    proof {
                        assert(a@[i as int] != b@[i as int]);
                    }
                    return false;
                }
                i = i + 1;
            }
            proof {
                assert(a@ =~= b@);
            }
            true
        },
        _ => false,
    }
}

/// Tests whether the product of the pairings of the points at equal indices
/// is the identity of the target group. The two lists have one length.
pub fn pairing_product_is_one(ps: &Vec<G1Point>, qs: &Vec<G2Point>) -> (r: bool)
    requires
        ps.len() == qs.len(),
    ensures
        r == (pairing_product_is_identity(ps@, qs@) == Some(true)),
{
    match pairing_product_check(ps, qs) {
        Some(b) => b,
        None => false,
    }
}

} // verus!
