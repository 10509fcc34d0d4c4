//! Polynomial commitment schemes of the KZG family over BLS12-381, with an
//! erasure-coding and commitment pipeline for square grids of scalars.
//!
//! Scalar-field arithmetic, group operations, pairings and FFTs are performed
//! by the arkworks crates. Everything built on top of them (polynomial
//! algebra, key handling, the opening protocols and the grid pipeline) is
//! verified here against contracts stated over mathematical models. The
//! PLONK library of Dusk serves as a second source of transforms and of a
//! commitment scheme behind the same interfaces.
use rand::rngs::StdRng;
use vstd::arithmetic::power2::{lemma2_to64, lemma_pow2_unfold, pow2};
use vstd::prelude::*;

pub mod ark;
pub mod plonk_kzg;

verus! {

/// Whether `n` is a power of two.
pub open spec fn is_power_of_two(n: int) -> bool {
    exists|k: nat| n == pow2(k)
}

/// Twice a power of two is a power of two.
pub proof fn lemma_double_is_power_of_two(n: int)
    requires
        is_power_of_two(n),
    ensures
        is_power_of_two(2 * n),
{
    let k = choose|k: nat| n == pow2(k);
    lemma_pow2_unfold(k + 1);
    assert(2 * n == pow2(k + 1));
}

/// A polynomial commitment scheme as a benchmark drives it: set up, trim,
/// draw a polynomial with a point and its value, commit, open and verify.
pub trait PcBench {
    type Setup;

    type Trimmed;

    type Poly;

    type Point;

    type Eval;

    type Commit;

    type Proof;

    /// Whether a setup for this maximum degree can be made.
    spec fn valid_max_degree(max_degree: usize) -> bool;

    /// Whether a setup is well formed.
    spec fn setup_wf(s: &Self::Setup) -> bool;

    /// Whether the setup was made for the maximum degree.
    spec fn made_for(s: &Self::Setup, max_degree: usize) -> bool;

    /// Whether the setup can be trimmed to the degree.
    spec fn valid_trim(s: &Self::Setup, supported_degree: usize) -> bool;

    /// Whether trimmed keys are well formed.
    spec fn trimmed_wf(t: &Self::Trimmed) -> bool;

    /// The largest degree that the trimmed keys commit to.
    spec fn trimmed_degree(t: &Self::Trimmed) -> nat;

    /// Whether a polynomial is well formed.
    spec fn poly_wf(p: &Self::Poly) -> bool;

    /// The degree of a polynomial.
    spec fn poly_degree(p: &Self::Poly) -> nat;

    /// Whether a point is well formed.
    spec fn point_wf(pt: &Self::Point) -> bool;

    /// Whether a value is well formed.
    spec fn eval_wf(value: &Self::Eval) -> bool;

    /// Whether a proof is well formed.
    spec fn proof_wf(proof: &Self::Proof) -> bool;

    /// The number of bytes of data that one element carries.
    spec fn bytes() -> nat;

    /// Whether `value` is the value of the polynomial at the point.
    spec fn is_value(p: &Self::Poly, pt: &Self::Point, value: &Self::Eval) -> bool;

    /// Whether `c` is the commitment to the polynomial under the keys.
    spec fn is_commitment(t: &Self::Trimmed, p: &Self::Poly, c: &Self::Commit) -> bool;

    /// Whether `proof` is the proof of the value of the polynomial at the
    /// point under the keys.
    spec fn is_proof(t: &Self::Trimmed, p: &Self::Poly, pt: &Self::Point, proof: &Self::Proof) -> bool;

    /// Whether `accepted` is what the scheme's verification says of the
    /// proof.
    spec fn is_verdict(
        t: &Self::Trimmed,
        c: &Self::Commit,
        proof: &Self::Proof,
        value: &Self::Eval,
        pt: &Self::Point,
        accepted: bool,
    ) -> bool;

    /// The setup for polynomials of degree up to `max_degree`.
    fn setup(max_degree: usize) -> (s: Self::Setup)
        requires
            Self::valid_max_degree(max_degree),
        ensures
            Self::setup_wf(&s),
            Self::made_for(&s, max_degree),
    ;

    /// The keys for polynomials of degree up to `supported_degree`.
    fn trim(s: &Self::Setup, supported_degree: usize) -> (t: Self::Trimmed)
        requires
            Self::setup_wf(s),
            Self::valid_trim(s, supported_degree),
        ensures
            Self::trimmed_wf(&t),
            Self::trimmed_degree(&t) >= supported_degree,
    ;

    /// A polynomial of degree up to `d`, a point, and the value of the
    /// polynomial at the point, all drawn at random.
    fn rand_poly(s: &mut Self::Setup, d: usize) -> (r: (Self::Poly, Self::Point, Self::Eval))
        requires
            Self::setup_wf(old(s)),
            d < usize::MAX,
        ensures
            Self::setup_wf(final(s)),
            Self::poly_wf(&r.0),
            Self::poly_degree(&r.0) <= d,
            Self::point_wf(&r.1),
            Self::eval_wf(&r.2),
            Self::is_value(&r.0, &r.1, &r.2),
    ;

    /// The number of bytes of data that one element carries.
    fn bytes_per_elem() -> (r: usize)
        ensures
            r == Self::bytes(),
    ;

    /// The commitment to the polynomial.
    fn commit(t: &Self::Trimmed, s: &mut Self::Setup, p: &Self::Poly) -> (c: Self::Commit)
        requires
            Self::trimmed_wf(t),
            Self::setup_wf(old(s)),
            Self::poly_wf(p),
            Self::poly_degree(p) <= Self::trimmed_degree(t),
        ensures
            Self::setup_wf(final(s)),
            Self::is_commitment(t, p, &c),
    ;

    /// The proof of the value of the polynomial at the point.
    fn open(t: &Self::Trimmed, s: &mut Self::Setup, p: &Self::Poly, pt: &Self::Point) -> (proof:
        Self::Proof)
        requires
            Self::trimmed_wf(t),
            Self::setup_wf(old(s)),
            Self::poly_wf(p),
            Self::poly_degree(p) <= Self::trimmed_degree(t),
            Self::point_wf(pt),
        ensures
            Self::setup_wf(final(s)),
            Self::proof_wf(&proof),
            Self::is_proof(t, p, pt, &proof),
    ;

    /// Whether the proof shows that the committed polynomial has the value
    /// at the point.
    fn verify(
        t: &Self::Trimmed,
        c: &Self::Commit,
        proof: &Self::Proof,
        value: &Self::Eval,
        pt: &Self::Point,
    ) -> (accepted: bool)
        requires
            Self::trimmed_wf(t),
            Self::proof_wf(proof),
            Self::eval_wf(value),
            Self::point_wf(pt),
        ensures
            Self::is_verdict(t, c, proof, value, pt, accepted),
    ;
}

/// The maximum degree that `test_works` sets up for.
pub const BASE_DEG: usize = 256;

/// The degree that `test_works` trims to and draws its polynomial with.
pub const TRIM_DEG: usize = 64;

/// Whether `accepted` is the verdict of the scheme on the commitment to a
/// polynomial and the proof of its value at a point.
pub open spec fn is_run<T: PcBench>(
    t: T::Trimmed,
    p: T::Poly,
    pt: T::Point,
    value: T::Eval,
    c: T::Commit,
    proof: T::Proof,
    accepted: bool,
) -> bool {
    &&& T::trimmed_degree(&t) >= TRIM_DEG
    &&& T::poly_degree(&p) <= TRIM_DEG
    &&& T::is_value(&p, &pt, &value)
    &&& T::is_commitment(&t, &p, &c)
    &&& T::is_proof(&t, &p, &pt, &proof)
    &&& T::is_verdict(&t, &c, &proof, &value, &pt, accepted)
}

/// Runs a scheme from setup to verification on a polynomial drawn at random,
/// and tells whether the proof of its value was accepted.
pub fn test_works<T: PcBench>() -> (accepted: bool)
    requires
        T::valid_max_degree(BASE_DEG),
        forall|s: T::Setup|
            T::setup_wf(&s) && T::made_for(&s, BASE_DEG) ==> #[trigger] T::valid_trim(
                &s,
                TRIM_DEG,
            ),
    ensures
        exists|t: T::Trimmed, p: T::Poly, pt: T::Point, value: T::Eval, c: T::Commit, proof: T::Proof|
            #[trigger] is_run::<T>(t, p, pt, value, c, proof, accepted),
{
    let mut s = T::setup(BASE_DEG);
    let t = T::trim(&s, TRIM_DEG);
    let (poly, point, value) = T::rand_poly(&mut s, TRIM_DEG);
    let c = T::commit(&t, &mut s, &poly);
    let p = T::open(&t, &mut s, &poly, &point);
    let accepted = T::verify(&t, &c, &p, &value, &point);
    proof {
        assert(is_run::<T>(t, poly, point, value, c, p, accepted));
    }
    accepted
}

/// A Reed-Solomon style encoder: evaluations of a polynomial over a domain
/// are extended to its evaluations over a larger domain.
pub trait ErasureEncodeBench {
    type Domain;

    type Point;

    /// The largest size that a domain can have.
    spec fn max_domain_size() -> nat;

    /// The number of elements of a domain.
    spec fn domain_size(d: &Self::Domain) -> nat;

    /// Whether a domain is well formed.
    spec fn domain_wf(d: &Self::Domain) -> bool;

    /// Whether the points are valid inputs of the encoder.
    spec fn points_wf(pts: Seq<Self::Point>) -> bool;

    /// Whether `after` is the extension of `before` from `sub_domain` to
    /// `big_domain`.
    spec fn is_encoding(
        before: Seq<Self::Point>,
        sub_domain: &Self::Domain,
        big_domain: &Self::Domain,
        after: Seq<Self::Point>,
    ) -> bool;

    /// The domain of the least size that is a power of two and not below
    /// `size`.
    fn make_domain(size: usize) -> (d: Self::Domain)
        requires
            size <= Self::max_domain_size(),
        ensures
            Self::domain_wf(&d),
            Self::domain_size(&d) >= size,
            is_power_of_two(size as int) ==> Self::domain_size(&d) == size,
    ;

    /// `size` points drawn from `rng`.
    fn rand_points(size: usize, rng: &mut StdRng) -> (pts: Vec<Self::Point>)
        ensures
            pts.len() == size,
            Self::points_wf(pts@),
    ;

    /// Extends `pts` from `sub_domain` to `big_domain`, whose size is a
    /// multiple. `pts` must have the size of `sub_domain`.
    fn erasure_encode(pts: &mut Vec<Self::Point>, sub_domain: &Self::Domain, big_domain: &Self::Domain)
        requires
            Self::domain_wf(sub_domain),
            Self::domain_wf(big_domain),
            Self::points_wf(old(pts)@),
            Self::domain_size(sub_domain) == old(pts).len(),
            Self::domain_size(big_domain) % Self::domain_size(sub_domain) == 0,
        ensures
            final(pts).len() == Self::domain_size(big_domain),
            Self::points_wf(final(pts)@),
            Self::is_encoding(old(pts)@, sub_domain, big_domain, final(pts)@),
    ;
}

/// A pipeline over square grids: the columns of a grid are erasure-encoded,
/// its rows are committed to, and a column is opened.
pub trait GridBench {
    type Setup;

    type Grid;

    type ExtendedGrid;

    type Commits;

    type Opens;

    /// Whether a grid of this size can be set up for.
    spec fn valid_size(size: usize) -> bool;

    /// Whether a setup is well formed.
    spec fn setup_wf(s: &Self::Setup) -> bool;

    /// The size of the grids that a setup is for.
    spec fn setup_size(s: &Self::Setup) -> nat;

    /// Whether a grid is square, with valid entries.
    spec fn grid_wf(g: &Self::Grid) -> bool;

    /// The number of rows and of columns of a grid.
    spec fn grid_size(g: &Self::Grid) -> nat;

    /// Whether an extended grid has twice as many rows as columns, with
    /// valid entries.
    spec fn extended_wf(g: &Self::ExtendedGrid) -> bool;

    /// The number of columns of an extended grid.
    spec fn extended_size(g: &Self::ExtendedGrid) -> nat;

    /// The number of commitments.
    spec fn commits_len(c: &Self::Commits) -> nat;

    /// The number of openings.
    spec fn opens_len(o: &Self::Opens) -> nat;

    /// The number of bytes of data that one grid element carries.
    spec fn bytes() -> nat;

    /// Whether `e` is the grid `g` with its columns extended.
    spec fn is_extended(s: &Self::Setup, g: &Self::Grid, e: &Self::ExtendedGrid) -> bool;

    /// Whether `c` holds the commitments to the rows of the extended grid.
    spec fn are_commits(s: &Self::Setup, g: &Self::ExtendedGrid, c: &Self::Commits) -> bool;

    /// Whether `o` holds the openings of the rows of the extended grid at
    /// one column.
    spec fn are_opens(s: &Self::Setup, g: &Self::ExtendedGrid, o: &Self::Opens) -> bool;

    /// The setup for grids of the given size, from randomness of `rng`.
    fn do_setup(size: usize, rng: &mut StdRng) -> (s: Self::Setup)
        requires
            Self::valid_size(size),
        ensures
            Self::setup_wf(&s),
            Self::setup_size(&s) == size,
    ;

    /// A grid of the given size with entries drawn from `rng`.
    fn rand_grid(size: usize, rng: &mut StdRng) -> (g: Self::Grid)
        ensures
            Self::grid_wf(&g),
            Self::grid_size(&g) == size,
    ;

    /// The grid with each column extended to twice its length.
    fn extend_grid(s: &Self::Setup, g: &Self::Grid) -> (e: Self::ExtendedGrid)
        requires
            Self::setup_wf(s),
            Self::grid_wf(g),
            Self::grid_size(g) == Self::setup_size(s),
        ensures
            Self::extended_wf(&e),
            Self::extended_size(&e) == Self::setup_size(s),
            Self::is_extended(s, g, &e),
    ;

    /// One commitment for each row of the extended grid.
    fn make_commits(s: &Self::Setup, g: &Self::ExtendedGrid) -> (c: Self::Commits)
        requires
            Self::setup_wf(s),
            Self::extended_wf(g),
            Self::extended_size(g) == Self::setup_size(s),
        ensures
            Self::commits_len(&c) == 2 * Self::setup_size(s),
            Self::are_commits(s, g, &c),
    ;

    /// One opening for each row of the extended grid, at a column drawn
    /// from `rng`.
    fn open_column(s: &Self::Setup, g: &Self::ExtendedGrid, rng: &mut StdRng) -> (o: Self::Opens)
        requires
            Self::setup_wf(s),
            Self::extended_wf(g),
            Self::extended_size(g) == Self::setup_size(s),
        ensures
            Self::opens_len(&o) == 2 * Self::setup_size(s),
            Self::are_opens(s, g, &o),
    ;

    /// The number of bytes of data that one grid element carries.
    fn bytes_per_elem() -> (r: usize)
        ensures
            r == Self::bytes(),
    ;
}

/// Encodes 32 points drawn from `rng` from a domain of size 32 to one of size
/// 64, and returns the 64 points.
pub fn test_enc_works<T: ErasureEncodeBench>(rng: &mut StdRng) -> (pts: Vec<T::Point>)
    requires
        T::max_domain_size() >= 64,
    ensures
        pts.len() == 64,
        T::points_wf(pts@),
        exists|before: Seq<T::Point>, sub_domain: T::Domain, big_domain: T::Domain|
            before.len() == 32 && T::domain_size(&sub_domain) == 32 && T::domain_size(&big_domain)
                == 64 && #[trigger] T::is_encoding(before, &sub_domain, &big_domain, pts@),
{
    proof {
        lemma2_to64();
        assert(is_power_of_two(32)) by {
            assert(32 == pow2(5));
        }
        assert(is_power_of_two(64)) by {
            assert(64 == pow2(6));
        }
    }
    let domain_a = T::make_domain(32);
    let domain_b = T::make_domain(64);
    let mut pts = T::rand_points(32, rng);
    assert(pts.len() == 32);
    let ghost before = pts@;
    T::erasure_encode(&mut pts, &domain_a, &domain_b);
    assert(pts.len() == 64);
    proof {
        assert(T::is_encoding(before, &domain_a, &domain_b, pts@));
    }
    pts
}

} // verus!
