//! The grid pipeline: the columns of a square grid of scalars are
//! erasure-encoded to twice their length, the rows are committed to, and a
//! column is opened. The commitments and the openings of the rows that the
//! extension adds are found by extending those of the rows of the grid.
use crate::ark::curve::{G1Point, G2Point};
use crate::ark::domain::{
    erasure_encode_g1, erasure_encode_with, evaluates, extended_g1, interpolates, make_domain,
    stride_index, ArkFft, Radix2EvaluationDomain, Transform,
};
use crate::ark::field::{modulus, rand_index, Scalar};
use crate::ark::kzg::{
    commitment_of, is_srs, is_trimmed, Powers, UniversalParams, VerifierKey, KZG10,
};
use crate::ark::poly::{all_wf, canon, copy_of, quotient_by_linear, vals, DensePolynomial};
use crate::{is_power_of_two, lemma_double_is_power_of_two, GridBench};
use rand::rngs::StdRng;
use vstd::arithmetic::power::pow;
use vstd::arithmetic::div_mod::lemma_mod_multiples_basic;
use vstd::arithmetic::power2::lemma_pow2_pos;
use vstd::prelude::*;

verus! {

/// The pipeline over BLS12-381.
pub struct KzgGridBench {}

/// The pipeline over BLS12-381.
pub type KzgGridBenchBls12_381 = KzgGridBench;

/// The committer key and the two domains that a grid of a given size needs.
#[derive(Debug, Clone)]
pub struct Setup {
    pub powers: Powers,
    pub domain_n: Radix2EvaluationDomain,
    pub domain_2n: Radix2EvaluationDomain,
}

impl Setup {
    /// Whether the larger domain has twice the size of the smaller one, and
    /// there is a power for each coefficient of a row.
    pub open spec fn wf(&self) -> bool {
        &&& self.domain_n.wf()
        &&& self.domain_2n.wf()
        &&& self.domain_2n.size == 2 * self.domain_n.size
        &&& self.powers.powers_of_g.len() >= self.domain_n.size
    }
}

/// Whether `powers` and `vk` are what the reference string `pp` for grids of
/// the given size keeps for polynomials of the degree of a row, and `pp` is
/// the string of the secret `beta` and the generators `g`, `gamma_g` and `h`.
pub open spec fn is_keys_of(
    pp: UniversalParams,
    size: int,
    powers: Powers,
    vk: VerifierKey,
    beta: int,
    g: G1Point,
    gamma_g: G1Point,
    h: G2Point,
) -> bool {
    &&& 0 <= beta < modulus()
    &&& is_srs(pp, size - 1, beta, g, gamma_g, h)
    &&& is_trimmed(pp, size - 1, powers, vk)
}

/// Whether the setup is one for grids of the given size: its powers are
/// those that the reference string of some secret and generators keeps for
/// polynomials of the degree of a row, and its domains have the size of the
/// grid and twice that.
pub open spec fn has_keys_for(s: Setup, size: int) -> bool {
    &&& s.domain_n.size == size
    &&& s.domain_2n.size == 2 * size
    &&& exists|
        pp: UniversalParams,
        vk: VerifierKey,
        beta: int,
        g: G1Point,
        gamma_g: G1Point,
        h: G2Point,
    | #[trigger]
        is_keys_of(pp, size, s.powers, vk, beta, g, gamma_g, h)
}

/// Whether the grid has `rows` rows of `cols` canonical scalars each.
pub open spec fn has_shape(g: Seq<Vec<Scalar>>, rows: int, cols: int) -> bool {
    &&& g.len() == rows
    &&& forall|i: int| 0 <= i < rows ==> (#[trigger] g[i]).len() == cols && all_wf(g[i]@)
}

/// The values of the column `j` of the grid.
pub open spec fn column(g: Seq<Vec<Scalar>>, j: int) -> Seq<int> {
    Seq::new(g.len(), |i: int| g[i][j]@)
}

/// Whether `long` extends `short` from the smaller domain to the larger one: both hold the values of one polynomial with as many
/// coefficients as the smaller domain has elements.
pub open spec fn is_extension(
    short: Seq<int>,
    long: Seq<int>,
    domain_n: Radix2EvaluationDomain,
    domain_2n: Radix2EvaluationDomain,
) -> bool {
    exists|c: Seq<int>| interpolates(c, domain_n, short) && evaluates(long, domain_2n, c)
}

/// Whether `eg` is the grid `g` with every column extended from the smaller
/// domain to the larger one: its rows of even index are the rows of `g`.
pub open spec fn is_extended_grid(
    g: Seq<Vec<Scalar>>,
    eg: Seq<Vec<Scalar>>,
    domain_n: Radix2EvaluationDomain,
    domain_2n: Radix2EvaluationDomain,
) -> bool {
    &&& has_shape(eg, 2 * domain_n.size, domain_n.size as int)
    &&& forall|i: int, j: int|
        0 <= i < domain_n.size && 0 <= j < domain_n.size ==> (#[trigger] eg[2 * i][j]) == g[i][j]
    &&& forall|j: int|
        0 <= j < domain_n.size ==> is_extension(
            #[trigger] column(g, j),
            column(eg, j),
            domain_n,
            domain_2n,
        )
}

/// The commitments to the rows of even index of the extended grid.
pub open spec fn row_commitments(powers: Seq<G1Point>, g: Seq<Vec<Scalar>>, n: nat) -> Seq<G1Point> {
    Seq::new(n, |i: int| commitment_of(powers, canon(vals(g[2 * i]@))))
}

/// The openings at `point` of the rows of even index of the extended grid.
pub open spec fn row_openings(powers: Seq<G1Point>, g: Seq<Vec<Scalar>>, n: nat, point: int) -> Seq<
    G1Point,
> {
    Seq::new(n, |i: int| commitment_of(powers, quotient_by_linear(canon(vals(g[2 * i]@)), point)))
}

/// The openings of the rows of the extended grid at the element of index `j`
/// of the smaller domain: those of the rows of even index, extended from the
/// smaller domain to the larger one.
pub open spec fn column_openings(s: Setup, g: Seq<Vec<Scalar>>, j: int) -> Seq<G1Point> {
    extended_g1(
        row_openings(
            s.powers.powers_of_g@,
            g,
            s.domain_n.size as nat,
            pow(s.domain_n.group_gen@, j as nat) % modulus(),
        ),
        s.domain_n,
        s.domain_2n,
    )
}

/// The size of the larger domain is a multiple of that of the smaller one,
/// which is not zero.
pub proof fn lemma_double_divisible(s: Setup)
    requires
        s.wf(),
    ensures
        s.domain_n.size > 0,
        s.domain_2n.size % s.domain_n.size == 0,
{
    vstd::arithmetic::power2::lemma_pow2_pos(s.domain_n.log_size_of_group as nat);
    vstd::arithmetic::div_mod::lemma_mod_multiples_basic(2, s.domain_n.size as int);
}

/// The column `j` of the grid as a vector.
pub fn column_of(g: &Vec<Vec<Scalar>>, j: usize, n: usize) -> (col: Vec<Scalar>)
    requires
        has_shape(g@, n as int, n as int),
        j < n,
    ensures
        col.len() == n,
        all_wf(col@),
        vals(col@) == column(g@, j as int),
{
    let mut col: Vec<Scalar> = Vec::new();
    let mut i: usize = 0;
    while i < n
        invariant
            0 <= i <= n,
            j < n,
            has_shape(g@, n as int, n as int),
            col.len() == i,
            all_wf(col@),
            forall|t: int| 0 <= t < i ==> #[trigger] col[t] == g[t][j as int],
        decreases n - i,
    {
        assert(g[i as int].len() == n && all_wf(g[i as int]@));
        let x = g[i][j];
        assert(x.wf());
        col.push(x);
        i = i + 1;
    }
    proof {
        assert(vals(col@) =~= column(g@, j as int));
    }
    col
}

/// The grid of `m` rows whose `n` columns are given.
pub fn from_columns(cols: &Vec<Vec<Scalar>>, n: usize, m: usize) -> (eg: Vec<Vec<Scalar>>)
    requires
        cols.len() == n,
        forall|t: int| 0 <= t < n ==> (#[trigger] cols[t]).len() == m && all_wf(cols[t]@),
    ensures
        has_shape(eg@, m as int, n as int),
        forall|r: int, t: int| 0 <= r < m && 0 <= t < n ==> (#[trigger] eg[r][t]) == cols[t][r],
{
    let mut eg: Vec<Vec<Scalar>> = Vec::new();
    let mut i: usize = 0;
    while i < m
        invariant
            0 <= i <= m,
            cols.len() == n,
            forall|t: int| 0 <= t < n ==> (#[trigger] cols[t]).len() == m && all_wf(cols[t]@),
            eg.len() == i,
            forall|r: int| 0 <= r < i ==> (#[trigger] eg[r]).len() == n && all_wf(eg[r]@),
            forall|r: int, t: int| 0 <= r < i && 0 <= t < n ==> (#[trigger] eg[r][t]) == cols[t][r],
        decreases m - i,
    {
        let mut row: Vec<Scalar> = Vec::new();
        let mut t: usize = 0;
        while t < n
            invariant
                0 <= t <= n,
                i < m,
                cols.len() == n,
                forall|c: int| 0 <= c < n ==> (#[trigger] cols[c]).len() == m && all_wf(cols[c]@),
                row.len() == t,
                all_wf(row@),
                forall|c: int| 0 <= c < t ==> #[trigger] row[c] == cols[c][i as int],
            decreases n - t,
        {
            assert(cols[t as int].len() == m && all_wf(cols[t as int]@));
            let x = cols[t][i];
            assert(x.wf());
            row.push(x);
            t = t + 1;
        }
        eg.push(row);
        i = i + 1;
    }
    eg
}

/// Extends every column of the grid from the smaller domain to the larger
/// one, with the transforms of `T`. The rows of even index of the result are
/// the rows of the grid.
pub fn extend_columns<T: Transform>(
    domain_n: &Radix2EvaluationDomain,
    domain_2n: &Radix2EvaluationDomain,
    g: &Vec<Vec<Scalar>>,
) -> (eg: Vec<Vec<Scalar>>)
    requires
        domain_n.wf(),
        domain_2n.wf(),
        T::supports(*domain_n),
        T::supports(*domain_2n),
        domain_2n.size == 2 * domain_n.size,
        has_shape(g@, domain_n.size as int, domain_n.size as int),
    ensures
        is_extended_grid(g@, eg@, *domain_n, *domain_2n),
{
    let n = domain_n.size();
    let m = domain_2n.size();
    proof {
        lemma_pow2_pos(domain_n.log_size_of_group as nat);
        lemma_mod_multiples_basic(2, n as int);
    }
    // The extended columns.
    let mut cols: Vec<Vec<Scalar>> = Vec::new();
    let mut j: usize = 0;
    while j < n
        invariant
            0 <= j <= n,
            n == domain_n.size,
            m == domain_2n.size,
            m == 2 * n,
            n > 0,
            m % n == 0,
            domain_n.wf(),
            domain_2n.wf(),
            T::supports(*domain_n),
            T::supports(*domain_2n),
            has_shape(g@, n as int, n as int),
            cols.len() == j,
            forall|t: int| 0 <= t < j ==> (#[trigger] cols[t]).len() == m && all_wf(cols[t]@),
            forall|t: int, i: int| 0 <= t < j && 0 <= i < n ==> (#[trigger] cols[t][2 * i]) == g[i][t],
            forall|t: int|
                0 <= t < j ==> is_extension(
                    #[trigger] column(g@, t),
                    vals(cols[t]@),
                    *domain_n,
                    *domain_2n,
                ),
        decreases n - j,
    {
        let mut col = column_of(g, j, n);
        let ghost before = col@;
        erasure_encode_with::<T>(&mut col, domain_n, domain_2n);
        proof {
            assert forall|i: int| 0 <= i < n implies col[2 * i] == g[i][j as int] by {
                let k = stride_index(i, m as int, n as int);
                assert(m as int / n as int == 2) by (nonlinear_arith)
                    requires
                        m == 2 * n,
                        n > 0,
                ;
                assert(k == 2 * i);
                assert(col@[k] == before[i]);
                assert(vals(before)[i] == column(g@, j as int)[i]);
                assert(before[i].wf());
                assert(g[i].len() == n && all_wf(g[i]@));
                assert(g[i][j as int].wf());
                Scalar::lemma_same_value(before[i], g[i][j as int]);
            }
        }
        cols.push(col);
        j = j + 1;
    }
    let eg = from_columns(&cols, n, m);
    proof {
        assert forall|i: int, j: int| 0 <= i < n && 0 <= j < n implies (#[trigger] eg[2 * i][j])
            == g[i][j] by {
            assert(eg[2 * i][j] == cols[j][2 * i]);
        }
        assert forall|j: int| 0 <= j < n implies is_extension(
            #[trigger] column(g@, j),
            column(eg@, j),
            *domain_n,
            *domain_2n,
        ) by {
            assert(is_extension(column(g@, j), vals(cols[j]@), *domain_n, *domain_2n));
            assert(column(eg@, j) =~= vals(cols[j]@)) by {
                assert forall|r: int| 0 <= r < m implies column(eg@, j)[r] == vals(cols[j]@)[r] by {
                    assert(eg[r][j] == cols[j][r]);
                }
            }
        }
    }
    eg
}

/// Extends every column of the grid from the smaller domain to the larger
/// one. The rows of even index of the result are the rows of the grid.
pub fn extend_grid(s: &Setup, g: &Vec<Vec<Scalar>>) -> (eg: Vec<Vec<Scalar>>)
    requires
        s.wf(),
        has_shape(g@, s.domain_n.size as int, s.domain_n.size as int),
    ensures
        is_extended_grid(g@, eg@, s.domain_n, s.domain_2n),
{
    extend_columns::<ArkFft>(&s.domain_n, &s.domain_2n, g)
}

/// The commitments to the rows of the extended grid: those to the rows of
/// even index, which are the rows of the grid, extended from the smaller
/// domain to the larger one.
pub fn make_commits(s: &Setup, g: &Vec<Vec<Scalar>>) -> (commits: Vec<G1Point>)
    requires
        s.wf(),
        has_shape(g@, 2 * s.domain_n.size, s.domain_n.size as int),
    ensures
        commits.len() == 2 * s.domain_n.size,
        commits@ == extended_g1(
            row_commitments(s.powers.powers_of_g@, g@, s.domain_n.size as nat),
            s.domain_n,
            s.domain_2n,
        ),
{
    let n = s.domain_n.size();
    let mut commits: Vec<G1Point> = Vec::new();
    // Collect commits to the rows of the grid
    let mut i: usize = 0;
    while i < n
        invariant
            0 <= i <= n,
            n == s.domain_n.size,
            s.wf(),
            has_shape(g@, 2 * n, n as int),
            commits.len() == i,
            forall|t: int|
                0 <= t < i ==> #[trigger] commits[t] == commitment_of(
                    s.powers.powers_of_g@,
                    canon(vals(g[2 * t]@)),
                ),
        decreases n - i,
    {
        assert(g[2 * i].len() == n && all_wf(g[2 * i]@));
        let poly = DensePolynomial::from_coefficients_vec(copy_of(&g[2 * i]));
        let c = match KZG10::commit(&s.powers, &poly) {
            Ok(c) => c.0,
            Err(_) => unreached(),
        };
        commits.push(c);
        i = i + 1;
    }
    proof {
        assert(commits@ =~= row_commitments(s.powers.powers_of_g@, g@, n as nat));
        lemma_double_divisible(*s);
    }
    // Extend commits
    erasure_encode_g1(&mut commits, &s.domain_n, &s.domain_2n);
    commits
}

/// The openings of the rows of the extended grid at the element of index `j`
/// of the smaller domain: those of the rows of even index, extended from the
/// smaller domain to the larger one.
pub fn open_column_at(s: &Setup, g: &Vec<Vec<Scalar>>, j: usize) -> (opens: Vec<G1Point>)
    requires
        s.wf(),
        has_shape(g@, 2 * s.domain_n.size, s.domain_n.size as int),
    ensures
        opens.len() == 2 * s.domain_n.size,
        opens@ == column_openings(*s, g@, j as int),
{
    let n = s.domain_n.size();
    let pt = s.domain_n.element(j);
    let mut col_opens: Vec<G1Point> = Vec::new();
    // for each row
    let mut i: usize = 0;
    while i < n
        invariant
            0 <= i <= n,
            n == s.domain_n.size,
            s.wf(),
            pt.wf(),
            has_shape(g@, 2 * n, n as int),
            col_opens.len() == i,
            forall|t: int|
                0 <= t < i ==> #[trigger] col_opens[t] == commitment_of(
                    s.powers.powers_of_g@,
                    quotient_by_linear(canon(vals(g[2 * t]@)), pt@),
                ),
        decreases n - i,
    {
        assert(g[2 * i].len() == n && all_wf(g[2 * i]@));
        let poly = DensePolynomial::from_coefficients_vec(copy_of(&g[2 * i]));
        // open at (row, column)
        let w = match KZG10::open(&s.powers, &poly, pt) {
            Ok(proof) => proof.w,
            Err(_) => unreached(),
        };
        col_opens.push(w);
        i = i + 1;
    }
    proof {
        assert(col_opens@ =~= row_openings(s.powers.powers_of_g@, g@, n as nat, pt@));
        lemma_double_divisible(*s);
    }
    // fft to get all opens
    erasure_encode_g1(&mut col_opens, &s.domain_n, &s.domain_2n);
    col_opens
}

/// The openings of the rows of the extended grid at an element of the
/// smaller domain whose index is drawn from `rng`.
pub fn open_column(s: &Setup, g: &Vec<Vec<Scalar>>, rng: &mut StdRng) -> (opens: Vec<G1Point>)
    requires
        s.wf(),
        has_shape(g@, 2 * s.domain_n.size, s.domain_n.size as int),
    ensures
        opens.len() == 2 * s.domain_n.size,
        exists|j: int| 0 <= j < s.domain_n.size && opens@ == #[trigger] column_openings(*s, g@, j),
{
    proof {
        vstd::arithmetic::power2::lemma_pow2_pos(s.domain_n.log_size_of_group as nat);
    }
    let j = rand_index(rng, s.domain_n.size());
    let opens = open_column_at(s, g, j);
    proof {
        assert(0 <= j < s.domain_n.size && opens@ == column_openings(*s, g@, j as int));
    }
    opens
}

impl GridBench for KzgGridBench {
    type Setup = Setup;

    type Grid = Vec<Vec<Scalar>>;

    type ExtendedGrid = Vec<Vec<Scalar>>;

    type Commits = Vec<G1Point>;

    type Opens = Vec<G1Point>;

    open spec fn valid_size(size: usize) -> bool {
        is_power_of_two(size as int) && 4 <= size <= 0x4000_0000
    }

    open spec fn setup_wf(s: &Setup) -> bool {
        s.wf()
    }

    open spec fn setup_size(s: &Setup) -> nat {
        s.domain_n.size as nat
    }

    open spec fn grid_wf(g: &Vec<Vec<Scalar>>) -> bool {
        has_shape(g@, g.len() as int, g.len() as int)
    }

    open spec fn grid_size(g: &Vec<Vec<Scalar>>) -> nat {
        g.len() as nat
    }

    open spec fn extended_wf(g: &Vec<Vec<Scalar>>) -> bool {
        g.len() % 2 == 0 && has_shape(g@, g.len() as int, g.len() as int / 2)
    }

    open spec fn extended_size(g: &Vec<Vec<Scalar>>) -> nat {
        (g.len() / 2) as nat
    }

    open spec fn commits_len(c: &Vec<G1Point>) -> nat {
        c.len() as nat
    }

    open spec fn opens_len(o: &Vec<G1Point>) -> nat {
        o.len() as nat
    }

    open spec fn bytes() -> nat {
        31
    }

    open spec fn is_extended(s: &Setup, g: &Vec<Vec<Scalar>>, e: &Vec<Vec<Scalar>>) -> bool {
        is_extended_grid(g@, e@, s.domain_n, s.domain_2n)
    }

    open spec fn are_commits(s: &Setup, g: &Vec<Vec<Scalar>>, c: &Vec<G1Point>) -> bool {
        c@ == extended_g1(
            row_commitments(s.powers.powers_of_g@, g@, s.domain_n.size as nat),
            s.domain_n,
            s.domain_2n,
        )
    }

    open spec fn are_opens(s: &Setup, g: &Vec<Vec<Scalar>>, o: &Vec<G1Point>) -> bool {
        exists|j: int| 0 <= j < s.domain_n.size && o@ == #[trigger] column_openings(*s, g@, j)
    }

    fn do_setup(size: usize, rng: &mut StdRng) -> (s: Setup)
        ensures
            has_keys_for(s, size as int),
    {
        proof {
            lemma_double_is_power_of_two(size as int);
        }
        let powers = match KZG10::setup(size - 1, false, rng) {
            Ok(up) => {
                match KZG10::trim(&up, size - 1) {
                    Ok((powers, vk)) => {
                        proof {
                            let d = size - 1;
                            let (beta, g, gamma_g, h) = choose|
                                beta: int,
                                g: G1Point,
                                gamma_g: G1Point,
                                h: G2Point,
                            |
                                0 <= beta < modulus() && #[trigger] is_srs(up, d, beta, g, gamma_g, h);
                            assert(is_keys_of(up, size as int, powers, vk, beta, g, gamma_g, h));
                        }
                        powers
                    },
                    Err(_) => unreached(),
                }
            },
            Err(_) => unreached(),
        };
        Setup { powers, domain_n: make_domain(size), domain_2n: make_domain(2 * size) }
    }

    fn rand_grid(size: usize, rng: &mut StdRng) -> (g: Vec<Vec<Scalar>>) {
        let mut grid: Vec<Vec<Scalar>> = Vec::new();
        let mut i: usize = 0;
        while i < size
            invariant
                0 <= i <= size,
                has_shape(grid@, i as int, size as int),
            decreases size - i,
        {
            let mut row: Vec<Scalar> = Vec::new();
            let mut j: usize = 0;
            while j < size
                invariant
                    0 <= j <= size,
                    row.len() == j,
                    all_wf(row@),
                decreases size - j,
            {
                let x = Scalar::rand(rng);
                row.push(x);
                j = j + 1;
            }
            grid.push(row);
            i = i + 1;
        }
        grid
    }

    fn extend_grid(s: &Setup, g: &Vec<Vec<Scalar>>) -> (e: Vec<Vec<Scalar>>) {
        extend_grid(s, g)
    }

    fn make_commits(s: &Setup, g: &Vec<Vec<Scalar>>) -> (c: Vec<G1Point>) {
        make_commits(s, g)
    }

    fn open_column(s: &Setup, g: &Vec<Vec<Scalar>>, rng: &mut StdRng) -> (o: Vec<G1Point>) {
        open_column(s, g, rng)
    }

    fn bytes_per_elem() -> (r: usize) {
        Scalar::zero().serialized_size() - 1
    }
}

} // verus!
