//! The grid pipeline with the FFT and the commitment scheme of the PLONK
//! library: every row of the extended grid is committed to and opened by
//! itself.
use crate::ark::field::{rand_index, Scalar};
use crate::ark::domain::Radix2EvaluationDomain;
use crate::ark::field::modulus;
use crate::ark::grid_bench::{extend_columns, has_shape, is_extended_grid};
use crate::ark::poly::{all_wf, canon, quotient_by_linear, vals};
use crate::plonk_kzg::enc_bench::{in_reach, make_domain, PlonkFft};
use crate::plonk_kzg::{
    commit, commit_result, compute_single_witness, encoded, key_powers, params_powers,
    setup_parameters, setup_powers, trim_parameters, trims,
};
use crate::{is_power_of_two, lemma_double_is_power_of_two, GridBench};
use dusk_plonk::commitment_scheme::kzg10::CommitKey;
use dusk_plonk::fft::EvaluationDomain;
use vstd::arithmetic::power::pow;
use rand::rngs::StdRng;
use vstd::arithmetic::power2::lemma_pow2_pos;
use vstd::prelude::*;

verus! {

/// The pipeline over the PLONK library.
pub struct PlonkGridBench {}

/// The committer key, if the scheme gave one, and the two domains that a
/// grid of a given size needs.
pub struct Setup {
    pub ck: Option<CommitKey>,
    pub domain_n: Radix2EvaluationDomain,
    pub domain_2n: Radix2EvaluationDomain,
}

impl Setup {
    /// Whether the larger domain has twice the size of the smaller one, and
    /// the key, if there is one, has a power.
    pub open spec fn wf(&self) -> bool {
        &&& self.domain_n.wf()
        &&& self.domain_2n.wf()
        &&& in_reach(self.domain_n)
        &&& in_reach(self.domain_2n)
        &&& self.domain_2n.size == 2 * self.domain_n.size
        &&& self.ck.is_some() ==> key_powers(self.ck.unwrap()).len() >= 1
    }
}

/// Whether the setup is one for grids of the given size: its domains have
/// the size of the grid and twice that, and its key holds all the powers of
/// a setup for the degree of a row from some seed. There is no key where
/// the scheme does not trim to that degree, as for a grid of size two.
pub open spec fn has_key_for(s: Setup, size: int) -> bool {
    &&& s.domain_n.size == size
    &&& s.domain_2n.size == 2 * size
    &&& s.ck.is_some() <==> trims(size, size - 1)
    &&& s.ck.is_some() ==> {
        &&& key_powers(s.ck.unwrap()).len() == size
        &&& exists|seed: Seq<u8>| key_powers(s.ck.unwrap()) == #[trigger] setup_powers(size - 1, seed)
    }
}

/// What committing to the coefficients under the key gives: nothing without
/// a key, for a constant, and for a degree beyond the powers of the key.
pub open spec fn row_commitment(ck: Option<CommitKey>, coeffs: Seq<int>) -> Option<Seq<u8>> {
    if ck.is_some() {
        commit_result(key_powers(ck.unwrap()), coeffs)
    } else {
        None
    }
}

/// Whether `commits` holds the commitment to each row of the grid.
pub open spec fn are_row_commitments(
    ck: Option<CommitKey>,
    g: Seq<Vec<Scalar>>,
    commits: Seq<Option<[u8; 48]>>,
) -> bool {
    &&& commits.len() == g.len()
    &&& forall|i: int|
        0 <= i < g.len() ==> encoded(#[trigger] commits[i]) == row_commitment(ck, vals(g[i]@))
}

/// Whether `opens` holds, for each row of the grid, the commitment to the
/// witness of its value at the point.
pub open spec fn are_row_openings(
    ck: Option<CommitKey>,
    g: Seq<Vec<Scalar>>,
    point: int,
    opens: Seq<Option<[u8; 48]>>,
) -> bool {
    &&& opens.len() == g.len()
    &&& forall|i: int|
        0 <= i < g.len() ==> encoded(#[trigger] opens[i]) == row_commitment(
            ck,
            canon(quotient_by_linear(canon(vals(g[i]@)), point)),
        )
}

/// The openings of the rows at the element of index `j` of the smaller
/// domain.
pub open spec fn are_column_openings(s: Setup, g: Seq<Vec<Scalar>>, j: int, opens: Seq<Option<[u8; 48]>>) -> bool {
    are_row_openings(s.ck, g, pow(s.domain_n.group_gen@, j as nat) % modulus(), opens)
}

/// `dusk_plonk::fft::EvaluationDomain::elements`, advanced to the index `j`:
/// the generator to the power `j`.
#[verifier::external_body]
fn plonk_element(domain: &Radix2EvaluationDomain, j: usize) -> (r: Scalar)
    requires
        domain.wf(),
        in_reach(*domain),
        j < domain.size,
    ensures
        r.wf(),
        r@ == pow(domain.group_gen@, j as nat) % modulus(),
{
    let x = EvaluationDomain::new(domain.size).unwrap().elements().nth(j).unwrap();
    Scalar { limbs: x.reduce().0 }
}

/// The element of index `j` of the domain.
pub fn element(domain: &Radix2EvaluationDomain, j: usize) -> (r: Scalar)
    requires
        domain.wf(),
        in_reach(*domain),
        j < domain.size,
    ensures
        r.wf(),
        r@ == pow(domain.group_gen@, j as nat) % modulus(),
{
    plonk_element(domain, j)
}

/// Extends every column of the grid from the smaller domain to the larger
/// one. The rows of even index of the result are the rows of the grid.
pub fn extend_grid(s: &Setup, g: &Vec<Vec<Scalar>>) -> (eg: Vec<Vec<Scalar>>)
    requires
        s.wf(),
        has_shape(g@, s.domain_n.size as int, s.domain_n.size as int),
    ensures
        is_extended_grid(g@, eg@, s.domain_n, s.domain_2n),
{
    extend_columns::<PlonkFft>(&s.domain_n, &s.domain_2n, g)
}

/// One commitment for each row of the extended grid; none where the key
/// refuses the row.
pub fn make_commits(s: &Setup, g: &Vec<Vec<Scalar>>) -> (commits: Vec<Option<[u8; 48]>>)
    requires
        s.wf(),
        has_shape(g@, g.len() as int, s.domain_n.size as int),
    ensures
        are_row_commitments(s.ck, g@, commits@),
{
    let mut commits: Vec<Option<[u8; 48]>> = Vec::new();
    let mut i: usize = 0;
    while i < g.len()
        invariant
            0 <= i <= g.len(),
            s.wf(),
            has_shape(g@, g.len() as int, s.domain_n.size as int),
            commits.len() == i,
            forall|k: int|
                0 <= k < i ==> encoded(#[trigger] commits[k]) == row_commitment(
                    s.ck,
                    vals(g[k]@),
                ),
        decreases g.len() - i,
    {
        assert(all_wf(g[i as int]@));
        let c = match &s.ck {
            Some(ck) => commit(ck, &g[i]),
            None => None,
        };
        commits.push(c);
        i = i + 1;
    }
    commits
}

/// One opening for each row of the extended grid, at the element of index
/// `j` of the smaller domain.
pub fn open_column_at(s: &Setup, g: &Vec<Vec<Scalar>>, j: usize) -> (opens: Vec<Option<[u8; 48]>>)
    requires
        s.wf(),
        j < s.domain_n.size,
        has_shape(g@, g.len() as int, s.domain_n.size as int),
    ensures
        are_column_openings(*s, g@, j as int, opens@),
{
    let elem = element(&s.domain_n, j);
    let mut opens: Vec<Option<[u8; 48]>> = Vec::new();
    let mut i: usize = 0;
    while i < g.len()
        invariant
            0 <= i <= g.len(),
            s.wf(),
            elem.wf(),
            elem@ == pow(s.domain_n.group_gen@, j as nat) % modulus(),
            has_shape(g@, g.len() as int, s.domain_n.size as int),
            opens.len() == i,
            forall|k: int|
                0 <= k < i ==> encoded(#[trigger] opens[k]) == row_commitment(
                    s.ck,
                    canon(quotient_by_linear(canon(vals(g[k]@)), elem@)),
                ),
        decreases g.len() - i,
    {
        assert(all_wf(g[i as int]@));
        let w = match &s.ck {
            Some(ck) => {
                let wp = compute_single_witness(ck, &g[i], &elem);
                commit(ck, &wp)
            },
            None => None,
        };
        opens.push(w);
        i = i + 1;
    }
    opens
}

impl GridBench for PlonkGridBench {
    type Setup = Setup;

    type Grid = Vec<Vec<Scalar>>;

    type ExtendedGrid = Vec<Vec<Scalar>>;

    type Commits = Vec<Option<[u8; 48]>>;

    type Opens = Vec<Option<[u8; 48]>>;

    open spec fn valid_size(size: usize) -> bool {
        is_power_of_two(size as int) && 2 <= size <= 0x4000_0000
    }

    open spec fn setup_wf(s: &Setup) -> bool {
        s.wf()
    }

    open spec fn setup_size(s: &Setup) -> nat {
        s.domain_n.size as nat
    }

    open spec fn grid_wf(g: &Vec<Vec<Scalar>>) -> bool {
        has_shape(g@, g.len() as int, g.len() as int)
    }

    open spec fn grid_size(g: &Vec<Vec<Scalar>>) -> nat {
        g.len() as nat
    }

    open spec fn extended_wf(g: &Vec<Vec<Scalar>>) -> bool {
        g.len() % 2 == 0 && has_shape(g@, g.len() as int, g.len() as int / 2)
    }

    open spec fn extended_size(g: &Vec<Vec<Scalar>>) -> nat {
        (g.len() / 2) as nat
    }

    open spec fn commits_len(c: &Vec<Option<[u8; 48]>>) -> nat {
        c.len() as nat
    }

    open spec fn opens_len(o: &Vec<Option<[u8; 48]>>) -> nat {
        o.len() as nat
    }

    open spec fn bytes() -> nat {
        31
    }

    open spec fn is_extended(s: &Setup, g: &Vec<Vec<Scalar>>, e: &Vec<Vec<Scalar>>) -> bool {
        is_extended_grid(g@, e@, s.domain_n, s.domain_2n)
    }

    open spec fn are_commits(s: &Setup, g: &Vec<Vec<Scalar>>, c: &Vec<Option<[u8; 48]>>) -> bool {
        are_row_commitments(s.ck, g@, c@)
    }

    open spec fn are_opens(s: &Setup, g: &Vec<Vec<Scalar>>, o: &Vec<Option<[u8; 48]>>) -> bool {
        exists|j: int| 0 <= j < s.domain_n.size && #[trigger] are_column_openings(*s, g@, j, o@)
    }

    fn do_setup(size: usize, rng: &mut StdRng) -> (s: Setup)
        ensures
            has_key_for(s, size as int),
    {
        proof {
            lemma_double_is_power_of_two(size as int);
        }
        let ck = match setup_parameters(size - 1, rng) {
            Some(pp) => match trim_parameters(&pp, size - 1) {
                Some(keys) => {
                    proof {
                        assert(params_powers(pp).take(size as int) =~= params_powers(pp));
                    }
                    Some(keys.0)
                },
                None => None,
            },
            None => None,
        };
        Setup { ck, domain_n: make_domain(size), domain_2n: make_domain(2 * size) }
    }

    fn rand_grid(size: usize, rng: &mut StdRng) -> (g: Vec<Vec<Scalar>>) {
        let mut grid: Vec<Vec<Scalar>> = Vec::new();
        let mut i: usize = 0;
        while i < size
            invariant
                0 <= i <= size,
                has_shape(grid@, i as int, size as int),
            decreases size - i,
        {
            let mut row: Vec<Scalar> = Vec::new();
            let mut j: usize = 0;
            while j < size
                invariant
                    0 <= j <= size,
                    row.len() == j,
                    all_wf(row@),
                decreases size - j,
            {
                let x = Scalar::rand(rng);
                row.push(x);
                j = j + 1;
            }
            grid.push(row);
            i = i + 1;
        }
        grid
    }

    fn extend_grid(s: &Setup, g: &Vec<Vec<Scalar>>) -> (e: Vec<Vec<Scalar>>) {
        extend_grid(s, g)
    }

    fn make_commits(s: &Setup, g: &Vec<Vec<Scalar>>) -> (c: Vec<Option<[u8; 48]>>) {
        make_commits(s, g)
    }

    fn open_column(s: &Setup, g: &Vec<Vec<Scalar>>, rng: &mut StdRng) -> (o: Vec<Option<[u8; 48]>>) {
        proof {
            lemma_pow2_pos(s.domain_n.log_size_of_group as nat);
        }
        let j = rand_index(rng, s.domain_n.size());
        let o = open_column_at(s, g, j);
        proof {
            assert(are_column_openings(*s, g@, j as int, o@));
        }
        o
    }

    fn bytes_per_elem() -> (r: usize) {
        31
    }
}

} // verus!
