use poly_commit_benches::ark::domain::Radix2EvaluationDomain;
use poly_commit_benches::ark::field::{test_rng, Scalar};
use poly_commit_benches::ark::grid_bench::{
    extend_grid, make_commits, open_column, open_column_at, KzgGridBench, Setup,
};
use poly_commit_benches::ark::kzg::{Commitment, Proof, KZG10};
use poly_commit_benches::ark::poly::DensePolynomial;
use poly_commit_benches::GridBench;

fn setup(size: usize) -> (Setup, poly_commit_benches::ark::kzg::VerifierKey) {
    let rng = &mut test_rng();
    let pp = KZG10::setup(size - 1, false, rng).unwrap();
    let (powers, vk) = KZG10::trim(&pp, size - 1).unwrap();
    let s = Setup {
        powers,
        domain_n: Radix2EvaluationDomain::new(size).unwrap(),
        domain_2n: Radix2EvaluationDomain::new(2 * size).unwrap(),
    };
    (s, vk)
}

#[test]
fn extended_grid_keeps_the_rows_of_the_grid() {
    let rng = &mut test_rng();
    let s = KzgGridBench::do_setup(4, rng);
    assert_eq!(s.powers.size(), 4);
    assert_eq!(s.domain_n.size(), 4);
    assert_eq!(s.domain_2n.size(), 8);
    let grid = KzgGridBench::rand_grid(4, rng);
    assert_eq!(grid.len(), 4);
    assert!(grid.iter().all(|row| row.len() == 4));
    assert!(grid[0][0] != grid[0][1]);
    let eg = <KzgGridBench as GridBench>::extend_grid(&s, &grid);
    assert_eq!(eg.len(), 8);
    assert!(eg.iter().all(|row| row.len() == 4));
    for i in 0..4 {
        assert_eq!(eg[2 * i], grid[i]);
    }
    // Each column is the extension of the grid's column.
    for j in 0..4 {
        let mut col: Vec<_> = (0..4).map(|i| grid[i][j]).collect();
        s.domain_n.ifft_in_place(&mut col);
        s.domain_2n.fft_in_place(&mut col);
        for i in 0..8 {
            assert_eq!(eg[i][j], col[i]);
        }
    }
    assert_eq!(KzgGridBench::bytes_per_elem(), 31);
}

#[test]
fn extended_commitments_are_the_commitments_to_the_extended_rows() {
    let rng = &mut test_rng();
    let (s, vk) = setup(4);
    let grid = KzgGridBench::rand_grid(4, rng);
    let eg = extend_grid(&s, &grid);
    let commits = make_commits(&s, &eg);
    assert_eq!(commits.len(), 8);
    for i in 0..8 {
        let row = DensePolynomial::from_coefficients_vec(eg[i].clone());
        assert_eq!(KZG10::commit(&s.powers, &row).unwrap().0, commits[i]);
    }
    for j in 0..4 {
        let opens = open_column_at(&s, &eg, j);
        assert_eq!(opens.len(), 8);
        let point = s.domain_n.element(j);
        for i in 0..8 {
            let row = DensePolynomial::from_coefficients_vec(eg[i].clone());
            assert_eq!(KZG10::open(&s.powers, &row, point).unwrap().w, opens[i]);
            let value = row.evaluate(&point);
            assert_eq!(
                KZG10::check(&vk, &Commitment(commits[i]), point, value, &Proof { w: opens[i] }),
                Ok(true)
            );
        }
    }
    // A drawn column is one of the four.
    let opens = open_column(&s, &eg, rng);
    assert!((0..4).any(|j| open_column_at(&s, &eg, j) == opens));
    assert_eq!(<KzgGridBench as GridBench>::make_commits(&s, &eg), commits);
    assert_eq!(<KzgGridBench as GridBench>::open_column(&s, &eg, &mut test_rng()).len(), 8);
}

#[test]
fn the_grid_setup_keeps_every_power_of_its_reference_string() {
    let s = KzgGridBench::do_setup(8, &mut test_rng());
    assert_eq!(s.domain_n.size(), 8);
    assert_eq!(s.domain_2n.size(), 16);
    assert_eq!(s.powers.powers_of_g.len(), 8);
    assert_eq!(s.powers.powers_of_gamma_g.len(), 8);
    // The same generator gives the same reference string.
    let pp = KZG10::setup(7, false, &mut test_rng()).unwrap();
    assert_eq!(s.powers.powers_of_g, pp.powers_of_g);
}
