use poly_commit_benches::ark::field::test_rng;
use poly_commit_benches::ark::fft_bench::FftFieldBench;
use poly_commit_benches::test_enc_works;

#[test]
fn fft_bench_test_interp_bench() {
    let pts = test_enc_works::<FftFieldBench>(&mut test_rng());
    assert_eq!(pts.len(), 64);
}
