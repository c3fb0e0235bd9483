use fractal_codec::encode::{select_best, Candidate, EncodedBlock, ERR_INIT_BITS};

fn cand(meta: u32, err_bits: u32) -> Candidate {
    Candidate { meta, alpha_bits: meta + 100, beta_bits: meta + 200, err_bits }
}

#[test]
fn search_picks_strict_minimum() {
    let cands = vec![cand(0, 50), cand(1, 10), cand(2, 30)];
    let best = select_best(&cands);
    assert_eq!(best.meta, 1);
    assert_eq!(best.alpha_bits, 101);
    assert_eq!(best.beta_bits, 201);
    assert_eq!(best.unused, 0);
}

#[test]
fn search_tie_goes_to_first_occurrence() {
    let cands = vec![cand(0, 40), cand(1, 7), cand(2, 7), cand(3, 7)];
    let best = select_best(&cands);
    assert_eq!(best.meta, 1);
}

#[test]
fn search_empty_candidate_list_yields_zero_record() {
    let best = select_best(&Vec::new());
    assert_eq!(best, EncodedBlock { meta: 0, unused: 0, alpha_bits: 0, beta_bits: 0 });
}

#[test]
fn search_candidate_at_initial_bound_is_not_taken() {
    // the running minimum starts at the largest finite value and must be
    // beaten strictly; bit patterns above it (infinity, NaN) lose too
    let cands = vec![cand(0, ERR_INIT_BITS), cand(1, 0x7F800000), cand(2, 0x7FC00000)];
    let best = select_best(&cands);
    assert_eq!(best, EncodedBlock { meta: 0, unused: 0, alpha_bits: 0, beta_bits: 0 });
}

#[test]
fn search_error_bit_order_matches_float_order() {
    // non-negative single-precision values order as their bit patterns do
    let values = [0.0f32, 1e-20, 0.5, 1.0, 2.0, 100.0, 1e20];
    for w in values.windows(2) {
        assert!(w[0].to_bits() < w[1].to_bits());
    }
    let cands = vec![cand(0, 2.0f32.to_bits()), cand(1, 0.5f32.to_bits()), cand(2, 1.0f32.to_bits())];
    assert_eq!(select_best(&cands).meta, 1);
}

#[test]
fn search_two_runs_are_identical() {
    let cands = vec![cand(5, 33), cand(6, 12), cand(7, 12), cand(8, 90)];
    let first = select_best(&cands);
    let second = select_best(&cands);
    assert_eq!(first, second);
}
