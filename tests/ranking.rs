use meta_media_search::ranking::top_k;
use meta_media_search::score_order::score_key;

fn keys(scores: &[f32]) -> Vec<u32> {
    scores.iter().map(|s| score_key(s.to_bits())).collect()
}

#[test]
fn keys_follow_numeric_order() {
    let ordered = [f32::NEG_INFINITY, -3.5, -1.0, -1e-30, 0.0, 1e-30, 1.0, 2.5, f32::INFINITY];
    for w in ordered.windows(2) {
        assert!(score_key(w[0].to_bits()) < score_key(w[1].to_bits()));
    }
}

#[test]
fn both_zeros_share_a_key() {
    assert_eq!(score_key((-0.0f32).to_bits()), score_key(0.0f32.to_bits()));
    assert_eq!(score_key(0.0f32.to_bits()), 0x8000_0000);
}

#[test]
fn nan_keys_sit_at_the_ends() {
    let nan = f32::NAN;
    assert!(score_key(nan.to_bits()) > score_key(f32::INFINITY.to_bits()));
    assert!(score_key((-nan).to_bits()) < score_key(f32::NEG_INFINITY.to_bits()));
}

#[test]
fn descending_ranking_with_stable_ties() {
    let k = keys(&[0.5, 0.9, 0.5, 0.9, 0.1]);
    assert_eq!(top_k(&k, true, 5), vec![1, 3, 0, 2, 4]);
    assert_eq!(top_k(&k, true, 3), vec![1, 3, 0]);
}

#[test]
fn ascending_ranking_with_stable_ties() {
    let k = keys(&[2.0, -1.0, 2.0, 0.0]);
    assert_eq!(top_k(&k, false, 4), vec![1, 3, 0, 2]);
    assert_eq!(top_k(&k, false, 1), vec![1]);
}

#[test]
fn zero_k_gives_nothing() {
    let k = keys(&[1.0, 2.0]);
    assert!(top_k(&k, true, 0).is_empty());
}

#[test]
fn large_k_gives_everything_sorted() {
    let k = keys(&[1.0, 3.0, 2.0]);
    assert_eq!(top_k(&k, true, 100), vec![1, 2, 0]);
    assert_eq!(top_k(&Vec::new(), true, 100), Vec::<usize>::new());
}

#[test]
fn top_k_over_ten_thousand_scores() {
    let mut scores = Vec::new();
    for i in 0..10000usize {
        scores.push(((i * 7919) % 10007) as f32);
    }
    let r = top_k(&keys(&scores), true, 10);
    assert_eq!(r.len(), 10);
    for w in r.windows(2) {
        assert!(scores[w[0]] >= scores[w[1]]);
    }
}

#[test]
fn scores_rank_by_value() {
    let bits: Vec<u32> = [0.25f32, -2.0, 0.0, 7.5, -0.0].iter().map(|s| s.to_bits()).collect();
    assert_eq!(meta_media_search::ranking::rank_scores(&bits, true, 5), vec![3, 0, 2, 4, 1]);
    assert_eq!(meta_media_search::ranking::rank_scores(&bits, false, 2), vec![1, 2]);
}
