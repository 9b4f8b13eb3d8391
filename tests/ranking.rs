use fzk::ieee::{at_least_one, clamp_unit, ONE_BITS};
use fzk::{rank, rank_scores};

fn strings(xs: &[&str]) -> Vec<String> {
    xs.iter().map(|s| s.to_string()).collect()
}

#[test]
fn chr_matches_chrome_and_chromium_not_bash() {
    let cands = strings(&["chrome", "chromium", "bash"]);
    let r = rank("chr", &cands, 0.3f32.to_bits(), 5);
    let names: Vec<&str> = r.iter().map(|m| cands[m.0].as_str()).collect();
    assert_eq!(names, vec!["chrome", "chromium"]);
    assert!(f32::from_bits(r[0].1) >= f32::from_bits(r[1].1));
    assert_eq!(f32::from_bits(r[0].1), 0.75);
    assert_eq!(f32::from_bits(r[1].1), 0.75);
}

#[test]
fn pid_query_ranks_exact_above_partial() {
    let cands = strings(&["142", "42", "9999"]);
    let r = rank("42", &cands, 0.3f32.to_bits(), 5);
    let names: Vec<&str> = r.iter().map(|m| cands[m.0].as_str()).collect();
    assert_eq!(names, vec!["42", "142"]);
    assert_eq!(f32::from_bits(r[0].1), 1.0);
    assert!(f32::from_bits(r[1].1) < 1.0);
}

#[test]
fn rank_scores_orders_by_score_then_position() {
    let scores = vec![5, 9, 5, 1, 9, 7];
    assert_eq!(rank_scores(&scores, 5, 10), vec![1, 4, 5, 0, 2]);
    assert_eq!(rank_scores(&scores, 5, 3), vec![1, 4, 5]);
    assert_eq!(rank_scores(&scores, 10, 3), Vec::<usize>::new());
    assert_eq!(rank_scores(&Vec::new(), 0, 3), Vec::<usize>::new());
    assert_eq!(rank_scores(&scores, 0, 0), Vec::<usize>::new());
}

#[test]
fn higher_threshold_gives_a_prefix() {
    let scores = vec![3, 8, 6, 8, 2, 6];
    let low = rank_scores(&scores, 2, 4);
    let high = rank_scores(&scores, 6, 4);
    assert_eq!(low, vec![1, 3, 2, 5]);
    assert_eq!(high, vec![1, 3, 2, 5]);
    let higher = rank_scores(&scores, 7, 4);
    assert_eq!(higher, vec![1, 3]);
    assert!(higher.iter().all(|i| low.contains(i)));
}

#[test]
fn ranking_is_sorted_and_bounded() {
    let cands = strings(&["bash", "basher", "bas", "zsh", "bashrc", "b"]);
    let r = rank("bash", &cands, 0.0f32.to_bits(), 4);
    assert_eq!(r.len(), 4);
    for w in r.windows(2) {
        assert!(f32::from_bits(w[0].1) >= f32::from_bits(w[1].1));
    }
    assert_eq!(cands[r[0].0], "bash");
}

#[test]
fn unit_clamp_handles_edges() {
    assert_eq!(clamp_unit(0.5f32.to_bits()), 0.5f32.to_bits());
    assert_eq!(clamp_unit(2.0f32.to_bits()), ONE_BITS);
    assert_eq!(clamp_unit(f32::INFINITY.to_bits()), ONE_BITS);
    assert_eq!(clamp_unit((-0.5f32).to_bits()), 0);
    assert_eq!(clamp_unit(f32::NAN.to_bits()), 0);
    assert_eq!(f32::from_bits(clamp_unit(1.5f32.to_bits())), 1.0);
}

#[test]
fn interval_is_at_least_one() {
    assert_eq!(at_least_one(3.0f32.to_bits()), 3.0f32.to_bits());
    assert_eq!(at_least_one(0.75f32.to_bits()), 1.0f32.to_bits());
    assert_eq!(at_least_one((-2.0f32).to_bits()), 1.0f32.to_bits());
    assert_eq!(at_least_one(f32::NAN.to_bits()), 1.0f32.to_bits());
}
