use color_columns::stages::playing::scoring::Scoring;

#[test]
fn new_scoring_starts_clean() {
    let scoring = Scoring::new(120);
    assert_eq!(scoring.score, 0);
    assert_eq!(scoring.maxcombo, 0);
    assert_eq!(scoring.highscore, 120);
    assert!(!scoring.is_new_maxcombo);
    assert!(!scoring.is_new_highscore);
}

#[test]
fn single_minimal_run_scores_three() {
    let mut scoring = Scoring::new(0);
    scoring.update_from_matches((vec![3], 1));
    assert_eq!(scoring.score, 3);
}

#[test]
fn run_of_four_scores_five() {
    // 3 base points plus the length bonus 2, times one run, times chain 1.
    let mut scoring = Scoring::new(0);
    scoring.update_from_matches((vec![4], 1));
    assert_eq!(scoring.score, 5);
}

#[test]
fn run_of_six_has_triangular_bonus() {
    // Bonus 2 + 3 + 4 = 9, so 12 points.
    let mut scoring = Scoring::new(0);
    scoring.update_from_matches((vec![6], 1));
    assert_eq!(scoring.score, 12);
}

#[test]
fn simultaneous_runs_multiply_by_their_count() {
    // (3 + 3) points times 2 runs times chain 1.
    let mut scoring = Scoring::new(0);
    scoring.update_from_matches((vec![3, 3], 1));
    assert_eq!(scoring.score, 12);
}

#[test]
fn chain_depth_multiplies_the_combo() {
    let mut scoring = Scoring::new(0);
    scoring.update_from_matches((vec![3], 2));
    assert_eq!(scoring.score, 6);
}

#[test]
fn score_never_decreases() {
    let mut scoring = Scoring::new(0);
    let mut previous = 0;
    for chain in 1..6 {
        scoring.update_from_matches((vec![3, 4], chain));
        assert!(scoring.score >= previous);
        previous = scoring.score;
    }
}

#[test]
fn maxcombo_accumulates_within_a_cascade() {
    let mut scoring = Scoring::new(0);
    // First cascade: 3, then chained 6: accumulator 9, a new maximum.
    scoring.update_from_matches((vec![3], 1));
    assert!(scoring.is_new_maxcombo);
    assert_eq!(scoring.maxcombo, 3);
    scoring.update_from_matches((vec![3], 2));
    assert!(scoring.is_new_maxcombo);
    assert_eq!(scoring.maxcombo, 9);
    // A new cascade resets the accumulator: 3 does not beat 9.
    scoring.update_from_matches((vec![3], 1));
    assert!(!scoring.is_new_maxcombo);
    assert_eq!(scoring.maxcombo, 9);
}

#[test]
fn new_maxcombo_fires_iff_accumulator_beats_maximum() {
    let mut scoring = Scoring::new(0);
    scoring.update_from_matches((vec![5], 1));
    assert_eq!(scoring.is_new_maxcombo, scoring.maxcombo_accumulator > 0);
    let before = scoring.maxcombo;
    scoring.update_from_matches((vec![3], 1));
    assert_eq!(scoring.is_new_maxcombo, scoring.maxcombo_accumulator > before);
}

#[test]
fn new_highscore_fires_at_most_once_per_game() {
    let mut scoring = Scoring::new(4);
    scoring.update_from_matches((vec![3], 1));
    // 3 does not beat 4 yet.
    assert!(!scoring.is_new_highscore);
    scoring.update_from_matches((vec![3], 1));
    // 6 beats 4: fires once.
    assert!(scoring.is_new_highscore);
    scoring.update_from_matches((vec![3], 1));
    assert!(!scoring.is_new_highscore);
    scoring.update_from_matches((vec![6], 1));
    assert!(!scoring.is_new_highscore);
}
