use polyverse_agent::episodic::{episodic_score, metadata_matches_user, rank_top};

#[test]
fn test_score_without_decay() {
    // distance 0, age 0: similarity 1, decay 1 — the importance comes back
    assert_eq!(episodic_score(0, 0, 7_000_000, 606_531), 7_000_000);
    // distance 1.0 halves the similarity
    assert_eq!(episodic_score(1_000_000, 0, 7_000_000, 606_531), 3_500_000);
}

#[test]
fn test_score_decays_per_day() {
    // one day at factor e^(-0.5) ~ 0.606531
    let fresh = episodic_score(0, 0, 1_000_000, 606_531);
    let aged = episodic_score(0, 1, 1_000_000, 606_531);
    assert_eq!(fresh, 1_000_000);
    assert_eq!(aged, 606_531);
    let week = episodic_score(0, 7, 1_000_000, 606_531);
    assert!(week < aged / 8);
}

#[test]
fn test_rank_top_orders_by_score() {
    let scores = vec![10, 50, 30, 40, 20];
    let picks = rank_top(&scores, 3);
    assert_eq!(picks, vec![1, 3, 2]);
    let all = rank_top(&scores, 10);
    assert_eq!(all.len(), 5);
    assert_eq!(all[0], 1);
    assert_eq!(all[4], 0);
}

#[test]
fn test_metadata_user_match() {
    let meta = "{\"username\":\"alice\",\"message_count\":3,\"first_message_timestamp\":100}";
    assert!(metadata_matches_user(meta, "alice"));
    assert!(!metadata_matches_user(meta, "bob"));
    assert!(!metadata_matches_user(meta, "alic"));
}
