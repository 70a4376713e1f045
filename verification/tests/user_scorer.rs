use jaim::user_scorer::UserScorer;

#[test]
fn unrecorded_count_is_zero() {
    let scorer = UserScorer::new();
    assert_eq!(scorer.count("きょう", "今日"), 0);
    assert!(!scorer.is_dirty());
}

#[test]
fn record_counts_per_pair() {
    let mut scorer = UserScorer::new();
    for _ in 0..10 {
        scorer.record("きょう", "今日");
    }
    scorer.record("きょう", "京");
    assert_eq!(scorer.count("きょう", "今日"), 10);
    assert_eq!(scorer.count("きょう", "京"), 1);
    assert_eq!(scorer.count("きょう", "きょう"), 0);
    assert!(scorer.is_dirty());
    scorer.mark_saved();
    assert!(!scorer.is_dirty());
    assert_eq!(scorer.count("きょう", "今日"), 10);
}

#[test]
fn counts_round_trip() {
    let mut scorer = UserScorer::new();
    scorer.record("へんかん", "変換");
    scorer.record("へんかん", "変換");
    scorer.record("きょう", "きょう");
    let mut pairs = scorer.counts();
    pairs.sort();
    assert_eq!(pairs, vec![("きょう|きょう".to_string(), 1), ("へんかん|変換".to_string(), 2)]);
    let mut loaded = UserScorer::new();
    for (key, count) in &pairs {
        loaded.set_count(key, *count);
    }
    assert_eq!(loaded.count("へんかん", "変換"), 2);
    assert!(!loaded.is_dirty());
    loaded.set_count("へんかん|変換", 7);
    assert_eq!(loaded.count("へんかん", "変換"), 7);
    assert_eq!(loaded.counts().len(), 2);
}
