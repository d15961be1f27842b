use parecode::context_weights::{
    ContextWeights, WEIGHT_DEFAULT, WEIGHT_MAX, WEIGHT_MIN, WEIGHT_USEFUL, WEIGHT_WASTED,
};

fn files(names: &[&str]) -> Vec<String> {
    names.iter().map(|s| s.to_string()).collect()
}

#[test]
fn test_adjust_increases_modified_files() {
    let mut w = ContextWeights::default();
    w.adjust(&files(&["src/plan.rs"]), &files(&["src/plan.rs", "src/config.rs"]));

    assert!(w._get("src/plan.rs") > WEIGHT_DEFAULT, "modified file should be > 1.0");
    assert!(w._get("src/config.rs") < WEIGHT_DEFAULT, "wasted file should be < 1.0");
    assert_eq!(w._get("src/plan.rs"), WEIGHT_DEFAULT + WEIGHT_USEFUL);
    assert_eq!(w._get("src/config.rs"), WEIGHT_DEFAULT - WEIGHT_WASTED);
}

#[test]
fn test_weight_clamp() {
    let mut w = ContextWeights::default();
    let file = "src/plan.rs".to_string();

    for _ in 0..50 {
        w.adjust(&vec![file.clone()], &vec![file.clone()]);
    }
    assert!(w._get(&file) <= WEIGHT_MAX, "weight should not exceed max");
    assert_eq!(w._get(&file), WEIGHT_MAX);

    let mut w2 = ContextWeights::default();
    for _ in 0..50 {
        w2.adjust(&vec![], &vec![file.clone()]);
    }
    assert!(w2._get(&file) >= WEIGHT_MIN, "weight should not go below min");
    assert_eq!(w2._get(&file), WEIGHT_MIN);
}

#[test]
fn test_mean_weight_empty() {
    let w = ContextWeights::default();
    assert_eq!(w._mean_weight(&vec![]), (WEIGHT_DEFAULT as i128, 1));
}

#[test]
fn test_mean_weight_mixed() {
    let mut w = ContextWeights::default();
    for _ in 0..5 {
        w.adjust(&files(&["src/plan.rs"]), &files(&["src/plan.rs"]));
    }
    let (sum, n) = w._mean_weight(&files(&["src/plan.rs", "src/config.rs"]));
    assert!(
        sum > WEIGHT_DEFAULT as i128 * n as i128,
        "mean should be > 1.0 when one file is elevated"
    );
    assert_eq!((sum, n), (50, 2));
}

#[test]
fn a_file_that_was_never_seen_has_the_default_weight() {
    let w = ContextWeights::default();
    assert_eq!(w.file_weights.len(), 0);
    assert_eq!(w._get("anything"), WEIGHT_DEFAULT);
}

#[test]
fn means_are_compared_exactly() {
    let mut w = ContextWeights::default();
    w.adjust(&files(&["a.rs"]), &files(&["a.rs", "b.rs"]));
    assert!(w.weigh_as_much(&files(&["a.rs"]), &files(&["c.rs"])));
    assert!(!w.weigh_as_much(&files(&["c.rs"]), &files(&["a.rs"])));
    assert!(w.weigh_as_much(&files(&["c.rs"]), &files(&[])));
    assert!(w.weigh_as_much(&files(&[]), &files(&["c.rs"])));
    assert!(!w.weigh_as_much(&files(&["a.rs", "b.rs"]), &files(&["a.rs"])));
    assert!(w.weigh_as_much(&files(&["a.rs", "b.rs"]), &files(&["b.rs"])));
}

#[test]
fn weights_come_back_into_their_range() {
    let mut w = ContextWeights::default();
    w.file_weights.insert("low.rs".to_string(), -100);
    w.file_weights.insert("high.rs".to_string(), 100);
    w.adjust(&files(&["low.rs"]), &files(&["high.rs"]));
    assert_eq!(w._get("low.rs"), WEIGHT_MIN);
    assert_eq!(w._get("high.rs"), WEIGHT_MAX);
}
