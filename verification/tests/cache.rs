use parecode::cache::{age_str, CacheHit, FileCache, OnDisk, RangeHit};

fn at(path: &str) -> OnDisk {
    OnDisk { key: path.to_string(), mtime: None }
}

#[test]
fn test_store_and_full_check() {
    let mut cache = FileCache::default();
    cache.next_turn();
    cache.store("test.txt", at("test.txt"), "line one\nline two\nline three".to_string());
    let hit = cache.check(&at("test.txt")).unwrap();
    assert!(hit.content.contains("line one"));
    assert_eq!(hit.turns_ago, 0);
}

#[test]
fn test_check_range_hit() {
    let mut cache = FileCache::default();
    cache.next_turn();
    cache.store(
        "test.txt",
        at("test.txt"),
        "line one\nline two\nline three\nline four\nline five".to_string(),
    );
    let hit = cache.check_range("test.txt", &at("test.txt"), 1, 4).unwrap();
    assert!(hit.content.contains("line two"));
    assert!(hit.content.contains("line three"));
    assert!(hit.content.contains("line four"));
    assert!(!hit.content.contains("line one"));
    assert!(!hit.content.contains("line five"));
}

#[test]
fn test_check_range_miss_on_uncached_file() {
    let cache = FileCache::default();
    assert!(cache.check_range("nonexistent.txt", &at("nonexistent.txt"), 0, 10).is_none());
}

#[test]
fn test_ranged_cache_serves_any_window() {
    let mut cache = FileCache::default();
    cache.store(
        "big.rs",
        at("big.rs"),
        (0..100).map(|i| format!("line {i}")).collect::<Vec<_>>().join("\n"),
    );
    let h1 = cache.check_range("big.rs", &at("big.rs"), 0, 30).unwrap();
    assert!(h1.content.contains("line 0"));
    assert!(h1.content.contains("line 29"));
    let h2 = cache.check_range("big.rs", &at("big.rs"), 50, 80).unwrap();
    assert!(h2.content.contains("line 50"));
    assert!(h2.content.contains("line 79"));
}

#[test]
fn test_store_lines() {
    let mut cache = FileCache::default();
    let lines: Vec<String> = vec!["alpha".to_string(), "beta".to_string(), "gamma".to_string()];
    cache.store_lines("f.rs", at("f.rs"), lines);
    let hit = cache.check(&at("f.rs")).unwrap();
    assert!(hit.content.contains("alpha"));
    let range_hit = cache.check_range("f.rs", &at("f.rs"), 0, 2).unwrap();
    assert!(range_hit.content.contains("alpha"));
    assert!(range_hit.content.contains("beta"));
}

#[test]
fn test_invalidate() {
    let mut cache = FileCache::default();
    cache.store("test.txt", at("test.txt"), "content".to_string());
    cache.invalidate("test.txt");
    assert!(cache.check(&at("test.txt")).is_none());
    assert!(cache.check_range("test.txt", &at("test.txt"), 0, 5).is_none());
}

#[test]
fn test_invalidate_if_mentioned() {
    let mut cache = FileCache::default();
    cache.store("test.txt", at("test.txt"), "content".to_string());
    cache.invalidate_if_mentioned("sed -i test.txt");
    assert!(cache.check(&at("test.txt")).is_none());
}

#[test]
fn test_range_clamping() {
    let mut cache = FileCache::default();
    cache.store("small.rs", at("small.rs"), "a\nb\nc".to_string());
    let hit = cache.check_range("small.rs", &at("small.rs"), 0, 999).unwrap();
    assert!(hit.content.contains("a"));
    assert!(hit.content.contains("c"));
}

#[test]
fn cache_test_age_str() {
    assert_eq!(age_str(0), "this turn");
    assert_eq!(age_str(1), "1 turn ago");
    assert_eq!(age_str(5), "5 turns ago");
}

#[test]
fn test_range_hit_message_prefix() {
    let msg = RangeHit { content: "x".to_string(), turns_ago: 2, range_lines: 10 }.into_message();
    assert!(msg.contains("cached range"));
    assert!(msg.contains("2 turns ago"));
}

#[test]
fn test_full_hit_message_prefix() {
    let msg = CacheHit { content: "x".to_string(), turns_ago: 1, total_lines: 50 }.into_message();
    assert!(msg.contains("cached version"));
    assert!(msg.contains("1 turn ago"));
}

#[test]
fn a_file_that_changed_on_disk_is_not_served() {
    let mut cache = FileCache::default();
    let old = OnDisk { key: "a.rs".to_string(), mtime: Some(10) };
    cache.store("a.rs", old, "one".to_string());
    cache.next_turn();
    cache.next_turn();
    let same = OnDisk { key: "a.rs".to_string(), mtime: Some(10) };
    assert_eq!(cache.check(&same).unwrap().turns_ago, 2);
    let newer = OnDisk { key: "a.rs".to_string(), mtime: Some(11) };
    assert!(cache.check(&newer).is_none());
    assert!(cache.check_range("a.rs", &newer, 0, 1).is_none());
}

#[test]
fn forgetting_one_file_keeps_the_others() {
    let mut cache = FileCache::default();
    cache.store("a.rs", at("a.rs"), "one".to_string());
    cache.store("b.rs", at("b.rs"), "two".to_string());
    cache.invalidate("a.rs");
    assert!(cache.check(&at("a.rs")).is_none());
    assert!(cache.check(&at("b.rs")).unwrap().content.contains("two"));
}
