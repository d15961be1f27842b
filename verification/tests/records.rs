use parecode::sessions::{
    cwd_basename, find_latest_for_cwd, list_sessions, open_session, prune_old_sessions,
    record_lines, session_at, sessions_dir, ConversationTurn,
};
use parecode::task_memory::{
    extract_summary, find_relevant, find_relevant_at, load_recent, TaskRecord,
};
use parecode::telemetry;
use parecode::telemetry::{telemetry_path, Aggregate, SessionStats};

fn strings(v: &[&str]) -> Vec<String> {
    v.iter().map(|s| s.to_string()).collect()
}

// ── Sessions ─────────────────────────────────────────────────────────────────

#[test]
fn test_cwd_basename() {
    assert_eq!(cwd_basename("/home/user/projects/foo"), "foo");
    assert_eq!(cwd_basename("foo"), "foo");
    assert_eq!(cwd_basename("/"), "unknown");
    assert_eq!(cwd_basename(""), "unknown");
    assert_eq!(cwd_basename("/tmp/"), "tmp");
}

#[test]
fn test_sessions_dir_env_var() {
    assert!(sessions_dir(None, Some("/home/u")).contains("parecode/sessions"));
    assert!(sessions_dir(Some("/data"), None).contains("parecode/sessions"));
    assert!(sessions_dir(None, None).contains("parecode/sessions"));
}

#[test]
fn sessions_are_listed_newest_first() {
    let names = strings(&["100_foo.jsonl", "300_foo.jsonl", "notes.txt", "200_bar.jsonl"]);
    let list = list_sessions("/s", &names);
    let ids: Vec<&str> = list.iter().map(|(id, _)| id.as_str()).collect();
    assert_eq!(ids, vec!["300_foo", "200_bar", "100_foo"]);
    assert_eq!(list[0].1, "/s/300_foo.jsonl");
    let latest = find_latest_for_cwd(&list, "/home/u/bar").unwrap();
    assert_eq!(latest.0, "200_bar");
    assert!(find_latest_for_cwd(&list, "/home/u/none").is_none());
}

#[test]
fn the_newest_sessions_stay() {
    let sessions: Vec<(String, bool)> = [("5", false), ("4", true), ("3", false), ("2", false)]
        .iter()
        .map(|(name, empty)| (name.to_string(), *empty))
        .collect();
    assert_eq!(prune_old_sessions(&sessions, 2), strings(&["4", "2"]));
    assert_eq!(prune_old_sessions(&sessions, 5), strings(&["4"]));
}

#[test]
fn a_session_goes_on_where_it_was_left() {
    let s = session_at("/s", "/home/u/foo", 42);
    assert_eq!(s.id, "42_foo");
    assert_eq!(s.path, "/s/42_foo.jsonl");
    let turn = ConversationTurn {
        turn_index: 0,
        timestamp: 1234567890,
        user_message: "test".to_string(),
        agent_response: "response".to_string(),
        tool_summary: "read_file".to_string(),
    };
    let again = open_session(
        "/s",
        "/home/u/foo",
        Some(("42_foo".to_string(), "/s/42_foo.jsonl".to_string(), vec![turn])),
    );
    assert_eq!(again.id, "42_foo");
    assert_eq!(again._turns.len(), 1);
}

#[test]
fn records_stand_one_to_a_line() {
    assert_eq!(record_lines("a\n\n  \nb\n"), strings(&["a", "b"]));
    assert!(record_lines("").is_empty());
}

#[test]
fn an_appended_record_is_read_last() {
    let before = "{\"a\":1}\n\n{\"b\":2}\n";
    let after = format!("{before}{}\n", "{\"c\":3}");
    let mut expected = record_lines(before);
    expected.push("{\"c\":3}".to_string());
    assert_eq!(record_lines(&after), expected);
    assert_eq!(expected.len(), 3);
}

#[test]
fn a_session_is_found_in_its_directory() {
    let own = session_at("/s", "/home/u/foo", 42);
    let names = strings(&["77_other.jsonl", &format!("{}.jsonl", own.id)]);
    let list = list_sessions("/s", &names);
    let found = find_latest_for_cwd(&list, "/home/u/foo").unwrap();
    assert_eq!(found, (own.id, own.path));
}

// ── Tasks ────────────────────────────────────────────────────────────────────

const NOW: i64 = 1_700_000_000;

fn record_at(now: i64, task: &str, files: &[&str], summary: &str, days_ago: i64) -> TaskRecord {
    let ts = now - days_ago * 86_400;
    TaskRecord {
        id: format!("{ts}"),
        timestamp: ts,
        task: task.to_string(),
        outcome: "solved".to_string(),
        files_modified: strings(files),
        summary: summary.to_string(),
        tokens_used: 1000,
        files_in_context: vec![],
    }
}

fn make_record(task: &str, files: &[&str], summary: &str, days_ago: i64) -> TaskRecord {
    record_at(NOW, task, files, summary, days_ago)
}

#[test]
fn test_append_and_load_round_trip() {
    let r1 = make_record("fix the login bug", &["src/auth.rs"], "Fixed null check in login handler", 0);
    let r2 = make_record("add dark mode", &["src/tui/mod.rs"], "Added theme toggle to AppState", 1);

    let loaded = load_recent(vec![r1.clone(), r2.clone()], 10);
    assert_eq!(loaded.len(), 2);
    assert_eq!(loaded[0].task, r1.task);
    assert_eq!(loaded[1].task, r2.task);
}

#[test]
fn test_find_relevant_by_file_intersection() {
    let r_plan = make_record(
        "update planner",
        &["src/plan.rs", "src/narrative.rs"],
        "Updated generate_plan signature",
        1,
    );
    let r_tui = make_record(
        "fix spinner",
        &["src/tui/mod.rs", "src/tui/render.rs"],
        "Fixed splash spinner animation",
        2,
    );
    let r_unrelated = make_record("update readme", &["README.md"], "Updated documentation", 3);

    let candidates = strings(&["src/plan.rs", "src/narrative.rs"]);
    let relevant = find_relevant_at(
        vec![r_plan.clone(), r_tui.clone(), r_unrelated.clone()],
        &candidates,
        3,
        NOW,
    );

    assert!(!relevant.is_empty());
    assert_eq!(relevant[0].task, r_plan.task);
    assert!(!relevant.iter().any(|r| r.task == r_unrelated.task));
}

#[test]
fn test_recency_breaks_ties() {
    let r_old = make_record("old task", &["src/plan.rs"], "Old summary", 10);
    let r_recent = make_record("recent task", &["src/plan.rs"], "Recent summary", 1);

    let candidates = strings(&["src/plan.rs"]);
    let relevant = find_relevant_at(vec![r_old.clone(), r_recent.clone()], &candidates, 2, NOW);

    assert_eq!(relevant.len(), 2);
    assert_eq!(relevant[0].task, r_recent.task);
    assert_eq!(find_relevant(vec![r_old], &candidates, 2).len(), 1);
}

#[test]
fn test_extract_summary_short_text() {
    let text = "I updated the multi-turn loop signature.";
    let s = extract_summary(text);
    assert_eq!(s, text);
}

#[test]
fn test_extract_summary_long_text_ends_at_sentence() {
    let text = "I updated the generate_plan function. It now accepts a narrative parameter. \
                There are many other things in this response that should be truncated away because \
                they are beyond the 150 character limit we set for summaries.";
    let s = extract_summary(text);
    assert!(s.ends_with('.') || s.ends_with('!') || s.ends_with('?') || s.ends_with('…'));
    assert!(s.len() <= 155);
}

#[test]
fn test_extract_summary_skips_markdown() {
    let text = "# Summary\n- Fixed the bug\n- Updated tests\n\nI updated the login handler to fix the null check.";
    let s = extract_summary(text);
    assert!(!s.contains("# Summary"));
    assert!(!s.is_empty());
}

#[test]
fn an_answer_without_prose_is_summed_up_by_its_text() {
    assert_eq!(extract_summary("- Fixed the bug"), "- Fixed the bug");
    assert_eq!(extract_summary("# Done\n- one\n"), "# Done\n- one");
    assert_eq!(extract_summary("  \n"), "");
    let long = extract_summary(&format!("- {}", "é".repeat(200)));
    assert_eq!(long, format!("- {}…", "é".repeat(148)));
    let whole = "é".repeat(150);
    assert_eq!(extract_summary(&whole), whole);
}

#[test]
fn test_load_recent_empty_file() {
    let records = load_recent(vec![], 10);
    assert!(records.is_empty());
}

#[test]
fn test_load_recent_respects_limit() {
    let records: Vec<TaskRecord> = (0..10)
        .map(|i| make_record(&format!("task {i}"), &["src/foo.rs"], "summary", i))
        .collect();
    let loaded = load_recent(records, 3);
    assert_eq!(loaded.len(), 3);
}

#[test]
fn the_newest_records_are_kept() {
    let records: Vec<TaskRecord> = [4, 0, 9, 2]
        .iter()
        .map(|days| make_record(&format!("task {days}"), &[], "summary", *days))
        .collect();
    let kept: Vec<String> = load_recent(records, 3).into_iter().map(|r| r.task).collect();
    assert_eq!(kept, strings(&["task 0", "task 2", "task 4"]));
}

#[test]
fn task_memory_test_age_str() {
    let now = chrono::Utc::now().timestamp();
    let now_rec = record_at(now, "t", &[], "s", 0);
    let old_rec = record_at(now, "t", &[], "s", 5);

    let age = now_rec.age_str();
    assert!(age == "just now" || age.contains("m ago"), "unexpected: {age}");

    let age_old = old_rec.age_str();
    assert!(age_old.contains("d ago"), "unexpected: {age_old}");
    assert_eq!(old_rec.age_str_at(now), "5d ago");
    assert_eq!(old_rec.days_ago_at(now), 5);
}

#[test]
fn a_new_record_is_of_its_time() {
    let r = TaskRecord::new_at(77, "t", "solved", vec![], "s", 9, vec![]);
    assert_eq!(r.timestamp, 77);
    assert_eq!(r.tokens_used, 9);
    let before = chrono::Utc::now().timestamp();
    let r = TaskRecord::new("t", "solved", vec![], "s", 9, vec![]);
    assert!(r.timestamp >= before);
    assert_eq!(r.days_ago(), 0);
}

// ── Counts ───────────────────────────────────────────────────────────────────

#[test]
fn test_session_stats_initial_state() {
    let stats = SessionStats::default();
    assert_eq!(stats.tasks_completed, 0);
    assert_eq!(stats.total_input_tokens, 0);
    assert_eq!(stats.total_output_tokens, 0);
    assert_eq!(stats.total_tool_calls, 0);
    assert_eq!(stats.total_compressed, 0);
    assert_eq!(stats.budget_enforcements, 0);
    assert_eq!(stats.peak_context_pct, 0);
    assert!(stats.records.is_empty());
}

#[test]
fn tasks_add_up() {
    let mut stats = SessionStats::default();
    let r = stats.record_task_at(5, "s", "c", &"x".repeat(100), 100, 20, 3, 1, 9, "m", "p");
    assert_eq!(r.task_preview, "x".repeat(80));
    stats.record_task("s", "c", "t", 10, 2, 1, 0, 1, "m", "p");
    assert_eq!(stats.tasks_completed, 2);
    assert_eq!(stats.total_tokens(), 132);
    assert_eq!(stats.avg_tokens_per_task(), 66);
    stats.update_inflight(7, 8, 1);
    assert_eq!(stats.live_total_tokens(), 147);
    stats.clear_inflight();
    assert_eq!(stats.live_total_tokens(), 132);
    let records: Vec<telemetry::TaskRecord> = stats.records;
    let a = Aggregate::from_records(&records);
    assert_eq!(a.tasks, 2);
    assert_eq!(a.total_tokens(), 132);
    assert_eq!(a._avg_tokens_per_task(), 66);
    assert_eq!(a.duration_secs, 10);
}

#[test]
fn counts_are_flushed_after_a_while() {
    let mut stats = SessionStats::default();
    stats.last_flush_ts = 100;
    stats.update_inflight(1, 1, 0);
    assert!(!stats.should_flush_at(110, 30));
    assert!(stats.should_flush_at(131, 30));
    assert!(!stats.should_flush_at(131, 30));
    stats.update_peak_context(40);
    stats.update_peak_context(30);
    assert_eq!(stats.peak_context_pct, 40);
    stats.record_budget_enforcement();
    assert_eq!(stats.budget_enforcements, 1);
}

#[test]
fn a_running_task_is_written_down_now_and_then() {
    let mut stats = SessionStats::default();
    assert!(stats.should_flush_at(1_000, 30));
    assert!(!stats.should_flush_at(1_029, 30));
    assert_eq!(stats.last_flush_ts, 1_000);
    assert!(stats.should_flush_at(1_030, 30));
    assert_eq!(stats.last_flush_ts, 1_030);
    assert!(stats.should_flush(30));
    assert!(stats.last_flush_ts > 1_030);
    assert!(!stats.should_flush(i64::MAX));
}

#[test]
fn telemetry_lies_in_the_data_directory() {
    assert!(telemetry_path(Some("/d"), None).starts_with("/d/parecode/"));
    assert!(telemetry_path(None, Some("/home/u")).starts_with("/home/u/.local/share/parecode/"));
}
