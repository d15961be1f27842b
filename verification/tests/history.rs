use parecode::history::{
    display_summarise, first_line, stale_stub, summarise, summarise_bash, summarise_list,
    truncate_to_lines, History, READ_FILE_CONTEXT_LINES,
};

// ── History ──────────────────────────────────────────────────────────────────

#[test]
fn test_history_record_stores_and_returns_summaries() {
    let mut history = History::default();
    let (model_out, display_out) = history.record("read_file", "file content here");

    assert_eq!(history.records.len(), 1);
    assert_eq!(history.records[0].tool_name, "read_file");
    assert_eq!(history.records[0].full_output, "file content here");
    assert_eq!(model_out, "file content here");
    assert!(display_out.starts_with("✓ Read"));
}

#[test]
fn test_compressed_count() {
    let mut history = History::default();

    history.record("read_file", &"x".repeat(100));
    let large_read = (1..=300).map(|i| format!("line {i}\n")).collect::<String>();
    history.record("read_file", &large_read);
    let long_bash = (0..50).map(|i| format!("output line {}\n", i)).collect::<String>();
    history.record("bash", &long_bash);

    assert_eq!(history.compressed_count(), 2);
}

#[test]
fn test_compress_reads_for() {
    let mut history = History::default();

    let long_output = "[src/main.rs — 100 lines]\n".to_string() + &"line x\n".repeat(50);
    history.record("read_file", &long_output);

    let summary_len = history.records[0].summary.len();
    assert!(summary_len > 200, "summary should be >200 chars for this test");
    assert!(!history.records[0].summary.contains("Stale"));

    history.compress_reads_for("src/main.rs");

    assert!(history.records[0].summary.contains("Stale"));
    assert!(history.records[0].full_output.contains("Stale"));
}

// ── Helpers ──────────────────────────────────────────────────────────────────

#[test]
fn test_first_line() {
    assert_eq!(first_line("hello\nworld"), "hello");
    assert_eq!(first_line("single"), "single");
    assert_eq!(first_line(""), "");
}

#[test]
fn test_truncate_to_lines() {
    assert_eq!(truncate_to_lines("a\nb\nc", 5), "a\nb\nc");
    assert_eq!(truncate_to_lines("a\nb\nc", 2), "a\nb\n[+1 lines truncated]");
    assert_eq!(truncate_to_lines("a\nb", 2), "a\nb");
}

// ── Summaries ────────────────────────────────────────────────────────────────

#[test]
fn test_summarise_read_file_small_keeps_full() {
    let output = "[src/lib.rs — 50 lines]\nline 1\nline 2";
    let result = summarise("read_file", output);
    assert_eq!(result, output);
}

#[test]
fn test_summarise_read_file_large_caps_at_limit() {
    let header = "[src/big.rs — 500 lines]";
    let body: String = (1..=300).map(|i| format!("line {i}")).collect::<Vec<_>>().join("\n");
    let output = format!("{header}\n{body}");
    let result = summarise("read_file", &output);
    let line_count = result.lines().count();
    assert!(line_count <= READ_FILE_CONTEXT_LINES + 2, "got {line_count} lines");
    assert!(result.contains("lines omitted"), "should have omission note");
    assert!(result.contains("line 49"), "should include line 49");
    assert!(!result.contains("line 51"), "should not include line 51");
}

#[test]
fn test_summarise_edit_build_failure_keeps_output() {
    let output = "⚠ FILE WRITTEN BUT BUILD BROKEN\nerror: something";
    let result = summarise("edit_file", output);
    assert_eq!(result, output);
}

#[test]
fn test_summarise_edit_success_summarises() {
    let output = "✓ Edited src/main.rs\n  10 [a1b2] | pub fn new_func() {\n  11 [c3d4] | }";
    let result = summarise("edit_file", output);
    assert!(result.contains("✓ Edited"));
    assert!(result.contains("new_func"));
}

#[test]
fn test_summarise_list_small_keeps_full() {
    let output = "src/\n  main.rs\n  lib.rs";
    let result = summarise_list(output);
    assert_eq!(result, output);
}

#[test]
fn test_summarise_list_large_keeps_directories() {
    let mut large = String::new();
    for i in 0..100 {
        large.push_str(&format!("src/module{}/\n", i));
    }
    large.push_str("  file1.rs\n");

    let result = summarise_list(&large);
    assert!(result.contains("src/module0/"));
    assert!(!result.contains("file1.rs"));
    assert!(result.contains("files omitted"));
}

#[test]
fn test_summarise_bash_short_keeps_full() {
    let output = "line1\nline2\nline3";
    let result = summarise_bash(output);
    assert_eq!(result, output);
}

#[test]
fn test_summarise_bash_error_keeps_diagnostics() {
    let output = "   Compiling foo v0.1.0\n   Compiling bar v0.2.0\n\
                  error[E0425]: cannot find value `x`\n \
                   --> src/main.rs:10:5\n  |\n10 |     x\n  |     ^ not found\n\
                  warning[unused]: variable `y`\n\
                  error: aborting due to 1 error";
    let result = summarise_bash(output);
    assert!(result.contains("error[E0425]"), "should keep compiler error");
    assert!(result.contains("warning["), "should keep compiler warning");
}

#[test]
fn test_summarise_bash_grep_no_false_positive() {
    let output = (0..20).map(|i| format!("src/foo.rs:{i}: fn handle_error() {{\n")).collect::<String>()
        + &(0..5).map(|i| format!("src/bar.rs:{i}: // warning: this is a comment\n")).collect::<String>();
    let result = summarise_bash(&output);
    let line_count = result.lines().count();
    assert!(line_count <= 10, "grep output should not inflate to 30 lines, got {line_count}");
}

#[test]
fn test_summarise_bash_success_head_tail() {
    let mut output = String::new();
    for i in 1..=30 {
        output.push_str(&format!("output line {}\n", i));
    }

    let result = summarise_bash(&output);
    assert!(result.contains("output line 1"));
    assert!(result.contains("output line 30"));
    assert!(result.contains("omitted"));
}

#[test]
fn test_display_summarise_read_file() {
    let output = "[src/main.rs — 42 lines]\n  1 [hash] | fn main()\n  2 [hash] | }";
    let result = display_summarise("read_file", output);
    assert!(result.contains("src/main.rs"), "should contain path");
    assert!(result.contains("lines shown"), "should mention lines shown");
}

#[test]
fn test_display_summarise_other_uses_summarise() {
    let output = "some bash output";
    let result = display_summarise("bash", output);
    assert_eq!(result, output);
}

#[test]
fn only_reads_of_the_edited_file_go_stale() {
    let mut history = History::default();
    let a = "[src/a.rs — 100 lines]\n".to_string() + &"line x\n".repeat(40);
    let b = "[src/b.rs — 100 lines]\n".to_string() + &"line x\n".repeat(40);
    history.record("read_file", &a);
    history.record("read_file", &b);
    history.compress_reads_for("src/a.rs");
    assert_eq!(history.records[0].summary, stale_stub("src/a.rs"));
    assert_eq!(history.records[1].full_output, b);
}

#[test]
fn places_in_the_source_are_diagnostics() {
    let output = "a\nb\nc\nd\ne\nf\ng\nerror[E0425]: no `x`\n  --> src/main.rs:10:5\n";
    assert_eq!(
        summarise_bash(output),
        "error[E0425]: no `x`\n  --> src/main.rs:10:5\n[+7 lines omitted]"
    );
}
