use parecode::config::find_active_hooks;
use parecode::hooks::{
    config_section, hook_result, set_active_hooks, HookConfig, HookRun, HOOK_MAX_LINES,
};

fn strings(v: &[&str]) -> Vec<String> {
    v.iter().map(|s| s.to_string()).collect()
}

// ── HookConfig ───────────────────────────────────────────────────────────────

#[test]
fn test_hook_config_is_empty() {
    let empty = HookConfig::default();
    assert!(empty.is_empty());

    let with_on_edit = HookConfig { on_edit: strings(&["cargo check"]), ..Default::default() };
    assert!(!with_on_edit.is_empty());

    let with_on_task_done = HookConfig { on_task_done: strings(&["cargo test"]), ..Default::default() };
    assert!(!with_on_task_done.is_empty());

    let with_on_plan_step_done =
        HookConfig { on_plan_step_done: strings(&["echo done"]), ..Default::default() };
    assert!(!with_on_plan_step_done.is_empty());

    let with_on_session_start =
        HookConfig { on_session_start: strings(&["echo start"]), ..Default::default() };
    assert!(!with_on_session_start.is_empty());

    let with_on_session_end =
        HookConfig { on_session_end: strings(&["echo end"]), ..Default::default() };
    assert!(!with_on_session_end.is_empty());

    let all_hooks = HookConfig {
        on_edit: strings(&["check"]),
        on_task_done: strings(&["test"]),
        on_plan_step_done: strings(&["step"]),
        on_session_start: strings(&["start"]),
        on_session_end: strings(&["end"]),
    };
    assert!(!all_hooks.is_empty());
}

#[test]
fn test_hook_config_summary_empty() {
    let empty = HookConfig::default();
    assert_eq!(empty.summary(), None);
}

#[test]
fn test_hook_config_summary_single() {
    let config = HookConfig { on_edit: strings(&["cargo check"]), ..Default::default() };
    assert_eq!(config.summary(), Some("on_edit: cargo check".to_string()));
}

#[test]
fn test_hook_config_summary_multiple() {
    let config = HookConfig {
        on_edit: strings(&["cargo check", "cargo clippy"]),
        on_task_done: strings(&["cargo test"]),
        ..Default::default()
    };
    let summary = config.summary().unwrap();
    assert!(summary.contains("on_edit: cargo check, cargo clippy"));
    assert!(summary.contains("on_task_done: cargo test"));
    assert!(summary.contains("·"));
}

#[test]
fn test_hook_config_summary_all_hooks() {
    let config = HookConfig {
        on_edit: strings(&["edit"]),
        on_task_done: strings(&["task"]),
        on_plan_step_done: strings(&["step"]),
        on_session_start: strings(&["start"]),
        on_session_end: strings(&["end"]),
    };
    let summary = config.summary().unwrap();
    assert!(summary.contains("on_edit: edit"));
    assert!(summary.contains("on_task_done: task"));
    assert!(summary.contains("on_plan_step_done: step"));
    assert!(summary.contains("on_session_start: start"));
    assert!(summary.contains("on_session_end: end"));
}

#[test]
fn test_hook_config_detail_empty() {
    let empty = HookConfig::default();
    let detail = empty.detail();
    assert!(detail.contains("on_edit"));
    assert!(detail.contains("on_task_done"));
    assert!(detail.contains("on_plan_step_done"));
    assert!(detail.contains("on_session_start"));
    assert!(detail.contains("on_session_end"));
    assert!(detail.contains("(none)"));
}

#[test]
fn test_hook_config_detail_with_commands() {
    let config = HookConfig {
        on_edit: strings(&["cargo check"]),
        on_task_done: strings(&["cargo test", "echo done"]),
        ..Default::default()
    };
    let detail = config.detail();
    assert!(detail.contains("on_edit"));
    assert!(detail.contains("· cargo check"));
    assert!(detail.contains("on_task_done"));
    assert!(detail.contains("· cargo test"));
    assert!(detail.contains("· echo done"));
    assert!(detail.contains("on_plan_step_done"));
    assert!(detail.contains("(none)"));
}

// ── Runs ─────────────────────────────────────────────────────────────────────

fn ended(code: i32, stdout: &str, stderr: &str) -> HookRun {
    HookRun::Ended {
        code: Some(code),
        stdout: stdout.to_string(),
        stderr: stderr.to_string(),
    }
}

#[test]
fn what_a_hook_prints_is_kept() {
    let r = hook_result(ended(0, "hello\n", ""));
    assert_eq!(r.exit_code, 0);
    assert!(r.output.contains("hello"));
    let r = hook_result(ended(42, "", ""));
    assert_eq!(r.exit_code, 42);
    assert!(r.output.is_empty());
    let r = hook_result(ended(0, "stdout\n", "stderr\n"));
    assert!(r.output.contains("stdout"));
    assert!(r.output.contains("stderr"));
}

#[test]
fn long_output_of_a_hook_is_cut() {
    let print = |n: usize| (1..=n).map(|i| format!("{i}\n")).collect::<String>();
    let r = hook_result(ended(0, &print(HOOK_MAX_LINES + 10), ""));
    assert_eq!(r.output.lines().count(), HOOK_MAX_LINES + 1);
    assert!(r.output.contains("[+10 lines truncated]"));
    let r = hook_result(ended(0, &print(HOOK_MAX_LINES), ""));
    assert_eq!(r.output.lines().count(), HOOK_MAX_LINES);
    assert!(!r.output.contains("truncated"));
}

#[test]
fn a_hook_that_did_not_end_has_no_code() {
    let r = hook_result(HookRun::NotStarted { error: "no sh".to_string() });
    assert_eq!(r.exit_code, -1);
    assert!(r.output.contains("no sh"));
    let r = hook_result(HookRun::TimedOut);
    assert_eq!(r.exit_code, -1);
    assert!(r.output.contains("30"));
    let r = hook_result(HookRun::Ended { code: None, stdout: String::new(), stderr: String::new() });
    assert_eq!(r.exit_code, -1);
}

// ── The settings file ────────────────────────────────────────────────────────

#[test]
fn active_hooks_stand_on_top() {
    let s = set_active_hooks("default_profile = \"x\"\n", Some("rust"));
    assert!(s.contains("active_hooks = \"rust\""));
    assert!(s.contains("default_profile = \"x\""));
    let gone = set_active_hooks(&s, None);
    assert!(!gone.contains("active_hooks"));
    assert!(gone.contains("default_profile = \"x\""));
}

#[test]
fn active_hooks_are_found_again() {
    let file = "# notes\nactive_hooks = \"old\"\n\n[profiles.a]\nmodel = \"m\"\n";
    let s = set_active_hooks(file, Some("rust"));
    assert_eq!(find_active_hooks(&s).as_deref(), Some("rust"));
    assert!(find_active_hooks(&set_active_hooks(&s, None)).is_none());
}

#[test]
fn hooks_are_written_once() {
    let cfg = HookConfig { on_edit: strings(&["cargo check"]), ..Default::default() };
    let s = config_section("", "rust", &cfg).unwrap();
    assert!(s.contains("rust"));
    assert!(s.contains("cargo check"));
    assert!(config_section(&s, "rust", &cfg).is_none());
}
