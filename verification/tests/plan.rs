use parecode::client::{ModelResponse, ToolCall};
use parecode::json::{parse_or_null, Json};
use parecode::pie::ProjectGraph;
use parecode::plan::{
    default_tool_budget, estimate_text, fmt_k, parse_verification, plan_from_raw, plan_markdown,
    summarise_completed_step, verify_step, Evidence, FileState, Plan, PlanStepRaw, PlanStatus,
    Verification,
};
use parecode::planner::{
    plan_json, planner_args_summary, planner_tool, planner_tools, PlanRun, PlannerTool,
};
use parecode::repair::{collapse_duplicate_braces, extract_json, sanitize_json_strings};

// ── JSON in answers ──────────────────────────────────────────────────────────

#[test]
fn test_extract_json_with_duplicate_braces() {
    let input = r#"{ { "description": "test step", "instruction": "do something", "files": ["foo.rs"], "verify": "none", "tool_budget": 10 }"#;
    let result = extract_json(input);
    assert!(result.is_some(), "Should extract JSON even with duplicate brace");

    let json = result.unwrap();
    let parsed: serde_json::Value = serde_json::from_str(&json)
        .expect("Should be valid JSON after fixing duplicate braces");
    assert_eq!(parsed["description"], "test step");
}

#[test]
fn test_extract_json_with_markdown_fence() {
    let input = r#"```json
{ "description": "test" }
```"#;
    let result = extract_json(input);
    assert!(result.is_some());

    let json = result.unwrap();
    let parsed: serde_json::Value =
        serde_json::from_str(&json).expect("Should parse after stripping fence");
    assert_eq!(parsed["description"], "test");
}

#[test]
fn test_extract_json_with_whitespace_after_fence() {
    let input = "```json\n{ { \"description\": \"test\" }";
    let result = extract_json(input);
    assert!(result.is_some());

    let json = result.unwrap();
    let parsed: serde_json::Value = serde_json::from_str(&json).expect("Should parse");
    assert_eq!(parsed["description"], "test");
}

#[test]
fn test_extract_json_complex() {
    let input = r#"some text before
```json
{ { "steps": [ { "description": "First step", "instruction": "do x", "files": ["a.rs"], "verify": "none", "tool_budget": 10 } ] }
```
some text after"#;

    let result = extract_json(input);
    assert!(result.is_some());

    let json = result.unwrap();
    let parsed: serde_json::Value = serde_json::from_str(&json).expect("Should be valid JSON");
    assert_eq!(parsed["steps"][0]["description"], "First step");
}

#[test]
fn what_is_not_closed_is_not_json() {
    assert_eq!(extract_json("{ \"a\": 1"), None);
    assert_eq!(extract_json("nothing"), None);
    assert_eq!(collapse_duplicate_braces("{ { {x"), Some("{x".to_string()));
    assert_eq!(collapse_duplicate_braces("x"), None);
}

#[test]
fn control_characters_in_strings_are_escaped() {
    assert_eq!(sanitize_json_strings("{\"a\": \"x\ny\tz\"}"), "{\"a\": \"x\\ny\\tz\"}");
    assert_eq!(sanitize_json_strings("\"\u{1}\""), "\"\\u0001\"");
    let once = sanitize_json_strings("{\n\"a\": \"p\nq\"}");
    assert_eq!(sanitize_json_strings(&once), once);
    assert!(matches!(parse_or_null(&once), Json::Object(_)));
}

#[test]
fn an_answer_without_a_plan_is_an_error() {
    assert!(plan_json("I cannot do that.").is_err());
    let s = plan_json("Here: {\"steps\": []}").unwrap();
    assert!(s.starts_with('{'));
    assert!(s.ends_with('}'));
}

// ── Plans ────────────────────────────────────────────────────────────────────

fn raw(description: &str, verify: &str) -> PlanStepRaw {
    PlanStepRaw {
        description: description.to_string(),
        instruction: "do it".to_string(),
        files: vec!["src/a.rs".to_string()],
        verify: verify.to_string(),
        tool_budget: 10,
    }
}

fn a_plan() -> Plan {
    plan_from_raw(
        vec![raw("First", "none"), raw("Second", "changed:src/a.rs")],
        &ProjectGraph::default(),
        "the task",
        "demo",
        100,
    )
    .unwrap()
}

#[test]
fn a_plan_starts_pending() {
    let plan = a_plan();
    assert_eq!(plan.steps.len(), 2);
    assert!(matches!(plan.status, PlanStatus::Pending));
    assert_eq!(plan.task, "the task");
    assert_eq!(plan.file_name(), "100.json");
    assert_eq!(default_tool_budget(), 8);
    assert!(plan_markdown(&plan).contains("First"));
    assert!(plan_from_raw(vec![], &ProjectGraph::default(), "t", "p", 0).is_err());
}

#[test]
fn verifications_are_read_from_text() {
    assert!(matches!(parse_verification("none"), Verification::Unchecked));
    assert!(matches!(parse_verification("build"), Verification::BuildSuccess));
    assert!(matches!(
        parse_verification("changed:a.rs"),
        Verification::FileChanged(p) if p == "a.rs"
    ));
    assert!(matches!(
        parse_verification("command:cargo test"),
        Verification::CommandSuccess(c) if c == "cargo test"
    ));
    assert!(matches!(
        parse_verification("absent:a.ts:x:y"),
        Verification::PatternAbsent { file, pattern } if file == "a.ts" && pattern == "x:y"
    ));
    assert!(matches!(parse_verification("whatever"), Verification::Unchecked));
}

#[test]
fn a_step_is_verified_by_what_is_seen() {
    let plan = a_plan();
    assert_eq!(verify_step(&plan.steps[0], &Evidence::Nothing), Ok(()));
    assert_eq!(verify_step(&plan.steps[1], &Evidence::Age(60)), Ok(()));
    assert_eq!(
        verify_step(&plan.steps[1], &Evidence::Age(61)),
        Err("verify: src/a.rs was not modified in the last 60s".to_string())
    );
    assert_eq!(
        verify_step(&plan.steps[1], &Evidence::NoState("gone".to_string())),
        Err("verify: cannot stat src/a.rs: gone".to_string())
    );
    assert_eq!(
        verify_step(&plan.steps[1], &Evidence::NoTime),
        Err("verify: cannot get mtime for src/a.rs".to_string())
    );
}

#[test]
fn a_pattern_that_is_still_there_is_counted() {
    let mut plan = a_plan();
    plan.steps[0].verify = Verification::PatternAbsent {
        file: "a.rs".to_string(),
        pattern: "todo".to_string(),
    };
    assert_eq!(
        verify_step(&plan.steps[0], &Evidence::Content("todo x todo".to_string())),
        Err("verify: pattern 'todo' still found in a.rs (2 occurrences)".to_string())
    );
    assert_eq!(verify_step(&plan.steps[0], &Evidence::Content("done".to_string())), Ok(()));
    assert_eq!(
        verify_step(&plan.steps[0], &Evidence::NoContent("gone".to_string())),
        Err("verify: cannot read a.rs: gone".to_string())
    );
    plan.steps[0].verify = Verification::CommandSuccess("make".to_string());
    assert_eq!(
        verify_step(
            &plan.steps[0],
            &Evidence::Ran {
                success: false,
                code: Some(2),
                stdout: "out\n".to_string(),
                stderr: "err\n".to_string(),
            }
        ),
        Err("verify: 'make' failed (exit 2):\nout\nerr".to_string())
    );
    assert_eq!(
        verify_step(&plan.steps[0], &Evidence::NotRun("no sh".to_string())),
        Err("verify: failed to run 'make': no sh".to_string())
    );
}

#[test]
fn estimates_count_in_thousands() {
    assert_eq!(fmt_k(999), "999");
    assert_eq!(fmt_k(8999), "8k");
    assert_eq!(estimate_text(8000, 12000), "est. 8k–12k tokens");
}

#[test]
fn a_finished_step_is_summed_up_by_its_files() {
    let plan = a_plan();
    assert_eq!(summarise_completed_step(&plan.steps[0], &vec![None]), "completed: First");
    let state = FileState {
        age_secs: 1,
        content: Some("use std::fmt;\npub fn a() {}\n".to_string()),
    };
    let s = summarise_completed_step(&plan.steps[0], &vec![Some(state)]);
    assert!(s.contains("src/a.rs (2 lines)"), "got: {s}");
    assert!(s.contains("use std::fmt;"));
}

// ── Planning ─────────────────────────────────────────────────────────────────

#[test]
fn planning_takes_turns() {
    let mut run = PlanRun::start("task", vec![], String::new());
    assert_eq!(run.begin_turn(), Some(true));
    let call = ToolCall {
        id: "1".to_string(),
        name: "read_file".to_string(),
        arguments: r#"{"path":"a.rs"}"#.to_string(),
    };
    assert!(planner_args_summary(&call).contains("a.rs"));
    run.answer(ModelResponse {
        text: String::new(),
        tool_calls: vec![call],
        input_tokens: 3,
        output_tokens: 4,
    });
    assert!(run.report(1).contains('3'));
}

#[test]
fn a_planner_is_offered_three_tools() {
    let defs: Vec<Json> = [
        r#"{"name":"read_file","description":"reads","parameters":{"type":"object"}}"#,
        r#"{"name":"bash","description":"runs"}"#,
        r#"{"name":"orient"}"#,
        r#"{"name":"orient","description":"again"}"#,
        "17",
    ]
    .iter()
    .map(|s| parse_or_null(s))
    .collect();
    let tools = planner_tools(&defs);
    let names: Vec<&str> = tools.iter().map(|t| t.name.as_str()).collect();
    assert_eq!(names, vec!["orient", "read_file"]);
    assert_eq!(tools[0].description, "");
    assert!(matches!(tools[0].parameters, Json::Null));
    assert_eq!(tools[1].description, "reads");
    assert!(tools[1].parameters.get("type").is_some());
}

#[test]
fn a_planner_reads_files_in_ranges_only() {
    let call = |name: &str, arguments: &str| ToolCall {
        id: "c".to_string(),
        name: name.to_string(),
        arguments: arguments.to_string(),
    };
    assert!(matches!(planner_tool(&call("orient", "{}")), PlannerTool::Orient));
    assert!(matches!(planner_tool(&call("find_symbol", "{}")), PlannerTool::FindSymbol));
    assert!(matches!(planner_tool(&call("trace_calls", "{}")), PlannerTool::TraceCalls));
    assert!(matches!(planner_tool(&call("check_wiring", "{}")), PlannerTool::CheckWiring));
    let ranged = call("read_file", r#"{"path":"a.rs","line_range":[1,5]}"#);
    assert!(matches!(planner_tool(&ranged), PlannerTool::Read));
    for arguments in [r#"{"path":"a.rs"}"#, r#"{"path":"a.rs","line_range":[]}"#, "not json"] {
        let said = planner_tool(&call("read_file", arguments));
        assert!(matches!(said, PlannerTool::Say(s) if s.starts_with("[planner: full-file reads")));
    }
    let other = planner_tool(&call("bash", "{}"));
    assert!(matches!(other, PlannerTool::Say(s) if s == "[unknown planner tool: bash]"));
}

#[test]
fn a_value_that_stands_is_left_alone() {
    assert_eq!(extract_json("[{\"a\":1}]").as_deref(), Some("[{\"a\":1}]"));
    assert_eq!(extract_json("say [[1, 2], [3]] now").as_deref(), Some("[[1, 2], [3]]"));
    assert_eq!(extract_json("{ { \"a\": 1 } }").as_deref(), Some("{\"a\": 1 }"));
    assert_eq!(extract_json("{ [ { \"a\": 1 }").as_deref(), Some("{\"a\": 1 }"));
    assert_eq!(extract_json("{\"a\":"), None);
}
