use parecode::agent::{
    _should_skip_done_turn, build_system_prompt, build_user_message, checkpoint_summary,
    convention_files,
    load_conventions, quick_call, quick_done, quick_messages, quick_result, quick_tools,
    server_tools, AgentRun, Answered, TurnStart, MAX_TOOL_CALLS,
};
use parecode::budget::{Budget, LoopDetector};
use parecode::calls::{
    begin_call, dispatch_tool, finish_call, format_args_summary, look_in_cache, refuse_call,
    route, runs_edit_hooks, tells_error, update_cache, CallStart, HookOutcome, Route, ToolKind,
};
use parecode::cache::{FileCache, OnDisk};
use parecode::client::{ContentPart, Message, MessageContent, ModelResponse, Tool, ToolCall};
use parecode::consumed::{
    compress_tool_result_to_stub, evict_stale_content, should_protect_tool_result,
    strip_cot_from_last_assistant,
};
use parecode::events::UiEvent;
use parecode::history::History;
use parecode::json::{parse_or_null, Json};
use parecode::mcp::McpTool;
use parecode::sessions::ConversationTurn;
use parecode::think::ThinkParser;

fn message(role: &str, text: &str, calls: Vec<ToolCall>) -> Message {
    Message {
        role: role.to_string(),
        content: MessageContent::from(text.to_string()),
        tool_calls: calls,
    }
}

fn make_tool_call(id: &str, name: &str, args: &str) -> ToolCall {
    ToolCall {
        id: id.to_string(),
        name: name.to_string(),
        arguments: args.to_string(),
    }
}

fn result_content(p: &ContentPart) -> &str {
    match p {
        ContentPart::ToolResult { content, .. } => content,
        _ => panic!("expected ToolResult"),
    }
}

// ── build_user_message ───────────────────────────────────────────────────────

#[test]
fn test_user_message_task_only() {
    let msg = build_user_message("do the thing", &vec![]);
    assert_eq!(msg, "do the thing");
}

#[test]
fn test_user_message_with_attached_files() {
    let attached = vec!["src/foo.rs".to_string()];
    let msg = build_user_message("fix it", &attached);
    assert!(msg.contains("src/foo.rs"));
    assert!(msg.contains("read_file"));
    assert!(msg.ends_with("fix it"));
}

#[test]
fn test_user_message_ordering() {
    let attached = vec!["a.rs".to_string()];
    let msg = build_user_message("task", &attached);
    let attach_pos = msg.find("a.rs").unwrap();
    let task_pos = msg.rfind("task").unwrap();
    assert!(attach_pos < task_pos);
}

// ── build_system_prompt ──────────────────────────────────────────────────────

#[test]
fn test_system_prompt_contains_base() {
    let prompt = build_system_prompt(None, None);
    assert!(prompt.contains("PareCode"));
}

#[test]
fn test_system_prompt_no_project_context() {
    let prompt = build_system_prompt(None, None);
    assert!(prompt.contains("PareCode"));
}

#[test]
fn test_system_prompt_git_status_included() {
    let prompt = build_system_prompt(None, Some("M src/foo.rs"));
    assert!(prompt.contains("# Git status"));
    assert!(prompt.contains("M src/foo.rs"));
}

#[test]
fn test_system_prompt_git_status_empty_skipped() {
    let prompt = build_system_prompt(None, Some("   "));
    assert!(!prompt.contains("# Git status"));
}

#[test]
fn test_system_prompt_no_git_status() {
    let prompt = build_system_prompt(None, None);
    assert!(!prompt.contains("# Git status"));
}

#[test]
fn conventions_come_from_the_first_file_with_something_in_it() {
    let files = vec![
        ("AGENTS.md".to_string(), None),
        ("NOTES.md".to_string(), Some("  \n".to_string())),
        (".parecode/conventions.md".to_string(), Some("Use tabs.".to_string())),
    ];
    let c = load_conventions(&files).unwrap();
    assert!(c.contains("Use tabs."));
    let prompt = build_system_prompt(Some(&c), None);
    assert!(prompt.contains("Use tabs."));
    assert!(load_conventions(&vec![("AGENTS.md".to_string(), None)]).is_none());
}

#[test]
fn the_summary_of_a_checkpoint_is_one_short_line() {
    assert_eq!(checkpoint_summary("fix it\nand more"), "fix it");
    assert_eq!(checkpoint_summary(&"x".repeat(90)), "x".repeat(60));
}

// ── ThinkParser ──────────────────────────────────────────────────────────────

#[test]
fn test_think_parser_no_tags() {
    let mut p = ThinkParser::new();
    let (normal, thinking) = p.push("hello world");
    let (n2, t2) = p.finish();
    assert_eq!(normal + &n2, "hello world");
    assert!(thinking.is_empty() && t2.is_empty());
}

#[test]
fn test_think_parser_full_think_block() {
    let mut p = ThinkParser::new();
    let (n1, t1) = p.push("before<think>reasoning</think>after");
    let (n2, t2) = p.finish();
    assert_eq!(n1 + &n2, "beforeafter");
    assert_eq!(t1 + &t2, "reasoning");
}

#[test]
fn test_think_parser_tag_split_across_chunks() {
    let mut p = ThinkParser::new();
    let (n1, t1) = p.push("hello<thi");
    let (n2, t2) = p.push("nk>reasoning</think>done");
    let (n3, t3) = p.finish();
    assert_eq!(n1 + &n2 + &n3, "hellodone");
    assert_eq!(t1 + &t2 + &t3, "reasoning");
}

#[test]
fn test_think_parser_close_tag_split_across_chunks() {
    let mut p = ThinkParser::new();
    let (n1, t1) = p.push("<think>thinking</thi");
    let (n2, t2) = p.push("nk>normal");
    let (n3, t3) = p.finish();
    assert_eq!(n1 + &n2 + &n3, "normal");
    assert!((t1 + &t2 + &t3).contains("thinking"));
}

#[test]
fn test_think_parser_multiple_blocks() {
    let mut p = ThinkParser::new();
    let input = "a<think>t1</think>b<think>t2</think>c";
    let (n1, t1) = p.push(input);
    let (n2, t2) = p.finish();
    assert_eq!(n1 + &n2, "abc");
    assert_eq!(t1 + &t2, "t1t2");
}

#[test]
fn test_think_parser_multibyte_chars() {
    let mut p = ThinkParser::new();
    let (n1, _) = p.push("hello — world");
    let (n2, _) = p.finish();
    assert_eq!(n1 + &n2, "hello — world");
}

#[test]
fn test_think_parser_unclosed_tag_goes_to_thinking_on_finish() {
    let mut p = ThinkParser::new();
    let (_, t1) = p.push("<think>half done");
    let (normal, t2) = p.finish();
    assert!(normal.is_empty());
    assert!((t1 + &t2).contains("half done"));
}

#[test]
fn how_a_stream_is_cut_does_not_matter() {
    let whole = "ab<think>cd</think>ef<thin";
    let mut one = ThinkParser::new();
    let (n1, t1) = one.push(whole);
    let (n2, t2) = one.finish();
    let mut many = ThinkParser::new();
    let mut n = String::new();
    let mut t = String::new();
    for c in whole.chars() {
        let (a, b) = many.push(&c.to_string());
        n.push_str(&a);
        t.push_str(&b);
    }
    let (a, b) = many.finish();
    assert_eq!(n1 + &n2, n + &a);
    assert_eq!(t1 + &t2, t + &b);
}

// ── strip_cot_from_last_assistant ────────────────────────────────────────────

#[test]
fn test_strip_cot_strips_assistant_with_tool_calls() {
    let tool_call = make_tool_call("tc1", "read_file", "{}");
    let mut messages = vec![
        message("user", "task", vec![]),
        message("assistant", "I will now read the file...", vec![tool_call]),
        message("tool", "file content", vec![]),
    ];
    strip_cot_from_last_assistant(&mut messages);
    match &messages[1].content {
        MessageContent::Text(t) => assert!(t.is_empty(), "CoT text should be stripped"),
        _ => panic!("expected text"),
    }
}

#[test]
fn test_strip_cot_does_not_touch_final_assistant_turn() {
    let mut messages = vec![
        message("user", "task", vec![]),
        message("assistant", "Here is my answer.", vec![]),
    ];
    strip_cot_from_last_assistant(&mut messages);
    match &messages[1].content {
        MessageContent::Text(t) => {
            assert_eq!(t, "Here is my answer.", "final turn must be untouched")
        }
        _ => panic!("expected text"),
    }
}

// ── One tool call ────────────────────────────────────────────────────────────

#[test]
fn test_execute_one_tool_call_parse_error() {
    let tc = make_tool_call("id1", "read_file", "not valid json{{");
    let (start, events) = begin_call(&tc, &vec![], &mut LoopDetector::default(), false);
    match start {
        CallStart::Refused { content } => {
            assert!(content.contains("Error parsing tool arguments"), "got: {content}");
            let (part, had_error) = refuse_call(&tc, content);
            assert!(had_error, "parse error should signal had_error");
            assert!(result_content(&part).contains("Error parsing tool arguments"));
        }
        _ => panic!("parse error should not count as dispatched"),
    }
    assert!(events.is_empty());
}

#[test]
fn test_execute_one_tool_call_dependency_guard() {
    let tc = make_tool_call("id2", "edit_file", r#"{"path":"src/foo.rs"}"#);
    let written = vec!["src/foo.rs".to_string()];
    let (start, events) = begin_call(&tc, &written, &mut LoopDetector::default(), false);
    match start {
        CallStart::Refused { content } => {
            let (part, had_error) = refuse_call(&tc, content);
            assert!(had_error, "skipped dependent edit should signal had_error");
            let content = result_content(&part);
            assert!(content.contains("Not executed"), "got: {content}");
            assert!(content.contains("src/foo.rs"));
        }
        _ => panic!("dependency guard stub should not count as dispatched"),
    }
    assert!(events.iter().any(|e| matches!(e, UiEvent::ToolResult { .. })));
}

#[test]
fn test_execute_one_tool_call_loop_detection() {
    let tc = make_tool_call("id3", "bash", r#"{"command":"ls"}"#);
    let mut detector = LoopDetector::default();
    detector.record("bash", r#"{"command":"ls"}"#);
    let (start, events) = begin_call(&tc, &vec![], &mut detector, false);
    match start {
        CallStart::Stopped { kind, content } => {
            let (part, had_error, _) = finish_call(
                &tc,
                &kind,
                &content,
                false,
                &vec![],
                &mut vec![],
                &mut vec![],
                &mut History::default(),
            );
            assert!(had_error, "loop detection should signal had_error");
            let content = result_content(&part);
            assert!(content.contains("Loop detected"), "got: {content}");
        }
        _ => panic!("loop detection should not count as dispatched"),
    }
    assert!(events.iter().any(|e| matches!(e, UiEvent::LoopWarning { .. })));
}

#[test]
fn test_execute_one_tool_call_dry_run() {
    let tc = make_tool_call("id4", "bash", r#"{"command":"rm -rf /"}"#);
    let (start, _events) = begin_call(&tc, &vec![], &mut LoopDetector::default(), true);
    match start {
        CallStart::Stopped { kind, content } => {
            let (part, had_error, _) = finish_call(
                &tc,
                &kind,
                &content,
                false,
                &vec![],
                &mut vec![],
                &mut vec![],
                &mut History::default(),
            );
            assert!(had_error, "dry-run should signal had_error");
            let content = result_content(&part);
            assert!(content.contains("dry-run"), "got: {content}");
            assert!(content.contains("bash"));
        }
        _ => panic!("dry-run should not count as dispatched"),
    }
}

#[test]
fn a_call_that_nothing_stops_is_ready() {
    let tc = make_tool_call("id5", "edit_file", r#"{"path":"src/foo.rs"}"#);
    let (start, events) = begin_call(&tc, &vec![], &mut LoopDetector::default(), false);
    match start {
        CallStart::Ready { kind, args } => {
            assert!(matches!(kind, ToolKind::Mutate { path } if path == "src/foo.rs"));
            assert_eq!(args.text_of("path").as_deref(), Some("src/foo.rs"));
        }
        _ => panic!("expected a call that is ready"),
    }
    assert!(events.is_empty());
}

#[test]
fn arguments_are_summed_up_by_what_they_name() {
    assert_eq!(format_args_summary(&parse_or_null(r#"{"path":"a.rs"}"#)), "path=\"a.rs\"");
    assert_eq!(
        format_args_summary(&parse_or_null(r#"{"n":12,"path":"a.rs"}"#)),
        "n=12, path=\"a.rs\""
    );
    let long = format!("{{\"p\":\"{}\"}}", "x".repeat(61));
    assert_eq!(
        format_args_summary(&parse_or_null(&long)),
        format!("p=\"{}…\"", "x".repeat(57))
    );
}

#[test]
fn tools_are_told_apart() {
    let args = parse_or_null(r#"{"path":"a.rs","line_range":[1,5]}"#);
    match ToolKind::classify("read_file", &args) {
        ToolKind::Read { path, has_range, is_symbols } => {
            assert_eq!(path, "a.rs");
            assert!(has_range);
            assert!(!is_symbols);
        }
        _ => panic!("expected a read"),
    }
    assert!(matches!(
        ToolKind::classify("bash", &Json::Null),
        ToolKind::Other { is_bash: true }
    ));
    assert!(matches!(route("bash", true), Route::Bash));
    assert!(matches!(route("ask_user", true), Route::AskUser));
    assert!(matches!(route("search", true), Route::Native));
    assert!(matches!(route("srv.tool", false), Route::Mcp));
}

#[test]
fn a_cached_file_answers_a_read() {
    let tc = make_tool_call("r1", "read_file", r#"{"path":"a.rs"}"#);
    let args = parse_or_null(r#"{"path":"a.rs"}"#);
    let kind = ToolKind::classify("read_file", &args);
    let at = || OnDisk { key: "a.rs".to_string(), mtime: Some(1) };
    let mut cache = FileCache::default();
    let mut history = History::default();
    assert!(look_in_cache(&tc, &kind, &args, &at(), &cache, &mut history).is_none());
    update_cache(&kind, &args, at(), Some("fn main() {}".to_string()), &mut cache);
    let (part, event) = look_in_cache(&tc, &kind, &args, &at(), &cache, &mut history).unwrap();
    assert!(result_content(&part).contains("fn main() {}"));
    assert!(matches!(event, UiEvent::CacheHit { .. }));
    let changed = OnDisk { key: "a.rs".to_string(), mtime: Some(2) };
    assert!(look_in_cache(&tc, &kind, &args, &changed, &cache, &mut history).is_none());
}

#[test]
fn what_a_tool_answers_goes_into_the_history() {
    let tc = make_tool_call("b1", "bash", r#"{"command":"ls"}"#);
    let kind = ToolKind::classify("bash", &parse_or_null(&tc.arguments));
    let mut written = vec![];
    let mut messages = vec![];
    let mut history = History::default();
    let (part, had_error, _events) = finish_call(
        &tc, &kind, "a.rs\nb.rs", false, &vec![], &mut written, &mut messages, &mut history,
    );
    assert!(!had_error);
    assert!(result_content(&part).contains("a.rs"));
    assert_eq!(history.records.len(), 1);
    assert!(written.is_empty());
}

#[test]
fn a_failing_hook_is_an_error() {
    let tc = make_tool_call("e1", "edit_file", r#"{"path":"a.rs"}"#);
    let kind = ToolKind::classify("edit_file", &parse_or_null(&tc.arguments));
    let mut written = vec![];
    let mut messages = vec![];
    let mut history = History::default();
    let hooks = vec![HookOutcome {
        cmd: "cargo check".to_string(),
        output: "error[E0001]".to_string(),
        exit_code: 1,
    }];
    let (part, had_error, _events) = finish_call(
        &tc, &kind, "✓ Edited a.rs", false, &hooks, &mut written, &mut messages, &mut history,
    );
    assert!(had_error);
    assert!(result_content(&part).contains("cargo check"));
    assert_eq!(written, vec!["a.rs".to_string()]);
}

#[test]
fn a_failed_tool_says_so() {
    let s = dispatch_tool(Route::Native, Err("no such file".to_string()), None);
    assert!(s.contains("no such file"));
    assert_eq!(dispatch_tool(Route::Native, Ok("done".to_string()), None), "done");
    assert!(tells_error("[Tool error: x]"));
    assert!(tells_error("ok\n⚙ cargo check (exit 2)"));
    assert!(!tells_error("ok\n⚙ cargo check (exit 0)"));
    assert!(!tells_error("fine"));
}

// ── Stale content ────────────────────────────────────────────────────────────

fn tool_message(id: &str, content: &str) -> Message {
    Message {
        role: "tool".to_string(),
        content: MessageContent::Parts(vec![ContentPart::ToolResult {
            tool_use_id: id.to_string(),
            content: content.to_string(),
        }]),
        tool_calls: vec![],
    }
}

#[test]
fn what_was_read_of_an_edited_file_goes() {
    let long = format!("[src/a.rs — 3 lines total]\n{}", "x".repeat(300));
    let other = format!("[src/b.rs — 3 lines total]\n{}", "x".repeat(300));
    let mut messages = vec![tool_message("1", &long), tool_message("2", &other)];
    evict_stale_content(&mut messages, "src/a.rs");
    let text = |m: &Message| match &m.content {
        MessageContent::Parts(p) => result_content(&p[0]).to_string(),
        _ => panic!("expected parts"),
    };
    let first = text(&messages[0]);
    assert_ne!(first, long);
    assert_eq!(text(&messages[1]), other);
    evict_stale_content(&mut messages, "src/a.rs");
    assert_eq!(text(&messages[0]), first);
}

#[test]
fn results_shrink_to_their_first_line() {
    let stub = compress_tool_result_to_stub(&format!("{}\nmore", "y".repeat(100)));
    assert!(stub.starts_with(&format!("[bash result consumed: {}", "y".repeat(80))));
    assert!(!stub.contains(&"y".repeat(81)));
    assert_eq!(
        compress_tool_result_to_stub("[a.rs — 2 lines total]\n1 | a\n2 | b"),
        "[read a.rs — 2 lines shown, consumed]"
    );
    let long = "z".repeat(121);
    assert!(should_protect_tool_result("find_symbol", &long));
    assert!(should_protect_tool_result("bash", &"z".repeat(120)));
    assert!(!should_protect_tool_result("bash", &long));
}

// ── _should_skip_done_turn ───────────────────────────────────────────────────

#[test]
fn test_skip_done_turn_pure_edit_skips() {
    assert!(_should_skip_done_turn(true, false, false));
}

#[test]
fn test_skip_done_turn_read_then_edit_skips() {
    assert!(_should_skip_done_turn(true, false, false));
}

#[test]
fn test_skip_done_turn_no_mutation_no_skip() {
    assert!(!_should_skip_done_turn(false, false, false));
}

#[test]
fn test_skip_done_turn_bash_only_no_skip() {
    assert!(!_should_skip_done_turn(false, true, false));
}

#[test]
fn test_skip_done_turn_bash_with_mutation_no_skip() {
    assert!(!_should_skip_done_turn(true, true, false));
}

#[test]
fn test_skip_done_turn_ask_user_no_skip() {
    assert!(!_should_skip_done_turn(true, true, false));
}

#[test]
fn test_skip_done_turn_error_no_skip() {
    assert!(!_should_skip_done_turn(true, false, true));
}

#[test]
fn test_skip_done_turn_hook_failure_no_skip() {
    assert!(!_should_skip_done_turn(true, false, true));
}

#[test]
fn test_skip_done_turn_mutation_with_error_and_bash_no_skip() {
    assert!(!_should_skip_done_turn(true, true, true));
}

#[test]
fn test_skip_done_turn_all_false_no_skip() {
    assert!(!_should_skip_done_turn(false, false, false));
}

// ── A run ────────────────────────────────────────────────────────────────────

fn response(text: &str, calls: Vec<ToolCall>, input: u32, output: u32) -> ModelResponse {
    ModelResponse {
        text: text.to_string(),
        tool_calls: calls,
        input_tokens: input,
        output_tokens: output,
    }
}

#[test]
fn a_run_ends_with_a_plain_answer() {
    let mut run = AgentRun::start("fix it", &vec![], &vec![], vec![], 8000, "system");
    assert!(run.messages.iter().any(
        |m| matches!(&m.content, MessageContent::Text(t) if t == "fix it")
    ));
    let (start, _) = run.begin_turn();
    assert!(matches!(start, TurnStart::Request));
    let (answered, _) = run.take_answer(&response("Done.", vec![], 100, 7));
    assert!(matches!(answered, Answered::Done));
    assert_eq!(run.total_input_tokens, 100);
    assert_eq!(run.total_output_tokens, 7);
    let (_, done) = run.done(3, "/tmp");
    match done {
        UiEvent::AgentDone { input_tokens, output_tokens, tool_calls, duration_secs, .. } => {
            assert_eq!((input_tokens, output_tokens, tool_calls, duration_secs), (100, 7, 0, 3));
        }
        _ => panic!("expected the end of a run"),
    }
}

#[test]
fn a_run_stops_at_the_limit_of_calls() {
    let mut run = AgentRun::start("t", &vec![], &vec![], vec![], 8000, "s");
    for _ in 0..MAX_TOOL_CALLS {
        run.count_call();
    }
    let (start, events) = run.begin_turn();
    assert!(matches!(start, TurnStart::Stop));
    assert!(events.iter().any(|e| matches!(e, UiEvent::ToolBudgetHit { .. })));
}

#[test]
fn at_most_the_last_earlier_turns_are_told() {
    let turns: Vec<ConversationTurn> = (0..30)
        .map(|i| ConversationTurn {
            turn_index: i,
            timestamp: 0,
            user_message: format!("question {i}"),
            agent_response: format!("answer {i}"),
            tool_summary: String::new(),
        })
        .collect();
    let run = AgentRun::start("now", &vec![], &turns, vec![], 100000, "s");
    let all: String = run
        .messages
        .iter()
        .map(|m| match &m.content {
            MessageContent::Text(t) => t.clone(),
            _ => String::new(),
        })
        .collect();
    assert!(all.contains("question 29"));
    assert!(!all.contains("question 0\n") && !all.contains("question 1\n"));
}

#[test]
fn a_quick_run_is_one_question() {
    let m = quick_messages("what is this?");
    assert_eq!(m.len(), 1);
    let r = response("", vec![make_tool_call("1", "bash", "{}")], 5, 6);
    assert_eq!(quick_call(&r).unwrap().name, "bash");
    assert!(quick_call(&response("hi", vec![], 1, 1)).is_none());
    assert!(matches!(quick_result("ok"), UiEvent::ToolResult { .. }));
    let (stats, done) = quick_done(&r, 2, "/tmp");
    assert!(matches!(stats, UiEvent::TokenStats { .. }));
    assert!(matches!(done, UiEvent::AgentDone { tool_calls: 1, .. }));
}

#[test]
fn tools_of_servers_keep_their_qualified_names() {
    let tools = server_tools(&vec![McpTool {
        qualified_name: "srv.find".to_string(),
        tool_name: "find".to_string(),
        description: "finds".to_string(),
        input_schema: Json::Null,
        server_name: "srv".to_string(),
    }]);
    assert_eq!(tools[0].name, "srv.find");
    let edit = Tool {
        name: "edit_file".to_string(),
        description: String::new(),
        parameters: Json::Null,
    };
    let mut all = tools;
    all.push(edit);
    let kept: Vec<Tool> = quick_tools(all);
    assert_eq!(kept.len(), 1);
    assert_eq!(kept[0].name, "edit_file");
}

#[test]
fn a_budget_knows_its_context() {
    assert_eq!(Budget::new(8000).total_context(), 8000);
}

#[test]
fn conventions_stand_in_known_files() {
    let three = convention_files("OTHER.md");
    assert_eq!(three, ["AGENTS.md", "OTHER.md", ".parecode/conventions.md"]);
}

#[test]
fn commands_follow_an_edit_that_was_made() {
    let edit = ToolKind::Mutate { path: "a.rs".to_string() };
    assert!(runs_edit_hooks(&edit, "✓ Edited a.rs"));
    assert!(!runs_edit_hooks(&edit, "[Tool error: no such text]"));
    assert!(!runs_edit_hooks(&edit, "[dry-run: edit_file not executed]"));
    assert!(!runs_edit_hooks(&edit, "[Loop detected: edit_file called again]"));
    assert!(runs_edit_hooks(&edit, "✓ Edited a.rs\n 3 | say(\"[dry-run\")"));
    assert!(!runs_edit_hooks(&ToolKind::Other { is_bash: true }, "ok"));
}

#[test]
fn a_command_that_did_not_end_well_is_an_error() {
    assert!(tells_error("✓ Edited\n\n⚙ `cargo check` (exit -1):\n[timed out]"));
    assert!(tells_error("✓ Edited\n\n⚙ `cargo check` (exit 101):\nerror"));
    assert!(!tells_error("✓ Edited\n\n⚙ `cargo check` (exit 0):\nwarning"));
    assert!(!tells_error("✓ Edited\n\n⚙ `cargo check` (exit -0):\nwarning"));
}
