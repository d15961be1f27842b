use parecode::budget::{
    compress_tool_content, estimate_messages, estimate_tokens, has_tool_call_id, Budget,
    BudgetConfig, LoopDetector,
};
use parecode::client::{ContentPart, Message, MessageContent, ToolCall};

fn text_message(role: &str, text: &str) -> Message {
    Message {
        role: role.to_string(),
        content: MessageContent::Text(text.to_string()),
        tool_calls: vec![],
    }
}

// ── BudgetConfig ─────────────────────────────────────────────────────────────

#[test]
fn test_budget_config_from_tokens() {
    let config = BudgetConfig::from_context_tokens(1000);
    assert_eq!(config.total_context, 1000);
    assert_eq!(config.response_headroom, 150);
    assert_eq!(config.usable(), 850);
}

#[test]
fn test_compression_threshold() {
    let config = BudgetConfig::from_context_tokens(1000);
    assert_eq!(config.compression_threshold(), 680);
}

#[test]
fn test_budget_config_zero_tokens() {
    let config = BudgetConfig::from_context_tokens(0);
    assert_eq!(config.usable(), 0);
    assert_eq!(config.compression_threshold(), 0);
}

#[test]
fn shares_are_rounded_as_single_precision_rounds_them() {
    let mut n: u32 = 1;
    for step in 0..4000u32 {
        let c = BudgetConfig::from_context_tokens(n);
        assert_eq!(c.response_headroom, (n as f32 * 0.15) as u32, "headroom of {n}");
        assert_eq!(
            c.compression_threshold(),
            (c.usable() as f32 * 0.80) as u32,
            "threshold of {n}"
        );
        n = n.wrapping_mul(1664525).wrapping_add(1013904223) >> (step % 20);
    }
    let c = BudgetConfig::from_context_tokens(u32::MAX);
    assert_eq!(c.response_headroom, (u32::MAX as f32 * 0.15) as u32);
}

// ── Token estimation ─────────────────────────────────────────────────────────

#[test]
fn test_estimate_tokens_empty() {
    assert_eq!(estimate_tokens(""), 10);
}

#[test]
fn test_estimate_tokens_short() {
    assert_eq!(estimate_tokens("hello"), 11);
}

#[test]
fn test_estimate_tokens_multibyte() {
    assert_eq!(estimate_tokens("café"), 11);
}

#[test]
fn test_estimate_tokens_long_string() {
    let s = "a".repeat(1000);
    assert_eq!(estimate_tokens(&s), 260);
}

#[test]
fn messages_add_up() {
    let ms = vec![text_message("user", "hello"), text_message("assistant", &"a".repeat(1000))];
    assert_eq!(estimate_messages(&ms), 271);
}

// ── compress_tool_content ────────────────────────────────────────────────────

#[test]
fn test_compress_read_file_header_with_lines() {
    let content = "[src/main.rs — 500 lines total, showing 1-50]\n  1 [hash] | fn main() {\n  2 [hash] |     println!(\"hello\");\n  3 [hash] | }";
    let result = compress_tool_content(content);
    assert!(result.contains("src/main.rs"));
    assert!(result.contains("3 lines"));
    assert!(result.contains("compressed"));
}

#[test]
fn test_compress_read_file_header_no_lines() {
    let content = "[src/main.rs — 50 lines total]\n  1 [hash] | fn main() {}";
    let result = compress_tool_content(content);
    assert!(result.contains("src/main.rs"));
    assert!(result.contains("compressed"));
}

#[test]
fn test_compress_plain_text() {
    let content = "This is just a plain text result.\nSecond line here.";
    let result = compress_tool_content(content);
    assert_eq!(result, "This is just a plain text result.");
}

#[test]
fn test_compress_short_content_unchanged() {
    let content = "Short result";
    let result = compress_tool_content(content);
    assert_eq!(result, "Short result");
}

// ── LoopDetector ─────────────────────────────────────────────────────────────

#[test]
fn test_loop_detector_no_loop() {
    let mut detector = LoopDetector::default();
    assert!(!detector.record("read_file", r#"{"path": "a.rs"}"#));
    assert!(!detector.record("read_file", r#"{"path": "b.rs"}"#));
}

#[test]
fn test_loop_detector_detects_repeat() {
    let mut detector = LoopDetector::default();
    let args = r#"{"path": "a.rs"}"#;
    assert!(!detector.record("read_file", args));
    assert!(detector.record("read_file", args));
}

#[test]
fn test_loop_detector_different_args_no_loop() {
    let mut detector = LoopDetector::default();
    assert!(!detector.record("read_file", r#"{"path": "a.rs"}"#));
    assert!(!detector.record("read_file", r#"{"path": "b.rs"}"#));
    assert!(!detector.record("read_file", r#"{"path": "c.rs"}"#));
}

#[test]
fn test_loop_detector_different_tools() {
    let mut detector = LoopDetector::default();
    assert!(!detector.record("read_file", r#"{"path": "a.rs"}"#));
    assert!(!detector.record("edit_file", r#"{"path": "a.rs"}"#));
}

#[test]
fn test_loop_detector_eviction() {
    let mut detector = LoopDetector::default();
    for i in 0..6 {
        let args = format!(r#"{{"path": "{}.rs"}}"#, i);
        detector.record("read_file", &args);
    }
    let args = r#"{"path": "0.rs"}"#;
    assert!(!detector.record("read_file", args));
}

// ── Budget enforcement ───────────────────────────────────────────────────────

#[test]
fn test_budget_under_threshold_no_compression() {
    let budget = Budget::new(1000);
    let messages: Vec<Message> = vec![];
    let (tokens, compressed) = budget.enforce(&mut messages.clone(), 0);
    assert_eq!(compressed, false);
    assert!(tokens <= 680);
}

#[test]
fn test_budget_preserves_first_message() {
    let budget = Budget::new(1000);
    let mut messages = vec![text_message("user", "My task"), text_message("assistant", "I'll help")];
    budget.enforce(&mut messages, 0);
    assert_eq!(messages[0].role, "user");
}

#[test]
fn test_pie_injection_pair_never_trimmed() {
    let budget = Budget::new(200);

    let pie_assistant = Message {
        role: "assistant".to_string(),
        content: MessageContent::Text(String::new()),
        tool_calls: vec![ToolCall {
            id: "pie_ctx_0".to_string(),
            name: "project_index".to_string(),
            arguments: r#"{"kind":"summary"}"#.to_string(),
        }],
    };
    let pie_result = Message {
        role: "user".to_string(),
        content: MessageContent::Parts(vec![ContentPart::ToolResult {
            tool_use_id: "pie_ctx_0".to_string(),
            content: "# Project index\n## Clusters\n- tui (8 files)".to_string(),
        }]),
        tool_calls: vec![],
    };
    let task = text_message("user", "Fix the bug");
    let mut messages = vec![pie_assistant, pie_result, task];
    for _ in 0..6 {
        messages.push(text_message("assistant", &"thinking...".repeat(50)));
        messages.push(text_message("user", &"tool result".repeat(50)));
    }

    budget.enforce(&mut messages, 0);

    assert_eq!(messages[0].role, "assistant", "PIE assistant must be at index 0");
    assert!(
        has_tool_call_id(&messages[0].tool_calls, "pie_ctx_0"),
        "PIE assistant must retain tool call id"
    );
    assert_eq!(messages[1].role, "user", "PIE tool result must be at index 1");

    let task_present = messages.iter().any(|m| {
        matches!(&m.content, MessageContent::Text(t) if t == "Fix the bug")
    });
    assert!(task_present, "User task must not be dropped");
}

#[test]
fn old_results_shrink_before_anything_goes() {
    let budget = Budget::new(1000);
    let long = format!("[src/a.rs — 9 lines total]\n1 | x\n{}", "y".repeat(2600));
    let mut messages = vec![text_message("user", "task")];
    for i in 0..4 {
        messages.push(Message {
            role: "assistant".to_string(),
            content: MessageContent::Text(String::new()),
            tool_calls: vec![ToolCall {
                id: format!("c{i}"),
                name: "read_file".to_string(),
                arguments: "{}".to_string(),
            }],
        });
        messages.push(Message {
            role: "tool".to_string(),
            content: MessageContent::Parts(vec![ContentPart::ToolResult {
                tool_use_id: format!("c{i}"),
                content: long.clone(),
            }]),
            tool_calls: vec![],
        });
    }
    let (_, compressed) = budget.enforce(&mut messages, 0);
    assert!(compressed);
    assert_eq!(messages[0].role, "user");
    match &messages[0].content {
        MessageContent::Text(t) => assert_eq!(t, "task"),
        _ => panic!("the task is text"),
    }
}

fn call_message(id: &str) -> Message {
    Message {
        role: "assistant".to_string(),
        content: MessageContent::Text("w".repeat(400)),
        tool_calls: vec![ToolCall {
            id: id.to_string(),
            name: "bash".to_string(),
            arguments: "{}".to_string(),
        }],
    }
}

fn tool_message(id: &str) -> Message {
    Message {
        role: "tool".to_string(),
        content: MessageContent::Parts(vec![ContentPart::ToolResult {
            tool_use_id: id.to_string(),
            content: "r".repeat(150),
        }]),
        tool_calls: vec![],
    }
}

fn roles(messages: &Vec<Message>) -> Vec<&str> {
    messages.iter().map(|m| m.role.as_str()).collect()
}

#[test]
fn the_last_four_messages_stay() {
    let budget = Budget::new(100);
    let mut messages = vec![
        text_message("user", "task"),
        call_message("a"),
        tool_message("a"),
        text_message("user", "go on"),
        call_message("b"),
        tool_message("b"),
    ];
    assert!(budget.enforce(&mut messages, 0).1);
    assert_eq!(roles(&messages), ["user", "assistant", "tool", "user", "assistant", "tool"]);
}

#[test]
fn the_oldest_turn_goes_whole() {
    let budget = Budget::new(100);
    let mut messages = vec![
        text_message("user", "task"),
        call_message("a"),
        tool_message("a"),
        text_message("user", "go on"),
        call_message("b"),
        tool_message("b"),
        call_message("c"),
        tool_message("c"),
    ];
    assert!(budget.enforce(&mut messages, 0).1);
    assert_eq!(roles(&messages), ["user", "user", "assistant", "tool", "assistant", "tool"]);
    assert!(budget.enforce(&mut messages, 0).1);
    assert_eq!(roles(&messages), ["user", "user", "assistant", "tool", "assistant", "tool"]);
    assert!(matches!(&messages[1].content, MessageContent::Text(t) if t == "go on"));
}

#[test]
fn enforcing_saves_tokens() {
    let mut messages = vec![
        text_message("user", "task"),
        call_message("a"),
        tool_message("a"),
        call_message("b"),
        tool_message("b"),
        text_message("assistant", "done"),
    ];
    messages[2].content = MessageContent::Parts(vec![ContentPart::ToolResult {
        tool_use_id: "a".to_string(),
        content: format!("first line\n{}", "x".repeat(4000)),
    }]);
    let before = estimate_messages(&messages);
    let (after, compressed) = Budget::new(1000).enforce(&mut messages, 0);
    assert!(compressed);
    assert_eq!(after, estimate_messages(&messages));
    assert_eq!(before - after, 1000);
}

#[test]
fn a_result_is_long_by_its_bytes() {
    let mut messages = vec![
        text_message("user", &"x".repeat(4000)),
        call_message("a"),
        tool_message("a"),
        call_message("b"),
        tool_message("b"),
    ];
    messages[2].content = MessageContent::Parts(vec![ContentPart::ToolResult {
        tool_use_id: "a".to_string(),
        content: format!("first\n{}", "é".repeat(120)),
    }]);
    assert!(Budget::new(1000).enforce(&mut messages, 0).1);
    assert!(matches!(
        &messages[2].content,
        MessageContent::Parts(ps)
            if matches!(&ps[0], ContentPart::ToolResult { content, .. } if content == "first")
    ));
}
