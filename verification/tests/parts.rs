use parecode::calls::no_graph;
use parecode::client::ToolCall;
use parecode::flowpaths::{path_id, path_name};
use parecode::history::summarise_edit;
use parecode::index::{
    extract_enum_variants, extract_fn_signature, extract_struct_fields, is_ident, SymbolIndex,
};
use parecode::init::{
    detect_node_runtime, detect_node_test_runner, detect_python_test_runner, detect_style,
    ProjectFiles,
};
use parecode::json::parse_or_null;
use parecode::mcp::{reply_to, Reply, Response};
use parecode::names::NameMap;
use parecode::number::{front_of_bytes, padded_left, parse_i64};
use parecode::order::comes_before;
use parecode::paths::{extension_of, stem_of};
use parecode::pie::ProjectGraph;
use parecode::pieces::{lines_of, replaced, words_of};
use parecode::plan::{
    default_verify, enrich_step_instructions, plans_dir, PlanStep, StepStatus, Verification,
};
use parecode::planner::{prompt_dump, result_summary, PlanRun};
use parecode::sessions::new_session;
use parecode::text::rfind_str;
use parecode::update::{asset_url, detect_target};

fn strings(v: &[&str]) -> Vec<String> {
    v.iter().map(|s| s.to_string()).collect()
}

fn files(v: &[(&str, &str)]) -> ProjectFiles {
    let mut files = NameMap::new();
    for (name, content) in v {
        files.insert(name.to_string(), Some(content.to_string()));
    }
    ProjectFiles { files }
}

// ── Strings ──────────────────────────────────────────────────────────────────

#[test]
fn lines_and_words() {
    for s in ["", "a", "a\n", "a\r\nb", "\n\n", "a\r", " a  b\tc\u{3000}d "] {
        let lines: Vec<&str> = s.lines().collect();
        assert_eq!(lines_of(s), lines, "{s:?}");
        let words: Vec<&str> = s.split_whitespace().collect();
        assert_eq!(words_of(s), words, "{s:?}");
    }
}

#[test]
fn strings_are_searched_and_replaced() {
    assert_eq!(rfind_str("abcabc", "bc"), Some(4));
    assert_eq!(rfind_str("abc", "x"), None);
    assert_eq!(replaced("aXbXX", "X", "yy"), "ayybyyyy");
    assert_eq!(replaced("aaa", "aa", "b"), "aaa".replace("aa", "b"));
    assert!(comes_before("a", "ab"));
    assert!(!comes_before("b", "ab"));
    assert_eq!(comes_before("é", "z"), "é" < "z");
}

#[test]
fn numbers_and_widths() {
    for s in ["0", "-7", "+7", "", "-", "9223372036854775807", "9223372036854775808", "1x", " 1"] {
        assert_eq!(parse_i64(s), s.parse::<i64>().ok(), "{s:?}");
    }
    assert_eq!(padded_left("7", 3), format!("{:>3}", "7"));
    assert_eq!(padded_left("1234", 3), "1234");
    assert_eq!(front_of_bytes("aéb", 2), "a");
    assert_eq!(front_of_bytes("aéb", 3), "aé");
}

#[test]
fn parts_of_paths() {
    assert_eq!(extension_of("src/main.rs"), "rs");
    assert_eq!(extension_of("Makefile"), "");
    assert_eq!(extension_of(".gitignore"), "");
    assert_eq!(stem_of("src/main.rs"), "main");
    assert_eq!(stem_of(".gitignore"), ".gitignore");
}

// ── Symbols ──────────────────────────────────────────────────────────────────

#[test]
fn signatures_are_put_together() {
    let f = strings(&["pub fn add(", "    a: u32,", "    b: u32,", ") -> u32 {", "}"]);
    let signature = extract_fn_signature(&f, 0).unwrap();
    assert!(signature.contains("a: u32"), "{signature}");
    assert!(signature.contains("-> u32"), "{signature}");
    assert!(extract_fn_signature(&f, 9).is_none());

    let s = strings(&["pub struct P {", "    pub x: u32,", "    // note", "    y: String,", "}"]);
    assert_eq!(extract_struct_fields(&s, 0).as_deref(), Some("x: u32"));

    let e = strings(&["enum E {", "    One,", "    Two(u8),", "}"]);
    assert_eq!(extract_enum_variants(&e, 0).as_deref(), Some("One, Two"));

    assert!(is_ident("_a1"));
    assert!(!is_ident("a-b"));
    assert!(!is_ident(""));
}

#[test]
fn chains_have_names_and_ids() {
    let steps = strings(&["src/b.rs::mid", "src/c.rs::end_it"]);
    assert_eq!(path_name("src/a.rs::start", &steps), "start → end_it");
    assert_eq!(path_name("src/a.rs::start", &vec![]), "start");
    assert_eq!(path_id("src/a.rs::start_up", &steps), "start-up-to-end-it");
    assert_eq!(path_id("src/a.rs::start", &vec![]), "start-to-end");
}

#[test]
fn an_edit_tells_what_it_declares() {
    assert_eq!(summarise_edit("✓ Edited a.rs"), "✓ Edited a.rs");
    let s = summarise_edit("✓ Edited a.rs\n  10 [ab12] | pub fn run() {\n  11 [cd34] | }");
    assert!(s.starts_with("✓ Edited a.rs\n  added/modified: "), "{s}");
    assert!(s.contains("run"), "{s}");
}

// ── Projects ─────────────────────────────────────────────────────────────────

#[test]
fn tools_of_a_project_are_told_by_its_files() {
    assert_eq!(detect_node_runtime(&files(&[("bun.lock", "")])), "TypeScript (Bun runtime)");
    assert_eq!(detect_node_runtime(&files(&[("deno.json", "")])), "TypeScript (Deno runtime)");
    assert_eq!(detect_node_runtime(&files(&[("tsconfig.json", "")])), "TypeScript (Node.js)");
    assert_eq!(detect_node_runtime(&files(&[])), "JavaScript (Node.js)");
    assert_eq!(detect_node_test_runner(&files(&[]), "{\"jest\": 1}"), "npx jest");
    assert_eq!(detect_node_test_runner(&files(&[("vitest.config.ts", "")]), "{}"), "npx vitest");
    assert_eq!(detect_node_test_runner(&files(&[("bun.lockb", "")]), "{}"), "bun test");
    assert_eq!(detect_node_test_runner(&files(&[]), "{}"), "npm test");
    assert_eq!(detect_python_test_runner(&files(&[("pytest.ini", "")])), "pytest");
    assert_eq!(detect_python_test_runner(&files(&[])), "python -m pytest");
    let style = detect_style(&files(&[("rustfmt.toml", ""), (".cargo/config.toml", "clippy")]));
    assert_eq!(style.len(), 2);
    assert!(style[0].contains("cargo fmt") && style[1].contains("cargo clippy"));
}

#[test]
fn a_release_is_picked_for_the_machine() {
    assert_eq!(detect_target("x86_64", "linux"), Some("x86_64-unknown-linux-musl"));
    assert_eq!(detect_target("aarch64", "macos"), Some("aarch64-apple-darwin"));
    assert_eq!(detect_target("aarch64", "windows"), None);
    let assets: Vec<_> = [
        r#"{"name":"p-x86_64-unknown-linux-musl.tar.gz","browser_download_url":"gz"}"#,
        r#"{"name":"p-x86_64-unknown-linux-musl.tar.xz","browser_download_url":"xz"}"#,
        r#"{"name":"p-x86_64-pc-windows-msvc.zip","browser_download_url":"zip"}"#,
    ]
    .iter()
    .map(|s| parse_or_null(s))
    .collect();
    assert_eq!(asset_url(&assets, "x86_64-unknown-linux-musl").as_deref(), Some("xz"));
    assert_eq!(asset_url(&assets, "x86_64-pc-windows-msvc").as_deref(), Some("zip"));
    assert_eq!(asset_url(&assets, "aarch64-apple-darwin"), None);
}

// ── Servers, sessions, plans ─────────────────────────────────────────────────

#[test]
fn a_reply_is_matched_by_its_id() {
    let response = |id: &str, result: Option<&str>, error: Option<&str>| Response {
        id: Some(parse_or_null(id)),
        result: result.map(parse_or_null),
        error: error.map(str::to_string),
    };
    assert!(matches!(reply_to("s", 2, response("1", Some("{}"), None)), Reply::Skip));
    assert!(matches!(reply_to("s", 2, response("2", Some("{}"), None)), Reply::Got(_)));
    let failed = reply_to("s", 2, response("2", Some("{}"), Some("no")));
    assert!(matches!(failed, Reply::Failed(e) if e == "MCP error from 's': no"));
    let empty = reply_to("s", 2, response("2", None, None));
    assert!(matches!(empty, Reply::Failed(e) if e == "MCP response had no result"));
}

#[test]
fn a_new_session_lies_in_its_directory() {
    let s = new_session("/s", "/home/u/foo");
    assert!(s.id.ends_with("_foo"));
    assert_eq!(s.path, format!("/s/{}.jsonl", s.id));
    assert!(s._turns.is_empty());
}

fn step(instruction: &str, note: Option<&str>) -> PlanStep {
    PlanStep {
        description: "d".to_string(),
        instruction: instruction.to_string(),
        files: vec![],
        verify: Verification::Unchecked,
        status: StepStatus::Pending,
        tool_budget: 8,
        user_annotation: note.map(str::to_string),
        completed_summary: None,
    }
}

#[test]
fn instructions_carry_notes_and_places() {
    assert_eq!(step("do", None).effective_instruction(), "do");
    assert_eq!(step("do", Some("  ")).effective_instruction(), "do");
    assert_eq!(step("do", Some(" now ")).effective_instruction(), "do\n\nUser note: now");

    let source = vec![("src/a.rs".to_string(), "\npub fn run_it() {}\n".to_string())];
    let graph = ProjectGraph::build_fresh(SymbolIndex::build(&source), NameMap::new(), 0);
    let mut steps = vec![step("change run_it", None), step("see run_it at line 2", None)];
    enrich_step_instructions(&mut steps, &graph);
    assert_eq!(steps[0].instruction, "change run_it\n[index: `run_it` at line 2 in src/a.rs]");
    assert_eq!(steps[1].instruction, "see run_it at line 2");
    assert_eq!(plans_dir(), ".parecode/plans");
    assert_eq!(default_verify(), "none");
}

#[test]
fn what_the_tools_of_a_planner_gave_is_told() {
    let mut run = PlanRun::start("task", vec![], String::new());
    let had = run.messages.len();
    let calls = vec![ToolCall {
        id: "c1".to_string(),
        name: "orient".to_string(),
        arguments: "{}".to_string(),
    }];
    run.tools_ran(&calls, &strings(&["found it"]), "");
    assert_eq!(run.tool_calls, 1);
    assert!(run.messages.len() > had);
    let dump = prompt_dump("system", &run.messages);
    assert!(dump.starts_with("=== SYSTEM PROMPT ===\nsystem\n\n"));
    assert!(dump.contains("found it"));
    assert_eq!(result_summary("one\ntwo"), "one");
    assert_eq!(result_summary(&"x".repeat(100)).len(), 80);
    assert_eq!(no_graph(), "[find_symbol: no project graph available for this session]");
}
