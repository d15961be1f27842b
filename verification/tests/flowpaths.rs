use parecode::flowpaths::{
    build_path_context, split_identifier, FlowPath, FlowPathIndex, PathMatch, MAX_PATH_STEPS,
};
use parecode::index::{CallEdge, Symbol, SymbolKind};
use parecode::names::NameMap;
use parecode::pie::ProjectGraph;

fn fn_sym(name: &str, file: &str, line: usize) -> Symbol {
    Symbol {
        name: name.to_string(),
        file: file.to_string(),
        line,
        end_line: line + 10,
        kind: SymbolKind::Function,
        signature: None,
    }
}

fn edge(callee: &str, call_line: usize) -> CallEdge {
    CallEdge { callee: callee.to_string(), call_line }
}

fn make_graph(symbols: Vec<Symbol>, call_edges: NameMap<Vec<CallEdge>>) -> ProjectGraph {
    let mut by_name: NameMap<Vec<String>> = NameMap::new();
    let mut file_lines: NameMap<usize> = NameMap::new();
    for s in &symbols {
        let mut files = by_name.remove(&s.name).unwrap_or_default();
        files.push(s.file.clone());
        by_name.insert(s.name.clone(), files);
        file_lines.insert(s.file.clone(), 100);
    }
    ProjectGraph {
        schema_version: 2,
        file_hashes: NameMap::new(),
        file_lines,
        symbols,
        by_name,
        clusters: Vec::new(),
        last_indexed: 0,
        call_edges,
        construct_edges: NameMap::new(),
    }
}

#[test]
fn test_split_identifier() {
    assert_eq!(split_identifier("run_tui"), vec!["run", "tui"]);
    assert_eq!(split_identifier("dispatch_tool"), vec!["dispatch", "tool"]);
    assert_eq!(split_identifier("AppState"), vec!["app", "state"]);
    assert_eq!(split_identifier("generatePlan"), vec!["generate", "plan"]);
    assert_eq!(split_identifier("foo"), vec!["foo"]);
}

#[test]
fn test_trace_simple_chain() {
    let symbols = vec![
        fn_sym("main", "src/main.rs", 1),
        fn_sym("run_tui", "src/agent.rs", 1),
        fn_sym("dispatch_tool", "src/agent.rs", 20),
    ];
    let mut call_edges = NameMap::new();
    call_edges.insert("src/main.rs::main".to_string(), vec![edge("run_tui", 5)]);
    call_edges.insert("src/agent.rs::run_tui".to_string(), vec![edge("dispatch_tool", 10)]);
    let graph = make_graph(symbols, call_edges);
    let index = FlowPathIndex::build(&graph);

    assert!(!index.paths.is_empty(), "expected at least one path");
    let path = &index.paths[0];
    assert_eq!(path.entry_key, "src/main.rs::main");
    assert!(
        path.steps.contains(&"src/agent.rs::run_tui".to_string()),
        "path should include run_tui"
    );
    assert!(
        path.steps.contains(&"src/agent.rs::dispatch_tool".to_string()),
        "path should include dispatch_tool"
    );
}

#[test]
fn test_test_functions_excluded() {
    let symbols = vec![
        fn_sym("test_something", "src/agent.rs", 1),
        fn_sym("real_fn", "src/agent.rs", 20),
    ];
    let mut call_edges = NameMap::new();
    call_edges.insert("src/agent.rs::test_something".to_string(), vec![edge("real_fn", 5)]);
    let graph = make_graph(symbols, call_edges);
    let index = FlowPathIndex::build(&graph);

    for path in &index.paths {
        assert_ne!(
            path.entry_key, "src/agent.rs::test_something",
            "test functions should not be entry points"
        );
    }
}

#[test]
fn test_utility_skipped() {
    let symbols = vec![
        fn_sym("entry", "src/a.rs", 1),
        fn_sym("helper", "src/b.rs", 1),
        fn_sym("caller2", "src/c.rs", 1),
        fn_sym("caller3", "src/d.rs", 1),
        fn_sym("caller4", "src/e.rs", 1),
        fn_sym("caller5", "src/f.rs", 1),
        fn_sym("caller6", "src/g.rs", 1),
        fn_sym("caller7", "src/h.rs", 1),
    ];

    let mut call_edges = NameMap::new();
    call_edges.insert("src/a.rs::entry".to_string(), vec![edge("helper", 5)]);
    for (i, caller) in ["caller2", "caller3", "caller4", "caller5", "caller6", "caller7"]
        .iter()
        .enumerate()
    {
        call_edges.insert(
            format!("src/{}::{}", (b'c' + i as u8) as char, caller),
            vec![edge("helper", 5)],
        );
    }

    let graph = make_graph(symbols, call_edges);
    let index = FlowPathIndex::build(&graph);

    for path in &index.paths {
        if path.entry_key == "src/a.rs::entry" {
            assert!(
                !path.steps.iter().any(|s| s.contains("helper")),
                "utility function should not appear in path steps"
            );
        }
    }
}

#[test]
fn test_cycle_prevention() {
    let symbols = vec![fn_sym("a", "src/a.rs", 1), fn_sym("b", "src/b.rs", 1)];
    let mut call_edges = NameMap::new();
    call_edges.insert("src/a.rs::a".to_string(), vec![edge("b", 2)]);
    call_edges.insert("src/b.rs::b".to_string(), vec![edge("a", 2)]);
    let graph = make_graph(symbols, call_edges);
    let index = FlowPathIndex::build(&graph);
    for path in &index.paths {
        assert!(path.steps.len() <= MAX_PATH_STEPS);
    }
}

fn plan_path(steps: &[&str], keywords: &[&str]) -> FlowPath {
    FlowPath {
        id: "plan-test".to_string(),
        name: "generate_plan → execute_step".to_string(),
        entry_key: "src/plan.rs::generate_plan".to_string(),
        steps: steps.iter().map(|s| s.to_string()).collect(),
        keywords: keywords.iter().map(|s| s.to_string()).collect(),
    }
}

#[test]
fn chains_can_be_read() {
    let path = plan_path(&["src/plan.rs::execute_step"], &["execute", "plan"]);
    let index = FlowPathIndex { paths: vec![path], built_at: 0 };
    let text = index._summary();
    assert!(text.starts_with("1 flow paths\n\n1. generate_plan → execute_step (1 steps)\n"));
    assert!(text.contains("   entry:    src/plan.rs::generate_plan\n"));
    assert!(text.ends_with("   keywords: execute, plan\n\n"));
    let none = FlowPathIndex { paths: vec![], built_at: 0 };
    assert_eq!(none._summary(), "No flow paths built.");
}

#[test]
fn test_match_task_clear() {
    let path = plan_path(&["src/plan.rs::execute_step"], &["execute", "generate", "plan", "step"]);
    let index = FlowPathIndex { paths: vec![path], built_at: 0 };

    let result = index.match_task("plan mode is broken", &vec![]);
    assert!(matches!(result, PathMatch::Clear(_)));
}

#[test]
fn test_match_task_no_match() {
    let path = plan_path(&[], &["generate", "plan"]);
    let index = FlowPathIndex { paths: vec![path], built_at: 0 };

    let result = index.match_task("fix the button colour", &vec![]);
    assert!(matches!(result, PathMatch::Unmatched));
}

#[test]
fn two_chains_that_fit_alike_are_both_named() {
    let index = FlowPathIndex {
        paths: vec![plan_path(&[], &["generate", "plan"]), plan_path(&[], &["plan", "verify"])],
        built_at: 0,
    };
    match index.match_task("plan mode is broken", &vec![]) {
        PathMatch::Ambiguous(v) => assert_eq!(v, vec![0, 1]),
        other => panic!("expected two, got {other:?}"),
    }
}

#[test]
fn a_chain_is_shown_with_the_lines_of_its_symbols() {
    let graph = make_graph(vec![fn_sym("generate_plan", "src/plan.rs", 1)], NameMap::new());
    let mut contents = NameMap::new();
    contents.insert("src/plan.rs".to_string(), "fn generate_plan() {\n    todo\n}\n".to_string());
    let s = build_path_context(&plan_path(&[], &["plan"]), &graph, &contents);
    assert!(s.contains("generate_plan"));
    assert!(s.contains("src/plan.rs"));
}

#[test]
fn acronyms_stay_whole() {
    assert_eq!(split_identifier("PIEv2"), vec!["pi", "ev2"]);
    assert_eq!(split_identifier("HTTP"), vec!["http"]);
    assert_eq!(split_identifier("parseJSONText"), vec!["parse", "json", "text"]);
    assert_eq!(split_identifier("max-HTTP.size"), vec!["max", "http", "size"]);
}

#[test]
fn names_of_many_files_are_not_followed() {
    let steps = |files: usize| {
        let mut symbols = vec![fn_sym("main", "src/main.rs", 1), fn_sym("go", "src/go.rs", 1)];
        symbols.push(fn_sym("stop", "src/go.rs", 20));
        for i in 0..files {
            symbols.push(fn_sym("execute", &format!("src/tools/t{i}.rs"), 1));
        }
        let mut edges = NameMap::new();
        edges.insert(
            "src/main.rs::main".to_string(),
            vec![edge("go", 2), edge("stop", 3), edge("execute", 4)],
        );
        let index = FlowPathIndex::build(&make_graph(symbols, edges));
        index.paths[0].steps.len()
    };
    assert_eq!(steps(3), 5);
    assert_eq!(steps(4), 2);
}

#[test]
fn a_chain_has_its_most_steps() {
    let mut symbols = vec![fn_sym("main", "src/main.rs", 1)];
    let mut calls = Vec::new();
    for i in 0..12 {
        for j in 0..2 {
            symbols.push(fn_sym(&format!("work{i}"), &format!("src/w{j}.rs"), 1 + 20 * i));
        }
        calls.push(edge(&format!("work{i}"), 2 + i));
    }
    let mut edges = NameMap::new();
    edges.insert("src/main.rs::main".to_string(), calls);
    let index = FlowPathIndex::build(&make_graph(symbols, edges));
    assert_eq!(index.paths.len(), 1);
    assert_eq!(index.paths[0].steps.len(), MAX_PATH_STEPS);
}
