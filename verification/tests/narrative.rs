use parecode::client::MessageContent;
use parecode::context_weights::ContextWeights;
use parecode::index::SymbolIndex;
use parecode::names::NameMap;
use parecode::narrative::{
    detect_conventions, detect_project_name, narrative_messages, parse_narrative_response,
    strip_markdown_fences, NarrativeError, ProjectNarrative, NARRATIVE_SCHEMA_VERSION,
};
use parecode::pie::ProjectGraph;

fn make_test_graph() -> ProjectGraph {
    let files: Vec<(String, String)> = [
        ("src/auth/login.rs", "pub fn login() {}\npub struct Session {}\n"),
        ("src/auth/token.rs", "pub fn validate() {}\n"),
        ("src/server.rs", "pub fn start() {}\n"),
        ("src/utils/fmt.rs", "pub fn format_date() {}\n"),
    ]
    .iter()
    .map(|(a, b)| (a.to_string(), b.to_string()))
    .collect();
    ProjectGraph::build_fresh(SymbolIndex::build(&files), NameMap::new(), 0)
}

#[test]
fn test_detect_conventions() {
    let graph = make_test_graph();
    let conventions = detect_conventions(&graph);
    assert!(!conventions.is_empty(), "detect_conventions should return at least one entry");
    assert!(
        conventions.iter().any(|c| c.contains("cluster")),
        "should mention clusters: {conventions:?}"
    );
}

#[test]
fn test_to_context_package_warm() {
    let graph = make_test_graph();

    let mut summaries = NameMap::new();
    summaries.insert(
        "auth".to_string(),
        "Handles user authentication and session management.".to_string(),
    );
    summaries.insert("src".to_string(), "Entry point and server startup logic.".to_string());

    let narrative = ProjectNarrative {
        schema_version: NARRATIVE_SCHEMA_VERSION,
        architecture_summary: "A web service with authentication and utility modules.".to_string(),
        cluster_summaries: summaries,
        conventions: vec!["2 clusters detected".to_string()],
        last_synthesized: 0,
        patches: vec![],
    };

    let ctx = narrative.to_context_package(&graph, &[], 8, &vec![], &ContextWeights::default());

    assert!(ctx.contains("# Project architecture"), "should contain header: {ctx}");
    assert!(ctx.contains("A web service"), "should contain summary: {ctx}");
    assert!(ctx.contains("Conventions"), "should contain conventions: {ctx}");
    assert!(ctx.contains("auth") || ctx.contains("src"), "should contain cluster names: {ctx}");
}

#[test]
fn test_to_context_package_fallback() {
    let graph = make_test_graph();

    let narrative = ProjectNarrative::default();
    let ctx = narrative.to_context_package(&graph, &[], 8, &vec![], &ContextWeights::default());
    let graph_section = graph.to_prompt_section(8).unwrap_or_default();

    assert!(
        ctx.contains("# Project structure") || ctx.is_empty(),
        "fallback should use graph format: {ctx}"
    );
    assert_eq!(ctx, graph_section, "fallback should equal graph.to_prompt_section output");
}

#[test]
fn test_narrative_cold_load_graceful_on_error() {
    let files = vec![("src/main.rs".to_string(), "pub fn main() {}\n".to_string())];
    let graph = ProjectGraph::build_fresh(SymbolIndex::build(&files), NameMap::new(), 0);

    let narrative = ProjectNarrative::from_answer(&graph, None, 5);

    assert!(
        !narrative.conventions.is_empty(),
        "conventions should be populated even on model failure"
    );
    assert_eq!(narrative.schema_version, NARRATIVE_SCHEMA_VERSION);
    assert_eq!(narrative.last_synthesized, 5);
}

#[test]
fn test_parse_narrative_response_valid() {
    let response = r#"{
            "architecture_summary": "A Rust TUI application for AI-assisted coding.",
            "cluster_summaries": {
                "tui": "Terminal user interface with ratatui.",
                "plan": "Multi-step planning and execution engine."
            }
        }"#;

    let result = parse_narrative_response(response);
    assert!(result.is_ok(), "should parse valid JSON");
    let (summary, clusters) = result.unwrap();
    assert_eq!(summary, "A Rust TUI application for AI-assisted coding.");
    assert_eq!(
        clusters.get("tui").map(|s| s.as_str()),
        Some("Terminal user interface with ratatui.")
    );
    assert_eq!(
        clusters.get("plan").map(|s| s.as_str()),
        Some("Multi-step planning and execution engine.")
    );
}

#[test]
fn test_parse_narrative_response_with_fences() {
    let response = "```json\n{\"architecture_summary\": \"Test summary.\", \"cluster_summaries\": {}}\n```";
    let result = parse_narrative_response(response);
    assert!(result.is_ok(), "should strip fences");
    let (summary, _) = result.unwrap();
    assert_eq!(summary, "Test summary.");
}

#[test]
fn answers_that_are_no_narrative_are_refused() {
    assert!(matches!(parse_narrative_response("no braces here"), Err(NarrativeError::NoObject)));
    assert!(matches!(parse_narrative_response("{\"x\": 1}"), Err(NarrativeError::NotNarrative)));
    assert!(matches!(parse_narrative_response("{broken}"), Err(NarrativeError::NotNarrative)));
    assert_eq!(strip_markdown_fences("```json\n{}\n```").trim(), "{}");
}

#[test]
fn the_name_of_a_project_comes_from_its_manifest() {
    assert_eq!(
        detect_project_name(Some("[package]\nname = \"demo\"\n"), None).as_deref(),
        Some("demo")
    );
    assert!(detect_project_name(None, None).is_none());
}

#[test]
fn the_model_is_told_of_the_clusters() {
    let graph = make_test_graph();
    let ms = narrative_messages(&graph, Some("demo"), None);
    let all: String = ms
        .iter()
        .map(|m| match &m.content {
            MessageContent::Text(t) => t.clone(),
            _ => String::new(),
        })
        .collect();
    assert!(all.contains("demo"));
    assert!(all.contains("auth"));
}

#[test]
fn heavy_clusters_are_listed_first() {
    let graph = make_test_graph();
    let narrative = ProjectNarrative {
        schema_version: NARRATIVE_SCHEMA_VERSION,
        architecture_summary: "A service.".to_string(),
        cluster_summaries: NameMap::new(),
        conventions: vec![],
        last_synthesized: 0,
        patches: vec![],
    };
    let package = |w: &ContextWeights| {
        narrative.context_package_at(&graph, &[], 8, &vec![], w, 0)
    };
    let plain = package(&ContextWeights::default());
    assert!(plain.find("### auth (2 files)").unwrap() < plain.find("### utils (1 files)").unwrap());
    let mut w = ContextWeights::default();
    w.adjust(&vec!["src/utils/fmt.rs".to_string()], &vec![]);
    let weighed = package(&w);
    assert!(weighed.find("### utils (1 files)").unwrap() < weighed.find("### auth (2 files)").unwrap());
    let picked = narrative.context_package_at(&graph, &["auth"], 1, &vec![], &w, 0);
    assert!(picked.contains("## Relevant clusters"));
    assert!(!picked.contains("utils"));
}

#[test]
fn an_index_shows_two_or_three_things() {
    let none = detect_conventions(&ProjectGraph::default());
    assert_eq!(none, ["0 source clusters", "0 symbols total (0 functions, 0 structs/types)"]);
    let source = vec![("src/a.rs".to_string(), "pub fn a() {}\n".to_string())];
    let graph = ProjectGraph::build_fresh(SymbolIndex::build(&source), NameMap::new(), 0);
    let all = detect_conventions(&graph);
    assert_eq!(all.len(), 3);
    assert!(all[0].starts_with("1 source clusters: "));
    assert_eq!(all[1], "1 symbols total (1 functions, 0 structs/types)");
    assert_eq!(all[2], "1 indexed source files");
}
