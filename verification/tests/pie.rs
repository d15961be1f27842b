use parecode::index::SymbolIndex;
use parecode::names::NameMap;
use parecode::pie::{
    anchor_files_from_task, cluster_name_for, focus_files, gitignore_with, mtime_hash,
    parse_ls_files, pie_injection_messages, ProjectGraph, SCHEMA_VERSION,
};

fn owned(files: &[(&str, &str)]) -> Vec<(String, String)> {
    files.iter().map(|(a, b)| (a.to_string(), b.to_string())).collect()
}

fn hashes(files: &[(&str, &str)]) -> NameMap<String> {
    let mut m = NameMap::new();
    for (path, content) in files {
        m.insert(path.to_string(), mtime_hash(content.len() as u64));
    }
    m
}

fn build(files: &[(&str, &str)]) -> ProjectGraph {
    ProjectGraph::build_fresh(SymbolIndex::build(&owned(files)), hashes(files), 7)
}

const MULTI_CLUSTER: [(&str, &str); 4] = [
    ("src/auth/login.rs", "pub fn login() {}\npub struct Session {}\n"),
    ("src/auth/token.rs", "pub fn validate() {}\n"),
    ("src/server.rs", "pub fn start() {}\n"),
    ("src/utils/fmt.rs", "pub fn format_date() {}\n"),
];

fn names(g: &ProjectGraph) -> Vec<&str> {
    g.symbols.iter().map(|s| s.name.as_str()).collect()
}

#[test]
fn test_build_fresh_produces_clusters() {
    let graph = build(&MULTI_CLUSTER);

    assert!(graph.clusters.len() >= 2, "expected ≥2 clusters, got {}", graph.clusters.len());

    let auth = graph.clusters.iter().find(|c| c.name == "auth");
    assert!(auth.is_some(), "expected cluster 'auth'");
    let auth = auth.unwrap();
    assert_eq!(auth.files.len(), 2, "auth cluster should have 2 files");

    let names = names(&graph);
    for expected in &["login", "Session", "validate", "start", "format_date"] {
        assert!(names.contains(expected), "missing symbol: {expected}");
    }

    for cluster in &graph.clusters {
        for ef in &cluster.entry_files {
            assert!(cluster.files.contains(ef), "entry_file {ef:?} not in cluster.files");
        }
    }
}

#[test]
fn test_schema_version_mismatch_triggers_rebuild() {
    let mut bad = ProjectGraph::default();
    bad.schema_version = 999;
    assert!(!bad.usable(), "schema mismatch should trigger cold rebuild");
    assert!(ProjectGraph::warm(Some(bad)).is_none());

    let graph = build(&MULTI_CLUSTER);
    assert_eq!(
        graph.schema_version, SCHEMA_VERSION,
        "rebuilt graph should have correct schema version"
    );
    assert!(graph.usable());
    assert!(!graph.symbols.is_empty(), "rebuilt graph should have symbols");
}

#[test]
fn test_incremental_reindex_adds_symbol() {
    let mut graph = build(&[("src/foo.rs", "pub fn alpha() {}\n")]);
    assert!(names(&graph).contains(&"alpha"), "alpha should be present");
    assert!(!names(&graph).contains(&"beta"), "beta not yet added");

    graph.reindex_files(&vec![(
        "src/foo.rs".to_string(),
        Some("pub fn alpha() {}\npub fn beta() {}\n".to_string()),
    )]);

    assert!(names(&graph).contains(&"alpha"), "alpha should still be present");
    assert!(names(&graph).contains(&"beta"), "beta should now be present");
}

#[test]
fn test_incremental_reindex_removes_stale_symbols() {
    let mut graph = build(&[("src/foo.rs", "pub fn alpha() {}\npub fn beta() {}\n")]);
    assert!(names(&graph).contains(&"alpha"));
    assert!(names(&graph).contains(&"beta"));

    graph.reindex_files(&vec![("src/foo.rs".to_string(), Some("pub fn alpha() {}\n".to_string()))]);

    assert!(names(&graph).contains(&"alpha"), "alpha should remain");
    assert!(!names(&graph).contains(&"beta"), "beta should be gone");
    assert!(!graph.by_name.contains("beta"), "beta should be removed from by_name");
}

#[test]
fn test_removed_file_purged_from_graph() {
    let before = [("src/a.rs", "pub fn func_a() {}\n"), ("src/b.rs", "pub fn func_b() {}\n")];
    let mut graph = build(&before);
    assert!(graph.usable(), "second load should be warm");

    let current = hashes(&before[..1]);
    assert_eq!(graph.gone_files(&current), vec!["src/b.rs".to_string()]);
    assert!(graph.stale_files(&current).is_empty());
    for gone in graph.gone_files(&current) {
        graph.remove_file(&gone);
    }
    graph.finish_update(current, 8);

    let files_in_symbols: Vec<&str> = graph.symbols.iter().map(|s| s.file.as_str()).collect();
    assert!(!files_in_symbols.contains(&"src/b.rs"), "src/b.rs symbols should be removed");
    assert!(files_in_symbols.contains(&"src/a.rs"), "src/a.rs symbols should remain");
    assert!(!graph.by_name.contains("func_b"), "func_b should be removed from by_name");
    assert_eq!(graph.last_indexed, 8);
}

#[test]
fn test_to_prompt_section_format() {
    let graph = build(&MULTI_CLUSTER);
    let section = graph.to_prompt_section(8);

    assert!(section.is_some(), "to_prompt_section should return Some");
    let s = section.unwrap();

    assert!(s.contains("# Project structure"), "should contain section header");
    assert!(s.contains("## "), "should contain cluster headers");
    assert!(s.contains("lines)"), "should include line counts: {s}");
    assert!(s.contains("Key files:"), "should contain 'Key files:'");
}

#[test]
fn test_clustering_flat_src_files() {
    let graph = build(&[
        ("src/main.rs", "pub fn main() {}\n"),
        ("src/lib.rs", "pub fn helper() {}\npub struct Config {}\n"),
    ]);

    let src_cluster = graph.clusters.iter().find(|c| c.name == "src");
    assert!(src_cluster.is_some(), "expected 'src' cluster");
    let src_cluster = src_cluster.unwrap();
    assert_eq!(src_cluster.files.len(), 2, "both flat src files in one cluster");

    assert!(!src_cluster.entry_files.is_empty());
    assert!(
        src_cluster.entry_files[0].contains("lib.rs"),
        "lib.rs (2 symbols) should be top entry file"
    );
}

#[test]
fn test_by_name_deduplication() {
    let graph = build(&[
        ("src/a.rs", "pub fn process() {}\n"),
        ("src/b.rs", "pub fn process() {}\n"),
    ]);

    let files = graph.by_name.get("process");
    assert!(files.is_some(), "process should be in by_name");
    let files = files.unwrap();

    assert_eq!(files.len(), 2, "process should map to 2 files, got: {files:?}");
    assert_ne!(files[0], files[1], "by_name entries should have no duplicates");
}

#[test]
fn a_file_with_another_hash_is_stale() {
    let graph = build(&[("src/a.rs", "pub fn a() {}\n")]);
    let current = hashes(&[("src/a.rs", "pub fn a() { 1 }\n"), ("src/n.rs", "x")]);
    let mut stale = graph.stale_files(&current);
    stale.sort();
    assert_eq!(stale, vec!["src/a.rs".to_string(), "src/n.rs".to_string()]);
}

#[test]
fn an_update_follows_the_files() {
    let before = [
        ("src/a.rs", "pub fn func_a() {}\n"),
        ("src/b.rs", "pub fn func_b() {}\n"),
        ("src/c.rs", "pub fn func_c() {}\n"),
    ];
    let graph = build(&before);
    let mut graph = ProjectGraph::warm(Some(graph)).unwrap();
    let after = [("src/a.rs", "pub fn func_a() {}\n"), ("src/c.rs", "pub fn other() {}\n")];
    let mut contents = NameMap::new();
    contents.insert("src/c.rs".to_string(), after[1].1.to_string());
    graph.incremental_update(hashes(&after), &contents, 9);
    assert_eq!(names(&graph), vec!["func_a", "other"]);
    assert!(!graph.by_name.contains("func_b"));
    assert!(!graph.by_name.contains("func_c"));
    assert_eq!(graph.last_indexed, 9);
    assert!(ProjectGraph::warm(None).is_none());
}

#[test]
fn names_tell_of_the_symbols() {
    let text = "pub fn run() {}\npub struct run;\npub fn stop() {}\n";
    let mut graph = build(&[("src/a.rs", text), ("src/b.rs", "pub fn run() {}\n")]);
    let at = |g: &ProjectGraph, n: &str| g.by_name.get(n).cloned();
    let a = "src/a.rs".to_string();
    let b = "src/b.rs".to_string();
    assert_eq!(at(&graph, "run"), Some(vec![a.clone(), b.clone()]));
    assert_eq!(at(&graph, "stop"), Some(vec![a.clone()]));
    graph.reindex_files(&vec![(a.clone(), Some("pub fn run() {}\n".to_string()))]);
    assert_eq!(at(&graph, "run"), Some(vec![b.clone(), a.clone()]));
    assert_eq!(at(&graph, "stop"), None);
    graph.remove_file("src/b.rs");
    assert_eq!(at(&graph, "run"), Some(vec![a]));
}

#[test]
fn hashes_come_from_the_index_of_git() {
    let m = parse_ls_files("100644 abc123 0\tsrc/a.rs\n100644 def456 0\tREADME.md\n");
    assert_eq!(m.get("src/a.rs"), Some(&"abc123".to_string()));
    assert_eq!(mtime_hash(12), "mtime:12");
}

#[test]
fn clusters_are_named_after_directories() {
    assert_eq!(cluster_name_for("src/auth/login.rs"), "auth");
    assert_eq!(cluster_name_for("src/main.rs"), "src");
}

#[test]
fn what_is_generated_is_ignored_once() {
    let s = gitignore_with("target\n", ".parecode/").unwrap();
    assert!(s.contains("target"));
    assert!(s.contains(".parecode/"));
    assert!(gitignore_with(&s, ".parecode/").is_none());
}

#[test]
fn a_task_leads_to_the_files_it_names() {
    let graph = build(&MULTI_CLUSTER);
    let anchors = anchor_files_from_task("fix login in src/auth/login.rs", &vec![], &graph);
    assert!(anchors.contains(&"src/auth/login.rs".to_string()));
    assert!(anchor_files_from_task("lo éé", &vec![], &graph).is_empty());
    let focus = focus_files("fix it", &vec!["src/server.rs".to_string()], &graph);
    assert!(focus.contains(&"src/server.rs".to_string()));
}

#[test]
fn names_in_a_plan_are_resolved_to_files() {
    let graph = build(&MULTI_CLUSTER);
    let files = graph.resolve_files(&["src/server.rs".to_string(), "auth".to_string()]);
    assert!(files.contains(&"src/server.rs".to_string()));
}

#[test]
fn the_summary_is_told_as_an_answer_to_a_call() {
    let ms = pie_injection_messages(Some("# Project".to_string()));
    assert_eq!(ms.len(), 2);
    assert_eq!(ms[0].role, "assistant");
    assert_eq!(ms[0].tool_calls[0].id, "pie_ctx_0");
    assert!(pie_injection_messages(None).is_empty());
}
