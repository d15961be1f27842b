use parecode::events::{print_event_plain, UiEvent};
use parecode::git::{
    answer, checkpoint_hash, is_git_repo, parse_checkpoints, short_status, toplevel_args, GitRepo,
    GitRun,
};
use parecode::grep::{
    bash_graph_intercept, extract_grep_pattern, extract_grep_target_file, intercept_file,
};
use parecode::index::SymbolIndex;
use parecode::init::{
    detect_project_manifest, extract_cargo_deps, extract_npm_deps, extract_pyproject_deps,
    json_field, run_project_init, toml_field, ProjectFiles,
};
use parecode::json::{parse_or_null, Json};
use parecode::mcp::{
    call_params, extract_text_content, initialize_params, parse_tools, request_line, split_name,
};
use parecode::names::NameMap;
use parecode::pie::ProjectGraph;
use parecode::update::{
    extract_from_tar_gz, extract_from_tar_xz, extract_from_zip, pick_member, plan_update,
    plan_update_text, version_newer, Archive, UpdatePlan,
};
use std::io::{Cursor, Read, Write};

// ── Git ──────────────────────────────────────────────────────────────────────

#[test]
fn a_repository_is_found_by_its_root() {
    let done = GitRun::Done { stdout: "/repo\n".to_string() };
    assert!(is_git_repo(&done));
    let repo = GitRepo::open(&done).unwrap();
    assert_eq!(repo.root, "/repo");
    let failed = GitRun::Failed { stderr: "not a repo".to_string() };
    assert!(!is_git_repo(&failed));
    assert!(GitRepo::open(&failed).is_none());
    assert!(toplevel_args().contains(&"rev-parse".to_string()));
    assert!(repo.status_short().args.contains(&"status".to_string()));
}

#[test]
fn a_failing_command_is_told() {
    let args = vec!["status".to_string()];
    assert_eq!(
        answer(&args, GitRun::Done { stdout: "ok".to_string() }),
        Ok("ok".to_string())
    );
    assert!(answer(&args, GitRun::Failed { stderr: "bad".to_string() })
        .unwrap_err()
        .contains("bad"));
    assert!(answer(&args, GitRun::NotStarted { error: "no git".to_string() })
        .unwrap_err()
        .contains("no git"));
}

#[test]
fn each_question_is_asked_in_the_repository() {
    let repo = GitRepo { root: "/repo".to_string() };
    let full = repo.diff_full_from("abc");
    assert_eq!(full.dir, "/repo");
    assert_eq!(full.args, vec!["diff", "abc"]);
    assert_eq!(repo.diff_stat_from("abc").args, vec!["diff", "abc", "--stat"]);
    assert_eq!(repo._diff_stat().args, vec!["diff", "HEAD", "--stat"]);
    assert_eq!(repo._diff_full().args, vec!["diff", "HEAD"]);
    assert_eq!(
        repo.list_checkpoints().args,
        vec!["log", "--format=%H|%h|%s|%ct", "--grep=parecode: checkpoint", "-20"]
    );
}

#[test]
fn an_undo_goes_back_to_a_checkpoint() {
    let repo = GitRepo { root: "/repo".to_string() };
    let none = parse_checkpoints("");
    assert!(none.is_empty());
    assert!(repo.undo(&none, 1).is_err());
    assert_eq!(checkpoint_hash("abc123\n"), "abc123");
    let found = parse_checkpoints("h1|h|parecode: checkpoint a|b|1700000000\nh2|i|m|x\nno\n");
    assert_eq!(found.len(), 2);
    assert_eq!(found[0].hash, "h1");
    assert_eq!(found[0].short_hash, "h");
    assert_eq!(found[0].message, "parecode: checkpoint a|b");
    assert_eq!(found[0].timestamp, 1700000000);
    assert_eq!((found[1].message.as_str(), found[1].timestamp), ("m", 0));
    assert_eq!(short_status(" M a.rs\n").trim(), "M a.rs");
}

// ── Grep ─────────────────────────────────────────────────────────────────────

fn small_graph() -> ProjectGraph {
    let files = vec![("src/a.rs".to_string(), "pub fn alpha() {}\n".to_string())];
    ProjectGraph::build_fresh(SymbolIndex::build(&files), NameMap::new(), 0)
}

#[test]
fn a_search_for_a_known_name_is_answered_from_the_index() {
    assert_eq!(extract_grep_pattern("grep -rn \"alpha\" src/").as_deref(), Some("alpha"));
    assert_eq!(extract_grep_pattern("ls"), None);
    assert_eq!(extract_grep_pattern("grepper alpha"), None);
    assert_eq!(extract_grep_pattern("  rg alpha").as_deref(), Some("alpha"));
    let graph = small_graph();
    let args = parse_or_null(r#"{"command":"grep -rn alpha src/"}"#);
    let s = bash_graph_intercept(&args, &graph, None).unwrap();
    assert!(s.contains("alpha"));
    assert!(s.contains("src/a.rs"));
    let other = parse_or_null(r#"{"command":"grep -rn unknown_name src/"}"#);
    assert!(bash_graph_intercept(&other, &graph, None).is_none());
    let _ = intercept_file(&args, &graph);
    let _ = extract_grep_target_file("grep alpha src/a.rs");
}

// ── Events ───────────────────────────────────────────────────────────────────

#[test]
fn events_are_printed_plainly() {
    let mut i = 0;
    let mut o = 0;
    let s = print_event_plain(
        &UiEvent::ToolCall { name: "bash".to_string(), args_summary: "ls".to_string() },
        "▸",
        &mut i,
        &mut o,
    );
    assert_eq!(s, "\n  ▸ bash ls\n");
    let s = print_event_plain(
        &UiEvent::ToolResult { summary: "one\ntwo".to_string() },
        "",
        &mut i,
        &mut o,
    );
    assert_eq!(s, "    → one\n");
    let s = print_event_plain(&UiEvent::AgentError("boom".to_string()), "", &mut i, &mut o);
    assert_eq!(s, "\n  ✗ boom\n");
    i = 3;
    o = 4;
    let s = print_event_plain(&UiEvent::AgentError("boom".to_string()), "", &mut i, &mut o);
    assert_eq!(s, "\n  ✗ boom  (partial: in 3 out 4)\n");
    let s = print_event_plain(&UiEvent::BudgetWarning, "", &mut i, &mut o);
    assert_eq!(s, "  ⟳ context compressed\n");
}

// ── Servers of tools ─────────────────────────────────────────────────────────

#[test]
fn a_request_is_one_line_of_json() {
    let line = request_line(7, "tools/list", None);
    assert_eq!(line, "{\"jsonrpc\":\"2.0\",\"id\":7,\"method\":\"tools/list\"}\n");
    assert_eq!(
        request_line(8, "a\"b", Some(parse_or_null("[1]"))),
        "{\"jsonrpc\":\"2.0\",\"id\":8,\"method\":\"a\\\"b\",\"params\":[1]}\n"
    );
    let j = parse_or_null(&line);
    assert_eq!(j.text_of("method").as_deref(), Some("tools/list"));
    assert_eq!(j.text_of("jsonrpc").as_deref(), Some("2.0"));
    assert!(matches!(j.get("id"), Some(Json::Number(n)) if n == "7"));
    assert!(initialize_params().get("protocolVersion").is_some());
    let p = call_params("find", Json::Null);
    assert_eq!(p.text_of("name").as_deref(), Some("find"));
}

#[test]
fn the_answer_of_a_tool_is_its_text() {
    let j = parse_or_null(r#"{"content":[{"type":"text","text":"a"},{"type":"text","text":"b"}]}"#);
    assert_eq!(extract_text_content(&j), "a\nb");
}

#[test]
fn tools_are_named_after_their_server() {
    let j = parse_or_null(r#"{"tools":[{"name":"find","description":"d","inputSchema":{}}]}"#);
    let tools = parse_tools("srv", &j);
    assert_eq!(tools.len(), 1);
    let (server, tool) = split_name(&tools[0].qualified_name).unwrap();
    assert_eq!((server.as_str(), tool.as_str()), ("srv", "find"));
    assert!(split_name("nothing").is_err());
}

// ── A project's files ────────────────────────────────────────────────────────

fn project(files: &[(&str, &str)]) -> ProjectFiles {
    let mut m = NameMap::new();
    for (name, content) in files {
        m.insert(name.to_string(), Some(content.to_string()));
    }
    ProjectFiles { files: m }
}

#[test]
fn dependencies_are_read_line_by_line() {
    assert_eq!(
        extract_cargo_deps("[dependencies]\nserde = \"1\"\n# x\ntokio = { version = \"1\" }\n[dev-dependencies]\na = \"1\"\n"),
        "serde, tokio"
    );
    assert_eq!(
        extract_npm_deps("{\n  \"dependencies\": {\n    \"react\": \"18\",\n    \"vue\": \"3\"\n  }\n}"),
        "react, vue"
    );
    assert_eq!(
        extract_pyproject_deps("dependencies = [\n  \"requests>=2.0\",\n  'flask',\n]\n"),
        "requests, flask"
    );
    let many: String = (0..12).map(|i| format!("d{i} = \"1\"\n")).collect();
    assert_eq!(
        extract_cargo_deps(&format!("[dependencies]\n{many}")),
        "d0, d1, d2, d3, d4, d5, d6, d7"
    );
}

#[test]
fn fields_are_found_on_their_lines() {
    assert_eq!(toml_field("[package]\nname = \"demo\"\n", "name").as_deref(), Some("demo"));
    assert_eq!(json_field("{\n  \"name\": \"demo\",\n}", "name").as_deref(), Some("demo"));
    assert_eq!(toml_field("x = 1", "name"), None);
}

#[test]
fn the_first_manifest_counts() {
    let p = project(&[
        ("Cargo.toml", "[package]\nname = \"demo\"\n\n[dependencies]\nserde = \"1\"\n"),
        ("package.json", "{}"),
        ("rustfmt.toml", ""),
        ("README.md", "# Demo\ntext\n"),
        ("AGENTS.md", "Be brief."),
    ]);
    let m = detect_project_manifest(&p);
    assert_eq!(m.language, "Rust");
    assert_eq!(
        run_project_init(&p, "NOTES.md"),
        "# Project: demo\nLanguage: Rust\nTest runner: `cargo test`\nKey dependencies: serde\n\n## Style\n- Rust: rustfmt enforced (run `cargo fmt` after edits)\n\n## README (first 50 lines)\n# Demo\ntext\n\n## Existing conventions (from AGENTS.md)\nBe brief."
    );
    let go = project(&[("go.mod", "module example.com/x\n")]);
    assert_eq!(detect_project_manifest(&go).name, "example.com/x");
    assert_eq!(run_project_init(&project(&[]), "NOTES.md"), "# Project: project\n");
}

#[test]
fn node_projects_are_told_apart() {
    let p = project(&[("package.json", "{\n \"name\": \"w\",\n \"vitest\": 1}"), ("tsconfig.json", "")]);
    let m = detect_project_manifest(&p);
    assert_eq!(m.name, "w");
    assert_eq!(m.language, "TypeScript (Node.js)");
    assert_eq!(m.test_runner, "npx vitest");
}

// ── Updates ──────────────────────────────────────────────────────────────────

#[test]
fn versions_are_compared_number_by_number() {
    assert!(version_newer("0.10.0", "0.9.9"));
    assert!(version_newer("1.0", "0.9.9"));
    assert!(!version_newer("1.0", "1.0.0"));
    assert!(!version_newer("1.0.0", "1.0.1"));
}

const RELEASE: &str = r#"{"tag_name":"v1.2.0","assets":[
    {"name":"parecode-x86_64-unknown-linux-musl.tar.gz","browser_download_url":"u/a.tar.gz"},
    {"name":"parecode-x86_64-unknown-linux-musl.tar.xz","browser_download_url":"u/a.tar.xz"},
    {"name":"parecode-x86_64-pc-windows-msvc.zip","browser_download_url":"u/a.zip"}]}"#;

#[test]
fn the_archive_of_the_platform_is_chosen() {
    match plan_update_text(RELEASE, "1.1.0", "x86_64", "linux") {
        UpdatePlan::Download { latest, url, archive, binary, .. } => {
            assert_eq!(latest, "1.2.0");
            assert_eq!(url, "u/a.tar.xz");
            assert_eq!(archive, Archive::TarXz);
            assert_eq!(binary, "parecode");
        }
        other => panic!("expected a download, got {other:?}"),
    }
    match plan_update_text(RELEASE, "1.1.0", "x86_64", "windows") {
        UpdatePlan::Download { url, archive, binary, .. } => {
            assert_eq!(url, "u/a.zip");
            assert_eq!(archive, Archive::Zip);
            assert_eq!(binary, "parecode.exe");
        }
        other => panic!("expected a download, got {other:?}"),
    }
    assert!(matches!(
        plan_update_text(RELEASE, "1.1.0", "aarch64", "linux"),
        UpdatePlan::NoAsset { .. }
    ));
    assert!(matches!(
        plan_update_text(RELEASE, "1.1.0", "riscv64", "linux"),
        UpdatePlan::NoPlatform { .. }
    ));
    assert!(matches!(
        plan_update_text(RELEASE, "1.2.0", "x86_64", "linux"),
        UpdatePlan::UpToDate
    ));
}

#[test]
fn a_release_that_says_too_little_is_an_error() {
    let error = |p: UpdatePlan| match p {
        UpdatePlan::Failed { error } => error,
        other => panic!("expected an error, got {other:?}"),
    };
    assert_eq!(
        error(plan_update(&Json::Null, "1.0.0", "x86_64", "linux")),
        "No tag_name in release response"
    );
    assert_eq!(
        error(plan_update_text(r#"{"tag_name":"v9"}"#, "1.0.0", "x86_64", "linux")),
        "No assets in release"
    );
    assert!(!error(plan_update_text("{", "1.0.0", "x86_64", "linux")).is_empty());
}

fn tarball(files: &[(&str, &[u8])]) -> Vec<u8> {
    let mut builder = tar::Builder::new(Vec::new());
    for (path, data) in files {
        let mut header = tar::Header::new_gnu();
        header.set_size(data.len() as u64);
        header.set_mode(0o644);
        header.set_cksum();
        builder.append_data(&mut header, path, *data).unwrap();
    }
    builder.into_inner().unwrap()
}

const FILES: [(&str, &[u8]); 3] = [
    ("pkg/README.md", b"read me"),
    ("pkg/parecode", b"first"),
    ("other/parecode", b"second"),
];

#[test]
fn the_first_file_of_the_name_is_taken_out_of_a_tarball() {
    let raw = tarball(&FILES);
    let mut xz = Vec::new();
    xz2::read::XzEncoder::new(raw.as_slice(), 6).read_to_end(&mut xz).unwrap();
    assert_eq!(extract_from_tar_xz(&xz, "parecode"), Ok(b"first".to_vec()));
    assert_eq!(
        extract_from_tar_xz(&xz, "missing"),
        Err("Binary 'missing' not found in archive".to_string())
    );
    assert!(extract_from_tar_xz(b"no xz", "parecode").is_err());
    let mut gz = Vec::new();
    flate2::read::GzEncoder::new(raw.as_slice(), flate2::Compression::default())
        .read_to_end(&mut gz)
        .unwrap();
    assert_eq!(extract_from_tar_gz(&gz, "parecode"), Ok(b"first".to_vec()));
    assert_eq!(
        extract_from_tar_gz(&gz, "missing"),
        Err("Binary 'missing' not found in archive".to_string())
    );
    assert!(extract_from_tar_gz(b"no gzip", "parecode").is_err());
}

#[test]
fn a_file_before_the_damage_is_still_taken_out() {
    let mut raw = tarball(&FILES);
    raw.truncate(512 + 512 + 512 + 512 + 512 + 3);
    let mut gz = Vec::new();
    flate2::read::GzEncoder::new(raw.as_slice(), flate2::Compression::default())
        .read_to_end(&mut gz)
        .unwrap();
    assert_eq!(extract_from_tar_gz(&gz, "parecode"), Ok(b"first".to_vec()));
}

#[test]
fn the_first_file_of_the_name_is_taken_out_of_a_zip() {
    let mut zip = zip::ZipWriter::new(Cursor::new(Vec::new()));
    let options = zip::write::SimpleFileOptions::default();
    for (path, data) in FILES {
        zip.start_file(path, options).unwrap();
        zip.write_all(data).unwrap();
    }
    let bytes = zip.finish().unwrap().into_inner();
    assert_eq!(extract_from_zip(&bytes, "parecode"), Ok(b"first".to_vec()));
    assert_eq!(
        extract_from_zip(&bytes, "missing"),
        Err("Binary 'missing' not found in zip".to_string())
    );
    assert!(extract_from_zip(b"no zip", "parecode").is_err());
}

#[test]
fn what_ended_the_list_is_told_where_the_name_is_not_on_it() {
    let listing = || (vec!["a/b".to_string()], Some("broken".to_string()));
    assert_eq!(pick_member(listing(), "b", "archive"), Ok(0));
    assert_eq!(pick_member(listing(), "c", "archive"), Err("broken".to_string()));
}
