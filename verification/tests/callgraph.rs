use parecode::callgraph::{add_signatures, format_compact, CallExtractor};
use parecode::index::{compute_end_lines, Symbol, SymbolKind};
use parecode::names::NameMap;

fn make_sym(name: &str, file: &str, line: usize, end_line: usize) -> Symbol {
    Symbol {
        name: name.to_string(),
        file: file.to_string(),
        line,
        end_line,
        kind: SymbolKind::Function,
        signature: None,
    }
}

fn known(names: &[&str]) -> NameMap<Vec<String>> {
    let mut m = NameMap::new();
    for n in names {
        m.insert(n.to_string(), vec!["src/fake.rs".to_string()]);
    }
    m
}

#[test]
fn test_plain_call() {
    let src = r#"
fn caller() {
    dispatch_tool();
}
fn dispatch_tool() {}
"#;
    let mut symbols = vec![
        make_sym("caller", "src/a.rs", 2, 4),
        make_sym("dispatch_tool", "src/a.rs", 5, 5),
    ];
    let mut file_lines: NameMap<usize> = NameMap::new();
    file_lines.insert("src/a.rs".to_string(), 6);
    compute_end_lines(&mut symbols, &file_lines);

    let known = known(&["dispatch_tool"]);
    let mut ext = CallExtractor::new().expect("tree-sitter init");
    let edges = ext.extract_file(src, "src/a.rs", &symbols, &known);

    let key = "src/a.rs::caller";
    assert!(edges.contains(key), "expected edge from caller");
    assert_eq!(edges.get(key).unwrap()[0].callee, "dispatch_tool");
}

#[test]
fn test_scoped_call() {
    let src = r#"
fn caller() {
    crate::tools::execute(&args);
}
"#;
    let symbols = vec![make_sym("caller", "src/a.rs", 2, 4)];
    let known = known(&["execute"]);
    let mut ext = CallExtractor::new().expect("tree-sitter init");
    let edges = ext.extract_file(src, "src/a.rs", &symbols, &known);

    let key = "src/a.rs::caller";
    assert!(edges.contains(key));
    assert_eq!(edges.get(key).unwrap()[0].callee, "execute");
}

#[test]
fn test_method_call() {
    let src = r#"
fn caller(state: &mut AppState) {
    state.run_tui();
}
"#;
    let symbols = vec![make_sym("caller", "src/a.rs", 2, 4)];
    let known = known(&["run_tui"]);
    let mut ext = CallExtractor::new().expect("tree-sitter init");
    let edges = ext.extract_file(src, "src/a.rs", &symbols, &known);

    let key = "src/a.rs::caller";
    assert!(edges.contains(key));
    assert_eq!(edges.get(key).unwrap()[0].callee, "run_tui");
}

#[test]
fn test_external_calls_filtered() {
    let src = r#"
fn caller() {
    println!("hi");
    some_external_lib();
    project_fn();
}
"#;
    let symbols = vec![make_sym("caller", "src/a.rs", 2, 6)];
    let known = known(&["project_fn"]);
    let mut ext = CallExtractor::new().expect("tree-sitter init");
    let edges = ext.extract_file(src, "src/a.rs", &symbols, &known);

    let key = "src/a.rs::caller";
    assert!(edges.contains(key));
    assert_eq!(edges.get(key).unwrap().len(), 1);
    assert_eq!(edges.get(key).unwrap()[0].callee, "project_fn");
}

#[test]
fn test_dedup_multiple_calls_same_callee() {
    let src = r#"
fn caller() {
    helper();
    helper();
    helper();
}
"#;
    let symbols = vec![make_sym("caller", "src/a.rs", 2, 6)];
    let known = known(&["helper"]);
    let mut ext = CallExtractor::new().expect("tree-sitter init");
    let edges = ext.extract_file(src, "src/a.rs", &symbols, &known);

    let key = "src/a.rs::caller";
    assert!(edges.contains(key));
    assert_eq!(edges.get(key).unwrap().len(), 1);
    assert_eq!(edges.get(key).unwrap()[0].callee, "helper");
    assert_eq!(edges.get(key).unwrap()[0].call_line, 3);
}

#[test]
fn test_self_recursion_excluded() {
    let src = r#"
fn recurse(n: usize) -> usize {
    if n == 0 { 0 } else { recurse(n - 1) }
}
"#;
    let symbols = vec![make_sym("recurse", "src/a.rs", 2, 4)];
    let known = known(&["recurse"]);
    let mut ext = CallExtractor::new().expect("tree-sitter init");
    let edges = ext.extract_file(src, "src/a.rs", &symbols, &known);

    assert!(edges.get("src/a.rs::recurse").map_or(true, |v| v.is_empty()));
}

#[test]
fn test_extract_signatures_struct() {
    let mut ext = CallExtractor::new().unwrap();
    let src = r#"
struct Profile {
    model: String,
    cost_per_mtok_input: Option<f64>,
    cost_per_mtok_output: Option<f64>,
}
"#;
    let sigs = ext.extract_signatures(src);
    let sig = sigs.get("Profile").expect("Profile should be extracted");
    assert!(sig.contains("model: String"), "got: {sig}");
    assert!(sig.contains("cost_per_mtok_input: Option<f64>"), "got: {sig}");
    assert!(sig.contains("cost_per_mtok_output: Option<f64>"), "got: {sig}");
}

#[test]
fn test_extract_signatures_enum() {
    let mut ext = CallExtractor::new().unwrap();
    let src = r#"
enum UiEvent {
    TokenStats { input_tokens: u32, output_tokens: u32 },
    AgentDone,
    Message(String),
}
"#;
    let sigs = ext.extract_signatures(src);
    let sig = sigs.get("UiEvent").expect("UiEvent should be extracted");
    assert!(sig.contains("TokenStats"), "got: {sig}");
    assert!(sig.contains("AgentDone"), "got: {sig}");
    assert!(sig.contains("Message"), "got: {sig}");
}

#[test]
fn test_extract_signatures_trait() {
    let mut ext = CallExtractor::new().unwrap();
    let src = r#"
trait Execute {
    fn execute(&self) -> String;
    fn definition(&self) -> Value;
}
"#;
    let sigs = ext.extract_signatures(src);
    let sig = sigs.get("Execute").expect("Execute should be extracted");
    assert!(sig.contains("execute"), "got: {sig}");
    assert!(sig.contains("definition"), "got: {sig}");
}

#[test]
fn test_extract_constructions_scoped_variant() {
    let mut ext = CallExtractor::new().unwrap();
    let src = r#"
fn run_tui() {
    let _ = ui_tx.send(UiEvent::TokenStats { input: 1, output: 2 });
    let _ = ui_tx.send(UiEvent::AgentDone);
}
"#;
    let symbols = vec![make_sym("run_tui", "src/a.rs", 2, 6)];
    let known = known(&["run_tui"]);
    let edges = ext.extract_constructions(src, "src/a.rs", &symbols, &known);

    let key = "src/a.rs::run_tui";
    assert!(edges.contains(key), "expected construction edges from run_tui");
    let callees: Vec<&str> = edges.get(key).unwrap().iter().map(|e| e.callee.as_str()).collect();
    assert!(callees.contains(&"UiEvent::TokenStats"), "expected TokenStats: {:?}", callees);
}

#[test]
fn test_extract_constructions_plain_struct() {
    let mut ext = CallExtractor::new().unwrap();
    let src = r#"
fn make_state() -> AppState {
    AppState { name: "x".to_string() }
}
"#;
    let symbols = vec![make_sym("make_state", "src/a.rs", 2, 4)];
    let mut known_names = known(&["make_state"]);
    known_names.insert("AppState".to_string(), vec!["src/app.rs".to_string()]);
    let edges = ext.extract_constructions(src, "src/a.rs", &symbols, &known_names);

    let key = "src/a.rs::make_state";
    assert!(edges.contains(key), "expected construction edge for AppState");
    assert!(edges.get(key).unwrap().iter().any(|e| e.callee == "AppState"));
}

#[test]
fn test_extract_constructions_self_resolution() {
    let mut ext = CallExtractor::new().unwrap();
    let src = r#"
struct ResolvedConfig { endpoint: String }
impl ResolvedConfig {
    pub fn resolve() -> Self {
        Self { endpoint: "http://localhost".to_string() }
    }
}
"#;
    let symbols = vec![
        make_sym("ResolvedConfig", "src/config.rs", 2, 2),
        make_sym("resolve", "src/config.rs", 4, 6),
    ];
    let mut known_names = known(&["resolve"]);
    known_names.insert("ResolvedConfig".to_string(), vec!["src/config.rs".to_string()]);
    let edges = ext.extract_constructions(src, "src/config.rs", &symbols, &known_names);

    let key = "src/config.rs::resolve";
    assert!(edges.contains(key), "expected construction edge from resolve");
    assert!(
        edges.get(key).unwrap().iter().any(|e| e.callee == "ResolvedConfig"),
        "expected callee=ResolvedConfig"
    );
}

#[test]
fn test_extract_constructions_dedup() {
    let mut ext = CallExtractor::new().unwrap();
    let src = r#"
fn sender() {
    send(UiEvent::TokenStats { input: 1, output: 1 });
    send(UiEvent::TokenStats { input: 2, output: 2 });
}
"#;
    let symbols = vec![make_sym("sender", "src/a.rs", 2, 6)];
    let known = known(&["sender"]);
    let edges = ext.extract_constructions(src, "src/a.rs", &symbols, &known);
    let key = "src/a.rs::sender";
    let count = edges.get(key).map_or(0, |v| v.len());
    assert_eq!(count, 1, "expected dedup");
}

#[test]
fn test_extract_constructions_new_method() {
    let mut ext = CallExtractor::new().unwrap();
    let src = r#"
fn setup(cfg: Config) -> AppState {
    AppState::new(cfg)
}
fn also_default() -> AppState {
    AppState::default()
}
"#;
    let symbols = vec![
        make_sym("setup", "src/a.rs", 2, 4),
        make_sym("also_default", "src/a.rs", 5, 7),
    ];
    let known = known(&["setup", "also_default", "AppState"]);
    let edges = ext.extract_constructions(src, "src/a.rs", &symbols, &known);
    let setup_edges = edges.get("src/a.rs::setup").expect("setup should have edges");
    assert!(setup_edges.iter().any(|e| e.callee == "AppState"), "::new() should be tracked");
    let def_edges = edges.get("src/a.rs::also_default").expect("also_default should have edges");
    assert!(def_edges.iter().any(|e| e.callee == "AppState"), "::default() should be tracked");
}

#[test]
fn test_format_compact_truncation() {
    let items: Vec<String> = (0..20).map(|i| format!("field_{i}: SomeLongTypeName")).collect();
    let result = format_compact(&items, 200);
    assert!(result.len() <= 210, "should be near max: {}", result.len());
    assert!(result.contains("more"), "should note truncation: {result}");
}

#[test]
fn a_call_belongs_to_the_innermost_function() {
    let src = r#"
fn outer() {
    fn inner() {
        helper();
    }
}
"#;
    let symbols = vec![
        make_sym("outer", "src/a.rs", 2, 6),
        make_sym("inner", "src/a.rs", 3, 5),
    ];
    let known = known(&["helper"]);
    let mut ext = CallExtractor::new().unwrap();
    let edges = ext.extract_file(src, "src/a.rs", &symbols, &known);
    assert!(edges.contains("src/a.rs::inner"));
    assert!(!edges.contains("src/a.rs::outer"));
}

#[test]
fn self_is_the_type_of_the_innermost_impl() {
    let mut ext = CallExtractor::new().unwrap();
    let src = "impl Outer {
    fn make() -> u8 {
        struct Inner;
        impl Inner {
            fn one() -> Self {
                Self {}
            }
        }
        impl A { fn a() -> Self { Self {} } } impl B { fn b() -> Self { Self {} } }
        0
    }
}
";
    let symbols = vec![make_sym("one", "a.rs", 5, 7), make_sym("a", "a.rs", 9, 9)];
    let edges = ext.extract_constructions(src, "a.rs", &symbols, &known(&[]));
    let one: Vec<&str> =
        edges.get("a.rs::one").unwrap().iter().map(|e| e.callee.as_str()).collect();
    assert_eq!(one, vec!["Inner"]);
    let both: Vec<&str> =
        edges.get("a.rs::a").unwrap().iter().map(|e| e.callee.as_str()).collect();
    assert_eq!(both, vec!["A", "B"]);
}

#[test]
fn types_get_their_signatures() {
    let mut ext = CallExtractor::new().unwrap();
    let signatures = ext.extract_signatures("struct P { x: u32 }\nfn P2() {}\n");
    let mut symbols = vec![
        Symbol { kind: SymbolKind::Struct, ..make_sym("P", "a.rs", 1, 1) },
        Symbol { kind: SymbolKind::Struct, ..make_sym("P", "b.rs", 1, 1) },
        make_sym("P", "a.rs", 2, 2),
    ];
    add_signatures(&mut symbols, "a.rs", &signatures);
    assert_eq!(symbols[0].signature.as_deref(), Some("{ x: u32 }"));
    assert!(symbols[1].signature.is_none());
    assert!(symbols[2].signature.is_none());
}

#[test]
fn signatures_are_measured_in_characters() {
    let items = vec!["é".repeat(8)];
    assert_eq!(format_compact(&items, 12), format!("{{ {} }}", "é".repeat(8)));
}
