use parecode::index::{
    extract_c, extract_go, extract_python, extract_rust, extract_ts, ident_at_start, is_source,
    truncate_at_word, visited, worth_visiting, SymbolIndex, SymbolKind,
};

#[test]
fn test_rust_symbols() {
    let cases = vec![
        ("pub fn validate_token(", SymbolKind::Function, "validate_token"),
        ("pub async fn handle_request(", SymbolKind::Function, "handle_request"),
        ("fn internal(", SymbolKind::Function, "internal"),
        ("pub struct AuthError {", SymbolKind::Struct, "AuthError"),
        ("pub enum Status {", SymbolKind::Enum, "Status"),
        ("pub trait Authenticate {", SymbolKind::Trait, "Authenticate"),
        ("impl AuthService {", SymbolKind::Impl, "AuthService"),
        ("pub const MAX_RETRIES:", SymbolKind::Constant, "MAX_RETRIES"),
    ];
    for (line, expected_kind, expected_name) in cases {
        let result = extract_rust(line);
        assert!(result.is_some(), "Failed to extract from: {line}");
        let (kind, name) = result.unwrap();
        assert_eq!(kind, expected_kind, "Wrong kind for: {line}");
        assert_eq!(name, expected_name, "Wrong name for: {line}");
    }
}

#[test]
fn test_ts_symbols() {
    let cases = vec![
        ("export function processUser(", SymbolKind::Function, "processUser"),
        ("export async function fetchData(", SymbolKind::Function, "fetchData"),
        ("export class UserService {", SymbolKind::Class, "UserService"),
        ("export interface UserProfile {", SymbolKind::Struct, "UserProfile"),
    ];
    for (line, expected_kind, expected_name) in cases {
        let result = extract_ts(line);
        assert!(result.is_some(), "Failed to extract from: {line}");
        let (kind, name) = result.unwrap();
        assert_eq!(kind, expected_kind, "Wrong kind for: {line}");
        assert_eq!(name, expected_name, "Wrong name for: {line}");
    }
}

#[test]
fn test_python_symbols() {
    assert_eq!(
        extract_python("def process_request("),
        Some((SymbolKind::Function, "process_request".to_string()))
    );
    assert_eq!(
        extract_python("async def fetch_data("),
        Some((SymbolKind::Function, "fetch_data".to_string()))
    );
    assert_eq!(
        extract_python("class UserService:"),
        Some((SymbolKind::Class, "UserService".to_string()))
    );
}

#[test]
fn test_ident_at_start() {
    assert_eq!(ident_at_start("foo(bar)"), Some("foo".to_string()));
    assert_eq!(ident_at_start("MyStruct {"), Some("MyStruct".to_string()));
    assert_eq!(ident_at_start("  leading"), Some("leading".to_string()));
    assert_eq!(ident_at_start("(not_ident"), None);
    assert_eq!(ident_at_start(""), None);
}

#[test]
fn go_and_c_have_symbols_too() {
    assert_eq!(
        extract_go("func Serve(w int) {"),
        Some((SymbolKind::Function, "Serve".to_string()))
    );
    assert_eq!(
        extract_c("struct point {"),
        Some((SymbolKind::Struct, "point".to_string()))
    );
}

#[test]
fn a_symbol_ends_before_the_next() {
    let files = vec![(
        "src/a.rs".to_string(),
        "pub fn one() {\n}\n\npub fn two(x: u32) -> u32 {\n    x\n}\n".to_string(),
    )];
    let idx = SymbolIndex::build(&files);
    assert_eq!(idx.symbols.len(), 2);
    assert_eq!(idx.symbols[0].name, "one");
    assert_eq!(idx.symbols[0].line, 1);
    assert!(idx.symbols[0].end_line < idx.symbols[1].line);
    assert_eq!(idx.symbols[1].end_line, 6);
    assert_eq!(idx.file_lines.get("src/a.rs"), Some(&6));
    assert_eq!(idx.by_name.get("two"), Some(&vec!["src/a.rs".to_string()]));
}

#[test]
fn only_sources_are_indexed() {
    assert!(is_source("src/a.rs"));
    assert!(!is_source("a.png"));
    assert!(visited("src"));
    assert!(!visited("target"));
    assert!(!visited(".git"));
}

#[test]
fn words_stay_whole_where_text_is_cut() {
    assert_eq!(truncate_at_word("alpha beta", 100), "alpha beta");
    let s = truncate_at_word("alpha beta gamma", 12);
    assert!(s.starts_with("alpha beta"));
    assert!(!s.contains("gam"));
}

#[test]
fn directories_are_walked_by_name() {
    let entries = vec![
        ("src".to_string(), true),
        ("b.rs".to_string(), false),
        ("target".to_string(), true),
        ("a.py".to_string(), false),
        ("notes.txt".to_string(), false),
        (".hidden.rs".to_string(), false),
    ];
    assert_eq!(
        worth_visiting(entries),
        vec![
            ("a.py".to_string(), false),
            ("b.rs".to_string(), false),
            ("src".to_string(), true),
        ]
    );
}
