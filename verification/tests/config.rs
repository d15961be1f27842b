use parecode::cli::{print_profiles, shell_of, shell_of_lower, ShellKind};
use parecode::config::{
    config_path, default_auto_commit_prefix, default_context_tokens, default_git_context,
    default_profile_name, dirs_config_dir, find_active_hooks, ConfigFile, McpServerConfig, Profile,
    ResolvedConfig, DEFAULT_CONFIG_TOML,
};
use parecode::hooks::HookConfig;
use parecode::names::NameMap;

fn profile(endpoint: &str, model: &str) -> Profile<f64> {
    Profile {
        endpoint: endpoint.to_string(),
        model: model.to_string(),
        ..Default::default()
    }
}

fn assert_same(a: &Profile<f64>, b: &Profile<f64>) {
    assert_eq!(a.endpoint, b.endpoint);
    assert_eq!(a.model, b.model);
    assert_eq!(a.context_tokens, b.context_tokens);
    assert_eq!(a.api_key, b.api_key);
    assert_eq!(a.planner_model, b.planner_model);
    assert_eq!(a.mcp_servers.len(), b.mcp_servers.len());
    for (s, t) in a.mcp_servers.iter().zip(&b.mcp_servers) {
        assert_eq!(s.name, t.name);
        assert_eq!(s.command, t.command);
        assert_eq!(s.env.len(), t.env.len());
        for i in 0..s.env.len() {
            assert_eq!(t.env.get(s.env.key_at(i)), Some(s.env.value_at(i)));
        }
    }
    assert_eq!(a.cost_per_mtok_input, b.cost_per_mtok_input);
    assert_eq!(a.hooks, b.hooks);
    assert_eq!(a.hooks_disabled, b.hooks_disabled);
    assert_eq!(a.auto_commit, b.auto_commit);
    assert_eq!(a.auto_commit_prefix, b.auto_commit_prefix);
    assert_eq!(a.git_context, b.git_context);
}

fn empty_file() -> ConfigFile<f64> {
    ConfigFile {
        default_profile: String::new(),
        profiles: NameMap::new(),
        hooks: NameMap::new(),
        active_hooks: None,
    }
}

// ── Default functions ────────────────────────────────────────────────────────

#[test]
fn test_default_context_tokens() {
    assert_eq!(default_context_tokens(), 32_768);
}

#[test]
fn test_default_auto_commit_prefix() {
    assert_eq!(default_auto_commit_prefix(), "parecode: ".to_string());
}

#[test]
fn test_default_git_context() {
    assert_eq!(default_git_context(), true);
}

#[test]
fn test_default_profile_name() {
    assert_eq!(default_profile_name(), "default".to_string());
}

// ── Profile ──────────────────────────────────────────────────────────────────

#[test]
fn test_profile_default() {
    let profile: Profile<f64> = Profile::default();
    assert_eq!(profile.endpoint, "http://localhost:11434/v1/chat/completions");
    assert_eq!(profile.model, "qwen3:14b");
    assert_eq!(profile.context_tokens, 32_768);
    assert_eq!(profile.api_key, None);
    assert_eq!(profile.planner_model, None);
    assert!(profile.mcp_servers.is_empty());
    assert_eq!(profile.cost_per_mtok_input, None);
    assert_eq!(profile.hooks, HookConfig::default());
    assert_eq!(profile.hooks_disabled, false);
    assert_eq!(profile.auto_commit, false);
    assert_eq!(profile.auto_commit_prefix, "parecode: ".to_string());
    assert_eq!(profile.git_context, true);
}

// ── ConfigFile ───────────────────────────────────────────────────────────────

#[test]
fn test_config_file_resolve_profile() {
    let mut file = empty_file();
    file.default_profile = "local".to_string();
    file.profiles.insert("local".to_string(), profile("http://example.com", "test"));
    file.profiles.insert("other".to_string(), Profile::default());

    assert_same(file.resolve_profile(None).unwrap(), &profile("http://example.com", "test"));
    assert_same(file.resolve_profile(Some("other")).unwrap(), &Profile::default());
    assert!(file.resolve_profile(Some("missing")).is_none());
    let empty = empty_file();
    assert!(empty.resolve_profile(None).is_none());
    assert!(empty.resolve_profile(Some("local")).is_none());
}

// ── ResolvedConfig ───────────────────────────────────────────────────────────

#[test]
fn test_resolved_config_resolve() {
    let mut file = empty_file();
    file.default_profile = "local".to_string();
    let local = Profile {
        endpoint: "http://example.com".to_string(),
        model: "model1".to_string(),
        context_tokens: 1000,
        api_key: Some("key1".to_string()),
        planner_model: Some("planner1".to_string()),
        cost_per_mtok_input: Some(0.5),
        hooks: HookConfig::default(),
        hooks_disabled: false,
        auto_commit: true,
        auto_commit_prefix: "prefix: ".to_string(),
        git_context: false,
        ..Default::default()
    };
    file.profiles.insert("local".to_string(), local);
    file.hooks.insert("rust".to_string(), HookConfig::default());
    file.active_hooks = Some("rust".to_string());

    let resolved = ResolvedConfig::resolve(&file, None, None, None, None);
    assert_eq!(resolved.endpoint, "http://example.com");
    assert_eq!(resolved.model, "model1");
    assert_eq!(resolved.context_tokens, 1000);
    assert_eq!(resolved.api_key, Some("key1".to_string()));
    assert_eq!(resolved.profile_name, "local");
    assert_eq!(resolved.planner_model, Some("planner1".to_string()));
    assert_eq!(resolved.cost_per_mtok_input, Some(0.5));
    assert_eq!(resolved.hooks, HookConfig::default());
    assert_eq!(resolved.hooks_disabled, false);
    assert_eq!(resolved.auto_commit, true);
    assert_eq!(resolved.auto_commit_prefix, "prefix: ".to_string());
    assert_eq!(resolved.git_context, false);
    assert_eq!(resolved.available_hooks, vec!["rust".to_string()]);
    assert_eq!(resolved.active_hooks, Some("rust".to_string()));
    assert_eq!(resolved.active_hook_config, HookConfig::default());

    file.profiles.insert("other".to_string(), profile("http://other.com", "model2"));
    let resolved = ResolvedConfig::resolve(&file, Some("other"), None, None, None);
    assert_eq!(resolved.endpoint, "http://other.com");
    assert_eq!(resolved.model, "model2");
    assert_eq!(resolved.profile_name, "other");

    let resolved = ResolvedConfig::resolve(
        &file,
        None,
        Some("http://override.com"),
        Some("override_model"),
        Some("override_key"),
    );
    assert_eq!(resolved.endpoint, "http://override.com");
    assert_eq!(resolved.model, "override_model");
    assert_eq!(resolved.api_key, Some("override_key".to_string()));
    assert_eq!(resolved.context_tokens, 1000);
    assert_eq!(resolved.planner_model, Some("planner1".to_string()));
}

// ── Constants ────────────────────────────────────────────────────────────────

#[test]
fn test_default_config_toml_is_valid() {
    toml::from_str::<toml::Value>(DEFAULT_CONFIG_TOML).unwrap();
}

// ── Paths ────────────────────────────────────────────────────────────────────

#[test]
fn test_config_path() {
    assert!(config_path(None, Some("/home/u")).ends_with("parecode/config.toml"));
    assert!(config_path(Some("/x"), Some("/home/u")).ends_with("parecode/config.toml"));
    assert!(config_path(None, None).ends_with("parecode/config.toml"));
}

#[test]
fn test_dirs_config_dir_env() {
    assert_eq!(dirs_config_dir(Some("/x"), Some("/home/u")).as_deref(), Some("/x"));
    assert_eq!(dirs_config_dir(None, Some("/home/u")).as_deref(), Some("/home/u/.config"));
    assert!(dirs_config_dir(None, None).is_none());
}

#[test]
fn the_active_hooks_are_found_on_their_line() {
    assert_eq!(find_active_hooks("active_hooks = \"rust\"\n").as_deref(), Some("rust"));
    assert!(find_active_hooks("default_profile = \"x\"\n").is_none());
    let loaded = ConfigFile::load(empty_file(), "active_hooks = \"rust\"\n");
    assert_eq!(loaded.active_hooks.as_deref(), Some("rust"));
}

#[test]
fn a_server_is_copied_whole() {
    let mut env = NameMap::new();
    env.insert("BRAVE_API_KEY".to_string(), "BSA...".to_string());
    let server = McpServerConfig {
        name: "brave".to_string(),
        command: vec!["npx".to_string(), "-y".to_string()],
        env,
    };
    let copy = server.clone();
    assert_eq!(copy.name, "brave");
    assert_eq!(copy.command, vec!["npx", "-y"]);
    assert_eq!(copy.env.get("BRAVE_API_KEY"), Some(&"BSA...".to_string()));
}

// ── The command line ─────────────────────────────────────────────────────────

#[test]
fn profiles_are_listed_by_name() {
    let mut file = empty_file();
    file.default_profile = "b".to_string();
    file.profiles.insert("b".to_string(), profile("http://b", "mb"));
    file.profiles.insert("a".to_string(), profile("http://a", "ma"));
    assert_eq!(
        print_profiles(&file),
        "\n  Profiles\n  a\n    endpoint  http://a\n    model     ma\n    context   32k\n\n  b ←\n    endpoint  http://b\n    model     mb\n    context   32k\n\n"
    );
    assert_eq!(print_profiles(&empty_file()), "\n  Profiles\n");
}

#[test]
fn shells_go_by_their_names() {
    assert_eq!(shell_of("Bash"), Some(ShellKind::Bash));
    assert_eq!(shell_of("ZSH"), Some(ShellKind::Zsh));
    assert_eq!(shell_of("fish"), Some(ShellKind::Fish));
    assert_eq!(shell_of("Elvish"), Some(ShellKind::Elvish));
    assert_eq!(shell_of("tcsh"), None);
    assert_eq!(shell_of_lower("Bash"), None);
}
