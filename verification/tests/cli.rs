use piso::auth::{collect_available_models, provider_for_env_var, AuthStorage};
use piso::cli::{default_api_type, parse_model_pattern, provider_display_name, resolve_mode, AppMode, Cli};
use piso::config::{config_dir_in, join_path, project_skills_dir, session_dir_in, Config};
use piso::subcommands::{derive_extension_name, extension_name_from_stem, ExtensionEntry, Settings};
use piso::version::{format_update_hint, newer_version, VERSION};

#[test]
fn provider_display_known() {
    assert_eq!(provider_display_name("glm"), "Zhipu AI");
    assert_eq!(provider_display_name("zhipu"), "Zhipu AI");
    assert_eq!(provider_display_name("openai"), "OpenAI");
    assert_eq!(provider_display_name("anthropic"), "Anthropic");
    assert_eq!(provider_display_name("deepseek"), "DeepSeek");
    assert_eq!(provider_display_name("gemini"), "Google Gemini");
    assert_eq!(provider_display_name("google"), "Google Gemini");
    assert_eq!(provider_display_name("google-vertex"), "Google Vertex AI");
}

#[test]
fn provider_display_unknown_capitalised() {
    assert_eq!(provider_display_name("acme"), "Acme");
    assert_eq!(provider_display_name("éclair"), "Éclair");
    assert_eq!(provider_display_name("9lives"), "9lives");
    assert_eq!(provider_display_name(""), "");
}

#[test]
fn parse_model_pattern_provider_and_thinking() {
    let (model, provider, thinking) = parse_model_pattern("openai/gpt-4o:high");
    assert_eq!(model.as_deref(), Some("gpt-4o"));
    assert_eq!(provider.as_deref(), Some("openai"));
    assert_eq!(thinking.as_deref(), Some("high"));
}

#[test]
fn parse_model_pattern_thinking_only() {
    let (model, provider, thinking) = parse_model_pattern("sonnet:medium");
    assert_eq!(model.as_deref(), Some("sonnet"));
    assert_eq!(provider, None);
    assert_eq!(thinking.as_deref(), Some("medium"));
}

#[test]
fn parse_model_pattern_provider_only() {
    let (model, provider, thinking) = parse_model_pattern("anthropic/sonnet-4");
    assert_eq!(model.as_deref(), Some("sonnet-4"));
    assert_eq!(provider.as_deref(), Some("anthropic"));
    assert_eq!(thinking, None);
}

#[test]
fn parse_model_pattern_plain() {
    let (model, provider, thinking) = parse_model_pattern("gpt-4o");
    assert_eq!(model.as_deref(), Some("gpt-4o"));
    assert_eq!(provider, None);
    assert_eq!(thinking, None);
}

#[test]
fn parse_model_pattern_edges() {
    let (model, provider, thinking) = parse_model_pattern("openai/:x:y");
    assert_eq!(model, None);
    assert_eq!(provider.as_deref(), Some("openai"));
    assert_eq!(thinking.as_deref(), Some("x:y"));
    let (model, provider, _) = parse_model_pattern("a/b/c");
    assert_eq!(model.as_deref(), Some("b/c"));
    assert_eq!(provider.as_deref(), Some("a"));
}

#[test]
fn default_api_types() {
    assert_eq!(default_api_type("deepseek"), "openai-completions");
    assert_eq!(default_api_type("gemini"), "google-gemini");
    assert_eq!(default_api_type("anthropic"), "anthropic-messages");
    assert_eq!(default_api_type("unknown"), "anthropic-messages");
}

fn base_cli() -> Cli {
    Cli {
        provider: None,
        model: None,
        api_key: None,
        base_url: None,
        thinking: None,
        system_prompt: None,
        append_system_prompt: None,
        continue_session: false,
        resume: false,
        fork: None,
        session: None,
        mode: None,
        no_tools: false,
        no_builtin_tools: false,
        no_extensions: false,
        no_skills: false,
        no_prompt_templates: false,
        no_context_files: false,
        skill: None,
        theme: None,
        prompt_template: None,
        list_models: None,
        list_sessions: false,
        offline: false,
        verbose: false,
        init: false,
        print: false,
        export: None,
        extension: None,
        messages: Vec::new(),
        models: None,
        tools: None,
        session_dir: None,
        no_session: false,
    }
}

#[test]
fn run_mode_decisions() {
    let cli = base_cli();
    assert_eq!(resolve_mode(&cli, false), AppMode::Interactive);
    assert_eq!(resolve_mode(&cli, true), AppMode::Print);
    let mut c = base_cli();
    c.messages = vec!["hi".to_string()];
    assert_eq!(resolve_mode(&c, false), AppMode::Print);
    let mut c = base_cli();
    c.list_models = Some(None);
    assert_eq!(resolve_mode(&c, true), AppMode::ListModels);
    let mut c = base_cli();
    c.mode = Some("rpc".to_string());
    assert_eq!(resolve_mode(&c, false), AppMode::Rpc);
    c.mode = Some("json".to_string());
    assert_eq!(resolve_mode(&c, false), AppMode::Print);
    let mut c = base_cli();
    c.init = true;
    c.list_sessions = true;
    assert_eq!(resolve_mode(&c, false), AppMode::ListSessions);
}

#[test]
fn derive_name_from_file() {
    assert_eq!(derive_extension_name("./my-ext.rs"), "my-ext");
    assert_eq!(derive_extension_name("/path/to/foo.js"), "foo");
    assert_eq!(derive_extension_name("bar"), "bar");
}

#[test]
fn derive_name_from_url() {
    assert_eq!(derive_extension_name("https://example.com/ext/hello.rs"), "hello");
}

#[test]
fn extension_name_rules() {
    assert_eq!(extension_name_from_stem(None), "unknown");
    assert_eq!(extension_name_from_stem(Some("x.rs.rs.js")), "x.rs.rs");
    assert_eq!(extension_name_from_stem(Some(".")), "unnamed-extension");
    assert_eq!(extension_name_from_stem(Some(".rs")), "unnamed-extension");
}

#[test]
fn settings_find_index() {
    let settings = Settings {
        extensions: vec![
            ExtensionEntry { name: "foo".to_string(), source: "/path/foo.rs".to_string(), enabled: true },
            ExtensionEntry { name: "bar".to_string(), source: "https://x.com/bar.rs".to_string(), enabled: true },
        ],
    };

    assert_eq!(settings.find_index("foo"), Some(0));
    assert_eq!(settings.find_index("/path/foo.rs"), Some(0));
    assert_eq!(settings.find_index("bar"), Some(1));
    assert_eq!(settings.find_index("baz"), None);
    assert_eq!(settings.find_index("bar.rs"), Some(1));
}

#[test]
fn settings_add_and_remove() {
    let mut s = Settings::new();
    assert!(s.add_extension("./my-ext.rs", "/abs/my-ext.rs"));
    assert!(!s.add_extension("my-ext", "/elsewhere"));
    assert_eq!(s.extensions.len(), 1);
    assert_eq!(s.extensions[0].name, "my-ext");
    assert!(s.extensions[0].enabled);
    let removed = s.remove_extension("my-ext").unwrap();
    assert_eq!(removed.source, "/abs/my-ext.rs");
    assert!(s.extensions.is_empty());
    assert!(s.remove_extension("my-ext").is_none());
}

#[test]
fn version_is_set() {
    assert!(!VERSION.is_empty());
    let parts: Vec<&str> = VERSION.split('.').collect();
    assert!(parts.len() >= 2);
}

#[test]
fn format_hint() {
    let hint = format_update_hint("99.0.0");
    assert!(hint.contains("99.0.0"));
    assert!(hint.contains(VERSION));
}

#[test]
fn update_hint_exact_and_newer() {
    assert_eq!(format_update_hint("1.2.3"), "piso 1.2.3 available (current: 0.1.0). Update: cargo install piso");
    assert_eq!(newer_version(VERSION), None);
    assert_eq!(newer_version("9.9.9").as_deref(), Some("9.9.9"));
}

#[test]
fn config_paths() {
    assert_eq!(join_path("/home/u", ".piso"), "/home/u/.piso");
    assert_eq!(join_path("/home/u/", ".piso"), "/home/u/.piso");
    assert_eq!(join_path("", "x"), "x");
    assert_eq!(config_dir_in(Some("/home/u")).as_deref(), Some("/home/u/.piso"));
    assert_eq!(config_dir_in(None), None);
    assert_eq!(project_skills_dir("/proj"), "/proj/.piso/skills");
    let mut cfg = Config::default();
    assert_eq!(cfg.max_tokens, 16384);
    assert_eq!(session_dir_in(&cfg, Some("/home/u/.piso")).as_deref(), Some("/home/u/.piso/sessions"));
    cfg.session_dir = Some("/tmp/s".to_string());
    assert_eq!(session_dir_in(&cfg, None).as_deref(), Some("/tmp/s"));
    cfg.merge_overrides(Some("m".to_string()), None, Some("high".to_string()));
    assert_eq!(cfg.model.as_deref(), Some("m"));
    assert_eq!(cfg.provider, None);
    assert_eq!(cfg.thinking.as_deref(), Some("high"));
}

#[test]
fn auth_storage_keys_and_models() {
    let mut a = AuthStorage::new();
    assert_eq!(provider_for_env_var("GEMINI_API_KEY"), Some("google"));
    assert_eq!(provider_for_env_var("HOME"), None);
    a.add_env_key("OPENAI_API_KEY", "sk-1");
    a.add_env_key("GROQ_API_KEY", "");
    a.add_env_key("PATH", "/bin");
    assert_eq!(a.get_key("openai"), Some("sk-1"));
    assert_eq!(a.get_key("groq"), None);
    assert_eq!(a.available_providers(), vec!["openai".to_string()]);
    let models = collect_available_models(&a);
    assert_eq!(models, vec![("openai".to_string(), "default".to_string(), "openai".to_string())]);
    a.add_models_entry("zhipu", None, Some("https://z"), Some("zk"));
    a.set_key("openai", "sk-2");
    assert_eq!(a.get_key("openai"), Some("sk-2"));
    assert_eq!(a.get_key("zhipu"), Some("zk"));
    let pc = a.get_provider("zhipu").unwrap();
    assert_eq!(pc.api, "openai-completions");
    assert_eq!(pc.base_url.as_deref(), Some("https://z"));
    assert_eq!(a.configured_providers(), vec!["zhipu".to_string()]);
    assert!(a.get_provider("none").is_none());
}
