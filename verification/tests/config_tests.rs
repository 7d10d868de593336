use rocinante::config::{
    builtin_agents, inject_builtin_agents, inject_env_providers_with, resolve_model, validate, AgentProfileConfig,
    BrainboxConfig, ConfigError, Defaults, McpServerConfig, ModelChoice, ProviderConfig,
};
use rocinante::permissions::Mode;

fn profile(description: &str) -> AgentProfileConfig {
    AgentProfileConfig { description: description.into(), model: "main".into(), tools: vec![], max_turns: 15, system_prompt: None }
}

#[test]
fn builtin_crew_is_read_only_except_researchers() {
    let crew = builtin_agents();
    let names: Vec<&str> = crew.iter().map(|(n, _)| *n).collect();
    assert_eq!(names, ["naomi", "miller", "alex", "bobbie", "amos", "holden", "camina", "avasarala"]);
    let naomi = &crew[0].1;
    assert_eq!(naomi.tools, ["read", "grep", "glob"]);
    assert_eq!(naomi.max_turns, 15);
    assert!(crew[1].1.tools.contains(&"bash".to_string()));
    assert!(crew[1].1.system_prompt.as_ref().unwrap().contains("web-research"));
    assert_eq!(crew[6].1.max_turns, 35);
    assert!(crew.iter().all(|(_, p)| p.model == "main"));
}

#[test]
fn user_agent_overrides_builtin_by_name() {
    let mut agents = vec![("naomi".to_string(), profile("mine"))];
    inject_builtin_agents(&mut agents);
    assert_eq!(agents.len(), 8);
    assert_eq!(agents[0].1.description, "mine");
    assert!(agents.iter().any(|(n, _)| n == "holden"));
}

#[test]
fn env_provider_injection() {
    let mut providers = vec![("ollama".to_string(), ProviderConfig::Ollama { base_url: "http://localhost:11434".into() })];
    inject_env_providers_with(&mut providers, &vec!["GEMINI_API_KEY".to_string()]);
    assert_eq!(providers.len(), 2);
    assert_eq!(providers[1].0, "gemini");
    match &providers[1].1 {
        ProviderConfig::Gemini { base_url, api_key_env } => {
            assert_eq!(base_url, "https://generativelanguage.googleapis.com");
            assert_eq!(api_key_env, "GEMINI_API_KEY");
        }
        other => panic!("{other:?}"),
    }
    let mut mine = vec![("gemini".to_string(), ProviderConfig::Gemini { base_url: "http://proxy".into(), api_key_env: "MY_KEY".into() })];
    inject_env_providers_with(&mut mine, &vec!["GEMINI_API_KEY".to_string()]);
    assert_eq!(mine.len(), 1, "a user-defined provider wins");
}

#[test]
fn missing_api_key_is_a_clear_error() {
    let providers = vec![("openai".to_string(), ProviderConfig::Openai { base_url: "u".into(), api_key_env: "OPENAI_API_KEY".into() })];
    let err = validate(&providers, &vec![], &vec![]).unwrap_err();
    match &err {
        ConfigError::MissingApiKey { provider, var } => {
            assert_eq!(provider, "openai");
            assert_eq!(var, "OPENAI_API_KEY");
        }
        other => panic!("{other:?}"),
    }
    assert_eq!(err.message(), "provider `openai` needs environment variable `OPENAI_API_KEY` (not set)");
    assert!(validate(&providers, &vec![], &vec!["OPENAI_API_KEY".to_string()]).is_ok());
}

#[test]
fn mcp_server_needs_exactly_one_transport() {
    let both = McpServerConfig { command: Some("x".into()), args: vec![], env: vec![], env_from: vec![], url: Some("http://y".into()), only_tools: None };
    match validate(&vec![], &vec![("srv".to_string(), both)], &vec![]) {
        Err(ConfigError::BadMcpServer(n)) => assert_eq!(n, "srv"),
        other => panic!("{other:?}"),
    }
}

#[test]
fn bare_model_name_resolves_to_ollama() {
    let providers = vec![
        ("anthropic".to_string(), ProviderConfig::Anthropic { base_url: "u".into(), api_key_env: "K".into() }),
        ("ollama".to_string(), ProviderConfig::Ollama { base_url: "http://localhost:11434".into() }),
    ];
    let aliases = vec!["main".to_string()];
    assert!(matches!(resolve_model(&aliases, &providers, "main"), Some(ModelChoice::Alias(a)) if a == "main"));
    match resolve_model(&aliases, &providers, "anthropic/sonnet-x") {
        Some(ModelChoice::Direct { provider, model }) => assert_eq!((provider.as_str(), model.as_str()), ("anthropic", "sonnet-x")),
        other => panic!("{other:?}"),
    }
    match resolve_model(&aliases, &providers, "qwen3:8b") {
        Some(ModelChoice::Direct { provider, model }) => assert_eq!((provider.as_str(), model.as_str()), ("ollama", "qwen3:8b")),
        other => panic!("{other:?}"),
    }
    assert!(resolve_model(&aliases, &vec![], "qwen3:8b").is_none());
}

#[test]
fn defaults_match_the_builtin_config() {
    let d = Defaults::default();
    assert_eq!(d.model, "main");
    assert_eq!(d.mode, Mode::Normal);
    assert_eq!(d.num_ctx, 32768);
    assert_eq!(d.keep_alive, "10m");
    let b = BrainboxConfig::default();
    assert!(b.enabled && b.update_every_turns == 5 && b.model.is_none());
}
