use deepseek_custom::backend_select::{resolve_active_backend, ProviderKeys, ResolvedBackend};
use deepseek_custom::settings::{ApiProvider, BackendConfig, Settings};

fn settings_with_entries(default_backend: Option<&str>, entries: Vec<(&str, BackendConfig)>) -> Settings {
    let mut settings = Settings {
        default_backend: default_backend.map(|s| s.to_string()),
        ..Settings::default()
    };
    for (name, config) in entries {
        settings.insert_backend(name, config);
    }
    settings
}

/// What the key lookup outside the settings finds: nothing for DeepSeek
/// (no key in this environment), and Ollama's fixed placeholder key.
fn lookup() -> ProviderKeys {
    ProviderKeys {
        deepseek: Err("DEEPSEEK_API_KEY is not set".to_string()),
        ollama: Ok("ollama".to_string()),
    }
}

fn deepseek_entry() -> BackendConfig {
    BackendConfig::Api {
        provider: ApiProvider::DeepSeek,
        model: "deepseek-v4-pro".to_string(),
        base_url: None,
        api_key: Some("entry-key-123".to_string()),
        models: None,
    }
}

#[test]
fn resolves_valid_api_entry() {
    let settings = settings_with_entries(
        Some("ollama"),
        vec![(
            "ollama",
            BackendConfig::Api {
                provider: ApiProvider::Ollama,
                model: "qwen2.5-coder:7b-instruct-q4_K_M".to_string(),
                base_url: Some("http://localhost:11434/v1".to_string()),
                api_key: None,
                models: None,
            },
        )],
    );

    let resolved = resolve_active_backend(&settings, &lookup()).expect("should resolve");

    match resolved {
        ResolvedBackend::Api { name, provider, api_key, base_url, model } => {
            assert_eq!(name, "ollama");
            assert_eq!(provider, ApiProvider::Ollama);
            assert_eq!(model, "qwen2.5-coder:7b-instruct-q4_K_M");
            assert_eq!(base_url.as_deref(), Some("http://localhost:11434/v1"));
            assert_eq!(api_key, "ollama");
        }
        ResolvedBackend::ClaudeCli { .. } => panic!("expected Api variant"),
    }
}

#[test]
fn entry_api_key_beats_environment() {
    let settings = settings_with_entries(Some("deepseek"), vec![("deepseek", deepseek_entry())]);
    let keys = ProviderKeys {
        deepseek: Ok("env-key-456".to_string()),
        ollama: Ok("ollama".to_string()),
    };

    let resolved = resolve_active_backend(&settings, &keys).expect("should resolve");

    match resolved {
        ResolvedBackend::Api { api_key, .. } => assert_eq!(api_key, "entry-key-123"),
        ResolvedBackend::ClaudeCli { .. } => panic!("expected Api variant"),
    }
}

#[test]
fn unknown_default_backend_is_an_error() {
    let settings = settings_with_entries(Some("nope"), vec![("deepseek", deepseek_entry())]);

    let err = resolve_active_backend(&settings, &lookup()).expect_err("should error");

    assert!(err.contains("nope"));
    assert!(err.contains("deepseek"));
    assert_eq!(
        err,
        "default_backend \"nope\" is not a known backend (known: deepseek)"
    );
}

#[test]
fn an_unknown_backend_with_none_configured_says_so() {
    let settings = settings_with_entries(None, vec![]);
    let err = resolve_active_backend(&settings, &lookup()).expect_err("should error");
    assert_eq!(
        err,
        "default_backend \"deepseek\" is not a known backend (known: none configured)"
    );
}

#[test]
fn resolves_valid_claude_cli_entry() {
    let env = vec![("AGENT_CLI_PATH".to_string(), "C:/tools/agent.exe".to_string())];
    let settings = settings_with_entries(
        Some("cli"),
        vec![(
            "cli",
            BackendConfig::ClaudeCli {
                model: "opus".to_string(),
                permission_mode: Some("acceptEdits".to_string()),
                env: Some(env.clone()),
                models: None,
            },
        )],
    );

    let resolved = resolve_active_backend(&settings, &lookup()).expect("should resolve");

    match resolved {
        ResolvedBackend::ClaudeCli { name, model, permission_mode, env: resolved_env } => {
            assert_eq!(name, "cli");
            assert_eq!(model, "opus");
            assert_eq!(permission_mode.as_deref(), Some("acceptEdits"));
            assert_eq!(resolved_env, Some(env));
        }
        ResolvedBackend::Api { .. } => panic!("expected ClaudeCli variant"),
    }
}

#[test]
fn claude_cli_entry_permission_mode_passes_through_none_when_omitted() {
    let settings = settings_with_entries(
        Some("cli"),
        vec![(
            "cli",
            BackendConfig::ClaudeCli {
                model: "opus".to_string(),
                permission_mode: None,
                env: None,
                models: None,
            },
        )],
    );

    let resolved = resolve_active_backend(&settings, &lookup()).expect("should resolve");

    match resolved {
        ResolvedBackend::ClaudeCli { permission_mode, .. } => assert_eq!(permission_mode, None),
        ResolvedBackend::Api { .. } => panic!("expected ClaudeCli variant"),
    }
}

#[test]
fn absent_default_backend_selects_deepseek() {
    let settings = settings_with_entries(None, vec![("deepseek", deepseek_entry())]);

    let resolved = resolve_active_backend(&settings, &lookup()).expect("should resolve");

    match resolved {
        ResolvedBackend::Api { name, provider, .. } => {
            assert_eq!(name, "deepseek");
            assert_eq!(provider, ApiProvider::DeepSeek);
        }
        ResolvedBackend::ClaudeCli { .. } => panic!("expected ClaudeCli variant"),
    }
}

#[test]
fn a_keyless_entry_whose_lookup_fails_reports_the_lookup_error() {
    let settings = settings_with_entries(
        Some("ds"),
        vec![(
            "ds",
            BackendConfig::Api {
                provider: ApiProvider::DeepSeek,
                model: "m".to_string(),
                base_url: None,
                api_key: None,
                models: None,
            },
        )],
    );
    let err = resolve_active_backend(&settings, &lookup()).expect_err("should error");
    assert_eq!(err, "DEEPSEEK_API_KEY is not set");
}
