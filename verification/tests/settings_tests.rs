use deepseek_custom::autopilot::{progress_label, AutopilotProgress, PolicyStore};
use deepseek_custom::settings::{
    apply_autopilot_iterations, apply_autopilot_task, apply_backend_model, apply_default_backend,
    apply_effort, apply_stt_enabled, apply_trigger_mode, apply_tts_enabled, apply_tts_voice,
    apply_voice_enabled, apply_wake_phrase, ApiProvider, BackendConfig, Effort, Settings,
    TriggerMode,
};

fn settings_with_backends(default_backend: Option<&str>) -> Settings {
    let mut settings = Settings {
        default_backend: default_backend.map(|s| s.to_string()),
        ..Settings::default()
    };
    settings.insert_backend(
        "alpha",
        BackendConfig::Api {
            provider: ApiProvider::DeepSeek,
            model: "alpha-model".to_string(),
            base_url: None,
            api_key: None,
            models: None,
        },
    );
    settings.insert_backend(
        "beta",
        BackendConfig::ClaudeCli {
            model: "beta-model".to_string(),
            permission_mode: None,
            env: None,
            models: None,
        },
    );
    settings
}

#[test]
fn apply_backend_model_on_unknown_backend_is_a_no_op() {
    let mut settings = settings_with_backends(Some("alpha"));
    let before = settings.clone();
    apply_backend_model(&mut settings, "nonexistent", "new-model");
    match settings.resolve_backend("alpha").unwrap() {
        BackendConfig::Api { model, .. } => assert_eq!(model, "alpha-model"),
        BackendConfig::ClaudeCli { .. } => panic!("expected Api variant"),
    }
    assert_eq!(settings, before);
}

#[test]
fn apply_backend_model_works_for_the_claude_cli_variant() {
    let mut settings = settings_with_backends(Some("beta"));
    apply_backend_model(&mut settings, "beta", "sonnet");
    match settings.resolve_backend("beta").unwrap() {
        BackendConfig::ClaudeCli { model, .. } => assert_eq!(model, "sonnet"),
        BackendConfig::Api { .. } => panic!("expected ClaudeCli variant"),
    }
}

#[test]
fn apply_backend_model_writes_onto_the_named_api_backend_only() {
    let mut settings = settings_with_backends(Some("alpha"));
    apply_backend_model(&mut settings, "alpha", "new-model");
    match settings.resolve_backend("alpha").unwrap() {
        BackendConfig::Api { model, provider, .. } => {
            assert_eq!(model, "new-model");
            assert_eq!(*provider, ApiProvider::DeepSeek);
        }
        BackendConfig::ClaudeCli { .. } => panic!("expected Api variant"),
    }
    match settings.resolve_backend("beta").unwrap() {
        BackendConfig::ClaudeCli { model, .. } => assert_eq!(model, "beta-model"),
        BackendConfig::Api { .. } => panic!("expected ClaudeCli variant"),
    }
}

#[test]
fn apply_backend_model_with_no_backends_is_a_no_op() {
    let mut settings = Settings::default();
    apply_backend_model(&mut settings, "alpha", "m");
    assert_eq!(settings, Settings::default());
}

#[test]
fn inserting_a_backend_twice_replaces_the_first_entry() {
    let mut settings = settings_with_backends(None);
    settings.insert_backend(
        "alpha",
        BackendConfig::ClaudeCli {
            model: "other".to_string(),
            permission_mode: None,
            env: None,
            models: None,
        },
    );
    assert_eq!(settings.backends.as_ref().unwrap().len(), 2);
    match settings.resolve_backend("alpha").unwrap() {
        BackendConfig::ClaudeCli { model, .. } => assert_eq!(model, "other"),
        BackendConfig::Api { .. } => panic!("expected the replacement"),
    }
    assert!(settings.resolve_backend("gamma").is_none());
}

#[test]
fn apply_effort_round_trips_through_settings() {
    let mut settings = Settings::default();
    assert_eq!(settings.effort(), Effort::Off);
    apply_effort(&mut settings, Effort::Low);
    assert_eq!(settings.effort(), Effort::Low);
}

#[test]
fn apply_effort_reaches_every_level() {
    let mut settings = Settings::default();
    for level in [
        Effort::Off,
        Effort::Low,
        Effort::Medium,
        Effort::High,
        Effort::Max,
    ] {
        apply_effort(&mut settings, level);
        assert_eq!(settings.effort(), level);
        assert_eq!(settings.effort().to_u8(), level.to_u8());
    }
}

#[test]
fn effort_levels_rank_in_order() {
    assert_eq!(Effort::Off.to_u8(), 0);
    assert_eq!(Effort::Low.to_u8(), 1);
    assert_eq!(Effort::Medium.to_u8(), 2);
    assert_eq!(Effort::High.to_u8(), 3);
    assert_eq!(Effort::Max.to_u8(), 4);
}

#[test]
fn voice_change_creates_the_block_when_it_is_missing() {
    let mut settings = Settings::default();
    assert!(settings.voice.is_none(), "no voice block to start");
    apply_stt_enabled(&mut settings, true);
    assert!(settings.voice.is_some(), "the block gets created");
    assert!(settings.voice.as_ref().unwrap().stt_enabled);
}

#[test]
fn every_voice_writer_round_trips_through_settings() {
    let mut settings = Settings::default();
    apply_voice_enabled(&mut settings, true);
    apply_stt_enabled(&mut settings, true);
    apply_tts_enabled(&mut settings, true);
    apply_trigger_mode(&mut settings, TriggerMode::WakeWord);
    apply_wake_phrase(&mut settings, "hey harness");
    apply_tts_voice(&mut settings, "am_puck");
    assert!(settings.voice_enabled());
    assert!(settings.voice_stt_enabled());
    assert!(settings.voice_tts_enabled());
    assert_eq!(settings.voice_trigger_mode(), TriggerMode::WakeWord);
    assert_eq!(settings.voice_wake_phrase(), "hey harness");
    assert_eq!(settings.voice_tts_voice(), "am_puck");
}

#[test]
fn voice_getters_fall_back_to_their_defaults() {
    let settings = Settings::default();
    assert!(!settings.voice_enabled());
    assert_eq!(settings.voice_trigger_mode(), TriggerMode::PushToTalk);
    assert_eq!(settings.voice_wake_phrase(), "hey deepseek");
    assert_eq!(settings.voice_tts_voice(), "af_heart");
}

#[test]
fn a_writer_leaves_every_other_setting_alone() {
    let mut settings = settings_with_backends(Some("alpha"));
    apply_effort(&mut settings, Effort::High);
    let before = settings.clone();
    apply_default_backend(&mut settings, "beta");
    assert_eq!(settings.default_backend.as_deref(), Some("beta"));
    assert_eq!(settings.backends, before.backends);
    assert_eq!(settings.effort, before.effort);
}

#[test]
fn both_writers_round_trip_through_settings() {
    let mut settings = Settings::default();
    apply_autopilot_task(&mut settings, "keep going");
    apply_autopilot_iterations(&mut settings, 42);
    assert_eq!(settings.autopilot_task().as_deref(), Some("keep going"));
    assert_eq!(settings.autopilot_iterations(), 42);
}

#[test]
fn progress_label_is_absent_while_idle() {
    assert_eq!(progress_label(AutopilotProgress::Idle), None);
}

#[test]
fn progress_label_names_the_current_iteration() {
    assert_eq!(
        progress_label(AutopilotProgress::Running { index: 3, total: 7 }).as_deref(),
        Some("Running iteration 3 of 7")
    );
}

#[test]
fn progress_label_names_the_completed_count() {
    assert_eq!(
        progress_label(AutopilotProgress::Finished {
            completed: 4,
            total: 7
        })
        .as_deref(),
        Some("Finished: 4 of 7 completed")
    );
}

#[test]
fn resolve_autopilot_policy_path_defaults_under_project_root() {
    let root = std::path::PathBuf::from("/project");
    let store = PolicyStore::new(root.display().to_string(), None);
    let path = store.resolved_policy_path();
    assert_eq!(std::path::PathBuf::from(path), root.join("autopilot-policy.md"));
}

#[test]
fn resolve_autopilot_policy_path_resolves_relative_override_against_root() {
    let root = std::path::PathBuf::from("/project");
    let store = PolicyStore::new(root.display().to_string(), Some("custom-policy.md".into()));
    let path = store.resolved_policy_path();
    assert_eq!(std::path::PathBuf::from(path), root.join("custom-policy.md"));
}

#[test]
fn commit_working_dir_change_writes_a_valid_directory_to_the_shared_flag() {
    let mut settings = Settings::default();
    let dir = "/tmp/commit-valid";
    let flag = deepseek_custom::settings::commit_working_dir(&mut settings, dir, true);
    assert_eq!(flag.as_deref(), Some(dir));
    assert_eq!(settings.working_dir.as_deref(), Some(dir));
}

#[test]
fn commit_working_dir_change_rejects_a_path_that_is_not_a_directory() {
    let mut settings = Settings::default();
    let flag = deepseek_custom::settings::commit_working_dir(&mut settings, "Z:/definitely/does/not/exist/anywhere", false);
    assert_eq!(flag, None);
    assert!(settings.working_dir.is_none());
}

#[test]
fn context_budget_caption_value_is_a_third_of_the_budget() {
    assert_eq!(deepseek_custom::settings::context_budget_caption_value(90_000), 30_000);
}

#[test]
fn inserting_a_known_backend_replaces_it_and_keeps_the_others() {
    let mut settings = settings_with_backends(None);
    settings.insert_backend(
        "alpha",
        BackendConfig::Api {
            provider: ApiProvider::DeepSeek,
            model: "alpha-two".to_string(),
            base_url: None,
            api_key: None,
            models: None,
        },
    );
    assert_eq!(settings.backends.as_ref().map(|b| b.len()), Some(2));
    assert_eq!(settings.resolve_backend("alpha").map(|c| c.model().to_string()), Some("alpha-two".to_string()));
    assert_eq!(settings.resolve_backend("beta").map(|c| c.model().to_string()), Some("beta-model".to_string()));
    assert!(settings.resolve_backend("gamma").is_none());
}
