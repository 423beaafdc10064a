use deepseek_custom::chat_session::{
    backend_caption, cache_caption, selected_voice_index, tokens_caption, voice_id_options, ChatAction, ChatSession,
};
use deepseek_custom::settings::{Settings, TriggerMode, VoiceConfig};
use deepseek_custom::transcript::{BlockKind, Severity};
use deepseek_custom::voice_controls::voice_mode_flag_for_tts;

fn settings_with_voice(tts_voice: &str) -> Settings {
    Settings {
        show_raw_output: Some(true),
        voice: Some(VoiceConfig {
            enabled: true,
            stt_enabled: true,
            tts_enabled: true,
            stt_model_path: None,
            tts_model_path: None,
            tts_voices_path: None,
            trigger_mode: TriggerMode::WakeWord,
            wake_phrase: Some("hey computer".to_string()),
            tts_voice: Some(tts_voice.to_string()),
        }),
        ..Settings::default()
    }
}

fn seeded_voice_index(settings: &Settings) -> (Vec<String>, usize) {
    let options = voice_id_options();
    let idx = selected_voice_index(&options, &settings.voice_tts_voice());
    (options, idx)
}

#[test]
fn mod_new_falls_back_to_the_first_voice_on_an_unknown_voice_id() {
    let (options, idx) = seeded_voice_index(&settings_with_voice("zz_nobody"));
    assert_eq!(idx, 0);
    assert_eq!(options[0], "af_heart");
}

#[test]
fn voice_ui_new_falls_back_to_the_first_voice_on_an_unknown_voice_id() {
    let (_, idx) = seeded_voice_index(&settings_with_voice("not_a_real_voice"));
    assert_eq!(idx, 0);
}

#[test]
fn new_selects_a_known_voice_id() {
    let (options, idx) = seeded_voice_index(&settings_with_voice("bf_emma"));
    assert_eq!(options[idx], "bf_emma");
}

#[test]
fn new_seeds_every_panel_control_from_settings() {
    let settings = settings_with_voice("am_michael");
    assert_eq!(settings.show_raw_output, Some(true));
    assert!(settings.voice_enabled());
    assert!(settings.voice_stt_enabled());
    assert!(settings.voice_tts_enabled());
    assert_eq!(settings.voice_trigger_mode(), TriggerMode::WakeWord);
    assert_eq!(settings.voice_wake_phrase(), "hey computer");
    let (options, idx) = seeded_voice_index(&settings);
    assert_eq!(options[idx], "am_michael");
}

#[test]
fn new_sets_the_voice_mode_flag_from_the_seeded_tts_value() {
    let settings = Settings {
        voice: Some(VoiceConfig { enabled: true, tts_enabled: true, ..VoiceConfig::default() }),
        ..Settings::default()
    };
    assert!(voice_mode_flag_for_tts(settings.voice_tts_enabled()));
}

#[test]
fn text_to_speech_alone_does_not_turn_voice_reply_mode_on() {
    let settings = Settings {
        voice: Some(VoiceConfig { enabled: false, tts_enabled: true, ..VoiceConfig::default() }),
        ..Settings::default()
    };
    assert!(!settings.voice_tts_enabled());
}

#[test]
fn new_sets_voice_mode_flag_from_the_seeded_tts_value() {
    let on = settings_with_voice("af_heart");
    let session = ChatSession::new(on.voice_tts_enabled());
    assert!(session.status.voice_tts_enabled);
    assert!(voice_mode_flag_for_tts(session.status.voice_tts_enabled));

    let session = ChatSession::new(Settings::default().voice_tts_enabled());
    assert!(!session.status.voice_tts_enabled);
    assert!(!voice_mode_flag_for_tts(session.status.voice_tts_enabled));
}

#[test]
fn escape_posts_an_interrupting_notice() {
    let mut session = ChatSession::new(false);
    let actions = session.interrupt();
    assert!(matches!(
        actions.as_slice(),
        [ChatAction::Interrupt, ChatAction::StopRepeat, ChatAction::StopSpeaking]
    ));
    let blocks = session.transcript.blocks();
    assert_eq!(blocks.len(), 1);
    assert_eq!(
        blocks[0].kind,
        BlockKind::Notice { text: "[Interrupting...]".into(), severity: Severity::Warning }
    );
}

#[test]
fn the_status_bar_names_the_backend_and_model() {
    assert_eq!(backend_caption(Some("deepseek"), "deepseek-v4-flash"), "Backend: deepseek (deepseek-v4-flash)");
    assert_eq!(backend_caption(None, "m"), "Backend: unknown (m)");
}

#[test]
fn the_status_bar_shows_the_token_count() {
    assert_eq!(tokens_caption(0), "Tokens: 0");
    assert_eq!(tokens_caption(150), "Tokens: 150");
}

#[test]
fn the_cache_caption_appears_once_a_turn_reports_cache_use() {
    assert_eq!(cache_caption(0, 0), None);
    assert_eq!(cache_caption(180, 50).as_deref(), Some("Cache hit: 180 | miss: 50"));
    assert_eq!(cache_caption(0, 7).as_deref(), Some("Cache hit: 0 | miss: 7"));
}

#[test]
fn voice_mode_flag_starts_matching_initial_tts_state() {
    let session = ChatSession::new(Settings::default().voice_tts_enabled());
    assert!(!session.status.voice_tts_enabled);
    assert!(!voice_mode_flag_for_tts(session.status.voice_tts_enabled));
}

#[test]
fn voice_mode_flag_tracks_tts_toggling_on_then_off() {
    let mut session = ChatSession::new(false);
    session.status.voice_tts_enabled = true;
    assert!(voice_mode_flag_for_tts(session.status.voice_tts_enabled));
    session.status.voice_tts_enabled = false;
    assert!(!voice_mode_flag_for_tts(session.status.voice_tts_enabled));
}

#[test]
fn new_gui_has_sensible_voice_control_defaults() {
    let settings = Settings::default();
    assert!(!settings.voice_enabled());
    assert!(!settings.voice_stt_enabled());
    assert!(!settings.voice_tts_enabled());
    assert_eq!(settings.voice_trigger_mode(), TriggerMode::PushToTalk);
    assert_eq!(settings.voice_wake_phrase(), "hey deepseek");
    let (options, idx) = seeded_voice_index(&settings);
    assert_eq!(idx, 0);
    assert_eq!(options[0], "af_heart");
}
