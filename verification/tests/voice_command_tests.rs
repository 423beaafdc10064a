use deepseek_custom::settings::TriggerMode;
use deepseek_custom::voice_controls::VoiceState;
use deepseek_custom::voice_core::{
    ptt_requests, stt_enabled_command, trigger_mode_command, tts_enabled_command, voice_enabled_command,
    voice_id_command, wake_phrase_command, PttKeys, VoiceRequest,
};

#[test]
fn mod_voice_enabled_command_wraps_the_checkbox_value() {
    assert!(matches!(voice_enabled_command(true), VoiceRequest::SetEnabled(true)));
    assert!(matches!(voice_enabled_command(false), VoiceRequest::SetEnabled(false)));
}

#[test]
fn voice_ui_voice_enabled_command_wraps_the_checkbox_value() {
    assert!(matches!(voice_enabled_command(true), VoiceRequest::SetEnabled(true)));
}

#[test]
fn mod_stt_enabled_command_wraps_the_checkbox_value() {
    assert!(matches!(stt_enabled_command(false), VoiceRequest::SetSttEnabled(false)));
    assert!(matches!(stt_enabled_command(true), VoiceRequest::SetSttEnabled(true)));
}

#[test]
fn voice_ui_stt_enabled_command_wraps_the_checkbox_value() {
    assert!(matches!(stt_enabled_command(false), VoiceRequest::SetSttEnabled(false)));
}

#[test]
fn mod_tts_enabled_command_wraps_the_checkbox_value() {
    assert!(matches!(tts_enabled_command(true), VoiceRequest::SetTtsEnabled(true)));
    assert!(matches!(tts_enabled_command(false), VoiceRequest::SetTtsEnabled(false)));
}

#[test]
fn voice_ui_tts_enabled_command_wraps_the_checkbox_value() {
    assert!(matches!(tts_enabled_command(true), VoiceRequest::SetTtsEnabled(true)));
}

#[test]
fn trigger_mode_command_wraps_the_selected_mode() {
    assert!(matches!(trigger_mode_command(TriggerMode::WakeWord), VoiceRequest::SetTriggerMode(TriggerMode::WakeWord)));
    assert!(matches!(
        trigger_mode_command(TriggerMode::PushToTalk),
        VoiceRequest::SetTriggerMode(TriggerMode::PushToTalk)
    ));
}

#[test]
fn trigger_mode_command_wraps_the_radio_choice() {
    assert!(matches!(trigger_mode_command(TriggerMode::WakeWord), VoiceRequest::SetTriggerMode(TriggerMode::WakeWord)));
}

#[test]
fn mod_wake_phrase_command_wraps_the_field_text() {
    assert!(matches!(wake_phrase_command("hey computer"), VoiceRequest::SetWakePhrase(p) if p == "hey computer"));
}

#[test]
fn voice_ui_wake_phrase_command_wraps_the_field_text() {
    assert!(matches!(wake_phrase_command("hey there"), VoiceRequest::SetWakePhrase(p) if p == "hey there"));
}

#[test]
fn mod_voice_id_command_wraps_the_selected_voice() {
    assert!(matches!(voice_id_command("am_michael"), VoiceRequest::SetVoice(id) if id == "am_michael"));
}

#[test]
fn voice_ui_voice_id_command_wraps_the_selected_voice() {
    assert!(matches!(voice_id_command("af_bella"), VoiceRequest::SetVoice(id) if id == "af_bella"));
}

#[test]
fn handle_ptt_sends_start_on_a_space_press() {
    let keys = PttKeys { space_pressed: true, ..PttKeys::default() };
    assert_eq!(ptt_requests(keys, false, VoiceState::Idle), vec![VoiceRequest::StartListening]);
}

#[test]
fn handle_ptt_sends_nothing_while_the_settings_panel_is_open() {
    let keys = PttKeys { space_pressed: true, ctrl_space_pressed: true, ..PttKeys::default() };
    assert!(ptt_requests(keys, true, VoiceState::Idle).is_empty());
}

#[test]
fn ctrl_space_stops_a_session_that_is_listening() {
    let keys = PttKeys { ctrl_space_pressed: true, ctrl_held: true, ..PttKeys::default() };
    assert_eq!(ptt_requests(keys, false, VoiceState::Listening), vec![VoiceRequest::StopListening]);
}
