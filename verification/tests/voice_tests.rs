use deepseek_custom::attachment::edge_trigger;
use deepseek_custom::voice_controls::{
    ctrl_space_toggle_signal, space_ptt_signal, voice_mode_flag_for_tts, voice_state_label,
    PttSignal, VoiceState,
};

#[test]
fn mod_space_ptt_starts_listening_on_press_when_input_not_focused() {
    let signal = space_ptt_signal(true, false, false, false, false);
    assert_eq!(signal, Some(PttSignal::Start));
}

#[test]
fn mod_space_ptt_stops_listening_on_release() {
    let signal = space_ptt_signal(false, true, false, false, false);
    assert_eq!(signal, Some(PttSignal::Stop));
}

#[test]
fn space_does_not_trigger_listening_while_input_is_focused() {
    let signal = space_ptt_signal(true, false, false, true, false);
    assert_eq!(
        signal, None,
        "space must type a space, not start listening, while the user is typing"
    );
}

#[test]
fn space_ptt_suppressed_while_settings_panel_is_open() {
    let signal = space_ptt_signal(true, false, false, false, true);
    assert_eq!(signal, None);
}

#[test]
fn mod_space_ptt_suppressed_while_ctrl_is_held() {
    let signal = space_ptt_signal(true, false, true, false, false);
    assert_eq!(
        signal, None,
        "ctrl+space is the separate toggle binding, not the held binding"
    );
}

#[test]
fn ctrl_space_toggle_starts_listening_when_idle() {
    let signal = ctrl_space_toggle_signal(true, false, false);
    assert_eq!(signal, Some(PttSignal::Start));
}

#[test]
fn ctrl_space_toggle_stops_listening_when_already_listening() {
    let signal = ctrl_space_toggle_signal(true, false, true);
    assert_eq!(signal, Some(PttSignal::Stop));
}

#[test]
fn ctrl_space_toggle_takes_no_input_focused_parameter_and_always_fires() {
    let signal = ctrl_space_toggle_signal(true, false, false);
    assert_eq!(signal, Some(PttSignal::Start));
}

#[test]
fn ctrl_space_toggle_suppressed_while_settings_panel_is_open() {
    let signal = ctrl_space_toggle_signal(true, true, false);
    assert_eq!(signal, None);
}

#[test]
fn ctrl_space_toggle_does_nothing_when_key_not_pressed() {
    let signal = ctrl_space_toggle_signal(false, false, false);
    assert_eq!(signal, None);
}

#[test]
fn mod_voice_state_label_text_for_each_state() {
    assert_eq!(voice_state_label(VoiceState::Idle), "Idle");
    assert_eq!(voice_state_label(VoiceState::Listening), "Listening");
    assert_eq!(voice_state_label(VoiceState::Transcribing), "Transcribing");
    assert_eq!(voice_state_label(VoiceState::Speaking), "Speaking");
}

#[test]
fn mod_voice_mode_flag_for_tts_matches_the_checkbox_state() {
    assert!(voice_mode_flag_for_tts(true));
    assert!(!voice_mode_flag_for_tts(false));
}

#[test]
fn voice_ui_space_ptt_starts_listening_on_press_when_input_not_focused() {
    assert_eq!(
        space_ptt_signal(true, false, false, false, false),
        Some(PttSignal::Start)
    );
}

#[test]
fn voice_ui_space_ptt_stops_listening_on_release() {
    assert_eq!(
        space_ptt_signal(false, true, false, false, false),
        Some(PttSignal::Stop)
    );
}

#[test]
fn space_ptt_suppressed_while_the_input_has_focus() {
    assert_eq!(space_ptt_signal(true, false, false, true, false), None);
}

#[test]
fn space_ptt_suppressed_while_the_settings_panel_is_open() {
    assert_eq!(space_ptt_signal(true, false, false, false, true), None);
}

#[test]
fn voice_ui_space_ptt_suppressed_while_ctrl_is_held() {
    assert_eq!(space_ptt_signal(true, false, true, false, false), None);
}

#[test]
fn ctrl_space_toggles_listening_on() {
    assert_eq!(
        ctrl_space_toggle_signal(true, false, false),
        Some(PttSignal::Start)
    );
}

#[test]
fn ctrl_space_toggles_listening_off() {
    assert_eq!(
        ctrl_space_toggle_signal(true, false, true),
        Some(PttSignal::Stop)
    );
}

#[test]
fn ctrl_space_suppressed_while_the_settings_panel_is_open() {
    assert_eq!(ctrl_space_toggle_signal(true, true, false), None);
}

#[test]
fn ctrl_space_does_nothing_without_a_press() {
    assert_eq!(ctrl_space_toggle_signal(false, false, false), None);
}

#[test]
fn ctrl_space_takes_no_input_focused_parameter_and_always_fires() {
    assert_eq!(
        ctrl_space_toggle_signal(true, false, false),
        Some(PttSignal::Start)
    );
}

#[test]
fn voice_ui_voice_state_label_text_for_each_state() {
    assert_eq!(voice_state_label(VoiceState::Idle), "Idle");
    assert_eq!(voice_state_label(VoiceState::Listening), "Listening");
    assert_eq!(voice_state_label(VoiceState::Transcribing), "Transcribing");
    assert_eq!(voice_state_label(VoiceState::Speaking), "Speaking");
}

#[test]
fn voice_ui_voice_mode_flag_for_tts_matches_the_checkbox_state() {
    assert!(voice_mode_flag_for_tts(true));
    assert!(!voice_mode_flag_for_tts(false));
}

#[test]
fn edge_trigger_fires_once_per_press() {
    let mut prev = false;
    assert!(edge_trigger(true, &mut prev), "the press frame fires");
    assert!(!edge_trigger(true, &mut prev), "holding does not refire");
    assert!(!edge_trigger(false, &mut prev), "release does not fire");
    assert!(edge_trigger(true, &mut prev), "the next press fires again");
}
