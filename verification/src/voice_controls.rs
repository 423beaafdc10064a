//! The voice pipeline's states and events as the GUI sees them, and the
//! decisions the GUI makes about push-to-talk keys and the status bar.
use vstd::prelude::*;

verus! {

/// Where the voice pipeline is.
#[derive(Debug, Clone, Copy, PartialEq, Eq, Structural)]
pub enum VoiceState {
    Idle,
    Listening,
    Transcribing,
    Speaking,
}

/// What the voice pipeline reports to the GUI.
#[derive(Debug, Clone, PartialEq, Eq)]
pub enum VoiceEvent {
    StateChanged(VoiceState),
    Transcript(String),
    WakeDetected,
    Error(String),
}

/// The microphone source the real pipeline opens: the system's default
/// input device.
#[derive(Debug, Clone, Copy, PartialEq, Eq, Structural)]
pub struct RealCaptureFactory;

/// The push-to-talk action a key event asks for.
#[derive(Debug, Clone, Copy, PartialEq, Eq, Structural)]
pub enum PttSignal {
    Start,
    Stop,
}

/// Push-to-talk on the held space bar: nothing while Ctrl is held, the
/// text input has focus, or the settings panel is open; otherwise `Start`
/// on a press and `Stop` on a release.
pub open spec fn space_signal(
    space_pressed: bool,
    space_released: bool,
    ctrl_held: bool,
    input_focused: bool,
    settings_visible: bool,
) -> Option<PttSignal> {
    if ctrl_held || input_focused || settings_visible {
        None
    } else if space_pressed {
        Some(PttSignal::Start)
    } else if space_released {
        Some(PttSignal::Stop)
    } else {
        None
    }
}

/// Decide the push-to-talk action for the space-bar-held binding.
pub fn space_ptt_signal(
    space_pressed: bool,
    space_released: bool,
    ctrl_held: bool,
    input_focused: bool,
    settings_visible: bool,
) -> (r: Option<PttSignal>)
    ensures
        r == space_signal(space_pressed, space_released, ctrl_held, input_focused, settings_visible),
{
    if ctrl_held || input_focused || settings_visible {
        return None;
    }
    if space_pressed {
        Some(PttSignal::Start)
    } else if space_released {
        Some(PttSignal::Stop)
    } else {
        None
    }
}

/// The Ctrl+Space toggle: nothing without a press or while the settings
/// panel is open; otherwise `Stop` while listening and `Start` while not.
pub open spec fn toggle_signal(ctrl_space_pressed: bool, settings_visible: bool, currently_listening: bool) -> Option<PttSignal> {
    if !ctrl_space_pressed || settings_visible {
        None
    } else if currently_listening {
        Some(PttSignal::Stop)
    } else {
        Some(PttSignal::Start)
    }
}

/// Decide the push-to-talk action for the Ctrl+Space toggle binding,
/// which works whether or not the text input has focus.
pub fn ctrl_space_toggle_signal(ctrl_space_pressed: bool, settings_visible: bool, currently_listening: bool) -> (r: Option<PttSignal>)
    ensures
        r == toggle_signal(ctrl_space_pressed, settings_visible, currently_listening),
{
    if !ctrl_space_pressed || settings_visible {
        return None;
    }
    Some(
        if currently_listening {
            PttSignal::Stop
        } else {
            PttSignal::Start
        },
    )
}

/// The status-bar word for each voice state.
pub open spec fn state_word(state: VoiceState) -> Seq<char> {
    match state {
        VoiceState::Idle => "Idle"@,
        VoiceState::Listening => "Listening"@,
        VoiceState::Transcribing => "Transcribing"@,
        VoiceState::Speaking => "Speaking"@,
    }
}

/// Short status-bar label for a voice state.
pub fn voice_state_label(state: VoiceState) -> (r: &'static str)
    ensures
        r@ == state_word(state),
{
    match state {
        VoiceState::Idle => "Idle",
        VoiceState::Listening => "Listening",
        VoiceState::Transcribing => "Transcribing",
        VoiceState::Speaking => "Speaking",
    }
}

/// The shared voice-mode flag follows the text-to-speech checkbox: replies
/// are shaped for speech exactly when they will be spoken.
pub fn voice_mode_flag_for_tts(tts_enabled: bool) -> (r: bool)
    ensures
        r == tts_enabled,
{
    tts_enabled
}

} // verus!
