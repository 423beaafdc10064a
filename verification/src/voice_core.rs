//! The voice pipeline's decisions: when to open or close the microphone,
//! when to transcribe, what a transcript becomes in push-to-talk and in
//! wake-word mode, when to speak, and which events the GUI hears.
//!
//! The microphone, the voice activity detector, the transcriber and the
//! speaker live outside. Each step here hands back the effects to carry
//! out, in order, and at most one piece of outside work to do next (open
//! the microphone, or transcribe the utterance just closed); its outcome
//! comes back through `capture_opened` or `transcribed`.
use vstd::prelude::*;

use crate::settings::TriggerMode;
use crate::text::{chars_of, string_of, trim, trim_chars};
use crate::voice_controls::{
    ctrl_space_toggle_signal, space_ptt_signal, space_signal, toggle_signal, PttSignal, VoiceEvent,
    VoiceState,
};
use crate::wake::{wake_result, WakeWordMatcher};

verus! {

/// A command the pipeline takes. (Voice and speed changes go straight to
/// the speaker, when there is one, and need no decision.)
#[derive(Debug, Clone, PartialEq, Eq)]
pub enum VoiceRequest {
    StartListening,
    StopListening,
    Speak(String),
    StopSpeaking,
    SetTriggerMode(TriggerMode),
    /// Master switch: off stops any listening or speaking and blocks
    /// `StartListening` and `Speak` until switched on again.
    SetEnabled(bool),
    /// Off makes transcription behave as if no transcriber were there.
    SetSttEnabled(bool),
    /// Off makes `Speak` behave as if no speaker were there.
    SetTtsEnabled(bool),
    SetWakePhrase(String),
    /// The speaker's voice, such as `af_heart`; passed on when there is
    /// a speaker.
    SetVoice(String),
    Shutdown,
}

/// One thing for the caller to do.
#[derive(Debug, Clone, PartialEq, Eq)]
pub enum VoiceEffect {
    /// Send this event to the GUI.
    Emit(VoiceEvent),
    /// Have the speaker say this.
    SpeakerSpeak(String),
    /// Cut the speaker off.
    SpeakerStop,
    /// Switch the speaker to this voice.
    SpeakerSetVoice(String),
    /// Stop the open microphone capture.
    CloseCapture,
    /// Start a new utterance: empty the sample buffer, reset the detector.
    ResetUtterance,
}

/// The outside work a step leaves for the caller, whose outcome comes
/// back in the next call.
#[derive(Debug, Clone, Copy, PartialEq, Eq, Structural)]
pub enum Pending {
    Nothing,
    /// Open the microphone, then call `capture_opened`.
    OpenCapture,
    /// Transcribe the utterance just closed (only when `run_transcriber`),
    /// then call `transcribed` with `auto_continue`.
    Transcription { run_transcriber: bool, auto_continue: bool },
}

/// What a step asks of the caller.
#[derive(Debug)]
pub struct VoiceStep {
    /// False once the pipeline has shut down.
    pub keep_running: bool,
    pub effects: Vec<VoiceEffect>,
    pub pending: Pending,
}

/// An event by its contents.
pub enum EventView {
    StateChanged(VoiceState),
    Transcript(Seq<char>),
    WakeDetected,
    Error(Seq<char>),
}

/// An effect by its contents.
pub enum EffectView {
    Emit(EventView),
    SpeakerSpeak(Seq<char>),
    SpeakerStop,
    SpeakerSetVoice(Seq<char>),
    CloseCapture,
    ResetUtterance,
}

pub open spec fn event_view(e: VoiceEvent) -> EventView {
    match e {
        VoiceEvent::StateChanged(s) => EventView::StateChanged(s),
        VoiceEvent::Transcript(t) => EventView::Transcript(t@),
        VoiceEvent::WakeDetected => EventView::WakeDetected,
        VoiceEvent::Error(m) => EventView::Error(m@),
    }
}

pub open spec fn effect_view(e: VoiceEffect) -> EffectView {
    match e {
        VoiceEffect::Emit(ev) => EffectView::Emit(event_view(ev)),
        VoiceEffect::SpeakerSpeak(t) => EffectView::SpeakerSpeak(t@),
        VoiceEffect::SpeakerStop => EffectView::SpeakerStop,
        VoiceEffect::SpeakerSetVoice(v) => EffectView::SpeakerSetVoice(v@),
        VoiceEffect::CloseCapture => EffectView::CloseCapture,
        VoiceEffect::ResetUtterance => EffectView::ResetUtterance,
    }
}

pub open spec fn effects_view(s: Seq<VoiceEffect>) -> Seq<EffectView> {
    s.map_values(|e: VoiceEffect| effect_view(e))
}

/// The pipeline's state apart from the audio itself.
#[derive(Debug)]
pub struct VoiceCore {
    pub state: VoiceState,
    pub trigger_mode: TriggerMode,
    /// Set once a wake match had nothing said after it: the next
    /// utterance is taken as the command outright.
    pub awaiting_wake_command: bool,
    pub enabled: bool,
    pub stt_enabled: bool,
    pub tts_enabled: bool,
    /// Set once a `Speak` with no speaker has reported its error, so a
    /// machine without a speech model hears about it once, not per reply.
    pub speaker_missing_warned: bool,
    /// A microphone capture is open.
    pub capture_open: bool,
    /// A transcriber was configured at startup.
    pub has_transcriber: bool,
    /// A speaker was configured at startup.
    pub has_speaker: bool,
    pub wake_matcher: WakeWordMatcher,
}

/// The error every refused `Speak` reports.
pub open spec fn tts_unavailable() -> Seq<char> {
    "text-to-speech is unavailable"@
}

// ---------------------------------------------------------------------
// The decisions, as functions of the state
// ---------------------------------------------------------------------
/// Move to `next`, announcing it when it is a change.
pub open spec fn set_state_spec(c: VoiceCore, next: VoiceState) -> (VoiceCore, Seq<EffectView>) {
    if c.state == next {
        (c, seq![])
    } else {
        (VoiceCore { state: next, ..c }, seq![EffectView::Emit(EventView::StateChanged(next))])
    }
}

/// Stop speech in progress; nothing unless speaking.
pub open spec fn stop_speaking_spec(c: VoiceCore) -> (VoiceCore, Seq<EffectView>) {
    if c.state != VoiceState::Speaking {
        (c, seq![])
    } else {
        let stop: Seq<EffectView> = if c.has_speaker { seq![EffectView::SpeakerStop] } else { seq![] };
        let (c2, e) = set_state_spec(c, VoiceState::Idle);
        (c2, stop + e)
    }
}

/// Start listening: nothing while switched off; speech in progress is cut
/// off first (barge-in); already listening, nothing more; else the
/// microphone is to be opened.
pub open spec fn start_listening_spec(c: VoiceCore) -> (VoiceCore, Seq<EffectView>, Pending) {
    if !c.enabled {
        (c, seq![], Pending::Nothing)
    } else {
        let (c1, e1) = if c.state == VoiceState::Speaking { stop_speaking_spec(c) } else { (c, seq![]) };
        if c1.state == VoiceState::Listening {
            (c1, e1, Pending::Nothing)
        } else {
            (c1, e1, Pending::OpenCapture)
        }
    }
}

/// The microphone opened (start a fresh utterance and listen) or failed
/// (report why, stay where it was).
pub open spec fn capture_opened_spec(c: VoiceCore, outcome: Result<(), Seq<char>>) -> (VoiceCore, Seq<EffectView>) {
    match outcome {
        Ok(_) => {
            let (c2, e) = set_state_spec(VoiceCore { capture_open: true, ..c }, VoiceState::Listening);
            (c2, seq![EffectView::ResetUtterance] + e)
        },
        Err(msg) => (c, seq![EffectView::Emit(EventView::Error(msg))]),
    }
}

/// Speak `text`: refused with an error while voice or text to speech is
/// off; without a speaker, an error the first time and silence after;
/// else the speaker talks and the state says so.
pub open spec fn speak_spec(c: VoiceCore, text: Seq<char>) -> (VoiceCore, Seq<EffectView>) {
    if !c.enabled || !c.tts_enabled {
        (c, seq![EffectView::Emit(EventView::Error(tts_unavailable()))])
    } else if !c.has_speaker {
        if !c.speaker_missing_warned {
            (VoiceCore { speaker_missing_warned: true, ..c }, seq![EffectView::Emit(EventView::Error(tts_unavailable()))])
        } else {
            (c, seq![])
        }
    } else {
        let (c2, e) = set_state_spec(c, VoiceState::Speaking);
        (c2, seq![EffectView::SpeakerSpeak(text)] + e)
    }
}

/// End the utterance: close the microphone, say so, and transcribe (when
/// speech to text is on and there is a transcriber).
pub open spec fn finish_utterance_spec(c: VoiceCore, auto_continue: bool) -> (VoiceCore, Seq<EffectView>, Pending) {
    let close: Seq<EffectView> = if c.capture_open { seq![EffectView::CloseCapture] } else { seq![] };
    let (c2, e) = set_state_spec(VoiceCore { capture_open: false, ..c }, VoiceState::Transcribing);
    (c2, close + e, Pending::Transcription { run_transcriber: c.stt_enabled && c.has_transcriber, auto_continue })
}

/// What a transcription gives: the trimmed text when anything is left,
/// nothing otherwise; a failure is reported.
pub open spec fn transcript_of(result: Option<Result<Seq<char>, Seq<char>>>) -> (Option<Seq<char>>, Seq<EffectView>) {
    match result {
        Some(Ok(t)) => if trim(t).len() > 0 { (Some(trim(t)), seq![]) } else { (None, seq![]) },
        Some(Err(e)) => (None, seq![EffectView::Emit(EventView::Error(e))]),
        None => (None, seq![]),
    }
}

/// Route a wake-word-mode transcript: after a bare wake phrase the whole
/// utterance is the command; else a transcript that starts with the wake
/// phrase is announced, with any command that followed it; anything else
/// is background speech and dropped.
pub open spec fn wake_route_spec(c: VoiceCore, transcript: Option<Seq<char>>) -> (VoiceCore, Seq<EffectView>) {
    match transcript {
        None => (c, seq![]),
        Some(text) => if c.awaiting_wake_command {
            (VoiceCore { awaiting_wake_command: false, ..c }, seq![EffectView::Emit(EventView::Transcript(text))])
        } else {
            match wake_result(c.wake_matcher.words(), text) {
                None => (c, seq![]),
                Some(Some(command)) => (c, seq![
                    EffectView::Emit(EventView::WakeDetected),
                    EffectView::Emit(EventView::Transcript(command)),
                ]),
                Some(None) => (VoiceCore { awaiting_wake_command: true, ..c }, seq![EffectView::Emit(EventView::WakeDetected)]),
            }
        },
    }
}

/// After transcription: report the transcript (directly in push-to-talk,
/// through the wake phrase in wake-word mode), then listen again when the
/// utterance ended on its own in wake-word mode, else go idle.
pub open spec fn transcribed_spec(
    c: VoiceCore,
    result: Option<Result<Seq<char>, Seq<char>>>,
    auto_continue: bool,
) -> (VoiceCore, Seq<EffectView>, Pending) {
    let (transcript, e0) = transcript_of(result);
    let (c1, e1) = if c.trigger_mode == TriggerMode::WakeWord {
        wake_route_spec(c, transcript)
    } else {
        (c, match transcript {
            Some(t) => seq![EffectView::Emit(EventView::Transcript(t))],
            None => seq![],
        })
    };
    if auto_continue {
        let (c2, e2, p) = start_listening_spec(c1);
        (c2, e0 + e1 + e2, p)
    } else {
        let (c2, e2) = set_state_spec(c1, VoiceState::Idle);
        (c2, e0 + e1 + e2, Pending::Nothing)
    }
}

/// Stop everything: an open utterance is finished (and transcribed), or
/// speech in progress is cut off.
pub open spec fn stop_all_spec(c: VoiceCore) -> (VoiceCore, Seq<EffectView>, Pending) {
    if c.state == VoiceState::Listening {
        finish_utterance_spec(c, false)
    } else {
        let (c2, e) = stop_speaking_spec(c);
        (c2, e, Pending::Nothing)
    }
}

/// What a command does.
pub open spec fn request_spec(c: VoiceCore, req: VoiceRequest) -> (bool, VoiceCore, Seq<EffectView>, Pending) {
    match req {
        VoiceRequest::StartListening => {
            let (c2, e, p) = start_listening_spec(c);
            (true, c2, e, p)
        },
        VoiceRequest::StopListening => if c.state == VoiceState::Listening {
            let (c2, e, p) = finish_utterance_spec(c, false);
            (true, c2, e, p)
        } else {
            (true, c, seq![], Pending::Nothing)
        },
        VoiceRequest::Speak(text) => {
            let (c2, e) = speak_spec(c, text@);
            (true, c2, e, Pending::Nothing)
        },
        VoiceRequest::StopSpeaking => {
            let (c2, e) = stop_speaking_spec(c);
            (true, c2, e, Pending::Nothing)
        },
        VoiceRequest::SetTriggerMode(m) => (true, VoiceCore { trigger_mode: m, ..c }, seq![], Pending::Nothing),
        VoiceRequest::SetEnabled(b) => if b {
            (true, VoiceCore { enabled: true, ..c }, seq![], Pending::Nothing)
        } else {
            let (c2, e, p) = stop_all_spec(VoiceCore { enabled: false, ..c });
            (true, c2, e, p)
        },
        VoiceRequest::SetSttEnabled(b) => (true, VoiceCore { stt_enabled: b, ..c }, seq![], Pending::Nothing),
        VoiceRequest::SetTtsEnabled(b) => (true, VoiceCore { tts_enabled: b, ..c }, seq![], Pending::Nothing),
        VoiceRequest::SetWakePhrase(_) => (true, c, seq![], Pending::Nothing),
        VoiceRequest::SetVoice(v) => (
            true,
            c,
            if c.has_speaker { seq![EffectView::SpeakerSetVoice(v@)] } else { seq![] },
            Pending::Nothing,
        ),
        VoiceRequest::Shutdown => {
            let (c2, e, p) = stop_all_spec(c);
            (false, c2, e, p)
        },
    }
}

// ---------------------------------------------------------------------
// The steps
// ---------------------------------------------------------------------
fn add_effect(effects: &mut Vec<VoiceEffect>, e: VoiceEffect)
    ensures
        effects_view(final(effects)@) == effects_view(old(effects)@).push(effect_view(e)),
{
    effects.push(e);
    assert(effects_view(effects@) =~= effects_view(old(effects)@).push(effect_view(e)));
}

fn unavailable_error() -> (e: VoiceEffect)
    ensures
        effect_view(e) == EffectView::Emit(EventView::Error(tts_unavailable())),
{
    proof {
        reveal_strlit("text-to-speech is unavailable");
    }
    VoiceEffect::Emit(VoiceEvent::Error("text-to-speech is unavailable".to_owned()))
}

impl VoiceCore {
    /// The matcher is well formed.
    pub open spec fn wf(self) -> bool {
        self.wake_matcher.wf()
    }

    /// A pipeline at rest: idle, every switch on, no microphone open,
    /// listening for `wake_phrase` in wake-word mode.
    pub fn new(has_transcriber: bool, has_speaker: bool, trigger_mode: TriggerMode, wake_phrase: &str) -> (c: VoiceCore)
        requires
            wake_phrase@.len() < usize::MAX,
        ensures
            c.wf(),
            c.state == VoiceState::Idle,
            c.trigger_mode == trigger_mode,
            !c.awaiting_wake_command,
            c.enabled && c.stt_enabled && c.tts_enabled,
            !c.speaker_missing_warned,
            !c.capture_open,
            c.has_transcriber == has_transcriber,
            c.has_speaker == has_speaker,
            c.wake_matcher.words() == crate::wake::wake_words_of(wake_phrase@),
    {
        VoiceCore {
            state: VoiceState::Idle,
            trigger_mode,
            awaiting_wake_command: false,
            enabled: true,
            stt_enabled: true,
            tts_enabled: true,
            speaker_missing_warned: false,
            capture_open: false,
            has_transcriber,
            has_speaker,
            wake_matcher: WakeWordMatcher::new(wake_phrase),
        }
    }

    /// Whether captured audio is wanted: only while listening.
    pub fn accepts_audio(&self) -> (b: bool)
        ensures
            b == (self.state == VoiceState::Listening),
    {
        self.state == VoiceState::Listening
    }

    fn set_state(&mut self, next: VoiceState, effects: &mut Vec<VoiceEffect>)
        ensures
            *final(self) == set_state_spec(*old(self), next).0,
            effects_view(final(effects)@) == effects_view(old(effects)@) + set_state_spec(*old(self), next).1,
    {
        if self.state != next {
            self.state = next;
            add_effect(effects, VoiceEffect::Emit(VoiceEvent::StateChanged(next)));
        }
        assert(effects_view(effects@) =~= effects_view(old(effects)@) + set_state_spec(*old(self), next).1);
    }

    fn stop_speaking(&mut self, effects: &mut Vec<VoiceEffect>)
        ensures
            *final(self) == stop_speaking_spec(*old(self)).0,
            effects_view(final(effects)@) == effects_view(old(effects)@) + stop_speaking_spec(*old(self)).1,
    {
        if self.state != VoiceState::Speaking {
            assert(effects_view(effects@) =~= effects_view(old(effects)@) + seq![]);
            return;
        }
        let ghost e0 = effects_view(effects@);
        if self.has_speaker {
            add_effect(effects, VoiceEffect::SpeakerStop);
        }
        let ghost stop: Seq<EffectView> = if old(self).has_speaker { seq![EffectView::SpeakerStop] } else { seq![] };
        assert(effects_view(effects@) =~= e0 + stop);
        self.set_state(VoiceState::Idle, effects);
        assert(effects_view(effects@) =~= e0 + stop_speaking_spec(*old(self)).1);
    }

    fn start_listening(&mut self, effects: &mut Vec<VoiceEffect>) -> (p: Pending)
        ensures
            *final(self) == start_listening_spec(*old(self)).0,
            effects_view(final(effects)@) == effects_view(old(effects)@) + start_listening_spec(*old(self)).1,
            p == start_listening_spec(*old(self)).2,
    {
        if !self.enabled {
            assert(effects_view(effects@) =~= effects_view(old(effects)@) + seq![]);
            return Pending::Nothing;
        }
        if self.state == VoiceState::Speaking {
            self.stop_speaking(effects);
        } else {
            assert(effects_view(effects@) =~= effects_view(old(effects)@) + seq![]);
        }
        if self.state == VoiceState::Listening {
            Pending::Nothing
        } else {
            Pending::OpenCapture
        }
    }

    /// The microphone the last step asked for opened, or failed to.
    pub fn capture_opened(&mut self, outcome: Result<(), String>) -> (step: VoiceStep)
        ensures
            step.keep_running,
            step.pending == Pending::Nothing,
            *final(self) == capture_opened_spec(*old(self), match outcome {
                Ok(_) => Ok(()),
                Err(m) => Err(m@),
            }).0,
            effects_view(step.effects@) == capture_opened_spec(*old(self), match outcome {
                Ok(_) => Ok(()),
                Err(m) => Err(m@),
            }).1,
    {
        let mut effects: Vec<VoiceEffect> = Vec::new();
        match outcome {
            Ok(_) => {
                self.capture_open = true;
                add_effect(&mut effects, VoiceEffect::ResetUtterance);
                self.set_state(VoiceState::Listening, &mut effects);
            },
            Err(msg) => {
                add_effect(&mut effects, VoiceEffect::Emit(VoiceEvent::Error(msg)));
            },
        }
        VoiceStep { keep_running: true, effects, pending: Pending::Nothing }
    }

    fn speak(&mut self, text: String, effects: &mut Vec<VoiceEffect>)
        ensures
            *final(self) == speak_spec(*old(self), text@).0,
            effects_view(final(effects)@) == effects_view(old(effects)@) + speak_spec(*old(self), text@).1,
    {
        let ghost e0 = effects_view(effects@);
        if !self.enabled || !self.tts_enabled {
            add_effect(effects, unavailable_error());
            assert(effects_view(effects@) =~= e0 + speak_spec(*old(self), text@).1);
            return;
        }
        if !self.has_speaker {
            if !self.speaker_missing_warned {
                self.speaker_missing_warned = true;
                add_effect(effects, unavailable_error());
            }
            assert(effects_view(effects@) =~= e0 + speak_spec(*old(self), text@).1);
            return;
        }
        let ghost t = text@;
        add_effect(effects, VoiceEffect::SpeakerSpeak(text));
        self.set_state(VoiceState::Speaking, effects);
        assert(effects_view(effects@) =~= e0 + speak_spec(*old(self), t).1);
    }

    fn finish_utterance(&mut self, auto_continue: bool, effects: &mut Vec<VoiceEffect>) -> (p: Pending)
        ensures
            *final(self) == finish_utterance_spec(*old(self), auto_continue).0,
            effects_view(final(effects)@) == effects_view(old(effects)@) + finish_utterance_spec(*old(self), auto_continue).1,
            p == finish_utterance_spec(*old(self), auto_continue).2,
    {
        let ghost e0 = effects_view(effects@);
        if self.capture_open {
            add_effect(effects, VoiceEffect::CloseCapture);
        }
        let ghost close: Seq<EffectView> = if old(self).capture_open { seq![EffectView::CloseCapture] } else { seq![] };
        assert(effects_view(effects@) =~= e0 + close);
        self.capture_open = false;
        self.set_state(VoiceState::Transcribing, effects);
        assert(effects_view(effects@) =~= e0 + finish_utterance_spec(*old(self), auto_continue).1);
        Pending::Transcription { run_transcriber: self.stt_enabled && self.has_transcriber, auto_continue }
    }

    /// The detector heard the utterance end on its own: finish it, and in
    /// wake-word mode listen again afterwards. Nothing unless listening.
    pub fn utterance_ended(&mut self) -> (step: VoiceStep)
        ensures
            step.keep_running,
            old(self).state != VoiceState::Listening ==> *final(self) == *old(self) && step.effects@.len() == 0
                && step.pending == Pending::Nothing,
            old(self).state == VoiceState::Listening ==> {
                let r = finish_utterance_spec(*old(self), old(self).trigger_mode == TriggerMode::WakeWord);
                &&& *final(self) == r.0
                &&& effects_view(step.effects@) == r.1
                &&& step.pending == r.2
            },
    {
        let mut effects: Vec<VoiceEffect> = Vec::new();
        if self.state != VoiceState::Listening {
            return VoiceStep { keep_running: true, effects, pending: Pending::Nothing };
        }
        let auto_continue = match self.trigger_mode {
            TriggerMode::WakeWord => true,
            TriggerMode::PushToTalk => false,
        };
        assert(effects_view(effects@) =~= seq![]);
        let pending = self.finish_utterance(auto_continue, &mut effects);
        assert(effects_view(effects@) =~= finish_utterance_spec(*old(self), auto_continue).1);
        VoiceStep { keep_running: true, effects, pending }
    }
}

/// The result of a transcription by its contents.
pub open spec fn result_view(result: Option<Result<String, String>>) -> Option<Result<Seq<char>, Seq<char>>> {
    match result {
        Some(Ok(t)) => Some(Ok(t@)),
        Some(Err(e)) => Some(Err(e@)),
        None => None,
    }
}

/// A transcription's text fits the matcher's index range.
pub open spec fn result_fits(result: Option<Result<String, String>>) -> bool {
    match result {
        Some(Ok(t)) => t@.len() < usize::MAX,
        _ => true,
    }
}

impl VoiceCore {
    fn wake_route(&mut self, transcript: Option<String>, effects: &mut Vec<VoiceEffect>)
        requires
            old(self).wf(),
            match transcript {
                Some(t) => t@.len() < usize::MAX,
                None => true,
            },
        ensures
            *final(self) == wake_route_spec(*old(self), match transcript {
                Some(t) => Some(t@),
                None => None,
            }).0,
            effects_view(final(effects)@) == effects_view(old(effects)@) + wake_route_spec(*old(self), match transcript {
                Some(t) => Some(t@),
                None => None,
            }).1,
    {
        let ghost e0 = effects_view(effects@);
        let text = match transcript {
            Some(t) => t,
            None => {
                assert(effects_view(effects@) =~= e0 + seq![]);
                return;
            },
        };
        let ghost tv = text@;
        if self.awaiting_wake_command {
            self.awaiting_wake_command = false;
            add_effect(effects, VoiceEffect::Emit(VoiceEvent::Transcript(text)));
            assert(effects_view(effects@) =~= e0 + wake_route_spec(*old(self), Some(tv)).1);
            return;
        }
        match self.wake_matcher.match_utterance(text.as_str()) {
            None => {
                assert(effects_view(effects@) =~= e0 + seq![]);
            },
            Some(m) => {
                add_effect(effects, VoiceEffect::Emit(VoiceEvent::WakeDetected));
                match m.command {
                    Some(command) => {
                        add_effect(effects, VoiceEffect::Emit(VoiceEvent::Transcript(command)));
                    },
                    None => {
                        self.awaiting_wake_command = true;
                    },
                }
                assert(effects_view(effects@) =~= e0 + wake_route_spec(*old(self), Some(tv)).1);
            },
        }
    }

    /// The utterance the last step closed was transcribed (`Some`), or
    /// not (`None`, when speech to text was off or there is no
    /// transcriber).
    pub fn transcribed(&mut self, result: Option<Result<String, String>>, auto_continue: bool) -> (step: VoiceStep)
        requires
            old(self).wf(),
            result_fits(result),
        ensures
            final(self).wf(),
            step.keep_running,
            *final(self) == transcribed_spec(*old(self), result_view(result), auto_continue).0,
            effects_view(step.effects@) == transcribed_spec(*old(self), result_view(result), auto_continue).1,
            step.pending == transcribed_spec(*old(self), result_view(result), auto_continue).2,
    {
        let ghost rv = result_view(result);
        let mut effects: Vec<VoiceEffect> = Vec::new();
        let transcript: Option<String> = match result {
            Some(Ok(t)) => {
                let cs = chars_of(t.as_str());
                let trimmed = trim_chars(cs.as_slice());
                proof {
                    crate::text::lemma_lead_ws(cs@);
                    crate::text::lemma_trail_ws(crate::text::trim_start(cs@));
                }
                if trimmed.len() > 0 {
                    Some(string_of(trimmed.as_slice()))
                } else {
                    None
                }
            },
            Some(Err(e)) => {
                add_effect(&mut effects, VoiceEffect::Emit(VoiceEvent::Error(e)));
                None
            },
            None => None,
        };
        let ghost tv: Option<Seq<char>> = match &transcript {
            Some(t) => Some(t@),
            None => None,
        };
        assert(tv == transcript_of(rv).0);
        assert(effects_view(effects@) =~= transcript_of(rv).1);
        let ghost e01 = effects_view(effects@);
        match self.trigger_mode {
            TriggerMode::WakeWord => {
                self.wake_route(transcript, &mut effects);
            },
            TriggerMode::PushToTalk => {
                match transcript {
                    Some(t) => add_effect(&mut effects, VoiceEffect::Emit(VoiceEvent::Transcript(t))),
                    None => {
                        assert(effects_view(effects@) =~= e01 + seq![]);
                    },
                }
            },
        }
        let ghost c1 = *self;
        let ghost e1 = effects_view(effects@);
        let pending = if auto_continue {
            self.start_listening(&mut effects)
        } else {
            self.set_state(VoiceState::Idle, &mut effects);
            Pending::Nothing
        };
        assert(effects_view(effects@) =~= transcribed_spec(*old(self), rv, auto_continue).1);
        VoiceStep { keep_running: true, effects, pending }
    }

    fn stop_all(&mut self, effects: &mut Vec<VoiceEffect>) -> (p: Pending)
        ensures
            *final(self) == stop_all_spec(*old(self)).0,
            effects_view(final(effects)@) == effects_view(old(effects)@) + stop_all_spec(*old(self)).1,
            p == stop_all_spec(*old(self)).2,
    {
        if self.state == VoiceState::Listening {
            self.finish_utterance(false, effects)
        } else {
            self.stop_speaking(effects);
            Pending::Nothing
        }
    }

    /// Take one command.
    #[verifier::spinoff_prover]
    #[verifier::rlimit(60)]
    pub fn handle_request(&mut self, req: VoiceRequest) -> (step: VoiceStep)
        requires
            old(self).wf(),
            req matches VoiceRequest::SetWakePhrase(p) ==> p@.len() < usize::MAX,
        ensures
            final(self).wf(),
            match req {
                VoiceRequest::SetWakePhrase(p) => {
                    &&& step.keep_running
                    &&& step.effects@.len() == 0
                    &&& step.pending == Pending::Nothing
                    &&& final(self).wake_matcher.words() == crate::wake::wake_words_of(p@)
                    &&& *final(self) == (VoiceCore { wake_matcher: final(self).wake_matcher, ..*old(self) })
                },
                _ => {
                    &&& step.keep_running == request_spec(*old(self), req).0
                    &&& *final(self) == request_spec(*old(self), req).1
                    &&& effects_view(step.effects@) == request_spec(*old(self), req).2
                    &&& step.pending == request_spec(*old(self), req).3
                },
            },
    {
        let mut effects: Vec<VoiceEffect> = Vec::new();
        assert(effects_view(effects@) =~= seq![]);
        let mut keep_running = true;
        let pending = match req {
            VoiceRequest::StartListening => self.start_listening(&mut effects),
            VoiceRequest::StopListening => {
                if self.state == VoiceState::Listening {
                    self.finish_utterance(false, &mut effects)
                } else {
                    Pending::Nothing
                }
            },
            VoiceRequest::Speak(text) => {
                self.speak(text, &mut effects);
                Pending::Nothing
            },
            VoiceRequest::StopSpeaking => {
                self.stop_speaking(&mut effects);
                Pending::Nothing
            },
            VoiceRequest::SetTriggerMode(m) => {
                self.trigger_mode = m;
                Pending::Nothing
            },
            VoiceRequest::SetEnabled(b) => {
                self.enabled = b;
                if !b {
                    self.stop_all(&mut effects)
                } else {
                    Pending::Nothing
                }
            },
            VoiceRequest::SetSttEnabled(b) => {
                self.stt_enabled = b;
                Pending::Nothing
            },
            VoiceRequest::SetTtsEnabled(b) => {
                self.tts_enabled = b;
                Pending::Nothing
            },
            VoiceRequest::SetWakePhrase(p) => {
                self.wake_matcher = WakeWordMatcher::new(p.as_str());
                Pending::Nothing
            },
            VoiceRequest::SetVoice(v) => {
                if self.has_speaker {
                    add_effect(&mut effects, VoiceEffect::SpeakerSetVoice(v));
                }
                Pending::Nothing
            },
            VoiceRequest::Shutdown => {
                keep_running = false;
                self.stop_all(&mut effects)
            },
        };
        VoiceStep { keep_running, effects, pending }
    }
}

// ---------------------------------------------------------------------
// The commands the GUI's controls send
// ---------------------------------------------------------------------
/// The master voice checkbox's command.
pub fn voice_enabled_command(enabled: bool) -> (r: VoiceRequest)
    ensures
        r == VoiceRequest::SetEnabled(enabled),
{
    VoiceRequest::SetEnabled(enabled)
}

/// The speech-to-text checkbox's command.
pub fn stt_enabled_command(enabled: bool) -> (r: VoiceRequest)
    ensures
        r == VoiceRequest::SetSttEnabled(enabled),
{
    VoiceRequest::SetSttEnabled(enabled)
}

/// The text-to-speech checkbox's command.
pub fn tts_enabled_command(enabled: bool) -> (r: VoiceRequest)
    ensures
        r == VoiceRequest::SetTtsEnabled(enabled),
{
    VoiceRequest::SetTtsEnabled(enabled)
}

/// The trigger mode radio buttons' command.
pub fn trigger_mode_command(mode: TriggerMode) -> (r: VoiceRequest)
    ensures
        r == VoiceRequest::SetTriggerMode(mode),
{
    VoiceRequest::SetTriggerMode(mode)
}

/// The wake phrase field's command.
pub fn wake_phrase_command(phrase: &str) -> (r: VoiceRequest)
    ensures
        r matches VoiceRequest::SetWakePhrase(p) && p@ == phrase@,
{
    VoiceRequest::SetWakePhrase(phrase.to_owned())
}

/// The voice selector's command.
pub fn voice_id_command(voice_id: &str) -> (r: VoiceRequest)
    ensures
        r matches VoiceRequest::SetVoice(v) && v@ == voice_id@,
{
    VoiceRequest::SetVoice(voice_id.to_owned())
}

/// The command a push-to-talk decision sends.
pub fn ptt_command(signal: PttSignal) -> (r: VoiceRequest)
    ensures
        signal == PttSignal::Start ==> r == VoiceRequest::StartListening,
        signal == PttSignal::Stop ==> r == VoiceRequest::StopListening,
{
    match signal {
        PttSignal::Start => VoiceRequest::StartListening,
        PttSignal::Stop => VoiceRequest::StopListening,
    }
}

/// This frame's push-to-talk keys.
#[derive(Debug, Clone, Copy, PartialEq, Eq, Structural, Default)]
pub struct PttKeys {
    pub space_pressed: bool,
    pub space_released: bool,
    pub ctrl_held: bool,
    pub input_focused: bool,
    pub ctrl_space_pressed: bool,
}

/// Both push-to-talk bindings for one frame, in order: the held space
/// bar, then the Ctrl+Space toggle (which stops while listening).
pub fn ptt_requests(keys: PttKeys, settings_visible: bool, state: VoiceState) -> (r: Vec<VoiceRequest>)
    ensures
        r@ == (match space_signal(keys.space_pressed, keys.space_released, keys.ctrl_held, keys.input_focused, settings_visible) {
            Some(PttSignal::Start) => seq![VoiceRequest::StartListening],
            Some(PttSignal::Stop) => seq![VoiceRequest::StopListening],
            None => Seq::<VoiceRequest>::empty(),
        }) + (match toggle_signal(keys.ctrl_space_pressed, settings_visible, state == VoiceState::Listening) {
            Some(PttSignal::Start) => seq![VoiceRequest::StartListening],
            Some(PttSignal::Stop) => seq![VoiceRequest::StopListening],
            None => Seq::<VoiceRequest>::empty(),
        }),
{
    let mut r: Vec<VoiceRequest> = Vec::new();
    match space_ptt_signal(keys.space_pressed, keys.space_released, keys.ctrl_held, keys.input_focused, settings_visible) {
        Some(sig) => r.push(ptt_command(sig)),
        None => {},
    }
    let ghost first = r@;
    let listening = match state {
        VoiceState::Listening => true,
        _ => false,
    };
    match ctrl_space_toggle_signal(keys.ctrl_space_pressed, settings_visible, listening) {
        Some(sig) => r.push(ptt_command(sig)),
        None => {},
    }
    assert(r@ =~= first + (match toggle_signal(keys.ctrl_space_pressed, settings_visible, state == VoiceState::Listening) {
        Some(PttSignal::Start) => seq![VoiceRequest::StartListening],
        Some(PttSignal::Stop) => seq![VoiceRequest::StopListening],
        None => Seq::<VoiceRequest>::empty(),
    }));
    r
}

// ---------------------------------------------------------------------
// Laws
// ---------------------------------------------------------------------
/// Without a speaker, a refused reply is reported once: whatever the first
/// `Speak` did, a second one stays silent.
pub proof fn lemma_missing_speaker_is_reported_once(c: VoiceCore, first: Seq<char>, second: Seq<char>)
    requires
        c.enabled,
        c.tts_enabled,
        !c.has_speaker,
    ensures
        speak_spec(speak_spec(c, first).0, second).1.len() == 0,
{
}

/// With the master switch off, asking to listen does nothing at all.
pub proof fn lemma_switched_off_never_listens(c: VoiceCore)
    requires
        !c.enabled,
    ensures
        start_listening_spec(c) == (c, Seq::<EffectView>::empty(), Pending::Nothing),
{
}

/// Shutdown stops the pipeline for good: it asks to stop running, cuts off
/// speech in progress, and (once an open utterance has been transcribed)
/// leaves the microphone closed and the state idle, with nothing more to
/// do. Stated for the states the pipeline rests in between commands:
/// never mid-transcription, and the microphone open only while listening.
pub proof fn lemma_shutdown_closes_everything(c: VoiceCore, result: Option<Result<Seq<char>, Seq<char>>>)
    requires
        c.state != VoiceState::Transcribing,
        c.capture_open ==> c.state == VoiceState::Listening,
    ensures
        !request_spec(c, VoiceRequest::Shutdown).0,
        c.state == VoiceState::Speaking && c.has_speaker
            ==> request_spec(c, VoiceRequest::Shutdown).2[0] == EffectView::SpeakerStop,
        match request_spec(c, VoiceRequest::Shutdown).3 {
            Pending::Transcription { auto_continue, .. } => {
                let after = transcribed_spec(request_spec(c, VoiceRequest::Shutdown).1, result, auto_continue);
                &&& !auto_continue
                &&& after.0.state == VoiceState::Idle
                &&& !after.0.capture_open
                &&& after.2 == Pending::Nothing
            },
            Pending::Nothing => {
                let c1 = request_spec(c, VoiceRequest::Shutdown).1;
                &&& c1.state != VoiceState::Listening
                &&& c1.state != VoiceState::Speaking
                &&& !c1.capture_open
            },
            Pending::OpenCapture => false,
        },
{
}

} // verus!
