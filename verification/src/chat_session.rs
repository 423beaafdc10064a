//! The Chat tab's state apart from drawing: the transcript, the input box,
//! the pending attachment, and the status readouts a stream event updates.
//! Each handler decides what changes and hands back what the caller has
//! to do outside (send a turn to the agent, speak, save the session).
//!
//! A stream event with an empty route is the main session's own: it
//! updates the readouts and then reaches the transcript. An event routed
//! through a subagent reaches only the transcript; no readout, speech
//! buffer, progress line or save is ever touched by it.
use vstd::prelude::*;

use crate::agent::{RoutedEvent, StreamEvent};
use crate::api::{ImageAttachment, Message};
use crate::attachment::AttachmentSlot;
use crate::autopilot::AutopilotProgress;
use crate::backend_picker::{names_view, position_in, position_of};
use crate::speech::{filter_for_speech, speakable};
use crate::text::{chars_of, decimal, decimal_chars, extend_chars, push_str_chars, string_of, trim, trim_chars};
use crate::transcript::{
    lemma_wf, new_block, pushed_block, routed_applied, BlockKind, Severity, Transcript,
    };
use crate::voice_controls::{VoiceEvent, VoiceState};

verus! {

/// What the caller has to do after a handler ran.
#[derive(Debug)]
pub enum ChatAction {
    /// Send this turn to the agent.
    UserTurn { text: String, image: Option<ImageAttachment> },
    /// Have the voice pipeline speak this text.
    Speak(String),
    /// Save the current conversation.
    Autosave,
    /// The agent reset itself: save the outgoing conversation, clear the
    /// transcript and start a new session, then call `finish_session_reset`.
    ResetSession,
    /// Keep the agent's latest API history for the next save.
    RecordSnapshot { messages: Vec<Message>, claude_session_id: Option<String> },
    /// Raise the agent's interrupt flag, so the running turn stops.
    Interrupt,
    /// Raise the Autopilot stop flag, so a running repeat ends early
    /// (nothing to do where no Autopilot is attached).
    StopRepeat,
    /// Have the voice pipeline stop speaking.
    StopSpeaking,
}

/// The readouts and buffers a main-session event updates.
#[derive(Debug, Clone, PartialEq, Eq)]
pub struct ChatStatus {
    /// The status bar's session word: `Ready`, `Running...`,
    /// `Interrupted` or `Reset`.
    pub session_status: String,
    /// The last finished turn's total token count.
    pub token_count: u64,
    pub total_cache_hit_tokens: u64,
    pub total_cache_miss_tokens: u64,
    /// The reply text gathered since the last turn ended, for speech.
    pub voice_reply_buffer: String,
    pub voice_tts_enabled: bool,
    pub voice_state: VoiceState,
    pub autopilot_progress: AutopilotProgress,
}

/// The Chat tab's state.
#[derive(Debug)]
pub struct ChatSession {
    pub transcript: Transcript,
    pub status: ChatStatus,
    pub input_buffer: String,
    pub attachment: AttachmentSlot,
    pub auto_scroll: bool,
}

/// The numeric readouts as a main-session event leaves them: a turn's end
/// records its token count and adds its cache counts; Autopilot events
/// move the progress line. Anything else leaves them as they were (the
/// string readouts are `buffer_after` and `session_word_after`).
pub open spec fn status_after(s: ChatStatus, event: StreamEvent) -> ChatStatus {
    match event {
        StreamEvent::TurnEnd { total_tokens, prompt_cache_hit_tokens, prompt_cache_miss_tokens, .. } => ChatStatus {
            token_count: total_tokens,
            total_cache_hit_tokens: (s.total_cache_hit_tokens + prompt_cache_hit_tokens) as u64,
            total_cache_miss_tokens: (s.total_cache_miss_tokens + prompt_cache_miss_tokens) as u64,
            ..s
        },
        StreamEvent::SessionReset => ChatStatus {
            total_cache_hit_tokens: 0,
            total_cache_miss_tokens: 0,
            ..s
        },
        StreamEvent::RepeatIterationStart { index, total } => ChatStatus {
            autopilot_progress: AutopilotProgress::Running { index, total },
            ..s
        },
        StreamEvent::RepeatFinished { completed, total } => ChatStatus {
            autopilot_progress: AutopilotProgress::Finished { completed, total },
            ..s
        },
        _ => s,
    }
}

/// The status apart from its string fields, which `status_after` leaves
/// to `buffer_after` and `session_word_after`.
pub open spec fn same_numbers(a: ChatStatus, b: ChatStatus) -> bool {
    &&& a.token_count == b.token_count
    &&& a.total_cache_hit_tokens == b.total_cache_hit_tokens
    &&& a.total_cache_miss_tokens == b.total_cache_miss_tokens
    &&& a.voice_tts_enabled == b.voice_tts_enabled
    &&& a.voice_state == b.voice_state
    &&& a.autopilot_progress == b.autopilot_progress
}

/// The speech buffer after a main-session event.
pub open spec fn buffer_after(buffer: Seq<char>, event: StreamEvent) -> Seq<char> {
    match event {
        StreamEvent::Text { text, .. } => buffer + text@,
        StreamEvent::TurnEnd { .. } => seq![],
        StreamEvent::Interrupted { .. } => seq![],
        StreamEvent::SessionReset => seq![],
        _ => buffer,
    }
}

/// The reply waiting to be spoken only ever grows by reply text: no
/// reasoning, tool call, tool output or other event adds to it; an event
/// other than reply text leaves it as it was or empties it.
pub proof fn lemma_reply_buffer_holds_only_reply_text(buffer: Seq<char>, event: StreamEvent)
    ensures
        match event {
            StreamEvent::Text { text, .. } => buffer_after(buffer, event) == buffer + text@,
            _ => buffer_after(buffer, event) == buffer || buffer_after(buffer, event).len() == 0,
        },
{
}

/// The reply text a run of main-session events carries: the payloads of
/// its `Text` events, in order; reasoning, tool calls and everything else
/// add nothing.
pub open spec fn reply_text(events: Seq<StreamEvent>) -> Seq<char>
    decreases events.len(),
{
    if events.len() == 0 {
        seq![]
    } else {
        reply_text(events.drop_last()) + match events.last() {
            StreamEvent::Text { text, .. } => text@,
            _ => seq![],
        }
    }
}

/// The speech buffer after a run of main-session events, one by one.
pub open spec fn buffer_after_all(buffer: Seq<char>, events: Seq<StreamEvent>) -> Seq<char>
    decreases events.len(),
{
    if events.len() == 0 {
        buffer
    } else {
        buffer_after(buffer_after_all(buffer, events.drop_last()), events.last())
    }
}

/// No event of `events` ends, abandons or resets a turn.
pub open spec fn within_turn(events: Seq<StreamEvent>) -> bool {
    forall|i: int|
        0 <= i < events.len() ==> !((#[trigger] events[i]) is TurnEnd || events[i] is Interrupted
            || events[i] is SessionReset)
}

proof fn lemma_buffer_is_reply_text(events: Seq<StreamEvent>)
    requires
        within_turn(events),
    ensures
        buffer_after_all(seq![], events) == reply_text(events),
    decreases events.len(),
{
    if events.len() > 0 {
        let d = events.drop_last();
        assert forall|i: int| 0 <= i < d.len() implies !((#[trigger] d[i]) is TurnEnd || d[i] is Interrupted
            || d[i] is SessionReset) by {
            assert(d[i] == events[i]);
        }
        lemma_buffer_is_reply_text(d);
        assert(events.last() == events[events.len() - 1]);
        match events.last() {
            StreamEvent::Text { text, .. } => {},
            _ => {
                assert(reply_text(d) + Seq::<char>::empty() =~= reply_text(d));
            },
        }
    }
}

/// A turn is spoken once: from the start of a turn (an empty speech
/// buffer), a run of main-session events that neither ends nor abandons
/// it leaves in the buffer exactly the turn's reply text; the `TurnEnd`
/// then asks for exactly one `Speak` of that text filtered for speech
/// (when text to speech is on and anything speakable is left) and none
/// otherwise, and empties the buffer. An interruption instead asks for
/// nothing and empties it too.
pub proof fn lemma_one_speak_per_turn(
    events: Seq<StreamEvent>,
    s: ChatStatus,
    end: StreamEvent,
    actions: Seq<ChatAction>,
)
    requires
        within_turn(events),
        s.voice_reply_buffer@ == buffer_after_all(seq![], events),
        end is TurnEnd || end is Interrupted,
        actions_ok(s, end, actions),
    ensures
        s.voice_reply_buffer@ == reply_text(events),
        buffer_after(s.voice_reply_buffer@, end).len() == 0,
        end is Interrupted ==> actions.len() == 0,
        end is TurnEnd && s.voice_tts_enabled && speakable(reply_text(events)).len() > 0 ==> {
            &&& actions.len() == 2
            &&& actions[0] matches ChatAction::Speak(t) && t@ == speakable(reply_text(events))
            &&& actions[1] is Autosave
        },
        end is TurnEnd && !(s.voice_tts_enabled && speakable(reply_text(events)).len() > 0) ==> {
            &&& actions.len() == 1
            &&& actions[0] is Autosave
        },
{
    lemma_buffer_is_reply_text(events);
}

/// The status bar's session word after a main-session event.
pub open spec fn session_word_after(word: Seq<char>, event: StreamEvent) -> Seq<char> {
    match event {
        StreamEvent::Interrupted { .. } => "Interrupted"@,
        StreamEvent::SessionReset => "Reset"@,
        _ => word,
    }
}

/// What a finished turn's reply becomes when spoken: nothing when text to
/// speech is off or nothing speakable is left, else the filtered text.
pub open spec fn spoken_reply(tts_enabled: bool, buffer: Seq<char>) -> Option<Seq<char>> {
    if !tts_enabled || speakable(buffer).len() == 0 {
        None
    } else {
        Some(speakable(buffer))
    }
}

/// The counters of a turn's end fit their integers.
pub open spec fn counters_fit(s: ChatStatus, event: StreamEvent) -> bool {
    match event {
        StreamEvent::TurnEnd { prompt_cache_hit_tokens, prompt_cache_miss_tokens, .. } => {
            &&& s.total_cache_hit_tokens + prompt_cache_hit_tokens <= u64::MAX
            &&& s.total_cache_miss_tokens + prompt_cache_miss_tokens <= u64::MAX
        },
        _ => true,
    }
}

/// The actions a main-session event asks for: a finished turn speaks its
/// reply (when there is something to say) and then saves; a reset asks
/// for the session to be saved and restarted; a snapshot is recorded.
pub open spec fn actions_ok(s: ChatStatus, event: StreamEvent, actions: Seq<ChatAction>) -> bool {
    match event {
        StreamEvent::TurnEnd { .. } => match spoken_reply(s.voice_tts_enabled, s.voice_reply_buffer@) {
            Some(t) => actions.len() == 2 && (actions[0] matches ChatAction::Speak(x) && x@ == t)
                && actions[1] is Autosave,
            None => actions.len() == 1 && actions[0] is Autosave,
        },
        StreamEvent::SessionReset => actions.len() == 1 && actions[0] is ResetSession,
        StreamEvent::ConversationSnapshot { messages, claude_session_id } => actions.len() == 1
            && (actions[0] matches ChatAction::RecordSnapshot { messages: m, claude_session_id: c }
            && m@ == messages@ && c == claude_session_id),
        _ => actions.len() == 0,
    }
}

/// An event can be handled without overflowing a counter: the id
/// counters have room, and a main-session turn's end adds cache counts
/// that fit.
pub open spec fn can_handle(c: ChatSession, routed: RoutedEvent) -> bool {
    &&& c.transcript.fits()
    &&& routed.route@.len() == 0 ==> counters_fit(c.status, routed.event)
}

/// One step of a drain: the event handled as `handle_routed_event` says,
/// with the view set to follow the newest output.
pub open spec fn drained_one(c0: ChatSession, c1: ChatSession, routed: RoutedEvent, actions: Seq<ChatAction>) -> bool {
    &&& can_handle(c0, routed)
    &&& routed_applied(c0.transcript.state(), c1.transcript.state(), routed.route@, routed.event)
    &&& c1.transcript.wf()
    &&& c1.input_buffer == c0.input_buffer
    &&& c1.auto_scroll
    &&& c1.attachment.pending == c0.attachment.pending
    &&& routed.route@.len() > 0 ==> c1.status == c0.status && actions.len() == 0
    &&& routed.route@.len() == 0 ==> {
        &&& same_numbers(c1.status, status_after(c0.status, routed.event))
        &&& c1.status.voice_reply_buffer@ == buffer_after(c0.status.voice_reply_buffer@, routed.event)
        &&& c1.status.session_status@ == session_word_after(c0.status.session_status@, routed.event)
        &&& actions_ok(c0.status, routed.event, actions)
    }
}

/// Whether a turn's end would keep the cache totals within `u64`.
fn counters_have_room(s: &ChatStatus, event: &StreamEvent) -> (r: bool)
    ensures
        r == counters_fit(*s, *event),
{
    match event {
        StreamEvent::TurnEnd { prompt_cache_hit_tokens, prompt_cache_miss_tokens, .. } => {
            *prompt_cache_hit_tokens <= u64::MAX - s.total_cache_hit_tokens
                && *prompt_cache_miss_tokens <= u64::MAX - s.total_cache_miss_tokens
        },
        _ => true,
    }
}

/// What submitting the input box does, from the session `c0` to `c1`,
/// handing back `r`: nothing when the box is blank and no image is
/// pending; else a user block (and, with a pending image, an image block
/// after it) joins the transcript, the session reads `Running...`, the
/// box and the attachment slot empty, the view follows, and the turn
/// carries the text and the image.
pub open spec fn submitted(c0: ChatSession, c1: ChatSession, r: Option<ChatAction>) -> bool {
    if trim(c0.input_buffer@).len() == 0 && c0.attachment.pending is None {
        r is None && c1 == c0
    } else {
        let s0 = c0.transcript.state();
        let s1 = pushed_block(
            s0,
            new_block(s0, BlockKind::User { text: c1.transcript.state().blocks[s0.blocks.len() as int].kind->User_text }, false),
        );
        &&& r matches Some(ChatAction::UserTurn { text, image }) && text@ == c0.input_buffer@
            && image == c0.attachment.pending
        &&& c1.input_buffer@.len() == 0
        &&& c1.attachment.pending is None
        &&& c1.status.session_status@ == "Running..."@
        &&& same_numbers(c1.status, c0.status)
        &&& c1.status.voice_reply_buffer == c0.status.voice_reply_buffer
        &&& c1.auto_scroll
        &&& c1.transcript.state().blocks[s0.blocks.len() as int].kind->User_text@ == c0.input_buffer@
        &&& match c0.attachment.pending {
            Some(image) => c1.transcript.state() == pushed_block(s1, new_block(s1, BlockKind::Image { image }, false)),
            None => c1.transcript.state() == s1,
        }
    }
}

/// What one event of the voice pipeline does to the session, from `c0`
/// to `c1`, handing back `r`: a state change is tracked, a wake word
/// changes nothing, an error becomes a red notice, and a transcript of
/// speech is submitted exactly as if it had been typed into the box.
pub open spec fn voice_handled(c0: ChatSession, c1: ChatSession, event: VoiceEvent, r: Option<ChatAction>) -> bool {
    match event {
        VoiceEvent::StateChanged(state) => r is None
            && c1 == (ChatSession { status: ChatStatus { voice_state: state, ..c0.status }, ..c0 }),
        VoiceEvent::WakeDetected => r is None && c1 == c0,
        VoiceEvent::Error(message) => {
            &&& r is None
            &&& c1 == (ChatSession { transcript: c1.transcript, ..c0 })
            &&& c1.transcript.state().blocks.len() == c0.transcript.state().blocks.len() + 1
            &&& c1.transcript.state().blocks.drop_last() == c0.transcript.state().blocks
            &&& (c1.transcript.state().blocks.last().kind matches BlockKind::Notice { text, severity }
                && text@ == "ERROR: "@ + message@ && severity == Severity::Error)
        },
        VoiceEvent::Transcript(text) => submitted((ChatSession { input_buffer: text, ..c0 }), c1, r),
    }
}

/// The actions among `outs`, in order.
pub open spec fn actions_among(outs: Seq<Option<ChatAction>>) -> Seq<ChatAction>
    decreases outs.len(),
{
    if outs.len() == 0 {
        seq![]
    } else {
        let earlier = actions_among(outs.drop_last());
        match outs.last() {
            Some(a) => earlier.push(a),
            None => earlier,
        }
    }
}

impl ChatSession {
    /// A fresh Chat tab: empty transcript, input and attachment, readouts
    /// at `Ready` and zero, the voice pipeline idle, and text to speech as
    /// the settings have it.
    pub fn new(voice_tts_enabled: bool) -> (c: ChatSession)
        ensures
            c.transcript.state().blocks.len() == 0,
            c.transcript.wf(),
            c.transcript.fits(),
            c.status.session_status@ == "Ready"@,
            c.status.token_count == 0,
            c.status.total_cache_hit_tokens == 0,
            c.status.total_cache_miss_tokens == 0,
            c.status.voice_reply_buffer@.len() == 0,
            c.status.voice_tts_enabled == voice_tts_enabled,
            c.status.voice_state == VoiceState::Idle,
            c.status.autopilot_progress == AutopilotProgress::Idle,
            c.input_buffer@.len() == 0,
            c.attachment.pending is None,
            !c.auto_scroll,
    {
        ChatSession {
            transcript: Transcript::new(),
            status: ChatStatus {
                session_status: "Ready".to_owned(),
                token_count: 0,
                total_cache_hit_tokens: 0,
                total_cache_miss_tokens: 0,
                voice_reply_buffer: String::new(),
                voice_tts_enabled,
                voice_state: VoiceState::Idle,
                autopilot_progress: AutopilotProgress::Idle,
            },
            input_buffer: String::new(),
            attachment: AttachmentSlot::new(),
            auto_scroll: false,
        }
    }

    /// Speak the reply gathered since the last turn ended, if text to
    /// speech is on and anything speakable is left after filtering. The
    /// buffer is emptied either way, so a later turn never inherits it.
    pub fn speak_accumulated_reply(&mut self) -> (r: Option<String>)
        ensures
            final(self).status.voice_reply_buffer@.len() == 0,
            same_numbers(final(self).status, old(self).status),
            final(self).status.session_status == old(self).status.session_status,
            final(self).transcript == old(self).transcript,
            final(self).input_buffer == old(self).input_buffer,
            final(self).auto_scroll == old(self).auto_scroll,
            final(self).attachment.pending == old(self).attachment.pending,
            match r {
                Some(t) => spoken_reply(old(self).status.voice_tts_enabled, old(self).status.voice_reply_buffer@) == Some(t@),
                None => spoken_reply(old(self).status.voice_tts_enabled, old(self).status.voice_reply_buffer@) is None,
            },
    {
        let mut reply = String::new();
        std::mem::swap(&mut reply, &mut self.status.voice_reply_buffer);
        if !self.status.voice_tts_enabled {
            return None;
        }
        let spoken = filter_for_speech(reply.as_str());
        if spoken.as_str().is_empty() {
            return None;
        }
        Some(spoken)
    }

    /// Drop the gathered reply without speaking it.
    pub fn clear_reply(&mut self)
        ensures
            final(self).status.voice_reply_buffer@.len() == 0,
            same_numbers(final(self).status, old(self).status),
            final(self).status.session_status == old(self).status.session_status,
            final(self).transcript == old(self).transcript,
            final(self).input_buffer == old(self).input_buffer,
            final(self).auto_scroll == old(self).auto_scroll,
            final(self).attachment.pending == old(self).attachment.pending,
    {
        self.status.voice_reply_buffer = String::new();
    }

    /// Update the readouts for one main-session stream event and say what
    /// the caller has to do. The transcript is not touched here.
    pub fn apply_event_side_effects(&mut self, event: &StreamEvent) -> (actions: Vec<ChatAction>)
        requires
            counters_fit(old(self).status, *event),
            !(event is ConversationSnapshot),
        ensures
            same_numbers(final(self).status, status_after(old(self).status, *event)),
            final(self).status.voice_reply_buffer@ == buffer_after(old(self).status.voice_reply_buffer@, *event),
            final(self).status.session_status@ == session_word_after(old(self).status.session_status@, *event),
            actions_ok(old(self).status, *event, actions@),
            final(self).transcript == old(self).transcript,
            final(self).input_buffer == old(self).input_buffer,
            final(self).auto_scroll == old(self).auto_scroll,
            final(self).attachment.pending == old(self).attachment.pending,
    {
        let mut actions: Vec<ChatAction> = Vec::new();
        match event {
            StreamEvent::Text { text, .. } => {
                let mut buf = chars_of(self.status.voice_reply_buffer.as_str());
                push_str_chars(&mut buf, text.as_str());
                self.status.voice_reply_buffer = string_of(buf.as_slice());
            },
            StreamEvent::TurnEnd { total_tokens, prompt_cache_hit_tokens, prompt_cache_miss_tokens, .. } => {
                self.status.token_count = *total_tokens;
                self.status.total_cache_hit_tokens = self.status.total_cache_hit_tokens + *prompt_cache_hit_tokens;
                self.status.total_cache_miss_tokens = self.status.total_cache_miss_tokens + *prompt_cache_miss_tokens;
                match self.speak_accumulated_reply() {
                    Some(t) => actions.push(ChatAction::Speak(t)),
                    None => {},
                }
                actions.push(ChatAction::Autosave);
            },
            StreamEvent::SessionReset => {
                self.status.session_status = "Reset".to_owned();
                self.status.total_cache_hit_tokens = 0;
                self.status.total_cache_miss_tokens = 0;
                self.status.voice_reply_buffer = String::new();
                actions.push(ChatAction::ResetSession);
            },
            StreamEvent::Interrupted { .. } => {
                self.status.session_status = "Interrupted".to_owned();
                self.status.voice_reply_buffer = String::new();
            },
            StreamEvent::RepeatIterationStart { index, total } => {
                self.status.autopilot_progress = AutopilotProgress::Running { index: *index, total: *total };
            },
            StreamEvent::RepeatFinished { completed, total } => {
                self.status.autopilot_progress = AutopilotProgress::Finished { completed: *completed, total: *total };
            },
            _ => {},
        }
        actions
    }

    /// Route one stream event. A main-session event (empty route) updates
    /// the readouts first and then reaches the transcript; a subagent's
    /// event reaches only the transcript, which finds its nested block.
    pub fn handle_routed_event(&mut self, routed: RoutedEvent) -> (actions: Vec<ChatAction>)
        requires
            old(self).transcript.wf(),
            old(self).transcript.fits(),
            routed.route@.len() == 0 ==> counters_fit(old(self).status, routed.event),
        ensures
            routed_applied(old(self).transcript.state(), final(self).transcript.state(), routed.route@, routed.event),
            final(self).transcript.wf(),
            final(self).input_buffer == old(self).input_buffer,
            final(self).auto_scroll == old(self).auto_scroll,
            final(self).attachment.pending == old(self).attachment.pending,
            routed.route@.len() > 0 ==> final(self).status == old(self).status && actions@.len() == 0,
            routed.route@.len() == 0 ==> {
                &&& same_numbers(final(self).status, status_after(old(self).status, routed.event))
                &&& final(self).status.voice_reply_buffer@ == buffer_after(old(self).status.voice_reply_buffer@, routed.event)
                &&& final(self).status.session_status@ == session_word_after(old(self).status.session_status@, routed.event)
                &&& actions_ok(old(self).status, routed.event, actions@)
            },
    {
        if routed.route.len() > 0 {
            self.transcript.apply_routed_event(routed);
            return Vec::new();
        }
        let ghost s0 = self.transcript.state();
        let ghost route0 = routed.route@;
        let RoutedEvent { route, event } = routed;
        match event {
            StreamEvent::ConversationSnapshot { messages, claude_session_id } => {
                let mut actions: Vec<ChatAction> = Vec::new();
                actions.push(ChatAction::RecordSnapshot { messages, claude_session_id });
                proof {
                    lemma_wf(self.transcript);
                }
                actions
            },
            other => {
                let actions = self.apply_event_side_effects(&other);
                self.transcript.apply_routed_event(RoutedEvent { route, event: other });
                actions
            },
        }
    }

    /// Drain a frame's queued stream events in arrival order: each is
    /// handled exactly as `handle_routed_event` handles it, the view then
    /// follows the newest output, and the actions asked for come out in
    /// the events' order. The drain stops early only at an event that
    /// would overflow a counter (an id counter at its limit, or a cache
    /// total that would pass `u64::MAX`); the count of events handled
    /// says where.
    pub fn drain_events(&mut self, events: Vec<RoutedEvent>) -> (r: (Vec<ChatAction>, usize))
        requires
            old(self).transcript.wf(),
        ensures
            r.1 <= events@.len(),
            exists|steps: Seq<ChatSession>, acts: Seq<Seq<ChatAction>>| {
                &&& steps.len() == r.1 + 1
                &&& acts.len() == r.1
                &&& steps[0] == *old(self)
                &&& steps[r.1 as int] == *final(self)
                &&& r.0@ == acts.flatten_alt()
                &&& forall|i: int| 0 <= i < r.1 ==> #[trigger] drained_one(steps[i], steps[i + 1], events@[i], acts[i])
            },
            r.1 < events@.len() ==> !can_handle(*final(self), events@[r.1 as int]),
            final(self).transcript.wf(),
    {
        let ghost c0 = *self;
        let ghost events0 = events@;
        let total: usize = events.len();
        let ghost mut steps: Seq<ChatSession> = seq![*self];
        let ghost mut acts: Seq<Seq<ChatAction>> = seq![];
        let mut rest = events;
        let mut all: Vec<ChatAction> = Vec::new();
        let mut n: usize = 0;
        loop
            invariant
                n <= events0.len(),
                events0.len() == total,
                rest@ == events0.subrange(n as int, events0.len() as int),
                steps.len() == n + 1,
                acts.len() == n,
                steps[0] == c0,
                steps[n as int] == *self,
                all@ == acts.flatten_alt(),
                forall|i: int| 0 <= i < n ==> #[trigger] drained_one(steps[i], steps[i + 1], events0[i], acts[i]),
                self.transcript.wf(),
            ensures
                n <= events0.len(),
                steps.len() == n + 1,
                acts.len() == n,
                steps[0] == c0,
                steps[n as int] == *self,
                all@ == acts.flatten_alt(),
                forall|i: int| 0 <= i < n ==> #[trigger] drained_one(steps[i], steps[i + 1], events0[i], acts[i]),
                n < events0.len() ==> !can_handle(*self, events0[n as int]),
                self.transcript.wf(),
            decreases rest@.len(),
        {
            if n == total {
                break;
            }
            let room = self.transcript.has_room();
            let fit = rest[0].route.len() > 0 || counters_have_room(&self.status, &rest[0].event);
            if !room || !fit {
                break;
            }
            let routed = rest.remove(0);
            let ghost before = *self;
            let mut step = self.handle_routed_event(routed);
            self.auto_scroll = true;
            proof {
                assert(drained_one(before, *self, events0[n as int], step@));
                let acts1 = acts.push(step@);
                assert(acts1.drop_last() =~= acts);
                acts = acts1;
                steps = steps.push(*self);
            }
            all.append(&mut step);
            n = n + 1;
            assert(rest@ =~= events0.subrange(n as int, events0.len() as int));
        }
        (all, n)
    }

    /// Finish a session reset after the caller has saved the outgoing
    /// conversation and cleared the transcript: one notice says so.
    pub fn finish_session_reset(&mut self)
        requires
            old(self).transcript.state().next_id < u64::MAX,
        ensures
            final(self).transcript.state() == pushed_block(
                old(self).transcript.state(),
                new_block(
                    old(self).transcript.state(),
                    BlockKind::Notice { text: final(self).transcript.state().blocks.last().kind->Notice_text, severity: Severity::Info },
                    false,
                ),
            ),
            final(self).transcript.state().blocks.last().kind->Notice_text@ == "Session reset"@,
            final(self).status == old(self).status,
            final(self).input_buffer == old(self).input_buffer,
            final(self).attachment.pending == old(self).attachment.pending,
            old(self).transcript.wf() ==> final(self).transcript.wf(),
    {
        let text = "Session reset".to_owned();
        self.transcript.push(BlockKind::Notice { text, severity: Severity::Info });
    }

    /// Submit what is in the input box: a user block (and, with a pending
    /// image, an image block after it) joins the transcript, the session
    /// reads `Running...`, the box and the attachment slot empty, and the
    /// turn is handed back for the agent. Nothing happens when the box is
    /// blank and no image is pending.
    pub fn submit_current_input(&mut self) -> (r: Option<ChatAction>)
        requires
            old(self).transcript.state().next_id < u64::MAX - 1,
        ensures
            submitted(*old(self), *final(self), r),
    {
        let input_chars = chars_of(self.input_buffer.as_str());
        let trimmed = trim_chars(input_chars.as_slice());
        if trimmed.len() == 0 && self.attachment.is_empty() {
            return None;
        }
        let mut input = String::new();
        std::mem::swap(&mut input, &mut self.input_buffer);
        let text = input.clone();
        self.transcript.push(BlockKind::User { text });
        let attachment = self.attachment.take();
        let image = match &attachment {
            Some(img) => {
                let copy = ImageAttachment { data: img.data.clone(), media_type: img.media_type.clone() };
                self.transcript.push(BlockKind::Image { image: copy });
                attachment
            },
            None => None,
        };
        self.status.session_status = "Running...".to_owned();
        self.auto_scroll = true;
        Some(ChatAction::UserTurn { text: input, image })
    }

    /// Handle one event from the voice pipeline: a state change is
    /// tracked, an error becomes a red notice, and a transcript of speech
    /// goes through the very path the Enter key takes.
    pub fn handle_voice_event(&mut self, event: VoiceEvent) -> (r: Option<ChatAction>)
        requires
            old(self).transcript.state().next_id < u64::MAX - 1,
        ensures
            voice_handled(*old(self), *final(self), event, r),
    {
        match event {
            VoiceEvent::StateChanged(state) => {
                self.status.voice_state = state;
                None
            },
            VoiceEvent::Error(message) => {
                let mut t = chars_of("ERROR: ");
                push_str_chars(&mut t, message.as_str());
                let text = string_of(t.as_slice());
                self.transcript.push(BlockKind::Notice { text, severity: Severity::Error });
                assert(self.transcript.state().blocks.drop_last() =~= old(self).transcript.state().blocks);
                None
            },
            VoiceEvent::Transcript(text) => {
                self.input_buffer = text;
                self.submit_current_input()
            },
            VoiceEvent::WakeDetected => None,
        }
    }
}

impl ChatSession {
    /// Drain a frame's queued voice events in arrival order, each handled
    /// exactly as `handle_voice_event` handles it; the turns they submit
    /// come out in order. The drain stops early only when the block id
    /// counter has no room left for what an event may add; the count of
    /// events handled says where.
    pub fn drain_voice_events(&mut self, events: Vec<VoiceEvent>) -> (r: (Vec<ChatAction>, usize))
        ensures
            r.1 <= events@.len(),
            exists|steps: Seq<ChatSession>, outs: Seq<Option<ChatAction>>| {
                &&& steps.len() == r.1 + 1
                &&& outs.len() == r.1
                &&& steps[0] == *old(self)
                &&& steps[r.1 as int] == *final(self)
                &&& r.0@ == actions_among(outs)
                &&& forall|i: int| 0 <= i < r.1 ==> #[trigger] voice_handled(steps[i], steps[i + 1], events@[i], outs[i])
            },
            r.1 < events@.len() ==> final(self).transcript.state().next_id >= u64::MAX - 1,
    {
        let ghost c0 = *self;
        let ghost events0 = events@;
        let total: usize = events.len();
        let ghost mut steps: Seq<ChatSession> = seq![*self];
        let ghost mut outs: Seq<Option<ChatAction>> = seq![];
        let mut rest = events;
        let mut all: Vec<ChatAction> = Vec::new();
        let mut n: usize = 0;
        loop
            invariant
                n <= events0.len(),
                events0.len() == total,
                rest@ == events0.subrange(n as int, events0.len() as int),
                steps.len() == n + 1,
                outs.len() == n,
                steps[0] == c0,
                steps[n as int] == *self,
                all@ == actions_among(outs),
                forall|i: int| 0 <= i < n ==> #[trigger] voice_handled(steps[i], steps[i + 1], events0[i], outs[i]),
            ensures
                n <= events0.len(),
                steps.len() == n + 1,
                outs.len() == n,
                steps[0] == c0,
                steps[n as int] == *self,
                all@ == actions_among(outs),
                forall|i: int| 0 <= i < n ==> #[trigger] voice_handled(steps[i], steps[i + 1], events0[i], outs[i]),
                n < events0.len() ==> self.transcript.state().next_id >= u64::MAX - 1,
            decreases rest@.len(),
        {
            if n == total {
                break;
            }
            if self.transcript.next_id() >= u64::MAX - 1 {
                break;
            }
            let event = rest.remove(0);
            let out = self.handle_voice_event(event);
            proof {
                let outs1 = outs.push(out);
                assert(outs1.drop_last() =~= outs);
                outs = outs1;
                steps = steps.push(*self);
            }
            match out {
                Some(a) => all.push(a),
                None => {},
            }
            n = n + 1;
            assert(rest@ =~= events0.subrange(n as int, events0.len() as int));
        }
        (all, n)
    }
}

// ---------------------------------------------------------------------
// Escape, the status bar, and the voice selector
// ---------------------------------------------------------------------
impl ChatSession {
    /// Escape pressed: one Escape cuts off whatever the session is doing.
    /// The caller raises the agent's interrupt flag, raises the Autopilot
    /// stop flag and stops speech, in that order, as the returned actions
    /// say; one warning notice says the interrupt is under way.
    pub fn interrupt(&mut self) -> (actions: Vec<ChatAction>)
        requires
            old(self).transcript.state().next_id < u64::MAX,
        ensures
            actions@.len() == 3,
            actions@[0] is Interrupt,
            actions@[1] is StopRepeat,
            actions@[2] is StopSpeaking,
            final(self).transcript.state().blocks.len() == old(self).transcript.state().blocks.len() + 1,
            final(self).transcript.state().blocks.drop_last() == old(self).transcript.state().blocks,
            (final(self).transcript.state().blocks.last().kind matches BlockKind::Notice { text, severity }
                && text@ == "[Interrupting...]"@ && severity == Severity::Warning),
            final(self).status == old(self).status,
            final(self).input_buffer == old(self).input_buffer,
            old(self).transcript.wf() ==> final(self).transcript.wf(),
    {
        let mut actions: Vec<ChatAction> = Vec::new();
        actions.push(ChatAction::Interrupt);
        actions.push(ChatAction::StopRepeat);
        actions.push(ChatAction::StopSpeaking);
        let text = "[Interrupting...]".to_owned();
        self.transcript.push(BlockKind::Notice { text, severity: Severity::Warning });
        actions
    }
}

/// The status bar's backend caption: the selected backend (`unknown` when
/// the picker points at nothing) and the model.
pub open spec fn backend_caption_text(selected: Option<Seq<char>>, model: Seq<char>) -> Seq<char> {
    let name = match selected {
        Some(n) => n,
        None => "unknown"@,
    };
    "Backend: "@ + name + " ("@ + model + ")"@
}

/// The status bar's backend caption.
pub fn backend_caption(selected: Option<&str>, model: &str) -> (r: String)
    ensures
        r@ == backend_caption_text(
            match selected {
                Some(n) => Some(n@),
                None => None,
            },
            model@,
        ),
{
    let mut t = chars_of("Backend: ");
    match selected {
        Some(n) => push_str_chars(&mut t, n),
        None => push_str_chars(&mut t, "unknown"),
    }
    push_str_chars(&mut t, " (");
    push_str_chars(&mut t, model);
    push_str_chars(&mut t, ")");
    string_of(t.as_slice())
}

/// The status bar's token caption: the last finished turn's total.
pub fn tokens_caption(token_count: u64) -> (r: String)
    ensures
        r@ == "Tokens: "@ + decimal(token_count as nat),
{
    let mut t = chars_of("Tokens: ");
    let d = decimal_chars(token_count);
    extend_chars(&mut t, d.as_slice());
    string_of(t.as_slice())
}

/// The status bar's cache caption, shown only once a turn has reported a
/// cache hit or miss.
pub fn cache_caption(hit: u64, miss: u64) -> (r: Option<String>)
    ensures
        hit == 0 && miss == 0 ==> r is None,
        hit > 0 || miss > 0 ==> (r matches Some(t)
            && t@ == "Cache hit: "@ + decimal(hit as nat) + " | miss: "@ + decimal(miss as nat)),
{
    if hit == 0 && miss == 0 {
        return None;
    }
    let mut t = chars_of("Cache hit: ");
    let h = decimal_chars(hit);
    extend_chars(&mut t, h.as_slice());
    push_str_chars(&mut t, " | miss: ");
    let m = decimal_chars(miss);
    extend_chars(&mut t, m.as_slice());
    Some(string_of(t.as_slice()))
}

/// The Kokoro voice ids the voice selector offers, in order. A fixed list,
/// so the panel's options stay the same whatever is unpacked on disk.
pub open spec fn kokoro_voice_ids() -> Seq<Seq<char>> {
    seq!["af_heart"@, "af_bella"@, "af_nicole"@, "am_michael"@, "am_puck"@, "bf_emma"@, "bm_george"@]
}

/// The voice selector's options.
pub fn voice_id_options() -> (r: Vec<String>)
    ensures
        r@.len() == kokoro_voice_ids().len(),
        forall|i: int| 0 <= i < r@.len() ==> #[trigger] r@[i]@ == kokoro_voice_ids()[i],
{
    let mut r: Vec<String> = Vec::new();
    r.push("af_heart".to_owned());
    r.push("af_bella".to_owned());
    r.push("af_nicole".to_owned());
    r.push("am_michael".to_owned());
    r.push("am_puck".to_owned());
    r.push("bf_emma".to_owned());
    r.push("bm_george".to_owned());
    r
}

/// Where the voice selector starts: at the configured voice, or at the
/// first voice when the settings name one this build does not offer.
pub fn selected_voice_index(options: &Vec<String>, configured: &str) -> (r: usize)
    ensures
        r == if position_of(names_view(options@), configured@) >= 0 {
            position_of(names_view(options@), configured@)
        } else {
            0
        },
{
    match position_in(options, configured) {
        Some(k) => k,
        None => 0,
    }
}

} // verus!
