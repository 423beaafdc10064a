//! The colours and spacing the Chat tab draws with, chosen from what a
//! block or a state is, so that every kind and every state reads apart.
use vstd::prelude::*;

use crate::transcript::{BlockKind, Severity, SubagentState};
use crate::voice_controls::VoiceState;

verus! {

/// An opaque RGB colour.
#[derive(Debug, Clone, Copy, PartialEq, Eq, Structural)]
pub struct Rgb {
    pub r: u8,
    pub g: u8,
    pub b: u8,
}

/// White: assistant output on the raw path.
pub fn white() -> (c: Rgb)
    ensures
        c == (Rgb { r: 255, g: 255, b: 255 }),
{
    Rgb { r: 255, g: 255, b: 255 }
}

/// The fill of a user message's bubble.
pub fn user_bubble_fill() -> (c: Rgb)
    ensures
        c == (Rgb { r: 38, g: 52, b: 74 }),
{
    Rgb { r: 38, g: 52, b: 74 }
}

/// The fill of an assistant message's bubble.
pub fn assistant_bubble_fill() -> (c: Rgb)
    ensures
        c == (Rgb { r: 38, g: 42, b: 48 }),
{
    Rgb { r: 38, g: 42, b: 48 }
}

/// The `You` role label, and user blocks on the raw path.
pub fn user_role_color() -> (c: Rgb)
    ensures
        c == (Rgb { r: 140, g: 180, b: 240 }),
{
    Rgb { r: 140, g: 180, b: 240 }
}

/// The `Assistant` role label.
pub fn assistant_role_color() -> (c: Rgb)
    ensures
        c == (Rgb { r: 150, g: 200, b: 160 }),
{
    Rgb { r: 150, g: 200, b: 160 }
}

/// Reasoning text, greyed apart from the reply.
pub fn reasoning_color() -> (c: Rgb)
    ensures
        c == (Rgb { r: 140, g: 140, b: 140 }),
{
    Rgb { r: 140, g: 140, b: 140 }
}

/// A tool call that went well.
pub fn tool_ok_color() -> (c: Rgb)
    ensures
        c == (Rgb { r: 255, g: 255, b: 0 }),
{
    Rgb { r: 255, g: 255, b: 0 }
}

/// A tool call that failed, in every part of it.
pub fn tool_error_color() -> (c: Rgb)
    ensures
        c == (Rgb { r: 255, g: 80, b: 80 }),
{
    Rgb { r: 255, g: 80, b: 80 }
}

/// A successful tool call's output.
pub fn tool_ok_output_color() -> (c: Rgb)
    ensures
        c == (Rgb { r: 0, g: 200, b: 0 }),
{
    Rgb { r: 0, g: 200, b: 0 }
}

/// An image block's label.
pub fn image_label_color() -> (c: Rgb)
    ensures
        c == (Rgb { r: 200, g: 160, b: 220 }),
{
    Rgb { r: 200, g: 160, b: 220 }
}



/// A notice's colour: red for an error, orange for a warning (such as an
/// interrupt), cyan for information (such as a reset), grey for anything
/// quieter.
pub fn severity_color(severity: Severity) -> (c: Rgb)
    ensures
        c == match severity {
            Severity::Error => Rgb { r: 255, g: 80, b: 80 },
            Severity::Warning => Rgb { r: 255, g: 165, b: 0 },
            Severity::Info => Rgb { r: 0, g: 255, b: 255 },
            Severity::Debug => Rgb { r: 128, g: 128, b: 128 },
        },
{
    match severity {
        Severity::Error => Rgb { r: 255, g: 80, b: 80 },
        Severity::Warning => Rgb { r: 255, g: 165, b: 0 },
        Severity::Info => Rgb { r: 0, g: 255, b: 255 },
        Severity::Debug => Rgb { r: 128, g: 128, b: 128 },
    }
}

/// A tool call's own lines: red when it failed, in both the folded and
/// the unfolded state.
pub fn tool_color(is_error: bool) -> (c: Rgb)
    ensures
        c == if is_error { (Rgb { r: 255, g: 80, b: 80 }) } else { (Rgb { r: 255, g: 255, b: 0 }) },
{
    if is_error {
        (Rgb { r: 255, g: 80, b: 80 })
    } else {
        (Rgb { r: 255, g: 255, b: 0 })
    }
}

/// A tool call's output body: red when it failed.
pub fn tool_output_color(is_error: bool) -> (c: Rgb)
    ensures
        c == if is_error { (Rgb { r: 255, g: 80, b: 80 }) } else { (Rgb { r: 0, g: 200, b: 0 }) },
{
    if is_error {
        (Rgb { r: 255, g: 80, b: 80 })
    } else {
        (Rgb { r: 0, g: 200, b: 0 })
    }
}

/// A subagent's state badge.
pub fn subagent_state_color(state: SubagentState) -> (c: Rgb)
    ensures
        c == match state {
            SubagentState::Running => Rgb { r: 150, g: 150, b: 255 },
            SubagentState::Done => Rgb { r: 100, g: 200, b: 100 },
            SubagentState::Failed => (Rgb { r: 255, g: 80, b: 80 }),
            SubagentState::Interrupted => Rgb { r: 255, g: 165, b: 0 },
        },
{
    match state {
        SubagentState::Running => Rgb { r: 150, g: 150, b: 255 },
        SubagentState::Done => Rgb { r: 100, g: 200, b: 100 },
        SubagentState::Failed => (Rgb { r: 255, g: 80, b: 80 }),
        SubagentState::Interrupted => Rgb { r: 255, g: 165, b: 0 },
    }
}

/// A whole block's colour on the raw path, from its kind alone.
pub fn block_color(kind: &BlockKind) -> (c: Rgb)
    ensures
        c == match kind {
            BlockKind::User { .. } => (Rgb { r: 140, g: 180, b: 240 }),
            BlockKind::Assistant { .. } => (Rgb { r: 255, g: 255, b: 255 }),
            BlockKind::ToolCall { is_error, .. } => if *is_error { (Rgb { r: 255, g: 80, b: 80 }) } else { (Rgb { r: 255, g: 255, b: 0 }) },
            BlockKind::Notice { severity, .. } => match *severity {
                Severity::Error => Rgb { r: 255, g: 80, b: 80 },
                Severity::Warning => Rgb { r: 255, g: 165, b: 0 },
                Severity::Info => Rgb { r: 0, g: 255, b: 255 },
                Severity::Debug => Rgb { r: 128, g: 128, b: 128 },
            },
            BlockKind::Subagent { state, .. } => match *state {
                SubagentState::Running => Rgb { r: 150, g: 150, b: 255 },
                SubagentState::Done => Rgb { r: 100, g: 200, b: 100 },
                SubagentState::Failed => (Rgb { r: 255, g: 80, b: 80 }),
                SubagentState::Interrupted => Rgb { r: 255, g: 165, b: 0 },
            },
            BlockKind::Image { .. } => (Rgb { r: 200, g: 160, b: 220 }),
        },
{
    match kind {
        BlockKind::User { .. } => (Rgb { r: 140, g: 180, b: 240 }),
        BlockKind::Assistant { .. } => (Rgb { r: 255, g: 255, b: 255 }),
        BlockKind::ToolCall { is_error, .. } => tool_color(*is_error),
        BlockKind::Notice { severity, .. } => severity_color(*severity),
        BlockKind::Subagent { state, .. } => subagent_state_color(*state),
        BlockKind::Image { .. } => (Rgb { r: 200, g: 160, b: 220 }),
    }
}

/// The status bar's colour for a voice state: grey idle, green listening,
/// yellow transcribing, blue speaking.
pub fn voice_state_color(state: VoiceState) -> (c: Rgb)
    ensures
        c == match state {
            VoiceState::Idle => Rgb { r: 128, g: 128, b: 128 },
            VoiceState::Listening => Rgb { r: 0, g: 200, b: 0 },
            VoiceState::Transcribing => Rgb { r: 255, g: 255, b: 0 },
            VoiceState::Speaking => Rgb { r: 100, g: 149, b: 237 },
        },
{
    match state {
        VoiceState::Idle => Rgb { r: 128, g: 128, b: 128 },
        VoiceState::Listening => Rgb { r: 0, g: 200, b: 0 },
        VoiceState::Transcribing => Rgb { r: 255, g: 255, b: 0 },
        VoiceState::Speaking => Rgb { r: 100, g: 149, b: 237 },
    }
}

/// The space left above a block.
#[derive(Debug, Clone, Copy, PartialEq, Eq, Structural)]
pub enum Gap {
    /// The wider gap that marks the start of a turn.
    Turn,
    /// The plain gap between blocks.
    Block,
}

/// A user message after the first opens a turn and gets the wider gap;
/// every other block gets the plain one.
pub fn gap_before(index: usize, kind: &BlockKind) -> (g: Gap)
    ensures
        g == if kind is User && index > 0 { Gap::Turn } else { Gap::Block },
{
    match kind {
        BlockKind::User { .. } => if index > 0 {
            Gap::Turn
        } else {
            Gap::Block
        },
        _ => Gap::Block,
    }
}

/// Every notice severity, subagent state and voice state has a colour of
/// its own.
pub proof fn lemma_states_read_apart(s1: Severity, s2: Severity, a1: SubagentState, a2: SubagentState, v1: VoiceState, v2: VoiceState)
    ensures
        s1 != s2 ==> severity_color_of(s1) != severity_color_of(s2),
        a1 != a2 ==> state_color_of(a1) != state_color_of(a2),
        v1 != v2 ==> voice_color_of(v1) != voice_color_of(v2),
{
}

/// `severity_color`'s result.
pub open spec fn severity_color_of(s: Severity) -> Rgb {
    match s {
        Severity::Error => Rgb { r: 255, g: 80, b: 80 },
        Severity::Warning => Rgb { r: 255, g: 165, b: 0 },
        Severity::Info => Rgb { r: 0, g: 255, b: 255 },
        Severity::Debug => Rgb { r: 128, g: 128, b: 128 },
    }
}

/// `subagent_state_color`'s result.
pub open spec fn state_color_of(s: SubagentState) -> Rgb {
    match s {
        SubagentState::Running => Rgb { r: 150, g: 150, b: 255 },
        SubagentState::Done => Rgb { r: 100, g: 200, b: 100 },
        SubagentState::Failed => (Rgb { r: 255, g: 80, b: 80 }),
        SubagentState::Interrupted => Rgb { r: 255, g: 165, b: 0 },
    }
}

/// `voice_state_color`'s result.
pub open spec fn voice_color_of(s: VoiceState) -> Rgb {
    match s {
        VoiceState::Idle => Rgb { r: 128, g: 128, b: 128 },
        VoiceState::Listening => Rgb { r: 0, g: 200, b: 0 },
        VoiceState::Transcribing => Rgb { r: 255, g: 255, b: 0 },
        VoiceState::Speaking => Rgb { r: 100, g: 149, b: 237 },
    }
}

} // verus!
