//! The events an agent turn streams to the GUI, and the route that tags an
//! event with the chain of subagent dispatches it came through.
use vstd::prelude::*;
use crate::api::Message;
use crate::session::random_uuid;

verus! {

/// Identifies one subagent dispatch. Assigned by the dispatcher, never by
/// a transcript.
#[derive(Debug, Clone, Copy, PartialEq, Eq, Hash, Structural)]
pub struct SubagentId(pub u64);

impl SubagentId {
    /// A fresh id for a new dispatch: the high 64 bits of a random
    /// version-4 UUID, so its bits 12 to 15 hold the version, 4.
    pub fn next() -> (r: SubagentId)
        ensures
            (r.0 >> 12u32) & 0xfu64 == 4u64,
    {
        let v = random_uuid();
        let r = SubagentId((v >> 64u32) as u64);
        assert((((v >> 64u32) as u64) >> 12u32) & 0xfu64 == 4u64) by (bit_vector)
            requires
                (v >> 76u32) & 0xfu128 == 4u128;
        r
    }
}

/// What a dispatch runs on, carried on every hop of its route.
#[derive(Debug, Clone, PartialEq, Eq)]
pub struct SubagentMeta {
    pub backend: String,
    pub model: String,
    pub depth: u32,
}

/// One hop of a route: the dispatch, its backend, and its live counts
/// against the two runaway-cost caps.
#[derive(Debug, Clone, PartialEq, Eq)]
pub struct RouteHop {
    pub id: SubagentId,
    pub meta: SubagentMeta,
    pub session_turns: u32,
    pub session_turn_cap: u32,
    pub send_message_calls: u32,
    pub send_message_call_cap: u32,
}

/// One event of an agent turn.
#[derive(Debug, Clone, PartialEq, Eq)]
pub enum StreamEvent {
    Text { turn: u32, text: String },
    Reasoning { turn: u32, text: String },
    ToolCallStart { turn: u32, tool: String, args: String },
    ToolCallEnd { turn: u32, tool: String, output: String, is_error: bool },
    TurnEnd {
        turn: u32,
        finish_reason: String,
        total_tokens: u64,
        prompt_cache_hit_tokens: u64,
        prompt_cache_miss_tokens: u64,
    },
    Interrupted { message: String },
    Error { message: String },
    SessionReset,
    RepeatIterationStart { index: u32, total: u32 },
    RepeatFinished { completed: u32, total: u32 },
    ConversationSnapshot { messages: Vec<Message>, claude_session_id: Option<String> },
}

/// An event plus the chain of dispatches it came through, outermost first.
/// An empty route is the main session's own event.
#[derive(Debug, Clone, PartialEq, Eq)]
pub struct RoutedEvent {
    pub route: Vec<RouteHop>,
    pub event: StreamEvent,
}

impl RoutedEvent {
    /// The main session's own event, with an empty route.
    pub fn own(event: StreamEvent) -> (r: RoutedEvent)
        ensures
            r.route@.len() == 0,
            r.event == event,
    {
        RoutedEvent { route: Vec::new(), event }
    }
}

} // verus!
