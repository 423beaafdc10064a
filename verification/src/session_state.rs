//! The current conversation's identity: its id, its summary, the list of
//! saved conversations, and the API history a save needs. Reading and
//! writing the files is the caller's part; this decides what a save
//! records, when an outgoing conversation is worth saving, and what a new
//! or loaded conversation starts from.
use vstd::prelude::*;

use crate::api::Message;
use crate::session::{derive_title, title_of, SessionId, SessionMeta, SessionRecord, Timestamp};
use crate::transcript::Transcript;

verus! {

/// Which backend and model the running session is on. A save records
/// both.
#[derive(Debug, Clone, PartialEq, Eq)]
pub struct SessionOrigin {
    pub backend: String,
    pub model: String,
}

/// The saved-conversation state behind the Chat and Sessions tabs.
#[derive(Debug)]
pub struct SessionState {
    /// The id the current conversation will save under.
    pub current_id: SessionId,
    /// The current conversation's summary; its id is always `current_id`.
    pub current_meta: SessionMeta,
    /// Every saved conversation's summary, as the store last listed them.
    pub saved: Vec<SessionMeta>,
    /// The API history as of the latest snapshot.
    pub messages: Vec<Message>,
    /// The command-line backend's own session id, as of the latest
    /// snapshot.
    pub claude_session_id: Option<String>,
}

/// The title a conversation carries until its first user message names it.
pub open spec fn placeholder_title() -> Seq<char> {
    "New conversation"@
}

/// A fresh conversation's summary: placeholder title, no messages, both
/// timestamps `now`, and the running backend and model.
pub open spec fn is_fresh_meta(m: SessionMeta, id: SessionId, origin: SessionOrigin, now: Timestamp) -> bool {
    &&& m.id == id
    &&& m.title@ == placeholder_title()
    &&& m.created_at == now
    &&& m.updated_at == now
    &&& m.backend == origin.backend
    &&& m.model == origin.model
    &&& m.message_count == 0
}

/// The summary a save records: the title derived from the conversation
/// while it is still the placeholder (and kept once set), the time of the
/// save, the message count, and the running backend and model.
pub open spec fn refreshed_meta_ok(
    before: SessionMeta,
    after: SessionMeta,
    messages: Seq<Message>,
    transcript: Transcript,
    origin: SessionOrigin,
    now: Timestamp,
) -> bool {
    &&& after.id == before.id
    &&& after.created_at == before.created_at
    &&& (before.title@ == placeholder_title() ==> after.title@ == title_of(messages, transcript.state().blocks))
    &&& (before.title@ != placeholder_title() ==> after.title == before.title)
    &&& after.updated_at == now
    &&& after.message_count == messages.len()
    &&& after.backend == origin.backend
    &&& after.model == origin.model
}

fn fresh_meta(id: SessionId, origin: &SessionOrigin, now: Timestamp) -> (m: SessionMeta)
    ensures
        is_fresh_meta(m, id, *origin, now),
{
    SessionMeta {
        id,
        title: "New conversation".to_owned(),
        created_at: now,
        updated_at: now,
        backend: origin.backend.clone(),
        model: origin.model.clone(),
        message_count: 0,
    }
}

impl SessionState {
    /// A fresh, empty conversation under `id`, begun at `now`, beside the
    /// saved list the store gave.
    pub fn new(id: SessionId, origin: &SessionOrigin, now: Timestamp, saved: Vec<SessionMeta>) -> (s: SessionState)
        ensures
            s.current_id == id,
            is_fresh_meta(s.current_meta, id, *origin, now),
            s.saved == saved,
            s.messages@.len() == 0,
            s.claude_session_id is None,
    {
        SessionState {
            current_id: id,
            current_meta: fresh_meta(id, origin, now),
            saved,
            messages: Vec::new(),
            claude_session_id: None,
        }
    }

    /// Keep the latest API history and command-line session id, for the
    /// save that follows the turn's end.
    pub fn record_snapshot(&mut self, messages: Vec<Message>, claude_session_id: Option<String>)
        ensures
            final(self).messages == messages,
            final(self).claude_session_id == claude_session_id,
            final(self).current_id == old(self).current_id,
            final(self).current_meta == old(self).current_meta,
            final(self).saved == old(self).saved,
    {
        self.messages = messages;
        self.claude_session_id = claude_session_id;
    }

    /// Bring the summary up to date before a save.
    pub fn refresh_meta(&mut self, transcript: &Transcript, origin: &SessionOrigin, now: Timestamp)
        ensures
            refreshed_meta_ok(old(self).current_meta, final(self).current_meta, old(self).messages@, *transcript, *origin, now),
            final(self).current_id == old(self).current_id,
            final(self).saved == old(self).saved,
            final(self).messages == old(self).messages,
            final(self).claude_session_id == old(self).claude_session_id,
    {
        proof {
            reveal_strlit("New conversation");
        }
        if crate::settings::str_eq(self.current_meta.title.as_str(), "New conversation") {
            self.current_meta.title = derive_title(self.messages.as_slice(), transcript);
        }
        self.current_meta.updated_at = now;
        self.current_meta.message_count = self.messages.len();
        self.current_meta.backend = origin.backend.clone();
        self.current_meta.model = origin.model.clone();
    }

    /// Lend the record a save writes: the summary, the history, the
    /// displayed transcript and the command-line session id. The history
    /// moves into the record for the write; `restore_after_save` takes it
    /// back.
    pub fn lend_record(&mut self, transcript: Transcript) -> (r: SessionRecord)
        ensures
            r.meta == old(self).current_meta,
            r.transcript == transcript,
            r.messages == old(self).messages,
            r.claude_session_id == old(self).claude_session_id,
            final(self).messages@.len() == 0,
            final(self).current_id == old(self).current_id,
            final(self).current_meta == old(self).current_meta,
            final(self).saved == old(self).saved,
            final(self).claude_session_id == old(self).claude_session_id,
    {
        let mut messages: Vec<Message> = Vec::new();
        std::mem::swap(&mut messages, &mut self.messages);
        let claude_session_id = match &self.claude_session_id {
            Some(s) => Some(s.clone()),
            None => None,
        };
        let m = &self.current_meta;
        let meta = SessionMeta {
            id: m.id,
            title: m.title.clone(),
            created_at: m.created_at,
            updated_at: m.updated_at,
            backend: m.backend.clone(),
            model: m.model.clone(),
            message_count: m.message_count,
        };
        SessionRecord { meta, messages, transcript, claude_session_id }
    }

    /// Take the history back from a written record, and hand back its
    /// transcript.
    pub fn restore_after_save(&mut self, record: SessionRecord) -> (t: Transcript)
        ensures
            t == record.transcript,
            final(self).messages == record.messages,
            final(self).current_id == old(self).current_id,
            final(self).current_meta == old(self).current_meta,
            final(self).saved == old(self).saved,
            final(self).claude_session_id == old(self).claude_session_id,
    {
        let SessionRecord { meta: _, messages, transcript, claude_session_id: _ } = record;
        self.messages = messages;
        transcript
    }

    /// Whether the outgoing conversation is worth a save before switching
    /// away: only when its transcript holds something, so opening a new
    /// conversation twice in a row leaves no empty record behind.
    pub fn needs_outgoing_save(transcript: &Transcript) -> (b: bool)
        ensures
            b == (transcript.state().blocks.len() > 0),
    {
        transcript.blocks().len() > 0
    }

    /// Open a fresh conversation under `new_id` once the outgoing one is
    /// saved: the transcript, the history and the command-line session id
    /// are cleared, and the summary starts over.
    pub fn start_new(&mut self, transcript: &mut Transcript, origin: &SessionOrigin, new_id: SessionId, now: Timestamp)
        ensures
            final(transcript).state().blocks.len() == 0,
            final(transcript).state().next_id == old(transcript).state().next_id,
            final(transcript).wf(),
            final(self).messages@.len() == 0,
            final(self).claude_session_id is None,
            final(self).current_id == new_id,
            is_fresh_meta(final(self).current_meta, new_id, *origin, now),
            final(self).saved == old(self).saved,
    {
        transcript.clear();
        self.messages = Vec::new();
        self.claude_session_id = None;
        self.current_id = new_id;
        self.current_meta = fresh_meta(new_id, origin, now);
    }

    /// Install a saved conversation the store loaded: its transcript,
    /// history, command-line session id, id and summary replace the
    /// current ones.
    pub fn install_loaded(&mut self, record: SessionRecord, transcript: &mut Transcript)
        ensures
            *final(transcript) == record.transcript,
            final(self).messages == record.messages,
            final(self).claude_session_id == record.claude_session_id,
            final(self).current_id == record.meta.id,
            final(self).current_meta == record.meta,
            final(self).saved == old(self).saved,
    {
        let SessionRecord { meta, messages, transcript: loaded, claude_session_id } = record;
        *transcript = loaded;
        self.messages = messages;
        self.claude_session_id = claude_session_id;
        self.current_id = meta.id;
        self.current_meta = meta;
    }
}

/// A saved conversation's row label in the Sessions tab: its title,
/// starred when it is the conversation open now.
pub fn session_row_label(meta: &SessionMeta, current_id: SessionId) -> (r: String)
    ensures
        meta.id == current_id ==> r@ == "* "@ + meta.title@,
        meta.id != current_id ==> r@ == meta.title@,
{
    if meta.id.0 == current_id.0 {
        let mut t = crate::text::chars_of("* ");
        crate::text::push_str_chars(&mut t, meta.title.as_str());
        crate::text::string_of(t.as_slice())
    } else {
        meta.title.clone()
    }
}

/// The message count a Sessions tab row shows.
pub fn message_count_label(count: usize) -> (r: String)
    ensures
        r@ == crate::text::decimal(count as nat) + " messages"@,
{
    let mut t = crate::text::decimal_chars(count as u64);
    crate::text::push_str_chars(&mut t, " messages");
    crate::text::string_of(t.as_slice())
}

} // verus!
