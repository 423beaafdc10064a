use deepseek_custom::api::Message;
use deepseek_custom::session::{SessionId, SessionMeta, SessionRecord};
use deepseek_custom::session_state::{SessionOrigin, SessionState};
use deepseek_custom::transcript::{BlockKind, Transcript};

/// An in-memory stand-in for the session files: one record per id, listed
/// newest first.
#[derive(Default)]
struct MemStore {
    records: Vec<SessionRecord>,
}

impl MemStore {
    fn save(&mut self, record: SessionRecord) -> SessionRecord {
        let copy = SessionRecord {
            meta: record.meta.clone(),
            messages: record.messages.clone(),
            transcript: Transcript::from_saved(Vec::new(), 0),
            claude_session_id: record.claude_session_id.clone(),
        };
        self.records.retain(|r| r.meta.id != copy.meta.id);
        self.records.push(copy);
        record
    }

    fn list(&self) -> Vec<SessionMeta> {
        let mut metas: Vec<SessionMeta> = self.records.iter().map(|r| r.meta.clone()).collect();
        metas.sort_by(|a, b| b.updated_at.cmp(&a.updated_at));
        metas
    }

    fn load(&self, id: SessionId, transcript_len: usize) -> Option<SessionRecord> {
        self.records.iter().find(|r| r.meta.id == id).map(|r| {
            let mut transcript = Transcript::new();
            for i in 0..transcript_len {
                transcript.push(BlockKind::User { text: format!("block {i}") });
            }
            SessionRecord {
                meta: r.meta.clone(),
                messages: r.messages.clone(),
                transcript,
                claude_session_id: r.claude_session_id.clone(),
            }
        })
    }

    fn delete(&mut self, id: SessionId) {
        self.records.retain(|r| r.meta.id != id);
    }
}

fn origin() -> SessionOrigin {
    SessionOrigin { backend: "deepseek".to_string(), model: "deepseek-v4-flash".to_string() }
}

fn fresh_state(store: &MemStore) -> SessionState {
    SessionState::new(SessionId::new(), &origin(), 1_000, store.list())
}

fn transcript_with_user_text(text: &str) -> Transcript {
    let mut transcript = Transcript::new();
    transcript.push(BlockKind::User { text: text.into() });
    transcript
}

/// What the Chat tab does after a turn ends: refresh the summary, write
/// the record, take the transcript back, and re-list.
fn autosave(state: &mut SessionState, transcript: &mut Transcript, store: &mut MemStore, now: u64) {
    state.refresh_meta(transcript, &origin(), now);
    let taken = std::mem::replace(transcript, Transcript::new());
    let record = state.lend_record(taken);
    let record = store.save(record);
    *transcript = state.restore_after_save(record);
    state.saved = store.list();
}

fn start_new(state: &mut SessionState, transcript: &mut Transcript, store: &mut MemStore, now: u64) {
    if SessionState::needs_outgoing_save(transcript) {
        autosave(state, transcript, store, now);
    }
    state.start_new(transcript, &origin(), SessionId::new(), now);
    state.saved = store.list();
}

#[test]
fn a_new_state_starts_empty_with_a_placeholder_title() {
    let store = MemStore::default();
    let state = fresh_state(&store);
    assert!(state.saved.is_empty());
    assert!(state.messages.is_empty());
    assert_eq!(state.claude_session_id, None);
    assert_eq!(state.current_meta.title, "New conversation");
    assert_eq!(state.current_meta.id, state.current_id);
    assert_eq!(state.current_meta.created_at, 1_000);
}

#[test]
fn recording_a_snapshot_keeps_the_history_and_the_claude_id() {
    let store = MemStore::default();
    let mut state = fresh_state(&store);
    let messages = vec![Message::user("hello")];
    state.record_snapshot(messages, Some("abc-123".into()));
    assert_eq!(state.messages.len(), 1);
    assert_eq!(state.claude_session_id.as_deref(), Some("abc-123"));
}

#[test]
fn autosave_writes_the_record_and_lists_it() {
    let mut store = MemStore::default();
    let mut state = fresh_state(&store);
    let mut transcript = transcript_with_user_text("first question");
    state.record_snapshot(vec![Message::user("first question")], None);
    autosave(&mut state, &mut transcript, &mut store, 2_000);
    assert_eq!(state.saved.len(), 1);
    assert_eq!(state.saved[0].message_count, 1);
    assert_eq!(state.saved[0].backend, "deepseek");
    assert_eq!(state.saved[0].updated_at, 2_000);
    assert_eq!(state.messages.len(), 1, "the history comes back after the write");
}

#[test]
fn autosave_returns_the_transcript_it_borrowed() {
    let mut store = MemStore::default();
    let mut state = fresh_state(&store);
    let mut transcript = transcript_with_user_text("keep me");
    autosave(&mut state, &mut transcript, &mut store, 2_000);
    assert_eq!(transcript.blocks().len(), 1, "the transcript must survive being moved through the record");
}

#[test]
fn autosave_derives_the_title_from_the_transcript_once() {
    let mut store = MemStore::default();
    let mut state = fresh_state(&store);
    let mut transcript = transcript_with_user_text("what is the plan");
    autosave(&mut state, &mut transcript, &mut store, 2_000);
    let derived = state.current_meta.title.clone();
    assert_ne!(derived, "New conversation");
    assert_eq!(derived, "what is the plan");

    transcript.push(BlockKind::User { text: "a later question".into() });
    autosave(&mut state, &mut transcript, &mut store, 3_000);
    assert_eq!(state.current_meta.title, derived, "a title is derived once, not rewritten every save");
}

#[test]
fn starting_a_new_session_saves_the_outgoing_one_and_clears_the_transcript() {
    let mut store = MemStore::default();
    let mut state = fresh_state(&store);
    let mut transcript = transcript_with_user_text("outgoing");
    let first_id = state.current_id;

    start_new(&mut state, &mut transcript, &mut store, 2_000);

    assert!(transcript.blocks().is_empty());
    assert_ne!(state.current_id, first_id);
    assert_eq!(state.saved.len(), 1, "the outgoing session was saved");
    assert_eq!(state.current_meta.title, "New conversation");
}

#[test]
fn starting_a_new_session_twice_saves_no_empty_record() {
    let mut store = MemStore::default();
    let mut state = fresh_state(&store);
    let mut transcript = Transcript::new();
    start_new(&mut state, &mut transcript, &mut store, 2_000);
    start_new(&mut state, &mut transcript, &mut store, 3_000);
    assert!(state.saved.is_empty(), "an empty conversation must not be written");
}

#[test]
fn loading_a_saved_session_restores_it_and_replays_the_history() {
    let mut store = MemStore::default();
    let mut state = fresh_state(&store);
    let mut transcript = transcript_with_user_text("original question");
    state.record_snapshot(vec![Message::user("original question")], Some("cli-1".into()));
    autosave(&mut state, &mut transcript, &mut store, 2_000);
    let saved_id = state.current_id;

    start_new(&mut state, &mut transcript, &mut store, 3_000);
    let record = store.load(saved_id, 1).expect("a saved session must load");
    state.install_loaded(record, &mut transcript);

    assert_eq!(state.current_id, saved_id);
    assert_eq!(transcript.blocks().len(), 1);
    assert_eq!(state.messages.len(), 1);
    assert_eq!(state.claude_session_id.as_deref(), Some("cli-1"));
}

#[test]
fn loading_an_unknown_session_leaves_the_current_one_alone() {
    let store = MemStore::default();
    let mut state = fresh_state(&store);
    let mut transcript = transcript_with_user_text("still here");
    let before = state.current_id;

    if let Some(record) = store.load(SessionId::new(), 0) {
        state.install_loaded(record, &mut transcript);
    }

    assert_eq!(state.current_id, before);
    assert_eq!(transcript.blocks().len(), 1);
}

#[test]
fn deleting_a_saved_session_drops_it_from_the_list() {
    let mut store = MemStore::default();
    let mut state = fresh_state(&store);
    let mut transcript = transcript_with_user_text("doomed");
    autosave(&mut state, &mut transcript, &mut store, 2_000);
    let id = state.current_id;
    assert_eq!(state.saved.len(), 1);

    store.delete(id);
    state.saved = store.list();

    assert!(state.saved.is_empty());
}

#[test]
fn deleting_an_unknown_session_is_harmless() {
    let mut store = MemStore::default();
    let mut state = fresh_state(&store);
    store.delete(SessionId::new());
    state.saved = store.list();
    assert!(state.saved.is_empty());
}

#[test]
fn the_open_conversation_is_starred_in_the_list() {
    let store = MemStore::default();
    let state = fresh_state(&store);
    let mut other = state.current_meta.clone();
    other.id = SessionId::new();
    assert_eq!(deepseek_custom::session_state::session_row_label(&state.current_meta, state.current_id), "* New conversation");
    assert_eq!(deepseek_custom::session_state::session_row_label(&other, state.current_id), "New conversation");
    assert_eq!(deepseek_custom::session_state::message_count_label(12), "12 messages");
}

#[test]
fn title_is_derived_on_first_turn_and_not_rederived_once_set() {
    let mut store = MemStore::default();
    let mut state = fresh_state(&store);
    let mut transcript = transcript_with_user_text("the original title");
    state.record_snapshot(vec![Message::user("the original title")], None);
    autosave(&mut state, &mut transcript, &mut store, 2_000);
    assert_eq!(state.current_meta.title, "the original title");

    state.record_snapshot(
        vec![
            Message::user("the original title"),
            Message::user("a later message that should not overwrite the title"),
        ],
        None,
    );
    autosave(&mut state, &mut transcript, &mut store, 3_000);
    assert_eq!(state.current_meta.title, "the original title");
}

#[test]
fn new_session_from_empty_conversation_writes_nothing_to_disk() {
    let mut store = MemStore::default();
    let mut state = fresh_state(&store);
    let mut transcript = Transcript::new();
    start_new(&mut state, &mut transcript, &mut store, 2_000);
    assert!(store.list().is_empty());
}

#[test]
fn new_session_saves_outgoing_then_leaves_an_empty_transcript_and_a_different_id() {
    let mut store = MemStore::default();
    let mut state = fresh_state(&store);
    let mut transcript = transcript_with_user_text("add a new endpoint");
    state.record_snapshot(vec![Message::user("add a new endpoint")], None);
    autosave(&mut state, &mut transcript, &mut store, 2_000);
    let old_id = state.current_id;

    start_new(&mut state, &mut transcript, &mut store, 3_000);

    assert!(store.load(old_id, 0).is_some());
    assert!(transcript.blocks().is_empty());
    assert_ne!(state.current_id, old_id);
    assert!(state.messages.is_empty());
}

#[test]
fn load_session_saves_outgoing_then_installs_the_loaded_transcript_and_id() {
    let mut store = MemStore::default();
    let mut state = fresh_state(&store);
    let mut transcript = transcript_with_user_text("first conversation");
    autosave(&mut state, &mut transcript, &mut store, 2_000);
    let first_id = state.current_id;

    start_new(&mut state, &mut transcript, &mut store, 3_000);
    transcript.push(BlockKind::User { text: "second conversation".into() });
    autosave(&mut state, &mut transcript, &mut store, 4_000);
    let second_id = state.current_id;

    if SessionState::needs_outgoing_save(&transcript) {
        autosave(&mut state, &mut transcript, &mut store, 5_000);
    }
    let record = store.load(first_id, 1).expect("the first conversation was saved");
    state.install_loaded(record, &mut transcript);

    assert_eq!(state.current_id, first_id);
    assert_eq!(transcript.blocks().len(), 1);
    let saved_second = store.load(second_id, 0).expect("the outgoing second conversation was saved");
    assert_eq!(saved_second.meta.title, "second conversation");
}

#[test]
fn deleting_a_session_removes_it_from_the_list() {
    let mut store = MemStore::default();
    let mut state = fresh_state(&store);
    let mut transcript = transcript_with_user_text("a session to delete");
    autosave(&mut state, &mut transcript, &mut store, 2_000);
    let id = state.current_id;
    assert!(state.saved.iter().any(|meta| meta.id == id));

    store.delete(id);
    state.saved = store.list();

    assert!(!state.saved.iter().any(|meta| meta.id == id));
}
