use deepseek_custom::api::{Content, Message, Role};
use deepseek_custom::session::{
    derive_title, record_file_name, relative_time_ago, sessions_dir, sort_newest_first, temp_file_name,
    SessionId, SessionMeta, MAX_TITLE_LEN,
};
use deepseek_custom::transcript::{BlockKind, Transcript};

fn message(role: Role, content: &str) -> Message {
    Message {
        role,
        content: Some(Content::text(content)),
        tool_calls: None,
        tool_call_id: None,
        reasoning_content: None,
    }
}

fn user_message(content: &str) -> Message {
    message(Role::User, content)
}

#[test]
fn title_from_plain_first_user_message() {
    let messages = vec![user_message("fix the bug in the parser")];
    assert_eq!(derive_title(&messages, &Transcript::new()), "fix the bug in the parser");
}

#[test]
fn title_with_no_user_message_is_new_conversation() {
    let messages = vec![message(Role::System, "you are a helpful assistant")];
    assert_eq!(derive_title(&messages, &Transcript::new()), "New conversation");
}

#[test]
fn title_from_empty_message_list_is_new_conversation() {
    let messages: Vec<Message> = Vec::new();
    assert_eq!(derive_title(&messages, &Transcript::new()), "New conversation");
}

#[test]
fn title_from_long_first_user_message_is_capped() {
    let long_text = "word ".repeat(40);
    let messages = vec![user_message(&long_text)];
    let title = derive_title(&messages, &Transcript::new());
    assert!(title.chars().count() <= MAX_TITLE_LEN);
    assert!(title.ends_with('\u{2026}'));
}

#[test]
fn title_from_multiline_first_user_message_is_one_line() {
    let messages = vec![user_message("first line\nsecond line\nthird line")];
    let title = derive_title(&messages, &Transcript::new());
    assert!(!title.contains('\n'));
    assert_eq!(title, "first line second line third line");
}

#[test]
fn title_ignores_leading_assistant_and_system_messages() {
    let messages = vec![
        message(Role::System, "system prompt"),
        message(Role::Assistant, "greeting"),
        user_message("the real question"),
    ];
    assert_eq!(derive_title(&messages, &Transcript::new()), "the real question");
}

#[test]
fn title_falls_back_to_transcript_when_messages_are_empty() {
    let messages: Vec<Message> = Vec::new();
    let mut transcript = Transcript::new();
    transcript.push(BlockKind::User {
        text: "fix the bug in the claude_cli path".into(),
    });
    assert_eq!(
        derive_title(&messages, &transcript),
        "fix the bug in the claude_cli path"
    );
}

#[test]
fn title_stays_new_conversation_when_both_sources_are_empty() {
    let messages: Vec<Message> = Vec::new();
    let transcript = Transcript::new();
    assert_eq!(derive_title(&messages, &transcript), "New conversation");
}

#[test]
fn title_prefers_message_history_over_transcript() {
    let messages = vec![user_message("from messages")];
    let mut transcript = Transcript::new();
    transcript.push(BlockKind::User {
        text: "from transcript".into(),
    });
    assert_eq!(derive_title(&messages, &transcript), "from messages");
}

#[test]
fn a_blank_first_user_message_gives_new_conversation() {
    let messages = vec![user_message("   \n\t "), user_message("later")];
    assert_eq!(derive_title(&messages, &Transcript::new()), "New conversation");
}

#[test]
fn a_title_of_exactly_the_limit_is_kept_whole() {
    let text = "a".repeat(MAX_TITLE_LEN);
    let messages = vec![user_message(&text)];
    assert_eq!(derive_title(&messages, &Transcript::new()), text);
    let longer = "a".repeat(MAX_TITLE_LEN + 1);
    let messages = vec![user_message(&longer)];
    let title = derive_title(&messages, &Transcript::new());
    assert_eq!(title, format!("{}\u{2026}", "a".repeat(MAX_TITLE_LEN - 1)));
}

#[test]
fn relative_time_under_a_minute_is_just_now() {
    assert_eq!(relative_time_ago(1000, 970), "just now");
    assert_eq!(relative_time_ago(1000, 1000), "just now");
}

#[test]
fn relative_time_in_minutes() {
    assert_eq!(relative_time_ago(1000 + 5 * 60, 1000), "5m ago");
    assert_eq!(relative_time_ago(1000 + 59 * 60, 1000), "59m ago");
}

#[test]
fn relative_time_in_hours() {
    assert_eq!(relative_time_ago(1000 + 2 * 3600, 1000), "2h ago");
    assert_eq!(relative_time_ago(1000 + 23 * 3600, 1000), "23h ago");
}

#[test]
fn relative_time_in_days() {
    assert_eq!(relative_time_ago(1000 + 3 * 86400, 1000), "3d ago");
}

#[test]
fn relative_time_future_timestamp_does_not_panic_or_go_negative() {
    let result = relative_time_ago(1000, 5000);
    assert_eq!(result, "just now");
}

#[test]
fn two_fresh_session_ids_differ() {
    let a = SessionId::new();
    let b = SessionId::new();
    assert_ne!(a, b);
}

#[test]
fn session_id_string_form_is_safe_as_a_file_stem() {
    let id = SessionId::new();
    let s = id.as_str();
    assert!(!s.contains('/'));
    assert!(!s.contains('\\'));
    assert!(!s.contains(':'));
    assert!(!s.is_empty());
}

#[test]
fn session_id_string_form_is_the_hyphenated_uuid() {
    let id = SessionId(0x67e5_5044_10b1_426f_9247_bb68_0e5f_e0c8);
    assert_eq!(id.as_str(), "67e55044-10b1-426f-9247-bb680e5fe0c8");
    assert_eq!(SessionId(0).as_str(), "00000000-0000-0000-0000-000000000000");
}

fn meta(title: &str, updated_at: u64) -> SessionMeta {
    SessionMeta {
        id: SessionId(updated_at as u128),
        title: title.into(),
        created_at: 0,
        updated_at,
        backend: "deepseek".into(),
        model: "m".into(),
        message_count: 1,
    }
}

#[test]
fn sessions_list_newest_first() {
    let sorted = sort_newest_first(vec![meta("a", 10), meta("b", 30), meta("c", 20), meta("d", 30)]);
    let titles: Vec<&str> = sorted.iter().map(|m| m.title.as_str()).collect();
    assert_eq!(titles, vec!["b", "d", "c", "a"]);
}

#[test]
fn a_session_is_kept_in_a_json_file_named_by_its_id() {
    let id = SessionId(0x0123_4567_89ab_cdef_0011_2233_4455_6677);
    assert_eq!(record_file_name(id), "01234567-89ab-cdef-0011-223344556677.json");
    assert_eq!(temp_file_name(id), "01234567-89ab-cdef-0011-223344556677.json.tmp");
    assert_eq!(sessions_dir("/proj"), "/proj/.deepseek/sessions");
}

#[test]
fn rows_with_equal_times_keep_their_order() {
    let sorted = sort_newest_first(vec![meta("a", 5), meta("b", 7), meta("c", 5), meta("d", 7)]);
    let titles: Vec<&str> = sorted.iter().map(|m| m.title.as_str()).collect();
    assert_eq!(titles, vec!["b", "d", "a", "c"]);
}

#[test]
fn a_new_session_id_is_a_version_4_uuid() {
    for _ in 0..20 {
        let id = SessionId::new();
        assert_eq!((id.0 >> 76) & 0xf, 4);
        assert_eq!((id.0 >> 62) & 0x3, 2);
        let text = id.as_str();
        assert_eq!(text.chars().nth(14), Some('4'));
    }
}
