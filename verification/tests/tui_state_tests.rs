use deepseek_custom::agent::StreamEvent;
use deepseek_custom::tui_state::{complete_command, visible_window, LineColor, TuiKey, TuiState};

fn texts(t: &TuiState) -> Vec<(String, LineColor)> {
    t.output_lines.clone()
}

#[test]
fn text_deltas_join_the_last_line() {
    let mut t = TuiState::new();
    t.handle_stream_event(StreamEvent::Text { turn: 1, text: "Hel".into() });
    t.handle_stream_event(StreamEvent::Text { turn: 1, text: "lo".into() });
    assert_eq!(texts(&t), vec![("Hello".to_string(), LineColor::White)]);
}

#[test]
fn tool_calls_and_results_get_their_own_coloured_lines() {
    let mut t = TuiState::new();
    t.handle_stream_event(StreamEvent::ToolCallStart { turn: 1, tool: "bash".into(), args: "ls".into() });
    t.handle_stream_event(StreamEvent::ToolCallEnd {
        turn: 1,
        tool: "bash".into(),
        output: "a\nb\nc\nd".into(),
        is_error: false,
    });
    t.handle_stream_event(StreamEvent::ToolCallEnd { turn: 1, tool: "bash".into(), output: "boom".into(), is_error: true });
    assert_eq!(
        texts(&t),
        vec![
            ("\u{2699} bash ls".to_string(), LineColor::Yellow),
            ("  \u{2192} bash: a\nb\nc".to_string(), LineColor::Green),
            ("  \u{2192} bash: boom".to_string(), LineColor::Red),
        ]
    );
}

#[test]
fn a_reset_clears_the_pane_and_says_so() {
    let mut t = TuiState::new();
    t.handle_stream_event(StreamEvent::Error { message: "oops".into() });
    t.handle_stream_event(StreamEvent::TurnEnd {
        turn: 1,
        finish_reason: "stop".into(),
        total_tokens: 1,
        prompt_cache_hit_tokens: 0,
        prompt_cache_miss_tokens: 0,
    });
    assert_eq!(texts(&t)[0], ("ERROR: oops".to_string(), LineColor::Red));
    assert_eq!(texts(&t)[1], ("--- turn end (stop) ---".to_string(), LineColor::DarkGray));
    t.handle_stream_event(StreamEvent::SessionReset);
    assert_eq!(texts(&t), vec![("Session reset".to_string(), LineColor::Cyan)]);
    assert_eq!(t.session_status, "Reset");
}

#[test]
fn enter_sends_what_was_typed_and_echoes_it() {
    let mut t = TuiState::new();
    for c in "hi there".chars() {
        assert_eq!(t.handle_key(TuiKey::Char { c, ctrl: false }), (true, None));
    }
    assert_eq!(t.handle_key(TuiKey::Enter), (true, Some("hi there".to_string())));
    assert!(t.input_buffer.is_empty());
    assert_eq!(texts(&t), vec![("> hi there".to_string(), LineColor::Blue)]);
}

#[test]
fn enter_on_a_blank_line_sends_nothing() {
    let mut t = TuiState::new();
    t.handle_key(TuiKey::Char { c: ' ', ctrl: false });
    assert_eq!(t.handle_key(TuiKey::Enter), (true, None));
    assert!(t.input_buffer.is_empty());
    assert!(t.output_lines.is_empty());
}

#[test]
fn ctrl_c_quits_and_backspace_deletes() {
    let mut t = TuiState::new();
    t.handle_key(TuiKey::Char { c: 'a', ctrl: false });
    t.handle_key(TuiKey::Char { c: 'b', ctrl: false });
    t.handle_key(TuiKey::Backspace);
    assert_eq!(t.input_buffer, "a");
    assert_eq!(t.handle_key(TuiKey::Char { c: 'c', ctrl: true }), (false, None));
}

#[test]
fn scrolling_never_goes_below_the_bottom() {
    let mut t = TuiState::new();
    t.handle_key(TuiKey::PageUp);
    t.handle_key(TuiKey::Up);
    assert_eq!(t.scroll_offset, 11);
    t.handle_key(TuiKey::PageDown);
    t.handle_key(TuiKey::PageDown);
    assert_eq!(t.scroll_offset, 0);
    t.handle_key(TuiKey::Down);
    assert_eq!(t.scroll_offset, 0);
}

#[test]
fn tab_completes_a_command() {
    assert_eq!(complete_command("/c"), "/clear");
    assert_eq!(complete_command("/"), "/help");
    assert_eq!(complete_command("/help"), "/help");
    assert_eq!(complete_command("hello"), "hello");
}

#[test]
fn the_visible_window_follows_the_newest_lines() {
    assert_eq!(visible_window(5, 10, 0), (0, 5));
    assert_eq!(visible_window(30, 10, 0), (20, 30));
    assert_eq!(visible_window(30, 10, 5), (15, 25));
    assert_eq!(visible_window(30, 10, 500), (0, 10));
}

#[test]
fn the_input_box_hints_while_empty() {
    let mut t = TuiState::new();
    assert_eq!(t.input_display(), "Type your message... (Ctrl+C to quit)");
    t.handle_key(TuiKey::Char { c: 'x', ctrl: false });
    assert_eq!(t.input_display(), "x");
    assert_eq!(t.status_text(), " Model: deepseek-v4-flash | Tokens: 0 | Ready | Ctrl+C quit, \u{2191}\u{2193} scroll");
}
