use deepseek_custom::agent::{RouteHop, RoutedEvent, StreamEvent, SubagentId, SubagentMeta};
use deepseek_custom::api::ImageAttachment;
use deepseek_custom::autopilot::AutopilotProgress;
use deepseek_custom::chat_session::{ChatAction, ChatSession};
use deepseek_custom::transcript::{BlockKind, Severity, Span};
use deepseek_custom::voice_controls::{VoiceEvent, VoiceState};

const PNG_1X1: &str = "iVBORw0KGgoAAAANSUhEUgAAAAEAAAABCAQAAAC1HAwCAAAAC0lEQVR42mNk+A8AAQUBAScY42YAAAAASUVORK5CYII=";

fn make_session() -> ChatSession {
    ChatSession::new(false)
}

fn pending_image() -> ImageAttachment {
    ImageAttachment {
        data: PNG_1X1.into(),
        media_type: "image/png".into(),
    }
}

fn stream(session: &mut ChatSession, event: StreamEvent) -> Vec<ChatAction> {
    session.handle_routed_event(RoutedEvent::own(event))
}

fn finished_turn(turn: u32, total: u64, hit: u64, miss: u64) -> StreamEvent {
    StreamEvent::TurnEnd {
        turn,
        finish_reason: "stop".into(),
        total_tokens: total,
        prompt_cache_hit_tokens: hit,
        prompt_cache_miss_tokens: miss,
    }
}

fn spoken(actions: &[ChatAction]) -> Vec<String> {
    actions
        .iter()
        .filter_map(|a| match a {
            ChatAction::Speak(text) => Some(text.clone()),
            _ => None,
        })
        .collect()
}

fn only_assistant_spans(session: &ChatSession) -> Vec<Span> {
    let blocks = session.transcript.blocks();
    assert_eq!(blocks.len(), 1, "expected exactly one block");
    let BlockKind::Assistant { spans } = &blocks[0].kind else {
        panic!("expected an Assistant block, got {:?}", blocks[0].kind);
    };
    spans.clone()
}

fn test_route_hop(id: SubagentId) -> RouteHop {
    RouteHop {
        id,
        meta: SubagentMeta {
            backend: "ollama".into(),
            model: "test-model".into(),
            depth: 1,
        },
        session_turns: 1,
        session_turn_cap: 20,
        send_message_calls: 0,
        send_message_call_cap: 10,
    }
}

#[test]
fn reasoning_event_adds_payload_line() {
    let mut s = make_session();
    stream(&mut s, StreamEvent::Reasoning { turn: 1, text: "Let me think about this...".into() });
    assert_eq!(
        only_assistant_spans(&s),
        vec![Span::Reasoning("Let me think about this...".into())]
    );
}

#[test]
fn reasoning_event_appends_to_last_reasoning_line() {
    let mut s = make_session();
    stream(&mut s, StreamEvent::Reasoning { turn: 1, text: "First".into() });
    stream(&mut s, StreamEvent::Reasoning { turn: 1, text: "Second".into() });
    assert_eq!(only_assistant_spans(&s), vec![Span::Reasoning("FirstSecond".into())]);
}

#[test]
fn submit_current_input_attaches_the_pending_image_and_clears_the_strip() {
    let mut s = make_session();
    s.attachment.set(pending_image(), &mut s.transcript);
    s.input_buffer = "look at this".into();

    s.submit_current_input();

    assert!(s.attachment.is_empty(), "the strip must clear on send");
    let blocks = s.transcript.blocks();
    assert_eq!(blocks.len(), 2, "a User block and an Image block");
    assert!(matches!(blocks[0].kind, BlockKind::User { .. }));
    assert!(matches!(blocks[1].kind, BlockKind::Image { .. }));
}

#[test]
fn submit_current_input_sends_text_and_image_on_the_same_command() {
    let mut s = make_session();
    s.attachment.set(pending_image(), &mut s.transcript);
    s.input_buffer = "look at this".into();

    match s.submit_current_input() {
        Some(ChatAction::UserTurn { text, image }) => {
            assert_eq!(text, "look at this");
            assert_eq!(image, Some(pending_image()));
        }
        other => panic!("expected UserTurn, got {other:?}"),
    }
}

#[test]
fn two_turns_in_a_row_each_carry_their_own_attachment() {
    let mut s = make_session();

    s.attachment.set(pending_image(), &mut s.transcript);
    s.input_buffer = "first turn".into();
    let first = s.submit_current_input();

    s.input_buffer = "second turn".into();
    let second = s.submit_current_input();

    match first {
        Some(ChatAction::UserTurn { text, image }) => {
            assert_eq!(text, "first turn");
            assert_eq!(image, Some(pending_image()));
        }
        other => panic!("expected UserTurn, got {other:?}"),
    }
    match second {
        Some(ChatAction::UserTurn { text, image }) => {
            assert_eq!(text, "second turn");
            assert_eq!(image, None, "the second turn must not inherit the first's image");
        }
        other => panic!("expected UserTurn, got {other:?}"),
    }
}

#[test]
fn submit_current_input_sends_an_image_with_no_text() {
    let mut s = make_session();
    s.attachment.set(pending_image(), &mut s.transcript);
    assert!(s.input_buffer.is_empty());

    s.submit_current_input();

    assert_eq!(s.status.session_status, "Running...", "an image-only turn must still send");
    assert!(s.attachment.is_empty());
}

#[test]
fn text_event_creates_white_payload_lines() {
    let mut s = make_session();
    stream(&mut s, StreamEvent::Text { turn: 1, text: "Hello world".into() });
    assert_eq!(only_assistant_spans(&s), vec![Span::Text("Hello world".into())]);
}

#[test]
fn user_input_is_a_user_block_not_an_assistant_one() {
    let mut s = make_session();
    s.input_buffer = "pick a number between 1 and 100".into();
    s.submit_current_input();
    let blocks = s.transcript.blocks();
    assert_eq!(blocks.len(), 1, "exactly one block must be appended");
    assert_eq!(
        blocks[0].kind,
        BlockKind::User { text: "pick a number between 1 and 100".into() }
    );

    s.input_buffer = "actually pick a letter instead".into();
    s.submit_current_input();
    let blocks = s.transcript.blocks();
    assert_eq!(blocks.len(), 2, "a second submission must append a new block, not merge");
    assert_eq!(
        blocks[0].kind,
        BlockKind::User { text: "pick a number between 1 and 100".into() }
    );
    assert_eq!(
        blocks[1].kind,
        BlockKind::User { text: "actually pick a letter instead".into() }
    );
    assert_ne!(blocks[0].id, blocks[1].id);
}

#[test]
fn model_output_is_an_assistant_text_span_for_markdown_rendering() {
    let mut s = make_session();
    stream(&mut s, StreamEvent::Text { turn: 1, text: "**bold** ".into() });
    stream(&mut s, StreamEvent::Text { turn: 1, text: "and *italic*".into() });
    assert_eq!(
        only_assistant_spans(&s),
        vec![Span::Text("**bold** and *italic*".into())]
    );
}

#[test]
fn full_thinking_interaction_produces_correct_block_kinds() {
    let mut s = make_session();

    s.input_buffer = "pick a number between 1 and 100 but don't tell me".into();
    s.submit_current_input();

    stream(&mut s, StreamEvent::Reasoning {
        turn: 1,
        text: "The user wants me to pick a secret number.".into(),
    });
    stream(&mut s, StreamEvent::Reasoning { turn: 1, text: " I'll pick 42.".into() });
    stream(&mut s, StreamEvent::ToolCallStart {
        turn: 1,
        tool: "Bash".into(),
        args: "echo 42".into(),
    });
    stream(&mut s, StreamEvent::ToolCallEnd {
        turn: 1,
        tool: "Bash".into(),
        output: "42".into(),
        is_error: false,
    });
    stream(&mut s, StreamEvent::Text {
        turn: 1,
        text: "I've picked a number between 1 and 100.".into(),
    });
    stream(&mut s, finished_turn(1, 150, 0, 0));

    let blocks = s.transcript.blocks();
    assert_eq!(blocks.len(), 4);
    assert_eq!(
        blocks[0].kind,
        BlockKind::User { text: "pick a number between 1 and 100 but don't tell me".into() }
    );
    assert_eq!(
        blocks[1].kind,
        BlockKind::Assistant {
            spans: vec![Span::Reasoning(
                "The user wants me to pick a secret number. I'll pick 42.".into()
            )],
        }
    );
    assert_eq!(
        blocks[2].kind,
        BlockKind::ToolCall {
            tool: "Bash".into(),
            args: "echo 42".into(),
            output: Some("42".into()),
            is_error: false,
        }
    );
    assert_eq!(
        blocks[3].kind,
        BlockKind::Assistant {
            spans: vec![Span::Text("I've picked a number between 1 and 100.".into())],
        }
    );
}

#[test]
fn text_after_a_tool_call_starts_a_new_assistant_block() {
    let mut s = make_session();
    stream(&mut s, StreamEvent::Text { turn: 1, text: "before".into() });
    stream(&mut s, StreamEvent::ToolCallStart { turn: 1, tool: "Bash".into(), args: "ls".into() });
    stream(&mut s, StreamEvent::ToolCallEnd {
        turn: 1,
        tool: "Bash".into(),
        output: "file1".into(),
        is_error: false,
    });
    stream(&mut s, StreamEvent::Text { turn: 1, text: "after".into() });

    let blocks = s.transcript.blocks();
    assert_eq!(blocks.len(), 3);
    assert_eq!(blocks[0].kind, BlockKind::Assistant { spans: vec![Span::Text("before".into())] });
    assert!(matches!(blocks[1].kind, BlockKind::ToolCall { .. }));
    assert_eq!(blocks[2].kind, BlockKind::Assistant { spans: vec![Span::Text("after".into())] });
    assert_ne!(blocks[0].id, blocks[2].id);
}

#[test]
fn turn_end_accumulates_cache_tokens() {
    let mut s = make_session();
    assert_eq!(s.status.total_cache_hit_tokens, 0);
    assert_eq!(s.status.total_cache_miss_tokens, 0);

    stream(&mut s, finished_turn(1, 150, 100, 20));
    assert_eq!(s.status.total_cache_hit_tokens, 100);
    assert_eq!(s.status.total_cache_miss_tokens, 20);

    stream(&mut s, finished_turn(2, 200, 80, 30));
    assert_eq!(s.status.total_cache_hit_tokens, 180);
    assert_eq!(s.status.total_cache_miss_tokens, 50);

    stream(&mut s, finished_turn(3, 100, 0, 0));
    assert_eq!(s.status.total_cache_hit_tokens, 180);
    assert_eq!(s.status.total_cache_miss_tokens, 50);
}

#[test]
fn new_gui_has_no_voice_channels_and_starts_idle() {
    let s = make_session();
    assert_eq!(s.status.voice_state, VoiceState::Idle);
    assert_eq!(s.status.session_status, "Ready");
}

#[test]
fn voice_state_changed_event_updates_tracked_state() {
    let mut s = make_session();
    s.handle_voice_event(VoiceEvent::StateChanged(VoiceState::Listening));
    assert_eq!(s.status.voice_state, VoiceState::Listening);
}

#[test]
fn voice_error_event_adds_output_line_in_error_style() {
    let mut s = make_session();
    s.handle_voice_event(VoiceEvent::Error("mic unavailable".into()));
    let blocks = s.transcript.blocks();
    assert_eq!(blocks.len(), 1);
    assert_eq!(
        blocks[0].kind,
        BlockKind::Notice { text: "ERROR: mic unavailable".into(), severity: Severity::Error }
    );
}

#[test]
fn wake_detected_event_adds_no_output_line() {
    let mut s = make_session();
    s.handle_voice_event(VoiceEvent::WakeDetected);
    assert!(s.transcript.blocks().is_empty());
    assert_eq!(s.status.voice_state, VoiceState::Idle);
}

#[test]
fn transcript_event_submits_through_the_enter_path() {
    let mut s = make_session();
    s.handle_voice_event(VoiceEvent::Transcript("turn on the lights".into()));
    let blocks = s.transcript.blocks();
    assert_eq!(blocks.len(), 1);
    assert_eq!(blocks[0].kind, BlockKind::User { text: "turn on the lights".into() });
    assert!(s.input_buffer.is_empty(), "buffer clears on submit, same as Enter");
    assert_eq!(s.status.session_status, "Running...");
}

#[test]
fn transcript_event_forwards_text_to_the_agent_channel() {
    let mut s = make_session();
    match s.handle_voice_event(VoiceEvent::Transcript("hello".into())) {
        Some(ChatAction::UserTurn { text, .. }) => assert_eq!(text, "hello"),
        other => panic!("expected UserTurn, got {other:?}"),
    }
}

#[test]
fn empty_transcript_is_not_submitted() {
    let mut s = make_session();
    s.handle_voice_event(VoiceEvent::Transcript("".into()));
    assert!(s.transcript.blocks().is_empty());
    assert_eq!(s.status.session_status, "Ready");
}

#[test]
fn whitespace_only_transcript_is_not_submitted() {
    let mut s = make_session();
    s.handle_voice_event(VoiceEvent::Transcript("   ".into()));
    assert!(s.transcript.blocks().is_empty());
    assert_eq!(s.status.session_status, "Ready");
}

#[test]
fn turn_end_speaks_the_accumulated_reply_when_tts_is_enabled() {
    let mut s = make_session();
    s.status.voice_tts_enabled = true;

    stream(&mut s, StreamEvent::Text { turn: 1, text: "Run `cargo test` to check it.".into() });
    let actions = stream(&mut s, finished_turn(1, 10, 0, 0));

    assert_eq!(spoken(&actions), vec!["Run to check it.".to_string()]);
    assert!(s.status.voice_reply_buffer.is_empty());
}

#[test]
fn turn_end_sends_nothing_when_tts_is_disabled() {
    let mut s = make_session();
    assert!(!s.status.voice_tts_enabled, "tts is off by default");

    stream(&mut s, StreamEvent::Text { turn: 1, text: "Hello there.".into() });
    let actions = stream(&mut s, finished_turn(1, 10, 0, 0));

    assert!(spoken(&actions).is_empty());
}

#[test]
fn turn_end_sends_exactly_one_speak_for_multiple_text_chunks() {
    let mut s = make_session();
    s.status.voice_tts_enabled = true;

    let a = stream(&mut s, StreamEvent::Text { turn: 1, text: "Hello".into() });
    let b = stream(&mut s, StreamEvent::Text { turn: 1, text: " there.".into() });
    let c = stream(&mut s, finished_turn(1, 10, 0, 0));

    assert!(spoken(&a).is_empty() && spoken(&b).is_empty());
    assert_eq!(spoken(&c), vec!["Hello there.".to_string()], "exactly one Speak per turn");
}

#[test]
fn reasoning_and_tool_output_are_never_spoken() {
    let mut s = make_session();
    s.status.voice_tts_enabled = true;

    let mut all = Vec::new();
    all.extend(stream(&mut s, StreamEvent::Reasoning { turn: 1, text: "thinking about it".into() }));
    all.extend(stream(&mut s, StreamEvent::ToolCallStart {
        turn: 1,
        tool: "Bash".into(),
        args: "{}".into(),
    }));
    all.extend(stream(&mut s, StreamEvent::ToolCallEnd {
        turn: 1,
        tool: "Bash".into(),
        output: "some tool output".into(),
        is_error: false,
    }));
    all.extend(stream(&mut s, finished_turn(1, 10, 0, 0)));

    assert!(spoken(&all).is_empty(), "no model reply text was seen, so nothing should be spoken");
}

#[test]
fn interrupted_clears_the_pending_reply_so_it_is_never_spoken_later() {
    let mut s = make_session();
    s.status.voice_tts_enabled = true;

    stream(&mut s, StreamEvent::Text { turn: 1, text: "partial reply".into() });
    stream(&mut s, StreamEvent::Interrupted { message: "Interrupted by user (Escape)".into() });
    assert!(s.status.voice_reply_buffer.is_empty());

    stream(&mut s, StreamEvent::Text { turn: 2, text: "fresh reply".into() });
    let actions = stream(&mut s, finished_turn(2, 10, 0, 0));

    assert_eq!(spoken(&actions), vec!["fresh reply".to_string()]);
}

#[test]
fn autopilot_progress_updates_from_iteration_start_then_finished() {
    let mut s = make_session();
    assert_eq!(s.status.autopilot_progress, AutopilotProgress::Idle);

    stream(&mut s, StreamEvent::RepeatIterationStart { index: 2, total: 5 });
    assert_eq!(s.status.autopilot_progress, AutopilotProgress::Running { index: 2, total: 5 });

    stream(&mut s, StreamEvent::RepeatFinished { completed: 5, total: 5 });
    assert_eq!(
        s.status.autopilot_progress,
        AutopilotProgress::Finished { completed: 5, total: 5 }
    );
}

#[test]
fn session_reset_clears_the_pending_reply() {
    let mut s = make_session();
    stream(&mut s, StreamEvent::Text { turn: 1, text: "partial reply".into() });
    stream(&mut s, StreamEvent::SessionReset);
    assert!(s.status.voice_reply_buffer.is_empty());
}

#[test]
fn a_session_reset_asks_for_a_save_and_ends_in_one_notice() {
    let mut s = make_session();
    stream(&mut s, finished_turn(1, 10, 7, 3));
    let actions = stream(&mut s, StreamEvent::SessionReset);
    assert!(matches!(actions.as_slice(), [ChatAction::ResetSession]));
    assert_eq!(s.status.session_status, "Reset");
    assert_eq!(s.status.total_cache_hit_tokens, 0);
    assert_eq!(s.status.total_cache_miss_tokens, 0);

    s.transcript.clear();
    s.finish_session_reset();
    let blocks = s.transcript.blocks();
    assert_eq!(blocks.len(), 1);
    assert_eq!(
        blocks[0].kind,
        BlockKind::Notice { text: "Session reset".into(), severity: Severity::Info }
    );
}

#[test]
fn a_finished_turn_asks_for_an_autosave_after_speaking() {
    let mut s = make_session();
    s.status.voice_tts_enabled = true;
    stream(&mut s, StreamEvent::Text { turn: 1, text: "Done.".into() });
    let actions = stream(&mut s, finished_turn(1, 42, 0, 0));
    assert_eq!(actions.len(), 2);
    assert!(matches!(&actions[0], ChatAction::Speak(t) if t == "Done."));
    assert!(matches!(actions[1], ChatAction::Autosave));
    assert_eq!(s.status.token_count, 42);
}

#[test]
fn a_snapshot_is_handed_back_for_the_next_save() {
    let mut s = make_session();
    let actions = stream(&mut s, StreamEvent::ConversationSnapshot {
        messages: vec![deepseek_custom::api::Message::user("hi")],
        claude_session_id: Some("abc".into()),
    });
    match actions.as_slice() {
        [ChatAction::RecordSnapshot { messages, claude_session_id }] => {
            assert_eq!(messages.len(), 1);
            assert_eq!(claude_session_id.as_deref(), Some("abc"));
        }
        other => panic!("expected one RecordSnapshot, got {other:?}"),
    }
    assert!(s.transcript.blocks().is_empty());
}

#[test]
fn a_routed_event_lands_in_a_nested_subagent_block_not_the_top_level_transcript() {
    let mut s = make_session();
    let subagent_id = SubagentId::next();

    s.handle_routed_event(RoutedEvent {
        route: vec![test_route_hop(subagent_id)],
        event: StreamEvent::Text { turn: 1, text: "hi from a subagent".into() },
    });

    let blocks = s.transcript.blocks();
    assert_eq!(blocks.len(), 1);
    let BlockKind::Subagent { transcript, .. } = &blocks[0].kind else {
        panic!("expected a Subagent block, got {:?}", blocks[0].kind);
    };
    assert_eq!(
        transcript.blocks()[0].kind,
        BlockKind::Assistant { spans: vec![Span::Text("hi from a subagent".into())] }
    );
}

#[test]
fn a_subagent_turn_end_does_not_touch_main_session_counters_or_trigger_a_save() {
    let mut s = make_session();
    s.input_buffer = "the real conversation".into();
    s.submit_current_input();
    stream(&mut s, finished_turn(1, 10, 1, 2));
    let status_before = s.status.clone();
    let subagent_id = SubagentId::next();

    let actions = s.handle_routed_event(RoutedEvent {
        route: vec![test_route_hop(subagent_id)],
        event: finished_turn(1, 9999, 500, 500),
    });

    assert_eq!(s.status, status_before);
    assert!(actions.is_empty(), "no autosave for a subagent's turn");
}

#[test]
fn a_main_session_routed_event_still_applies_its_side_effects() {
    let mut s = make_session();
    assert_eq!(s.status.total_cache_hit_tokens, 0);

    s.handle_routed_event(RoutedEvent::own(finished_turn(1, 42, 10, 5)));

    assert_eq!(s.status.token_count, 42);
    assert_eq!(s.status.total_cache_hit_tokens, 10);
    assert_eq!(s.status.total_cache_miss_tokens, 5);
    assert!(s.transcript.blocks().is_empty());
}

#[test]
fn a_state_changed_event_updates_the_tracked_state() {
    let mut s = make_session();
    let submit = s.handle_voice_event(VoiceEvent::StateChanged(VoiceState::Listening));
    assert!(submit.is_none());
    assert_eq!(s.status.voice_state, VoiceState::Listening);
}

#[test]
fn an_error_event_posts_a_notice_and_submits_nothing() {
    let mut s = make_session();
    let submit = s.handle_voice_event(VoiceEvent::Error("mic unplugged".into()));
    assert!(submit.is_none());
    let posted = s
        .transcript
        .blocks()
        .iter()
        .filter(|b| {
            matches!(
                &b.kind,
                BlockKind::Notice { severity: Severity::Error, text } if text.contains("mic unplugged")
            )
        })
        .count();
    assert_eq!(posted, 1);
}

#[test]
fn a_wake_event_changes_nothing() {
    let mut s = make_session();
    let submit = s.handle_voice_event(VoiceEvent::WakeDetected);
    assert!(submit.is_none());
    assert!(s.transcript.blocks().is_empty());
}

#[test]
fn speaking_a_reply_sends_one_speak_command_and_clears_the_buffer() {
    let mut s = ChatSession::new(true);
    stream(&mut s, StreamEvent::Text { turn: 1, text: "hello ".into() });
    stream(&mut s, StreamEvent::Text { turn: 1, text: "world".into() });
    assert!(matches!(s.speak_accumulated_reply(), Some(text) if text.contains("hello world")));
    assert!(s.speak_accumulated_reply().is_none(), "the buffer must not survive into a later turn");
}

#[test]
fn a_reply_is_not_spoken_while_text_to_speech_is_off() {
    let mut s = ChatSession::new(false);
    stream(&mut s, StreamEvent::Text { turn: 1, text: "hello world".into() });
    assert!(s.speak_accumulated_reply().is_none());
}

#[test]
fn clear_reply_drops_the_accumulated_text() {
    let mut s = ChatSession::new(true);
    stream(&mut s, StreamEvent::Text { turn: 1, text: "dropped text".into() });
    s.clear_reply();
    assert!(s.speak_accumulated_reply().is_none());
}

#[test]
fn a_frame_drains_queued_events_in_arrival_order() {
    let mut s = make_session();
    s.status.voice_tts_enabled = true;
    let child = SubagentId(7);
    let events = vec![
        RoutedEvent::own(StreamEvent::Text { turn: 1, text: "Hello".into() }),
        RoutedEvent {
            route: vec![test_route_hop(child)],
            event: StreamEvent::Text { turn: 1, text: "from child".into() },
        },
        RoutedEvent::own(StreamEvent::Text { turn: 1, text: " there.".into() }),
        RoutedEvent::own(finished_turn(1, 10, 2, 3)),
    ];
    let (actions, handled) = s.drain_events(events);
    assert_eq!(handled, 4);
    assert!(s.auto_scroll);
    assert_eq!(actions.len(), 2);
    assert!(matches!(&actions[0], ChatAction::Speak(t) if t == "Hello there."));
    assert!(matches!(actions[1], ChatAction::Autosave));
    assert_eq!(s.status.total_cache_hit_tokens, 2);
    assert_eq!(s.status.total_cache_miss_tokens, 3);
    let blocks = s.transcript.blocks();
    assert_eq!(blocks.len(), 2, "the main reply and the child's block");
    assert!(matches!(blocks[1].kind, BlockKind::Subagent { .. }));
}

#[test]
fn a_drain_stops_before_a_cache_total_would_overflow() {
    let mut s = make_session();
    s.status.total_cache_hit_tokens = u64::MAX - 1;
    let events = vec![
        RoutedEvent::own(StreamEvent::Text { turn: 1, text: "a".into() }),
        RoutedEvent::own(finished_turn(1, 10, 5, 0)),
        RoutedEvent::own(StreamEvent::Text { turn: 2, text: "b".into() }),
    ];
    let (actions, handled) = s.drain_events(events);
    assert_eq!(handled, 1);
    assert!(actions.is_empty());
    assert_eq!(s.status.total_cache_hit_tokens, u64::MAX - 1);
}

#[test]
fn an_empty_drain_changes_nothing() {
    let mut s = make_session();
    let (actions, handled) = s.drain_events(Vec::new());
    assert_eq!(handled, 0);
    assert!(actions.is_empty());
    assert!(!s.auto_scroll);
    assert!(s.transcript.blocks().is_empty());
}

#[test]
fn a_frame_drains_queued_voice_events_in_arrival_order() {
    let mut s = make_session();
    let events = vec![
        VoiceEvent::StateChanged(VoiceState::Listening),
        VoiceEvent::Transcript("hello".into()),
        VoiceEvent::WakeDetected,
        VoiceEvent::Transcript("   ".into()),
        VoiceEvent::Error("mic gone".into()),
    ];
    let (actions, handled) = s.drain_voice_events(events);
    assert_eq!(handled, 5);
    assert_eq!(actions.len(), 1);
    assert!(matches!(&actions[0], ChatAction::UserTurn { text, image: None } if text == "hello"));
    assert_eq!(s.status.voice_state, VoiceState::Listening);
    let blocks = s.transcript.blocks();
    assert_eq!(blocks.len(), 2);
    assert_eq!(blocks[0].kind, BlockKind::User { text: "hello".into() });
    assert_eq!(
        blocks[1].kind,
        BlockKind::Notice { text: "ERROR: mic gone".into(), severity: Severity::Error }
    );
}

#[test]
fn a_new_subagent_id_carries_the_uuid_version() {
    for _ in 0..20 {
        assert_eq!((SubagentId::next().0 >> 12) & 0xf, 4);
    }
}
