use std::time::{Duration, Instant};

use deepseek_custom::agent::{RouteHop, RoutedEvent, StreamEvent, SubagentId, SubagentMeta};
use deepseek_custom::api::ImageAttachment;
use deepseek_custom::chat_view::{
    format_elapsed_ms, raw_block_text, raw_span_text, role_label, subagent_elapsed_ms,
    subagent_header_summary, subagent_state_label, tool_summary, truncate_args,
};
use deepseek_custom::transcript::{Block, BlockKind, Severity, Span, SubagentState, Transcript};

fn tool_block(args: &str, output: Option<&str>, is_error: bool) -> Block {
    let mut transcript = Transcript::new();
    let id = transcript.push(BlockKind::ToolCall {
        tool: "Bash".into(),
        args: args.into(),
        output: output.map(str::to_string),
        is_error,
    });
    transcript.find(id).unwrap().clone()
}

fn test_image_attachment() -> ImageAttachment {
    ImageAttachment {
        data: "iVBORw0KGgoAAAANSUhEUgAAAAEAAAABCAQAAAC1HAwCAAAAC0lEQVR42mNk+A8AAQUBAScY42YAAAAASUVORK5CYII=".into(),
        media_type: "image/png".into(),
    }
}

#[test]
fn role_label_names_each_kind() {
    assert_eq!(role_label(&BlockKind::User { text: "hi".into() }), "You");
    assert_eq!(
        role_label(&BlockKind::Assistant { spans: Vec::new() }),
        "Assistant"
    );
    assert_eq!(role_label(&tool_block("ls", None, false).kind), "Tool");
    assert_eq!(
        role_label(&BlockKind::Notice {
            text: "reset".into(),
            severity: Severity::Info,
        }),
        "Notice"
    );
    assert_eq!(
        role_label(&BlockKind::Image {
            image: test_image_attachment(),
        }),
        "Image"
    );
}

#[test]
fn truncate_args_leaves_short_arguments_alone() {
    assert_eq!(truncate_args("ls -la", 60), "ls -la");
}

#[test]
fn truncate_args_flattens_newlines_onto_one_line() {
    assert_eq!(truncate_args("echo one\necho two", 60), "echo one echo two");
}

#[test]
fn truncate_args_cuts_long_arguments_and_marks_the_cut() {
    let truncated = truncate_args(&"x".repeat(100), 10);
    assert_eq!(truncated, format!("{}...", "x".repeat(10)));
}

#[test]
fn truncate_args_counts_characters_not_bytes() {
    let truncated = truncate_args(&"\u{4f60}".repeat(10), 4);
    assert_eq!(truncated, format!("{}...", "\u{4f60}".repeat(4)));
}

#[test]
fn truncate_args_at_exactly_the_limit_is_not_cut() {
    assert_eq!(truncate_args("abcde", 5), "abcde");
    assert_eq!(truncate_args("abcdef", 5), "abcde...");
}

#[test]
fn a_collapsed_tool_summary_names_the_tool_and_shows_arguments() {
    let summary = tool_summary(true, "Bash", "ls -la", false);
    assert!(summary.contains("Bash"), "summary must name the tool");
    assert!(summary.contains("ls -la"), "summary must show arguments");
}

#[test]
fn an_errored_tool_summary_says_so_in_both_states() {
    for collapsed in [true, false] {
        let summary = tool_summary(collapsed, "Bash", "boom", true);
        assert!(
            summary.contains("[error]"),
            "an error must be visible without expanding the call"
        );
    }
    assert!(!tool_summary(true, "Bash", "ok", false).contains("[error]"));
}

#[test]
fn a_tool_summary_has_the_exact_layout() {
    assert_eq!(tool_summary(true, "Bash", "ls  -la", false), "\u{25b6} Bash  ls -la");
    assert_eq!(tool_summary(false, "Bash", "x", true), "\u{25bc} Bash [error]  x");
}

#[test]
fn raw_text_marks_reasoning_apart_from_reply_text() {
    let mut transcript = Transcript::new();
    let id = transcript.push(BlockKind::Assistant {
        spans: vec![Span::Reasoning("thought".into()), Span::Text("said".into())],
    });
    let block = transcript.find(id).unwrap();
    assert_eq!(
        raw_block_text(block),
        "Assistant:\n[reasoning] thought\nsaid"
    );
}

#[test]
fn raw_text_for_a_running_tool_call_says_it_is_running() {
    let block = tool_block("ls", None, false);
    assert!(raw_block_text(&block).contains("(running)"));
    let done = tool_block("ls", Some("file1"), false);
    assert!(raw_block_text(&done).contains("file1"));
}

#[test]
fn raw_text_for_a_tool_call_carries_its_arguments_and_output() {
    let block = tool_block("ls -la", Some("file1\nfile2"), false);
    let text = raw_block_text(&block);
    assert!(
        text.contains("ls -la"),
        "arguments must be reachable: {text}"
    );
    assert!(
        text.contains("file1\nfile2"),
        "output must be reachable: {text}"
    );
    assert_eq!(text, "\u{2699} Bash ls -la\n  \u{2192} file1\nfile2");
}

#[test]
fn raw_text_for_a_user_block_carries_the_you_role_label_and_exact_text() {
    let mut transcript = Transcript::new();
    let id = transcript.push(BlockKind::User {
        text: "hello there".into(),
    });
    let block = transcript.find(id).unwrap();
    assert_eq!(raw_block_text(block), "You: hello there");
}

#[test]
fn raw_text_for_a_notice_block_carries_its_text() {
    let mut transcript = Transcript::new();
    let id = transcript.push(BlockKind::Notice {
        text: "Session reset".into(),
        severity: Severity::Info,
    });
    let block = transcript.find(id).unwrap();
    assert_eq!(raw_block_text(block), "Session reset");
}

#[test]
fn raw_text_for_a_subagent_block_carries_its_header_and_nested_content() {
    let mut transcript = Transcript::new();
    let subagent_id = SubagentId::next();
    transcript.apply_routed_event(RoutedEvent {
        route: vec![RouteHop {
            id: subagent_id,
            meta: SubagentMeta {
                backend: "ollama".into(),
                model: "test-model".into(),
                depth: 1,
            },
            session_turns: 1,
            session_turn_cap: 20,
            send_message_calls: 0,
            send_message_call_cap: 10,
        }],
        event: StreamEvent::Text {
            turn: 1,
            text: "hi from a subagent".into(),
        },
    });
    let block = &transcript.blocks()[0];
    let text = raw_block_text(block);
    assert!(text.contains("ollama"), "must name the backend: {text}");
    assert!(text.contains("test-model"), "must name the model: {text}");
    assert!(text.contains("RUNNING"), "must show the state: {text}");
    assert!(
        text.contains("hi from a subagent"),
        "must carry the nested content: {text}"
    );
    assert!(
        text.contains("turns 1/20"),
        "must show the turn count and cap: {text}"
    );
    assert!(
        text.contains("sends 0/10"),
        "must show the call count and cap: {text}"
    );
}

#[test]
fn raw_text_for_a_finished_subagent_block_indents_its_nested_lines() {
    let mut transcript = Transcript::new();
    let id = SubagentId::next();
    let hop = RouteHop {
        id,
        meta: SubagentMeta {
            backend: "b".into(),
            model: "m".into(),
            depth: 1,
        },
        session_turns: 1,
        session_turn_cap: 2,
        send_message_calls: 0,
        send_message_call_cap: 3,
    };
    transcript.apply_routed_event(RoutedEvent {
        route: vec![hop.clone()],
        event: StreamEvent::Text {
            turn: 1,
            text: "line one\nline two".into(),
        },
    });
    transcript.apply_routed_event(RoutedEvent {
        route: vec![hop],
        event: StreamEvent::Error {
            message: "boom".into(),
        },
    });
    let text = raw_block_text(&transcript.blocks()[0]);
    let mut lines = text.lines();
    let header = lines.next().unwrap();
    assert!(header.starts_with("[FAILED] b/m (depth 1) - "), "{header}");
    assert!(header.ends_with("s - turns 1/2 - sends 0/3"), "{header}");
    let rest: Vec<&str> = lines.collect();
    assert_eq!(rest, vec!["  Assistant:", "  line one", "  line two", "  boom"]);
}

#[test]
fn raw_span_text_marks_reasoning_and_leaves_reply_text_plain() {
    assert_eq!(raw_span_text(&Span::Text("hello".into())), "hello");
    assert_eq!(
        raw_span_text(&Span::Reasoning("thinking".into())),
        "[reasoning] thinking"
    );
}

#[test]
fn raw_block_text_names_the_image_media_type() {
    let mut transcript = Transcript::new();
    let id = transcript.push(BlockKind::Image {
        image: test_image_attachment(),
    });
    let block = transcript.find(id).unwrap();
    let text = raw_block_text(block);
    assert!(
        text.contains("image/png"),
        "must name the media type: {text}"
    );
    assert_eq!(text, "[image: image/png, 92 bytes base64]");
}

#[test]
fn subagent_header_summary_names_backend_model_depth_and_elapsed() {
    let header = subagent_header_summary(
        "ollama",
        "test-model",
        2,
        SubagentState::Running,
        1500,
        1,
        20,
        0,
        10,
    );
    assert!(header.contains("ollama"), "must name the backend: {header}");
    assert!(
        header.contains("test-model"),
        "must name the model: {header}"
    );
    assert!(header.contains('2'), "must name the depth: {header}");
    assert!(header.contains("1.5s"), "must show elapsed time: {header}");
}

#[test]
fn subagent_header_summary_names_both_counts_against_their_caps() {
    let header = subagent_header_summary(
        "ollama",
        "test-model",
        1,
        SubagentState::Running,
        0,
        3,
        20,
        2,
        10,
    );
    assert!(
        header.contains("3/20"),
        "must show turns against its cap: {header}"
    );
    assert!(
        header.contains("2/10"),
        "must show sends against its cap: {header}"
    );
}

#[test]
fn subagent_header_summary_carries_a_distinct_badge_for_every_state() {
    let states = [
        SubagentState::Running,
        SubagentState::Done,
        SubagentState::Failed,
        SubagentState::Interrupted,
    ];
    let headers: Vec<String> = states
        .iter()
        .map(|state| subagent_header_summary("ollama", "m", 1, *state, 0, 1, 20, 0, 10))
        .collect();
    for (index, header) in headers.iter().enumerate() {
        for other in &headers[index + 1..] {
            assert_ne!(header, other, "each state needs its own header text");
        }
    }
    assert!(headers[0].contains("RUNNING"));
    assert!(headers[1].contains("DONE"));
    assert!(headers[2].contains("FAILED"));
    assert!(headers[3].contains("INTERRUPTED"));
}

#[test]
fn subagent_header_summary_has_the_exact_layout() {
    let header = subagent_header_summary("ollama", "m", 1, SubagentState::Done, 2000, 4, 20, 2, 10);
    assert_eq!(header, "[DONE] ollama/m (depth 1) - 2.0s - turns 4/20 - sends 2/10");
}

#[test]
fn subagent_state_label_names_each_state() {
    assert_eq!(subagent_state_label(SubagentState::Running), "RUNNING");
    assert_eq!(subagent_state_label(SubagentState::Done), "DONE");
    assert_eq!(subagent_state_label(SubagentState::Failed), "FAILED");
    assert_eq!(subagent_state_label(SubagentState::Interrupted), "INTERRUPTED");
}

#[test]
fn subagent_elapsed_ms_uses_the_stored_value_once_terminal() {
    assert_eq!(subagent_elapsed_ms(None, 4200), 4200);
}

#[test]
fn subagent_elapsed_ms_computes_a_live_value_while_running() {
    let start = Instant::now() - Duration::from_millis(50);
    let live = subagent_elapsed_ms(Some(start), 0);
    assert!(
        live >= 50,
        "a running block's elapsed time must grow from `started_at`, got {live}"
    );
}

#[test]
fn format_elapsed_ms_shows_one_decimal_of_seconds() {
    assert_eq!(format_elapsed_ms(1500), "1.5s");
    assert_eq!(format_elapsed_ms(0), "0.0s");
}

#[test]
fn format_elapsed_ms_rounds_to_the_nearest_tenth() {
    assert_eq!(format_elapsed_ms(1549), "1.5s");
    assert_eq!(format_elapsed_ms(1551), "1.6s");
    assert_eq!(format_elapsed_ms(1250), "1.2s");
    assert_eq!(format_elapsed_ms(1750), "1.8s");
    assert_eq!(format_elapsed_ms(123456), "123.5s");
    assert_eq!(format_elapsed_ms(99), "0.1s");
}

#[test]
fn elapsed_time_reads_as_the_float_division_prints() {
    let mut samples: Vec<u64> = (0..30_000).collect();
    for base in [123_456_789u64, 987_654_321_000, 4_503_599_627_370_000, 9_007_199_254_740_000] {
        for off in 0..400 {
            samples.push(base + off);
        }
    }
    for ms in samples {
        assert_eq!(format_elapsed_ms(ms), format!("{:.1}s", ms as f64 / 1000.0), "at {ms} ms");
    }
    assert_eq!(format_elapsed_ms(50), "0.1s");
    assert_eq!(format_elapsed_ms(1150), "1.1s");
    assert_eq!(format_elapsed_ms(250), "0.2s");
}
