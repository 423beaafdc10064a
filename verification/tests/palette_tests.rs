use deepseek_custom::api::ImageAttachment;
use deepseek_custom::palette::{
    block_color, gap_before, image_label_color, severity_color, subagent_state_color, tool_color,
    tool_error_color, tool_output_color, voice_state_color, white, Gap, Rgb,
};
use deepseek_custom::transcript::{BlockKind, Severity, SubagentState};
use deepseek_custom::voice_controls::VoiceState;

fn rgb(r: u8, g: u8, b: u8) -> Rgb {
    Rgb { r, g, b }
}

#[test]
fn severity_color_is_distinct_per_severity() {
    let colors = [
        severity_color(Severity::Error),
        severity_color(Severity::Warning),
        severity_color(Severity::Info),
        severity_color(Severity::Debug),
    ];
    for (index, color) in colors.iter().enumerate() {
        for other in &colors[index + 1..] {
            assert_ne!(color, other, "each severity needs its own colour");
        }
    }
}

#[test]
fn an_errored_tool_call_is_red_in_both_states() {
    assert_eq!(tool_color(true), tool_error_color());
    assert_eq!(tool_output_color(true), tool_error_color());
    assert_ne!(tool_color(false), tool_error_color());
    assert_ne!(tool_output_color(false), tool_error_color());
}

#[test]
fn a_user_block_after_the_first_opens_a_turn_with_a_wider_gap() {
    let user = BlockKind::User { text: "hello".into() };
    assert_eq!(gap_before(1, &user), Gap::Turn);
    assert_eq!(gap_before(3, &user), Gap::Turn);
}

#[test]
fn the_first_block_and_non_user_blocks_get_the_plain_gap() {
    let user = BlockKind::User { text: "hello".into() };
    assert_eq!(gap_before(0, &user), Gap::Block);
    assert_eq!(gap_before(2, &BlockKind::Assistant { spans: Vec::new() }), Gap::Block);
}

#[test]
fn block_color_follows_kind_and_severity() {
    assert_eq!(block_color(&BlockKind::Assistant { spans: Vec::new() }), white());
    assert_eq!(
        block_color(&BlockKind::ToolCall { tool: "Bash".into(), args: "ls".into(), output: None, is_error: true }),
        tool_error_color()
    );
    assert_eq!(
        block_color(&BlockKind::Notice { text: "boom".into(), severity: Severity::Error }),
        severity_color(Severity::Error)
    );
    assert_eq!(
        block_color(&BlockKind::Image {
            image: ImageAttachment { data: "AA==".into(), media_type: "image/png".into() },
        }),
        image_label_color()
    );
}

#[test]
fn subagent_state_color_is_distinct_per_state() {
    let colors = [
        subagent_state_color(SubagentState::Running),
        subagent_state_color(SubagentState::Done),
        subagent_state_color(SubagentState::Failed),
        subagent_state_color(SubagentState::Interrupted),
    ];
    for (index, color) in colors.iter().enumerate() {
        for other in &colors[index + 1..] {
            assert_ne!(color, other, "each state needs its own colour");
        }
    }
}

#[test]
fn mod_voice_state_color_for_each_state() {
    assert_eq!(voice_state_color(VoiceState::Idle), rgb(128, 128, 128), "idle must be grey");
    assert_eq!(voice_state_color(VoiceState::Listening), rgb(0, 200, 0), "listening must be green");
    assert_eq!(voice_state_color(VoiceState::Transcribing), rgb(255, 255, 0), "transcribing must be yellow");
    assert_eq!(voice_state_color(VoiceState::Speaking), rgb(100, 149, 237), "speaking must be blue");
}

#[test]
fn voice_ui_voice_state_color_for_each_state() {
    let colors = [
        voice_state_color(VoiceState::Idle),
        voice_state_color(VoiceState::Listening),
        voice_state_color(VoiceState::Transcribing),
        voice_state_color(VoiceState::Speaking),
    ];
    for (i, a) in colors.iter().enumerate() {
        for b in colors.iter().skip(i + 1) {
            assert_ne!(a, b, "each voice state must be told apart by color");
        }
    }
}
