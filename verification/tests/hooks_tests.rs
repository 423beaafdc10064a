use deepseek_custom::hooks::{HookAnswer, HookDef, HookResult, HookRunner, HookStep, HookToolOutput};
use deepseek_custom::tools::ToolOutput;

#[test]
fn a_hook_without_a_timeout_gets_thirty_seconds() {
    let hook = HookDef { command: "check.cmd".into(), timeout: None };
    assert_eq!(HookRunner::timeout_ms(&hook), 30_000);
    let hook = HookDef { command: "check.cmd".into(), timeout: Some(500) };
    assert_eq!(HookRunner::timeout_ms(&hook), 500);
}

#[test]
fn hook_exit_nonzero_does_not_block() {
    assert_eq!(HookRunner::answer(false, "{\"approved\": false}"), HookAnswer::Approve);
}

#[test]
fn blank_hook_output_approves() {
    assert_eq!(HookRunner::answer(true, "  \r\n"), HookAnswer::Approve);
}

#[test]
fn hook_output_is_trimmed_before_it_is_parsed() {
    assert_eq!(
        HookRunner::answer(true, "  {\"approved\": true}\r\n"),
        HookAnswer::Parse("{\"approved\": true}".to_string())
    );
}

#[test]
fn output_that_is_no_verdict_approves_with_a_message() {
    let r = HookRunner::invalid_json_result("oops");
    assert!(r.approved);
    assert!(r.modified_input.is_none());
    assert_eq!(r.message.as_deref(), Some("invalid JSON from hook: oops"));
}

#[test]
fn only_a_withheld_approval_blocks() {
    let approve = HookResult { approved: true, modified_input: None, message: None };
    let block = HookResult { approved: false, modified_input: None, message: Some("blocked".into()) };
    assert!(HookRunner::proceeds(&Ok(approve)));
    assert!(!HookRunner::proceeds(&Ok(block)));
    assert!(HookRunner::proceeds(&Err("hook timed out".to_string())));
    assert!(HookRunner::approved_result().approved);
}

#[test]
fn a_hook_sees_the_tools_output_as_is() {
    let out = ToolOutput { content: "done".into(), is_error: true };
    let seen = HookToolOutput::from(&out);
    assert_eq!(seen, HookToolOutput { content: "done".into(), is_error: true });
}

fn verdict(approved: bool) -> Result<HookResult, String> {
    Ok(HookResult { approved, modified_input: None, message: None })
}

#[test]
fn no_hooks_lets_the_action_go_on_at_once() {
    assert_eq!(HookRunner::first_step(0), HookStep::Done(true));
    assert_eq!(HookRunner::first_step(3), HookStep::Run(0));
}

#[test]
fn hooks_run_in_order_until_one_blocks() {
    assert_eq!(HookRunner::next_step(0, 3, &verdict(true)), HookStep::Run(1));
    assert_eq!(HookRunner::next_step(1, 3, &Err("hook timed out".to_string())), HookStep::Run(2));
    assert_eq!(HookRunner::next_step(2, 3, &verdict(true)), HookStep::Done(true));
    assert_eq!(HookRunner::next_step(0, 3, &verdict(false)), HookStep::Done(false));
}
