//! Hook scripts: the decisions around running them. A hook is a command
//! that gets the event as JSON on its standard input and may answer with a
//! JSON verdict on its standard output. A hook that fails, times out,
//! exits non-zero, prints nothing or prints something that is not a
//! verdict never blocks anything; only a verdict that says
//! `"approved": false` does, and it stops the hooks after it.
use vstd::prelude::*;

use crate::text::{chars_of, push_str_chars, string_of, trim, trim_chars};
use crate::tools::ToolOutput;

verus! {

/// A JSON value, carried through unread.
#[verifier::external_type_specification]
#[verifier::external_body]
pub struct ExJsonValue(serde_json::Value);

/// One configured hook: its command line and an optional timeout in
/// milliseconds.
#[derive(Debug, Clone, PartialEq, Eq)]
pub struct HookDef {
    pub command: String,
    pub timeout: Option<u64>,
}

/// A tool's output as a `PostToolUse` hook sees it.
#[derive(Debug, Clone, PartialEq, Eq)]
pub struct HookToolOutput {
    pub content: String,
    pub is_error: bool,
}

impl HookToolOutput {
    /// The hook's view of a tool's output: the same text and error flag.
    pub fn from(o: &ToolOutput) -> (h: HookToolOutput)
        ensures
            h.content == o.content,
            h.is_error == o.is_error,
    {
        HookToolOutput { content: o.content.clone(), is_error: o.is_error }
    }
}

/// A hook's verdict, as its JSON answer gives it (or as it is taken when
/// there is none).
#[derive(Debug, Clone)]
pub struct HookResult {
    pub approved: bool,
    pub modified_input: Option<serde_json::Value>,
    pub message: Option<String>,
}

/// What a finished hook's output calls for.
#[derive(Debug, Clone, PartialEq, Eq)]
pub enum HookAnswer {
    /// No verdict to read: go ahead.
    Approve,
    /// Parse this (the output, trimmed) as the verdict.
    Parse(String),
}

/// Where a run of hooks stands after a step: run the hook at this
/// position next, or stop with the verdict (`true`: the action goes on).
#[derive(Debug, Clone, Copy, PartialEq, Eq, Structural)]
pub enum HookStep {
    Run(usize),
    Done(bool),
}

/// Whether a hook's result lets the action go on: a failed hook never
/// blocks; only a verdict that withholds approval does.
pub open spec fn lets_through(result: Result<HookResult, String>) -> bool {
    match result {
        Ok(r) => r.approved,
        Err(_) => true,
    }
}

/// The runner that applies hooks to an event.
#[derive(Debug, Clone, Copy, PartialEq, Eq, Structural)]
pub struct HookRunner;

/// How long a hook may run when it names no timeout: 30 seconds.
pub const DEFAULT_HOOK_TIMEOUT_MS: u64 = 30_000;

impl HookRunner {
    /// A hook's time limit in milliseconds.
    pub fn timeout_ms(hook: &HookDef) -> (ms: u64)
        ensures
            ms == match hook.timeout {
                Some(t) => t,
                None => DEFAULT_HOOK_TIMEOUT_MS,
            },
    {
        match hook.timeout {
            Some(t) => t,
            None => DEFAULT_HOOK_TIMEOUT_MS,
        }
    }

    /// Read a finished hook: a non-zero exit or blank output approves;
    /// otherwise the trimmed output is the verdict to parse.
    pub fn answer(exit_success: bool, stdout: &str) -> (a: HookAnswer)
        ensures
            !exit_success ==> a == HookAnswer::Approve,
            exit_success && trim(stdout@).len() == 0 ==> a == HookAnswer::Approve,
            exit_success && trim(stdout@).len() > 0 ==> (a matches HookAnswer::Parse(t) && t@ == trim(stdout@)),
    {
        if !exit_success {
            return HookAnswer::Approve;
        }
        let cs = chars_of(stdout);
        let trimmed = trim_chars(cs.as_slice());
        if trimmed.len() == 0 {
            HookAnswer::Approve
        } else {
            HookAnswer::Parse(string_of(trimmed.as_slice()))
        }
    }

    /// The verdict taken when a hook printed something that is not one:
    /// approved, with a message quoting what it printed.
    pub fn invalid_json_result(stdout: &str) -> (r: HookResult)
        ensures
            r.approved,
            r.modified_input is None,
            r.message matches Some(m) && m@ == "invalid JSON from hook: "@ + stdout@,
    {
        let mut t = chars_of("invalid JSON from hook: ");
        push_str_chars(&mut t, stdout);
        HookResult { approved: true, modified_input: None, message: Some(string_of(t.as_slice())) }
    }

    /// The verdict taken when a hook gave none of its own.
    pub fn approved_result() -> (r: HookResult)
        ensures
            r.approved,
            r.modified_input is None,
            r.message is None,
    {
        HookResult { approved: true, modified_input: None, message: None }
    }

    /// Whether the hooks after this one still run and the action may go
    /// on: a failed hook never blocks; only a verdict that withholds
    /// approval does.
    pub fn proceeds(result: &Result<HookResult, String>) -> (b: bool)
        ensures
            b == lets_through(*result),
    {
        match result {
            Ok(r) => r.approved,
            Err(_) => true,
        }
    }

    /// The first step of running `count` hooks in order: with none, the
    /// action goes on at once; else the first hook runs.
    pub fn first_step(count: usize) -> (s: HookStep)
        ensures
            count == 0 ==> s == HookStep::Done(true),
            count > 0 ==> s == HookStep::Run(0),
    {
        if count == 0 {
            HookStep::Done(true)
        } else {
            HookStep::Run(0)
        }
    }

    /// The step after hook `ran` of `count` finished with `result`: a
    /// blocking verdict stops the run there and the action does not go
    /// on (the hooks after it never run); otherwise the next hook runs,
    /// and after the last one the action goes on.
    pub fn next_step(ran: usize, count: usize, result: &Result<HookResult, String>) -> (s: HookStep)
        requires
            ran < count,
        ensures
            !lets_through(*result) ==> s == HookStep::Done(false),
            lets_through(*result) && ran + 1 < count ==> s == HookStep::Run((ran + 1) as usize),
            lets_through(*result) && ran + 1 == count ==> s == HookStep::Done(true),
    {
        if !Self::proceeds(result) {
            HookStep::Done(false)
        } else if ran + 1 < count {
            HookStep::Run(ran + 1)
        } else {
            HookStep::Done(true)
        }
    }
}

} // verus!
