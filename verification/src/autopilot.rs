//! The Autopilot tab's progress line and where its policy file lives.
use vstd::prelude::*;

use crate::paths::{join_path, joined_path};
use crate::text::{decimal, decimal_chars, push_str_chars, string_of};

verus! {

/// The policy file's name when the settings name none.
pub const DEFAULT_POLICY_FILE: &'static str = "autopilot-policy.md";

/// How far an Autopilot run has got.
#[derive(Debug, Clone, Copy, PartialEq, Eq, Structural)]
pub enum AutopilotProgress {
    Idle,
    Running { index: u32, total: u32 },
    Finished { completed: u32, total: u32 },
}

impl Default for AutopilotProgress {
    fn default() -> (p: AutopilotProgress)
        ensures
            p == AutopilotProgress::Idle,
    {
        AutopilotProgress::Idle
    }
}

/// The progress line for each state: none while idle.
pub open spec fn progress_text(progress: AutopilotProgress) -> Option<Seq<char>> {
    match progress {
        AutopilotProgress::Idle => None,
        AutopilotProgress::Running { index, total } => Some(
            "Running iteration "@ + decimal(index as nat) + " of "@ + decimal(total as nat),
        ),
        AutopilotProgress::Finished { completed, total } => Some(
            "Finished: "@ + decimal(completed as nat) + " of "@ + decimal(total as nat)
                + " completed"@,
        ),
    }
}

/// The progress line, or `None` while nothing has run yet.
pub fn progress_label(progress: AutopilotProgress) -> (r: Option<String>)
    ensures
        match r {
            Some(s) => progress_text(progress) == Some(s@),
            None => progress_text(progress) is None,
        },
{
    match progress {
        AutopilotProgress::Idle => None,
        AutopilotProgress::Running { index, total } => {
            let mut out = crate::text::chars_of("Running iteration ");
            let a = decimal_chars(index as u64);
            crate::text::extend_chars(&mut out, a.as_slice());
            push_str_chars(&mut out, " of ");
            let b = decimal_chars(total as u64);
            crate::text::extend_chars(&mut out, b.as_slice());
            Some(string_of(out.as_slice()))
        },
        AutopilotProgress::Finished { completed, total } => {
            let mut out = crate::text::chars_of("Finished: ");
            let a = decimal_chars(completed as u64);
            crate::text::extend_chars(&mut out, a.as_slice());
            push_str_chars(&mut out, " of ");
            let b = decimal_chars(total as u64);
            crate::text::extend_chars(&mut out, b.as_slice());
            push_str_chars(&mut out, " completed");
            Some(string_of(out.as_slice()))
        },
    }
}

/// Where the Autopilot policy file lives: a project root and the path the
/// settings give, if any.
#[derive(Debug, Clone, PartialEq, Eq)]
pub struct PolicyStore {
    pub project_root: String,
    pub policy_path: Option<String>,
}

impl PolicyStore {
    /// A store for `project_root`, with the settings' policy path if one
    /// was set.
    pub fn new(project_root: String, policy_path: Option<String>) -> (s: PolicyStore)
        ensures
            s.project_root == project_root,
            s.policy_path == policy_path,
    {
        PolicyStore { project_root, policy_path }
    }

    /// The policy file the settings name, or `autopilot-policy.md`.
    pub open spec fn policy_name(self) -> Seq<char> {
        match self.policy_path {
            Some(p) => p@,
            None => DEFAULT_POLICY_FILE@,
        }
    }

    /// The policy file's path: the configured name (or the default one)
    /// resolved against the project root. A relative name lands under the
    /// root.
    pub fn resolved_policy_path(&self) -> (r: String)
        ensures
            r@ == joined_path(self.project_root@, self.policy_name()),
    {
        match &self.policy_path {
            Some(p) => join_path(self.project_root.as_str(), p.as_str()),
            None => join_path(self.project_root.as_str(), DEFAULT_POLICY_FILE),
        }
    }
}

/// One Autopilot run: the task and how many times to repeat it.
#[derive(Debug, Clone, PartialEq, Eq)]
pub struct RepeatRequest {
    pub task: String,
    pub iterations: u32,
}

/// The Autopilot tab's state: the task to repeat, how many times, the
/// policy file, the progress readout, and whether a repeat channel is
/// there to run on.
#[derive(Debug, Clone, PartialEq, Eq)]
pub struct AutopilotTab {
    pub task: String,
    pub iterations: u32,
    pub progress: AutopilotProgress,
    pub policy_path: String,
    /// A repeat channel is attached; without one nothing can run.
    pub attached: bool,
}

impl AutopilotTab {
    /// Seed the controls from the settings (an empty task and the default
    /// count when unset), with the policy file resolved against
    /// `project_root` and no channel attached yet.
    pub fn new(settings: &crate::settings::Settings, project_root: String) -> (t: AutopilotTab)
        ensures
            t.task@ == match crate::settings::autopilot_or_default(*settings).task {
                Some(task) => task@,
                None => Seq::<char>::empty(),
            },
            t.iterations == match crate::settings::autopilot_or_default(*settings).iterations {
                Some(n) => n,
                None => 1,
            },
            t.progress == AutopilotProgress::Idle,
            !t.attached,
    {
        let policy = match &settings.autopilot {
            Some(a) => match &a.policy_path {
                Some(p) => Some(p.clone()),
                None => None,
            },
            None => None,
        };
        let store = PolicyStore::new(project_root, policy);
        let task = match settings.autopilot_task() {
            Some(t) => t,
            None => String::new(),
        };
        AutopilotTab {
            task,
            iterations: settings.autopilot_iterations(),
            progress: AutopilotProgress::Idle,
            policy_path: store.resolved_policy_path(),
            attached: false,
        }
    }

    /// A repeat channel is now there to run on.
    pub fn attach(&mut self)
        ensures
            *final(self) == (AutopilotTab { attached: true, ..*old(self) }),
    {
        self.attached = true;
    }

    /// Move the progress readout to a newly started iteration.
    pub fn set_running(&mut self, index: u32, total: u32)
        ensures
            *final(self) == (AutopilotTab { progress: AutopilotProgress::Running { index, total }, ..*old(self) }),
    {
        self.progress = AutopilotProgress::Running { index, total };
    }

    /// Move the progress readout to a finished run.
    pub fn set_finished(&mut self, completed: u32, total: u32)
        ensures
            *final(self) == (AutopilotTab { progress: AutopilotProgress::Finished { completed, total }, ..*old(self) }),
    {
        self.progress = AutopilotProgress::Finished { completed, total };
    }

    /// The Run button is enabled only with a task that is not blank and a
    /// channel to send it on.
    pub fn can_run(&self) -> (b: bool)
        ensures
            b == (crate::text::trim(self.task@).len() > 0 && self.attached),
    {
        let cs = crate::text::chars_of(self.task.as_str());
        let t = crate::text::trim_chars(cs.as_slice());
        t.len() > 0 && self.attached
    }

    /// Run pressed: when it can run, the request to send, with the readout
    /// back to idle until the first iteration starts; otherwise nothing.
    pub fn run(&mut self) -> (r: Option<RepeatRequest>)
        ensures
            crate::text::trim(old(self).task@).len() > 0 && old(self).attached ==> {
                &&& r matches Some(req) && req.task == old(self).task && req.iterations == old(self).iterations
                &&& *final(self) == (AutopilotTab { progress: AutopilotProgress::Idle, ..*old(self) })
            },
            !(crate::text::trim(old(self).task@).len() > 0 && old(self).attached) ==> {
                &&& r is None
                &&& *final(self) == *old(self)
            },
    {
        if !self.can_run() {
            return None;
        }
        self.progress = AutopilotProgress::Idle;
        Some(RepeatRequest { task: self.task.clone(), iterations: self.iterations })
    }
}

} // verus!
