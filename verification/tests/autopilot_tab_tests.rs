use deepseek_custom::autopilot::{AutopilotProgress, AutopilotTab, RepeatRequest};
use deepseek_custom::settings::{apply_autopilot_iterations, apply_autopilot_task, Settings};

fn make_tab() -> AutopilotTab {
    AutopilotTab::new(&Settings::default(), ".".to_string())
}

#[test]
fn a_new_tab_starts_idle_with_no_channels() {
    let tab = make_tab();
    assert_eq!(tab.progress, AutopilotProgress::Idle);
    assert!(!tab.attached);
}

#[test]
fn new_seeds_the_task_and_iteration_count_from_settings() {
    let mut settings = Settings::default();
    apply_autopilot_task(&mut settings, "run the suite");
    apply_autopilot_iterations(&mut settings, 12);
    let tab = AutopilotTab::new(&settings, ".".to_string());
    assert_eq!(tab.task, "run the suite");
    assert_eq!(tab.iterations, 12);
}

#[test]
fn new_falls_back_to_an_empty_task_and_the_default_count() {
    let tab = make_tab();
    assert!(tab.task.is_empty());
    assert_eq!(tab.iterations, Settings::default().autopilot_iterations());
}

#[test]
fn attach_wires_both_handles() {
    let mut tab = make_tab();
    tab.attach();
    assert!(tab.attached);
}

#[test]
fn progress_moves_through_running_and_finished() {
    let mut tab = make_tab();
    tab.set_running(2, 5);
    assert_eq!(tab.progress, AutopilotProgress::Running { index: 2, total: 5 });
    tab.set_finished(5, 5);
    assert_eq!(tab.progress, AutopilotProgress::Finished { completed: 5, total: 5 });
}

#[test]
fn the_policy_file_defaults_under_the_project_root() {
    let tab = AutopilotTab::new(&Settings::default(), "/project".to_string());
    assert_eq!(tab.policy_path, "/project/autopilot-policy.md");
}

#[test]
fn run_needs_a_task_and_a_channel() {
    let mut tab = make_tab();
    tab.task = "   ".to_string();
    tab.attach();
    assert!(!tab.can_run());
    assert_eq!(tab.run(), None);

    let mut tab = make_tab();
    tab.task = "fix the build".to_string();
    assert!(!tab.can_run(), "no channel yet");
    assert_eq!(tab.run(), None);
}

#[test]
fn run_sends_the_task_and_resets_the_readout() {
    let mut tab = make_tab();
    tab.task = "fix the build".to_string();
    tab.iterations = 3;
    tab.attach();
    tab.set_finished(2, 2);
    assert_eq!(tab.run(), Some(RepeatRequest { task: "fix the build".to_string(), iterations: 3 }));
    assert_eq!(tab.progress, AutopilotProgress::Idle);
}

#[test]
fn new_seeds_autopilot_controls_from_settings() {
    let mut settings = Settings::default();
    apply_autopilot_task(&mut settings, "run the tests");
    apply_autopilot_iterations(&mut settings, 9);
    let tab = AutopilotTab::new(&settings, ".".to_string());
    assert_eq!(tab.task, "run the tests");
    assert_eq!(tab.iterations, 9);
}
