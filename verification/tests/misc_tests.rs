use deepseek_custom::api::{Content, Message, Role};
use deepseek_custom::hemisphere::{compress_for_right, fits_context_window, HemisphereConfig};
use deepseek_custom::skills::{format_skills_for_prompt, skill_from_parts, split_frontmatter, Skill, SkillFrontmatter, SkillLoader};
use deepseek_custom::tools::{
    check_permission, format_output, format_with_line_numbers, resolve_shell, split_shell_words,
    tool_matches, CommandOutput, PermissionsConfig, Shell,
};

fn history(n: usize) -> Vec<Message> {
    let mut messages = vec![Message {
        role: Role::System,
        content: Some(Content::text("system")),
        tool_calls: None,
        tool_call_id: None,
        reasoning_content: None,
    }];
    for i in 0..n {
        messages.push(Message::user(&format!("message {i}")));
    }
    messages
}

#[test]
fn hemisphere_config_defaults_disabled() {
    let cfg = HemisphereConfig::default();
    assert!(!cfg.enabled);
    assert_eq!(cfg.right_context_window, 4000);
    assert_eq!(cfg.right_max_response, 200);
}

#[test]
fn compress_empty_history() {
    let h = history(0);
    let result = compress_for_right(&h, 3);
    assert!(result.contains("empty conversation"));
}

#[test]
fn compress_reduces_history() {
    let h = history(10);
    let result = compress_for_right(&h, 3);
    assert!(result.contains("Summary of earlier conversation"));
    assert!(result.contains("message 9"));
    assert!(!result.contains("message 0"));
}

#[test]
fn compress_keeps_a_short_history_verbatim() {
    let h = history(2);
    assert_eq!(compress_for_right(&h, 3), "[user] message 0\n\n[user] message 1");
    let h = history(4);
    assert_eq!(
        compress_for_right(&h, 3),
        "[Summary of earlier conversation: 1 messages exchanged. The user asked a coding question and the assistant has been reading files, executing commands, and writing code.]\n\n[user] message 1\n\n[user] message 2\n\n[user] message 3"
    );
}

#[test]
fn compress_cuts_a_long_message_at_five_hundred_bytes() {
    let mut h = history(0);
    h.push(Message::user(&"y".repeat(700)));
    let result = compress_for_right(&h, 3);
    assert_eq!(result, format!("[user] {}...", "y".repeat(500)));
}

#[test]
fn fits_context_detects_overflow() {
    let small = "short";
    assert!(fits_context_window(small, 100));
    let large = "x".repeat(10000);
    assert!(!fits_context_window(&large, 100));
}

#[test]
fn format_skills_produces_output() {
    let skills = vec![Skill {
        name: "test".into(),
        description: "desc".into(),
        tools: vec!["bash".into()],
        content: "Do stuff".into(),
    }];
    let formatted = format_skills_for_prompt(&skills);
    assert!(formatted.contains("### test"));
    assert!(formatted.contains("Do stuff"));
    assert_eq!(formatted, "### test\n_desc_\n\n**Tools:** bash\n\nDo stuff");
}

#[test]
fn format_empty_skills_returns_empty() {
    assert_eq!(format_skills_for_prompt(&[]), "");
}

#[test]
fn formatted_skills_are_separated_by_rules() {
    let a = Skill { name: "a".into(), description: String::new(), tools: vec![], content: "one".into() };
    let b = Skill { name: "b".into(), description: String::new(), tools: vec!["x".into(), "y".into()], content: "two".into() };
    assert_eq!(
        format_skills_for_prompt(&[a, b]),
        "### a\none\n\n---\n\n### b\n**Tools:** x, y\n\ntwo"
    );
}

#[test]
fn frontmatter_is_split_from_the_body() {
    let (fm, body) = split_frontmatter("---\nname: my-skill\n---\n\n# Instructions\n\nDo it.");
    assert_eq!(fm.as_deref(), Some("name: my-skill"));
    assert_eq!(body, "# Instructions\n\nDo it.");
    let (fm, body) = split_frontmatter("  # Plain skill\n\nJust markdown.\n");
    assert_eq!(fm, None);
    assert_eq!(body, "# Plain skill\n\nJust markdown.");
    let (fm, body) = split_frontmatter("---\nname: broken\n");
    assert_eq!(fm, None);
    assert_eq!(body, "---\nname: broken");
}

#[test]
fn a_skill_without_a_name_takes_its_file_stem() {
    let fm = SkillFrontmatter::default();
    let skill = skill_from_parts(fm, "body", "plain.md");
    assert_eq!(skill.name, "plain");
    assert_eq!(skill.content, "body");
    let fm = SkillFrontmatter {
        name: Some("named".into()),
        description: Some("d".into()),
        tools: Some(vec!["bash".into()]),
    };
    let skill = skill_from_parts(fm, "b", "other.txt");
    assert_eq!(skill.name, "named");
    assert_eq!(skill.tools, vec!["bash".to_string()]);
    assert_eq!(skill_from_parts(SkillFrontmatter::default(), "", "notes").name, "notes");
}

#[test]
fn project_skills_override_global_ones_by_name() {
    let skill = |name: &str, content: &str| Skill {
        name: name.into(),
        description: String::new(),
        tools: vec![],
        content: content.into(),
    };
    let project = vec![skill("a", "project a"), skill("c", "project c")];
    let global = vec![skill("a", "global a"), skill("b", "global b")];
    let mut merged = SkillLoader::merge(project, global);
    merged.sort_by(|x, y| x.name.cmp(&y.name));
    let contents: Vec<&str> = merged.iter().map(|s| s.content.as_str()).collect();
    assert_eq!(contents, vec!["project a", "global b", "project c"]);
}

#[test]
fn split_shell_words_handles_quotes() {
    let result = split_shell_words("powershell -NoProfile -Command \"Write-Output 'hello world'\"");
    assert_eq!(result.len(), 4);
    assert_eq!(result[0], "powershell");
    assert_eq!(result[1], "-NoProfile");
    assert_eq!(result[2], "-Command");
    assert_eq!(result[3], "Write-Output 'hello world'");
}

#[test]
fn split_shell_words_simple_command() {
    let result = split_shell_words("echo hello world");
    assert_eq!(result, vec!["echo", "hello", "world"]);
}

#[test]
fn split_shell_words_skips_repeated_spaces() {
    assert_eq!(split_shell_words("  a   b  "), vec!["a", "b"]);
    assert!(split_shell_words("").is_empty());
}

#[test]
fn resolve_shell_defaults_to_auto() {
    assert_eq!(resolve_shell("auto"), Shell::Auto);
    assert_eq!(resolve_shell("bash"), Shell::Auto);
}

#[test]
fn resolve_shell_explicit_cmd() {
    assert_eq!(resolve_shell("cmd"), Shell::Cmd);
}

#[test]
fn resolve_shell_explicit_powershell() {
    assert_eq!(resolve_shell("powershell"), Shell::Ps);
    assert_eq!(resolve_shell("pwsh"), Shell::Ps);
}

#[test]
fn format_output_reports_both_streams_and_the_exit_code() {
    let out = CommandOutput { stdout: "ok".into(), stderr: "warn".into(), exit_code: 0 };
    assert_eq!(format_output(&out), "ok\n[stderr]\nwarn\n[exit code: 0]");
    let out = CommandOutput { stdout: String::new(), stderr: "bad".into(), exit_code: -1 };
    assert_eq!(format_output(&out), "[stderr]\nbad\n[exit code: -1]");
    let out = CommandOutput { stdout: String::new(), stderr: String::new(), exit_code: 2 };
    assert_eq!(format_output(&out), "\n[exit code: 2]");
}

#[test]
fn format_line_numbers_correctly() {
    let lines = vec!["line one", "line two", "line three"];
    let result = format_with_line_numbers(&lines, 10);
    assert!(result.starts_with("10"));
    assert!(result.contains("11\tline two"));
    assert!(result.contains("12\tline three"));
}

#[test]
fn line_numbers_are_right_aligned() {
    let lines = vec!["a", "b"];
    assert_eq!(format_with_line_numbers(&lines, 9), " 9\ta\n10\tb");
}

#[test]
fn deny_overrides_allow() {
    let perm = PermissionsConfig {
        allow: Some(vec!["bash".into()]),
        deny: Some(vec!["bash".into()]),
    };
    assert!(!check_permission("bash", &perm));
}

#[test]
fn empty_allow_permits_all_except_denied() {
    let perm = PermissionsConfig {
        allow: None,
        deny: Some(vec!["dangerous".into()]),
    };
    assert!(check_permission("bash", &perm));
    assert!(check_permission("read", &perm));
    assert!(!check_permission("dangerous", &perm));
}

#[test]
fn explicit_allow_required_when_list_present() {
    let perm = PermissionsConfig {
        allow: Some(vec!["bash".into(), "read".into()]),
        deny: None,
    };
    assert!(check_permission("bash", &perm));
    assert!(check_permission("read", &perm));
    assert!(!check_permission("write", &perm));
}

#[test]
fn wildcard_allow_matches_prefix() {
    let perm = PermissionsConfig {
        allow: Some(vec!["test_*".into()]),
        deny: None,
    };
    assert!(check_permission("test_foo", &perm));
    assert!(check_permission("test_bar", &perm));
    assert!(!check_permission("bash", &perm));
}

#[test]
fn a_lone_star_matches_every_tool() {
    assert!(tool_matches("anything", "*"));
    assert!(tool_matches("", "*"));
    assert!(!tool_matches("bas", "bash"));
}

#[test]
fn a_summarized_message_may_have_a_character_across_the_cut() {
    let mut messages = vec![Message {
        role: Role::System,
        content: Some(Content::Text("system".into())),
        tool_calls: None,
        tool_call_id: None,
        reasoning_content: None,
    }];
    let straddling = format!("{}\u{e9}", "a".repeat(499));
    for text in [straddling.as_str(), "recent question"] {
        messages.push(Message {
            role: Role::User,
            content: Some(Content::Text(text.into())),
            tool_calls: None,
            tool_call_id: None,
            reasoning_content: None,
        });
    }
    let out = compress_for_right(&messages, 1);
    assert!(out.starts_with("[Summary of earlier conversation: 1 messages exchanged."));
    assert!(out.ends_with("\n\n[user] recent question"));
}

fn named(name: &str, content: &str) -> Skill {
    Skill { name: name.into(), description: String::new(), tools: Vec::new(), content: content.into() }
}

#[test]
fn merge_keeps_one_skill_per_name_and_the_project_wins() {
    let merged = SkillLoader::merge(
        vec![named("a", "p1"), named("b", "p2"), named("a", "p3")],
        vec![named("a", "g1"), named("c", "g2"), named("c", "g3")],
    );
    let mut names: Vec<&str> = merged.iter().map(|s| s.name.as_str()).collect();
    names.sort();
    assert_eq!(names, vec!["a", "b", "c"]);
    let content_of = |n: &str| merged.iter().find(|s| s.name == n).unwrap().content.clone();
    assert_eq!(content_of("a"), "p3");
    assert_eq!(content_of("b"), "p2");
    assert_eq!(content_of("c"), "g3");
}
