use deepseek_custom::speech::{filter_for_speech, MAX_SPOKEN_CHARS};

#[test]
fn filter_for_speech_passes_plain_text_through() {
    let out = filter_for_speech("hello there, how are you today?");
    assert_eq!(out, "hello there, how are you today?");
}

#[test]
fn filter_for_speech_drops_fenced_code_blocks() {
    let text = "Here is the fix:\n```rust\nfn main() {\n    panic!();\n}\n```\nThat should work.";
    let out = filter_for_speech(text);
    assert_eq!(out, "Here is the fix: That should work.");
}

#[test]
fn filter_for_speech_drops_unterminated_fence_to_the_end() {
    let text = "Before.\n```rust\nfn main() {}\n";
    let out = filter_for_speech(text);
    assert_eq!(out, "Before.");
}

#[test]
fn filter_for_speech_drops_inline_backtick_spans() {
    let out = filter_for_speech("Run `cargo test` to check it.");
    assert_eq!(out, "Run to check it.");
}

#[test]
fn filter_for_speech_drops_bare_urls() {
    let out = filter_for_speech("See https://example.com/docs for more.");
    assert_eq!(out, "See for more.");
}

#[test]
fn filter_for_speech_keeps_link_label_and_drops_url() {
    let out = filter_for_speech("Read the [project docs](https://example.com/docs) first.");
    assert_eq!(out, "Read the project docs first.");
}

#[test]
fn filter_for_speech_strips_headings() {
    let out = filter_for_speech("## Summary\nEverything passed.");
    assert_eq!(out, "Summary Everything passed.");
}

#[test]
fn filter_for_speech_strips_bullet_lists() {
    let text = "Steps:\n- first item\n- second item\n* third item";
    let out = filter_for_speech(text);
    assert_eq!(out, "Steps: first item second item third item");
}

#[test]
fn filter_for_speech_strips_numbered_lists() {
    let text = "1. do this\n2. do that";
    let out = filter_for_speech(text);
    assert_eq!(out, "do this do that");
}

#[test]
fn filter_for_speech_strips_emphasis_and_blockquote_markup() {
    let out = filter_for_speech("> **Note:** this is _important_.");
    assert_eq!(out, "Note: this is important.");
}

#[test]
fn filter_for_speech_drops_horizontal_rule_lines() {
    let text = "Before.\n---\nAfter.";
    let out = filter_for_speech(text);
    assert_eq!(out, "Before. After.");
}

#[test]
fn filter_for_speech_collapses_whitespace() {
    let out = filter_for_speech("too    many\n\n\nspaces   here");
    assert_eq!(out, "too many spaces here");
}

#[test]
fn filter_for_speech_caps_length_on_a_word_boundary() {
    let long = "word ".repeat(200);
    let out = filter_for_speech(&long);
    assert!(out.chars().count() <= MAX_SPOKEN_CHARS + 3);
    assert!(out.ends_with("..."));
    assert!(
        !out.trim_end_matches("...").ends_with(' '),
        "the cut must land on a word boundary, not mid-word or leave a trailing space before the ellipsis"
    );
}

#[test]
fn filter_for_speech_does_not_truncate_short_text() {
    let out = filter_for_speech("short reply");
    assert_eq!(out, "short reply");
    assert!(!out.ends_with("..."));
}

#[test]
fn filter_for_speech_handles_everything_together() {
    let text = "# Fix applied\n\
         Run `cargo test` to verify, see [the docs](https://example.com) too.\n\
         ```rust\n\
         fn broken() { panic!(); }\n\
         ```\n\
         - it now passes\n\
         - no more panics";
    let out = filter_for_speech(text);
    assert!(!out.contains('`'));
    assert!(!out.contains("https://"));
    assert!(!out.contains('#'));
    assert!(!out.contains('-'));
    assert!(out.contains("Fix applied"));
    assert!(out.contains("the docs"));
    assert!(out.contains("it now passes"));
    assert!(
        !out.contains("fn broken"),
        "the fenced code block's content must not survive, only the surrounding prose"
    );
}

#[test]
fn an_unmatched_backtick_keeps_the_text_after_it() {
    assert_eq!(filter_for_speech("say `this"), "say this");
}

#[test]
fn a_bracket_that_is_no_link_keeps_its_brackets() {
    assert_eq!(filter_for_speech("see [note] here"), "see [note] here");
    assert_eq!(filter_for_speech("open [bracket only"), "open [bracket only");
    assert_eq!(filter_for_speech("[label](no close"), "[label](no close");
}

#[test]
fn a_url_wrapped_in_punctuation_is_still_dropped() {
    assert_eq!(filter_for_speech("(see www.example.com) now"), "(see now");
    assert_eq!(filter_for_speech("go to \"http://a.b\", then"), "go to then");
}

#[test]
fn numbered_bullets_with_a_parenthesis_are_stripped() {
    assert_eq!(filter_for_speech("1) first\n22) second"), "first second");
    assert_eq!(filter_for_speech("2024 was a year"), "2024 was a year");
}

#[test]
fn a_long_word_without_spaces_is_cut_at_the_limit() {
    let long = "x".repeat(600);
    let out = filter_for_speech(&long);
    assert_eq!(out, format!("{}...", "x".repeat(MAX_SPOKEN_CHARS)));
}

#[test]
fn no_spoken_word_looks_like_a_url_even_after_the_cap() {
    let long = format!("{} (https://example.com/long/path). www.example.org", "word ".repeat(96));
    for reply in [
        "Docs at https://docs.rs/tokio, see also (www.rust-lang.org) and http://x.y.".to_string(),
        long,
    ] {
        let spoken = filter_for_speech(&reply);
        for word in spoken.split_whitespace() {
            let t = word.trim_matches(|c: char| "([{\"'.,!?;:)]}".contains(c));
            assert!(
                !(t.starts_with("http://") || t.starts_with("https://") || t.starts_with("www.")),
                "{word:?} was spoken"
            );
        }
    }
    assert_eq!(
        filter_for_speech("Docs at https://docs.rs/tokio, see also (www.rust-lang.org) and http://x.y."),
        "Docs at see also and"
    );
}

#[test]
fn spoken_text_is_one_line_spaced_singly() {
    let out = filter_for_speech("  # Title\n\n- first   item\n\t> quoted\r\nlast line  ");
    assert!(!out.contains('\n'));
    assert!(!out.contains("  "));
    assert_eq!(out.trim(), out);
    assert_eq!(out, "Title first item quoted last line");
}
