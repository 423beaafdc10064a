use deepseek_custom::wake::{levenshtein, normalize_word, WakeMatch, WakeWordMatcher};

fn chars(s: &str) -> Vec<char> {
    s.chars().collect()
}

#[test]
fn exact_match_has_no_command() {
    let matcher = WakeWordMatcher::new("hey deepseek");
    let result = matcher.match_utterance("hey deepseek");
    assert_eq!(result, Some(WakeMatch { command: None }));
}

#[test]
fn matches_regardless_of_casing() {
    let matcher = WakeWordMatcher::new("hey deepseek");
    let result = matcher.match_utterance("Hey DeepSeek");
    assert_eq!(result, Some(WakeMatch { command: None }));
}

#[test]
fn matches_through_punctuation() {
    let matcher = WakeWordMatcher::new("hey deepseek");
    let result = matcher.match_utterance("hey, deepseek!");
    assert_eq!(result, Some(WakeMatch { command: None }));
}

#[test]
fn matches_deepseek_split_into_two_words() {
    let matcher = WakeWordMatcher::new("hey deepseek");
    let result = matcher.match_utterance("hey deep seek");
    assert_eq!(result, Some(WakeMatch { command: None }));
}

#[test]
fn near_miss_within_tolerance_still_matches() {
    let matcher = WakeWordMatcher::new("hey deepseek");
    let result = matcher.match_utterance("hey deepsick");
    assert_eq!(result, Some(WakeMatch { command: None }));
}

#[test]
fn phrase_just_outside_tolerance_does_not_match() {
    let matcher = WakeWordMatcher::new("hey deepseek");
    let result = matcher.match_utterance("hey xyzpseek");
    assert_eq!(result, None);
}

#[test]
fn unrelated_phrase_does_not_match() {
    let matcher = WakeWordMatcher::new("hey deepseek");
    let result = matcher.match_utterance("hey there");
    assert_eq!(result, None);
}

#[test]
fn command_is_extracted_from_remainder_of_utterance() {
    let matcher = WakeWordMatcher::new("hey deepseek");
    let result = matcher.match_utterance("hey deepseek what is the weather");
    assert_eq!(
        result,
        Some(WakeMatch {
            command: Some("what is the weather".to_string())
        })
    );
}

#[test]
fn empty_transcript_does_not_match() {
    let matcher = WakeWordMatcher::new("hey deepseek");
    let result = matcher.match_utterance("");
    assert_eq!(result, None);
}

#[test]
fn an_empty_wake_phrase_never_matches() {
    let matcher = WakeWordMatcher::new("  ... ");
    assert_eq!(matcher.match_utterance("anything at all"), None);
}

#[test]
fn normalize_word_lowercases_and_drops_punctuation() {
    assert_eq!(normalize_word(&chars("Deep-Seek!")), chars("deepseek"));
    assert_eq!(normalize_word(&chars("R2D2")), chars("r2d2"));
    assert_eq!(normalize_word(&chars("\u{e9}t\u{e9}")), chars("t"));
}

#[test]
fn levenshtein_counts_edits() {
    assert_eq!(levenshtein(&chars("kitten"), &chars("sitting")), 3);
    assert_eq!(levenshtein(&chars(""), &chars("abc")), 3);
    assert_eq!(levenshtein(&chars("deepseek"), &chars("deepsick")), 2);
    assert_eq!(levenshtein(&chars("same"), &chars("same")), 0);
}

#[test]
fn recasing_or_dropping_punctuation_first_normalizes_the_same() {
    let word = "Deep-Seek!";
    let plain = normalize_word(&chars(word));
    assert_eq!(plain, chars("deepseek"));
    assert_eq!(normalize_word(&chars(&word.to_ascii_uppercase())), plain);
    assert_eq!(normalize_word(&chars(&word.to_ascii_lowercase())), plain);
    assert_eq!(normalize_word(&chars("DeepSeek")), plain);
}
