use rgx::debugger::{collect_debug_steps, DebugSession, DebugStep};

fn has_match(steps: &[DebugStep]) -> bool {
    steps.iter().any(|s| s.description.contains("Match found"))
}

fn backtracks(steps: &[DebugStep]) -> usize {
    steps.iter().filter(|s| s.is_backtrack).count()
}

#[test]
fn test_simple_literal_match() {
    let steps = collect_debug_steps("abc", "abc");
    assert!(steps.last().unwrap().matched);
    assert!(has_match(&steps));
}

#[test]
fn test_simple_literal_no_match() {
    let steps = collect_debug_steps("xyz", "abc");
    assert!(!steps.last().unwrap().matched);
}

#[test]
fn test_dot_star() {
    let steps = collect_debug_steps("a.*b", "aXXXb");
    assert!(has_match(&steps));
}

#[test]
fn test_alternation_first_branch() {
    let steps = collect_debug_steps("(cat|dog)", "cat");
    assert!(has_match(&steps));
}

#[test]
fn test_alternation_second_branch() {
    let steps = collect_debug_steps("(cat|dog)", "dog");
    let found = has_match(&steps);
    assert!(found, "Should match 'dog' via second branch");
    let backtracks = backtracks(&steps);
    assert!(backtracks > 0, "Should backtrack from first branch to second");
}

#[test]
fn test_group_with_quantifier() {
    let steps = collect_debug_steps("(ab)+", "ababab");
    assert!(has_match(&steps));
}

#[test]
fn test_nested_group_quantifier() {
    let steps = collect_debug_steps("(a+)+b", "aaab");
    assert!(has_match(&steps), "Should match 'aaab'");
}

#[test]
fn test_catastrophic_backtracking_detected() {
    let steps = collect_debug_steps("(a+)+b", "aaaaaaaaaa!");
    let backtrack_count = backtracks(&steps);
    assert!(
        backtrack_count > 20,
        "Expected significant backtracking, got {} backtracks in {} steps",
        backtrack_count,
        steps.len()
    );
    assert!(!has_match(&steps), "Should not match since input doesn't end with 'b'");
}

#[test]
fn test_alternation_catastrophic() {
    let steps = collect_debug_steps("(a|aa)+b", "aaaaaaa!");
    let backtrack_count = backtracks(&steps);
    assert!(
        backtrack_count > 10,
        "Expected backtracking from alternation, got {} backtracks in {} steps",
        backtrack_count,
        steps.len()
    );
}

#[test]
fn test_heatmap_shows_hot_spots() {
    let steps = collect_debug_steps("(a+)+b", "aaaa!");
    let session = DebugSession::new(steps);
    let max = session.max_heat();
    assert!(max > 3, "Heatmap max should be high due to backtracking, got {}", max);
    let heat_at_0 = session.heatmap.get(&0).copied().unwrap_or(0);
    assert!(heat_at_0 > 2, "Group start should be visited multiple times, got {}", heat_at_0);
}

#[test]
fn test_non_capturing_group() {
    let steps = collect_debug_steps("(?:ab)+c", "ababc");
    assert!(has_match(&steps));
}

#[test]
fn test_nested_alternation() {
    let steps = collect_debug_steps("(a|b)(c|d)", "bd");
    assert!(has_match(&steps), "Should match 'bd': b from first group, d from second");
}

#[test]
fn test_quantifier_on_group_with_alternation() {
    let steps = collect_debug_steps("(ab|cd)+", "abcdab");
    assert!(has_match(&steps));
}

#[test]
fn test_step_navigation() {
    let steps = collect_debug_steps("a+b", "aab");
    let mut session = DebugSession::new(steps.clone());
    assert_eq!(session.current_step, 0);
    session.step_forward();
    assert_eq!(session.current_step, 1);
    session.step_backward();
    assert_eq!(session.current_step, 0);
    session.step_backward();
    assert_eq!(session.current_step, 0);
}

#[test]
fn test_heatmap_toggle() {
    let steps = collect_debug_steps("a", "a");
    let mut session = DebugSession::new(steps);
    assert!(!session.heatmap_mode);
    session.toggle_heatmap();
    assert!(session.heatmap_mode);
    session.toggle_heatmap();
    assert!(!session.heatmap_mode);
}

#[test]
fn test_escape_in_pattern() {
    let steps = collect_debug_steps(r"\d+", "123");
    assert!(has_match(&steps));
}

#[test]
fn test_char_class() {
    let steps = collect_debug_steps("[a-z]+", "hello");
    assert!(has_match(&steps));
}

#[test]
fn test_dot_star_catastrophic_variant() {
    let steps = collect_debug_steps("(.*a)(.*a)(.*a)b", "aaaa");
    let backtrack_count = backtracks(&steps);
    assert!(
        backtrack_count > 5,
        "Expected backtracking, got {} backtracks in {} steps",
        backtrack_count,
        steps.len()
    );
}

#[test]
fn test_empty_pattern() {
    let steps = collect_debug_steps("", "hello");
    assert_eq!(steps.len(), 1);
    assert!(steps[0].matched);
}

#[test]
fn test_anchored_pattern() {
    let steps = collect_debug_steps("^abc$", "abc");
    assert!(has_match(&steps));
}

#[test]
fn test_anchored_pattern_fail() {
    let steps = collect_debug_steps("^abc$", "xabc");
    assert!(!has_match(&steps));
}

#[test]
fn test_three_branch_alternation() {
    let steps_a = collect_debug_steps("(a|b|c)", "a");
    assert!(has_match(&steps_a));
    let steps_b = collect_debug_steps("(a|b|c)", "b");
    assert!(has_match(&steps_b));
    let steps_c = collect_debug_steps("(a|b|c)", "c");
    assert!(has_match(&steps_c));
}

#[test]
fn test_alternation_with_quantifier_on_group() {
    let steps = collect_debug_steps("(ab|cd)+", "abab");
    assert!(has_match(&steps));
    let steps2 = collect_debug_steps("(ab|cd)+", "cdab");
    assert!(has_match(&steps2));
}

#[test]
fn test_catastrophic_nested_quantifiers() {
    let steps = collect_debug_steps("(a*)*b", "aaaa!");
    assert!(
        steps.len() > 100,
        "Nested quantifiers should cause excessive steps, got {} steps",
        steps.len()
    );
    assert!(!has_match(&steps));
}

#[test]
fn test_catastrophic_shows_in_heatmap() {
    let steps = collect_debug_steps("(a+)+b", "aaaaaa!");
    let session = DebugSession::new(steps);
    assert!(
        session.max_heat() > 5,
        "Heatmap should show high repetition, max_heat = {}",
        session.max_heat()
    );
    assert!(
        session.total_steps() > 30,
        "Should have many steps due to backtracking, got {}",
        session.total_steps()
    );
}

#[test]
fn test_alternation_within_quantified_group_catastrophic() {
    let steps = collect_debug_steps("(a|a)+b", "aaaaaaa!");
    let backtrack_count = backtracks(&steps);
    assert!(
        backtrack_count > 20,
        "Expected heavy backtracking from (a|a)+, got {} backtracks in {} steps",
        backtrack_count,
        steps.len()
    );
}

#[test]
fn test_group_match_succeeds() {
    let steps = collect_debug_steps("(foo)(bar)", "foobar");
    assert!(has_match(&steps));
}

#[test]
fn test_optional_group() {
    let steps_ab = collect_debug_steps("(a)?b", "ab");
    assert!(has_match(&steps_ab));
    let steps_b = collect_debug_steps("(a)?b", "b");
    assert!(has_match(&steps_b));
}

#[test]
fn test_deeply_nested_groups() {
    let steps = collect_debug_steps("((a+)b)+", "abaab");
    assert!(has_match(&steps));
}

// ----- further cases -----

#[test]
fn exact_steps_of_a_single_literal() {
    let steps = collect_debug_steps("a", "a");
    let d: Vec<&str> = steps.iter().map(|s| s.description.as_str()).collect();
    assert_eq!(d, vec!["Try from text[0]", "'a' matched", "Match found [0,1)"]);
    assert_eq!(steps[2].pattern_offset, 1);
    assert!(steps[2].matched);
}

#[test]
fn match_step_reports_pattern_length_in_bytes() {
    let steps = collect_debug_steps("é", "é");
    let last = steps.last().unwrap();
    assert_eq!(last.description, "Match found [0,1)");
    assert_eq!(last.pattern_offset, 2);
}

#[test]
fn literal_mismatch_and_end_of_text_descriptions() {
    let steps = collect_debug_steps("ab", "a");
    let d: Vec<&str> = steps.iter().map(|s| s.description.as_str()).collect();
    assert_eq!(
        d,
        vec!["Try from text[0]", "'a' matched", "'b' at end of text", "Try from text[1]", "'a' at end of text"]
    );
    let steps = collect_debug_steps("b", "a");
    assert_eq!(steps[1].description, "'b' != 'a'");
}

#[test]
fn backtrack_description_names_offsets() {
    let steps = collect_debug_steps("a|b", "b");
    assert!(steps.iter().any(|s| s.description == "Backtrack to p[2] t[0]" && s.is_backtrack));
    assert!(has_match(&steps));
}

#[test]
fn reversed_counted_repetition_is_reported() {
    let steps = collect_debug_steps("a{3,1}", "aaa");
    assert_eq!(steps.len(), 1);
    assert_eq!(steps[0].description, "Pattern cannot be compiled");
    assert!(!steps[0].matched);
}

#[test]
fn counted_repetition_matches() {
    assert!(has_match(&collect_debug_steps("a{2,3}b", "aab")));
    assert!(!has_match(&collect_debug_steps("a{2}b", "ab")));
    assert!(has_match(&collect_debug_steps("a{2,}", "aaaa")));
}

#[test]
fn negated_class_and_escapes() {
    assert!(has_match(&collect_debug_steps("[^0-9]", "5x")));
    assert!(!has_match(&collect_debug_steps("[^0-9]", "55")));
    assert!(has_match(&collect_debug_steps(r"\w\s\W", "a !")));
    assert!(has_match(&collect_debug_steps(r"\.", "a.")));
}

#[test]
fn step_limit_is_reported() {
    let steps = collect_debug_steps("(a*)*(a*)*b", "aaaaaaaaaaaaaaaaaaaa");
    assert!(steps.len() <= 10002);
    assert!(steps.iter().any(|s| s.description == "Step limit reached (catastrophic backtracking detected)"
        || s.description == "Per-position step limit"));
}

#[test]
fn session_stays_within_steps_and_counts() {
    let steps = collect_debug_steps("a|b", "b");
    let n = steps.len();
    let bt = steps.iter().filter(|s| s.is_backtrack).count();
    let mut session = DebugSession::new(steps);
    for _ in 0..(n + 5) {
        session.step_forward();
    }
    assert_eq!(session.current_step, n - 1);
    assert!(session.current().is_some());
    assert_eq!(session.backtrack_count(), bt);
    assert_eq!(session.total_steps(), n);
    let sum: usize = session.heatmap.values().sum();
    assert_eq!(sum, n);
}

#[test]
fn empty_session_max_heat_is_one() {
    let session = DebugSession::new(Vec::new());
    assert_eq!(session.max_heat(), 1);
    assert!(session.current().is_none());
}
