use rgx::explain::{explain_fallback, explain_node, explain_pattern, explain_regex, explain_with, fallback_completes};
use rgx::syntax::{AssertKind, BracketSet, ByteSpan, ClassItem, ClassOpKind, GroupForm, LiteralForm, PerlKind, RepeatKind, SyntaxNode};

fn sp(start: usize, end: usize) -> ByteSpan {
    ByteSpan { start, end }
}

fn lit(at: usize, c: char) -> SyntaxNode {
    SyntaxNode::Literal(sp(at, at + 1), LiteralForm::Verbatim, c)
}

#[test]
fn empty_pattern_matches_everything() {
    assert_eq!(explain_regex(""), "Empty pattern: matches everything");
    assert_eq!(explain_with("", None), "Empty pattern: matches everything");
}

#[test]
fn literals_are_joined_with_then() {
    assert_eq!(explain_regex("abc"), "'a', then 'b', then 'c'");
    assert_eq!(explain_regex("x"), "'x'");
}

#[test]
fn repetitions() {
    assert_eq!(explain_regex(r"\d+"), "digit, one or more times");
    assert_eq!(explain_regex("a?"), "optionally 'a'");
    assert_eq!(explain_regex("a*?"), "'a', zero or more times (lazy)");
    assert_eq!(explain_regex("a{2,5}"), "'a', 2 to 5 times");
    assert_eq!(explain_regex("a{3,}"), "'a', 3 or more times");
    assert_eq!(explain_regex("a{4}"), "'a', exactly 4 times");
}

#[test]
fn groups_and_alternation() {
    assert_eq!(explain_regex("(a|b)"), "capture group #1: 'a' OR 'b'");
    assert_eq!(explain_regex(r"(?P<year>\d{4})"), "named capture 'year': digit, exactly 4 times");
    assert_eq!(explain_regex("(?:x)"), "non-capturing group: 'x'");
    assert_eq!(explain_regex("()"), "capture group #1: ");
}

#[test]
fn anchors_escapes_and_classes() {
    assert_eq!(explain_regex("^a$"), "start of line, then 'a', then end of line");
    assert_eq!(explain_regex(r"\."), "literal '.'");
    assert_eq!(explain_regex(r"\t"), "tab");
    assert_eq!(explain_regex(r"[^a-z\d]"), "not ['a'-'z', digit]");
    assert_eq!(explain_regex("[a-z&&b]"), "['a'-'z' and 'b']");
    assert_eq!(explain_regex(r"\pL"), "unicode class ");
    assert_eq!(explain_regex(r"\PL"), "unicode class (negated)");
    assert_eq!(explain_regex(r"\W"), "non-word character");
    assert_eq!(explain_regex("(?i)a"), "flags modifier, then 'a'");
    assert_eq!(explain_regex("."), "any character (except newline)");
}

#[test]
fn unparsable_patterns_fall_back_to_the_scan() {
    assert_eq!(
        explain_regex("(unbalanced"),
        "group start, followed by 'u', followed by 'n', followed by 'b', followed by 'a', followed by 'l', \
         followed by 'a', followed by 'n', followed by 'c', followed by 'e', followed by 'd'"
    );
    assert_eq!(
        explain_regex("a(?=b)"),
        "'a', followed by group start (optional), followed by '=', followed by 'b', followed by group end"
    );
}

#[test]
fn scan_descriptions() {
    assert_eq!(explain_fallback(""), "matches the input");
    assert_eq!(explain_fallback("é"), "'Ã', followed by '©'");
    assert_eq!(explain_fallback("[ab"), "character class [ab");
    assert_eq!(explain_fallback(r"\d\q"), "a digit, followed by literal 'q'");
    assert_eq!(explain_fallback("*a+"), "'a', one or more times");
    assert_eq!(explain_fallback("^.|$"), "start of line, followed by any character, followed by OR, followed by end of line");
    assert_eq!(explain_fallback("[a\\]"), "character class [a\\]");
}

#[test]
fn scan_that_runs_off_the_end() {
    assert!(!fallback_completes("[a\\"));
    assert!(fallback_completes("[a"));
    assert!(fallback_completes(""));
    assert_eq!(explain_pattern("[a\\"), None);
    assert_eq!(explain_pattern("x"), Some("'x'".to_string()));
    assert_eq!(explain_pattern(""), Some("Empty pattern: matches everything".to_string()));
}

#[test]
fn built_trees() {
    let rep = SyntaxNode::Repetition {
        span: sp(0, 2),
        op: sp(1, 2),
        rep: RepeatKind::ZeroOrOne,
        greedy: false,
        child: Box::new(SyntaxNode::Dot(sp(0, 1))),
    };
    assert_eq!(explain_node(&rep), "optionally any character (except newline) (lazy)");
    let class = SyntaxNode::ClassBracketed(
        sp(0, 9),
        false,
        BracketSet::BinaryOp(
            ClassOpKind::Difference,
            Box::new(BracketSet::Item(ClassItem::Perl(PerlKind::Word, false))),
            Box::new(BracketSet::Item(ClassItem::Bracketed(true, Box::new(BracketSet::Item(ClassItem::Literal('x')))))),
        ),
    );
    assert_eq!(explain_node(&class), "[word minus not('x')]");
    let concat = SyntaxNode::Concat(sp(0, 2), vec![SyntaxNode::Empty(sp(0, 0)), lit(0, 'a'), SyntaxNode::Assertion(sp(1, 2), AssertKind::Other)]);
    assert_eq!(explain_node(&concat), "'a', then assertion");
    let named = SyntaxNode::Group {
        span: sp(0, 9),
        group: GroupForm::CaptureName { index: 1, name: "n".to_string(), starts_with_p: false },
        child: Box::new(SyntaxNode::Literal(sp(5, 7), LiteralForm::Hex, 'A')),
    };
    assert_eq!(explain_node(&named), "named capture 'n': hex char 'A'");
    assert_eq!(explain_with("ab", Some(&SyntaxNode::Empty(sp(0, 0)))), "'a', followed by 'b'");
}

#[test]
fn scan_quantifiers_and_classes() {
    assert_eq!(explain_fallback(r"\d+|x"), "a digit, one or more times, followed by OR, followed by 'x'");
    assert_eq!(
        explain_fallback(r"[a-z]+\.?"),
        "character class [a-z], one or more times, followed by literal '.' (optional)"
    );
    assert_eq!(explain_fallback("[é]"), "character class [é]");
    assert_eq!(explain_fallback(r"[\é]x"), "character class [\\é], followed by 'x'");
}
