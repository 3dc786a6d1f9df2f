use rgx::engine::EngineLevel;
use rgx::features::{detect_features, FeatureSet};

#[test]
fn test_basic_pattern() {
    let f = detect_features(r"\d+");
    assert_eq!(f.required_engine(), EngineLevel::Basic);
}

#[test]
fn test_lookahead() {
    let f = detect_features(r"foo(?=bar)");
    assert!(f.has_lookahead);
    assert_eq!(f.required_engine(), EngineLevel::Fancy);
}

#[test]
fn test_backreference() {
    let f = detect_features(r"(\w+)\s+\1");
    assert!(f.has_backreference);
    assert_eq!(f.required_engine(), EngineLevel::Fancy);
}

#[test]
fn lookbehind_needs_fancy() {
    let f = detect_features(r"(?<=a)b");
    assert!(f.has_lookbehind);
    assert!(!f.has_lookahead);
    assert_eq!(f.required_engine(), EngineLevel::Fancy);
    let g = detect_features(r"(?<!a)b");
    assert!(g.has_lookbehind);
}

#[test]
fn atomic_conditional_recursion_need_pcre2() {
    assert!(detect_features("(?>a+)b").has_atomic_group);
    assert_eq!(detect_features("(?>a+)b").required_engine(), EngineLevel::Pcre2);
    assert!(detect_features("(?(1)a|b)").has_conditional);
    assert!(detect_features("a(?R)?b").has_recursion);
    assert!(detect_features("a(?0)?b").has_recursion);
    assert_eq!(detect_features("(?0)").required_engine(), EngineLevel::Pcre2);
}

#[test]
fn escaped_group_opener_is_no_feature() {
    let f = detect_features(r"\(?=x");
    assert!(!f.has_lookahead);
    assert_eq!(f.required_engine(), EngineLevel::Basic);
    let g = detect_features(r"\0");
    assert!(!g.has_backreference);
}

#[test]
fn named_and_noncapturing_groups_need_nothing() {
    assert_eq!(detect_features("(?:ab)(?P<x>c)(?i)d").required_engine(), EngineLevel::Basic);
}

#[test]
fn pcre2_wins_over_fancy() {
    let f = FeatureSet {
        has_lookahead: true,
        has_lookbehind: false,
        has_backreference: true,
        has_atomic_group: false,
        has_conditional: true,
        has_recursion: false,
    };
    assert_eq!(f.required_engine(), EngineLevel::Pcre2);
    let d = FeatureSet::default();
    assert_eq!(d.required_engine(), EngineLevel::Basic);
}
