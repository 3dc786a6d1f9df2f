use rgx::engine::{
    build_pattern, BasicEngine, EngineLevel, EngineManager, FancyEngine, Pcre2Engine, RegexEngine, RegexFlags,
};

fn flags(i: bool, m: bool, s: bool, u: bool, x: bool) -> RegexFlags {
    RegexFlags { case_insensitive: i, multiline: m, dot_matches_newline: s, unicode: u, extended: x }
}

fn spans(r: &rgx::engine::MatchResult) -> Vec<(usize, usize, String)> {
    r.full_matches.iter().map(|m| (m.start, m.end, m.text.clone())).collect()
}

#[test]
fn engine_cycle_and_labels() {
    assert_eq!(EngineLevel::Basic.next(), EngineLevel::Fancy);
    assert_eq!(EngineLevel::Fancy.next(), EngineLevel::Pcre2);
    assert_eq!(EngineLevel::Pcre2.next(), EngineLevel::Basic);
    assert_eq!(EngineLevel::Basic.label(), "regex");
    assert_eq!(EngineLevel::Fancy.label(), "fancy-regex");
    assert_eq!(EngineLevel::Pcre2.label(), "PCRE2");
    assert!(EngineLevel::Basic < EngineLevel::Pcre2);
}

#[test]
fn flag_prefixes() {
    assert_eq!(RegexFlags::default().as_prefix(), "(?u)");
    assert_eq!(flags(false, false, false, false, false).as_prefix(), "");
    assert_eq!(flags(true, true, true, true, true).as_prefix(), "(?imsux)");
    assert_eq!(flags(true, false, true, false, false).as_prefix(), "(?is)");
    assert_eq!(build_pattern("a.b", &flags(false, false, false, false, false)), "a.b");
    assert_eq!(build_pattern("a.b", &flags(true, false, false, true, false)), "(?iu)a.b");
}

#[test]
fn manager_follows_features_until_chosen_by_hand() {
    let mut m = EngineManager::new();
    assert_eq!(m.current_level(), EngineLevel::Basic);
    assert!(!m.is_manual());
    m.set_auto_level(EngineLevel::Pcre2);
    assert_eq!(m.current_level(), EngineLevel::Pcre2);
    m.cycle_engine();
    assert!(m.is_manual());
    assert_eq!(m.current_level(), EngineLevel::Basic);
    m.set_auto_level(EngineLevel::Fancy);
    assert_eq!(m.current_level(), EngineLevel::Basic);
    m.reset_to_auto();
    assert!(!m.is_manual());
    assert_eq!(m.current_level(), EngineLevel::Fancy);
}

#[test]
fn cycling_three_times_comes_back() {
    let mut m = EngineManager::new();
    m.set_auto_level(EngineLevel::Fancy);
    m.cycle_engine();
    m.cycle_engine();
    m.cycle_engine();
    assert_eq!(m.current_level(), EngineLevel::Fancy);
    assert!(m.is_manual());
}

#[test]
fn basic_engine_finds_matches_and_groups() {
    let r = BasicEngine.find_matches(r"(a)(x)?(\d+)", "a1 b a22", &RegexFlags::default()).unwrap();
    assert_eq!(spans(&r), vec![(0, 2, "a1".to_string()), (5, 8, "a22".to_string())]);
    assert_eq!(r.group_matches.len(), 2);
    assert_eq!(r.group_matches[0].len(), 3);
    assert!(r.group_matches[0][1].is_none());
    let g = r.group_matches[1][2].as_ref().unwrap();
    assert_eq!((g.start, g.end, g.text.as_str()), (6, 8, "22"));
    assert_eq!(BasicEngine.name(), EngineLevel::Basic);
}

#[test]
fn basic_engine_flags_and_errors() {
    let r = BasicEngine.find_matches("abc", "xABCx", &flags(true, false, false, true, false)).unwrap();
    assert_eq!(spans(&r), vec![(1, 4, "ABC".to_string())]);
    let r = BasicEngine.find_matches("abc", "xABCx", &RegexFlags::default()).unwrap();
    assert!(r.full_matches.is_empty());
    assert!(BasicEngine.find_matches("(", "x", &RegexFlags::default()).is_err());
    assert!(BasicEngine.find_matches(r"(?=x)", "x", &RegexFlags::default()).is_err());
    let r = BasicEngine.find_matches("a*", "ab", &RegexFlags::default()).unwrap();
    assert_eq!(spans(&r), vec![(0, 1, "a".to_string()), (2, 2, "".to_string())]);
}

#[test]
fn fancy_engine_lookaround_and_empty_matches() {
    let r = FancyEngine.find_matches(r"foo(?=bar)", "foobar foobaz", &RegexFlags::default()).unwrap();
    assert_eq!(spans(&r), vec![(0, 3, "foo".to_string())]);
    let r = FancyEngine.find_matches(r"(\w)\1", "aabcc", &RegexFlags::default()).unwrap();
    assert_eq!(spans(&r), vec![(0, 2, "aa".to_string()), (3, 5, "cc".to_string())]);
    assert_eq!(r.group_matches[1][0].as_ref().unwrap().text, "c");
    let r = FancyEngine.find_matches("a*", "baab", &RegexFlags::default()).unwrap();
    assert_eq!(spans(&r), vec![(1, 3, "aa".to_string())]);
    let r = FancyEngine.find_matches("ABC", "xabc", &flags(true, false, false, false, false)).unwrap();
    assert_eq!(spans(&r), vec![(1, 4, "abc".to_string())]);
    assert!(FancyEngine.find_matches("(", "x", &RegexFlags::default()).is_err());
    assert_eq!(FancyEngine.name(), EngineLevel::Fancy);
}

#[test]
fn pcre2_engine_offsets_and_text() {
    let r = Pcre2Engine.find_matches(r"(?>a+)b", "xaab ab", &RegexFlags::default()).unwrap();
    assert_eq!(spans(&r), vec![(1, 4, "aab".to_string()), (5, 7, "ab".to_string())]);
    let r = Pcre2Engine.find_matches(r"é(\w)", "aéb éc", &RegexFlags::default()).unwrap();
    assert_eq!(spans(&r), vec![(1, 4, "éb".to_string()), (5, 8, "éc".to_string())]);
    let g = r.group_matches[1][0].as_ref().unwrap();
    assert_eq!((g.start, g.end, g.text.as_str()), (7, 8, "c"));
    let r = Pcre2Engine.find_matches("x*", "axxb", &RegexFlags::default()).unwrap();
    assert_eq!(spans(&r), vec![(1, 3, "xx".to_string())]);
    assert!(Pcre2Engine.find_matches("(", "x", &RegexFlags::default()).is_err());
    assert_eq!(Pcre2Engine.name(), EngineLevel::Pcre2);
}

#[test]
fn manager_executes_with_engine_in_use() {
    let mut m = EngineManager::new();
    assert!(m.execute(r"a(?=b)", "ab", &RegexFlags::default()).is_err());
    m.set_auto_level(EngineLevel::Fancy);
    let r = m.execute(r"a(?=b)", "ab", &RegexFlags::default()).unwrap();
    assert_eq!(spans(&r), vec![(0, 1, "a".to_string())]);
    m.cycle_engine();
    let r = m.execute(r"a(?=b)", "ab", &RegexFlags::default()).unwrap();
    assert_eq!(spans(&r), vec![(0, 1, "a".to_string())]);
}

#[test]
fn every_match_has_the_same_groups() {
    let r = Pcre2Engine.find_matches(r"(a)|(b)", "ab", &RegexFlags::default()).unwrap();
    assert_eq!(r.group_matches.len(), 2);
    assert!(r.group_matches.iter().all(|g| g.len() == 2));
    assert_eq!(r.group_matches[0][0].as_ref().unwrap().text, "a");
    assert!(r.group_matches[0][1].is_none());
    assert!(r.group_matches[1][0].is_none());
    let r = BasicEngine.find_matches(r"(a)|(b)", "ba", &RegexFlags::default()).unwrap();
    assert!(r.group_matches.iter().all(|g| g.len() == 2));
    assert_eq!(r.group_matches[0][1].as_ref().unwrap().text, "b");
}

#[test]
fn basic_match_texts_are_slices() {
    let text = "naïve café";
    let r = BasicEngine.find_matches(r"\w+", text, &RegexFlags::default()).unwrap();
    for m in &r.full_matches {
        assert_eq!(m.text, &text[m.start..m.end]);
    }
    assert_eq!(spans(&r), vec![(0, 6, "naïve".to_string()), (7, 12, "café".to_string())]);
}

#[test]
fn fancy_empty_matches_step_over_whole_characters() {
    let r = FancyEngine.find_matches("x*", "éx", &RegexFlags::default()).unwrap();
    assert_eq!(spans(&r), vec![(2, 3, "x".to_string())]);
}

#[test]
fn fancy_never_searches_inside_a_character() {
    let r = FancyEngine.find_matches(r"(?!x)(.)\1|y?", "éa", &RegexFlags::default()).unwrap();
    assert!(r.full_matches.is_empty());
    let r = FancyEngine.find_matches(r"(.)\1|y?", "aéébb", &RegexFlags::default()).unwrap();
    assert_eq!(spans(&r), vec![(1, 5, "éé".to_string()), (5, 7, "bb".to_string())]);
}

#[test]
fn reset_brings_back_the_last_detected_engine() {
    let mut m = EngineManager::new();
    m.set_auto_level(EngineLevel::Fancy);
    m.cycle_engine();
    assert!(m.is_manual());
    assert_eq!(m.current_level(), EngineLevel::Pcre2);
    m.reset_to_auto();
    assert!(!m.is_manual());
    assert_eq!(m.current_level(), EngineLevel::Fancy);
}
