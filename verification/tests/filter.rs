use rgx::filter::{parse_usize, split_path, FilterApp};

fn lines(v: &[&str]) -> Vec<String> {
    v.iter().map(|s| s.to_string()).collect()
}

#[test]
fn empty_pattern_keeps_every_line() {
    let f = FilterApp::new(lines(&["a", "b", "c"]), None);
    assert_eq!(f.filtered, vec![0, 1, 2]);
    assert_eq!(f.count_text(), " 3/3 lines ");
    assert_eq!(f.output_lines(), lines(&["a", "b", "c"]));
}

#[test]
fn pattern_filters_lines() {
    let mut f = FilterApp::new(lines(&["error: x", "ok", "error: y", "warn"]), None);
    for c in r"^err".chars() {
        f.insert_char(c);
    }
    assert_eq!(f.filtered, vec![0, 2]);
    assert_eq!(f.output_lines(), lines(&["error: x", "error: y"]));
    assert_eq!(f.count_text(), " 2/4 lines ");
    assert!(f.error.is_none());
}

#[test]
fn invalid_pattern_keeps_previous_lines_and_reports() {
    let mut f = FilterApp::new(lines(&["a(", "b"]), None);
    f.insert_char('a');
    assert_eq!(f.filtered, vec![0]);
    f.insert_char('(');
    assert!(f.error.as_ref().unwrap().starts_with("Regex error: "));
    assert_eq!(f.filtered, vec![0]);
    f.delete_char();
    assert!(f.error.is_none());
    assert_eq!(f.pattern, "a");
}

#[test]
fn json_field_is_matched() {
    let input = lines(&[
        r#"{"level":"error","msg":"disk"}"#,
        r#"{"level":"info","msg":"ok"}"#,
        "not json error",
        r#"{"user":{"name":"ann","tags":["x","y"]}}"#,
    ]);
    let mut f = FilterApp::new(input, Some("level".to_string()));
    for c in "error".chars() {
        f.insert_char(c);
    }
    assert_eq!(f.filtered, vec![0, 2]);
    assert_eq!(f.extract_target(r#"{"level":"warn"}"#), "warn");
    assert_eq!(f.extract_target(r#"{"other":1}"#), "");
    assert_eq!(f.extract_target("plain"), "plain");
    let nested = FilterApp::new(vec![], Some("user.tags.1".to_string()));
    assert_eq!(nested.extract_target(r#"{"user":{"name":"ann","tags":["x","y"]}}"#), "y");
    let number = FilterApp::new(vec![], Some("n".to_string()));
    assert_eq!(number.extract_target(r#"{"n":42}"#), "42");
    let object = FilterApp::new(vec![], Some("o".to_string()));
    assert_eq!(object.extract_target(r#"{"o":{"k":true}}"#), r#"{"k":true}"#);
}

#[test]
fn scrolling_and_visible_lines() {
    let mut f = FilterApp::new(lines(&["a", "b", "c", "d"]), None);
    f.scroll_down();
    f.scroll_down();
    assert_eq!(f.scroll, 2);
    assert_eq!(f.visible_lines(1), lines(&["c"]));
    assert_eq!(f.visible_lines(5), lines(&["c", "d"]));
    f.scroll_down();
    f.scroll_down();
    assert_eq!(f.scroll, 3);
    f.scroll_up();
    assert_eq!(f.scroll, 2);
    let empty = FilterApp::new(vec![], None);
    assert!(empty.visible_lines(3).is_empty());
}

#[test]
fn cursor_moves_over_characters() {
    let mut f = FilterApp::new(vec![], None);
    f.insert_char('é');
    f.insert_char('x');
    assert_eq!(f.cursor, 3);
    f.move_left();
    assert_eq!(f.cursor, 2);
    f.move_left();
    assert_eq!(f.cursor, 0);
    f.move_left();
    assert_eq!(f.cursor, 0);
    f.move_right();
    assert_eq!(f.cursor, 2);
    f.delete_char();
    assert_eq!(f.pattern, "x");
}

#[test]
fn paths_and_indexes() {
    assert_eq!(split_path("a.b.c"), lines(&["a", "b", "c"]));
    assert_eq!(split_path(""), lines(&[""]));
    assert_eq!(split_path("a..b."), lines(&["a", "", "b", ""]));
    assert_eq!(parse_usize("42"), Some(42));
    assert_eq!(parse_usize("+7"), Some(7));
    assert_eq!(parse_usize(""), None);
    assert_eq!(parse_usize("-1"), None);
    assert_eq!(parse_usize("4a"), None);
    assert_eq!(parse_usize("18446744073709551615"), Some(18446744073709551615));
    assert_eq!(parse_usize("18446744073709551616"), None);
}
