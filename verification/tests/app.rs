use rgx::app::{App, Focus, Overlay, UndoHistory, prev_char_boundary, next_char_boundary};
use rgx::engine::EngineLevel;

fn type_str(app: &mut App, s: &str) {
    for c in s.chars() {
        app.insert_char(c);
    }
}

#[test]
fn new_app_is_empty() {
    let app = App::new();
    assert_eq!(app.regex_input, "");
    assert_eq!(app.test_input, "");
    assert_eq!(app.focus, Focus::Regex);
    assert_eq!(app.overlay, Overlay::Off);
    assert_eq!(app.match_count(), 0);
    assert_eq!(app.engine_manager.current_level(), EngineLevel::Basic);
    assert!(app.copy_matches().is_none());
    assert!(app.copy_codegen().is_none());
}

#[test]
fn typing_runs_the_match() {
    let mut app = App::new();
    type_str(&mut app, r"\d+");
    app.toggle_focus();
    type_str(&mut app, "a1 b22 c333");
    assert_eq!(app.regex_cursor, 3);
    assert_eq!(app.test_cursor, 11);
    assert_eq!(app.match_count(), 3);
    assert_eq!(app.copy_matches(), Some("1\n22\n333".to_string()));
    assert!(app.last_error.is_none());
    assert_eq!(app.explanation, "digit, one or more times");
}

#[test]
fn multibyte_characters_move_the_cursor_by_their_length() {
    let mut app = App::new();
    app.toggle_focus();
    type_str(&mut app, "aé€");
    assert_eq!(app.test_cursor, 6);
    app.move_cursor_left();
    assert_eq!(app.test_cursor, 3);
    app.move_cursor_left();
    assert_eq!(app.test_cursor, 1);
    app.move_cursor_right();
    assert_eq!(app.test_cursor, 3);
    app.delete_char();
    assert_eq!(app.test_input, "a€");
    assert_eq!(app.test_cursor, 1);
    app.delete_forward();
    assert_eq!(app.test_input, "a");
    app.move_cursor_home();
    assert_eq!(app.test_cursor, 0);
    app.delete_char();
    assert_eq!(app.test_input, "a");
    app.move_cursor_end();
    assert_eq!(app.test_cursor, 1);
    app.delete_forward();
    assert_eq!(app.test_input, "a");
}

#[test]
fn undo_and_redo_restore_text_and_cursor() {
    let mut app = App::new();
    type_str(&mut app, "ab");
    app.delete_char();
    assert_eq!(app.regex_input, "a");
    app.undo();
    assert_eq!(app.regex_input, "ab");
    assert_eq!(app.regex_cursor, 2);
    app.undo();
    app.undo();
    assert_eq!(app.regex_input, "");
    assert_eq!(app.regex_cursor, 0);
    app.undo();
    assert_eq!(app.regex_input, "");
    app.redo();
    assert_eq!(app.regex_input, "a");
    app.redo();
    app.redo();
    assert_eq!(app.regex_input, "a");
    app.redo();
    assert_eq!(app.regex_input, "a");
    app.undo();
    app.insert_char('z');
    assert_eq!(app.regex_input, "abz");
    app.redo();
    assert_eq!(app.regex_input, "abz");
}

#[test]
fn history_on_its_own() {
    let mut h = UndoHistory::new();
    assert!(h.undo().is_none());
    h.push("a".to_string(), 1);
    h.push("ab".to_string(), 2);
    assert_eq!(h.undo().map(|s| s.text.clone()), Some("a".to_string()));
    assert_eq!(h.undo().map(|s| s.cursor), Some(0));
    assert!(h.undo().is_none());
    assert_eq!(h.redo().map(|s| s.text.clone()), Some("a".to_string()));
    h.push("x".to_string(), 1);
    assert!(h.redo().is_none());
}

#[test]
fn features_pick_the_engine() {
    let mut app = App::new();
    type_str(&mut app, "a(?=b)");
    assert_eq!(app.engine_manager.current_level(), EngineLevel::Fancy);
    app.toggle_focus();
    type_str(&mut app, "ab ac");
    assert_eq!(app.match_count(), 1);
    app.toggle_focus();
    app.move_cursor_home();
    app.insert_char('(');
    app.insert_char('?');
    app.insert_char('>');
    app.insert_char('x');
    app.insert_char(')');
    assert_eq!(app.regex_input, "(?>x)a(?=b)");
    assert_eq!(app.engine_manager.current_level(), EngineLevel::Pcre2);
}

#[test]
fn a_manual_engine_choice_sticks() {
    let mut app = App::new();
    app.cycle_engine();
    assert_eq!(app.engine_manager.current_level(), EngineLevel::Fancy);
    assert!(app.engine_manager.is_manual());
    type_str(&mut app, "abc");
    assert_eq!(app.engine_manager.current_level(), EngineLevel::Fancy);
}

#[test]
fn flags_change_the_matches() {
    let mut app = App::new();
    type_str(&mut app, "a");
    app.toggle_focus();
    type_str(&mut app, "aAa");
    assert_eq!(app.match_count(), 2);
    app.toggle_flag_case_insensitive();
    assert!(app.flags.case_insensitive);
    assert_eq!(app.match_count(), 3);
    app.toggle_flag_case_insensitive();
    assert_eq!(app.match_count(), 2);
}

#[test]
fn invalid_pattern_gives_an_error() {
    let mut app = App::new();
    type_str(&mut app, "(");
    assert!(app.last_result.is_none());
    assert!(app.last_error.is_some());
    assert_eq!(app.match_count(), 0);
    assert!(app.copy_matches().is_none());
    assert_eq!(app.explanation, "group start");
}

#[test]
fn codegen_overlay_follows_the_selection() {
    let mut app = App::new();
    type_str(&mut app, "x");
    app.toggle_codegen();
    assert_eq!(app.overlay, Overlay::CodeGen);
    assert!(app.codegen_output.as_ref().unwrap().starts_with("use regex::RegexBuilder;"));
    app.codegen_select_prev();
    assert_eq!(app.codegen_selected, 5);
    assert!(app.codegen_output.as_ref().unwrap().starts_with("$pattern = '/x/"));
    app.codegen_select_next();
    assert_eq!(app.codegen_selected, 0);
    app.codegen_select_next();
    assert_eq!(app.codegen_selected, 1);
    assert_eq!(app.copy_codegen(), app.codegen_output.clone());
    app.insert_char('y');
    assert!(app.codegen_output.as_ref().unwrap().contains("r'xy'"));
    app.toggle_codegen();
    assert_eq!(app.overlay, Overlay::Off);
    assert!(app.codegen_output.is_none());
}

#[test]
fn debugger_overlay_follows_the_inputs() {
    let mut app = App::new();
    type_str(&mut app, "ab");
    app.toggle_debugger();
    assert_eq!(app.overlay, Overlay::Debugger);
    let steps_before = app.debug_session.as_ref().unwrap().total_steps();
    app.toggle_focus();
    type_str(&mut app, "ab");
    let steps_after = app.debug_session.as_ref().unwrap().total_steps();
    assert!(steps_after > steps_before);
    app.toggle_debugger();
    assert_eq!(app.overlay, Overlay::Off);
    assert!(app.debug_session.is_none());
}

#[test]
fn char_boundaries() {
    let s = "aé€";
    assert_eq!(prev_char_boundary(s, 6), 3);
    assert_eq!(prev_char_boundary(s, 3), 1);
    assert_eq!(prev_char_boundary(s, 1), 0);
    assert_eq!(prev_char_boundary(s, 0), 0);
    assert_eq!(next_char_boundary(s, 0), 1);
    assert_eq!(next_char_boundary(s, 1), 3);
    assert_eq!(next_char_boundary(s, 3), 6);
}
