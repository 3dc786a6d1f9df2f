use rgx::app::{App, Focus, Overlay};
use rgx::filter::FilterApp;
use rgx::keys::{key_action, Action, FilterStep, Key, KeyPress, Mods};

fn mods(shift: bool, control: bool, alt: bool) -> Mods {
    Mods { shift, control, alt, other: false }
}

fn plain(key: Key) -> KeyPress {
    KeyPress { key, mods: mods(false, false, false) }
}

fn ctrl(c: char) -> KeyPress {
    KeyPress { key: Key::Char(c), mods: mods(false, true, false) }
}

fn alt(c: char) -> KeyPress {
    KeyPress { key: Key::Char(c), mods: mods(false, false, true) }
}

#[test]
fn global_bindings() {
    assert_eq!(key_action(Overlay::Off, plain(Key::Esc)), Action::Quit);
    assert_eq!(key_action(Overlay::Off, plain(Key::Tab)), Action::ToggleFocus);
    assert_eq!(key_action(Overlay::Off, ctrl('d')), Action::ToggleDebugger);
    assert_eq!(key_action(Overlay::Off, ctrl('g')), Action::ToggleCodegen);
    assert_eq!(key_action(Overlay::Off, ctrl('e')), Action::CycleEngine);
    assert_eq!(key_action(Overlay::Off, ctrl('z')), Action::Undo);
    assert_eq!(key_action(Overlay::Off, ctrl('y')), Action::Redo);
    assert_eq!(key_action(Overlay::Off, ctrl('c')), Action::CopyMatches);
    assert_eq!(key_action(Overlay::Off, alt('i')), Action::ToggleCaseInsensitive);
    assert_eq!(key_action(Overlay::Off, alt('x')), Action::ToggleExtended);
    assert_eq!(key_action(Overlay::Off, plain(Key::Char('a'))), Action::Insert('a'));
    let shifted = KeyPress { key: Key::Char('A'), mods: mods(true, false, false) };
    assert_eq!(key_action(Overlay::Off, shifted), Action::Insert('A'));
    assert_eq!(key_action(Overlay::Off, ctrl('q')), Action::Nothing);
    assert_eq!(key_action(Overlay::Off, alt('q')), Action::Nothing);
    let ctrl_alt = KeyPress { key: Key::Char('d'), mods: mods(false, true, true) };
    assert_eq!(key_action(Overlay::Off, ctrl_alt), Action::Nothing);
    let with_super = KeyPress { key: Key::Char('a'), mods: Mods { shift: false, control: false, alt: false, other: true } };
    assert_eq!(key_action(Overlay::Off, with_super), Action::Nothing);
    assert_eq!(key_action(Overlay::Off, plain(Key::Up)), Action::Nothing);
}

#[test]
fn overlay_bindings_come_first() {
    assert_eq!(key_action(Overlay::Debugger, plain(Key::Esc)), Action::ToggleDebugger);
    assert_eq!(key_action(Overlay::Debugger, plain(Key::Left)), Action::StepBack);
    assert_eq!(key_action(Overlay::Debugger, plain(Key::Right)), Action::StepForward);
    assert_eq!(key_action(Overlay::Debugger, plain(Key::Char('h'))), Action::ToggleHeatmap);
    assert_eq!(key_action(Overlay::Debugger, plain(Key::Char('H'))), Action::ToggleHeatmap);
    assert_eq!(key_action(Overlay::Debugger, plain(Key::Char('j'))), Action::Insert('j'));
    assert_eq!(key_action(Overlay::Debugger, ctrl('h')), Action::Nothing);
    assert_eq!(key_action(Overlay::CodeGen, plain(Key::Esc)), Action::ToggleCodegen);
    assert_eq!(key_action(Overlay::CodeGen, plain(Key::Left)), Action::PreviousLanguage);
    assert_eq!(key_action(Overlay::CodeGen, plain(Key::Right)), Action::NextLanguage);
    assert_eq!(key_action(Overlay::CodeGen, ctrl('c')), Action::CopyCodegen);
    assert_eq!(key_action(Overlay::CodeGen, plain(Key::Tab)), Action::ToggleFocus);
    assert_eq!(key_action(Overlay::Off, plain(Key::Left)), Action::CursorLeft);
}

#[test]
fn keys_drive_the_tester() {
    let mut app = App::new();
    for c in "a+".chars() {
        assert_eq!(app.handle_key(plain(Key::Char(c))), None);
    }
    app.handle_key(plain(Key::Tab));
    assert_eq!(app.focus, Focus::TestString);
    for c in "baaa".chars() {
        app.handle_key(plain(Key::Char(c)));
    }
    assert_eq!(app.match_count(), 1);
    assert_eq!(app.handle_key(ctrl('c')), Some("aaa".to_string()));
    app.handle_key(ctrl('g'));
    assert_eq!(app.overlay, Overlay::CodeGen);
    app.handle_key(plain(Key::Right));
    assert_eq!(app.codegen_selected, 1);
    let code = app.handle_key(ctrl('c')).unwrap();
    assert!(code.starts_with("import re"));
    app.handle_key(plain(Key::Esc));
    assert_eq!(app.overlay, Overlay::Off);
    app.handle_key(ctrl('d'));
    assert_eq!(app.overlay, Overlay::Debugger);
    app.handle_key(plain(Key::Right));
    assert_eq!(app.debug_session.as_ref().unwrap().current_step, 1);
    app.handle_key(plain(Key::Left));
    assert_eq!(app.debug_session.as_ref().unwrap().current_step, 0);
    app.handle_key(plain(Key::Char('h')));
    assert!(app.debug_session.as_ref().unwrap().heatmap_mode);
    app.handle_key(plain(Key::Esc));
    assert_eq!(app.overlay, Overlay::Off);
    assert!(!app.should_quit);
    app.handle_key(plain(Key::Esc));
    assert!(app.should_quit);
}

#[test]
fn keys_drive_the_filter() {
    let lines = vec!["apple".to_string(), "banana".to_string(), "cherry".to_string()];
    let mut f = FilterApp::new(lines, None);
    assert_eq!(f.handle_key(plain(Key::Char('a'))), FilterStep::Continue);
    assert_eq!(f.filtered, vec![0, 1]);
    assert_eq!(f.handle_key(plain(Key::Char('n'))), FilterStep::Continue);
    assert_eq!(f.filtered, vec![1]);
    f.handle_key(plain(Key::Backspace));
    assert_eq!(f.pattern, "a");
    f.handle_key(plain(Key::Down));
    assert_eq!(f.scroll, 1);
    f.handle_key(plain(Key::Down));
    assert_eq!(f.scroll, 1);
    f.handle_key(plain(Key::Up));
    assert_eq!(f.scroll, 0);
    f.handle_key(ctrl('x'));
    assert_eq!(f.pattern, "a");
    assert_eq!(f.handle_key(plain(Key::Enter)), FilterStep::Output);
    assert_eq!(f.handle_key(plain(Key::Esc)), FilterStep::Cancel);
}

#[test]
fn escape_in_an_overlay_keeps_the_inputs() {
    let mut app = App::new();
    for c in "ab".chars() {
        app.handle_key(plain(Key::Char(c)));
    }
    app.handle_key(plain(Key::Tab));
    for c in "xaby".chars() {
        app.handle_key(plain(Key::Char(c)));
    }
    app.handle_key(plain(Key::Left));
    let (regex, test) = (app.regex_input.clone(), app.test_input.clone());
    let (rc, tc) = (app.regex_cursor, app.test_cursor);
    for open in [ctrl('d'), ctrl('g')] {
        app.handle_key(open);
        assert!(!app.should_quit);
        assert_eq!(app.handle_key(plain(Key::Esc)), None);
        assert_eq!(app.overlay, Overlay::Off);
        assert!(app.debug_session.is_none());
        assert!(app.codegen_output.is_none());
        assert!(!app.should_quit);
        assert_eq!((app.regex_input.clone(), app.test_input.clone()), (regex.clone(), test.clone()));
        assert_eq!((app.regex_cursor, app.test_cursor), (rc, tc));
    }
    assert_eq!(app.focus, Focus::TestString);
}

#[test]
fn filter_backspace_and_cursor_keys() {
    let lines = vec!["apple".to_string(), "banana".to_string(), "cherry".to_string()];
    let mut f = FilterApp::new(lines, None);
    for c in "an".chars() {
        f.handle_key(plain(Key::Char(c)));
    }
    assert_eq!((f.pattern.as_str(), f.cursor), ("an", 2));
    assert_eq!(f.filtered, vec![1]);
    f.handle_key(plain(Key::Left));
    assert_eq!(f.cursor, 1);
    assert_eq!(f.filtered, vec![1]);
    f.handle_key(plain(Key::Backspace));
    assert_eq!((f.pattern.as_str(), f.cursor), ("n", 0));
    assert_eq!(f.filtered, vec![1]);
    f.handle_key(plain(Key::Backspace));
    assert_eq!((f.pattern.as_str(), f.cursor), ("n", 0));
    f.handle_key(plain(Key::Right));
    assert_eq!(f.cursor, 1);
    f.handle_key(plain(Key::Right));
    assert_eq!(f.cursor, 1);
    f.handle_key(plain(Key::Backspace));
    assert_eq!((f.pattern.as_str(), f.cursor), ("", 0));
    assert_eq!(f.filtered, vec![0, 1, 2]);
    f.handle_key(plain(Key::Char('(')));
    assert!(f.error.as_ref().unwrap().starts_with("Regex error: "));
    assert_eq!(f.filtered, vec![0, 1, 2]);
}
