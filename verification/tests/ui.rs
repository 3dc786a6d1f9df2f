use rgx::debugger::{collect_debug_steps, DebugSession};
use rgx::engine::{EngineLevel, MatchResult, MatchSpan, RegexFlags};
use rgx::highlight::ColorName;
use rgx::ui::{
    compute_scroll, format_flags, match_segments, CodeGenPanel, DebugPanel, ExplainPanel, Look, MatchResultsWidget,
    Piece, RegexInput, Run, Segment, StatusBar, TextInput,
};

fn texts(line: &[Piece]) -> Vec<String> {
    line.iter().map(|p| p.text.clone()).collect()
}

fn fg(c: ColorName) -> Look {
    Look { fg: Some(c), bg: None, bold: false }
}

fn span(start: usize, end: usize, text: &str) -> MatchSpan {
    MatchSpan { start, end, text: text.to_string() }
}

#[test]
fn scroll_keeps_the_cursor_visible() {
    assert_eq!(compute_scroll(3, 10), 0);
    assert_eq!(compute_scroll(10, 10), 1);
    assert_eq!(compute_scroll(25, 10), 16);
    assert_eq!(compute_scroll(5, 0), 0);
}

#[test]
fn flags_text() {
    let none = RegexFlags { case_insensitive: false, multiline: false, dot_matches_newline: false, unicode: false, extended: false };
    assert_eq!(format_flags(&none), "flags: none");
    let some = RegexFlags { case_insensitive: true, multiline: false, dot_matches_newline: true, unicode: true, extended: false };
    assert_eq!(format_flags(&some), "flags: isu");
    assert_eq!(format_flags(&RegexFlags::default()), "flags: u");
}

#[test]
fn status_bar_line() {
    let flags = RegexFlags::default();
    let bar = StatusBar { engine: EngineLevel::Basic, manual_override: false, flags: &flags, match_count: 3 };
    assert_eq!(bar.engine_label(), " Engine: regex (auto) ");
    let pieces = bar.pieces();
    assert_eq!(
        texts(&pieces),
        vec![
            " Engine: regex (auto) ",
            " ",
            "flags: u",
            " │ ",
            "3 matches",
            " │ ",
            "Tab:focus C-e:engine C-d:debug C-g:code C-z/y:undo/redo C-c:copy Esc:quit"
        ]
    );
    assert_eq!(pieces[0].look, Look { fg: Some(ColorName::Black), bg: Some(ColorName::Green), bold: true });
    let manual = StatusBar { engine: EngineLevel::Pcre2, manual_override: true, flags: &flags, match_count: 0 };
    assert_eq!(manual.engine_label(), " Engine: PCRE2 (manual) ");
    assert_eq!(manual.pieces()[0].look.bg, Some(ColorName::Magenta));
}

#[test]
fn explanation_panel() {
    let empty = ExplainPanel { explanation: "" };
    assert_eq!(empty.piece().text, "Enter a regex to see explanation");
    assert_eq!(empty.piece().look, fg(ColorName::DarkGray));
    let some = ExplainPanel { explanation: "'a'" };
    assert_eq!(some.piece().text, "'a'");
    assert_eq!(some.piece().look, fg(ColorName::White));
}

#[test]
fn code_panel_lines() {
    let langs = ["Rust", "Go"];
    let panel = CodeGenPanel { selected: 1, code: "a\r\nb\n\nc\n", languages: &langs };
    let lines = panel.lines();
    assert_eq!(texts(&lines[0]), vec!["  Rust  ", " [Go] "]);
    assert_eq!(lines[0][1].look, Look { fg: Some(ColorName::Black), bg: Some(ColorName::Green), bold: true });
    assert_eq!(texts(&lines[1]), vec![""]);
    assert_eq!(texts(&lines[2]), vec!["a"]);
    assert_eq!(texts(&lines[3]), vec!["b"]);
    assert_eq!(texts(&lines[4]), vec![""]);
    assert_eq!(texts(&lines[5]), vec!["c"]);
    assert_eq!(lines[5][0].look, fg(ColorName::LightGreen));
    assert_eq!(texts(&lines[6]), vec![""]);
    assert_eq!(texts(&lines[7]), vec!["Left/Right:language  Ctrl+C:copy  Esc:close"]);
    assert_eq!(lines.len(), 8);
    let no_code = CodeGenPanel { selected: 0, code: "", languages: &langs };
    assert_eq!(no_code.lines().len(), 4);
}

#[test]
fn results_panel_lines() {
    let result = MatchResult {
        full_matches: vec![span(0, 2, "ab"), span(3, 4, "c")],
        group_matches: vec![vec![Some(span(0, 1, "a")), None], vec![]],
    };
    let w = MatchResultsWidget { test_text: "ab c", result: Some(&result), error: None };
    let lines = w.lines();
    assert_eq!(texts(&lines[0]), vec!["2 match(es) found"]);
    assert_eq!(texts(&lines[1]), vec![""]);
    assert_eq!(texts(&lines[2]), vec!["Match #1: ", "\"ab\"", " [0-2]"]);
    assert_eq!(texts(&lines[3]), vec!["  ", "Group 1: ", "\"a\"", " [0-1]"]);
    assert_eq!(lines[3][1].look, fg(ColorName::Cyan));
    assert_eq!(texts(&lines[4]), vec!["  ", "Group 2: ", "<no match>"]);
    assert_eq!(lines[4][1].look, fg(ColorName::Yellow));
    assert_eq!(texts(&lines[5]), vec!["Match #2: ", "\"c\"", " [3-4]"]);
    assert_eq!(lines.len(), 6);
    let err = MatchResultsWidget { test_text: "", result: None, error: Some("bad") };
    assert_eq!(texts(&err.lines()[0]), vec!["bad"]);
    assert_eq!(err.lines()[0][0].look, fg(ColorName::Red));
    let none = MatchResultsWidget { test_text: "", result: None, error: None };
    assert_eq!(texts(&none.lines()[0]), vec!["Enter a regex pattern to begin matching"]);
}

#[test]
fn debugger_panel_lines() {
    let steps = collect_debug_steps("ab", "ab");
    let mut session = DebugSession::new(steps);
    let total = session.total_steps();
    let panel = DebugPanel { session: &session, pattern: "ab", text: "ab" };
    assert_eq!(panel.title(), " Step Debugger ");
    let lines = panel.lines();
    assert_eq!(texts(&lines[0])[0], format!("Step 1/{}", total));
    assert_eq!(texts(&lines[0])[2], "Backtracks: 0");
    assert_eq!(texts(&lines[2]), vec!["Pattern:"]);
    assert_eq!(texts(&lines[3]), vec!["a", "b"]);
    assert_eq!(lines[3][0].look, Look { fg: Some(ColorName::Black), bg: Some(ColorName::Cyan), bold: true });
    assert_eq!(lines[3][1].look, fg(ColorName::White));
    assert_eq!(texts(&lines[5]), vec!["Text:"]);
    assert_eq!(texts(&lines[6]), vec!["a", "b"]);
    assert_eq!(texts(lines.last().unwrap()), vec!["Left/Right:step  H:heatmap  Esc:close"]);
    assert_eq!(lines.len(), 11);
    session.toggle_heatmap();
    let heat = DebugPanel { session: &session, pattern: "ab", text: "ab" };
    assert_eq!(heat.title(), " Debugger [HEATMAP] ");
    let lines = heat.lines();
    assert_eq!(texts(&lines[2]), vec!["Pattern heatmap (visit frequency):"]);
    assert_eq!(texts(&lines[3]), vec!["a", "b"]);
    assert!(matches!(lines[3][0].look.bg, Some(ColorName::Heat(_, _))));
    assert_eq!(texts(&lines[5]), vec!["  ", " low  ", "  ", " med  ", "  ", " high"]);
}

#[test]
fn input_runs() {
    let w = RegexInput { content: "a(b)", cursor: 4, focused: true, title: " Regex Pattern ", highlight_syntax: true };
    let runs = w.runs();
    let ranges: Vec<(usize, usize)> = runs.iter().map(|r| (r.start, r.end)).collect();
    assert_eq!(ranges, vec![(0, 1), (1, 2), (2, 3), (3, 4)]);
    assert_eq!(runs[0].look, fg(ColorName::White));
    assert_eq!(runs[1].look, Look { fg: Some(ColorName::Cyan), bg: Some(ColorName::Rgb(0, 35, 40)), bold: true });
    let plain = RegexInput { content: "ab", cursor: 0, focused: false, title: "", highlight_syntax: false };
    assert_eq!(plain.runs(), vec![Run { start: 0, end: 2, look: Look { fg: None, bg: None, bold: false } }]);
    assert_eq!(w.cursor_view(10), (0, Some(4)));
    assert_eq!(w.cursor_view(3), (2, Some(2)));
    assert_eq!(w.cursor_view(0), (0, None));
    assert_eq!(plain.cursor_view(10), (0, None));

    let ms = vec![span(1, 2, "b")];
    let t = TextInput { content: "abc", cursor: 0, focused: true, title: "", matches: Some(&ms) };
    let runs = t.runs();
    assert_eq!(runs.iter().map(|r| (r.start, r.end)).collect::<Vec<_>>(), vec![(0, 1), (1, 2), (2, 3)]);
    assert_eq!(runs[1].look, Look { fg: Some(ColorName::Black), bg: Some(ColorName::Yellow), bold: true });
    let wide = TextInput { content: "漢字", cursor: 3, focused: true, title: "", matches: None };
    assert_eq!(wide.runs(), vec![Run { start: 0, end: 6, look: fg(ColorName::White) }]);
    assert_eq!(wide.cursor_view(10), (0, Some(2)));
}

#[test]
fn segments_of_the_test_text() {
    let ms = vec![span(1, 2, "b"), span(2, 3, "c")];
    assert_eq!(
        match_segments("abcd", &ms),
        vec![
            Segment { start: 0, end: 1, is_match: false },
            Segment { start: 1, end: 2, is_match: true },
            Segment { start: 2, end: 3, is_match: true },
            Segment { start: 3, end: 4, is_match: false },
        ]
    );
    assert_eq!(match_segments("", &[]), vec![]);
}
