//! What the terminal views show, apart from drawing: the data each view
//! reads, how far an input scrolls, the status line's texts, and which
//! parts of the test text are matches.

use vstd::prelude::*;
use vstd::utf8::encode_utf8;
use crate::debugger::{DebugSession, StepView, backtracks, max_heat_of, view_steps};
use crate::engine::{EngineLevel, MatchResult, MatchSpan, RegexFlags, flag_letters, level_label};
use crate::highlight::{
    ColorName, HighlightToken, TokenStyle, group_fg, group_match_color, pattern_tokens, style_for_token, token_style,
    tokenize,
};
use crate::parser::parsed_tree;
use crate::text::{char_index, cursor_ok, decimal, push_decimal, push_str, string_from};

verus! {

/// The pattern input.
pub struct RegexInput<'a> {
    pub content: &'a str,
    pub cursor: usize,
    pub focused: bool,
    pub title: &'a str,
    pub highlight_syntax: bool,
}

/// The test-text input, with the matches to highlight.
pub struct TextInput<'a> {
    pub content: &'a str,
    pub cursor: usize,
    pub focused: bool,
    pub title: &'a str,
    pub matches: Option<&'a [MatchSpan]>,
}

/// The list of matches and their groups, or the engine's error.
pub struct MatchResultsWidget<'a> {
    pub test_text: &'a str,
    pub result: Option<&'a MatchResult>,
    pub error: Option<&'a str>,
}

/// The status line: the engine, how it was chosen, the options and the
/// number of matches.
pub struct StatusBar<'a> {
    pub engine: EngineLevel,
    pub manual_override: bool,
    pub flags: &'a RegexFlags,
    pub match_count: usize,
}

/// The step debugger's panel.
pub struct DebugPanel<'a> {
    pub session: &'a DebugSession,
    pub pattern: &'a str,
    pub text: &'a str,
}

/// The generated code's panel: the languages offered, the one selected,
/// and its code.
pub struct CodeGenPanel<'a> {
    pub selected: usize,
    pub code: &'a str,
    pub languages: &'a [&'static str],
}

/// The explanation's panel.
pub struct ExplainPanel<'a> {
    pub explanation: &'a str,
}

/// How far an input of `width` columns scrolls so that the cursor, at
/// column `cursor_pos`, stays visible.
pub open spec fn scroll_for(cursor_pos: usize, width: usize) -> usize {
    if width == 0 {
        0
    } else if cursor_pos >= width {
        (cursor_pos - width + 1) as usize
    } else {
        0
    }
}

/// How far an input of `width` columns scrolls so that the cursor stays
/// visible.
pub fn compute_scroll(cursor_pos: usize, width: usize) -> (r: usize)
    ensures
        r == scroll_for(cursor_pos, width),
{
    if width == 0 {
        return 0;
    }
    if cursor_pos >= width {
        cursor_pos - width + 1
    } else {
        0
    }
}

/// `flags: ` and the letters of the switched-on options, or `flags: none`.
pub open spec fn flags_text(f: RegexFlags) -> Seq<char> {
    if flag_letters(f).len() == 0 { "flags: none"@ } else { "flags: "@ + flag_letters(f) }
}

/// The status line's text of the options.
pub fn format_flags(flags: &RegexFlags) -> (s: String)
    ensures
        s@ == flags_text(*flags),
{
    let mut letters = String::new();
    if flags.case_insensitive {
        push_str(&mut letters, "i");
    }
    if flags.multiline {
        push_str(&mut letters, "m");
    }
    if flags.dot_matches_newline {
        push_str(&mut letters, "s");
    }
    if flags.unicode {
        push_str(&mut letters, "u");
    }
    if flags.extended {
        push_str(&mut letters, "x");
    }
    proof {
        reveal_strlit("i");
        reveal_strlit("m");
        reveal_strlit("s");
        reveal_strlit("u");
        reveal_strlit("x");
    }
    assert(letters@ =~= flag_letters(*flags));
    if letters.as_str().is_empty() {
        string_from("flags: none")
    } else {
        let mut s = string_from("flags: ");
        push_str(&mut s, letters.as_str());
        s
    }
}

/// The status line's text of the engine: its name and whether it was
/// chosen by hand.
pub open spec fn engine_label_text(engine: EngineLevel, manual: bool) -> Seq<char> {
    " Engine: "@ + level_label(engine) + (if manual { " (manual) "@ } else { " (auto) "@ })
}

impl<'a> StatusBar<'a> {
    /// The text of the engine: its name and whether it was chosen by hand.
    pub fn engine_label(&self) -> (s: String)
        ensures
            s@ == engine_label_text(self.engine, self.manual_override),
    {
        let mut s = string_from(" Engine: ");
        push_str(&mut s, self.engine.label());
        if self.manual_override {
            push_str(&mut s, " (manual) ");
        } else {
            push_str(&mut s, " (auto) ");
        }
        s
    }
}

/// The matches to highlight in the test text: the whole matches.
pub fn match_spans_for_text(result: &MatchResult) -> (r: &[MatchSpan])
    ensures
        r@ == result.full_matches@,
{
    result.full_matches.as_slice()
}

/// A piece of the test text as shown: its byte range and whether it is a
/// match.
#[derive(Debug, Clone, Copy, PartialEq, Eq, Structural)]
pub struct Segment {
    pub start: usize,
    pub end: usize,
    pub is_match: bool,
}

/// The pieces of a text of `len` bytes with the matches from `k` on after
/// position `pos`: the text before each match, the match, and the text
/// after the last.
pub open spec fn segments_from(ms: Seq<MatchSpan>, k: int, pos: usize, len: usize) -> Seq<Segment>
    decreases ms.len() - k,
{
    if k < 0 || k >= ms.len() {
        if pos < len { seq![Segment { start: pos, end: len, is_match: false }] } else { Seq::empty() }
    } else {
        let m = ms[k];
        (if m.start > pos { seq![Segment { start: pos, end: m.start, is_match: false }] } else { Seq::empty() })
            + seq![Segment { start: m.start, end: m.end, is_match: true }] + segments_from(ms, k + 1, m.end, len)
    }
}

/// How the test text is shown with its matches highlighted: the text
/// between matches plain, each match marked.
pub fn match_segments(text: &str, matches: &[MatchSpan]) -> (r: Vec<Segment>)
    ensures
        r@ == segments_from(matches@, 0, 0, encode_utf8(text@).len() as usize),
{
    let len = text.as_bytes().len();
    let ghost goal = segments_from(matches@, 0, 0, len);
    let mut r: Vec<Segment> = Vec::new();
    let mut last_end: usize = 0;
    let mut i: usize = 0;
    while i < matches.len()
        invariant
            i <= matches@.len(),
            goal == r@ + segments_from(matches@, i as int, last_end, len),
        decreases matches@.len() - i,
    {
        let m = &matches[i];
        if m.start > last_end {
            r.push(Segment { start: last_end, end: m.start, is_match: false });
        }
        r.push(Segment { start: m.start, end: m.end, is_match: true });
        last_end = m.end;
        i += 1;
        assert(goal =~= r@ + segments_from(matches@, i as int, last_end, len));
    }
    if last_end < len {
        r.push(Segment { start: last_end, end: len, is_match: false });
    }
    assert(goal =~= r@);
    r
}



// ===== Styled text =====

/// How a run of text is drawn: its colors (the terminal's own where none)
/// and whether it is bold.
#[derive(Debug, Clone, Copy, PartialEq, Eq, Structural)]
pub struct Look {
    pub fg: Option<ColorName>,
    pub bg: Option<ColorName>,
    pub bold: bool,
}

/// A run of text drawn in one look.
pub struct Piece {
    pub text: String,
    pub look: Look,
}

/// The terminal's own look.
pub open spec fn plain() -> Look {
    Look { fg: None, bg: None, bold: false }
}

/// A foreground color alone.
pub open spec fn fg_of(c: ColorName) -> Look {
    Look { fg: Some(c), bg: None, bold: false }
}

/// A piece as values: its text and look.
pub open spec fn piece_view(p: Piece) -> (Seq<char>, Look) {
    (p.text@, p.look)
}

/// A line of pieces as values.
pub open spec fn line_view(l: Seq<Piece>) -> Seq<(Seq<char>, Look)> {
    l.map_values(|p: Piece| piece_view(p))
}

/// Lines of pieces as values.
pub open spec fn lines_view(v: Seq<Vec<Piece>>) -> Seq<Seq<(Seq<char>, Look)>> {
    v.map_values(|l: Vec<Piece>| line_view(l@))
}

/// A line with one empty piece.
pub open spec fn blank_view() -> Seq<(Seq<char>, Look)> {
    seq![(Seq::empty(), plain())]
}

/// A line of one piece.
pub open spec fn one_view(t: Seq<char>, k: Look) -> Seq<(Seq<char>, Look)> {
    seq![(t, k)]
}

fn look(fg: Option<ColorName>, bg: Option<ColorName>, bold: bool) -> (k: Look)
    ensures
        k == (Look { fg, bg, bold }),
{
    Look { fg, bg, bold }
}

fn piece(t: &str, k: Look) -> (p: Piece)
    ensures
        piece_view(p) == (t@, k),
{
    Piece { text: string_from(t), look: k }
}

fn push_piece(line: &mut Vec<Piece>, p: Piece)
    ensures
        line_view(final(line)@) == line_view(old(line)@).push(piece_view(p)),
{
    let ghost pv = piece_view(p);
    line.push(p);
    assert(line_view(line@) =~= line_view(old(line)@).push(pv));
}

fn push_line(lines: &mut Vec<Vec<Piece>>, l: Vec<Piece>)
    ensures
        lines_view(final(lines)@) == lines_view(old(lines)@).push(line_view(l@)),
{
    let ghost lv = line_view(l@);
    lines.push(l);
    assert(lines_view(lines@) =~= lines_view(old(lines)@).push(lv));
}

fn one_line(t: &str, k: Look) -> (l: Vec<Piece>)
    ensures
        line_view(l@) == one_view(t@, k),
{
    let mut l: Vec<Piece> = Vec::new();
    push_piece(&mut l, piece(t, k));
    assert(line_view(l@) =~= one_view(t@, k));
    l
}

fn blank_line() -> (l: Vec<Piece>)
    ensures
        line_view(l@) == blank_view(),
{
    let mut l: Vec<Piece> = Vec::new();
    push_piece(&mut l, Piece { text: String::new(), look: look(None, None, false) });
    assert(line_view(l@) =~= blank_view());
    l
}


// ===== The status bar =====

/// The color an engine is shown in.
pub open spec fn engine_color(e: EngineLevel) -> ColorName {
    match e {
        EngineLevel::Basic => ColorName::Green,
        EngineLevel::Fancy => ColorName::Yellow,
        EngineLevel::Pcre2 => ColorName::Magenta,
    }
}

/// The keys the status bar recalls.
pub open spec fn status_help() -> Seq<char> {
    "Tab:focus C-e:engine C-d:debug C-g:code C-z/y:undo/redo C-c:copy Esc:quit"@
}

/// The status bar's line: the engine on its color, the options, the
/// number of matches and the keys.
pub open spec fn status_view(b: StatusBar) -> Seq<(Seq<char>, Look)> {
    seq![
        (engine_label_text(b.engine, b.manual_override), Look {
            fg: Some(ColorName::Black),
            bg: Some(engine_color(b.engine)),
            bold: true,
        }),
        (" "@, plain()),
        (flags_text(*b.flags), fg_of(ColorName::Cyan)),
        (" │ "@, plain()),
        (decimal(b.match_count as nat) + " matches"@, fg_of(ColorName::Green)),
        (" │ "@, plain()),
        (status_help(), fg_of(ColorName::DarkGray)),
    ]
}

impl<'a> StatusBar<'a> {
    /// The status bar's line.
    pub fn pieces(&self) -> (l: Vec<Piece>)
        ensures
            line_view(l@) == status_view(*self),
    {
        let color = match self.engine {
            EngineLevel::Basic => ColorName::Green,
            EngineLevel::Fancy => ColorName::Yellow,
            EngineLevel::Pcre2 => ColorName::Magenta,
        };
        let mut l: Vec<Piece> = Vec::new();
        push_piece(&mut l, Piece { text: self.engine_label(), look: look(Some(ColorName::Black), Some(color), true) });
        push_piece(&mut l, piece(" ", look(None, None, false)));
        push_piece(&mut l, Piece { text: format_flags(self.flags), look: look(Some(ColorName::Cyan), None, false) });
        push_piece(&mut l, piece(" │ ", look(None, None, false)));
        let mut count = String::new();
        push_decimal(&mut count, self.match_count);
        push_str(&mut count, " matches");
        push_piece(&mut l, Piece { text: count, look: look(Some(ColorName::Green), None, false) });
        push_piece(&mut l, piece(" │ ", look(None, None, false)));
        push_piece(&mut l, piece(
            "Tab:focus C-e:engine C-d:debug C-g:code C-z/y:undo/redo C-c:copy Esc:quit",
            look(Some(ColorName::DarkGray), None, false),
        ));
        assert(line_view(l@) =~= status_view(*self));
        l
    }
}


// ===== The explanation panel =====

/// The explanation's text, or a hint when there is none.
pub open spec fn explain_view(e: Seq<char>) -> (Seq<char>, Look) {
    if e.len() == 0 {
        ("Enter a regex to see explanation"@, fg_of(ColorName::DarkGray))
    } else {
        (e, fg_of(ColorName::White))
    }
}

impl<'a> ExplainPanel<'a> {
    /// The panel's text.
    pub fn piece(&self) -> (p: Piece)
        ensures
            piece_view(p) == explain_view(self.explanation@),
    {
        if self.explanation.is_empty() {
            piece("Enter a regex to see explanation", look(Some(ColorName::DarkGray), None, false))
        } else {
            piece(self.explanation, look(Some(ColorName::White), None, false))
        }
    }
}


// ===== The code generation panel =====

/// The index of the first `\n` of `s`, or its length when there is none.
pub open spec fn newline_at(s: Seq<char>) -> nat
    decreases s.len(),
{
    if s.len() == 0 {
        0
    } else if s[0] == '\n' {
        0
    } else {
        1 + newline_at(s.drop_first())
    }
}

/// A line without its trailing carriage return, if any.
pub open spec fn strip_cr(l: Seq<char>) -> Seq<char> {
    if l.len() > 0 && l.last() == '\r' { l.drop_last() } else { l }
}

/// The lines of a text (`str::lines`): split at each `\n`, a trailing
/// `\r` removed from each, no line after a final `\n`.
pub open spec fn text_lines(s: Seq<char>) -> Seq<Seq<char>>
    decreases s.len(),
{
    if s.len() == 0 {
        Seq::empty()
    } else {
        let k = newline_at(s);
        if k >= s.len() {
            seq![strip_cr(s)]
        } else {
            seq![strip_cr(s.take(k as int))] + text_lines(s.skip(k + 1 as int))
        }
    }
}

proof fn lemma_newline_at(s: Seq<char>)
    ensures
        newline_at(s) <= s.len(),
        newline_at(s) < s.len() ==> s[newline_at(s) as int] == '\n',
        forall|j: int| 0 <= j < newline_at(s) ==> s[j] != '\n',
    decreases s.len(),
{
    if s.len() > 0 && s[0] != '\n' {
        lemma_newline_at(s.drop_first());
        assert forall|j: int| 0 <= j < newline_at(s) implies s[j] != '\n' by {
            if j > 0 {
                assert(s[j] == s.drop_first()[j - 1]);
            }
        }
    }
}

proof fn lemma_newline_at_from(s: Seq<char>, k: int)
    requires
        0 <= k <= s.len(),
        k < s.len() ==> s[k] == '\n',
        forall|j: int| 0 <= j < k ==> s[j] != '\n',
    ensures
        newline_at(s) == k,
    decreases s.len(),
{
    if s.len() > 0 && k > 0 {
        assert forall|j: int| 0 <= j < k - 1 implies s.drop_first()[j] != '\n' by {
            assert(s.drop_first()[j] == s[j + 1]);
        }
        lemma_newline_at_from(s.drop_first(), k - 1);
    }
}

/// The keys the code panel recalls.
pub open spec fn codegen_help() -> Seq<char> {
    "Left/Right:language  Ctrl+C:copy  Esc:close"@
}

/// The language selector: the selected one between brackets on green,
/// the others plain white.
pub open spec fn selector_view(langs: Seq<&'static str>, selected: usize) -> Seq<(Seq<char>, Look)> {
    Seq::new(
        langs.len(),
        |i: int|
            if i == selected {
                (" ["@ + langs[i]@ + "] "@, Look { fg: Some(ColorName::Black), bg: Some(ColorName::Green), bold: true })
            } else {
                ("  "@ + langs[i]@ + "  "@, fg_of(ColorName::White))
            },
    )
}

/// The code generation panel: the selector, the code line by line in
/// light green, and the keys.
pub open spec fn codegen_view(p: CodeGenPanel) -> Seq<Seq<(Seq<char>, Look)>> {
    seq![selector_view(p.languages@, p.selected), blank_view()] + text_lines(p.code@).map_values(
        |l: Seq<char>| one_view(l, fg_of(ColorName::LightGreen)),
    ) + seq![blank_view(), one_view(codegen_help(), fg_of(ColorName::DarkGray))]
}

/// Appends the lines of a text, each as a line of one piece in the given
/// look.
fn push_text_lines(v: &mut Vec<Vec<Piece>>, text: &str, k: Look)
    ensures
        lines_view(final(v)@) == lines_view(old(v)@) + text_lines(text@).map_values(|l: Seq<char>| one_view(l, k)),
{
    let cs = crate::text::chars_of(text);
    let ghost head = lines_view(v@);
    let mut i: usize = 0;
    let ghost s = text@;
    assert(s.skip(0) =~= s);
    while i < cs.len()
        invariant
            cs@ == s,
            i <= s.len(),
            head + text_lines(s).map_values(|l: Seq<char>| one_view(l, k)) == lines_view(v@) + text_lines(
                s.skip(i as int),
            ).map_values(|l: Seq<char>| one_view(l, k)),
        decreases s.len() - i,
    {
        let start = i;
        while i < cs.len() && cs[i] != '\n'
            invariant
                cs@ == s,
                start <= i <= s.len(),
                forall|j: int| start <= j < i ==> s[j] != '\n',
            decreases s.len() - i,
        {
            i += 1;
        }
        let mut end = i;
        if end > start && cs[end - 1] == '\r' {
            end = end - 1;
        }
        let mut line = String::new();
        let mut j: usize = start;
        while j < end
            invariant
                cs@ == s,
                start <= j <= end <= s.len(),
                line@ == s.subrange(start as int, j as int),
            decreases end - j,
        {
            crate::text::push_char(&mut line, cs[j]);
            j += 1;
            assert(line@ =~= s.subrange(start as int, j as int));
        }
        proof {
            let rest = s.skip(start as int);
            let k0 = (i - start) as int;
            assert forall|q: int| 0 <= q < k0 implies rest[q] != '\n' by {
                assert(rest[q] == s[start + q]);
            }
            lemma_newline_at_from(rest, k0);
            assert(rest.take(k0) =~= s.subrange(start as int, i as int));
            assert(strip_cr(rest.take(k0)) =~= line@);
            let next = if i < s.len() { i + 1 } else { i as int };
            let f = |l: Seq<char>| one_view(l, k);
            if i < s.len() {
                assert(rest.skip(k0 + 1) =~= s.skip(next));
                assert(text_lines(rest) == seq![line@] + text_lines(s.skip(next)));
            } else {
                assert(rest.take(k0) =~= rest);
                assert(s.skip(next) =~= Seq::<char>::empty());
                assert(text_lines(s.skip(next)) =~= Seq::<Seq<char>>::empty());
                assert(text_lines(rest) =~= seq![line@] + text_lines(s.skip(next)));
            }
        }
        let mut l: Vec<Piece> = Vec::new();
        push_piece(&mut l, Piece { text: line, look: k });
        assert(line_view(l@) =~= one_view(line@, k));
        let ghost before = lines_view(v@);
        push_line(v, l);
        if i < cs.len() {
            i += 1;
        }
        assert(lines_view(v@) =~= before.push(one_view(line@, k)));
        assert(before + seq![one_view(line@, k)] =~= lines_view(v@));
        proof {
            let f = |l: Seq<char>| one_view(l, k);
            let next = s.skip(i as int);
            assert(text_lines(s.skip(start as int)).map_values(f) =~= seq![one_view(line@, k)] + text_lines(next).map_values(f));
            assert(lines_view(v@) + text_lines(next).map_values(f) =~= before + text_lines(s.skip(start as int)).map_values(f));
        }
    }
    proof {
        assert(s.skip(i as int) =~= Seq::<char>::empty());
        assert(text_lines(Seq::<char>::empty()) =~= Seq::<Seq<char>>::empty());
    }
    assert(lines_view(v@) + Seq::<Seq<(Seq<char>, Look)>>::empty() =~= lines_view(v@));
}

impl<'a> CodeGenPanel<'a> {
    /// The panel's lines.
    pub fn lines(&self) -> (v: Vec<Vec<Piece>>)
        ensures
            lines_view(v@) == codegen_view(*self),
    {
        let mut sel: Vec<Piece> = Vec::new();
        let mut i: usize = 0;
        while i < self.languages.len()
            invariant
                i <= self.languages@.len(),
                line_view(sel@) == selector_view(self.languages@, self.selected).take(i as int),
            decreases self.languages@.len() - i,
        {
            let name = self.languages[i];
            let p = if i == self.selected {
                let mut t = string_from(" [");
                push_str(&mut t, name);
                push_str(&mut t, "] ");
                Piece { text: t, look: look(Some(ColorName::Black), Some(ColorName::Green), true) }
            } else {
                let mut t = string_from("  ");
                push_str(&mut t, name);
                push_str(&mut t, "  ");
                Piece { text: t, look: look(Some(ColorName::White), None, false) }
            };
            push_piece(&mut sel, p);
            i += 1;
            assert(line_view(sel@) =~= selector_view(self.languages@, self.selected).take(i as int));
        }
        assert(selector_view(self.languages@, self.selected).take(i as int) =~= selector_view(
            self.languages@,
            self.selected,
        ));
        let mut v: Vec<Vec<Piece>> = Vec::new();
        push_line(&mut v, sel);
        push_line(&mut v, blank_line());
        push_text_lines(&mut v, self.code, look(Some(ColorName::LightGreen), None, false));
        push_line(&mut v, blank_line());
        push_line(&mut v, one_line("Left/Right:language  Ctrl+C:copy  Esc:close", look(Some(ColorName::DarkGray), None, false)));
        assert(lines_view(v@) =~= codegen_view(*self));
        v
    }
}



// ===== The matches panel =====

/// A text between double quotes.
pub open spec fn quoted(t: Seq<char>) -> Seq<char> {
    "\""@ + t + "\""@
}

/// A byte range written ` [start-end]`.
pub open spec fn range_text(start: usize, end: usize) -> Seq<char> {
    " ["@ + decimal(start as nat) + "-"@ + decimal(end as nat) + "]"@
}

/// The line of match number `idx` (from 0): its number, its text and its
/// range.
pub open spec fn match_line_view(m: MatchSpan, idx: int) -> Seq<(Seq<char>, Look)> {
    seq![
        ("Match #"@ + decimal((idx + 1) as nat) + ": "@, fg_of(ColorName::Yellow)),
        (quoted(m.text@), Look { fg: Some(ColorName::White), bg: None, bold: true }),
        (range_text(m.start, m.end), fg_of(ColorName::DarkGray)),
    ]
}

/// The line of group number `gi` (from 0) of a match, in the group's
/// color: its text and range, or that it took no part.
pub open spec fn group_line_view(g: Option<MatchSpan>, gi: int) -> Seq<(Seq<char>, Look)> {
    let c = group_fg(gi % 8);
    let head = seq![("  "@, plain()), ("Group "@ + decimal((gi + 1) as nat) + ": "@, fg_of(c))];
    match g {
        Some(sp) => head + seq![
            (quoted(sp.text@), Look { fg: Some(c), bg: None, bold: true }),
            (range_text(sp.start, sp.end), fg_of(ColorName::DarkGray)),
        ],
        None => head + seq![("<no match>"@, fg_of(ColorName::DarkGray))],
    }
}

/// The lines of match number `idx`: its own, then one per group.
pub open spec fn match_block_view(m: MatchResult, idx: int) -> Seq<Seq<(Seq<char>, Look)>> {
    seq![match_line_view(m.full_matches@[idx], idx)] + if idx < m.group_matches@.len() {
        Seq::new(m.group_matches@[idx]@.len(), |gi: int| group_line_view(m.group_matches@[idx]@[gi], gi))
    } else {
        Seq::empty()
    }
}

/// The lines of the first `n` matches.
pub open spec fn match_blocks(m: MatchResult, n: int) -> Seq<Seq<(Seq<char>, Look)>>
    decreases n,
{
    if n <= 0 {
        Seq::empty()
    } else {
        match_blocks(m, n - 1) + match_block_view(m, n - 1)
    }
}

/// The matches panel: the engine's error in red; a hint when there is no
/// result; otherwise the number of matches, then each match and its
/// groups.
pub open spec fn results_view(w: MatchResultsWidget) -> Seq<Seq<(Seq<char>, Look)>> {
    match w.error {
        Some(e) => seq![one_view(e@, fg_of(ColorName::Red))],
        None => match w.result {
            None => seq![one_view("Enter a regex pattern to begin matching"@, fg_of(ColorName::DarkGray))],
            Some(m) => seq![
                one_view(
                    decimal(m.full_matches@.len()) + " match(es) found"@,
                    Look { fg: Some(ColorName::Green), bg: None, bold: true },
                ),
                blank_view(),
            ] + match_blocks(*m, m.full_matches@.len() as int),
        },
    }
}

fn quoted_piece(t: &str, k: Look) -> (p: Piece)
    ensures
        piece_view(p) == (quoted(t@), k),
{
    let mut q = string_from("\"");
    push_str(&mut q, t);
    push_str(&mut q, "\"");
    Piece { text: q, look: k }
}

fn range_piece(start: usize, end: usize) -> (p: Piece)
    ensures
        piece_view(p) == (range_text(start, end), fg_of(ColorName::DarkGray)),
{
    let mut t = string_from(" [");
    push_decimal(&mut t, start);
    push_str(&mut t, "-");
    push_decimal(&mut t, end);
    push_str(&mut t, "]");
    Piece { text: t, look: look(Some(ColorName::DarkGray), None, false) }
}

fn numbered_piece(prefix: &str, n: usize, k: Look) -> (p: Piece)
    ensures
        piece_view(p) == (prefix@ + decimal(n as nat) + ": "@, k),
{
    let mut t = string_from(prefix);
    push_decimal(&mut t, n);
    push_str(&mut t, ": ");
    Piece { text: t, look: k }
}

fn group_line(g: &Option<MatchSpan>, gi: usize) -> (l: Vec<Piece>)
    requires
        gi < usize::MAX,
    ensures
        line_view(l@) == group_line_view(*g, gi as int),
{
    let c = group_match_color(gi);
    let mut l: Vec<Piece> = Vec::new();
    push_piece(&mut l, piece("  ", look(None, None, false)));
    push_piece(&mut l, numbered_piece("Group ", gi + 1, look(Some(c), None, false)));
    match g {
        Some(sp) => {
            push_piece(&mut l, quoted_piece(sp.text.as_str(), look(Some(c), None, true)));
            push_piece(&mut l, range_piece(sp.start, sp.end));
        },
        None => {
            push_piece(&mut l, piece("<no match>", look(Some(ColorName::DarkGray), None, false)));
        },
    }
    assert(line_view(l@) =~= group_line_view(*g, gi as int));
    l
}

impl<'a> MatchResultsWidget<'a> {
    /// The panel's lines.
    pub fn lines(&self) -> (v: Vec<Vec<Piece>>)
        ensures
            lines_view(v@) == results_view(*self),
    {
        let mut v: Vec<Vec<Piece>> = Vec::new();
        if let Some(err) = self.error {
            push_line(&mut v, one_line(err, look(Some(ColorName::Red), None, false)));
            assert(lines_view(v@) =~= results_view(*self));
            return v;
        }
        let result = match self.result {
            Some(r) => r,
            None => {
                push_line(
                    &mut v,
                    one_line("Enter a regex pattern to begin matching", look(Some(ColorName::DarkGray), None, false)),
                );
                assert(lines_view(v@) =~= results_view(*self));
                return v;
            },
        };
        let n = result.full_matches.len();
        let mut summary = String::new();
        push_decimal(&mut summary, n);
        push_str(&mut summary, " match(es) found");
        let mut first: Vec<Piece> = Vec::new();
        push_piece(&mut first, Piece { text: summary, look: look(Some(ColorName::Green), None, true) });
        assert(line_view(first@) =~= one_view(
            decimal(n as nat) + " match(es) found"@,
            Look { fg: Some(ColorName::Green), bg: None, bold: true },
        ));
        push_line(&mut v, first);
        push_line(&mut v, blank_line());
        let ghost head = lines_view(v@);
        assert(head =~= seq![
            one_view(decimal(n as nat) + " match(es) found"@, Look { fg: Some(ColorName::Green), bg: None, bold: true }),
            blank_view(),
        ]);
        let mut idx: usize = 0;
        while idx < n
            invariant
                n == result.full_matches@.len(),
                idx <= n,
                lines_view(v@) == head + match_blocks(*result, idx as int),
            decreases n - idx,
        {
            let full = &result.full_matches[idx];
            let mut l: Vec<Piece> = Vec::new();
            push_piece(&mut l, numbered_piece("Match #", idx + 1, look(Some(ColorName::Yellow), None, false)));
            push_piece(&mut l, quoted_piece(full.text.as_str(), look(Some(ColorName::White), None, true)));
            push_piece(&mut l, range_piece(full.start, full.end));
            assert(line_view(l@) =~= match_line_view(result.full_matches@[idx as int], idx as int));
            push_line(&mut v, l);
            let ghost mid = lines_view(v@);
            if idx < result.group_matches.len() {
                let groups = &result.group_matches[idx];
                let mut gi: usize = 0;
                while gi < groups.len()
                    invariant
                        gi <= groups@.len(),
                        *groups == result.group_matches@[idx as int],
                        lines_view(v@) == mid + Seq::new(
                            groups@.len(),
                            |q: int| group_line_view(groups@[q], q),
                        ).take(gi as int),
                    decreases groups@.len() - gi,
                {
                    let gl = group_line(&groups[gi], gi);
                    push_line(&mut v, gl);
                    gi += 1;
                    assert(lines_view(v@) =~= mid + Seq::new(groups@.len(), |q: int| group_line_view(groups@[q], q)).take(
                        gi as int,
                    ));
                }
                assert(Seq::new(groups@.len(), |q: int| group_line_view(groups@[q], q)).take(gi as int) =~= Seq::new(
                    groups@.len(),
                    |q: int| group_line_view(groups@[q], q),
                ));
            }
            idx += 1;
            assert(lines_view(v@) =~= head + match_blocks(*result, idx as int));
        }
        assert(lines_view(v@) =~= results_view(*self));
        v
    }
}



// ===== The debugger panel =====

/// The debugger panel's title.
pub open spec fn debug_title(heatmap_mode: bool) -> Seq<char> {
    if heatmap_mode { " Debugger [HEATMAP] "@ } else { " Step Debugger "@ }
}

/// How often the heat map saw position `i` (none: zero).
pub open spec fn heat_at(m: Map<usize, usize>, i: int) -> usize {
    if m.dom().contains(i as usize) { m[i as usize] } else { 0 }
}

/// The characters of a text one by one, the one at position `at` marked
/// bold black on the mark's color, the others white; past the end of a
/// text that is not empty, a green cell.
pub open spec fn marked_view(cs: Seq<char>, at: usize, mark: ColorName) -> Seq<(Seq<char>, Look)> {
    Seq::new(
        cs.len(),
        |i: int|
            if i == at {
                (seq![cs[i]], Look { fg: Some(ColorName::Black), bg: Some(mark), bold: true })
            } else {
                (seq![cs[i]], fg_of(ColorName::White))
            },
    ) + if at >= cs.len() && cs.len() > 0 {
        seq![(" "@, Look { fg: None, bg: Some(ColorName::Green), bold: false })]
    } else {
        Seq::empty()
    }
}

/// The characters of the pattern one by one, black on the shade of how
/// often each position was visited.
pub open spec fn heat_view(cs: Seq<char>, m: Map<usize, usize>, max: usize) -> Seq<(Seq<char>, Look)> {
    Seq::new(
        cs.len(),
        |i: int| (seq![cs[i]], Look { fg: Some(ColorName::Black), bg: Some(ColorName::Heat(heat_at(m, i), max)), bold: false }),
    )
}

/// The heat map's legend.
pub open spec fn legend_view() -> Seq<(Seq<char>, Look)> {
    seq![
        ("  "@, Look { fg: None, bg: Some(ColorName::Rgb(0, 100, 0)), bold: false }),
        (" low  "@, plain()),
        ("  "@, Look { fg: None, bg: Some(ColorName::Rgb(200, 200, 0)), bold: false }),
        (" med  "@, plain()),
        ("  "@, Look { fg: None, bg: Some(ColorName::Rgb(255, 0, 0)), bold: false }),
        (" high"@, plain()),
    ]
}

/// How a step's description is drawn: a backtrack bold red, a match green,
/// any other step yellow.
pub open spec fn step_look(s: StepView) -> Look {
    if s.is_backtrack {
        Look { fg: Some(ColorName::Red), bg: None, bold: true }
    } else if s.matched {
        fg_of(ColorName::Green)
    } else {
        fg_of(ColorName::Yellow)
    }
}

/// The keys the debugger panel recalls.
pub open spec fn debug_help() -> Seq<char> {
    "Left/Right:step  H:heatmap  Esc:close"@
}

/// The debugger panel: the step number and the count of backtracks; then
/// either the heat map of the pattern with its legend, or the pattern and
/// the text with the current step's positions marked and the step's
/// description; then the keys.
pub open spec fn debug_view(p: DebugPanel) -> Seq<Seq<(Seq<char>, Look)>> {
    seq![debug_header(*p.session), blank_view()] + debug_body(p) + seq![
        blank_view(),
        one_view(debug_help(), fg_of(ColorName::DarkGray)),
    ]
}

/// The debugger panel's first line: the step number and the count of
/// backtracks.
pub open spec fn debug_header(d: DebugSession) -> Seq<(Seq<char>, Look)> {
    seq![
        ("Step "@ + decimal((d.current_step + 1) as nat) + "/"@ + decimal(d.steps@.len()), Look {
            fg: Some(ColorName::Yellow),
            bg: None,
            bold: true,
        }),
        ("  "@, plain()),
        ("Backtracks: "@ + decimal(backtracks(view_steps(d.steps@))), fg_of(ColorName::Red)),
    ]
}

/// The middle of the debugger panel: the heat map and its legend, or the
/// current step shown on the pattern and the text.
pub open spec fn debug_body(p: DebugPanel) -> Seq<Seq<(Seq<char>, Look)>> {
    let d = *p.session;
    let steps = view_steps(d.steps@);
    if d.heatmap_mode {
        seq![
            one_view("Pattern heatmap (visit frequency):"@, fg_of(ColorName::Cyan)),
            heat_view(p.pattern@, d.heatmap@, max_heat_of(d.heatmap@)),
            blank_view(),
            legend_view(),
        ]
    } else if d.current_step < steps.len() {
        let st = steps[d.current_step as int];
        seq![
            one_view("Pattern:"@, fg_of(ColorName::Cyan)),
            marked_view(p.pattern@, st.pattern_offset, ColorName::Cyan),
            blank_view(),
            one_view("Text:"@, fg_of(ColorName::Cyan)),
            marked_view(p.text@, st.text_offset, ColorName::Yellow),
            blank_view(),
            one_view(st.description, step_look(st)),
        ]
    } else {
        Seq::empty()
    }
}

fn char_piece(c: char, k: Look) -> (p: Piece)
    ensures
        piece_view(p) == (seq![c], k),
{
    let mut t = String::new();
    crate::text::push_char(&mut t, c);
    assert(t@ =~= seq![c]);
    Piece { text: t, look: k }
}

fn marked_line(text: &str, at: usize, mark: ColorName) -> (l: Vec<Piece>)
    ensures
        line_view(l@) == marked_view(text@, at, mark),
{
    let cs = crate::text::chars_of(text);
    let ghost first = Seq::new(
        cs@.len(),
        |i: int|
            if i == at {
                (seq![cs@[i]], Look { fg: Some(ColorName::Black), bg: Some(mark), bold: true })
            } else {
                (seq![cs@[i]], fg_of(ColorName::White))
            },
    );
    let mut l: Vec<Piece> = Vec::new();
    let mut i: usize = 0;
    while i < cs.len()
        invariant
            i <= cs@.len(),
            first.len() == cs@.len(),
            forall|q: int| 0 <= q < cs@.len() ==> #[trigger] first[q] == (if q == at {
                (seq![cs@[q]], Look { fg: Some(ColorName::Black), bg: Some(mark), bold: true })
            } else {
                (seq![cs@[q]], fg_of(ColorName::White))
            }),
            line_view(l@) == first.take(i as int),
        decreases cs@.len() - i,
    {
        let p = if i == at {
            char_piece(cs[i], look(Some(ColorName::Black), Some(mark), true))
        } else {
            char_piece(cs[i], look(Some(ColorName::White), None, false))
        };
        push_piece(&mut l, p);
        i += 1;
        assert(line_view(l@) =~= first.take(i as int));
    }
    assert(first.take(i as int) =~= first);
    if at >= cs.len() && cs.len() > 0 {
        push_piece(&mut l, piece(" ", look(None, Some(ColorName::Green), false)));
    }
    assert(line_view(l@) =~= marked_view(text@, at, mark));
    l
}

impl<'a> DebugPanel<'a> {
    /// The panel's title.
    pub fn title(&self) -> (t: &'static str)
        ensures
            t@ == debug_title(self.session.heatmap_mode),
    {
        if self.session.heatmap_mode {
            " Debugger [HEATMAP] "
        } else {
            " Step Debugger "
        }
    }

    /// The panel's lines.
    pub fn lines(&self) -> (v: Vec<Vec<Piece>>)
        requires
            self.session.current_step < usize::MAX,
        ensures
            lines_view(v@) == debug_view(*self),
    {
        let d = self.session;
        let mut v: Vec<Vec<Piece>> = Vec::new();
        let mut header: Vec<Piece> = Vec::new();
        let mut t = string_from("Step ");
        push_decimal(&mut t, d.current_step + 1);
        push_str(&mut t, "/");
        push_decimal(&mut t, d.total_steps());
        push_piece(&mut header, Piece { text: t, look: look(Some(ColorName::Yellow), None, true) });
        push_piece(&mut header, piece("  ", look(None, None, false)));
        let mut b = string_from("Backtracks: ");
        push_decimal(&mut b, d.backtrack_count());
        push_piece(&mut header, Piece { text: b, look: look(Some(ColorName::Red), None, false) });
        assert(line_view(header@) =~= debug_header(*d));
        push_line(&mut v, header);
        push_line(&mut v, blank_line());
        let ghost head = lines_view(v@);
        assert(head =~= seq![debug_header(*d), blank_view()]);
        if d.heatmap_mode {
            push_line(&mut v, one_line("Pattern heatmap (visit frequency):", look(Some(ColorName::Cyan), None, false)));
            let max = d.max_heat();
            let cs = crate::text::chars_of(self.pattern);
            let ghost hv = heat_view(self.pattern@, d.heatmap@, max);
            let mut l: Vec<Piece> = Vec::new();
            let mut i: usize = 0;
            while i < cs.len()
                invariant
                    i <= cs@.len(),
                    cs@ == self.pattern@,
                    hv == heat_view(self.pattern@, d.heatmap@, max),
                    line_view(l@) == hv.take(i as int),
                decreases cs@.len() - i,
            {
                let heat: usize = match d.heatmap.get(&i) {
                    Some(h) => *h,
                    None => 0,
                };
                assert(heat == heat_at(d.heatmap@, i as int));
                push_piece(&mut l, char_piece(cs[i], look(Some(ColorName::Black), Some(ColorName::Heat(heat, max)), false)));
                i += 1;
                assert(line_view(l@) =~= hv.take(i as int));
            }
            assert(hv.take(i as int) =~= hv);
            push_line(&mut v, l);
            push_line(&mut v, blank_line());
            let mut legend: Vec<Piece> = Vec::new();
            push_piece(&mut legend, piece("  ", look(None, Some(ColorName::Rgb(0, 100, 0)), false)));
            push_piece(&mut legend, piece(" low  ", look(None, None, false)));
            push_piece(&mut legend, piece("  ", look(None, Some(ColorName::Rgb(200, 200, 0)), false)));
            push_piece(&mut legend, piece(" med  ", look(None, None, false)));
            push_piece(&mut legend, piece("  ", look(None, Some(ColorName::Rgb(255, 0, 0)), false)));
            push_piece(&mut legend, piece(" high", look(None, None, false)));
            assert(line_view(legend@) =~= legend_view());
            push_line(&mut v, legend);
            assert(lines_view(v@) =~= head + debug_body(*self));
        } else {
            match d.current() {
                Some(step) => {
                    push_line(&mut v, one_line("Pattern:", look(Some(ColorName::Cyan), None, false)));
                    push_line(&mut v, marked_line(self.pattern, step.pattern_offset, ColorName::Cyan));
                    push_line(&mut v, blank_line());
                    push_line(&mut v, one_line("Text:", look(Some(ColorName::Cyan), None, false)));
                    push_line(&mut v, marked_line(self.text, step.text_offset, ColorName::Yellow));
                    push_line(&mut v, blank_line());
                    let k = if step.is_backtrack {
                        look(Some(ColorName::Red), None, true)
                    } else if step.matched {
                        look(Some(ColorName::Green), None, false)
                    } else {
                        look(Some(ColorName::Yellow), None, false)
                    };
                    assert(k == step_look(step@));
                    push_line(&mut v, one_line(step.description.as_str(), k));
                    assert(lines_view(v@) =~= head + debug_body(*self));
                },
                None => {
                    assert(lines_view(v@) =~= head + debug_body(*self));
                },
            }
        }
        let ghost mid = lines_view(v@);
        push_line(&mut v, blank_line());
        push_line(&mut v, one_line("Left/Right:step  H:heatmap  Esc:close", look(Some(ColorName::DarkGray), None, false)));
        assert(lines_view(v@) =~= mid + seq![blank_view(), one_view(debug_help(), fg_of(ColorName::DarkGray))]);
        assert(lines_view(v@) =~= debug_view(*self));
        v
    }
}



// ===== The two inputs =====

/// A run of an input's text: its byte range and how it is drawn.
#[derive(Debug, Clone, Copy, PartialEq, Eq, Structural)]
pub struct Run {
    pub start: usize,
    pub end: usize,
    pub look: Look,
}

/// A token's style as a look.
pub open spec fn style_look(t: TokenStyle) -> Look {
    Look { fg: Some(t.fg), bg: t.bg, bold: t.bold }
}

/// The runs of a pattern of `len` bytes from token `k` on, after position
/// `last`: the text before each token white, the token in its style, the
/// rest after the last token white.
pub open spec fn token_runs(tokens: Seq<HighlightToken>, k: int, last: usize, len: usize) -> Seq<Run>
    decreases tokens.len() - k,
{
    if k < 0 || k >= tokens.len() {
        if last < len { seq![Run { start: last, end: len, look: fg_of(ColorName::White) }] } else { Seq::empty() }
    } else {
        let t = tokens[k];
        (if t.start > last {
            seq![Run { start: last, end: t.start, look: fg_of(ColorName::White) }]
        } else {
            Seq::empty()
        }) + seq![Run { start: t.start, end: t.end, look: style_look(token_style(t)) }] + token_runs(
            tokens,
            k + 1,
            t.end,
            len,
        )
    }
}

/// The runs of the pattern input: highlighted token by token when asked
/// and the pattern is not empty; otherwise the whole text plain.
pub open spec fn regex_runs(content: Seq<char>, highlight: bool) -> Seq<Run> {
    let b = encode_utf8(content);
    if highlight && b.len() > 0 {
        token_runs(pattern_tokens(b, parsed_tree(content)), 0, 0, b.len() as usize)
    } else {
        seq![Run { start: 0, end: b.len() as usize, look: plain() }]
    }
}

/// How a piece of the test text is drawn: a match bold black on yellow,
/// the rest white.
pub open spec fn segment_run(sg: Segment) -> Run {
    Run {
        start: sg.start,
        end: sg.end,
        look: if sg.is_match {
            Look { fg: Some(ColorName::Black), bg: Some(ColorName::Yellow), bold: true }
        } else {
            fg_of(ColorName::White)
        },
    }
}

/// The runs of the test-text input: the matches highlighted when there are
/// any; otherwise the whole text white.
pub open spec fn text_runs(content: Seq<char>, matches: Option<Seq<MatchSpan>>) -> Seq<Run> {
    let len = encode_utf8(content).len() as usize;
    match matches {
        Some(ms) if ms.len() > 0 => segments_from(ms, 0, 0, len).map_values(|sg: Segment| segment_run(sg)),
        _ => seq![Run { start: 0, end: len, look: fg_of(ColorName::White) }],
    }
}

/// How many terminal columns a text takes
/// (`unicode_width::UnicodeWidthStr::width`).
pub uninterp spec fn display_width(s: Seq<char>) -> usize;

/// `unicode_width::UnicodeWidthStr::width` of the text before the cursor.
/// The contract claims that the width is the crate's, a function of that
/// text.
#[verifier::external_body]
fn prefix_width(content: &str, cursor: usize) -> (w: usize)
    requires
        cursor_ok(content@, cursor),
    ensures
        w == display_width(content@.take(char_index(content@, cursor))),
{
    unicode_width::UnicodeWidthStr::width(&content[..cursor])
}

/// Where the cursor cell of a focused input is drawn, counted from the
/// input's left edge: the cursor's column less the scroll; none when the
/// input is not focused or has no width.
pub open spec fn cursor_cell(pos: usize, width: usize, focused: bool) -> Option<usize> {
    if focused && width > 0 { Some((pos - scroll_for(pos, width)) as usize) } else { None }
}

/// How an input of `width` columns shows its cursor: how far it scrolls,
/// and where the cursor cell is drawn.
pub open spec fn input_cursor(content: Seq<char>, cursor: usize, focused: bool, width: usize) -> (usize, Option<usize>) {
    let pos = display_width(content.take(char_index(content, cursor)));
    (scroll_for(pos, width), cursor_cell(pos, width, focused))
}

fn input_cursor_exec(content: &str, cursor: usize, focused: bool, width: usize) -> (r: (usize, Option<usize>))
    requires
        cursor_ok(content@, cursor),
    ensures
        r == input_cursor(content@, cursor, focused, width),
{
    let pos = prefix_width(content, cursor);
    let scroll = compute_scroll(pos, width);
    if focused && width > 0 {
        (scroll, Some(pos - scroll))
    } else {
        (scroll, None)
    }
}

impl<'a> RegexInput<'a> {
    /// The runs the pattern is drawn in.
    pub fn runs(&self) -> (r: Vec<Run>)
        requires
            encode_utf8(self.content@).len() < u32::MAX,
        ensures
            r@ == regex_runs(self.content@, self.highlight_syntax),
    {
        let len = self.content.as_bytes().len();
        let mut r: Vec<Run> = Vec::new();
        if !(self.highlight_syntax && len > 0) {
            r.push(Run { start: 0, end: len, look: look(None, None, false) });
            assert(r@ =~= regex_runs(self.content@, self.highlight_syntax));
            return r;
        }
        let tokens = tokenize(self.content);
        let ghost goal = token_runs(tokens@, 0, 0, len);
        let mut last_end: usize = 0;
        let mut i: usize = 0;
        while i < tokens.len()
            invariant
                i <= tokens@.len(),
                goal == r@ + token_runs(tokens@, i as int, last_end, len),
            decreases tokens@.len() - i,
        {
            let t = &tokens[i];
            if t.start > last_end {
                r.push(Run { start: last_end, end: t.start, look: look(Some(ColorName::White), None, false) });
            }
            let st = style_for_token(t);
            r.push(Run { start: t.start, end: t.end, look: look(Some(st.fg), st.bg, st.bold) });
            last_end = t.end;
            i += 1;
            assert(goal =~= r@ + token_runs(tokens@, i as int, last_end, len));
        }
        if last_end < len {
            r.push(Run { start: last_end, end: len, look: look(Some(ColorName::White), None, false) });
        }
        assert(goal =~= r@);
        r
    }

    /// How the input scrolls and where its cursor cell is drawn, in an area
    /// `width` columns wide.
    pub fn cursor_view(&self, width: usize) -> (r: (usize, Option<usize>))
        requires
            cursor_ok(self.content@, self.cursor),
        ensures
            r == input_cursor(self.content@, self.cursor, self.focused, width),
    {
        input_cursor_exec(self.content, self.cursor, self.focused, width)
    }
}

impl<'a> TextInput<'a> {
    /// The runs the test text is drawn in.
    pub fn runs(&self) -> (r: Vec<Run>)
        ensures
            r@ == text_runs(self.content@, match self.matches {
                Some(ms) => Some(ms@),
                None => None,
            }),
    {
        let len = self.content.as_bytes().len();
        match self.matches {
            Some(ms) => {
                if ms.len() > 0 {
                    let segs = match_segments(self.content, ms);
                    let mut r: Vec<Run> = Vec::new();
                    let mut i: usize = 0;
                    while i < segs.len()
                        invariant
                            i <= segs@.len(),
                            r@ == segs@.take(i as int).map_values(|sg: Segment| segment_run(sg)),
                        decreases segs@.len() - i,
                    {
                        let sg = segs[i];
                        let k = if sg.is_match {
                            look(Some(ColorName::Black), Some(ColorName::Yellow), true)
                        } else {
                            look(Some(ColorName::White), None, false)
                        };
                        r.push(Run { start: sg.start, end: sg.end, look: k });
                        i += 1;
                        assert(r@ =~= segs@.take(i as int).map_values(|sg: Segment| segment_run(sg)));
                    }
                    assert(segs@.take(i as int) =~= segs@);
                    return r;
                }
            },
            None => {},
        }
        let mut r: Vec<Run> = Vec::new();
        r.push(Run { start: 0, end: len, look: look(Some(ColorName::White), None, false) });
        assert(r@ =~= text_runs(self.content@, match self.matches {
            Some(ms) => Some(ms@),
            None => None,
        }));
        r
    }

    /// How the input scrolls and where its cursor cell is drawn, in an area
    /// `width` columns wide.
    pub fn cursor_view(&self, width: usize) -> (r: (usize, Option<usize>))
        requires
            cursor_ok(self.content@, self.cursor),
        ensures
            r == input_cursor(self.content@, self.cursor, self.focused, width),
    {
        input_cursor_exec(self.content, self.cursor, self.focused, width)
    }
}

} // verus!
