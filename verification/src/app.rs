//! The editing state of the tester: the two inputs with their cursors,
//! their undo histories, which one has the focus, and which overlay is open.

use vstd::prelude::*;
use vstd::utf8::{encode_utf8, is_char_boundary};
use crate::codegen::{Language, code_for, generate_code};
use crate::debugger::{DebugSession, StepView, collect_debug_steps, debug_steps, heat_of, view_steps};
use crate::engine::{
    EngineLevel, EngineManager, ManagerView, MatchResult, RegexFlags, after_cycle, after_set_auto, byte_len,
    default_flags, engine_outcome, result_captures, texts_read,
    no_empty_matches, well_formed_result,
};
use crate::explain::{explain_pattern, explanation};
use crate::features::{detect_features, engine_for, no_features, scan};
use crate::parser::parsed_tree;
use crate::text::{
    byte_offset, char_index, cursor_at, cursor_ok, delete_at_cursor, delete_before_cursor, insert_at_cursor,
    lemma_boundary_is_offset, lemma_offset_is_boundary, lemma_offset_strict, push_str, string_from,
};

verus! {

/// Which input receives the keys.
#[derive(Debug, Clone, Copy, PartialEq, Eq, Structural)]
pub enum Focus {
    Regex,
    TestString,
}

/// The panel shown over the main view, if any.
#[derive(Debug, Clone, Copy, PartialEq, Eq, Structural)]
pub enum Overlay {
    Off,
    Debugger,
    CodeGen,
}

/// The other input.
pub open spec fn other_focus(f: Focus) -> Focus {
    match f {
        Focus::Regex => Focus::TestString,
        Focus::TestString => Focus::Regex,
    }
}

// ===== Undo history =====

/// A saved input: its text and its cursor (a byte offset).
pub struct InputState {
    pub text: String,
    pub cursor: usize,
}

/// A saved input as values.
pub open spec fn state_view(s: InputState) -> (Seq<char>, usize) {
    (s.text@, s.cursor)
}

/// The saved inputs of a history, as values.
pub open spec fn states_view(v: Seq<InputState>) -> Seq<(Seq<char>, usize)> {
    v.map_values(|s: InputState| state_view(s))
}

/// The inputs of one text field, oldest first, and the one currently
/// shown; those after it can be redone.
pub struct UndoHistory {
    pub states: Vec<InputState>,
    pub current: usize,
}

/// A history as values: its saved inputs and the position shown.
pub ghost struct HistoryView {
    pub states: Seq<(Seq<char>, usize)>,
    pub current: nat,
}

impl View for UndoHistory {
    type V = HistoryView;

    open spec fn view(&self) -> HistoryView {
        HistoryView { states: states_view(self.states@), current: self.current as nat }
    }
}

/// The position shown lies within the saved inputs.
pub open spec fn history_ok(h: HistoryView) -> bool {
    h.current < h.states.len()
}

/// After saving `s`: the inputs after the one shown are dropped, and `s`
/// is added and shown.
pub open spec fn after_push(h: HistoryView, s: (Seq<char>, usize)) -> HistoryView {
    HistoryView { states: h.states.take(h.current + 1 as int).push(s), current: h.current + 1 }
}

/// After an undo: one input back, unless at the first.
pub open spec fn after_undo(h: HistoryView) -> HistoryView {
    HistoryView { states: h.states, current: if h.current > 0 { (h.current - 1) as nat } else { h.current } }
}

/// After a redo: one input forward, unless at the last.
pub open spec fn after_redo(h: HistoryView) -> HistoryView {
    HistoryView {
        states: h.states,
        current: if h.current + 1 < h.states.len() { h.current + 1 } else { h.current },
    }
}

impl UndoHistory {
    /// A history holding one empty input.
    pub fn new() -> (r: Self)
        ensures
            r@ == (HistoryView { states: seq![(Seq::<char>::empty(), 0usize)], current: 0 }),
    {
        let mut states: Vec<InputState> = Vec::new();
        states.push(InputState { text: String::new(), cursor: 0 });
        let r = UndoHistory { states, current: 0 };
        assert(r@.states =~= seq![(Seq::<char>::empty(), 0usize)]);
        r
    }

    /// Saves an input: the inputs that could be redone are dropped.
    pub fn push(&mut self, text: String, cursor: usize)
        requires
            history_ok(old(self)@),
        ensures
            final(self)@ == after_push(old(self)@, (text@, cursor)),
            history_ok(final(self)@),
    {
        let ghost tv = text@;
        assert(self.states@.len() == old(self)@.states.len());
        let count = self.states.len();
        assert(self.current < count);
        self.states.truncate(self.current + 1);
        self.states.push(InputState { text, cursor });
        self.current = self.states.len() - 1;
        assert(self@.states =~= old(self)@.states.take(old(self).current + 1 as int).push((tv, cursor)));
    }

    /// Goes back one input and returns it; none at the first.
    pub fn undo(&mut self) -> (r: Option<&InputState>)
        requires
            history_ok(old(self)@),
        ensures
            final(self)@ == after_undo(old(self)@),
            history_ok(final(self)@),
            match r {
                Some(s) => old(self).current > 0 && state_view(*s) == final(self)@.states[final(self)@.current as int],
                None => old(self).current == 0,
            },
    {
        if self.current > 0 {
            self.current -= 1;
            Some(&self.states[self.current])
        } else {
            None
        }
    }

    /// Goes forward one input and returns it; none at the last.
    pub fn redo(&mut self) -> (r: Option<&InputState>)
        requires
            history_ok(old(self)@),
        ensures
            final(self)@ == after_redo(old(self)@),
            history_ok(final(self)@),
            match r {
                Some(s) => old(self).current + 1 < old(self).states@.len() && state_view(*s)
                    == final(self)@.states[final(self)@.current as int],
                None => old(self).current + 1 >= old(self).states@.len(),
            },
    {
        assert(self.states@.len() == old(self)@.states.len());
        let n = self.states.len();
        if self.current < n - 1 {
            self.current += 1;
            Some(&self.states[self.current])
        } else {
            None
        }
    }
}

/// Undoing right after saving shows again the input shown before.
pub proof fn law_undo_after_push(h: HistoryView, s: (Seq<char>, usize))
    requires
        history_ok(h),
    ensures
        after_undo(after_push(h, s)).current == h.current,
        after_undo(after_push(h, s)).states[h.current as int] == h.states[h.current as int],
{
}

/// Redoing right after undoing comes back to the input shown before, when
/// there was one to undo.
pub proof fn law_redo_after_undo(h: HistoryView)
    requires
        history_ok(h),
        h.current > 0,
    ensures
        after_redo(after_undo(h)) == h,
{
}

/// After saving, nothing is left to redo.
pub proof fn law_push_clears_redo(h: HistoryView, s: (Seq<char>, usize))
    requires
        history_ok(h),
    ensures
        after_redo(after_push(h, s)) == after_push(h, s),
        after_push(h, s).states.last() == s,
{
}

// ===== Cursor movement over UTF-8 =====

/// The character boundary before byte `pos` of `s`: the largest boundary
/// below `pos`, or 0.
pub fn prev_char_boundary(s: &str, pos: usize) -> (p: usize)
    ensures
        pos > 0 ==> p < pos,
        pos == 0 ==> p == 0,
        p == 0 || is_char_boundary(encode_utf8(s@), p as int),
        forall|q: int| p < q < pos ==> !is_char_boundary(encode_utf8(s@), q),
{
    let mut p = pos.saturating_sub(1);
    while p > 0 && !s.is_char_boundary(p)
        invariant
            pos > 0 ==> p < pos,
            pos == 0 ==> p == 0,
            forall|q: int| p < q < pos ==> !is_char_boundary(encode_utf8(s@), q),
        decreases p,
    {
        p -= 1;
    }
    p
}

/// The character boundary after byte `pos` of `s`: the smallest boundary
/// above `pos`, or the first offset at or past the end.
pub fn next_char_boundary(s: &str, pos: usize) -> (p: usize)
    requires
        pos < usize::MAX,
    ensures
        p > pos,
        p >= encode_utf8(s@).len() ==> p == pos + 1 || p == encode_utf8(s@).len(),
        p < encode_utf8(s@).len() ==> is_char_boundary(encode_utf8(s@), p as int),
        forall|q: int| pos < q < p ==> !is_char_boundary(encode_utf8(s@), q),
{
    let mut p = pos + 1;
    let n = s.as_bytes().len();
    while p < n && !s.is_char_boundary(p)
        invariant
            p > pos,
            n == encode_utf8(s@).len(),
            p > pos + 1 ==> p <= n,
            forall|q: int| pos < q < p ==> !is_char_boundary(encode_utf8(s@), q),
        decreases n - p,
    {
        p += 1;
    }
    p
}


// ===== The tester's state =====

/// Every saved input of a history has its cursor on a character boundary.
pub open spec fn history_cursors_ok(h: HistoryView) -> bool {
    forall|i: int| 0 <= i < h.states.len() ==> cursor_ok(#[trigger] h.states[i].0, h.states[i].1)
}

/// The state of the tester, but for the clipboard, which the terminal
/// front end keeps.
pub struct App {
    pub regex_input: String,
    pub regex_cursor: usize,
    pub test_input: String,
    pub test_cursor: usize,
    pub focus: Focus,
    pub flags: RegexFlags,
    pub engine_manager: EngineManager,
    pub last_result: Option<MatchResult>,
    pub last_error: Option<String>,
    pub should_quit: bool,
    pub overlay: Overlay,
    pub debug_session: Option<DebugSession>,
    pub codegen_selected: usize,
    pub codegen_output: Option<String>,
    pub explanation: String,
    pub regex_history: UndoHistory,
    pub test_history: UndoHistory,
}

/// The language at a position of `Language::ALL`.
pub open spec fn language_at(i: int) -> Language {
    if i == 0 {
        Language::Rust
    } else if i == 1 {
        Language::Python
    } else if i == 2 {
        Language::JavaScript
    } else if i == 3 {
        Language::Go
    } else if i == 4 {
        Language::Java
    } else {
        Language::Php
    }
}

/// The outcome of running the engine in use on the inputs: nothing for an
/// empty pattern; otherwise what the engine reports, the matches (well
/// formed) or the error.
pub open spec fn match_state_ok(a: App) -> bool {
    &&& a.regex_input@.len() == 0 ==> a.last_result is None && a.last_error is None
    &&& a.regex_input@.len() > 0 ==> shows_outcome(a)
    &&& a.last_result matches Some(m) ==> well_formed_result(m, byte_len(a.test_input@))
}

/// The result or the error shown is what the engine in use reports for
/// the inputs under the options.
pub open spec fn shows_outcome(a: App) -> bool {
    match engine_outcome(a.engine_manager@.current, a.regex_input@, a.flags, a.test_input@) {
        Ok(c) => {
            &&& a.last_error is None
            &&& a.last_result matches Some(m) && result_captures(m) == c && texts_read(
                m.full_matches@,
                m.group_matches@,
                encode_utf8(a.test_input@),
            )
        },
        Err(e) => {
            &&& a.last_result is None
            &&& a.last_error matches Some(x) && x@ == e
        },
    }
}

/// The views that follow the inputs are up to date: the debugger's steps
/// while it is open, the code while it is shown.
pub open spec fn overlays_ok(a: App) -> bool {
    &&& a.overlay == Overlay::Debugger ==> (a.debug_session matches Some(d) && view_steps(d.steps@)
        == debug_steps(a.regex_input@, encode_utf8(a.regex_input@).len() as usize, a.test_input@)
        && d.heatmap@ == heat_of(view_steps(d.steps@)))
    &&& a.overlay == Overlay::CodeGen ==> (a.codegen_output matches Some(c) && c@ == code_for(
        language_at(a.codegen_selected as int),
        a.regex_input@,
        a.flags,
        a.engine_manager@.current,
    ))
}

/// The text of the input with the focus.
pub open spec fn focused_text(a: App) -> Seq<char> {
    match a.focus {
        Focus::Regex => a.regex_input@,
        Focus::TestString => a.test_input@,
    }
}

/// The cursor of the input with the focus.
pub open spec fn focused_cursor(a: App) -> usize {
    match a.focus {
        Focus::Regex => a.regex_cursor,
        Focus::TestString => a.test_cursor,
    }
}

/// The input without the focus is left as it was.
pub open spec fn other_input_kept(old: App, new: App) -> bool {
    match old.focus {
        Focus::Regex => new.test_input@ == old.test_input@ && new.test_cursor == old.test_cursor,
        Focus::TestString => new.regex_input@ == old.regex_input@ && new.regex_cursor == old.regex_cursor,
    }
}

/// Both inputs, their cursors and their histories are as they were.
pub open spec fn inputs_kept(old: App, new: App) -> bool {
    &&& new.regex_input@ == old.regex_input@
    &&& new.test_input@ == old.test_input@
    &&& new.regex_cursor == old.regex_cursor
    &&& new.test_cursor == old.test_cursor
    &&& new.regex_history@ == old.regex_history@
    &&& new.test_history@ == old.test_history@
}

/// The input without the focus, its cursor and its history are as they
/// were.
pub open spec fn unfocused_kept(old: App, new: App) -> bool {
    &&& other_input_kept(old, new)
    &&& match old.focus {
        Focus::Regex => new.test_history@ == old.test_history@,
        Focus::TestString => new.regex_history@ == old.regex_history@,
    }
}

/// The options and the engine choice are as they were.
pub open spec fn options_kept(old: App, new: App) -> bool {
    &&& new.flags == old.flags
    &&& new.engine_manager@ == old.engine_manager@
}

/// The overlay and the language selected for code are as they were.
pub open spec fn view_kept(old: App, new: App) -> bool {
    &&& new.overlay == old.overlay
    &&& new.codegen_selected == old.codegen_selected
}

/// What follows a change of the inputs: the engine the pattern's features
/// call for (unless chosen by hand, or the pattern is empty), the matches,
/// and the open view brought up to date; the rest as it was.
pub open spec fn refreshed(old: App, new: App) -> bool {
    &&& new.engine_manager@ == (if !old.engine_manager@.manual && new.regex_input@.len() > 0 {
        after_set_auto(old.engine_manager@, engine_for(scan(encode_utf8(new.regex_input@), 0, no_features())))
    } else {
        old.engine_manager@
    })
    &&& match_state_ok(new)
    &&& overlays_ok(new)
    &&& new.focus == old.focus
    &&& new.flags == old.flags
    &&& new.overlay == old.overlay
    &&& new.codegen_selected == old.codegen_selected
    &&& new.should_quit == old.should_quit
    &&& new.explanation@ == shown_explanation(new.regex_input@)
}

/// The explanation shown for a pattern: none where the byte scan it would
/// fall back on does not complete.
pub open spec fn shown_explanation(p: Seq<char>) -> Seq<char> {
    match explanation(p, parsed_tree(p)) {
        Some(t) => t,
        None => Seq::empty(),
    }
}

impl App {
    /// The cursors lie on character boundaries (those saved too), the
    /// histories' positions within them, and the language selected among
    /// the six.
    pub open spec fn wf(&self) -> bool {
        &&& cursor_ok(self.regex_input@, self.regex_cursor)
        &&& cursor_ok(self.test_input@, self.test_cursor)
        &&& history_ok(self.regex_history@)
        &&& history_ok(self.test_history@)
        &&& history_cursors_ok(self.regex_history@)
        &&& history_cursors_ok(self.test_history@)
        &&& self.codegen_selected < 6
    }

    /// Empty inputs with the focus on the pattern, default options, the
    /// basic engine chosen automatically, no overlay.
    pub fn new() -> (r: Self)
        ensures
            r.wf(),
            r.regex_input@.len() == 0 && r.regex_cursor == 0,
            r.test_input@.len() == 0 && r.test_cursor == 0,
            r.focus == Focus::Regex,
            r.flags == default_flags(),
            r.engine_manager@ == (ManagerView {
                current: EngineLevel::Basic,
                auto_detected: EngineLevel::Basic,
                manual: false,
            }),
            r.last_result is None && r.last_error is None,
            !r.should_quit,
            r.overlay == Overlay::Off,
            r.debug_session is None,
            r.codegen_selected == 0,
            r.codegen_output is None,
            r.explanation@.len() == 0,
    {
        let r = App {
            regex_input: String::new(),
            regex_cursor: 0,
            test_input: String::new(),
            test_cursor: 0,
            focus: Focus::Regex,
            flags: RegexFlags::default(),
            engine_manager: EngineManager::new(),
            last_result: None,
            last_error: None,
            should_quit: false,
            overlay: Overlay::Off,
            debug_session: None,
            codegen_selected: 0,
            codegen_output: None,
            explanation: String::new(),
            regex_history: UndoHistory::new(),
            test_history: UndoHistory::new(),
        };
        proof {
            assert(Seq::<char>::empty().take(0) =~= Seq::<char>::empty());
            assert(cursor_at(r.regex_input@, 0, 0));
            assert(cursor_at(r.test_input@, 0, 0));
            assert(cursor_at(r.regex_history@.states[0].0, r.regex_history@.states[0].1, 0));
            assert(cursor_at(r.test_history@.states[0].0, r.test_history@.states[0].1, 0));
        }
        r
    }

    /// Runs the engine in use on the inputs: nothing for an empty pattern;
    /// otherwise the matches, or the engine's error.
    pub fn run_match(&mut self)
        requires
            old(self).wf(),
        ensures
            final(self).wf(),
            match_state_ok(*final(self)),
            final(self).regex_input@ == old(self).regex_input@,
            final(self).test_input@ == old(self).test_input@,
            final(self).regex_cursor == old(self).regex_cursor,
            final(self).test_cursor == old(self).test_cursor,
            final(self).engine_manager@ == old(self).engine_manager@,
            final(self).focus == old(self).focus,
            final(self).flags == old(self).flags,
            final(self).overlay == old(self).overlay,
            final(self).debug_session == old(self).debug_session,
            final(self).codegen_selected == old(self).codegen_selected,
            final(self).codegen_output == old(self).codegen_output,
            final(self).should_quit == old(self).should_quit,
            final(self).explanation == old(self).explanation,
            final(self).regex_history@ == old(self).regex_history@,
            final(self).test_history@ == old(self).test_history@,
    {
        if self.regex_input.as_str().is_empty() {
            self.last_result = None;
            self.last_error = None;
            return;
        }
        match self.engine_manager.execute(self.regex_input.as_str(), self.test_input.as_str(), &self.flags) {
            Ok(result) => {
                self.last_result = Some(result);
                self.last_error = None;
            },
            Err(e) => {
                self.last_result = None;
                self.last_error = Some(e);
            },
        }
    }

    /// The number of matches found.
    pub fn match_count(&self) -> (r: usize)
        ensures
            r == match self.last_result {
                Some(m) => m.full_matches@.len(),
                None => 0,
            },
    {
        match &self.last_result {
            Some(r) => r.full_matches.len(),
            None => 0,
        }
    }

    fn update_codegen(&mut self)
        requires
            old(self).wf(),
        ensures
            final(self).wf(),
            final(self).codegen_output matches Some(c) && c@ == code_for(
                language_at(old(self).codegen_selected as int),
                old(self).regex_input@,
                old(self).flags,
                old(self).engine_manager@.current,
            ),
            final(self).regex_input@ == old(self).regex_input@,
            final(self).test_input@ == old(self).test_input@,
            final(self).regex_cursor == old(self).regex_cursor,
            final(self).test_cursor == old(self).test_cursor,
            final(self).engine_manager@ == old(self).engine_manager@,
            final(self).focus == old(self).focus,
            final(self).flags == old(self).flags,
            final(self).overlay == old(self).overlay,
            final(self).debug_session == old(self).debug_session,
            final(self).codegen_selected == old(self).codegen_selected,
            final(self).last_result == old(self).last_result,
            final(self).last_error == old(self).last_error,
            final(self).should_quit == old(self).should_quit,
            final(self).explanation == old(self).explanation,
            final(self).regex_history@ == old(self).regex_history@,
            final(self).test_history@ == old(self).test_history@,
    {
        let lang = language_at_exec(self.codegen_selected);
        let code = generate_code(lang, self.regex_input.as_str(), &self.flags, self.engine_manager.current_level());
        self.codegen_output = Some(code);
    }

    fn refresh_debugger(&mut self)
        requires
            old(self).wf(),
        ensures
            final(self).wf(),
            final(self).debug_session matches Some(d) && view_steps(d.steps@) == debug_steps(
                old(self).regex_input@,
                encode_utf8(old(self).regex_input@).len() as usize,
                old(self).test_input@,
            ) && d.heatmap@ == heat_of(view_steps(d.steps@)),
            final(self).regex_input@ == old(self).regex_input@,
            final(self).test_input@ == old(self).test_input@,
            final(self).regex_cursor == old(self).regex_cursor,
            final(self).test_cursor == old(self).test_cursor,
            final(self).engine_manager@ == old(self).engine_manager@,
            final(self).focus == old(self).focus,
            final(self).flags == old(self).flags,
            final(self).overlay == old(self).overlay,
            final(self).codegen_selected == old(self).codegen_selected,
            final(self).codegen_output == old(self).codegen_output,
            final(self).last_result == old(self).last_result,
            final(self).last_error == old(self).last_error,
            final(self).should_quit == old(self).should_quit,
            final(self).explanation == old(self).explanation,
            final(self).regex_history@ == old(self).regex_history@,
            final(self).test_history@ == old(self).test_history@,
    {
        let steps = collect_debug_steps(self.regex_input.as_str(), self.test_input.as_str());
        self.debug_session = Some(DebugSession::new(steps));
    }

    /// After an input changed: picks the engine from the pattern's features
    /// (unless chosen by hand, or the pattern is empty), runs it, and brings
    /// the open view up to date, and explains the pattern anew.
    fn on_input_changed(&mut self)
        requires
            old(self).wf(),
        ensures
            final(self).wf(),
            refreshed(*old(self), *final(self)),
            final(self).regex_input@ == old(self).regex_input@,
            final(self).test_input@ == old(self).test_input@,
            final(self).regex_cursor == old(self).regex_cursor,
            final(self).test_cursor == old(self).test_cursor,
            final(self).regex_history@ == old(self).regex_history@,
            final(self).test_history@ == old(self).test_history@,
    {
        if !self.engine_manager.is_manual() && !self.regex_input.as_str().is_empty() {
            let features = detect_features(self.regex_input.as_str());
            self.engine_manager.set_auto_level(features.required_engine());
        }
        self.run_match();
        self.explanation = match explain_pattern(self.regex_input.as_str()) {
            Some(e) => e,
            None => String::new(),
        };
        if self.overlay == Overlay::Debugger {
            self.refresh_debugger();
        }
        if self.overlay == Overlay::CodeGen {
            self.update_codegen();
        }
    }
}

impl App {
    /// Moves the focus to the other input.
    pub fn toggle_focus(&mut self)
        ensures
            final(self).focus == other_focus(old(self).focus),
            final(self).regex_input == old(self).regex_input,
            final(self).test_input == old(self).test_input,
            inputs_kept(*old(self), *final(self)),
            options_kept(*old(self), *final(self)),
            view_kept(*old(self), *final(self)),
            final(self).should_quit == old(self).should_quit,
            final(self).wf() == old(self).wf(),
    {
        self.focus = match self.focus {
            Focus::Regex => Focus::TestString,
            Focus::TestString => Focus::Regex,
        };
    }

    /// Moves on to the next engine by hand and runs it.
    pub fn cycle_engine(&mut self)
        requires
            old(self).wf(),
        ensures
            final(self).wf(),
            final(self).engine_manager@ == after_cycle(old(self).engine_manager@),
            match_state_ok(*final(self)),
            inputs_kept(*old(self), *final(self)),
            final(self).flags == old(self).flags,
            final(self).focus == old(self).focus,
            view_kept(*old(self), *final(self)),
            final(self).should_quit == old(self).should_quit,
    {
        self.engine_manager.cycle_engine();
        self.run_match();
    }

    /// Switches case-insensitive matching and runs the engine.
    pub fn toggle_flag_case_insensitive(&mut self)
        requires
            old(self).wf(),
        ensures
            final(self).wf(),
            final(self).flags == (RegexFlags { case_insensitive: !old(self).flags.case_insensitive, ..old(self).flags }),
            match_state_ok(*final(self)),
            inputs_kept(*old(self), *final(self)),
            final(self).engine_manager@ == old(self).engine_manager@,
            final(self).focus == old(self).focus,
            view_kept(*old(self), *final(self)),
            final(self).should_quit == old(self).should_quit,
    {
        self.flags.case_insensitive = !self.flags.case_insensitive;
        self.run_match();
    }

    /// Switches multi-line mode and runs the engine.
    pub fn toggle_flag_multiline(&mut self)
        requires
            old(self).wf(),
        ensures
            final(self).wf(),
            final(self).flags == (RegexFlags { multiline: !old(self).flags.multiline, ..old(self).flags }),
            match_state_ok(*final(self)),
            inputs_kept(*old(self), *final(self)),
            final(self).engine_manager@ == old(self).engine_manager@,
            final(self).focus == old(self).focus,
            view_kept(*old(self), *final(self)),
            final(self).should_quit == old(self).should_quit,
    {
        self.flags.multiline = !self.flags.multiline;
        self.run_match();
    }

    /// Switches whether `.` matches a newline and runs the engine.
    pub fn toggle_flag_dotall(&mut self)
        requires
            old(self).wf(),
        ensures
            final(self).wf(),
            final(self).flags == (RegexFlags {
                dot_matches_newline: !old(self).flags.dot_matches_newline,
                ..old(self).flags
            }),
            match_state_ok(*final(self)),
            inputs_kept(*old(self), *final(self)),
            final(self).engine_manager@ == old(self).engine_manager@,
            final(self).focus == old(self).focus,
            view_kept(*old(self), *final(self)),
            final(self).should_quit == old(self).should_quit,
    {
        self.flags.dot_matches_newline = !self.flags.dot_matches_newline;
        self.run_match();
    }

    /// Switches Unicode mode and runs the engine.
    pub fn toggle_flag_unicode(&mut self)
        requires
            old(self).wf(),
        ensures
            final(self).wf(),
            final(self).flags == (RegexFlags { unicode: !old(self).flags.unicode, ..old(self).flags }),
            match_state_ok(*final(self)),
            inputs_kept(*old(self), *final(self)),
            final(self).engine_manager@ == old(self).engine_manager@,
            final(self).focus == old(self).focus,
            view_kept(*old(self), *final(self)),
            final(self).should_quit == old(self).should_quit,
    {
        self.flags.unicode = !self.flags.unicode;
        self.run_match();
    }

    /// Switches extended mode (white space ignored) and runs the engine.
    pub fn toggle_flag_extended(&mut self)
        requires
            old(self).wf(),
        ensures
            final(self).wf(),
            final(self).flags == (RegexFlags { extended: !old(self).flags.extended, ..old(self).flags }),
            match_state_ok(*final(self)),
            inputs_kept(*old(self), *final(self)),
            final(self).engine_manager@ == old(self).engine_manager@,
            final(self).focus == old(self).focus,
            view_kept(*old(self), *final(self)),
            final(self).should_quit == old(self).should_quit,
    {
        self.flags.extended = !self.flags.extended;
        self.run_match();
    }

    /// Types `c` at the cursor of the input with the focus, saves the input
    /// in its history, and refreshes what follows the inputs.
    pub fn insert_char(&mut self, c: char)
        requires
            old(self).wf(),
        ensures
            final(self).wf(),
            ({
                let t = focused_text(*old(self));
                let k = char_index(t, focused_cursor(*old(self)));
                &&& focused_text(*final(self)) == t.take(k).push(c) + t.skip(k)
                &&& cursor_at(focused_text(*final(self)), focused_cursor(*final(self)), k + 1)
            }),
            unfocused_kept(*old(self), *final(self)),
            refreshed(*old(self), *final(self)),
    {
        match self.focus {
            Focus::Regex => {
                let next = insert_at_cursor(&mut self.regex_input, self.regex_cursor, c);
                self.regex_cursor = next;
                let saved = self.regex_input.clone();
                self.regex_history.push(saved, self.regex_cursor);
                proof { lemma_saved_ok(old(self).regex_history@, self.regex_input@, self.regex_cursor); }
            },
            Focus::TestString => {
                let next = insert_at_cursor(&mut self.test_input, self.test_cursor, c);
                self.test_cursor = next;
                let saved = self.test_input.clone();
                self.test_history.push(saved, self.test_cursor);
                proof { lemma_saved_ok(old(self).test_history@, self.test_input@, self.test_cursor); }
            },
        }
        self.on_input_changed();
    }

    /// Deletes the character before the cursor of the input with the focus
    /// (nothing at its start), saving the input in its history, and
    /// refreshes what follows the inputs.
    pub fn delete_char(&mut self)
        requires
            old(self).wf(),
        ensures
            final(self).wf(),
            ({
                let t = focused_text(*old(self));
                let k = char_index(t, focused_cursor(*old(self)));
                if focused_cursor(*old(self)) > 0 {
                    &&& focused_text(*final(self)) == t.take(k - 1) + t.skip(k)
                    &&& cursor_at(focused_text(*final(self)), focused_cursor(*final(self)), k - 1)
                } else {
                    &&& focused_text(*final(self)) == t
                    &&& focused_cursor(*final(self)) == 0
                }
            }),
            unfocused_kept(*old(self), *final(self)),
            refreshed(*old(self), *final(self)),
    {
        match self.focus {
            Focus::Regex => {
                if self.regex_cursor > 0 {
                    let prev = delete_before_cursor(&mut self.regex_input, self.regex_cursor);
                    self.regex_cursor = prev;
                    let saved = self.regex_input.clone();
                    self.regex_history.push(saved, self.regex_cursor);
                    proof { lemma_saved_ok(old(self).regex_history@, self.regex_input@, self.regex_cursor); }
                }
            },
            Focus::TestString => {
                if self.test_cursor > 0 {
                    let prev = delete_before_cursor(&mut self.test_input, self.test_cursor);
                    self.test_cursor = prev;
                    let saved = self.test_input.clone();
                    self.test_history.push(saved, self.test_cursor);
                    proof { lemma_saved_ok(old(self).test_history@, self.test_input@, self.test_cursor); }
                }
            },
        }
        self.on_input_changed();
    }

    /// Deletes the character at the cursor of the input with the focus
    /// (nothing at its end), saving the input in its history, and refreshes
    /// what follows the inputs.
    pub fn delete_forward(&mut self)
        requires
            old(self).wf(),
        ensures
            final(self).wf(),
            ({
                let t = focused_text(*old(self));
                let k = char_index(t, focused_cursor(*old(self)));
                &&& focused_cursor(*final(self)) == focused_cursor(*old(self))
                &&& if focused_cursor(*old(self)) < encode_utf8(t).len() {
                    &&& focused_text(*final(self)) == t.take(k) + t.skip(k + 1)
                    &&& cursor_at(focused_text(*final(self)), focused_cursor(*final(self)), k)
                } else {
                    focused_text(*final(self)) == t
                }
            }),
            unfocused_kept(*old(self), *final(self)),
            refreshed(*old(self), *final(self)),
    {
        match self.focus {
            Focus::Regex => {
                let len = self.regex_input.as_str().as_bytes().len();
                if self.regex_cursor < len {
                    delete_at_cursor(&mut self.regex_input, self.regex_cursor);
                    let saved = self.regex_input.clone();
                    self.regex_history.push(saved, self.regex_cursor);
                    proof { lemma_saved_ok(old(self).regex_history@, self.regex_input@, self.regex_cursor); }
                }
            },
            Focus::TestString => {
                let len = self.test_input.as_str().as_bytes().len();
                if self.test_cursor < len {
                    delete_at_cursor(&mut self.test_input, self.test_cursor);
                    let saved = self.test_input.clone();
                    self.test_history.push(saved, self.test_cursor);
                    proof { lemma_saved_ok(old(self).test_history@, self.test_input@, self.test_cursor); }
                }
            },
        }
        self.on_input_changed();
    }
}

impl App {
    /// Brings back the previous saved input of the input with the focus
    /// (if there is one), and refreshes what follows the inputs.
    pub fn undo(&mut self)
        requires
            old(self).wf(),
        ensures
            final(self).wf(),
            match old(self).focus {
                Focus::Regex => {
                    let h = after_undo(old(self).regex_history@);
                    &&& final(self).regex_history@ == h
                    &&& old(self).regex_history@.current > 0 ==> (final(self).regex_input@, final(self).regex_cursor)
                        == h.states[h.current as int]
                    &&& old(self).regex_history@.current == 0 ==> final(self).regex_input@ == old(self).regex_input@
                        && final(self).regex_cursor == old(self).regex_cursor
                },
                Focus::TestString => {
                    let h = after_undo(old(self).test_history@);
                    &&& final(self).test_history@ == h
                    &&& old(self).test_history@.current > 0 ==> (final(self).test_input@, final(self).test_cursor)
                        == h.states[h.current as int]
                    &&& old(self).test_history@.current == 0 ==> final(self).test_input@ == old(self).test_input@
                        && final(self).test_cursor == old(self).test_cursor
                },
            },
            unfocused_kept(*old(self), *final(self)),
            refreshed(*old(self), *final(self)),
    {
        match self.focus {
            Focus::Regex => {
                let restored: Option<(String, usize)> = match self.regex_history.undo() {
                    Some(state) => Some((state.text.clone(), state.cursor)),
                    None => None,
                };
                match restored {
                    Some((text, cursor)) => {
                        proof {
                            let h = self.regex_history@;
                            assert(cursor_ok(h.states[h.current as int].0, h.states[h.current as int].1));
                        }
                        self.regex_input = text;
                        self.regex_cursor = cursor;
                    },
                    None => {},
                }
            },
            Focus::TestString => {
                let restored: Option<(String, usize)> = match self.test_history.undo() {
                    Some(state) => Some((state.text.clone(), state.cursor)),
                    None => None,
                };
                match restored {
                    Some((text, cursor)) => {
                        proof {
                            let h = self.test_history@;
                            assert(cursor_ok(h.states[h.current as int].0, h.states[h.current as int].1));
                        }
                        self.test_input = text;
                        self.test_cursor = cursor;
                    },
                    None => {},
                }
            },
        }
        self.on_input_changed();
    }

    /// Brings back the next saved input of the input with the focus (if
    /// there is one), and refreshes what follows the inputs.
    pub fn redo(&mut self)
        requires
            old(self).wf(),
        ensures
            final(self).wf(),
            match old(self).focus {
                Focus::Regex => {
                    let h = after_redo(old(self).regex_history@);
                    &&& final(self).regex_history@ == h
                    &&& old(self).regex_history@.current + 1 < old(self).regex_history@.states.len() ==> (
                    final(self).regex_input@, final(self).regex_cursor) == h.states[h.current as int]
                    &&& old(self).regex_history@.current + 1 >= old(self).regex_history@.states.len()
                        ==> final(self).regex_input@ == old(self).regex_input@ && final(self).regex_cursor
                        == old(self).regex_cursor
                },
                Focus::TestString => {
                    let h = after_redo(old(self).test_history@);
                    &&& final(self).test_history@ == h
                    &&& old(self).test_history@.current + 1 < old(self).test_history@.states.len() ==> (
                    final(self).test_input@, final(self).test_cursor) == h.states[h.current as int]
                    &&& old(self).test_history@.current + 1 >= old(self).test_history@.states.len()
                        ==> final(self).test_input@ == old(self).test_input@ && final(self).test_cursor
                        == old(self).test_cursor
                },
            },
            unfocused_kept(*old(self), *final(self)),
            refreshed(*old(self), *final(self)),
    {
        match self.focus {
            Focus::Regex => {
                let restored: Option<(String, usize)> = match self.regex_history.redo() {
                    Some(state) => Some((state.text.clone(), state.cursor)),
                    None => None,
                };
                match restored {
                    Some((text, cursor)) => {
                        proof {
                            let h = self.regex_history@;
                            assert(cursor_ok(h.states[h.current as int].0, h.states[h.current as int].1));
                        }
                        self.regex_input = text;
                        self.regex_cursor = cursor;
                    },
                    None => {},
                }
            },
            Focus::TestString => {
                let restored: Option<(String, usize)> = match self.test_history.redo() {
                    Some(state) => Some((state.text.clone(), state.cursor)),
                    None => None,
                };
                match restored {
                    Some((text, cursor)) => {
                        proof {
                            let h = self.test_history@;
                            assert(cursor_ok(h.states[h.current as int].0, h.states[h.current as int].1));
                        }
                        self.test_input = text;
                        self.test_cursor = cursor;
                    },
                    None => {},
                }
            },
        }
        self.on_input_changed();
    }

    /// The text to copy: every match's text, one per line; none when
    /// nothing was matched.
    pub fn copy_matches(&self) -> (r: Option<String>)
        ensures
            match self.last_result {
                Some(m) => r matches Some(t) && t@ == crate::codegen::join_seq(
                    span_texts(m.full_matches@),
                    seq!['\n'],
                ),
                None => r is None,
            },
    {
        match &self.last_result {
            Some(result) => {
                let mut out = String::new();
                let mut i: usize = 0;
                let ghost texts = span_texts(result.full_matches@);
                while i < result.full_matches.len()
                    invariant
                        i <= result.full_matches@.len(),
                        texts == span_texts(result.full_matches@),
                        out@ == crate::codegen::join_seq(texts.take(i as int), seq!['\n']),
                    decreases result.full_matches@.len() - i,
                {
                    let ghost before = texts.take(i as int);
                    if i > 0 {
                        crate::text::push_char(&mut out, '\n');
                    }
                    push_str(&mut out, result.full_matches[i].text.as_str());
                    i += 1;
                    assert(texts.take(i as int).drop_last() =~= before);
                    assert(out@ =~= crate::codegen::join_seq(texts.take(i as int), seq!['\n']));
                }
                assert(texts.take(i as int) =~= texts);
                Some(out)
            },
            None => None,
        }
    }

    /// Moves the cursor of the input with the focus one character left
    /// (not past the start).
    pub fn move_cursor_left(&mut self)
        requires
            old(self).wf(),
        ensures
            final(self).wf(),
            focused_text(*final(self)) == focused_text(*old(self)),
            focused_cursor(*old(self)) > 0 ==> cursor_at(
                focused_text(*old(self)),
                focused_cursor(*final(self)),
                char_index(focused_text(*old(self)), focused_cursor(*old(self))) - 1,
            ),
            focused_cursor(*old(self)) == 0 ==> focused_cursor(*final(self)) == 0,
            other_input_kept(*old(self), *final(self)),
            final(self).regex_history@ == old(self).regex_history@,
            final(self).test_history@ == old(self).test_history@,
            final(self).focus == old(self).focus,
            options_kept(*old(self), *final(self)),
            view_kept(*old(self), *final(self)),
            final(self).should_quit == old(self).should_quit,
    {
        match self.focus {
            Focus::Regex => {
                if self.regex_cursor > 0 {
                    let p = crate::app::prev_char_boundary(self.regex_input.as_str(), self.regex_cursor);
                    proof { lemma_prev_boundary(self.regex_input@, self.regex_cursor, p); }
                    self.regex_cursor = p;
                }
            },
            Focus::TestString => {
                if self.test_cursor > 0 {
                    let p = crate::app::prev_char_boundary(self.test_input.as_str(), self.test_cursor);
                    proof { lemma_prev_boundary(self.test_input@, self.test_cursor, p); }
                    self.test_cursor = p;
                }
            },
        }
    }

    /// Moves the cursor of the input with the focus one character right
    /// (not past the end).
    pub fn move_cursor_right(&mut self)
        requires
            old(self).wf(),
        ensures
            final(self).wf(),
            focused_text(*final(self)) == focused_text(*old(self)),
            focused_cursor(*old(self)) < encode_utf8(focused_text(*old(self))).len() ==> cursor_at(
                focused_text(*old(self)),
                focused_cursor(*final(self)),
                char_index(focused_text(*old(self)), focused_cursor(*old(self))) + 1,
            ),
            focused_cursor(*old(self)) >= encode_utf8(focused_text(*old(self))).len() ==> focused_cursor(
                *final(self),
            ) == focused_cursor(*old(self)),
            other_input_kept(*old(self), *final(self)),
            final(self).regex_history@ == old(self).regex_history@,
            final(self).test_history@ == old(self).test_history@,
            final(self).focus == old(self).focus,
            options_kept(*old(self), *final(self)),
            view_kept(*old(self), *final(self)),
            final(self).should_quit == old(self).should_quit,
    {
        match self.focus {
            Focus::Regex => {
                let len = self.regex_input.as_str().as_bytes().len();
                if self.regex_cursor < len {
                    let p = crate::app::next_char_boundary(self.regex_input.as_str(), self.regex_cursor);
                    proof { lemma_next_boundary(self.regex_input@, self.regex_cursor, p); }
                    self.regex_cursor = p;
                }
            },
            Focus::TestString => {
                let len = self.test_input.as_str().as_bytes().len();
                if self.test_cursor < len {
                    let p = crate::app::next_char_boundary(self.test_input.as_str(), self.test_cursor);
                    proof { lemma_next_boundary(self.test_input@, self.test_cursor, p); }
                    self.test_cursor = p;
                }
            },
        }
    }

    /// Moves the cursor of the input with the focus to its start.
    pub fn move_cursor_home(&mut self)
        requires
            old(self).wf(),
        ensures
            final(self).wf(),
            focused_text(*final(self)) == focused_text(*old(self)),
            focused_cursor(*final(self)) == 0,
            other_input_kept(*old(self), *final(self)),
            final(self).regex_history@ == old(self).regex_history@,
            final(self).test_history@ == old(self).test_history@,
            final(self).focus == old(self).focus,
            options_kept(*old(self), *final(self)),
            view_kept(*old(self), *final(self)),
            final(self).should_quit == old(self).should_quit,
    {
        proof {
            assert(self.regex_input@.take(0) =~= Seq::<char>::empty());
            assert(cursor_at(self.regex_input@, 0, 0));
            assert(self.test_input@.take(0) =~= Seq::<char>::empty());
            assert(cursor_at(self.test_input@, 0, 0));
        }
        match self.focus {
            Focus::Regex => self.regex_cursor = 0,
            Focus::TestString => self.test_cursor = 0,
        }
    }

    /// Moves the cursor of the input with the focus to its end.
    pub fn move_cursor_end(&mut self)
        requires
            old(self).wf(),
        ensures
            final(self).wf(),
            focused_text(*final(self)) == focused_text(*old(self)),
            focused_cursor(*final(self)) == encode_utf8(focused_text(*old(self))).len(),
            other_input_kept(*old(self), *final(self)),
            final(self).regex_history@ == old(self).regex_history@,
            final(self).test_history@ == old(self).test_history@,
            final(self).focus == old(self).focus,
            options_kept(*old(self), *final(self)),
            view_kept(*old(self), *final(self)),
            final(self).should_quit == old(self).should_quit,
    {
        proof {
            assert(self.regex_input@.take(self.regex_input@.len() as int) =~= self.regex_input@);
            assert(self.test_input@.take(self.test_input@.len() as int) =~= self.test_input@);
        }
        match self.focus {
            Focus::Regex => {
                self.regex_cursor = self.regex_input.as_str().as_bytes().len();
                assert(cursor_at(self.regex_input@, self.regex_cursor, self.regex_input@.len() as int));
            },
            Focus::TestString => {
                self.test_cursor = self.test_input.as_str().as_bytes().len();
                assert(cursor_at(self.test_input@, self.test_cursor, self.test_input@.len() as int));
            },
        }
    }
}

impl App {
    /// Opens the step debugger on the inputs, or closes it.
    pub fn toggle_debugger(&mut self)
        requires
            old(self).wf(),
        ensures
            final(self).wf(),
            old(self).overlay == Overlay::Debugger ==> final(self).overlay == Overlay::Off
                && final(self).debug_session is None,
            old(self).overlay != Overlay::Debugger ==> final(self).overlay == Overlay::Debugger && overlays_ok(
                *final(self),
            ),
            inputs_kept(*old(self), *final(self)),
            options_kept(*old(self), *final(self)),
            final(self).focus == old(self).focus,
            final(self).codegen_selected == old(self).codegen_selected,
            final(self).should_quit == old(self).should_quit,
    {
        if self.overlay == Overlay::Debugger {
            self.overlay = Overlay::Off;
            self.debug_session = None;
        } else {
            self.overlay = Overlay::Debugger;
            self.refresh_debugger();
        }
    }

    /// Opens the code generator on the pattern, or closes it.
    pub fn toggle_codegen(&mut self)
        requires
            old(self).wf(),
        ensures
            final(self).wf(),
            old(self).overlay == Overlay::CodeGen ==> final(self).overlay == Overlay::Off
                && final(self).codegen_output is None,
            old(self).overlay != Overlay::CodeGen ==> final(self).overlay == Overlay::CodeGen && overlays_ok(
                *final(self),
            ),
            inputs_kept(*old(self), *final(self)),
            options_kept(*old(self), *final(self)),
            final(self).focus == old(self).focus,
            final(self).codegen_selected == old(self).codegen_selected,
            final(self).should_quit == old(self).should_quit,
    {
        if self.overlay == Overlay::CodeGen {
            self.overlay = Overlay::Off;
            self.codegen_output = None;
        } else {
            self.overlay = Overlay::CodeGen;
            self.update_codegen();
        }
    }

    /// Selects the next language (after the last, the first) and
    /// generates its code.
    pub fn codegen_select_next(&mut self)
        requires
            old(self).wf(),
        ensures
            final(self).wf(),
            final(self).codegen_selected == (old(self).codegen_selected + 1) % 6,
            final(self).codegen_output matches Some(c) && c@ == code_for(
                language_at(final(self).codegen_selected as int),
                old(self).regex_input@,
                old(self).flags,
                old(self).engine_manager@.current,
            ),
            final(self).overlay == old(self).overlay,
            inputs_kept(*old(self), *final(self)),
            options_kept(*old(self), *final(self)),
            final(self).focus == old(self).focus,
            final(self).should_quit == old(self).should_quit,
    {
        self.codegen_selected = (self.codegen_selected + 1) % 6;
        self.update_codegen();
    }

    /// Selects the previous language (before the first, the last) and
    /// generates its code.
    pub fn codegen_select_prev(&mut self)
        requires
            old(self).wf(),
        ensures
            final(self).wf(),
            final(self).codegen_selected == (if old(self).codegen_selected == 0 {
                5
            } else {
                old(self).codegen_selected - 1
            }),
            final(self).codegen_output matches Some(c) && c@ == code_for(
                language_at(final(self).codegen_selected as int),
                old(self).regex_input@,
                old(self).flags,
                old(self).engine_manager@.current,
            ),
            final(self).overlay == old(self).overlay,
            inputs_kept(*old(self), *final(self)),
            options_kept(*old(self), *final(self)),
            final(self).focus == old(self).focus,
            final(self).should_quit == old(self).should_quit,
    {
        if self.codegen_selected == 0 {
            self.codegen_selected = 5;
        } else {
            self.codegen_selected -= 1;
        }
        self.update_codegen();
    }

    /// The code to copy, if some was generated.
    pub fn copy_codegen(&self) -> (r: Option<String>)
        ensures
            match self.codegen_output {
                Some(c) => r matches Some(t) && t@ == c@,
                None => r is None,
            },
    {
        match &self.codegen_output {
            Some(code) => Some(code.clone()),
            None => None,
        }
    }
}

/// The texts of a list of spans.
pub open spec fn span_texts(v: Seq<crate::engine::MatchSpan>) -> Seq<Seq<char>> {
    v.map_values(|m: crate::engine::MatchSpan| m.text@)
}

/// The boundary before a cursor on a boundary is the previous character's.
pub proof fn lemma_prev_boundary(s: Seq<char>, cursor: usize, p: usize)
    requires
        cursor_ok(s, cursor),
        cursor > 0,
        p < cursor,
        p == 0 || is_char_boundary(encode_utf8(s), p as int),
        forall|q: int| p < q < cursor ==> !is_char_boundary(encode_utf8(s), q),
    ensures
        cursor_at(s, p, char_index(s, cursor) - 1),
{
    let k = char_index(s, cursor);
    if k == 0 {
        assert(s.take(0) =~= Seq::<char>::empty());
    }
    lemma_offset_is_boundary(s, k - 1);
    lemma_offset_strict(s, k - 1, k);
    if p < byte_offset(s, k - 1) {
    } else if p > byte_offset(s, k - 1) {
        if p == 0 {
        } else {
            lemma_boundary_is_offset(s, p as int);
            let j = choose|j: int| 0 <= j <= s.len() && byte_offset(s, j) == p;
            if j < k - 1 {
                lemma_offset_strict(s, j, k - 1);
            } else if j >= k {
                if j > k {
                    lemma_offset_strict(s, k, j);
                }
            }
        }
    }
}

/// The boundary after a cursor before the end is the next character's.
pub proof fn lemma_next_boundary(s: Seq<char>, cursor: usize, p: usize)
    requires
        cursor_ok(s, cursor),
        cursor < encode_utf8(s).len(),
        p > cursor,
        p >= encode_utf8(s).len() ==> p == cursor + 1 || p == encode_utf8(s).len(),
        p < encode_utf8(s).len() ==> is_char_boundary(encode_utf8(s), p as int),
        forall|q: int| cursor < q < p ==> !is_char_boundary(encode_utf8(s), q),
    ensures
        cursor_at(s, p, char_index(s, cursor) + 1),
{
    let k = char_index(s, cursor);
    if k == s.len() {
        assert(s.take(k) =~= s);
    }
    lemma_offset_is_boundary(s, k + 1);
    lemma_offset_strict(s, k, k + 1);
    let n = byte_offset(s, k + 1);
    if p > n {
        assert(!is_char_boundary(encode_utf8(s), n as int));
    } else if p < n {
        lemma_boundary_is_offset(s, p as int);
        let j = choose|j: int| 0 <= j <= s.len() && byte_offset(s, j) == p;
        if j <= k {
            if j < k {
                lemma_offset_strict(s, j, k);
            }
        } else if j > k + 1 {
            lemma_offset_strict(s, k + 1, j);
        }
    }
}

/// Saving an input whose cursor lies on a boundary keeps every saved
/// cursor on a boundary.
proof fn lemma_saved_ok(h: HistoryView, t: Seq<char>, c: usize)
    requires
        history_ok(h),
        history_cursors_ok(h),
        cursor_ok(t, c),
    ensures
        history_cursors_ok(after_push(h, (t, c))),
{
    let h2 = after_push(h, (t, c));
    assert forall|i: int| 0 <= i < h2.states.len() implies cursor_ok(#[trigger] h2.states[i].0, h2.states[i].1) by {
        if i < h2.states.len() - 1 {
            assert(h2.states[i] == h.states[i]);
        }
    }
}

fn language_at_exec(i: usize) -> (l: Language)
    ensures
        l == language_at(i as int),
{
    if i == 0 {
        Language::Rust
    } else if i == 1 {
        Language::Python
    } else if i == 2 {
        Language::JavaScript
    } else if i == 3 {
        Language::Go
    } else if i == 4 {
        Language::Java
    } else {
        Language::Php
    }
}


/// Deleting the character just typed gives back the text as it was, with
/// the cursor back where it was.
pub proof fn law_delete_undoes_insert(t: Seq<char>, k: int, c: char)
    requires
        0 <= k <= t.len(),
    ensures
        ({
            let u = t.take(k).push(c) + t.skip(k);
            &&& u.take((k + 1) - 1) + u.skip(k + 1) == t
            &&& byte_offset(u, k) == byte_offset(t, k)
        }),
{
    let u = t.take(k).push(c) + t.skip(k);
    assert(u.take(k) =~= t.take(k));
    assert(u.skip(k + 1) =~= t.skip(k));
    assert(t.take(k) + t.skip(k) =~= t);
}

/// Moving the cursor left and then right brings it back where it was.
pub proof fn law_left_then_right(t: Seq<char>, cursor: usize)
    requires
        cursor_ok(t, cursor),
        cursor > 0,
        encode_utf8(t).len() <= usize::MAX,
    ensures
        ({
            let k = char_index(t, cursor);
            let left = byte_offset(t, k - 1);
            &&& k >= 1
            &&& left < cursor
            &&& byte_offset(t, char_index(t, left as usize) + 1) == cursor
        }),
{
    let k = char_index(t, cursor);
    if k == 0 {
        assert(t.take(0) =~= Seq::<char>::empty());
    }
    lemma_offset_strict(t, k - 1, k);
    let left = byte_offset(t, k - 1);
    crate::text::lemma_cursor_index(t, left as usize, k - 1);
}

} // verus!
