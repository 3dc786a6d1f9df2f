//! The key bindings: which action a key press asks for, in the tester (by
//! the overlay shown) and in the line filter, and the tester carrying the
//! action out.

use vstd::prelude::*;
use vstd::utf8::encode_utf8;
use crate::app::{
    App, Focus, Overlay, focused_cursor, focused_text, inputs_kept, options_kept, other_focus, other_input_kept,
    unfocused_kept, view_kept,
};
use crate::debugger::{backward_pos, forward_pos};
use crate::engine::{RegexFlags, after_cycle};
use crate::text::{char_index, cursor_at};
use crate::filter::{FilterApp, refiltered, unmoved_list};

verus! {

/// A key, as the terminal names it.
#[derive(Debug, Clone, Copy, PartialEq, Eq, Structural)]
pub enum Key {
    Esc,
    Enter,
    Tab,
    Backspace,
    Delete,
    Left,
    Right,
    Up,
    Down,
    Home,
    End,
    Char(char),
    /// Any other key.
    Other,
}

/// The modifiers held with a key; `other` stands for any modifier but
/// Shift, Control and Alt.
#[derive(Debug, Clone, Copy, PartialEq, Eq, Structural)]
pub struct Mods {
    pub shift: bool,
    pub control: bool,
    pub alt: bool,
    pub other: bool,
}

/// A key press: the key and the modifiers held.
#[derive(Debug, Clone, Copy, PartialEq, Eq, Structural)]
pub struct KeyPress {
    pub key: Key,
    pub mods: Mods,
}

/// Control alone is held.
pub open spec fn control_only(m: Mods) -> bool {
    m.control && !m.shift && !m.alt && !m.other
}

/// Alt alone is held.
pub open spec fn alt_only(m: Mods) -> bool {
    m.alt && !m.shift && !m.control && !m.other
}

/// Nothing, or Shift alone, is held.
pub open spec fn typing(m: Mods) -> bool {
    !m.control && !m.alt && !m.other
}

/// What a key press asks the tester to do.
#[derive(Debug, Clone, Copy, PartialEq, Eq, Structural)]
pub enum Action {
    Nothing,
    Quit,
    ToggleFocus,
    ToggleDebugger,
    ToggleCodegen,
    CycleEngine,
    Undo,
    Redo,
    CopyMatches,
    CopyCodegen,
    ToggleCaseInsensitive,
    ToggleMultiline,
    ToggleDotall,
    ToggleUnicode,
    ToggleExtended,
    DeleteBack,
    DeleteForward,
    CursorLeft,
    CursorRight,
    CursorHome,
    CursorEnd,
    Insert(char),
    StepBack,
    StepForward,
    ToggleHeatmap,
    PreviousLanguage,
    NextLanguage,
}

/// The keys of the debugger overlay: Esc closes it, Left and Right step,
/// `h` or `H` (typed) switches the heatmap.
pub open spec fn debugger_binding(k: KeyPress) -> Option<Action> {
    match k.key {
        Key::Esc => Some(Action::ToggleDebugger),
        Key::Left => Some(Action::StepBack),
        Key::Right => Some(Action::StepForward),
        Key::Char(c) => if typing(k.mods) && (c == 'h' || c == 'H') {
            Some(Action::ToggleHeatmap)
        } else {
            None
        },
        _ => None,
    }
}

/// The keys of the code generator overlay: Esc closes it, Left and Right
/// change the language, Control-C copies the code.
pub open spec fn codegen_binding(k: KeyPress) -> Option<Action> {
    match k.key {
        Key::Esc => Some(Action::ToggleCodegen),
        Key::Left => Some(Action::PreviousLanguage),
        Key::Right => Some(Action::NextLanguage),
        Key::Char(c) => if control_only(k.mods) && c == 'c' {
            Some(Action::CopyCodegen)
        } else {
            None
        },
        _ => None,
    }
}

/// The action a Control-letter asks for, if any.
pub open spec fn control_binding(c: char) -> Action {
    if c == 'd' {
        Action::ToggleDebugger
    } else if c == 'g' {
        Action::ToggleCodegen
    } else if c == 'e' {
        Action::CycleEngine
    } else if c == 'z' {
        Action::Undo
    } else if c == 'y' {
        Action::Redo
    } else if c == 'c' {
        Action::CopyMatches
    } else {
        Action::Nothing
    }
}

/// The action an Alt-letter asks for, if any.
pub open spec fn alt_binding(c: char) -> Action {
    if c == 'i' {
        Action::ToggleCaseInsensitive
    } else if c == 'm' {
        Action::ToggleMultiline
    } else if c == 's' {
        Action::ToggleDotall
    } else if c == 'u' {
        Action::ToggleUnicode
    } else if c == 'x' {
        Action::ToggleExtended
    } else {
        Action::Nothing
    }
}

/// The keys everywhere: Esc quits, Tab moves the focus, Control and Alt
/// letters, the editing keys, and a typed character is inserted.
pub open spec fn global_binding(k: KeyPress) -> Action {
    match k.key {
        Key::Esc => Action::Quit,
        Key::Tab => Action::ToggleFocus,
        Key::Backspace => Action::DeleteBack,
        Key::Delete => Action::DeleteForward,
        Key::Left => Action::CursorLeft,
        Key::Right => Action::CursorRight,
        Key::Home => Action::CursorHome,
        Key::End => Action::CursorEnd,
        Key::Char(c) => if control_only(k.mods) && control_binding(c) != Action::Nothing {
            control_binding(c)
        } else if alt_only(k.mods) && alt_binding(c) != Action::Nothing {
            alt_binding(c)
        } else if typing(k.mods) {
            Action::Insert(c)
        } else {
            Action::Nothing
        },
        _ => Action::Nothing,
    }
}

/// The action a key press asks for: the overlay's own binding first, the
/// global one otherwise.
pub open spec fn action_for(overlay: Overlay, k: KeyPress) -> Action {
    let own = match overlay {
        Overlay::Debugger => debugger_binding(k),
        Overlay::CodeGen => codegen_binding(k),
        Overlay::Off => None,
    };
    match own {
        Some(a) => a,
        None => global_binding(k),
    }
}

fn is_control_only(m: Mods) -> (r: bool)
    ensures
        r == control_only(m),
{
    m.control && !m.shift && !m.alt && !m.other
}

fn is_alt_only(m: Mods) -> (r: bool)
    ensures
        r == alt_only(m),
{
    m.alt && !m.shift && !m.control && !m.other
}

fn is_typing(m: Mods) -> (r: bool)
    ensures
        r == typing(m),
{
    !m.control && !m.alt && !m.other
}

fn control_action(c: char) -> (a: Action)
    ensures
        a == control_binding(c),
{
    match c {
        'd' => Action::ToggleDebugger,
        'g' => Action::ToggleCodegen,
        'e' => Action::CycleEngine,
        'z' => Action::Undo,
        'y' => Action::Redo,
        'c' => Action::CopyMatches,
        _ => Action::Nothing,
    }
}

fn alt_action(c: char) -> (a: Action)
    ensures
        a == alt_binding(c),
{
    match c {
        'i' => Action::ToggleCaseInsensitive,
        'm' => Action::ToggleMultiline,
        's' => Action::ToggleDotall,
        'u' => Action::ToggleUnicode,
        'x' => Action::ToggleExtended,
        _ => Action::Nothing,
    }
}

/// The action a key press asks for in the tester with the overlay shown.
pub fn key_action(overlay: Overlay, k: KeyPress) -> (a: Action)
    ensures
        a == action_for(overlay, k),
{
    match overlay {
        Overlay::Debugger => {
            match k.key {
                Key::Esc => return Action::ToggleDebugger,
                Key::Left => return Action::StepBack,
                Key::Right => return Action::StepForward,
                Key::Char(c) => {
                    if is_typing(k.mods) && (c == 'h' || c == 'H') {
                        return Action::ToggleHeatmap;
                    }
                },
                _ => {},
            }
        },
        Overlay::CodeGen => {
            match k.key {
                Key::Esc => return Action::ToggleCodegen,
                Key::Left => return Action::PreviousLanguage,
                Key::Right => return Action::NextLanguage,
                Key::Char(c) => {
                    if is_control_only(k.mods) && c == 'c' {
                        return Action::CopyCodegen;
                    }
                },
                _ => {},
            }
        },
        Overlay::Off => {},
    }
    match k.key {
        Key::Esc => Action::Quit,
        Key::Tab => Action::ToggleFocus,
        Key::Backspace => Action::DeleteBack,
        Key::Delete => Action::DeleteForward,
        Key::Left => Action::CursorLeft,
        Key::Right => Action::CursorRight,
        Key::Home => Action::CursorHome,
        Key::End => Action::CursorEnd,
        Key::Char(c) => {
            let ctl = control_action(c);
            let alt = alt_action(c);
            if is_control_only(k.mods) && ctl != Action::Nothing {
                ctl
            } else if is_alt_only(k.mods) && alt != Action::Nothing {
                alt
            } else if is_typing(k.mods) {
                Action::Insert(c)
            } else {
                Action::Nothing
            }
        },
        _ => Action::Nothing,
    }
}

/// The focused input's history after an undo or a redo.
pub open spec fn focused_history(a: App) -> crate::app::HistoryView {
    match a.focus {
        Focus::Regex => a.regex_history@,
        Focus::TestString => a.test_history@,
    }
}

/// What carrying out an action does to the tester: what the action names
/// changes as its method's contract says, and what it does not name stays
/// as it was. Only quitting sets the tester to quit.
pub open spec fn key_effect(old: App, new: App, a: Action) -> bool {
    let t = focused_text(old);
    let k = char_index(t, focused_cursor(old));
    &&& a != Action::Quit ==> new.should_quit == old.should_quit
    &&& match a {
        Action::Nothing => new == old,
        Action::Quit => new.should_quit && inputs_kept(old, new) && options_kept(old, new) && view_kept(old, new)
            && new.focus == old.focus,
        Action::ToggleFocus => new.focus == other_focus(old.focus) && inputs_kept(old, new) && options_kept(
            old,
            new,
        ) && view_kept(old, new),
        Action::ToggleDebugger => inputs_kept(old, new) && options_kept(old, new) && new.focus == old.focus
            && new.codegen_selected == old.codegen_selected && if old.overlay == Overlay::Debugger {
            new.overlay == Overlay::Off && new.debug_session is None
        } else {
            new.overlay == Overlay::Debugger && new.debug_session is Some
        },
        Action::ToggleCodegen => inputs_kept(old, new) && options_kept(old, new) && new.focus == old.focus
            && new.codegen_selected == old.codegen_selected && if old.overlay == Overlay::CodeGen {
            new.overlay == Overlay::Off && new.codegen_output is None
        } else {
            new.overlay == Overlay::CodeGen && new.codegen_output is Some
        },
        Action::CycleEngine => new.engine_manager@ == after_cycle(old.engine_manager@) && inputs_kept(old, new)
            && new.flags == old.flags && new.focus == old.focus && view_kept(old, new),
        Action::Undo => focused_history(new) == crate::app::after_undo(focused_history(old)) && unfocused_kept(
            old,
            new,
        ) && new.focus == old.focus && new.flags == old.flags && view_kept(old, new),
        Action::Redo => focused_history(new) == crate::app::after_redo(focused_history(old)) && unfocused_kept(
            old,
            new,
        ) && new.focus == old.focus && new.flags == old.flags && view_kept(old, new),
        Action::CopyMatches => new == old,
        Action::CopyCodegen => new == old,
        Action::ToggleCaseInsensitive => new.flags == (RegexFlags {
            case_insensitive: !old.flags.case_insensitive,
            ..old.flags
        }) && flag_frame(old, new),
        Action::ToggleMultiline => new.flags == (RegexFlags { multiline: !old.flags.multiline, ..old.flags })
            && flag_frame(old, new),
        Action::ToggleDotall => new.flags == (RegexFlags {
            dot_matches_newline: !old.flags.dot_matches_newline,
            ..old.flags
        }) && flag_frame(old, new),
        Action::ToggleUnicode => new.flags == (RegexFlags { unicode: !old.flags.unicode, ..old.flags })
            && flag_frame(old, new),
        Action::ToggleExtended => new.flags == (RegexFlags { extended: !old.flags.extended, ..old.flags })
            && flag_frame(old, new),
        Action::DeleteBack => edit_frame(old, new) && if focused_cursor(old) > 0 {
            focused_text(new) == t.take(k - 1) + t.skip(k) && cursor_at(focused_text(new), focused_cursor(new), k - 1)
        } else {
            focused_text(new) == t && focused_cursor(new) == 0
        },
        Action::DeleteForward => edit_frame(old, new) && focused_cursor(new) == focused_cursor(old) && if focused_cursor(old)
            < encode_utf8(t).len() {
            focused_text(new) == t.take(k) + t.skip(k + 1)
        } else {
            focused_text(new) == t
        },
        Action::CursorLeft => move_frame(old, new) && (focused_cursor(old) > 0 ==> cursor_at(
            t,
            focused_cursor(new),
            k - 1,
        )) && (focused_cursor(old) == 0 ==> focused_cursor(new) == 0),
        Action::CursorRight => move_frame(old, new) && (focused_cursor(old) < encode_utf8(t).len() ==> cursor_at(
            t,
            focused_cursor(new),
            k + 1,
        )) && (focused_cursor(old) >= encode_utf8(t).len() ==> focused_cursor(new) == focused_cursor(old)),
        Action::CursorHome => move_frame(old, new) && focused_cursor(new) == 0,
        Action::CursorEnd => move_frame(old, new) && focused_cursor(new) == encode_utf8(t).len(),
        Action::Insert(c) => edit_frame(old, new) && focused_text(new) == t.take(k).push(c) + t.skip(k) && cursor_at(
            focused_text(new),
            focused_cursor(new),
            k + 1,
        ),
        Action::StepBack => session_frame(old, new) && match old.debug_session {
            Some(d) => new.debug_session matches Some(e) && e.current_step == backward_pos(d.current_step),
            None => new.debug_session is None,
        },
        Action::StepForward => session_frame(old, new) && match old.debug_session {
            Some(d) => new.debug_session matches Some(e) && e.current_step == forward_pos(
                d.current_step,
                d.steps@.len(),
            ),
            None => new.debug_session is None,
        },
        Action::ToggleHeatmap => session_frame(old, new) && match old.debug_session {
            Some(d) => new.debug_session matches Some(e) && e.heatmap_mode == !d.heatmap_mode,
            None => new.debug_session is None,
        },
        Action::PreviousLanguage => new.codegen_selected == (if old.codegen_selected == 0 {
            5
        } else {
            old.codegen_selected - 1
        }) && inputs_kept(old, new) && options_kept(old, new) && new.focus == old.focus && new.overlay
            == old.overlay,
        Action::NextLanguage => new.codegen_selected == (old.codegen_selected + 1) % 6 && inputs_kept(old, new)
            && options_kept(old, new) && new.focus == old.focus && new.overlay == old.overlay,
    }
}

/// What an option switch leaves as it was: the inputs, the engine choice,
/// the focus and the overlay.
pub open spec fn flag_frame(old: App, new: App) -> bool {
    inputs_kept(old, new) && new.engine_manager@ == old.engine_manager@ && new.focus == old.focus && view_kept(
        old,
        new,
    )
}

/// What an edit of the focused input leaves as it was: the other input,
/// the focus, the options and the overlay.
pub open spec fn edit_frame(old: App, new: App) -> bool {
    unfocused_kept(old, new) && new.focus == old.focus && new.flags == old.flags && view_kept(old, new)
}

/// What a cursor move leaves as it was: both texts, the other cursor, the
/// histories, the focus, the options and the overlay.
pub open spec fn move_frame(old: App, new: App) -> bool {
    &&& focused_text(new) == focused_text(old)
    &&& other_input_kept(old, new)
    &&& new.regex_history@ == old.regex_history@
    &&& new.test_history@ == old.test_history@
    &&& new.focus == old.focus
    &&& options_kept(old, new)
    &&& view_kept(old, new)
}

/// What the debugger's keys leave as they were: all but the session.
pub open spec fn session_frame(old: App, new: App) -> bool {
    inputs_kept(old, new) && options_kept(old, new) && view_kept(old, new) && new.focus == old.focus
}

impl App {
    /// Carries out the action a key press asks for; what it gives to copy,
    /// if it is a copy. The debugger's stepping and heatmap act on the open
    /// session, if any.
    pub fn handle_key(&mut self, k: KeyPress) -> (copied: Option<String>)
        requires
            old(self).wf(),
        ensures
            final(self).wf(),
            action_for(old(self).overlay, k) == Action::Quit ==> final(self).should_quit,
            action_for(old(self).overlay, k) == Action::ToggleFocus ==> final(self).focus == other_focus(
                old(self).focus,
            ),
            action_for(old(self).overlay, k) == Action::CopyMatches ==> match old(self).last_result {
                Some(m) => copied matches Some(t) && t@ == crate::codegen::join_seq(
                    crate::app::span_texts(m.full_matches@),
                    seq!['\n'],
                ),
                None => copied is None,
            },
            action_for(old(self).overlay, k) == Action::CopyCodegen ==> match old(self).codegen_output {
                Some(c) => copied matches Some(t) && t@ == c@,
                None => copied is None,
            },
            action_for(old(self).overlay, k) != Action::CopyMatches && action_for(old(self).overlay, k)
                != Action::CopyCodegen ==> copied is None,
            key_effect(*old(self), *final(self), action_for(old(self).overlay, k)),
    {
        let action = key_action(self.overlay, k);
        match action {
            Action::Nothing => {},
            Action::Quit => {
                self.should_quit = true;
            },
            Action::ToggleFocus => self.toggle_focus(),
            Action::ToggleDebugger => self.toggle_debugger(),
            Action::ToggleCodegen => self.toggle_codegen(),
            Action::CycleEngine => self.cycle_engine(),
            Action::Undo => self.undo(),
            Action::Redo => self.redo(),
            Action::CopyMatches => {
                return self.copy_matches();
            },
            Action::CopyCodegen => {
                return self.copy_codegen();
            },
            Action::ToggleCaseInsensitive => self.toggle_flag_case_insensitive(),
            Action::ToggleMultiline => self.toggle_flag_multiline(),
            Action::ToggleDotall => self.toggle_flag_dotall(),
            Action::ToggleUnicode => self.toggle_flag_unicode(),
            Action::ToggleExtended => self.toggle_flag_extended(),
            Action::DeleteBack => self.delete_char(),
            Action::DeleteForward => self.delete_forward(),
            Action::CursorLeft => self.move_cursor_left(),
            Action::CursorRight => self.move_cursor_right(),
            Action::CursorHome => self.move_cursor_home(),
            Action::CursorEnd => self.move_cursor_end(),
            Action::Insert(c) => self.insert_char(c),
            Action::StepBack => {
                if let Some(session) = &mut self.debug_session {
                    session.step_backward();
                }
            },
            Action::StepForward => {
                if let Some(session) = &mut self.debug_session {
                    session.step_forward();
                }
            },
            Action::ToggleHeatmap => {
                if let Some(session) = &mut self.debug_session {
                    session.toggle_heatmap();
                }
            },
            Action::PreviousLanguage => self.codegen_select_prev(),
            Action::NextLanguage => self.codegen_select_next(),
        }
        None
    }
}

/// What the line filter does after a key press: go on, stop without
/// output, or stop and write out the kept lines.
#[derive(Debug, Clone, Copy, PartialEq, Eq, Structural)]
pub enum FilterStep {
    Continue,
    Cancel,
    Output,
}

/// What a key press asks of the line filter: Esc cancels, Enter writes out,
/// the editing and scrolling keys act, a typed character is inserted.
pub open spec fn filter_step_for(k: KeyPress) -> FilterStep {
    match k.key {
        Key::Esc => FilterStep::Cancel,
        Key::Enter => FilterStep::Output,
        _ => FilterStep::Continue,
    }
}

impl FilterApp {
    /// Carries out a key press: Backspace deletes, Left and Right move the
    /// cursor, Down and Up scroll, a typed character is inserted; says
    /// whether to go on, cancel or write out.
    pub fn handle_key(&mut self, k: KeyPress) -> (step: FilterStep)
        requires
            old(self).wf(),
        ensures
            final(self).wf(),
            step == filter_step_for(k),
            (k.key == Key::Esc || k.key == Key::Enter || k.key == Key::Other || k.key == Key::Tab || k.key
                == Key::Delete || k.key == Key::Home || k.key == Key::End) ==> final(self).pattern@ == old(
                self,
            ).pattern@ && final(self).cursor == old(self).cursor && final(self).filtered@ == old(self).filtered@
                && final(self).scroll == old(self).scroll,
            k.key == Key::Down ==> final(self).scroll == (if old(self).scroll + 1 < old(self).filtered@.len() {
                old(self).scroll + 1
            } else {
                old(self).scroll as int
            }),
            k.key == Key::Up ==> final(self).scroll == (if old(self).scroll > 0 {
                old(self).scroll - 1
            } else {
                0
            }),
            (k.key matches Key::Char(c) && typing(k.mods)) ==> ({
                let c = k.key->Char_0;
                let k0 = crate::text::char_index(old(self).pattern@, old(self).cursor);
                &&& final(self).pattern@ == old(self).pattern@.take(k0).push(c) + old(self).pattern@.skip(k0)
                &&& cursor_at(final(self).pattern@, final(self).cursor, k0 + 1)
                &&& refiltered(final(self).pattern@, *old(self), *final(self))
            }),
            (k.key matches Key::Char(_) && !typing(k.mods)) ==> final(self).pattern@ == old(self).pattern@
                && final(self).cursor == old(self).cursor && final(self).filtered@ == old(self).filtered@
                && final(self).scroll == old(self).scroll,
            k.key == Key::Backspace ==> ({
                let k0 = crate::text::char_index(old(self).pattern@, old(self).cursor);
                if old(self).cursor > 0 {
                    &&& final(self).pattern@ == old(self).pattern@.take(k0 - 1) + old(self).pattern@.skip(k0)
                    &&& cursor_at(final(self).pattern@, final(self).cursor, k0 - 1)
                    &&& refiltered(final(self).pattern@, *old(self), *final(self))
                } else {
                    &&& final(self).pattern@ == old(self).pattern@
                    &&& final(self).cursor == 0
                    &&& final(self).filtered@ == old(self).filtered@
                    &&& final(self).scroll == old(self).scroll
                }
            }),
            k.key == Key::Left ==> ({
                let k0 = crate::text::char_index(old(self).pattern@, old(self).cursor);
                &&& final(self).pattern@ == old(self).pattern@
                &&& old(self).cursor > 0 ==> cursor_at(final(self).pattern@, final(self).cursor, k0 - 1)
                &&& old(self).cursor == 0 ==> final(self).cursor == 0
                &&& unmoved_list(*old(self), *final(self))
            }),
            k.key == Key::Right ==> ({
                let k0 = crate::text::char_index(old(self).pattern@, old(self).cursor);
                &&& final(self).pattern@ == old(self).pattern@
                &&& old(self).cursor < encode_utf8(old(self).pattern@).len() ==> cursor_at(
                    final(self).pattern@,
                    final(self).cursor,
                    k0 + 1,
                )
                &&& old(self).cursor >= encode_utf8(old(self).pattern@).len() ==> final(self).cursor == old(
                    self,
                ).cursor
                &&& unmoved_list(*old(self), *final(self))
            }),
            (k.key == Key::Down || k.key == Key::Up) ==> final(self).pattern@ == old(self).pattern@
                && final(self).cursor == old(self).cursor && final(self).filtered@ == old(self).filtered@,
            final(self).lines@ == old(self).lines@,
            final(self).json_field == old(self).json_field,
    {
        match k.key {
            Key::Esc => FilterStep::Cancel,
            Key::Enter => FilterStep::Output,
            Key::Backspace => {
                self.delete_char();
                FilterStep::Continue
            },
            Key::Left => {
                self.move_left();
                FilterStep::Continue
            },
            Key::Right => {
                self.move_right();
                FilterStep::Continue
            },
            Key::Down => {
                self.scroll_down();
                FilterStep::Continue
            },
            Key::Up => {
                self.scroll_up();
                FilterStep::Continue
            },
            Key::Char(c) => {
                if is_typing(k.mods) {
                    self.insert_char(c);
                }
                FilterStep::Continue
            },
            _ => FilterStep::Continue,
        }
    }
}


/// Esc closes the overlay that is open, and quits the tester when none is.
pub proof fn law_escape_closes_then_quits(m: Mods)
    ensures
        action_for(Overlay::Debugger, KeyPress { key: Key::Esc, mods: m }) == Action::ToggleDebugger,
        action_for(Overlay::CodeGen, KeyPress { key: Key::Esc, mods: m }) == Action::ToggleCodegen,
        action_for(Overlay::Off, KeyPress { key: Key::Esc, mods: m }) == Action::Quit,
{
}

/// Esc with an overlay open closes it and leaves the rest as it was:
/// quitting, both inputs, their cursors and histories, the options, the
/// engine and the focus.
pub proof fn law_escape_in_overlay_keeps_inputs(old: App, new: App, m: Mods)
    requires
        old.overlay != Overlay::Off,
        key_effect(old, new, action_for(old.overlay, KeyPress { key: Key::Esc, mods: m })),
    ensures
        new.overlay == Overlay::Off,
        new.should_quit == old.should_quit,
        inputs_kept(old, new),
        options_kept(old, new),
        new.focus == old.focus,
        old.overlay == Overlay::Debugger ==> new.debug_session is None,
        old.overlay == Overlay::CodeGen ==> new.codegen_output is None,
{
    law_escape_closes_then_quits(m);
}

/// A character typed without Control or Alt is inserted, whatever overlay
/// is open, except `h` and `H`, which switch the debugger's heat map while
/// it is open.
pub proof fn law_typing_inserts(overlay: Overlay, c: char, m: Mods)
    requires
        typing(m),
        !(overlay == Overlay::Debugger && (c == 'h' || c == 'H')),
    ensures
        action_for(overlay, KeyPress { key: Key::Char(c), mods: m }) == Action::Insert(c),
{
}

} // verus!
