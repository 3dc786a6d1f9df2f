//! The step debugger: a pattern is compiled into a small instruction
//! program, and a backtracking machine runs that program over the text,
//! recording every step it takes (each comparison, each choice point and
//! each backtrack) so that a user can replay the search.

use vstd::prelude::*;
use vstd::utf8::encode_utf8;
use std::collections::HashMap;
use vstd::std_specs::hash::spec_hash_map_iter;
use vstd::std_specs::iter::IteratorSpec;
use crate::text::{push_char, push_str, push_decimal, decimal, string_from};
use crate::program::{AnchorKind, EscKind, ClassRange, Inst, Program, ProgramView, compile, compile_spec};

verus! {

// ===== Steps =====

/// One recorded step of the search.
#[derive(Debug, Clone)]
pub struct DebugStep {
    pub pattern_offset: usize,
    pub text_offset: usize,
    pub description: String,
    pub is_backtrack: bool,
    pub matched: bool,
}

/// A step as a mathematical value.
pub ghost struct StepView {
    pub pattern_offset: usize,
    pub text_offset: usize,
    pub description: Seq<char>,
    pub is_backtrack: bool,
    pub matched: bool,
}

impl View for DebugStep {
    type V = StepView;

    open spec fn view(&self) -> StepView {
        StepView {
            pattern_offset: self.pattern_offset,
            text_offset: self.text_offset,
            description: self.description@,
            is_backtrack: self.is_backtrack,
            matched: self.matched,
        }
    }
}

/// The steps of a vector, as values.
pub open spec fn view_steps(v: Seq<DebugStep>) -> Seq<StepView> {
    v.map_values(|s: DebugStep| s@)
}

/// A step with the given fields.
pub open spec fn mk_step(
    pattern_offset: usize,
    text_offset: usize,
    description: Seq<char>,
    is_backtrack: bool,
    matched: bool,
) -> StepView {
    StepView { pattern_offset, text_offset, description, is_backtrack, matched }
}

fn push_step(steps: &mut Vec<DebugStep>, s: DebugStep)
    ensures
        view_steps(final(steps)@) == view_steps(old(steps)@).push(s@),
        final(steps)@.len() == old(steps)@.len() + 1,
{
    let ghost sv = s@;
    steps.push(s);
    assert(view_steps(steps@) =~= view_steps(old(steps)@).push(sv));
}

fn new_step(
    pattern_offset: usize,
    text_offset: usize,
    description: String,
    is_backtrack: bool,
    matched: bool,
) -> (s: DebugStep)
    ensures
        s@ == mk_step(pattern_offset, text_offset, description@, is_backtrack, matched),
{
    DebugStep { pattern_offset, text_offset, description, is_backtrack, matched }
}

// ===== Character tests =====

/// Unicode's alphanumeric property (`char::is_alphanumeric`).
pub uninterp spec fn is_alphanumeric_char(c: char) -> bool;

/// `char::is_alphanumeric`: alphabetic or numeric in the Unicode sense.
/// The contract claims only that the answer is a function of the
/// character.
#[verifier::external_body]
fn char_is_alphanumeric(c: char) -> (b: bool)
    ensures
        b == is_alphanumeric_char(c),
{
    c.is_alphanumeric()
}

/// Unicode's White_Space property (`char::is_whitespace`).
pub open spec fn is_whitespace_char(c: char) -> bool {
    ||| ('\u{9}' <= c && c <= '\u{d}')
    ||| c == ' '
    ||| c == '\u{85}'
    ||| c == '\u{a0}'
    ||| c == '\u{1680}'
    ||| ('\u{2000}' <= c && c <= '\u{200a}')
    ||| c == '\u{2028}'
    ||| c == '\u{2029}'
    ||| c == '\u{202f}'
    ||| c == '\u{205f}'
    ||| c == '\u{3000}'
}

/// Whether `c` is white space, as `char::is_whitespace` decides it.
pub fn char_is_whitespace(c: char) -> (b: bool)
    ensures
        b == is_whitespace_char(c),
{
    ('\u{9}' <= c && c <= '\u{d}') || c == ' ' || c == '\u{85}' || c == '\u{a0}' || c
        == '\u{1680}' || ('\u{2000}' <= c && c <= '\u{200a}') || c == '\u{2028}' || c
        == '\u{2029}' || c == '\u{202f}' || c == '\u{205f}' || c == '\u{3000}'
}

/// Whether `c` is an ASCII digit.
pub open spec fn is_digit_char(c: char) -> bool {
    '0' <= c && c <= '9'
}

/// Whether `c` is a word character: alphanumeric or `_`.
pub open spec fn is_word_char(c: char) -> bool {
    is_alphanumeric_char(c) || c == '_'
}

/// Whether an escape matches `c`.
pub open spec fn escape_matches(kind: EscKind, c: char) -> bool {
    match kind {
        EscKind::Digit => is_digit_char(c),
        EscKind::NonDigit => !is_digit_char(c),
        EscKind::Word => is_word_char(c),
        EscKind::NonWord => !is_word_char(c),
        EscKind::Space => is_whitespace_char(c),
        EscKind::NonSpace => !is_whitespace_char(c),
        EscKind::Char(e) => c == e,
    }
}

fn match_escape(kind: EscKind, c: char) -> (b: bool)
    ensures
        b == escape_matches(kind, c),
{
    match kind {
        EscKind::Digit => c >= '0' && c <= '9',
        EscKind::NonDigit => !(c >= '0' && c <= '9'),
        EscKind::Word => char_is_alphanumeric(c) || c == '_',
        EscKind::NonWord => !(char_is_alphanumeric(c) || c == '_'),
        EscKind::Space => char_is_whitespace(c),
        EscKind::NonSpace => !char_is_whitespace(c),
        EscKind::Char(expected) => c == expected,
    }
}

/// Whether some range of a class contains `c`.
pub open spec fn in_class(ranges: Seq<ClassRange>, c: char) -> bool {
    exists|i: int| 0 <= i < ranges.len() && ranges[i].start <= c && c <= ranges[i].end
}

fn class_contains(ranges: &Vec<ClassRange>, c: char) -> (b: bool)
    ensures
        b == in_class(ranges@, c),
{
    let mut i: usize = 0;
    while i < ranges.len()
        invariant
            i <= ranges@.len(),
            forall|j: int| 0 <= j < i ==> !(ranges@[j].start <= c && c <= ranges@[j].end),
        decreases ranges@.len() - i,
    {
        if ranges[i].contains(c) {
            return true;
        }
        i += 1;
    }
    false
}


// ===== Step descriptions =====

/// `'c'`: a character between single quotes.
pub open spec fn quoted(c: char) -> Seq<char> {
    seq!['\'', c, '\'']
}

/// `matched` or `failed`.
pub open spec fn outcome(ok: bool) -> Seq<char> {
    if ok { "matched"@ } else { "failed"@ }
}

pub open spec fn desc_try(start: usize) -> Seq<char> {
    "Try from text["@ + decimal(start as nat) + "]"@
}

pub open spec fn desc_match(start: usize, end: usize) -> Seq<char> {
    "Match found ["@ + decimal(start as nat) + ","@ + decimal(end as nat) + ")"@
}

pub open spec fn desc_backtrack(pat_off: usize, ti: usize) -> Seq<char> {
    "Backtrack to p["@ + decimal(pat_off as nat) + "] t["@ + decimal(ti as nat) + "]"@
}

/// The description of a literal comparison.
pub open spec fn desc_literal(ch: char, text: Seq<char>, ti: usize) -> Seq<char> {
    if ti < text.len() && text[ti as int] == ch {
        quoted(ch) + " matched"@
    } else if ti < text.len() {
        quoted(ch) + " != "@ + quoted(text[ti as int])
    } else {
        quoted(ch) + " at end of text"@
    }
}

pub open spec fn desc_dot(ok: bool, text: Seq<char>, ti: usize) -> Seq<char> {
    if ok { ". matches "@ + quoted(text[ti as int]) } else { ". failed"@ }
}

pub open spec fn anchor_name(kind: AnchorKind) -> Seq<char> {
    match kind {
        AnchorKind::Start => "^"@,
        AnchorKind::End => "$"@,
    }
}

pub open spec fn escape_name(kind: EscKind) -> Seq<char> {
    match kind {
        EscKind::Digit => "\\d"@,
        EscKind::NonDigit => "\\D"@,
        EscKind::Word => "\\w"@,
        EscKind::NonWord => "\\W"@,
        EscKind::Space => "\\s"@,
        EscKind::NonSpace => "\\S"@,
        EscKind::Char(_) => "\\esc"@,
    }
}

fn push_quoted(s: &mut String, c: char)
    ensures
        final(s)@ == old(s)@ + quoted(c),
{
    push_char(s, '\'');
    push_char(s, c);
    push_char(s, '\'');
    assert(s@ =~= old(s)@ + quoted(c));
}

fn outcome_str(ok: bool) -> (s: &'static str)
    ensures
        s@ == outcome(ok),
{
    if ok { "matched" } else { "failed" }
}

fn make_desc_try(start: usize) -> (s: String)
    ensures
        s@ == desc_try(start),
{
    let mut s = string_from("Try from text[");
    push_decimal(&mut s, start);
    push_str(&mut s, "]");
    s
}

fn make_desc_match(start: usize, end: usize) -> (s: String)
    ensures
        s@ == desc_match(start, end),
{
    let mut s = string_from("Match found [");
    push_decimal(&mut s, start);
    push_str(&mut s, ",");
    push_decimal(&mut s, end);
    push_str(&mut s, ")");
    s
}

fn make_desc_backtrack(pat_off: usize, ti: usize) -> (s: String)
    ensures
        s@ == desc_backtrack(pat_off, ti),
{
    let mut s = string_from("Backtrack to p[");
    push_decimal(&mut s, pat_off);
    push_str(&mut s, "] t[");
    push_decimal(&mut s, ti);
    push_str(&mut s, "]");
    s
}

fn make_desc_literal(ch: char, text: &[char], ti: usize) -> (s: String)
    ensures
        s@ == desc_literal(ch, text@, ti),
{
    let mut s = String::new();
    push_quoted(&mut s, ch);
    if ti < text.len() && text[ti] == ch {
        push_str(&mut s, " matched");
    } else if ti < text.len() {
        push_str(&mut s, " != ");
        push_quoted(&mut s, text[ti]);
    } else {
        push_str(&mut s, " at end of text");
    }
    s
}

fn make_desc_dot(ok: bool, text: &[char], ti: usize) -> (s: String)
    requires
        ok ==> ti < text@.len(),
    ensures
        s@ == desc_dot(ok, text@, ti),
{
    if ok {
        let mut s = string_from(". matches ");
        push_quoted(&mut s, text[ti]);
        s
    } else {
        string_from(". failed")
    }
}

fn make_desc_anchor(kind: AnchorKind, ok: bool) -> (s: String)
    ensures
        s@ == anchor_name(kind) + " "@ + outcome(ok),
{
    let mut s = match kind {
        AnchorKind::Start => string_from("^"),
        AnchorKind::End => string_from("$"),
    };
    push_str(&mut s, " ");
    push_str(&mut s, outcome_str(ok));
    s
}

fn make_desc_escape(kind: EscKind, ok: bool) -> (s: String)
    ensures
        s@ == escape_name(kind) + " "@ + outcome(ok),
{
    let mut s = match kind {
        EscKind::Digit => string_from("\\d"),
        EscKind::NonDigit => string_from("\\D"),
        EscKind::Word => string_from("\\w"),
        EscKind::NonWord => string_from("\\W"),
        EscKind::Space => string_from("\\s"),
        EscKind::NonSpace => string_from("\\S"),
        EscKind::Char(_) => string_from("\\esc"),
    };
    push_str(&mut s, " ");
    push_str(&mut s, outcome_str(ok));
    s
}

fn make_desc_class(ok: bool) -> (s: String)
    ensures
        s@ == "[...] "@ + outcome(ok),
{
    let mut s = string_from("[...] ");
    push_str(&mut s, outcome_str(ok));
    s
}

// ===== The machine =====

/// The most steps that one debugging session records (a step or two more
/// may follow the last check).
pub const MAX_STEPS: usize = 10000;

/// The most steps that one start position may take.
pub const MAX_STEPS_PER_START: usize = 5000;

/// A saved alternative: where to resume in the program and in the text.
#[derive(Clone, Copy)]
pub struct Thread {
    pub pc: usize,
    pub ti: usize,
}

/// The state of the machine between two iterations.
pub ghost struct VmState {
    pub pc: usize,
    pub ti: usize,
    pub stack: Seq<Thread>,
    pub steps: Seq<StepView>,
    /// How many jumps (or saves) in a row led here without a step.
    pub idle: nat,
}

/// What one iteration leads to: another state, or the end of the search
/// from this start position (with whether it matched).
pub ghost enum VmNext {
    Continue(VmState),
    Stop(bool, Seq<StepView>),
}

/// The pattern offset that a step at `pc` reports.
pub open spec fn inst_offset(insts: Seq<Inst>, pc: usize) -> usize {
    if pc >= insts.len() {
        0
    } else {
        match insts[pc as int] {
            Inst::Literal(_, off) => off,
            Inst::Dot(off) => off,
            Inst::Anchor(_, off) => off,
            Inst::Escape(_, off) => off,
            Inst::Class(_, _, off) => off,
            Inst::Split(_, _, off) => off,
            Inst::Jump(_) => 0,
            Inst::Match => 0,
            Inst::Save(_) => 0,
        }
    }
}

/// Resume the most recently saved alternative, recording a backtrack step,
/// or stop without a match when none is left.
pub open spec fn backtrack(insts: Seq<Inst>, pc: usize, ti: usize, stack: Seq<Thread>, steps: Seq<StepView>) -> VmNext {
    if stack.len() > 0 {
        let t = stack.last();
        let off = inst_offset(insts, t.pc);
        VmNext::Continue(
            VmState {
                pc: t.pc,
                ti: t.ti,
                stack: stack.drop_last(),
                steps: steps.push(mk_step(off, t.ti, desc_backtrack(off, t.ti), true, false)),
                idle: 0,
            },
        )
    } else {
        VmNext::Stop(false, steps)
    }
}

/// After a test at `pc` that recorded `step`: go on at the next instruction,
/// one character further, when it succeeded; backtrack otherwise.
pub open spec fn advance_or_backtrack(
    insts: Seq<Inst>,
    s: VmState,
    ok: bool,
    step: StepView,
    consume: bool,
) -> VmNext {
    let steps = s.steps.push(step);
    if ok {
        VmNext::Continue(
            VmState {
                pc: (s.pc + 1) as usize,
                ti: if consume { (s.ti + 1) as usize } else { s.ti },
                stack: s.stack,
                steps,
                idle: 0,
            },
        )
    } else {
        backtrack(insts, s.pc, s.ti, s.stack, steps)
    }
}

/// One iteration of the machine.
pub open spec fn vm_iter(
    p: ProgramView,
    text: Seq<char>,
    start: usize,
    plen: usize,
    base: nat,
    s: VmState,
) -> VmNext {
    let insts = p.insts;
    if s.steps.len() >= MAX_STEPS {
        VmNext::Stop(false, s.steps)
    } else if s.steps.len() - base > MAX_STEPS_PER_START {
        VmNext::Stop(
            false,
            s.steps.push(
                mk_step(inst_offset(insts, s.pc), s.ti, "Per-position step limit"@, false, false),
            ),
        )
    } else if s.pc >= insts.len() {
        backtrack(insts, s.pc, s.ti, s.stack, s.steps)
    } else {
        let ti = s.ti;
        let in_text = ti < text.len();
        match insts[s.pc as int] {
            Inst::Match => VmNext::Stop(
                true,
                s.steps.push(mk_step(plen, ti, desc_match(start, ti), false, true)),
            ),
            Inst::Literal(ch, off) => {
                let ok = in_text && text[ti as int] == ch;
                advance_or_backtrack(insts, s, ok, mk_step(off, ti, desc_literal(ch, text, ti), false, ok), true)
            },
            Inst::Dot(off) => {
                let ok = in_text && text[ti as int] != '\n';
                advance_or_backtrack(insts, s, ok, mk_step(off, ti, desc_dot(ok, text, ti), false, ok), true)
            },
            Inst::Anchor(kind, off) => {
                let ok = match kind {
                    AnchorKind::Start => ti == 0,
                    AnchorKind::End => ti == text.len(),
                };
                advance_or_backtrack(
                    insts,
                    s,
                    ok,
                    mk_step(off, ti, anchor_name(kind) + " "@ + outcome(ok), false, ok),
                    false,
                )
            },
            Inst::Escape(kind, off) => {
                let ok = in_text && escape_matches(kind, text[ti as int]);
                advance_or_backtrack(
                    insts,
                    s,
                    ok,
                    mk_step(off, ti, escape_name(kind) + " "@ + outcome(ok), false, ok),
                    true,
                )
            },
            Inst::Class(k, negated, off) => {
                let ok = in_text && k < p.classes.len() && (in_class(p.classes[k as int], text[ti as int]) != negated);
                advance_or_backtrack(
                    insts,
                    s,
                    ok,
                    mk_step(off, ti, "[...] "@ + outcome(ok), false, ok),
                    true,
                )
            },
            Inst::Split(a, b, off) => VmNext::Continue(
                VmState {
                    pc: a,
                    ti,
                    stack: s.stack.push(Thread { pc: b, ti }),
                    steps: s.steps.push(
                        mk_step(off, ti, "Split: try preferred, save alternative"@, false, true),
                    ),
                    idle: 0,
                },
            ),
            Inst::Jump(t) => if s.idle >= insts.len() {
                VmNext::Stop(false, s.steps)
            } else {
                VmNext::Continue(VmState { pc: t, ti, stack: s.stack, steps: s.steps, idle: s.idle + 1 })
            },
            Inst::Save(_) => if s.idle >= insts.len() {
                VmNext::Stop(false, s.steps)
            } else {
                VmNext::Continue(
                    VmState { pc: (s.pc + 1) as usize, ti, stack: s.stack, steps: s.steps, idle: s.idle + 1 },
                )
            },
        }
    }
}

/// How many steps may still be recorded.
pub open spec fn steps_left(n: nat) -> nat {
    if n <= MAX_STEPS + 2 { (MAX_STEPS + 2 - n) as nat } else { 0 }
}

/// How many more jumps in a row may follow before they must have come
/// round to an instruction already visited.
pub open spec fn idle_left(len: nat, idle: nat) -> nat {
    if idle <= len { (len - idle) as nat } else { 0 }
}

/// Whether going from `s` to `n` makes progress: a step was recorded, or
/// one more jump was taken.
pub open spec fn progress(insts: Seq<Inst>, s: VmState, n: VmState) -> bool {
    ||| (s.steps.len() < n.steps.len() && n.steps.len() <= MAX_STEPS + 2)
    ||| (s.steps.len() == n.steps.len() && s.idle < n.idle && n.idle <= insts.len())
}

/// Runs the machine from state `s` until it stops: whether it matched, and
/// all steps recorded.
pub open spec fn vm_run(
    p: ProgramView,
    text: Seq<char>,
    start: usize,
    plen: usize,
    base: nat,
    s: VmState,
) -> (bool, Seq<StepView>)
    decreases steps_left(s.steps.len()), idle_left(p.insts.len(), s.idle),
{
    match vm_iter(p, text, start, plen, base, s) {
        VmNext::Stop(found, steps) => (found, steps),
        VmNext::Continue(n) => {
            if progress(p.insts, s, n) {
                vm_run(p, text, start, plen, base, n)
            } else {
                (false, n.steps)
            }
        },
    }
}

/// One attempt from text position `start`, after the steps `steps`.
pub open spec fn vm_attempt(
    p: ProgramView,
    text: Seq<char>,
    start: usize,
    plen: usize,
    steps: Seq<StepView>,
) -> (bool, Seq<StepView>) {
    let s0 = VmState {
        pc: 0,
        ti: start,
        stack: Seq::empty(),
        steps: steps.push(mk_step(0, start, desc_try(start), false, false)),
        idle: 0,
    };
    vm_run(p, text, start, plen, steps.len(), s0)
}

fn inst_pat_off(program: &Vec<Inst>, pc: usize) -> (off: usize)
    ensures
        off == inst_offset(program@, pc),
{
    if pc >= program.len() {
        return 0;
    }
    match program[pc] {
        Inst::Literal(_, off) => off,
        Inst::Dot(off) => off,
        Inst::Anchor(_, off) => off,
        Inst::Escape(_, off) => off,
        Inst::Class(_, _, off) => off,
        Inst::Split(_, _, off) => off,
        Inst::Jump(_) => 0,
        Inst::Match => 0,
        Inst::Save(_) => 0,
    }
}


/// Continues with the most recently saved alternative (recording a
/// backtrack step); false when none is left.
fn resume(
    program: &Program,
    stack: &mut Vec<Thread>,
    pc: &mut usize,
    ti: &mut usize,
    steps: &mut Vec<DebugStep>,
) -> (resumed: bool)
    ensures
        match backtrack(program@.insts, *old(pc), *old(ti), old(stack)@, view_steps(old(steps)@)) {
            VmNext::Continue(n) => resumed && *final(pc) == n.pc && *final(ti) == n.ti
                && final(stack)@ == n.stack && view_steps(final(steps)@) == n.steps && n.idle == 0,
            VmNext::Stop(_, st) => !resumed && view_steps(final(steps)@) == st,
        },
        final(steps)@.len() <= old(steps)@.len() + 1,
{
    match stack.pop() {
        Some(t) => {
            let off = inst_pat_off(&program.insts, t.pc);
            let d = make_desc_backtrack(off, t.ti);
            push_step(steps, new_step(off, t.ti, d, true, false));
            *pc = t.pc;
            *ti = t.ti;
            true
        },
        None => false,
    }
}

/// Runs the program from text position `start_ti`, appending every step
/// it takes to `steps`; true when it reached `Match`.
fn vm_execute(
    program: &Program,
    text: &[char],
    start_ti: usize,
    pattern_len: usize,
    steps: &mut Vec<DebugStep>,
) -> (found: bool)
    requires
        start_ti <= text@.len(),
        old(steps)@.len() < MAX_STEPS,
    ensures
        (found, view_steps(final(steps)@)) == vm_attempt(
            program@,
            text@,
            start_ti,
            pattern_len,
            view_steps(old(steps)@),
        ),
        final(steps)@.len() <= MAX_STEPS + 1,
{
    let ghost p = program@;
    let ghost t = text@;
    let mut stack: Vec<Thread> = Vec::new();
    let mut pc: usize = 0;
    let mut ti: usize = start_ti;
    let mut idle: usize = 0;
    let text_len = text.len();
    let step_base = steps.len();
    let d = make_desc_try(start_ti);
    push_step(steps, new_step(0, start_ti, d, false, false));
    let ghost result = vm_attempt(p, t, start_ti, pattern_len, view_steps(old(steps)@));
    let ghost base: nat = step_base as nat;
    assert(stack@ =~= Seq::<Thread>::empty());

    loop
        invariant
            p == program@,
            t == text@,
            result == vm_attempt(p, t, start_ti, pattern_len, view_steps(old(steps)@)),
            text_len == t.len(),
            step_base == base,
            base <= steps@.len() <= MAX_STEPS + 1,
            ti <= text_len,
            forall|j: int| 0 <= j < stack@.len() ==> #[trigger] stack@[j].ti <= text_len,
            idle <= p.insts.len(),
            vm_run(p, t, start_ti, pattern_len, base, VmState { pc, ti, stack: stack@, steps: view_steps(steps@), idle: idle as nat }) == result,
        decreases steps_left(steps@.len() as nat), idle_left(p.insts.len(), idle as nat),
    {
        let ghost cur = VmState { pc, ti, stack: stack@, steps: view_steps(steps@), idle: idle as nat };
        assert(cur.steps.len() == steps@.len());
        if steps.len() >= MAX_STEPS {
            return false;
        }
        if steps.len() - step_base > MAX_STEPS_PER_START {
            let off = inst_pat_off(&program.insts, pc);
            push_step(steps, new_step(off, ti, string_from("Per-position step limit"), false, false));
            return false;
        }
        if pc >= program.insts.len() {
            if resume(program, &mut stack, &mut pc, &mut ti, steps) {
                idle = 0;
                assert(progress(p.insts, cur, VmState { pc, ti, stack: stack@, steps: view_steps(steps@), idle: idle as nat }));
                continue;
            }
            return false;
        }
        let inst = program.insts[pc];
        let ok: bool;
        let consume: bool;
        match inst {
            Inst::Match => {
                let d = make_desc_match(start_ti, ti);
                push_step(steps, new_step(pattern_len, ti, d, false, true));
                return true;
            },
            Inst::Literal(ch, pat_off) => {
                ok = ti < text_len && text[ti] == ch;
                consume = true;
                let d = make_desc_literal(ch, text, ti);
                push_step(steps, new_step(pat_off, ti, d, false, ok));
            },
            Inst::Dot(pat_off) => {
                ok = ti < text_len && text[ti] != '\n';
                consume = true;
                let d = make_desc_dot(ok, text, ti);
                push_step(steps, new_step(pat_off, ti, d, false, ok));
            },
            Inst::Anchor(kind, pat_off) => {
                ok = match kind {
                    AnchorKind::Start => ti == 0,
                    AnchorKind::End => ti == text_len,
                };
                consume = false;
                let d = make_desc_anchor(kind, ok);
                push_step(steps, new_step(pat_off, ti, d, false, ok));
            },
            Inst::Escape(kind, pat_off) => {
                ok = ti < text_len && match_escape(kind, text[ti]);
                consume = true;
                let d = make_desc_escape(kind, ok);
                push_step(steps, new_step(pat_off, ti, d, false, ok));
            },
            Inst::Class(k, negated, pat_off) => {
                ok = if ti < text_len && k < program.classes.len() {
                    let in_cls = class_contains(&program.classes[k], text[ti]);
                    if negated { !in_cls } else { in_cls }
                } else {
                    false
                };
                consume = true;
                let d = make_desc_class(ok);
                push_step(steps, new_step(pat_off, ti, d, false, ok));
            },
            Inst::Split(a, b, pat_off) => {
                stack.push(Thread { pc: b, ti });
                push_step(
                    steps,
                    new_step(pat_off, ti, string_from("Split: try preferred, save alternative"), false, true),
                );
                pc = a;
                idle = 0;
                assert(progress(p.insts, cur, VmState { pc, ti, stack: stack@, steps: view_steps(steps@), idle: idle as nat }));
                continue;
            },
            Inst::Jump(target) => {
                if idle >= program.insts.len() {
                    return false;
                }
                pc = target;
                idle = idle + 1;
                assert(progress(p.insts, cur, VmState { pc, ti, stack: stack@, steps: view_steps(steps@), idle: idle as nat }));
                continue;
            },
            Inst::Save(_) => {
                if idle >= program.insts.len() {
                    return false;
                }
                pc = pc + 1;
                idle = idle + 1;
                assert(progress(p.insts, cur, VmState { pc, ti, stack: stack@, steps: view_steps(steps@), idle: idle as nat }));
                continue;
            },
        }
        idle = 0;
        if ok {
            pc = pc + 1;
            if consume {
                ti = ti + 1;
            }
            assert(progress(p.insts, cur, VmState { pc, ti, stack: stack@, steps: view_steps(steps@), idle: idle as nat }));
        } else {
            if resume(program, &mut stack, &mut pc, &mut ti, steps) {
                idle = 0;
                assert(progress(p.insts, cur, VmState { pc, ti, stack: stack@, steps: view_steps(steps@), idle: idle as nat }));
            } else {
                return false;
            }
        }
    }
}


// ===== The whole search =====

/// The search from each start position `start..=text.len()` in turn,
/// after the steps `steps`, until one matches; a step that reports the
/// limit ends it once `MAX_STEPS` steps are recorded.
pub open spec fn attempts(
    p: ProgramView,
    text: Seq<char>,
    plen: usize,
    start: int,
    steps: Seq<StepView>,
) -> Seq<StepView>
    decreases text.len() + 1 - start,
{
    if start < 0 || start > text.len() {
        steps
    } else if steps.len() >= MAX_STEPS {
        steps.push(
            mk_step(0, start as usize, "Step limit reached (catastrophic backtracking detected)"@, true, false),
        )
    } else {
        let r = vm_attempt(p, text, start as usize, plen, steps);
        if r.0 {
            r.1
        } else {
            attempts(p, text, plen, start + 1, r.1)
        }
    }
}

/// The single step recorded for an empty pattern.
pub open spec fn empty_pattern_step() -> StepView {
    mk_step(0, 0, "Empty pattern"@, false, true)
}

/// The single step recorded for a pattern that cannot be compiled.
pub open spec fn uncompilable_step() -> StepView {
    mk_step(0, 0, "Pattern cannot be compiled"@, false, false)
}

/// The single step recorded when the search recorded none.
pub open spec fn no_attempt_step() -> StepView {
    mk_step(0, 0, "No match attempt"@, false, false)
}

/// Every step of debugging `pattern` against `text`. A `Match` step
/// reports the pattern's length in bytes (`plen`); every other offset in
/// the pattern or the text counts characters.
pub open spec fn debug_steps(pattern: Seq<char>, plen: usize, text: Seq<char>) -> Seq<StepView> {
    if pattern.len() == 0 {
        seq![empty_pattern_step()]
    } else {
        match compile_spec(pattern) {
            None => seq![uncompilable_step()],
            Some(prog) => {
                let st = attempts(prog, text, plen, 0, Seq::empty());
                if st.len() == 0 {
                    seq![no_attempt_step()]
                } else {
                    st
                }
            },
        }
    }
}

/// Records every step of matching `pattern` against `text` with the
/// backtracking machine: from each start position in turn until one
/// matches, at most about `MAX_STEPS` steps in all. An empty pattern gives
/// one matched step; a pattern whose counted repetition has its upper bound
/// below its lower one (or whose program would not fit in memory
/// addresses) gives one step that says it cannot be compiled.
pub fn collect_debug_steps(pattern: &str, text: &str) -> (steps: Vec<DebugStep>)
    ensures
        view_steps(steps@) == debug_steps(pattern@, encode_utf8(pattern@).len() as usize, text@),
        1 <= steps@.len() <= MAX_STEPS + 2,
{
    let ghost plen = encode_utf8(pattern@).len() as usize;
    if pattern.is_empty() {
        let mut v: Vec<DebugStep> = Vec::new();
        push_step(&mut v, new_step(0, 0, string_from("Empty pattern"), false, true));
        assert(view_steps(v@) =~= seq![empty_pattern_step()]);
        return v;
    }
    let program = match compile(pattern) {
        Some(prog) => prog,
        None => {
            let mut v: Vec<DebugStep> = Vec::new();
            push_step(&mut v, new_step(0, 0, string_from("Pattern cannot be compiled"), false, false));
            assert(view_steps(v@) =~= seq![uncompilable_step()]);
            return v;
        },
    };
    let pattern_len = pattern.len();
    let text_chars = crate::text::chars_of(text);
    let ghost p = program@;
    let ghost t = text@;
    let mut steps: Vec<DebugStep> = Vec::new();
    let ghost goal = attempts(p, t, plen, 0, view_steps(steps@));
    assert(view_steps(steps@) =~= Seq::<StepView>::empty());
    let n = text_chars.len();
    let mut start: usize = 0;
    loop
        invariant_except_break
            start <= n,
            steps@.len() <= MAX_STEPS + 1,
            attempts(p, t, plen, start as int, view_steps(steps@)) == goal,
        invariant
            p == program@,
            t == text_chars@,
            n == t.len(),
            pattern_len == plen,
            goal == attempts(p, t, plen, 0, Seq::<StepView>::empty()),
        ensures
            view_steps(steps@) == goal,
            steps@.len() <= MAX_STEPS + 2,
        decreases n - start,
    {
        if steps.len() >= MAX_STEPS {
            push_step(
                &mut steps,
                new_step(
                    0,
                    start,
                    string_from("Step limit reached (catastrophic backtracking detected)"),
                    true,
                    false,
                ),
            );
            break;
        }
        let found = vm_execute(&program, &text_chars, start, pattern_len, &mut steps);
        if found {
            break;
        }
        if start == n {
            assert(view_steps(steps@) == attempts(p, t, plen, start as int + 1, view_steps(steps@)));
            break;
        }
        start = start + 1;
    }
    if steps.len() == 0 {
        push_step(&mut steps, new_step(0, 0, string_from("No match attempt"), false, false));
        assert(view_steps(steps@) =~= seq![no_attempt_step()]);
    }
    steps
}


// ===== Replaying a session =====

/// How many of `steps` report the pattern offset `off`.
pub open spec fn count_at(steps: Seq<StepView>, off: usize) -> nat
    decreases steps.len(),
{
    if steps.len() == 0 {
        0
    } else {
        count_at(steps.drop_last(), off) + (if steps.last().pattern_offset == off { 1nat } else { 0nat })
    }
}

/// How often each pattern offset occurs among `steps`; an offset that
/// never occurs is absent.
pub open spec fn heat_of(steps: Seq<StepView>) -> Map<usize, usize> {
    Map::new(|off: usize| count_at(steps, off) > 0, |off: usize| count_at(steps, off) as usize)
}

/// How many of `steps` are backtracks.
pub open spec fn backtracks(steps: Seq<StepView>) -> nat
    decreases steps.len(),
{
    if steps.len() == 0 {
        0
    } else {
        backtracks(steps.drop_last()) + (if steps.last().is_backtrack { 1nat } else { 0nat })
    }
}

/// The step shown after moving forward from `cur` among `len` steps.
pub open spec fn forward_pos(cur: usize, len: nat) -> usize {
    if cur + 1 < len { (cur + 1) as usize } else { cur }
}

/// The step shown after moving back from `cur`.
pub open spec fn backward_pos(cur: usize) -> usize {
    if cur > 0 { (cur - 1) as usize } else { 0 }
}

/// Whether `r` is the largest count of a heat map, or 1 for an empty one.
pub open spec fn is_max_heat(m: Map<usize, usize>, r: usize) -> bool {
    if m.dom().is_empty() {
        r == 1
    } else {
        &&& exists|k: usize| m.contains_key(k) && m[k] == r
        &&& forall|k: usize| m.contains_key(k) ==> m[k] <= r
    }
}

/// The largest count of a heat map, or 1 for an empty one.
pub open spec fn max_heat_of(m: Map<usize, usize>) -> usize {
    choose|r: usize| is_max_heat(m, r)
}

proof fn lemma_count_at_bound(steps: Seq<StepView>, off: usize)
    ensures
        count_at(steps, off) <= steps.len(),
    decreases steps.len(),
{
    if steps.len() > 0 {
        lemma_count_at_bound(steps.drop_last(), off);
    }
}

proof fn lemma_backtracks_bound(steps: Seq<StepView>)
    ensures
        backtracks(steps) <= steps.len(),
    decreases steps.len(),
{
    if steps.len() > 0 {
        lemma_backtracks_bound(steps.drop_last());
    }
}

/// A recorded search being replayed: the steps, the one shown, the count
/// of steps at each pattern offset, and whether those counts are shown.
#[derive(Debug, Clone)]
pub struct DebugSession {
    pub steps: Vec<DebugStep>,
    pub current_step: usize,
    pub heatmap: HashMap<usize, usize>,
    pub heatmap_mode: bool,
}

impl DebugSession {
    /// A session at the first step, with the heat map counted from the
    /// steps, shown without it.
    pub fn new(steps: Vec<DebugStep>) -> (r: Self)
        ensures
            view_steps(r.steps@) == view_steps(steps@),
            r.current_step == 0,
            r.heatmap@ == heat_of(view_steps(steps@)),
            !r.heatmap_mode,
    {
        let ghost sv = view_steps(steps@);
        let mut heatmap: HashMap<usize, usize> = HashMap::new();
        let mut i: usize = 0;
        while i < steps.len()
            invariant
                i <= steps@.len(),
                sv == view_steps(steps@),
                heatmap@ == heat_of(sv.take(i as int)),
            decreases steps@.len() - i,
        {
            let off = steps[i].pattern_offset;
            let ghost before = sv.take(i as int);
            let ghost after = sv.take(i + 1);
            assert(after.drop_last() =~= before);
            assert(after.last() == sv[i as int]);
            proof {
                lemma_count_at_bound(before, off);
            }
            let c: usize = match heatmap.get(&off) {
                Some(c) => *c,
                None => 0,
            };
            assert(c == count_at(before, off));
            heatmap.insert(off, c + 1);
            i += 1;
            assert(heatmap@ =~= heat_of(after));
        }
        assert(sv.take(i as int) =~= sv);
        DebugSession { steps, current_step: 0, heatmap, heatmap_mode: false }
    }

    /// Moves to the next step, unless at the last one.
    pub fn step_forward(&mut self)
        ensures
            final(self).current_step == forward_pos(old(self).current_step, old(self).steps@.len()),
            final(self).steps@ == old(self).steps@,
            final(self).heatmap@ == old(self).heatmap@,
            final(self).heatmap_mode == old(self).heatmap_mode,
    {
        if self.current_step < self.steps.len().saturating_sub(1) {
            self.current_step += 1;
        }
    }

    /// Moves to the previous step, unless at the first one.
    pub fn step_backward(&mut self)
        ensures
            final(self).current_step == backward_pos(old(self).current_step),
            final(self).steps@ == old(self).steps@,
            final(self).heatmap@ == old(self).heatmap@,
            final(self).heatmap_mode == old(self).heatmap_mode,
    {
        if self.current_step > 0 {
            self.current_step -= 1;
        }
    }

    /// The step shown, if the position is within the steps.
    pub fn current(&self) -> (r: Option<&DebugStep>)
        ensures
            match r {
                Some(st) => self.current_step < self.steps@.len() && *st == self.steps@[self.current_step as int],
                None => self.current_step >= self.steps@.len(),
            },
    {
        if self.current_step < self.steps.len() {
            Some(&self.steps[self.current_step])
        } else {
            None
        }
    }

    /// Shows the heat map, or stops showing it.
    pub fn toggle_heatmap(&mut self)
        ensures
            final(self).heatmap_mode == !old(self).heatmap_mode,
            final(self).steps@ == old(self).steps@,
            final(self).current_step == old(self).current_step,
            final(self).heatmap@ == old(self).heatmap@,
    {
        self.heatmap_mode = !self.heatmap_mode;
    }

    /// The largest count of the heat map; 1 when it is empty.
    pub fn max_heat(&self) -> (r: usize)
        ensures
            is_max_heat(self.heatmap@, r),
            r == max_heat_of(self.heatmap@),
    {
        let ghost m = self.heatmap@;
        let ghost v = spec_hash_map_iter(&self.heatmap).remaining();
        let ghost mut idx: int = 0;
        let mut best: usize = 1;
        let mut found = false;
        for kv in it: self.heatmap.iter()
            invariant
                m == self.heatmap@,
                v == spec_hash_map_iter(&self.heatmap).remaining(),
                it.seq() == v,
                idx == it.index(),
                found == (idx > 0),
                !found ==> best == 1,
                forall|j: int| 0 <= j < idx ==> *(#[trigger] v[j]).1 <= best,
                found ==> exists|j: int| 0 <= j < idx && *v[j].1 == best,
        {
            let x = *kv.1;
            if !found || x > best {
                best = x;
            }
            found = true;
            proof {
                idx = idx + 1;
            }
        }
        proof {
            assert(idx == v.len());
            if m.dom().is_empty() {
                assert(!found);
            } else {
                let k0 = m.dom().choose();
                assert(m.contains_key(k0));
                assert(v.contains((&k0, &m[k0])));
                assert(found);
                assert forall|k: usize| m.contains_key(k) implies m[k] <= best by {
                    assert(v.contains((&k, &m[k])));
                    let j = choose|j: int| 0 <= j < v.len() && v[j] == (&k, &m[k]);
                    assert(*v[j].1 <= best);
                }
                let j = choose|j: int| 0 <= j < idx && *v[j].1 == best;
                assert(m.contains_key(*v[j].0) && m[*v[j].0] == *v[j].1);
            }
            assert(is_max_heat(m, best));
            assert forall|r: usize| is_max_heat(m, r) implies r == best by {
                if !m.dom().is_empty() {
                    let k1 = choose|k: usize| m.contains_key(k) && m[k] == r;
                    let k2 = choose|k: usize| m.contains_key(k) && m[k] == best;
                    assert(m[k1] <= best);
                    assert(m[k2] <= r);
                }
            }
        }
        best
    }

    /// How many steps were recorded.
    pub fn total_steps(&self) -> (r: usize)
        ensures
            r == self.steps@.len(),
    {
        self.steps.len()
    }

    /// How many of the steps are backtracks.
    pub fn backtrack_count(&self) -> (r: usize)
        ensures
            r == backtracks(view_steps(self.steps@)),
    {
        let ghost sv = view_steps(self.steps@);
        let mut n: usize = 0;
        let mut i: usize = 0;
        while i < self.steps.len()
            invariant
                i <= self.steps@.len(),
                sv == view_steps(self.steps@),
                n == backtracks(sv.take(i as int)),
            decreases self.steps@.len() - i,
        {
            let ghost before = sv.take(i as int);
            let ghost after = sv.take(i + 1);
            assert(after.drop_last() =~= before);
            proof {
                lemma_backtracks_bound(before);
            }
            if self.steps[i].is_backtrack {
                n += 1;
            }
            i += 1;
        }
        assert(sv.take(i as int) =~= sv);
        n
    }
}


/// Stepping forward and then back comes back to the same step, when there
/// is a next step; stepping back and then forward does too, when there is a
/// previous one.
pub proof fn law_step_forward_back(cur: usize, len: nat)
    requires
        len <= usize::MAX,
    ensures
        cur + 1 < len ==> backward_pos(forward_pos(cur, len)) == cur,
        0 < cur < len ==> forward_pos(backward_pos(cur), len) == cur,
{
}

/// Stepping never leaves the recorded steps: from a step within them,
/// either move lands within them, and stepping back never goes below the
/// first.
pub proof fn law_steps_stay_within(cur: usize, len: nat)
    requires
        len <= usize::MAX,
    ensures
        cur < len ==> forward_pos(cur, len) < len && backward_pos(cur) < len,
        backward_pos(cur) <= cur,
        forward_pos(cur, len) >= cur,
{
}

/// Every count of the heat map, and the number of backtracks, is at most
/// the number of steps; an offset is in the heat map exactly when some
/// step reports it.
pub proof fn law_heat_bounded(steps: Seq<StepView>, off: usize)
    ensures
        heat_of(steps).contains_key(off) ==> heat_of(steps)[off] <= steps.len(),
        heat_of(steps).contains_key(off) <==> exists|i: int| 0 <= i < steps.len() && steps[i].pattern_offset == off,
        backtracks(steps) <= steps.len(),
    decreases steps.len(),
{
    lemma_count_at_bound(steps, off);
    lemma_backtracks_bound(steps);
    lemma_count_positive(steps, off);
}

proof fn lemma_count_positive(steps: Seq<StepView>, off: usize)
    ensures
        count_at(steps, off) > 0 <==> exists|i: int| 0 <= i < steps.len() && steps[i].pattern_offset == off,
    decreases steps.len(),
{
    if steps.len() > 0 {
        let d = steps.drop_last();
        lemma_count_positive(d, off);
        if count_at(d, off) > 0 {
            let i = choose|i: int| 0 <= i < d.len() && d[i].pattern_offset == off;
            assert(steps[i] == d[i]);
        }
        if exists|i: int| 0 <= i < steps.len() && steps[i].pattern_offset == off {
            let i = choose|i: int| 0 <= i < steps.len() && steps[i].pattern_offset == off;
            if i < d.len() {
                assert(d[i] == steps[i]);
            }
        }
    }
}

/// What the escapes of the step debugger accept: `\d` exactly the ASCII
/// digits, `\w` exactly the alphanumeric characters and `_`, `\s` exactly
/// the white space; each upper-case escape exactly the characters its
/// lower-case one refuses; an escaped character only itself.
pub proof fn law_escape_classes(c: char, e: char)
    ensures
        escape_matches(EscKind::Digit, c) <==> ('0' <= c && c <= '9'),
        escape_matches(EscKind::Word, c) <==> (is_alphanumeric_char(c) || c == '_'),
        escape_matches(EscKind::Word, '_'),
        escape_matches(EscKind::Space, c) <==> is_whitespace_char(c),
        escape_matches(EscKind::Space, ' ') && escape_matches(EscKind::Space, '\n') && escape_matches(
            EscKind::Space,
            '\t',
        ),
        escape_matches(EscKind::NonDigit, c) <==> !escape_matches(EscKind::Digit, c),
        escape_matches(EscKind::NonWord, c) <==> !escape_matches(EscKind::Word, c),
        escape_matches(EscKind::NonSpace, c) <==> !escape_matches(EscKind::Space, c),
        escape_matches(EscKind::Char(e), c) <==> c == e,
{
}

/// The steps recorded once a machine iteration is done.
pub open spec fn next_steps(n: VmNext) -> Seq<StepView> {
    match n {
        VmNext::Continue(st) => st.steps,
        VmNext::Stop(_, steps) => steps,
    }
}

/// Whether the instruction that tests one character accepts `c`: a literal
/// only itself, `.` anything but a newline, an escape what it stands for, a
/// class (with its ranges in the program) what it contains, or what it
/// does not contain when negated.
pub open spec fn accepts(p: ProgramView, inst: Inst, c: char) -> bool {
    match inst {
        Inst::Literal(ch, _) => c == ch,
        Inst::Dot(_) => c != '\n',
        Inst::Escape(kind, _) => escape_matches(kind, c),
        Inst::Class(k, negated, _) => k < p.classes.len() && (in_class(p.classes[k as int], c) != negated),
        _ => false,
    }
}

/// Whether an instruction tests one character of the text.
pub open spec fn tests_char(inst: Inst) -> bool {
    inst is Literal || inst is Dot || inst is Escape || inst is Class
}

/// At an instruction that tests a character of the text (within the step
/// limits), the machine records a step that succeeds exactly when the
/// instruction accepts the character, and on success goes on to the next
/// instruction one character further. At a `\w` test that is exactly when
/// the character is alphanumeric or `_`.
pub proof fn law_char_test_step(
    p: ProgramView,
    text: Seq<char>,
    start: usize,
    plen: usize,
    base: nat,
    s: VmState,
)
    requires
        s.steps.len() < MAX_STEPS,
        s.steps.len() - base <= MAX_STEPS_PER_START,
        s.pc < p.insts.len(),
        tests_char(p.insts[s.pc as int]),
        s.ti < text.len(),
        p.insts.len() <= usize::MAX,
        text.len() <= usize::MAX,
    ensures
        next_steps(vm_iter(p, text, start, plen, base, s)).len() > s.steps.len(),
        next_steps(vm_iter(p, text, start, plen, base, s))[s.steps.len() as int].matched <==> accepts(
            p,
            p.insts[s.pc as int],
            text[s.ti as int],
        ),
        accepts(p, p.insts[s.pc as int], text[s.ti as int]) ==> (vm_iter(p, text, start, plen, base, s) matches VmNext::Continue(
            n,
        ) && n.pc == s.pc + 1 && n.ti == s.ti + 1),
        p.insts[s.pc as int] matches Inst::Escape(EscKind::Word, _) ==> (accepts(
            p,
            p.insts[s.pc as int],
            text[s.ti as int],
        ) <==> (is_alphanumeric_char(text[s.ti as int]) || text[s.ti as int] == '_')),
{
}

/// What an escape written in a pattern accepts once compiled: `\d` the
/// ASCII digits, `\w` the alphanumeric characters and `_`, `\s` white
/// space, `\D`, `\W`, `\S` the rest; any other escaped character only
/// itself.
pub proof fn law_written_escapes(c: char, x: char)
    ensures
        escape_matches(crate::program::esc_kind('d'), x) <==> ('0' <= x && x <= '9'),
        escape_matches(crate::program::esc_kind('D'), x) <==> !('0' <= x && x <= '9'),
        escape_matches(crate::program::esc_kind('w'), x) <==> (is_alphanumeric_char(x) || x == '_'),
        escape_matches(crate::program::esc_kind('W'), x) <==> !(is_alphanumeric_char(x) || x == '_'),
        escape_matches(crate::program::esc_kind('s'), x) <==> is_whitespace_char(x),
        escape_matches(crate::program::esc_kind('S'), x) <==> !is_whitespace_char(x),
        c != 'd' && c != 'D' && c != 'w' && c != 'W' && c != 's' && c != 'S' ==> (escape_matches(
            crate::program::esc_kind(c),
            x,
        ) <==> x == c),
{
}

} // verus!
