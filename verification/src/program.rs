//! The instruction program that the step debugger runs, and the compiler
//! that turns a pattern into one.

use vstd::prelude::*;

verus! {


/// Which end of the text an anchor asserts.
#[derive(Clone, Copy)]
pub enum AnchorKind {
    Start,
    End,
}

/// What a backslash escape matches.
#[derive(Clone, Copy)]
pub enum EscKind {
    Digit,
    NonDigit,
    Word,
    NonWord,
    Space,
    NonSpace,
    Char(char),
}

/// An inclusive range of characters in a bracketed class.
#[derive(Clone, Copy)]
pub struct ClassRange {
    pub start: char,
    pub end: char,
}

impl ClassRange {
    /// Whether `c` lies in the range, both ends included.
    pub fn contains(&self, c: char) -> (b: bool)
        ensures
            b == (self.start <= c && c <= self.end),
    {
        c >= self.start && c <= self.end
    }
}

/// One instruction. The last field of most instructions is the offset in
/// the pattern (in characters) of the construct it came from. A class
/// refers by index to its ranges, which the program keeps in a table.
#[derive(Clone, Copy)]
pub enum Inst {
    Literal(char, usize),
    Dot(usize),
    Anchor(AnchorKind, usize),
    Class(usize, bool, usize),
    Escape(EscKind, usize),
    Split(usize, usize, usize),
    Jump(usize),
    Match,
    Save(usize),
}

/// A compiled program: its instructions and the ranges of its classes.
pub ghost struct ProgramView {
    pub insts: Seq<Inst>,
    pub classes: Seq<Seq<ClassRange>>,
}

/// The ranges of every class of a table, as values.
pub open spec fn view_classes(v: Seq<Vec<ClassRange>>) -> Seq<Seq<ClassRange>> {
    v.map_values(|r: Vec<ClassRange>| r@)
}

/// A compiled program.
pub struct Program {
    pub insts: Vec<Inst>,
    pub classes: Vec<Vec<ClassRange>>,
}

impl View for Program {
    type V = ProgramView;

    open spec fn view(&self) -> ProgramView {
        ProgramView { insts: self.insts@, classes: view_classes(self.classes@) }
    }
}



// ===== What the compiler produces, as mathematics =====

/// The compiler's state: the instructions so far, the class table, and the
/// position (in characters) in the pattern.
pub ghost struct CState {
    pub insts: Seq<Inst>,
    pub classes: Seq<Seq<ClassRange>>,
    pub pos: int,
}

/// The escape that `\c` denotes.
pub open spec fn esc_kind(c: char) -> EscKind {
    if c == 'd' {
        EscKind::Digit
    } else if c == 'D' {
        EscKind::NonDigit
    } else if c == 'w' {
        EscKind::Word
    } else if c == 'W' {
        EscKind::NonWord
    } else if c == 's' {
        EscKind::Space
    } else if c == 'S' {
        EscKind::NonSpace
    } else {
        EscKind::Char(c)
    }
}

/// The character that `\c` denotes inside a bracketed class.
pub open spec fn class_unescape(c: char) -> char {
    if c == 'n' {
        '\n'
    } else if c == 't' {
        '\t'
    } else if c == 'r' {
        '\r'
    } else {
        c
    }
}

/// The ranges of a class body from `pos` up to the closing `]` (or the end
/// of the pattern), after `ranges`; and where they end.
pub open spec fn class_items(p: Seq<char>, pos: int, ranges: Seq<ClassRange>) -> (Seq<ClassRange>, int)
    decreases p.len() - pos,
{
    if pos < 0 || pos >= p.len() || p[pos] == ']' {
        (ranges, pos)
    } else {
        let c = p[pos];
        let ch = if c == '\\' && pos + 1 < p.len() { class_unescape(p[pos + 1]) } else { c };
        let q = if c == '\\' && pos + 1 < p.len() { pos + 2 } else { pos + 1 };
        if q + 1 < p.len() && p[q] == '-' && p[q + 1] != ']' {
            class_items(p, q + 2, ranges.push(ClassRange { start: ch, end: p[q + 1] }))
        } else {
            class_items(p, q, ranges.push(ClassRange { start: ch, end: ch }))
        }
    }
}

/// A bracketed class at `s.pos`: one `Class` instruction and one new
/// table entry.
pub open spec fn class_spec(p: Seq<char>, s: CState) -> CState {
    let q0 = s.pos + 1;
    let negated = q0 < p.len() && p[q0] == '^';
    let q1 = if negated { q0 + 1 } else { q0 };
    let first_close = q1 < p.len() && p[q1] == ']';
    let r0 = if first_close { seq![ClassRange { start: ']', end: ']' }] } else { Seq::empty() };
    let q2 = if first_close { q1 + 1 } else { q1 };
    let items = class_items(p, q2, r0);
    let q3 = items.1;
    CState {
        insts: s.insts.push(Inst::Class(s.classes.len() as usize, negated, s.pos as usize)),
        classes: s.classes.push(items.0),
        pos: if q3 < p.len() { q3 + 1 } else { q3 },
    }
}

/// Where the run of ASCII digits that starts at `i` ends.
pub open spec fn digits_end(p: Seq<char>, i: int) -> int
    decreases p.len() - i,
{
    if 0 <= i < p.len() && '0' <= p[i] && p[i] <= '9' {
        digits_end(p, i + 1)
    } else {
        i
    }
}

/// The number written in decimal by `p[i..j]`.
pub open spec fn digits_value(p: Seq<char>, i: int, j: int) -> nat
    decreases j - i,
{
    if j <= i {
        0
    } else {
        digits_value(p, i, j - 1) * 10 + ((p[j - 1] as int - '0' as int) as nat)
    }
}

/// A counted repetition `{m}`, `{m,}` or `{m,n}` whose `{` is at `pos`:
/// its bounds (`usize::MAX` for no upper bound) and the position after it;
/// none when the text there is not one, or a bound does not fit in `usize`.
pub open spec fn range_spec(p: Seq<char>, pos: int) -> Option<(usize, usize, int)> {
    let i0 = pos + 1;
    let i1 = digits_end(p, i0);
    if i1 == i0 || i1 >= p.len() {
        None
    } else if digits_value(p, i0, i1) > usize::MAX {
        None
    } else {
        let min = digits_value(p, i0, i1) as usize;
        if p[i1] == '}' {
            Some((min, min, i1 + 1))
        } else if p[i1] != ',' {
            None
        } else {
            let j0 = i1 + 1;
            let j1 = digits_end(p, j0);
            if j1 >= p.len() || p[j1] != '}' {
                None
            } else if j1 == j0 {
                Some((min, usize::MAX, j1 + 1))
            } else if digits_value(p, j0, j1) > usize::MAX {
                None
            } else {
                Some((min, digits_value(p, j0, j1) as usize, j1 + 1))
            }
        }
    }
}

/// The choice point of a quantifier: greedy ones prefer the body.
pub open spec fn split_inst(lazy: bool, body_pc: int, after_pc: int, off: usize) -> Inst {
    if lazy {
        Inst::Split(after_pc as usize, body_pc as usize, off)
    } else {
        Inst::Split(body_pc as usize, after_pc as usize, off)
    }
}

/// `*`, `+` or `?` applied to the instructions `insts[atom_start..atom_end]`;
/// none when an address would not fit in `usize`.
pub open spec fn quant_spec(
    insts: Seq<Inst>,
    atom_start: int,
    atom_end: int,
    off: usize,
    quant: char,
    lazy: bool,
) -> Option<Seq<Inst>> {
    let body = insts.subrange(atom_start, atom_end);
    let prefix = insts.subrange(0, atom_start);
    if quant == '*' {
        let after_pc = atom_start + 1 + body.len() + 1;
        if after_pc > usize::MAX {
            None
        } else {
            Some(
                prefix.push(split_inst(lazy, atom_start + 1, after_pc, off)) + body.push(
                    Inst::Jump(atom_start as usize),
                ),
            )
        }
    } else if quant == '+' {
        let after_pc = atom_start + body.len() + 1;
        if after_pc > usize::MAX {
            None
        } else {
            Some((prefix + body).push(split_inst(lazy, atom_start, after_pc, off)))
        }
    } else if quant == '?' {
        let after_pc = atom_start + 1 + body.len();
        if after_pc > usize::MAX {
            None
        } else {
            Some(prefix.push(split_inst(lazy, atom_start + 1, after_pc, off)) + body)
        }
    } else {
        Some(prefix)
    }
}

/// `k` copies of `body`, one after the other.
pub open spec fn repeat(body: Seq<Inst>, k: nat) -> Seq<Inst>
    decreases k,
{
    if k == 0 {
        Seq::empty()
    } else {
        repeat(body, (k - 1) as nat) + body
    }
}

/// `k` optional copies of `body`, the first one starting at `cur`, each
/// behind a choice point that may skip to `after`.
pub open spec fn optional_copies(
    body: Seq<Inst>,
    k: nat,
    cur: int,
    after: int,
    off: usize,
    lazy: bool,
) -> Seq<Inst>
    decreases k,
{
    if k == 0 {
        Seq::empty()
    } else {
        seq![split_inst(lazy, cur + 1, after, off)] + body + optional_copies(
            body,
            (k - 1) as nat,
            cur + 1 + body.len(),
            after,
            off,
            lazy,
        )
    }
}

/// A counted repetition `{min,max}` of `insts[atom_start..atom_end]`: `min`
/// copies, then a loop when there is no upper bound, or `max - min` optional
/// copies. None when `max < min` or an address would not fit in `usize`.
pub open spec fn range_quant_spec(
    insts: Seq<Inst>,
    atom_start: int,
    atom_end: int,
    off: usize,
    min: usize,
    max: usize,
    lazy: bool,
) -> Option<Seq<Inst>> {
    let body = insts.subrange(atom_start, atom_end);
    let mid = insts.subrange(0, atom_start) + repeat(body, min as nat);
    if max == usize::MAX {
        let split_pc = mid.len() as int;
        let after_pc = split_pc + 1 + body.len() + 1;
        if after_pc > usize::MAX {
            None
        } else {
            Some(
                mid.push(split_inst(lazy, split_pc + 1, after_pc, off)) + body.push(
                    Inst::Jump(split_pc as usize),
                ),
            )
        }
    } else if max < min {
        None
    } else {
        let extra = (max - min) as nat;
        let after: int = (mid.len() + extra * (1 + body.len())) as int;
        if 1 + body.len() > usize::MAX || after > usize::MAX {
            None
        } else {
            Some(mid + optional_copies(body, extra, mid.len() as int, after, off, lazy))
        }
    }
}

/// Whether moving `inst` by `d` would take one of its addresses past
/// `usize::MAX`.
pub open spec fn relocation_overflows(inst: Inst, d: int) -> bool {
    match inst {
        Inst::Split(a, b, _) => a + d > usize::MAX || b + d > usize::MAX,
        Inst::Jump(t) => t + d > usize::MAX,
        _ => false,
    }
}

/// `inst` with its addresses moved by `d`.
pub open spec fn relocate(inst: Inst, d: int) -> Inst {
    match inst {
        Inst::Split(a, b, off) => Inst::Split((a + d) as usize, (b + d) as usize, off),
        Inst::Jump(t) => Inst::Jump((t + d) as usize),
        other => other,
    }
}

/// A piece of code moved by `d`; none when an address would overflow.
pub open spec fn relocate_all(code: Seq<Inst>, d: int) -> Option<Seq<Inst>> {
    if exists|k: int| 0 <= k < code.len() && relocation_overflows(code[k], d) {
        None
    } else {
        Some(code.map_values(|x: Inst| relocate(x, d)))
    }
}

/// The lengths of the first `i` branches, each with its jump.
pub open spec fn branches_before(branches: Seq<Seq<Inst>>, i: int) -> int
    decreases i,
{
    if i <= 0 {
        0
    } else {
        branches_before(branches, i - 1) + branches[i - 1].len() + 1
    }
}

/// Where branch `i` starts when an alternation is laid out at `base`:
/// after the chain of choice points and the branches before it.
pub open spec fn branch_start(base: int, branches: Seq<Seq<Inst>>, i: int) -> int {
    base + (branches.len() - 1) + branches_before(branches, i)
}

/// The chain of choice points of an alternation at `base`: choice `i`
/// prefers branch `i` and falls back on the next choice, the last one on
/// the last branch.
pub open spec fn split_chain(base: int, branches: Seq<Seq<Inst>>, off: usize) -> Seq<Inst> {
    let n = branches.len();
    Seq::new(
        (n - 1) as nat,
        |i: int|
            Inst::Split(
                branch_start(base, branches, i) as usize,
                (if i + 1 < n - 1 { base + i + 1 } else { branch_start(base, branches, n - 1) }) as usize,
                off,
            ),
    )
}

/// The code of branches `i..` of an alternation at `base`, each moved to
/// its place and (but for the last) followed by a jump to `end_pc`.
pub open spec fn branch_code(
    base: int,
    branches: Seq<Seq<Inst>>,
    end_pc: int,
    i: int,
) -> Option<Seq<Inst>>
    decreases branches.len() - i,
{
    if i < 0 || i >= branches.len() {
        Some(Seq::empty())
    } else {
        match relocate_all(branches[i], branch_start(base, branches, i) - base) {
            None => None,
            Some(code) => {
                let code = if i < branches.len() - 1 {
                    code.push(Inst::Jump(end_pc as usize))
                } else {
                    code
                };
                match branch_code(base, branches, end_pc, i + 1) {
                    None => None,
                    Some(rest) => Some(code + rest),
                }
            },
        }
    }
}

/// An alternation of the given branches, laid out after `prefix`.
pub open spec fn assemble(prefix: Seq<Inst>, branches: Seq<Seq<Inst>>, off: usize) -> Option<Seq<Inst>> {
    let n = branches.len();
    if n <= 1 {
        Some(prefix + (if n == 1 { branches[0] } else { Seq::empty() }))
    } else {
        let base = prefix.len() as int;
        let end_pc = branch_start(base, branches, n - 1) + branches[n - 1].len();
        if end_pc > usize::MAX {
            None
        } else {
            match branch_code(base, branches, end_pc, 0) {
                None => None,
                Some(code) => Some(prefix + split_chain(base, branches, off) + code),
            }
        }
    }
}

/// One of `.`, `^`, `$` or a literal character at `s.pos`.
pub open spec fn simple_atom(p: Seq<char>, s: CState) -> CState {
    let ch = p[s.pos];
    let off = s.pos as usize;
    let inst = if ch == '.' {
        Inst::Dot(off)
    } else if ch == '^' {
        Inst::Anchor(AnchorKind::Start, off)
    } else if ch == '$' {
        Inst::Anchor(AnchorKind::End, off)
    } else {
        Inst::Literal(ch, off)
    };
    CState { insts: s.insts.push(inst), classes: s.classes, pos: s.pos + 1 }
}

/// A backslash escape at `s.pos`; a backslash that ends the pattern adds
/// nothing.
pub open spec fn escape_atom(p: Seq<char>, s: CState) -> CState {
    if s.pos + 1 < p.len() {
        CState {
            insts: s.insts.push(Inst::Escape(esc_kind(p[s.pos + 1]), s.pos as usize)),
            classes: s.classes,
            pos: s.pos + 2,
        }
    } else {
        CState { insts: s.insts, classes: s.classes, pos: s.pos + 1 }
    }
}

/// A group whose `(` is at `s.pos`: its alternation (after `?:` for a
/// non-capturing group), then its `)` if there is one.
pub open spec fn group_spec(p: Seq<char>, s: CState) -> Option<CState>
    decreases p.len() - s.pos, 0nat,
{
    if s.pos < 0 || s.pos >= p.len() {
        None
    } else {
        let q = s.pos + 1;
        let q2 = if q + 1 < p.len() && p[q] == '?' && p[q + 1] == ':' { q + 2 } else { q };
        match alt_spec(p, CState { insts: s.insts, classes: s.classes, pos: q2 }, s.pos as usize) {
            None => None,
            Some(r) => Some(
                if 0 <= r.pos < p.len() && p[r.pos] == ')' {
                    CState { insts: r.insts, classes: r.classes, pos: r.pos + 1 }
                } else {
                    r
                },
            ),
        }
    }
}

/// An atom at `s.pos`: a group, a class, an escape, `.`, an anchor or a
/// literal character.
pub open spec fn atom_spec(p: Seq<char>, s: CState) -> Option<CState>
    decreases p.len() - s.pos, 1nat,
{
    if s.pos < 0 || s.pos >= p.len() {
        Some(s)
    } else if p[s.pos] == '(' {
        group_spec(p, s)
    } else if p[s.pos] == '[' {
        Some(class_spec(p, s))
    } else if p[s.pos] == '\\' {
        Some(escape_atom(p, s))
    } else {
        Some(simple_atom(p, s))
    }
}

/// What follows an atom compiled from `s` into `a`: a quantifier, if there
/// is one, applied to the atom's instructions.
pub open spec fn quantifier_tail(p: Seq<char>, s: CState, a: CState) -> Option<CState> {
    let atom_start = s.insts.len() as int;
    let atom_end = a.insts.len() as int;
    let off = s.pos as usize;
    if 0 <= a.pos < p.len() && (p[a.pos] == '*' || p[a.pos] == '+' || p[a.pos] == '?') {
        let q = a.pos + 1;
        let lazy = q < p.len() && p[q] == '?';
        match quant_spec(a.insts, atom_start, atom_end, off, p[a.pos], lazy) {
            None => None,
            Some(ins) => Some(CState { insts: ins, classes: a.classes, pos: if lazy { q + 1 } else { q } }),
        }
    } else if 0 <= a.pos < p.len() && p[a.pos] == '{' {
        match range_spec(p, a.pos) {
            None => Some(a),
            Some(r) => {
                let e = r.2;
                let lazy = e < p.len() && p[e] == '?';
                match range_quant_spec(a.insts, atom_start, atom_end, off, r.0, r.1, lazy) {
                    None => None,
                    Some(ins) => Some(CState { insts: ins, classes: a.classes, pos: if lazy { e + 1 } else { e } }),
                }
            },
        }
    } else {
        Some(a)
    }
}

/// An atom at `s.pos` and the quantifier that follows it, if any.
pub open spec fn quantified_spec(p: Seq<char>, s: CState) -> Option<CState>
    decreases p.len() - s.pos, 2nat,
{
    if s.pos < 0 || s.pos > p.len() {
        None
    } else {
        match atom_spec(p, s) {
            None => None,
            Some(a) => quantifier_tail(p, s, a),
        }
    }
}

/// A sequence of quantified atoms from `s.pos`, up to `)`, `|` or the end.
pub open spec fn concat_spec(p: Seq<char>, s: CState) -> Option<CState>
    decreases p.len() - s.pos, 3nat,
{
    if 0 <= s.pos < p.len() && p[s.pos] != ')' && p[s.pos] != '|' {
        match quantified_spec(p, s) {
            None => None,
            Some(r) => if s.pos < r.pos <= p.len() {
                concat_spec(p, r)
            } else {
                Some(r)
            },
        }
    } else {
        Some(s)
    }
}

/// The branches after each `|` from `pos`, each compiled after `prefix`,
/// added to `acc`; the class table and position after them.
pub open spec fn more_branches(
    p: Seq<char>,
    prefix: Seq<Inst>,
    classes: Seq<Seq<ClassRange>>,
    pos: int,
    acc: Seq<Seq<Inst>>,
) -> Option<(Seq<Seq<Inst>>, Seq<Seq<ClassRange>>, int)>
    decreases p.len() - pos, 4nat,
{
    if 0 <= pos < p.len() && p[pos] == '|' {
        match concat_spec(p, CState { insts: prefix, classes, pos: pos + 1 }) {
            None => None,
            Some(r) => {
                let acc2 = acc.push(r.insts.subrange(prefix.len() as int, r.insts.len() as int));
                if pos + 1 <= r.pos <= p.len() {
                    more_branches(p, prefix, r.classes, r.pos, acc2)
                } else {
                    Some((acc2, r.classes, r.pos))
                }
            },
        }
    } else {
        Some((acc, classes, pos))
    }
}

/// An alternation from `s.pos`: its branches laid out with choice points.
/// `off` is the pattern offset that the choice points report.
pub open spec fn alt_spec(p: Seq<char>, s: CState, off: usize) -> Option<CState>
    decreases p.len() - s.pos, 5nat,
{
    if s.pos < 0 || s.pos > p.len() {
        None
    } else {
        match concat_spec(p, s) {
            None => None,
            Some(first) => if s.pos <= first.pos <= p.len() {
                let base = s.insts.len() as int;
                let first_code = first.insts.subrange(base, first.insts.len() as int);
                match more_branches(p, s.insts, first.classes, first.pos, seq![first_code]) {
                    None => None,
                    Some(b) => match assemble(s.insts, b.0, off) {
                        None => None,
                        Some(ins) => Some(CState { insts: ins, classes: b.1, pos: b.2 }),
                    },
                }
            } else {
                None
            },
        }
    }
}

/// The program of a pattern: its top-level alternation, then `Match`. None
/// when the pattern has a counted repetition `{min,max}` with `max < min`,
/// or when an address of the program would not fit in `usize`.
pub open spec fn compile_spec(p: Seq<char>) -> Option<ProgramView> {
    match alt_spec(p, CState { insts: Seq::empty(), classes: Seq::empty(), pos: 0 }, 0) {
        None => None,
        Some(r) => Some(ProgramView { insts: r.insts.push(Inst::Match), classes: r.classes }),
    }
}


// ===== The compiler =====

/// The code of each vector, as values.
pub open spec fn view_code(v: Seq<Vec<Inst>>) -> Seq<Seq<Inst>> {
    v.map_values(|c: Vec<Inst>| c@)
}

/// Whether `a` is a prefix of `b`.
pub open spec fn is_prefix(a: Seq<Inst>, b: Seq<Inst>) -> bool {
    a.len() <= b.len() && b.subrange(0, a.len() as int) == a
}

proof fn lemma_prefix_trans(a: Seq<Inst>, b: Seq<Inst>, c: Seq<Inst>)
    requires
        is_prefix(a, b),
        is_prefix(b, c),
    ensures
        is_prefix(a, c),
{
    assert(c.subrange(0, a.len() as int) =~= b.subrange(0, a.len() as int));
}

fn push_all(v: &mut Vec<Inst>, xs: &Vec<Inst>)
    ensures
        final(v)@ == old(v)@ + xs@,
{
    let mut i: usize = 0;
    while i < xs.len()
        invariant
            i <= xs@.len(),
            v@ == old(v)@ + xs@.take(i as int),
        decreases xs@.len() - i,
    {
        v.push(xs[i]);
        i += 1;
        assert(xs@.take(i as int) == xs@.take((i - 1) as int).push(xs@[i - 1]));
    }
    assert(xs@.take(i as int) == xs@);
}

fn push_class(classes: &mut Vec<Vec<ClassRange>>, r: Vec<ClassRange>)
    ensures
        view_classes(final(classes)@) == view_classes(old(classes)@).push(r@),
{
    let ghost rv = r@;
    classes.push(r);
    assert(view_classes(classes@) =~= view_classes(old(classes)@).push(rv));
}

fn push_code(v: &mut Vec<Vec<Inst>>, c: Vec<Inst>)
    ensures
        view_code(final(v)@) == view_code(old(v)@).push(c@),
        final(v)@.len() == old(v)@.len() + 1,
{
    let ghost cv = c@;
    v.push(c);
    assert(view_code(v@) =~= view_code(old(v)@).push(cv));
}

fn push_inst(v: &mut Vec<Inst>, x: Inst)
    ensures
        final(v)@ == old(v)@.push(x),
        is_prefix(old(v)@, final(v)@),
{
    v.push(x);
    assert(v@.subrange(0, old(v)@.len() as int) =~= old(v)@);
}

fn split_inst_exec(lazy: bool, body_pc: usize, after_pc: usize, off: usize) -> (i: Inst)
    ensures
        i == split_inst(lazy, body_pc as int, after_pc as int, off),
{
    if lazy {
        Inst::Split(after_pc, body_pc, off)
    } else {
        Inst::Split(body_pc, after_pc, off)
    }
}

fn relocate_inst(inst: Inst, delta: usize) -> (r: Option<Inst>)
    ensures
        r is None <==> relocation_overflows(inst, delta as int),
        r matches Some(x) ==> x == relocate(inst, delta as int),
{
    match inst {
        Inst::Split(a, b, off) => match (a.checked_add(delta), b.checked_add(delta)) {
            (Some(x), Some(y)) => Some(Inst::Split(x, y, off)),
            _ => None,
        },
        Inst::Jump(target) => match target.checked_add(delta) {
            Some(x) => Some(Inst::Jump(x)),
            None => None,
        },
        other => Some(other),
    }
}

proof fn lemma_branches_before_mono(branches: Seq<Seq<Inst>>, i: int, j: int)
    requires
        0 <= i <= j,
    ensures
        branches_before(branches, i) <= branches_before(branches, j),
    decreases j - i,
{
    if i < j {
        lemma_branches_before_mono(branches, i, j - 1);
    }
}

proof fn lemma_digits_end(p: Seq<char>, i: int, j: int)
    requires
        i <= j,
        forall|k: int| i <= k < j ==> is_digit_at(p, k),
    ensures
        digits_end(p, i) == digits_end(p, j),
    decreases j - i,
{
    if i < j {
        assert(is_digit_at(p, i));
        lemma_digits_end(p, i + 1, j);
    }
}

/// Whether `p[k]` is an ASCII digit.
pub open spec fn is_digit_at(p: Seq<char>, k: int) -> bool {
    0 <= k < p.len() && '0' <= p[k] && p[k] <= '9'
}

/// Compiles a pattern, in characters, into instructions.
struct Compiler {
    insts: Vec<Inst>,
    classes: Vec<Vec<ClassRange>>,
    pattern: Vec<char>,
    pos: usize,
}

impl Compiler {
    spec fn state(&self) -> CState {
        CState { insts: self.insts@, classes: view_classes(self.classes@), pos: self.pos as int }
    }

    fn new(pattern: &str) -> (c: Self)
        ensures
            c.pattern@ == pattern@,
            c.insts@ == Seq::<Inst>::empty(),
            view_classes(c.classes@) == Seq::<Seq<ClassRange>>::empty(),
            c.pos == 0,
    {
        let c = Compiler { insts: Vec::new(), classes: Vec::new(), pattern: crate::text::chars_of(pattern), pos: 0 };
        assert(view_classes(c.classes@) =~= Seq::<Seq<ClassRange>>::empty());
        c
    }

    fn compile_class(&mut self)
        requires
            old(self).pos < old(self).pattern.len(),
        ensures
            final(self).pattern@ == old(self).pattern@,
            final(self).state() == class_spec(old(self).pattern@, old(self).state()),
            old(self).pos < final(self).pos <= final(self).pattern@.len(),
            is_prefix(old(self).insts@, final(self).insts@),
    {
        let ghost p = self.pattern@;
        let ghost s0 = self.state();
        let pat_off = self.pos;
        self.pos += 1;
        let negated = self.pos < self.pattern.len() && self.pattern[self.pos] == '^';
        if negated {
            self.pos += 1;
        }
        let mut ranges: Vec<ClassRange> = Vec::new();
        if self.pos < self.pattern.len() && self.pattern[self.pos] == ']' {
            ranges.push(ClassRange { start: ']', end: ']' });
            self.pos += 1;
        }
        let ghost goal = class_items(p, self.pos as int, ranges@);
        while self.pos < self.pattern.len() && self.pattern[self.pos] != ']'
            invariant
                self.pattern@ == p,
                p.len() == self.pattern.len(),
                self.pattern.len() <= usize::MAX,
                self.insts@ == s0.insts,
                view_classes(self.classes@) == s0.classes,
                s0.pos < self.pos <= p.len(),
                class_items(p, self.pos as int, ranges@) == goal,
            decreases p.len() - self.pos,
        {
            let c = self.pattern[self.pos];
            if c == '\\' && self.pos + 1 < self.pattern.len() {
                self.pos += 1;
                let esc = self.pattern[self.pos];
                self.pos += 1;
                let ch = if esc == 'n' {
                    '\n'
                } else if esc == 't' {
                    '\t'
                } else if esc == 'r' {
                    '\r'
                } else {
                    esc
                };
                if self.pos < self.pattern.len() && self.pos + 1 < self.pattern.len() && self.pattern[self.pos] == '-'
                    && self.pattern[self.pos + 1] != ']' {
                    self.pos += 1;
                    let end_c = self.pattern[self.pos];
                    self.pos += 1;
                    ranges.push(ClassRange { start: ch, end: end_c });
                } else {
                    ranges.push(ClassRange { start: ch, end: ch });
                }
            } else {
                self.pos += 1;
                if self.pos < self.pattern.len() && self.pos + 1 < self.pattern.len() && self.pattern[self.pos] == '-'
                    && self.pattern[self.pos + 1] != ']' {
                    self.pos += 1;
                    let end_c = self.pattern[self.pos];
                    self.pos += 1;
                    ranges.push(ClassRange { start: c, end: end_c });
                } else {
                    ranges.push(ClassRange { start: c, end: c });
                }
            }
        }
        if self.pos < self.pattern.len() {
            self.pos += 1;
        }
        self.insts.push(Inst::Class(self.classes.len(), negated, pat_off));
        push_class(&mut self.classes, ranges);
        assert(self.insts@.subrange(0, s0.insts.len() as int) =~= s0.insts);
    }

    /// Reads the run of ASCII digits from `i`: where it ends, and its value
    /// when that fits in `usize`.
    fn scan_digits(&self, i: usize) -> (r: (usize, Option<usize>))
        requires
            i <= self.pattern@.len(),
        ensures
            r.0 as int == digits_end(self.pattern@, i as int),
            i <= r.0 <= self.pattern@.len(),
            r.1 == (if digits_value(self.pattern@, i as int, r.0 as int) <= usize::MAX {
                Some(digits_value(self.pattern@, i as int, r.0 as int) as usize)
            } else {
                None::<usize>
            }),
    {
        let ghost p = self.pattern@;
        let mut j = i;
        let mut val: Option<usize> = Some(0);
        while j < self.pattern.len() && self.pattern[j] >= '0' && self.pattern[j] <= '9'
            invariant
                i <= j <= p.len(),
                p == self.pattern@,
                forall|k: int| i <= k < j ==> is_digit_at(p, k),
                val == (if digits_value(p, i as int, j as int) <= usize::MAX {
                    Some(digits_value(p, i as int, j as int) as usize)
                } else {
                    None::<usize>
                }),
            decreases p.len() - j,
        {
            let d = (self.pattern[j] as u32 - '0' as u32) as usize;
            val = match val {
                Some(v) => match v.checked_mul(10) {
                    Some(v10) => v10.checked_add(d),
                    None => None,
                },
                None => None,
            };
            j += 1;
            assert(digits_value(p, i as int, j as int) == digits_value(p, i as int, (j - 1) as int) * 10 + d);
        }
        proof {
            lemma_digits_end(p, i as int, j as int);
        }
        (j, val)
    }

    /// The counted repetition whose `{` is at the current position.
    fn parse_range_quant(&self) -> (r: Option<(usize, usize, usize)>)
        requires
            self.pos < self.pattern.len(),
        ensures
            match r {
                None => range_spec(self.pattern@, self.pos as int) is None,
                Some(t) => range_spec(self.pattern@, self.pos as int) == Some((t.0, t.1, t.2 as int))
                    && self.pos < t.2 <= self.pattern@.len(),
            },
    {
        let i0 = self.pos + 1;
        let (i, min_val) = self.scan_digits(i0);
        if i == i0 || i >= self.pattern.len() {
            return None;
        }
        let min = match min_val {
            Some(v) => v,
            None => {
                return None;
            },
        };
        if self.pattern[i] == '}' {
            return Some((min, min, i + 1));
        }
        if self.pattern[i] != ',' {
            return None;
        }
        let j0 = i + 1;
        let (j, max_val) = self.scan_digits(j0);
        if j >= self.pattern.len() || self.pattern[j] != '}' {
            return None;
        }
        if j == j0 {
            return Some((min, usize::MAX, j + 1));
        }
        match max_val {
            Some(max) => Some((min, max, j + 1)),
            None => None,
        }
    }

    /// `*`, `+` or `?` applied to `body`, which the caller has just taken
    /// off the end of the instructions.
    fn apply_quantifier(&mut self, body: Vec<Inst>, pat_off: usize, quant: char, lazy: bool) -> (ok: bool)
        ensures
            final(self).pattern@ == old(self).pattern@,
            final(self).pos == old(self).pos,
            final(self).classes@ == old(self).classes@,
            ({
                let start = old(self).insts@.len() as int;
                let r = quant_spec(old(self).insts@ + body@, start, start + body@.len(), pat_off, quant, lazy);
                &&& ok == r is Some
                &&& ok ==> final(self).insts@ == r->0
            }),
    {
        let ghost start = self.insts@.len() as int;
        let ghost full = self.insts@ + body@;
        assert(full.subrange(start, start + body@.len()) =~= body@);
        assert(full.subrange(0, start) =~= self.insts@);
        if quant == '*' {
            let split_pc = self.insts.len();
            let after_pc = match split_pc.checked_add(1) {
                Some(b) => match b.checked_add(body.len()) {
                    Some(c) => c.checked_add(1),
                    None => None,
                },
                None => None,
            };
            match after_pc {
                Some(after_pc) => {
                    self.insts.push(split_inst_exec(lazy, split_pc + 1, after_pc, pat_off));
                    push_all(&mut self.insts, &body);
                    self.insts.push(Inst::Jump(split_pc));
                    assert(self.insts@ =~= old(self).insts@.push(split_inst(lazy, start + 1, after_pc as int, pat_off)) + body@.push(Inst::Jump(split_pc)));
                    true
                },
                None => false,
            }
        } else if quant == '+' {
            let body_pc = self.insts.len();
            push_all(&mut self.insts, &body);
            let split_pc = self.insts.len();
            match split_pc.checked_add(1) {
                Some(after_pc) => {
                    self.insts.push(split_inst_exec(lazy, body_pc, after_pc, pat_off));
                    true
                },
                None => false,
            }
        } else if quant == '?' {
            let split_pc = self.insts.len();
            let after_pc = match split_pc.checked_add(1) {
                Some(b) => b.checked_add(body.len()),
                None => None,
            };
            match after_pc {
                Some(after_pc) => {
                    self.insts.push(split_inst_exec(lazy, split_pc + 1, after_pc, pat_off));
                    push_all(&mut self.insts, &body);
                    true
                },
                None => false,
            }
        } else {
            true
        }
    }

    /// A counted repetition `{min,max}` applied to `body`, which the caller
    /// has just taken off the end of the instructions.
    fn apply_range_quantifier(
        &mut self,
        body: Vec<Inst>,
        pat_off: usize,
        min: usize,
        max: usize,
        lazy: bool,
    ) -> (ok: bool)
        ensures
            final(self).pattern@ == old(self).pattern@,
            final(self).pos == old(self).pos,
            final(self).classes@ == old(self).classes@,
            ({
                let start = old(self).insts@.len() as int;
                let r = range_quant_spec(old(self).insts@ + body@, start, start + body@.len(), pat_off, min, max, lazy);
                &&& ok == r is Some
                &&& ok ==> final(self).insts@ == r->0
            }),
    {
        let ghost start = self.insts@.len() as int;
        let ghost full = self.insts@ + body@;
        assert(full.subrange(start, start + body@.len()) =~= body@);
        assert(full.subrange(0, start) =~= self.insts@);
        let mut k: usize = 0;
        while k < min
            invariant
                k <= min,
                self.insts@ == old(self).insts@ + repeat(body@, k as nat),
                self.pattern@ == old(self).pattern@,
                self.pos == old(self).pos,
                self.classes@ == old(self).classes@,
            decreases min - k,
        {
            push_all(&mut self.insts, &body);
            k += 1;
            assert(self.insts@ =~= old(self).insts@ + repeat(body@, k as nat));
        }
        if max == usize::MAX {
            let split_pc = self.insts.len();
            let after_pc = match split_pc.checked_add(1) {
                Some(b) => match b.checked_add(body.len()) {
                    Some(c) => c.checked_add(1),
                    None => None,
                },
                None => None,
            };
            return match after_pc {
                Some(after_pc) => {
                    let ghost mid = self.insts@;
                    self.insts.push(split_inst_exec(lazy, split_pc + 1, after_pc, pat_off));
                    push_all(&mut self.insts, &body);
                    self.insts.push(Inst::Jump(split_pc));
                    assert(self.insts@ =~= mid.push(split_inst(lazy, split_pc + 1, after_pc as int, pat_off)) + body@.push(Inst::Jump(split_pc)));
                    true
                },
                None => false,
            };
        }
        if max < min {
            return false;
        }
        let extra = max - min;
        let opt_size = match body.len().checked_add(1) {
            Some(o) => o,
            None => {
                return false;
            },
        };
        let base = self.insts.len();
        let after_pc = match extra.checked_mul(opt_size) {
            Some(total) => base.checked_add(total),
            None => None,
        };
        let after_pc = match after_pc {
            Some(a) => a,
            None => {
                proof {
                    if extra * opt_size <= usize::MAX {
                        assert(base + extra * opt_size > usize::MAX);
                    }
                    assert(extra * opt_size >= 0) by (nonlinear_arith)
                        requires extra >= 0, opt_size >= 0;
                }
                return false;
            },
        };
        let ghost mid = self.insts@;
        let ghost goal = mid + optional_copies(body@, extra as nat, base as int, after_pc as int, pat_off, lazy);
        let mut i: usize = 0;
        while i < extra
            invariant
                i <= extra,
                self.insts@.len() == base + i * opt_size,
                base + extra * opt_size == after_pc,
                opt_size == body@.len() + 1,
                goal == self.insts@ + optional_copies(body@, (extra - i) as nat, self.insts@.len() as int, after_pc as int, pat_off, lazy),
                self.pattern@ == old(self).pattern@,
                self.pos == old(self).pos,
                self.classes@ == old(self).classes@,
            decreases extra - i,
        {
            let split_pc = self.insts.len();
            proof {
                assert(i * opt_size + opt_size <= extra * opt_size) by (nonlinear_arith)
                    requires i < extra, opt_size >= 1;
            }
            let ghost before = self.insts@;
            self.insts.push(split_inst_exec(lazy, split_pc + 1, after_pc, pat_off));
            push_all(&mut self.insts, &body);
            i += 1;
            proof {
                assert((i - 1) * opt_size + opt_size == i * opt_size) by (nonlinear_arith)
                    requires i >= 1;
                assert(self.insts@ =~= before + (seq![split_inst(lazy, split_pc + 1, after_pc as int, pat_off)] + body@));
            }
        }
        assert(self.insts@ =~= goal);
        true
    }

    /// Lays out the branches of an alternation after the instructions so
    /// far: a chain of choice points, then each branch (moved to its place)
    /// followed by a jump past the last one.
    fn assemble(&mut self, branches: Vec<Vec<Inst>>, group_pat_off: usize) -> (ok: bool)
        requires
            branches@.len() >= 1,
        ensures
            final(self).pattern@ == old(self).pattern@,
            final(self).pos == old(self).pos,
            final(self).classes@ == old(self).classes@,
            ({
                let r = assemble(old(self).insts@, view_code(branches@), group_pat_off);
                &&& ok == r is Some
                &&& ok ==> final(self).insts@ == r->0
            }),
    {
        let ghost bv = view_code(branches@);
        let ghost prefix = self.insts@;
        let n = branches.len();
        if n == 1 {
            push_all(&mut self.insts, &branches[0]);
            return true;
        }
        let base = self.insts.len();
        let num_splits = n - 1;
        let ghost end_pc_spec = branch_start(base as int, bv, n - 1) + bv[n - 1].len();
        proof {
            lemma_branches_before_mono(bv, 0, n - 1);
        }
        let code_area_start = match base.checked_add(num_splits) {
            Some(c) => c,
            None => {
                return false;
            },
        };
        let mut starts: Vec<usize> = Vec::new();
        let mut cursor = code_area_start;
        let mut i: usize = 0;
        while i < n
            invariant
                n == branches@.len(),
                bv == view_code(branches@),
                n >= 2,
                num_splits == n - 1,
                i <= n,
                starts@.len() == i,
                forall|j: int| 0 <= j < i ==> starts@[j] == branch_start(base as int, bv, j),
                i < n ==> cursor == branch_start(base as int, bv, i as int),
                i == n ==> cursor == end_pc_spec,
                end_pc_spec == branch_start(base as int, bv, n - 1) + bv[n - 1].len(),
                self.insts@ == prefix,
                prefix == old(self).insts@,
                base == prefix.len(),
                self.pattern@ == old(self).pattern@,
                self.pos == old(self).pos,
                self.classes@ == old(self).classes@,
            decreases n - i,
        {
            starts.push(cursor);
            assert(bv[i as int].len() == branches[i as int]@.len());
            cursor = match cursor.checked_add(branches[i].len()) {
                Some(c) => c,
                None => {
                    proof {
                        if i < n - 1 {
                            lemma_branches_before_mono(bv, i + 1, n - 1);
                        }
                    }
                    return false;
                },
            };
            if i < n - 1 {
                cursor = match cursor.checked_add(1) {
                    Some(c) => c,
                    None => {
                        proof {
                            lemma_branches_before_mono(bv, i + 1, n - 1);
                        }
                        return false;
                    },
                };
            }
            i += 1;
        }
        let end_pc = cursor;
        proof {
            lemma_branches_before_mono(bv, 0, n - 1);
        }
        let mut i: usize = 0;
        while i < num_splits
            invariant
                n == branches@.len(),
                bv == view_code(branches@),
                n >= 2,
                num_splits == n - 1,
                i <= num_splits,
                base == prefix.len(),
                base + num_splits <= usize::MAX,
                starts@.len() == n,
                forall|j: int| 0 <= j < n ==> starts@[j] == branch_start(base as int, bv, j),
                self.insts@ == prefix + split_chain(base as int, bv, group_pat_off).take(i as int),
                self.pattern@ == old(self).pattern@,
                self.pos == old(self).pos,
                self.classes@ == old(self).classes@,
            decreases num_splits - i,
        {
            let prefer = starts[i];
            let alt = if i + 1 < num_splits { base + i + 1 } else { starts[n - 1] };
            self.insts.push(Inst::Split(prefer, alt, group_pat_off));
            assert(split_chain(base as int, bv, group_pat_off)[i as int] == Inst::Split(prefer, alt, group_pat_off));
            i += 1;
            assert(split_chain(base as int, bv, group_pat_off).take(i as int) =~= split_chain(base as int, bv, group_pat_off).take((i - 1) as int).push(Inst::Split(prefer, alt, group_pat_off)));
        }
        let ghost goal = assemble(prefix, bv, group_pat_off);
        assert(split_chain(base as int, bv, group_pat_off).take(i as int) =~= split_chain(base as int, bv, group_pat_off));
        proof {
            match branch_code(base as int, bv, end_pc as int, 0) {
                None => {},
                Some(code) => {
                    assert(prefix + split_chain(base as int, bv, group_pat_off) + code =~= self.insts@ + code);
                },
            }
        }
        assert forall|j: int| 0 <= j < n implies base <= #[trigger] branch_start(base as int, bv, j) by {
            lemma_branches_before_mono(bv, 0, j);
        }
        let mut i: usize = 0;
        while i < n
            invariant
                n == branches@.len(),
                bv == view_code(branches@),
                n >= 2,
                i <= n,
                base == prefix.len(),
                prefix == old(self).insts@,
                goal == assemble(prefix, bv, group_pat_off),
                starts@.len() == n,
                forall|j: int| 0 <= j < n ==> starts@[j] == branch_start(base as int, bv, j),
                forall|j: int| 0 <= j < n ==> base <= #[trigger] branch_start(base as int, bv, j),
                goal == match branch_code(base as int, bv, end_pc as int, i as int) {
                    None => None,
                    Some(rest) => Some(self.insts@ + rest),
                },
                self.pattern@ == old(self).pattern@,
                self.pos == old(self).pos,
                self.classes@ == old(self).classes@,
            decreases n - i,
        {
            assert(base <= branch_start(base as int, bv, i as int));
            let reloc = starts[i] - base;
            let bi = &branches[i];
            let ghost code = bv[i as int];
            assert(code == bi@);
            let ghost before = self.insts@;
            assert(reloc as int == branch_start(base as int, bv, i as int) - base);
            let mut k: usize = 0;
            while k < bi.len()
                invariant
                    k <= bi@.len(),
                    code == bi@,
                    i < n,
                    n == bv.len(),
                    bv == view_code(branches@),
                    prefix == old(self).insts@,
                    goal == assemble(prefix, bv, group_pat_off),
                    code == bv[i as int],
                    reloc as int == branch_start(base as int, bv, i as int) - base,
                    goal == match branch_code(base as int, bv, end_pc as int, i as int) {
                        None => None,
                        Some(rest) => Some(before + rest),
                    },
                    self.insts@ == before + code.take(k as int).map_values(|x: Inst| relocate(x, reloc as int)),
                    forall|j: int| 0 <= j < k ==> !relocation_overflows(#[trigger] code[j], reloc as int),
                    self.pattern@ == old(self).pattern@,
                    self.pos == old(self).pos,
                    self.classes@ == old(self).classes@,
                decreases bi@.len() - k,
            {
                match relocate_inst(bi[k], reloc) {
                    Some(x) => {
                        self.insts.push(x);
                    },
                    None => {
                        assert(relocate_all(code, reloc as int) is None);
                        assert(branch_code(base as int, bv, end_pc as int, i as int) is None);
                        return false;
                    },
                }
                k += 1;
                assert(code.take(k as int).map_values(|x: Inst| relocate(x, reloc as int)) =~= code.take((k - 1) as int).map_values(|x: Inst| relocate(x, reloc as int)).push(relocate(code[k - 1], reloc as int)));
            }
            assert(code.take(k as int) =~= code);
            assert(relocate_all(code, reloc as int) == Some(code.map_values(|x: Inst| relocate(x, reloc as int))));
            if i < n - 1 {
                self.insts.push(Inst::Jump(end_pc));
            }
            i += 1;
            proof {
                match branch_code(base as int, bv, end_pc as int, i as int) {
                    None => {},
                    Some(rest) => {
                        let moved = code.map_values(|x: Inst| relocate(x, reloc as int));
                        if i - 1 < n - 1 {
                            assert(before + moved.push(Inst::Jump(end_pc)) + rest =~= before + (moved.push(Inst::Jump(end_pc)) + rest));
                        } else {
                            assert(before + moved + rest =~= before + (moved + rest));
                        }
                    },
                }
            }
        }
        assert(self.insts@ + Seq::<Inst>::empty() =~= self.insts@);
        true
    }

    /// One of `.`, `^`, `$` or a literal character.
    fn compile_simple(&mut self)
        requires
            old(self).pos < old(self).pattern.len(),
        ensures
            final(self).pattern@ == old(self).pattern@,
            final(self).state() == simple_atom(old(self).pattern@, old(self).state()),
            final(self).pos <= final(self).pattern.len(),
            is_prefix(old(self).insts@, final(self).insts@),
    {
        let pat_off = self.pos;
        let ch = self.pattern[self.pos];
        self.pos += 1;
        let inst = if ch == '.' {
            Inst::Dot(pat_off)
        } else if ch == '^' {
            Inst::Anchor(AnchorKind::Start, pat_off)
        } else if ch == '$' {
            Inst::Anchor(AnchorKind::End, pat_off)
        } else {
            Inst::Literal(ch, pat_off)
        };
        push_inst(&mut self.insts, inst);
    }

    /// A backslash escape.
    fn compile_escape(&mut self)
        requires
            old(self).pos < old(self).pattern.len(),
        ensures
            final(self).pattern@ == old(self).pattern@,
            final(self).state() == escape_atom(old(self).pattern@, old(self).state()),
            final(self).pos <= final(self).pattern.len(),
            is_prefix(old(self).insts@, final(self).insts@),
    {
        let ghost old_insts = self.insts@;
        let pat_off = self.pos;
        self.pos += 1;
        if self.pos < self.pattern.len() {
            let esc = self.pattern[self.pos];
            self.pos += 1;
            let kind = if esc == 'd' {
                EscKind::Digit
            } else if esc == 'D' {
                EscKind::NonDigit
            } else if esc == 'w' {
                EscKind::Word
            } else if esc == 'W' {
                EscKind::NonWord
            } else if esc == 's' {
                EscKind::Space
            } else if esc == 'S' {
                EscKind::NonSpace
            } else {
                EscKind::Char(esc)
            };
            push_inst(&mut self.insts, Inst::Escape(kind, pat_off));
        } else {
            assert(self.insts@.subrange(0, old_insts.len() as int) =~= old_insts);
        }
    }

    /// A group: its alternation, then its `)`.
    fn compile_group(&mut self) -> (ok: bool)
        requires
            old(self).pos < old(self).pattern.len(),
        ensures
            final(self).pattern@ == old(self).pattern@,
            ok == group_spec(old(self).pattern@, old(self).state()) is Some,
            ok ==> final(self).state() == group_spec(old(self).pattern@, old(self).state())->0,
            ok ==> old(self).pos < final(self).pos <= final(self).pattern.len(),
            ok ==> is_prefix(old(self).insts@, final(self).insts@),
        decreases old(self).pattern@.len() - old(self).pos, 0nat,
    {
        let pat_off = self.pos;
        self.pos += 1;
        if self.pos < self.pattern.len() && self.pos + 1 < self.pattern.len()
            && self.pattern[self.pos] == '?' && self.pattern[self.pos + 1] == ':' {
            self.pos += 2;
        }
        if !self.compile_alternation_full(pat_off) {
            return false;
        }
        if self.pos < self.pattern.len() && self.pattern[self.pos] == ')' {
            self.pos += 1;
        }
        true
    }

    /// An atom at the current position.
    fn compile_atom(&mut self) -> (ok: bool)
        requires
            old(self).pos <= old(self).pattern.len(),
        ensures
            final(self).pattern@ == old(self).pattern@,
            ok == atom_spec(old(self).pattern@, old(self).state()) is Some,
            ok ==> final(self).state() == atom_spec(old(self).pattern@, old(self).state())->0,
            ok ==> old(self).pos <= final(self).pos <= final(self).pattern.len(),
            ok && old(self).pos < old(self).pattern.len() ==> old(self).pos < final(self).pos,
            ok ==> is_prefix(old(self).insts@, final(self).insts@),
        decreases old(self).pattern@.len() - old(self).pos, 1nat,
    {
        if self.pos >= self.pattern.len() {
            assert(self.insts@.subrange(0, self.insts@.len() as int) =~= self.insts@);
            return true;
        }
        let ch = self.pattern[self.pos];
        if ch == '(' {
            self.compile_group()
        } else if ch == '[' {
            self.compile_class();
            true
        } else if ch == '\\' {
            self.compile_escape();
            true
        } else {
            self.compile_simple();
            true
        }
    }

    /// `*`, `+` or `?` (the character at the current position) after an
    /// atom that starts at instruction `atom_start`.
    fn compile_simple_quantifier(&mut self, atom_start: usize, atom_pat_start: usize) -> (ok: bool)
        requires
            atom_start <= old(self).insts@.len(),
            old(self).pos < old(self).pattern.len(),
        ensures
            final(self).pattern@ == old(self).pattern@,
            ({
                let p = old(self).pattern@;
                let a = old(self).state();
                let q = a.pos + 1;
                let lazy = q < p.len() && p[q] == '?';
                let r = quant_spec(a.insts, atom_start as int, a.insts.len() as int, atom_pat_start, p[a.pos], lazy);
                &&& ok == r is Some
                &&& ok ==> final(self).state() == CState { insts: r->0, classes: a.classes, pos: if lazy { q + 1 } else { q } }
            }),
            ok ==> old(self).pos < final(self).pos <= final(self).pattern.len(),
            ok ==> is_prefix(old(self).insts@.subrange(0, atom_start as int), final(self).insts@),
    {
        let ghost a = self.state();
        let ghost prefix = self.insts@.subrange(0, atom_start as int);
        let c = self.pattern[self.pos];
        self.pos += 1;
        let lazy = self.pos < self.pattern.len() && self.pattern[self.pos] == '?';
        if lazy {
            self.pos += 1;
        }
        let body = self.insts.split_off(atom_start);
        assert(self.insts@ + body@ =~= a.insts);
        let ok = self.apply_quantifier(body, atom_pat_start, c, lazy);
        if ok {
            proof {
                let r = quant_spec(a.insts, atom_start as int, a.insts.len() as int, atom_pat_start, c, lazy);
                assert(r->0.subrange(0, atom_start as int) =~= prefix);
            }
        }
        ok
    }

    /// A counted repetition, read by `parse_range_quant` as `(min, max,
    /// end_pos)`, after an atom that starts at instruction `atom_start`.
    fn compile_counted_quantifier(
        &mut self,
        atom_start: usize,
        atom_pat_start: usize,
        min: usize,
        max: usize,
        end_pos: usize,
    ) -> (ok: bool)
        requires
            atom_start <= old(self).insts@.len(),
            old(self).pos < end_pos <= old(self).pattern.len(),
        ensures
            final(self).pattern@ == old(self).pattern@,
            ({
                let p = old(self).pattern@;
                let a = old(self).state();
                let e = end_pos as int;
                let lazy = e < p.len() && p[e] == '?';
                let r = range_quant_spec(a.insts, atom_start as int, a.insts.len() as int, atom_pat_start, min, max, lazy);
                &&& ok == r is Some
                &&& ok ==> final(self).state() == CState { insts: r->0, classes: a.classes, pos: if lazy { e + 1 } else { e } }
            }),
            ok ==> old(self).pos < final(self).pos <= final(self).pattern.len(),
            ok ==> is_prefix(old(self).insts@.subrange(0, atom_start as int), final(self).insts@),
    {
        let ghost a = self.state();
        let ghost prefix = self.insts@.subrange(0, atom_start as int);
        self.pos = end_pos;
        let lazy = self.pos < self.pattern.len() && self.pattern[self.pos] == '?';
        if lazy {
            self.pos += 1;
        }
        let body = self.insts.split_off(atom_start);
        assert(self.insts@ + body@ =~= a.insts);
        let ok = self.apply_range_quantifier(body, atom_pat_start, min, max, lazy);
        if ok {
            proof {
                let body_v = a.insts.subrange(atom_start as int, a.insts.len() as int);
                let mid = a.insts.subrange(0, atom_start as int) + repeat(body_v, min as nat);
                assert(mid.subrange(0, atom_start as int) =~= prefix);
                assert(self.insts@.subrange(0, atom_start as int) =~= mid.subrange(0, atom_start as int));
            }
        }
        ok
    }

    /// The quantifier, if any, after an atom that starts at instruction
    /// `atom_start` and at pattern offset `atom_pat_start`.
    fn compile_quantifier_tail(&mut self, atom_start: usize, atom_pat_start: usize) -> (ok: bool)
        requires
            atom_start <= old(self).insts@.len(),
            old(self).pos <= old(self).pattern.len(),
        ensures
            final(self).pattern@ == old(self).pattern@,
            ({
                let s = CState { insts: old(self).insts@.subrange(0, atom_start as int), classes: Seq::empty(), pos: atom_pat_start as int };
                let r = quantifier_tail(old(self).pattern@, s, old(self).state());
                &&& ok == r is Some
                &&& ok ==> final(self).state() == r->0
            }),
            ok ==> old(self).pos <= final(self).pos <= final(self).pattern.len(),
            ok ==> is_prefix(old(self).insts@.subrange(0, atom_start as int), final(self).insts@),
    {
        let ghost prefix = self.insts@.subrange(0, atom_start as int);
        if self.pos < self.pattern.len() {
            let c = self.pattern[self.pos];
            if c == '*' || c == '+' || c == '?' {
                return self.compile_simple_quantifier(atom_start, atom_pat_start);
            } else if c == '{' {
                match self.parse_range_quant() {
                    Some((min, max, end_pos)) => {
                        return self.compile_counted_quantifier(atom_start, atom_pat_start, min, max, end_pos);
                    },
                    None => {},
                }
            }
        }
        assert(self.insts@.subrange(0, atom_start as int) =~= prefix);
        true
    }

    /// An atom at the current position and the quantifier after it.
    fn compile_quantified(&mut self) -> (ok: bool)
        requires
            old(self).pos < old(self).pattern.len(),
        ensures
            final(self).pattern@ == old(self).pattern@,
            ok == quantified_spec(old(self).pattern@, old(self).state()) is Some,
            ok ==> final(self).state() == quantified_spec(old(self).pattern@, old(self).state())->0,
            ok ==> old(self).pos < final(self).pos <= final(self).pattern.len(),
            ok ==> is_prefix(old(self).insts@, final(self).insts@),
        decreases old(self).pattern@.len() - old(self).pos, 2nat,
    {
        let ghost p = self.pattern@;
        let ghost s0 = self.state();
        let atom_start = self.insts.len();
        let atom_pat_start = self.pos;
        if !self.compile_atom() {
            return false;
        }
        let ghost a = self.state();
        assert(a.insts.subrange(0, atom_start as int) =~= s0.insts);
        let ok = self.compile_quantifier_tail(atom_start, atom_pat_start);
        proof {
            assert(quantifier_tail(p, CState { insts: s0.insts, classes: Seq::empty(), pos: s0.pos }, a)
                == quantifier_tail(p, s0, a));
        }
        ok
    }

    /// Quantified atoms up to `)`, `|` or the end of the pattern.
    fn compile_concat(&mut self) -> (ok: bool)
        requires
            old(self).pos <= old(self).pattern.len(),
        ensures
            final(self).pattern@ == old(self).pattern@,
            ok == concat_spec(old(self).pattern@, old(self).state()) is Some,
            ok ==> final(self).state() == concat_spec(old(self).pattern@, old(self).state())->0,
            ok ==> old(self).pos <= final(self).pos <= final(self).pattern.len(),
            ok ==> is_prefix(old(self).insts@, final(self).insts@),
        decreases old(self).pattern@.len() - old(self).pos, 3nat,
    {
        let ghost p = self.pattern@;
        let ghost goal = concat_spec(p, self.state());
        assert(self.insts@.subrange(0, self.insts@.len() as int) =~= self.insts@);
        while self.pos < self.pattern.len() && self.pattern[self.pos] != ')' && self.pattern[self.pos] != '|'
            invariant
                self.pattern@ == p,
                p == old(self).pattern@,
                old(self).pos <= self.pos <= self.pattern.len(),
                concat_spec(p, self.state()) == goal,
                goal == concat_spec(p, old(self).state()),
                is_prefix(old(self).insts@, self.insts@),
            decreases p.len() - self.pos,
        {
            let ghost before = self.insts@;
            let ghost cur = self.state();
            if !self.compile_quantified() {
                assert(quantified_spec(p, cur) is None);
                assert(concat_spec(p, cur) is None);
                return false;
            }
            proof {
                lemma_prefix_trans(old(self).insts@, before, self.insts@);
            }
        }
        true
    }

    /// An alternation from the current position; its choice points report
    /// the pattern offset `group_pat_off`.
    fn compile_alternation_full(&mut self, group_pat_off: usize) -> (ok: bool)
        requires
            old(self).pos <= old(self).pattern.len(),
        ensures
            final(self).pattern@ == old(self).pattern@,
            ok == alt_spec(old(self).pattern@, old(self).state(), group_pat_off) is Some,
            ok ==> final(self).state() == alt_spec(old(self).pattern@, old(self).state(), group_pat_off)->0,
            ok ==> old(self).pos <= final(self).pos <= final(self).pattern.len(),
            ok ==> is_prefix(old(self).insts@, final(self).insts@),
        decreases old(self).pattern@.len() - old(self).pos, 5nat,
    {
        let ghost p = self.pattern@;
        let ghost s0 = self.state();
        let base = self.insts.len();
        if !self.compile_concat() {
            return false;
        }
        let first = self.insts.split_off(base);
        assert(self.insts@ =~= s0.insts);
        let mut branches: Vec<Vec<Inst>> = Vec::new();
        push_code(&mut branches, first);
        let ghost goal = more_branches(p, s0.insts, view_classes(self.classes@), self.pos as int, view_code(branches@));
        assert(view_code(branches@) =~= seq![first@]);
        assert(alt_spec(p, s0, group_pat_off) == match goal {
            None => None,
            Some(b) => match assemble(s0.insts, b.0, group_pat_off) {
                None => None,
                Some(ins) => Some(CState { insts: ins, classes: b.1, pos: b.2 }),
            },
        });
        while self.pos < self.pattern.len() && self.pattern[self.pos] == '|'
            invariant
                self.pattern@ == p,
                p == old(self).pattern@,
                s0 == old(self).state(),
                self.insts@ == s0.insts,
                base == s0.insts.len(),
                s0.pos <= self.pos <= self.pattern.len(),
                branches@.len() >= 1,
                more_branches(p, s0.insts, view_classes(self.classes@), self.pos as int, view_code(branches@)) == goal,
                alt_spec(p, s0, group_pat_off) == match goal {
                    None => None,
                    Some(b) => match assemble(s0.insts, b.0, group_pat_off) {
                        None => None,
                        Some(ins) => Some(CState { insts: ins, classes: b.1, pos: b.2 }),
                    },
                },
            decreases p.len() - self.pos,
        {
            let ghost cur_classes = view_classes(self.classes@);
            let ghost cur_pos = self.pos as int;
            self.pos += 1;
            if !self.compile_concat() {
                assert(more_branches(p, s0.insts, cur_classes, cur_pos, view_code(branches@)) is None);
                return false;
            }
            let branch = self.insts.split_off(base);
            assert(self.insts@ =~= s0.insts);
            push_code(&mut branches, branch);
        }
        let ok = self.assemble(branches, group_pat_off);
        if ok {
            proof {
                let r = assemble(s0.insts, view_code(branches@), group_pat_off)->0;
                assert(self.insts@ == r);
                if view_code(branches@).len() <= 1 {
                    assert(r.subrange(0, base as int) =~= s0.insts);
                } else {
                    assert(r.subrange(0, base as int) =~= s0.insts);
                }
            }
        }
        ok
    }

    fn compile_alternation(&mut self) -> (ok: bool)
        requires
            old(self).pos <= old(self).pattern.len(),
        ensures
            final(self).pattern@ == old(self).pattern@,
            ok == alt_spec(old(self).pattern@, old(self).state(), 0) is Some,
            ok ==> final(self).state() == alt_spec(old(self).pattern@, old(self).state(), 0)->0,
    {
        self.compile_alternation_full(0)
    }
}

/// Compiles a pattern into a program: none when the pattern has a counted
/// repetition whose upper bound is below its lower one, or when the program
/// would be too large for its addresses to fit in `usize`.
pub fn compile(pattern: &str) -> (r: Option<Program>)
    ensures
        match r {
            None => compile_spec(pattern@) is None,
            Some(prog) => compile_spec(pattern@) == Some(prog@),
        },
{
    let mut c = Compiler::new(pattern);
    assert(c.state() == CState { insts: Seq::<Inst>::empty(), classes: Seq::<Seq<ClassRange>>::empty(), pos: 0 });
    if !c.compile_alternation() {
        return None;
    }
    c.insts.push(Inst::Match);
    Some(Program { insts: c.insts, classes: c.classes })
}

} // verus!
