//! Syntax highlighting of a pattern: the tokens of the pattern, each with
//! its kind and the capture group it lies in, read from the syntax tree
//! when the pattern parses and by a byte scan when it does not.

use vstd::prelude::*;
use vstd::utf8::encode_utf8;
use crate::syntax::{ByteSpan, GroupForm, LiteralForm, SyntaxNode, span_of};
use crate::parser::{parse_pattern, parsed_tree};

verus! {

/// What a token of the pattern is.
#[derive(Debug, Clone, Copy, PartialEq, Eq, Structural)]
pub enum TokenKind {
    Literal,
    Escape,
    Quantifier,
    Anchor,
    CharClass,
    Dot,
    Alternation,
    Flag,
    Lookaround,
    /// A parenthesis of the capture group with this index.
    GroupParen(u32),
    NonCapturingParen,
}

/// A token: its byte range in the pattern, its kind, and the innermost
/// capture group around it (for a parenthesis, its own group).
#[derive(Debug, Clone, Copy)]
pub struct HighlightToken {
    pub start: usize,
    pub end: usize,
    pub kind: TokenKind,
    pub capture_group: Option<u32>,
}

/// A token with the given fields.
pub open spec fn tok(start: usize, end: usize, kind: TokenKind, group: Option<u32>) -> HighlightToken {
    HighlightToken { start, end, kind, capture_group: group }
}

// ===== Tokens from the syntax tree =====

/// Whether a literal is shown as an escape: an escaped metacharacter, a
/// needless escape, or a special character's escape.
pub open spec fn is_escape_literal(k: LiteralForm) -> bool {
    match k {
        LiteralForm::Meta => true,
        LiteralForm::Superfluous => true,
        LiteralForm::Special(_) => true,
        _ => false,
    }
}

/// The capture index of a group, if it captures.
pub open spec fn capture_index(k: GroupForm) -> Option<u32> {
    match k {
        GroupForm::CaptureIndex(i) => Some(i),
        GroupForm::CaptureName { index, .. } => Some(index),
        GroupForm::NonCapturing => None,
    }
}

/// The kind of a group's parentheses.
pub open spec fn paren_kind(cap: Option<u32>) -> TokenKind {
    match cap {
        Some(i) => TokenKind::GroupParen(i),
        None => TokenKind::NonCapturingParen,
    }
}

/// `a + b`, or `usize::MAX` when that does not fit.
pub open spec fn sat_add(a: usize, b: int) -> usize {
    if a + b > usize::MAX { usize::MAX } else { (a + b) as usize }
}

/// Where the opening of a group ends: after `(`; after `(?P<name>` or
/// `(?<name>`; for a non-capturing group, where its contents start.
pub open spec fn group_open_end(start: usize, k: GroupForm, child: SyntaxNode) -> usize {
    match k {
        GroupForm::CaptureIndex(_) => sat_add(start, 1),
        GroupForm::CaptureName { name, starts_with_p, .. } => sat_add(
            start,
            (if starts_with_p { 4int } else { 3int }) + encode_utf8(name@).len() + 1,
        ),
        GroupForm::NonCapturing => span_of(child).start,
    }
}

/// The tokens of a node, in the order the tree is walked: a repetition's
/// operator after its operand (and a `?` after it when the repetition is
/// lazy); a group's parentheses around its contents; a `|` after every
/// branch but the last. `g` is the innermost capture group around.
pub open spec fn walk(n: SyntaxNode, g: Option<u32>) -> Seq<HighlightToken>
    decreases n,
{
    match n {
        SyntaxNode::Empty(_) => Seq::empty(),
        SyntaxNode::Flags(s) => seq![tok(s.start, s.end, TokenKind::Flag, g)],
        SyntaxNode::Literal(s, k, _) => seq![
            tok(s.start, s.end, if is_escape_literal(k) { TokenKind::Escape } else { TokenKind::Literal }, g),
        ],
        SyntaxNode::Dot(s) => seq![tok(s.start, s.end, TokenKind::Dot, g)],
        SyntaxNode::Assertion(s, _) => seq![tok(s.start, s.end, TokenKind::Anchor, g)],
        SyntaxNode::ClassUnicode(s, _) => seq![tok(s.start, s.end, TokenKind::CharClass, g)],
        SyntaxNode::ClassPerl(s, _, _) => seq![tok(s.start, s.end, TokenKind::CharClass, g)],
        SyntaxNode::ClassBracketed(s, _, _) => seq![tok(s.start, s.end, TokenKind::CharClass, g)],
        SyntaxNode::Repetition { op, greedy, child, .. } => walk(*child, g) + seq![
            tok(op.start, op.end, TokenKind::Quantifier, g),
        ] + (if !greedy { seq![tok(op.end, sat_add(op.end, 1), TokenKind::Quantifier, g)] } else { Seq::empty() }),
        SyntaxNode::Group { span, group, child } => {
            let cap = capture_index(group);
            let this = if cap is Some { cap } else { g };
            let pk = paren_kind(cap);
            seq![tok(span.start, group_open_end(span.start, group, *child), pk, this)] + walk(*child, this)
                + seq![tok(if span.end > 0 { (span.end - 1) as usize } else { 0 }, span.end, pk, this)]
        },
        SyntaxNode::Alternation(_, kids) => walk_alt(kids@, g),
        SyntaxNode::Concat(_, kids) => walk_seq(kids@, g),
    }
}

/// The tokens of a sequence of nodes, one after the other.
pub open spec fn walk_seq(kids: Seq<SyntaxNode>, g: Option<u32>) -> Seq<HighlightToken>
    decreases kids,
{
    if kids.len() == 0 {
        Seq::empty()
    } else {
        walk_seq(kids.drop_last(), g) + walk(kids.last(), g)
    }
}

/// The `|` token after a branch.
pub open spec fn bar_after(n: SyntaxNode, g: Option<u32>) -> HighlightToken {
    let e = span_of(n).end;
    tok(e, sat_add(e, 1), TokenKind::Alternation, g)
}

/// The tokens of the branches of an alternation, a `|` after every branch
/// but the last.
pub open spec fn walk_alt(kids: Seq<SyntaxNode>, g: Option<u32>) -> Seq<HighlightToken>
    decreases kids,
{
    if kids.len() == 0 {
        Seq::empty()
    } else if kids.len() == 1 {
        walk(kids[0], g)
    } else {
        walk_alt(kids.drop_last(), g) + seq![bar_after(kids[kids.len() - 2], g)] + walk(kids.last(), g)
    }
}


fn sat_add_exec(a: usize, b: usize) -> (r: usize)
    ensures
        r == sat_add(a, b as int),
{
    a.saturating_add(b)
}

fn group_open_end_exec(start: usize, k: &GroupForm, child: &SyntaxNode) -> (r: usize)
    ensures
        r == group_open_end(start, *k, *child),
{
    match k {
        GroupForm::CaptureIndex(_) => sat_add_exec(start, 1),
        GroupForm::CaptureName { name, starts_with_p, .. } => {
            let n = name.as_str().as_bytes().len();
            let head: usize = if *starts_with_p { 4 } else { 3 };
            let r = sat_add_exec(sat_add_exec(sat_add_exec(start, head), n), 1);
            r
        },
        GroupForm::NonCapturing => child.span().start,
    }
}

fn capture_index_exec(k: &GroupForm) -> (r: Option<u32>)
    ensures
        r == capture_index(*k),
{
    match k {
        GroupForm::CaptureIndex(i) => Some(*i),
        GroupForm::CaptureName { index, .. } => Some(*index),
        GroupForm::NonCapturing => None,
    }
}

fn push_tok(tokens: &mut Vec<HighlightToken>, start: usize, end: usize, kind: TokenKind, g: Option<u32>)
    ensures
        final(tokens)@ == old(tokens)@.push(tok(start, end, kind, g)),
{
    tokens.push(HighlightToken { start, end, kind, capture_group: g });
}

/// Appends the tokens of a node.
fn walk_into(n: &SyntaxNode, tokens: &mut Vec<HighlightToken>, g: Option<u32>)
    ensures
        final(tokens)@ == old(tokens)@ + walk(*n, g),
    decreases n,
{
    let ghost start = tokens@;
    match n {
        SyntaxNode::Empty(_) => {},
        SyntaxNode::Flags(s) => push_tok(tokens, s.start, s.end, TokenKind::Flag, g),
        SyntaxNode::Literal(s, k, _) => {
            let kind = match k {
                LiteralForm::Meta => TokenKind::Escape,
                LiteralForm::Superfluous => TokenKind::Escape,
                LiteralForm::Special(_) => TokenKind::Escape,
                _ => TokenKind::Literal,
            };
            push_tok(tokens, s.start, s.end, kind, g);
        },
        SyntaxNode::Dot(s) => push_tok(tokens, s.start, s.end, TokenKind::Dot, g),
        SyntaxNode::Assertion(s, _) => push_tok(tokens, s.start, s.end, TokenKind::Anchor, g),
        SyntaxNode::ClassUnicode(s, _) => push_tok(tokens, s.start, s.end, TokenKind::CharClass, g),
        SyntaxNode::ClassPerl(s, _, _) => push_tok(tokens, s.start, s.end, TokenKind::CharClass, g),
        SyntaxNode::ClassBracketed(s, _, _) => push_tok(tokens, s.start, s.end, TokenKind::CharClass, g),
        SyntaxNode::Repetition { op, greedy, child, .. } => {
            walk_into(child, tokens, g);
            push_tok(tokens, op.start, op.end, TokenKind::Quantifier, g);
            if !*greedy {
                push_tok(tokens, op.end, sat_add_exec(op.end, 1), TokenKind::Quantifier, g);
            }
        },
        SyntaxNode::Group { span, group, child } => {
            let cap = capture_index_exec(group);
            let this = match cap {
                Some(_) => cap,
                None => g,
            };
            let pk = match cap {
                Some(i) => TokenKind::GroupParen(i),
                None => TokenKind::NonCapturingParen,
            };
            let open_end = group_open_end_exec(span.start, group, child);
            push_tok(tokens, span.start, open_end, pk, this);
            walk_into(child, tokens, this);
            let close_start = if span.end > 0 { span.end - 1 } else { 0 };
            push_tok(tokens, close_start, span.end, pk, this);
        },
        SyntaxNode::Alternation(_, kids) => {
            proof {
                assert(decreases_to!(*n => *kids));
            }
            let mut i: usize = 0;
            while i < kids.len()
                invariant
                    decreases_to!(*n => *kids),
                    i <= kids@.len(),
                    i == 0 ==> tokens@ == start,
                    0 < i ==> tokens@ == start + walk_alt(kids@.take(i as int), g) + (if i < kids@.len() {
                        seq![bar_after(kids@[i - 1], g)]
                    } else {
                        Seq::empty()
                    }),
                decreases kids@.len() - i,
            {
                proof {
                    assert(decreases_to!(*kids => kids[i as int]));
                }
                walk_into(&kids[i], tokens, g);
                if i + 1 < kids.len() {
                    let e = kids[i].span().end;
                    push_tok(tokens, e, sat_add_exec(e, 1), TokenKind::Alternation, g);
                }
                proof {
                    let t = kids@.take(i + 1);
                    if i == 0 {
                        assert(walk_alt(t, g) == walk(kids@[0], g));
                    } else {
                        assert(t.drop_last() =~= kids@.take(i as int));
                        assert(t[t.len() - 2] == kids@[i - 1]);
                    }
                }
                i += 1;
                assert(tokens@ =~= start + walk_alt(kids@.take(i as int), g) + (if i < kids@.len() {
                    seq![bar_after(kids@[i - 1], g)]
                } else {
                    Seq::empty()
                }));
            }
            assert(kids@.take(i as int) =~= kids@);
            if i == 0 {
                assert(walk_alt(kids@, g) =~= Seq::<HighlightToken>::empty());
            }
        },
        SyntaxNode::Concat(_, kids) => {
            proof {
                assert(decreases_to!(*n => *kids));
            }
            let mut i: usize = 0;
            while i < kids.len()
                invariant
                    decreases_to!(*n => *kids),
                    i <= kids@.len(),
                    tokens@ == start + walk_seq(kids@.take(i as int), g),
                decreases kids@.len() - i,
            {
                proof {
                    assert(decreases_to!(*kids => kids[i as int]));
                }
                walk_into(&kids[i], tokens, g);
                assert(kids@.take(i + 1).drop_last() =~= kids@.take(i as int));
                i += 1;
                assert(tokens@ =~= start + walk_seq(kids@.take(i as int), g));
            }
            assert(kids@.take(i as int) =~= kids@);
        },
    }
    assert(tokens@ =~= start + walk(*n, g));
}


// ===== Ordering the tokens =====

/// `s` (ordered by start) with `t` inserted after every token that starts
/// no later than it.
pub open spec fn insert_by_start(s: Seq<HighlightToken>, t: HighlightToken) -> Seq<HighlightToken>
    decreases s.len(),
{
    if s.len() == 0 {
        seq![t]
    } else if s.last().start <= t.start {
        s.push(t)
    } else {
        insert_by_start(s.drop_last(), t).push(s.last())
    }
}

/// The tokens ordered by start, tokens with equal starts in the order they
/// came in (a stable sort).
pub open spec fn sort_by_start(s: Seq<HighlightToken>) -> Seq<HighlightToken>
    decreases s.len(),
{
    if s.len() == 0 {
        s
    } else {
        insert_by_start(sort_by_start(s.drop_last()), s.last())
    }
}

proof fn lemma_insert_at(s: Seq<HighlightToken>, t: HighlightToken, j: int)
    requires
        0 <= j <= s.len(),
        forall|k: int| j <= k < s.len() ==> #[trigger] s[k].start > t.start,
        j > 0 ==> s[j - 1].start <= t.start,
    ensures
        insert_by_start(s, t) == s.take(j).push(t) + s.skip(j),
    decreases s.len() - j,
{
    if s.len() == 0 {
        assert(s.take(j).push(t) + s.skip(j) =~= seq![t]);
    } else if j == s.len() {
        assert(s.take(j).push(t) + s.skip(j) =~= s.push(t));
    } else {
        let d = s.drop_last();
        lemma_insert_at(d, t, j);
        assert(s.take(j).push(t) + s.skip(j) =~= (d.take(j).push(t) + d.skip(j)).push(s.last()));
    }
}

fn insert_token(v: &mut Vec<HighlightToken>, t: HighlightToken)
    ensures
        final(v)@ == insert_by_start(old(v)@, t),
{
    let mut j = v.len();
    while j > 0 && v[j - 1].start > t.start
        invariant
            j <= v@.len(),
            v@ == old(v)@,
            forall|k: int| j <= k < v@.len() ==> #[trigger] v@[k].start > t.start,
        decreases j,
    {
        j -= 1;
    }
    proof {
        lemma_insert_at(v@, t, j as int);
    }
    v.insert(j, t);
    assert(v@ =~= old(v)@.take(j as int).push(t) + old(v)@.skip(j as int));
}

fn sort_tokens(tokens: &Vec<HighlightToken>) -> (r: Vec<HighlightToken>)
    ensures
        r@ == sort_by_start(tokens@),
{
    let mut r: Vec<HighlightToken> = Vec::new();
    let mut i: usize = 0;
    while i < tokens.len()
        invariant
            i <= tokens@.len(),
            r@ == sort_by_start(tokens@.take(i as int)),
        decreases tokens@.len() - i,
    {
        insert_token(&mut r, tokens[i]);
        assert(tokens@.take(i + 1).drop_last() =~= tokens@.take(i as int));
        i += 1;
    }
    assert(tokens@.take(i as int) =~= tokens@);
    r
}

// ===== Filling the gaps =====

/// The tokens from `pos` on, with a literal token over every gap before a
/// token and over the rest of the pattern after the last; a token that
/// starts before the position reached is dropped.
pub open spec fn fill_from(tokens: Seq<HighlightToken>, pos: usize, len: usize) -> Seq<HighlightToken>
    decreases tokens.len(),
{
    if tokens.len() == 0 {
        if pos < len { seq![tok(pos, len, TokenKind::Literal, None)] } else { Seq::empty() }
    } else {
        let t = tokens[0];
        let gap = if t.start > pos { seq![tok(pos, t.start, TokenKind::Literal, None)] } else { Seq::empty() };
        if t.start >= pos {
            gap + seq![t] + fill_from(tokens.drop_first(), t.end, len)
        } else {
            fill_from(tokens.drop_first(), pos, len)
        }
    }
}

/// The tokens, in order, with the gaps between them and after the last
/// (up to the pattern's length in bytes) covered by literal tokens.
pub fn fill_gaps(pattern: &str, tokens: Vec<HighlightToken>) -> (r: Vec<HighlightToken>)
    ensures
        r@ == fill_from(tokens@, 0, encode_utf8(pattern@).len() as usize),
{
    let len = pattern.len();
    let ghost goal = fill_from(tokens@, 0, len);
    let mut result: Vec<HighlightToken> = Vec::new();
    let mut pos: usize = 0;
    let mut i: usize = 0;
    assert(tokens@.skip(0) =~= tokens@);
    assert(result@ + goal =~= goal);
    while i < tokens.len()
        invariant
            i <= tokens@.len(),
            goal == result@ + fill_from(tokens@.skip(i as int), pos, len),
        decreases tokens@.len() - i,
    {
        let t = tokens[i];
        let ghost rest = tokens@.skip(i as int);
        assert(rest[0] == t);
        assert(rest.drop_first() =~= tokens@.skip(i + 1));
        if t.start > pos {
            result.push(HighlightToken { start: pos, end: t.start, kind: TokenKind::Literal, capture_group: None });
        }
        if t.start >= pos {
            result.push(t);
            pos = t.end;
        }
        i += 1;
        assert(goal =~= result@ + fill_from(tokens@.skip(i as int), pos, len));
    }
    if pos < len {
        result.push(HighlightToken { start: pos, end: len, kind: TokenKind::Literal, capture_group: None });
    }
    assert(goal =~= result@);
    result
}

/// The tokens of a pattern whose syntax tree is `ast`: the tree's tokens
/// ordered by start, the gaps filled with literal tokens.
pub open spec fn tree_tokens(ast: SyntaxNode, len: usize) -> Seq<HighlightToken> {
    fill_from(sort_by_start(walk(ast, None)), 0, len)
}

/// The tokens of a pattern read from its syntax tree.
pub fn tokenize_tree(pattern: &str, ast: &SyntaxNode) -> (r: Vec<HighlightToken>)
    ensures
        r@ == tree_tokens(*ast, encode_utf8(pattern@).len() as usize),
{
    let mut tokens: Vec<HighlightToken> = Vec::new();
    walk_into(ast, &mut tokens, None);
    assert(tokens@ =~= walk(*ast, None));
    let sorted = sort_tokens(&tokens);
    fill_gaps(pattern, sorted)
}


// ===== Tokens by a byte scan =====

/// The state of the byte scan: the position, the tokens so far, the groups
/// open (each with its capture index, if it captures), and the next
/// capture index.
pub ghost struct ScanState {
    pub i: int,
    pub tokens: Seq<HighlightToken>,
    pub stack: Seq<Option<u32>>,
    pub next: u32,
}

/// Whether byte `j` of `b` exists and is `x`.
pub open spec fn has_byte(b: Seq<u8>, j: int, x: u8) -> bool {
    0 <= j < b.len() && b[j] == x
}

/// The innermost open group's capture index, if it captures.
pub open spec fn enclosing(stack: Seq<Option<u32>>) -> Option<u32> {
    if stack.len() == 0 { None } else { stack.last() }
}

/// Where the opening `(?...` of a non-capturing group or flag group that
/// starts at `i` ends: at the first `)` or after the first `:` from `j`.
pub open spec fn skip_group_head(b: Seq<u8>, j: int) -> int
    decreases b.len() - j,
{
    if j < 0 || j >= b.len() {
        j
    } else if b[j] == 0x29 {
        j
    } else if b[j] == 0x3a {
        j + 1
    } else {
        skip_group_head(b, j + 1)
    }
}

/// Where the body of a bracketed class that continues at `i` ends (after
/// its `]`, or at the end of the pattern); a backslash skips the next byte.
pub open spec fn skip_class_body(b: Seq<u8>, i: int) -> int
    decreases b.len() - i,
{
    if i < 0 || i >= b.len() {
        i
    } else if b[i] == 0x5d {
        i + 1
    } else if b[i] == 0x5c && i + 1 < b.len() {
        skip_class_body(b, i + 2)
    } else {
        skip_class_body(b, i + 1)
    }
}

/// Where the first `}` at or after `j` is, or the end of the pattern.
pub open spec fn find_close_brace(b: Seq<u8>, j: int) -> int
    decreases b.len() - j,
{
    if j < 0 || j >= b.len() || b[j] == 0x7d {
        j
    } else {
        find_close_brace(b, j + 1)
    }
}

/// The kind of the escape `\c`: anchors `\b \B \A \z \Z`, classes
/// `\d \D \w \W \s \S`, any other escape.
pub open spec fn escape_kind(c: u8) -> TokenKind {
    if c == 0x62 || c == 0x42 || c == 0x41 || c == 0x7a || c == 0x5a {
        TokenKind::Anchor
    } else if c == 0x64 || c == 0x44 || c == 0x77 || c == 0x57 || c == 0x73 || c == 0x53 {
        TokenKind::CharClass
    } else {
        TokenKind::Escape
    }
}

/// A token at byte `i` of the scan, in the innermost open group.
pub open spec fn scan_tok(st: ScanState, start: int, end: int, kind: TokenKind) -> HighlightToken {
    tok(start as usize, end as usize, kind, enclosing(st.stack))
}

/// One step of the scan at `st.i` (which lies within the pattern).
pub open spec fn scan_step(b: Seq<u8>, st: ScanState) -> ScanState {
    let i = st.i;
    let len = b.len() as int;
    let c = b[i];
    if c == 0x5c && i + 1 < len {
        ScanState { i: i + 2, tokens: st.tokens.push(scan_tok(st, i, i + 2, escape_kind(b[i + 1]))), ..st }
    } else if c == 0x28 {
        if has_byte(b, i + 1, 0x3f) {
            let behind = has_byte(b, i + 2, 0x3c) && (has_byte(b, i + 3, 0x3d) || has_byte(b, i + 3, 0x21));
            let around = has_byte(b, i + 2, 0x3d) || has_byte(b, i + 2, 0x21) || behind || has_byte(b, i + 2, 0x3e);
            let end = if around {
                if behind { i + 4 } else { i + 3 }
            } else {
                let j = skip_group_head(b, i + 2);
                j
            };
            let kind = if around { TokenKind::Lookaround } else { TokenKind::NonCapturingParen };
            ScanState { i: end, tokens: st.tokens.push(scan_tok(st, i, end, kind)), stack: st.stack.push(None), ..st }
        } else {
            let idx = st.next;
            ScanState {
                i: i + 1,
                tokens: st.tokens.push(tok(i as usize, (i + 1) as usize, TokenKind::GroupParen(idx), Some(idx))),
                stack: st.stack.push(Some(idx)),
                next: (idx + 1) as u32,
            }
        }
    } else if c == 0x29 {
        let cap = enclosing(st.stack);
        let stack = if st.stack.len() == 0 { st.stack } else { st.stack.drop_last() };
        ScanState {
            i: i + 1,
            tokens: st.tokens.push(tok(i as usize, (i + 1) as usize, paren_kind(cap), cap)),
            stack,
            ..st
        }
    } else if c == 0x5b {
        let j1 = if has_byte(b, i + 1, 0x5e) { i + 2 } else { i + 1 };
        let j2 = if has_byte(b, j1, 0x5d) { j1 + 1 } else { j1 };
        let end = skip_class_body(b, j2);
        ScanState { i: end, tokens: st.tokens.push(scan_tok(st, i, end, TokenKind::CharClass)), ..st }
    } else if c == 0x5e || c == 0x24 {
        ScanState { i: i + 1, tokens: st.tokens.push(scan_tok(st, i, i + 1, TokenKind::Anchor)), ..st }
    } else if c == 0x2a || c == 0x2b || c == 0x3f {
        let end = if has_byte(b, i + 1, 0x3f) { i + 2 } else { i + 1 };
        ScanState { i: end, tokens: st.tokens.push(scan_tok(st, i, end, TokenKind::Quantifier)), ..st }
    } else if c == 0x7b {
        let j = find_close_brace(b, i + 1);
        if j < len {
            let end = if has_byte(b, j + 1, 0x3f) { j + 2 } else { j + 1 };
            ScanState { i: end, tokens: st.tokens.push(scan_tok(st, i, end, TokenKind::Quantifier)), ..st }
        } else {
            ScanState { i: i + 1, tokens: st.tokens.push(scan_tok(st, i, i + 1, TokenKind::Literal)), ..st }
        }
    } else if c == 0x7c {
        ScanState { i: i + 1, tokens: st.tokens.push(scan_tok(st, i, i + 1, TokenKind::Alternation)), ..st }
    } else if c == 0x2e {
        ScanState { i: i + 1, tokens: st.tokens.push(scan_tok(st, i, i + 1, TokenKind::Dot)), ..st }
    } else {
        ScanState { i: i + 1, tokens: st.tokens.push(scan_tok(st, i, i + 1, TokenKind::Literal)), ..st }
    }
}

/// The scan from `st` to the end of the pattern: its tokens.
pub open spec fn scan_run(b: Seq<u8>, st: ScanState) -> Seq<HighlightToken>
    decreases b.len() - st.i,
{
    if st.i < 0 || st.i >= b.len() {
        st.tokens
    } else {
        let n = scan_step(b, st);
        if st.i < n.i <= b.len() {
            scan_run(b, n)
        } else {
            n.tokens
        }
    }
}

/// The tokens of the byte scan of a pattern.
pub open spec fn fallback_tokens(b: Seq<u8>) -> Seq<HighlightToken> {
    scan_run(b, ScanState { i: 0, tokens: Seq::empty(), stack: Seq::empty(), next: 1 })
}


fn has_byte_exec(b: &[u8], j: usize, x: u8) -> (r: bool)
    ensures
        r == has_byte(b@, j as int, x),
{
    j < b.len() && b[j] == x
}

fn skip_group_head_exec(b: &[u8], j: usize) -> (r: usize)
    requires
        j <= b@.len(),
    ensures
        r as int == skip_group_head(b@, j as int),
        j <= r <= b@.len(),
{
    let mut k = j;
    while k < b.len() && b[k] != 0x29 && b[k] != 0x3a
        invariant
            j <= k <= b@.len(),
            skip_group_head(b@, k as int) == skip_group_head(b@, j as int),
        decreases b@.len() - k,
    {
        k += 1;
    }
    if k < b.len() && b[k] == 0x3a {
        k + 1
    } else {
        k
    }
}

fn skip_class_body_exec(b: &[u8], i: usize) -> (r: usize)
    requires
        i <= b@.len(),
    ensures
        r as int == skip_class_body(b@, i as int),
        i <= r <= b@.len(),
{
    let mut k = i;
    while k < b.len() && b[k] != 0x5d
        invariant
            i <= k <= b@.len(),
            skip_class_body(b@, k as int) == skip_class_body(b@, i as int),
        decreases b@.len() - k,
    {
        if b[k] == 0x5c && k + 1 < b.len() {
            k += 1;
        }
        k += 1;
    }
    if k < b.len() {
        k + 1
    } else {
        k
    }
}

fn find_close_brace_exec(b: &[u8], j: usize) -> (r: usize)
    requires
        j <= b@.len(),
    ensures
        r as int == find_close_brace(b@, j as int),
        j <= r <= b@.len(),
{
    let mut k = j;
    while k < b.len() && b[k] != 0x7d
        invariant
            j <= k <= b@.len(),
            find_close_brace(b@, k as int) == find_close_brace(b@, j as int),
        decreases b@.len() - k,
    {
        k += 1;
    }
    k
}

/// The tokens of a pattern by a byte scan, for a pattern that does not
/// parse: escapes, groups (with their capture indexes), classes, anchors,
/// quantifiers, `|`, `.`, and single bytes as literals.
pub fn tokenize_fallback(pattern: &str) -> (r: Vec<HighlightToken>)
    requires
        encode_utf8(pattern@).len() < u32::MAX,
    ensures
        r@ == fallback_tokens(encode_utf8(pattern@)),
{
    let bytes = pattern.as_bytes();
    let len = bytes.len();
    let ghost b = bytes@;
    let mut tokens: Vec<HighlightToken> = Vec::new();
    let mut stack: Vec<Option<u32>> = Vec::new();
    let mut next_capture: u32 = 1;
    let mut i: usize = 0;
    let ghost goal = fallback_tokens(b);
    assert(tokens@ =~= Seq::<HighlightToken>::empty());
    assert(stack@ =~= Seq::<Option<u32>>::empty());
    while i < len
        invariant
            b == bytes@,
            len == b.len(),
            len < u32::MAX,
            i <= len,
            next_capture <= i + 1,
            scan_run(b, ScanState { i: i as int, tokens: tokens@, stack: stack@, next: next_capture }) == goal,
        decreases len - i,
    {
        let ghost st = ScanState { i: i as int, tokens: tokens@, stack: stack@, next: next_capture };
        let enc: Option<u32> = if stack.len() == 0 { None } else { stack[stack.len() - 1] };
        assert(enc == enclosing(stack@));
        let c = bytes[i];
        let new_i: usize;
        if c == 0x5c && i + 1 < len {
            let next = bytes[i + 1];
            let kind = if next == 0x62 || next == 0x42 || next == 0x41 || next == 0x7a || next == 0x5a {
                TokenKind::Anchor
            } else if next == 0x64 || next == 0x44 || next == 0x77 || next == 0x57 || next == 0x73 || next == 0x53 {
                TokenKind::CharClass
            } else {
                TokenKind::Escape
            };
            tokens.push(HighlightToken { start: i, end: i + 2, kind, capture_group: enc });
            new_i = i + 2;
        } else if c == 0x28 {
            if has_byte_exec(bytes, i + 1, 0x3f) {
                let behind = has_byte_exec(bytes, i + 2, 0x3c) && (has_byte_exec(bytes, i + 3, 0x3d)
                    || has_byte_exec(bytes, i + 3, 0x21));
                let around = has_byte_exec(bytes, i + 2, 0x3d) || has_byte_exec(bytes, i + 2, 0x21) || behind
                    || has_byte_exec(bytes, i + 2, 0x3e);
                let end = if around {
                    if behind { i + 4 } else { i + 3 }
                } else {
                    skip_group_head_exec(bytes, i + 2)
                };
                let kind = if around { TokenKind::Lookaround } else { TokenKind::NonCapturingParen };
                tokens.push(HighlightToken { start: i, end, kind, capture_group: enc });
                stack.push(None);
                new_i = end;
            } else {
                let idx = next_capture;
                next_capture += 1;
                tokens.push(HighlightToken { start: i, end: i + 1, kind: TokenKind::GroupParen(idx), capture_group: Some(idx) });
                stack.push(Some(idx));
                new_i = i + 1;
            }
        } else if c == 0x29 {
            let cap: Option<u32> = match stack.pop() {
                Some(x) => x,
                None => None,
            };
            let kind = match cap {
                Some(idx) => TokenKind::GroupParen(idx),
                None => TokenKind::NonCapturingParen,
            };
            tokens.push(HighlightToken { start: i, end: i + 1, kind, capture_group: cap });
            new_i = i + 1;
        } else if c == 0x5b {
            let j1 = if has_byte_exec(bytes, i + 1, 0x5e) { i + 2 } else { i + 1 };
            let j2 = if has_byte_exec(bytes, j1, 0x5d) { j1 + 1 } else { j1 };
            let end = skip_class_body_exec(bytes, j2);
            tokens.push(HighlightToken { start: i, end, kind: TokenKind::CharClass, capture_group: enc });
            new_i = end;
        } else if c == 0x5e || c == 0x24 {
            tokens.push(HighlightToken { start: i, end: i + 1, kind: TokenKind::Anchor, capture_group: enc });
            new_i = i + 1;
        } else if c == 0x2a || c == 0x2b || c == 0x3f {
            let end = if has_byte_exec(bytes, i + 1, 0x3f) { i + 2 } else { i + 1 };
            tokens.push(HighlightToken { start: i, end, kind: TokenKind::Quantifier, capture_group: enc });
            new_i = end;
        } else if c == 0x7b {
            let j = find_close_brace_exec(bytes, i + 1);
            if j < len {
                let end = if has_byte_exec(bytes, j + 1, 0x3f) { j + 2 } else { j + 1 };
                tokens.push(HighlightToken { start: i, end, kind: TokenKind::Quantifier, capture_group: enc });
                new_i = end;
            } else {
                tokens.push(HighlightToken { start: i, end: i + 1, kind: TokenKind::Literal, capture_group: enc });
                new_i = i + 1;
            }
        } else if c == 0x7c {
            tokens.push(HighlightToken { start: i, end: i + 1, kind: TokenKind::Alternation, capture_group: enc });
            new_i = i + 1;
        } else if c == 0x2e {
            tokens.push(HighlightToken { start: i, end: i + 1, kind: TokenKind::Dot, capture_group: enc });
            new_i = i + 1;
        } else {
            tokens.push(HighlightToken { start: i, end: i + 1, kind: TokenKind::Literal, capture_group: enc });
            new_i = i + 1;
        }
        proof {
            let n = scan_step(b, st);
            assert(n.i == new_i);
            assert(n.tokens == tokens@);
            assert(n.stack =~= stack@);
            assert(n.next == next_capture);
        }
        i = new_i;
    }
    tokens
}

/// The tokens of a pattern: from its syntax tree when it parsed, by the
/// byte scan otherwise.
pub open spec fn pattern_tokens(b: Seq<u8>, ast: Option<SyntaxNode>) -> Seq<HighlightToken> {
    match ast {
        Some(t) => tree_tokens(t, b.len() as usize),
        None => fallback_tokens(b),
    }
}

/// The tokens of a pattern, given what the regex parser made of it: its
/// syntax tree, or none when it did not parse.
pub fn tokenize_with(pattern: &str, ast: Option<&SyntaxNode>) -> (r: Vec<HighlightToken>)
    requires
        encode_utf8(pattern@).len() < u32::MAX,
    ensures
        r@ == pattern_tokens(encode_utf8(pattern@), match ast {
            Some(t) => Some(*t),
            None => None,
        }),
{
    match ast {
        Some(t) => tokenize_tree(pattern, t),
        None => tokenize_fallback(pattern),
    }
}

/// The tokens of a pattern, read from the tree `regex_syntax` parses it
/// into, or by the byte scan when it does not parse.
pub fn tokenize(pattern: &str) -> (r: Vec<HighlightToken>)
    requires
        encode_utf8(pattern@).len() < u32::MAX,
    ensures
        r@ == pattern_tokens(encode_utf8(pattern@), parsed_tree(pattern@)),
{
    let tree = parse_pattern(pattern);
    match &tree {
        Some(t) => tokenize_with(pattern, Some(t)),
        None => tokenize_with(pattern, None),
    }
}


// ===== Colors =====

/// The terminal colors the highlighter uses.
#[derive(Debug, Clone, Copy, PartialEq, Eq, Structural)]
pub enum ColorName {
    White,
    DarkGray,
    Green,
    Yellow,
    Magenta,
    LightBlue,
    Red,
    Blue,
    LightMagenta,
    Cyan,
    LightRed,
    LightCyan,
    LightYellow,
    LightGreen,
    Black,
    Rgb(u8, u8, u8),
    /// The shade of a heat map cell: how often it was visited, and the
    /// most any cell was. The front end picks the shade.
    Heat(usize, usize),
}

/// How a token is drawn: its foreground, its background if any, and
/// whether it is bold.
#[derive(Debug, Clone, Copy, PartialEq, Eq, Structural)]
pub struct TokenStyle {
    pub fg: ColorName,
    pub bg: Option<ColorName>,
    pub bold: bool,
}

/// The eight foreground colors of groups, in turn.
pub open spec fn group_fg(i: int) -> ColorName {
    if i == 0 { ColorName::Cyan }
    else if i == 1 { ColorName::Yellow }
    else if i == 2 { ColorName::Green }
    else if i == 3 { ColorName::Magenta }
    else if i == 4 { ColorName::Blue }
    else if i == 5 { ColorName::LightRed }
    else if i == 6 { ColorName::LightCyan }
    else { ColorName::LightYellow }
}

/// The eight dark background tints of groups, in turn.
pub open spec fn group_bg(i: int) -> ColorName {
    if i == 0 { ColorName::Rgb(0, 35, 40) }
    else if i == 1 { ColorName::Rgb(40, 35, 0) }
    else if i == 2 { ColorName::Rgb(0, 35, 0) }
    else if i == 3 { ColorName::Rgb(35, 0, 35) }
    else if i == 4 { ColorName::Rgb(0, 0, 40) }
    else if i == 5 { ColorName::Rgb(40, 15, 10) }
    else if i == 6 { ColorName::Rgb(0, 35, 35) }
    else { ColorName::Rgb(35, 35, 0) }
}

/// The place in the cycle of eight of the group with capture index `index`
/// (group 1 first; index 0 wraps round to the last).
pub open spec fn group_slot(index: u32) -> int {
    if index == 0 { 7 } else { (index - 1) % 8 }
}

fn group_fg_exec(i: usize) -> (c: ColorName)
    requires
        i < 8,
    ensures
        c == group_fg(i as int),
{
    if i == 0 { ColorName::Cyan }
    else if i == 1 { ColorName::Yellow }
    else if i == 2 { ColorName::Green }
    else if i == 3 { ColorName::Magenta }
    else if i == 4 { ColorName::Blue }
    else if i == 5 { ColorName::LightRed }
    else if i == 6 { ColorName::LightCyan }
    else { ColorName::LightYellow }
}

fn group_bg_exec(i: usize) -> (c: ColorName)
    requires
        i < 8,
    ensures
        c == group_bg(i as int),
{
    if i == 0 { ColorName::Rgb(0, 35, 40) }
    else if i == 1 { ColorName::Rgb(40, 35, 0) }
    else if i == 2 { ColorName::Rgb(0, 35, 0) }
    else if i == 3 { ColorName::Rgb(35, 0, 35) }
    else if i == 4 { ColorName::Rgb(0, 0, 40) }
    else if i == 5 { ColorName::Rgb(40, 15, 10) }
    else if i == 6 { ColorName::Rgb(0, 35, 35) }
    else { ColorName::Rgb(35, 35, 0) }
}

fn group_slot_exec(index: u32) -> (s: usize)
    ensures
        s as int == group_slot(index),
        s < 8,
{
    if index == 0 { 7 } else { ((index - 1) % 8) as usize }
}

/// The foreground of the group with capture index `index`.
pub fn group_color_by_index(index: u32) -> (c: ColorName)
    ensures
        c == group_fg(group_slot(index)),
{
    group_fg_exec(group_slot_exec(index))
}

/// The background tint of the group with capture index `index`.
pub fn group_bg_color(index: u32) -> (c: ColorName)
    ensures
        c == group_bg(group_slot(index)),
{
    group_bg_exec(group_slot_exec(index))
}

/// The color of the group at position `group_index` (from 0) of a match's
/// groups.
pub fn group_match_color(group_index: usize) -> (c: ColorName)
    ensures
        c == group_fg((group_index % 8) as int),
{
    group_fg_exec(group_index % 8)
}

/// The foreground of a syntax token.
pub open spec fn syntax_fg(kind: TokenKind) -> ColorName {
    match kind {
        TokenKind::Escape => ColorName::Green,
        TokenKind::Quantifier => ColorName::Yellow,
        TokenKind::Anchor => ColorName::Magenta,
        TokenKind::CharClass => ColorName::LightBlue,
        TokenKind::Dot => ColorName::LightBlue,
        TokenKind::Alternation => ColorName::Red,
        TokenKind::Flag => ColorName::Blue,
        TokenKind::Lookaround => ColorName::LightMagenta,
        _ => ColorName::White,
    }
}

/// The foreground of a syntax token.
pub fn syntax_color(kind: &TokenKind) -> (c: ColorName)
    ensures
        c == syntax_fg(*kind),
{
    match kind {
        TokenKind::Escape => ColorName::Green,
        TokenKind::Quantifier => ColorName::Yellow,
        TokenKind::Anchor => ColorName::Magenta,
        TokenKind::CharClass => ColorName::LightBlue,
        TokenKind::Dot => ColorName::LightBlue,
        TokenKind::Alternation => ColorName::Red,
        TokenKind::Flag => ColorName::Blue,
        TokenKind::Lookaround => ColorName::LightMagenta,
        _ => ColorName::White,
    }
}

/// How a token is drawn: a group's parentheses bold in the group's color;
/// a non-capturing group's in dark gray; a literal in its group's colors
/// (white outside groups); any other token in its syntax color. Inside a
/// capture group every token has the group's background.
pub open spec fn token_style(t: HighlightToken) -> TokenStyle {
    let bg = match t.capture_group {
        Some(i) => Some(group_bg(group_slot(i))),
        None => None,
    };
    match t.kind {
        TokenKind::GroupParen(idx) => TokenStyle { fg: group_fg(group_slot(idx)), bg, bold: true },
        TokenKind::NonCapturingParen => TokenStyle { fg: ColorName::DarkGray, bg, bold: false },
        TokenKind::Literal => match t.capture_group {
            Some(i) => TokenStyle { fg: group_fg(group_slot(i)), bg, bold: false },
            None => TokenStyle { fg: ColorName::White, bg: None, bold: false },
        },
        _ => TokenStyle { fg: syntax_fg(t.kind), bg, bold: false },
    }
}

/// How a token is drawn.
pub fn style_for_token(token: &HighlightToken) -> (s: TokenStyle)
    ensures
        s == token_style(*token),
{
    let bg = match token.capture_group {
        Some(i) => Some(group_bg_color(i)),
        None => None,
    };
    match token.kind {
        TokenKind::GroupParen(idx) => TokenStyle { fg: group_color_by_index(idx), bg, bold: true },
        TokenKind::NonCapturingParen => TokenStyle { fg: ColorName::DarkGray, bg, bold: false },
        TokenKind::Literal => match token.capture_group {
            Some(i) => TokenStyle { fg: group_color_by_index(i), bg, bold: false },
            None => TokenStyle { fg: ColorName::White, bg: None, bold: false },
        },
        _ => TokenStyle { fg: syntax_color(&token.kind), bg, bold: false },
    }
}


// ===== Laws =====

/// Tokens in order of their starts.
pub open spec fn sorted_by_start(s: Seq<HighlightToken>) -> bool {
    forall|i: int, j: int| 0 <= i < j < s.len() ==> s[i].start <= s[j].start
}

/// Tokens that tile bytes `pos..len` of the pattern: the first starts at
/// `pos`, each ends where the next starts, the last ends at `len`.
pub open spec fn tiles(out: Seq<HighlightToken>, pos: int, len: int) -> bool {
    &&& out.len() == 0 ==> pos == len
    &&& out.len() > 0 ==> out[0].start == pos && out.last().end == len
    &&& forall|i: int| 0 <= i < out.len() - 1 ==> #[trigger] out[i].end == out[i + 1].start
}

/// Where `insert_by_start` puts a token: after the last token, counting
/// from the end, that starts no later than it.
pub open spec fn insert_point(s: Seq<HighlightToken>, t: HighlightToken) -> int
    decreases s.len(),
{
    if s.len() == 0 || s.last().start <= t.start {
        s.len() as int
    } else {
        insert_point(s.drop_last(), t)
    }
}

proof fn lemma_insert_point(s: Seq<HighlightToken>, t: HighlightToken)
    ensures
        0 <= insert_point(s, t) <= s.len(),
        insert_by_start(s, t) == s.take(insert_point(s, t)).push(t) + s.skip(insert_point(s, t)),
        forall|k: int| insert_point(s, t) <= k < s.len() ==> #[trigger] s[k].start > t.start,
        insert_point(s, t) > 0 ==> s[insert_point(s, t) - 1].start <= t.start,
    decreases s.len(),
{
    let j = insert_point(s, t);
    if s.len() == 0 {
        assert(s.take(0).push(t) + s.skip(0) =~= seq![t]);
    } else if s.last().start <= t.start {
        assert(s.take(j).push(t) + s.skip(j) =~= s.push(t));
    } else {
        let d = s.drop_last();
        lemma_insert_point(d, t);
        assert(s.take(j).push(t) + s.skip(j) =~= (d.take(j).push(t) + d.skip(j)).push(s.last()));
        assert forall|k: int| j <= k < s.len() implies #[trigger] s[k].start > t.start by {
            if k < d.len() {
                assert(s[k] == d[k]);
            }
        }
        if j > 0 {
            assert(s[j - 1] == d[j - 1]);
        }
    }
}

proof fn lemma_insert_sorted(s: Seq<HighlightToken>, t: HighlightToken)
    requires
        sorted_by_start(s),
    ensures
        sorted_by_start(insert_by_start(s, t)),
        insert_by_start(s, t).len() == s.len() + 1,
        forall|x: HighlightToken| #[trigger] insert_by_start(s, t).contains(x) ==> (x == t || s.contains(x)),
        forall|x: HighlightToken| #[trigger] s.contains(x) ==> insert_by_start(s, t).contains(x),
        insert_by_start(s, t).contains(t),
{
    lemma_insert_point(s, t);
    let j = insert_point(s, t);
    let r = insert_by_start(s, t);
    assert(r.len() == s.len() + 1);
    assert forall|k: int| 0 <= k < r.len() implies #[trigger] r[k] == (if k < j { s[k] } else if k == j { t } else {
        s[k - 1]
    }) by {}
    assert forall|a: int, b: int| 0 <= a < b < r.len() implies r[a].start <= r[b].start by {
        assert(r[a] == (if a < j { s[a] } else if a == j { t } else { s[a - 1] }));
        assert(r[b] == (if b < j { s[b] } else if b == j { t } else { s[b - 1] }));
        if a < j && b == j {
            assert(s[a].start <= s[j - 1].start);
        } else if a == j && b > j {
            assert(s[b - 1].start > t.start);
        }
    }
    assert(r[j] == t);
    assert forall|x: HighlightToken| r.contains(x) <==> (x == t || s.contains(x)) by {
        if r.contains(x) {
            let k = choose|k: int| 0 <= k < r.len() && r[k] == x;
            assert(r[k] == (if k < j { s[k] } else if k == j { t } else { s[k - 1] }));
            if k < j {
                assert(s[k] == x);
            } else if k > j {
                assert(s[k - 1] == x);
            }
        }
        if x == t {
            assert(r[j] == t);
        }
        if s.contains(x) {
            let k = choose|k: int| 0 <= k < s.len() && s[k] == x;
            if k < j {
                assert(r[k] == x);
            } else {
                assert(r[k + 1] == (if k + 1 < j { s[k + 1] } else if k + 1 == j { t } else { s[k] }));
                assert(r[k + 1] == x);
            }
        }
    }
}

/// The ordering of the tokens keeps them all, and puts them in order of
/// their starts.
pub proof fn law_sort_orders(s: Seq<HighlightToken>)
    ensures
        sorted_by_start(sort_by_start(s)),
        sort_by_start(s).len() == s.len(),
        forall|x: HighlightToken| s.contains(x) <==> sort_by_start(s).contains(x),
    decreases s.len(),
{
    if s.len() > 0 {
        let d = s.drop_last();
        law_sort_orders(d);
        lemma_insert_sorted(sort_by_start(d), s.last());
        let r = insert_by_start(sort_by_start(d), s.last());
        assert(sort_by_start(s) == r);
        assert forall|x: HighlightToken| s.contains(x) <==> sort_by_start(s).contains(x) by {
            if s.contains(x) {
                let i = choose|i: int| 0 <= i < s.len() && s[i] == x;
                if i < s.len() - 1 {
                    assert(d[i] == x);
                    assert(d.contains(x));
                    assert(sort_by_start(d).contains(x));
                    assert(r.contains(x));
                } else {
                    assert(x == s.last());
                    assert(r.contains(x));
                }
            }
            if sort_by_start(s).contains(x) && x != s.last() {
                assert(sort_by_start(d).contains(x));
                assert(d.contains(x));
                let i = choose|i: int| 0 <= i < d.len() && d[i] == x;
                assert(s[i] == d[i]);
                assert(s.contains(x));
            }
        }
    }
}

/// Tokens that each lie within the first `len` bytes.
pub open spec fn tokens_within(tokens: Seq<HighlightToken>, len: usize) -> bool {
    forall|i: int| 0 <= i < tokens.len() ==> #[trigger] tokens[i].start <= tokens[i].end && tokens[i].end <= len
}

/// Filling the gaps tiles the whole pattern: from any position up to the
/// end, tokens that lie within the pattern are completed by literal tokens
/// into a tiling of the rest of it.
pub proof fn law_fill_tiles(tokens: Seq<HighlightToken>, pos: usize, len: usize)
    requires
        pos <= len,
        tokens_within(tokens, len),
    ensures
        tiles(fill_from(tokens, pos, len), pos as int, len as int),
    decreases tokens.len(),
{
    if tokens.len() > 0 {
        let t = tokens[0];
        let rest_tokens = tokens.drop_first();
        assert forall|i: int| 0 <= i < rest_tokens.len() implies #[trigger] rest_tokens[i].start <= rest_tokens[i].end
            && rest_tokens[i].end <= len by {
            assert(rest_tokens[i] == tokens[i + 1]);
        }
        assert(tokens_within(rest_tokens, len));
        assert(t.start <= t.end && t.end <= len);
        if t.start >= pos {
            law_fill_tiles(rest_tokens, t.end, len);
            let gap = if t.start > pos { seq![tok(pos, t.start, TokenKind::Literal, None)] } else { Seq::empty() };
            let rest = fill_from(rest_tokens, t.end, len);
            let out = gap + seq![t] + rest;
            assert(fill_from(tokens, pos, len) == out);
            assert forall|i: int| 0 <= i < out.len() - 1 implies #[trigger] out[i].end == out[i + 1].start by {
                if i < gap.len() {
                    assert(out[i + 1] == t);
                } else if i == gap.len() {
                    assert(out[i] == t);
                    assert(out[i + 1] == rest[0]);
                } else {
                    assert(out[i] == rest[i - gap.len() - 1]);
                    assert(out[i + 1] == rest[i - gap.len()]);
                }
            }
            if rest.len() == 0 {
                assert(out.last() == t);
            } else {
                assert(out.last() == rest.last());
            }
        } else {
            law_fill_tiles(rest_tokens, pos, len);
            assert(fill_from(tokens, pos, len) == fill_from(rest_tokens, pos, len));
        }
    }
}

/// Whether a lookahead opener, `(?=` or `(?!`, starts at byte `i`.
pub open spec fn lookahead_opener(b: Seq<u8>, i: int) -> bool {
    &&& has_byte(b, i, 0x28)
    &&& has_byte(b, i + 1, 0x3f)
    &&& (has_byte(b, i + 2, 0x3d) || has_byte(b, i + 2, 0x21))
}

/// Whether a lookbehind opener, `(?<=` or `(?<!`, starts at byte `i`.
pub open spec fn lookbehind_opener(b: Seq<u8>, i: int) -> bool {
    &&& has_byte(b, i, 0x28)
    &&& has_byte(b, i + 1, 0x3f)
    &&& has_byte(b, i + 2, 0x3c)
    &&& (has_byte(b, i + 3, 0x3d) || has_byte(b, i + 3, 0x21))
}

/// Every token that starts at a lookahead opener is a look-around token
/// over exactly its three bytes, and every one that starts at a lookbehind
/// opener one over exactly its four bytes.
pub open spec fn openers_as_lookaround(b: Seq<u8>, tokens: Seq<HighlightToken>) -> bool {
    &&& forall|k: int|
        0 <= k < tokens.len() && lookahead_opener(b, #[trigger] tokens[k].start as int) ==> tokens[k].kind
            == TokenKind::Lookaround && tokens[k].end == tokens[k].start + 3
    &&& forall|k: int|
        0 <= k < tokens.len() && lookbehind_opener(b, #[trigger] tokens[k].start as int) ==> tokens[k].kind
            == TokenKind::Lookaround && tokens[k].end == tokens[k].start + 4
}

/// Where the scan stands at a `(?=` or `(?!`, the next token it emits is a
/// look-around token over exactly those three bytes, in the innermost open
/// group, and the scan goes on right after them, inside the new group.
pub proof fn law_scan_lookahead_token(b: Seq<u8>, st: ScanState)
    requires
        0 <= st.i,
        lookahead_opener(b, st.i),
        b.len() <= usize::MAX,
    ensures
        scan_step(b, st).tokens == st.tokens.push(
            tok(st.i as usize, (st.i + 3) as usize, TokenKind::Lookaround, enclosing(st.stack)),
        ),
        scan_step(b, st).i == st.i + 3,
        scan_step(b, st).stack == st.stack.push(None),
{
}

proof fn lemma_step_keeps_openers(b: Seq<u8>, st: ScanState)
    requires
        0 <= st.i < b.len(),
        b.len() <= usize::MAX,
        openers_as_lookaround(b, st.tokens),
    ensures
        openers_as_lookaround(b, scan_step(b, st).tokens),
        scan_step(b, st).tokens.len() == st.tokens.len() + 1,
{
    let n = scan_step(b, st);
    let t = n.tokens.last();
    assert(n.tokens == st.tokens.push(t));
    assert(t.start == st.i);
    if lookahead_opener(b, st.i) {
        law_scan_lookahead_token(b, st);
    }
    assert forall|k: int|
        0 <= k < n.tokens.len() && lookahead_opener(b, #[trigger] n.tokens[k].start as int) implies n.tokens[k].kind
        == TokenKind::Lookaround && n.tokens[k].end == n.tokens[k].start + 3 by {
        if k < st.tokens.len() {
            assert(n.tokens[k] == st.tokens[k]);
        }
    }
    assert forall|k: int|
        0 <= k < n.tokens.len() && lookbehind_opener(b, #[trigger] n.tokens[k].start as int) implies n.tokens[k].kind
        == TokenKind::Lookaround && n.tokens[k].end == n.tokens[k].start + 4 by {
        if k < st.tokens.len() {
            assert(n.tokens[k] == st.tokens[k]);
        }
    }
}

proof fn lemma_run_keeps_openers(b: Seq<u8>, st: ScanState)
    requires
        b.len() <= usize::MAX,
        openers_as_lookaround(b, st.tokens),
    ensures
        openers_as_lookaround(b, scan_run(b, st)),
    decreases b.len() - st.i,
{
    if 0 <= st.i < b.len() {
        lemma_step_keeps_openers(b, st);
        let n = scan_step(b, st);
        if st.i < n.i <= b.len() {
            lemma_run_keeps_openers(b, n);
        }
    }
}

/// In the byte scan of a pattern, a group opener `(?=` or `(?!` is shown as
/// a look-around token over exactly its three bytes, and `(?<=` or `(?<!`
/// as one over exactly its four bytes: no token that starts there is of
/// another kind or length.
pub proof fn law_lookahead_openers_highlighted(b: Seq<u8>)
    requires
        b.len() <= usize::MAX,
    ensures
        openers_as_lookaround(b, fallback_tokens(b)),
{
    lemma_run_keeps_openers(b, ScanState { i: 0, tokens: Seq::empty(), stack: Seq::empty(), next: 1 });
}

/// In the byte scan, an escape is shown by what it stands for: `\b`,
/// `\B`, `\A`, `\z`, `\Z` as anchors, `\d`, `\D`, `\w`, `\W`, `\s`,
/// `\S` as character classes, any other as an escape.
pub proof fn law_escape_kinds(c: u8)
    ensures
        escape_kind('b' as u8) == TokenKind::Anchor && escape_kind('B' as u8) == TokenKind::Anchor,
        escape_kind('A' as u8) == TokenKind::Anchor && escape_kind('z' as u8) == TokenKind::Anchor
            && escape_kind('Z' as u8) == TokenKind::Anchor,
        escape_kind('d' as u8) == TokenKind::CharClass && escape_kind('D' as u8) == TokenKind::CharClass,
        escape_kind('w' as u8) == TokenKind::CharClass && escape_kind('W' as u8) == TokenKind::CharClass,
        escape_kind('s' as u8) == TokenKind::CharClass && escape_kind('S' as u8) == TokenKind::CharClass,
        c != 'b' as u8 && c != 'B' as u8 && c != 'A' as u8 && c != 'z' as u8 && c != 'Z' as u8 && c != 'd' as u8
            && c != 'D' as u8 && c != 'w' as u8 && c != 'W' as u8 && c != 's' as u8 && c != 'S' as u8
            ==> escape_kind(c) == TokenKind::Escape,
{
}

} // verus!
