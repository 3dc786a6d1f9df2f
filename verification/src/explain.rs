//! A plain-English explanation of a pattern: from its syntax tree when it
//! parses, by a byte scan otherwise.

use vstd::prelude::*;
use vstd::utf8::{
    decode_utf8, encode_utf8, encode_utf8_valid_utf8, is_char_boundary, is_char_boundary_iff_not_is_continuation_byte,
    is_char_boundary_start_end_of_seq, valid_utf8,
};
use crate::codegen::join_seq;
use crate::syntax::{
    AssertKind, ByteSpan, ClassItem, ClassOpKind, BracketSet, GroupForm, LiteralForm, PerlKind, RepeatKind,
    SpecialKind, SyntaxNode,
};
use crate::text::{
    decimal, lemma_ascii_next_boundary, lemma_between_boundaries, push_char, push_decimal, push_str, string_from,
};
use crate::parser::{parse_pattern, parsed_tree};

verus! {

/// `'c'`.
pub open spec fn quote_char(c: char) -> Seq<char> {
    seq!['\'', c, '\'']
}

/// The name of a special character.
pub open spec fn special_name(k: SpecialKind) -> Seq<char> {
    match k {
        SpecialKind::Bell => "bell character"@,
        SpecialKind::FormFeed => "form feed"@,
        SpecialKind::Tab => "tab"@,
        SpecialKind::LineFeed => "newline"@,
        SpecialKind::CarriageReturn => "carriage return"@,
        SpecialKind::VerticalTab => "vertical tab"@,
        SpecialKind::Space => "space"@,
    }
}

/// What a literal means.
pub open spec fn literal_text(k: LiteralForm, c: char) -> Seq<char> {
    match k {
        LiteralForm::Verbatim => quote_char(c),
        LiteralForm::Meta => if c == '.' { "literal '.'"@ } else { quote_char(c) },
        LiteralForm::Superfluous => quote_char(c),
        LiteralForm::Octal => "octal char "@ + quote_char(c),
        LiteralForm::Hex => "hex char "@ + quote_char(c),
        LiteralForm::Special(s) => special_name(s),
    }
}

/// What an assertion means.
pub open spec fn assertion_text(k: AssertKind) -> Seq<char> {
    match k {
        AssertKind::StartLine => "start of line"@,
        AssertKind::EndLine => "end of line"@,
        AssertKind::StartText => "start of text"@,
        AssertKind::EndText => "end of text"@,
        AssertKind::WordBoundary => "word boundary"@,
        AssertKind::NotWordBoundary => "non-word boundary"@,
        AssertKind::Other => "assertion"@,
    }
}

/// `non-` before a name when negated.
pub open spec fn negated_name(name: Seq<char>, neg: bool) -> Seq<char> {
    if neg { "non-"@ + name } else { name }
}

/// The name of a Perl class outside brackets.
pub open spec fn perl_name(k: PerlKind) -> Seq<char> {
    match k {
        PerlKind::Digit => "digit"@,
        PerlKind::Space => "whitespace"@,
        PerlKind::Word => "word character"@,
    }
}

/// The name of a Perl class inside brackets.
pub open spec fn perl_item_name(k: PerlKind) -> Seq<char> {
    match k {
        PerlKind::Digit => "digit"@,
        PerlKind::Space => "whitespace"@,
        PerlKind::Word => "word"@,
    }
}

/// The name of an operator on classes.
pub open spec fn class_op_name(k: ClassOpKind) -> Seq<char> {
    match k {
        ClassOpKind::Intersection => "and"@,
        ClassOpKind::Difference => "minus"@,
        ClassOpKind::SymmetricDifference => "xor"@,
    }
}

/// What the contents of a bracketed class mean.
pub open spec fn class_set_text(s: BracketSet) -> Seq<char>
    decreases s,
{
    match s {
        BracketSet::Item(it) => class_item_text(it),
        BracketSet::BinaryOp(k, l, r) => class_set_text(*l) + " "@ + class_op_name(k) + " "@ + class_set_text(*r),
    }
}

/// What an item of a bracketed class means.
pub open spec fn class_item_text(it: ClassItem) -> Seq<char>
    decreases it,
{
    match it {
        ClassItem::Empty => Seq::empty(),
        ClassItem::Literal(c) => quote_char(c),
        ClassItem::Range(a, b) => quote_char(a) + "-"@ + quote_char(b),
        ClassItem::Perl(k, neg) => negated_name(perl_item_name(k), neg),
        ClassItem::Unicode => "unicode class"@,
        ClassItem::Bracketed(neg, s) => if neg {
            "not("@ + class_set_text(*s) + ")"@
        } else {
            class_set_text(*s)
        },
        ClassItem::Union(items) => join_seq(class_items_texts(items@), ", "@),
        ClassItem::Ascii => "character class"@,
    }
}

/// What each item of a list means.
pub open spec fn class_items_texts(items: Seq<ClassItem>) -> Seq<Seq<char>>
    decreases items,
{
    if items.len() == 0 {
        Seq::empty()
    } else {
        class_items_texts(items.drop_last()).push(class_item_text(items.last()))
    }
}

/// How often a repetition repeats.
pub open spec fn repetition_text(k: RepeatKind) -> Seq<char> {
    match k {
        RepeatKind::ZeroOrOne => "optionally"@,
        RepeatKind::ZeroOrMore => "zero or more times"@,
        RepeatKind::OneOrMore => "one or more times"@,
        RepeatKind::Exactly(n) => "exactly "@ + decimal(n as nat) + " times"@,
        RepeatKind::AtLeast(n) => decimal(n as nat) + " or more times"@,
        RepeatKind::Bounded(a, b) => decimal(a as nat) + " to "@ + decimal(b as nat) + " times"@,
    }
}

/// What a node means.
pub open spec fn node_text(n: SyntaxNode) -> Seq<char>
    decreases n,
{
    match n {
        SyntaxNode::Empty(_) => Seq::empty(),
        SyntaxNode::Flags(_) => "flags modifier"@,
        SyntaxNode::Literal(_, k, c) => literal_text(k, c),
        SyntaxNode::Dot(_) => "any character (except newline)"@,
        SyntaxNode::Assertion(_, k) => assertion_text(k),
        SyntaxNode::ClassUnicode(_, neg) => "unicode class "@ + (if neg { "(negated)"@ } else { Seq::empty() }),
        SyntaxNode::ClassPerl(_, k, neg) => negated_name(perl_name(k), neg),
        SyntaxNode::ClassBracketed(_, neg, set) => (if neg { "not "@ } else { Seq::empty() }) + "["@
            + class_set_text(set) + "]"@,
        SyntaxNode::Repetition { rep, greedy, child, .. } => {
            let inner = node_text(*child);
            let quant = repetition_text(rep);
            let lazy = if !greedy { " (lazy)"@ } else { Seq::empty() };
            if rep is ZeroOrOne {
                quant + " "@ + inner + lazy
            } else {
                inner + ", "@ + quant + lazy
            }
        },
        SyntaxNode::Group { group, child, .. } => {
            let inner = node_text(*child);
            match group {
                GroupForm::CaptureIndex(i) => "capture group #"@ + decimal(i as nat) + ": "@ + inner,
                GroupForm::CaptureName { name, .. } => "named capture '"@ + name@ + "': "@ + inner,
                GroupForm::NonCapturing => "non-capturing group: "@ + inner,
            }
        },
        SyntaxNode::Concat(_, kids) => {
            let parts = concat_texts(kids@);
            if parts.len() == 1 { parts[0] } else { join_seq(parts, ", then "@) }
        },
        SyntaxNode::Alternation(_, kids) => join_seq(node_texts(kids@), " OR "@),
    }
}

/// What each node of a list means.
pub open spec fn node_texts(kids: Seq<SyntaxNode>) -> Seq<Seq<char>>
    decreases kids,
{
    if kids.len() == 0 {
        Seq::empty()
    } else {
        node_texts(kids.drop_last()).push(node_text(kids.last()))
    }
}

/// What each node of a list means, leaving out the empty meanings.
pub open spec fn concat_texts(kids: Seq<SyntaxNode>) -> Seq<Seq<char>>
    decreases kids,
{
    if kids.len() == 0 {
        Seq::empty()
    } else {
        let t = node_text(kids.last());
        concat_texts(kids.drop_last()) + (if t.len() > 0 { seq![t] } else { Seq::empty() })
    }
}


fn push_quote_char(s: &mut String, c: char)
    ensures
        final(s)@ == old(s)@ + quote_char(c),
{
    push_char(s, '\'');
    push_char(s, c);
    push_char(s, '\'');
    assert(s@ =~= old(s)@ + quote_char(c));
}

fn literal_text_exec(k: LiteralForm, c: char) -> (r: String)
    ensures
        r@ == literal_text(k, c),
{
    let mut r = String::new();
    match k {
        LiteralForm::Verbatim => push_quote_char(&mut r, c),
        LiteralForm::Meta => {
            if c == '.' {
                push_str(&mut r, "literal '.'");
            } else {
                push_quote_char(&mut r, c);
            }
        },
        LiteralForm::Superfluous => push_quote_char(&mut r, c),
        LiteralForm::Octal => {
            push_str(&mut r, "octal char ");
            push_quote_char(&mut r, c);
        },
        LiteralForm::Hex => {
            push_str(&mut r, "hex char ");
            push_quote_char(&mut r, c);
        },
        LiteralForm::Special(sk) => {
            let name = match sk {
                SpecialKind::Bell => "bell character",
                SpecialKind::FormFeed => "form feed",
                SpecialKind::Tab => "tab",
                SpecialKind::LineFeed => "newline",
                SpecialKind::CarriageReturn => "carriage return",
                SpecialKind::VerticalTab => "vertical tab",
                SpecialKind::Space => "space",
            };
            push_str(&mut r, name);
        },
    }
    assert(r@ =~= literal_text(k, c));
    r
}

fn assertion_text_exec(k: AssertKind) -> (r: &'static str)
    ensures
        r@ == assertion_text(k),
{
    match k {
        AssertKind::StartLine => "start of line",
        AssertKind::EndLine => "end of line",
        AssertKind::StartText => "start of text",
        AssertKind::EndText => "end of text",
        AssertKind::WordBoundary => "word boundary",
        AssertKind::NotWordBoundary => "non-word boundary",
        AssertKind::Other => "assertion",
    }
}

fn push_negated_name(r: &mut String, name: &str, neg: bool)
    ensures
        final(r)@ == old(r)@ + negated_name(name@, neg),
{
    if neg {
        push_str(r, "non-");
    }
    push_str(r, name);
    assert(r@ =~= old(r)@ + negated_name(name@, neg));
}

fn class_op_name_exec(k: ClassOpKind) -> (r: &'static str)
    ensures
        r@ == class_op_name(k),
{
    match k {
        ClassOpKind::Intersection => "and",
        ClassOpKind::Difference => "minus",
        ClassOpKind::SymmetricDifference => "xor",
    }
}

/// The views of a list of strings.
pub open spec fn strings_view(v: Seq<String>) -> Seq<Seq<char>> {
    v.map_values(|x: String| x@)
}

fn push_string(v: &mut Vec<String>, x: String)
    ensures
        strings_view(final(v)@) == strings_view(old(v)@).push(x@),
{
    let ghost xv = x@;
    v.push(x);
    assert(strings_view(v@) =~= strings_view(old(v)@).push(xv));
}

/// The strings joined, `sep` between each two.
fn join_strings(parts: &Vec<String>, sep: &str) -> (out: String)
    ensures
        out@ == join_seq(strings_view(parts@), sep@),
{
    let ghost pv = strings_view(parts@);
    let mut out = String::new();
    let mut i: usize = 0;
    while i < parts.len()
        invariant
            i <= parts@.len(),
            pv == strings_view(parts@),
            out@ == join_seq(pv.take(i as int), sep@),
        decreases parts@.len() - i,
    {
        let ghost before = pv.take(i as int);
        if i > 0 {
            push_str(&mut out, sep);
        }
        push_str(&mut out, parts[i].as_str());
        i += 1;
        assert(pv.take(i as int).drop_last() =~= before);
        if i == 1 {
            assert(out@ =~= join_seq(pv.take(i as int), sep@));
        }
    }
    assert(pv.take(i as int) =~= pv);
    out
}

fn class_set_text_exec(s: &BracketSet) -> (r: String)
    ensures
        r@ == class_set_text(*s),
    decreases s,
{
    match s {
        BracketSet::Item(it) => class_item_text_exec(it),
        BracketSet::BinaryOp(k, l, rr) => {
            let mut r = class_set_text_exec(l);
            push_str(&mut r, " ");
            push_str(&mut r, class_op_name_exec(*k));
            push_str(&mut r, " ");
            let rt = class_set_text_exec(rr);
            push_str(&mut r, rt.as_str());
            assert(r@ =~= class_set_text(*s));
            r
        },
    }
}

fn class_item_text_exec(it: &ClassItem) -> (r: String)
    ensures
        r@ == class_item_text(*it),
    decreases it,
{
    let mut r = String::new();
    match it {
        ClassItem::Empty => {},
        ClassItem::Literal(c) => push_quote_char(&mut r, *c),
        ClassItem::Range(a, b) => {
            push_quote_char(&mut r, *a);
            push_str(&mut r, "-");
            push_quote_char(&mut r, *b);
        },
        ClassItem::Perl(k, neg) => {
            let name = match k {
                PerlKind::Digit => "digit",
                PerlKind::Space => "whitespace",
                PerlKind::Word => "word",
            };
            push_negated_name(&mut r, name, *neg);
        },
        ClassItem::Unicode => push_str(&mut r, "unicode class"),
        ClassItem::Bracketed(neg, set) => {
            let inner = class_set_text_exec(set);
            if *neg {
                push_str(&mut r, "not(");
                push_str(&mut r, inner.as_str());
                push_str(&mut r, ")");
            } else {
                push_str(&mut r, inner.as_str());
            }
        },
        ClassItem::Union(items) => {
            proof {
                assert(decreases_to!(*it => *items));
            }
            let mut parts: Vec<String> = Vec::new();
            let mut i: usize = 0;
            assert(strings_view(parts@) =~= class_items_texts(items@.take(0)));
            while i < items.len()
                invariant
                    decreases_to!(*it => *items),
                    i <= items@.len(),
                    strings_view(parts@) == class_items_texts(items@.take(i as int)),
                decreases items@.len() - i,
            {
                proof {
                    assert(decreases_to!(*items => items[i as int]));
                }
                let t = class_item_text_exec(&items[i]);
                push_string(&mut parts, t);
                assert(items@.take(i + 1).drop_last() =~= items@.take(i as int));
                i += 1;
            }
            assert(items@.take(i as int) =~= items@);
            r = join_strings(&parts, ", ");
        },
        ClassItem::Ascii => push_str(&mut r, "character class"),
    }
    assert(r@ =~= class_item_text(*it));
    r
}

fn repetition_text_exec(k: RepeatKind) -> (r: String)
    ensures
        r@ == repetition_text(k),
{
    let mut r = String::new();
    match k {
        RepeatKind::ZeroOrOne => push_str(&mut r, "optionally"),
        RepeatKind::ZeroOrMore => push_str(&mut r, "zero or more times"),
        RepeatKind::OneOrMore => push_str(&mut r, "one or more times"),
        RepeatKind::Exactly(n) => {
            push_str(&mut r, "exactly ");
            push_decimal(&mut r, n as usize);
            push_str(&mut r, " times");
        },
        RepeatKind::AtLeast(n) => {
            push_decimal(&mut r, n as usize);
            push_str(&mut r, " or more times");
        },
        RepeatKind::Bounded(a, b) => {
            push_decimal(&mut r, a as usize);
            push_str(&mut r, " to ");
            push_decimal(&mut r, b as usize);
            push_str(&mut r, " times");
        },
    }
    assert(r@ =~= repetition_text(k));
    r
}

/// What a node of a syntax tree means.
pub fn explain_node(n: &SyntaxNode) -> (r: String)
    ensures
        r@ == node_text(*n),
    decreases n,
{
    let mut r = String::new();
    match n {
        SyntaxNode::Empty(_) => {},
        SyntaxNode::Flags(_) => push_str(&mut r, "flags modifier"),
        SyntaxNode::Literal(_, k, c) => {
            r = literal_text_exec(*k, *c);
        },
        SyntaxNode::Dot(_) => push_str(&mut r, "any character (except newline)"),
        SyntaxNode::Assertion(_, k) => push_str(&mut r, assertion_text_exec(*k)),
        SyntaxNode::ClassUnicode(_, neg) => {
            push_str(&mut r, "unicode class ");
            if *neg {
                push_str(&mut r, "(negated)");
            }
        },
        SyntaxNode::ClassPerl(_, k, neg) => {
            let name = match k {
                PerlKind::Digit => "digit",
                PerlKind::Space => "whitespace",
                PerlKind::Word => "word character",
            };
            push_negated_name(&mut r, name, *neg);
        },
        SyntaxNode::ClassBracketed(_, neg, set) => {
            if *neg {
                push_str(&mut r, "not ");
            }
            push_str(&mut r, "[");
            let inner = class_set_text_exec(set);
            push_str(&mut r, inner.as_str());
            push_str(&mut r, "]");
        },
        SyntaxNode::Repetition { rep, greedy, child, .. } => {
            let inner = explain_node(child);
            let quant = repetition_text_exec(*rep);
            let optional = match rep {
                RepeatKind::ZeroOrOne => true,
                _ => false,
            };
            if optional {
                push_str(&mut r, quant.as_str());
                push_str(&mut r, " ");
                push_str(&mut r, inner.as_str());
            } else {
                push_str(&mut r, inner.as_str());
                push_str(&mut r, ", ");
                push_str(&mut r, quant.as_str());
            }
            if !*greedy {
                push_str(&mut r, " (lazy)");
            }
        },
        SyntaxNode::Group { group, child, .. } => {
            let inner = explain_node(child);
            match group {
                GroupForm::CaptureIndex(i) => {
                    push_str(&mut r, "capture group #");
                    push_decimal(&mut r, *i as usize);
                    push_str(&mut r, ": ");
                },
                GroupForm::CaptureName { name, .. } => {
                    push_str(&mut r, "named capture '");
                    push_str(&mut r, name.as_str());
                    push_str(&mut r, "': ");
                },
                GroupForm::NonCapturing => push_str(&mut r, "non-capturing group: "),
            }
            push_str(&mut r, inner.as_str());
        },
        SyntaxNode::Concat(_, kids) => {
            proof {
                assert(decreases_to!(*n => *kids));
            }
            let mut parts: Vec<String> = Vec::new();
            let mut i: usize = 0;
            assert(strings_view(parts@) =~= concat_texts(kids@.take(0)));
            while i < kids.len()
                invariant
                    decreases_to!(*n => *kids),
                    i <= kids@.len(),
                    strings_view(parts@) == concat_texts(kids@.take(i as int)),
                decreases kids@.len() - i,
            {
                proof {
                    assert(decreases_to!(*kids => kids[i as int]));
                }
                let t = explain_node(&kids[i]);
                let ghost tv = t@;
                assert(tv == node_text(kids@.take(i + 1).last()));
                if !t.as_str().is_empty() {
                    push_string(&mut parts, t);
                }
                assert(kids@.take(i + 1).drop_last() =~= kids@.take(i as int));
                i += 1;
                assert(strings_view(parts@) =~= concat_texts(kids@.take(i as int)));
            }
            assert(kids@.take(i as int) =~= kids@);
            r = join_strings(&parts, ", then ");
        },
        SyntaxNode::Alternation(_, kids) => {
            proof {
                assert(decreases_to!(*n => *kids));
            }
            let mut parts: Vec<String> = Vec::new();
            let mut i: usize = 0;
            assert(strings_view(parts@) =~= node_texts(kids@.take(0)));
            while i < kids.len()
                invariant
                    decreases_to!(*n => *kids),
                    i <= kids@.len(),
                    strings_view(parts@) == node_texts(kids@.take(i as int)),
                decreases kids@.len() - i,
            {
                proof {
                    assert(decreases_to!(*kids => kids[i as int]));
                }
                let t = explain_node(&kids[i]);
                push_string(&mut parts, t);
                assert(kids@.take(i + 1).drop_last() =~= kids@.take(i as int));
                i += 1;
            }
            assert(kids@.take(i as int) =~= kids@);
            r = join_strings(&parts, " OR ");
        },
    }
    assert(r@ =~= node_text(*n));
    r
}


// ===== Explanation by a byte scan =====

/// The byte after a backslash, as the scan describes it: the classes and
/// anchors it knows by name, any other byte as a literal.
pub open spec fn escape_text(c: u8) -> Seq<char> {
    if c == 0x64 { "a digit"@ }
    else if c == 0x44 { "a non-digit"@ }
    else if c == 0x77 { "a word character"@ }
    else if c == 0x57 { "a non-word character"@ }
    else if c == 0x73 { "whitespace"@ }
    else if c == 0x53 { "non-whitespace"@ }
    else if c == 0x62 { "word boundary"@ }
    else if c == 0x42 { "non-word boundary"@ }
    else if c == 0x6e { "newline"@ }
    else if c == 0x74 { "tab"@ }
    else { "literal "@ + quote_char(c as char) }
}

/// Where a bracketed class whose body continues at `j` ends, for the
/// scan: after its `]`; a backslash skips the next byte, which may take
/// the end one past the last byte of an unclosed class.
pub open spec fn class_end(b: Seq<u8>, j: int) -> int
    decreases b.len() + 1 - j,
{
    if j < 0 || j >= b.len() {
        j
    } else if b[j] == 0x5d {
        j + 1
    } else if b[j] == 0x5c {
        class_end(b, j + 2)
    } else {
        class_end(b, j + 1)
    }
}

/// The last part with `suffix` added, when there is one.
pub open spec fn amend_last(parts: Seq<Seq<char>>, suffix: Seq<char>) -> Seq<Seq<char>> {
    if parts.len() == 0 { parts } else { parts.drop_last().push(parts.last() + suffix) }
}

/// The parts of the scan from byte `i`, after `parts`; none when an
/// unclosed class ends with a backslash (its text would run past the end of
/// the pattern).
pub open spec fn fallback_parts(b: Seq<u8>, i: int, parts: Seq<Seq<char>>) -> Option<Seq<Seq<char>>>
    decreases b.len() - i,
{
    if i < 0 || i >= b.len() {
        Some(parts)
    } else {
        let c = b[i];
        if c == 0x5c && i + 1 < b.len() {
            fallback_parts(b, i + 2, parts.push(escape_text(b[i + 1])))
        } else if c == 0x2e {
            fallback_parts(b, i + 1, parts.push("any character"@))
        } else if c == 0x5e {
            fallback_parts(b, i + 1, parts.push("start of line"@))
        } else if c == 0x24 {
            fallback_parts(b, i + 1, parts.push("end of line"@))
        } else if c == 0x2a {
            fallback_parts(b, i + 1, amend_last(parts, ", zero or more times"@))
        } else if c == 0x2b {
            fallback_parts(b, i + 1, amend_last(parts, ", one or more times"@))
        } else if c == 0x3f {
            fallback_parts(b, i + 1, amend_last(parts, " (optional)"@))
        } else if c == 0x7c {
            fallback_parts(b, i + 1, parts.push("OR"@))
        } else if c == 0x28 {
            fallback_parts(b, i + 1, parts.push("group start"@))
        } else if c == 0x29 {
            fallback_parts(b, i + 1, parts.push("group end"@))
        } else if c == 0x5b {
            let e = class_end(b, i + 1);
            proof {
                lemma_class_end_bound(b, i + 1);
            }
            if e > b.len() {
                None
            } else {
                fallback_parts(
                    b,
                    e,
                    parts.push("character class "@ + decode_utf8(b.subrange(i, e))),
                )
            }
        } else {
            fallback_parts(b, i + 1, parts.push(quote_char(c as char)))
        }
    }
}

/// The explanation of the scan, when it completes.
pub open spec fn fallback_text(b: Seq<u8>) -> Option<Seq<char>> {
    match fallback_parts(b, 0, Seq::empty()) {
        None => None,
        Some(parts) => Some(
            if parts.len() == 0 { "matches the input"@ } else { join_seq(parts, ", followed by "@) },
        ),
    }
}

pub proof fn lemma_class_end_bound(b: Seq<u8>, j: int)
    requires
        0 <= j,
    ensures
        class_end(b, j) >= j,
        j <= b.len() ==> class_end(b, j) <= b.len() + 1,
    decreases b.len() + 1 - j,
{
    if 0 <= j < b.len() && b[j] != 0x5d {
        if b[j] == 0x5c {
            lemma_class_end_bound(b, j + 2);
        } else {
            lemma_class_end_bound(b, j + 1);
        }
    }
}

/// A class that ends within the pattern ends at the end of the pattern or
/// just after a `]`.
proof fn lemma_class_end_shape(b: Seq<u8>, j: int)
    requires
        0 <= j,
    ensures
        class_end(b, j) <= b.len() ==> class_end(b, j) == b.len() || (1 <= class_end(b, j) && b[class_end(b, j)
            - 1] == 0x5d),
    decreases b.len() + 1 - j,
{
    if 0 <= j < b.len() && b[j] != 0x5d {
        if b[j] == 0x5c {
            lemma_class_end_shape(b, j + 2);
        } else {
            lemma_class_end_shape(b, j + 1);
        }
    }
}

/// The bytes of a class that ends within a pattern, from its `[` on, are
/// whole characters of the pattern.
proof fn lemma_class_bytes_valid(s: Seq<char>, i: int)
    requires
        0 <= i < encode_utf8(s).len(),
        encode_utf8(s)[i] == 0x5b,
        class_end(encode_utf8(s), i + 1) <= encode_utf8(s).len(),
    ensures
        valid_utf8(encode_utf8(s).subrange(i, class_end(encode_utf8(s), i + 1))),
{
    let b = encode_utf8(s);
    let e = class_end(b, i + 1);
    encode_utf8_valid_utf8(s);
    lemma_class_end_bound(b, i + 1);
    lemma_class_end_shape(b, i + 1);
    is_char_boundary_iff_not_is_continuation_byte(b, i);
    if e == b.len() {
        is_char_boundary_start_end_of_seq(b);
    } else {
        is_char_boundary_iff_not_is_continuation_byte(b, e - 1);
        lemma_ascii_next_boundary(b, e - 1);
    }
    lemma_between_boundaries(s, i, e);
}

/// Where a class ends for the scan; none when past the end of the pattern.
fn class_end_exec(b: &[u8], j: usize) -> (r: Option<usize>)
    requires
        j <= b@.len(),
    ensures
        match r {
            Some(e) => e as int == class_end(b@, j as int) && e <= b@.len(),
            None => class_end(b@, j as int) > b@.len(),
        },
{
    let n = b.len();
    let mut k = j;
    while k < n && b[k] != 0x5d
        invariant
            n == b@.len(),
            j <= k <= n,
            class_end(b@, k as int) == class_end(b@, j as int),
        decreases n - k,
    {
        if b[k] == 0x5c {
            if k + 1 == n {
                proof {
                    assert(class_end(b@, k + 2) == k + 2);
                }
                return None;
            }
            k += 1;
        }
        k += 1;
    }
    if k < n {
        Some(k + 1)
    } else {
        Some(k)
    }
}

fn escape_text_exec(c: u8) -> (r: String)
    ensures
        r@ == escape_text(c),
{
    if c == 0x64 { string_from("a digit") }
    else if c == 0x44 { string_from("a non-digit") }
    else if c == 0x77 { string_from("a word character") }
    else if c == 0x57 { string_from("a non-word character") }
    else if c == 0x73 { string_from("whitespace") }
    else if c == 0x53 { string_from("non-whitespace") }
    else if c == 0x62 { string_from("word boundary") }
    else if c == 0x42 { string_from("non-word boundary") }
    else if c == 0x6e { string_from("newline") }
    else if c == 0x74 { string_from("tab") }
    else {
        let mut r = string_from("literal ");
        push_quote_char(&mut r, c as char);
        r
    }
}

fn amend_last_exec(parts: &mut Vec<String>, suffix: &str)
    ensures
        strings_view(final(parts)@) == amend_last(strings_view(old(parts)@), suffix@),
{
    let n = parts.len();
    if n > 0 {
        let mut last = parts.pop().unwrap();
        push_str(&mut last, suffix);
        push_string(parts, last);
        assert(strings_view(parts@) =~= amend_last(strings_view(old(parts)@), suffix@));
    } else {
        assert(strings_view(parts@) =~= amend_last(strings_view(old(parts)@), suffix@));
    }
}

/// Whether the byte scan of a pattern completes: no unclosed class ends
/// with a backslash.
pub fn fallback_completes(pattern: &str) -> (r: bool)
    ensures
        r == (fallback_text(encode_utf8(pattern@)) is Some),
{
    let bytes = pattern.as_bytes();
    let len = bytes.len();
    let ghost b = bytes@;
    let ghost mut parts: Seq<Seq<char>> = Seq::empty();
    let mut i: usize = 0;
    while i < len
        invariant
            b == bytes@,
            len == b.len(),
            i <= len,
            b == encode_utf8(pattern@),
            (fallback_parts(b, i as int, parts) is Some) == (fallback_parts(b, 0, Seq::empty()) is Some),
        decreases len - i,
    {
        let c = bytes[i];
        if c == 0x5c && i + 1 < len {
            proof { parts = parts.push(escape_text(b[i + 1])); }
            i += 2;
        } else if c == 0x5b {
            let e = match class_end_exec(bytes, i + 1) {
                Some(e) => e,
                None => {
                    assert(b[i as int] == 0x5b);
                    assert(fallback_parts(b, i as int, parts) is None);
                    return false;
                },
            };
            proof {
                lemma_class_end_bound(b, i + 1);
            }
            proof { parts = parts.push("character class "@ + decode_utf8(b.subrange(i as int, e as int))); }
            i = e;
        } else {
            proof {
                parts = if c == 0x2e { parts.push("any character"@) }
                    else if c == 0x5e { parts.push("start of line"@) }
                    else if c == 0x24 { parts.push("end of line"@) }
                    else if c == 0x2a { amend_last(parts, ", zero or more times"@) }
                    else if c == 0x2b { amend_last(parts, ", one or more times"@) }
                    else if c == 0x3f { amend_last(parts, " (optional)"@) }
                    else if c == 0x7c { parts.push("OR"@) }
                    else if c == 0x28 { parts.push("group start"@) }
                    else if c == 0x29 { parts.push("group end"@) }
                    else { parts.push(quote_char(c as char)) };
            }
            i += 1;
        }
    }
    true
}

/// The explanation by a byte scan, for a pattern that does not parse: each
/// escape, metacharacter, group parenthesis, class and literal byte in
/// turn, quantifiers amending the part before them, joined by
/// `, followed by `.
pub fn explain_fallback(pattern: &str) -> (r: String)
    requires
        fallback_text(encode_utf8(pattern@)) is Some,
    ensures
        r@ == fallback_text(encode_utf8(pattern@))->0,
{
    let bytes = pattern.as_bytes();
    let len = bytes.len();
    let ghost b = bytes@;
    let ghost goal = fallback_parts(b, 0, Seq::empty());
    let mut parts: Vec<String> = Vec::new();
    let mut i: usize = 0;
    assert(strings_view(parts@) =~= Seq::<Seq<char>>::empty());
    while i < len
        invariant
            b == bytes@,
            len == b.len(),
            i <= len,
            b == encode_utf8(pattern@),
            goal is Some,
            fallback_parts(b, i as int, strings_view(parts@)) == goal,
        decreases len - i,
    {
        let c = bytes[i];
        if c == 0x5c && i + 1 < len {
            let d = escape_text_exec(bytes[i + 1]);
            push_string(&mut parts, d);
            i += 2;
        } else if c == 0x2e {
            push_string(&mut parts, string_from("any character"));
            i += 1;
        } else if c == 0x5e {
            push_string(&mut parts, string_from("start of line"));
            i += 1;
        } else if c == 0x24 {
            push_string(&mut parts, string_from("end of line"));
            i += 1;
        } else if c == 0x2a {
            amend_last_exec(&mut parts, ", zero or more times");
            i += 1;
        } else if c == 0x2b {
            amend_last_exec(&mut parts, ", one or more times");
            i += 1;
        } else if c == 0x3f {
            amend_last_exec(&mut parts, " (optional)");
            i += 1;
        } else if c == 0x7c {
            push_string(&mut parts, string_from("OR"));
            i += 1;
        } else if c == 0x28 {
            push_string(&mut parts, string_from("group start"));
            i += 1;
        } else if c == 0x29 {
            push_string(&mut parts, string_from("group end"));
            i += 1;
        } else if c == 0x5b {
            let e = match class_end_exec(bytes, i + 1) {
                Some(e) => e,
                None => {
                    return String::new();
                },
            };
            proof {
                lemma_class_end_bound(b, i + 1);
            }
            proof {
                lemma_class_bytes_valid(pattern@, i as int);
            }
            let mut d = string_from("character class ");
            let t = crate::engine::lossy_text(bytes, i, e);
            push_str(&mut d, t.as_str());
            push_string(&mut parts, d);
            i = e;
        } else {
            let mut d = String::new();
            push_quote_char(&mut d, c as char);
            push_string(&mut parts, d);
            i += 1;
        }
    }
    assert(goal == Some(strings_view(parts@)));
    if parts.len() == 0 {
        string_from("matches the input")
    } else {
        join_strings(&parts, ", followed by ")
    }
}

/// The explanation of a pattern, given what the regex parser made of it:
/// for an empty pattern, that it matches everything; from the syntax tree
/// when it parsed and says something; by the byte scan otherwise.
pub open spec fn explanation(p: Seq<char>, ast: Option<SyntaxNode>) -> Option<Seq<char>> {
    if p.len() == 0 {
        Some("Empty pattern: matches everything"@)
    } else {
        match ast {
            Some(t) if node_text(t).len() > 0 => Some(node_text(t)),
            _ => fallback_text(encode_utf8(p)),
        }
    }
}

/// The explanation of a pattern, given its syntax tree or none when it did
/// not parse. The byte scan runs only when the tree gives nothing, so it
/// must complete then.
pub fn explain_with(pattern: &str, ast: Option<&SyntaxNode>) -> (r: String)
    requires
        explanation(pattern@, match ast {
            Some(t) => Some(*t),
            None => None,
        }) is Some,
    ensures
        r@ == explanation(pattern@, match ast {
            Some(t) => Some(*t),
            None => None,
        })->0,
{
    if pattern.is_empty() {
        return string_from("Empty pattern: matches everything");
    }
    match ast {
        Some(t) => {
            let parts = explain_node(t);
            if parts.as_str().is_empty() {
                explain_fallback(pattern)
            } else {
                parts
            }
        },
        None => explain_fallback(pattern),
    }
}


/// The explanation of a pattern, from the tree `regex_syntax` parses it
/// into when that says something, by the byte scan otherwise. Where the
/// scan runs, it must complete.
pub fn explain_regex(pattern: &str) -> (r: String)
    requires
        explanation(pattern@, parsed_tree(pattern@)) is Some,
    ensures
        r@ == explanation(pattern@, parsed_tree(pattern@))->0,
{
    let tree = parse_pattern(pattern);
    match &tree {
        Some(t) => explain_with(pattern, Some(t)),
        None => explain_with(pattern, None),
    }
}

/// The explanation of a pattern, or none for a pattern whose tree says
/// nothing and whose byte scan does not complete.
pub fn explain_pattern(pattern: &str) -> (r: Option<String>)
    ensures
        (r is Some) == (explanation(pattern@, parsed_tree(pattern@)) is Some),
        r matches Some(t) ==> t@ == explanation(pattern@, parsed_tree(pattern@))->0,
{
    let known = if pattern.is_empty() {
        true
    } else {
        let tree = parse_pattern(pattern);
        let says = match &tree {
            Some(t) => !explain_node(t).as_str().is_empty(),
            None => false,
        };
        if says {
            true
        } else {
            fallback_completes(pattern)
        }
    };
    if known {
        Some(explain_regex(pattern))
    } else {
        None
    }
}

/// An assertion is explained by what it tests, whatever its place in the
/// pattern: `\b` as "word boundary", `\B` as its negation "non-word
/// boundary", `^` and `$` as the start and end of a line, `\A` and `\z`
/// as the start and end of the text.
pub proof fn law_assertions_named(s: ByteSpan)
    ensures
        node_text(SyntaxNode::Assertion(s, AssertKind::WordBoundary)) == "word boundary"@,
        node_text(SyntaxNode::Assertion(s, AssertKind::NotWordBoundary)) == "non-word boundary"@,
        node_text(SyntaxNode::Assertion(s, AssertKind::NotWordBoundary)) == "non-"@ + node_text(
            SyntaxNode::Assertion(s, AssertKind::WordBoundary),
        ),
        node_text(SyntaxNode::Assertion(s, AssertKind::StartLine)) == "start of line"@,
        node_text(SyntaxNode::Assertion(s, AssertKind::EndLine)) == "end of line"@,
        node_text(SyntaxNode::Assertion(s, AssertKind::StartText)) == "start of text"@,
        node_text(SyntaxNode::Assertion(s, AssertKind::EndText)) == "end of text"@,
{
    reveal_strlit("word boundary");
    reveal_strlit("non-word boundary");
    reveal_strlit("non-");
    assert("non-word boundary"@ =~= "non-"@ + "word boundary"@);
}

/// A Perl class is explained by its name, `\d` "digit", `\s`
/// "whitespace", `\w` "word character", and its negation (`\D`, `\S`,
/// `\W`) by the same name after "non-".
pub proof fn law_perl_classes_named(s: ByteSpan, k: PerlKind)
    ensures
        node_text(SyntaxNode::ClassPerl(s, PerlKind::Digit, false)) == "digit"@,
        node_text(SyntaxNode::ClassPerl(s, PerlKind::Space, false)) == "whitespace"@,
        node_text(SyntaxNode::ClassPerl(s, PerlKind::Word, false)) == "word character"@,
        node_text(SyntaxNode::ClassPerl(s, k, true)) == "non-"@ + node_text(SyntaxNode::ClassPerl(s, k, false)),
{
}

/// In the byte scan's explanation, an escape is explained by what it
/// stands for: `\d` "a digit", `\w` "a word character", `\s`
/// "whitespace", `\b` "word boundary", `\B` "non-word boundary", `\n`
/// "newline", `\t` "tab".
pub proof fn law_scan_escape_names()
    ensures
        escape_text('d' as u8) == "a digit"@,
        escape_text('D' as u8) == "a non-digit"@,
        escape_text('w' as u8) == "a word character"@,
        escape_text('W' as u8) == "a non-word character"@,
        escape_text('s' as u8) == "whitespace"@,
        escape_text('S' as u8) == "non-whitespace"@,
        escape_text('b' as u8) == "word boundary"@,
        escape_text('B' as u8) == "non-word boundary"@,
        escape_text('n' as u8) == "newline"@,
        escape_text('t' as u8) == "tab"@,
{
}

} // verus!
