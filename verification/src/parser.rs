//! The pattern parser of `regex_syntax`, and its syntax tree carried over,
//! node for node, into the library's own tree.

use vstd::prelude::*;
use regex_syntax::ast as rs;
use regex_syntax::ast::{Ast, ClassSetItem, RepetitionRange};
use crate::syntax as tree;
use crate::syntax::{ByteSpan, ClassItem, ClassOpKind, PerlKind, SpecialKind, SyntaxNode};

verus! {

#[verifier::external_type_specification]
#[verifier::external_body]
pub struct ExAst(regex_syntax::ast::Ast);

#[verifier::external_type_specification]
#[verifier::external_body]
pub struct ExSpan(regex_syntax::ast::Span);

#[verifier::external_type_specification]
#[verifier::external_body]
pub struct ExLiteral(regex_syntax::ast::Literal);

#[verifier::external_type_specification]
#[verifier::external_body]
pub struct ExAssertion(regex_syntax::ast::Assertion);

#[verifier::external_type_specification]
#[verifier::external_body]
pub struct ExClassPerl(regex_syntax::ast::ClassPerl);

#[verifier::external_type_specification]
#[verifier::external_body]
pub struct ExClassBracketed(regex_syntax::ast::ClassBracketed);

#[verifier::external_type_specification]
#[verifier::external_body]
pub struct ExAlternation(regex_syntax::ast::Alternation);

#[verifier::external_type_specification]
#[verifier::external_body]
pub struct ExConcat(regex_syntax::ast::Concat);

#[verifier::external_type_specification]
#[verifier::external_body]
pub struct ExLiteralKind(regex_syntax::ast::LiteralKind);

#[verifier::external_type_specification]
#[verifier::external_body]
pub struct ExSpecialLiteralKind(regex_syntax::ast::SpecialLiteralKind);

#[verifier::external_type_specification]
#[verifier::external_body]
pub struct ExAssertionKind(regex_syntax::ast::AssertionKind);

#[verifier::external_type_specification]
#[verifier::external_body]
pub struct ExClassPerlKind(regex_syntax::ast::ClassPerlKind);

#[verifier::external_type_specification]
#[verifier::external_body]
pub struct ExClassSet(regex_syntax::ast::ClassSet);

#[verifier::external_type_specification]
#[verifier::external_body]
pub struct ExClassSetItem(regex_syntax::ast::ClassSetItem);

#[verifier::external_type_specification]
#[verifier::external_body]
pub struct ExClassSetBinaryOpKind(regex_syntax::ast::ClassSetBinaryOpKind);

#[verifier::external_type_specification]
#[verifier::external_body]
pub struct ExRepetition(regex_syntax::ast::Repetition);

#[verifier::external_type_specification]
#[verifier::external_body]
pub struct ExRepetitionKind(regex_syntax::ast::RepetitionKind);

#[verifier::external_type_specification]
#[verifier::external_body]
pub struct ExGroup(regex_syntax::ast::Group);

#[verifier::external_type_specification]
#[verifier::external_body]
pub struct ExGroupKind(regex_syntax::ast::GroupKind);

/// The syntax tree that `regex_syntax`'s default parser gives for a
/// pattern, or none when the pattern does not parse.
pub uninterp spec fn parsed_tree(pattern: Seq<char>) -> Option<SyntaxNode>;

/// `regex_syntax::ast::parse::Parser::new().parse`, its tree carried over
/// into the library's form. The contract claims only that the outcome is
/// the parser's, a function of the pattern alone.
#[verifier::external_body]
pub(crate) fn parse_pattern(pattern: &str) -> (r: Option<SyntaxNode>)
    ensures
        r == parsed_tree(pattern@),
{
    match rs::parse::Parser::new().parse(pattern) {
        Ok(a) => Some(tree_of(&a)),
        Err(_) => None,
    }
}

/// A node of the parser's tree in the library's form, variant for variant,
/// each node with the byte range the parser gave it.
#[verifier::external_body]
fn tree_of(a: &Ast) -> SyntaxNode {
    let s = byte_span(a.span());
    match a {
        Ast::Empty(_) => SyntaxNode::Empty(s),
        Ast::Flags(_) => SyntaxNode::Flags(s),
        Ast::Literal(l) => literal_node(s, l),
        Ast::Dot(_) => SyntaxNode::Dot(s),
        Ast::Assertion(x) => assertion_node(s, x),
        Ast::ClassUnicode(c) => SyntaxNode::ClassUnicode(s, c.negated),
        Ast::ClassPerl(c) => perl_node(s, c),
        Ast::ClassBracketed(c) => bracketed_node(s, c),
        Ast::Repetition(r) => repetition_node(s, r),
        Ast::Group(g) => group_node(s, g),
        Ast::Alternation(x) => alternation_node(s, x),
        Ast::Concat(x) => concat_node(s, x),
    }
}

/// An alternation: its range and its branches, in order.
#[verifier::external_body]
fn alternation_node(s: ByteSpan, x: &rs::Alternation) -> SyntaxNode {
    SyntaxNode::Alternation(s, trees_of(&x.asts))
}

/// A concatenation: its range and its parts, in order.
#[verifier::external_body]
fn concat_node(s: ByteSpan, x: &rs::Concat) -> SyntaxNode {
    SyntaxNode::Concat(s, trees_of(&x.asts))
}

/// The nodes of a list of the parser's nodes, in order.
fn trees_of(v: &Vec<Ast>) -> (r: Vec<SyntaxNode>)
    ensures
        r@.len() == v@.len(),
{
    let mut r: Vec<SyntaxNode> = Vec::new();
    let mut i: usize = 0;
    while i < v.len()
        invariant
            i <= v@.len(),
            r@.len() == i,
        decreases v@.len() - i,
    {
        r.push(tree_of(&v[i]));
        i += 1;
    }
    r
}

/// A byte range of the parser: its start and end offsets.
#[verifier::external_body]
fn byte_span(s: &rs::Span) -> ByteSpan {
    ByteSpan { start: s.start.offset, end: s.end.offset }
}

/// A literal: its range, how it was written, and the character.
#[verifier::external_body]
fn literal_node(s: ByteSpan, l: &rs::Literal) -> SyntaxNode {
    SyntaxNode::Literal(s, literal_kind(&l.kind), l.c)
}

/// An assertion: its range and kind.
#[verifier::external_body]
fn assertion_node(s: ByteSpan, x: &rs::Assertion) -> SyntaxNode {
    SyntaxNode::Assertion(s, assertion_kind(&x.kind))
}

/// A Perl class: its range, which class, and whether negated.
#[verifier::external_body]
fn perl_node(s: ByteSpan, c: &rs::ClassPerl) -> SyntaxNode {
    SyntaxNode::ClassPerl(s, perl_kind(&c.kind), c.negated)
}

/// A bracketed class: its range, whether negated, and its contents.
#[verifier::external_body]
fn bracketed_node(s: ByteSpan, c: &rs::ClassBracketed) -> SyntaxNode {
    SyntaxNode::ClassBracketed(s, c.negated, class_set(&c.kind))
}

/// A repetition: its range, the operator's range and kind, greediness, and
/// the node repeated.
#[verifier::external_body]
fn repetition_node(s: ByteSpan, r: &rs::Repetition) -> SyntaxNode {
    SyntaxNode::Repetition {
        span: s,
        op: byte_span(&r.op.span),
        rep: repetition_kind(&r.op.kind),
        greedy: r.greedy,
        child: Box::new(tree_of(&r.ast)),
    }
}

/// A group: its range, its kind, and the node inside.
#[verifier::external_body]
fn group_node(s: ByteSpan, g: &rs::Group) -> SyntaxNode {
    SyntaxNode::Group { span: s, group: group_kind(&g.kind), child: Box::new(tree_of(&g.ast)) }
}

/// How a literal was written; both hexadecimal forms are hexadecimal.
#[verifier::external_body]
fn literal_kind(k: &rs::LiteralKind) -> tree::LiteralForm {
    match k {
        rs::LiteralKind::Verbatim => tree::LiteralForm::Verbatim,
        rs::LiteralKind::Meta => tree::LiteralForm::Meta,
        rs::LiteralKind::Superfluous => tree::LiteralForm::Superfluous,
        rs::LiteralKind::Octal => tree::LiteralForm::Octal,
        rs::LiteralKind::HexFixed(_) => tree::LiteralForm::Hex,
        rs::LiteralKind::HexBrace(_) => tree::LiteralForm::Hex,
        rs::LiteralKind::Special(x) => tree::LiteralForm::Special(special_kind(x)),
    }
}

/// The special character an escape names.
#[verifier::external_body]
fn special_kind(k: &rs::SpecialLiteralKind) -> SpecialKind {
    match k {
        rs::SpecialLiteralKind::Bell => SpecialKind::Bell,
        rs::SpecialLiteralKind::FormFeed => SpecialKind::FormFeed,
        rs::SpecialLiteralKind::Tab => SpecialKind::Tab,
        rs::SpecialLiteralKind::LineFeed => SpecialKind::LineFeed,
        rs::SpecialLiteralKind::CarriageReturn => SpecialKind::CarriageReturn,
        rs::SpecialLiteralKind::VerticalTab => SpecialKind::VerticalTab,
        rs::SpecialLiteralKind::Space => SpecialKind::Space,
    }
}

/// What an assertion asserts; the six half and angle word boundaries are
/// `Other`.
#[verifier::external_body]
fn assertion_kind(k: &rs::AssertionKind) -> tree::AssertKind {
    match k {
        rs::AssertionKind::StartLine => tree::AssertKind::StartLine,
        rs::AssertionKind::EndLine => tree::AssertKind::EndLine,
        rs::AssertionKind::StartText => tree::AssertKind::StartText,
        rs::AssertionKind::EndText => tree::AssertKind::EndText,
        rs::AssertionKind::WordBoundary => tree::AssertKind::WordBoundary,
        rs::AssertionKind::NotWordBoundary => tree::AssertKind::NotWordBoundary,
        _ => tree::AssertKind::Other,
    }
}

/// Which Perl class.
#[verifier::external_body]
fn perl_kind(k: &rs::ClassPerlKind) -> PerlKind {
    match k {
        rs::ClassPerlKind::Digit => PerlKind::Digit,
        rs::ClassPerlKind::Space => PerlKind::Space,
        rs::ClassPerlKind::Word => PerlKind::Word,
    }
}

/// A repetition operator, its counts as written.
#[verifier::external_body]
fn repetition_kind(k: &rs::RepetitionKind) -> tree::RepeatKind {
    match k {
        rs::RepetitionKind::ZeroOrOne => tree::RepeatKind::ZeroOrOne,
        rs::RepetitionKind::ZeroOrMore => tree::RepeatKind::ZeroOrMore,
        rs::RepetitionKind::OneOrMore => tree::RepeatKind::OneOrMore,
        rs::RepetitionKind::Range(RepetitionRange::Exactly(n)) => tree::RepeatKind::Exactly(*n),
        rs::RepetitionKind::Range(RepetitionRange::AtLeast(n)) => tree::RepeatKind::AtLeast(*n),
        rs::RepetitionKind::Range(RepetitionRange::Bounded(a, b)) => tree::RepeatKind::Bounded(*a, *b),
    }
}

/// A group's kind; a named group keeps its index, name and syntax.
#[verifier::external_body]
fn group_kind(k: &rs::GroupKind) -> tree::GroupForm {
    match k {
        rs::GroupKind::CaptureIndex(i) => tree::GroupForm::CaptureIndex(*i),
        rs::GroupKind::CaptureName { starts_with_p, name } => tree::GroupForm::CaptureName {
            index: name.index,
            name: name.name.clone(),
            starts_with_p: *starts_with_p,
        },
        rs::GroupKind::NonCapturing(_) => tree::GroupForm::NonCapturing,
    }
}

/// The contents of a bracketed class.
#[verifier::external_body]
fn class_set(c: &rs::ClassSet) -> tree::BracketSet {
    match c {
        rs::ClassSet::Item(i) => tree::BracketSet::Item(class_item(i)),
        rs::ClassSet::BinaryOp(op) => tree::BracketSet::BinaryOp(
            class_op(&op.kind),
            Box::new(class_set(&op.lhs)),
            Box::new(class_set(&op.rhs)),
        ),
    }
}

/// One item of a bracketed class.
#[verifier::external_body]
fn class_item(i: &rs::ClassSetItem) -> ClassItem {
    match i {
        ClassSetItem::Empty(_) => ClassItem::Empty,
        ClassSetItem::Literal(l) => ClassItem::Literal(l.c),
        ClassSetItem::Range(r) => ClassItem::Range(r.start.c, r.end.c),
        ClassSetItem::Ascii(_) => ClassItem::Ascii,
        ClassSetItem::Unicode(_) => ClassItem::Unicode,
        ClassSetItem::Perl(p) => ClassItem::Perl(perl_kind(&p.kind), p.negated),
        ClassSetItem::Bracketed(b) => ClassItem::Bracketed(b.negated, Box::new(class_set(&b.kind))),
        ClassSetItem::Union(u) => ClassItem::Union(items_of(&u.items)),
    }
}

/// The items of a class union, in order.
fn items_of(v: &Vec<rs::ClassSetItem>) -> (r: Vec<ClassItem>)
    ensures
        r@.len() == v@.len(),
{
    let mut r: Vec<ClassItem> = Vec::new();
    let mut i: usize = 0;
    while i < v.len()
        invariant
            i <= v@.len(),
            r@.len() == i,
        decreases v@.len() - i,
    {
        r.push(class_item(&v[i]));
        i += 1;
    }
    r
}

/// A binary operator between classes.
#[verifier::external_body]
fn class_op(k: &rs::ClassSetBinaryOpKind) -> ClassOpKind {
    match k {
        rs::ClassSetBinaryOpKind::Intersection => ClassOpKind::Intersection,
        rs::ClassSetBinaryOpKind::Difference => ClassOpKind::Difference,
        rs::ClassSetBinaryOpKind::SymmetricDifference => ClassOpKind::SymmetricDifference,
    }
}

} // verus!
