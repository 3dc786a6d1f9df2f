//! The syntax tree of a pattern, as the regex parser reports it: every node
//! with its byte range in the pattern. The highlighter and the explainer
//! read patterns through it.

use vstd::prelude::*;

verus! {

/// A byte range of the pattern.
#[derive(Debug, Clone, Copy)]
pub struct ByteSpan {
    pub start: usize,
    pub end: usize,
}

/// The special characters that have an escape of their own.
#[derive(Debug, Clone, Copy)]
pub enum SpecialKind {
    Bell,
    FormFeed,
    Tab,
    LineFeed,
    CarriageReturn,
    VerticalTab,
    Space,
}

/// How a literal character was written.
#[derive(Debug, Clone, Copy)]
pub enum LiteralForm {
    /// As itself.
    Verbatim,
    /// A metacharacter escaped with `\`.
    Meta,
    /// A character escaped with `\` that needs no escape.
    Superfluous,
    /// In octal.
    Octal,
    /// In hexadecimal.
    Hex,
    /// With an escape of its own.
    Special(SpecialKind),
}

/// What a zero-width assertion asserts.
#[derive(Debug, Clone, Copy)]
pub enum AssertKind {
    StartLine,
    EndLine,
    StartText,
    EndText,
    WordBoundary,
    NotWordBoundary,
    /// Any other assertion (such as a word-start or word-end boundary).
    Other,
}

/// The three Perl classes `\d`, `\s`, `\w`.
#[derive(Debug, Clone, Copy)]
pub enum PerlKind {
    Digit,
    Space,
    Word,
}

/// A repetition operator.
#[derive(Debug, Clone, Copy)]
pub enum RepeatKind {
    ZeroOrOne,
    ZeroOrMore,
    OneOrMore,
    Exactly(u32),
    AtLeast(u32),
    Bounded(u32, u32),
}

/// What kind of group.
#[derive(Debug)]
pub enum GroupForm {
    /// `( ... )` with its capture index.
    CaptureIndex(u32),
    /// `(?P<name> ... )` or `(?<name> ... )` with its capture index.
    CaptureName { index: u32, name: String, starts_with_p: bool },
    /// `(?: ... )`, possibly with flags.
    NonCapturing,
}

/// The binary operators on classes inside brackets.
#[derive(Debug, Clone, Copy)]
pub enum ClassOpKind {
    Intersection,
    Difference,
    SymmetricDifference,
}

/// One item of a bracketed class.
#[derive(Debug)]
pub enum ClassItem {
    Empty,
    Literal(char),
    Range(char, char),
    /// A Perl class, and whether it is negated.
    Perl(PerlKind, bool),
    Unicode,
    /// A nested bracketed class, and whether it is negated.
    Bracketed(bool, Box<BracketSet>),
    Union(Vec<ClassItem>),
    /// An ASCII class such as `[:alpha:]`.
    Ascii,
}

/// The contents of a bracketed class.
#[derive(Debug)]
pub enum BracketSet {
    Item(ClassItem),
    BinaryOp(ClassOpKind, Box<BracketSet>, Box<BracketSet>),
}

/// A node of the syntax tree.
#[derive(Debug)]
pub enum SyntaxNode {
    Empty(ByteSpan),
    Flags(ByteSpan),
    Literal(ByteSpan, LiteralForm, char),
    Dot(ByteSpan),
    Assertion(ByteSpan, AssertKind),
    /// A Unicode class, and whether it is negated.
    ClassUnicode(ByteSpan, bool),
    /// A Perl class, and whether it is negated.
    ClassPerl(ByteSpan, PerlKind, bool),
    /// A bracketed class, whether it is negated, and its contents.
    ClassBracketed(ByteSpan, bool, BracketSet),
    /// A repeated node: its span, the operator's span and kind, whether it
    /// is greedy, and the node repeated.
    Repetition { span: ByteSpan, op: ByteSpan, rep: RepeatKind, greedy: bool, child: Box<SyntaxNode> },
    Group { span: ByteSpan, group: GroupForm, child: Box<SyntaxNode> },
    Alternation(ByteSpan, Vec<SyntaxNode>),
    Concat(ByteSpan, Vec<SyntaxNode>),
}

/// The byte range of a node.
pub open spec fn span_of(n: SyntaxNode) -> ByteSpan {
    match n {
        SyntaxNode::Empty(s) => s,
        SyntaxNode::Flags(s) => s,
        SyntaxNode::Literal(s, _, _) => s,
        SyntaxNode::Dot(s) => s,
        SyntaxNode::Assertion(s, _) => s,
        SyntaxNode::ClassUnicode(s, _) => s,
        SyntaxNode::ClassPerl(s, _, _) => s,
        SyntaxNode::ClassBracketed(s, _, _) => s,
        SyntaxNode::Repetition { span, .. } => span,
        SyntaxNode::Group { span, .. } => span,
        SyntaxNode::Alternation(s, _) => s,
        SyntaxNode::Concat(s, _) => s,
    }
}

impl SyntaxNode {
    /// The byte range of the node.
    pub fn span(&self) -> (s: ByteSpan)
        ensures
            s == span_of(*self),
    {
        match self {
            SyntaxNode::Empty(s) => *s,
            SyntaxNode::Flags(s) => *s,
            SyntaxNode::Literal(s, _, _) => *s,
            SyntaxNode::Dot(s) => *s,
            SyntaxNode::Assertion(s, _) => *s,
            SyntaxNode::ClassUnicode(s, _) => *s,
            SyntaxNode::ClassPerl(s, _, _) => *s,
            SyntaxNode::ClassBracketed(s, _, _) => *s,
            SyntaxNode::Repetition { span, .. } => *span,
            SyntaxNode::Group { span, .. } => *span,
            SyntaxNode::Alternation(s, _) => *s,
            SyntaxNode::Concat(s, _) => *s,
        }
    }
}

} // verus!
