use rgx::highlight::{
    fill_gaps, group_bg_color, group_color_by_index, group_match_color, style_for_token, syntax_color,
    tokenize, tokenize_fallback, tokenize_with, ColorName, HighlightToken, TokenKind,
};
use rgx::syntax::{ByteSpan, GroupForm, LiteralForm, RepeatKind, SyntaxNode};

fn sp(start: usize, end: usize) -> ByteSpan {
    ByteSpan { start, end }
}

fn lit(at: usize, c: char) -> SyntaxNode {
    SyntaxNode::Literal(sp(at, at + 1), LiteralForm::Verbatim, c)
}

fn group(start: usize, end: usize, idx: u32, child: SyntaxNode) -> SyntaxNode {
    SyntaxNode::Group { span: sp(start, end), group: GroupForm::CaptureIndex(idx), child: Box::new(child) }
}

fn triple(t: &HighlightToken) -> (usize, usize, TokenKind, Option<u32>) {
    (t.start, t.end, t.kind, t.capture_group)
}

/// The tree the parser gives for `(foo)(bar)`.
fn foo_bar() -> SyntaxNode {
    SyntaxNode::Concat(
        sp(0, 10),
        vec![
            group(0, 5, 1, SyntaxNode::Concat(sp(1, 4), vec![lit(1, 'f'), lit(2, 'o'), lit(3, 'o')])),
            group(5, 10, 2, SyntaxNode::Concat(sp(6, 9), vec![lit(6, 'b'), lit(7, 'a'), lit(8, 'r')])),
        ],
    )
}

#[test]
fn adjacent_groups_from_a_built_tree() {
    let tokens = tokenize_with("(foo)(bar)", Some(&foo_bar()));
    let g1: Vec<_> = tokens.iter().filter(|t| t.kind == TokenKind::Literal && t.capture_group == Some(1)).collect();
    let g2: Vec<_> = tokens.iter().filter(|t| t.kind == TokenKind::Literal && t.capture_group == Some(2)).collect();
    assert_eq!(g1.len(), 3);
    assert_eq!(g2.len(), 3);
    let s1 = style_for_token(g1[0]);
    let s2 = style_for_token(g2[0]);
    assert_ne!(s1.fg, s2.fg);
    assert_ne!(s1.bg, s2.bg);
    assert_eq!(triple(&tokens[0]), (0, 1, TokenKind::GroupParen(1), Some(1)));
    assert_eq!(triple(&tokens[4]), (4, 5, TokenKind::GroupParen(1), Some(1)));
    assert_eq!(tokens.len(), 10);
}

#[test]
fn nested_groups_from_a_built_tree() {
    let tree = group(0, 5, 1, group(1, 4, 2, lit(2, 'a')));
    let tokens = tokenize_with("((a))", Some(&tree));
    let a = tokens.iter().find(|t| t.kind == TokenKind::Literal).unwrap();
    assert_eq!(a.capture_group, Some(2));
    let s = style_for_token(a);
    assert_eq!(s.fg, group_color_by_index(2));
    assert_eq!(s.bg, Some(group_bg_color(2)));
    assert!(matches!(tokens[0].kind, TokenKind::GroupParen(1)));
    assert_eq!(style_for_token(&tokens[0]).fg, group_color_by_index(1));
    assert!(style_for_token(&tokens[0]).bold);
}

#[test]
fn class_in_group_from_a_built_tree() {
    let tree = group(
        0,
        5,
        1,
        SyntaxNode::Repetition {
            span: sp(1, 4),
            op: sp(3, 4),
            rep: RepeatKind::OneOrMore,
            greedy: true,
            child: Box::new(SyntaxNode::ClassPerl(sp(1, 3), rgx::syntax::PerlKind::Digit, false)),
        },
    );
    let tokens = tokenize_with(r"(\d+)", Some(&tree));
    let class = tokens.iter().find(|t| t.kind == TokenKind::CharClass).unwrap();
    assert_eq!(class.capture_group, Some(1));
    let s = style_for_token(class);
    assert_eq!(s.fg, syntax_color(&TokenKind::CharClass));
    assert_eq!(s.bg, Some(group_bg_color(1)));
    assert_eq!(triple(&tokens[2]), (3, 4, TokenKind::Quantifier, Some(1)));
}

#[test]
fn literal_from_a_built_tree() {
    let tree = SyntaxNode::Concat(sp(0, 3), vec![lit(0, 'a'), lit(1, 'b'), lit(2, 'c')]);
    let tokens = tokenize_with("abc", Some(&tree));
    assert_eq!(tokens[0].capture_group, None);
    let s = style_for_token(&tokens[0]);
    assert_eq!(s.fg, ColorName::White);
    assert_eq!(s.bg, None);
}

#[test]
fn lazy_repetition_and_alternation_tokens() {
    let tree = SyntaxNode::Alternation(
        sp(0, 5),
        vec![
            SyntaxNode::Repetition {
                span: sp(0, 3),
                op: sp(1, 2),
                rep: RepeatKind::ZeroOrMore,
                greedy: false,
                child: Box::new(lit(0, 'a')),
            },
            SyntaxNode::Dot(sp(4, 5)),
        ],
    );
    let tokens = tokenize_with("a*?|.", Some(&tree));
    let t: Vec<_> = tokens.iter().map(triple).collect();
    assert_eq!(
        t,
        vec![
            (0, 1, TokenKind::Literal, None),
            (1, 2, TokenKind::Quantifier, None),
            (2, 3, TokenKind::Quantifier, None),
            (3, 4, TokenKind::Alternation, None),
            (4, 5, TokenKind::Dot, None),
        ]
    );
}

#[test]
fn gaps_become_literal_tokens() {
    let t = HighlightToken { start: 2, end: 3, kind: TokenKind::Dot, capture_group: None };
    let out = fill_gaps("abcdef", vec![t]);
    let v: Vec<_> = out.iter().map(triple).collect();
    assert_eq!(
        v,
        vec![(0, 2, TokenKind::Literal, None), (2, 3, TokenKind::Dot, None), (3, 6, TokenKind::Literal, None)]
    );
    let overlapping = HighlightToken { start: 1, end: 2, kind: TokenKind::Dot, capture_group: None };
    let out = fill_gaps("abcd", vec![HighlightToken { start: 0, end: 3, kind: TokenKind::Flag, capture_group: None }, overlapping]);
    assert_eq!(out.iter().map(triple).collect::<Vec<_>>(), vec![(0, 3, TokenKind::Flag, None), (3, 4, TokenKind::Literal, None)]);
}

#[test]
fn fallback_from_no_tree() {
    let tokens = tokenize_with("(unbalanced", None);
    assert!(!tokens.is_empty());
    assert_eq!(triple(&tokens[0]), (0, 1, TokenKind::GroupParen(1), Some(1)));
    assert_eq!(triple(&tokens[1]), (1, 2, TokenKind::Literal, Some(1)));
}

#[test]
fn fallback_scan_tokens() {
    let t: Vec<_> = tokenize_fallback(r"\d+(?:x)").iter().map(triple).collect();
    assert_eq!(
        t,
        vec![
            (0, 2, TokenKind::CharClass, None),
            (2, 3, TokenKind::Quantifier, None),
            (3, 6, TokenKind::NonCapturingParen, None),
            (6, 7, TokenKind::Literal, None),
            (7, 8, TokenKind::NonCapturingParen, None),
        ]
    );
    let t: Vec<_> = tokenize_fallback("[^]b]c{2}?a{").iter().map(triple).collect();
    assert_eq!(
        t,
        vec![
            (0, 5, TokenKind::CharClass, None),
            (5, 6, TokenKind::Literal, None),
            (6, 10, TokenKind::Quantifier, None),
            (10, 11, TokenKind::Literal, None),
            (11, 12, TokenKind::Literal, None),
        ]
    );
    let t: Vec<_> = tokenize_fallback(r"(?<=a)\b|^").iter().map(triple).collect();
    assert_eq!(t[0], (0, 4, TokenKind::Lookaround, None));
    assert_eq!(t[3], (6, 8, TokenKind::Anchor, None));
    assert_eq!(t[4], (8, 9, TokenKind::Alternation, None));
    assert_eq!(t[5], (9, 10, TokenKind::Anchor, None));
}

#[test]
fn group_colors_cycle() {
    assert_eq!(group_color_by_index(1), ColorName::Cyan);
    assert_eq!(group_color_by_index(9), ColorName::Cyan);
    assert_eq!(group_color_by_index(0), ColorName::LightYellow);
    assert_eq!(group_bg_color(2), ColorName::Rgb(40, 35, 0));
    assert_eq!(group_match_color(0), ColorName::Cyan);
    assert_eq!(group_match_color(9), ColorName::Yellow);
}

#[test]
fn three_groups_from_a_built_tree() {
    let tree = SyntaxNode::Concat(
        sp(0, 9),
        vec![group(0, 3, 1, lit(1, 'a')), group(3, 6, 2, lit(4, 'b')), group(6, 9, 3, lit(7, 'c'))],
    );
    let tokens = tokenize_with("(a)(b)(c)", Some(&tree));
    let indices: Vec<u32> = tokens
        .iter()
        .filter_map(|t| if let TokenKind::GroupParen(idx) = t.kind { Some(idx) } else { None })
        .collect();
    assert!(indices.contains(&1));
    assert!(indices.contains(&2));
    assert!(indices.contains(&3));
}

#[test]
fn outer_parens_from_a_built_tree() {
    let tree = group(0, 5, 1, group(1, 4, 2, lit(2, 'a')));
    let tokens = tokenize_with("((a))", Some(&tree));
    let outer_open = &tokens[0];
    assert!(matches!(outer_open.kind, TokenKind::GroupParen(1)));
    let s = style_for_token(outer_open);
    assert_eq!(s.fg, group_color_by_index(1));
}

#[test]
fn non_capturing_from_a_built_tree() {
    let tree = SyntaxNode::Concat(
        sp(0, 12),
        vec![
            SyntaxNode::Group {
                span: sp(0, 7),
                group: GroupForm::NonCapturing,
                child: Box::new(SyntaxNode::Concat(sp(3, 6), vec![lit(3, 'f'), lit(4, 'o'), lit(5, 'o')])),
            },
            group(7, 12, 1, SyntaxNode::Concat(sp(8, 11), vec![lit(8, 'b'), lit(9, 'a'), lit(10, 'r')])),
        ],
    );
    let tokens = tokenize_with("(?:foo)(bar)", Some(&tree));
    let nc: Vec<_> = tokens.iter().filter(|t| matches!(t.kind, TokenKind::NonCapturingParen)).collect();
    assert!(!nc.is_empty());
    let cap: Vec<u32> = tokens
        .iter()
        .filter_map(|t| if let TokenKind::GroupParen(idx) = t.kind { Some(idx) } else { None })
        .collect();
    assert!(cap.contains(&1));
    assert_eq!(triple(&tokens[0]), (0, 3, TokenKind::NonCapturingParen, None));
    assert_eq!(triple(&tokens[4]), (6, 7, TokenKind::NonCapturingParen, None));
}

#[test]
fn test_adjacent_groups_different_styles() {
    let tokens = tokenize("(foo)(bar)");
    let group1_lit: Vec<_> =
        tokens.iter().filter(|t| t.kind == TokenKind::Literal && t.capture_group == Some(1)).collect();
    let group2_lit: Vec<_> =
        tokens.iter().filter(|t| t.kind == TokenKind::Literal && t.capture_group == Some(2)).collect();
    assert!(!group1_lit.is_empty());
    assert!(!group2_lit.is_empty());
    let s1 = style_for_token(group1_lit[0]);
    let s2 = style_for_token(group2_lit[0]);
    assert_ne!(s1.fg, s2.fg);
    assert_ne!(s1.bg, s2.bg);
}

#[test]
fn test_capture_group_stable_index() {
    let tokens = tokenize("(a)(b)(c)");
    let indices: Vec<u32> = tokens
        .iter()
        .filter_map(|t| if let TokenKind::GroupParen(idx) = t.kind { Some(idx) } else { None })
        .collect();
    assert!(indices.contains(&1));
    assert!(indices.contains(&2));
    assert!(indices.contains(&3));
}

#[test]
fn test_nested_inner_overwrites_outer() {
    let tokens = tokenize("((a))");
    let a_token = tokens.iter().find(|t| t.kind == TokenKind::Literal).unwrap();
    assert_eq!(a_token.capture_group, Some(2));
    let s = style_for_token(a_token);
    assert_eq!(s.fg, group_color_by_index(2));
    assert_eq!(s.bg, Some(group_bg_color(2)));
}

#[test]
fn test_nested_outer_parens_still_visible() {
    let tokens = tokenize("((a))");
    let outer_open = &tokens[0];
    assert!(matches!(outer_open.kind, TokenKind::GroupParen(1)));
    let s = style_for_token(outer_open);
    assert_eq!(s.fg, group_color_by_index(1));
}

#[test]
fn test_non_capturing_group_no_index() {
    let tokens = tokenize("(?:foo)(bar)");
    let nc: Vec<_> = tokens.iter().filter(|t| matches!(t.kind, TokenKind::NonCapturingParen)).collect();
    assert!(!nc.is_empty());
    let cap: Vec<u32> = tokens
        .iter()
        .filter_map(|t| if let TokenKind::GroupParen(idx) = t.kind { Some(idx) } else { None })
        .collect();
    assert!(cap.contains(&1));
}

#[test]
fn test_syntax_token_keeps_fg_inside_group() {
    let tokens = tokenize(r"(\d+)");
    let charclass = tokens.iter().find(|t| t.kind == TokenKind::CharClass).unwrap();
    assert_eq!(charclass.capture_group, Some(1));
    let s = style_for_token(charclass);
    assert_eq!(s.fg, syntax_color(&TokenKind::CharClass));
    assert_eq!(s.bg, Some(group_bg_color(1)));
}

#[test]
fn test_literal_outside_group_no_bg() {
    let tokens = tokenize("abc");
    let lit = &tokens[0];
    assert_eq!(lit.capture_group, None);
    let s = style_for_token(lit);
    assert_eq!(s.fg, ColorName::White);
    assert_eq!(s.bg, None);
}

#[test]
fn test_fallback_on_invalid_regex() {
    let tokens = tokenize("(unbalanced");
    assert!(!tokens.is_empty());
}

#[test]
fn parsed_tokens_match_the_built_tree() {
    let parsed: Vec<_> = tokenize("(foo)(bar)").iter().map(triple).collect();
    let built: Vec<_> = tokenize_with("(foo)(bar)", Some(&foo_bar())).iter().map(triple).collect();
    assert_eq!(parsed, built);
    let t: Vec<_> = tokenize(r"(?i)a{2,3}?\b").iter().map(triple).collect();
    assert_eq!(
        t,
        vec![
            (0, 4, TokenKind::Flag, None),
            (4, 5, TokenKind::Literal, None),
            (5, 11, TokenKind::Quantifier, None),
            (11, 12, TokenKind::Quantifier, None),
            (12, 13, TokenKind::Literal, None),
        ]
    );
}
