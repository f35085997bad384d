use bmath::lexer::{tokenize, Span, Token};
use bmath::parser::{grouped, Grouped, Kind, StructuralError};

#[test]
fn tokenize_merges_runs() {
    let tokens = tokenize("ab  (1,x)\t");
    assert_eq!(
        tokens,
        vec![
            Token::Literal(Span { start: 0, end: 2 }),
            Token::Whitespace(Span { start: 2, end: 4 }),
            Token::OpenParenthesis,
            Token::Literal(Span { start: 5, end: 6 }),
            Token::Separator,
            Token::Literal(Span { start: 7, end: 8 }),
            Token::CloseParenthesis,
            Token::Whitespace(Span { start: 9, end: 10 }),
        ]
    );
}

#[test]
fn tokenize_empty_input() {
    assert_eq!(tokenize(""), Vec::<Token>::new());
}

#[test]
fn literal_run_is_one_group() {
    let tokens = tokenize("sin x 12");
    let groups = grouped(&tokens).unwrap();
    assert_eq!(
        groups,
        vec![Grouped { start_index: 0, end_index: tokens.len(), kind: Kind::Literals }]
    );
}

#[test]
fn empty_input_yields_no_groups() {
    let tokens: Vec<Token> = Vec::new();
    assert_eq!(grouped(&tokens).unwrap(), Vec::<Grouped>::new());
}

#[test]
fn sin_call_groups_into_literals_then_parenthesis() {
    let tokens = tokenize("sin(1.5)");
    let groups = grouped(&tokens).unwrap();
    assert_eq!(
        groups,
        vec![
            Grouped { start_index: 0, end_index: 1, kind: Kind::Literals },
            Grouped { start_index: 1, end_index: 4, kind: Kind::Parenthesis },
        ]
    );
}

#[test]
fn separator_promotes_group_to_tuple() {
    let tokens = tokenize("f(1,2)");
    let groups = grouped(&tokens).unwrap();
    assert_eq!(
        groups,
        vec![
            Grouped { start_index: 0, end_index: 1, kind: Kind::Literals },
            Grouped { start_index: 1, end_index: 6, kind: Kind::Tuple },
        ]
    );
}

#[test]
fn single_item_parenthesis_is_not_a_tuple() {
    let tokens = tokenize("(a)");
    let groups = grouped(&tokens).unwrap();
    assert_eq!(
        groups,
        vec![Grouped { start_index: 0, end_index: 3, kind: Kind::Parenthesis }]
    );
}

#[test]
fn nested_separator_does_not_promote_outer_only_once() {
    // "(a, (b, c))": the outer group is a tuple because of the separator at
    // depth one; the nested separator at depth two neither promotes twice
    // nor produces a distinct inner group.
    let tokens = tokenize("(a, (b, c))");
    let groups = grouped(&tokens).unwrap();
    assert_eq!(
        groups,
        vec![Grouped { start_index: 0, end_index: tokens.len(), kind: Kind::Tuple }]
    );
}

#[test]
fn nested_separator_alone_does_not_promote_outer() {
    // "((b, c))": the only separator sits at depth two, so the outer group
    // stays a plain parenthesis group.
    let tokens = tokenize("((b, c))");
    let groups = grouped(&tokens).unwrap();
    assert_eq!(
        groups,
        vec![Grouped { start_index: 0, end_index: tokens.len(), kind: Kind::Parenthesis }]
    );
}

#[test]
fn unmatched_closer_fails() {
    let tokens = tokenize("a)b(");
    assert_eq!(grouped(&tokens), Err(StructuralError::UnbalancedParenthesis));
}

#[test]
fn unmatched_openers_fail() {
    let tokens = tokenize("((");
    assert_eq!(grouped(&tokens), Err(StructuralError::UnbalancedParenthesis));
}

#[test]
fn groups_after_parenthesis_start_fresh_literal_run() {
    let tokens = tokenize("(a)b(c,d)e");
    let groups = grouped(&tokens).unwrap();
    assert_eq!(
        groups,
        vec![
            Grouped { start_index: 0, end_index: 3, kind: Kind::Parenthesis },
            Grouped { start_index: 3, end_index: 4, kind: Kind::Literals },
            Grouped { start_index: 4, end_index: 9, kind: Kind::Tuple },
            Grouped { start_index: 9, end_index: 10, kind: Kind::Literals },
        ]
    );
}

#[test]
fn coverage_spans_tile_the_input() {
    for text in ["", "a", "a(b)(c d)ef", "x,,y", "( ( a , b ) , c )", ",lead", "trail,"] {
        let tokens = tokenize(text);
        let groups = grouped(&tokens).unwrap();
        let mut expected_start = 0;
        for g in &groups {
            assert_eq!(g.start_index, expected_start);
            assert!(g.start_index < g.end_index);
            expected_start = g.end_index;
        }
        assert_eq!(expected_start, tokens.len());
    }
}

#[test]
fn spaces_and_tabs_merge_into_one_whitespace_token() {
    let tokens = tokenize("a \t b");
    assert_eq!(
        tokens,
        vec![
            Token::Literal(Span { start: 0, end: 1 }),
            Token::Whitespace(Span { start: 1, end: 4 }),
            Token::Literal(Span { start: 4, end: 5 }),
        ]
    );
}

#[test]
fn empty_parenthesis_region_is_one_group() {
    let tokens = tokenize("( )");
    let groups = grouped(&tokens).unwrap();
    assert_eq!(
        groups,
        vec![Grouped { start_index: 0, end_index: 3, kind: Kind::Parenthesis }]
    );
}
