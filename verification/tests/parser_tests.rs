use expr_parse::ast::{AstNode, BinOp};
use expr_parse::parser::{parse_exp, ParseError};
use expr_parse::token::Token;

#[test]
fn add_then_mul_binds_right() {
    let tokens = vec![
        Token::NumLit(1),
        Token::Plus,
        Token::NumLit(2),
        Token::Times,
        Token::NumLit(3),
        Token::Eof,
    ];
    let expected = AstNode::bin(
        AstNode::num(1),
        BinOp::Add,
        AstNode::bin(AstNode::num(2), BinOp::Mul, AstNode::num(3)),
    );
    assert_eq!(parse_exp(&tokens).unwrap(), expected);
}

#[test]
fn mul_then_add_binds_left() {
    let tokens = vec![
        Token::NumLit(1),
        Token::Times,
        Token::NumLit(2),
        Token::Plus,
        Token::NumLit(3),
        Token::Eof,
    ];
    let expected = AstNode::bin(
        AstNode::bin(AstNode::num(1), BinOp::Mul, AstNode::num(2)),
        BinOp::Add,
        AstNode::num(3),
    );
    assert_eq!(parse_exp(&tokens).unwrap(), expected);
}

#[test]
fn unary_minus_binds_tighter_than_binary() {
    let tokens = vec![
        Token::Minus,
        Token::NumLit(2),
        Token::Plus,
        Token::NumLit(3),
        Token::Eof,
    ];
    let expected = AstNode::bin(
        AstNode::neg(AstNode::num(2)),
        BinOp::Add,
        AstNode::num(3),
    );
    assert_eq!(parse_exp(&tokens).unwrap(), expected);
}

#[test]
fn chained_calls_are_left_associative() {
    let tokens = vec![
        Token::Id(String::from("f")),
        Token::LParen,
        Token::NumLit(1),
        Token::RParen,
        Token::LParen,
        Token::NumLit(2),
        Token::RParen,
        Token::Eof,
    ];
    let expected = AstNode::call(
        AstNode::call(AstNode::id(String::from("f")), AstNode::num(1)),
        AstNode::num(2),
    );
    assert_eq!(parse_exp(&tokens).unwrap(), expected);
}

#[test]
fn missing_closing_parenthesis_is_reported() {
    let tokens = vec![Token::LParen, Token::NumLit(1), Token::Plus, Token::NumLit(2)];
    let err = parse_exp(&tokens).unwrap_err();
    assert!(matches!(err, ParseError::MissingClosingParenthesis { .. }));
    assert_eq!(err, ParseError::MissingClosingParenthesis { at: 4 });
}

#[test]
fn trailing_input_is_reported() {
    let tokens = vec![Token::NumLit(1), Token::NumLit(2), Token::Eof];
    let err = parse_exp(&tokens).unwrap_err();
    assert!(matches!(err, ParseError::TrailingInput { .. }));
    assert_eq!(err, ParseError::TrailingInput { at: 1 });
}

#[test]
fn unexpected_token_is_reported() {
    let tokens = vec![Token::Plus, Token::Eof];
    assert_eq!(
        parse_exp(&tokens).unwrap_err(),
        ParseError::UnexpectedToken { at: 0 }
    );
}

#[test]
fn empty_input_is_rejected() {
    let tokens: Vec<Token> = vec![];
    assert_eq!(
        parse_exp(&tokens).unwrap_err(),
        ParseError::UnexpectedToken { at: 0 }
    );
}

#[test]
fn implied_end_marker_is_accepted() {
    // The end-of-input token may be physically absent: running past the
    // sequence reads as end-of-input.
    let tokens = vec![Token::NumLit(7)];
    assert_eq!(parse_exp(&tokens).unwrap(), AstNode::num(7));
}

#[test]
fn equal_precedence_groups_left_to_right() {
    let tokens = vec![
        Token::NumLit(1),
        Token::Minus,
        Token::NumLit(2),
        Token::Minus,
        Token::NumLit(3),
        Token::Eof,
    ];
    let expected = AstNode::bin(
        AstNode::bin(AstNode::num(1), BinOp::Sub, AstNode::num(2)),
        BinOp::Sub,
        AstNode::num(3),
    );
    assert_eq!(parse_exp(&tokens).unwrap(), expected);
}

#[test]
fn mixed_precedence_chain() {
    // 1 + 2 * 3 - 4 % 5  parses as  (1 + (2 * 3)) - (4 % 5)
    let tokens = vec![
        Token::NumLit(1),
        Token::Plus,
        Token::NumLit(2),
        Token::Times,
        Token::NumLit(3),
        Token::Minus,
        Token::NumLit(4),
        Token::Modulo,
        Token::NumLit(5),
        Token::Eof,
    ];
    let expected = AstNode::bin(
        AstNode::bin(
            AstNode::num(1),
            BinOp::Add,
            AstNode::bin(AstNode::num(2), BinOp::Mul, AstNode::num(3)),
        ),
        BinOp::Sub,
        AstNode::bin(AstNode::num(4), BinOp::Mod, AstNode::num(5)),
    );
    assert_eq!(parse_exp(&tokens).unwrap(), expected);
}

#[test]
fn parentheses_override_precedence_transparently() {
    // (1 + 2) * 3 — the parentheses leave no node of their own.
    let tokens = vec![
        Token::LParen,
        Token::NumLit(1),
        Token::Plus,
        Token::NumLit(2),
        Token::RParen,
        Token::Times,
        Token::NumLit(3),
        Token::Eof,
    ];
    let expected = AstNode::bin(
        AstNode::bin(AstNode::num(1), BinOp::Add, AstNode::num(2)),
        BinOp::Mul,
        AstNode::num(3),
    );
    assert_eq!(parse_exp(&tokens).unwrap(), expected);
}

#[test]
fn double_negation_is_right_associative() {
    let tokens = vec![Token::Minus, Token::Minus, Token::NumLit(2), Token::Eof];
    let expected = AstNode::neg(AstNode::neg(AstNode::num(2)));
    assert_eq!(parse_exp(&tokens).unwrap(), expected);
}

#[test]
fn minus_after_operator_is_unary() {
    // 2 - -3 parses as 2 - (-3).
    let tokens = vec![
        Token::NumLit(2),
        Token::Minus,
        Token::Minus,
        Token::NumLit(3),
        Token::Eof,
    ];
    let expected = AstNode::bin(
        AstNode::num(2),
        BinOp::Sub,
        AstNode::neg(AstNode::num(3)),
    );
    assert_eq!(parse_exp(&tokens).unwrap(), expected);
}

#[test]
fn division_and_identifiers() {
    let tokens = vec![
        Token::Id(String::from("x")),
        Token::Divide,
        Token::Id(String::from("y")),
        Token::Eof,
    ];
    let expected = AstNode::bin(
        AstNode::id(String::from("x")),
        BinOp::Div,
        AstNode::id(String::from("y")),
    );
    assert_eq!(parse_exp(&tokens).unwrap(), expected);
}

#[test]
fn reparse_of_canonical_rendering_is_identical() {
    // ((1 + (- 2)) * f(3)) rendered with fully explicit parentheses and
    // parsed again comes back structurally identical.
    let tree = AstNode::bin(
        AstNode::bin(AstNode::num(1), BinOp::Add, AstNode::neg(AstNode::num(2))),
        BinOp::Mul,
        AstNode::call(AstNode::id(String::from("f")), AstNode::num(3)),
    );
    let rendered = tree.to_tokens();
    assert_eq!(parse_exp(&rendered).unwrap(), tree);
}

#[test]
fn rendering_is_fully_parenthesized() {
    // -(x) renders as ( - x ).
    let tree = AstNode::neg(AstNode::id(String::from("x")));
    let rendered = tree.to_tokens();
    assert_eq!(
        rendered,
        vec![
            Token::LParen,
            Token::Minus,
            Token::Id(String::from("x")),
            Token::RParen,
        ]
    );
}

#[test]
fn nested_call_argument() {
    // f(g(1)) — the argument is itself a call.
    let tokens = vec![
        Token::Id(String::from("f")),
        Token::LParen,
        Token::Id(String::from("g")),
        Token::LParen,
        Token::NumLit(1),
        Token::RParen,
        Token::RParen,
        Token::Eof,
    ];
    let expected = AstNode::call(
        AstNode::id(String::from("f")),
        AstNode::call(AstNode::id(String::from("g")), AstNode::num(1)),
    );
    assert_eq!(parse_exp(&tokens).unwrap(), expected);
}

#[test]
fn parenthesized_callee() {
    // (f)(1) — any expression can be a callee.
    let tokens = vec![
        Token::LParen,
        Token::Id(String::from("f")),
        Token::RParen,
        Token::LParen,
        Token::NumLit(1),
        Token::RParen,
        Token::Eof,
    ];
    let expected = AstNode::call(AstNode::id(String::from("f")), AstNode::num(1));
    assert_eq!(parse_exp(&tokens).unwrap(), expected);
}

#[test]
fn call_takes_part_in_arithmetic() {
    // f(1) + 2
    let tokens = vec![
        Token::Id(String::from("f")),
        Token::LParen,
        Token::NumLit(1),
        Token::RParen,
        Token::Plus,
        Token::NumLit(2),
        Token::Eof,
    ];
    let expected = AstNode::bin(
        AstNode::call(AstNode::id(String::from("f")), AstNode::num(1)),
        BinOp::Add,
        AstNode::num(2),
    );
    assert_eq!(parse_exp(&tokens).unwrap(), expected);
}

#[test]
fn unclosed_call_is_reported() {
    let tokens = vec![Token::Id(String::from("f")), Token::LParen, Token::NumLit(1)];
    assert_eq!(
        parse_exp(&tokens).unwrap_err(),
        ParseError::MissingClosingParenthesis { at: 3 }
    );
}

#[test]
fn negated_call() {
    // -f(1) — negation of the whole postfix chain.
    let tokens = vec![
        Token::Minus,
        Token::Id(String::from("f")),
        Token::LParen,
        Token::NumLit(1),
        Token::RParen,
        Token::Eof,
    ];
    let expected = AstNode::neg(AstNode::call(
        AstNode::id(String::from("f")),
        AstNode::num(1),
    ));
    assert_eq!(parse_exp(&tokens).unwrap(), expected);
}
