use expr_parse::lexer::{lex, LexError, Token, TokenKind};

#[test]
fn empty_source_gives_only_the_end_marker() {
    let toks = lex("").unwrap();
    assert_eq!(toks.len(), 1);
    assert_eq!(toks[0].loc, 0);
    assert_eq!(toks[0].kind, TokenKind::Eof);
}

#[test]
fn parens_idents_and_numbers() {
    let toks = lex("(foo 42)").unwrap();
    let expected = vec![
        Token::new(0, TokenKind::LParen),
        Token::new(1, TokenKind::Id(String::from("foo"))),
        Token::new(5, TokenKind::IntLit(42)),
        Token::new(7, TokenKind::RParen),
        Token::new(8, TokenKind::Eof),
    ];
    assert_eq!(toks, expected);
}

#[test]
fn whitespace_is_skipped() {
    let toks = lex(" \t\n x \n").unwrap();
    let expected = vec![
        Token::new(4, TokenKind::Id(String::from("x"))),
        Token::new(7, TokenKind::Eof),
    ];
    assert_eq!(toks, expected);
}

#[test]
fn identifiers_may_hold_underscores_and_digits() {
    let toks = lex("_ab1 c_2").unwrap();
    let expected = vec![
        Token::new(0, TokenKind::Id(String::from("_ab1"))),
        Token::new(5, TokenKind::Id(String::from("c_2"))),
        Token::new(8, TokenKind::Eof),
    ];
    assert_eq!(toks, expected);
}

#[test]
fn invalid_character_is_reported() {
    assert_eq!(lex("+").unwrap_err(), LexError::InvalidChar('+'));
    assert_eq!(lex("(a # b)").unwrap_err(), LexError::InvalidChar('#'));
}

#[test]
fn letter_directly_after_number_is_invalid() {
    assert_eq!(lex("123abc").unwrap_err(), LexError::InvalidChar('a'));
}

#[test]
fn underscore_after_number_starts_a_new_identifier() {
    // Only a letter directly after digits is rejected; an underscore
    // begins a fresh identifier token.
    let toks = lex("123_x").unwrap();
    let expected = vec![
        Token::new(0, TokenKind::IntLit(123)),
        Token::new(3, TokenKind::Id(String::from("_x"))),
        Token::new(5, TokenKind::Eof),
    ];
    assert_eq!(toks, expected);
}

#[test]
fn largest_integer_fits() {
    let toks = lex("9223372036854775807").unwrap();
    assert_eq!(toks[0].kind, TokenKind::IntLit(i64::MAX));
}

#[test]
fn integer_out_of_range_is_reported() {
    assert_eq!(
        lex("9223372036854775808").unwrap_err(),
        LexError::IntOutOfRange
    );
    assert_eq!(
        lex("99999999999999999999999999").unwrap_err(),
        LexError::IntOutOfRange
    );
}

#[test]
fn leading_zeros_are_read_in_base_ten() {
    let toks = lex("007").unwrap();
    assert_eq!(toks[0].kind, TokenKind::IntLit(7));
}

#[test]
fn unicode_identifiers_are_alphabetic() {
    let toks = lex("Mörkö").unwrap();
    let expected = vec![
        Token::new(0, TokenKind::Id(String::from("Mörkö"))),
        Token::new(5, TokenKind::Eof),
    ];
    assert_eq!(toks, expected);
}
