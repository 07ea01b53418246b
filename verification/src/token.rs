//! Tokens of the expression language and their operator precedences.

use vstd::prelude::*;

use crate::ast::BinOp;

verus! {

/// One token of the expression language, as handed over by a lexer.
/// `Eof` marks the end of the input; the parser also treats a cursor that
/// has run past the sequence as standing on `Eof`.
#[derive(Debug, PartialEq)]
pub enum Token {
    Eof,
    LParen,
    RParen,
    Plus,
    Minus,
    Times,
    Divide,
    Modulo,
    Id(String),
    NumLit(i64),
}

impl Clone for Token {
    fn clone(&self) -> (r: Self)
        ensures
            r == *self,
    {
        match self {
            Token::Eof => Token::Eof,
            Token::LParen => Token::LParen,
            Token::RParen => Token::RParen,
            Token::Plus => Token::Plus,
            Token::Minus => Token::Minus,
            Token::Times => Token::Times,
            Token::Divide => Token::Divide,
            Token::Modulo => Token::Modulo,
            Token::Id(name) => Token::Id(name.clone()),
            Token::NumLit(value) => Token::NumLit(*value),
        }
    }
}

/// The precedence attached to a token. `None` is below every real operator
/// precedence and belongs to every non-operator token; it is what ends the
/// parser's climbing loops. The minimum real precedence is `AddLevel`.
#[derive(Debug, PartialEq, Eq, Structural, Clone, Copy)]
pub enum Precedence {
    NoneLevel,
    AddLevel,
    MulLevel,
}

/// The rank of a precedence in the total order `None < AddLevel < MulLevel`.
pub open spec fn prec_val(p: Precedence) -> int {
    match p {
        Precedence::NoneLevel => 0,
        Precedence::AddLevel => 1,
        Precedence::MulLevel => 2,
    }
}

/// The precedence of a token: `AddLevel` for `+` and binary `-`, `MulLevel`
/// for `*`, `/` and `%`, and `None` for everything else.
pub open spec fn token_prec(t: Token) -> Precedence {
    match t {
        Token::Plus | Token::Minus => Precedence::AddLevel,
        Token::Times | Token::Divide | Token::Modulo => Precedence::MulLevel,
        _ => Precedence::NoneLevel,
    }
}

/// Whether a token is one of the five binary operator tokens.
pub open spec fn is_operator(t: Token) -> bool {
    token_prec(t) != Precedence::NoneLevel
}

/// The binary operation kind named by an operator token. On a non-operator
/// token the value is immaterial: every caller first checks `is_operator`.
pub open spec fn binop_of_token(t: Token) -> BinOp {
    match t {
        Token::Plus => BinOp::Add,
        Token::Minus => BinOp::Sub,
        Token::Times => BinOp::Mul,
        Token::Divide => BinOp::Div,
        Token::Modulo => BinOp::Mod,
        _ => BinOp::Add,
    }
}

impl Precedence {
    /// The rank of this precedence as an executable value.
    fn level(&self) -> (n: u8)
        ensures
            n == prec_val(*self),
    {
        match self {
            Precedence::NoneLevel => 0,
            Precedence::AddLevel => 1,
            Precedence::MulLevel => 2,
        }
    }

    /// `self >= other` in the order `None < AddLevel < MulLevel`.
    pub fn is_at_least(&self, other: Precedence) -> (r: bool)
        ensures
            r == (prec_val(*self) >= prec_val(other)),
    {
        self.level() >= other.level()
    }

    /// `self > other` in the order `None < AddLevel < MulLevel`.
    pub fn is_higher_than(&self, other: Precedence) -> (r: bool)
        ensures
            r == (prec_val(*self) > prec_val(other)),
    {
        self.level() > other.level()
    }
}

impl Token {
    /// The precedence of this token, `Precedence::NoneLevel` if it is not an
    /// operator.
    pub fn precedence(&self) -> (p: Precedence)
        ensures
            p == token_prec(*self),
    {
        match self {
            Token::Plus | Token::Minus => Precedence::AddLevel,
            Token::Times | Token::Divide | Token::Modulo => Precedence::MulLevel,
            _ => Precedence::NoneLevel,
        }
    }

    /// The binary operation kind this operator token stands for. The grammar
    /// only asks for it right after a precedence check has shown the token to
    /// be an operator, so non-operator tokens are ruled out up front.
    pub fn to_binop(&self) -> (op: BinOp)
        requires
            is_operator(*self),
        ensures
            op == binop_of_token(*self),
    {
        match self {
            Token::Plus => BinOp::Add,
            Token::Minus => BinOp::Sub,
            Token::Times => BinOp::Mul,
            Token::Divide => BinOp::Div,
            _ => BinOp::Mod,
        }
    }
}

} // verus!
