//! The abstract syntax tree produced by the parser, and its canonical
//! re-rendering into tokens with fully explicit parentheses.

use vstd::prelude::*;

use crate::token::Token;

verus! {

/// The kinds of binary (two-operand) operators.
#[derive(Debug, PartialEq, Eq, Structural, Clone, Copy)]
pub enum BinOp {
    Add,
    Sub,
    Mul,
    Div,
    Mod,
}

/// A node of the expression tree. Every variant owns its children
/// exclusively, so a value is always a finite tree whose leaves are
/// `Identifier` or `NumberLiteral` nodes.
#[derive(Debug, PartialEq)]
pub enum AstNode {
    Identifier { name: String },
    NumberLiteral { value: i64 },
    Negate { operand: Box<AstNode> },
    BinaryOp { kind: BinOp, left: Box<AstNode>, right: Box<AstNode> },
    Call { callee: Box<AstNode>, argument: Box<AstNode> },
}

/// The operator token that names a binary operation kind.
pub open spec fn token_of_binop(op: BinOp) -> Token {
    match op {
        BinOp::Add => Token::Plus,
        BinOp::Sub => Token::Minus,
        BinOp::Mul => Token::Times,
        BinOp::Div => Token::Divide,
        BinOp::Mod => Token::Modulo,
    }
}

/// The canonical re-rendering of a tree as a token sequence: every
/// `Negate`, `BinaryOp` and `Call` node is wrapped in its own pair of
/// parentheses, so the grouping is fully explicit.
pub open spec fn render_tokens(t: AstNode) -> Seq<Token>
    decreases t,
{
    match t {
        AstNode::Identifier { name } => seq![Token::Id(name)],
        AstNode::NumberLiteral { value } => seq![Token::NumLit(value)],
        AstNode::Negate { operand } => seq![Token::LParen, Token::Minus] + render_tokens(
            *operand,
        ) + seq![Token::RParen],
        AstNode::BinaryOp { kind, left, right } => seq![Token::LParen] + render_tokens(*left)
            + seq![token_of_binop(kind)] + render_tokens(*right) + seq![Token::RParen],
        AstNode::Call { callee, argument } => seq![Token::LParen] + render_tokens(*callee) + seq![
            Token::LParen,
        ] + render_tokens(*argument) + seq![Token::RParen, Token::RParen],
    }
}

impl AstNode {
    /// An identifier leaf.
    pub fn id(name: String) -> (r: Box<AstNode>)
        ensures
            *r == (AstNode::Identifier { name }),
    {
        Box::new(AstNode::Identifier { name })
    }

    /// A numeric literal leaf.
    pub fn num(value: i64) -> (r: Box<AstNode>)
        ensures
            *r == (AstNode::NumberLiteral { value }),
    {
        Box::new(AstNode::NumberLiteral { value })
    }

    /// A negation node around an operand.
    pub fn neg(operand: Box<AstNode>) -> (r: Box<AstNode>)
        ensures
            *r == (AstNode::Negate { operand }),
    {
        Box::new(AstNode::Negate { operand })
    }

    /// A binary operation node combining two children.
    pub fn bin(left: Box<AstNode>, kind: BinOp, right: Box<AstNode>) -> (r: Box<AstNode>)
        ensures
            *r == (AstNode::BinaryOp { kind, left, right }),
    {
        Box::new(AstNode::BinaryOp { kind, left, right })
    }

    /// A call-application node: one callee, one argument.
    pub fn call(callee: Box<AstNode>, argument: Box<AstNode>) -> (r: Box<AstNode>)
        ensures
            *r == (AstNode::Call { callee, argument }),
    {
        Box::new(AstNode::Call { callee, argument })
    }

    /// The canonical re-rendering of this tree, as executable code: the
    /// token sequence of `render_tokens`, with fully explicit parentheses.
    pub fn to_tokens(&self) -> (v: Vec<Token>)
        ensures
            v@ == render_tokens(*self),
        decreases *self,
    {
        match self {
            AstNode::Identifier { name } => {
                let mut v: Vec<Token> = Vec::new();
                v.push(Token::Id(name.clone()));
                proof {
                    assert(v@ =~= render_tokens(*self));
                }
                v
            },
            AstNode::NumberLiteral { value } => {
                let mut v: Vec<Token> = Vec::new();
                v.push(Token::NumLit(*value));
                proof {
                    assert(v@ =~= render_tokens(*self));
                }
                v
            },
            AstNode::Negate { operand } => {
                let mut v: Vec<Token> = Vec::new();
                v.push(Token::LParen);
                v.push(Token::Minus);
                let mut inner = operand.to_tokens();
                v.append(&mut inner);
                v.push(Token::RParen);
                proof {
                    assert(v@ =~= render_tokens(*self));
                }
                v
            },
            AstNode::BinaryOp { kind, left, right } => {
                let mut v: Vec<Token> = Vec::new();
                v.push(Token::LParen);
                let mut l = left.to_tokens();
                v.append(&mut l);
                v.push(kind.to_token());
                let mut r = right.to_tokens();
                v.append(&mut r);
                v.push(Token::RParen);
                proof {
                    assert(v@ =~= render_tokens(*self));
                }
                v
            },
            AstNode::Call { callee, argument } => {
                let mut v: Vec<Token> = Vec::new();
                v.push(Token::LParen);
                let mut c = callee.to_tokens();
                v.append(&mut c);
                v.push(Token::LParen);
                let mut a = argument.to_tokens();
                v.append(&mut a);
                v.push(Token::RParen);
                v.push(Token::RParen);
                proof {
                    assert(v@ =~= render_tokens(*self));
                }
                v
            },
        }
    }
}

impl BinOp {
    /// The operator token that names this operation kind.
    pub fn to_token(&self) -> (t: Token)
        ensures
            t == token_of_binop(*self),
    {
        match self {
            BinOp::Add => Token::Plus,
            BinOp::Sub => Token::Minus,
            BinOp::Mul => Token::Times,
            BinOp::Div => Token::Divide,
            BinOp::Mod => Token::Modulo,
        }
    }
}

} // verus!
