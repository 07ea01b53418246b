//! The precedence-climbing expression parser.
//!
//! The grammar, over tokens:
//!
//! ```text
//! Expression := Term (BinaryOperator Term)*
//! Term       := '-' Term | Primary Postfix*
//! Primary    := Identifier | NumberLiteral | '(' Expression ')'
//! Postfix    := '(' Expression ')'
//! ```
//!
//! The meaning of every production is pinned down by a spec-level parser
//! (`spec_expression`, `spec_binops`, `spec_term`, `spec_primary`,
//! `spec_postfix`, `spec_absorb`), and each executable production is proved
//! to return exactly what its spec counterpart says, result and cursor
//! position alike, on success and on failure.
//!
//! The spec functions carry range guards (`pos < p`, `p <= ts.len()`) on the
//! positions coming back from inner productions, so that the mutual
//! recursion is visibly well founded; the guarded branches are dead, since
//! every production either fails or moves the cursor forward through the
//! sequence.

use vstd::prelude::*;

use crate::ast::AstNode;
use crate::token::{binop_of_token, is_operator, prec_val, token_prec, Precedence, Token};

verus! {

/// A structured parse failure: which expectation was violated, and the
/// token index at which it was violated.
#[derive(Debug, PartialEq, Eq, Structural, Clone, Copy)]
pub enum ParseError {
    /// The start of a primary expression (identifier, number or `(`) was
    /// expected and something else was found.
    UnexpectedToken { at: usize },
    /// A `(` of a grouping or of a call was not matched by a `)`.
    MissingClosingParenthesis { at: usize },
    /// A complete expression was parsed but the next token was not the
    /// end-of-input marker.
    TrailingInput { at: usize },
}

/// The token the cursor stands on: past the end of the sequence the cursor
/// stands on `Eof`, exactly as if the end marker were physically present.
pub open spec fn tok_at(ts: Seq<Token>, pos: int) -> Token {
    if 0 <= pos < ts.len() {
        ts[pos]
    } else {
        Token::Eof
    }
}

/// What parsing one `Primary` at `pos` returns: the node and the position
/// after it, or the failure.
pub open spec fn spec_primary(ts: Seq<Token>, pos: int) -> Result<(AstNode, int), ParseError>
    decreases ts.len() - pos, 0int,
{
    match tok_at(ts, pos) {
        Token::Id(name) => Ok((AstNode::Identifier { name }, pos + 1)),
        Token::NumLit(value) => Ok((AstNode::NumberLiteral { value }, pos + 1)),
        Token::LParen => match spec_expression(ts, pos + 1) {
            Ok((inner, p)) => if tok_at(ts, p) == Token::RParen {
                Ok((inner, p + 1))
            } else {
                Err(ParseError::MissingClosingParenthesis { at: p as usize })
            },
            Err(e) => Err(e),
        },
        _ => Err(ParseError::UnexpectedToken { at: pos as usize }),
    }
}

/// What the postfix loop starting at `pos` with accumulated callee `lhs`
/// returns: every directly following `( Expression )` is folded into a
/// `Call` node, left to right.
pub open spec fn spec_postfix(ts: Seq<Token>, pos: int, lhs: AstNode) -> Result<
    (AstNode, int),
    ParseError,
>
    decreases ts.len() - pos, 1int,
{
    if tok_at(ts, pos) == Token::LParen {
        match spec_expression(ts, pos + 1) {
            Ok((argument, p)) => if tok_at(ts, p) == Token::RParen {
                if pos < p + 1 && p + 1 <= ts.len() {
                    spec_postfix(
                        ts,
                        p + 1,
                        AstNode::Call { callee: Box::new(lhs), argument: Box::new(argument) },
                    )
                } else {
                    Err(ParseError::UnexpectedToken { at: pos as usize })
                }
            } else {
                Err(ParseError::MissingClosingParenthesis { at: p as usize })
            },
            Err(e) => Err(e),
        }
    } else {
        Ok((lhs, pos))
    }
}

/// What parsing one `Term` at `pos` returns: a `-` makes a right-associative
/// `Negate` around another `Term`; otherwise a `Primary` followed by the
/// postfix loop.
pub open spec fn spec_term(ts: Seq<Token>, pos: int) -> Result<(AstNode, int), ParseError>
    decreases ts.len() - pos, 2int,
{
    if tok_at(ts, pos) == Token::Minus {
        match spec_term(ts, pos + 1) {
            Ok((operand, p)) => Ok((AstNode::Negate { operand: Box::new(operand) }, p)),
            Err(e) => Err(e),
        }
    } else {
        match spec_primary(ts, pos) {
            Ok((first, p)) => if pos <= p && p <= ts.len() {
                spec_postfix(ts, p, first)
            } else {
                Err(ParseError::UnexpectedToken { at: pos as usize })
            },
            Err(e) => Err(e),
        }
    }
}

/// What the binary-operator climbing loop returns, starting at `pos` with
/// accumulated left operand `lhs` and floor precedence `min`: while the
/// cursor stands on an operator of precedence at least `min`, the operator
/// and a `Term` are consumed, a strictly-higher-precedence suffix is
/// absorbed into the right operand, and the two operands are combined.
pub open spec fn spec_binops(ts: Seq<Token>, pos: int, lhs: AstNode, min: Precedence) -> Result<
    (AstNode, int),
    ParseError,
>
    decreases ts.len() - pos, 3int,
{
    let cur = tok_at(ts, pos);
    if prec_val(token_prec(cur)) >= prec_val(min) && is_operator(cur) {
        match spec_term(ts, pos + 1) {
            Ok((rhs, p2)) => if pos < p2 && p2 <= ts.len() {
                match spec_absorb(ts, p2, rhs, token_prec(cur)) {
                    Ok((rhs2, p3)) => if pos < p3 && p3 <= ts.len() {
                        spec_binops(
                            ts,
                            p3,
                            AstNode::BinaryOp {
                                kind: binop_of_token(cur),
                                left: Box::new(lhs),
                                right: Box::new(rhs2),
                            },
                            min,
                        )
                    } else {
                        Err(ParseError::UnexpectedToken { at: pos as usize })
                    },
                    Err(e) => Err(e),
                }
            } else {
                Err(ParseError::UnexpectedToken { at: pos as usize })
            },
            Err(e) => Err(e),
        }
    } else {
        Ok((lhs, pos))
    }
}

/// What the inner climbing loop returns: while the cursor stands on an
/// operator binding strictly tighter than `opprec`, the right operand `rhs`
/// absorbs the higher-precedence suffix by re-entering `spec_binops` with
/// that higher floor.
pub open spec fn spec_absorb(ts: Seq<Token>, pos: int, rhs: AstNode, opprec: Precedence) -> Result<
    (AstNode, int),
    ParseError,
>
    decreases ts.len() - pos, 4int,
{
    let cur = tok_at(ts, pos);
    if prec_val(token_prec(cur)) > prec_val(opprec) {
        match spec_binops(ts, pos, rhs, token_prec(cur)) {
            Ok((rhs2, p2)) => if pos < p2 && p2 <= ts.len() {
                spec_absorb(ts, p2, rhs2, opprec)
            } else {
                Err(ParseError::UnexpectedToken { at: pos as usize })
            },
            Err(e) => Err(e),
        }
    } else {
        Ok((rhs, pos))
    }
}

/// What parsing one `Expression` at `pos` returns: one `Term`, then the
/// climbing loop with the minimum real precedence as the floor.
pub open spec fn spec_expression(ts: Seq<Token>, pos: int) -> Result<(AstNode, int), ParseError>
    decreases ts.len() - pos, 5int,
{
    match spec_term(ts, pos) {
        Ok((lhs, p)) => if pos <= p && p <= ts.len() {
            spec_binops(ts, p, lhs, Precedence::AddLevel)
        } else {
            Err(ParseError::UnexpectedToken { at: pos as usize })
        },
        Err(e) => Err(e),
    }
}

/// What parsing a whole token sequence returns: one `Expression` starting
/// at the beginning, after which the cursor must stand on the end-of-input
/// marker; anything else left over is `TrailingInput`.
pub open spec fn spec_parse(ts: Seq<Token>) -> Result<AstNode, ParseError> {
    match spec_expression(ts, 0) {
        Ok((t, p)) => if tok_at(ts, p) == Token::Eof {
            Ok(t)
        } else {
            Err(ParseError::TrailingInput { at: p as usize })
        },
        Err(e) => Err(e),
    }
}

/// The executable result `r`, together with the cursor position it left
/// behind, is exactly what the spec-level outcome `out` says.
spec fn matches_out(
    r: Result<Box<AstNode>, ParseError>,
    newpos: usize,
    out: Result<(AstNode, int), ParseError>,
) -> bool {
    match out {
        Ok((t, p)) => r matches Ok(b) && *b == t && newpos == p,
        Err(e) => r matches Err(e2) && e2 == e,
    }
}

/// Parse a full token sequence into one expression tree.
///
/// The result is exactly `spec_parse(tokens@)`: the grammar's tree on
/// success, and the structured failure, position included, otherwise.
pub fn parse_exp(tokens: &Vec<Token>) -> (r: Result<Box<AstNode>, ParseError>)
    ensures
        match spec_parse(tokens@) {
            Ok(t) => r matches Ok(b) && *b == t,
            Err(e) => r matches Err(e2) && e2 == e,
        },
{
    let mut p = Parser::new(tokens);
    let ret = match p.parse_exp() {
        Ok(x) => x,
        Err(e) => {
            return Err(e);
        },
    };
    match p.expect_eof() {
        Ok(()) => Ok(ret),
        Err(e) => Err(e),
    }
}

/// The parser's cursor: a read-only view of the token sequence plus a
/// position, `0 <= pos <= tokens.len()`.
struct Parser<'t> {
    tokens: &'t Vec<Token>,
    pos: usize,
}

impl<'t> Parser<'t> {
    spec fn wf(&self) -> bool {
        self.pos <= self.tokens@.len()
    }

    fn new(tokens: &'t Vec<Token>) -> (p: Parser<'t>)
        ensures
            p.tokens@ == tokens@,
            p.pos == 0,
            p.wf(),
    {
        Parser { tokens, pos: 0 }
    }

    /// The token at the cursor position, or `Eof` once the position is at
    /// or beyond the sequence length. Side-effect-free.
    fn cur(&self) -> (t: Token)
        ensures
            t == tok_at(self.tokens@, self.pos as int),
    {
        if self.pos < self.tokens.len() {
            self.tokens[self.pos].clone()
        } else {
            Token::Eof
        }
    }

    /// Whether the cursor stands on a `(`.
    fn at_lparen(&self) -> (b: bool)
        ensures
            b == (tok_at(self.tokens@, self.pos as int) == Token::LParen),
    {
        match self.cur() {
            Token::LParen => true,
            _ => false,
        }
    }

    /// Move the cursor forward by one. The grammar only calls this while
    /// the cursor is inside the sequence, so moving past the end is ruled
    /// out by contract.
    fn next(&mut self)
        requires
            old(self).pos < old(self).tokens@.len(),
        ensures
            final(self).tokens@ == old(self).tokens@,
            final(self).pos == old(self).pos + 1,
    {
        proof {
            broadcast use vstd::std_specs::vec::axiom_spec_len;

            assert(vstd::std_specs::vec::spec_vec_len(self.tokens) == self.tokens@.len());
        }
        self.pos = self.pos + 1;
    }

    /// Expression := Term (BinaryOperator Term)*
    fn parse_exp(&mut self) -> (r: Result<Box<AstNode>, ParseError>)
        requires
            old(self).wf(),
        ensures
            final(self).tokens@ == old(self).tokens@,
            final(self).wf(),
            old(self).pos <= final(self).pos,
            matches_out(
                r,
                final(self).pos,
                spec_expression(old(self).tokens@, old(self).pos as int),
            ),
            r is Ok ==> old(self).pos < final(self).pos,
        decreases old(self).tokens@.len() - old(self).pos, 5int,
    {
        match self.parse_term() {
            Ok(lhs) => self.parse_binops(lhs, Precedence::AddLevel),
            Err(e) => Err(e),
        }
    }

    /// The outer climbing loop: consume operators whose precedence is at
    /// least `min_prec`, each followed by a `Term`, absorbing
    /// strictly-higher-precedence suffixes into the right operand.
    #[verifier::loop_isolation(false)]
    fn parse_binops(&mut self, lhs: Box<AstNode>, min_prec: Precedence) -> (r: Result<
        Box<AstNode>,
        ParseError,
    >)
        requires
            old(self).wf(),
            prec_val(min_prec) >= 1,
        ensures
            final(self).tokens@ == old(self).tokens@,
            final(self).wf(),
            old(self).pos <= final(self).pos,
            matches_out(
                r,
                final(self).pos,
                spec_binops(old(self).tokens@, old(self).pos as int, *lhs, min_prec),
            ),
            r is Ok && prec_val(token_prec(tok_at(old(self).tokens@, old(self).pos as int)))
                >= prec_val(min_prec) ==> old(self).pos < final(self).pos,
        decreases old(self).tokens@.len() - old(self).pos, 3int,
    {
        let ghost ts = self.tokens@;
        let ghost pos0 = old(self).pos as int;
        let mut cur_lhs = lhs;
        while self.cur().precedence().is_at_least(min_prec)
            invariant
                self.wf(),
                self.tokens@ == ts,
                pos0 <= self.pos,
                spec_binops(ts, pos0, *lhs, min_prec) == spec_binops(
                    ts,
                    self.pos as int,
                    *cur_lhs,
                    min_prec,
                ),
            decreases ts.len() - self.pos,
        {
            let ghost pos_iter = self.pos as int;
            let ghost lhs_iter = *cur_lhs;
            let op = self.cur();
            self.next();
            let rhs = match self.parse_term() {
                Ok(x) => x,
                Err(e) => {
                    return Err(e);
                },
            };
            let ghost rhs0 = *rhs;
            let ghost p2 = self.pos as int;
            let mut rhs_n = rhs;
            while self.cur().precedence().is_higher_than(op.precedence())
                invariant
                    self.wf(),
                    self.tokens@ == ts,
                    p2 <= self.pos,
                    spec_absorb(ts, p2, rhs0, token_prec(op)) == spec_absorb(
                        ts,
                        self.pos as int,
                        *rhs_n,
                        token_prec(op),
                    ),
                decreases ts.len() - self.pos,
            {
                let c = self.cur();
                rhs_n = match self.parse_binops(rhs_n, c.precedence()) {
                    Ok(x) => x,
                    Err(e) => {
                        return Err(e);
                    },
                };
            }
            proof {
                assert(spec_absorb(ts, p2, rhs0, token_prec(op)) == Ok::<
                    (AstNode, int),
                    ParseError,
                >((*rhs_n, self.pos as int)));
            }
            cur_lhs = crate::ast::AstNode::bin(cur_lhs, op.to_binop(), rhs_n);
            proof {
                assert(spec_binops(ts, pos_iter, lhs_iter, min_prec) == spec_binops(
                    ts,
                    self.pos as int,
                    *cur_lhs,
                    min_prec,
                ));
            }
        }
        Ok(cur_lhs)
    }

    /// Term := '-' Term | Primary Postfix*
    fn parse_term(&mut self) -> (r: Result<Box<AstNode>, ParseError>)
        requires
            old(self).wf(),
        ensures
            final(self).tokens@ == old(self).tokens@,
            final(self).wf(),
            old(self).pos <= final(self).pos,
            matches_out(r, final(self).pos, spec_term(old(self).tokens@, old(self).pos as int)),
            r is Ok ==> old(self).pos < final(self).pos,
        decreases old(self).tokens@.len() - old(self).pos, 2int,
    {
        match self.cur() {
            Token::Minus => {
                self.next();
                match self.parse_term() {
                    Ok(operand) => Ok(crate::ast::AstNode::neg(operand)),
                    Err(e) => Err(e),
                }
            },
            _ => {
                match self.parse_primary() {
                    Ok(first) => self.parse_postfix(first),
                    Err(e) => Err(e),
                }
            },
        }
    }

    /// Primary := Identifier | NumberLiteral | '(' Expression ')'
    fn parse_primary(&mut self) -> (r: Result<Box<AstNode>, ParseError>)
        requires
            old(self).wf(),
        ensures
            final(self).tokens@ == old(self).tokens@,
            final(self).wf(),
            old(self).pos <= final(self).pos,
            matches_out(r, final(self).pos, spec_primary(old(self).tokens@, old(self).pos as int)),
            r is Ok ==> old(self).pos < final(self).pos,
        decreases old(self).tokens@.len() - old(self).pos, 0int,
    {
        match self.cur() {
            Token::Id(name) => {
                self.next();
                Ok(crate::ast::AstNode::id(name))
            },
            Token::NumLit(value) => {
                self.next();
                Ok(crate::ast::AstNode::num(value))
            },
            Token::LParen => {
                self.next();
                match self.parse_exp() {
                    Ok(inner) => match self.expect_rparen() {
                        Ok(()) => Ok(inner),
                        Err(e) => Err(e),
                    },
                    Err(e) => Err(e),
                }
            },
            _ => Err(ParseError::UnexpectedToken { at: self.pos }),
        }
    }

    /// Postfix* — each `( Expression )` directly following the parsed
    /// primary is folded into a `Call` node, supporting chained calls.
    #[verifier::loop_isolation(false)]
    fn parse_postfix(&mut self, lhs: Box<AstNode>) -> (r: Result<Box<AstNode>, ParseError>)
        requires
            old(self).wf(),
        ensures
            final(self).tokens@ == old(self).tokens@,
            final(self).wf(),
            old(self).pos <= final(self).pos,
            matches_out(
                r,
                final(self).pos,
                spec_postfix(old(self).tokens@, old(self).pos as int, *lhs),
            ),
        decreases old(self).tokens@.len() - old(self).pos, 1int,
    {
        let ghost ts = self.tokens@;
        let ghost pos0 = old(self).pos as int;
        let mut cur_lhs = lhs;
        while self.at_lparen()
            invariant
                self.wf(),
                self.tokens@ == ts,
                pos0 <= self.pos,
                spec_postfix(ts, pos0, *lhs) == spec_postfix(ts, self.pos as int, *cur_lhs),
            decreases ts.len() - self.pos,
        {
            let ghost pos_iter = self.pos as int;
            let ghost lhs_iter = *cur_lhs;
            self.next();
            let argument = match self.parse_exp() {
                Ok(a) => a,
                Err(e) => {
                    return Err(e);
                },
            };
            match self.expect_rparen() {
                Ok(()) => {},
                Err(e) => {
                    return Err(e);
                },
            }
            cur_lhs = crate::ast::AstNode::call(cur_lhs, argument);
            proof {
                assert(spec_postfix(ts, pos_iter, lhs_iter) == spec_postfix(
                    ts,
                    self.pos as int,
                    *cur_lhs,
                ));
            }
        }
        Ok(cur_lhs)
    }

    /// Require and consume a `)` at the cursor.
    fn expect_rparen(&mut self) -> (r: Result<(), ParseError>)
        requires
            old(self).wf(),
        ensures
            final(self).tokens@ == old(self).tokens@,
            final(self).wf(),
            if tok_at(old(self).tokens@, old(self).pos as int) == Token::RParen {
                r is Ok && final(self).pos == old(self).pos + 1
            } else {
                r matches Err(e) && e == (ParseError::MissingClosingParenthesis {
                    at: old(self).pos,
                }) && final(self).pos == old(self).pos
            },
    {
        match self.cur() {
            Token::RParen => {
                self.next();
                Ok(())
            },
            _ => Err(ParseError::MissingClosingParenthesis { at: self.pos }),
        }
    }

    /// Require the end-of-input marker at the cursor, without consuming it.
    fn expect_eof(&mut self) -> (r: Result<(), ParseError>)
        requires
            old(self).wf(),
        ensures
            final(self).tokens@ == old(self).tokens@,
            final(self).wf(),
            final(self).pos == old(self).pos,
            if tok_at(old(self).tokens@, old(self).pos as int) == Token::Eof {
                r is Ok
            } else {
                r matches Err(e) && e == (ParseError::TrailingInput { at: old(self).pos })
            },
    {
        match self.cur() {
            Token::Eof => Ok(()),
            _ => Err(ParseError::TrailingInput { at: self.pos }),
        }
    }
}

} // verus!
