//! Laws relating the parser to the canonical re-rendering and to the
//! standard precedence rules.

use vstd::prelude::*;

use crate::ast::{render_tokens, token_of_binop, AstNode, BinOp};
use crate::parser::{
    spec_absorb, spec_binops, spec_expression, spec_parse, spec_postfix, spec_primary, spec_term,
    tok_at, ParseError,
};
use crate::token::{binop_of_token, is_operator, prec_val, token_prec, Precedence, Token};

verus! {

/// The fragment `frag` stands in `ts` beginning at `pos`.
pub open spec fn contains_at(ts: Seq<Token>, pos: int, frag: Seq<Token>) -> bool {
    &&& 0 <= pos
    &&& pos + frag.len() <= ts.len()
    &&& ts.subrange(pos, pos + frag.len() as int) == frag
}

/// A rendering is never empty, and never begins with a minus sign: it
/// begins with an identifier, a number, or `(`.
proof fn lemma_render_first(t: AstNode)
    ensures
        render_tokens(t).len() >= 1,
        render_tokens(t)[0] != Token::Minus,
{
    match t {
        AstNode::Identifier { name } => {
            assert(render_tokens(t)[0] == Token::Id(name));
        },
        AstNode::NumberLiteral { value } => {
            assert(render_tokens(t)[0] == Token::NumLit(value));
        },
        AstNode::Negate { operand } => {
            assert(render_tokens(t)[0] == Token::LParen);
        },
        AstNode::BinaryOp { kind, left, right } => {
            assert(render_tokens(t)[0] == Token::LParen);
        },
        AstNode::Call { callee, argument } => {
            assert(render_tokens(t)[0] == Token::LParen);
        },
    }
}

/// From a fragment standing at `pos`, the token under the cursor at any
/// offset into the fragment is the fragment's token.
proof fn lemma_contains_tok(ts: Seq<Token>, pos: int, frag: Seq<Token>, i: int)
    requires
        contains_at(ts, pos, frag),
        0 <= i < frag.len(),
    ensures
        tok_at(ts, pos + i) == frag[i],
{
    assert(ts.subrange(pos, pos + frag.len() as int)[i] == ts[pos + i]);
}

/// A sub-fragment of a fragment stands in `ts` too.
proof fn lemma_contains_sub(ts: Seq<Token>, pos: int, frag: Seq<Token>, off: int, sub: Seq<Token>)
    requires
        contains_at(ts, pos, frag),
        0 <= off,
        off + sub.len() <= frag.len(),
        forall|j: int| 0 <= j < sub.len() ==> frag[off + j] == sub[j],
    ensures
        contains_at(ts, pos + off, sub),
{
    assert(ts.subrange(pos + off, pos + off + sub.len() as int) =~= sub) by {
        assert forall|j: int| 0 <= j < sub.len() implies ts.subrange(
            pos + off,
            pos + off + sub.len() as int,
        )[j] == sub[j] by {
            assert(ts.subrange(pos, pos + frag.len() as int)[off + j] == ts[pos + off + j]);
            assert(frag[off + j] == sub[j]);
        }
    }
}

/// Parsing a `Primary` at the start of a rendered tree consumes exactly the
/// rendering and yields exactly that tree.
#[verifier::rlimit(50)]
proof fn lemma_primary_render(ts: Seq<Token>, pos: int, t: AstNode)
    requires
        contains_at(ts, pos, render_tokens(t)),
    ensures
        spec_primary(ts, pos) == Ok::<(AstNode, int), ParseError>(
            (t, pos + render_tokens(t).len()),
        ),
    decreases t, 0int,
{
    let rt = render_tokens(t);
    match t {
        AstNode::Identifier { name } => {
            lemma_contains_tok(ts, pos, rt, 0);
            assert(tok_at(ts, pos) == Token::Id(name));
        },
        AstNode::NumberLiteral { value } => {
            lemma_contains_tok(ts, pos, rt, 0);
            assert(tok_at(ts, pos) == Token::NumLit(value));
        },
        AstNode::Negate { operand } => {
            let e = *operand;
            let re = render_tokens(e);
            let ne = re.len() as int;
            assert(rt == seq![Token::LParen, Token::Minus] + re + seq![Token::RParen]);
            assert(rt.len() == 3 + ne);
            lemma_contains_tok(ts, pos, rt, 0);
            lemma_contains_tok(ts, pos, rt, 1);
            lemma_contains_tok(ts, pos, rt, 2 + ne);
            assert(tok_at(ts, pos) == Token::LParen);
            assert(tok_at(ts, pos + 1) == Token::Minus);
            assert(tok_at(ts, pos + 2 + ne) == Token::RParen);
            assert forall|j: int| 0 <= j < ne implies rt[2 + j] == re[j] by {}
            lemma_contains_sub(ts, pos, rt, 2, re);
            lemma_term_render(ts, pos + 2, e);
            assert(Box::new(e) == operand);
            assert(spec_term(ts, pos + 1) == Ok::<(AstNode, int), ParseError>((t, pos + 2 + ne)));
            assert(spec_binops(ts, pos + 2 + ne, t, Precedence::AddLevel) == Ok::<
                (AstNode, int),
                ParseError,
            >((t, pos + 2 + ne)));
            assert(spec_expression(ts, pos + 1) == Ok::<(AstNode, int), ParseError>(
                (t, pos + 2 + ne),
            ));
            assert(spec_primary(ts, pos) == Ok::<(AstNode, int), ParseError>((t, pos + 3 + ne)));
        },
        AstNode::BinaryOp { kind, left, right } => {
            let l = *left;
            let r = *right;
            let rl = render_tokens(l);
            let rr = render_tokens(r);
            let nl = rl.len() as int;
            let nr = rr.len() as int;
            let optok = token_of_binop(kind);
            assert(rt == seq![Token::LParen] + rl + seq![optok] + rr + seq![Token::RParen]);
            assert(rt.len() == 3 + nl + nr);
            lemma_contains_tok(ts, pos, rt, 0);
            lemma_contains_tok(ts, pos, rt, 1 + nl);
            lemma_contains_tok(ts, pos, rt, 2 + nl + nr);
            assert(tok_at(ts, pos) == Token::LParen);
            assert(rt[1 + nl] == optok);
            assert(tok_at(ts, pos + 1 + nl) == optok);
            assert(tok_at(ts, pos + 2 + nl + nr) == Token::RParen);
            assert forall|j: int| 0 <= j < nl implies rt[1 + j] == rl[j] by {}
            lemma_contains_sub(ts, pos, rt, 1, rl);
            assert forall|j: int| 0 <= j < nr implies rt[2 + nl + j] == rr[j] by {}
            lemma_contains_sub(ts, pos, rt, 2 + nl, rr);
            assert(is_operator(optok) && optok != Token::LParen) by {
                match kind {
                    BinOp::Add => {},
                    BinOp::Sub => {},
                    BinOp::Mul => {},
                    BinOp::Div => {},
                    BinOp::Mod => {},
                }
            }
            lemma_term_render(ts, pos + 1, l);
            lemma_term_render(ts, pos + 2 + nl, r);
            let pl = pos + 1 + nl;
            let pr = pos + 2 + nl + nr;
            assert(binop_of_token(token_of_binop(kind)) == kind);
            assert(spec_absorb(ts, pr, r, token_prec(optok)) == Ok::<(AstNode, int), ParseError>(
                (r, pr),
            ));
            assert(Box::new(l) == left && Box::new(r) == right);
            assert(spec_binops(ts, pr, t, Precedence::AddLevel) == Ok::<
                (AstNode, int),
                ParseError,
            >((t, pr)));
            assert(spec_binops(ts, pl, l, Precedence::AddLevel) == Ok::<
                (AstNode, int),
                ParseError,
            >((t, pr)));
            assert(spec_expression(ts, pos + 1) == Ok::<(AstNode, int), ParseError>((t, pr)));
            assert(spec_primary(ts, pos) == Ok::<(AstNode, int), ParseError>((t, pr + 1)));
        },
        AstNode::Call { callee, argument } => {
            let f = *callee;
            let a = *argument;
            let rf = render_tokens(f);
            let ra = render_tokens(a);
            let nf = rf.len() as int;
            let na = ra.len() as int;
            assert(rt == seq![Token::LParen] + rf + seq![Token::LParen] + ra + seq![
                Token::RParen,
                Token::RParen,
            ]);
            assert(rt.len() == 4 + nf + na);
            lemma_contains_tok(ts, pos, rt, 0);
            lemma_contains_tok(ts, pos, rt, 1 + nf);
            lemma_contains_tok(ts, pos, rt, 2 + nf + na);
            lemma_contains_tok(ts, pos, rt, 3 + nf + na);
            assert(tok_at(ts, pos) == Token::LParen);
            assert(tok_at(ts, pos + 1 + nf) == Token::LParen);
            assert(tok_at(ts, pos + 2 + nf + na) == Token::RParen);
            assert(tok_at(ts, pos + 3 + nf + na) == Token::RParen);
            assert forall|j: int| 0 <= j < nf implies rt[1 + j] == rf[j] by {}
            lemma_contains_sub(ts, pos, rt, 1, rf);
            assert forall|j: int| 0 <= j < na implies rt[2 + nf + j] == ra[j] by {}
            lemma_contains_sub(ts, pos, rt, 2 + nf, ra);
            lemma_render_first(f);
            lemma_contains_tok(ts, pos + 1, rf, 0);
            lemma_primary_render(ts, pos + 1, f);
            lemma_expression_render(ts, pos + 2 + nf, a);
            let pf = pos + 1 + nf;
            let pa = pos + 2 + nf + na;
            assert(Box::new(f) == callee && Box::new(a) == argument);
            assert(spec_postfix(ts, pa + 1, t) == Ok::<(AstNode, int), ParseError>((t, pa + 1)));
            assert(spec_postfix(ts, pf, f) == Ok::<(AstNode, int), ParseError>((t, pa + 1)));
            assert(spec_term(ts, pos + 1) == Ok::<(AstNode, int), ParseError>((t, pa + 1)));
            assert(spec_binops(ts, pa + 1, t, Precedence::AddLevel) == Ok::<
                (AstNode, int),
                ParseError,
            >((t, pa + 1)));
            assert(spec_expression(ts, pos + 1) == Ok::<(AstNode, int), ParseError>((t, pa + 1)));
            assert(spec_primary(ts, pos) == Ok::<(AstNode, int), ParseError>((t, pa + 2)));
        },
    }
}

/// Parsing a `Term` at the start of a rendered tree, with no `(` directly
/// after the rendering, consumes exactly the rendering and yields exactly
/// that tree.
proof fn lemma_term_render(ts: Seq<Token>, pos: int, t: AstNode)
    requires
        contains_at(ts, pos, render_tokens(t)),
        tok_at(ts, pos + render_tokens(t).len()) != Token::LParen,
    ensures
        spec_term(ts, pos) == Ok::<(AstNode, int), ParseError>((t, pos + render_tokens(t).len())),
    decreases t, 1int,
{
    let rt = render_tokens(t);
    let end = pos + rt.len();
    lemma_render_first(t);
    lemma_contains_tok(ts, pos, rt, 0);
    assert(tok_at(ts, pos) != Token::Minus);
    lemma_primary_render(ts, pos, t);
    assert(spec_postfix(ts, end, t) == Ok::<(AstNode, int), ParseError>((t, end)));
}

/// Parsing an `Expression` at the start of a rendered tree, with neither a
/// `(` nor an operator directly after the rendering, consumes exactly the
/// rendering and yields exactly that tree.
proof fn lemma_expression_render(ts: Seq<Token>, pos: int, t: AstNode)
    requires
        contains_at(ts, pos, render_tokens(t)),
        tok_at(ts, pos + render_tokens(t).len()) != Token::LParen,
        token_prec(tok_at(ts, pos + render_tokens(t).len())) == Precedence::NoneLevel,
    ensures
        spec_expression(ts, pos) == Ok::<(AstNode, int), ParseError>(
            (t, pos + render_tokens(t).len()),
        ),
    decreases t, 2int,
{
    let rt = render_tokens(t);
    let end = pos + rt.len();
    lemma_term_render(ts, pos, t);
    assert(spec_binops(ts, end, t, Precedence::AddLevel) == Ok::<(AstNode, int), ParseError>(
        (t, end),
    ));
}

/// Idempotence of parsing against the canonical re-rendering: parsing the
/// token sequence that `render_tokens` (and hence `AstNode::to_tokens`)
/// gives for any tree yields that very tree, structurally identical, with
/// nothing left over.
pub proof fn lemma_reparse_render(t: AstNode)
    ensures
        spec_parse(render_tokens(t)) == Ok::<AstNode, ParseError>(t),
{
    let ts = render_tokens(t);
    lemma_render_first(t);
    assert(ts.subrange(0, ts.len() as int) =~= ts);
    assert(contains_at(ts, 0, ts));
    assert(tok_at(ts, ts.len() as int) == Token::Eof);
    lemma_expression_render(ts, 0, t);
}

/// A token an input of numeric literals and binary operators may hold.
pub open spec fn lit_or_op(t: Token) -> bool {
    t matches Token::NumLit(_) || is_operator(t)
}

/// Every token of the sequence is a numeric literal or a binary operator.
pub open spec fn all_lit_or_op(ts: Seq<Token>) -> bool {
    forall|i: int| 0 <= i < ts.len() ==> lit_or_op(#[trigger] ts[i])
}

/// The precedence of a binary operation kind.
pub open spec fn op_prec(kind: BinOp) -> Precedence {
    token_prec(token_of_binop(kind))
}

/// If the tree's root is a binary node, its operator binds at least as
/// tightly as `m`.
pub open spec fn root_ge(t: AstNode, m: Precedence) -> bool {
    t matches AstNode::BinaryOp { kind, .. } ==> prec_val(op_prec(kind)) >= prec_val(m)
}

/// If the tree's root is a binary node, its operator binds strictly more
/// tightly than `m`.
pub open spec fn root_gt(t: AstNode, m: Precedence) -> bool {
    t matches AstNode::BinaryOp { kind, .. } ==> prec_val(op_prec(kind)) > prec_val(m)
}

/// The tree shape that standard precedence forces on inputs made of
/// numeric literals and binary operators alone: every leaf is a number,
/// a negation's operand is never a binary node (unary binds tighter), a
/// binary node never holds a looser-binding binary node as its left child,
/// and never holds one binding at most as tightly as its right child — so
/// equal precedences group left-to-right and multiply/divide/modulo bind
/// before add/subtract.
pub open spec fn std_grouping(t: AstNode) -> bool
    decreases t,
{
    match t {
        AstNode::NumberLiteral { value } => true,
        AstNode::Identifier { name } => false,
        AstNode::Call { callee, argument } => false,
        AstNode::Negate { operand } => std_grouping(*operand) && !(*operand
            matches AstNode::BinaryOp { .. }),
        AstNode::BinaryOp { kind, left, right } => {
            &&& std_grouping(*left)
            &&& std_grouping(*right)
            &&& root_ge(*left, op_prec(kind))
            &&& root_gt(*right, op_prec(kind))
        },
    }
}

proof fn lemma_grouping_primary(ts: Seq<Token>, pos: int)
    requires
        all_lit_or_op(ts),
    ensures
        spec_primary(ts, pos) matches Ok((t, p)) ==> t matches AstNode::NumberLiteral { .. } && p
            == pos + 1 && pos < ts.len(),
{
    if 0 <= pos < ts.len() {
        assert(lit_or_op(ts[pos]));
    }
}

proof fn lemma_grouping_postfix(ts: Seq<Token>, pos: int, lhs: AstNode)
    requires
        all_lit_or_op(ts),
    ensures
        spec_postfix(ts, pos, lhs) == Ok::<(AstNode, int), ParseError>((lhs, pos)),
{
    if 0 <= pos < ts.len() {
        assert(lit_or_op(ts[pos]));
    }
}

proof fn lemma_grouping_term(ts: Seq<Token>, pos: int)
    requires
        all_lit_or_op(ts),
    ensures
        spec_term(ts, pos) matches Ok((t, p)) ==> std_grouping(t) && !(t
            matches AstNode::BinaryOp { .. }) && pos < p <= ts.len(),
    decreases ts.len() - pos, 2int,
{
    if tok_at(ts, pos) == Token::Minus {
        lemma_grouping_term(ts, pos + 1);
    } else {
        lemma_grouping_primary(ts, pos);
        match spec_primary(ts, pos) {
            Ok((first, p1)) => {
                lemma_grouping_postfix(ts, p1, first);
            },
            Err(e) => {},
        }
    }
}

proof fn lemma_grouping_binops(ts: Seq<Token>, pos: int, lhs: AstNode, min: Precedence)
    requires
        all_lit_or_op(ts),
        pos <= ts.len(),
        std_grouping(lhs),
        root_ge(lhs, token_prec(tok_at(ts, pos))),
    ensures
        spec_binops(ts, pos, lhs, min) matches Ok((t, p)) ==> {
            &&& std_grouping(t)
            &&& root_ge(t, min) || t == lhs
            &&& pos <= p <= ts.len()
            &&& prec_val(token_prec(tok_at(ts, p))) < prec_val(min) || token_prec(tok_at(ts, p))
                == Precedence::NoneLevel
        },
        prec_val(token_prec(tok_at(ts, pos))) >= prec_val(min) && is_operator(tok_at(ts, pos))
            ==> (spec_binops(ts, pos, lhs, min) matches Ok((t, p)) ==> pos < p),
    decreases ts.len() - pos, 3int,
{
    let cur = tok_at(ts, pos);
    if prec_val(token_prec(cur)) >= prec_val(min) && is_operator(cur) {
        lemma_grouping_term(ts, pos + 1);
        match spec_term(ts, pos + 1) {
            Ok((rhs, p2)) => {
                lemma_grouping_absorb(ts, p2, rhs, token_prec(cur));
                match spec_absorb(ts, p2, rhs, token_prec(cur)) {
                    Ok((rhs2, p3)) => {
                        let node = AstNode::BinaryOp {
                            kind: binop_of_token(cur),
                            left: Box::new(lhs),
                            right: Box::new(rhs2),
                        };
                        assert(op_prec(binop_of_token(cur)) == token_prec(cur)) by {
                            assert(is_operator(cur));
                        }
                        assert(std_grouping(node));
                        lemma_grouping_binops(ts, p3, node, min);
                    },
                    Err(e) => {},
                }
            },
            Err(e) => {},
        }
    } else {
        if 0 <= pos < ts.len() {
            assert(lit_or_op(ts[pos]));
        }
    }
}

proof fn lemma_grouping_absorb(ts: Seq<Token>, pos: int, rhs: AstNode, opprec: Precedence)
    requires
        all_lit_or_op(ts),
        pos <= ts.len(),
        std_grouping(rhs),
        root_ge(rhs, token_prec(tok_at(ts, pos))),
    ensures
        spec_absorb(ts, pos, rhs, opprec) matches Ok((r2, p)) ==> {
            &&& std_grouping(r2)
            &&& root_gt(r2, opprec) || r2 == rhs
            &&& pos <= p <= ts.len()
            &&& prec_val(token_prec(tok_at(ts, p))) <= prec_val(opprec)
        },
    decreases ts.len() - pos, 4int,
{
    let cur = tok_at(ts, pos);
    if prec_val(token_prec(cur)) > prec_val(opprec) {
        lemma_grouping_binops(ts, pos, rhs, token_prec(cur));
        match spec_binops(ts, pos, rhs, token_prec(cur)) {
            Ok((r2a, p2)) => {
                lemma_grouping_absorb(ts, p2, r2a, opprec);
            },
            Err(e) => {},
        }
    }
}

proof fn lemma_grouping_expression(ts: Seq<Token>, pos: int)
    requires
        all_lit_or_op(ts),
    ensures
        spec_expression(ts, pos) matches Ok((t, p)) ==> std_grouping(t),
    decreases ts.len() - pos, 5int,
{
    lemma_grouping_term(ts, pos);
    match spec_term(ts, pos) {
        Ok((lhs, p1)) => {
            lemma_grouping_binops(ts, p1, lhs, Precedence::AddLevel);
        },
        Err(e) => {},
    }
}

/// On an input consisting only of numeric literals and binary operator
/// symbols, a successful parse yields a tree grouped exactly as standard
/// precedence demands: multiply, divide and modulo bind before add and
/// subtract, operators of equal precedence group left-to-right, and unary
/// negation binds tighter than any binary operator.
pub proof fn lemma_standard_precedence(ts: Seq<Token>)
    requires
        all_lit_or_op(ts),
    ensures
        spec_parse(ts) matches Ok(t) ==> std_grouping(t),
{
    lemma_grouping_expression(ts, 0);
}

} // verus!
