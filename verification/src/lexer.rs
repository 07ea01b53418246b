//! The lexer: from source text to a token sequence.
//!
//! Token grammar, over codepoints:
//!
//! ```text
//! LParen:  '('
//! RParen:  ')'
//! Id:      IdStart IdCont*
//! IdStart: <alphabetic> | '_'
//! IdCont:  IdStart | Digit
//! IntLit:  Digit+
//! Token:   LParen | RParen | Id | IntLit
//!
//! Whitespace: ' ' | '\t' | '\n'
//! Program:    (Whitespace? Token)* Whitespace? Eof
//! ```
//!
//! The meaning of lexing is pinned down by `spec_lex`, and `lex` is proved
//! to return exactly what `spec_lex` says, token values, positions and
//! failures alike.

use vstd::prelude::*;
use vstd::std_specs::iter::IteratorSpec;

verus! {

broadcast use vstd::std_specs::vec::axiom_spec_len;

/// What kind of token was found.
#[derive(Debug, PartialEq)]
pub enum TokenKind {
    Eof,
    LParen,
    RParen,
    Id(String),
    IntLit(i64),
}

/// A token: the codepoint index where it begins in the source, and its kind.
#[derive(Debug, PartialEq)]
pub struct Token {
    pub loc: usize,
    pub kind: TokenKind,
}

impl Token {
    /// A token at `loc` of the given kind.
    pub fn new(loc: usize, kind: TokenKind) -> (t: Self)
        ensures
            t.loc == loc,
            t.kind == kind,
    {
        Token { loc, kind }
    }
}

/// Why lexing failed: a character no token can begin with, or an integer
/// literal that does not fit in 64 bits.
#[derive(Debug, PartialEq, Clone, Copy)]
pub enum LexError {
    InvalidChar(char),
    IntOutOfRange,
}

/// The mathematical value of a token kind: identifier text as a sequence
/// of codepoints.
pub enum TokenKindV {
    Eof,
    LParen,
    RParen,
    Id(Seq<char>),
    IntLit(i64),
}

/// The mathematical value of a token.
pub struct TokenV {
    pub loc: int,
    pub kind: TokenKindV,
}

impl View for TokenKind {
    type V = TokenKindV;

    open spec fn view(&self) -> TokenKindV {
        match self {
            TokenKind::Eof => TokenKindV::Eof,
            TokenKind::LParen => TokenKindV::LParen,
            TokenKind::RParen => TokenKindV::RParen,
            TokenKind::Id(name) => TokenKindV::Id(name@),
            TokenKind::IntLit(value) => TokenKindV::IntLit(*value),
        }
    }
}

impl View for Token {
    type V = TokenV;

    open spec fn view(&self) -> TokenV {
        TokenV { loc: self.loc as int, kind: self.kind@ }
    }
}

/// The values of a token sequence.
pub open spec fn toks_view(v: Seq<Token>) -> Seq<TokenV> {
    v.map_values(|t: Token| t@)
}

/// Whether the character is alphabetic under Unicode. Named only: the full
/// predicate is Unicode's table, and the result depends on the character
/// alone.
pub uninterp spec fn alphabetic(c: char) -> bool;

/// Relies on char::is_alphabetic: returns whether the character is
/// alphabetic; a pure function of the character.
#[verifier::external_body]
fn char_is_alphabetic(c: char) -> (r: bool)
    ensures
        r == alphabetic(c),
{
    c.is_alphabetic()
}

/// Relies on String::push: appends one character at the end of the string.
#[verifier::external_body]
fn string_push(s: &mut String, c: char)
    ensures
        final(s)@ == old(s)@.push(c),
{
    s.push(c);
}

/// The three whitespace characters between tokens.
pub open spec fn is_ws(c: char) -> bool {
    c == ' ' || c == '\t' || c == '\n'
}

/// A decimal digit.
pub open spec fn is_digit(c: char) -> bool {
    48 <= c as int <= 57
}

/// A character an identifier may begin with.
pub open spec fn id_start(c: char) -> bool {
    alphabetic(c) || c == '_'
}

/// A character an identifier may continue with.
pub open spec fn id_cont(c: char) -> bool {
    id_start(c) || is_digit(c)
}

/// Whether a codepoint is an identifier-start character.
pub fn is_ident_start(c: char) -> (r: bool)
    ensures
        r == id_start(c),
{
    char_is_alphabetic(c) || c == '_'
}

/// Whether a codepoint is an identifier-continuation character.
pub fn is_ident_cont(c: char) -> (r: bool)
    ensures
        r == id_cont(c),
{
    is_ident_start(c) || is_digit_char(c)
}

/// Whether a codepoint is a decimal digit.
fn is_digit_char(c: char) -> (r: bool)
    ensures
        r == is_digit(c),
{
    let u = c as u32;
    48 <= u && u <= 57
}

/// Where the identifier run beginning at `i` ends: the first position at
/// or after `i` holding no identifier-continuation character.
pub open spec fn ident_end(s: Seq<char>, i: int) -> int
    decreases s.len() - i,
{
    if 0 <= i < s.len() && id_cont(s[i]) {
        ident_end(s, i + 1)
    } else {
        i
    }
}

/// Where the digit run beginning at `i` ends.
pub open spec fn digit_end(s: Seq<char>, i: int) -> int
    decreases s.len() - i,
{
    if 0 <= i < s.len() && is_digit(s[i]) {
        digit_end(s, i + 1)
    } else {
        i
    }
}

/// The value of a digit string read in base ten.
pub open spec fn digits_val(ds: Seq<char>) -> int
    decreases ds.len(),
{
    if ds.len() == 0 {
        0
    } else {
        10 * digits_val(ds.drop_last()) + (ds.last() as int - 48)
    }
}

/// Prepend a token to the tokens of a remaining lex, passing a failure
/// through.
pub open spec fn lex_cons(t: TokenV, rest: Result<Seq<TokenV>, LexError>) -> Result<
    Seq<TokenV>,
    LexError,
> {
    match rest {
        Ok(ts) => Ok(seq![t] + ts),
        Err(e) => Err(e),
    }
}

pub proof fn lemma_ident_end(s: Seq<char>, i: int)
    requires
        0 <= i <= s.len(),
    ensures
        i <= ident_end(s, i) <= s.len(),
    decreases s.len() - i,
{
    if i < s.len() && id_cont(s[i]) {
        lemma_ident_end(s, i + 1);
    }
}

pub proof fn lemma_digit_end(s: Seq<char>, i: int)
    requires
        0 <= i <= s.len(),
    ensures
        i <= digit_end(s, i) <= s.len(),
    decreases s.len() - i,
{
    if i < s.len() && is_digit(s[i]) {
        lemma_digit_end(s, i + 1);
    }
}

/// What lexing the source from position `pos` on yields: the tokens of the
/// rest of the source, ended by the end-of-input token, or the first
/// failure.
pub open spec fn spec_lex(s: Seq<char>, pos: int) -> Result<Seq<TokenV>, LexError>
    decreases s.len() - pos,
{
    if !(0 <= pos < s.len()) {
        Ok(seq![TokenV { loc: pos, kind: TokenKindV::Eof }])
    } else {
        let c = s[pos];
        if is_ws(c) {
            spec_lex(s, pos + 1)
        } else if c == '(' {
            lex_cons(TokenV { loc: pos, kind: TokenKindV::LParen }, spec_lex(s, pos + 1))
        } else if c == ')' {
            lex_cons(TokenV { loc: pos, kind: TokenKindV::RParen }, spec_lex(s, pos + 1))
        } else if id_start(c) {
            let end = ident_end(s, pos);
            proof {
                lemma_ident_end(s, pos + 1);
            }
            lex_cons(
                TokenV { loc: pos, kind: TokenKindV::Id(s.subrange(pos, end)) },
                spec_lex(s, end),
            )
        } else if is_digit(c) {
            let end = digit_end(s, pos);
            proof {
                lemma_digit_end(s, pos + 1);
            }
            if end < s.len() && alphabetic(s[end]) {
                Err(LexError::InvalidChar(s[end]))
            } else if digits_val(s.subrange(pos, end)) > i64::MAX as int {
                Err(LexError::IntOutOfRange)
            } else {
                lex_cons(
                    TokenV {
                        loc: pos,
                        kind: TokenKindV::IntLit(digits_val(s.subrange(pos, end)) as i64),
                    },
                    spec_lex(s, end),
                )
            }
        } else {
            Err(LexError::InvalidChar(c))
        }
    }
}

/// The source's codepoints, one by one.
fn chars_of(s: &str) -> (v: Vec<char>)
    ensures
        v@ == s@,
{
    let mut it = s.chars();
    let mut v: Vec<char> = Vec::new();
    loop
        invariant
            it.obeys_prophetic_iter_laws(),
            it.decrease() is Some,
            v@ + it.remaining() == s@,
        ensures
            v@ == s@,
        decreases it.decrease()->0,
    {
        let ghost prev = it.remaining();
        match it.next() {
            Some(c) => {
                proof {
                    assert(prev =~= seq![c] + prev.drop_first());
                    assert((v@ + prev) =~= (v@.push(c) + prev.drop_first()));
                }
                v.push(c);
            },
            None => {
                proof {
                    assert(v@ + prev =~= v@);
                }
                break ;
            },
        }
    }
    v
}

proof fn lemma_toks_view_push(v: Seq<Token>, t: Token)
    ensures
        toks_view(v.push(t)) == toks_view(v) + seq![t@],
{
    assert(toks_view(v.push(t)) =~= toks_view(v) + seq![t@]);
}

proof fn lemma_digits_val_bounds(ds: Seq<char>)
    requires
        forall|k: int| 0 <= k < ds.len() ==> is_digit(#[trigger] ds[k]),
    ensures
        digits_val(ds) >= 0,
    decreases ds.len(),
{
    if ds.len() > 0 {
        lemma_digits_val_bounds(ds.drop_last());
        assert(digits_val(ds.drop_last()) * 10 >= 0) by (nonlinear_arith)
            requires
                digits_val(ds.drop_last()) >= 0,
        ;
    }
}

/// Appending digits never shrinks the value.
proof fn lemma_digits_val_monotone(s: Seq<char>, start: int, i: int, end: int)
    requires
        0 <= start <= i <= end <= s.len(),
        forall|k: int| start <= k < end ==> is_digit(#[trigger] s[k]),
    ensures
        digits_val(s.subrange(start, i)) <= digits_val(s.subrange(start, end)),
    decreases end - i,
{
    if i < end {
        let a = s.subrange(start, i);
        let b = s.subrange(start, i + 1);
        assert(b.drop_last() =~= a);
        assert(b.last() == s[i]);
        lemma_digits_val_bounds(a);
        assert(digits_val(a) <= 10 * digits_val(a)) by (nonlinear_arith)
            requires
                digits_val(a) >= 0,
        ;
        assert(digits_val(a) <= digits_val(b));
        lemma_digits_val_monotone(s, start, i + 1, end);
    } else {
        assert(s.subrange(start, i) =~= s.subrange(start, end));
    }
}

/// Turn source text into tokens.
///
/// The result is exactly `spec_lex(source@, 0)`: on success a token for
/// each lexeme, in order, each carrying its codepoint index, ended by the
/// end-of-input token; otherwise the first failure, `InvalidChar` for a
/// character no token can begin with (also for a letter directly following
/// an integer literal), `IntOutOfRange` for an integer literal beyond
/// `i64::MAX`.
#[verifier::loop_isolation(false)]
pub fn lex(source: &str) -> (r: Result<Vec<Token>, LexError>)
    ensures
        match spec_lex(source@, 0) {
            Ok(tvs) => r matches Ok(v) && toks_view(v@) == tvs,
            Err(e) => r matches Err(e2) && e2 == e,
        },
{
    let chars = chars_of(source);
    let ghost s = source@;
    let mut pos: usize = 0;
    let mut ret: Vec<Token> = Vec::new();
    while pos < chars.len()
        invariant
            chars@ == s,
            pos <= s.len(),
            match spec_lex(s, pos as int) {
                Ok(rest) => spec_lex(s, 0) matches Ok(all) && all == toks_view(ret@) + rest,
                Err(e) => spec_lex(s, 0) matches Err(e2) && e2 == e,
            },
        decreases s.len() - pos,
    {
        let c = chars[pos];
        if c == ' ' || c == '\t' || c == '\n' {
            pos = pos + 1;
        } else if c == '(' {
            let tok = Token::new(pos, TokenKind::LParen);
            proof {
                lemma_toks_view_push(ret@, tok);
                assert(toks_view(ret@) + (seq![tok@] + spec_lex(s, pos + 1)->Ok_0) =~= toks_view(
                    ret@.push(tok),
                ) + spec_lex(s, pos + 1)->Ok_0);
            }
            ret.push(tok);
            pos = pos + 1;
        } else if c == ')' {
            let tok = Token::new(pos, TokenKind::RParen);
            proof {
                lemma_toks_view_push(ret@, tok);
                assert(toks_view(ret@) + (seq![tok@] + spec_lex(s, pos + 1)->Ok_0) =~= toks_view(
                    ret@.push(tok),
                ) + spec_lex(s, pos + 1)->Ok_0);
            }
            ret.push(tok);
            pos = pos + 1;
        } else if is_ident_start(c) {
            let start = pos;
            let mut name = String::new();
            while pos < chars.len() && is_ident_cont(chars[pos])
                invariant
                    chars@ == s,
                    start <= pos <= s.len(),
                    ident_end(s, pos as int) == ident_end(s, start as int),
                    name@ == s.subrange(start as int, pos as int),
                decreases s.len() - pos,
            {
                proof {
                    assert(s.subrange(start as int, pos as int).push(s[pos as int]) =~= s.subrange(
                        start as int,
                        pos + 1,
                    ));
                }
                string_push(&mut name, chars[pos]);
                pos = pos + 1;
            }
            let ghost end = pos as int;
            proof {
                assert(ident_end(s, end) == end);
                assert(ident_end(s, start as int) == end);
            }
            let tok = Token::new(start, TokenKind::Id(name));
            proof {
                lemma_toks_view_push(ret@, tok);
                assert(spec_lex(s, start as int) == lex_cons(
                    TokenV { loc: start as int, kind: TokenKindV::Id(s.subrange(start as int, end)) },
                    spec_lex(s, end),
                ));
                if spec_lex(s, end) is Ok {
                    assert(toks_view(ret@) + (seq![tok@] + spec_lex(s, end)->Ok_0) =~= toks_view(
                        ret@.push(tok),
                    ) + spec_lex(s, end)->Ok_0);
                }
            }
            ret.push(tok);
        } else if is_digit_char(c) {
            let start = pos;
            while pos < chars.len() && is_digit_char(chars[pos])
                invariant
                    chars@ == s,
                    start <= pos <= s.len(),
                    digit_end(s, pos as int) == digit_end(s, start as int),
                    forall|k: int| start <= k < pos ==> is_digit(#[trigger] s[k]),
                decreases s.len() - pos,
            {
                pos = pos + 1;
            }
            let ghost end = pos as int;
            proof {
                assert(digit_end(s, end) == end);
                assert(digit_end(s, start as int) == end);
            }
            if pos < chars.len() && char_is_alphabetic(chars[pos]) {
                return Err(LexError::InvalidChar(chars[pos]));
            }
            let mut value: i64 = 0;
            let mut i = start;
            while i < pos
                invariant
                    chars@ == s,
                    start <= i <= pos <= s.len(),
                    end == pos as int,
                    forall|k: int| start <= k < pos ==> is_digit(#[trigger] s[k]),
                    value == digits_val(s.subrange(start as int, i as int)),
                    0 <= value <= i64::MAX,
                decreases pos - i,
            {
                let d: i64 = (chars[i] as u32 as i64) - 48;
                proof {
                    assert(is_digit(s[i as int]));
                    assert(0 <= d <= 9);
                    assert(s.subrange(start as int, i as int).push(s[i as int]) =~= s.subrange(
                        start as int,
                        i + 1,
                    ));
                }
                if value > (i64::MAX - d) / 10 {
                    proof {
                        assert(10 * value + d > i64::MAX) by (nonlinear_arith)
                            requires
                                value > (i64::MAX - d) / 10,
                                0 <= d <= 9,
                                value >= 0,
                        ;
                        let a = s.subrange(start as int, i as int);
                        let b = s.subrange(start as int, i + 1);
                        assert(b.drop_last() =~= a);
                        assert(b.last() == s[i as int]);
                        assert(digits_val(b) == 10 * value + d);
                        lemma_digits_val_monotone(s, start as int, i + 1, end);
                        assert(digits_val(s.subrange(start as int, end)) > i64::MAX as int);
                    }
                    return Err(LexError::IntOutOfRange);
                }
                proof {
                    assert(10 * value + d <= i64::MAX) by (nonlinear_arith)
                        requires
                            value <= (i64::MAX - d) / 10,
                            0 <= d <= 9,
                            value >= 0,
                    ;
                    let a = s.subrange(start as int, i as int);
                    let b = s.subrange(start as int, i + 1);
                    assert(b.drop_last() =~= a);
                    assert(b.last() == s[i as int]);
                    assert(digits_val(b) == 10 * value + d);
                }
                value = 10 * value + d;
                i = i + 1;
            }
            let tok = Token::new(start, TokenKind::IntLit(value));
            proof {
                lemma_toks_view_push(ret@, tok);
                assert(spec_lex(s, start as int) == lex_cons(
                    TokenV { loc: start as int, kind: TokenKindV::IntLit(value) },
                    spec_lex(s, end),
                ));
                if spec_lex(s, end) is Ok {
                    assert(toks_view(ret@) + (seq![tok@] + spec_lex(s, end)->Ok_0) =~= toks_view(
                        ret@.push(tok),
                    ) + spec_lex(s, end)->Ok_0);
                }
            }
            ret.push(tok);
        } else {
            return Err(LexError::InvalidChar(c));
        }
    }
    let tok = Token::new(pos, TokenKind::Eof);
    proof {
        lemma_toks_view_push(ret@, tok);
        assert(toks_view(ret@) + seq![tok@] =~= toks_view(ret@.push(tok)));
        assert(toks_view(ret@.push(tok)) =~= toks_view(ret@) + spec_lex(s, pos as int)->Ok_0);
    }
    ret.push(tok);
    Ok(ret)
}

} // verus!
