//! Recursive-descent parser for the guest subset.
//!
//! Every parsing function takes the tokens and a position and gives back what it parsed
//! with the position after it. Each recursive step first consumes a token, which is what
//! makes the descent end.

use vstd::prelude::*;
use super::CodeError;
use super::ast::{Expr, ExprView, LitView, Stmt, StmtView, expr_is, lit_is, stmt_is};
use super::lex::{Token, TokenView, token_view, tokens_view, tokenize, spec_lex};
use crate::json::JsonValue;
use crate::text::{copy_str, push_str, spec_decimal, decimal};
use crate::search::{all_digits, digits_value};

verus! {

/// `format!("{s:?}")` of a string: quoted, with Rust's escapes.
pub uninterp spec fn str_debug(s: Seq<char>) -> Seq<char>;

/// `format!("{s:?}")`.
#[verifier::external_body]
pub(crate) fn debug_str(s: &str) -> (r: String)
    ensures
        r@ == str_debug(s@),
{
    format!("{s:?}")
}

/// `format!("{t:?}")` of a token.
pub open spec fn token_debug(t: TokenView) -> Seq<char> {
    match t {
        TokenView::Ident(s) => "Ident("@ + str_debug(s) + ")"@,
        TokenView::Str(s) => "String("@ + str_debug(s) + ")"@,
        TokenView::Number(s) => "Number("@ + str_debug(s) + ")"@,
        TokenView::True => "True"@,
        TokenView::False => "False"@,
        TokenView::Null => "Null"@,
        TokenView::Let => "Let"@,
        TokenView::Const => "Const"@,
        TokenView::Return => "Return"@,
        TokenView::Await => "Await"@,
        TokenView::LBrace => "LBrace"@,
        TokenView::RBrace => "RBrace"@,
        TokenView::LBrack => "LBrack"@,
        TokenView::RBrack => "RBrack"@,
        TokenView::LParen => "LParen"@,
        TokenView::RParen => "RParen"@,
        TokenView::Dot => "Dot"@,
        TokenView::Comma => "Comma"@,
        TokenView::Colon => "Colon"@,
        TokenView::Semi => "Semi"@,
        TokenView::Eq => "Eq"@,
        TokenView::Eof => "Eof"@,
    }
}

/// The token at `i` (`Eof` past the end).
pub open spec fn peek(t: Seq<TokenView>, i: int) -> TokenView {
    if 0 <= i < t.len() {
        t[i]
    } else {
        TokenView::Eof
    }
}

/// The position after the token at `i` (`Eof` is never consumed).
pub open spec fn next(t: Seq<TokenView>, i: int) -> int {
    if peek(t, i) is Eof {
        i
    } else {
        i + 1
    }
}

/// What `number_literal` makes of a number token: a decimal integer that fits an `i64`
/// keeps its value (written without leading zeros); anything else is read as an `f64`.
pub open spec fn int_text(raw: Seq<char>) -> Option<Seq<char>> {
    if raw.len() > 0 && raw[0] == '-' && all_digits(raw.drop_first()) && digits_value(raw.drop_first()) <= 0x8000_0000_0000_0000 {
        if digits_value(raw.drop_first()) == 0 {
            Some("0"@)
        } else {
            Some("-"@ + spec_decimal(digits_value(raw.drop_first()) as nat))
        }
    } else if all_digits(raw) && digits_value(raw) <= i64::MAX {
        Some(spec_decimal(digits_value(raw) as nat))
    } else {
        None
    }
}

/// How `serde_json` writes the `f64` that `raw.parse::<f64>()` reads, when it reads one
/// and it is finite.
pub uninterp spec fn float_literal(raw: Seq<char>) -> Option<Seq<char>>;

/// `raw.parse()` as a float, then `serde_json::Number::from_f64`, then `to_string`.
#[verifier::external_body]
fn float_literal_text(raw: &str) -> (r: Option<String>)
    ensures
        crate::catalog::opt_text(r) == float_literal(raw@),
{
    raw.parse().ok().and_then(serde_json::Number::from_f64).map(|n| n.to_string())
}

/// The literal of a number token, or the error message.
pub open spec fn number_lit(raw: Seq<char>) -> Result<LitView, Seq<char>> {
    match int_text(raw) {
        Some(t) => Ok(LitView::Number(t)),
        None => match float_literal(raw) {
            Some(t) => Ok(LitView::Number(t)),
            None => Err("invalid number "@ + raw),
        },
    }
}

/// `expect(token)`: the position after it, or `expected <token>`.
pub open spec fn p_expect(t: Seq<TokenView>, i: int, tok: TokenView) -> Result<int, Seq<char>> {
    if peek(t, i) == tok {
        Ok(next(t, i))
    } else {
        Err("expected "@ + token_debug(tok))
    }
}

/// An optional `;`.
pub open spec fn eat_semi(t: Seq<TokenView>, i: int) -> int {
    if peek(t, i) is Semi {
        next(t, i)
    } else {
        i
    }
}

/// `await expr`, or a call chain.
pub open spec fn p_expr(t: Seq<TokenView>, i: int) -> Result<(ExprView, int), Seq<char>>
    decreases t.len() - i, 5nat,
{
    if i < 0 || i > t.len() {
        Err("out of range"@)
    } else if peek(t, i) is Await {
        match p_expr(t, i + 1) {
            Ok((e, j)) => Ok((ExprView::Await(Box::new(e)), j)),
            Err(m) => Err(m),
        }
    } else {
        p_call(t, i)
    }
}

/// A primary followed by `.name`, `[index]` and `(args)` suffixes.
pub open spec fn p_call(t: Seq<TokenView>, i: int) -> Result<(ExprView, int), Seq<char>>
    decreases t.len() - i, 4nat,
{
    if i < 0 || i > t.len() {
        Err("out of range"@)
    } else {
        match p_primary(t, i) {
            Err(m) => Err(m),
            Ok((e, j)) => if i < j <= t.len() {
                p_suffixes(t, j, e)
            } else {
                Ok((e, j))
            },
        }
    }
}

/// The suffixes after `lhs`, from `i` on.
pub open spec fn p_suffixes(t: Seq<TokenView>, i: int, lhs: ExprView) -> Result<(ExprView, int), Seq<char>>
    decreases t.len() - i, 3nat,
{
    if i < 0 || i > t.len() {
        Err("out of range"@)
    } else {
        match peek(t, i) {
            TokenView::Dot => match peek(t, i + 1) {
                TokenView::Ident(prop) => p_suffixes(t, i + 2, ExprView::Member(Box::new(lhs), prop)),
                _ => Err("expected property name"@),
            },
            TokenView::LBrack => match p_expr(t, i + 1) {
                Err(m) => Err(m),
                Ok((index, j)) => match p_expect(t, j, TokenView::RBrack) {
                    Err(m) => Err(m),
                    Ok(k) => if i < k <= t.len() {
                        p_suffixes(t, k, ExprView::Index(Box::new(lhs), Box::new(index)))
                    } else {
                        Err("out of range"@)
                    },
                },
            },
            TokenView::LParen => match p_args(t, i + 1) {
                Err(m) => Err(m),
                Ok((args, j)) => match p_expect(t, j, TokenView::RParen) {
                    Err(m) => Err(m),
                    Ok(k) => if i < k <= t.len() {
                        p_suffixes(t, k, ExprView::Call(Box::new(lhs), args))
                    } else {
                        Err("out of range"@)
                    },
                },
            },
            _ => Ok((lhs, i)),
        }
    }
}

/// Call arguments: none before `)`, else expressions separated by commas.
pub open spec fn p_args(t: Seq<TokenView>, i: int) -> Result<(Seq<ExprView>, int), Seq<char>>
    decreases t.len() - i, 7nat,
{
    if i < 0 || i > t.len() {
        Err("out of range"@)
    } else if peek(t, i) is RParen {
        Ok((Seq::empty(), i))
    } else {
        p_arg_list(t, i, Seq::empty())
    }
}

/// The arguments from `i` on, after those already read.
pub open spec fn p_arg_list(t: Seq<TokenView>, i: int, acc: Seq<ExprView>) -> Result<(Seq<ExprView>, int), Seq<char>>
    decreases t.len() - i, 6nat,
{
    if i < 0 || i > t.len() {
        Err("out of range"@)
    } else {
        match p_expr(t, i) {
            Err(m) => Err(m),
            Ok((e, j)) => if peek(t, j) is Comma && i < j + 1 <= t.len() {
                p_arg_list(t, j + 1, acc.push(e))
            } else {
                Ok((acc.push(e), j))
            },
        }
    }
}

/// A primary: identifier, literal, object, array or parenthesized expression.
pub open spec fn p_primary(t: Seq<TokenView>, i: int) -> Result<(ExprView, int), Seq<char>>
    decreases t.len() - i, 2nat,
{
    if i < 0 || i > t.len() {
        Err("out of range"@)
    } else {
        let j = next(t, i);
        match peek(t, i) {
            TokenView::Ident(name) => Ok((ExprView::Ident(name), j)),
            TokenView::Str(s) => Ok((ExprView::Literal(LitView::Text(s)), j)),
            TokenView::Number(n) => match number_lit(n) {
                Ok(l) => Ok((ExprView::Literal(l), j)),
                Err(m) => Err(m),
            },
            TokenView::True => Ok((ExprView::Literal(LitView::Bool(true)), j)),
            TokenView::False => Ok((ExprView::Literal(LitView::Bool(false)), j)),
            TokenView::Null => Ok((ExprView::Literal(LitView::Null), j)),
            TokenView::LBrace => p_object(t, i + 1, Seq::empty()),
            TokenView::LBrack => p_array(t, i + 1, Seq::empty()),
            TokenView::LParen => match p_expr(t, i + 1) {
                Err(m) => Err(m),
                Ok((inner, k)) => match p_expect(t, k, TokenView::RParen) {
                    Err(m) => Err(m),
                    Ok(l) => Ok((inner, l)),
                },
            },
            other => Err("unexpected token "@ + token_debug(other)),
        }
    }
}

/// Object members from `i` on, after those already read, up to the closing `}`.
pub open spec fn p_object(t: Seq<TokenView>, i: int, acc: Seq<(Seq<char>, ExprView)>) -> Result<(ExprView, int), Seq<char>>
    decreases t.len() - i, 1nat,
{
    if i < 0 || i > t.len() {
        Err("out of range"@)
    } else if peek(t, i) is RBrace || peek(t, i) is Eof {
        match p_expect(t, i, TokenView::RBrace) {
            Err(m) => Err(m),
            Ok(k) => Ok((ExprView::Object(acc), k)),
        }
    } else {
        let key = match peek(t, i) {
            TokenView::Ident(s) => Ok(s),
            TokenView::Str(s) => Ok(s),
            other => Err("expected object key, got "@ + token_debug(other)),
        };
        match key {
            Err(m) => Err(m),
            Ok(k) => match p_expect(t, i + 1, TokenView::Colon) {
                Err(m) => Err(m),
                Ok(c) => match p_expr(t, c) {
                    Err(m) => Err(m),
                    Ok((v, j)) => if peek(t, j) is Comma && i < j + 1 <= t.len() {
                        p_object(t, j + 1, acc.push((k, v)))
                    } else {
                        match p_expect(t, j, TokenView::RBrace) {
                            Err(m) => Err(m),
                            Ok(e) => Ok((ExprView::Object(acc.push((k, v))), e)),
                        }
                    },
                },
            },
        }
    }
}

/// Array items from `i` on, after those already read, up to the closing `]`.
pub open spec fn p_array(t: Seq<TokenView>, i: int, acc: Seq<ExprView>) -> Result<(ExprView, int), Seq<char>>
    decreases t.len() - i, 6nat,
{
    if i < 0 || i > t.len() {
        Err("out of range"@)
    } else if peek(t, i) is RBrack || peek(t, i) is Eof {
        match p_expect(t, i, TokenView::RBrack) {
            Err(m) => Err(m),
            Ok(k) => Ok((ExprView::Array(acc), k)),
        }
    } else {
        match p_expr(t, i) {
            Err(m) => Err(m),
            Ok((v, j)) => if peek(t, j) is Comma && i < j + 1 <= t.len() {
                p_array(t, j + 1, acc.push(v))
            } else {
                match p_expect(t, j, TokenView::RBrack) {
                    Err(m) => Err(m),
                    Ok(e) => Ok((ExprView::Array(acc.push(v)), e)),
                }
            },
        }
    }
}

/// One statement: a binding, a `return`, or an expression; each may end in `;`.
pub open spec fn p_stmt(t: Seq<TokenView>, i: int) -> Result<(StmtView, int), Seq<char>> {
    match peek(t, i) {
        TokenView::Let | TokenView::Const => match peek(t, next(t, i)) {
            TokenView::Ident(name) => match p_expect(t, next(t, next(t, i)), TokenView::Eq) {
                Err(m) => Err(m),
                Ok(k) => match p_expr(t, k) {
                    Err(m) => Err(m),
                    Ok((e, j)) => Ok((StmtView::Let(name, e), eat_semi(t, j))),
                },
            },
            _ => Err("expected binding name"@),
        },
        TokenView::Return => match p_expr(t, next(t, i)) {
            Err(m) => Err(m),
            Ok((e, j)) => Ok((StmtView::Return(e), eat_semi(t, j))),
        },
        _ => match p_expr(t, i) {
            Err(m) => Err(m),
            Ok((e, j)) => Ok((StmtView::Expr(e), eat_semi(t, j))),
        },
    }
}

/// Statements from `i` to `Eof`, after those already read; more than 256 is an error.
pub open spec fn p_program(t: Seq<TokenView>, i: int, acc: Seq<StmtView>) -> Result<Seq<StmtView>, Seq<char>>
    decreases t.len() - i,
{
    if i < 0 || i > t.len() || peek(t, i) is Eof {
        Ok(acc)
    } else {
        match p_stmt(t, i) {
            Err(m) => Err(m),
            Ok((s, j)) => if acc.len() + 1 > 256 {
                Err("too many statements"@)
            } else if i < j <= t.len() {
                p_program(t, j, acc.push(s))
            } else {
                Ok(acc.push(s))
            },
        }
    }
}

/// What `parse` makes of `source`: its statements, or the error message.
pub open spec fn spec_parse(source: Seq<char>) -> Result<Seq<StmtView>, Seq<char>> {
    match spec_lex(source, 0) {
        Err(m) => Err(m),
        Ok(t) => p_program(t, 0, Seq::empty()),
    }
}


fn token_copy(x: &Token) -> (r: Token)
    ensures
        token_view(r) == token_view(*x),
{
    match x {
        Token::Ident(s) => Token::Ident(copy_str(s.as_str())),
        Token::String(s) => Token::String(copy_str(s.as_str())),
        Token::Number(s) => Token::Number(copy_str(s.as_str())),
        Token::True => Token::True,
        Token::False => Token::False,
        Token::Null => Token::Null,
        Token::Let => Token::Let,
        Token::Const => Token::Const,
        Token::Return => Token::Return,
        Token::Await => Token::Await,
        Token::LBrace => Token::LBrace,
        Token::RBrace => Token::RBrace,
        Token::LBrack => Token::LBrack,
        Token::RBrack => Token::RBrack,
        Token::LParen => Token::LParen,
        Token::RParen => Token::RParen,
        Token::Dot => Token::Dot,
        Token::Comma => Token::Comma,
        Token::Colon => Token::Colon,
        Token::Semi => Token::Semi,
        Token::Eq => Token::Eq,
        Token::Eof => Token::Eof,
    }
}

/// The token at `i` (`Eof` past the end).
fn peek_tok(t: &Vec<Token>, i: usize) -> (r: Token)
    ensures
        token_view(r) == peek(tokens_view(t@), i as int),
{
    if i < t.len() {
        token_copy(&t[i])
    } else {
        Token::Eof
    }
}

/// The position after the token at `i`.
fn next_pos(t: &Vec<Token>, i: usize) -> (r: usize)
    requires
        i <= t@.len(),
    ensures
        r as int == next(tokens_view(t@), i as int),
        r <= t@.len(),
{
    if i < t.len() && !matches!(t[i], Token::Eof) {
        i + 1
    } else {
        i
    }
}

fn token_debug_exec(x: &Token) -> (r: String)
    ensures
        r@ == token_debug(token_view(*x)),
{
    match x {
        Token::Ident(s) => {
            let mut o = copy_str("Ident(");
            let d = debug_str(s.as_str());
            push_str(&mut o, d.as_str());
            push_str(&mut o, ")");
            o
        },
        Token::String(s) => {
            let mut o = copy_str("String(");
            let d = debug_str(s.as_str());
            push_str(&mut o, d.as_str());
            push_str(&mut o, ")");
            o
        },
        Token::Number(s) => {
            let mut o = copy_str("Number(");
            let d = debug_str(s.as_str());
            push_str(&mut o, d.as_str());
            push_str(&mut o, ")");
            o
        },
        Token::True => copy_str("True"),
        Token::False => copy_str("False"),
        Token::Null => copy_str("Null"),
        Token::Let => copy_str("Let"),
        Token::Const => copy_str("Const"),
        Token::Return => copy_str("Return"),
        Token::Await => copy_str("Await"),
        Token::LBrace => copy_str("LBrace"),
        Token::RBrace => copy_str("RBrace"),
        Token::LBrack => copy_str("LBrack"),
        Token::RBrack => copy_str("RBrack"),
        Token::LParen => copy_str("LParen"),
        Token::RParen => copy_str("RParen"),
        Token::Dot => copy_str("Dot"),
        Token::Comma => copy_str("Comma"),
        Token::Colon => copy_str("Colon"),
        Token::Semi => copy_str("Semi"),
        Token::Eq => copy_str("Eq"),
        Token::Eof => copy_str("Eof"),
    }
}

fn same_kind(a: &Token, b: &Token) -> (r: bool)
    requires
        !(token_view(*b) is Ident) && !(token_view(*b) is Str) && !(token_view(*b) is Number),
    ensures
        r == (token_view(*a) == token_view(*b)),
{
    match (a, b) {
        (Token::True, Token::True) | (Token::False, Token::False) | (Token::Null, Token::Null) | (Token::Let, Token::Let)
        | (Token::Const, Token::Const) | (Token::Return, Token::Return) | (Token::Await, Token::Await) | (
            Token::LBrace,
            Token::LBrace,
        ) | (Token::RBrace, Token::RBrace) | (Token::LBrack, Token::LBrack) | (Token::RBrack, Token::RBrack) | (
            Token::LParen,
            Token::LParen,
        ) | (Token::RParen, Token::RParen) | (Token::Dot, Token::Dot) | (Token::Comma, Token::Comma) | (
            Token::Colon,
            Token::Colon,
        ) | (Token::Semi, Token::Semi) | (Token::Eq, Token::Eq) | (Token::Eof, Token::Eof) => true,
        _ => false,
    }
}

/// `expect(token)` for a punctuation or keyword token.
fn expect(t: &Vec<Token>, i: usize, tok: Token) -> (r: Result<usize, CodeError>)
    requires
        i <= t@.len(),
        !(token_view(tok) is Ident) && !(token_view(tok) is Str) && !(token_view(tok) is Number),
    ensures
        match p_expect(tokens_view(t@), i as int, token_view(tok)) {
            Ok(k) => r matches Ok(j) && j as int == k && j <= t@.len(),
            Err(m) => r matches Err(e) && e.0@ == m,
        },
{
    let cur = peek_tok(t, i);
    if same_kind(&cur, &tok) {
        Ok(next_pos(t, i))
    } else {
        let mut m = copy_str("expected ");
        let d = token_debug_exec(&tok);
        push_str(&mut m, d.as_str());
        Err(CodeError(m))
    }
}

fn digits_text(c: &Vec<char>, from: usize) -> (r: Option<u64>)
    requires
        from <= c@.len(),
    ensures
        r == (if all_digits(c@.skip(from as int)) && digits_value(c@.skip(from as int)) <= u64::MAX {
            Some(digits_value(c@.skip(from as int)) as u64)
        } else {
            None
        }),
{
    let s = crate::text::from_chars(crate::text::slice_vec(c.as_slice(), from, c.len()).as_slice());
    assert(s@ =~= c@.skip(from as int));
    crate::search::parse_digits(s.as_str())
}

/// The literal of a number token.
fn number_literal(raw: &str) -> (r: Result<JsonValue, CodeError>)
    ensures
        match number_lit(raw@) {
            Ok(l) => r matches Ok(v) && lit_is(v, l),
            Err(m) => r matches Err(e) && e.0@ == m,
        },
{
    let c = crate::text::to_chars(raw);
    proof {
        crate::catalog::yaml::lemma_digits_nonneg(c@);
        crate::catalog::yaml::lemma_digits_nonneg(c@.drop_first());
    }
    if c.len() > 0 && c[0] == '-' {
        assert(c@.skip(1) =~= c@.drop_first());
        match digits_text(&c, 1) {
            Some(v) => {
                if v <= 0x8000_0000_0000_0000 {
                    if v == 0 {
                        return Ok(JsonValue::Number(copy_str("0")));
                    }
                    let mut s = copy_str("-");
                    let d = decimal(v);
                    push_str(&mut s, d.as_str());
                    return Ok(JsonValue::Number(s));
                }
            },
            None => {},
        }
    } else {
        assert(c@.skip(0) =~= c@);
        match digits_text(&c, 0) {
            Some(v) => {
                if v <= 0x7fff_ffff_ffff_ffff {
                    return Ok(JsonValue::Number(decimal(v)));
                }
            },
            None => {},
        }
    }
    match float_literal_text(raw) {
        Some(t) => Ok(JsonValue::Number(t)),
        None => {
            let mut m = copy_str("invalid number ");
            push_str(&mut m, raw);
            Err(CodeError(m))
        },
    }
}


/// Expressions matching their views one for one.
pub open spec fn exprs_are(es: Seq<Expr>, vs: Seq<ExprView>) -> bool {
    es.len() == vs.len() && forall|i: int| 0 <= i < es.len() ==> expr_is(#[trigger] es[i], vs[i])
}

/// Object members matching their views one for one.
pub open spec fn fields_are(fs: Seq<(String, Expr)>, vs: Seq<(Seq<char>, ExprView)>) -> bool {
    fs.len() == vs.len() && forall|i: int| 0 <= i < fs.len() ==> (#[trigger] fs[i]).0@ == vs[i].0 && expr_is(fs[i].1, vs[i].1)
}

/// The outcome of an expression parser matches the spec outcome.
pub open spec fn expr_outcome(r: Result<(Expr, usize), CodeError>, s: Result<(ExprView, int), Seq<char>>) -> bool {
    match s {
        Ok((v, j)) => r matches Ok((e, k)) && k as int == j && expr_is(e, v),
        Err(m) => r matches Err(err) && err.0@ == m,
    }
}

fn parse_expr(t: &Vec<Token>, i: usize) -> (r: Result<(Expr, usize), CodeError>)
    requires
        i <= t@.len(),
    ensures
        expr_outcome(r, p_expr(tokens_view(t@), i as int)),
        r matches Ok((_, k)) ==> i < k <= t@.len(),
    decreases t@.len() - i, 5nat,
{
    let n = t.len();
    assert(tokens_view(t@).len() == n);
    let cur = peek_tok(t, i);
    if let Token::Await = cur {
        let (e, j) = parse_expr(t, i + 1)?;
        return Ok((Expr::Await(Box::new(e)), j));
    }
    parse_call(t, i)
}

fn parse_call(t: &Vec<Token>, i: usize) -> (r: Result<(Expr, usize), CodeError>)
    requires
        i <= t@.len(),
    ensures
        expr_outcome(r, p_call(tokens_view(t@), i as int)),
        r matches Ok((_, k)) ==> i < k <= t@.len(),
    decreases t@.len() - i, 4nat,
{
    let ghost tv = tokens_view(t@);
    let (e, j) = parse_primary(t, i)?;
    let ghost v = p_primary(tv, i as int)->Ok_0.0;
    parse_suffixes(t, j, e, Ghost(v))
}

fn parse_suffixes(t: &Vec<Token>, i: usize, lhs: Expr, Ghost(lv): Ghost<ExprView>) -> (r: Result<(Expr, usize), CodeError>)
    requires
        i <= t@.len(),
        expr_is(lhs, lv),
    ensures
        expr_outcome(r, p_suffixes(tokens_view(t@), i as int, lv)),
        r matches Ok((_, k)) ==> i <= k <= t@.len(),
    decreases t@.len() - i, 3nat,
{
    let n = t.len();
    assert(tokens_view(t@).len() == n);
    let ghost tv = tokens_view(t@);
    let cur = peek_tok(t, i);
    match cur {
        Token::Dot => {
            match peek_tok(t, i + 1) {
                Token::Ident(prop) => {
                    let ghost pv = prop@;
                    let m = Expr::Member { object: Box::new(lhs), prop };
                    parse_suffixes(t, i + 2, m, Ghost(ExprView::Member(Box::new(lv), pv)))
                },
                _ => Err(CodeError::new("expected property name")),
            }
        },
        Token::LBrack => {
            let (index, j) = parse_expr(t, i + 1)?;
            let ghost iv = p_expr(tv, i + 1)->Ok_0.0;
            let k = expect(t, j, Token::RBrack)?;
            let m = Expr::Index { object: Box::new(lhs), index: Box::new(index) };
            parse_suffixes(t, k, m, Ghost(ExprView::Index(Box::new(lv), Box::new(iv))))
        },
        Token::LParen => {
            let (args, j) = parse_args(t, i + 1)?;
            let ghost av = p_args(tv, i + 1)->Ok_0.0;
            let k = expect(t, j, Token::RParen)?;
            let m = Expr::Call { callee: Box::new(lhs), args };
            parse_suffixes(t, k, m, Ghost(ExprView::Call(Box::new(lv), av)))
        },
        _ => Ok((lhs, i)),
    }
}

fn parse_args(t: &Vec<Token>, i: usize) -> (r: Result<(Vec<Expr>, usize), CodeError>)
    requires
        i <= t@.len(),
    ensures
        match p_args(tokens_view(t@), i as int) {
            Ok((vs, j)) => r matches Ok((es, k)) && k as int == j && exprs_are(es@, vs),
            Err(m) => r matches Err(err) && err.0@ == m,
        },
        r matches Ok((_, k)) ==> i <= k <= t@.len(),
    decreases t@.len() - i, 7nat,
{
    if let Token::RParen = peek_tok(t, i) {
        return Ok((Vec::new(), i));
    }
    parse_arg_list(t, i, Vec::new(), Ghost(Seq::empty()))
}

fn parse_arg_list(t: &Vec<Token>, i: usize, acc: Vec<Expr>, Ghost(av): Ghost<Seq<ExprView>>) -> (r: Result<(Vec<Expr>, usize), CodeError>)
    requires
        i <= t@.len(),
        exprs_are(acc@, av),
    ensures
        match p_arg_list(tokens_view(t@), i as int, av) {
            Ok((vs, j)) => r matches Ok((es, k)) && k as int == j && exprs_are(es@, vs),
            Err(m) => r matches Err(err) && err.0@ == m,
        },
        r matches Ok((_, k)) ==> i <= k <= t@.len(),
    decreases t@.len() - i, 6nat,
{
    let n = t.len();
    assert(tokens_view(t@).len() == n);
    let ghost tv = tokens_view(t@);
    let (e, j) = parse_expr(t, i)?;
    let ghost ev = p_expr(tv, i as int)->Ok_0.0;
    let mut acc = acc;
    acc.push(e);
    assert(exprs_are(acc@, av.push(ev)));
    if let Token::Comma = peek_tok(t, j) {
        parse_arg_list(t, j + 1, acc, Ghost(av.push(ev)))
    } else {
        Ok((acc, j))
    }
}

fn parse_primary(t: &Vec<Token>, i: usize) -> (r: Result<(Expr, usize), CodeError>)
    requires
        i <= t@.len(),
    ensures
        expr_outcome(r, p_primary(tokens_view(t@), i as int)),
        r matches Ok((_, k)) ==> i < k <= t@.len(),
    decreases t@.len() - i, 2nat,
{
    let n = t.len();
    assert(tokens_view(t@).len() == n);
    let ghost tv = tokens_view(t@);
    let cur = peek_tok(t, i);
    let j = next_pos(t, i);
    match cur {
        Token::Ident(name) => Ok((Expr::Ident(name), j)),
        Token::String(s) => Ok((Expr::Literal(JsonValue::Text(s)), j)),
        Token::Number(n) => {
            let v = number_literal(n.as_str())?;
            Ok((Expr::Literal(v), j))
        },
        Token::True => Ok((Expr::Literal(JsonValue::Bool(true)), j)),
        Token::False => Ok((Expr::Literal(JsonValue::Bool(false)), j)),
        Token::Null => Ok((Expr::Literal(JsonValue::Null), j)),
        Token::LBrace => parse_object(t, i + 1, Vec::new(), Ghost(Seq::empty())),
        Token::LBrack => parse_array(t, i + 1, Vec::new(), Ghost(Seq::empty())),
        Token::LParen => {
            let (inner, k) = parse_expr(t, i + 1)?;
            let l = expect(t, k, Token::RParen)?;
            Ok((inner, l))
        },
        other => {
            let mut m = copy_str("unexpected token ");
            let d = token_debug_exec(&other);
            push_str(&mut m, d.as_str());
            Err(CodeError(m))
        },
    }
}

fn parse_object(t: &Vec<Token>, i: usize, acc: Vec<(String, Expr)>, Ghost(av): Ghost<Seq<(Seq<char>, ExprView)>>) -> (r: Result<(Expr, usize), CodeError>)
    requires
        0 < i <= t@.len(),
        fields_are(acc@, av),
    ensures
        expr_outcome(r, p_object(tokens_view(t@), i as int, av)),
        r matches Ok((_, k)) ==> i <= k <= t@.len(),
    decreases t@.len() - i, 1nat,
{
    let n = t.len();
    assert(tokens_view(t@).len() == n);
    let ghost tv = tokens_view(t@);
    let cur = peek_tok(t, i);
    if matches!(cur, Token::RBrace) || matches!(cur, Token::Eof) {
        let k = expect(t, i, Token::RBrace)?;
        return Ok((Expr::Object(acc), k));
    }
    let key = match cur {
        Token::Ident(s) => s,
        Token::String(s) => s,
        other => {
            let mut m = copy_str("expected object key, got ");
            let d = token_debug_exec(&other);
            push_str(&mut m, d.as_str());
            return Err(CodeError(m));
        },
    };
    let ghost kv = key@;
    let c = expect(t, i + 1, Token::Colon)?;
    let (v, j) = parse_expr(t, c)?;
    let ghost vv = p_expr(tv, c as int)->Ok_0.0;
    let mut acc = acc;
    acc.push((key, v));
    assert(fields_are(acc@, av.push((kv, vv))));
    if let Token::Comma = peek_tok(t, j) {
        parse_object(t, j + 1, acc, Ghost(av.push((kv, vv))))
    } else {
        let e = expect(t, j, Token::RBrace)?;
        Ok((Expr::Object(acc), e))
    }
}

fn parse_array(t: &Vec<Token>, i: usize, acc: Vec<Expr>, Ghost(av): Ghost<Seq<ExprView>>) -> (r: Result<(Expr, usize), CodeError>)
    requires
        0 < i <= t@.len(),
        exprs_are(acc@, av),
    ensures
        expr_outcome(r, p_array(tokens_view(t@), i as int, av)),
        r matches Ok((_, k)) ==> i <= k <= t@.len(),
    decreases t@.len() - i, 6nat,
{
    let n = t.len();
    assert(tokens_view(t@).len() == n);
    let ghost tv = tokens_view(t@);
    let cur = peek_tok(t, i);
    if matches!(cur, Token::RBrack) || matches!(cur, Token::Eof) {
        let k = expect(t, i, Token::RBrack)?;
        return Ok((Expr::Array(acc), k));
    }
    let (v, j) = parse_expr(t, i)?;
    let ghost vv = p_expr(tv, i as int)->Ok_0.0;
    let mut acc = acc;
    acc.push(v);
    assert(exprs_are(acc@, av.push(vv)));
    if let Token::Comma = peek_tok(t, j) {
        parse_array(t, j + 1, acc, Ghost(av.push(vv)))
    } else {
        let e = expect(t, j, Token::RBrack)?;
        Ok((Expr::Array(acc), e))
    }
}


fn eat_semi_exec(t: &Vec<Token>, i: usize) -> (r: usize)
    requires
        i <= t@.len(),
    ensures
        r as int == eat_semi(tokens_view(t@), i as int),
        i <= r <= t@.len(),
{
    if let Token::Semi = peek_tok(t, i) {
        next_pos(t, i)
    } else {
        i
    }
}

fn parse_stmt(t: &Vec<Token>, i: usize) -> (r: Result<(Stmt, usize), CodeError>)
    requires
        i <= t@.len(),
    ensures
        match p_stmt(tokens_view(t@), i as int) {
            Ok((v, j)) => r matches Ok((s, k)) && k as int == j && stmt_is(s, v),
            Err(m) => r matches Err(err) && err.0@ == m,
        },
        r matches Ok((_, k)) ==> i < k <= t@.len(),
{
    let ghost tv = tokens_view(t@);
    let cur = peek_tok(t, i);
    match cur {
        Token::Let | Token::Const => {
            let a = next_pos(t, i);
            match peek_tok(t, a) {
                Token::Ident(name) => {
                    let b = next_pos(t, a);
                    let k = expect(t, b, Token::Eq)?;
                    let (e, j) = parse_expr(t, k)?;
                    Ok((Stmt::Let { name, expr: e }, eat_semi_exec(t, j)))
                },
                _ => Err(CodeError::new("expected binding name")),
            }
        },
        Token::Return => {
            let a = next_pos(t, i);
            let (e, j) = parse_expr(t, a)?;
            Ok((Stmt::Return(e), eat_semi_exec(t, j)))
        },
        _ => {
            let (e, j) = parse_expr(t, i)?;
            Ok((Stmt::Expr(e), eat_semi_exec(t, j)))
        },
    }
}

/// Statements matching their views one for one.
pub open spec fn stmts_are(ss: Seq<Stmt>, vs: Seq<StmtView>) -> bool {
    ss.len() == vs.len() && forall|i: int| 0 <= i < ss.len() ==> stmt_is(#[trigger] ss[i], vs[i])
}

/// Parse `source` into statements.
///
/// # Errors
///
/// Lexer or grammar errors, or more than 256 statements.
pub fn parse(source: &str) -> (r: Result<Vec<Stmt>, CodeError>)
    ensures
        match spec_parse(source@) {
            Ok(vs) => r matches Ok(ss) && stmts_are(ss@, vs),
            Err(m) => r matches Err(e) && e.0@ == m,
        },
{
    let t = tokenize(source)?;
    let ghost tv = tokens_view(t@);
    let n = t.len();
    let mut out: Vec<Stmt> = Vec::new();
    let ghost mut acc: Seq<StmtView> = Seq::empty();
    let mut i: usize = 0;
    while !matches!(peek_tok(&t, i), Token::Eof)
        invariant
            tv == tokens_view(t@),
            spec_lex(source@, 0) == Ok::<Seq<TokenView>, Seq<char>>(tv),
            n == t@.len(),
            i <= n,
            stmts_are(out@, acc),
            acc.len() <= 256,
            p_program(tv, 0, Seq::empty()) == p_program(tv, i as int, acc),
        decreases n - i,
    {
        let (s, j) = parse_stmt(&t, i)?;
        let ghost sv = p_stmt(tv, i as int)->Ok_0.0;
        out.push(s);
        if out.len() > 256 {
            return Err(CodeError::new("too many statements"));
        }
        proof {
            acc = acc.push(sv);
        }
        i = j;
    }
    Ok(out)
}

} // verus!
