//! Hand-rolled lexer for the guest subset. No eval.

use vstd::prelude::*;
use super::CodeError;
use crate::text::{chars_eq, from_char_range, push_char, push_str, spec_is_whitespace, is_whitespace, to_chars};

verus! {

/// One token of the guest subset.
#[derive(Clone, Debug, PartialEq, Eq)]
pub enum Token {
    Ident(String),
    String(String),
    Number(String),
    True,
    False,
    Null,
    Let,
    Const,
    Return,
    Await,
    LBrace,
    RBrace,
    LBrack,
    RBrack,
    LParen,
    RParen,
    Dot,
    Comma,
    Colon,
    Semi,
    Eq,
    Eof,
}

/// A token with its text as characters.
pub enum TokenView {
    Ident(Seq<char>),
    Str(Seq<char>),
    Number(Seq<char>),
    True,
    False,
    Null,
    Let,
    Const,
    Return,
    Await,
    LBrace,
    RBrace,
    LBrack,
    RBrack,
    LParen,
    RParen,
    Dot,
    Comma,
    Colon,
    Semi,
    Eq,
    Eof,
}

/// The characters a token carries.
pub open spec fn token_view(t: Token) -> TokenView {
    match t {
        Token::Ident(s) => TokenView::Ident(s@),
        Token::String(s) => TokenView::Str(s@),
        Token::Number(s) => TokenView::Number(s@),
        Token::True => TokenView::True,
        Token::False => TokenView::False,
        Token::Null => TokenView::Null,
        Token::Let => TokenView::Let,
        Token::Const => TokenView::Const,
        Token::Return => TokenView::Return,
        Token::Await => TokenView::Await,
        Token::LBrace => TokenView::LBrace,
        Token::RBrace => TokenView::RBrace,
        Token::LBrack => TokenView::LBrack,
        Token::RBrack => TokenView::RBrack,
        Token::LParen => TokenView::LParen,
        Token::RParen => TokenView::RParen,
        Token::Dot => TokenView::Dot,
        Token::Comma => TokenView::Comma,
        Token::Colon => TokenView::Colon,
        Token::Semi => TokenView::Semi,
        Token::Eq => TokenView::Eq,
        Token::Eof => TokenView::Eof,
    }
}

/// The characters of a sequence of tokens.
pub open spec fn tokens_view(ts: Seq<Token>) -> Seq<TokenView> {
    ts.map_values(|t: Token| token_view(t))
}

/// `{c:?}` for a character (quoted, with Rust's escapes).
pub uninterp spec fn char_debug(c: char) -> Seq<char>;

/// `format!("{c:?}")`.
#[verifier::external_body]
fn debug_char(c: char) -> (r: String)
    ensures
        r@ == char_debug(c),
{
    format!("{c:?}")
}

/// First character of an identifier.
pub open spec fn is_ident_start(c: char) -> bool {
    ('a' <= c && c <= 'z') || ('A' <= c && c <= 'Z') || c == '_' || c == '$'
}

/// Later characters of an identifier.
pub open spec fn is_ident_cont(c: char) -> bool {
    is_ident_start(c) || ('0' <= c && c <= '9')
}

/// Characters that continue a number literal.
pub open spec fn is_number_cont(c: char) -> bool {
    ('0' <= c && c <= '9') || c == '.'
}

/// End of the run of identifier characters starting at `i`.
pub open spec fn ident_end(c: Seq<char>, i: int) -> int
    decreases c.len() - i,
{
    if 0 <= i < c.len() && is_ident_cont(c[i]) {
        ident_end(c, i + 1)
    } else {
        i
    }
}

/// End of the run of number characters starting at `i`.
pub open spec fn number_end(c: Seq<char>, i: int) -> int
    decreases c.len() - i,
{
    if 0 <= i < c.len() && is_number_cont(c[i]) {
        number_end(c, i + 1)
    } else {
        i
    }
}

/// Index of the next `\n` at or after `i` (or the end).
pub open spec fn line_end(c: Seq<char>, i: int) -> int
    decreases c.len() - i,
{
    if 0 <= i < c.len() && c[i] != '\n' {
        line_end(c, i + 1)
    } else {
        i
    }
}

/// The character an escape `\x` stands for inside a string literal.
pub open spec fn unescape(c: char) -> char {
    if c == 'n' {
        '\n'
    } else if c == 't' {
        '\t'
    } else if c == 'r' {
        '\r'
    } else {
        c
    }
}

/// Scan a string body from `i` (just after the opening quote): its text and the
/// index after the closing quote.
pub open spec fn scan_string(c: Seq<char>, i: int, acc: Seq<char>) -> Result<(Seq<char>, int), Seq<char>>
    decreases c.len() - i,
{
    if i < 0 || i >= c.len() {
        Err("unterminated string"@)
    } else if c[i] == '"' {
        Ok((acc, i + 1))
    } else if c[i] == '\\' {
        if i + 1 >= c.len() {
            Err("unterminated string escape"@)
        } else {
            scan_string(c, i + 2, acc.push(unescape(c[i + 1])))
        }
    } else {
        scan_string(c, i + 1, acc.push(c[i]))
    }
}

/// The keyword an identifier spells, or the identifier itself.
pub open spec fn keyword(s: Seq<char>) -> TokenView {
    if s == "let"@ {
        TokenView::Let
    } else if s == "const"@ {
        TokenView::Const
    } else if s == "return"@ {
        TokenView::Return
    } else if s == "await"@ {
        TokenView::Await
    } else if s == "true"@ {
        TokenView::True
    } else if s == "false"@ {
        TokenView::False
    } else if s == "null"@ {
        TokenView::Null
    } else {
        TokenView::Ident(s)
    }
}

/// The token that starts at `i` and the index after it.
pub open spec fn spec_one(c: Seq<char>, i: int) -> Result<(TokenView, int), Seq<char>> {
    let ch = c[i];
    if ch == '{' {
        Ok((TokenView::LBrace, i + 1))
    } else if ch == '}' {
        Ok((TokenView::RBrace, i + 1))
    } else if ch == '[' {
        Ok((TokenView::LBrack, i + 1))
    } else if ch == ']' {
        Ok((TokenView::RBrack, i + 1))
    } else if ch == '(' {
        Ok((TokenView::LParen, i + 1))
    } else if ch == ')' {
        Ok((TokenView::RParen, i + 1))
    } else if ch == '.' {
        Ok((TokenView::Dot, i + 1))
    } else if ch == ',' {
        Ok((TokenView::Comma, i + 1))
    } else if ch == ':' {
        Ok((TokenView::Colon, i + 1))
    } else if ch == ';' {
        Ok((TokenView::Semi, i + 1))
    } else if ch == '=' {
        Ok((TokenView::Eq, i + 1))
    } else if ch == '"' {
        match scan_string(c, i + 1, Seq::empty()) {
            Ok((s, j)) => Ok((TokenView::Str(s), j)),
            Err(e) => Err(e),
        }
    } else if ('0' <= ch && ch <= '9') || ch == '-' {
        Ok((TokenView::Number(c.subrange(i, number_end(c, i + 1))), number_end(c, i + 1)))
    } else if is_ident_start(ch) {
        Ok((keyword(c.subrange(i, ident_end(c, i + 1))), ident_end(c, i + 1)))
    } else {
        Err("unexpected character "@ + char_debug(ch))
    }
}

/// Tokens of `c` from index `i` on, ending in `Eof`, or the first error.
pub open spec fn spec_lex(c: Seq<char>, i: int) -> Result<Seq<TokenView>, Seq<char>>
    decreases c.len() - i,
{
    if i < 0 || i >= c.len() {
        Ok(seq![TokenView::Eof])
    } else if spec_is_whitespace(c[i]) {
        spec_lex(c, i + 1)
    } else if c[i] == '/' && i + 1 < c.len() && c[i + 1] == '/' {
        if i < line_end(c, i + 2) <= c.len() {
            spec_lex(c, line_end(c, i + 2))
        } else {
            Ok(seq![TokenView::Eof])
        }
    } else {
        match spec_one(c, i) {
            Err(e) => Err(e),
            Ok((t, j)) => {
                if i < j <= c.len() {
                    match spec_lex(c, j) {
                        Ok(ts) => Ok(seq![t] + ts),
                        Err(e) => Err(e),
                    }
                } else {
                    Ok(seq![TokenView::Eof])
                }
            },
        }
    }
}

/// A word of the guest language: an identifier start at `i` lexes as one token covering the
/// whole identifier run; the token is the keyword or literal the word spells (`let`, `const`,
/// `return`, `await`, `true`, `false`, `null`), and an identifier holding the word exactly
/// when it spells none of them.
pub proof fn law_words_lex_as_keywords(c: Seq<char>, i: int)
    requires
        0 <= i < c.len(),
        is_ident_start(c[i]),
    ensures
        spec_one(c, i) matches Ok((t, e)) && e == ident_end(c, i + 1) && {
            let w = c.subrange(i, e);
            &&& (t is Let <==> w == "let"@)
            &&& (t is Const <==> w == "const"@)
            &&& (t is Return <==> w == "return"@)
            &&& (t is Await <==> w == "await"@)
            &&& (t is True <==> w == "true"@)
            &&& (t is False <==> w == "false"@)
            &&& (t is Null <==> w == "null"@)
            &&& (t is Ident <==> (w != "let"@ && w != "const"@ && w != "return"@ && w != "await"@
                && w != "true"@ && w != "false"@ && w != "null"@))
            &&& (t matches TokenView::Ident(x) ==> x == w)
        },
{
    reveal_strlit("let");
    reveal_strlit("const");
    reveal_strlit("return");
    reveal_strlit("await");
    reveal_strlit("true");
    reveal_strlit("false");
    reveal_strlit("null");
    let e = ident_end(c, i + 1);
    let w = c.subrange(i, e);
    assert("let"@[0] == 'l' && "const"@[0] == 'c' && "return"@[0] == 'r' && "await"@[0] == 'a');
    assert("true"@[0] == 't' && "false"@[0] == 'f' && "null"@[0] == 'n');
    assert("true"@.len() == 4 && "null"@.len() == 4 && "false"@.len() == 5 && "let"@.len() == 3);
    assert("const"@.len() == 5 && "return"@.len() == 6 && "await"@.len() == 5);
}

/// The token list ends in `Eof` and holds no other `Eof`.
pub open spec fn ends_in_eof(ts: Seq<TokenView>) -> bool {
    &&& ts.len() >= 1
    &&& ts.last() is Eof
    &&& forall|k: int| 0 <= k < ts.len() - 1 ==> !(#[trigger] ts[k] is Eof)
}

proof fn lemma_lex_from_ends_in_eof(c: Seq<char>, i: int)
    ensures
        spec_lex(c, i) matches Ok(ts) ==> ends_in_eof(ts),
    decreases c.len() - i,
{
    if i < 0 || i >= c.len() {
    } else if spec_is_whitespace(c[i]) {
        lemma_lex_from_ends_in_eof(c, i + 1);
    } else if c[i] == '/' && i + 1 < c.len() && c[i + 1] == '/' {
        if i < line_end(c, i + 2) <= c.len() {
            lemma_lex_from_ends_in_eof(c, line_end(c, i + 2));
        }
    } else {
        match spec_one(c, i) {
            Err(_) => {},
            Ok((t, j)) => {
                assert(!(t is Eof));
                if i < j <= c.len() {
                    lemma_lex_from_ends_in_eof(c, j);
                    match spec_lex(c, j) {
                        Ok(ts) => {
                            let all = seq![t] + ts;
                            assert forall|k: int| 0 <= k < all.len() - 1 implies !(#[trigger] all[k] is Eof) by {
                                if k > 0 {
                                    assert(all[k] == ts[k - 1]);
                                }
                            }
                            assert(all.last() == ts.last());
                        },
                        Err(_) => {},
                    }
                }
            },
        }
    }
}

/// Lexing either fails or gives tokens that end in exactly one `Eof`, the last.
pub proof fn law_lex_ends_in_eof(source: Seq<char>)
    ensures
        spec_lex(source, 0) matches Ok(ts) ==> ends_in_eof(ts),
{
    lemma_lex_from_ends_in_eof(source, 0);
}

/// `scan_string` only moves forward.
proof fn lemma_scan_string_forward(c: Seq<char>, i: int, acc: Seq<char>)
    ensures
        scan_string(c, i, acc) matches Ok((_, j)) ==> i < j <= c.len(),
    decreases c.len() - i,
{
    if 0 <= i < c.len() && c[i] != '"' {
        if c[i] == '\\' {
            if i + 1 < c.len() {
                lemma_scan_string_forward(c, i + 2, acc.push(unescape(c[i + 1])));
            }
        } else {
            lemma_scan_string_forward(c, i + 1, acc.push(c[i]));
        }
    }
}

/// Run ends stay in bounds and past their start.
proof fn lemma_run_ends(c: Seq<char>, i: int)
    requires
        0 <= i <= c.len(),
    ensures
        i <= ident_end(c, i) <= c.len(),
        i <= number_end(c, i) <= c.len(),
        i <= line_end(c, i) <= c.len(),
    decreases c.len() - i,
{
    if i < c.len() {
        lemma_run_ends(c, i + 1);
    }
}

fn scan_ident_end(c: &[char], start: usize) -> (r: usize)
    requires
        start <= c@.len(),
    ensures
        r as int == ident_end(c@, start as int),
{
    let mut i = start;
    while i < c.len() && (('a' <= c[i] && c[i] <= 'z') || ('A' <= c[i] && c[i] <= 'Z') || c[i] == '_'
        || c[i] == '$' || ('0' <= c[i] && c[i] <= '9'))
        invariant
            start <= i <= c@.len(),
            ident_end(c@, i as int) == ident_end(c@, start as int),
        decreases c.len() - i,
    {
        i += 1;
    }
    i
}

fn scan_number_end(c: &[char], start: usize) -> (r: usize)
    requires
        start <= c@.len(),
    ensures
        r as int == number_end(c@, start as int),
{
    let mut i = start;
    while i < c.len() && (('0' <= c[i] && c[i] <= '9') || c[i] == '.')
        invariant
            start <= i <= c@.len(),
            number_end(c@, i as int) == number_end(c@, start as int),
        decreases c.len() - i,
    {
        i += 1;
    }
    i
}

fn scan_line_end(c: &[char], start: usize) -> (r: usize)
    requires
        start <= c@.len(),
    ensures
        r as int == line_end(c@, start as int),
{
    let mut i = start;
    while i < c.len() && c[i] != '\n'
        invariant
            start <= i <= c@.len(),
            line_end(c@, i as int) == line_end(c@, start as int),
        decreases c.len() - i,
    {
        i += 1;
    }
    i
}

fn lex_string(c: &[char], start: usize) -> (r: Result<(String, usize), CodeError>)
    requires
        start <= c@.len(),
    ensures
        r matches Ok((s, j)) ==> scan_string(c@, start as int, Seq::empty()) == Ok::<(Seq<char>, int), Seq<char>>((s@, j as int)),
        r matches Err(e) ==> scan_string(c@, start as int, Seq::empty()) == Err::<(Seq<char>, int), Seq<char>>(e.0@),
{
    let mut s = String::new();
    let mut i = start;
    while i < c.len()
        invariant
            start <= i,
            c@.len() == c.len(),
            scan_string(c@, start as int, Seq::empty()) == scan_string(c@, i as int, s@),
        decreases c.len() - i,
    {
        let ch = c[i];
        if ch == '"' {
            return Ok((s, i + 1));
        }
        if ch == '\\' {
            if i + 1 >= c.len() {
                return Err(CodeError::new("unterminated string escape"));
            }
            let esc = c[i + 1];
            let u = if esc == 'n' {
                '\n'
            } else if esc == 't' {
                '\t'
            } else if esc == 'r' {
                '\r'
            } else {
                esc
            };
            push_char(&mut s, u);
            i += 2;
        } else {
            push_char(&mut s, ch);
            i += 1;
        }
    }
    Err(CodeError::new("unterminated string"))
}

fn keyword_token(c: &[char], from: usize, to: usize) -> (r: Token)
    requires
        from <= to <= c@.len(),
    ensures
        token_view(r) == keyword(c@.subrange(from as int, to as int)),
{
    let s = from_char_range(c, from, to);
    let w = to_chars(s.as_str());
    if chars_eq(&w, &to_chars("let")) {
        Token::Let
    } else if chars_eq(&w, &to_chars("const")) {
        Token::Const
    } else if chars_eq(&w, &to_chars("return")) {
        Token::Return
    } else if chars_eq(&w, &to_chars("await")) {
        Token::Await
    } else if chars_eq(&w, &to_chars("true")) {
        Token::True
    } else if chars_eq(&w, &to_chars("false")) {
        Token::False
    } else if chars_eq(&w, &to_chars("null")) {
        Token::Null
    } else {
        Token::Ident(s)
    }
}

fn one(c: &[char], i: usize) -> (r: Result<(Token, usize), CodeError>)
    requires
        i < c@.len(),
    ensures
        r matches Ok((t, j)) ==> spec_one(c@, i as int) == Ok::<(TokenView, int), Seq<char>>((token_view(t), j as int)),
        r matches Err(e) ==> spec_one(c@, i as int) == Err::<(TokenView, int), Seq<char>>(e.0@),
{
    let ch = c[i];
    if ch == '{' {
        Ok((Token::LBrace, i + 1))
    } else if ch == '}' {
        Ok((Token::RBrace, i + 1))
    } else if ch == '[' {
        Ok((Token::LBrack, i + 1))
    } else if ch == ']' {
        Ok((Token::RBrack, i + 1))
    } else if ch == '(' {
        Ok((Token::LParen, i + 1))
    } else if ch == ')' {
        Ok((Token::RParen, i + 1))
    } else if ch == '.' {
        Ok((Token::Dot, i + 1))
    } else if ch == ',' {
        Ok((Token::Comma, i + 1))
    } else if ch == ':' {
        Ok((Token::Colon, i + 1))
    } else if ch == ';' {
        Ok((Token::Semi, i + 1))
    } else if ch == '=' {
        Ok((Token::Eq, i + 1))
    } else if ch == '"' {
        match lex_string(c, i + 1) {
            Ok((s, j)) => Ok((Token::String(s), j)),
            Err(e) => Err(e),
        }
    } else if ('0' <= ch && ch <= '9') || ch == '-' {
        let j = scan_number_end(c, i + 1);
        proof {
            lemma_run_ends(c@, i + 1);
        }
        Ok((Token::Number(from_char_range(c, i, j)), j))
    } else if ('a' <= ch && ch <= 'z') || ('A' <= ch && ch <= 'Z') || ch == '_' || ch == '$' {
        let j = scan_ident_end(c, i + 1);
        proof {
            lemma_run_ends(c@, i + 1);
        }
        Ok((keyword_token(c, i, j), j))
    } else {
        let mut m = crate::text::copy_str("unexpected character ");
        let d = debug_char(ch);
        push_str(&mut m, d.as_str());
        Err(CodeError(m))
    }
}

/// Tokenize `source`, ending in `Eof`.
///
/// # Errors
///
/// Unexpected characters and unterminated strings.
pub fn tokenize(source: &str) -> (r: Result<Vec<Token>, CodeError>)
    ensures
        r matches Ok(ts) ==> spec_lex(source@, 0) == Ok::<Seq<TokenView>, Seq<char>>(tokens_view(ts@)),
        r matches Err(e) ==> spec_lex(source@, 0) == Err::<Seq<TokenView>, Seq<char>>(e.0@),
{
    let c = to_chars(source);
    let ghost g = c@;
    let mut out: Vec<Token> = Vec::new();
    let mut i: usize = 0;
    while i < c.len()
        invariant
            g == c@,
            g == source@,
            i <= g.len(),
            spec_lex(g, 0) == (match spec_lex(g, i as int) {
                Ok(rest) => Ok(tokens_view(out@) + rest),
                Err(e) => Err::<Seq<TokenView>, Seq<char>>(e),
            }),
        decreases c.len() - i,
    {
        let ch = c[i];
        if is_whitespace(ch) {
            i += 1;
            continue;
        }
        if ch == '/' && i + 1 < c.len() && c[i + 1] == '/' {
            let j = scan_line_end(&c, i + 2);
            proof {
                lemma_run_ends(g, i + 2);
            }
            i = j;
            continue;
        }
        match one(&c, i) {
            Err(e) => {
                return Err(e);
            },
            Ok((t, j)) => {
                proof {
                    if g[i as int] == '"' {
                        lemma_scan_string_forward(g, i + 1, Seq::empty());
                    }
                    lemma_run_ends(g, i + 1);
                }
                let ghost before = out@;
                out.push(t);
                proof {
                    assert(tokens_view(out@) =~= tokens_view(before).push(token_view(t)));
                    match spec_lex(g, j as int) {
                        Ok(rest) => {
                            assert(tokens_view(out@) + rest =~= tokens_view(before) + (seq![token_view(t)] + rest));
                        },
                        Err(e) => {},
                    }
                }
                i = j;
            },
        }
    }
    let ghost before = out@;
    out.push(Token::Eof);
    proof {
        assert(tokens_view(out@) =~= tokens_view(before) + seq![TokenView::Eof]);
    }
    Ok(out)
}

} // verus!
