//! Strip TypeScript type syntax so an isolate can eval model-written code: annotations,
//! `as` / `satisfies`, generics on calls, `interface` / `type` declarations. Invalid
//! leftover syntax is rejected so callers get a parse error here instead of
//! `Unexpected token ':'`.
//!
//! The scanner works on the characters of the source by position. Each scanning routine has a
//! specification function of the same shape; the public entry point is stated over
//! `spec_strip`, which applies `spec_step` from the start of the source to its end.

use vstd::prelude::*;
use super::CodeError;
use crate::text::{
    find_char, find_char_from, find_from, find_str_from, has_at, ident_len, is_ident,
    is_whitespace, lead_ws, push_range, spec_has_at, spec_is_ident, spec_is_whitespace,
    spec_trim_start, starts_with_chars, to_chars, trail_ws, trim_start_chars,
};

verus! {

/// Why stripping failed.
#[derive(Clone, Copy, Debug, PartialEq, Eq, Structural)]
pub enum StripFail {
    /// `const =` / `let =` / `var =` with no binding.
    BareAssignment,
    /// A string or template literal that never closes.
    UnterminatedString,
    /// A type construct that does not start with its opening delimiter.
    ExpectedDelimiter,
    /// A type construct whose closing delimiter never comes.
    UnclosedType,
    /// `interface` not followed by a body.
    InvalidInterface,
    /// `type X` not followed by `=`.
    InvalidTypeAlias,
}

impl StripFail {
    /// The message the error carries.
    pub open spec fn spec_message(self) -> Seq<char> {
        match self {
            StripFail::BareAssignment => "invalid TypeScript/JavaScript syntax"@,
            StripFail::UnterminatedString => "unterminated string"@,
            StripFail::ExpectedDelimiter => "expected type delimiter"@,
            StripFail::UnclosedType => "unclosed type construct"@,
            StripFail::InvalidInterface => "invalid interface declaration"@,
            StripFail::InvalidTypeAlias => "invalid type alias"@,
        }
    }

    /// The message the error carries.
    pub fn message(&self) -> (r: &'static str)
        ensures
            r@ == self.spec_message(),
    {
        match self {
            StripFail::BareAssignment => "invalid TypeScript/JavaScript syntax",
            StripFail::UnterminatedString => "unterminated string",
            StripFail::ExpectedDelimiter => "expected type delimiter",
            StripFail::UnclosedType => "unclosed type construct",
            StripFail::InvalidInterface => "invalid interface declaration",
            StripFail::InvalidTypeAlias => "invalid type alias",
        }
    }
}

// ---------------------------------------------------------------- specification

/// A character that opens a string or template literal.
pub open spec fn is_quote(ch: char) -> bool {
    ch == '\'' || ch == '"' || ch == '`'
}

/// Scanning the body of a literal opened by `q`, from `i`: the position just after its
/// closing quote, or `None` when it never closes. Backslash escapes the next character;
/// in a template, `${` opens an expression scanned by `tmpl_scan`.
pub open spec fn str_scan(c: Seq<char>, q: char, i: int) -> Option<int>
    decreases c.len() - i, 0int,
{
    if i < 0 || i >= c.len() {
        None
    } else if c[i] == '\\' && i + 1 < c.len() {
        str_scan(c, q, i + 2)
    } else if q == '`' && c[i] == '$' && i + 1 < c.len() && c[i + 1] == '{' {
        tmpl_scan(c, q, i + 2, 1)
    } else if c[i] == q {
        Some(i + 1)
    } else {
        str_scan(c, q, i + 1)
    }
}

/// Scanning a template expression at brace depth `depth`, then the rest of the template.
/// Nested literals are skipped whole.
pub open spec fn tmpl_scan(c: Seq<char>, q: char, i: int, depth: nat) -> Option<int>
    decreases c.len() - i, 1int,
{
    if 0 <= i < c.len() && depth > 0 {
        if is_quote(c[i]) {
            match str_scan(c, c[i], i + 1) {
                Some(n) => if i < n <= c.len() {
                    tmpl_scan(c, q, n, depth)
                } else {
                    None
                },
                None => None,
            }
        } else if c[i] == '{' {
            tmpl_scan(c, q, i + 1, depth + 1)
        } else if c[i] == '}' {
            tmpl_scan(c, q, i + 1, (depth - 1) as nat)
        } else {
            tmpl_scan(c, q, i + 1, depth)
        }
    } else {
        str_scan(c, q, i)
    }
}

/// The literal starting at `start`: the position after it.
pub open spec fn take_string(c: Seq<char>, start: int) -> Option<int> {
    str_scan(c, c[start], start + 1)
}

/// Scanning for the `close` that brings `depth` open delimiters back to zero; literals are
/// skipped whole.
pub open spec fn bal_scan(c: Seq<char>, open: char, close: char, i: int, depth: nat) -> Result<
    int,
    StripFail,
>
    decreases c.len() - i,
{
    if i < 0 || i >= c.len() {
        Err(StripFail::UnclosedType)
    } else if is_quote(c[i]) {
        match str_scan(c, c[i], i + 1) {
            Some(n) => if i < n <= c.len() {
                bal_scan(c, open, close, n, depth)
            } else {
                Err(StripFail::UnterminatedString)
            },
            None => Err(StripFail::UnterminatedString),
        }
    } else if c[i] == open {
        bal_scan(c, open, close, i + 1, depth + 1)
    } else if c[i] == close {
        if depth <= 1 {
            Ok(i + 1)
        } else {
            bal_scan(c, open, close, i + 1, (depth - 1) as nat)
        }
    } else {
        bal_scan(c, open, close, i + 1, depth)
    }
}

/// A balanced `open ... close` construct at `start`: the position after it.
pub open spec fn skip_balanced(c: Seq<char>, start: int, open: char, close: char) -> Result<
    int,
    StripFail,
> {
    if 0 <= start < c.len() && c[start] == open {
        bal_scan(c, open, close, start + 1, 1)
    } else {
        Err(StripFail::ExpectedDelimiter)
    }
}

/// The first position at or after `i` that is not whitespace.
pub open spec fn skip_ws(c: Seq<char>, i: int) -> int {
    if 0 <= i < c.len() {
        i + lead_ws(c.skip(i))
    } else {
        i
    }
}

/// The first position at or after `i` that is not an identifier character.
pub open spec fn skip_ident(c: Seq<char>, i: int) -> int {
    if 0 <= i < c.len() {
        i + ident_len(c.skip(i))
    } else {
        i
    }
}

/// Whether position `i` holds `ch`.
pub open spec fn char_at(c: Seq<char>, i: int, ch: char) -> bool {
    0 <= i < c.len() && c[i] == ch
}

/// The last character before `i` that is not whitespace.
pub open spec fn prev_code(c: Seq<char>, i: int) -> Option<char> {
    let t = c.take(i);
    if trail_ws(t) < t.len() {
        Some(t[t.len() - trail_ws(t) - 1])
    } else {
        None
    }
}

/// Whether `w` stands at `i` as a whole word.
pub open spec fn is_word_at(c: Seq<char>, i: int, w: Seq<char>) -> bool {
    &&& spec_has_at(c, i, w)
    &&& (i == 0 || !spec_is_ident(c[i - 1]))
    &&& (i + w.len() >= c.len() || !spec_is_ident(c[i + w.len()]))
}

/// Whether a declaration may start at `i`: nothing but whitespace before it, or a statement
/// boundary.
pub open spec fn is_decl_start(c: Seq<char>, i: int) -> bool {
    i == 0 || match prev_code(c, i) {
        None => true,
        Some(p) => p == ';' || p == '{' || p == '}' || p == '\n' || p == '(',
    }
}

/// Whether `type` at `i` opens an alias: a name, then `=` or `<`.
pub open spec fn looks_like_type_alias(c: Seq<char>, i: int) -> bool {
    let j = skip_ws(c, i + 4);
    if j >= c.len() || !spec_is_ident(c[j]) {
        false
    } else {
        let k = skip_ws(c, skip_ident(c, j));
        char_at(c, k, '=') || char_at(c, k, '<')
    }
}

/// Whether the keyword of length `kw_len` at `i` is a type operator (`as` / `satisfies`):
/// an operand before it and a type after it.
pub open spec fn is_type_operator(c: Seq<char>, i: int, kw_len: int) -> bool {
    let next = skip_ws(c, i + kw_len);
    &&& prev_code(c, i) matches Some(p) && (spec_is_ident(p) || p == ')' || p == ']' || p == '>'
        || p == '?')
    &&& next < c.len()
    &&& (spec_is_ident(c[next]) || c[next] == '{' || c[next] == '(')
}

/// Index of the last `q` in `s`.
pub open spec fn last_index(s: Seq<char>, q: char) -> Option<int>
    decreases s.len(),
{
    if s.len() == 0 {
        None
    } else if s.last() == q {
        Some(s.len() - 1)
    } else {
        last_index(s.drop_last(), q)
    }
}

/// Length of the identifier run at the end of `s`.
pub open spec fn trail_ident(s: Seq<char>) -> nat
    decreases s.len(),
{
    if s.len() > 0 && spec_is_ident(s.last()) {
        1 + trail_ident(s.drop_last())
    } else {
        0
    }
}

/// Whether the colon at `colon` ends an object key (`{ key:` or `, "key":`).
pub open spec fn is_object_prop_colon(c: Seq<char>, colon: int) -> bool {
    let i0 = colon - trail_ws(c.take(colon));
    if i0 <= 0 {
        false
    } else {
        let k = i0 - 1;
        let key_start = if c[k] == '"' || c[k] == '\'' {
            Some(
                match last_index(c.take(k), c[k]) {
                    Some(j) => j,
                    None => 0,
                },
            )
        } else if spec_is_ident(c[k]) {
            Some(k - trail_ident(c.take(k)))
        } else {
            None
        };
        match key_start {
            None => false,
            Some(ks) => {
                let b = ks - trail_ws(c.take(ks));
                b > 0 && (c[b - 1] == '{' || c[b - 1] == ',')
            },
        }
    }
}

/// Whether the source opens with an assignment that has no binding.
pub open spec fn looks_like_bare_assignment(s: Seq<char>) -> bool {
    let t = spec_trim_start(s);
    spec_has_at(t, 0, "const ="@) || spec_has_at(t, 0, "let ="@) || spec_has_at(t, 0, "var ="@)
}

/// Where the operand of a type starts: past a leading `typeof`, `keyof` or `infer` (six
/// positions on, whichever of them it was).
pub open spec fn type_operand_start(c: Seq<char>, i: int) -> int {
    if spec_has_at(c, i, "typeof"@) || spec_has_at(c, i, "keyof"@) || spec_has_at(c, i, "infer"@) {
        skip_ws(c, i + 6)
    } else {
        i
    }
}

/// A type expression starting at `i0`: the position after it.
pub open spec fn skip_type(c: Seq<char>, i0: int) -> Result<int, StripFail>
    decreases c.len() + 8 - i0, 2int,
{
    let i = skip_ws(c, i0);
    if i >= c.len() {
        Ok(i)
    } else {
        match type_head(c, i0, type_operand_start(c, i)) {
            Err(e) => Err(e),
            Ok(h) => type_tail(c, i0, h),
        }
    }
}

/// The primary part of a type at `i1` (object, tuple, function, type arguments, string, or
/// dotted name with arguments): the position after it. Recursion happens only past `i0`,
/// where the enclosing `skip_type` started (always the case, see `lemma_skip_type_bounds`).
pub open spec fn type_head(c: Seq<char>, i0: int, i1: int) -> Result<int, StripFail>
    decreases c.len() + 8 - i0, 1int,
{
    if char_at(c, i1, '{') {
        skip_balanced(c, i1, '{', '}')
    } else if char_at(c, i1, '[') {
        skip_balanced(c, i1, '[', ']')
    } else if char_at(c, i1, '(') {
        match skip_balanced(c, i1, '(', ')') {
            Err(e) => Err(e),
            Ok(j) => {
                let k = skip_ws(c, j);
                let n = skip_ws(c, k + 2);
                if spec_has_at(c, k, "=>"@) && i0 < n <= c.len() + 8 {
                    skip_type(c, n)
                } else {
                    Ok(k)
                }
            },
        }
    } else if char_at(c, i1, '<') {
        skip_balanced(c, i1, '<', '>')
    } else if char_at(c, i1, '\'') || char_at(c, i1, '"') {
        match take_string(c, i1) {
            Some(n) => Ok(n),
            None => Err(StripFail::UnterminatedString),
        }
    } else if 0 <= i1 < c.len() && spec_is_ident(c[i1]) {
        let j = skip_ws(c, skip_dotted(c, i1));
        if char_at(c, j, '<') {
            skip_balanced(c, j, '<', '>')
        } else {
            Ok(j)
        }
    } else {
        Ok(i1)
    }
}

/// After the primary part at `h`: an optional `[]`, then `|` or `&` and another type.
pub open spec fn type_tail(c: Seq<char>, i0: int, h: int) -> Result<int, StripFail>
    decreases c.len() + 8 - i0, 0int,
{
    let a = skip_ws(c, h);
    let b = if char_at(c, a, '[') && char_at(c, a + 1, ']') {
        skip_ws(c, a + 2)
    } else {
        a
    };
    let n = skip_ws(c, b + 1);
    if (char_at(c, b, '|') || char_at(c, b, '&')) && i0 < n <= c.len() + 8 {
        skip_type(c, n)
    } else {
        Ok(b)
    }
}

/// The first position at or after `i` that is neither an identifier character nor `.`.
pub open spec fn skip_dotted(c: Seq<char>, i: int) -> int
    decreases c.len() - i,
{
    if 0 <= i < c.len() && (spec_is_ident(c[i]) || c[i] == '.') {
        skip_dotted(c, i + 1)
    } else {
        i
    }
}

/// `interface Name<...> { ... }` from after the keyword: the position after the body.
pub open spec fn skip_declaration(c: Seq<char>, i0: int) -> Result<int, StripFail> {
    let i = skip_ws(c, skip_ident(c, skip_ws(c, i0)));
    let j: Result<int, StripFail> = if char_at(c, i, '<') {
        match skip_balanced(c, i, '<', '>') {
            Err(e) => Err(e),
            Ok(k) => Ok(skip_ws(c, k)),
        }
    } else {
        Ok(i)
    };
    match j {
        Err(e) => Err(e),
        Ok(k) => if char_at(c, k, '{') {
            skip_balanced(c, k, '{', '}')
        } else {
            Err(StripFail::InvalidInterface)
        },
    }
}

/// `type Name<...> = T;` from the keyword at `start`: the position after it.
pub open spec fn skip_type_alias(c: Seq<char>, start: int) -> Result<int, StripFail> {
    let i = skip_ws(c, skip_ident(c, skip_ws(c, start + 4)));
    let j: Result<int, StripFail> = if char_at(c, i, '<') {
        match skip_balanced(c, i, '<', '>') {
            Err(e) => Err(e),
            Ok(k) => Ok(skip_ws(c, k)),
        }
    } else {
        Ok(i)
    };
    match j {
        Err(e) => Err(e),
        Ok(k) => if !char_at(c, k, '=') {
            Err(StripFail::InvalidTypeAlias)
        } else {
            match skip_type(c, skip_ws(c, k + 1)) {
                Err(e) => Err(e),
                Ok(m) => if char_at(c, m, ';') {
                    Ok(m + 1)
                } else {
                    Ok(m)
                },
            }
        },
    }
}

/// Whether `<` at `i` opens type arguments of a call: an identifier before it, and `(` or a
/// template after the balanced `<...>`.
pub open spec fn looks_like_call_generic(c: Seq<char>, i: int) -> bool {
    &&& prev_code(c, i) matches Some(p) && spec_is_ident(p)
    &&& match skip_balanced(c, i, '<', '>') {
        Err(_) => false,
        Ok(end) => {
            let j = skip_ws(c, end);
            char_at(c, j, '(') || char_at(c, j, '`')
        },
    }
}

/// Whether the `:` at `i` starts a type annotation.
pub open spec fn is_annotation_colon(c: Seq<char>, i: int) -> bool {
    &&& c[i] == ':'
    &&& !spec_has_at(c, i, "::"@)
    &&& !is_object_prop_colon(c, i)
    &&& prev_code(c, i) matches Some(p) && (p == ')' || crate::text::spec_is_ascii_alnum(p)
        || p == '_' || p == '?' || p == ']')
}

/// Length of the `as` / `satisfies` keyword at `i`.
pub open spec fn operator_len(c: Seq<char>, i: int) -> int {
    if is_word_at(c, i, "satisfies"@) {
        9
    } else {
        2
    }
}

/// Maps a skipped construct to "nothing emitted, resume at its end".
pub open spec fn skipped(r: Result<int, StripFail>) -> Result<(Seq<char>, int), StripFail> {
    match r {
        Ok(n) => Ok((Seq::empty(), n)),
        Err(e) => Err(e),
    }
}

/// One step of the scanner at `i < c.len()`: what it emits and where it resumes.
#[verifier::opaque]
pub open spec fn spec_step(c: Seq<char>, i: int) -> Result<(Seq<char>, int), StripFail> {
    if spec_has_at(c, i, "//"@) {
        let end = match find_char(c.skip(i), '\n') {
            Some(n) => i + n + 1,
            None => c.len() as int,
        };
        Ok((c.subrange(i, end), end))
    } else if spec_has_at(c, i, "/*"@) {
        let end = match find_from(c, "*/"@, i + 2) {
            Some(n) => n + 2,
            None => c.len() as int,
        };
        Ok((c.subrange(i, end), end))
    } else if is_quote(c[i]) {
        match take_string(c, i) {
            Some(n) => Ok((c.subrange(i, n), n)),
            None => Err(StripFail::UnterminatedString),
        }
    } else if is_word_at(c, i, "interface"@) && is_decl_start(c, i) {
        skipped(skip_declaration(c, i + 9))
    } else if is_word_at(c, i, "type"@) && is_decl_start(c, i) && looks_like_type_alias(c, i) {
        skipped(skip_type_alias(c, i))
    } else if (is_word_at(c, i, "as"@) || is_word_at(c, i, "satisfies"@)) && is_type_operator(
        c,
        i,
        operator_len(c, i),
    ) {
        skipped(skip_type(c, skip_ws(c, i + operator_len(c, i))))
    } else if is_annotation_colon(c, i) {
        skipped(skip_type(c, skip_ws(c, i + 1)))
    } else if c[i] == '<' && looks_like_call_generic(c, i) {
        skipped(skip_balanced(c, i, '<', '>'))
    } else {
        Ok((seq![c[i]], i + 1))
    }
}

/// The output of the scanner from `i` on.
pub open spec fn strip_from(c: Seq<char>, i: int) -> Result<Seq<char>, StripFail>
    decreases c.len() - i,
{
    if i < 0 || i >= c.len() {
        Ok(Seq::empty())
    } else {
        match spec_step(c, i) {
            Err(e) => Err(e),
            Ok((emit, next)) => if next >= c.len() || next <= i {
                Ok(emit)
            } else {
                match strip_from(c, next) {
                    Ok(rest) => Ok(emit + rest),
                    Err(e) => Err(e),
                }
            },
        }
    }
}

/// What `strip_typescript` returns for `source`.
pub open spec fn spec_strip(source: Seq<char>) -> Result<Seq<char>, StripFail> {
    if looks_like_bare_assignment(source) {
        Err(StripFail::BareAssignment)
    } else {
        strip_from(source, 0)
    }
}

// ---------------------------------------------------------------- bounds

/// `skip_ws` moves forward over whitespace only, and not past the end.
pub proof fn lemma_skip_ws(c: Seq<char>, i: int)
    ensures
        skip_ws(c, i) >= i,
        0 <= i <= c.len() ==> skip_ws(c, i) <= c.len(),
        forall|k: int| i <= k < skip_ws(c, i) ==> spec_is_whitespace(#[trigger] c[k]),
        0 <= i && skip_ws(c, i) < c.len() ==> !spec_is_whitespace(c[skip_ws(c, i)]),
{
    if 0 <= i < c.len() {
        let t = c.skip(i);
        crate::text::lemma_lead_ws(t);
        assert forall|k: int| i <= k < skip_ws(c, i) implies spec_is_whitespace(#[trigger] c[k]) by {
            assert(c[k] == t[k - i]);
        }
        if skip_ws(c, i) < c.len() {
            assert(c[skip_ws(c, i)] == t[lead_ws(t) as int]);
        }
    }
}

/// `ident_len` does not run past the end.
pub proof fn lemma_ident_len_bound(s: Seq<char>)
    ensures
        ident_len(s) <= s.len(),
    decreases s.len(),
{
    if s.len() > 0 && spec_is_ident(s[0]) {
        lemma_ident_len_bound(s.drop_first());
    }
}

/// `skip_ident` and `skip_dotted` move forward, and not past the end.
pub proof fn lemma_skip_ident(c: Seq<char>, i: int)
    ensures
        skip_ident(c, i) >= i,
        0 <= i <= c.len() ==> skip_ident(c, i) <= c.len(),
        skip_dotted(c, i) >= i,
        0 <= i <= c.len() ==> skip_dotted(c, i) <= c.len(),
    decreases c.len() - i,
{
    if 0 <= i < c.len() {
        lemma_ident_len_bound(c.skip(i));
        if spec_is_ident(c[i]) || c[i] == '.' {
            lemma_skip_ident(c, i + 1);
        }
    }
}

/// A literal scanned from `i` ends past `i` and inside the source.
pub proof fn lemma_str_scan_bounds(c: Seq<char>, q: char, i: int)
    ensures
        str_scan(c, q, i) matches Some(n) ==> i < n <= c.len(),
    decreases c.len() - i, 0int,
{
    if i < 0 || i >= c.len() {
    } else if c[i] == '\\' && i + 1 < c.len() {
        lemma_str_scan_bounds(c, q, i + 2);
    } else if q == '`' && c[i] == '$' && i + 1 < c.len() && c[i + 1] == '{' {
        lemma_tmpl_scan_bounds(c, q, i + 2, 1);
    } else if c[i] == q {
    } else {
        lemma_str_scan_bounds(c, q, i + 1);
    }
}

/// A template expression scanned from `i` ends past `i` and inside the source.
pub proof fn lemma_tmpl_scan_bounds(c: Seq<char>, q: char, i: int, depth: nat)
    ensures
        tmpl_scan(c, q, i, depth) matches Some(n) ==> i < n <= c.len(),
    decreases c.len() - i, 1int,
{
    if 0 <= i < c.len() && depth > 0 {
        if is_quote(c[i]) {
            match str_scan(c, c[i], i + 1) {
                Some(n) => if i < n <= c.len() {
                    lemma_tmpl_scan_bounds(c, q, n, depth);
                },
                None => {},
            }
        } else if c[i] == '{' {
            lemma_tmpl_scan_bounds(c, q, i + 1, depth + 1);
        } else if c[i] == '}' {
            lemma_tmpl_scan_bounds(c, q, i + 1, (depth - 1) as nat);
        } else {
            lemma_tmpl_scan_bounds(c, q, i + 1, depth);
        }
    } else {
        lemma_str_scan_bounds(c, q, i);
    }
}

/// A balanced construct scanned from `i` ends past `i` and inside the source.
pub proof fn lemma_bal_scan_bounds(c: Seq<char>, open: char, close: char, i: int, depth: nat)
    ensures
        bal_scan(c, open, close, i, depth) matches Ok(n) ==> i < n <= c.len(),
    decreases c.len() - i,
{
    if i < 0 || i >= c.len() {
    } else if is_quote(c[i]) {
        match str_scan(c, c[i], i + 1) {
            Some(n) => if i < n <= c.len() {
                lemma_bal_scan_bounds(c, open, close, n, depth);
            },
            None => {},
        }
    } else if c[i] == open {
        lemma_bal_scan_bounds(c, open, close, i + 1, depth + 1);
    } else if c[i] == close {
        if depth > 1 {
            lemma_bal_scan_bounds(c, open, close, i + 1, (depth - 1) as nat);
        }
    } else {
        lemma_bal_scan_bounds(c, open, close, i + 1, depth);
    }
}

/// `skip_balanced` and `take_string` end past their start and inside the source.
pub proof fn lemma_skip_balanced_bounds(c: Seq<char>, start: int, open: char, close: char)
    ensures
        skip_balanced(c, start, open, close) matches Ok(n) ==> start < n <= c.len(),
        0 <= start < c.len() ==> (take_string(c, start) matches Some(n) ==> start < n <= c.len()),
{
    if 0 <= start < c.len() {
        lemma_bal_scan_bounds(c, open, close, start + 1, 1);
        lemma_str_scan_bounds(c, c[start], start + 1);
    }
}

/// Where a type operand starts lies between `i` and one past the end.
pub proof fn lemma_type_operand_start(c: Seq<char>, i: int)
    requires
        0 <= i < c.len(),
    ensures
        i <= type_operand_start(c, i) <= c.len() + 1,
{
    reveal_strlit("typeof");
    reveal_strlit("keyof");
    reveal_strlit("infer");
    lemma_skip_ws(c, i + 6);
}

/// A type ends at or after its start, and not more than one past the end of the source.
pub proof fn lemma_skip_type_bounds(c: Seq<char>, i0: int)
    requires
        0 <= i0,
    ensures
        skip_type(c, i0) matches Ok(n) ==> i0 <= n && (n <= c.len() + 1 || n == i0),
    decreases c.len() + 8 - i0, 2int,
{
    lemma_skip_ws(c, i0);
    let i = skip_ws(c, i0);
    if i < c.len() {
        lemma_type_operand_start(c, i);
        let i1 = type_operand_start(c, i);
        lemma_type_head_bounds(c, i0, i1);
        match type_head(c, i0, i1) {
            Ok(h) => lemma_type_tail_bounds(c, i0, h),
            Err(_) => {},
        }
    }
}

/// The primary part of a type ends at or after `i1`, at most one past the end.
pub proof fn lemma_type_head_bounds(c: Seq<char>, i0: int, i1: int)
    requires
        0 <= i0 <= i1 <= c.len() + 1,
    ensures
        type_head(c, i0, i1) matches Ok(h) ==> i1 <= h <= c.len() + 1,
    decreases c.len() + 8 - i0, 1int,
{
    if char_at(c, i1, '{') {
        lemma_skip_balanced_bounds(c, i1, '{', '}');
    } else if char_at(c, i1, '[') {
        lemma_skip_balanced_bounds(c, i1, '[', ']');
    } else if char_at(c, i1, '(') {
        lemma_skip_balanced_bounds(c, i1, '(', ')');
        match skip_balanced(c, i1, '(', ')') {
            Err(_) => {},
            Ok(j) => {
                lemma_skip_ws(c, j);
                let k = skip_ws(c, j);
                lemma_skip_ws(c, k + 2);
                let n = skip_ws(c, k + 2);
                if spec_has_at(c, k, "=>"@) && i0 < n <= c.len() + 8 {
                    reveal_strlit("=>");
                    lemma_skip_type_bounds(c, n);
                }
            },
        }
    } else if char_at(c, i1, '<') {
        lemma_skip_balanced_bounds(c, i1, '<', '>');
    } else if char_at(c, i1, '\'') || char_at(c, i1, '"') {
        lemma_skip_balanced_bounds(c, i1, '<', '>');
    } else if 0 <= i1 < c.len() && spec_is_ident(c[i1]) {
        lemma_skip_ident(c, i1);
        lemma_skip_ws(c, skip_dotted(c, i1));
        let j = skip_ws(c, skip_dotted(c, i1));
        lemma_skip_balanced_bounds(c, j, '<', '>');
    }
}

/// The tail of a type ends at or after `h`, at most one past the end.
pub proof fn lemma_type_tail_bounds(c: Seq<char>, i0: int, h: int)
    requires
        0 <= i0 <= h <= c.len() + 1,
    ensures
        type_tail(c, i0, h) matches Ok(n) ==> h <= n <= c.len() + 1,
    decreases c.len() + 8 - i0, 0int,
{
    lemma_skip_ws(c, h);
    let a = skip_ws(c, h);
    lemma_skip_ws(c, a + 2);
    let b = if char_at(c, a, '[') && char_at(c, a + 1, ']') {
        skip_ws(c, a + 2)
    } else {
        a
    };
    lemma_skip_ws(c, b + 1);
    let n = skip_ws(c, b + 1);
    if (char_at(c, b, '|') || char_at(c, b, '&')) && i0 < n <= c.len() + 8 {
        lemma_skip_type_bounds(c, n);
    }
}

/// An `interface` declaration ends past its start and inside the source.
pub proof fn lemma_skip_declaration_bounds(c: Seq<char>, i0: int)
    requires
        0 <= i0 <= c.len(),
    ensures
        skip_declaration(c, i0) matches Ok(n) ==> i0 < n <= c.len(),
{
    lemma_skip_ws(c, i0);
    let a = skip_ws(c, i0);
    lemma_skip_ident(c, a);
    lemma_skip_ws(c, skip_ident(c, a));
    let i = skip_ws(c, skip_ident(c, a));
    lemma_skip_balanced_bounds(c, i, '<', '>');
    match skip_balanced(c, i, '<', '>') {
        Ok(k) => {
            lemma_skip_ws(c, k);
            lemma_skip_balanced_bounds(c, skip_ws(c, k), '{', '}');
        },
        Err(_) => {},
    }
    lemma_skip_balanced_bounds(c, i, '{', '}');
}

/// A type alias ends past its start, at most two past the end of the source.
pub proof fn lemma_skip_type_alias_bounds(c: Seq<char>, start: int)
    requires
        0 <= start,
        start + 4 <= c.len(),
    ensures
        skip_type_alias(c, start) matches Ok(n) ==> start < n <= c.len() + 2,
{
    lemma_skip_ws(c, start + 4);
    let a = skip_ws(c, start + 4);
    lemma_skip_ident(c, a);
    lemma_skip_ws(c, skip_ident(c, a));
    let i = skip_ws(c, skip_ident(c, a));
    lemma_skip_balanced_bounds(c, i, '<', '>');
    let j: Result<int, StripFail> = if char_at(c, i, '<') {
        match skip_balanced(c, i, '<', '>') {
            Err(e) => Err(e),
            Ok(k) => Ok(skip_ws(c, k)),
        }
    } else {
        Ok(i)
    };
    match skip_balanced(c, i, '<', '>') {
        Ok(k) => lemma_skip_ws(c, k),
        Err(_) => {},
    }
    match j {
        Ok(k) => if char_at(c, k, '=') {
            lemma_skip_ws(c, k + 1);
            lemma_skip_type_bounds(c, skip_ws(c, k + 1));
        },
        Err(_) => {},
    }
}

/// Every step of the scanner moves forward, at most two past the end.
pub proof fn lemma_step_advances(c: Seq<char>, i: int)
    requires
        0 <= i < c.len(),
    ensures
        spec_step(c, i) matches Ok((e, n)) ==> i < n <= c.len() + 2,
{
    reveal(spec_step);
    reveal_strlit("//");
    reveal_strlit("/*");
    reveal_strlit("*/");
    reveal_strlit("interface");
    reveal_strlit("type");
    reveal_strlit("as");
    reveal_strlit("satisfies");
    if spec_has_at(c, i, "//"@) {
        crate::text::lemma_find_char(c.skip(i), '\n');
    } else if spec_has_at(c, i, "/*"@) {
        crate::text::lemma_find_from_bounds(c, "*/"@, i + 2);
    } else if is_quote(c[i]) {
        lemma_skip_balanced_bounds(c, i, '<', '>');
    } else if is_word_at(c, i, "interface"@) && is_decl_start(c, i) {
        lemma_skip_declaration_bounds(c, i + 9);
    } else if is_word_at(c, i, "type"@) && is_decl_start(c, i) && looks_like_type_alias(c, i) {
        lemma_skip_type_alias_bounds(c, i);
    } else if (is_word_at(c, i, "as"@) || is_word_at(c, i, "satisfies"@)) && is_type_operator(
        c,
        i,
        operator_len(c, i),
    ) {
        lemma_skip_ws(c, i + operator_len(c, i));
        lemma_skip_type_bounds(c, skip_ws(c, i + operator_len(c, i)));
    } else if is_annotation_colon(c, i) {
        lemma_skip_ws(c, i + 1);
        lemma_skip_type_bounds(c, skip_ws(c, i + 1));
    } else if c[i] == '<' && looks_like_call_generic(c, i) {
        lemma_skip_balanced_bounds(c, i, '<', '>');
    }
}

/// `idx` picks `out` out of `c` from position `lo` on: increasing positions, each holding the
/// character `out` has there.
pub open spec fn picks(c: Seq<char>, out: Seq<char>, lo: int, idx: Seq<int>) -> bool {
    &&& idx.len() == out.len()
    &&& forall|k: int| 0 <= k < idx.len() ==> lo <= #[trigger] idx[k] < c.len() && out[k] == c[idx[k]]
    &&& forall|k: int, l: int| 0 <= k < l < idx.len() ==> #[trigger] idx[k] < #[trigger] idx[l]
}

/// `out` is `c` with some characters deleted.
pub open spec fn is_subsequence(out: Seq<char>, c: Seq<char>) -> bool {
    exists|idx: Seq<int>| picks(c, out, 0, idx)
}

/// A step emits nothing, or the source text it passes over.
proof fn lemma_step_emits(c: Seq<char>, i: int)
    requires
        0 <= i < c.len(),
    ensures
        spec_step(c, i) matches Ok((e, n)) ==> e.len() == 0 || (i < n <= c.len() && e == c.subrange(i, n)),
{
    reveal(spec_step);
    reveal_strlit("//");
    reveal_strlit("/*");
    reveal_strlit("*/");
    if spec_has_at(c, i, "//"@) {
        crate::text::lemma_find_char(c.skip(i), '\n');
    } else if spec_has_at(c, i, "/*"@) {
        crate::text::lemma_find_from_bounds(c, "*/"@, i + 2);
        assert(spec_has_at(c, i, "/*"@) ==> i + 2 <= c.len());
    } else if is_quote(c[i]) {
        lemma_str_scan_bounds(c, c[i], i + 1);
    } else {
        assert(seq![c[i]] =~= c.subrange(i, i + 1));
    }
}

/// The source positions the scanner keeps from `i` on.
pub open spec fn strip_idx(c: Seq<char>, i: int) -> Seq<int>
    decreases c.len() - i,
{
    if i < 0 || i >= c.len() {
        Seq::empty()
    } else {
        match spec_step(c, i) {
            Err(_) => Seq::empty(),
            Ok((emit, next)) => {
                let lead = Seq::new(emit.len(), |k: int| i + k);
                if next >= c.len() || next <= i {
                    lead
                } else {
                    lead + strip_idx(c, next)
                }
            },
        }
    }
}

proof fn lemma_strip_from_picks(c: Seq<char>, i: int)
    requires
        0 <= i,
    ensures
        strip_from(c, i) matches Ok(out) ==> picks(c, out, i, strip_idx(c, i)),
    decreases c.len() - i,
{
    if i < c.len() {
        lemma_step_emits(c, i);
        lemma_step_advances(c, i);
        match spec_step(c, i) {
            Err(_) => {},
            Ok((emit, next)) => {
                let lead = Seq::new(emit.len(), |k: int| i + k);
                assert(picks(c, emit, i, lead));
                if next < c.len() && next > i {
                    lemma_strip_from_picks(c, next);
                    match strip_from(c, next) {
                        Err(_) => {},
                        Ok(rest) => {
                            let tail = strip_idx(c, next);
                            let all = lead + tail;
                            assert(all == strip_idx(c, i));
                            assert(emit.len() > 0 ==> i + emit.len() == next);
                            assert forall|k: int| 0 <= k < all.len() implies i <= #[trigger] all[k] < c.len()
                                && (emit + rest)[k] == c[all[k]] by {
                                if k >= lead.len() {
                                    assert(all[k] == tail[k - lead.len()]);
                                }
                            }
                            assert forall|k: int, l: int| 0 <= k < l < all.len() implies #[trigger] all[k]
                                < #[trigger] all[l] by {
                                if l >= lead.len() {
                                    assert(all[l] == tail[l - lead.len()]);
                                    if k >= lead.len() {
                                        assert(all[k] == tail[k - lead.len()]);
                                    }
                                }
                            }
                        },
                    }
                }
            },
        }
    }
}

/// Stripping only deletes: what it returns is the source with some characters taken out,
/// the rest kept in order.
pub proof fn law_strip_only_deletes(source: Seq<char>)
    ensures
        spec_strip(source) matches Ok(out) ==> is_subsequence(out, source),
{
    lemma_strip_from_picks(source, 0);
    if let Ok(out) = spec_strip(source) {
        assert(picks(source, out, 0, strip_idx(source, 0)));
    }
}

proof fn lemma_trail_ws_exact(s: Seq<char>, n: int)
    requires
        0 <= n <= s.len(),
        forall|m: int| s.len() - n <= m < s.len() ==> spec_is_whitespace(#[trigger] s[m]),
        n < s.len() ==> !spec_is_whitespace(s[s.len() - n - 1]),
    ensures
        trail_ws(s) == n,
    decreases n,
{
    if n > 0 {
        assert(spec_is_whitespace(s[s.len() - 1]));
        let d = s.drop_last();
        assert forall|m: int| d.len() - (n - 1) <= m < d.len() implies spec_is_whitespace(#[trigger] d[m]) by {
            assert(d[m] == s[m]);
        }
        if n - 1 < d.len() {
            assert(d[d.len() - (n - 1) - 1] == s[s.len() - n - 1]);
        }
        lemma_trail_ws_exact(d, n - 1);
    } else if s.len() > 0 {
        assert(!spec_is_whitespace(s.last()));
    }
}

/// The last non-whitespace character before `i` is the one at `k` when only whitespace lies
/// between them.
proof fn lemma_prev_code_at(c: Seq<char>, k: int, i: int)
    requires
        0 <= k < i <= c.len(),
        !spec_is_whitespace(c[k]),
        forall|m: int| k < m < i ==> spec_is_whitespace(#[trigger] c[m]),
    ensures
        prev_code(c, i) == Some(c[k]),
{
    let t = c.take(i);
    assert forall|m: int| t.len() - (i - k - 1) <= m < t.len() implies spec_is_whitespace(#[trigger] t[m]) by {
        assert(t[m] == c[m]);
    }
    assert(t[t.len() - (i - k - 1) - 1] == c[k]);
    lemma_trail_ws_exact(t, i - k - 1);
}

/// The first non-whitespace position from `i` is `j` when only whitespace lies between.
proof fn lemma_skip_ws_at(c: Seq<char>, i: int, j: int)
    requires
        0 <= i <= j < c.len(),
        !spec_is_whitespace(c[j]),
        forall|m: int| i <= m < j ==> spec_is_whitespace(#[trigger] c[m]),
    ensures
        skip_ws(c, i) == j,
{
    let t = c.skip(i);
    assert forall|m: int| 0 <= m < j - i implies spec_is_whitespace(#[trigger] t[m]) by {
        assert(t[m] == c[i + m]);
    }
    assert(t[j - i] == c[j]);
    crate::text::lemma_lead_ws_unique(t, j - i);
}

/// A type operator is deleted: where `as` or `satisfies` stands as a word after an operand
/// (an identifier character, `)`, `]`, `>` or `?`, with only whitespace between) and before
/// whitespace and the start of a type (an identifier, `{` or `(`), the scanner emits nothing
/// there and resumes past the keyword.
pub proof fn law_type_operator_deleted(c: Seq<char>, w: Seq<char>, k: int, i: int, j: int)
    requires
        w == "as"@ || w == "satisfies"@,
        0 <= k < i,
        i + w.len() < j < c.len(),
        c.subrange(i, i + w.len()) == w,
        !spec_is_ident(c[i - 1]),
        spec_is_ident(c[k]) || c[k] == ')' || c[k] == ']' || c[k] == '>' || c[k] == '?',
        forall|m: int| k < m < i ==> spec_is_whitespace(#[trigger] c[m]),
        forall|m: int| i + w.len() <= m < j ==> spec_is_whitespace(#[trigger] c[m]),
        spec_is_ident(c[j]) || c[j] == '{' || c[j] == '(',
    ensures
        spec_step(c, i) matches Ok((emit, next)) ==> emit.len() == 0 && i + w.len() <= next,
{
    reveal(spec_step);
    reveal_strlit("as");
    reveal_strlit("satisfies");
    reveal_strlit("//");
    reveal_strlit("/*");
    reveal_strlit("interface");
    reveal_strlit("type");
    let l = w.len() as int;
    assert(c[i] == w[0]) by {
        assert(c.subrange(i, i + l)[0] == c[i]);
    }
    assert(!spec_is_whitespace(c[k]));
    assert(!spec_is_whitespace(c[j]));
    lemma_prev_code_at(c, k, i);
    lemma_skip_ws_at(c, i + l, j);
    assert(spec_is_whitespace(c[i + l]));
    assert(!spec_is_ident(c[i + l]));
    assert(!spec_has_at(c, i, "//"@));
    assert(!spec_has_at(c, i, "/*"@));
    assert(!is_quote(c[i]));
    assert(!is_word_at(c, i, "interface"@));
    assert(!is_word_at(c, i, "type"@));
    if w == "as"@ {
        assert(is_word_at(c, i, "as"@));
        assert(!spec_has_at(c, i, "satisfies"@));
        assert(operator_len(c, i) == 2);
    } else {
        assert(is_word_at(c, i, "satisfies"@));
        assert(operator_len(c, i) == 9);
    }
    assert(is_type_operator(c, i, operator_len(c, i)));
    lemma_skip_type_bounds(c, j);
}

/// An end position before which the identifier run ends is `len - trail_ident`.
pub proof fn lemma_trail_ident_unique(s: Seq<char>, j: int)
    requires
        0 <= j <= s.len(),
        forall|k: int| j <= k < s.len() ==> spec_is_ident(#[trigger] s[k]),
        j > 0 ==> !spec_is_ident(s[j - 1]),
    ensures
        s.len() - trail_ident(s) == j,
    decreases s.len(),
{
    if j < s.len() {
        assert(spec_is_ident(s.last()));
        assert forall|k: int| j <= k < s.len() - 1 implies spec_is_ident(#[trigger] s.drop_last()[k]) by {
            assert(s.drop_last()[k] == s[k]);
        }
        if j > 0 {
            assert(s.drop_last()[j - 1] == s[j - 1]);
        }
        lemma_trail_ident_unique(s.drop_last(), j);
    } else {
        if s.len() > 0 {
            assert(!spec_is_ident(s[s.len() - 1]));
        }
    }
}

/// `last_index` names the last occurrence, or reports none.
pub proof fn lemma_last_index(s: Seq<char>, q: char, j: int)
    requires
        0 <= j <= s.len(),
        forall|k: int| j <= k < s.len() ==> #[trigger] s[k] != q,
    ensures
        j > 0 && s[j - 1] == q ==> last_index(s, q) == Some(j - 1),
        j == 0 ==> last_index(s, q) is None,
    decreases s.len(),
{
    if s.len() > 0 && j < s.len() {
        assert(s.last() != q);
        assert forall|k: int| j <= k < s.len() - 1 implies #[trigger] s.drop_last()[k] != q by {
            assert(s.drop_last()[k] == s[k]);
        }
        if j > 0 {
            assert(s.drop_last()[j - 1] == s[j - 1]);
        }
        lemma_last_index(s.drop_last(), q, j);
    }
}

} // verus!

verus! {

// ---------------------------------------------------------------- implementation

/// Positions up to a few past the end of `c` fit in `usize`.
pub open spec fn fits(c: Seq<char>) -> bool {
    c.len() + 16 <= usize::MAX
}

/// A scan result prefixed by what was emitted before it.
pub open spec fn prepend(out: Seq<char>, r: Result<Seq<char>, StripFail>) -> Result<
    Seq<char>,
    StripFail,
> {
    match r {
        Ok(rest) => Ok(out + rest),
        Err(e) => Err(e),
    }
}

/// Remove TypeScript type syntax from `source`.
///
/// Fails on `const =` / `let =` / `var =` with no binding, or an unclosed type construct or
/// literal; each failure carries the message of its `StripFail`.
pub fn strip_typescript(source: &str) -> (r: Result<String, CodeError>)
    requires
        fits(source@),
    ensures
        match spec_strip(source@) {
            Ok(o) => r matches Ok(out) && out@ == o,
            Err(f) => r matches Err(e) && e.0@ == f.spec_message(),
        },
{
    let c = to_chars(source);
    if bare_assignment(&c) {
        return Err(CodeError::new(StripFail::BareAssignment.message()));
    }
    let mut out = String::new();
    let mut i: usize = 0;
    assert(strip_from(c@, 0) == prepend(out@, strip_from(c@, 0))) by {
        match strip_from(c@, 0) {
            Ok(rest) => assert(out@ + rest =~= rest),
            Err(_) => {},
        }
    }
    while i < c.len()
        invariant
            fits(c@),
            i <= c@.len() + 2,
            c@ == source@,
            !looks_like_bare_assignment(c@),
            strip_from(c@, 0) == prepend(out@, strip_from(c@, i as int)),
        decreases c@.len() + 2 - i,
    {
        match step_at(&c, i) {
            Err(e) => {
                assert(strip_from(c@, i as int) == Err::<Seq<char>, StripFail>(e));
                assert(spec_strip(source@) == Err::<Seq<char>, StripFail>(e));
                let err = CodeError::new(e.message());
                return Err(err);
            },
            Ok((next, copied)) => {
                let ghost emit = if copied {
                    c@.subrange(i as int, next as int)
                } else {
                    Seq::<char>::empty()
                };
                let ghost before = out@;
                if copied {
                    push_range(&mut out, &c, i, next);
                }
                proof {
                    assert(out@ =~= before + emit);
                    if next < c@.len() {
                        match strip_from(c@, next as int) {
                            Ok(rest) => assert(before + (emit + rest) =~= out@ + rest),
                            Err(_) => {},
                        }
                    } else {
                        assert(out@ + Seq::<char>::empty() =~= out@);
                    }
                }
                i = next;
            },
        }
    }
    Ok(out)
}

fn bare_assignment(c: &[char]) -> (r: bool)
    ensures
        r == looks_like_bare_assignment(c@),
{
    let t = trim_start_chars(c);
    starts_with_chars(&t, "const =") || starts_with_chars(&t, "let =") || starts_with_chars(
        &t,
        "var =",
    )
}

/// One scanner step at `i`: where it resumes, and whether `c[i..next]` is copied.
#[verifier::rlimit(40)]
fn step_at(c: &[char], i: usize) -> (r: Result<(usize, bool), StripFail>)
    requires
        i < c@.len(),
        fits(c@),
    ensures
        match r {
            Ok((n, copied)) => {
                &&& spec_step(c@, i as int) == Ok::<(Seq<char>, int), StripFail>(
                    (
                        if copied {
                            c@.subrange(i as int, n as int)
                        } else {
                            Seq::empty()
                        },
                        n as int,
                    ),
                )
                &&& i < n <= c@.len() + 2
                &&& copied ==> n <= c@.len()
            },
            Err(e) => spec_step(c@, i as int) == Err::<(Seq<char>, int), StripFail>(e),
        },
{
    proof {
        lemma_step_advances(c@, i as int);
        lemma_skip_balanced_bounds(c@, i as int, '<', '>');
        reveal(spec_step);
        reveal_strlit("interface");
        reveal_strlit("satisfies");
        reveal_strlit("type");
        reveal_strlit("as");
    }
    if at_lit(c, i, "//") {
        let end = match find_char_from(c, i, '\n') {
            Some(k) => k + 1,
            None => c.len(),
        };
        return Ok((end, true));
    }
    if at_lit(c, i, "/*") {
        proof {
            reveal_strlit("/*");
            reveal_strlit("*/");
            crate::text::lemma_find_from_bounds(c@, "*/"@, i + 2);
        }
        let end = match find_str_from(c, i + 2, "*/") {
            Some(k) => k + 2,
            None => c.len(),
        };
        return Ok((end, true));
    }
    let ch = c[i];
    if ch == '\'' || ch == '"' || ch == '`' {
        return match take_string_at(c, i) {
            Some(n) => Ok((n, true)),
            None => Err(StripFail::UnterminatedString),
        };
    }
    if is_word_at_exec(c, i, "interface") && is_decl_start_exec(c, i) {
        return match skip_declaration_at(c, i + 9) {
            Ok(n) => Ok((n, false)),
            Err(e) => Err(e),
        };
    }
    if is_word_at_exec(c, i, "type") && is_decl_start_exec(c, i) && looks_like_type_alias_exec(
        c,
        i,
    ) {
        return match skip_type_alias_at(c, i) {
            Ok(n) => Ok((n, false)),
            Err(e) => Err(e),
        };
    }
    let is_satisfies = is_word_at_exec(c, i, "satisfies");
    if is_word_at_exec(c, i, "as") || is_satisfies {
        let kw_len: usize = if is_satisfies {
            9
        } else {
            2
        };
        if is_type_operator_exec(c, i, kw_len) {
            let start = skip_ws_at(c, i + kw_len);
            proof {
                lemma_skip_ws(c@, i + kw_len);
            }
            return match skip_type_at(c, start) {
                Ok(n) => Ok((n, false)),
                Err(e) => Err(e),
            };
        }
    }
    if ch == ':' && !at_lit(c, i, "::") && !is_object_prop_colon_exec(c, i) {
        let colon_type = match prev_code_at(c, i) {
            Some(p) => p == ')' || crate::text::is_ascii_alnum(p) || p == '_' || p == '?' || p
                == ']',
            None => false,
        };
        if colon_type {
            let start = skip_ws_at(c, i + 1);
            proof {
                lemma_skip_ws(c@, i + 1);
            }
            return match skip_type_at(c, start) {
                Ok(n) => Ok((n, false)),
                Err(e) => Err(e),
            };
        }
    }
    if ch == '<' && looks_like_call_generic_exec(c, i) {
        return match skip_balanced_at(c, i, '<', '>') {
            Ok(n) => Ok((n, false)),
            Err(e) => Err(e),
        };
    }
    assert(c@.subrange(i as int, i + 1) =~= seq![c@[i as int]]);
    Ok((i + 1, true))
}

/// Whether `c` spells `lit` at `i`.
fn at_lit(c: &[char], i: usize, lit: &str) -> (r: bool)
    ensures
        r == spec_has_at(c@, i as int, lit@),
{
    let l = to_chars(lit);
    has_at(c, i, &l)
}

fn char_at_exec(c: &[char], i: usize, ch: char) -> (r: bool)
    ensures
        r == char_at(c@, i as int, ch),
{
    i < c.len() && c[i] == ch
}

fn skip_ws_at(c: &[char], i: usize) -> (r: usize)
    ensures
        r as int == skip_ws(c@, i as int),
{
    if i >= c.len() {
        return i;
    }
    let j = crate::text::skip_ws_from(c, i);
    proof {
        let t = c@.skip(i as int);
        assert forall|k: int| 0 <= k < j - i implies spec_is_whitespace(#[trigger] t[k]) by {
            assert(t[k] == c@[i + k]);
        }
        if j < c@.len() {
            assert(t[j - i] == c@[j as int]);
        }
        crate::text::lemma_lead_ws_unique(t, j - i);
    }
    j
}

fn skip_ident_at(c: &[char], i: usize) -> (r: usize)
    ensures
        r as int == skip_ident(c@, i as int),
{
    if i >= c.len() {
        return i;
    }
    let j = crate::text::skip_ident_from(c, i);
    proof {
        let t = c@.skip(i as int);
        assert forall|k: int| 0 <= k < j - i implies spec_is_ident(#[trigger] t[k]) by {
            assert(t[k] == c@[i + k]);
        }
        if j < c@.len() {
            assert(t[j - i] == c@[j as int]);
        }
        crate::text::lemma_ident_len_unique(t, j - i);
    }
    j
}

fn skip_dotted_at(c: &[char], i: usize) -> (r: usize)
    requires
        i <= c@.len(),
    ensures
        r as int == skip_dotted(c@, i as int),
        i <= r <= c@.len(),
{
    let mut j = i;
    while j < c.len() && (is_ident(c[j]) || c[j] == '.')
        invariant
            i <= j <= c@.len(),
            skip_dotted(c@, j as int) == skip_dotted(c@, i as int),
        decreases c.len() - j,
    {
        j += 1;
    }
    j
}

fn prev_code_at(c: &[char], i: usize) -> (r: Option<char>)
    requires
        i <= c@.len(),
    ensures
        r == prev_code(c@, i as int),
{
    let mut j = i;
    while j > 0 && is_whitespace(c[j - 1])
        invariant
            j <= i <= c@.len(),
            forall|k: int| j <= k < i ==> spec_is_whitespace(#[trigger] c@[k]),
        decreases j,
    {
        j -= 1;
    }
    proof {
        let t = c@.take(i as int);
        assert forall|k: int| j <= k < t.len() implies spec_is_whitespace(#[trigger] t[k]) by {
            assert(t[k] == c@[k]);
        }
        if j > 0 {
            assert(t[j - 1] == c@[j - 1]);
        }
        crate::text::lemma_trail_ws_unique(t, j as int);
    }
    if j == 0 {
        None
    } else {
        Some(c[j - 1])
    }
}

fn is_word_at_exec(c: &[char], i: usize, w: &str) -> (r: bool)
    requires
        i < c@.len(),
    ensures
        r == is_word_at(c@, i as int, w@),
{
    let l = to_chars(w);
    if !has_at(c, i, &l) {
        return false;
    }
    let before_ok = i == 0 || !is_ident(c[i - 1]);
    let after = i + l.len();
    let after_ok = after >= c.len() || !is_ident(c[after]);
    before_ok && after_ok
}

fn is_decl_start_exec(c: &[char], i: usize) -> (r: bool)
    requires
        i <= c@.len(),
    ensures
        r == is_decl_start(c@, i as int),
{
    if i == 0 {
        return true;
    }
    match prev_code_at(c, i) {
        None => true,
        Some(p) => p == ';' || p == '{' || p == '}' || p == '\n' || p == '(',
    }
}

fn looks_like_type_alias_exec(c: &[char], i: usize) -> (r: bool)
    requires
        i + 4 <= c@.len(),
        fits(c@),
    ensures
        r == looks_like_type_alias(c@, i as int),
{
    let j = skip_ws_at(c, i + 4);
    if j >= c.len() || !is_ident(c[j]) {
        return false;
    }
    proof {
        lemma_skip_ident(c@, j as int);
    }
    let k = skip_ws_at(c, skip_ident_at(c, j));
    char_at_exec(c, k, '=') || char_at_exec(c, k, '<')
}

fn is_type_operator_exec(c: &[char], i: usize, kw_len: usize) -> (r: bool)
    requires
        i + kw_len <= c@.len(),
        fits(c@),
    ensures
        r == is_type_operator(c@, i as int, kw_len as int),
{
    let prev_ok = match prev_code_at(c, i) {
        Some(p) => is_ident(p) || p == ')' || p == ']' || p == '>' || p == '?',
        None => false,
    };
    let next = skip_ws_at(c, i + kw_len);
    prev_ok && next < c.len() && (is_ident(c[next]) || c[next] == '{' || c[next] == '(')
}

fn is_object_prop_colon_exec(c: &[char], colon: usize) -> (r: bool)
    requires
        colon < c@.len(),
    ensures
        r == is_object_prop_colon(c@, colon as int),
{
    let i0 = back_over_ws(c, colon);
    if i0 == 0 {
        return false;
    }
    let k = i0 - 1;
    let key_start: usize;
    if c[k] == '"' || c[k] == '\'' {
        let quote = c[k];
        let mut j = k;
        let mut found = false;
        while j > 0 && !found
            invariant
                j <= k < c@.len(),
                found ==> c@[j as int] == quote && j < k,
                forall|m: int| j < m < k ==> #[trigger] c@[m] != quote,
                !found ==> (forall|m: int| j <= m < k ==> #[trigger] c@[m] != quote),
            decreases j,
        {
            j -= 1;
            if c[j] == quote {
                found = true;
            }
        }
        proof {
            let t = c@.take(k as int);
            if found {
                assert forall|m: int| j + 1 <= m < t.len() implies #[trigger] t[m] != quote by {
                    assert(t[m] == c@[m]);
                }
                assert(t[j as int] == c@[j as int]);
                lemma_last_index(t, quote, j + 1);
            } else {
                assert forall|m: int| 0 <= m < t.len() implies #[trigger] t[m] != quote by {
                    assert(t[m] == c@[m]);
                }
                lemma_last_index(t, quote, 0);
            }
        }
        key_start = j;
    } else if is_ident(c[k]) {
        let mut j = k;
        while j > 0 && is_ident(c[j - 1])
            invariant
                j <= k < c@.len(),
                forall|m: int| j <= m < k ==> spec_is_ident(#[trigger] c@[m]),
            decreases j,
        {
            j -= 1;
        }
        proof {
            let t = c@.take(k as int);
            assert forall|m: int| j <= m < t.len() implies spec_is_ident(#[trigger] t[m]) by {
                assert(t[m] == c@[m]);
            }
            if j > 0 {
                assert(t[j - 1] == c@[j - 1]);
            }
            lemma_trail_ident_unique(t, j as int);
        }
        key_start = j;
    } else {
        return false;
    }
    let b = back_over_ws(c, key_start);
    b > 0 && (c[b - 1] == '{' || c[b - 1] == ',')
}

/// `i` minus the whitespace run that ends at `i`.
fn back_over_ws(c: &[char], i: usize) -> (r: usize)
    requires
        i <= c@.len(),
    ensures
        r as int == i - trail_ws(c@.take(i as int)),
        r <= i,
{
    let mut j = i;
    while j > 0 && is_whitespace(c[j - 1])
        invariant
            j <= i <= c@.len(),
            forall|k: int| j <= k < i ==> spec_is_whitespace(#[trigger] c@[k]),
        decreases j,
    {
        j -= 1;
    }
    proof {
        let t = c@.take(i as int);
        assert forall|k: int| j <= k < t.len() implies spec_is_whitespace(#[trigger] t[k]) by {
            assert(t[k] == c@[k]);
        }
        if j > 0 {
            assert(t[j - 1] == c@[j - 1]);
        }
        crate::text::lemma_trail_ws_unique(t, j as int);
    }
    j
}

/// The literal at `start`: the position after it, or `None` when it never closes.
fn take_string_at(c: &[char], start: usize) -> (r: Option<usize>)
    requires
        start < c@.len(),
        fits(c@),
    ensures
        match r {
            Some(n) => take_string(c@, start as int) == Some(n as int),
            None => take_string(c@, start as int) is None,
        },
    decreases c@.len() - start,
{
    let quote = c[start];
    let mut i = start + 1;
    while i < c.len()
        invariant
            start < i <= c@.len(),
            fits(c@),
            quote == c@[start as int],
            take_string(c@, start as int) == str_scan(c@, quote, i as int),
        decreases c.len() - i,
    {
        let ch = c[i];
        if ch == '\\' && i + 1 < c.len() {
            i = i + 2;
            continue ;
        }
        if quote == '`' && ch == '$' && i + 1 < c.len() && c[i + 1] == '{' {
            i = i + 2;
            let ghost entry = i;
            let mut depth: usize = 1;
            while i < c.len() && depth > 0
                invariant
                    start < entry <= i <= c@.len(),
                    depth <= i,
                    fits(c@),
                    quote == c@[start as int],
                    take_string(c@, start as int) == tmpl_scan(c@, quote, i as int, depth as nat),
                decreases c.len() - i,
            {
                let d = c[i];
                if d == '\'' || d == '"' || d == '`' {
                    match take_string_at(c, i) {
                        Some(next) => {
                            proof {
                                lemma_str_scan_bounds(c@, d, i + 1);
                            }
                            i = next;
                            continue ;
                        },
                        None => {
                            return None;
                        },
                    }
                }
                if d == '{' {
                    depth = depth + 1;
                } else if d == '}' {
                    depth = depth - 1;
                }
                i = i + 1;
            }
            continue ;
        }
        if ch == quote {
            return Some(i + 1);
        }
        i = i + 1;
    }
    None
}

/// A balanced `open ... close` construct at `start`: the position after it.
fn skip_balanced_at(c: &[char], start: usize, open: char, close: char) -> (r: Result<
    usize,
    StripFail,
>)
    requires
        fits(c@),
        !is_quote(open),
        !is_quote(close),
    ensures
        match r {
            Ok(n) => skip_balanced(c@, start as int, open, close) == Ok::<int, StripFail>(n as int),
            Err(e) => skip_balanced(c@, start as int, open, close) == Err::<int, StripFail>(e),
        },
{
    if !(start < c.len() && c[start] == open) {
        return Err(StripFail::ExpectedDelimiter);
    }
    let mut depth: usize = 1;
    let mut i = start + 1;
    while i < c.len()
        invariant
            start < i <= c@.len(),
            1 <= depth <= i,
            fits(c@),
            skip_balanced(c@, start as int, open, close) == bal_scan(
                c@,
                open,
                close,
                i as int,
                depth as nat,
            ),
        decreases c.len() - i,
    {
        let ch = c[i];
        if ch == '\'' || ch == '"' || ch == '`' {
            match take_string_at(c, i) {
                Some(n) => {
                    proof {
                        lemma_str_scan_bounds(c@, ch, i + 1);
                    }
                    i = n;
                    continue ;
                },
                None => {
                    return Err(StripFail::UnterminatedString);
                },
            }
        }
        if ch == open {
            depth = depth + 1;
        } else if ch == close {
            if depth <= 1 {
                return Ok(i + 1);
            }
            depth = depth - 1;
        }
        i = i + 1;
    }
    Err(StripFail::UnclosedType)
}

/// A type expression at `i0`: the position after it.
fn skip_type_at(c: &[char], i0: usize) -> (r: Result<usize, StripFail>)
    requires
        i0 <= c@.len() + 1,
        fits(c@),
    ensures
        match r {
            Ok(n) => skip_type(c@, i0 as int) == Ok::<int, StripFail>(n as int),
            Err(e) => skip_type(c@, i0 as int) == Err::<int, StripFail>(e),
        },
    decreases c@.len() + 8 - i0, 2int,
{
    proof {
        lemma_skip_ws(c@, i0 as int);
    }
    let i = skip_ws_at(c, i0);
    if i >= c.len() {
        return Ok(i);
    }
    proof {
        lemma_type_operand_start(c@, i as int);
        reveal_strlit("typeof");
        reveal_strlit("keyof");
        reveal_strlit("infer");
    }
    let i1 = if at_lit(c, i, "typeof") || at_lit(c, i, "keyof") || at_lit(c, i, "infer") {
        skip_ws_at(c, i + 6)
    } else {
        i
    };
    match type_head_at(c, i0, i1) {
        Err(e) => Err(e),
        Ok(h) => {
            proof {
                lemma_type_head_bounds(c@, i0 as int, i1 as int);
            }
            type_tail_at(c, i0, h)
        },
    }
}

fn type_head_at(c: &[char], i0: usize, i1: usize) -> (r: Result<usize, StripFail>)
    requires
        i0 <= i1 <= c@.len() + 1,
        fits(c@),
    ensures
        match r {
            Ok(n) => type_head(c@, i0 as int, i1 as int) == Ok::<int, StripFail>(n as int),
            Err(e) => type_head(c@, i0 as int, i1 as int) == Err::<int, StripFail>(e),
        },
    decreases c@.len() + 8 - i0, 1int,
{
    if char_at_exec(c, i1, '{') {
        return skip_balanced_at(c, i1, '{', '}');
    }
    if char_at_exec(c, i1, '[') {
        return skip_balanced_at(c, i1, '[', ']');
    }
    if char_at_exec(c, i1, '(') {
        proof {
            lemma_skip_balanced_bounds(c@, i1 as int, '(', ')');
        }
        let j = match skip_balanced_at(c, i1, '(', ')') {
            Ok(j) => j,
            Err(e) => return Err(e),
        };
        proof {
            lemma_skip_ws(c@, j as int);
        }
        let k = skip_ws_at(c, j);
        if at_lit(c, k, "=>") {
            proof {
                reveal_strlit("=>");
                lemma_skip_ws(c@, k + 2);
            }
            let n = skip_ws_at(c, k + 2);
            return skip_type_at(c, n);
        }
        return Ok(k);
    }
    if char_at_exec(c, i1, '<') {
        return skip_balanced_at(c, i1, '<', '>');
    }
    if char_at_exec(c, i1, '\'') || char_at_exec(c, i1, '"') {
        return match take_string_at(c, i1) {
            Some(n) => Ok(n),
            None => Err(StripFail::UnterminatedString),
        };
    }
    if i1 < c.len() && is_ident(c[i1]) {
        let d = skip_dotted_at(c, i1);
        let j = skip_ws_at(c, d);
        if char_at_exec(c, j, '<') {
            return skip_balanced_at(c, j, '<', '>');
        }
        return Ok(j);
    }
    Ok(i1)
}

fn type_tail_at(c: &[char], i0: usize, h: usize) -> (r: Result<usize, StripFail>)
    requires
        i0 <= h <= c@.len() + 1,
        fits(c@),
    ensures
        match r {
            Ok(n) => type_tail(c@, i0 as int, h as int) == Ok::<int, StripFail>(n as int),
            Err(e) => type_tail(c@, i0 as int, h as int) == Err::<int, StripFail>(e),
        },
    decreases c@.len() + 8 - i0, 0int,
{
    proof {
        lemma_skip_ws(c@, h as int);
    }
    let a = skip_ws_at(c, h);
    let b = if char_at_exec(c, a, '[') && char_at_exec(c, a + 1, ']') {
        proof {
            lemma_skip_ws(c@, a + 2);
        }
        skip_ws_at(c, a + 2)
    } else {
        a
    };
    if char_at_exec(c, b, '|') || char_at_exec(c, b, '&') {
        proof {
            lemma_skip_ws(c@, b + 1);
        }
        let n = skip_ws_at(c, b + 1);
        return skip_type_at(c, n);
    }
    Ok(b)
}

/// An `interface` declaration from after its keyword: the position after its body.
fn skip_declaration_at(c: &[char], i0: usize) -> (r: Result<usize, StripFail>)
    requires
        i0 <= c@.len(),
        fits(c@),
    ensures
        match r {
            Ok(n) => skip_declaration(c@, i0 as int) == Ok::<int, StripFail>(n as int),
            Err(e) => skip_declaration(c@, i0 as int) == Err::<int, StripFail>(e),
        },
{
    proof {
        lemma_skip_ws(c@, i0 as int);
        lemma_skip_ident(c@, skip_ws(c@, i0 as int));
        lemma_skip_ws(c@, skip_ident(c@, skip_ws(c@, i0 as int)));
    }
    let mut i = skip_ws_at(c, skip_ident_at(c, skip_ws_at(c, i0)));
    if char_at_exec(c, i, '<') {
        proof {
            lemma_skip_balanced_bounds(c@, i as int, '<', '>');
        }
        let k = match skip_balanced_at(c, i, '<', '>') {
            Ok(k) => k,
            Err(e) => return Err(e),
        };
        i = skip_ws_at(c, k);
    }
    if char_at_exec(c, i, '{') {
        return skip_balanced_at(c, i, '{', '}');
    }
    Err(StripFail::InvalidInterface)
}

/// A type alias from its keyword at `start`: the position after it.
fn skip_type_alias_at(c: &[char], start: usize) -> (r: Result<usize, StripFail>)
    requires
        start + 4 <= c@.len(),
        fits(c@),
    ensures
        match r {
            Ok(n) => skip_type_alias(c@, start as int) == Ok::<int, StripFail>(n as int),
            Err(e) => skip_type_alias(c@, start as int) == Err::<int, StripFail>(e),
        },
{
    proof {
        lemma_skip_ws(c@, start + 4);
        lemma_skip_ident(c@, skip_ws(c@, start + 4));
        lemma_skip_ws(c@, skip_ident(c@, skip_ws(c@, start + 4)));
    }
    let mut i = skip_ws_at(c, skip_ident_at(c, skip_ws_at(c, start + 4)));
    if char_at_exec(c, i, '<') {
        proof {
            lemma_skip_balanced_bounds(c@, i as int, '<', '>');
        }
        let k = match skip_balanced_at(c, i, '<', '>') {
            Ok(k) => k,
            Err(e) => return Err(e),
        };
        proof {
            lemma_skip_ws(c@, k as int);
        }
        i = skip_ws_at(c, k);
    }
    if !char_at_exec(c, i, '=') {
        return Err(StripFail::InvalidTypeAlias);
    }
    proof {
        lemma_skip_ws(c@, i + 1);
    }
    let m = match skip_type_at(c, skip_ws_at(c, i + 1)) {
        Ok(m) => m,
        Err(e) => return Err(e),
    };
    proof {
        lemma_skip_type_bounds(c@, skip_ws(c@, i + 1));
    }
    if char_at_exec(c, m, ';') {
        Ok(m + 1)
    } else {
        Ok(m)
    }
}

fn looks_like_call_generic_exec(c: &[char], i: usize) -> (r: bool)
    requires
        i < c@.len(),
        fits(c@),
    ensures
        r == looks_like_call_generic(c@, i as int),
{
    let prev_ok = match prev_code_at(c, i) {
        Some(p) => is_ident(p),
        None => false,
    };
    if !prev_ok {
        return false;
    }
    proof {
        lemma_skip_balanced_bounds(c@, i as int, '<', '>');
    }
    match skip_balanced_at(c, i, '<', '>') {
        Err(_) => false,
        Ok(end) => {
            let j = skip_ws_at(c, end);
            char_at_exec(c, j, '(') || char_at_exec(c, j, '`')
        },
    }
}

} // verus!
