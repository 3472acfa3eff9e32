//! Recover a runnable guest body from model-shaped source: markdown fences,
//! `export default`, and arrow / function wrappers. Valid JS that needs a real
//! parser still runs in the isolate after this pass.

use vstd::prelude::*;
use crate::json::{json_quote, json_quoted, lemma_json_plain};
use crate::text::{
    find_char, find_char_from, find_from, find_seq, find_seq_from, find_str_from, first_is,
    from_chars, ident_len, is_whitespace, lemma_find_char, lemma_find_from_bounds,
    lemma_ident_len_unique, lemma_lead_ws, lemma_lead_ws_unique, push_range, push_str,
    skip_ident_from, skip_ws_from, slice_vec, spec_has_at, spec_is_whitespace, spec_strip_prefix,
    spec_trim, spec_trim_start, starts_with_chars, strip_prefix_str, to_chars, trim_start_chars,
    trim_vec,
};

verus! {

/// The message a guest sees when its code does not evaluate to a function.
pub const CALLABLE_ERROR: &'static str = "Code must evaluate to a function";

// ---------------------------------------------------------------- specification

/// The body of the first markdown fence: the text after the line that opens it, up to the
/// next fence.
pub open spec fn spec_fenced_body(s: Seq<char>) -> Option<Seq<char>> {
    match find_seq(s, "```"@) {
        None => None,
        Some(start) => {
            let after = s.skip(start + "```"@.len());
            match find_char(after, '\n') {
                None => None,
                Some(nl) => {
                    let rest = after.skip(nl + 1);
                    match find_seq(rest, "```"@) {
                        None => None,
                        Some(end) => Some(rest.take(end)),
                    }
                },
            }
        },
    }
}

/// The trimmed source, or the trimmed body of its first fence.
pub open spec fn spec_extract_candidate(code: Seq<char>) -> Seq<char> {
    let t = spec_trim(code);
    if t.len() == 0 {
        Seq::empty()
    } else {
        match spec_fenced_body(t) {
            Some(body) => spec_trim(body),
            None => t,
        }
    }
}

/// Drops leading `//` line comments and `/* */` block comments (and the whitespace around
/// them); an unclosed block comment leaves nothing.
pub open spec fn spec_strip_comments(s: Seq<char>) -> Seq<char>
    decreases s.len(),
{
    let t = spec_trim_start(s);
    proof {
        lemma_lead_ws(s);
    }
    match spec_strip_prefix(t, seq!['/', '/']) {
        Some(rest) => match find_char(rest, '\n') {
            Some(i) => if 0 <= i < rest.len() {
                spec_strip_comments(rest.skip(i + 1))
            } else {
                Seq::empty()
            },
            None => Seq::empty(),
        },
        None => match spec_strip_prefix(t, seq!['/', '*']) {
            Some(rest) => match find_seq(rest, seq!['*', '/']) {
                Some(i) => if 0 <= i && i + 2 <= rest.len() {
                    spec_strip_comments(rest.skip(i + 2))
                } else {
                    Seq::empty()
                },
                None => Seq::empty(),
            },
            None => t,
        },
    }
}

/// `export default` removed from the front, and whether it was there. The keyword must be
/// followed by whitespace or `(`.
pub open spec fn spec_strip_export(s: Seq<char>) -> (Seq<char>, bool) {
    match spec_strip_prefix(spec_trim_start(s), "export"@) {
        None => (s, false),
        Some(r0) => match spec_strip_prefix(spec_trim_start(r0), "default"@) {
            None => (s, false),
            Some(r) => if r.len() > 0 && (spec_is_whitespace(r[0]) || r[0] == '(') {
                (spec_trim_start(r), true)
            } else {
                (s, false)
            },
        },
    }
}

/// Whether `s` opens like an arrow function: `async` or `(` first, and `=>` somewhere.
pub open spec fn spec_looks_like_arrow(s: Seq<char>) -> bool {
    let t = spec_trim_start(s);
    (spec_has_at(t, 0, "async"@) || (t.len() > 0 && t[0] == '(')) && find_seq(t, "=>"@) is Some
}

/// One pair of enclosing parentheses removed when what they hold looks like an arrow.
pub open spec fn spec_unwrap_paren(s: Seq<char>) -> Seq<char> {
    let t = spec_trim(s);
    if t.len() >= 2 && t[0] == '(' && t.last() == ')' {
        let inner = spec_trim(t.subrange(1, t.len() - 1));
        if spec_looks_like_arrow(inner) {
            inner
        } else {
            s
        }
    } else {
        s
    }
}

/// The head of a (possibly `async`) function declaration or expression: `Some` of its name,
/// the empty name for an anonymous function, `None` when `s` does not start with one.
pub open spec fn spec_function_head(s: Seq<char>) -> Option<Seq<char>> {
    let r0 = spec_trim_start(s);
    let r1 = match spec_strip_prefix(r0, "async"@) {
        Some(after) => if after.len() > 0 && spec_is_whitespace(after[0]) {
            Some(spec_trim_start(after))
        } else {
            None
        },
        None => Some(r0),
    };
    match r1 {
        None => None,
        Some(r1) => match spec_strip_prefix(r1, "function"@) {
            None => None,
            Some(r2) => if r2.len() > 0 && r2[0] == '(' {
                Some(Seq::empty())
            } else if !(r2.len() > 0 && spec_is_whitespace(r2[0])) {
                None
            } else {
                let r3 = spec_trim_start(r2);
                if r3.len() > 0 && r3[0] == '(' {
                    Some(Seq::empty())
                } else {
                    let n = ident_len(r3);
                    let after = spec_trim_start(r3.skip(n as int));
                    if n > 0 && after.len() > 0 && after[0] == '(' {
                        Some(r3.take(n as int))
                    } else {
                        None
                    }
                }
            },
        },
    }
}

/// A declared function followed by a call of it.
pub open spec fn spec_wrap_named(src: Seq<char>, name: Seq<char>) -> Seq<char> {
    src + "\nreturn await "@ + name + "();"@
}

/// An anonymous function called in place.
pub open spec fn spec_wrap_anonymous(src: Seq<char>) -> Seq<char> {
    "return await ("@ + src + ")();"@
}

/// An expression bound, checked to be a function, and called.
pub open spec fn spec_wrap_callable(src: Seq<char>) -> Seq<char> {
    "const __fn = (\n"@ + src + "\n);\nif (typeof __fn !== \"function\") throw new Error("@
        + json_quoted(CALLABLE_ERROR@) + ");\nreturn await __fn();"@
}

/// The heuristic rendering of a non-empty candidate.
pub open spec fn spec_render(source: Seq<char>) -> Seq<char> {
    let (after0, had_export) = spec_strip_export(spec_strip_comments(source));
    let after = if had_export {
        spec_unwrap_paren(after0)
    } else {
        after0
    };
    let wrap_src = if had_export {
        after
    } else {
        source
    };
    match spec_function_head(after) {
        Some(name) => if name.len() > 0 {
            spec_wrap_named(wrap_src, name)
        } else {
            spec_wrap_anonymous(wrap_src)
        },
        None => if spec_looks_like_arrow(after) {
            spec_wrap_callable(wrap_src)
        } else {
            wrap_src
        },
    }
}

/// What `recover_execution_body` returns for `code`.
pub open spec fn spec_recover(code: Seq<char>) -> Seq<char> {
    let c = spec_extract_candidate(code);
    if c.len() == 0 {
        Seq::empty()
    } else {
        spec_render(c)
    }
}

// ---------------------------------------------------------------- implementation

/// Strip markdown fences / wrappers so a JS isolate can `Function()`-run the code.
pub fn recover_execution_body(code: &str) -> (r: String)
    ensures
        r@ == spec_recover(code@),
{
    let source = extract_candidate(code);
    if source.len() == 0 {
        return String::new();
    }
    render_heuristic(&source)
}

fn extract_candidate(code: &str) -> (r: Vec<char>)
    ensures
        r@ == spec_extract_candidate(code@),
{
    let v = to_chars(code);
    let t = trim_vec(&v);
    if t.len() == 0 {
        return Vec::new();
    }
    match fenced_body(&t) {
        Some(body) => trim_vec(&body),
        None => t,
    }
}

fn fenced_body(v: &[char]) -> (r: Option<Vec<char>>)
    ensures
        match r {
            Some(b) => spec_fenced_body(v@) == Some(b@),
            None => spec_fenced_body(v@) is None,
        },
{
    let fence = to_chars("```");
    let found = find_seq_from(v, 0, &fence);
    proof {
        lemma_find_from_bounds(v@, fence@, 0);
    }
    if found.is_none() {
        return None;
    }
    let start = found.unwrap();
    assert(start + fence@.len() <= v@.len());
    let n = v.len();
    let after = slice_vec(v, start + fence.len(), n);
    assert(after@ =~= v@.skip(start + "```"@.len()));
    let nl = match find_char_from(&after, 0, '\n') {
        Some(nl) => nl,
        None => {
            assert(after@.skip(0) =~= after@);
            return None;
        },
    };
    assert(after@.skip(0) =~= after@);
    let rest = slice_vec(&after, nl + 1, after.len());
    assert(rest@ =~= after@.skip(nl + 1));
    match find_seq_from(&rest, 0, &fence) {
        Some(end) => {
            proof {
                lemma_find_from_bounds(rest@, fence@, 0);
            }
            let body = slice_vec(&rest, 0, end);
            assert(body@ =~= rest@.take(end as int));
            Some(body)
        },
        None => None,
    }
}

fn render_heuristic(source: &[char]) -> (r: String)
    ensures
        r@ == spec_render(source@),
{
    let stripped = strip_leading_comments(source);
    let (after0, had_export) = strip_export_default(&stripped);
    let after = if had_export {
        unwrap_one_paren_if_arrow(&after0)
    } else {
        after0
    };
    let wrap_src: &[char] = if had_export {
        &after
    } else {
        source
    };
    match function_head(&after) {
        Some(name) => {
            if name.len() > 0 {
                wrap_named(wrap_src, &name)
            } else {
                wrap_anonymous(wrap_src)
            }
        },
        None => {
            if looks_like_arrow(&after) {
                wrap_callable_chars(wrap_src)
            } else {
                from_chars(wrap_src)
            }
        },
    }
}

fn strip_leading_comments(source: &[char]) -> (r: Vec<char>)
    ensures
        r@ == spec_strip_comments(source@),
{
    let mut cur: Vec<char> = slice_vec(source, 0, source.len());
    assert(cur@ =~= source@);
    loop
        invariant
            spec_strip_comments(cur@) == spec_strip_comments(source@),
        decreases cur@.len(),
    {
        let t = trim_start_chars(&cur);
        proof {
            lemma_lead_ws(cur@);
            reveal_strlit("//");
            reveal_strlit("/*");
            reveal_strlit("*/");
            assert("//"@ =~= seq!['/', '/']);
            assert("/*"@ =~= seq!['/', '*']);
            assert("*/"@ =~= seq!['*', '/']);
        }
        match strip_prefix_str(&t, "//") {
            Some(rest) => {
                match find_char_from(&rest, 0, '\n') {
                    Some(i) => {
                        assert(rest@.skip(0) =~= rest@);
                        proof {
                            lemma_find_char(rest@, '\n');
                        }
                        let n = rest.len();
                        let next = slice_vec(&rest, i + 1, n);
                        assert(next@ =~= rest@.skip(i + 1));
                        cur = next;
                        continue ;
                    },
                    None => {
                        assert(rest@.skip(0) =~= rest@);
                        return Vec::new();
                    },
                }
            },
            None => {},
        }
        match strip_prefix_str(&t, "/*") {
            Some(rest) => {
                let close = to_chars("*/");
                match find_seq_from(&rest, 0, &close) {
                    Some(i) => {
                        proof {
                            lemma_find_from_bounds(rest@, close@, 0);
                        }
                        let n = rest.len();
                        let next = slice_vec(&rest, i + 2, n);
                        assert(next@ =~= rest@.skip(i + 2));
                        cur = next;
                        continue ;
                    },
                    None => {
                        return Vec::new();
                    },
                }
            },
            None => {
                return t;
            },
        }
    }
}

fn strip_export_default(source: &[char]) -> (r: (Vec<char>, bool))
    ensures
        (r.0@, r.1) == spec_strip_export(source@),
{
    let t = trim_start_chars(source);
    let r0 = match strip_prefix_str(&t, "export") {
        Some(r0) => r0,
        None => return (slice_copy(source), false),
    };
    let r0t = trim_start_chars(&r0);
    let r = match strip_prefix_str(&r0t, "default") {
        Some(r) => r,
        None => return (slice_copy(source), false),
    };
    if r.len() > 0 && (is_whitespace(r[0]) || r[0] == '(') {
        (trim_start_chars(&r), true)
    } else {
        (slice_copy(source), false)
    }
}

fn slice_copy(v: &[char]) -> (r: Vec<char>)
    ensures
        r@ == v@,
{
    let r = slice_vec(v, 0, v.len());
    assert(r@ =~= v@);
    r
}

fn unwrap_one_paren_if_arrow(source: &[char]) -> (r: Vec<char>)
    ensures
        r@ == spec_unwrap_paren(source@),
{
    let t = trim_vec(source);
    if t.len() >= 2 && t[0] == '(' && t[t.len() - 1] == ')' {
        let mid = slice_vec(&t, 1, t.len() - 1);
        let inner = trim_vec(&mid);
        if looks_like_arrow(&inner) {
            inner
        } else {
            slice_copy(source)
        }
    } else {
        slice_copy(source)
    }
}

fn looks_like_arrow(source: &[char]) -> (r: bool)
    ensures
        r == spec_looks_like_arrow(source@),
{
    let t = trim_start_chars(source);
    if !(starts_with_chars(&t, "async") || first_is(&t, '(')) {
        return false;
    }
    find_str_from(&t, 0, "=>").is_some()
}

fn function_head(source: &[char]) -> (r: Option<Vec<char>>)
    ensures
        match r {
            Some(name) => spec_function_head(source@) == Some(name@),
            None => spec_function_head(source@) is None,
        },
{
    let r0 = trim_start_chars(source);
    let r1 = match strip_prefix_str(&r0, "async") {
        Some(after) => {
            if !(after.len() > 0 && is_whitespace(after[0])) {
                return None;
            }
            trim_start_chars(&after)
        },
        None => r0,
    };
    let r2 = match strip_prefix_str(&r1, "function") {
        Some(r2) => r2,
        None => return None,
    };
    if first_is(&r2, '(') {
        return Some(Vec::new());
    }
    if !(r2.len() > 0 && is_whitespace(r2[0])) {
        return None;
    }
    let r3 = trim_start_chars(&r2);
    if first_is(&r3, '(') {
        return Some(Vec::new());
    }
    let n = skip_ident_from(&r3, 0);
    proof {
        lemma_ident_len_unique(r3@, n as int);
    }
    if n == 0 {
        return None;
    }
    let tail = slice_vec(&r3, n, r3.len());
    assert(tail@ =~= r3@.skip(n as int));
    let after = trim_start_chars(&tail);
    if first_is(&after, '(') {
        let name = slice_vec(&r3, 0, n);
        assert(name@ =~= r3@.take(n as int));
        Some(name)
    } else {
        None
    }
}

/// The source with a call of the callable it evaluates to.
pub fn wrap_callable(source: &str) -> (r: String)
    ensures
        r@ == spec_wrap_callable(source@),
{
    let v = to_chars(source);
    wrap_callable_chars(&v)
}

fn wrap_callable_chars(source: &[char]) -> (r: String)
    ensures
        r@ == spec_wrap_callable(source@),
{
    let error = match json_quote(CALLABLE_ERROR) {
        Some(q) => q,
        None => {
            proof {
                reveal_strlit("Code must evaluate to a function");
                reveal_strlit("\"Code must evaluate to a function\"");
                lemma_json_plain(CALLABLE_ERROR@);
            }
            crate::text::copy_str("\"Code must evaluate to a function\"")
        },
    };
    let mut s = String::new();
    push_str(&mut s, "const __fn = (\n");
    push_range(&mut s, source, 0, source.len());
    push_str(&mut s, "\n);\nif (typeof __fn !== \"function\") throw new Error(");
    push_str(&mut s, error.as_str());
    push_str(&mut s, ");\nreturn await __fn();");
    assert(source@.subrange(0, source@.len() as int) =~= source@);
    s
}

fn wrap_named(source: &[char], name: &[char]) -> (r: String)
    ensures
        r@ == spec_wrap_named(source@, name@),
{
    let mut s = String::new();
    push_range(&mut s, source, 0, source.len());
    push_str(&mut s, "\nreturn await ");
    push_range(&mut s, name, 0, name.len());
    push_str(&mut s, "();");
    assert(source@.subrange(0, source@.len() as int) =~= source@);
    assert(name@.subrange(0, name@.len() as int) =~= name@);
    s
}

fn wrap_anonymous(source: &[char]) -> (r: String)
    ensures
        r@ == spec_wrap_anonymous(source@),
{
    let mut s = String::new();
    push_str(&mut s, "return await (");
    push_range(&mut s, source, 0, source.len());
    push_str(&mut s, ")();");
    assert(source@.subrange(0, source@.len() as int) =~= source@);
    s
}

} // verus!
