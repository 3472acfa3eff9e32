//! RFC 7235 §2.1 `WWW-Authenticate` parser.
//!
//! Fail closed: any malformed header returns `None`. A miss is benign; a false
//! positive on `insufficient_scope` would strip a valid re-authenticate recovery.
//!
//! The parser is a state machine over the header's bytes; `spec_parse` states it step by
//! step and `parse_challenges` is proved to compute exactly that.

use vstd::prelude::*;
use vstd::utf8::{decode_utf8, encode_utf8, valid_utf8};
use crate::text::{spec_lower, str_eq, to_ascii_lower, lex_lt, lex_order_str};

verus! {

/// A challenge as plain values: the lower-cased scheme and the parameters sorted by name.
pub type ChallengeView = (Seq<char>, Seq<(Seq<char>, Seq<char>)>);

/// One challenge: `scheme` plus auth-params. `scheme` is lowercased.
#[derive(Clone, Debug, PartialEq, Eq)]
pub struct AuthChallenge {
    /// HTTP token, lowercased (`bearer`, `basic`, …).
    pub scheme: String,
    /// Lowercased parameter names with their values, each name once, sorted by name (the
    /// map the header describes). Signal params (`error`, `scope`) reject duplicates; other
    /// repeats keep the first.
    pub params: Vec<(String, String)>,
}

impl View for AuthChallenge {
    type V = ChallengeView;

    open spec fn view(&self) -> ChallengeView {
        (self.scheme@, self.params@.map_values(|p: (String, String)| (p.0@, p.1@)))
    }
}

/// The value of parameter `key` among `ps`, looking from index `k` on.
pub open spec fn lookup_from(ps: Seq<(Seq<char>, Seq<char>)>, key: Seq<char>, k: int) -> Option<
    Seq<char>,
>
    decreases ps.len() - k,
{
    if k < 0 || k >= ps.len() {
        None
    } else if ps[k].0 == key {
        Some(ps[k].1)
    } else {
        lookup_from(ps, key, k + 1)
    }
}

/// `ps` with `(key, v)` placed before the first parameter whose name sorts after `key`:
/// parameters are kept sorted by name, as a map of names would hold them.
pub open spec fn insert_param(ps: Seq<(Seq<char>, Seq<char>)>, key: Seq<char>, v: Seq<char>) -> Seq<
    (Seq<char>, Seq<char>),
>
    decreases ps.len(),
{
    if ps.len() == 0 {
        seq![(key, v)]
    } else if lex_lt(key, ps[0].0) {
        seq![(key, v)] + ps
    } else {
        seq![ps[0]] + insert_param(ps.drop_first(), key, v)
    }
}

proof fn lemma_insert_prefix(ps: Seq<(Seq<char>, Seq<char>)>, key: Seq<char>, v: Seq<char>, i: int)
    requires
        0 <= i <= ps.len(),
        forall|j: int| 0 <= j < i ==> !lex_lt(key, (#[trigger] ps[j]).0),
    ensures
        insert_param(ps, key, v) == ps.take(i) + insert_param(ps.skip(i), key, v),
    decreases i,
{
    if i > 0 {
        let t = ps.drop_first();
        assert(!lex_lt(key, ps[0].0));
        assert forall|j: int| 0 <= j < i - 1 implies !lex_lt(key, (#[trigger] t[j]).0) by {
            assert(t[j] == ps[j + 1]);
        }
        lemma_insert_prefix(t, key, v, i - 1);
        assert(t.skip(i - 1) =~= ps.skip(i));
        assert(ps.take(i) =~= seq![ps[0]] + t.take(i - 1));
    } else {
        assert(ps.skip(0) =~= ps);
        assert(ps.take(0) =~= Seq::<(Seq<char>, Seq<char>)>::empty());
    }
}

/// The value of parameter `key`.
pub open spec fn lookup(ps: Seq<(Seq<char>, Seq<char>)>, key: Seq<char>) -> Option<Seq<char>> {
    lookup_from(ps, key, 0)
}

impl AuthChallenge {
    /// The value of parameter `name` (already lower-cased), if given.
    pub fn param(&self, name: &str) -> (r: Option<String>)
        ensures
            match r {
                Some(v) => lookup(self@.1, name@) == Some(v@),
                None => lookup(self@.1, name@) is None,
            },
    {
        let mut k: usize = 0;
        while k < self.params.len()
            invariant
                k <= self.params@.len(),
                lookup(self@.1, name@) == lookup_from(self@.1, name@, k as int),
            decreases self.params.len() - k,
        {
            if str_eq(self.params[k].0.as_str(), name) {
                return Some(crate::text::copy_str(self.params[k].1.as_str()));
            }
            k += 1;
        }
        None
    }
}

/// Where the parser stands between tokens.
#[derive(Clone, Copy, Debug, PartialEq, Eq, Structural)]
pub enum Phase {
    /// Before any challenge.
    Boundary,
    /// Right after a scheme.
    Scheme,
    /// After a token68 credential.
    Token68,
    /// Inside a parameter list.
    Params,
}

/// Parser state as plain values: position, challenges so far, phase, and whether a comma
/// was seen since the last token.
pub type PState = (int, Seq<ChallengeView>, Phase, bool);

/// The views of a challenge list.
pub open spec fn views(cs: Seq<AuthChallenge>) -> Seq<ChallengeView> {
    cs.map_values(|c: AuthChallenge| c@)
}

// ---------------------------------------------------------------- byte classes

/// `u8::is_ascii_whitespace`.
pub open spec fn is_ascii_ws(x: u8) -> bool {
    x == 0x20 || x == 0x09 || x == 0x0A || x == 0x0C || x == 0x0D
}

/// RFC 7230 `tchar`.
pub open spec fn is_http_token_byte(x: u8) -> bool {
    ||| (0x41u8 <= x && x <= 0x5Au8)
    ||| (0x61u8 <= x && x <= 0x7Au8)
    ||| (0x30u8 <= x && x <= 0x39u8)
    ||| x == 0x21u8 || x == 0x23u8 || x == 0x24u8 || x == 0x25u8 || x == 0x26u8 || x == 0x27u8
    ||| x == 0x2Au8 || x == 0x2Bu8 || x == 0x2Du8 || x == 0x2Eu8 || x == 0x5Eu8 || x == 0x5Fu8
    ||| x == 0x60u8 || x == 0x7Cu8 || x == 0x7Eu8
}

/// A byte of a scheme, parameter name or token68.
pub open spec fn is_word_byte(x: u8) -> bool {
    is_http_token_byte(x) || x == 0x2Fu8
}

/// RFC 7235 `token68` characters (without the trailing `=` padding).
pub open spec fn is_token68_byte(x: u8) -> bool {
    ||| (0x41u8 <= x && x <= 0x5Au8)
    ||| (0x61u8 <= x && x <= 0x7Au8)
    ||| (0x30u8 <= x && x <= 0x39u8)
    ||| x == 0x2Eu8 || x == 0x5Fu8 || x == 0x7Eu8 || x == 0x2Bu8 || x == 0x2Fu8 || x == 0x2Du8
}

/// The runs the parser skips or reads over.
#[derive(Clone, Copy, Debug, PartialEq, Eq, Structural)]
pub enum ByteRun {
    /// Any ASCII whitespace.
    Bws,
    /// Spaces and tabs.
    SpaceTab,
    /// Word bytes.
    Word,
    /// `=` padding.
    Equals,
    /// An unquoted parameter value: anything but space, tab, CR, LF and comma.
    Value,
}

/// Whether `x` continues a run of kind `k`.
pub open spec fn in_run(k: ByteRun, x: u8) -> bool {
    match k {
        ByteRun::Bws => is_ascii_ws(x),
        ByteRun::SpaceTab => x == 0x20u8 || x == 0x09u8,
        ByteRun::Word => is_word_byte(x),
        ByteRun::Equals => x == 0x3Du8,
        ByteRun::Value => !(x == 0x20u8 || x == 0x09u8 || x == 0x0Au8 || x == 0x0Du8 || x == 0x2Cu8),
    }
}

/// The end of the run of kind `k` starting at `i`.
pub open spec fn run_end(b: Seq<u8>, i: int, k: ByteRun) -> int
    decreases b.len() - i,
{
    if 0 <= i < b.len() && in_run(k, b[i]) {
        run_end(b, i + 1, k)
    } else {
        i
    }
}

/// Bytes read as characters one for one.
pub open spec fn ascii_text(s: Seq<u8>) -> Seq<char> {
    s.map_values(|x: u8| x as char)
}

/// A non-empty run of token bytes.
pub open spec fn all_token(s: Seq<u8>) -> bool {
    s.len() > 0 && forall|k: int| 0 <= k < s.len() ==> is_http_token_byte(#[trigger] s[k])
}

/// A non-empty run of token68 bytes.
pub open spec fn all_token68(s: Seq<u8>) -> bool {
    s.len() > 0 && forall|k: int| 0 <= k < s.len() ==> is_token68_byte(#[trigger] s[k])
}

/// `scheme://rest`: an alphabetic first byte, then letters, digits, `+`, `.`, `-` up to the
/// first `:`, then `//` and at least one more byte, none of them whitespace, `,` or `"`.
pub open spec fn is_urlish(s: Seq<u8>) -> bool {
    match first_colon(s, 0) {
        None => false,
        Some(se) => {
            let rest = s.skip(se);
            &&& se != 0
            &&& ((0x41u8 <= s[0] && s[0] <= 0x5Au8) || (0x61u8 <= s[0] && s[0] <= 0x7Au8))
            &&& forall|k: int| 1 <= k < se ==> is_scheme_byte(#[trigger] s[k])
            &&& rest.len() > 3 && rest[1] == 0x2Fu8 && rest[2] == 0x2Fu8
            &&& forall|k: int| 3 <= k < rest.len() ==> !(is_ascii_ws(#[trigger] rest[k]) || rest[k]
                == 0x2Cu8 || rest[k] == 0x22u8)
        },
    }
}

/// Letters, digits, `+`, `.`, `-`.
pub open spec fn is_scheme_byte(x: u8) -> bool {
    (0x41u8 <= x && x <= 0x5Au8) || (0x61u8 <= x && x <= 0x7Au8) || (0x30u8 <= x && x <= 0x39u8) || x == 0x2Bu8
        || x == 0x2Eu8 || x == 0x2Du8
}

/// Index of the first `:` at or after `k`.
pub open spec fn first_colon(s: Seq<u8>, k: int) -> Option<int>
    decreases s.len() - k,
{
    if k < 0 || k >= s.len() {
        None
    } else if s[k] == 0x3Au8 {
        Some(k)
    } else {
        first_colon(s, k + 1)
    }
}

/// What `String::from_utf8_lossy` makes of `b`.
pub uninterp spec fn utf8_lossy(b: Seq<u8>) -> Seq<char>;

// ---------------------------------------------------------------- the machine

/// `=` padding, then only spaces or tabs up to a comma or the end.
pub open spec fn is_padding_run(b: Seq<u8>, i: int) -> bool {
    let k = run_end(b, run_end(b, i, ByteRun::Equals), ByteRun::SpaceTab);
    &&& 0 <= i < b.len() && b[i] == 0x3Du8
    &&& (k >= b.len() || b[k] == 0x2Cu8)
}

/// `=` after optional spaces or tabs.
pub open spec fn peek_equals(b: Seq<u8>, i: int) -> bool {
    let j = run_end(b, i, ByteRun::SpaceTab);
    0 <= j < b.len() && b[j] == 0x3Du8
}

/// A quoted string whose body starts at `i`: its unescaped text (bytes read as characters)
/// and the position after the closing quote, which must be followed by whitespace, `,` or
/// the end.
pub open spec fn read_quoted(b: Seq<u8>, i: int) -> Option<(Seq<char>, int)>
    decreases b.len() - i,
{
    if i < 0 || i >= b.len() {
        None
    } else if b[i] == 0x22u8 {
        let j = i + 1;
        if j >= b.len() || b[j] == 0x20u8 || b[j] == 0x09u8 || b[j] == 0x0Au8 || b[j] == 0x0Du8 || b[j]
            == 0x2Cu8 {
            Some((Seq::empty(), j))
        } else {
            None
        }
    } else if b[i] == 0x5Cu8 && i + 1 < b.len() {
        match read_quoted(b, i + 2) {
            Some((v, e)) => Some((seq![b[i + 1] as char] + v, e)),
            None => None,
        }
    } else {
        match read_quoted(b, i + 1) {
            Some((v, e)) => Some((seq![b[i] as char] + v, e)),
            None => None,
        }
    }
}

/// A parameter value at `i` for parameter `name`: quoted, or an unquoted token (or, for
/// `resource_metadata`, an unquoted URL).
pub open spec fn read_param_value(b: Seq<u8>, i: int, name: Seq<char>) -> Option<(Seq<char>, int)> {
    if 0 <= i < b.len() && b[i] == 0x22u8 {
        read_quoted(b, i + 1)
    } else {
        let e = run_end(b, i, ByteRun::Value);
        let v = utf8_lossy(b.subrange(i, e));
        if v.len() == 0 {
            None
        } else if all_token(encode_utf8(v)) || (spec_lower(name) == "resource_metadata"@
            && is_urlish(encode_utf8(v))) {
            Some((v, e))
        } else {
            None
        }
    }
}

/// A token68 credential with `=` padding after a scheme.
pub open spec fn take_token68_padding(b: Seq<u8>, st: PState, word: Seq<u8>) -> Option<PState> {
    let (i, cs, ph, saw) = st;
    if ph != Phase::Scheme || saw || !all_token68(word) {
        None
    } else {
        Some((run_end(b, i, ByteRun::Equals), cs, Phase::Token68, false))
    }
}

/// `name = value` added to the last challenge.
pub open spec fn take_auth_param(b: Seq<u8>, st: PState, word: Seq<u8>) -> Option<PState> {
    let (i, cs, ph, saw) = st;
    let i1 = run_end(b, i, ByteRun::SpaceTab);
    if !all_token(word) || cs.len() == 0 || ph == Phase::Token68 || (ph == Phase::Scheme && saw)
        || (ph == Phase::Params && !saw) {
        None
    } else if !(0 <= i1 < b.len() && b[i1] == 0x3Du8) {
        None
    } else {
        match read_param_value(b, run_end(b, i1 + 1, ByteRun::SpaceTab), ascii_text(word)) {
            None => None,
            Some((v, e)) => {
                let key = spec_lower(ascii_text(word));
                let cur = cs.last();
                let present = lookup(cur.1, key) is Some;
                if present && (key == "error"@ || key == "scope"@) {
                    None
                } else {
                    let cur2 = if present {
                        cur
                    } else {
                        (cur.0, insert_param(cur.1, key, v))
                    };
                    Some((e, cs.update(cs.len() - 1, cur2), Phase::Params, false))
                }
            },
        }
    }
}

/// A bare word: a new scheme after a comma (or at the start), or a token68 after a scheme.
pub open spec fn take_bare_word(st: PState, word: Seq<u8>) -> Option<PState> {
    let (i, cs, ph, saw) = st;
    if saw {
        if !all_token(word) {
            None
        } else {
            Some(
                (
                    i,
                    cs.push((spec_lower(ascii_text(word)), Seq::empty())),
                    Phase::Scheme,
                    false,
                ),
            )
        }
    } else if ph == Phase::Scheme {
        if !all_token68(word) {
            None
        } else {
            Some((i, cs, Phase::Token68, saw))
        }
    } else {
        None
    }
}

/// The word at `st.0` and what follows it.
pub open spec fn consume_token(b: Seq<u8>, st: PState) -> Option<PState> {
    let (j, cs, ph, saw) = st;
    let e = run_end(b, j, ByteRun::Word);
    let word = b.subrange(j, e);
    let st1 = (e, cs, ph, saw);
    if is_padding_run(b, e) {
        take_token68_padding(b, st1, word)
    } else if peek_equals(b, e) {
        take_auth_param(b, st1, word)
    } else {
        take_bare_word(st1, word)
    }
}

/// The parser run from state `st` to the end of the header.
pub open spec fn run_from(b: Seq<u8>, st: PState) -> Option<Seq<ChallengeView>>
    decreases b.len() - st.0,
{
    let (i, cs, ph, saw) = st;
    let j = run_end(b, i, ByteRun::Bws);
    if j >= b.len() || j < i {
        Some(cs)
    } else if b[j] == 0x2Cu8 {
        run_from(b, (j + 1, cs, ph, true))
    } else if !is_word_byte(b[j]) {
        None
    } else {
        match consume_token(b, (j, cs, ph, saw)) {
            None => None,
            Some(st2) => if j < st2.0 <= b.len() {
                run_from(b, st2)
            } else {
                None
            },
        }
    }
}

/// What `parse_challenges` returns for the header bytes `b`.
pub open spec fn spec_parse(b: Seq<u8>) -> Option<Seq<ChallengeView>> {
    run_from(b, (0, Seq::empty(), Phase::Boundary, true))
}

/// A run ends at or after its start, and not past the end.
pub proof fn lemma_run_end(b: Seq<u8>, i: int, k: ByteRun)
    ensures
        run_end(b, i, k) >= i,
        0 <= i <= b.len() ==> run_end(b, i, k) <= b.len(),
        forall|m: int| i <= m < run_end(b, i, k) ==> in_run(k, #[trigger] b[m]),
    decreases b.len() - i,
{
    if 0 <= i < b.len() && in_run(k, b[i]) {
        lemma_run_end(b, i + 1, k);
    }
}

/// A quoted string reads its body as it stands: when the `n` bytes from `i` hold neither `"`
/// nor `\`, and a `"` follows them before the end, whitespace or a comma, the value is those
/// bytes (each read as a character) and reading resumes after the closing quote. Any other
/// byte, a comma among them, may stand in the body.
pub proof fn law_quoted_body(b: Seq<u8>, i: int, n: int)
    requires
        0 <= i,
        0 <= n,
        i + n < b.len(),
        forall|k: int| i <= k < i + n ==> #[trigger] b[k] != 0x22u8 && b[k] != 0x5Cu8,
        b[i + n] == 0x22u8,
        i + n + 1 == b.len() || b[i + n + 1] == 0x20u8 || b[i + n + 1] == 0x09u8 || b[i + n + 1]
            == 0x0Au8 || b[i + n + 1] == 0x0Du8 || b[i + n + 1] == 0x2Cu8,
    ensures
        read_quoted(b, i) == Some((b.subrange(i, i + n).map_values(|x: u8| x as char), i + n + 1)),
    decreases n,
{
    if n > 0 {
        law_quoted_body(b, i + 1, n - 1);
        assert(b[i] != 0x22u8 && b[i] != 0x5Cu8);
        assert(seq![b[i] as char] + b.subrange(i + 1, i + n).map_values(|x: u8| x as char) =~= b.subrange(
            i,
            i + n,
        ).map_values(|x: u8| x as char));
    } else {
        assert(b.subrange(i, i).map_values(|x: u8| x as char) =~= Seq::<char>::empty());
    }
}

/// A run of kind `k` from `i` ends at `j` when every byte before `j` continues it and the one
/// at `j` (if any) does not.
proof fn lemma_run_end_at(b: Seq<u8>, i: int, j: int, k: ByteRun)
    requires
        0 <= i <= j <= b.len(),
        forall|m: int| i <= m < j ==> in_run(k, #[trigger] b[m]),
        j < b.len() ==> !in_run(k, b[j]),
    ensures
        run_end(b, i, k) == j,
    decreases j - i,
{
    if i < j {
        lemma_run_end_at(b, i + 1, j, k);
    }
}

/// One challenge with one quoted parameter: `<scheme> <name>="<body>"` parses as that scheme
/// (lower-cased) with that parameter (name lower-cased, value the body as written), whatever
/// the body holds but `"` and `\`, commas included.
pub proof fn law_one_quoted_param(scheme: Seq<u8>, name: Seq<u8>, body: Seq<u8>)
    requires
        all_token(scheme),
        all_token(name),
        forall|k: int| 0 <= k < body.len() ==> #[trigger] body[k] != 0x22u8 && body[k] != 0x5Cu8,
    ensures
        spec_parse(scheme + seq![0x20u8] + name + seq![0x3Du8, 0x22u8] + body + seq![0x22u8]) == Some(
            seq![(spec_lower(ascii_text(scheme)), seq![(spec_lower(ascii_text(name)), ascii_text(body))])],
        ),
{
    let b = scheme + seq![0x20u8] + name + seq![0x3Du8, 0x22u8] + body + seq![0x22u8];
    let l = scheme.len() as int;
    let p = name.len() as int;
    let n = body.len() as int;
    let e = l + 1 + p;
    assert(b.len() == e + 3 + n);
    assert forall|m: int| 0 <= m < l implies #[trigger] b[m] == scheme[m] by {}
    assert forall|m: int| l + 1 <= m < e implies #[trigger] b[m] == name[m - l - 1] by {}
    assert forall|m: int| e + 2 <= m < e + 2 + n implies #[trigger] b[m] == body[m - e - 2] by {}
    assert(b[l] == 0x20u8);
    assert(b[e] == 0x3Du8);
    assert(b[e + 1] == 0x22u8);
    assert(b[e + 2 + n] == 0x22u8);
    assert(b.subrange(0, l) =~= scheme);
    assert(b.subrange(l + 1, e) =~= name);
    assert(b.subrange(e + 2, e + 2 + n) =~= body);
    assert(is_http_token_byte(scheme[0]));
    assert(is_http_token_byte(name[0]));
    assert(b[l + 1] == name[0]);
    // the scheme
    lemma_run_end_at(b, 0, 0, ByteRun::Bws);
    assert forall|m: int| 0 <= m < l implies in_run(ByteRun::Word, #[trigger] b[m]) by {
        assert(is_http_token_byte(scheme[m]));
    }
    lemma_run_end_at(b, 0, l, ByteRun::Word);
    lemma_run_end_at(b, l, l + 1, ByteRun::SpaceTab);
    let cs1 = seq![(spec_lower(ascii_text(scheme)), Seq::<(Seq<char>, Seq<char>)>::empty())];
    assert(consume_token(b, (0, Seq::empty(), Phase::Boundary, true)) == Some((l, cs1, Phase::Scheme, false)));
    // the parameter
    lemma_run_end_at(b, l, l + 1, ByteRun::Bws);
    assert forall|m: int| l + 1 <= m < e implies in_run(ByteRun::Word, #[trigger] b[m]) by {
        assert(is_http_token_byte(name[m - l - 1]));
    }
    lemma_run_end_at(b, l + 1, e, ByteRun::Word);
    lemma_run_end_at(b, e, e + 1, ByteRun::Equals);
    lemma_run_end_at(b, e + 1, e + 1, ByteRun::SpaceTab);
    lemma_run_end_at(b, e, e, ByteRun::SpaceTab);
    assert(!is_padding_run(b, e));
    assert(peek_equals(b, e));
    law_quoted_body(b, e + 2, n);
    assert(b.subrange(e + 2, e + 2 + n).map_values(|x: u8| x as char) =~= ascii_text(body));
    assert(read_param_value(b, e + 1, ascii_text(name)) == Some((ascii_text(body), e + 3 + n)));
    let key = spec_lower(ascii_text(name));
    assert(lookup(Seq::<(Seq<char>, Seq<char>)>::empty(), key) is None);
    let cs2 = seq![(spec_lower(ascii_text(scheme)), seq![(key, ascii_text(body))])];
    assert(cs1.update(0, (cs1[0].0, insert_param(cs1[0].1, key, ascii_text(body)))) =~= cs2);
    assert(take_auth_param(b, (e, cs1, Phase::Scheme, false), name) == Some((b.len() as int, cs2, Phase::Params, false)));
    assert(consume_token(b, (l + 1, cs1, Phase::Scheme, false)) == Some((b.len() as int, cs2, Phase::Params, false)));
    lemma_run_end_at(b, b.len() as int, b.len() as int, ByteRun::Bws);
    assert(run_from(b, (b.len() as int, cs2, Phase::Params, false)) == Some(cs2));
    assert(run_from(b, (l, cs1, Phase::Scheme, false)) == Some(cs2));
}

/// A quoted string ends past its start and inside the header.
pub proof fn lemma_read_quoted(b: Seq<u8>, i: int)
    ensures
        read_quoted(b, i) matches Some((v, e)) ==> i < e <= b.len(),
    decreases b.len() - i,
{
    if 0 <= i < b.len() && b[i] != 0x22u8 {
        if b[i] == 0x5Cu8 && i + 1 < b.len() {
            lemma_read_quoted(b, i + 2);
        } else {
            lemma_read_quoted(b, i + 1);
        }
    }
}

} // verus!

verus! {

// ---------------------------------------------------------------- implementation

/// `String::from_utf8_lossy(b).into_owned()`: the text of `b`, with each invalid sequence
/// replaced by U+FFFD. On valid UTF-8 it is the decoded text.
#[verifier::external_body]
fn from_utf8_lossy(b: &[u8]) -> (r: String)
    ensures
        r@ == utf8_lossy(b@),
        valid_utf8(b@) ==> r@ == decode_utf8(b@),
{
    String::from_utf8_lossy(b).into_owned()
}

fn in_run_exec(k: ByteRun, x: u8) -> (r: bool)
    ensures
        r == in_run(k, x),
{
    match k {
        ByteRun::Bws => x == 0x20 || x == 0x09 || x == 0x0A || x == 0x0C || x == 0x0D,
        ByteRun::SpaceTab => x == 0x20u8 || x == 0x09u8,
        ByteRun::Word => is_word_byte_exec(x),
        ByteRun::Equals => x == 0x3Du8,
        ByteRun::Value => !(x == 0x20u8 || x == 0x09u8 || x == 0x0Au8 || x == 0x0Du8 || x == 0x2Cu8),
    }
}

fn is_http_token_byte_exec(x: u8) -> (r: bool)
    ensures
        r == is_http_token_byte(x),
{
    (0x41u8 <= x && x <= 0x5Au8) || (0x61u8 <= x && x <= 0x7Au8) || (0x30u8 <= x && x <= 0x39u8) || x == 0x21u8
        || x == 0x23u8 || x == 0x24u8 || x == 0x25u8 || x == 0x26u8 || x == 0x27u8 || x == 0x2Au8 || x
        == 0x2Bu8 || x == 0x2Du8 || x == 0x2Eu8 || x == 0x5Eu8 || x == 0x5Fu8 || x == 0x60u8 || x == 0x7Cu8
        || x == 0x7Eu8
}

fn is_word_byte_exec(x: u8) -> (r: bool)
    ensures
        r == is_word_byte(x),
{
    is_http_token_byte_exec(x) || x == 0x2Fu8
}

fn is_token68_byte_exec(x: u8) -> (r: bool)
    ensures
        r == is_token68_byte(x),
{
    (0x41u8 <= x && x <= 0x5Au8) || (0x61u8 <= x && x <= 0x7Au8) || (0x30u8 <= x && x <= 0x39u8) || x == 0x2Eu8
        || x == 0x5Fu8 || x == 0x7Eu8 || x == 0x2Bu8 || x == 0x2Fu8 || x == 0x2Du8
}

fn run_end_at(b: &[u8], i: usize, k: ByteRun) -> (r: usize)
    requires
        i <= b@.len(),
    ensures
        r as int == run_end(b@, i as int, k),
        i <= r <= b@.len(),
{
    let mut j = i;
    while j < b.len() && in_run_exec(k, b[j])
        invariant
            i <= j <= b@.len(),
            run_end(b@, j as int, k) == run_end(b@, i as int, k),
        decreases b.len() - j,
    {
        j += 1;
    }
    j
}

fn all_token_exec(s: &[u8]) -> (r: bool)
    ensures
        r == all_token(s@),
{
    if s.len() == 0 {
        return false;
    }
    let mut k: usize = 0;
    while k < s.len()
        invariant
            k <= s@.len(),
            forall|m: int| 0 <= m < k ==> is_http_token_byte(#[trigger] s@[m]),
        decreases s.len() - k,
    {
        if !is_http_token_byte_exec(s[k]) {
            return false;
        }
        k += 1;
    }
    true
}

fn all_token68_exec(s: &[u8]) -> (r: bool)
    ensures
        r == all_token68(s@),
{
    if s.len() == 0 {
        return false;
    }
    let mut k: usize = 0;
    while k < s.len()
        invariant
            k <= s@.len(),
            forall|m: int| 0 <= m < k ==> is_token68_byte(#[trigger] s@[m]),
        decreases s.len() - k,
    {
        if !is_token68_byte_exec(s[k]) {
            return false;
        }
        k += 1;
    }
    true
}

fn is_urlish_exec(s: &[u8]) -> (r: bool)
    ensures
        r == is_urlish(s@),
{
    let mut se: usize = 0;
    while se < s.len() && s[se] != 0x3Au8
        invariant
            se <= s@.len(),
            first_colon(s@, 0) == first_colon(s@, se as int),
        decreases s.len() - se,
    {
        se += 1;
    }
    if se >= s.len() {
        return false;
    }
    if se == 0 || !((0x41u8 <= s[0] && s[0] <= 0x5Au8) || (0x61u8 <= s[0] && s[0] <= 0x7Au8)) {
        return false;
    }
    let mut k: usize = 1;
    while k < se
        invariant
            1 <= k <= se < s@.len(),
            first_colon(s@, 0) == Some(se as int),
            forall|m: int| 1 <= m < k ==> is_scheme_byte(#[trigger] s@[m]),
        decreases se - k,
    {
        let x = s[k];
        if !((0x41u8 <= x && x <= 0x5Au8) || (0x61u8 <= x && x <= 0x7Au8) || (0x30u8 <= x && x <= 0x39u8) || x
            == 0x2Bu8 || x == 0x2Eu8 || x == 0x2Du8) {
            assert(!is_scheme_byte(s@[k as int]));
            return false;
        }
        k += 1;
    }
    let n = s.len() - se;
    if n <= 3 || s[se + 1] != 0x2Fu8 || s[se + 2] != 0x2Fu8 {
        assert(s@.skip(se as int).len() == n);
        if n > 3 {
            assert(s@.skip(se as int)[1] == s@[se + 1]);
            assert(s@.skip(se as int)[2] == s@[se + 2]);
        }
        return false;
    }
    let ghost rest = s@.skip(se as int);
    assert(rest[1] == s@[se + 1] && rest[2] == s@[se + 2]);
    let mut m: usize = se + 3;
    while m < s.len()
        invariant
            se + 3 <= m <= s@.len(),
            rest == s@.skip(se as int),
            first_colon(s@, 0) == Some(se as int),
            forall|q: int| 3 <= q < m - se ==> !(is_ascii_ws(#[trigger] rest[q]) || rest[q] == 0x2Cu8
                || rest[q] == 0x22u8),
        decreases s.len() - m,
    {
        let x = s[m];
        assert(rest[m - se] == x);
        if x == 0x20 || x == 0x09 || x == 0x0A || x == 0x0C || x == 0x0D || x == 0x2Cu8 || x
            == 0x22u8 {
            assert(is_ascii_ws(rest[m - se]) || rest[m - se] == 0x2Cu8 || rest[m - se] == 0x22u8);
            return false;
        }
        m += 1;
    }
    true
}

/// Bytes `b[from..to]` as characters, one for one, lower-cased when `lower`.
fn bytes_text(b: &[u8], from: usize, to: usize, lower: bool) -> (r: String)
    requires
        from <= to <= b@.len(),
    ensures
        lower ==> r@ == spec_lower(ascii_text(b@.subrange(from as int, to as int))),
        !lower ==> r@ == ascii_text(b@.subrange(from as int, to as int)),
{
    let mut s = String::new();
    let mut k = from;
    while k < to
        invariant
            from <= k <= to <= b@.len(),
            lower ==> s@ == spec_lower(ascii_text(b@.subrange(from as int, k as int))),
            !lower ==> s@ == ascii_text(b@.subrange(from as int, k as int)),
        decreases to - k,
    {
        let ch = b[k] as char;
        let pushed = if lower {
            to_ascii_lower(ch)
        } else {
            ch
        };
        crate::text::push_char(&mut s, pushed);
        proof {
            assert(b@.subrange(from as int, k + 1) =~= b@.subrange(from as int, k as int).push(
                b@[k as int],
            ));
            assert(ascii_text(b@.subrange(from as int, k + 1)) =~= ascii_text(
                b@.subrange(from as int, k as int),
            ).push(ch));
            assert(spec_lower(ascii_text(b@.subrange(from as int, k + 1))) =~= spec_lower(
                ascii_text(b@.subrange(from as int, k as int)),
            ).push(crate::text::spec_to_ascii_lower(ch)));
        }
        k += 1;
    }
    s
}

/// Parse authentication challenges without joining parameters across schemes.
///
/// Returns `None` when the header is malformed.
pub fn parse_challenges(header: &str) -> (r: Option<Vec<AuthChallenge>>)
    ensures
        match r {
            Some(cs) => spec_parse(encode_utf8(header@)) == Some(views(cs@)),
            None => spec_parse(encode_utf8(header@)) is None,
        },
{
    let b = header.as_bytes();
    let mut i: usize = 0;
    let mut cs: Vec<AuthChallenge> = Vec::new();
    let mut ph = Phase::Boundary;
    let mut saw = true;
    assert(views(cs@) =~= Seq::<ChallengeView>::empty());
    while i < b.len()
        invariant
            i <= b@.len(),
            b@ == encode_utf8(header@),
            spec_parse(b@) == run_from(b@, (i as int, views(cs@), ph, saw)),
        decreases b.len() - i,
    {
        let j = run_end_at(b, i, ByteRun::Bws);
        if j >= b.len() {
            proof {
                lemma_run_end(b@, j as int, ByteRun::Bws);
            }
            i = j;
        } else if b[j] == 0x2Cu8 {
            saw = true;
            i = j + 1;
        } else if !is_word_byte_exec(b[j]) {
            return None;
        } else {
            match consume_token_at(b, j, &mut cs, ph, saw) {
                None => {
                    return None;
                },
                Some((i2, ph2, s2)) => {
                    i = i2;
                    ph = ph2;
                    saw = s2;
                },
            }
        }
    }
    proof {
        lemma_run_end(b@, i as int, ByteRun::Bws);
    }
    Some(cs)
}

fn consume_token_at(
    b: &[u8],
    j: usize,
    cs: &mut Vec<AuthChallenge>,
    ph: Phase,
    saw: bool,
) -> (r: Option<(usize, Phase, bool)>)
    requires
        j < b@.len(),
        is_word_byte(b@[j as int]),
    ensures
        match r {
            Some((i2, p2, s2)) => {
                &&& consume_token(b@, (j as int, views(old(cs)@), ph, saw)) == Some(
                    (i2 as int, views(final(cs)@), p2, s2),
                )
                &&& j < i2 <= b@.len()
            },
            None => consume_token(b@, (j as int, views(old(cs)@), ph, saw)) is None,
        },
{
    let e = run_end_at(b, j, ByteRun::Word);
    proof {
        lemma_run_end(b@, j as int, ByteRun::Word);
        lemma_run_end(b@, e as int, ByteRun::Equals);
    }
    let word = crate::text::slice_bytes(b, j, e);
    let eq_end = run_end_at(b, e, ByteRun::Equals);
    let k = run_end_at(b, eq_end, ByteRun::SpaceTab);
    let padding = e < b.len() && b[e] == 0x3Du8 && (k >= b.len() || b[k] == 0x2Cu8);
    if padding {
        if ph != Phase::Scheme || saw || !all_token68_exec(&word) {
            return None;
        }
        return Some((eq_end, Phase::Token68, false));
    }
    let p = run_end_at(b, e, ByteRun::SpaceTab);
    if p < b.len() && b[p] == 0x3Du8 {
        take_auth_param_at(b, e, &word, cs, ph, saw)
    } else {
        if saw {
            if !all_token_exec(&word) {
                return None;
            }
            let scheme = bytes_text(&word, 0, word.len(), true);
            assert(word@.subrange(0, word@.len() as int) =~= word@);
            let fresh = AuthChallenge { scheme, params: Vec::new() };
            assert(fresh@.1 =~= Seq::<(Seq<char>, Seq<char>)>::empty());
            cs.push(fresh);
            proof {
                assert(views(cs@) =~= views(old(cs)@).push(
                    (spec_lower(ascii_text(word@)), Seq::empty()),
                ));
            }
            return Some((e, Phase::Scheme, false));
        }
        if ph == Phase::Scheme {
            if !all_token68_exec(&word) {
                return None;
            }
            return Some((e, Phase::Token68, saw));
        }
        None
    }
}

fn take_auth_param_at(
    b: &[u8],
    i: usize,
    word: &Vec<u8>,
    cs: &mut Vec<AuthChallenge>,
    ph: Phase,
    saw: bool,
) -> (r: Option<(usize, Phase, bool)>)
    requires
        i <= b@.len(),
    ensures
        match r {
            Some((i2, p2, s2)) => {
                &&& take_auth_param(b@, (i as int, views(old(cs)@), ph, saw), word@) == Some(
                    (i2 as int, views(final(cs)@), p2, s2),
                )
                &&& i < i2 <= b@.len()
            },
            None => take_auth_param(b@, (i as int, views(old(cs)@), ph, saw), word@) is None,
        },
{
    if !all_token_exec(word) || cs.len() == 0 || ph == Phase::Token68 || (ph == Phase::Scheme
        && saw) || (ph == Phase::Params && !saw) {
        return None;
    }
    let i1 = run_end_at(b, i, ByteRun::SpaceTab);
    if !(i1 < b.len() && b[i1] == 0x3Du8) {
        return None;
    }
    let start = run_end_at(b, i1 + 1, ByteRun::SpaceTab);
    let name = bytes_text(word, 0, word.len(), false);
    assert(word@.subrange(0, word@.len() as int) =~= word@);
    let (value, e) = match read_param_value_at(b, start, &name) {
        Some(found) => found,
        None => return None,
    };
    let key = bytes_text(word, 0, word.len(), true);
    let mut cur = cs.pop().unwrap();
    proof {
        assert(views(old(cs)@).last() == cur@);
    }
    let present = cur.param(key.as_str()).is_some();
    if present && (str_eq(key.as_str(), "error") || str_eq(key.as_str(), "scope")) {
        return None;
    }
    let ghost before = cur@;
    if !present {
        let ghost kv = key@;
        let ghost vv = value@;
        let mut at: usize = 0;
        while at < cur.params.len()
            invariant_except_break
                at <= cur.params@.len(),
                cur@ == before,
                forall|j: int| 0 <= j < at ==> !lex_lt(kv, (#[trigger] before.1[j]).0),
            invariant
                cur@ == before,
                kv == key@,
            ensures
                at <= cur.params@.len(),
                forall|j: int| 0 <= j < at ==> !lex_lt(kv, (#[trigger] before.1[j]).0),
                at < cur.params@.len() ==> lex_lt(kv, before.1[at as int].0),
            decreases cur.params.len() - at,
        {
            assert(before.1[at as int].0 == cur.params@[at as int].0@);
            if lex_order_str(key.as_str(), cur.params[at].0.as_str()) == -1 {
                break;
            }
            at += 1;
        }
        proof {
            lemma_insert_prefix(before.1, kv, vv, at as int);
        }
        cur.params.insert(at, (key, value));
        proof {
            if at < before.1.len() {
                assert(before.1.skip(at as int)[0] == before.1[at as int]);
                assert(insert_param(before.1.skip(at as int), kv, vv) =~= seq![(kv, vv)] + before.1.skip(at as int));
            } else {
                assert(before.1.skip(at as int) =~= Seq::<(Seq<char>, Seq<char>)>::empty());
            }
            assert(cur@.1 =~= before.1.take(at as int) + insert_param(before.1.skip(at as int), kv, vv));
        }
    }
    cs.push(cur);
    proof {
        assert(views(cs@) =~= views(old(cs)@).update(views(old(cs)@).len() - 1, cur@));
    }
    Some((e, Phase::Params, false))
}

fn read_param_value_at(b: &[u8], i: usize, name: &String) -> (r: Option<(String, usize)>)
    requires
        i <= b@.len(),
    ensures
        match r {
            Some((v, e)) => read_param_value(b@, i as int, name@) == Some((v@, e as int)) && i < e
                <= b@.len(),
            None => read_param_value(b@, i as int, name@) is None,
        },
{
    if i < b.len() && b[i] == 0x22u8 {
        return read_quoted_at(b, i + 1);
    }
    let e = run_end_at(b, i, ByteRun::Value);
    let raw = crate::text::slice_bytes(b, i, e);
    let value = from_utf8_lossy(&raw);
    if value.as_str().is_empty() {
        return None;
    }
    let vb = value.as_str().as_bytes();
    let mut lower_name = String::new();
    let name_chars = crate::text::to_chars(name.as_str());
    let mut k: usize = 0;
    while k < name_chars.len()
        invariant
            k <= name_chars@.len(),
            name_chars@ == name@,
            lower_name@ == spec_lower(name@.take(k as int)),
        decreases name_chars.len() - k,
    {
        crate::text::push_char(&mut lower_name, to_ascii_lower(name_chars[k]));
        assert(spec_lower(name@.take(k + 1)) =~= spec_lower(name@.take(k as int)).push(
            crate::text::spec_to_ascii_lower(name@[k as int]),
        ));
        k += 1;
    }
    assert(name@.take(name@.len() as int) =~= name@);
    if all_token_exec(vb) || (str_eq(lower_name.as_str(), "resource_metadata") && is_urlish_exec(
        vb,
    )) {
        proof {
            if e == i {
                assert(raw@ =~= Seq::<u8>::empty());
                assert(decode_utf8(raw@) =~= Seq::<char>::empty());
            }
        }
        Some((value, e))
    } else {
        None
    }
}

fn read_quoted_at(b: &[u8], start: usize) -> (r: Option<(String, usize)>)
    requires
        start <= b@.len(),
    ensures
        match r {
            Some((v, e)) => read_quoted(b@, start as int) == Some((v@, e as int)) && start < e
                <= b@.len(),
            None => read_quoted(b@, start as int) is None,
        },
{
    proof {
        lemma_read_quoted(b@, start as int);
    }
    let mut value = String::new();
    let mut i = start;
    while i < b.len()
        invariant
            start <= i <= b@.len(),
            read_quoted(b@, start as int) == match read_quoted(b@, i as int) {
                Some((v, e)) => Some((value@ + v, e)),
                None => None,
            },
        decreases b.len() - i,
    {
        let ch = b[i];
        if ch == 0x22u8 {
            let j = i + 1;
            let ok = j >= b.len() || b[j] == 0x20u8 || b[j] == 0x09u8 || b[j] == 0x0Au8 || b[j]
                == 0x0Du8 || b[j] == 0x2Cu8;
            if ok {
                assert(value@ + Seq::<char>::empty() =~= value@);
                return Some((value, j));
            }
            return None;
        }
        let ghost before = value@;
        if ch == 0x5Cu8 && i + 1 < b.len() {
            crate::text::push_char(&mut value, b[i + 1] as char);
            proof {
                match read_quoted(b@, i + 2) {
                    Some((v, e)) => assert(before + (seq![b@[i + 1] as char] + v) =~= value@ + v),
                    None => {},
                }
            }
            i = i + 2;
        } else {
            crate::text::push_char(&mut value, ch as char);
            proof {
                match read_quoted(b@, i + 1) {
                    Some((v, e)) => assert(before + (seq![ch as char] + v) =~= value@ + v),
                    None => {},
                }
            }
            i = i + 1;
        }
    }
    None
}

} // verus!
