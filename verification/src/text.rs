//! Character classes and conversions between `str`, `String` and `Vec<char>`,
//! with the trimming, splitting and searching the rest of the crate builds on.

use vstd::prelude::*;

verus! {

/// Unicode `White_Space`, the set `char::is_whitespace` tests.
pub open spec fn spec_is_whitespace(c: char) -> bool {
    ||| ('\t' <= c && c <= '\r')
    ||| c == ' '
    ||| c == '\u{85}'
    ||| c == '\u{A0}'
    ||| c == '\u{1680}'
    ||| ('\u{2000}' <= c && c <= '\u{200A}')
    ||| c == '\u{2028}'
    ||| c == '\u{2029}'
    ||| c == '\u{202F}'
    ||| c == '\u{205F}'
    ||| c == '\u{3000}'
}

/// `char::is_whitespace`.
pub fn is_whitespace(c: char) -> (r: bool)
    ensures
        r == spec_is_whitespace(c),
{
    ('\t' <= c && c <= '\r') || c == ' ' || c == '\u{85}' || c == '\u{A0}' || c == '\u{1680}'
        || ('\u{2000}' <= c && c <= '\u{200A}') || c == '\u{2028}' || c == '\u{2029}'
        || c == '\u{202F}' || c == '\u{205F}' || c == '\u{3000}'
}

/// ASCII letters and digits.
pub open spec fn spec_is_ascii_alnum(c: char) -> bool {
    ('a' <= c && c <= 'z') || ('A' <= c && c <= 'Z') || ('0' <= c && c <= '9')
}

/// `char::is_ascii_alphanumeric`.
pub fn is_ascii_alnum(c: char) -> (r: bool)
    ensures
        r == spec_is_ascii_alnum(c),
{
    ('a' <= c && c <= 'z') || ('A' <= c && c <= 'Z') || ('0' <= c && c <= '9')
}

/// ASCII upper-case letters.
pub open spec fn spec_is_ascii_upper(c: char) -> bool {
    'A' <= c && c <= 'Z'
}

/// `char::to_ascii_lowercase`.
pub open spec fn spec_to_ascii_lower(c: char) -> char {
    if spec_is_ascii_upper(c) {
        ((c as u32) + 32) as char
    } else {
        c
    }
}

/// `char::to_ascii_lowercase`.
pub fn to_ascii_lower(c: char) -> (r: char)
    ensures
        r == spec_to_ascii_lower(c),
{
    if 'A' <= c && c <= 'Z' {
        let u: u32 = (c as u32) + 32;
        assert(u <= 0x7f);
        char_from_ascii(u)
    } else {
        c
    }
}

/// `str::to_ascii_lowercase` over characters.
pub open spec fn spec_lower(s: Seq<char>) -> Seq<char> {
    s.map_values(|c: char| spec_to_ascii_lower(c))
}

/// `str::to_ascii_lowercase` over a run of characters.
pub fn lower_chars(v: &[char]) -> (r: Vec<char>)
    ensures
        r@ == spec_lower(v@),
{
    let mut out: Vec<char> = Vec::new();
    let mut k: usize = 0;
    while k < v.len()
        invariant
            k <= v@.len(),
            out@ == spec_lower(v@.take(k as int)),
        decreases v.len() - k,
    {
        out.push(to_ascii_lower(v[k]));
        proof {
            assert(spec_lower(v@.take(k + 1)) =~= spec_lower(v@.take(k as int)).push(
                spec_to_ascii_lower(v@[k as int]),
            ));
        }
        k += 1;
    }
    assert(v@.take(v@.len() as int) =~= v@);
    out
}

/// Lower-case hex digit for `d < 16`.
pub open spec fn hex_digit_lower(d: nat) -> char {
    if d < 10 {
        (('0' as nat) + d) as char
    } else {
        (('a' as nat) + d - 10) as char
    }
}

/// `format!("{n:x}")`: lower-case hex without leading zeros (`0` for zero).
pub open spec fn spec_hex(n: nat) -> Seq<char>
    decreases n,
{
    if n < 16 {
        seq![hex_digit_lower(n)]
    } else {
        spec_hex(n / 16) + seq![hex_digit_lower(n % 16)]
    }
}

/// `format!("{n:x}")` for an unsigned integer.
pub fn hex_lower(n: u128) -> (r: String)
    ensures
        r@ == spec_hex(n as nat),
    decreases n,
{
    let d = (n % 16) as u32;
    let c = if d < 10 {
        char_from_ascii(48 + d)
    } else {
        char_from_ascii(97 + d - 10)
    };
    if n < 16 {
        let mut s = String::new();
        push_char(&mut s, c);
        assert(s@ =~= seq![hex_digit_lower(n as nat)]);
        s
    } else {
        let mut s = hex_lower(n / 16);
        push_char(&mut s, c);
        s
    }
}

/// An ASCII code point as a `char`.
pub fn char_from_ascii(u: u32) -> (c: char)
    requires
        u <= 0x7f,
    ensures
        c as u32 == u,
        c == u as char,
{
    let b: u8 = u as u8;
    let c = b as char;
    c
}

/// `String::push`: appends one character.
#[verifier::external_body]
pub fn push_char(s: &mut String, c: char)
    ensures
        final(s)@ == old(s)@.push(c),
{
    s.push(c);
}

/// The characters of `s`, in order.
pub fn to_chars(s: &str) -> (v: Vec<char>)
    ensures
        v@ == s@,
{
    let mut v: Vec<char> = Vec::new();
    for c in it: s.chars()
        invariant
            v@ == it.seq().take(it.index() as int),
    {
        v.push(c);
    }
    v
}

/// A `String` holding exactly `v[from..to]`.
pub fn from_char_range(v: &[char], from: usize, to: usize) -> (s: String)
    requires
        from <= to <= v@.len(),
    ensures
        s@ == v@.subrange(from as int, to as int),
{
    let mut s = String::new();
    let mut i = from;
    while i < to
        invariant
            from <= i <= to <= v@.len(),
            s@ == v@.subrange(from as int, i as int),
        decreases to - i,
    {
        push_char(&mut s, v[i]);
        assert(v@.subrange(from as int, i + 1) == v@.subrange(from as int, i as int).push(v@[i as int]));
        i += 1;
    }
    s
}

/// A `String` holding exactly `v`.
pub fn from_chars(v: &[char]) -> (s: String)
    ensures
        s@ == v@,
{
    let s = from_char_range(v, 0, v.len());
    assert(v@.subrange(0, v@.len() as int) == v@);
    s
}

/// A copy of `s`.
pub fn copy_str(s: &str) -> (r: String)
    ensures
        r@ == s@,
{
    let v = to_chars(s);
    from_chars(&v)
}

/// Appends `v[from..to]` to `s`.
pub fn push_range(s: &mut String, v: &[char], from: usize, to: usize)
    requires
        from <= to <= v@.len(),
    ensures
        final(s)@ == old(s)@ + v@.subrange(from as int, to as int),
{
    let mut i = from;
    while i < to
        invariant
            from <= i <= to <= v@.len(),
            s@ == old(s)@ + v@.subrange(from as int, i as int),
        decreases to - i,
    {
        push_char(s, v[i]);
        assert(v@.subrange(from as int, i + 1) == v@.subrange(from as int, i as int).push(v@[i as int]));
        i += 1;
    }
}

/// Appends every character of `t` to `s`.
pub fn push_str(s: &mut String, t: &str)
    ensures
        final(s)@ == old(s)@ + t@,
{
    let v = to_chars(t);
    push_range(s, &v, 0, v.len());
    assert(v@.subrange(0, v@.len() as int) == v@);
}

/// Whether two character runs are equal.
pub fn chars_eq(a: &[char], b: &[char]) -> (r: bool)
    ensures
        r == (a@ == b@),
{
    if a.len() != b.len() {
        return false;
    }
    let mut i: usize = 0;
    while i < a.len()
        invariant
            a@.len() == b@.len(),
            i <= a@.len(),
            forall|k: int| 0 <= k < i ==> a@[k] == b@[k],
        decreases a.len() - i,
    {
        if a[i] != b[i] {
            return false;
        }
        i += 1;
    }
    assert(a@ =~= b@);
    true
}

/// Whether two strings hold the same characters.
pub fn str_eq(a: &str, b: &str) -> (r: bool)
    ensures
        r == (a@ == b@),
{
    let va = to_chars(a);
    let vb = to_chars(b);
    chars_eq(&va, &vb)
}

/// Whether `v` starting at `i` spells `lit`.
pub open spec fn spec_has_at(v: Seq<char>, i: int, lit: Seq<char>) -> bool {
    0 <= i && i + lit.len() <= v.len() && v.subrange(i, i + lit.len()) == lit
}

/// Whether `v` starting at `i` spells `lit` (`chars.get(i + n) == Some(&c)` for all of `lit`).
pub fn has_at(v: &[char], i: usize, lit: &[char]) -> (r: bool)
    ensures
        r == spec_has_at(v@, i as int, lit@),
{
    if i > v.len() || lit.len() > v.len() - i {
        return false;
    }
    let mut k: usize = 0;
    while k < lit.len()
        invariant
            i + lit@.len() <= v@.len(),
            v@.len() == v.len(),
            k <= lit@.len(),
            forall|j: int| 0 <= j < k ==> v@[i + j] == lit@[j],
        decreases lit.len() - k,
    {
        if v[i + k] != lit[k] {
            assert(v@.subrange(i as int, i + lit@.len())[k as int] != lit@[k as int]);
            return false;
        }
        k += 1;
    }
    assert(v@.subrange(i as int, i + lit@.len()) =~= lit@);
    true
}

/// Whether `v` starts with `lit`.
pub fn starts_with_chars(v: &[char], lit: &str) -> (r: bool)
    ensures
        r == spec_has_at(v@, 0, lit@),
{
    let l = to_chars(lit);
    has_at(v, 0, &l)
}

/// Whether `s` holds the character `c`.
pub fn contains_char(v: &[char], c: char) -> (r: bool)
    ensures
        r == v@.contains(c),
{
    let mut i: usize = 0;
    while i < v.len()
        invariant
            i <= v@.len(),
            forall|k: int| 0 <= k < i ==> v@[k] != c,
        decreases v.len() - i,
    {
        if v[i] == c {
            assert(v@[i as int] == c);
            return true;
        }
        i += 1;
    }
    false
}

// ---------------------------------------------------------------- trimming

/// Number of leading whitespace characters.
pub open spec fn lead_ws(s: Seq<char>) -> nat
    decreases s.len(),
{
    if s.len() > 0 && spec_is_whitespace(s[0]) {
        1 + lead_ws(s.drop_first())
    } else {
        0
    }
}

/// Number of trailing whitespace characters.
pub open spec fn trail_ws(s: Seq<char>) -> nat
    decreases s.len(),
{
    if s.len() > 0 && spec_is_whitespace(s.last()) {
        1 + trail_ws(s.drop_last())
    } else {
        0
    }
}

/// `str::trim_start`.
pub open spec fn spec_trim_start(s: Seq<char>) -> Seq<char> {
    s.skip(lead_ws(s) as int)
}

/// `str::trim_end`.
pub open spec fn spec_trim_end(s: Seq<char>) -> Seq<char> {
    s.take(s.len() - trail_ws(s))
}

/// `str::trim`.
pub open spec fn spec_trim(s: Seq<char>) -> Seq<char> {
    spec_trim_end(spec_trim_start(s))
}

/// `lead_ws` is the index of the first non-whitespace character.
pub proof fn lemma_lead_ws(s: Seq<char>)
    ensures
        lead_ws(s) <= s.len(),
        forall|k: int| 0 <= k < lead_ws(s) ==> spec_is_whitespace(#[trigger] s[k]),
        lead_ws(s) < s.len() ==> !spec_is_whitespace(s[lead_ws(s) as int]),
    decreases s.len(),
{
    if s.len() > 0 && spec_is_whitespace(s[0]) {
        lemma_lead_ws(s.drop_first());
        assert forall|k: int| 0 <= k < lead_ws(s) implies spec_is_whitespace(#[trigger] s[k]) by {
            if k > 0 {
                assert(s[k] == s.drop_first()[k - 1]);
            }
        }
    }
}

/// A position before which all characters are whitespace and at which one is not is `lead_ws`.
pub proof fn lemma_lead_ws_unique(s: Seq<char>, i: int)
    requires
        0 <= i <= s.len(),
        forall|k: int| 0 <= k < i ==> spec_is_whitespace(#[trigger] s[k]),
        i < s.len() ==> !spec_is_whitespace(s[i]),
    ensures
        lead_ws(s) == i,
    decreases s.len(),
{
    if i > 0 {
        assert(spec_is_whitespace(s[0]));
        assert forall|k: int| 0 <= k < i - 1 implies spec_is_whitespace(#[trigger] s.drop_first()[k]) by {
            assert(s.drop_first()[k] == s[k + 1]);
        }
        if i - 1 < s.len() - 1 {
            assert(s.drop_first()[i - 1] == s[i]);
        }
        lemma_lead_ws_unique(s.drop_first(), i - 1);
    } else {
        if s.len() > 0 {
            assert(!spec_is_whitespace(s[0]));
        }
    }
}

/// `trail_ws` counts the whitespace run at the end.
pub proof fn lemma_trail_ws(s: Seq<char>)
    ensures
        trail_ws(s) <= s.len(),
        forall|k: int| s.len() - trail_ws(s) <= k < s.len() ==> spec_is_whitespace(#[trigger] s[k]),
        trail_ws(s) < s.len() ==> !spec_is_whitespace(s[s.len() - trail_ws(s) - 1]),
    decreases s.len(),
{
    if s.len() > 0 && spec_is_whitespace(s.last()) {
        lemma_trail_ws(s.drop_last());
        assert forall|k: int| s.len() - trail_ws(s) <= k < s.len() implies spec_is_whitespace(#[trigger] s[k]) by {
            if k < s.len() - 1 {
                assert(s[k] == s.drop_last()[k]);
            }
        }
        if trail_ws(s) < s.len() {
            assert(s[s.len() - trail_ws(s) - 1] == s.drop_last()[s.drop_last().len() - trail_ws(s.drop_last()) - 1]);
        }
    }
}

/// An end position after which all characters are whitespace and before which one is not is
/// `len - trail_ws`.
pub proof fn lemma_trail_ws_unique(s: Seq<char>, j: int)
    requires
        0 <= j <= s.len(),
        forall|k: int| j <= k < s.len() ==> spec_is_whitespace(#[trigger] s[k]),
        j > 0 ==> !spec_is_whitespace(s[j - 1]),
    ensures
        s.len() - trail_ws(s) == j,
    decreases s.len(),
{
    if j < s.len() {
        assert(spec_is_whitespace(s.last()));
        assert forall|k: int| j <= k < s.len() - 1 implies spec_is_whitespace(#[trigger] s.drop_last()[k]) by {
            assert(s.drop_last()[k] == s[k]);
        }
        if j > 0 {
            assert(s.drop_last()[j - 1] == s[j - 1]);
        }
        lemma_trail_ws_unique(s.drop_last(), j);
    } else {
        if s.len() > 0 {
            assert(!spec_is_whitespace(s[s.len() - 1]));
        }
    }
}

/// Index of the first character of `v` that is not whitespace.
pub fn skip_ws_from(v: &[char], start: usize) -> (i: usize)
    requires
        start <= v@.len(),
    ensures
        start <= i <= v@.len(),
        forall|k: int| start <= k < i ==> spec_is_whitespace(#[trigger] v@[k]),
        i < v@.len() ==> !spec_is_whitespace(v@[i as int]),
{
    let mut i = start;
    while i < v.len() && is_whitespace(v[i])
        invariant
            start <= i <= v@.len(),
            forall|k: int| start <= k < i ==> spec_is_whitespace(#[trigger] v@[k]),
        decreases v.len() - i,
    {
        i += 1;
    }
    i
}

/// Bounds `(start, end)` of `v` with surrounding whitespace removed.
pub fn trim_bounds(v: &[char]) -> (r: (usize, usize))
    ensures
        r.0 <= r.1 <= v@.len(),
        r.0 == lead_ws(v@),
        v@.subrange(r.0 as int, r.1 as int) == spec_trim(v@),
{
    let i = skip_ws_from(v, 0);
    proof {
        lemma_lead_ws_unique(v@, i as int);
    }
    let mut j = v.len();
    while j > i && is_whitespace(v[j - 1])
        invariant
            i <= j <= v@.len(),
            forall|k: int| j <= k < v@.len() ==> spec_is_whitespace(#[trigger] v@[k]),
        decreases j,
    {
        j -= 1;
    }
    proof {
        let t = v@.skip(i as int);
        assert forall|k: int| j - i <= k < t.len() implies spec_is_whitespace(#[trigger] t[k]) by {
            assert(t[k] == v@[k + i]);
        }
        if j - i > 0 {
            assert(t[j - i - 1] == v@[j - 1]);
        }
        lemma_trail_ws_unique(t, j - i);
        assert(v@.subrange(i as int, j as int) =~= t.take(t.len() - trail_ws(t)));
    }
    (i, j)
}

/// `str::trim` into an owned `String`.
pub fn trim(s: &str) -> (r: String)
    ensures
        r@ == spec_trim(s@),
{
    let v = to_chars(s);
    let (a, b) = trim_bounds(&v);
    from_char_range(&v, a, b)
}

/// `str::trim_start` into an owned `String`.
pub fn trim_start_chars(v: &[char]) -> (r: Vec<char>)
    ensures
        r@ == spec_trim_start(v@),
{
    let i = skip_ws_from(v, 0);
    proof {
        lemma_lead_ws_unique(v@, i as int);
    }
    let mut out: Vec<char> = Vec::new();
    let mut k = i;
    while k < v.len()
        invariant
            i <= k <= v@.len(),
            out@ == v@.subrange(i as int, k as int),
        decreases v.len() - k,
    {
        out.push(v[k]);
        assert(v@.subrange(i as int, k + 1) == v@.subrange(i as int, k as int).push(v@[k as int]));
        k += 1;
    }
    assert(v@.subrange(i as int, v@.len() as int) =~= v@.skip(i as int));
    out
}

/// `v[from..to]` as a new vector.
pub fn slice_vec(v: &[char], from: usize, to: usize) -> (r: Vec<char>)
    requires
        from <= to <= v@.len(),
    ensures
        r@ == v@.subrange(from as int, to as int),
{
    let mut out: Vec<char> = Vec::new();
    let mut k = from;
    while k < to
        invariant
            from <= k <= to <= v@.len(),
            out@ == v@.subrange(from as int, k as int),
        decreases to - k,
    {
        out.push(v[k]);
        assert(v@.subrange(from as int, k + 1) == v@.subrange(from as int, k as int).push(v@[k as int]));
        k += 1;
    }
    out
}

/// `str::trim` over characters.
pub fn trim_vec(v: &[char]) -> (r: Vec<char>)
    ensures
        r@ == spec_trim(v@),
{
    let (a, b) = trim_bounds(v);
    slice_vec(v, a, b)
}

// ---------------------------------------------------------------- splitting

/// First index of `c` in `s`.
pub open spec fn find_char(s: Seq<char>, c: char) -> Option<int>
    decreases s.len(),
{
    if s.len() == 0 {
        None
    } else if s[0] == c {
        Some(0)
    } else {
        match find_char(s.drop_first(), c) {
            Some(i) => Some(i + 1),
            None => None,
        }
    }
}

/// `find_char` names the first occurrence, or reports none.
pub proof fn lemma_find_char(s: Seq<char>, c: char)
    ensures
        find_char(s, c) matches Some(i) ==> 0 <= i < s.len() && s[i] == c && forall|k: int|
            0 <= k < i ==> s[k] != c,
        find_char(s, c) is None ==> forall|k: int| 0 <= k < s.len() ==> s[k] != c,
    decreases s.len(),
{
    if s.len() > 0 && s[0] != c {
        lemma_find_char(s.drop_first(), c);
        assert forall|k: int| 0 < k < s.len() implies s[k] == s.drop_first()[k - 1] by {}
    }
}

/// A first occurrence is what `find_char` names.
pub proof fn lemma_find_char_unique(s: Seq<char>, c: char, i: int)
    requires
        0 <= i <= s.len(),
        forall|k: int| 0 <= k < i ==> s[k] != c,
    ensures
        i < s.len() && s[i] == c ==> find_char(s, c) == Some(i),
        i == s.len() ==> find_char(s, c) is None,
{
    lemma_find_char(s, c);
    match find_char(s, c) {
        Some(j) => {
            if j < i {
                assert(s[j] != c);
            }
            if i < s.len() && s[i] == c && j > i {
                assert(s[i] != c);
            }
        },
        None => {},
    }
}

/// `str::split(c)`: the pieces between occurrences of `c` (always at least one).
pub open spec fn split_on(s: Seq<char>, c: char) -> Seq<Seq<char>>
    decreases s.len(),
{
    match find_char(s, c) {
        Some(i) => {
            if 0 <= i < s.len() {
                seq![s.take(i)] + split_on(s.skip(i + 1), c)
            } else {
                seq![s]
            }
        },
        None => seq![s],
    }
}

/// `split_on` always yields at least one piece.
pub proof fn lemma_split_nonempty(s: Seq<char>, c: char)
    ensures
        split_on(s, c).len() >= 1,
    decreases s.len(),
{
    match find_char(s, c) {
        Some(i) => {
            if 0 <= i < s.len() {
                lemma_split_nonempty(s.skip(i + 1), c);
            }
        },
        None => {},
    }
}

/// `s.split(c)` as owned character vectors.
pub fn split_chars(s: &[char], c: char) -> (r: Vec<Vec<char>>)
    ensures
        r@.len() == split_on(s@, c).len(),
        forall|k: int| 0 <= k < r@.len() ==> #[trigger] r@[k]@ == split_on(s@, c)[k],
{
    let mut out: Vec<Vec<char>> = Vec::new();
    let mut start: usize = 0;
    let mut i: usize = 0;
    assert(s@.subrange(0, s@.len() as int) =~= s@);
    assert(out@.map_values(|v: Vec<char>| v@) =~= Seq::<Seq<char>>::empty());
    while i < s.len()
        invariant
            start <= i <= s@.len(),
            forall|k: int| start <= k < i ==> s@[k] != c,
            split_on(s@, c) =~= out@.map_values(|v: Vec<char>| v@) + split_on(
                s@.subrange(start as int, s@.len() as int),
                c,
            ),
        decreases s.len() - i,
    {
        if s[i] == c {
            let ghost rest = s@.subrange(start as int, s@.len() as int);
            proof {
                assert forall|k: int| 0 <= k < i - start implies rest[k] != c by {
                    assert(rest[k] == s@[start + k]);
                }
                lemma_find_char_unique(rest, c, i - start);
                assert(rest.take(i - start) =~= s@.subrange(start as int, i as int));
                assert(rest.skip(i - start + 1) =~= s@.subrange(i + 1, s@.len() as int));
            }
            let piece = slice_vec(s, start, i);
            out.push(piece);
            start = i + 1;
        }
        i += 1;
    }
    let piece = slice_vec(s, start, s.len());
    let ghost rest = s@.subrange(start as int, s@.len() as int);
    proof {
        assert forall|k: int| 0 <= k < rest.len() implies rest[k] != c by {
            assert(rest[k] == s@[start + k]);
        }
        lemma_find_char_unique(rest, c, rest.len() as int);
    }
    out.push(piece);
    proof {
        assert(split_on(s@, c) =~= out@.map_values(|v: Vec<char>| v@));
    }
    out
}

} // verus!

verus! {

/// Splits at the first `c`: the text before and the text after it.
pub open spec fn split_once(s: Seq<char>, c: char) -> Option<(Seq<char>, Seq<char>)> {
    match find_char(s, c) {
        Some(i) => Some((s.take(i), s.skip(i + 1))),
        None => None,
    }
}

/// Index of the first `c` at or after `from`.
pub fn find_char_from(v: &[char], from: usize, c: char) -> (r: Option<usize>)
    requires
        from <= v@.len(),
    ensures
        r matches Some(i) ==> find_char(v@.skip(from as int), c) == Some(i - from) && from <= i
            < v@.len(),
        r is None ==> find_char(v@.skip(from as int), c) is None,
{
    let mut i = from;
    while i < v.len()
        invariant
            from <= i <= v@.len(),
            forall|k: int| from <= k < i ==> v@[k] != c,
        decreases v.len() - i,
    {
        if v[i] == c {
            proof {
                let t = v@.skip(from as int);
                assert forall|k: int| 0 <= k < i - from implies t[k] != c by {
                    assert(t[k] == v@[from + k]);
                }
                assert(t[i - from] == v@[i as int]);
                lemma_find_char_unique(t, c, i - from);
            }
            return Some(i);
        }
        i += 1;
    }
    proof {
        let t = v@.skip(from as int);
        assert forall|k: int| 0 <= k < t.len() implies t[k] != c by {
            assert(t[k] == v@[from + k]);
        }
        lemma_find_char_unique(t, c, t.len() as int);
    }
    None
}

/// A run with no `c` followed by `c` splits there.
pub proof fn lemma_split_once_concat(a: Seq<char>, b: Seq<char>, c: char)
    requires
        !a.contains(c),
    ensures
        split_once(a + seq![c] + b, c) == Some((a, b)),
{
    let s = a + seq![c] + b;
    assert forall|k: int| 0 <= k < a.len() implies s[k] != c by {
        assert(s[k] == a[k]);
        if a[k] == c {
            assert(a.contains(c));
        }
    }
    assert(s[a.len() as int] == c);
    lemma_find_char_unique(s, c, a.len() as int);
    assert(s.take(a.len() as int) =~= a);
    assert(s.skip(a.len() as int + 1) =~= b);
}

/// The trimmed text is a slice whose ends are not whitespace.
pub proof fn lemma_trim_shape(s: Seq<char>)
    ensures
        spec_trim(s).len() > 0 ==> !spec_is_whitespace(spec_trim(s)[0]) && !spec_is_whitespace(
            spec_trim(s).last(),
        ),
        spec_trim(spec_trim(s)) == spec_trim(s),
{
    let t0 = s.skip(lead_ws(s) as int);
    lemma_lead_ws(s);
    lemma_trail_ws(t0);
    let t = spec_trim(s);
    if t.len() > 0 {
        assert(t[0] == t0[0]);
        assert(t0[0] == s[lead_ws(s) as int]);
        assert(t.last() == t0[t0.len() - trail_ws(t0) - 1]);
        lemma_lead_ws_unique(t, 0);
        assert forall|k: int| t.len() <= k < t.len() implies spec_is_whitespace(#[trigger] t[k]) by {}
        lemma_trail_ws_unique(t.skip(0), t.len() as int);
        assert(t.skip(0) =~= t);
        assert(spec_trim(t) =~= t);
    } else {
        lemma_lead_ws_unique(t, 0);
        assert(t.skip(0) =~= t);
        lemma_trail_ws_unique(t, 0);
        assert(spec_trim(t) =~= t);
    }
}

} // verus!

verus! {

/// Text whose ends are not whitespace is its own trim.
pub proof fn lemma_trim_noop(s: Seq<char>)
    requires
        s.len() > 0 ==> !spec_is_whitespace(s[0]) && !spec_is_whitespace(s.last()),
    ensures
        spec_trim(s) == s,
{
    lemma_lead_ws_unique(s, 0);
    assert(s.skip(0) =~= s);
    lemma_trail_ws_unique(s, s.len() as int);
    assert(s.take(s.len() as int) =~= s);
}

} // verus!

verus! {

/// Lexicographic order of two character runs by code point: -1, 0 or 1.
/// (For valid UTF-8 this is the byte order `str` comparison uses.)
pub open spec fn lex_order(a: Seq<char>, b: Seq<char>) -> int
    decreases a.len(),
{
    if a.len() == 0 && b.len() == 0 {
        0
    } else if a.len() == 0 {
        -1
    } else if b.len() == 0 {
        1
    } else if a[0] < b[0] {
        -1
    } else if a[0] > b[0] {
        1
    } else {
        lex_order(a.drop_first(), b.drop_first())
    }
}

/// `a < b` as strings.
pub open spec fn lex_lt(a: Seq<char>, b: Seq<char>) -> bool {
    lex_order(a, b) == -1
}

/// `lex_order` of suffixes that share a prefix.
pub proof fn lemma_lex_order_skip(a: Seq<char>, b: Seq<char>, i: int)
    requires
        0 <= i <= a.len(),
        i <= b.len(),
        forall|k: int| 0 <= k < i ==> a[k] == b[k],
    ensures
        lex_order(a, b) == lex_order(a.skip(i), b.skip(i)),
    decreases i,
{
    if i > 0 {
        assert(a[0] == b[0]);
        assert forall|k: int| 0 <= k < i - 1 implies a.drop_first()[k] == b.drop_first()[k] by {
            assert(a.drop_first()[k] == a[k + 1]);
            assert(b.drop_first()[k] == b[k + 1]);
        }
        lemma_lex_order_skip(a.drop_first(), b.drop_first(), i - 1);
        assert(a.drop_first().skip(i - 1) =~= a.skip(i));
        assert(b.drop_first().skip(i - 1) =~= b.skip(i));
    } else {
        assert(a.skip(0) =~= a);
        assert(b.skip(0) =~= b);
    }
}

/// `lex_order` of two character runs.
pub fn lex_order_chars(a: &[char], b: &[char]) -> (r: i8)
    ensures
        r as int == lex_order(a@, b@),
{
    let mut i: usize = 0;
    while i < a.len() && i < b.len()
        invariant
            i <= a@.len(),
            i <= b@.len(),
            forall|k: int| 0 <= k < i ==> a@[k] == b@[k],
        decreases a.len() - i,
    {
        if a[i] < b[i] {
            proof {
                lemma_lex_order_skip(a@, b@, i as int);
                assert(a@.skip(i as int)[0] == a@[i as int]);
                assert(b@.skip(i as int)[0] == b@[i as int]);
            }
            return -1;
        }
        if a[i] > b[i] {
            proof {
                lemma_lex_order_skip(a@, b@, i as int);
                assert(a@.skip(i as int)[0] == a@[i as int]);
                assert(b@.skip(i as int)[0] == b@[i as int]);
            }
            return 1;
        }
        i += 1;
    }
    proof {
        lemma_lex_order_skip(a@, b@, i as int);
    }
    if i == a.len() && i == b.len() {
        0
    } else if i == a.len() {
        -1
    } else {
        1
    }
}

/// `lex_order` of two strings.
pub fn lex_order_str(a: &str, b: &str) -> (r: i8)
    ensures
        r as int == lex_order(a@, b@),
{
    let va = to_chars(a);
    let vb = to_chars(b);
    lex_order_chars(&va, &vb)
}

/// `lex_order` is antisymmetric and zero exactly on equal runs.
pub proof fn lemma_lex_order_basic(a: Seq<char>, b: Seq<char>)
    ensures
        lex_order(a, b) == -lex_order(b, a),
        (lex_order(a, b) == 0) == (a == b),
        -1 <= lex_order(a, b) <= 1,
    decreases a.len(),
{
    if a.len() > 0 && b.len() > 0 {
        if a[0] == b[0] {
            lemma_lex_order_basic(a.drop_first(), b.drop_first());
            assert(a[0] == b[0]);
            if a.drop_first() == b.drop_first() {
                assert(a =~= seq![a[0]] + a.drop_first());
                assert(b =~= seq![b[0]] + b.drop_first());
            }
        } else {
            assert(a[0] != b[0]);
        }
    } else if a.len() == 0 && b.len() == 0 {
        assert(a =~= b);
    }
}

/// `lex_order` is transitive.
pub proof fn lemma_lex_order_trans(a: Seq<char>, b: Seq<char>, c: Seq<char>)
    requires
        lex_order(a, b) == -1,
        lex_order(b, c) == -1,
    ensures
        lex_order(a, c) == -1,
    decreases a.len(),
{
    if a.len() > 0 && b.len() > 0 && c.len() > 0 {
        if a[0] == b[0] && b[0] == c[0] {
            lemma_lex_order_trans(a.drop_first(), b.drop_first(), c.drop_first());
        }
    }
}

} // verus!

verus! {

/// A Unicode scalar value.
pub open spec fn is_scalar(u: u32) -> bool {
    u < 0xD800 || (0xE000 <= u && u <= 0x10FFFF)
}

/// `char::from_u32` on a value known to be a scalar value.
#[verifier::external_body]
pub fn char_from_u32(u: u32) -> (c: char)
    requires
        is_scalar(u),
    ensures
        c as u32 == u,
        c == u as char,
{
    char::from_u32(u).unwrap()
}

} // verus!

verus! {

/// Every `char` is a Unicode scalar value.
pub proof fn lemma_char_range(ch: char)
    ensures
        0 <= (ch as int) <= 0x10FFFF,
        !(0xD800 <= (ch as int) <= 0xDFFF),
        (ch as u32) as int == ch as int,
{
}

} // verus!

verus! {

/// First index at or after `i` where `pat` occurs in `s`.
pub open spec fn find_from(s: Seq<char>, pat: Seq<char>, i: int) -> Option<int>
    decreases s.len() + 1 - i,
{
    if i < 0 || i + pat.len() > s.len() {
        None
    } else if spec_has_at(s, i, pat) {
        Some(i)
    } else {
        find_from(s, pat, i + 1)
    }
}

/// `str::find` with a string pattern.
pub open spec fn find_seq(s: Seq<char>, pat: Seq<char>) -> Option<int> {
    find_from(s, pat, 0)
}

/// `find_from` names an occurrence inside `s`.
pub proof fn lemma_find_from_bounds(s: Seq<char>, pat: Seq<char>, i: int)
    ensures
        find_from(s, pat, i) matches Some(k) ==> i <= k && k + pat.len() <= s.len() && spec_has_at(s, k, pat),
    decreases s.len() + 1 - i,
{
    if !(i < 0 || i + pat.len() > s.len()) && !spec_has_at(s, i, pat) {
        lemma_find_from_bounds(s, pat, i + 1);
    }
}

/// Index of the first `pat` in `v` at or after `from`.
pub fn find_seq_from(v: &[char], from: usize, pat: &[char]) -> (r: Option<usize>)
    requires
        from <= v@.len(),
    ensures
        r matches Some(k) ==> find_from(v@, pat@, from as int) == Some(k as int),
        r is None ==> find_from(v@, pat@, from as int) is None,
{
    let mut i = from;
    while i <= v.len() && pat.len() <= v.len() - i
        invariant
            from <= i,
            v@.len() == v.len(),
            find_from(v@, pat@, from as int) == find_from(v@, pat@, i as int),
        decreases v.len() + 1 - i,
    {
        if has_at(v, i, pat) {
            return Some(i);
        }
        if i >= v.len() {
            assert(find_from(v@, pat@, i + 1) is None);
            assert(find_from(v@, pat@, i as int) == find_from(v@, pat@, i + 1));
            return None;
        }
        i += 1;
    }
    None
}

/// Index of the first `pat` in `v` at or after `from`.
pub fn find_str_from(v: &[char], from: usize, pat: &str) -> (r: Option<usize>)
    requires
        from <= v@.len(),
    ensures
        r matches Some(k) ==> find_from(v@, pat@, from as int) == Some(k as int),
        r is None ==> find_from(v@, pat@, from as int) is None,
{
    let p = to_chars(pat);
    find_seq_from(v, from, &p)
}

} // verus!

verus! {

/// `str::strip_prefix` over characters.
pub open spec fn spec_strip_prefix(s: Seq<char>, p: Seq<char>) -> Option<Seq<char>> {
    if spec_has_at(s, 0, p) {
        Some(s.skip(p.len() as int))
    } else {
        None
    }
}

/// `strip_prefix` into a new vector.
pub fn strip_prefix_chars(v: &[char], p: &[char]) -> (r: Option<Vec<char>>)
    ensures
        match r {
            Some(x) => spec_strip_prefix(v@, p@) == Some(x@),
            None => spec_strip_prefix(v@, p@) is None,
        },
{
    if has_at(v, 0, p) {
        let x = slice_vec(v, p.len(), v.len());
        assert(x@ =~= v@.skip(p@.len() as int));
        Some(x)
    } else {
        None
    }
}

/// `strip_prefix` of a string literal.
pub fn strip_prefix_str(v: &[char], lit: &str) -> (r: Option<Vec<char>>)
    ensures
        match r {
            Some(x) => spec_strip_prefix(v@, lit@) == Some(x@),
            None => spec_strip_prefix(v@, lit@) is None,
        },
{
    let p = to_chars(lit);
    strip_prefix_chars(v, &p)
}

/// Whether `v` is non-empty and starts with `c`.
pub fn first_is(v: &[char], c: char) -> (r: bool)
    ensures
        r == (v@.len() > 0 && v@[0] == c),
{
    v.len() > 0 && v[0] == c
}

/// Characters of a JavaScript identifier as the guest code scanners see them.
pub open spec fn spec_is_ident(c: char) -> bool {
    spec_is_ascii_alnum(c) || c == '_' || c == '$'
}

/// `c.is_ascii_alphanumeric() || c == '_' || c == '$'`.
pub fn is_ident(c: char) -> (r: bool)
    ensures
        r == spec_is_ident(c),
{
    is_ascii_alnum(c) || c == '_' || c == '$'
}

/// Length of the identifier run at the start of `s`.
pub open spec fn ident_len(s: Seq<char>) -> nat
    decreases s.len(),
{
    if s.len() > 0 && spec_is_ident(s[0]) {
        1 + ident_len(s.drop_first())
    } else {
        0
    }
}

/// A position before which all characters are identifier characters and at which one is not
/// is `ident_len`.
pub proof fn lemma_ident_len_unique(s: Seq<char>, i: int)
    requires
        0 <= i <= s.len(),
        forall|k: int| 0 <= k < i ==> spec_is_ident(#[trigger] s[k]),
        i < s.len() ==> !spec_is_ident(s[i]),
    ensures
        ident_len(s) == i,
    decreases s.len(),
{
    if i > 0 {
        assert(spec_is_ident(s[0]));
        assert forall|k: int| 0 <= k < i - 1 implies spec_is_ident(#[trigger] s.drop_first()[k]) by {
            assert(s.drop_first()[k] == s[k + 1]);
        }
        if i - 1 < s.len() - 1 {
            assert(s.drop_first()[i - 1] == s[i]);
        }
        lemma_ident_len_unique(s.drop_first(), i - 1);
    } else {
        if s.len() > 0 {
            assert(!spec_is_ident(s[0]));
        }
    }
}

/// Index of the first non-identifier character of `v` at or after `start`.
pub fn skip_ident_from(v: &[char], start: usize) -> (i: usize)
    requires
        start <= v@.len(),
    ensures
        start <= i <= v@.len(),
        forall|k: int| start <= k < i ==> spec_is_ident(#[trigger] v@[k]),
        i < v@.len() ==> !spec_is_ident(v@[i as int]),
{
    let mut i = start;
    while i < v.len() && is_ident(v[i])
        invariant
            start <= i <= v@.len(),
            forall|k: int| start <= k < i ==> spec_is_ident(#[trigger] v@[k]),
        decreases v.len() - i,
    {
        i += 1;
    }
    i
}

} // verus!

verus! {

/// `v[from..to]` as a new byte vector.
pub fn slice_bytes(v: &[u8], from: usize, to: usize) -> (r: Vec<u8>)
    requires
        from <= to <= v@.len(),
    ensures
        r@ == v@.subrange(from as int, to as int),
{
    let mut out: Vec<u8> = Vec::new();
    let mut k = from;
    while k < to
        invariant
            from <= k <= to <= v@.len(),
            out@ == v@.subrange(from as int, k as int),
        decreases to - k,
    {
        out.push(v[k]);
        assert(v@.subrange(from as int, k + 1) == v@.subrange(from as int, k as int).push(v@[k as int]));
        k += 1;
    }
    out
}

} // verus!

verus! {

/// The decimal digit for `d < 10`.
pub open spec fn digit_char(d: nat) -> char {
    (('0' as nat) + d) as char
}

/// The decimal representation of `n`, without leading zeros.
pub open spec fn spec_decimal(n: nat) -> Seq<char>
    decreases n,
{
    if n < 10 {
        seq![digit_char(n)]
    } else {
        spec_decimal(n / 10) + seq![digit_char(n % 10)]
    }
}

/// `n.to_string()` for an unsigned integer.
pub fn decimal(n: u64) -> (r: String)
    ensures
        r@ == spec_decimal(n as nat),
    decreases n,
{
    let d: u64 = n % 10;
    let c = char_from_ascii((48 + d) as u32);
    if n < 10 {
        let mut s = String::new();
        push_char(&mut s, c);
        s
    } else {
        let mut s = decimal(n / 10);
        push_char(&mut s, c);
        s
    }
}

} // verus!

verus! {

/// Length of the non-whitespace run at the start of `s`.
pub open spec fn word_len(s: Seq<char>) -> nat
    decreases s.len(),
{
    if s.len() > 0 && !spec_is_whitespace(s[0]) {
        1 + word_len(s.drop_first())
    } else {
        0
    }
}

/// `str::split_whitespace`: the maximal runs of non-whitespace characters, in order.
pub open spec fn spec_words(s: Seq<char>) -> Seq<Seq<char>>
    decreases s.len(),
{
    let t = spec_trim_start(s);
    proof {
        lemma_lead_ws(s);
    }
    if t.len() == 0 {
        Seq::empty()
    } else {
        let n = word_len(t);
        if 0 < n <= t.len() {
            seq![t.take(n as int)] + spec_words(t.skip(n as int))
        } else {
            seq![t]
        }
    }
}

/// Words joined by single spaces.
pub open spec fn joined(ws: Seq<Seq<char>>) -> Seq<char>
    decreases ws.len(),
{
    if ws.len() == 0 {
        Seq::empty()
    } else if ws.len() == 1 {
        ws[0]
    } else {
        joined(ws.drop_last()) + " "@ + ws.last()
    }
}

/// `str::split_whitespace`, collected.
pub fn split_whitespace(s: &str) -> (r: Vec<String>)
    ensures
        r@.map_values(|x: String| x@) == spec_words(s@),
{
    let v = to_chars(s);
    let mut out: Vec<String> = Vec::new();
    let mut i: usize = 0;
    assert(v@.skip(0) =~= v@);
    assert(out@.map_values(|x: String| x@) + spec_words(v@.skip(0)) =~= spec_words(v@));
    while i < v.len()
        invariant
            i <= v@.len(),
            v@ == s@,
            out@.map_values(|x: String| x@) + spec_words(v@.skip(i as int)) == spec_words(s@),
        decreases v.len() - i,
    {
        let a = skip_ws_from(&v, i);
        let ghost rest = v@.skip(i as int);
        proof {
            assert forall|k: int| 0 <= k < a - i implies spec_is_whitespace(#[trigger] rest[k]) by {
                assert(rest[k] == v@[i + k]);
            }
            if a < v@.len() {
                assert(rest[a - i] == v@[a as int]);
            }
            lemma_lead_ws_unique(rest, a - i);
            assert(spec_trim_start(rest) =~= v@.skip(a as int));
        }
        if a >= v.len() {
            proof {
                assert(spec_words(rest) =~= Seq::<Seq<char>>::empty());
                assert(spec_words(v@.skip(a as int)) =~= Seq::<Seq<char>>::empty());
            }
            i = a;
        } else {
            let mut b = a;
            while b < v.len() && !is_whitespace(v[b])
                invariant
                    a <= b <= v@.len(),
                    forall|k: int| a <= k < b ==> !spec_is_whitespace(#[trigger] v@[k]),
                decreases v.len() - b,
            {
                b += 1;
            }
            let word = from_char_range(&v, a, b);
            proof {
                let t = v@.skip(a as int);
                assert forall|k: int| 0 <= k < b - a implies !spec_is_whitespace(#[trigger] t[k]) by {
                    assert(t[k] == v@[a + k]);
                }
                if b < v@.len() {
                    assert(t[b - a] == v@[b as int]);
                }
                lemma_word_len_unique(t, b - a);
                assert(t.take(b - a) =~= v@.subrange(a as int, b as int));
                assert(t.skip(b - a) =~= v@.skip(b as int));
                let ghost before = out@.map_values(|x: String| x@);
                assert(spec_words(rest) == seq![t.take(b - a)] + spec_words(t.skip(b - a)));
            }
            let ghost before = out@.map_values(|x: String| x@);
            out.push(word);
            proof {
                assert(out@.map_values(|x: String| x@) =~= before.push(word@));
                assert(before + spec_words(rest) =~= out@.map_values(|x: String| x@) + spec_words(
                    v@.skip(b as int),
                ));
            }
            i = b;
        }
    }
    proof {
        assert(spec_words(v@.skip(i as int)) =~= Seq::<Seq<char>>::empty()) by {
            assert(v@.skip(i as int) =~= Seq::<char>::empty());
        }
        assert(out@.map_values(|x: String| x@) + Seq::<Seq<char>>::empty() =~= out@.map_values(
            |x: String| x@,
        ));
    }
    out
}

/// A position before which all characters are non-whitespace and at which one is whitespace
/// is `word_len`.
pub proof fn lemma_word_len_unique(s: Seq<char>, i: int)
    requires
        0 <= i <= s.len(),
        forall|k: int| 0 <= k < i ==> !spec_is_whitespace(#[trigger] s[k]),
        i < s.len() ==> spec_is_whitespace(s[i]),
    ensures
        word_len(s) == i,
    decreases s.len(),
{
    if i > 0 {
        assert(!spec_is_whitespace(s[0]));
        assert forall|k: int| 0 <= k < i - 1 implies !spec_is_whitespace(#[trigger] s.drop_first()[k]) by {
            assert(s.drop_first()[k] == s[k + 1]);
        }
        if i - 1 < s.len() - 1 {
            assert(s.drop_first()[i - 1] == s[i]);
        }
        lemma_word_len_unique(s.drop_first(), i - 1);
    } else {
        if s.len() > 0 {
            assert(spec_is_whitespace(s[0]));
        }
    }
}

} // verus!
