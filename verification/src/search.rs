//! Ranked tool discovery used by `tools.search`.
//!
//! Text is normalized (lower-cased, camelCase and separators split) and cut into ASCII
//! alphanumeric tokens; each tool field scores phrase and token hits by weight; the share of
//! query tokens that hit decides whether a tool qualifies. That share is compared and rounded
//! in exact integer arithmetic.

use vstd::prelude::*;
use crate::json::{member_from, JsonValue};
use crate::text::{
    copy_str, find_seq, find_seq_from, has_at, is_ascii_alnum, joined, lemma_lex_order_basic,
    lex_lt, lex_order, lex_order_str, push_char, spec_has_at, spec_is_ascii_alnum,
    spec_is_ascii_upper, spec_to_ascii_lower, spec_words, split_whitespace, str_eq, to_ascii_lower,
    to_chars, spec_is_whitespace, word_len, lead_ws, spec_trim_start, lemma_lead_ws, lemma_word_len_unique,
};

verus! {

// ---------------------------------------------------------------- normalization

/// Characters that separate words in tool paths and names.
pub open spec fn is_search_separator(c: char) -> bool {
    c == '_' || c == '.' || c == '/' || c == ':' || c == '-'
}

/// The character pass of normalization: lower-cased text with a space before each upper-case
/// letter that follows an alphanumeric, and a space for each separator; with whether the last
/// character was alphanumeric.
pub open spec fn norm_raw(s: Seq<char>) -> (Seq<char>, bool)
    decreases s.len(),
{
    if s.len() == 0 {
        (Seq::empty(), false)
    } else {
        let (out, prev) = norm_raw(s.drop_last());
        let ch = s.last();
        let out1 = if spec_is_ascii_upper(ch) && prev {
            out.push(' ')
        } else {
            out
        };
        if is_search_separator(ch) {
            (out1.push(' '), false)
        } else {
            (out1.push(spec_to_ascii_lower(ch)), spec_is_ascii_alnum(ch))
        }
    }
}

/// `normalize_search_text`: the character pass, with whitespace runs collapsed to single
/// spaces and the ends trimmed.
pub open spec fn spec_normalize(s: Seq<char>) -> Seq<char> {
    joined(spec_words(norm_raw(s).0))
}

/// A character normalization leaves as it is: no ASCII upper-case letter, no separator.
pub open spec fn norm_char(c: char) -> bool {
    !spec_is_ascii_upper(c) && !is_search_separator(c)
}

/// Every character of `s` is one normalization leaves as it is.
pub open spec fn all_norm(s: Seq<char>) -> bool {
    forall|k: int| 0 <= k < s.len() ==> norm_char(#[trigger] s[k])
}

proof fn lemma_norm_raw_chars(s: Seq<char>)
    ensures
        all_norm(norm_raw(s).0),
    decreases s.len(),
{
    if s.len() > 0 {
        lemma_norm_raw_chars(s.drop_last());
        let ch = s.last();
        if spec_is_ascii_upper(ch) {
            assert(((ch as u32) + 32) as int == ch as int + 32);
        }
        let out = norm_raw(s.drop_last()).0;
        let r = norm_raw(s).0;
        assert forall|k: int| 0 <= k < r.len() implies norm_char(#[trigger] r[k]) by {
            if k < out.len() {
                assert(r[k] == out[k]);
            }
        }
    }
}

proof fn lemma_norm_raw_fixed(s: Seq<char>)
    requires
        all_norm(s),
    ensures
        norm_raw(s).0 == s,
    decreases s.len(),
{
    if s.len() > 0 {
        assert(all_norm(s.drop_last())) by {
            assert forall|k: int| 0 <= k < s.drop_last().len() implies norm_char(#[trigger] s.drop_last()[k]) by {
                assert(s.drop_last()[k] == s[k]);
            }
        }
        lemma_norm_raw_fixed(s.drop_last());
        assert(norm_char(s[s.len() - 1]));
        assert(norm_raw(s).0 =~= s.drop_last().push(s.last()));
        assert(s.drop_last().push(s.last()) =~= s);
    }
}

proof fn lemma_word_len_shape(s: Seq<char>)
    ensures
        word_len(s) <= s.len(),
        forall|k: int| 0 <= k < word_len(s) ==> !spec_is_whitespace(#[trigger] s[k]),
        word_len(s) < s.len() ==> spec_is_whitespace(s[word_len(s) as int]),
    decreases s.len(),
{
    if s.len() > 0 && !spec_is_whitespace(s[0]) {
        lemma_word_len_shape(s.drop_first());
        assert forall|k: int| 0 <= k < word_len(s) implies !spec_is_whitespace(#[trigger] s[k]) by {
            if k > 0 {
                assert(s[k] == s.drop_first()[k - 1]);
            }
        }
        if word_len(s) < s.len() {
            assert(s[word_len(s) as int] == s.drop_first()[word_len(s) - 1]);
        }
    }
}

/// Every word `spec_words` gives is nonempty and holds no whitespace; and holds only
/// characters normalization leaves when `x` does.
proof fn lemma_words_shape(x: Seq<char>)
    ensures
        forall|i: int| 0 <= i < spec_words(x).len() ==> (#[trigger] spec_words(x)[i]).len() > 0,
        forall|i: int, j: int|
            0 <= i < spec_words(x).len() && 0 <= j < spec_words(x)[i].len() ==> !spec_is_whitespace(
                #[trigger] spec_words(x)[i][j],
            ),
        all_norm(x) ==> forall|i: int| 0 <= i < spec_words(x).len() ==> all_norm(#[trigger] spec_words(x)[i]),
    decreases x.len(),
{
    lemma_lead_ws(x);
    let t = spec_trim_start(x);
    if t.len() > 0 {
        let n = word_len(t);
        assert(t[0] == x[lead_ws(x) as int]);
        lemma_word_len_shape(t);
        assert(n >= 1);
        let rest = t.skip(n as int);
        lemma_words_shape(rest);
        let w = spec_words(x);
        assert(w == seq![t.take(n as int)] + spec_words(rest));
        assert forall|i: int| 0 <= i < w.len() implies (#[trigger] w[i]).len() > 0 by {
            if i > 0 {
                assert(w[i] == spec_words(rest)[i - 1]);
            }
        }
        assert forall|i: int, j: int| 0 <= i < w.len() && 0 <= j < w[i].len() implies !spec_is_whitespace(
            #[trigger] w[i][j],
        ) by {
            if i > 0 {
                assert(w[i] == spec_words(rest)[i - 1]);
            } else {
                assert(w[0][j] == t[j]);
            }
        }
        if all_norm(x) {
            assert(all_norm(rest)) by {
                assert forall|k: int| 0 <= k < rest.len() implies norm_char(#[trigger] rest[k]) by {
                    assert(rest[k] == x[lead_ws(x) + n + k]);
                }
            }
            assert forall|i: int| 0 <= i < w.len() implies all_norm(#[trigger] w[i]) by {
                if i > 0 {
                    assert(w[i] == spec_words(rest)[i - 1]);
                } else {
                    assert forall|k: int| 0 <= k < w[0].len() implies norm_char(#[trigger] w[0][k]) by {
                        assert(w[0][k] == x[lead_ws(x) + k]);
                    }
                }
            }
        }
    }
}

proof fn lemma_joined_front(ws: Seq<Seq<char>>)
    requires
        ws.len() >= 2,
    ensures
        joined(ws) == ws[0] + " "@ + joined(ws.drop_first()),
    decreases ws.len(),
{
    if ws.len() > 2 {
        lemma_joined_front(ws.drop_last());
        assert(ws.drop_last().drop_first() =~= ws.drop_first().drop_last());
        assert(ws.drop_first().last() == ws.last());
        assert(ws.drop_last()[0] == ws[0]);
        let a = joined(ws.drop_last().drop_first());
        assert(joined(ws.drop_first()) == joined(ws.drop_first().drop_last()) + " "@ + ws.drop_first().last());
        assert(joined(ws) == joined(ws.drop_last()) + " "@ + ws.last());
        assert(joined(ws.drop_last()) == ws[0] + " "@ + a);
        assert(joined(ws) =~= ws[0] + " "@ + joined(ws.drop_first()));
    } else {
        assert(ws.drop_first().len() == 1);
        assert(ws.drop_last().len() == 1);
        assert(joined(ws.drop_last()) == ws.drop_last()[0]);
        assert(ws.drop_last()[0] == ws[0]);
        assert(joined(ws.drop_first()) == ws.drop_first()[0]);
        assert(ws.drop_first()[0] == ws.last());
    }
}

proof fn lemma_words_skip_space(r: Seq<char>)
    ensures
        spec_words(" "@ + r) == spec_words(r),
{
    reveal_strlit(" ");
    let s = " "@ + r;
    assert(s[0] == ' ');
    assert(s.drop_first() =~= r);
    assert(lead_ws(s) == 1 + lead_ws(r));
    lemma_lead_ws(r);
    assert(s.skip(1 + lead_ws(r) as int) =~= r.skip(lead_ws(r) as int));
    assert(spec_trim_start(s) =~= spec_trim_start(r));
}

proof fn lemma_words_of_joined(ws: Seq<Seq<char>>)
    requires
        forall|i: int| 0 <= i < ws.len() ==> (#[trigger] ws[i]).len() > 0,
        forall|i: int, j: int| 0 <= i < ws.len() && 0 <= j < ws[i].len() ==> !spec_is_whitespace(#[trigger] ws[i][j]),
    ensures
        spec_words(joined(ws)) == ws,
    decreases ws.len(),
{
    reveal_strlit(" ");
    if ws.len() == 0 {
        assert(spec_words(Seq::<char>::empty()) =~= Seq::<Seq<char>>::empty());
    } else {
        let w = ws[0];
        let rest = if ws.len() == 1 { Seq::<char>::empty() } else { " "@ + joined(ws.drop_first()) };
        let s = w + rest;
        if ws.len() >= 2 {
            lemma_joined_front(ws);
            assert(joined(ws) =~= s);
        } else {
            assert(joined(ws) == w);
            assert(s =~= w);
        }
        assert(!spec_is_whitespace(w[0]));
        assert(s[0] == w[0]);
        assert(lead_ws(s) == 0);
        assert(spec_trim_start(s) =~= s);
        assert forall|k: int| 0 <= k < w.len() implies !spec_is_whitespace(#[trigger] s[k]) by {
            assert(s[k] == w[k]);
        }
        if ws.len() >= 2 {
            assert(s[w.len() as int] == ' ');
        }
        lemma_word_len_unique(s, w.len() as int);
        assert(s.take(w.len() as int) =~= w);
        assert(s.skip(w.len() as int) =~= rest);
        assert(spec_words(s) == seq![w] + spec_words(rest));
        if ws.len() >= 2 {
            let tail = ws.drop_first();
            assert forall|i: int| 0 <= i < tail.len() implies (#[trigger] tail[i]).len() > 0 by {
                assert(tail[i] == ws[i + 1]);
            }
            assert forall|i: int, j: int| 0 <= i < tail.len() && 0 <= j < tail[i].len() implies !spec_is_whitespace(
                #[trigger] tail[i][j],
            ) by {
                assert(tail[i] == ws[i + 1]);
            }
            lemma_words_of_joined(tail);
            lemma_words_skip_space(joined(tail));
            assert(ws =~= seq![w] + tail);
        } else {
            assert(spec_words(Seq::<char>::empty()) =~= Seq::<Seq<char>>::empty());
            assert(ws =~= seq![w]);
        }
    }
}

proof fn lemma_joined_chars(ws: Seq<Seq<char>>)
    requires
        forall|i: int| 0 <= i < ws.len() ==> all_norm(#[trigger] ws[i]),
    ensures
        all_norm(joined(ws)),
    decreases ws.len(),
{
    reveal_strlit(" ");
    if ws.len() >= 2 {
        let init = ws.drop_last();
        assert forall|i: int| 0 <= i < init.len() implies all_norm(#[trigger] init[i]) by {
            assert(init[i] == ws[i]);
        }
        lemma_joined_chars(init);
        let j = joined(ws);
        let a = joined(init);
        let b = ws.last();
        assert(all_norm(b)) by {
            assert(b == ws[ws.len() - 1]);
        }
        assert forall|k: int| 0 <= k < j.len() implies norm_char(#[trigger] j[k]) by {
            if k < a.len() {
                assert(j[k] == a[k]);
            } else if k == a.len() {
                assert(j[k] == ' ');
            } else {
                assert(j[k] == b[k - a.len() - 1]);
            }
        }
    } else if ws.len() == 1 {
        assert(all_norm(ws[0]));
    }
}

/// Normalizing normalized text changes nothing.
pub proof fn law_normalize_idempotent(s: Seq<char>)
    ensures
        spec_normalize(spec_normalize(s)) == spec_normalize(s),
{
    let x = norm_raw(s).0;
    lemma_norm_raw_chars(s);
    lemma_words_shape(x);
    let ws = spec_words(x);
    let y = joined(ws);
    lemma_joined_chars(ws);
    lemma_norm_raw_fixed(y);
    lemma_words_of_joined(ws);
}

/// Every word is nonempty and holds no whitespace.
pub open spec fn solid_words(ws: Seq<Seq<char>>) -> bool {
    &&& forall|i: int| 0 <= i < ws.len() ==> (#[trigger] ws[i]).len() > 0
    &&& forall|i: int, j: int| 0 <= i < ws.len() && 0 <= j < ws[i].len() ==> !spec_is_whitespace(#[trigger] ws[i][j])
}

/// The only whitespace in `r` is single spaces, each with a non-whitespace character on
/// both sides.
pub open spec fn single_spaced(r: Seq<char>) -> bool {
    forall|k: int|
        0 <= k < r.len() && spec_is_whitespace(#[trigger] r[k]) ==> {
            &&& r[k] == ' '
            &&& 0 < k < r.len() - 1
            &&& !spec_is_whitespace(r[k - 1])
            &&& !spec_is_whitespace(r[k + 1])
        }
}

proof fn lemma_joined_single_spaced(ws: Seq<Seq<char>>)
    requires
        solid_words(ws),
    ensures
        single_spaced(joined(ws)),
        ws.len() > 0 ==> joined(ws).len() > 0 && joined(ws).last() == ws.last().last(),
    decreases ws.len(),
{
    reveal_strlit(" ");
    if ws.len() == 1 {
        assert(joined(ws) == ws[0]);
        assert forall|k: int| 0 <= k < ws[0].len() implies !spec_is_whitespace(#[trigger] ws[0][k]) by {}
    } else if ws.len() >= 2 {
        let init = ws.drop_last();
        assert(solid_words(init)) by {
            assert forall|i: int| 0 <= i < init.len() implies (#[trigger] init[i]).len() > 0 by {
                assert(init[i] == ws[i]);
            }
            assert forall|i: int, j: int| 0 <= i < init.len() && 0 <= j < init[i].len() implies !spec_is_whitespace(
                #[trigger] init[i][j],
            ) by {
                assert(init[i] == ws[i]);
            }
        }
        lemma_joined_single_spaced(init);
        let a = joined(init);
        let b = ws.last();
        let j = joined(ws);
        assert(j == a + " "@ + b);
        assert(b == ws[ws.len() - 1]);
        assert(b.len() > 0);
        assert(!spec_is_whitespace(b[0]));
        assert(a.last() == init.last().last());
        assert(init.last() == ws[ws.len() - 2]);
        assert(!spec_is_whitespace(a[a.len() - 1]));
        assert forall|k: int| 0 <= k < j.len() && spec_is_whitespace(#[trigger] j[k]) implies {
            &&& j[k] == ' '
            &&& 0 < k < j.len() - 1
            &&& !spec_is_whitespace(j[k - 1])
            &&& !spec_is_whitespace(j[k + 1])
        } by {
            if k < a.len() {
                assert(j[k] == a[k]);
                assert(spec_is_whitespace(a[k]));
                assert(j[k - 1] == a[k - 1]);
                assert(j[k + 1] == a[k + 1]);
            } else if k == a.len() {
                assert(j[k - 1] == a[a.len() - 1]);
                assert(j[k + 1] == b[0]);
            } else {
                assert(j[k] == b[k - a.len() - 1]);
            }
        }
        assert(j.last() == b[b.len() - 1]);
    }
}

/// Normalized text has no ASCII upper-case letter and none of `_ . / : -`, and its only
/// whitespace is single spaces between words (none at either end).
pub proof fn law_normalize_shape(s: Seq<char>)
    ensures
        all_norm(spec_normalize(s)),
        single_spaced(spec_normalize(s)),
{
    let x = norm_raw(s).0;
    lemma_norm_raw_chars(s);
    lemma_words_shape(x);
    let ws = spec_words(x);
    lemma_joined_chars(ws);
    lemma_joined_single_spaced(ws);
}

/// Length of the run at the start of `s` whose characters are ASCII alphanumeric exactly
/// when `alnum`.
pub open spec fn class_len(s: Seq<char>, alnum: bool) -> nat
    decreases s.len(),
{
    if s.len() > 0 && spec_is_ascii_alnum(s[0]) == alnum {
        1 + class_len(s.drop_first(), alnum)
    } else {
        0
    }
}

/// The maximal runs of ASCII alphanumeric characters, in order.
pub open spec fn alnum_tokens(s: Seq<char>) -> Seq<Seq<char>>
    decreases s.len(),
{
    let t = s.skip(class_len(s, false) as int);
    proof {
        lemma_class_len(s, false);
    }
    if t.len() == 0 {
        Seq::empty()
    } else {
        let n = class_len(t, true);
        if 0 < n <= t.len() {
            seq![t.take(n as int)] + alnum_tokens(t.skip(n as int))
        } else {
            seq![t]
        }
    }
}

/// `tokenize_search_text`.
pub open spec fn spec_tokenize(s: Seq<char>) -> Seq<Seq<char>> {
    alnum_tokens(spec_normalize(s))
}

/// A class run does not pass the end, and its characters are of the class.
pub proof fn lemma_class_len(s: Seq<char>, alnum: bool)
    ensures
        class_len(s, alnum) <= s.len(),
        forall|k: int| 0 <= k < class_len(s, alnum) ==> spec_is_ascii_alnum(#[trigger] s[k]) == alnum,
        class_len(s, alnum) < s.len() ==> spec_is_ascii_alnum(s[class_len(s, alnum) as int]) != alnum,
    decreases s.len(),
{
    if s.len() > 0 && spec_is_ascii_alnum(s[0]) == alnum {
        lemma_class_len(s.drop_first(), alnum);
        assert forall|k: int| 0 <= k < class_len(s, alnum) implies spec_is_ascii_alnum(
            #[trigger] s[k],
        ) == alnum by {
            if k > 0 {
                assert(s[k] == s.drop_first()[k - 1]);
            }
        }
    }
}

/// A position before which the class holds and at which it does not is `class_len`.
pub proof fn lemma_class_len_unique(s: Seq<char>, alnum: bool, i: int)
    requires
        0 <= i <= s.len(),
        forall|k: int| 0 <= k < i ==> spec_is_ascii_alnum(#[trigger] s[k]) == alnum,
        i < s.len() ==> spec_is_ascii_alnum(s[i]) != alnum,
    ensures
        class_len(s, alnum) == i,
    decreases s.len(),
{
    if i > 0 {
        assert(spec_is_ascii_alnum(s[0]) == alnum);
        assert forall|k: int| 0 <= k < i - 1 implies spec_is_ascii_alnum(
            #[trigger] s.drop_first()[k],
        ) == alnum by {
            assert(s.drop_first()[k] == s[k + 1]);
        }
        if i - 1 < s.len() - 1 {
            assert(s.drop_first()[i - 1] == s[i]);
        }
        lemma_class_len_unique(s.drop_first(), alnum, i - 1);
    } else if s.len() > 0 {
        assert(spec_is_ascii_alnum(s[0]) != alnum);
    }
}

/// The views of a list of strings.
pub open spec fn strs(v: Seq<String>) -> Seq<Seq<char>> {
    v.map_values(|s: String| s@)
}

/// Words joined with single spaces.
pub fn join_words(ws: &Vec<String>) -> (r: String)
    ensures
        r@ == joined(strs(ws@)),
{
    let mut s = String::new();
    let mut k: usize = 0;
    while k < ws.len()
        invariant
            k <= ws@.len(),
            s@ == joined(strs(ws@).take(k as int)),
        decreases ws.len() - k,
    {
        if k > 0 {
            push_char(&mut s, ' ');
        }
        crate::text::push_str(&mut s, ws[k].as_str());
        proof {
            let w = strs(ws@).take(k + 1);
            assert(w.drop_last() =~= strs(ws@).take(k as int));
            assert(" "@ =~= seq![' ']) by {
                reveal_strlit(" ");
            }
            if k == 0 {
                assert(joined(strs(ws@).take(0)) =~= Seq::<char>::empty());
            }
        }
        k += 1;
    }
    assert(strs(ws@).take(ws@.len() as int) =~= strs(ws@));
    s
}

/// Lowercase, split camelCase, collapse separators.
pub fn normalize_search_text(value: &str) -> (r: String)
    ensures
        r@ == spec_normalize(value@),
{
    let v = to_chars(value);
    let mut out = String::new();
    let mut prev = false;
    let mut k: usize = 0;
    while k < v.len()
        invariant
            v@ == value@,
            k <= v@.len(),
            (out@, prev) == norm_raw(v@.take(k as int)),
        decreases v.len() - k,
    {
        let ch = v[k];
        proof {
            assert(v@.take(k + 1).drop_last() =~= v@.take(k as int));
        }
        if 'A' <= ch && ch <= 'Z' && prev {
            push_char(&mut out, ' ');
        }
        if ch == '_' || ch == '.' || ch == '/' || ch == ':' || ch == '-' {
            push_char(&mut out, ' ');
            prev = false;
        } else {
            push_char(&mut out, to_ascii_lower(ch));
            prev = is_ascii_alnum(ch);
        }
        k += 1;
    }
    assert(v@.take(v@.len() as int) =~= v@);
    let words = split_whitespace(out.as_str());
    join_words(&words)
}

/// Split camelCase / punctuation into lowercase tokens.
pub fn tokenize_search_text(value: &str) -> (r: Vec<String>)
    ensures
        strs(r@) == spec_tokenize(value@),
{
    let n = normalize_search_text(value);
    let v = to_chars(n.as_str());
    let mut out: Vec<String> = Vec::new();
    let mut i: usize = 0;
    assert(v@.skip(0) =~= v@);
    assert(strs(out@) + alnum_tokens(v@.skip(0)) =~= alnum_tokens(v@));
    while i < v.len()
        invariant
            i <= v@.len(),
            v@ == spec_normalize(value@),
            strs(out@) + alnum_tokens(v@.skip(i as int)) == alnum_tokens(v@),
        decreases v.len() - i,
    {
        let mut a = i;
        while a < v.len() && !is_ascii_alnum(v[a])
            invariant
                i <= a <= v@.len(),
                forall|k: int| i <= k < a ==> !spec_is_ascii_alnum(#[trigger] v@[k]),
            decreases v.len() - a,
        {
            a += 1;
        }
        let ghost rest = v@.skip(i as int);
        proof {
            assert forall|k: int| 0 <= k < a - i implies spec_is_ascii_alnum(#[trigger] rest[k])
                == false by {
                assert(rest[k] == v@[i + k]);
            }
            if a < v@.len() {
                assert(rest[a - i] == v@[a as int]);
            }
            lemma_class_len_unique(rest, false, a - i);
            assert(rest.skip(a - i) =~= v@.skip(a as int));
        }
        if a >= v.len() {
            proof {
                assert(alnum_tokens(rest) =~= Seq::<Seq<char>>::empty());
                assert(v@.skip(a as int) =~= Seq::<char>::empty());
                assert(alnum_tokens(v@.skip(a as int)) =~= Seq::<Seq<char>>::empty());
            }
            i = a;
        } else {
            let mut b = a;
            while b < v.len() && is_ascii_alnum(v[b])
                invariant
                    a <= b <= v@.len(),
                    forall|k: int| a <= k < b ==> spec_is_ascii_alnum(#[trigger] v@[k]),
                decreases v.len() - b,
            {
                b += 1;
            }
            let word = crate::text::from_char_range(&v, a, b);
            proof {
                let t = v@.skip(a as int);
                assert forall|k: int| 0 <= k < b - a implies spec_is_ascii_alnum(#[trigger] t[k])
                    == true by {
                    assert(t[k] == v@[a + k]);
                }
                if b < v@.len() {
                    assert(t[b - a] == v@[b as int]);
                }
                lemma_class_len_unique(t, true, b - a);
                assert(t.take(b - a) =~= v@.subrange(a as int, b as int));
                assert(t.skip(b - a) =~= v@.skip(b as int));
                assert(alnum_tokens(rest) == seq![t.take(b - a)] + alnum_tokens(t.skip(b - a)));
            }
            let ghost before = strs(out@);
            out.push(word);
            proof {
                assert(strs(out@) =~= before.push(word@));
                assert(before + alnum_tokens(rest) =~= strs(out@) + alnum_tokens(v@.skip(b as int)));
            }
            i = b;
        }
    }
    proof {
        assert(v@.skip(i as int) =~= Seq::<char>::empty());
        assert(alnum_tokens(v@.skip(i as int)) =~= Seq::<Seq<char>>::empty());
        assert(strs(out@) + Seq::<Seq<char>>::empty() =~= strs(out@));
    }
    out
}


// ---------------------------------------------------------------- scoring

/// Weight of a path hit.
pub const W_PATH: i32 = 12;

/// The most query tokens for which every score fits in an `i32`: each of the four fields
/// scores at most `14 * 12` for the phrase and `4 * 12` per token, and the bonuses add at
/// most `25 + 8 + 20`, so `4 * (168 + 48 * n) + 53 <= i32::MAX`.
pub const MAX_QUERY_TOKENS: usize = (2_147_483_647 - 725) / 192;
/// Weight of an integration hit.
pub const W_INTEGRATION: i32 = 8;
/// Weight of a name hit.
pub const W_NAME: i32 = 10;
/// Weight of a description hit.
pub const W_DESCRIPTION: i32 = 5;

/// Catalog fields needed to rank a tool.
pub struct SearchableTool<'a> {
    /// Sandbox path.
    pub path: &'a str,
    /// Leaf name.
    pub name: &'a str,
    /// Description.
    pub description: &'a str,
    /// Integration slug.
    pub integration: &'a str,
}

/// A searchable tool as plain values: path, name, description, integration.
pub type ToolView = (Seq<char>, Seq<char>, Seq<char>, Seq<char>);

impl<'a> View for SearchableTool<'a> {
    type V = ToolView;

    open spec fn view(&self) -> ToolView {
        (self.path@, self.name@, self.description@, self.integration@)
    }
}

/// One ranked tool hit (`tools.search` item).
#[derive(Clone, Debug, PartialEq, Eq)]
pub struct ToolDiscovery {
    /// Sandbox path under `tools.` (no `tools.` prefix).
    pub path: String,
    /// Tool leaf name.
    pub name: String,
    /// Optional description.
    pub description: Option<String>,
    /// Integration slug.
    pub integration: String,
    /// Rank score (0 when enumerating a namespace).
    pub score: i32,
}

/// A hit as plain values: path, name, description, integration, score.
pub type DiscoveryView = (Seq<char>, Seq<char>, Option<Seq<char>>, Seq<char>, int);

impl View for ToolDiscovery {
    type V = DiscoveryView;

    open spec fn view(&self) -> DiscoveryView {
        (
            self.path@,
            self.name@,
            match self.description {
                Some(d) => Some(d@),
                None => None,
            },
            self.integration@,
            self.score as int,
        )
    }
}

/// The hit for `t` with `score`; an empty description is left out.
pub open spec fn spec_discovery(t: ToolView, score: int) -> DiscoveryView {
    (t.0, t.1, if t.2.len() == 0 {
        None
    } else {
        Some(t.2)
    }, t.3, score)
}

/// How a query token meets a field: 4 when it is one of the field's tokens, 2 when it is a
/// prefix of one or has one as its prefix, 1 when the field's text contains it, else 0.
pub open spec fn token_kind(ftoks: Seq<Seq<char>>, fnorm: Seq<char>, t: Seq<char>) -> int {
    if exists|j: int| 0 <= j < ftoks.len() && #[trigger] ftoks[j] == t {
        4
    } else if exists|j: int|
        0 <= j < ftoks.len() && (spec_has_at(#[trigger] ftoks[j], 0, t) || spec_has_at(
            t,
            0,
            ftoks[j],
        )) {
        2
    } else if find_seq(fnorm, t) is Some {
        1
    } else {
        0
    }
}

/// The whole-query score of a field: exact 14, prefix 9, contained 6 (times the weight).
pub open spec fn phrase_score(fnorm: Seq<char>, q: Seq<char>, w: int) -> int {
    if q.len() == 0 {
        0
    } else if fnorm == q {
        14 * w
    } else if spec_has_at(fnorm, 0, q) {
        9 * w
    } else if find_seq(fnorm, q) is Some {
        6 * w
    } else {
        0
    }
}

/// The token scores of a field for the query tokens `qt`.
pub open spec fn tokens_score(ftoks: Seq<Seq<char>>, fnorm: Seq<char>, qt: Seq<Seq<char>>, w: int) -> int
    decreases qt.len(),
{
    if qt.len() == 0 {
        0
    } else {
        tokens_score(ftoks, fnorm, qt.drop_last(), w) + token_kind(ftoks, fnorm, qt.last()) * w
    }
}

/// The score of one field (normalized text `fnorm`, tokens `ftoks`); an empty field scores 0.
pub open spec fn field_score(
    fnorm: Seq<char>,
    ftoks: Seq<Seq<char>>,
    q: Seq<char>,
    qt: Seq<Seq<char>>,
    w: int,
) -> int {
    if fnorm.len() == 0 {
        0
    } else {
        phrase_score(fnorm, q, w) + tokens_score(ftoks, fnorm, qt, w)
    }
}

/// Whether a non-empty field contains the whole query.
pub open spec fn field_exact(fnorm: Seq<char>, q: Seq<char>) -> bool {
    fnorm.len() > 0 && q.len() > 0 && find_seq(fnorm, q) is Some
}

/// Whether a non-empty field matches query token `t`.
pub open spec fn field_hits(fnorm: Seq<char>, ftoks: Seq<Seq<char>>, t: Seq<char>) -> bool {
    fnorm.len() > 0 && token_kind(ftoks, fnorm, t) > 0
}

/// Whether token `t` hits any of the tool's four fields.
pub open spec fn tool_hits(t: ToolView, tok: Seq<char>) -> bool {
    ||| field_hits(spec_normalize(t.0), spec_tokenize(t.0), tok)
    ||| field_hits(spec_normalize(t.3), spec_tokenize(t.3), tok)
    ||| field_hits(spec_normalize(t.1), spec_tokenize(t.1), tok)
    ||| field_hits(spec_normalize(t.2), spec_tokenize(t.2), tok)
}

/// How many distinct tokens among the first `n` of `qt` hit the tool.
pub open spec fn distinct_hits(t: ToolView, qt: Seq<Seq<char>>, n: int) -> nat
    decreases n,
{
    if n <= 0 {
        0
    } else {
        distinct_hits(t, qt, n - 1) + if tool_hits(t, qt[n - 1]) && !qt.take(n - 1).contains(
            qt[n - 1],
        ) {
            1nat
        } else {
            0nat
        }
    }
}

/// `round(10 * m / q)`, halves rounded up.
pub open spec fn round_tenths(m: int, q: int) -> int {
    (20 * m + q) / (2 * q)
}

/// Whether the first token of a field is the first query token.
pub open spec fn first_token_is(ftoks: Seq<Seq<char>>, qt: Seq<Seq<char>>) -> bool {
    ftoks.len() > 0 && qt.len() > 0 && ftoks[0] == qt[0]
}

/// The score of tool `t` for `query`, or `None` when it does not qualify: no token hits, or
/// too few of them (all of at most two tokens, three fifths of more) without the whole query
/// appearing in a field. Full coverage adds 25, partial coverage ten times its share, rounded;
/// a first path or name token equal to the first query token adds 8; a path or name equal to
/// the query adds 20.
pub open spec fn spec_score(t: ToolView, query: Seq<char>) -> Option<int> {
    let q = spec_normalize(query);
    let qt = spec_tokenize(query);
    if q.len() == 0 || qt.len() == 0 {
        None
    } else {
        let base = field_score(spec_normalize(t.0), spec_tokenize(t.0), q, qt, 12) + field_score(
            spec_normalize(t.3),
            spec_tokenize(t.3),
            q,
            qt,
            8,
        ) + field_score(spec_normalize(t.1), spec_tokenize(t.1), q, qt, 10) + field_score(
            spec_normalize(t.2),
            spec_tokenize(t.2),
            q,
            qt,
            5,
        );
        let exact = field_exact(spec_normalize(t.0), q) || field_exact(spec_normalize(t.3), q)
            || field_exact(spec_normalize(t.1), q) || field_exact(spec_normalize(t.2), q);
        let m = distinct_hits(t, qt, qt.len() as int);
        let n = qt.len() as int;
        if m == 0 {
            None
        } else if !exact && ((n <= 2 && m < n) || (n > 2 && 5 * m < 3 * n)) {
            None
        } else {
            let s1 = base + if m == n {
                25
            } else {
                round_tenths(m as int, n)
            };
            let s2 = s1 + if first_token_is(spec_tokenize(t.0), qt) || first_token_is(
                spec_tokenize(t.1),
                qt,
            ) {
                8int
            } else {
                0int
            };
            Some(
                s2 + if spec_normalize(t.0) == q || spec_normalize(t.1) == q {
                    20int
                } else {
                    0int
                },
            )
        }
    }
}

/// A tool qualifies only when enough of the query meets it, or some field holds the whole
/// query. With the query's tokens `qt`: at least one token hits one of the tool's fields;
/// for at most two tokens, each token, and all of them distinct, hits a field; for more,
/// the distinct tokens that hit number at least three fifths of the tokens. A field
/// containing the whole normalized query lifts the last two requirements.
pub proof fn law_score_needs_coverage(t: ToolView, query: Seq<char>)
    ensures
        spec_score(t, query) is Some ==> {
            let q = spec_normalize(query);
            let qt = spec_tokenize(query);
            let n = qt.len() as int;
            let m = distinct_hits(t, qt, n);
            let whole = field_exact(spec_normalize(t.0), q) || field_exact(spec_normalize(t.3), q)
                || field_exact(spec_normalize(t.1), q) || field_exact(spec_normalize(t.2), q);
            &&& n > 0
            &&& exists|i: int| 0 <= i < n && tool_hits(t, #[trigger] qt[i])
            &&& (!whole && n <= 2) ==> m == n && (forall|i: int| 0 <= i < n ==> tool_hits(t, #[trigger] qt[i]))
                && (n == 2 ==> qt[0] != qt[1])
            &&& (!whole && n > 2) ==> 5 * m >= 3 * n
        },
{
    let qt = spec_tokenize(query);
    let n = qt.len() as int;
    if spec_score(t, query) is Some {
        lemma_distinct_hits_bound(t, qt, n);
        if n == 1 {
            assert(distinct_hits(t, qt, 1) == distinct_hits(t, qt, 0) + if tool_hits(t, qt[0]) && !qt.take(0).contains(qt[0]) { 1nat } else { 0nat });
        } else if n == 2 {
            assert(distinct_hits(t, qt, 1) == distinct_hits(t, qt, 0) + if tool_hits(t, qt[0]) && !qt.take(0).contains(qt[0]) { 1nat } else { 0nat });
            assert(qt.take(1)[0] == qt[0]);
        }
    }
}

/// While some token has hit, one of the first `n` tokens hits the tool.
proof fn lemma_distinct_hits_bound(t: ToolView, qt: Seq<Seq<char>>, n: int)
    requires
        0 <= n <= qt.len(),
    ensures
        distinct_hits(t, qt, n) <= n,
        distinct_hits(t, qt, n) > 0 ==> exists|i: int| 0 <= i < n && tool_hits(t, #[trigger] qt[i]),
    decreases n,
{
    if n > 0 {
        lemma_distinct_hits_bound(t, qt, n - 1);
        if tool_hits(t, qt[n - 1]) {
            assert(tool_hits(t, qt[n - 1]));
        }
    }
}

/// The views of a list of token vectors.
pub open spec fn cviews(v: Seq<Vec<char>>) -> Seq<Seq<char>> {
    v.map_values(|x: Vec<char>| x@)
}

/// Normalized text and tokens of a field.
fn prepare(value: &str) -> (r: (Vec<char>, Vec<Vec<char>>))
    ensures
        r.0@ == spec_normalize(value@),
        cviews(r.1@) == spec_tokenize(value@),
{
    let n = normalize_search_text(value);
    let toks = tokenize_search_text(value);
    let mut out: Vec<Vec<char>> = Vec::new();
    let mut k: usize = 0;
    while k < toks.len()
        invariant
            k <= toks@.len(),
            cviews(out@) == strs(toks@).take(k as int),
        decreases toks.len() - k,
    {
        let c = to_chars(toks[k].as_str());
        let ghost prev = cviews(out@);
        out.push(c);
        assert(cviews(out@) =~= prev.push(c@));
        assert(strs(toks@).take(k + 1) =~= strs(toks@).take(k as int).push(toks@[k as int]@));
        k += 1;
    }
    assert(strs(toks@).take(toks@.len() as int) =~= strs(toks@));
    (to_chars(n.as_str()), out)
}

fn token_kind_exec(ftoks: &Vec<Vec<char>>, fnorm: &Vec<char>, t: &Vec<char>) -> (r: i32)
    ensures
        r as int == token_kind(cviews(ftoks@), fnorm@, t@),
        0 <= r <= 4,
{
    let ghost ft = cviews(ftoks@);
    let mut j: usize = 0;
    while j < ftoks.len()
        invariant
            ft == cviews(ftoks@),
            j <= ft.len(),
            forall|k: int| 0 <= k < j ==> #[trigger] ft[k] != t@,
        decreases ftoks.len() - j,
    {
        if crate::text::chars_eq(&ftoks[j], t) {
            assert(ft[j as int] == t@);
            return 4;
        }
        j += 1;
    }
    j = 0;
    while j < ftoks.len()
        invariant
            ft == cviews(ftoks@),
            j <= ft.len(),
            forall|k: int| 0 <= k < ft.len() ==> #[trigger] ft[k] != t@,
            forall|k: int|
                0 <= k < j ==> !(spec_has_at(#[trigger] ft[k], 0, t@) || spec_has_at(t@, 0, ft[k])),
        decreases ftoks.len() - j,
    {
        if has_at(&ftoks[j], 0, t) || has_at(t, 0, &ftoks[j]) {
            assert(spec_has_at(ft[j as int], 0, t@) || spec_has_at(t@, 0, ft[j as int]));
            return 2;
        }
        j += 1;
    }
    if find_seq_from(fnorm, 0, t).is_some() {
        1
    } else {
        0
    }
}

/// Token scores grow by at most four weights per token.
pub proof fn lemma_tokens_score_bounds(ftoks: Seq<Seq<char>>, fnorm: Seq<char>, qt: Seq<Seq<char>>, w: int)
    requires
        w >= 0,
    ensures
        0 <= tokens_score(ftoks, fnorm, qt, w) <= 4 * w * qt.len(),
    decreases qt.len(),
{
    if qt.len() > 0 {
        lemma_tokens_score_bounds(ftoks, fnorm, qt.drop_last(), w);
        assert(token_kind(ftoks, fnorm, qt.last()) * w <= 4 * w) by (nonlinear_arith)
            requires
                0 <= token_kind(ftoks, fnorm, qt.last()) <= 4,
                w >= 0,
        ;
        assert(4 * w * (qt.len() - 1) + 4 * w == 4 * w * qt.len()) by (nonlinear_arith);
        assert(token_kind(ftoks, fnorm, qt.last()) * w >= 0) by (nonlinear_arith)
            requires
                0 <= token_kind(ftoks, fnorm, qt.last()),
                w >= 0,
        ;
    }
}

/// The score of one field and whether it contains the whole query.
fn score_field(
    q: &Vec<char>,
    qt: &Vec<Vec<char>>,
    fnorm: &Vec<char>,
    ftoks: &Vec<Vec<char>>,
    weight: i32,
) -> (r: (i32, bool))
    requires
        0 < weight <= 12,
        qt@.len() <= MAX_QUERY_TOKENS,
    ensures
        r.0 as int == field_score(fnorm@, cviews(ftoks@), q@, cviews(qt@), weight as int),
        r.1 == field_exact(fnorm@, q@),
        0 <= r.0 <= 14 * 12 + 48 * qt@.len(),
{
    if fnorm.len() == 0 {
        return (0, false);
    }
    let exact = q.len() > 0 && find_seq_from(fnorm, 0, q).is_some();
    let mut score: i32 = 0;
    if q.len() > 0 {
        if crate::text::chars_eq(fnorm, q) {
            score = weight * 14;
        } else if has_at(fnorm, 0, q) {
            score = weight * 9;
        } else if exact {
            score = weight * 6;
        }
    }
    let ghost qv = cviews(qt@);
    let ghost phrase = score as int;
    assert(phrase == phrase_score(fnorm@, q@, weight as int));
    let mut k: usize = 0;
    while k < qt.len()
        invariant
            qv == cviews(qt@),
            k <= qv.len(),
            qv.len() <= MAX_QUERY_TOKENS,
            0 < weight <= 12,
            0 <= phrase <= 14 * 12,
            score as int == phrase + tokens_score(cviews(ftoks@), fnorm@, qv.take(k as int), weight as int),
            tokens_score(cviews(ftoks@), fnorm@, qv.take(k as int), weight as int) <= 4 * weight * k,
        decreases qt.len() - k,
    {
        let kind = token_kind_exec(ftoks, fnorm, &qt[k]);
        proof {
            assert(qv.take(k + 1).drop_last() =~= qv.take(k as int));
            assert(qv.take(k + 1).last() == qt@[k as int]@);
            lemma_tokens_score_bounds(cviews(ftoks@), fnorm@, qv.take(k as int), weight as int);
            assert(kind * weight <= 4 * weight) by (nonlinear_arith)
                requires
                    0 <= kind <= 4,
                    weight >= 0,
            ;
            assert(kind * weight >= 0) by (nonlinear_arith)
                requires
                    0 <= kind,
                    weight >= 0,
            ;
            assert(4 * weight * k + 4 * weight == 4 * weight * (k + 1)) by (nonlinear_arith);
            assert(4 * weight * (k + 1) <= 48 * MAX_QUERY_TOKENS) by (nonlinear_arith)
                requires
                    weight <= 12,
                    k + 1 <= MAX_QUERY_TOKENS,
            ;
        }
        score = score + kind * weight;
        k += 1;
    }
    proof {
        assert(qv.take(qv.len() as int) =~= qv);
        lemma_tokens_score_bounds(cviews(ftoks@), fnorm@, qv, weight as int);
        assert(4 * weight * k <= 48 * qv.len()) by (nonlinear_arith)
            requires
                weight <= 12,
                k == qv.len(),
                0 <= k,
        ;
    }
    (score, exact)
}

/// The hit for `tool` with `score`.
fn discovery(tool: &SearchableTool, score: i32) -> (r: ToolDiscovery)
    ensures
        r@ == spec_discovery(tool@, score as int),
{
    let description = if tool.description.is_empty() {
        None
    } else {
        Some(copy_str(tool.description))
    };
    ToolDiscovery {
        path: copy_str(tool.path),
        name: copy_str(tool.name),
        description,
        integration: copy_str(tool.integration),
        score,
    }
}


/// The distinct query tokens that hit a tool, counted.
fn distinct_hit_count(
    qt: &Vec<Vec<char>>,
    fields: &Vec<(Vec<char>, Vec<Vec<char>>)>,
    Ghost(t): Ghost<ToolView>,
) -> (r: usize)
    requires
        fields@.len() == 4,
        fields@[0].0@ == spec_normalize(t.0) && cviews(fields@[0].1@) == spec_tokenize(t.0),
        fields@[1].0@ == spec_normalize(t.3) && cviews(fields@[1].1@) == spec_tokenize(t.3),
        fields@[2].0@ == spec_normalize(t.1) && cviews(fields@[2].1@) == spec_tokenize(t.1),
        fields@[3].0@ == spec_normalize(t.2) && cviews(fields@[3].1@) == spec_tokenize(t.2),
    ensures
        r as int == distinct_hits(t, cviews(qt@), qt@.len() as int),
        r <= qt@.len(),
{
    let ghost qv = cviews(qt@);
    let mut m: usize = 0;
    let mut k: usize = 0;
    while k < qt.len()
        invariant
            qv == cviews(qt@),
            k <= qv.len(),
            m <= k,
            fields@.len() == 4,
            fields@[0].0@ == spec_normalize(t.0) && cviews(fields@[0].1@) == spec_tokenize(t.0),
            fields@[1].0@ == spec_normalize(t.3) && cviews(fields@[1].1@) == spec_tokenize(t.3),
            fields@[2].0@ == spec_normalize(t.1) && cviews(fields@[2].1@) == spec_tokenize(t.1),
            fields@[3].0@ == spec_normalize(t.2) && cviews(fields@[3].1@) == spec_tokenize(t.2),
            m as int == distinct_hits(t, qv, k as int),
        decreases qt.len() - k,
    {
        let mut seen = false;
        let mut j: usize = 0;
        while j < k
            invariant
                qv == cviews(qt@),
                j <= k < qv.len(),
                seen == exists|x: int| 0 <= x < j && #[trigger] qv[x] == qv[k as int],
            decreases k - j,
        {
            proof {
                assert(qv[j as int] == qt@[j as int]@);
                assert(qv[k as int] == qt@[k as int]@);
            }
            if crate::text::chars_eq(&qt[j], &qt[k]) {
                seen = true;
            }
            proof {
                if !seen {
                    assert forall|x: int| 0 <= x < j + 1 implies #[trigger] qv[x] != qv[k as int] by {
                        if x == j {
                        } else {
                            assert(!(0 <= x < j && qv[x] == qv[k as int]));
                        }
                    }
                }
            }
            j += 1;
        }
        proof {
            assert(qv.take(k as int).contains(qv[k as int]) == seen) by {
                if seen {
                    let x = choose|x: int| 0 <= x < k && #[trigger] qv[x] == qv[k as int];
                    assert(qv.take(k as int)[x] == qv[k as int]);
                }
                if qv.take(k as int).contains(qv[k as int]) {
                    let x = choose|x: int| 0 <= x < k && qv.take(k as int)[x] == qv[k as int];
                    assert(qv[x] == qv[k as int]);
                }
            }
        }
        let mut hit = false;
        let mut f: usize = 0;
        while f < 4
            invariant
                f <= 4,
                k < qv.len(),
                qv == cviews(qt@),
                fields@.len() == 4,
                hit == exists|g: int| 0 <= g < f && #[trigger] field_hits(fields@[g].0@, cviews(fields@[g].1@), qv[k as int]),
            decreases 4 - f,
        {
            let here = fields[f].0.len() > 0 && token_kind_exec(&fields[f].1, &fields[f].0, &qt[k])
                > 0;
            proof {
                assert(qv[k as int] == qt@[k as int]@);
                assert(here == field_hits(fields@[f as int].0@, cviews(fields@[f as int].1@), qv[k as int]));
                if !here && !hit {
                    assert forall|g: int| 0 <= g < f + 1 implies !#[trigger] field_hits(
                        fields@[g].0@,
                        cviews(fields@[g].1@),
                        qv[k as int],
                    ) by {
                        if g < f {
                            assert(!(0 <= g < f && field_hits(fields@[g].0@, cviews(fields@[g].1@), qv[k as int])));
                        }
                    }
                }
            }
            if here {
                hit = true;
            }
            f += 1;
        }
        proof {
            assert(hit == tool_hits(t, qv[k as int])) by {
                if tool_hits(t, qv[k as int]) {
                    if field_hits(spec_normalize(t.0), spec_tokenize(t.0), qv[k as int]) {
                        assert(field_hits(fields@[0].0@, cviews(fields@[0].1@), qv[k as int]));
                    } else if field_hits(spec_normalize(t.3), spec_tokenize(t.3), qv[k as int]) {
                        assert(field_hits(fields@[1].0@, cviews(fields@[1].1@), qv[k as int]));
                    } else if field_hits(spec_normalize(t.1), spec_tokenize(t.1), qv[k as int]) {
                        assert(field_hits(fields@[2].0@, cviews(fields@[2].1@), qv[k as int]));
                    } else {
                        assert(field_hits(fields@[3].0@, cviews(fields@[3].1@), qv[k as int]));
                    }
                }
            }
            assert(qv[k as int] == qt@[k as int]@);
        }
        if hit && !seen {
            m += 1;
        }
        k += 1;
    }
    m
}

/// The bonus for `m` of `n` query tokens hitting: 25 for all of them, else ten times the
/// share, rounded half up.
pub fn coverage_bonus(m: usize, n: usize) -> (r: i32)
    requires
        0 < m <= n <= MAX_QUERY_TOKENS,
    ensures
        r == (if m == n {
            25
        } else {
            round_tenths(m as int, n as int)
        }),
        0 <= r <= 25,
{
    if m == n {
        25
    } else {
        let r: usize = (20 * m + n) / (2 * n);
        assert(r <= 10) by (nonlinear_arith)
            requires
                m < n,
                r == (20 * m + n) / (2 * n),
                n > 0,
        ;
        r as i32
    }
}

/// Score `tool` for `query`: `None` when it does not qualify.
pub fn score_tool_match(tool: &SearchableTool, query: &str) -> (r: Option<ToolDiscovery>)
    requires
        spec_tokenize(query@).len() <= MAX_QUERY_TOKENS,
    ensures
        match spec_score(tool@, query@) {
            Some(sc) => r matches Some(d) && d@ == spec_discovery(tool@, sc),
            None => r is None,
        },
{
    let (q, qt) = prepare(query);
    if q.len() == 0 || qt.len() == 0 {
        return None;
    }
    let path = prepare(tool.path);
    let integration = prepare(tool.integration);
    let name = prepare(tool.name);
    let description = prepare(tool.description);
    let (s0, e0) = score_field(&q, &qt, &path.0, &path.1, W_PATH);
    let (s1, e1) = score_field(&q, &qt, &integration.0, &integration.1, W_INTEGRATION);
    let (s2, e2) = score_field(&q, &qt, &name.0, &name.1, W_NAME);
    let (s3, e3) = score_field(&q, &qt, &description.0, &description.1, W_DESCRIPTION);
    let mut score: i32 = s0 + s1 + s2 + s3;
    let exact = e0 || e1 || e2 || e3;
    let first_path_ok = path.1.len() > 0 && crate::text::chars_eq(&path.1[0], &qt[0]);
    let first_name_ok = name.1.len() > 0 && crate::text::chars_eq(&name.1[0], &qt[0]);
    let same_path = crate::text::chars_eq(&path.0, &q);
    let same_name = crate::text::chars_eq(&name.0, &q);
    let mut fields: Vec<(Vec<char>, Vec<Vec<char>>)> = Vec::new();
    fields.push(path);
    fields.push(integration);
    fields.push(name);
    fields.push(description);
    let m = distinct_hit_count(&qt, &fields, Ghost(tool@));
    let n = qt.len();
    if m == 0 {
        return None;
    }
    if !exact && ((n <= 2 && m < n) || (n > 2 && 5 * m < 3 * n)) {
        return None;
    }
    score = score + coverage_bonus(m, n);
    if first_path_ok || first_name_ok {
        score = score + 8;
    }
    if same_path || same_name {
        score = score + 20;
    }
    proof {
        let t = tool@;
        let qv = cviews(qt@);
        assert(qv == spec_tokenize(query@));
        assert(q@ == spec_normalize(query@));
        assert(first_path_ok == first_token_is(spec_tokenize(t.0), qv)) by {
            if fields@[0].1@.len() > 0 {
                assert(cviews(fields@[0].1@)[0] == fields@[0].1@[0]@);
            }
            assert(qv[0] == qt@[0]@);
        }
        assert(first_name_ok == first_token_is(spec_tokenize(t.1), qv)) by {
            if fields@[2].1@.len() > 0 {
                assert(cviews(fields@[2].1@)[0] == fields@[2].1@[0]@);
            }
            assert(qv[0] == qt@[0]@);
        }
    }
    Some(discovery(tool, score))
}

// ---------------------------------------------------------------- ranking

/// Whether the token list starts with `prefix`.
pub open spec fn prefix_match(tokens: Seq<Seq<char>>, prefix: Seq<Seq<char>>) -> bool {
    prefix.len() <= tokens.len() && tokens.take(prefix.len() as int) == prefix
}

/// Whether a tool is in the namespace: no namespace (or one that normalizes to nothing), or
/// its tokens start the integration's or the path's tokens.
pub open spec fn spec_in_namespace(t: ToolView, namespace: Option<Seq<char>>) -> bool {
    match namespace {
        None => true,
        Some(n) => spec_normalize(n).len() == 0 || spec_tokenize(n).len() == 0 || prefix_match(
            spec_tokenize(t.3),
            spec_tokenize(n),
        ) || prefix_match(spec_tokenize(t.0), spec_tokenize(n)),
    }
}

fn prefix_match_exec(tokens: &Vec<String>, prefix: &Vec<String>) -> (r: bool)
    ensures
        r == prefix_match(strs(tokens@), strs(prefix@)),
{
    if prefix.len() > tokens.len() {
        return false;
    }
    let mut k: usize = 0;
    while k < prefix.len()
        invariant
            prefix@.len() <= tokens@.len(),
            k <= prefix@.len(),
            forall|x: int| 0 <= x < k ==> #[trigger] tokens@[x]@ == prefix@[x]@,
        decreases prefix.len() - k,
    {
        if !str_eq(tokens[k].as_str(), prefix[k].as_str()) {
            assert(strs(tokens@).take(prefix@.len() as int)[k as int] != strs(prefix@)[k as int]);
            return false;
        }
        k += 1;
    }
    assert(strs(tokens@).take(prefix@.len() as int) =~= strs(prefix@));
    true
}

fn matches_namespace(tool: &SearchableTool, namespace: Option<&str>) -> (r: bool)
    ensures
        r == spec_in_namespace(
            tool@,
            match namespace {
                Some(n) => Some(n@),
                None => None,
            },
        ),
{
    match namespace {
        None => true,
        Some(ns) => {
            let nn = normalize_search_text(ns);
            if nn.as_str().is_empty() {
                return true;
            }
            let nt = tokenize_search_text(ns);
            if nt.len() == 0 {
                return true;
            }
            prefix_match_exec(&tokenize_search_text(tool.integration), &nt) || prefix_match_exec(
                &tokenize_search_text(tool.path),
                &nt,
            )
        },
    }
}

/// Whether hit `a` ranks strictly before hit `b`: by path, or (when `by_score`) by score,
/// higher first, then by path.
pub open spec fn ranks_before(a: DiscoveryView, b: DiscoveryView, by_score: bool) -> bool {
    if by_score {
        a.4 > b.4 || (a.4 == b.4 && lex_lt(a.0, b.0))
    } else {
        lex_lt(a.0, b.0)
    }
}

/// `x` inserted into ranked `s` after every hit it does not rank before.
pub open spec fn insert_ranked(s: Seq<DiscoveryView>, x: DiscoveryView, by_score: bool) -> Seq<
    DiscoveryView,
>
    decreases s.len(),
{
    if s.len() == 0 {
        seq![x]
    } else if ranks_before(x, s.last(), by_score) {
        insert_ranked(s.drop_last(), x, by_score).push(s.last())
    } else {
        s.push(x)
    }
}

/// The stable sort of `s` by rank (what `sort_by` with the same comparison gives).
pub open spec fn sort_ranked(s: Seq<DiscoveryView>, by_score: bool) -> Seq<DiscoveryView>
    decreases s.len(),
{
    if s.len() == 0 {
        Seq::empty()
    } else {
        insert_ranked(sort_ranked(s.drop_last(), by_score), s.last(), by_score)
    }
}

/// Insertion at the position the scan from the right finds.
proof fn lemma_insert_ranked_at(s: Seq<DiscoveryView>, x: DiscoveryView, by_score: bool, j: int)
    requires
        0 <= j <= s.len(),
        forall|k: int| j <= k < s.len() ==> ranks_before(x, #[trigger] s[k], by_score),
        j > 0 ==> !ranks_before(x, s[j - 1], by_score),
    ensures
        insert_ranked(s, x, by_score) == s.insert(j, x),
    decreases s.len(),
{
    if s.len() == 0 {
        assert(s.insert(j, x) =~= seq![x]);
    } else if j == s.len() {
        assert(s.insert(j, x) =~= s.push(x));
    } else {
        assert(ranks_before(x, s.last(), by_score));
        lemma_insert_ranked_at(s.drop_last(), x, by_score, j);
        assert(s.drop_last().insert(j, x).push(s.last()) =~= s.insert(j, x));
    }
}

/// The views of a list of hits.
pub open spec fn dviews(v: Seq<ToolDiscovery>) -> Seq<DiscoveryView> {
    v.map_values(|d: ToolDiscovery| d@)
}

fn ranks_before_exec(a: &ToolDiscovery, b: &ToolDiscovery, by_score: bool) -> (r: bool)
    ensures
        r == ranks_before(a@, b@, by_score),
{
    let path_lt = lex_order_str(a.path.as_str(), b.path.as_str()) == -1;
    if by_score {
        a.score > b.score || (a.score == b.score && path_lt)
    } else {
        path_lt
    }
}

fn insert_ranked_exec(out: &mut Vec<ToolDiscovery>, x: ToolDiscovery, by_score: bool)
    ensures
        dviews(final(out)@) == insert_ranked(dviews(old(out)@), x@, by_score),
{
    let mut j = out.len();
    while j > 0 && ranks_before_exec(&x, &out[j - 1], by_score)
        invariant
            j <= out@.len(),
            out@ == old(out)@,
            forall|k: int| j <= k < out@.len() ==> ranks_before(x@, #[trigger] out@[k]@, by_score),
        decreases j,
    {
        j -= 1;
    }
    proof {
        let s = dviews(out@);
        assert forall|k: int| j <= k < s.len() implies ranks_before(x@, #[trigger] s[k], by_score) by {
            assert(s[k] == out@[k]@);
        }
        if j > 0 {
            assert(s[j - 1] == out@[j - 1]@);
        }
        lemma_insert_ranked_at(s, x@, by_score, j as int);
    }
    let ghost before = out@;
    out.insert(j, x);
    assert(dviews(out@) =~= dviews(before).insert(j as int, x@));
}

fn sort_hits(hits: Vec<ToolDiscovery>, by_score: bool) -> (r: Vec<ToolDiscovery>)
    ensures
        dviews(r@) == sort_ranked(dviews(hits@), by_score),
{
    let mut out: Vec<ToolDiscovery> = Vec::new();
    let mut rest = hits;
    let ghost all = dviews(rest@);
    let mut k: usize = 0;
    let total = rest.len();
    assert(all.skip(0) =~= all);
    assert(all.take(0) =~= Seq::<DiscoveryView>::empty());
    while rest.len() > 0
        invariant
            all.len() == total,
            all.len() == k + rest@.len(),
            dviews(rest@) == all.skip(k as int),
            dviews(out@) == sort_ranked(all.take(k as int), by_score),
        decreases rest.len(),
    {
        let ghost before = rest@;
        let x = rest.remove(0);
        proof {
            assert(all.skip(k as int)[0] == dviews(before)[0]);
            assert(all[k as int] == x@);
            assert(all.take(k + 1).drop_last() =~= all.take(k as int));
            assert(all.take(k + 1).last() == x@);
            assert forall|i: int| 0 <= i < rest@.len() implies #[trigger] dviews(rest@)[i] == all.skip(
                k + 1,
            )[i] by {
                assert(rest@[i] == before[i + 1]);
                assert(dviews(before)[i + 1] == all.skip(k as int)[i + 1]);
            }
            assert(dviews(rest@) =~= all.skip(k + 1));
        }
        insert_ranked_exec(&mut out, x, by_score);
        k += 1;
    }
    proof {
        assert(all.take(k as int) =~= all);
    }
    out
}


// ---------------------------------------------------------------- pages

/// One page of search/list results.
#[derive(Clone, Debug, PartialEq, Eq)]
pub struct SearchPage<T> {
    /// Hits on this page.
    pub items: Vec<T>,
    /// Total matches before paging.
    pub total: u32,
    /// More pages exist.
    pub has_more: bool,
    /// Pass as `offset` for the next page.
    pub next_offset: Option<u32>,
}

/// The page of `items` at `offset` with at most `max(limit, 1)` items: the page, the total
/// (saturated to `u32::MAX`), whether more follow, and where the next page starts.
pub open spec fn spec_page<A>(items: Seq<A>, offset: u32, limit: u32) -> (Seq<A>, u32, bool, Option<
    u32,
>) {
    let len = items.len();
    let total: u32 = if len > u32::MAX {
        u32::MAX
    } else {
        len as u32
    };
    let start: int = if offset < len {
        offset as int
    } else {
        len as int
    };
    let take: int = if limit == 0 {
        1
    } else {
        limit as int
    };
    let end: int = if start + take < len {
        start + take
    } else {
        len as int
    };
    let taken = end - start;
    let has_more = offset + taken < total;
    (items.subrange(start, end), total, has_more, if has_more {
        Some((offset + taken) as u32)
    } else {
        None
    })
}

impl<T> SearchPage<T> {
    /// Slice `items` at `offset`/`limit`.
    pub fn paginate(items: Vec<T>, offset: u32, limit: u32) -> (r: Self)
        ensures
            (r.items@, r.total, r.has_more, r.next_offset) == spec_page(items@, offset, limit),
    {
        let len = items.len();
        let total: u32 = if len > 4294967295usize {
            4294967295u32
        } else {
            len as u32
        };
        let off: usize = offset as usize;
        let start: usize = if off < len {
            off
        } else {
            len
        };
        let take: usize = if limit == 0 {
            1
        } else {
            limit as usize
        };
        let mut head = items;
        let mut page = head.split_off(start);
        page.truncate(take);
        let taken: u32 = page.len() as u32;
        let has_more = (offset as u64) + (taken as u64) < (total as u64);
        let next_offset = if has_more {
            Some(offset + taken)
        } else {
            None
        };
        proof {
            let end: int = if start + take < len {
                start + take
            } else {
                len as int
            };
            assert(page@ =~= items@.subrange(start as int, end));
        }
        SearchPage { items: page, total, has_more, next_offset }
    }
}

// ---------------------------------------------------------------- arguments

/// Arguments to `tools.search`.
#[derive(Clone, Debug, PartialEq, Eq)]
pub struct SearchArgs {
    /// Free-text query. Empty + namespace enumerates that integration.
    pub query: String,
    /// Integration / path token prefix.
    pub namespace: Option<String>,
    /// Page size (default 12).
    pub limit: u32,
    /// Page start.
    pub offset: u32,
}

impl Default for SearchArgs {
    fn default() -> (r: Self)
        ensures
            r.query@.len() == 0,
            r.namespace is None,
            r.limit == 0,
            r.offset == 0,
    {
        SearchArgs { query: String::new(), namespace: None, limit: 0, offset: 0 }
    }
}

/// The value of a number written as plain decimal digits that fits in a `u64`
/// (`Value::as_u64`).
pub open spec fn digits_value(t: Seq<char>) -> int
    decreases t.len(),
{
    if t.len() == 0 {
        0
    } else {
        digits_value(t.drop_last()) * 10 + (t.last() as int - '0' as int)
    }
}

/// Whether `t` is a non-empty run of ASCII digits.
pub open spec fn all_digits(t: Seq<char>) -> bool {
    t.len() > 0 && forall|i: int| 0 <= i < t.len() ==> '0' <= #[trigger] t[i] <= '9'
}

/// `Value::as_u64`: a number written as plain decimal digits whose value fits.
pub open spec fn json_as_u64(v: Option<JsonValue>) -> Option<u64> {
    match v {
        Some(JsonValue::Number(t)) => if all_digits(t@) && digits_value(t@) <= u64::MAX {
            Some(digits_value(t@) as u64)
        } else {
            None
        },
        _ => None,
    }
}

/// `Value::as_str`.
pub open spec fn json_as_str(v: Option<JsonValue>) -> Option<Seq<char>> {
    match v {
        Some(JsonValue::Text(t)) => Some(t@),
        _ => None,
    }
}

/// The arguments a JSON value gives (`query`, `namespace` or else `integration`, `limit`
/// clamped to 1..=100 and 12 by default, `offset` 0 by default; a number too large for `u32`
/// counts as the default).
pub open spec fn spec_from_value(v: JsonValue) -> (Seq<char>, Option<Seq<char>>, u32, u32) {
    match v {
        JsonValue::Object(m) => {
            let query = match json_as_str(member_from(m@, "query"@, 0)) {
                Some(q) => q,
                None => Seq::empty(),
            };
            let ns_value = match member_from(m@, "namespace"@, 0) {
                Some(x) => Some(x),
                None => member_from(m@, "integration"@, 0),
            };
            let namespace = match json_as_str(ns_value) {
                Some(n) => if n.len() > 0 {
                    Some(n)
                } else {
                    None
                },
                None => None,
            };
            let limit: u32 = match json_as_u64(member_from(m@, "limit"@, 0)) {
                Some(n) => if n <= u32::MAX {
                    n as u32
                } else {
                    12
                },
                None => 12,
            };
            let offset: u32 = match json_as_u64(member_from(m@, "offset"@, 0)) {
                Some(n) => if n <= u32::MAX {
                    n as u32
                } else {
                    0
                },
                None => 0,
            };
            let clamped: u32 = if limit < 1 {
                1
            } else if limit > 100 {
                100
            } else {
                limit
            };
            (query, namespace, clamped, offset)
        },
        _ => (Seq::empty(), None, 12, 0),
    }
}

/// The member named `key`, if any.
fn member<'a>(m: &'a Vec<(String, JsonValue)>, key: &str) -> (r: Option<&'a JsonValue>)
    ensures
        match r {
            Some(v) => member_from(m@, key@, 0) == Some(*v),
            None => member_from(m@, key@, 0) is None,
        },
{
    let mut k: usize = 0;
    while k < m.len()
        invariant
            k <= m@.len(),
            member_from(m@, key@, 0) == member_from(m@, key@, k as int),
        decreases m.len() - k,
    {
        if str_eq(m[k].0.as_str(), key) {
            return Some(&m[k].1);
        }
        k += 1;
    }
    None
}

pub(crate) fn as_u64(v: Option<&JsonValue>) -> (r: Option<u64>)
    ensures
        r == json_as_u64(
            match v {
                Some(x) => Some(*x),
                None => None,
            },
        ),
{
    match v {
        Some(JsonValue::Number(t)) => parse_digits(t.as_str()),
        _ => None,
    }
}

/// The value of a run of decimal digits that fits in a `u64`.
pub fn parse_digits(t: &str) -> (r: Option<u64>)
    ensures
        r == (if all_digits(t@) && digits_value(t@) <= u64::MAX {
            Some(digits_value(t@) as u64)
        } else {
            None
        }),
{
    let c = to_chars(t);
    if c.len() == 0 {
        return None;
    }
    let mut acc: u64 = 0;
    let mut k: usize = 0;
    while k < c.len()
        invariant
            c@ == t@,
            k <= c@.len(),
            forall|i: int| 0 <= i < k ==> '0' <= #[trigger] c@[i] <= '9',
            acc as int == digits_value(c@.take(k as int)),
        decreases c.len() - k,
    {
        let ch = c[k];
        if !('0' <= ch && ch <= '9') {
            assert(!all_digits(t@));
            return None;
        }
        let d: u64 = (ch as u32 - 48) as u64;
        proof {
            assert(c@.take(k + 1).drop_last() =~= c@.take(k as int));
            lemma_digits_value_mono(c@, k as int);
        }
        if acc > 1844674407370955161u64 || (acc == 1844674407370955161u64 && d > 5) {
            proof {
                lemma_digits_value_grows(c@, k + 1);
            }
            return None;
        }
        acc = acc * 10 + d;
        k += 1;
    }
    assert(c@.take(c@.len() as int) =~= c@);
    Some(acc)
}

/// Digits only make the value grow.
proof fn lemma_digits_value_mono(c: Seq<char>, k: int)
    requires
        0 <= k < c.len(),
        forall|i: int| 0 <= i < k ==> '0' <= #[trigger] c[i] <= '9',
    ensures
        digits_value(c.take(k)) >= 0,
    decreases k,
{
    if k > 0 {
        assert(c.take(k).drop_last() =~= c.take(k - 1));
        lemma_digits_value_mono(c, k - 1);
    }
}

/// Once a digit prefix exceeds `u64::MAX`, every longer digit run does too.
proof fn lemma_digits_value_grows(c: Seq<char>, k: int)
    requires
        0 < k <= c.len(),
        digits_value(c.take(k)) > u64::MAX,
        forall|i: int| 0 <= i < k - 1 ==> '0' <= #[trigger] c[i] <= '9',
    ensures
        !all_digits(c) || digits_value(c) > u64::MAX,
    decreases c.len() - k,
{
    if k < c.len() && all_digits(c) {
        assert(c.take(k + 1).drop_last() =~= c.take(k));
        assert('0' <= c[k] <= '9');
        lemma_digits_value_grows(c, k + 1);
    } else if k == c.len() {
        assert(c.take(k) =~= c);
    }
}

impl SearchArgs {
    /// Read from a JSON object (`query`, `namespace`, `limit`, `offset`).
    pub fn from_value(value: &JsonValue) -> (r: Self)
        ensures
            (r.query@, match r.namespace {
                Some(n) => Some(n@),
                None => None,
            }, r.limit, r.offset) == spec_from_value(*value),
    {
        let m = match value {
            JsonValue::Object(m) => m,
            _ => {
                return SearchArgs { query: String::new(), namespace: None, limit: 12, offset: 0 };
            },
        };
        let query = match member(m, "query") {
            Some(JsonValue::Text(q)) => copy_str(q.as_str()),
            _ => String::new(),
        };
        let ns_value = match member(m, "namespace") {
            Some(x) => Some(x),
            None => member(m, "integration"),
        };
        let namespace = match ns_value {
            Some(JsonValue::Text(n)) => {
                if n.as_str().is_empty() {
                    None
                } else {
                    Some(copy_str(n.as_str()))
                }
            },
            _ => None,
        };
        let limit: u32 = match as_u64(member(m, "limit")) {
            Some(n) => if n <= 4294967295u64 {
                n as u32
            } else {
                12
            },
            None => 12,
        };
        let offset: u32 = match as_u64(member(m, "offset")) {
            Some(n) => if n <= 4294967295u64 {
                n as u32
            } else {
                0
            },
            None => 0,
        };
        let clamped: u32 = if limit < 1 {
            1
        } else if limit > 100 {
            100
        } else {
            limit
        };
        SearchArgs { query, namespace, limit: clamped, offset }
    }
}

// ---------------------------------------------------------------- search

/// The hits of a namespace enumeration: the tools of integration `ns`, each scoring 0.
pub open spec fn namespace_hits(ts: Seq<ToolView>, ns: Seq<char>) -> Seq<DiscoveryView>
    decreases ts.len(),
{
    if ts.len() == 0 {
        Seq::empty()
    } else {
        let rest = namespace_hits(ts.drop_last(), ns);
        if ts.last().3 == ns {
            rest.push(spec_discovery(ts.last(), 0))
        } else {
            rest
        }
    }
}

/// The hits of a query: the tools in the namespace that qualify, with their scores.
pub open spec fn query_hits(ts: Seq<ToolView>, ns: Option<Seq<char>>, query: Seq<char>) -> Seq<
    DiscoveryView,
>
    decreases ts.len(),
{
    if ts.len() == 0 {
        Seq::empty()
    } else {
        let rest = query_hits(ts.drop_last(), ns, query);
        if spec_in_namespace(ts.last(), ns) {
            match spec_score(ts.last(), query) {
                Some(sc) => rest.push(spec_discovery(ts.last(), sc)),
                None => rest,
            }
        } else {
            rest
        }
    }
}

/// The views of a list of searchable tools.
pub open spec fn tviews(v: Seq<SearchableTool>) -> Seq<ToolView> {
    v.map_values(|t: SearchableTool| t@)
}

/// The ranked hits: a namespace listing by path when the query normalizes to nothing, else the
/// qualifying tools by score, then path.
pub open spec fn spec_ranked(ts: Seq<ToolView>, query: Seq<char>, ns: Option<Seq<char>>) -> Seq<
    DiscoveryView,
> {
    if spec_normalize(query).len() == 0 {
        let n = match ns {
            Some(x) => crate::text::spec_trim(x),
            None => Seq::empty(),
        };
        sort_ranked(namespace_hits(ts, n), false)
    } else {
        sort_ranked(query_hits(ts, ns, query), true)
    }
}

/// Whether the search has nothing to look for: an empty query and no namespace.
pub open spec fn nothing_to_search(query: Seq<char>, ns: Option<Seq<char>>) -> bool {
    spec_normalize(query).len() == 0 && match ns {
        Some(n) => spec_normalize(n).len() == 0,
        None => true,
    }
}

/// An optional string as plain characters.
pub open spec fn opt_view(o: Option<String>) -> Option<Seq<char>> {
    match o {
        Some(n) => Some(n@),
        None => None,
    }
}

/// Rank `tools` for `args`. Empty query with no namespace yields an empty page.
pub fn search_tools(tools: &[SearchableTool], args: &SearchArgs) -> (r: SearchPage<ToolDiscovery>)
    requires
        spec_tokenize(args.query@).len() <= MAX_QUERY_TOKENS,
    ensures
        ({
            let ns = opt_view(args.namespace);
            if nothing_to_search(args.query@, ns) {
                r.items@.len() == 0 && r.total == 0 && !r.has_more && r.next_offset is None
            } else {
                (dviews(r.items@), r.total, r.has_more, r.next_offset) == spec_page(
                    spec_ranked(tviews(tools@), args.query@, ns),
                    args.offset,
                    args.limit,
                )
            }
        }),
{
    let ghost ns = opt_view(args.namespace);
    let ghost ts = tviews(tools@);
    let empty_query = normalize_search_text(args.query.as_str()).as_str().is_empty();
    let has_ns = match &args.namespace {
        Some(n) => !normalize_search_text(n.as_str()).as_str().is_empty(),
        None => false,
    };
    if empty_query && !has_ns {
        return SearchPage { items: Vec::new(), total: 0, has_more: false, next_offset: None };
    }
    let mut hits: Vec<ToolDiscovery> = Vec::new();
    let mut k: usize = 0;
    if empty_query {
        let ns_text = match &args.namespace {
            Some(n) => crate::text::trim(n.as_str()),
            None => String::new(),
        };
        while k < tools.len()
            invariant
                k <= tools@.len(),
                ts == tviews(tools@),
                dviews(hits@) == namespace_hits(ts.take(k as int), ns_text@),
            decreases tools.len() - k,
        {
            proof {
                assert(ts.take(k + 1).drop_last() =~= ts.take(k as int));
                assert(ts.take(k + 1).last() == tools@[k as int]@);
            }
            if str_eq(tools[k].integration, ns_text.as_str()) {
                let d = discovery(&tools[k], 0);
                let ghost before = dviews(hits@);
                hits.push(d);
                assert(dviews(hits@) =~= before.push(d@));
            }
            k += 1;
        }
        assert(ts.take(tools@.len() as int) =~= ts);
        let ranked = sort_hits(hits, false);
        SearchPage::paginate(ranked, args.offset, args.limit)
    } else {
        let namespace: Option<&str> = match &args.namespace {
            Some(n) => Some(n.as_str()),
            None => None,
        };
        while k < tools.len()
            invariant
                k <= tools@.len(),
                ts == tviews(tools@),
                spec_tokenize(args.query@).len() <= MAX_QUERY_TOKENS,
                match namespace {
                    Some(x) => ns == Some(x@),
                    None => ns is None,
                },
                dviews(hits@) == query_hits(ts.take(k as int), ns, args.query@),
            decreases tools.len() - k,
        {
            proof {
                assert(ts.take(k + 1).drop_last() =~= ts.take(k as int));
                assert(ts.take(k + 1).last() == tools@[k as int]@);
            }
            if matches_namespace(&tools[k], namespace) {
                match score_tool_match(&tools[k], args.query.as_str()) {
                    Some(d) => {
                        let ghost before = dviews(hits@);
                        hits.push(d);
                        assert(dviews(hits@) =~= before.push(d@));
                    },
                    None => {},
                }
            }
            k += 1;
        }
        assert(ts.take(tools@.len() as int) =~= ts);
        let ranked = sort_hits(hits, true);
        SearchPage::paginate(ranked, args.offset, args.limit)
    }
}

} // verus!
