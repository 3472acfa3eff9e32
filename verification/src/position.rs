//! Lexicographic keys for policy ordering. Lower key = higher precedence.

use vstd::prelude::*;
use crate::text::{char_from_ascii, char_from_u32, from_chars, lex_lt, lex_order, lex_order_chars, chars_eq, to_chars, lemma_lex_order_skip, slice_vec};

verus! {

/// The key with its last character stepped up, or with `0` appended when that last
/// character is `z` or later (or the key is empty).
pub open spec fn spec_increment(k: Seq<char>) -> Seq<char> {
    if k.len() > 0 && (k.last() as u32) < ('z' as u32) {
        k.drop_last().push((((k.last() as u32) + 1) as u32) as char)
    } else {
        k.push('0')
    }
}

/// A nonempty key below the nonempty `s` when there is one: `s` without its last
/// character; for a single character, `Zz` above ASCII, else that character stepped down
/// (the empty key below `"\0"`).
pub open spec fn spec_lower(s: Seq<char>) -> Seq<char> {
    if s.len() >= 2 {
        s.drop_last()
    } else if (s[0] as u32) >= 0x80 {
        "Zz"@
    } else if (s[0] as u32) > 0 {
        seq![(((s[0] as u32) - 1) as u32) as char]
    } else {
        Seq::empty()
    }
}

/// A key below `n`: its last character stepped down when that stays valid text and
/// at least `0`, otherwise a `Zz` prefix (or `Zz`) when that sorts below `n`, otherwise
/// `spec_lower(n)`.
pub open spec fn spec_before(n: Seq<char>) -> Seq<char> {
    if n.len() == 0 || n == "a0"@ {
        "Zz"@
    } else {
        let c = n.last() as u32;
        if c < 0x80 {
            if c > ('0' as u32) {
                n.drop_last().push(((c - 1) as u32) as char)
            } else if lex_lt("Zz"@ + n, n) {
                "Zz"@ + n
            } else {
                spec_lower(n)
            }
        } else if c % 64 != 0 {
            n.drop_last().push(((c - 1) as u32) as char)
        } else if lex_lt("Zz"@, n) {
            "Zz"@
        } else {
            spec_lower(n)
        }
    }
}

/// The key `between` picks for `prev` and `next`: `prev` stepped up, or `prev0`, when
/// that sorts below `next`; otherwise `next` extends `prev`, and the key is `prev`
/// followed by a key below the rest of `next`.
pub open spec fn spec_between(p: Seq<char>, n: Seq<char>) -> Seq<char> {
    if lex_lt(p, n) {
        if lex_lt(spec_increment(p), n) {
            spec_increment(p)
        } else if lex_lt(p.push('0'), n) {
            p.push('0')
        } else {
            p + spec_lower(n.skip(p.len() as int))
        }
    } else {
        spec_increment(p)
    }
}

/// The key `generate_key_between` returns.
pub open spec fn spec_key_between(prev: Option<Seq<char>>, next: Option<Seq<char>>) -> Seq<char> {
    match (prev, next) {
        (None, None) => "a0"@,
        (Some(p), None) => spec_increment(p),
        (None, Some(n)) => spec_before(n),
        (Some(p), Some(n)) => spec_between(p, n),
    }
}

proof fn lemma_lt_extend(a: Seq<char>, b: Seq<char>)
    requires
        b.len() > 0,
    ensures
        lex_lt(a, a + b),
    decreases a.len(),
{
    if a.len() > 0 {
        assert((a + b)[0] == a[0]);
        assert((a + b).drop_first() =~= a.drop_first() + b);
        lemma_lt_extend(a.drop_first(), b);
    }
}

proof fn lemma_same_prefix(p: Seq<char>, x: Seq<char>, y: Seq<char>)
    ensures
        lex_order(p + x, p + y) == lex_order(x, y),
{
    assert forall|k: int| 0 <= k < p.len() implies (p + x)[k] == (p + y)[k] by {}
    lemma_lex_order_skip(p + x, p + y, p.len() as int);
    assert((p + x).skip(p.len() as int) =~= x);
    assert((p + y).skip(p.len() as int) =~= y);
}

proof fn lemma_last_step(k: Seq<char>, c1: char, c2: char)
    requires
        (c1 as u32) < (c2 as u32),
    ensures
        lex_lt(k.push(c1), k.push(c2)),
{
    lemma_same_prefix(k, seq![c1], seq![c2]);
    assert(k + seq![c1] =~= k.push(c1));
    assert(k + seq![c2] =~= k.push(c2));
}

proof fn lemma_increment_above(k: Seq<char>)
    ensures
        lex_lt(k, spec_increment(k)),
{
    if k.len() > 0 && (k.last() as u32) < ('z' as u32) {
        assert(k =~= k.drop_last().push(k.last()));
        lemma_last_step(k.drop_last(), k.last(), (((k.last() as u32) + 1) as u32) as char);
    } else {
        lemma_lt_extend(k, seq!['0']);
        assert(k + seq!['0'] =~= k.push('0'));
    }
}

proof fn lemma_lower_below(s: Seq<char>)
    requires
        s.len() > 0,
    ensures
        lex_lt(spec_lower(s), s),
        spec_lower(s).len() == 0 ==> s =~= seq!['\0'],
{
    reveal_strlit("Zz");
    crate::text::lemma_char_range(s[0]);
    if s.len() >= 2 {
        assert(s =~= s.drop_last() + seq![s.last()]);
        lemma_lt_extend(s.drop_last(), seq![s.last()]);
    } else if (s[0] as u32) >= 0x80 {
        assert(("Zz"@)[0] == 'Z');
        assert(('Z' as int) < (s[0] as int));
        assert(lex_order("Zz"@, s) == -1);
    } else if (s[0] as u32) > 0 {
        let d = (((s[0] as u32) - 1) as u32) as char;
        assert((d as int) == (s[0] as int) - 1);
        assert(spec_lower(s) =~= seq![d]);
        assert(lex_order(seq![d], s) == -1);
    } else {
        assert((s[0] as int) == 0);
        assert(s =~= seq!['\0']);
    }
}

proof fn lemma_extends(p: Seq<char>, n: Seq<char>)
    requires
        lex_lt(p, n),
        !lex_lt(p.push('0'), n),
    ensures
        p.len() < n.len(),
        n =~= p + n.skip(p.len() as int),
    decreases p.len(),
{
    if p.len() > 0 {
        assert(p.push('0')[0] == p[0]);
        assert(n.len() > 0);
        assert(p[0] == n[0]);
        assert(p.push('0').drop_first() =~= p.drop_first().push('0'));
        lemma_extends(p.drop_first(), n.drop_first());
        assert(n.drop_first().skip(p.len() - 1) =~= n.skip(p.len() as int));
        assert(n =~= seq![n[0]] + n.drop_first());
    } else {
        assert(n.skip(0) =~= n);
    }
}

/// `spec_key_between` sorts after `prev` and before `next`, as far as such a key exists:
/// nothing sorts below the empty key, and nothing lies between `p` and `p` followed by
/// `\0`.
pub proof fn lemma_key_between(prev: Option<Seq<char>>, next: Option<Seq<char>>)
    ensures
        match prev {
            Some(p) => (match next {
                Some(n) => n != p.push('\0'),
                None => true,
            }) ==> lex_lt(p, spec_key_between(prev, next)),
            None => true,
        },
        match next {
            Some(n) => (n.len() > 0 && match prev {
                Some(p) => lex_lt(p, n) && n != p.push('\0'),
                None => true,
            }) ==> lex_lt(spec_key_between(prev, next), n),
            None => true,
        },
{
    reveal_strlit("Zz");
    reveal_strlit("a0");
    match (prev, next) {
        (None, None) => {},
        (Some(p), None) => {
            lemma_increment_above(p);
        },
        (None, Some(n)) => {
            if n.len() > 0 {
                lemma_before_below(n);
            }
        },
        (Some(p), Some(n)) => {
            lemma_increment_above(p);
            if lex_lt(p, n) && !lex_lt(spec_increment(p), n) {
                if lex_lt(p.push('0'), n) {
                    lemma_lt_extend(p, seq!['0']);
                    assert(p + seq!['0'] =~= p.push('0'));
                } else {
                    lemma_extends(p, n);
                    let s = n.skip(p.len() as int);
                    assert(s.len() > 0);
                    lemma_lower_below(s);
                    lemma_same_prefix(p, spec_lower(s), s);
                    if n != p.push('\0') {
                        if spec_lower(s).len() == 0 {
                            assert(n =~= p + seq!['\0']);
                            assert(p + seq!['\0'] =~= p.push('\0'));
                        }
                        lemma_lt_extend(p, spec_lower(s));
                    }
                }
            }
        },
    }
}

proof fn lemma_before_below(n: Seq<char>)
    requires
        n.len() > 0,
    ensures
        lex_lt(spec_before(n), n),
{
    reveal_strlit("Zz");
    reveal_strlit("a0");
    if n == "a0"@ {
        assert(("Zz"@)[0] == 'Z');
        assert(n[0] == 'a');
    } else {
        let c = n.last() as u32;
        crate::text::lemma_char_range(n.last());
        assert(n =~= n.drop_last().push(n.last()));
        assert(c > 0 ==> ((((c - 1) as u32) as char) as u32) == c - 1 || (0xD800 <= c - 1 && c - 1 <= 0xDFFF));
        if c < 0x80 {
            if c > ('0' as u32) {
                lemma_last_step(n.drop_last(), ((c - 1) as u32) as char, n.last());
            } else if !lex_lt("Zz"@ + n, n) {
                lemma_lower_below(n);
            }
        } else if c % 64 != 0 {
            lemma_last_step(n.drop_last(), ((c - 1) as u32) as char, n.last());
        } else if !lex_lt("Zz"@, n) {
            lemma_lower_below(n);
        }
    }
}

fn increment(key: &[char]) -> (r: Vec<char>)
    ensures
        r@ == spec_increment(key@),
{
    let mut out: Vec<char> = Vec::new();
    let n = key.len();
    if n > 0 && (key[n - 1] as u32) < ('z' as u32) {
        let mut i: usize = 0;
        while i < n - 1
            invariant
                n == key@.len(),
                i <= n - 1,
                out@ == key@.subrange(0, i as int),
            decreases n - 1 - i,
        {
            out.push(key[i]);
            assert(key@.subrange(0, i + 1) == key@.subrange(0, i as int).push(key@[i as int]));
            i += 1;
        }
        let c = char_from_ascii((key[n - 1] as u32) + 1);
        out.push(c);
        assert(out@ =~= spec_increment(key@));
    } else {
        let mut i: usize = 0;
        while i < n
            invariant
                n == key@.len(),
                i <= n,
                out@ == key@.subrange(0, i as int),
            decreases n - i,
        {
            out.push(key[i]);
            assert(key@.subrange(0, i + 1) == key@.subrange(0, i as int).push(key@[i as int]));
            i += 1;
        }
        out.push('0');
        assert(out@ =~= spec_increment(key@));
    }
    out
}

fn copy_prefix(key: &[char], n: usize) -> (r: Vec<char>)
    requires
        n <= key@.len(),
    ensures
        r@ == key@.subrange(0, n as int),
{
    let mut out: Vec<char> = Vec::new();
    let mut i: usize = 0;
    while i < n
        invariant
            n <= key@.len(),
            i <= n,
            out@ == key@.subrange(0, i as int),
        decreases n - i,
    {
        out.push(key[i]);
        assert(key@.subrange(0, i + 1) == key@.subrange(0, i as int).push(key@[i as int]));
        i += 1;
    }
    out
}

fn lower(s: &[char]) -> (r: Vec<char>)
    requires
        s@.len() > 0,
    ensures
        r@ == spec_lower(s@),
{
    let n = s.len();
    if n >= 2 {
        let out = copy_prefix(s, n - 1);
        assert(s@.subrange(0, n - 1) =~= s@.drop_last());
        out
    } else {
        let c: u32 = s[0] as u32;
        if c >= 0x80 {
            to_chars("Zz")
        } else if c > 0 {
            let mut out: Vec<char> = Vec::new();
            out.push(char_from_ascii(c - 1));
            assert(out@ =~= spec_lower(s@));
            out
        } else {
            let out: Vec<char> = Vec::new();
            assert(out@ =~= spec_lower(s@));
            out
        }
    }
}

fn append(out: &mut Vec<char>, tail: &[char])
    ensures
        final(out)@ == old(out)@ + tail@,
{
    let ghost start = out@;
    let mut i: usize = 0;
    while i < tail.len()
        invariant
            i <= tail@.len(),
            out@ == start + tail@.subrange(0, i as int),
        decreases tail.len() - i,
    {
        out.push(tail[i]);
        assert(tail@.subrange(0, i + 1) == tail@.subrange(0, i as int).push(tail@[i as int]));
        i += 1;
    }
    assert(tail@.subrange(0, tail@.len() as int) =~= tail@);
}

fn before(next: &[char]) -> (r: Vec<char>)
    ensures
        r@ == spec_before(next@),
{
    let a0 = to_chars("a0");
    if next.len() == 0 || chars_eq(next, &a0) {
        return to_chars("Zz");
    }
    let n = next.len();
    let c: u32 = next[n - 1] as u32;
    if c < 0x80 {
        if c > ('0' as u32) {
            let mut out = copy_prefix(next, n - 1);
            out.push(char_from_ascii(c - 1));
            assert(next@.subrange(0, n - 1) =~= next@.drop_last());
            out
        } else {
            let mut out = to_chars("Zz");
            append(&mut out, next);
            if lex_order_chars(&out, next) == -1 {
                out
            } else {
                lower(next)
            }
        }
    } else if c % 64 != 0 {
        let mut out = copy_prefix(next, n - 1);
        let ch: char = next[n - 1];
        proof {
            crate::text::lemma_char_range(ch);
            assert(0 <= (ch as int) <= 0x10FFFF);
            assert(!(0xD800 <= (ch as int) <= 0xDFFF));
            assert((c as int) == (ch as int));
            assert(crate::text::is_scalar((c - 1) as u32));
        }
        out.push(char_from_u32(c - 1));
        assert(next@.subrange(0, n - 1) =~= next@.drop_last());
        out
    } else {
        let zz = to_chars("Zz");
        if lex_order_chars(&zz, next) == -1 {
            zz
        } else {
            lower(next)
        }
    }
}

fn between(prev: &[char], next: &[char]) -> (r: Vec<char>)
    ensures
        r@ == spec_between(prev@, next@),
{
    if lex_order_chars(prev, next) == -1 {
        let candidate = increment(prev);
        if lex_order_chars(&candidate, next) == -1 {
            return candidate;
        }
        let mut out = copy_prefix(prev, prev.len());
        out.push('0');
        assert(prev@.subrange(0, prev@.len() as int) =~= prev@);
        if lex_order_chars(&out, next) == -1 {
            return out;
        }
        proof {
            lemma_extends(prev@, next@);
        }
        let rest = slice_vec(next, prev.len(), next.len());
        assert(rest@ =~= next@.skip(prev@.len() as int));
        let low = lower(&rest);
        let mut key = copy_prefix(prev, prev.len());
        append(&mut key, &low);
        return key;
    }
    increment(prev)
}

/// Generate a key strictly between `prev` and `next` (`None` is ±infinity).
///
/// Keys sort with ordinary byte order. No key sorts below the empty key, and none lies
/// between `p` and `p` followed by `\0`; on those bounds the key misses the bound it
/// cannot meet.
pub fn generate_key_between(prev: Option<&str>, next: Option<&str>) -> (r: String)
    ensures
        match prev {
            Some(p) => (match next {
                Some(n) => n@ != p@.push('\0'),
                None => true,
            }) ==> lex_lt(p@, r@),
            None => true,
        },
        match next {
            Some(n) => (n@.len() > 0 && match prev {
                Some(p) => lex_lt(p@, n@) && n@ != p@.push('\0'),
                None => true,
            }) ==> lex_lt(r@, n@),
            None => true,
        },
        r@ == spec_key_between(
            match prev {
                Some(p) => Some(p@),
                None => None,
            },
            match next {
                Some(n) => Some(n@),
                None => None,
            },
        ),
{
    proof {
        lemma_key_between(
            match prev {
                Some(p) => Some(p@),
                None => None,
            },
            match next {
                Some(n) => Some(n@),
                None => None,
            },
        );
    }
    let v = match (prev, next) {
        (None, None) => to_chars("a0"),
        (Some(p), None) => increment(&to_chars(p)),
        (None, Some(n)) => before(&to_chars(n)),
        (Some(p), Some(n)) => between(&to_chars(p), &to_chars(n)),
    };
    from_chars(&v)
}

} // verus!
