//! JSON string quoting, done by `serde_json`.

use vstd::prelude::*;
use serde_json::{Map as SerdeMap, Value as SerdeValue};

verus! {

/// Lower-case hex digit for `d < 16`.
pub open spec fn hex_lower(d: int) -> char {
    if d < 10 {
        (('0' as int) + d) as char
    } else {
        (('a' as int) + d - 10) as char
    }
}

/// How `serde_json` writes one character inside a JSON string.
pub open spec fn json_escape_char(c: char) -> Seq<char> {
    if c == '"' {
        seq!['\\', '"']
    } else if c == '\\' {
        seq!['\\', '\\']
    } else if c == '\u{8}' {
        seq!['\\', 'b']
    } else if c == '\t' {
        seq!['\\', 't']
    } else if c == '\n' {
        seq!['\\', 'n']
    } else if c == '\u{c}' {
        seq!['\\', 'f']
    } else if c == '\r' {
        seq!['\\', 'r']
    } else if (c as int) < 0x20 {
        seq!['\\', 'u', '0', '0', hex_lower((c as int) / 16), hex_lower((c as int) % 16)]
    } else {
        seq![c]
    }
}

/// The escaped body of a JSON string.
pub open spec fn json_escaped(s: Seq<char>) -> Seq<char>
    decreases s.len(),
{
    if s.len() == 0 {
        Seq::empty()
    } else {
        json_escaped(s.drop_last()) + json_escape_char(s.last())
    }
}

/// A JSON string literal holding `s`.
pub open spec fn json_quoted(s: Seq<char>) -> Seq<char> {
    seq!['"'] + json_escaped(s) + seq!['"']
}

/// Text with nothing to escape is its own escaped body.
pub proof fn lemma_json_plain(s: Seq<char>)
    requires
        forall|i: int| 0 <= i < s.len() ==> (s[i] as int) >= 0x20 && s[i] != '"' && s[i] != '\\',
    ensures
        json_escaped(s) == s,
    decreases s.len(),
{
    if s.len() > 0 {
        lemma_json_plain(s.drop_last());
        assert(s.drop_last() + seq![s.last()] =~= s);
    }
}

/// `serde_json::to_string` of a string: the string as a JSON literal. Serializing a
/// `str` does not fail.
pub fn json_quote(s: &str) -> (r: Option<String>)
    ensures
        r is Some,
        r matches Some(q) ==> q@ == json_quoted(s@),
{
    json_to_string(s)
}

/// `serde_json::to_string` of a `str`, which fails only for a failing `Serialize` impl
/// or a map with non-string keys: never here.
#[verifier::external_body]
fn json_to_string(s: &str) -> (r: Option<String>)
    ensures
        r is Some,
        r matches Some(q) ==> q@ == json_quoted(s@),
{
    serde_json::to_string(s).ok()
}

} // verus!

verus! {

/// A JSON document as plain values. Numbers keep their text; object members keep their
/// order.
#[derive(Debug, PartialEq, Eq)]
pub enum JsonValue {
    /// `null`.
    Null,
    /// `true` / `false`.
    Bool(bool),
    /// A number, as written.
    Number(String),
    /// A string.
    Text(String),
    /// An array.
    Array(Vec<JsonValue>),
    /// An object: members in order.
    Object(Vec<(String, JsonValue)>),
}

/// The value of the first member named `key`, looking from index `k` on.
pub open spec fn member_from(m: Seq<(String, JsonValue)>, key: Seq<char>, k: int) -> Option<
    JsonValue,
>
    decreases m.len() - k,
{
    if k < 0 || k >= m.len() {
        None
    } else if m[k].0@ == key {
        Some(m[k].1)
    } else {
        member_from(m, key, k + 1)
    }
}

/// The index of the first member named `key`, looking from index `k` on.
pub open spec fn member_index(m: Seq<(String, JsonValue)>, key: Seq<char>, k: int) -> Option<int>
    decreases m.len() - k,
{
    if k < 0 || k >= m.len() {
        None
    } else if m[k].0@ == key {
        Some(k)
    } else {
        member_index(m, key, k + 1)
    }
}

/// `member_from` is the value at `member_index`.
pub proof fn lemma_member_index(m: Seq<(String, JsonValue)>, key: Seq<char>, k: int)
    ensures
        match member_index(m, key, k) {
            Some(i) => k <= i < m.len() && member_from(m, key, k) == Some(m[i].1),
            None => member_from(m, key, k) is None,
        },
    decreases m.len() - k,
{
    if !(k < 0 || k >= m.len()) && m[k].0@ != key {
        lemma_member_index(m, key, k + 1);
    }
}

/// The index of the member named `key`, if any.
pub fn json_member_index(m: &Vec<(String, JsonValue)>, key: &str) -> (r: Option<usize>)
    ensures
        match r {
            Some(i) => member_index(m@, key@, 0) == Some(i as int),
            None => member_index(m@, key@, 0) is None,
        },
{
    let mut k: usize = 0;
    while k < m.len()
        invariant
            k <= m@.len(),
            member_index(m@, key@, 0) == member_index(m@, key@, k as int),
        decreases m.len() - k,
    {
        if crate::text::str_eq(m[k].0.as_str(), key) {
            return Some(k);
        }
        k += 1;
    }
    None
}

/// Whether member `key` of object members `m` is the string `want`.
pub open spec fn member_is_text(m: Seq<(String, JsonValue)>, key: Seq<char>, want: Seq<char>) -> bool {
    match member_from(m, key, 0) {
        Some(JsonValue::Text(t)) => t@ == want,
        _ => false,
    }
}

/// Whether member `key` of `m` is the string `want`.
pub fn member_text_is(m: &Vec<(String, JsonValue)>, key: &str, want: &str) -> (r: bool)
    ensures
        r == member_is_text(m@, key@, want@),
{
    let mut k: usize = 0;
    while k < m.len()
        invariant
            k <= m@.len(),
            member_from(m@, key@, 0) == member_from(m@, key@, k as int),
        decreases m.len() - k,
    {
        if crate::text::str_eq(m[k].0.as_str(), key) {
            return match &m[k].1 {
                JsonValue::Text(t) => crate::text::str_eq(t.as_str(), want),
                _ => false,
            };
        }
        k += 1;
    }
    false
}

/// Whether `a` and `b` are the same document: same kinds, same texts, the same items and
/// members in the same order.
pub open spec fn json_same(a: JsonValue, b: JsonValue) -> bool
    decreases a,
{
    match a {
        JsonValue::Null => b is Null,
        JsonValue::Bool(x) => b matches JsonValue::Bool(y) && x == y,
        JsonValue::Number(x) => b matches JsonValue::Number(y) && x@ == y@,
        JsonValue::Text(x) => b matches JsonValue::Text(y) && x@ == y@,
        JsonValue::Array(xs) => b matches JsonValue::Array(ys) && xs.len() == ys.len() && forall|i: int|
            0 <= i < xs.len() ==> json_same(#[trigger] xs[i], ys[i]),
        JsonValue::Object(xs) => b matches JsonValue::Object(ys) && xs.len() == ys.len() && forall|i: int|
            0 <= i < xs.len() ==> (#[trigger] xs[i]).0@ == ys[i].0@ && json_same(xs[i].1, ys[i].1),
    }
}

/// A JSON document as a mathematical value: what it holds, with nothing of how it is
/// stored.
pub enum JView {
    /// `null`.
    Null,
    /// `true` / `false`.
    Bool(bool),
    /// A number, as written.
    Number(Seq<char>),
    /// A string.
    Text(Seq<char>),
    /// An array.
    Array(Seq<JView>),
    /// An object: members in order.
    Object(Seq<(Seq<char>, JView)>),
}

/// The mathematical value of a document.
pub open spec fn jview(v: JsonValue) -> JView
    decreases v,
{
    match v {
        JsonValue::Null => JView::Null,
        JsonValue::Bool(b) => JView::Bool(b),
        JsonValue::Number(n) => JView::Number(n@),
        JsonValue::Text(t) => JView::Text(t@),
        JsonValue::Array(xs) => JView::Array(
            Seq::new(
                xs@.len(),
                |i: int|
                    if 0 <= i < xs@.len() {
                        proof {
                            vstd::std_specs::vec::axiom_vec_index_decreases(xs, i);
                            assert(decreases_to!(v => v->Array_0));
                        }
                        jview(xs@[i])
                    } else {
                        JView::Null
                    },
            ),
        ),
        JsonValue::Object(xs) => JView::Object(
            Seq::new(
                xs@.len(),
                |i: int|
                    if 0 <= i < xs@.len() {
                        proof {
                            vstd::std_specs::vec::axiom_vec_index_decreases(xs, i);
                            assert(decreases_to!(v => v->Object_0));
                            assert(decreases_to!(xs@[i] => xs@[i].1));
                        }
                        (xs@[i].0@, jview(xs@[i].1))
                    } else {
                        (Seq::empty(), JView::Null)
                    },
            ),
        ),
    }
}

/// Two documents are the same exactly when their values are equal.
pub proof fn lemma_json_same_view(a: JsonValue, b: JsonValue)
    ensures
        json_same(a, b) <==> jview(a) == jview(b),
    decreases a,
{
    match (a, b) {
        (JsonValue::Array(xs), JsonValue::Array(ys)) => {
            assert forall|i: int| 0 <= i < xs.len() && i < ys.len() implies (json_same(#[trigger] xs[i], ys[i]) <==> jview(xs[i]) == jview(ys[i])) by {
                vstd::std_specs::vec::axiom_vec_index_decreases(xs, i);
                assert(decreases_to!(a => a->Array_0));
                lemma_json_same_view(xs[i], ys[i]);
            }
            assert(jview(a)->Array_0.len() == xs.len());
            assert(jview(b)->Array_0.len() == ys.len());
            if jview(a) == jview(b) {
                assert forall|i: int| 0 <= i < xs.len() implies json_same(#[trigger] xs[i], ys[i]) by {
                    assert(jview(a)->Array_0[i] == jview(xs[i]));
                    assert(jview(b)->Array_0[i] == jview(ys[i]));
                }
            }
            if json_same(a, b) {
                assert(jview(a)->Array_0 =~= jview(b)->Array_0);
            }
        },
        (JsonValue::Object(xs), JsonValue::Object(ys)) => {
            assert forall|i: int| 0 <= i < xs.len() && i < ys.len() implies (json_same(#[trigger] xs[i].1, ys[i].1) <==> jview(xs[i].1) == jview(ys[i].1)) by {
                vstd::std_specs::vec::axiom_vec_index_decreases(xs, i);
                assert(decreases_to!(a => a->Object_0));
                assert(decreases_to!(xs[i] => xs[i].1));
                lemma_json_same_view(xs[i].1, ys[i].1);
            }
            assert(jview(a)->Object_0.len() == xs.len());
            assert(jview(b)->Object_0.len() == ys.len());
            if jview(a) == jview(b) {
                assert forall|i: int| 0 <= i < xs.len() implies (#[trigger] xs[i]).0@ == ys[i].0@ && json_same(xs[i].1, ys[i].1) by {
                    assert(jview(a)->Object_0[i] == (xs[i].0@, jview(xs[i].1)));
                    assert(jview(b)->Object_0[i] == (ys[i].0@, jview(ys[i].1)));
                }
            }
            if json_same(a, b) {
                assert(jview(a)->Object_0 =~= jview(b)->Object_0);
            }
        },
        _ => {},
    }
}


/// An object's value is the names and values of its members.
pub proof fn lemma_object_view(m: Vec<(String, JsonValue)>, expected: Seq<(Seq<char>, JView)>)
    requires
        m@.len() == expected.len(),
        forall|i: int| 0 <= i < expected.len() ==> (#[trigger] m@[i]).0@ == expected[i].0 && jview(m@[i].1) == expected[i].1,
    ensures
        jview(JsonValue::Object(m)) == JView::Object(expected),
{
    assert(jview(JsonValue::Object(m))->Object_0 =~= expected);
}

/// An array's value is the values of its items.
pub proof fn lemma_array_view(a: Vec<JsonValue>, expected: Seq<JView>)
    requires
        a@.len() == expected.len(),
        forall|i: int| 0 <= i < expected.len() ==> jview(#[trigger] a@[i]) == expected[i],
    ensures
        jview(JsonValue::Array(a)) == JView::Array(expected),
{
    assert(jview(JsonValue::Array(a))->Array_0 =~= expected);
}

/// Every document is the same as itself.
pub proof fn lemma_json_same_refl(a: JsonValue)
    ensures
        json_same(a, a),
    decreases a,
{
    match a {
        JsonValue::Array(xs) => {
            assert forall|i: int| 0 <= i < xs.len() implies json_same(#[trigger] xs[i], xs[i]) by {
                vstd::std_specs::vec::axiom_vec_index_decreases(xs, i);
                assert(decreases_to!(a => a->Array_0));
                lemma_json_same_refl(xs[i]);
            }
        },
        JsonValue::Object(xs) => {
            assert forall|i: int| 0 <= i < xs.len() implies (#[trigger] xs[i]).0@ == xs[i].0@ && json_same(
                xs[i].1,
                xs[i].1,
            ) by {
                vstd::std_specs::vec::axiom_vec_index_decreases(xs, i);
                assert(decreases_to!(a => a->Object_0));
                assert(decreases_to!(xs[i] => xs[i].1));
                lemma_json_same_refl(xs[i].1);
            }
        },
        _ => {},
    }
}

/// Being the same document chains.
pub proof fn lemma_json_same_trans(a: JsonValue, b: JsonValue, c: JsonValue)
    requires
        json_same(a, b),
        json_same(b, c),
    ensures
        json_same(a, c),
    decreases a,
{
    match a {
        JsonValue::Array(xs) => {
            let ys = b->Array_0;
            let zs = c->Array_0;
            assert forall|i: int| 0 <= i < xs.len() implies json_same(#[trigger] xs[i], zs[i]) by {
                vstd::std_specs::vec::axiom_vec_index_decreases(xs, i);
                assert(decreases_to!(a => a->Array_0));
                assert(json_same(xs[i], ys[i]));
                assert(json_same(ys[i], zs[i]));
                lemma_json_same_trans(xs[i], ys[i], zs[i]);
            }
        },
        JsonValue::Object(xs) => {
            let ys = b->Object_0;
            let zs = c->Object_0;
            assert forall|i: int| 0 <= i < xs.len() implies (#[trigger] xs[i]).0@ == zs[i].0@ && json_same(
                xs[i].1,
                zs[i].1,
            ) by {
                vstd::std_specs::vec::axiom_vec_index_decreases(xs, i);
                assert(decreases_to!(a => a->Object_0));
                assert(decreases_to!(xs[i] => xs[i].1));
                assert(xs[i].0@ == ys[i].0@ && json_same(xs[i].1, ys[i].1));
                assert(ys[i].0@ == zs[i].0@ && json_same(ys[i].1, zs[i].1));
                lemma_json_same_trans(xs[i].1, ys[i].1, zs[i].1);
            }
        },
        _ => {},
    }
}

/// A copy of `v`.
pub fn copy_json(v: &JsonValue) -> (r: JsonValue)
    ensures
        json_same(*v, r),
    decreases v,
{
    match v {
        JsonValue::Null => JsonValue::Null,
        JsonValue::Bool(b) => JsonValue::Bool(*b),
        JsonValue::Number(n) => JsonValue::Number(n.clone()),
        JsonValue::Text(t) => JsonValue::Text(t.clone()),
        JsonValue::Array(xs) => {
            let mut out: Vec<JsonValue> = Vec::new();
            let mut k: usize = 0;
            while k < xs.len()
                invariant
                    *v == JsonValue::Array(*xs),
                    k <= xs@.len(),
                    out@.len() == k,
                    forall|i: int| 0 <= i < k ==> json_same(#[trigger] xs@[i], out@[i]),
                decreases xs.len() - k,
            {
                proof {
                    vstd::std_specs::vec::axiom_vec_index_decreases(*xs, k as int);
                    assert(decreases_to!(*v => (*v)->Array_0));
                }
                let c = copy_json(&xs[k]);
                out.push(c);
                k += 1;
            }
            JsonValue::Array(out)
        },
        JsonValue::Object(xs) => {
            let mut out: Vec<(String, JsonValue)> = Vec::new();
            let mut k: usize = 0;
            while k < xs.len()
                invariant
                    *v == JsonValue::Object(*xs),
                    k <= xs@.len(),
                    out@.len() == k,
                    forall|i: int|
                        0 <= i < k ==> (#[trigger] xs@[i]).0@ == out@[i].0@ && json_same(
                            xs@[i].1,
                            out@[i].1,
                        ),
                decreases xs.len() - k,
            {
                proof {
                    vstd::std_specs::vec::axiom_vec_index_decreases(*xs, k as int);
                    assert(decreases_to!(*v => (*v)->Object_0));
                    assert(decreases_to!(xs[k as int] => xs[k as int].1));
                }
                let c = copy_json(&xs[k].1);
                out.push((xs[k].0.clone(), c));
                k += 1;
            }
            JsonValue::Object(out)
        },
    }
}

/// Whether `a` and `b` are the same document (see `json_same`).
pub fn json_equal(a: &JsonValue, b: &JsonValue) -> (r: bool)
    ensures
        r == json_same(*a, *b),
    decreases a,
{
    match (a, b) {
        (JsonValue::Null, JsonValue::Null) => true,
        (JsonValue::Bool(x), JsonValue::Bool(y)) => *x == *y,
        (JsonValue::Number(x), JsonValue::Number(y)) => crate::text::str_eq(x.as_str(), y.as_str()),
        (JsonValue::Text(x), JsonValue::Text(y)) => crate::text::str_eq(x.as_str(), y.as_str()),
        (JsonValue::Array(xs), JsonValue::Array(ys)) => {
            if xs.len() != ys.len() {
                return false;
            }
            let mut k: usize = 0;
            while k < xs.len()
                invariant
                    *a == JsonValue::Array(*xs),
                    *b == JsonValue::Array(*ys),
                    xs@.len() == ys@.len(),
                    k <= xs@.len(),
                    forall|i: int| 0 <= i < k ==> json_same(#[trigger] xs@[i], ys@[i]),
                decreases xs.len() - k,
            {
                proof {
                    vstd::std_specs::vec::axiom_vec_index_decreases(*xs, k as int);
                    assert(decreases_to!(*a => (*a)->Array_0));
                }
                if !json_equal(&xs[k], &ys[k]) {
                    assert(!json_same(xs@[k as int], ys@[k as int]));
                    return false;
                }
                k += 1;
            }
            true
        },
        (JsonValue::Object(xs), JsonValue::Object(ys)) => {
            if xs.len() != ys.len() {
                return false;
            }
            let mut k: usize = 0;
            while k < xs.len()
                invariant
                    *a == JsonValue::Object(*xs),
                    *b == JsonValue::Object(*ys),
                    xs@.len() == ys@.len(),
                    k <= xs@.len(),
                    forall|i: int|
                        0 <= i < k ==> (#[trigger] xs@[i]).0@ == ys@[i].0@ && json_same(xs@[i].1, ys@[i].1),
                decreases xs.len() - k,
            {
                proof {
                    vstd::std_specs::vec::axiom_vec_index_decreases(*xs, k as int);
                    assert(decreases_to!(*a => (*a)->Object_0));
                    assert(decreases_to!(xs[k as int] => xs[k as int].1));
                }
                if !crate::text::str_eq(xs[k].0.as_str(), ys[k].0.as_str()) || !json_equal(&xs[k].1, &ys[k].1) {
                    assert(!((xs@[k as int]).0@ == ys@[k as int].0@ && json_same(xs@[k as int].1, ys@[k as int].1)));
                    return false;
                }
                k += 1;
            }
            true
        },
        _ => false,
    }
}

/// The member named `key`, if any.
pub fn json_member<'a>(m: &'a Vec<(String, JsonValue)>, key: &str) -> (r: Option<&'a JsonValue>)
    ensures
        match r {
            Some(v) => member_from(m@, key@, 0) == Some(*v),
            None => member_from(m@, key@, 0) is None,
        },
{
    let mut k: usize = 0;
    while k < m.len()
        invariant
            k <= m@.len(),
            member_from(m@, key@, 0) == member_from(m@, key@, k as int),
        decreases m.len() - k,
    {
        if crate::text::str_eq(m[k].0.as_str(), key) {
            return Some(&m[k].1);
        }
        k += 1;
    }
    None
}

/// Whether `serde_json::Number::from_str` reads `t` as a number.
pub uninterp spec fn number_parses(t: Seq<char>) -> bool;

/// How far `numbers_ok` still has to look into `v`.
pub open spec fn json_width(v: JsonValue) -> int {
    match v {
        JsonValue::Array(xs) => xs@.len() as int + 1,
        JsonValue::Object(ms) => ms@.len() as int + 1,
        _ => 0,
    }
}

/// Every number in `v` is text serde_json reads as a number.
pub open spec fn numbers_ok(v: JsonValue) -> bool
    decreases v, json_width(v),
{
    match v {
        JsonValue::Number(t) => number_parses(t@),
        JsonValue::Array(_) => numbers_ok_from(v, 0),
        JsonValue::Object(_) => numbers_ok_from(v, 0),
        _ => true,
    }
}

/// Every number in the items (or member values) of `parent` from `k` on is text
/// serde_json reads as a number.
pub open spec fn numbers_ok_from(parent: JsonValue, k: int) -> bool
    decreases parent, (match parent {
        JsonValue::Array(xs) => xs@.len() - k,
        JsonValue::Object(ms) => ms@.len() - k,
        _ => 0,
    }),
{
    match parent {
        JsonValue::Array(xs) => if k < 0 || k >= xs@.len() {
            true
        } else {
            proof {
                vstd::std_specs::vec::axiom_vec_index_decreases(xs, k);
                assert(decreases_to!(parent => parent->Array_0));
            }
            numbers_ok(xs@[k]) && numbers_ok_from(parent, k + 1)
        },
        JsonValue::Object(ms) => if k < 0 || k >= ms@.len() {
            true
        } else {
            proof {
                vstd::std_specs::vec::axiom_vec_index_decreases(ms, k);
                assert(decreases_to!(parent => parent->Object_0));
                assert(decreases_to!(ms@[k] => ms@[k].1));
            }
            numbers_ok(ms@[k].1) && numbers_ok_from(parent, k + 1)
        },
        _ => true,
    }
}

/// The numbers of an object's member values are text serde_json reads when the object's
/// are.
pub proof fn lemma_member_numbers_ok(v: JsonValue, k: int, j: int)
    requires
        v is Object,
        numbers_ok_from(v, k),
        0 <= k <= j < v->Object_0@.len(),
    ensures
        numbers_ok(v->Object_0@[j].1),
    decreases j - k,
{
    if k < j {
        lemma_member_numbers_ok(v, k + 1, j);
    }
}

/// What `serde_json::from_str::<Value>` makes of `text`: the document as a `JsonValue`, or
/// the text of the parse error.
pub uninterp spec fn json_parse(text: Seq<char>) -> Result<JsonValue, Seq<char>>;

/// `serde_json::from_str::<serde_json::Value>(text)`, converted member for member; the
/// error's `to_string()` when the text is not JSON. Each number's text is the crate's own
/// `Display` of a finite number, which its `Number::from_str` reads back.
#[verifier::external_body]
pub fn parse_json(text: &str) -> (r: Result<JsonValue, String>)
    ensures
        match r {
            Ok(v) => json_parse(text@) == Ok::<JsonValue, Seq<char>>(v) && numbers_ok(v),
            Err(m) => json_parse(text@) == Err::<JsonValue, Seq<char>>(m@),
        },
{
    match serde_json::from_str::<serde_json::Value>(text) {
        Ok(v) => Ok(from_serde_value(&v)),
        Err(e) => Err(e.to_string()),
    }
}

/// What `serde_json::to_string` writes for `v` (compact form).
pub uninterp spec fn json_text(v: JsonValue) -> Seq<char>;

/// Whether `serde_json::Number::from_str` reads `t`.
#[verifier::external_body]
fn number_text_ok(t: &str) -> (r: bool)
    ensures
        r == number_parses(t@),
{
    t.parse::<serde_json::Number>().is_ok()
}

/// Whether every number in `v` is text serde_json reads as a number.
pub fn numbers_valid(v: &JsonValue) -> (r: bool)
    ensures
        r == numbers_ok(*v),
    decreases v,
{
    match v {
        JsonValue::Number(t) => number_text_ok(t.as_str()),
        JsonValue::Array(xs) => {
            let mut i: usize = 0;
            while i < xs.len()
                invariant
                    i <= xs@.len(),
                    *v == JsonValue::Array(*xs),
                    numbers_ok(*v) == numbers_ok_from(*v, i as int),
                decreases xs.len() - i,
            {
                proof {
                    vstd::std_specs::vec::axiom_vec_index_decreases(*xs, i as int);
                }
                if !numbers_valid(&xs[i]) {
                    return false;
                }
                i += 1;
            }
            true
        },
        JsonValue::Object(ms) => {
            let mut i: usize = 0;
            while i < ms.len()
                invariant
                    i <= ms@.len(),
                    *v == JsonValue::Object(*ms),
                    numbers_ok(*v) == numbers_ok_from(*v, i as int),
                decreases ms.len() - i,
            {
                proof {
                    vstd::std_specs::vec::axiom_vec_index_decreases(*ms, i as int);
                    assert(decreases_to!(ms@[i as int] => ms@[i as int].1));
                }
                if !numbers_valid(&ms[i].1) {
                    return false;
                }
                i += 1;
            }
            true
        },
        _ => true,
    }
}

/// `serde_json::to_string` of `v`, converted member for member to a `serde_json::Value`
/// first. With every number's text one `Number::from_str` reads, the conversion does not
/// fail, and writing a `Value` does not fail either (its map keys are strings).
#[verifier::external_body]
fn write_checked(v: &JsonValue) -> (r: String)
    requires
        numbers_ok(*v),
    ensures
        r@ == json_text(*v),
{
    match to_serde_value(v).map(|x| serde_json::to_string(&x)) {
        Some(Ok(t)) => t,
        _ => String::new(),
    }
}

/// `v` as compact JSON text, or `None` when one of its numbers is not a JSON number.
pub fn write_json(v: &JsonValue) -> (r: Option<String>)
    ensures
        r is Some <==> numbers_ok(*v),
        r matches Some(t) ==> t@ == json_text(*v),
{
    if numbers_valid(v) {
        Some(write_checked(v))
    } else {
        None
    }
}

/// One-for-one conversion to a `serde_json::Value`; `None` when a number's text does not
/// parse as a `serde_json::Number`.
#[verifier::external_body]
fn to_serde_value(v: &JsonValue) -> Option<SerdeValue> {
    match v {
        JsonValue::Null => Some(SerdeValue::Null),
        JsonValue::Bool(b) => Some(SerdeValue::Bool(*b)),
        JsonValue::Number(n) => n.parse::<serde_json::Number>().ok().map(SerdeValue::Number),
        JsonValue::Text(s) => Some(SerdeValue::String(s.clone())),
        JsonValue::Array(a) => a.iter().map(to_serde_value).collect::<Option<Vec<_>>>().map(SerdeValue::Array),
        JsonValue::Object(o) => o
            .iter()
            .map(|(k, x)| to_serde_value(x).map(|y| (k.clone(), y)))
            .collect::<Option<SerdeMap<String, SerdeValue>>>()
            .map(SerdeValue::Object),
    }
}

#[verifier::external_type_specification]
#[verifier::external_body]
pub struct ExSerdeValue(serde_json::Value);

/// One-for-one conversion of a `serde_json::Value`; numbers keep their text.
#[verifier::external_body]
fn from_serde_value(v: &serde_json::Value) -> JsonValue {
    match v {
        serde_json::Value::Null => JsonValue::Null,
        serde_json::Value::Bool(b) => JsonValue::Bool(*b),
        serde_json::Value::Number(n) => JsonValue::Number(n.to_string()),
        serde_json::Value::String(s) => JsonValue::Text(s.clone()),
        serde_json::Value::Array(a) => JsonValue::Array(a.iter().map(from_serde_value).collect()),
        serde_json::Value::Object(o) => JsonValue::Object(
            o.iter().map(|(k, x)| (k.clone(), from_serde_value(x))).collect(),
        ),
    }
}

} // verus!
