//! What the command line computes around its requests to the daemon: query encoding, the
//! lines it prints from the daemon's JSON answers, request bodies and paths, and the
//! `--value KEY=VALUE` and catalog-query arguments.

pub mod request;
pub mod launch;
pub mod login;
pub mod browse;
pub mod mcp;

use vstd::prelude::*;
use crate::json::{JsonValue, json_member, parse_json, json_parse, write_json, json_text};
use crate::text::{copy_str, push_str, str_eq, to_chars, from_chars, find_char, find_char_from, split_once, lex_lt, lex_order_str, lemma_lex_order_basic, lemma_lex_order_trans, spec_trim, trim, starts_with_chars, spec_has_at};
use crate::catalog::call::{json_get, url_encoded, urlencoding_lite};
use crate::cli::request::is_wildcard;
use crate::catalog::yaml::{text_member, text_member_exec, opt_ref};

verus! {

/// Percent-encodes a query value (its UTF-8 bytes; unreserved ones stay).
pub fn urlencoding_query(value: &str) -> (r: String)
    ensures
        r@ == url_encoded(vstd::utf8::encode_utf8(value@)),
{
    urlencoding_lite(value)
}

/// The string member `key` of `v`, or empty.
pub open spec fn text_or_empty(v: JsonValue, key: Seq<char>) -> Seq<char> {
    match text_member(v, key) {
        Some(s) => s,
        None => Seq::empty(),
    }
}

fn text_at(v: &JsonValue, key: &str) -> (r: String)
    ensures
        r@ == text_or_empty(*v, key@),
{
    match v {
        JsonValue::Object(m) => match json_member(m, key) {
            Some(JsonValue::Text(s)) => copy_str(s.as_str()),
            _ => String::new(),
        },
        _ => String::new(),
    }
}

/// The list member `key` of `body` (empty when missing or not a list).
pub open spec fn list_member(body: JsonValue, key: Seq<char>) -> Seq<JsonValue> {
    match json_get(body, key) {
        Some(JsonValue::Array(items)) => items@,
        _ => Seq::empty(),
    }
}

fn list_at<'a>(body: &'a JsonValue, key: &str) -> (r: Option<&'a Vec<JsonValue>>)
    ensures
        match r {
            Some(items) => items@ == list_member(*body, key@) && json_get(*body, key@) == Some(
                JsonValue::Array(*items),
            ),
            None => list_member(*body, key@).len() == 0 && !(json_get(*body, key@) matches Some(
                JsonValue::Array(_),
            )),
        },
{
    match body {
        JsonValue::Object(m) => match json_member(m, key) {
            Some(JsonValue::Array(items)) => Some(items),
            _ => None,
        },
        _ => None,
    }
}

/// One tool row: path and description, tab-separated.
pub open spec fn tool_line(t: JsonValue) -> Seq<char> {
    text_or_empty(t, "path"@) + "\t"@ + text_or_empty(t, "description"@)
}

/// One integration row: slug, kind and name.
pub open spec fn integration_line(i: JsonValue) -> Seq<char> {
    text_or_empty(i, "slug"@) + "\t"@ + text_or_empty(i, "kind"@) + "\t"@ + text_or_empty(i, "name"@)
}

/// One connection row: `owner/integration/name` and the template.
pub open spec fn connection_line(c: JsonValue) -> Seq<char> {
    text_or_empty(c, "owner"@) + "/"@ + text_or_empty(c, "integration"@) + "/"@ + text_or_empty(c, "name"@)
        + "\t"@ + text_or_empty(c, "template"@)
}

/// Which row layout a listing uses.
pub enum RowKind {
    /// `path\tdescription`.
    Tool,
    /// `slug\tkind\tname`.
    Integration,
    /// `owner/integration/name\ttemplate`.
    Connection,
}

/// The row of item `x` in layout `kind`.
pub open spec fn row_line(kind: RowKind, x: JsonValue) -> Seq<char> {
    match kind {
        RowKind::Tool => tool_line(x),
        RowKind::Integration => integration_line(x),
        RowKind::Connection => connection_line(x),
    }
}

/// The texts of a list of strings.
pub open spec fn line_texts(v: Seq<String>) -> Seq<Seq<char>> {
    v.map_values(|s: String| s@)
}

fn row_exec(kind: &RowKind, x: &JsonValue) -> (r: String)
    ensures
        r@ == row_line(*kind, *x),
{
    match kind {
        RowKind::Tool => {
            let mut s = text_at(x, "path");
            push_str(&mut s, "\t");
            let d = text_at(x, "description");
            push_str(&mut s, d.as_str());
            s
        },
        RowKind::Integration => {
            let mut s = text_at(x, "slug");
            push_str(&mut s, "\t");
            let k = text_at(x, "kind");
            push_str(&mut s, k.as_str());
            push_str(&mut s, "\t");
            let n = text_at(x, "name");
            push_str(&mut s, n.as_str());
            s
        },
        RowKind::Connection => {
            let mut s = text_at(x, "owner");
            push_str(&mut s, "/");
            let i = text_at(x, "integration");
            push_str(&mut s, i.as_str());
            push_str(&mut s, "/");
            let n = text_at(x, "name");
            push_str(&mut s, n.as_str());
            push_str(&mut s, "\t");
            let t = text_at(x, "template");
            push_str(&mut s, t.as_str());
            s
        },
    }
}

/// The rows of the list member `key` of `body` in layout `kind`, in order.
pub fn rows(body: &JsonValue, key: &str, kind: RowKind) -> (r: Vec<String>)
    ensures
        r@.len() == list_member(*body, key@).len(),
        line_texts(r@) == list_member(*body, key@).map_values(|x: JsonValue| row_line(kind, x)),
{
    let mut out: Vec<String> = Vec::new();
    let items = match list_at(body, key) {
        Some(items) => items,
        None => {
            assert(line_texts(out@) =~= list_member(*body, key@).map_values(|x: JsonValue| row_line(kind, x)));
            return out;
        },
    };
    let mut k: usize = 0;
    while k < items.len()
        invariant
            k <= items@.len(),
            items@ == list_member(*body, key@),
            out@.len() == k,
            line_texts(out@) == items@.take(k as int).map_values(|x: JsonValue| row_line(kind, x)),
        decreases items.len() - k,
    {
        let row = row_exec(&kind, &items[k]);
        let ghost before = out@;
        out.push(row);
        proof {
            assert(line_texts(out@) =~= line_texts(before).push(row_line(kind, items@[k as int])));
            assert(items@.take(k + 1).map_values(|x: JsonValue| row_line(kind, x)) =~= items@.take(
                k as int,
            ).map_values(|x: JsonValue| row_line(kind, x)).push(row_line(kind, items@[k as int])));
        }
        k += 1;
    }
    assert(items@.take(items@.len() as int) =~= items@);
    out
}

/// The lines `executor tools list` prints.
pub fn tool_list_lines(body: &JsonValue) -> (r: Vec<String>)
    ensures
        line_texts(r@) == list_member(*body, "tools"@).map_values(|x: JsonValue| tool_line(x)),
{
    rows(body, "tools", RowKind::Tool)
}

/// The lines `executor tools search` prints: the tool rows, or a note when there are none.
pub fn tool_search_lines(body: &JsonValue) -> (r: Vec<String>)
    ensures
        list_member(*body, "tools"@).len() == 0 ==> line_texts(r@) == seq!["(no matching tools)"@],
        list_member(*body, "tools"@).len() > 0 ==> line_texts(r@) == list_member(*body, "tools"@).map_values(
            |x: JsonValue| tool_line(x),
        ),
{
    let r = rows(body, "tools", RowKind::Tool);
    if r.len() == 0 {
        let mut v: Vec<String> = Vec::new();
        v.push(copy_str("(no matching tools)"));
        assert(line_texts(v@) =~= seq!["(no matching tools)"@]);
        v
    } else {
        r
    }
}

/// The lines `executor tools integrations` prints: one row each, or a note when none.
pub fn integration_lines(body: &JsonValue) -> (r: Vec<String>)
    ensures
        list_member(*body, "integrations"@).len() == 0 ==> line_texts(r@) == seq!["(no integrations)"@],
        list_member(*body, "integrations"@).len() > 0 ==> line_texts(r@) == list_member(
            *body,
            "integrations"@,
        ).map_values(|x: JsonValue| integration_line(x)),
{
    let r = rows(body, "integrations", RowKind::Integration);
    if r.len() == 0 {
        let mut v: Vec<String> = Vec::new();
        v.push(copy_str("(no integrations)"));
        assert(line_texts(v@) =~= seq!["(no integrations)"@]);
        v
    } else {
        r
    }
}

/// The lines `executor connections list` prints: one row each, or a note when none.
pub fn connection_lines(body: &JsonValue) -> (r: Vec<String>)
    ensures
        list_member(*body, "connections"@).len() == 0 ==> line_texts(r@) == seq!["(nenhuma conexão)"@],
        list_member(*body, "connections"@).len() > 0 ==> line_texts(r@) == list_member(
            *body,
            "connections"@,
        ).map_values(|x: JsonValue| connection_line(x)),
{
    let r = rows(body, "connections", RowKind::Connection);
    if r.len() == 0 {
        let mut v: Vec<String> = Vec::new();
        v.push(copy_str("(nenhuma conexão)"));
        assert(line_texts(v@) =~= seq!["(nenhuma conexão)"@]);
        v
    } else {
        r
    }
}

// ---------------------------------------------------------------- catalog providers

/// `s` with `x` inserted in order, unless it is already there.
pub open spec fn insert_sorted_unique(s: Seq<Seq<char>>, x: Seq<char>) -> Seq<Seq<char>>
    decreases s.len(),
{
    if s.len() == 0 {
        seq![x]
    } else if s[0] == x {
        s
    } else if lex_lt(x, s[0]) {
        seq![x] + s
    } else {
        seq![s[0]] + insert_sorted_unique(s.drop_first(), x)
    }
}

/// The distinct strings of `v`, sorted (what sorting and removing duplicates gives).
pub open spec fn sorted_unique(v: Seq<Seq<char>>) -> Seq<Seq<char>>
    decreases v.len(),
{
    if v.len() == 0 {
        Seq::empty()
    } else {
        insert_sorted_unique(sorted_unique(v.drop_last()), v.last())
    }
}

/// The provider of a catalog hit (`/endpoint/provider`), when it is a string.
pub open spec fn hit_provider(h: JsonValue) -> Option<Seq<char>> {
    match json_get(h, "endpoint"@) {
        Some(e) => text_member(e, "provider"@),
        None => None,
    }
}

/// The providers of the hits, in order.
pub open spec fn hit_providers(items: Seq<JsonValue>) -> Seq<Seq<char>>
    decreases items.len(),
{
    if items.len() == 0 {
        Seq::empty()
    } else {
        let rest = hit_providers(items.drop_last());
        match hit_provider(items.last()) {
            Some(p) => rest.push(p),
            None => rest,
        }
    }
}

fn hit_provider_exec(h: &JsonValue) -> (r: Option<&String>)
    ensures
        opt_ref(r) == hit_provider(*h),
{
    match h {
        JsonValue::Object(m) => match json_member(m, "endpoint") {
            Some(e) => text_member_exec(e, "provider"),
            None => None,
        },
        _ => None,
    }
}

/// Inserting skips the leading strings that are neither `x` nor after it.
proof fn lemma_insert_unique_at(s: Seq<Seq<char>>, x: Seq<char>, j: int)
    requires
        0 <= j <= s.len(),
        forall|i: int| 0 <= i < j ==> s[i] != x && !lex_lt(x, #[trigger] s[i]),
    ensures
        insert_sorted_unique(s, x) == s.take(j) + insert_sorted_unique(s.skip(j), x),
        j < s.len() && s[j] == x ==> insert_sorted_unique(s.skip(j), x) == s.skip(j),
        j < s.len() && s[j] != x && lex_lt(x, s[j]) ==> insert_sorted_unique(s.skip(j), x) == seq![x] + s.skip(j),
        j == s.len() ==> insert_sorted_unique(s.skip(j), x) == seq![x],
    decreases j,
{
    if j > 0 {
        lemma_insert_unique_at(s.drop_first(), x, j - 1);
        assert(s.drop_first().skip(j - 1) =~= s.skip(j));
        assert(s.take(j) =~= seq![s[0]] + s.drop_first().take(j - 1));
    } else {
        assert(s.skip(0) =~= s);
        assert(s.take(0) =~= Seq::<Seq<char>>::empty());
    }
    if j == s.len() {
        assert(s.skip(j) =~= Seq::<Seq<char>>::empty());
    }
}

fn insert_unique_exec(out: &mut Vec<String>, x: &str)
    ensures
        line_texts(final(out)@) == insert_sorted_unique(line_texts(old(out)@), x@),
{
    let ghost before = line_texts(out@);
    let mut j: usize = 0;
    while j < out.len()
        invariant
            j <= out@.len(),
            out@ == old(out)@,
            before == line_texts(out@),
            forall|i: int| 0 <= i < j ==> before[i] != x@ && !lex_lt(x@, #[trigger] before[i]),
        ensures
            j <= out@.len(),
            out@ == old(out)@,
            before == line_texts(out@),
            forall|i: int| 0 <= i < j ==> before[i] != x@ && !lex_lt(x@, #[trigger] before[i]),
            j < out@.len() ==> before[j as int] == x@ || lex_lt(x@, before[j as int]),
        decreases out.len() - j,
    {
        if str_eq(out[j].as_str(), x) || lex_order_str(x, out[j].as_str()) == -1 {
            break;
        }
        j += 1;
    }
    proof {
        lemma_insert_unique_at(before, x@, j as int);
    }
    if j < out.len() && str_eq(out[j].as_str(), x) {
        proof {
            assert(before =~= before.take(j as int) + before.skip(j as int));
        }
    } else {
        out.insert(j, copy_str(x));
        proof {
            assert(line_texts(out@) =~= before.take(j as int) + insert_sorted_unique(before.skip(j as int), x@));
        }
    }
}

/// The lines `executor catalog` prints: the distinct providers of the hits, sorted, or a
/// note when there are none.
pub fn catalog_provider_lines(body: &JsonValue) -> (r: Vec<String>)
    ensures
        sorted_unique(hit_providers(list_member(*body, "items"@))).len() == 0 ==> line_texts(r@) == seq![
            "(nenhum provedor no catálogo)"@,
        ],
        sorted_unique(hit_providers(list_member(*body, "items"@))).len() > 0 ==> line_texts(r@)
            == sorted_unique(hit_providers(list_member(*body, "items"@))),
{
    let mut out: Vec<String> = Vec::new();
    let ghost all = list_member(*body, "items"@);
    if let Some(items) = list_at(body, "items") {
        let mut k: usize = 0;
        assert(items@.take(0) =~= Seq::<JsonValue>::empty());
        while k < items.len()
            invariant
                k <= items@.len(),
                items@ == all,
                line_texts(out@) == sorted_unique(hit_providers(items@.take(k as int))),
            decreases items.len() - k,
        {
            proof {
                assert(items@.take(k + 1).drop_last() =~= items@.take(k as int));
                assert(items@.take(k + 1).last() == items@[k as int]);
            }
            let provider = hit_provider_exec(&items[k]);
            let ghost prev = hit_providers(items@.take(k as int));
            if let Some(p) = provider {
                insert_unique_exec(&mut out, p.as_str());
                proof {
                    assert(hit_providers(items@.take(k + 1)) == prev.push(p@));
                    assert(prev.push(p@).drop_last() =~= prev);
                }
            } else {
                assert(hit_providers(items@.take(k + 1)) == prev);
            }
            k += 1;
        }
        assert(items@.take(items@.len() as int) =~= items@);
    } else {
        assert(hit_providers(all) =~= Seq::<Seq<char>>::empty());
    }
    if out.len() == 0 {
        out.push(copy_str("(nenhum provedor no catálogo)"));
        assert(line_texts(out@) =~= seq!["(nenhum provedor no catálogo)"@]);
    }
    out
}

/// The distinct strings of `items`, sorted.
pub fn sorted_distinct(items: &Vec<String>) -> (r: Vec<String>)
    ensures
        line_texts(r@) == sorted_unique(line_texts(items@)),
{
    let mut out: Vec<String> = Vec::new();
    let mut k: usize = 0;
    assert(line_texts(items@).take(0) =~= Seq::<Seq<char>>::empty());
    assert(line_texts(out@) =~= Seq::<Seq<char>>::empty());
    while k < items.len()
        invariant
            k <= items@.len(),
            line_texts(out@) == sorted_unique(line_texts(items@).take(k as int)),
        decreases items.len() - k,
    {
        proof {
            assert(line_texts(items@).take(k + 1).drop_last() =~= line_texts(items@).take(k as int));
        }
        insert_unique_exec(&mut out, items[k].as_str());
        k += 1;
    }
    assert(line_texts(items@).take(items@.len() as int) =~= line_texts(items@));
    out
}

/// The hosts a daemon answers cross-origin requests from: the defaults, its own hostname,
/// the extra ones and, on a wildcard bind, `*`; sorted, each once.
pub open spec fn spec_allowed_hosts(defaults: Seq<Seq<char>>, hostname: Seq<char>, extra: Seq<Seq<char>>) -> Seq<
    Seq<char>,
> {
    sorted_unique(defaults + seq![hostname] + extra + (if is_wildcard(hostname) {
        seq!["*"@]
    } else {
        Seq::empty()
    }))
}

/// The allowed hosts of a daemon bound to `hostname`.
pub fn allowed_hosts(defaults: &Vec<String>, hostname: &str, extra: &Vec<String>) -> (r: Vec<String>)
    ensures
        line_texts(r@) == spec_allowed_hosts(line_texts(defaults@), hostname@, line_texts(extra@)),
{
    let mut all: Vec<String> = Vec::new();
    let mut k: usize = 0;
    while k < defaults.len()
        invariant
            k <= defaults@.len(),
            line_texts(all@) == line_texts(defaults@).take(k as int),
        decreases defaults.len() - k,
    {
        let ghost before = line_texts(all@);
        all.push(copy_str(defaults[k].as_str()));
        assert(line_texts(all@) =~= before.push(defaults@[k as int]@));
        assert(line_texts(defaults@).take(k + 1) =~= line_texts(defaults@).take(k as int).push(defaults@[k as int]@));
        k += 1;
    }
    assert(line_texts(defaults@).take(defaults@.len() as int) =~= line_texts(defaults@));
    let ghost front = line_texts(all@);
    all.push(copy_str(hostname));
    assert(line_texts(all@) =~= front + seq![hostname@]);
    let ghost mid = line_texts(all@);
    let mut j: usize = 0;
    while j < extra.len()
        invariant
            j <= extra@.len(),
            line_texts(all@) == mid + line_texts(extra@).take(j as int),
        decreases extra.len() - j,
    {
        let ghost before = line_texts(all@);
        all.push(copy_str(extra[j].as_str()));
        assert(line_texts(all@) =~= before.push(extra@[j as int]@));
        assert(line_texts(extra@).take(j + 1) =~= line_texts(extra@).take(j as int).push(extra@[j as int]@));
        j += 1;
    }
    assert(line_texts(extra@).take(extra@.len() as int) =~= line_texts(extra@));
    let ghost listed = line_texts(all@);
    if str_eq(hostname, "0.0.0.0") || str_eq(hostname, "::") {
        all.push(copy_str("*"));
        assert(line_texts(all@) =~= listed + seq!["*"@]);
    } else {
        assert(listed =~= listed + Seq::<Seq<char>>::empty());
    }
    sorted_distinct(&all)
}

/// Strictly ascending: each string before every later one.
pub open spec fn strictly_sorted(s: Seq<Seq<char>>) -> bool {
    forall|i: int, j: int| 0 <= i < j < s.len() ==> lex_lt(#[trigger] s[i], #[trigger] s[j])
}

/// Inserting into a strictly ascending list keeps it so and adds exactly `x`.
proof fn lemma_insert_sorted_unique(s: Seq<Seq<char>>, x: Seq<char>)
    requires
        strictly_sorted(s),
    ensures
        strictly_sorted(insert_sorted_unique(s, x)),
        forall|y: Seq<char>| #[trigger] insert_sorted_unique(s, x).contains(y) <==> (s.contains(y) || y == x),
    decreases s.len(),
{
    let r = insert_sorted_unique(s, x);
    if s.len() == 0 {
        assert forall|y: Seq<char>| #[trigger] r.contains(y) <==> (s.contains(y) || y == x) by {
            if r.contains(y) {
                assert(r[0] == x);
            }
            if y == x {
                assert(r[0] == y);
            }
        }
    } else if s[0] == x {
        assert forall|y: Seq<char>| #[trigger] r.contains(y) <==> (s.contains(y) || y == x) by {
            if y == x {
                assert(s[0] == y);
            }
        }
    } else if lex_lt(x, s[0]) {
        assert forall|i: int, j: int| 0 <= i < j < r.len() implies lex_lt(#[trigger] r[i], #[trigger] r[j]) by {
            if i == 0 {
                if j > 1 {
                    lemma_lex_order_trans(x, s[0], s[j - 1]);
                }
            } else {
                assert(r[i] == s[i - 1] && r[j] == s[j - 1]);
            }
        }
        assert forall|y: Seq<char>| #[trigger] r.contains(y) <==> (s.contains(y) || y == x) by {
            if r.contains(y) {
                let i = choose|i: int| 0 <= i < r.len() && r[i] == y;
                if i > 0 {
                    assert(s[i - 1] == y);
                }
            }
            if s.contains(y) {
                let i = choose|i: int| 0 <= i < s.len() && s[i] == y;
                assert(r[i + 1] == y);
            }
            if y == x {
                assert(r[0] == y);
            }
        }
    } else {
        let rest = s.drop_first();
        assert(strictly_sorted(rest)) by {
            assert forall|i: int, j: int| 0 <= i < j < rest.len() implies lex_lt(#[trigger] rest[i], #[trigger] rest[j]) by {
                assert(rest[i] == s[i + 1] && rest[j] == s[j + 1]);
            }
        }
        lemma_insert_sorted_unique(rest, x);
        let t = insert_sorted_unique(rest, x);
        lemma_lex_order_basic(x, s[0]);
        assert(lex_lt(s[0], x));
        assert(r == seq![s[0]] + t);
        assert forall|i: int, j: int| 0 <= i < j < r.len() implies lex_lt(#[trigger] r[i], #[trigger] r[j]) by {
            if i == 0 {
                assert(r[j] == t[j - 1]);
                assert(t.contains(t[j - 1]));
                if rest.contains(t[j - 1]) {
                    let k = choose|k: int| 0 <= k < rest.len() && rest[k] == t[j - 1];
                    assert(s[k + 1] == t[j - 1]);
                    assert(lex_lt(s[0], s[k + 1]));
                }
            } else {
                assert(r[i] == t[i - 1] && r[j] == t[j - 1]);
            }
        }
        assert forall|y: Seq<char>| #[trigger] r.contains(y) <==> (s.contains(y) || y == x) by {
            if r.contains(y) {
                let i = choose|i: int| 0 <= i < r.len() && r[i] == y;
                if i > 0 {
                    assert(t.contains(t[i - 1]));
                    if rest.contains(y) {
                        let k = choose|k: int| 0 <= k < rest.len() && rest[k] == y;
                        assert(s[k + 1] == y);
                    }
                } else {
                    assert(s[0] == y);
                }
            }
            if s.contains(y) {
                let i = choose|i: int| 0 <= i < s.len() && s[i] == y;
                if i == 0 {
                    assert(r[0] == y);
                } else {
                    assert(rest[i - 1] == y);
                    assert(rest.contains(y));
                    assert(t.contains(y));
                    let k = choose|k: int| 0 <= k < t.len() && t[k] == y;
                    assert(r[k + 1] == y);
                }
            }
            if y == x {
                assert(t.contains(x));
                let k = choose|k: int| 0 <= k < t.len() && t[k] == x;
                assert(r[k + 1] == y);
            }
        }
    }
}

/// Sorting and removing duplicates gives a strictly ascending list that holds exactly the
/// strings of the input.
pub proof fn law_sorted_unique(v: Seq<Seq<char>>)
    ensures
        strictly_sorted(sorted_unique(v)),
        forall|y: Seq<char>| #[trigger] sorted_unique(v).contains(y) <==> v.contains(y),
    decreases v.len(),
{
    if v.len() > 0 {
        law_sorted_unique(v.drop_last());
        lemma_insert_sorted_unique(sorted_unique(v.drop_last()), v.last());
        assert forall|y: Seq<char>| #[trigger] sorted_unique(v).contains(y) <==> v.contains(y) by {
            if v.drop_last().contains(y) {
                let k = choose|k: int| 0 <= k < v.drop_last().len() && v.drop_last()[k] == y;
                assert(v[k] == y);
            }
            if v.contains(y) {
                let k = choose|k: int| 0 <= k < v.len() && v[k] == y;
                if k < v.len() - 1 {
                    assert(v.drop_last()[k] == y);
                }
            }
        }
    }
}

} // verus!
