//! The arguments the command line turns into requests: catalog ids, the catalog call's
//! query, `--value KEY=VALUE` pairs, and the bodies and paths it sends.

use vstd::prelude::*;
use crate::json::{JsonValue, parse_json, json_parse, write_json, json_text, numbers_ok, lemma_member_numbers_ok};
use crate::text::{copy_str, push_str, decimal, spec_decimal, str_eq, to_chars, from_char_range, find_char_from, find_char, split_once, lex_lt, lex_order_str, lemma_lex_order_basic, spec_trim, trim, starts_with_chars, spec_has_at, contains_char};
use crate::catalog::texts;
use crate::catalog::call::text_is;

verus! {

// ---------------------------------------------------------------- catalog ids

/// A first path segment that names a catalog endpoint: it holds a dot and is neither under
/// `tools.` nor under `executor.`.
pub open spec fn is_catalog_id(first: Seq<char>) -> bool {
    !spec_has_at(first, 0, "tools."@) && !spec_has_at(first, 0, "executor."@) && first.contains('.')
}

/// Whether `executor call` should try the catalog first for `path`.
pub fn looks_like_catalog_id(path: &[String]) -> (r: bool)
    ensures
        r == (path@.len() > 0 && is_catalog_id(path@[0]@)),
{
    if path.len() == 0 {
        return false;
    }
    let first = to_chars(path[0].as_str());
    !starts_with_chars(&first, "tools.") && !starts_with_chars(&first, "executor.") && contains_char(
        &first,
        '.',
    )
}

// ---------------------------------------------------------------- pairs

/// The texts of a list of string pairs.
pub open spec fn pair_texts(v: Seq<(String, String)>) -> Seq<(Seq<char>, Seq<char>)> {
    v.map_values(|p: (String, String)| (p.0@, p.1@))
}

/// The query of a catalog call, member by member: a string as it is, `null` left out, any
/// other value as its JSON text.
pub open spec fn query_pairs(ms: Seq<(String, JsonValue)>) -> Seq<(Seq<char>, Seq<char>)>
    decreases ms.len(),
{
    if ms.len() == 0 {
        Seq::empty()
    } else {
        let rest = query_pairs(ms.drop_last());
        let k = ms.last().0;
        match ms.last().1 {
            JsonValue::Text(s) => rest.push((k@, s@)),
            JsonValue::Null => rest,
            _ => rest.push((k@, json_text(ms.last().1))),
        }
    }
}

/// The query pairs of the trailing JSON argument of a catalog call (`{"domain":"x.com"}`):
/// empty unless the trimmed text starts with `{`; the parse error when it is not JSON.
pub fn catalog_query(text: &str) -> (r: Result<Vec<(String, String)>, String>)
    ensures
        !spec_has_at(spec_trim(text@), 0, "{"@) ==> (r matches Ok(q) && q@.len() == 0),
        spec_has_at(spec_trim(text@), 0, "{"@) ==> match json_parse(spec_trim(text@)) {
            Err(m) => (r matches Err(e) && e@ == m),
            Ok(JsonValue::Object(ms)) => (r matches Ok(q) && pair_texts(q@) == query_pairs(ms@)),
            Ok(_) => (r matches Ok(q) && q@.len() == 0),
        },
{
    let trimmed = trim(text);
    let chars = to_chars(trimmed.as_str());
    if !starts_with_chars(&chars, "{") {
        return Ok(Vec::new());
    }
    let value = match parse_json(trimmed.as_str()) {
        Ok(v) => v,
        Err(m) => return Err(m),
    };
    let ms = match &value {
        JsonValue::Object(ms) => ms,
        _ => return Ok(Vec::new()),
    };
    let mut out: Vec<(String, String)> = Vec::new();
    let mut k: usize = 0;
    while k < ms.len()
        invariant
            k <= ms@.len(),
            value == JsonValue::Object(*ms),
            spec_has_at(spec_trim(text@), 0, "{"@),
            json_parse(spec_trim(text@)) == Ok::<JsonValue, Seq<char>>(value),
            pair_texts(out@) == query_pairs(ms@.take(k as int)),
            numbers_ok(value),
        decreases ms.len() - k,
    {
        proof {
            assert(ms@.take(k + 1).drop_last() =~= ms@.take(k as int));
            assert(ms@.take(k + 1).last() == ms@[k as int]);
        }
        let ghost before = pair_texts(out@);
        let (key, val) = &ms[k];
        match val {
            JsonValue::Text(s) => {
                out.push((copy_str(key.as_str()), copy_str(s.as_str())));
                assert(pair_texts(out@) =~= before.push((key@, s@)));
            },
            JsonValue::Null => {},
            _ => {
                match write_json(val) {
                    Some(t) => {
                        out.push((copy_str(key.as_str()), t));
                        assert(pair_texts(out@) =~= before.push((key@, json_text(*val))));
                    },
                    None => {
                        proof {
                            lemma_member_numbers_ok(value, 0, k as int);
                        }
                        return Err(copy_str("a query value could not be written as JSON"));
                    },
                }
            },
        }
        k += 1;
    }
    assert(ms@.take(ms@.len() as int) =~= ms@);
    Ok(out)
}

// ---------------------------------------------------------------- --value pairs

/// `s` with `(k, v)` put in key order; an entry already under `k` is replaced.
pub open spec fn upsert(s: Seq<(Seq<char>, Seq<char>)>, k: Seq<char>, v: Seq<char>) -> Seq<
    (Seq<char>, Seq<char>),
>
    decreases s.len(),
{
    if s.len() == 0 {
        seq![(k, v)]
    } else if s[0].0 == k {
        seq![(k, v)] + s.drop_first()
    } else if lex_lt(k, s[0].0) {
        seq![(k, v)] + s
    } else {
        seq![s[0]] + upsert(s.drop_first(), k, v)
    }
}

/// The refusal of a `--value` argument without `=`.
pub open spec fn value_error(pair: Seq<char>) -> Seq<char> {
    "--value deve ser KEY=VALUE, recebido "@ + pair
}

/// The `--value` arguments as a map in key order, a later value for a key replacing an
/// earlier one; the first argument without `=` is refused.
pub open spec fn spec_values(pairs: Seq<Seq<char>>) -> Result<Seq<(Seq<char>, Seq<char>)>, Seq<char>>
    decreases pairs.len(),
{
    if pairs.len() == 0 {
        Ok(Seq::empty())
    } else {
        match spec_values(pairs.drop_last()) {
            Err(e) => Err(e),
            Ok(acc) => match split_once(pairs.last(), '=') {
                None => Err(value_error(pairs.last())),
                Some(kv) => Ok(upsert(acc, kv.0, kv.1)),
            },
        }
    }
}

/// Putting `(k, v)` in place skips the leading entries that are before `k`.
proof fn lemma_upsert_at(s: Seq<(Seq<char>, Seq<char>)>, k: Seq<char>, v: Seq<char>, j: int)
    requires
        0 <= j <= s.len(),
        forall|i: int| 0 <= i < j ==> (#[trigger] s[i]).0 != k && !lex_lt(k, s[i].0),
    ensures
        upsert(s, k, v) == s.take(j) + upsert(s.skip(j), k, v),
        j < s.len() && s[j].0 == k ==> upsert(s.skip(j), k, v) == seq![(k, v)] + s.skip(j + 1),
        j < s.len() && s[j].0 != k && lex_lt(k, s[j].0) ==> upsert(s.skip(j), k, v) == seq![(k, v)]
            + s.skip(j),
        j == s.len() ==> upsert(s.skip(j), k, v) == seq![(k, v)],
    decreases j,
{
    if j > 0 {
        lemma_upsert_at(s.drop_first(), k, v, j - 1);
        assert(s.drop_first().skip(j - 1) =~= s.skip(j));
        if j < s.len() {
            assert(s.drop_first().skip(j) =~= s.skip(j + 1));
        }
        assert(s.take(j) =~= seq![s[0]] + s.drop_first().take(j - 1));
    } else {
        assert(s.skip(0) =~= s);
        assert(s.take(0) =~= Seq::<(Seq<char>, Seq<char>)>::empty());
        if s.len() > 0 {
            assert(s.drop_first() =~= s.skip(1));
        }
    }
    if j == s.len() {
        assert(s.skip(j) =~= Seq::<(Seq<char>, Seq<char>)>::empty());
    }
}

fn upsert_exec(out: &mut Vec<(String, String)>, k: String, v: String)
    ensures
        pair_texts(final(out)@) == upsert(pair_texts(old(out)@), k@, v@),
{
    let ghost before = pair_texts(out@);
    let mut j: usize = 0;
    while j < out.len()
        invariant
            j <= out@.len(),
            out@ == old(out)@,
            before == pair_texts(out@),
            forall|i: int| 0 <= i < j ==> (#[trigger] before[i]).0 != k@ && !lex_lt(k@, before[i].0),
        ensures
            j <= out@.len(),
            out@ == old(out)@,
            before == pair_texts(out@),
            forall|i: int| 0 <= i < j ==> (#[trigger] before[i]).0 != k@ && !lex_lt(k@, before[i].0),
            j < out@.len() ==> before[j as int].0 == k@ || lex_lt(k@, before[j as int].0),
        decreases out.len() - j,
    {
        let o = lex_order_str(k.as_str(), out[j].0.as_str());
        proof {
            lemma_lex_order_basic(k@, out@[j as int].0@);
        }
        if o <= 0 {
            break;
        }
        j += 1;
    }
    proof {
        lemma_upsert_at(before, k@, v@, j as int);
    }
    let same = j < out.len() && lex_order_str(k.as_str(), out[j].0.as_str()) == 0;
    proof {
        if j < out@.len() {
            lemma_lex_order_basic(k@, out@[j as int].0@);
        }
    }
    if same {
        out.set(j, (k, v));
        proof {
            assert(pair_texts(out@) =~= before.take(j as int) + upsert(before.skip(j as int), k@, v@));
        }
    } else {
        out.insert(j, (k, v));
        proof {
            assert(pair_texts(out@) =~= before.take(j as int) + upsert(before.skip(j as int), k@, v@));
        }
    }
}

/// The `--value KEY=VALUE` arguments of `executor connections add`, in key order, a later
/// value for a key replacing an earlier one.
pub fn parse_values(pairs: &[String]) -> (r: Result<Vec<(String, String)>, String>)
    ensures
        match r {
            Ok(v) => spec_values(texts(pairs@)) == Ok::<Seq<(Seq<char>, Seq<char>)>, Seq<char>>(
                pair_texts(v@),
            ),
            Err(e) => spec_values(texts(pairs@)) == Err::<Seq<(Seq<char>, Seq<char>)>, Seq<char>>(
                e@,
            ),
        },
{
    let mut out: Vec<(String, String)> = Vec::new();
    let mut k: usize = 0;
    assert(texts(pairs@).take(0) =~= Seq::<Seq<char>>::empty());
    assert(pair_texts(out@) =~= Seq::<(Seq<char>, Seq<char>)>::empty());
    while k < pairs.len()
        invariant
            k <= pairs@.len(),
            spec_values(texts(pairs@).take(k as int)) == Ok::<Seq<(Seq<char>, Seq<char>)>, Seq<char>>(
                pair_texts(out@),
            ),
        decreases pairs.len() - k,
    {
        let ghost pre = texts(pairs@).take(k as int);
        let ghost cur = texts(pairs@).take(k + 1);
        assert(cur.drop_last() =~= pre);
        assert(cur.last() == pairs@[k as int]@);
        let chars = to_chars(pairs[k].as_str());
        match find_char_from(&chars, 0, '=') {
            None => {
                assert(chars@.skip(0) =~= chars@);
                let mut msg = copy_str("--value deve ser KEY=VALUE, recebido ");
                push_str(&mut msg, pairs[k].as_str());
                proof {
                    reveal_strlit("--value deve ser KEY=VALUE, recebido ");
                    lemma_values_error_stays(texts(pairs@), k as int + 1);
                }
                return Err(msg);
            },
            Some(i) => {
                assert(chars@.skip(0) =~= chars@);
                let n: usize = chars.len();
                assert(i < n);
                let key = from_char_range(&chars, 0, i);
                let val = from_char_range(&chars, i + 1, n);
                assert(key@ =~= chars@.take(i as int));
                assert(val@ =~= chars@.skip(i + 1));
                upsert_exec(&mut out, key, val);
            },
        }
        k += 1;
    }
    assert(texts(pairs@).take(pairs@.len() as int) =~= texts(pairs@));
    Ok(out)
}

/// Once an argument is refused, every longer prefix is refused the same way.
proof fn lemma_values_error_stays(pairs: Seq<Seq<char>>, n: int)
    requires
        0 < n <= pairs.len(),
        spec_values(pairs.take(n)) is Err,
    ensures
        spec_values(pairs) == spec_values(pairs.take(n)),
    decreases pairs.len() - n,
{
    if n < pairs.len() {
        assert(pairs.take(n + 1).drop_last() =~= pairs.take(n));
        lemma_values_error_stays(pairs, n + 1);
    } else {
        assert(pairs.take(n) =~= pairs);
    }
}

// ---------------------------------------------------------------- request bodies

/// `v` is an object whose members are the strings `pairs`, in that order.
pub open spec fn text_members(v: JsonValue, pairs: Seq<(Seq<char>, Seq<char>)>) -> bool {
    v matches JsonValue::Object(m) && m@.len() == pairs.len() && forall|i: int|
        0 <= i < pairs.len() ==> (#[trigger] m@[i]).0@ == pairs[i].0 && text_is(m@[i].1, pairs[i].1)
}

/// The member `(key, value)` when there is a value.
pub open spec fn opt_pair(key: Seq<char>, value: Option<Seq<char>>) -> Seq<(Seq<char>, Seq<char>)> {
    match value {
        Some(v) => seq![(key, v)],
        None => Seq::empty(),
    }
}

/// An optional borrowed string as plain characters.
pub open spec fn opt_str(o: Option<&str>) -> Option<Seq<char>> {
    match o {
        Some(s) => Some(s@),
        None => None,
    }
}

fn text_value(s: &str) -> (r: JsonValue)
    ensures
        text_is(r, s@),
{
    JsonValue::Text(copy_str(s))
}

fn push_text(m: &mut Vec<(String, JsonValue)>, key: &str, value: &str)
    ensures
        final(m)@.len() == old(m)@.len() + 1,
        forall|i: int| 0 <= i < old(m)@.len() ==> final(m)@[i] == old(m)@[i],
        final(m)@[old(m)@.len() as int].0@ == key@,
        text_is(final(m)@[old(m)@.len() as int].1, value@),
{
    m.push((copy_str(key), text_value(value)));
}

/// The object of string members `pairs`, in order.
pub fn text_object(pairs: &Vec<(String, String)>) -> (r: JsonValue)
    ensures
        text_members(r, pair_texts(pairs@)),
{
    let mut m: Vec<(String, JsonValue)> = Vec::new();
    let mut k: usize = 0;
    while k < pairs.len()
        invariant
            k <= pairs@.len(),
            m@.len() == k,
            forall|i: int| 0 <= i < k ==> (#[trigger] m@[i]).0@ == pairs@[i].0@ && text_is(m@[i].1, pairs@[i].1@),
        decreases pairs.len() - k,
    {
        push_text(&mut m, pairs[k].0.as_str(), pairs[k].1.as_str());
        k += 1;
    }
    JsonValue::Object(m)
}

/// The string members of a new connection's body, in key order (before `values`).
pub open spec fn connection_head(
    integration: Seq<char>,
    name: Seq<char>,
    owner: Option<Seq<char>>,
    template: Seq<char>,
    identity_label: Option<Seq<char>>,
) -> Seq<(Seq<char>, Seq<char>)> {
    opt_pair("identity_label"@, identity_label) + seq![("integration"@, integration), ("name"@, name)]
        + opt_pair("owner"@, owner) + seq![("template"@, template)]
}

/// `b` is the body of `connections add`: the string members of `connection_head`, then
/// `values` as an object of strings.
pub open spec fn connection_body_is(
    b: JsonValue,
    head: Seq<(Seq<char>, Seq<char>)>,
    values: Seq<(Seq<char>, Seq<char>)>,
) -> bool {
    b matches JsonValue::Object(m) && m@.len() == head.len() + 1 && (forall|i: int|
        0 <= i < head.len() ==> (#[trigger] m@[i]).0@ == head[i].0 && text_is(m@[i].1, head[i].1))
        && m@[head.len() as int].0@ == "values"@ && text_members(m@[head.len() as int].1, values)
}

/// The body `executor connections add` posts (keys in the order the daemon's JSON writer
/// keeps: sorted).
pub fn connection_body(
    integration: &str,
    name: &str,
    owner: Option<&str>,
    template: &str,
    identity_label: Option<&str>,
    values: &Vec<(String, String)>,
) -> (r: JsonValue)
    ensures
        connection_body_is(
            r,
            connection_head(integration@, name@, opt_str(owner), template@, opt_str(identity_label)),
            pair_texts(values@),
        ),
{
    let ghost head = connection_head(integration@, name@, opt_str(owner), template@, opt_str(identity_label));
    let mut m: Vec<(String, JsonValue)> = Vec::new();
    if let Some(l) = identity_label {
        push_text(&mut m, "identity_label", l);
    }
    push_text(&mut m, "integration", integration);
    push_text(&mut m, "name", name);
    if let Some(o) = owner {
        push_text(&mut m, "owner", o);
    }
    push_text(&mut m, "template", template);
    assert(m@.len() == head.len());
    assert forall|i: int| 0 <= i < head.len() implies (#[trigger] m@[i]).0@ == head[i].0 && text_is(
        m@[i].1,
        head[i].1,
    ) by {
        assert(head == opt_pair("identity_label"@, opt_str(identity_label)) + seq![("integration"@, integration@), ("name"@, name@)]
            + opt_pair("owner"@, opt_str(owner)) + seq![("template"@, template@)]);
    }
    let v = text_object(values);
    m.push((copy_str("values"), v));
    JsonValue::Object(m)
}

/// The body `executor call` posts to run code: `autoApprove`, `code` and, when given,
/// `idempotencyKey`.
pub fn execution_body(source: &str, auto_approve: bool, idempotency_key: Option<&str>) -> (r: JsonValue)
    ensures
        r matches JsonValue::Object(m) && m@.len() == (if idempotency_key is Some { 3int } else { 2int })
            && m@[0].0@ == "autoApprove"@ && m@[0].1 == JsonValue::Bool(auto_approve)
            && m@[1].0@ == "code"@ && text_is(m@[1].1, source@)
            && (idempotency_key matches Some(k) ==> m@[2].0@ == "idempotencyKey"@ && text_is(m@[2].1, k@)),
{
    let mut m: Vec<(String, JsonValue)> = Vec::new();
    m.push((copy_str("autoApprove"), JsonValue::Bool(auto_approve)));
    push_text(&mut m, "code", source);
    if let Some(k) = idempotency_key {
        push_text(&mut m, "idempotencyKey", k);
    }
    JsonValue::Object(m)
}

/// The resume answer's `content`: the text read as JSON, or the text itself as a string
/// when it is not JSON.
pub open spec fn content_is(v: JsonValue, raw: Seq<char>) -> bool {
    match json_parse(raw) {
        Ok(p) => v == p,
        Err(_) => text_is(v, raw),
    }
}

/// The body `executor resume` posts: `action`, then `content` and `persist` when given.
pub fn resume_body(action: &str, content: Option<&str>, persist: Option<&str>) -> (r: JsonValue)
    ensures
        r matches JsonValue::Object(m) && m@.len() == 1 + (if content is Some { 1int } else { 0int }) + (
        if persist is Some { 1int } else { 0int }) && m@[0].0@ == "action"@ && text_is(m@[0].1, action@)
            && (content matches Some(c) ==> m@[1].0@ == "content"@ && content_is(m@[1].1, c@))
            && (persist matches Some(p) ==> m@[m@.len() - 1].0@ == "persist"@ && text_is(
            m@[m@.len() - 1].1,
            p@,
        )),
{
    let mut m: Vec<(String, JsonValue)> = Vec::new();
    push_text(&mut m, "action", action);
    if let Some(c) = content {
        let v = match parse_json(c) {
            Ok(v) => v,
            Err(_) => text_value(c),
        };
        m.push((copy_str("content"), v));
    }
    if let Some(p) = persist {
        push_text(&mut m, "persist", p);
    }
    JsonValue::Object(m)
}

/// The body of a catalog call: the endpoint id and its query as an object of strings.
pub fn catalog_call_body(id: &str, query: &Vec<(String, String)>) -> (r: JsonValue)
    ensures
        r matches JsonValue::Object(m) && m@.len() == 2 && m@[0].0@ == "id"@ && text_is(m@[0].1, id@)
            && m@[1].0@ == "query"@ && text_members(m@[1].1, pair_texts(query@)),
{
    let mut m: Vec<(String, JsonValue)> = Vec::new();
    push_text(&mut m, "id", id);
    let q = text_object(query);
    m.push((copy_str("query"), q));
    JsonValue::Object(m)
}

/// The body `executor team-tool add` posts, keys sorted.
pub fn team_tool_body(name: &str, provider: &str, base_url: &str, secret: &str) -> (r: JsonValue)
    ensures
        text_members(
            r,
            seq![("base_url"@, base_url@), ("name"@, name@), ("provider"@, provider@), ("secret"@, secret@)],
        ),
{
    let mut m: Vec<(String, JsonValue)> = Vec::new();
    push_text(&mut m, "base_url", base_url);
    push_text(&mut m, "name", name);
    push_text(&mut m, "provider", provider);
    push_text(&mut m, "secret", secret);
    let r = JsonValue::Object(m);
    assert(text_members(
        r,
        seq![("base_url"@, base_url@), ("name"@, name@), ("provider"@, provider@), ("secret"@, secret@)],
    ));
    r
}

// ---------------------------------------------------------------- paths and queries

/// `/api/connections/{owner}/{integration}/{name}`.
pub open spec fn spec_connection_path(owner: Seq<char>, integration: Seq<char>, name: Seq<char>) -> Seq<char> {
    "/api/connections/"@ + owner + "/"@ + integration + "/"@ + name
}

/// The daemon path of one saved connection.
pub fn connection_path(owner: &str, integration: &str, name: &str) -> (r: String)
    ensures
        r@ == spec_connection_path(owner@, integration@, name@),
{
    let mut s = copy_str("/api/connections/");
    push_str(&mut s, owner);
    push_str(&mut s, "/");
    push_str(&mut s, integration);
    push_str(&mut s, "/");
    push_str(&mut s, name);
    s
}

/// The daemon path that re-resolves one saved connection's tools.
pub fn connection_refresh_path(owner: &str, integration: &str, name: &str) -> (r: String)
    ensures
        r@ == spec_connection_path(owner@, integration@, name@) + "/refresh"@,
{
    let mut s = connection_path(owner, integration, name);
    push_str(&mut s, "/refresh");
    s
}

/// The query `executor mcp` opens the daemon's `/mcp` with.
pub fn mcp_query(mode: &str, elicitation_mode: &str, search_tools: bool) -> (r: String)
    ensures
        r@ == "?mode="@ + mode@ + "&elicitation_mode="@ + elicitation_mode@ + (if search_tools {
            "&search_tools=true"@
        } else {
            ""@
        }),
{
    let mut s = copy_str("?mode=");
    push_str(&mut s, mode);
    push_str(&mut s, "&elicitation_mode=");
    push_str(&mut s, elicitation_mode);
    if search_tools {
        push_str(&mut s, "&search_tools=true");
    } else {
        proof {
            reveal_strlit("");
        }
        assert(s@ =~= s@ + ""@);
    }
    s
}

/// Whether a bind hostname listens on every interface.
pub open spec fn is_wildcard(hostname: Seq<char>) -> bool {
    hostname == "0.0.0.0"@ || hostname == "::"@
}

/// The host clients use to reach a daemon bound to `hostname`.
pub open spec fn spec_origin_host(hostname: Seq<char>) -> Seq<char> {
    if is_wildcard(hostname) {
        "127.0.0.1"@
    } else {
        hostname
    }
}

/// The origin a daemon bound to `hostname:port` answers at.
pub fn daemon_origin(hostname: &str, port: u16) -> (r: String)
    ensures
        r@ == "http://"@ + spec_origin_host(hostname@) + ":"@ + spec_decimal(port as nat),
{
    let mut s = copy_str("http://");
    if str_eq(hostname, "0.0.0.0") || str_eq(hostname, "::") {
        push_str(&mut s, "127.0.0.1");
    } else {
        push_str(&mut s, hostname);
    }
    push_str(&mut s, ":");
    let p = decimal(port as u64);
    push_str(&mut s, p.as_str());
    s
}


// ---------------------------------------------------------------- daemon answers

/// What a refused daemon request reports: the answer's `message`; else `error: text`;
/// else the text when the answer is JSON; else `status: text`.
pub open spec fn spec_daemon_error(status: Seq<char>, text: Seq<char>) -> Seq<char> {
    match json_parse(text) {
        Ok(v) => match crate::cli::login::str_member(v, "message"@) {
            Some(m) => m,
            None => match crate::cli::login::str_member(v, "error"@) {
                Some(e) => e + ": "@ + text,
                None => if text.len() > 0 {
                    text
                } else {
                    status + ": "@ + text
                },
            },
        },
        Err(_) => status + ": "@ + text,
    }
}

/// The message of a refused daemon request.
pub fn daemon_error(status: &str, text: &str) -> (r: String)
    ensures
        r@ == spec_daemon_error(status@, text@),
{
    let fallback = {
        let mut m = copy_str(status);
        push_str(&mut m, ": ");
        push_str(&mut m, text);
        m
    };
    match parse_json(text) {
        Ok(v) => {
            if let Some(JsonValue::Text(m)) = crate::cli::login::get(&v, "message") {
                return copy_str(m.as_str());
            }
            if let Some(JsonValue::Text(e)) = crate::cli::login::get(&v, "error") {
                let mut out = copy_str(e.as_str());
                push_str(&mut out, ": ");
                push_str(&mut out, text);
                return out;
            }
            proof {
                reveal_strlit("");
                assert(text@.len() == 0 ==> text@ =~= ""@);
            }
            if !str_eq(text, "") {
                return copy_str(text);
            }
            fallback
        },
        Err(_) => fallback,
    }
}

/// `v` is the placeholder for a successful answer that is not JSON: `{"ok": true, "raw": text}`.
pub open spec fn raw_answer_is(v: JsonValue, text: Seq<char>) -> bool {
    v matches JsonValue::Object(m) && m@.len() == 2 && m@[0].0@ == "ok"@ && m@[0].1 == JsonValue::Bool(true)
        && m@[1].0@ == "raw"@ && text_is(m@[1].1, text)
}

/// What a daemon request gives: on success (or 204) the JSON answer, `{}` when empty, the
/// raw text wrapped when not JSON; otherwise the refusal's message.
pub fn daemon_answer(success: bool, status_code: u16, status: &str, text: &str) -> (r: Result<JsonValue, String>)
    ensures
        (success || status_code == 204) && text@.len() == 0 ==> (r matches Ok(JsonValue::Object(m)) && m@.len() == 0),
        (success || status_code == 204) && text@.len() > 0 ==> match json_parse(text@) {
            Ok(v) => r == Ok::<JsonValue, String>(v),
            Err(_) => (r matches Ok(v) && raw_answer_is(v, text@)),
        },
        !(success || status_code == 204) ==> (r matches Err(e) && e@ == spec_daemon_error(status@, text@)),
{
    if success || status_code == 204 {
        proof {
            reveal_strlit("");
            assert(text@.len() == 0 ==> text@ =~= ""@);
        }
        if str_eq(text, "") {
            return Ok(JsonValue::Object(Vec::new()));
        }
        return match parse_json(text) {
            Ok(v) => Ok(v),
            Err(_) => {
                let mut m: Vec<(String, JsonValue)> = Vec::new();
                m.push((copy_str("ok"), JsonValue::Bool(true)));
                m.push((copy_str("raw"), JsonValue::Text(copy_str(text))));
                Ok(JsonValue::Object(m))
            },
        };
    }
    Err(daemon_error(status, text))
}

/// The headers that carry the daemon bearer: `authorization: Bearer <token>` and
/// `x-treg-token`, when there is a non-empty token.
pub fn bearer_headers(token: Option<&str>) -> (r: Vec<(String, String)>)
    ensures
        pair_texts(r@) == (match token {
            Some(t) => if t@.len() > 0 {
                seq![("authorization"@, "Bearer "@ + t@), ("x-treg-token"@, t@)]
            } else {
                Seq::empty()
            },
            None => Seq::empty(),
        }),
{
    let mut out: Vec<(String, String)> = Vec::new();
    match token {
        Some(t) => {
            proof {
                reveal_strlit("");
                assert(t@.len() == 0 ==> t@ =~= ""@);
            }
            if !str_eq(t, "") {
                let mut b = copy_str("Bearer ");
                push_str(&mut b, t);
                out.push((copy_str("authorization"), b));
                out.push((copy_str("x-treg-token"), copy_str(t)));
                assert(pair_texts(out@) =~= seq![("authorization"@, "Bearer "@ + t@), ("x-treg-token"@, t@)]);
            } else {
                assert(pair_texts(out@) =~= Seq::<(Seq<char>, Seq<char>)>::empty());
            }
        },
        None => {
            assert(pair_texts(out@) =~= Seq::<(Seq<char>, Seq<char>)>::empty());
        },
    }
    out
}

} // verus!
