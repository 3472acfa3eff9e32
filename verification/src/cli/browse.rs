//! `executor call --help`: browsing the daemon's tool paths under a prefix, and the lines
//! it prints.

use vstd::prelude::*;
use crate::json::JsonValue;
use crate::path::{
    ToolPathChild, ToolPathInspection, inspect_tool_path, strs, spec_segments, match_count,
    first_exact, children_ok, opt_text, join_dot, join_segments,
};
use crate::cli::{line_texts, list_member, urlencoding_query};
use crate::cli::login::{get, str_member};
use crate::catalog::call::{json_get, url_encoded};
use crate::text::{
    copy_str, push_str, str_eq, to_chars, lower_chars, spec_lower, find_seq, find_seq_from,
    decimal, spec_decimal,
};

verus! {

// ---------------------------------------------------------------- tool addresses

/// A tool's address: its `address`, else its `path`.
pub open spec fn tool_address(t: JsonValue) -> Option<Seq<char>> {
    match str_member(t, "address"@) {
        Some(a) => Some(a),
        None => str_member(t, "path"@),
    }
}

/// The addresses of the tools that have one, in order.
pub open spec fn addresses(items: Seq<JsonValue>) -> Seq<Seq<char>>
    decreases items.len(),
{
    if items.len() == 0 {
        Seq::empty()
    } else {
        let rest = addresses(items.drop_last());
        match tool_address(items.last()) {
            Some(a) => rest.push(a),
            None => rest,
        }
    }
}

fn address_of(t: &JsonValue) -> (r: Option<String>)
    ensures
        opt_text(r) == tool_address(*t),
{
    match get(t, "address") {
        Some(JsonValue::Text(a)) => Some(copy_str(a.as_str())),
        _ => match get(t, "path") {
            Some(JsonValue::Text(p)) => Some(copy_str(p.as_str())),
            _ => None,
        },
    }
}

/// The addresses of the tools in the daemon's `/api/tools` answer.
pub fn tool_addresses(body: &JsonValue) -> (r: Vec<String>)
    ensures
        strs(r@) == addresses(list_member(*body, "tools"@)),
{
    let mut out: Vec<String> = Vec::new();
    let items = match body {
        JsonValue::Object(m) => match crate::json::json_member(m, "tools") {
            Some(JsonValue::Array(items)) => items,
            _ => {
                assert(strs(out@) =~= Seq::<Seq<char>>::empty());
                return out;
            },
        },
        _ => {
            assert(strs(out@) =~= Seq::<Seq<char>>::empty());
            return out;
        },
    };
    assert(items@ == list_member(*body, "tools"@));
    let mut k: usize = 0;
    assert(strs(out@) =~= addresses(items@.take(0)));
    while k < items.len()
        invariant
            k <= items@.len(),
            strs(out@) == addresses(items@.take(k as int)),
        decreases items.len() - k,
    {
        proof {
            assert(items@.take(k + 1).drop_last() =~= items@.take(k as int));
        }
        let ghost before = strs(out@);
        match address_of(&items[k]) {
            Some(a) => {
                out.push(a);
                assert(strs(out@) =~= before.push(tool_address(items@[k as int])->0));
            },
            None => {},
        }
        k += 1;
    }
    assert(items@.take(items@.len() as int) =~= items@);
    out
}

// ---------------------------------------------------------------- choosing the prefix

/// `r` is what browsing `paths` under the raw prefix `parts` gives.
pub open spec fn inspected(r: ToolPathInspection, paths: Seq<Seq<char>>, parts: Seq<Seq<char>>) -> bool {
    let prefix = spec_segments(parts);
    &&& strs(r.prefix_segments@) == prefix
    &&& r.matching_tool_count == match_count(paths, prefix, paths.len() as int)
    &&& opt_text(r.exact_path) == first_exact(paths, prefix, paths.len() as int)
    &&& children_ok(r.children@, paths, prefix, paths.len() as int)
}

/// The prefix the browse uses: the one typed, or `tools.` before it when only that
/// matches.
pub open spec fn chosen_prefix(paths: Seq<Seq<char>>, prefix: Seq<Seq<char>>) -> Seq<Seq<char>> {
    let n = paths.len() as int;
    if match_count(paths, spec_segments(prefix), n) > 0 || prefix.len() == 0 || prefix[0] == "tools"@ {
        prefix
    } else if match_count(paths, spec_segments(seq!["tools"@] + prefix), n) > 0 {
        seq!["tools"@] + prefix
    } else {
        prefix
    }
}

/// Browse `paths` under `prefix`, retrying under `tools.` when the prefix alone matches
/// nothing.
pub fn inspect_with_tools_prefix(paths: &Vec<String>, prefix: &Vec<String>) -> (r: ToolPathInspection)
    ensures
        inspected(r, strs(paths@), chosen_prefix(strs(paths@), strs(prefix@))),
{
    let first = inspect_tool_path(paths.as_slice(), prefix.as_slice());
    if first.matching_tool_count > 0 || prefix.len() == 0 {
        return first;
    }
    if str_eq(prefix[0].as_str(), "tools") {
        return first;
    }
    let mut with_tools: Vec<String> = Vec::new();
    with_tools.push(copy_str("tools"));
    let mut k: usize = 0;
    while k < prefix.len()
        invariant
            k <= prefix@.len(),
            strs(with_tools@) == seq!["tools"@] + strs(prefix@).take(k as int),
        decreases prefix.len() - k,
    {
        let ghost before = strs(with_tools@);
        with_tools.push(copy_str(prefix[k].as_str()));
        assert(strs(with_tools@) =~= before.push(prefix@[k as int]@));
        assert(strs(prefix@).take(k + 1) =~= strs(prefix@).take(k as int).push(prefix@[k as int]@));
        k += 1;
    }
    assert(strs(prefix@).take(prefix@.len() as int) =~= strs(prefix@));
    let second = inspect_tool_path(paths.as_slice(), with_tools.as_slice());
    if second.matching_tool_count > 0 {
        second
    } else {
        first
    }
}

/// The deepest proper prefix of `segs`, at most `d` segments long, under which some tool
/// lies.
pub open spec fn fallback_depth(paths: Seq<Seq<char>>, segs: Seq<Seq<char>>, d: int) -> Option<int>
    decreases d + 1,
{
    if d < 0 {
        None
    } else if match_count(paths, spec_segments(segs.take(d)), paths.len() as int) > 0 {
        Some(d)
    } else {
        fallback_depth(paths, segs, d - 1)
    }
}

/// When nothing lies under the typed segments: browse the deepest shorter prefix that has
/// tools, and name the segment that stopped matching; the root when none has.
pub fn fallback_inspection(paths: &Vec<String>, segs: &Vec<String>) -> (r: (ToolPathInspection, Option<String>))
    ensures
        match fallback_depth(strs(paths@), strs(segs@), segs@.len() - 1) {
            Some(d) => inspected(r.0, strs(paths@), strs(segs@).take(d)) && opt_text(r.1) == Some(
                segs@[d]@,
            ),
            None => inspected(r.0, strs(paths@), Seq::empty()) && r.1 is None,
        },
{
    let mut depth: usize = segs.len();
    while depth > 0
        invariant
            depth <= segs@.len(),
            fallback_depth(strs(paths@), strs(segs@), segs@.len() - 1) == fallback_depth(
                strs(paths@),
                strs(segs@),
                depth - 1,
            ),
        decreases depth,
    {
        let d = depth - 1;
        let mut candidate_prefix: Vec<String> = Vec::new();
        let mut k: usize = 0;
        while k < d
            invariant
                k <= d < segs@.len(),
                strs(candidate_prefix@) == strs(segs@).take(k as int),
            decreases d - k,
        {
            let ghost before = strs(candidate_prefix@);
            candidate_prefix.push(copy_str(segs[k].as_str()));
            assert(strs(candidate_prefix@) =~= before.push(segs@[k as int]@));
            assert(strs(segs@).take(k + 1) =~= strs(segs@).take(k as int).push(segs@[k as int]@));
            k += 1;
        }
        let candidate = inspect_tool_path(paths.as_slice(), candidate_prefix.as_slice());
        if candidate.matching_tool_count > 0 {
            let mismatch = copy_str(segs[d].as_str());
            return (candidate, Some(mismatch));
        }
        depth = d;
    }
    let none: Vec<String> = Vec::new();
    assert(strs(none@) =~= Seq::<Seq<char>>::empty());
    let root = inspect_tool_path(paths.as_slice(), none.as_slice());
    (root, None)
}

// ---------------------------------------------------------------- children

/// A child's fields as plain values.
pub open spec fn child_view(c: ToolPathChild) -> (Seq<char>, bool, bool, usize) {
    (c.segment@, c.invokable, c.has_children, c.tool_count)
}

/// The plain values of a list of children.
pub open spec fn child_views(cs: Seq<ToolPathChild>) -> Seq<(Seq<char>, bool, bool, usize)> {
    cs.map_values(|c: ToolPathChild| child_view(c))
}

/// Whether a segment passes the `--match` filter (ASCII case ignored).
pub open spec fn keeps(query: Option<Seq<char>>, segment: Seq<char>) -> bool {
    match query {
        Some(q) => find_seq(spec_lower(segment), spec_lower(q)) is Some,
        None => true,
    }
}

/// The children that pass the filter, in order.
pub open spec fn kept(cs: Seq<ToolPathChild>, query: Option<Seq<char>>) -> Seq<(Seq<char>, bool, bool, usize)>
    decreases cs.len(),
{
    if cs.len() == 0 {
        Seq::empty()
    } else {
        let rest = kept(cs.drop_last(), query);
        if keeps(query, cs.last().segment@) {
            rest.push(child_view(cs.last()))
        } else {
            rest
        }
    }
}

/// An optional borrowed string as plain characters.
pub open spec fn opt_chars(o: Option<&str>) -> Option<Seq<char>> {
    match o {
        Some(s) => Some(s@),
        None => None,
    }
}

/// The first `limit` of `s`, or all of it without a limit.
pub open spec fn limited<T>(s: Seq<T>, limit: Option<usize>) -> Seq<T> {
    match limit {
        Some(n) => if n < s.len() {
            s.take(n as int)
        } else {
            s
        },
        None => s,
    }
}

/// The children to print: those whose segment contains the `--match` text (ASCII case
/// ignored), at most `--limit` of them.
pub fn filter_children(children: &Vec<ToolPathChild>, query: Option<&str>, limit: Option<usize>) -> (r:
    Vec<ToolPathChild>)
    ensures
        child_views(r@) == limited(kept(children@, opt_chars(query)), limit),
{
    let needle: Option<Vec<char>> = match query {
        Some(q) => {
            let qc = to_chars(q);
            Some(lower_chars(&qc))
        },
        None => None,
    };
    let mut out: Vec<ToolPathChild> = Vec::new();
    let mut k: usize = 0;
    assert(child_views(out@) =~= kept(children@.take(0), opt_chars(query)));
    while k < children.len()
        invariant
            k <= children@.len(),
            child_views(out@) == kept(children@.take(k as int), opt_chars(query)),
            match query {
                Some(q) => needle matches Some(n) && n@ == spec_lower(q@),
                None => needle is None,
            },
        decreases children.len() - k,
    {
        proof {
            assert(children@.take(k + 1).drop_last() =~= children@.take(k as int));
        }
        let c = &children[k];
        let pass = match &needle {
            Some(n) => {
                let sc = to_chars(c.segment.as_str());
                let low = lower_chars(&sc);
                assert(low@.skip(0) =~= low@);
                find_seq_from(&low, 0, n).is_some()
            },
            None => true,
        };
        if pass {
            let ghost before = child_views(out@);
            out.push(
                ToolPathChild {
                    segment: copy_str(c.segment.as_str()),
                    invokable: c.invokable,
                    has_children: c.has_children,
                    tool_count: c.tool_count,
                },
            );
            assert(child_views(out@) =~= before.push(child_view(children@[k as int])));
        }
        k += 1;
    }
    assert(children@.take(children@.len() as int) =~= children@);
    match limit {
        Some(n) => {
            if n < out.len() {
                let ghost full = child_views(out@);
                out.truncate(n);
                assert(child_views(out@) =~= full.take(n as int));
            }
        },
        None => {},
    }
    out
}

// ---------------------------------------------------------------- lines

/// The kind column of a child: a tool with deeper tools, a tool, a namespace, or a leaf.
pub open spec fn child_kind(c: (Seq<char>, bool, bool, usize)) -> Seq<char> {
    if c.1 && c.2 {
        "tool+"@
    } else if c.1 {
        "tool"@
    } else if c.2 {
        "ns"@
    } else {
        "leaf"@
    }
}

/// One child row: segment, kind, tool count.
pub open spec fn child_line(c: (Seq<char>, bool, bool, usize)) -> Seq<char> {
    c.0 + "\t"@ + child_kind(c) + "\t"@ + spec_decimal(c.3 as nat) + " tools"@
}

/// A line `label` + `v` when there is a value.
pub open spec fn opt_line(label: Seq<char>, v: Option<Seq<char>>) -> Seq<Seq<char>> {
    match v {
        Some(x) => seq![label + x],
        None => Seq::empty(),
    }
}

/// The prefix as shown: `(root)` when empty, else its segments joined with dots.
pub open spec fn shown_prefix(prefix: Seq<Seq<char>>) -> Seq<char> {
    if prefix.len() == 0 {
        "(root)"@
    } else {
        join_dot(prefix)
    }
}

/// What the browse prints.
pub open spec fn spec_browse_lines(
    prefix: Seq<Seq<char>>,
    children: Seq<(Seq<char>, bool, bool, usize)>,
    query: Option<Seq<char>>,
    limit: Option<usize>,
    exact: Option<Seq<char>>,
) -> Seq<Seq<char>> {
    seq![
        "Usage: executor call [PATH...] '{json}'"@,
        "Browse: executor call --help [PATH...] [--match TEXT] [--limit N]"@,
        "prefix: "@ + shown_prefix(prefix),
    ] + opt_line("match: "@, query) + opt_line(
        "limit: "@,
        match limit {
            Some(n) => Some(spec_decimal(n as nat)),
            None => None,
        },
    ) + opt_line("exact:\t"@, exact) + if children.len() == 0 {
        seq!["(no children)"@]
    } else {
        children.map_values(|c: (Seq<char>, bool, bool, usize)| child_line(c))
    }
}

fn push_line(out: &mut Vec<String>, s: String)
    ensures
        line_texts(final(out)@) == line_texts(old(out)@).push(s@),
{
    let ghost before = line_texts(out@);
    out.push(s);
    assert(line_texts(out@) =~= before.push(s@));
}

fn child_rows(children: &Vec<ToolPathChild>) -> (r: Vec<String>)
    ensures
        line_texts(r@) == child_views(children@).map_values(|c: (Seq<char>, bool, bool, usize)| child_line(c)),
{
    let ghost cv = child_views(children@);
    let mut out: Vec<String> = Vec::new();
    let mut k: usize = 0;
    assert(line_texts(out@) =~= cv.take(0).map_values(|c: (Seq<char>, bool, bool, usize)| child_line(c)));
    while k < children.len()
        invariant
            k <= children@.len(),
            cv == child_views(children@),
            line_texts(out@) == cv.take(k as int).map_values(|c: (Seq<char>, bool, bool, usize)| child_line(c)),
        decreases children.len() - k,
    {
        let c = &children[k];
        let kind = if c.invokable && c.has_children {
            "tool+"
        } else if c.invokable {
            "tool"
        } else if c.has_children {
            "ns"
        } else {
            "leaf"
        };
        let mut s = copy_str(c.segment.as_str());
        push_str(&mut s, "\t");
        push_str(&mut s, kind);
        push_str(&mut s, "\t");
        let d = decimal(c.tool_count as u64);
        push_str(&mut s, d.as_str());
        push_str(&mut s, " tools");
        assert(s@ == child_line(cv[k as int]));
        push_line(&mut out, s);
        assert(cv.take(k + 1).map_values(|c: (Seq<char>, bool, bool, usize)| child_line(c))
            =~= cv.take(k as int).map_values(|c: (Seq<char>, bool, bool, usize)| child_line(c)).push(
            child_line(cv[k as int]),
        ));
        k += 1;
    }
    assert(cv.take(cv.len() as int) =~= cv);
    out
}

fn header_lines(prefix: &Vec<String>, query: Option<&str>, limit: Option<usize>, exact: Option<&str>) -> (r: Vec<
    String,
>)
    ensures
        line_texts(r@) == seq![
            "Usage: executor call [PATH...] '{json}'"@,
            "Browse: executor call --help [PATH...] [--match TEXT] [--limit N]"@,
            "prefix: "@ + shown_prefix(strs(prefix@)),
        ] + opt_line("match: "@, opt_chars(query)) + opt_line(
            "limit: "@,
            match limit {
                Some(n) => Some(spec_decimal(n as nat)),
                None => None,
            },
        ) + opt_line("exact:\t"@, opt_chars(exact)),
{
    let mut out: Vec<String> = Vec::new();
    push_line(&mut out, copy_str("Usage: executor call [PATH...] '{json}'"));
    push_line(&mut out, copy_str("Browse: executor call --help [PATH...] [--match TEXT] [--limit N]"));
    let mut p = copy_str("prefix: ");
    if prefix.len() == 0 {
        push_str(&mut p, "(root)");
    } else {
        let j = join_segments(prefix);
        push_str(&mut p, j.as_str());
    }
    push_line(&mut out, p);
    let ghost head = line_texts(out@);
    if let Some(q) = query {
        let mut m = copy_str("match: ");
        push_str(&mut m, q);
        push_line(&mut out, m);
    }
    assert(line_texts(out@) =~= head + opt_line("match: "@, opt_chars(query)));
    let ghost h2 = line_texts(out@);
    let ghost lim = match limit {
        Some(n) => Some(spec_decimal(n as nat)),
        None => None,
    };
    if let Some(n) = limit {
        let mut m = copy_str("limit: ");
        let d = decimal(n as u64);
        push_str(&mut m, d.as_str());
        push_line(&mut out, m);
    }
    assert(line_texts(out@) =~= h2 + opt_line("limit: "@, lim));
    let ghost h3 = line_texts(out@);
    if let Some(e) = exact {
        let mut m = copy_str("exact:\t");
        push_str(&mut m, e);
        push_line(&mut out, m);
    }
    assert(line_texts(out@) =~= h3 + opt_line("exact:\t"@, opt_chars(exact)));
    out
}

/// The lines of a browse: usage, the prefix, the filters, the exact tool when the prefix
/// is one, and the children (or a note when there are none).
pub fn browse_lines(
    prefix: &Vec<String>,
    children: &Vec<ToolPathChild>,
    query: Option<&str>,
    limit: Option<usize>,
    exact: Option<&str>,
) -> (r: Vec<String>)
    ensures
        line_texts(r@) == spec_browse_lines(strs(prefix@), child_views(children@), opt_chars(query), limit, opt_chars(exact)),
{
    let mut out = header_lines(prefix, query, limit, exact);
    let ghost head = line_texts(out@);
    if children.len() == 0 {
        push_line(&mut out, copy_str("(no children)"));
        assert(line_texts(out@) =~= head + seq!["(no children)"@]);
    } else {
        let mut rows = child_rows(children);
        let ghost tail = line_texts(rows@);
        out.append(&mut rows);
        assert(line_texts(out@) =~= head + tail);
    }
    out
}

/// What the browse says when nothing lies under the typed segments.
pub fn no_match_message(segments: &Vec<String>) -> (r: String)
    ensures
        join_dot(strs(segments@)).len() == 0 ==> r@ == "No tools are currently registered."@,
        join_dot(strs(segments@)).len() > 0 ==> r@ == "No tool path starts with \""@ + join_dot(
            strs(segments@),
        ) + "\"."@,
{
    let typed = join_segments(segments);
    proof {
        reveal_strlit("");
        assert(typed@.len() == 0 ==> typed@ =~= ""@);
    }
    if str_eq(typed.as_str(), "") {
        copy_str("No tools are currently registered.")
    } else {
        let mut m = copy_str("No tool path starts with \"");
        push_str(&mut m, typed.as_str());
        push_str(&mut m, "\".");
        m
    }
}

// ---------------------------------------------------------------- the exact tool

/// Whether tool `t` is the one at `addr` (by address or by path).
pub open spec fn is_at(t: JsonValue, addr: Seq<char>) -> bool {
    str_member(t, "address"@) == Some(addr) || str_member(t, "path"@) == Some(addr)
}

/// Index of the first tool at `addr`.
pub open spec fn first_at(items: Seq<JsonValue>, addr: Seq<char>, k: int) -> Option<int>
    decreases items.len() - k,
{
    if k < 0 || k >= items.len() {
        None
    } else if is_at(items[k], addr) {
        Some(k)
    } else {
        first_at(items, addr, k + 1)
    }
}

/// The line of an exact tool: its address, a tab, its description.
pub open spec fn exact_tool_line(t: JsonValue) -> Seq<char> {
    (match tool_address(t) {
        Some(a) => a,
        None => ""@,
    }) + "\t"@ + match str_member(t, "description"@) {
        Some(d) => d,
        None => ""@,
    }
}

/// The `exact:` line for the tool at `addr` in the daemon's answer, when there is one.
pub fn exact_line(body: &JsonValue, addr: &str) -> (r: Option<String>)
    ensures
        match first_at(list_member(*body, "tools"@), addr@, 0) {
            Some(i) => opt_text(r) == Some(exact_tool_line(list_member(*body, "tools"@)[i])),
            None => r is None,
        },
{
    let items = match body {
        JsonValue::Object(m) => match crate::json::json_member(m, "tools") {
            Some(JsonValue::Array(items)) => items,
            _ => return None,
        },
        _ => return None,
    };
    let mut k: usize = 0;
    while k < items.len()
        invariant
            k <= items@.len(),
            items@ == list_member(*body, "tools"@),
            first_at(items@, addr@, 0) == first_at(items@, addr@, k as int),
        decreases items.len() - k,
    {
        let t = &items[k];
        let by_address = match get(t, "address") {
            Some(JsonValue::Text(a)) => str_eq(a.as_str(), addr),
            _ => false,
        };
        let by_path = match get(t, "path") {
            Some(JsonValue::Text(p)) => str_eq(p.as_str(), addr),
            _ => false,
        };
        if by_address || by_path {
            let mut s = match address_of(t) {
                Some(a) => a,
                None => String::new(),
            };
            push_str(&mut s, "\t");
            match get(t, "description") {
                Some(JsonValue::Text(d)) => push_str(&mut s, d.as_str()),
                _ => {},
            }
            proof {
                reveal_strlit("");
            }
            assert(s@ =~= exact_tool_line(items@[k as int]));
            return Some(s);
        }
        k += 1;
    }
    None
}

/// What a leaf tool shows: its path (else its address) and its description.
pub fn leaf_lines(tool: &JsonValue) -> (r: (String, String))
    ensures
        r.0@ == (match str_member(*tool, "path"@) {
            Some(p) => p,
            None => match str_member(*tool, "address"@) {
                Some(a) => a,
                None => ""@,
            },
        }),
        r.1@ == (match str_member(*tool, "description"@) {
            Some(d) => d,
            None => ""@,
        }),
{
    let path = match get(tool, "path") {
        Some(JsonValue::Text(p)) => copy_str(p.as_str()),
        _ => match get(tool, "address") {
            Some(JsonValue::Text(a)) => copy_str(a.as_str()),
            _ => String::new(),
        },
    };
    let desc = match get(tool, "description") {
        Some(JsonValue::Text(d)) => copy_str(d.as_str()),
        _ => String::new(),
    };
    proof {
        reveal_strlit("");
    }
    assert(path@ =~= (match str_member(*tool, "path"@) {
        Some(p) => p,
        None => match str_member(*tool, "address"@) {
            Some(a) => a,
            None => ""@,
        },
    }));
    assert(desc@ =~= (match str_member(*tool, "description"@) {
        Some(d) => d,
        None => ""@,
    }));
    (path, desc)
}

/// The daemon path that describes the tool at `path`.
pub fn describe_path(path: &str) -> (r: String)
    ensures
        r@ == "/api/tools/describe?path="@ + url_encoded(vstd::utf8::encode_utf8(path@)),
{
    let mut s = copy_str("/api/tools/describe?path=");
    let q = urlencoding_query(path);
    push_str(&mut s, q.as_str());
    s
}

} // verus!
