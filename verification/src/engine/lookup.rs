//! Resolving a CLI / sandbox path to a catalog or built-in tool, and filtering the tool
//! list. The catalog's tools come first, then the built-in ones, in the order the
//! store and the built-in table list them.

use vstd::prelude::*;
use crate::tool::{Tool, ToolListFilter, spec_cli_path};
use crate::policy::{ToolPolicy, PolicyAction};
use crate::engine::{spec_gate_action, gate};
use crate::address::{parse_tool_address, spec_parse_tool_address, spec_address_text};
use crate::error::ExecutorError;
use crate::text::{copy_str, push_str, str_eq, to_chars, find_seq, find_seq_from, lower_chars, spec_lower, spec_has_at, has_at};

verus! {

// ---------------------------------------------------------------- resolving a path

/// A resolved path: the index of the tool among the catalog's tools followed by the
/// built-in ones, and whether it runs as a built-in.
#[derive(Debug, PartialEq, Eq, Structural)]
pub enum Resolved {
    /// Built-in configurator.
    Static(usize),
    /// Catalog tool with a connection address.
    Dynamic(usize),
}

/// Index of the first built-in tool keyed (by its path) `path`.
pub open spec fn static_key(statics: Seq<Tool>, path: Seq<char>, k: int) -> Option<int>
    decreases statics.len() - k,
{
    if k < 0 || k >= statics.len() {
        None
    } else if spec_cli_path(statics[k]) == path {
        Some(k)
    } else {
        static_key(statics, path, k + 1)
    }
}

/// Index of the first catalog tool stored under address `a`.
pub open spec fn stored_at(stored: Seq<Tool>, a: Seq<char>, k: int) -> Option<int>
    decreases stored.len() - k,
{
    if k < 0 || k >= stored.len() {
        None
    } else if spec_address_text(stored[k].address@) == a {
        Some(k)
    } else {
        stored_at(stored, a, k + 1)
    }
}

/// A tool answers to `path` exactly: by its path or its full address.
pub open spec fn exact_hit(t: Tool, path: Seq<char>) -> bool {
    spec_cli_path(t) == path || spec_address_text(t.address@) == path
}

/// A tool lies at or under `path`.
pub open spec fn prefix_hit(t: Tool, path: Seq<char>) -> bool {
    spec_cli_path(t) == path || spec_has_at(spec_cli_path(t), 0, path + "."@)
}

/// The indices of the first `n` tools that answer exactly.
pub open spec fn exact_hits(all: Seq<Tool>, path: Seq<char>, n: int) -> Seq<int>
    decreases n,
{
    if n <= 0 || n > all.len() {
        Seq::empty()
    } else if exact_hit(all[n - 1], path) {
        exact_hits(all, path, n - 1).push(n - 1)
    } else {
        exact_hits(all, path, n - 1)
    }
}

/// The indices of the first `n` tools at or under `path`.
pub open spec fn prefix_hits(all: Seq<Tool>, path: Seq<char>, n: int) -> Seq<int>
    decreases n,
{
    if n <= 0 || n > all.len() {
        Seq::empty()
    } else if prefix_hit(all[n - 1], path) {
        prefix_hits(all, path, n - 1).push(n - 1)
    } else {
        prefix_hits(all, path, n - 1)
    }
}

/// The paths of the first `n` tools that contain `path`.
pub open spec fn near_paths(all: Seq<Tool>, path: Seq<char>, n: int) -> Seq<Seq<char>>
    decreases n,
{
    if n <= 0 || n > all.len() {
        Seq::empty()
    } else if find_seq(spec_cli_path(all[n - 1]), path) is Some {
        near_paths(all, path, n - 1).push(spec_cli_path(all[n - 1]))
    } else {
        near_paths(all, path, n - 1)
    }
}

/// The suggestions for an unknown path: the first five tool paths that contain it.
pub open spec fn suggestions(all: Seq<Tool>, path: Seq<char>) -> Seq<Seq<char>> {
    let near = near_paths(all, path, all.len() as int);
    if near.len() > 5 {
        near.take(5)
    } else {
        near
    }
}

/// How a tool found among all of them runs.
pub open spec fn classify(all: Seq<Tool>, i: int) -> Resolved {
    if all[i].static_tool {
        Resolved::Static(i as usize)
    } else {
        Resolved::Dynamic(i as usize)
    }
}

/// The resolution when neither a built-in key nor an address names the tool: the one tool
/// that answers exactly, else the one tool at or under the path, else none.
pub open spec fn spec_scan(all: Seq<Tool>, path: Seq<char>) -> Option<Resolved> {
    let exact = exact_hits(all, path, all.len() as int);
    let under = prefix_hits(all, path, all.len() as int);
    if exact.len() == 1 {
        Some(classify(all, exact[0]))
    } else if under.len() == 1 {
        Some(classify(all, under[0]))
    } else {
        None
    }
}

/// The texts of a list of strings.
pub open spec fn texts(v: Seq<String>) -> Seq<Seq<char>> {
    v.map_values(|s: String| s@)
}

fn push_hit(hits: &mut Vec<usize>, i: usize)
    ensures
        final(hits)@ == old(hits)@.push(i),
{
    hits.push(i);
}

fn cli_path_of(t: &Tool) -> (r: Vec<char>)
    ensures
        r@ == spec_cli_path(*t),
{
    let p = t.cli_path();
    to_chars(p.as_str())
}

/// The indices of all tools that answer `path` exactly.
fn scan_exact(all: &Vec<&Tool>, path: &str) -> (r: Vec<usize>)
    ensures
        r@.map_values(|i: usize| i as int) == exact_hits(all@.map_values(|t: &Tool| *t), path@, all@.len() as int),
{
    let ghost ts = all@.map_values(|t: &Tool| *t);
    let mut hits: Vec<usize> = Vec::new();
    let mut k: usize = 0;
    while k < all.len()
        invariant
            k <= all@.len(),
            ts == all@.map_values(|t: &Tool| *t),
            hits@.map_values(|i: usize| i as int) == exact_hits(ts, path@, k as int),
        decreases all.len() - k,
    {
        let t = all[k];
        let p = t.cli_path();
        let a = t.address.to_string();
        let ghost before = hits@;
        if str_eq(p.as_str(), path) || str_eq(a.as_str(), path) {
            push_hit(&mut hits, k);
            assert(hits@.map_values(|i: usize| i as int) =~= before.map_values(|i: usize| i as int).push(k as int));
        }
        k += 1;
    }
    hits
}

/// The indices of all tools at or under `path`.
fn scan_prefix(all: &Vec<&Tool>, path: &str) -> (r: Vec<usize>)
    ensures
        r@.map_values(|i: usize| i as int) == prefix_hits(all@.map_values(|t: &Tool| *t), path@, all@.len() as int),
{
    let ghost ts = all@.map_values(|t: &Tool| *t);
    let mut dotted = copy_str(path);
    push_str(&mut dotted, ".");
    let pat = to_chars(dotted.as_str());
    let mut hits: Vec<usize> = Vec::new();
    let mut k: usize = 0;
    while k < all.len()
        invariant
            k <= all@.len(),
            ts == all@.map_values(|t: &Tool| *t),
            pat@ == path@ + "."@,
            hits@.map_values(|i: usize| i as int) == prefix_hits(ts, path@, k as int),
        decreases all.len() - k,
    {
        let t = all[k];
        let p = t.cli_path();
        let pc = to_chars(p.as_str());
        let ghost before = hits@;
        if str_eq(p.as_str(), path) || has_at(&pc, 0, &pat) {
            push_hit(&mut hits, k);
            assert(hits@.map_values(|i: usize| i as int) =~= before.map_values(|i: usize| i as int).push(k as int));
        }
        k += 1;
    }
    hits
}

/// The first five paths of tools that contain `path`.
fn scan_near(all: &Vec<&Tool>, path: &str) -> (r: Vec<String>)
    ensures
        texts(r@) == suggestions(all@.map_values(|t: &Tool| *t), path@),
{
    let ghost ts = all@.map_values(|t: &Tool| *t);
    let pat = to_chars(path);
    let mut out: Vec<String> = Vec::new();
    let mut k: usize = 0;
    while k < all.len()
        invariant
            k <= all@.len(),
            ts == all@.map_values(|t: &Tool| *t),
            pat@ == path@,
            texts(out@) == near_paths(ts, path@, k as int),
        decreases all.len() - k,
    {
        let t = all[k];
        let p = t.cli_path();
        let pc = to_chars(p.as_str());
        assert(pc@.skip(0) =~= pc@);
        let ghost before = texts(out@);
        if find_seq_from(&pc, 0, &pat).is_some() {
            out.push(p);
            assert(texts(out@) =~= before.push(spec_cli_path(ts[k as int])));
        }
        k += 1;
    }
    if out.len() > 5 {
        let ghost full = texts(out@);
        out.truncate(5);
        assert(texts(out@) =~= full.take(5));
    }
    out
}

/// Resolving `path`: a built-in tool keyed by it; else, when it is a full address, the
/// catalog tool stored there (or `ToolNotFound` for that address); else the catalog tool
/// at `tools.<path>`; else the one tool that answers exactly or lies under it; else
/// `ToolNotFound` with up to five paths that contain it.
pub open spec fn resolve_is(
    r: Result<Resolved, ExecutorError>,
    stored: Seq<Tool>,
    statics: Seq<Tool>,
    path: Seq<char>,
) -> bool {
    let all = stored + statics;
    match static_key(statics, path, 0) {
        Some(j) => r == Ok::<Resolved, ExecutorError>(Resolved::Static((stored.len() + j) as usize)),
        None => match spec_parse_tool_address(path) {
            Some(a) => match stored_at(stored, spec_address_text(a), 0) {
                Some(i) => r == Ok::<Resolved, ExecutorError>(Resolved::Dynamic(i as usize)),
                None => (r matches Err(ExecutorError::ToolNotFound { address, suggestions: s, reason: None })
                    && address@ == spec_address_text(a) && s@.len() == 0),
            },
            None => match (match spec_parse_tool_address("tools."@ + path) {
                Some(a) => stored_at(stored, spec_address_text(a), 0),
                None => None,
            }) {
                Some(i) => r == Ok::<Resolved, ExecutorError>(Resolved::Dynamic(i as usize)),
                None => match spec_scan(all, path) {
                    Some(x) => r == Ok::<Resolved, ExecutorError>(x),
                    None => (r matches Err(ExecutorError::ToolNotFound { address, suggestions: s, reason: None })
                        && address@ == path && texts(s@) == suggestions(all, path)),
                },
            },
        },
    }
}

fn find_static(statics: &Vec<Tool>, path: &str) -> (r: Option<usize>)
    ensures
        match r {
            Some(j) => static_key(statics@, path@, 0) == Some(j as int) && j < statics@.len(),
            None => static_key(statics@, path@, 0) is None,
        },
{
    let mut k: usize = 0;
    while k < statics.len()
        invariant
            k <= statics@.len(),
            static_key(statics@, path@, 0) == static_key(statics@, path@, k as int),
        decreases statics.len() - k,
    {
        let p = statics[k].cli_path();
        if str_eq(p.as_str(), path) {
            return Some(k);
        }
        k += 1;
    }
    None
}

fn find_stored(stored: &Vec<Tool>, a: &str) -> (r: Option<usize>)
    ensures
        match r {
            Some(i) => stored_at(stored@, a@, 0) == Some(i as int),
            None => stored_at(stored@, a@, 0) is None,
        },
{
    let mut k: usize = 0;
    while k < stored.len()
        invariant
            k <= stored@.len(),
            stored_at(stored@, a@, 0) == stored_at(stored@, a@, k as int),
        decreases stored.len() - k,
    {
        let t = stored[k].address.to_string();
        if str_eq(t.as_str(), a) {
            return Some(k);
        }
        k += 1;
    }
    None
}

/// Resolve `path` among the catalog's tools (`stored`) and the built-in ones (`statics`,
/// keyed by their paths).
pub fn resolve_path(stored: &Vec<Tool>, statics: &Vec<Tool>, path: &str) -> (r: Result<Resolved, ExecutorError>)
    requires
        stored@.len() + statics@.len() <= usize::MAX,
    ensures
        resolve_is(r, stored@, statics@, path@),
{
    if let Some(j) = find_static(statics, path) {
        return Ok(Resolved::Static(stored.len() + j));
    }
    if let Some(addr) = parse_tool_address(path) {
        let text = addr.to_string();
        return match find_stored(stored, text.as_str()) {
            Some(i) => Ok(Resolved::Dynamic(i)),
            None => Err(ExecutorError::missing_address(&addr)),
        };
    }
    let mut prefixed = copy_str("tools.");
    push_str(&mut prefixed, path);
    if let Some(addr) = parse_tool_address(prefixed.as_str()) {
        let text = addr.to_string();
        if let Some(i) = find_stored(stored, text.as_str()) {
            return Ok(Resolved::Dynamic(i));
        }
    }
    let mut all: Vec<&Tool> = Vec::new();
    let mut k: usize = 0;
    while k < stored.len()
        invariant
            k <= stored@.len(),
            all@.map_values(|t: &Tool| *t) == stored@.take(k as int),
        decreases stored.len() - k,
    {
        let ghost before = all@.map_values(|t: &Tool| *t);
        all.push(&stored[k]);
        assert(all@.map_values(|t: &Tool| *t) =~= before.push(stored@[k as int]));
        assert(stored@.take(k + 1) =~= stored@.take(k as int).push(stored@[k as int]));
        k += 1;
    }
    assert(stored@.take(stored@.len() as int) =~= stored@);
    let mut j: usize = 0;
    while j < statics.len()
        invariant
            j <= statics@.len(),
            all@.map_values(|t: &Tool| *t) == stored@ + statics@.take(j as int),
        decreases statics.len() - j,
    {
        let ghost before = all@.map_values(|t: &Tool| *t);
        all.push(&statics[j]);
        assert(all@.map_values(|t: &Tool| *t) =~= before.push(statics@[j as int]));
        assert(statics@.take(j + 1) =~= statics@.take(j as int).push(statics@[j as int]));
        j += 1;
    }
    assert(statics@.take(statics@.len() as int) =~= statics@);
    let ghost ts = all@.map_values(|t: &Tool| *t);
    assert(ts == stored@ + statics@);
    let exact = scan_exact(&all, path);
    assert(exact@.len() == exact_hits(ts, path@, ts.len() as int).len());
    if exact.len() == 1 {
        let i = exact[0];
        assert(i as int == exact_hits(ts, path@, ts.len() as int)[0]);
        proof {
            lemma_hits_in_range(ts, path@, ts.len() as int);
        }
        return Ok(if all[i].static_tool {
            Resolved::Static(i)
        } else {
            Resolved::Dynamic(i)
        });
    }
    let under = scan_prefix(&all, path);
    assert(under@.len() == prefix_hits(ts, path@, ts.len() as int).len());
    if under.len() == 1 {
        let i = under[0];
        assert(i as int == prefix_hits(ts, path@, ts.len() as int)[0]);
        proof {
            lemma_hits_in_range(ts, path@, ts.len() as int);
        }
        return Ok(if all[i].static_tool {
            Resolved::Static(i)
        } else {
            Resolved::Dynamic(i)
        });
    }
    let near = scan_near(&all, path);
    Err(ExecutorError::tool_not_found(path, near))
}

/// The hit indices are indices of the list.
proof fn lemma_hits_in_range(all: Seq<Tool>, path: Seq<char>, n: int)
    requires
        0 <= n <= all.len(),
    ensures
        forall|k: int| 0 <= k < exact_hits(all, path, n).len() ==> 0 <= #[trigger] exact_hits(all, path, n)[k] < n,
        forall|k: int| 0 <= k < prefix_hits(all, path, n).len() ==> 0 <= #[trigger] prefix_hits(all, path, n)[k] < n,
    decreases n,
{
    if n > 0 && n <= all.len() {
        lemma_hits_in_range(all, path, n - 1);
        let e = exact_hits(all, path, n - 1);
        let p = prefix_hits(all, path, n - 1);
        assert forall|k: int| 0 <= k < exact_hits(all, path, n).len() implies 0 <= #[trigger] exact_hits(
            all,
            path,
            n,
        )[k] < n by {
            if k < e.len() {
                assert(exact_hits(all, path, n)[k] == e[k]);
            }
        }
        assert forall|k: int| 0 <= k < prefix_hits(all, path, n).len() implies 0 <= #[trigger] prefix_hits(
            all,
            path,
            n,
        )[k] < n by {
            if k < p.len() {
                assert(prefix_hits(all, path, n)[k] == p[k]);
            }
        }
    }
}

// ---------------------------------------------------------------- filtering the list

/// Whether a tool passes the filter's integration, owner, connection and query parts
/// (the query matched, ASCII case ignored, against `name description`).
pub open spec fn passes(t: Tool, f: ToolListFilter) -> bool {
    &&& (f.integration matches Some(s) ==> t.integration@ == s@)
    &&& (f.owner matches Some(o) ==> t.owner == o)
    &&& (f.connection matches Some(c) ==> t.connection@ == c@)
    &&& (f.query matches Some(q) ==> find_seq(spec_lower(t.name@ + " "@ + t.description@), spec_lower(q@)) is Some)
}

/// Whether a tool is listed: it passes the filter and, unless blocked ones are asked for,
/// the policies do not block it.
pub open spec fn listed(t: Tool, f: ToolListFilter, policies: Seq<ToolPolicy>) -> bool {
    passes(t, f) && (f.include_blocked || spec_gate_action(policies, t) != PolicyAction::Block)
}

/// The indices of the first `n` tools that are listed.
pub open spec fn listed_indices(all: Seq<Tool>, f: ToolListFilter, policies: Seq<ToolPolicy>, n: int) -> Seq<int>
    decreases n,
{
    if n <= 0 || n > all.len() {
        Seq::empty()
    } else if listed(all[n - 1], f, policies) {
        listed_indices(all, f, policies, n - 1).push(n - 1)
    } else {
        listed_indices(all, f, policies, n - 1)
    }
}

/// The listed tools, in order; with a query, at most `max_results` of them (at least one).
pub open spec fn spec_list(all: Seq<Tool>, f: ToolListFilter, policies: Seq<ToolPolicy>, max_results: usize) -> Seq<int> {
    let hits = listed_indices(all, f, policies, all.len() as int);
    let cap: int = if max_results < 1 { 1 } else { max_results as int };
    if f.query is Some && hits.len() > cap {
        hits.take(cap)
    } else {
        hits
    }
}

fn passes_exec(t: &Tool, f: &ToolListFilter, needle: &Option<Vec<char>>) -> (r: bool)
    requires
        match f.query {
            Some(q) => needle matches Some(n) && n@ == spec_lower(q@),
            None => needle is None,
        },
    ensures
        r == passes(*t, *f),
{
    if let Some(s) = &f.integration {
        if !str_eq(t.integration.as_str(), s.as_str()) {
            return false;
        }
    }
    if let Some(o) = f.owner {
        if t.owner != o {
            return false;
        }
    }
    if let Some(c) = &f.connection {
        if !str_eq(t.connection.as_str(), c.as_str()) {
            return false;
        }
    }
    if let Some(n) = needle {
        let mut hay = copy_str(t.name.as_str());
        push_str(&mut hay, " ");
        push_str(&mut hay, t.description.as_str());
        let hc = to_chars(hay.as_str());
        let low = lower_chars(&hc);
        assert(low@.skip(0) =~= low@);
        if find_seq_from(&low, 0, n).is_none() {
            return false;
        }
    }
    true
}

/// The tools `tools.list` shows, as indices into `all` (the catalog's tools, then the
/// built-in ones).
pub fn list_filtered(all: &Vec<Tool>, f: &ToolListFilter, policies: &Vec<ToolPolicy>, max_results: usize) -> (r: Vec<
    usize,
>)
    ensures
        r@.map_values(|i: usize| i as int) == spec_list(all@, *f, policies@, max_results),
{
    let needle: Option<Vec<char>> = match &f.query {
        Some(q) => {
            let qc = to_chars(q.as_str());
            Some(lower_chars(&qc))
        },
        None => None,
    };
    let ghost cap: int = if max_results < 1 { 1 } else { max_results as int };
    let mut out: Vec<usize> = Vec::new();
    let mut k: usize = 0;
    while k < all.len()
        invariant_except_break
            f.query is Some ==> out@.len() < cap,
        invariant
            k <= all@.len(),
            match f.query {
                Some(q) => needle matches Some(n) && n@ == spec_lower(q@),
                None => needle is None,
            },
            cap == (if max_results < 1 { 1 } else { max_results as int }),
            out@.map_values(|i: usize| i as int) == listed_indices(all@, *f, policies@, k as int),
        ensures
            out@.map_values(|i: usize| i as int) == spec_list(all@, *f, policies@, max_results),
        decreases all.len() - k,
    {
        let t = &all[k];
        let mut keep = passes_exec(t, f, &needle);
        if keep && !f.include_blocked {
            keep = match gate(t, policies) {
                Ok(_) => true,
                Err(_) => false,
            };
        }
        let ghost before = out@.map_values(|i: usize| i as int);
        if keep {
            out.push(k);
            assert(out@.map_values(|i: usize| i as int) =~= before.push(k as int));
            k += 1;
            if out.len() >= max_results && f.query.is_some() {
                proof {
                    lemma_listed_prefix(all@, *f, policies@, k as int, all@.len() as int);
                    let hits = listed_indices(all@, *f, policies@, all@.len() as int);
                    let got = out@.map_values(|i: usize| i as int);
                    assert(got.len() == cap);
                    if hits.len() == cap {
                        assert(hits.take(cap) =~= hits);
                    }
                }
                break;
            }
        } else {
            k += 1;
        }
    }
    out
}

/// The listed indices of a shorter prefix start those of a longer one.
proof fn lemma_listed_prefix(all: Seq<Tool>, f: ToolListFilter, policies: Seq<ToolPolicy>, m: int, n: int)
    requires
        0 <= m <= n <= all.len(),
    ensures
        listed_indices(all, f, policies, m).len() <= listed_indices(all, f, policies, n).len(),
        listed_indices(all, f, policies, n).take(listed_indices(all, f, policies, m).len() as int)
            == listed_indices(all, f, policies, m),
    decreases n - m,
{
    if m < n {
        lemma_listed_prefix(all, f, policies, m, n - 1);
        let a = listed_indices(all, f, policies, m);
        let b = listed_indices(all, f, policies, n - 1);
        let c = listed_indices(all, f, policies, n);
        if listed(all[n - 1], f, policies) {
            assert(c.take(a.len() as int) =~= b.take(a.len() as int));
        }
    } else {
        let a = listed_indices(all, f, policies, m);
        assert(a.take(a.len() as int) =~= a);
    }
}

} // verus!
