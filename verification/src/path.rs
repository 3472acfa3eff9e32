//! CLI tool-path browsing (`executor call github --help`).

use vstd::prelude::*;
use crate::json::{json_parse, json_quote, json_quoted, json_text, parse_json, write_json, numbers_ok, JsonValue};
use crate::text::{
    copy_str, from_chars, lemma_lex_order_basic, lemma_lex_order_trans, lex_lt, lex_order,
    lex_order_str, push_char, push_str, spec_is_ascii_alnum, spec_trim, split_chars, split_on,
    str_eq, to_chars, trim_vec,
};

verus! {

/// Path grammar / JSON errors.
#[derive(Clone, Debug, PartialEq, Eq)]
pub enum ToolPathError {
    /// Empty path.
    Empty,
    /// Illegal characters in a segment.
    BadSegment,
    /// Arguments were not a JSON object.
    ArgsNotObject,
    /// JSON parse failed.
    InvalidJson(String),
    /// `@` without a path.
    EmptyFileRef,
    /// Cannot read `@file`.
    FileRead {
        /// Path.
        path: String,
        /// IO error.
        io: String,
    },
    /// File did not start with `{`.
    FileNotObject(String),
    /// Legacy flags.
    Flags,
}

impl ToolPathError {
    /// The human-readable message.
    pub open spec fn spec_message(&self) -> Seq<char> {
        match self {
            ToolPathError::Empty => "tool path must include at least one segment"@,
            ToolPathError::BadSegment =>
                "tool path segments must contain only letters, numbers, '.', '_' or '-'"@,
            ToolPathError::ArgsNotObject => "tool arguments must decode to a JSON object"@,
            ToolPathError::InvalidJson(e) => "invalid JSON arguments: "@ + e@,
            ToolPathError::EmptyFileRef =>
                "tool input '@' requires a file path, e.g. `@./input.json`"@,
            ToolPathError::FileRead { path, io } => "cannot read tool input file '"@ + path@
                + "': "@ + io@,
            ToolPathError::FileNotObject(p) => "tool input file '"@ + p@
                + "' must contain a JSON object starting with '{'"@,
            ToolPathError::Flags =>
                "tool invocation no longer accepts flags. Use: executor call <path...> '{...json...}'"@,
        }
    }

    /// The human-readable message.
    pub fn message(&self) -> (r: String)
        ensures
            r@ == self.spec_message(),
    {
        match self {
            ToolPathError::Empty => copy_str("tool path must include at least one segment"),
            ToolPathError::BadSegment => copy_str(
                "tool path segments must contain only letters, numbers, '.', '_' or '-'",
            ),
            ToolPathError::ArgsNotObject => copy_str("tool arguments must decode to a JSON object"),
            ToolPathError::InvalidJson(e) => {
                let mut s = copy_str("invalid JSON arguments: ");
                push_str(&mut s, e.as_str());
                s
            },
            ToolPathError::EmptyFileRef => copy_str(
                "tool input '@' requires a file path, e.g. `@./input.json`",
            ),
            ToolPathError::FileRead { path, io } => {
                let mut s = copy_str("cannot read tool input file '");
                push_str(&mut s, path.as_str());
                push_str(&mut s, "': ");
                push_str(&mut s, io.as_str());
                s
            },
            ToolPathError::FileNotObject(p) => {
                let mut s = copy_str("tool input file '");
                push_str(&mut s, p.as_str());
                push_str(&mut s, "' must contain a JSON object starting with '{'");
                s
            },
            ToolPathError::Flags => copy_str(
                "tool invocation no longer accepts flags. Use: executor call <path...> '{...json...}'",
            ),
        }
    }
}

// ---------------------------------------------------------------- segments

/// The views of a list of strings.
pub open spec fn strs(v: Seq<String>) -> Seq<Seq<char>> {
    v.map_values(|s: String| s@)
}

/// The pieces, trimmed, with the empty ones dropped.
pub open spec fn trimmed_nonempty(pieces: Seq<Seq<char>>) -> Seq<Seq<char>>
    decreases pieces.len(),
{
    if pieces.len() == 0 {
        Seq::empty()
    } else {
        let rest = trimmed_nonempty(pieces.drop_last());
        let t = spec_trim(pieces.last());
        if t.len() == 0 {
            rest
        } else {
            rest.push(t)
        }
    }
}

/// The segments of one part: split on `.`, trimmed, empty ones dropped.
pub open spec fn part_segments(p: Seq<char>) -> Seq<Seq<char>> {
    trimmed_nonempty(split_on(p, '.'))
}

/// The segments of all parts, in order.
pub open spec fn spec_segments(parts: Seq<Seq<char>>) -> Seq<Seq<char>>
    decreases parts.len(),
{
    if parts.len() == 0 {
        Seq::empty()
    } else {
        spec_segments(parts.drop_last()) + part_segments(parts.last())
    }
}

/// A character allowed in a path segment.
pub open spec fn is_segment_char(c: char) -> bool {
    spec_is_ascii_alnum(c) || c == '.' || c == '_' || c == '-'
}

/// A non-empty segment of allowed characters.
pub open spec fn is_path_token(s: Seq<char>) -> bool {
    s.len() > 0 && forall|i: int| 0 <= i < s.len() ==> is_segment_char(#[trigger] s[i])
}

/// Segments joined with `.`.
pub open spec fn join_dot(segs: Seq<Seq<char>>) -> Seq<char>
    decreases segs.len(),
{
    if segs.len() == 0 {
        Seq::empty()
    } else if segs.len() == 1 {
        segs[0]
    } else {
        join_dot(segs.drop_last()) + seq!['.'] + segs.last()
    }
}

/// What `build_tool_path` returns for `parts`.
pub open spec fn spec_build(parts: Seq<Seq<char>>) -> Result<Seq<char>, ToolPathError> {
    let segs = spec_segments(parts);
    if segs.len() == 0 {
        Err(ToolPathError::Empty)
    } else if exists|i: int| 0 <= i < segs.len() && !is_path_token(#[trigger] segs[i]) {
        Err(ToolPathError::BadSegment)
    } else {
        Ok(join_dot(segs))
    }
}

/// The segments of one part.
pub fn path_segments(p: &str) -> (r: Vec<String>)
    ensures
        strs(r@) == part_segments(p@),
{
    let v = to_chars(p);
    let pieces = split_chars(&v, '.');
    let ghost sp = split_on(v@, '.');
    let mut out: Vec<String> = Vec::new();
    let mut j: usize = 0;
    assert(sp.take(0) =~= Seq::<Seq<char>>::empty());
    assert(strs(out@) =~= Seq::<Seq<char>>::empty());
    while j < pieces.len()
        invariant
            j <= pieces@.len(),
            pieces@.len() == sp.len(),
            forall|k: int| 0 <= k < pieces@.len() ==> #[trigger] pieces@[k]@ == sp[k],
            strs(out@) == trimmed_nonempty(sp.take(j as int)),
        decreases pieces.len() - j,
    {
        let t = trim_vec(&pieces[j]);
        proof {
            assert(sp.take(j + 1).drop_last() =~= sp.take(j as int));
            assert(sp.take(j + 1).last() == pieces@[j as int]@);
        }
        if t.len() > 0 {
            let seg = from_chars(&t);
            out.push(seg);
            assert(strs(out@) =~= trimmed_nonempty(sp.take(j as int)).push(seg@));
        }
        j += 1;
    }
    assert(sp.take(sp.len() as int) =~= sp);
    out
}

fn to_segments(parts: &[String]) -> (r: Vec<String>)
    ensures
        strs(r@) == spec_segments(strs(parts@)),
{
    let mut out: Vec<String> = Vec::new();
    let mut i: usize = 0;
    assert(strs(parts@).take(0) =~= Seq::<Seq<char>>::empty());
    assert(strs(out@) =~= Seq::<Seq<char>>::empty());
    while i < parts.len()
        invariant
            i <= parts@.len(),
            strs(out@) == spec_segments(strs(parts@).take(i as int)),
        decreases parts.len() - i,
    {
        let segs = path_segments(parts[i].as_str());
        let ghost before = strs(out@);
        let mut j: usize = 0;
        while j < segs.len()
            invariant
                j <= segs@.len(),
                strs(out@) == before + strs(segs@).take(j as int),
            decreases segs.len() - j,
        {
            let s = copy_str(segs[j].as_str());
            let ghost prev = strs(out@);
            out.push(s);
            assert(strs(segs@).take(j + 1) =~= strs(segs@).take(j as int).push(segs@[j as int]@));
            assert(strs(out@) =~= prev.push(s@));
            assert(strs(out@) =~= before + strs(segs@).take(j + 1));
            j += 1;
        }
        proof {
            assert(strs(segs@).take(segs@.len() as int) =~= strs(segs@));
            let pv = strs(parts@);
            assert(pv.take(i + 1).drop_last() =~= pv.take(i as int));
            assert(pv.take(i + 1).last() == parts@[i as int]@);
        }
        i += 1;
    }
    assert(strs(parts@).take(parts@.len() as int) =~= strs(parts@));
    out
}

fn is_token(segment: &str) -> (r: bool)
    ensures
        r == is_path_token(segment@),
{
    let v = to_chars(segment);
    if v.len() == 0 {
        return false;
    }
    let mut k: usize = 0;
    while k < v.len()
        invariant
            v@ == segment@,
            k <= v@.len(),
            forall|m: int| 0 <= m < k ==> is_segment_char(#[trigger] v@[m]),
        decreases v.len() - k,
    {
        let c = v[k];
        if !(crate::text::is_ascii_alnum(c) || c == '.' || c == '_' || c == '-') {
            return false;
        }
        k += 1;
    }
    true
}

/// Segments joined with `.`.
pub fn join_segments(segs: &Vec<String>) -> (r: String)
    ensures
        r@ == join_dot(strs(segs@)),
{
    let mut s = String::new();
    let mut k: usize = 0;
    while k < segs.len()
        invariant
            k <= segs@.len(),
            s@ == join_dot(strs(segs@).take(k as int)),
        decreases segs.len() - k,
    {
        if k > 0 {
            push_char(&mut s, '.');
        }
        push_str(&mut s, segs[k].as_str());
        proof {
            let w = strs(segs@).take(k + 1);
            assert(w.drop_last() =~= strs(segs@).take(k as int));
            if k == 0 {
                assert(join_dot(strs(segs@).take(0)) =~= Seq::<char>::empty());
            }
        }
        k += 1;
    }
    assert(strs(segs@).take(segs@.len() as int) =~= strs(segs@));
    s
}

/// Join path parts into a dotted tool path. Fails on empty or illegal segments.
pub fn build_tool_path(parts: &[String]) -> (r: Result<String, ToolPathError>)
    ensures
        match r {
            Ok(p) => spec_build(strs(parts@)) == Ok::<Seq<char>, ToolPathError>(p@),
            Err(e) => spec_build(strs(parts@)) == Err::<Seq<char>, ToolPathError>(e),
        },
{
    let segments = to_segments(parts);
    if segments.len() == 0 {
        return Err(ToolPathError::Empty);
    }
    let mut k: usize = 0;
    while k < segments.len()
        invariant
            k <= segments@.len(),
            segments@.len() > 0,
            strs(segments@) == spec_segments(strs(parts@)),
            forall|m: int| 0 <= m < k ==> is_path_token(#[trigger] strs(segments@)[m]),
        decreases segments.len() - k,
    {
        if !is_token(segments[k].as_str()) {
            assert(!is_path_token(strs(segments@)[k as int]));
            return Err(ToolPathError::BadSegment);
        }
        k += 1;
    }
    Ok(join_segments(&segments))
}

// ---------------------------------------------------------------- browsing

/// One child under a path prefix.
#[derive(Clone, Debug, PartialEq, Eq)]
pub struct ToolPathChild {
    /// Next segment.
    pub segment: String,
    /// A tool exists at prefix+segment.
    pub invokable: bool,
    /// Deeper tools exist.
    pub has_children: bool,
    /// How many tools sit under this child.
    pub tool_count: usize,
}

/// Result of browsing a prefix against a catalog of paths.
#[derive(Clone, Debug, PartialEq, Eq)]
pub struct ToolPathInspection {
    /// Normalized prefix.
    pub prefix_segments: Vec<String>,
    /// Exact tool path when the prefix is itself a tool.
    pub exact_path: Option<String>,
    /// Tools under the prefix.
    pub matching_tool_count: usize,
    /// Child segments, in ascending order.
    pub children: Vec<ToolPathChild>,
}

/// Whether a tool's segments lie under `prefix` (or are it).
pub open spec fn path_matches(prefix: Seq<Seq<char>>, segs: Seq<Seq<char>>) -> bool {
    segs.len() > 0 && prefix.len() <= segs.len() && segs.take(prefix.len() as int) == prefix
}

/// Whether a tool's segments lie under `prefix` followed by `c`.
pub open spec fn under_child(prefix: Seq<Seq<char>>, segs: Seq<Seq<char>>, c: Seq<char>) -> bool {
    path_matches(prefix, segs) && segs.len() > prefix.len() && segs[prefix.len() as int] == c
}

/// How many of the first `n` paths lie under `prefix`.
pub open spec fn match_count(ps: Seq<Seq<char>>, prefix: Seq<Seq<char>>, n: int) -> nat
    decreases n,
{
    if n <= 0 {
        0
    } else {
        match_count(ps, prefix, n - 1) + if path_matches(prefix, part_segments(ps[n - 1])) {
            1nat
        } else {
            0nat
        }
    }
}

/// The first of the first `n` paths whose segments are exactly `prefix`, joined.
pub open spec fn first_exact(ps: Seq<Seq<char>>, prefix: Seq<Seq<char>>, n: int) -> Option<
    Seq<char>,
>
    decreases n,
{
    if n <= 0 {
        None
    } else {
        match first_exact(ps, prefix, n - 1) {
            Some(x) => Some(x),
            None => {
                let s = part_segments(ps[n - 1]);
                if path_matches(prefix, s) && s.len() == prefix.len() {
                    Some(join_dot(s))
                } else {
                    None
                }
            },
        }
    }
}

/// How many of the first `n` paths lie under child `c`.
pub open spec fn child_count(ps: Seq<Seq<char>>, prefix: Seq<Seq<char>>, c: Seq<char>, n: int) -> nat
    decreases n,
{
    if n <= 0 {
        0
    } else {
        child_count(ps, prefix, c, n - 1) + if under_child(prefix, part_segments(ps[n - 1]), c) {
            1nat
        } else {
            0nat
        }
    }
}

/// Whether one of the first `n` paths is a tool directly at child `c`.
pub open spec fn child_leaf(ps: Seq<Seq<char>>, prefix: Seq<Seq<char>>, c: Seq<char>, n: int) -> bool
    decreases n,
{
    if n <= 0 {
        false
    } else {
        let s = part_segments(ps[n - 1]);
        child_leaf(ps, prefix, c, n - 1) || (under_child(prefix, s, c) && s.len() == prefix.len()
            + 1)
    }
}

/// Whether one of the first `n` paths lies deeper under child `c`.
pub open spec fn child_deep(ps: Seq<Seq<char>>, prefix: Seq<Seq<char>>, c: Seq<char>, n: int) -> bool
    decreases n,
{
    if n <= 0 {
        false
    } else {
        let s = part_segments(ps[n - 1]);
        child_deep(ps, prefix, c, n - 1) || (under_child(prefix, s, c) && s.len() > prefix.len()
            + 1)
    }
}

/// The children listing of the first `n` paths: ascending by segment, one per child segment
/// that some path under the prefix continues with, each with its counts and flags.
pub open spec fn children_ok(
    cs: Seq<ToolPathChild>,
    ps: Seq<Seq<char>>,
    prefix: Seq<Seq<char>>,
    n: int,
) -> bool {
    &&& forall|i: int, j: int|
        0 <= i < j < cs.len() ==> lex_lt(#[trigger] cs[i].segment@, #[trigger] cs[j].segment@)
    &&& forall|k: int|
        0 <= k < cs.len() ==> {
            let c = #[trigger] cs[k].segment@;
            &&& cs[k].tool_count == child_count(ps, prefix, c, n)
            &&& cs[k].tool_count > 0
            &&& cs[k].invokable == child_leaf(ps, prefix, c, n)
            &&& cs[k].has_children == child_deep(ps, prefix, c, n)
        }
    &&& forall|m: int|
        0 <= m < n && path_matches(prefix, #[trigger] part_segments(ps[m]))
            && part_segments(ps[m]).len() > prefix.len() ==> exists|k: int|
            0 <= k < cs.len() && cs[k].segment@ == part_segments(ps[m])[prefix.len() as int]
}

/// An optional string as plain characters.
pub open spec fn opt_text(o: Option<String>) -> Option<Seq<char>> {
    match o {
        Some(s) => Some(s@),
        None => None,
    }
}

/// A child under child `c` of the first `n` paths has a positive count.
proof fn lemma_child_count_positive(
    ps: Seq<Seq<char>>,
    prefix: Seq<Seq<char>>,
    c: Seq<char>,
    n: int,
    m: int,
)
    requires
        0 <= m < n <= ps.len(),
        under_child(prefix, part_segments(ps[m]), c),
    ensures
        child_count(ps, prefix, c, n) > 0,
    decreases n,
{
    if m < n - 1 {
        lemma_child_count_positive(ps, prefix, c, n - 1, m);
    }
}

/// Browse `tool_paths` under `raw_prefix_parts`.
#[verifier::rlimit(60)]
pub fn inspect_tool_path(tool_paths: &[String], raw_prefix_parts: &[String]) -> (r:
    ToolPathInspection)
    ensures
        strs(r.prefix_segments@) == spec_segments(strs(raw_prefix_parts@)),
        r.matching_tool_count == match_count(
            strs(tool_paths@),
            spec_segments(strs(raw_prefix_parts@)),
            tool_paths@.len() as int,
        ),
        opt_text(r.exact_path) == first_exact(
            strs(tool_paths@),
            spec_segments(strs(raw_prefix_parts@)),
            tool_paths@.len() as int,
        ),
        children_ok(
            r.children@,
            strs(tool_paths@),
            spec_segments(strs(raw_prefix_parts@)),
            tool_paths@.len() as int,
        ),
{
    let prefix_segments = if raw_prefix_parts.len() == 0 {
        let none: Vec<String> = Vec::new();
        proof {
            assert(strs(raw_prefix_parts@) =~= Seq::<Seq<char>>::empty());
            assert(strs(none@) =~= Seq::<Seq<char>>::empty());
        }
        none
    } else {
        to_segments(raw_prefix_parts)
    };
    let ghost ps = strs(tool_paths@);
    let ghost pre = strs(prefix_segments@);
    let plen = prefix_segments.len();
    let mut children: Vec<ToolPathChild> = Vec::new();
    let mut exact_path: Option<String> = None;
    let mut matching_tool_count: usize = 0;
    let mut i: usize = 0;
    while i < tool_paths.len()
        invariant
            i <= tool_paths@.len(),
            ps == strs(tool_paths@),
            pre == strs(prefix_segments@),
            plen == pre.len(),
            matching_tool_count == match_count(ps, pre, i as int),
            matching_tool_count <= i,
            opt_text(exact_path) == first_exact(ps, pre, i as int),
            children_ok(children@, ps, pre, i as int),
            forall|k: int| 0 <= k < children@.len() ==> #[trigger] children@[k].tool_count <= i,
        decreases tool_paths.len() - i,
    {
        let segs = path_segments(tool_paths[i].as_str());
        let ghost s = strs(segs@);
        assert(ps[i as int] == tool_paths@[i as int]@);
        let matched = segs.len() > 0 && is_prefix(&prefix_segments, &segs);
        if !matched {
            assert(children_ok(children@, ps, pre, i + 1));
            i += 1;
            continue ;
        }
        matching_tool_count += 1;
        if segs.len() == plen {
            if exact_path.is_none() {
                exact_path = Some(join_segments(&segs));
            }
            assert(children_ok(children@, ps, pre, i + 1));
            i += 1;
            continue ;
        }
        let child: &String = &segs[plen];
        assert(child@ == s[pre.len() as int]);
        let leaf = segs.len() == plen + 1;
        let deep = segs.len() > plen + 1;
        let mut k: usize = 0;
        while k < children.len() && lex_order_str(children[k].segment.as_str(), child.as_str()) < 0
            invariant
                k <= children@.len(),
                forall|j: int| 0 <= j < k ==> lex_lt(#[trigger] children@[j].segment@, child@),
            decreases children.len() - k,
        {
            proof {
                lemma_lex_order_basic(children@[k as int].segment@, child@);
            }
            k += 1;
        }
        let ghost old_cs = children@;
        if k < children.len() && str_eq(children[k].segment.as_str(), child.as_str()) {
            let updated = ToolPathChild {
                segment: copy_str(children[k].segment.as_str()),
                invokable: children[k].invokable || leaf,
                has_children: children[k].has_children || deep,
                tool_count: children[k].tool_count + 1,
            };
            children.set(k, updated);
            proof {
                lemma_children_update(old_cs, children@, ps, pre, i as int, k as int, child@);
            }
        } else {
            proof {
                if k < children@.len() {
                    lemma_lex_order_basic(children@[k as int].segment@, child@);
                }
            }
            let fresh = ToolPathChild {
                segment: copy_str(child.as_str()),
                invokable: leaf,
                has_children: deep,
                tool_count: 1,
            };
            children.insert(k, fresh);
            proof {
                lemma_children_insert(old_cs, children@, ps, pre, i as int, k as int, child@);
            }
        }
        assert(children_ok(children@, ps, pre, i + 1));
        i += 1;
    }
    ToolPathInspection { prefix_segments, exact_path, matching_tool_count, children }
}

/// Counting one more path under an existing child keeps the listing right.
proof fn lemma_children_update(
    old_cs: Seq<ToolPathChild>,
    cs: Seq<ToolPathChild>,
    ps: Seq<Seq<char>>,
    pre: Seq<Seq<char>>,
    i: int,
    k: int,
    child: Seq<char>,
)
    requires
        0 <= i < ps.len(),
        children_ok(old_cs, ps, pre, i),
        under_child(pre, part_segments(ps[i]), child),
        0 <= k < old_cs.len(),
        old_cs[k].segment@ == child,
        forall|j: int| 0 <= j < k ==> lex_lt(#[trigger] old_cs[j].segment@, child),
        cs == old_cs.update(k, cs[k]),
        cs[k].segment@ == child,
        cs[k].tool_count == old_cs[k].tool_count + 1,
        cs[k].invokable == (old_cs[k].invokable || part_segments(ps[i]).len() == pre.len() + 1),
        cs[k].has_children == (old_cs[k].has_children || part_segments(ps[i]).len() > pre.len() + 1),
    ensures
        children_ok(cs, ps, pre, i + 1),
{
    let child_at = part_segments(ps[i])[pre.len() as int];
    assert(child_at == child);
    assert forall|a: int, b: int| 0 <= a < b < cs.len() implies lex_lt(
        #[trigger] cs[a].segment@,
        #[trigger] cs[b].segment@,
    ) by {
        assert(old_cs[a].segment@ == cs[a].segment@);
        assert(old_cs[b].segment@ == cs[b].segment@);
    }
    assert forall|q: int| 0 <= q < cs.len() implies {
        let c = #[trigger] cs[q].segment@;
        &&& cs[q].tool_count == child_count(ps, pre, c, i + 1)
        &&& cs[q].tool_count > 0
        &&& cs[q].invokable == child_leaf(ps, pre, c, i + 1)
        &&& cs[q].has_children == child_deep(ps, pre, c, i + 1)
    } by {
        if q != k {
            assert(old_cs[q].segment@ != child) by {
                if q < k {
                    lemma_lex_order_basic(old_cs[q].segment@, child);
                } else {
                    lemma_lex_order_basic(old_cs[k].segment@, old_cs[q].segment@);
                }
            }
            assert(cs[q] == old_cs[q]);
        }
    }
    assert forall|m: int|
        0 <= m < i + 1 && path_matches(pre, #[trigger] part_segments(ps[m]))
            && part_segments(ps[m]).len() > pre.len() implies exists|q: int|
        0 <= q < cs.len() && cs[q].segment@ == part_segments(ps[m])[pre.len() as int] by {
        if m == i {
            assert(cs[k].segment@ == child);
        } else {
            let q = choose|q: int|
                0 <= q < old_cs.len() && old_cs[q].segment@ == part_segments(
                    ps[m],
                )[pre.len() as int];
            assert(cs[q].segment@ == old_cs[q].segment@);
        }
    }
    assert(children_ok(cs, ps, pre, i + 1));
}

/// A path under a new child, inserted at its place in the order, keeps the listing right.
proof fn lemma_children_insert(
    old_cs: Seq<ToolPathChild>,
    cs: Seq<ToolPathChild>,
    ps: Seq<Seq<char>>,
    pre: Seq<Seq<char>>,
    i: int,
    k: int,
    child: Seq<char>,
)
    requires
        0 <= i < ps.len(),
        children_ok(old_cs, ps, pre, i),
        under_child(pre, part_segments(ps[i]), child),
        0 <= k <= old_cs.len(),
        forall|j: int| 0 <= j < k ==> lex_lt(#[trigger] old_cs[j].segment@, child),
        k < old_cs.len() ==> lex_order(old_cs[k].segment@, child) == 1,
        cs == old_cs.insert(k, cs[k]),
        cs[k].segment@ == child,
        cs[k].tool_count == 1,
        cs[k].invokable == (part_segments(ps[i]).len() == pre.len() + 1),
        cs[k].has_children == (part_segments(ps[i]).len() > pre.len() + 1),
    ensures
        children_ok(cs, ps, pre, i + 1),
{
    if k < old_cs.len() {
        lemma_lex_order_basic(old_cs[k].segment@, child);
    }
    assert forall|a: int, b: int| 0 <= a < b < cs.len() implies lex_lt(
        #[trigger] cs[a].segment@,
        #[trigger] cs[b].segment@,
    ) by {
        if b < k {
            assert(cs[a] == old_cs[a] && cs[b] == old_cs[b]);
        } else if b == k {
            assert(cs[a] == old_cs[a]);
        } else if a == k {
            assert(cs[b] == old_cs[b - 1]);
            if b - 1 > k {
                lemma_lex_order_trans(child, old_cs[k].segment@, old_cs[b - 1].segment@);
            }
        } else if a < k {
            assert(cs[a] == old_cs[a] && cs[b] == old_cs[b - 1]);
        } else {
            assert(cs[a] == old_cs[a - 1] && cs[b] == old_cs[b - 1]);
        }
    }
    assert forall|q: int| 0 <= q < cs.len() implies {
        let c = #[trigger] cs[q].segment@;
        &&& cs[q].tool_count == child_count(ps, pre, c, i + 1)
        &&& cs[q].tool_count > 0
        &&& cs[q].invokable == child_leaf(ps, pre, c, i + 1)
        &&& cs[q].has_children == child_deep(ps, pre, c, i + 1)
    } by {
        if q == k {
            assert(cs[q].segment@ == child);
            assert(child_count(ps, pre, child, i as int) == 0) by {
                if child_count(ps, pre, child, i as int) > 0 {
                    lemma_child_witness(ps, pre, child, i as int);
                    let m = choose|m: int|
                        0 <= m < i && under_child(pre, part_segments(ps[m]), child);
                    let w = choose|w: int|
                        0 <= w < old_cs.len() && old_cs[w].segment@ == part_segments(
                            ps[m],
                        )[pre.len() as int];
                    if w < k {
                        lemma_lex_order_basic(old_cs[w].segment@, child);
                    } else {
                        lemma_lex_order_basic(old_cs[k].segment@, child);
                        if w > k {
                            lemma_lex_order_trans(
                                old_cs[k].segment@,
                                old_cs[w].segment@,
                                child,
                            );
                            lemma_lex_order_basic(old_cs[k].segment@, child);
                        }
                    }
                }
            }
            lemma_leaf_deep_none(ps, pre, child, i as int);
        } else {
            let oq = if q < k {
                q
            } else {
                q - 1
            };
            assert(cs[q] == old_cs[oq]);
            assert(old_cs[oq].segment@ != child) by {
                if oq < k {
                    lemma_lex_order_basic(old_cs[oq].segment@, child);
                } else {
                    lemma_lex_order_basic(old_cs[k].segment@, child);
                    if oq > k {
                        lemma_lex_order_trans(
                            child,
                            old_cs[k].segment@,
                            old_cs[oq].segment@,
                        );
                        lemma_lex_order_basic(child, old_cs[oq].segment@);
                    }
                }
            }
        }
    }
    assert forall|m: int|
        0 <= m < i + 1 && path_matches(pre, #[trigger] part_segments(ps[m]))
            && part_segments(ps[m]).len() > pre.len() implies exists|q: int|
        0 <= q < cs.len() && cs[q].segment@ == part_segments(ps[m])[pre.len() as int] by {
        if m == i {
            assert(cs[k].segment@ == child);
        } else {
            let w = choose|w: int|
                0 <= w < old_cs.len() && old_cs[w].segment@ == part_segments(
                    ps[m],
                )[pre.len() as int];
            if w < k {
                assert(cs[w] == old_cs[w]);
            } else {
                assert(cs[w + 1] == old_cs[w]);
            }
        }
    }
    assert(children_ok(cs, ps, pre, i + 1));
}

/// A positive child count has a witness path.
proof fn lemma_child_witness(ps: Seq<Seq<char>>, prefix: Seq<Seq<char>>, c: Seq<char>, n: int)
    requires
        child_count(ps, prefix, c, n) > 0,
    ensures
        exists|m: int| 0 <= m < n && under_child(prefix, part_segments(ps[m]), c),
    decreases n,
{
    if n > 0 && !under_child(prefix, part_segments(ps[n - 1]), c) {
        lemma_child_witness(ps, prefix, c, n - 1);
    }
}

/// With no path under child `c`, it is neither a leaf nor deep.
proof fn lemma_leaf_deep_none(ps: Seq<Seq<char>>, prefix: Seq<Seq<char>>, c: Seq<char>, n: int)
    requires
        child_count(ps, prefix, c, n) == 0,
    ensures
        !child_leaf(ps, prefix, c, n),
        !child_deep(ps, prefix, c, n),
    decreases n,
{
    if n > 0 {
        lemma_leaf_deep_none(ps, prefix, c, n - 1);
    }
}

fn is_prefix(prefix: &Vec<String>, path: &Vec<String>) -> (r: bool)
    ensures
        r == (prefix@.len() <= path@.len() && strs(path@).take(prefix@.len() as int) == strs(
            prefix@,
        )),
{
    if prefix.len() > path.len() {
        return false;
    }
    let mut k: usize = 0;
    while k < prefix.len()
        invariant
            prefix@.len() <= path@.len(),
            k <= prefix@.len(),
            forall|m: int| 0 <= m < k ==> #[trigger] path@[m]@ == prefix@[m]@,
        decreases prefix.len() - k,
    {
        if !str_eq(prefix[k].as_str(), path[k].as_str()) {
            assert(strs(path@).take(prefix@.len() as int)[k as int] != strs(prefix@)[k as int]);
            return false;
        }
        k += 1;
    }
    assert(strs(path@).take(prefix@.len() as int) =~= strs(prefix@));
    true
}

} // verus!

verus! {

// ---------------------------------------------------------------- invocation

/// Parsed `executor call` invocation.
#[derive(Debug, PartialEq, Eq)]
pub struct Invocation {
    /// Dotted path.
    pub path: String,
    /// JSON object arguments, as object members.
    pub args: Vec<(String, JsonValue)>,
}

/// The last part, trimmed, when there is one.
pub open spec fn last_trimmed(parts: Seq<Seq<char>>) -> Option<Seq<char>> {
    if parts.len() == 0 {
        None
    } else {
        Some(spec_trim(parts.last()))
    }
}

/// Whether the last part names an input file (`@path`).
pub open spec fn names_file(parts: Seq<Seq<char>>) -> bool {
    match last_trimmed(parts) {
        Some(l) => l.len() > 0 && l[0] == '@',
        None => false,
    }
}

/// The file path after `@`.
pub open spec fn file_path(parts: Seq<Seq<char>>) -> Seq<char> {
    match last_trimmed(parts) {
        Some(l) => l.skip(1),
        None => Seq::empty(),
    }
}

/// Where the tool input comes from: `Ok(Some(path))` for `@path`, `Ok(None)` when the input,
/// if any, is inline, `Err(EmptyFileRef)` for a bare `@`.
pub open spec fn spec_input_file(parts: Seq<Seq<char>>) -> Result<Option<Seq<char>>, ToolPathError> {
    if !names_file(parts) {
        Ok(None)
    } else if file_path(parts).len() == 0 {
        Err(ToolPathError::EmptyFileRef)
    } else {
        Ok(Some(file_path(parts)))
    }
}

/// The arguments a JSON text gives: the members of an object; an error names what went
/// wrong by its message.
pub open spec fn spec_object_args(text: Seq<char>) -> Result<Seq<(String, JsonValue)>, Seq<char>> {
    match json_parse(text) {
        Err(m) => Err("invalid JSON arguments: "@ + m),
        Ok(JsonValue::Object(members)) => Ok(members@),
        Ok(_) => Err(ToolPathError::ArgsNotObject.spec_message()),
    }
}

/// What `resolve_invocation` returns for `parts`, given the text of the input file when the
/// last part names one. An error is given by its message, which tells the variants apart.
pub open spec fn spec_resolve(parts: Seq<Seq<char>>, file_text: Option<Seq<char>>) -> Result<
    (Seq<char>, Seq<(String, JsonValue)>),
    Seq<char>,
> {
    let is_file = names_file(parts);
    if is_file && file_path(parts).len() == 0 {
        Err(ToolPathError::EmptyFileRef.spec_message())
    } else {
        let json_text = if is_file {
            match file_text {
                Some(t) => spec_trim(t),
                None => Seq::empty(),
            }
        } else {
            match last_trimmed(parts) {
                Some(l) => l,
                None => Seq::empty(),
            }
        };
        let has_json = json_text.len() > 0 && json_text[0] == '{';
        if is_file && !has_json {
            Err("tool input file '"@ + file_path(parts)
                + "' must contain a JSON object starting with '{'"@)
        } else {
            let path_parts = if is_file || has_json {
                parts.drop_last()
            } else {
                parts
            };
            if spec_has_flag(path_parts) {
                Err(ToolPathError::Flags.spec_message())
            } else {
                let args: Result<Seq<(String, JsonValue)>, Seq<char>> = if has_json {
                    spec_object_args(json_text)
                } else {
                    Ok(Seq::empty())
                };
                match args {
                    Err(e) => Err(e),
                    Ok(a) => match spec_build(path_parts) {
                        Err(e) => Err(e.spec_message()),
                        Ok(p) => Ok((p, a)),
                    },
                }
            }
        }
    }
}

/// Where the tool input of `raw_path_parts` comes from: the path of an `@file`, or `None`
/// when it is inline or absent.
pub fn invocation_input_file(raw_path_parts: &[String]) -> (r: Result<Option<String>, ToolPathError>)
    ensures
        match spec_input_file(strs(raw_path_parts@)) {
            Ok(Some(p)) => r matches Ok(Some(q)) && q@ == p,
            Ok(None) => r matches Ok(None),
            Err(e) => r == Err::<Option<String>, ToolPathError>(e),
        },
{
    if raw_path_parts.len() == 0 {
        return Ok(None);
    }
    let last = crate::text::trim(raw_path_parts[raw_path_parts.len() - 1].as_str());
    assert(strs(raw_path_parts@).last() == raw_path_parts@[raw_path_parts@.len() - 1]@);
    let lv = to_chars(last.as_str());
    if !(lv.len() > 0 && lv[0] == '@') {
        return Ok(None);
    }
    if lv.len() == 1 {
        return Err(ToolPathError::EmptyFileRef);
    }
    let path = crate::text::from_char_range(&lv, 1, lv.len());
    assert(path@ =~= lv@.skip(1));
    Ok(Some(path))
}

/// Split path parts and a trailing JSON object / `@file`. `file_text` is the content of the
/// input file when the last part names one (see `invocation_input_file`).
pub fn resolve_invocation(raw_path_parts: &[String], file_text: Option<&str>) -> (r: Result<
    Invocation,
    ToolPathError,
>)
    ensures
        match spec_resolve(
            strs(raw_path_parts@),
            match file_text {
                Some(t) => Some(t@),
                None => None,
            },
        ) {
            Ok((p, a)) => r matches Ok(inv) && inv.path@ == p && inv.args@ == a,
            Err(msg) => r matches Err(e) && e.spec_message() == msg,
        },
{
    let ghost parts = strs(raw_path_parts@);
    let n = raw_path_parts.len();
    let last: Option<Vec<char>> = if n == 0 {
        None
    } else {
        let t = crate::text::trim(raw_path_parts[n - 1].as_str());
        assert(parts.last() == raw_path_parts@[n - 1]@);
        Some(to_chars(t.as_str()))
    };
    let is_file = match &last {
        Some(l) => l.len() > 0 && l[0] == '@',
        None => false,
    };
    if is_file {
        let l = last.as_ref().unwrap();
        if l.len() == 1 {
            assert(file_path(parts).len() == 0);
            return Err(ToolPathError::EmptyFileRef);
        }
    }
    let json_text: Vec<char> = if is_file {
        match file_text {
            Some(t) => {
                let v = to_chars(t);
                trim_vec(&v)
            },
            None => Vec::new(),
        }
    } else {
        match &last {
            Some(l) => crate::text::slice_vec(l, 0, l.len()),
            None => Vec::new(),
        }
    };
    proof {
        match &last {
            Some(l) => {
                assert(l@.subrange(0, l@.len() as int) =~= l@);
            },
            None => {},
        }
    }
    let has_json = json_text.len() > 0 && json_text[0] == '{';
    if is_file && !has_json {
        let l = last.as_ref().unwrap();
        let path = crate::text::from_char_range(l, 1, l.len());
        assert(path@ =~= file_path(parts));
        return Err(ToolPathError::FileNotObject(path));
    }
    let keep = if is_file || has_json {
        n - 1
    } else {
        n
    };
    let path_parts = copy_prefix(raw_path_parts, keep);
    let ghost pp = strs(path_parts@);
    proof {
        if is_file || has_json {
            assert(parts.take(keep as int) =~= parts.drop_last());
        } else {
            assert(parts.take(keep as int) =~= parts);
        }
    }
    if has_flag(&path_parts) {
        return Err(ToolPathError::Flags);
    }
    let args: Vec<(String, JsonValue)> = if has_json {
        let text = from_chars(&json_text);
        match parse_json(text.as_str()) {
            Err(m) => {
                return Err(ToolPathError::InvalidJson(m));
            },
            Ok(JsonValue::Object(members)) => members,
            Ok(_) => {
                return Err(ToolPathError::ArgsNotObject);
            },
        }
    } else {
        Vec::new()
    };
    let path = match build_tool_path(&path_parts) {
        Ok(p) => p,
        Err(e) => {
            return Err(e);
        },
    };
    Ok(Invocation { path, args })
}

/// Whether some part, trimmed, starts with `-`.
pub open spec fn spec_has_flag(parts: Seq<Seq<char>>) -> bool {
    exists|i: int|
        0 <= i < parts.len() && #[trigger] spec_trim(parts[i]).len() > 0 && spec_trim(parts[i])[0]
            == '-'
}

fn has_flag(parts: &Vec<String>) -> (r: bool)
    ensures
        r == spec_has_flag(strs(parts@)),
{
    let ghost pp = strs(parts@);
    let mut f: usize = 0;
    while f < parts.len()
        invariant
            pp == strs(parts@),
            f <= pp.len(),
            forall|i: int|
                0 <= i < f ==> !(#[trigger] spec_trim(pp[i]).len() > 0 && spec_trim(pp[i])[0]
                    == '-'),
        decreases parts.len() - f,
    {
        let t = crate::text::trim(parts[f].as_str());
        let tv = to_chars(t.as_str());
        assert(pp[f as int] == parts@[f as int]@);
        if tv.len() > 0 && tv[0] == '-' {
            return true;
        }
        f += 1;
    }
    false
}

/// Copies of the first `keep` strings.
fn copy_prefix(v: &[String], keep: usize) -> (r: Vec<String>)
    requires
        keep <= v@.len(),
    ensures
        strs(r@) == strs(v@).take(keep as int),
{
    let mut out: Vec<String> = Vec::new();
    let mut k: usize = 0;
    while k < keep
        invariant
            keep <= v@.len(),
            k <= keep,
            strs(out@) == strs(v@).take(k as int),
        decreases keep - k,
    {
        let part = copy_str(v[k].as_str());
        let ghost prev = strs(out@);
        out.push(part);
        assert(strs(out@) =~= prev.push(part@));
        assert(strs(v@).take(k + 1) =~= strs(v@).take(k as int).push(strs(v@)[k as int]));
        k += 1;
    }
    out
}

/// Compile a single `call` into the code-mode subset (`return await tools[path](args)`).
pub fn compile_call(path: &str, args: &JsonValue) -> (r: String)
    ensures
        numbers_ok(*args) ==> r@ == "return await tools["@ + json_quoted(path@) + "]("@ + json_text(*args) + ");"@,
        !numbers_ok(*args) ==> r@ == "return await tools["@ + json_quoted(path@) + "]({});"@,
{
    let quoted = match json_quote(path) {
        Some(q) => q,
        None => {
            copy_str("\"\"")
        },
    };
    let written = match write_json(args) {
        Some(t) => t,
        None => copy_str("{}"),
    };
    let mut s = copy_str("return await tools[");
    push_str(&mut s, quoted.as_str());
    push_str(&mut s, "](");
    push_str(&mut s, written.as_str());
    push_str(&mut s, ");");
    assert(s@ == "return await tools["@ + quoted@ + "]("@ + written@ + ");"@);
    proof {
        reveal_strlit("{}");
        reveal_strlit("](");
        reveal_strlit(");");
        reveal_strlit("]({});");
        assert("]("@ + "{}"@ + ");"@ =~= "]({});"@);
        assert("return await tools["@ + quoted@ + "]("@ + "{}"@ + ");"@ =~= "return await tools["@ + quoted@ + "]({});"@);
    }
    s
}

} // verus!
