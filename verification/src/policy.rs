//! Tool-policy pattern matching and owner-restrictive resolution.

use vstd::prelude::*;
use crate::id::PolicyId;
use crate::owner::{Owner, spec_outer_rank};
use crate::position::{generate_key_between, spec_key_between};
use crate::text::{
    chars_eq, contains_char, copy_str, has_at, lex_order, lex_order_str, spec_has_at, split_chars,
    split_on, to_chars,
};

verus! {

/// Gate applied when a pattern matches a tool id or address.
#[derive(Clone, Copy, Debug, PartialEq, Eq, Hash, Structural)]
pub enum PolicyAction {
    /// Always allowed.
    Approve,
    /// Pause until a human accepts.
    RequireApproval,
    /// Reject. Outer `block` cannot be weakened inward.
    Block,
}

/// Higher is more restrictive.
pub open spec fn spec_rank(a: PolicyAction) -> u8 {
    match a {
        PolicyAction::Approve => 1,
        PolicyAction::RequireApproval => 2,
        PolicyAction::Block => 3,
    }
}

impl PolicyAction {
    /// Higher is more restrictive.
    pub fn restriction_rank(self) -> (r: u8)
        ensures
            r == spec_rank(self),
    {
        match self {
            PolicyAction::Approve => 1,
            PolicyAction::RequireApproval => 2,
            PolicyAction::Block => 3,
        }
    }

    /// Pick the more restrictive of two actions.
    pub fn tighten(self, other: Self) -> (r: Self)
        ensures
            r == (if spec_rank(other) > spec_rank(self) { other } else { self }),
    {
        if other.restriction_rank() > self.restriction_rank() {
            other
        } else {
            self
        }
    }
}

/// Every segment of a pattern other than a lone `*` is non-empty and free of `*`.
pub open spec fn segments_ok(segs: Seq<Seq<char>>) -> bool {
    forall|k: int|
        0 <= k < segs.len() ==> #[trigger] segs[k].len() > 0 && (segs[k] == "*"@ || !segs[k].contains(
            '*',
        ))
}

/// The policy grammar: bare `*`, or dotted non-empty segments, each a literal without
/// `*` or a lone `*`, not starting with `*`.
pub open spec fn spec_valid_pattern(p: Seq<char>) -> bool {
    p == "*"@ || (p.len() > 0 && p[0] != '*' && segments_ok(split_on(p, '.')))
}

/// Segment-wise match: every pattern segment but the last is `*` or equal to the tool's
/// segment there; a last `*` matches the rest (possibly nothing), a last literal must be
/// the tool's final segment.
pub open spec fn spec_match_segments(ps: Seq<Seq<char>>, ts: Seq<Seq<char>>) -> bool {
    let n = ps.len();
    &&& n >= 1
    &&& forall|i: int|
        0 <= i < n - 1 ==> i < ts.len() && (#[trigger] ps[i] == "*"@ || ps[i] == ts[i])
    &&& if ps[n - 1] == "*"@ {
        ts.len() >= n - 1
    } else {
        ts.len() == n && ps[n - 1] == ts[n - 1]
    }
}

/// Whether `pattern` matches the tool id or address `tool`.
pub open spec fn spec_match(pattern: Seq<char>, tool: Seq<char>) -> bool {
    spec_match_segments(split_on(pattern, '.'), split_on(tool, '.'))
}

/// Grammar check. See crate docs for the pattern language.
pub fn is_valid_pattern(pattern: &str) -> (r: bool)
    ensures
        r == spec_valid_pattern(pattern@),
{
    let p = to_chars(pattern);
    let star = to_chars("*");
    if chars_eq(&p, &star) {
        return true;
    }
    if p.len() == 0 || p[0] == '*' {
        return false;
    }
    let segs = split_chars(&p, '.');
    let mut k: usize = 0;
    while k < segs.len()
        invariant
            segs@.len() == split_on(p@, '.').len(),
            forall|j: int| 0 <= j < segs@.len() ==> #[trigger] segs@[j]@ == split_on(p@, '.')[j],
            star@ == "*"@,
            p@ == pattern@,
            p@ != "*"@,
            k <= segs@.len(),
            forall|j: int|
                0 <= j < k ==> #[trigger] split_on(p@, '.')[j].len() > 0 && (split_on(p@, '.')[j]
                    == "*"@ || !split_on(p@, '.')[j].contains('*')),
        decreases segs.len() - k,
    {
        let seg = &segs[k];
        assert(seg@ == split_on(p@, '.')[k as int]);
        if seg.len() == 0 {
            assert(split_on(p@, '.')[k as int].len() == 0);
            assert(!segments_ok(split_on(p@, '.')));
            return false;
        }
        if !chars_eq(seg, &star) && contains_char(seg, '*') {
            assert(split_on(p@, '.')[k as int] != "*"@);
            assert(split_on(p@, '.')[k as int].contains('*'));
            assert(!segments_ok(split_on(p@, '.')));
            return false;
        }
        k += 1;
    }
    true
}

/// Match `pattern` against a tool id or address.
pub fn match_pattern(pattern: &str, tool_id: &str) -> (r: bool)
    ensures
        r == spec_match(pattern@, tool_id@),
{
    let ps = split_chars(&to_chars(pattern), '.');
    let ts = split_chars(&to_chars(tool_id), '.');
    let ghost gps = split_on(pattern@, '.');
    let ghost gts = split_on(tool_id@, '.');
    proof {
        crate::text::lemma_split_nonempty(pattern@, '.');
    }
    let star = to_chars("*");
    let n = ps.len();
    let mut i: usize = 0;
    while i < n
        invariant
            n == ps@.len(),
            n == gps.len(),
            gps == split_on(pattern@, '.'),
            gts == split_on(tool_id@, '.'),
            n >= 1,
            ts@.len() == gts.len(),
            forall|j: int| 0 <= j < ps@.len() ==> #[trigger] ps@[j]@ == gps[j],
            forall|j: int| 0 <= j < ts@.len() ==> #[trigger] ts@[j]@ == gts[j],
            star@ == "*"@,
            i <= n,
            forall|j: int| 0 <= j < i && j < n - 1 ==> j < gts.len() && (#[trigger] gps[j] == "*"@ || gps[j] == gts[j]),
            i == n ==> (if gps[n - 1] == "*"@ { false } else { n - 1 < gts.len() && gps[n - 1] == gts[n - 1] }),
        decreases n - i,
    {
        assert(ps@[i as int]@ == gps[i as int]);
        if chars_eq(&ps[i], &star) {
            if i == n - 1 {
                assert(gps[n - 1] == "*"@);
                assert(spec_match_segments(gps, gts) == (gts.len() >= n - 1));
                return ts.len() >= i;
            }
            if i >= ts.len() {
                assert(!(i < gts.len() && (gps[i as int] == "*"@ || gps[i as int] == gts[i as int])));
                assert(!spec_match_segments(gps, gts));
                return false;
            }
            i += 1;
            continue;
        }
        if i >= ts.len() {
            return false;
        }
        assert(ts@[i as int]@ == gts[i as int]);
        if !chars_eq(&ts[i], &ps[i]) {
            return false;
        }
        i += 1;
    }
    n == ts.len()
}

/// Number of dot-separated segments of `p` (at least one).
pub open spec fn segment_count(p: Seq<char>) -> int {
    split_on(p, '.').len() as int
}

/// `min(x, u32::MAX)`.
pub open spec fn sat_u32(x: int) -> u32 {
    if x > u32::MAX {
        u32::MAX
    } else {
        x as u32
    }
}

/// Specificity score used to place new rules.
///
/// `*` → 0; `vercel.*` → 2; `vercel.dns.*` → 4; `vercel.dns` → 5; `vercel.dns.create` → 7.
pub open spec fn spec_specificity(p: Seq<char>) -> u32 {
    if p == "*"@ {
        0
    } else if p.len() >= 2 && p.subrange(p.len() - 2, p.len() as int) == ".*"@ {
        sat_u32(2 * segment_count(p.subrange(0, p.len() - 2)))
    } else {
        sat_u32(2 * segment_count(p) + 1)
    }
}

/// Specificity score used to place new rules.
pub fn pattern_specificity(pattern: &str) -> (r: u32)
    ensures
        r == spec_specificity(pattern@),
{
    let p = to_chars(pattern);
    let star = to_chars("*");
    if chars_eq(&p, &star) {
        return 0;
    }
    let suffix = to_chars(".*");
    let n = p.len();
    if n >= 2 && has_at(&p, n - 2, &suffix) {
        let prefix = crate::text::slice_vec(&p, 0, n - 2);
        let c = split_chars(&prefix, '.').len();
        proof {
            reveal_strlit(".*");
        }
        assert(c == segment_count(p@.subrange(0, n - 2)));
        assert(p@.subrange(n - 2, n as int) == ".*"@);
        assert(p@ != "*"@);
        if c > 0x7fff_ffff {
            return u32::MAX;
        }
        let r: u32 = (2 * c) as u32;
        assert(r == sat_u32(2 * segment_count(p@.subrange(0, n - 2))));
        return r;
    }
    let c = split_chars(&p, '.').len();
    if c >= 0x8000_0000 { u32::MAX } else { (2 * c + 1) as u32 }
}

} // verus!

verus! {

/// Validated pattern. Invalid wildcards cannot be constructed.
#[derive(Debug, PartialEq, Eq)]
pub struct PolicyPattern(String);

impl View for PolicyPattern {
    type V = Seq<char>;

    closed spec fn view(&self) -> Seq<char> {
        self.0@
    }
}

impl Clone for PolicyPattern {
    fn clone(&self) -> (r: Self)
        ensures
            r@ == self@,
    {
        proof {
            use_type_invariant(self);
        }
        PolicyPattern(self.0.clone())
    }
}

impl PolicyPattern {
    #[verifier::type_invariant]
    spec fn wf(&self) -> bool {
        spec_valid_pattern(self.0@)
    }

    /// Parse the policy grammar.
    ///
    /// # Errors
    ///
    /// Empty, leading `*` other than bare `*`, partial wildcards, empty segments.
    pub fn new(raw: &str) -> (r: Result<Self, String>)
        ensures
            r is Ok <==> spec_valid_pattern(raw@),
            r matches Ok(p) ==> p@ == raw@,
            r matches Err(e) ==> e@ == "invalid policy pattern: "@ + raw@,
    {
        if is_valid_pattern(raw) {
            Ok(PolicyPattern(copy_str(raw)))
        } else {
            let mut e = copy_str("invalid policy pattern: ");
            crate::text::push_str(&mut e, raw);
            Err(e)
        }
    }

    /// Borrow the pattern text.
    pub fn as_str(&self) -> (r: &str)
        ensures
            r@ == self@,
            spec_valid_pattern(self@),
    {
        proof {
            use_type_invariant(self);
        }
        self.0.as_str()
    }
}

/// Stored policy row.
#[derive(Clone, Debug, PartialEq, Eq)]
pub struct ToolPolicy {
    /// Rule id.
    pub id: PolicyId,
    /// Owning side.
    pub owner: Owner,
    /// Match pattern.
    pub pattern: PolicyPattern,
    /// Gate.
    pub action: PolicyAction,
    /// Fractional-index key. Lower lex = higher precedence.
    pub position: String,
}

/// A matched rule.
#[derive(Clone, Debug, PartialEq, Eq)]
pub struct PolicyMatch {
    /// Action of the winning rule.
    pub action: PolicyAction,
    /// Pattern text.
    pub pattern: String,
    /// Policy id.
    pub policy_id: String,
}

/// Whether the effective gate came from a user rule or a plugin default.
#[derive(Clone, Copy, Debug, PartialEq, Eq, Structural)]
pub enum PolicySource {
    /// A stored `tool_policy` row.
    User,
    /// Plugin `requiresApproval` (or approve-by-default).
    PluginDefault,
}

/// Resolved gate for one tool.
#[derive(Clone, Debug, PartialEq, Eq)]
pub struct EffectivePolicy {
    /// Action to enforce.
    pub action: PolicyAction,
    /// Provenance.
    pub source: PolicySource,
    /// Pattern when source is user.
    pub pattern: Option<String>,
    /// Policy id when source is user.
    pub policy_id: Option<String>,
}

/// Action enforced when no rule applies: approval when the plugin asks for it.
pub open spec fn default_action(requires_approval: bool) -> PolicyAction {
    if requires_approval {
        PolicyAction::RequireApproval
    } else {
        PolicyAction::Approve
    }
}

impl EffectivePolicy {
    fn plugin_default(requires_approval: bool) -> (r: Self)
        ensures
            r.action == default_action(requires_approval),
            r.source == PolicySource::PluginDefault,
            r.pattern is None,
            r.policy_id is None,
    {
        EffectivePolicy {
            action: if requires_approval {
                PolicyAction::RequireApproval
            } else {
                PolicyAction::Approve
            },
            source: PolicySource::PluginDefault,
            pattern: None,
            policy_id: None,
        }
    }
}

/// Key order of rows: position, then id, then input order (`j`, `i` are the rows' indices).
pub open spec fn key_lt(pj: Seq<char>, dj: Seq<char>, j: int, pi: Seq<char>, di: Seq<char>, i: int) -> bool {
    ||| lex_order(pj, pi) == -1
    ||| (pj == pi && lex_order(dj, di) == -1)
    ||| (pj == pi && dj == di && j < i)
}

/// `key_lt` orders distinct rows totally.
pub proof fn lemma_key_total(pi: Seq<char>, di: Seq<char>, i: int, pj: Seq<char>, dj: Seq<char>, j: int)
    requires
        i != j,
    ensures
        key_lt(pi, di, i, pj, dj, j) != key_lt(pj, dj, j, pi, di, i),
{
    crate::text::lemma_lex_order_basic(pi, pj);
    crate::text::lemma_lex_order_basic(di, dj);
}

/// `key_lt` is transitive.
pub proof fn lemma_key_trans(
    pi: Seq<char>,
    di: Seq<char>,
    i: int,
    pj: Seq<char>,
    dj: Seq<char>,
    j: int,
    pk: Seq<char>,
    dk: Seq<char>,
    k: int,
)
    requires
        key_lt(pi, di, i, pj, dj, j),
        key_lt(pj, dj, j, pk, dk, k),
    ensures
        key_lt(pi, di, i, pk, dk, k),
{
    crate::text::lemma_lex_order_basic(pi, pj);
    crate::text::lemma_lex_order_basic(pj, pk);
    crate::text::lemma_lex_order_basic(pi, pk);
    crate::text::lemma_lex_order_basic(di, dj);
    crate::text::lemma_lex_order_basic(dj, dk);
    crate::text::lemma_lex_order_basic(di, dk);
    if lex_order(pi, pj) == -1 && lex_order(pj, pk) == -1 {
        crate::text::lemma_lex_order_trans(pi, pj, pk);
    }
    if pi == pj && pj == pk && lex_order(di, dj) == -1 && lex_order(dj, dk) == -1 {
        crate::text::lemma_lex_order_trans(di, dj, dk);
    }
}

/// `key_lt` between two strings' worth of position and id.
fn key_lt_exec(pj: &str, dj: &str, j: usize, pi: &str, di: &str, i: usize) -> (r: bool)
    ensures
        r == key_lt(pj@, dj@, j as int, pi@, di@, i as int),
{
    let pc = lex_order_str(pj, pi);
    let ic = lex_order_str(dj, di);
    proof {
        crate::text::lemma_lex_order_basic(pj@, pi@);
        crate::text::lemma_lex_order_basic(dj@, di@);
    }
    pc == -1 || (pc == 0 && (ic == -1 || (ic == 0 && j < i)))
}

/// Row `j` sorts before row `i` within one owner: position, then id, then input order.
pub open spec fn row_before(rows: Seq<ToolPolicy>, j: int, i: int) -> bool {
    key_lt(rows[j].position@, rows[j].id@, j, rows[i].position@, rows[i].id@, i)
}

/// Row `i` applies to `tool` and belongs to `o`.
pub open spec fn row_applies(rows: Seq<ToolPolicy>, tool: Seq<char>, o: Owner, i: int) -> bool {
    0 <= i < rows.len() && rows[i].owner == o && spec_match(rows[i].pattern@, tool)
}

/// Row `i` is owner `o`'s first applicable rule by local position.
pub open spec fn is_first_of(rows: Seq<ToolPolicy>, tool: Seq<char>, o: Owner, i: int) -> bool {
    &&& row_applies(rows, tool, o, i)
    &&& forall|j: int| #[trigger] row_applies(rows, tool, o, j) && j != i ==> row_before(rows, i, j)
}

/// Owner `o`'s first applicable rule, if it has one.
pub open spec fn first_of(rows: Seq<ToolPolicy>, tool: Seq<char>, o: Owner) -> Option<int> {
    if exists|i: int| is_first_of(rows, tool, o, i) {
        Some(choose|i: int| is_first_of(rows, tool, o, i))
    } else {
        None
    }
}

/// Row `j` sorts before row `i` overall: owner rank, then local position.
pub open spec fn sorted_before(rows: Seq<ToolPolicy>, ro: u8, ru: u8, j: int, i: int) -> bool {
    let rj = if rows[j].owner == Owner::Org { ro } else { ru };
    let ri = if rows[i].owner == Owner::Org { ro } else { ru };
    rj < ri || (rj == ri && row_before(rows, j, i))
}

/// Of two candidate rows, the more restrictive; on a tie the one that sorts first.
pub open spec fn pick(rows: Seq<ToolPolicy>, ro: u8, ru: u8, a: Option<int>, b: Option<int>) -> Option<int> {
    match (a, b) {
        (None, None) => None,
        (Some(x), None) => Some(x),
        (None, Some(y)) => Some(y),
        (Some(x), Some(y)) => {
            let e = if sorted_before(rows, ro, ru, x, y) { x } else { y };
            let l = if sorted_before(rows, ro, ru, x, y) { y } else { x };
            if spec_rank(rows[l].action) > spec_rank(rows[e].action) {
                Some(l)
            } else {
                Some(e)
            }
        },
    }
}

/// The winning row: each owner contributes its first applicable rule; the most
/// restrictive of those wins, ties going to the one that sorts first under the ranks.
pub open spec fn spec_resolve(rows: Seq<ToolPolicy>, tool: Seq<char>, ro: u8, ru: u8) -> Option<int> {
    pick(rows, ro, ru, first_of(rows, tool, Owner::Org), first_of(rows, tool, Owner::User))
}

/// `row_before` orders distinct rows totally.
pub proof fn lemma_row_before_total(rows: Seq<ToolPolicy>, i: int, j: int)
    requires
        0 <= i < rows.len(),
        0 <= j < rows.len(),
        i != j,
    ensures
        row_before(rows, i, j) != row_before(rows, j, i),
{
    lemma_key_total(rows[i].position@, rows[i].id@, i, rows[j].position@, rows[j].id@, j);
}

/// `row_before` is transitive.
pub proof fn lemma_row_before_trans(rows: Seq<ToolPolicy>, i: int, j: int, k: int)
    requires
        0 <= i < rows.len(),
        0 <= j < rows.len(),
        0 <= k < rows.len(),
        row_before(rows, i, j),
        row_before(rows, j, k),
    ensures
        row_before(rows, i, k),
{
    lemma_key_trans(
        rows[i].position@,
        rows[i].id@,
        i,
        rows[j].position@,
        rows[j].id@,
        j,
        rows[k].position@,
        rows[k].id@,
        k,
    );
}

/// A first rule is the only first rule.
pub proof fn lemma_first_unique(rows: Seq<ToolPolicy>, tool: Seq<char>, o: Owner, i: int, j: int)
    requires
        is_first_of(rows, tool, o, i),
        is_first_of(rows, tool, o, j),
    ensures
        i == j,
{
    if i != j {
        assert(row_applies(rows, tool, o, j));
        assert(row_applies(rows, tool, o, i));
        lemma_row_before_total(rows, i, j);
    }
}

/// Owner `o`'s first applicable rule, found by one scan.
fn first_for_owner(policies: &[ToolPolicy], tool_id: &str, o: Owner) -> (r: Option<usize>)
    ensures
        r matches Some(i) ==> first_of(policies@, tool_id@, o) == Some(i as int),
        r is None ==> first_of(policies@, tool_id@, o) is None,
{
    let ghost rows = policies@;
    let mut best: Option<usize> = None;
    let mut i: usize = 0;
    while i < policies.len()
        invariant
            rows == policies@,
            i <= rows.len(),
            best matches Some(b) ==> b < i && row_applies(rows, tool_id@, o, b as int),
            best matches Some(b) ==> forall|j: int|
                0 <= j < i && #[trigger] row_applies(rows, tool_id@, o, j) && j != b ==> row_before(
                    rows,
                    b as int,
                    j,
                ),
            best is None ==> forall|j: int| 0 <= j < i ==> !#[trigger] row_applies(rows, tool_id@, o, j),
        decreases policies.len() - i,
    {
        let row = &policies[i];
        if row.owner == o && match_pattern(row.pattern.as_str(), tool_id) {
            assert(row_applies(rows, tool_id@, o, i as int));
            match best {
                None => {
                    best = Some(i);
                },
                Some(b) => {
                    let earlier = key_lt_exec(
                        row.position.as_str(),
                        row.id.as_str(),
                        i,
                        policies[b].position.as_str(),
                        policies[b].id.as_str(),
                        b,
                    );
                    proof {
                        lemma_row_before_total(rows, i as int, b as int);
                    }
                    if earlier {
                        assert(row_before(rows, i as int, b as int));
                        assert forall|j: int|
                            0 <= j < i + 1 && #[trigger] row_applies(rows, tool_id@, o, j) && j != i implies row_before(
                            rows,
                            i as int,
                            j,
                        ) by {
                            if j != b {
                                lemma_row_before_trans(rows, i as int, b as int, j);
                            }
                        }
                        best = Some(i);
                    } else {
                        assert(row_before(rows, b as int, i as int));
                    }
                },
            }
        }
        i += 1;
    }
    match best {
        Some(b) => {
            assert(is_first_of(rows, tool_id@, o, b as int));
            proof {
                let c = choose|k: int| is_first_of(rows, tool_id@, o, k);
                lemma_first_unique(rows, tool_id@, o, b as int, c);
            }
        },
        None => {
            assert forall|k: int| !is_first_of(rows, tool_id@, o, k) by {
                if is_first_of(rows, tool_id@, o, k) {
                    assert(row_applies(rows, tool_id@, o, k));
                }
            }
        },
    }
    best
}

/// `sorted_before` between two rows given the ranks of their owners.
fn sorts_before(policies: &[ToolPolicy], ro: u8, ru: u8, j: usize, i: usize) -> (r: bool)
    requires
        j < policies@.len(),
        i < policies@.len(),
    ensures
        r == sorted_before(policies@, ro, ru, j as int, i as int),
{
    let rj = if policies[j].owner == Owner::Org { ro } else { ru };
    let ri = if policies[i].owner == Owner::Org { ro } else { ru };
    if rj != ri {
        return rj < ri;
    }
    key_lt_exec(
        policies[j].position.as_str(),
        policies[j].id.as_str(),
        j,
        policies[i].position.as_str(),
        policies[i].id.as_str(),
        i,
    )
}

/// The winning row index under ranks `ro` (org) and `ru` (user).
fn resolve_index(policies: &[ToolPolicy], tool_id: &str, ro: u8, ru: u8) -> (r: Option<usize>)
    ensures
        r matches Some(i) ==> spec_resolve(policies@, tool_id@, ro, ru) == Some(i as int),
        r is None ==> spec_resolve(policies@, tool_id@, ro, ru) is None,
{
    let a = first_for_owner(policies, tool_id, Owner::Org);
    let b = first_for_owner(policies, tool_id, Owner::User);
    match (a, b) {
        (None, None) => None,
        (Some(x), None) => Some(x),
        (None, Some(y)) => Some(y),
        (Some(x), Some(y)) => {
            let xb = sorts_before(policies, ro, ru, x, y);
            let e = if xb { x } else { y };
            let l = if xb { y } else { x };
            if policies[l].action.restriction_rank() > policies[e].action.restriction_rank() {
                Some(l)
            } else {
                Some(e)
            }
        },
    }
}

/// The match record a row gives.
pub open spec fn spec_match_of(row: ToolPolicy, m: PolicyMatch) -> bool {
    m.action == row.action && m.pattern@ == row.pattern@ && m.policy_id@ == row.id@
}

fn match_of(row: &ToolPolicy) -> (m: PolicyMatch)
    ensures
        spec_match_of(*row, m),
{
    PolicyMatch {
        action: row.action,
        pattern: copy_str(row.pattern.as_str()),
        policy_id: copy_str(row.id.as_str()),
    }
}

/// `r` is what resolution gives for ranks `ro` (org) and `ru` (user): nothing when no rule
/// matches, else the winning row's action, pattern and id.
pub open spec fn resolved_as(rows: Seq<ToolPolicy>, tool: Seq<char>, ro: u8, ru: u8, r: Option<PolicyMatch>) -> bool {
    match spec_resolve(rows, tool, ro, ru) {
        None => r is None,
        Some(i) => r matches Some(m) && spec_match_of(rows[i], m),
    }
}

/// `r` is the effective policy for ranks `ro` and `ru`: the winning row as a user policy, or
/// the plugin default when no rule matches.
pub open spec fn effective_as(
    rows: Seq<ToolPolicy>,
    tool: Seq<char>,
    ro: u8,
    ru: u8,
    default_requires_approval: bool,
    r: EffectivePolicy,
) -> bool {
    match spec_resolve(rows, tool, ro, ru) {
        None => {
            &&& r.action == default_action(default_requires_approval)
            &&& r.source == PolicySource::PluginDefault
            &&& r.pattern is None
            &&& r.policy_id is None
        },
        Some(i) => {
            &&& r.action == rows[i].action
            &&& r.source == PolicySource::User
            &&& r.pattern matches Some(p) && p@ == rows[i].pattern@
            &&& r.policy_id matches Some(d) && d@ == rows[i].id@
        },
    }
}

/// The ranking gives one rank to each owner.
pub open spec fn ranks_fixed<F: Fn(Owner) -> u8>(owner_rank: F) -> bool {
    &&& forall|a: u8, b: u8|
        #[trigger] call_ensures(owner_rank, (Owner::Org,), a) && #[trigger] call_ensures(owner_rank, (Owner::Org,), b)
            ==> a == b
    &&& forall|a: u8, b: u8|
        #[trigger] call_ensures(owner_rank, (Owner::User,), a) && #[trigger] call_ensures(owner_rank, (Owner::User,), b)
            ==> a == b
}

/// Where the ranking gives one rank to each owner, the effective policy is the rule that
/// resolution picks, as a user policy, or the plugin default (`require_approval` exactly when
/// the plugin asks for approval) when resolution picks none.
pub proof fn law_effective_follows_resolution<F: Fn(Owner) -> u8>(
    rows: Seq<ToolPolicy>,
    tool: Seq<char>,
    owner_rank: F,
    default_requires_approval: bool,
    m: Option<PolicyMatch>,
    e: EffectivePolicy,
)
    requires
        ranks_fixed(owner_rank),
        exists|ro: u8, ru: u8|
            {
                &&& call_ensures(owner_rank, (Owner::Org,), ro)
                &&& call_ensures(owner_rank, (Owner::User,), ru)
                &&& resolved_as(rows, tool, ro, ru, m)
            },
        exists|ro: u8, ru: u8|
            {
                &&& call_ensures(owner_rank, (Owner::Org,), ro)
                &&& call_ensures(owner_rank, (Owner::User,), ru)
                &&& effective_as(rows, tool, ro, ru, default_requires_approval, e)
            },
    ensures
        match m {
            Some(m) => {
                &&& e.action == m.action
                &&& e.source == PolicySource::User
                &&& e.pattern matches Some(p) && p@ == m.pattern@
                &&& e.policy_id matches Some(d) && d@ == m.policy_id@
            },
            None => {
                &&& e.action == default_action(default_requires_approval)
                &&& e.source == PolicySource::PluginDefault
                &&& e.pattern is None
                &&& e.policy_id is None
            },
        },
{
    let (ro, ru) = choose|ro: u8, ru: u8|
        {
            &&& call_ensures(owner_rank, (Owner::Org,), ro)
            &&& call_ensures(owner_rank, (Owner::User,), ru)
            &&& resolved_as(rows, tool, ro, ru, m)
        };
    let (so, su) = choose|ro: u8, ru: u8|
        {
            &&& call_ensures(owner_rank, (Owner::Org,), ro)
            &&& call_ensures(owner_rank, (Owner::User,), ru)
            &&& effective_as(rows, tool, ro, ru, default_requires_approval, e)
        };
    assert(ro == so);
    assert(ru == su);
}

/// Each owner contributes its first matching rule by local position; the most
/// restrictive match across owners wins.
pub fn resolve_tool_policy(
    tool_id: &str,
    policies: &[ToolPolicy],
    owner_rank: impl Fn(Owner) -> u8,
) -> (r: Option<PolicyMatch>)
    requires
        call_requires(owner_rank, (Owner::Org,)),
        call_requires(owner_rank, (Owner::User,)),
    ensures
        exists|ro: u8, ru: u8|
            {
                &&& call_ensures(owner_rank, (Owner::Org,), ro)
                &&& call_ensures(owner_rank, (Owner::User,), ru)
                &&& resolved_as(policies@, tool_id@, ro, ru, r)
            },
{
    let ro = owner_rank(Owner::Org);
    let ru = owner_rank(Owner::User);
    let r = match resolve_index(policies, tool_id, ro, ru) {
        None => None,
        Some(i) => Some(match_of(&policies[i])),
    };
    assert(resolved_as(policies@, tool_id@, ro, ru, r));
    r
}

/// User rules plus plugin default `requiresApproval`.
pub fn effective_policy(
    tool_id: &str,
    policies: &[ToolPolicy],
    owner_rank: impl Fn(Owner) -> u8,
    default_requires_approval: bool,
) -> (r: EffectivePolicy)
    requires
        call_requires(owner_rank, (Owner::Org,)),
        call_requires(owner_rank, (Owner::User,)),
    ensures
        exists|ro: u8, ru: u8|
            {
                &&& call_ensures(owner_rank, (Owner::Org,), ro)
                &&& call_ensures(owner_rank, (Owner::User,), ru)
                &&& effective_as(policies@, tool_id@, ro, ru, default_requires_approval, r)
            },
{
    let ro = owner_rank(Owner::Org);
    let ru = owner_rank(Owner::User);
    let r = match resolve_index(policies, tool_id, ro, ru) {
        None => EffectivePolicy::plugin_default(default_requires_approval),
        Some(i) => {
            let m = match_of(&policies[i]);
            EffectivePolicy {
                action: m.action,
                source: PolicySource::User,
                pattern: Some(m.pattern),
                policy_id: Some(m.policy_id),
            }
        },
    };
    assert(effective_as(policies@, tool_id@, ro, ru, default_requires_approval, r));
    r
}

} // verus!

verus! {

/// A flat row `(id, pattern, action, owner)`; rows with no owner form one group.
pub type FlatRow = (PolicyId, String, PolicyAction, Option<Owner>);

/// Flat row `i` applies to `tool`.
pub open spec fn flat_applies(rows: Seq<FlatRow>, tool: Seq<char>, i: int) -> bool {
    0 <= i < rows.len() && spec_match(rows[i].1@, tool)
}

/// Flat row `i` is the first applicable row of its owner group.
pub open spec fn group_first(rows: Seq<FlatRow>, tool: Seq<char>, i: int) -> bool {
    &&& flat_applies(rows, tool, i)
    &&& forall|j: int| 0 <= j < i && rows[j].3 == rows[i].3 ==> !#[trigger] flat_applies(rows, tool, j)
}

/// Flat row `i` wins: a group's first row, most restrictive, earliest among equals.
pub open spec fn flat_winner(rows: Seq<FlatRow>, tool: Seq<char>, i: int) -> bool {
    &&& group_first(rows, tool, i)
    &&& forall|j: int| #[trigger]
        group_first(rows, tool, j) ==> spec_rank(rows[j].2) <= spec_rank(rows[i].2) && (j < i
            ==> spec_rank(rows[j].2) < spec_rank(rows[i].2))
}

/// Resolution when rows are already sorted and may omit owner (flat tests).
pub fn effective_policy_from_sorted(
    tool_id: &str,
    rows: &[FlatRow],
    default_requires_approval: bool,
) -> (r: EffectivePolicy)
    ensures
        (exists|i: int| flat_winner(rows@, tool_id@, i)) ==> ({
            let i = choose|i: int| flat_winner(rows@, tool_id@, i);
            &&& r.action == rows@[i].2
            &&& r.source == PolicySource::User
            &&& r.pattern matches Some(p) && p@ == rows@[i].1@
            &&& r.policy_id matches Some(d) && d@ == rows@[i].0@
        }),
        !(exists|i: int| flat_winner(rows@, tool_id@, i)) ==> {
            &&& r.action == default_action(default_requires_approval)
            &&& r.source == PolicySource::PluginDefault
            &&& r.pattern is None
            &&& r.policy_id is None
        },
{
    let ghost g = rows@;
    let mut seen_flat = false;
    let mut seen_org = false;
    let mut seen_user = false;
    let mut sel: Option<usize> = None;
    let mut i: usize = 0;
    while i < rows.len()
        invariant
            g == rows@,
            i <= g.len(),
            seen_flat == exists|j: int| 0 <= j < i && g[j].3 == None::<Owner> && #[trigger] flat_applies(g, tool_id@, j),
            seen_org == exists|j: int| 0 <= j < i && g[j].3 == Some(Owner::Org) && #[trigger] flat_applies(g, tool_id@, j),
            seen_user == exists|j: int| 0 <= j < i && g[j].3 == Some(Owner::User) && #[trigger] flat_applies(g, tool_id@, j),
            sel is None ==> forall|j: int| 0 <= j < i ==> !#[trigger] group_first(g, tool_id@, j),
            sel matches Some(s) ==> s < i && group_first(g, tool_id@, s as int),
            sel matches Some(s) ==> forall|j: int| 0 <= j < i && #[trigger] group_first(g, tool_id@, j)
                ==> spec_rank(g[j].2) <= spec_rank(g[s as int].2) && (j < s ==> spec_rank(g[j].2) < spec_rank(g[s as int].2)),
        decreases rows.len() - i,
    {
        let owner = rows[i].3;
        let seen = match owner {
            None => seen_flat,
            Some(Owner::Org) => seen_org,
            Some(Owner::User) => seen_user,
        };
        if !seen && match_pattern(rows[i].1.as_str(), tool_id) {
            assert(flat_applies(g, tool_id@, i as int));
            assert(group_first(g, tool_id@, i as int)) by {
                assert forall|j: int| 0 <= j < i && g[j].3 == g[i as int].3 implies !#[trigger] flat_applies(g, tool_id@, j) by {
                    if flat_applies(g, tool_id@, j) {
                        match g[i as int].3 {
                            None => assert(seen_flat),
                            Some(Owner::Org) => assert(seen_org),
                            Some(Owner::User) => assert(seen_user),
                        }
                    }
                }
            }
            match owner {
                None => {
                    seen_flat = true;
                },
                Some(Owner::Org) => {
                    seen_org = true;
                },
                Some(Owner::User) => {
                    seen_user = true;
                },
            }
            let take = match sel {
                None => true,
                Some(s) => rows[i].2.restriction_rank() > rows[s].2.restriction_rank(),
            };
            if take {
                sel = Some(i);
            }
        } else {
            assert(!group_first(g, tool_id@, i as int)) by {
                if group_first(g, tool_id@, i as int) {
                    match g[i as int].3 {
                        None => {
                            let j = choose|j: int| 0 <= j < i && g[j].3 == None::<Owner> && #[trigger] flat_applies(g, tool_id@, j);
                        },
                        Some(Owner::Org) => {
                            let j = choose|j: int| 0 <= j < i && g[j].3 == Some(Owner::Org) && #[trigger] flat_applies(g, tool_id@, j);
                        },
                        Some(Owner::User) => {
                            let j = choose|j: int| 0 <= j < i && g[j].3 == Some(Owner::User) && #[trigger] flat_applies(g, tool_id@, j);
                        },
                    }
                }
            }
        }
        i += 1;
    }
    match sel {
        None => {
            assert forall|k: int| !flat_winner(g, tool_id@, k) by {
                if flat_winner(g, tool_id@, k) {
                    assert(group_first(g, tool_id@, k));
                }
            }
            EffectivePolicy::plugin_default(default_requires_approval)
        },
        Some(s) => {
            assert(flat_winner(g, tool_id@, s as int));
            proof {
                let c = choose|k: int| flat_winner(g, tool_id@, k);
                assert(group_first(g, tool_id@, c));
                assert(group_first(g, tool_id@, s as int));
                assert(c == s);
            }
            EffectivePolicy {
                action: rows[s].2,
                source: PolicySource::User,
                pattern: Some(copy_str(rows[s].1.as_str())),
                policy_id: Some(copy_str(rows[s].0.as_str())),
            }
        },
    }
}

/// Compare two policy rows: position lex, then id.
pub fn compare_policy_row(a_position: &str, a_id: &str, b_position: &str, b_id: &str) -> (r: std::cmp::Ordering)
    ensures
        r == (if lex_order(a_position@, b_position@) == -1 {
            std::cmp::Ordering::Less
        } else if lex_order(a_position@, b_position@) == 1 {
            std::cmp::Ordering::Greater
        } else if lex_order(a_id@, b_id@) == -1 {
            std::cmp::Ordering::Less
        } else if lex_order(a_id@, b_id@) == 1 {
            std::cmp::Ordering::Greater
        } else {
            std::cmp::Ordering::Equal
        }),
{
    let pc = lex_order_str(a_position, b_position);
    if pc == -1 {
        return std::cmp::Ordering::Less;
    }
    if pc == 1 {
        return std::cmp::Ordering::Greater;
    }
    let ic = lex_order_str(a_id, b_id);
    if ic == -1 {
        std::cmp::Ordering::Less
    } else if ic == 1 {
        std::cmp::Ordering::Greater
    } else {
        std::cmp::Ordering::Equal
    }
}

} // verus!

verus! {

/// A committed row `(pattern, position, id)`.
pub type PlacedRow = (String, String, String);

/// Placed row `j` sorts before placed row `i`.
pub open spec fn placed_before(rows: Seq<PlacedRow>, j: int, i: int) -> bool {
    key_lt(rows[j].1@, rows[j].2@, j, rows[i].1@, rows[i].2@, i)
}

/// `q` is the first row (in sorted order) no more specific than `score`.
pub open spec fn is_insert_before(rows: Seq<PlacedRow>, score: u32, q: int) -> bool {
    &&& 0 <= q < rows.len()
    &&& spec_specificity(rows[q].0@) <= score
    &&& forall|j: int|
        0 <= j < rows.len() && j != q && spec_specificity(#[trigger] rows[j].0@) <= score
            ==> placed_before(rows, q, j)
}

/// Placed row `j` sorts before `bound` (everything does when there is no bound).
pub open spec fn below_bound(rows: Seq<PlacedRow>, j: int, bound: Option<int>) -> bool {
    match bound {
        Some(q) => placed_before(rows, j, q),
        None => true,
    }
}

/// `p` is the last row (in sorted order) before `bound` (before everything past the end).
pub open spec fn is_insert_after(rows: Seq<PlacedRow>, bound: Option<int>, p: int) -> bool {
    &&& 0 <= p < rows.len()
    &&& below_bound(rows, p, bound)
    &&& forall|j: int|
        0 <= j < rows.len() && j != p && #[trigger] below_bound(rows, j, bound) ==> placed_before(rows, j, p)
}

/// The neighbours a new rule of `score` is placed between: the first row no more specific
/// than it, and the row just before that one.
pub open spec fn insert_neighbours(
    rows: Seq<PlacedRow>,
    score: u32,
    next: Option<int>,
    prev: Option<int>,
) -> bool {
    &&& next matches Some(q) ==> is_insert_before(rows, score, q)
    &&& next is None ==> forall|j: int|
        0 <= j < rows.len() ==> spec_specificity(#[trigger] rows[j].0@) > score
    &&& prev matches Some(p) ==> is_insert_after(rows, next, p)
    &&& prev is None ==> forall|j: int|
        0 <= j < rows.len() ==> !#[trigger] below_bound(rows, j, next)
}

/// Position text of an optional row.
pub open spec fn position_of(rows: Seq<PlacedRow>, i: Option<int>) -> Option<Seq<char>> {
    match i {
        Some(k) => Some(rows[k].1@),
        None => None,
    }
}

/// Default position for a new pattern among an owner's committed rules.
pub fn position_for_new_pattern(pattern: &str, rows: &[PlacedRow]) -> (r: String)
    ensures
        exists|next: Option<int>, prev: Option<int>|
            insert_neighbours(rows@, spec_specificity(pattern@), next, prev) && r@ == spec_key_between(
                position_of(rows@, prev),
                position_of(rows@, next),
            ),
{
    let ghost g = rows@;
    let score = pattern_specificity(pattern);
    let mut next: Option<usize> = None;
    let mut i: usize = 0;
    while i < rows.len()
        invariant
            g == rows@,
            i <= g.len(),
            next is None ==> forall|j: int| 0 <= j < i ==> spec_specificity(#[trigger] g[j].0@) > score,
            next matches Some(q) ==> q < i && spec_specificity(g[q as int].0@) <= score,
            next matches Some(q) ==> forall|j: int|
                0 <= j < i && j != q && spec_specificity(#[trigger] g[j].0@) <= score ==> placed_before(g, q as int, j),
        decreases rows.len() - i,
    {
        if pattern_specificity(rows[i].0.as_str()) <= score {
            match next {
                None => {
                    next = Some(i);
                },
                Some(q) => {
                    let earlier = key_lt_exec(
                        rows[i].1.as_str(),
                        rows[i].2.as_str(),
                        i,
                        rows[q].1.as_str(),
                        rows[q].2.as_str(),
                        q,
                    );
                    proof {
                        lemma_key_total(g[i as int].1@, g[i as int].2@, i as int, g[q as int].1@, g[q as int].2@, q as int);
                    }
                    if earlier {
                        assert forall|j: int|
                            0 <= j < i + 1 && j != i && spec_specificity(#[trigger] g[j].0@) <= score implies placed_before(g, i as int, j) by {
                            if j != q {
                                lemma_key_trans(g[i as int].1@, g[i as int].2@, i as int, g[q as int].1@, g[q as int].2@, q as int, g[j].1@, g[j].2@, j);
                            }
                        }
                        next = Some(i);
                    }
                },
            }
        }
        i += 1;
    }
    let ghost gnext: Option<int> = match next {
        Some(q) => Some(q as int),
        None => None,
    };
    let mut prev: Option<usize> = None;
    let mut k: usize = 0;
    while k < rows.len()
        invariant
            g == rows@,
            k <= g.len(),
            gnext == match next {
                Some(q) => Some(q as int),
                None => None::<int>,
            },
            next matches Some(q) ==> q < g.len(),
            prev is None ==> forall|j: int| 0 <= j < k ==> !#[trigger] below_bound(g, j, gnext),
            prev matches Some(p) ==> p < k && below_bound(g, p as int, gnext),
            prev matches Some(p) ==> forall|j: int|
                0 <= j < k && j != p && #[trigger] below_bound(g, j, gnext) ==> placed_before(g, j, p as int),
        decreases rows.len() - k,
    {
        let below = match next {
            None => true,
            Some(q) => key_lt_exec(rows[k].1.as_str(), rows[k].2.as_str(), k, rows[q].1.as_str(), rows[q].2.as_str(), q),
        };
        if below {
            match prev {
                None => {
                    prev = Some(k);
                },
                Some(p) => {
                    let later = key_lt_exec(rows[p].1.as_str(), rows[p].2.as_str(), p, rows[k].1.as_str(), rows[k].2.as_str(), k);
                    proof {
                        lemma_key_total(g[k as int].1@, g[k as int].2@, k as int, g[p as int].1@, g[p as int].2@, p as int);
                    }
                    if later {
                        assert forall|j: int|
                            0 <= j < k + 1 && j != k && #[trigger] below_bound(g, j, gnext) implies placed_before(g, j, k as int) by {
                            if j != p {
                                lemma_key_trans(g[j].1@, g[j].2@, j, g[p as int].1@, g[p as int].2@, p as int, g[k as int].1@, g[k as int].2@, k as int);
                            }
                        }
                        prev = Some(k);
                    }
                },
            }
        }
        k += 1;
    }
    let ghost gprev: Option<int> = match prev {
        Some(p) => Some(p as int),
        None => None,
    };
    assert(insert_neighbours(g, score, gnext, gprev));
    let p_text: Option<&str> = match prev {
        Some(p) => Some(rows[p].1.as_str()),
        None => None,
    };
    let n_text: Option<&str> = match next {
        Some(q) => Some(rows[q].1.as_str()),
        None => None,
    };
    generate_key_between(p_text, n_text)
}

} // verus!

verus! {

/// Owner-restrictive resolution: a rule is chosen exactly when some owner has an
/// applicable rule; the chosen rule is one owner's first applicable rule, and it is at
/// least as restrictive as every owner's first applicable rule — an inner (user) rule can
/// tighten an outer (org) gate but never weaken it.
pub proof fn lemma_resolve_most_restrictive(rows: Seq<ToolPolicy>, tool: Seq<char>, ro: u8, ru: u8)
    ensures
        spec_resolve(rows, tool, ro, ru) is None <==> (first_of(rows, tool, Owner::Org) is None
            && first_of(rows, tool, Owner::User) is None),
        spec_resolve(rows, tool, ro, ru) matches Some(k) ==> (first_of(rows, tool, Owner::Org)
            == Some(k) || first_of(rows, tool, Owner::User) == Some(k)),
        spec_resolve(rows, tool, ro, ru) matches Some(k) ==> (first_of(rows, tool, Owner::Org) matches Some(i)
            ==> spec_rank(rows[i].action) <= spec_rank(rows[k].action)),
        spec_resolve(rows, tool, ro, ru) matches Some(k) ==> (first_of(rows, tool, Owner::User) matches Some(i)
            ==> spec_rank(rows[i].action) <= spec_rank(rows[k].action)),
{
}

/// `rows2` lists `rows` in another order: row `i` of `rows2` is row `perm[i]` of `rows`,
/// and `inv` undoes `perm`.
pub open spec fn reordered(rows: Seq<ToolPolicy>, rows2: Seq<ToolPolicy>, perm: Seq<int>, inv: Seq<int>) -> bool {
    &&& rows2.len() == rows.len()
    &&& perm.len() == rows.len()
    &&& inv.len() == rows.len()
    &&& forall|i: int| 0 <= i < rows.len() ==> 0 <= #[trigger] perm[i] < rows.len() && rows2[i] == rows[perm[i]]
        && inv[perm[i]] == i
    &&& forall|j: int| 0 <= j < rows.len() ==> 0 <= #[trigger] inv[j] < rows.len() && perm[inv[j]] == j
}

/// No two rows share an id.
pub open spec fn distinct_ids(rows: Seq<ToolPolicy>) -> bool {
    forall|i: int, j: int| 0 <= i < rows.len() && 0 <= j < rows.len() && i != j ==> rows[i].id@ != rows[j].id@
}

proof fn lemma_first_moves(rows: Seq<ToolPolicy>, rows2: Seq<ToolPolicy>, perm: Seq<int>, inv: Seq<int>, tool: Seq<char>, o: Owner, i: int)
    requires
        reordered(rows, rows2, perm, inv),
        distinct_ids(rows),
        is_first_of(rows, tool, o, i),
    ensures
        is_first_of(rows2, tool, o, inv[i]),
{
    assert(0 <= i < rows.len());
    let i2 = inv[i];
    assert(perm[i2] == i);
    assert(rows2[i2] == rows[i]);
    assert forall|j2: int| #[trigger] row_applies(rows2, tool, o, j2) && j2 != i2 implies row_before(rows2, i2, j2) by {
        let j = perm[j2];
        assert(rows2[j2] == rows[j]);
        assert(inv[j] == j2);
        assert(j != i);
        assert(row_applies(rows, tool, o, j));
        assert(row_before(rows, i, j));
        assert(rows[i].id@ != rows[j].id@);
    }
}

proof fn lemma_first_of_moves(rows: Seq<ToolPolicy>, rows2: Seq<ToolPolicy>, perm: Seq<int>, inv: Seq<int>, tool: Seq<char>, o: Owner)
    requires
        reordered(rows, rows2, perm, inv),
        distinct_ids(rows),
    ensures
        match first_of(rows, tool, o) {
            Some(i) => first_of(rows2, tool, o) == Some(inv[i]) && 0 <= i < rows.len(),
            None => first_of(rows2, tool, o) is None,
        },
{
    assert(reordered(rows2, rows, inv, perm)) by {
        assert forall|j: int| 0 <= j < rows.len() implies 0 <= #[trigger] inv[j] < rows.len() && rows[j] == rows2[inv[j]]
            && perm[inv[j]] == j by {
            assert(rows2[inv[j]] == rows[perm[inv[j]]]);
        }
    }
    assert(distinct_ids(rows2)) by {
        assert forall|a: int, b: int| 0 <= a < rows2.len() && 0 <= b < rows2.len() && a != b implies rows2[a].id@ != rows2[b].id@ by {
            assert(rows2[a] == rows[perm[a]]);
            assert(rows2[b] == rows[perm[b]]);
            assert(inv[perm[a]] == a);
            assert(inv[perm[b]] == b);
        }
    }
    if exists|i: int| is_first_of(rows, tool, o, i) {
        let i = choose|i: int| is_first_of(rows, tool, o, i);
        lemma_first_moves(rows, rows2, perm, inv, tool, o, i);
        let c = choose|k: int| is_first_of(rows2, tool, o, k);
        lemma_first_unique(rows2, tool, o, inv[i], c);
    } else {
        if exists|k: int| is_first_of(rows2, tool, o, k) {
            let k = choose|k: int| is_first_of(rows2, tool, o, k);
            lemma_first_moves(rows2, rows, inv, perm, tool, o, k);
        }
    }
}

/// The winning rule does not depend on the order the rules are listed in, when no two
/// rules share an id.
pub proof fn law_resolve_order_free(
    rows: Seq<ToolPolicy>,
    rows2: Seq<ToolPolicy>,
    perm: Seq<int>,
    inv: Seq<int>,
    tool: Seq<char>,
    ro: u8,
    ru: u8,
)
    requires
        reordered(rows, rows2, perm, inv),
        distinct_ids(rows),
    ensures
        match (spec_resolve(rows, tool, ro, ru), spec_resolve(rows2, tool, ro, ru)) {
            (None, None) => true,
            (Some(k), Some(k2)) => rows[k] == rows2[k2],
            _ => false,
        },
{
    lemma_first_of_moves(rows, rows2, perm, inv, tool, Owner::Org);
    lemma_first_of_moves(rows, rows2, perm, inv, tool, Owner::User);
    match (first_of(rows, tool, Owner::Org), first_of(rows, tool, Owner::User)) {
        (Some(x), Some(y)) => {
            let x2 = inv[x];
            let y2 = inv[y];
            assert(rows2[x2] == rows[x]);
            assert(rows2[y2] == rows[y]);
            let c = choose|k: int| is_first_of(rows, tool, Owner::Org, k);
            let d = choose|k: int| is_first_of(rows, tool, Owner::User, k);
            assert(is_first_of(rows, tool, Owner::Org, x));
            assert(is_first_of(rows, tool, Owner::User, y));
            assert(rows[x].owner != rows[y].owner);
            assert(x != y);
            assert(rows[x].id@ != rows[y].id@);
            assert(sorted_before(rows, ro, ru, x, y) == sorted_before(rows2, ro, ru, x2, y2));
        },
        (Some(x), None) => {
            assert(rows2[inv[x]] == rows[x]);
        },
        (None, Some(y)) => {
            assert(rows2[inv[y]] == rows[y]);
        },
        (None, None) => {},
    }
}

/// `resolve_tool_policy` answers the same for every order of the rules, when no two rules
/// share an id and the ranking gives one rank to each owner.
pub proof fn law_policy_order_free<F: Fn(Owner) -> u8>(
    rows: Seq<ToolPolicy>,
    rows2: Seq<ToolPolicy>,
    perm: Seq<int>,
    inv: Seq<int>,
    tool: Seq<char>,
    owner_rank: F,
    m1: Option<PolicyMatch>,
    m2: Option<PolicyMatch>,
)
    requires
        reordered(rows, rows2, perm, inv),
        distinct_ids(rows),
        ranks_fixed(owner_rank),
        exists|ro: u8, ru: u8|
            {
                &&& call_ensures(owner_rank, (Owner::Org,), ro)
                &&& call_ensures(owner_rank, (Owner::User,), ru)
                &&& resolved_as(rows, tool, ro, ru, m1)
            },
        exists|ro: u8, ru: u8|
            {
                &&& call_ensures(owner_rank, (Owner::Org,), ro)
                &&& call_ensures(owner_rank, (Owner::User,), ru)
                &&& resolved_as(rows2, tool, ro, ru, m2)
            },
    ensures
        match (m1, m2) {
            (None, None) => true,
            (Some(a), Some(b)) => a.action == b.action && a.pattern@ == b.pattern@ && a.policy_id@ == b.policy_id@,
            _ => false,
        },
{
    let (ro, ru) = choose|ro: u8, ru: u8|
        {
            &&& call_ensures(owner_rank, (Owner::Org,), ro)
            &&& call_ensures(owner_rank, (Owner::User,), ru)
            &&& resolved_as(rows, tool, ro, ru, m1)
        };
    let (so, su) = choose|ro: u8, ru: u8|
        {
            &&& call_ensures(owner_rank, (Owner::Org,), ro)
            &&& call_ensures(owner_rank, (Owner::User,), ru)
            &&& resolved_as(rows2, tool, ro, ru, m2)
        };
    assert(ro == so);
    assert(ru == su);
    law_resolve_order_free(rows, rows2, perm, inv, tool, ro, ru);
}

/// An outer `block` stands: when the org's first applicable rule blocks, the resolved
/// gate blocks, whatever the user's rules say.
pub proof fn lemma_outer_block_stands(rows: Seq<ToolPolicy>, tool: Seq<char>, ro: u8, ru: u8, i: int)
    requires
        first_of(rows, tool, Owner::Org) == Some(i),
        rows[i].action == PolicyAction::Block,
    ensures
        spec_resolve(rows, tool, ro, ru) matches Some(k) && rows[k].action == PolicyAction::Block,
{
    lemma_resolve_most_restrictive(rows, tool, ro, ru);
}

/// Every pattern matches its own text as a tool id.
pub proof fn lemma_pattern_matches_itself(p: Seq<char>)
    ensures
        spec_match(p, p),
{
    crate::text::lemma_split_nonempty(p, '.');
}

/// The universal pattern `*` matches every tool id.
pub proof fn lemma_star_matches_all(t: Seq<char>)
    ensures
        spec_match("*"@, t),
{
    reveal_strlit("*");
    let s = "*"@;
    assert(s.len() == 1);
    assert(s.drop_first().len() == 0);
    assert(crate::text::find_char(s.drop_first(), '.') is None);
    assert(crate::text::find_char(s, '.') is None);
    assert(split_on(s, '.') =~= seq![s]);
    crate::text::lemma_split_nonempty(t, '.');
}

} // verus!
