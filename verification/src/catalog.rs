//! Endpoint catalog: search by job, prices, the credential ladder and the prepaid ledger.

use vstd::prelude::*;
use crate::text::{
    chars_eq, copy_str, find_seq, find_seq_from, from_chars, lemma_lex_order_basic, lemma_lex_order_trans,
    lex_lt, lex_order_str, lower_chars, push_str, spec_lower, spec_trim, spec_words, split_whitespace,
    str_eq, to_chars, trim,
};
use crate::json::{JsonValue, json_same, copy_json};

pub mod money;
pub mod call;
pub mod yaml;

verus! {

/// How an endpoint may be served without a team connection.
#[derive(Clone, Copy, Debug, PartialEq, Eq, Structural)]
pub enum Access {
    /// No provider key; free.
    Anonymous,
    /// Platform key, metered, only if `cost_micro` is published.
    Platform,
    /// Refuse unless the team supplies a connection or team-tool.
    OwnKeyOnly,
}

impl Default for Access {
    fn default() -> (r: Self)
        ensures
            r == Access::Platform,
    {
        Access::Platform
    }
}

/// Catalog / call errors.
#[derive(Clone, Debug, PartialEq, Eq)]
pub enum CatalogError {
    /// Unknown endpoint id.
    NotFound(String),
    /// Own key required; platform will not serve.
    ConnectYourKey {
        /// Endpoint.
        id: String,
        /// Provider slug.
        provider: String,
    },
    /// Prepaid balance too low.
    PaymentRequired {
        /// Current balance.
        balance_micro: i64,
        /// What this call would cost.
        estimated_cost_micro: i64,
    },
    /// Bad document or argument.
    Invalid(&'static str),
    /// Strict query / undeclared parameter.
    ParameterInvalid(String),
    /// Parse / IO.
    InvalidDoc(String),
    /// Upstream HTTP.
    Upstream(String),
}

impl CatalogError {
    /// The human-readable message.
    pub open spec fn spec_message(&self) -> Seq<char> {
        match self {
            CatalogError::NotFound(id) => "endpoint not found: "@ + id@,
            CatalogError::ConnectYourKey { id, provider } => "conecte sua chave para "@ + id@
                + " (provedor "@ + provider@ + ")"@,
            CatalogError::PaymentRequired { .. } => "saldo insuficiente"@,
            CatalogError::Invalid(m) => m@,
            CatalogError::ParameterInvalid(m) => m@,
            CatalogError::InvalidDoc(m) => m@,
            CatalogError::Upstream(m) => "upstream: "@ + m@,
        }
    }

    /// The human-readable message.
    pub fn message(&self) -> (r: String)
        ensures
            r@ == self.spec_message(),
    {
        match self {
            CatalogError::NotFound(id) => {
                let mut s = copy_str("endpoint not found: ");
                push_str(&mut s, id.as_str());
                s
            },
            CatalogError::ConnectYourKey { id, provider } => {
                let mut s = copy_str("conecte sua chave para ");
                push_str(&mut s, id.as_str());
                push_str(&mut s, " (provedor ");
                push_str(&mut s, provider.as_str());
                push_str(&mut s, ")");
                s
            },
            CatalogError::PaymentRequired { .. } => copy_str("saldo insuficiente"),
            CatalogError::Invalid(m) => copy_str(m),
            CatalogError::ParameterInvalid(m) => copy_str(m.as_str()),
            CatalogError::InvalidDoc(m) => copy_str(m.as_str()),
            CatalogError::Upstream(m) => {
                let mut s = copy_str("upstream: ");
                push_str(&mut s, m.as_str());
                s
            },
        }
    }
}


/// One catalogued endpoint.
#[derive(Debug)]
pub struct Endpoint {
    /// Stable id (`hunter.people.email.find`).
    pub id: String,
    /// Job capability (`people.email.find`).
    pub capability: String,
    /// Provider slug (matches an integration when connected).
    pub provider: String,
    /// Display name.
    pub name: String,
    /// One-line summary.
    pub summary: String,
    /// Phrases for job search (pt-BR and en).
    pub jobs: Vec<String>,
    /// HTTP method.
    pub method: String,
    /// URL path.
    pub path: String,
    /// Origin, `mock://…`, or `$ENV`.
    pub base_url: String,
    /// Access rung without an own key.
    pub access: Access,
    /// Published price in micro-USD. `None` means unpublished: the platform refuses.
    pub cost_micro: Option<i64>,
    /// Query parameter schema (name → type/required/example).
    pub query: JsonValue,
    /// Routed capability child.
    pub routed_child: Option<String>,
    /// When true, a call rejects undeclared/missing query params and bodies.
    pub strict_query: bool,
}

/// The texts of a list of strings.
pub open spec fn texts(v: Seq<String>) -> Seq<Seq<char>> {
    v.map_values(|s: String| s@)
}

/// The text of an optional string.
pub open spec fn opt_text(o: Option<String>) -> Option<Seq<char>> {
    match o {
        Some(s) => Some(s@),
        None => None,
    }
}

/// Whether `a` and `b` describe the same endpoint, field for field.
pub open spec fn same_endpoint(a: Endpoint, b: Endpoint) -> bool {
    &&& a.id@ == b.id@
    &&& a.capability@ == b.capability@
    &&& a.provider@ == b.provider@
    &&& a.name@ == b.name@
    &&& a.summary@ == b.summary@
    &&& texts(a.jobs@) == texts(b.jobs@)
    &&& a.method@ == b.method@
    &&& a.path@ == b.path@
    &&& a.base_url@ == b.base_url@
    &&& a.access == b.access
    &&& a.cost_micro == b.cost_micro
    &&& json_same(a.query, b.query)
    &&& opt_text(a.routed_child) == opt_text(b.routed_child)
    &&& a.strict_query == b.strict_query
}

/// A copy of a list of strings.
pub fn copy_strings(v: &Vec<String>) -> (r: Vec<String>)
    ensures
        texts(r@) == texts(v@),
{
    let mut out: Vec<String> = Vec::new();
    let mut k: usize = 0;
    while k < v.len()
        invariant
            k <= v@.len(),
            texts(out@) == texts(v@.take(k as int)),
        decreases v.len() - k,
    {
        out.push(copy_str(v[k].as_str()));
        proof {
            assert(texts(v@.take(k + 1)) =~= texts(v@.take(k as int)).push(v@[k as int]@));
            assert(texts(out@) =~= texts(v@.take(k as int)).push(v@[k as int]@));
        }
        k += 1;
    }
    assert(v@.take(v@.len() as int) =~= v@);
    out
}

/// A copy of an optional string.
pub fn copy_opt(o: &Option<String>) -> (r: Option<String>)
    ensures
        opt_text(r) == opt_text(*o),
{
    match o {
        Some(s) => Some(copy_str(s.as_str())),
        None => None,
    }
}

impl Endpoint {
    /// A copy of this endpoint.
    pub fn copy(&self) -> (r: Endpoint)
        ensures
            same_endpoint(*self, r),
    {
        Endpoint {
            id: copy_str(self.id.as_str()),
            capability: copy_str(self.capability.as_str()),
            provider: copy_str(self.provider.as_str()),
            name: copy_str(self.name.as_str()),
            summary: copy_str(self.summary.as_str()),
            jobs: copy_strings(&self.jobs),
            method: copy_str(self.method.as_str()),
            path: copy_str(self.path.as_str()),
            base_url: copy_str(self.base_url.as_str()),
            access: self.access,
            cost_micro: self.cost_micro,
            query: copy_json(&self.query),
            routed_child: copy_opt(&self.routed_child),
            strict_query: self.strict_query,
        }
    }
}

/// The index of the first endpoint with id `id`.
pub open spec fn find_endpoint(eps: Seq<Endpoint>, id: Seq<char>) -> Option<int>
    decreases eps.len(),
{
    if eps.len() == 0 {
        None
    } else if eps[0].id@ == id {
        Some(0)
    } else {
        match find_endpoint(eps.drop_first(), id) {
            Some(i) => Some(i + 1),
            None => None,
        }
    }
}

/// Whether some endpoint has id `id`.
pub open spec fn has_id(eps: Seq<Endpoint>, id: Seq<char>) -> bool {
    find_endpoint(eps, id) is Some
}

/// `extra` merged into `base`: each endpoint whose id is not present yet is appended, in
/// order (so what was there first wins).
pub open spec fn merged(base: Seq<Endpoint>, extra: Seq<Endpoint>) -> Seq<Endpoint>
    decreases extra.len(),
{
    if extra.len() == 0 {
        base
    } else {
        let next = if has_id(base, extra[0].id@) {
            base
        } else {
            base.push(extra[0])
        };
        merged(next, extra.drop_first())
    }
}

/// In-memory catalog.
pub struct Catalog {
    endpoints: Vec<Endpoint>,
}

impl View for Catalog {
    type V = Seq<Endpoint>;

    closed spec fn view(&self) -> Seq<Endpoint> {
        self.endpoints@
    }
}

impl Default for Catalog {
    fn default() -> (r: Self)
        ensures
            r@ == Seq::<Endpoint>::empty(),
    {
        Catalog { endpoints: Vec::new() }
    }
}

impl Catalog {
    /// A catalog of these endpoints, in order.
    pub fn from_endpoints(endpoints: Vec<Endpoint>) -> (r: Self)
        ensures
            r@ == endpoints@,
    {
        Catalog { endpoints }
    }

    /// All endpoints.
    pub fn all(&self) -> (r: &[Endpoint])
        ensures
            r@ == self@,
    {
        self.endpoints.as_slice()
    }

    /// Lookup by id: the first endpoint with that id.
    pub fn get(&self, id: &str) -> (r: Option<&Endpoint>)
        ensures
            match find_endpoint(self@, id@) {
                Some(i) => r == Some(&self@[i]),
                None => r is None,
            },
    {
        match find_index(&self.endpoints, id) {
            Some(i) => {
                proof {
                    lemma_find_endpoint(self.endpoints@, id@);
                }
                Some(&self.endpoints[i])
            },
            None => None,
        }
    }

    /// Insert endpoints whose ids are not already present (what was there first wins).
    pub fn merge(&mut self, other: Self)
        ensures
            final(self)@ == merged(old(self)@, other@),
    {
        let mut rest = other.endpoints;
        let ghost extra = rest@;
        let mut k: usize = 0;
        let n = rest.len();
        while k < n
            invariant
                n == extra.len(),
                k <= n,
                rest@ == extra.skip(k as int),
                merged(old(self)@, extra) == merged(self@, extra.skip(k as int)),
            decreases n - k,
        {
            let e = rest.remove(0);
            let present = find_index(&self.endpoints, e.id.as_str()).is_some();
            proof {
                assert(extra.skip(k as int)[0] == e);
                assert(extra.skip(k as int).drop_first() =~= extra.skip(k + 1));
            }
            if !present {
                self.endpoints.push(e);
            }
            k += 1;
        }
    }
}

/// Index of the first endpoint with id `id`.
pub fn find_index(eps: &Vec<Endpoint>, id: &str) -> (r: Option<usize>)
    ensures
        match r {
            Some(i) => find_endpoint(eps@, id@) == Some(i as int),
            None => find_endpoint(eps@, id@) is None,
        },
{
    let mut k: usize = 0;
    assert(eps@.skip(0) =~= eps@);
    while k < eps.len()
        invariant
            k <= eps@.len(),
            find_endpoint(eps@, id@) == match find_endpoint(eps@.skip(k as int), id@) {
                Some(i) => Some(i + k),
                None => None,
            },
        decreases eps.len() - k,
    {
        proof {
            assert(eps@.skip(k as int).drop_first() =~= eps@.skip(k + 1));
        }
        if str_eq(eps[k].id.as_str(), id) {
            return Some(k);
        }
        k += 1;
    }
    None
}

/// Merging keeps every endpoint that was there, at its place, and finds every id of the
/// merged list first where it was before (what was there first wins).
pub proof fn law_merge_keeps_existing(base: Seq<Endpoint>, extra: Seq<Endpoint>, id: Seq<char>)
    requires
        has_id(base, id),
    ensures
        find_endpoint(merged(base, extra), id) == find_endpoint(base, id),
        merged(base, extra).len() >= base.len(),
        forall|i: int| 0 <= i < base.len() ==> merged(base, extra)[i] == base[i],
    decreases extra.len(),
{
    if extra.len() > 0 {
        let next = if has_id(base, extra[0].id@) {
            base
        } else {
            base.push(extra[0])
        };
        if !has_id(base, extra[0].id@) {
            lemma_find_push(base, extra[0], id);
        }
        law_merge_keeps_existing(next, extra.drop_first(), id);
        assert forall|i: int| 0 <= i < base.len() implies merged(base, extra)[i] == base[i] by {
            assert(next[i] == base[i]);
        }
    }
}

/// After a merge, every id of either catalog is found.
pub proof fn law_merge_covers(base: Seq<Endpoint>, extra: Seq<Endpoint>, id: Seq<char>)
    requires
        has_id(base, id) || has_id(extra, id),
    ensures
        has_id(merged(base, extra), id),
    decreases extra.len(),
{
    if has_id(base, id) {
        law_merge_keeps_existing(base, extra, id);
    } else if extra.len() > 0 {
        let next = if has_id(base, extra[0].id@) {
            base
        } else {
            base.push(extra[0])
        };
        if extra[0].id@ == id {
            lemma_find_push(base, extra[0], id);
            law_merge_keeps_existing(next, extra.drop_first(), id);
        } else {
            if !has_id(base, extra[0].id@) {
                lemma_find_push(base, extra[0], id);
            }
            assert(has_id(extra.drop_first(), id));
            law_merge_covers(next, extra.drop_first(), id);
        }
    }
}

proof fn lemma_has_own_id(eps: Seq<Endpoint>, i: int)
    requires
        0 <= i < eps.len(),
    ensures
        has_id(eps, eps[i].id@),
    decreases i,
{
    if i > 0 && eps[0].id@ != eps[i].id@ {
        lemma_has_own_id(eps.drop_first(), i - 1);
    }
}

proof fn lemma_merge_known(base: Seq<Endpoint>, extra: Seq<Endpoint>)
    requires
        forall|i: int| 0 <= i < extra.len() ==> has_id(base, (#[trigger] extra[i]).id@),
    ensures
        merged(base, extra) == base,
    decreases extra.len(),
{
    if extra.len() > 0 {
        assert(has_id(base, extra[0].id@));
        assert forall|i: int| 0 <= i < extra.drop_first().len() implies has_id(base, (#[trigger] extra.drop_first()[i]).id@) by {
            assert(extra.drop_first()[i] == extra[i + 1]);
        }
        lemma_merge_known(base, extra.drop_first());
    }
}

/// Merging the same catalog a second time changes nothing.
pub proof fn law_merge_twice(base: Seq<Endpoint>, extra: Seq<Endpoint>)
    ensures
        merged(merged(base, extra), extra) == merged(base, extra),
{
    assert forall|i: int| 0 <= i < extra.len() implies has_id(merged(base, extra), (#[trigger] extra[i]).id@) by {
        lemma_has_own_id(extra, i);
        law_merge_covers(base, extra, extra[i].id@);
    }
    lemma_merge_known(merged(base, extra), extra);
}

/// Appending an endpoint does not move the first match of an id that was present, and is
/// the first match of its own id when that id was absent.
proof fn lemma_find_push(base: Seq<Endpoint>, e: Endpoint, id: Seq<char>)
    ensures
        has_id(base, id) ==> find_endpoint(base.push(e), id) == find_endpoint(base, id),
        !has_id(base, id) && e.id@ == id ==> find_endpoint(base.push(e), id) == Some(
            base.len() as int,
        ),
        !has_id(base, id) && e.id@ != id ==> !has_id(base.push(e), id),
    decreases base.len(),
{
    if base.len() > 0 {
        lemma_find_push(base.drop_first(), e, id);
        assert(base.push(e).drop_first() =~= base.drop_first().push(e));
    } else {
        assert(base.push(e)[0] == e);
        assert(base.push(e).drop_first() =~= Seq::<Endpoint>::empty());
        assert(find_endpoint(Seq::<Endpoint>::empty(), id) is None);
    }
}

/// The first match of an id is in range, has that id, and no earlier endpoint has it.
pub proof fn lemma_find_endpoint(eps: Seq<Endpoint>, id: Seq<char>)
    ensures
        match find_endpoint(eps, id) {
            Some(i) => 0 <= i < eps.len() && eps[i].id@ == id && forall|j: int|
                0 <= j < i ==> (#[trigger] eps[j]).id@ != id,
            None => forall|j: int| 0 <= j < eps.len() ==> (#[trigger] eps[j]).id@ != id,
        },
    decreases eps.len(),
{
    if eps.len() > 0 {
        lemma_find_endpoint(eps.drop_first(), id);
        assert forall|j: int| 0 < j < eps.len() implies eps[j] == eps.drop_first()[j - 1] by {}
    }
}


/// `list` (slugs with counts, by slug) after counting one more endpoint of provider `p`.
pub open spec fn bump_provider(list: Seq<(Seq<char>, nat)>, p: Seq<char>) -> Seq<(Seq<char>, nat)>
    decreases list.len(),
{
    if list.len() == 0 {
        seq![(p, 1nat)]
    } else if list[0].0 == p {
        list.update(0, (p, list[0].1 + 1))
    } else if lex_lt(p, list[0].0) {
        seq![(p, 1nat)] + list
    } else {
        seq![list[0]] + bump_provider(list.drop_first(), p)
    }
}

/// Providers with endpoint counts, by slug (what counting into a `BTreeMap` gives).
pub open spec fn provider_counts(eps: Seq<Endpoint>) -> Seq<(Seq<char>, nat)>
    decreases eps.len(),
{
    if eps.len() == 0 {
        Seq::empty()
    } else {
        bump_provider(provider_counts(eps.drop_last()), eps.last().provider@)
    }
}

/// The number of endpoints of provider `p`.
pub open spec fn provider_count(eps: Seq<Endpoint>, p: Seq<char>) -> nat
    decreases eps.len(),
{
    if eps.len() == 0 {
        0
    } else {
        provider_count(eps.drop_last(), p) + if eps.last().provider@ == p {
            1nat
        } else {
            0nat
        }
    }
}

/// Slugs strictly ascending.
pub open spec fn slugs_ascending(list: Seq<(Seq<char>, nat)>) -> bool {
    forall|i: int, j: int| 0 <= i < j < list.len() ==> lex_lt(#[trigger] list[i].0, #[trigger] list[j].0)
}

/// The views of a provider list.
pub open spec fn count_views(v: Seq<(String, usize)>) -> Seq<(Seq<char>, nat)> {
    v.map_values(|e: (String, usize)| (e.0@, e.1 as nat))
}

impl Catalog {
    /// Unique providers with endpoint counts, sorted by slug.
    pub fn providers(&self) -> (r: Vec<(String, usize)>)
        ensures
            count_views(r@) == provider_counts(self@),
    {
        let mut out: Vec<(String, usize)> = Vec::new();
        let mut k: usize = 0;
        while k < self.endpoints.len()
            invariant
                k <= self@.len(),
                count_views(out@) == provider_counts(self@.take(k as int)),
                forall|i: int| 0 <= i < out@.len() ==> (#[trigger] out@[i]).1 <= k,
            decreases self@.len() - k,
        {
            proof {
                assert(self@.take(k + 1).drop_last() =~= self@.take(k as int));
            }
            bump_exec(&mut out, self.endpoints[k].provider.as_str(), k);
            k += 1;
        }
        assert(self@.take(self@.len() as int) =~= self@);
        out
    }
}

fn bump_exec(out: &mut Vec<(String, usize)>, p: &str, bound: usize)
    requires
        forall|i: int| 0 <= i < old(out)@.len() ==> (#[trigger] old(out)@[i]).1 <= bound,
        bound < usize::MAX,
    ensures
        count_views(final(out)@) == bump_provider(count_views(old(out)@), p@),
        forall|i: int| 0 <= i < final(out)@.len() ==> (#[trigger] final(out)@[i]).1 <= bound + 1,
{
    let ghost before = count_views(out@);
    let mut j: usize = 0;
    while j < out.len()
        invariant
            j <= out@.len(),
            out@ == old(out)@,
            before == count_views(out@),
            forall|i: int| 0 <= i < j ==> before[i].0 != p@ && !lex_lt(p@, #[trigger] before[i].0),
        ensures
            j <= out@.len(),
            out@ == old(out)@,
            before == count_views(out@),
            forall|i: int| 0 <= i < j ==> before[i].0 != p@ && !lex_lt(p@, #[trigger] before[i].0),
            j < out@.len() ==> before[j as int].0 == p@ || lex_lt(p@, before[j as int].0),
        decreases out.len() - j,
    {
        if str_eq(out[j].0.as_str(), p) || lex_order_str(p, out[j].0.as_str()) == -1 {
            break;
        }
        j += 1;
    }
    proof {
        lemma_bump_at(before, p@, j as int);
    }
    if j < out.len() && str_eq(out[j].0.as_str(), p) {
        let c = out[j].1;
        out.set(j, (copy_str(p), c + 1));
        proof {
            assert(count_views(out@) =~= before.update(j as int, (p@, before[j as int].1 + 1)));
            assert(before.update(j as int, (p@, before[j as int].1 + 1)) =~= before.take(j as int)
                + before.skip(j as int).update(0, (p@, before[j as int].1 + 1)));
        }
    } else {
        out.insert(j, (copy_str(p), 1));
        proof {
            assert(count_views(out@) =~= before.take(j as int) + bump_provider(before.skip(j as int), p@));
        }
    }
}

/// Counting skips the leading slugs that are neither `p` nor after it.
proof fn lemma_bump_at(list: Seq<(Seq<char>, nat)>, p: Seq<char>, j: int)
    requires
        0 <= j <= list.len(),
        forall|i: int| 0 <= i < j ==> list[i].0 != p && !lex_lt(p, #[trigger] list[i].0),
    ensures
        bump_provider(list, p) == list.take(j) + bump_provider(list.skip(j), p),
        j < list.len() && list[j].0 == p ==> bump_provider(list.skip(j), p) == list.skip(j).update(
            0,
            (p, list[j].1 + 1),
        ),
        j < list.len() && list[j].0 != p && lex_lt(p, list[j].0) ==> bump_provider(list.skip(j), p)
            == seq![(p, 1nat)] + list.skip(j),
        j == list.len() ==> bump_provider(list.skip(j), p) == seq![(p, 1nat)],
    decreases j,
{
    if j > 0 {
        lemma_bump_at(list.drop_first(), p, j - 1);
        assert(list.drop_first().skip(j - 1) =~= list.skip(j));
        assert(list.take(j) =~= seq![list[0]] + list.drop_first().take(j - 1));
    } else {
        assert(list.skip(0) =~= list);
        assert(list.take(0) =~= Seq::<(Seq<char>, nat)>::empty());
    }
    if j == list.len() {
        assert(list.skip(j) =~= Seq::<(Seq<char>, nat)>::empty());
    }
}

/// The count listed for slug `p` (0 when it is not listed).
pub open spec fn listed_count(list: Seq<(Seq<char>, nat)>, p: Seq<char>) -> nat
    decreases list.len(),
{
    if list.len() == 0 {
        0
    } else if list[0].0 == p {
        list[0].1
    } else {
        listed_count(list.drop_first(), p)
    }
}

/// Every listed count is at least one.
pub open spec fn counts_positive(list: Seq<(Seq<char>, nat)>) -> bool {
    forall|i: int| 0 <= i < list.len() ==> (#[trigger] list[i]).1 >= 1
}

/// The provider list is sorted by slug (so each slug appears once), every listed count is
/// positive, and the count listed for each slug is the number of endpoints of that provider.
pub proof fn law_providers_sorted_and_counted(eps: Seq<Endpoint>)
    ensures
        slugs_ascending(provider_counts(eps)),
        counts_positive(provider_counts(eps)),
        forall|p: Seq<char>| #[trigger] listed_count(provider_counts(eps), p) == provider_count(eps, p),
    decreases eps.len(),
{
    if eps.len() > 0 {
        let rest = eps.drop_last();
        let q = eps.last().provider@;
        law_providers_sorted_and_counted(rest);
        lemma_bump(provider_counts(rest), q);
        assert forall|p: Seq<char>| #[trigger] listed_count(provider_counts(eps), p) == provider_count(eps, p) by {
            assert(listed_count(provider_counts(rest), p) == provider_count(rest, p));
        }
    }
}

/// A slug below the first of a sorted list is not listed.
proof fn lemma_below_first(list: Seq<(Seq<char>, nat)>, q: Seq<char>)
    requires
        slugs_ascending(list),
        list.len() > 0,
        lex_lt(q, list[0].0),
    ensures
        listed_count(list, q) == 0,
        forall|i: int| 0 <= i < list.len() ==> lex_lt(q, #[trigger] list[i].0),
    decreases list.len(),
{
    assert forall|i: int| 0 <= i < list.len() implies lex_lt(q, #[trigger] list[i].0) by {
        if i > 0 {
            lemma_lex_order_trans(q, list[0].0, list[i].0);
        }
    }
    lemma_not_listed(list, q);
}

/// A slug that every listed slug is above is not listed.
proof fn lemma_not_listed(list: Seq<(Seq<char>, nat)>, q: Seq<char>)
    requires
        forall|i: int| 0 <= i < list.len() ==> lex_lt(q, #[trigger] list[i].0),
    ensures
        listed_count(list, q) == 0,
    decreases list.len(),
{
    if list.len() > 0 {
        lemma_lex_order_basic(q, list[0].0);
        assert forall|i: int| 0 <= i < list.len() - 1 implies lex_lt(q, #[trigger] list.drop_first()[i].0) by {
            assert(list.drop_first()[i] == list[i + 1]);
        }
        lemma_not_listed(list.drop_first(), q);
    }
}

/// A slug below `q` and below every listed slug is below every slug after counting `q`.
proof fn lemma_bump_lower(list: Seq<(Seq<char>, nat)>, q: Seq<char>, x: Seq<char>)
    requires
        lex_lt(x, q),
        forall|i: int| 0 <= i < list.len() ==> lex_lt(x, #[trigger] list[i].0),
    ensures
        forall|i: int| 0 <= i < bump_provider(list, q).len() ==> lex_lt(x, #[trigger] bump_provider(list, q)[i].0),
    decreases list.len(),
{
    if list.len() > 0 && list[0].0 != q && !lex_lt(q, list[0].0) {
        assert forall|i: int| 0 <= i < list.len() - 1 implies lex_lt(x, #[trigger] list.drop_first()[i].0) by {
            assert(list.drop_first()[i] == list[i + 1]);
        }
        lemma_bump_lower(list.drop_first(), q, x);
        let b = bump_provider(list, q);
        assert forall|i: int| 0 <= i < b.len() implies lex_lt(x, #[trigger] b[i].0) by {
            if i > 0 {
                assert(b[i] == bump_provider(list.drop_first(), q)[i - 1]);
            }
        }
    } else if list.len() > 0 && list[0].0 == q {
        let b = bump_provider(list, q);
        assert forall|i: int| 0 <= i < b.len() implies lex_lt(x, #[trigger] b[i].0) by {
            if i > 0 {
                assert(b[i] == list[i]);
            }
        }
    } else if list.len() > 0 {
        let b = bump_provider(list, q);
        assert forall|i: int| 0 <= i < b.len() implies lex_lt(x, #[trigger] b[i].0) by {
            if i > 0 {
                assert(b[i] == list[i - 1]);
            }
        }
    }
}

/// Counting one more of `q` keeps the list sorted with positive counts, adds one to the
/// count of `q`, and leaves every other count.
proof fn lemma_bump(list: Seq<(Seq<char>, nat)>, q: Seq<char>)
    requires
        slugs_ascending(list),
        counts_positive(list),
    ensures
        slugs_ascending(bump_provider(list, q)),
        counts_positive(bump_provider(list, q)),
        forall|p: Seq<char>|
            #[trigger] listed_count(bump_provider(list, q), p) == listed_count(list, p) + if p == q {
                1nat
            } else {
                0nat
            },
    decreases list.len(),
{
    let b = bump_provider(list, q);
    if list.len() == 0 {
        assert(b[0] == (q, 1nat));
        assert(b.drop_first() =~= Seq::<(Seq<char>, nat)>::empty());
        assert forall|p: Seq<char>| #[trigger] listed_count(b, p) == listed_count(list, p) + if p == q {
            1nat
        } else {
            0nat
        } by {
            assert(listed_count(b.drop_first(), p) == 0);
        }
    } else if list[0].0 == q {
        assert(b.drop_first() =~= list.drop_first());
        assert forall|p: Seq<char>| #[trigger] listed_count(b, p) == listed_count(list, p) + if p == q {
            1nat
        } else {
            0nat
        } by {
            assert(b[0].0 == q);
        }
        assert forall|i: int, j: int| 0 <= i < j < b.len() implies lex_lt(#[trigger] b[i].0, #[trigger] b[j].0) by {
            assert(b[i].0 == list[i].0);
            assert(b[j].0 == list[j].0);
        }
    } else if lex_lt(q, list[0].0) {
        lemma_below_first(list, q);
        assert(b.drop_first() =~= list);
        assert forall|p: Seq<char>| #[trigger] listed_count(b, p) == listed_count(list, p) + if p == q {
            1nat
        } else {
            0nat
        } by {
            assert(b[0] == (q, 1nat));
        }
        assert forall|i: int, j: int| 0 <= i < j < b.len() implies lex_lt(#[trigger] b[i].0, #[trigger] b[j].0) by {
            if i > 0 {
                assert(b[i] == list[i - 1]);
                assert(b[j] == list[j - 1]);
            } else {
                assert(b[j] == list[j - 1]);
            }
        }
    } else {
        let rest = list.drop_first();
        assert forall|i: int, j: int| 0 <= i < j < rest.len() implies lex_lt(#[trigger] rest[i].0, #[trigger] rest[j].0) by {
            assert(rest[i] == list[i + 1]);
            assert(rest[j] == list[j + 1]);
        }
        assert forall|i: int| 0 <= i < rest.len() implies (#[trigger] rest[i]).1 >= 1 by {
            assert(rest[i] == list[i + 1]);
        }
        lemma_bump(rest, q);
        lemma_lex_order_basic(q, list[0].0);
        assert(lex_lt(list[0].0, q));
        assert forall|i: int| 0 <= i < rest.len() implies lex_lt(list[0].0, #[trigger] rest[i].0) by {
            assert(rest[i] == list[i + 1]);
        }
        lemma_bump_lower(rest, q, list[0].0);
        assert(b.drop_first() =~= bump_provider(rest, q));
        assert forall|p: Seq<char>| #[trigger] listed_count(b, p) == listed_count(list, p) + if p == q {
            1nat
        } else {
            0nat
        } by {
            assert(b[0] == list[0]);
            assert(listed_count(bump_provider(rest, q), p) == listed_count(rest, p) + if p == q {
                1nat
            } else {
                0nat
            });
        }
        assert forall|i: int, j: int| 0 <= i < j < b.len() implies lex_lt(#[trigger] b[i].0, #[trigger] b[j].0) by {
            assert(b[j] == bump_provider(rest, q)[j - 1]);
            if i > 0 {
                assert(b[i] == bump_provider(rest, q)[i - 1]);
            }
        }
        assert forall|i: int| 0 <= i < b.len() implies (#[trigger] b[i]).1 >= 1 by {
            if i > 0 {
                assert(b[i] == bump_provider(rest, q)[i - 1]);
            }
        }
    }
}


/// Whether `needle` occurs in `hay` (`str::contains`).
pub open spec fn contains_text(hay: Seq<char>, needle: Seq<char>) -> bool {
    find_seq(hay, needle) is Some
}

/// Points for one field: `pts` when its lower-case text contains the query.
pub open spec fn field_points(field: Seq<char>, q: Seq<char>, pts: int) -> int {
    if contains_text(spec_lower(field), q) {
        pts
    } else {
        0
    }
}

/// Eight points for each query word the job phrase contains.
pub open spec fn word_points(j: Seq<char>, words: Seq<Seq<char>>) -> int
    decreases words.len(),
{
    if words.len() == 0 {
        0
    } else {
        word_points(j, words.drop_last()) + if contains_text(j, words.last()) {
            8int
        } else {
            0int
        }
    }
}

/// Points for one job phrase: 80 for an exact match, else 30 when either contains the
/// other, plus the word points.
pub open spec fn job_points(job: Seq<char>, q: Seq<char>) -> int {
    let j = spec_lower(job);
    (if j == q {
        80int
    } else if contains_text(j, q) || contains_text(q, j) {
        30int
    } else {
        0int
    }) + word_points(j, spec_words(q))
}

/// The points of all job phrases.
pub open spec fn jobs_points(jobs: Seq<Seq<char>>, q: Seq<char>) -> int
    decreases jobs.len(),
{
    if jobs.len() == 0 {
        0
    } else {
        jobs_points(jobs.drop_last(), q) + job_points(jobs.last(), q)
    }
}

/// The rank score of an endpoint for a (trimmed, lower-case) query.
pub open spec fn endpoint_score(ep: Endpoint, q: Seq<char>) -> int {
    field_points(ep.id@, q, 50) + field_points(ep.capability@, q, 40) + field_points(
        ep.provider@,
        q,
        15,
    ) + field_points(ep.name@, q, 20) + field_points(ep.summary@, q, 10) + jobs_points(
        texts(ep.jobs@),
        q,
    )
}

/// The query as search compares it: trimmed, then lower-cased.
pub open spec fn search_query(query: Seq<char>) -> Seq<char> {
    spec_lower(spec_trim(query))
}

/// The score an endpoint gets in a search: 1 for the empty query, else its rank score.
pub open spec fn entry_score(ep: Endpoint, q: Seq<char>) -> int {
    if q.len() == 0 {
        1
    } else {
        endpoint_score(ep, q)
    }
}

/// Whether every score of the search fits an `i32`.
pub open spec fn scores_fit(eps: Seq<Endpoint>, q: Seq<char>) -> bool {
    forall|i: int| 0 <= i < eps.len() ==> #[trigger] entry_score(eps[i], q) <= i32::MAX
}

/// Search entries (score, id, index) of the endpoints scoring above zero, in catalog order.
pub open spec fn hit_entries(eps: Seq<Endpoint>, q: Seq<char>) -> Seq<(int, Seq<char>, int)>
    decreases eps.len(),
{
    if eps.len() == 0 {
        Seq::empty()
    } else {
        let rest = hit_entries(eps.drop_last(), q);
        let sc = entry_score(eps.last(), q);
        if sc > 0 {
            rest.push((sc, eps.last().id@, eps.len() - 1))
        } else {
            rest
        }
    }
}

/// Higher score first, then id ascending.
pub open spec fn hit_before(a: (int, Seq<char>, int), b: (int, Seq<char>, int)) -> bool {
    a.0 > b.0 || (a.0 == b.0 && lex_lt(a.1, b.1))
}

/// `x` inserted into ranked `s` after every entry it does not rank before.
pub open spec fn insert_hit(s: Seq<(int, Seq<char>, int)>, x: (int, Seq<char>, int)) -> Seq<
    (int, Seq<char>, int),
>
    decreases s.len(),
{
    if s.len() == 0 {
        seq![x]
    } else if hit_before(x, s.last()) {
        insert_hit(s.drop_last(), x).push(s.last())
    } else {
        s.push(x)
    }
}

/// The stable sort of `s` by rank.
pub open spec fn sort_hits(s: Seq<(int, Seq<char>, int)>) -> Seq<(int, Seq<char>, int)>
    decreases s.len(),
{
    if s.len() == 0 {
        Seq::empty()
    } else {
        insert_hit(sort_hits(s.drop_last()), s.last())
    }
}

/// What a search returns, as (score, id, index) entries: the ranked hits, at most
/// `max(limit, 1)` of them.
pub open spec fn spec_search(eps: Seq<Endpoint>, query: Seq<char>, limit: usize) -> Seq<
    (int, Seq<char>, int),
> {
    let ranked = sort_hits(hit_entries(eps, search_query(query)));
    let cap: int = if limit < 1 {
        1
    } else {
        limit as int
    };
    if ranked.len() <= cap {
        ranked
    } else {
        ranked.take(cap)
    }
}

/// Search hit.
#[derive(Debug)]
pub struct CatalogHit {
    /// Endpoint.
    pub endpoint: Endpoint,
    /// Rank score (higher is better).
    pub score: i32,
}

/// Adding non-negative word points never lowers the running total.
proof fn lemma_word_points_bounds(j: Seq<char>, words: Seq<Seq<char>>)
    ensures
        word_points(j, words) >= 0,
    decreases words.len(),
{
    if words.len() > 0 {
        lemma_word_points_bounds(j, words.drop_last());
    }
}

/// The points of a prefix of the jobs are at most the points of all of them.
proof fn lemma_jobs_points_mono(jobs: Seq<Seq<char>>, q: Seq<char>, k: int)
    requires
        0 <= k <= jobs.len(),
    ensures
        0 <= jobs_points(jobs.take(k), q) <= jobs_points(jobs, q),
    decreases jobs.len(),
{
    if jobs.len() > 0 {
        lemma_word_points_bounds(spec_lower(jobs.last()), spec_words(q));
        if k == jobs.len() {
            assert(jobs.take(k) =~= jobs);
            lemma_jobs_points_mono(jobs.drop_last(), q, k - 1);
            assert(jobs.drop_last().take(k - 1) =~= jobs.drop_last());
        } else {
            lemma_jobs_points_mono(jobs.drop_last(), q, k);
            assert(jobs.drop_last().take(k) =~= jobs.take(k));
        }
    } else {
        assert(jobs.take(k) =~= jobs);
    }
}

fn contains_exec(hay: &Vec<char>, needle: &Vec<char>) -> (r: bool)
    ensures
        r == contains_text(hay@, needle@),
{
    find_seq_from(hay.as_slice(), 0, needle.as_slice()).is_some()
}

/// The character runs of a list of character vectors.
pub open spec fn char_runs(v: Seq<Vec<char>>) -> Seq<Seq<char>> {
    v.map_values(|w: Vec<char>| w@)
}

/// Eight points for each word the phrase contains, if that fits an `i32`.
fn word_points_exec(j: &Vec<char>, words: &Vec<Vec<char>>) -> (r: Option<i32>)
    ensures
        match r {
            Some(v) => v == word_points(j@, char_runs(words@)),
            None => word_points(j@, char_runs(words@)) > i32::MAX,
        },
{
    let ghost ws = char_runs(words@);
    let mut total: i32 = 0;
    let mut k: usize = 0;
    while k < words.len()
        invariant
            k <= words@.len(),
            ws == char_runs(words@),
            total == word_points(j@, ws.take(k as int)),
        decreases words.len() - k,
    {
        proof {
            assert(ws.take(k + 1).drop_last() =~= ws.take(k as int));
            assert(ws[k as int] == words@[k as int]@);
        }
        if contains_exec(j, &words[k]) {
            if total > i32::MAX - 8 {
                proof {
                    lemma_word_points_prefix(j@, ws, k + 1);
                }
                return None;
            }
            total = total + 8;
        }
        k += 1;
    }
    assert(ws.take(words@.len() as int) =~= ws);
    Some(total)
}

/// The word points of a prefix are at most those of all the words.
proof fn lemma_word_points_prefix(j: Seq<char>, words: Seq<Seq<char>>, k: int)
    requires
        0 <= k <= words.len(),
    ensures
        word_points(j, words.take(k)) <= word_points(j, words),
    decreases words.len(),
{
    if k < words.len() {
        lemma_word_points_prefix(j, words.drop_last(), k);
        assert(words.drop_last().take(k) =~= words.take(k));
    } else {
        assert(words.take(k) =~= words);
    }
}

/// The score points of the named fields.
pub open spec fn fields_points(ep: Endpoint, q: Seq<char>) -> int {
    field_points(ep.id@, q, 50) + field_points(ep.capability@, q, 40) + field_points(
        ep.provider@,
        q,
        15,
    ) + field_points(ep.name@, q, 20) + field_points(ep.summary@, q, 10)
}

fn field_points_exec(field: &String, q: &Vec<char>, pts: i32) -> (r: i32)
    ensures
        r == field_points(field@, q@, pts as int),
{
    let f = lower_chars(to_chars(field.as_str()).as_slice());
    if contains_exec(&f, q) {
        pts
    } else {
        0
    }
}

/// The rank score of `ep` for query `q` (with words `words`), if it fits an `i32`.
fn score_endpoint(ep: &Endpoint, q: &Vec<char>, words: &Vec<Vec<char>>) -> (r: Option<i32>)
    requires
        char_runs(words@) == spec_words(q@),
    ensures
        match r {
            Some(v) => v == endpoint_score(*ep, q@),
            None => endpoint_score(*ep, q@) > i32::MAX,
        },
{
    let mut score: i32 = field_points_exec(&ep.id, q, 50);
    score = score + field_points_exec(&ep.capability, q, 40);
    score = score + field_points_exec(&ep.provider, q, 15);
    score = score + field_points_exec(&ep.name, q, 20);
    score = score + field_points_exec(&ep.summary, q, 10);
    assert(score == fields_points(*ep, q@));
    let ghost jobs = texts(ep.jobs@);
    let mut k: usize = 0;
    assert(jobs.take(0) =~= Seq::<Seq<char>>::empty());
    while k < ep.jobs.len()
        invariant
            k <= ep.jobs@.len(),
            jobs == texts(ep.jobs@),
            char_runs(words@) == spec_words(q@),
            0 <= fields_points(*ep, q@) <= 135,
            score == fields_points(*ep, q@) + jobs_points(jobs.take(k as int), q@),
        decreases ep.jobs.len() - k,
    {
        proof {
            assert(jobs.take(k + 1).drop_last() =~= jobs.take(k as int));
            assert(jobs.take(k + 1).last() == ep.jobs@[k as int]@);
            lemma_jobs_points_mono(jobs, q@, k + 1);
            lemma_jobs_points_mono(jobs, q@, k as int);
            lemma_word_points_bounds(spec_lower(ep.jobs@[k as int]@), spec_words(q@));
        }
        let j = lower_chars(to_chars(ep.jobs[k].as_str()).as_slice());
        let base: i32 = if chars_eq(j.as_slice(), q.as_slice()) {
            80
        } else if contains_exec(&j, q) || contains_exec(q, &j) {
            30
        } else {
            0
        };
        let wp = match word_points_exec(&j, words) {
            Some(w) => w,
            None => {
                return None;
            },
        };
        if wp > i32::MAX - base {
            return None;
        }
        let jp = base + wp;
        if score > i32::MAX - jp {
            return None;
        }
        score = score + jp;
        k += 1;
    }
    proof {
        assert(jobs.take(ep.jobs@.len() as int) =~= jobs);
    }
    Some(score)
}

/// Entry views of a list of (score, index) pairs over the endpoints `eps`.
pub open spec fn entry_views(v: Seq<(i32, usize)>, eps: Seq<Endpoint>) -> Seq<(int, Seq<char>, int)> {
    v.map_values(|e: (i32, usize)| (e.0 as int, eps[e.1 as int].id@, e.1 as int))
}

/// Insertion at the position the scan from the right finds.
proof fn lemma_insert_hit_at(s: Seq<(int, Seq<char>, int)>, x: (int, Seq<char>, int), j: int)
    requires
        0 <= j <= s.len(),
        forall|k: int| j <= k < s.len() ==> hit_before(x, #[trigger] s[k]),
        j > 0 ==> !hit_before(x, s[j - 1]),
    ensures
        insert_hit(s, x) == s.insert(j, x),
    decreases s.len(),
{
    if s.len() == 0 {
        assert(s.insert(j, x) =~= seq![x]);
    } else if j == s.len() {
        assert(s.insert(j, x) =~= s.push(x));
    } else {
        assert(hit_before(x, s.last()));
        lemma_insert_hit_at(s.drop_last(), x, j);
        assert(s.drop_last().insert(j, x).push(s.last()) =~= s.insert(j, x));
    }
}

fn hit_before_exec(a: (i32, usize), b: (i32, usize), eps: &Vec<Endpoint>) -> (r: bool)
    requires
        a.1 < eps@.len(),
        b.1 < eps@.len(),
    ensures
        r == hit_before(
            (a.0 as int, eps@[a.1 as int].id@, a.1 as int),
            (b.0 as int, eps@[b.1 as int].id@, b.1 as int),
        ),
{
    a.0 > b.0 || (a.0 == b.0 && lex_order_str(eps[a.1].id.as_str(), eps[b.1].id.as_str()) == -1)
}

fn insert_hit_exec(out: &mut Vec<(i32, usize)>, x: (i32, usize), eps: &Vec<Endpoint>)
    requires
        x.1 < eps@.len(),
        forall|i: int| 0 <= i < old(out)@.len() ==> (#[trigger] old(out)@[i]).1 < eps@.len(),
    ensures
        entry_views(final(out)@, eps@) == insert_hit(
            entry_views(old(out)@, eps@),
            (x.0 as int, eps@[x.1 as int].id@, x.1 as int),
        ),
        forall|i: int| 0 <= i < final(out)@.len() ==> (#[trigger] final(out)@[i]).1 < eps@.len(),
{
    let ghost xv = (x.0 as int, eps@[x.1 as int].id@, x.1 as int);
    let mut j = out.len();
    while j > 0 && hit_before_exec(x, out[j - 1], eps)
        invariant
            j <= out@.len(),
            out@ == old(out)@,
            x.1 < eps@.len(),
            xv == (x.0 as int, eps@[x.1 as int].id@, x.1 as int),
            forall|i: int| 0 <= i < out@.len() ==> (#[trigger] out@[i]).1 < eps@.len(),
            forall|k: int| j <= k < out@.len() ==> hit_before(xv, #[trigger] entry_views(out@, eps@)[k]),
        decreases j,
    {
        j -= 1;
    }
    proof {
        let s = entry_views(out@, eps@);
        if j > 0 {
            assert(s[j - 1] == (out@[j - 1].0 as int, eps@[out@[j - 1].1 as int].id@, out@[j - 1].1 as int));
        }
        lemma_insert_hit_at(s, xv, j as int);
    }
    let ghost before = out@;
    out.insert(j, x);
    assert(entry_views(out@, eps@) =~= entry_views(before, eps@).insert(j as int, xv));
}

impl Catalog {
    /// Ranked job search, or `None` when some score would not fit an `i32`. Endpoints score
    /// by the fields and job phrases that contain the (trimmed, lower-case) query; the empty
    /// query gives every endpoint score 1. Hits come by score, then id; at most
    /// `max(limit, 1)` of them.
    pub fn search_checked(&self, query: &str, limit: usize) -> (r: Option<Vec<CatalogHit>>)
        ensures
            r is None <==> !scores_fit(self@, search_query(query@)),
            r matches Some(hits) ==> {
                let want = spec_search(self@, query@, limit);
                &&& hits@.len() == want.len()
                &&& forall|i: int|
                    0 <= i < want.len() ==> {
                        &&& 0 <= want[i].2 < self@.len()
                        &&& (#[trigger] hits@[i]).score == want[i].0
                        &&& same_endpoint(self@[want[i].2], hits@[i].endpoint)
                    }
            },
    {
        let ghost q = search_query(query@);
        let trimmed = trim(query);
        let qv = lower_chars(to_chars(trimmed.as_str()).as_slice());
        assert(qv@ == q);
        let qs = from_chars(qv.as_slice());
        let ws = split_whitespace(qs.as_str());
        let mut words: Vec<Vec<char>> = Vec::new();
        let mut w: usize = 0;
        while w < ws.len()
            invariant
                w <= ws@.len(),
                ws@.map_values(|x: String| x@) == spec_words(q),
                char_runs(words@) == spec_words(q).take(w as int),
            decreases ws.len() - w,
        {
            let ghost before = words@;
            let cw = to_chars(ws[w].as_str());
            words.push(cw);
            proof {
                assert(spec_words(q)[w as int] == ws@.map_values(|x: String| x@)[w as int]);
                assert(char_runs(words@) =~= char_runs(before).push(cw@));
                assert(spec_words(q).take(w + 1) =~= spec_words(q).take(w as int).push(spec_words(q)[w as int]));
            }
            w += 1;
        }
        assert(spec_words(q).take(ws@.len() as int) =~= spec_words(q));
        let eps = &self.endpoints;
        let mut entries: Vec<(i32, usize)> = Vec::new();
        let mut k: usize = 0;
        assert(eps@.take(0) =~= Seq::<Endpoint>::empty());
        while k < eps.len()
            invariant
                k <= eps@.len(),
                eps@ == self@,
                q == search_query(query@),
                qv@ == q,
                char_runs(words@) == spec_words(q),
                entry_views(entries@, eps@) == hit_entries(eps@.take(k as int), q),
                forall|i: int| 0 <= i < entries@.len() ==> (#[trigger] entries@[i]).1 < k,
                forall|i: int| 0 <= i < k ==> #[trigger] entry_score(eps@[i], q) <= i32::MAX,
            decreases eps.len() - k,
        {
            proof {
                assert(eps@.take(k + 1).drop_last() =~= eps@.take(k as int));
                assert(eps@.take(k + 1).last() == eps@[k as int]);
            }
            let sc: i32 = if qv.len() == 0 {
                1
            } else {
                match score_endpoint(&eps[k], &qv, &words) {
                    Some(s) => s,
                    None => {
                        assert(!(entry_score(self@[k as int], q) <= i32::MAX));
                        return None;
                    },
                }
            };
            if sc > 0 {
                let ghost before = entries@;
                entries.push((sc, k));
                assert(entry_views(entries@, eps@) =~= entry_views(before, eps@).push(
                    (sc as int, eps@[k as int].id@, k as int),
                ));
            }
            k += 1;
        }
        assert(eps@.take(eps@.len() as int) =~= eps@);
        let ghost all = entry_views(entries@, eps@);
        let mut sorted: Vec<(i32, usize)> = Vec::new();
        let mut m: usize = 0;
        while m < entries.len()
            invariant
                m <= entries@.len(),
                all == entry_views(entries@, eps@),
                forall|i: int| 0 <= i < entries@.len() ==> (#[trigger] entries@[i]).1 < eps@.len(),
                forall|i: int| 0 <= i < sorted@.len() ==> (#[trigger] sorted@[i]).1 < eps@.len(),
                entry_views(sorted@, eps@) == sort_hits(all.take(m as int)),
            decreases entries.len() - m,
        {
            proof {
                assert(all.take(m + 1).drop_last() =~= all.take(m as int));
                assert(all.take(m + 1).last() == all[m as int]);
            }
            insert_hit_exec(&mut sorted, entries[m], eps);
            m += 1;
        }
        assert(all.take(all.len() as int) =~= all);
        let cap: usize = if limit < 1 {
            1
        } else {
            limit
        };
        let n: usize = if sorted.len() <= cap {
            sorted.len()
        } else {
            cap
        };
        let ghost want = spec_search(self@, query@, limit);
        assert(want =~= entry_views(sorted@, eps@).take(n as int));
        let mut hits: Vec<CatalogHit> = Vec::new();
        let mut i: usize = 0;
        while i < n
            invariant
                i <= n <= sorted@.len(),
                eps@ == self@,
                want == entry_views(sorted@, eps@).take(n as int),
                forall|t: int| 0 <= t < sorted@.len() ==> (#[trigger] sorted@[t]).1 < eps@.len(),
                hits@.len() == i,
                forall|t: int|
                    0 <= t < i ==> {
                        &&& (#[trigger] hits@[t]).score == want[t].0
                        &&& same_endpoint(self@[want[t].2], hits@[t].endpoint)
                    },
            decreases n - i,
        {
            let (s, idx) = sorted[i];
            hits.push(CatalogHit { endpoint: eps[idx].copy(), score: s });
            i += 1;
        }
        Some(hits)
    }

    /// Ranked job search (see `search_checked`), for a query whose scores fit an `i32`.
    pub fn search(&self, query: &str, limit: usize) -> (r: Vec<CatalogHit>)
        requires
            scores_fit(self@, search_query(query@)),
        ensures
            r@.len() == spec_search(self@, query@, limit).len(),
            forall|i: int|
                0 <= i < r@.len() ==> {
                    let want = spec_search(self@, query@, limit);
                    &&& 0 <= want[i].2 < self@.len()
                    &&& (#[trigger] r@[i]).score == want[i].0
                    &&& same_endpoint(self@[want[i].2], r@[i].endpoint)
                },
    {
        match self.search_checked(query, limit) {
            Some(hits) => hits,
            None => Vec::new(),
        }
    }
}

} // verus!
