//! The in-process catalog: integrations, connections, tools, policies, executions,
//! idempotency keys, JSON documents and blobs, each in a key-ordered table.

pub mod table;

use vstd::prelude::*;
use crate::connection::{Connection, ConnectionRef};
use crate::error::StorageError;
use crate::execution::ExecutionId;
use crate::id::{IntegrationSlug, PolicyId};
use crate::integration::IntegrationRecord;
use crate::json::JsonValue;
use crate::outcome::ExecutionState;
use crate::owner::{Owner, owner_text};
use crate::policy::ToolPolicy;
use crate::address::{ToolAddress, spec_address_text};
use crate::text::{copy_str, push_str, to_chars, find_str_from, find_seq, str_eq};
use crate::tool::Tool;
use self::table::{Table, row_of, put_row, drop_key, rows_view};

verus! {

/// The rows of `s` that `keep` accepts, in order.
pub open spec fn keep_rows<V>(s: Seq<(Seq<char>, V)>, keep: spec_fn((Seq<char>, V)) -> bool) -> Seq<
    (Seq<char>, V),
>
    decreases s.len(),
{
    if s.len() == 0 {
        s
    } else if keep(s.last()) {
        keep_rows(s.drop_last(), keep).push(s.last())
    } else {
        keep_rows(s.drop_last(), keep)
    }
}

/// The key a connection is stored under: `owner/integration/name`.
pub open spec fn conn_key(owner: Owner, integration: Seq<char>, name: Seq<char>) -> Seq<char> {
    owner_text(owner) + seq!['/'] + integration + seq!['/'] + name
}

/// Whether a tool goes when the tools of `integration` (of one connection `conn`, when
/// given) are dropped; built-in tools stay when `keep_static`.
pub open spec fn tool_dropped(t: Tool, integration: Seq<char>, conn: Option<(Owner, Seq<char>)>, keep_static: bool) -> bool {
    &&& t.integration@ == integration
    &&& match conn {
        Some(c) => t.owner == c.0 && t.connection@ == c.1,
        None => true,
    }
    &&& !(keep_static && t.static_tool)
}

/// The tool rows left after dropping.
pub open spec fn tools_left(
    s: Seq<(Seq<char>, Tool)>,
    integration: Seq<char>,
    conn: Option<(Owner, Seq<char>)>,
    keep_static: bool,
) -> Seq<(Seq<char>, Tool)> {
    keep_rows(s, |r: (Seq<char>, Tool)| !tool_dropped(r.1, integration, conn, keep_static))
}

/// The connection rows whose key does not contain `/slug/`.
pub open spec fn conns_left(s: Seq<(Seq<char>, Connection)>, slug: Seq<char>) -> Seq<(Seq<char>, Connection)> {
    keep_rows(s, |r: (Seq<char>, Connection)| find_seq(r.0, seq!['/'] + slug + seq!['/']) is None)
}

/// `s` with each tool stored under its address, in order.
pub open spec fn put_tools(s: Seq<(Seq<char>, Tool)>, tools: Seq<Tool>) -> Seq<(Seq<char>, Tool)>
    decreases tools.len(),
{
    if tools.len() == 0 {
        s
    } else {
        put_row(put_tools(s, tools.drop_last()), spec_address_text(tools.last().address@), tools.last())
    }
}

/// The document `id` of `collection`.
pub open spec fn nested_row<V>(s: Seq<(Seq<char>, Table<V>)>, collection: Seq<char>, id: Seq<char>) -> Option<V> {
    match row_of(s, collection) {
        Some(t) => row_of(t@, id),
        None => None,
    }
}

/// In-process catalog. Used by tests and as the default when no database is set.
pub struct MemoryCatalog {
    /// Integrations by slug.
    pub integrations: Table<IntegrationRecord>,
    /// Connections by `owner/integration/name`.
    pub connections: Table<Connection>,
    /// Tools by address.
    pub tools: Table<Tool>,
    /// Policies by id.
    pub policies: Table<ToolPolicy>,
    /// Executions by id.
    pub executions: Table<ExecutionState>,
    /// Idempotency keys and the execution each names.
    pub idempotency: Table<ExecutionId>,
    /// Blobs by namespace, then key.
    pub blobs: Table<Table<Vec<u8>>>,
    /// JSON documents by collection, then id.
    pub kv: Table<Table<JsonValue>>,
}

/// Drop the rows `keep` refuses, keeping the order of the rest.
fn keep_tool_rows(t: &mut Table<Tool>, integration: &str, conn: Option<(Owner, &str)>, keep_static: bool)
    ensures
        final(t)@ == tools_left(
            old(t)@,
            integration@,
            match conn {
                Some(c) => Some((c.0, c.1@)),
                None => None,
            },
            keep_static,
        ),
{
    let ghost cv: Option<(Owner, Seq<char>)> = match conn {
        Some(c) => Some((c.0, c.1@)),
        None => None,
    };
    let ghost whole = t@;
    let mut rest = t.take_rows();
    let mut out: Vec<(String, Tool)> = Vec::new();
    let total: usize = rest.len();
    let mut n: usize = 0;
    assert(whole.take(0) =~= Seq::<(Seq<char>, Tool)>::empty());
    assert(whole.skip(0) =~= whole);
    while rest.len() > 0
        invariant
            n + rest@.len() == whole.len(),
            total == whole.len(),
            rows_view(rest@) == whole.skip(n as int),
            rows_view(out@) == tools_left(whole.take(n as int), integration@, cv, keep_static),
            cv == match conn {
                Some(c) => Some((c.0, c.1@)),
                None => None::<(Owner, Seq<char>)>,
            },
        decreases rest.len(),
    {
        let ghost before = rest@;
        let row = rest.remove(0);
        proof {
            assert(whole.skip(n as int)[0] == rows_view(before)[0]);
            assert(rows_view(rest@) =~= rows_view(before).drop_first());
            assert(whole.skip(n as int).drop_first() =~= whole.skip(n as int + 1));
            assert(whole.take(n as int + 1).drop_last() =~= whole.take(n as int));
            assert(whole.take(n as int + 1).last() == (row.0@, row.1));
        }
        let same_integration = str_eq(row.1.integration.as_str(), integration);
        let same_conn = match conn {
            Some(c) => row.1.owner == c.0 && str_eq(row.1.connection.as_str(), c.1),
            None => true,
        };
        let dropped = same_integration && same_conn && !(keep_static && row.1.static_tool);
        if !dropped {
            let ghost o = out@;
            out.push(row);
            assert(rows_view(out@) =~= rows_view(o).push((row.0@, row.1)));
        }
        n += 1;
    }
    assert(whole.take(n as int) =~= whole);
    t.set_rows(out);
}

fn keep_conn_rows(t: &mut Table<Connection>, slug: &str)
    ensures
        final(t)@ == conns_left(old(t)@, slug@),
{
    proof {
        reveal_strlit("/");
    }
    let mut needle = copy_str("/");
    push_str(&mut needle, slug);
    push_str(&mut needle, "/");
    assert(needle@ =~= seq!['/'] + slug@ + seq!['/']);
    let ghost whole = t@;
    let mut rest = t.take_rows();
    let mut out: Vec<(String, Connection)> = Vec::new();
    let total: usize = rest.len();
    let mut n: usize = 0;
    assert(whole.take(0) =~= Seq::<(Seq<char>, Connection)>::empty());
    assert(whole.skip(0) =~= whole);
    while rest.len() > 0
        invariant
            n + rest@.len() == whole.len(),
            total == whole.len(),
            needle@ == seq!['/'] + slug@ + seq!['/'],
            rows_view(rest@) == whole.skip(n as int),
            rows_view(out@) == conns_left(whole.take(n as int), slug@),
        decreases rest.len(),
    {
        let ghost before = rest@;
        let row = rest.remove(0);
        proof {
            assert(whole.skip(n as int)[0] == rows_view(before)[0]);
            assert(rows_view(rest@) =~= rows_view(before).drop_first());
            assert(whole.skip(n as int).drop_first() =~= whole.skip(n as int + 1));
            assert(whole.take(n as int + 1).drop_last() =~= whole.take(n as int));
            assert(whole.take(n as int + 1).last() == (row.0@, row.1));
        }
        let chars = to_chars(row.0.as_str());
        if find_str_from(&chars, 0, needle.as_str()).is_none() {
            let ghost o = out@;
            out.push(row);
            assert(rows_view(out@) =~= rows_view(o).push((row.0@, row.1)));
        }
        n += 1;
    }
    assert(whole.take(n as int) =~= whole);
    t.set_rows(out);
}

impl MemoryCatalog {
    /// An empty catalog.
    pub fn new() -> (c: Self)
        ensures
            c.integrations@.len() == 0,
            c.connections@.len() == 0,
            c.tools@.len() == 0,
            c.policies@.len() == 0,
            c.executions@.len() == 0,
            c.idempotency@.len() == 0,
            c.blobs@.len() == 0,
            c.kv@.len() == 0,
    {
        MemoryCatalog {
            integrations: Table::new(),
            connections: Table::new(),
            tools: Table::new(),
            policies: Table::new(),
            executions: Table::new(),
            idempotency: Table::new(),
            blobs: Table::new(),
            kv: Table::new(),
        }
    }

    /// Store an integration under its slug, replacing any there.
    pub fn put_integration(&mut self, row: IntegrationRecord)
        ensures
            final(self).integrations@ == put_row(old(self).integrations@, row.integration.slug@, row),
            final(self).connections@ == old(self).connections@,
            final(self).tools@ == old(self).tools@,
    {
        let key = copy_str(row.integration.slug.as_str());
        self.integrations.put(key, row);
    }

    /// The integration stored under `slug`.
    pub fn get_integration(&self, slug: &IntegrationSlug) -> (r: Option<&IntegrationRecord>)
        ensures
            match row_of(self.integrations@, slug@) {
                Some(v) => r == Some(&v),
                None => r is None,
            },
    {
        self.integrations.get(slug.as_str())
    }

    /// Every integration, by slug.
    pub fn list_integrations(&self) -> (r: Vec<&IntegrationRecord>)
        ensures
            r@.len() == self.integrations@.len(),
            forall|i: int| 0 <= i < r@.len() ==> *(#[trigger] r@[i]) == self.integrations@[i].1,
    {
        self.integrations.values()
    }

    /// Remove an integration with its connections and tools; whether it was there.
    pub fn remove_integration(&mut self, slug: &IntegrationSlug) -> (r: bool)
        ensures
            r == row_of(old(self).integrations@, slug@) is Some,
            final(self).integrations@ == drop_key(old(self).integrations@, slug@),
            final(self).connections@ == conns_left(old(self).connections@, slug@),
            final(self).tools@ == tools_left(old(self).tools@, slug@, None, false),
    {
        let existed = self.integrations.remove(slug.as_str()).is_some();
        keep_conn_rows(&mut self.connections, slug.as_str());
        keep_tool_rows(&mut self.tools, slug.as_str(), None, false);
        existed
    }

    /// Store a connection under `owner/integration/name`, replacing any there.
    pub fn put_connection(&mut self, row: Connection)
        ensures
            final(self).connections@ == put_row(
                old(self).connections@,
                conn_key(row.owner, row.integration@, row.name@),
                row,
            ),
            final(self).tools@ == old(self).tools@,
    {
        let key = ConnectionRef { owner: row.owner, name: row.name.clone(), integration: row.integration.clone() };
        let k = key.as_key();
        self.connections.put(k, row);
    }

    /// The connection `id` names.
    pub fn get_connection(&self, id: &ConnectionRef) -> (r: Option<&Connection>)
        ensures
            match row_of(self.connections@, conn_key(id.owner, id.integration@, id.name@)) {
                Some(v) => r == Some(&v),
                None => r is None,
            },
    {
        let k = id.as_key();
        self.connections.get(k.as_str())
    }

    /// The connections of `integration` and `owner` (each when given), by key.
    pub fn list_connections(&self, integration: Option<&IntegrationSlug>, owner: Option<Owner>) -> (r: Vec<&Connection>)
        ensures
            r@.map_values(|c: &Connection| *c) == keep_rows(
                self.connections@,
                |row: (Seq<char>, Connection)| {
                    &&& (match integration {
                        Some(s) => row.1.integration@ == s@,
                        None => true,
                    })
                    &&& (match owner {
                        Some(o) => row.1.owner == o,
                        None => true,
                    })
                },
            ).map_values(|row: (Seq<char>, Connection)| row.1),
    {
        let ghost keep = |row: (Seq<char>, Connection)| {
            &&& (match integration {
                Some(s) => row.1.integration@ == s@,
                None => true,
            })
            &&& (match owner {
                Some(o) => row.1.owner == o,
                None => true,
            })
        };
        let all = self.connections.values();
        let ghost s = self.connections@;
        let mut out: Vec<&Connection> = Vec::new();
        let mut i: usize = 0;
        assert(s.take(0) =~= Seq::<(Seq<char>, Connection)>::empty());
        while i < all.len()
            invariant
                i <= all@.len(),
                all@.len() == s.len(),
                forall|j: int| 0 <= j < all@.len() ==> *(#[trigger] all@[j]) == s[j].1,
                out@.map_values(|c: &Connection| *c) == keep_rows(s.take(i as int), keep).map_values(
                    |row: (Seq<char>, Connection)| row.1,
                ),
                keep == (|row: (Seq<char>, Connection)| {
                    &&& (match integration {
                        Some(s) => row.1.integration@ == s@,
                        None => true,
                    })
                    &&& (match owner {
                        Some(o) => row.1.owner == o,
                        None => true,
                    })
                }),
            decreases all.len() - i,
        {
            let c = all[i];
            proof {
                assert(s.take(i as int + 1).drop_last() =~= s.take(i as int));
                assert(s.take(i as int + 1).last() == s[i as int]);
            }
            let ok_integration = match integration {
                Some(slug) => str_eq(c.integration.as_str(), slug.as_str()),
                None => true,
            };
            let ok_owner = match owner {
                Some(o) => c.owner == o,
                None => true,
            };
            if ok_integration && ok_owner {
                let ghost o = out@;
                out.push(c);
                assert(out@.map_values(|c: &Connection| *c) =~= o.map_values(|c: &Connection| *c).push(*c));
                assert(keep_rows(s.take(i as int + 1), keep).map_values(|row: (Seq<char>, Connection)| row.1)
                    =~= keep_rows(s.take(i as int), keep).map_values(|row: (Seq<char>, Connection)| row.1).push(
                    s[i as int].1,
                ));
            }
            i += 1;
        }
        assert(s.take(i as int) =~= s);
        out
    }

    /// Remove a connection with its tools; whether it was there.
    pub fn remove_connection(&mut self, id: &ConnectionRef) -> (r: bool)
        ensures
            r == row_of(old(self).connections@, conn_key(id.owner, id.integration@, id.name@)) is Some,
            final(self).connections@ == drop_key(
                old(self).connections@,
                conn_key(id.owner, id.integration@, id.name@),
            ),
            final(self).tools@ == tools_left(old(self).tools@, id.integration@, Some((id.owner, id.name@)), false),
    {
        let k = id.as_key();
        let existed = self.connections.remove(k.as_str()).is_some();
        keep_tool_rows(&mut self.tools, id.integration.as_str(), Some((id.owner, id.name.as_str())), false);
        existed
    }

    /// Replace the tools of one connection (built-in tools stay), then store each given
    /// tool under its address.
    pub fn replace_tools(&mut self, id: &ConnectionRef, tools: Vec<Tool>)
        ensures
            final(self).tools@ == put_tools(
                tools_left(old(self).tools@, id.integration@, Some((id.owner, id.name@)), true),
                tools@,
            ),
    {
        keep_tool_rows(&mut self.tools, id.integration.as_str(), Some((id.owner, id.name.as_str())), true);
        let ghost base = self.tools@;
        let ghost all = tools@;
        let mut rest = tools;
        let total: usize = rest.len();
        let mut n: usize = 0;
        assert(all.take(0) =~= Seq::<Tool>::empty());
        assert(all.skip(0) =~= all);
        while rest.len() > 0
            invariant
                n + rest@.len() == all.len(),
                total == all.len(),
                rest@ == all.skip(n as int),
                self.tools@ == put_tools(base, all.take(n as int)),
            decreases rest.len(),
        {
            let t = rest.remove(0);
            proof {
                assert(all.skip(n as int)[0] == t);
                assert(all.take(n as int + 1).drop_last() =~= all.take(n as int));
                assert(all.take(n as int + 1).last() == t);
                assert(rest@ =~= all.skip(n as int + 1));
            }
            let key = t.address.to_string();
            self.tools.put(key, t);
            n += 1;
        }
        assert(all.take(n as int) =~= all);
    }

    /// The tool stored under `address`.
    pub fn get_tool(&self, address: &ToolAddress) -> (r: Option<&Tool>)
        ensures
            match row_of(self.tools@, spec_address_text(address@)) {
                Some(v) => r == Some(&v),
                None => r is None,
            },
    {
        let k = address.to_string();
        self.tools.get(k.as_str())
    }

    /// Every tool, by address.
    pub fn list_tools(&self) -> (r: Vec<&Tool>)
        ensures
            r@.len() == self.tools@.len(),
            forall|i: int| 0 <= i < r@.len() ==> *(#[trigger] r@[i]) == self.tools@[i].1,
    {
        self.tools.values()
    }

    /// Store a policy under its id, replacing any there.
    pub fn put_policy(&mut self, row: ToolPolicy)
        ensures
            final(self).policies@ == put_row(old(self).policies@, row.id@, row),
    {
        let key = copy_str(row.id.as_str());
        self.policies.put(key, row);
    }

    /// Every policy, by id.
    pub fn list_policies(&self) -> (r: Vec<&ToolPolicy>)
        ensures
            r@.len() == self.policies@.len(),
            forall|i: int| 0 <= i < r@.len() ==> *(#[trigger] r@[i]) == self.policies@[i].1,
    {
        self.policies.values()
    }

    /// Remove a policy; whether it was there.
    pub fn remove_policy(&mut self, id: &PolicyId) -> (r: bool)
        ensures
            r == row_of(old(self).policies@, id@) is Some,
            final(self).policies@ == drop_key(old(self).policies@, id@),
    {
        self.policies.remove(id.as_str()).is_some()
    }

    /// Store an execution's state, replacing any there.
    pub fn put_execution(&mut self, id: &ExecutionId, state: ExecutionState)
        ensures
            final(self).executions@ == put_row(old(self).executions@, id@, state),
    {
        self.executions.put(copy_str(id.as_str()), state);
    }

    /// The state of execution `id`.
    pub fn get_execution(&self, id: &ExecutionId) -> (r: Option<&ExecutionState>)
        ensures
            match row_of(self.executions@, id@) {
                Some(v) => r == Some(&v),
                None => r is None,
            },
    {
        self.executions.get(id.as_str())
    }

    /// Remove execution `id`, giving back its state (a consumed resume).
    pub fn take_execution(&mut self, id: &ExecutionId) -> (r: Option<ExecutionState>)
        ensures
            r == row_of(old(self).executions@, id@),
            final(self).executions@ == drop_key(old(self).executions@, id@),
    {
        self.executions.remove(id.as_str())
    }

    /// Record that `key` names execution `id`, unless it already names one.
    pub fn put_idempotency(&mut self, key: &str, id: &ExecutionId)
        ensures
            row_of(old(self).idempotency@, key@) is Some ==> final(self).idempotency@ == old(self).idempotency@,
            row_of(old(self).idempotency@, key@) is None ==> (exists|c: ExecutionId|
                c@ == id@ && final(self).idempotency@ == put_row(old(self).idempotency@, key@, c)),
    {
        if self.idempotency.get(key).is_none() {
            let c = id.clone();
            self.idempotency.put(copy_str(key), c);
        }
    }

    /// The execution `key` names.
    pub fn get_idempotency(&self, key: &str) -> (r: Option<&ExecutionId>)
        ensures
            match row_of(self.idempotency@, key@) {
                Some(v) => r == Some(&v),
                None => r is None,
            },
    {
        self.idempotency.get(key)
    }

    /// Store document `id` of `collection`, replacing any there.
    pub fn put_kv(&mut self, collection: &str, id: &str, body: JsonValue)
        ensures
            nested_row(final(self).kv@, collection@, id@) == Some(body),
            forall|c: Seq<char>, d: Seq<char>| (c != collection@ || d != id@) ==> nested_row(
                #[trigger] final(self).kv@,
                c,
                d,
            ) == nested_row(old(self).kv@, c, d),
    {
        let ghost old_kv = self.kv@;
        let mut inner = match self.kv.remove(collection) {
            Some(t) => t,
            None => Table::new(),
        };
        let ghost before = inner@;
        inner.put(copy_str(id), body);
        let ghost now = inner;
        self.kv.put(copy_str(collection), inner);
        proof {
            table::law_get_after_put(drop_key(old_kv, collection@), collection@, now);
            table::law_get_after_put(before, id@, body);
            assert forall|c: Seq<char>, d: Seq<char>| (c != collection@ || d != id@) implies nested_row(
                self.kv@,
                c,
                d,
            ) == nested_row(old_kv, c, d) by {
                if c != collection@ {
                    table::law_put_keeps_others(drop_key(old_kv, collection@), collection@, now, c);
                    table::law_remove(old_kv, collection@, c);
                } else {
                    table::law_put_keeps_others(before, id@, body, d);
                }
            }
        }
    }

    /// Document `id` of `collection`.
    pub fn get_kv(&self, collection: &str, id: &str) -> (r: Option<&JsonValue>)
        ensures
            match nested_row(self.kv@, collection@, id@) {
                Some(v) => r == Some(&v),
                None => r is None,
            },
    {
        match self.kv.get(collection) {
            Some(t) => t.get(id),
            None => None,
        }
    }

    /// Every document of `collection`, by id.
    pub fn list_kv(&self, collection: &str) -> (r: Vec<&JsonValue>)
        ensures
            match row_of(self.kv@, collection@) {
                Some(t) => r@.len() == t@.len() && forall|i: int| 0 <= i < r@.len() ==> *(#[trigger] r@[i]) == t@[i].1,
                None => r@.len() == 0,
            },
    {
        match self.kv.get(collection) {
            Some(t) => t.values(),
            None => Vec::new(),
        }
    }

    /// Remove document `id` of `collection`; whether it was there.
    pub fn delete_kv(&mut self, collection: &str, id: &str) -> (r: bool)
        ensures
            r == nested_row(old(self).kv@, collection@, id@) is Some,
            nested_row(final(self).kv@, collection@, id@) is None,
            forall|c: Seq<char>, d: Seq<char>| (c != collection@ || d != id@) ==> nested_row(
                #[trigger] final(self).kv@,
                c,
                d,
            ) == nested_row(old(self).kv@, c, d),
    {
        let ghost old_kv = self.kv@;
        match self.kv.remove(collection) {
            None => {
                proof {
                    assert forall|c: Seq<char>, d: Seq<char>| (c != collection@ || d != id@) implies nested_row(
                        self.kv@,
                        c,
                        d,
                    ) == nested_row(old_kv, c, d) by {
                        table::law_remove(old_kv, collection@, c);
                    }
                    table::law_remove(old_kv, collection@, collection@);
                }
                false
            },
            Some(mut inner) => {
                let ghost before = inner@;
                let existed = inner.remove(id).is_some();
                let ghost now = inner;
                self.kv.put(copy_str(collection), inner);
                proof {
                    table::law_get_after_put(drop_key(old_kv, collection@), collection@, now);
                    table::law_remove(before, id@, id@);
                    assert forall|c: Seq<char>, d: Seq<char>| (c != collection@ || d != id@) implies nested_row(
                        self.kv@,
                        c,
                        d,
                    ) == nested_row(old_kv, c, d) by {
                        if c != collection@ {
                            table::law_put_keeps_others(drop_key(old_kv, collection@), collection@, now, c);
                            table::law_remove(old_kv, collection@, c);
                        } else {
                            table::law_remove(before, id@, d);
                        }
                    }
                }
                existed
            },
        }
    }
}

/// The blob stored under `namespace` and `key`, as bytes.
pub open spec fn blob_bytes(s: Seq<(Seq<char>, Table<Vec<u8>>)>, namespace: Seq<char>, key: Seq<char>) -> Option<Seq<u8>> {
    match nested_row(s, namespace, key) {
        Some(v) => Some(v@),
        None => None,
    }
}

/// Optional blob namespace (pending approvals, spec bodies).
pub trait BlobStore {
    /// The bytes stored under `namespace` and `key`.
    spec fn blob(&self, namespace: Seq<char>, key: Seq<char>) -> Option<Seq<u8>>;

    /// Write a blob.
    fn put(&mut self, namespace: &str, key: &str, value: &[u8]) -> (r: Result<(), StorageError>)
        ensures
            r is Ok ==> final(self).blob(namespace@, key@) == Some(value@),
            r is Ok ==> forall|c: Seq<char>, d: Seq<char>| (c != namespace@ || d != key@) ==> final(self).blob(c, d) == old(
                self,
            ).blob(c, d),
    ;

    /// Read a blob.
    fn get(&self, namespace: &str, key: &str) -> (r: Result<Option<Vec<u8>>, StorageError>)
        ensures
            r matches Ok(o) ==> match self.blob(namespace@, key@) {
                Some(b) => (o matches Some(v) && v@ == b),
                None => o is None,
            },
    ;

    /// Delete a blob.
    fn delete(&mut self, namespace: &str, key: &str) -> (r: Result<(), StorageError>)
        ensures
            r is Ok ==> final(self).blob(namespace@, key@) is None,
            r is Ok ==> forall|c: Seq<char>, d: Seq<char>| (c != namespace@ || d != key@) ==> final(self).blob(c, d) == old(
                self,
            ).blob(c, d),
    ;
}

impl BlobStore for MemoryCatalog {
    open spec fn blob(&self, namespace: Seq<char>, key: Seq<char>) -> Option<Seq<u8>> {
        blob_bytes(self.blobs@, namespace, key)
    }

    /// Store a blob under `namespace` and `key`, replacing any there.
    fn put(&mut self, namespace: &str, key: &str, value: &[u8]) -> (r: Result<(), StorageError>)
        ensures
            r is Ok,
    {
        let value = vstd::slice::slice_to_vec(value);
        let ghost old_b = self.blobs@;
        let mut inner = match self.blobs.remove(namespace) {
            Some(t) => t,
            None => Table::new(),
        };
        let ghost before = inner@;
        inner.put(copy_str(key), value);
        let ghost now = inner;
        self.blobs.put(copy_str(namespace), inner);
        proof {
            table::law_get_after_put(drop_key(old_b, namespace@), namespace@, now);
            table::law_get_after_put(before, key@, value);
            assert forall|c: Seq<char>, d: Seq<char>| (c != namespace@ || d != key@) implies nested_row(
                self.blobs@,
                c,
                d,
            ) == nested_row(old_b, c, d) by {
                if c != namespace@ {
                    table::law_put_keeps_others(drop_key(old_b, namespace@), namespace@, now, c);
                    table::law_remove(old_b, namespace@, c);
                } else {
                    table::law_put_keeps_others(before, key@, value, d);
                }
            }
        }
        Ok(())
    }

    /// The blob under `namespace` and `key`.
    fn get(&self, namespace: &str, key: &str) -> (r: Result<Option<Vec<u8>>, StorageError>)
        ensures
            r is Ok,
    {
        let found = match self.blobs.get(namespace) {
            Some(t) => t.get(key),
            None => None,
        };
        match found {
            Some(v) => Ok(Some(vstd::slice::slice_to_vec(v.as_slice()))),
            None => Ok(None),
        }
    }

    /// Remove the blob under `namespace` and `key`.
    fn delete(&mut self, namespace: &str, key: &str) -> (r: Result<(), StorageError>)
        ensures
            r is Ok,
    {
        let ghost old_b = self.blobs@;
        match self.blobs.remove(namespace) {
            None => {
                proof {
                    assert forall|c: Seq<char>, d: Seq<char>| (c != namespace@ || d != key@) implies nested_row(
                        self.blobs@,
                        c,
                        d,
                    ) == nested_row(old_b, c, d) by {
                        table::law_remove(old_b, namespace@, c);
                    }
                    table::law_remove(old_b, namespace@, namespace@);
                }
                Ok(())
            },
            Some(mut inner) => {
                let ghost before = inner@;
                inner.remove(key);
                let ghost now = inner;
                self.blobs.put(copy_str(namespace), inner);
                proof {
                    table::law_get_after_put(drop_key(old_b, namespace@), namespace@, now);
                    table::law_remove(before, key@, key@);
                    assert forall|c: Seq<char>, d: Seq<char>| (c != namespace@ || d != key@) implies nested_row(
                        self.blobs@,
                        c,
                        d,
                    ) == nested_row(old_b, c, d) by {
                        if c != namespace@ {
                            table::law_put_keeps_others(drop_key(old_b, namespace@), namespace@, now, c);
                            table::law_remove(old_b, namespace@, c);
                        } else {
                            table::law_remove(before, key@, d);
                        }
                    }
                }
                Ok(())
            },
        }
    }
}

} // verus!
