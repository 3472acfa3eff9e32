//! A string-keyed table that keeps its rows in key order: what the in-process catalog
//! stores each kind of row in.

use vstd::prelude::*;
use crate::text::{lex_lt, lex_order_str, lemma_lex_order_basic};

verus! {

/// The row stored under `k`: the first one with that key.
pub open spec fn row_of<V>(s: Seq<(Seq<char>, V)>, k: Seq<char>) -> Option<V>
    decreases s.len(),
{
    if s.len() == 0 {
        None
    } else if s[0].0 == k {
        Some(s[0].1)
    } else {
        row_of(s.drop_first(), k)
    }
}

/// `s` with `(k, v)` in key order, replacing the row under `k`.
pub open spec fn put_row<V>(s: Seq<(Seq<char>, V)>, k: Seq<char>, v: V) -> Seq<(Seq<char>, V)>
    decreases s.len(),
{
    if s.len() == 0 {
        seq![(k, v)]
    } else if s[0].0 == k {
        seq![(k, v)] + s.drop_first()
    } else if lex_lt(k, s[0].0) {
        seq![(k, v)] + s
    } else {
        seq![s[0]] + put_row(s.drop_first(), k, v)
    }
}

/// `s` without the rows under `k`.
pub open spec fn drop_key<V>(s: Seq<(Seq<char>, V)>, k: Seq<char>) -> Seq<(Seq<char>, V)>
    decreases s.len(),
{
    if s.len() == 0 {
        s
    } else if s[0].0 == k {
        drop_key(s.drop_first(), k)
    } else {
        seq![s[0]] + drop_key(s.drop_first(), k)
    }
}

/// A read after a write under the same key gives what was written.
pub proof fn law_get_after_put<V>(s: Seq<(Seq<char>, V)>, k: Seq<char>, v: V)
    ensures
        row_of(put_row(s, k, v), k) == Some(v),
    decreases s.len(),
{
    if s.len() > 0 && s[0].0 != k && !lex_lt(k, s[0].0) {
        law_get_after_put(s.drop_first(), k, v);
        assert(put_row(s, k, v).drop_first() =~= put_row(s.drop_first(), k, v));
    }
}

/// A write under one key leaves the rows under every other key as they were.
pub proof fn law_put_keeps_others<V>(s: Seq<(Seq<char>, V)>, k: Seq<char>, v: V, other: Seq<char>)
    requires
        other != k,
    ensures
        row_of(put_row(s, k, v), other) == row_of(s, other),
    decreases s.len(),
{
    if s.len() > 0 {
        if s[0].0 == k {
            assert(put_row(s, k, v)[0].0 == k);
            assert(put_row(s, k, v).drop_first() =~= s.drop_first());
        } else if lex_lt(k, s[0].0) {
            assert(put_row(s, k, v)[0].0 == k);
            assert(put_row(s, k, v).drop_first() =~= s);
        } else {
            assert(put_row(s, k, v)[0] == s[0]);
            law_put_keeps_others(s.drop_first(), k, v, other);
            assert(put_row(s, k, v).drop_first() =~= put_row(s.drop_first(), k, v));
        }
    } else {
        assert(put_row(s, k, v).drop_first() =~= s);
    }
}

/// After a removal nothing is stored under the key; other keys keep their rows.
pub proof fn law_remove<V>(s: Seq<(Seq<char>, V)>, k: Seq<char>, other: Seq<char>)
    ensures
        row_of(drop_key(s, k), k) is None,
        other != k ==> row_of(drop_key(s, k), other) == row_of(s, other),
    decreases s.len(),
{
    if s.len() > 0 {
        law_remove(s.drop_first(), k, other);
        if s[0].0 != k {
            assert((seq![s[0]] + drop_key(s.drop_first(), k)).drop_first() =~= drop_key(s.drop_first(), k));
        }
    }
}

proof fn lemma_put_prefix<V>(s: Seq<(Seq<char>, V)>, k: Seq<char>, v: V, i: int)
    requires
        0 <= i <= s.len(),
        forall|j: int| 0 <= j < i ==> (#[trigger] s[j]).0 != k && !lex_lt(k, s[j].0),
    ensures
        put_row(s, k, v) == s.take(i) + put_row(s.skip(i), k, v),
    decreases i,
{
    if i > 0 {
        assert(s[0].0 != k && !lex_lt(k, s[0].0));
        let t = s.drop_first();
        assert forall|j: int| 0 <= j < i - 1 implies (#[trigger] t[j]).0 != k && !lex_lt(k, t[j].0) by {
            assert(t[j] == s[j + 1]);
        }
        lemma_put_prefix(t, k, v, i - 1);
        assert(t.skip(i - 1) =~= s.skip(i));
        assert(s.take(i) =~= seq![s[0]] + t.take(i - 1));
    } else {
        assert(s.skip(0) =~= s);
        assert(s.take(0) =~= Seq::<(Seq<char>, V)>::empty());
    }
}

proof fn lemma_row_prefix<V>(s: Seq<(Seq<char>, V)>, k: Seq<char>, i: int)
    requires
        0 <= i <= s.len(),
        forall|j: int| 0 <= j < i ==> (#[trigger] s[j]).0 != k,
    ensures
        row_of(s, k) == row_of(s.skip(i), k),
    decreases i,
{
    if i > 0 {
        let t = s.drop_first();
        assert forall|j: int| 0 <= j < i - 1 implies (#[trigger] t[j]).0 != k by {
            assert(t[j] == s[j + 1]);
        }
        lemma_row_prefix(t, k, i - 1);
        assert(t.skip(i - 1) =~= s.skip(i));
    } else {
        assert(s.skip(0) =~= s);
    }
}

proof fn lemma_drop_split<V>(a: Seq<(Seq<char>, V)>, b: Seq<(Seq<char>, V)>, k: Seq<char>)
    ensures
        drop_key(a + b, k) == drop_key(a, k) + drop_key(b, k),
    decreases a.len(),
{
    if a.len() == 0 {
        assert(a + b =~= b);
        assert(drop_key(a, k) + drop_key(b, k) =~= drop_key(b, k));
    } else {
        assert((a + b).drop_first() =~= a.drop_first() + b);
        lemma_drop_split(a.drop_first(), b, k);
        if a[0].0 != k {
            assert(seq![a[0]] + (drop_key(a.drop_first(), k) + drop_key(b, k)) =~= (seq![a[0]] + drop_key(
                a.drop_first(),
                k,
            )) + drop_key(b, k));
        }
    }
}

/// Rows under string keys, in key order.
pub struct Table<V> {
    rows: Vec<(String, V)>,
}

/// The rows as plain keys and values.
pub open spec fn rows_view<V>(rows: Seq<(String, V)>) -> Seq<(Seq<char>, V)> {
    rows.map_values(|r: (String, V)| (r.0@, r.1))
}

impl<V> View for Table<V> {
    type V = Seq<(Seq<char>, V)>;

    closed spec fn view(&self) -> Seq<(Seq<char>, V)> {
        rows_view(self.rows@)
    }
}

impl<V> Table<V> {
    /// An empty table.
    pub fn new() -> (t: Self)
        ensures
            t@ == Seq::<(Seq<char>, V)>::empty(),
    {
        let t = Table { rows: Vec::new() };
        assert(t@ =~= Seq::<(Seq<char>, V)>::empty());
        t
    }

    /// Store `v` under `k`, in key order, replacing the row under `k`.
    pub fn put(&mut self, k: String, v: V)
        ensures
            final(self)@ == put_row(old(self)@, k@, v),
    {
        let ghost s = self@;
        let mut i: usize = 0;
        let mut found: i8 = 1;
        while i < self.rows.len()
            invariant_except_break
                i <= self.rows@.len(),
                s == rows_view(self.rows@),
                forall|j: int| 0 <= j < i ==> (#[trigger] s[j]).0 != k@ && !lex_lt(k@, s[j].0),
            invariant
                s == rows_view(self.rows@),
            ensures
                i <= self.rows@.len(),
                forall|j: int| 0 <= j < i ==> (#[trigger] s[j]).0 != k@ && !lex_lt(k@, s[j].0),
                i < self.rows@.len() ==> (found == 0 && s[i as int].0 == k@) || (found == -1 && lex_lt(
                    k@,
                    s[i as int].0,
                )),
            decreases self.rows.len() - i,
        {
            let c = lex_order_str(k.as_str(), self.rows[i].0.as_str());
            proof {
                lemma_lex_order_basic(k@, self.rows@[i as int].0@);
                assert(s[i as int].0 == self.rows@[i as int].0@);
            }
            if c == 0 || c == -1 {
                found = c;
                break;
            }
            i += 1;
        }
        proof {
            lemma_put_prefix(s, k@, v, i as int);
            assert(s.skip(i as int).len() > 0 ==> s.skip(i as int)[0] == s[i as int]);
        }
        let ghost kv = k@;
        let ghost before = self.rows@;
        if i == self.rows.len() {
            self.rows.push((k, v));
            assert(s.skip(i as int) =~= Seq::<(Seq<char>, V)>::empty());
            assert(s.take(i as int) =~= s);
            assert(rows_view(self.rows@) =~= s.take(i as int) + put_row(s.skip(i as int), kv, v));
        } else if found == 0 {
            self.rows.set(i, (k, v));
            assert(s.skip(i as int)[0].0 == kv);
            assert(rows_view(self.rows@) =~= s.take(i as int) + (seq![(kv, v)] + s.skip(i as int).drop_first()));
        } else {
            proof {
                lemma_lex_order_basic(kv, s[i as int].0);
            }
            assert(s.skip(i as int)[0].0 != kv);
            assert(lex_lt(kv, s.skip(i as int)[0].0));
            self.rows.insert(i, (k, v));
            assert(rows_view(self.rows@) =~= s.take(i as int) + (seq![(kv, v)] + s.skip(i as int)));
        }
        assert(rows_view(self.rows@) =~= put_row(s, kv, v));
    }

    /// The row under `k`.
    pub fn get(&self, k: &str) -> (r: Option<&V>)
        ensures
            match row_of(self@, k@) {
                Some(v) => r == Some(&v),
                None => r is None,
            },
    {
        let ghost s = self@;
        let mut i: usize = 0;
        while i < self.rows.len()
            invariant
                i <= self.rows@.len(),
                s == rows_view(self.rows@),
                forall|j: int| 0 <= j < i ==> (#[trigger] s[j]).0 != k@,
            decreases self.rows.len() - i,
        {
            if crate::text::str_eq(self.rows[i].0.as_str(), k) {
                proof {
                    lemma_row_prefix(s, k@, i as int);
                    assert(s.skip(i as int)[0] == s[i as int]);
                }
                return Some(&self.rows[i].1);
            }
            i += 1;
        }
        proof {
            lemma_row_prefix(s, k@, i as int);
            assert(s.skip(i as int) =~= Seq::<(Seq<char>, V)>::empty());
        }
        None
    }

    /// Remove the row under `k`, giving it back.
    pub fn remove(&mut self, k: &str) -> (r: Option<V>)
        ensures
            r == row_of(old(self)@, k@),
            final(self)@ == drop_key(old(self)@, k@),
    {
        let ghost whole = self@;
        let mut out: Vec<(String, V)> = Vec::new();
        let mut taken: Option<V> = None;
        let mut rest: Vec<(String, V)> = Vec::new();
        std::mem::swap(&mut rest, &mut self.rows);
        let mut n: usize = 0;
        assert(rows_view(rest@) == whole);
        let total: usize = rest.len();
        assert(whole.skip(0) =~= whole);
        assert(whole.take(0) =~= Seq::<(Seq<char>, V)>::empty());
        while rest.len() > 0
            invariant
                n + rest@.len() == whole.len(),
                total == whole.len(),
                rows_view(rest@) == whole.skip(n as int),
                rows_view(out@) == drop_key(whole.take(n as int), k@),
                row_of(whole, k@) == match taken {
                    Some(v) => Some(v),
                    None => row_of(whole.skip(n as int), k@),
                },
            decreases rest.len(),
        {
            let ghost before = rest@;
            let row = rest.remove(0);
            proof {
                assert(whole.skip(n as int)[0] == rows_view(before)[0]);
                assert(whole.skip(n as int)[0] == (row.0@, row.1));
                assert(whole.skip(n as int).drop_first() =~= whole.skip(n as int + 1));
                assert(rows_view(rest@) =~= rows_view(before).drop_first());
                assert(whole.take(n as int + 1) =~= whole.take(n as int) + seq![(row.0@, row.1)]);
                lemma_drop_split(whole.take(n as int), seq![(row.0@, row.1)], k@);
                assert(seq![(row.0@, row.1)].drop_first() =~= Seq::<(Seq<char>, V)>::empty());
            }
            proof {
                reveal_with_fuel(drop_key, 2);
            }
            if crate::text::str_eq(row.0.as_str(), k) {
                if taken.is_none() {
                    taken = Some(row.1);
                }
                assert(drop_key(seq![(row.0@, row.1)], k@) =~= Seq::<(Seq<char>, V)>::empty());
                assert(drop_key(whole.take(n as int), k@) + Seq::<(Seq<char>, V)>::empty() =~= drop_key(
                    whole.take(n as int),
                    k@,
                ));
            } else {
                let ghost o = out@;
                out.push(row);
                assert(rows_view(out@) =~= rows_view(o).push((row.0@, row.1)));
                assert(drop_key(seq![(row.0@, row.1)], k@) =~= seq![(row.0@, row.1)]);
            }
            n += 1;
        }
        assert(whole.take(n as int) =~= whole);
        self.rows = out;
        taken
    }

    /// The stored values in key order.
    pub fn values(&self) -> (r: Vec<&V>)
        ensures
            r@.len() == self@.len(),
            forall|i: int| 0 <= i < r@.len() ==> *(#[trigger] r@[i]) == self@[i].1,
    {
        let mut out: Vec<&V> = Vec::new();
        let mut i: usize = 0;
        while i < self.rows.len()
            invariant
                i <= self.rows@.len(),
                out@.len() == i,
                self@ == rows_view(self.rows@),
                forall|j: int| 0 <= j < i ==> *(#[trigger] out@[j]) == self@[j].1,
            decreases self.rows.len() - i,
        {
            out.push(&self.rows[i].1);
            i += 1;
        }
        out
    }

    /// The rows in key order.
    pub fn rows(&self) -> (r: &Vec<(String, V)>)
        ensures
            rows_view(r@) == self@,
    {
        &self.rows
    }

    /// The rows, leaving the table empty.
    pub fn take_rows(&mut self) -> (r: Vec<(String, V)>)
        ensures
            rows_view(r@) == old(self)@,
            final(self)@ == Seq::<(Seq<char>, V)>::empty(),
    {
        let mut r: Vec<(String, V)> = Vec::new();
        std::mem::swap(&mut r, &mut self.rows);
        assert(rows_view(self.rows@) =~= Seq::<(Seq<char>, V)>::empty());
        r
    }

    /// Put back rows taken out (in the order given).
    pub fn set_rows(&mut self, rows: Vec<(String, V)>)
        ensures
            final(self)@ == rows_view(rows@),
    {
        self.rows = rows;
    }
}

} // verus!
