//! Prepaid integer micro-USD ledger. Five entries only: grant, topup, reserve, settle, release.
//!
//! Balances, holds and the record of signup grants are kept as lists with one entry per key.
//! Sharing one ledger between threads is the caller's part (a lock around it).

use vstd::prelude::*;
use crate::text::{copy_str, str_eq};
use super::CatalogError;

verus! {

/// $1.00 in micro-USD — signup credit.
pub const SIGNUP_GRANT_MICRO: i64 = 1_000_000;

/// The value of the last entry keyed `s`.
pub open spec fn lookup_balance(v: Seq<(String, i64)>, s: Seq<char>) -> Option<i64>
    decreases v.len(),
{
    if v.len() == 0 {
        None
    } else if v.last().0@ == s {
        Some(v.last().1)
    } else {
        lookup_balance(v.drop_last(), s)
    }
}

/// The hold (subject, amount) of the last entry keyed `c`.
pub open spec fn lookup_hold(v: Seq<(String, String, i64)>, c: Seq<char>) -> Option<(Seq<char>, i64)>
    decreases v.len(),
{
    if v.len() == 0 {
        None
    } else if v.last().0@ == c {
        Some((v.last().1@, v.last().2))
    } else {
        lookup_hold(v.drop_last(), c)
    }
}

/// Whether some string of `v` is `s`.
pub open spec fn contains_name(v: Seq<String>, s: Seq<char>) -> bool
    decreases v.len(),
{
    v.len() > 0 && (v.last()@ == s || contains_name(v.drop_last(), s))
}

/// No two balance entries share a key.
pub open spec fn unique_balances(v: Seq<(String, i64)>) -> bool {
    forall|i: int, j: int| 0 <= i < j < v.len() ==> (#[trigger] v[i]).0@ != (#[trigger] v[j]).0@
}

/// No two holds share a call id.
pub open spec fn unique_holds(v: Seq<(String, String, i64)>) -> bool {
    forall|i: int, j: int| 0 <= i < j < v.len() ==> (#[trigger] v[i]).0@ != (#[trigger] v[j]).0@
}

/// In-memory ledger for local/mock deployments.
pub struct MemoryLedger {
    balances: Vec<(String, i64)>,
    holds: Vec<(String, String, i64)>,
    granted: Vec<String>,
}

impl MemoryLedger {
    #[verifier::type_invariant]
    spec fn well_formed(self) -> bool {
        unique_balances(self.balances@) && unique_holds(self.holds@)
    }

    /// The balance of subject `s` (0 when it has none).
    pub closed spec fn balance_of(&self, s: Seq<char>) -> i64 {
        match lookup_balance(self.balances@, s) {
            Some(b) => b,
            None => 0,
        }
    }

    /// The hold of call `c`: its subject and reserved amount.
    pub closed spec fn hold_of(&self, c: Seq<char>) -> Option<(Seq<char>, i64)> {
        lookup_hold(self.holds@, c)
    }

    /// Whether subject `s` received the signup grant.
    pub closed spec fn is_granted(&self, s: Seq<char>) -> bool {
        contains_name(self.granted@, s)
    }

    /// Empty ledger.
    pub fn new() -> (r: Self)
        ensures
            forall|s: Seq<char>| r.balance_of(s) == 0,
            forall|c: Seq<char>| r.hold_of(c) is None,
            forall|s: Seq<char>| !r.is_granted(s),
    {
        MemoryLedger { balances: Vec::new(), holds: Vec::new(), granted: Vec::new() }
    }

    fn find_balance(&self, s: &str) -> (r: Option<usize>)
        ensures
            match r {
                Some(i) => i < self.balances@.len() && self.balances@[i as int].0@ == s@,
                None => forall|i: int| 0 <= i < self.balances@.len() ==> (#[trigger] self.balances@[i]).0@ != s@,
            },
    {
        let mut k: usize = 0;
        while k < self.balances.len()
            invariant
                k <= self.balances@.len(),
                forall|i: int| 0 <= i < k ==> (#[trigger] self.balances@[i]).0@ != s@,
            decreases self.balances.len() - k,
        {
            if str_eq(self.balances[k].0.as_str(), s) {
                return Some(k);
            }
            k += 1;
        }
        None
    }

    fn find_hold(&self, c: &str) -> (r: Option<usize>)
        ensures
            match r {
                Some(i) => i < self.holds@.len() && self.holds@[i as int].0@ == c@,
                None => forall|i: int| 0 <= i < self.holds@.len() ==> (#[trigger] self.holds@[i]).0@ != c@,
            },
    {
        let mut k: usize = 0;
        while k < self.holds.len()
            invariant
                k <= self.holds@.len(),
                forall|i: int| 0 <= i < k ==> (#[trigger] self.holds@[i]).0@ != c@,
            decreases self.holds.len() - k,
        {
            if str_eq(self.holds[k].0.as_str(), c) {
                return Some(k);
            }
            k += 1;
        }
        None
    }

    /// Sets the balance of `s` to `value`, leaving every other balance, hold and grant as is.
    fn set_balance(&mut self, s: &str, value: i64)
        ensures
            final(self).holds@ == old(self).holds@,
            final(self).granted@ == old(self).granted@,
            final(self).balance_of(s@) == value,
            forall|t: Seq<char>| t != s@ ==> final(self).balance_of(t) == old(self).balance_of(t),
            forall|c: Seq<char>| final(self).hold_of(c) == old(self).hold_of(c),
            forall|t: Seq<char>| final(self).is_granted(t) == old(self).is_granted(t),
    {
        proof {
            use_type_invariant(&*self);
        }
        let ghost old_b = self.balances@;
        match self.find_balance(s) {
            Some(i) => {
                let key = copy_str(self.balances[i].0.as_str());
                let mut b: Vec<(String, i64)> = Vec::new();
                std::mem::swap(&mut b, &mut self.balances);
                b.set(i, (key, value));
                proof {
                    lemma_lookup_balance_update(old_b, i as int, (key, value));
                }
                self.balances = b;
            },
            None => {
                let key = copy_str(s);
                let mut b: Vec<(String, i64)> = Vec::new();
                std::mem::swap(&mut b, &mut self.balances);
                b.push((key, value));
                proof {
                    assert(b@.drop_last() =~= old_b);
                    assert forall|x: int, y: int| 0 <= x < y < b@.len() implies (
                    #[trigger] b@[x]).0@ != (#[trigger] b@[y]).0@ by {
                        if y == old_b.len() {
                            assert(old_b[x].0@ != s@);
                        }
                    }
                }
                self.balances = b;
            },
        }
    }

    /// Ensure the subject has received the one-time signup grant; the balance after.
    pub fn ensure_signup_grant(&mut self, subject: &str) -> (r: Result<i64, CatalogError>)
        requires
            !old(self).is_granted(subject@) ==> old(self).balance_of(subject@) + SIGNUP_GRANT_MICRO
                <= i64::MAX,
        ensures
            signed_up(*old(self), *final(self), subject@),
            r == Ok::<i64, CatalogError>(final(self).balance_of(subject@)),
    {
        let found = self.granted(subject);
        if !found {
            let current = self.balance(subject);
            proof {
                use_type_invariant(&*self);
            }
            let ghost before = self.granted@;
            let mut g: Vec<String> = Vec::new();
            std::mem::swap(&mut g, &mut self.granted);
            g.push(copy_str(subject));
            self.granted = g;
            assert(self.granted@.drop_last() =~= before);
            self.set_balance(subject, current + SIGNUP_GRANT_MICRO);
        }
        Ok(self.balance(subject))
    }

    /// Whether the subject already received the signup grant.
    pub fn granted(&self, subject: &str) -> (r: bool)
        ensures
            r == self.is_granted(subject@),
    {
        let mut k: usize = 0;
        let mut found = false;
        while k < self.granted.len()
            invariant
                k <= self.granted@.len(),
                found == contains_name(self.granted@.take(k as int), subject@),
            decreases self.granted.len() - k,
        {
            assert(self.granted@.take(k + 1).drop_last() =~= self.granted@.take(k as int));
            if str_eq(self.granted[k].as_str(), subject) {
                found = true;
            }
            k += 1;
        }
        assert(self.granted@.take(self.granted@.len() as int) =~= self.granted@);
        found
    }

    /// Current balance (does not grant).
    pub fn balance(&self, subject: &str) -> (r: i64)
        ensures
            r == self.balance_of(subject@),
    {
        proof {
            use_type_invariant(self);
        }
        match self.find_balance(subject) {
            Some(i) => {
                proof {
                    lemma_lookup_balance_at(self.balances@, i as int);
                }
                self.balances[i].1
            },
            None => {
                proof {
                    lemma_lookup_balance_absent(self.balances@, subject@);
                }
                0
            },
        }
    }

    /// Credit (grant or mock top-up), saturating; the balance after. Fails on a non-positive
    /// amount.
    pub fn grant(&mut self, subject: &str, micro: i64) -> (r: Result<i64, CatalogError>)
        ensures
            micro <= 0 ==> r == Err::<i64, CatalogError>(CatalogError::Invalid("grant must be positive"))
                && final(self).balance_of(subject@) == old(self).balance_of(subject@),
            micro > 0 ==> final(self).balance_of(subject@) == spec_saturating_add(
                old(self).balance_of(subject@),
                micro,
            ) && r == Ok::<i64, CatalogError>(final(self).balance_of(subject@)),
            forall|t: Seq<char>| t != subject@ ==> final(self).balance_of(t) == old(self).balance_of(t),
            forall|c: Seq<char>| final(self).hold_of(c) == old(self).hold_of(c),
            forall|t: Seq<char>| final(self).is_granted(t) == old(self).is_granted(t),
    {
        if micro <= 0 {
            return Err(CatalogError::Invalid("grant must be positive"));
        }
        let current = self.balance(subject);
        let next: i64 = if current > i64::MAX - micro {
            i64::MAX
        } else {
            current + micro
        };
        self.set_balance(subject, next);
        Ok(next)
    }

    /// Reserve `micro` for `call_id`. Fails on a negative amount, a call already holding a
    /// reservation, or a balance short of the amount (reporting both).
    pub fn reserve(&mut self, subject: &str, call_id: &str, micro: i64) -> (r: Result<(), CatalogError>)
        ensures
            r == spec_reserve_result(old(self).balance_of(subject@), old(self).hold_of(call_id@), micro),
            reserved(*old(self), *final(self), subject@, call_id@, micro),
    {
        if micro < 0 {
            return Err(CatalogError::Invalid("reserve cannot be negative"));
        }
        if micro == 0 {
            return Ok(());
        }
        proof {
            use_type_invariant(&*self);
        }
        match self.find_hold(call_id) {
            Some(i) => {
                proof {
                    lemma_lookup_hold_at(self.holds@, i as int);
                }
                return Err(CatalogError::Invalid("call already reserved"));
            },
            None => {
                proof {
                    lemma_lookup_hold_absent(self.holds@, call_id@);
                }
            },
        }
        let bal = self.balance(subject);
        if bal < micro {
            return Err(CatalogError::PaymentRequired { balance_micro: bal, estimated_cost_micro: micro });
        }
        self.set_balance(subject, bal - micro);
        proof {
            use_type_invariant(&*self);
        }
        let ghost before = self.holds@;
        let mut h: Vec<(String, String, i64)> = Vec::new();
        std::mem::swap(&mut h, &mut self.holds);
        h.push((copy_str(call_id), copy_str(subject), micro));
        proof {
            assert(h@.drop_last() =~= before);
            assert forall|x: int, y: int| 0 <= x < y < h@.len() implies (
            #[trigger] h@[x]).0@ != (#[trigger] h@[y]).0@ by {
                if y == before.len() {
                    assert(before[x].0@ != call_id@);
                }
            }
        }
        self.holds = h;
        Ok(())
    }

    /// Consume a hold, charging `actual` (at least 0) of it and refunding the rest of the
    /// reservation; a call without a hold is left alone.
    pub fn settle(&mut self, call_id: &str, actual: i64) -> (r: Result<(), CatalogError>)
        requires
            old(self).hold_of(call_id@) matches Some((s, reserved)) ==> old(self).balance_of(s)
                + spec_refund(reserved, actual) <= i64::MAX,
        ensures
            r is Ok,
            settled(*old(self), *final(self), call_id@, actual),
    {
        proof {
            use_type_invariant(&*self);
        }
        let i = match self.find_hold(call_id) {
            Some(i) => i,
            None => {
                proof {
                    lemma_lookup_hold_absent(self.holds@, call_id@);
                }
                return Ok(());
            },
        };
        proof {
            lemma_lookup_hold_at(self.holds@, i as int);
        }
        let ghost before = self.holds@;
        let mut h: Vec<(String, String, i64)> = Vec::new();
        std::mem::swap(&mut h, &mut self.holds);
        let (_, subject, reserved) = h.remove(i);
        proof {
            lemma_lookup_hold_remove(before, i as int);
            assert forall|x: int, y: int| 0 <= x < y < h@.len() implies (
            #[trigger] h@[x]).0@ != (#[trigger] h@[y]).0@ by {
                let ox = if x < i { x } else { x + 1 };
                let oy = if y < i { y } else { y + 1 };
                assert(h@[x] == before[ox]);
                assert(h@[y] == before[oy]);
            }
        }
        self.holds = h;
        let charged = if actual > 0 {
            actual
        } else {
            0
        };
        let refund: i64 = if reserved < i64::MIN + charged {
            i64::MIN
        } else {
            reserved - charged
        };
        if refund > 0 {
            let current = self.balance(subject.as_str());
            self.set_balance(subject.as_str(), current + refund);
        }
        Ok(())
    }

    /// Release a hold without charging.
    pub fn release(&mut self, call_id: &str) -> (r: Result<(), CatalogError>)
        requires
            old(self).hold_of(call_id@) matches Some((s, reserved)) ==> old(self).balance_of(s)
                + spec_refund(reserved, 0) <= i64::MAX,
        ensures
            r is Ok,
            settled(*old(self), *final(self), call_id@, 0),
    {
        self.settle(call_id, 0)
    }
}

/// `after` is `before` once `subject` holds its signup grant: credited once, on the first call.
pub open spec fn signed_up(before: MemoryLedger, after: MemoryLedger, subject: Seq<char>) -> bool {
    &&& after.is_granted(subject)
    &&& forall|t: Seq<char>| #[trigger]
        after.balance_of(t) == if t == subject && !before.is_granted(subject) {
            (before.balance_of(t) + SIGNUP_GRANT_MICRO) as i64
        } else {
            before.balance_of(t)
        }
    &&& forall|t: Seq<char>| t != subject ==> #[trigger] after.is_granted(t) == before.is_granted(t)
    &&& forall|c: Seq<char>| #[trigger] after.hold_of(c) == before.hold_of(c)
}

/// `after` is `before` once a reservation of `micro` for `call_id` by `subject` was asked
/// for: the amount moves from the balance into a hold when it is accepted and positive, and
/// nothing changes otherwise.
pub open spec fn reserved(
    before: MemoryLedger,
    after: MemoryLedger,
    subject: Seq<char>,
    call_id: Seq<char>,
    micro: i64,
) -> bool {
    let taken = micro > 0 && spec_reserve_result(
        before.balance_of(subject),
        before.hold_of(call_id),
        micro,
    ) is Ok;
    &&& forall|t: Seq<char>| #[trigger]
        after.balance_of(t) == if taken && t == subject {
            (before.balance_of(t) - micro) as i64
        } else {
            before.balance_of(t)
        }
    &&& forall|c: Seq<char>| #[trigger]
        after.hold_of(c) == if taken && c == call_id {
            Some((subject, micro))
        } else {
            before.hold_of(c)
        }
    &&& forall|t: Seq<char>| #[trigger] after.is_granted(t) == before.is_granted(t)
}

/// `after` is `before` once the hold of `call_id` was settled for `actual`: the hold is gone
/// and its subject got back what `spec_refund` gives; without a hold nothing changes.
pub open spec fn settled(before: MemoryLedger, after: MemoryLedger, call_id: Seq<char>, actual: i64) -> bool {
    &&& after.hold_of(call_id) is None
    &&& forall|c: Seq<char>| c != call_id ==> #[trigger] after.hold_of(c) == before.hold_of(c)
    &&& forall|t: Seq<char>| #[trigger]
        after.balance_of(t) == match before.hold_of(call_id) {
            Some((s, held)) => if t == s {
                (before.balance_of(t) + spec_refund(held, actual)) as i64
            } else {
                before.balance_of(t)
            },
            None => before.balance_of(t),
        }
    &&& forall|t: Seq<char>| #[trigger] after.is_granted(t) == before.is_granted(t)
}

/// `i64::saturating_add`.
pub open spec fn spec_saturating_add(a: i64, b: i64) -> i64 {
    if a + b > i64::MAX {
        i64::MAX
    } else if a + b < i64::MIN {
        i64::MIN
    } else {
        (a + b) as i64
    }
}

/// What a settle gives back of a reservation: the reservation less the (non-negative)
/// charge, saturating, when that is positive.
pub open spec fn spec_refund(reserved: i64, actual: i64) -> int {
    let charged = if actual > 0 {
        actual as int
    } else {
        0
    };
    let d = reserved - charged;
    let r = if d < i64::MIN {
        i64::MIN as int
    } else {
        d
    };
    if r > 0 {
        r
    } else {
        0
    }
}

/// The outcome of a reservation: refused when negative, when the call already holds one, or
/// when the balance is short; otherwise accepted.
pub open spec fn spec_reserve_result(balance: i64, hold: Option<(Seq<char>, i64)>, micro: i64) -> Result<
    (),
    CatalogError,
> {
    if micro < 0 {
        Err(CatalogError::Invalid("reserve cannot be negative"))
    } else if micro == 0 {
        Ok(())
    } else if hold is Some {
        Err(CatalogError::Invalid("call already reserved"))
    } else if balance < micro {
        Err(CatalogError::PaymentRequired { balance_micro: balance, estimated_cost_micro: micro })
    } else {
        Ok(())
    }
}

// ---------------------------------------------------------------- lookups

/// The entry at `i` is what a lookup of its key finds, when keys are unique.
pub proof fn lemma_lookup_balance_at(v: Seq<(String, i64)>, i: int)
    requires
        unique_balances(v),
        0 <= i < v.len(),
    ensures
        lookup_balance(v, v[i].0@) == Some(v[i].1),
    decreases v.len(),
{
    if i < v.len() - 1 {
        assert(v.last().0@ != v[i].0@);
        assert(v.drop_last()[i] == v[i]);
        lemma_lookup_balance_at(v.drop_last(), i);
    }
}

/// A key that no entry has is not found.
pub proof fn lemma_lookup_balance_absent(v: Seq<(String, i64)>, s: Seq<char>)
    requires
        forall|i: int| 0 <= i < v.len() ==> (#[trigger] v[i]).0@ != s,
    ensures
        lookup_balance(v, s) is None,
    decreases v.len(),
{
    if v.len() > 0 {
        assert(v[v.len() - 1].0@ != s);
        assert forall|i: int| 0 <= i < v.len() - 1 implies (#[trigger] v.drop_last()[i]).0@ != s by {
            assert(v.drop_last()[i] == v[i]);
        }
        lemma_lookup_balance_absent(v.drop_last(), s);
    }
}

/// Replacing the value at `i` (same key) changes only that key's lookup.
pub proof fn lemma_lookup_balance_update(v: Seq<(String, i64)>, i: int, e: (String, i64))
    requires
        unique_balances(v),
        0 <= i < v.len(),
        e.0@ == v[i].0@,
    ensures
        unique_balances(v.update(i, e)),
        lookup_balance(v.update(i, e), e.0@) == Some(e.1),
        forall|t: Seq<char>| t != e.0@ ==> lookup_balance(v.update(i, e), t) == lookup_balance(v, t),
    decreases v.len(),
{
    let w = v.update(i, e);
    assert forall|x: int, y: int| 0 <= x < y < w.len() implies (#[trigger] w[x]).0@ != (
    #[trigger] w[y]).0@ by {
        assert(v[x].0@ != v[y].0@);
    }
    lemma_lookup_balance_at(w, i);
    assert forall|t: Seq<char>| t != e.0@ implies lookup_balance(w, t) == lookup_balance(v, t) by {
        lemma_lookup_balance_other(v, i, e, t);
    }
}

/// Replacing the value at `i` (same key) does not change other keys' lookups.
proof fn lemma_lookup_balance_other(v: Seq<(String, i64)>, i: int, e: (String, i64), t: Seq<char>)
    requires
        0 <= i < v.len(),
        e.0@ == v[i].0@,
        t != e.0@,
    ensures
        lookup_balance(v.update(i, e), t) == lookup_balance(v, t),
    decreases v.len(),
{
    let w = v.update(i, e);
    if i < v.len() - 1 {
        assert(w.last() == v.last());
        assert(w.drop_last() =~= v.drop_last().update(i, e));
        lemma_lookup_balance_other(v.drop_last(), i, e, t);
    } else {
        assert(w.drop_last() =~= v.drop_last());
    }
}

/// The hold at `i` is what a lookup of its call id finds, when ids are unique.
pub proof fn lemma_lookup_hold_at(v: Seq<(String, String, i64)>, i: int)
    requires
        unique_holds(v),
        0 <= i < v.len(),
    ensures
        lookup_hold(v, v[i].0@) == Some((v[i].1@, v[i].2)),
    decreases v.len(),
{
    if i < v.len() - 1 {
        assert(v.last().0@ != v[i].0@);
        assert(v.drop_last()[i] == v[i]);
        lemma_lookup_hold_at(v.drop_last(), i);
    }
}

/// A call id that no hold has is not found.
pub proof fn lemma_lookup_hold_absent(v: Seq<(String, String, i64)>, c: Seq<char>)
    requires
        forall|i: int| 0 <= i < v.len() ==> (#[trigger] v[i]).0@ != c,
    ensures
        lookup_hold(v, c) is None,
    decreases v.len(),
{
    if v.len() > 0 {
        assert(v[v.len() - 1].0@ != c);
        assert forall|i: int| 0 <= i < v.len() - 1 implies (#[trigger] v.drop_last()[i]).0@ != c by {
            assert(v.drop_last()[i] == v[i]);
        }
        lemma_lookup_hold_absent(v.drop_last(), c);
    }
}

/// Removing the hold at `i` forgets its call id and keeps every other.
pub proof fn lemma_lookup_hold_remove(v: Seq<(String, String, i64)>, i: int)
    requires
        unique_holds(v),
        0 <= i < v.len(),
    ensures
        lookup_hold(v.remove(i), v[i].0@) is None,
        forall|c: Seq<char>| c != v[i].0@ ==> lookup_hold(v.remove(i), c) == lookup_hold(v, c),
    decreases v.len(),
{
    let w = v.remove(i);
    assert forall|k: int| 0 <= k < w.len() implies (#[trigger] w[k]).0@ != v[i].0@ by {
        if k < i {
            assert(w[k] == v[k]);
        } else {
            assert(w[k] == v[k + 1]);
        }
    }
    lemma_lookup_hold_absent(w, v[i].0@);
    assert forall|c: Seq<char>| c != v[i].0@ implies lookup_hold(w, c) == lookup_hold(v, c) by {
        lemma_lookup_hold_remove_other(v, i, c);
    }
}

/// Removing the hold at `i` keeps the lookup of another call id.
proof fn lemma_lookup_hold_remove_other(v: Seq<(String, String, i64)>, i: int, c: Seq<char>)
    requires
        0 <= i < v.len(),
        c != v[i].0@,
    ensures
        lookup_hold(v.remove(i), c) == lookup_hold(v, c),
    decreases v.len(),
{
    let w = v.remove(i);
    if i == v.len() - 1 {
        assert(w =~= v.drop_last());
    } else {
        assert(w.last() == v.last());
        assert(w.drop_last() =~= v.drop_last().remove(i));
        lemma_lookup_hold_remove_other(v.drop_last(), i, c);
    }
}


// ---------------------------------------------------------------- laws

/// Releasing a call right after an accepted reservation for it (where the call held
/// nothing before) gives the ledger back as it was: every balance, every hold, every grant.
pub proof fn law_release_undoes_reserve(
    l0: MemoryLedger,
    l1: MemoryLedger,
    l2: MemoryLedger,
    subject: Seq<char>,
    call_id: Seq<char>,
    micro: i64,
)
    requires
        l0.hold_of(call_id) is None,
        spec_reserve_result(l0.balance_of(subject), l0.hold_of(call_id), micro) is Ok,
        reserved(l0, l1, subject, call_id, micro),
        settled(l1, l2, call_id, 0),
    ensures
        forall|t: Seq<char>| #[trigger] l2.balance_of(t) == l0.balance_of(t),
        forall|c: Seq<char>| #[trigger] l2.hold_of(c) == l0.hold_of(c),
        forall|t: Seq<char>| #[trigger] l2.is_granted(t) == l0.is_granted(t),
{
    assert(l2.hold_of(call_id) == l0.hold_of(call_id));
    assert forall|t: Seq<char>| #[trigger] l2.balance_of(t) == l0.balance_of(t) by {
        assert(l1.balance_of(t) == l1.balance_of(t));
        assert(l0.balance_of(t) == l0.balance_of(t));
    }
    assert forall|c: Seq<char>| #[trigger] l2.hold_of(c) == l0.hold_of(c) by {
        assert(l1.hold_of(c) == l1.hold_of(c));
    }
    assert forall|t: Seq<char>| #[trigger] l2.is_granted(t) == l0.is_granted(t) by {
        assert(l1.is_granted(t) == l1.is_granted(t));
    }
}

/// An accepted reservation for an amount no larger than the balance, followed by a settle
/// that charges `actual` of it (between 0 and the reservation), leaves the subject exactly
/// `actual` poorer.
pub proof fn law_settle_charges_actual(
    l0: MemoryLedger,
    l1: MemoryLedger,
    l2: MemoryLedger,
    subject: Seq<char>,
    call_id: Seq<char>,
    micro: i64,
    actual: i64,
)
    requires
        l0.hold_of(call_id) is None,
        micro > 0,
        spec_reserve_result(l0.balance_of(subject), l0.hold_of(call_id), micro) is Ok,
        0 <= actual <= micro,
        reserved(l0, l1, subject, call_id, micro),
        settled(l1, l2, call_id, actual),
    ensures
        l2.balance_of(subject) == l0.balance_of(subject) - actual,
        l2.hold_of(call_id) is None,
{
    assert(l1.hold_of(call_id) == Some((subject, micro)));
    assert(l1.balance_of(subject) == l0.balance_of(subject) - micro);
    assert(l2.balance_of(subject) == l2.balance_of(subject));
}

/// Settling is idempotent: once a call's hold is settled, settling or releasing it again
/// changes nothing.
pub proof fn law_settle_idempotent(
    l0: MemoryLedger,
    l1: MemoryLedger,
    l2: MemoryLedger,
    call_id: Seq<char>,
    first: i64,
    second: i64,
)
    requires
        settled(l0, l1, call_id, first),
        settled(l1, l2, call_id, second),
    ensures
        forall|t: Seq<char>| #[trigger] l2.balance_of(t) == l1.balance_of(t),
        forall|c: Seq<char>| #[trigger] l2.hold_of(c) == l1.hold_of(c),
        forall|t: Seq<char>| #[trigger] l2.is_granted(t) == l1.is_granted(t),
{
    assert(l2.hold_of(call_id) == l1.hold_of(call_id));
}

/// An accepted positive reservation never leaves the subject's balance negative.
pub proof fn law_reserve_never_overdraws(
    l0: MemoryLedger,
    l1: MemoryLedger,
    subject: Seq<char>,
    call_id: Seq<char>,
    micro: i64,
)
    requires
        spec_reserve_result(l0.balance_of(subject), l0.hold_of(call_id), micro) is Ok,
        reserved(l0, l1, subject, call_id, micro),
    ensures
        micro > 0 ==> l1.balance_of(subject) == l0.balance_of(subject) - micro,
        micro > 0 ==> l1.balance_of(subject) >= 0,
{
    assert(l1.balance_of(subject) == l1.balance_of(subject));
}

/// The signup grant is credited once: asking for it a second time changes no balance.
pub proof fn law_signup_grant_once(
    l0: MemoryLedger,
    l1: MemoryLedger,
    l2: MemoryLedger,
    subject: Seq<char>,
)
    requires
        signed_up(l0, l1, subject),
        signed_up(l1, l2, subject),
    ensures
        forall|t: Seq<char>| #[trigger] l2.balance_of(t) == l1.balance_of(t),
        l2.is_granted(subject),
{
    assert forall|t: Seq<char>| #[trigger] l2.balance_of(t) == l1.balance_of(t) by {
        assert(l1.balance_of(t) == l1.balance_of(t));
    }
}

} // verus!
