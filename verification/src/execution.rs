//! Execution identities, idempotency keys and the transport facts of tool results.

use vstd::prelude::*;
use crate::error::InvalidId;
use crate::id::spec_opaque_result;
use crate::text::{copy_str, from_chars, push_str, spec_trim, to_chars, trim_vec, hex_lower, spec_hex, hex_digit_lower};

verus! {

/// Correlation id for one `execute`.
#[derive(Debug, PartialEq, Eq, Hash)]
pub struct ExecutionId(String);

impl View for ExecutionId {
    type V = Seq<char>;

    closed spec fn view(&self) -> Seq<char> {
        self.0@
    }
}

impl Clone for ExecutionId {
    fn clone(&self) -> (r: Self)
        ensures
            r@ == self@,
    {
        ExecutionId(self.0.clone())
    }
}

impl ExecutionId {
    /// Parse a previously minted id.
    ///
    /// # Errors
    ///
    /// Empty after trimming.
    pub fn new(raw: &str) -> (r: Result<Self, InvalidId>)
        ensures
            r matches Ok(id) ==> spec_opaque_result(raw@) == Ok::<Seq<char>, Seq<char>>(id@),
            r matches Err(e) ==> spec_opaque_result(raw@) == Err::<Seq<char>, Seq<char>>(e.value@),
            r matches Err(e) ==> e.kind@ == "execution id"@ && e.reason@ == "must be non-empty"@,
    {
        let v = to_chars(raw);
        let t = trim_vec(&v);
        if t.len() == 0 {
            return Err(InvalidId::new("execution id", raw, "must be non-empty"));
        }
        Ok(ExecutionId(from_chars(&t)))
    }

    /// Borrow the wire form.
    pub fn as_str(&self) -> (r: &str)
        ensures
            r@ == self@,
    {
        self.0.as_str()
    }

    /// Mint a new id (`exec_<clock>_<seq>`, both in hex) from the process-wide sequence
    /// number `seq`; the clock part is the current time in nanoseconds.
    pub fn mint(seq: u64) -> (r: Self)
        ensures
            exists|ns: u128| r@ == spec_mint_id("exec"@, ns as nat, seq as nat),
    {
        let ns = unix_now_nanos();
        ExecutionId(mint_id("exec", ns, seq))
    }
}

/// `<prefix>_<ns in hex>_<seq in hex>`.
pub open spec fn spec_mint_id(prefix: Seq<char>, ns: nat, seq: nat) -> Seq<char> {
    prefix + "_"@ + spec_hex(ns) + "_"@ + spec_hex(seq)
}

proof fn lemma_hex_digit(d: nat)
    requires
        d < 16,
    ensures
        hex_digit_lower(d) != '_',
        d < 10 ==> hex_digit_lower(d) as int == '0' as int + d,
        d >= 10 ==> hex_digit_lower(d) as int == 'a' as int + d - 10,
{
}

proof fn lemma_hex_shape(n: nat)
    ensures
        spec_hex(n).len() >= 1,
        n >= 16 ==> spec_hex(n).len() >= 2,
        forall|i: int| 0 <= i < spec_hex(n).len() ==> spec_hex(n)[i] != '_',
    decreases n,
{
    if n < 16 {
        lemma_hex_digit(n);
    } else {
        lemma_hex_shape(n / 16);
        lemma_hex_digit(n % 16);
        assert forall|i: int| 0 <= i < spec_hex(n).len() implies spec_hex(n)[i] != '_' by {
            if i < spec_hex(n / 16).len() {
                assert(spec_hex(n)[i] == spec_hex(n / 16)[i]);
            }
        }
    }
}

proof fn lemma_hex_injective(a: nat, b: nat)
    requires
        spec_hex(a) == spec_hex(b),
    ensures
        a == b,
    decreases a,
{
    lemma_hex_shape(a);
    lemma_hex_shape(b);
    if a < 16 && b < 16 {
        lemma_hex_digit(a);
        lemma_hex_digit(b);
        assert(spec_hex(a)[0] == spec_hex(b)[0]);
        assert(spec_hex(a)[0] == hex_digit_lower(a));
        assert(spec_hex(b)[0] == hex_digit_lower(b));
        assert(hex_digit_lower(a) == hex_digit_lower(b));
        assert(hex_digit_lower(a) as int == hex_digit_lower(b) as int);
    } else if a >= 16 && b >= 16 {
        let pa = spec_hex(a / 16);
        let pb = spec_hex(b / 16);
        assert(spec_hex(a).last() == spec_hex(b).last());
        assert(spec_hex(a).last() == hex_digit_lower(a % 16));
        assert(spec_hex(b).last() == hex_digit_lower(b % 16));
        assert(hex_digit_lower(a % 16) as int == hex_digit_lower(b % 16) as int);
        lemma_hex_digit(a % 16);
        lemma_hex_digit(b % 16);
        assert(spec_hex(a).drop_last() =~= pa);
        assert(spec_hex(b).drop_last() =~= pb);
        lemma_hex_injective(a / 16, b / 16);
        assert(a % 16 == b % 16);
        assert(a == 16 * (a / 16) + a % 16) by (nonlinear_arith);
        assert(b == 16 * (b / 16) + b % 16) by (nonlinear_arith);
    } else if a < 16 {
        assert(spec_hex(a).len() == 1);
    } else {
        assert(spec_hex(b).len() == 1);
    }
}

/// Ids minted with different sequence numbers differ, whatever the clock read: the
/// sequence number is the hex after the last `_`, and hex digits are never `_`.
pub proof fn law_minted_ids_differ(ns1: nat, ns2: nat, s1: nat, s2: nat)
    requires
        s1 != s2,
    ensures
        spec_mint_id("exec"@, ns1, s1) != spec_mint_id("exec"@, ns2, s2),
{
    let x = spec_mint_id("exec"@, ns1, s1);
    let y = spec_mint_id("exec"@, ns2, s2);
    if x == y {
        let p = "exec"@ + "_"@;
        let h1 = spec_hex(ns1);
        let h2 = spec_hex(ns2);
        let t1 = spec_hex(s1);
        let t2 = spec_hex(s2);
        reveal_strlit("_");
        lemma_hex_shape(ns1);
        lemma_hex_shape(ns2);
        lemma_hex_shape(s1);
        lemma_hex_shape(s2);
        assert(x =~= p + (h1 + ("_"@ + t1)));
        assert(y =~= p + (h2 + ("_"@ + t2)));
        let u = h1 + ("_"@ + t1);
        let w = h2 + ("_"@ + t2);
        assert(u =~= x.skip(p.len() as int));
        assert(w =~= y.skip(p.len() as int));
        assert(u == w);
        if h1.len() < h2.len() {
            assert(u[h1.len() as int] == '_');
            assert(w[h1.len() as int] == h2[h1.len() as int]);
        } else if h1.len() > h2.len() {
            assert(w[h2.len() as int] == '_');
            assert(u[h2.len() as int] == h1[h2.len() as int]);
        } else {
            assert(t1 =~= u.skip(h1.len() as int + 1));
            assert(t2 =~= w.skip(h2.len() as int + 1));
            lemma_hex_injective(s1, s2);
        }
    }
}

/// `id` is an execution id minted with sequence number `seq`, whatever the clock read.
pub open spec fn minted_at(id: Seq<char>, seq: u64) -> bool {
    exists|ns: u128| id == spec_mint_id("exec"@, ns as nat, seq as nat)
}

/// The sequence number `k` mints after `seq`, wrapping past `u64::MAX` to 0.
pub open spec fn seq_after(seq: u64, k: nat) -> u64 {
    ((seq + k) % 0x1_0000_0000_0000_0000) as u64
}

/// The source of execution-id sequence numbers: each mint takes the next one, starting at 1,
/// and wraps past `u64::MAX`.
#[derive(Debug)]
pub struct IdMinter {
    next: u64,
}

impl View for IdMinter {
    type V = u64;

    /// The sequence number the next mint takes.
    closed spec fn view(&self) -> u64 {
        self.next
    }
}

impl IdMinter {
    /// A fresh sequence, whose first id takes 1.
    pub fn new() -> (r: Self)
        ensures
            r@ == 1,
    {
        IdMinter { next: 1 }
    }

    /// Mint an id with the next sequence number, and move past it.
    pub fn mint(&mut self) -> (r: ExecutionId)
        ensures
            minted_at(r@, old(self)@),
            final(self)@ == seq_after(old(self)@, 1),
    {
        let seq = self.next;
        let r = ExecutionId::mint(seq);
        self.next = seq.wrapping_add(1);
        proof {
            let ns = choose|ns: u128| r@ == spec_mint_id("exec"@, ns as nat, seq as nat);
            assert(r@ == spec_mint_id("exec"@, ns as nat, seq as nat));
        }
        r
    }
}

/// An id differs from each of the ids minted after it by the next `2^64 - 1` mints of the
/// same sequence, whatever the clock read at each.
pub proof fn law_minter_ids_differ(seq: u64, k: nat, first: Seq<char>, later: Seq<char>)
    requires
        0 < k < 0x1_0000_0000_0000_0000,
        minted_at(first, seq),
        minted_at(later, seq_after(seq, k)),
    ensures
        first != later,
{
    let a = choose|ns: u128| first == spec_mint_id("exec"@, ns as nat, seq as nat);
    let b = choose|ns: u128| later == spec_mint_id("exec"@, ns as nat, seq_after(seq, k) as nat);
    assert(seq_after(seq, k) != seq) by (nonlinear_arith)
        requires
            0 < k < 0x1_0000_0000_0000_0000,
            seq < 0x1_0000_0000_0000_0000,
    {
    }
    law_minted_ids_differ(a as nat, b as nat, seq as nat, seq_after(seq, k) as nat);
}

/// `<prefix>_<ns in hex>_<seq in hex>`.
pub fn mint_id(prefix: &str, ns: u128, seq: u64) -> (r: String)
    ensures
        r@ == spec_mint_id(prefix@, ns as nat, seq as nat),
{
    let mut s = copy_str(prefix);
    push_str(&mut s, "_");
    let a = hex_lower(ns);
    push_str(&mut s, a.as_str());
    push_str(&mut s, "_");
    let b = hex_lower(seq as u128);
    push_str(&mut s, b.as_str());
    s
}

/// Unix time in nanoseconds (`SystemTime::now`; 0 before the epoch). Nothing is promised
/// of the clock.
#[verifier::external_body]
fn unix_now_nanos() -> u128 {
    std::time::SystemTime::now().duration_since(std::time::UNIX_EPOCH).map_or(0, |d| d.as_nanos())
}

/// HTTP transport facts beside a successful payload.
#[derive(Clone, Debug, PartialEq, Eq)]
pub struct ToolHttpMeta {
    /// Status code.
    pub status: u16,
    /// Response headers (lowercased names).
    pub headers: Vec<(String, String)>,
}

/// File payload (base64).
#[derive(Clone, Debug, PartialEq, Eq)]
pub struct ToolFile {
    /// File name.
    pub name: Option<String>,
    /// MIME type.
    pub mime_type: String,
    /// Always `base64`.
    pub encoding: String,
    /// Base64 bytes.
    pub data: String,
    /// Raw size before encoding.
    pub byte_length: u64,
}

/// Resume decision.
#[derive(Clone, Copy, Debug, PartialEq, Eq, Structural)]
pub enum ResumeAction {
    /// Proceed.
    Accept,
    /// Refuse.
    Decline,
    /// Cancel without running.
    Cancel,
}

/// What `IdempotencyKey::new` makes of `raw`: the trimmed key, or the text it rejected.
pub open spec fn spec_idempotency_result(raw: Seq<char>, trimmed_bytes: nat) -> Result<Seq<char>, Seq<char>> {
    let t = spec_trim(raw);
    if t.len() == 0 {
        Err(raw)
    } else if trimmed_bytes > 256 {
        Err(t)
    } else {
        Ok(t)
    }
}

/// Caller-supplied key so retried executes reuse the first outcome.
#[derive(Debug, PartialEq, Eq, Hash)]
pub struct IdempotencyKey(String);

impl View for IdempotencyKey {
    type V = Seq<char>;

    closed spec fn view(&self) -> Seq<char> {
        self.0@
    }
}

impl Clone for IdempotencyKey {
    fn clone(&self) -> (r: Self)
        ensures
            r@ == self@,
    {
        IdempotencyKey(self.0.clone())
    }
}

impl IdempotencyKey {
    /// Parse a non-empty key (max 256 bytes of UTF-8; `str::len` measures the bytes).
    ///
    /// # Errors
    ///
    /// Empty or too long.
    pub fn new(raw: &str) -> (r: Result<Self, InvalidId>)
        ensures
            ({
                let t = spec_trim(raw@);
                let tb = (vstd::utf8::encode_utf8(t).len() as usize) as nat;
                &&& r matches Ok(k) ==> spec_idempotency_result(raw@, tb) == Ok::<Seq<char>, Seq<char>>(k@)
                &&& r matches Err(e) ==> spec_idempotency_result(raw@, tb) == Err::<Seq<char>, Seq<char>>(e.value@)
                &&& r matches Err(e) ==> e.kind@ == "idempotency key"@
                &&& r matches Err(e) ==> e.reason@ == (if t.len() == 0 {
                    "must be non-empty"@
                } else {
                    "must be at most 256 bytes"@
                })
            }),
    {
        let v = to_chars(raw);
        let t = trim_vec(&v);
        if t.len() == 0 {
            return Err(InvalidId::new("idempotency key", raw, "must be non-empty"));
        }
        let s = from_chars(&t);
        let blen = s.as_str().len();
        assert(blen == vstd::utf8::encode_utf8(spec_trim(raw@)).len() as usize);
        if blen > 256 {
            proof {
                reveal_strlit("must be non-empty");
                reveal_strlit("must be at most 256 bytes");
                assert("must be non-empty"@[8] != "must be at most 256 bytes"@[8]);
            }
            return Err(InvalidId::new("idempotency key", s.as_str(), "must be at most 256 bytes"));
        }
        Ok(IdempotencyKey(s))
    }

    /// Borrow the key.
    pub fn as_str(&self) -> (r: &str)
        ensures
            r@ == self@,
    {
        self.0.as_str()
    }
}

/// Options for one `execute`. Absence means engine defaults from the limits.
#[derive(Clone, Debug)]
pub struct ExecuteOptions {
    /// Skip the approval pause (operator CLI `--yes`, tests).
    pub auto_approve: bool,
    /// Override execute deadline, in milliseconds.
    pub timeout_ms: Option<u64>,
    /// Retry key.
    pub idempotency_key: Option<IdempotencyKey>,
}

/// Unix time in milliseconds (`SystemTime::now`). Nothing is promised of the clock.
#[verifier::external_body]
pub fn unix_now_ms() -> u64 {
    std::time::SystemTime::now()
        .duration_since(std::time::UNIX_EPOCH)
        .map_or(0, |d| u64::try_from(d.as_millis()).unwrap_or(u64::MAX))
}

} // verus!
