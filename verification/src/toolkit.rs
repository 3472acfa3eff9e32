//! Named toolkit: a scoped MCP surface (`/mcp/toolkits/:slug`).

use vstd::prelude::*;
use crate::owner::Owner;
use crate::policy::PolicyAction;
use crate::text::{chars_eq, has_at, spec_has_at, spec_trim, to_chars, trim_vec};

verus! {

/// One toolkit partition.
#[derive(Clone, Debug, PartialEq)]
pub struct Toolkit {
    /// Stable id.
    pub id: String,
    /// Org or user.
    pub owner: Owner,
    /// URL slug (`/mcp/toolkits/{slug}`).
    pub slug: String,
    /// Display name.
    pub name: String,
    /// Connection-address glob patterns this toolkit exposes.
    pub connections: Vec<String>,
    /// Extra policy rows applied inside the toolkit (`pattern` + `action`).
    pub policies: Vec<ToolkitPolicy>,
}

/// Toolkit-local policy overlay.
#[derive(Clone, Debug, PartialEq)]
pub struct ToolkitPolicy {
    /// Policy id.
    pub id: String,
    /// Tool pattern.
    pub pattern: String,
    /// Action.
    pub action: PolicyAction,
}

/// Whether `value` starts with `p`.
pub open spec fn starts_with(value: Seq<char>, p: Seq<char>) -> bool {
    spec_has_at(value, 0, p)
}

/// Glob over addresses: `*` matches all; `x*` matches what starts with `x`; otherwise
/// the address itself or anything under it after `.` or `/` (pattern trimmed first).
pub open spec fn spec_glob_match(pattern: Seq<char>, value: Seq<char>) -> bool {
    let pat = spec_trim(pattern);
    if pat == "*"@ {
        true
    } else if pat.len() > 0 && pat.last() == '*' {
        starts_with(value, pat.drop_last())
    } else {
        pat == value || starts_with(value, pat.push('.')) || starts_with(value, pat.push('/'))
    }
}

fn glob_match(pattern: &str, value: &str) -> (r: bool)
    ensures
        r == spec_glob_match(pattern@, value@),
{
    let pat = trim_vec(&to_chars(pattern));
    let v = to_chars(value);
    let star = to_chars("*");
    if chars_eq(&pat, &star) {
        return true;
    }
    let n = pat.len();
    if n > 0 && pat[n - 1] == '*' {
        let mut prefix = pat.clone();
        prefix.pop();
        assert(prefix@ =~= pat@.drop_last());
        return has_at(&v, 0, &prefix);
    }
    if chars_eq(&pat, &v) {
        return true;
    }
    let mut dotted = pat.clone();
    dotted.push('.');
    if has_at(&v, 0, &dotted) {
        return true;
    }
    let mut slashed = pat.clone();
    slashed.push('/');
    has_at(&v, 0, &slashed)
}

impl Toolkit {
    /// Whether `address` (connection or tool) is in this toolkit.
    pub fn allows_address(&self, address: &str) -> (r: bool)
        ensures
            r == exists|i: int|
                0 <= i < self.connections@.len() && spec_glob_match(#[trigger] self.connections@[i]@, address@),
    {
        let mut i: usize = 0;
        while i < self.connections.len()
            invariant
                i <= self.connections@.len(),
                forall|k: int| 0 <= k < i ==> !spec_glob_match(#[trigger] self.connections@[k]@, address@),
            decreases self.connections.len() - i,
        {
            if glob_match(self.connections[i].as_str(), address) {
                return true;
            }
            i += 1;
        }
        false
    }
}

/// Collection names for the catalog key-value store.
pub const KV_TOOLKITS: &'static str = "toolkits";
/// OAuth client registrations.
pub const KV_OAUTH_CLIENTS: &'static str = "oauth_clients";
/// In-flight OAuth sessions (PKCE verifier).
pub const KV_OAUTH_SESSIONS: &'static str = "oauth_sessions";
/// Host principals seen by this tenant (`subject.external_id`).
pub const KV_SUBJECTS: &'static str = "subjects";
/// Per-tool session-scoped approvals (`persist=session`).
pub const KV_SESSION_APPROVALS: &'static str = "session_approvals";
/// Teams (`slug` → name, owner, overflow opt-out).
pub const KV_ORGS: &'static str = "orgs";
/// Org memberships (`{org}:{subject}`).
pub const KV_MEMBERSHIPS: &'static str = "memberships";
/// Invite codes (`code` → org, role, email).
pub const KV_INVITES: &'static str = "invites";
/// Uploaded `SKILL.md` bundles.
pub const KV_SKILLS: &'static str = "skills";
/// Named artifacts (notes, outputs, generated UI).
pub const KV_ARTIFACTS: &'static str = "artifacts";
/// Enrich Arena votes (`capability` → winner id + counts).
pub const KV_ARENA_VOTES: &'static str = "arena_votes";
/// Local single-user sentinel (host `subject` partition).
pub const LOCAL_SUBJECT: &'static str = "local";

} // verus!
