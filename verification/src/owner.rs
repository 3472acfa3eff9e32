//! Placement of a catalog record: org-shared or user-owned.

use vstd::prelude::*;
use crate::text::str_eq;

verus! {

/// Who owns a connection or policy. The `<owner>` segment of a tool address.
#[derive(Clone, Copy, Debug, PartialEq, Eq, Hash, PartialOrd, Ord, Structural)]
pub enum Owner {
    /// Tenant-shared. Everyone in the partition uses it.
    Org,
    /// This subject's own credential or rule.
    User,
}

/// Wire form of an owner.
pub open spec fn owner_text(o: Owner) -> Seq<char> {
    match o {
        Owner::Org => "org"@,
        Owner::User => "user"@,
    }
}

/// The owner whose wire form is `s`, if any.
pub open spec fn spec_owner_parse(s: Seq<char>) -> Option<Owner> {
    if s == "org"@ {
        Some(Owner::Org)
    } else if s == "user"@ {
        Some(Owner::User)
    } else {
        None
    }
}

/// Outer-wins rank: org is the guardrail, user is inner.
pub open spec fn spec_outer_rank(o: Owner) -> u8 {
    match o {
        Owner::User => 0,
        Owner::Org => 1,
    }
}

impl Owner {
    /// Parse `org` or `user`.
    pub fn parse(raw: &str) -> (r: Option<Owner>)
        ensures
            r == spec_owner_parse(raw@),
    {
        if str_eq(raw, "org") {
            Some(Owner::Org)
        } else if str_eq(raw, "user") {
            Some(Owner::User)
        } else {
            None
        }
    }

    /// Wire form used in addresses.
    pub fn as_str(self) -> (r: &'static str)
        ensures
            r@ == owner_text(self),
    {
        match self {
            Owner::Org => "org",
            Owner::User => "user",
        }
    }

    /// Outer-wins rank: org is the guardrail, user is inner.
    pub fn outer_rank(self) -> (r: u8)
        ensures
            r == spec_outer_rank(self),
    {
        match self {
            Owner::User => 0,
            Owner::Org => 1,
        }
    }
}

/// Parsing the wire form of an owner gives the owner back.
pub proof fn lemma_owner_roundtrip(o: Owner)
    ensures
        spec_owner_parse(owner_text(o)) == Some(o),
{
    reveal_strlit("org");
    reveal_strlit("user");
    if o == Owner::User {
        assert("user"@ != "org"@) by {
            assert("user"@[0] != "org"@[0]);
        }
    }
}

} // verus!
