//! Tool and connection addresses.
//!
//! Callable tool: `tools.<integration>.<owner>.<connection>.<tool>`.
//! The four leading segments never contain `.`. The tool remainder may.

use vstd::prelude::*;
use crate::id::{ConnectionName, IntegrationSlug, ToolName, spec_valid_slug};
use crate::owner::{Owner, owner_text, spec_owner_parse};
use crate::text::{copy_str, find_char_from, from_char_range, lemma_split_once_concat, push_char, push_str, spec_trim, split_once, str_eq, to_chars};

verus! {

/// `tools.<integration>.<owner>.<connection>`.
#[derive(Clone, Debug, PartialEq, Eq, Hash, PartialOrd, Ord)]
pub struct ConnectionAddress(String);

impl View for ConnectionAddress {
    type V = Seq<char>;

    closed spec fn view(&self) -> Seq<char> {
        self.0@
    }
}

impl ConnectionAddress {
    /// Borrow the wire form.
    pub fn as_str(&self) -> (r: &str)
        ensures
            r@ == self@,
    {
        self.0.as_str()
    }
}

/// `a.b` for two runs of text.
pub open spec fn dot(a: Seq<char>, b: Seq<char>) -> Seq<char> {
    a + seq!['.'] + b
}

/// Wire form of a connection address from its parts.
pub open spec fn spec_connection_address(
    integration: Seq<char>,
    owner: Owner,
    connection: Seq<char>,
) -> Seq<char> {
    dot(dot(dot("tools"@, integration), owner_text(owner)), connection)
}

/// Full callable address. Internally structured so illegal shapes cannot be built.
#[derive(Clone, Debug, PartialEq, Eq, Hash)]
pub struct ToolAddress {
    integration: IntegrationSlug,
    owner: Owner,
    connection: ConnectionName,
    tool: ToolName,
}

impl View for ToolAddress {
    /// `(integration, owner, connection, tool)`.
    type V = (Seq<char>, Owner, Seq<char>, Seq<char>);

    closed spec fn view(&self) -> (Seq<char>, Owner, Seq<char>, Seq<char>) {
        (self.integration@, self.owner, self.connection@, self.tool@)
    }
}

/// Parts that a well-formed address holds: slug segments and a non-empty tool, all trimmed.
pub open spec fn valid_address_parts(v: (Seq<char>, Owner, Seq<char>, Seq<char>)) -> bool {
    &&& spec_valid_slug(v.0) && spec_trim(v.0) == v.0
    &&& spec_valid_slug(v.2) && spec_trim(v.2) == v.2
    &&& v.3.len() > 0 && spec_trim(v.3) == v.3
}

/// Sandbox path: the address without the `tools.` prefix.
pub open spec fn spec_sandbox_path(v: (Seq<char>, Owner, Seq<char>, Seq<char>)) -> Seq<char> {
    dot(dot(dot(v.0, owner_text(v.1)), v.2), v.3)
}

/// Wire form `tools.<integration>.<owner>.<connection>.<tool>`.
pub open spec fn spec_address_text(v: (Seq<char>, Owner, Seq<char>, Seq<char>)) -> Seq<char> {
    dot("tools"@, spec_sandbox_path(v))
}

/// The text before each of the first four dots, and the rest after the fourth.
pub open spec fn spec_four_fields(s: Seq<char>) -> Option<
    (Seq<char>, Seq<char>, Seq<char>, Seq<char>, Seq<char>),
> {
    match split_once(s, '.') {
        None => None,
        Some((p, r1)) => match split_once(r1, '.') {
            None => None,
            Some((i, r2)) => match split_once(r2, '.') {
                None => None,
                Some((o, r3)) => match split_once(r3, '.') {
                    None => None,
                    Some((c, t)) => Some((p, i, o, c, t)),
                },
            },
        },
    }
}

/// What `parse_tool_address` makes of `s`: the four dots that open the address
/// delimit `tools`, the integration, the owner and the connection; the rest is the tool.
pub open spec fn spec_parse_tool_address(s: Seq<char>) -> Option<
    (Seq<char>, Owner, Seq<char>, Seq<char>),
> {
    match spec_four_fields(s) {
        None => None,
        Some((p, i, o, c, t)) => {
            if p == "tools"@ && spec_owner_parse(o) is Some && spec_trim(i).len() > 0
                && !spec_trim(i).contains('.') && spec_trim(c).len() > 0
                && !spec_trim(c).contains('.') && spec_trim(t).len() > 0 {
                Some((spec_trim(i), spec_owner_parse(o)->0, spec_trim(c), spec_trim(t)))
            } else {
                None
            }
        },
    }
}

/// Positions of the first four dots of `v`.
fn four_dots(v: &[char]) -> (r: Option<(usize, usize, usize, usize)>)
    ensures
        r is None ==> spec_four_fields(v@) is None,
        r matches Some(d) ==> d.0 < d.1 < d.2 < d.3 < v@.len() && spec_four_fields(v@) == Some(
            (
                v@.subrange(0, d.0 as int),
                v@.subrange(d.0 + 1, d.1 as int),
                v@.subrange(d.1 + 1, d.2 as int),
                v@.subrange(d.2 + 1, d.3 as int),
                v@.subrange(d.3 + 1, v@.len() as int),
            ),
        ),
{
    let ghost s = v@;
    assert(s.skip(0) =~= s);
    assert(v@.len() == v.len());
    let d1 = match find_char_from(v, 0, '.') {
        Some(d) => d,
        None => return None,
    };
    let ghost r1 = s.skip(d1 + 1);
    let d2 = match find_char_from(v, d1 + 1, '.') {
        Some(d) => d,
        None => return None,
    };
    let ghost r2 = s.skip(d2 + 1);
    assert(r1.skip(d2 - d1) =~= r2);
    let d3 = match find_char_from(v, d2 + 1, '.') {
        Some(d) => d,
        None => return None,
    };
    let ghost r3 = s.skip(d3 + 1);
    assert(r2.skip(d3 - d2) =~= r3);
    let d4 = match find_char_from(v, d3 + 1, '.') {
        Some(d) => d,
        None => return None,
    };
    let ghost t = s.skip(d4 + 1);
    assert(r3.skip(d4 - d3) =~= t);
    assert(s.take(d1 as int) =~= v@.subrange(0, d1 as int));
    assert(r1.take(d2 - d1 - 1) =~= v@.subrange(d1 + 1, d2 as int));
    assert(r2.take(d3 - d2 - 1) =~= v@.subrange(d2 + 1, d3 as int));
    assert(r3.take(d4 - d3 - 1) =~= v@.subrange(d3 + 1, d4 as int));
    assert(t =~= v@.subrange(d4 + 1, v@.len() as int));
    Some((d1, d2, d3, d4))
}

impl ToolAddress {
    /// Assemble from validated parts.
    pub fn new(
        integration: IntegrationSlug,
        owner: Owner,
        connection: ConnectionName,
        tool: ToolName,
    ) -> (r: Self)
        ensures
            r@ == (integration@, owner, connection@, tool@),
    {
        ToolAddress { integration, owner, connection, tool }
    }

    /// Integration slug.
    pub fn integration(&self) -> (r: &IntegrationSlug)
        ensures
            r@ == self@.0,
    {
        &self.integration
    }

    /// Owner segment.
    pub fn owner(&self) -> (r: Owner)
        ensures
            r == self@.1,
    {
        self.owner
    }

    /// Connection name.
    pub fn connection(&self) -> (r: &ConnectionName)
        ensures
            r@ == self@.2,
    {
        &self.connection
    }

    /// Tool name (may contain dots).
    pub fn tool(&self) -> (r: &ToolName)
        ensures
            r@ == self@.3,
    {
        &self.tool
    }

    /// The parts satisfy `valid_address_parts`.
    pub fn check_parts(&self) -> (r: bool)
        ensures
            r,
            valid_address_parts(self@),
    {
        let _ = self.integration.as_str();
        let _ = self.connection.as_str();
        let _ = self.tool.as_str();
        true
    }

    /// Sandbox path: address without the `tools.` prefix.
    pub fn sandbox_path(&self) -> (r: String)
        ensures
            r@ == spec_sandbox_path(self@),
    {
        let mut s = String::new();
        push_str(&mut s, self.integration.as_str());
        push_char(&mut s, '.');
        push_str(&mut s, self.owner.as_str());
        push_char(&mut s, '.');
        push_str(&mut s, self.connection.as_str());
        push_char(&mut s, '.');
        push_str(&mut s, self.tool.as_str());
        assert(s@ =~= spec_sandbox_path(self@));
        s
    }

    /// Wire form `tools.<integration>.<owner>.<connection>.<tool>`.
    pub fn to_string(&self) -> (r: String)
        ensures
            r@ == spec_address_text(self@),
    {
        let mut s = copy_str("tools");
        push_char(&mut s, '.');
        let p = self.sandbox_path();
        push_str(&mut s, p.as_str());
        assert(s@ =~= spec_address_text(self@));
        s
    }
}

impl ToolAddress {
    /// Parse the wire form, or refuse it as an invalid tool address.
    pub fn parse(s: &str) -> (r: Result<ToolAddress, crate::error::InvalidId>)
        ensures
            match spec_parse_tool_address(s@) {
                Some(v) => (r matches Ok(a) && a@ == v),
                None => (r matches Err(e) && e.kind@ == "tool address"@ && e.value@ == s@ && e.reason@
                    == "expected tools.<integration>.<owner>.<connection>.<tool>"@),
            },
    {
        match parse_tool_address(s) {
            Some(a) => Ok(a),
            None => Err(
                crate::error::InvalidId::new(
                    "tool address",
                    s,
                    "expected tools.<integration>.<owner>.<connection>.<tool>",
                ),
            ),
        }
    }
}

impl std::str::FromStr for ToolAddress {
    type Err = crate::error::InvalidId;

    fn from_str(s: &str) -> Result<ToolAddress, crate::error::InvalidId> {
        ToolAddress::parse(s)
    }
}

/// Parse `tools.<integration>.<owner>.<connection>.<tool>`.
///
/// Walks to the 4th `.`; everything after is the tool name.
pub fn parse_tool_address(address: &str) -> (r: Option<ToolAddress>)
    ensures
        r matches Some(a) ==> spec_parse_tool_address(address@) == Some(a@),
        r is None ==> spec_parse_tool_address(address@) is None,
{
    let v = to_chars(address);
    let (d1, d2, d3, d4) = match four_dots(&v) {
        Some(d) => d,
        None => return None,
    };
    let prefix = from_char_range(&v, 0, d1);
    if !str_eq(prefix.as_str(), "tools") {
        return None;
    }
    let owner_text_s = from_char_range(&v, d2 + 1, d3);
    let owner = match Owner::parse(owner_text_s.as_str()) {
        Some(o) => o,
        None => return None,
    };
    let integ = from_char_range(&v, d1 + 1, d2);
    let conn = from_char_range(&v, d3 + 1, d4);
    let tool = from_char_range(&v, d4 + 1, v.len());
    let integration = match IntegrationSlug::new(integ.as_str()) {
        Ok(x) => x,
        Err(_) => return None,
    };
    let connection = match ConnectionName::new(conn.as_str()) {
        Ok(x) => x,
        Err(_) => return None,
    };
    let tool_name = match ToolName::new(tool.as_str()) {
        Ok(x) => x,
        Err(_) => return None,
    };
    Some(ToolAddress { integration, owner, connection: connection, tool: tool_name })
}

/// `tools.<integration>.<owner>.<connection>`.
pub fn connection_address(
    owner: Owner,
    integration: &IntegrationSlug,
    connection: &ConnectionName,
) -> (r: ConnectionAddress)
    ensures
        r@ == spec_connection_address(integration@, owner, connection@),
{
    let mut s = copy_str("tools");
    push_char(&mut s, '.');
    push_str(&mut s, integration.as_str());
    push_char(&mut s, '.');
    push_str(&mut s, owner.as_str());
    push_char(&mut s, '.');
    push_str(&mut s, connection.as_str());
    assert(s@ =~= spec_connection_address(integration@, owner, connection@));
    ConnectionAddress(s)
}

/// Full tool address from parts.
pub fn tool_address(
    owner: Owner,
    integration: IntegrationSlug,
    connection: ConnectionName,
    tool: ToolName,
) -> (r: ToolAddress)
    ensures
        r@ == (integration@, owner, connection@, tool@),
{
    ToolAddress::new(integration, owner, connection, tool)
}

/// Parsing the wire form of a well-formed address gives the same address back.
pub proof fn lemma_address_roundtrip(v: (Seq<char>, Owner, Seq<char>, Seq<char>))
    requires
        valid_address_parts(v),
    ensures
        spec_parse_tool_address(spec_address_text(v)) == Some(v),
{
    reveal_strlit("tools");
    reveal_strlit("org");
    reveal_strlit("user");
    let o = owner_text(v.1);
    assert(!"tools"@.contains('.')) by {
        if "tools"@.contains('.') {
            let k = choose|k: int| 0 <= k < "tools"@.len() && "tools"@[k] == '.';
        }
    }
    assert(!o.contains('.')) by {
        if o.contains('.') {
            let k = choose|k: int| 0 <= k < o.len() && o[k] == '.';
        }
    }
    let s = spec_address_text(v);
    let r1 = spec_sandbox_path(v);
    let r2 = dot(dot(o, v.2), v.3);
    let r3 = dot(v.2, v.3);
    assert(s =~= "tools"@ + seq!['.'] + r1);
    lemma_split_once_concat("tools"@, r1, '.');
    assert(r1 =~= v.0 + seq!['.'] + r2);
    lemma_split_once_concat(v.0, r2, '.');
    assert(r2 =~= o + seq!['.'] + r3);
    lemma_split_once_concat(o, r3, '.');
    lemma_split_once_concat(v.2, v.3, '.');
    crate::owner::lemma_owner_roundtrip(v.1);
}

} // verus!
