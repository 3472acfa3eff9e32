//! The credential ladder and the call runtime: which rung serves a call, what it costs, and
//! the checks a strict endpoint makes. The service keeps the catalog, the ledger, the call
//! counter and the team tools; the caller performs the upstream request between
//! `begin_call` and `finish_call`.

use vstd::prelude::*;
use crate::json::{JsonValue, member_from, json_member, json_same, copy_json};
use crate::text::{copy_str, push_str, str_eq, trim, spec_trim, decimal, spec_decimal, spec_lower, to_chars, lower_chars, split_whitespace, spec_words, push_char};
use super::{Access, CatalogError, Endpoint, Catalog, opt_text, copy_opt, find_endpoint, find_index, lemma_find_endpoint};
use super::money::{MemoryLedger, SIGNUP_GRANT_MICRO, spec_refund, reserved, settled, signed_up, spec_reserve_result};

verus! {

/// How a call was authorized (disclosed on the response).
#[derive(Clone, Copy, Debug, PartialEq, Eq, Structural)]
pub enum ServedVia {
    /// Team-registered tool + binding.
    TeamTool,
    /// Saved connection (own key).
    Connection,
    /// Verified public / anonymous route.
    Anonymous,
    /// Platform key, metered.
    Platform,
    /// Routed capability that named a child.
    Routed,
}

impl ServedVia {
    /// Own-key rungs are never metered.
    pub open spec fn spec_metered(self) -> bool {
        self is Platform || self is Routed
    }

    /// Own-key rungs are never metered.
    pub fn metered(self) -> (r: bool)
        ensures
            r == self.spec_metered(),
    {
        matches!(self, ServedVia::Platform | ServedVia::Routed)
    }
}

/// Team-owned relay tool (its secret is never listed).
#[derive(Debug)]
pub struct TeamTool {
    /// Id.
    pub id: String,
    /// Display name.
    pub name: String,
    /// Provider slug this tool covers.
    pub provider: String,
    /// Upstream origin.
    pub base_url: String,
}

/// The texts of a team tool: id, name, provider, origin.
pub open spec fn tool_view(t: TeamTool) -> (Seq<char>, Seq<char>, Seq<char>, Seq<char>) {
    (t.id@, t.name@, t.provider@, t.base_url@)
}

/// Inputs for one call.
#[derive(Debug)]
pub struct CallInput {
    /// Catalog endpoint id.
    pub id: String,
    /// Query string fields, by name (each name once).
    pub query: Vec<(String, String)>,
    /// JSON body (POST).
    pub body: Option<JsonValue>,
    /// Subject for the ledger.
    pub subject: String,
    /// Own-key secret when a connection exists for this provider.
    pub connection_secret: Option<String>,
    /// Team-tool secret when a team tool matches this provider.
    pub team_tool_secret: Option<String>,
}

impl Default for CallInput {
    fn default() -> (r: Self)
        ensures
            r.id@ == Seq::<char>::empty(),
            r.query@.len() == 0,
            r.body is None,
            r.subject@ == Seq::<char>::empty(),
            r.connection_secret is None,
            r.team_tool_secret is None,
    {
        CallInput {
            id: String::new(),
            query: Vec::new(),
            body: None,
            subject: String::new(),
            connection_secret: None,
            team_tool_secret: None,
        }
    }
}

/// Result of a catalog call (never includes secrets).
#[derive(Debug)]
pub struct CallOutcome {
    /// HTTP-ish status from upstream or mock.
    pub status: u16,
    /// Ladder rung that served.
    pub served_via: ServedVia,
    /// Charged micro-USD (0 if own key / anonymous / free).
    pub cost_micro: i64,
    /// Child endpoint when routed.
    pub child: Option<String>,
    /// Upstream / mock body.
    pub body: JsonValue,
}

/// The value of query field `key` (the first entry with that name).
pub open spec fn query_get(q: Seq<(String, String)>, key: Seq<char>) -> Option<Seq<char>>
    decreases q.len(),
{
    if q.len() == 0 {
        None
    } else if q[0].0@ == key {
        Some(q[0].1@)
    } else {
        query_get(q.drop_first(), key)
    }
}

/// The value of query field `key`, if any.
pub fn query_value<'a>(q: &'a Vec<(String, String)>, key: &str) -> (r: Option<&'a String>)
    ensures
        opt_ref_text(r) == query_get(q@, key@),
{
    let mut k: usize = 0;
    assert(q@.skip(0) =~= q@);
    while k < q.len()
        invariant
            k <= q@.len(),
            query_get(q@, key@) == query_get(q@.skip(k as int), key@),
        decreases q.len() - k,
    {
        proof {
            assert(q@.skip(k as int).drop_first() =~= q@.skip(k + 1));
        }
        if str_eq(q[k].0.as_str(), key) {
            return Some(&q[k].1);
        }
        k += 1;
    }
    None
}

/// The text of an optional borrowed string.
pub open spec fn opt_ref_text(o: Option<&String>) -> Option<Seq<char>> {
    match o {
        Some(s) => Some(s@),
        None => None,
    }
}

/// Whether an optional secret is present and not empty.
pub open spec fn usable(o: Option<String>) -> bool {
    o matches Some(s) && s@.len() > 0
}

/// The rung that serves `ep` for `input`: a team-tool secret, then a connection secret,
/// then the endpoint's own access. `Err(())` means the platform refuses (own key needed).
pub open spec fn spec_ladder(ep: Endpoint, input: CallInput) -> Result<(ServedVia, Option<Seq<char>>), ()> {
    if usable(input.team_tool_secret) {
        Ok((ServedVia::TeamTool, opt_text(input.team_tool_secret)))
    } else if usable(input.connection_secret) {
        Ok((ServedVia::Connection, opt_text(input.connection_secret)))
    } else {
        match ep.access {
            Access::Anonymous => Ok((ServedVia::Anonymous, None)),
            Access::Platform => if ep.cost_micro is Some {
                Ok((ServedVia::Platform, None))
            } else {
                Err(())
            },
            Access::OwnKeyOnly => Err(()),
        }
    }
}

fn usable_exec(o: &Option<String>) -> (r: bool)
    ensures
        r == usable(*o),
{
    match o {
        Some(s) => to_chars(s.as_str()).len() > 0,
        None => false,
    }
}

/// The credential ladder: which rung serves `endpoint` for `input`, with the secret it
/// uses; refused with "connect your key" when only an own key could serve.
fn ladder(endpoint: &Endpoint, input: &CallInput) -> (r: Result<(ServedVia, Option<String>), CatalogError>)
    ensures
        match spec_ladder(*endpoint, *input) {
            Ok((via, secret)) => r matches Ok((v, s)) && v == via && opt_text(s) == secret,
            Err(()) => r matches Err(CatalogError::ConnectYourKey { id, provider }) && id@
                == endpoint.id@ && provider@ == endpoint.provider@,
        },
{
    if usable_exec(&input.team_tool_secret) {
        return Ok((ServedVia::TeamTool, copy_opt(&input.team_tool_secret)));
    }
    if usable_exec(&input.connection_secret) {
        return Ok((ServedVia::Connection, copy_opt(&input.connection_secret)));
    }
    match endpoint.access {
        Access::Anonymous => Ok((ServedVia::Anonymous, None)),
        Access::Platform if endpoint.cost_micro.is_some() => Ok((ServedVia::Platform, None)),
        _ => Err(
            CatalogError::ConnectYourKey {
                id: copy_str(endpoint.id.as_str()),
                provider: copy_str(endpoint.provider.as_str()),
            },
        ),
    }
}

/// Member `key` of an object (`Value::get`; `None` on anything but an object).
pub open spec fn json_get(v: JsonValue, key: Seq<char>) -> Option<JsonValue> {
    match v {
        JsonValue::Object(m) => member_from(m@, key, 0),
        _ => None,
    }
}

/// Whether some item of `items` is the string `value`.
pub open spec fn allows(items: Seq<JsonValue>, value: Seq<char>) -> bool {
    exists|i: int| 0 <= i < items.len() && (#[trigger] items[i] matches JsonValue::Text(t) && t@ == value)
}

/// The first complaint about the query fields `q` against the declared fields, in order:
/// an undeclared name, or a value outside the declared `enum`.
pub open spec fn undeclared_fault(q: Seq<(String, String)>, fields: Seq<(String, JsonValue)>) -> Option<Seq<char>>
    decreases q.len(),
{
    if q.len() == 0 {
        None
    } else {
        let key = q[0].0@;
        match member_from(fields, key, 0) {
            None => Some("parâmetro não declarado: "@ + key),
            Some(spec) => match json_get(spec, "enum"@) {
                Some(JsonValue::Array(allowed)) => if allows(allowed@, q[0].1@) {
                    undeclared_fault(q.drop_first(), fields)
                } else {
                    Some("valor não permitido para "@ + key)
                },
                _ => undeclared_fault(q.drop_first(), fields),
            },
        }
    }
}

/// The first declared field marked required that the query leaves out or blank.
pub open spec fn missing_fault(fields: Seq<(String, JsonValue)>, q: Seq<(String, String)>) -> Option<Seq<char>>
    decreases fields.len(),
{
    if fields.len() == 0 {
        None
    } else {
        let name = fields[0].0@;
        let required = json_get(fields[0].1, "required"@) == Some(JsonValue::Bool(true));
        let blank = match query_get(q, name) {
            Some(v) => spec_trim(v).len() == 0,
            None => true,
        };
        if required && blank {
            Some("parâmetro obrigatório ausente: "@ + name)
        } else {
            missing_fault(fields.drop_first(), q)
        }
    }
}

/// The message a strict endpoint refuses `input` with, if it does.
pub open spec fn strict_fault(ep: Endpoint, input: CallInput) -> Option<Seq<char>> {
    if !ep.strict_query {
        None
    } else {
        match ep.query {
            JsonValue::Object(fields) => if input.body is Some {
                Some(
                    "use só os parâmetros de query declarados, uma vez cada; inclua os obrigatórios e omita o corpo"@,
                )
            } else {
                match undeclared_fault(input.query@, fields@) {
                    Some(m) => Some(m),
                    None => missing_fault(fields@, input.query@),
                }
            },
            _ => Some("use só os parâmetros de query declarados; omita o corpo"@),
        }
    }
}

fn allows_exec(items: &Vec<JsonValue>, value: &str) -> (r: bool)
    ensures
        r == allows(items@, value@),
{
    let mut k: usize = 0;
    while k < items.len()
        invariant
            k <= items@.len(),
            forall|i: int| 0 <= i < k ==> !(#[trigger] items@[i] matches JsonValue::Text(t) && t@ == value@),
        decreases items.len() - k,
    {
        if let JsonValue::Text(t) = &items[k] {
            if str_eq(t.as_str(), value) {
                return true;
            }
        }
        k += 1;
    }
    false
}

fn undeclared_exec(q: &Vec<(String, String)>, fields: &Vec<(String, JsonValue)>) -> (r: Option<String>)
    ensures
        opt_text(r) == undeclared_fault(q@, fields@),
{
    let mut k: usize = 0;
    assert(q@.skip(0) =~= q@);
    while k < q.len()
        invariant
            k <= q@.len(),
            undeclared_fault(q@, fields@) == undeclared_fault(q@.skip(k as int), fields@),
        decreases q.len() - k,
    {
        proof {
            assert(q@.skip(k as int).drop_first() =~= q@.skip(k + 1));
            assert(q@.skip(k as int)[0] == q@[k as int]);
        }
        let key = &q[k].0;
        match json_member(fields, key.as_str()) {
            None => {
                let mut m = copy_str("parâmetro não declarado: ");
                push_str(&mut m, key.as_str());
                return Some(m);
            },
            Some(spec) => {
                if let JsonValue::Object(sm) = spec {
                    if let Some(JsonValue::Array(allowed)) = json_member(sm, "enum") {
                        if !allows_exec(allowed, q[k].1.as_str()) {
                            let mut m = copy_str("valor não permitido para ");
                            push_str(&mut m, key.as_str());
                            return Some(m);
                        }
                    }
                }
            },
        }
        k += 1;
    }
    None
}

fn missing_exec(fields: &Vec<(String, JsonValue)>, q: &Vec<(String, String)>) -> (r: Option<String>)
    ensures
        opt_text(r) == missing_fault(fields@, q@),
{
    let mut k: usize = 0;
    assert(fields@.skip(0) =~= fields@);
    while k < fields.len()
        invariant
            k <= fields@.len(),
            missing_fault(fields@, q@) == missing_fault(fields@.skip(k as int), q@),
        decreases fields.len() - k,
    {
        proof {
            assert(fields@.skip(k as int).drop_first() =~= fields@.skip(k + 1));
            assert(fields@.skip(k as int)[0] == fields@[k as int]);
        }
        let name = &fields[k].0;
        let required = match &fields[k].1 {
            JsonValue::Object(sm) => match json_member(sm, "required") {
                Some(JsonValue::Bool(b)) => *b,
                _ => false,
            },
            _ => false,
        };
        if required {
            let blank = match query_value(q, name.as_str()) {
                Some(v) => to_chars(trim(v.as_str()).as_str()).len() == 0,
                None => true,
            };
            if blank {
                let mut m = copy_str("parâmetro obrigatório ausente: ");
                push_str(&mut m, name.as_str());
                return Some(m);
            }
        }
        k += 1;
    }
    None
}

/// A strict endpoint accepts only its declared query fields, each value inside its
/// declared `enum`, every required field present and not blank, and no body.
fn enforce_strict_query(endpoint: &Endpoint, input: &CallInput) -> (r: Result<(), CatalogError>)
    ensures
        match strict_fault(*endpoint, *input) {
            None => r is Ok,
            Some(m) => r matches Err(CatalogError::ParameterInvalid(e)) && e@ == m,
        },
{
    if !endpoint.strict_query {
        return Ok(());
    }
    let fields = match &endpoint.query {
        JsonValue::Object(f) => f,
        _ => {
            return Err(CatalogError::ParameterInvalid(copy_str("use só os parâmetros de query declarados; omita o corpo")));
        },
    };
    if input.body.is_some() {
        return Err(
            CatalogError::ParameterInvalid(
                copy_str(
                    "use só os parâmetros de query declarados, uma vez cada; inclua os obrigatórios e omita o corpo",
                ),
            ),
        );
    }
    if let Some(m) = undeclared_exec(&input.query, fields) {
        return Err(CatalogError::ParameterInvalid(m));
    }
    match missing_exec(fields, &input.query) {
        Some(m) => Err(CatalogError::ParameterInvalid(m)),
        None => Ok(()),
    }
}


// ---------------------------------------------------------------- mock bodies

/// `v` is the string `t`.
pub open spec fn text_is(v: JsonValue, t: Seq<char>) -> bool {
    v matches JsonValue::Text(s) && s@ == t
}

/// `v` is the number written `t`.
pub open spec fn number_is(v: JsonValue, t: Seq<char>) -> bool {
    v matches JsonValue::Number(s) && s@ == t
}

/// `v` is an object whose members are named `keys`, in that order.
pub open spec fn keys_are(v: JsonValue, keys: Seq<Seq<char>>) -> bool {
    v matches JsonValue::Object(m) && m@.len() == keys.len() && forall|i: int|
        0 <= i < keys.len() ==> (#[trigger] m@[i]).0@ == keys[i]
}

/// The value of the `i`-th member of an object.
pub open spec fn member_at(v: JsonValue, i: int) -> JsonValue {
    match v {
        JsonValue::Object(m) => m@[i].1,
        _ => JsonValue::Null,
    }
}

/// `v` is the string `t` when there is one, `null` otherwise.
pub open spec fn text_or_null(v: JsonValue, t: Option<Seq<char>>) -> bool {
    match t {
        Some(s) => text_is(v, s),
        None => v is Null,
    }
}

/// The text, or `d` when there is none.
pub open spec fn or_text(o: Option<Seq<char>>, d: Seq<char>) -> Seq<char> {
    match o {
        Some(t) => t,
        None => d,
    }
}

/// The mock address for the email finder: the first word of the name, lower-cased (`ada`
/// when the name has no word), then `@` and the domain.
pub open spec fn mock_email(q: Seq<(String, String)>) -> Seq<char> {
    let domain = or_text(query_get(q, "domain"@), "example.com"@);
    let name = or_text(query_get(q, "full_name"@), "Ada Lovelace"@);
    let local = if spec_words(name).len() > 0 {
        spec_lower(spec_words(name)[0])
    } else {
        spec_lower("ada"@)
    };
    local + "@"@ + domain
}

/// The body a mock endpoint answers with (object members by name, as JSON objects keep
/// them): a fixed shape per known endpoint, echoing query fields; any other endpoint
/// answers with its id.
pub open spec fn is_mock_body(r: JsonValue, ep: Endpoint, input: CallInput, own_key: bool) -> bool {
    let q = input.query@;
    let id = ep.id@;
    if id == "demo.echo"@ {
        &&& keys_are(r, seq!["ok"@, "text"@])
        &&& member_at(r, 0) == JsonValue::Bool(true)
        &&& text_is(member_at(r, 1), or_text(query_get(q, "text"@), "olá"@))
    } else if id == "hunter.people.email.find"@ {
        &&& keys_are(r, seq!["data"@, "own_key"@])
        &&& keys_are(member_at(r, 0), seq!["email"@, "score"@])
        &&& text_is(member_at(member_at(r, 0), 0), mock_email(q))
        &&& number_is(member_at(member_at(r, 0), 1), "92"@)
        &&& member_at(r, 1) == JsonValue::Bool(own_key)
    } else if id == "hunter.people.email.verify"@ {
        &&& keys_are(r, seq!["data"@])
        &&& keys_are(member_at(r, 0), seq!["email"@, "status"@])
        &&& text_or_null(member_at(member_at(r, 0), 0), query_get(q, "email"@))
        &&& text_is(member_at(member_at(r, 0), 1), "valid"@)
    } else if id == "github.user.get"@ {
        &&& keys_are(r, seq!["id"@, "login"@, "mock"@])
        &&& number_is(member_at(r, 0), "1"@)
        &&& text_is(member_at(r, 1), "octocat"@)
        &&& member_at(r, 2) == JsonValue::Bool(true)
    } else if id == "moz.backlinks.lookup"@ {
        &&& keys_are(r, seq!["backlinks"@, "domain"@])
        &&& number_is(member_at(r, 0), "42"@)
        &&& text_or_null(member_at(r, 1), query_get(q, "domain"@))
    } else if id == "internal.private.crm"@ {
        &&& keys_are(r, seq!["contacts"@, "own_key"@])
        &&& member_at(r, 0) matches JsonValue::Array(a) && a@.len() == 1 && keys_are(
            a@[0],
            seq!["email"@, "name"@],
        ) && text_is(member_at(a@[0], 0), "ada@example.com"@) && text_is(member_at(a@[0], 1), "Ada"@)
        &&& member_at(r, 1) == JsonValue::Bool(true)
    } else {
        &&& keys_are(r, seq!["id"@, "ok"@, "own_key"@])
        &&& text_is(member_at(r, 0), id)
        &&& member_at(r, 1) == JsonValue::Bool(true)
        &&& member_at(r, 2) == JsonValue::Bool(own_key)
    }
}

fn text(t: &str) -> (r: JsonValue)
    ensures
        text_is(r, t@),
{
    JsonValue::Text(copy_str(t))
}

fn text_or(o: Option<&String>, d: &str) -> (r: String)
    ensures
        r@ == or_text(opt_ref_text(o), d@),
{
    match o {
        Some(s) => copy_str(s.as_str()),
        None => copy_str(d),
    }
}

fn text_or_null_exec(o: Option<&String>) -> (r: JsonValue)
    ensures
        text_or_null(r, opt_ref_text(o)),
{
    match o {
        Some(s) => JsonValue::Text(copy_str(s.as_str())),
        None => JsonValue::Null,
    }
}

fn member(k: &str, v: JsonValue) -> (r: (String, JsonValue))
    ensures
        r.0@ == k@,
        r.1 == v,
{
    (copy_str(k), v)
}

fn mock_email_exec(q: &Vec<(String, String)>) -> (r: String)
    ensures
        r@ == mock_email(q@),
{
    let domain = text_or(query_value(q, "domain"), "example.com");
    let name = text_or(query_value(q, "full_name"), "Ada Lovelace");
    let words = split_whitespace(name.as_str());
    let local_chars = if words.len() > 0 {
        proof {
            assert(spec_words(name@)[0] == words@[0]@);
        }
        lower_chars(to_chars(words[0].as_str()).as_slice())
    } else {
        lower_chars(to_chars("ada").as_slice())
    };
    let mut out = crate::text::from_chars(local_chars.as_slice());
    push_str(&mut out, "@");
    push_str(&mut out, domain.as_str());
    out
}

/// The body a mock endpoint answers with (see `is_mock_body`).
pub fn mock_body(endpoint: &Endpoint, input: &CallInput, secret: Option<&str>) -> (r: JsonValue)
    ensures
        is_mock_body(r, *endpoint, *input, secret is Some),
{
    let used_own_key = secret.is_some();
    let id = endpoint.id.as_str();
    let q = &input.query;
    if str_eq(id, "demo.echo") {
        let t = text_or(query_value(q, "text"), "olá");
        let mut m: Vec<(String, JsonValue)> = Vec::new();
        m.push(member("ok", JsonValue::Bool(true)));
        m.push(member("text", JsonValue::Text(t)));
        JsonValue::Object(m)
    } else if str_eq(id, "hunter.people.email.find") {
        let mut data: Vec<(String, JsonValue)> = Vec::new();
        data.push(member("email", JsonValue::Text(mock_email_exec(q))));
        data.push(member("score", JsonValue::Number(copy_str("92"))));
        let mut m: Vec<(String, JsonValue)> = Vec::new();
        m.push(member("data", JsonValue::Object(data)));
        m.push(member("own_key", JsonValue::Bool(used_own_key)));
        JsonValue::Object(m)
    } else if str_eq(id, "hunter.people.email.verify") {
        let mut data: Vec<(String, JsonValue)> = Vec::new();
        data.push(member("email", text_or_null_exec(query_value(q, "email"))));
        data.push(member("status", text("valid")));
        let mut m: Vec<(String, JsonValue)> = Vec::new();
        m.push(member("data", JsonValue::Object(data)));
        JsonValue::Object(m)
    } else if str_eq(id, "github.user.get") {
        let mut m: Vec<(String, JsonValue)> = Vec::new();
        m.push(member("id", JsonValue::Number(copy_str("1"))));
        m.push(member("login", text("octocat")));
        m.push(member("mock", JsonValue::Bool(true)));
        JsonValue::Object(m)
    } else if str_eq(id, "moz.backlinks.lookup") {
        let mut m: Vec<(String, JsonValue)> = Vec::new();
        m.push(member("backlinks", JsonValue::Number(copy_str("42"))));
        m.push(member("domain", text_or_null_exec(query_value(q, "domain"))));
        JsonValue::Object(m)
    } else if str_eq(id, "internal.private.crm") {
        let mut contact: Vec<(String, JsonValue)> = Vec::new();
        contact.push(member("email", text("ada@example.com")));
        contact.push(member("name", text("Ada")));
        let mut contacts: Vec<JsonValue> = Vec::new();
        contacts.push(JsonValue::Object(contact));
        let mut m: Vec<(String, JsonValue)> = Vec::new();
        m.push(member("contacts", JsonValue::Array(contacts)));
        m.push(member("own_key", JsonValue::Bool(true)));
        JsonValue::Object(m)
    } else {
        let mut m: Vec<(String, JsonValue)> = Vec::new();
        m.push(member("id", text(id)));
        m.push(member("ok", JsonValue::Bool(true)));
        m.push(member("own_key", JsonValue::Bool(used_own_key)));
        JsonValue::Object(m)
    }
}

// ---------------------------------------------------------------- upstream address

/// Bytes left as they are in a URL: ASCII letters, digits and `-_.~`.
pub open spec fn unreserved(b: u8) -> bool {
    (0x41 <= b <= 0x5A) || (0x61 <= b <= 0x7A) || (0x30 <= b <= 0x39) || b == 0x2D || b == 0x5F
        || b == 0x2E || b == 0x7E
}

/// Upper-case hex digit for `d < 16`.
pub open spec fn hex_upper(d: int) -> char {
    if d < 10 {
        (('0' as int) + d) as char
    } else {
        (('A' as int) + d - 10) as char
    }
}

/// Percent-encoding of UTF-8 bytes: unreserved bytes stay, every other byte is `%XX`.
pub open spec fn url_encoded(b: Seq<u8>) -> Seq<char>
    decreases b.len(),
{
    if b.len() == 0 {
        Seq::empty()
    } else {
        url_encoded(b.drop_last()) + if unreserved(b.last()) {
            seq![b.last() as char]
        } else {
            seq!['%', hex_upper((b.last() / 16) as int), hex_upper((b.last() % 16) as int)]
        }
    }
}

fn hex_digit(d: u8) -> (c: char)
    requires
        d < 16,
    ensures
        c == hex_upper(d as int),
{
    if d < 10 {
        crate::text::char_from_ascii(('0' as u32) + d as u32)
    } else {
        crate::text::char_from_ascii(('A' as u32) + d as u32 - 10)
    }
}

/// Percent-encodes `s` for a query string (its UTF-8 bytes; unreserved ones stay).
pub fn urlencoding_lite(s: &str) -> (r: String)
    ensures
        r@ == url_encoded(vstd::utf8::encode_utf8(s@)),
{
    let b = s.as_bytes();
    let mut out = String::new();
    let mut k: usize = 0;
    let n = b.len();
    while k < n
        invariant
            n == b@.len(),
            b@ == vstd::utf8::encode_utf8(s@),
            k <= n,
            out@ == url_encoded(b@.take(k as int)),
        decreases n - k,
    {
        let x = b[k];
        proof {
            assert(b@.take(k + 1).drop_last() =~= b@.take(k as int));
        }
        if (0x41 <= x && x <= 0x5A) || (0x61 <= x && x <= 0x7A) || (0x30 <= x && x <= 0x39) || x == 0x2D
            || x == 0x5F || x == 0x2E || x == 0x7E {
            push_char(&mut out, x as char);
        } else {
            push_char(&mut out, '%');
            push_char(&mut out, hex_digit(x / 16));
            push_char(&mut out, hex_digit(x % 16));
        }
        k += 1;
    }
    assert(b@.take(n as int) =~= b@);
    out
}

/// `s` without its trailing `c`s (`str::trim_end_matches`).
pub open spec fn trim_end_char(s: Seq<char>, c: char) -> Seq<char>
    decreases s.len(),
{
    if s.len() > 0 && s.last() == c {
        trim_end_char(s.drop_last(), c)
    } else {
        s
    }
}

/// `key=value`, both percent-encoded.
pub open spec fn query_pair(p: (String, String)) -> Seq<char> {
    url_encoded(vstd::utf8::encode_utf8(p.0@)) + "="@ + url_encoded(vstd::utf8::encode_utf8(p.1@))
}

/// The query pairs joined by `&`.
pub open spec fn query_string(q: Seq<(String, String)>) -> Seq<char>
    decreases q.len(),
{
    if q.len() == 0 {
        Seq::empty()
    } else if q.len() == 1 {
        query_pair(q[0])
    } else {
        query_string(q.drop_last()) + "&"@ + query_pair(q.last())
    }
}

/// Whether calls to `base` are answered by the mock instead of upstream.
pub open spec fn is_mock_base(base: Seq<char>) -> bool {
    base.len() == 0 || (base.len() >= 7 && base.take(7) == "mock://"@)
}

/// The upstream URL of a call: the base without trailing slashes, the path, and for a GET
/// (any case) with query fields, `?` and the encoded pairs. `None` for a mock base.
pub open spec fn spec_upstream_url(base: Seq<char>, ep: Endpoint, input: CallInput) -> Option<Seq<char>> {
    if is_mock_base(base) {
        None
    } else {
        let url = trim_end_char(base, '/') + ep.path@;
        if spec_lower(ep.method@) == "get"@ && input.query@.len() > 0 {
            Some(url + "?"@ + query_string(input.query@))
        } else {
            Some(url)
        }
    }
}

pub(crate) fn trim_end_slashes(base: &str) -> (r: String)
    ensures
        r@ == trim_end_char(base@, '/'),
{
    let v = to_chars(base);
    let mut n = v.len();
    assert(v@.take(n as int) =~= v@);
    while n > 0 && v[n - 1] == '/'
        invariant
            n <= v@.len(),
            trim_end_char(base@, '/') == trim_end_char(v@.take(n as int), '/'),
            v@ == base@,
        decreases n,
    {
        proof {
            assert(v@.take(n as int).drop_last() =~= v@.take(n - 1));
        }
        n -= 1;
    }
    proof {
        if n > 0 {
            assert(v@.take(n as int).last() == v@[n - 1]);
        }
    }
    crate::text::from_char_range(v.as_slice(), 0, n)
}

/// The upstream URL of a call to `endpoint` at origin `base` (resolved from the endpoint's
/// `base_url` by the caller), or `None` when the mock answers it.
pub fn upstream_url(base: &str, endpoint: &Endpoint, input: &CallInput) -> (r: Option<String>)
    ensures
        opt_text(r) == spec_upstream_url(base@, *endpoint, *input),
{
    let bv = to_chars(base);
    if bv.len() == 0 || crate::text::starts_with_chars(bv.as_slice(), "mock://") {
        proof {
            if bv@.len() > 0 {
                reveal_strlit("mock://");
            }
        }
        return None;
    }
    proof {
        reveal_strlit("mock://");
    }
    let mut url = trim_end_slashes(base);
    push_str(&mut url, endpoint.path.as_str());
    if crate::scope::eq_ignore_ascii_case(endpoint.method.as_str(), "GET") && input.query.len() > 0 {
        proof {
            reveal_strlit("GET");
            reveal_strlit("get");
            assert(spec_lower("GET"@) =~= "get"@);
        }
        push_str(&mut url, "?");
        let q = &input.query;
        let mut k: usize = 0;
        let ghost head = url@;
        while k < q.len()
            invariant
                k <= q@.len(),
                url@ == head + query_string(q@.take(k as int)),
            decreases q.len() - k,
        {
            proof {
                assert(q@.take(k + 1).drop_last() =~= q@.take(k as int));
                assert(q@.take(k + 1).last() == q@[k as int]);
            }
            if k > 0 {
                push_str(&mut url, "&");
            }
            let ek = urlencoding_lite(q[k].0.as_str());
            let ev = urlencoding_lite(q[k].1.as_str());
            push_str(&mut url, ek.as_str());
            push_str(&mut url, "=");
            push_str(&mut url, ev.as_str());
            proof {
                if k == 0 {
                    assert(q@.take(1) =~= seq![q@[0]]);
                }
            }
            k += 1;
        }
        assert(q@.take(q@.len() as int) =~= q@);
    } else {
        proof {
            reveal_strlit("GET");
            reveal_strlit("get");
            assert(spec_lower("GET"@) =~= "get"@);
        }
    }
    Some(url)
}


// ---------------------------------------------------------------- the service

/// Where a call's route ends, following routed capabilities from `id` for at most `fuel`
/// hops: the index of the endpoint that serves it, or the id that is not catalogued.
/// `None` when the route does not end within `fuel` hops.
pub open spec fn route_of(eps: Seq<Endpoint>, id: Seq<char>, fuel: nat) -> Option<Result<int, Seq<char>>>
    decreases fuel,
{
    if fuel == 0 {
        None
    } else {
        match find_endpoint(eps, id) {
            None => Some(Err(id)),
            Some(i) => match eps[i].routed_child {
                None => Some(Ok(i)),
                Some(c) => route_of(eps, c@, (fuel - 1) as nat),
            },
        }
    }
}

/// Whether following routed capabilities from `id` ends (it then ends within as many hops
/// as there are endpoints).
pub open spec fn route_ends(eps: Seq<Endpoint>, id: Seq<char>) -> bool {
    route_of(eps, id, eps.len() + 1) is Some
}

/// The child the requested endpoint routes to, if it is a routed capability.
pub open spec fn first_hop(eps: Seq<Endpoint>, id: Seq<char>) -> Option<Seq<char>> {
    match find_endpoint(eps, id) {
        Some(i) => opt_text(eps[i].routed_child),
        None => None,
    }
}

/// Why a call is refused before anything is charged.
pub enum Refusal {
    /// No endpoint has this id.
    NotFound(Seq<char>),
    /// The strict query check failed with this message.
    ParameterInvalid(Seq<char>),
    /// Only an own key could serve this endpoint (id, provider).
    ConnectYourKey(Seq<char>, Seq<char>),
}

/// Whether `e` is the error for refusal `f`.
pub open spec fn refused_with(e: CatalogError, f: Refusal) -> bool {
    match f {
        Refusal::NotFound(id) => e matches CatalogError::NotFound(m) && m@ == id,
        Refusal::ParameterInvalid(msg) => e matches CatalogError::ParameterInvalid(m) && m@ == msg,
        Refusal::ConnectYourKey(id, p) => e matches CatalogError::ConnectYourKey { id: i, provider: v }
            && i@ == id && v@ == p,
    }
}

/// What a call is planned as: the serving endpoint's index, the rung, the secret it uses,
/// and what it meters (the published cost on a metered rung, else 0); or why it is refused.
pub open spec fn call_plan(
    eps: Seq<Endpoint>,
    team_secret: Option<Seq<char>>,
    input: CallInput,
) -> Result<(int, ServedVia, Option<Seq<char>>, int), Refusal> {
    match route_of(eps, input.id@, eps.len() + 1) {
        None => Err(Refusal::NotFound(input.id@)),
        Some(Err(missing)) => Err(Refusal::NotFound(missing)),
        Some(Ok(i)) => {
            let ep = eps[i];
            match strict_fault(ep, input) {
                Some(m) => Err(Refusal::ParameterInvalid(m)),
                None => {
                    let team = match input.team_tool_secret {
                        Some(s) => Some(s@),
                        None => team_secret,
                    };
                    let usable_team = team matches Some(t) && t.len() > 0;
                    let via_secret = if usable_team {
                        Ok((ServedVia::TeamTool, team))
                    } else if usable(input.connection_secret) {
                        Ok((ServedVia::Connection, opt_text(input.connection_secret)))
                    } else {
                        match ep.access {
                            Access::Anonymous => Ok((ServedVia::Anonymous, None)),
                            Access::Platform => if ep.cost_micro is Some {
                                Ok((ServedVia::Platform, None))
                            } else {
                                Err(())
                            },
                            Access::OwnKeyOnly => Err(()),
                        }
                    };
                    match via_secret {
                        Err(()) => Err(Refusal::ConnectYourKey(ep.id@, ep.provider@)),
                        Ok((via, secret)) => {
                            let meter: int = if via.spec_metered() {
                                match ep.cost_micro {
                                    Some(c) => c as int,
                                    None => 0,
                                }
                            } else {
                                0
                            };
                            Ok((i, via, secret, meter))
                        },
                    }
                },
            }
        },
    }
}

/// The counter after one step (it wraps like an atomic add).
pub open spec fn next_count(c: u64) -> u64 {
    if c == u64::MAX {
        0
    } else {
        (c + 1) as u64
    }
}

/// The id of the call numbered `c`.
pub open spec fn call_id_of(c: u64) -> Seq<char> {
    "call_"@ + spec_decimal(c as nat)
}

/// The id of the team tool numbered `c`.
pub open spec fn tool_id_of(c: u64) -> Seq<char> {
    "tt_"@ + spec_decimal(c as nat)
}

/// A call that passed the ladder and whose cost is reserved: the caller performs the
/// upstream request (or the mock) and hands the result to `finish_call`.
#[derive(Debug)]
pub struct PendingCall {
    /// The input of the endpoint that serves the call (its id, and the team secret filled in).
    pub input: CallInput,
    /// The rung that serves.
    pub via: ServedVia,
    /// The secret the request uses.
    pub secret: Option<String>,
    /// The ledger hold's id.
    pub call_id: String,
    /// The reserved (and, on success, charged) amount; 0 when nothing is metered.
    pub meter: i64,
    /// The child named by a routed capability.
    pub routed: Option<String>,
}

struct StoredTool {
    meta: TeamTool,
    secret: String,
}

/// Catalog + ledger + call counter + team tools.
pub struct CatalogService {
    catalog: Catalog,
    ledger: MemoryLedger,
    calls: u64,
    team_tools: Vec<StoredTool>,
}

/// The secret of the first stored tool covering `provider`.
pub open spec fn first_secret(tools: Seq<(TeamTool, Seq<char>)>, provider: Seq<char>) -> Option<Seq<char>>
    decreases tools.len(),
{
    if tools.len() == 0 {
        None
    } else if tools[0].0.provider@ == provider {
        Some(tools[0].1)
    } else {
        first_secret(tools.drop_first(), provider)
    }
}

impl CatalogService {
    /// The endpoints of the catalog.
    pub closed spec fn endpoints(&self) -> Seq<Endpoint> {
        self.catalog@
    }

    /// The ledger.
    pub closed spec fn ledger_state(&self) -> MemoryLedger {
        self.ledger
    }

    /// The call counter (also numbers team tools).
    pub closed spec fn counter(&self) -> u64 {
        self.calls
    }

    /// The registered team tools with their secrets, in registration order.
    pub closed spec fn tools(&self) -> Seq<(TeamTool, Seq<char>)> {
        self.team_tools@.map_values(|t: StoredTool| (t.meta, t.secret@))
    }

    /// The secret a call to `provider` picks up when it brings no team secret.
    pub open spec fn team_secret(&self, provider: Seq<char>) -> Option<Seq<char>> {
        first_secret(self.tools(), provider)
    }

    /// A service over `catalog` with an empty ledger, no team tools, the counter at 1.
    pub fn from_catalog(catalog: Catalog) -> (r: Self)
        ensures
            r.endpoints() == catalog@,
            r.counter() == 1,
            r.tools().len() == 0,
            forall|s: Seq<char>| r.ledger_state().balance_of(s) == 0,
            forall|c: Seq<char>| r.ledger_state().hold_of(c) is None,
            forall|s: Seq<char>| !r.ledger_state().is_granted(s),
    {
        let r = CatalogService { catalog, ledger: MemoryLedger::new(), calls: 1, team_tools: Vec::new() };
        assert(r.tools() =~= Seq::<(TeamTool, Seq<char>)>::empty());
        r
    }

    /// Searchable catalog.
    pub fn catalog(&self) -> (r: &Catalog)
        ensures
            r@ == self.endpoints(),
    {
        &self.catalog
    }

    /// Ledger.
    pub fn ledger(&self) -> (r: &MemoryLedger)
        ensures
            *r == self.ledger_state(),
    {
        &self.ledger
    }

    /// Balance including the one-time signup grant.
    pub fn balance(&mut self, subject: &str) -> (r: Result<i64, CatalogError>)
        requires
            !old(self).ledger_state().is_granted(subject@) ==> old(self).ledger_state().balance_of(
                subject@,
            ) + SIGNUP_GRANT_MICRO <= i64::MAX,
        ensures
            signed_up(old(self).ledger_state(), final(self).ledger_state(), subject@),
            r == Ok::<i64, CatalogError>(final(self).ledger_state().balance_of(subject@)),
            final(self).endpoints() == old(self).endpoints(),
            final(self).counter() == old(self).counter(),
            final(self).tools() == old(self).tools(),
    {
        self.ledger.ensure_signup_grant(subject)
    }

    /// Mock top-up: the signup grant first, then the credit.
    pub fn topup(&mut self, subject: &str, micro: i64) -> (r: Result<i64, CatalogError>)
        requires
            !old(self).ledger_state().is_granted(subject@) ==> old(self).ledger_state().balance_of(
                subject@,
            ) + SIGNUP_GRANT_MICRO <= i64::MAX,
        ensures
            exists|mid: MemoryLedger| {
                &&& signed_up(old(self).ledger_state(), mid, subject@)
                &&& (micro <= 0 ==> r == Err::<i64, CatalogError>(
                    CatalogError::Invalid("grant must be positive"),
                ) && final(self).ledger_state().balance_of(subject@) == mid.balance_of(subject@))
                &&& (micro > 0 ==> final(self).ledger_state().balance_of(subject@)
                    == super::money::spec_saturating_add(mid.balance_of(subject@), micro) && r
                    == Ok::<i64, CatalogError>(final(self).ledger_state().balance_of(subject@)))
                &&& forall|t: Seq<char>| t != subject@ ==> #[trigger] final(self).ledger_state().balance_of(t)
                    == mid.balance_of(t)
                &&& forall|c: Seq<char>| #[trigger] final(self).ledger_state().hold_of(c) == mid.hold_of(c)
                &&& forall|t: Seq<char>| #[trigger] final(self).ledger_state().is_granted(t) == mid.is_granted(t)
            },
            final(self).endpoints() == old(self).endpoints(),
            final(self).counter() == old(self).counter(),
            final(self).tools() == old(self).tools(),
    {
        let _ = self.ledger.ensure_signup_grant(subject);
        let ghost mid = self.ledger;
        let r = self.ledger.grant(subject, micro);
        assert(signed_up(old(self).ledger_state(), mid, subject@));
        r
    }

    /// Register a team tool under the next number (`tt_<n>`), replacing any tool with that
    /// id; the secret is write-only.
    pub fn register_team_tool(&mut self, name: String, provider: String, base_url: String, secret: String) -> (r: TeamTool)
        ensures
            r.id@ == tool_id_of(old(self).counter()),
            r.name@ == name@,
            r.provider@ == provider@,
            r.base_url@ == base_url@,
            final(self).counter() == next_count(old(self).counter()),
            final(self).endpoints() == old(self).endpoints(),
            final(self).ledger_state() == old(self).ledger_state(),
            final(self).tools().len() >= 1,
            tool_view(final(self).tools().last().0) == tool_view(r),
            final(self).tools().last().1 == secret@,
            final(self).tools().drop_last() == old(self).tools().filter(
                |t: (TeamTool, Seq<char>)| t.0.id@ != r.id@,
            ),
    {
        let n = self.calls;
        self.calls = if n == u64::MAX {
            0
        } else {
            n + 1
        };
        let mut id = copy_str("tt_");
        let num = decimal(n);
        push_str(&mut id, num.as_str());
        let meta = TeamTool { id: copy_str(id.as_str()), name, provider, base_url };
        let out = TeamTool {
            id,
            name: copy_str(meta.name.as_str()),
            provider: copy_str(meta.provider.as_str()),
            base_url: copy_str(meta.base_url.as_str()),
        };
        let ghost before = self.tools();
        let ghost keep = |t: (TeamTool, Seq<char>)| t.0.id@ != out.id@;
        let mut kept: Vec<StoredTool> = Vec::new();
        let mut old_tools: Vec<StoredTool> = Vec::new();
        std::mem::swap(&mut old_tools, &mut self.team_tools);
        let ghost olds = old_tools@;
        let ghost f = |t: StoredTool| (t.meta, t.secret@);
        assert(before =~= olds.map_values(f));
        let mut k: usize = 0;
        let total = old_tools.len();
        assert(before.take(0) =~= Seq::<(TeamTool, Seq<char>)>::empty());
        while old_tools.len() > 0
            invariant
                total == olds.len(),
                before == olds.map_values(f),
                keep == (|t: (TeamTool, Seq<char>)| t.0.id@ != out.id@),
                f == (|t: StoredTool| (t.meta, t.secret@)),
                k + old_tools@.len() == total,
                old_tools@ == olds.skip(k as int),
                kept@.map_values(f) == before.take(k as int).filter(keep),
            decreases old_tools@.len(),
        {
            let t = old_tools.remove(0);
            proof {
                assert(olds.skip(k as int)[0] == t);
                assert(olds.skip(k as int).drop_first() =~= olds.skip(k + 1));
                assert(before.take(k + 1).drop_last() =~= before.take(k as int));
                assert(before.take(k + 1).last() == f(t));
                assert(keep(f(t)) == (t.meta.id@ != out.id@));
                reveal(Seq::filter);
                assert(before.take(k + 1).len() == k + 1);
                assert(before.take(k + 1).filter(keep) == {
                    let sub = before.take(k + 1).drop_last().filter(keep);
                    if keep(before.take(k + 1).last()) {
                        sub.push(before.take(k + 1).last())
                    } else {
                        sub
                    }
                });
                assert(before.take(k + 1).filter(keep) == if keep(f(t)) {
                    before.take(k as int).filter(keep).push(f(t))
                } else {
                    before.take(k as int).filter(keep)
                });
            }
            if !str_eq(t.meta.id.as_str(), out.id.as_str()) {
                let ghost kb = kept@;
                kept.push(t);
                assert(kept@.map_values(f) =~= kb.map_values(f).push(f(t)));
            }
            k += 1;
        }
        assert(before.take(total as int) =~= before);
        let ghost kept_view = kept@.map_values(f);
        kept.push(StoredTool { meta, secret });
        self.team_tools = kept;
        assert(self.tools().drop_last() =~= kept_view);
        out
    }

    /// Metadata of the registered team tools, in registration order (secrets left out).
    pub fn list_team_tools(&self) -> (r: Vec<TeamTool>)
        ensures
            r@.len() == self.tools().len(),
            forall|i: int| 0 <= i < r@.len() ==> tool_view(#[trigger] r@[i]) == tool_view(self.tools()[i].0),
    {
        let mut out: Vec<TeamTool> = Vec::new();
        let mut k: usize = 0;
        while k < self.team_tools.len()
            invariant
                k <= self.team_tools@.len(),
                out@.len() == k,
                forall|i: int| 0 <= i < k ==> tool_view(#[trigger] out@[i]) == tool_view(self.tools()[i].0),
            decreases self.team_tools.len() - k,
        {
            let m = &self.team_tools[k].meta;
            out.push(
                TeamTool {
                    id: copy_str(m.id.as_str()),
                    name: copy_str(m.name.as_str()),
                    provider: copy_str(m.provider.as_str()),
                    base_url: copy_str(m.base_url.as_str()),
                },
            );
            k += 1;
        }
        out
    }

    /// The secret of the first team tool covering `provider`.
    pub fn team_secret_for(&self, provider: &str) -> (r: Option<String>)
        ensures
            opt_text(r) == self.team_secret(provider@),
    {
        let ghost ts = self.tools();
        let mut k: usize = 0;
        assert(ts.skip(0) =~= ts);
        while k < self.team_tools.len()
            invariant
                k <= self.team_tools@.len(),
                ts == self.tools(),
                first_secret(ts, provider@) == first_secret(ts.skip(k as int), provider@),
            decreases self.team_tools.len() - k,
        {
            proof {
                assert(ts.skip(k as int).drop_first() =~= ts.skip(k + 1));
                assert(ts.skip(k as int)[0] == (self.team_tools@[k as int].meta, self.team_tools@[k as int].secret@));
            }
            if str_eq(self.team_tools[k].meta.provider.as_str(), provider) {
                return Some(copy_str(self.team_tools[k].secret.as_str()));
            }
            k += 1;
        }
        None
    }
}


impl CatalogService {
    /// The plan of a call: `call_plan` with the team secret of the serving endpoint's
    /// provider.
    pub open spec fn plan(&self, input: CallInput) -> Result<(int, ServedVia, Option<Seq<char>>, int), Refusal> {
        let eps = self.endpoints();
        let team = match route_of(eps, input.id@, eps.len() + 1) {
            Some(Ok(i)) => self.team_secret(eps[i].provider@),
            _ => None,
        };
        call_plan(eps, team, input)
    }

    /// Start a call: follow routed capabilities to the serving endpoint, run its strict
    /// query check and the credential ladder, number the call, and on a metered rung with a
    /// positive price give the subject its signup grant and reserve the price. Refusals
    /// change nothing; once numbered, the counter has moved even if the reservation fails.
    pub fn begin_call(&mut self, input: CallInput) -> (r: Result<PendingCall, CatalogError>)
        requires
            route_ends(old(self).endpoints(), input.id@),
            old(self).plan(input) matches Ok((_, _, _, meter)) && meter > 0 && !old(self).ledger_state().is_granted(input.subject@)
                ==> old(self).ledger_state().balance_of(input.subject@) + SIGNUP_GRANT_MICRO <= i64::MAX,
        ensures
            final(self).endpoints() == old(self).endpoints(),
            final(self).tools() == old(self).tools(),
            match old(self).plan(input) {
                Err(f) => {
                    &&& r matches Err(e) && refused_with(e, f)
                    &&& final(self).counter() == old(self).counter()
                    &&& final(self).ledger_state() == old(self).ledger_state()
                },
                Ok((i, via, secret, meter)) => {
                    let eps = old(self).endpoints();
                    let cid = call_id_of(old(self).counter());
                    let s = input.subject@;
                    let accepted = r matches Ok(p) && {
                        &&& p.input.id@ == eps[i].id@
                        &&& p.input.query == input.query
                        &&& p.input.body == input.body
                        &&& p.input.subject == input.subject
                        &&& p.input.connection_secret == input.connection_secret
                        &&& opt_text(p.input.team_tool_secret) == match input.team_tool_secret {
                            Some(t) => Some(t@),
                            None => old(self).team_secret(eps[i].provider@),
                        }
                        &&& p.via == via
                        &&& opt_text(p.secret) == secret
                        &&& p.call_id@ == cid
                        &&& p.meter == meter
                        &&& opt_text(p.routed) == first_hop(eps, input.id@)
                    };
                    &&& final(self).counter() == next_count(old(self).counter())
                    &&& meter <= 0 ==> final(self).ledger_state() == old(self).ledger_state() && accepted
                    &&& meter > 0 ==> exists|mid: MemoryLedger| {
                        &&& signed_up(old(self).ledger_state(), mid, s)
                        &&& reserved(mid, final(self).ledger_state(), s, cid, meter as i64)
                        &&& match spec_reserve_result(mid.balance_of(s), mid.hold_of(cid), meter as i64) {
                            Ok(()) => accepted,
                            Err(e) => r == Err::<PendingCall, CatalogError>(e),
                        }
                    }
                },
            },
    {
        let ghost eps = self.catalog@;
        let ghost fuel: nat = eps.len() + 1;
        let ghost start = input.id@;
        let mut cur = copy_str(input.id.as_str());
        let mut hops: usize = 0;
        let mut leaf: usize = 0;
        let mut missing = false;
        loop
            invariant_except_break
                !missing,
                hops < fuel,
                route_of(eps, start, fuel) == route_of(eps, cur@, (fuel - hops) as nat),
                route_of(eps, cur@, (fuel - hops) as nat) is Some,
            invariant
                eps == self.catalog@,
                fuel == eps.len() + 1,
            ensures
                !missing ==> route_of(eps, start, fuel) == Some(Ok::<int, Seq<char>>(leaf as int)) && leaf
                    < eps.len(),
                missing ==> route_of(eps, start, fuel) == Some(Err::<int, Seq<char>>(cur@)),
            decreases fuel - hops,
        {
            match find_index(&self.catalog.endpoints, cur.as_str()) {
                None => {
                    missing = true;
                    break;
                },
                Some(i) => {
                    proof {
                        lemma_find_endpoint(eps, cur@);
                    }
                    match &self.catalog.endpoints[i].routed_child {
                        None => {
                            leaf = i;
                            break;
                        },
                        Some(c) => {
                            proof {
                                assert(route_of(eps, cur@, (fuel - hops) as nat) == route_of(
                                    eps,
                                    c@,
                                    (fuel - hops - 1) as nat,
                                ));
                                assert(fuel - hops - 1 >= 1);
                                assert(eps.len() == self.catalog.endpoints.len());
                            }
                            cur = copy_str(c.as_str());
                            hops += 1;
                        },
                    }
                },
            }
        }
        if missing {
            return Err(CatalogError::NotFound(cur));
        }
        let routed = match find_index(&self.catalog.endpoints, input.id.as_str()) {
            Some(i) => {
                proof {
                    lemma_find_endpoint(eps, input.id@);
                }
                copy_opt(&self.catalog.endpoints[i].routed_child)
            },
            None => None,
        };
        enforce_strict_query(&self.catalog.endpoints[leaf], &input)?;
        let mut input = input;
        input.id = copy_str(self.catalog.endpoints[leaf].id.as_str());
        if input.team_tool_secret.is_none() {
            input.team_tool_secret = self.team_secret_for(self.catalog.endpoints[leaf].provider.as_str());
        }
        let (via, secret) = ladder(&self.catalog.endpoints[leaf], &input)?;
        let n = self.calls;
        self.calls = if n == u64::MAX {
            0
        } else {
            n + 1
        };
        let mut call_id = copy_str("call_");
        let num = decimal(n);
        push_str(&mut call_id, num.as_str());
        let meter: i64 = if via.metered() {
            match self.catalog.endpoints[leaf].cost_micro {
                Some(c) => c,
                None => 0,
            }
        } else {
            0
        };
        if meter > 0 {
            let _ = self.ledger.ensure_signup_grant(input.subject.as_str());
            let ghost mid = self.ledger;
            let res = self.ledger.reserve(input.subject.as_str(), call_id.as_str(), meter);
            if let Err(e) = res {
                assert(signed_up(old(self).ledger_state(), mid, input.subject@));
                return Err(e);
            }
            assert(signed_up(old(self).ledger_state(), mid, input.subject@));
        }
        Ok(PendingCall { input, via, secret, call_id, meter, routed })
    }

    /// Finish a call with what the upstream request (or the mock) gave: on success the
    /// reservation is settled for the full price and the outcome reports the rung (`Routed`
    /// when a routed capability named the child) and the cost; on failure the reservation
    /// is released and the error returned.
    pub fn finish_call(&mut self, pending: PendingCall, result: Result<(u16, JsonValue), CatalogError>) -> (r: Result<CallOutcome, CatalogError>)
        requires
            pending.meter > 0 ==> (old(self).ledger_state().hold_of(pending.call_id@) matches Some((s, held))
                ==> old(self).ledger_state().balance_of(s) + spec_refund(
                held,
                if result is Ok {
                    pending.meter
                } else {
                    0
                },
            ) <= i64::MAX),
        ensures
            final(self).endpoints() == old(self).endpoints(),
            final(self).tools() == old(self).tools(),
            final(self).counter() == old(self).counter(),
            pending.meter > 0 ==> settled(
                old(self).ledger_state(),
                final(self).ledger_state(),
                pending.call_id@,
                if result is Ok {
                    pending.meter
                } else {
                    0
                },
            ),
            pending.meter <= 0 ==> final(self).ledger_state() == old(self).ledger_state(),
            match result {
                Ok((status, body)) => r matches Ok(o) && {
                    &&& o.status == status
                    &&& o.body == body
                    &&& o.cost_micro == pending.meter
                    &&& o.served_via == if pending.routed is Some {
                        ServedVia::Routed
                    } else {
                        pending.via
                    }
                    &&& opt_text(o.child) == opt_text(pending.routed)
                },
                Err(e) => r == Err::<CallOutcome, CatalogError>(e),
            },
    {
        match result {
            Ok((status, body)) => {
                if pending.meter > 0 {
                    let _ = self.ledger.settle(pending.call_id.as_str(), pending.meter);
                }
                let served_via = if pending.routed.is_some() {
                    ServedVia::Routed
                } else {
                    pending.via
                };
                Ok(CallOutcome { status, served_via, cost_micro: pending.meter, child: pending.routed, body })
            },
            Err(e) => {
                if pending.meter > 0 {
                    let _ = self.ledger.release(pending.call_id.as_str());
                }
                Err(e)
            },
        }
    }
}

/// Your key always wins and is never metered: a call that brings a usable team-tool or
/// connection secret is served by that rung and meters nothing.
pub proof fn law_own_key_never_metered(eps: Seq<Endpoint>, team: Option<Seq<char>>, input: CallInput)
    requires
        usable(input.team_tool_secret) || usable(input.connection_secret),
    ensures
        call_plan(eps, team, input) matches Ok((_, via, _, meter)) ==> meter == 0 && (via is TeamTool
            || via is Connection),
{
}

/// A call on a rung that is not metered plans no charge, and a metered rung plans exactly
/// the published price.
pub proof fn law_meter_is_published_price(eps: Seq<Endpoint>, team: Option<Seq<char>>, input: CallInput)
    ensures
        call_plan(eps, team, input) matches Ok((i, via, _, meter)) ==> meter == if via.spec_metered() {
            match eps[i].cost_micro {
                Some(c) => c as int,
                None => 0,
            }
        } else {
            0
        },
{
}

} // verus!
