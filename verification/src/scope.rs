//! Strict RFC 6750 / Google `ErrorInfo` `insufficient_scope` detection.
//!
//! A false positive strips re-authenticate recovery from a 403 that re-auth
//! would fix, so matching is structural: quoted WWW-Authenticate params, exact
//! JSON field values, never prose.

use vstd::prelude::*;
use vstd::utf8::encode_utf8;
use crate::json::{json_parse, member_is_text, member_text_is, parse_json, JsonValue};
use crate::text::{
    copy_str, joined, push_str, spec_lower, spec_words, split_whitespace, str_eq, to_ascii_lower,
    to_chars,
};
use crate::www_authenticate::{lookup, parse_challenges, spec_parse, AuthChallenge, ChallengeView};

verus! {

/// Tool error code for a grant that does not cover the operation.
pub const OAUTH_SCOPE_INSUFFICIENT: &'static str = "oauth_scope_insufficient";

/// How deep into a JSON body the detector looks.
pub const MAX_DEPTH: u32 = 8;

/// Scopes the upstream named as required, when it named any.
#[derive(Clone, Debug, PartialEq, Eq)]
pub struct InsufficientScope {
    /// RFC 6750 `scope` attribute, split on whitespace. Empty when unnamed.
    pub required_scopes: Vec<String>,
}

impl View for InsufficientScope {
    type V = Seq<Seq<char>>;

    open spec fn view(&self) -> Seq<Seq<char>> {
        self.required_scopes@.map_values(|s: String| s@)
    }
}

/// A tool failure as reported to the caller.
#[derive(Debug, PartialEq, Eq)]
pub struct ToolError {
    /// Stable code (`http_error`, `oauth_scope_insufficient`, …).
    pub code: String,
    /// Human message.
    pub message: String,
    /// Upstream HTTP status when relevant.
    pub status: Option<u16>,
    /// Extra details.
    pub details: Option<JsonValue>,
    /// Hint that a retry may help.
    pub retryable: Option<bool>,
}

// ---------------------------------------------------------------- specification

/// The first challenge from index `k` on that is a Bearer `insufficient_scope` one: its
/// `scope` words (none when it names no scope).
pub open spec fn bearer_hit_from(cs: Seq<ChallengeView>, k: int) -> Option<Seq<Seq<char>>>
    decreases cs.len() - k,
{
    if k < 0 || k >= cs.len() {
        None
    } else if cs[k].0 == "bearer"@ && lookup(cs[k].1, "error"@) == Some("insufficient_scope"@) {
        Some(
            match lookup(cs[k].1, "scope"@) {
                Some(s) => spec_words(s),
                None => Seq::empty(),
            },
        )
    } else {
        bearer_hit_from(cs, k + 1)
    }
}

/// What a `WWW-Authenticate` value says: the required scopes of its first Bearer
/// `insufficient_scope` challenge; nothing when it names none or is malformed.
pub open spec fn challenge_scopes(header: Seq<char>) -> Option<Seq<Seq<char>>> {
    match spec_parse(encode_utf8(header)) {
        None => None,
        Some(cs) => bearer_hit_from(cs, 0),
    }
}

/// Whether a JSON body, up to `MAX_DEPTH` levels down, carries `"error":
/// "insufficient_scope"` or `"reason": "ACCESS_TOKEN_SCOPE_INSUFFICIENT"` in an object.
pub open spec fn structured_hit(v: JsonValue, depth: int) -> bool
    decreases v, 0int,
{
    if depth > MAX_DEPTH {
        false
    } else {
        match v {
            JsonValue::Array(items) => items_hit(items, 0, depth + 1),
            JsonValue::Object(m) => member_is_text(m@, "error"@, "insufficient_scope"@)
                || member_is_text(m@, "reason"@, "ACCESS_TOKEN_SCOPE_INSUFFICIENT"@)
                || members_hit(m, 0, depth + 1),
            _ => false,
        }
    }
}

/// Whether some item from index `k` on is a hit.
pub open spec fn items_hit(items: Vec<JsonValue>, k: int, depth: int) -> bool
    decreases items, items.len() - k,
{
    if k < 0 || k >= items.len() {
        false
    } else {
        proof {
            vstd::std_specs::vec::axiom_vec_index_decreases(items, k);
        }
        structured_hit(items[k], depth) || items_hit(items, k + 1, depth)
    }
}

/// Whether some object or array member value from index `k` on is a hit.
pub open spec fn members_hit(m: Vec<(String, JsonValue)>, k: int, depth: int) -> bool
    decreases m, m.len() - k,
{
    if k < 0 || k >= m.len() {
        false
    } else {
        proof {
            vstd::std_specs::vec::axiom_vec_index_decreases(m, k);
        }
        let v = m[k].1;
        ((v is Object || v is Array) && structured_hit(v, depth)) || members_hit(m, k + 1, depth)
    }
}

/// Whether a body reports an insufficient scope: a JSON string is parsed first, and only a
/// parse that succeeds counts.
pub open spec fn body_hit(body: JsonValue) -> bool {
    match body {
        JsonValue::Text(t) => match json_parse(t@) {
            Ok(parsed) => structured_hit(parsed, 0),
            Err(_) => false,
        },
        other => structured_hit(other, 0),
    }
}

/// Whether a header is `WWW-Authenticate` (any ASCII case).
pub open spec fn is_www_authenticate(name: Seq<char>) -> bool {
    spec_lower(name) == "www-authenticate"@
}

/// The first `WWW-Authenticate` header from index `k` on that names an insufficient scope.
pub open spec fn headers_hit_from(hs: Seq<(String, String)>, k: int) -> Option<Seq<Seq<char>>>
    decreases hs.len() - k,
{
    if k < 0 || k >= hs.len() {
        None
    } else if is_www_authenticate(hs[k].0@) && challenge_scopes(hs[k].1@) is Some {
        challenge_scopes(hs[k].1@)
    } else {
        headers_hit_from(hs, k + 1)
    }
}

/// What `detect_insufficient_scope` reports: a header first, then the body (with no scopes).
pub open spec fn spec_detect(body: Option<JsonValue>, hs: Seq<(String, String)>) -> Option<
    Seq<Seq<char>>,
> {
    match headers_hit_from(hs, 0) {
        Some(s) => Some(s),
        None => match body {
            Some(b) => if body_hit(b) {
                Some(Seq::empty())
            } else {
                None
            },
            None => None,
        },
    }
}

/// The message of an insufficient-scope tool error.
pub open spec fn scope_message(scopes: Seq<Seq<char>>) -> Seq<char> {
    if scopes.len() == 0 {
        "The access token does not cover the required scope"@
    } else {
        "The access token does not cover the required scope: "@ + joined(scopes)
    }
}

/// Whether `v` is the string `t`.
pub open spec fn text_is(v: JsonValue, t: Seq<char>) -> bool {
    match v {
        JsonValue::Text(x) => x@ == t,
        _ => false,
    }
}

/// Whether `v` is an array of the strings `s`.
pub open spec fn is_text_list(v: JsonValue, s: Seq<Seq<char>>) -> bool {
    match v {
        JsonValue::Array(items) => items@.len() == s.len() && forall|i: int|
            0 <= i < s.len() ==> text_is(#[trigger] items@[i], s[i]),
        _ => false,
    }
}

/// The details of an insufficient-scope error: `{"requiredScopes": [...], "upstream": body}`.
pub open spec fn scope_details(d: Option<JsonValue>, s: Seq<Seq<char>>, body: JsonValue) -> bool {
    match d {
        Some(JsonValue::Object(m)) => {
            &&& m@.len() == 2
            &&& m@[0].0@ == "requiredScopes"@
            &&& is_text_list(m@[0].1, s)
            &&& m@[1].0@ == "upstream"@
            &&& m@[1].1 == body
        },
        _ => false,
    }
}

// ---------------------------------------------------------------- implementation

impl InsufficientScope {
    /// Domain tool failure. Retry will not help; re-running the same OAuth grant will not
    /// either.
    pub fn into_tool_error(self, status: u16, details: JsonValue) -> (r: ToolError)
        ensures
            r.code@ == OAUTH_SCOPE_INSUFFICIENT@,
            r.message@ == scope_message(self@),
            r.status == Some(status),
            r.details == Some(details),
            r.retryable == Some(false),
    {
        let mut message = copy_str("The access token does not cover the required scope");
        if self.required_scopes.len() > 0 {
            push_str(&mut message, ": ");
            let mut k: usize = 0;
            proof {
                reveal_strlit(": ");
                reveal_strlit("The access token does not cover the required scope");
                reveal_strlit("The access token does not cover the required scope: ");
                assert("The access token does not cover the required scope: "@ =~= "The access token does not cover the required scope"@ + ": "@);
            }
            while k < self.required_scopes.len()
                invariant
                    k <= self@.len(),
                    self@.len() > 0,
                    message@ == "The access token does not cover the required scope: "@ + joined(
                        self@.take(k as int),
                    ),
                decreases self.required_scopes.len() - k,
            {
                if k > 0 {
                    push_str(&mut message, " ");
                }
                push_str(&mut message, self.required_scopes[k].as_str());
                proof {
                    let ws = self@.take(k + 1);
                    assert(ws.drop_last() =~= self@.take(k as int));
                    assert(ws.last() == self@[k as int]);
                    if k == 0 {
                        assert(joined(self@.take(0)) =~= Seq::<char>::empty());
                    }
                }
                k += 1;
            }
            assert(self@.take(self@.len() as int) =~= self@);
        }
        ToolError {
            code: copy_str(OAUTH_SCOPE_INSUFFICIENT),
            message,
            status: Some(status),
            details: Some(details),
            retryable: Some(false),
        }
    }
}

/// Inspect an upstream 401/403 body and headers. `None` means fall through.
pub fn detect_insufficient_scope(body: Option<&JsonValue>, headers: &[(String, String)]) -> (r:
    Option<InsufficientScope>)
    ensures
        match spec_detect(
            match body {
                Some(b) => Some(*b),
                None => None,
            },
            headers@,
        ) {
            Some(s) => r matches Some(d) && d@ == s,
            None => r is None,
        },
{
    let mut k: usize = 0;
    while k < headers.len()
        invariant
            k <= headers@.len(),
            headers_hit_from(headers@, 0) == headers_hit_from(headers@, k as int),
        decreases headers.len() - k,
    {
        proof {
            reveal_strlit("www-authenticate");
            assert(spec_lower("www-authenticate"@) =~= "www-authenticate"@);
        }
        if eq_ignore_ascii_case(headers[k].0.as_str(), "www-authenticate") {
            match detect_from_challenge(headers[k].1.as_str()) {
                Some(found) => {
                    return Some(found);
                },
                None => {},
            }
        }
        k += 1;
    }
    match body {
        Some(b) => {
            if detect_from_body(b) {
                let none: Vec<String> = Vec::new();
                let r = InsufficientScope { required_scopes: none };
                assert(r@ =~= Seq::<Seq<char>>::empty());
                Some(r)
            } else {
                None
            }
        },
        None => None,
    }
}

/// Classify an HTTP error: `oauth_scope_insufficient` or `http_error`.
pub fn tool_error_from_http(status: u16, headers: &[(String, String)], body: JsonValue) -> (r:
    ToolError)
    ensures
        match spec_detect(Some(body), headers@) {
            Some(s) => {
                &&& r.code@ == OAUTH_SCOPE_INSUFFICIENT@
                &&& r.message@ == scope_message(s)
                &&& r.status == Some(status)
                &&& r.retryable == Some(false)
                &&& scope_details(r.details, s, body)
            },
            None => {
                &&& r.code@ == "http_error"@
                &&& r.message@ == "HTTP "@ + crate::text::spec_decimal(status as nat)
                &&& r.status == Some(status)
                &&& r.details == Some(body)
                &&& r.retryable == Some(500 <= status && status < 600)
            },
        },
{
    match detect_insufficient_scope(Some(&body), headers) {
        Some(detected) => {
            let mut items: Vec<JsonValue> = Vec::new();
            let mut k: usize = 0;
            while k < detected.required_scopes.len()
                invariant
                    k <= detected@.len(),
                    items@.len() == k,
                    forall|i: int| 0 <= i < k ==> text_is(#[trigger] items@[i], detected@[i]),
                decreases detected.required_scopes.len() - k,
            {
                items.push(JsonValue::Text(copy_str(detected.required_scopes[k].as_str())));
                k += 1;
            }
            let mut members: Vec<(String, JsonValue)> = Vec::new();
            members.push((copy_str("requiredScopes"), JsonValue::Array(items)));
            members.push((copy_str("upstream"), body));
            detected.into_tool_error(status, JsonValue::Object(members))
        },
        None => {
            let mut message = copy_str("HTTP ");
            let digits = crate::text::decimal(status as u64);
            push_str(&mut message, digits.as_str());
            ToolError {
                code: copy_str("http_error"),
                message,
                status: Some(status),
                details: Some(body),
                retryable: Some(500 <= status && status < 600),
            }
        },
    }
}

/// `str::eq_ignore_ascii_case`.
pub fn eq_ignore_ascii_case(a: &str, b: &str) -> (r: bool)
    ensures
        r == (spec_lower(a@) == spec_lower(b@)),
{
    let va = to_chars(a);
    let vb = to_chars(b);
    if va.len() != vb.len() {
        assert(spec_lower(a@).len() != spec_lower(b@).len());
        return false;
    }
    let mut k: usize = 0;
    while k < va.len()
        invariant
            va@ == a@,
            vb@ == b@,
            va@.len() == vb@.len(),
            k <= va@.len(),
            forall|m: int| 0 <= m < k ==> spec_lower(a@)[m] == spec_lower(b@)[m],
        decreases va.len() - k,
    {
        if to_ascii_lower(va[k]) != to_ascii_lower(vb[k]) {
            assert(spec_lower(a@)[k as int] != spec_lower(b@)[k as int]);
            return false;
        }
        k += 1;
    }
    assert(spec_lower(a@) =~= spec_lower(b@));
    true
}

/// The required scopes of the first Bearer `insufficient_scope` challenge in a
/// `WWW-Authenticate` value.
pub fn detect_from_challenge(header: &str) -> (r: Option<InsufficientScope>)
    ensures
        match challenge_scopes(header@) {
            Some(s) => r matches Some(d) && d@ == s,
            None => r is None,
        },
{
    let challenges = match parse_challenges(header) {
        Some(cs) => cs,
        None => return None,
    };
    let ghost cv = crate::www_authenticate::views(challenges@);
    let mut k: usize = 0;
    while k < challenges.len()
        invariant
            k <= challenges@.len(),
            cv == crate::www_authenticate::views(challenges@),
            bearer_hit_from(cv, 0) == bearer_hit_from(cv, k as int),
            challenge_scopes(header@) == bearer_hit_from(cv, 0),
        decreases challenges.len() - k,
    {
        let c: &AuthChallenge = &challenges[k];
        assert(cv[k as int] == c@);
        if str_eq(c.scheme.as_str(), "bearer") {
            let error = c.param("error");
            let is_hit = match &error {
                Some(e) => str_eq(e.as_str(), "insufficient_scope"),
                None => false,
            };
            if is_hit {
                assert(cv[k as int].0 == "bearer"@);
                assert(lookup(cv[k as int].1, "error"@) == Some("insufficient_scope"@));
                let required_scopes = match c.param("scope") {
                    Some(s) => split_whitespace(s.as_str()),
                    None => {
                        let none: Vec<String> = Vec::new();
                        assert(none@.map_values(|x: String| x@) =~= Seq::<Seq<char>>::empty());
                        none
                    },
                };
                let found = InsufficientScope { required_scopes };
                assert(found@ == match lookup(cv[k as int].1, "scope"@) {
                    Some(x) => spec_words(x),
                    None => Seq::empty(),
                });
                assert(bearer_hit_from(cv, k as int) == Some(found@));
                return Some(found);
            }
        }
        k += 1;
    }
    None
}

/// Whether a body reports an insufficient scope.
pub fn detect_from_body(body: &JsonValue) -> (r: bool)
    ensures
        r == body_hit(*body),
{
    match body {
        JsonValue::Text(t) => match parse_json(t.as_str()) {
            Ok(parsed) => detect_from_structured(&parsed, 0),
            Err(_) => false,
        },
        other => detect_from_structured(other, 0),
    }
}

/// Whether a JSON value, from nesting level `depth` on, carries an insufficient-scope
/// marker.
pub fn detect_from_structured(body: &JsonValue, depth: u32) -> (r: bool)
    ensures
        r == structured_hit(*body, depth as int),
    decreases *body,
{
    if depth > MAX_DEPTH {
        return false;
    }
    match body {
        JsonValue::Array(items) => {
            let mut k: usize = 0;
            while k < items.len()
                invariant
                    k <= items@.len(),
                    depth <= MAX_DEPTH,
                    *body == JsonValue::Array(*items),
                    structured_hit(*body, depth as int) == items_hit(*items, k as int, depth + 1),
                decreases items.len() - k,
            {
                proof {
                    vstd::std_specs::vec::axiom_vec_index_decreases(*items, k as int);
                    assert(decreases_to!(*body => (*body)->Array_0));
                }
                if detect_from_structured(&items[k], depth + 1) {
                    return true;
                }
                k += 1;
            }
            false
        },
        JsonValue::Object(m) => {
            if member_text_is(m, "error", "insufficient_scope") {
                return true;
            }
            if member_text_is(m, "reason", "ACCESS_TOKEN_SCOPE_INSUFFICIENT") {
                return true;
            }
            let mut k: usize = 0;
            while k < m.len()
                invariant
                    k <= m@.len(),
                    depth <= MAX_DEPTH,
                    *body == JsonValue::Object(*m),
                    structured_hit(*body, depth as int) == members_hit(*m, k as int, depth + 1),
                decreases m.len() - k,
            {
                let v = &m[k].1;
                let nested = match v {
                    JsonValue::Object(_) => true,
                    JsonValue::Array(_) => true,
                    _ => false,
                };
                if nested {
                    proof {
                        vstd::std_specs::vec::axiom_vec_index_decreases(*m, k as int);
                        assert(decreases_to!(*body => (*body)->Object_0));
                        assert(decreases_to!(m[k as int] => m[k as int].1));
                    }
                    if detect_from_structured(v, depth + 1) {
                        return true;
                    }
                }
                k += 1;
            }
            false
        },
        _ => false,
    }
}

} // verus!
