//! Device login (RFC 8628) as the command line runs it: reading the discovery document,
//! the bodies it posts, what each poll answer means, and the credential it keeps.

use vstd::prelude::*;
use crate::json::{JsonValue, json_member, write_json, json_text, numbers_ok};
use crate::search::{json_as_str, json_as_u64, as_u64};
use crate::catalog::call::{json_get, text_is};
use crate::cli::request::{text_members, pair_texts};
use crate::profiles::Auth;
use crate::text::{copy_str, push_str, str_eq, to_chars, find_seq, find_str_from};

verus! {

/// The server's CLI-login discovery document.
pub struct Discovery {
    /// Device authorization URL.
    pub device_authorization_endpoint: String,
    /// Token URL.
    pub token_endpoint: String,
    /// Public client id.
    pub client_id: String,
    /// `form` or `json`.
    pub request_format: String,
    /// Optional scope.
    pub scope: Option<String>,
}

/// The member `key` of `v`.
pub fn get<'a>(v: &'a JsonValue, key: &str) -> (r: Option<&'a JsonValue>)
    ensures
        match r {
            Some(x) => json_get(*v, key@) == Some(*x),
            None => json_get(*v, key@) is None,
        },
{
    match v {
        JsonValue::Object(m) => json_member(m, key),
        _ => None,
    }
}

/// `Value::as_str` on an optional member.
fn as_str<'a>(v: Option<&'a JsonValue>) -> (r: Option<&'a String>)
    ensures
        match r {
            Some(s) => json_as_str(
                match v {
                    Some(x) => Some(*x),
                    None => None,
                },
            ) == Some(s@),
            None => json_as_str(
                match v {
                    Some(x) => Some(*x),
                    None => None,
                },
            ) is None,
        },
{
    match v {
        Some(JsonValue::Text(s)) => Some(s),
        _ => None,
    }
}

/// The string member `key` of `v`, when there is one.
pub open spec fn str_member(v: JsonValue, key: Seq<char>) -> Option<Seq<char>> {
    json_as_str(json_get(v, key))
}

fn str_at<'a>(v: &'a JsonValue, key: &str) -> (r: Option<&'a String>)
    ensures
        match r {
            Some(s) => str_member(*v, key@) == Some(s@),
            None => str_member(*v, key@) is None,
        },
{
    as_str(get(v, key))
}

/// A member the discovery document must hold as a non-empty string.
pub open spec fn required_text(body: JsonValue, key: Seq<char>) -> Option<Seq<char>> {
    match str_member(body, key) {
        Some(s) => if s.len() > 0 {
            Some(s)
        } else {
            None
        },
        None => None,
    }
}

/// The first required member the document lacks.
pub open spec fn missing_member(body: JsonValue) -> Option<Seq<char>> {
    if required_text(body, "deviceAuthorizationEndpoint"@) is None {
        Some("deviceAuthorizationEndpoint"@)
    } else if required_text(body, "tokenEndpoint"@) is None {
        Some("tokenEndpoint"@)
    } else if required_text(body, "clientId"@) is None {
        Some("clientId"@)
    } else {
        None
    }
}

fn required_at(body: &JsonValue, key: &str) -> (r: Result<String, String>)
    ensures
        match required_text(*body, key@) {
            Some(s) => (r matches Ok(t) && t@ == s),
            None => (r matches Err(e) && e@ == "CLI-login document missing "@ + key@),
        },
{
    match str_at(body, key) {
        Some(s) => {
            proof {
                reveal_strlit("");
                assert(s@.len() == 0 ==> s@ =~= ""@);
            }
            if !str_eq(s.as_str(), "") {
                return Ok(copy_str(s.as_str()));
            }
        },
        None => {},
    }
    let mut e = copy_str("CLI-login document missing ");
    push_str(&mut e, key);
    Err(e)
}

/// The discovery document read from the server's answer: the three endpoints it must name,
/// the request format (`form` unless given) and the optional scope.
pub fn discovery_from(body: &JsonValue) -> (r: Result<Discovery, String>)
    ensures
        match missing_member(*body) {
            Some(k) => (r matches Err(e) && e@ == "CLI-login document missing "@ + k),
            None => (r matches Ok(d) && Some(d.device_authorization_endpoint@) == required_text(
                *body,
                "deviceAuthorizationEndpoint"@,
            ) && Some(d.token_endpoint@) == required_text(*body, "tokenEndpoint"@) && Some(
                d.client_id@,
            ) == required_text(*body, "clientId"@) && d.request_format@ == (match str_member(
                *body,
                "requestFormat"@,
            ) {
                Some(f) => f,
                None => "form"@,
            }) && (match d.scope {
                Some(s) => str_member(*body, "scope"@) == Some(s@),
                None => str_member(*body, "scope"@) is None,
            })),
        },
{
    let device_authorization_endpoint = required_at(body, "deviceAuthorizationEndpoint")?;
    let token_endpoint = required_at(body, "tokenEndpoint")?;
    let client_id = required_at(body, "clientId")?;
    let request_format = match str_at(body, "requestFormat") {
        Some(f) => copy_str(f.as_str()),
        None => copy_str("form"),
    };
    let scope = match str_at(body, "scope") {
        Some(s) => Some(copy_str(s.as_str())),
        None => None,
    };
    Ok(Discovery { device_authorization_endpoint, token_endpoint, client_id, request_format, scope })
}

/// Whether grants are posted as JSON (else as a form).
pub fn posts_json(d: &Discovery) -> (r: bool)
    ensures
        r == (d.request_format@ == "json"@),
{
    str_eq(d.request_format.as_str(), "json")
}

/// The body of the device-code request: `client_id` and `scope` (`null` when none).
pub fn device_code_body(d: &Discovery) -> (r: JsonValue)
    ensures
        r matches JsonValue::Object(m) && m@.len() == 2 && m@[0].0@ == "client_id"@ && text_is(
            m@[0].1,
            d.client_id@,
        ) && m@[1].0@ == "scope"@ && (match d.scope {
            Some(s) => text_is(m@[1].1, s@),
            None => m@[1].1 is Null,
        }),
{
    let mut m: Vec<(String, JsonValue)> = Vec::new();
    m.push((copy_str("client_id"), JsonValue::Text(copy_str(d.client_id.as_str()))));
    let scope = match &d.scope {
        Some(s) => JsonValue::Text(copy_str(s.as_str())),
        None => JsonValue::Null,
    };
    m.push((copy_str("scope"), scope));
    JsonValue::Object(m)
}

/// The body of a token poll.
pub fn token_body(d: &Discovery, device_code: &str) -> (r: JsonValue)
    ensures
        text_members(
            r,
            seq![
                ("client_id"@, d.client_id@),
                ("device_code"@, device_code@),
                ("grant_type"@, "urn:ietf:params:oauth:grant-type:device_code"@),
            ],
        ),
{
    let mut m: Vec<(String, JsonValue)> = Vec::new();
    m.push((copy_str("client_id"), JsonValue::Text(copy_str(d.client_id.as_str()))));
    m.push((copy_str("device_code"), JsonValue::Text(copy_str(device_code))));
    m.push(
        (copy_str("grant_type"), JsonValue::Text(copy_str("urn:ietf:params:oauth:grant-type:device_code"))),
    );
    let r = JsonValue::Object(m);
    assert(text_members(
        r,
        seq![
            ("client_id"@, d.client_id@),
            ("device_code"@, device_code@),
            ("grant_type"@, "urn:ietf:params:oauth:grant-type:device_code"@),
        ],
    ));
    r
}

/// The string members of an object, in order (what a form post sends).
pub open spec fn string_members(ms: Seq<(String, JsonValue)>) -> Seq<(Seq<char>, Seq<char>)>
    decreases ms.len(),
{
    if ms.len() == 0 {
        Seq::empty()
    } else {
        let rest = string_members(ms.drop_last());
        match ms.last().1 {
            JsonValue::Text(s) => rest.push((ms.last().0@, s@)),
            _ => rest,
        }
    }
}

/// The form fields of a grant body: its string members.
pub fn form_fields(body: &JsonValue) -> (r: Vec<(String, String)>)
    ensures
        pair_texts(r@) == (match *body {
            JsonValue::Object(ms) => string_members(ms@),
            _ => Seq::empty(),
        }),
{
    let mut out: Vec<(String, String)> = Vec::new();
    let ms = match body {
        JsonValue::Object(ms) => ms,
        _ => {
            assert(pair_texts(out@) =~= Seq::<(Seq<char>, Seq<char>)>::empty());
            return out;
        },
    };
    let mut k: usize = 0;
    assert(pair_texts(out@) =~= string_members(ms@.take(0)));
    while k < ms.len()
        invariant
            k <= ms@.len(),
            pair_texts(out@) == string_members(ms@.take(k as int)),
        decreases ms.len() - k,
    {
        proof {
            assert(ms@.take(k + 1).drop_last() =~= ms@.take(k as int));
        }
        let ghost before = pair_texts(out@);
        match &ms[k].1 {
            JsonValue::Text(s) => {
                out.push((copy_str(ms[k].0.as_str()), copy_str(s.as_str())));
                assert(pair_texts(out@) =~= before.push((ms@[k as int].0@, s@)));
            },
            _ => {},
        }
        k += 1;
    }
    assert(ms@.take(ms@.len() as int) =~= ms@);
    out
}

/// What a grant post gives back: the JSON on success or when it names an `error`, else a
/// refusal with the status and the body.
pub fn grant_result(success: bool, status: &str, json: JsonValue) -> (r: Result<JsonValue, String>)
    ensures
        success || json_get(json, "error"@) is Some ==> r == Ok::<JsonValue, String>(json),
        !(success || json_get(json, "error"@) is Some) ==> (r matches Err(e) && e@ == (if numbers_ok(json) {
            "HTTP "@ + status@ + ": "@ + json_text(json)
        } else {
            "HTTP "@ + status@
        })),
{
    let has_error = get(&json, "error").is_some();
    if success || has_error {
        return Ok(json);
    }
    let mut e = copy_str("HTTP ");
    push_str(&mut e, status);
    match write_json(&json) {
        Some(t) => {
            push_str(&mut e, ": ");
            push_str(&mut e, t.as_str());
        },
        None => {},
    }
    Err(e)
}

/// What one poll of the token endpoint means.
pub enum PollVerdict {
    /// The login was approved: the answer holds the tokens.
    Approved,
    /// Not yet: poll again after the same wait.
    Pending,
    /// Poll again, five seconds slower.
    SlowDown,
    /// The login failed with this message.
    Failed { message: String },
}

/// Whether `s` contains `pat`.
pub open spec fn contains_text(s: Seq<char>, pat: Seq<char>) -> bool {
    find_seq(s, pat) is Some
}

/// The verdict on a poll answer that names no access token, by its `error`.
pub open spec fn error_verdict(json: JsonValue) -> Option<Seq<char>> {
    let err = match str_member(json, "error"@) {
        Some(e) => e,
        None => ""@,
    };
    if err == "authorization_pending"@ || err == "slow_down"@ {
        None
    } else if err == "access_denied"@ {
        Some("Login was denied."@)
    } else if err == "expired_token"@ {
        Some("The login request expired before it was approved."@)
    } else {
        Some(
            "Login failed: "@ + match str_member(json, "error_description"@) {
                Some(d) => d,
                None => err,
            },
        )
    }
}

/// The verdict on one poll answer.
pub fn poll_verdict(answer: &Result<JsonValue, String>) -> (r: PollVerdict)
    ensures
        match *answer {
            Ok(json) => if json_get(json, "access_token"@) is Some {
                r is Approved
            } else if str_member(json, "error"@) == Some("authorization_pending"@) {
                r is Pending
            } else if str_member(json, "error"@) == Some("slow_down"@) {
                r is SlowDown
            } else {
                error_verdict(json) matches Some(m) && (r matches PollVerdict::Failed { message }
                    && message@ == m)
            },
            Err(e) => if contains_text(e@, "authorization_pending"@) {
                r is Pending
            } else {
                r matches PollVerdict::Failed { message } && message@ == e@
            },
        },
{
    match answer {
        Ok(json) => {
            if get(json, "access_token").is_some() {
                return PollVerdict::Approved;
            }
            let err = match str_at(json, "error") {
                Some(e) => copy_str(e.as_str()),
                None => copy_str(""),
            };
            assert(err@ == match str_member(*json, "error"@) {
                Some(e) => e,
                None => ""@,
            });
            proof {
                reveal_strlit("authorization_pending");
                reveal_strlit("slow_down");
                reveal_strlit("access_denied");
                reveal_strlit("expired_token");
                reveal_strlit("");
            }
            if str_eq(err.as_str(), "authorization_pending") {
                PollVerdict::Pending
            } else if str_eq(err.as_str(), "slow_down") {
                PollVerdict::SlowDown
            } else if str_eq(err.as_str(), "access_denied") {
                PollVerdict::Failed { message: copy_str("Login was denied.") }
            } else if str_eq(err.as_str(), "expired_token") {
                PollVerdict::Failed {
                    message: copy_str("The login request expired before it was approved."),
                }
            } else {
                let mut m = copy_str("Login failed: ");
                match str_at(json, "error_description") {
                    Some(d) => push_str(&mut m, d.as_str()),
                    None => push_str(&mut m, err.as_str()),
                }
                assert(error_verdict(*json) == Some(m@));
                PollVerdict::Failed { message: m }
            }
        },
        Err(e) => {
            let chars = to_chars(e.as_str());
            assert(chars@.skip(0) =~= chars@);
            if find_str_from(&chars, 0, "authorization_pending").is_some() {
                PollVerdict::Pending
            } else {
                PollVerdict::Failed { message: copy_str(e.as_str()) }
            }
        },
    }
}

/// The credential kept after an approved login: the access token it must name, the
/// refresh token and the user's email when given.
pub fn oauth_from_tokens(tokens: &JsonValue) -> (r: Result<Auth, String>)
    ensures
        match str_member(*tokens, "access_token"@) {
            None => (r matches Err(e) && e@ == "Token response was missing an access token."@),
            Some(a) => (r matches Ok(Auth::Oauth { access_token, refresh_token, email })
                && access_token@ == a && (match refresh_token {
                Some(t) => str_member(*tokens, "refresh_token"@) == Some(t@),
                None => str_member(*tokens, "refresh_token"@) is None,
            }) && (match email {
                Some(m) => (json_get(*tokens, "user"@) matches Some(u) && str_member(u, "email"@) == Some(
                    m@,
                )),
                None => !(json_get(*tokens, "user"@) matches Some(u) && str_member(u, "email"@) is Some),
            })),
        },
{
    let access = match str_at(tokens, "access_token") {
        Some(a) => copy_str(a.as_str()),
        None => return Err(copy_str("Token response was missing an access token.")),
    };
    let email = match get(tokens, "user") {
        Some(u) => match str_at(u, "email") {
            Some(m) => Some(copy_str(m.as_str())),
            None => None,
        },
        None => None,
    };
    let refresh = match str_at(tokens, "refresh_token") {
        Some(t) => Some(copy_str(t.as_str())),
        None => None,
    };
    Ok(Auth::Oauth { access_token: access, refresh_token: refresh, email })
}

/// What the device-code answer asks the user: the code and the page to open
/// (`verification_uri`, else `verification_uri_complete`; empty when not a string).
pub open spec fn spec_prompt(grant: JsonValue) -> (Seq<char>, Seq<char>) {
    let code = match str_member(grant, "user_code"@) {
        Some(c) => c,
        None => ""@,
    };
    let page = match json_get(grant, "verification_uri"@) {
        Some(x) => json_as_str(Some(x)),
        None => str_member(grant, "verification_uri_complete"@),
    };
    (code, match page {
        Some(p) => p,
        None => ""@,
    })
}

/// The user code and verification page of a device-code answer.
pub fn grant_prompt(grant: &JsonValue) -> (r: (String, String))
    ensures
        (r.0@, r.1@) == spec_prompt(*grant),
{
    let code = match str_at(grant, "user_code") {
        Some(c) => copy_str(c.as_str()),
        None => copy_str(""),
    };
    let page_value = match get(grant, "verification_uri") {
        Some(x) => Some(x),
        None => get(grant, "verification_uri_complete"),
    };
    let page = match as_str(page_value) {
        Some(p) => copy_str(p.as_str()),
        None => copy_str(""),
    };
    (code, page)
}

/// How long to poll for: `expires_in` (300 s by default) and the interval between polls
/// (1 s by default), and the device code the polls send, which the answer must hold.
pub fn grant_polling(grant: &JsonValue) -> (r: Result<(String, u64, u64), String>)
    ensures
        match str_member(*grant, "device_code"@) {
            None => (r matches Err(e) && e@ == "device authorization response missing device_code"@),
            Some(c) => (r matches Ok(t) && t.0@ == c && t.1 == (match json_as_u64(
                json_get(*grant, "expires_in"@),
            ) {
                Some(n) => n,
                None => 300,
            }) && t.2 == (match json_as_u64(json_get(*grant, "interval"@)) {
                Some(n) => n,
                None => 1,
            })),
        },
{
    let expires = match as_u64(get(grant, "expires_in")) {
        Some(n) => n,
        None => 300,
    };
    let interval = match as_u64(get(grant, "interval")) {
        Some(n) => n,
        None => 1,
    };
    match str_at(grant, "device_code") {
        Some(c) => Ok((copy_str(c.as_str()), expires, interval)),
        None => Err(copy_str("device authorization response missing device_code")),
    }
}

} // verus!
