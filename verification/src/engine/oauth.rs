//! OAuth 2 around a connection: the client-credentials and authorization-code forms,
//! dynamic client registration, the authorization URL with S256 PKCE, and the choice
//! between filling a token and pausing for the user. The posts are the caller's part.

use vstd::prelude::*;
use crate::json::{JsonValue, write_json, json_text, numbers_ok};
use crate::auth::{AuthKind, AuthMethod};
use crate::error::ExecutorError;
use crate::execution::{ExecutionId, unix_now_ms};
use crate::outcome::{Outcome, PauseReason, PausedExecution, is_text, named};
use crate::cli::login::{get, str_member};
use crate::cli::request::{text_members, pair_texts};
use crate::engine::ema::{form_texts, opt_field, scope_field, join_scopes, opt_chars, value_of};
use crate::text::{copy_str, push_str, str_eq, decimal, spec_decimal};

verus! {

/// A registered OAuth client.
pub struct DcrClient {
    /// Public client id.
    pub client_id: String,
    /// Optional secret (public clients omit this).
    pub client_secret: Option<String>,
}

fn push_field(form: &mut Vec<(String, String)>, key: &str, value: &str)
    ensures
        form_texts(final(form)@) == form_texts(old(form)@).push((key@, value@)),
{
    let ghost before = form_texts(form@);
    form.push((copy_str(key), copy_str(value)));
    assert(form_texts(form@) =~= before.push((key@, value@)));
}

/// The client-credentials grant form.
pub fn client_credentials_form(client_id: &str, client_secret: &str, scopes: &Vec<String>) -> (r: Vec<
    (String, String),
>)
    ensures
        form_texts(r@) == seq![
            ("grant_type"@, "client_credentials"@),
            ("client_id"@, client_id@),
            ("client_secret"@, client_secret@),
        ] + scope_field(scopes@.map_values(|s: String| s@)),
{
    let mut form: Vec<(String, String)> = Vec::new();
    push_field(&mut form, "grant_type", "client_credentials");
    push_field(&mut form, "client_id", client_id);
    push_field(&mut form, "client_secret", client_secret);
    if scopes.len() > 0 {
        let j = join_scopes(scopes);
        push_field(&mut form, "scope", j.as_str());
    } else {
        assert(form_texts(form@) =~= form_texts(form@) + Seq::<(Seq<char>, Seq<char>)>::empty());
    }
    form
}

/// The authorization-code exchange form.
pub fn code_form(code: &str, redirect_uri: &str, client_id: &str, verifier: &str) -> (r: Vec<(String, String)>)
    ensures
        form_texts(r@) == seq![
            ("grant_type"@, "authorization_code"@),
            ("code"@, code@),
            ("redirect_uri"@, redirect_uri@),
            ("client_id"@, client_id@),
            ("code_verifier"@, verifier@),
        ],
{
    let mut form: Vec<(String, String)> = Vec::new();
    push_field(&mut form, "grant_type", "authorization_code");
    push_field(&mut form, "code", code);
    push_field(&mut form, "redirect_uri", redirect_uri);
    push_field(&mut form, "client_id", client_id);
    push_field(&mut form, "code_verifier", verifier);
    form
}

/// `label HTTP status: body`, or without the body when one of its numbers cannot be
/// written.
pub open spec fn http_failure(e: Seq<char>, label: Seq<char>, status: Seq<char>, body: JsonValue) -> bool {
    e == (if numbers_ok(body) {
        label + " HTTP "@ + status + ": "@ + json_text(body)
    } else {
        label + " HTTP "@ + status
    })
}

fn http_failure_text(label: &str, status: &str, body: &JsonValue) -> (r: String)
    ensures
        http_failure(r@, label@, status@, *body),
{
    let mut m = copy_str(label);
    push_str(&mut m, " HTTP ");
    push_str(&mut m, status);
    match write_json(body) {
        Some(t) => {
            push_str(&mut m, ": ");
            push_str(&mut m, t.as_str());
        },
        None => {},
    }
    m
}

/// The access token a token endpoint answered: refused unless the status was a success
/// and the body names one. `label` is `oauth token` for client credentials and
/// `oauth code` for an authorization code.
pub fn access_token_from(label: &str, success: bool, status: &str, body: &JsonValue) -> (r: Result<String, ExecutorError>)
    ensures
        !success ==> (r matches Err(ExecutorError::Plugin(e)) && http_failure(e@, label@, status@, *body)),
        success && str_member(*body, "access_token"@) is None ==> (r matches Err(ExecutorError::Plugin(e))
            && e@ == label@ + (if label@ == "oauth token"@ {
            " response missing access_token"@
        } else {
            " missing access_token"@
        })),
        success ==> (str_member(*body, "access_token"@) matches Some(t) ==> (r matches Ok(x) && x@ == t)),
{
    if !success {
        return Err(ExecutorError::Plugin(http_failure_text(label, status, body)));
    }
    match get(body, "access_token") {
        Some(JsonValue::Text(t)) => Ok(copy_str(t.as_str())),
        _ => {
            let mut m = copy_str(label);
            if str_eq(label, "oauth token") {
                push_str(&mut m, " response missing access_token");
            } else {
                push_str(&mut m, " missing access_token");
            }
            Err(ExecutorError::Plugin(m))
        },
    }
}

/// `v` is the list of strings `items`.
pub open spec fn string_list_is(v: JsonValue, items: Seq<Seq<char>>) -> bool {
    v matches JsonValue::Array(a) && a@.len() == items.len() && forall|i: int|
        0 <= i < items.len() ==> is_text(#[trigger] a@[i], items[i])
}

/// The RFC 7591 registration body (keys sorted).
pub fn dcr_body(redirect_uri: &str) -> (r: JsonValue)
    ensures
        r matches JsonValue::Object(m) && m@.len() == 5 && named(m@, 0, "client_name"@) && is_text(
            m@[0].1,
            "executor"@,
        ) && named(m@, 1, "grant_types"@) && string_list_is(
            m@[1].1,
            seq!["authorization_code"@, "refresh_token"@],
        ) && named(m@, 2, "redirect_uris"@) && string_list_is(m@[2].1, seq![redirect_uri@]) && named(
            m@,
            3,
            "response_types"@,
        ) && string_list_is(m@[3].1, seq!["code"@]) && named(m@, 4, "token_endpoint_auth_method"@) && is_text(
            m@[4].1,
            "none"@,
        ),
{
    let mut grants: Vec<JsonValue> = Vec::new();
    grants.push(JsonValue::Text(copy_str("authorization_code")));
    grants.push(JsonValue::Text(copy_str("refresh_token")));
    let mut uris: Vec<JsonValue> = Vec::new();
    uris.push(JsonValue::Text(copy_str(redirect_uri)));
    let mut responses: Vec<JsonValue> = Vec::new();
    responses.push(JsonValue::Text(copy_str("code")));
    let mut m: Vec<(String, JsonValue)> = Vec::new();
    m.push((copy_str("client_name"), JsonValue::Text(copy_str("executor"))));
    m.push((copy_str("grant_types"), JsonValue::Array(grants)));
    m.push((copy_str("redirect_uris"), JsonValue::Array(uris)));
    m.push((copy_str("response_types"), JsonValue::Array(responses)));
    m.push((copy_str("token_endpoint_auth_method"), JsonValue::Text(copy_str("none"))));
    JsonValue::Object(m)
}

/// The client a registration answered: refused unless the status was a success and the
/// body names a client id.
pub fn dcr_client_from(success: bool, status: &str, body: &JsonValue) -> (r: Result<DcrClient, ExecutorError>)
    ensures
        !success ==> (r matches Err(ExecutorError::Plugin(e)) && http_failure(e@, "dcr"@, status@, *body)),
        success && str_member(*body, "client_id"@) is None ==> (r matches Err(ExecutorError::Plugin(e))
            && e@ == "dcr missing client_id"@),
        success ==> (str_member(*body, "client_id"@) matches Some(c) ==> (r matches Ok(x) && x.client_id@ == c
            && opt_chars(x.client_secret) == str_member(*body, "client_secret"@))),
{
    if !success {
        return Err(ExecutorError::Plugin(http_failure_text("dcr", status, body)));
    }
    let client_id = match get(body, "client_id") {
        Some(JsonValue::Text(c)) => copy_str(c.as_str()),
        _ => return Err(ExecutorError::Plugin(copy_str("dcr missing client_id"))),
    };
    let client_secret = match get(body, "client_secret") {
        Some(JsonValue::Text(s)) => Some(copy_str(s.as_str())),
        _ => None,
    };
    Ok(DcrClient { client_id, client_secret })
}

// ---------------------------------------------------------------- authorization URL

/// The query pairs of an authorization request with S256 PKCE.
pub fn authorization_pairs(
    client_id: &str,
    redirect_uri: &str,
    scopes: &Vec<String>,
    state: &str,
    challenge: &str,
) -> (r: Vec<(String, String)>)
    ensures
        form_texts(r@) == seq![
            ("response_type"@, "code"@),
            ("client_id"@, client_id@),
            ("redirect_uri"@, redirect_uri@),
            ("state"@, state@),
            ("code_challenge"@, challenge@),
            ("code_challenge_method"@, "S256"@),
        ] + scope_field(scopes@.map_values(|s: String| s@)),
{
    let mut pairs: Vec<(String, String)> = Vec::new();
    push_field(&mut pairs, "response_type", "code");
    push_field(&mut pairs, "client_id", client_id);
    push_field(&mut pairs, "redirect_uri", redirect_uri);
    push_field(&mut pairs, "state", state);
    push_field(&mut pairs, "code_challenge", challenge);
    push_field(&mut pairs, "code_challenge_method", "S256");
    if scopes.len() > 0 {
        let j = join_scopes(scopes);
        push_field(&mut pairs, "scope", j.as_str());
    } else {
        assert(form_texts(pairs@) =~= form_texts(pairs@) + Seq::<(Seq<char>, Seq<char>)>::empty());
    }
    pairs
}

/// What `url::Url::parse(url)` followed by appending `pairs` to its query (form
/// encoded) and `to_string` gives, when the URL parses.
pub uninterp spec fn url_with_query(url: Seq<char>, pairs: Seq<(Seq<char>, Seq<char>)>) -> Option<Seq<char>>;

/// `url::form_urlencoded::Serializer` over `pairs`: the `application/x-www-form-urlencoded`
/// text.
pub uninterp spec fn form_urlencoded(pairs: Seq<(Seq<char>, Seq<char>)>) -> Seq<char>;

/// `url::Url::parse(url)`, then `query_pairs_mut().extend_pairs(pairs)` and `to_string()`;
/// `None` when the URL does not parse.
#[verifier::external_body]
fn extend_url_query(url: &str, pairs: &Vec<(String, String)>) -> (r: Option<String>)
    ensures
        match r {
            Some(u) => url_with_query(url@, form_texts(pairs@)) == Some(u@),
            None => url_with_query(url@, form_texts(pairs@)) is None,
        },
{
    let mut parsed = url::Url::parse(url).ok()?;
    parsed.query_pairs_mut().extend_pairs(pairs.iter());
    Some(parsed.to_string())
}

/// `url::form_urlencoded::Serializer::new(String::new()).extend_pairs(pairs).finish()`.
#[verifier::external_body]
fn encode_form(pairs: &Vec<(String, String)>) -> (r: String)
    ensures
        r@ == form_urlencoded(form_texts(pairs@)),
{
    url::form_urlencoded::Serializer::new(String::new()).extend_pairs(pairs.iter()).finish()
}

/// The authorization-code URL with S256 PKCE: the pairs appended to the URL's query, or,
/// when the URL does not parse, the URL, `?` and the form-encoded pairs.
pub fn authorization_request(
    authorization_url: &str,
    client_id: &str,
    redirect_uri: &str,
    scopes: &Vec<String>,
    state: &str,
    challenge: &str,
) -> (r: String)
    ensures
        ({
            let pairs = seq![
                ("response_type"@, "code"@),
                ("client_id"@, client_id@),
                ("redirect_uri"@, redirect_uri@),
                ("state"@, state@),
                ("code_challenge"@, challenge@),
                ("code_challenge_method"@, "S256"@),
            ] + scope_field(scopes@.map_values(|s: String| s@));
            match url_with_query(authorization_url@, pairs) {
                Some(u) => r@ == u,
                None => r@ == authorization_url@ + "?"@ + form_urlencoded(pairs),
            }
        }),
{
    let pairs = authorization_pairs(client_id, redirect_uri, scopes, state, challenge);
    match extend_url_query(authorization_url, &pairs) {
        Some(u) => u,
        None => {
            let mut s = copy_str(authorization_url);
            push_str(&mut s, "?");
            let qs = encode_form(&pairs);
            push_str(&mut s, qs.as_str());
            s
        },
    }
}

// ---------------------------------------------------------------- PKCE

/// SHA-256 of `bytes` (`sha2::Sha256::digest`).
pub uninterp spec fn sha256_of(bytes: Seq<u8>) -> Seq<u8>;

/// The URL-safe base64 digit for `v < 64`: `A`–`Z`, `a`–`z`, `0`–`9`, `-`, `_`.
pub open spec fn b64_digit(v: int) -> char {
    if v < 26 {
        (('A' as int) + v) as char
    } else if v < 52 {
        (('a' as int) + v - 26) as char
    } else if v < 62 {
        (('0' as int) + v - 52) as char
    } else if v == 62 {
        '-'
    } else {
        '_'
    }
}

/// Unpadded URL-safe base64 of `bytes` (RFC 4648 §5 without `=`): each three bytes give
/// four digits of six bits, a final one or two bytes give two or three.
pub open spec fn base64url(bytes: Seq<u8>) -> Seq<char>
    decreases bytes.len(),
{
    if bytes.len() == 0 {
        Seq::empty()
    } else {
        let b0 = bytes[0] as int;
        let b1 = if bytes.len() > 1 { bytes[1] as int } else { 0 };
        let b2 = if bytes.len() > 2 { bytes[2] as int } else { 0 };
        let d0 = b64_digit(b0 / 4);
        let d1 = b64_digit((b0 % 4) * 16 + b1 / 16);
        let d2 = b64_digit((b1 % 16) * 4 + b2 / 64);
        let d3 = b64_digit(b2 % 64);
        if bytes.len() == 1 {
            seq![d0, d1]
        } else if bytes.len() == 2 {
            seq![d0, d1, d2]
        } else {
            seq![d0, d1, d2, d3] + base64url(bytes.skip(3))
        }
    }
}

/// `sha2::Sha256::digest(bytes)`: the digest, whose output size is 32 bytes.
#[verifier::external_body]
fn sha256(bytes: &[u8]) -> (r: Vec<u8>)
    ensures
        r@ == sha256_of(bytes@),
        r@.len() == 32,
{
    <sha2::Sha256 as sha2::Digest>::digest(bytes).to_vec()
}

/// `URL_SAFE_NO_PAD.encode(bytes)`: the standard URL-safe alphabet, no padding.
#[verifier::external_body]
fn base64url_encode(bytes: &[u8]) -> (r: String)
    ensures
        r@ == base64url(bytes@),
{
    base64::Engine::encode(&base64::engine::general_purpose::URL_SAFE_NO_PAD, bytes)
}

/// 32 bytes from the operating system's random source (`getrandom::getrandom`); `None`
/// when it fails. Nothing is promised of the bytes but their number.
#[verifier::external_body]
pub(crate) fn random_bytes() -> (r: Option<Vec<u8>>)
    ensures
        r matches Some(b) ==> b@.len() == 32,
{
    let mut raw = vec![0_u8; 32];
    getrandom::getrandom(&mut raw).ok()?;
    Some(raw)
}

/// The text hashed for a verifier when no random bytes could be drawn:
/// `pkce-<unix ms>-<process id>`.
pub open spec fn pkce_fallback_text(now_ms: nat, process_id: nat) -> Seq<char> {
    "pkce-"@ + spec_decimal(now_ms) + "-"@ + spec_decimal(process_id)
}

/// The verifier for what was drawn: the encoded random bytes, or else the encoded SHA-256
/// of the fallback text.
pub open spec fn pkce_verifier(drawn: Option<Seq<u8>>, now_ms: nat, process_id: nat) -> Seq<char> {
    match drawn {
        Some(raw) => base64url(raw),
        None => base64url(sha256_of(vstd::utf8::encode_utf8(pkce_fallback_text(now_ms, process_id)))),
    }
}

/// The S256 challenge of a verifier: the encoded SHA-256 of its UTF-8 text.
pub open spec fn pkce_challenge(verifier: Seq<char>) -> Seq<char> {
    base64url(sha256_of(vstd::utf8::encode_utf8(verifier)))
}

/// The PKCE pair for the bytes drawn from the random source (`None` when it failed), the
/// clock in unix milliseconds and the process id.
pub fn pkce_from(raw: Option<&[u8]>, now_ms: u64, process_id: u32) -> (r: (String, String))
    ensures
        r.0@ == pkce_verifier(
            match raw {
                Some(b) => Some(b@),
                None => None,
            },
            now_ms as nat,
            process_id as nat,
        ),
        r.1@ == pkce_challenge(r.0@),
        raw is None ==> exists|d: Seq<u8>| d.len() == 32 && r.0@ == base64url(d),
{
    let verifier = match raw {
        Some(b) => base64url_encode(b),
        None => {
            let mut mixed = copy_str("pkce-");
            let ms = decimal(now_ms);
            push_str(&mut mixed, ms.as_str());
            push_str(&mut mixed, "-");
            let pid = decimal(process_id as u64);
            push_str(&mut mixed, pid.as_str());
            let seed = sha256(mixed.as_str().as_bytes());
            base64url_encode(seed.as_slice())
        },
    };
    let digest = sha256(verifier.as_str().as_bytes());
    let challenge = base64url_encode(digest.as_slice());
    (verifier, challenge)
}

/// A PKCE verifier and its S256 challenge: the pair of [`pkce_from`] for 32 bytes drawn from
/// the random source, or, when it fails, for the clock at the call. Either way the verifier
/// encodes 32 bytes.
pub fn pkce_pair(process_id: u32) -> (r: (String, String))
    ensures
        exists|drawn: Option<Seq<u8>>, now_ms: u64|
            (drawn matches Some(b) ==> b.len() == 32)
            && #[trigger] pkce_verifier(drawn, now_ms as nat, process_id as nat) == r.0@,
        exists|raw: Seq<u8>| raw.len() == 32 && r.0@ == base64url(raw),
        r.1@ == pkce_challenge(r.0@),
{
    match random_bytes() {
        // The clock plays no part when bytes were drawn.
        Some(b) => pkce_from(Some(b.as_slice()), 0, process_id),
        None => pkce_from(None, unix_now_ms(), process_id),
    }
}

/// The state an authorization round carries back: `<verifier>:<execution id>`.
pub fn oauth_state(verifier: &str, id: &ExecutionId) -> (r: String)
    ensures
        r@ == verifier@ + ":"@ + id@,
{
    let mut s = copy_str(verifier);
    push_str(&mut s, ":");
    push_str(&mut s, id.as_str());
    s
}

// ---------------------------------------------------------------- what to do for a connection

/// Index of the method a connection's template names (by template slug or id), else the
/// first OAuth method.
pub open spec fn chosen_method(methods: Seq<AuthMethod>, template: Seq<char>) -> Option<int> {
    match named_method(methods, template, 0) {
        Some(i) => Some(i),
        None => first_oauth(methods, 0),
    }
}

/// First method from `k` on whose template slug or id is `template`.
pub open spec fn named_method(methods: Seq<AuthMethod>, template: Seq<char>, k: int) -> Option<int>
    decreases methods.len() - k,
{
    if k < 0 || k >= methods.len() {
        None
    } else if methods[k].template@ == template || methods[k].id@ == template {
        Some(k)
    } else {
        named_method(methods, template, k + 1)
    }
}

/// First OAuth method from `k` on.
pub open spec fn first_oauth(methods: Seq<AuthMethod>, k: int) -> Option<int>
    decreases methods.len() - k,
{
    if k < 0 || k >= methods.len() {
        None
    } else if methods[k].kind == AuthKind::Oauth {
        Some(k)
    } else {
        first_oauth(methods, k + 1)
    }
}

/// The method a connection uses, when there is one.
pub fn choose_method(methods: &Vec<AuthMethod>, template: &str) -> (r: Option<usize>)
    ensures
        match r {
            Some(i) => chosen_method(methods@, template@) == Some(i as int) && i < methods@.len(),
            None => chosen_method(methods@, template@) is None,
        },
{
    let mut k: usize = 0;
    while k < methods.len()
        invariant
            k <= methods@.len(),
            named_method(methods@, template@, 0) == named_method(methods@, template@, k as int),
        decreases methods.len() - k,
    {
        if str_eq(methods[k].template.as_str(), template) || str_eq(methods[k].id.as_str(), template) {
            return Some(k);
        }
        k += 1;
    }
    let mut j: usize = 0;
    while j < methods.len()
        invariant
            j <= methods@.len(),
            named_method(methods@, template@, 0) is None,
            first_oauth(methods@, 0) == first_oauth(methods@, j as int),
        decreases methods.len() - j,
    {
        if methods[j].kind == AuthKind::Oauth {
            return Some(j);
        }
        j += 1;
    }
    None
}

/// How a connection whose method is OAuth gets its token.
pub enum CredentialRoute {
    /// The token is already there, or the method is not OAuth: nothing to do.
    Ready,
    /// Mint one with client credentials.
    ClientCredentials {
        /// Token endpoint.
        token_url: String,
        /// Client id.
        client_id: String,
        /// Client secret.
        client_secret: String,
    },
    /// Pause and send the user to authorize.
    AuthorizationCode {
        /// Authorization endpoint.
        authorization_url: String,
        /// Client id.
        client_id: String,
    },
}

/// Whether a connection still needs an OAuth token: its method is OAuth and its `token`
/// value is missing or empty.
pub open spec fn needs_token(method: AuthMethod, values: Seq<(String, String)>) -> bool {
    method.kind == AuthKind::Oauth && match value_of(values, "token"@) {
        Some(t) => t.len() == 0,
        None => true,
    }
}

/// Whether the connection still needs an OAuth token.
pub fn token_needed(method: &AuthMethod, values: &Vec<(String, String)>) -> (r: bool)
    ensures
        r == needs_token(*method, values@),
{
    if method.kind != AuthKind::Oauth {
        return false;
    }
    let mut k: usize = 0;
    assert(values@.skip(0) =~= values@);
    while k < values.len()
        invariant
            k <= values@.len(),
            value_of(values@, "token"@) == value_of(values@.skip(k as int), "token"@),
            method.kind == AuthKind::Oauth,
        decreases values.len() - k,
    {
        assert(values@.skip(k as int)[0] == values@[k as int]);
        if str_eq(values[k].0.as_str(), "token") {
            proof {
                reveal_strlit("");
                assert(values@[k as int].1@.len() == 0 ==> values@[k as int].1@ =~= ""@);
            }
            return str_eq(values[k].1.as_str(), "");
        }
        proof {
            assert(values@.skip(k as int).drop_first() =~= values@.skip(k + 1));
        }
        k += 1;
    }
    true
}

/// After enterprise-managed authorization declined to fill the token: client credentials
/// when the token URL (the method's, else the value's), client id and secret are all
/// there; else an authorization-code pause, which needs the method's authorization URL and
/// a client id.
pub fn credential_route(method: &AuthMethod, values: &Vec<(String, String)>) -> (r: Result<CredentialRoute, ExecutorError>)
    ensures
        ({
            let token_url = match opt_chars(method.token_url) {
                Some(u) => Some(u),
                None => value_of(values@, "token_url"@),
            };
            let client_id = value_of(values@, "client_id"@);
            let secret = value_of(values@, "client_secret"@);
            if token_url is Some && client_id is Some && secret is Some {
                r matches Ok(CredentialRoute::ClientCredentials { token_url: u, client_id: c, client_secret: s })
                    && Some(u@) == token_url && Some(c@) == client_id && Some(s@) == secret
            } else if method.authorization_url is None {
                r matches Err(ExecutorError::CredentialResolution(e)) && e@
                    == "oauth connection needs token, client credentials, or authorization_url"@
            } else if client_id is None {
                r matches Err(ExecutorError::CredentialResolution(e)) && e@
                    == "oauth authorization-code needs client_id"@
            } else {
                r matches Ok(CredentialRoute::AuthorizationCode { authorization_url: a, client_id: c })
                    && Some(a@) == opt_chars(method.authorization_url) && Some(c@) == client_id
            }
        }),
{
    let token_url = match &method.token_url {
        Some(u) => Some(copy_str(u.as_str())),
        None => match crate::engine::ema::get_value(values, "token_url") {
            Some(u) => Some(copy_str(u.as_str())),
            None => None,
        },
    };
    let client_id = crate::engine::ema::get_value(values, "client_id");
    let secret = crate::engine::ema::get_value(values, "client_secret");
    if let (Some(u), Some(c), Some(s)) = (&token_url, client_id, secret) {
        return Ok(
            CredentialRoute::ClientCredentials {
                token_url: copy_str(u.as_str()),
                client_id: copy_str(c.as_str()),
                client_secret: copy_str(s.as_str()),
            },
        );
    }
    let auth_url = match &method.authorization_url {
        Some(a) => a,
        None => {
            return Err(
                ExecutorError::CredentialResolution(
                    copy_str("oauth connection needs token, client credentials, or authorization_url"),
                ),
            );
        },
    };
    let cid = match client_id {
        Some(c) => c,
        None => {
            return Err(ExecutorError::CredentialResolution(copy_str("oauth authorization-code needs client_id")));
        },
    };
    Ok(
        CredentialRoute::AuthorizationCode {
            authorization_url: copy_str(auth_url.as_str()),
            client_id: copy_str(cid.as_str()),
        },
    )
}

/// The pause that sends the user to `url` to authorize, lapsing `ttl_ms` after `now_ms`
/// (saturating).
pub fn authorization_pause(id: &ExecutionId, url: String, now_ms: u64, ttl_ms: u64) -> (r: Outcome)
    ensures
        r matches Outcome::Paused { execution } && execution.id@ == id@ && execution.expires_at_ms == (if now_ms
            + ttl_ms <= u64::MAX {
            (now_ms + ttl_ms) as u64
        } else {
            u64::MAX
        }) && (execution.reason matches PauseReason::Auth { message, url: u } && message@
            == "Open this URL to authorize the connection, then resume."@ && u == Some(url)),
{
    Outcome::Paused {
        execution: PausedExecution {
            id: id.clone(),
            reason: PauseReason::Auth {
                message: copy_str("Open this URL to authorize the connection, then resume."),
                url: Some(url),
            },
            expires_at_ms: now_ms.saturating_add(ttl_ms),
        },
    }
}

} // verus!
