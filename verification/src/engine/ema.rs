//! Enterprise-managed authorization (RFC 8693 exchange, then RFC 7523 redemption): the
//! forms each hop posts, what each answer means, the discovery URLs, and the inputs a
//! connection's credential values give. The posts themselves are the caller's part.

use vstd::prelude::*;
use crate::json::JsonValue;
use crate::ema::{
    EmaError, EmaStep, supports_id_jag_grant_profile, DEFAULT_SUBJECT_TOKEN_TYPE, ID_JAG_GRANT_PROFILE,
    ID_JAG_TOKEN_TYPE, ID_JAG_TOKEN_TYPE_SENTINEL, JWT_BEARER_GRANT_TYPE, TOKEN_EXCHANGE_GRANT_TYPE,
};
use crate::cli::login::{get, str_member};
use crate::catalog::call::{json_get, trim_end_char, trim_end_slashes};
use crate::codemode::parse::{str_debug, debug_str};
use crate::text::{
    copy_str, push_str, str_eq, to_chars, spec_trim, trim, spec_has_at, has_at, spec_words,
    split_whitespace, lower_chars, spec_lower, from_chars,
};

verus! {

// ---------------------------------------------------------------- answers

/// The RFC 6749 §5.2 codes recognised at the start of a free-text error.
pub open spec fn rfc6749_codes() -> Seq<Seq<char>> {
    seq![
        "invalid_request"@,
        "invalid_client"@,
        "invalid_grant"@,
        "unauthorized_client"@,
        "unsupported_grant_type"@,
        "invalid_scope"@,
        "invalid_target"@,
    ]
}

/// Whether trimmed `text` is `code`, or starts with it followed by a space or a colon.
pub open spec fn starts_with_code(text: Seq<char>, code: Seq<char>) -> bool {
    let t = spec_trim(text);
    t == code || (spec_has_at(t, 0, code + " "@) || spec_has_at(t, 0, code + ":"@))
}

/// The first code, in list order from `k` on, that `text` starts with.
pub open spec fn code_from(text: Seq<char>, k: int) -> Option<Seq<char>>
    decreases 7 - k,
{
    if k < 0 || k >= 7 {
        None
    } else if starts_with_code(text, rfc6749_codes()[k]) {
        Some(rfc6749_codes()[k])
    } else {
        code_from(text, k + 1)
    }
}

fn code_at(k: usize) -> (r: &'static str)
    requires
        k < 7,
    ensures
        r@ == rfc6749_codes()[k as int],
{
    proof {
        reveal_strlit("invalid_request");
        reveal_strlit("invalid_client");
        reveal_strlit("invalid_grant");
        reveal_strlit("unauthorized_client");
        reveal_strlit("unsupported_grant_type");
        reveal_strlit("invalid_scope");
        reveal_strlit("invalid_target");
    }
    if k == 0 {
        "invalid_request"
    } else if k == 1 {
        "invalid_client"
    } else if k == 2 {
        "invalid_grant"
    } else if k == 3 {
        "unauthorized_client"
    } else if k == 4 {
        "unsupported_grant_type"
    } else if k == 5 {
        "invalid_scope"
    } else {
        "invalid_target"
    }
}

/// The RFC 6749 code a free-text error starts with, if any.
pub fn rfc6749_prefix(text: &str) -> (r: Option<&'static str>)
    ensures
        match r {
            Some(c) => code_from(text@, 0) == Some(c@),
            None => code_from(text@, 0) is None,
        },
{
    let t = trim(text);
    let tc = to_chars(t.as_str());
    let mut k: usize = 0;
    while k < 7
        invariant
            k <= 7,
            tc@ == spec_trim(text@),
            t@ == spec_trim(text@),
            code_from(text@, 0) == code_from(text@, k as int),
        decreases 7 - k,
    {
        let code = code_at(k);
        let mut spaced = copy_str(code);
        push_str(&mut spaced, " ");
        let mut coloned = copy_str(code);
        push_str(&mut coloned, ":");
        let sp = to_chars(spaced.as_str());
        let co = to_chars(coloned.as_str());
        let hit = str_eq(t.as_str(), code) || has_at(&tc, 0, &sp) || has_at(&tc, 0, &co);
        if hit {
            return Some(code);
        }
        k += 1;
    }
    None
}

/// The RFC 6749 code and detail of a refusal: its `error` (with its description, else the
/// code), else the first string of `errors` that starts with a known code, else no code
/// and `fallback`.
pub open spec fn spec_oauth_error(body: JsonValue, fallback: Seq<char>) -> (Option<Seq<char>>, Seq<char>) {
    match str_member(body, "error"@) {
        Some(code) => (Some(code), match str_member(body, "error_description"@) {
            Some(d) => d,
            None => code,
        }),
        None => match json_get(body, "errors"@) {
            Some(JsonValue::Array(items)) => match first_coded(items@, 0) {
                Some(i) => (code_from(items@[i]->Text_0@, 0), items@[i]->Text_0@),
                None => (None, fallback),
            },
            _ => (None, fallback),
        },
    }
}

/// Index of the first string entry from `k` on that starts with a known code.
pub open spec fn first_coded(items: Seq<JsonValue>, k: int) -> Option<int>
    decreases items.len() - k,
{
    if k < 0 || k >= items.len() {
        None
    } else if items[k] is Text && code_from(items[k]->Text_0@, 0) is Some {
        Some(k)
    } else {
        first_coded(items, k + 1)
    }
}

/// The RFC 6749 code and detail of a refused hop.
pub fn oauth_error_from_body(body: &JsonValue, fallback: &str) -> (r: (Option<String>, String))
    ensures
        (match r.0 {
            Some(c) => Some(c@),
            None => None,
        }, r.1@) == spec_oauth_error(*body, fallback@),
{
    if let Some(JsonValue::Text(code)) = get(body, "error") {
        let detail = match get(body, "error_description") {
            Some(JsonValue::Text(d)) => copy_str(d.as_str()),
            _ => copy_str(code.as_str()),
        };
        return (Some(copy_str(code.as_str())), detail);
    }
    assert(str_member(*body, "error"@) is None);
    if let Some(JsonValue::Array(items)) = get(body, "errors") {
        let mut k: usize = 0;
        while k < items.len()
            invariant
                k <= items@.len(),
                str_member(*body, "error"@) is None,
                json_get(*body, "errors"@) == Some(JsonValue::Array(*items)),
                first_coded(items@, 0) == first_coded(items@, k as int),
            decreases items.len() - k,
        {
            if let JsonValue::Text(t) = &items[k] {
                if let Some(c) = rfc6749_prefix(t.as_str()) {
                    return (Some(copy_str(c)), copy_str(t.as_str()));
                }
            }
            k += 1;
        }
    }
    (None, copy_str(fallback))
}

/// A refused exchange: an invalid subject token, a policy refusal under any other code,
/// or an unavailable upstream without one.
pub fn exchange_failure(body: &JsonValue) -> (r: EmaError)
    ensures
        ({
            let (code, detail) = spec_oauth_error(*body, "ID-JAG token exchange was rejected"@);
            match code {
                Some(c) => if c == "invalid_grant"@ {
                    r matches EmaError::SubjectTokenRejected { detail: d } && d@ == detail
                } else {
                    r matches EmaError::PolicyDenied { error, detail: d } && error@ == c && d@ == detail
                },
                None => r matches EmaError::UpstreamUnavailable { step: EmaStep::TokenExchange, detail: d }
                    && d@ == detail,
            }
        }),
{
    let (code, detail) = oauth_error_from_body(body, "ID-JAG token exchange was rejected");
    proof {
        reveal_strlit("invalid_grant");
    }
    match code {
        Some(c) => if str_eq(c.as_str(), "invalid_grant") {
            EmaError::SubjectTokenRejected { detail }
        } else {
            EmaError::PolicyDenied { error: c, detail }
        },
        None => EmaError::UpstreamUnavailable { step: EmaStep::TokenExchange, detail },
    }
}

/// A refused redemption: rejected with the code when there is one, else an unavailable
/// upstream.
pub fn redemption_failure(body: &JsonValue) -> (r: EmaError)
    ensures
        ({
            let (code, detail) = spec_oauth_error(*body, "ID-JAG redemption was rejected"@);
            match code {
                Some(c) => r matches EmaError::RedemptionRejected { error: Some(e), detail: d } && e@ == c
                    && d@ == detail,
                None => r matches EmaError::UpstreamUnavailable { step: EmaStep::Redemption, detail: d }
                    && d@ == detail,
            }
        }),
{
    let (code, detail) = oauth_error_from_body(body, "ID-JAG redemption was rejected");
    match code {
        Some(c) => EmaError::RedemptionRejected { error: Some(c), detail },
        None => EmaError::UpstreamUnavailable { step: EmaStep::Redemption, detail },
    }
}

/// The ID-JAG the exchange issued, and the scope the `IdP` granted.
pub struct IdJagGrant {
    /// The assertion (never retained after redemption).
    pub assertion: String,
    /// Granted scope, when echoed.
    pub scope: Option<String>,
}

/// An optional string as plain characters.
pub open spec fn opt_chars(o: Option<String>) -> Option<Seq<char>> {
    match o {
        Some(s) => Some(s@),
        None => None,
    }
}

/// What a successful exchange answer must be: an `access_token`, `issued_token_type` the
/// ID-JAG type and `token_type` `N_A`; the detail of each refusal names what was found.
pub fn parse_id_jag_body(body: &JsonValue) -> (r: Result<IdJagGrant, EmaError>)
    ensures
        match str_member(*body, "access_token"@) {
            None => (r matches Err(EmaError::UpstreamUnavailable { step: EmaStep::TokenExchange, detail })
                && detail@ == "ID-JAG token exchange response did not match RFC 8693 §2.2.1"@),
            Some(a) => {
                let issued = str_member(*body, "issued_token_type"@);
                let token_type = str_member(*body, "token_type"@);
                if issued != Some(ID_JAG_TOKEN_TYPE@) {
                    r matches Err(EmaError::UpstreamUnavailable { step: EmaStep::TokenExchange, detail })
                        && detail@ == "ID-JAG token exchange returned issued_token_type "@ + str_debug(
                        match issued {
                            Some(t) => t,
                            None => ""@,
                        },
                    ) + ", expected \""@ + ID_JAG_TOKEN_TYPE@ + "\""@
                } else if token_type != Some(ID_JAG_TOKEN_TYPE_SENTINEL@) {
                    r matches Err(EmaError::UpstreamUnavailable { step: EmaStep::TokenExchange, detail })
                        && detail@ == "ID-JAG token exchange returned token_type "@ + str_debug(
                        match token_type {
                            Some(t) => t,
                            None => ""@,
                        },
                    ) + ", expected \""@ + ID_JAG_TOKEN_TYPE_SENTINEL@ + "\""@
                } else {
                    r matches Ok(g) && g.assertion@ == a && opt_chars(g.scope) == str_member(*body, "scope"@)
                }
            },
        },
{
    let assertion = match get(body, "access_token") {
        Some(JsonValue::Text(a)) => copy_str(a.as_str()),
        _ => {
            return Err(
                EmaError::UpstreamUnavailable {
                    step: EmaStep::TokenExchange,
                    detail: copy_str("ID-JAG token exchange response did not match RFC 8693 §2.2.1"),
                },
            );
        },
    };
    let issued = match get(body, "issued_token_type") {
        Some(JsonValue::Text(t)) => copy_str(t.as_str()),
        _ => String::new(),
    };
    let issued_ok = match get(body, "issued_token_type") {
        Some(JsonValue::Text(t)) => str_eq(t.as_str(), ID_JAG_TOKEN_TYPE),
        _ => false,
    };
    proof {
        reveal_strlit("");
    }
    if !issued_ok {
        let mut d = copy_str("ID-JAG token exchange returned issued_token_type ");
        let shown = debug_str(issued.as_str());
        push_str(&mut d, shown.as_str());
        push_str(&mut d, ", expected \"");
        push_str(&mut d, ID_JAG_TOKEN_TYPE);
        push_str(&mut d, "\"");
        assert(issued@ =~= (match str_member(*body, "issued_token_type"@) {
            Some(t) => t,
            None => ""@,
        }));
        return Err(EmaError::UpstreamUnavailable { step: EmaStep::TokenExchange, detail: d });
    }
    let token_type = match get(body, "token_type") {
        Some(JsonValue::Text(t)) => copy_str(t.as_str()),
        _ => String::new(),
    };
    let type_ok = match get(body, "token_type") {
        Some(JsonValue::Text(t)) => str_eq(t.as_str(), ID_JAG_TOKEN_TYPE_SENTINEL),
        _ => false,
    };
    if !type_ok {
        let mut d = copy_str("ID-JAG token exchange returned token_type ");
        let shown = debug_str(token_type.as_str());
        push_str(&mut d, shown.as_str());
        push_str(&mut d, ", expected \"");
        push_str(&mut d, ID_JAG_TOKEN_TYPE_SENTINEL);
        push_str(&mut d, "\"");
        assert(token_type@ =~= (match str_member(*body, "token_type"@) {
            Some(t) => t,
            None => ""@,
        }));
        return Err(EmaError::UpstreamUnavailable { step: EmaStep::TokenExchange, detail: d });
    }
    let scope = match get(body, "scope") {
        Some(JsonValue::Text(s)) => Some(copy_str(s.as_str())),
        _ => None,
    };
    Ok(IdJagGrant { assertion, scope })
}

/// What a successful redemption answer gives: the access token it must hold, and the
/// scope when echoed.
pub fn token_grant_from(body: &JsonValue) -> (r: Result<(String, Option<String>), EmaError>)
    ensures
        match str_member(*body, "access_token"@) {
            None => (r matches Err(EmaError::UpstreamUnavailable { step: EmaStep::Redemption, detail })
                && detail@ == "token response missing access_token"@),
            Some(a) => (r matches Ok(g) && g.0@ == a && opt_chars(g.1) == str_member(*body, "scope"@)),
        },
{
    let access = match get(body, "access_token") {
        Some(JsonValue::Text(a)) => copy_str(a.as_str()),
        _ => {
            return Err(
                EmaError::UpstreamUnavailable {
                    step: EmaStep::Redemption,
                    detail: copy_str("token response missing access_token"),
                },
            );
        },
    };
    let scope = match get(body, "scope") {
        Some(JsonValue::Text(s)) => Some(copy_str(s.as_str())),
        _ => None,
    };
    Ok((access, scope))
}

/// The scopes redemption asks for: the ones the `IdP` granted (split on whitespace), else
/// the ones requested.
pub fn granted_scopes(idp_scope: &Option<String>, requested: &Vec<String>) -> (r: Vec<String>)
    ensures
        r@.map_values(|s: String| s@) == (match idp_scope {
            Some(s) => spec_words(s@),
            None => requested@.map_values(|s: String| s@),
        }),
{
    match idp_scope {
        Some(s) => split_whitespace(s.as_str()),
        None => {
            let mut out: Vec<String> = Vec::new();
            let mut k: usize = 0;
            while k < requested.len()
                invariant
                    k <= requested@.len(),
                    out@.map_values(|s: String| s@) == requested@.take(k as int).map_values(|s: String| s@),
                decreases requested.len() - k,
            {
                let ghost before = out@.map_values(|s: String| s@);
                out.push(copy_str(requested[k].as_str()));
                assert(out@.map_values(|s: String| s@) =~= before.push(requested@[k as int]@));
                assert(requested@.take(k + 1).map_values(|s: String| s@) =~= requested@.take(k as int).map_values(
                    |s: String| s@,
                ).push(requested@[k as int]@));
                k += 1;
            }
            assert(requested@.take(requested@.len() as int) =~= requested@);
            out
        },
    }
}

/// The scope kept with the minted token: the resource server's echo, else the `IdP`'s,
/// else empty.
pub fn final_scope(token_scope: Option<String>, idp_scope: Option<String>) -> (r: String)
    ensures
        r@ == (match opt_chars(token_scope) {
            Some(s) => s,
            None => match opt_chars(idp_scope) {
                Some(s) => s,
                None => Seq::empty(),
            },
        }),
{
    match token_scope {
        Some(s) => s,
        None => match idp_scope {
            Some(s) => s,
            None => String::new(),
        },
    }
}

// ---------------------------------------------------------------- the forms

/// The inputs of one mint.
pub struct EmaMintInput {
    /// `IdP` token endpoint (RFC 8693).
    pub idp_token_url: String,
    /// Client id at the `IdP`.
    pub idp_client_id: String,
    /// Optional `IdP` client secret.
    pub idp_client_secret: Option<String>,
    /// Identity assertion from enterprise SSO.
    pub subject_token: String,
    /// RFC 8693 `subject_token_type`.
    pub subject_token_type: String,
    /// Resource AS token endpoint.
    pub resource_token_url: String,
    /// Resource AS issuer (`aud` of the ID-JAG).
    pub audience: String,
    /// Resource AS client id.
    pub resource_client_id: String,
    /// Optional resource-AS client secret.
    pub resource_client_secret: Option<String>,
    /// Optional RFC 8707 resource indicator.
    pub resource: Option<String>,
    /// Requested scopes.
    pub scopes: Vec<String>,
}

/// The texts of form fields.
pub open spec fn form_texts(v: Seq<(String, String)>) -> Seq<(Seq<char>, Seq<char>)> {
    v.map_values(|p: (String, String)| (p.0@, p.1@))
}

/// Optional fields in order: each present one as a pair.
pub open spec fn opt_field(key: Seq<char>, v: Option<Seq<char>>) -> Seq<(Seq<char>, Seq<char>)> {
    match v {
        Some(x) => seq![(key, x)],
        None => Seq::empty(),
    }
}

/// Scopes joined with single spaces.
pub open spec fn joined_scopes(scopes: Seq<Seq<char>>) -> Seq<char>
    decreases scopes.len(),
{
    if scopes.len() == 0 {
        Seq::empty()
    } else if scopes.len() == 1 {
        scopes[0]
    } else {
        joined_scopes(scopes.drop_last()) + " "@ + scopes.last()
    }
}

/// The `scope` field when there are scopes.
pub open spec fn scope_field(scopes: Seq<Seq<char>>) -> Seq<(Seq<char>, Seq<char>)> {
    if scopes.len() == 0 {
        Seq::empty()
    } else {
        seq![("scope"@, joined_scopes(scopes))]
    }
}

/// Scopes joined with single spaces.
pub fn join_scopes(scopes: &Vec<String>) -> (r: String)
    ensures
        r@ == joined_scopes(scopes@.map_values(|s: String| s@)),
{
    let ghost sv = scopes@.map_values(|s: String| s@);
    let mut out = String::new();
    let mut k: usize = 0;
    while k < scopes.len()
        invariant
            k <= scopes@.len(),
            sv == scopes@.map_values(|s: String| s@),
            out@ == joined_scopes(sv.take(k as int)),
        decreases scopes.len() - k,
    {
        if k > 0 {
            push_str(&mut out, " ");
        }
        push_str(&mut out, scopes[k].as_str());
        proof {
            assert(sv.take(k + 1).drop_last() =~= sv.take(k as int));
            if k == 0 {
                assert(joined_scopes(sv.take(0)) =~= Seq::<char>::empty());
            }
        }
        k += 1;
    }
    assert(sv.take(sv.len() as int) =~= sv);
    out
}

fn push_field(form: &mut Vec<(String, String)>, key: &str, value: &str)
    ensures
        form_texts(final(form)@) == form_texts(old(form)@).push((key@, value@)),
{
    let ghost before = form_texts(form@);
    form.push((copy_str(key), copy_str(value)));
    assert(form_texts(form@) =~= before.push((key@, value@)));
}

fn push_opt(form: &mut Vec<(String, String)>, key: &str, value: &Option<String>)
    ensures
        form_texts(final(form)@) == form_texts(old(form)@) + opt_field(key@, opt_chars(*value)),
{
    match value {
        Some(v) => push_field(form, key, v.as_str()),
        None => {
            assert(form_texts(form@) =~= form_texts(form@) + Seq::<(Seq<char>, Seq<char>)>::empty());
        },
    }
}

fn push_scopes(form: &mut Vec<(String, String)>, scopes: &Vec<String>)
    ensures
        form_texts(final(form)@) == form_texts(old(form)@) + scope_field(scopes@.map_values(|s: String| s@)),
{
    if scopes.len() > 0 {
        let j = join_scopes(scopes);
        push_field(form, "scope", j.as_str());
    } else {
        assert(form_texts(form@) =~= form_texts(form@) + Seq::<(Seq<char>, Seq<char>)>::empty());
    }
}

/// The RFC 8693 exchange form posted to the `IdP`.
pub fn exchange_form(input: &EmaMintInput) -> (r: Vec<(String, String)>)
    ensures
        form_texts(r@) == seq![
            ("grant_type"@, TOKEN_EXCHANGE_GRANT_TYPE@),
            ("requested_token_type"@, ID_JAG_TOKEN_TYPE@),
            ("audience"@, input.audience@),
            ("subject_token"@, input.subject_token@),
            ("subject_token_type"@, input.subject_token_type@),
            ("client_id"@, input.idp_client_id@),
        ] + opt_field("client_secret"@, opt_chars(input.idp_client_secret)) + opt_field(
            "resource"@,
            opt_chars(input.resource),
        ) + scope_field(input.scopes@.map_values(|s: String| s@)),
{
    let mut form: Vec<(String, String)> = Vec::new();
    push_field(&mut form, "grant_type", TOKEN_EXCHANGE_GRANT_TYPE);
    push_field(&mut form, "requested_token_type", ID_JAG_TOKEN_TYPE);
    push_field(&mut form, "audience", input.audience.as_str());
    push_field(&mut form, "subject_token", input.subject_token.as_str());
    push_field(&mut form, "subject_token_type", input.subject_token_type.as_str());
    push_field(&mut form, "client_id", input.idp_client_id.as_str());
    push_opt(&mut form, "client_secret", &input.idp_client_secret);
    push_opt(&mut form, "resource", &input.resource);
    push_scopes(&mut form, &input.scopes);
    form
}

/// The RFC 7523 redemption form posted to the resource server.
pub fn redeem_form(input: &EmaMintInput, assertion: &str, scopes: &Vec<String>) -> (r: Vec<(String, String)>)
    ensures
        form_texts(r@) == seq![
            ("grant_type"@, JWT_BEARER_GRANT_TYPE@),
            ("assertion"@, assertion@),
            ("client_id"@, input.resource_client_id@),
        ] + opt_field("client_secret"@, opt_chars(input.resource_client_secret)) + opt_field(
            "resource"@,
            opt_chars(input.resource),
        ) + scope_field(scopes@.map_values(|s: String| s@)),
{
    let mut form: Vec<(String, String)> = Vec::new();
    push_field(&mut form, "grant_type", JWT_BEARER_GRANT_TYPE);
    push_field(&mut form, "assertion", assertion);
    push_field(&mut form, "client_id", input.resource_client_id.as_str());
    push_opt(&mut form, "client_secret", &input.resource_client_secret);
    push_opt(&mut form, "resource", &input.resource);
    push_scopes(&mut form, scopes);
    form
}

/// The metadata EMA reads from an authorization server.
pub struct AuthorizationServerMetadata {
    /// Issuer identifier.
    pub issuer: String,
    /// Token endpoint.
    pub token_endpoint: String,
    /// Advertised grant profiles. Empty when the field is absent.
    pub authorization_grant_profiles_supported: Vec<String>,
}

/// Points the mint at the resource server the metadata names (its token endpoint, its
/// issuer as audience) when it advertises the ID-JAG profile; else the refusal that may
/// fall back.
pub fn rebind(input: EmaMintInput, metadata: &AuthorizationServerMetadata) -> (r: Result<EmaMintInput, EmaError>)
    ensures
        !(exists|i: int| 0 <= i < metadata.authorization_grant_profiles_supported@.len()
            && #[trigger] metadata.authorization_grant_profiles_supported@[i]@ == ID_JAG_GRANT_PROFILE@) ==> (r matches Err(
            EmaError::GrantProfileUnsupported { issuer, advertised },
        ) && issuer@ == metadata.issuer@ && advertised@.map_values(|s: String| s@)
            == metadata.authorization_grant_profiles_supported@.map_values(|s: String| s@)),
        (exists|i: int| 0 <= i < metadata.authorization_grant_profiles_supported@.len()
            && #[trigger] metadata.authorization_grant_profiles_supported@[i]@ == ID_JAG_GRANT_PROFILE@) ==> (r matches Ok(
            x,
        ) && x.resource_token_url@ == metadata.token_endpoint@ && x.audience@ == metadata.issuer@
            && x.idp_token_url == input.idp_token_url && x.subject_token == input.subject_token
            && x.resource_client_id == input.resource_client_id && x.scopes == input.scopes),
{
    if !supports_id_jag_grant_profile(metadata.authorization_grant_profiles_supported.as_slice()) {
        let ps = &metadata.authorization_grant_profiles_supported;
        let mut advertised: Vec<String> = Vec::new();
        let mut k: usize = 0;
        while k < ps.len()
            invariant
                k <= ps@.len(),
                advertised@.map_values(|s: String| s@) == ps@.take(k as int).map_values(|s: String| s@),
            decreases ps.len() - k,
        {
            let ghost before = advertised@.map_values(|s: String| s@);
            advertised.push(copy_str(ps[k].as_str()));
            assert(advertised@.map_values(|s: String| s@) =~= before.push(ps@[k as int]@));
            assert(ps@.take(k + 1).map_values(|s: String| s@) =~= ps@.take(k as int).map_values(|s: String| s@).push(
                ps@[k as int]@,
            ));
            k += 1;
        }
        assert(ps@.take(ps@.len() as int) =~= ps@);
        return Err(EmaError::GrantProfileUnsupported { issuer: copy_str(metadata.issuer.as_str()), advertised });
    }
    Ok(
        EmaMintInput {
            resource_token_url: copy_str(metadata.token_endpoint.as_str()),
            audience: copy_str(metadata.issuer.as_str()),
            ..input
        },
    )
}

/// The metadata a discovery answer gives: it must name the issuer and the token endpoint;
/// the profiles are the string entries of `authorization_grant_profiles_supported`.
pub fn metadata_from_body(body: &JsonValue) -> (r: Option<AuthorizationServerMetadata>)
    ensures
        match (str_member(*body, "issuer"@), str_member(*body, "token_endpoint"@)) {
            (Some(i), Some(t)) => (r matches Some(m) && m.issuer@ == i && m.token_endpoint@ == t
                && m.authorization_grant_profiles_supported@.map_values(|s: String| s@) == (match json_get(
                *body,
                "authorization_grant_profiles_supported"@,
            ) {
                Some(JsonValue::Array(items)) => string_items(items@),
                _ => Seq::empty(),
            })),
            _ => r is None,
        },
{
    let issuer = match get(body, "issuer") {
        Some(JsonValue::Text(i)) => copy_str(i.as_str()),
        _ => return None,
    };
    let token_endpoint = match get(body, "token_endpoint") {
        Some(JsonValue::Text(t)) => copy_str(t.as_str()),
        _ => return None,
    };
    let mut profiles: Vec<String> = Vec::new();
    if let Some(JsonValue::Array(items)) = get(body, "authorization_grant_profiles_supported") {
        let mut k: usize = 0;
        assert(profiles@.map_values(|s: String| s@) =~= string_items(items@.take(0)));
        while k < items.len()
            invariant
                k <= items@.len(),
                profiles@.map_values(|s: String| s@) == string_items(items@.take(k as int)),
            decreases items.len() - k,
        {
            proof {
                assert(items@.take(k + 1).drop_last() =~= items@.take(k as int));
            }
            let ghost before = profiles@.map_values(|s: String| s@);
            if let JsonValue::Text(s) = &items[k] {
                profiles.push(copy_str(s.as_str()));
                assert(profiles@.map_values(|s: String| s@) =~= before.push(s@));
            }
            k += 1;
        }
        assert(items@.take(items@.len() as int) =~= items@);
    } else {
        assert(profiles@.map_values(|s: String| s@) =~= Seq::<Seq<char>>::empty());
    }
    Some(AuthorizationServerMetadata { issuer, token_endpoint, authorization_grant_profiles_supported: profiles })
}

/// The string items of a list, in order.
pub open spec fn string_items(items: Seq<JsonValue>) -> Seq<Seq<char>>
    decreases items.len(),
{
    if items.len() == 0 {
        Seq::empty()
    } else {
        let rest = string_items(items.drop_last());
        match items.last() {
            JsonValue::Text(s) => rest.push(s@),
            _ => rest,
        }
    }
}

/// Whether the rollout switch (`EXECUTOR_EMA`) leaves enterprise-managed authorization on:
/// unset, or anything but `0`, `false`, `off`, `disabled` (ASCII case ignored).
pub fn rollout_enabled(value: Option<&str>) -> (r: bool)
    ensures
        r == (match value {
            None => true,
            Some(v) => {
                let l = spec_lower(v@);
                !(l == "0"@ || l == "false"@ || l == "off"@ || l == "disabled"@)
            },
        }),
{
    match value {
        None => true,
        Some(v) => {
            let vc = to_chars(v);
            let lc = lower_chars(&vc);
            let l = from_chars(&lc);
            !(str_eq(l.as_str(), "0") || str_eq(l.as_str(), "false") || str_eq(l.as_str(), "off") || str_eq(
                l.as_str(),
                "disabled",
            ))
        },
    }
}

// ---------------------------------------------------------------- discovery URLs

/// What `url::Url::parse` makes of `s`: the origin's ASCII serialization and the path.
pub uninterp spec fn url_origin_path(s: Seq<char>) -> Option<(Seq<char>, Seq<char>)>;

/// `url::Url::parse(s)`, then `origin().ascii_serialization()` and `path()`.
#[verifier::external_body]
fn parse_origin_path(s: &str) -> (r: Option<(String, String)>)
    ensures
        match r {
            Some(p) => url_origin_path(s@) == Some((p.0@, p.1@)),
            None => url_origin_path(s@) is None,
        },
{
    url::Url::parse(s).ok().map(|u| (u.origin().ascii_serialization(), u.path().to_owned()))
}

/// A path worth scoping the well-known URL with: not empty and not `/`.
pub open spec fn scoped(path: Seq<char>) -> bool {
    path.len() > 0 && path != "/"@
}

/// RFC 9728 well-known URLs for a protected resource: path-scoped first (when the URL has
/// a path), then the origin's.
pub open spec fn spec_resource_metadata_urls(resource_url: Seq<char>) -> Seq<Seq<char>> {
    match url_origin_path(resource_url) {
        None => Seq::empty(),
        Some(op) => {
            let path = trim_end_char(op.1, '/');
            let base = op.0 + "/.well-known/oauth-protected-resource"@;
            if scoped(path) {
                seq![base + path, base]
            } else {
                seq![base]
            }
        },
    }
}

fn push_line(out: &mut Vec<String>, s: String)
    ensures
        final(out)@.map_values(|x: String| x@) == old(out)@.map_values(|x: String| x@).push(s@),
{
    let ghost before = out@.map_values(|x: String| x@);
    out.push(s);
    assert(out@.map_values(|x: String| x@) =~= before.push(s@));
}

fn is_scoped(path: &str) -> (r: bool)
    ensures
        r == scoped(path@),
{
    proof {
        reveal_strlit("");
        reveal_strlit("/");
    }
    let empty = str_eq(path, "");
    proof {
        assert(path@.len() == 0 ==> path@ =~= ""@);
    }
    !empty && !str_eq(path, "/")
}

/// The RFC 9728 well-known URLs of a protected resource.
pub fn resource_metadata_urls(resource_url: &str) -> (r: Vec<String>)
    ensures
        r@.map_values(|x: String| x@) == spec_resource_metadata_urls(resource_url@),
{
    let mut urls: Vec<String> = Vec::new();
    let (origin, raw_path) = match parse_origin_path(resource_url) {
        Some(p) => p,
        None => {
            assert(urls@.map_values(|x: String| x@) =~= Seq::<Seq<char>>::empty());
            return urls;
        },
    };
    let path = trim_end_slashes(raw_path.as_str());
    let mut base = copy_str(origin.as_str());
    push_str(&mut base, "/.well-known/oauth-protected-resource");
    assert(urls@.map_values(|x: String| x@) =~= Seq::<Seq<char>>::empty());
    if is_scoped(path.as_str()) {
        let mut scoped_url = copy_str(base.as_str());
        push_str(&mut scoped_url, path.as_str());
        push_line(&mut urls, scoped_url);
    }
    push_line(&mut urls, base);
    urls
}

/// `{origin}/.well-known/{suffix}`, then the path when there is one.
pub open spec fn well_known(origin: Seq<char>, suffix: Seq<char>, path: Option<Seq<char>>) -> Seq<char> {
    origin + "/.well-known/"@ + suffix + match path {
        Some(p) => p,
        None => Seq::empty(),
    }
}

/// The RFC 8414 / OIDC metadata URLs tried for an issuer, in order.
pub open spec fn spec_metadata_candidates(issuer: Seq<char>) -> Seq<Seq<char>> {
    match url_origin_path(trim_end_char(issuer, '/')) {
        None => Seq::empty(),
        Some(op) => {
            let path = trim_end_char(op.1, '/');
            let p = if scoped(path) {
                Some(path)
            } else {
                None
            };
            let two = seq![
                well_known(op.0, "oauth-authorization-server"@, p),
                well_known(op.0, "openid-configuration"@, p),
            ];
            if scoped(path) {
                two.push(op.0 + path + "/.well-known/openid-configuration"@)
            } else {
                two
            }
        },
    }
}

/// The metadata URLs tried for an issuer.
pub fn metadata_candidates(issuer: &str) -> (r: Vec<String>)
    ensures
        r@.map_values(|x: String| x@) == spec_metadata_candidates(issuer@),
{
    let mut urls: Vec<String> = Vec::new();
    assert(urls@.map_values(|x: String| x@) =~= Seq::<Seq<char>>::empty());
    let trimmed = trim_end_slashes(issuer);
    let (origin, raw_path) = match parse_origin_path(trimmed.as_str()) {
        Some(p) => p,
        None => return urls,
    };
    let path = trim_end_slashes(raw_path.as_str());
    let has_path = is_scoped(path.as_str());
    let mut a = copy_str(origin.as_str());
    push_str(&mut a, "/.well-known/oauth-authorization-server");
    let mut b = copy_str(origin.as_str());
    push_str(&mut b, "/.well-known/openid-configuration");
    if has_path {
        push_str(&mut a, path.as_str());
        push_str(&mut b, path.as_str());
    }
    proof {
        reveal_strlit("/.well-known/");
        reveal_strlit("oauth-authorization-server");
        reveal_strlit("openid-configuration");
        reveal_strlit("/.well-known/oauth-authorization-server");
        reveal_strlit("/.well-known/openid-configuration");
    }
    let ghost p = if scoped(path@) {
        Some(path@)
    } else {
        None::<Seq<char>>
    };
    assert(a@ =~= well_known(origin@, "oauth-authorization-server"@, p));
    assert(b@ =~= well_known(origin@, "openid-configuration"@, p));
    push_line(&mut urls, a);
    push_line(&mut urls, b);
    if has_path {
        let mut c = copy_str(origin.as_str());
        push_str(&mut c, path.as_str());
        push_str(&mut c, "/.well-known/openid-configuration");
        push_line(&mut urls, c);
    }
    urls
}

// ---------------------------------------------------------------- inputs from values

/// The credential value under `key` (keys are unique).
pub open spec fn value_of(values: Seq<(String, String)>, key: Seq<char>) -> Option<Seq<char>>
    decreases values.len(),
{
    if values.len() == 0 {
        None
    } else if values[0].0@ == key {
        Some(values[0].1@)
    } else {
        value_of(values.drop_first(), key)
    }
}

/// A value with something in it: trimmed, when not blank.
pub open spec fn nonempty(v: Option<Seq<char>>) -> Option<Seq<char>> {
    match v {
        Some(s) => if spec_trim(s).len() > 0 {
            Some(spec_trim(s))
        } else {
            None
        },
        None => None,
    }
}

pub(crate) fn get_value<'a>(values: &'a Vec<(String, String)>, key: &str) -> (r: Option<&'a String>)
    ensures
        match r {
            Some(v) => value_of(values@, key@) == Some(v@),
            None => value_of(values@, key@) is None,
        },
{
    let mut k: usize = 0;
    assert(values@.skip(0) =~= values@);
    while k < values.len()
        invariant
            k <= values@.len(),
            value_of(values@, key@) == value_of(values@.skip(k as int), key@),
        decreases values.len() - k,
    {
        if str_eq(values[k].0.as_str(), key) {
            return Some(&values[k].1);
        }
        proof {
            assert(values@.skip(k as int).drop_first() =~= values@.skip(k + 1));
        }
        k += 1;
    }
    None
}

fn nonempty_exec(v: Option<&String>) -> (r: Option<String>)
    ensures
        opt_chars(r) == nonempty(
            match v {
                Some(s) => Some(s@),
                None => None,
            },
        ),
{
    match v {
        Some(s) => {
            let t = trim(s.as_str());
            proof {
                reveal_strlit("");
                assert(t@.len() == 0 ==> t@ =~= ""@);
            }
            if str_eq(t.as_str(), "") {
                None
            } else {
                Some(t)
            }
        },
        None => None,
    }
}

fn copy_value(v: Option<&String>) -> (r: Option<String>)
    ensures
        opt_chars(r) == (match v {
            Some(s) => Some(s@),
            None => None,
        }),
{
    match v {
        Some(s) => Some(copy_str(s.as_str())),
        None => None,
    }
}

/// The mint inputs a connection's credential values give, when it is fully wired: the
/// identity assertion, the `IdP` token URL and client id, the audience (else the issuer),
/// the resource client id and the resource token URL (the method's, else the value's),
/// each non-blank and trimmed; the secrets, resource and subject token type as given.
pub open spec fn mint_input_is(
    r: Option<EmaMintInput>,
    token_url: Option<Seq<char>>,
    scopes: Seq<String>,
    values: Seq<(String, String)>,
) -> bool {
    let subject = nonempty(value_of(values, "identity_assertion"@));
    let idp_url = nonempty(value_of(values, "idp_token_url"@));
    let idp_client = nonempty(value_of(values, "idp_client_id"@));
    let audience = nonempty(
        match value_of(values, "audience"@) {
            Some(a) => Some(a),
            None => value_of(values, "issuer"@),
        },
    );
    let client = nonempty(value_of(values, "client_id"@));
    let resource_url = nonempty(
        match token_url {
            Some(t) => Some(t),
            None => value_of(values, "token_url"@),
        },
    );
    if subject is Some && idp_url is Some && idp_client is Some && audience is Some && client is Some
        && resource_url is Some {
        r matches Some(x) && Some(x.subject_token@) == subject && Some(x.idp_token_url@) == idp_url && Some(
            x.idp_client_id@,
        ) == idp_client && Some(x.audience@) == audience && Some(x.resource_client_id@) == client && Some(
            x.resource_token_url@,
        ) == resource_url && opt_chars(x.idp_client_secret) == value_of(values, "idp_client_secret"@)
            && x.subject_token_type@ == (match value_of(values, "subject_token_type"@) {
            Some(t) => t,
            None => DEFAULT_SUBJECT_TOKEN_TYPE@,
        }) && opt_chars(x.resource_client_secret) == value_of(values, "client_secret"@) && opt_chars(
            x.resource,
        ) == value_of(values, "resource"@) && x.scopes@.map_values(|s: String| s@) == scopes.map_values(
            |s: String| s@,
        )
    } else {
        r is None
    }
}

/// The mint inputs of a connection whose method has `token_url` and `scopes`.
pub fn mint_input_from(token_url: Option<&str>, scopes: &Vec<String>, values: &Vec<(String, String)>) -> (r: Option<
    EmaMintInput,
>)
    ensures
        mint_input_is(
            r,
            match token_url {
                Some(t) => Some(t@),
                None => None,
            },
            scopes@,
            values@,
        ),
{
    let subject_token = nonempty_exec(get_value(values, "identity_assertion"))?;
    let idp_token_url = nonempty_exec(get_value(values, "idp_token_url"))?;
    let idp_client_id = nonempty_exec(get_value(values, "idp_client_id"))?;
    let audience_value = match get_value(values, "audience") {
        Some(a) => Some(a),
        None => get_value(values, "issuer"),
    };
    let audience = nonempty_exec(audience_value)?;
    let resource_client_id = nonempty_exec(get_value(values, "client_id"))?;
    let url_value = match token_url {
        Some(t) => Some(copy_str(t)),
        None => copy_value(get_value(values, "token_url")),
    };
    let resource_token_url = nonempty_exec(url_value.as_ref())?;
    let subject_token_type = match get_value(values, "subject_token_type") {
        Some(t) => copy_str(t.as_str()),
        None => copy_str(DEFAULT_SUBJECT_TOKEN_TYPE),
    };
    let mut copied: Vec<String> = Vec::new();
    let mut k: usize = 0;
    while k < scopes.len()
        invariant
            k <= scopes@.len(),
            copied@.map_values(|s: String| s@) == scopes@.take(k as int).map_values(|s: String| s@),
        decreases scopes.len() - k,
    {
        let ghost before = copied@.map_values(|s: String| s@);
        copied.push(copy_str(scopes[k].as_str()));
        assert(copied@.map_values(|s: String| s@) =~= before.push(scopes@[k as int]@));
        assert(scopes@.take(k + 1).map_values(|s: String| s@) =~= scopes@.take(k as int).map_values(|s: String| s@).push(
            scopes@[k as int]@,
        ));
        k += 1;
    }
    assert(scopes@.take(scopes@.len() as int) =~= scopes@);
    Some(
        EmaMintInput {
            idp_token_url,
            idp_client_id,
            idp_client_secret: copy_value(get_value(values, "idp_client_secret")),
            subject_token,
            subject_token_type,
            resource_token_url,
            audience,
            resource_client_id,
            resource_client_secret: copy_value(get_value(values, "client_secret")),
            resource: copy_value(get_value(values, "resource")),
            scopes: copied,
        },
    )
}

} // verus!
