use executor::auth::AuthMethod;
use executor::ema::{EmaError, EmaStep};
use executor::engine::ema::{
    exchange_failure, exchange_form, final_scope, granted_scopes, metadata_candidates,
    metadata_from_body, mint_input_from, oauth_error_from_body, parse_id_jag_body, rebind,
    redeem_form, redemption_failure, resource_metadata_urls, rfc6749_prefix, rollout_enabled,
    token_grant_from, AuthorizationServerMetadata, EmaMintInput,
};
use executor::engine::oauth::{
    access_token_from, authorization_pause, authorization_request, choose_method,
    client_credentials_form, code_form, credential_route, dcr_body, dcr_client_from, oauth_state,
    pkce_from, pkce_pair, token_needed, CredentialRoute,
};
use executor::error::ExecutorError;
use executor::execution::ExecutionId;
use executor::json::JsonValue;
use executor::outcome::{Outcome, PauseReason};

fn text(s: &str) -> JsonValue {
    JsonValue::Text(s.to_owned())
}

fn obj(members: Vec<(&str, JsonValue)>) -> JsonValue {
    JsonValue::Object(members.into_iter().map(|(k, v)| (k.to_owned(), v)).collect())
}

fn pairs(v: &[(&str, &str)]) -> Vec<(String, String)> {
    v.iter().map(|(a, b)| (a.to_string(), b.to_string())).collect()
}

fn input() -> EmaMintInput {
    EmaMintInput {
        idp_token_url: "https://idp.test/token".into(),
        idp_client_id: "mcp-client-at-idp".into(),
        idp_client_secret: None,
        subject_token: "sub-tok".into(),
        subject_token_type: "urn:ietf:params:oauth:token-type:access_token".into(),
        resource_token_url: "https://as.test/token".into(),
        audience: "https://as.test".into(),
        resource_client_id: "mcp-client-at-resource".into(),
        resource_client_secret: Some("rs".into()),
        resource: None,
        scopes: vec!["read".into(), "write".into()],
    }
}

#[test]
fn prm_urls_are_path_then_origin() {
    let urls = resource_metadata_urls("https://mcp.example/v1/sse");
    assert_eq!(
        urls,
        vec![
            "https://mcp.example/.well-known/oauth-protected-resource/v1/sse".to_owned(),
            "https://mcp.example/.well-known/oauth-protected-resource".to_owned(),
        ]
    );
    assert_eq!(
        resource_metadata_urls("https://mcp.example/"),
        vec!["https://mcp.example/.well-known/oauth-protected-resource".to_owned()]
    );
    assert!(resource_metadata_urls("not a url").is_empty());
}

#[test]
fn metadata_candidates_insert_well_known_before_path() {
    assert_eq!(
        metadata_candidates("https://as.test/tenant/"),
        vec![
            "https://as.test/.well-known/oauth-authorization-server/tenant".to_owned(),
            "https://as.test/.well-known/openid-configuration/tenant".to_owned(),
            "https://as.test/tenant/.well-known/openid-configuration".to_owned(),
        ]
    );
    assert_eq!(
        metadata_candidates("https://as.test"),
        vec![
            "https://as.test/.well-known/oauth-authorization-server".to_owned(),
            "https://as.test/.well-known/openid-configuration".to_owned(),
        ]
    );
}

#[test]
fn rfc6749_codes_are_recognised_at_the_start() {
    assert_eq!(rfc6749_prefix("invalid_grant"), Some("invalid_grant"));
    assert_eq!(rfc6749_prefix("  invalid_scope: too wide"), Some("invalid_scope"));
    assert_eq!(rfc6749_prefix("invalid_client bad secret"), Some("invalid_client"));
    assert_eq!(rfc6749_prefix("invalid_grantee"), None);
    assert_eq!(rfc6749_prefix("nothing"), None);
}

#[test]
fn oauth_errors_from_error_or_errors() {
    let body = obj(vec![("error", text("access_denied")), ("error_description", text("no"))]);
    assert_eq!(oauth_error_from_body(&body, "fb"), (Some("access_denied".into()), "no".into()));
    let body = obj(vec![("errors", JsonValue::Array(vec![JsonValue::Null, text("x"), text("invalid_target: aud")]))]);
    assert_eq!(oauth_error_from_body(&body, "fb"), (Some("invalid_target".into()), "invalid_target: aud".into()));
    assert_eq!(oauth_error_from_body(&obj(vec![]), "fb"), (None, "fb".into()));
}

#[test]
fn policy_denied_does_not_fallback() {
    let denied = exchange_failure(&obj(vec![("error", text("access_denied"))]));
    assert_eq!(denied, EmaError::PolicyDenied { error: "access_denied".into(), detail: "access_denied".into() });
    assert!(!denied.may_fallback());
    let dead = exchange_failure(&obj(vec![("error", text("invalid_grant")), ("error_description", text("expired"))]));
    assert_eq!(dead, EmaError::SubjectTokenRejected { detail: "expired".into() });
    let down = exchange_failure(&obj(vec![]));
    assert_eq!(
        down,
        EmaError::UpstreamUnavailable {
            step: EmaStep::TokenExchange,
            detail: "ID-JAG token exchange was rejected".into()
        }
    );
    let refused = redemption_failure(&obj(vec![("error", text("invalid_client"))]));
    assert_eq!(
        refused,
        EmaError::RedemptionRejected { error: Some("invalid_client".into()), detail: "invalid_client".into() }
    );
}

#[test]
fn id_jag_answer_must_have_its_types() {
    let good = obj(vec![
        ("access_token", text("jag")),
        ("issued_token_type", text("urn:ietf:params:oauth:token-type:id-jag")),
        ("token_type", text("N_A")),
        ("scope", text("read")),
    ]);
    let g = parse_id_jag_body(&good).ok().unwrap();
    assert_eq!(g.assertion, "jag");
    assert_eq!(g.scope.as_deref(), Some("read"));
    let bearer = obj(vec![
        ("access_token", text("jag")),
        ("issued_token_type", text("urn:ietf:params:oauth:token-type:id-jag")),
        ("token_type", text("Bearer")),
    ]);
    match parse_id_jag_body(&bearer) {
        Err(EmaError::UpstreamUnavailable { step: EmaStep::TokenExchange, detail }) => {
            assert_eq!(detail, "ID-JAG token exchange returned token_type \"Bearer\", expected \"N_A\"");
        }
        _ => panic!("expected refusal"),
    }
    match parse_id_jag_body(&obj(vec![("access_token", text("jag"))])) {
        Err(EmaError::UpstreamUnavailable { detail, .. }) => assert_eq!(
            detail,
            "ID-JAG token exchange returned issued_token_type \"\", expected \"urn:ietf:params:oauth:token-type:id-jag\""
        ),
        _ => panic!("expected refusal"),
    }
    assert!(parse_id_jag_body(&obj(vec![])).is_err());
}

#[test]
fn idp_narrowed_scope_is_what_redemption_asks_for() {
    let requested = vec!["read".to_string(), "write".to_string()];
    assert_eq!(granted_scopes(&Some(" read  ".into()), &requested), vec!["read".to_string()]);
    assert_eq!(granted_scopes(&None, &requested), requested);
    assert_eq!(final_scope(Some("a".into()), Some("b".into())), "a");
    assert_eq!(final_scope(None, Some("b".into())), "b");
    assert_eq!(final_scope(None, None), "");
    let (token, scope) = token_grant_from(&obj(vec![("access_token", text("at"))])).ok().unwrap();
    assert_eq!(token, "at");
    assert!(scope.is_none());
    assert!(token_grant_from(&obj(vec![])).is_err());
}

#[test]
fn exchange_and_redeem_forms() {
    let i = input();
    assert_eq!(
        exchange_form(&i),
        pairs(&[
            ("grant_type", "urn:ietf:params:oauth:grant-type:token-exchange"),
            ("requested_token_type", "urn:ietf:params:oauth:token-type:id-jag"),
            ("audience", "https://as.test"),
            ("subject_token", "sub-tok"),
            ("subject_token_type", "urn:ietf:params:oauth:token-type:access_token"),
            ("client_id", "mcp-client-at-idp"),
            ("scope", "read write"),
        ])
    );
    assert_eq!(
        redeem_form(&i, "jag", &vec!["read".into()]),
        pairs(&[
            ("grant_type", "urn:ietf:params:oauth:grant-type:jwt-bearer"),
            ("assertion", "jag"),
            ("client_id", "mcp-client-at-resource"),
            ("client_secret", "rs"),
            ("scope", "read"),
        ])
    );
}

#[test]
fn discovery_reads_grant_profile() {
    let body = obj(vec![
        ("issuer", text("https://as.test")),
        ("token_endpoint", text("https://as.test/t")),
        (
            "authorization_grant_profiles_supported",
            JsonValue::Array(vec![text("urn:ietf:params:oauth:grant-profile:id-jag"), JsonValue::Null]),
        ),
    ]);
    let m = metadata_from_body(&body).unwrap();
    assert_eq!(m.issuer, "https://as.test");
    assert_eq!(m.authorization_grant_profiles_supported, vec!["urn:ietf:params:oauth:grant-profile:id-jag".to_string()]);
    let rebound = rebind(input(), &m).ok().unwrap();
    assert_eq!(rebound.resource_token_url, "https://as.test/t");
    assert_eq!(rebound.audience, "https://as.test");
    assert!(metadata_from_body(&obj(vec![("issuer", text("x"))])).is_none());
}

#[test]
fn unsupported_profile_is_the_fallback() {
    let m = AuthorizationServerMetadata {
        issuer: "https://as.test".into(),
        token_endpoint: "https://as.test/t".into(),
        authorization_grant_profiles_supported: vec!["other".into()],
    };
    match rebind(input(), &m) {
        Err(e) => {
            assert!(e.may_fallback());
            assert_eq!(
                e,
                EmaError::GrantProfileUnsupported { issuer: "https://as.test".into(), advertised: vec!["other".into()] }
            );
        }
        Ok(_) => panic!("expected unsupported"),
    }
}

#[test]
fn mint_inputs_from_credential_values() {
    let values = pairs(&[
        ("audience", " https://as.test "),
        ("client_id", "rc"),
        ("identity_assertion", "sub"),
        ("idp_client_id", "ic"),
        ("idp_token_url", "https://idp.test/token"),
    ]);
    let i = mint_input_from(Some(" https://as.test/token "), &vec!["read".into()], &values).unwrap();
    assert_eq!(i.audience, "https://as.test");
    assert_eq!(i.resource_token_url, "https://as.test/token");
    assert_eq!(i.subject_token_type, "urn:ietf:params:oauth:token-type:access_token");
    assert_eq!(i.scopes, vec!["read".to_string()]);
    assert!(mint_input_from(None, &vec![], &values).is_none());
    let blank = pairs(&[("audience", " "), ("issuer", "https://as.test")]);
    assert!(mint_input_from(Some("u"), &vec![], &blank).is_none());
    assert!(rollout_enabled(None));
    assert!(!rollout_enabled(Some("OFF")));
    assert!(rollout_enabled(Some("yes")));
}

#[test]
fn pkce_is_s256_shaped() {
    let (verifier, challenge) = pkce_pair(4242);
    assert!(verifier.len() >= 43, "{verifier}");
    assert!(!challenge.contains('+') && !challenge.contains('/'));
    let (other, _) = pkce_pair(4242);
    assert_ne!(verifier, other);
}

#[test]
fn authorize_url_includes_pkce() {
    let url = authorization_request(
        "https://auth.example/authorize",
        "cid",
        "http://127.0.0.1/cb",
        &vec!["read".into()],
        "st",
        "chal",
    );
    assert!(url.contains("code_challenge=chal"));
    assert!(url.contains("client_id=cid"));
    assert!(url.contains("scope=read"));
    let raw = authorization_request("relative/path", "c d", "r", &vec![], "s", "x");
    assert_eq!(
        raw,
        "relative/path?response_type=code&client_id=c+d&redirect_uri=r&state=s&code_challenge=x&code_challenge_method=S256"
    );
}

#[test]
fn token_endpoint_answers() {
    let ok = obj(vec![("access_token", text("at"))]);
    assert_eq!(access_token_from("oauth token", true, "200 OK", &ok).ok().unwrap(), "at");
    match access_token_from("oauth token", true, "200 OK", &obj(vec![])) {
        Err(ExecutorError::Plugin(m)) => assert_eq!(m, "oauth token response missing access_token"),
        _ => panic!("expected refusal"),
    }
    match access_token_from("oauth code", true, "200 OK", &obj(vec![])) {
        Err(ExecutorError::Plugin(m)) => assert_eq!(m, "oauth code missing access_token"),
        _ => panic!("expected refusal"),
    }
    match access_token_from("oauth token", false, "401 Unauthorized", &obj(vec![("error", text("x"))])) {
        Err(ExecutorError::Plugin(m)) => assert_eq!(m, "oauth token HTTP 401 Unauthorized: {\"error\":\"x\"}"),
        _ => panic!("expected refusal"),
    }
    assert_eq!(
        client_credentials_form("c", "s", &vec![]),
        pairs(&[("grant_type", "client_credentials"), ("client_id", "c"), ("client_secret", "s")])
    );
    assert_eq!(code_form("cd", "r", "c", "v")[4], ("code_verifier".to_string(), "v".to_string()));
}

#[test]
fn dcr_reads_client_id() {
    let body = dcr_body("http://127.0.0.1/cb");
    assert_eq!(
        body,
        obj(vec![
            ("client_name", text("executor")),
            ("grant_types", JsonValue::Array(vec![text("authorization_code"), text("refresh_token")])),
            ("redirect_uris", JsonValue::Array(vec![text("http://127.0.0.1/cb")])),
            ("response_types", JsonValue::Array(vec![text("code")])),
            ("token_endpoint_auth_method", text("none")),
        ])
    );
    let c = dcr_client_from(true, "201 Created", &obj(vec![("client_id", text("cid"))])).ok().unwrap();
    assert_eq!(c.client_id, "cid");
    assert!(c.client_secret.is_none());
    assert!(dcr_client_from(true, "200 OK", &obj(vec![])).is_err());
}

#[test]
fn connection_token_routes() {
    let mut m = AuthMethod::bearer();
    m.kind = executor::auth::AuthKind::Oauth;
    m.id = "oauth".into();
    m.authorization_url = Some("https://auth.test/a".into());
    let methods = vec![AuthMethod::bearer(), m];
    assert_eq!(choose_method(&methods, "oauth"), Some(1));
    assert_eq!(choose_method(&methods, "unknown"), Some(1));
    let oauth = &methods[1];
    assert!(token_needed(oauth, &pairs(&[("token", "")])));
    assert!(!token_needed(oauth, &pairs(&[("token", "t")])));
    assert!(!token_needed(&methods[0], &vec![]));
    match credential_route(oauth, &pairs(&[("client_id", "c"), ("client_secret", "s"), ("token_url", "https://t")])) {
        Ok(CredentialRoute::ClientCredentials { token_url, client_id, client_secret }) => {
            assert_eq!((token_url.as_str(), client_id.as_str(), client_secret.as_str()), ("https://t", "c", "s"));
        }
        _ => panic!("expected client credentials"),
    }
    match credential_route(oauth, &pairs(&[("client_id", "c")])) {
        Ok(CredentialRoute::AuthorizationCode { authorization_url, client_id }) => {
            assert_eq!(authorization_url, "https://auth.test/a");
            assert_eq!(client_id, "c");
        }
        _ => panic!("expected authorization code"),
    }
    assert!(matches!(
        credential_route(oauth, &vec![]),
        Err(ExecutorError::CredentialResolution(ref m)) if m == "oauth authorization-code needs client_id"
    ));
    let id = ExecutionId::new("exec_1").unwrap();
    assert_eq!(oauth_state("ver", &id), "ver:exec_1");
    match authorization_pause(&id, "https://auth.test/a?x".into(), 10, 5) {
        Outcome::Paused { execution } => {
            assert_eq!(execution.expires_at_ms, 15);
            assert!(matches!(execution.reason, PauseReason::Auth { ref url, .. } if url.as_deref() == Some("https://auth.test/a?x")));
        }
        _ => panic!("expected pause"),
    }
}

#[test]
fn pkce_from_drawn_bytes() {
    let raw = [0_u8; 32];
    let (verifier, challenge) = pkce_from(Some(&raw[..]), 1000, 42);
    assert_eq!(verifier, "AAAAAAAAAAAAAAAAAAAAAAAAAAAAAAAAAAAAAAAAAAA");
    assert_eq!(challenge, "DwBzhbb51LfusnSGBa_hqYSgo7-j8BTQnip4TOnlzRo");
}

#[test]
fn pkce_from_clock_and_process() {
    let (verifier, challenge) = pkce_from(None, 1000, 42);
    assert_eq!(verifier, "zr1HfAKfUEPTDZb1rFVcq9s2qvRlnAx4y6R-2bpq6kg");
    assert_eq!(challenge, "p8ieU4x7uPrAwu_WIaedO1rBhvYKmp7hVQBPR0OMhVA");
}
