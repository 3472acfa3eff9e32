use executor::json::JsonValue;
use executor::scope::{
    detect_insufficient_scope, tool_error_from_http, InsufficientScope, OAUTH_SCOPE_INSUFFICIENT,
};
use executor::text::split_whitespace;
use executor::www_authenticate::parse_challenges;

fn text(s: &str) -> JsonValue {
    JsonValue::Text(s.to_owned())
}

fn num(s: &str) -> JsonValue {
    JsonValue::Number(s.to_owned())
}

fn obj(members: Vec<(&str, JsonValue)>) -> JsonValue {
    JsonValue::Object(members.into_iter().map(|(k, v)| (k.to_owned(), v)).collect())
}

fn headers(value: &str) -> Vec<(String, String)> {
    vec![("www-authenticate".into(), value.into())]
}

fn detected(body: Option<&JsonValue>, header: Option<&str>) -> Option<InsufficientScope> {
    let hdrs: Vec<(String, String)> = header.map(headers).unwrap_or_default();
    detect_insufficient_scope(body, &hdrs)
}

fn scopes(required: &[&str]) -> InsufficientScope {
    InsufficientScope {
        required_scopes: required.iter().map(|s| (*s).to_owned()).collect(),
    }
}

#[test]
fn malformed_returns_none() {
    assert!(parse_challenges("Bearer error=\"insufficient_scope").is_none());
}

#[test]
fn google_error_info() {
    let body = obj(vec![(
        "error",
        obj(vec![
            ("code", num("403")),
            ("message", text("Request had insufficient authentication scopes.")),
            ("status", text("PERMISSION_DENIED")),
            (
                "details",
                JsonValue::Array(vec![obj(vec![
                    ("@type", text("type.googleapis.com/google.rpc.ErrorInfo")),
                    ("reason", text("ACCESS_TOKEN_SCOPE_INSUFFICIENT")),
                    ("domain", text("googleapis.com")),
                    ("metadata", obj(vec![("service", text("drive.googleapis.com"))])),
                ])]),
            ),
        ]),
    )]);
    assert_eq!(detected(Some(&body), None), Some(scopes(&[])));
}

#[test]
fn rfc6750_error_body() {
    assert_eq!(
        detected(Some(&obj(vec![("error", text("insufficient_scope"))])), None),
        Some(scopes(&[]))
    );
}

#[test]
fn challenge_scope_list() {
    assert_eq!(
        detected(
            None,
            Some(r#"Bearer realm="example", error="insufficient_scope", scope="files.read files.meta""#),
        ),
        Some(scopes(&["files.read", "files.meta"]))
    );
}

#[test]
fn json_text_body() {
    assert_eq!(
        detected(Some(&text("{\"error\":\"insufficient_scope\"}")), None),
        Some(scopes(&[]))
    );
}

#[test]
fn non_json_text_never_classifies() {
    assert_eq!(
        detected(Some(&text("Proxy note: error=insufficient_scope was returned upstream")), None),
        None
    );
    assert_eq!(
        detected(
            Some(&text(r#"The docs show {"error":"insufficient_scope"} as an example response"#)),
            None
        ),
        None
    );
}

#[test]
fn quoted_description_does_not_count() {
    assert_eq!(
        detected(
            None,
            Some(r#"Bearer error_description="Example: error=insufficient_scope for missing grants""#),
        ),
        None
    );
}

#[test]
fn prose_object_misses() {
    let body = obj(vec![(
        "error",
        obj(vec![(
            "message",
            text("If the token lacks access you may see insufficient_scope or ACCESS_TOKEN_SCOPE_INSUFFICIENT in provider docs"),
        )]),
    )]);
    assert_eq!(detected(Some(&body), None), None);
    assert_eq!(
        detected(Some(&text("Consult the OAuth guide about insufficient_scope errors")), None),
        None
    );
}

#[test]
fn other_field_names_miss() {
    assert_eq!(
        detected(
            Some(&obj(vec![(
                "supportedErrors",
                JsonValue::Array(vec![text("invalid_token"), text("insufficient_scope")]),
            )])),
            None
        ),
        None
    );
    assert_eq!(detected(Some(&obj(vec![("code", text("insufficient_scope"))])), None), None);
}

#[test]
fn lookalike_challenge_params() {
    assert_eq!(detected(None, Some(r#"Bearer x-error="insufficient_scope""#)), None);
    assert_eq!(detected(None, Some(r#"Bearer error="insufficient_scope_extra""#)), None);
}

#[test]
fn quoted_pairs_cannot_fabricate_param() {
    assert_eq!(
        detected(None, Some(r#"Bearer error_description="Example: \"error=insufficient_scope""#)),
        None
    );
}

#[test]
fn scheme_inside_quoted_value() {
    assert_eq!(
        detected(
            None,
            Some(r#"Basic error_description="Proxy saw Bearer error=insufficient_scope upstream""#),
        ),
        None
    );
    assert_eq!(
        detected(None, Some(r#"Digest realm="x", qop="auth Bearer error=insufficient_scope", nonce="n""#)),
        None
    );
    assert_eq!(detected(None, Some(r#"Basic error=insufficient_scope, Bearer realm="api""#)), None);
}

#[test]
fn only_bearer_params() {
    assert_eq!(detected(None, Some(r#"Basic realm="example", error=insufficient_scope"#)), None);
    assert_eq!(detected(None, Some(r#"Bearer realm="api", Basic error=insufficient_scope"#)), None);
}

#[test]
fn repeated_bearer_independent() {
    assert_eq!(
        detected(None, Some("Bearer error=invalid_token, Basic realm=x, Bearer error=insufficient_scope")),
        Some(scopes(&[]))
    );
    assert_eq!(
        detected(None, Some(r#"Bearer scope="other.scope", Bearer error=insufficient_scope"#)),
        Some(scopes(&[]))
    );
}

#[test]
fn scheme_only_at_comma_boundary() {
    assert_eq!(detected(None, Some("Basic realm=x Bearer error=insufficient_scope")), None);
    assert_eq!(
        detected(None, Some("Basic error_description=Proxy Bearer error=insufficient_scope")),
        None
    );
}

#[test]
fn token68_then_bearer() {
    assert_eq!(
        detected(None, Some("Negotiate abc/def==, Bearer error=insufficient_scope")),
        Some(scopes(&[]))
    );
}

#[test]
fn malformed_headers() {
    assert_eq!(detected(None, Some(r#"Bearer error="insufficient_scope"#)), None);
    assert_eq!(detected(None, Some(r#"Basic realm="x"Bearer error=insufficient_scope"#)), None);
}

#[test]
fn bws_around_equals() {
    for header in [
        "Bearer error =insufficient_scope",
        "Bearer error= insufficient_scope",
        r#"Bearer error = "insufficient_scope""#,
    ] {
        assert_eq!(detected(None, Some(header)), Some(scopes(&[])), "{header}");
    }
}

#[test]
fn params_after_token68_or_scheme_only() {
    for header in [
        "Bearer a=, error=insufficient_scope",
        "Bearer abc, error=insufficient_scope",
        "Bearer, error=insufficient_scope",
        r#"Bearer realm="x" error=insufficient_scope"#,
    ] {
        assert_eq!(detected(None, Some(header)), None, "{header}");
    }
}

#[test]
fn http_token_characters() {
    for header in [
        "Bearer foo!=bar, error=insufficient_scope",
        "Bearer x#=bar, error=insufficient_scope",
        "Bearer x|=bar, error=insufficient_scope",
        "Foo! realm=x, Bearer error=insufficient_scope",
    ] {
        assert_eq!(detected(None, Some(header)), Some(scopes(&[])), "{header}");
    }
}

#[test]
fn empty_non_token_duplicate_signal() {
    for header in [
        "Bearer realm =, error=insufficient_scope",
        "Bearer realm=;, error=insufficient_scope",
        "Bearer error=insufficient_scope, error=invalid_token",
        "Bearer foo/bar=baz, error=insufficient_scope",
        "Foo/Bar realm=x, Bearer error=insufficient_scope",
        "Bearer realm=foo/bar, error=insufficient_scope",
        "Bearer realm=foo=bar, error=insufficient_scope",
        "Bearer abc!==, error=insufficient_scope",
    ] {
        assert_eq!(detected(None, Some(header)), None, "{header}");
    }
}

#[test]
fn provider_quirks() {
    assert_eq!(
        detected(
            None,
            Some("Bearer resource_metadata=https://mcp.stripe.com/.well-known/oauth-protected-resource, error=insufficient_scope"),
        ),
        Some(scopes(&[]))
    );
    assert_eq!(
        detected(
            None,
            Some(r#"Bearer realm="OAuth", resource_metadata="https://mcp.sentry.dev/.well-known/oauth-protected-resource", error="insufficient_scope", resource_metadata="https://mcp.sentry.dev/.well-known/oauth-protected-resource""#),
        ),
        Some(scopes(&[]))
    );
    assert_eq!(detected(None, Some("Bearer error=insufficient_scope, error=invalid_token")), None);
}

#[test]
fn comma_separated_params() {
    assert_eq!(
        detected(None, Some(r#"Bearer realm="api", error="insufficient_scope", scope="a.b""#)),
        Some(scopes(&["a.b"]))
    );
}

#[test]
fn unquoted_rfc6750() {
    assert_eq!(detected(None, Some("Bearer error=insufficient_scope")), Some(scopes(&[])));
}

#[test]
fn ordinary_403() {
    let body = obj(vec![(
        "error",
        obj(vec![("status", text("PERMISSION_DENIED")), ("message", text("Caller lacks permission"))]),
    )]);
    assert_eq!(
        detected(Some(&body), Some(r#"Bearer realm="example", error="invalid_token""#)),
        None
    );
}

#[test]
fn empty_input() {
    let empty: Vec<(String, String)> = Vec::new();
    assert_eq!(detect_insufficient_scope(None, &empty), None);
}

#[test]
fn parse_challenges_lowercases_and_orders() {
    let cs = parse_challenges(r#"Bearer Realm="a", ERROR=x, Basic realm="b""#).unwrap();
    assert_eq!(cs.len(), 2);
    assert_eq!(cs[0].scheme, "bearer");
    assert_eq!(cs[0].params, vec![("error".to_owned(), "x".to_owned()), ("realm".to_owned(), "a".to_owned())]);
    assert_eq!(cs[0].param("error"), Some("x".to_owned()));
    assert_eq!(cs[1].scheme, "basic");
}

#[test]
fn header_name_case_is_ignored() {
    let hdrs = vec![("WWW-Authenticate".to_owned(), "Bearer error=insufficient_scope scope".to_owned())];
    assert_eq!(detect_insufficient_scope(None, &hdrs), None);
    let hdrs = vec![("WWW-Authenticate".to_owned(), "Bearer error=insufficient_scope, scope=\"a  b\"".to_owned())];
    assert_eq!(detect_insufficient_scope(None, &hdrs), Some(scopes(&["a", "b"])));
}

#[test]
fn split_whitespace_matches_std() {
    assert_eq!(split_whitespace("  a b\t\nc  "), vec!["a", "b", "c"]);
    assert!(split_whitespace("   ").is_empty());
}

#[test]
fn tool_errors() {
    let hdrs = headers(r#"Bearer error="insufficient_scope", scope="x y""#);
    let e = tool_error_from_http(403, &hdrs, text("body"));
    assert_eq!(e.code, OAUTH_SCOPE_INSUFFICIENT);
    assert_eq!(e.message, "The access token does not cover the required scope: x y");
    assert_eq!(e.status, Some(403));
    assert_eq!(e.retryable, Some(false));
    assert_eq!(
        e.details,
        Some(obj(vec![
            ("requiredScopes", JsonValue::Array(vec![text("x"), text("y")])),
            ("upstream", text("body")),
        ]))
    );
    let e = tool_error_from_http(503, &[], JsonValue::Null);
    assert_eq!(e.code, "http_error");
    assert_eq!(e.message, "HTTP 503");
    assert_eq!(e.retryable, Some(true));
    assert_eq!(e.details, Some(JsonValue::Null));
    let e = tool_error_from_http(404, &[], JsonValue::Null);
    assert_eq!(e.retryable, Some(false));
}
