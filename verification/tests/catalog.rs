use executor::catalog::call::{
    mock_body, upstream_url, urlencoding_lite, CallInput, CatalogService, PendingCall, ServedVia,
};
use executor::catalog::money::SIGNUP_GRANT_MICRO;
use executor::catalog::{Access, Catalog, CatalogError, Endpoint};
use executor::json::JsonValue;

fn text(s: &str) -> JsonValue {
    JsonValue::Text(s.to_owned())
}

fn obj(members: Vec<(&str, JsonValue)>) -> JsonValue {
    JsonValue::Object(members.into_iter().map(|(k, v)| (k.to_owned(), v)).collect())
}

fn endpoint(id: &str, provider: &str, access: Access, cost: Option<i64>) -> Endpoint {
    Endpoint {
        id: id.into(),
        capability: id.splitn(2, '.').nth(1).unwrap_or(id).into(),
        provider: provider.into(),
        name: id.into(),
        summary: String::new(),
        jobs: vec![],
        method: "GET".into(),
        path: "/".into(),
        base_url: format!("mock://{provider}"),
        access,
        cost_micro: cost,
        query: obj(vec![]),
        routed_child: None,
        strict_query: false,
    }
}

fn seed() -> Catalog {
    let mut find = endpoint("hunter.people.email.find", "hunter", Access::Platform, Some(10_000));
    find.name = "Encontrar e-mail profissional".into();
    find.jobs = vec!["encontrar e-mail".into(), "find email".into()];
    let crm = endpoint("internal.private.crm", "internal", Access::OwnKeyOnly, None);
    let moz = endpoint("moz.backlinks.lookup", "moz", Access::Platform, Some(5_000));
    let mut routed = endpoint("treg.people.email.find", "treg", Access::Platform, None);
    routed.routed_child = Some("hunter.people.email.find".into());
    let echo = endpoint("demo.echo", "demo", Access::Anonymous, None);
    Catalog::from_endpoints(vec![find, crm, moz, routed, echo])
}

fn query(pairs: &[(&str, &str)]) -> Vec<(String, String)> {
    pairs.iter().map(|(k, v)| ((*k).to_owned(), (*v).to_owned())).collect()
}

/// The whole call as the daemon runs it against mock endpoints.
fn call(svc: &mut CatalogService, input: CallInput) -> Result<executor::catalog::call::CallOutcome, CatalogError> {
    let pending: PendingCall = svc.begin_call(input)?;
    let ep = svc.catalog().get(&pending.input.id).expect("serving endpoint");
    let body = mock_body(ep, &pending.input, pending.secret.as_deref());
    svc.finish_call(pending, Ok((200, body)))
}

#[test]
fn merge_keeps_existing_ids() {
    let mut cat = seed();
    let mut other = endpoint("hunter.people.email.find", "hunter", Access::Platform, Some(1));
    other.name = "YAML".into();
    let account = endpoint("hunter.account.get", "hunter", Access::OwnKeyOnly, None);
    cat.merge(Catalog::from_endpoints(vec![other, account]));
    let find = cat.get("hunter.people.email.find").unwrap();
    assert_eq!(find.cost_micro, Some(10_000));
    assert_eq!(find.name, "Encontrar e-mail profissional");
    assert!(cat.get("hunter.account.get").is_some());
    assert_eq!(cat.all().len(), 6);
}

#[test]
fn providers_are_sorted_with_counts() {
    let mut cat = seed();
    cat.merge(Catalog::from_endpoints(vec![endpoint("hunter.account.get", "hunter", Access::OwnKeyOnly, None)]));
    let providers = cat.providers();
    assert_eq!(
        providers,
        vec![
            ("demo".to_owned(), 1),
            ("hunter".to_owned(), 2),
            ("internal".to_owned(), 1),
            ("moz".to_owned(), 1),
            ("treg".to_owned(), 1),
        ]
    );
}

#[test]
fn search_finds_email_job_in_seed() {
    let cat = seed();
    let hits = cat.search("encontrar e-mail", 8);
    assert!(hits.iter().any(|h| h.endpoint.id.contains("email.find")));
    assert_eq!(hits[0].endpoint.id, "hunter.people.email.find");
    // name (20) + exact job (80) + two words contained (8 + 8)
    assert_eq!(hits[0].score, 116);
}

#[test]
fn search_scores_fields_and_orders_by_id() {
    let cat = seed();
    let hits = cat.search("  HUNTER ", 10);
    assert_eq!(hits.len(), 1);
    // id (50) + provider (15)
    assert_eq!(hits[0].score, 65);
    let all = cat.search("", 0);
    assert_eq!(all.len(), 1);
    let all = cat.search("   ", 10);
    let ids: Vec<&str> = all.iter().map(|h| h.endpoint.id.as_str()).collect();
    assert_eq!(
        ids,
        vec![
            "demo.echo",
            "hunter.people.email.find",
            "internal.private.crm",
            "moz.backlinks.lookup",
            "treg.people.email.find"
        ]
    );
    assert!(all.iter().all(|h| h.score == 1));
}

#[test]
fn ladder_own_key_is_free() {
    let mut svc = CatalogService::from_catalog(seed());
    let q = query(&[("domain", "stripe.com"), ("full_name", "Patrick Collison")]);
    let paid = call(
        &mut svc,
        CallInput {
            id: "hunter.people.email.find".into(),
            query: q.clone(),
            subject: "local".into(),
            connection_secret: Some("sk_own".into()),
            ..CallInput::default()
        },
    )
    .unwrap();
    assert_eq!(paid.served_via, ServedVia::Connection);
    assert_eq!(paid.cost_micro, 0);
    assert_eq!(svc.ledger().balance("local"), 0);
    let billed = call(
        &mut svc,
        CallInput { id: "hunter.people.email.find".into(), query: q, subject: "local".into(), ..CallInput::default() },
    )
    .unwrap();
    assert_eq!(billed.served_via, ServedVia::Platform);
    assert_eq!(billed.cost_micro, 10_000);
    assert_eq!(svc.balance("local").unwrap(), SIGNUP_GRANT_MICRO - 10_000);
    assert_eq!(email_of(&billed.body), "patrick@stripe.com");
}

fn email_of(body: &JsonValue) -> String {
    match body {
        JsonValue::Object(m) => match &m[0].1 {
            JsonValue::Object(d) => match &d[0].1 {
                JsonValue::Text(t) => t.clone(),
                _ => String::new(),
            },
            _ => String::new(),
        },
        _ => String::new(),
    }
}

#[test]
fn refuse_without_price_or_key() {
    let mut svc = CatalogService::from_catalog(seed());
    let err = call(&mut svc, CallInput { id: "internal.private.crm".into(), subject: "local".into(), ..CallInput::default() })
        .unwrap_err();
    assert!(matches!(err, CatalogError::ConnectYourKey { .. }));
    assert_eq!(err.message(), "conecte sua chave para internal.private.crm (provedor internal)");
    let err = call(&mut svc, CallInput { id: "nope".into(), ..CallInput::default() }).unwrap_err();
    assert_eq!(err, CatalogError::NotFound("nope".into()));
}

#[test]
fn payment_required_when_broke() {
    let mut svc = CatalogService::from_catalog(seed());
    svc.balance("broke").unwrap();
    for _ in 0..200 {
        let _ = call(
            &mut svc,
            CallInput {
                id: "moz.backlinks.lookup".into(),
                query: query(&[("domain", "example.com")]),
                subject: "broke".into(),
                ..CallInput::default()
            },
        );
    }
    assert_eq!(svc.ledger().balance("broke"), 0);
    let err = call(
        &mut svc,
        CallInput {
            id: "moz.backlinks.lookup".into(),
            query: query(&[("domain", "example.com")]),
            subject: "broke".into(),
            ..CallInput::default()
        },
    )
    .unwrap_err();
    assert_eq!(err, CatalogError::PaymentRequired { balance_micro: 0, estimated_cost_micro: 5_000 });
}

#[test]
fn routed_names_child() {
    let mut svc = CatalogService::from_catalog(seed());
    let out = call(
        &mut svc,
        CallInput {
            id: "treg.people.email.find".into(),
            query: query(&[("domain", "stripe.com"), ("full_name", "Patrick")]),
            subject: "local".into(),
            ..CallInput::default()
        },
    )
    .unwrap();
    assert_eq!(out.child.as_deref(), Some("hunter.people.email.find"));
    assert_eq!(out.served_via, ServedVia::Routed);
    assert_eq!(out.cost_micro, 10_000);
}

fn strict_endpoint() -> Endpoint {
    let mut ep = endpoint("harvestapi.linkedin.user.profile", "harvestapi", Access::Platform, Some(10_000));
    ep.strict_query = true;
    ep.query = obj(vec![
        ("mode", obj(vec![("enum", JsonValue::Array(vec![text("full"), text("short")])), ("required", JsonValue::Bool(false))])),
        ("publicIdentifier", obj(vec![("required", JsonValue::Bool(true)), ("type", text("string"))])),
    ]);
    ep
}

#[test]
fn strict_query_rejects_undeclared() {
    let mut svc = CatalogService::from_catalog(Catalog::from_endpoints(vec![strict_endpoint()]));
    let err = call(
        &mut svc,
        CallInput {
            id: "harvestapi.linkedin.user.profile".into(),
            query: query(&[("main", "1")]),
            subject: "local".into(),
            ..CallInput::default()
        },
    )
    .unwrap_err();
    assert_eq!(err, CatalogError::ParameterInvalid("parâmetro não declarado: main".into()));
    let err = call(
        &mut svc,
        CallInput {
            id: "harvestapi.linkedin.user.profile".into(),
            query: query(&[("mode", "long"), ("publicIdentifier", "x")]),
            subject: "local".into(),
            ..CallInput::default()
        },
    )
    .unwrap_err();
    assert_eq!(err, CatalogError::ParameterInvalid("valor não permitido para mode".into()));
    let err = call(
        &mut svc,
        CallInput {
            id: "harvestapi.linkedin.user.profile".into(),
            query: query(&[("publicIdentifier", "  ")]),
            subject: "local".into(),
            ..CallInput::default()
        },
    )
    .unwrap_err();
    assert_eq!(err, CatalogError::ParameterInvalid("parâmetro obrigatório ausente: publicIdentifier".into()));
    let err = call(
        &mut svc,
        CallInput {
            id: "harvestapi.linkedin.user.profile".into(),
            query: query(&[("publicIdentifier", "williamhgates")]),
            body: Some(obj(vec![])),
            subject: "local".into(),
            ..CallInput::default()
        },
    )
    .unwrap_err();
    assert!(matches!(err, CatalogError::ParameterInvalid(_)));
    let ok = call(
        &mut svc,
        CallInput {
            id: "harvestapi.linkedin.user.profile".into(),
            query: query(&[("mode", "short"), ("publicIdentifier", "williamhgates")]),
            subject: "local".into(),
            ..CallInput::default()
        },
    )
    .unwrap();
    assert_eq!(ok.status, 200);
}

#[test]
fn failed_upstream_releases_the_reservation() {
    let mut svc = CatalogService::from_catalog(seed());
    let pending = svc
        .begin_call(CallInput { id: "moz.backlinks.lookup".into(), subject: "s".into(), ..CallInput::default() })
        .unwrap();
    assert_eq!(pending.call_id, "call_1");
    assert_eq!(svc.ledger().balance("s"), SIGNUP_GRANT_MICRO - 5_000);
    let err = svc.finish_call(pending, Err(CatalogError::Upstream("boom".into()))).unwrap_err();
    assert_eq!(err.message(), "upstream: boom");
    assert_eq!(svc.ledger().balance("s"), SIGNUP_GRANT_MICRO);
}

#[test]
fn team_tools_number_and_cover_providers() {
    let mut svc = CatalogService::from_catalog(seed());
    let t = svc.register_team_tool("Relay".into(), "internal".into(), "https://relay".into(), "tt-secret".into());
    assert_eq!(t.id, "tt_1");
    assert_eq!(svc.team_secret_for("internal").as_deref(), Some("tt-secret"));
    assert_eq!(svc.team_secret_for("moz"), None);
    let listed = svc.list_team_tools();
    assert_eq!(listed.len(), 1);
    assert_eq!(listed[0].name, "Relay");
    let out = call(&mut svc, CallInput { id: "internal.private.crm".into(), subject: "x".into(), ..CallInput::default() })
        .unwrap();
    assert_eq!(out.served_via, ServedVia::TeamTool);
    assert_eq!(out.cost_micro, 0);
}

#[test]
fn topup_credits_after_signup_grant() {
    let mut svc = CatalogService::from_catalog(seed());
    assert_eq!(svc.topup("pay", 2_000_000).unwrap(), SIGNUP_GRANT_MICRO + 2_000_000);
    assert_eq!(svc.topup("pay", 0).unwrap_err(), CatalogError::Invalid("grant must be positive"));
    assert_eq!(svc.balance("pay").unwrap(), SIGNUP_GRANT_MICRO + 2_000_000);
}

#[test]
fn urls_encode_query_for_get() {
    assert_eq!(urlencoding_lite("a b/ç~"), "a%20b%2F%C3%A7~");
    let ep = endpoint("x.y", "x", Access::Anonymous, None);
    let mut ep = ep;
    ep.path = "/v1/find".into();
    ep.method = "get".into();
    let input = CallInput { query: query(&[("a", "1"), ("b", "x y")]), ..CallInput::default() };
    assert_eq!(upstream_url("https://api.example//", &ep, &input).as_deref(), Some("https://api.example/v1/find?a=1&b=x%20y"));
    assert_eq!(upstream_url("mock://x", &ep, &input), None);
    assert_eq!(upstream_url("", &ep, &input), None);
    ep.method = "POST".into();
    assert_eq!(upstream_url("https://api.example", &ep, &input).as_deref(), Some("https://api.example/v1/find"));
}

#[test]
fn mock_echo_and_default_bodies() {
    let cat = seed();
    let echo = cat.get("demo.echo").unwrap();
    let body = mock_body(echo, &CallInput::default(), None);
    assert_eq!(body, obj(vec![("ok", JsonValue::Bool(true)), ("text", text("olá"))]));
    let moz = cat.get("moz.backlinks.lookup").unwrap();
    let body = mock_body(moz, &CallInput::default(), None);
    assert_eq!(body, obj(vec![("backlinks", JsonValue::Number("42".into())), ("domain", JsonValue::Null)]));
    let other = endpoint("zz.thing", "zz", Access::Anonymous, None);
    let body = mock_body(&other, &CallInput::default(), Some("k"));
    assert_eq!(body, obj(vec![("id", text("zz.thing")), ("ok", JsonValue::Bool(true)), ("own_key", JsonValue::Bool(true))]));
}

#[test]
fn merging_the_same_catalog_twice_changes_nothing() {
    let mut cat = seed();
    let extra = || {
        Catalog::from_endpoints(vec![
            endpoint("hunter.account.get", "hunter", Access::OwnKeyOnly, None),
            endpoint("hunter.people.email.find", "hunter", Access::Platform, Some(1)),
        ])
    };
    cat.merge(extra());
    let once: Vec<String> = cat.all().iter().map(|e| e.id.clone()).collect();
    cat.merge(extra());
    let twice: Vec<String> = cat.all().iter().map(|e| e.id.clone()).collect();
    assert_eq!(once, twice);
}

#[test]
fn search_finds_email_job() {
    let cat = seed();
    let hits = cat.search("encontrar e-mail", 8);
    assert!(hits.iter().any(|h| h.endpoint.id.contains("email.find")), "{hits:?}");
}
