use executor::cli::browse::{
    browse_lines, describe_path, exact_line, fallback_inspection, filter_children,
    inspect_with_tools_prefix, leaf_lines, no_match_message, tool_addresses,
};
use executor::cli::mcp::mcp_fallback;
use executor::cli::launch::{
    auth_token_from,
    give_up_message, loopback_pointer, unhealthy_message, LaunchAction, LaunchEvent, Launcher,
};
use executor::cli::login::{
    device_code_body, discovery_from, form_fields, grant_polling, grant_prompt, grant_result,
    oauth_from_tokens, poll_verdict, posts_json, token_body, PollVerdict,
};
use executor::cli::request::{
    catalog_call_body, catalog_query, connection_body, connection_path, connection_refresh_path,
    daemon_origin, execution_body, looks_like_catalog_id, mcp_query, parse_values, resume_body,
    team_tool_body,
};
use executor::cli::{
    allowed_hosts, catalog_provider_lines, connection_lines, integration_lines, sorted_distinct,
    tool_list_lines, tool_search_lines, urlencoding_query,
};
use executor::json::JsonValue;
use executor::path::ToolPathChild;
use executor::profiles::{store_path, Auth};

fn text(s: &str) -> JsonValue {
    JsonValue::Text(s.to_owned())
}

fn obj(members: Vec<(&str, JsonValue)>) -> JsonValue {
    JsonValue::Object(members.into_iter().map(|(k, v)| (k.to_owned(), v)).collect())
}

fn strings(v: &[&str]) -> Vec<String> {
    v.iter().map(|s| s.to_string()).collect()
}

// ---------------------------------------------------------------- listings

#[test]
fn tool_rows_are_path_tab_description() {
    let body = obj(vec![(
        "tools",
        JsonValue::Array(vec![
            obj(vec![("path", text("github.org.main.list")), ("description", text("List repos"))]),
            obj(vec![("path", text("demo.echo"))]),
        ]),
    )]);
    assert_eq!(tool_list_lines(&body), strings(&["github.org.main.list\tList repos", "demo.echo\t"]));
    assert_eq!(tool_search_lines(&body).len(), 2);
    let empty = obj(vec![("tools", JsonValue::Array(vec![]))]);
    assert_eq!(tool_search_lines(&empty), strings(&["(no matching tools)"]));
    assert_eq!(tool_list_lines(&empty), Vec::<String>::new());
}

#[test]
fn integration_and_connection_rows() {
    let body = obj(vec![(
        "integrations",
        JsonValue::Array(vec![obj(vec![
            ("slug", text("github")),
            ("kind", text("openapi")),
            ("name", text("GitHub")),
        ])]),
    )]);
    assert_eq!(integration_lines(&body), strings(&["github\topenapi\tGitHub"]));
    assert_eq!(integration_lines(&obj(vec![])), strings(&["(no integrations)"]));
    let conns = obj(vec![(
        "connections",
        JsonValue::Array(vec![obj(vec![
            ("owner", text("user")),
            ("integration", text("hunter")),
            ("name", text("work")),
            ("template", text("bearer")),
        ])]),
    )]);
    assert_eq!(connection_lines(&conns), strings(&["user/hunter/work\tbearer"]));
    assert_eq!(connection_lines(&obj(vec![])), strings(&["(nenhuma conexão)"]));
}

#[test]
fn catalog_providers_sorted_and_distinct() {
    let hit = |p: &str| obj(vec![("endpoint", obj(vec![("provider", text(p))]))]);
    let body = obj(vec![(
        "items",
        JsonValue::Array(vec![hit("moz"), hit("hunter"), hit("moz"), obj(vec![]), hit("demo")]),
    )]);
    assert_eq!(catalog_provider_lines(&body), strings(&["demo", "hunter", "moz"]));
    assert_eq!(catalog_provider_lines(&obj(vec![])), strings(&["(nenhum provedor no catálogo)"]));
}

#[test]
fn sorted_distinct_law_on_values() {
    let out = sorted_distinct(&strings(&["b", "a", "c", "a", "b"]));
    assert_eq!(out, strings(&["a", "b", "c"]));
    assert!(out.windows(2).all(|w| w[0] < w[1]));
}

#[test]
fn allowed_hosts_add_wildcard_on_open_bind() {
    let defaults = strings(&["localhost", "127.0.0.1"]);
    let hosts = allowed_hosts(&defaults, "0.0.0.0", &strings(&["example.test", "localhost"]));
    assert_eq!(hosts, strings(&["*", "0.0.0.0", "127.0.0.1", "example.test", "localhost"]));
    let hosts = allowed_hosts(&defaults, "127.0.0.1", &vec![]);
    assert_eq!(hosts, strings(&["127.0.0.1", "localhost"]));
}

#[test]
fn query_encoding_is_percent_utf8() {
    assert_eq!(urlencoding_query("encontrar e-mail"), "encontrar%20e-mail");
    assert_eq!(urlencoding_query("ç~"), "%C3%A7~");
}

// ---------------------------------------------------------------- requests

#[test]
fn catalog_ids_have_a_dot_outside_tools() {
    assert!(looks_like_catalog_id(&strings(&["hunter.people.email.find"])));
    assert!(!looks_like_catalog_id(&strings(&["tools.github.org.main.list"])));
    assert!(!looks_like_catalog_id(&strings(&["executor.openapi.addSpec"])));
    assert!(!looks_like_catalog_id(&strings(&["github"])));
    assert!(!looks_like_catalog_id(&[]));
}

#[test]
fn catalog_query_keeps_strings_skips_null_writes_others() {
    let q = catalog_query("  {\"domain\":\"stripe.com\",\"limit\":3,\"skip\":null}  ").unwrap();
    assert_eq!(
        q,
        vec![("domain".to_string(), "stripe.com".to_string()), ("limit".to_string(), "3".to_string())]
    );
    assert!(catalog_query("not json").unwrap().is_empty());
    assert!(catalog_query("{oops").is_err());
}

#[test]
fn values_are_sorted_last_wins_and_need_equals() {
    let v = parse_values(&strings(&["token=b", "alpha=1=2", "token=c"])).unwrap();
    assert_eq!(
        v,
        vec![("alpha".to_string(), "1=2".to_string()), ("token".to_string(), "c".to_string())]
    );
    assert_eq!(
        parse_values(&strings(&["ok=1", "broken", "also"])).unwrap_err(),
        "--value deve ser KEY=VALUE, recebido broken"
    );
    assert!(parse_values(&[]).unwrap().is_empty());
}

#[test]
fn connection_body_keys_are_sorted() {
    let values = vec![("token".to_string(), "sk_own".to_string())];
    let b = connection_body("hunter", "work", Some("user"), "bearer", Some("me"), &values);
    assert_eq!(
        b,
        obj(vec![
            ("identity_label", text("me")),
            ("integration", text("hunter")),
            ("name", text("work")),
            ("owner", text("user")),
            ("template", text("bearer")),
            ("values", obj(vec![("token", text("sk_own"))])),
        ])
    );
    let b = connection_body("hunter", "work", None, "bearer", None, &vec![]);
    assert_eq!(
        b,
        obj(vec![
            ("integration", text("hunter")),
            ("name", text("work")),
            ("template", text("bearer")),
            ("values", obj(vec![])),
        ])
    );
}

#[test]
fn execution_and_resume_bodies() {
    assert_eq!(
        execution_body("return 1;", true, Some("k1")),
        obj(vec![
            ("autoApprove", JsonValue::Bool(true)),
            ("code", text("return 1;")),
            ("idempotencyKey", text("k1")),
        ])
    );
    assert_eq!(
        resume_body("accept", Some("{\"a\":1}"), Some("session")),
        obj(vec![
            ("action", text("accept")),
            ("content", obj(vec![("a", JsonValue::Number("1".into()))])),
            ("persist", text("session")),
        ])
    );
    assert_eq!(
        resume_body("decline", Some("plain words"), None),
        obj(vec![("action", text("decline")), ("content", text("plain words"))])
    );
}

#[test]
fn catalog_and_team_tool_bodies() {
    let q = vec![("domain".to_string(), "x.com".to_string())];
    assert_eq!(
        catalog_call_body("hunter.people.email.find", &q),
        obj(vec![
            ("id", text("hunter.people.email.find")),
            ("query", obj(vec![("domain", text("x.com"))])),
        ])
    );
    assert_eq!(
        team_tool_body("relay", "acme", "https://relay.test", "s3"),
        obj(vec![
            ("base_url", text("https://relay.test")),
            ("name", text("relay")),
            ("provider", text("acme")),
            ("secret", text("s3")),
        ])
    );
}

#[test]
fn paths_and_queries() {
    assert_eq!(connection_path("user", "hunter", "work"), "/api/connections/user/hunter/work");
    assert_eq!(
        connection_refresh_path("org", "github", "main"),
        "/api/connections/org/github/main/refresh"
    );
    assert_eq!(mcp_query("code", "browser", false), "?mode=code&elicitation_mode=browser");
    assert_eq!(
        mcp_query("passthrough", "model", true),
        "?mode=passthrough&elicitation_mode=model&search_tools=true"
    );
    assert_eq!(daemon_origin("0.0.0.0", 4788), "http://127.0.0.1:4788");
    assert_eq!(daemon_origin("::", 80), "http://127.0.0.1:80");
    assert_eq!(daemon_origin("localhost", 9), "http://localhost:9");
}

// ---------------------------------------------------------------- launcher

fn step(s: Launcher, e: LaunchEvent) -> (Launcher, LaunchAction) {
    s.step(e)
}

#[test]
fn launcher_uses_configured_url_or_fails() {
    let (s, a) = step(Launcher::Start, LaunchEvent::Configured { url: Some("http://d.test".into()) });
    assert!(matches!(a, LaunchAction::ProbeHealth { ref url } if url == "http://d.test"));
    let (_, a) = step(s, LaunchEvent::Probed { ok: false });
    assert!(matches!(a, LaunchAction::Unhealthy { ref url } if url == "http://d.test"));
    assert_eq!(unhealthy_message("http://d.test"), "EXECUTOR_DAEMON_URL http://d.test is not healthy");
    let (s, a) = step(Launcher::Start, LaunchEvent::Configured { url: Some(String::new()) });
    assert!(matches!(a, LaunchAction::ReadPointer));
    let (_, a) = step(s, LaunchEvent::Pointer { origin: Some("http://127.0.0.1:5000".into()) });
    assert!(matches!(a, LaunchAction::ProbeOrigin { ref origin } if origin == "http://127.0.0.1:5000"));
}

#[test]
fn launcher_spawns_and_records_the_daemon_that_answers() {
    let (s, a) = step(Launcher::Start, LaunchEvent::Configured { url: None });
    assert!(matches!(a, LaunchAction::ReadPointer));
    let (s, a) = step(s, LaunchEvent::Pointer { origin: None });
    assert!(matches!(a, LaunchAction::PickPort { preferred: true }));
    let (s, a) = step(s, LaunchEvent::PortChosen { port: 4788 });
    assert!(matches!(a, LaunchAction::Spawn { port: 4788 }));
    let (s, a) = step(s, LaunchEvent::Spawned { pid: 77 });
    assert!(matches!(a, LaunchAction::ProbePort { port: 4788 }));
    let (s, a) = step(s, LaunchEvent::Probed { ok: false });
    assert!(matches!(a, LaunchAction::CheckAlive { pid: 77 }));
    let (s, a) = step(s, LaunchEvent::Alive { alive: true });
    assert!(matches!(a, LaunchAction::Sleep));
    let (s, a) = step(s, LaunchEvent::Slept);
    assert!(matches!(a, LaunchAction::ProbePort { port: 4788 }));
    let (s, a) = step(s, LaunchEvent::Probed { ok: true });
    assert!(matches!(a, LaunchAction::Ready { port: 4788, pid: 77 }));
    assert!(matches!(s, Launcher::Done));
    let p = loopback_pointer(4788, 77);
    assert_eq!(p.origin, "http://127.0.0.1:4788");
    assert_eq!(p.pid, 77);
}

#[test]
fn launcher_gives_up_after_five_attempts() {
    let mut s = Launcher::Choosing { attempt: 0 };
    let mut last = LaunchAction::Nothing;
    let mut picks = 0;
    for round in 0..5u16 {
        let (n, a) = step(s, LaunchEvent::PortChosen { port: 5000 + round });
        assert!(matches!(a, LaunchAction::Spawn { .. }));
        let (n, _) = step(n, LaunchEvent::Spawned { pid: 10 });
        let (n, _) = step(n, LaunchEvent::Probed { ok: false });
        let (n, a) = step(n, LaunchEvent::Alive { alive: false });
        assert!(matches!(a, LaunchAction::CheckAlive { pid: 10 }));
        let (n, a) = step(n, LaunchEvent::Alive { alive: true });
        assert!(matches!(a, LaunchAction::Stop { pid: 10 }));
        let (n, a) = step(n, LaunchEvent::Stopped);
        if let LaunchAction::PickPort { preferred } = a {
            assert!(!preferred);
            picks += 1;
        }
        s = n;
        last = a;
    }
    assert_eq!(picks, 4);
    assert!(matches!(last, LaunchAction::GiveUp { port: 5004 }));
    assert!(matches!(s, Launcher::Done));
    assert_eq!(give_up_message(5004), "daemon did not become healthy at http://127.0.0.1:5004");
}

#[test]
fn launcher_polls_eighty_times_then_ends_attempt() {
    let (mut s, _) = step(Launcher::Spawning { attempt: 0, port: 1 }, LaunchEvent::Spawned { pid: 3 });
    let mut probes = 1;
    loop {
        let (n, _) = step(s, LaunchEvent::Probed { ok: false });
        let (n, _) = step(n, LaunchEvent::Alive { alive: true });
        let (n, a) = step(n, LaunchEvent::Slept);
        s = n;
        match a {
            LaunchAction::ProbePort { .. } => probes += 1,
            LaunchAction::CheckAlive { pid } => {
                assert_eq!(pid, 3);
                break;
            }
            _ => panic!("unexpected action"),
        }
    }
    assert_eq!(probes, 80);
    let (s, a) = step(s, LaunchEvent::Slept);
    assert!(matches!(a, LaunchAction::Nothing));
    assert!(matches!(s, Launcher::Ending { attempt: 0, port: 1, pid: 3 }));
}

// ---------------------------------------------------------------- login

fn discovery_doc() -> JsonValue {
    obj(vec![
        ("deviceAuthorizationEndpoint", text("https://s.test/device")),
        ("tokenEndpoint", text("https://s.test/token")),
        ("clientId", text("cli")),
        ("scope", text("openid")),
    ])
}

#[test]
fn discovery_reads_endpoints_and_defaults() {
    let d = discovery_from(&discovery_doc()).unwrap();
    assert_eq!(d.device_authorization_endpoint, "https://s.test/device");
    assert_eq!(d.token_endpoint, "https://s.test/token");
    assert_eq!(d.client_id, "cli");
    assert_eq!(d.request_format, "form");
    assert_eq!(d.scope.as_deref(), Some("openid"));
    assert!(!posts_json(&d));
    let missing = obj(vec![("deviceAuthorizationEndpoint", text("x")), ("tokenEndpoint", text(""))]);
    assert_eq!(discovery_from(&missing).err().unwrap(), "CLI-login document missing tokenEndpoint");
}

#[test]
fn login_bodies_and_form_fields() {
    let d = discovery_from(&discovery_doc()).unwrap();
    let b = device_code_body(&d);
    assert_eq!(b, obj(vec![("client_id", text("cli")), ("scope", text("openid"))]));
    let t = token_body(&d, "dev1");
    assert_eq!(
        t,
        obj(vec![
            ("client_id", text("cli")),
            ("device_code", text("dev1")),
            ("grant_type", text("urn:ietf:params:oauth:grant-type:device_code")),
        ])
    );
    let with_null = obj(vec![("client_id", text("cli")), ("scope", JsonValue::Null)]);
    assert_eq!(form_fields(&with_null), vec![("client_id".to_string(), "cli".to_string())]);
}

#[test]
fn poll_answers_decide_the_next_step() {
    let approved = Ok(obj(vec![("access_token", text("at"))]));
    assert!(matches!(poll_verdict(&approved), PollVerdict::Approved));
    let pending = Ok(obj(vec![("error", text("authorization_pending"))]));
    assert!(matches!(poll_verdict(&pending), PollVerdict::Pending));
    let slow = Ok(obj(vec![("error", text("slow_down"))]));
    assert!(matches!(poll_verdict(&slow), PollVerdict::SlowDown));
    let denied = Ok(obj(vec![("error", text("access_denied"))]));
    assert!(matches!(poll_verdict(&denied), PollVerdict::Failed { ref message } if message == "Login was denied."));
    let expired = Ok(obj(vec![("error", text("expired_token"))]));
    assert!(matches!(poll_verdict(&expired), PollVerdict::Failed { ref message }
        if message == "The login request expired before it was approved."));
    let other = Ok(obj(vec![("error", text("weird")), ("error_description", text("why"))]));
    assert!(matches!(poll_verdict(&other), PollVerdict::Failed { ref message } if message == "Login failed: why"));
    let bare = Ok(obj(vec![("error", text("weird"))]));
    assert!(matches!(poll_verdict(&bare), PollVerdict::Failed { ref message } if message == "Login failed: weird"));
    let transport: Result<JsonValue, String> = Err("HTTP 400: authorization_pending".into());
    assert!(matches!(poll_verdict(&transport), PollVerdict::Pending));
    let broken: Result<JsonValue, String> = Err("network down".into());
    assert!(matches!(poll_verdict(&broken), PollVerdict::Failed { ref message } if message == "network down"));
}

#[test]
fn grant_results_keep_errors_and_refuse_other_failures() {
    assert!(grant_result(true, "200 OK", obj(vec![])).is_ok());
    assert!(grant_result(false, "400 Bad Request", obj(vec![("error", text("slow_down"))])).is_ok());
    assert_eq!(grant_result(false, "500 Internal Server Error", obj(vec![])).unwrap_err(), "HTTP 500 Internal Server Error: {}");
}

#[test]
fn tokens_become_an_oauth_credential() {
    let tokens = obj(vec![
        ("access_token", text("at")),
        ("refresh_token", text("rt")),
        ("user", obj(vec![("email", text("ada@example.com"))])),
    ]);
    match oauth_from_tokens(&tokens).unwrap() {
        Auth::Oauth { access_token, refresh_token, email } => {
            assert_eq!(access_token, "at");
            assert_eq!(refresh_token.as_deref(), Some("rt"));
            assert_eq!(email.as_deref(), Some("ada@example.com"));
        }
        Auth::Bearer { .. } => panic!("expected oauth"),
    }
    assert_eq!(
        oauth_from_tokens(&obj(vec![])).err().unwrap(),
        "Token response was missing an access token."
    );
}

#[test]
fn device_grant_prompt_and_polling() {
    let grant = obj(vec![
        ("user_code", text("ABCD")),
        ("verification_uri_complete", text("https://s.test/d?c=ABCD")),
        ("device_code", text("dc")),
        ("interval", JsonValue::Number("5".into())),
    ]);
    assert_eq!(grant_prompt(&grant), ("ABCD".to_string(), "https://s.test/d?c=ABCD".to_string()));
    assert_eq!(grant_polling(&grant).unwrap(), ("dc".to_string(), 300, 5));
    let no_code = obj(vec![("verification_uri", JsonValue::Number("1".into()))]);
    assert_eq!(grant_prompt(&no_code), (String::new(), String::new()));
    assert_eq!(
        grant_polling(&no_code).unwrap_err(),
        "device authorization response missing device_code"
    );
}

// ---------------------------------------------------------------- browse

fn catalog_body() -> JsonValue {
    obj(vec![(
        "tools",
        JsonValue::Array(vec![
            obj(vec![
                ("address", text("tools.github.org.main.repos.list")),
                ("path", text("github.org.main.repos.list")),
                ("description", text("List repos")),
            ]),
            obj(vec![("path", text("github.org.main.issues.get")), ("description", text("Get issue"))]),
            obj(vec![("path", text("demo.echo"))]),
        ]),
    )])
}

#[test]
fn addresses_prefer_address_then_path() {
    assert_eq!(
        tool_addresses(&catalog_body()),
        strings(&["tools.github.org.main.repos.list", "github.org.main.issues.get", "demo.echo"])
    );
}

#[test]
fn browse_retries_under_tools_prefix() {
    let paths = strings(&["tools.github.org.main.repos.list", "tools.github.org.main.issues.get"]);
    let r = inspect_with_tools_prefix(&paths, &strings(&["github"]));
    assert_eq!(r.prefix_segments, strings(&["tools", "github"]));
    assert_eq!(r.matching_tool_count, 2);
    let r = inspect_with_tools_prefix(&paths, &strings(&["nothing"]));
    assert_eq!(r.prefix_segments, strings(&["nothing"]));
    assert_eq!(r.matching_tool_count, 0);
}

#[test]
fn fallback_names_the_segment_that_stopped_matching() {
    let paths = strings(&["github.org.main.list"]);
    let (r, miss) = fallback_inspection(&paths, &strings(&["github", "org", "zzz"]));
    assert_eq!(r.prefix_segments, strings(&["github", "org"]));
    assert_eq!(miss.as_deref(), Some("zzz"));
    let (r, miss) = fallback_inspection(&paths, &strings(&["nope"]));
    assert_eq!(r.prefix_segments, Vec::<String>::new());
    assert_eq!(miss.as_deref(), Some("nope"));
    let (r, miss) = fallback_inspection(&vec![], &strings(&["nope"]));
    assert_eq!(r.matching_tool_count, 0);
    assert_eq!(miss, None);
}

fn child(seg: &str, invokable: bool, has_children: bool, n: usize) -> ToolPathChild {
    ToolPathChild { segment: seg.into(), invokable, has_children, tool_count: n }
}

#[test]
fn children_filter_ignores_case_and_limits() {
    let cs = vec![child("Issues", false, true, 3), child("pulls", true, false, 1), child("isolate", true, true, 2)];
    let f = filter_children(&cs, Some("IS"), None);
    assert_eq!(f, vec![cs[0].clone(), cs[2].clone()]);
    let f = filter_children(&cs, None, Some(1));
    assert_eq!(f, vec![cs[0].clone()]);
    assert_eq!(filter_children(&cs, Some("x"), Some(5)), vec![]);
}

#[test]
fn browse_lines_show_usage_prefix_and_kinds() {
    let cs = vec![child("issues", false, true, 3), child("list", true, false, 1), child("get", true, true, 2), child("z", false, false, 0)];
    let lines = browse_lines(&strings(&["github", "org"]), &cs, Some("i"), Some(20), Some("github.org\tdesc"));
    assert_eq!(
        lines,
        strings(&[
            "Usage: executor call [PATH...] '{json}'",
            "Browse: executor call --help [PATH...] [--match TEXT] [--limit N]",
            "prefix: github.org",
            "match: i",
            "limit: 20",
            "exact:\tgithub.org\tdesc",
            "issues\tns\t3 tools",
            "list\ttool\t1 tools",
            "get\ttool+\t2 tools",
            "z\tleaf\t0 tools",
        ])
    );
    let lines = browse_lines(&vec![], &vec![], None, None, None);
    assert_eq!(lines[2], "prefix: (root)");
    assert_eq!(lines[3], "(no children)");
    assert_eq!(lines.len(), 4);
}

#[test]
fn browse_messages_exact_and_leaf() {
    assert_eq!(no_match_message(&vec![]), "No tools are currently registered.");
    assert_eq!(no_match_message(&strings(&["git", "hub"])), "No tool path starts with \"git.hub\".");
    let body = catalog_body();
    assert_eq!(
        exact_line(&body, "github.org.main.repos.list").as_deref(),
        Some("tools.github.org.main.repos.list\tList repos")
    );
    assert_eq!(exact_line(&body, "demo.echo").as_deref(), Some("demo.echo\t"));
    assert_eq!(exact_line(&body, "missing"), None);
    let leaf = obj(vec![("address", text("tools.a.org.b.c")), ("description", text("d"))]);
    assert_eq!(leaf_lines(&leaf), ("tools.a.org.b.c".to_string(), "d".to_string()));
    assert_eq!(describe_path("a b"), "/api/tools/describe?path=a%20b");
}

#[test]
fn grant_refusal_carries_the_body() {
    let body = JsonValue::Object(vec![("detail".into(), JsonValue::Text("nope".into()))]);
    assert_eq!(grant_result(false, "500 Internal Server Error", body).unwrap_err(), "HTTP 500 Internal Server Error: {\"detail\":\"nope\"}");
    assert_eq!(
        grant_result(false, "502", JsonValue::Number("x".into())).unwrap_err(),
        "HTTP 502"
    );
}

#[test]
fn mcp_fallback_answers_under_the_request_id() {
    let body = JsonValue::Object(vec![
        ("jsonrpc".into(), JsonValue::Text("2.0".into())),
        ("id".into(), JsonValue::Number("7".into())),
        ("method".into(), JsonValue::Text("tools/list".into())),
    ]);
    let expected = JsonValue::Object(vec![
        (
            "error".into(),
            JsonValue::Object(vec![
                ("code".into(), JsonValue::Number("-32000".into())),
                ("message".into(), JsonValue::Text("daemon returned non-JSON".into())),
            ]),
        ),
        ("id".into(), JsonValue::Number("7".into())),
        ("jsonrpc".into(), JsonValue::Text("2.0".into())),
    ]);
    assert_eq!(mcp_fallback(&body, "daemon returned non-JSON"), expected);
    match mcp_fallback(&JsonValue::Array(vec![]), "down") {
        JsonValue::Object(m) => assert_eq!(m[1], ("id".to_owned(), JsonValue::Null)),
        other => panic!("{other:?}"),
    }
}

#[test]
fn profile_store_path_joins_like_a_path() {
    assert_eq!(store_path("/home/u/.executor"), "/home/u/.executor/server-connections.json");
    assert_eq!(store_path("/home/u/.executor/"), "/home/u/.executor/server-connections.json");
    assert_eq!(store_path(""), "server-connections.json");
}

#[test]
fn auth_token_is_lower_hex() {
    assert_eq!(auth_token_from(&[0x00, 0x0f, 0xa5, 0xff]), "000fa5ff");
    assert_eq!(auth_token_from(&[]), "");
}
