use executor::profiles::{
    active, identity, profile_lines, remove, set_default, upsert, validate_name, whoami_line, whoami_profile,
    Auth, Store,
};
use executor::service::{launchd_plist, schtasks_command, schtasks_trigger, systemd_unit, SERVICE_LABEL};

#[test]
fn rejects_spaces() {
    assert!(validate_name("bad name").is_err());
    assert_eq!(validate_name("prod").unwrap(), "prod");
}

#[test]
fn upsert_replaces_sorts_and_defaults() {
    let store = Store::default();
    let store = upsert(store, " zeta ", "https://z.test///", None, false).unwrap();
    assert_eq!(store.default_profile.as_deref(), Some("zeta"));
    assert_eq!(store.profiles[0].connection.origin, "https://z.test");
    let store = upsert(store, "alpha", "https://a.test", Some(Auth::Bearer { token: "t".into() }), false).unwrap();
    assert_eq!(store.default_profile.as_deref(), Some("zeta"));
    let names: Vec<&str> = store.profiles.iter().map(|p| p.name.as_str()).collect();
    assert_eq!(names, vec!["alpha", "zeta"]);
    let store = upsert(store, "zeta", "https://z2.test", None, true).unwrap();
    assert_eq!(store.profiles.len(), 2);
    assert_eq!(store.profiles[1].connection.origin, "https://z2.test");
    assert!(upsert(store, "no good", "x", None, false).is_err());
}

#[test]
fn default_and_removal() {
    let store = upsert(Store::default(), "a", "https://a", None, false).unwrap();
    let store = upsert(store, "b", "https://b", None, false).unwrap();
    assert_eq!(active(&store).unwrap().name, "a");
    let store = set_default(store, "b").unwrap();
    assert_eq!(active(&store).unwrap().name, "b");
    assert_eq!(set_default(store.clone(), "c").unwrap_err(), "No server profile named \"c\".");
    let store = remove(store, "b").unwrap();
    assert_eq!(store.default_profile, None);
    assert_eq!(active(&store).unwrap().name, "a");
    let store = remove(store, "a").unwrap();
    assert!(active(&store).is_none());
}

#[test]
fn label_matches_original() {
    assert_eq!(SERVICE_LABEL, "sh.executor.daemon");
}

#[test]
fn service_units() {
    let unit = systemd_unit("/bin/executor", "/data", 4788);
    assert_eq!(
        unit,
        "[Unit]\nDescription=Executor daemon\n[Service]\nExecStart=/bin/executor daemon run --foreground --port 4788 --hostname 127.0.0.1\nEnvironment=EXECUTOR_DATA_DIR=/data\nRestart=on-failure\n[Install]\nWantedBy=default.target\n"
    );
    let plist = launchd_plist("/bin/executor", "/data", 80);
    assert!(plist.contains("<key>Label</key><string>sh.executor.daemon</string>"));
    assert!(plist.contains("<string>80</string>"));
    assert_eq!(schtasks_trigger(true), "ONSTART");
    assert_eq!(schtasks_trigger(false), "ONLOGON");
    assert_eq!(
        schtasks_command("C:\\x.exe", 7),
        "\"C:\\x.exe\" daemon run --foreground --port 7 --hostname 127.0.0.1"
    );
}

#[test]
fn roundtrip_profile() {
    let store = upsert(Store::default(), "cloud", "https://example.test", None, true).unwrap();
    assert_eq!(store.default_profile.as_deref(), Some("cloud"));
    assert_eq!(store.profiles[0].connection.origin, "https://example.test");
}

#[test]
fn whoami_reports_named_or_active_profile() {
    let store = upsert(Store::default(), "cloud", "https://c.test", None, true).unwrap();
    let store = upsert(
        store,
        "work",
        "https://w.test",
        Some(Auth::Oauth { access_token: "a".into(), refresh_token: None, email: Some("ada@example.com".into()) }),
        false,
    )
    .unwrap();
    let p = whoami_profile(&store, None).unwrap();
    assert_eq!(whoami_line(p), "cloud\thttps://c.test\t(anonymous)");
    let p = whoami_profile(&store, Some("work")).unwrap();
    assert_eq!(whoami_line(p), "work\thttps://w.test\tada@example.com");
    assert_eq!(whoami_profile(&store, Some("nope")).err().unwrap(), "No server profile named \"nope\".");
    assert_eq!(
        whoami_profile(&Store::default(), None).err().unwrap(),
        "no server profile; run executor login"
    );
    assert_eq!(identity(&Some(Auth::Bearer { token: "t".into() })), "(bearer)");
    assert_eq!(
        identity(&Some(Auth::Oauth { access_token: "a".into(), refresh_token: None, email: None })),
        "(oauth)"
    );
    assert_eq!(profile_lines(&store), vec!["* cloud\thttps://c.test".to_string(), "  work\thttps://w.test".to_string()]);
    assert_eq!(profile_lines(&Store::default()), vec!["(no server profiles)".to_string()]);
}
