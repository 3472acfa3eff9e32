use executor::catalog::yaml::{
    endpoint_from_yaml, flag_on, parse_treg_value, parse_yaml, query_schema, skip_file, treg_items, usd_cost_text,
    yaml_json, YamlValue,
};
use executor::catalog::{Access, Endpoint};
use executor::json::JsonValue;

/// The floating-point part of the price conversion, as the daemon does it.
fn micro_from_usd(text: &str) -> Option<i64> {
    let v = text.parse::<serde_yaml::Number>().ok()?.as_f64()?;
    if v < 0.0 {
        return None;
    }
    Some((v * 1_000_000.0).round() as i64)
}

fn endpoints(text: &str) -> Vec<Endpoint> {
    let doc = yaml_json(&parse_yaml(text).unwrap());
    let (_, items) = treg_items(&doc);
    let costs: Vec<Option<i64>> = items
        .map(|items| items.iter().map(|it| usd_cost_text(it).and_then(|t| micro_from_usd(&t))).collect())
        .unwrap_or_default();
    parse_treg_value(&doc, &costs)
}

#[test]
fn yaml_reads_provider_endpoints() {
    let eps = endpoints(
        "provider: demo\nendpoints:\n  - id: demo.ping\n    name: Ping\n    method: GET\n    path: /ping\n    cost: { value: 0, currency: usd }\n",
    );
    assert_eq!(eps.len(), 1);
    assert_eq!(eps[0].id, "demo.ping");
    assert_eq!(eps[0].provider, "demo");
    assert_eq!(eps[0].cost_micro, Some(0));
    assert_eq!(eps[0].access, Access::Platform);
    assert_eq!(eps[0].base_url, "mock://demo");
    assert_eq!(eps[0].capability, "demo.ping");
    assert_eq!(eps[0].jobs, vec!["demo ping".to_owned(), "ping".to_owned(), "demo".to_owned()]);
}

#[test]
fn yaml_strict_query_and_usd_price() {
    let eps = endpoints(
        r"provider: harvestapi
endpoints:
  - id: harvestapi.linkedin.user.profile
    name: Perfil LinkedIn
    method: GET
    path: /linkedin/profile
    capability: linkedin.user.profile
    strict_query: true
    input:
      queryParams:
        publicIdentifier: { type: string, required: true, example: williamhgates }
        url: { type: string, required: false }
    cost: { value: 0.0064, currency: USD }
  - name: no id
  - id: ''
",
    );
    assert_eq!(eps.len(), 1);
    let ep = &eps[0];
    assert!(ep.strict_query);
    assert_eq!(ep.cost_micro, Some(6400));
    let field = |name: &str| match &ep.query {
        JsonValue::Object(m) => m.iter().find(|(k, _)| k == name).map(|(_, v)| v.clone_shallow()),
        _ => None,
    };
    assert_eq!(
        field("publicIdentifier"),
        Some(vec![
            ("example".to_owned(), "williamhgates".to_owned()),
            ("required".to_owned(), "true".to_owned()),
            ("type".to_owned(), "string".to_owned())
        ])
    );
    assert_eq!(
        field("url"),
        Some(vec![("required".to_owned(), "false".to_owned()), ("type".to_owned(), "string".to_owned())])
    );
}

trait Shallow {
    fn clone_shallow(&self) -> Vec<(String, String)>;
}

impl Shallow for JsonValue {
    fn clone_shallow(&self) -> Vec<(String, String)> {
        match self {
            JsonValue::Object(m) => m
                .iter()
                .map(|(k, v)| {
                    let t = match v {
                        JsonValue::Text(t) => t.clone(),
                        JsonValue::Bool(b) => b.to_string(),
                        _ => "?".to_owned(),
                    };
                    (k.clone(), t)
                })
                .collect(),
            _ => vec![],
        }
    }
}

#[test]
fn credits_are_not_a_usd_price() {
    let eps = endpoints(
        "provider: hunter\nendpoints:\n  - id: hunter.people.email.find\n    name: YAML\n    cost: { value: 1, currency: credit }\n  - id: hunter.neg\n    cost: { value: -1 }\n",
    );
    assert_eq!(eps[0].cost_micro, None);
    assert_eq!(eps[0].access, Access::OwnKeyOnly);
    assert_eq!(eps[1].cost_micro, None);
}

#[test]
fn bare_list_is_provider_unknown() {
    let eps = endpoints("- id: a.b\n  jobs: [find things, 3]\n  example: 1\n");
    assert_eq!(eps.len(), 1);
    assert_eq!(eps[0].provider, "unknown");
    assert_eq!(eps[0].jobs, vec!["find things".to_owned()]);
}

#[test]
fn schema_examples_and_enums() {
    let doc = yaml_json(&parse_yaml("a: { example: 10.0, enum: [x, 2, y] }\nb: { example: 42, type: integer }\nc: { example: true }\n").unwrap());
    let schema = query_schema(Some(&doc));
    let expected = JsonValue::Object(vec![
        (
            "a".into(),
            JsonValue::Object(vec![
                ("enum".into(), JsonValue::Array(vec![JsonValue::Text("x".into()), JsonValue::Text("y".into())])),
                ("example".into(), JsonValue::Text("10".into())),
                ("required".into(), JsonValue::Bool(false)),
                ("type".into(), JsonValue::Text("string".into())),
            ]),
        ),
        (
            "b".into(),
            JsonValue::Object(vec![
                ("example".into(), JsonValue::Text("42".into())),
                ("required".into(), JsonValue::Bool(false)),
                ("type".into(), JsonValue::Text("integer".into())),
            ]),
        ),
        (
            "c".into(),
            JsonValue::Object(vec![
                ("example".into(), JsonValue::Text("true".into())),
                ("required".into(), JsonValue::Bool(false)),
                ("type".into(), JsonValue::Text("string".into())),
            ]),
        ),
    ]);
    assert_eq!(schema, expected);
    assert_eq!(query_schema(None), JsonValue::Object(vec![]));
}

#[test]
fn schema_fields_come_sorted() {
    let doc = yaml_json(&parse_yaml("zeta: {}\nalpha: {}\n").unwrap());
    match query_schema(Some(&doc)) {
        JsonValue::Object(m) => {
            let names: Vec<&str> = m.iter().map(|(k, _)| k.as_str()).collect();
            assert_eq!(names, vec!["alpha", "zeta"]);
        }
        _ => panic!("object"),
    }
}

#[test]
fn entry_without_id_is_skipped() {
    let doc = yaml_json(&parse_yaml("name: x\n").unwrap());
    assert!(endpoint_from_yaml(&doc, "p", None).is_none());
}

#[test]
fn meta_and_extended_files_are_skipped() {
    assert!(skip_file(Some("Adapters.YAML"), false));
    assert!(skip_file(Some("hunter.extended.yaml"), false));
    assert!(!skip_file(Some("hunter.extended.yaml"), true));
    assert!(!skip_file(Some("hunter.yaml"), false));
    assert!(skip_file(None, true));
    assert!(flag_on("TRUE") && flag_on("1") && flag_on("yes"));
    assert!(!flag_on("on"));
}

#[test]
fn yaml_mappings_keep_every_key_and_json_keeps_string_keys() {
    let doc = parse_yaml("1: one\nname: x\n[2]: two\n").unwrap();
    match &doc {
        YamlValue::Mapping(m) => {
            assert_eq!(m.len(), 3);
            assert_eq!(m[0].0, YamlValue::Number("1".into()));
        },
        _ => panic!("expected a mapping"),
    }
    assert_eq!(
        yaml_json(&doc),
        JsonValue::Object(vec![("name".into(), JsonValue::Text("x".into()))])
    );
}
