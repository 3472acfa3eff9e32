use executor::json::JsonValue;
use executor::json_schema::{validate_against, SchemaError};
use executor::json_ts::json_schema_to_typescript;

fn text(s: &str) -> JsonValue {
    JsonValue::Text(s.to_owned())
}

fn num(s: &str) -> JsonValue {
    JsonValue::Number(s.to_owned())
}

fn obj(members: Vec<(&str, JsonValue)>) -> JsonValue {
    JsonValue::Object(members.into_iter().map(|(k, v)| (k.to_owned(), v)).collect())
}

fn schema() -> JsonValue {
    obj(vec![
        ("properties", obj(vec![("n", obj(vec![("type", text("integer"))])), ("name", obj(vec![("type", text("string"))]))])),
        ("required", JsonValue::Array(vec![text("name")])),
        ("type", text("object")),
    ])
}

#[test]
fn required_and_types() {
    let schema = schema();
    assert!(validate_against(&schema, &obj(vec![("n", num("1")), ("name", text("a"))])).is_ok());
    assert!(validate_against(&schema, &obj(vec![("n", num("1"))])).is_err());
    assert!(validate_against(&schema, &obj(vec![("name", num("1"))])).is_err());
}

#[test]
fn messages_carry_the_path() {
    let schema = schema();
    assert_eq!(
        validate_against(&schema, &obj(vec![("n", num("1"))])),
        Err(SchemaError("missing required property name".into()))
    );
    assert_eq!(
        validate_against(&schema, &obj(vec![("n", num("1.5")), ("name", text("a"))])),
        Err(SchemaError("n: expected integer".into()))
    );
    assert_eq!(validate_against(&schema, &text("x")), Err(SchemaError("expected object".into())));
    let list = obj(vec![("items", obj(vec![("enum", JsonValue::Array(vec![num("1"), text("a")]))]))]);
    assert!(validate_against(&list, &JsonValue::Array(vec![num("1"), text("a")])).is_ok());
    assert_eq!(
        validate_against(&list, &JsonValue::Array(vec![num("1"), text("b")])),
        Err(SchemaError("[1]: value is not in enum".into()))
    );
    let either = obj(vec![("type", JsonValue::Array(vec![text("string"), text("null")]))]);
    assert!(validate_against(&either, &JsonValue::Null).is_ok());
    assert_eq!(validate_against(&either, &num("-3")), Err(SchemaError("type mismatch".into())));
    assert!(validate_against(&text("not a schema"), &num("1")).is_ok());
    assert!(validate_against(&obj(vec![("type", text("integer"))]), &num("-3")).is_ok());
}

#[test]
fn object_with_required_and_optional() {
    let ts = json_schema_to_typescript(&schema());
    assert!(ts.contains("name: string"));
    assert!(ts.contains("n?: number"));
    assert_eq!(ts, "{ n?: number; name: string }");
}

#[test]
fn typescript_of_other_shapes() {
    assert_eq!(json_schema_to_typescript(&text("x")), "unknown");
    assert_eq!(json_schema_to_typescript(&obj(vec![("enum", JsonValue::Array(vec![]))])), "never");
    assert_eq!(
        json_schema_to_typescript(&obj(vec![("enum", JsonValue::Array(vec![text("a\"b"), num("2"), JsonValue::Null]))])),
        "\"a\\\"b\" | 2 | null"
    );
    assert_eq!(json_schema_to_typescript(&obj(vec![("const", JsonValue::Bool(true))])), "true");
    assert_eq!(
        json_schema_to_typescript(&obj(vec![("items", obj(vec![("type", text("boolean"))])), ("type", text("array"))])),
        "boolean[]"
    );
    assert_eq!(json_schema_to_typescript(&obj(vec![("type", text("array"))])), "unknown[]");
    assert_eq!(json_schema_to_typescript(&obj(vec![])), "Record<string, unknown>");
    assert_eq!(
        json_schema_to_typescript(&obj(vec![("additionalProperties", JsonValue::Bool(true))])),
        "{ [k: string]: unknown }"
    );
    assert_eq!(json_schema_to_typescript(&obj(vec![("type", text("date"))])), "unknown");
    let mut deep = obj(vec![("type", text("string"))]);
    for _ in 0..10 {
        deep = obj(vec![("items", deep), ("type", text("array"))]);
    }
    assert_eq!(json_schema_to_typescript(&deep), "unknown[][][][][][][][][]");
}
