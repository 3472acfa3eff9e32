use executor::json::JsonValue;
use executor::path::{
    build_tool_path, compile_call, inspect_tool_path, invocation_input_file, resolve_invocation,
    ToolPathError,
};

fn owned(parts: &[&str]) -> Vec<String> {
    parts.iter().map(|s| (*s).to_owned()).collect()
}

#[test]
fn builds_and_inspects() {
    let path = build_tool_path(&owned(&["github", "issues.create"])).unwrap();
    assert_eq!(path, "github.issues.create");
    let paths = vec![
        "tools.github.org.work.issues.create".into(),
        "tools.github.org.work.issues.list".into(),
        "executor.openapi.addSpec".into(),
    ];
    let inspection = inspect_tool_path(&paths, &["tools".into(), "github".into()]);
    assert_eq!(inspection.matching_tool_count, 2);
    assert_eq!(inspection.children.len(), 1);
    assert_eq!(inspection.children[0].segment, "org");
}

#[test]
fn invocation_json() {
    let inv = resolve_invocation(
        &["github".into(), "issues".into(), "create".into(), r#"{"title":"Hi"}"#.into()],
        None,
    )
    .unwrap();
    assert_eq!(inv.path, "github.issues.create");
    let title = inv.args.iter().find(|(k, _)| k == "title").map(|(_, v)| v);
    assert_eq!(title, Some(&JsonValue::Text("Hi".into())));
}

#[test]
fn rejects_flags() {
    let err = resolve_invocation(&["github".into(), "--help".into()], None).unwrap_err();
    assert_eq!(err, ToolPathError::Flags);
}

#[test]
fn rejects_bad_segment() {
    assert!(build_tool_path(&owned(&["bad*"])).is_err());
}

#[test]
fn compiles_call_to_bracket_access() {
    let args = JsonValue::Object(vec![("n".into(), JsonValue::Number("1".into()))]);
    let src = compile_call("echo.org.work.ping", &args);
    assert_eq!(src, r#"return await tools["echo.org.work.ping"]({"n":1});"#);
}

#[test]
fn build_errors_and_trimming() {
    assert_eq!(build_tool_path(&owned(&[" . ", ""])), Err(ToolPathError::Empty));
    assert_eq!(build_tool_path(&owned(&["a..b ", " c"])).unwrap(), "a.b.c");
    assert_eq!(build_tool_path(&owned(&["a b"])), Err(ToolPathError::BadSegment));
}

#[test]
fn inspection_children_sorted_with_flags() {
    let paths: Vec<String> = owned(&["x.b", "x.a.deep", "x.a", "x", "y.z", "x.b"]);
    let r = inspect_tool_path(&paths, &["x".into()]);
    assert_eq!(r.prefix_segments, vec!["x".to_owned()]);
    assert_eq!(r.exact_path, Some("x".to_owned()));
    assert_eq!(r.matching_tool_count, 5);
    let segs: Vec<&str> = r.children.iter().map(|c| c.segment.as_str()).collect();
    assert_eq!(segs, vec!["a", "b"]);
    assert!(r.children[0].invokable && r.children[0].has_children);
    assert_eq!(r.children[0].tool_count, 2);
    assert!(r.children[1].invokable && !r.children[1].has_children);
    assert_eq!(r.children[1].tool_count, 2);
    let all = inspect_tool_path(&paths, &[]);
    assert_eq!(all.matching_tool_count, 6);
    assert_eq!(all.exact_path, None);
}

#[test]
fn file_inputs() {
    assert_eq!(invocation_input_file(&owned(&["a", " @"])), Err(ToolPathError::EmptyFileRef));
    assert_eq!(invocation_input_file(&owned(&["a", "@in.json"])), Ok(Some("in.json".to_owned())));
    assert_eq!(invocation_input_file(&owned(&["a", "{}"])), Ok(None));
    let inv = resolve_invocation(&owned(&["a", "b", "@in.json"]), Some("  {\"k\": true} ")).unwrap();
    assert_eq!(inv.path, "a.b");
    assert_eq!(inv.args, vec![("k".to_owned(), JsonValue::Bool(true))]);
    assert_eq!(
        resolve_invocation(&owned(&["a", "@in.json"]), Some("[1]")),
        Err(ToolPathError::FileNotObject("in.json".to_owned()))
    );
    assert_eq!(resolve_invocation(&owned(&["a", "[1]"]), None), Err(ToolPathError::BadSegment));
}

#[test]
fn json_argument_errors() {
    assert_eq!(resolve_invocation(&owned(&["a", "{\"k\":[}"]), None).unwrap_err().message().starts_with("invalid JSON arguments: "), true);
    assert!(matches!(resolve_invocation(&owned(&["a", "{x"]), None), Err(ToolPathError::InvalidJson(_))));
    assert_eq!(ToolPathError::Flags.message(), "tool invocation no longer accepts flags. Use: executor call <path...> '{...json...}'");
}

#[test]
fn compile_call_writes_path_and_args() {
    let args = JsonValue::Object(vec![("n".into(), JsonValue::Number("1".into()))]);
    assert_eq!(compile_call("a.b", &args), "return await tools[\"a.b\"]({\"n\":1});");
    let bad = JsonValue::Object(vec![("n".into(), JsonValue::Number("x".into()))]);
    assert_eq!(compile_call("a\"b", &bad), "return await tools[\"a\\\"b\"]({});");
}
