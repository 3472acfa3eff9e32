use executor::codemode::eval::{run, HostAnswer, HostRequest, RunStep};
use executor::codemode::parse::parse;
use executor::execution::ExecutionId;
use executor::json::JsonValue;
use executor::outcome::{Outcome, PauseReason, PausedExecution, ToolResult};

fn text(s: &str) -> JsonValue {
    JsonValue::Text(s.to_owned())
}

fn num(s: &str) -> JsonValue {
    JsonValue::Number(s.to_owned())
}

fn obj(ms: Vec<(&str, JsonValue)>) -> JsonValue {
    JsonValue::Object(ms.into_iter().map(|(k, v)| (k.to_owned(), v)).collect())
}

fn completed(v: JsonValue) -> HostAnswer {
    HostAnswer::Invoked(Outcome::Completed {
        result: ToolResult::ok(v),
        execution_id: ExecutionId::new("exec_1").unwrap(),
    })
}

fn paused() -> HostAnswer {
    HostAnswer::Invoked(Outcome::Paused {
        execution: PausedExecution {
            id: ExecutionId::new("exec_2").unwrap(),
            reason: PauseReason::Auth { message: "log in".into(), url: None },
            expires_at_ms: 5,
        },
    })
}

fn go(src: &str, answers: &Vec<HostAnswer>, max: u32) -> RunStep {
    run(&parse(src).unwrap(), answers, max)
}

fn error_of(r: RunStep) -> String {
    match r {
        RunStep::Error(m) => m,
        _ => panic!("expected an error"),
    }
}

#[test]
fn run_without_calls_returns_value() {
    match go("let a = { x: 1, y: [true, null] }; return a.y;", &vec![], 10) {
        RunStep::Value(v) => assert_eq!(v, JsonValue::Array(vec![JsonValue::Bool(true), JsonValue::Null])),
        _ => panic!("expected a value"),
    }
}

#[test]
fn run_last_expression_is_the_value() {
    match go("let a = { b: 2 }\na.b", &vec![], 10) {
        RunStep::Value(v) => assert_eq!(v, num("2")),
        _ => panic!("expected a value"),
    }
}

#[test]
fn object_members_are_key_ordered_and_replaced() {
    match go("return { b: 1, a: 2, b: 3 };", &vec![], 10) {
        RunStep::Value(v) => assert_eq!(v, obj(vec![("a", num("2")), ("b", num("3"))])),
        _ => panic!("expected a value"),
    }
}

#[test]
fn compiled_call_asks_then_completes() {
    let src = "return await tools[\"echo.org.work.ping\"]({ n: 1 });";
    match go(src, &vec![], 10) {
        RunStep::Ask(HostRequest::Invoke(path, payload)) => {
            assert_eq!(path, "echo.org.work.ping");
            assert_eq!(payload, obj(vec![("n", num("1"))]));
        },
        _ => panic!("expected a request"),
    }
    assert!(matches!(go(src, &vec![completed(text("pong"))], 10), RunStep::Completed(0)));
    assert!(matches!(go(src, &vec![paused()], 10), RunStep::Paused(0)));
}

#[test]
fn member_path_call_and_failure() {
    let src = "tools.github.issues.list({})";
    match go(src, &vec![], 10) {
        RunStep::Ask(HostRequest::Invoke(path, payload)) => {
            assert_eq!(path, "github.issues.list");
            assert_eq!(payload, obj(vec![]));
        },
        _ => panic!("expected a request"),
    }
    assert_eq!(error_of(go(src, &vec![HostAnswer::Failed("boom".into())], 10)), "boom");
}

#[test]
fn completed_expression_statement_gives_envelope() {
    let r = go("await tools.a.b({})", &vec![completed(JsonValue::Bool(true))], 10);
    match r {
        RunStep::Value(v) => assert_eq!(v, ToolResult::ok(JsonValue::Bool(true)).envelope()),
        _ => panic!("expected a value"),
    }
}

#[test]
fn bound_invocation_binds_its_envelope() {
    let r = go("const r = await tools.a.b(); return r.data;", &vec![completed(text("x"))], 10);
    match r {
        RunStep::Value(v) => assert_eq!(v, text("x")),
        _ => panic!("expected a value"),
    }
}

#[test]
fn search_builtin_uses_host_json() {
    let src = "const r = await tools.search({ query: \"mail\" }); return r.items;";
    match go(src, &vec![], 10) {
        RunStep::Ask(HostRequest::Search(p)) => assert_eq!(p, obj(vec![("query", text("mail"))])),
        _ => panic!("expected a search request"),
    }
    let answer = HostAnswer::Json(obj(vec![("items", JsonValue::Array(vec![text("gmail")]))]));
    match go(src, &vec![answer], 10) {
        RunStep::Value(v) => assert_eq!(v, JsonValue::Array(vec![text("gmail")])),
        _ => panic!("expected a value"),
    }
}

#[test]
fn describe_tool_checks_its_payload() {
    assert_eq!(
        error_of(go("tools.describe.tool({ path: \"a.b\", includeSchemas: true })", &vec![], 10)),
        "tools.describe.tool no longer accepts includeSchemas"
    );
    assert_eq!(error_of(go("tools.describe.tool({ path: \"\" })", &vec![], 10)), "describe.tool requires a path");
    assert_eq!(
        error_of(go("tools.describe.tool(1)", &vec![], 10)),
        "tools.describe.tool expects an object: { path: string }"
    );
    assert!(matches!(
        go("tools.describe.tool({ path: \"a.b\" })", &vec![], 10),
        RunStep::Ask(HostRequest::Describe(p)) if p == "a.b"
    ));
}

#[test]
fn max_tool_calls_is_enforced() {
    assert_eq!(error_of(go("tools.a.b({})", &vec![], 0)), "max_tool_calls (0) exceeded");
    let src = "const x = await tools.a.b({}); const y = await tools.a.c({}); return 1;";
    let answers = vec![completed(JsonValue::Null)];
    assert_eq!(error_of(go(src, &answers, 1)), "max_tool_calls (1) exceeded");
    assert!(matches!(go(src, &answers, 2), RunStep::Ask(HostRequest::Invoke(p, _)) if p == "a.c"));
}

#[test]
fn evaluation_errors() {
    assert_eq!(error_of(go("return nope;", &vec![], 10)), "unknown identifier nope");
    assert_eq!(error_of(go("let a = { x: 1 }; return a.y;", &vec![], 10)), "missing property y");
    assert_eq!(error_of(go("let n = 1; return n.y;", &vec![], 10)), "property access on non-object");
    assert_eq!(error_of(go("return tools;", &vec![], 10)), "tools is not a JSON value");
    assert_eq!(error_of(go("let a = 1; a(2)", &vec![], 10)), "can only call tools.* functions");
    assert_eq!(
        error_of(go("let a = await tools.x.y(); return 1;", &vec![paused()], 10)),
        "paused execution cannot bind"
    );
    assert_eq!(
        error_of(go("tools.x.y()", &vec![HostAnswer::Json(JsonValue::Null)], 10)),
        "host answer does not fit the request"
    );
}

#[test]
fn extra_answers_do_not_change_a_finished_run() {
    let src = "const r = await tools.a.b({}); return r.data;";
    let one = vec![completed(text("x"))];
    let more = vec![completed(text("x")), completed(text("y")), HostAnswer::Failed("late".into())];
    match (go(src, &one, 10), go(src, &more, 10)) {
        (RunStep::Value(a), RunStep::Value(b)) => assert_eq!(a, b),
        _ => panic!("expected values"),
    }
}
