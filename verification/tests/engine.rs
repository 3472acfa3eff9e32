use executor::address::tool_address;
use executor::codemode::bridge::{arg_bytes, bridge_route, fail_reply, host_reply, invoke_reply, ok_reply, BridgeRoute};
use executor::engine::lookup::{list_filtered, resolve_path, Resolved};
use executor::engine::{
    approval_pause, check_args, claim_won, dispatch_plan, gate, persisted_state, resume_step,
    stored_outcome, DispatchPlan, ResumeStep,
};
use executor::error::ExecutorError;
use executor::execution::{ExecutionId, IdMinter, ResumeAction, ToolHttpMeta};
use executor::id::{ConnectionName, IntegrationSlug, PluginId, PolicyId, ToolName};
use executor::json::JsonValue;
use executor::outcome::{ExecutionState, Outcome, PauseReason, PausedExecution, ToolError, ToolResult};
use executor::owner::Owner;
use executor::policy::{PolicyAction, PolicyPattern, ToolPolicy};
use executor::tool::{Tool, ToolAnnotations, ToolListFilter};

fn text(s: &str) -> JsonValue {
    JsonValue::Text(s.to_owned())
}

fn obj(members: Vec<(&str, JsonValue)>) -> JsonValue {
    JsonValue::Object(members.into_iter().map(|(k, v)| (k.to_owned(), v)).collect())
}

fn tool(integration: &str, owner: Owner, connection: &str, name: &str, description: &str) -> Tool {
    let i = IntegrationSlug::new(integration).unwrap();
    let c = ConnectionName::new(connection).unwrap();
    let n = ToolName::new(name).unwrap();
    Tool {
        address: tool_address(owner, i.clone(), c.clone(), n.clone()),
        owner,
        integration: i,
        connection: c,
        name: n,
        plugin_id: PluginId::new("openapi").unwrap(),
        description: description.into(),
        input_schema: None,
        output_schema: None,
        annotations: None,
        static_tool: false,
        plugin_meta: None,
    }
}

fn static_tool(name: &str, requires_approval: bool) -> Tool {
    let mut t = tool("executor", Owner::Org, "core", name, "built-in");
    t.static_tool = true;
    t.annotations = Some(ToolAnnotations {
        requires_approval: Some(requires_approval),
        approval_description: Some("add a spec".into()),
        may_elicit: None,
    });
    t
}

fn policy(id: &str, pattern: &str, action: PolicyAction, owner: Owner) -> ToolPolicy {
    ToolPolicy {
        id: PolicyId::new(id).unwrap(),
        owner,
        pattern: PolicyPattern::new(pattern).unwrap(),
        action,
        position: "a0".into(),
    }
}

fn id(s: &str) -> ExecutionId {
    ExecutionId::new(s).unwrap()
}

// ---------------------------------------------------------------- results

#[test]
fn envelope_of_success_and_failure() {
    let ok = ToolResult::ok(obj(vec![("x", JsonValue::Number("1".into()))]));
    assert_eq!(
        ok.envelope(),
        obj(vec![("data", obj(vec![("x", JsonValue::Number("1".into()))])), ("ok", JsonValue::Bool(true))])
    );
    let http = ToolResult::ok_http(
        JsonValue::Null,
        ToolHttpMeta { status: 201, headers: vec![("etag".into(), "v1".into())] },
    );
    assert_eq!(
        http.envelope(),
        obj(vec![
            ("data", JsonValue::Null),
            (
                "http",
                obj(vec![
                    ("headers", JsonValue::Array(vec![JsonValue::Array(vec![text("etag"), text("v1")])])),
                    ("status", JsonValue::Number("201".into())),
                ])
            ),
            ("ok", JsonValue::Bool(true)),
        ])
    );
    let err = ToolResult::fail(ToolError {
        code: "declined".into(),
        message: "no".into(),
        status: Some(403),
        details: None,
        retryable: Some(false),
    });
    assert_eq!(
        err.envelope(),
        obj(vec![
            (
                "error",
                obj(vec![
                    ("code", text("declined")),
                    ("message", text("no")),
                    ("retryable", JsonValue::Bool(false)),
                    ("status", JsonValue::Number("403".into())),
                ])
            ),
            ("ok", JsonValue::Bool(false)),
        ])
    );
}

#[test]
fn cli_json_of_completed_and_paused() {
    let done = Outcome::Completed { result: ToolResult::ok(JsonValue::Bool(true)), execution_id: id("exec_1") };
    assert_eq!(
        done.cli_json(),
        obj(vec![
            ("executionId", text("exec_1")),
            ("result", obj(vec![("data", JsonValue::Bool(true)), ("ok", JsonValue::Bool(true))])),
            ("status", text("completed")),
        ])
    );
    let paused = Outcome::Paused {
        execution: PausedExecution {
            id: id("exec_2"),
            reason: PauseReason::Auth { message: "log in".into(), url: Some("https://a.test".into()) },
            expires_at_ms: 5,
        },
    };
    assert_eq!(
        paused.cli_json(),
        obj(vec![
            ("executionId", text("exec_2")),
            (
                "interaction",
                obj(vec![("kind", text("auth")), ("message", text("log in")), ("url", text("https://a.test"))])
            ),
            ("status", text("paused")),
        ])
    );
}

// ---------------------------------------------------------------- gate

#[test]
fn policy_block_refuses_with_the_rule() {
    let t = tool("vercel", Owner::Org, "main", "dns.create", "Create record");
    let policies = vec![policy("p1", "vercel.org.main.*", PolicyAction::Block, Owner::Org)];
    match gate(&t, &policies) {
        Err(ExecutorError::ToolBlocked { address, pattern, policy_id }) => {
            assert_eq!(address, "vercel.org.main.dns.create");
            assert_eq!(pattern, "vercel.org.main.*");
            assert_eq!(policy_id, "p1");
        }
        _ => panic!("expected ToolBlocked"),
    }
    assert!(matches!(dispatch_plan(&t, &policies, true), Err(ExecutorError::ToolBlocked { .. })));
}

#[test]
fn approval_pauses_unless_approved_up_front() {
    let t = tool("vercel", Owner::Org, "main", "dns.create", "Create record");
    let policies = vec![policy("p1", "vercel.*", PolicyAction::RequireApproval, Owner::User)];
    assert!(matches!(dispatch_plan(&t, &policies, false), Ok(DispatchPlan::Pause)));
    assert!(matches!(dispatch_plan(&t, &policies, true), Ok(DispatchPlan::Invoke)));
    assert!(matches!(dispatch_plan(&t, &vec![], false), Ok(DispatchPlan::Invoke)));
    let s = static_tool("executor.openapi.addSpec", true);
    assert!(matches!(gate(&s, &vec![]), Ok(PolicyAction::RequireApproval)));
}

#[test]
fn approval_pause_records_what_to_replay() {
    let s = static_tool("executor.openapi.addSpec", true);
    let args = obj(vec![("slug", text("petstore"))]);
    let (outcome, state) = approval_pause(&s, obj(vec![("slug", text("petstore"))]), &id("exec_9"), 1000, 500);
    match &outcome {
        Outcome::Paused { execution } => {
            assert_eq!(execution.id.as_str(), "exec_9");
            assert_eq!(execution.expires_at_ms, 1500);
            match &execution.reason {
                PauseReason::Approval { address, args: a, description } => {
                    assert_eq!(address, "executor.openapi.addSpec");
                    assert_eq!(a, &args);
                    assert_eq!(description.as_deref(), Some("add a spec"));
                }
                _ => panic!("expected approval"),
            }
        }
        _ => panic!("expected pause"),
    }
    match state {
        ExecutionState::Paused { address, args: a, approved, .. } => {
            assert_eq!(address, "executor.openapi.addSpec");
            assert_eq!(a, args);
            assert!(!approved);
        }
        _ => panic!("expected paused state"),
    }
    let (o, _) = approval_pause(&s, JsonValue::Null, &id("e"), u64::MAX - 1, 10);
    assert!(matches!(o, Outcome::Paused { execution } if execution.expires_at_ms == u64::MAX));
}

// ---------------------------------------------------------------- resume and replay

fn paused_state() -> ExecutionState {
    ExecutionState::Paused {
        execution: PausedExecution {
            id: id("exec_3"),
            reason: PauseReason::Approval { address: "demo.echo".into(), args: JsonValue::Null, description: None },
            expires_at_ms: 9,
        },
        address: "tools.demo.org.main.echo".into(),
        args: obj(vec![("a", JsonValue::Bool(true))]),
        approved: false,
    }
}

#[test]
fn approval_pause_and_resume_steps() {
    match resume_step(Some(paused_state()), ResumeAction::Accept, &id("exec_3")) {
        Ok(ResumeStep::Invoke { address, args }) => {
            assert_eq!(address, "tools.demo.org.main.echo");
            assert_eq!(args, obj(vec![("a", JsonValue::Bool(true))]));
        }
        _ => panic!("expected invoke"),
    }
    match resume_step(Some(paused_state()), ResumeAction::Decline, &id("exec_3")) {
        Ok(ResumeStep::Finished(Outcome::Completed { result: ToolResult::Failure { error }, execution_id })) => {
            assert_eq!(error.code, "declined");
            assert_eq!(error.message, "execution was not approved");
            assert_eq!(error.retryable, Some(false));
            assert_eq!(execution_id.as_str(), "exec_3");
        }
        _ => panic!("expected declined"),
    }
    assert!(matches!(
        resume_step(None, ResumeAction::Accept, &id("gone")),
        Err(ExecutorError::ExecutionNotFound(ref s)) if s == "gone"
    ));
    assert!(matches!(
        resume_step(Some(ExecutionState::Running), ResumeAction::Cancel, &id("r")),
        Err(ExecutorError::NotPaused(ref s)) if s == "r"
    ));
}

#[test]
fn idempotent_replay_gives_back_first_outcome() {
    let first = Outcome::Completed { result: ToolResult::ok(text("hi")), execution_id: id("exec_5") };
    let kept = persisted_state(&first);
    let again = stored_outcome(Some(&kept), &id("exec_5")).unwrap();
    assert_eq!(again.cli_json(), first.cli_json());
    assert!(stored_outcome(Some(&ExecutionState::Running), &id("exec_5")).is_none());
    assert!(stored_outcome(None, &id("exec_5")).is_none());
    let p = paused_state();
    let pause = match stored_outcome(Some(&p), &id("exec_3")) {
        Some(Outcome::Paused { execution }) => execution,
        _ => panic!("expected pause"),
    };
    assert_eq!(pause.id.as_str(), "exec_3");
    assert!(claim_won(None, &id("a")));
    assert!(claim_won(Some(&id("a")), &id("a")));
    assert!(!claim_won(Some(&id("b")), &id("a")));
}

#[test]
fn arguments_are_checked_against_the_schema() {
    assert!(check_args(None, &JsonValue::Null).is_ok());
    assert!(check_args(None, &obj(vec![])).is_ok());
    assert!(matches!(
        check_args(None, &text("x")),
        Err(ExecutorError::InvalidArgs(ref m)) if m == "arguments must be a JSON object"
    ));
    let schema = obj(vec![("type", text("object")), ("required", JsonValue::Array(vec![text("q")]))]);
    assert!(check_args(Some(&schema), &obj(vec![("q", text("x"))])).is_ok());
    assert!(matches!(check_args(Some(&schema), &obj(vec![])), Err(ExecutorError::InvalidArgs(_))));
}

// ---------------------------------------------------------------- lookup

#[test]
fn resolve_by_static_key_address_prefix_and_scan() {
    let stored = vec![
        tool("github", Owner::Org, "main", "repos.list", "List repositories"),
        tool("github", Owner::Org, "main", "issues.get", "Get an issue"),
    ];
    let statics = vec![static_tool("executor.openapi.addSpec", true)];
    assert_eq!(resolve_path(&stored, &statics, "executor.openapi.addSpec").unwrap(), Resolved::Static(2));
    assert_eq!(resolve_path(&stored, &statics, "tools.github.org.main.issues.get").unwrap(), Resolved::Dynamic(1));
    assert_eq!(resolve_path(&stored, &statics, "github.org.main.repos.list").unwrap(), Resolved::Dynamic(0));
    assert_eq!(resolve_path(&stored, &statics, "github.org.main.repos").unwrap(), Resolved::Dynamic(0));
    match resolve_path(&stored, &statics, "tools.github.org.main.nope") {
        Err(ExecutorError::ToolNotFound { address, suggestions, reason }) => {
            assert_eq!(address, "tools.github.org.main.nope");
            assert!(suggestions.is_empty());
            assert!(reason.is_none());
        }
        _ => panic!("expected missing address"),
    }
    match resolve_path(&stored, &statics, "github") {
        Err(ExecutorError::ToolNotFound { address, suggestions, .. }) => {
            assert_eq!(address, "github");
            assert_eq!(suggestions, vec!["github.org.main.repos.list".to_string(), "github.org.main.issues.get".to_string()]);
        }
        _ => panic!("expected ambiguous"),
    }
}

#[test]
fn list_filters_and_hides_blocked() {
    let all = vec![
        tool("github", Owner::Org, "main", "repos.list", "List repositories"),
        tool("github", Owner::User, "me", "issues.get", "Get an issue"),
        tool("vercel", Owner::Org, "main", "dns.create", "Create DNS record"),
    ];
    let block = vec![policy("p1", "vercel.*", PolicyAction::Block, Owner::Org)];
    let all_filter = ToolListFilter::default();
    assert_eq!(list_filtered(&all, &all_filter, &block, 10), vec![0, 1]);
    let mut with_blocked = ToolListFilter::default();
    with_blocked.include_blocked = true;
    assert_eq!(list_filtered(&all, &with_blocked, &block, 10), vec![0, 1, 2]);
    let mut by_owner = ToolListFilter::default();
    by_owner.owner = Some(Owner::User);
    assert_eq!(list_filtered(&all, &by_owner, &vec![], 10), vec![1]);
    let mut query = ToolListFilter::default();
    query.query = Some("REPO".into());
    assert_eq!(list_filtered(&all, &query, &vec![], 10), vec![0]);
    let mut capped = ToolListFilter::default();
    capped.query = Some("e".into());
    assert_eq!(list_filtered(&all, &capped, &vec![], 2), vec![0, 1]);
    assert_eq!(list_filtered(&all, &capped, &vec![], 0), vec![0]);
}

// ---------------------------------------------------------------- bridge

#[test]
fn bridge_routes_and_refusals() {
    let args = obj(vec![("path", text("github.org.main.repos.list"))]);
    let bytes = arg_bytes(&args);
    assert!(matches!(bridge_route(1, 2, "demo.echo", &args, bytes, 1000), BridgeRoute::Invoke));
    assert!(matches!(bridge_route(3, 2, "demo.echo", &args, bytes, 1000),
        BridgeRoute::Refuse { ref message } if message == "max_tool_calls (2) exceeded"));
    assert!(matches!(bridge_route(1, 2, "", &args, bytes, 1000),
        BridgeRoute::Refuse { ref message } if message == "Tool path missing in invocation"));
    assert!(matches!(bridge_route(1, 2, "demo.echo", &args, bytes, 4),
        BridgeRoute::Refuse { ref message } if message == "tool args exceeded 4 bytes"));
    assert!(matches!(bridge_route(1, 2, "search", &args, bytes, 1000), BridgeRoute::Search));
    assert!(matches!(bridge_route(1, 2, "describe.tool", &args, bytes, 1000),
        BridgeRoute::DescribeTool { ref path } if path == "github.org.main.repos.list"));
    let with_schemas = obj(vec![("path", text("x")), ("includeSchemas", JsonValue::Bool(true))]);
    assert!(matches!(bridge_route(1, 2, "describe.tool", &with_schemas, Some(1), 1000),
        BridgeRoute::Refuse { ref message } if message == "tools.describe.tool no longer accepts includeSchemas"));
    assert!(matches!(bridge_route(1, 2, "describe.tool", &obj(vec![]), Some(1), 1000),
        BridgeRoute::Refuse { ref message } if message == "tools.describe.tool expects an object: { path: string }"));
    assert!(matches!(bridge_route(1, 2, "executor.integrations.list", &args, bytes, 1000), BridgeRoute::ListIntegrations));
    assert_eq!(arg_bytes(&obj(vec![("a", text("é"))])), Some(10));
}

#[test]
fn bridge_replies() {
    assert_eq!(ok_reply(&text("v")), obj(vec![("ok", JsonValue::Bool(true)), ("value", text("v"))]));
    assert_eq!(fail_reply("bad"), obj(vec![("error", text("bad")), ("ok", JsonValue::Bool(false))]));
    let done: Result<Outcome, String> =
        Ok(Outcome::Completed { result: ToolResult::ok(text("d")), execution_id: id("e1") });
    let (reply, pause) = invoke_reply(&done);
    assert_eq!(reply, obj(vec![("ok", JsonValue::Bool(true)), ("value", text("d"))]));
    assert!(pause.is_none());
    let paused: Result<Outcome, String> = Ok(Outcome::Paused {
        execution: PausedExecution {
            id: id("e2"),
            reason: PauseReason::Elicitation { message: "more".into(), schema: obj(vec![]) },
            expires_at_ms: 1,
        },
    });
    let (reply, pause) = invoke_reply(&paused);
    assert_eq!(reply, obj(vec![("paused", JsonValue::Bool(true))]));
    assert_eq!(pause.unwrap().id.as_str(), "e2");
    let failed: Result<Outcome, String> = Err("host down".into());
    assert_eq!(invoke_reply(&failed).0, fail_reply("host down"));
    assert_eq!(host_reply(&Ok(JsonValue::Null)), ok_reply(&JsonValue::Null));
}

#[test]
fn unwritable_numbers_have_no_size() {
    assert_eq!(arg_bytes(&JsonValue::Number("1.5".into())), Some(3));
    assert_eq!(arg_bytes(&JsonValue::Number("one".into())), None);
    assert_eq!(arg_bytes(&obj(vec![("a", JsonValue::Number("1e400".into()))])), None);
}

#[test]
fn minted_ids_differ_by_sequence() {
    let a = ExecutionId::mint(1);
    let b = ExecutionId::mint(2);
    assert_ne!(a.as_str(), b.as_str());
    assert!(a.as_str().starts_with("exec_"));
}

#[test]
fn minter_takes_successive_numbers() {
    let mut minter = IdMinter::new();
    let a = minter.mint();
    let b = minter.mint();
    assert!(a.as_str().starts_with("exec_") && a.as_str().ends_with("_1"));
    assert!(b.as_str().ends_with("_2"));
    assert_ne!(a.as_str(), b.as_str());
}
