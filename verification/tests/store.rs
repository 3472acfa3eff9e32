use executor::address::tool_address;
use executor::connection::ConnectionRef;
use executor::execution::ExecutionId;
use executor::id::{ConnectionName, IntegrationSlug, PluginId, PolicyId, ToolName};
use executor::integration::{Integration, IntegrationRecord};
use executor::json::JsonValue;
use executor::outcome::{ExecutionState, ToolResult};
use executor::owner::Owner;
use executor::policy::{PolicyAction, PolicyPattern, ToolPolicy};
use executor::store::{BlobStore, MemoryCatalog};
use executor::tool::Tool;

fn tool(integration: &str, owner: Owner, connection: &str, name: &str) -> Tool {
    let i = IntegrationSlug::new(integration).unwrap();
    let c = ConnectionName::new(connection).unwrap();
    let n = ToolName::new(name).unwrap();
    Tool {
        address: tool_address(owner, i.clone(), c.clone(), n.clone()),
        owner,
        integration: i,
        connection: c,
        name: n,
        plugin_id: PluginId::new("openapi").unwrap(),
        description: String::new(),
        input_schema: None,
        output_schema: None,
        annotations: None,
        static_tool: false,
        plugin_meta: None,
    }
}

fn conn(owner: Owner, integration: &str, name: &str) -> ConnectionRef {
    ConnectionRef {
        owner,
        name: ConnectionName::new(name).unwrap(),
        integration: IntegrationSlug::new(integration).unwrap(),
    }
}

fn names(tools: Vec<&Tool>) -> Vec<String> {
    tools.into_iter().map(|t| t.address.to_string()).collect()
}

fn record(slug: &str) -> IntegrationRecord {
    IntegrationRecord {
        integration: Integration {
            slug: IntegrationSlug::new(slug).unwrap(),
            name: slug.to_uppercase(),
            description: String::new(),
            kind: PluginId::new("openapi").unwrap(),
            can_remove: true,
            can_refresh: false,
            auth_methods: Vec::new(),
            display_url: None,
        },
        config: JsonValue::Null,
    }
}

#[test]
fn replace_tools_keeps_other_connections_and_builtins() {
    let mut c = MemoryCatalog::new();
    let mut builtin = tool("github", Owner::Org, "main", "core");
    builtin.static_tool = true;
    c.replace_tools(&conn(Owner::Org, "github", "main"), vec![tool("github", Owner::Org, "main", "old"), builtin]);
    c.replace_tools(&conn(Owner::Org, "github", "alt"), vec![tool("github", Owner::Org, "alt", "x")]);
    c.replace_tools(&conn(Owner::Org, "github", "main"), vec![tool("github", Owner::Org, "main", "new")]);
    assert_eq!(
        names(c.list_tools()),
        vec![
            "tools.github.org.alt.x".to_owned(),
            "tools.github.org.main.core".to_owned(),
            "tools.github.org.main.new".to_owned(),
        ]
    );
    let addr = tool_address(
        Owner::Org,
        IntegrationSlug::new("github").unwrap(),
        ConnectionName::new("main").unwrap(),
        ToolName::new("new").unwrap(),
    );
    assert_eq!(c.get_tool(&addr).unwrap().name.as_str(), "new");
    assert!(c.remove_connection(&conn(Owner::Org, "github", "main")) == false);
    assert_eq!(names(c.list_tools()), vec!["tools.github.org.alt.x".to_owned()]);
}

#[test]
fn integrations_are_listed_by_slug_and_removal_cascades() {
    let mut c = MemoryCatalog::new();
    c.put_integration(record("vercel"));
    c.put_integration(record("github"));
    c.replace_tools(&conn(Owner::Org, "github", "main"), vec![tool("github", Owner::Org, "main", "a")]);
    c.replace_tools(&conn(Owner::User, "vercel", "main"), vec![tool("vercel", Owner::User, "main", "b")]);
    let slugs: Vec<String> = c.list_integrations().iter().map(|r| r.integration.slug.as_str().to_owned()).collect();
    assert_eq!(slugs, vec!["github".to_owned(), "vercel".to_owned()]);
    let gh = IntegrationSlug::new("github").unwrap();
    assert_eq!(c.get_integration(&gh).unwrap().integration.name, "GITHUB");
    assert!(c.remove_integration(&gh));
    assert!(!c.remove_integration(&gh));
    assert!(c.get_integration(&gh).is_none());
    assert_eq!(names(c.list_tools()), vec!["tools.vercel.user.main.b".to_owned()]);
}

#[test]
fn executions_are_taken_once() {
    let mut c = MemoryCatalog::new();
    let id = ExecutionId::new("exec_1").unwrap();
    c.put_execution(&id, ExecutionState::Running);
    c.put_execution(&id, ExecutionState::Completed(ToolResult::ok(JsonValue::Bool(true))));
    assert!(matches!(c.get_execution(&id), Some(ExecutionState::Completed(_))));
    assert!(matches!(c.take_execution(&id), Some(ExecutionState::Completed(_))));
    assert!(c.take_execution(&id).is_none());
    assert!(c.get_execution(&id).is_none());
}

#[test]
fn idempotency_first_writer_wins() {
    let mut c = MemoryCatalog::new();
    c.put_idempotency("k", &ExecutionId::new("exec_1").unwrap());
    c.put_idempotency("k", &ExecutionId::new("exec_2").unwrap());
    assert_eq!(c.get_idempotency("k").unwrap().as_str(), "exec_1");
    assert!(c.get_idempotency("other").is_none());
}

#[test]
fn documents_by_collection_and_id() {
    let mut c = MemoryCatalog::new();
    c.put_kv("toolkits", "b", JsonValue::Number("2".into()));
    c.put_kv("toolkits", "a", JsonValue::Number("1".into()));
    c.put_kv("oauth_clients", "a", JsonValue::Bool(true));
    c.put_kv("toolkits", "b", JsonValue::Number("3".into()));
    assert_eq!(
        c.list_kv("toolkits"),
        vec![&JsonValue::Number("1".into()), &JsonValue::Number("3".into())]
    );
    assert_eq!(c.get_kv("oauth_clients", "a"), Some(&JsonValue::Bool(true)));
    assert!(c.delete_kv("toolkits", "a"));
    assert!(!c.delete_kv("toolkits", "a"));
    assert!(!c.delete_kv("missing", "a"));
    assert_eq!(c.list_kv("toolkits"), vec![&JsonValue::Number("3".into())]);
    assert!(c.list_kv("missing").is_empty());
}

#[test]
fn blobs_by_namespace_and_key() {
    let mut c = MemoryCatalog::new();
    c.put("approvals", "x", &[1, 2]).unwrap();
    c.put("specs", "x", &[3]).unwrap();
    assert_eq!(c.get("approvals", "x"), Ok(Some(vec![1, 2])));
    c.delete("approvals", "x").unwrap();
    assert_eq!(c.get("approvals", "x"), Ok(None));
    assert_eq!(c.get("specs", "x"), Ok(Some(vec![3])));
    c.delete("missing", "x").unwrap();
}

#[test]
fn policies_by_id() {
    let mut c = MemoryCatalog::new();
    for id in ["p2", "p1"] {
        c.put_policy(ToolPolicy {
            id: PolicyId::new(id).unwrap(),
            owner: Owner::Org,
            pattern: PolicyPattern::new("github.*").unwrap(),
            action: PolicyAction::Approve,
            position: "a0".into(),
        });
    }
    let ids: Vec<String> = c.list_policies().iter().map(|p| p.id.as_str().to_owned()).collect();
    assert_eq!(ids, vec!["p1".to_owned(), "p2".to_owned()]);
    assert!(c.remove_policy(&PolicyId::new("p1").unwrap()));
    assert!(!c.remove_policy(&PolicyId::new("p1").unwrap()));
    assert_eq!(c.list_policies().len(), 1);
}
