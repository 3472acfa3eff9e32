use executor::json::JsonValue;
use executor::search::{
    coverage_bonus, normalize_search_text, score_tool_match, search_tools, tokenize_search_text,
    SearchArgs, SearchPage, SearchableTool,
};

#[test]
fn empty_query_without_namespace_is_empty() {
    let tools = [SearchableTool {
        path: "github.org.main.issues",
        name: "issues",
        description: "list issues",
        integration: "github",
    }];
    let page = search_tools(&tools, &SearchArgs::default());
    assert!(page.items.is_empty());
}

#[test]
fn namespace_enumeration_is_path_sorted() {
    let tools = [
        SearchableTool { path: "github.org.main.z", name: "z", description: "", integration: "github" },
        SearchableTool { path: "github.org.main.a", name: "a", description: "", integration: "github" },
    ];
    let page = search_tools(
        &tools,
        &SearchArgs { namespace: Some("github".into()), limit: 12, ..SearchArgs::default() },
    );
    assert_eq!(page.items[0].path, "github.org.main.a");
    assert_eq!(page.items[0].score, 0);
}

#[test]
fn ranked_query_prefers_path_hits() {
    let tools = [
        SearchableTool {
            path: "crm.org.main.create_contact",
            name: "createContact",
            description: "make a person",
            integration: "crm",
        },
        SearchableTool {
            path: "github.org.main.issues_create",
            name: "createIssue",
            description: "open a github issue",
            integration: "github",
        },
    ];
    let page = search_tools(
        &tools,
        &SearchArgs { query: "github issues".into(), limit: 5, ..SearchArgs::default() },
    );
    assert_eq!(page.items[0].integration, "github");
    assert!(page.items[0].score > 0);
}

#[test]
fn normalization_and_tokens() {
    assert_eq!(normalize_search_text("createContact"), "create contact");
    assert_eq!(normalize_search_text("  GitHub.Issues_list/x:y-z  "), "git hub issues list x y z");
    assert_eq!(normalize_search_text("HTTPServer"), "h t t p server");
    assert_eq!(tokenize_search_text("foo!Bar baz9"), vec!["foo", "bar", "baz9"]);
    assert!(tokenize_search_text("  .. ").is_empty());
}

#[test]
fn coverage_bonus_matches_float_rounding() {
    for n in 1usize..=300 {
        for m in 1..=n {
            let expected = if m == n { 25 } else { ((m as f64 / n as f64) * 10.0).round() as i32 };
            assert_eq!(coverage_bonus(m, n), expected, "{m}/{n}");
        }
    }
}

#[test]
fn exact_score_of_a_single_token_query() {
    let tool = SearchableTool { path: "a.ping", name: "ping", description: "", integration: "a" };
    let hit = score_tool_match(&tool, "ping").unwrap();
    assert_eq!(hit.score, 12 * 6 + 12 * 4 + 10 * 14 + 10 * 4 + 25 + 8 + 20);
    assert_eq!(hit.description, None);
    assert!(score_tool_match(&tool, "zzz").is_none());
}

#[test]
fn paginate_edges() {
    let p = SearchPage::paginate(vec![1, 2, 3, 4, 5], 1, 2);
    assert_eq!(p.items, vec![2, 3]);
    assert_eq!(p.total, 5);
    assert!(p.has_more);
    assert_eq!(p.next_offset, Some(3));
    let p = SearchPage::paginate(vec![1, 2, 3], 2, 0);
    assert_eq!(p.items, vec![3]);
    assert!(!p.has_more);
    assert_eq!(p.next_offset, None);
    let p = SearchPage::paginate(vec![1, 2, 3], 10, 5);
    assert!(p.items.is_empty());
    assert_eq!(p.total, 3);
    assert!(!p.has_more);
}

#[test]
fn args_from_value() {
    let v = JsonValue::Object(vec![
        ("query".into(), JsonValue::Text("x".into())),
        ("integration".into(), JsonValue::Text("gh".into())),
        ("limit".into(), JsonValue::Number("500".into())),
        ("offset".into(), JsonValue::Number("7".into())),
    ]);
    let a = SearchArgs::from_value(&v);
    assert_eq!(a.query, "x");
    assert_eq!(a.namespace, Some("gh".to_owned()));
    assert_eq!(a.limit, 100);
    assert_eq!(a.offset, 7);
    let a = SearchArgs::from_value(&JsonValue::Null);
    assert_eq!((a.query.as_str(), a.namespace, a.limit, a.offset), ("", None, 12, 0));
    let v = JsonValue::Object(vec![
        ("namespace".into(), JsonValue::Number("1".into())),
        ("integration".into(), JsonValue::Text("gh".into())),
        ("limit".into(), JsonValue::Number("0".into())),
        ("offset".into(), JsonValue::Number("-1".into())),
    ]);
    let a = SearchArgs::from_value(&v);
    assert_eq!(a.namespace, None);
    assert_eq!(a.limit, 1);
    assert_eq!(a.offset, 0);
}

#[test]
fn normalizing_twice_changes_nothing() {
    for s in ["github.org.main.issues_create", "createContact", "  A--B  c:D/e ", "HTTPServer", "", "é_Ü x"] {
        let once = executor::search::normalize_search_text(s);
        assert_eq!(executor::search::normalize_search_text(&once), once);
    }
    assert_eq!(executor::search::normalize_search_text("github.org.main.issues_create"), "github org main issues create");
    assert_eq!(executor::search::normalize_search_text("createContact"), "create contact");
}
