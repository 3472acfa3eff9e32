use executor::address::{connection_address, parse_tool_address, tool_address};
use executor::id::{ConnectionName, IntegrationSlug, ToolName};
use executor::owner::Owner;

#[test]
fn parses_dotted_tool_remainder() {
    let parsed = parse_tool_address("tools.vercel.org.prod.aliases.deleteAlias").unwrap();
    assert_eq!(parsed.integration().as_str(), "vercel");
    assert_eq!(parsed.owner().as_str(), "org");
    assert_eq!(parsed.connection().as_str(), "prod");
    assert_eq!(parsed.tool().as_str(), "aliases.deleteAlias");
    assert_eq!(parsed.to_string(), "tools.vercel.org.prod.aliases.deleteAlias");
    assert_eq!(parsed.sandbox_path(), "vercel.org.prod.aliases.deleteAlias");
}

#[test]
fn rejects_bad_owner() {
    assert!(parse_tool_address("tools.vercel.team.prod.list").is_none());
}

#[test]
fn rejects_missing_tool() {
    assert!(parse_tool_address("tools.vercel.org.prod").is_none());
    assert!(parse_tool_address("tools.vercel.org.prod.").is_none());
}

#[test]
fn rejects_wrong_prefix_and_blank_segments() {
    assert!(parse_tool_address("tool.vercel.org.prod.list").is_none());
    assert!(parse_tool_address("tools. .org.prod.list").is_none());
    let trimmed = parse_tool_address("tools. vercel .user. prod . list ").unwrap();
    assert_eq!(trimmed.integration().as_str(), "vercel");
    assert_eq!(trimmed.owner(), Owner::User);
    assert_eq!(trimmed.tool().as_str(), "list");
}

#[test]
fn address_roundtrips_through_text() {
    let a = tool_address(
        Owner::User,
        IntegrationSlug::new("github").unwrap(),
        ConnectionName::new("work").unwrap(),
        ToolName::new("issues.create").unwrap(),
    );
    let text = a.to_string();
    assert_eq!(text, "tools.github.user.work.issues.create");
    assert_eq!(parse_tool_address(&text).unwrap(), a);
}

#[test]
fn connection_address_text() {
    let c = connection_address(
        Owner::Org,
        &IntegrationSlug::new("vercel").unwrap(),
        &ConnectionName::new("prod").unwrap(),
    );
    assert_eq!(c.as_str(), "tools.vercel.org.prod");
}

#[test]
fn owner_parses_wire_forms() {
    assert_eq!(Owner::parse("org"), Some(Owner::Org));
    assert_eq!(Owner::parse("user"), Some(Owner::User));
    assert_eq!(Owner::parse("team"), None);
    assert_eq!(Owner::Org.outer_rank(), 1);
    assert_eq!(Owner::User.outer_rank(), 0);
}
