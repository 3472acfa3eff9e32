use std::cmp::Ordering;
use executor::id::PolicyId;
use executor::owner::Owner;
use executor::policy::{
    compare_policy_row, effective_policy, effective_policy_from_sorted, is_valid_pattern,
    match_pattern, pattern_specificity, position_for_new_pattern, resolve_tool_policy,
    PolicyAction, PolicyPattern, PolicySource, ToolPolicy,
};

fn row(id: &str, pattern: &str, action: PolicyAction, position: &str, owner: Owner) -> ToolPolicy {
    ToolPolicy {
        id: PolicyId::new(id).unwrap(),
        owner,
        pattern: PolicyPattern::new(pattern).unwrap(),
        action,
        position: position.to_owned(),
    }
}

fn flat_rank(_: Owner) -> u8 {
    0
}

fn owner_rank(owner: Owner) -> u8 {
    owner.outer_rank()
}

#[test]
fn match_exact() {
    assert!(match_pattern("vercel.dns.create", "vercel.dns.create"));
    assert!(!match_pattern("vercel.dns.create", "vercel.dns.delete"));
}

#[test]
fn match_subtree() {
    assert!(match_pattern("vercel.dns.*", "vercel.dns.create"));
    assert!(match_pattern("vercel.dns.*", "vercel.dns.delete"));
    assert!(match_pattern("vercel.dns.*", "vercel.dns.zones.list"));
    assert!(!match_pattern("vercel.dns.*", "vercel.dnstool"));
    assert!(!match_pattern("vercel.dns.*", "vercel.deploy"));
}

#[test]
fn match_plugin_wide() {
    assert!(match_pattern("vercel.*", "vercel.dns.create"));
    assert!(match_pattern("vercel.*", "vercel.deploy"));
    assert!(!match_pattern("vercel.*", "vercelapp.deploy"));
}

#[test]
fn match_universal() {
    assert!(match_pattern("*", "vercel.dns.create"));
    assert!(match_pattern("*", "github.repos.list"));
    assert!(match_pattern("*", "x"));
}

#[test]
fn match_mid_segment() {
    assert!(match_pattern("github.*.*.repos.list", "github.org.acme.repos.list"));
    assert!(match_pattern("github.*.*.repos.list", "github.user.alice.repos.list"));
    assert!(!match_pattern("github.*.*.repos.list", "github.org.acme.repos.delete"));
    assert!(!match_pattern("github.*.*.repos.list", "github.acme.repos.list"));
    assert!(match_pattern("github.*.*.repos.*", "github.org.acme.repos.list"));
    assert!(match_pattern("github.*.*.repos.*", "github.org.acme.repos"));
    assert!(!match_pattern("github.*.*.repos.*", "github.org.acme.deploy"));
    assert!(match_pattern("github.user.alice.repos.*", "github.user.alice.repos.list"));
    assert!(!match_pattern("github.user.alice.repos.*", "github.user.bob.repos.list"));
}

#[test]
fn valid_patterns() {
    assert!(is_valid_pattern("a"));
    assert!(is_valid_pattern("a.b.c"));
    assert!(is_valid_pattern("a.*"));
    assert!(is_valid_pattern("a.b.*"));
    assert!(is_valid_pattern("a.*.b"));
    assert!(is_valid_pattern("github.*.*.repos.list"));
    assert!(is_valid_pattern("github.*.*.repos.*"));
    assert!(is_valid_pattern("*"));
    assert!(!is_valid_pattern(""));
    assert!(!is_valid_pattern(".a"));
    assert!(!is_valid_pattern("a."));
    assert!(!is_valid_pattern("a..b"));
    assert!(!is_valid_pattern("*.a"));
    assert!(!is_valid_pattern("a*"));
    assert!(!is_valid_pattern("a.b*"));
}

#[test]
fn resolve_no_match() {
    let policies = [row("a", "github.*", PolicyAction::Block, "a0", Owner::Org)];
    assert!(resolve_tool_policy("vercel.dns.create", &policies, flat_rank).is_none());
}

#[test]
fn resolve_first_by_position() {
    let policies = [
        row("a", "vercel.dns.create", PolicyAction::Approve, "a0", Owner::Org),
        row("b", "vercel.dns.*", PolicyAction::RequireApproval, "a1", Owner::Org),
    ];
    let result = resolve_tool_policy("vercel.dns.create", &policies, flat_rank).unwrap();
    assert_eq!(result.action, PolicyAction::Approve);
    assert_eq!(result.pattern, "vercel.dns.create");
    assert_eq!(result.policy_id, "a");
}

#[test]
fn resolve_broader_when_specific_is_below() {
    let policies = [
        row("b", "vercel.dns.*", PolicyAction::RequireApproval, "a0", Owner::Org),
        row("a", "vercel.dns.create", PolicyAction::Approve, "a1", Owner::Org),
    ];
    let result = resolve_tool_policy("vercel.dns.create", &policies, flat_rank).unwrap();
    assert_eq!(result.action, PolicyAction::RequireApproval);
    assert_eq!(result.pattern, "vercel.dns.*");
}

#[test]
fn inner_approve_cannot_weaken_outer_block() {
    let policies = [
        row("outer", "vercel.*", PolicyAction::Block, "a0", Owner::Org),
        row("inner", "vercel.dns.create", PolicyAction::Approve, "a0", Owner::User),
    ];
    let result = resolve_tool_policy("vercel.dns.create", &policies, owner_rank).unwrap();
    assert_eq!(result.action, PolicyAction::Block);
    assert_eq!(result.policy_id, "outer");
}

#[test]
fn inner_can_strengthen_outer_approve() {
    let policies = [
        row("outer", "vercel.*", PolicyAction::Approve, "a0", Owner::Org),
        row("inner", "vercel.dns.create", PolicyAction::RequireApproval, "a0", Owner::User),
    ];
    let result = resolve_tool_policy("vercel.dns.create", &policies, owner_rank).unwrap();
    assert_eq!(result.action, PolicyAction::RequireApproval);
    assert_eq!(result.policy_id, "inner");
}

#[test]
fn tiebreak_by_id() {
    let a = resolve_tool_policy(
        "vercel.dns.create",
        &[
            row("z", "vercel.dns.*", PolicyAction::Block, "a0", Owner::Org),
            row("a", "vercel.dns.*", PolicyAction::Approve, "a0", Owner::Org),
        ],
        flat_rank,
    )
    .unwrap();
    let b = resolve_tool_policy(
        "vercel.dns.create",
        &[
            row("a", "vercel.dns.*", PolicyAction::Approve, "a0", Owner::Org),
            row("z", "vercel.dns.*", PolicyAction::Block, "a0", Owner::Org),
        ],
        flat_rank,
    )
    .unwrap();
    assert_eq!(a.policy_id, "a");
    assert_eq!(b.policy_id, "a");
}

#[test]
fn effective_user_over_plugin_default() {
    let id = PolicyId::new("a").unwrap();
    let result = effective_policy_from_sorted(
        "vercel.dns.create",
        &[(id, "vercel.dns.create".into(), PolicyAction::Approve, None)],
        true,
    );
    assert_eq!(result.action, PolicyAction::Approve);
    assert_eq!(result.source, PolicySource::User);
}

#[test]
fn specificity_scores() {
    assert_eq!(pattern_specificity("*"), 0);
    assert_eq!(pattern_specificity("vercel.*"), 2);
    assert_eq!(pattern_specificity("vercel.dns.*"), 4);
    assert_eq!(pattern_specificity("vercel.dns"), 5);
    assert_eq!(pattern_specificity("vercel.dns.create"), 7);
}

#[test]
fn effective_falls_back_to_plugin() {
    let result = effective_policy("x.y", &[], flat_rank, true);
    assert_eq!(result.action, PolicyAction::RequireApproval);
    assert_eq!(result.source, PolicySource::PluginDefault);
}

#[test]
fn policy_action_is_closed() {
    assert_eq!(PolicyAction::Approve.restriction_rank(), 1);
    assert_eq!(PolicyAction::RequireApproval.restriction_rank(), 2);
    assert_eq!(PolicyAction::Block.restriction_rank(), 3);
}

#[test]
fn tighten_keeps_the_stricter_action() {
    assert_eq!(PolicyAction::Approve.tighten(PolicyAction::Block), PolicyAction::Block);
    assert_eq!(PolicyAction::Block.tighten(PolicyAction::Approve), PolicyAction::Block);
    assert_eq!(
        PolicyAction::RequireApproval.tighten(PolicyAction::Approve),
        PolicyAction::RequireApproval
    );
}

#[test]
fn pattern_new_rejects_bad_grammar() {
    assert_eq!(
        PolicyPattern::new("a..b").unwrap_err(),
        "invalid policy pattern: a..b"
    );
    assert_eq!(PolicyPattern::new("vercel.*").unwrap().as_str(), "vercel.*");
}

#[test]
fn flat_rows_pick_most_restrictive_group_first() {
    let rows = vec![
        (PolicyId::new("u").unwrap(), "vercel.*".to_string(), PolicyAction::Approve, Some(Owner::User)),
        (PolicyId::new("o").unwrap(), "vercel.dns.*".to_string(), PolicyAction::Block, Some(Owner::Org)),
        (PolicyId::new("o2").unwrap(), "*".to_string(), PolicyAction::Approve, Some(Owner::Org)),
    ];
    let r = effective_policy_from_sorted("vercel.dns.create", &rows, false);
    assert_eq!(r.action, PolicyAction::Block);
    assert_eq!(r.policy_id.as_deref(), Some("o"));
    assert_eq!(r.pattern.as_deref(), Some("vercel.dns.*"));
    let none = effective_policy_from_sorted("github.x", &rows[..2], false);
    assert_eq!(none.action, PolicyAction::Approve);
    assert_eq!(none.source, PolicySource::PluginDefault);
}

#[test]
fn rows_compare_by_position_then_id() {
    assert_eq!(compare_policy_row("a0", "z", "a1", "a"), Ordering::Less);
    assert_eq!(compare_policy_row("a1", "a", "a0", "z"), Ordering::Greater);
    assert_eq!(compare_policy_row("a0", "a", "a0", "b"), Ordering::Less);
    assert_eq!(compare_policy_row("a0", "a", "a0", "a"), Ordering::Equal);
}

#[test]
fn new_pattern_lands_before_broader_rules() {
    let rows = vec![
        ("vercel.dns.create".to_string(), "a0".to_string(), "x".to_string()),
        ("vercel.*".to_string(), "a1".to_string(), "y".to_string()),
    ];
    // `vercel.dns.*` (4) is less specific than the first row (7), more than the second (2).
    assert_eq!(position_for_new_pattern("vercel.dns.*", &rows), "a00");
    assert_eq!(position_for_new_pattern("a.b.c.d", &rows), "Zz");
    assert_eq!(position_for_new_pattern("*", &rows), "a2");
    assert_eq!(position_for_new_pattern("x", &[]), "a0");
}

#[test]
fn resolution_ignores_list_order() {
    let policies = vec![
        row("a", "vercel.dns.create", PolicyAction::Approve, "a0", Owner::Org),
        row("b", "vercel.dns.*", PolicyAction::RequireApproval, "a0", Owner::Org),
        row("c", "vercel.*", PolicyAction::Block, "a2", Owner::User),
        row("d", "*", PolicyAction::Approve, "a1", Owner::User),
    ];
    let forward = resolve_tool_policy("vercel.dns.create", &policies, owner_rank).unwrap();
    let mut reversed = policies.clone();
    reversed.reverse();
    let backward = resolve_tool_policy("vercel.dns.create", &reversed, owner_rank).unwrap();
    assert_eq!(forward, backward);
}

#[test]
fn effective_policy_is_the_resolved_rule() {
    let policies = vec![
        row("a", "vercel.dns.create", PolicyAction::Approve, "a0", Owner::Org),
        row("c", "vercel.*", PolicyAction::Block, "a2", Owner::User),
    ];
    let m = resolve_tool_policy("vercel.dns.create", &policies, owner_rank).unwrap();
    let e = effective_policy("vercel.dns.create", &policies, owner_rank, true);
    assert_eq!(e.action, m.action);
    assert_eq!(e.source, PolicySource::User);
    assert_eq!(e.pattern.as_deref(), Some(m.pattern.as_str()));
    assert_eq!(e.policy_id.as_deref(), Some(m.policy_id.as_str()));
    assert!(resolve_tool_policy("github.x", &policies, owner_rank).is_none());
    let d = effective_policy("github.x", &policies, owner_rank, false);
    assert_eq!(d.action, PolicyAction::Approve);
    assert_eq!(d.source, PolicySource::PluginDefault);
    assert!(d.pattern.is_none() && d.policy_id.is_none());
}
