use executor::catalog::money::{MemoryLedger, SIGNUP_GRANT_MICRO};
use executor::catalog::CatalogError;

#[test]
fn signup_grant_is_credited_once() {
    let mut l = MemoryLedger::new();
    assert_eq!(l.balance("a"), 0);
    assert!(!l.granted("a"));
    assert_eq!(l.ensure_signup_grant("a").unwrap(), SIGNUP_GRANT_MICRO);
    assert_eq!(l.ensure_signup_grant("a").unwrap(), SIGNUP_GRANT_MICRO);
    assert!(l.granted("a"));
    assert_eq!(l.balance("b"), 0);
}

#[test]
fn grant_saturates_and_refuses_non_positive() {
    let mut l = MemoryLedger::new();
    assert_eq!(l.grant("a", 0), Err(CatalogError::Invalid("grant must be positive")));
    assert_eq!(l.grant("a", -5), Err(CatalogError::Invalid("grant must be positive")));
    assert_eq!(l.grant("a", i64::MAX - 1).unwrap(), i64::MAX - 1);
    assert_eq!(l.grant("a", 10).unwrap(), i64::MAX);
}

#[test]
fn reserve_then_release_restores_balance() {
    let mut l = MemoryLedger::new();
    l.grant("a", 100).unwrap();
    l.reserve("a", "c1", 40).unwrap();
    assert_eq!(l.balance("a"), 60);
    l.release("c1").unwrap();
    assert_eq!(l.balance("a"), 100);
    // a released call can be released or settled again without effect
    l.release("c1").unwrap();
    l.settle("c1", 10).unwrap();
    assert_eq!(l.balance("a"), 100);
}

#[test]
fn settle_charges_actual_and_refunds_rest() {
    let mut l = MemoryLedger::new();
    l.grant("a", 100).unwrap();
    l.reserve("a", "c1", 40).unwrap();
    l.settle("c1", 15).unwrap();
    assert_eq!(l.balance("a"), 85);
    l.reserve("a", "c2", 40).unwrap();
    l.settle("c2", -3).unwrap();
    assert_eq!(l.balance("a"), 85);
    l.reserve("a", "c3", 40).unwrap();
    l.settle("c3", 500).unwrap();
    assert_eq!(l.balance("a"), 45);
}

#[test]
fn reserve_refusals() {
    let mut l = MemoryLedger::new();
    l.grant("a", 50).unwrap();
    assert_eq!(l.reserve("a", "c", -1), Err(CatalogError::Invalid("reserve cannot be negative")));
    assert_eq!(l.reserve("a", "c", 0), Ok(()));
    assert_eq!(l.balance("a"), 50);
    assert_eq!(
        l.reserve("a", "c", 51),
        Err(CatalogError::PaymentRequired { balance_micro: 50, estimated_cost_micro: 51 })
    );
    l.reserve("a", "c", 20).unwrap();
    assert_eq!(l.reserve("a", "c", 1), Err(CatalogError::Invalid("call already reserved")));
    assert_eq!(l.balance("a"), 30);
}
