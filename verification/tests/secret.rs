use executor::error::InvalidId;
use executor::execution::IdempotencyKey;
use executor::id::ProviderKey;
use executor::secret::SecretRef;

#[test]
fn secret_ref_parses_each_scheme() {
    assert!(matches!(SecretRef::parse("env:TOKEN"), Ok(SecretRef::Env { name }) if name == "TOKEN"));
    assert!(matches!(SecretRef::parse("file:/tmp/k"), Ok(SecretRef::File { path }) if path == "/tmp/k"));
    assert!(matches!(SecretRef::parse("memory:abc"), Ok(SecretRef::Memory { id }) if id == "abc"));
    match SecretRef::parse("provider:vault:item-1") {
        Ok(SecretRef::Provider { provider, item }) => {
            assert_eq!(provider.as_str(), "vault");
            assert_eq!(item.as_str(), "item-1");
        }
        other => panic!("{other:?}"),
    }
}

#[test]
fn secret_ref_error_texts() {
    assert_eq!(SecretRef::parse("env:").unwrap_err(), "env: requires a variable name");
    assert_eq!(SecretRef::parse("file:").unwrap_err(), "file: requires a path");
    assert_eq!(SecretRef::parse("memory:").unwrap_err(), "memory: requires an id");
    assert_eq!(SecretRef::parse("provider:vault").unwrap_err(), "provider: requires provider:item");
    assert_eq!(SecretRef::parse("vault:x").unwrap_err(), "unknown secret ref: vault:x");
    assert_eq!(
        SecretRef::parse("provider:a.b:item").unwrap_err(),
        "provider key \"a.b\" is not a valid identifier: must not contain '.'"
    );
    assert_eq!(
        SecretRef::parse("provider: :item").unwrap_err(),
        "provider key \" \" is not a valid identifier: must be non-empty"
    );
    assert_eq!(
        SecretRef::parse("provider:vault:  ").unwrap_err(),
        "provider item id \"  \" is not a valid identifier: must be non-empty"
    );
}

#[test]
fn invalid_id_message_quotes_the_value() {
    let e = InvalidId::new("plugin id", "say \"hi\"", "must not contain '.'");
    assert_eq!(e.message(), "plugin id \"say \\\"hi\\\"\" is not a valid identifier: must not contain '.'");
}

#[test]
fn slug_reasons() {
    let e = ProviderKey::new("  ").unwrap_err();
    assert_eq!(e.reason, "must be non-empty");
    assert_eq!(e.value, "  ");
    let e = ProviderKey::new(" a.b ").unwrap_err();
    assert_eq!(e.reason, "must not contain '.'");
    assert_eq!(e.value, "a.b");
}

#[test]
fn idempotency_key_reasons() {
    assert_eq!(IdempotencyKey::new(" ").unwrap_err().reason, "must be non-empty");
    let long = "é".repeat(129);
    let e = IdempotencyKey::new(&long).unwrap_err();
    assert_eq!(e.reason, "must be at most 256 bytes");
    assert_eq!(IdempotencyKey::new(&"é".repeat(128)).unwrap().as_str(), "é".repeat(128));
}
