use executor::position::generate_key_between;

#[test]
fn orders_around_neighbors() {
    let a = generate_key_between(None, None);
    let b = generate_key_between(Some(a.as_str()), None);
    let mid = generate_key_between(Some(a.as_str()), Some(b.as_str()));
    assert!(a < mid);
    assert!(mid < b);
    assert_eq!(a, "a0");
}

#[test]
fn keys_step_and_fall_back() {
    assert_eq!(generate_key_between(Some("a0"), None), "a1");
    assert_eq!(generate_key_between(Some("az"), None), "az0");
    assert_eq!(generate_key_between(Some(""), None), "0");
    assert_eq!(generate_key_between(None, Some("a0")), "Zz");
    assert_eq!(generate_key_between(None, Some("a5")), "a4");
    assert_eq!(generate_key_between(None, Some("a0 ")), "Zza0 ");
    assert_eq!(generate_key_between(None, Some("")), "Zz");
    assert_eq!(generate_key_between(Some("a0"), Some("a2")), "a1");
    assert_eq!(generate_key_between(Some("a0"), Some("a1")), "a00");
    assert_eq!(generate_key_between(Some("b"), Some("a")), "c");
}

#[test]
fn keys_step_down_multibyte_text() {
    assert_eq!(generate_key_between(None, Some("aé")), "aè");
    assert_eq!(generate_key_between(None, Some("a\u{80}")), "Zz");
}

#[test]
fn keys_fall_strictly_between_their_bounds() {
    assert_eq!(generate_key_between(Some("a0"), Some("a00")), "a0/");
    assert_eq!(generate_key_between(None, Some("0")), "/");
    assert_eq!(generate_key_between(None, Some("A\u{80}")), "A");
    assert_eq!(generate_key_between(None, Some("ab0")), "Zzab0");
    assert_eq!(generate_key_between(Some("a"), Some("a00")), "a0");
    let keys = ["", "0", "00", "a", "a0", "a00", "a0/", "a1", "az", "b", "Zz", "\u{80}", "a\u{80}", "zz"];
    for p in keys {
        assert!(generate_key_between(Some(p), None).as_str() > p);
        if !p.is_empty() {
            assert!(generate_key_between(None, Some(p)).as_str() < p);
        }
        for n in keys {
            if p < n && n != format!("{p}\u{0}") {
                let k = generate_key_between(Some(p), Some(n));
                assert!(p < k.as_str() && k.as_str() < n, "{p:?} {n:?} {k:?}");
            }
        }
    }
}
