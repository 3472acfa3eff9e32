use executor::codemode::kernel::KernelPreference;
use executor::codemode::prepare::{prepare_code, MAX_CODE_BYTES};
use executor::codemode::recover::recover_execution_body;
use executor::codemode::strip::strip_typescript;

#[test]
fn code_cap_is_64_kib() {
    assert_eq!(MAX_CODE_BYTES, 65_536);
    let big = "x".repeat(MAX_CODE_BYTES + 1);
    assert_eq!(
        prepare_code(&big, MAX_CODE_BYTES, KernelPreference::Auto).unwrap_err().0,
        "source is 65537 bytes (max 65536)"
    );
}

#[test]
fn oversize_counts_bytes() {
    assert_eq!(prepare_code("ééé", 5, KernelPreference::Js).unwrap_err().0, "source is 6 bytes (max 5)");
}

#[test]
fn strip_failure_is_refused() {
    assert_eq!(
        prepare_code("const = 1", MAX_CODE_BYTES, KernelPreference::Auto).unwrap_err().0,
        "invalid TypeScript/JavaScript syntax"
    );
}

#[test]
fn auto_picks_native_when_the_body_parses() {
    let src = "const x: number = 1; return x;";
    let (body, kernel) = prepare_code(src, MAX_CODE_BYTES, KernelPreference::Auto).unwrap();
    assert_eq!(body, strip_typescript(&recover_execution_body(src)).unwrap());
    assert!(!body.contains(": number"));
    assert_eq!(kernel, KernelPreference::Native);
    let (_, kernel) = prepare_code(src, MAX_CODE_BYTES, KernelPreference::Js).unwrap();
    assert_eq!(kernel, KernelPreference::Js);
}

#[test]
fn auto_picks_js_when_the_body_does_not_parse() {
    let src = "for (let i = 0; i < 3; i++) {} return 1;";
    let (_, kernel) = prepare_code(src, MAX_CODE_BYTES, KernelPreference::Auto).unwrap();
    assert_eq!(kernel, KernelPreference::Js);
    let (_, kernel) = prepare_code(src, MAX_CODE_BYTES, KernelPreference::Native).unwrap();
    assert_eq!(kernel, KernelPreference::Native);
}
