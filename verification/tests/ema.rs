use executor::codemode::kernel::{parse_kernel, KernelPreference};
use executor::ema::{
    supports_id_jag_grant_profile, EmaError, ID_JAG_GRANT_PROFILE, JWT_BEARER_GRANT_TYPE,
};

#[test]
fn jwt_bearer_grant_is_not_the_profile_gate() {
    assert!(!supports_id_jag_grant_profile(&[JWT_BEARER_GRANT_TYPE.into()]));
    assert!(supports_id_jag_grant_profile(&[ID_JAG_GRANT_PROFILE.into()]));
}

#[test]
fn only_unsupported_profile_may_fallback() {
    let unsupported = EmaError::GrantProfileUnsupported {
        issuer: "https://as.example".into(),
        advertised: vec![],
    };
    assert!(unsupported.may_fallback());
    assert!(
        !EmaError::PolicyDenied { error: "unauthorized_client".into(), detail: "no".into() }
            .may_fallback()
    );
    assert!(!EmaError::SubjectTokenRejected { detail: "dead".into() }.may_fallback());
}

#[test]
fn kernel_env_values() {
    assert_eq!(parse_kernel("").unwrap(), KernelPreference::Auto);
    assert_eq!(parse_kernel("auto").unwrap(), KernelPreference::Auto);
    assert_eq!(parse_kernel("native").unwrap(), KernelPreference::Native);
    assert_eq!(parse_kernel("js").unwrap(), KernelPreference::Js);
    assert_eq!(parse_kernel("quickjs").unwrap(), KernelPreference::Js);
    assert!(parse_kernel("deno").unwrap_err().0.contains("unknown"));
}
