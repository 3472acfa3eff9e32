//! MCP Enterprise-Managed Authorization (ID-JAG) types.
//!
//! `GrantProfileUnsupported` is the **only** failure that MAY fall back to
//! interactive OAuth. `PolicyDenied` and `SubjectTokenRejected` MUST NOT.

use vstd::prelude::*;
use crate::text::{copy_str, push_str, str_eq};

verus! {

/// draft-ietf-oauth-identity-assertion-authz-grant-04 §7.2 profile identifier.
pub const ID_JAG_GRANT_PROFILE: &'static str = "urn:ietf:params:oauth:grant-profile:id-jag";

/// RFC 8693 §2.1 token-exchange grant.
pub const TOKEN_EXCHANGE_GRANT_TYPE: &'static str = "urn:ietf:params:oauth:grant-type:token-exchange";

/// RFC 7523 §2.1 JWT bearer grant — how an ID-JAG is redeemed.
pub const JWT_BEARER_GRANT_TYPE: &'static str = "urn:ietf:params:oauth:grant-type:jwt-bearer";

/// `requested_token_type` / `issued_token_type` of an ID-JAG.
pub const ID_JAG_TOKEN_TYPE: &'static str = "urn:ietf:params:oauth:token-type:id-jag";

/// An ID-JAG is not an access token, so `token_type` is this sentinel.
pub const ID_JAG_TOKEN_TYPE_SENTINEL: &'static str = "N_A";

/// Default `subject_token_type` when the connection does not name one.
pub const DEFAULT_SUBJECT_TOKEN_TYPE: &'static str = "urn:ietf:params:oauth:token-type:access_token";

/// JSON key for persisted EMA wiring inside connection `provider_state`.
pub const ENTERPRISE_MANAGED_PROVIDER_STATE_KEY: &'static str = "enterpriseManaged";

/// Which token-endpoint hop failed when the upstream was unreachable.
#[derive(Clone, Copy, Debug, PartialEq, Eq, Structural)]
pub enum EmaStep {
    /// RFC 8693 exchange at the enterprise `IdP`.
    TokenExchange,
    /// RFC 7523 redemption at the Resource Authorization Server.
    Redemption,
}

impl EmaStep {
    /// Wire name of the hop.
    pub fn as_str(self) -> (r: &'static str)
        ensures
            r@ == (match self {
                EmaStep::TokenExchange => "token-exchange"@,
                EmaStep::Redemption => "redemption"@,
            }),
    {
        match self {
            EmaStep::TokenExchange => "token-exchange",
            EmaStep::Redemption => "redemption",
        }
    }
}

/// Failures of the ID-JAG chain. Distinctions are load-bearing.
#[derive(Clone, Debug, PartialEq, Eq)]
pub enum EmaError {
    /// Resource AS does not advertise the ID-JAG profile. MAY fall back.
    GrantProfileUnsupported {
        /// RFC 8414 `issuer`.
        issuer: String,
        /// `authorization_grant_profiles_supported` as advertised (may be empty).
        advertised: Vec<String>,
    },
    /// `IdP` refused to mint an ID-JAG. MUST NOT fall back.
    PolicyDenied {
        /// RFC 6749 §5.2 code.
        error: String,
        /// Redacted human detail.
        detail: String,
    },
    /// Identity assertion expired, revoked, or bound to another client. MUST NOT fall back.
    SubjectTokenRejected {
        /// Redacted human detail.
        detail: String,
    },
    /// Resource AS refused the ID-JAG.
    RedemptionRejected {
        /// RFC 6749 §5.2 code when present.
        error: Option<String>,
        /// Redacted human detail.
        detail: String,
    },
    /// Transport / timeout / non-OAuth answer. Retryable; not an authorization verdict.
    UpstreamUnavailable {
        /// Which hop failed.
        step: EmaStep,
        /// Redacted human detail.
        detail: String,
    },
}

impl EmaError {
    /// Only `GrantProfileUnsupported` may fall through to authorization-code.
    pub fn may_fallback(&self) -> (r: bool)
        ensures
            r == (*self is GrantProfileUnsupported),
    {
        match self {
            EmaError::GrantProfileUnsupported { .. } => true,
            _ => false,
        }
    }
}

/// Whether RFC 8414 metadata advertises the ID-JAG grant profile (§7.2).
///
/// `grant_types_supported` containing `jwt-bearer` is deliberately not a signal.
pub fn supports_id_jag_grant_profile(profiles: &[String]) -> (r: bool)
    ensures
        r == exists|i: int| 0 <= i < profiles@.len() && #[trigger] profiles@[i]@ == ID_JAG_GRANT_PROFILE@,
{
    let mut i: usize = 0;
    while i < profiles.len()
        invariant
            i <= profiles@.len(),
            forall|k: int| 0 <= k < i ==> #[trigger] profiles@[k]@ != ID_JAG_GRANT_PROFILE@,
        decreases profiles.len() - i,
    {
        if str_eq(profiles[i].as_str(), ID_JAG_GRANT_PROFILE) {
            return true;
        }
        i += 1;
    }
    false
}

/// An access token minted through the ID-JAG chain. No refresh token is kept.
#[derive(Clone, Debug, PartialEq, Eq)]
pub struct EnterpriseManagedGrant {
    /// Resource-AS access token.
    pub access_token: String,
    /// Granted scope as echoed by the Resource AS, else the `IdP`, else empty.
    pub scope: String,
}

/// Inputs for minting an enterprise-managed access token.
#[derive(Clone, Debug)]
pub struct EmaMintInput<'a> {
    /// `IdP` token endpoint (RFC 8693).
    pub idp_token_url: &'a str,
    /// Client id at the `IdP`.
    pub idp_client_id: &'a str,
    /// Optional `IdP` client secret.
    pub idp_client_secret: Option<&'a str>,
    /// Identity assertion from enterprise SSO.
    pub subject_token: &'a str,
    /// RFC 8693 `subject_token_type`.
    pub subject_token_type: &'a str,
    /// Resource AS token endpoint.
    pub resource_token_url: &'a str,
    /// Resource AS issuer (`aud` of the ID-JAG).
    pub audience: &'a str,
    /// Resource AS client id.
    pub resource_client_id: &'a str,
    /// Optional resource-AS client secret.
    pub resource_client_secret: Option<&'a str>,
    /// Optional RFC 8707 resource indicator.
    pub resource: Option<&'a str>,
    /// Requested scopes.
    pub scopes: &'a [String],
}

/// RFC 8414 Authorization Server metadata (the subset EMA reads).
#[derive(Clone, Debug, PartialEq, Eq)]
pub struct AuthorizationServerMetadata {
    /// Issuer identifier.
    pub issuer: String,
    /// Token endpoint.
    pub token_endpoint: String,
    /// Advertised grant profiles. Empty when the field is absent.
    pub authorization_grant_profiles_supported: Vec<String>,
}


/// Strings joined by `, `.
pub open spec fn comma_joined(v: Seq<Seq<char>>) -> Seq<char>
    decreases v.len(),
{
    if v.len() == 0 {
        Seq::empty()
    } else if v.len() == 1 {
        v[0]
    } else {
        comma_joined(v.drop_last()) + ", "@ + v.last()
    }
}

impl EmaError {
    /// The human-readable message.
    pub open spec fn spec_message(&self) -> Seq<char> {
        match self {
            EmaError::GrantProfileUnsupported { issuer, advertised } => "The authorization server "@
                + issuer@ + " does not advertise "@ + ID_JAG_GRANT_PROFILE@ + if advertised.len() == 0 {
                Seq::empty()
            } else {
                " (advertised: "@ + comma_joined(advertised@.map_values(|s: String| s@)) + ")"@
            },
            EmaError::PolicyDenied { error, detail } =>
                "Your organization's identity provider did not authorize this MCP server ("@ + error@ + "): "@
                + detail@,
            EmaError::SubjectTokenRejected { detail } =>
                "The enterprise identity assertion was rejected and a new single sign-on is required: "@
                + detail@,
            EmaError::RedemptionRejected { error, detail } =>
                "The MCP server's authorization server rejected the identity assertion grant"@ + match error {
                Some(code) => " ("@ + code@ + ")"@,
                None => Seq::empty(),
            } + ": "@ + detail@,
            EmaError::UpstreamUnavailable { step, detail } => "The enterprise-managed authorization "@
                + match step {
                EmaStep::TokenExchange => "token-exchange"@,
                EmaStep::Redemption => "redemption"@,
            } + " request failed: "@ + detail@,
        }
    }

    /// The human-readable message.
    pub fn message(&self) -> (r: String)
        ensures
            r@ == self.spec_message(),
    {
        match self {
            EmaError::GrantProfileUnsupported { issuer, advertised } => {
                let mut s = copy_str("The authorization server ");
                push_str(&mut s, issuer.as_str());
                push_str(&mut s, " does not advertise ");
                push_str(&mut s, ID_JAG_GRANT_PROFILE);
                if advertised.len() > 0 {
                    push_str(&mut s, " (advertised: ");
                    let ghost head = s@;
                    let ghost names = advertised@.map_values(|x: String| x@);
                    let mut k: usize = 0;
                    while k < advertised.len()
                        invariant
                            k <= advertised@.len(),
                            names == advertised@.map_values(|x: String| x@),
                            s@ == head + comma_joined(names.take(k as int)),
                        decreases advertised.len() - k,
                    {
                        proof {
                            assert(names.take(k + 1).drop_last() =~= names.take(k as int));
                            if k == 0 {
                                assert(names.take(1) =~= seq![names[0]]);
                            }
                        }
                        if k > 0 {
                            push_str(&mut s, ", ");
                        }
                        push_str(&mut s, advertised[k].as_str());
                        k += 1;
                    }
                    assert(names.take(advertised@.len() as int) =~= names);
                    push_str(&mut s, ")");
                }
                s
            },
            EmaError::PolicyDenied { error, detail } => {
                let mut s = copy_str("Your organization's identity provider did not authorize this MCP server (");
                push_str(&mut s, error.as_str());
                push_str(&mut s, "): ");
                push_str(&mut s, detail.as_str());
                s
            },
            EmaError::SubjectTokenRejected { detail } => {
                let mut s = copy_str(
                    "The enterprise identity assertion was rejected and a new single sign-on is required: ",
                );
                push_str(&mut s, detail.as_str());
                s
            },
            EmaError::RedemptionRejected { error, detail } => {
                let mut s = copy_str("The MCP server's authorization server rejected the identity assertion grant");
                if let Some(code) = error {
                    push_str(&mut s, " (");
                    push_str(&mut s, code.as_str());
                    push_str(&mut s, ")");
                }
                push_str(&mut s, ": ");
                push_str(&mut s, detail.as_str());
                s
            },
            EmaError::UpstreamUnavailable { step, detail } => {
                let mut s = copy_str("The enterprise-managed authorization ");
                push_str(&mut s, step.as_str());
                push_str(&mut s, " request failed: ");
                push_str(&mut s, detail.as_str());
                s
            },
        }
    }
}

} // verus!
