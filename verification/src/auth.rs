//! Authentication templates. Core stores these as a closed enum, not stringly modes.

use vstd::prelude::*;
use crate::error::InvalidId;
use crate::id::spec_opaque_result;
use crate::text::{copy_str, from_chars, lemma_trim_noop, spec_trim, to_chars, trim_vec};

verus! {

/// Sentinel template slug for integrations that need no credential.
pub const NO_AUTH_TEMPLATE: &'static str = "none";

/// Slug of one declared auth method on an integration.
#[derive(Debug, PartialEq, Eq, Hash)]
pub struct AuthTemplateSlug(String);

impl View for AuthTemplateSlug {
    type V = Seq<char>;

    closed spec fn view(&self) -> Seq<char> {
        self.0@
    }
}

impl Clone for AuthTemplateSlug {
    fn clone(&self) -> (r: Self)
        ensures
            r@ == self@,
    {
        AuthTemplateSlug(self.0.clone())
    }
}

impl AuthTemplateSlug {
    /// Parse a non-empty template slug.
    ///
    /// # Errors
    ///
    /// Empty after trimming.
    pub fn new(raw: &str) -> (r: Result<Self, InvalidId>)
        ensures
            r matches Ok(t) ==> spec_opaque_result(raw@) == Ok::<Seq<char>, Seq<char>>(t@),
            r matches Err(e) ==> spec_opaque_result(raw@) == Err::<Seq<char>, Seq<char>>(e.value@),
            r matches Err(e) ==> e.kind@ == "auth template"@ && e.reason@ == "must be non-empty"@,
    {
        let v = to_chars(raw);
        let t = trim_vec(&v);
        if t.len() == 0 {
            return Err(InvalidId::new("auth template", raw, "must be non-empty"));
        }
        Ok(AuthTemplateSlug(from_chars(&t)))
    }

    /// The no-auth template.
    pub fn none() -> (r: Self)
        ensures
            r@ == "none"@,
    {
        AuthTemplateSlug(copy_str(NO_AUTH_TEMPLATE))
    }

    /// Bearer-token template slug.
    pub fn bearer() -> (r: Self)
        ensures
            r@ == "bearer"@,
    {
        AuthTemplateSlug(copy_str("bearer"))
    }

    /// API-key template slug.
    pub fn api_key() -> (r: Self)
        ensures
            r@ == "apiKey"@,
    {
        AuthTemplateSlug(copy_str("apiKey"))
    }

    /// Borrow the slug.
    pub fn as_str(&self) -> (r: &str)
        ensures
            r@ == self@,
    {
        self.0.as_str()
    }
}

/// Where a credential is applied on an outbound call.
#[derive(Clone, Copy, Debug, PartialEq, Eq, Structural)]
pub enum Carrier {
    /// HTTP header.
    Header,
    /// Query string.
    Query,
    /// Child-process environment (stdio MCP servers).
    Env,
}

/// One rendering of a credential input onto a request.
#[derive(Clone, Debug, PartialEq, Eq)]
pub struct AuthPlacement {
    /// Carrier.
    pub carrier: Carrier,
    /// Header/query/env name.
    pub name: String,
    /// Literal prefix (`"Bearer "`), empty when bare.
    pub prefix: String,
    /// Input variable this placement reads (`token` by default).
    pub variable: String,
    /// When set, this placement is a static literal (no secret).
    pub literal: Option<String>,
}

impl AuthPlacement {
    /// Bearer header from the `token` variable.
    pub fn bearer_header() -> (r: Self)
        ensures
            r.carrier == Carrier::Header,
            r.name@ == "Authorization"@,
            r.prefix@ == "Bearer "@,
            r.variable@ == "token"@,
            r.literal is None,
    {
        AuthPlacement {
            carrier: Carrier::Header,
            name: copy_str("Authorization"),
            prefix: copy_str("Bearer "),
            variable: copy_str("token"),
            literal: None,
        }
    }

    /// Named header, no prefix.
    pub fn header(name: &str, variable: &str) -> (r: Self)
        ensures
            r.carrier == Carrier::Header,
            r.name@ == name@,
            r.prefix@.len() == 0,
            r.variable@ == variable@,
            r.literal is None,
    {
        AuthPlacement {
            carrier: Carrier::Header,
            name: copy_str(name),
            prefix: String::new(),
            variable: copy_str(variable),
            literal: None,
        }
    }
}

/// Kind of auth method, closed.
#[derive(Clone, Copy, Debug, PartialEq, Eq, Structural)]
pub enum AuthKind {
    /// No credential (`none` on the wire).
    NoCredential,
    /// API key / static secret via placements.
    ApiKey,
    /// Convenience for a single Authorization header.
    Header,
    /// OAuth access token (client-credentials or paused auth-code).
    Oauth,
}

/// Declared auth method on an integration catalog response.
#[derive(Clone, Debug, PartialEq)]
pub struct AuthMethod {
    /// Stable id within the integration (template slug).
    pub id: String,
    /// Human label.
    pub label: String,
    /// Kind.
    pub kind: AuthKind,
    /// Template slug a connection binds.
    pub template: AuthTemplateSlug,
    /// How to apply credential inputs.
    pub placements: Vec<AuthPlacement>,
    /// OAuth authorization URL, when kind is OAuth.
    pub authorization_url: Option<String>,
    /// OAuth token URL.
    pub token_url: Option<String>,
    /// OAuth scopes.
    pub scopes: Vec<String>,
}

impl AuthMethod {
    /// No credential.
    pub fn none() -> (r: Self)
        ensures
            r.id@ == "none"@,
            r.label@ == "None"@,
            r.kind == AuthKind::NoCredential,
            r.template@ == "none"@,
            r.placements@.len() == 0,
            r.authorization_url is None,
            r.token_url is None,
            r.scopes@.len() == 0,
    {
        AuthMethod {
            id: copy_str(NO_AUTH_TEMPLATE),
            label: copy_str("None"),
            kind: AuthKind::NoCredential,
            template: AuthTemplateSlug::none(),
            placements: Vec::new(),
            authorization_url: None,
            token_url: None,
            scopes: Vec::new(),
        }
    }

    /// Single `Authorization: Bearer` header from `token`.
    pub fn bearer() -> (r: Self)
        ensures
            r.id@ == "bearer"@,
            r.label@ == "Bearer token"@,
            r.kind == AuthKind::Header,
            r.template@ == "bearer"@,
            r.placements@.len() == 1,
            r.placements@[0].carrier == Carrier::Header,
            r.placements@[0].name@ == "Authorization"@,
            r.placements@[0].prefix@ == "Bearer "@,
            r.placements@[0].variable@ == "token"@,
            r.placements@[0].literal is None,
            r.authorization_url is None,
            r.token_url is None,
            r.scopes@.len() == 0,
    {
        let mut placements = Vec::new();
        placements.push(AuthPlacement::bearer_header());
        AuthMethod {
            id: copy_str("bearer"),
            label: copy_str("Bearer token"),
            kind: AuthKind::Header,
            template: AuthTemplateSlug::bearer(),
            placements,
            authorization_url: None,
            token_url: None,
            scopes: Vec::new(),
        }
    }

    /// Named header API key (variable `token`).
    pub fn api_key_header(header_name: &str) -> (r: Self)
        ensures
            r.id@ == "apiKey"@,
            r.label@ == "API key"@,
            r.kind == AuthKind::ApiKey,
            r.template@ == "apiKey"@,
            r.placements@.len() == 1,
            r.placements@[0].carrier == Carrier::Header,
            r.placements@[0].name@ == header_name@,
            r.placements@[0].prefix@.len() == 0,
            r.placements@[0].variable@ == "token"@,
            r.placements@[0].literal is None,
            r.authorization_url is None,
            r.token_url is None,
            r.scopes@.len() == 0,
    {
        let mut placements = Vec::new();
        placements.push(AuthPlacement::header(header_name, "token"));
        AuthMethod {
            id: copy_str("apiKey"),
            label: copy_str("API key"),
            kind: AuthKind::ApiKey,
            template: AuthTemplateSlug::api_key(),
            placements,
            authorization_url: None,
            token_url: None,
            scopes: Vec::new(),
        }
    }
}

} // verus!
