//! Connections: born-wired credentials. Values live in a secret provider.

use vstd::prelude::*;
use crate::address::ConnectionAddress;
use crate::auth::AuthTemplateSlug;
use crate::id::{ConnectionName, IntegrationSlug, ProviderKey};
use crate::owner::{Owner, owner_text};
use crate::secret::SecretRef;
use crate::text::{push_char, push_str};

verus! {

/// Identify one connection: unique by `(owner, integration, name)`.
#[derive(Clone, Debug, PartialEq, Eq, Hash)]
pub struct ConnectionRef {
    /// Owner.
    pub owner: Owner,
    /// Connection name.
    pub name: ConnectionName,
    /// Integration.
    pub integration: IntegrationSlug,
}

impl ConnectionRef {
    /// Display as `owner/integration/name`.
    pub fn as_key(&self) -> (r: String)
        ensures
            r@ == owner_text(self.owner) + seq!['/'] + self.integration@ + seq!['/'] + self.name@,
    {
        let mut s = String::new();
        push_str(&mut s, self.owner.as_str());
        push_char(&mut s, '/');
        push_str(&mut s, self.integration.as_str());
        push_char(&mut s, '/');
        push_str(&mut s, self.name.as_str());
        assert(s@ =~= owner_text(self.owner) + seq!['/'] + self.integration@ + seq!['/'] + self.name@);
        s
    }
}

/// Last health-check verdict.
#[derive(Clone, Debug, PartialEq, Eq)]
pub enum HealthVerdict {
    /// Probe succeeded.
    Healthy {
        /// Optional identity string from the probe.
        identity: Option<String>,
    },
    /// Probe failed.
    Unhealthy {
        /// Why.
        message: String,
    },
    /// Never checked / unknown.
    Unknown,
}

/// Variable → secret ref, one entry per variable.
pub type CredentialMap = Vec<(String, SecretRef)>;

/// Saved credential. The secret is a ref, never a value.
#[derive(Clone, Debug, PartialEq)]
pub struct Connection {
    /// Owner.
    pub owner: Owner,
    /// Name.
    pub name: ConnectionName,
    /// Wired integration.
    pub integration: IntegrationSlug,
    /// Auth template this connection binds.
    pub template: AuthTemplateSlug,
    /// Secret backend.
    pub provider: ProviderKey,
    /// Callable handle.
    pub address: ConnectionAddress,
    /// Optional account label.
    pub identity_label: Option<String>,
    /// Curated description.
    pub description: Option<String>,
    /// Named secret refs (`token` for single-secret methods).
    pub secrets: CredentialMap,
    /// Last health.
    pub last_health: Option<HealthVerdict>,
}

/// Create-connection input. Values are written to the default provider; refs stay refs.
#[derive(Clone, Debug)]
pub struct ConnectionInput {
    /// Owner.
    pub owner: Owner,
    /// Name.
    pub name: ConnectionName,
    /// Integration.
    pub integration: IntegrationSlug,
    /// Template.
    pub template: AuthTemplateSlug,
    /// Optional label.
    pub identity_label: Option<String>,
    /// Optional description.
    pub description: Option<String>,
    /// Pasted values (stored, never returned), one per variable.
    pub values: Vec<(String, String)>,
    /// External refs (not pasted).
    pub refs: CredentialMap,
}

} // verus!
