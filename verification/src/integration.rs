//! Integration catalog identity.

use vstd::prelude::*;
use crate::auth::AuthMethod;
use crate::id::{IntegrationSlug, PluginId};
use crate::json::JsonValue;

verus! {

/// Public projection — no credentials, no plugin internals.
#[derive(Clone, Debug, PartialEq)]
pub struct Integration {
    /// Catalog slug.
    pub slug: IntegrationSlug,
    /// Display name.
    pub name: String,
    /// Agent-visible description.
    pub description: String,
    /// Owning plugin id.
    pub kind: PluginId,
    /// User-removable?
    pub can_remove: bool,
    /// Supports `connections.refresh`?
    pub can_refresh: bool,
    /// Declared auth methods (derived projection).
    pub auth_methods: Vec<AuthMethod>,
    /// Non-secret display URL.
    pub display_url: Option<String>,
}

/// A stored integration: its public projection and the plugin's own configuration.
#[derive(Debug, PartialEq)]
pub struct IntegrationRecord {
    /// Public projection.
    pub integration: Integration,
    /// Plugin-owned configuration.
    pub config: JsonValue,
}

/// Confidence when a plugin claims a URL.
#[derive(Clone, Copy, Debug, PartialEq, Eq, Structural)]
pub enum DetectionConfidence {
    /// Spec/content-type is unambiguous.
    High,
    /// Likely, but another plugin might also claim it.
    Medium,
    /// Weak heuristic.
    Low,
}

/// `integrations.detect` hit.
#[derive(Clone, Debug, PartialEq)]
pub struct Detection {
    /// Plugin id.
    pub kind: PluginId,
    /// Confidence.
    pub confidence: DetectionConfidence,
    /// Normalized endpoint.
    pub endpoint: String,
    /// Suggested display name.
    pub name: String,
    /// Suggested slug.
    pub slug: String,
}

/// Plugin-level failure (infra, not a tool result).
#[derive(Clone, Debug, PartialEq, Eq)]
pub struct PluginError(pub String);

impl PluginError {
    /// Wrap a cause.
    pub fn new(message: &str) -> (r: Self)
        ensures
            r.0@ == message@,
    {
        PluginError(crate::text::copy_str(message))
    }
}

/// Schema mismatch.
#[derive(Clone, Debug, PartialEq, Eq)]
pub struct SchemaError(pub String);

impl SchemaError {
    /// `path: message`, or just the message at the root.
    pub fn at(path: &str, message: &str) -> (r: Self)
        ensures
            r.0@ == (if path@.len() == 0 { message@ } else { path@ + ": "@ + message@ }),
    {
        if path.unicode_len() == 0 {
            return SchemaError(crate::text::copy_str(message));
        }
        let mut s = crate::text::copy_str(path);
        crate::text::push_str(&mut s, ": ");
        crate::text::push_str(&mut s, message);
        SchemaError(s)
    }
}

} // verus!
