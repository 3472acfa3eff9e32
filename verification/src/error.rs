//! Recoverable failures. Domain tool failures (`ok: false`) are tool results, not these.

use vstd::prelude::*;
use crate::id::IntegrationSlug;

verus! {

/// An identifier failed to parse.
#[derive(Clone, Debug, PartialEq, Eq)]
pub struct InvalidId {
    /// Which identifier.
    pub kind: &'static str,
    /// The rejected text.
    pub value: String,
    /// Why it was rejected.
    pub reason: &'static str,
}

impl InvalidId {
    /// Build the error.
    pub fn new(kind: &'static str, value: &str, reason: &'static str) -> (r: Self)
        ensures
            r.kind == kind,
            r.value@ == value@,
            r.reason == reason,
    {
        InvalidId { kind, value: crate::text::copy_str(value), reason }
    }

    /// The error's text: `<kind> <value as a Rust debug string> is not a valid identifier:
    /// <reason>`.
    pub fn message(&self) -> (r: String)
        ensures
            r@ == invalid_id_message(self.kind@, self.value@, self.reason@),
    {
        let mut s = crate::text::copy_str(self.kind);
        crate::text::push_str(&mut s, " ");
        let quoted = crate::codemode::parse::debug_str(self.value.as_str());
        crate::text::push_str(&mut s, quoted.as_str());
        crate::text::push_str(&mut s, " is not a valid identifier: ");
        crate::text::push_str(&mut s, self.reason);
        s
    }
}

/// The text of an identifier error.
pub open spec fn invalid_id_message(kind: Seq<char>, value: Seq<char>, reason: Seq<char>) -> Seq<char> {
    kind + " "@ + crate::codemode::parse::str_debug(value) + " is not a valid identifier: "@ + reason
}

/// Persistence failure. Not a domain error.
#[derive(Clone, Debug, PartialEq, Eq)]
pub struct StorageError {
    /// Human-readable cause.
    pub message: String,
}

impl StorageError {
    /// Build a storage error from its message.
    pub fn new(message: &str) -> (r: Self)
        ensures
            r.message@ == message@,
    {
        StorageError { message: crate::text::copy_str(message) }
    }
}

/// Failures on the executor's error channel (infra, policy, missing catalog rows).
#[derive(Clone, Debug)]
pub enum ExecutorError {
    /// No tool exists at this address (or the CLI path did not resolve uniquely).
    ToolNotFound {
        /// Address or path the caller asked for.
        address: String,
        /// Nearby catalog addresses, if any.
        suggestions: Vec<String>,
        /// Extra context.
        reason: Option<String>,
    },
    /// A `block` policy matched.
    ToolBlocked {
        /// Tool that was gated.
        address: String,
        /// Matching policy pattern.
        pattern: String,
        /// Policy id.
        policy_id: String,
    },
    /// Integration slug is unknown.
    IntegrationNotFound(IntegrationSlug),
    /// Connection identity is unknown.
    ConnectionNotFound(String),
    /// Plugin id is not loaded in this executor.
    PluginNotLoaded(String),
    /// Secret backend is unknown.
    ProviderNotRegistered(String),
    /// Secret resolution failed.
    CredentialResolution(String),
    /// Arguments failed JSON Schema validation.
    InvalidArgs(String),
    /// Policy pattern is illegal.
    InvalidPattern(String),
    /// Catalog write rejected.
    Conflict(String),
    /// Built-in namespace cannot be removed.
    RemovalNotAllowed(IntegrationSlug),
    /// Identifier parse error.
    InvalidId(InvalidId),
    /// Storage.
    Storage(StorageError),
    /// Plugin invocation failed at the infrastructure layer.
    Plugin(String),
    /// Resume targeted an unknown or consumed execution.
    ExecutionNotFound(String),
    /// Resume targeted an execution that is not paused.
    NotPaused(String),
    /// In-flight execute slots are exhausted. Callers must back off.
    Overloaded {
        /// Current in-flight executes.
        in_flight: u32,
        /// Configured cap.
        max_in_flight: u32,
        /// Hint for retry-after.
        retry_after_ms: u32,
    },
    /// Deadline expired.
    Timeout {
        /// Budget that elapsed.
        timeout_ms: u64,
    },
    /// Caller cancelled the invoke.
    Cancelled,
    /// Catalog or spec exceeded a configured bound.
    LimitExceeded(String),
    /// Code-mode parse or runtime failure.
    Code(String),
}

impl ExecutorError {
    /// Missing tool with optional suggestions.
    pub fn tool_not_found(address: &str, suggestions: Vec<String>) -> (r: Self)
        ensures
            r matches ExecutorError::ToolNotFound { address: a, suggestions: s, reason: None }
                && a@ == address@ && s == suggestions,
    {
        ExecutorError::ToolNotFound {
            address: crate::text::copy_str(address),
            suggestions,
            reason: None,
        }
    }

    /// A tool address missing from the catalog.
    pub fn missing_address(address: &crate::address::ToolAddress) -> (r: Self)
        ensures
            r matches ExecutorError::ToolNotFound { address: a, suggestions: s, reason: None }
                && a@ == crate::address::spec_address_text(address@) && s@.len() == 0,
    {
        let text = address.to_string();
        Self::tool_not_found(text.as_str(), Vec::new())
    }

    /// Missing tool with a reason.
    pub fn tool_not_found_reason(address: &str, reason: &str) -> (r: Self)
        ensures
            r matches ExecutorError::ToolNotFound { address: a, suggestions: s, reason: Some(why) }
                && a@ == address@ && s@.len() == 0 && why@ == reason@,
    {
        ExecutorError::ToolNotFound {
            address: crate::text::copy_str(address),
            suggestions: Vec::new(),
            reason: Some(crate::text::copy_str(reason)),
        }
    }
}

} // verus!
