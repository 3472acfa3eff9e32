//! Tools: definitions from plugins, persisted addressable rows, list filters.

use vstd::prelude::*;
use crate::json::JsonValue;
use crate::owner::Owner;
use crate::address::{ToolAddress, spec_sandbox_path};
use crate::id::{ConnectionName, IntegrationSlug, PluginId, ToolName};

verus! {

/// Default-policy hints a plugin attaches to a tool.
pub struct ToolAnnotations {
    /// Plugin asks the engine to require approval when no user rule matches.
    pub requires_approval: Option<bool>,
    /// Human description of the approval.
    pub approval_description: Option<String>,
    /// Tool may elicit more input.
    pub may_elicit: Option<bool>,
}

impl Default for ToolAnnotations {
    fn default() -> (r: Self)
        ensures
            r.requires_approval is None,
            r.approval_description is None,
            r.may_elicit is None,
    {
        ToolAnnotations { requires_approval: None, approval_description: None, may_elicit: None }
    }
}

/// Plugin-produced tool, not yet addressed.
pub struct ToolDef {
    /// Tool name (may contain dots).
    pub name: ToolName,
    /// Agent-visible description.
    pub description: String,
    /// JSON Schema for arguments.
    pub input_schema: Option<JsonValue>,
    /// JSON Schema for output.
    pub output_schema: Option<JsonValue>,
    /// Policy hints.
    pub annotations: Option<ToolAnnotations>,
    /// Plugin-private metadata (operation binding). Never agent-facing.
    pub plugin_meta: Option<JsonValue>,
}

/// Persisted, addressable tool.
pub struct Tool {
    /// Full address.
    pub address: ToolAddress,
    /// Owner segment.
    pub owner: Owner,
    /// Integration slug.
    pub integration: IntegrationSlug,
    /// Connection name.
    pub connection: ConnectionName,
    /// Tool name.
    pub name: ToolName,
    /// Owning plugin.
    pub plugin_id: PluginId,
    /// Description.
    pub description: String,
    /// Input schema.
    pub input_schema: Option<JsonValue>,
    /// Output schema.
    pub output_schema: Option<JsonValue>,
    /// Annotations.
    pub annotations: Option<ToolAnnotations>,
    /// Static (built-in) tools have no backing connection even though they carry
    /// owner/connection metadata for grouping.
    pub static_tool: bool,
    /// Plugin-private metadata.
    pub plugin_meta: Option<JsonValue>,
}

/// The path a tool is called by: its name for a built-in tool, else its address without
/// the `tools.` prefix.
pub open spec fn spec_cli_path(t: Tool) -> Seq<char> {
    if t.static_tool {
        t.name@
    } else {
        spec_sandbox_path(t.address@)
    }
}

/// Whether the plugin asks for approval when no rule matches.
pub open spec fn spec_default_approval(t: Tool) -> bool {
    match t.annotations {
        Some(a) => a.requires_approval == Some(true),
        None => false,
    }
}

impl Tool {
    /// Sandbox / CLI path (`integration.owner.connection.tool`, or the name of a built-in
    /// tool).
    pub fn cli_path(&self) -> (r: String)
        ensures
            r@ == spec_cli_path(*self),
    {
        if self.static_tool {
            crate::text::copy_str(self.name.as_str())
        } else {
            self.address.sandbox_path()
        }
    }

    /// Whether the plugin asks for approval when no rule matches.
    pub fn default_approval(&self) -> (r: bool)
        ensures
            r == spec_default_approval(*self),
    {
        match &self.annotations {
            Some(a) => match a.requires_approval {
                Some(b) => b,
                None => false,
            },
            None => false,
        }
    }
}

/// Filter for `tools.list`.
pub struct ToolListFilter {
    /// Restrict to one integration.
    pub integration: Option<IntegrationSlug>,
    /// Restrict to one owner.
    pub owner: Option<Owner>,
    /// Restrict to one connection.
    pub connection: Option<ConnectionName>,
    /// Case-insensitive substring on name or description.
    pub query: Option<String>,
    /// Include blocked tools. Default false (agent-facing).
    pub include_blocked: bool,
}

impl Default for ToolListFilter {
    fn default() -> (r: Self)
        ensures
            r.integration is None,
            r.owner is None,
            r.connection is None,
            r.query is None,
            !r.include_blocked,
    {
        ToolListFilter { integration: None, owner: None, connection: None, query: None, include_blocked: false }
    }
}

} // verus!
