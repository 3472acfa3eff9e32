//! Resource bounds. Exceeding one is an error, not silent growth.

use vstd::prelude::*;

verus! {

/// Process-wide caps. Durations are in milliseconds.
#[derive(Clone, Debug, PartialEq, Eq)]
pub struct Limits {
    /// Max concurrent `execute` / `resume` calls in this process.
    pub max_in_flight: u32,
    /// How long to wait for an in-flight slot before overload. Zero is fail-fast.
    pub acquire_timeout_ms: u64,
    /// Deadline for one execute, including plugin IO.
    pub execute_timeout_ms: u64,
    /// Deadline for a single outbound HTTP/MCP round trip.
    pub http_timeout_ms: u64,
    /// Max OpenAPI/GraphQL/MCP spec or introspection body.
    pub max_spec_bytes: usize,
    /// Max tools persisted for one connection.
    pub max_tools_per_connection: usize,
    /// Max tools in the whole catalog (static + dynamic).
    pub max_catalog_tools: usize,
    /// Max JSON argument payload.
    pub max_arg_bytes: usize,
    /// Max search/list page.
    pub max_search_results: usize,
    /// Pending-approval lifetime.
    pub approval_ttl_ms: u64,
}

impl Limits {
    /// Production defaults: bounded in-flight, 30s execute, 15s HTTP, 16 MiB specs.
    pub fn production() -> (r: Self)
        ensures
            r.max_in_flight == 256,
            r.acquire_timeout_ms == 0,
            r.execute_timeout_ms == 30_000,
            r.http_timeout_ms == 15_000,
            r.max_spec_bytes == 16 * 1024 * 1024,
            r.max_tools_per_connection == 10_000,
            r.max_catalog_tools == 100_000,
            r.max_arg_bytes == 1024 * 1024,
            r.max_search_results == 50,
            r.approval_ttl_ms == 15 * 60 * 1000,
    {
        Limits {
            max_in_flight: 256,
            acquire_timeout_ms: 0,
            execute_timeout_ms: 30_000,
            http_timeout_ms: 15_000,
            max_spec_bytes: 16 * 1024 * 1024,
            max_tools_per_connection: 10_000,
            max_catalog_tools: 100_000,
            max_arg_bytes: 1024 * 1024,
            max_search_results: 50,
            approval_ttl_ms: 15 * 60 * 1000,
        }
    }

    /// Tiny limits for overload/timeout tests.
    pub fn test_tight() -> (r: Self)
        ensures
            r.max_in_flight == 1,
            r.acquire_timeout_ms == 0,
            r.execute_timeout_ms == 50,
            r.http_timeout_ms == 50,
            r.max_spec_bytes == 64 * 1024,
            r.max_tools_per_connection == 32,
            r.max_catalog_tools == 64,
            r.max_arg_bytes == 4096,
            r.max_search_results == 8,
            r.approval_ttl_ms == 60_000,
    {
        Limits {
            max_in_flight: 1,
            acquire_timeout_ms: 0,
            execute_timeout_ms: 50,
            http_timeout_ms: 50,
            max_spec_bytes: 64 * 1024,
            max_tools_per_connection: 32,
            max_catalog_tools: 64,
            max_arg_bytes: 4096,
            max_search_results: 8,
            approval_ttl_ms: 60_000,
        }
    }
}

impl Default for Limits {
    fn default() -> (r: Self)
        ensures
            r == Limits::production_spec(),
    {
        Limits::production()
    }
}

impl Limits {
    /// The production limits as a value.
    pub open spec fn production_spec() -> Limits {
        Limits {
            max_in_flight: 256,
            acquire_timeout_ms: 0,
            execute_timeout_ms: 30_000,
            http_timeout_ms: 15_000,
            max_spec_bytes: 16777216,
            max_tools_per_connection: 10_000,
            max_catalog_tools: 100_000,
            max_arg_bytes: 1048576,
            max_search_results: 50,
            approval_ttl_ms: 900000,
        }
    }
}

} // verus!
