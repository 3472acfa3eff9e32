# executor

The executor's domain library, verified with Verus: tool addresses and ids, policy
resolution and ordering keys, tool search ranking, the `WWW-Authenticate` parser, the
code-mode text passes (the 64 KiB source cap and kernel choice, TypeScript stripping,
parsing, evaluation), the paid-API catalog and its prepaid ledger, the in-process catalog
store, OAuth and ID-JAG token exchange forms, and the decisions of the command line
(request bodies, listings, the daemon launcher, device login, server profiles, the MCP
bridge's fallback answer).

Layout:

- `src/` — the library. Every executable function states its behaviour in `requires` /
  `ensures` and is proved by Verus. Calls into `serde_json`, `serde_yaml`, `url`, `sha2`,
  `base64` and `getrandom` go through small wrappers whose contracts say what those crates
  document.
- `tests/` — tests of the library on concrete values.
- `app/` — the `executor` binary: argument handling, files, processes and HTTP around the
  library.

Laws that relate several functions are public proof functions named `law_*` (for example
`store::table::law_get_after_put`, `catalog::money::law_settle_idempotent`,
`execution::law_minted_ids_differ`).
