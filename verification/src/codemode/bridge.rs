//! The tool bridge of the script runtime: where a guest's `tools[path](args)` call goes,
//! and the JSON the guest gets back.

use vstd::prelude::*;
use crate::json::{JsonValue, write_json, json_text, copy_json, json_same, numbers_ok};
use crate::outcome::{Outcome, ToolResult, PausedExecution, is_text, named};
use crate::engine::{copy_paused, pause_same};
use crate::cli::login::{get, str_member};
use crate::catalog::call::json_get;
use crate::text::{copy_str, push_str, decimal, spec_decimal, str_eq};

verus! {

/// Where one guest tool call goes.
pub enum BridgeRoute {
    /// Refused with this message (sent to the guest as a failure).
    Refuse { message: String },
    /// The host's catalog search.
    Search,
    /// The host's description of the tool at `path`.
    DescribeTool { path: String },
    /// The host's list of sandbox integrations.
    ListIntegrations,
    /// The host's tool invocation.
    Invoke,
}

/// The size in bytes of the arguments' JSON text, when it can be written (each number's
/// text is one serde_json reads).
pub fn arg_bytes(args: &JsonValue) -> (r: Option<usize>)
    ensures
        r is Some <==> numbers_ok(*args),
        r matches Some(n) ==> n == vstd::utf8::encode_utf8(json_text(*args)).len() as usize,
{
    match write_json(args) {
        Some(t) => Some(t.as_str().len()),
        None => None,
    }
}

/// Arguments are too large: more than `max` bytes, or their size is unknown.
pub open spec fn oversize(bytes: Option<usize>, max: usize) -> bool {
    match bytes {
        Some(n) => n > max,
        None => true,
    }
}

/// Where call number `n` (counting from one) to `path` goes: refused past the call cap,
/// without a path, or with oversize arguments; the built-in `search`, `describe.tool` and
/// `executor.integrations.list` go to the host's own answers; every other path is invoked.
pub open spec fn route_is(
    r: BridgeRoute,
    n: u64,
    max_calls: u32,
    path: Seq<char>,
    args: JsonValue,
    bytes: Option<usize>,
    max_bytes: usize,
) -> bool {
    if n > max_calls {
        r matches BridgeRoute::Refuse { message } && message@ == "max_tool_calls ("@ + spec_decimal(
            max_calls as nat,
        ) + ") exceeded"@
    } else if path.len() == 0 {
        r matches BridgeRoute::Refuse { message } && message@ == "Tool path missing in invocation"@
    } else if oversize(bytes, max_bytes) {
        r matches BridgeRoute::Refuse { message } && message@ == "tool args exceeded "@ + spec_decimal(
            max_bytes as nat,
        ) + " bytes"@
    } else if path == "search"@ {
        r is Search
    } else if path == "describe.tool"@ {
        match str_member(args, "path"@) {
            None => r matches BridgeRoute::Refuse { message } && message@
                == "tools.describe.tool expects an object: { path: string }"@,
            Some(p) => if json_get(args, "includeSchemas"@) is Some {
                r matches BridgeRoute::Refuse { message } && message@
                    == "tools.describe.tool no longer accepts includeSchemas"@
            } else {
                r matches BridgeRoute::DescribeTool { path: q } && q@ == p
            },
        }
    } else if path == "executor.integrations.list"@ {
        r is ListIntegrations
    } else {
        r is Invoke
    }
}

/// Route guest call number `n` (counting from one) to `path` with `args`, whose JSON text
/// is `bytes` long.
pub fn bridge_route(n: u64, max_calls: u32, path: &str, args: &JsonValue, bytes: Option<usize>, max_bytes: usize) -> (r:
    BridgeRoute)
    ensures
        route_is(r, n, max_calls, path@, *args, bytes, max_bytes),
{
    if n > max_calls as u64 {
        let mut m = copy_str("max_tool_calls (");
        let d = decimal(max_calls as u64);
        push_str(&mut m, d.as_str());
        push_str(&mut m, ") exceeded");
        return BridgeRoute::Refuse { message: m };
    }
    proof {
        reveal_strlit("");
        reveal_strlit("search");
        reveal_strlit("describe.tool");
        reveal_strlit("executor.integrations.list");
        assert(path@.len() == 0 ==> path@ =~= ""@);
    }
    if str_eq(path, "") {
        return BridgeRoute::Refuse { message: copy_str("Tool path missing in invocation") };
    }
    let too_big = match bytes {
        Some(b) => b > max_bytes,
        None => true,
    };
    if too_big {
        let mut m = copy_str("tool args exceeded ");
        let d = decimal(max_bytes as u64);
        push_str(&mut m, d.as_str());
        push_str(&mut m, " bytes");
        return BridgeRoute::Refuse { message: m };
    }
    if str_eq(path, "search") {
        return BridgeRoute::Search;
    }
    if str_eq(path, "describe.tool") {
        let p = match get(args, "path") {
            Some(JsonValue::Text(p)) => p,
            _ => {
                return BridgeRoute::Refuse {
                    message: copy_str("tools.describe.tool expects an object: { path: string }"),
                };
            },
        };
        if get(args, "includeSchemas").is_some() {
            return BridgeRoute::Refuse { message: copy_str("tools.describe.tool no longer accepts includeSchemas") };
        }
        return BridgeRoute::DescribeTool { path: copy_str(p.as_str()) };
    }
    if str_eq(path, "executor.integrations.list") {
        return BridgeRoute::ListIntegrations;
    }
    BridgeRoute::Invoke
}

/// `v` is the guest's success reply `{"ok": true, "value": value}`.
pub open spec fn ok_reply_is(v: JsonValue, value: JsonValue) -> bool {
    v matches JsonValue::Object(m) && m@.len() == 2 && named(m@, 0, "ok"@) && m@[0].1 == JsonValue::Bool(true)
        && named(m@, 1, "value"@) && json_same(value, m@[1].1)
}

/// `v` is the guest's failure reply `{"error": message, "ok": false}`.
pub open spec fn fail_reply_is(v: JsonValue, message: Seq<char>) -> bool {
    v matches JsonValue::Object(m) && m@.len() == 2 && named(m@, 0, "error"@) && is_text(m@[0].1, message)
        && named(m@, 1, "ok"@) && m@[1].1 == JsonValue::Bool(false)
}

/// The guest's success reply.
pub fn ok_reply(value: &JsonValue) -> (r: JsonValue)
    ensures
        ok_reply_is(r, *value),
{
    let mut m: Vec<(String, JsonValue)> = Vec::new();
    m.push((copy_str("ok"), JsonValue::Bool(true)));
    m.push((copy_str("value"), copy_json(value)));
    JsonValue::Object(m)
}

/// The guest's failure reply.
pub fn fail_reply(message: &str) -> (r: JsonValue)
    ensures
        fail_reply_is(r, message@),
{
    let mut m: Vec<(String, JsonValue)> = Vec::new();
    m.push((copy_str("error"), JsonValue::Text(copy_str(message))));
    m.push((copy_str("ok"), JsonValue::Bool(false)));
    JsonValue::Object(m)
}

/// What the guest gets back from an invocation, and the pause to record when the call
/// paused: `{"paused": true}` for a pause, the data of a success, the message of a failure
/// or of a host error.
pub fn invoke_reply(answer: &Result<Outcome, String>) -> (r: (JsonValue, Option<PausedExecution>))
    ensures
        match *answer {
            Ok(Outcome::Paused { execution }) => (r.0 matches JsonValue::Object(m) && m@.len() == 1 && named(
                m@,
                0,
                "paused"@,
            ) && m@[0].1 == JsonValue::Bool(true)) && (r.1 matches Some(p) && pause_same(execution, p)),
            Ok(Outcome::Completed { result: ToolResult::Success { data, .. }, .. }) => ok_reply_is(r.0, data)
                && r.1 is None,
            Ok(Outcome::Completed { result: ToolResult::Failure { error }, .. }) => fail_reply_is(
                r.0,
                error.message@,
            ) && r.1 is None,
            Err(e) => fail_reply_is(r.0, e@) && r.1 is None,
        },
{
    match answer {
        Ok(Outcome::Paused { execution }) => {
            let mut m: Vec<(String, JsonValue)> = Vec::new();
            m.push((copy_str("paused"), JsonValue::Bool(true)));
            (JsonValue::Object(m), Some(copy_paused(execution)))
        },
        Ok(Outcome::Completed { result: ToolResult::Success { data, .. }, .. }) => (ok_reply(data), None),
        Ok(Outcome::Completed { result: ToolResult::Failure { error }, .. }) => (
            fail_reply(error.message.as_str()),
            None,
        ),
        Err(e) => (fail_reply(e.as_str()), None),
    }
}

/// What the guest gets back from one of the host's own answers (search, describe,
/// integrations).
pub fn host_reply(answer: &Result<JsonValue, String>) -> (r: JsonValue)
    ensures
        match *answer {
            Ok(v) => ok_reply_is(r, v),
            Err(e) => fail_reply_is(r, e@),
        },
{
    match answer {
        Ok(v) => ok_reply(v),
        Err(e) => fail_reply(e.as_str()),
    }
}

} // verus!
