//! The stdio MCP bridge's own part: the JSON-RPC error it answers a line with when the daemon
//! gives no usable reply.

use vstd::prelude::*;
use crate::catalog::call::json_get;
use crate::cli::login::get;
use crate::json::{JsonValue, copy_json, json_same};
use crate::text::copy_str;

verus! {

/// The answer for a request line when the daemon gives none: a JSON-RPC error `-32000` with
/// `message`, under the request's `id` (`null` when it has none). Members are in key order,
/// as the line is written.
pub fn mcp_fallback(body: &JsonValue, message: &str) -> (r: JsonValue)
    ensures
        r matches JsonValue::Object(m) && m@.len() == 3 && {
            &&& m@[0].0@ == "error"@
            &&& m@[0].1 matches JsonValue::Object(e) && e@.len() == 2 && {
                &&& e@[0].0@ == "code"@
                &&& e@[0].1 matches JsonValue::Number(n) && n@ == "-32000"@
                &&& e@[1].0@ == "message"@
                &&& e@[1].1 matches JsonValue::Text(t) && t@ == message@
            }
            &&& m@[1].0@ == "id"@
            &&& match json_get(*body, "id"@) {
                Some(id) => json_same(id, m@[1].1),
                None => m@[1].1 is Null,
            }
            &&& m@[2].0@ == "jsonrpc"@
            &&& m@[2].1 matches JsonValue::Text(v) && v@ == "2.0"@
        },
{
    let id = match get(body, "id") {
        Some(x) => copy_json(x),
        None => JsonValue::Null,
    };
    let mut error: Vec<(String, JsonValue)> = Vec::new();
    error.push((copy_str("code"), JsonValue::Number(copy_str("-32000"))));
    error.push((copy_str("message"), JsonValue::Text(copy_str(message))));
    let mut m: Vec<(String, JsonValue)> = Vec::new();
    m.push((copy_str("error"), JsonValue::Object(error)));
    m.push((copy_str("id"), id));
    m.push((copy_str("jsonrpc"), JsonValue::Text(copy_str("2.0"))));
    JsonValue::Object(m)
}

} // verus!
