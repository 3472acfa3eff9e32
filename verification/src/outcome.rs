//! Tool results, pauses and the outcome of an execution, with the JSON the daemon and the
//! command line show for them.

use vstd::prelude::*;
use crate::json::{JsonValue, JView, jview, copy_json, json_same, lemma_json_same_view, lemma_object_view, lemma_array_view};
use crate::execution::{ExecutionId, ToolHttpMeta};
use crate::text::{copy_str, decimal, spec_decimal};

verus! {

/// Structured tool failure.
pub struct ToolError {
    /// Stable machine code.
    pub code: String,
    /// Human message.
    pub message: String,
    /// HTTP status when the failure came from an upstream response.
    pub status: Option<u16>,
    /// Extra structured context.
    pub details: Option<JsonValue>,
    /// Whether retrying may succeed.
    pub retryable: Option<bool>,
}

/// What one tool call gave.
pub enum ToolResult {
    /// Success.
    Success {
        /// Payload.
        data: JsonValue,
        /// Transport facts, when the tool spoke HTTP.
        http: Option<ToolHttpMeta>,
    },
    /// Failure.
    Failure {
        /// The failure.
        error: ToolError,
    },
}

/// Why an execution paused.
pub enum PauseReason {
    /// A policy asks for approval before the call.
    Approval {
        /// Tool path.
        address: String,
        /// Arguments to replay on approval.
        args: JsonValue,
        /// What the approval is for.
        description: Option<String>,
    },
    /// Authentication is needed.
    Auth {
        /// Prompt.
        message: String,
        /// Where to authenticate.
        url: Option<String>,
    },
    /// The tool asks for more input.
    Elicitation {
        /// Prompt.
        message: String,
        /// Schema of the answer.
        schema: JsonValue,
    },
}

/// A paused execution as callers see it.
pub struct PausedExecution {
    /// Execution id.
    pub id: ExecutionId,
    /// Why it paused.
    pub reason: PauseReason,
    /// Unix milliseconds after which the pause lapses.
    pub expires_at_ms: u64,
}

/// How an execution ended (for now).
pub enum Outcome {
    /// Ran to the end.
    Completed {
        /// The result.
        result: ToolResult,
        /// Its id.
        execution_id: ExecutionId,
    },
    /// Waiting for an answer.
    Paused {
        /// The pause.
        execution: PausedExecution,
    },
}

/// What the store keeps of an execution.
pub enum ExecutionState {
    /// Claimed, not finished.
    Running,
    /// Finished with this result.
    Completed(ToolResult),
    /// Paused; `address` and `args` are what an approval replays.
    Paused {
        /// The pause.
        execution: PausedExecution,
        /// Path to invoke on approval.
        address: String,
        /// Arguments to invoke with.
        args: JsonValue,
        /// Whether it was approved.
        approved: bool,
    },
}

/// The value of transport facts: `{"headers": [[name, value], ...], "status": n}`.
pub open spec fn http_view(h: ToolHttpMeta) -> JView {
    JView::Object(
        seq![
            ("headers"@, JView::Array(
                h.headers@.map_values(
                    |p: (String, String)| JView::Array(seq![JView::Text(p.0@), JView::Text(p.1@)]),
                ),
            )),
            ("status"@, JView::Number(spec_decimal(h.status as nat))),
        ],
    )
}

/// The optional member `(key, v)`.
pub open spec fn opt_member(key: Seq<char>, v: Option<JView>) -> Seq<(Seq<char>, JView)> {
    match v {
        Some(x) => seq![(key, x)],
        None => Seq::empty(),
    }
}

/// The value of a tool failure: `code`, `details`?, `message`, `retryable`?, `status`?.
pub open spec fn error_view(e: ToolError) -> JView {
    JView::Object(
        seq![("code"@, JView::Text(e.code@))] + opt_member(
            "details"@,
            match e.details {
                Some(d) => Some(jview(d)),
                None => None,
            },
        ) + seq![("message"@, JView::Text(e.message@))] + opt_member(
            "retryable"@,
            match e.retryable {
                Some(b) => Some(JView::Bool(b)),
                None => None,
            },
        ) + opt_member(
            "status"@,
            match e.status {
                Some(n) => Some(JView::Number(spec_decimal(n as nat))),
                None => None,
            },
        ),
    )
}

/// The value of a result's envelope.
pub open spec fn envelope_view(t: ToolResult) -> JView {
    match t {
        ToolResult::Success { data, http } => JView::Object(
            seq![("data"@, jview(data))] + opt_member(
                "http"@,
                match http {
                    Some(h) => Some(http_view(h)),
                    None => None,
                },
            ) + seq![("ok"@, JView::Bool(true))],
        ),
        ToolResult::Failure { error } => JView::Object(
            seq![("error"@, error_view(error)), ("ok"@, JView::Bool(false))],
        ),
    }
}

impl ToolResult {
    /// A success without transport facts.
    pub fn ok(data: JsonValue) -> (r: Self)
        ensures
            r == (ToolResult::Success { data, http: None }),
    {
        ToolResult::Success { data, http: None }
    }

    /// A success with transport facts.
    pub fn ok_http(data: JsonValue, http: ToolHttpMeta) -> (r: Self)
        ensures
            r == (ToolResult::Success { data, http: Some(http) }),
    {
        ToolResult::Success { data, http: Some(http) }
    }

    /// A failure.
    pub fn fail(error: ToolError) -> (r: Self)
        ensures
            r == (ToolResult::Failure { error }),
    {
        ToolResult::Failure { error }
    }

    /// The envelope agents see: `{"data", "http"?, "ok": true}` or `{"error", "ok": false}`
    /// (members in the order the JSON writer keeps them: sorted).
    pub fn envelope(&self) -> (r: JsonValue)
        ensures
            envelope_is(r, *self),
            jview(r) == envelope_view(*self),
    {
        match self {
            ToolResult::Success { data, http } => {
                let mut m: Vec<(String, JsonValue)> = Vec::new();
                let d = copy_json(data);
                proof {
                    lemma_json_same_view(*data, d);
                }
                m.push((copy_str("data"), d));
                if let Some(h) = http {
                    m.push((copy_str("http"), http_json(h)));
                }
                m.push((copy_str("ok"), JsonValue::Bool(true)));
                proof {
                    let hv = match http {
                        Some(h) => Some(http_view(*h)),
                        None => None,
                    };
                    lemma_object_view(m, seq![("data"@, jview(*data))] + opt_member("http"@, hv) + seq![("ok"@, JView::Bool(true))]);
                }
                JsonValue::Object(m)
            },
            ToolResult::Failure { error } => {
                let mut m: Vec<(String, JsonValue)> = Vec::new();
                m.push((copy_str("error"), error_json(error)));
                m.push((copy_str("ok"), JsonValue::Bool(false)));
                proof {
                    lemma_object_view(m, seq![("error"@, error_view(*error)), ("ok"@, JView::Bool(false))]);
                }
                JsonValue::Object(m)
            },
        }
    }
}

/// `v` is the string `t`.
pub open spec fn is_text(v: JsonValue, t: Seq<char>) -> bool {
    v matches JsonValue::Text(s) && s@ == t
}

/// `v` is the number `n`.
pub open spec fn is_number(v: JsonValue, n: nat) -> bool {
    v matches JsonValue::Number(s) && s@ == spec_decimal(n)
}

/// Member `i` of `m` is named `key`.
pub open spec fn named(m: Seq<(String, JsonValue)>, i: int, key: Seq<char>) -> bool {
    0 <= i < m.len() && m[i].0@ == key
}

/// `v` is the JSON of transport facts: `{"headers": [[name, value], ...], "status": n}`.
pub open spec fn http_is(v: JsonValue, h: ToolHttpMeta) -> bool {
    v matches JsonValue::Object(m) && m@.len() == 2 && named(m@, 0, "headers"@) && named(m@, 1, "status"@)
        && is_number(m@[1].1, h.status as nat) && (m@[0].1 matches JsonValue::Array(hs) && hs@.len()
        == h.headers@.len() && forall|i: int|
        0 <= i < hs@.len() ==> (#[trigger] hs@[i] matches JsonValue::Array(p) && p@.len() == 2 && is_text(
            p@[0],
            h.headers@[i].0@,
        ) && is_text(p@[1], h.headers@[i].1@)))
}

/// `v` is the JSON of a tool failure: `code`, `details`?, `message`, `retryable`?,
/// `status`?, in that order.
pub open spec fn error_is(v: JsonValue, e: ToolError) -> bool {
    v matches JsonValue::Object(m) && {
        let d: int = if e.details is Some { 1 } else { 0 };
        let r: int = if e.retryable is Some { 1 } else { 0 };
        let s: int = if e.status is Some { 1 } else { 0 };
        &&& m@.len() == 2 + d + r + s
        &&& named(m@, 0, "code"@) && is_text(m@[0].1, e.code@)
        &&& (e.details matches Some(x) ==> named(m@, 1, "details"@) && json_same(x, m@[1].1))
        &&& named(m@, 1 + d, "message"@) && is_text(m@[1 + d].1, e.message@)
        &&& (e.retryable matches Some(b) ==> named(m@, 2 + d, "retryable"@) && m@[2 + d].1 == JsonValue::Bool(b))
        &&& (e.status matches Some(n) ==> named(m@, 2 + d + r, "status"@) && is_number(m@[2 + d + r].1, n as nat))
    }
}

/// `v` is the envelope of `t`.
pub open spec fn envelope_is(v: JsonValue, t: ToolResult) -> bool {
    match t {
        ToolResult::Success { data, http } => v matches JsonValue::Object(m) && {
            let h: int = if http is Some { 1 } else { 0 };
            &&& m@.len() == 2 + h
            &&& named(m@, 0, "data"@) && json_same(data, m@[0].1)
            &&& (http matches Some(x) ==> named(m@, 1, "http"@) && http_is(m@[1].1, x))
            &&& named(m@, 1 + h, "ok"@) && m@[1 + h].1 == JsonValue::Bool(true)
        },
        ToolResult::Failure { error } => v matches JsonValue::Object(m) && m@.len() == 2 && named(m@, 0, "error"@)
            && error_is(m@[0].1, error) && named(m@, 1, "ok"@) && m@[1].1 == JsonValue::Bool(false),
    }
}

fn text(s: &str) -> (r: JsonValue)
    ensures
        is_text(r, s@),
        jview(r) == JView::Text(s@),
{
    JsonValue::Text(copy_str(s))
}

fn number(n: u64) -> (r: JsonValue)
    ensures
        is_number(r, n as nat),
        jview(r) == JView::Number(spec_decimal(n as nat)),
{
    JsonValue::Number(decimal(n))
}

fn http_json(h: &ToolHttpMeta) -> (r: JsonValue)
    ensures
        http_is(r, *h),
        jview(r) == http_view(*h),
{
    let ghost pv = h.headers@.map_values(
        |p: (String, String)| JView::Array(seq![JView::Text(p.0@), JView::Text(p.1@)]),
    );
    let mut hs: Vec<JsonValue> = Vec::new();
    let mut k: usize = 0;
    while k < h.headers.len()
        invariant
            k <= h.headers@.len(),
            hs@.len() == k,
            pv == h.headers@.map_values(
                |p: (String, String)| JView::Array(seq![JView::Text(p.0@), JView::Text(p.1@)]),
            ),
            forall|i: int|
                0 <= i < k ==> (#[trigger] hs@[i] matches JsonValue::Array(p) && p@.len() == 2 && is_text(
                    p@[0],
                    h.headers@[i].0@,
                ) && is_text(p@[1], h.headers@[i].1@)),
            forall|i: int| 0 <= i < k ==> jview(#[trigger] hs@[i]) == pv[i],
        decreases h.headers.len() - k,
    {
        let mut p: Vec<JsonValue> = Vec::new();
        p.push(text(h.headers[k].0.as_str()));
        p.push(text(h.headers[k].1.as_str()));
        proof {
            lemma_array_view(p, seq![JView::Text(h.headers@[k as int].0@), JView::Text(h.headers@[k as int].1@)]);
        }
        hs.push(JsonValue::Array(p));
        k += 1;
    }
    let mut m: Vec<(String, JsonValue)> = Vec::new();
    proof {
        lemma_array_view(hs, pv);
    }
    m.push((copy_str("headers"), JsonValue::Array(hs)));
    m.push((copy_str("status"), number(h.status as u64)));
    proof {
        lemma_object_view(m, seq![("headers"@, JView::Array(pv)), ("status"@, JView::Number(spec_decimal(h.status as nat)))]);
    }
    JsonValue::Object(m)
}

fn error_json(e: &ToolError) -> (r: JsonValue)
    ensures
        error_is(r, *e),
        jview(r) == error_view(*e),
{
    let mut m: Vec<(String, JsonValue)> = Vec::new();
    m.push((copy_str("code"), text(e.code.as_str())));
    if let Some(x) = &e.details {
        let d = copy_json(x);
        proof {
            lemma_json_same_view(*x, d);
        }
        m.push((copy_str("details"), d));
    }
    m.push((copy_str("message"), text(e.message.as_str())));
    if let Some(b) = e.retryable {
        m.push((copy_str("retryable"), JsonValue::Bool(b)));
    }
    if let Some(n) = e.status {
        m.push((copy_str("status"), number(n as u64)));
    }
    proof {
        lemma_object_view(m, error_view(*e)->Object_0);
    }
    JsonValue::Object(m)
}

/// `v` is the JSON of a pause reason, tagged by `kind`.
pub open spec fn reason_is(v: JsonValue, p: PauseReason) -> bool {
    v matches JsonValue::Object(m) && match p {
        PauseReason::Approval { address, args, description } => {
            let d: int = if description is Some { 1 } else { 0 };
            &&& m@.len() == 3 + d
            &&& named(m@, 0, "address"@) && is_text(m@[0].1, address@)
            &&& named(m@, 1, "args"@) && json_same(args, m@[1].1)
            &&& (description matches Some(t) ==> named(m@, 2, "description"@) && is_text(m@[2].1, t@))
            &&& named(m@, 2 + d, "kind"@) && is_text(m@[2 + d].1, "approval"@)
        },
        PauseReason::Auth { message, url } => {
            let u: int = if url is Some { 1 } else { 0 };
            &&& m@.len() == 2 + u
            &&& named(m@, 0, "kind"@) && is_text(m@[0].1, "auth"@)
            &&& named(m@, 1, "message"@) && is_text(m@[1].1, message@)
            &&& (url matches Some(t) ==> named(m@, 2, "url"@) && is_text(m@[2].1, t@))
        },
        PauseReason::Elicitation { message, schema } => {
            &&& m@.len() == 3
            &&& named(m@, 0, "kind"@) && is_text(m@[0].1, "elicitation"@)
            &&& named(m@, 1, "message"@) && is_text(m@[1].1, message@)
            &&& named(m@, 2, "schema"@) && json_same(schema, m@[2].1)
        },
    }
}

/// The JSON of a pause reason.
pub fn reason_json(p: &PauseReason) -> (r: JsonValue)
    ensures
        reason_is(r, *p),
{
    let mut m: Vec<(String, JsonValue)> = Vec::new();
    match p {
        PauseReason::Approval { address, args, description } => {
            m.push((copy_str("address"), text(address.as_str())));
            m.push((copy_str("args"), copy_json(args)));
            if let Some(t) = description {
                m.push((copy_str("description"), text(t.as_str())));
            }
            m.push((copy_str("kind"), text("approval")));
        },
        PauseReason::Auth { message, url } => {
            m.push((copy_str("kind"), text("auth")));
            m.push((copy_str("message"), text(message.as_str())));
            if let Some(t) = url {
                m.push((copy_str("url"), text(t.as_str())));
            }
        },
        PauseReason::Elicitation { message, schema } => {
            m.push((copy_str("kind"), text("elicitation")));
            m.push((copy_str("message"), text(message.as_str())));
            m.push((copy_str("schema"), copy_json(schema)));
        },
    }
    JsonValue::Object(m)
}

/// `v` is what the command line prints for an outcome: `executionId`, the `result`
/// envelope or the pause `interaction`, and the `status`.
pub open spec fn cli_json_is(v: JsonValue, o: Outcome) -> bool {
    v matches JsonValue::Object(m) && m@.len() == 3 && named(m@, 0, "executionId"@) && named(m@, 2, "status"@)
        && match o {
        Outcome::Completed { result, execution_id } => is_text(m@[0].1, execution_id@) && named(m@, 1, "result"@)
            && envelope_is(m@[1].1, result) && is_text(m@[2].1, "completed"@),
        Outcome::Paused { execution } => is_text(m@[0].1, execution.id@) && named(m@, 1, "interaction"@)
            && reason_is(m@[1].1, execution.reason) && is_text(m@[2].1, "paused"@),
    }
}

impl Outcome {
    /// What `executor call` prints for this outcome.
    pub fn cli_json(&self) -> (r: JsonValue)
        ensures
            cli_json_is(r, *self),
    {
        let mut m: Vec<(String, JsonValue)> = Vec::new();
        match self {
            Outcome::Completed { result, execution_id } => {
                m.push((copy_str("executionId"), text(execution_id.as_str())));
                m.push((copy_str("result"), result.envelope()));
                m.push((copy_str("status"), text("completed")));
            },
            Outcome::Paused { execution } => {
                m.push((copy_str("executionId"), text(execution.id.as_str())));
                m.push((copy_str("interaction"), reason_json(&execution.reason)));
                m.push((copy_str("status"), text("paused")));
            },
        }
        JsonValue::Object(m)
    }
}

} // verus!
