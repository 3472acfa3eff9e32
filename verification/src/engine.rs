//! The engine's decisions around one execution: the policy gate, the approval pause, what
//! a resume does, what the store keeps of an outcome and what a retry with the same
//! idempotency key gets back.

pub mod lookup;
pub mod ema;
pub mod oauth;

use vstd::prelude::*;
use crate::json::{JsonValue, copy_json, json_same};
use crate::tool::{Tool, spec_cli_path, spec_default_approval};
use crate::policy::{ToolPolicy, PolicyAction, effective_policy, spec_resolve, default_action};
use crate::owner::{Owner, spec_outer_rank};
use crate::outcome::{ToolResult, ToolError, PauseReason, PausedExecution, Outcome, ExecutionState};
use crate::execution::{ExecutionId, ResumeAction, ToolHttpMeta};
use crate::error::ExecutorError;
use crate::address::spec_address_text;
use crate::json_schema::{validate_against, schema_fault};
use crate::text::copy_str;

verus! {

// ---------------------------------------------------------------- policy

/// The action the policies give a tool: the winning rule's (outer owners rank first), else
/// the plugin's default.
pub open spec fn spec_gate_action(policies: Seq<ToolPolicy>, tool: Tool) -> PolicyAction {
    match spec_resolve(policies, spec_cli_path(tool), spec_outer_rank(Owner::Org), spec_outer_rank(Owner::User)) {
        Some(i) => policies[i].action,
        None => default_action(spec_default_approval(tool)),
    }
}

/// The policy gate: the action for `tool`, or `ToolBlocked` (with the rule that blocked it)
/// when that action is `block`.
pub fn gate(tool: &Tool, policies: &Vec<ToolPolicy>) -> (r: Result<PolicyAction, ExecutorError>)
    ensures
        spec_gate_action(policies@, *tool) != PolicyAction::Block ==> r == Ok::<PolicyAction, ExecutorError>(
            spec_gate_action(policies@, *tool),
        ),
        spec_gate_action(policies@, *tool) == PolicyAction::Block ==> (r matches Err(
            ExecutorError::ToolBlocked { address, pattern, policy_id },
        ) && address@ == spec_cli_path(*tool) && (spec_resolve(
            policies@,
            spec_cli_path(*tool),
            spec_outer_rank(Owner::Org),
            spec_outer_rank(Owner::User),
        ) matches Some(i) && pattern@ == policies@[i].pattern@ && policy_id@ == policies@[i].id@)),
{
    let path = tool.cli_path();
    let eff = effective_policy(path.as_str(), policies.as_slice(), Owner::outer_rank, tool.default_approval());
    if eff.action == PolicyAction::Block {
        let pattern = match eff.pattern {
            Some(p) => p,
            None => String::new(),
        };
        let policy_id = match eff.policy_id {
            Some(p) => p,
            None => String::new(),
        };
        return Err(ExecutorError::ToolBlocked { address: path, pattern, policy_id });
    }
    Ok(eff.action)
}

/// What to do with a call that passed resolution and validation.
pub enum DispatchPlan {
    /// Pause for approval.
    Pause,
    /// Invoke the tool.
    Invoke,
}

/// The dispatch decision: blocked tools are refused; a tool that requires approval pauses
/// unless the caller approved up front; everything else is invoked.
pub fn dispatch_plan(tool: &Tool, policies: &Vec<ToolPolicy>, auto_approve: bool) -> (r: Result<
    DispatchPlan,
    ExecutorError,
>)
    ensures
        spec_gate_action(policies@, *tool) == PolicyAction::Block ==> r matches Err(
            ExecutorError::ToolBlocked { .. },
        ),
        spec_gate_action(policies@, *tool) == PolicyAction::RequireApproval && !auto_approve ==> r matches Ok(
            DispatchPlan::Pause,
        ),
        spec_gate_action(policies@, *tool) == PolicyAction::Approve || (spec_gate_action(policies@, *tool)
            == PolicyAction::RequireApproval && auto_approve) ==> r matches Ok(DispatchPlan::Invoke),
{
    let action = gate(tool, policies)?;
    if action == PolicyAction::RequireApproval && !auto_approve {
        Ok(DispatchPlan::Pause)
    } else {
        Ok(DispatchPlan::Invoke)
    }
}

/// Only a stored rule can block a tool: without a matching rule the plugin's default
/// applies, which approves or asks for approval.
pub proof fn law_only_rules_block(policies: Seq<ToolPolicy>, tool: Tool)
    ensures
        spec_gate_action(policies, tool) == PolicyAction::Block || spec_gate_action(policies, tool)
            == PolicyAction::RequireApproval || spec_gate_action(policies, tool) == PolicyAction::Approve,
        spec_resolve(policies, spec_cli_path(tool), spec_outer_rank(Owner::Org), spec_outer_rank(Owner::User))
            is None ==> spec_gate_action(policies, tool) != PolicyAction::Block,
{
}

// ---------------------------------------------------------------- copies

/// Same transport facts.
pub open spec fn http_same(a: ToolHttpMeta, b: ToolHttpMeta) -> bool {
    a.status == b.status && a.headers@.len() == b.headers@.len() && forall|i: int|
        0 <= i < a.headers@.len() ==> (#[trigger] a.headers@[i]).0@ == b.headers@[i].0@ && a.headers@[i].1@
            == b.headers@[i].1@
}

/// Same failure.
pub open spec fn error_same(a: ToolError, b: ToolError) -> bool {
    &&& a.code@ == b.code@
    &&& a.message@ == b.message@
    &&& a.status == b.status
    &&& a.retryable == b.retryable
    &&& match (a.details, b.details) {
        (Some(x), Some(y)) => json_same(x, y),
        (None, None) => true,
        _ => false,
    }
}

/// Same result.
pub open spec fn result_same(a: ToolResult, b: ToolResult) -> bool {
    match (a, b) {
        (ToolResult::Success { data: x, http: hx }, ToolResult::Success { data: y, http: hy }) => json_same(x, y)
            && match (hx, hy) {
            (Some(p), Some(q)) => http_same(p, q),
            (None, None) => true,
            _ => false,
        },
        (ToolResult::Failure { error: x }, ToolResult::Failure { error: y }) => error_same(x, y),
        _ => false,
    }
}

/// An optional string as plain characters.
pub open spec fn opt_chars(o: Option<String>) -> Option<Seq<char>> {
    match o {
        Some(s) => Some(s@),
        None => None,
    }
}

/// Same pause reason.
pub open spec fn reason_same(a: PauseReason, b: PauseReason) -> bool {
    match (a, b) {
        (
            PauseReason::Approval { address: x, args: ax, description: dx },
            PauseReason::Approval { address: y, args: ay, description: dy },
        ) => x@ == y@ && json_same(ax, ay) && opt_chars(dx) == opt_chars(dy),
        (PauseReason::Auth { message: x, url: ux }, PauseReason::Auth { message: y, url: uy }) => x@ == y@
            && opt_chars(ux) == opt_chars(uy),
        (
            PauseReason::Elicitation { message: x, schema: sx },
            PauseReason::Elicitation { message: y, schema: sy },
        ) => x@ == y@ && json_same(sx, sy),
        _ => false,
    }
}

/// Same pause.
pub open spec fn pause_same(a: PausedExecution, b: PausedExecution) -> bool {
    a.id@ == b.id@ && reason_same(a.reason, b.reason) && a.expires_at_ms == b.expires_at_ms
}

/// Same outcome.
pub open spec fn outcome_same(a: Outcome, b: Outcome) -> bool {
    match (a, b) {
        (Outcome::Completed { result: x, execution_id: i }, Outcome::Completed { result: y, execution_id: j }) =>
            result_same(x, y) && i@ == j@,
        (Outcome::Paused { execution: x }, Outcome::Paused { execution: y }) => pause_same(x, y),
        _ => false,
    }
}

fn copy_opt(o: &Option<String>) -> (r: Option<String>)
    ensures
        opt_chars(r) == opt_chars(*o),
{
    match o {
        Some(s) => Some(copy_str(s.as_str())),
        None => None,
    }
}

fn copy_http(h: &ToolHttpMeta) -> (r: ToolHttpMeta)
    ensures
        http_same(*h, r),
{
    let mut headers: Vec<(String, String)> = Vec::new();
    let mut k: usize = 0;
    while k < h.headers.len()
        invariant
            k <= h.headers@.len(),
            headers@.len() == k,
            forall|i: int|
                0 <= i < k ==> (#[trigger] h.headers@[i]).0@ == headers@[i].0@ && h.headers@[i].1@
                    == headers@[i].1@,
        decreases h.headers.len() - k,
    {
        headers.push((copy_str(h.headers[k].0.as_str()), copy_str(h.headers[k].1.as_str())));
        k += 1;
    }
    ToolHttpMeta { status: h.status, headers }
}

/// A copy of a tool result.
pub fn copy_result(r: &ToolResult) -> (c: ToolResult)
    ensures
        result_same(*r, c),
{
    match r {
        ToolResult::Success { data, http } => ToolResult::Success {
            data: copy_json(data),
            http: match http {
                Some(h) => Some(copy_http(h)),
                None => None,
            },
        },
        ToolResult::Failure { error } => ToolResult::Failure {
            error: ToolError {
                code: copy_str(error.code.as_str()),
                message: copy_str(error.message.as_str()),
                status: error.status,
                details: match &error.details {
                    Some(d) => Some(copy_json(d)),
                    None => None,
                },
                retryable: error.retryable,
            },
        },
    }
}

fn copy_reason(p: &PauseReason) -> (c: PauseReason)
    ensures
        reason_same(*p, c),
{
    match p {
        PauseReason::Approval { address, args, description } => PauseReason::Approval {
            address: copy_str(address.as_str()),
            args: copy_json(args),
            description: copy_opt(description),
        },
        PauseReason::Auth { message, url } => PauseReason::Auth {
            message: copy_str(message.as_str()),
            url: copy_opt(url),
        },
        PauseReason::Elicitation { message, schema } => PauseReason::Elicitation {
            message: copy_str(message.as_str()),
            schema: copy_json(schema),
        },
    }
}

/// A copy of a pause.
pub fn copy_paused(p: &PausedExecution) -> (c: PausedExecution)
    ensures
        pause_same(*p, c),
{
    PausedExecution { id: p.id.clone(), reason: copy_reason(&p.reason), expires_at_ms: p.expires_at_ms }
}

// ---------------------------------------------------------------- pausing and resuming

/// The path an approval replays: the CLI path of a built-in tool, else the full address.
pub open spec fn spec_invoke_path(tool: Tool) -> Seq<char> {
    if tool.static_tool {
        spec_cli_path(tool)
    } else {
        spec_address_text(tool.address@)
    }
}

/// The path an approval replays for `tool`.
pub fn invoke_path(tool: &Tool) -> (r: String)
    ensures
        r@ == spec_invoke_path(*tool),
{
    if tool.static_tool {
        tool.cli_path()
    } else {
        tool.address.to_string()
    }
}

/// The approval description a tool's annotations give.
pub open spec fn approval_description(tool: Tool) -> Option<Seq<char>> {
    match tool.annotations {
        Some(a) => opt_chars(a.approval_description),
        None => None,
    }
}

/// Pausing `id` for approval of `tool` with `args` at `now_ms`: the pause callers see
/// (lapsing `ttl_ms` later, saturating) and the state the store keeps to replay it.
pub fn approval_pause(tool: &Tool, args: JsonValue, id: &ExecutionId, now_ms: u64, ttl_ms: u64) -> (r: (
    Outcome,
    ExecutionState,
))
    ensures
        r.0 matches Outcome::Paused { execution } && execution.id@ == id@ && execution.expires_at_ms == (if now_ms
            + ttl_ms <= u64::MAX {
            (now_ms + ttl_ms) as u64
        } else {
            u64::MAX
        }) && (execution.reason matches PauseReason::Approval { address, args: a, description }
            && address@ == spec_cli_path(*tool) && json_same(args, a) && opt_chars(description)
            == approval_description(*tool)),
        r.1 matches ExecutionState::Paused { execution: e, address, args: a, approved } && (r.0 matches Outcome::Paused {
            execution,
        } && pause_same(execution, e)) && address@ == spec_invoke_path(*tool) && a == args && !approved,
{
    let description = match &tool.annotations {
        Some(a) => copy_opt(&a.approval_description),
        None => None,
    };
    let reason = PauseReason::Approval { address: tool.cli_path(), args: copy_json(&args), description };
    let execution = PausedExecution { id: id.clone(), reason, expires_at_ms: now_ms.saturating_add(ttl_ms) };
    let kept = copy_paused(&execution);
    let state = ExecutionState::Paused { execution: kept, address: invoke_path(tool), args, approved: false };
    (Outcome::Paused { execution }, state)
}

/// What a resume does next.
pub enum ResumeStep {
    /// Invoke `address` with `args`, approved.
    Invoke {
        /// Path to invoke.
        address: String,
        /// Arguments.
        args: JsonValue,
    },
    /// The execution is over with this outcome.
    Finished(Outcome),
}

/// `e` is the failure a declined approval ends with.
pub open spec fn is_declined(e: ToolError) -> bool {
    &&& e.code@ == "declined"@
    &&& e.message@ == "execution was not approved"@
    &&& e.status is None
    &&& e.details is None
    &&& e.retryable == Some(false)
}

/// Resuming `id`, whose stored state was taken from the store (`None` when there was
/// none): an accepted pause replays its call; a declined or cancelled one completes with a
/// `declined` failure; anything else is refused.
pub fn resume_step(state: Option<ExecutionState>, action: ResumeAction, id: &ExecutionId) -> (r: Result<
    ResumeStep,
    ExecutorError,
>)
    ensures
        match state {
            None => (r matches Err(ExecutorError::ExecutionNotFound(s)) && s@ == id@),
            Some(ExecutionState::Paused { address, args, .. }) => match action {
                ResumeAction::Accept => (r matches Ok(ResumeStep::Invoke { address: a, args: g })
                    && a == address && g == args),
                _ => (r matches Ok(ResumeStep::Finished(Outcome::Completed { result, execution_id }))
                    && execution_id@ == id@ && (result matches ToolResult::Failure { error } && is_declined(
                    error,
                ))),
            },
            Some(_) => (r matches Err(ExecutorError::NotPaused(s)) && s@ == id@),
        },
{
    match state {
        None => Err(ExecutorError::ExecutionNotFound(copy_str(id.as_str()))),
        Some(ExecutionState::Paused { address, args, .. }) => match action {
            ResumeAction::Accept => Ok(ResumeStep::Invoke { address, args }),
            _ => Ok(
                ResumeStep::Finished(
                    Outcome::Completed {
                        result: ToolResult::Failure {
                            error: ToolError {
                                code: copy_str("declined"),
                                message: copy_str("execution was not approved"),
                                status: None,
                                details: None,
                                retryable: Some(false),
                            },
                        },
                        execution_id: id.clone(),
                    },
                ),
            ),
        },
        Some(_) => Err(ExecutorError::NotPaused(copy_str(id.as_str()))),
    }
}

// ---------------------------------------------------------------- persisting and replaying

/// `s` is what the store keeps of outcome `o`: the result of a completed one; a pause with
/// the approval's path and arguments (empty and `null` for other pauses), not approved.
pub open spec fn persisted_is(s: ExecutionState, o: Outcome) -> bool {
    match o {
        Outcome::Completed { result, .. } => s matches ExecutionState::Completed(r) && result_same(result, r),
        Outcome::Paused { execution } => s matches ExecutionState::Paused { execution: e, address, args, approved }
            && pause_same(execution, e) && !approved && match execution.reason {
            PauseReason::Approval { address: x, args: y, .. } => address@ == x@ && json_same(y, args),
            _ => address@.len() == 0 && args is Null,
        },
    }
}

/// What the store keeps of an outcome.
pub fn persisted_state(o: &Outcome) -> (r: ExecutionState)
    ensures
        persisted_is(r, *o),
{
    match o {
        Outcome::Completed { result, .. } => ExecutionState::Completed(copy_result(result)),
        Outcome::Paused { execution } => {
            let (address, args) = match &execution.reason {
                PauseReason::Approval { address, args, .. } => (copy_str(address.as_str()), copy_json(args)),
                _ => (String::new(), JsonValue::Null),
            };
            ExecutionState::Paused { execution: copy_paused(execution), address, args, approved: false }
        },
    }
}

/// The outcome a retry with the same idempotency key gets from the stored state of
/// execution `id`: its result or its pause; none while it runs or when nothing is stored.
pub open spec fn replay_is(r: Option<Outcome>, s: Option<ExecutionState>, id: ExecutionId) -> bool {
    match s {
        Some(ExecutionState::Completed(result)) => r matches Some(Outcome::Completed { result: x, execution_id })
            && result_same(result, x) && execution_id@ == id@,
        Some(ExecutionState::Paused { execution, .. }) => r matches Some(Outcome::Paused { execution: e })
            && pause_same(execution, e),
        _ => r is None,
    }
}

/// The outcome stored for execution `id`, when it has one.
pub fn stored_outcome(s: Option<&ExecutionState>, id: &ExecutionId) -> (r: Option<Outcome>)
    ensures
        replay_is(
            r,
            match s {
                Some(x) => Some(*x),
                None => None,
            },
            *id,
        ),
{
    match s {
        Some(ExecutionState::Completed(result)) => Some(
            Outcome::Completed { result: copy_result(result), execution_id: id.clone() },
        ),
        Some(ExecutionState::Paused { execution, .. }) => Some(Outcome::Paused { execution: copy_paused(execution) }),
        _ => None,
    }
}

/// Whether this execution won the idempotency key: the key's stored owner (the first
/// writer) is this execution's own id.
pub fn claim_won(stored: Option<&ExecutionId>, minted: &ExecutionId) -> (r: bool)
    ensures
        r == (match stored {
            Some(w) => w@ == minted@,
            None => true,
        }),
{
    match stored {
        Some(w) => crate::text::str_eq(w.as_str(), minted.as_str()),
        None => true,
    }
}

/// Results and pauses: being the same chains.
proof fn lemma_result_same_trans(a: ToolResult, b: ToolResult, c: ToolResult)
    requires
        result_same(a, b),
        result_same(b, c),
    ensures
        result_same(a, c),
{
    match (a, b, c) {
        (
            ToolResult::Success { data: x, .. },
            ToolResult::Success { data: y, .. },
            ToolResult::Success { data: z, .. },
        ) => {
            crate::json::lemma_json_same_trans(x, y, z);
        },
        (
            ToolResult::Failure { error: x },
            ToolResult::Failure { error: y },
            ToolResult::Failure { error: z },
        ) => {
            if let (Some(p), Some(q), Some(r)) = (x.details, y.details, z.details) {
                crate::json::lemma_json_same_trans(p, q, r);
            }
        },
        _ => {},
    }
}

proof fn lemma_pause_same_trans(a: PausedExecution, b: PausedExecution, c: PausedExecution)
    requires
        pause_same(a, b),
        pause_same(b, c),
    ensures
        pause_same(a, c),
{
    match (a.reason, b.reason, c.reason) {
        (
            PauseReason::Approval { args: x, .. },
            PauseReason::Approval { args: y, .. },
            PauseReason::Approval { args: z, .. },
        ) => {
            crate::json::lemma_json_same_trans(x, y, z);
        },
        (
            PauseReason::Elicitation { schema: x, .. },
            PauseReason::Elicitation { schema: y, .. },
            PauseReason::Elicitation { schema: z, .. },
        ) => {
            crate::json::lemma_json_same_trans(x, y, z);
        },
        _ => {},
    }
}

/// A retry with the same idempotency key gets back the first outcome: replaying what the
/// store keeps of an outcome gives that outcome again.
pub proof fn law_replay_returns_first_outcome(o: Outcome, s: ExecutionState, r: Option<Outcome>, id: ExecutionId)
    requires
        persisted_is(s, o),
        replay_is(r, Some(s), id),
        o matches Outcome::Completed { execution_id, .. } ==> execution_id@ == id@,
    ensures
        r matches Some(x) && outcome_same(o, x),
{
    match o {
        Outcome::Completed { result, .. } => {
            if let ExecutionState::Completed(kept) = s {
                if let Some(Outcome::Completed { result: x, .. }) = r {
                    lemma_result_same_trans(result, kept, x);
                }
            }
        },
        Outcome::Paused { execution } => {
            if let ExecutionState::Paused { execution: kept, .. } = s {
                if let Some(Outcome::Paused { execution: x }) = r {
                    lemma_pause_same_trans(execution, kept, x);
                }
            }
        },
    }
}

// ---------------------------------------------------------------- arguments

/// The argument check: against the input schema when the tool has one, else the
/// arguments must be `null` or an object.
pub fn check_args(input_schema: Option<&JsonValue>, args: &JsonValue) -> (r: Result<(), ExecutorError>)
    ensures
        match input_schema {
            Some(schema) => match schema_fault(*schema, *args, Seq::empty()) {
                None => r is Ok,
                Some(m) => (r matches Err(ExecutorError::InvalidArgs(e)) && e@ == m),
            },
            None => if args is Null || args is Object {
                r is Ok
            } else {
                (r matches Err(ExecutorError::InvalidArgs(e)) && e@ == "arguments must be a JSON object"@)
            },
        },
{
    match input_schema {
        Some(schema) => match validate_against(schema, args) {
            Ok(()) => Ok(()),
            Err(e) => Err(ExecutorError::InvalidArgs(e.0)),
        },
        None => match args {
            JsonValue::Null => Ok(()),
            JsonValue::Object(_) => Ok(()),
            _ => Err(ExecutorError::InvalidArgs(copy_str("arguments must be a JSON object"))),
        },
    }
}

} // verus!
