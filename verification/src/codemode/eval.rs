//! Evaluating a parsed guest program. Tool calls go to the host, which answers each in
//! turn: `run` evaluates the program against the answers given so far, and either
//! finishes or asks for the next one. Evaluation is deterministic, so running again with
//! one more answer continues where it stopped.

use vstd::prelude::*;
use crate::codemode::ast::{Stmt, Expr};
use crate::json::{
    JsonValue, JView, jview, copy_json, lemma_json_same_view, lemma_object_view, lemma_array_view,
};
use crate::outcome::{Outcome, ToolResult, envelope_view};
use crate::text::{copy_str, push_str, str_eq, lex_lt, lex_order_str, lemma_lex_order_basic, decimal, spec_decimal};

verus! {

/// Evaluation steps a program may take.
pub const STEP_LIMIT: u32 = 10_000;

/// What the host answered to one request.
pub enum HostAnswer {
    /// The JSON a built-in answered (search, describe, integrations).
    Json(JsonValue),
    /// What an invocation gave.
    Invoked(Outcome),
    /// The host's error message.
    Failed(String),
}

/// A request to the host.
pub enum HostRequest {
    /// Catalog search with this payload.
    Search(JsonValue),
    /// Describe the tool at this path.
    Describe(String),
    /// List the sandbox integrations.
    Integrations(JsonValue),
    /// Invoke the tool at this path with this payload.
    Invoke(String, JsonValue),
}

/// Where a run stands.
pub enum RunStep {
    /// Finished with this value (a completed execution with a fresh id).
    Value(JsonValue),
    /// Finished with the completed invocation of answer `i`, as it is.
    Completed(usize),
    /// Paused by the invocation of answer `i`.
    Paused(usize),
    /// Needs the host's answer to this request (answer number `answers.len()`).
    Ask(HostRequest),
    /// Failed with this message.
    Error(String),
}

// ---------------------------------------------------------------- the semantics

/// A runtime value: JSON, a path under `tools`, or the pause or completion of an answer.
pub enum Rt {
    /// JSON.
    Json(JView),
    /// `tools` or a path under it.
    Tools(Seq<char>),
    /// The pause of answer `i`.
    Paused(int),
    /// The completed invocation of answer `i`.
    Completed(int),
}

/// A request as a value.
pub enum Req {
    /// Search.
    Search(JView),
    /// Describe.
    Describe(Seq<char>),
    /// Integrations.
    Integrations(JView),
    /// Invoke.
    Invoke(Seq<char>, JView),
}

/// Why evaluation stopped early.
pub enum Halt {
    /// An error.
    Error(Seq<char>),
    /// The next host answer is needed.
    Ask(Req),
}

/// Counters: steps taken, tool calls made, host answers used.
pub struct Cnt {
    /// Steps.
    pub steps: nat,
    /// Tool calls.
    pub calls: nat,
    /// Answers used.
    pub asked: nat,
}

/// Bindings, later ones shadowing earlier ones.
pub type Env = Seq<(Seq<char>, JView)>;

/// The value bound to `name`, the latest binding first.
pub open spec fn lookup(env: Env, name: Seq<char>) -> Option<JView>
    decreases env.len(),
{
    if env.len() == 0 {
        None
    } else if env.last().0 == name {
        Some(env.last().1)
    } else {
        lookup(env.drop_last(), name)
    }
}

/// The result of a completed invocation answer.
pub open spec fn answer_result(a: HostAnswer) -> ToolResult {
    match a {
        HostAnswer::Invoked(Outcome::Completed { result, .. }) => result,
        _ => ToolResult::Success { data: JsonValue::Null, http: None },
    }
}

/// A runtime value as JSON: a completed invocation gives its envelope.
pub open spec fn expect_json(rt: Rt, answers: Seq<HostAnswer>) -> Result<JView, Seq<char>> {
    match rt {
        Rt::Json(j) => Ok(j),
        Rt::Completed(i) => Ok(envelope_view(answer_result(answers[i]))),
        Rt::Tools(_) => Err("tools is not a JSON value"@),
        Rt::Paused(_) => Err("paused execution cannot bind"@),
    }
}

/// The first member named `key`.
pub open spec fn member_of(ms: Seq<(Seq<char>, JView)>, key: Seq<char>, k: int) -> Option<JView>
    decreases ms.len() - k,
{
    if k < 0 || k >= ms.len() {
        None
    } else if ms[k].0 == key {
        Some(ms[k].1)
    } else {
        member_of(ms, key, k + 1)
    }
}

/// Property `prop` of a JSON value.
pub open spec fn json_property(j: JView, prop: Seq<char>) -> Result<JView, Seq<char>> {
    match j {
        JView::Object(ms) => match member_of(ms, prop, 0) {
            Some(v) => Ok(v),
            None => Err("missing property "@ + prop),
        },
        _ => Err("property access on non-object"@),
    }
}

/// `base.seg`, or `seg` at the root.
pub open spec fn join_path(base: Seq<char>, seg: Seq<char>) -> Seq<char> {
    if base.len() == 0 {
        seg
    } else {
        base + "."@ + seg
    }
}

/// `s` with member `(k, v)` in key order, replacing one named `k` (a JSON map's insert).
pub open spec fn put_member(s: Seq<(Seq<char>, JView)>, k: Seq<char>, v: JView) -> Seq<(Seq<char>, JView)>
    decreases s.len(),
{
    if s.len() == 0 {
        seq![(k, v)]
    } else if s[0].0 == k {
        seq![(k, v)] + s.drop_first()
    } else if lex_lt(k, s[0].0) {
        seq![(k, v)] + s
    } else {
        seq![s[0]] + put_member(s.drop_first(), k, v)
    }
}

/// The measure evaluation recurses on: the expression, then how much of it is left.
pub open spec fn width(e: Expr) -> int {
    match e {
        Expr::Object(fields) => fields@.len() as int + 1,
        Expr::Array(items) => items@.len() as int + 1,
        _ => 0,
    }
}

/// Evaluating `e` under `env` with the host's `answers`, from counters `c`.
pub open spec fn ev(e: Expr, env: Env, answers: Seq<HostAnswer>, max_calls: u32, c: Cnt) -> Result<(Rt, Cnt), Halt>
    decreases e, width(e),
{
    let c1 = Cnt { steps: c.steps + 1, ..c };
    if c1.steps > STEP_LIMIT {
        Err(Halt::Error("eval step limit exceeded"@))
    } else {
        match e {
            Expr::Await(inner) => ev(*inner, env, answers, max_calls, c1),
            Expr::Literal(v) => Ok((Rt::Json(jview(v)), c1)),
            Expr::Ident(name) => if name@ == "tools"@ {
                Ok((Rt::Tools(Seq::empty()), c1))
            } else {
                match lookup(env, name@) {
                    Some(v) => Ok((Rt::Json(v), c1)),
                    None => Err(Halt::Error("unknown identifier "@ + name@)),
                }
            },
            Expr::Object(fields) => match ev_fields(e, 0, Seq::empty(), env, answers, max_calls, c1) {
                Ok(r) => Ok((Rt::Json(JView::Object(r.0)), r.1)),
                Err(h) => Err(h),
            },
            Expr::Array(items) => match ev_items(e, 0, Seq::empty(), env, answers, max_calls, c1) {
                Ok(r) => Ok((Rt::Json(JView::Array(r.0)), r.1)),
                Err(h) => Err(h),
            },
            Expr::Member { object, prop } => match ev(*object, env, answers, max_calls, c1) {
                Err(h) => Err(h),
                Ok(r) => match r.0 {
                    Rt::Tools(p) => Ok((Rt::Tools(join_path(p, prop@)), r.1)),
                    Rt::Paused(i) => Ok((Rt::Paused(i), r.1)),
                    other => match expect_json(other, answers) {
                        Err(m) => Err(Halt::Error(m)),
                        Ok(j) => match json_property(j, prop@) {
                            Err(m) => Err(Halt::Error(m)),
                            Ok(v) => Ok((Rt::Json(v), r.1)),
                        },
                    },
                },
            },
            Expr::Index { object, index } => match ev(*object, env, answers, max_calls, c1) {
                Err(h) => Err(h),
                Ok(o) => match ev(*index, env, answers, max_calls, o.1) {
                    Err(h) => Err(h),
                    Ok(x) => match expect_json(x.0, answers) {
                        Err(m) => Err(Halt::Error(m)),
                        Ok(idx) => match (o.0, idx) {
                            (Rt::Tools(_), JView::Text(s)) => Ok((Rt::Tools(s), x.1)),
                            (Rt::Paused(i), _) => Ok((Rt::Paused(i), x.1)),
                            (other, JView::Text(s)) => match expect_json(other, answers) {
                                Err(m) => Err(Halt::Error(m)),
                                Ok(j) => match json_property(j, s) {
                                    Err(m) => Err(Halt::Error(m)),
                                    Ok(v) => Ok((Rt::Json(v), x.1)),
                                },
                            },
                            _ => Err(Halt::Error("illegal index"@)),
                        },
                    },
                },
            },
            Expr::Call { callee, args } => match ev(*callee, env, answers, max_calls, c1) {
                Err(h) => Err(h),
                Ok(t) => match t.0 {
                    Rt::Tools(path) => if t.1.calls + 1 > max_calls {
                        Err(Halt::Error("max_tool_calls ("@ + spec_decimal(max_calls as nat) + ") exceeded"@))
                    } else {
                        let c2 = Cnt { calls: t.1.calls + 1, ..t.1 };
                        if args@.len() == 0 {
                            call_host(path, JView::Object(Seq::empty()), answers, c2)
                        } else {
                            match ev(args@[0], env, answers, max_calls, c2) {
                                Err(h) => Err(h),
                                Ok(p) => match expect_json(p.0, answers) {
                                    Err(m) => Err(Halt::Error(m)),
                                    Ok(payload) => call_host(path, payload, answers, p.1),
                                },
                            }
                        }
                    },
                    _ => Err(Halt::Error("can only call tools.* functions"@)),
                },
            },
        }
    }
}

/// Evaluating the fields of object expression `parent` from `k` on, into `acc`.
pub open spec fn ev_fields(
    parent: Expr,
    k: int,
    acc: Seq<(Seq<char>, JView)>,
    env: Env,
    answers: Seq<HostAnswer>,
    max_calls: u32,
    c: Cnt,
) -> Result<(Seq<(Seq<char>, JView)>, Cnt), Halt>
    decreases parent, (if parent is Object {
        parent->Object_0@.len() - k
    } else {
        0
    }),
{
    match parent {
        Expr::Object(fields) => if k < 0 || k >= fields@.len() {
            Ok((acc, c))
        } else {
            proof {
                vstd::std_specs::vec::axiom_vec_index_decreases(fields, k);
                assert(decreases_to!(parent => parent->Object_0));
                assert(decreases_to!(fields@[k] => fields@[k].1));
            }
            match ev(fields@[k].1, env, answers, max_calls, c) {
                Err(h) => Err(h),
                Ok(r) => match expect_json(r.0, answers) {
                    Err(m) => Err(Halt::Error(m)),
                    Ok(j) => ev_fields(parent, k + 1, put_member(acc, fields@[k].0@, j), env, answers, max_calls, r.1),
                },
            }
        },
        _ => Ok((acc, c)),
    }
}

/// Evaluating the items of array expression `parent` from `k` on, after `acc`.
pub open spec fn ev_items(
    parent: Expr,
    k: int,
    acc: Seq<JView>,
    env: Env,
    answers: Seq<HostAnswer>,
    max_calls: u32,
    c: Cnt,
) -> Result<(Seq<JView>, Cnt), Halt>
    decreases parent, (if parent is Array {
        parent->Array_0@.len() - k
    } else {
        0
    }),
{
    match parent {
        Expr::Array(items) => if k < 0 || k >= items@.len() {
            Ok((acc, c))
        } else {
            proof {
                vstd::std_specs::vec::axiom_vec_index_decreases(items, k);
                assert(decreases_to!(parent => parent->Array_0));
            }
            match ev(items@[k], env, answers, max_calls, c) {
                Err(h) => Err(h),
                Ok(r) => match expect_json(r.0, answers) {
                    Err(m) => Err(Halt::Error(m)),
                    Ok(j) => ev_items(parent, k + 1, acc.push(j), env, answers, max_calls, r.1),
                },
            }
        },
        _ => Ok((acc, c)),
    }
}

/// The string member `key` of a JSON object value.
pub open spec fn str_prop(j: JView, key: Seq<char>) -> Option<Seq<char>> {
    match j {
        JView::Object(ms) => match member_of(ms, key, 0) {
            Some(JView::Text(s)) => Some(s),
            _ => None,
        },
        _ => None,
    }
}

/// Whether a JSON object value has member `key`.
pub open spec fn has_prop(j: JView, key: Seq<char>) -> bool {
    match j {
        JView::Object(ms) => member_of(ms, key, 0) is Some,
        _ => false,
    }
}

/// A tool call at `path` with `payload`: the built-ins `search`, `describe.tool` and
/// `executor.integrations.list` ask the host's own answers; anything else invokes.
pub open spec fn call_host(path: Seq<char>, payload: JView, answers: Seq<HostAnswer>, c: Cnt) -> Result<(Rt, Cnt), Halt> {
    if path == "search"@ {
        host_json(Req::Search(payload), answers, c)
    } else if path == "describe.tool"@ {
        match str_prop(payload, "path"@) {
            None => Err(Halt::Error("tools.describe.tool expects an object: { path: string }"@)),
            Some(p) => if p.len() == 0 {
                Err(Halt::Error("describe.tool requires a path"@))
            } else if has_prop(payload, "includeSchemas"@) {
                Err(Halt::Error("tools.describe.tool no longer accepts includeSchemas"@))
            } else {
                host_json(Req::Describe(p), answers, c)
            },
        }
    } else if path == "executor.integrations.list"@ {
        host_json(Req::Integrations(payload), answers, c)
    } else {
        if c.asked >= answers.len() {
            Err(Halt::Ask(Req::Invoke(path, payload)))
        } else {
            let c2 = Cnt { asked: c.asked + 1, ..c };
            match answers[c.asked as int] {
                HostAnswer::Invoked(Outcome::Paused { .. }) => Ok((Rt::Paused(c.asked as int), c2)),
                HostAnswer::Invoked(Outcome::Completed { .. }) => Ok((Rt::Completed(c.asked as int), c2)),
                HostAnswer::Failed(m) => Err(Halt::Error(m@)),
                HostAnswer::Json(_) => Err(Halt::Error("host answer does not fit the request"@)),
            }
        }
    }
}

/// A built-in's answer: the next host answer, which must be JSON or an error.
pub open spec fn host_json(req: Req, answers: Seq<HostAnswer>, c: Cnt) -> Result<(Rt, Cnt), Halt> {
    if c.asked >= answers.len() {
        Err(Halt::Ask(req))
    } else {
        let c2 = Cnt { asked: c.asked + 1, ..c };
        match answers[c.asked as int] {
            HostAnswer::Json(v) => Ok((Rt::Json(jview(v)), c2)),
            HostAnswer::Failed(m) => Err(Halt::Error(m@)),
            HostAnswer::Invoked(_) => Err(Halt::Error("host answer does not fit the request"@)),
        }
    }
}

/// What one statement gave.
pub enum Out {
    /// A value (the last one is the program's result).
    Value(JView),
    /// `return` with this value.
    Return(JView),
    /// Paused by answer `i`.
    Paused(int),
    /// `return` of the completed invocation of answer `i`.
    Completed(int),
}

/// Evaluating one statement: `let` binds the value, `return` ends the program, an
/// expression statement gives its value (a completed invocation's envelope).
pub open spec fn ev_stmt(s: Stmt, env: Env, answers: Seq<HostAnswer>, max_calls: u32, c: Cnt) -> Result<
    (Out, Env, Cnt),
    Halt,
> {
    match s {
        Stmt::Let { name, expr } => match ev(expr, env, answers, max_calls, c) {
            Err(h) => Err(h),
            Ok(r) => match expect_json(r.0, answers) {
                Err(m) => Err(Halt::Error(m)),
                Ok(j) => Ok((Out::Value(JView::Null), env.push((name@, j)), r.1)),
            },
        },
        Stmt::Return(expr) => match ev(expr, env, answers, max_calls, c) {
            Err(h) => Err(h),
            Ok(r) => match r.0 {
                Rt::Paused(i) => Ok((Out::Paused(i), env, r.1)),
                Rt::Completed(i) => Ok((Out::Completed(i), env, r.1)),
                other => match expect_json(other, answers) {
                    Err(m) => Err(Halt::Error(m)),
                    Ok(j) => Ok((Out::Return(j), env, r.1)),
                },
            },
        },
        Stmt::Expr(expr) => match ev(expr, env, answers, max_calls, c) {
            Err(h) => Err(h),
            Ok(r) => match r.0 {
                Rt::Paused(i) => Ok((Out::Paused(i), env, r.1)),
                Rt::Completed(i) => Ok((Out::Value(envelope_view(answer_result(answers[i]))), env, r.1)),
                other => match expect_json(other, answers) {
                    Err(m) => Err(Halt::Error(m)),
                    Ok(j) => Ok((Out::Value(j), env, r.1)),
                },
            },
        },
    }
}

/// Where a run stands, as a value.
pub enum RunView {
    /// Finished with this value.
    Value(JView),
    /// Finished with the completed invocation of answer `i`.
    Completed(int),
    /// Paused by answer `i`.
    Paused(int),
    /// Needs the next answer.
    Ask(Req),
    /// Failed.
    Error(Seq<char>),
}

/// Running statements `k..` with `last` the value so far.
pub open spec fn run_from(
    program: Seq<Stmt>,
    k: int,
    env: Env,
    last: JView,
    answers: Seq<HostAnswer>,
    max_calls: u32,
    c: Cnt,
) -> RunView
    decreases program.len() - k,
{
    if k < 0 || k >= program.len() {
        RunView::Value(last)
    } else {
        match ev_stmt(program[k], env, answers, max_calls, c) {
            Err(Halt::Error(m)) => RunView::Error(m),
            Err(Halt::Ask(r)) => RunView::Ask(r),
            Ok(o) => match o.0 {
                Out::Value(v) => run_from(program, k + 1, o.1, v, answers, max_calls, o.2),
                Out::Return(v) => RunView::Value(v),
                Out::Paused(i) => RunView::Paused(i),
                Out::Completed(i) => RunView::Completed(i),
            },
        }
    }
}

/// Running a program against the host's answers so far.
pub open spec fn spec_run(program: Seq<Stmt>, answers: Seq<HostAnswer>, max_calls: u32) -> RunView {
    run_from(program, 0, Seq::empty(), JView::Null, answers, max_calls, Cnt { steps: 0, calls: 0, asked: 0 })
}

// ---------------------------------------------------------------- replay

/// `more` holds the answers of `answers` first, then possibly others.
pub open spec fn extends(answers: Seq<HostAnswer>, more: Seq<HostAnswer>) -> bool {
    answers.len() <= more.len() && forall|i: int| 0 <= i < answers.len() ==> more[i] == answers[i]
}

/// A runtime value refers only to answers below `n`.
pub open spec fn rt_below(r: Rt, n: nat) -> bool {
    match r {
        Rt::Paused(i) => 0 <= i < n,
        Rt::Completed(i) => 0 <= i < n,
        _ => true,
    }
}

/// What an evaluation gave does not change with more answers, unless it asked for one.
pub open spec fn stable(r: Result<(Rt, Cnt), Halt>, r2: Result<(Rt, Cnt), Halt>, c: Cnt, n: nat) -> bool {
    match r {
        Ok(x) => r2 == r && c.asked <= x.1.asked <= n && rt_below(x.0, x.1.asked),
        Err(Halt::Error(m)) => r2 == r,
        Err(Halt::Ask(_)) => true,
    }
}

proof fn lemma_expect_stable(rt: Rt, a: Seq<HostAnswer>, a2: Seq<HostAnswer>)
    requires
        extends(a, a2),
        rt_below(rt, a.len()),
    ensures
        expect_json(rt, a2) == expect_json(rt, a),
{
    match rt {
        Rt::Completed(i) => {
            assert(a2[i] == a[i]);
        },
        _ => {},
    }
}

proof fn lemma_host_json_stable(req: Req, a: Seq<HostAnswer>, a2: Seq<HostAnswer>, c: Cnt)
    requires
        extends(a, a2),
        c.asked <= a.len(),
    ensures
        stable(host_json(req, a, c), host_json(req, a2, c), c, a.len()),
{
    if c.asked < a.len() {
        assert(a2[c.asked as int] == a[c.asked as int]);
    }
}

proof fn lemma_call_host_stable(path: Seq<char>, payload: JView, a: Seq<HostAnswer>, a2: Seq<HostAnswer>, c: Cnt)
    requires
        extends(a, a2),
        c.asked <= a.len(),
    ensures
        stable(call_host(path, payload, a, c), call_host(path, payload, a2, c), c, a.len()),
{
    lemma_host_json_stable(Req::Search(payload), a, a2, c);
    match str_prop(payload, "path"@) {
        Some(p) => lemma_host_json_stable(Req::Describe(p), a, a2, c),
        None => {},
    }
    lemma_host_json_stable(Req::Integrations(payload), a, a2, c);
    if c.asked < a.len() {
        assert(a2[c.asked as int] == a[c.asked as int]);
    }
}

proof fn lemma_ev_stable(e: Expr, env: Env, a: Seq<HostAnswer>, a2: Seq<HostAnswer>, m: u32, c: Cnt)
    requires
        extends(a, a2),
        c.asked <= a.len(),
    ensures
        stable(ev(e, env, a, m, c), ev(e, env, a2, m, c), c, a.len()),
    decreases e, width(e), 1int,
{
    let c1 = Cnt { steps: c.steps + 1, ..c };
    if c1.steps <= STEP_LIMIT {
        match e {
            Expr::Await(inner) => {
                lemma_ev_stable(*inner, env, a, a2, m, c1);
            },
            Expr::Object(_) => {
                lemma_fields_stable(e, 0, Seq::empty(), env, a, a2, m, c1);
            },
            Expr::Array(_) => {
                lemma_items_stable(e, 0, Seq::empty(), env, a, a2, m, c1);
            },
            Expr::Member { object, prop } => {
                lemma_ev_stable(*object, env, a, a2, m, c1);
                if let Ok(r) = ev(*object, env, a, m, c1) {
                    lemma_expect_stable(r.0, a, a2);
                }
            },
            Expr::Index { object, index } => {
                lemma_ev_stable(*object, env, a, a2, m, c1);
                if let Ok(o) = ev(*object, env, a, m, c1) {
                    lemma_ev_stable(*index, env, a, a2, m, o.1);
                    if let Ok(x) = ev(*index, env, a, m, o.1) {
                        lemma_expect_stable(x.0, a, a2);
                        lemma_expect_stable(o.0, a, a2);
                    }
                }
            },
            Expr::Call { callee, args } => {
                lemma_ev_stable(*callee, env, a, a2, m, c1);
                if let Ok(t) = ev(*callee, env, a, m, c1) {
                    if let Rt::Tools(path) = t.0 {
                        if t.1.calls + 1 <= m {
                            let c2 = Cnt { calls: t.1.calls + 1, ..t.1 };
                            if args@.len() == 0 {
                                lemma_call_host_stable(path, JView::Object(Seq::empty()), a, a2, c2);
                            } else {
                                    vstd::std_specs::vec::axiom_vec_index_decreases(args, 0);
                                    assert(decreases_to!(e => e->Call_args));
                                lemma_ev_stable(args@[0], env, a, a2, m, c2);
                                if let Ok(p) = ev(args@[0], env, a, m, c2) {
                                    lemma_expect_stable(p.0, a, a2);
                                    if let Ok(payload) = expect_json(p.0, a) {
                                        lemma_call_host_stable(path, payload, a, a2, p.1);
                                    }
                                }
                            }
                        }
                    }
                }
            },
            _ => {},
        }
    }
}

proof fn lemma_fields_stable(
    parent: Expr,
    k: int,
    acc: Seq<(Seq<char>, JView)>,
    env: Env,
    a: Seq<HostAnswer>,
    a2: Seq<HostAnswer>,
    m: u32,
    c: Cnt,
)
    requires
        extends(a, a2),
        c.asked <= a.len(),
    ensures
        match ev_fields(parent, k, acc, env, a, m, c) {
            Ok(x) => ev_fields(parent, k, acc, env, a2, m, c) == Ok::<(Seq<(Seq<char>, JView)>, Cnt), Halt>(x)
                && c.asked <= x.1.asked <= a.len(),
            Err(Halt::Error(msg)) => ev_fields(parent, k, acc, env, a2, m, c) == Err::<
                (Seq<(Seq<char>, JView)>, Cnt),
                Halt,
            >(Halt::Error(msg)),
            Err(Halt::Ask(_)) => true,
        },
    decreases parent, (if parent is Object {
        parent->Object_0@.len() - k
    } else {
        0
    }), 0int,
{
    if let Expr::Object(fields) = parent {
        if 0 <= k < fields@.len() {
                vstd::std_specs::vec::axiom_vec_index_decreases(fields, k);
                assert(decreases_to!(parent => parent->Object_0));
                assert(decreases_to!(fields@[k] => fields@[k].1));
            lemma_ev_stable(fields@[k].1, env, a, a2, m, c);
            if let Ok(r) = ev(fields@[k].1, env, a, m, c) {
                lemma_expect_stable(r.0, a, a2);
                if let Ok(j) = expect_json(r.0, a) {
                    lemma_fields_stable(parent, k + 1, put_member(acc, fields@[k].0@, j), env, a, a2, m, r.1);
                }
            }
        }
    }
}

proof fn lemma_items_stable(
    parent: Expr,
    k: int,
    acc: Seq<JView>,
    env: Env,
    a: Seq<HostAnswer>,
    a2: Seq<HostAnswer>,
    m: u32,
    c: Cnt,
)
    requires
        extends(a, a2),
        c.asked <= a.len(),
    ensures
        match ev_items(parent, k, acc, env, a, m, c) {
            Ok(x) => ev_items(parent, k, acc, env, a2, m, c) == Ok::<(Seq<JView>, Cnt), Halt>(x) && c.asked
                <= x.1.asked <= a.len(),
            Err(Halt::Error(msg)) => ev_items(parent, k, acc, env, a2, m, c) == Err::<(Seq<JView>, Cnt), Halt>(
                Halt::Error(msg),
            ),
            Err(Halt::Ask(_)) => true,
        },
    decreases parent, (if parent is Array {
        parent->Array_0@.len() - k
    } else {
        0
    }), 0int,
{
    if let Expr::Array(items) = parent {
        if 0 <= k < items@.len() {
                vstd::std_specs::vec::axiom_vec_index_decreases(items, k);
                assert(decreases_to!(parent => parent->Array_0));
            lemma_ev_stable(items@[k], env, a, a2, m, c);
            if let Ok(r) = ev(items@[k], env, a, m, c) {
                lemma_expect_stable(r.0, a, a2);
                if let Ok(j) = expect_json(r.0, a) {
                    lemma_items_stable(parent, k + 1, acc.push(j), env, a, a2, m, r.1);
                }
            }
        }
    }
}

proof fn lemma_stmt_stable(st: Stmt, env: Env, a: Seq<HostAnswer>, a2: Seq<HostAnswer>, m: u32, c: Cnt)
    requires
        extends(a, a2),
        c.asked <= a.len(),
    ensures
        match ev_stmt(st, env, a, m, c) {
            Ok(x) => ev_stmt(st, env, a2, m, c) == Ok::<(Out, Env, Cnt), Halt>(x) && x.2.asked <= a.len(),
            Err(Halt::Error(msg)) => ev_stmt(st, env, a2, m, c) == Err::<(Out, Env, Cnt), Halt>(Halt::Error(msg)),
            Err(Halt::Ask(_)) => true,
        },
{
    let e = match st {
        Stmt::Let { expr, .. } => expr,
        Stmt::Return(expr) => expr,
        Stmt::Expr(expr) => expr,
    };
    lemma_ev_stable(e, env, a, a2, m, c);
    if let Ok(r) = ev(e, env, a, m, c) {
        lemma_expect_stable(r.0, a, a2);
        if let Rt::Completed(i) = r.0 {
            assert(a2[i] == a[i]);
        }
    }
}

proof fn lemma_run_stable(
    program: Seq<Stmt>,
    k: int,
    env: Env,
    last: JView,
    a: Seq<HostAnswer>,
    a2: Seq<HostAnswer>,
    m: u32,
    c: Cnt,
)
    requires
        extends(a, a2),
        c.asked <= a.len(),
    ensures
        !(run_from(program, k, env, last, a, m, c) is Ask) ==> run_from(program, k, env, last, a2, m, c)
            == run_from(program, k, env, last, a, m, c),
    decreases program.len() - k,
{
    if 0 <= k < program.len() {
        lemma_stmt_stable(program[k], env, a, a2, m, c);
        if let Ok(o) = ev_stmt(program[k], env, a, m, c) {
            lemma_run_stable(program, k + 1, o.1, o.0->Value_0, a, a2, m, o.2);
        }
    }
}

/// A run that did not ask for an answer gives the same result with more answers: the
/// host may answer ahead, and replaying with the answers so far continues where it stopped.
pub proof fn law_replay_extends(program: Seq<Stmt>, answers: Seq<HostAnswer>, more: Seq<HostAnswer>, max_calls: u32)
    requires
        extends(answers, more),
    ensures
        !(spec_run(program, answers, max_calls) is Ask) ==> spec_run(program, more, max_calls) == spec_run(
            program,
            answers,
            max_calls,
        ),
{
    lemma_run_stable(program, 0, Seq::empty(), JView::Null, answers, more, max_calls, Cnt { steps: 0, calls: 0, asked: 0 });
}

// ---------------------------------------------------------------- the evaluator

struct Counters {
    steps: u32,
    calls: u32,
    asked: usize,
}

spec fn cnt(s: Counters) -> Cnt {
    Cnt { steps: s.steps as nat, calls: s.calls as nat, asked: s.asked as nat }
}

spec fn counters_ok(s: Counters, answers: Seq<HostAnswer>) -> bool {
    s.steps <= STEP_LIMIT && s.asked <= answers.len()
}

enum RtX {
    Json(JsonValue),
    Tools(String),
    Paused(usize),
    Completed(usize),
}

enum HaltX {
    Error(String),
    Ask(HostRequest),
}

spec fn rt_view(r: RtX) -> Rt {
    match r {
        RtX::Json(v) => Rt::Json(jview(v)),
        RtX::Tools(s) => Rt::Tools(s@),
        RtX::Paused(i) => Rt::Paused(i as int),
        RtX::Completed(i) => Rt::Completed(i as int),
    }
}

/// A request as a value.
pub open spec fn req_view(r: HostRequest) -> Req {
    match r {
        HostRequest::Search(p) => Req::Search(jview(p)),
        HostRequest::Describe(p) => Req::Describe(p@),
        HostRequest::Integrations(p) => Req::Integrations(jview(p)),
        HostRequest::Invoke(path, p) => Req::Invoke(path@, jview(p)),
    }
}

spec fn halt_view(h: HaltX) -> Halt {
    match h {
        HaltX::Error(m) => Halt::Error(m@),
        HaltX::Ask(r) => Halt::Ask(req_view(r)),
    }
}

/// Answer `i` paused the invocation.
pub open spec fn paused_answer(answers: Seq<HostAnswer>, i: int) -> bool {
    0 <= i < answers.len() && answers[i] matches HostAnswer::Invoked(Outcome::Paused { .. })
}

/// Answer `i` completed the invocation.
pub open spec fn completed_answer(answers: Seq<HostAnswer>, i: int) -> bool {
    0 <= i < answers.len() && answers[i] matches HostAnswer::Invoked(Outcome::Completed { .. })
}

spec fn rt_ok(r: Rt, answers: Seq<HostAnswer>) -> bool {
    match r {
        Rt::Paused(i) => paused_answer(answers, i),
        Rt::Completed(i) => completed_answer(answers, i),
        _ => true,
    }
}

/// The bindings of an environment as values.
pub open spec fn env_view(env: Seq<(String, JsonValue)>) -> Env {
    env.map_values(|p: (String, JsonValue)| (p.0@, jview(p.1)))
}

fn expect_json_x(rt: RtX, answers: &Vec<HostAnswer>) -> (r: Result<JsonValue, String>)
    requires
        rt_ok(rt_view(rt), answers@),
    ensures
        match expect_json(rt_view(rt), answers@) {
            Ok(j) => (r matches Ok(v) && jview(v) == j),
            Err(m) => (r matches Err(e) && e@ == m),
        },
{
    match rt {
        RtX::Json(v) => Ok(v),
        RtX::Completed(i) => match &answers[i] {
            HostAnswer::Invoked(Outcome::Completed { result, .. }) => Ok(result.envelope()),
            _ => Err(copy_str("tools is not a JSON value")),
        },
        RtX::Tools(_) => Err(copy_str("tools is not a JSON value")),
        RtX::Paused(_) => Err(copy_str("paused execution cannot bind")),
    }
}

fn lookup_x(env: &Vec<(String, JsonValue)>, name: &str) -> (r: Option<JsonValue>)
    ensures
        match lookup(env_view(env@), name@) {
            Some(j) => (r matches Some(v) && jview(v) == j),
            None => r is None,
        },
{
    let ghost ev = env_view(env@);
    let mut k: usize = env.len();
    assert(ev.take(k as int) =~= ev);
    while k > 0
        invariant
            k <= env@.len(),
            ev == env_view(env@),
            lookup(ev, name@) == lookup(ev.take(k as int), name@),
        decreases k,
    {
        proof {
            assert(ev.take(k as int).drop_last() =~= ev.take(k - 1));
            assert(ev.take(k as int).last() == ev[k - 1]);
        }
        if str_eq(env[k - 1].0.as_str(), name) {
            let v = copy_json(&env[k - 1].1);
            proof {
                lemma_json_same_view(env@[k - 1].1, v);
            }
            return Some(v);
        }
        k -= 1;
    }
    None
}

fn object_view_of(ms: &Vec<(String, JsonValue)>) -> (r: ())
    ensures
        jview(JsonValue::Object(*ms)) == JView::Object(ms@.map_values(|p: (String, JsonValue)| (p.0@, jview(p.1)))),
{
    proof {
        lemma_object_view(*ms, ms@.map_values(|p: (String, JsonValue)| (p.0@, jview(p.1))));
    }
}

fn property_x(v: JsonValue, prop: &str) -> (r: Result<JsonValue, String>)
    ensures
        match json_property(jview(v), prop@) {
            Ok(j) => (r matches Ok(x) && jview(x) == j),
            Err(m) => (r matches Err(e) && e@ == m),
        },
{
    match &v {
        JsonValue::Object(ms) => {
            object_view_of(ms);
            let ghost mv = ms@.map_values(|p: (String, JsonValue)| (p.0@, jview(p.1)));
            let mut k: usize = 0;
            while k < ms.len()
                invariant
                    k <= ms@.len(),
                    mv == ms@.map_values(|p: (String, JsonValue)| (p.0@, jview(p.1))),
                    jview(v) == JView::Object(mv),
                    member_of(mv, prop@, 0) == member_of(mv, prop@, k as int),
                decreases ms.len() - k,
            {
                if str_eq(ms[k].0.as_str(), prop) {
                    let x = copy_json(&ms[k].1);
                    proof {
                        lemma_json_same_view(ms@[k as int].1, x);
                    }
                    return Ok(x);
                }
                k += 1;
            }
            let mut m = copy_str("missing property ");
            push_str(&mut m, prop);
            Err(m)
        },
        _ => Err(copy_str("property access on non-object")),
    }
}

/// The members of an object as values.
pub open spec fn members_view(ms: Seq<(String, JsonValue)>) -> Seq<(Seq<char>, JView)> {
    ms.map_values(|p: (String, JsonValue)| (p.0@, jview(p.1)))
}

/// Putting `(k, v)` in place skips the leading members that are before `k`.
proof fn lemma_put_at(s: Seq<(Seq<char>, JView)>, k: Seq<char>, v: JView, j: int)
    requires
        0 <= j <= s.len(),
        forall|i: int| 0 <= i < j ==> (#[trigger] s[i]).0 != k && !lex_lt(k, s[i].0),
    ensures
        put_member(s, k, v) == s.take(j) + put_member(s.skip(j), k, v),
        j < s.len() && s[j].0 == k ==> put_member(s.skip(j), k, v) == seq![(k, v)] + s.skip(j + 1),
        j < s.len() && s[j].0 != k && lex_lt(k, s[j].0) ==> put_member(s.skip(j), k, v) == seq![(k, v)] + s.skip(j),
        j == s.len() ==> put_member(s.skip(j), k, v) == seq![(k, v)],
    decreases j,
{
    if j > 0 {
        lemma_put_at(s.drop_first(), k, v, j - 1);
        assert(s.drop_first().skip(j - 1) =~= s.skip(j));
        if j < s.len() {
            assert(s.drop_first().skip(j) =~= s.skip(j + 1));
        }
        assert(s.take(j) =~= seq![s[0]] + s.drop_first().take(j - 1));
    } else {
        assert(s.skip(0) =~= s);
        assert(s.take(0) =~= Seq::<(Seq<char>, JView)>::empty());
        if s.len() > 0 {
            assert(s.drop_first() =~= s.skip(1));
        }
    }
    if j == s.len() {
        assert(s.skip(j) =~= Seq::<(Seq<char>, JView)>::empty());
    }
}

fn put_member_x(out: &mut Vec<(String, JsonValue)>, k: String, v: JsonValue)
    ensures
        members_view(final(out)@) == put_member(members_view(old(out)@), k@, jview(v)),
{
    let ghost before = members_view(out@);
    let mut j: usize = 0;
    while j < out.len()
        invariant
            j <= out@.len(),
            out@ == old(out)@,
            before == members_view(out@),
            forall|i: int| 0 <= i < j ==> (#[trigger] before[i]).0 != k@ && !lex_lt(k@, before[i].0),
        ensures
            j <= out@.len(),
            out@ == old(out)@,
            before == members_view(out@),
            forall|i: int| 0 <= i < j ==> (#[trigger] before[i]).0 != k@ && !lex_lt(k@, before[i].0),
            j < out@.len() ==> before[j as int].0 == k@ || lex_lt(k@, before[j as int].0),
        decreases out.len() - j,
    {
        let o = lex_order_str(k.as_str(), out[j].0.as_str());
        proof {
            lemma_lex_order_basic(k@, out@[j as int].0@);
        }
        if o <= 0 {
            break;
        }
        j += 1;
    }
    proof {
        lemma_put_at(before, k@, jview(v), j as int);
    }
    let same = j < out.len() && lex_order_str(k.as_str(), out[j].0.as_str()) == 0;
    proof {
        if j < out@.len() {
            lemma_lex_order_basic(k@, out@[j as int].0@);
        }
    }
    if same {
        out.set(j, (k, v));
        proof {
            assert(members_view(out@) =~= before.take(j as int) + put_member(before.skip(j as int), k@, jview(v)));
        }
    } else {
        out.insert(j, (k, v));
        proof {
            assert(members_view(out@) =~= before.take(j as int) + put_member(before.skip(j as int), k@, jview(v)));
        }
    }
}

fn member_index(ms: &Vec<(String, JsonValue)>, key: &str) -> (r: Option<usize>)
    ensures
        match r {
            Some(i) => i < ms@.len() && member_of(members_view(ms@), key@, 0) == Some(jview(ms@[i as int].1)),
            None => member_of(members_view(ms@), key@, 0) is None,
        },
{
    let ghost mv = members_view(ms@);
    let mut k: usize = 0;
    while k < ms.len()
        invariant
            k <= ms@.len(),
            mv == members_view(ms@),
            member_of(mv, key@, 0) == member_of(mv, key@, k as int),
        decreases ms.len() - k,
    {
        if str_eq(ms[k].0.as_str(), key) {
            return Some(k);
        }
        k += 1;
    }
    None
}

fn host_json_x(req: HostRequest, answers: &Vec<HostAnswer>, st: &mut Counters) -> (r: Result<RtX, HaltX>)
    requires
        counters_ok(*old(st), answers@),
    ensures
        match r {
            Ok(x) => host_json(req_view(req), answers@, cnt(*old(st))) == Ok::<(Rt, Cnt), Halt>(
                (rt_view(x), cnt(*final(st))),
            ) && counters_ok(*final(st), answers@) && rt_ok(rt_view(x), answers@),
            Err(h) => host_json(req_view(req), answers@, cnt(*old(st))) == Err::<(Rt, Cnt), Halt>(halt_view(h)),
        },
{
    if st.asked >= answers.len() {
        return Err(HaltX::Ask(req));
    }
    let i = st.asked;
    match &answers[i] {
        HostAnswer::Json(v) => {
            let x = copy_json(v);
            proof {
                lemma_json_same_view(*v, x);
            }
            st.asked = i + 1;
            Ok(RtX::Json(x))
        },
        HostAnswer::Failed(m) => Err(HaltX::Error(copy_str(m.as_str()))),
        HostAnswer::Invoked(_) => Err(HaltX::Error(copy_str("host answer does not fit the request"))),
    }
}

fn call_host_x(path: String, payload: JsonValue, answers: &Vec<HostAnswer>, st: &mut Counters) -> (r: Result<RtX, HaltX>)
    requires
        counters_ok(*old(st), answers@),
    ensures
        match r {
            Ok(x) => call_host(path@, jview(payload), answers@, cnt(*old(st))) == Ok::<(Rt, Cnt), Halt>(
                (rt_view(x), cnt(*final(st))),
            ) && counters_ok(*final(st), answers@) && rt_ok(rt_view(x), answers@),
            Err(h) => call_host(path@, jview(payload), answers@, cnt(*old(st))) == Err::<(Rt, Cnt), Halt>(
                halt_view(h),
            ),
        },
{
    proof {
        reveal_strlit("search");
        reveal_strlit("describe.tool");
        reveal_strlit("executor.integrations.list");
        reveal_strlit("");
    }
    if str_eq(path.as_str(), "search") {
        return host_json_x(HostRequest::Search(payload), answers, st);
    }
    if str_eq(path.as_str(), "describe.tool") {
        let tool_path = match &payload {
            JsonValue::Object(ms) => {
                object_view_of(ms);
                match member_index(ms, "path") {
                    Some(i) => match &ms[i].1 {
                        JsonValue::Text(t) => Some(copy_str(t.as_str())),
                        _ => None,
                    },
                    None => None,
                }
            },
            _ => None,
        };
        let tool_path = match tool_path {
            Some(t) => t,
            None => {
                return Err(HaltX::Error(copy_str("tools.describe.tool expects an object: { path: string }")));
            },
        };
        proof {
            assert(tool_path@.len() == 0 ==> tool_path@ =~= ""@);
        }
        if str_eq(tool_path.as_str(), "") {
            return Err(HaltX::Error(copy_str("describe.tool requires a path")));
        }
        let schemas = match &payload {
            JsonValue::Object(ms) => {
                object_view_of(ms);
                member_index(ms, "includeSchemas").is_some()
            },
            _ => false,
        };
        if schemas {
            return Err(HaltX::Error(copy_str("tools.describe.tool no longer accepts includeSchemas")));
        }
        return host_json_x(HostRequest::Describe(tool_path), answers, st);
    }
    if str_eq(path.as_str(), "executor.integrations.list") {
        return host_json_x(HostRequest::Integrations(payload), answers, st);
    }
    if st.asked >= answers.len() {
        return Err(HaltX::Ask(HostRequest::Invoke(path, payload)));
    }
    let i = st.asked;
    match &answers[i] {
        HostAnswer::Invoked(Outcome::Paused { .. }) => {
            st.asked = i + 1;
            Ok(RtX::Paused(i))
        },
        HostAnswer::Invoked(Outcome::Completed { .. }) => {
            st.asked = i + 1;
            Ok(RtX::Completed(i))
        },
        HostAnswer::Failed(m) => Err(HaltX::Error(copy_str(m.as_str()))),
        HostAnswer::Json(_) => Err(HaltX::Error(copy_str("host answer does not fit the request"))),
    }
}

fn to_halt(m: String) -> (r: HaltX)
    ensures
        halt_view(r) == Halt::Error(m@),
{
    HaltX::Error(m)
}

/// What evaluating `e` gave, as the semantics says from counters `c`.
spec fn eval_is(r: Result<RtX, HaltX>, e: Expr, env: Env, answers: Seq<HostAnswer>, max_calls: u32, c: Cnt, after: Counters) -> bool {
    match r {
        Ok(x) => ev(e, env, answers, max_calls, c) == Ok::<(Rt, Cnt), Halt>((rt_view(x), cnt(after)))
            && counters_ok(after, answers) && rt_ok(rt_view(x), answers),
        Err(h) => ev(e, env, answers, max_calls, c) == Err::<(Rt, Cnt), Halt>(halt_view(h)),
    }
}

/// The step an evaluation takes first.
spec fn stepped(c: Counters) -> Cnt {
    Cnt { steps: (c.steps + 1) as nat, ..cnt(c) }
}

fn eval(e: &Expr, env: &Vec<(String, JsonValue)>, answers: &Vec<HostAnswer>, max_calls: u32, st: &mut Counters) -> (r:
    Result<RtX, HaltX>)
    requires
        counters_ok(*old(st), answers@),
    ensures
        eval_is(r, *e, env_view(env@), answers@, max_calls, cnt(*old(st)), *final(st)),
    decreases e, 1int,
{
    if st.steps >= STEP_LIMIT {
        return Err(HaltX::Error(copy_str("eval step limit exceeded")));
    }
    match e {
        Expr::Await(inner) => {
            st.steps = st.steps + 1;
            eval(inner, env, answers, max_calls, st)
        },
        Expr::Literal(v) => {
            st.steps = st.steps + 1;
            let x = copy_json(v);
            proof {
                lemma_json_same_view(*v, x);
            }
            Ok(RtX::Json(x))
        },
        Expr::Ident(name) => {
            st.steps = st.steps + 1;
            proof {
                reveal_strlit("tools");
            }
            if str_eq(name.as_str(), "tools") {
                return Ok(RtX::Tools(String::new()));
            }
            match lookup_x(env, name.as_str()) {
                Some(v) => Ok(RtX::Json(v)),
                None => {
                    let mut m = copy_str("unknown identifier ");
                    push_str(&mut m, name.as_str());
                    Err(HaltX::Error(m))
                },
            }
        },
        Expr::Object(_) => eval_object(e, env, answers, max_calls, st),
        Expr::Array(_) => eval_array(e, env, answers, max_calls, st),
        Expr::Member { .. } => eval_member(e, env, answers, max_calls, st),
        Expr::Index { .. } => eval_index(e, env, answers, max_calls, st),
        Expr::Call { .. } => eval_call(e, env, answers, max_calls, st),
    }
}

fn eval_object(e: &Expr, env: &Vec<(String, JsonValue)>, answers: &Vec<HostAnswer>, max_calls: u32, st: &mut Counters) -> (r:
    Result<RtX, HaltX>)
    requires
        counters_ok(*old(st), answers@),
        old(st).steps < STEP_LIMIT,
        e is Object,
    ensures
        eval_is(r, *e, env_view(env@), answers@, max_calls, cnt(*old(st)), *final(st)),
    decreases e, 0int,
{
    let ghost envv = env_view(env@);
    let ghost c0 = cnt(*st);
    let ghost c1 = stepped(*st);
    let ghost whole = ev(*e, envv, answers@, max_calls, c0);
    assert(whole == match ev_fields(*e, 0, Seq::empty(), envv, answers@, max_calls, c1) {
        Ok(r) => Ok::<(Rt, Cnt), Halt>((Rt::Json(JView::Object(r.0)), r.1)),
        Err(h) => Err(h),
    });
    st.steps = st.steps + 1;
    let fields = match e {
        Expr::Object(fields) => fields,
        _ => return Err(HaltX::Error(String::new())),
    };
    let mut acc: Vec<(String, JsonValue)> = Vec::new();
    let mut k: usize = 0;
    assert(members_view(acc@) =~= Seq::<(Seq<char>, JView)>::empty());
    while k < fields.len()
        invariant
            *e == Expr::Object(*fields),
            k <= fields@.len(),
            envv == env_view(env@),
            c0 == cnt(*old(st)),
            whole == ev(*e, envv, answers@, max_calls, c0),
            whole == match ev_fields(*e, 0, Seq::empty(), envv, answers@, max_calls, c1) {
                Ok(r) => Ok::<(Rt, Cnt), Halt>((Rt::Json(JView::Object(r.0)), r.1)),
                Err(h) => Err(h),
            },
            counters_ok(*st, answers@),
            ev_fields(*e, 0, Seq::empty(), envv, answers@, max_calls, c1) == ev_fields(
                *e,
                k as int,
                members_view(acc@),
                envv,
                answers@,
                max_calls,
                cnt(*st),
            ),
        decreases fields.len() - k,
    {
        proof {
            vstd::std_specs::vec::axiom_vec_index_decreases(*fields, k as int);
            assert(decreases_to!(*e => (*e)->Object_0));
            assert(decreases_to!(fields@[k as int] => fields@[k as int].1));
        }
        let ghost before = cnt(*st);
        let ghost accv = members_view(acc@);
        let r = eval(&fields[k].1, env, answers, max_calls, st);
        let x = match r {
            Ok(x) => x,
            Err(h) => {
                assert(ev_fields(*e, k as int, accv, envv, answers@, max_calls, before) == Err::<
                    (Seq<(Seq<char>, JView)>, Cnt),
                    Halt,
                >(halt_view(h)));
                return Err(h);
            },
        };
        let j = match expect_json_x(x, answers) {
            Ok(j) => j,
            Err(m) => {
                assert(ev_fields(*e, k as int, accv, envv, answers@, max_calls, before) == Err::<
                    (Seq<(Seq<char>, JView)>, Cnt),
                    Halt,
                >(Halt::Error(m@)));
                return Err(to_halt(m));
            },
        };
        put_member_x(&mut acc, copy_str(fields[k].0.as_str()), j);
        k += 1;
    }
    object_view_of(&acc);
    Ok(RtX::Json(JsonValue::Object(acc)))
}

fn eval_array(e: &Expr, env: &Vec<(String, JsonValue)>, answers: &Vec<HostAnswer>, max_calls: u32, st: &mut Counters) -> (r:
    Result<RtX, HaltX>)
    requires
        counters_ok(*old(st), answers@),
        old(st).steps < STEP_LIMIT,
        e is Array,
    ensures
        eval_is(r, *e, env_view(env@), answers@, max_calls, cnt(*old(st)), *final(st)),
    decreases e, 0int,
{
    let ghost envv = env_view(env@);
    let ghost c0 = cnt(*st);
    let ghost c1 = stepped(*st);
    let ghost whole = ev(*e, envv, answers@, max_calls, c0);
    assert(whole == match ev_items(*e, 0, Seq::empty(), envv, answers@, max_calls, c1) {
        Ok(r) => Ok::<(Rt, Cnt), Halt>((Rt::Json(JView::Array(r.0)), r.1)),
        Err(h) => Err(h),
    });
    st.steps = st.steps + 1;
    let items = match e {
        Expr::Array(items) => items,
        _ => return Err(HaltX::Error(String::new())),
    };
    let mut acc: Vec<JsonValue> = Vec::new();
    let mut k: usize = 0;
    assert(acc@.map_values(|v: JsonValue| jview(v)) =~= Seq::<JView>::empty());
    while k < items.len()
        invariant
            *e == Expr::Array(*items),
            k <= items@.len(),
            envv == env_view(env@),
            c0 == cnt(*old(st)),
            whole == ev(*e, envv, answers@, max_calls, c0),
            whole == match ev_items(*e, 0, Seq::empty(), envv, answers@, max_calls, c1) {
                Ok(r) => Ok::<(Rt, Cnt), Halt>((Rt::Json(JView::Array(r.0)), r.1)),
                Err(h) => Err(h),
            },
            counters_ok(*st, answers@),
            ev_items(*e, 0, Seq::empty(), envv, answers@, max_calls, c1) == ev_items(
                *e,
                k as int,
                acc@.map_values(|v: JsonValue| jview(v)),
                envv,
                answers@,
                max_calls,
                cnt(*st),
            ),
        decreases items.len() - k,
    {
        proof {
            vstd::std_specs::vec::axiom_vec_index_decreases(*items, k as int);
            assert(decreases_to!(*e => (*e)->Array_0));
        }
        let ghost before = cnt(*st);
        let ghost accv = acc@.map_values(|v: JsonValue| jview(v));
        let r = eval(&items[k], env, answers, max_calls, st);
        let x = match r {
            Ok(x) => x,
            Err(h) => {
                assert(ev_items(*e, k as int, accv, envv, answers@, max_calls, before) == Err::<
                    (Seq<JView>, Cnt),
                    Halt,
                >(halt_view(h)));
                return Err(h);
            },
        };
        let j = match expect_json_x(x, answers) {
            Ok(j) => j,
            Err(m) => {
                assert(ev_items(*e, k as int, accv, envv, answers@, max_calls, before) == Err::<
                    (Seq<JView>, Cnt),
                    Halt,
                >(Halt::Error(m@)));
                return Err(to_halt(m));
            },
        };
        let ghost before = acc@.map_values(|v: JsonValue| jview(v));
        acc.push(j);
        assert(acc@.map_values(|v: JsonValue| jview(v)) =~= before.push(jview(j)));
        k += 1;
    }
    proof {
        lemma_array_view(acc, acc@.map_values(|v: JsonValue| jview(v)));
    }
    Ok(RtX::Json(JsonValue::Array(acc)))
}

fn eval_member(e: &Expr, env: &Vec<(String, JsonValue)>, answers: &Vec<HostAnswer>, max_calls: u32, st: &mut Counters) -> (r:
    Result<RtX, HaltX>)
    requires
        counters_ok(*old(st), answers@),
        old(st).steps < STEP_LIMIT,
        e is Member,
    ensures
        eval_is(r, *e, env_view(env@), answers@, max_calls, cnt(*old(st)), *final(st)),
    decreases e, 0int,
{
    st.steps = st.steps + 1;
    let (object, prop) = match e {
        Expr::Member { object, prop } => (object, prop),
        _ => return Err(HaltX::Error(String::new())),
    };
    let o = match eval(object, env, answers, max_calls, st) {
        Ok(x) => x,
        Err(h) => return Err(h),
    };
    match o {
        RtX::Tools(p) => {
            proof {
                reveal_strlit("");
                assert(p@.len() == 0 ==> p@ =~= ""@);
            }
            if str_eq(p.as_str(), "") {
                Ok(RtX::Tools(copy_str(prop.as_str())))
            } else {
                let mut q = p;
                push_str(&mut q, ".");
                push_str(&mut q, prop.as_str());
                Ok(RtX::Tools(q))
            }
        },
        RtX::Paused(i) => Ok(RtX::Paused(i)),
        other => {
            let j = match expect_json_x(other, answers) {
                Ok(j) => j,
                Err(m) => return Err(to_halt(m)),
            };
            match property_x(j, prop.as_str()) {
                Ok(v) => Ok(RtX::Json(v)),
                Err(m) => Err(to_halt(m)),
            }
        },
    }
}

fn eval_index(e: &Expr, env: &Vec<(String, JsonValue)>, answers: &Vec<HostAnswer>, max_calls: u32, st: &mut Counters) -> (r:
    Result<RtX, HaltX>)
    requires
        counters_ok(*old(st), answers@),
        old(st).steps < STEP_LIMIT,
        e is Index,
    ensures
        eval_is(r, *e, env_view(env@), answers@, max_calls, cnt(*old(st)), *final(st)),
    decreases e, 0int,
{
    st.steps = st.steps + 1;
    let (object, index) = match e {
        Expr::Index { object, index } => (object, index),
        _ => return Err(HaltX::Error(String::new())),
    };
    let o = match eval(object, env, answers, max_calls, st) {
        Ok(x) => x,
        Err(h) => return Err(h),
    };
    let ix = match eval(index, env, answers, max_calls, st) {
        Ok(x) => x,
        Err(h) => return Err(h),
    };
    let idx = match expect_json_x(ix, answers) {
        Ok(j) => j,
        Err(m) => return Err(to_halt(m)),
    };
    match (o, idx) {
        (RtX::Tools(_), JsonValue::Text(s)) => Ok(RtX::Tools(s)),
        (RtX::Paused(i), _) => Ok(RtX::Paused(i)),
        (other, JsonValue::Text(s)) => {
            let j = match expect_json_x(other, answers) {
                Ok(j) => j,
                Err(m) => return Err(to_halt(m)),
            };
            match property_x(j, s.as_str()) {
                Ok(v) => Ok(RtX::Json(v)),
                Err(m) => Err(to_halt(m)),
            }
        },
        _ => Err(HaltX::Error(copy_str("illegal index"))),
    }
}

fn eval_call(e: &Expr, env: &Vec<(String, JsonValue)>, answers: &Vec<HostAnswer>, max_calls: u32, st: &mut Counters) -> (r:
    Result<RtX, HaltX>)
    requires
        counters_ok(*old(st), answers@),
        old(st).steps < STEP_LIMIT,
        e is Call,
    ensures
        eval_is(r, *e, env_view(env@), answers@, max_calls, cnt(*old(st)), *final(st)),
    decreases e, 0int,
{
    st.steps = st.steps + 1;
    let (callee, args) = match e {
        Expr::Call { callee, args } => (callee, args),
        _ => return Err(HaltX::Error(String::new())),
    };
    let t = match eval(callee, env, answers, max_calls, st) {
        Ok(x) => x,
        Err(h) => return Err(h),
    };
    let path = match t {
        RtX::Tools(p) => p,
        _ => return Err(HaltX::Error(copy_str("can only call tools.* functions"))),
    };
    if st.calls >= max_calls {
        let mut m = copy_str("max_tool_calls (");
        let d = decimal(max_calls as u64);
        push_str(&mut m, d.as_str());
        push_str(&mut m, ") exceeded");
        return Err(HaltX::Error(m));
    }
    st.calls = st.calls + 1;
    let payload = if args.len() == 0 {
        let empty: Vec<(String, JsonValue)> = Vec::new();
        proof {
            lemma_object_view(empty, Seq::empty());
        }
        JsonValue::Object(empty)
    } else {
        proof {
            vstd::std_specs::vec::axiom_vec_index_decreases(*args, 0);
            assert(decreases_to!(*e => (*e)->Call_args));
        }
        let p = match eval(&args[0], env, answers, max_calls, st) {
            Ok(x) => x,
            Err(h) => return Err(h),
        };
        match expect_json_x(p, answers) {
            Ok(j) => j,
            Err(m) => return Err(to_halt(m)),
        }
    };
    call_host_x(path, payload, answers, st)
}

// ---------------------------------------------------------------- statements and runs

enum OutX {
    Value(JsonValue),
    Return(JsonValue),
    Paused(usize),
    Completed(usize),
}

spec fn out_view(o: OutX) -> Out {
    match o {
        OutX::Value(v) => Out::Value(jview(v)),
        OutX::Return(v) => Out::Return(jview(v)),
        OutX::Paused(i) => Out::Paused(i as int),
        OutX::Completed(i) => Out::Completed(i as int),
    }
}

spec fn out_ok(o: Out, answers: Seq<HostAnswer>) -> bool {
    match o {
        Out::Paused(i) => paused_answer(answers, i),
        Out::Completed(i) => completed_answer(answers, i),
        _ => true,
    }
}

/// The envelope of the completed invocation in answer `i`.
fn answer_envelope(answers: &Vec<HostAnswer>, i: usize) -> (r: JsonValue)
    requires
        completed_answer(answers@, i as int),
    ensures
        jview(r) == envelope_view(answer_result(answers@[i as int])),
{
    match &answers[i] {
        HostAnswer::Invoked(Outcome::Completed { result, .. }) => result.envelope(),
        _ => JsonValue::Null,
    }
}

fn exec_stmt(
    s: &Stmt,
    env: &mut Vec<(String, JsonValue)>,
    answers: &Vec<HostAnswer>,
    max_calls: u32,
    st: &mut Counters,
) -> (r: Result<OutX, HaltX>)
    requires
        counters_ok(*old(st), answers@),
    ensures
        match r {
            Ok(o) => ev_stmt(*s, env_view(old(env)@), answers@, max_calls, cnt(*old(st))) == Ok::<
                (Out, Env, Cnt),
                Halt,
            >((out_view(o), env_view(final(env)@), cnt(*final(st))))
                && counters_ok(*final(st), answers@) && out_ok(out_view(o), answers@),
            Err(h) => ev_stmt(*s, env_view(old(env)@), answers@, max_calls, cnt(*old(st))) == Err::<
                (Out, Env, Cnt),
                Halt,
            >(halt_view(h)),
        },
{
    match s {
        Stmt::Let { name, expr } => {
            let x = match eval(expr, env, answers, max_calls, st) {
                Ok(x) => x,
                Err(h) => return Err(h),
            };
            let j = match expect_json_x(x, answers) {
                Ok(j) => j,
                Err(m) => return Err(to_halt(m)),
            };
            let ghost before = env@;
            env.push((copy_str(name.as_str()), j));
            assert(env_view(env@) =~= env_view(before).push((name@, jview(j))));
            Ok(OutX::Value(JsonValue::Null))
        },
        Stmt::Return(expr) => {
            let x = match eval(expr, env, answers, max_calls, st) {
                Ok(x) => x,
                Err(h) => return Err(h),
            };
            match x {
                RtX::Paused(i) => Ok(OutX::Paused(i)),
                RtX::Completed(i) => Ok(OutX::Completed(i)),
                other => match expect_json_x(other, answers) {
                    Ok(j) => Ok(OutX::Return(j)),
                    Err(m) => Err(to_halt(m)),
                },
            }
        },
        Stmt::Expr(expr) => {
            let x = match eval(expr, env, answers, max_calls, st) {
                Ok(x) => x,
                Err(h) => return Err(h),
            };
            match x {
                RtX::Paused(i) => Ok(OutX::Paused(i)),
                RtX::Completed(i) => Ok(OutX::Value(answer_envelope(answers, i))),
                other => match expect_json_x(other, answers) {
                    Ok(j) => Ok(OutX::Value(j)),
                    Err(m) => Err(to_halt(m)),
                },
            }
        },
    }
}

/// Where a run stands, as a value.
pub open spec fn run_view(r: RunStep) -> RunView {
    match r {
        RunStep::Value(v) => RunView::Value(jview(v)),
        RunStep::Completed(i) => RunView::Completed(i as int),
        RunStep::Paused(i) => RunView::Paused(i as int),
        RunStep::Ask(q) => RunView::Ask(req_view(q)),
        RunStep::Error(m) => RunView::Error(m@),
    }
}

/// Runs `program` against the host's answers so far: finishes, pauses, fails, or asks
/// for the next answer. At most `max_tool_calls` tools are invoked, and evaluation
/// stops after `STEP_LIMIT` steps.
pub fn run(program: &Vec<Stmt>, answers: &Vec<HostAnswer>, max_tool_calls: u32) -> (r: RunStep)
    ensures
        run_view(r) == spec_run(program@, answers@, max_tool_calls),
        r matches RunStep::Paused(i) ==> paused_answer(answers@, i as int),
        r matches RunStep::Completed(i) ==> completed_answer(answers@, i as int),
{
    let mut env: Vec<(String, JsonValue)> = Vec::new();
    let mut st = Counters { steps: 0, calls: 0, asked: 0 };
    let mut last = JsonValue::Null;
    let mut k: usize = 0;
    assert(env_view(env@) =~= Seq::<(Seq<char>, JView)>::empty());
    while k < program.len()
        invariant
            k <= program@.len(),
            counters_ok(st, answers@),
            spec_run(program@, answers@, max_tool_calls) == run_from(
                program@,
                k as int,
                env_view(env@),
                jview(last),
                answers@,
                max_tool_calls,
                cnt(st),
            ),
        decreases program.len() - k,
    {
        match exec_stmt(&program[k], &mut env, answers, max_tool_calls, &mut st) {
            Err(HaltX::Error(m)) => return RunStep::Error(m),
            Err(HaltX::Ask(q)) => return RunStep::Ask(q),
            Ok(OutX::Value(v)) => {
                last = v;
            },
            Ok(OutX::Return(v)) => return RunStep::Value(v),
            Ok(OutX::Paused(i)) => return RunStep::Paused(i),
            Ok(OutX::Completed(i)) => return RunStep::Completed(i),
        }
        k += 1;
    }
    RunStep::Value(last)
}

} // verus!
