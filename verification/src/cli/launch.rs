//! Making sure a loopback daemon answers: the decisions of the launcher, one step at a
//! time. The caller performs each action (probing, spawning, sleeping, stopping a process)
//! and hands back what came of it.

use vstd::prelude::*;
use crate::text::{copy_str, push_str, decimal, spec_decimal, str_eq};

verus! {

/// Spawn attempts before giving up.
pub const ATTEMPTS: u32 = 5;

/// Probes per spawned daemon (50 ms apart).
pub const POLLS: u32 = 80;

/// On-disk pointer to the daemon that answered: its origin and process id.
pub struct DaemonPointer {
    /// Origin (`http://127.0.0.1:4788`).
    pub origin: String,
    /// Process id.
    pub pid: u32,
}

/// Where the launcher stands.
pub enum Launcher {
    /// Nothing known yet.
    Start,
    /// Probing the configured daemon URL (health only).
    CheckingUrl { url: String },
    /// Waiting for the recorded pointer, if any.
    ReadingPointer,
    /// Probing the recorded pointer's origin (health and bearer).
    CheckingPointer { origin: String },
    /// Attempt `attempt`: a port is being chosen.
    Choosing { attempt: u32 },
    /// Attempt `attempt`: spawning a daemon on `port`.
    Spawning { attempt: u32, port: u16 },
    /// Probe number `polls` of daemon `pid` on `port` is under way.
    Probing { attempt: u32, port: u16, pid: u32, polls: u32 },
    /// The probe failed; whether `pid` still runs is being checked.
    Checking { attempt: u32, port: u16, pid: u32, polls: u32 },
    /// Sleeping before the next probe.
    Waiting { attempt: u32, port: u16, pid: u32, polls: u32 },
    /// The attempt is over; whether `pid` still runs is being checked.
    Ending { attempt: u32, port: u16, pid: u32 },
    /// Stopping `pid`, which never answered.
    Stopping { attempt: u32, port: u16, pid: u32 },
    /// Finished.
    Done,
}

/// What came of the last action.
pub enum LaunchEvent {
    /// The configured daemon URL (`EXECUTOR_DAEMON_URL`), when set.
    Configured { url: Option<String> },
    /// The recorded pointer's origin, when there is a readable pointer.
    Pointer { origin: Option<String> },
    /// The port chosen.
    PortChosen { port: u16 },
    /// The daemon was spawned as process `pid`.
    Spawned { pid: u32 },
    /// Whether the probe succeeded.
    Probed { ok: bool },
    /// Whether the process still runs.
    Alive { alive: bool },
    /// The sleep is over.
    Slept,
    /// The process was stopped.
    Stopped,
}

/// What the caller does next.
pub enum LaunchAction {
    /// Probe `url`'s health.
    ProbeHealth { url: String },
    /// Mint or read the bearer, then read the recorded pointer.
    ReadPointer,
    /// Probe `origin`'s health and bearer-gated metrics.
    ProbeOrigin { origin: String },
    /// Choose a port: the default one when it is free (`preferred`), else any free one.
    PickPort { preferred: bool },
    /// Spawn `daemon run --foreground` on `port`.
    Spawn { port: u16 },
    /// Probe `http://127.0.0.1:{port}` (health and bearer).
    ProbePort { port: u16 },
    /// Check whether process `pid` still runs.
    CheckAlive { pid: u32 },
    /// Sleep 50 ms.
    Sleep,
    /// Stop process `pid`.
    Stop { pid: u32 },
    /// Use `url`.
    UseUrl { url: String },
    /// Record the daemon on `port` as process `pid`, and use it.
    Ready { port: u16, pid: u32 },
    /// Fail: the configured `url` is not healthy.
    Unhealthy { url: String },
    /// Fail: no daemon became healthy; the last one tried was on `port`.
    GiveUp { port: u16 },
    /// The event does not fit the state: nothing to do.
    Nothing,
}

/// After attempt `attempt` ended on `port`: the next attempt, or giving up.
pub open spec fn after_attempt(attempt: u32, port: u16) -> (Launcher, LaunchAction) {
    if attempt + 1 < ATTEMPTS {
        (Launcher::Choosing { attempt: (attempt + 1) as u32 }, LaunchAction::PickPort { preferred: false })
    } else {
        (Launcher::Done, LaunchAction::GiveUp { port })
    }
}

/// One step of the launcher: the state after `e` and the action to perform.
pub open spec fn spec_launch(s: Launcher, e: LaunchEvent) -> (Launcher, LaunchAction) {
    match (s, e) {
        (Launcher::Start, LaunchEvent::Configured { url }) => match url {
            Some(u) if u@.len() > 0 => (Launcher::CheckingUrl { url: u }, LaunchAction::ProbeHealth { url: u }),
            _ => (Launcher::ReadingPointer, LaunchAction::ReadPointer),
        },
        (Launcher::CheckingUrl { url }, LaunchEvent::Probed { ok }) => if ok {
            (Launcher::Done, LaunchAction::UseUrl { url })
        } else {
            (Launcher::Done, LaunchAction::Unhealthy { url })
        },
        (Launcher::ReadingPointer, LaunchEvent::Pointer { origin }) => match origin {
            Some(o) => (Launcher::CheckingPointer { origin: o }, LaunchAction::ProbeOrigin { origin: o }),
            None => (Launcher::Choosing { attempt: 0 }, LaunchAction::PickPort { preferred: true }),
        },
        (Launcher::CheckingPointer { origin }, LaunchEvent::Probed { ok }) => if ok {
            (Launcher::Done, LaunchAction::UseUrl { url: origin })
        } else {
            (Launcher::Choosing { attempt: 0 }, LaunchAction::PickPort { preferred: true })
        },
        (Launcher::Choosing { attempt }, LaunchEvent::PortChosen { port }) => (
            Launcher::Spawning { attempt, port },
            LaunchAction::Spawn { port },
        ),
        (Launcher::Spawning { attempt, port }, LaunchEvent::Spawned { pid }) => (
            Launcher::Probing { attempt, port, pid, polls: 0 },
            LaunchAction::ProbePort { port },
        ),
        (Launcher::Probing { attempt, port, pid, polls }, LaunchEvent::Probed { ok }) => if ok {
            (Launcher::Done, LaunchAction::Ready { port, pid })
        } else {
            (Launcher::Checking { attempt, port, pid, polls }, LaunchAction::CheckAlive { pid })
        },
        (Launcher::Checking { attempt, port, pid, polls }, LaunchEvent::Alive { alive }) => if alive {
            (Launcher::Waiting { attempt, port, pid, polls }, LaunchAction::Sleep)
        } else {
            (Launcher::Ending { attempt, port, pid }, LaunchAction::CheckAlive { pid })
        },
        (Launcher::Waiting { attempt, port, pid, polls }, LaunchEvent::Slept) => if polls + 1 < POLLS {
            (
                Launcher::Probing { attempt, port, pid, polls: (polls + 1) as u32 },
                LaunchAction::ProbePort { port },
            )
        } else {
            (Launcher::Ending { attempt, port, pid }, LaunchAction::CheckAlive { pid })
        },
        (Launcher::Ending { attempt, port, pid }, LaunchEvent::Alive { alive }) => if alive {
            (Launcher::Stopping { attempt, port, pid }, LaunchAction::Stop { pid })
        } else {
            after_attempt(attempt, port)
        },
        (Launcher::Stopping { attempt, port, pid }, LaunchEvent::Stopped) => after_attempt(attempt, port),
        (s, _) => (s, LaunchAction::Nothing),
    }
}

/// The bounds every reachable state keeps: fewer than `ATTEMPTS` attempts, fewer than
/// `POLLS` probes.
pub open spec fn launch_inv(s: Launcher) -> bool {
    match s {
        Launcher::Choosing { attempt } => attempt < ATTEMPTS,
        Launcher::Spawning { attempt, .. } => attempt < ATTEMPTS,
        Launcher::Probing { attempt, polls, .. } => attempt < ATTEMPTS && polls < POLLS,
        Launcher::Checking { attempt, polls, .. } => attempt < ATTEMPTS && polls < POLLS,
        Launcher::Waiting { attempt, polls, .. } => attempt < ATTEMPTS && polls < POLLS,
        Launcher::Ending { attempt, .. } => attempt < ATTEMPTS,
        Launcher::Stopping { attempt, .. } => attempt < ATTEMPTS,
        _ => true,
    }
}

/// Steps one attempt can take at most.
pub open spec fn attempt_budget() -> int {
    3 * POLLS + 4
}

/// How far an attempt has come.
pub open spec fn progress(s: Launcher) -> int {
    match s {
        Launcher::Spawning { .. } => 1,
        Launcher::Probing { polls, .. } => 2 + 3 * polls,
        Launcher::Checking { polls, .. } => 3 + 3 * polls,
        Launcher::Waiting { polls, .. } => 4 + 3 * polls,
        Launcher::Ending { .. } => 2 + 3 * POLLS,
        Launcher::Stopping { .. } => 3 + 3 * POLLS,
        _ => 0,
    }
}

/// The attempt a state belongs to.
pub open spec fn attempt_of(s: Launcher) -> int {
    match s {
        Launcher::Choosing { attempt } => attempt as int,
        Launcher::Spawning { attempt, .. } => attempt as int,
        Launcher::Probing { attempt, .. } => attempt as int,
        Launcher::Checking { attempt, .. } => attempt as int,
        Launcher::Waiting { attempt, .. } => attempt as int,
        Launcher::Ending { attempt, .. } => attempt as int,
        Launcher::Stopping { attempt, .. } => attempt as int,
        _ => 0,
    }
}

/// An upper bound on the steps left before the launcher is done.
pub open spec fn steps_left(s: Launcher) -> int {
    let full = ATTEMPTS * attempt_budget();
    match s {
        Launcher::Start => full + 3,
        Launcher::ReadingPointer => full + 2,
        Launcher::CheckingPointer { .. } => full + 1,
        Launcher::CheckingUrl { .. } => 1,
        Launcher::Done => 0,
        _ => (ATTEMPTS - attempt_of(s)) * attempt_budget() - progress(s),
    }
}

/// Every step keeps the launcher's bounds, and every event that fits the state brings it
/// strictly closer to done (so it finishes after a bounded number of answered actions);
/// an event that does not fit changes nothing.
pub proof fn law_launch_terminates(s: Launcher, e: LaunchEvent)
    requires
        launch_inv(s),
    ensures
        launch_inv(spec_launch(s, e).0),
        spec_launch(s, e).1 is Nothing ==> spec_launch(s, e).0 == s,
        !(spec_launch(s, e).1 is Nothing) ==> 0 <= steps_left(spec_launch(s, e).0) < steps_left(s),
        steps_left(s) >= 0,
{
    assert(attempt_budget() == 244);
    match s {
        Launcher::Choosing { attempt } => {
            assert(0 <= (ATTEMPTS - attempt) * 244 - 1) by (nonlinear_arith)
                requires attempt < 5;
        },
        _ => {},
    }
    let n = spec_launch(s, e).0;
    if launch_inv(n) && !(n is Done) && attempt_of(n) < ATTEMPTS {
        let a = attempt_of(n);
        assert((ATTEMPTS - a) * 244 >= 244) by (nonlinear_arith)
            requires a < 5;
    }
    if launch_inv(s) && !(s is Done) && attempt_of(s) < ATTEMPTS {
        let a = attempt_of(s);
        assert((ATTEMPTS - a) * 244 >= 244) by (nonlinear_arith)
            requires a < 5;
        assert((ATTEMPTS - a) * 244 == (ATTEMPTS - (a + 1)) * 244 + 244) by (nonlinear_arith);
    }
}

/// The launcher uses the daemon it spawned only after a successful probe of that very
/// port and process; it prefers the default port only on the first attempt.
pub proof fn law_ready_after_probe(s: Launcher, e: LaunchEvent)
    ensures
        spec_launch(s, e).1 matches LaunchAction::Ready { port, pid } ==> (s matches Launcher::Probing {
            port: p,
            pid: q,
            ..
        } && p == port && q == pid && e == LaunchEvent::Probed { ok: true }),
        spec_launch(s, e).1 matches LaunchAction::PickPort { preferred } ==> (preferred
            <==> spec_launch(s, e).0 == Launcher::Choosing { attempt: 0 }),
{
}

impl Launcher {
    /// One step: the next state and what to do, as `spec_launch` says.
    pub fn step(self, e: LaunchEvent) -> (r: (Launcher, LaunchAction))
        ensures
            r == spec_launch(self, e),
    {
        match (self, e) {
            (Launcher::Start, LaunchEvent::Configured { url }) => match url {
                Some(u) => {
                    proof {
                        reveal_strlit("");
                        assert(u@.len() == 0 ==> u@ =~= ""@);
                    }
                    if !str_eq(u.as_str(), "") {
                        let v = u.clone();
                        (Launcher::CheckingUrl { url: u }, LaunchAction::ProbeHealth { url: v })
                    } else {
                        (Launcher::ReadingPointer, LaunchAction::ReadPointer)
                    }
                },
                None => (Launcher::ReadingPointer, LaunchAction::ReadPointer),
            },
            (Launcher::CheckingUrl { url }, LaunchEvent::Probed { ok }) => if ok {
                (Launcher::Done, LaunchAction::UseUrl { url })
            } else {
                (Launcher::Done, LaunchAction::Unhealthy { url })
            },
            (Launcher::ReadingPointer, LaunchEvent::Pointer { origin }) => match origin {
                Some(o) => {
                    let v = o.clone();
                    (Launcher::CheckingPointer { origin: o }, LaunchAction::ProbeOrigin { origin: v })
                },
                None => (Launcher::Choosing { attempt: 0 }, LaunchAction::PickPort { preferred: true }),
            },
            (Launcher::CheckingPointer { origin }, LaunchEvent::Probed { ok }) => if ok {
                (Launcher::Done, LaunchAction::UseUrl { url: origin })
            } else {
                (Launcher::Choosing { attempt: 0 }, LaunchAction::PickPort { preferred: true })
            },
            (Launcher::Choosing { attempt }, LaunchEvent::PortChosen { port }) => (
                Launcher::Spawning { attempt, port },
                LaunchAction::Spawn { port },
            ),
            (Launcher::Spawning { attempt, port }, LaunchEvent::Spawned { pid }) => (
                Launcher::Probing { attempt, port, pid, polls: 0 },
                LaunchAction::ProbePort { port },
            ),
            (Launcher::Probing { attempt, port, pid, polls }, LaunchEvent::Probed { ok }) => if ok {
                (Launcher::Done, LaunchAction::Ready { port, pid })
            } else {
                (Launcher::Checking { attempt, port, pid, polls }, LaunchAction::CheckAlive { pid })
            },
            (Launcher::Checking { attempt, port, pid, polls }, LaunchEvent::Alive { alive }) => if alive {
                (Launcher::Waiting { attempt, port, pid, polls }, LaunchAction::Sleep)
            } else {
                (Launcher::Ending { attempt, port, pid }, LaunchAction::CheckAlive { pid })
            },
            (Launcher::Waiting { attempt, port, pid, polls }, LaunchEvent::Slept) => if polls < POLLS - 1 {
                (Launcher::Probing { attempt, port, pid, polls: polls + 1 }, LaunchAction::ProbePort { port })
            } else {
                (Launcher::Ending { attempt, port, pid }, LaunchAction::CheckAlive { pid })
            },
            (Launcher::Ending { attempt, port, pid }, LaunchEvent::Alive { alive }) => if alive {
                (Launcher::Stopping { attempt, port, pid }, LaunchAction::Stop { pid })
            } else {
                next_attempt(attempt, port)
            },
            (Launcher::Stopping { attempt, port, pid }, LaunchEvent::Stopped) => next_attempt(attempt, port),
            (s, _) => (s, LaunchAction::Nothing),
        }
    }
}

fn next_attempt(attempt: u32, port: u16) -> (r: (Launcher, LaunchAction))
    ensures
        r == after_attempt(attempt, port),
{
    if attempt < ATTEMPTS - 1 {
        (Launcher::Choosing { attempt: attempt + 1 }, LaunchAction::PickPort { preferred: false })
    } else {
        (Launcher::Done, LaunchAction::GiveUp { port })
    }
}

/// The failure when the configured daemon URL does not answer.
pub fn unhealthy_message(url: &str) -> (r: String)
    ensures
        r@ == "EXECUTOR_DAEMON_URL "@ + url@ + " is not healthy"@,
{
    let mut s = copy_str("EXECUTOR_DAEMON_URL ");
    push_str(&mut s, url);
    push_str(&mut s, " is not healthy");
    s
}

/// The failure when no spawned daemon answered; the last one tried was on `port`.
pub fn give_up_message(port: u16) -> (r: String)
    ensures
        r@ == "daemon did not become healthy at http://127.0.0.1:"@ + spec_decimal(port as nat),
{
    let mut s = copy_str("daemon did not become healthy at http://127.0.0.1:");
    let p = decimal(port as u64);
    push_str(&mut s, p.as_str());
    s
}

/// The pointer recorded for the daemon on loopback `port`, process `pid`.
pub fn loopback_pointer(port: u16, pid: u32) -> (r: DaemonPointer)
    ensures
        r.origin@ == "http://127.0.0.1:"@ + spec_decimal(port as nat),
        r.pid == pid,
{
    let mut s = copy_str("http://127.0.0.1:");
    let p = decimal(port as u64);
    push_str(&mut s, p.as_str());
    DaemonPointer { origin: s, pid }
}


/// The arguments a detached daemon is spawned with.
pub open spec fn spec_spawn_args(port: u16, hostname: Seq<char>, allowed: Seq<Seq<char>>) -> Seq<Seq<char>>
    decreases allowed.len(),
{
    if allowed.len() == 0 {
        seq!["daemon"@, "run"@, "--port"@, spec_decimal(port as nat), "--hostname"@, hostname, "--foreground"@]
    } else {
        spec_spawn_args(port, hostname, allowed.drop_last()) + seq!["--allowed-host"@, allowed.last()]
    }
}

/// `daemon run --port <port> --hostname <host> --foreground`, then `--allowed-host <h>` for
/// each extra host.
pub fn spawn_args(port: u16, hostname: &str, allowed: &Vec<String>) -> (r: Vec<String>)
    ensures
        r@.map_values(|s: String| s@) == spec_spawn_args(port, hostname@, allowed@.map_values(|s: String| s@)),
{
    let ghost av = allowed@.map_values(|s: String| s@);
    let mut out: Vec<String> = Vec::new();
    out.push(copy_str("daemon"));
    out.push(copy_str("run"));
    out.push(copy_str("--port"));
    out.push(decimal(port as u64));
    out.push(copy_str("--hostname"));
    out.push(copy_str(hostname));
    out.push(copy_str("--foreground"));
    assert(out@.map_values(|s: String| s@) =~= spec_spawn_args(port, hostname@, av.take(0)));
    let mut k: usize = 0;
    while k < allowed.len()
        invariant
            k <= allowed@.len(),
            av == allowed@.map_values(|s: String| s@),
            out@.map_values(|s: String| s@) == spec_spawn_args(port, hostname@, av.take(k as int)),
        decreases allowed.len() - k,
    {
        let ghost before = out@.map_values(|s: String| s@);
        out.push(copy_str("--allowed-host"));
        out.push(copy_str(allowed[k].as_str()));
        proof {
            assert(av.take(k + 1).drop_last() =~= av.take(k as int));
            assert(out@.map_values(|s: String| s@) =~= before + seq!["--allowed-host"@, allowed@[k as int]@]);
        }
        k += 1;
    }
    assert(av.take(av.len() as int) =~= av);
    out
}

} // verus!

verus! {

/// Two lower-case hex digits per byte, in order.
pub open spec fn spec_hex_bytes(b: Seq<u8>) -> Seq<char>
    decreases b.len(),
{
    if b.len() == 0 {
        Seq::empty()
    } else {
        spec_hex_bytes(b.drop_last()) + seq![
            crate::text::hex_digit_lower((b.last() / 16) as nat),
            crate::text::hex_digit_lower((b.last() % 16) as nat),
        ]
    }
}

/// A fresh control token from drawn random bytes: their lower-case hex.
pub fn auth_token_from(raw: &[u8]) -> (r: String)
    ensures
        r@ == spec_hex_bytes(raw@),
{
    let mut s = String::new();
    let mut i: usize = 0;
    while i < raw.len()
        invariant
            i <= raw.len(),
            s@ == spec_hex_bytes(raw@.take(i as int)),
        decreases raw.len() - i,
    {
        let b = raw[i];
        let hi = crate::text::hex_lower((b / 16) as u128);
        let lo = crate::text::hex_lower((b % 16) as u128);
        proof {
            assert(raw@.take(i as int + 1).drop_last() =~= raw@.take(i as int));
            assert(raw@.take(i as int + 1).last() == b);
        }
        push_str(&mut s, hi.as_str());
        push_str(&mut s, lo.as_str());
        i = i + 1;
    }
    assert(raw@.take(raw@.len() as int) =~= raw@);
    s
}

/// A fresh control token: the hex of 32 bytes from the random source, or `None` when the
/// source fails.
pub fn mint_auth_token() -> (r: Option<String>)
    ensures
        r matches Some(t) ==> exists|raw: Seq<u8>| raw.len() == 32 && t@ == spec_hex_bytes(raw),
{
    match crate::engine::oauth::random_bytes() {
        Some(raw) => Some(auth_token_from(raw.as_slice())),
        None => None,
    }
}

} // verus!
