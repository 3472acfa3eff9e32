//! Process metrics. Implementations must be wait-free on the hot path.

use vstd::prelude::*;
use crate::text::str_eq;

verus! {

/// Successful executes.
pub const EXECUTE_OK: &'static str = "executor.execute.ok";
/// Failed executes (domain or infra).
pub const EXECUTE_ERR: &'static str = "executor.execute.err";
/// Overload rejections.
pub const EXECUTE_OVERLOAD: &'static str = "executor.execute.overload";
/// Timeouts.
pub const EXECUTE_TIMEOUT: &'static str = "executor.execute.timeout";
/// Cancellations.
pub const EXECUTE_CANCEL: &'static str = "executor.execute.cancel";
/// Current in-flight executes (gauge).
pub const IN_FLIGHT: &'static str = "executor.execute.in_flight";
/// Execute latency samples.
pub const EXECUTE_MS: &'static str = "executor.execute.ms";

/// Counters an exporter can scrape. Recording takes the sink mutably, so what it holds
/// after each call is known; a sink shared between threads sits behind the caller's lock.
pub trait Metrics {
    /// Add `delta` to a named counter.
    fn counter(&mut self, name: &'static str, delta: u64);
    /// Set a named gauge.
    fn gauge(&mut self, name: &'static str, value: i64);
    /// Record a latency sample in milliseconds.
    fn observe_ms(&mut self, name: &'static str, ms: u64);
}

/// No-op sink. Default so a library user is not forced to pick an exporter.
#[derive(Clone, Copy, Debug, Default)]
pub struct NoopMetrics;

impl Metrics for NoopMetrics {
    fn counter(&mut self, _name: &'static str, _delta: u64) {
    }

    fn gauge(&mut self, _name: &'static str, _value: i64) {
    }

    fn observe_ms(&mut self, _name: &'static str, _ms: u64) {
    }
}

/// The built-in counters.
#[derive(Clone, Copy, Debug, PartialEq, Eq, Structural)]
pub enum CounterSlot {
    /// `executor.execute.ok`.
    Succeeded,
    /// `executor.execute.err`.
    Failed,
    /// `executor.execute.overload`.
    Overload,
    /// `executor.execute.timeout`.
    Timeout,
    /// `executor.execute.cancel`.
    Cancel,
}

/// The counter a name feeds, if it is one of the built-in ones.
pub open spec fn spec_counter_slot(name: Seq<char>) -> Option<CounterSlot> {
    if name == EXECUTE_OK@ {
        Some(CounterSlot::Succeeded)
    } else if name == EXECUTE_ERR@ {
        Some(CounterSlot::Failed)
    } else if name == EXECUTE_OVERLOAD@ {
        Some(CounterSlot::Overload)
    } else if name == EXECUTE_TIMEOUT@ {
        Some(CounterSlot::Timeout)
    } else if name == EXECUTE_CANCEL@ {
        Some(CounterSlot::Cancel)
    } else {
        None
    }
}

/// The counter a name feeds, if it is one of the built-in ones.
pub fn counter_slot(name: &str) -> (r: Option<CounterSlot>)
    ensures
        r == spec_counter_slot(name@),
{
    if str_eq(name, EXECUTE_OK) {
        Some(CounterSlot::Succeeded)
    } else if str_eq(name, EXECUTE_ERR) {
        Some(CounterSlot::Failed)
    } else if str_eq(name, EXECUTE_OVERLOAD) {
        Some(CounterSlot::Overload)
    } else if str_eq(name, EXECUTE_TIMEOUT) {
        Some(CounterSlot::Timeout)
    } else if str_eq(name, EXECUTE_CANCEL) {
        Some(CounterSlot::Cancel)
    } else {
        None
    }
}

/// Value a gauge stores: negative readings clamp to zero.
pub fn gauge_value(value: i64) -> (r: u64)
    ensures
        r == (if value < 0 { 0 } else { value as u64 }),
{
    if value < 0 {
        0
    } else {
        value as u64
    }
}

/// Point-in-time view of [`AtomicMetrics`].
#[derive(Clone, Copy, Debug, PartialEq, Eq, Default)]
pub struct MetricsSnapshot {
    /// Completed executes.
    pub execute_ok: u64,
    /// Failed executes (not overload/timeout/cancel).
    pub execute_err: u64,
    /// Overload rejections.
    pub execute_overload: u64,
    /// Timeouts.
    pub execute_timeout: u64,
    /// Cancellations.
    pub execute_cancel: u64,
    /// In-flight now.
    pub in_flight: u64,
    /// Last execute latency in ms.
    pub last_execute_ms: u64,
}

/// Every reading zero.
pub open spec fn zero_snapshot() -> MetricsSnapshot {
    MetricsSnapshot {
        execute_ok: 0,
        execute_err: 0,
        execute_overload: 0,
        execute_timeout: 0,
        execute_cancel: 0,
        in_flight: 0,
        last_execute_ms: 0,
    }
}

/// The readings after adding `delta` (wrapping, as an atomic add does) to the counter a
/// name feeds; unchanged for any other name.
pub open spec fn counted(s: MetricsSnapshot, slot: Option<CounterSlot>, delta: u64) -> MetricsSnapshot {
    match slot {
        Some(CounterSlot::Succeeded) => MetricsSnapshot { execute_ok: s.execute_ok.wrapping_add(delta), ..s },
        Some(CounterSlot::Failed) => MetricsSnapshot { execute_err: s.execute_err.wrapping_add(delta), ..s },
        Some(CounterSlot::Overload) => MetricsSnapshot {
            execute_overload: s.execute_overload.wrapping_add(delta),
            ..s
        },
        Some(CounterSlot::Timeout) => MetricsSnapshot {
            execute_timeout: s.execute_timeout.wrapping_add(delta),
            ..s
        },
        Some(CounterSlot::Cancel) => MetricsSnapshot { execute_cancel: s.execute_cancel.wrapping_add(delta), ..s },
        None => s,
    }
}

/// Counters for a single process (and tests).
#[derive(Debug, Default)]
pub struct AtomicMetrics {
    readings: MetricsSnapshot,
}

impl View for AtomicMetrics {
    type V = MetricsSnapshot;

    closed spec fn view(&self) -> MetricsSnapshot {
        self.readings
    }
}

impl AtomicMetrics {
    /// Empty counters.
    pub fn new() -> (r: Self)
        ensures
            r@ == zero_snapshot(),
    {
        AtomicMetrics {
            readings: MetricsSnapshot {
                execute_ok: 0,
                execute_err: 0,
                execute_overload: 0,
                execute_timeout: 0,
                execute_cancel: 0,
                in_flight: 0,
                last_execute_ms: 0,
            },
        }
    }

    /// Snapshot for tests / `/metrics` JSON: the current readings.
    pub fn snapshot(&self) -> (r: MetricsSnapshot)
        ensures
            r == self@,
    {
        self.readings
    }
}

impl Metrics for AtomicMetrics {
    fn counter(&mut self, name: &'static str, delta: u64)
        ensures
            final(self)@ == counted(old(self)@, spec_counter_slot(name@), delta),
    {
        let r = &mut self.readings;
        match counter_slot(name) {
            Some(CounterSlot::Succeeded) => r.execute_ok = r.execute_ok.wrapping_add(delta),
            Some(CounterSlot::Failed) => r.execute_err = r.execute_err.wrapping_add(delta),
            Some(CounterSlot::Overload) => r.execute_overload = r.execute_overload.wrapping_add(delta),
            Some(CounterSlot::Timeout) => r.execute_timeout = r.execute_timeout.wrapping_add(delta),
            Some(CounterSlot::Cancel) => r.execute_cancel = r.execute_cancel.wrapping_add(delta),
            None => {},
        }
    }

    fn gauge(&mut self, name: &'static str, value: i64)
        ensures
            final(self)@ == (if name@ == IN_FLIGHT@ {
                MetricsSnapshot { in_flight: (if value < 0 { 0 } else { value as u64 }), ..old(self)@ }
            } else {
                old(self)@
            }),
    {
        if str_eq(name, IN_FLIGHT) {
            self.readings.in_flight = gauge_value(value);
        }
    }

    fn observe_ms(&mut self, name: &'static str, ms: u64)
        ensures
            final(self)@ == (if name@ == EXECUTE_MS@ {
                MetricsSnapshot { last_execute_ms: ms, ..old(self)@ }
            } else {
                old(self)@
            }),
    {
        if str_eq(name, EXECUTE_MS) {
            self.readings.last_execute_ms = ms;
        }
    }
}

} // verus!
