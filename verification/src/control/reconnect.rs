//! The accept → session → hold → accept loop's counters: accept failures,
//! which stop the engine past a hard cap, and mid-stream reconnections,
//! which only raise a warning past a soft cap.

use vstd::prelude::*;
use std::time::Duration;
use crate::control::session::DisconnectReason;

verus! {

/// Consecutive accept failures tolerated; one more stops the engine.
pub const MAX_ACCEPT_FAILURES: u32 = 5;

/// Reconnections after which a flaky-link warning is due.
pub const MAX_RECONNECT_ATTEMPTS: u32 = 10;

/// Backoff doubles up to `2^BACKOFF_MAX_SHIFT` times the one-second base.
pub const BACKOFF_MAX_SHIFT: u32 = 4;

/// `x + 1`, saturating at `u32::MAX`.
pub open spec fn saturating_inc(x: u32) -> u32 {
    if x == u32::MAX {
        x
    } else {
        (x + 1) as u32
    }
}

pub open spec fn pow2(n: nat) -> nat
    decreases n,
{
    if n == 0 {
        1
    } else {
        2 * pow2((n - 1) as nat)
    }
}

/// Backoff before the next accept after `failures` failures: none without
/// failures, then 1, 2, 4, 8 and 16 seconds, staying at 16.
pub open spec fn backoff_secs_spec(failures: u32) -> Option<u64> {
    if failures == 0 {
        None
    } else {
        let shift = if failures - 1 < BACKOFF_MAX_SHIFT { (failures - 1) as nat } else { BACKOFF_MAX_SHIFT as nat };
        Some(pow2(shift) as u64)
    }
}

/// The `Duration` of `secs` whole seconds, as `Duration::from_secs` makes it.
pub uninterp spec fn duration_of_secs(secs: u64) -> Duration;

/// `Duration::from_secs`: a span of exactly `secs` seconds; it depends on
/// `secs` alone.
#[verifier::external_body]
fn duration_from_secs(secs: u64) -> (r: Duration)
    ensures
        r == duration_of_secs(secs),
{
    Duration::from_secs(secs)
}

/// The two counters of the reconnect loop. Accept failures gate stopping
/// the engine; reconnect attempts only gate a warning, so a long Wi-Fi
/// outage never stops it.
#[derive(Debug, Default)]
pub struct ReconnectState {
    accept_failures: u32,
    reconnect_attempts: u32,
}

impl ReconnectState {
    pub closed spec fn failures_spec(&self) -> u32 {
        self.accept_failures
    }

    pub closed spec fn attempts_spec(&self) -> u32 {
        self.reconnect_attempts
    }

    pub fn new() -> (r: Self)
        ensures
            r.failures_spec() == 0,
            r.attempts_spec() == 0,
    {
        ReconnectState { accept_failures: 0, reconnect_attempts: 0 }
    }

    pub fn accept_failures(&self) -> (r: u32)
        ensures
            r == self.failures_spec(),
    {
        self.accept_failures
    }

    pub fn reconnect_attempts(&self) -> (r: u32)
        ensures
            r == self.attempts_spec(),
    {
        self.reconnect_attempts
    }

    /// The listener failed to accept outside a hold window.
    pub fn record_accept_failure(&mut self)
        ensures
            final(self).failures_spec() == saturating_inc(old(self).failures_spec()),
            final(self).attempts_spec() == old(self).attempts_spec(),
    {
        self.accept_failures = self.accept_failures.saturating_add(1);
    }

    /// The listener accepted: earlier transient failures no longer count.
    pub fn record_accept_success(&mut self)
        ensures
            final(self).failures_spec() == 0,
            final(self).attempts_spec() == old(self).attempts_spec(),
    {
        self.accept_failures = 0;
    }

    /// The client disconnected cleanly: both counters reset.
    pub fn record_clean_disconnect(&mut self)
        ensures
            final(self).failures_spec() == 0,
            final(self).attempts_spec() == 0,
    {
        self.accept_failures = 0;
        self.reconnect_attempts = 0;
    }

    /// The link dropped mid-stream: a reconnect attempt, never an accept
    /// failure.
    pub fn record_connection_lost(&mut self)
        ensures
            final(self).failures_spec() == old(self).failures_spec(),
            final(self).attempts_spec() == saturating_inc(old(self).attempts_spec()),
    {
        self.reconnect_attempts = self.reconnect_attempts.saturating_add(1);
    }

    /// A protocol error ended the session: counted as a reconnect attempt.
    pub fn record_protocol_error(&mut self)
        ensures
            final(self).failures_spec() == old(self).failures_spec(),
            final(self).attempts_spec() == saturating_inc(old(self).attempts_spec()),
    {
        self.reconnect_attempts = self.reconnect_attempts.saturating_add(1);
    }

    /// Accepting failed inside the hold window after a lost connection:
    /// an accept failure.
    pub fn record_hold_accept_failure(&mut self)
        ensures
            final(self).failures_spec() == saturating_inc(old(self).failures_spec()),
            final(self).attempts_spec() == old(self).attempts_spec(),
    {
        self.accept_failures = self.accept_failures.saturating_add(1);
    }

    /// Count how a session ended: a lost connection or a protocol error is
    /// a reconnect attempt, a clean disconnect resets both counters. True
    /// when the hold window for a quick reconnection applies (a lost
    /// connection only).
    pub fn record_session_end(&mut self, reason: DisconnectReason) -> (hold: bool)
        ensures
            hold == (reason == DisconnectReason::ConnectionLost),
            reason == DisconnectReason::ClientRequested ==> final(self).failures_spec() == 0
                && final(self).attempts_spec() == 0,
            reason != DisconnectReason::ClientRequested ==> final(self).failures_spec() == old(self).failures_spec()
                && final(self).attempts_spec() == saturating_inc(old(self).attempts_spec()),
    {
        match reason {
            DisconnectReason::ConnectionLost => {
                self.record_connection_lost();
                true
            },
            DisconnectReason::ClientRequested => {
                self.record_clean_disconnect();
                false
            },
            DisconnectReason::ProtocolError => {
                self.record_protocol_error();
                false
            },
        }
    }

    /// The engine stops only past `MAX_ACCEPT_FAILURES` accept failures,
    /// whatever the reconnect attempts.
    pub fn should_stop_engine(&self) -> (r: bool)
        ensures
            r == (self.failures_spec() > MAX_ACCEPT_FAILURES),
    {
        self.accept_failures > MAX_ACCEPT_FAILURES
    }

    /// A flaky-link warning is due past `MAX_RECONNECT_ATTEMPTS`.
    pub fn is_reconnect_warning_due(&self) -> (r: bool)
        ensures
            r == (self.attempts_spec() > MAX_RECONNECT_ATTEMPTS),
    {
        self.reconnect_attempts > MAX_RECONNECT_ATTEMPTS
    }

    /// Seconds to wait before the next accept (see `backoff_secs_spec`).
    pub fn next_backoff_secs(&self) -> (r: Option<u64>)
        ensures
            r == backoff_secs_spec(self.failures_spec()),
            r matches Some(s) ==> 1 <= s <= 16,
    {
        if self.accept_failures == 0 {
            return None;
        }
        let f = self.accept_failures - 1;
        let shift: u32 = if f < BACKOFF_MAX_SHIFT {
            f
        } else {
            BACKOFF_MAX_SHIFT
        };
        let mut secs: u64 = 1;
        let mut i: u32 = 0;
        while i < shift
            invariant
                i <= shift <= BACKOFF_MAX_SHIFT,
                secs == pow2(i as nat),
                secs <= 16,
            decreases shift - i,
        {
            proof {
                reveal_with_fuel(pow2, 5);
            }
            secs = secs * 2;
            i = i + 1;
        }
        proof {
            reveal_with_fuel(pow2, 5);
        }
        Some(secs)
    }

    /// The backoff before the next accept, `None` when nothing failed.
    pub fn next_backoff(&self) -> (r: Option<Duration>)
        ensures
            r is Some <==> self.failures_spec() > 0,
            r matches Some(d) ==> d == duration_of_secs(backoff_secs_spec(self.failures_spec())->0),
    {
        match self.next_backoff_secs() {
            Some(secs) => Some(duration_from_secs(secs)),
            None => None,
        }
    }
}

} // verus!
