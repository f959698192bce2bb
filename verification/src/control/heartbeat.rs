//! Detecting a lost connection from missed heartbeats.

use vstd::prelude::*;
use std::sync::atomic::{AtomicBool, AtomicU64};
use std::sync::Arc;
use crate::metrics::latency::clock_us;
use crate::protocol::{le32, le64, push_le32, push_le64, HEARTBEAT_INTERVAL_MS, HEARTBEAT_MAX_MISSES, MSG_HEARTBEAT};

verus! {

/// Milliseconds without a heartbeat after which the link counts as lost.
pub open spec fn heartbeat_timeout_ms() -> nat {
    (HEARTBEAT_INTERVAL_MS * HEARTBEAT_MAX_MISSES) as nat
}

/// The link is alive at `now_ms` when the last heartbeat, at `last_ms`, is
/// at most the timeout old (a clock that went backwards counts as zero).
pub open spec fn heartbeat_alive_spec(last_ms: u64, now_ms: u64) -> bool {
    let elapsed: nat = if now_ms >= last_ms { (now_ms - last_ms) as nat } else { 0 };
    elapsed <= heartbeat_timeout_ms()
}

/// The 13-byte heartbeat: type, little-endian sequence, little-endian
/// send time in milliseconds.
pub open spec fn heartbeat_packet_spec(sequence: u32, now_ms: u64) -> Seq<u8> {
    seq![MSG_HEARTBEAT] + le32(sequence) + le64(now_ms)
}

/// Whether the link is alive at `now_ms` given the last heartbeat time.
pub fn heartbeat_alive(last_ms: u64, now_ms: u64) -> (r: bool)
    ensures
        r == heartbeat_alive_spec(last_ms, now_ms),
{
    let elapsed = now_ms.saturating_sub(last_ms);
    let timeout_ms = HEARTBEAT_INTERVAL_MS * (HEARTBEAT_MAX_MISSES as u64);
    elapsed <= timeout_ms
}

/// Build the heartbeat packet with `sequence` sent at `now_ms`.
pub fn heartbeat_packet(sequence: u32, now_ms: u64) -> (r: Vec<u8>)
    ensures
        r@ == heartbeat_packet_spec(sequence, now_ms),
{
    let mut buf: Vec<u8> = Vec::with_capacity(13);
    buf.push(MSG_HEARTBEAT);
    push_le32(&mut buf, sequence);
    push_le64(&mut buf, now_ms);
    assert(buf@ =~= heartbeat_packet_spec(sequence, now_ms));
    buf
}

/// Whole milliseconds in `us` microseconds.
pub open spec fn whole_millis(us: u64) -> u64 {
    us / 1000
}

/// Milliseconds since the Unix epoch from the system clock (0 for a clock
/// before the epoch): the microsecond reading, in whole milliseconds.
fn epoch_millis() -> (r: u64)
    ensures
        exists|us: u64| r == #[trigger] whole_millis(us),
{
    let us = clock_us();
    assert(us / 1000 == whole_millis(us));
    us / 1000
}

/// `AtomicU64::load`, relaxed.
fn load_u64(a: &AtomicU64) -> u64 {
    a.load(std::sync::atomic::Ordering::Relaxed)
}

/// `AtomicU64::store`, relaxed.
fn store_u64(a: &AtomicU64, v: u64) {
    a.store(v, std::sync::atomic::Ordering::Relaxed)
}

/// `AtomicBool::load`, relaxed.
fn load_bool(a: &AtomicBool) -> bool {
    a.load(std::sync::atomic::Ordering::Relaxed)
}

/// `AtomicBool::store`, relaxed.
fn store_bool(a: &AtomicBool, v: bool) {
    a.store(v, std::sync::atomic::Ordering::Relaxed)
}

/// `Arc::clone`: another handle on the same allocation, so the same shared
/// value.
#[verifier::external_body]
pub(crate) fn share<T>(a: &Arc<T>) -> (r: Arc<T>)
    ensures
        r == *a,
{
    Arc::clone(a)
}

/// Heartbeat monitor. The last heartbeat time and the connected flag are
/// shared with other tasks, so what they hold is read anew at each call.
pub struct HeartbeatMonitor {
    last_received: Arc<AtomicU64>,
    connected: Arc<AtomicBool>,
    sequence: u32,
}

impl HeartbeatMonitor {
    pub closed spec fn sequence_spec(&self) -> u32 {
        self.sequence
    }

    /// The shared cell holding the last heartbeat time.
    pub closed spec fn last_received_cell(&self) -> Arc<AtomicU64> {
        self.last_received
    }

    /// The shared cell holding the connected flag.
    pub closed spec fn connected_cell(&self) -> Arc<AtomicBool> {
        self.connected
    }

    /// A monitor that counts the link as alive from `now_ms`.
    pub fn new_at(now_ms: u64) -> (r: Self)
        ensures
            r.sequence_spec() == 0,
    {
        HeartbeatMonitor {
            last_received: Arc::new(AtomicU64::new(now_ms)),
            connected: Arc::new(AtomicBool::new(true)),
            sequence: 0,
        }
    }

    /// A monitor that counts the link as alive from now.
    pub fn new() -> (r: Self)
        ensures
            r.sequence_spec() == 0,
    {
        Self::new_at(epoch_millis())
    }

    /// Record a heartbeat received at `now_ms`.
    pub fn on_heartbeat_received_at(&self, now_ms: u64) {
        store_u64(&self.last_received, now_ms);
        store_bool(&self.connected, true);
    }

    /// Record a heartbeat received now.
    pub fn on_heartbeat_received(&self) {
        self.on_heartbeat_received_at(epoch_millis());
    }

    /// Whether the link is still alive at `now_ms`, by `heartbeat_alive_spec`
    /// of the last heartbeat time the shared cell holds when read (other
    /// handles may write it); a dead link also clears the connected flag.
    pub fn check_at(&self, now_ms: u64) -> (r: bool)
        ensures
            exists|last_ms: u64| r == heartbeat_alive_spec(last_ms, now_ms),
    {
        let last = load_u64(&self.last_received);
        let alive = heartbeat_alive(last, now_ms);
        if !alive {
            store_bool(&self.connected, false);
        }
        alive
    }

    /// Whether the link is still alive now.
    pub fn check(&self) -> bool {
        self.check_at(epoch_millis())
    }

    pub fn is_connected(&self) -> bool {
        load_bool(&self.connected)
    }

    /// The next heartbeat packet, sent at `now_ms`; the sequence advances
    /// (wrapping).
    pub fn make_heartbeat_packet_at(&mut self, now_ms: u64) -> (r: Vec<u8>)
        ensures
            r@ == heartbeat_packet_spec(old(self).sequence_spec(), now_ms),
            final(self).sequence_spec() == (old(self).sequence_spec() + 1) % 0x1_0000_0000,
    {
        let pkt = heartbeat_packet(self.sequence, now_ms);
        self.sequence = self.sequence.wrapping_add(1);
        pkt
    }

    /// The next heartbeat packet, stamped with the current time.
    pub fn make_heartbeat_packet(&mut self) -> (r: Vec<u8>)
        ensures
            exists|now_ms: u64| r@ == heartbeat_packet_spec(old(self).sequence_spec(), now_ms),
            final(self).sequence_spec() == (old(self).sequence_spec() + 1) % 0x1_0000_0000,
    {
        let now = epoch_millis();
        self.make_heartbeat_packet_at(now)
    }

    /// A handle on the shared last-heartbeat time.
    pub fn last_received_clone(&self) -> (r: Arc<AtomicU64>)
        ensures
            r == self.last_received_cell(),
    {
        share(&self.last_received)
    }

    /// A handle on the shared connected flag.
    pub fn connected_clone(&self) -> (r: Arc<AtomicBool>)
        ensures
            r == self.connected_cell(),
    {
        share(&self.connected)
    }
}

} // verus!
