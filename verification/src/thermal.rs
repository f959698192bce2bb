//! GPU temperature sources and the temperature zones of thermal governing.

use vstd::prelude::*;
use std::sync::atomic::AtomicU32;
use std::sync::Arc;
use crate::control::heartbeat::share;

verus! {

/// A GPU temperature source; `None` when a reading is momentarily
/// unavailable.
pub trait GpuThermalSource: Send + Sync {
    fn temperature_celsius(&self) -> Option<u32>;
}

/// `AtomicU32::load`, relaxed.
fn load_u32(a: &AtomicU32) -> u32 {
    a.load(std::sync::atomic::Ordering::Relaxed)
}

/// `AtomicU32::store`, relaxed.
fn store_u32(a: &AtomicU32, v: u32) {
    a.store(v, std::sync::atomic::Ordering::Relaxed)
}

/// A settable temperature source; every handle made by `clone_handle`
/// reads and sets the same temperature.
#[derive(Clone)]
pub struct MockGpuThermalSource {
    temp: Arc<AtomicU32>,
}

impl MockGpuThermalSource {
    pub fn new(initial_celsius: u32) -> Self {
        MockGpuThermalSource { temp: Arc::new(AtomicU32::new(initial_celsius)) }
    }

    pub fn set_temperature(&self, celsius: u32) {
        store_u32(&self.temp, celsius);
    }

    /// A second handle on the same temperature.
    pub fn clone_handle(&self) -> (r: Self)
        ensures
            r == *self,
    {
        MockGpuThermalSource { temp: share(&self.temp) }
    }
}

impl GpuThermalSource for MockGpuThermalSource {
    fn temperature_celsius(&self) -> (r: Option<u32>)
        ensures
            r is Some,
    {
        Some(load_u32(&self.temp))
    }
}

/// Temperature zones, hottest first.
#[derive(Debug, Clone, Copy, PartialEq, Eq, Structural)]
pub enum ThermalZone {
    /// At or above the emergency threshold: bitrate capped hardest.
    Emergency,
    /// At or above the limit threshold: bitrate capped.
    Limit,
    /// At or above the warning threshold: the current cap holds.
    Warn,
    /// Below the warning threshold: any cap recovers.
    Normal,
}

pub open spec fn thermal_zone_spec(temp: u32, warn: u32, limit: u32, emergency: u32) -> ThermalZone {
    if temp >= emergency {
        ThermalZone::Emergency
    } else if temp >= limit {
        ThermalZone::Limit
    } else if temp >= warn {
        ThermalZone::Warn
    } else {
        ThermalZone::Normal
    }
}

/// The zone of a temperature, the hottest threshold it reaches deciding.
pub fn thermal_zone(temp: u32, warn: u32, limit: u32, emergency: u32) -> (r: ThermalZone)
    ensures
        r == thermal_zone_spec(temp, warn, limit, emergency),
{
    if temp >= emergency {
        ThermalZone::Emergency
    } else if temp >= limit {
        ThermalZone::Limit
    } else if temp >= warn {
        ThermalZone::Warn
    } else {
        ThermalZone::Normal
    }
}

/// Whether a poll is due at `now_us` after the last one, at least
/// `interval_secs` before (always, before the first poll).
pub open spec fn poll_due_spec(last_poll_us: Option<u64>, now_us: u64, interval_secs: u32) -> bool {
    match last_poll_us {
        None => true,
        Some(p) => (if now_us >= p { now_us - p } else { 0 }) >= interval_secs * 1_000_000,
    }
}

pub fn poll_due(last_poll_us: Option<u64>, now_us: u64, interval_secs: u32) -> (r: bool)
    ensures
        r == poll_due_spec(last_poll_us, now_us, interval_secs),
{
    match last_poll_us {
        None => true,
        Some(p) => now_us.saturating_sub(p) >= (interval_secs as u64) * 1_000_000,
    }
}

} // verus!
