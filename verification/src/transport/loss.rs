//! Simulated packet loss on the send side: a drop probability in percent
//! and the per-packet decision it drives.

use vstd::prelude::*;
use crate::control::pairing::random_u32;

verus! {

/// Highest drop probability, in percent.
pub const MAX_LOSS_PCT: u8 = 100;

/// The drop probability a requested one is stored as: at most 100.
pub fn clamp_loss_pct(pct: u8) -> (r: u8)
    ensures
        r == if pct > MAX_LOSS_PCT { MAX_LOSS_PCT } else { pct },
{
    if pct > MAX_LOSS_PCT {
        MAX_LOSS_PCT
    } else {
        pct
    }
}

/// Whether a packet is dropped under `pct` percent loss when the random
/// byte drawn for it is `roll`.
pub open spec fn drops_at(pct: u8, roll: u8) -> bool {
    pct > 0 && roll % 100 < pct
}

/// The decision for a given random byte.
pub fn drop_for_roll(pct: u8, roll: u8) -> (r: bool)
    ensures
        r == drops_at(pct, roll),
{
    pct > 0 && roll % 100 < pct
}

/// Whether to drop the next packet under `pct` percent loss, drawing a
/// uniformly random byte: never at 0, always from 100 on.
pub fn should_drop_packet(pct: u8) -> (r: bool)
    ensures
        exists|roll: u8| r == drops_at(pct, roll),
        pct == 0 ==> !r,
        pct >= MAX_LOSS_PCT ==> r,
{
    let roll = (random_u32() % 256) as u8;
    drop_for_roll(pct, roll)
}

} // verus!
