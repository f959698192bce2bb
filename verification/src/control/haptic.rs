//! The HAPTIC_EVENT payload sent to the headset: controller, duration,
//! frequency and amplitude. The two floats travel as their IEEE-754 bits.

use vstd::prelude::*;
use crate::protocol::{le16, le16_at, le32, le32_at, lemma_le16_roundtrip, lemma_le32_roundtrip, push_le16, push_le32, read_le16, read_le32};

verus! {

/// Bytes in a haptic payload.
pub const HAPTIC_PAYLOAD_LEN: usize = 11;

/// A haptic event as it travels: controller (0 left, 1 right), duration in
/// ms, and the bits of the frequency (Hz) and amplitude (0-1) floats.
#[derive(Debug, Clone, Copy, PartialEq, Eq, Structural)]
pub struct HapticWire {
    pub controller_id: u8,
    pub duration_ms: u16,
    pub frequency_bits: u32,
    pub amplitude_bits: u32,
}

/// `[controller][duration u16 LE][frequency f32 LE][amplitude f32 LE]`.
pub open spec fn haptic_payload_spec(e: HapticWire) -> Seq<u8> {
    seq![e.controller_id] + le16(e.duration_ms) + le32(e.frequency_bits) + le32(e.amplitude_bits)
}

/// The event in the first 11 bytes of a payload, if it is that long.
pub open spec fn haptic_from_spec(p: Seq<u8>) -> Option<HapticWire> {
    if p.len() < HAPTIC_PAYLOAD_LEN {
        None
    } else {
        Some(
            HapticWire {
                controller_id: p[0],
                duration_ms: le16_at(p, 1),
                frequency_bits: le32_at(p, 3),
                amplitude_bits: le32_at(p, 7),
            },
        )
    }
}

pub fn haptic_to_payload(e: &HapticWire) -> (r: Vec<u8>)
    ensures
        r@ == haptic_payload_spec(*e),
        r@.len() == HAPTIC_PAYLOAD_LEN,
{
    let mut p: Vec<u8> = Vec::with_capacity(11);
    p.push(e.controller_id);
    push_le16(&mut p, e.duration_ms);
    push_le32(&mut p, e.frequency_bits);
    push_le32(&mut p, e.amplitude_bits);
    assert(p@ =~= haptic_payload_spec(*e));
    p
}

pub fn haptic_from_payload(data: &[u8]) -> (r: Option<HapticWire>)
    ensures
        r == haptic_from_spec(data@),
{
    if data.len() < HAPTIC_PAYLOAD_LEN {
        return None;
    }
    Some(
        HapticWire {
            controller_id: data[0],
            duration_ms: read_le16(data, 1),
            frequency_bits: read_le32(data, 3),
            amplitude_bits: read_le32(data, 7),
        },
    )
}

/// A haptic event read back from its payload is the event sent.
pub proof fn lemma_haptic_roundtrip(e: HapticWire)
    ensures
        haptic_from_spec(haptic_payload_spec(e)) == Some(e),
{
    let p = haptic_payload_spec(e);
    assert(p.subrange(1, 3) =~= le16(e.duration_ms));
    assert(p.subrange(3, 7) =~= le32(e.frequency_bits));
    assert(p.subrange(7, 11) =~= le32(e.amplitude_bits));
    lemma_le16_roundtrip(e.duration_ms, p, 1);
    lemma_le32_roundtrip(e.frequency_bits, p, 3);
    lemma_le32_roundtrip(e.amplitude_bits, p, 7);
}

} // verus!
