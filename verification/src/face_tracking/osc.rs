//! VRChat OSC parameters from the headset's facial expressions: the
//! expression names, the face data wire format, and the OSC message bytes.
//! Values travel as the bit patterns of their 32-bit floats.

use vstd::prelude::*;
use crate::protocol::{be32, le32_at, push_be32, read_le32};

verus! {

/// Lip expressions, in the order of the headset's lip expression enum.
pub const LIP_COUNT: usize = 37;

/// Eye expressions, in the order of the headset's eye expression enum.
pub const EYE_COUNT: usize = 14;

/// Bytes of a face data payload: two validity flags, then 37 lip and 14 eye
/// values of four bytes each.
pub const FACE_DATA_LEN: usize = 206;

pub open spec fn lip_name_spec(i: int) -> Seq<char> {
    if i == 0 {
        "JawRight"@
    } else if i == 1 {
        "JawLeft"@
    } else if i == 2 {
        "JawForward"@
    } else if i == 3 {
        "JawOpen"@
    } else if i == 4 {
        "MouthApeShape"@
    } else if i == 5 {
        "MouthUpperRight"@
    } else if i == 6 {
        "MouthUpperLeft"@
    } else if i == 7 {
        "MouthLowerRight"@
    } else if i == 8 {
        "MouthLowerLeft"@
    } else if i == 9 {
        "MouthUpperOverturn"@
    } else if i == 10 {
        "MouthLowerOverturn"@
    } else if i == 11 {
        "MouthPout"@
    } else if i == 12 {
        "MouthSmileRight"@
    } else if i == 13 {
        "MouthSmileLeft"@
    } else if i == 14 {
        "MouthSadRight"@
    } else if i == 15 {
        "MouthSadLeft"@
    } else if i == 16 {
        "CheekPuffRight"@
    } else if i == 17 {
        "CheekPuffLeft"@
    } else if i == 18 {
        "CheekSuck"@
    } else if i == 19 {
        "MouthUpperUpRight"@
    } else if i == 20 {
        "MouthUpperUpLeft"@
    } else if i == 21 {
        "MouthLowerDownRight"@
    } else if i == 22 {
        "MouthLowerDownLeft"@
    } else if i == 23 {
        "MouthUpperInside"@
    } else if i == 24 {
        "MouthLowerInside"@
    } else if i == 25 {
        "MouthLowerOverlay"@
    } else if i == 26 {
        "TongueLongStep1"@
    } else if i == 27 {
        "TongueLongStep2"@
    } else if i == 28 {
        "TongueDown"@
    } else if i == 29 {
        "TongueUp"@
    } else if i == 30 {
        "TongueRight"@
    } else if i == 31 {
        "TongueLeft"@
    } else if i == 32 {
        "TongueRoll"@
    } else if i == 33 {
        "TongueUpLeftMorph"@
    } else if i == 34 {
        "TongueUpRightMorph"@
    } else if i == 35 {
        "TongueDownLeftMorph"@
    } else {
        "TongueDownRightMorph"@
    }
}

pub open spec fn eye_name_spec(i: int) -> Seq<char> {
    if i == 0 {
        "EyeLeftBlink"@
    } else if i == 1 {
        "EyeLeftWide"@
    } else if i == 2 {
        "EyeLeftRight"@
    } else if i == 3 {
        "EyeLeftLeft"@
    } else if i == 4 {
        "EyeLeftUp"@
    } else if i == 5 {
        "EyeLeftDown"@
    } else if i == 6 {
        "EyeRightBlink"@
    } else if i == 7 {
        "EyeRightWide"@
    } else if i == 8 {
        "EyeRightRight"@
    } else if i == 9 {
        "EyeRightLeft"@
    } else if i == 10 {
        "EyeRightUp"@
    } else if i == 11 {
        "EyeRightDown"@
    } else if i == 12 {
        "EyeLeftSqueeze"@
    } else {
        "EyeRightSqueeze"@
    }
}

/// The name of lip expression `i`.
pub fn lip_name(i: usize) -> (r: &'static str)
    requires
        i < LIP_COUNT,
    ensures
        r@ == lip_name_spec(i as int),
{
    if i == 0 {
        "JawRight"
    } else if i == 1 {
        "JawLeft"
    } else if i == 2 {
        "JawForward"
    } else if i == 3 {
        "JawOpen"
    } else if i == 4 {
        "MouthApeShape"
    } else if i == 5 {
        "MouthUpperRight"
    } else if i == 6 {
        "MouthUpperLeft"
    } else if i == 7 {
        "MouthLowerRight"
    } else if i == 8 {
        "MouthLowerLeft"
    } else if i == 9 {
        "MouthUpperOverturn"
    } else if i == 10 {
        "MouthLowerOverturn"
    } else if i == 11 {
        "MouthPout"
    } else if i == 12 {
        "MouthSmileRight"
    } else if i == 13 {
        "MouthSmileLeft"
    } else if i == 14 {
        "MouthSadRight"
    } else if i == 15 {
        "MouthSadLeft"
    } else if i == 16 {
        "CheekPuffRight"
    } else if i == 17 {
        "CheekPuffLeft"
    } else if i == 18 {
        "CheekSuck"
    } else if i == 19 {
        "MouthUpperUpRight"
    } else if i == 20 {
        "MouthUpperUpLeft"
    } else if i == 21 {
        "MouthLowerDownRight"
    } else if i == 22 {
        "MouthLowerDownLeft"
    } else if i == 23 {
        "MouthUpperInside"
    } else if i == 24 {
        "MouthLowerInside"
    } else if i == 25 {
        "MouthLowerOverlay"
    } else if i == 26 {
        "TongueLongStep1"
    } else if i == 27 {
        "TongueLongStep2"
    } else if i == 28 {
        "TongueDown"
    } else if i == 29 {
        "TongueUp"
    } else if i == 30 {
        "TongueRight"
    } else if i == 31 {
        "TongueLeft"
    } else if i == 32 {
        "TongueRoll"
    } else if i == 33 {
        "TongueUpLeftMorph"
    } else if i == 34 {
        "TongueUpRightMorph"
    } else if i == 35 {
        "TongueDownLeftMorph"
    } else {
        "TongueDownRightMorph"
    }
}

/// The name of eye expression `i`.
pub fn eye_name(i: usize) -> (r: &'static str)
    requires
        i < EYE_COUNT,
    ensures
        r@ == eye_name_spec(i as int),
{
    if i == 0 {
        "EyeLeftBlink"
    } else if i == 1 {
        "EyeLeftWide"
    } else if i == 2 {
        "EyeLeftRight"
    } else if i == 3 {
        "EyeLeftLeft"
    } else if i == 4 {
        "EyeLeftUp"
    } else if i == 5 {
        "EyeLeftDown"
    } else if i == 6 {
        "EyeRightBlink"
    } else if i == 7 {
        "EyeRightWide"
    } else if i == 8 {
        "EyeRightRight"
    } else if i == 9 {
        "EyeRightLeft"
    } else if i == 10 {
        "EyeRightUp"
    } else if i == 11 {
        "EyeRightDown"
    } else if i == 12 {
        "EyeLeftSqueeze"
    } else {
        "EyeRightSqueeze"
    }
}

/// All lip expression names, in order.
pub fn lip_names() -> (r: Vec<&'static str>)
    ensures
        r@.len() == LIP_COUNT,
        forall|i: int| 0 <= i < LIP_COUNT ==> (#[trigger] r@[i])@ == lip_name_spec(i),
{
    let mut r: Vec<&'static str> = Vec::with_capacity(LIP_COUNT);
    let mut i: usize = 0;
    while i < LIP_COUNT
        invariant
            i <= LIP_COUNT,
            r@.len() == i,
            forall|k: int| 0 <= k < i ==> (#[trigger] r@[k])@ == lip_name_spec(k),
        decreases LIP_COUNT - i,
    {
        r.push(lip_name(i));
        i = i + 1;
    }
    r
}

/// All eye expression names, in order.
pub fn eye_names() -> (r: Vec<&'static str>)
    ensures
        r@.len() == EYE_COUNT,
        forall|i: int| 0 <= i < EYE_COUNT ==> (#[trigger] r@[i])@ == eye_name_spec(i),
{
    let mut r: Vec<&'static str> = Vec::with_capacity(EYE_COUNT);
    let mut i: usize = 0;
    while i < EYE_COUNT
        invariant
            i <= EYE_COUNT,
            r@.len() == i,
            forall|k: int| 0 <= k < i ==> (#[trigger] r@[k])@ == eye_name_spec(k),
        decreases EYE_COUNT - i,
    {
        r.push(eye_name(i));
        i = i + 1;
    }
    r
}

/// A face data payload as bit patterns: lip valid, eye valid, the 37 lip
/// values and the 14 eye values (little-endian).
pub open spec fn face_data_spec(p: Seq<u8>) -> Option<(bool, bool, Seq<u32>, Seq<u32>)> {
    if p.len() < FACE_DATA_LEN {
        None
    } else {
        Some(
            (
                p[0] != 0,
                p[1] != 0,
                Seq::new(LIP_COUNT as nat, |i: int| le32_at(p, 2 + 4 * i)),
                Seq::new(EYE_COUNT as nat, |i: int| le32_at(p, 2 + 4 * LIP_COUNT + 4 * i)),
            ),
        )
    }
}

/// Parse a face data payload into validity flags and value bit patterns;
/// `None` when it is too short.
pub fn parse_face_data_bits(payload: &[u8]) -> (r: Option<(bool, bool, Vec<u32>, Vec<u32>)>)
    ensures
        match r {
            Some((lv, ev, lip, eye)) => face_data_spec(payload@) == Some((lv, ev, lip@, eye@)),
            None => face_data_spec(payload@) is None,
        },
{
    if payload.len() < FACE_DATA_LEN {
        return None;
    }
    let lip_valid = payload[0] != 0;
    let eye_valid = payload[1] != 0;
    let mut lip: Vec<u32> = Vec::with_capacity(LIP_COUNT);
    let mut i: usize = 0;
    while i < LIP_COUNT
        invariant
            payload@.len() >= FACE_DATA_LEN,
            i <= LIP_COUNT,
            lip@ == Seq::new(i as nat, |k: int| le32_at(payload@, 2 + 4 * k)),
        decreases LIP_COUNT - i,
    {
        lip.push(read_le32(payload, 2 + 4 * i));
        i = i + 1;
        assert(lip@ =~= Seq::new(i as nat, |k: int| le32_at(payload@, 2 + 4 * k)));
    }
    let mut eye: Vec<u32> = Vec::with_capacity(EYE_COUNT);
    let mut j: usize = 0;
    while j < EYE_COUNT
        invariant
            payload@.len() >= FACE_DATA_LEN,
            j <= EYE_COUNT,
            eye@ == Seq::new(j as nat, |k: int| le32_at(payload@, 2 + 4 * LIP_COUNT + 4 * k)),
        decreases EYE_COUNT - j,
    {
        eye.push(read_le32(payload, 2 + 4 * LIP_COUNT + 4 * j));
        j = j + 1;
        assert(eye@ =~= Seq::new(j as nat, |k: int| le32_at(payload@, 2 + 4 * LIP_COUNT + 4 * k)));
    }
    Some((lip_valid, eye_valid, lip, eye))
}

/// An OSC message with one float argument: the address, NUL-terminated and
/// zero-padded to a multiple of four bytes; the type tag ",f" padded the
/// same way; the value's bits, big-endian.
pub open spec fn osc_float_message(address: Seq<u8>, bits: u32) -> Seq<u8> {
    address + Seq::new((4 - address.len() % 4) as nat, |i: int| 0u8) + seq![0x2cu8, 0x66u8, 0u8, 0u8]
        + be32(bits)
}

/// Encode an OSC message carrying one 32-bit float, given its bits.
pub fn encode_osc_float_bits(address: &[u8], bits: u32) -> (r: Vec<u8>)
    ensures
        r@ == osc_float_message(address@, bits),
        r@.len() % 4 == 0,
{
    let mut msg: Vec<u8> = Vec::with_capacity(64);
    crate::protocol::push_bytes(&mut msg, address);
    msg.push(0);
    let ghost start = address@.len();
    while msg.len() % 4 != 0
        invariant
            msg@.len() > start,
            msg@.len() <= start + 4 - start % 4,
            msg@ == address@ + Seq::new((msg@.len() - start) as nat, |i: int| 0u8),
        decreases start + 4 - start % 4 - msg@.len(),
    {
        msg.push(0);
        assert(msg@ =~= address@ + Seq::new((msg@.len() - start) as nat, |i: int| 0u8));
    }
    let ghost l = msg@.len();
    assert(l == start + 4 - start % 4) by (nonlinear_arith)
        requires
            l % 4 == 0,
            start < l,
            l <= start + 4 - start % 4,
    ;
    let ghost padded = msg@;
    assert(padded == address@ + Seq::new((4 - address@.len() % 4) as nat, |i: int| 0u8));
    msg.push(0x2c);
    msg.push(0x66);
    msg.push(0);
    msg.push(0);
    assert(msg@ =~= padded + seq![0x2cu8, 0x66u8, 0u8, 0u8]);
    push_be32(&mut msg, bits);
    msg
}

} // verus!
