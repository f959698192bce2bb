//! Wire-level constants shared with the headset client, the FVP flag word,
//! and little/big-endian byte encodings with their specifications.

use vstd::prelude::*;

verus! {

/// Link MTU budget for one UDP datagram.
pub const MTU_SIZE: usize = 1400;
/// RTP fixed header length.
pub const RTP_HEADER_LEN: usize = 12;
/// FVP header length (follows the RTP header).
pub const FVP_HEADER_LEN: usize = 12;
/// RTP + FVP headers; the payload starts at this offset.
pub const PACKET_HEADER_LEN: usize = 24;
/// Payload bytes carried by one Reed-Solomon shard.
pub const FEC_SHARD_SIZE: usize = 1200;
/// Largest shard count (data + parity) a receiver accepts for one frame or slice.
pub const MAX_FRAME_SHARDS: usize = 4096;
/// RTP payload type used for video.
pub const RTP_PT_H265: u8 = 96;
/// RTP media clock.
pub const RTP_CLOCK_RATE: u32 = 90000;
/// Largest framed control message (type byte + payload).
pub const MAX_MSG_LEN: usize = 65536;
/// Heartbeat cadence.
pub const HEARTBEAT_INTERVAL_MS: u64 = 500;
/// Heartbeats that may be missed before the link counts as lost.
pub const HEARTBEAT_MAX_MISSES: u32 = 3;
/// Wrong PINs accepted before a lockout.
pub const MAX_PIN_ATTEMPTS: u8 = 5;
/// Lockout length after too many wrong PINs.
pub const PIN_LOCKOUT_SECONDS: u64 = 60;
/// Default TCP control port.
pub const DEFAULT_TCP_PORT: u16 = 9944;
/// Default UDP base port.
pub const DEFAULT_UDP_PORT: u16 = 9945;
/// Video port = udp base + this.
pub const VIDEO_PORT_OFFSET: u16 = 2;
/// Audio port = udp base + this.
pub const AUDIO_PORT_OFFSET: u16 = 3;
/// Tracking port = udp base + this.
pub const TRACKING_PORT_OFFSET: u16 = 4;
/// Largest number of independently FEC-coded slices in one frame.
pub const MAX_SLICE_COUNT: u8 = 15;

/// Control message types.
pub const MSG_HELLO: u8 = 0x01;
pub const MSG_HELLO_ACK: u8 = 0x02;
pub const MSG_PIN_REQUEST: u8 = 0x03;
pub const MSG_PIN_RESPONSE: u8 = 0x04;
pub const MSG_PIN_RESULT: u8 = 0x05;
pub const MSG_STREAM_CONFIG: u8 = 0x06;
pub const MSG_STREAM_START: u8 = 0x07;
pub const MSG_HEARTBEAT: u8 = 0x20;
pub const MSG_HEARTBEAT_ACK: u8 = 0x21;
pub const MSG_IDR_REQUEST: u8 = 0x22;
pub const MSG_DISCONNECT: u8 = 0x2F;
pub const MSG_FACE_DATA: u8 = 0x35;
pub const MSG_TRANSPORT_FEEDBACK: u8 = 0x36;
pub const MSG_HAPTIC_EVENT: u8 = 0x38;
pub const MSG_CONFIG_UPDATE: u8 = 0x40;
pub const MSG_CONFIG_UPDATE_ACK: u8 = 0x41;
pub const MSG_SLEEP_ENTER: u8 = 0x50;
pub const MSG_SLEEP_EXIT: u8 = 0x51;
pub const MSG_FT_MIRROR_REQUEST: u8 = 0x52;
pub const MSG_FT_MIRROR_FRAME: u8 = 0x53;

/// Video codec negotiated in STREAM_CONFIG.
#[derive(Debug, Clone, Copy, PartialEq, Eq, Structural)]
pub enum VideoCodec {
    H264,
    H265,
}

impl Default for VideoCodec {
    /// H.265 unless configured otherwise.
    fn default() -> (r: Self)
        ensures
            r == VideoCodec::H265,
    {
        VideoCodec::H265
    }
}

// ---------------------------------------------------------------------------
// FVP flag word: bit 0 keyframe, bits 4..8 slice index, bits 8..12 slice
// count (0 = not sliced), bits 12..16 reserved.
// ---------------------------------------------------------------------------

pub open spec fn flags_is_keyframe(flags: u16) -> bool {
    flags % 2 == 1
}

pub open spec fn flags_slice_index(flags: u16) -> u8 {
    ((flags / 16) % 16) as u8
}

pub open spec fn flags_slice_count(flags: u16) -> u8 {
    ((flags / 256) % 16) as u8
}

pub open spec fn flags_reserved(flags: u16) -> u8 {
    (flags / 4096) as u8
}

pub open spec fn flags_value(is_keyframe: bool, slice_index: u8, slice_count: u8, reserved: u8) -> int {
    (if is_keyframe { 1int } else { 0int }) + 16 * (slice_index % 16) + 256 * (slice_count % 16)
        + 4096 * (reserved % 16)
}

/// Build the flag word. Each field keeps its low four bits.
pub fn flags_encode(is_keyframe: bool, slice_index: u8, slice_count: u8, reserved: u8) -> (f: u16)
    ensures
        f == flags_value(is_keyframe, slice_index, slice_count, reserved),
        flags_is_keyframe(f) == is_keyframe,
        flags_slice_index(f) == slice_index % 16,
        flags_slice_count(f) == slice_count % 16,
        flags_reserved(f) == reserved % 16,
{
    let k: u16 = if is_keyframe { 1 } else { 0 };
    let si: u16 = (slice_index % 16) as u16;
    let sc: u16 = (slice_count % 16) as u16;
    let rs: u16 = (reserved % 16) as u16;
    let f: u16 = k + 16 * si + 256 * sc + 4096 * rs;
    assert(f % 2 == k && (f / 16) % 16 == si && (f / 256) % 16 == sc && f / 4096 == rs)
        by (bit_vector)
        requires
            k <= 1,
            si < 16,
            sc < 16,
            rs < 16,
            f == k + 16 * si + 256 * sc + 4096 * rs,
    ;
    f
}

/// Flag word of an unsliced frame.
pub fn flags_encode_simple(is_keyframe: bool) -> (f: u16)
    ensures
        f == (if is_keyframe { 1u16 } else { 0u16 }),
        flags_is_keyframe(f) == is_keyframe,
        flags_slice_index(f) == 0,
        flags_slice_count(f) == 0,
{
    flags_encode(is_keyframe, 0, 0, 0)
}

pub fn flags_get_keyframe(flags: u16) -> (b: bool)
    ensures
        b == flags_is_keyframe(flags),
{
    flags % 2 == 1
}

pub fn flags_get_slice_index(flags: u16) -> (r: u8)
    ensures
        r == flags_slice_index(flags),
        r < 16,
{
    ((flags / 16) % 16) as u8
}

pub fn flags_get_slice_count(flags: u16) -> (r: u8)
    ensures
        r == flags_slice_count(flags),
        r < 16,
{
    ((flags / 256) % 16) as u8
}

// ---------------------------------------------------------------------------
// Integer <-> bytes
// ---------------------------------------------------------------------------

pub open spec fn le16(x: u16) -> Seq<u8> {
    seq![(x % 256) as u8, (x / 256) as u8]
}

pub open spec fn be16(x: u16) -> Seq<u8> {
    seq![(x / 256) as u8, (x % 256) as u8]
}

pub open spec fn le32(x: u32) -> Seq<u8> {
    seq![
        (x % 256) as u8,
        ((x / 256) % 256) as u8,
        ((x / 65536) % 256) as u8,
        (x / 16777216) as u8,
    ]
}

pub open spec fn be32(x: u32) -> Seq<u8> {
    seq![
        (x / 16777216) as u8,
        ((x / 65536) % 256) as u8,
        ((x / 256) % 256) as u8,
        (x % 256) as u8,
    ]
}

pub open spec fn le64(x: u64) -> Seq<u8> {
    le32((x % 4294967296) as u32) + le32((x / 4294967296) as u32)
}

/// Little-endian u16 stored at `b[i..i + 2]`.
pub open spec fn le16_at(b: Seq<u8>, i: int) -> u16 {
    (b[i] + 256 * b[i + 1]) as u16
}

/// Big-endian u16 stored at `b[i..i + 2]`.
pub open spec fn be16_at(b: Seq<u8>, i: int) -> u16 {
    (256 * b[i] + b[i + 1]) as u16
}

/// Little-endian u32 stored at `b[i..i + 4]`.
pub open spec fn le32_at(b: Seq<u8>, i: int) -> u32 {
    (b[i] + 256 * b[i + 1] + 65536 * b[i + 2] + 16777216 * b[i + 3]) as u32
}

/// Big-endian u32 stored at `b[i..i + 4]`.
pub open spec fn be32_at(b: Seq<u8>, i: int) -> u32 {
    (16777216 * b[i] + 65536 * b[i + 1] + 256 * b[i + 2] + b[i + 3]) as u32
}

/// Little-endian u64 stored at `b[i..i + 8]`.
pub open spec fn le64_at(b: Seq<u8>, i: int) -> u64 {
    (le32_at(b, i) + 4294967296 * le32_at(b, i + 4)) as u64
}

pub proof fn lemma_le16_roundtrip(x: u16, s: Seq<u8>, i: int)
    requires
        0 <= i,
        i + 2 <= s.len(),
        s.subrange(i, i + 2) == le16(x),
    ensures
        le16_at(s, i) == x,
{
    assert(s[i] == le16(x)[0]);
    assert(s[i + 1] == le16(x)[1]);
}

pub proof fn lemma_be16_roundtrip(x: u16, s: Seq<u8>, i: int)
    requires
        0 <= i,
        i + 2 <= s.len(),
        s.subrange(i, i + 2) == be16(x),
    ensures
        be16_at(s, i) == x,
{
    assert(s[i] == be16(x)[0]);
    assert(s[i + 1] == be16(x)[1]);
}

pub proof fn lemma_le32_roundtrip(x: u32, s: Seq<u8>, i: int)
    requires
        0 <= i,
        i + 4 <= s.len(),
        s.subrange(i, i + 4) == le32(x),
    ensures
        le32_at(s, i) == x,
{
    assert(s[i] == le32(x)[0]);
    assert(s[i + 1] == le32(x)[1]);
    assert(s[i + 2] == le32(x)[2]);
    assert(s[i + 3] == le32(x)[3]);
}

pub proof fn lemma_be32_roundtrip(x: u32, s: Seq<u8>, i: int)
    requires
        0 <= i,
        i + 4 <= s.len(),
        s.subrange(i, i + 4) == be32(x),
    ensures
        be32_at(s, i) == x,
{
    assert(s[i] == be32(x)[0]);
    assert(s[i + 1] == be32(x)[1]);
    assert(s[i + 2] == be32(x)[2]);
    assert(s[i + 3] == be32(x)[3]);
}

pub proof fn lemma_le64_roundtrip(x: u64, s: Seq<u8>, i: int)
    requires
        0 <= i,
        i + 8 <= s.len(),
        s.subrange(i, i + 8) == le64(x),
    ensures
        le64_at(s, i) == x,
{
    let lo = (x % 4294967296) as u32;
    let hi = (x / 4294967296) as u32;
    assert(s.subrange(i, i + 4) =~= le32(lo)) by {
        assert forall|k: int| 0 <= k < 4 implies s.subrange(i, i + 4)[k] == le32(lo)[k] by {
            assert(s.subrange(i, i + 8)[k] == le64(x)[k]);
        }
    }
    assert(s.subrange(i + 4, i + 8) =~= le32(hi)) by {
        assert forall|k: int| 0 <= k < 4 implies s.subrange(i + 4, i + 8)[k] == le32(hi)[k] by {
            assert(s.subrange(i, i + 8)[k + 4] == le64(x)[k + 4]);
        }
    }
    lemma_le32_roundtrip(lo, s, i);
    lemma_le32_roundtrip(hi, s, i + 4);
}

pub fn push_le16(buf: &mut Vec<u8>, x: u16)
    ensures
        final(buf)@ == old(buf)@ + le16(x),
{
    buf.push((x % 256) as u8);
    buf.push((x / 256) as u8);
    assert(final(buf)@ =~= old(buf)@ + le16(x));
}

pub fn push_be16(buf: &mut Vec<u8>, x: u16)
    ensures
        final(buf)@ == old(buf)@ + be16(x),
{
    buf.push((x / 256) as u8);
    buf.push((x % 256) as u8);
    assert(final(buf)@ =~= old(buf)@ + be16(x));
}

pub fn push_le32(buf: &mut Vec<u8>, x: u32)
    ensures
        final(buf)@ == old(buf)@ + le32(x),
{
    buf.push((x % 256) as u8);
    buf.push(((x / 256) % 256) as u8);
    buf.push(((x / 65536) % 256) as u8);
    buf.push((x / 16777216) as u8);
    assert(final(buf)@ =~= old(buf)@ + le32(x));
}

pub fn push_be32(buf: &mut Vec<u8>, x: u32)
    ensures
        final(buf)@ == old(buf)@ + be32(x),
{
    buf.push((x / 16777216) as u8);
    buf.push(((x / 65536) % 256) as u8);
    buf.push(((x / 256) % 256) as u8);
    buf.push((x % 256) as u8);
    assert(final(buf)@ =~= old(buf)@ + be32(x));
}

pub fn push_le64(buf: &mut Vec<u8>, x: u64)
    ensures
        final(buf)@ == old(buf)@ + le64(x),
{
    push_le32(buf, (x % 4294967296) as u32);
    push_le32(buf, (x / 4294967296) as u32);
    assert(final(buf)@ =~= old(buf)@ + le64(x));
}

/// Append every byte of `src`.
pub fn push_bytes(buf: &mut Vec<u8>, src: &[u8])
    ensures
        final(buf)@ == old(buf)@ + src@,
{
    let mut i: usize = 0;
    while i < src.len()
        invariant
            i <= src@.len(),
            buf@ == old(buf)@ + src@.subrange(0, i as int),
        decreases src@.len() - i,
    {
        buf.push(src[i]);
        i = i + 1;
        assert(buf@ =~= old(buf)@ + src@.subrange(0, i as int));
    }
    assert(src@.subrange(0, src@.len() as int) =~= src@);
}

pub fn read_le16(b: &[u8], i: usize) -> (r: u16)
    requires
        i + 2 <= b@.len(),
    ensures
        r == le16_at(b@, i as int),
{
    b[i] as u16 + 256 * (b[i + 1] as u16)
}

pub fn read_be16(b: &[u8], i: usize) -> (r: u16)
    requires
        i + 2 <= b@.len(),
    ensures
        r == be16_at(b@, i as int),
{
    256 * (b[i] as u16) + b[i + 1] as u16
}

pub fn read_le32(b: &[u8], i: usize) -> (r: u32)
    requires
        i + 4 <= b@.len(),
    ensures
        r == le32_at(b@, i as int),
{
    b[i] as u32 + 256 * (b[i + 1] as u32) + 65536 * (b[i + 2] as u32) + 16777216 * (
    b[i + 3] as u32)
}

pub fn read_le64(b: &[u8], i: usize) -> (r: u64)
    requires
        i + 8 <= b@.len(),
    ensures
        r == le64_at(b@, i as int),
{
    let n = b.len();
    assert(i + 8 <= n);
    let lo = read_le32(b, i) as u64;
    let hi = read_le32(b, i + 4) as u64;
    lo + 4294967296 * hi
}

} // verus!
