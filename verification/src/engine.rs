//! Per-frame arithmetic of the streaming loop.

use vstd::prelude::*;
use crate::metrics::latency::FrameTimestamps;
use crate::protocol::RTP_CLOCK_RATE;

verus! {

/// An encoded frame handed over by the driver: its index, NAL units,
/// whether it is an IDR frame, and its pipeline timestamps.
pub struct EncodedFrame {
    pub frame_index: u32,
    pub nal_data: Vec<u8>,
    pub is_idr: bool,
    pub timestamps: FrameTimestamps,
}

/// RTP timestamp of frame `frame_count` at `framerate` fps on the 90 kHz
/// clock, multiplied before dividing so that it does not drift, and
/// wrapping at 32 bits.
pub open spec fn rtp_timestamp_spec(frame_count: u64, framerate: u64) -> u32 {
    ((frame_count as int * RTP_CLOCK_RATE as int / framerate as int) % 0x1_0000_0000) as u32
}

pub fn rtp_timestamp_90khz(frame_count: u64, framerate: u64) -> (r: u32)
    requires
        framerate > 0,
    ensures
        r == rtp_timestamp_spec(frame_count, framerate),
{
    let wide: u128 = (frame_count as u128) * (RTP_CLOCK_RATE as u128) / (framerate as u128);
    assert(wide == frame_count as int * RTP_CLOCK_RATE as int / framerate as int);
    (wide % 0x1_0000_0000) as u32
}

/// Frames between bitrate adjustments: one second's worth.
pub fn adjustment_interval_frames(framerate: u64) -> (r: u64)
    ensures
        r == framerate,
{
    framerate
}

/// The bitrate is re-evaluated on every `framerate`-th frame, once a
/// second.
pub fn adjustment_due(frame_count: u64, framerate: u64) -> (r: bool)
    requires
        framerate > 0,
    ensures
        r == (frame_count % framerate == 0),
{
    frame_count % adjustment_interval_frames(framerate) == 0
}

/// Latency statistics are logged every five seconds of frames.
pub fn stats_log_due(frame_count: u64, framerate: u64) -> (r: bool)
    requires
        0 < framerate <= u64::MAX / 5,
    ensures
        r == (frame_count as int % (framerate as int * 5) == 0),
{
    frame_count % (framerate * 5) == 0
}

} // verus!
