//! Face-tracking camera passthrough from the headset: the frame and request
//! wire formats, and the PC-side ring buffer of received frames.

use vstd::prelude::*;
use std::collections::VecDeque;
use crate::protocol::{le16, le16_at, le64_at, push_le16, read_le16, read_le64};
use crate::transport::fec::copy_bytes;

verus! {

/// Camera frame pixel format.
#[derive(Debug, Clone, Copy, PartialEq, Eq, Structural)]
pub enum PixelFormat {
    /// YUV 4:2:0 semi-planar.
    Nv12,
    /// JPEG compressed.
    Jpeg,
    /// Raw 8-bit RGB.
    Rgb24,
}

/// The wire code of a pixel format.
pub open spec fn format_code(f: PixelFormat) -> u8 {
    match f {
        PixelFormat::Nv12 => 0,
        PixelFormat::Jpeg => 1,
        PixelFormat::Rgb24 => 2,
    }
}

pub open spec fn format_of_code(c: u8) -> Option<PixelFormat> {
    if c == 0 {
        Some(PixelFormat::Nv12)
    } else if c == 1 {
        Some(PixelFormat::Jpeg)
    } else if c == 2 {
        Some(PixelFormat::Rgb24)
    } else {
        None
    }
}

/// A camera frame received from the headset.
#[derive(Debug, Clone)]
pub struct FtMirrorFrame {
    pub width: u16,
    pub height: u16,
    pub format: PixelFormat,
    pub timestamp_us: u64,
    pub data: Vec<u8>,
}

/// Bytes before the pixel data of a mirror frame.
pub const MIRROR_HEADER_LEN: usize = 13;

/// A parsed mirror frame as plain values: width, height, format, timestamp,
/// pixel data.
pub open spec fn parse_mirror_frame_spec(p: Seq<u8>) -> Option<(u16, u16, PixelFormat, u64, Seq<u8>)> {
    if p.len() < MIRROR_HEADER_LEN {
        None
    } else {
        match format_of_code(p[4]) {
            None => None,
            Some(f) => Some((le16_at(p, 0), le16_at(p, 2), f, le64_at(p, 5), p.subrange(13, p.len() as int))),
        }
    }
}

pub open spec fn mirror_frame_view(f: FtMirrorFrame) -> (u16, u16, PixelFormat, u64, Seq<u8>) {
    (f.width, f.height, f.format, f.timestamp_us, f.data@)
}

/// Parse a mirror frame payload:
/// `[width:2 LE][height:2 LE][format:1][timestamp_us:8 LE][data...]`.
/// `None` when shorter than the header or of an unknown format.
pub fn parse_mirror_frame(payload: &[u8]) -> (r: Option<FtMirrorFrame>)
    ensures
        match r {
            Some(f) => parse_mirror_frame_spec(payload@) == Some(mirror_frame_view(f)),
            None => parse_mirror_frame_spec(payload@) is None,
        },
{
    if payload.len() < MIRROR_HEADER_LEN {
        return None;
    }
    let width = read_le16(payload, 0);
    let height = read_le16(payload, 2);
    let format = if payload[4] == 0 {
        PixelFormat::Nv12
    } else if payload[4] == 1 {
        PixelFormat::Jpeg
    } else if payload[4] == 2 {
        PixelFormat::Rgb24
    } else {
        return None;
    };
    let timestamp_us = read_le64(payload, 5);
    let data = copy_bytes(vstd::slice::slice_subrange(payload, MIRROR_HEADER_LEN, payload.len()));
    Some(FtMirrorFrame { width, height, format, timestamp_us, data })
}

/// A mirror request: `[enable:1][max_width:2 LE][max_height:2 LE][format:1]`.
pub open spec fn mirror_request_spec(enable: bool, max_width: u16, max_height: u16, format: PixelFormat) -> Seq<u8> {
    seq![if enable { 1u8 } else { 0u8 }] + le16(max_width) + le16(max_height) + seq![format_code(format)]
}

/// Encode a mirror request.
pub fn encode_mirror_request(enable: bool, max_width: u16, max_height: u16, format: PixelFormat) -> (r: Vec<u8>)
    ensures
        r@ == mirror_request_spec(enable, max_width, max_height, format),
{
    let mut buf: Vec<u8> = Vec::with_capacity(6);
    buf.push(if enable {
        1
    } else {
        0
    });
    push_le16(&mut buf, max_width);
    push_le16(&mut buf, max_height);
    let code: u8 = match format {
        PixelFormat::Nv12 => 0,
        PixelFormat::Jpeg => 1,
        PixelFormat::Rgb24 => 2,
    };
    buf.push(code);
    assert(buf@ =~= mirror_request_spec(enable, max_width, max_height, format));
    buf
}

/// Most frames the buffer holds: its capacity, but always room for the
/// newest frame.
pub open spec fn buffer_bound(max_frames: usize) -> nat {
    if max_frames == 0 {
        1
    } else {
        max_frames as nat
    }
}

/// The buffer after pushing `frame` when it holds at most `max_frames`: the
/// oldest frame goes first when it is full.
pub open spec fn ring_push(buffer: Seq<FtMirrorFrame>, max_frames: usize, frame: FtMirrorFrame) -> Seq<FtMirrorFrame> {
    if buffer.len() >= max_frames {
        (if buffer.len() > 0 { buffer.drop_first() } else { buffer }).push(frame)
    } else {
        buffer.push(frame)
    }
}

/// The mirror counters agree with the buffer: no more frames dropped than
/// received, and, with a capacity of at least one, no more held than
/// received and not dropped.
pub open spec fn mirror_counts_wf(held: nat, max_frames: usize, received: u64, dropped: u64) -> bool {
    &&& dropped <= received
    &&& max_frames >= 1 ==> held <= received - dropped
}

/// The counters stay in agreement with the buffer over a push: the received
/// count rises by one, the dropped count by one exactly when the oldest
/// frame makes room.
pub proof fn lemma_ring_push_counts(buffer: Seq<FtMirrorFrame>, max_frames: usize, frame: FtMirrorFrame, received: u64, dropped: u64)
    requires
        buffer.len() <= buffer_bound(max_frames),
        mirror_counts_wf(buffer.len(), max_frames, received, dropped),
        received < u64::MAX,
    ensures
        ({
            let after = ring_push(buffer, max_frames, frame);
            let dropped2: u64 = if buffer.len() >= max_frames { (dropped + 1) as u64 } else { dropped };
            &&& after.len() <= buffer_bound(max_frames)
            &&& mirror_counts_wf(after.len(), max_frames, (received + 1) as u64, dropped2)
        }),
{
}

/// Receiver of mirror frames with a bounded ring buffer that drops the
/// oldest frame when full. Frames are kept only while enabled.
pub struct MirrorReceiver {
    buffer: VecDeque<FtMirrorFrame>,
    max_frames: usize,
    frames_received: u64,
    frames_dropped: u64,
    enabled: bool,
}

impl MirrorReceiver {
    #[verifier::type_invariant]
    spec fn inv(&self) -> bool {
        &&& self.buffer@.len() <= buffer_bound(self.max_frames)
        &&& mirror_counts_wf(self.buffer@.len(), self.max_frames, self.frames_received, self.frames_dropped)
    }

    pub closed spec fn frames(&self) -> Seq<FtMirrorFrame> {
        self.buffer@
    }

    pub closed spec fn capacity(&self) -> usize {
        self.max_frames
    }

    pub closed spec fn received_spec(&self) -> u64 {
        self.frames_received
    }

    pub closed spec fn dropped_spec(&self) -> u64 {
        self.frames_dropped
    }

    pub closed spec fn enabled_spec(&self) -> bool {
        self.enabled
    }

    /// An empty, disabled receiver holding up to `max_frames` frames.
    pub fn new(max_frames: usize) -> (r: Self)
        ensures
            r.frames().len() == 0,
            r.capacity() == max_frames,
            r.received_spec() == 0,
            r.dropped_spec() == 0,
            !r.enabled_spec(),
    {
        MirrorReceiver {
            buffer: VecDeque::with_capacity(max_frames),
            max_frames,
            frames_received: 0,
            frames_dropped: 0,
            enabled: false,
        }
    }

    /// Enable or disable; disabling empties the buffer.
    pub fn set_enabled(&mut self, enabled: bool)
        ensures
            final(self).enabled_spec() == enabled,
            final(self).frames() == if enabled { old(self).frames() } else { Seq::empty() },
            final(self).capacity() == old(self).capacity(),
            final(self).received_spec() == old(self).received_spec(),
            final(self).dropped_spec() == old(self).dropped_spec(),
    {
        proof {
            use_type_invariant(&*self);
        }
        self.enabled = enabled;
        if !enabled {
            self.buffer = VecDeque::new();
        }
    }

    pub fn is_enabled(&self) -> (r: bool)
        ensures
            r == self.enabled_spec(),
    {
        self.enabled
    }

    /// Keep a received frame (only while enabled), dropping the oldest when
    /// the buffer is full.
    pub fn push_frame(&mut self, frame: FtMirrorFrame)
        requires
            old(self).enabled_spec() ==> old(self).received_spec() < u64::MAX,
        ensures
            final(self).enabled_spec() == old(self).enabled_spec(),
            final(self).capacity() == old(self).capacity(),
            !old(self).enabled_spec() ==> final(self).frames() == old(self).frames()
                && final(self).received_spec() == old(self).received_spec()
                && final(self).dropped_spec() == old(self).dropped_spec(),
            old(self).enabled_spec() ==> {
                &&& final(self).frames() == ring_push(old(self).frames(), old(self).capacity(), frame)
                &&& final(self).received_spec() == old(self).received_spec() + 1
                &&& final(self).dropped_spec() == if old(self).frames().len() >= old(self).capacity() {
                    (old(self).dropped_spec() + 1) as u64
                } else {
                    old(self).dropped_spec()
                }
            },
    {
        if !self.enabled {
            return;
        }
        let mut taken = MirrorReceiver::new(0);
        std::mem::swap(self, &mut taken);
        proof {
            use_type_invariant(&taken);
        }
        let MirrorReceiver { mut buffer, max_frames, frames_received, mut frames_dropped, enabled } = taken;
        proof {
            lemma_ring_push_counts(buffer@, max_frames, frame, frames_received, frames_dropped);
        }
        if buffer.len() >= max_frames {
            let _ = buffer.pop_front();
            frames_dropped = frames_dropped + 1;
        }
        buffer.push_back(frame);
        *self = MirrorReceiver { buffer, max_frames, frames_received: frames_received + 1, frames_dropped, enabled };
    }

    /// The most recent frame, still in the buffer.
    pub fn latest_frame(&self) -> (r: Option<&FtMirrorFrame>)
        ensures
            match r {
                Some(f) => self.frames().len() > 0 && *f == self.frames().last(),
                None => self.frames().len() == 0,
            },
    {
        let n = self.buffer.len();
        if n == 0 {
            None
        } else {
            Some(&self.buffer[n - 1])
        }
    }

    /// Remove and return the most recent frame.
    pub fn take_latest(&mut self) -> (r: Option<FtMirrorFrame>)
        ensures
            match r {
                Some(f) => old(self).frames().len() > 0 && f == old(self).frames().last()
                    && final(self).frames() == old(self).frames().drop_last(),
                None => old(self).frames().len() == 0 && final(self).frames() == old(self).frames(),
            },
            final(self).enabled_spec() == old(self).enabled_spec(),
            final(self).capacity() == old(self).capacity(),
            final(self).received_spec() == old(self).received_spec(),
            final(self).dropped_spec() == old(self).dropped_spec(),
    {
        let mut taken = MirrorReceiver::new(0);
        std::mem::swap(self, &mut taken);
        proof {
            use_type_invariant(&taken);
        }
        let MirrorReceiver { mut buffer, max_frames, frames_received, frames_dropped, enabled } = taken;
        let r = buffer.pop_back();
        *self = MirrorReceiver { buffer, max_frames, frames_received, frames_dropped, enabled };
        r
    }

    pub fn frames_received(&self) -> (r: u64)
        ensures
            r == self.received_spec(),
    {
        self.frames_received
    }

    pub fn frames_dropped(&self) -> (r: u64)
        ensures
            r == self.dropped_spec(),
            r <= self.received_spec(),
    {
        proof {
            use_type_invariant(&*self);
        }
        self.frames_dropped
    }

    /// Frames held: never more than `buffer_bound` of the capacity, and,
    /// with a capacity of at least one, never more than the frames received
    /// and not dropped.
    pub fn buffer_len(&self) -> (r: usize)
        ensures
            r == self.frames().len(),
            r <= buffer_bound(self.capacity()),
            mirror_counts_wf(r as nat, self.capacity(), self.received_spec(), self.dropped_spec()),
    {
        proof {
            use_type_invariant(&*self);
        }
        self.buffer.len()
    }
}

} // verus!
