//! Session recording: video as a raw Annex B stream, where every NAL unit
//! on disk starts with a start code; audio as 16-bit PCM WAV.

use vstd::prelude::*;
use crate::protocol::{le16, le32, push_bytes, push_le16, push_le32};

verus! {

/// Whether `b` starts with an Annex B start code, 4-byte `00 00 00 01` or
/// 3-byte `00 00 01`.
pub open spec fn annexb_prefixed(b: Seq<u8>) -> bool {
    ||| (b.len() >= 4 && b[0] == 0 && b[1] == 0 && b[2] == 0 && b[3] == 1)
    ||| (b.len() >= 3 && b[0] == 0 && b[1] == 0 && b[2] == 1)
}

/// True if `buf` starts with an Annex B start code (3- or 4-byte form).
pub fn starts_with_annexb(buf: &[u8]) -> (r: bool)
    ensures
        r == annexb_prefixed(buf@),
{
    if buf.len() >= 4 && buf[0] == 0 && buf[1] == 0 && buf[2] == 0 && buf[3] == 1 {
        return true;
    }
    buf.len() >= 3 && buf[0] == 0 && buf[1] == 0 && buf[2] == 1
}

/// What a NAL unit becomes on disk: unchanged when it already has a start
/// code, else behind the 4-byte one.
pub open spec fn annexb_nal_spec(nal: Seq<u8>) -> Seq<u8> {
    if annexb_prefixed(nal) {
        nal
    } else {
        seq![0u8, 0u8, 0u8, 1u8] + nal
    }
}

/// The bytes to write for one NAL unit.
pub fn annexb_nal(nal: &[u8]) -> (r: Vec<u8>)
    ensures
        r@ == annexb_nal_spec(nal@),
{
    let mut out: Vec<u8> = Vec::new();
    if !starts_with_annexb(nal) {
        out.push(0);
        out.push(0);
        out.push(0);
        out.push(1);
    }
    push_bytes(&mut out, nal);
    assert(out@ =~= annexb_nal_spec(nal@));
    out
}

/// What a video recording has written so far: NAL units and bytes.
pub struct NalCounters {
    nal_count: u64,
    bytes_written: u64,
}

impl NalCounters {
    pub closed spec fn count_spec(&self) -> u64 {
        self.nal_count
    }

    pub closed spec fn bytes_spec(&self) -> u64 {
        self.bytes_written
    }

    /// Nothing written yet.
    pub fn new() -> (r: Self)
        ensures
            r.count_spec() == 0,
            r.bytes_spec() == 0,
    {
        NalCounters { nal_count: 0, bytes_written: 0 }
    }

    pub fn nal_count(&self) -> (r: u64)
        ensures
            r == self.count_spec(),
    {
        self.nal_count
    }

    pub fn bytes_written(&self) -> (r: u64)
        ensures
            r == self.bytes_spec(),
    {
        self.bytes_written
    }

    /// One more NAL unit went to disk as `written` bytes (its
    /// `annexb_nal` form).
    pub fn record_written(&mut self, written: u64)
        requires
            old(self).count_spec() < u64::MAX,
            old(self).bytes_spec() + written <= u64::MAX,
        ensures
            final(self).count_spec() == old(self).count_spec() + 1,
            final(self).bytes_spec() == old(self).bytes_spec() + written,
    {
        self.nal_count = self.nal_count + 1;
        self.bytes_written = self.bytes_written + written;
    }
}

/// Bytes of the WAV header written before the samples.
pub const WAV_HEADER_LEN: usize = 44;

/// Where the RIFF chunk size sits in the header.
pub const WAV_RIFF_SIZE_OFFSET: u64 = 4;

/// Where the data chunk size sits in the header.
pub const WAV_DATA_SIZE_OFFSET: u64 = 40;

/// The 44-byte header of a 16-bit PCM WAV file: "RIFF", the RIFF size,
/// "WAVE", a 16-byte "fmt " chunk (PCM, channels, rate, byte rate, block
/// alignment, 16 bits), then "data" and the data size. Sizes are
/// little-endian.
pub open spec fn wav_header_spec(sample_rate: u32, channels: u16, riff_size: u32, data_size: u32) -> Seq<u8> {
    seq![0x52u8, 0x49, 0x46, 0x46] + le32(riff_size) + seq![0x57u8, 0x41, 0x56, 0x45] + seq![0x66u8, 0x6d, 0x74, 0x20]
        + le32(16) + le16(1) + le16(channels) + le32(sample_rate) + le32((sample_rate * channels * 2) as u32) + le16(
        (channels * 2) as u16,
    ) + le16(16) + seq![0x64u8, 0x61, 0x74, 0x61] + le32(data_size)
}

/// The header written when a recording opens: both sizes still 0, patched
/// on close.
pub fn wav_header(sample_rate: u32, channels: u16) -> (r: Vec<u8>)
    requires
        sample_rate * channels * 2 <= u32::MAX,
        channels * 2 <= u16::MAX,
    ensures
        r@ == wav_header_spec(sample_rate, channels, 0, 0),
        r@.len() == WAV_HEADER_LEN,
{
    let bits_per_sample: u16 = 16;
    let byte_rate: u32 = sample_rate * (channels as u32) * 2;
    let block_align: u16 = channels * 2;
    let mut h: Vec<u8> = Vec::with_capacity(44);
    let riff: [u8; 4] = [0x52, 0x49, 0x46, 0x46];
    let wave: [u8; 4] = [0x57, 0x41, 0x56, 0x45];
    let fmt: [u8; 4] = [0x66, 0x6d, 0x74, 0x20];
    let data: [u8; 4] = [0x64, 0x61, 0x74, 0x61];
    push_bytes(&mut h, &riff);
    push_le32(&mut h, 0);
    push_bytes(&mut h, &wave);
    push_bytes(&mut h, &fmt);
    push_le32(&mut h, 16);
    push_le16(&mut h, 1);
    push_le16(&mut h, channels);
    push_le32(&mut h, sample_rate);
    push_le32(&mut h, byte_rate);
    push_le16(&mut h, block_align);
    push_le16(&mut h, bits_per_sample);
    push_bytes(&mut h, &data);
    push_le32(&mut h, 0);
    assert(riff@ =~= seq![0x52u8, 0x49, 0x46, 0x46]);
    assert(wave@ =~= seq![0x57u8, 0x41, 0x56, 0x45]);
    assert(fmt@ =~= seq![0x66u8, 0x6d, 0x74, 0x20]);
    assert(data@ =~= seq![0x64u8, 0x61, 0x74, 0x61]);
    assert(h@ =~= wav_header_spec(sample_rate, channels, 0, 0));
    h
}

/// The RIFF chunk size of a file with `data_bytes` bytes of samples: the
/// file size less 8, saturating.
pub fn wav_riff_size(data_bytes: u32) -> (r: u32)
    ensures
        r == if 36 + data_bytes > u32::MAX { u32::MAX as int } else { 36 + data_bytes },
{
    36u32.saturating_add(data_bytes)
}

} // verus!
