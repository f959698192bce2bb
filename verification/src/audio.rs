//! The fixed audio format: 48 kHz stereo in 10 ms chunks.

use vstd::prelude::*;

verus! {

pub const SAMPLE_RATE_HZ: u32 = 48_000;

pub const CHANNELS: u16 = 2;

/// Chunk duration; one chunk is one encoder frame.
pub const CHUNK_MS: u32 = 10;

/// Samples per channel in one chunk.
pub const SAMPLES_PER_CHANNEL_PER_CHUNK: usize = 480;

/// Interleaved samples in one chunk.
pub const SAMPLES_PER_CHUNK: usize = 960;

/// The chunk sizes follow from the rate, the duration and the channels.
pub proof fn lemma_chunk_sizes()
    ensures
        SAMPLES_PER_CHANNEL_PER_CHUNK == SAMPLE_RATE_HZ * CHUNK_MS / 1000,
        SAMPLES_PER_CHUNK == SAMPLES_PER_CHANNEL_PER_CHUNK * CHANNELS,
{
}

} // verus!
