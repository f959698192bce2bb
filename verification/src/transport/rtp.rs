//! RTP + FVP packet headers, frame packetization and reassembly.

use vstd::prelude::*;
use crate::protocol::{
    be16, be32, flags_get_keyframe, flags_is_keyframe, le16, le16_at, le32, le32_at,
    lemma_le16_roundtrip, lemma_le32_roundtrip, push_be16, push_be32, push_bytes, push_le16,
    push_le32, read_le16, read_le32, MAX_FRAME_SHARDS, PACKET_HEADER_LEN, RTP_HEADER_LEN,
    RTP_PT_H265,
};

verus! {

/// Largest payload of one video packet.
pub const MAX_PAYLOAD: usize = 1376;

/// Second RTP header byte: marker bit over the 7-bit payload type.
pub open spec fn marker_pt_byte(payload_type: u8, marker: bool) -> u8 {
    ((if marker { 128int } else { 0int }) + payload_type % 128) as u8
}

/// The 12 RTP header bytes: V=2 with no padding, extension or CSRC; then
/// marker + payload type, big-endian sequence, timestamp and SSRC.
pub open spec fn rtp_header_bytes(payload_type: u8, marker: bool, sequence: u16, timestamp: u32, ssrc: u32) -> Seq<u8> {
    seq![0x80u8, marker_pt_byte(payload_type, marker)] + be16(sequence) + be32(timestamp) + be32(ssrc)
}

/// The 12 FVP header bytes, all little-endian.
pub open spec fn fvp_header_bytes(frame_index: u32, shard_index: u16, shard_count: u16, flags: u16, data_shard_count: u16) -> Seq<u8> {
    le32(frame_index) + le16(shard_index) + le16(shard_count) + le16(flags) + le16(data_shard_count)
}

/// Append a 12-byte RTP header to `buf`.
pub fn write_rtp_header(
    buf: &mut Vec<u8>,
    payload_type: u8,
    marker: bool,
    sequence: u16,
    timestamp: u32,
    ssrc: u32,
)
    ensures
        final(buf)@ == old(buf)@ + rtp_header_bytes(payload_type, marker, sequence, timestamp, ssrc),
{
    buf.push(0x80);
    let mpt: u8 = if marker {
        128 + payload_type % 128
    } else {
        payload_type % 128
    };
    buf.push(mpt);
    push_be16(buf, sequence);
    push_be32(buf, timestamp);
    push_be32(buf, ssrc);
    assert(final(buf)@ =~= old(buf)@ + rtp_header_bytes(payload_type, marker, sequence, timestamp, ssrc));
}

/// Append the 12-byte FVP header that follows the RTP header.
pub fn write_fvp_header(
    buf: &mut Vec<u8>,
    frame_index: u32,
    shard_index: u16,
    shard_count: u16,
    flags: u16,
    data_shard_count: u16,
)
    ensures
        final(buf)@ == old(buf)@ + fvp_header_bytes(frame_index, shard_index, shard_count, flags, data_shard_count),
{
    push_le32(buf, frame_index);
    push_le16(buf, shard_index);
    push_le16(buf, shard_count);
    push_le16(buf, flags);
    push_le16(buf, data_shard_count);
    assert(final(buf)@ =~= old(buf)@ + fvp_header_bytes(frame_index, shard_index, shard_count, flags, data_shard_count));
}

/// Parsed FVP header.
#[derive(Debug, Clone, Copy, PartialEq, Eq, Structural)]
pub struct FvpHeader {
    pub frame_index: u32,
    pub shard_index: u16,
    /// Total shards (data + parity) in the frame, or in the slice when the
    /// flags carry a slice count.
    pub shard_count: u16,
    pub flags: u16,
    /// How many of `shard_count` are data shards (the rest are parity).
    pub data_shard_count: u16,
}

impl FvpHeader {
    pub open spec fn valid(self) -> bool {
        &&& self.shard_count > 0
        &&& self.shard_count <= MAX_FRAME_SHARDS
        &&& self.shard_index < self.shard_count
        &&& self.data_shard_count > 0
        &&& self.data_shard_count <= self.shard_count
    }

    pub fn is_keyframe(self) -> (b: bool)
        ensures
            b == flags_is_keyframe(self.flags),
    {
        flags_get_keyframe(self.flags)
    }

    /// Structural validity of the shard fields; receivers drop packets that
    /// fail it.
    pub fn is_valid(self) -> (b: bool)
        ensures
            b == self.valid(),
    {
        let total = self.shard_count as usize;
        total > 0 && total <= MAX_FRAME_SHARDS && self.shard_index < self.shard_count
            && self.data_shard_count > 0 && self.data_shard_count <= self.shard_count
    }
}

/// The header fields stored at bytes 12..24 of a packet.
pub open spec fn fvp_header_at(p: Seq<u8>) -> FvpHeader {
    FvpHeader {
        frame_index: le32_at(p, 12),
        shard_index: le16_at(p, 16),
        shard_count: le16_at(p, 18),
        flags: le16_at(p, 20),
        data_shard_count: le16_at(p, 22),
    }
}

pub open spec fn read_fvp_header_spec(p: Seq<u8>) -> Option<FvpHeader> {
    if p.len() < PACKET_HEADER_LEN {
        None
    } else {
        Some(fvp_header_at(p))
    }
}

/// Parse the FVP header of a packet; `None` if the packet is shorter than
/// both headers. Fields are returned as they are: check `is_valid`.
pub fn read_fvp_header(packet: &[u8]) -> (r: Option<FvpHeader>)
    ensures
        r == read_fvp_header_spec(packet@),
{
    if packet.len() < PACKET_HEADER_LEN {
        return None;
    }
    Some(FvpHeader {
        frame_index: read_le32(packet, 12),
        shard_index: read_le16(packet, 16),
        shard_count: read_le16(packet, 18),
        flags: read_le16(packet, 20),
        data_shard_count: read_le16(packet, 22),
    })
}

/// A header written with `fvp_header_bytes` reads back unchanged.
pub proof fn lemma_fvp_header_roundtrip(
    p: Seq<u8>,
    rtp: Seq<u8>,
    frame_index: u32,
    shard_index: u16,
    shard_count: u16,
    flags: u16,
    data_shard_count: u16,
    payload: Seq<u8>,
)
    requires
        rtp.len() == RTP_HEADER_LEN,
        p == rtp + fvp_header_bytes(frame_index, shard_index, shard_count, flags, data_shard_count)
            + payload,
    ensures
        read_fvp_header_spec(p) == Some(
            FvpHeader { frame_index, shard_index, shard_count, flags, data_shard_count },
        ),
        p.subrange(PACKET_HEADER_LEN as int, p.len() as int) == payload,
{
    let h = fvp_header_bytes(frame_index, shard_index, shard_count, flags, data_shard_count);
    assert(p.subrange(12, 16) =~= le32(frame_index));
    assert(p.subrange(16, 18) =~= le16(shard_index));
    assert(p.subrange(18, 20) =~= le16(shard_count));
    assert(p.subrange(20, 22) =~= le16(flags));
    assert(p.subrange(22, 24) =~= le16(data_shard_count));
    lemma_le32_roundtrip(frame_index, p, 12);
    lemma_le16_roundtrip(shard_index, p, 16);
    lemma_le16_roundtrip(shard_count, p, 18);
    lemma_le16_roundtrip(flags, p, 20);
    lemma_le16_roundtrip(data_shard_count, p, 22);
    assert(p.subrange(PACKET_HEADER_LEN as int, p.len() as int) =~= payload);
}

/// A single RTP packet ready for transmission.
#[derive(Debug, Clone)]
pub struct RtpPacket {
    pub data: Vec<u8>,
}

/// The bytes of each packet.
pub open spec fn packets_view(ps: Seq<RtpPacket>) -> Seq<Seq<u8>> {
    ps.map_values(|p: RtpPacket| p.data@)
}

/// Number of packets a frame of `len` bytes needs.
pub open spec fn chunk_count(len: nat) -> nat {
    ((len + MAX_PAYLOAD - 1) / (MAX_PAYLOAD as int)) as nat
}

/// Payload of packet `i`.
pub open spec fn chunk_of(data: Seq<u8>, i: int) -> Seq<u8> {
    let lo = i * MAX_PAYLOAD;
    let hi = if lo + MAX_PAYLOAD <= data.len() { lo + MAX_PAYLOAD } else { data.len() as int };
    data.subrange(lo, hi)
}

/// The packet with shard fields `(i, total, total)` of a frame.
pub open spec fn video_packet(
    ssrc: u32,
    sequence: u16,
    timestamp: u32,
    frame_index: u32,
    is_keyframe: bool,
    i: int,
    total: nat,
    payload: Seq<u8>,
) -> Seq<u8> {
    rtp_header_bytes(RTP_PT_H265, i == total - 1, sequence, timestamp, ssrc) + fvp_header_bytes(
        frame_index,
        i as u16,
        total as u16,
        if is_keyframe { 1u16 } else { 0u16 },
        total as u16,
    ) + payload
}

/// What `packetize` returns for a frame, with the first packet numbered `seq0`.
pub open spec fn packetize_spec(
    ssrc: u32,
    seq0: u16,
    data: Seq<u8>,
    frame_index: u32,
    timestamp: u32,
    is_keyframe: bool,
) -> Seq<Seq<u8>> {
    let n = chunk_count(data.len());
    if data.len() == 0 || n > u16::MAX {
        Seq::empty()
    } else {
        Seq::new(
            n,
            |i: int|
                video_packet(
                    ssrc,
                    ((seq0 + i) % 65536) as u16,
                    timestamp,
                    frame_index,
                    is_keyframe,
                    i,
                    n,
                    chunk_of(data, i),
                ),
        )
    }
}

proof fn lemma_seq_step(seq0: int, i: int)
    requires
        0 <= seq0,
        0 <= i,
    ensures
        ((seq0 + i) % 65536 + 1) % 65536 == (seq0 + i + 1) % 65536,
{
    vstd::arithmetic::div_mod::lemma_add_mod_noop(seq0 + i, 1, 65536);
    vstd::arithmetic::div_mod::lemma_small_mod(1, 65536);
}

/// Packetizes encoded NAL units into RTP packets with FVP headers, keeping
/// a pool of reusable byte buffers.
pub struct RtpPacketizer {
    ssrc: u32,
    sequence: u16,
    buf_pool: Vec<Vec<u8>>,
}

impl RtpPacketizer {
    pub closed spec fn ssrc_spec(&self) -> u32 {
        self.ssrc
    }

    /// Sequence number the next packet gets.
    pub closed spec fn sequence_spec(&self) -> u16 {
        self.sequence
    }

    /// Buffers held for reuse.
    pub closed spec fn pool_size(&self) -> nat {
        self.buf_pool@.len()
    }

    pub fn new(ssrc: u32) -> (r: Self)
        ensures
            r.ssrc_spec() == ssrc,
            r.sequence_spec() == 0,
    {
        RtpPacketizer { ssrc, sequence: 0, buf_pool: Vec::new() }
    }

    /// Continue numbering from `sequence` (a resumed stream).
    pub fn set_sequence(&mut self, sequence: u16)
        ensures
            final(self).sequence_spec() == sequence,
            final(self).ssrc_spec() == old(self).ssrc_spec(),
    {
        self.sequence = sequence;
    }

    /// Take an empty buffer from the pool, or a new one.
    pub(crate) fn take_buf(&mut self, needed: usize) -> (r: Vec<u8>)
        ensures
            r@.len() == 0,
            final(self).ssrc_spec() == old(self).ssrc_spec(),
            final(self).sequence_spec() == old(self).sequence_spec(),
            final(self).pool_size() == if old(self).pool_size() > 0 {
                (old(self).pool_size() - 1) as nat
            } else {
                0
            },
    {
        match self.buf_pool.pop() {
            Some(buf) => {
                let mut buf = buf;
                buf.clear();
                buf.reserve(needed);
                buf
            },
            None => Vec::with_capacity(needed),
        }
    }

    /// Return used packet buffers to the pool.
    pub fn recycle(&mut self, packets: Vec<RtpPacket>)
        ensures
            final(self).ssrc_spec() == old(self).ssrc_spec(),
            final(self).sequence_spec() == old(self).sequence_spec(),
            final(self).pool_size() == old(self).pool_size() + packets@.len(),
    {
        let ghost n = packets@.len();
        let mut packets = packets;
        while packets.len() > 0
            invariant
                self.ssrc == old(self).ssrc,
                self.sequence == old(self).sequence,
                self.buf_pool@.len() + packets@.len() == old(self).buf_pool@.len() + n,
            decreases packets@.len(),
        {
            let pkt = packets.pop().unwrap();
            self.buf_pool.push(pkt.data);
        }
    }

    /// The current sequence number; advances it with wrap-around.
    pub fn next_sequence(&mut self) -> (s: u16)
        ensures
            s == old(self).sequence_spec(),
            final(self).sequence_spec() == (old(self).sequence_spec() + 1) % 65536,
            final(self).ssrc_spec() == old(self).ssrc_spec(),
    {
        let seq = self.sequence;
        self.sequence = if self.sequence == u16::MAX {
            0
        } else {
            self.sequence + 1
        };
        seq
    }

    /// Build one packet: RTP header, FVP header, payload.
    pub(crate) fn build_packet(
        &mut self,
        marker: bool,
        timestamp: u32,
        ssrc: u32,
        frame_index: u32,
        shard_index: u16,
        shard_count: u16,
        flags: u16,
        data_shard_count: u16,
        payload: &[u8],
    ) -> (p: RtpPacket)
        ensures
            p.data@ == rtp_header_bytes(RTP_PT_H265, marker, old(self).sequence_spec(), timestamp, ssrc)
                + fvp_header_bytes(frame_index, shard_index, shard_count, flags, data_shard_count)
                + payload@,
            final(self).sequence_spec() == (old(self).sequence_spec() + 1) % 65536,
            final(self).ssrc_spec() == old(self).ssrc_spec(),
    {
        let seq = self.next_sequence();
        let plen = payload.len();
        let needed = if plen <= usize::MAX - PACKET_HEADER_LEN {
            PACKET_HEADER_LEN + plen
        } else {
            plen
        };
        let mut buf = self.take_buf(needed);
        write_rtp_header(&mut buf, RTP_PT_H265, marker, seq, timestamp, ssrc);
        write_fvp_header(&mut buf, frame_index, shard_index, shard_count, flags, data_shard_count);
        push_bytes(&mut buf, payload);
        proof {
            assert(buf@ =~= rtp_header_bytes(RTP_PT_H265, marker, seq, timestamp, ssrc)
                + fvp_header_bytes(frame_index, shard_index, shard_count, flags, data_shard_count)
                + payload@);
        }
        RtpPacket { data: buf }
    }

    /// Packetize one encoded frame. Packet `i` carries bytes
    /// `[i * MAX_PAYLOAD, (i + 1) * MAX_PAYLOAD)` of the frame, shard fields
    /// `(i, n, n)` (no parity on this path) and consecutive sequence numbers;
    /// only the last has the marker bit. An empty frame, or one needing more
    /// than `u16::MAX` packets, yields no packets.
    pub fn packetize(
        &mut self,
        frame_data: &[u8],
        frame_index: u32,
        timestamp_90khz: u32,
        is_keyframe: bool,
    ) -> (r: Vec<RtpPacket>)
        ensures
            packets_view(r@) == packetize_spec(
                old(self).ssrc_spec(),
                old(self).sequence_spec(),
                frame_data@,
                frame_index,
                timestamp_90khz,
                is_keyframe,
            ),
            final(self).sequence_spec() == (old(self).sequence_spec() + r@.len()) % 65536,
            final(self).ssrc_spec() == old(self).ssrc_spec(),
    {
        let len = frame_data.len();
        let ghost n = chunk_count(len as nat);
        if len == 0 {
            let r: Vec<RtpPacket> = Vec::new();
            assert(packets_view(r@) =~= Seq::<Seq<u8>>::empty());
            return r;
        }
        let total_chunks = len / MAX_PAYLOAD + if len % MAX_PAYLOAD == 0 {
            0
        } else {
            1
        };
        assert(total_chunks == n);
        if total_chunks > 65535 {
            let r: Vec<RtpPacket> = Vec::new();
            assert(packets_view(r@) =~= Seq::<Seq<u8>>::empty());
            return r;
        }
        let ghost seq0 = self.sequence;
        let flags: u16 = if is_keyframe {
            1
        } else {
            0
        };
        let mut packets: Vec<RtpPacket> = Vec::with_capacity(total_chunks);
        let mut i: usize = 0;
        while i < total_chunks
            invariant
                len == frame_data@.len(),
                len > 0,
                total_chunks == n,
                n == chunk_count(len as nat),
                n <= 65535,
                flags == (if is_keyframe { 1u16 } else { 0u16 }),
                i <= total_chunks,
                packets@.len() == i,
                self.ssrc == old(self).ssrc,
                self.sequence == (seq0 + i) % 65536,
                seq0 == old(self).sequence,
                forall|k: int|
                    0 <= k < i ==> (#[trigger] packets@[k]).data@ == video_packet(
                        self.ssrc,
                        ((seq0 + k) % 65536) as u16,
                        timestamp_90khz,
                        frame_index,
                        is_keyframe,
                        k,
                        n,
                        chunk_of(frame_data@, k),
                    ),
            decreases total_chunks - i,
        {
            let lo = i * MAX_PAYLOAD;
            assert(lo < len);
            let hi = if lo + MAX_PAYLOAD <= len {
                lo + MAX_PAYLOAD
            } else {
                len
            };
            let chunk = vstd::slice::slice_subrange(frame_data, lo, hi);
            assert(chunk@ == chunk_of(frame_data@, i as int));
            let is_last = i == total_chunks - 1;
            let ssrc = self.ssrc;
            let ghost cur = self.sequence;
            let pkt = self.build_packet(
                is_last,
                timestamp_90khz,
                ssrc,
                frame_index,
                i as u16,
                total_chunks as u16,
                flags,
                total_chunks as u16,
                chunk,
            );
            proof {
                assert(cur == ((seq0 + i) % 65536) as u16);
                lemma_seq_step(seq0 as int, i as int);
                assert(pkt.data@ == video_packet(
                    ssrc,
                    ((seq0 + i) % 65536) as u16,
                    timestamp_90khz,
                    frame_index,
                    is_keyframe,
                    i as int,
                    n,
                    chunk_of(frame_data@, i as int),
                ));
            }
            let ghost prev = packets@;
            packets.push(pkt);
            proof {
                assert forall|k: int| 0 <= k < i + 1 implies (#[trigger] packets@[k]).data@ == video_packet(
                    ssrc,
                    ((seq0 + k) % 65536) as u16,
                    timestamp_90khz,
                    frame_index,
                    is_keyframe,
                    k,
                    n,
                    chunk_of(frame_data@, k),
                ) by {
                    if k < i {
                        assert(packets@[k] == prev[k]);
                    }
                }
            }
            i = i + 1;
        }
        proof {
            assert(packets_view(packets@) =~= packetize_spec(
                old(self).ssrc,
                old(self).sequence,
                frame_data@,
                frame_index,
                timestamp_90khz,
                is_keyframe,
            ));
        }
        packets
    }
}


// ---------------------------------------------------------------------------
// Reassembly
// ---------------------------------------------------------------------------

/// A reassembled frame.
#[derive(Debug)]
pub struct ReassembledFrame {
    pub frame_index: u32,
    pub is_keyframe: bool,
    pub data: Vec<u8>,
}

/// Abstract state of a depacketizer: the frame being collected, its shard
/// slots, and how many shards complete it.
pub struct DepackState {
    pub current: Option<u32>,
    pub shards: Seq<Option<Seq<u8>>>,
    pub expected: nat,
}

pub open spec fn count_some(s: Seq<Option<Seq<u8>>>) -> nat
    decreases s.len(),
{
    if s.len() == 0 {
        0
    } else {
        count_some(s.drop_last()) + if s.last() is Some { 1nat } else { 0nat }
    }
}

pub open spec fn all_some(s: Seq<Option<Seq<u8>>>) -> bool {
    forall|i: int| 0 <= i < s.len() ==> #[trigger] s[i] is Some
}

/// Concatenation of the present slots, in slot order.
pub open spec fn concat_some(s: Seq<Option<Seq<u8>>>) -> Seq<u8>
    decreases s.len(),
{
    if s.len() == 0 {
        Seq::empty()
    } else {
        concat_some(s.drop_last()) + match s.last() {
            Some(b) => b,
            None => Seq::empty(),
        }
    }
}

pub open spec fn packet_marker(p: Seq<u8>) -> bool {
    p[1] >= 128
}

pub open spec fn no_shards(n: nat) -> Seq<Option<Seq<u8>>> {
    Seq::new(n, |i: int| None)
}

/// One `feed`: drop short or structurally invalid packets; a new frame index
/// restarts collection with `shard_count` empty slots; store the payload;
/// on the marker bit, or once every slot is filled, emit the frame if the
/// number of received shards equals the expected count.
pub open spec fn depack_step(st: DepackState, p: Seq<u8>) -> (DepackState, Option<(u32, bool, Seq<u8>)>) {
    match read_fvp_header_spec(p) {
        None => (st, None),
        Some(h) => if !h.valid() {
            (st, None)
        } else {
            let fresh = st.current != Some(h.frame_index);
            let base = if fresh { no_shards(h.shard_count as nat) } else { st.shards };
            let exp = if fresh { h.shard_count as nat } else { st.expected };
            let payload = p.subrange(PACKET_HEADER_LEN as int, p.len() as int);
            let stored = if (h.shard_index as int) < base.len() {
                base.update(h.shard_index as int, Some(payload))
            } else {
                base
            };
            let done = (packet_marker(p) || all_some(stored)) && count_some(stored) == exp;
            (
                DepackState {
                    current: if done { None } else { Some(h.frame_index) },
                    shards: stored,
                    expected: exp,
                },
                if done {
                    Some((h.frame_index, flags_is_keyframe(h.flags), concat_some(stored)))
                } else {
                    None
                },
            )
        },
    }
}

/// A depacketizer state has one slot per expected shard.
pub open spec fn depack_wf(st: DepackState) -> bool {
    st.shards.len() == st.expected
}

proof fn lemma_count_some_bound(s: Seq<Option<Seq<u8>>>)
    ensures
        count_some(s) <= s.len(),
        count_some(s) == s.len() ==> all_some(s),
    decreases s.len(),
{
    if s.len() > 0 {
        lemma_count_some_bound(s.drop_last());
        if count_some(s) == s.len() {
            assert forall|i: int| 0 <= i < s.len() implies #[trigger] s[i] is Some by {
                if i < s.len() - 1 {
                    assert(s.drop_last()[i] == s[i]);
                }
            }
        }
    }
}

/// Only whole frames come out: a step that emits a frame has every one of
/// the expected shards stored, and the frame is their concatenation in
/// shard order; while any slot is empty nothing is emitted, marker or not.
/// Every step keeps one slot per expected shard.
pub proof fn lemma_depack_emits_whole_frames(st: DepackState, p: Seq<u8>)
    requires
        depack_wf(st),
    ensures
        ({
            let (next, out) = depack_step(st, p);
            &&& depack_wf(next)
            &&& out matches Some((idx, kf, data)) ==> {
                &&& all_some(next.shards)
                &&& count_some(next.shards) == next.expected
                &&& next.shards.len() == next.expected
                &&& data == concat_some(next.shards)
            }
            &&& (exists|i: int| 0 <= i < next.shards.len() && #[trigger] next.shards[i] is None) ==> out is None
        }),
{
    let (next, out) = depack_step(st, p);
    if let Some(h) = read_fvp_header_spec(p) {
        if h.valid() {
            lemma_count_some_bound(next.shards);
        }
    }
}

/// Feed packets in order; the state after all of them and every output.
pub open spec fn depack_run(st: DepackState, ps: Seq<Seq<u8>>) -> (DepackState, Seq<Option<(u32, bool, Seq<u8>)>>)
    decreases ps.len(),
{
    if ps.len() == 0 {
        (st, Seq::empty())
    } else {
        let (s1, outs) = depack_run(st, ps.drop_last());
        let (s2, o) = depack_step(s1, ps.last());
        (s2, outs.push(o))
    }
}

pub open spec fn opt_bytes_view(o: Option<Vec<u8>>) -> Option<Seq<u8>> {
    match o {
        Some(v) => Some(v@),
        None => None,
    }
}

pub open spec fn frame_view(r: Option<ReassembledFrame>) -> Option<(u32, bool, Seq<u8>)> {
    match r {
        Some(f) => Some((f.frame_index, f.is_keyframe, f.data@)),
        None => None,
    }
}

/// Reassembles RTP packets back into complete frames.
pub struct RtpDepacketizer {
    current_frame_index: Option<u32>,
    shards: Vec<Option<Vec<u8>>>,
    expected_count: usize,
}

impl RtpDepacketizer {
    pub closed spec fn view(&self) -> DepackState {
        DepackState {
            current: self.current_frame_index,
            shards: self.shards@.map_values(|o: Option<Vec<u8>>| opt_bytes_view(o)),
            expected: self.expected_count as nat,
        }
    }

    pub fn new() -> (r: Self)
        ensures
            r.view().current is None,
            r.view().shards.len() == 0,
            r.view().expected == 0,
            depack_wf(r.view()),
    {
        RtpDepacketizer { current_frame_index: None, shards: Vec::new(), expected_count: 0 }
    }

    /// Feed one packet; returns the frame once it is complete.
    pub fn feed(&mut self, packet: &[u8]) -> (r: Option<ReassembledFrame>)
        ensures
            (final(self).view(), frame_view(r)) == depack_step(old(self).view(), packet@),
            depack_wf(old(self).view()) ==> depack_wf(final(self).view()),
            depack_wf(old(self).view()) && r is Some ==> all_some(final(self).view().shards),
    {
        proof {
            if depack_wf(self.view()) {
                lemma_depack_emits_whole_frames(self.view(), packet@);
            }
        }
        let hdr = match read_fvp_header(packet) {
            Some(h) => h,
            None => {
                return None;
            },
        };
        let marker = packet[1] >= 128;
        let frame_index = hdr.frame_index;
        let shard_index = hdr.shard_index as usize;
        let shard_count = hdr.shard_count as usize;
        let is_keyframe = hdr.is_keyframe();
        let payload = vstd::slice::slice_subrange(packet, PACKET_HEADER_LEN, packet.len());
        if !hdr.is_valid() {
            return None;
        }
        let ghost old_view = self.view();
        let fresh = match self.current_frame_index {
            Some(c) => c != frame_index,
            None => true,
        };
        if fresh {
            self.current_frame_index = Some(frame_index);
            let mut fresh_shards: Vec<Option<Vec<u8>>> = Vec::new();
            let mut j: usize = 0;
            while j < shard_count
                invariant
                    j <= shard_count,
                    fresh_shards@.len() == j,
                    forall|k: int| 0 <= k < j ==> (#[trigger] fresh_shards@[k]) is None,
                decreases shard_count - j,
            {
                fresh_shards.push(None);
                j = j + 1;
            }
            self.shards = fresh_shards;
            self.expected_count = shard_count;
            proof {
                assert(self.view().shards =~= no_shards(shard_count as nat));
            }
        }
        let ghost base = self.view().shards;
        if shard_index < self.shards.len() {
            let stored_payload = vstd::slice::slice_to_vec(payload);
            self.shards.set(shard_index, Some(stored_payload));
            proof {
                assert(self.view().shards =~= base.update(shard_index as int, Some(payload@)));
            }
        }
        let ghost stored = self.view().shards;
        // Count present slots and check whether all are present.
        let mut received: usize = 0;
        let mut all_present = true;
        let mut k: usize = 0;
        while k < self.shards.len()
            invariant
                k <= self.shards@.len(),
                stored == self.view().shards,
                stored.len() == self.shards@.len(),
                received == count_some(stored.subrange(0, k as int)),
                received <= k,
                all_present == all_some(stored.subrange(0, k as int)),
            decreases self.shards@.len() - k,
        {
            proof {
                assert(stored.subrange(0, k + 1).drop_last() =~= stored.subrange(0, k as int));
            }
            if self.shards[k].is_some() {
                received = received + 1;
            } else {
                all_present = false;
                assert(!all_some(stored.subrange(0, k + 1)));
            }
            k = k + 1;
        }
        proof {
            assert(stored.subrange(0, stored.len() as int) =~= stored);
        }
        if (marker || all_present) && received == self.expected_count {
            let mut frame_data: Vec<u8> = Vec::new();
            let mut k: usize = 0;
            while k < self.shards.len()
                invariant
                    k <= self.shards@.len(),
                    stored == self.view().shards,
                    stored.len() == self.shards@.len(),
                    frame_data@ == concat_some(stored.subrange(0, k as int)),
                decreases self.shards@.len() - k,
            {
                proof {
                    assert(stored.subrange(0, k + 1).drop_last() =~= stored.subrange(0, k as int));
                }
                match &self.shards[k] {
                    Some(d) => {
                        push_bytes(&mut frame_data, d.as_slice());
                    },
                    None => {
                        assert(frame_data@ =~= frame_data@ + Seq::<u8>::empty());
                    },
                }
                k = k + 1;
            }
            self.current_frame_index = None;
            return Some(ReassembledFrame { frame_index, is_keyframe, data: frame_data });
        }
        None
    }
}


// ---------------------------------------------------------------------------
// Packetize / depacketize roundtrip
// ---------------------------------------------------------------------------

pub open spec fn empty_depack() -> DepackState {
    DepackState { current: None, shards: Seq::empty(), expected: 0 }
}

/// `n` slots of which the first `k` hold the frame's chunks.
pub open spec fn chunk_slots(data: Seq<u8>, n: nat, k: nat) -> Seq<Option<Seq<u8>>> {
    Seq::new(n, |j: int| if j < k { Some(chunk_of(data, j)) } else { None })
}

proof fn lemma_count_slots(data: Seq<u8>, n: nat, k: nat)
    ensures
        count_some(chunk_slots(data, n, k)) == if k < n { k } else { n },
    decreases n,
{
    if n > 0 {
        assert(chunk_slots(data, n, k).drop_last() =~= chunk_slots(data, (n - 1) as nat, k));
        lemma_count_slots(data, (n - 1) as nat, k);
    }
}

proof fn lemma_concat_slots(data: Seq<u8>, m: nat, k: nat)
    requires
        m <= chunk_count(data.len()),
        m <= k,
    ensures
        concat_some(chunk_slots(data, m, k)) == data.subrange(
            0,
            if m * MAX_PAYLOAD <= data.len() { m * MAX_PAYLOAD } else { data.len() as int },
        ),
    decreases m,
{
    if m == 0 {
        assert(data.subrange(0, 0) =~= Seq::<u8>::empty());
    } else {
        let prev = (m - 1) as nat;
        assert(chunk_slots(data, m, k).drop_last() =~= chunk_slots(data, prev, k));
        lemma_concat_slots(data, prev, k);
        assert(prev * MAX_PAYLOAD < data.len());
        assert(data.subrange(0, prev * MAX_PAYLOAD) + chunk_of(data, prev as int) =~= data.subrange(
            0,
            if m * MAX_PAYLOAD <= data.len() { m * MAX_PAYLOAD } else { data.len() as int },
        ));
    }
}

proof fn lemma_packet_facts(
    ssrc: u32,
    seq0: u16,
    data: Seq<u8>,
    frame_index: u32,
    timestamp: u32,
    is_keyframe: bool,
    k: int,
)
    requires
        data.len() > 0,
        chunk_count(data.len()) <= MAX_FRAME_SHARDS,
        0 <= k < chunk_count(data.len()),
    ensures
        ({
            let n = chunk_count(data.len());
            let p = packetize_spec(ssrc, seq0, data, frame_index, timestamp, is_keyframe)[k];
            &&& read_fvp_header_spec(p) == Some(
                FvpHeader {
                    frame_index,
                    shard_index: k as u16,
                    shard_count: n as u16,
                    flags: if is_keyframe { 1u16 } else { 0u16 },
                    data_shard_count: n as u16,
                },
            )
            &&& p.subrange(PACKET_HEADER_LEN as int, p.len() as int) == chunk_of(data, k)
            &&& packet_marker(p) == (k == n - 1)
        }),
{
    let n = chunk_count(data.len());
    let seq = ((seq0 + k) % 65536) as u16;
    let rtp = rtp_header_bytes(RTP_PT_H265, k == n - 1, seq, timestamp, ssrc);
    let flags: u16 = if is_keyframe { 1u16 } else { 0u16 };
    let p = packetize_spec(ssrc, seq0, data, frame_index, timestamp, is_keyframe)[k];
    assert(p == rtp + fvp_header_bytes(frame_index, k as u16, n as u16, flags, n as u16) + chunk_of(data, k));
    lemma_fvp_header_roundtrip(p, rtp, frame_index, k as u16, n as u16, flags, n as u16, chunk_of(data, k));
    assert(p[1] == rtp[1]);
}

#[verifier::spinoff_prover]
#[verifier::rlimit(40)]
proof fn lemma_run_prefix(
    ssrc: u32,
    seq0: u16,
    data: Seq<u8>,
    frame_index: u32,
    timestamp: u32,
    is_keyframe: bool,
    k: nat,
)
    requires
        data.len() > 0,
        chunk_count(data.len()) <= MAX_FRAME_SHARDS,
        k <= chunk_count(data.len()),
    ensures
        ({
            let n = chunk_count(data.len());
            let ps = packetize_spec(ssrc, seq0, data, frame_index, timestamp, is_keyframe);
            let (st, outs) = depack_run(empty_depack(), ps.subrange(0, k as int));
            &&& outs.len() == k
            &&& forall|j: int| 0 <= j < k && j < n - 1 ==> #[trigger] outs[j] is None
            &&& k == 0 ==> st == empty_depack()
            &&& (0 < k < n) ==> (st.current == Some(frame_index) && st.shards == chunk_slots(data, n, k)
                && st.expected == n)
            &&& (k == n) ==> outs[k - 1] == Some((frame_index, is_keyframe, data))
        }),
    decreases k,
{
    let n = chunk_count(data.len());
    let ps = packetize_spec(ssrc, seq0, data, frame_index, timestamp, is_keyframe);
    if k == 0 {
        assert(ps.subrange(0, 0) =~= Seq::<Seq<u8>>::empty());
    } else {
        let j = (k - 1) as nat;
        lemma_run_prefix(ssrc, seq0, data, frame_index, timestamp, is_keyframe, j);
        assert(ps.subrange(0, k as int).drop_last() =~= ps.subrange(0, j as int));
        assert(ps.subrange(0, k as int).last() == ps[j as int]);
        let (s1, outs1) = depack_run(empty_depack(), ps.subrange(0, j as int));
        lemma_packet_facts(ssrc, seq0, data, frame_index, timestamp, is_keyframe, j as int);
        let p = ps[j as int];
        let h = FvpHeader {
            frame_index,
            shard_index: j as u16,
            shard_count: n as u16,
            flags: if is_keyframe { 1u16 } else { 0u16 },
            data_shard_count: n as u16,
        };
        assert(h.valid());
        let base = if s1.current != Some(frame_index) { no_shards(n) } else { s1.shards };
        assert(base =~= chunk_slots(data, n, j));
        let stored = base.update(j as int, Some(chunk_of(data, j as int)));
        assert(stored =~= chunk_slots(data, n, k));
        lemma_count_slots(data, n, k);
        if k < n {
            assert(!(stored[n - 1] is Some));
            assert(!all_some(stored));
        } else {
            lemma_concat_slots(data, n, n);
            assert(data.subrange(0, data.len() as int) =~= data);
        }
    }
}

/// Feeding, in order, every packet `packetize` makes of a frame to a fresh
/// depacketizer returns nothing until the last packet, which returns the
/// frame: its index, keyframe flag and exact bytes. Holds for every
/// non-empty frame whose packet count is within `MAX_FRAME_SHARDS`.
pub proof fn lemma_packetize_depacketize_roundtrip(
    ssrc: u32,
    seq0: u16,
    data: Seq<u8>,
    frame_index: u32,
    timestamp: u32,
    is_keyframe: bool,
)
    requires
        data.len() > 0,
        chunk_count(data.len()) <= MAX_FRAME_SHARDS,
    ensures
        ({
            let ps = packetize_spec(ssrc, seq0, data, frame_index, timestamp, is_keyframe);
            let outs = depack_run(empty_depack(), ps).1;
            &&& ps.len() == chunk_count(data.len())
            &&& outs.len() == ps.len()
            &&& forall|j: int| 0 <= j < ps.len() - 1 ==> #[trigger] outs[j] is None
            &&& outs[ps.len() - 1] == Some((frame_index, is_keyframe, data))
        }),
{
    let n = chunk_count(data.len());
    let ps = packetize_spec(ssrc, seq0, data, frame_index, timestamp, is_keyframe);
    lemma_run_prefix(ssrc, seq0, data, frame_index, timestamp, is_keyframe, n);
    assert(ps.subrange(0, n as int) =~= ps);
}

} // verus!
