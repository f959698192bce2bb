//! Frame → FEC-protected RTP packets, and the receiver-side reassembly.

use vstd::prelude::*;
use crate::protocol::{
    flags_encode, flags_encode_simple, flags_get_slice_count, flags_get_slice_index, flags_is_keyframe, flags_slice_count, flags_slice_index,
    flags_value, le32_at, lemma_le32_roundtrip, read_le32, push_bytes, push_le32, le32,
    FEC_SHARD_SIZE, MAX_FRAME_SHARDS, PACKET_HEADER_LEN, RTP_HEADER_LEN, MAX_SLICE_COUNT, RTP_PT_H265,
};
use crate::transport::fec::{
    agrees_with, copy_bytes, count_present, encodable, fec_error_text, opt_shard_views, parity_for,
    max_data_for, present_uniform, rs_codeword, rs_parity_shards, rs_reconstructed, shard_views, zeros,
    lemma_count_present_fill, lemma_count_present_none, FecDecoder, FecEncoder, FecError,
    RS_MAX_SHARDS,
};
use crate::transport::rtp::{
    all_some, fvp_header_bytes, lemma_fvp_header_roundtrip, no_shards, opt_bytes_view, packets_view, FvpHeader, read_fvp_header, read_fvp_header_spec, rtp_header_bytes,
    frame_view, ReassembledFrame, RtpPacket, RtpPacketizer,
};
use crate::transport::slice::{
    concat_all, lemma_slice_start_bound, lemma_slice_start_step, slice_size, slice_start, slices_view,
    SliceSplitter,
};

verus! {

/// SSRC written by the FEC packet path.
pub const FEC_SSRC: u32 = 0x42;

/// Minimum frame size for slice-based FEC to be worth it.
pub const MIN_SLICE_SIZE: usize = 16_384;

/// Bytes of the u32 length prefix at the start of every slice.
pub const SLICE_LEN_PREFIX: usize = 4;

/// Number of `FEC_SHARD_SIZE` shards `len` bytes need.
pub open spec fn shard_count_for(len: nat) -> nat {
    ((len + FEC_SHARD_SIZE - 1) / (FEC_SHARD_SIZE as int)) as nat
}

/// Shard `i` of `data`: its bytes, zero-padded to `FEC_SHARD_SIZE`.
pub open spec fn padded_shard(data: Seq<u8>, i: int) -> Seq<u8> {
    let lo = i * FEC_SHARD_SIZE;
    let hi = if lo + FEC_SHARD_SIZE <= data.len() { lo + FEC_SHARD_SIZE } else { data.len() as int };
    data.subrange(lo, hi) + Seq::new((FEC_SHARD_SIZE - (hi - lo)) as nat, |k: int| 0u8)
}

proof fn lemma_padded_len(data: Seq<u8>, i: int)
    requires
        0 <= i < shard_count_for(data.len()),
    ensures
        padded_shard(data, i).len() == FEC_SHARD_SIZE,
{
    assert(i * FEC_SHARD_SIZE < data.len());
}

pub open spec fn data_shards_spec(data: Seq<u8>) -> Seq<Seq<u8>> {
    Seq::new(shard_count_for(data.len()), |i: int| padded_shard(data, i))
}

/// Cut `data` into `FEC_SHARD_SIZE` shards, zero-padding the last one.
pub fn to_data_shards(data: &[u8]) -> (r: Vec<Vec<u8>>)
    ensures
        shard_views(r@) == data_shards_spec(data@),
{
    let len = data.len();
    let mut shards: Vec<Vec<u8>> = Vec::new();
    let mut i: usize = 0;
    let n = len / FEC_SHARD_SIZE + if len % FEC_SHARD_SIZE == 0 {
        0
    } else {
        1
    };
    assert(n == shard_count_for(len as nat));
    while i < n
        invariant
            len == data@.len(),
            n == shard_count_for(len as nat),
            i <= n,
            shard_views(shards@) == data_shards_spec(data@).subrange(0, i as int),
        decreases n - i,
    {
        assert(i * FEC_SHARD_SIZE < len);
        let lo = i * FEC_SHARD_SIZE;
        let hi = if len - lo >= FEC_SHARD_SIZE {
            lo + FEC_SHARD_SIZE
        } else {
            len
        };
        let chunk = vstd::slice::slice_subrange(data, lo, hi);
        let mut shard: Vec<u8> = Vec::with_capacity(FEC_SHARD_SIZE);
        push_bytes(&mut shard, chunk);
        let pad = zeros(FEC_SHARD_SIZE - (hi - lo));
        push_bytes(&mut shard, pad.as_slice());
        assert(shard@ =~= padded_shard(data@, i as int));
        let ghost prev = shards@;
        shards.push(shard);
        proof {
            assert(shard_views(shards@) =~= shard_views(prev).push(shard@));
            assert(data_shards_spec(data@).subrange(0, i + 1) =~= data_shards_spec(data@).subrange(
                0,
                i as int,
            ).push(padded_shard(data@, i as int)));
        }
        i = i + 1;
    }
    assert(data_shards_spec(data@).subrange(0, n as int) =~= data_shards_spec(data@));
    shards
}

/// Packet `i` of a shard batch: RTP header (SSRC `FEC_SSRC`, marker on the
/// last), FVP header `(i, n, flags, data_count)`, the shard.
pub open spec fn shard_packet(
    sequence: u16,
    timestamp: u32,
    frame_index: u32,
    i: int,
    n: nat,
    flags: u16,
    data_count: nat,
    shard: Seq<u8>,
) -> Seq<u8> {
    rtp_header_bytes(RTP_PT_H265, i == n - 1, sequence, timestamp, FEC_SSRC) + fvp_header_bytes(
        frame_index,
        i as u16,
        n as u16,
        flags,
        data_count as u16,
    ) + shard
}

/// The packets `shards_to_packets` makes: none for more than
/// `MAX_FRAME_SHARDS` shards (every receiver would reject them), else one
/// per shard with consecutive sequence numbers from `seq0`.
pub open spec fn shard_packets_spec(
    seq0: u16,
    shards: Seq<Seq<u8>>,
    data_count: nat,
    frame_index: u32,
    timestamp: u32,
    flags: u16,
) -> Seq<Seq<u8>> {
    if shards.len() > MAX_FRAME_SHARDS {
        Seq::empty()
    } else {
        Seq::new(
            shards.len(),
            |i: int|
                shard_packet(
                    ((seq0 + i) % 65536) as u16,
                    timestamp,
                    frame_index,
                    i,
                    shards.len(),
                    flags,
                    data_count,
                    shards[i],
                ),
        )
    }
}

proof fn lemma_seq_next(seq0: int, i: int)
    requires
        0 <= seq0,
        0 <= i,
    ensures
        ((seq0 + i) % 65536 + 1) % 65536 == (seq0 + i + 1) % 65536,
{
    vstd::arithmetic::div_mod::lemma_add_mod_noop(seq0 + i, 1, 65536);
    vstd::arithmetic::div_mod::lemma_small_mod(1, 65536);
}

proof fn lemma_shard_packet_len(
    sequence: u16,
    timestamp: u32,
    frame_index: u32,
    i: int,
    n: nat,
    flags: u16,
    data_count: nat,
    shard: Seq<u8>,
)
    ensures
        shard_packet(sequence, timestamp, frame_index, i, n, flags, data_count, shard).len() == PACKET_HEADER_LEN
            + shard.len(),
{
    let rtp = rtp_header_bytes(RTP_PT_H265, i == n - 1, sequence, timestamp, FEC_SSRC);
    let fvp = fvp_header_bytes(frame_index, i as u16, n as u16, flags, data_count as u16);
    assert(rtp.len() == RTP_HEADER_LEN);
    assert(fvp.len() == 12);
}

/// Every packet of a batch is a full header plus a shard of `len` bytes.
proof fn lemma_batch_packet_lens(
    seq0: u16,
    shards: Seq<Seq<u8>>,
    data_count: nat,
    frame_index: u32,
    timestamp: u32,
    flags: u16,
    len: nat,
)
    requires
        crate::transport::fec::all_len(shards, len),
    ensures
        forall|k: int|
            0 <= k < shard_packets_spec(seq0, shards, data_count, frame_index, timestamp, flags).len()
                ==> (#[trigger] shard_packets_spec(seq0, shards, data_count, frame_index, timestamp, flags)[k]).len()
                == PACKET_HEADER_LEN + len,
{
    let ps = shard_packets_spec(seq0, shards, data_count, frame_index, timestamp, flags);
    assert forall|k: int| 0 <= k < ps.len() implies (#[trigger] ps[k]).len() == PACKET_HEADER_LEN + len by {
        lemma_shard_packet_len(
            ((seq0 + k) % 65536) as u16,
            timestamp,
            frame_index,
            k,
            shards.len(),
            flags,
            data_count,
            shards[k],
        );
    }
}

/// Wrap each shard in RTP + FVP headers; `data_count` goes into every
/// packet so receivers know the data/parity split.
pub fn shards_to_packets(
    all_shards: &Vec<Vec<u8>>,
    data_count: usize,
    frame_index: u32,
    timestamp_90khz: u32,
    flags: u16,
    packetizer: &mut RtpPacketizer,
) -> (r: Vec<RtpPacket>)
    requires
        0 < data_count <= all_shards@.len(),
    ensures
        packets_view(r@) == shard_packets_spec(
            old(packetizer).sequence_spec(),
            shard_views(all_shards@),
            data_count as nat,
            frame_index,
            timestamp_90khz,
            flags,
        ),
        final(packetizer).sequence_spec() == (old(packetizer).sequence_spec() + r@.len()) % 65536,
        final(packetizer).ssrc_spec() == old(packetizer).ssrc_spec(),
{
    let total_shards = all_shards.len();
    if total_shards > MAX_FRAME_SHARDS {
        let r: Vec<RtpPacket> = Vec::new();
        assert(packets_view(r@) =~= Seq::<Seq<u8>>::empty());
        return r;
    }
    let ghost seq0 = packetizer.sequence_spec();
    let ghost sv = shard_views(all_shards@);
    let mut packets: Vec<RtpPacket> = Vec::with_capacity(total_shards);
    let mut i: usize = 0;
    while i < total_shards
        invariant
            total_shards == all_shards@.len(),
            total_shards <= MAX_FRAME_SHARDS,
            0 < data_count <= total_shards,
            sv == shard_views(all_shards@),
            i <= total_shards,
            packets@.len() == i,
            packetizer.sequence_spec() == (seq0 + i) % 65536,
            packetizer.ssrc_spec() == old(packetizer).ssrc_spec(),
            seq0 == old(packetizer).sequence_spec(),
            forall|k: int|
                0 <= k < i ==> (#[trigger] packets@[k]).data@ == shard_packet(
                    ((seq0 + k) % 65536) as u16,
                    timestamp_90khz,
                    frame_index,
                    k,
                    total_shards as nat,
                    flags,
                    data_count as nat,
                    sv[k],
                ),
        decreases total_shards - i,
    {
        let is_last = i == total_shards - 1;
        let ghost cur = packetizer.sequence_spec();
        let pkt = packetizer.build_packet(
            is_last,
            timestamp_90khz,
            FEC_SSRC,
            frame_index,
            i as u16,
            total_shards as u16,
            flags,
            data_count as u16,
            all_shards[i].as_slice(),
        );
        proof {
            lemma_seq_next(seq0 as int, i as int);
            assert(all_shards@[i as int]@ == sv[i as int]);
        }
        let ghost prev = packets@;
        packets.push(pkt);
        proof {
            assert forall|k: int| 0 <= k < i + 1 implies (#[trigger] packets@[k]).data@ == shard_packet(
                ((seq0 + k) % 65536) as u16,
                timestamp_90khz,
                frame_index,
                k,
                total_shards as nat,
                flags,
                data_count as nat,
                sv[k],
            ) by {
                if k < i {
                    assert(packets@[k] == prev[k]);
                }
            }
        }
        i = i + 1;
    }
    proof {
        assert(packets_view(packets@) =~= shard_packets_spec(
            seq0,
            sv,
            data_count as nat,
            frame_index,
            timestamp_90khz,
            flags,
        ));
    }
    packets
}

/// What the bulk path sends for a frame: its data shards followed by
/// parity when they form a code word under `table`, else the data shards
/// alone (header data count = total); nothing for an empty frame.
pub open spec fn bulk_packets_spec(
    table: Seq<u16>,
    seq0: u16,
    frame: Seq<u8>,
    frame_index: u32,
    timestamp: u32,
    is_keyframe: bool,
) -> Seq<Seq<u8>> {
    let ds = data_shards_spec(frame);
    let flags: u16 = if is_keyframe { 1 } else { 0 };
    if ds.len() == 0 {
        Seq::empty()
    } else if encodable(table, ds) {
        shard_packets_spec(
            seq0,
            ds + rs_parity_shards(ds.len(), parity_for(table, ds.len()), ds),
            ds.len(),
            frame_index,
            timestamp,
            flags,
        )
    } else {
        shard_packets_spec(seq0, ds, ds.len(), frame_index, timestamp, flags)
    }
}

/// Data shards only, for a frame no FEC layout can carry.
fn encode_frame_without_fec(
    frame_data: &[u8],
    frame_index: u32,
    timestamp_90khz: u32,
    is_keyframe: bool,
    packetizer: &mut RtpPacketizer,
) -> (r: Vec<RtpPacket>)
    requires
        frame_data@.len() > 0,
    ensures
        packets_view(r@) == shard_packets_spec(
            old(packetizer).sequence_spec(),
            data_shards_spec(frame_data@),
            shard_count_for(frame_data@.len()),
            frame_index,
            timestamp_90khz,
            if is_keyframe { 1u16 } else { 0u16 },
        ),
        final(packetizer).sequence_spec() == (old(packetizer).sequence_spec() + r@.len()) % 65536,
        final(packetizer).ssrc_spec() == old(packetizer).ssrc_spec(),
        forall|k: int| 0 <= k < r@.len() ==> (#[trigger] r@[k]).data@.len() == PACKET_HEADER_LEN + FEC_SHARD_SIZE,
{
    let shards = to_data_shards(frame_data);
    proof {
        let ds = data_shards_spec(frame_data@);
        assert forall|i: int| 0 <= i < ds.len() implies (#[trigger] ds[i]).len() == FEC_SHARD_SIZE by {
            lemma_padded_len(frame_data@, i);
        }
        lemma_batch_packet_lens(
            packetizer.sequence_spec(),
            ds,
            shard_count_for(frame_data@.len()),
            frame_index,
            timestamp_90khz,
            if is_keyframe { 1u16 } else { 0u16 },
            FEC_SHARD_SIZE as nat,
        );
    }
    let flags = flags_encode_simple(is_keyframe);
    let n = shards.len();
    assert(shard_views(shards@).len() == shards@.len());
    assert(n == shard_count_for(frame_data@.len()));
    let r = shards_to_packets(&shards, n, frame_index, timestamp_90khz, flags, packetizer);
    proof {
        assert forall|k: int| 0 <= k < r@.len() implies (#[trigger] r@[k]).data@.len() == PACKET_HEADER_LEN
            + FEC_SHARD_SIZE by {
            assert(packets_view(r@)[k] == r@[k].data@);
        }
    }
    r
}

/// Encode a frame using a reusable encoder: data shards, plus parity when
/// they form a code word (else data shards only).
pub fn encode_frame_to_packets_with_fec(
    frame_data: &[u8],
    frame_index: u32,
    timestamp_90khz: u32,
    is_keyframe: bool,
    fec: &mut FecEncoder,
    packetizer: &mut RtpPacketizer,
) -> (r: Vec<RtpPacket>)
    ensures
        packets_view(r@) == bulk_packets_spec(
            old(fec).table(),
            old(packetizer).sequence_spec(),
            frame_data@,
            frame_index,
            timestamp_90khz,
            is_keyframe,
        ),
        final(packetizer).sequence_spec() == (old(packetizer).sequence_spec() + r@.len()) % 65536,
        final(packetizer).ssrc_spec() == old(packetizer).ssrc_spec(),
        final(fec).table() == old(fec).table(),
        forall|k: int| 0 <= k < r@.len() ==> (#[trigger] r@[k]).data@.len() == PACKET_HEADER_LEN + FEC_SHARD_SIZE,
        encodable(old(fec).table(), data_shards_spec(frame_data@)) ==> r@.len() == shard_count_for(
            frame_data@.len(),
        ) + parity_for(old(fec).table(), shard_count_for(frame_data@.len())),
{
    let data_shards = to_data_shards(frame_data);
    let ghost ds = data_shards_spec(frame_data@);
    if data_shards.len() == 0 {
        let r: Vec<RtpPacket> = Vec::new();
        assert(packets_view(r@) =~= Seq::<Seq<u8>>::empty());
        return r;
    }
    let data_count = data_shards.len();
    proof {
        assert(shard_views(data_shards@).len() == data_shards@.len());
        assert forall|i: int| 0 <= i < ds.len() implies (#[trigger] ds[i]).len() == FEC_SHARD_SIZE by {
            lemma_padded_len(frame_data@, i);
        }
        assert(ds[0].len() == FEC_SHARD_SIZE);
        assert(crate::transport::fec::all_len(ds, FEC_SHARD_SIZE as nat));
    }
    match fec.encode(data_shards) {
        Ok(all_shards) => {
            assert(shard_views(all_shards@).len() == all_shards@.len());
            let flags = flags_encode_simple(is_keyframe);
            proof {
                lemma_batch_packet_lens(
                    packetizer.sequence_spec(),
                    shard_views(all_shards@),
                    data_count as nat,
                    frame_index,
                    timestamp_90khz,
                    flags,
                    FEC_SHARD_SIZE as nat,
                );
            }
            let r = shards_to_packets(&all_shards, data_count, frame_index, timestamp_90khz, flags, packetizer);
            proof {
                assert forall|k: int| 0 <= k < r@.len() implies (#[trigger] r@[k]).data@.len() == PACKET_HEADER_LEN
                    + FEC_SHARD_SIZE by {
                    assert(packets_view(r@)[k] == r@[k].data@);
                }
                assert(data_count == shard_count_for(frame_data@.len()));
                assert(all_shards@.len() <= RS_MAX_SHARDS);
                assert(packets_view(r@).len() == all_shards@.len());
            }
            r
        },
        Err(_) => {
            assert(frame_data@.len() > 0);
            encode_frame_without_fec(frame_data, frame_index, timestamp_90khz, is_keyframe, packetizer)
        },
    }
}

/// Encode a frame with a fresh encoder built from `parity_table`.
pub fn encode_frame_to_packets(
    frame_data: &[u8],
    frame_index: u32,
    timestamp_90khz: u32,
    is_keyframe: bool,
    parity_table: Vec<u16>,
    packetizer: &mut RtpPacketizer,
) -> (r: Vec<RtpPacket>)
    ensures
        packets_view(r@) == bulk_packets_spec(
            parity_table@,
            old(packetizer).sequence_spec(),
            frame_data@,
            frame_index,
            timestamp_90khz,
            is_keyframe,
        ),
        final(packetizer).sequence_spec() == (old(packetizer).sequence_spec() + r@.len()) % 65536,
        forall|k: int| 0 <= k < r@.len() ==> (#[trigger] r@[k]).data@.len() == PACKET_HEADER_LEN + FEC_SHARD_SIZE,
        encodable(parity_table@, data_shards_spec(frame_data@)) ==> r@.len() == shard_count_for(frame_data@.len())
            + parity_for(parity_table@, shard_count_for(frame_data@.len())),
{
    let mut fec = FecEncoder::from_parity_table(parity_table);
    encode_frame_to_packets_with_fec(frame_data, frame_index, timestamp_90khz, is_keyframe, &mut fec, packetizer)
}


/// How a frame is split into Reed-Solomon code words.
#[derive(Debug, Clone, Copy, PartialEq, Eq, Structural)]
pub enum FecLayout {
    /// The whole frame is one code word.
    Bulk,
    /// The frame is split into this many slices, each its own code word.
    Sliced(u8),
    /// Too big for any layout: data shards only, no parity.
    Unprotected,
}

pub open spec fn ceil_div(a: nat, b: nat) -> nat {
    ((a + b - 1) / (b as int)) as nat
}

/// Data shards one slice of `slice_len` bytes needs, length prefix included.
pub open spec fn slice_data_shards_spec(slice_len: nat) -> nat {
    shard_count_for(slice_len + SLICE_LEN_PREFIX as nat)
}

/// With `n` slices the largest (first) slice fits one code word.
pub open spec fn slices_fit(frame_len: nat, n: nat, max_data_shards: nat) -> bool {
    slice_data_shards_spec(ceil_div(frame_len, n)) <= max_data_shards
}

/// Whether slicing applies to a frame, and the first slice count tried.
pub open spec fn layout_slicing(frame_len: nat, slice_fec_enabled: bool) -> bool {
    slice_fec_enabled && frame_len >= MIN_SLICE_SIZE
}

pub open spec fn layout_from(frame_len: nat, slice_fec_enabled: bool, slice_count: u8) -> nat {
    if layout_slicing(frame_len, slice_fec_enabled) {
        if slice_count < 1 {
            1
        } else if slice_count > MAX_SLICE_COUNT {
            MAX_SLICE_COUNT as nat
        } else {
            slice_count as nat
        }
    } else {
        1
    }
}

/// `a / b` rounded up, without overflow.
fn div_ceil_usize(a: usize, b: usize) -> (r: usize)
    requires
        b > 0,
    ensures
        r == ceil_div(a as nat, b as nat),
{
    let q = a / b;
    let rem = a % b;
    proof {
        lemma_ceil_div(a as nat, b as nat);
    }
    if rem == 0 {
        q
    } else {
        q + 1
    }
}

proof fn lemma_ceil_div(a: nat, b: nat)
    requires
        b > 0,
    ensures
        ceil_div(a, b) == a / b + if a % b == 0 { 0nat } else { 1nat },
        a % b != 0 ==> a / b < a,
{
    let q = a / b;
    let r = a % b;
    vstd::arithmetic::div_mod::lemma_fundamental_div_mod(a as int, b as int);
    vstd::arithmetic::div_mod::lemma_mod_bound(a as int, b as int);
    vstd::arithmetic::div_mod::lemma_hoist_over_denominator((r + b - 1) as int, q as int, b);
    assert((r + b - 1) + q * b == a + b - 1) by (nonlinear_arith)
        requires
            a == b * q + r,
    ;
    if r == 0 {
        vstd::arithmetic::div_mod::lemma_basic_div((b - 1) as int, b as int);
    } else {
        assert((r + b - 1) / (b as int) == 1) by {
            vstd::arithmetic::div_mod::lemma_div_plus_one((r - 1) as int, b as int);
            vstd::arithmetic::div_mod::lemma_basic_div((r - 1) as int, b as int);
        }
        assert(q < a) by (nonlinear_arith)
            requires
                a == b * q + r,
                r > 0,
                b >= 1,
                q >= 0,
        ;
    }
}

proof fn lemma_mod_add(a: int, b: int)
    requires
        0 <= a,
        0 <= b,
    ensures
        (a % 65536 + b) % 65536 == (a + b) % 65536,
{
    vstd::arithmetic::div_mod::lemma_add_mod_noop(a, b, 65536);
    vstd::arithmetic::div_mod::lemma_mod_twice(b, 65536);
    vstd::arithmetic::div_mod::lemma_add_mod_noop(a % 65536, b, 65536);
    vstd::arithmetic::div_mod::lemma_mod_twice(a, 65536);
}

/// Data shards one slice of `slice_len` bytes needs, length prefix included.
fn slice_data_shards(slice_len: usize) -> (r: usize)
    ensures
        r == slice_data_shards_spec(slice_len as nat),
{
    let q = slice_len / FEC_SHARD_SIZE;
    let rem = slice_len % FEC_SHARD_SIZE;
    q + (rem + SLICE_LEN_PREFIX + FEC_SHARD_SIZE - 1) / FEC_SHARD_SIZE
}

/// The fewest slices from `n` up to `MAX_SLICE_COUNT` whose largest slice
/// fits one code word.
pub open spec fn first_fitting(frame_len: nat, n: nat, max_data_shards: nat) -> Option<nat>
    decreases MAX_SLICE_COUNT + 1 - n,
{
    if n > MAX_SLICE_COUNT {
        None
    } else if slices_fit(frame_len, n, max_data_shards) {
        Some(n)
    } else {
        first_fitting(frame_len, n + 1, max_data_shards)
    }
}

/// The layout for a `frame_len`-byte frame when one code word holds at most
/// `max_data_shards` data shards. Without slicing (disabled, or a frame
/// under `MIN_SLICE_SIZE`) a frame that fits one code word goes bulk;
/// otherwise the fewest slices, from the configured count (from 1 when not
/// slicing) up to `MAX_SLICE_COUNT`, whose largest slice fits one code
/// word; `Unprotected` when none does.
pub open spec fn fec_layout_spec(frame_len: nat, slice_fec_enabled: bool, slice_count: u8, max_data_shards: nat) -> FecLayout {
    if !layout_slicing(frame_len, slice_fec_enabled) && shard_count_for(frame_len) <= max_data_shards {
        FecLayout::Bulk
    } else {
        match first_fitting(frame_len, layout_from(frame_len, slice_fec_enabled, slice_count), max_data_shards) {
            Some(n) => FecLayout::Sliced(n as u8),
            None => FecLayout::Unprotected,
        }
    }
}

/// Pick how to FEC-code a frame (see `fec_layout_spec`).
pub fn choose_fec_layout(
    frame_len: usize,
    slice_fec_enabled: bool,
    slice_count: u8,
    max_data_shards: usize,
) -> (r: FecLayout)
    ensures
        r == fec_layout_spec(frame_len as nat, slice_fec_enabled, slice_count, max_data_shards as nat),
        r matches FecLayout::Sliced(n) ==> 1 <= n <= MAX_SLICE_COUNT,
{
    let slice = slice_fec_enabled && frame_len >= MIN_SLICE_SIZE;
    let whole = div_ceil_usize(frame_len, FEC_SHARD_SIZE);
    assert(whole == shard_count_for(frame_len as nat));
    if !slice && whole <= max_data_shards {
        return FecLayout::Bulk;
    }
    let from: u8 = if slice {
        if slice_count < 1 {
            1
        } else if slice_count > MAX_SLICE_COUNT {
            MAX_SLICE_COUNT
        } else {
            slice_count
        }
    } else {
        1
    };
    let mut n: u8 = from;
    while n <= MAX_SLICE_COUNT
        invariant
            from == layout_from(frame_len as nat, slice_fec_enabled, slice_count),
            !(!layout_slicing(frame_len as nat, slice_fec_enabled) && shard_count_for(frame_len as nat)
                <= max_data_shards),
            1 <= from <= n <= MAX_SLICE_COUNT + 1,
            first_fitting(frame_len as nat, from as nat, max_data_shards as nat) == first_fitting(
                frame_len as nat,
                n as nat,
                max_data_shards as nat,
            ),
        decreases MAX_SLICE_COUNT + 1 - n,
    {
        let largest = div_ceil_usize(frame_len, n as usize);
        if slice_data_shards(largest) <= max_data_shards {
            return FecLayout::Sliced(n);
        }
        n = n + 1;
    }
    FecLayout::Unprotected
}

/// Slices actually used for a frame of `len` bytes asked to use `count`:
/// at most `MAX_SLICE_COUNT`, and at most one per byte.
pub open spec fn effective_slice_count(len: nat, count: u8) -> nat {
    let a = if count < MAX_SLICE_COUNT { count as nat } else { MAX_SLICE_COUNT as nat };
    let b = if len < 255 { len } else { 255 };
    if a < b { a } else { b }
}

/// Slice `i` of `n`, behind its u32 little-endian length prefix.
pub open spec fn prefixed_slice(frame: Seq<u8>, n: nat, i: nat) -> Seq<u8> {
    let st = slice_start(frame.len(), n, i);
    let sz = slice_size(frame.len(), n, i);
    le32(sz as u32) + frame.subrange(st as int, (st + sz) as int)
}

pub open spec fn slice_shards_spec(frame: Seq<u8>, n: nat, i: nat) -> Seq<Seq<u8>> {
    data_shards_spec(prefixed_slice(frame, n, i))
}

/// Every slice of the frame forms a code word under its encoder's table.
pub open spec fn all_slices_encodable(tables: Seq<Seq<u16>>, frame: Seq<u8>, n: nat) -> bool {
    forall|i: nat| i < n ==> #[trigger] encodable(tables[i as int], slice_shards_spec(frame, n, i))
}

/// The code word of slice `i`: its data shards, then parity.
pub open spec fn slice_codeword(tables: Seq<Seq<u16>>, frame: Seq<u8>, n: nat, i: nat) -> Seq<Seq<u8>> {
    let ds = slice_shards_spec(frame, n, i);
    ds + rs_parity_shards(ds.len(), parity_for(tables[i as int], ds.len()), ds)
}

/// Packets the code words of slices `0..k` make.
pub open spec fn sliced_sent(tables: Seq<Seq<u16>>, frame: Seq<u8>, n: nat, k: nat) -> nat
    decreases k,
{
    if k == 0 {
        0
    } else {
        sliced_sent(tables, frame, n, (k - 1) as nat) + slice_codeword(tables, frame, n, (k - 1) as nat).len()
    }
}

/// The first slice from `i` on that does not form a code word (`n` if none).
pub open spec fn first_unencodable(tables: Seq<Seq<u16>>, frame: Seq<u8>, n: nat, i: nat) -> nat
    decreases n - i,
{
    if i >= n {
        n
    } else if !encodable(tables[i as int], slice_shards_spec(frame, n, i)) {
        i
    } else {
        first_unencodable(tables, frame, n, i + 1)
    }
}

proof fn lemma_first_unencodable_skip(tables: Seq<Seq<u16>>, frame: Seq<u8>, n: nat, j: nat, i: nat)
    requires
        j <= i <= n,
        forall|k: nat| k < i ==> #[trigger] encodable(tables[k as int], slice_shards_spec(frame, n, k)),
    ensures
        first_unencodable(tables, frame, n, j) == first_unencodable(tables, frame, n, i),
    decreases i - j,
{
    if j < i {
        assert(encodable(tables[j as int], slice_shards_spec(frame, n, j)));
        lemma_first_unencodable_skip(tables, frame, n, j + 1, i);
    }
}

proof fn lemma_first_unencodable_le(tables: Seq<Seq<u16>>, frame: Seq<u8>, n: nat, i: nat, j: nat)
    requires
        i <= j < n,
        !encodable(tables[j as int], slice_shards_spec(frame, n, j)),
    ensures
        first_unencodable(tables, frame, n, i) <= j,
    decreases j - i,
{
    if i < j && encodable(tables[i as int], slice_shards_spec(frame, n, i)) {
        lemma_first_unencodable_le(tables, frame, n, i + 1, j);
    }
}

proof fn lemma_first_unencodable(tables: Seq<Seq<u16>>, frame: Seq<u8>, n: nat, i: nat)
    requires
        i <= n,
        forall|j: nat| j < i ==> #[trigger] encodable(tables[j as int], slice_shards_spec(frame, n, j)),
    ensures
        first_unencodable(tables, frame, n, 0) == first_unencodable(tables, frame, n, i),
        i < n && !encodable(tables[i as int], slice_shards_spec(frame, n, i)) ==> first_unencodable(
            tables,
            frame,
            n,
            0,
        ) == i,
        first_unencodable(tables, frame, n, 0) == n <==> all_slices_encodable(tables, frame, n),
{
    lemma_first_unencodable_skip(tables, frame, n, 0, i);
    if all_slices_encodable(tables, frame, n) {
        assert forall|k: nat| k < n implies #[trigger] encodable(tables[k as int], slice_shards_spec(frame, n, k)) by {
        }
        lemma_first_unencodable_skip(tables, frame, n, 0, n);
    } else {
        let j = choose|j: nat| j < n && !#[trigger] encodable(tables[j as int], slice_shards_spec(frame, n, j));
        lemma_first_unencodable_le(tables, frame, n, 0, j);
    }
}

/// Batch `i` of a sliced frame: slice `i`'s code word packetized with
/// slice flags `(i, n)`, sequence numbers continuing from batch `i - 1`.
pub open spec fn sliced_batches(
    tables: Seq<Seq<u16>>,
    seq0: u16,
    frame: Seq<u8>,
    frame_index: u32,
    timestamp: u32,
    is_keyframe: bool,
    n: nat,
) -> Seq<Seq<Seq<u8>>> {
    Seq::new(
        n,
        |i: int|
            shard_packets_spec(
                ((seq0 + sliced_sent(tables, frame, n, i as nat)) % 65536) as u16,
                slice_codeword(tables, frame, n, i as nat),
                slice_shards_spec(frame, n, i as nat).len(),
                frame_index,
                timestamp,
                flags_value(is_keyframe, i as u8, n as u8, 0) as u16,
            ),
    )
}

/// The bytes of each packet of each batch.
pub open spec fn batches_view(bs: Seq<Vec<RtpPacket>>) -> Seq<Seq<Seq<u8>>> {
    bs.map_values(|b: Vec<RtpPacket>| packets_view(b@))
}

pub open spec fn encoder_tables(es: Seq<FecEncoder>) -> Seq<Seq<u16>> {
    es.map_values(|e: FecEncoder| e.table())
}

/// Slicing is attempted: at least one slice and an encoder for each.
pub open spec fn sliced_ready(frame_len: nat, slice_count: u8, encoders: nat) -> bool {
    let n = effective_slice_count(frame_len, slice_count);
    n > 0 && encoders >= n
}

/// What `encode_frame_sliced` returns: the batches of every slice when all
/// of them form code words, else nothing.
pub open spec fn sliced_packets_spec(
    tables: Seq<Seq<u16>>,
    seq0: u16,
    frame: Seq<u8>,
    frame_index: u32,
    timestamp: u32,
    is_keyframe: bool,
    slice_count: u8,
) -> Seq<Seq<Seq<u8>>> {
    let n = effective_slice_count(frame.len(), slice_count);
    if sliced_ready(frame.len(), slice_count, tables.len()) && all_slices_encodable(tables, frame, n) {
        sliced_batches(tables, seq0, frame, frame_index, timestamp, is_keyframe, n)
    } else {
        Seq::empty()
    }
}

/// Sequence number after `encode_frame_sliced`: the packets built before
/// the first slice that is not a code word (all of them when none) used
/// sequence numbers, even if they were then discarded.
pub open spec fn sliced_sequence_after(tables: Seq<Seq<u16>>, seq0: u16, frame: Seq<u8>, slice_count: u8) -> u16 {
    let n = effective_slice_count(frame.len(), slice_count);
    if sliced_ready(frame.len(), slice_count, tables.len()) {
        ((seq0 + sliced_sent(tables, frame, n, first_unencodable(tables, frame, n, 0))) % 65536) as u16
    } else {
        seq0
    }
}

/// Encode a frame with slice-based FEC: split it into
/// `effective_slice_count` slices (one per byte for tiny frames), prefix
/// each with its u32 length, and FEC-code each with its own encoder. All or
/// nothing: no batches unless there is at least one slice, enough encoders,
/// and every slice forms a code word.
#[verifier::rlimit(40)]
pub fn encode_frame_sliced(
    frame_data: &[u8],
    frame_index: u32,
    timestamp_90khz: u32,
    is_keyframe: bool,
    slice_count: u8,
    fec_encoders: &mut Vec<FecEncoder>,
    packetizer: &mut RtpPacketizer,
) -> (r: Vec<Vec<RtpPacket>>)
    ensures
        encoder_tables(final(fec_encoders)@) == encoder_tables(old(fec_encoders)@),
        final(packetizer).ssrc_spec() == old(packetizer).ssrc_spec(),
        batches_view(r@) == sliced_packets_spec(
            encoder_tables(old(fec_encoders)@),
            old(packetizer).sequence_spec(),
            frame_data@,
            frame_index,
            timestamp_90khz,
            is_keyframe,
            slice_count,
        ),
        final(packetizer).sequence_spec() == sliced_sequence_after(
            encoder_tables(old(fec_encoders)@),
            old(packetizer).sequence_spec(),
            frame_data@,
            slice_count,
        ),
        forall|i: int| 0 <= i < r@.len() ==> (#[trigger] r@[i])@.len() > 0,
{
    let len = frame_data.len();
    let a: u8 = if slice_count < MAX_SLICE_COUNT {
        slice_count
    } else {
        MAX_SLICE_COUNT
    };
    let b: u8 = if len < 255 {
        len as u8
    } else {
        255
    };
    let n: u8 = if a < b {
        a
    } else {
        b
    };
    let ghost tables = encoder_tables(fec_encoders@);
    let ghost seq0 = packetizer.sequence_spec();
    let ghost nn = n as nat;
    if n == 0 {
        let r: Vec<Vec<RtpPacket>> = Vec::new();
        assert(batches_view(r@) =~= Seq::<Seq<Seq<u8>>>::empty());
        return r;
    }
    if fec_encoders.len() < n as usize {
        let r: Vec<Vec<RtpPacket>> = Vec::new();
        assert(batches_view(r@) =~= Seq::<Seq<Seq<u8>>>::empty());
        return r;
    }
    let slices = SliceSplitter::split(frame_data, n);
    let mut batches: Vec<Vec<RtpPacket>> = Vec::with_capacity(n as usize);
    let mut idx: usize = 0;
    while idx < n as usize
        invariant
            len == frame_data@.len(),
            nn == n as nat,
            nn == effective_slice_count(len as nat, slice_count),
            0 < n <= len,
            fec_encoders@.len() >= n,
            encoder_tables(fec_encoders@) == tables,
            tables == encoder_tables(old(fec_encoders)@),
            tables.len() == fec_encoders@.len(),
            slices@.len() == n,
            forall|i: int|
                0 <= i < n ==> (#[trigger] slices@[i])@ == frame_data@.subrange(
                    slice_start(len as nat, nn, i as nat) as int,
                    (slice_start(len as nat, nn, i as nat) + slice_size(len as nat, nn, i as nat)) as int,
                ),
            idx <= n,
            batches@.len() == idx,
            packetizer.ssrc_spec() == old(packetizer).ssrc_spec(),
            seq0 == old(packetizer).sequence_spec(),
            packetizer.sequence_spec() == (seq0 + sliced_sent(tables, frame_data@, nn, idx as nat)) % 65536,
            forall|i: nat| i < idx ==> #[trigger] encodable(tables[i as int], slice_shards_spec(frame_data@, nn, i)),
            batches_view(batches@) == sliced_batches(tables, seq0, frame_data@, frame_index, timestamp_90khz, is_keyframe, nn).subrange(0, idx as int),
            forall|i: int| 0 <= i < idx ==> (#[trigger] batches@[i])@.len() > 0,
        decreases n - idx,
    {
        let slice_data = slices[idx];
        proof {
            lemma_slice_start_step(len as nat, nn, idx as nat);
            lemma_slice_start_bound(len as nat, nn, (idx + 1) as nat);
            assert(slice_data@.len() == slice_size(len as nat, nn, idx as nat));
        }
        let mut prefixed: Vec<u8> = Vec::with_capacity(SLICE_LEN_PREFIX);
        push_le32(&mut prefixed, slice_data.len() as u32);
        push_bytes(&mut prefixed, slice_data);
        assert(prefixed@ =~= prefixed_slice(frame_data@, nn, idx as nat));
        let data_shards = to_data_shards(prefixed.as_slice());
        let data_count = data_shards.len();
        proof {
            let ds = slice_shards_spec(frame_data@, nn, idx as nat);
            assert(shard_views(data_shards@) == ds);
            assert(shard_views(data_shards@).len() == data_shards@.len());
            assert forall|i: int| 0 <= i < ds.len() implies (#[trigger] ds[i]).len() == FEC_SHARD_SIZE by {
                lemma_padded_len(prefixed@, i);
            }
            assert(tables[idx as int] == fec_encoders@[idx as int].table());
        }
        let encoded = fec_encoders[idx].encode(data_shards);
        let all_shards = match encoded {
            Ok(v) => v,
            Err(_) => {
                proof {
                    assert(!encodable(tables[idx as int], slice_shards_spec(frame_data@, nn, idx as nat)));
                    lemma_first_unencodable(tables, frame_data@, nn, idx as nat);
                }
                while batches.len() > 0
                    invariant
                        packetizer.ssrc_spec() == old(packetizer).ssrc_spec(),
                        packetizer.sequence_spec() == (seq0 + sliced_sent(tables, frame_data@, nn, idx as nat)) % 65536,
                    decreases batches@.len(),
                {
                    match batches.pop() {
                        Some(batch) => packetizer.recycle(batch),
                        None => {},
                    }
                }
                let r: Vec<Vec<RtpPacket>> = Vec::new();
                assert(batches_view(r@) =~= Seq::<Seq<Seq<u8>>>::empty());
                return r;
            },
        };
        let ghost cw = slice_codeword(tables, frame_data@, nn, idx as nat);
        proof {
            assert(shard_views(all_shards@).len() == all_shards@.len());
            assert(shard_views(all_shards@) == cw);
        }
        let flags = flags_encode(is_keyframe, idx as u8, n, 0);
        let batch = shards_to_packets(&all_shards, data_count, frame_index, timestamp_90khz, flags, packetizer);
        let ghost prev = batches@;
        batches.push(batch);
        proof {
            assert(packets_view(batch@).len() == batch@.len());
            assert(batch@.len() == cw.len());
            assert(data_count > 0);
            assert(batch@.len() > 0);
            assert(sliced_sent(tables, frame_data@, nn, (idx + 1) as nat) == sliced_sent(tables, frame_data@, nn, idx as nat) + cw.len());
            lemma_mod_add(seq0 + sliced_sent(tables, frame_data@, nn, idx as nat), cw.len() as int);
            let full = sliced_batches(tables, seq0, frame_data@, frame_index, timestamp_90khz, is_keyframe, nn);
            assert(batches_view(batches@) =~= batches_view(prev).push(packets_view(batch@)));
            assert(full.subrange(0, idx + 1) =~= full.subrange(0, idx as int).push(full[idx as int]));
        }
        idx = idx + 1;
    }
    proof {
        lemma_first_unencodable(tables, frame_data@, nn, nn);
        let full = sliced_batches(tables, seq0, frame_data@, frame_index, timestamp_90khz, is_keyframe, nn);
        assert(full.subrange(0, nn as int) =~= full);
    }
    batches
}

/// A copy of a parity table.
fn copy_table(t: &Vec<u16>) -> (r: Vec<u16>)
    ensures
        r@ == t@,
{
    let mut r: Vec<u16> = Vec::with_capacity(t.len());
    let mut i: usize = 0;
    while i < t.len()
        invariant
            i <= t@.len(),
            r@ == t@.subrange(0, i as int),
        decreases t@.len() - i,
    {
        r.push(t[i]);
        i = i + 1;
        assert(r@ =~= t@.subrange(0, i as int));
    }
    assert(t@.subrange(0, t@.len() as int) =~= t@);
    r
}

/// One batch holding `p`, or none when `p` is empty.
pub open spec fn single_batch(p: Seq<Seq<u8>>) -> Seq<Seq<Seq<u8>>> {
    if p.len() == 0 {
        Seq::empty()
    } else {
        seq![p]
    }
}

/// `MAX_SLICE_COUNT` copies of one table.
pub open spec fn uniform_tables(table: Seq<u16>) -> Seq<Seq<u16>> {
    Seq::new(MAX_SLICE_COUNT as nat, |i: int| table)
}

/// The batches `FrameFecEncoder::encode` sends for a frame: those of the
/// layout `fec_layout_spec` picks with the bulk table's capacity.
pub open spec fn frame_batches_spec(
    bulk_table: Seq<u16>,
    slice_tables: Seq<Seq<u16>>,
    slicing: bool,
    slices: u8,
    seq0: u16,
    frame: Seq<u8>,
    frame_index: u32,
    timestamp: u32,
    is_keyframe: bool,
) -> Seq<Seq<Seq<u8>>> {
    let flags: u16 = if is_keyframe { 1 } else { 0 };
    match fec_layout_spec(frame.len(), slicing, slices, max_data_for(bulk_table)) {
        FecLayout::Sliced(n) => sliced_packets_spec(slice_tables, seq0, frame, frame_index, timestamp, is_keyframe, n),
        FecLayout::Bulk => single_batch(bulk_packets_spec(bulk_table, seq0, frame, frame_index, timestamp, is_keyframe)),
        FecLayout::Unprotected => single_batch(
            shard_packets_spec(seq0, data_shards_spec(frame), shard_count_for(frame.len()), frame_index, timestamp, flags),
        ),
    }
}

/// The bytes a receiver rebuilds of a frame sent in that layout: the frame
/// itself when sliced (each slice carries its length), else the frame
/// zero-padded to whole shards.
pub open spec fn frame_delivered_bytes(bulk_table: Seq<u16>, slicing: bool, slices: u8, frame: Seq<u8>) -> Seq<u8> {
    match fec_layout_spec(frame.len(), slicing, slices, max_data_for(bulk_table)) {
        FecLayout::Sliced(_) => frame,
        _ => zero_padded(frame),
    }
}

/// Per-session FEC state for outgoing video: one encoder for bulk frames and
/// one for each possible slice, all with the same parity table, plus the
/// slicing settings. Picks the layout of every frame with
/// `choose_fec_layout`.
pub struct FrameFecEncoder {
    bulk: FecEncoder,
    slices: Vec<FecEncoder>,
    slice_fec_enabled: bool,
    slice_count: u8,
}

impl FrameFecEncoder {
    pub closed spec fn bulk_table(&self) -> Seq<u16> {
        self.bulk.table()
    }

    pub closed spec fn slice_tables(&self) -> Seq<Seq<u16>> {
        encoder_tables(self.slices@)
    }

    pub closed spec fn slicing_enabled(&self) -> bool {
        self.slice_fec_enabled
    }

    pub closed spec fn configured_slices(&self) -> u8 {
        self.slice_count
    }

    /// Every encoder, bulk and slices, starts from `parity_table`.
    pub fn new(parity_table: Vec<u16>, slice_fec_enabled: bool, slice_count: u8) -> (r: Self)
        ensures
            r.bulk_table() == parity_table@,
            r.slice_tables() == uniform_tables(parity_table@),
            r.slicing_enabled() == slice_fec_enabled,
            r.configured_slices() == slice_count,
    {
        let mut slices: Vec<FecEncoder> = Vec::with_capacity(MAX_SLICE_COUNT as usize);
        let mut i: u8 = 0;
        while i < MAX_SLICE_COUNT
            invariant
                i <= MAX_SLICE_COUNT,
                slices@.len() == i,
                encoder_tables(slices@) == Seq::new(i as nat, |k: int| parity_table@),
            decreases MAX_SLICE_COUNT - i,
        {
            let ghost prev = slices@;
            let enc = FecEncoder::from_parity_table(copy_table(&parity_table));
            slices.push(enc);
            proof {
                assert forall|k: int| 0 <= k < i + 1 implies encoder_tables(slices@)[k] == parity_table@ by {
                    if k < i {
                        assert(slices@[k] == prev[k]);
                        assert(encoder_tables(prev)[k] == parity_table@);
                    }
                }
            }
            i = i + 1;
            assert(encoder_tables(slices@) =~= Seq::new(i as nat, |k: int| parity_table@));
        }
        FrameFecEncoder { bulk: FecEncoder::from_parity_table(parity_table), slices, slice_fec_enabled, slice_count }
    }

    /// The parity table of the bulk encoder (all encoders share it unless
    /// set otherwise).
    pub fn parity_table(&self) -> (r: &[u16])
        ensures
            r@ == self.bulk_table(),
    {
        self.bulk.parity_table()
    }

    /// Give every encoder, bulk and slices alike, a new parity table.
    pub fn set_parity_table(&mut self, parity_table: Vec<u16>)
        ensures
            final(self).bulk_table() == parity_table@,
            final(self).slice_tables() == Seq::new(old(self).slice_tables().len(), |i: int| parity_table@),
            final(self).slicing_enabled() == old(self).slicing_enabled(),
            final(self).configured_slices() == old(self).configured_slices(),
    {
        let n = self.slices.len();
        let mut i: usize = 0;
        while i < n
            invariant
                n == self.slices@.len(),
                n == old(self).slices@.len(),
                i <= n,
                self.slice_fec_enabled == old(self).slice_fec_enabled,
                self.slice_count == old(self).slice_count,
                forall|k: int| 0 <= k < i ==> (#[trigger] self.slices@[k]).table() == parity_table@,
            decreases n - i,
        {
            let ghost before = self.slices@;
            let mut enc = FecEncoder::from_parity_table(Vec::new());
            std::mem::swap(&mut enc, &mut self.slices[i]);
            enc.set_parity_table(copy_table(&parity_table));
            self.slices.set(i, enc);
            proof {
                assert forall|k: int| 0 <= k < i + 1 implies (#[trigger] self.slices@[k]).table() == parity_table@ by {
                    if k < i {
                        assert(self.slices@[k] == before[k]);
                    }
                }
            }
            i = i + 1;
        }
        self.bulk.set_parity_table(parity_table);
        assert(encoder_tables(self.slices@) =~= Seq::new(n as nat, |k: int| parity_table@));
    }

    /// Encode one frame into its packets, grouped per Reed-Solomon code word
    /// in send order: one batch per slice when the frame is sliced, else a
    /// single batch; none for an empty frame or one that had to be dropped.
    /// The layout is `fec_layout_spec` with the bulk encoder's capacity.
    pub fn encode(
        &mut self,
        frame_data: &[u8],
        frame_index: u32,
        timestamp_90khz: u32,
        is_keyframe: bool,
        packetizer: &mut RtpPacketizer,
    ) -> (r: Vec<Vec<RtpPacket>>)
        ensures
            final(self).bulk_table() == old(self).bulk_table(),
            final(self).slice_tables() == old(self).slice_tables(),
            final(self).slicing_enabled() == old(self).slicing_enabled(),
            final(self).configured_slices() == old(self).configured_slices(),
            final(packetizer).ssrc_spec() == old(packetizer).ssrc_spec(),
            batches_view(r@) == frame_batches_spec(
                old(self).bulk_table(),
                old(self).slice_tables(),
                old(self).slicing_enabled(),
                old(self).configured_slices(),
                old(packetizer).sequence_spec(),
                frame_data@,
                frame_index,
                timestamp_90khz,
                is_keyframe,
            ),
            forall|i: int| 0 <= i < r@.len() ==> (#[trigger] r@[i])@.len() > 0,
            ({
                let seq0 = old(packetizer).sequence_spec();
                let flags: u16 = if is_keyframe { 1 } else { 0 };
                match fec_layout_spec(
                    frame_data@.len(),
                    old(self).slicing_enabled(),
                    old(self).configured_slices(),
                    max_data_for(old(self).bulk_table()),
                ) {
                    FecLayout::Sliced(n) => {
                        &&& batches_view(r@) == sliced_packets_spec(
                            old(self).slice_tables(),
                            seq0,
                            frame_data@,
                            frame_index,
                            timestamp_90khz,
                            is_keyframe,
                            n,
                        )
                        &&& final(packetizer).sequence_spec() == sliced_sequence_after(
                            old(self).slice_tables(),
                            seq0,
                            frame_data@,
                            n,
                        )
                    },
                    FecLayout::Bulk => {
                        let p = bulk_packets_spec(
                            old(self).bulk_table(),
                            seq0,
                            frame_data@,
                            frame_index,
                            timestamp_90khz,
                            is_keyframe,
                        );
                        &&& batches_view(r@) == single_batch(p)
                        &&& final(packetizer).sequence_spec() == (seq0 + p.len()) % 65536
                    },
                    FecLayout::Unprotected => {
                        let p = shard_packets_spec(
                            seq0,
                            data_shards_spec(frame_data@),
                            shard_count_for(frame_data@.len()),
                            frame_index,
                            timestamp_90khz,
                            flags,
                        );
                        &&& batches_view(r@) == single_batch(p)
                        &&& final(packetizer).sequence_spec() == (seq0 + p.len()) % 65536
                    },
                }
            }),
    {
        let max = self.bulk.max_data_shards();
        let layout = choose_fec_layout(frame_data.len(), self.slice_fec_enabled, self.slice_count, max);
        let packets = match layout {
            FecLayout::Sliced(n) => {
                return encode_frame_sliced(
                    frame_data,
                    frame_index,
                    timestamp_90khz,
                    is_keyframe,
                    n,
                    &mut self.slices,
                    packetizer,
                );
            },
            FecLayout::Bulk => encode_frame_to_packets_with_fec(
                frame_data,
                frame_index,
                timestamp_90khz,
                is_keyframe,
                &mut self.bulk,
                packetizer,
            ),
            FecLayout::Unprotected => {
                proof {
                    if frame_data@.len() == 0 {
                        assert(shard_count_for(0) == 0);
                    }
                }
                encode_frame_without_fec(frame_data, frame_index, timestamp_90khz, is_keyframe, packetizer)
            },
        };
        assert(packets_view(packets@).len() == packets@.len());
        if packets.len() == 0 {
            let r: Vec<Vec<RtpPacket>> = Vec::new();
            assert(batches_view(r@) =~= Seq::<Seq<Seq<u8>>>::empty());
            r
        } else {
            let mut r: Vec<Vec<RtpPacket>> = Vec::new();
            r.push(packets);
            assert(batches_view(r@) =~= seq![packets_view(packets@)]);
            assert(r@[0]@.len() > 0);
            r
        }
    }
}

/// Shard counts a receiver accepts: at least one data shard, no more data
/// than total, and at most `MAX_FRAME_SHARDS` in all.
pub open spec fn shard_counts_valid(data_count: nat, total: nat) -> bool {
    &&& total > 0
    &&& total <= MAX_FRAME_SHARDS
    &&& data_count > 0
    &&& data_count <= total
}

/// The shard slots filled from `packets`: each packet with an FVP header and
/// an in-range shard index puts its payload in that slot, later packets
/// overwriting earlier ones.
pub open spec fn packet_slots(packets: Seq<Seq<u8>>, total: nat) -> Seq<Option<Seq<u8>>>
    decreases packets.len(),
{
    if packets.len() == 0 {
        no_shards(total)
    } else {
        let prev = packet_slots(packets.drop_last(), total);
        let p = packets.last();
        match read_fvp_header_spec(p) {
            Some(h) => if (h.shard_index as nat) < total {
                prev.update(h.shard_index as int, Some(p.subrange(PACKET_HEADER_LEN as int, p.len() as int)))
            } else {
                prev
            },
            None => prev,
        }
    }
}

/// The slots can be Reed-Solomon decoded with `data_count` data shards.
pub open spec fn rs_decodable(slots: Seq<Option<Seq<u8>>>, data_count: nat) -> bool {
    &&& 0 < data_count < slots.len()
    &&& slots.len() <= RS_MAX_SHARDS
    &&& present_uniform(slots)
    &&& count_present(slots) >= data_count
}

/// The first `n` bytes of `s` (all of it when shorter).
pub open spec fn truncated(s: Seq<u8>, n: nat) -> Seq<u8> {
    if n < s.len() {
        s.subrange(0, n as int)
    } else {
        s
    }
}

/// Concatenate shards in order.
pub fn concat_shards(shards: &Vec<Vec<u8>>) -> (r: Vec<u8>)
    ensures
        r@ == concat_all(shard_views(shards@)),
{
    let mut out: Vec<u8> = Vec::new();
    let mut i: usize = 0;
    while i < shards.len()
        invariant
            i <= shards@.len(),
            out@ == concat_all(shard_views(shards@).subrange(0, i as int)),
        decreases shards@.len() - i,
    {
        push_bytes(&mut out, shards[i].as_slice());
        proof {
            let sv = shard_views(shards@);
            assert(sv.subrange(0, i + 1).drop_last() =~= sv.subrange(0, i as int));
        }
        i = i + 1;
    }
    proof {
        assert(shard_views(shards@).subrange(0, shards@.len() as int) =~= shard_views(shards@));
    }
    out
}

/// Decode the packets of one frame back into its bytes, given its shard
/// counts and length. Fails with "Invalid shard counts" on counts no sender
/// produces, and with "FEC decode failed: ..." when Reed-Solomon cannot
/// rebuild the data shards from what arrived (too few shards, empty or
/// unequal payloads, all shards data). On success the result is the data
/// shards the library rebuilt, concatenated and cut to
/// `original_frame_len`; whenever the received payloads agree with the
/// code word of some data, that is the original data.
pub fn decode_packets_to_frame(
    packets: &[&[u8]],
    data_shard_count: usize,
    total_shard_count: usize,
    original_frame_len: usize,
) -> (r: Result<Vec<u8>, String>)
    ensures
        !shard_counts_valid(data_shard_count as nat, total_shard_count as nat) ==> (r matches Err(e)
            && e@ == "Invalid shard counts"@),
        ({
            let slots = packet_slots(slices_view(packets@), total_shard_count as nat);
            let d = data_shard_count as nat;
            &&& r is Ok ==> d < slots.len()
            &&& shard_counts_valid(d, total_shard_count as nat) ==> (r is Ok <==> rs_decodable(slots, d))
            &&& shard_counts_valid(d, total_shard_count as nat) && d == total_shard_count
                ==> (r matches Err(e) && e@ == "FEC decode failed: "@ + fec_error_text(
                FecError::InsufficientShards,
            ))
            &&& shard_counts_valid(d, total_shard_count as nat) ==> (r matches Err(e) ==> e@.len() >= 19
                && e@.subrange(0, 19) == "FEC decode failed: "@)
            &&& r matches Ok(v) ==> v@ == truncated(
                concat_all(rs_reconstructed(d, (slots.len() - d) as nat, slots).subrange(0, d as int)),
                original_frame_len as nat,
            )
            &&& r matches Ok(v) ==> forall|data: Seq<Seq<u8>>|
                data.len() == d && agrees_with(slots, #[trigger] rs_codeword((slots.len() - d) as nat, data))
                    ==> v@ == truncated(concat_all(data), original_frame_len as nat)
        }),
{
    if total_shard_count == 0 || total_shard_count > MAX_FRAME_SHARDS || data_shard_count == 0
        || data_shard_count > total_shard_count {
        return Err(String::from_str("Invalid shard counts"));
    }
    let ghost pv = slices_view(packets@);
    let mut shards: Vec<Option<Vec<u8>>> = Vec::with_capacity(total_shard_count);
    let mut k: usize = 0;
    while k < total_shard_count
        invariant
            k <= total_shard_count,
            shards@.len() == k,
            opt_shard_views(shards@) == no_shards(k as nat),
        decreases total_shard_count - k,
    {
        let ghost prev = shards@;
        shards.push(None);
        proof {
            assert forall|j: int| 0 <= j < k + 1 implies opt_shard_views(shards@)[j] == no_shards((k + 1) as nat)[j] by {
                if j < k {
                    assert(shards@[j] == prev[j]);
                    assert(opt_shard_views(prev)[j] == no_shards(k as nat)[j]);
                }
            }
        }
        k = k + 1;
        assert(opt_shard_views(shards@) =~= no_shards(k as nat));
    }
    let mut i: usize = 0;
    while i < packets.len()
        invariant
            i <= packets@.len(),
            pv == slices_view(packets@),
            opt_shard_views(shards@) == packet_slots(pv.subrange(0, i as int), total_shard_count as nat),
            shards@.len() == total_shard_count,
        decreases packets@.len() - i,
    {
        let pkt = packets[i];
        proof {
            assert(pv.subrange(0, i + 1).drop_last() =~= pv.subrange(0, i as int));
            assert(pv.subrange(0, i + 1).last() == pkt@);
        }
        match read_fvp_header(pkt) {
            Some(hdr) => {
                let shard_index = hdr.shard_index as usize;
                if shard_index < total_shard_count {
                    let payload = copy_bytes(vstd::slice::slice_subrange(pkt, PACKET_HEADER_LEN, pkt.len()));
                    let ghost before = shards@;
                    shards.set(shard_index, Some(payload));
                    proof {
                        assert(opt_shard_views(shards@) =~= opt_shard_views(before).update(
                            shard_index as int,
                            Some(pkt@.subrange(PACKET_HEADER_LEN as int, pkt@.len() as int)),
                        ));
                    }
                }
            },
            None => {},
        }
        i = i + 1;
    }
    proof {
        assert(pv.subrange(0, packets@.len() as int) =~= pv);
    }
    let ghost slots = opt_shard_views(shards@);
    match FecDecoder::decode(&mut shards, data_shard_count) {
        Ok(data_shards) => {
            let mut frame = concat_shards(&data_shards);
            if original_frame_len < frame.len() {
                frame.truncate(original_frame_len);
            }
            proof {
                let ghost fv = frame@;
                assert(frame@ == truncated(concat_all(shard_views(data_shards@)), original_frame_len as nat));
            }
            Ok(frame)
        },
        Err(e) => {
            let msg = String::from_str("FEC decode failed: ").concat(e.message().as_str());
            proof {
                reveal_strlit("FEC decode failed: ");
                assert(msg@.subrange(0, 19) =~= "FEC decode failed: "@);
            }
            Err(msg)
        },
    }
}


// ---------------------------------------------------------------------------
// Receiver-side reassembly
// ---------------------------------------------------------------------------

/// Abstract state of one Reed-Solomon group (a whole bulk frame, or one
/// slice): its counts and shard length as set by its first packet, the
/// slots, how many arrived, and its rebuilt bytes or failure.
pub struct GroupView {
    pub shard_count: nat,
    pub data_count: nat,
    pub shard_len: nat,
    pub shards: Seq<Option<Seq<u8>>>,
    pub received: nat,
    pub decoded: Option<Seq<u8>>,
    pub failed: bool,
}

pub open spec fn empty_group() -> GroupView {
    GroupView {
        shard_count: 0,
        data_count: 0,
        shard_len: 0,
        shards: Seq::empty(),
        received: 0,
        decoded: None,
        failed: false,
    }
}

/// Store one shard in a group. The group's first packet sets its counts and
/// shard length; a packet disagreeing with them, or a shard already held,
/// is refused (`None`).
pub open spec fn group_accept(g: GroupView, index: nat, count: nat, data_count: nat, payload: Seq<u8>) -> Option<GroupView> {
    let base = if g.shard_count == 0 {
        GroupView {
            shard_count: count,
            data_count: data_count,
            shard_len: payload.len(),
            shards: no_shards(count),
            received: g.received,
            decoded: g.decoded,
            failed: g.failed,
        }
    } else {
        g
    };
    if g.shard_count != 0 && (g.shard_count != count || g.data_count != data_count || g.shard_len
        != payload.len()) {
        None
    } else if base.shards[index as int] is Some {
        None
    } else {
        Some(
            GroupView {
                shard_count: base.shard_count,
                data_count: base.data_count,
                shard_len: base.shard_len,
                shards: base.shards.update(index as int, Some(payload)),
                received: base.received + 1,
                decoded: base.decoded,
                failed: base.failed,
            },
        )
    }
}

pub open spec fn unwrap_shards(s: Seq<Option<Seq<u8>>>) -> Seq<Seq<u8>> {
    s.map_values(
        |o: Option<Seq<u8>>|
            match o {
                Some(x) => x,
                None => Seq::empty(),
            },
    )
}

/// The data shards of a group: read directly when all of them arrived,
/// else rebuilt by Reed-Solomon; `None` when that fails.
pub open spec fn group_data_shards(g: GroupView) -> Option<Seq<Seq<u8>>> {
    let d = g.data_count;
    if all_some(g.shards.subrange(0, d as int)) {
        Some(unwrap_shards(g.shards.subrange(0, d as int)))
    } else if rs_decodable(g.shards, d) {
        Some(rs_reconstructed(d, (g.shards.len() - d) as nat, g.shards).subrange(0, d as int))
    } else {
        None
    }
}

/// The bytes behind a u32 little-endian length prefix; `None` when the
/// prefix is missing or longer than what follows it.
pub open spec fn strip_len_prefix(bytes: Seq<u8>) -> Option<Seq<u8>> {
    if bytes.len() < SLICE_LEN_PREFIX {
        None
    } else {
        let l = le32_at(bytes, 0);
        if l > bytes.len() - SLICE_LEN_PREFIX {
            None
        } else {
            Some(bytes.subrange(SLICE_LEN_PREFIX as int, SLICE_LEN_PREFIX + l))
        }
    }
}

/// What a complete group yields: its data shards concatenated, behind the
/// slice length prefix when it has one.
pub open spec fn group_output(g: GroupView, has_len_prefix: bool) -> Option<Seq<u8>> {
    match group_data_shards(g) {
        None => None,
        Some(ds) => if has_len_prefix {
            strip_len_prefix(concat_all(ds))
        } else {
            Some(concat_all(ds))
        },
    }
}

/// `data` has the group's data-shard count, and every shard the group holds
/// is the shard at the same position of `data`'s code word.
pub open spec fn agreeing_data(g: GroupView, data: Seq<Seq<u8>>) -> bool {
    &&& data.len() == g.data_count
    &&& agrees_with(g.shards, rs_codeword((g.shards.len() - g.data_count) as nat, data))
}

/// A group after its rebuild: slots released unless Reed-Solomon failed.
pub open spec fn group_after_reconstruct(g: GroupView) -> GroupView {
    if group_data_shards(g) is None {
        g
    } else {
        GroupView {
            shard_count: g.shard_count,
            data_count: g.data_count,
            shard_len: g.shard_len,
            shards: Seq::empty(),
            received: g.received,
            decoded: g.decoded,
            failed: g.failed,
        }
    }
}

/// A group after a packet it accepted: once `data_count` shards are in, it
/// is rebuilt and holds its bytes, or is marked failed.
pub open spec fn group_after_packet(g: GroupView, has_len_prefix: bool) -> GroupView {
    if g.received >= g.data_count {
        let r = group_after_reconstruct(g);
        match group_output(g, has_len_prefix) {
            Some(d) => GroupView {
                shard_count: r.shard_count,
                data_count: r.data_count,
                shard_len: r.shard_len,
                shards: r.shards,
                received: r.received,
                decoded: Some(d),
                failed: r.failed,
            },
            None => GroupView {
                shard_count: r.shard_count,
                data_count: r.data_count,
                shard_len: r.shard_len,
                shards: r.shards,
                received: r.received,
                decoded: r.decoded,
                failed: true,
            },
        }
    } else {
        g
    }
}

/// Active groups hold one slot per shard and count the filled ones.
pub open spec fn group_wf(g: GroupView) -> bool {
    g.decoded is None && !g.failed ==> {
        &&& g.shard_count <= MAX_FRAME_SHARDS
        &&& g.shards.len() == g.shard_count
        &&& g.received == count_present(g.shards)
        &&& g.shard_count > 0 ==> 0 < g.data_count <= g.shard_count
    }
}

/// Abstract state of the frame being reassembled.
pub struct PendingView {
    pub frame_index: u32,
    pub is_keyframe: bool,
    /// 0 = bulk (one group); otherwise the number of slices, one group each.
    pub slice_count: u8,
    pub groups: Seq<GroupView>,
    pub delivered: bool,
}

pub open spec fn group_slots(slice_count: u8) -> nat {
    if slice_count == 0 {
        1
    } else {
        slice_count as nat
    }
}

pub open spec fn fresh_frame(h: FvpHeader) -> PendingView {
    PendingView {
        frame_index: h.frame_index,
        is_keyframe: flags_is_keyframe(h.flags),
        slice_count: flags_slice_count(h.flags),
        groups: Seq::new(group_slots(flags_slice_count(h.flags)), |i: int| empty_group()),
        delivered: false,
    }
}

pub open spec fn pending_wf(f: PendingView) -> bool {
    &&& f.slice_count < 16
    &&& f.groups.len() == group_slots(f.slice_count)
    &&& !f.delivered ==> forall|i: int| 0 <= i < f.groups.len() ==> group_wf(#[trigger] f.groups[i])
}

pub open spec fn all_decoded(gs: Seq<GroupView>) -> bool {
    forall|i: int| 0 <= i < gs.len() ==> (#[trigger] gs[i]).decoded is Some
}

/// The groups' bytes in group order.
pub open spec fn concat_decoded(gs: Seq<GroupView>) -> Seq<u8>
    decreases gs.len(),
{
    if gs.len() == 0 {
        Seq::empty()
    } else {
        concat_decoded(gs.drop_last()) + match gs.last().decoded {
            Some(d) => d,
            None => Seq::empty(),
        }
    }
}

pub open spec fn clear_decoded(g: GroupView) -> GroupView {
    GroupView {
        shard_count: g.shard_count,
        data_count: g.data_count,
        shard_len: g.shard_len,
        shards: g.shards,
        received: g.received,
        decoded: None,
        failed: g.failed,
    }
}

/// One `feed`: drop packets without a valid header, with an empty payload,
/// or whose slice index is out of range; a new frame index replaces the
/// pending frame; drop packets of a delivered frame, of another slice
/// count, or of a group already rebuilt or failed; store the shard; emit
/// the frame, once, when every group is rebuilt.
#[verifier::opaque]
pub open spec fn reasm_step(st: Option<PendingView>, p: Seq<u8>) -> (Option<PendingView>, Option<(u32, bool, Seq<u8>)>) {
    match read_fvp_header_spec(p) {
        None => (st, None),
        Some(h) => {
            let payload = p.subrange(PACKET_HEADER_LEN as int, p.len() as int);
            let sc = flags_slice_count(h.flags);
            let si = flags_slice_index(h.flags);
            if !h.valid() || payload.len() == 0 || (sc > 0 && si >= sc) {
                (st, None)
            } else {
                let same = st matches Some(f0) && f0.frame_index == h.frame_index;
                let f = if same {
                    st->0
                } else {
                    fresh_frame(h)
                };
                let gi = if sc == 0 {
                    0int
                } else {
                    si as int
                };
                let g = f.groups[gi];
                if f.delivered || f.slice_count != sc || g.decoded is Some || g.failed {
                    (Some(f), None)
                } else {
                    match group_accept(
                        g,
                        h.shard_index as nat,
                        h.shard_count as nat,
                        h.data_shard_count as nat,
                        payload,
                    ) {
                        None => (Some(f), None),
                        Some(g1) => {
                            let gs = f.groups.update(gi, group_after_packet(g1, sc > 0));
                            if all_decoded(gs) {
                                (
                                    Some(
                                        PendingView {
                                            frame_index: f.frame_index,
                                            is_keyframe: f.is_keyframe,
                                            slice_count: f.slice_count,
                                            groups: gs.map_values(|x: GroupView| clear_decoded(x)),
                                            delivered: true,
                                        },
                                    ),
                                    Some((f.frame_index, f.is_keyframe, concat_decoded(gs))),
                                )
                            } else {
                                (
                                    Some(
                                        PendingView {
                                            frame_index: f.frame_index,
                                            is_keyframe: f.is_keyframe,
                                            slice_count: f.slice_count,
                                            groups: gs,
                                            delivered: f.delivered,
                                        },
                                    ),
                                    None,
                                )
                            }
                        },
                    }
                }
            }
        },
    }
}

/// The group of an unsliced frame once `reasm_step` has stored packet `p`
/// in it, before the group is rebuilt; `None` when the step stores nothing
/// or the frame is sliced.
pub open spec fn bulk_stored_group(st: Option<PendingView>, p: Seq<u8>) -> Option<GroupView> {
    match read_fvp_header_spec(p) {
        None => None,
        Some(h) => {
            let payload = p.subrange(PACKET_HEADER_LEN as int, p.len() as int);
            if !h.valid() || payload.len() == 0 || flags_slice_count(h.flags) != 0 {
                None
            } else {
                let f = if st matches Some(f0) && f0.frame_index == h.frame_index {
                    st->0
                } else {
                    fresh_frame(h)
                };
                let g = f.groups[0];
                if f.delivered || f.slice_count != 0 || g.decoded is Some || g.failed {
                    None
                } else {
                    group_accept(g, h.shard_index as nat, h.shard_count as nat, h.data_shard_count as nat, payload)
                }
            }
        },
    }
}

/// One Reed-Solomon group of the pending frame.
struct ShardGroup {
    shard_count: usize,
    data_shard_count: usize,
    shard_len: usize,
    shards: Vec<Option<Vec<u8>>>,
    received: usize,
    decoded: Option<Vec<u8>>,
    failed: bool,
}

impl ShardGroup {
    spec fn view(&self) -> GroupView {
        GroupView {
            shard_count: self.shard_count as nat,
            data_count: self.data_shard_count as nat,
            shard_len: self.shard_len as nat,
            shards: opt_shard_views(self.shards@),
            received: self.received as nat,
            decoded: opt_bytes_view(self.decoded),
            failed: self.failed,
        }
    }

    fn empty() -> (g: Self)
        ensures
            g.view() == empty_group(),
    {
        let g = ShardGroup {
            shard_count: 0,
            data_shard_count: 0,
            shard_len: 0,
            shards: Vec::new(),
            received: 0,
            decoded: None,
            failed: false,
        };
        assert(g.view().shards =~= Seq::<Option<Seq<u8>>>::empty());
        g
    }

    /// Store one shard; false for a packet that does not fit the group.
    fn accept(&mut self, shard_index: usize, shard_count: usize, data_count: usize, payload: &[u8]) -> (ok: bool)
        requires
            group_wf(old(self).view()),
            old(self).view().decoded is None,
            !old(self).view().failed,
            shard_index < shard_count <= MAX_FRAME_SHARDS,
            0 < data_count <= shard_count,
        ensures
            match group_accept(old(self).view(), shard_index as nat, shard_count as nat, data_count as nat, payload@) {
                Some(g) => ok && final(self).view() == g,
                None => !ok && final(self).view() == old(self).view(),
            },
            group_wf(final(self).view()),
    {
        if self.shard_count == 0 {
            let mut slots: Vec<Option<Vec<u8>>> = Vec::with_capacity(shard_count);
            let mut k: usize = 0;
            while k < shard_count
                invariant
                    k <= shard_count,
                    slots@.len() == k,
                    opt_shard_views(slots@) == no_shards(k as nat),
                decreases shard_count - k,
            {
                let ghost prev = slots@;
                slots.push(None);
                proof {
                    assert forall|j: int| 0 <= j < k + 1 implies opt_shard_views(slots@)[j] == no_shards((k + 1) as nat)[j] by {
                        if j < k {
                            assert(slots@[j] == prev[j]);
                            assert(opt_shard_views(prev)[j] == no_shards(k as nat)[j]);
                        }
                    }
                }
                k = k + 1;
                assert(opt_shard_views(slots@) =~= no_shards(k as nat));
            }
            self.shard_count = shard_count;
            self.data_shard_count = data_count;
            self.shard_len = payload.len();
            self.shards = slots;
            proof {
                lemma_count_present_none(shard_count as nat);
                assert(no_shards(shard_count as nat) =~= Seq::new(shard_count as nat, |i: int| None::<Seq<u8>>));
            }
        } else if self.shard_count != shard_count || self.data_shard_count != data_count || self.shard_len
            != payload.len() {
            return false;
        }
        let present = match &self.shards[shard_index] {
            Some(_) => true,
            None => false,
        };
        if present {
            return false;
        }
        let ghost before = opt_shard_views(self.shards@);
        proof {
            lemma_count_present_fill(before, shard_index as int, payload@);
        }
        self.shards.set(shard_index, Some(copy_bytes(payload)));
        self.received = self.received + 1;
        proof {
            assert(opt_shard_views(self.shards@) =~= before.update(shard_index as int, Some(payload@)));
        }
        true
    }

    /// Rebuild the group's bytes once enough shards are present.
    fn reconstruct(&mut self, has_len_prefix: bool) -> (r: Option<Vec<u8>>)
        requires
            group_wf(old(self).view()),
            old(self).view().decoded is None,
            !old(self).view().failed,
            old(self).view().shard_count > 0,
        ensures
            final(self).view() == group_after_reconstruct(old(self).view()),
            opt_bytes_view(r) == group_output(old(self).view(), has_len_prefix),
            !has_len_prefix ==> forall|data: Seq<Seq<u8>>|
                #[trigger] agreeing_data(old(self).view(), data) ==> (r matches Some(b) ==> b@ == concat_all(data)),
    {
        let ghost g = self.view();
        let d = self.data_shard_count;
        let mut all = true;
        let mut i: usize = 0;
        while i < d
            invariant
                d == g.data_count,
                d <= self.shards@.len(),
                g == self.view(),
                i <= d,
                all <==> all_some(g.shards.subrange(0, i as int)),
            decreases d - i,
        {
            let here = match &self.shards[i] {
                Some(_) => true,
                None => false,
            };
            proof {
                assert(g.shards[i as int] is Some <==> here);
                if !here {
                    assert(g.shards.subrange(0, i + 1)[i as int] is None);
                }
                assert forall|j: int| 0 <= j < i && all implies (#[trigger] g.shards.subrange(0, i + 1)[j]) is Some by {
                    assert(g.shards.subrange(0, i as int)[j] is Some);
                }
            }
            all = all && here;
            i = i + 1;
        }
        let data_shards: Vec<Vec<u8>> = if all {
            let mut out: Vec<Vec<u8>> = Vec::with_capacity(d);
            let mut k: usize = 0;
            while k < d
                invariant
                    d == g.data_count,
                    d <= self.shards@.len(),
                    g == self.view(),
                    all_some(g.shards.subrange(0, d as int)),
                    k <= d,
                    out@.len() == k,
                    shard_views(out@) == unwrap_shards(g.shards.subrange(0, k as int)),
                decreases d - k,
            {
                let copy = match &self.shards[k] {
                    Some(s) => copy_bytes(s.as_slice()),
                    None => Vec::new(),
                };
                proof {
                    assert(g.shards[k as int] == opt_shard_views(self.shards@)[k as int]);
                    assert(g.shards.subrange(0, d as int)[k as int] is Some);
                    assert(copy@ == unwrap_shards(g.shards.subrange(0, k + 1))[k as int]);
                }
                let ghost prev = out@;
                out.push(copy);
                proof {
                    assert forall|j: int| 0 <= j < k + 1 implies shard_views(out@)[j] == unwrap_shards(g.shards.subrange(0, k + 1))[j] by {
                        if j < k {
                            assert(out@[j] == prev[j]);
                            assert(shard_views(prev)[j] == unwrap_shards(g.shards.subrange(0, k as int))[j]);
                        }
                    }
                    assert(shard_views(out@) =~= unwrap_shards(g.shards.subrange(0, k + 1)));
                }
                k = k + 1;
            }
            out
        } else {
            match FecDecoder::decode(&mut self.shards, d) {
                Ok(v) => v,
                Err(_) => {
                    return None;
                },
            }
        };
        assert(Some(shard_views(data_shards@)) == group_data_shards(g));
        proof {
            assert forall|x: Seq<Seq<u8>>| #[trigger] agreeing_data(g, x) implies shard_views(data_shards@) == x by {
                let w = rs_codeword((g.shards.len() - d) as nat, x);
                if all {
                    assert forall|k: int| 0 <= k < d implies shard_views(data_shards@)[k] == x[k] by {
                        assert(g.shards.subrange(0, d as int)[k] is Some);
                        assert(g.shards[k] is Some);
                        assert(w[k] == x[k]);
                    }
                    assert(shard_views(data_shards@) =~= x);
                } else {
                    assert(agrees_with(g.shards, w));
                }
            }
        }
        self.shards = Vec::new();
        assert(self.view().shards =~= Seq::<Option<Seq<u8>>>::empty());
        let data = concat_shards(&data_shards);
        if has_len_prefix {
            if data.len() < SLICE_LEN_PREFIX {
                return None;
            }
            let len = read_le32(data.as_slice(), 0) as usize;
            if len > data.len() - SLICE_LEN_PREFIX {
                return None;
            }
            let body = copy_bytes(vstd::slice::slice_subrange(data.as_slice(), SLICE_LEN_PREFIX, SLICE_LEN_PREFIX + len));
            return Some(body);
        }
        Some(data)
    }
}


/// The frame being reassembled.
struct PendingFrame {
    frame_index: u32,
    is_keyframe: bool,
    slice_count: u8,
    groups: Vec<ShardGroup>,
    delivered: bool,
}

spec fn group_views(gs: Seq<ShardGroup>) -> Seq<GroupView> {
    gs.map_values(|g: ShardGroup| g.view())
}

impl PendingFrame {
    spec fn view(&self) -> PendingView {
        PendingView {
            frame_index: self.frame_index,
            is_keyframe: self.is_keyframe,
            slice_count: self.slice_count,
            groups: group_views(self.groups@),
            delivered: self.delivered,
        }
    }

    /// A frame with one empty group per slice (one when not sliced).
    fn fresh(h: FvpHeader) -> (f: Self)
        ensures
            f.view() == fresh_frame(h),
            pending_wf(f.view()),
    {
        let slice_count = flags_get_slice_count(h.flags);
        let n: u8 = if slice_count == 0 {
            1
        } else {
            slice_count
        };
        let mut groups: Vec<ShardGroup> = Vec::with_capacity(n as usize);
        let mut i: u8 = 0;
        while i < n
            invariant
                i <= n,
                groups@.len() == i,
                group_views(groups@) == Seq::new(i as nat, |k: int| empty_group()),
            decreases n - i,
        {
            let ghost prev = groups@;
            let g = ShardGroup::empty();
            groups.push(g);
            proof {
                assert forall|j: int| 0 <= j < i + 1 implies group_views(groups@)[j] == empty_group() by {
                    if j < i {
                        assert(groups@[j] == prev[j]);
                        assert(group_views(prev)[j] == empty_group());
                    }
                }
            }
            i = i + 1;
            assert(group_views(groups@) =~= Seq::new(i as nat, |k: int| empty_group()));
        }
        let f = PendingFrame {
            frame_index: h.frame_index,
            is_keyframe: h.is_keyframe(),
            slice_count,
            groups,
            delivered: false,
        };
        assert(f.view().groups =~= fresh_frame(h).groups);
        f
    }
}

/// Receiver-side FEC reassembly driven by the FVP header alone. Every
/// packet carries its group's shard count and data shard count, so frames
/// are rebuilt whatever parity ratio the sender chose for them. A frame (or
/// each slice of a sliced frame) completes as soon as `data_shard_count`
/// shards of it have arrived, missing data shards rebuilt from parity; late
/// packets of a frame already emitted are ignored, so each frame comes out
/// once. Bulk frames come back zero-padded to whole shards; sliced frames
/// have each slice's length prefix removed.
pub struct FecFrameReassembler {
    frame: Option<PendingFrame>,
}

impl FecFrameReassembler {
    #[verifier::type_invariant]
    spec fn inv(&self) -> bool {
        match self.frame {
            Some(f) => pending_wf(f.view()),
            None => true,
        }
    }

    pub closed spec fn view(&self) -> Option<PendingView> {
        match self.frame {
            Some(f) => Some(f.view()),
            None => None,
        }
    }

    pub fn new() -> (r: Self)
        ensures
            r.view() is None,
    {
        FecFrameReassembler { frame: None }
    }

    /// Feed one received packet; returns the frame once it is complete.
    /// Malformed or inconsistent packets are dropped. A frame sent unsliced
    /// comes out as the data of any code word its received shards agree
    /// with, lost shards rebuilt by Reed-Solomon.
    #[verifier::rlimit(50)]
    pub fn feed(&mut self, packet: &[u8]) -> (r: Option<ReassembledFrame>)
        ensures
            (final(self).view(), frame_view(r)) == reasm_step(old(self).view(), packet@),
            r matches Some(fr) ==> (bulk_stored_group(old(self).view(), packet@) matches Some(g) ==> forall|
                data: Seq<Seq<u8>>,
            | #[trigger] agreeing_data(g, data) ==> fr.data@ == concat_all(data)),
    {
        proof {
            use_type_invariant(&*self);
            reveal(reasm_step);
        }
        let ghost st = self.view();
        let hdr = match read_fvp_header(packet) {
            Some(h) => h,
            None => {
                return None;
            },
        };
        if !hdr.is_valid() {
            return None;
        }
        let payload = vstd::slice::slice_subrange(packet, PACKET_HEADER_LEN, packet.len());
        if payload.len() == 0 {
            return None;
        }
        let slice_count = flags_get_slice_count(hdr.flags);
        let slice_index = flags_get_slice_index(hdr.flags);
        if slice_count > 0 && slice_index >= slice_count {
            return None;
        }
        let mut taken = FecFrameReassembler { frame: None };
        std::mem::swap(self, &mut taken);
        let FecFrameReassembler { frame: current } = taken;
        let mut frame = match current {
            Some(f) => if f.frame_index == hdr.frame_index {
                f
            } else {
                PendingFrame::fresh(hdr)
            },
            None => PendingFrame::fresh(hdr),
        };
        let ghost f0 = frame.view();
        assert(pending_wf(f0));
        if frame.delivered || frame.slice_count != slice_count {
            *self = FecFrameReassembler { frame: Some(frame) };
            return None;
        }
        let gi: usize = if slice_count == 0 {
            0
        } else {
            slice_index as usize
        };
        let mut group = ShardGroup::empty();
        std::mem::swap(&mut group, &mut frame.groups[gi]);
        assert(group.view() == f0.groups[gi as int]);
        assert(group_wf(group.view()));
        if group.decoded.is_some() || group.failed {
            frame.groups.set(gi, group);
            proof {
                assert(frame.view().groups =~= f0.groups);
            }
            *self = FecFrameReassembler { frame: Some(frame) };
            return None;
        }
        if !group.accept(
            hdr.shard_index as usize,
            hdr.shard_count as usize,
            hdr.data_shard_count as usize,
            payload,
        ) {
            frame.groups.set(gi, group);
            proof {
                assert(frame.view().groups =~= f0.groups);
            }
            *self = FecFrameReassembler { frame: Some(frame) };
            return None;
        }
        let ghost g1 = group.view();
        proof {
            if slice_count == 0 {
                assert(bulk_stored_group(st, packet@) == Some(g1));
            }
        }
        if group.received >= group.data_shard_count {
            match group.reconstruct(slice_count > 0) {
                Some(data) => {
                    group.decoded = Some(data);
                },
                None => {
                    group.failed = true;
                    frame.groups.set(gi, group);
                    proof {
                        let gs = f0.groups.update(gi as int, group_after_packet(g1, slice_count > 0));
                        assert(frame.view().groups =~= gs);
                        assert(gs[gi as int].decoded is None);
                        assert(!all_decoded(gs));
                        assert forall|i: int| 0 <= i < gs.len() implies group_wf(#[trigger] gs[i]) by {
                            if i != gi {
                                assert(gs[i] == f0.groups[i]);
                            }
                        }
                    }
                    *self = FecFrameReassembler { frame: Some(frame) };
                    return None;
                },
            }
        }
        frame.groups.set(gi, group);
        let ghost gs = f0.groups.update(gi as int, group_after_packet(g1, slice_count > 0));
        proof {
            assert(slice_count == 0 ==> forall|x: Seq<Seq<u8>>| #[trigger] agreeing_data(g1, x) ==> (gs[0].decoded matches Some(b) ==> b == concat_all(x)));
            assert(frame.view().groups =~= gs);
            assert forall|i: int| 0 <= i < gs.len() implies group_wf(#[trigger] gs[i]) by {
                if i != gi {
                    assert(gs[i] == f0.groups[i]);
                }
            }
        }
        let n = frame.groups.len();
        let mut all = true;
        let mut k: usize = 0;
        while k < n
            invariant
                n == frame.groups@.len(),
                frame.view().groups == gs,
                k <= n,
                all <==> forall|j: int| 0 <= j < k ==> (#[trigger] gs[j]).decoded is Some,
                slice_count == 0 ==> forall|x: Seq<Seq<u8>>| #[trigger] agreeing_data(g1, x) ==> (gs[0].decoded matches Some(b) ==> b == concat_all(x)),
            decreases n - k,
        {
            let here = frame.groups[k].decoded.is_some();
            proof {
                assert(gs[k as int] == frame.groups@[k as int].view());
            }
            all = all && here;
            k = k + 1;
        }
        if all {
            frame.delivered = true;
            let mut data: Vec<u8> = Vec::new();
            let mut k: usize = 0;
            while k < n
                invariant
                    n == frame.groups@.len(),
                    n == gs.len(),
                    all_decoded(gs),
                    k <= n,
                    frame.view().frame_index == f0.frame_index,
                    frame.view().is_keyframe == f0.is_keyframe,
                    frame.view().slice_count == f0.slice_count,
                    frame.view().delivered,
                    forall|j: int| 0 <= j < k ==> frame.view().groups[j] == clear_decoded(#[trigger] gs[j]),
                    forall|j: int| k <= j < n ==> frame.view().groups[j] == #[trigger] gs[j],
                    data@ == concat_decoded(gs.subrange(0, k as int)),
                    slice_count == 0 ==> forall|x: Seq<Seq<u8>>| #[trigger] agreeing_data(g1, x) ==> (gs[0].decoded matches Some(b) ==> b == concat_all(x)),
                decreases n - k,
            {
                let ghost before = frame.view().groups;
                let mut g = ShardGroup::empty();
                std::mem::swap(&mut g, &mut frame.groups[k]);
                let d = g.decoded.take();
                match d {
                    Some(bytes) => push_bytes(&mut data, bytes.as_slice()),
                    None => {},
                }
                frame.groups.set(k, g);
                proof {
                    assert(gs.subrange(0, k + 1).drop_last() =~= gs.subrange(0, k as int));
                    assert forall|j: int| 0 <= j < k + 1 implies frame.view().groups[j] == clear_decoded(#[trigger] gs[j]) by {
                        if j < k {
                            assert(frame.view().groups[j] == before[j]);
                        }
                    }
                    assert forall|j: int| k + 1 <= j < n implies frame.view().groups[j] == #[trigger] gs[j] by {
                        assert(frame.view().groups[j] == before[j]);
                    }
                }
                k = k + 1;
            }
            proof {
                assert(gs.subrange(0, n as int) =~= gs);
                assert(frame.view().groups =~= gs.map_values(|x: GroupView| clear_decoded(x)));
                if slice_count == 0 {
                    assert(gs.len() == 1);
                    assert(gs.drop_last() =~= Seq::<GroupView>::empty());
                    assert(concat_decoded(gs.drop_last()) =~= Seq::<u8>::empty());
                    assert(concat_decoded(gs) =~= gs[0].decoded->0);
                }
            }
            let out = ReassembledFrame { frame_index: frame.frame_index, is_keyframe: frame.is_keyframe, data };
            *self = FecFrameReassembler { frame: Some(frame) };
            return Some(out);
        }
        *self = FecFrameReassembler { frame: Some(frame) };
        None
    }
}


/// Feed packets in order: the state after all of them, and every output.
pub open spec fn reasm_run(st: Option<PendingView>, ps: Seq<Seq<u8>>) -> (Option<PendingView>, Seq<Option<(u32, bool, Seq<u8>)>>)
    decreases ps.len(),
{
    if ps.len() == 0 {
        (st, Seq::empty())
    } else {
        let (s1, outs) = reasm_run(st, ps.drop_last());
        let (s2, o) = reasm_step(s1, ps.last());
        (s2, outs.push(o))
    }
}

/// Packets that carry no FVP header, or one of frame `frame_index`.
pub open spec fn of_frame(ps: Seq<Seq<u8>>, frame_index: u32) -> bool {
    forall|k: int|
        0 <= k < ps.len() ==> (#[trigger] read_fvp_header_spec(ps[k]) matches Some(h) ==> h.frame_index
            == frame_index)
}

proof fn lemma_step_delivered(st: Option<PendingView>, p: Seq<u8>)
    requires
        st matches Some(f) && f.delivered,
        read_fvp_header_spec(p) matches Some(h) ==> h.frame_index == st->0.frame_index,
    ensures
        reasm_step(st, p) == (st, None::<(u32, bool, Seq<u8>)>),
{
    reveal(reasm_step);
}

/// One packet that a group of an unsliced frame accepts.
proof fn lemma_step_accept(st: Option<PendingView>, p: Seq<u8>, h: FvpHeader, f: PendingView, g1: GroupView)
    requires
        read_fvp_header_spec(p) == Some(h),
        h.valid(),
        p.len() > PACKET_HEADER_LEN,
        flags_slice_count(h.flags) == 0,
        f == (if st matches Some(f0) && f0.frame_index == h.frame_index {
            st->0
        } else {
            fresh_frame(h)
        }),
        !f.delivered,
        f.slice_count == 0,
        f.groups[0].decoded is None,
        !f.groups[0].failed,
        group_accept(
            f.groups[0],
            h.shard_index as nat,
            h.shard_count as nat,
            h.data_shard_count as nat,
            p.subrange(PACKET_HEADER_LEN as int, p.len() as int),
        ) == Some(g1),
    ensures
        bulk_stored_group(st, p) == Some(g1),
        ({
            let gs = f.groups.update(0, group_after_packet(g1, false));
            reasm_step(st, p) == if all_decoded(gs) {
                (
                    Some(
                        PendingView {
                            frame_index: f.frame_index,
                            is_keyframe: f.is_keyframe,
                            slice_count: f.slice_count,
                            groups: gs.map_values(|x: GroupView| clear_decoded(x)),
                            delivered: true,
                        },
                    ),
                    Some((f.frame_index, f.is_keyframe, concat_decoded(gs))),
                )
            } else {
                (
                    Some(
                        PendingView {
                            frame_index: f.frame_index,
                            is_keyframe: f.is_keyframe,
                            slice_count: f.slice_count,
                            groups: gs,
                            delivered: f.delivered,
                        },
                    ),
                    None,
                )
            }
        }),
{
    reveal(reasm_step);
}

/// A step that emits a frame leaves it delivered.
proof fn lemma_step_emits(st: Option<PendingView>, p: Seq<u8>)
    requires
        reasm_step(st, p).1 is Some,
    ensures
        reasm_step(st, p).0 matches Some(f) && f.delivered && f.frame_index == emitted_index(
            reasm_step(st, p).1,
        ),
{
    reveal(reasm_step);
}

proof fn lemma_delivered_stays(st: Option<PendingView>, ps: Seq<Seq<u8>>)
    requires
        st matches Some(f) && f.delivered,
        of_frame(ps, st->0.frame_index),
    ensures
        reasm_run(st, ps).0 == st,
        reasm_run(st, ps).1.len() == ps.len(),
        forall|k: int| 0 <= k < ps.len() ==> (#[trigger] reasm_run(st, ps).1[k]) is None,
    decreases ps.len(),
{
    if ps.len() > 0 {
        let fi = st->0.frame_index;
        assert(of_frame(ps.drop_last(), fi)) by {
            assert forall|k: int| 0 <= k < ps.drop_last().len() implies (#[trigger] read_fvp_header_spec(ps.drop_last()[k]) matches Some(h) ==> h.frame_index == fi) by {
                assert(ps.drop_last()[k] == ps[k]);
            }
        }
        lemma_delivered_stays(st, ps.drop_last());
        assert(read_fvp_header_spec(ps[ps.len() - 1]) matches Some(h) ==> h.frame_index == fi);
        lemma_step_delivered(st, ps.last());
    }
}

/// The frame index of an emitted frame.
pub open spec fn emitted_index(o: Option<(u32, bool, Seq<u8>)>) -> u32 {
    match o {
        Some((fi, _, _)) => fi,
        None => 0,
    }
}

/// Each frame is emitted once: after the reassembler emits a frame, no
/// packet of that frame, however many more arrive, yields anything.
pub proof fn lemma_frame_emitted_once(st: Option<PendingView>, p: Seq<u8>, later: Seq<Seq<u8>>)
    requires
        reasm_step(st, p).1 is Some,
        of_frame(later, emitted_index(reasm_step(st, p).1)),
    ensures
        forall|k: int| 0 <= k < later.len() ==> (#[trigger] reasm_run(reasm_step(st, p).0, later).1[k]) is None,
{
    lemma_step_emits(st, p);
    lemma_delivered_stays(reasm_step(st, p).0, later);
}


proof fn lemma_run_append(st: Option<PendingView>, a: Seq<Seq<u8>>, b: Seq<Seq<u8>>)
    ensures
        reasm_run(st, a + b).0 == reasm_run(reasm_run(st, a).0, b).0,
        reasm_run(st, a + b).1 == reasm_run(st, a).1 + reasm_run(reasm_run(st, a).0, b).1,
    decreases b.len(),
{
    if b.len() == 0 {
        assert(a + b =~= a);
        assert(reasm_run(st, a).1 + Seq::<Option<(u32, bool, Seq<u8>)>>::empty() =~= reasm_run(st, a).1);
    } else {
        assert((a + b).drop_last() =~= a + b.drop_last());
        assert((a + b).last() == b.last());
        lemma_run_append(st, a, b.drop_last());
        let mid = reasm_run(st, a).0;
        let o = reasm_step(reasm_run(mid, b.drop_last()).0, b.last()).1;
        assert(reasm_run(st, a).1 + reasm_run(mid, b.drop_last()).1.push(o) =~= (reasm_run(st, a).1
            + reasm_run(mid, b.drop_last()).1).push(o));
    }
}

/// What one packet of a shard batch carries.
proof fn lemma_shard_packet_parse(
    sequence: u16,
    timestamp: u32,
    frame_index: u32,
    i: int,
    n: nat,
    flags: u16,
    data_count: nat,
    shard: Seq<u8>,
)
    requires
        0 <= i < n <= MAX_FRAME_SHARDS,
        data_count <= n,
    ensures
        read_fvp_header_spec(shard_packet(sequence, timestamp, frame_index, i, n, flags, data_count, shard))
            == Some(
            FvpHeader {
                frame_index,
                shard_index: i as u16,
                shard_count: n as u16,
                flags,
                data_shard_count: data_count as u16,
            },
        ),
        ({
            let p = shard_packet(sequence, timestamp, frame_index, i, n, flags, data_count, shard);
            p.subrange(PACKET_HEADER_LEN as int, p.len() as int) == shard
        }),
{
    let rtp = rtp_header_bytes(RTP_PT_H265, i == n - 1, sequence, timestamp, FEC_SSRC);
    assert(rtp.len() == RTP_HEADER_LEN);
    lemma_fvp_header_roundtrip(
        shard_packet(sequence, timestamp, frame_index, i, n, flags, data_count, shard),
        rtp,
        frame_index,
        i as u16,
        n as u16,
        flags,
        data_count as u16,
        shard,
    );
}

/// The pending frame after the first `k` packets of a shard batch, before
/// its data shards are all in.
pub open spec fn batch_filling(frame_index: u32, flags: u16, shards: Seq<Seq<u8>>, d: nat, k: nat) -> Option<PendingView> {
    Some(
        PendingView {
            frame_index,
            is_keyframe: flags_is_keyframe(flags),
            slice_count: 0,
            groups: seq![
                GroupView {
                    shard_count: shards.len(),
                    data_count: d,
                    shard_len: shards[0].len(),
                    shards: Seq::new(shards.len(), |j: int| if j < k { Some(shards[j]) } else { None }),
                    received: k,
                    decoded: None,
                    failed: false,
                },
            ],
            delivered: false,
        },
    )
}

/// A shard batch a receiver can take in: data shards of one non-empty
/// length, counts within the header's limits, no slicing.
pub open spec fn batch_receivable(shards: Seq<Seq<u8>>, d: nat, flags: u16) -> bool {
    &&& 0 < d <= shards.len() <= MAX_FRAME_SHARDS
    &&& flags_slice_count(flags) == 0
    &&& shards[0].len() > 0
    &&& forall|i: int| 0 <= i < d ==> (#[trigger] shards[i]).len() == shards[0].len()
}

#[verifier::spinoff_prover]
#[verifier::rlimit(60)]
proof fn lemma_batch_prefix(
    st: Option<PendingView>,
    seq0: u16,
    shards: Seq<Seq<u8>>,
    d: nat,
    frame_index: u32,
    timestamp: u32,
    flags: u16,
    k: nat,
)
    requires
        batch_receivable(shards, d, flags),
        !(st matches Some(f) && f.frame_index == frame_index),
        1 <= k <= d,
    ensures
        ({
            let ps = shard_packets_spec(seq0, shards, d, frame_index, timestamp, flags);
            let run = reasm_run(st, ps.subrange(0, k as int));
            &&& run.1.len() == k
            &&& forall|j: int| 0 <= j < k && j != d - 1 ==> (#[trigger] run.1[j]) is None
            &&& k < d ==> run.0 == batch_filling(frame_index, flags, shards, d, k)
            &&& k == d ==> run.1[d - 1] == Some(
                (frame_index, flags_is_keyframe(flags), concat_all(shards.subrange(0, d as int))),
            )
            &&& k == d ==> (run.0 matches Some(f) && f.delivered && f.frame_index == frame_index)
        }),
    decreases k,
{
    let ps = shard_packets_spec(seq0, shards, d, frame_index, timestamp, flags);
    let n = shards.len();
    let i = (k - 1) as int;
    assert(ps.subrange(0, k as int).drop_last() =~= ps.subrange(0, i));
    assert(ps.subrange(0, k as int).last() == ps[i]);
    let p = ps[i];
    lemma_shard_packet_parse(((seq0 + i) % 65536) as u16, timestamp, frame_index, i, n, flags, d, shards[i]);
    let h = FvpHeader {
        frame_index,
        shard_index: i as u16,
        shard_count: n as u16,
        flags,
        data_shard_count: d as u16,
    };
    assert(read_fvp_header_spec(p) == Some(h));
    assert(h.valid());
    let payload = p.subrange(PACKET_HEADER_LEN as int, p.len() as int);
    assert(payload == shards[i]);
    assert(shards[i].len() == shards[0].len());
    let prev = reasm_run(st, ps.subrange(0, i));
    let filled = Seq::new(n, |j: int| if j < k { Some(shards[j]) } else { None::<Seq<u8>> });
    let g1 = GroupView {
        shard_count: n,
        data_count: d,
        shard_len: shards[0].len(),
        shards: filled,
        received: k,
        decoded: None,
        failed: false,
    };
    let f = if prev.0 matches Some(f0) && f0.frame_index == h.frame_index {
        prev.0->0
    } else {
        fresh_frame(h)
    };
    if k == 1 {
        assert(ps.subrange(0, 0) =~= Seq::<Seq<u8>>::empty());
        assert(prev.0 == st);
        assert(f == fresh_frame(h));
        assert(f.groups[0] == empty_group());
        assert(no_shards(n).update(0, Some(shards[0])) =~= filled);
    } else {
        lemma_batch_prefix(st, seq0, shards, d, frame_index, timestamp, flags, (k - 1) as nat);
        let old_slots = Seq::new(n, |j: int| if j < k - 1 { Some(shards[j]) } else { None::<Seq<u8>> });
        assert(old_slots.update(i, Some(shards[i])) =~= filled);
    }
    assert(group_accept(f.groups[0], h.shard_index as nat, h.shard_count as nat, h.data_shard_count as nat, payload) == Some(g1));
    lemma_step_accept(prev.0, p, h, f, g1);
    if k == d {
        assert(all_some(filled.subrange(0, d as int)));
        assert(unwrap_shards(filled.subrange(0, d as int)) =~= shards.subrange(0, d as int));
        let g2 = group_after_packet(g1, false);
        assert(g2.decoded == Some(concat_all(shards.subrange(0, d as int))));
        let gs = f.groups.update(0, g2);
        assert(gs =~= seq![g2]);
        assert(gs.drop_last() =~= Seq::<GroupView>::empty());
        assert(concat_decoded(gs.drop_last()) =~= Seq::<u8>::empty());
        assert(gs.last() == g2);
        assert(concat_decoded(gs) =~= concat_all(shards.subrange(0, d as int)));
        assert(all_decoded(gs));
    } else {
        assert(f.groups.update(0, group_after_packet(g1, false)) =~= seq![g1]);
        assert(!all_decoded(seq![g1]));
    }
}

/// Feeding every packet of a shard batch, in order, to a reassembler not
/// holding that frame: nothing comes out until the last data shard, which
/// yields the frame (its index, keyframe flag, and the data shards in
/// order); the parity packets after it yield nothing.
#[verifier::rlimit(90)]
#[verifier::spinoff_prover]
pub proof fn lemma_shard_batch_reassembles(
    st: Option<PendingView>,
    seq0: u16,
    shards: Seq<Seq<u8>>,
    d: nat,
    frame_index: u32,
    timestamp: u32,
    flags: u16,
)
    requires
        batch_receivable(shards, d, flags),
        !(st matches Some(f) && f.frame_index == frame_index),
    ensures
        ({
            let ps = shard_packets_spec(seq0, shards, d, frame_index, timestamp, flags);
            let outs = reasm_run(st, ps).1;
            &&& outs.len() == shards.len()
            &&& forall|j: int| 0 <= j < shards.len() && j != d - 1 ==> (#[trigger] outs[j]) is None
            &&& outs[d - 1] == Some(
                (frame_index, flags_is_keyframe(flags), concat_all(shards.subrange(0, d as int))),
            )
        }),
{
    let ps = shard_packets_spec(seq0, shards, d, frame_index, timestamp, flags);
    let n = shards.len();
    lemma_batch_prefix(st, seq0, shards, d, frame_index, timestamp, flags, d);
    let a = ps.subrange(0, d as int);
    let b = ps.subrange(d as int, n as int);
    assert(a + b =~= ps);
    let sd = reasm_run(st, a).0;
    assert(of_frame(b, frame_index)) by {
        assert forall|k: int| 0 <= k < b.len() implies (#[trigger] read_fvp_header_spec(b[k]) matches Some(h) ==> h.frame_index == frame_index) by {
            lemma_shard_packet_parse(((seq0 + d + k) % 65536) as u16, timestamp, frame_index, d + k, n, flags, d, shards[d + k]);
            assert(b[k] == ps[d + k]);
        }
    }
    lemma_delivered_stays(sd, b);
    lemma_run_append(st, a, b);
    let oa = reasm_run(st, a).1;
    let ob = reasm_run(sd, b).1;
    let outs = reasm_run(st, ps).1;
    assert(outs == oa + ob);
    assert forall|j: int| 0 <= j < n && j != d - 1 implies (#[trigger] outs[j]) is None by {
        if j < d {
            assert(outs[j] == oa[j]);
        } else {
            assert(outs[j] == ob[j - d]);
        }
    }
}

/// The data shards of a frame, concatenated: the frame, zero-padded to a
/// whole number of shards.
pub open spec fn zero_padded(frame: Seq<u8>) -> Seq<u8> {
    frame + Seq::new((shard_count_for(frame.len()) * FEC_SHARD_SIZE - frame.len()) as nat, |i: int| 0u8)
}

proof fn lemma_concat_padded(frame: Seq<u8>, k: nat)
    requires
        k <= shard_count_for(frame.len()),
    ensures
        k * FEC_SHARD_SIZE <= frame.len() ==> concat_all(data_shards_spec(frame).subrange(0, k as int))
            == frame.subrange(0, k * FEC_SHARD_SIZE),
        k * FEC_SHARD_SIZE > frame.len() ==> concat_all(data_shards_spec(frame).subrange(0, k as int))
            == frame + Seq::new((k * FEC_SHARD_SIZE - frame.len()) as nat, |i: int| 0u8),
    decreases k,
{
    let ds = data_shards_spec(frame);
    if k == 0 {
        assert(ds.subrange(0, 0) =~= Seq::<Seq<u8>>::empty());
        assert(frame.subrange(0, 0) =~= Seq::<u8>::empty());
    } else {
        let i = (k - 1) as int;
        lemma_concat_padded(frame, (k - 1) as nat);
        assert(ds.subrange(0, k as int).drop_last() =~= ds.subrange(0, i));
        assert(ds.subrange(0, k as int).last() == padded_shard(frame, i));
        assert(i * FEC_SHARD_SIZE < frame.len());
        if k * FEC_SHARD_SIZE <= frame.len() {
            assert(frame.subrange(0, i * FEC_SHARD_SIZE) + padded_shard(frame, i) =~= frame.subrange(
                0,
                k * FEC_SHARD_SIZE,
            ));
        } else {
            assert(frame.subrange(0, i * FEC_SHARD_SIZE) + padded_shard(frame, i) =~= frame + Seq::new(
                (k * FEC_SHARD_SIZE - frame.len()) as nat,
                |j: int| 0u8,
            ));
        }
    }
}

/// A frame sent through the bulk path and received whole, in order, by a
/// reassembler not holding that frame comes out exactly once, when its last
/// data shard arrives, zero-padded to whole shards; with or without parity.
/// Holds for every frame the bulk path sends packets for (all but the empty
/// frame and those of more than `MAX_FRAME_SHARDS` shards).
#[verifier::spinoff_prover]
pub proof fn lemma_bulk_frame_roundtrip(
    st: Option<PendingView>,
    table: Seq<u16>,
    seq0: u16,
    frame: Seq<u8>,
    frame_index: u32,
    timestamp: u32,
    is_keyframe: bool,
)
    requires
        frame.len() > 0,
        bulk_packets_spec(table, seq0, frame, frame_index, timestamp, is_keyframe).len() > 0,
        !(st matches Some(f) && f.frame_index == frame_index),
    ensures
        ({
            let ps = bulk_packets_spec(table, seq0, frame, frame_index, timestamp, is_keyframe);
            let outs = reasm_run(st, ps).1;
            let d = shard_count_for(frame.len());
            &&& outs.len() == ps.len()
            &&& ps.len() >= d
            &&& forall|j: int| 0 <= j < ps.len() && j != d - 1 ==> (#[trigger] outs[j]) is None
            &&& outs[d - 1] == Some((frame_index, is_keyframe, zero_padded(frame)))
        }),
{
    let ds = data_shards_spec(frame);
    let d = shard_count_for(frame.len());
    let flags: u16 = if is_keyframe { 1 } else { 0 };
    assert(flags_slice_count(flags) == 0);
    assert(flags_is_keyframe(flags) == is_keyframe);
    assert forall|i: int| 0 <= i < d implies (#[trigger] ds[i]).len() == FEC_SHARD_SIZE by {
        lemma_padded_len(frame, i);
    }
    lemma_concat_padded(frame, d);
    assert(ds.subrange(0, d as int) =~= ds);
    if encodable(table, ds) {
        let shards = ds + rs_parity_shards(ds.len(), parity_for(table, ds.len()), ds);
        assert(shards.subrange(0, d as int) =~= ds);
        assert(shards.len() <= MAX_FRAME_SHARDS);
        assert forall|i: int| 0 <= i < d implies (#[trigger] shards[i]).len() == shards[0].len() by {
            assert(shards[i] == ds[i]);
        }
        lemma_shard_batch_reassembles(st, seq0, shards, d, frame_index, timestamp, flags);
    } else {
        assert forall|i: int| 0 <= i < d implies (#[trigger] ds[i]).len() == ds[0].len() by {
        }
        lemma_shard_batch_reassembles(st, seq0, ds, d, frame_index, timestamp, flags);
    }
}


/// The packets at positions `kept` of `ps`, in that order.
pub open spec fn select_packets(ps: Seq<Seq<u8>>, kept: Seq<int>) -> Seq<Seq<u8>> {
    Seq::new(kept.len(), |t: int| ps[kept[t]])
}

/// Positions within `0..n`, strictly increasing: some of `n` packets, in
/// send order, none twice.
pub open spec fn increasing_within(kept: Seq<int>, n: nat) -> bool {
    &&& forall|t: int| 0 <= t < kept.len() ==> 0 <= #[trigger] kept[t] < n
    &&& forall|t: int, u: int| 0 <= t < u < kept.len() ==> #[trigger] kept[t] < #[trigger] kept[u]
}

/// Shard `j` in slot `j` for each `j` among the first `m` positions kept.
pub open spec fn kept_slots(shards: Seq<Seq<u8>>, kept: Seq<int>, m: int) -> Seq<Option<Seq<u8>>> {
    Seq::new(shards.len(), |j: int| if kept.subrange(0, m).contains(j) { Some(shards[j]) } else { None })
}

proof fn lemma_selected_slots(
    seq0: u16,
    shards: Seq<Seq<u8>>,
    d: nat,
    frame_index: u32,
    timestamp: u32,
    flags: u16,
    kept: Seq<int>,
    m: int,
)
    requires
        0 < d <= shards.len() <= MAX_FRAME_SHARDS,
        increasing_within(kept, shards.len()),
        0 <= m <= kept.len(),
    ensures
        packet_slots(
            select_packets(shard_packets_spec(seq0, shards, d, frame_index, timestamp, flags), kept).subrange(0, m),
            shards.len(),
        ) == kept_slots(shards, kept, m),
        count_present(kept_slots(shards, kept, m)) == m,
    decreases m,
{
    let ps = shard_packets_spec(seq0, shards, d, frame_index, timestamp, flags);
    let sel = select_packets(ps, kept);
    let n = shards.len();
    if m == 0 {
        assert(sel.subrange(0, 0) =~= Seq::<Seq<u8>>::empty());
        assert(kept_slots(shards, kept, 0) =~= no_shards(n));
        lemma_count_present_none(n);
    } else {
        lemma_selected_slots(seq0, shards, d, frame_index, timestamp, flags, kept, m - 1);
        let prev = kept_slots(shards, kept, m - 1);
        let j = kept[m - 1];
        assert(0 <= j < n);
        assert(sel.subrange(0, m).drop_last() =~= sel.subrange(0, m - 1));
        assert(sel.subrange(0, m).last() == ps[j]);
        lemma_shard_packet_parse(((seq0 + j) % 65536) as u16, timestamp, frame_index, j, n, flags, d, shards[j]);
        assert(kept.subrange(0, m) =~= kept.subrange(0, m - 1).push(j));
        assert(!kept.subrange(0, m - 1).contains(j)) by {
            if kept.subrange(0, m - 1).contains(j) {
                let t = choose|t: int| 0 <= t < m - 1 && #[trigger] kept.subrange(0, m - 1)[t] == j;
                assert(kept[t] < kept[m - 1]);
            }
        }
        assert forall|x: int| #[trigger] kept.subrange(0, m).contains(x) <==> (kept.subrange(0, m - 1).contains(x) || x == j) by {
            vstd::seq_lib::lemma_seq_contains_after_push(kept.subrange(0, m - 1), j, x);
        }
        assert(kept_slots(shards, kept, m) =~= prev.update(j, Some(shards[j])));
        lemma_count_present_fill(prev, j, shards[j]);
    }
}

/// Reed-Solomon protection of the bulk path: of the packets sent for a
/// frame with parity, any selection at least as large as its number of data
/// shards, in send order and none twice, can be decoded, and agrees with the
/// code word of the frame's data shards, whose concatenation cut to the
/// frame's length is the frame. So `decode_packets_to_frame` on such a
/// selection returns the frame: up to the parity count of packets may be
/// lost. (Stated for packets of full size, as the bulk path sends them.)
#[verifier::spinoff_prover]
pub proof fn lemma_bulk_loss_recovery(
    table: Seq<u16>,
    seq0: u16,
    frame: Seq<u8>,
    frame_index: u32,
    timestamp: u32,
    is_keyframe: bool,
    kept: Seq<int>,
)
    requires
        encodable(table, data_shards_spec(frame)),
        forall|k: int|
            0 <= k < bulk_packets_spec(table, seq0, frame, frame_index, timestamp, is_keyframe).len()
                ==> (#[trigger] bulk_packets_spec(table, seq0, frame, frame_index, timestamp, is_keyframe)[k]).len()
                == PACKET_HEADER_LEN + FEC_SHARD_SIZE,
        bulk_packets_spec(table, seq0, frame, frame_index, timestamp, is_keyframe).len() == shard_count_for(
            frame.len(),
        ) + parity_for(table, shard_count_for(frame.len())),
        increasing_within(kept, bulk_packets_spec(table, seq0, frame, frame_index, timestamp, is_keyframe).len()),
        kept.len() >= shard_count_for(frame.len()),
    ensures
        ({
            let ps = bulk_packets_spec(table, seq0, frame, frame_index, timestamp, is_keyframe);
            let d = shard_count_for(frame.len());
            let p = parity_for(table, d);
            let slots = packet_slots(select_packets(ps, kept), ps.len());
            &&& shard_counts_valid(d, ps.len())
            &&& rs_decodable(slots, d)
            &&& agrees_with(slots, rs_codeword(p, data_shards_spec(frame)))
            &&& truncated(concat_all(data_shards_spec(frame)), frame.len()) == frame
        }),
{
    let ds = data_shards_spec(frame);
    let d = shard_count_for(frame.len());
    let p = parity_for(table, d);
    let flags: u16 = if is_keyframe { 1 } else { 0 };
    let shards = ds + rs_parity_shards(ds.len(), p, ds);
    let ps = bulk_packets_spec(table, seq0, frame, frame_index, timestamp, is_keyframe);
    assert(ps == shard_packets_spec(seq0, shards, d, frame_index, timestamp, flags));
    let n = shards.len();
    if n > MAX_FRAME_SHARDS {
        assert(ps.len() == 0);
    }
    assert(ps.len() == n);
    lemma_selected_slots(seq0, shards, d, frame_index, timestamp, flags, kept, kept.len() as int);
    let sel = select_packets(ps, kept);
    assert(sel.subrange(0, kept.len() as int) =~= sel);
    let slots = packet_slots(sel, n);
    assert(slots == kept_slots(shards, kept, kept.len() as int));
    assert forall|j: int| 0 <= j < n implies (#[trigger] shards[j]).len() == FEC_SHARD_SIZE by {
        lemma_shard_packet_len(((seq0 + j) % 65536) as u16, timestamp, frame_index, j, n, flags, d, shards[j]);
        assert(ps[j].len() == PACKET_HEADER_LEN + FEC_SHARD_SIZE);
    }
    assert(present_uniform(slots));
    assert(agrees_with(slots, rs_codeword(p, ds)));
    lemma_concat_padded(frame, d);
    assert(ds.subrange(0, d as int) =~= ds);
    if d * FEC_SHARD_SIZE <= frame.len() {
        assert(frame.subrange(0, frame.len() as int) =~= frame);
    } else {
        assert((frame + Seq::new((d * FEC_SHARD_SIZE - frame.len()) as nat, |i: int| 0u8)).subrange(
            0,
            frame.len() as int,
        ) =~= frame);
    }
}


/// A group holding the first `k` shards of a code word, awaiting the rest.
pub open spec fn filling_group(shards: Seq<Seq<u8>>, d: nat, k: nat) -> GroupView {
    GroupView {
        shard_count: shards.len(),
        data_count: d,
        shard_len: shards[0].len(),
        shards: Seq::new(shards.len(), |j: int| if j < k { Some(shards[j]) } else { None }),
        received: k,
        decoded: None,
        failed: false,
    }
}

/// The pending frame `f` with group `gi` replaced by `g`.
pub open spec fn with_group(f: PendingView, gi: int, g: GroupView) -> PendingView {
    PendingView {
        frame_index: f.frame_index,
        is_keyframe: f.is_keyframe,
        slice_count: f.slice_count,
        groups: f.groups.update(gi, g),
        delivered: f.delivered,
    }
}

/// The reassembler's state and output once group `gi` of `f` has become
/// `g`: the frame is emitted, and marked delivered, when every group is
/// then rebuilt.
pub open spec fn group_update_outcome(f: PendingView, gi: int, g: GroupView) -> (
    Option<PendingView>,
    Option<(u32, bool, Seq<u8>)>,
) {
    let gs = f.groups.update(gi, g);
    if all_decoded(gs) {
        (
            Some(
                PendingView {
                    frame_index: f.frame_index,
                    is_keyframe: f.is_keyframe,
                    slice_count: f.slice_count,
                    groups: gs.map_values(|x: GroupView| clear_decoded(x)),
                    delivered: true,
                },
            ),
            Some((f.frame_index, f.is_keyframe, concat_decoded(gs))),
        )
    } else {
        (Some(with_group(f, gi, g)), None)
    }
}

/// One packet that a group of a sliced frame accepts.
proof fn lemma_slice_step_accept(st: Option<PendingView>, p: Seq<u8>, h: FvpHeader, f: PendingView, g1: GroupView)
    requires
        read_fvp_header_spec(p) == Some(h),
        h.valid(),
        p.len() > PACKET_HEADER_LEN,
        flags_slice_count(h.flags) > 0,
        flags_slice_index(h.flags) < flags_slice_count(h.flags),
        f == (if st matches Some(f0) && f0.frame_index == h.frame_index {
            st->0
        } else {
            fresh_frame(h)
        }),
        !f.delivered,
        f.slice_count == flags_slice_count(h.flags),
        f.groups[flags_slice_index(h.flags) as int].decoded is None,
        !f.groups[flags_slice_index(h.flags) as int].failed,
        group_accept(
            f.groups[flags_slice_index(h.flags) as int],
            h.shard_index as nat,
            h.shard_count as nat,
            h.data_shard_count as nat,
            p.subrange(PACKET_HEADER_LEN as int, p.len() as int),
        ) == Some(g1),
    ensures
        reasm_step(st, p) == group_update_outcome(f, flags_slice_index(h.flags) as int, group_after_packet(g1, true)),
{
    reveal(reasm_step);
}

/// A packet of a delivered frame, or of a group already rebuilt, changes
/// nothing and yields nothing.
proof fn lemma_step_settled(st: Option<PendingView>, p: Seq<u8>, gi: int)
    requires
        st is Some,
        st->0.slice_count > 0,
        0 <= gi,
        st->0.delivered || st->0.groups[gi].decoded is Some,
        read_fvp_header_spec(p) matches Some(h) ==> h.frame_index == st->0.frame_index && flags_slice_count(h.flags)
            == st->0.slice_count && flags_slice_index(h.flags) == gi,
    ensures
        reasm_step(st, p) == (st, None::<(u32, bool, Seq<u8>)>),
{
    reveal(reasm_step);
}

/// Packets that all carry FVP headers of frame `frame_index`, slice `gi` of
/// `sc`.
pub open spec fn of_slice(ps: Seq<Seq<u8>>, frame_index: u32, sc: u8, gi: int) -> bool {
    forall|k: int|
        0 <= k < ps.len() ==> (#[trigger] read_fvp_header_spec(ps[k]) matches Some(h) ==> h.frame_index
            == frame_index && flags_slice_count(h.flags) == sc && flags_slice_index(h.flags) == gi)
}

proof fn lemma_run_settled(st: Option<PendingView>, ps: Seq<Seq<u8>>, gi: int)
    requires
        st is Some,
        st->0.slice_count > 0,
        0 <= gi,
        st->0.delivered || st->0.groups[gi].decoded is Some,
        of_slice(ps, st->0.frame_index, st->0.slice_count, gi),
    ensures
        reasm_run(st, ps).0 == st,
        reasm_run(st, ps).1.len() == ps.len(),
        forall|k: int| 0 <= k < ps.len() ==> (#[trigger] reasm_run(st, ps).1[k]) is None,
    decreases ps.len(),
{
    if ps.len() > 0 {
        let f = st->0;
        assert(of_slice(ps.drop_last(), f.frame_index, f.slice_count, gi)) by {
            assert forall|k: int| 0 <= k < ps.drop_last().len() implies (#[trigger] read_fvp_header_spec(
                ps.drop_last()[k],
            ) matches Some(h) ==> h.frame_index == f.frame_index && flags_slice_count(h.flags) == f.slice_count
                && flags_slice_index(h.flags) == gi) by {
                assert(ps.drop_last()[k] == ps[k]);
            }
        }
        lemma_run_settled(st, ps.drop_last(), gi);
        assert(read_fvp_header_spec(ps[ps.len() - 1]) matches Some(h) ==> h.frame_index == f.frame_index
            && flags_slice_count(h.flags) == f.slice_count && flags_slice_index(h.flags) == gi);
        lemma_step_settled(st, ps.last(), gi);
    }
}

/// A code word a receiver can take in as slice `flags_slice_index(flags)`:
/// data shards of one non-empty length, counts within the header's limits.
pub open spec fn slice_batch_receivable(shards: Seq<Seq<u8>>, d: nat, flags: u16) -> bool {
    &&& 0 < d <= shards.len() <= MAX_FRAME_SHARDS
    &&& 0 < flags_slice_count(flags)
    &&& flags_slice_index(flags) < flags_slice_count(flags)
    &&& shards[0].len() > 0
    &&& forall|i: int| 0 <= i < d ==> (#[trigger] shards[i]).len() == shards[0].len()
}

/// The pending frame a batch's first packet finds: the one held for its
/// frame, else a fresh one.
pub open spec fn frame_found(st: Option<PendingView>, frame_index: u32, shards: Seq<Seq<u8>>, d: nat, flags: u16) -> PendingView {
    if st matches Some(f) && f.frame_index == frame_index {
        st->0
    } else {
        fresh_frame(
            FvpHeader {
                frame_index,
                shard_index: 0,
                shard_count: shards.len() as u16,
                flags,
                data_shard_count: d as u16,
            },
        )
    }
}

#[verifier::spinoff_prover]
#[verifier::rlimit(80)]
proof fn lemma_slice_batch_prefix(
    st: Option<PendingView>,
    seq0: u16,
    shards: Seq<Seq<u8>>,
    d: nat,
    frame_index: u32,
    timestamp: u32,
    flags: u16,
    k: nat,
)
    requires
        slice_batch_receivable(shards, d, flags),
        !frame_found(st, frame_index, shards, d, flags).delivered,
        frame_found(st, frame_index, shards, d, flags).slice_count == flags_slice_count(flags),
        (flags_slice_index(flags) as int) < frame_found(st, frame_index, shards, d, flags).groups.len(),
        frame_found(st, frame_index, shards, d, flags).groups[flags_slice_index(flags) as int] == empty_group(),
        1 <= k <= d,
    ensures
        ({
            let f0 = frame_found(st, frame_index, shards, d, flags);
            let gi = flags_slice_index(flags) as int;
            let ps = shard_packets_spec(seq0, shards, d, frame_index, timestamp, flags);
            let run = reasm_run(st, ps.subrange(0, k as int));
            &&& run.1.len() == k
            &&& forall|j: int| 0 <= j < k && j != d - 1 ==> (#[trigger] run.1[j]) is None
            &&& k < d ==> run.0 == Some(with_group(f0, gi, filling_group(shards, d, k)))
            &&& k == d ==> (run.0, run.1[d - 1]) == group_update_outcome(
                f0,
                gi,
                group_after_packet(filling_group(shards, d, d), true),
            )
        }),
    decreases k,
{
    let f0 = frame_found(st, frame_index, shards, d, flags);
    let gi = flags_slice_index(flags) as int;
    let ps = shard_packets_spec(seq0, shards, d, frame_index, timestamp, flags);
    let n = shards.len();
    let i = (k - 1) as int;
    assert(ps.subrange(0, k as int).drop_last() =~= ps.subrange(0, i));
    assert(ps.subrange(0, k as int).last() == ps[i]);
    let p = ps[i];
    lemma_shard_packet_parse(((seq0 + i) % 65536) as u16, timestamp, frame_index, i, n, flags, d, shards[i]);
    let h = FvpHeader {
        frame_index,
        shard_index: i as u16,
        shard_count: n as u16,
        flags,
        data_shard_count: d as u16,
    };
    assert(read_fvp_header_spec(p) == Some(h));
    assert(h.valid());
    let payload = p.subrange(PACKET_HEADER_LEN as int, p.len() as int);
    assert(payload == shards[i]);
    assert(shards[i].len() == shards[0].len());
    let prev = reasm_run(st, ps.subrange(0, i));
    let g_old = if k == 1 { empty_group() } else { filling_group(shards, d, (k - 1) as nat) };
    let f = if prev.0 matches Some(fp) && fp.frame_index == h.frame_index {
        prev.0->0
    } else {
        fresh_frame(h)
    };
    if k == 1 {
        assert(ps.subrange(0, 0) =~= Seq::<Seq<u8>>::empty());
        assert(prev.0 == st);
        assert(fresh_frame(h) == fresh_frame(
            FvpHeader { frame_index, shard_index: 0, shard_count: n as u16, flags, data_shard_count: d as u16 },
        ));
        assert(f == f0);
        assert(no_shards(n).update(0, Some(shards[0])) =~= filling_group(shards, d, 1).shards);
    } else {
        lemma_slice_batch_prefix(st, seq0, shards, d, frame_index, timestamp, flags, (k - 1) as nat);
        assert(f == with_group(f0, gi, g_old));
        assert(f.groups[gi] == g_old);
        assert(g_old.shards.update(i, Some(shards[i])) =~= filling_group(shards, d, k).shards);
    }
    let g1 = filling_group(shards, d, k);
    assert(group_accept(f.groups[gi], h.shard_index as nat, h.shard_count as nat, h.data_shard_count as nat, payload) == Some(g1));
    lemma_slice_step_accept(prev.0, p, h, f, g1);
    let g2 = group_after_packet(g1, true);
    assert(f.groups.update(gi, g2) =~= f0.groups.update(gi, g2));
    if k < d {
        assert(g2 == g1);
        assert(f.groups.update(gi, g2)[gi] == g2);
        assert(!all_decoded(f.groups.update(gi, g2)));
        assert(with_group(f, gi, g2) == with_group(f0, gi, g1));
    }
}

/// A whole code word fed as one slice of a frame: nothing comes out but
/// what its last data shard makes happen (the group rebuilt, and the frame
/// emitted if that completes it); its parity packets then change nothing.
#[verifier::spinoff_prover]
#[verifier::rlimit(80)]
proof fn lemma_slice_batch(
    st: Option<PendingView>,
    seq0: u16,
    shards: Seq<Seq<u8>>,
    d: nat,
    frame_index: u32,
    timestamp: u32,
    flags: u16,
)
    requires
        slice_batch_receivable(shards, d, flags),
        !frame_found(st, frame_index, shards, d, flags).delivered,
        frame_found(st, frame_index, shards, d, flags).slice_count == flags_slice_count(flags),
        (flags_slice_index(flags) as int) < frame_found(st, frame_index, shards, d, flags).groups.len(),
        frame_found(st, frame_index, shards, d, flags).groups[flags_slice_index(flags) as int] == empty_group(),
        group_output(filling_group(shards, d, d), true) is Some,
    ensures
        ({
            let f0 = frame_found(st, frame_index, shards, d, flags);
            let gi = flags_slice_index(flags) as int;
            let ps = shard_packets_spec(seq0, shards, d, frame_index, timestamp, flags);
            let out = group_update_outcome(f0, gi, group_after_packet(filling_group(shards, d, d), true));
            let run = reasm_run(st, ps);
            &&& run.0 == out.0
            &&& run.1.len() == shards.len()
            &&& run.1[d - 1] == out.1
            &&& forall|j: int| 0 <= j < shards.len() && j != d - 1 ==> (#[trigger] run.1[j]) is None
        }),
{
    let f0 = frame_found(st, frame_index, shards, d, flags);
    let gi = flags_slice_index(flags) as int;
    let sc = flags_slice_count(flags);
    let ps = shard_packets_spec(seq0, shards, d, frame_index, timestamp, flags);
    let n = shards.len();
    let gd = group_after_packet(filling_group(shards, d, d), true);
    let out = group_update_outcome(f0, gi, gd);
    lemma_slice_batch_prefix(st, seq0, shards, d, frame_index, timestamp, flags, d);
    let a = ps.subrange(0, d as int);
    let b = ps.subrange(d as int, n as int);
    assert(a + b =~= ps);
    assert(gd.decoded is Some);
    assert(f0.frame_index == frame_index);
    let sd = out.0;
    assert(sd->0.frame_index == frame_index);
    assert(sd->0.slice_count == sc);
    assert(sd->0.delivered || sd->0.groups[gi].decoded is Some) by {
        if !all_decoded(f0.groups.update(gi, gd)) {
            assert(sd->0.groups[gi] == gd);
        }
    }
    assert(of_slice(b, frame_index, sc, gi)) by {
        assert forall|k: int| 0 <= k < b.len() implies (#[trigger] read_fvp_header_spec(b[k]) matches Some(h)
            ==> h.frame_index == frame_index && flags_slice_count(h.flags) == sc && flags_slice_index(h.flags)
            == gi) by {
            lemma_shard_packet_parse(((seq0 + d + k) % 65536) as u16, timestamp, frame_index, d + k, n, flags, d, shards[d + k]);
            assert(b[k] == ps[d + k]);
        }
    }
    lemma_run_settled(sd, b, gi);
    lemma_run_append(st, a, b);
    let oa = reasm_run(st, a).1;
    let ob = reasm_run(sd, b).1;
    let outs = reasm_run(st, ps).1;
    assert(outs == oa + ob);
    assert forall|j: int| 0 <= j < n && j != d - 1 implies (#[trigger] outs[j]) is None by {
        if j < d {
            assert(outs[j] == oa[j]);
        } else {
            assert(outs[j] == ob[j - d]);
        }
    }
    assert(outs[d - 1] == oa[d - 1]);
}

/// The flag word of slice `i` of `n`: it reads back as that slice index,
/// that slice count and the keyframe bit.
proof fn lemma_slice_flags(is_keyframe: bool, i: nat, n: nat)
    requires
        i < n < 16,
    ensures
        ({
            let f = flags_value(is_keyframe, i as u8, n as u8, 0);
            &&& 0 <= f < 65536
            &&& flags_slice_index(f as u16) == i
            &&& flags_slice_count(f as u16) == n
            &&& flags_is_keyframe(f as u16) == is_keyframe
        }),
{
    let b: int = if is_keyframe { 1 } else { 0 };
    vstd::arithmetic::div_mod::lemma_small_mod(i, 16);
    vstd::arithmetic::div_mod::lemma_small_mod(n, 16);
    vstd::arithmetic::div_mod::lemma_small_mod(0, 16);
    let f = b + 16 * i + 256 * n;
    assert(flags_value(is_keyframe, i as u8, n as u8, 0) == f);
    vstd::arithmetic::div_mod::lemma_fundamental_div_mod_converse(f, 256, n as int, b + 16 * i);
    vstd::arithmetic::div_mod::lemma_fundamental_div_mod_converse(f, 16, (16 * n + i) as int, b);
    vstd::arithmetic::div_mod::lemma_fundamental_div_mod_converse((16 * n + i) as int, 16, n as int, i as int);
    vstd::arithmetic::div_mod::lemma_fundamental_div_mod_converse(f, 2, (8 * i + 128 * n) as int, b);
}

/// The bytes of slice `i` of `n` of `frame`.
pub open spec fn slice_bytes(frame: Seq<u8>, n: nat, i: nat) -> Seq<u8> {
    let st = slice_start(frame.len(), n, i);
    frame.subrange(st as int, (st + slice_size(frame.len(), n, i)) as int)
}

/// Group `i` of a sliced frame once its code word's data shards are in.
#[verifier::opaque]
pub open spec fn slice_group_done(tables: Seq<Seq<u16>>, frame: Seq<u8>, n: nat, i: nat) -> GroupView {
    let d = slice_shards_spec(frame, n, i).len();
    group_after_packet(filling_group(slice_codeword(tables, frame, n, i), d, d), true)
}

/// A sliced frame after its first `k` slices were received whole.
pub open spec fn sliced_opened(tables: Seq<Seq<u16>>, frame: Seq<u8>, frame_index: u32, is_keyframe: bool, n: nat, k: nat) -> PendingView {
    PendingView {
        frame_index,
        is_keyframe,
        slice_count: n as u8,
        groups: Seq::new(n, |j: int| if j < k { slice_group_done(tables, frame, n, j as nat) } else { empty_group() }),
        delivered: false,
    }
}

/// A slice's group, given all its data shards, rebuilds exactly the slice:
/// the length prefix reads back and the zero padding is dropped.
#[verifier::spinoff_prover]
proof fn lemma_slice_group_done(tables: Seq<Seq<u16>>, frame: Seq<u8>, n: nat, i: nat)
    requires
        0 < n,
        i < n,
        encodable(tables[i as int], slice_shards_spec(frame, n, i)),
    ensures
        group_output(
            filling_group(
                slice_codeword(tables, frame, n, i),
                slice_shards_spec(frame, n, i).len(),
                slice_shards_spec(frame, n, i).len(),
            ),
            true,
        ) == Some(slice_bytes(frame, n, i)),
        slice_group_done(tables, frame, n, i).decoded == Some(slice_bytes(frame, n, i)),
{
    reveal(slice_group_done);
    let ds = slice_shards_spec(frame, n, i);
    let d = ds.len();
    let cw = slice_codeword(tables, frame, n, i);
    let g = filling_group(cw, d, d);
    let pre = prefixed_slice(frame, n, i);
    let st = slice_start(frame.len(), n, i);
    let sz = slice_size(frame.len(), n, i);
    lemma_slice_start_step(frame.len(), n, i);
    lemma_slice_start_bound(frame.len(), n, i + 1);
    assert(st + sz <= frame.len());
    assert(d <= 255);
    assert(pre.len() == 4 + sz);
    assert(sz < 4294967296) by {
        assert(d * FEC_SHARD_SIZE >= pre.len());
    }
    assert(g.shards.subrange(0, d as int) =~= ds.map_values(|x: Seq<u8>| Some(x)));
    assert(all_some(g.shards.subrange(0, d as int)));
    assert(unwrap_shards(g.shards.subrange(0, d as int)) =~= ds);
    assert(group_data_shards(g) == Some(ds));
    lemma_concat_padded(pre, d);
    assert(ds.subrange(0, d as int) =~= ds);
    let bytes = concat_all(ds);
    assert(bytes.len() >= pre.len() && bytes.subrange(0, pre.len() as int) == pre) by {
        if d * FEC_SHARD_SIZE <= pre.len() {
            assert(pre.subrange(0, d * FEC_SHARD_SIZE) =~= pre);
        } else {
            let z = Seq::new((d * FEC_SHARD_SIZE - pre.len()) as nat, |j: int| 0u8);
            assert((pre + z).subrange(0, pre.len() as int) =~= pre);
        }
    }
    assert(bytes.subrange(0, 4) =~= le32(sz as u32)) by {
        assert(bytes.subrange(0, 4) =~= pre.subrange(0, 4));
    }
    lemma_le32_roundtrip(sz as u32, bytes, 0);
    assert(le32_at(bytes, 0) == sz);
    assert(bytes.subrange(4, (4 + sz) as int) =~= slice_bytes(frame, n, i)) by {
        assert(bytes.subrange(4, (4 + sz) as int) =~= pre.subrange(4, (4 + sz) as int));
    }
}

proof fn lemma_slice_prefix_grows(frame: Seq<u8>, n: nat, i: nat)
    requires
        i < n,
    ensures
        slice_start(frame.len(), n, 0) == 0,
        frame.subrange(0, slice_start(frame.len(), n, i) as int) + slice_bytes(frame, n, i) == frame.subrange(
            0,
            slice_start(frame.len(), n, i + 1) as int,
        ),
{
    assert(0 * (frame.len() / n) == 0) by (nonlinear_arith);
    lemma_slice_start_step(frame.len(), n, i);
    lemma_slice_start_bound(frame.len(), n, i + 1);
    assert(frame.subrange(0, slice_start(frame.len(), n, i) as int) + slice_bytes(frame, n, i) =~= frame.subrange(
        0,
        slice_start(frame.len(), n, i + 1) as int,
    ));
}

/// The slices' bytes, in order, rebuild the frame up to slice `k`.
proof fn lemma_concat_slices(tables: Seq<Seq<u16>>, frame: Seq<u8>, n: nat, k: nat)
    requires
        0 < n,
        k <= n,
        forall|j: nat| j < n ==> #[trigger] slice_group_done(tables, frame, n, j).decoded == Some(
            slice_bytes(frame, n, j),
        ),
    ensures
        concat_decoded(Seq::new(k, |j: int| slice_group_done(tables, frame, n, j as nat))) == frame.subrange(
            0,
            slice_start(frame.len(), n, k) as int,
        ),
    decreases k,
{
    let gs = Seq::new(k, |j: int| slice_group_done(tables, frame, n, j as nat));
    lemma_slice_prefix_grows(frame, n, 0);
    if k == 0 {
        assert(frame.subrange(0, 0) =~= Seq::<u8>::empty());
        assert(concat_decoded(gs) == Seq::<u8>::empty());
    } else {
        let i = (k - 1) as nat;
        lemma_concat_slices(tables, frame, n, i);
        assert(gs.drop_last() =~= Seq::new(i, |j: int| slice_group_done(tables, frame, n, j as nat)));
        assert(gs.last() == slice_group_done(tables, frame, n, i));
        assert(gs.last().decoded == Some(slice_bytes(frame, n, i)));
        lemma_slice_prefix_grows(frame, n, i);
        assert(concat_decoded(gs) == concat_decoded(gs.drop_last()) + slice_bytes(frame, n, i));
    }
}

/// Every packet of every batch, batch after batch.
pub open spec fn all_packets(bs: Seq<Seq<Seq<u8>>>) -> Seq<Seq<u8>>
    decreases bs.len(),
{
    if bs.len() == 0 {
        Seq::empty()
    } else {
        all_packets(bs.drop_last()) + bs.last()
    }
}

/// The flag word batch `i` of `n` carries.
pub open spec fn slice_flags(is_keyframe: bool, i: nat, n: nat) -> u16 {
    flags_value(is_keyframe, i as u8, n as u8, 0) as u16
}

/// What batch `i` of a sliced frame is and carries, when it holds packets.
#[verifier::spinoff_prover]
proof fn lemma_sliced_batch_facts(
    tables: Seq<Seq<u16>>,
    seq0: u16,
    frame: Seq<u8>,
    frame_index: u32,
    timestamp: u32,
    is_keyframe: bool,
    n: nat,
    i: nat,
)
    requires
        0 < n <= MAX_SLICE_COUNT,
        i < n,
        encodable(tables[i as int], slice_shards_spec(frame, n, i)),
        sliced_batches(tables, seq0, frame, frame_index, timestamp, is_keyframe, n)[i as int].len() > 0,
    ensures
        ({
            let cw = slice_codeword(tables, frame, n, i);
            let d = slice_shards_spec(frame, n, i).len();
            let fl = slice_flags(is_keyframe, i, n);
            &&& sliced_batches(tables, seq0, frame, frame_index, timestamp, is_keyframe, n)[i as int]
                == shard_packets_spec(
                ((seq0 + sliced_sent(tables, frame, n, i)) % 65536) as u16,
                cw,
                d,
                frame_index,
                timestamp,
                fl,
            )
            &&& sliced_batches(tables, seq0, frame, frame_index, timestamp, is_keyframe, n)[i as int].len() == cw.len()
            &&& slice_batch_receivable(cw, d, fl)
            &&& flags_slice_index(fl) == i
            &&& flags_slice_count(fl) == n
            &&& flags_is_keyframe(fl) == is_keyframe
            &&& group_output(filling_group(cw, d, d), true) == Some(slice_bytes(frame, n, i))
            &&& slice_group_done(tables, frame, n, i) == group_after_packet(filling_group(cw, d, d), true)
        }),
{
    let cw = slice_codeword(tables, frame, n, i);
    let ds = slice_shards_spec(frame, n, i);
    let d = ds.len();
    lemma_slice_flags(is_keyframe, i, n);
    assert(cw.len() <= MAX_FRAME_SHARDS);
    assert forall|j: int| 0 <= j < d implies (#[trigger] cw[j]).len() == cw[0].len() by {
        lemma_padded_len(prefixed_slice(frame, n, i), j);
        lemma_padded_len(prefixed_slice(frame, n, i), 0);
        assert(cw[j] == ds[j]);
        assert(cw[0] == ds[0]);
    }
    lemma_padded_len(prefixed_slice(frame, n, i), 0);
    assert(cw[0] == ds[0]);
    lemma_slice_group_done(tables, frame, n, i);
    reveal(slice_group_done);
}

/// Packets that the first `k` batches make.
#[verifier::spinoff_prover]
proof fn lemma_all_packets_len(
    tables: Seq<Seq<u16>>,
    seq0: u16,
    frame: Seq<u8>,
    frame_index: u32,
    timestamp: u32,
    is_keyframe: bool,
    n: nat,
    k: nat,
)
    requires
        0 < n <= MAX_SLICE_COUNT,
        k <= n,
        forall|j: nat| j < n ==> #[trigger] encodable(tables[j as int], slice_shards_spec(frame, n, j)),
        forall|j: int| 0 <= j < n ==> (#[trigger] sliced_batches(tables, seq0, frame, frame_index, timestamp, is_keyframe, n)[j]).len() > 0,
    ensures
        all_packets(sliced_batches(tables, seq0, frame, frame_index, timestamp, is_keyframe, n).subrange(0, k as int)).len()
            == sliced_sent(tables, frame, n, k),
    decreases k,
{
    let bs = sliced_batches(tables, seq0, frame, frame_index, timestamp, is_keyframe, n);
    if k == 0 {
        assert(bs.subrange(0, 0) =~= Seq::<Seq<Seq<u8>>>::empty());
    } else {
        let i = (k - 1) as nat;
        lemma_all_packets_len(tables, seq0, frame, frame_index, timestamp, is_keyframe, n, i);
        assert(bs.subrange(0, k as int).drop_last() =~= bs.subrange(0, i as int));
        assert(bs.subrange(0, k as int).last() == bs[i as int]);
        assert(encodable(tables[i as int], slice_shards_spec(frame, n, i)));
        lemma_sliced_batch_facts(tables, seq0, frame, frame_index, timestamp, is_keyframe, n, i);
    }
}

/// Where a sliced frame of `n` slices comes out: at the last data shard
/// of its last slice.
pub open spec fn sliced_emit_at(tables: Seq<Seq<u16>>, frame: Seq<u8>, n: nat) -> int {
    sliced_sent(tables, frame, n, (n - 1) as nat) + slice_shards_spec(frame, n, (n - 1) as nat).len() - 1
}

/// Feeding the first `k` batches of a sliced frame: before the last batch
/// the frame holds the slices received, and nothing comes out; with the
/// last batch the frame comes out once.
#[verifier::spinoff_prover]
#[verifier::rlimit(90)]
proof fn lemma_sliced_prefix(
    st: Option<PendingView>,
    tables: Seq<Seq<u16>>,
    seq0: u16,
    frame: Seq<u8>,
    frame_index: u32,
    timestamp: u32,
    is_keyframe: bool,
    n: nat,
    k: nat,
)
    requires
        0 < n <= MAX_SLICE_COUNT,
        k <= n,
        forall|j: nat| j < n ==> #[trigger] encodable(tables[j as int], slice_shards_spec(frame, n, j)),
        forall|j: int| 0 <= j < n ==> (#[trigger] sliced_batches(tables, seq0, frame, frame_index, timestamp, is_keyframe, n)[j]).len() > 0,
        !(st matches Some(f) && f.frame_index == frame_index),
    ensures
        ({
            let bs = sliced_batches(tables, seq0, frame, frame_index, timestamp, is_keyframe, n);
            let run = reasm_run(st, all_packets(bs.subrange(0, k as int)));
            &&& run.1.len() == sliced_sent(tables, frame, n, k)
            &&& k < n ==> run.0 == (if k == 0 {
                st
            } else {
                Some(sliced_opened(tables, frame, frame_index, is_keyframe, n, k))
            })
            &&& k < n ==> forall|j: int| 0 <= j < run.1.len() ==> (#[trigger] run.1[j]) is None
            &&& k == n ==> run.1[sliced_emit_at(tables, frame, n)] == Some((frame_index, is_keyframe, frame))
            &&& k == n ==> forall|j: int|
                0 <= j < run.1.len() && j != sliced_emit_at(tables, frame, n) ==> (#[trigger] run.1[j]) is None
        }),
    decreases k,
{
    let bs = sliced_batches(tables, seq0, frame, frame_index, timestamp, is_keyframe, n);
    if k == 0 {
        assert(bs.subrange(0, 0) =~= Seq::<Seq<Seq<u8>>>::empty());
        assert(all_packets(bs.subrange(0, 0)) =~= Seq::<Seq<u8>>::empty());
    } else {
        let i = (k - 1) as nat;
        lemma_sliced_prefix(st, tables, seq0, frame, frame_index, timestamp, is_keyframe, n, i);
        assert(bs.subrange(0, k as int).drop_last() =~= bs.subrange(0, i as int));
        assert(bs.subrange(0, k as int).last() == bs[i as int]);
        let a = all_packets(bs.subrange(0, i as int));
        assert(all_packets(bs.subrange(0, k as int)) == a + bs[i as int]);
        let run_i = reasm_run(st, a);
        let st_i = run_i.0;
        assert(encodable(tables[i as int], slice_shards_spec(frame, n, i)));
        lemma_sliced_batch_facts(tables, seq0, frame, frame_index, timestamp, is_keyframe, n, i);
        let cw = slice_codeword(tables, frame, n, i);
        let d = slice_shards_spec(frame, n, i).len();
        let fl = slice_flags(is_keyframe, i, n);
        let sq = ((seq0 + sliced_sent(tables, frame, n, i)) % 65536) as u16;
        let opened = sliced_opened(tables, frame, frame_index, is_keyframe, n, i);
        assert(frame_found(st_i, frame_index, cw, d, fl) == opened) by {
            if i == 0 {
                let h0 = FvpHeader {
                    frame_index,
                    shard_index: 0,
                    shard_count: cw.len() as u16,
                    flags: fl,
                    data_shard_count: d as u16,
                };
                assert(fresh_frame(h0).groups =~= opened.groups);
            }
        }
        assert(opened.groups[i as int] == empty_group());
        lemma_slice_batch(st_i, sq, cw, d, frame_index, timestamp, fl);
        let done = slice_group_done(tables, frame, n, i);
        let out = group_update_outcome(opened, i as int, done);
        let gs = opened.groups.update(i as int, done);
        let b = bs[i as int];
        let ob = reasm_run(st_i, b).1;
        lemma_run_append(st, a, b);
        let outs = reasm_run(st, a + b).1;
        assert(outs == run_i.1 + ob);
        assert(outs.len() == sliced_sent(tables, frame, n, k));
        if k < n {
            assert(gs[n - 1] == empty_group());
            assert(!all_decoded(gs));
            assert(gs =~= sliced_opened(tables, frame, frame_index, is_keyframe, n, k).groups);
            assert(with_group(opened, i as int, done) == sliced_opened(tables, frame, frame_index, is_keyframe, n, k));
            assert forall|j: int| 0 <= j < outs.len() implies (#[trigger] outs[j]) is None by {
                if j < run_i.1.len() {
                    assert(outs[j] == run_i.1[j]);
                } else {
                    assert(outs[j] == ob[j - run_i.1.len()]);
                }
            }
        } else {
            assert forall|j: nat| j < n implies #[trigger] slice_group_done(tables, frame, n, j).decoded == Some(
                slice_bytes(frame, n, j),
            ) by {
                assert(encodable(tables[j as int], slice_shards_spec(frame, n, j)));
                lemma_slice_group_done(tables, frame, n, j);
            }
            let all = Seq::new(n, |j: int| slice_group_done(tables, frame, n, j as nat));
            assert(gs =~= all);
            assert(all_decoded(gs)) by {
                assert forall|j: int| 0 <= j < gs.len() implies (#[trigger] gs[j]).decoded is Some by {
                    assert(gs[j] == slice_group_done(tables, frame, n, j as nat));
                }
            }
            lemma_concat_slices(tables, frame, n, n);
            lemma_slice_start_bound(frame.len(), n, n);
            assert(frame.subrange(0, frame.len() as int) =~= frame);
            assert(concat_decoded(gs) == frame);
            let at = sliced_emit_at(tables, frame, n);
            assert(at == run_i.1.len() + d - 1);
            assert(outs[at] == ob[d - 1]);
            assert forall|j: int| 0 <= j < outs.len() && j != at implies (#[trigger] outs[j]) is None by {
                if j < run_i.1.len() {
                    assert(outs[j] == run_i.1[j]);
                } else {
                    assert(outs[j] == ob[j - run_i.1.len()]);
                }
            }
        }
    }
}

/// A frame sent through the sliced path (`encode_frame_sliced`) and
/// received whole, batch after batch and in order, by a reassembler not
/// holding that frame comes out exactly once, when the last data shard of
/// its last slice arrives: the frame itself, with its keyframe flag. Holds
/// whenever the sliced path sends the frame; `encode_frame_sliced` returns
/// no empty batch.
#[verifier::spinoff_prover]
#[verifier::rlimit(90)]
pub proof fn lemma_sliced_frame_roundtrip(
    st: Option<PendingView>,
    tables: Seq<Seq<u16>>,
    seq0: u16,
    frame: Seq<u8>,
    frame_index: u32,
    timestamp: u32,
    is_keyframe: bool,
    slice_count: u8,
)
    requires
        sliced_packets_spec(tables, seq0, frame, frame_index, timestamp, is_keyframe, slice_count).len() > 0,
        forall|i: int|
            0 <= i < sliced_packets_spec(tables, seq0, frame, frame_index, timestamp, is_keyframe, slice_count).len()
                ==> (#[trigger] sliced_packets_spec(
                tables,
                seq0,
                frame,
                frame_index,
                timestamp,
                is_keyframe,
                slice_count,
            )[i]).len() > 0,
        !(st matches Some(f) && f.frame_index == frame_index),
    ensures
        ({
            let bs = sliced_packets_spec(tables, seq0, frame, frame_index, timestamp, is_keyframe, slice_count);
            let n = bs.len();
            let ps = all_packets(bs);
            let outs = reasm_run(st, ps).1;
            let at = sliced_emit_at(tables, frame, n);
            &&& outs.len() == ps.len()
            &&& 0 <= at < ps.len()
            &&& outs[at] == Some((frame_index, is_keyframe, frame))
            &&& forall|j: int| 0 <= j < ps.len() && j != at ==> (#[trigger] outs[j]) is None
        }),
{
    let bs = sliced_packets_spec(tables, seq0, frame, frame_index, timestamp, is_keyframe, slice_count);
    let n = effective_slice_count(frame.len(), slice_count);
    assert(sliced_ready(frame.len(), slice_count, tables.len()) && all_slices_encodable(tables, frame, n));
    assert(bs == sliced_batches(tables, seq0, frame, frame_index, timestamp, is_keyframe, n));
    assert(bs.len() == n);
    assert forall|j: nat| j < n implies #[trigger] encodable(tables[j as int], slice_shards_spec(frame, n, j)) by {
    }
    lemma_sliced_prefix(st, tables, seq0, frame, frame_index, timestamp, is_keyframe, n, n);
    lemma_all_packets_len(tables, seq0, frame, frame_index, timestamp, is_keyframe, n, n);
    assert(bs.subrange(0, n as int) =~= bs);
    let ps = all_packets(bs);
    let outs = reasm_run(st, ps).1;
    let at = sliced_emit_at(tables, frame, n);
    let i = (n - 1) as nat;
    lemma_sliced_batch_facts(tables, seq0, frame, frame_index, timestamp, is_keyframe, n, i);
    assert(sliced_sent(tables, frame, n, n) == sliced_sent(tables, frame, n, i) + slice_codeword(tables, frame, n, i).len());
    assert(slice_shards_spec(frame, n, i).len() >= 1);
    assert(slice_shards_spec(frame, n, i).len() <= slice_codeword(tables, frame, n, i).len());
}

/// The group of a bulk frame after the first `m` packets kept of its
/// code word.
pub open spec fn kept_group(shards: Seq<Seq<u8>>, d: nat, kept: Seq<int>, m: int) -> GroupView {
    GroupView {
        shard_count: shards.len(),
        data_count: d,
        shard_len: shards[0].len(),
        shards: kept_slots(shards, kept, m),
        received: m as nat,
        decoded: None,
        failed: false,
    }
}

/// A bulk frame, not yet delivered, with its one group.
pub open spec fn bulk_pending(frame_index: u32, flags: u16, g: GroupView) -> PendingView {
    PendingView {
        frame_index,
        is_keyframe: flags_is_keyframe(flags),
        slice_count: 0,
        groups: seq![g],
        delivered: false,
    }
}

/// Shards of one non-empty length, at most `MAX_FRAME_SHARDS`, the first
/// `d` of them data.
pub open spec fn uniform_code_word(shards: Seq<Seq<u8>>, d: nat) -> bool {
    &&& 0 < d <= shards.len() <= MAX_FRAME_SHARDS
    &&& shards[0].len() > 0
    &&& forall|i: int| 0 <= i < shards.len() ==> (#[trigger] shards[i]).len() == shards[0].len()
}

#[verifier::spinoff_prover]
#[verifier::rlimit(80)]
proof fn lemma_kept_prefix(
    st: Option<PendingView>,
    seq0: u16,
    shards: Seq<Seq<u8>>,
    d: nat,
    frame_index: u32,
    timestamp: u32,
    flags: u16,
    kept: Seq<int>,
    m: int,
)
    requires
        uniform_code_word(shards, d),
        flags_slice_count(flags) == 0,
        increasing_within(kept, shards.len()),
        1 <= m <= kept.len(),
        m <= d,
        !(st matches Some(f) && f.frame_index == frame_index),
    ensures
        ({
            let sel = select_packets(shard_packets_spec(seq0, shards, d, frame_index, timestamp, flags), kept);
            let run = reasm_run(st, sel.subrange(0, m));
            &&& run.1.len() == m
            &&& forall|j: int| 0 <= j < m && j != d - 1 ==> (#[trigger] run.1[j]) is None
            &&& bulk_stored_group(reasm_run(st, sel.subrange(0, m - 1)).0, sel[m - 1]) == Some(
                kept_group(shards, d, kept, m),
            )
            &&& count_present(kept_slots(shards, kept, m)) == m
            &&& m < d ==> run.0 == Some(bulk_pending(frame_index, flags, kept_group(shards, d, kept, m)))
            &&& m == d ==> {
                let g2 = group_after_packet(kept_group(shards, d, kept, m), false);
                g2.decoded is Some ==> {
                    &&& run.1[d - 1] == Some((frame_index, flags_is_keyframe(flags), g2.decoded->0))
                    &&& run.0 matches Some(f) && f.delivered && f.frame_index == frame_index
                }
            }
        }),
    decreases m,
{
    let ps = shard_packets_spec(seq0, shards, d, frame_index, timestamp, flags);
    let sel = select_packets(ps, kept);
    let n = shards.len();
    let i = m - 1;
    let j = kept[i];
    assert(0 <= j < n);
    assert(sel.subrange(0, m).drop_last() =~= sel.subrange(0, i));
    assert(sel.subrange(0, m).last() == ps[j]);
    let p = ps[j];
    lemma_shard_packet_parse(((seq0 + j) % 65536) as u16, timestamp, frame_index, j, n, flags, d, shards[j]);
    let h = FvpHeader {
        frame_index,
        shard_index: j as u16,
        shard_count: n as u16,
        flags,
        data_shard_count: d as u16,
    };
    assert(read_fvp_header_spec(p) == Some(h));
    assert(h.valid());
    let payload = p.subrange(PACKET_HEADER_LEN as int, p.len() as int);
    assert(payload == shards[j]);
    assert(shards[j].len() == shards[0].len());
    let prev = reasm_run(st, sel.subrange(0, i));
    let f = if prev.0 matches Some(fp) && fp.frame_index == h.frame_index {
        prev.0->0
    } else {
        fresh_frame(h)
    };
    let prev_slots = kept_slots(shards, kept, i);
    assert(kept.subrange(0, m) =~= kept.subrange(0, i).push(j));
    assert forall|x: int| #[trigger] kept.subrange(0, m).contains(x) <==> (kept.subrange(0, i).contains(x) || x == j) by {
        vstd::seq_lib::lemma_seq_contains_after_push(kept.subrange(0, i), j, x);
    }
    assert(!kept.subrange(0, i).contains(j)) by {
        if kept.subrange(0, i).contains(j) {
            let t = choose|t: int| 0 <= t < i && #[trigger] kept.subrange(0, i)[t] == j;
            assert(kept[t] < kept[i]);
        }
    }
    assert(kept_slots(shards, kept, m) =~= prev_slots.update(j, Some(shards[j])));
    if i == 0 {
        assert(sel.subrange(0, 0) =~= Seq::<Seq<u8>>::empty());
        assert(prev.0 == st);
        assert(f == fresh_frame(h));
        assert(f.groups[0] == empty_group());
        assert(kept.subrange(0, 0) =~= Seq::<int>::empty());
        assert(prev_slots =~= no_shards(n));
        lemma_count_present_none(n);
    } else {
        lemma_kept_prefix(st, seq0, shards, d, frame_index, timestamp, flags, kept, i);
        assert(f == bulk_pending(frame_index, flags, kept_group(shards, d, kept, i)));
        assert(f.groups[0] == kept_group(shards, d, kept, i));
    }
    lemma_count_present_fill(prev_slots, j, shards[j]);
    let g1 = kept_group(shards, d, kept, m);
    assert(group_accept(f.groups[0], h.shard_index as nat, h.shard_count as nat, h.data_shard_count as nat, payload) == Some(g1));
    lemma_step_accept(prev.0, p, h, f, g1);
    let g2 = group_after_packet(g1, false);
    let gs = f.groups.update(0, g2);
    assert(gs =~= seq![g2]);
    if m < d {
        assert(g2 == g1);
        assert(!all_decoded(gs));
        assert(PendingView { frame_index: f.frame_index, is_keyframe: f.is_keyframe, slice_count: f.slice_count, groups: gs, delivered: f.delivered } == bulk_pending(frame_index, flags, g1));
    } else if g2.decoded is Some {
        assert(all_decoded(gs));
        assert(gs.drop_last() =~= Seq::<GroupView>::empty());
        assert(concat_decoded(gs.drop_last()) =~= Seq::<u8>::empty());
        assert(concat_decoded(gs) =~= g2.decoded->0);
    }
}

/// What a bulk frame's group yields from the slots its first `d` packets
/// received filled: the data shards as they arrived when none of them was
/// lost, else the data part of what `reed-solomon-erasure` rebuilds.
pub open spec fn rebuilt_bytes(slots: Seq<Option<Seq<u8>>>, d: nat, p: nat) -> Seq<u8> {
    if all_some(slots.subrange(0, d as int)) {
        concat_all(unwrap_shards(slots.subrange(0, d as int)))
    } else {
        concat_all(rs_reconstructed(d, p, slots).subrange(0, d as int))
    }
}

/// Reed-Solomon protection at the receiver: of the packets sent for a
/// frame with parity, any selection of at least its data-shard count, in
/// send order and none twice, fed to a reassembler not holding that frame,
/// makes the frame come out exactly once, when the `d`-th packet kept
/// arrives. Its bytes are the data shards rebuilt from the slots those `d`
/// packets filled, which can be Reed-Solomon decoded and agree with the
/// frame's code word, so that `reed-solomon-erasure` rebuilds the code word
/// itself (see `rs_reconstruct`); with no data shard lost among them they
/// are the zero-padded frame outright. With losses too: the group that
/// `d`-th packet completes agrees with the frame's code word, so the `feed`
/// call it goes to returns the frame's data shards, which are the
/// zero-padded frame (see `FecFrameReassembler::feed`). (Stated for packets
/// of full size and the packet count `encode_frame_to_packets` guarantees.)
#[verifier::spinoff_prover]
#[verifier::rlimit(90)]
pub proof fn lemma_bulk_reassembly_under_loss(
    st: Option<PendingView>,
    table: Seq<u16>,
    seq0: u16,
    frame: Seq<u8>,
    frame_index: u32,
    timestamp: u32,
    is_keyframe: bool,
    kept: Seq<int>,
)
    requires
        encodable(table, data_shards_spec(frame)),
        forall|k: int|
            0 <= k < bulk_packets_spec(table, seq0, frame, frame_index, timestamp, is_keyframe).len()
                ==> (#[trigger] bulk_packets_spec(table, seq0, frame, frame_index, timestamp, is_keyframe)[k]).len()
                == PACKET_HEADER_LEN + FEC_SHARD_SIZE,
        bulk_packets_spec(table, seq0, frame, frame_index, timestamp, is_keyframe).len() == shard_count_for(
            frame.len(),
        ) + parity_for(table, shard_count_for(frame.len())),
        increasing_within(kept, bulk_packets_spec(table, seq0, frame, frame_index, timestamp, is_keyframe).len()),
        kept.len() >= shard_count_for(frame.len()),
        !(st matches Some(f) && f.frame_index == frame_index),
    ensures
        ({
            let ps = bulk_packets_spec(table, seq0, frame, frame_index, timestamp, is_keyframe);
            let ds = data_shards_spec(frame);
            let d = shard_count_for(frame.len());
            let p = parity_for(table, d);
            let slots = kept_slots(rs_codeword(p, ds), kept, d as int);
            let sel = select_packets(ps, kept);
            let outs = reasm_run(st, sel).1;
            let g = kept_group(rs_codeword(p, ds), d, kept, d as int);
            &&& outs.len() == kept.len()
            &&& rs_decodable(slots, d)
            &&& agrees_with(slots, rs_codeword(p, ds))
            &&& outs[d - 1] == Some((frame_index, is_keyframe, rebuilt_bytes(slots, d, p)))
            &&& all_some(slots.subrange(0, d as int)) ==> rebuilt_bytes(slots, d, p) == zero_padded(frame)
            &&& bulk_stored_group(reasm_run(st, sel.subrange(0, d - 1)).0, sel[d - 1]) == Some(g)
            &&& g.shards == slots
            &&& agreeing_data(g, ds)
            &&& concat_all(ds) == zero_padded(frame)
            &&& forall|j: int| 0 <= j < kept.len() && j != d - 1 ==> (#[trigger] outs[j]) is None
        }),
{
    let ds = data_shards_spec(frame);
    let d = shard_count_for(frame.len());
    let p = parity_for(table, d);
    let flags: u16 = if is_keyframe { 1 } else { 0 };
    let cw = rs_codeword(p, ds);
    let ps = bulk_packets_spec(table, seq0, frame, frame_index, timestamp, is_keyframe);
    assert(ps == shard_packets_spec(seq0, cw, d, frame_index, timestamp, flags));
    let n = cw.len();
    if n > MAX_FRAME_SHARDS {
        assert(ps.len() == 0);
    }
    assert(ps.len() == n);
    assert(flags_slice_count(flags) == 0);
    assert(flags_is_keyframe(flags) == is_keyframe);
    assert forall|j: int| 0 <= j < n implies (#[trigger] cw[j]).len() == FEC_SHARD_SIZE by {
        lemma_shard_packet_len(((seq0 + j) % 65536) as u16, timestamp, frame_index, j, n, flags, d, cw[j]);
        assert(ps[j].len() == PACKET_HEADER_LEN + FEC_SHARD_SIZE);
    }
    assert(uniform_code_word(cw, d));
    lemma_kept_prefix(st, seq0, cw, d, frame_index, timestamp, flags, kept, d as int);
    let slots = kept_slots(cw, kept, d as int);
    let g = kept_group(cw, d, kept, d as int);
    assert(slots.len() == n);
    assert(present_uniform(slots));
    assert(rs_decodable(slots, d));
    assert(agrees_with(slots, cw));
    assert(group_data_shards(g) is Some);
    let g2 = group_after_packet(g, false);
    assert(g2.decoded == Some(rebuilt_bytes(slots, d, p)));
    if all_some(slots.subrange(0, d as int)) {
        assert(unwrap_shards(slots.subrange(0, d as int)) =~= ds);
        lemma_concat_padded(frame, d);
        assert(ds.subrange(0, d as int) =~= ds);
    }
    lemma_concat_padded(frame, d);
    assert(ds.subrange(0, d as int) =~= ds);
    assert(agreeing_data(g, ds));
    let sel = select_packets(ps, kept);
    let a = sel.subrange(0, d as int);
    let b = sel.subrange(d as int, sel.len() as int);
    assert(a + b =~= sel);
    let sd = reasm_run(st, a).0;
    assert(of_frame(b, frame_index)) by {
        assert forall|k: int| 0 <= k < b.len() implies (#[trigger] read_fvp_header_spec(b[k]) matches Some(h) ==> h.frame_index == frame_index) by {
            let j = kept[d + k];
            lemma_shard_packet_parse(((seq0 + j) % 65536) as u16, timestamp, frame_index, j, n, flags, d, cw[j]);
            assert(b[k] == ps[j]);
        }
    }
    lemma_delivered_stays(sd, b);
    lemma_run_append(st, a, b);
    let oa = reasm_run(st, a).1;
    let ob = reasm_run(sd, b).1;
    let outs = reasm_run(st, sel).1;
    assert(outs == oa + ob);
    assert forall|j: int| 0 <= j < kept.len() && j != d - 1 implies (#[trigger] outs[j]) is None by {
        if j < d {
            assert(outs[j] == oa[j]);
        } else {
            assert(outs[j] == ob[j - d]);
        }
    }
    assert(outs[d - 1] == oa[d - 1]);
}

/// What the sender sends, the receiver rebuilds: whatever layout
/// `FrameFecEncoder::encode` picks for a frame (bulk, sliced or
/// unprotected), feeding every packet of its batches, in order, to a
/// reassembler not holding that frame makes the frame come out exactly once,
/// with its index and keyframe flag, as `frame_delivered_bytes`. Holds
/// whenever the frame is sent at all (`encode` returns no empty batch).
#[verifier::spinoff_prover]
pub proof fn lemma_frame_delivered(
    st: Option<PendingView>,
    bulk_table: Seq<u16>,
    slice_tables: Seq<Seq<u16>>,
    slicing: bool,
    slices: u8,
    seq0: u16,
    frame: Seq<u8>,
    frame_index: u32,
    timestamp: u32,
    is_keyframe: bool,
)
    requires
        frame_batches_spec(bulk_table, slice_tables, slicing, slices, seq0, frame, frame_index, timestamp, is_keyframe).len() > 0,
        forall|i: int|
            0 <= i < frame_batches_spec(bulk_table, slice_tables, slicing, slices, seq0, frame, frame_index, timestamp, is_keyframe).len()
                ==> (#[trigger] frame_batches_spec(
                bulk_table,
                slice_tables,
                slicing,
                slices,
                seq0,
                frame,
                frame_index,
                timestamp,
                is_keyframe,
            )[i]).len() > 0,
        !(st matches Some(f) && f.frame_index == frame_index),
    ensures
        ({
            let ps = all_packets(
                frame_batches_spec(bulk_table, slice_tables, slicing, slices, seq0, frame, frame_index, timestamp, is_keyframe),
            );
            let outs = reasm_run(st, ps).1;
            &&& outs.len() == ps.len()
            &&& exists|at: int|
                0 <= at < outs.len() && #[trigger] outs[at] == Some(
                    (frame_index, is_keyframe, frame_delivered_bytes(bulk_table, slicing, slices, frame)),
                )
            &&& forall|j: int, k: int|
                0 <= j < outs.len() && 0 <= k < outs.len() && (#[trigger] outs[j]) is Some && (#[trigger] outs[k]) is Some
                    ==> j == k
        }),
{
    let bs = frame_batches_spec(bulk_table, slice_tables, slicing, slices, seq0, frame, frame_index, timestamp, is_keyframe);
    let ps = all_packets(bs);
    let outs = reasm_run(st, ps).1;
    let flags: u16 = if is_keyframe { 1 } else { 0 };
    match fec_layout_spec(frame.len(), slicing, slices, max_data_for(bulk_table)) {
        FecLayout::Sliced(n) => {
            lemma_sliced_frame_roundtrip(st, slice_tables, seq0, frame, frame_index, timestamp, is_keyframe, n);
            let at = sliced_emit_at(slice_tables, frame, bs.len());
            assert(outs[at] == Some((frame_index, is_keyframe, frame)));
        },
        FecLayout::Bulk => {
            let p = bulk_packets_spec(bulk_table, seq0, frame, frame_index, timestamp, is_keyframe);
            assert(bs == seq![p]);
            assert(bs.drop_last() =~= Seq::<Seq<Seq<u8>>>::empty());
            assert(all_packets(bs.drop_last()) =~= Seq::<Seq<u8>>::empty());
            assert(ps == all_packets(bs.drop_last()) + bs.last());
            assert(ps =~= p);
            assert(data_shards_spec(frame).len() > 0);
            lemma_bulk_frame_roundtrip(st, bulk_table, seq0, frame, frame_index, timestamp, is_keyframe);
            let d = shard_count_for(frame.len());
            assert(outs[d - 1] == Some((frame_index, is_keyframe, zero_padded(frame))));
        },
        FecLayout::Unprotected => {
            let ds = data_shards_spec(frame);
            let d = shard_count_for(frame.len());
            let p = shard_packets_spec(seq0, ds, d, frame_index, timestamp, flags);
            assert(bs == seq![p]);
            assert(bs.drop_last() =~= Seq::<Seq<Seq<u8>>>::empty());
            assert(all_packets(bs.drop_last()) =~= Seq::<Seq<u8>>::empty());
            assert(ps == all_packets(bs.drop_last()) + bs.last());
            assert(ps =~= p);
            assert(ds.len() > 0 && ds.len() <= MAX_FRAME_SHARDS);
            assert forall|i: int| 0 <= i < d implies (#[trigger] ds[i]).len() == ds[0].len() by {
                lemma_padded_len(frame, i);
                lemma_padded_len(frame, 0);
            }
            lemma_padded_len(frame, 0);
            assert(flags_slice_count(flags) == 0);
            assert(flags_is_keyframe(flags) == is_keyframe);
            lemma_shard_batch_reassembles(st, seq0, ds, d, frame_index, timestamp, flags);
            lemma_concat_padded(frame, d);
            assert(ds.subrange(0, d as int) =~= ds);
            assert(concat_all(ds) == zero_padded(frame)) by {
                if d * FEC_SHARD_SIZE <= frame.len() {
                    assert(frame.subrange(0, d * FEC_SHARD_SIZE) =~= frame);
                    assert(zero_padded(frame) =~= frame);
                }
            }
            assert(outs[d - 1] == Some((frame_index, is_keyframe, zero_padded(frame))));
        },
    }
}

/// A packet the reassembler cannot use: no FVP header (too short), an
/// invalid one, an empty payload, or a slice index past the slice count.
pub open spec fn malformed_packet(p: Seq<u8>) -> bool {
    match read_fvp_header_spec(p) {
        None => true,
        Some(h) => {
            let sc = flags_slice_count(h.flags);
            ||| !h.valid()
            ||| p.len() <= PACKET_HEADER_LEN
            ||| (sc > 0 && flags_slice_index(h.flags) >= sc)
        },
    }
}

/// Malformed packets are ignored: however many arrive, the reassembler's
/// state stays as it was (so the frame in progress, or the next one, still
/// reassembles) and none yields anything.
pub proof fn lemma_malformed_packets_ignored(st: Option<PendingView>, ps: Seq<Seq<u8>>)
    requires
        forall|k: int| 0 <= k < ps.len() ==> malformed_packet(#[trigger] ps[k]),
    ensures
        reasm_run(st, ps).0 == st,
        reasm_run(st, ps).1.len() == ps.len(),
        forall|k: int| 0 <= k < ps.len() ==> (#[trigger] reasm_run(st, ps).1[k]) is None,
    decreases ps.len(),
{
    if ps.len() > 0 {
        assert forall|k: int| 0 <= k < ps.drop_last().len() implies malformed_packet(#[trigger] ps.drop_last()[k]) by {
            assert(ps.drop_last()[k] == ps[k]);
        }
        lemma_malformed_packets_ignored(st, ps.drop_last());
        assert(malformed_packet(ps[ps.len() - 1]));
        reveal(reasm_step);
    }
}

} // verus!
