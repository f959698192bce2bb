use streaming_engine::pipeline::{
    choose_fec_layout, decode_packets_to_frame, encode_frame_sliced, encode_frame_to_packets,
    encode_frame_to_packets_with_fec, FecFrameReassembler, FecLayout, FrameFecEncoder,
};
use streaming_engine::protocol::{
    flags_get_keyframe, flags_get_slice_count, flags_get_slice_index, FEC_SHARD_SIZE, MAX_FRAME_SHARDS,
    PACKET_HEADER_LEN,
};
use streaming_engine::transport::fec::FecEncoder;
use streaming_engine::transport::rtp::{
    read_fvp_header, write_fvp_header, write_rtp_header, FvpHeader, ReassembledFrame, RtpPacket, RtpPacketizer,
};

fn redundancy_table(redundancy: f32) -> Vec<u16> {
    let r = redundancy.clamp(0.0, 1.0);
    (0..=255usize).map(|d| ((d as f32 * r).ceil() as usize).max(1) as u16).collect()
}

fn make_packetizer() -> RtpPacketizer {
    RtpPacketizer::new(0x42)
}

#[test]
fn test_encode_empty_frame_returns_no_packets() {
    let mut pkt = make_packetizer();
    let packets = encode_frame_to_packets(&[], 0, 0, false, redundancy_table(0.2), &mut pkt);
    assert!(packets.is_empty(), "Empty frame should produce zero packets");
}

#[test]
fn test_encode_small_frame_single_shard() {
    let frame = vec![0xAB; 100];
    let mut pkt = make_packetizer();
    let packets = encode_frame_to_packets(&frame, 1, 9000, false, redundancy_table(0.2), &mut pkt);
    assert_eq!(packets.len(), 2);
    for p in &packets {
        assert_eq!(p.data.len(), PACKET_HEADER_LEN + FEC_SHARD_SIZE);
    }
}

#[test]
fn test_rtp_header_fields() {
    let frame = vec![0xFF; 50];
    let mut pkt = make_packetizer();
    let packets = encode_frame_to_packets(&frame, 42, 12345, false, redundancy_table(0.2), &mut pkt);
    assert!(!packets.is_empty());
    let data = &packets[0].data;
    assert_eq!(data[0], 0x80);
    let ts = u32::from_be_bytes([data[4], data[5], data[6], data[7]]);
    assert_eq!(ts, 12345);
    let ssrc = u32::from_be_bytes([data[8], data[9], data[10], data[11]]);
    assert_eq!(ssrc, 0x42);
}

#[test]
fn test_fvp_header_frame_index_and_shard_fields() {
    let frame = vec![0x11; FEC_SHARD_SIZE * 3 + 10];
    let mut pkt = make_packetizer();
    let packets = encode_frame_to_packets(&frame, 99, 0, false, redundancy_table(0.2), &mut pkt);
    assert_eq!(packets.len(), 5);
    for (i, p) in packets.iter().enumerate() {
        let d = &p.data;
        let frame_idx = u32::from_le_bytes([d[12], d[13], d[14], d[15]]);
        assert_eq!(frame_idx, 99, "frame_index mismatch at shard {i}");
        let shard_index = u16::from_le_bytes([d[16], d[17]]) as usize;
        assert_eq!(shard_index, i, "shard_index mismatch at shard {i}");
        let shard_count = u16::from_le_bytes([d[18], d[19]]) as usize;
        assert_eq!(shard_count, 5, "shard_count mismatch at shard {i}");
    }
}

#[test]
fn test_keyframe_flag_set_in_fvp_header() {
    let frame = vec![0xCC; 100];
    let mut pkt = make_packetizer();
    let kf_packets = encode_frame_to_packets(&frame, 0, 0, true, redundancy_table(0.2), &mut pkt);
    for p in &kf_packets {
        let flags = u16::from_le_bytes([p.data[20], p.data[21]]);
        assert_eq!(flags & 1, 1, "Keyframe flag should be set");
    }
    let nkf_packets = encode_frame_to_packets(&frame, 1, 0, false, redundancy_table(0.2), &mut pkt);
    for p in &nkf_packets {
        let flags = u16::from_le_bytes([p.data[20], p.data[21]]);
        assert_eq!(flags & 1, 0, "Keyframe flag should be clear");
    }
}

#[test]
fn test_marker_bit_only_on_last_packet() {
    let frame = vec![0xDD; FEC_SHARD_SIZE * 2 + 1];
    let mut pkt = make_packetizer();
    let packets = encode_frame_to_packets(&frame, 0, 0, false, redundancy_table(0.2), &mut pkt);
    assert!(packets.len() >= 3);
    for (i, p) in packets.iter().enumerate() {
        let marker = p.data[1] & 0x80;
        if i == packets.len() - 1 {
            assert_ne!(marker, 0, "Last packet must have marker bit set");
        } else {
            assert_eq!(marker, 0, "Non-last packet must not have marker bit");
        }
    }
}

#[test]
fn test_encode_decode_roundtrip() {
    let original = vec![0xEE; 5000];
    let mut pkt = make_packetizer();
    let packets = encode_frame_to_packets(&original, 7, 45000, true, redundancy_table(0.2), &mut pkt);
    let total_shard_count = u16::from_le_bytes([packets[0].data[18], packets[0].data[19]]) as usize;
    let data_shard_count = original.len().div_ceil(FEC_SHARD_SIZE);
    let pkt_refs: Vec<&[u8]> = packets.iter().map(|p| p.data.as_slice()).collect();
    let decoded = decode_packets_to_frame(&pkt_refs, data_shard_count, total_shard_count, original.len())
        .expect("decode should succeed");
    assert_eq!(decoded, original);
}

#[test]
fn test_decode_recovers_with_lost_packets() {
    let original = vec![0xAA; FEC_SHARD_SIZE * 4];
    let mut pkt = make_packetizer();
    let packets = encode_frame_to_packets(&original, 0, 0, false, redundancy_table(0.5), &mut pkt);
    let total_shard_count = u16::from_le_bytes([packets[0].data[18], packets[0].data[19]]) as usize;
    let data_shard_count = 4;
    assert_eq!(total_shard_count, 6);
    let surviving: Vec<&[u8]> = packets
        .iter()
        .enumerate()
        .filter(|(i, _)| *i != 1 && *i != 3)
        .map(|(_, p)| p.data.as_slice())
        .collect();
    let decoded = decode_packets_to_frame(&surviving, data_shard_count, total_shard_count, original.len())
        .expect("FEC should recover 2 lost shards with 50% redundancy");
    assert_eq!(decoded, original);
}

#[test]
fn test_decode_rejects_invalid_shard_counts() {
    assert!(decode_packets_to_frame(&[], 0, 0, 100).is_err());
    assert!(decode_packets_to_frame(&[], 5, 3, 100).is_err());
    assert!(decode_packets_to_frame(&[], 1, 5000, 100).is_err());
    assert_eq!(decode_packets_to_frame(&[], 0, 0, 100), Err("Invalid shard counts".to_string()));
}

#[test]
fn test_decode_skips_undersized_packets() {
    let tiny: Vec<u8> = vec![0; 10];
    let pkt_refs: Vec<&[u8]> = vec![tiny.as_slice()];
    let result = decode_packets_to_frame(&pkt_refs, 2, 3, 100);
    assert!(result.is_err());
    assert!(result.unwrap_err().starts_with("FEC decode failed: "));
}

#[test]
fn test_sliced_fec_encode_4_slices() {
    let frame = vec![0xAB; 20_000];
    let mut pkt = make_packetizer();
    let mut encoders: Vec<FecEncoder> = (0..4).map(|_| FecEncoder::from_parity_table(redundancy_table(0.2))).collect();
    let batches = encode_frame_sliced(&frame, 1, 9000, true, 4, &mut encoders, &mut pkt);
    assert_eq!(batches.len(), 4, "Should produce 4 slice batches");
    for (i, batch) in batches.iter().enumerate() {
        assert!(!batch.is_empty(), "Slice {} should have packets", i);
        let flags = u16::from_le_bytes([batch[0].data[20], batch[0].data[21]]);
        let si = flags_get_slice_index(flags);
        let sc = flags_get_slice_count(flags);
        assert_eq!(si, i as u8, "slice_index mismatch");
        assert_eq!(sc, 4, "slice_count should be 4");
        assert!(flags_get_keyframe(flags));
    }
}

#[test]
fn test_sliced_fec_backward_compat_bulk_path() {
    let frame = vec![0xCC; 1000];
    let mut pkt = make_packetizer();
    let packets = encode_frame_to_packets(&frame, 0, 0, false, redundancy_table(0.2), &mut pkt);
    assert!(!packets.is_empty());
    let flags = u16::from_le_bytes([packets[0].data[20], packets[0].data[21]]);
    assert_eq!(flags_get_slice_index(flags), 0);
    assert_eq!(flags_get_slice_count(flags), 0);
}

#[test]
fn test_sliced_fec_payload_len_prefix() {
    let frame = vec![0xDD; 20_000];
    let mut pkt = make_packetizer();
    let mut encoders: Vec<FecEncoder> = (0..4).map(|_| FecEncoder::from_parity_table(redundancy_table(0.2))).collect();
    let batches = encode_frame_sliced(&frame, 0, 0, false, 4, &mut encoders, &mut pkt);
    for (i, batch) in batches.iter().enumerate() {
        if batch.is_empty() {
            continue;
        }
        let payload = &batch[0].data[PACKET_HEADER_LEN..];
        let prefix_len = u32::from_le_bytes([payload[0], payload[1], payload[2], payload[3]]);
        assert_eq!(prefix_len, 5000, "Slice {} payload len prefix mismatch", i);
    }
}

#[test]
fn test_sliced_fec_tiny_frame_uses_one_slice_per_byte() {
    let frame = vec![1, 2, 3];
    let mut pkt = make_packetizer();
    let mut encoders: Vec<FecEncoder> = (0..4).map(|_| FecEncoder::from_parity_table(redundancy_table(0.2))).collect();
    let batches = encode_frame_sliced(&frame, 0, 0, false, 4, &mut encoders, &mut pkt);
    assert_eq!(batches.len(), 3);
    for batch in &batches {
        assert!(!batch.is_empty());
        assert_eq!(flags_get_slice_count(header_of(&batch[0]).flags), 3);
    }
    let frames = reassemble_batches(&mut FecFrameReassembler::new(), &batches, &[]);
    assert_eq!(frames.len(), 1);
    assert_eq!(frames[0].data, frame);
}

#[test]
fn test_sliced_fec_total_packet_count() {
    let frame = vec![0xEE; 24_000];
    let mut pkt1 = make_packetizer();
    let mut pkt2 = make_packetizer();
    let mut bulk_enc = FecEncoder::from_parity_table(redundancy_table(0.2));
    let mut slice_encs: Vec<FecEncoder> = (0..4).map(|_| FecEncoder::from_parity_table(redundancy_table(0.2))).collect();
    let bulk_packets = encode_frame_to_packets_with_fec(&frame, 0, 0, false, &mut bulk_enc, &mut pkt1);
    let slice_batches = encode_frame_sliced(&frame, 0, 0, false, 4, &mut slice_encs, &mut pkt2);
    let slice_total: usize = slice_batches.iter().map(|b| b.len()).sum();
    let ratio = slice_total as f64 / bulk_packets.len() as f64;
    assert!(
        ratio > 0.8 && ratio < 1.5,
        "Slice FEC packet count ({}) should be within expected range of bulk ({}), ratio={:.2}",
        slice_total,
        bulk_packets.len(),
        ratio
    );
}

#[test]
fn test_rtp_slice_flags_encode() {
    let frame = vec![0xFF; 100];
    let mut pkt = make_packetizer();
    let packets = encode_frame_to_packets(&frame, 0, 0, true, redundancy_table(0.2), &mut pkt);
    let flags = u16::from_le_bytes([packets[0].data[20], packets[0].data[21]]);
    assert!(flags_get_keyframe(flags));
    assert_eq!(flags_get_slice_index(flags), 0);
    assert_eq!(flags_get_slice_count(flags), 0);
}

fn header_of(p: &RtpPacket) -> FvpHeader {
    read_fvp_header(&p.data).expect("packet must carry a full header")
}

fn frame_of(data_shards: usize, seed: u8) -> Vec<u8> {
    let len = FEC_SHARD_SIZE * (data_shards - 1) + 7;
    (0..len).map(|i| (i as u8).wrapping_mul(31).wrapping_add(seed)).collect()
}

fn legacy_heuristic(total: u16) -> u16 {
    (total as f32 / 1.2) as u16
}

fn reassemble(r: &mut FecFrameReassembler, packets: &[RtpPacket], drop: &[usize]) -> Vec<ReassembledFrame> {
    packets
        .iter()
        .enumerate()
        .filter(|(i, _)| !drop.contains(i))
        .filter_map(|(_, p)| r.feed(&p.data))
        .collect()
}

fn reassemble_batches(r: &mut FecFrameReassembler, batches: &[Vec<RtpPacket>], drop: &[usize]) -> Vec<ReassembledFrame> {
    batches.iter().flat_map(|b| reassemble(r, b, drop)).collect()
}

fn patterned(len: usize, seed: u8) -> Vec<u8> {
    (0..len).map(|i| ((i % 251) as u8).wrapping_add(seed)).collect()
}

fn assert_bulk_frame_eq(frame: &ReassembledFrame, original: &[u8]) {
    assert_eq!(&frame.data[..original.len()], original);
    assert!(frame.data[original.len()..].iter().all(|&b| b == 0));
    assert_eq!(frame.data.len() % FEC_SHARD_SIZE, 0);
}

#[test]
fn test_every_packet_carries_data_shard_count() {
    for redundancy in [0.05f32, 0.2, 0.4, 1.0] {
        let frame = frame_of(11, 1);
        let packets = encode_frame_to_packets(&frame, 3, 0, false, redundancy_table(redundancy), &mut make_packetizer());
        let parity = ((11.0 * redundancy).ceil() as usize).max(1);
        assert_eq!(packets.len(), 11 + parity, "redundancy {redundancy}");
        for (i, p) in packets.iter().enumerate() {
            let h = header_of(p);
            assert_eq!(h.shard_index as usize, i);
            assert_eq!(h.shard_count as usize, 11 + parity);
            assert_eq!(h.data_shard_count, 11, "redundancy {redundancy}, shard {i}");
            assert!(h.is_valid());
        }
    }
}

#[test]
fn test_legacy_total_div_1_2_heuristic_is_wrong_under_adaptive_fec() {
    let original = frame_of(10, 9);
    for (redundancy, total) in [(0.05f32, 11u16), (0.4, 14), (1.0, 20)] {
        let packets = encode_frame_to_packets(&original, 0, 0, false, redundancy_table(redundancy), &mut make_packetizer());
        let h = header_of(&packets[0]);
        assert_eq!(h.shard_count, total);
        assert_eq!(h.data_shard_count, 10);
        let guess = legacy_heuristic(total);
        assert_ne!(guess, 10, "heuristic happened to be right for {redundancy}");
        let parity = total as usize - 10;
        let lost: Vec<usize> = (0..parity).collect();
        let refs: Vec<&[u8]> = packets[parity..].iter().map(|p| p.data.as_slice()).collect();
        let guessed = decode_packets_to_frame(&refs, guess as usize, total as usize, original.len());
        assert_ne!(
            guessed.ok().as_deref(),
            Some(original.as_slice()),
            "guessed split {guess}/{total} must not recover the frame"
        );
        let frames = reassemble(&mut FecFrameReassembler::new(), &packets, &lost);
        assert_eq!(frames.len(), 1, "header split recovers at {redundancy}");
        assert_bulk_frame_eq(&frames[0], &original);
    }
}

#[test]
fn test_reassembler_recovers_max_loss_at_each_redundancy() {
    for redundancy in [0.05f32, 0.2, 0.4, 1.0] {
        let original = frame_of(12, 3);
        let packets = encode_frame_to_packets(&original, 5, 0, true, redundancy_table(redundancy), &mut make_packetizer());
        let parity = packets.len() - 12;
        let lost: Vec<usize> = (0..parity).map(|k| (k * 5) % 12).collect();
        let lost: Vec<usize> = {
            let mut v = lost;
            v.sort_unstable();
            v.dedup();
            v
        };
        let frames = reassemble(&mut FecFrameReassembler::new(), &packets, &lost);
        assert_eq!(frames.len(), 1, "redundancy {redundancy}, lost {lost:?}");
        assert_eq!(frames[0].frame_index, 5);
        assert!(frames[0].is_keyframe);
        assert_bulk_frame_eq(&frames[0], &original);
    }
}

#[test]
fn test_reassembler_follows_redundancy_changes_between_frames() {
    let mut enc = FecEncoder::from_parity_table(redundancy_table(0.05));
    let mut pkt = make_packetizer();
    let mut r = FecFrameReassembler::new();
    for (idx, redundancy) in [0.05f32, 0.4, 0.15, 1.0, 0.25].into_iter().enumerate() {
        enc.set_parity_table(redundancy_table(redundancy));
        let original = frame_of(10, idx as u8);
        let packets = encode_frame_to_packets_with_fec(&original, idx as u32, 0, false, &mut enc, &mut pkt);
        let frames = reassemble(&mut r, &packets, &[1]);
        assert_eq!(frames.len(), 1, "frame {idx} (redundancy {redundancy})");
        assert_eq!(frames[0].frame_index, idx as u32);
        assert_bulk_frame_eq(&frames[0], &original);
        pkt.recycle(packets);
    }
}

#[test]
fn test_reassembler_emits_each_frame_once() {
    let original = frame_of(4, 2);
    let packets = encode_frame_to_packets(&original, 1, 0, false, redundancy_table(0.5), &mut make_packetizer());
    let frames = reassemble(&mut FecFrameReassembler::new(), &packets, &[]);
    assert_eq!(frames.len(), 1);
}

#[test]
fn test_reassembler_unrecoverable_frame_then_next_frame_ok() {
    let mut r = FecFrameReassembler::new();
    let first = frame_of(6, 4);
    let packets = encode_frame_to_packets(&first, 0, 0, false, redundancy_table(0.2), &mut make_packetizer());
    let parity = packets.len() - 6;
    let lost: Vec<usize> = (0..=parity).collect();
    assert!(reassemble(&mut r, &packets, &lost).is_empty());
    let second = frame_of(6, 5);
    let packets = encode_frame_to_packets(&second, 1, 0, false, redundancy_table(0.2), &mut make_packetizer());
    let frames = reassemble(&mut r, &packets, &[]);
    assert_eq!(frames.len(), 1);
    assert_bulk_frame_eq(&frames[0], &second);
}

#[test]
fn test_reassembler_sliced_frame_with_loss() {
    let original: Vec<u8> = (0..20_000u32).map(|i| (i % 251) as u8).collect();
    let mut encs: Vec<FecEncoder> = (0..4).map(|_| FecEncoder::from_parity_table(redundancy_table(0.2))).collect();
    let batches = encode_frame_sliced(&original, 8, 0, true, 4, &mut encs, &mut make_packetizer());
    let mut r = FecFrameReassembler::new();
    let mut frames = Vec::new();
    for batch in &batches {
        let data_count = header_of(&batch[0]).data_shard_count;
        assert!(data_count > 0 && (data_count as usize) < batch.len());
        frames.extend(reassemble(&mut r, batch, &[0]));
    }
    assert_eq!(frames.len(), 1, "all slices recovered → exactly one frame");
    assert_eq!(frames[0].frame_index, 8);
    assert_eq!(frames[0].data, original, "slice prefixes stripped, no padding");
}

#[test]
fn test_bulk_fallback_without_fec_reports_all_shards_as_data() {
    let original = frame_of(240, 6);
    let packets = encode_frame_to_packets(&original, 2, 0, true, redundancy_table(0.2), &mut make_packetizer());
    assert_eq!(packets.len(), 240);
    for p in &packets {
        let h = header_of(p);
        assert_eq!(h.data_shard_count, h.shard_count);
    }
    let frames = reassemble(&mut FecFrameReassembler::new(), &packets, &[]);
    assert_eq!(frames.len(), 1);
    assert_bulk_frame_eq(&frames[0], &original);
}

#[test]
fn test_reassembler_drops_invalid_headers() {
    let raw = |shard_index: u16, shard_count: u16, data: u16| {
        let mut buf = Vec::new();
        write_rtp_header(&mut buf, 97, false, 0, 0, 0);
        write_fvp_header(&mut buf, 0, shard_index, shard_count, 0, data);
        buf.extend_from_slice(&[0xEE; FEC_SHARD_SIZE]);
        buf
    };
    let mut r = FecFrameReassembler::new();
    assert!(r.feed(&raw(0, 1, 0)).is_none(), "data=0");
    assert!(r.feed(&raw(0, 2, 3)).is_none(), "data>total");
    assert!(r.feed(&raw(2, 2, 1)).is_none(), "index>=total");
    assert!(r.feed(&raw(0, (MAX_FRAME_SHARDS + 1) as u16, 1)).is_none(), "total>MAX");
    assert!(r.feed(&[0u8; PACKET_HEADER_LEN - 1]).is_none(), "short packet");
    assert!(r.feed(&raw(0, 1, 1)[..PACKET_HEADER_LEN]).is_none(), "empty payload");
    let original = frame_of(3, 7);
    let packets = encode_frame_to_packets(&original, 0, 0, false, redundancy_table(0.4), &mut make_packetizer());
    let frames = reassemble(&mut r, &packets, &[2]);
    assert_eq!(frames.len(), 1);
    assert_bulk_frame_eq(&frames[0], &original);
}

#[test]
fn test_reassembler_ignores_shards_with_conflicting_counts() {
    let original = frame_of(4, 8);
    let packets = encode_frame_to_packets(&original, 0, 0, false, redundancy_table(0.5), &mut make_packetizer());
    let mut r = FecFrameReassembler::new();
    assert!(r.feed(&packets[0].data).is_none());
    let mut forged = packets[1].data.clone();
    forged[22..24].copy_from_slice(&5u16.to_le_bytes());
    assert!(r.feed(&forged).is_none());
    let frames: Vec<_> = packets[1..].iter().filter_map(|p| r.feed(&p.data)).collect();
    assert_eq!(frames.len(), 1);
    assert_bulk_frame_eq(&frames[0], &original);
}

#[test]
fn test_choose_fec_layout() {
    let max_20 = FecEncoder::from_parity_table(redundancy_table(0.2)).max_data_shards();
    let max_40 = FecEncoder::from_parity_table(redundancy_table(0.4)).max_data_shards();
    let cases = [
        (1_000, true, 4, max_20, FecLayout::Bulk),
        (20_000, true, 4, max_20, FecLayout::Sliced(4)),
        (1_100_000, true, 4, max_20, FecLayout::Sliced(5)),
        (880_000, true, 4, max_20, FecLayout::Sliced(4)),
        (880_000, true, 4, max_40, FecLayout::Sliced(5)),
        (200_000, false, 4, max_20, FecLayout::Bulk),
        (300_000, false, 4, max_20, FecLayout::Sliced(2)),
        (4_000_000, true, 4, max_20, FecLayout::Unprotected),
    ];
    for (len, enabled, slices, max, expected) in cases {
        assert_eq!(choose_fec_layout(len, enabled, slices, max), expected, "len {len}, slicing {enabled}, max {max}");
    }
}

#[test]
fn test_large_idr_is_sent_in_more_slices_and_recovered() {
    let original = patterned(1_100_000, 3);
    let mut enc = FrameFecEncoder::new(redundancy_table(0.2), true, 4);
    let batches = enc.encode(&original, 7, 0, true, &mut make_packetizer());
    assert_eq!(batches.len(), 5);
    for (i, batch) in batches.iter().enumerate() {
        let h = header_of(&batch[0]);
        assert_eq!(flags_get_slice_index(h.flags), i as u8);
        assert_eq!(flags_get_slice_count(h.flags), 5);
        assert!(h.data_shard_count < h.shard_count, "slice {i} keeps its parity");
    }
    let mut r = FecFrameReassembler::new();
    let mut frames = reassemble_batches(&mut r, &batches[..4], &[]);
    frames.extend(reassemble(&mut r, &batches[4], &[0]));
    assert_eq!(frames.len(), 1);
    assert_eq!(frames[0].data, original);
}

#[test]
fn test_reassembler_follows_slice_count_changes_between_frames() {
    let mut encs: Vec<FecEncoder> = (0..5).map(|_| FecEncoder::from_parity_table(redundancy_table(0.2))).collect();
    let mut bulk = FecEncoder::from_parity_table(redundancy_table(0.2));
    let mut pkt = make_packetizer();
    let mut r = FecFrameReassembler::new();
    for (idx, slices) in [4u8, 5, 0, 4].into_iter().enumerate() {
        let original = patterned(20_000, idx as u8);
        let batches = if slices == 0 {
            vec![encode_frame_to_packets_with_fec(&original, idx as u32, 0, false, &mut bulk, &mut pkt)]
        } else {
            encode_frame_sliced(&original, idx as u32, 0, false, slices, &mut encs, &mut pkt)
        };
        let frames = reassemble_batches(&mut r, &batches, &[1]);
        assert_eq!(frames.len(), 1, "frame {idx} ({slices} slices)");
        assert_eq!(frames[0].frame_index, idx as u32);
        if slices == 0 {
            assert_bulk_frame_eq(&frames[0], &original);
        } else {
            assert_eq!(frames[0].data, original);
        }
    }
}

#[test]
fn test_frame_fec_encoder_slices_big_frames_even_with_slicing_off() {
    let original = patterned(160_000, 1);
    let mut enc = FrameFecEncoder::new(redundancy_table(1.0), false, 4);
    let batches = enc.encode(&original, 0, 0, true, &mut make_packetizer());
    assert_eq!(batches.len(), 2);
    for batch in &batches {
        let h = header_of(&batch[0]);
        assert_eq!(flags_get_slice_count(h.flags), 2);
        assert!(h.data_shard_count < h.shard_count);
    }
    let frames = reassemble_batches(&mut FecFrameReassembler::new(), &batches, &[0]);
    assert_eq!(frames.len(), 1);
    assert_eq!(frames[0].data, original);
}

#[test]
fn test_frame_fec_encoder_set_redundancy_reaches_every_slice() {
    let mut enc = FrameFecEncoder::new(redundancy_table(0.05), true, 4);
    enc.set_parity_table(redundancy_table(0.4));
    assert_eq!(enc.parity_table(), redundancy_table(0.4).as_slice());
    let batches = enc.encode(&patterned(100_000, 2), 0, 0, false, &mut make_packetizer());
    assert_eq!(batches.len(), 4);
    for batch in &batches {
        let h = header_of(&batch[0]);
        let data = h.data_shard_count as usize;
        assert_eq!(h.shard_count as usize - data, (data as f32 * 0.4).ceil() as usize);
    }
}

#[test]
fn test_frame_fec_encoder_unprotected_and_oversized_frames() {
    let mut enc = FrameFecEncoder::new(redundancy_table(0.2), true, 4);
    let mut pkt = make_packetizer();
    let original = patterned(4_000_000, 4);
    let batches = enc.encode(&original, 0, 0, true, &mut pkt);
    assert_eq!(batches.len(), 1);
    let h = header_of(&batches[0][0]);
    assert_eq!(h.shard_count, h.data_shard_count);
    assert_eq!(h.shard_count as usize, original.len().div_ceil(FEC_SHARD_SIZE));
    let frames = reassemble_batches(&mut FecFrameReassembler::new(), &batches, &[]);
    assert_eq!(frames.len(), 1);
    assert_bulk_frame_eq(&frames[0], &original);
    let huge = vec![0u8; FEC_SHARD_SIZE * (MAX_FRAME_SHARDS + 1)];
    assert!(enc.encode(&huge, 1, 0, true, &mut pkt).is_empty());
    assert!(enc.encode(&[], 2, 0, false, &mut pkt).is_empty());
}

#[test]
fn test_sliced_fec_is_all_or_nothing() {
    let frame = patterned(1_100_000, 5);
    let mut encs: Vec<FecEncoder> = (0..4).map(|_| FecEncoder::from_parity_table(redundancy_table(0.2))).collect();
    assert!(encode_frame_sliced(&frame, 0, 0, true, 4, &mut encs, &mut make_packetizer()).is_empty());
    let small = patterned(20_000, 6);
    let mut two: Vec<FecEncoder> = (0..2).map(|_| FecEncoder::from_parity_table(redundancy_table(0.2))).collect();
    assert!(encode_frame_sliced(&small, 0, 0, false, 4, &mut two, &mut make_packetizer()).is_empty());
}

#[test]
fn reassembled_bulk_frame_is_zero_padded_once() {
    let original = frame_of(3, 11);
    let packets = encode_frame_to_packets(&original, 4, 0, true, redundancy_table(0.2), &mut make_packetizer());
    let mut r = FecFrameReassembler::new();
    let mut outs = Vec::new();
    for p in &packets {
        outs.push(r.feed(&p.data));
    }
    assert!(outs[0].is_none() && outs[1].is_none());
    let frame = outs[2].as_ref().expect("emitted at the last data shard");
    assert_eq!(frame.data.len(), 3 * FEC_SHARD_SIZE);
    assert_bulk_frame_eq(frame, &original);
    assert!(outs[3].is_none(), "parity after delivery yields nothing");
    assert!(r.feed(&packets[0].data).is_none());
}

#[test]
fn decode_uses_only_in_range_slots() {
    let original = vec![7u8; 100];
    let packets = encode_frame_to_packets(&original, 0, 0, false, redundancy_table(0.2), &mut make_packetizer());
    let refs: Vec<&[u8]> = packets.iter().map(|p| p.data.as_slice()).collect();
    assert_eq!(decode_packets_to_frame(&refs, 1, 2, 100).unwrap(), original);
    assert_eq!(decode_packets_to_frame(&refs, 1, 2, 5000).unwrap().len(), FEC_SHARD_SIZE);
    assert_eq!(
        decode_packets_to_frame(&refs, 2, 2, 100),
        Err("FEC decode failed: insufficient shards for reconstruction".to_string())
    );
}

#[test]
fn decode_recovers_from_any_loss_up_to_parity_count() {
    let original = patterned(FEC_SHARD_SIZE * 3 + 17, 9);
    let packets = encode_frame_to_packets(&original, 3, 0, false, redundancy_table(0.5), &mut make_packetizer());
    let data = 4;
    let total = packets.len();
    assert_eq!(total, 6);
    for a in 0..total {
        for b in a..total {
            let kept: Vec<&[u8]> = packets
                .iter()
                .enumerate()
                .filter(|(i, _)| *i != a && *i != b)
                .map(|(_, p)| p.data.as_slice())
                .collect();
            let decoded = decode_packets_to_frame(&kept, data, total, original.len())
                .unwrap_or_else(|e| panic!("lost {a} and {b}: {e}"));
            assert_eq!(decoded, original, "lost {a} and {b}");
        }
    }
    let three_lost: Vec<&[u8]> = packets[3..].iter().map(|p| p.data.as_slice()).collect();
    assert!(decode_packets_to_frame(&three_lost, data, total, original.len()).is_err());
}

#[test]
fn sliced_frame_comes_out_once_at_last_data_shard_of_last_slice() {
    let original = patterned(20_000, 12);
    let mut encs: Vec<FecEncoder> = (0..4).map(|_| FecEncoder::from_parity_table(redundancy_table(0.2))).collect();
    let batches = encode_frame_sliced(&original, 9, 0, true, 4, &mut encs, &mut make_packetizer());
    assert_eq!(batches.len(), 4);
    assert!(batches.iter().all(|b| !b.is_empty()));
    let before_last: usize = batches[..3].iter().map(|b| b.len()).sum();
    let last_data = header_of(&batches[3][0]).data_shard_count as usize;
    let mut r = FecFrameReassembler::new();
    let outs: Vec<Option<ReassembledFrame>> = batches.iter().flatten().map(|p| r.feed(&p.data)).collect();
    let emitted: Vec<usize> = outs.iter().enumerate().filter(|(_, o)| o.is_some()).map(|(i, _)| i).collect();
    assert_eq!(emitted, vec![before_last + last_data - 1]);
    let frame = outs[before_last + last_data - 1].as_ref().unwrap();
    assert_eq!(frame.frame_index, 9);
    assert!(frame.is_keyframe);
    assert_eq!(frame.data, original);
}

#[test]
fn reassembler_emits_lossy_frame_at_the_data_count_th_packet_kept() {
    let original = frame_of(4, 21);
    let packets = encode_frame_to_packets(&original, 5, 0, false, redundancy_table(0.5), &mut make_packetizer());
    assert_eq!(packets.len(), 6);
    for lost in [[0usize, 1], [1, 3], [0, 5], [4, 5]] {
        let mut r = FecFrameReassembler::new();
        let outs: Vec<Option<ReassembledFrame>> = packets
            .iter()
            .enumerate()
            .filter(|(i, _)| !lost.contains(i))
            .map(|(_, p)| r.feed(&p.data))
            .collect();
        assert_eq!(outs.len(), 4);
        for (j, o) in outs.iter().enumerate() {
            assert_eq!(o.is_some(), j == 3, "lost {lost:?}, position {j}");
        }
        let frame = outs[3].as_ref().unwrap();
        assert_eq!(frame.frame_index, 5);
        assert!(!frame.is_keyframe);
        assert_bulk_frame_eq(frame, &original);
    }
}

#[test]
fn frame_fec_encoder_output_is_delivered_once_in_every_layout() {
    let mut enc = FrameFecEncoder::new(redundancy_table(0.2), true, 4);
    let mut pkt = make_packetizer();
    for (idx, (len, sliced)) in [(1_000usize, false), (100_000, true), (4_000_000, false)].into_iter().enumerate() {
        let original = patterned(len, idx as u8);
        let batches = enc.encode(&original, idx as u32, 0, idx == 1, &mut pkt);
        assert!(!batches.is_empty() && batches.iter().all(|b| !b.is_empty()));
        let mut r = FecFrameReassembler::new();
        let frames: Vec<ReassembledFrame> = batches.iter().flatten().filter_map(|p| r.feed(&p.data)).collect();
        assert_eq!(frames.len(), 1, "frame of {len} bytes");
        assert_eq!(frames[0].frame_index, idx as u32);
        assert_eq!(frames[0].is_keyframe, idx == 1);
        if sliced {
            assert_eq!(frames[0].data, original);
        } else {
            assert_bulk_frame_eq(&frames[0], &original);
        }
    }
}
