use streaming_engine::protocol::{FEC_SHARD_SIZE, MAX_FRAME_SHARDS, PACKET_HEADER_LEN};
use streaming_engine::transport::fec::{FecDecoder, FecEncoder, FecError, RsCodec};
use streaming_engine::transport::rtp::{
    read_fvp_header, write_fvp_header, write_rtp_header, FvpHeader, RtpDepacketizer, RtpPacketizer, MAX_PAYLOAD,
};
use streaming_engine::transport::loss::{clamp_loss_pct, drop_for_roll, should_drop_packet};
use streaming_engine::transport::slice::SliceSplitter;

/// Parity shards per data-shard count at `redundancy`, as a redundancy
/// ratio gives them: `max(1, ceil(d * r))`, `r` clamped to [0, 1].
fn parity_table(redundancy: f32) -> Vec<u16> {
    let r = redundancy.clamp(0.0, 1.0);
    (0..=255usize).map(|d| ((d as f32 * r).ceil() as usize).max(1) as u16).collect()
}

// --- RTP ---

#[test]
fn test_write_rtp_header_layout() {
    let mut buf = Vec::new();
    write_rtp_header(&mut buf, 96, true, 0x1234, 0xAABBCCDD, 0x11223344);
    assert_eq!(buf.len(), 12);
    assert_eq!(buf[0], 0x80);
    assert_eq!(buf[1], 0x80 | 96);
    assert_eq!(&buf[2..4], &[0x12, 0x34]);
    assert_eq!(&buf[4..8], &[0xAA, 0xBB, 0xCC, 0xDD]);
    assert_eq!(&buf[8..12], &[0x11, 0x22, 0x33, 0x44]);
}

#[test]
fn test_write_rtp_header_no_marker() {
    let mut buf = Vec::new();
    write_rtp_header(&mut buf, 96, false, 0, 0, 0);
    assert_eq!(buf[1], 96);
}

#[test]
fn test_write_rtp_header_masks_pt_overflow() {
    let mut buf = Vec::new();
    write_rtp_header(&mut buf, 0xFF, false, 0, 0, 0);
    assert_eq!(buf[1] & 0x80, 0);
    assert_eq!(buf[1] & 0x7F, 0x7F);
}

#[test]
fn test_read_fvp_header_roundtrip() {
    let mut buf = Vec::new();
    write_rtp_header(&mut buf, 96, true, 0, 0, 0);
    write_fvp_header(&mut buf, 0xDEAD_BEEF, 7, 42, 0b11, 35);
    assert_eq!(buf.len(), PACKET_HEADER_LEN);
    let hdr = read_fvp_header(&buf).unwrap();
    assert_eq!(hdr.frame_index, 0xDEAD_BEEF);
    assert_eq!(hdr.shard_index, 7);
    assert_eq!(hdr.shard_count, 42);
    assert_eq!(hdr.flags, 0b11);
    assert_eq!(hdr.data_shard_count, 35);
    assert!(hdr.is_keyframe());
    assert!(hdr.is_valid());
}

#[test]
fn test_fvp_header_byte_layout() {
    let mut buf = Vec::new();
    write_rtp_header(&mut buf, 97, false, 0, 0, 0);
    write_fvp_header(&mut buf, 0x0403_0201, 0x0605, 0x0807, 0x0A09, 0x0C0B);
    assert_eq!(&buf[12..16], &[0x01, 0x02, 0x03, 0x04]);
    assert_eq!(&buf[16..18], &[0x05, 0x06]);
    assert_eq!(&buf[18..20], &[0x07, 0x08]);
    assert_eq!(&buf[20..22], &[0x09, 0x0A]);
    assert_eq!(&buf[22..24], &[0x0B, 0x0C]);
}

#[test]
fn test_read_fvp_header_too_short() {
    assert!(read_fvp_header(&[]).is_none());
    assert!(read_fvp_header(&[0u8; 22]).is_none());
    assert!(read_fvp_header(&[0u8; PACKET_HEADER_LEN - 1]).is_none());
    assert!(read_fvp_header(&[0u8; PACKET_HEADER_LEN]).is_some());
}

fn header(shard_index: u16, shard_count: u16, data_shard_count: u16) -> FvpHeader {
    FvpHeader { frame_index: 0, shard_index, shard_count, flags: 0, data_shard_count }
}

#[test]
fn test_fvp_header_validation() {
    assert!(header(0, 1, 1).is_valid());
    assert!(header(13, 14, 10).is_valid());
    assert!(header(0, MAX_FRAME_SHARDS as u16, 1).is_valid());
    assert!(!header(0, 14, 0).is_valid(), "data=0 must be rejected");
    assert!(!header(0, 14, 15).is_valid(), "data>total must be rejected");
    assert!(!header(14, 14, 10).is_valid());
    assert!(!header(0, 0, 0).is_valid());
    assert!(!header(0, MAX_FRAME_SHARDS as u16 + 1, 1).is_valid());
}

#[test]
fn test_depacketizer_rejects_invalid_data_shard_count() {
    let mut buf = Vec::new();
    write_rtp_header(&mut buf, 97, true, 0, 0, 0);
    write_fvp_header(&mut buf, 0, 0, 1, 0, 0);
    buf.extend_from_slice(&[1, 2, 3]);
    assert!(RtpDepacketizer::new().feed(&buf).is_none());
}

#[test]
fn test_packetize_small_frame() {
    let mut pkt = RtpPacketizer::new(0x12345678);
    let frame = vec![0xAA; 100];
    let packets = pkt.packetize(&frame, 0, 0, true);
    assert_eq!(packets.len(), 1);
    assert_eq!(packets[0].data.len(), PACKET_HEADER_LEN + 100);
    let hdr = read_fvp_header(&packets[0].data).unwrap();
    assert_eq!(hdr.data_shard_count, hdr.shard_count);
    assert_ne!(packets[0].data[1] & 0x80, 0);
}

#[test]
fn test_packetize_large_frame() {
    let mut pkt = RtpPacketizer::new(1);
    let frame = vec![0xBB; MAX_PAYLOAD * 3 + 50];
    let packets = pkt.packetize(&frame, 1, 9000, false);
    assert_eq!(packets.len(), 4);
    for (i, p) in packets.iter().enumerate() {
        if i == 3 {
            assert_ne!(p.data[1] & 0x80, 0, "Last packet should have marker");
        } else {
            assert_eq!(p.data[1] & 0x80, 0, "Non-last packet should not have marker");
        }
    }
}

#[test]
fn test_packetize_depacketize_roundtrip() {
    let mut pktizer = RtpPacketizer::new(42);
    let original = vec![0xCC; 5000];
    let packets = pktizer.packetize(&original, 7, 12345, true);
    let mut depkt = RtpDepacketizer::new();
    let mut result = None;
    for p in &packets {
        result = depkt.feed(&p.data);
    }
    let frame = result.expect("Should have reassembled frame");
    assert_eq!(frame.frame_index, 7);
    assert!(frame.is_keyframe);
    assert_eq!(frame.data, original);
}

#[test]
fn test_sequence_number_wraps() {
    let mut pkt = RtpPacketizer::new(1);
    pkt.set_sequence(u16::MAX);
    let packets = pkt.packetize(&[0; 10], 0, 0, false);
    assert_eq!(packets.len(), 1);
    let packets2 = pkt.packetize(&[0; 10], 1, 0, false);
    assert_eq!(packets2.len(), 1);
}

#[test]
fn test_empty_frame() {
    let mut pkt = RtpPacketizer::new(1);
    let packets = pkt.packetize(&[], 0, 0, false);
    assert!(packets.is_empty());
}

#[test]
fn packetizer_sequence_continues_across_frames() {
    let mut pkt = RtpPacketizer::new(9);
    pkt.set_sequence(u16::MAX);
    let a = pkt.packetize(&[1; 10], 0, 0, false);
    let b = pkt.packetize(&[2; 10], 1, 0, false);
    assert_eq!(u16::from_be_bytes([a[0].data[2], a[0].data[3]]), u16::MAX);
    assert_eq!(u16::from_be_bytes([b[0].data[2], b[0].data[3]]), 0);
    assert_eq!(pkt.next_sequence(), 1);
}

// --- slices ---

#[test]
fn test_slice_splitter_4_equal() {
    let data = vec![0u8; 100];
    let slices = SliceSplitter::split(&data, 4);
    assert_eq!(slices.len(), 4);
    for s in &slices {
        assert_eq!(s.len(), 25);
    }
}

#[test]
fn test_slice_splitter_uneven() {
    let data = vec![0u8; 101];
    let slices = SliceSplitter::split(&data, 4);
    assert_eq!(slices.len(), 4);
    assert_eq!(slices[0].len(), 26);
    assert_eq!(slices[1].len(), 25);
    assert_eq!(slices[2].len(), 25);
    assert_eq!(slices[3].len(), 25);
    let total: usize = slices.iter().map(|s| s.len()).sum();
    assert_eq!(total, 101);
}

#[test]
fn test_slice_splitter_small_frame() {
    let data = vec![1, 2, 3];
    let slices = SliceSplitter::split(&data, 4);
    assert_eq!(slices.len(), 4);
    assert_eq!(slices[0].len(), 1);
    assert_eq!(slices[1].len(), 1);
    assert_eq!(slices[2].len(), 1);
    assert_eq!(slices[3].len(), 0);
}

#[test]
fn test_slice_splitter_single_byte() {
    let data = vec![42];
    let slices = SliceSplitter::split(&data, 4);
    assert_eq!(slices.len(), 4);
    assert_eq!(slices[0], &[42]);
    assert_eq!(slices[1].len(), 0);
    assert_eq!(slices[2].len(), 0);
    assert_eq!(slices[3].len(), 0);
}

#[test]
fn test_slice_splitter_empty() {
    let data: Vec<u8> = vec![];
    let slices = SliceSplitter::split(&data, 4);
    assert_eq!(slices.len(), 1);
    assert!(slices[0].is_empty());
}

#[test]
fn test_slice_splitter_data_integrity() {
    let data: Vec<u8> = (0..200).map(|i| i as u8).collect();
    let slices = SliceSplitter::split(&data, 4);
    let reassembled: Vec<u8> = slices.iter().flat_map(|s| s.iter().copied()).collect();
    assert_eq!(reassembled, data);
}

#[test]
fn test_slice_splitter_count_2_and_8() {
    let data = vec![0u8; 100];
    let slices2 = SliceSplitter::split(&data, 2);
    assert_eq!(slices2.len(), 2);
    assert_eq!(slices2[0].len(), 50);
    assert_eq!(slices2[1].len(), 50);
    let slices8 = SliceSplitter::split(&data, 8);
    assert_eq!(slices8.len(), 8);
    assert_eq!(slices8[0].len(), 13);
    assert_eq!(slices8[4].len(), 12);
    let total: usize = slices8.iter().map(|s| s.len()).sum();
    assert_eq!(total, 100);
}

#[test]
fn test_slice_splitter_count_zero() {
    let data = vec![1, 2, 3];
    let slices = SliceSplitter::split(&data, 0);
    assert_eq!(slices.len(), 1);
    assert_eq!(slices[0], &data[..]);
}

// --- FEC ---

#[test]
fn test_fec_encode_decode_no_loss() {
    let mut encoder = FecEncoder::from_parity_table(parity_table(0.5));
    let data: Vec<Vec<u8>> = (0..4).map(|i| vec![i; 100]).collect();
    let expected = data.clone();
    let encoded = encoder.encode(data).unwrap();
    assert_eq!(encoded.len(), 6);
    let mut shards: Vec<Option<Vec<u8>>> = encoded.into_iter().map(Some).collect();
    let decoded = FecDecoder::decode(&mut shards, 4).unwrap();
    assert_eq!(decoded, expected);
}

#[test]
fn test_fec_recover_from_loss() {
    let mut encoder = FecEncoder::from_parity_table(parity_table(0.5));
    let data: Vec<Vec<u8>> = (0..4).map(|i| vec![i; 100]).collect();
    let expected = data.clone();
    let encoded = encoder.encode(data).unwrap();
    let mut shards: Vec<Option<Vec<u8>>> = encoded.into_iter().map(Some).collect();
    shards[1] = None;
    shards[3] = None;
    let decoded = FecDecoder::decode(&mut shards, 4).unwrap();
    assert_eq!(decoded, expected);
}

#[test]
fn test_fec_too_much_loss() {
    let mut encoder = FecEncoder::from_parity_table(parity_table(0.25));
    let data: Vec<Vec<u8>> = (0..4).map(|i| vec![i; 100]).collect();
    let encoded = encoder.encode(data).unwrap();
    assert_eq!(encoded.len(), 5);
    let mut shards: Vec<Option<Vec<u8>>> = encoded.into_iter().map(Some).collect();
    shards[0] = None;
    shards[2] = None;
    let result = FecDecoder::decode(&mut shards, 4);
    assert!(result.is_err());
}

#[test]
fn test_set_redundancy() {
    let mut enc = FecEncoder::from_parity_table(parity_table(0.2));
    assert_eq!(enc.parity_table(), parity_table(0.2).as_slice());
    enc.set_parity_table(parity_table(0.4));
    assert_eq!(enc.parity_table(), parity_table(0.4).as_slice());
    assert_eq!(enc.parity_count(10), 4);
}

#[test]
fn test_fec_20_percent_default() {
    let mut encoder = FecEncoder::from_parity_table(parity_table(0.2));
    let data: Vec<Vec<u8>> = (0..10).map(|i| vec![i; 200]).collect();
    let expected = data.clone();
    let encoded = encoder.encode(data).unwrap();
    assert_eq!(encoded.len(), 12);
    let mut shards: Vec<Option<Vec<u8>>> = encoded.into_iter().map(Some).collect();
    shards[3] = None;
    shards[7] = None;
    let decoded = FecDecoder::decode(&mut shards, 10).unwrap();
    assert_eq!(decoded, expected);
}

#[test]
fn fec_encoder_errors() {
    let mut encoder = FecEncoder::from_parity_table(parity_table(0.2));
    assert!(matches!(encoder.encode(vec![]), Err(FecError::EmptyInput)));
    assert!(matches!(encoder.encode(vec![vec![1; 10], vec![2; 11]]), Err(FecError::UnequalShards)));
    assert!(matches!(encoder.encode(vec![vec![]]), Err(FecError::ReedSolomon(_))));
    let too_many: Vec<Vec<u8>> = (0..250).map(|i| vec![i as u8; 4]).collect();
    assert!(matches!(encoder.encode(too_many), Err(FecError::ReedSolomon(_))));
    let mut no_parity: Vec<Option<Vec<u8>>> = vec![Some(vec![1; 4]), Some(vec![2; 4])];
    assert!(matches!(FecDecoder::decode(&mut no_parity, 2), Err(FecError::InsufficientShards)));
    assert_eq!(FecError::InsufficientShards.message(), "insufficient shards for reconstruction");
    assert_eq!(FecError::ReedSolomon("x".to_string()).message(), "reed-solomon error: x");
}

#[test]
fn fec_parity_is_not_the_data() {
    let mut encoder = FecEncoder::from_parity_table(parity_table(0.5));
    let data: Vec<Vec<u8>> = (0..2).map(|i| vec![i + 1; 8]).collect();
    let encoded = encoder.encode(data.clone()).unwrap();
    assert_eq!(&encoded[..2], &data[..]);
    assert_ne!(encoded[2], data[0]);
    assert_ne!(encoded[2], data[1]);
}

#[test]
fn fec_max_data_shards_at_common_ratios() {
    assert_eq!(FecEncoder::from_parity_table(parity_table(0.2)).max_data_shards(), 213);
    assert_eq!(FecEncoder::from_parity_table(parity_table(0.4)).max_data_shards(), 182);
    assert_eq!(FecEncoder::from_parity_table(parity_table(1.0)).max_data_shards(), 128);
    assert_eq!(FEC_SHARD_SIZE, 1200);
}

#[test]
fn rs_codec_counts() {
    assert!(RsCodec::new(4, 2).is_ok());
    assert!(RsCodec::new(255, 1).is_ok());
    assert!(RsCodec::new(0, 2).is_err());
    assert!(RsCodec::new(4, 0).is_err());
    assert!(RsCodec::new(200, 57).is_err());
    assert!(RsCodec::new(usize::MAX, 1).is_err(), "huge counts are refused, not overflowed");
    assert!(RsCodec::new(1, usize::MAX).is_err());
}

#[test]
fn simulated_loss_decisions() {
    assert_eq!(clamp_loss_pct(0), 0);
    assert_eq!(clamp_loss_pct(37), 37);
    assert_eq!(clamp_loss_pct(100), 100);
    assert_eq!(clamp_loss_pct(250), 100);
    assert!(!drop_for_roll(0, 0));
    assert!(drop_for_roll(10, 9));
    assert!(!drop_for_roll(10, 10));
    assert!(drop_for_roll(10, 205), "205 % 100 = 5");
    assert!(!drop_for_roll(10, 255), "255 % 100 = 55");
    for _ in 0..50 {
        assert!(!should_drop_packet(0));
        assert!(should_drop_packet(100));
    }
}
