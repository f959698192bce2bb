use std::time::Duration;

use streaming_engine::config::VideoConfig;
use streaming_engine::control::handshake::{encode_stream_config, Handshake, HandshakePhase, HandshakeReply};
use streaming_engine::control::haptic::{haptic_from_payload, haptic_to_payload, HapticWire};
use streaming_engine::control::heartbeat::{heartbeat_alive, heartbeat_packet, HeartbeatMonitor};
use streaming_engine::control::pairing::{generate_pin, PairingError, PairingState, PIN_SPACE};
use streaming_engine::control::reconnect::{ReconnectState, MAX_ACCEPT_FAILURES, MAX_RECONNECT_ATTEMPTS};
use streaming_engine::control::session::{
    classify_frame_length, config_request, frame_message, parse_heartbeat_stats, ConfigChange, ControlAction,
    ControlState, DisconnectReason, FrameLength,
};
use streaming_engine::control::tls::{split_len_prefixed, to_hex, TlsIdentity};
use streaming_engine::engine::{adjustment_due, adjustment_interval_frames, rtp_timestamp_90khz, stats_log_due};
use streaming_engine::protocol::{
    MAX_PIN_ATTEMPTS, MSG_CONFIG_UPDATE, MSG_CONFIG_UPDATE_ACK, MSG_DISCONNECT, MSG_FACE_DATA, MSG_HEARTBEAT,
    MSG_HEARTBEAT_ACK, MSG_HELLO, MSG_HELLO_ACK, MSG_IDR_REQUEST, MSG_PIN_REQUEST, MSG_PIN_RESPONSE, MSG_PIN_RESULT,
    MSG_STREAM_CONFIG, MSG_STREAM_START, MSG_TRANSPORT_FEEDBACK,
};

// ---- heartbeat ----

#[test]
fn test_initial_state_connected() {
    let mon = HeartbeatMonitor::new();
    assert!(mon.is_connected());
    assert!(mon.check());
}

#[test]
fn test_heartbeat_received_stays_connected() {
    let mon = HeartbeatMonitor::new();
    mon.on_heartbeat_received();
    assert!(mon.check());
}

#[test]
fn test_make_heartbeat_packet() {
    let mut mon = HeartbeatMonitor::new();
    let pkt1 = mon.make_heartbeat_packet();
    let pkt2 = mon.make_heartbeat_packet();
    assert_eq!(pkt1[0], MSG_HEARTBEAT);
    assert_eq!(pkt1.len(), 13);
    let seq1 = u32::from_le_bytes([pkt1[1], pkt1[2], pkt1[3], pkt1[4]]);
    let seq2 = u32::from_le_bytes([pkt2[1], pkt2[2], pkt2[3], pkt2[4]]);
    assert_eq!(seq2, seq1 + 1);
}

#[test]
fn heartbeat_timeout_after_three_missed_intervals() {
    let mon = HeartbeatMonitor::new_at(10_000);
    assert!(mon.check_at(11_500));
    assert!(!mon.check_at(11_501));
    assert!(!mon.is_connected());
    mon.on_heartbeat_received_at(11_600);
    assert!(mon.check_at(12_000));
    assert!(mon.is_connected());
    assert!(heartbeat_alive(5_000, 4_000), "a clock that went back counts as no time");
    assert!(heartbeat_alive(0, 1_500));
    assert!(!heartbeat_alive(0, 1_501));
}

#[test]
fn heartbeat_packet_layout() {
    let pkt = heartbeat_packet(0x0403_0201, 0x0c0b_0a09_0807_0605);
    assert_eq!(pkt, vec![MSG_HEARTBEAT, 1, 2, 3, 4, 5, 6, 7, 8, 9, 10, 11, 12]);
    let mut mon = HeartbeatMonitor::new_at(0);
    let a = mon.make_heartbeat_packet_at(77);
    let b = mon.make_heartbeat_packet_at(78);
    assert_eq!(a, heartbeat_packet(0, 77));
    assert_eq!(b, heartbeat_packet(1, 78));
}

// ---- reconnect ----

#[test]
fn test_initial_counters_zero() {
    let s = ReconnectState::new();
    assert_eq!(s.accept_failures(), 0);
    assert_eq!(s.reconnect_attempts(), 0);
    assert!(s.next_backoff().is_none(), "no failures yet → no backoff sleep needed");
}

#[test]
fn test_accept_success_resets_failures() {
    let mut s = ReconnectState::new();
    s.record_accept_failure();
    s.record_accept_failure();
    assert_eq!(s.accept_failures(), 2);
    s.record_accept_success();
    assert_eq!(s.accept_failures(), 0);
}

#[test]
fn test_clean_disconnect_resets_both_counters() {
    let mut s = ReconnectState::new();
    s.record_accept_failure();
    s.record_connection_lost();
    s.record_connection_lost();
    s.record_clean_disconnect();
    assert_eq!(s.accept_failures(), 0);
    assert_eq!(s.reconnect_attempts(), 0);
}

#[test]
fn test_connection_lost_increments_reconnect_only() {
    let mut s = ReconnectState::new();
    s.record_connection_lost();
    s.record_connection_lost();
    assert_eq!(s.reconnect_attempts(), 2);
    assert_eq!(s.accept_failures(), 0, "Wi-Fi drops must not count as accept failures");
}

#[test]
fn test_protocol_error_increments_reconnect_only() {
    let mut s = ReconnectState::new();
    s.record_protocol_error();
    assert_eq!(s.reconnect_attempts(), 1);
    assert_eq!(s.accept_failures(), 0);
}

#[test]
fn test_hold_accept_failure_increments_accepts() {
    let mut s = ReconnectState::new();
    s.record_hold_accept_failure();
    assert_eq!(s.accept_failures(), 1);
    assert_eq!(s.reconnect_attempts(), 0);
}

#[test]
fn test_break_after_max_accept_failures() {
    let mut s = ReconnectState::new();
    for _ in 0..MAX_ACCEPT_FAILURES {
        s.record_accept_failure();
        assert!(!s.should_stop_engine(), "must keep going at or below the limit ({})", s.accept_failures());
    }
    s.record_accept_failure();
    assert!(s.should_stop_engine(), "exceeding {} accept failures must stop the engine", MAX_ACCEPT_FAILURES);
}

#[test]
fn test_no_break_at_max_reconnect_attempts() {
    let mut s = ReconnectState::new();
    for _ in 0..(MAX_RECONNECT_ATTEMPTS + 5) {
        s.record_connection_lost();
    }
    assert!(!s.should_stop_engine(), "reconnect attempts must not stop the engine");
    assert!(s.is_reconnect_warning_due(), "warning should fire once we've crossed the soft cap");
}

#[test]
fn test_backoff_exponential_capped_at_16s() {
    let mut s = ReconnectState::new();
    s.record_accept_failure();
    assert_eq!(s.next_backoff(), Some(Duration::from_secs(1)));
    s.record_accept_failure();
    assert_eq!(s.next_backoff(), Some(Duration::from_secs(2)));
    s.record_accept_failure();
    assert_eq!(s.next_backoff(), Some(Duration::from_secs(4)));
    s.record_accept_failure();
    assert_eq!(s.next_backoff(), Some(Duration::from_secs(8)));
    s.record_accept_failure();
    assert_eq!(s.next_backoff(), Some(Duration::from_secs(16)));
    s.record_accept_failure();
    assert_eq!(s.next_backoff(), Some(Duration::from_secs(16)));
}

#[test]
fn test_backoff_none_after_success_reset() {
    let mut s = ReconnectState::new();
    s.record_accept_failure();
    s.record_accept_failure();
    assert!(s.next_backoff().is_some());
    s.record_accept_success();
    assert!(s.next_backoff().is_none(), "successful accept clears the backoff requirement");
}

#[test]
fn backoff_seconds_sequence() {
    let mut s = ReconnectState::new();
    assert_eq!(s.next_backoff_secs(), None);
    let expected = [1u64, 2, 4, 8, 16, 16, 16];
    for e in expected {
        s.record_accept_failure();
        assert_eq!(s.next_backoff_secs(), Some(e));
    }
}

#[test]
fn reconnect_attempts_never_stop_engine() {
    let mut s = ReconnectState::new();
    for _ in 0..1000 {
        s.record_connection_lost();
        s.record_protocol_error();
    }
    assert!(!s.should_stop_engine());
    assert_eq!(s.reconnect_attempts(), 2000);
}

// ---- pairing ----

#[test]
fn test_correct_pin() {
    let mut state = PairingState::new(0);
    let pin = state.get_pin();
    assert!(state.verify(pin).is_ok());
    assert!(state.is_paired());
}

#[test]
fn test_wrong_pin() {
    let mut state = PairingState::new(0);
    let pin = state.get_pin();
    let wrong = if pin == 0 { 1 } else { 0 };
    let result = state.verify(wrong);
    assert!(result.is_err());
    assert!(!state.is_paired());
}

#[test]
fn test_lockout_after_max_attempts() {
    let mut state = PairingState::new(0);
    let wrong = 999_999u32.wrapping_add(1);
    for _ in 0..MAX_PIN_ATTEMPTS {
        let _ = state.verify(wrong);
    }
    assert!(state.is_locked());
    let pin = state.get_pin();
    assert!(matches!(state.verify(pin), Err(PairingError::LockedOut)));
}

#[test]
fn test_pin_range_is_6_digits() {
    for _ in 0..100 {
        let pin = generate_pin();
        assert!(pin < 1_000_000, "PIN {} exceeds 6-digit range", pin);
    }
}

#[test]
fn test_pin_not_always_same() {
    let pins: Vec<u32> = (0..10).map(|_| generate_pin()).collect();
    let unique: std::collections::HashSet<u32> = pins.into_iter().collect();
    assert!(unique.len() >= 2, "All PINs identical — RNG may be broken");
}

#[test]
fn test_lockout_persists_across_new() {
    let mut state = PairingState::new(0);
    let pin = state.get_pin();
    let wrong = if pin == 0 { 1 } else { 0 };
    for _ in 0..MAX_PIN_ATTEMPTS {
        let _ = state.verify(wrong);
    }
    assert!(state.is_locked(), "first instance should be locked");
    let persisted = state.lockout_until_unix_us();
    let state2 = PairingState::new(persisted);
    assert!(state2.is_locked(), "new instance must resume persisted lockout");
}

#[test]
fn test_stale_lockout_record_is_cleared() {
    let now = 5_000_000_000u64;
    let state = PairingState::new_at(123, now, now - 1_000_000);
    assert!(!state.is_locked_at(now), "expired lockout must not apply");
    assert_eq!(state.lockout_until_unix_us(), 0);
}

#[test]
fn pairing_wrong_pins_count_down_then_lock() {
    let now = 1_000_000u64;
    let mut state = PairingState::new_at(1_234_567, now, 0);
    assert_eq!(state.get_pin(), 234_567);
    let wrong = 111_111u32;
    for remaining in [4u8, 3, 2, 1] {
        assert_eq!(state.verify_at(wrong, now, 42), Err(PairingError::WrongPin { remaining }));
    }
    assert_eq!(state.verify_at(wrong, now, 42), Err(PairingError::LockedOut));
    assert_eq!(state.get_pin(), 42, "a new PIN is drawn when the lockout starts");
    assert!(state.is_locked_at(now + 59_999_999));
    assert!(!state.is_locked_at(now + 60_000_000));
    assert_eq!(state.lockout_until_unix_us(), now + 60_000_000);
    assert_eq!(state.verify_at(42, now + 1, 7), Err(PairingError::LockedOut));
    assert_eq!(state.verify_at(42, now + 60_000_000, 7), Ok(()));
    assert!(state.is_paired());
    assert_eq!(state.lockout_until_unix_us(), 0);
    assert_eq!(state.verify_at(0, now + 60_000_001, 7), Ok(()), "a paired state accepts");
}

#[test]
fn pairing_success_resets_attempts() {
    let mut state = PairingState::new_at(500, 10, 0);
    assert_eq!(state.verify_at(501, 10, 0), Err(PairingError::WrongPin { remaining: 4 }));
    assert_eq!(state.verify_at(500, 10, 0), Ok(()));
    assert!(PIN_SPACE == 1_000_000);
}

// ---- control session ----

#[test]
fn control_message_framing() {
    let framed = frame_message(MSG_IDR_REQUEST, &[]);
    assert_eq!(framed, vec![1, 0, 0, 0, MSG_IDR_REQUEST]);
    let framed = frame_message(0x07, &[9, 8, 7]);
    assert_eq!(framed, vec![4, 0, 0, 0, 0x07, 9, 8, 7]);
    assert_eq!(classify_frame_length(0), FrameLength::Skip);
    assert_eq!(classify_frame_length(70_000), FrameLength::TooLarge);
    assert_eq!(classify_frame_length(65_536), FrameLength::Body(65_536));
    assert_eq!(classify_frame_length(65_537), FrameLength::TooLarge);
}

#[test]
fn control_config_requests() {
    assert_eq!(config_request(1, 100), (Some(ConfigChange::BitrateBps(100_000_000)), 1));
    assert_eq!(config_request(1, 0), (None, 0));
    assert_eq!(config_request(1, 201), (None, 0));
    assert_eq!(config_request(1, 10), (Some(ConfigChange::BitrateBps(10_000_000)), 1));
    assert_eq!(config_request(2, 0), (Some(ConfigChange::Codec(0)), 1));
    assert_eq!(config_request(3, 1), (Some(ConfigChange::Recording(true)), 1));
    assert_eq!(config_request(3, 2), (None, 0));
    assert_eq!(config_request(5, 0), (Some(ConfigChange::AudioRecording(false)), 1));
    assert_eq!(config_request(0xFF, 50), (None, 0));
}

fn msg(t: u8, payload: &[u8]) -> Vec<u8> {
    let mut m = vec![t];
    m.extend_from_slice(payload);
    m
}

#[test]
fn control_heartbeat_parses_stats() {
    let mut payload = vec![0u8; 26];
    payload[12..16].copy_from_slice(&1000u32.to_le_bytes());
    payload[16..20].copy_from_slice(&5u32.to_le_bytes());
    payload[20..24].copy_from_slice(&3000u32.to_le_bytes());
    payload[24..26].copy_from_slice(&90u16.to_le_bytes());
    let stats = parse_heartbeat_stats(&payload).unwrap();
    assert_eq!(stats.packets_received, 1000);
    assert_eq!(stats.packets_lost, 5);
    assert_eq!(stats.avg_decode_us, 3000);
    assert_eq!(stats.fps, 90);
    assert!(parse_heartbeat_stats(&payload[..25]).is_none());

    let mut st = ControlState::new();
    match st.on_message(&msg(MSG_HEARTBEAT, &payload), 0, 1200, 9000) {
        ControlAction::Heartbeat { stats: s, ack } => {
            assert_eq!(s, stats);
            let mut ack_payload = 1200u32.to_le_bytes().to_vec();
            ack_payload.extend_from_slice(&9000u32.to_le_bytes());
            assert_eq!(ack, frame_message(MSG_HEARTBEAT_ACK, &ack_payload));
        }
        other => panic!("expected a heartbeat, got {other:?}"),
    }
}

#[test]
fn control_idr_requests_rate_limited() {
    let mut st = ControlState::new();
    assert!(matches!(st.on_message(&[MSG_IDR_REQUEST], 1_000_000, 0, 0), ControlAction::RequestIdr));
    assert!(matches!(st.on_message(&[MSG_IDR_REQUEST], 1_400_000, 0, 0), ControlAction::Nothing));
    assert_eq!(st.idr_suppressed(), 1);
    assert!(matches!(st.on_message(&[MSG_IDR_REQUEST], 1_500_000, 0, 0), ControlAction::RequestIdr));
}

#[test]
fn control_config_update_messages() {
    let mut st = ControlState::new();
    let mut payload = vec![0x01u8];
    payload.extend_from_slice(&100u32.to_le_bytes());
    match st.on_message(&msg(MSG_CONFIG_UPDATE, &payload), 0, 0, 0) {
        ControlAction::ConfigUpdate { change, ack } => {
            assert_eq!(change, Some(ConfigChange::BitrateBps(100_000_000)));
            assert_eq!(ack, frame_message(MSG_CONFIG_UPDATE_ACK, &[1, 1]));
        }
        other => panic!("expected a config update, got {other:?}"),
    }
    // Within a second of the last one: dropped.
    assert!(matches!(st.on_message(&msg(MSG_CONFIG_UPDATE, &payload), 500_000, 0, 0), ControlAction::Nothing));
    // Too short: dropped.
    assert!(matches!(st.on_message(&msg(MSG_CONFIG_UPDATE, &[1, 0, 0]), 2_000_000, 0, 0), ControlAction::Nothing));
    let mut bad = vec![0x01u8];
    bad.extend_from_slice(&0u32.to_le_bytes());
    match st.on_message(&msg(MSG_CONFIG_UPDATE, &bad), 2_000_000, 0, 0) {
        ControlAction::ConfigUpdate { change, ack } => {
            assert_eq!(change, None);
            assert_eq!(ack, frame_message(MSG_CONFIG_UPDATE_ACK, &[0, 1]));
        }
        other => panic!("expected a config update, got {other:?}"),
    }
}

#[test]
fn control_other_messages() {
    let mut st = ControlState::new();
    assert!(matches!(
        st.on_message(&[MSG_DISCONNECT], 0, 0, 0),
        ControlAction::Disconnect(DisconnectReason::ClientRequested)
    ));
    assert!(matches!(st.on_message(&[0xFF, 1, 2, 3], 0, 0, 0), ControlAction::Nothing));
    match st.on_message(&[MSG_TRANSPORT_FEEDBACK, 4, 5], 0, 0, 0) {
        ControlAction::TransportFeedback(b) => assert_eq!(b, vec![4, 5]),
        other => panic!("expected feedback, got {other:?}"),
    }
    assert!(matches!(st.on_message(&[MSG_FACE_DATA, 1, 2], 0, 0, 0), ControlAction::FaceDataInvalid));
    let mut face = vec![0u8; 206];
    face[0] = 1;
    let jaw = 2 + 3 * 4;
    face[jaw..jaw + 4].copy_from_slice(&0.9f32.to_le_bytes());
    match st.on_message(&msg(MSG_FACE_DATA, &face), 0, 0, 0) {
        ControlAction::FaceData { lip_valid, eye_valid, lip, eye } => {
            assert!(lip_valid);
            assert!(!eye_valid);
            assert_eq!(lip.len(), 37);
            assert_eq!(eye.len(), 14);
            assert_eq!(f32::from_bits(lip[3]), 0.9);
        }
        other => panic!("expected face data, got {other:?}"),
    }
}

#[test]
fn test_disconnect_reason_enum_values() {
    assert_ne!(DisconnectReason::ClientRequested, DisconnectReason::ConnectionLost);
    assert_ne!(DisconnectReason::ConnectionLost, DisconnectReason::ProtocolError);
    assert_ne!(DisconnectReason::ClientRequested, DisconnectReason::ProtocolError);
}

// ---- TLS identity ----

#[test]
fn test_certificate_fingerprint_is_64_hex_chars() {
    let id = TlsIdentity::generate().unwrap();
    let fp = id.fingerprint();
    assert_eq!(fp.len(), 64);
    assert!(fp.chars().all(|c| c.is_ascii_hexdigit()));
}

#[test]
fn test_different_calls_produce_different_certs() {
    let fp1 = TlsIdentity::generate().unwrap().fingerprint().to_string();
    let fp2 = TlsIdentity::generate().unwrap().fingerprint().to_string();
    assert_ne!(fp1, fp2);
}

#[test]
fn test_identity_bytes_roundtrip() {
    let id = TlsIdentity::generate().unwrap();
    let parsed = TlsIdentity::from_bytes(&id.to_bytes()).expect("roundtrip");
    assert_eq!(parsed.fingerprint(), id.fingerprint());
    assert_eq!(parsed.key_der(), id.key_der());
}

#[test]
fn test_identity_from_bytes_rejects_damage() {
    let good = TlsIdentity::generate().unwrap().to_bytes();

    assert!(TlsIdentity::from_bytes(&[]).is_none());
    assert!(TlsIdentity::from_bytes(&good[..good.len() - 1]).is_none(), "truncated");

    let mut extra = good.clone();
    extra.push(0);
    assert!(TlsIdentity::from_bytes(&extra).is_none(), "trailing bytes");

    let mut bad_magic = good.clone();
    bad_magic[0] ^= 0xFF;
    assert!(TlsIdentity::from_bytes(&bad_magic).is_none(), "bad magic");

    let mut flipped = good.clone();
    flipped[20] ^= 0x01;
    assert!(TlsIdentity::from_bytes(&flipped).is_none(), "digest must catch bit flips");

    let mut huge_len = good.clone();
    huge_len[8..12].copy_from_slice(&u32::MAX.to_le_bytes());
    assert!(TlsIdentity::from_bytes(&huge_len).is_none(), "oversized length");
}

#[test]
fn tls_fingerprint_is_sha256_of_certificate() {
    // SHA-256 of the three bytes "abc".
    let id = TlsIdentity::from_parts(b"abc".to_vec(), vec![1, 2, 3]);
    assert_eq!(id.fingerprint(), "ba7816bf8f01cfea414140de5dae2223b00361a396177a9cb410ff61f20015ad");
    assert_eq!(id.cert_der(), b"abc");
    let bytes = id.to_bytes();
    assert_eq!(&bytes[..8], b"FVPTLS01");
    assert_eq!(&bytes[8..12], &3u32.to_le_bytes());
    let back = TlsIdentity::from_bytes(&bytes).unwrap();
    assert_eq!(back.cert_der(), b"abc");
    assert_eq!(back.key_der(), &[1, 2, 3]);
}

#[test]
fn tls_hex_and_length_prefix() {
    assert_eq!(to_hex(&[0x00, 0xab, 0x10, 0xff]), "00ab10ff");
    assert_eq!(to_hex(&[]), "");
    let buf = [2u8, 0, 0, 0, 7, 8, 9];
    let (part, rest) = split_len_prefixed(&buf).unwrap();
    assert_eq!(part, &[7, 8]);
    assert_eq!(rest, &[9]);
    assert!(split_len_prefixed(&[0, 0, 0, 0]).is_none(), "an empty part is refused");
    assert!(split_len_prefixed(&[5, 0, 0, 0, 1]).is_none(), "a part past the end is refused");
    assert!(split_len_prefixed(&[1, 0, 0]).is_none());
}

// ---- engine arithmetic ----

#[test]
fn test_rtp_timestamp_at_90fps() {
    assert_eq!(rtp_timestamp_90khz(1, 90), 1000);
    assert_eq!(rtp_timestamp_90khz(0, 90), 0);
    assert_eq!(rtp_timestamp_90khz(90, 90), 90000);
}

#[test]
fn test_rtp_timestamp_at_96fps() {
    assert_eq!(rtp_timestamp_90khz(96, 96), 90000, "1s timestamp should be exactly 90000");
    assert_eq!(rtp_timestamp_90khz(1, 96), 937);
}

#[test]
fn test_rtp_timestamp_at_120fps() {
    assert_eq!(rtp_timestamp_90khz(1, 120), 750);
    assert_eq!(rtp_timestamp_90khz(120, 120), 90000);
}

#[test]
fn rtp_timestamp_wraps_at_32_bits() {
    // 90000 * 47722 / 1 = 4_294_980_000, past 2^32 by 12_704.
    assert_eq!(rtp_timestamp_90khz(47_722, 1), 12_704);
}

#[test]
fn test_bitrate_adjustment_interval_scales_with_framerate() {
    for fps in [90u64, 96, 120] {
        let interval = adjustment_interval_frames(fps);
        assert!(fps % interval == 0, "frame_count should align at {fps}fps");
        assert_eq!(interval, fps);
        assert!(adjustment_due(fps * 3, fps));
        assert!(!adjustment_due(fps * 3 + 1, fps));
        assert!(stats_log_due(fps * 5, fps));
        assert!(!stats_log_due(fps * 4, fps));
    }
}

#[test]
fn session_end_updates_counters() {
    let mut s = ReconnectState::new();
    s.record_accept_failure();
    assert!(s.record_session_end(DisconnectReason::ConnectionLost), "a lost link gets the hold window");
    assert_eq!(s.reconnect_attempts(), 1);
    assert_eq!(s.accept_failures(), 1);
    assert!(!s.record_session_end(DisconnectReason::ProtocolError));
    assert_eq!(s.reconnect_attempts(), 2);
    assert!(!s.record_session_end(DisconnectReason::ClientRequested));
    assert_eq!(s.reconnect_attempts(), 0);
    assert_eq!(s.accept_failures(), 0);
}

#[test]
fn stream_config_payload() {
    let v = VideoConfig::default();
    let bytes = encode_stream_config(&v);
    let mut expected = Vec::new();
    expected.extend_from_slice(&1832u32.to_le_bytes());
    expected.extend_from_slice(&1920u32.to_le_bytes());
    expected.extend_from_slice(&80u32.to_le_bytes());
    expected.extend_from_slice(&90u32.to_le_bytes());
    expected.push(1);
    assert_eq!(bytes, expected);
}

#[test]
fn handshake_full_success() {
    let v = VideoConfig::default();
    let mut h = Handshake::new(v);
    match h.on_message(MSG_HELLO, &[]) {
        HandshakeReply::Send(frames) => {
            assert_eq!(frames, vec![frame_message(MSG_HELLO_ACK, &[1, 0]), frame_message(MSG_PIN_REQUEST, &[])]);
        }
        other => panic!("unexpected {other:?}"),
    }
    match h.on_message(MSG_PIN_RESPONSE, &123456u32.to_le_bytes()) {
        HandshakeReply::CheckPin(pin) => assert_eq!(pin, 123456),
        other => panic!("unexpected {other:?}"),
    }
    assert_eq!(h.phase(), HandshakePhase::AwaitPinCheck);
    match h.pin_checked(true) {
        HandshakeReply::Send(frames) => {
            assert_eq!(
                frames,
                vec![frame_message(MSG_PIN_RESULT, &[1]), frame_message(MSG_STREAM_CONFIG, &encode_stream_config(&v))]
            );
        }
        other => panic!("unexpected {other:?}"),
    }
    assert!(matches!(h.on_message(MSG_STREAM_START, &[]), HandshakeReply::Ready));
    assert_eq!(h.phase(), HandshakePhase::Complete);
    assert!(matches!(h.on_message(MSG_HELLO, &[]), HandshakeReply::Fail("Unexpected message")));
}

#[test]
fn handshake_failures() {
    let mut h = Handshake::new(VideoConfig::default());
    assert!(matches!(h.on_message(MSG_PIN_RESPONSE, &[0, 0, 0, 0]), HandshakeReply::Fail("Expected HELLO")));
    assert_eq!(h.phase(), HandshakePhase::Failed);

    let mut h = Handshake::new(VideoConfig::default());
    h.on_message(MSG_HELLO, &[]);
    assert!(matches!(
        h.on_message(MSG_PIN_RESPONSE, &[1, 2, 3]),
        HandshakeReply::Fail("Expected PIN_RESPONSE (4 bytes)")
    ));

    let mut h = Handshake::new(VideoConfig::default());
    h.on_message(MSG_HELLO, &[]);
    h.on_message(MSG_PIN_RESPONSE, &[1, 0, 0, 0, 9]);
    match h.pin_checked(false) {
        HandshakeReply::SendThenFail(frames, reason) => {
            assert_eq!(frames, vec![frame_message(MSG_PIN_RESULT, &[0])]);
            assert_eq!(reason, "PIN verification failed");
        }
        other => panic!("unexpected {other:?}"),
    }
    assert_eq!(h.phase(), HandshakePhase::Failed);

    let mut h = Handshake::new(VideoConfig::default());
    h.on_message(MSG_HELLO, &[]);
    h.on_message(MSG_PIN_RESPONSE, &[1, 0, 0, 0]);
    h.pin_checked(true);
    assert!(matches!(h.on_message(MSG_HEARTBEAT, &[]), HandshakeReply::Fail("Expected STREAM_START")));
}

fn haptic(controller_id: u8, duration_ms: u16, frequency: f32, amplitude: f32) -> HapticWire {
    HapticWire { controller_id, duration_ms, frequency_bits: frequency.to_bits(), amplitude_bits: amplitude.to_bits() }
}

#[test]
fn test_haptic_event_serialization_roundtrip() {
    let event = haptic(1, 250, 160.0, 0.75);
    let payload = haptic_to_payload(&event);
    assert_eq!(payload.len(), 11);
    let decoded = haptic_from_payload(&payload).unwrap();
    assert_eq!(decoded.controller_id, 1);
    assert_eq!(decoded.duration_ms, 250);
    assert!((f32::from_bits(decoded.frequency_bits) - 160.0).abs() < 1e-6);
    assert!((f32::from_bits(decoded.amplitude_bits) - 0.75).abs() < 1e-6);
    assert_eq!(decoded, event);
}

#[test]
fn test_haptic_event_payload_too_short() {
    assert!(haptic_from_payload(&[0u8; 10]).is_none());
    assert!(haptic_from_payload(&[]).is_none());
}

#[test]
fn test_haptic_event_left_right_controllers() {
    let lp = haptic_to_payload(&haptic(0, 100, 320.0, 1.0));
    let rp = haptic_to_payload(&haptic(1, 50, 160.0, 0.5));
    assert_eq!(lp[0], 0);
    assert_eq!(rp[0], 1);
    assert_eq!(&lp[1..3], &100u16.to_le_bytes());
    assert_eq!(&lp[3..7], &320.0f32.to_le_bytes());
}
