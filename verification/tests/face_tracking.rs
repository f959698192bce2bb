use streaming_engine::face_tracking::calibration::{CalibrationProgress, CalibrationStep, FRAMES_PER_STEP};
use streaming_engine::face_tracking::ft_mirror::{
    encode_mirror_request, parse_mirror_frame, FtMirrorFrame, MirrorReceiver, PixelFormat,
};
use streaming_engine::face_tracking::profile_name::sanitize_name;
use streaming_engine::face_tracking::osc::{
    encode_osc_float_bits, eye_name, eye_names, lip_name, lip_names, parse_face_data_bits, EYE_COUNT, LIP_COUNT,
};

#[test]
fn test_calibration_steps() {
    assert_eq!(CalibrationStep::Relax.next(), CalibrationStep::ExaggerateAll);
    assert_eq!(CalibrationStep::ExaggerateAll.next(), CalibrationStep::Done);
    assert_eq!(CalibrationStep::Done.next(), CalibrationStep::Done);
}

#[test]
fn test_calibration_step_indices() {
    assert_eq!(CalibrationStep::Relax.index(), 0);
    assert_eq!(CalibrationStep::ExaggerateAll.index(), 1);
    assert_eq!(CalibrationStep::Done.index(), 2);
}

#[test]
fn calibration_progress_full_flow() {
    let mut p = CalibrationProgress::new();
    assert_eq!(p.current_step(), CalibrationStep::Relax);
    assert_eq!(p.frames_collected(), 0);
    assert!(!p.is_done());
    for _ in 0..FRAMES_PER_STEP - 1 {
        assert!(!p.record_frame());
    }
    assert_eq!(p.frames_collected(), FRAMES_PER_STEP - 1);
    assert!(p.record_frame());
    assert_eq!(p.current_step(), CalibrationStep::ExaggerateAll);
    assert_eq!(p.frames_collected(), 0);
    for _ in 0..FRAMES_PER_STEP {
        p.record_frame();
    }
    assert!(p.is_done());
    assert!(p.record_frame(), "a finished calibration reports every frame as complete");
    assert!(p.is_done());
}

#[test]
fn test_parse_mirror_frame_valid() {
    let mut payload = Vec::new();
    payload.extend_from_slice(&320u16.to_le_bytes());
    payload.extend_from_slice(&240u16.to_le_bytes());
    payload.push(1);
    payload.extend_from_slice(&12345u64.to_le_bytes());
    payload.extend_from_slice(&[0xFF; 100]);

    let frame = parse_mirror_frame(&payload).unwrap();
    assert_eq!(frame.width, 320);
    assert_eq!(frame.height, 240);
    assert_eq!(frame.format, PixelFormat::Jpeg);
    assert_eq!(frame.timestamp_us, 12345);
    assert_eq!(frame.data.len(), 100);
}

#[test]
fn test_parse_mirror_frame_too_short() {
    assert!(parse_mirror_frame(&[0u8; 12]).is_none());
}

#[test]
fn test_parse_mirror_frame_unknown_format() {
    let mut payload = vec![0u8; 13];
    payload[4] = 99;
    assert!(parse_mirror_frame(&payload).is_none());
}

#[test]
fn mirror_frame_formats_and_empty_data() {
    let mut payload = vec![0u8; 13];
    payload[4] = 0;
    assert_eq!(parse_mirror_frame(&payload).unwrap().format, PixelFormat::Nv12);
    payload[4] = 2;
    let f = parse_mirror_frame(&payload).unwrap();
    assert_eq!(f.format, PixelFormat::Rgb24);
    assert!(f.data.is_empty());
    payload[4] = 3;
    assert!(parse_mirror_frame(&payload).is_none());
}

#[test]
fn test_encode_mirror_request() {
    let req = encode_mirror_request(true, 640, 480, PixelFormat::Jpeg);
    assert_eq!(req.len(), 6);
    assert_eq!(req[0], 1);
    assert_eq!(u16::from_le_bytes([req[1], req[2]]), 640);
    assert_eq!(u16::from_le_bytes([req[3], req[4]]), 480);
    assert_eq!(req[5], 1);
    assert_eq!(encode_mirror_request(false, 1, 2, PixelFormat::Rgb24), vec![0, 1, 0, 2, 0, 2]);
}

#[test]
fn test_mirror_receiver_buffer() {
    let mut rx = MirrorReceiver::new(3);
    rx.set_enabled(true);

    for i in 0..5u64 {
        rx.push_frame(FtMirrorFrame {
            width: 320,
            height: 240,
            format: PixelFormat::Jpeg,
            timestamp_us: i * 1000,
            data: vec![i as u8; 10],
        });
    }

    assert_eq!(rx.buffer_len(), 3);
    assert_eq!(rx.frames_received(), 5);
    assert_eq!(rx.frames_dropped(), 2);

    let latest = rx.latest_frame().unwrap();
    assert_eq!(latest.timestamp_us, 4000);
}

#[test]
fn test_mirror_receiver_disabled_drops_all() {
    let mut rx = MirrorReceiver::new(10);
    rx.push_frame(FtMirrorFrame { width: 320, height: 240, format: PixelFormat::Nv12, timestamp_us: 0, data: vec![] });
    assert_eq!(rx.buffer_len(), 0);
    assert_eq!(rx.frames_received(), 0);
}

#[test]
fn mirror_receiver_take_and_disable() {
    let mut rx = MirrorReceiver::new(2);
    rx.set_enabled(true);
    assert!(rx.is_enabled());
    rx.push_frame(FtMirrorFrame { width: 1, height: 1, format: PixelFormat::Jpeg, timestamp_us: 7, data: vec![1] });
    rx.push_frame(FtMirrorFrame { width: 1, height: 1, format: PixelFormat::Jpeg, timestamp_us: 8, data: vec![2] });
    let taken = rx.take_latest().unwrap();
    assert_eq!(taken.timestamp_us, 8);
    assert_eq!(rx.buffer_len(), 1);
    rx.set_enabled(false);
    assert_eq!(rx.buffer_len(), 0, "disabling clears the buffer");
    assert!(rx.take_latest().is_none());
}

#[test]
fn test_lip_names_count() {
    assert_eq!(lip_names().len(), 37);
    assert_eq!(LIP_COUNT, 37);
}

#[test]
fn test_eye_names_count() {
    assert_eq!(eye_names().len(), 14);
    assert_eq!(EYE_COUNT, 14);
}

#[test]
fn face_expression_names() {
    assert_eq!(lip_name(0), "JawRight");
    assert_eq!(lip_name(3), "JawOpen");
    assert_eq!(eye_name(0), "EyeLeftBlink");
    assert_eq!(eye_name(13), "EyeRightSqueeze");
    let all: std::collections::HashSet<&str> = lip_names().into_iter().chain(eye_names()).collect();
    assert_eq!(all.len(), 51, "expression names are distinct");
}

#[test]
fn osc_float_message_layout() {
    let msg = encode_osc_float_bits(b"/test", 1.0f32.to_bits());
    assert_eq!(msg.len(), 8 + 4 + 4);
    assert_eq!(&msg[0..5], b"/test");
    assert_eq!(&msg[5..8], &[0, 0, 0]);
    assert_eq!(&msg[8..12], b",f\0\0");
    assert_eq!(&msg[12..16], &1.0f32.to_be_bytes());

    let msg = encode_osc_float_bits(b"/ab", 0.5f32.to_bits());
    assert_eq!(msg.len(), 4 + 4 + 4);
    let msg = encode_osc_float_bits(b"/abcd", 0);
    assert_eq!(msg.len(), 8 + 4 + 4);
    let msg = encode_osc_float_bits(b"/abc", 0);
    assert_eq!(msg.len(), 8 + 4 + 4, "a four-byte address still gets a NUL and padding");
}

#[test]
fn face_data_parsing() {
    let mut payload = vec![0u8; 206];
    payload[0] = 1;
    payload[1] = 1;
    let jaw_off = 2 + 3 * 4;
    payload[jaw_off..jaw_off + 4].copy_from_slice(&0.8f32.to_le_bytes());
    let eye_off = 2 + 37 * 4;
    payload[eye_off..eye_off + 4].copy_from_slice(&0.5f32.to_le_bytes());

    let (lv, ev, lip, eye) = parse_face_data_bits(&payload).unwrap();
    assert!(lv);
    assert!(ev);
    assert_eq!(f32::from_bits(lip[3]), 0.8);
    assert_eq!(f32::from_bits(eye[0]), 0.5);

    assert!(parse_face_data_bits(&[0u8; 100]).is_none());
    assert!(parse_face_data_bits(&[0u8; 205]).is_none());

    payload[0] = 0;
    let (lv, ev, _, _) = parse_face_data_bits(&payload).unwrap();
    assert!(!lv);
    assert!(ev);
}

#[test]
fn profile_names_checked() {
    assert_eq!(sanitize_name("alice"), Ok(()));
    assert_eq!(sanitize_name(""), Err("Profile name cannot be empty"));
    assert_eq!(sanitize_name("../etc"), Err("Profile name contains invalid characters"));
    assert_eq!(sanitize_name("a/b"), Err("Profile name contains invalid characters"));
    assert_eq!(sanitize_name("a\\b"), Err("Profile name contains invalid characters"));
    assert_eq!(sanitize_name("a\0b"), Err("Profile name contains invalid characters"));
    assert_eq!(sanitize_name("a.b.c"), Ok(()), "single dots are fine");
    assert_eq!(sanitize_name(&"x".repeat(64)), Ok(()));
    assert_eq!(sanitize_name(&"x".repeat(65)), Err("Profile name too long (max 64 chars)"));
    assert_eq!(sanitize_name(&"é".repeat(33)), Err("Profile name too long (max 64 chars)"), "the bound is in bytes");
    assert_eq!(sanitize_name(&format!("{}..", "x".repeat(70))), Err("Profile name contains invalid characters"));
}

#[test]
fn test_encode_osc_float_basic() {
    let msg = encode_osc_float_bits("/test".as_bytes(), 1.0f32.to_bits());
    assert_eq!(msg.len(), 8 + 4 + 4);
    assert_eq!(&msg[0..5], b"/test");
    assert_eq!(&msg[8..12], b",f\0\0");
}

#[test]
fn test_encode_osc_address_padding() {
    let msg = encode_osc_float_bits("/ab".as_bytes(), 0.5f32.to_bits());
    assert_eq!(msg.len(), 4 + 4 + 4);
}

#[test]
fn test_osc_float_value_encoding() {
    let msg = encode_osc_float_bits("/x".as_bytes(), 0.75f32.to_bits());
    let float_bytes = &msg[msg.len() - 4..];
    let value = f32::from_be_bytes(float_bytes.try_into().unwrap());
    assert!((value - 0.75).abs() < 1e-6);
}

#[test]
fn test_all_lip_names_generate_valid_osc() {
    for name in &lip_names() {
        let addr = format!("/avatar/parameters/{}", name);
        let msg = encode_osc_float_bits(addr.as_bytes(), 1.0f32.to_bits());
        assert_eq!(msg.len() % 4, 0);
        let tag_pos = msg.windows(4).position(|w| w == b",f\0\0");
        assert!(tag_pos.is_some(), "Missing type tag for {}", name);
    }
}

#[test]
fn test_all_eye_names_generate_valid_osc() {
    for name in &eye_names() {
        let addr = format!("/avatar/parameters/{}", name);
        let msg = encode_osc_float_bits(addr.as_bytes(), 0.5f32.to_bits());
        assert_eq!(msg.len() % 4, 0);
        let tag_pos = msg.windows(4).position(|w| w == b",f\0\0");
        assert!(tag_pos.is_some(), "Missing type tag for {}", name);
    }
}

#[test]
fn test_parse_face_data_valid() {
    let mut payload = vec![0u8; 206];
    payload[0] = 1;
    payload[1] = 1;
    let jaw_off = 2 + 3 * 4;
    payload[jaw_off..jaw_off + 4].copy_from_slice(&0.8f32.to_le_bytes());
    let eye_off = 2 + 37 * 4;
    payload[eye_off..eye_off + 4].copy_from_slice(&0.5f32.to_le_bytes());
    let (lv, ev, lip, eye) = parse_face_data_bits(&payload).unwrap();
    assert!(lv);
    assert!(ev);
    assert!((f32::from_bits(lip[3]) - 0.8).abs() < 1e-6);
    assert!((f32::from_bits(eye[0]) - 0.5).abs() < 1e-6);
}

#[test]
fn test_parse_face_data_too_short() {
    assert!(parse_face_data_bits(&[0u8; 100]).is_none());
    assert!(parse_face_data_bits(&[0u8; 205]).is_none());
}

#[test]
fn test_parse_face_data_validity_flags() {
    let mut payload = vec![0u8; 206];
    payload[0] = 0;
    payload[1] = 1;
    let (lv, ev, _, _) = parse_face_data_bits(&payload).unwrap();
    assert!(!lv);
    assert!(ev);
}
