use streaming_engine::scenario::{evaluate_assertions, Assertions, PinSource, RecordingCheck, RunObservations};

fn no_recording() -> Result<u64, String> {
    Ok(0)
}

#[test]
fn assertions_min_haptic_below_fails() {
    let a = Assertions { min_haptic_events_received: Some(2), ..Default::default() };
    let stats = RunObservations { haptic_events_received: 1, ..Default::default() };
    let failures = evaluate_assertions(&a, Some(&stats), false, &no_recording());
    assert_eq!(failures.len(), 1);
    assert!(failures[0].contains("min_haptic_events_received"));
}

#[test]
fn assertions_expect_osc_addresses_missing_fails() {
    let a = Assertions {
        expect_osc_addresses: Some(vec!["/avatar/parameters/JawOpen".to_string()]),
        ..Default::default()
    };
    let stats = RunObservations::default();
    let failures = evaluate_assertions(&a, Some(&stats), false, &no_recording());
    assert_eq!(failures.len(), 1);
    assert!(failures[0].contains("JawOpen"));
}

#[test]
fn assertions_expect_osc_addresses_present_passes() {
    let a = Assertions {
        expect_osc_addresses: Some(vec!["/avatar/parameters/JawOpen".to_string()]),
        ..Default::default()
    };
    let stats =
        RunObservations { osc_messages: vec![("/avatar/parameters/JawOpen".to_string(), 1)], ..Default::default() };
    let failures = evaluate_assertions(&a, Some(&stats), false, &no_recording());
    assert!(failures.is_empty());
}

#[test]
fn assertions_min_osc_messages_total_summed() {
    let a = Assertions { min_osc_messages: Some(5), ..Default::default() };
    let stats = RunObservations {
        osc_messages: vec![("/a".to_string(), 3), ("/b".to_string(), 2)],
        ..Default::default()
    };
    let failures = evaluate_assertions(&a, Some(&stats), false, &no_recording());
    assert!(failures.is_empty());
}

#[test]
fn assertions_min_frames_below_fails() {
    let a = Assertions { min_frames_decoded: Some(100), ..Default::default() };
    let stats = RunObservations { frames_decoded: 50, ..Default::default() };
    let failures = evaluate_assertions(&a, Some(&stats), false, &no_recording());
    assert_eq!(failures.len(), 1);
    assert!(failures[0].contains("min_frames_decoded"));
}

#[test]
fn assertions_min_audio_packets_below_fails() {
    let a = Assertions { min_audio_packets: Some(50), ..Default::default() };
    let stats = RunObservations { audio_packets_received: 10, ..Default::default() };
    let failures = evaluate_assertions(&a, Some(&stats), false, &no_recording());
    assert_eq!(failures.len(), 1);
    assert!(failures[0].contains("min_audio_packets"));
}

#[test]
fn assertions_min_audio_packets_met_passes() {
    let a = Assertions { min_audio_packets: Some(50), ..Default::default() };
    let stats = RunObservations { audio_packets_received: 200, ..Default::default() };
    let failures = evaluate_assertions(&a, Some(&stats), false, &no_recording());
    assert!(failures.is_empty());
}

#[test]
fn assertions_pin_rejected_match_passes() {
    let a = Assertions { expect_pin_rejected: Some(true), ..Default::default() };
    let failures = evaluate_assertions(&a, None, true, &no_recording());
    assert!(failures.is_empty());
}

#[test]
fn assertions_pin_rejected_mismatch_fails() {
    let a = Assertions { expect_pin_rejected: Some(true), ..Default::default() };
    let failures = evaluate_assertions(&a, None, false, &no_recording());
    assert_eq!(failures.len(), 1);
    assert_eq!(failures[0], "expect_pin_rejected=true, observed pin_rejected=false");
}

#[test]
fn assertions_exact_messages_in_order() {
    let a = Assertions {
        min_frames_decoded: Some(10),
        min_audio_packets: Some(5),
        max_connect_duration_ms: Some(1000),
        expect_osc_addresses: Some(vec!["/x".to_string(), "/y".to_string(), "/z".to_string()]),
        min_osc_messages: Some(10),
        max_video_packets: Some(100),
        expect_recording_files: Some(RecordingCheck { dir: "rec".to_string(), min_bytes: 4096 }),
        min_decode_latency_samples: Some(3),
        max_decode_latency_us_p99: Some(500),
        ..Default::default()
    };
    let stats = RunObservations {
        frames_decoded: 9,
        audio_packets_received: 0,
        connect_secs: 1,
        connect_subsec_nanos: 500_000_000,
        osc_messages: vec![("/y".to_string(), 4)],
        video_packets_received: 101,
        depacketize_samples_count: 2,
        depacketize_latency_us_p99: 501,
        ..Default::default()
    };
    let failures = evaluate_assertions(&a, Some(&stats), false, &Ok(100));
    assert_eq!(
        failures,
        vec![
            "min_frames_decoded: expected >= 10, got 9".to_string(),
            "min_audio_packets: expected >= 5, got 0 (was receive_audio + synthetic_source on?)".to_string(),
            "max_connect_duration: expected <= 1000 ms, got 1.5s".to_string(),
            "expect_osc_addresses: missing '/x'".to_string(),
            "expect_osc_addresses: missing '/z'".to_string(),
            "min_osc_messages: expected >= 10, got 4".to_string(),
            "max_video_packets: expected <= 100, got 101".to_string(),
            "expect_recording_files: 100 total bytes in rec, want >= 4096".to_string(),
            "min_decode_latency_samples: expected >= 3, got 2 (was measure_decode_latency on?)".to_string(),
            "max_decode_latency_us_p99: expected <= 500, got 501".to_string(),
        ]
    );
}

#[test]
fn assertions_boundaries_and_recording_errors() {
    let a = Assertions {
        max_connect_duration_ms: Some(1500),
        expect_recording_files: Some(RecordingCheck { dir: "out".to_string(), min_bytes: 10 }),
        ..Default::default()
    };
    let stats = RunObservations { connect_secs: 1, connect_subsec_nanos: 500_000_000, ..Default::default() };
    assert!(evaluate_assertions(&a, Some(&stats), false, &Ok(10)).is_empty(), "bounds are inclusive");
    let failures = evaluate_assertions(&a, Some(&stats), false, &Err("permission denied".to_string()));
    assert_eq!(failures, vec!["expect_recording_files: failed to read 'out': permission denied".to_string()]);
    // Without observations only the PIN expectation is checked.
    assert!(evaluate_assertions(&a, None, false, &Ok(0)).is_empty());
    assert_ne!(PinSource::StatusJson, PinSource::Wrong);
}
