use streaming_engine::adaptive::{
    choose_rate_step, clamp_with_thermal, decide_clamp_dominant, finish_arbitration, ArbDominant,
    ArbitrationOutcome, BitrateController, BurstDetector, LossPattern, NetworkSignals, RateStep, MAX_BITRATE_BPS,
    MIN_BITRATE_BPS,
};
use streaming_engine::audio::{SAMPLES_PER_CHANNEL_PER_CHUNK, SAMPLES_PER_CHUNK};
use streaming_engine::codec_benchmark::{sample_avg, sample_min_max, BenchPhase, CodecBenchmark, CodecChoice};
use streaming_engine::config::{
    validate_audio, validate_congestion_control, validate_ports, validate_range_i32, validate_range_u8,
    validate_video, AudioConfig, ConfigError, FoveatedPreset, MemoryMonitorConfig, PairingConfig, RecordingConfig,
    VideoConfig,
};
use streaming_engine::protocol::{VideoCodec, DEFAULT_TCP_PORT, DEFAULT_UDP_PORT};
use streaming_engine::recording::{annexb_nal, starts_with_annexb, wav_header, wav_riff_size, NalCounters, WAV_HEADER_LEN};
use streaming_engine::sleep_mode::{SleepDetector, SleepTransition};
use streaming_engine::thermal::{poll_due, thermal_zone, GpuThermalSource, MockGpuThermalSource, ThermalZone};

// ---- audio ----

#[test]
fn test_sample_size_constants() {
    assert_eq!(SAMPLES_PER_CHANNEL_PER_CHUNK, 480);
    assert_eq!(SAMPLES_PER_CHUNK, 960);
}

#[test]
fn test_silence_chunk_is_zero() {
    let chunk = vec![0.0_f32; SAMPLES_PER_CHUNK];
    assert!(chunk.iter().all(|&s| s == 0.0));
    assert_eq!(chunk.len(), 960);
}

// ---- recording ----

#[test]
fn test_starts_with_annexb_variants() {
    assert!(starts_with_annexb(&[0x00, 0x00, 0x00, 0x01, 0x67]));
    assert!(starts_with_annexb(&[0x00, 0x00, 0x01, 0x67]));
    assert!(!starts_with_annexb(&[0x00, 0x00, 0x00]));
    assert!(!starts_with_annexb(&[0x67, 0x42]));
    assert!(!starts_with_annexb(&[]));
}

#[test]
fn annexb_nal_prefixing() {
    assert_eq!(annexb_nal(&[0x67, 0x42]), vec![0, 0, 0, 1, 0x67, 0x42]);
    assert_eq!(annexb_nal(&[0, 0, 1, 0x65]), vec![0, 0, 1, 0x65]);
    assert_eq!(annexb_nal(&[0, 0, 0, 1, 0x65]), vec![0, 0, 0, 1, 0x65]);
}

#[test]
fn test_empty_wav_header_valid() {
    let h = wav_header(48000, 2);
    assert_eq!(h.len(), WAV_HEADER_LEN);
    assert_eq!(&h[0..4], b"RIFF");
    assert_eq!(&h[8..12], b"WAVE");
    assert_eq!(&h[12..16], b"fmt ");
    assert_eq!(u32::from_le_bytes([h[16], h[17], h[18], h[19]]), 16);
    assert_eq!(u16::from_le_bytes([h[20], h[21]]), 1);
    assert_eq!(u16::from_le_bytes([h[22], h[23]]), 2);
    assert_eq!(u32::from_le_bytes([h[24], h[25], h[26], h[27]]), 48000);
    assert_eq!(u32::from_le_bytes([h[28], h[29], h[30], h[31]]), 192000);
    assert_eq!(u16::from_le_bytes([h[32], h[33]]), 4);
    assert_eq!(u16::from_le_bytes([h[34], h[35]]), 16);
    assert_eq!(&h[36..40], b"data");
    assert_eq!(u32::from_le_bytes([h[40], h[41], h[42], h[43]]), 0);
    assert_eq!(wav_riff_size(0), 36);
    assert_eq!(wav_riff_size(1000), 1036);
    assert_eq!(wav_riff_size(u32::MAX), u32::MAX);
}

// ---- thermal ----

#[test]
fn test_mock_source_returns_set_value() {
    let src = MockGpuThermalSource::new(60);
    assert_eq!(src.temperature_celsius(), Some(60));
    src.set_temperature(80);
    assert_eq!(src.temperature_celsius(), Some(80));
}

#[test]
fn mock_source_handles_share_temperature() {
    let a = MockGpuThermalSource::new(40);
    let b = a.clone_handle();
    b.set_temperature(77);
    assert_eq!(a.temperature_celsius(), Some(77));
}

#[test]
fn thermal_zones_and_polling() {
    assert_eq!(thermal_zone(50, 75, 83, 90), ThermalZone::Normal);
    assert_eq!(thermal_zone(75, 75, 83, 90), ThermalZone::Warn);
    assert_eq!(thermal_zone(83, 75, 83, 90), ThermalZone::Limit);
    assert_eq!(thermal_zone(95, 75, 83, 90), ThermalZone::Emergency);
    assert!(poll_due(None, 0, 5));
    assert!(!poll_due(Some(1_000_000), 5_999_999, 5));
    assert!(poll_due(Some(1_000_000), 6_000_000, 5));
    assert!(!poll_due(Some(10), 5, 1), "a clock that went back is no elapsed time");
}

// ---- sleep mode ----

#[test]
fn test_sleep_after_timeout() {
    let mut det = SleepDetector::new(true, 1, 8);
    let mut slept = false;
    for i in 0..100 {
        let result = det.update(false);
        if result == Some(SleepTransition::Sleep) {
            assert!(!slept, "Should only sleep once");
            assert!(i >= 89, "Should not sleep before ~90 frames, slept at {i}");
            slept = true;
        }
    }
    assert!(slept, "Should have entered sleep mode");
    assert!(det.is_sleeping());
}

#[test]
fn test_wake_on_motion() {
    let mut det = SleepDetector::new(true, 1, 8);
    for _ in 0..91 {
        det.update(false);
    }
    assert!(det.is_sleeping());
    let result = det.update(true);
    assert_eq!(result, Some(SleepTransition::Wake));
    assert!(!det.is_sleeping());
}

#[test]
fn test_disabled_never_sleeps() {
    let mut det = SleepDetector::new(false, 1, 8);
    for _ in 0..200 {
        assert_eq!(det.update(false), None);
    }
    assert!(!det.is_sleeping());
}

#[test]
fn test_force_wake() {
    let mut det = SleepDetector::new(true, 1, 8);
    for _ in 0..91 {
        det.update(false);
    }
    assert!(det.is_sleeping());
    let result = det.force_wake();
    assert_eq!(result, Some(SleepTransition::Wake));
    assert!(!det.is_sleeping());
    assert_eq!(det.force_wake(), None);
}

#[test]
fn test_motion_resets_idle_counter() {
    let mut det = SleepDetector::new(true, 1, 8);
    for _ in 0..80 {
        det.update(false);
    }
    det.update(true);
    for _ in 0..80 {
        det.update(false);
    }
    assert!(!det.is_sleeping());
}

#[test]
fn sleep_exactly_at_ninetieth_frame() {
    let mut det = SleepDetector::new(true, 2, 8);
    for _ in 0..179 {
        assert_eq!(det.update(false), None);
    }
    assert_eq!(det.update(false), Some(SleepTransition::Sleep));
    assert_eq!(det.update(false), None);
    assert_eq!(det.sleep_bitrate_mbps(), 8);
}

// ---- codec benchmark ----

#[test]
fn test_benchmark_selects_faster_codec() {
    let mut bench = CodecBenchmark::new();
    bench.set_phase_duration_us(10_000);
    bench.start_at(0);
    for _ in 0..10 {
        bench.record_sample(5000);
    }
    assert_eq!(bench.tick_at(15_000), Some(CodecChoice::H264));
    for _ in 0..10 {
        bench.record_sample(3000);
    }
    bench.tick_at(30_000);
    assert!(bench.is_complete());
    assert!(matches!(bench.result(), Some(CodecChoice::H264)));
}

#[test]
fn test_benchmark_defaults_to_hevc_on_tie() {
    let mut bench = CodecBenchmark::new();
    bench.set_phase_duration_us(10_000);
    bench.start_at(0);
    for _ in 0..10 {
        bench.record_sample(4000);
    }
    bench.tick_at(15_000);
    for _ in 0..10 {
        bench.record_sample(4000);
    }
    bench.tick_at(30_000);
    assert!(bench.is_complete());
    assert!(matches!(bench.result(), Some(CodecChoice::Hevc)));
}

#[test]
fn benchmark_phases_and_samples() {
    let mut bench = CodecBenchmark::new();
    assert_eq!(bench.phase(), BenchPhase::NotStarted);
    assert_eq!(bench.tick_at(0), None);
    bench.record_sample(1);
    assert!(bench.hevc_samples().is_empty(), "samples before the start are dropped");
    bench.start_at(100);
    bench.record_sample(7);
    assert_eq!(bench.tick_at(100 + 4_999_999), Some(CodecChoice::Hevc));
    assert_eq!(bench.hevc_samples(), &[7]);
    assert_eq!(bench.tick_at(100 + 5_000_000), Some(CodecChoice::H264));
    assert_eq!(bench.phase(), BenchPhase::TestingH264);
    // No H.264 samples: H.265 stays.
    assert_eq!(bench.tick_at(100 + 10_000_000), Some(CodecChoice::Hevc));
    assert_eq!(bench.phase(), BenchPhase::Complete);
    assert_eq!(bench.tick_at(u64::MAX), Some(CodecChoice::Hevc));
    bench.record_sample(1);
    assert!(bench.is_complete());
    assert_eq!(bench.result(), Some(CodecChoice::Hevc), "a finished result stays");
    assert_eq!(bench.tick_at(1), Some(CodecChoice::Hevc));
    bench.start();
    assert_eq!(bench.phase(), BenchPhase::TestingHevc);
    assert_eq!(bench.result(), None);
}

#[test]
fn benchmark_sample_statistics() {
    assert_eq!(sample_avg(&[1000, 2000, 3000, 4000, 5000]), 3000);
    assert_eq!(sample_avg(&[]), 0);
    assert_eq!(sample_avg(&[1, 2]), 1);
    assert_eq!(sample_avg(&[u32::MAX, u32::MAX]), u32::MAX);
    assert_eq!(sample_min_max(&[3000, 1000, 5000, 2000]), (1000, 5000));
    assert_eq!(sample_min_max(&[]), (0, 0));
    assert_eq!(sample_min_max(&[42]), (42, 42));
}

// ---- configuration ----

#[test]
fn config_section_defaults() {
    let r = RecordingConfig::default();
    assert!(!r.enabled);
    assert!(r.output_dir.is_empty());
    assert_eq!(
        AudioConfig::default(),
        AudioConfig { enabled: true, bitrate_kbps: 128, frame_size_ms: 10, sample_rate: 48000, channels: 2 }
    );
    assert_eq!(PairingConfig::default(), PairingConfig { max_attempts: 5, lockout_seconds: 60 });
    assert_eq!(
        MemoryMonitorConfig::default(),
        MemoryMonitorConfig { enabled: true, poll_interval_seconds: 60, growth_threshold_mb: 50 }
    );
    let v = VideoConfig::default();
    assert_eq!(v.codec, VideoCodec::H265);
    assert_eq!(v.bitrate_mbps, 80);
    assert_eq!(v.resolution_per_eye, [1832, 1920]);
    assert_eq!(v.framerate, 90);
    assert!(v.full_range);
    assert_eq!(FoveatedPreset::default(), FoveatedPreset::Balanced);
}

#[test]
fn foveated_preset_offsets() {
    assert_eq!(FoveatedPreset::Subtle.qp_offsets(), Some((3, 8)));
    assert_eq!(FoveatedPreset::Balanced.qp_offsets(), Some((5, 15)));
    assert_eq!(FoveatedPreset::Aggressive.qp_offsets(), Some((8, 25)));
    assert_eq!(FoveatedPreset::Custom.qp_offsets(), None);
    assert_eq!(FoveatedPreset::Custom.effective_qp_offsets(7, 30), (7, 30));
    assert_eq!(FoveatedPreset::Subtle.effective_qp_offsets(7, 30), (3, 8));
}

#[test]
fn config_video_validation() {
    let mut errors: Vec<ConfigError> = Vec::new();
    let mut v = VideoConfig::default();
    v.bitrate_mbps = 0;
    validate_video(&mut v, &mut errors);
    assert_eq!(v.bitrate_mbps, 80);
    assert_eq!(errors.len(), 1);
    assert_eq!(errors[0].field, "video.bitrate_mbps");
    assert_eq!(errors[0].message, "0 out of range [10-200], clamped to 80");
    assert_eq!(errors[0].to_text(), "Config validation [video.bitrate_mbps]: 0 out of range [10-200], clamped to 80");

    let mut errors: Vec<ConfigError> = Vec::new();
    let mut v = VideoConfig::default();
    v.bitrate_mbps = 10;
    v.framerate = 120;
    validate_video(&mut v, &mut errors);
    assert!(errors.is_empty(), "edge values are valid");
    v.framerate = 121;
    validate_video(&mut v, &mut errors);
    assert_eq!(v.framerate, 90);
    assert_eq!(errors[0].field, "video.framerate");
}

#[test]
fn config_port_validation() {
    let mut errors: Vec<ConfigError> = Vec::new();
    let (mut tcp, mut udp) = (80u16, DEFAULT_UDP_PORT);
    validate_ports(&mut tcp, &mut udp, &mut errors);
    assert_eq!(tcp, DEFAULT_TCP_PORT);
    assert_eq!(errors.len(), 1);
    assert_eq!(errors[0].field, "network.tcp_port");
    assert_eq!(errors[0].message, "80 < 1024, clamped to 9944");

    let mut errors: Vec<ConfigError> = Vec::new();
    let (mut tcp, mut udp) = (5000u16, 5000u16);
    validate_ports(&mut tcp, &mut udp, &mut errors);
    assert_eq!(errors[0].field, "network.udp_port");
    assert_eq!(errors[0].message, "== tcp_port (5000), offsetting");
    assert_ne!(tcp, udp);
    assert_eq!(udp, 5001);

    let mut errors: Vec<ConfigError> = Vec::new();
    let (mut tcp, mut udp) = (65535u16, 65535u16);
    validate_ports(&mut tcp, &mut udp, &mut errors);
    assert_eq!(errors[0].field, "network.udp_port");
    assert_eq!(tcp, 65535);
    assert_eq!(udp, 65534, "the highest port moves down");

    let mut errors: Vec<ConfigError> = Vec::new();
    validate_ports(&mut tcp, &mut udp, &mut errors);
    assert!(errors.is_empty(), "validated ports pass again unchanged");
    assert_eq!((tcp, udp), (65535, 65534));
}

#[test]
fn config_audio_validation() {
    let mut errors: Vec<ConfigError> = Vec::new();
    let mut a = AudioConfig::default();
    a.sample_rate = 44100;
    a.bitrate_kbps = 1000;
    validate_audio(&mut a, &mut errors);
    assert_eq!(a.sample_rate, 48000);
    assert_eq!(a.bitrate_kbps, 128);
    assert_eq!(errors.len(), 2);
    assert_eq!(errors[0].field, "audio.sample_rate");
    assert_eq!(errors[0].message, "44100 unsupported, clamped to 48000");
    assert_eq!(errors[1].field, "audio.bitrate_kbps");
    a.bitrate_kbps = 16;
    validate_audio(&mut a, &mut errors);
    assert_eq!(errors.len(), 3);
    assert_eq!(errors[2].message, "16 out of range [32-512], clamped to 128");
}

#[test]
fn config_congestion_control_validation() {
    let mut errors: Vec<ConfigError> = Vec::new();
    let mut mode = "invalid".to_string();
    validate_congestion_control(&mut mode, &mut errors);
    assert_eq!(mode, "gcc");
    assert_eq!(errors[0].field, "network.congestion_control");
    assert_eq!(errors[0].message, "must be \"gcc\" or \"loss\", got \"invalid\"");
    let mut mode = "loss".to_string();
    validate_congestion_control(&mut mode, &mut errors);
    assert_eq!(mode, "loss");
    assert_eq!(errors.len(), 1);
}

#[test]
fn config_qp_and_slice_validation() {
    let mut errors: Vec<ConfigError> = Vec::new();
    let mut mid = -1i32;
    validate_range_i32(&mut mid, 0, 51, 5, "foveated.mid_qp_offset", &mut errors);
    assert_eq!(mid, 5);
    assert_eq!(errors[0].message, "-1 out of range [0-51], clamped to 5");
    let mut peripheral = 51i32;
    validate_range_i32(&mut peripheral, 0, 51, 10, "foveated.peripheral_qp_offset", &mut errors);
    assert_eq!(peripheral, 51);
    assert_eq!(errors.len(), 1);
    let mut slices = 16u8;
    validate_range_u8(&mut slices, 2, 15, 4, "network.slice_count", &mut errors);
    assert_eq!(slices, 4);
    assert_eq!(errors[1].field, "network.slice_count");
    let mut slices = 8u8;
    validate_range_u8(&mut slices, 2, 15, 4, "network.slice_count", &mut errors);
    assert_eq!(slices, 8);
    assert_eq!(errors.len(), 2);
}

// ---- adaptive bitrate ----

#[test]
fn burst_detector_patterns() {
    let mut d = BurstDetector::new();
    assert_eq!(d.pattern(), LossPattern::NoLoss);
    d.record_at(false, 0);
    assert_eq!(d.pattern(), LossPattern::NoLoss);
    d.record_at(true, 1_000_000);
    assert_eq!(d.pattern(), LossPattern::Burst);
    assert!(d.recommend_fec_boost());
    assert!(!d.recommend_bitrate_reduction());
    d.record_at(true, 1_500_000);
    assert_eq!(d.pattern(), LossPattern::Burst, "exactly the threshold is still a burst");
    d.record_at(true, 1_500_001);
    assert_eq!(d.pattern(), LossPattern::Sustained);
    assert!(d.recommend_bitrate_reduction());
    d.record_at(false, 1_600_000);
    assert_eq!(d.pattern(), LossPattern::NoLoss);
    d.record(true);
    assert_eq!(d.pattern(), LossPattern::Burst);
}

fn signals(burst: LossPattern) -> NetworkSignals {
    NetworkSignals {
        burst,
        delay_overuse: false,
        loss_high: false,
        loss_above_target: false,
        loss_low: false,
        hysteresis_elapsed: false,
    }
}

#[test]
fn arbitration_rate_steps() {
    assert_eq!(choose_rate_step(&signals(LossPattern::Burst)), None);
    assert_eq!(
        choose_rate_step(&signals(LossPattern::Sustained)),
        Some((RateStep::Down20, ArbDominant::Sustained))
    );
    assert_eq!(choose_rate_step(&signals(LossPattern::NoLoss)), Some((RateStep::Hold, ArbDominant::NoChange)));
    let mut s = signals(LossPattern::NoLoss);
    s.delay_overuse = true;
    s.loss_above_target = true;
    assert_eq!(choose_rate_step(&s), Some((RateStep::Down10, ArbDominant::Delay)));
    s.loss_high = true;
    assert_eq!(choose_rate_step(&s), Some((RateStep::Down20, ArbDominant::Loss)));
    let mut s = signals(LossPattern::NoLoss);
    s.loss_above_target = true;
    assert_eq!(choose_rate_step(&s), Some((RateStep::Down5, ArbDominant::Loss)));
    let mut s = signals(LossPattern::NoLoss);
    s.loss_low = true;
    assert_eq!(choose_rate_step(&s), Some((RateStep::Hold, ArbDominant::NoChange)), "cooldown not over");
    s.hysteresis_elapsed = true;
    assert_eq!(choose_rate_step(&s), Some((RateStep::Up5, ArbDominant::Increase)));
}

#[test]
fn arbitration_clamping() {
    // Floor wins over a thermal ceiling below it.
    assert_eq!(clamp_with_thermal(5_000_000, MIN_BITRATE_BPS, MAX_BITRATE_BPS, Some(1_000_000)), MIN_BITRATE_BPS);
    assert_eq!(clamp_with_thermal(150_000_000, MIN_BITRATE_BPS, MAX_BITRATE_BPS, Some(100_000_000)), 100_000_000);
    assert_eq!(clamp_with_thermal(250_000_000, MIN_BITRATE_BPS, MAX_BITRATE_BPS, None), MAX_BITRATE_BPS);
    assert_eq!(clamp_with_thermal(250_000_000, MIN_BITRATE_BPS, MAX_BITRATE_BPS, Some(300_000_000)), MAX_BITRATE_BPS);
    assert_eq!(
        finish_arbitration(150_000_000, MIN_BITRATE_BPS, MAX_BITRATE_BPS, Some(100_000_000), ArbDominant::NoChange),
        ArbitrationOutcome { target_bps: 100_000_000, dominant: ArbDominant::Thermal }
    );
    assert_eq!(
        finish_arbitration(1, MIN_BITRATE_BPS, MAX_BITRATE_BPS, None, ArbDominant::Loss),
        ArbitrationOutcome { target_bps: MIN_BITRATE_BPS, dominant: ArbDominant::Floor }
    );
    assert_eq!(
        finish_arbitration(50_000_000, MIN_BITRATE_BPS, MAX_BITRATE_BPS, Some(100_000_000), ArbDominant::Loss),
        ArbitrationOutcome { target_bps: 50_000_000, dominant: ArbDominant::Loss }
    );
    assert_eq!(decide_clamp_dominant(80, 80, Some(80), ArbDominant::Delay), ArbDominant::Delay);
}

#[test]
fn test_thermal_ceiling_clamps_current_bitrate_immediately() {
    let mut c = BitrateController::new(100);
    c.set_thermal_ceiling_bps(60_000_000);
    assert_eq!(c.current_bitrate_bps(), 60_000_000);
}

#[test]
fn test_thermal_ceiling_no_effect_when_above_current() {
    let mut c = BitrateController::new(50);
    c.set_thermal_ceiling_bps(150_000_000);
    assert_eq!(c.current_bitrate_bps(), 50_000_000);
}

#[test]
fn test_thermal_ceiling_respects_floor() {
    let mut c = BitrateController::new(50);
    c.set_thermal_ceiling_bps(1_000_000);
    assert_eq!(c.current_bitrate_bps(), MIN_BITRATE_BPS);
}

#[test]
fn test_thermal_ceiling_returns_stored_value() {
    let mut c = BitrateController::new(50);
    assert_eq!(c.thermal_ceiling_bps(), None);
    c.set_thermal_ceiling_bps(42_000_000);
    assert_eq!(c.thermal_ceiling_bps(), Some(42_000_000));
    c.clear_thermal_ceiling();
    assert_eq!(c.thermal_ceiling_bps(), None);
}

#[test]
fn test_thermal_ceiling_lifted_allows_unlimited_growth() {
    let mut c = BitrateController::new(50);
    c.set_thermal_ceiling_bps(40_000_000);
    assert_eq!(c.clamp_to_bounds(190_000_000), 40_000_000);
    c.clear_thermal_ceiling();
    assert_eq!(c.clamp_to_bounds(190_000_000), 190_000_000);
    assert_eq!(c.current_bitrate_bps(), 40_000_000, "lifting the ceiling does not raise the bitrate");
}

#[test]
fn test_initial_bitrate() {
    let c = BitrateController::new(80);
    assert_eq!(c.current_bitrate_mbps(), 80);
    assert_eq!(c.current_bitrate_bps(), 80_000_000);
    assert_eq!(c.min_bitrate_bps(), MIN_BITRATE_BPS);
    assert_eq!(c.max_bitrate_bps(), MAX_BITRATE_BPS);
    assert_eq!(c.last_decision(), ArbDominant::NoChange);
}

#[test]
fn bitrate_controller_outcomes_and_cooldown() {
    let mut c = BitrateController::new_at(80, 10_000_000, 1_000);
    assert!(!c.hysteresis_elapsed_at(10_001_000));
    assert!(c.hysteresis_elapsed_at(10_001_001));
    let same = ArbitrationOutcome { target_bps: 80_000_000, dominant: ArbDominant::NoChange };
    assert!(!c.apply_outcome_at(same, 5_000_000));
    assert!(c.hysteresis_elapsed_at(10_001_001), "no change keeps the cooldown start");
    let down = ArbitrationOutcome { target_bps: 64_000_000, dominant: ArbDominant::Sustained };
    assert!(c.apply_outcome_at(down, 20_000_000));
    assert_eq!(c.current_bitrate_bps(), 64_000_000);
    assert_eq!(c.last_decision(), ArbDominant::Sustained);
    assert!(!c.hysteresis_elapsed_at(30_000_000));
    assert!(c.hysteresis_elapsed_at(30_000_001));
    let c2 = BitrateController::new_with_hysteresis_us(20, 0);
    assert_eq!(c2.current_bitrate_mbps(), 20);
}

/// The burst detector takes whether an interval was lossy; the engine
/// counts a loss rate of 5% or more as lossy.
fn lossy(loss_rate: f64) -> bool {
    loss_rate >= 0.05
}

#[test]
fn burst_detector_test_initial_state() {
    let bd = BurstDetector::new();
    assert_eq!(bd.pattern(), LossPattern::NoLoss);
    assert!(!bd.recommend_fec_boost());
    assert!(!bd.recommend_bitrate_reduction());
}

#[test]
fn test_no_loss_stays_none() {
    let mut bd = BurstDetector::new();
    bd.record(lossy(0.0));
    bd.record(lossy(0.01));
    bd.record(lossy(0.0));
    assert_eq!(bd.pattern(), LossPattern::NoLoss);
}

#[test]
fn test_brief_loss_is_burst() {
    let mut bd = BurstDetector::new();
    bd.record(lossy(0.10));
    assert_eq!(bd.pattern(), LossPattern::Burst);
    assert!(bd.recommend_fec_boost());
    assert!(!bd.recommend_bitrate_reduction());
}

#[test]
fn test_below_threshold_ignored() {
    let mut bd = BurstDetector::new();
    bd.record(lossy(0.04));
    assert_eq!(bd.pattern(), LossPattern::NoLoss);
    bd.record(lossy(0.049));
    assert_eq!(bd.pattern(), LossPattern::NoLoss);
}

#[test]
fn test_burst_then_recovery() {
    let mut bd = BurstDetector::new();
    bd.record(lossy(0.10));
    assert_eq!(bd.pattern(), LossPattern::Burst);
    bd.record(lossy(0.01));
    assert_eq!(bd.pattern(), LossPattern::NoLoss);
    assert!(!bd.recommend_fec_boost());
    assert!(!bd.recommend_bitrate_reduction());
}

#[test]
fn recording_counts_nal_units_and_bytes_written() {
    let mut c = NalCounters::new();
    assert_eq!((c.nal_count(), c.bytes_written()), (0, 0));
    for nal in [&[0x67u8, 0x42][..], &[0x68u8][..]] {
        let bytes = annexb_nal(nal);
        c.record_written(bytes.len() as u64);
    }
    assert_eq!(c.nal_count(), 2);
    assert_eq!(c.bytes_written(), 11);
    c.record_written(annexb_nal(&[0, 0, 1, 0x65]).len() as u64);
    assert_eq!((c.nal_count(), c.bytes_written()), (3, 15));
}
