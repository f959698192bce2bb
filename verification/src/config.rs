//! Configuration sections without floating-point fields, their defaults, and
//! the integer and text checks of configuration validation: each invalid
//! value is replaced by its default and reported.

use vstd::prelude::*;
use crate::protocol::{VideoCodec, DEFAULT_TCP_PORT, DEFAULT_UDP_PORT, MAX_PIN_ATTEMPTS, PIN_LOCKOUT_SECONDS};
use crate::text::{decimal, push_decimal, push_signed, signed_decimal};

verus! {

/// A configuration value that was invalid and has been replaced.
#[derive(Debug, Clone)]
pub struct ConfigError {
    pub field: &'static str,
    pub message: String,
}

impl ConfigError {
    /// "Config validation [field]: message".
    pub fn to_text(&self) -> (s: String)
        ensures
            s@ == "Config validation ["@ + self.field@ + "]: "@ + self.message@,
    {
        let mut s = String::from_str("Config validation [");
        s.append(self.field);
        s.append("]: ");
        s.append(self.message.as_str());
        s
    }
}

/// Session recording settings.
#[derive(Debug, Clone)]
pub struct RecordingConfig {
    /// Write the raw Annex B stream to disk.
    pub enabled: bool,
    /// Output directory; empty for the default one.
    pub output_dir: String,
}

impl Default for RecordingConfig {
    fn default() -> (r: Self)
        ensures
            !r.enabled,
            r.output_dir@ == Seq::<char>::empty(),
    {
        RecordingConfig { enabled: false, output_dir: String::new() }
    }
}

#[derive(Debug, Clone, Copy, PartialEq, Eq, Structural)]
pub struct AudioConfig {
    pub enabled: bool,
    pub bitrate_kbps: u32,
    pub frame_size_ms: u32,
    pub sample_rate: u32,
    pub channels: u16,
}

impl Default for AudioConfig {
    fn default() -> (r: Self)
        ensures
            r == (AudioConfig { enabled: true, bitrate_kbps: 128, frame_size_ms: 10, sample_rate: 48000, channels: 2 }),
    {
        AudioConfig { enabled: true, bitrate_kbps: 128, frame_size_ms: 10, sample_rate: 48000, channels: 2 }
    }
}

#[derive(Debug, Clone, Copy, PartialEq, Eq, Structural)]
pub struct PairingConfig {
    pub max_attempts: u8,
    pub lockout_seconds: u64,
}

impl Default for PairingConfig {
    fn default() -> (r: Self)
        ensures
            r == (PairingConfig { max_attempts: MAX_PIN_ATTEMPTS, lockout_seconds: PIN_LOCKOUT_SECONDS }),
    {
        PairingConfig { max_attempts: MAX_PIN_ATTEMPTS, lockout_seconds: PIN_LOCKOUT_SECONDS }
    }
}

#[derive(Debug, Clone, Copy, PartialEq, Eq, Structural)]
pub struct MemoryMonitorConfig {
    pub enabled: bool,
    pub poll_interval_seconds: u32,
    /// Warn when the process grows by this many MB within an hour.
    pub growth_threshold_mb: u32,
}

impl Default for MemoryMonitorConfig {
    fn default() -> (r: Self)
        ensures
            r == (MemoryMonitorConfig { enabled: true, poll_interval_seconds: 60, growth_threshold_mb: 50 }),
    {
        MemoryMonitorConfig { enabled: true, poll_interval_seconds: 60, growth_threshold_mb: 50 }
    }
}

#[derive(Debug, Clone, Copy)]
pub struct VideoConfig {
    pub codec: VideoCodec,
    pub bitrate_mbps: u32,
    pub resolution_per_eye: [u32; 2],
    pub framerate: u32,
    /// Full RGB range (0-255) instead of limited (16-235).
    pub full_range: bool,
}

impl Default for VideoConfig {
    fn default() -> (r: Self)
        ensures
            r.codec == VideoCodec::H265,
            r.bitrate_mbps == 80,
            r.resolution_per_eye@ == seq![1832u32, 1920u32],
            r.framerate == 90,
            r.full_range,
    {
        VideoConfig {
            codec: VideoCodec::default(),
            bitrate_mbps: 80,
            resolution_per_eye: [1832, 1920],
            framerate: 90,
            full_range: true,
        }
    }
}

/// Foveated encoding preset with its QP offsets.
#[derive(Debug, Clone, Copy, PartialEq, Eq, Structural)]
pub enum FoveatedPreset {
    /// Mid +3, peripheral +8.
    Subtle,
    /// Mid +5, peripheral +15.
    Balanced,
    /// Mid +8, peripheral +25.
    Aggressive,
    /// The configured offsets, as they are.
    Custom,
}

impl Default for FoveatedPreset {
    fn default() -> (r: Self)
        ensures
            r == FoveatedPreset::Balanced,
    {
        FoveatedPreset::Balanced
    }
}

pub open spec fn preset_offsets(p: FoveatedPreset) -> Option<(i32, i32)> {
    match p {
        FoveatedPreset::Subtle => Some((3, 8)),
        FoveatedPreset::Balanced => Some((5, 15)),
        FoveatedPreset::Aggressive => Some((8, 25)),
        FoveatedPreset::Custom => None,
    }
}

impl FoveatedPreset {
    /// The preset's (mid, peripheral) QP offsets; `None` for `Custom`.
    pub fn qp_offsets(self) -> (r: Option<(i32, i32)>)
        ensures
            r == preset_offsets(self),
    {
        match self {
            FoveatedPreset::Subtle => Some((3, 8)),
            FoveatedPreset::Balanced => Some((5, 15)),
            FoveatedPreset::Aggressive => Some((8, 25)),
            FoveatedPreset::Custom => None,
        }
    }

    /// The offsets in force: the preset's, or the configured ones for
    /// `Custom`.
    pub fn effective_qp_offsets(self, mid_qp_offset: i32, peripheral_qp_offset: i32) -> (r: (i32, i32))
        ensures
            r == match preset_offsets(self) {
                Some(o) => o,
                None => (mid_qp_offset, peripheral_qp_offset),
            },
    {
        match self.qp_offsets() {
            Some(o) => o,
            None => (mid_qp_offset, peripheral_qp_offset),
        }
    }
}

/// "v out of range [min-max], clamped to default".
pub open spec fn range_message(v: int, min: int, max: int, default: int) -> Seq<char> {
    signed_decimal(v) + " out of range ["@ + signed_decimal(min) + "-"@ + signed_decimal(max)
        + "], clamped to "@ + signed_decimal(default)
}

fn range_message_text(v: i64, min: i64, max: i64, default: i64) -> (s: String)
    ensures
        s@ == range_message(v as int, min as int, max as int, default as int),
{
    let mut s = String::new();
    push_signed(&mut s, v);
    s.append(" out of range [");
    push_signed(&mut s, min);
    s.append("-");
    push_signed(&mut s, max);
    s.append("], clamped to ");
    push_signed(&mut s, default);
    s
}

/// The value after a range check, and the error reported for it.
pub open spec fn checked_range(v: int, min: int, max: int, default: int, field: Seq<char>) -> (int, Option<(Seq<char>, Seq<char>)>) {
    if v < min || v > max {
        (default, Some((field, range_message(v, min, max, default))))
    } else {
        (v, None)
    }
}

pub open spec fn error_view(e: ConfigError) -> (Seq<char>, Seq<char>) {
    (e.field@, e.message@)
}

pub open spec fn errors_view(es: Seq<ConfigError>) -> Seq<(Seq<char>, Seq<char>)> {
    es.map_values(|e: ConfigError| error_view(e))
}

/// `errors` with `e` appended when there is one.
pub open spec fn push_opt(errors: Seq<(Seq<char>, Seq<char>)>, e: Option<(Seq<char>, Seq<char>)>) -> Seq<(Seq<char>, Seq<char>)> {
    match e {
        Some(x) => errors.push(x),
        None => errors,
    }
}

fn push_error(errors: &mut Vec<ConfigError>, field: &'static str, message: String)
    ensures
        errors_view(final(errors)@) == errors_view(old(errors)@).push((field@, message@)),
{
    errors.push(ConfigError { field, message });
    assert(errors_view(errors@) =~= errors_view(old(errors)@).push((field@, message@)));
}

/// Check `value` against `[min, max]`; outside it the value becomes
/// `default` and an error is reported.
pub fn validate_range_i64(
    value: &mut i64,
    min: i64,
    max: i64,
    default: i64,
    field: &'static str,
    errors: &mut Vec<ConfigError>,
)
    ensures
        ({
            let (v, e) = checked_range(*old(value) as int, min as int, max as int, default as int, field@);
            &&& *final(value) == v
            &&& errors_view(final(errors)@) == push_opt(errors_view(old(errors)@), e)
        }),
{
    if *value < min || *value > max {
        let msg = range_message_text(*value, min, max, default);
        push_error(errors, field, msg);
        *value = default;
    }
}

/// `validate_range_i64` for a `u32` setting.
pub fn validate_range_u32(
    value: &mut u32,
    min: u32,
    max: u32,
    default: u32,
    field: &'static str,
    errors: &mut Vec<ConfigError>,
)
    ensures
        ({
            let (v, e) = checked_range(*old(value) as int, min as int, max as int, default as int, field@);
            &&& *final(value) == v
            &&& errors_view(final(errors)@) == push_opt(errors_view(old(errors)@), e)
        }),
{
    let mut wide: i64 = *value as i64;
    validate_range_i64(&mut wide, min as i64, max as i64, default as i64, field, errors);
    *value = wide as u32;
}

/// `validate_range_i64` for a `u8` setting.
pub fn validate_range_u8(
    value: &mut u8,
    min: u8,
    max: u8,
    default: u8,
    field: &'static str,
    errors: &mut Vec<ConfigError>,
)
    ensures
        ({
            let (v, e) = checked_range(*old(value) as int, min as int, max as int, default as int, field@);
            &&& *final(value) == v
            &&& errors_view(final(errors)@) == push_opt(errors_view(old(errors)@), e)
        }),
{
    let mut wide: i64 = *value as i64;
    validate_range_i64(&mut wide, min as i64, max as i64, default as i64, field, errors);
    *value = wide as u8;
}

/// `validate_range_i64` for an `i32` setting.
pub fn validate_range_i32(
    value: &mut i32,
    min: i32,
    max: i32,
    default: i32,
    field: &'static str,
    errors: &mut Vec<ConfigError>,
)
    ensures
        ({
            let (v, e) = checked_range(*old(value) as int, min as int, max as int, default as int, field@);
            &&& *final(value) == v
            &&& errors_view(final(errors)@) == push_opt(errors_view(old(errors)@), e)
        }),
{
    let mut wide: i64 = *value as i64;
    validate_range_i64(&mut wide, min as i64, max as i64, default as i64, field, errors);
    *value = wide as i32;
}

/// Ports after validation: each below 1024 becomes its default; a UDP port
/// equal to the TCP port moves to the next one, or to the one below when
/// the TCP port is the highest.
pub open spec fn validated_ports(tcp: u16, udp: u16) -> (u16, u16) {
    let t = if tcp < 1024 { DEFAULT_TCP_PORT } else { tcp };
    let u = if udp < 1024 { DEFAULT_UDP_PORT } else { udp };
    if t == u {
        (t, if t == u16::MAX { (t - 1) as u16 } else { (t + 1) as u16 })
    } else {
        (t, u)
    }
}

/// The errors `validate_ports` reports, in order.
pub open spec fn port_errors(tcp: u16, udp: u16) -> Seq<(Seq<char>, Seq<char>)> {
    let t = if tcp < 1024 { DEFAULT_TCP_PORT } else { tcp };
    let u = if udp < 1024 { DEFAULT_UDP_PORT } else { udp };
    let e1: Seq<(Seq<char>, Seq<char>)> = if tcp < 1024 {
        seq![("network.tcp_port"@, decimal(tcp as nat) + " < 1024, clamped to "@ + decimal(DEFAULT_TCP_PORT as nat))]
    } else {
        Seq::empty()
    };
    let e2: Seq<(Seq<char>, Seq<char>)> = if udp < 1024 {
        seq![("network.udp_port"@, decimal(udp as nat) + " < 1024, clamped to "@ + decimal(DEFAULT_UDP_PORT as nat))]
    } else {
        Seq::empty()
    };
    let e3: Seq<(Seq<char>, Seq<char>)> = if t == u {
        seq![("network.udp_port"@, "== tcp_port ("@ + decimal(t as nat) + "), offsetting"@)]
    } else {
        Seq::empty()
    };
    e1 + e2 + e3
}

/// Port validation settles: whatever the ports, it leaves two distinct
/// ports of at least 1024, and validating those again changes nothing and
/// reports nothing.
pub proof fn lemma_ports_validation_settles(tcp: u16, udp: u16)
    ensures
        ({
            let (t, u) = validated_ports(tcp, udp);
            &&& t >= 1024
            &&& u >= 1024
            &&& t != u
            &&& validated_ports(t, u) == (t, u)
            &&& port_errors(t, u) == Seq::<(Seq<char>, Seq<char>)>::empty()
        }),
{
    let (t, u) = validated_ports(tcp, udp);
    assert(port_errors(t, u) =~= Seq::<(Seq<char>, Seq<char>)>::empty());
}

/// Validate the TCP and UDP ports (see `validated_ports`).
pub fn validate_ports(tcp_port: &mut u16, udp_port: &mut u16, errors: &mut Vec<ConfigError>)
    ensures
        (*final(tcp_port), *final(udp_port)) == validated_ports(*old(tcp_port), *old(udp_port)),
        errors_view(final(errors)@) == errors_view(old(errors)@) + port_errors(*old(tcp_port), *old(udp_port)),
        *final(tcp_port) >= 1024,
        *final(udp_port) >= 1024,
        *final(tcp_port) != *final(udp_port),
{
    let ghost start = errors_view(errors@);
    if *tcp_port < 1024 {
        let mut m = String::new();
        push_decimal(&mut m, *tcp_port as u64);
        m.append(" < 1024, clamped to ");
        push_decimal(&mut m, DEFAULT_TCP_PORT as u64);
        push_error(errors, "network.tcp_port", m);
        *tcp_port = DEFAULT_TCP_PORT;
    }
    if *udp_port < 1024 {
        let mut m = String::new();
        push_decimal(&mut m, *udp_port as u64);
        m.append(" < 1024, clamped to ");
        push_decimal(&mut m, DEFAULT_UDP_PORT as u64);
        push_error(errors, "network.udp_port", m);
        *udp_port = DEFAULT_UDP_PORT;
    }
    if *tcp_port == *udp_port {
        let mut m = String::from_str("== tcp_port (");
        push_decimal(&mut m, *tcp_port as u64);
        m.append("), offsetting");
        push_error(errors, "network.udp_port", m);
        *udp_port = if *tcp_port == u16::MAX {
            *tcp_port - 1
        } else {
            *tcp_port + 1
        };
    }
    assert(errors_view(errors@) =~= start + port_errors(*old(tcp_port), *old(udp_port)));
}

/// Validate the congestion control mode: "gcc" or "loss", else "gcc".
pub fn validate_congestion_control(mode: &mut String, errors: &mut Vec<ConfigError>)
    ensures
        (old(mode)@ == "gcc"@ || old(mode)@ == "loss"@) ==> final(mode)@ == old(mode)@ && errors_view(
            final(errors)@,
        ) == errors_view(old(errors)@),
        !(old(mode)@ == "gcc"@ || old(mode)@ == "loss"@) ==> final(mode)@ == "gcc"@ && errors_view(
            final(errors)@,
        ) == errors_view(old(errors)@).push(
            ("network.congestion_control"@, "must be \"gcc\" or \"loss\", got \""@ + old(mode)@ + "\""@),
        ),
{
    let gcc = String::from_str("gcc");
    let loss = String::from_str("loss");
    if *mode != gcc && *mode != loss {
        let mut m = String::from_str("must be \"gcc\" or \"loss\", got \"");
        m.append(mode.as_str());
        m.append("\"");
        push_error(errors, "network.congestion_control", m);
        *mode = gcc;
    }
}

/// Validate the audio section: 48 kHz only, bitrate 32-512 kbps.
pub fn validate_audio(audio: &mut AudioConfig, errors: &mut Vec<ConfigError>)
    ensures
        final(audio).enabled == old(audio).enabled,
        final(audio).frame_size_ms == old(audio).frame_size_ms,
        final(audio).channels == old(audio).channels,
        final(audio).sample_rate == 48000,
        ({
            let e1: Seq<(Seq<char>, Seq<char>)> = if old(audio).sample_rate != 48000 {
                seq![("audio.sample_rate"@, decimal(old(audio).sample_rate as nat) + " unsupported, clamped to 48000"@)]
            } else {
                Seq::empty()
            };
            let (b, e2) = checked_range(old(audio).bitrate_kbps as int, 32, 512, 128, "audio.bitrate_kbps"@);
            &&& final(audio).bitrate_kbps == b
            &&& errors_view(final(errors)@) == push_opt(errors_view(old(errors)@) + e1, e2)
        }),
{
    let ghost start = errors_view(errors@);
    if audio.sample_rate != 48000 {
        let mut m = String::new();
        push_decimal(&mut m, audio.sample_rate as u64);
        m.append(" unsupported, clamped to 48000");
        push_error(errors, "audio.sample_rate", m);
        audio.sample_rate = 48000;
    }
    let ghost mid = errors_view(errors@);
    assert(mid =~= start + if old(audio).sample_rate != 48000 {
        seq![("audio.sample_rate"@, decimal(old(audio).sample_rate as nat) + " unsupported, clamped to 48000"@)]
    } else {
        Seq::<(Seq<char>, Seq<char>)>::empty()
    });
    validate_range_u32(&mut audio.bitrate_kbps, 32, 512, 128, "audio.bitrate_kbps", errors);
}

/// Validate the video section: bitrate 10-200 Mbps, 30-120 fps.
pub fn validate_video(video: &mut VideoConfig, errors: &mut Vec<ConfigError>)
    ensures
        final(video).codec == old(video).codec,
        final(video).resolution_per_eye == old(video).resolution_per_eye,
        final(video).full_range == old(video).full_range,
        ({
            let (b, e1) = checked_range(old(video).bitrate_mbps as int, 10, 200, 80, "video.bitrate_mbps"@);
            let (f, e2) = checked_range(old(video).framerate as int, 30, 120, 90, "video.framerate"@);
            &&& final(video).bitrate_mbps == b
            &&& final(video).framerate == f
            &&& errors_view(final(errors)@) == push_opt(push_opt(errors_view(old(errors)@), e1), e2)
        }),
{
    validate_range_u32(&mut video.bitrate_mbps, 10, 200, 80, "video.bitrate_mbps", errors);
    validate_range_u32(&mut video.framerate, 30, 120, 90, "video.framerate", errors);
}

} // verus!
