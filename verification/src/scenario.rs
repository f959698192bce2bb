//! Scenario assertions: what a scripted run against the engine must show,
//! and the failure messages of a run that falls short.

use vstd::prelude::*;
use crate::text::{decimal, push_decimal};

verus! {

/// Where the scripted client takes its PIN from.
#[derive(Debug, Clone, Copy, PartialEq, Eq, Structural)]
pub enum PinSource {
    /// The PIN the engine publishes (the normal path).
    StatusJson,
    /// A PIN known to be wrong, to exercise rejection.
    Wrong,
}

/// A check of the recordings a run left: their directory, and the least
/// total size of the `.h265`, `.h264` and `.wav` files directly in it.
#[derive(Debug, Clone)]
pub struct RecordingCheck {
    pub dir: String,
    pub min_bytes: u64,
}

/// What a scenario run must show; each bound is checked only when set.
#[derive(Debug, Clone)]
pub struct Assertions {
    pub min_frames_decoded: Option<u64>,
    pub min_idr_frames: Option<u64>,
    pub min_heartbeats_sent: Option<u64>,
    pub min_video_packets: Option<u64>,
    /// Least number of audio RTP packets received.
    pub min_audio_packets: Option<u64>,
    pub max_connect_duration_ms: Option<u64>,
    pub expect_pin_rejected: Option<bool>,
    /// OSC addresses that must each have been captured.
    pub expect_osc_addresses: Option<Vec<String>>,
    /// Least number of OSC messages, summed over the addresses.
    pub min_osc_messages: Option<u64>,
    pub min_face_messages_sent: Option<u64>,
    pub min_haptic_events_received: Option<u64>,
    pub min_sleep_enter_count: Option<u64>,
    pub min_sleep_exit_count: Option<u64>,
    /// Most video packets received (to see injected loss bite).
    pub max_video_packets: Option<u64>,
    pub expect_recording_files: Option<RecordingCheck>,
    /// Upper bound on the 99th-percentile depacketization time (µs).
    pub max_decode_latency_us_p99: Option<u32>,
    pub min_decode_latency_samples: Option<u64>,
}

impl Default for Assertions {
    fn default() -> (r: Self)
        ensures
            r.min_frames_decoded is None,
            r.min_idr_frames is None,
            r.min_heartbeats_sent is None,
            r.min_video_packets is None,
            r.min_audio_packets is None,
            r.max_connect_duration_ms is None,
            r.expect_pin_rejected is None,
            r.expect_osc_addresses is None,
            r.min_osc_messages is None,
            r.min_face_messages_sent is None,
            r.min_haptic_events_received is None,
            r.min_sleep_enter_count is None,
            r.min_sleep_exit_count is None,
            r.max_video_packets is None,
            r.expect_recording_files is None,
            r.max_decode_latency_us_p99 is None,
            r.min_decode_latency_samples is None,
    {
        Assertions {
            min_frames_decoded: None,
            min_idr_frames: None,
            min_heartbeats_sent: None,
            min_video_packets: None,
            min_audio_packets: None,
            max_connect_duration_ms: None,
            expect_pin_rejected: None,
            expect_osc_addresses: None,
            min_osc_messages: None,
            min_face_messages_sent: None,
            min_haptic_events_received: None,
            min_sleep_enter_count: None,
            min_sleep_exit_count: None,
            max_video_packets: None,
            expect_recording_files: None,
            max_decode_latency_us_p99: None,
            min_decode_latency_samples: None,
        }
    }
}

/// What the scripted client observed, as the assertions read it.
#[derive(Debug, Clone)]
pub struct RunObservations {
    pub frames_decoded: u64,
    pub idr_frames_seen: u64,
    pub heartbeats_sent: u64,
    pub video_packets_received: u64,
    pub audio_packets_received: u64,
    /// Connection set-up time: whole seconds, and the nanoseconds beyond.
    pub connect_secs: u64,
    pub connect_subsec_nanos: u32,
    pub face_messages_sent: u64,
    pub haptic_events_received: u64,
    pub sleep_enter_count: u64,
    pub sleep_exit_count: u64,
    /// Each captured OSC address with the number of messages to it.
    pub osc_messages: Vec<(String, u64)>,
    pub depacketize_samples_count: u64,
    pub depacketize_latency_us_p99: u32,
}

impl Default for RunObservations {
    fn default() -> (r: Self)
        ensures
            r.frames_decoded == 0,
            r.idr_frames_seen == 0,
            r.heartbeats_sent == 0,
            r.video_packets_received == 0,
            r.audio_packets_received == 0,
            r.connect_secs == 0,
            r.connect_subsec_nanos == 0,
            r.face_messages_sent == 0,
            r.haptic_events_received == 0,
            r.sleep_enter_count == 0,
            r.sleep_exit_count == 0,
            r.osc_messages@.len() == 0,
            r.depacketize_samples_count == 0,
            r.depacketize_latency_us_p99 == 0,
    {
        RunObservations {
            frames_decoded: 0,
            idr_frames_seen: 0,
            heartbeats_sent: 0,
            video_packets_received: 0,
            audio_packets_received: 0,
            connect_secs: 0,
            connect_subsec_nanos: 0,
            face_messages_sent: 0,
            haptic_events_received: 0,
            sleep_enter_count: 0,
            sleep_exit_count: 0,
            osc_messages: Vec::new(),
            depacketize_samples_count: 0,
            depacketize_latency_us_p99: 0,
        }
    }
}

/// The `Debug` text of the duration of `secs` seconds and `nanos`
/// nanoseconds, as `std::time::Duration` writes it ("1.5s", "250ms").
pub uninterp spec fn duration_debug_text(secs: u64, nanos: u32) -> Seq<char>;

/// `format!("{:?}", Duration::new(secs, nanos))`: the claim is that the
/// text is `duration_debug_text(secs, nanos)`, a function of the two
/// values alone.
#[verifier::external_body]
fn duration_debug(secs: u64, nanos: u32) -> (r: String)
    requires
        nanos < 1_000_000_000,
    ensures
        r@ == duration_debug_text(secs, nanos),
{
    format!("{:?}", std::time::Duration::new(secs, nanos))
}

pub open spec fn texts(v: Seq<String>) -> Seq<Seq<char>> {
    v.map_values(|s: String| s@)
}

pub open spec fn bool_text(b: bool) -> Seq<char> {
    if b {
        "true"@
    } else {
        "false"@
    }
}

/// "name: expected >= min, got n" (with `hint` after) when `got` is below
/// a set minimum.
pub open spec fn min_failure(name: Seq<char>, min: Option<u64>, got: u64, hint: Seq<char>) -> Seq<Seq<char>> {
    if min is Some && got < min->0 {
        seq![name + ": expected >= "@ + decimal(min->0 as nat) + ", got "@ + decimal(got as nat) + hint]
    } else {
        Seq::empty()
    }
}

/// "name: expected <= max, got n" when `got` is above a set maximum.
pub open spec fn max_failure(name: Seq<char>, max: Option<u64>, got: u64) -> Seq<Seq<char>> {
    if max is Some && got > max->0 {
        seq![name + ": expected <= "@ + decimal(max->0 as nat) + ", got "@ + decimal(got as nat)]
    } else {
        Seq::empty()
    }
}

pub open spec fn pin_failure(expect: Option<bool>, pin_rejected: bool) -> Seq<Seq<char>> {
    if expect is Some && expect->0 != pin_rejected {
        seq!["expect_pin_rejected="@ + bool_text(expect->0) + ", observed pin_rejected="@ + bool_text(pin_rejected)]
    } else {
        Seq::empty()
    }
}

/// A connection set-up longer than the set bound, in milliseconds.
pub open spec fn connect_failure(max_ms: Option<u64>, secs: u64, nanos: u32) -> Seq<Seq<char>> {
    if max_ms is Some && secs * 1_000_000_000 + nanos > max_ms->0 * 1_000_000 {
        seq!["max_connect_duration: expected <= "@ + decimal(max_ms->0 as nat) + " ms, got "@ + duration_debug_text(secs, nanos)]
    } else {
        Seq::empty()
    }
}

pub open spec fn osc_addresses(m: Seq<(String, u64)>) -> Seq<Seq<char>> {
    m.map_values(|e: (String, u64)| e.0@)
}

/// One message per expected address that was not captured, in order.
pub open spec fn osc_missing(expected: Seq<Seq<char>>, have: Seq<Seq<char>>) -> Seq<Seq<char>>
    decreases expected.len(),
{
    if expected.len() == 0 {
        Seq::empty()
    } else {
        let rest = osc_missing(expected.drop_last(), have);
        if have.contains(expected.last()) {
            rest
        } else {
            rest.push("expect_osc_addresses: missing '"@ + expected.last() + "'"@)
        }
    }
}

pub open spec fn osc_expected_failures(expected: Option<Vec<String>>, m: Seq<(String, u64)>) -> Seq<Seq<char>> {
    match expected {
        Some(v) => osc_missing(texts(v@), osc_addresses(m)),
        None => Seq::empty(),
    }
}

/// Messages captured over all addresses.
pub open spec fn osc_total(m: Seq<(String, u64)>) -> nat
    decreases m.len(),
{
    if m.len() == 0 {
        0
    } else {
        osc_total(m.drop_last()) + m.last().1 as nat
    }
}

/// The recording check against the measured total size (or the error the
/// measurement met).
pub open spec fn recording_failure(check: Option<RecordingCheck>, measured: Result<u64, String>) -> Seq<Seq<char>> {
    match check {
        None => Seq::empty(),
        Some(c) => match measured {
            Ok(total) => if total >= c.min_bytes {
                Seq::empty()
            } else {
                seq![
                    "expect_recording_files: "@ + decimal(total as nat) + " total bytes in "@ + c.dir@ + ", want >= "@
                        + decimal(c.min_bytes as nat),
                ]
            },
            Err(e) => seq!["expect_recording_files: failed to read '"@ + c.dir@ + "': "@ + e@],
        },
    }
}

/// The failures of a run, in the order the checks are made: the PIN
/// expectation always; the rest only when the client's observations are
/// there (a failed handshake leaves none).
pub open spec fn assertion_failures(
    a: Assertions,
    stats: Option<RunObservations>,
    pin_rejected: bool,
    recording: Result<u64, String>,
) -> Seq<Seq<char>> {
    let pin = pin_failure(a.expect_pin_rejected, pin_rejected);
    match stats {
        None => pin,
        Some(s) => pin + min_failure("min_frames_decoded"@, a.min_frames_decoded, s.frames_decoded, ""@)
            + min_failure("min_idr_frames"@, a.min_idr_frames, s.idr_frames_seen, ""@) + min_failure(
            "min_heartbeats_sent"@,
            a.min_heartbeats_sent,
            s.heartbeats_sent,
            ""@,
        ) + min_failure("min_video_packets"@, a.min_video_packets, s.video_packets_received, ""@) + min_failure(
            "min_audio_packets"@,
            a.min_audio_packets,
            s.audio_packets_received,
            " (was receive_audio + synthetic_source on?)"@,
        ) + connect_failure(a.max_connect_duration_ms, s.connect_secs, s.connect_subsec_nanos) + min_failure(
            "min_face_messages_sent"@,
            a.min_face_messages_sent,
            s.face_messages_sent,
            ""@,
        ) + min_failure("min_haptic_events_received"@, a.min_haptic_events_received, s.haptic_events_received, ""@)
            + min_failure("min_sleep_enter_count"@, a.min_sleep_enter_count, s.sleep_enter_count, ""@) + min_failure(
            "min_sleep_exit_count"@,
            a.min_sleep_exit_count,
            s.sleep_exit_count,
            ""@,
        ) + osc_expected_failures(a.expect_osc_addresses, s.osc_messages@) + min_failure(
            "min_osc_messages"@,
            a.min_osc_messages,
            osc_total(s.osc_messages@) as u64,
            ""@,
        ) + max_failure("max_video_packets"@, a.max_video_packets, s.video_packets_received) + recording_failure(
            a.expect_recording_files,
            recording,
        ) + min_failure(
            "min_decode_latency_samples"@,
            a.min_decode_latency_samples,
            s.depacketize_samples_count,
            " (was measure_decode_latency on?)"@,
        ) + max_failure(
            "max_decode_latency_us_p99"@,
            match a.max_decode_latency_us_p99 {
                Some(m) => Some(m as u64),
                None => None,
            },
            s.depacketize_latency_us_p99 as u64,
        ),
    }
}

fn push_text(failures: &mut Vec<String>, s: String)
    ensures
        texts(final(failures)@) == texts(old(failures)@).push(s@),
{
    let ghost t = s@;
    failures.push(s);
    assert(texts(failures@) =~= texts(old(failures)@).push(t));
}

fn push_min(failures: &mut Vec<String>, name: &str, min: Option<u64>, got: u64, hint: &str)
    ensures
        texts(final(failures)@) == texts(old(failures)@) + min_failure(name@, min, got, hint@),
{
    match min {
        Some(m) => {
            if got < m {
                let mut s = String::from_str(name);
                s.append(": expected >= ");
                push_decimal(&mut s, m);
                s.append(", got ");
                push_decimal(&mut s, got);
                s.append(hint);
                push_text(failures, s);
                return;
            }
        },
        None => {},
    }
    assert(texts(failures@) =~= texts(old(failures)@) + min_failure(name@, min, got, hint@));
}

fn push_max(failures: &mut Vec<String>, name: &str, max: Option<u64>, got: u64)
    ensures
        texts(final(failures)@) == texts(old(failures)@) + max_failure(name@, max, got),
{
    match max {
        Some(m) => {
            if got > m {
                let mut s = String::from_str(name);
                s.append(": expected <= ");
                push_decimal(&mut s, m);
                s.append(", got ");
                push_decimal(&mut s, got);
                push_text(failures, s);
                return;
            }
        },
        None => {},
    }
    assert(texts(failures@) =~= texts(old(failures)@) + max_failure(name@, max, got));
}

fn bool_str(b: bool) -> (r: &'static str)
    ensures
        r@ == bool_text(b),
{
    if b {
        "true"
    } else {
        "false"
    }
}

fn has_address(m: &Vec<(String, u64)>, addr: &String) -> (r: bool)
    ensures
        r == osc_addresses(m@).contains(addr@),
{
    let mut j: usize = 0;
    while j < m.len()
        invariant
            j <= m@.len(),
            forall|k: int| 0 <= k < j ==> m@[k].0@ != addr@,
        decreases m@.len() - j,
    {
        if m[j].0 == *addr {
            assert(osc_addresses(m@)[j as int] == addr@);
            return true;
        }
        j = j + 1;
    }
    assert forall|k: int| 0 <= k < osc_addresses(m@).len() implies osc_addresses(m@)[k] != addr@ by {
        assert(m@[k].0@ != addr@);
    }
    false
}

fn push_osc_missing(failures: &mut Vec<String>, expected: &Vec<String>, m: &Vec<(String, u64)>)
    ensures
        texts(final(failures)@) == texts(old(failures)@) + osc_missing(texts(expected@), osc_addresses(m@)),
{
    let mut i: usize = 0;
    while i < expected.len()
        invariant
            i <= expected@.len(),
            texts(failures@) == texts(old(failures)@) + osc_missing(
                texts(expected@.subrange(0, i as int)),
                osc_addresses(m@),
            ),
        decreases expected@.len() - i,
    {
        proof {
            let e = texts(expected@.subrange(0, i + 1));
            assert(e.drop_last() =~= texts(expected@.subrange(0, i as int)));
            assert(e.last() == expected@[i as int]@);
        }
        if !has_address(m, &expected[i]) {
            let mut s = String::from_str("expect_osc_addresses: missing '");
            s.append(expected[i].as_str());
            s.append("'");
            push_text(failures, s);
        }
        i = i + 1;
    }
    assert(expected@.subrange(0, expected@.len() as int) =~= expected@);
}

fn osc_message_total(m: &Vec<(String, u64)>) -> (r: u64)
    requires
        osc_total(m@) <= u64::MAX,
    ensures
        r == osc_total(m@),
{
    let mut total: u64 = 0;
    let mut j: usize = 0;
    while j < m.len()
        invariant
            j <= m@.len(),
            osc_total(m@) <= u64::MAX,
            total == osc_total(m@.subrange(0, j as int)),
        decreases m@.len() - j,
    {
        proof {
            assert(m@.subrange(0, j + 1).drop_last() =~= m@.subrange(0, j as int));
            lemma_osc_total_prefix(m@, j + 1);
        }
        total = total + m[j].1;
        j = j + 1;
    }
    assert(m@.subrange(0, m@.len() as int) =~= m@);
    total
}

proof fn lemma_osc_total_prefix(m: Seq<(String, u64)>, k: int)
    requires
        0 <= k <= m.len(),
    ensures
        osc_total(m.subrange(0, k)) <= osc_total(m),
    decreases m.len() - k,
{
    if k < m.len() {
        lemma_osc_total_prefix(m, k + 1);
        assert(m.subrange(0, k + 1).drop_last() =~= m.subrange(0, k));
    } else {
        assert(m.subrange(0, k) =~= m);
    }
}

fn push_connect(failures: &mut Vec<String>, max_ms: Option<u64>, secs: u64, nanos: u32)
    requires
        nanos < 1_000_000_000,
    ensures
        texts(final(failures)@) == texts(old(failures)@) + connect_failure(max_ms, secs, nanos),
{
    match max_ms {
        Some(m) => {
            if (secs as u128) * 1_000_000_000 + (nanos as u128) > (m as u128) * 1_000_000 {
                let mut s = String::from_str("max_connect_duration: expected <= ");
                push_decimal(&mut s, m);
                s.append(" ms, got ");
                let d = duration_debug(secs, nanos);
                s.append(d.as_str());
                push_text(failures, s);
                return;
            }
        },
        None => {},
    }
    assert(texts(failures@) =~= texts(old(failures)@) + connect_failure(max_ms, secs, nanos));
}

fn push_recording(failures: &mut Vec<String>, check: &Option<RecordingCheck>, measured: &Result<u64, String>)
    ensures
        texts(final(failures)@) == texts(old(failures)@) + recording_failure(*check, *measured),
{
    match check {
        Some(c) => match measured {
            Ok(total) => {
                if *total < c.min_bytes {
                    let mut s = String::from_str("expect_recording_files: ");
                    push_decimal(&mut s, *total);
                    s.append(" total bytes in ");
                    s.append(c.dir.as_str());
                    s.append(", want >= ");
                    push_decimal(&mut s, c.min_bytes);
                    push_text(failures, s);
                    return;
                }
            },
            Err(e) => {
                let mut s = String::from_str("expect_recording_files: failed to read '");
                s.append(c.dir.as_str());
                s.append("': ");
                s.append(e.as_str());
                push_text(failures, s);
                return;
            },
        },
        None => {},
    }
    assert(texts(failures@) =~= texts(old(failures)@) + recording_failure(*check, *measured));
}

/// The failure messages of a run: `stats` is what the client observed
/// (`None` when the handshake failed), `pin_rejected` whether the engine
/// refused the PIN, and `recording` the total size of the recording files
/// found, or the error met reading their directory (only read when a
/// recording check is set).
pub fn evaluate_assertions(
    a: &Assertions,
    stats: Option<&RunObservations>,
    pin_rejected: bool,
    recording: &Result<u64, String>,
) -> (failures: Vec<String>)
    requires
        stats matches Some(s) ==> s.connect_subsec_nanos < 1_000_000_000 && osc_total(s.osc_messages@) <= u64::MAX,
    ensures
        texts(failures@) == assertion_failures(
            *a,
            match stats {
                Some(s) => Some(*s),
                None => None,
            },
            pin_rejected,
            *recording,
        ),
{
    let mut failures: Vec<String> = Vec::new();
    match a.expect_pin_rejected {
        Some(expect) => {
            if expect != pin_rejected {
                let mut s = String::from_str("expect_pin_rejected=");
                s.append(bool_str(expect));
                s.append(", observed pin_rejected=");
                s.append(bool_str(pin_rejected));
                push_text(&mut failures, s);
            }
        },
        None => {},
    }
    assert(texts(failures@) =~= pin_failure(a.expect_pin_rejected, pin_rejected));
    let s = match stats {
        Some(s) => s,
        None => {
            return failures;
        },
    };
    push_min(&mut failures, "min_frames_decoded", a.min_frames_decoded, s.frames_decoded, "");
    push_min(&mut failures, "min_idr_frames", a.min_idr_frames, s.idr_frames_seen, "");
    push_min(&mut failures, "min_heartbeats_sent", a.min_heartbeats_sent, s.heartbeats_sent, "");
    push_min(&mut failures, "min_video_packets", a.min_video_packets, s.video_packets_received, "");
    push_min(
        &mut failures,
        "min_audio_packets",
        a.min_audio_packets,
        s.audio_packets_received,
        " (was receive_audio + synthetic_source on?)",
    );
    push_connect(&mut failures, a.max_connect_duration_ms, s.connect_secs, s.connect_subsec_nanos);
    push_min(&mut failures, "min_face_messages_sent", a.min_face_messages_sent, s.face_messages_sent, "");
    push_min(
        &mut failures,
        "min_haptic_events_received",
        a.min_haptic_events_received,
        s.haptic_events_received,
        "",
    );
    push_min(&mut failures, "min_sleep_enter_count", a.min_sleep_enter_count, s.sleep_enter_count, "");
    push_min(&mut failures, "min_sleep_exit_count", a.min_sleep_exit_count, s.sleep_exit_count, "");
    match &a.expect_osc_addresses {
        Some(expected) => push_osc_missing(&mut failures, expected, &s.osc_messages),
        None => {},
    }
    let total = osc_message_total(&s.osc_messages);
    push_min(&mut failures, "min_osc_messages", a.min_osc_messages, total, "");
    push_max(&mut failures, "max_video_packets", a.max_video_packets, s.video_packets_received);
    push_recording(&mut failures, &a.expect_recording_files, recording);
    push_min(
        &mut failures,
        "min_decode_latency_samples",
        a.min_decode_latency_samples,
        s.depacketize_samples_count,
        " (was measure_decode_latency on?)",
    );
    let p99_max: Option<u64> = match a.max_decode_latency_us_p99 {
        Some(m) => Some(m as u64),
        None => None,
    };
    push_max(&mut failures, "max_decode_latency_us_p99", p99_max, s.depacketize_latency_us_p99 as u64);
    failures
}

} // verus!
