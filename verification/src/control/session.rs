//! The control channel's decisions: message framing, and what each
//! received message calls for. Reading, writing and the callbacks the
//! answers trigger are the caller's.

use vstd::prelude::*;
use crate::face_tracking::osc::parse_face_data_bits;
use crate::protocol::{
    le16_at, le32, le32_at, push_bytes, push_le32, read_le16, read_le32, MAX_MSG_LEN, MSG_CONFIG_UPDATE,
    MSG_CONFIG_UPDATE_ACK, MSG_DISCONNECT, MSG_FACE_DATA, MSG_HEARTBEAT, MSG_HEARTBEAT_ACK,
    MSG_IDR_REQUEST, MSG_TRANSPORT_FEEDBACK,
};
use crate::transport::fec::copy_bytes;

verus! {

/// Why a control session ended.
#[derive(Debug, Clone, Copy, PartialEq, Eq, Structural)]
pub enum DisconnectReason {
    /// The client sent DISCONNECT.
    ClientRequested,
    /// The connection dropped (read error, end of stream).
    ConnectionLost,
    /// The client broke the framing (oversized message).
    ProtocolError,
}

/// A framed control message: u32 little-endian length of type and
/// payload, the type byte, the payload.
pub open spec fn framed(msg_type: u8, payload: Seq<u8>) -> Seq<u8> {
    le32((payload.len() + 1) as u32) + seq![msg_type] + payload
}

/// Frame a control message for sending.
pub fn frame_message(msg_type: u8, payload: &[u8]) -> (r: Vec<u8>)
    requires
        payload@.len() < u32::MAX,
    ensures
        r@ == framed(msg_type, payload@),
{
    let mut r: Vec<u8> = Vec::new();
    push_le32(&mut r, (payload.len() + 1) as u32);
    r.push(msg_type);
    push_bytes(&mut r, payload);
    assert(r@ =~= framed(msg_type, payload@));
    r
}

/// What a received length prefix calls for.
#[derive(Debug, Clone, Copy, PartialEq, Eq, Structural)]
pub enum FrameLength {
    /// An empty message: read the next prefix.
    Skip,
    /// Over `MAX_MSG_LEN`: a protocol error, the session ends.
    TooLarge,
    /// Read a message of this many bytes.
    Body(usize),
}

pub fn classify_frame_length(len: u32) -> (r: FrameLength)
    ensures
        r == if len == 0 {
            FrameLength::Skip
        } else if len > MAX_MSG_LEN {
            FrameLength::TooLarge
        } else {
            FrameLength::Body(len as usize)
        },
{
    if len == 0 {
        FrameLength::Skip
    } else if len as usize > MAX_MSG_LEN {
        FrameLength::TooLarge
    } else {
        FrameLength::Body(len as usize)
    }
}

/// Receive statistics a heartbeat carries.
#[derive(Debug, Clone, Copy, PartialEq, Eq, Structural)]
pub struct HmdStats {
    pub packets_received: u32,
    pub packets_lost: u32,
    pub avg_decode_us: u32,
    pub fps: u16,
}

/// Heartbeat payload bytes below which no statistics are read.
pub const HEARTBEAT_MIN_PAYLOAD: usize = 26;

/// Where the statistics start in a heartbeat payload.
pub const HEARTBEAT_STATS_OFFSET: usize = 12;

/// The statistics of a heartbeat payload of at least 26 bytes: three u32
/// and a u16, little-endian, from byte 12.
pub open spec fn heartbeat_stats_spec(p: Seq<u8>) -> Option<HmdStats> {
    if p.len() < HEARTBEAT_MIN_PAYLOAD {
        None
    } else {
        Some(
            HmdStats {
                packets_received: le32_at(p, 12),
                packets_lost: le32_at(p, 16),
                avg_decode_us: le32_at(p, 20),
                fps: le16_at(p, 24),
            },
        )
    }
}

pub fn parse_heartbeat_stats(payload: &[u8]) -> (r: Option<HmdStats>)
    ensures
        r == heartbeat_stats_spec(payload@),
{
    if payload.len() < HEARTBEAT_MIN_PAYLOAD {
        return None;
    }
    Some(
        HmdStats {
            packets_received: read_le32(payload, 12),
            packets_lost: read_le32(payload, 16),
            avg_decode_us: read_le32(payload, 20),
            fps: read_le16(payload, 24),
        },
    )
}

/// A setting the headset asked to change.
#[derive(Debug, Clone, Copy, PartialEq, Eq, Structural)]
pub enum ConfigChange {
    /// New bitrate, in bps.
    BitrateBps(u32),
    /// Codec: 0 H.264, otherwise H.265 (applied at the next stream start).
    Codec(u32),
    /// Session recording on or off.
    Recording(bool),
    /// Audio recording on or off.
    AudioRecording(bool),
}

/// A configuration request `(key, value)`: the change it makes, if any, and
/// the acknowledgement status (1 accepted, 0 rejected). Bitrate (key 1)
/// within 10-200 Mbps; codec (key 2) always; recording (key 3) and audio
/// recording (key 5) for the values 0 and 1.
pub open spec fn config_request_spec(key: u8, value: u32) -> (Option<ConfigChange>, u8) {
    if key == 1 {
        if 10 <= value <= 200 {
            (Some(ConfigChange::BitrateBps((value * 1_000_000) as u32)), 1)
        } else {
            (None, 0)
        }
    } else if key == 2 {
        (Some(ConfigChange::Codec(value)), 1)
    } else if key == 3 {
        if value <= 1 {
            (Some(ConfigChange::Recording(value == 1)), 1)
        } else {
            (None, 0)
        }
    } else if key == 5 {
        if value <= 1 {
            (Some(ConfigChange::AudioRecording(value == 1)), 1)
        } else {
            (None, 0)
        }
    } else {
        (None, 0)
    }
}

/// What a configuration request does: it is acknowledged (status 1)
/// exactly when it makes a change. Bitrate (key 1) is accepted within
/// 10-200 Mbps and set to that many million bps; the codec (key 2) is always
/// taken; the recording and audio recording switches (keys 3 and 5) accept
/// 0 (off) and 1 (on) and are set on exactly for 1; anything else is refused
/// and changes nothing.
pub proof fn lemma_config_request_meaning(key: u8, value: u32)
    ensures
        (config_request_spec(key, value).1 == 1) <==> config_request_spec(key, value).0 is Some,
        (config_request_spec(key, value).1 == 0) <==> config_request_spec(key, value).0 is None,
        key == 1 && 10 <= value <= 200 ==> config_request_spec(key, value) == (
            Some(ConfigChange::BitrateBps((value * 1_000_000) as u32)),
            1u8,
        ),
        key == 1 && !(10 <= value <= 200) ==> config_request_spec(key, value) == (None::<ConfigChange>, 0u8),
        key == 2 ==> config_request_spec(key, value) == (Some(ConfigChange::Codec(value)), 1u8),
        key == 3 && value <= 1 ==> config_request_spec(key, value) == (
            Some(ConfigChange::Recording(value == 1)),
            1u8,
        ),
        key == 5 && value <= 1 ==> config_request_spec(key, value) == (
            Some(ConfigChange::AudioRecording(value == 1)),
            1u8,
        ),
        (key == 3 || key == 5) && value > 1 ==> config_request_spec(key, value) == (None::<ConfigChange>, 0u8),
        key != 1 && key != 2 && key != 3 && key != 5 ==> config_request_spec(key, value) == (
            None::<ConfigChange>,
            0u8,
        ),
        config_request_spec(key, value).0 matches Some(ConfigChange::BitrateBps(bps)) ==> key == 1 && bps
            == value * 1_000_000,
        config_request_spec(key, value).0 matches Some(ConfigChange::AudioRecording(on)) ==> key == 5 && (on
            <==> value == 1),
        config_request_spec(key, value).0 matches Some(ConfigChange::Recording(on)) ==> key == 3 && (on <==> value
            == 1),
{
}

pub fn config_request(key: u8, value: u32) -> (r: (Option<ConfigChange>, u8))
    ensures
        r == config_request_spec(key, value),
{
    if key == 1 {
        if 10 <= value && value <= 200 {
            (Some(ConfigChange::BitrateBps(value * 1_000_000)), 1)
        } else {
            (None, 0)
        }
    } else if key == 2 {
        (Some(ConfigChange::Codec(value)), 1)
    } else if key == 3 {
        if value <= 1 {
            (Some(ConfigChange::Recording(value == 1)), 1)
        } else {
            (None, 0)
        }
    } else if key == 5 {
        if value <= 1 {
            (Some(ConfigChange::AudioRecording(value == 1)), 1)
        } else {
            (None, 0)
        }
    } else {
        (None, 0)
    }
}

/// What one received control message calls for.
#[derive(Debug)]
pub enum ControlAction {
    /// Nothing: unknown type, rate-limited, or too short.
    Nothing,
    /// Ask the encoder for an IDR frame.
    RequestIdr,
    /// Forward the statistics and send the framed acknowledgement.
    Heartbeat { stats: HmdStats, ack: Vec<u8> },
    /// Forward face data (value bit patterns) to the OSC bridge.
    FaceData { lip_valid: bool, eye_valid: bool, lip: Vec<u32>, eye: Vec<u32> },
    /// Face data too short to parse.
    FaceDataInvalid,
    /// Hand the transport feedback payload to the delay estimator.
    TransportFeedback(Vec<u8>),
    /// Apply the change, if any, and send the framed acknowledgement.
    ConfigUpdate { change: Option<ConfigChange>, ack: Vec<u8> },
    /// The client disconnected: end the session.
    Disconnect(DisconnectReason),
}

/// IDR requests closer together than this are dropped.
pub const IDR_MIN_INTERVAL_US: u64 = 500_000;

/// Configuration requests closer together than this are dropped.
pub const CONFIG_UPDATE_MIN_INTERVAL_US: u64 = 1_000_000;

/// Whether at least `interval_us` passed since `last_us` (always, if never).
pub open spec fn interval_passed(last_us: Option<u64>, now_us: u64, interval_us: u64) -> bool {
    match last_us {
        None => true,
        Some(l) => (if now_us >= l { now_us - l } else { 0 }) >= interval_us,
    }
}

fn interval_passed_exec(last_us: Option<u64>, now_us: u64, interval_us: u64) -> (r: bool)
    ensures
        r == interval_passed(last_us, now_us, interval_us),
{
    match last_us {
        None => true,
        Some(l) => now_us.saturating_sub(l) >= interval_us,
    }
}

/// Rate limits: once an IDR request was served at `served_us`, every IDR
/// request before `served_us + IDR_MIN_INTERVAL_US` is dropped, and once a
/// configuration request was taken at `served_us`, every one before
/// `served_us + CONFIG_UPDATE_MIN_INTERVAL_US` is; from those times on the
/// next is served.
pub proof fn lemma_rate_limits(served_us: u64, now_us: u64)
    requires
        served_us <= now_us,
    ensures
        now_us < served_us + IDR_MIN_INTERVAL_US <==> !interval_passed(Some(served_us), now_us, IDR_MIN_INTERVAL_US),
        now_us < served_us + CONFIG_UPDATE_MIN_INTERVAL_US <==> !interval_passed(
            Some(served_us),
            now_us,
            CONFIG_UPDATE_MIN_INTERVAL_US,
        ),
{
}

/// Rate-limiting state of a control session.
pub struct ControlState {
    last_idr_us: Option<u64>,
    last_config_us: Option<u64>,
    idr_suppressed: u64,
}

impl ControlState {
    pub closed spec fn last_idr_spec(&self) -> Option<u64> {
        self.last_idr_us
    }

    pub closed spec fn last_config_spec(&self) -> Option<u64> {
        self.last_config_us
    }

    pub closed spec fn suppressed_spec(&self) -> u64 {
        self.idr_suppressed
    }

    pub fn new() -> (r: Self)
        ensures
            r.last_idr_spec() is None,
            r.last_config_spec() is None,
            r.suppressed_spec() == 0,
    {
        ControlState { last_idr_us: None, last_config_us: None, idr_suppressed: 0 }
    }

    /// IDR requests dropped by the rate limit so far (wrapping).
    pub fn idr_suppressed(&self) -> (r: u64)
        ensures
            r == self.suppressed_spec(),
    {
        self.idr_suppressed
    }

    /// Decide what a received message (type byte, then payload) calls for
    /// at `now_us`; `encode_us` and `total_us` are the PC-side latencies a
    /// heartbeat acknowledgement reports.
    #[verifier::rlimit(30)]
    pub fn on_message(&mut self, msg: &[u8], now_us: u64, encode_us: u32, total_us: u32) -> (r: ControlAction)
        requires
            msg@.len() >= 1,
            msg@.len() <= MAX_MSG_LEN,
        ensures
            ({
                let t = msg@[0];
                let p = msg@.subrange(1, msg@.len() as int);
                &&& t == MSG_IDR_REQUEST ==> {
                    let fire = interval_passed(old(self).last_idr_spec(), now_us, IDR_MIN_INTERVAL_US);
                    &&& fire ==> r is RequestIdr && final(self).last_idr_spec() == Some(now_us)
                        && final(self).suppressed_spec() == old(self).suppressed_spec()
                    &&& !fire ==> r is Nothing && final(self).last_idr_spec() == old(self).last_idr_spec()
                        && final(self).suppressed_spec() == (old(self).suppressed_spec() + 1) % 0x1_0000_0000_0000_0000
                    &&& final(self).last_config_spec() == old(self).last_config_spec()
                }
                &&& t != MSG_IDR_REQUEST ==> final(self).last_idr_spec() == old(self).last_idr_spec()
                    && final(self).suppressed_spec() == old(self).suppressed_spec()
                &&& t == MSG_HEARTBEAT ==> match heartbeat_stats_spec(p) {
                    Some(s) => (r matches ControlAction::Heartbeat { stats, ack } && stats == s && ack@ == framed(
                        MSG_HEARTBEAT_ACK,
                        le32(encode_us) + le32(total_us),
                    )),
                    None => r is Nothing,
                }
                &&& t == MSG_FACE_DATA ==> match crate::face_tracking::osc::face_data_spec(p) {
                    Some((lv, ev, lip, eye)) => (r matches ControlAction::FaceData { lip_valid, eye_valid, lip: l, eye: e }
                        && lip_valid == lv && eye_valid == ev && l@ == lip && e@ == eye),
                    None => r is FaceDataInvalid,
                }
                &&& t == MSG_TRANSPORT_FEEDBACK ==> (r matches ControlAction::TransportFeedback(b) && b@ == p)
                &&& t == MSG_CONFIG_UPDATE ==> {
                    let allowed = interval_passed(old(self).last_config_spec(), now_us, CONFIG_UPDATE_MIN_INTERVAL_US);
                    &&& (allowed && p.len() >= 5) ==> {
                        let (change, status) = config_request_spec(p[0], le32_at(p, 1));
                        &&& (r matches ControlAction::ConfigUpdate { change: c, ack } && c == change && ack@
                            == framed(MSG_CONFIG_UPDATE_ACK, seq![status, p[0]]))
                        &&& final(self).last_config_spec() == Some(now_us)
                    }
                    &&& !(allowed && p.len() >= 5) ==> r is Nothing && final(self).last_config_spec()
                        == old(self).last_config_spec()
                }
                &&& t != MSG_CONFIG_UPDATE ==> final(self).last_config_spec() == old(self).last_config_spec()
                &&& t == MSG_DISCONNECT ==> (r matches ControlAction::Disconnect(DisconnectReason::ClientRequested))
                &&& (t != MSG_IDR_REQUEST && t != MSG_HEARTBEAT && t != MSG_FACE_DATA && t != MSG_TRANSPORT_FEEDBACK
                    && t != MSG_CONFIG_UPDATE && t != MSG_DISCONNECT) ==> r is Nothing
            }),
    {
        let msg_type = msg[0];
        let payload = vstd::slice::slice_subrange(msg, 1, msg.len());
        if msg_type == MSG_IDR_REQUEST {
            if interval_passed_exec(self.last_idr_us, now_us, IDR_MIN_INTERVAL_US) {
                self.last_idr_us = Some(now_us);
                ControlAction::RequestIdr
            } else {
                self.idr_suppressed = self.idr_suppressed.wrapping_add(1);
                ControlAction::Nothing
            }
        } else if msg_type == MSG_HEARTBEAT {
            match parse_heartbeat_stats(payload) {
                Some(stats) => {
                    let mut ack_payload: Vec<u8> = Vec::with_capacity(8);
                    push_le32(&mut ack_payload, encode_us);
                    push_le32(&mut ack_payload, total_us);
                    let ack = frame_message(MSG_HEARTBEAT_ACK, ack_payload.as_slice());
                    ControlAction::Heartbeat { stats, ack }
                },
                None => ControlAction::Nothing,
            }
        } else if msg_type == MSG_FACE_DATA {
            match parse_face_data_bits(payload) {
                Some((lip_valid, eye_valid, lip, eye)) => ControlAction::FaceData { lip_valid, eye_valid, lip, eye },
                None => ControlAction::FaceDataInvalid,
            }
        } else if msg_type == MSG_TRANSPORT_FEEDBACK {
            ControlAction::TransportFeedback(copy_bytes(payload))
        } else if msg_type == MSG_CONFIG_UPDATE {
            if !interval_passed_exec(self.last_config_us, now_us, CONFIG_UPDATE_MIN_INTERVAL_US) {
                return ControlAction::Nothing;
            }
            if payload.len() < 5 {
                return ControlAction::Nothing;
            }
            self.last_config_us = Some(now_us);
            let key = payload[0];
            let value = read_le32(payload, 1);
            let (change, status) = config_request(key, value);
            let ack_payload: [u8; 2] = [status, key];
            let ack = frame_message(MSG_CONFIG_UPDATE_ACK, &ack_payload);
            assert(ack_payload@ =~= seq![status, key]);
            ControlAction::ConfigUpdate { change, ack }
        } else if msg_type == MSG_DISCONNECT {
            ControlAction::Disconnect(DisconnectReason::ClientRequested)
        } else {
            ControlAction::Nothing
        }
    }
}

} // verus!
