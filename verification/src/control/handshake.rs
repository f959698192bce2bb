//! The connection handshake on the control channel: HELLO, PIN pairing,
//! the stream configuration, STREAM_START. The caller reads and writes;
//! this decides what each received message calls for.

use vstd::prelude::*;
use crate::config::VideoConfig;
use crate::control::session::{frame_message, framed};
use crate::protocol::{
    le32, le32_at, push_le32, read_le32, VideoCodec, MSG_HELLO, MSG_HELLO_ACK, MSG_PIN_REQUEST, MSG_PIN_RESPONSE,
    MSG_PIN_RESULT, MSG_STREAM_CONFIG, MSG_STREAM_START,
};

verus! {

/// The STREAM_CONFIG payload: width and height per eye, bitrate (Mbps) and
/// framerate as u32 little-endian, then the codec (0 H.264, 1 H.265).
pub open spec fn stream_config_spec(v: VideoConfig) -> Seq<u8> {
    le32(v.resolution_per_eye[0]) + le32(v.resolution_per_eye[1]) + le32(v.bitrate_mbps) + le32(v.framerate) + seq![
        if v.codec == VideoCodec::H264 {
            0u8
        } else {
            1u8
        },
    ]
}

/// A headset reading STREAM_CONFIG gets the configuration back: 17 bytes,
/// width, height, bitrate and framerate as u32 little-endian at offsets 0,
/// 4, 8 and 12, and a last byte that is 0 exactly for H.264 and 1 exactly
/// for H.265.
pub proof fn lemma_stream_config_decodes(v: VideoConfig)
    ensures
        stream_config_spec(v).len() == 17,
        le32_at(stream_config_spec(v), 0) == v.resolution_per_eye[0],
        le32_at(stream_config_spec(v), 4) == v.resolution_per_eye[1],
        le32_at(stream_config_spec(v), 8) == v.bitrate_mbps,
        le32_at(stream_config_spec(v), 12) == v.framerate,
        (stream_config_spec(v)[16] == 0) <==> v.codec == VideoCodec::H264,
        (stream_config_spec(v)[16] == 1) <==> v.codec == VideoCodec::H265,
{
    let b = stream_config_spec(v);
    assert(b.subrange(0, 4) =~= le32(v.resolution_per_eye[0]));
    assert(b.subrange(4, 8) =~= le32(v.resolution_per_eye[1]));
    assert(b.subrange(8, 12) =~= le32(v.bitrate_mbps));
    assert(b.subrange(12, 16) =~= le32(v.framerate));
    crate::protocol::lemma_le32_roundtrip(v.resolution_per_eye[0], b, 0);
    crate::protocol::lemma_le32_roundtrip(v.resolution_per_eye[1], b, 4);
    crate::protocol::lemma_le32_roundtrip(v.bitrate_mbps, b, 8);
    crate::protocol::lemma_le32_roundtrip(v.framerate, b, 12);
}

pub fn encode_stream_config(v: &VideoConfig) -> (r: Vec<u8>)
    ensures
        r@ == stream_config_spec(*v),
{
    let mut buf: Vec<u8> = Vec::with_capacity(17);
    push_le32(&mut buf, v.resolution_per_eye[0]);
    push_le32(&mut buf, v.resolution_per_eye[1]);
    push_le32(&mut buf, v.bitrate_mbps);
    push_le32(&mut buf, v.framerate);
    let codec: u8 = match v.codec {
        VideoCodec::H264 => 0,
        VideoCodec::H265 => 1,
    };
    buf.push(codec);
    assert(buf@ =~= stream_config_spec(*v));
    buf
}

/// Where a handshake stands.
#[derive(Debug, Clone, Copy, PartialEq, Eq, Structural)]
pub enum HandshakePhase {
    AwaitHello,
    AwaitPinResponse,
    /// A PIN was read; its check is the caller's.
    AwaitPinCheck,
    AwaitStreamStart,
    Complete,
    Failed,
}

/// What the caller does next.
#[derive(Debug)]
pub enum HandshakeReply {
    /// Send these framed messages, then read the next one.
    Send(Vec<Vec<u8>>),
    /// Check this PIN and report with `pin_checked`.
    CheckPin(u32),
    /// The handshake is complete: stream.
    Ready,
    /// Send these framed messages, then give up with this reason.
    SendThenFail(Vec<Vec<u8>>, &'static str),
    /// Give up with this reason.
    Fail(&'static str),
}

pub open spec fn frames_view(fs: Seq<Vec<u8>>) -> Seq<Seq<u8>> {
    fs.map_values(|f: Vec<u8>| f@)
}

/// The handshake of one connection, for the configured video stream.
pub struct Handshake {
    phase: HandshakePhase,
    video: VideoConfig,
}

impl Handshake {
    pub closed spec fn phase_spec(&self) -> HandshakePhase {
        self.phase
    }

    pub closed spec fn video_spec(&self) -> VideoConfig {
        self.video
    }

    pub fn new(video: VideoConfig) -> (r: Self)
        ensures
            r.phase_spec() == HandshakePhase::AwaitHello,
            r.video_spec() == video,
    {
        Handshake { phase: HandshakePhase::AwaitHello, video }
    }

    pub fn phase(&self) -> (r: HandshakePhase)
        ensures
            r == self.phase_spec(),
    {
        self.phase
    }

    /// A message arrived. HELLO is answered with HELLO_ACK `[1, 0]` and a
    /// PIN_REQUEST; a PIN_RESPONSE of at least four bytes hands its
    /// little-endian PIN to the caller; STREAM_START completes. Anything
    /// else, or anything after the end, fails the handshake.
    pub fn on_message(&mut self, msg_type: u8, payload: &[u8]) -> (r: HandshakeReply)
        ensures
            final(self).video_spec() == old(self).video_spec(),
            old(self).phase_spec() == HandshakePhase::AwaitHello ==> if msg_type == MSG_HELLO {
                &&& final(self).phase_spec() == HandshakePhase::AwaitPinResponse
                &&& (r matches HandshakeReply::Send(fs) && frames_view(fs@) == seq![
                    framed(MSG_HELLO_ACK, seq![1u8, 0u8]),
                    framed(MSG_PIN_REQUEST, Seq::empty()),
                ])
            } else {
                final(self).phase_spec() == HandshakePhase::Failed && (r matches HandshakeReply::Fail(m)
                    && m@ == "Expected HELLO"@)
            },
            old(self).phase_spec() == HandshakePhase::AwaitPinResponse ==> if msg_type == MSG_PIN_RESPONSE
                && payload@.len() >= 4 {
                final(self).phase_spec() == HandshakePhase::AwaitPinCheck && r == HandshakeReply::CheckPin(
                    le32_at(payload@, 0),
                )
            } else {
                final(self).phase_spec() == HandshakePhase::Failed && (r matches HandshakeReply::Fail(m)
                    && m@ == "Expected PIN_RESPONSE (4 bytes)"@)
            },
            old(self).phase_spec() == HandshakePhase::AwaitStreamStart ==> if msg_type == MSG_STREAM_START {
                final(self).phase_spec() == HandshakePhase::Complete && r is Ready
            } else {
                final(self).phase_spec() == HandshakePhase::Failed && (r matches HandshakeReply::Fail(m)
                    && m@ == "Expected STREAM_START"@)
            },
            (old(self).phase_spec() == HandshakePhase::AwaitPinCheck || old(self).phase_spec()
                == HandshakePhase::Complete || old(self).phase_spec() == HandshakePhase::Failed)
                ==> final(self).phase_spec() == HandshakePhase::Failed
                && (r matches HandshakeReply::Fail(m) && m@ == "Unexpected message"@),
    {
        match self.phase {
            HandshakePhase::AwaitHello => {
                if msg_type == MSG_HELLO {
                    self.phase = HandshakePhase::AwaitPinResponse;
                    let ack_payload: [u8; 2] = [1, 0];
                    let empty: [u8; 0] = [];
                    let ack = frame_message(MSG_HELLO_ACK, &ack_payload);
                    let request = frame_message(MSG_PIN_REQUEST, &empty);
                    proof {
                        assert(ack_payload@ =~= seq![1u8, 0u8]);
                        assert(empty@ =~= Seq::<u8>::empty());
                    }
                    let mut frames: Vec<Vec<u8>> = Vec::new();
                    frames.push(ack);
                    frames.push(request);
                    proof {
                        assert(frames_view(frames@) =~= seq![
                            framed(MSG_HELLO_ACK, seq![1u8, 0u8]),
                            framed(MSG_PIN_REQUEST, Seq::empty()),
                        ]);
                    }
                    HandshakeReply::Send(frames)
                } else {
                    self.phase = HandshakePhase::Failed;
                    HandshakeReply::Fail("Expected HELLO")
                }
            },
            HandshakePhase::AwaitPinResponse => {
                if msg_type == MSG_PIN_RESPONSE && payload.len() >= 4 {
                    self.phase = HandshakePhase::AwaitPinCheck;
                    HandshakeReply::CheckPin(read_le32(payload, 0))
                } else {
                    self.phase = HandshakePhase::Failed;
                    HandshakeReply::Fail("Expected PIN_RESPONSE (4 bytes)")
                }
            },
            HandshakePhase::AwaitStreamStart => {
                if msg_type == MSG_STREAM_START {
                    self.phase = HandshakePhase::Complete;
                    HandshakeReply::Ready
                } else {
                    self.phase = HandshakePhase::Failed;
                    HandshakeReply::Fail("Expected STREAM_START")
                }
            },
            _ => {
                self.phase = HandshakePhase::Failed;
                HandshakeReply::Fail("Unexpected message")
            },
        }
    }

    /// The outcome of the PIN check. Accepted: PIN_RESULT `[1]` and the
    /// STREAM_CONFIG, then STREAM_START is awaited. Refused: PIN_RESULT
    /// `[0]`, and the handshake fails.
    pub fn pin_checked(&mut self, accepted: bool) -> (r: HandshakeReply)
        requires
            old(self).phase_spec() == HandshakePhase::AwaitPinCheck,
        ensures
            final(self).video_spec() == old(self).video_spec(),
            accepted ==> final(self).phase_spec() == HandshakePhase::AwaitStreamStart
                && (r matches HandshakeReply::Send(fs) && frames_view(fs@) == seq![
                framed(MSG_PIN_RESULT, seq![1u8]),
                framed(MSG_STREAM_CONFIG, stream_config_spec(old(self).video_spec())),
            ]),
            !accepted ==> final(self).phase_spec() == HandshakePhase::Failed
                && (r matches HandshakeReply::SendThenFail(fs, m)
                && frames_view(fs@) == seq![framed(MSG_PIN_RESULT, seq![0u8])] && m@ == "PIN verification failed"@),
    {
        let result: [u8; 1] = [if accepted {
            1
        } else {
            0
        }];
        let pin_result = frame_message(MSG_PIN_RESULT, &result);
        proof {
            assert(result@ =~= seq![if accepted {
                1u8
            } else {
                0u8
            }]);
        }
        let mut frames: Vec<Vec<u8>> = Vec::new();
        frames.push(pin_result);
        if accepted {
            let config = encode_stream_config(&self.video);
            frames.push(frame_message(MSG_STREAM_CONFIG, config.as_slice()));
            self.phase = HandshakePhase::AwaitStreamStart;
            proof {
                assert(frames_view(frames@) =~= seq![
                    framed(MSG_PIN_RESULT, seq![1u8]),
                    framed(MSG_STREAM_CONFIG, stream_config_spec(self.video)),
                ]);
            }
            HandshakeReply::Send(frames)
        } else {
            self.phase = HandshakePhase::Failed;
            proof {
                assert(frames_view(frames@) =~= seq![framed(MSG_PIN_RESULT, seq![0u8])]);
            }
            HandshakeReply::SendThenFail(frames, "PIN verification failed")
        }
    }
}

} // verus!
