# streaming-engine

The PC side of a wireless VR streaming link, with its protocol logic written
in Verus and proved against its contracts.

## Layout

- `src/` — the verified library.
  - `protocol` — wire constants, flag words, little/big-endian encodings.
  - `transport` — RTP and FVP headers, the RTP packetizer and depacketizer,
    Reed-Solomon coding (`fec`, over `reed-solomon-erasure`), slicing.
  - `pipeline` — frames to FEC-protected packets (bulk, sliced or
    unprotected) and the receiver-side reassembler.
  - `control` — the control channel: message framing and dispatch, the
    pairing handshake and PIN lockout, heartbeats, haptics, the reconnect
    counters, and the TLS identity container (over `sha2` and `rcgen`).
  - `adaptive`, `thermal`, `sleep_mode`, `codec_benchmark` — the integer
    parts of rate adaptation, thermal zones, sleep detection and the codec
    benchmark.
  - `face_tracking`, `metrics`, `recording`, `audio`, `config`, `scenario`,
    `engine`, `text` — face-data parsing and OSC messages, latency, memory
    and session-log bookkeeping, Annex B and WAV framing, configuration
    checks, scenario assertions, and small helpers.
- `app/` — the runtime around the library: sockets, TLS, files, threads,
  serde configuration, and the floating-point estimators.
- `tests/` — tests of the library through its public interface.
