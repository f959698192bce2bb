pub mod heartbeat;
pub mod pairing;
pub mod reconnect;
pub mod session;
pub mod tls;
pub mod handshake;
pub mod haptic;
