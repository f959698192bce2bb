pub mod latency;

pub mod memory;
pub mod session_log;
