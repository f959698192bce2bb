pub mod slice;
pub mod rtp;
pub mod fec;
pub mod loss;
