//! Palette-indexed image streaming to a register-style pixel device: pixel
//! packing, frame-aware run-length coding, the transmission protocol, and the
//! coalescing hand-off queue used between the interface and worker threads.

pub mod image;
pub mod message;
pub mod mq;
pub mod osc;
pub mod pack;
pub mod palette;
pub mod rgba;
pub mod rle;
pub mod transmit;
pub mod worker;
