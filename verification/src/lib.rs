//! Fixed-point MP3 decoder kernels: bitstream cache, frame-sync search,
//! scalar Q-format arithmetic, IMDCT building blocks and the polyphase
//! synthesis filterbank, with machine-checked contracts.

pub mod bits;
pub mod fdct;
pub mod frame;
pub mod imdct;
pub mod polyphase;
pub mod qmath;
pub mod sync;
