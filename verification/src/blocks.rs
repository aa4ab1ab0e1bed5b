//! Sample storage: the summary pyramid, the two block variants, and the
//! block sequences that compose one channel.

pub mod mips;
pub mod block;
pub mod sequence;
