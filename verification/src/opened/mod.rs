//! Identity of opened waveform generations.

pub mod fst;
pub mod identity;
pub mod metadata;
