//! Decoders for CAEN digitizer raw data.

pub mod amax;
pub mod common;
pub mod dualchannel_common;
pub mod kind;
pub mod pha1;
pub mod pha2;
pub mod psd1_pha1_common;
pub mod psd1;
pub mod psd2;
pub mod rollover;
