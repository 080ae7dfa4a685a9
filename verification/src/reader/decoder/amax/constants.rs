//! AMax wire format: 64-bit big-endian words.

use vstd::prelude::*;

verus! {

pub const WORD_SIZE: usize = 8;

// Header word (word 0).
pub const LAST_WORD_SHIFT: u64 = 63;
pub const CHANNEL_SHIFT: u64 = 56;
pub const CHANNEL_MASK: u64 = 0x7F;
pub const SPECIAL_EVENT_SHIFT: u64 = 55;
pub const INFO_SHIFT: u64 = 51;
pub const INFO_MASK: u64 = 0xF;
/// 48-bit timestamp.
pub const TIMESTAMP_MASK: u64 = 0x0000_FFFF_FFFF_FFFF;

// Data word (word 1).
pub const WAVEFORM_FLAG_SHIFT: u64 = 62;
pub const FLAGS_B_SHIFT: u64 = 50;
pub const FLAGS_B_MASK: u64 = 0xFFF;
pub const FLAGS_A_SHIFT: u64 = 42;
pub const FLAGS_A_MASK: u64 = 0xFF;
pub const PSD_SHIFT: u64 = 26;
pub const PSD_MASK: u64 = 0xFFFF;
pub const FINE_TIME_SHIFT: u64 = 16;
pub const FINE_TIME_MASK: u64 = 0x3FF;
/// Fine time counts 1/1024 of a tick.
pub const FINE_TIME_SCALE: u64 = 1024;
pub const ENERGY_MASK: u64 = 0xFFFF;

/// One timestamp tick is 8 ns.
pub const TIME_STEP_NS: u64 = 8;

// User words.
pub const USER_LAST_WORD_SHIFT: u64 = 63;
pub const USER_DATA_MASK: u64 = 0x7FFF_FFFF_FFFF_FFFF;

// Waveform header.
pub const WAVEFORM_TRUNCATED_SHIFT: u64 = 63;
pub const WAVEFORM_WORDS_MASK: u64 = 0xFFF;

// Start / stop signals.
pub const SIGNAL_TYPE_SHIFT: u64 = 60;
pub const SIGNAL_SUBTYPE_SHIFT: u64 = 56;
pub const START_SIGNAL_TYPE: u64 = 0x3;
pub const START_SIGNAL_SUBTYPE: u64 = 0x0;
pub const STOP_SIGNAL_TYPE: u64 = 0x3;
pub const STOP_SIGNAL_SUBTYPE: u64 = 0x2;

// Sizes: header + data + two user words; start and stop signals.
pub const MIN_EVENT_SIZE: usize = 32;
pub const START_SIGNAL_SIZE: usize = 32;
pub const STOP_SIGNAL_SIZE: usize = 24;

} // verus!
