//! Probe-type codes of the AMax debug firmware, in a namespace of their
//! own (0x40 upwards) beside the PHA2 codes and `UNKNOWN_PROBE_TYPE`.

use vstd::prelude::*;

verus! {

pub const ANA_RAW: u8 = 0x40;
pub const ANA_TRAP: u8 = 0x41;
pub const ANA_TRIANGLE: u8 = 0x42;

pub const DIG_TRIGGER_OUT: u8 = 0x40;
pub const DIG_BL_HOLD: u8 = 0x41;
pub const DIG_ENERGY_DV: u8 = 0x42;
pub const DIG_SHAPING_DV: u8 = 0x43;
pub const DIG_SHAPING_TRACK: u8 = 0x44;

} // verus!
