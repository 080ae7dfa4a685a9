//! PSD2 decoder for CAEN x27xx digitizers (DPP-PSD): the DIG2 RAW framing
//! with `charge_short` at bits[41:26] of the event second word and unsigned
//! waveform samples without probe-type metadata.

use vstd::prelude::*;

use super::dualchannel_common::{Dig2Config, Dig2Decoder, Dig2Variant, WaveformMetadata};

verus! {

/// Position of `charge_short` in the event second word.
pub const ENERGY_SHORT_SHIFT: u64 = 26;
pub const ENERGY_SHORT_MASK: u64 = 0xFFFF;

/// Configuration of the PSD2 decoder.
pub type Psd2Config = Dig2Config;

/// PSD2 decoder.
pub type Psd2Decoder = Dig2Decoder<Psd2Variant>;

/// Per-firmware customization for VX27xx DPP-PSD.
pub struct Psd2Variant;

impl Psd2Variant {
    pub const FW_NAME: &'static str = "PSD2";
}

impl Dig2Variant for Psd2Variant {
    open spec fn spec_energy_short(second_word: u64) -> u16 {
        ((second_word >> ENERGY_SHORT_SHIFT) & ENERGY_SHORT_MASK) as u16
    }

    open spec fn spec_waveform_metadata(wf_header: u64) -> WaveformMetadata {
        WaveformMetadata::spec_default()
    }

    open spec fn spec_fw_name() -> Seq<char> {
        "PSD2"@
    }

    fn fw_name() -> (r: &'static str) {
        "PSD2"
    }

    /// `charge_short` from bits[41:26].
    fn decode_energy_short(second_word: u64) -> (r: u16) {
        ((second_word >> ENERGY_SHORT_SHIFT) & ENERGY_SHORT_MASK) as u16
    }

    /// PSD2 carries no probe metadata: all unsigned, all types unknown.
    fn parse_waveform_metadata(wf_header: u64) -> (m: WaveformMetadata) {
        WaveformMetadata::default()
    }
}

/// PSD2's `energy_short` is the 16 bits [41:26] of the event's second
/// word.
pub proof fn law_psd2_energy_short_bits(w: u64)
    ensures
        Psd2Variant::spec_energy_short(w) as u64 == (w >> 26u64) & 0xFFFF,
{
    assert((w >> 26u64) & 0xFFFF <= 0xFFFF) by (bit_vector);
}

} // verus!
