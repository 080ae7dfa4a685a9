//! PHA2 decoder for CAEN x274x digitizers (DPP-PHA): the DIG2 RAW framing
//! with an unused `energy_short` slot and probe metadata in the low bits of
//! the waveform header:
//!
//! - bits[5:0]   analog probe 0: `type[2:0] | is_signed[3] | factor[5:4]`
//! - bits[11:6]  analog probe 1, same layout
//! - bits[15+4N : 12+4N] digital probe N type

use vstd::prelude::*;

use super::dualchannel_common::{Dig2Config, Dig2Decoder, Dig2Variant, WaveformMetadata};

verus! {

pub const ANALOG_PROBE0_INFO_SHIFT: u64 = 0;
pub const ANALOG_PROBE1_INFO_SHIFT: u64 = 6;
pub const ANALOG_PROBE_INFO_MASK: u64 = 0x3F;
pub const ANALOG_PROBE_IS_SIGNED_BIT: u64 = 0x08;
pub const ANALOG_PROBE_TYPE_MASK: u64 = 0x07;
pub const DIGITAL_PROBE0_INFO_SHIFT: u64 = 12;
pub const DIGITAL_PROBE1_INFO_SHIFT: u64 = 16;
pub const DIGITAL_PROBE2_INFO_SHIFT: u64 = 20;
pub const DIGITAL_PROBE3_INFO_SHIFT: u64 = 24;
pub const DIGITAL_PROBE_INFO_MASK: u64 = 0x0F;

/// Configuration of the PHA2 decoder.
pub type Pha2Config = Dig2Config;

/// PHA2 decoder.
pub type Pha2Decoder = Dig2Decoder<Pha2Variant>;

/// Per-firmware customization for VX274x DPP-PHA.
pub struct Pha2Variant;

impl Pha2Variant {
    pub const FW_NAME: &'static str = "PHA2";
}

/// The 6-bit info slot of analog probe `shift / 6`.
pub open spec fn analog_info(h: u64, shift: u64) -> u64 {
    (h >> shift) & ANALOG_PROBE_INFO_MASK
}

/// The 4-bit type of the digital probe at `shift`.
pub open spec fn digital_type(h: u64, shift: u64) -> u8 {
    ((h >> shift) & DIGITAL_PROBE_INFO_MASK) as u8
}

impl Dig2Variant for Pha2Variant {
    open spec fn spec_energy_short(second_word: u64) -> u16 {
        0
    }

    open spec fn spec_waveform_metadata(h: u64) -> WaveformMetadata {
        WaveformMetadata {
            analog_probe1_is_signed: analog_info(h, ANALOG_PROBE0_INFO_SHIFT)
                & ANALOG_PROBE_IS_SIGNED_BIT != 0,
            analog_probe2_is_signed: analog_info(h, ANALOG_PROBE1_INFO_SHIFT)
                & ANALOG_PROBE_IS_SIGNED_BIT != 0,
            analog_probe_type: [
                (analog_info(h, ANALOG_PROBE0_INFO_SHIFT) & ANALOG_PROBE_TYPE_MASK) as u8,
                (analog_info(h, ANALOG_PROBE1_INFO_SHIFT) & ANALOG_PROBE_TYPE_MASK) as u8,
            ],
            digital_probe_type: [
                digital_type(h, DIGITAL_PROBE0_INFO_SHIFT),
                digital_type(h, DIGITAL_PROBE1_INFO_SHIFT),
                digital_type(h, DIGITAL_PROBE2_INFO_SHIFT),
                digital_type(h, DIGITAL_PROBE3_INFO_SHIFT),
            ],
        }
    }

    open spec fn spec_fw_name() -> Seq<char> {
        "PHA2"@
    }

    fn fw_name() -> (r: &'static str) {
        "PHA2"
    }

    /// PHA2 leaves the slot unused: always 0.
    fn decode_energy_short(second_word: u64) -> (r: u16) {
        0
    }

    /// Parse the probe metadata from the waveform-header low 16 bits.
    fn parse_waveform_metadata(wf_header: u64) -> (m: WaveformMetadata) {
        let ap0_info = (wf_header >> ANALOG_PROBE0_INFO_SHIFT) & ANALOG_PROBE_INFO_MASK;
        let ap1_info = (wf_header >> ANALOG_PROBE1_INFO_SHIFT) & ANALOG_PROBE_INFO_MASK;
        let analog_probe1_is_signed = (ap0_info & ANALOG_PROBE_IS_SIGNED_BIT) != 0;
        let analog_probe2_is_signed = (ap1_info & ANALOG_PROBE_IS_SIGNED_BIT) != 0;
        let analog_probe_type = [
            (ap0_info & ANALOG_PROBE_TYPE_MASK) as u8,
            (ap1_info & ANALOG_PROBE_TYPE_MASK) as u8,
        ];
        let digital_probe_type = [
            ((wf_header >> DIGITAL_PROBE0_INFO_SHIFT) & DIGITAL_PROBE_INFO_MASK) as u8,
            ((wf_header >> DIGITAL_PROBE1_INFO_SHIFT) & DIGITAL_PROBE_INFO_MASK) as u8,
            ((wf_header >> DIGITAL_PROBE2_INFO_SHIFT) & DIGITAL_PROBE_INFO_MASK) as u8,
            ((wf_header >> DIGITAL_PROBE3_INFO_SHIFT) & DIGITAL_PROBE_INFO_MASK) as u8,
        ];
        WaveformMetadata {
            analog_probe1_is_signed,
            analog_probe2_is_signed,
            analog_probe_type,
            digital_probe_type,
        }
    }
}

/// The probe metadata of a PHA2 waveform header `h`, bit by bit: analog
/// probe 1's slot is bits [5:0] and probe 2's bits [11:6], each with its
/// type in the low three bits and its sign flag in bit 3; digital probe
/// `N`'s type is bits [15+4N : 12+4N].
pub proof fn law_pha2_metadata_bits(h: u64)
    ensures
        Pha2Variant::spec_waveform_metadata(h).analog_probe1_is_signed == (h & 0x8 != 0),
        Pha2Variant::spec_waveform_metadata(h).analog_probe2_is_signed == ((h >> 6u64) & 0x8 != 0),
        Pha2Variant::spec_waveform_metadata(h).analog_probe_type@ == seq![
            (h & 0x7) as u8,
            ((h >> 6u64) & 0x7) as u8,
        ],
        Pha2Variant::spec_waveform_metadata(h).digital_probe_type@ == seq![
            ((h >> 12u64) & 0xF) as u8,
            ((h >> 16u64) & 0xF) as u8,
            ((h >> 20u64) & 0xF) as u8,
            ((h >> 24u64) & 0xF) as u8,
        ],
{
    assert((((h >> 0u64) & 0x3F) & 0x8 != 0 <==> h & 0x8 != 0) && (((h >> 6u64) & 0x3F) & 0x8 != 0
        <==> (h >> 6u64) & 0x8 != 0) && ((h >> 0u64) & 0x3F) & 0x7 == h & 0x7 && ((h >> 6u64) & 0x3F)
        & 0x7 == (h >> 6u64) & 0x7) by (bit_vector);
    let m = Pha2Variant::spec_waveform_metadata(h);
    assert(m.analog_probe_type@ =~= seq![(h & 0x7) as u8, ((h >> 6u64) & 0x7) as u8]);
    assert(m.digital_probe_type@ =~= seq![
        ((h >> 12u64) & 0xF) as u8,
        ((h >> 16u64) & 0xF) as u8,
        ((h >> 20u64) & 0xF) as u8,
        ((h >> 24u64) & 0xF) as u8,
    ]);
}

} // verus!
