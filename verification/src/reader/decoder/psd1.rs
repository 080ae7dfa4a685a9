//! PSD1 decoder for DT5730 / VX1730 digitizers (DPP-PSD1): the shared
//! DT5730 framing with a 22-bit dual-channel size mask, the charge word as
//! physics word, 14-bit unsigned waveform samples (DP1 at bit 14, DP2 at
//! bit 15) and zero-crossing interpolation around the 8192 baseline.

use vstd::prelude::*;

use super::common::{le_u32_at, Waveform};
use super::psd1_pha1_common::{
    clamp_fraction, decode_dig1_waveform, dig1_half, dig1_waveform_is, lemma_dig1_sample_bits,
    spec_clamp_fraction,
    Dig1ChannelHeader, Dig1Config, Dig1Decoder, Dig1Variant,
};

verus! {

/// Channel header under its PSD name.
pub type PsdChannelHeader = Dig1ChannelHeader;

/// Layout of the charge word.
pub const CHARGE_SHORT_MASK: u32 = 0x7FFF;
pub const PILEUP_SHIFT: u32 = 15;
pub const CHARGE_LONG_SHIFT: u32 = 16;
pub const CHARGE_LONG_MASK: u32 = 0xFFFF;

/// ADC value of the baseline the zero crossing is measured against.
pub const ADC_MIDPOINT: i32 = 8192;

/// Configuration of the PSD1 decoder.
pub type Psd1Config = Dig1Config;

/// PSD1 decoder.
pub type Psd1Decoder = Dig1Decoder<Psd1Variant>;

/// Per-firmware customization for DT5730 DPP-PSD1.
pub struct Psd1Variant;

impl Psd1Variant {
    pub const FW_NAME: &'static str = "PSD1";

    /// 22-bit dual-channel size mask (PHA1 uses 31 bits).
    pub const DUAL_CHANNEL_SIZE_MASK: u32 = 0x003F_FFFF;
}

/// `(charge_long, charge_short, pileup)` of a charge word: bits [31:16],
/// [14:0] and 15.
pub open spec fn spec_charge_word(word: u32) -> (u16, u16, bool) {
    (
        ((word >> CHARGE_LONG_SHIFT) & CHARGE_LONG_MASK) as u16,
        (word & CHARGE_SHORT_MASK) as u16,
        (word >> PILEUP_SHIFT) & 1 != 0,
    )
}

/// Zero-crossing fraction of PSD1: `(8192 - after) / (before - after)`
/// clamped to `[0, 1]`, 0 when the two samples are equal.
pub open spec fn spec_psd_fraction(before_zc: u16, after_zc: u16) -> (u16, u16) {
    spec_clamp_fraction(ADC_MIDPOINT - after_zc as int, before_zc as int - after_zc as int)
}

impl Dig1Variant for Psd1Variant {
    open spec fn spec_size_mask() -> u32 {
        0x003F_FFFF
    }

    open spec fn spec_physics(word: u32) -> (u16, u16, bool) {
        spec_charge_word(word)
    }

    open spec fn spec_sw_fraction(before_zc: u16, after_zc: u16) -> (u16, u16) {
        spec_psd_fraction(before_zc, after_zc)
    }

    open spec fn waveform_is(wf: Waveform, data: Seq<u8>, offset: int, h: Dig1ChannelHeader) -> bool {
        dig1_waveform_is(wf, data, offset, h, false, 14)
    }

    open spec fn spec_fw_name() -> Seq<char> {
        "PSD1"@
    }

    fn fw_name() -> (r: &'static str) {
        "PSD1"
    }

    fn dual_channel_size_mask() -> (m: u32) {
        0x003F_FFFF
    }

    fn decode_physics_word(word: u32) -> (r: (u16, u16, bool)) {
        decode_charge_word(word)
    }

    fn sw_fine_fraction(before_zc: u16, after_zc: u16) -> (r: (u16, u16)) {
        calculate_sw_fine_fraction_psd(before_zc, after_zc)
    }

    fn decode_waveform(data: &[u8], offset: &mut usize, header: &Dig1ChannelHeader) -> (wf:
        Waveform) {
        decode_psd1_waveform(data, offset, header)
    }
}

/// Zero-crossing fraction of a tick from PSD1's unsigned samples around
/// the 8192 baseline, as `(num, den)`.
pub fn calculate_sw_fine_fraction_psd(before_zc: u16, after_zc: u16) -> (r: (u16, u16))
    ensures
        r == spec_psd_fraction(before_zc, after_zc),
        0 < r.1,
        r.0 <= r.1,
{
    clamp_fraction(ADC_MIDPOINT - after_zc as i32, before_zc as i32 - after_zc as i32)
}

/// Decode the PSD1 charge word: `(charge_long, charge_short, pileup)`.
pub fn decode_charge_word(word: u32) -> (r: (u16, u16, bool))
    ensures
        r == spec_charge_word(word),
{
    let charge_short = (word & CHARGE_SHORT_MASK) as u16;
    let pileup = ((word >> PILEUP_SHIFT) & 1) != 0;
    let charge_long = ((word >> CHARGE_LONG_SHIFT) & CHARGE_LONG_MASK) as u16;
    (charge_long, charge_short, pileup)
}

/// Decode the PSD1 waveform at `*offset`: unsigned samples, DP1 from bit
/// 14 and DP2 from bit 15 of each sample.
pub fn decode_psd1_waveform(data: &[u8], offset: &mut usize, header: &PsdChannelHeader) -> (wf:
    Waveform)
    requires
        *old(offset) + header.num_samples_wave as int * 16 <= usize::MAX,
    ensures
        *final(offset) == *old(offset) + header.num_samples_wave as int * 16,
        dig1_waveform_is(wf, data@, *old(offset) as int, *header, false, 14),
{
    decode_dig1_waveform(data, offset, header, false, 14)
}

/// The PSD1 charge word splits into `charge_long` = bits [31:16],
/// pile-up = bit 15 and `charge_short` = bits [14:0], and the three parts
/// put back together give the word.
pub proof fn law_psd1_charge_word_fields(w: u32)
    ensures
        Psd1Variant::spec_physics(w).0 as u32 == w >> 16u32,
        Psd1Variant::spec_physics(w).1 as u32 == w & 0x7FFF,
        Psd1Variant::spec_physics(w).2 == (w & 0x8000 != 0),
        ((Psd1Variant::spec_physics(w).0 as u32) << 16u32) | (if Psd1Variant::spec_physics(w).2 {
            0x8000u32
        } else {
            0u32
        }) | (Psd1Variant::spec_physics(w).1 as u32) == w,
{
    assert((((w >> 16u32) & 0xFFFF) as u16) as u32 == w >> 16u32 && ((w & 0x7FFF) as u16) as u32 == w
        & 0x7FFF && ((w >> 15u32) & 1 != 0) == (w & 0x8000 != 0) && ((w >> 16u32) << 16u32) | (if w
        & 0x8000 != 0 { 0x8000u32 } else { 0u32 }) | (w & 0x7FFF) == w) by (bit_vector);
}

/// PSD1's zero crossing lies where the line through the two samples
/// meets the 8192 baseline: when the baseline lies strictly between the
/// samples, the fraction `num / den` of a tick equals `(8192 - after) /
/// (before - after)`; equal samples give 0, and a crossing outside the
/// tick is clamped to 0 or 1.
pub proof fn law_psd1_zero_crossing(before: u16, after: u16)
    ensures
        ({
            let (num, den) = Psd1Variant::spec_sw_fraction(before, after);
            &&& 0 < den
            &&& num <= den
            &&& before == after ==> num == 0
            &&& ((after < 8192 < before) || (before < 8192 < after)) ==> num as int * (before as int
                - after as int) == (8192 - after as int) * den as int
        }),
{
    let n = 8192 - after as int;
    let d = before as int - after as int;
    if d != 0 {
        if d < 0 {
            assert((-n) * d == n * (-d)) by (nonlinear_arith);
        }
    }
}

/// Sample `i` of a PSD1 waveform comes from the 16-bit half `i % 2` of
/// little-endian word `i / 2`: the sample is its low 14 bits, unsigned, digital probe 1 is bit 14 and
/// digital probe 2 bit 15; in dual trace, analog probe 1 is the word's
/// high half and analog probe 2 its low half.
pub proof fn law_psd1_waveform_samples(wf: Waveform, data: Seq<u8>, offset: int, h: Dig1ChannelHeader, i: int)
    requires
        Psd1Variant::waveform_is(wf, data, offset, h),
        0 <= i < h.num_samples_wave as int * 8,
    ensures
        ({
            let word = le_u32_at(data, offset + (i / 2) * 4);
            let half: u32 = if i % 2 == 0 {
                word
            } else {
                word >> 16u32
            };
            &&& !h.dual_trace ==> wf.analog_probe1@[i] as int == (half & 0x3FFF) as int
            &&& h.dual_trace ==> wf.analog_probe1@[i] as int == ((word >> 16u32) & 0x3FFF) as int
            &&& h.dual_trace ==> wf.analog_probe2@[i] as int == (word & 0x3FFF) as int
            &&& wf.digital_probe1@[i] as u32 == (half >> 14u32) & 1
            &&& wf.digital_probe2@[i] as u32 == (half >> 15u32) & 1
        }),
{
    let word = le_u32_at(data, offset + (i / 2) * 4);
    let half: u32 = if i % 2 == 0 {
        word
    } else {
        word >> 16u32
    };
    assert(dig1_half(data, offset, i) == half);
    lemma_dig1_sample_bits(half, false);
    lemma_dig1_sample_bits(word >> 16u32, false);
    lemma_dig1_sample_bits(word, false);
    assert(wf.digital_probe1@[i] == ((half >> 14u32) & 1) as u8);
    assert(wf.digital_probe2@[i] == ((half >> 15u32) & 1) as u8);
}

} // verus!
