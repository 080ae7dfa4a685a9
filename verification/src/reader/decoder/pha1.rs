//! PHA1 decoder for DT5730 / VX1730 digitizers (DPP-PHA1): the shared
//! DT5730 framing with a 31-bit dual-channel size mask, the energy word as
//! physics word, 14-bit sign-extended waveform samples (trigger flag Tn at
//! bit 15 to digital probe 1, DP at bit 14 to probe 2) and signed
//! zero-crossing interpolation.

use vstd::prelude::*;

use super::common::{le_u32_at, Waveform};
use super::psd1_pha1_common::{
    clamp_fraction, decode_dig1_waveform, dig1_half, dig1_waveform_is, lemma_dig1_sample_bits,
    spec_clamp_fraction,
    Dig1ChannelHeader, Dig1Config, Dig1Decoder, Dig1Variant,
};

verus! {

/// Channel header under its PHA name.
pub type PhaChannelHeader = Dig1ChannelHeader;

/// Layout of the energy word.
pub const ENERGY_MASK: u32 = 0x7FFF;
pub const PILEUP_SHIFT: u32 = 15;
pub const EXTRA_DATA_SHIFT: u32 = 16;
pub const EXTRA_DATA_MASK: u32 = 0x3FF;

/// Configuration of the PHA1 decoder.
pub type Pha1Config = Dig1Config;

/// PHA1 decoder.
pub type Pha1Decoder = Dig1Decoder<Pha1Variant>;

/// Per-firmware customization for DT5730 DPP-PHA1.
pub struct Pha1Variant;

impl Pha1Variant {
    pub const FW_NAME: &'static str = "PHA1";

    /// 31-bit dual-channel size mask (PSD1 uses 22 bits).
    pub const DUAL_CHANNEL_SIZE_MASK: u32 = 0x7FFF_FFFF;
}

/// `(energy, extra_data, pileup)` of an energy word: bits [14:0], [25:16]
/// and 15.
pub open spec fn spec_energy_word(word: u32) -> (u16, u16, bool) {
    (
        (word & ENERGY_MASK) as u16,
        ((word >> EXTRA_DATA_SHIFT) & EXTRA_DATA_MASK) as u16,
        (word >> PILEUP_SHIFT) & 1 != 0,
    )
}

/// Zero-crossing fraction of PHA1: `before / (before - after)` with both
/// samples read as signed 16-bit values, clamped to `[0, 1]`, 0 when they
/// are equal.
pub open spec fn spec_pha_fraction(before_zc: u16, after_zc: u16) -> (u16, u16) {
    let before = (before_zc as i16) as int;
    let after = (after_zc as i16) as int;
    spec_clamp_fraction(before, before - after)
}

impl Dig1Variant for Pha1Variant {
    open spec fn spec_size_mask() -> u32 {
        0x7FFF_FFFF
    }

    open spec fn spec_physics(word: u32) -> (u16, u16, bool) {
        spec_energy_word(word)
    }

    open spec fn spec_sw_fraction(before_zc: u16, after_zc: u16) -> (u16, u16) {
        spec_pha_fraction(before_zc, after_zc)
    }

    open spec fn waveform_is(wf: Waveform, data: Seq<u8>, offset: int, h: Dig1ChannelHeader) -> bool {
        dig1_waveform_is(wf, data, offset, h, true, 15)
    }

    open spec fn spec_fw_name() -> Seq<char> {
        "PHA1"@
    }

    fn fw_name() -> (r: &'static str) {
        "PHA1"
    }

    fn dual_channel_size_mask() -> (m: u32) {
        0x7FFF_FFFF
    }

    fn decode_physics_word(word: u32) -> (r: (u16, u16, bool)) {
        decode_energy_word(word)
    }

    fn sw_fine_fraction(before_zc: u16, after_zc: u16) -> (r: (u16, u16)) {
        calculate_sw_fine_fraction_pha(before_zc, after_zc)
    }

    fn decode_waveform(data: &[u8], offset: &mut usize, header: &Dig1ChannelHeader) -> (wf:
        Waveform) {
        decode_pha1_waveform(data, offset, header)
    }
}

/// Zero-crossing fraction of a tick from PHA1's signed samples, as
/// `(num, den)`.
pub fn calculate_sw_fine_fraction_pha(before_zc: u16, after_zc: u16) -> (r: (u16, u16))
    ensures
        r == spec_pha_fraction(before_zc, after_zc),
        0 < r.1,
        r.0 <= r.1,
{
    let before = before_zc as i16 as i32;
    let after = after_zc as i16 as i32;
    clamp_fraction(before, before - after)
}

/// Decode the PHA1 energy word: `(energy, extra_data, pileup)`.
pub fn decode_energy_word(word: u32) -> (r: (u16, u16, bool))
    ensures
        r == spec_energy_word(word),
{
    let energy = (word & ENERGY_MASK) as u16;
    let pileup = ((word >> PILEUP_SHIFT) & 1) != 0;
    let extra_data = ((word >> EXTRA_DATA_SHIFT) & EXTRA_DATA_MASK) as u16;
    (energy, extra_data, pileup)
}

/// Decode the PHA1 waveform at `*offset`: sign-extended samples, Tn (bit
/// 15) to digital probe 1 and DP (bit 14) to digital probe 2.
pub fn decode_pha1_waveform(data: &[u8], offset: &mut usize, header: &PhaChannelHeader) -> (wf:
    Waveform)
    requires
        *old(offset) + header.num_samples_wave as int * 16 <= usize::MAX,
    ensures
        *final(offset) == *old(offset) + header.num_samples_wave as int * 16,
        dig1_waveform_is(wf, data@, *old(offset) as int, *header, true, 15),
{
    decode_dig1_waveform(data, offset, header, true, 15)
}

/// The PHA1 energy word splits into energy = bits [14:0], pile-up = bit
/// 15 and extra data = bits [25:16]; the three parts put back together
/// give the word's low 26 bits.
pub proof fn law_pha1_energy_word_fields(w: u32)
    ensures
        Pha1Variant::spec_physics(w).0 as u32 == w & 0x7FFF,
        Pha1Variant::spec_physics(w).1 as u32 == (w >> 16u32) & 0x3FF,
        Pha1Variant::spec_physics(w).2 == (w & 0x8000 != 0),
        ((Pha1Variant::spec_physics(w).1 as u32) << 16u32) | (if Pha1Variant::spec_physics(w).2 {
            0x8000u32
        } else {
            0u32
        }) | (Pha1Variant::spec_physics(w).0 as u32) == w & 0x03FF_FFFF,
{
    assert(((w >> 15u32) & 1 != 0) == (w & 0x8000 != 0) && ((w & 0x7FFF) as u16) as u32 == w & 0x7FFF
        && (((w >> 16u32) & 0x3FF) as u16) as u32 == (w >> 16u32) & 0x3FF && (((w >> 16u32) & 0x3FF)
        << 16u32) | (if w & 0x8000 != 0 { 0x8000u32 } else { 0u32 }) | (w & 0x7FFF) == w & 0x03FF_FFFF)
        by (bit_vector);
}

/// PHA1's zero crossing lies where the line through the two signed
/// samples meets zero: when zero lies strictly between them, the fraction
/// `num / den` of a tick equals `before / (before - after)`; equal
/// samples give 0.
pub proof fn law_pha1_zero_crossing(before_zc: u16, after_zc: u16)
    ensures
        ({
            let before = (before_zc as i16) as int;
            let after = (after_zc as i16) as int;
            let (num, den) = Pha1Variant::spec_sw_fraction(before_zc, after_zc);
            &&& 0 < den
            &&& num <= den
            &&& before == after ==> num == 0
            &&& ((after < 0 < before) || (before < 0 < after)) ==> num as int * (before - after)
                == before * den as int
        }),
{
    let before = (before_zc as i16) as int;
    let after = (after_zc as i16) as int;
    let d = before - after;
    if d < 0 {
        assert((-before) * d == before * (-d)) by (nonlinear_arith);
    }
}

/// Sample `i` of a PHA1 waveform comes from the 16-bit half `i % 2` of
/// little-endian word `i / 2`: the sample is its low 14 bits sign-extended, digital probe 1 is bit 15 and
/// digital probe 2 bit 14; in dual trace, analog probe 1 is the word's
/// high half and analog probe 2 its low half.
pub proof fn law_pha1_waveform_samples(wf: Waveform, data: Seq<u8>, offset: int, h: Dig1ChannelHeader, i: int)
    requires
        Pha1Variant::waveform_is(wf, data, offset, h),
        0 <= i < h.num_samples_wave as int * 8,
    ensures
        ({
            let word = le_u32_at(data, offset + (i / 2) * 4);
            let half: u32 = if i % 2 == 0 {
                word
            } else {
                word >> 16u32
            };
            &&& !h.dual_trace ==> (wf.analog_probe1@[i] as int) % 0x4000 == (half & 0x3FFF) as int && -0x2000 <= wf.analog_probe1@[i] < 0x2000
            &&& h.dual_trace ==> (wf.analog_probe1@[i] as int) % 0x4000 == ((word >> 16u32) & 0x3FFF) as int
            &&& h.dual_trace ==> (wf.analog_probe2@[i] as int) % 0x4000 == (word & 0x3FFF) as int
            &&& wf.digital_probe1@[i] as u32 == (half >> 15u32) & 1
            &&& wf.digital_probe2@[i] as u32 == (half >> 14u32) & 1
        }),
{
    let word = le_u32_at(data, offset + (i / 2) * 4);
    let half: u32 = if i % 2 == 0 {
        word
    } else {
        word >> 16u32
    };
    assert(dig1_half(data, offset, i) == half);
    lemma_dig1_sample_bits(half, true);
    lemma_dig1_sample_bits(word >> 16u32, true);
    lemma_dig1_sample_bits(word, true);
    assert(wf.digital_probe1@[i] == ((half >> 15u32) & 1) as u8);
    assert(wf.digital_probe2@[i] == ((half >> 14u32) & 1) as u8);
}

} // verus!
