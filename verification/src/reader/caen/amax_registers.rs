//! AMax custom-firmware register map (CAEN VX2730 with the DELILA AMax
//! firmware). Each channel owns a register page at word address
//! `PAGE_BASE + channel * PAGE_STRIDE`; the FELib user-register byte
//! address is four times the word address. Only writable registers are
//! listed.

use vstd::prelude::*;

verus! {

/// Channel-page base in word units (channel 0).
pub const PAGE_BASE: u32 = 0x800000;

/// Word stride between consecutive channel pages.
/// Channel `n` page base = `PAGE_BASE + n * PAGE_STRIDE`.
pub const PAGE_STRIDE: u32 = 0x40000;

// ---- Per-channel register offsets (word, relative to the channel page base) ----

/// 1-bit waveform multiplexer (0 = trapezoidal, 1 = raw input)
pub const REG_SELECTOR_WAVE: u32 = 0x00;
/// 32-bit pre-trigger samples on raw input
pub const REG_PRETRIGGER_INPUT: u32 = 0x01;
/// 1-bit input pulse polarity (0 = neg, 1 = pos)
pub const REG_POLARITY: u32 = 0x02;
/// 16-bit DC offset
pub const REG_OFFSET: u32 = 0x03;
/// 32-bit trigger threshold
pub const REG_THRS: u32 = 0x04;
/// 16-bit fast-trigger rise (samples)
pub const REG_TRIG_K: u32 = 0x05;
/// 16-bit fast-trigger decay (samples)
pub const REG_TRIG_M: u32 = 0x06;
/// 16-bit trapezoidal rise (samples)
pub const REG_TRAP_K: u32 = 0x07;
/// 16-bit trapezoidal decay / flat top (samples)
pub const REG_TRAP_M: u32 = 0x08;
/// 24-bit deconvolution time constant
pub const REG_DECONV_M: u32 = 0x09;
/// 24-bit digital gain on the trapezoidal output
pub const REG_TRAP_GAIN: u32 = 0x0A;
/// 4-bit baseline averaging length (MCA HLS, log2 samples)
pub const REG_BL_LEN: u32 = 0x0B;
/// 16-bit baseline inhibit (samples)
pub const REG_BL_INIB: u32 = 0x0C;
/// 16-bit sample-pickoff position
pub const REG_SAMPLE_POS: u32 = 0x0D;
/// 1-bit run enable
pub const REG_RUN_CFG: u32 = 0x0F;
/// 32-bit AMax measurement window (samples)
pub const REG_AMAX_WINDOW: u32 = 0x12;
/// 32-bit AMax delay (samples)
pub const REG_AMAX_DELAY: u32 = 0x14;
/// 32-bit max-finder window (samples)
pub const REG_WINDOW_MAXIM: u32 = 0x15;
/// 16-bit AMax averaging length (samples)
pub const REG_AMAX_LEN: u32 = 0x16;
/// 32-bit baseline delay (samples)
pub const REG_BASELINE_DELAY: u32 = 0x18;
/// 16-bit baseline length (AMax HLS)
pub const REG_BASELINE_LEN: u32 = 0x19;
/// 16-bit baseline offset
pub const REG_BASELINE_OFFSET: u32 = 0x1A;
/// 32-bit pre-trigger samples on the trapezoidal output
pub const REG_PRETRIGGER_TRAP: u32 = 0x1F;
/// 32-bit pre-trigger samples on the AMax output
pub const REG_PRETRIGGER_AMAX: u32 = 0x20;

/// Byte address of the register at `word_offset` in the page of
/// `channel`: `(PAGE_BASE + channel * PAGE_STRIDE + word_offset) * 4`.
pub fn channel_register_byte_addr(channel: u8, word_offset: u32) -> (r: u32)
    requires
        (PAGE_BASE + channel * PAGE_STRIDE + word_offset) * 4 <= u32::MAX,
    ensures
        r == (PAGE_BASE + channel * PAGE_STRIDE + word_offset) * 4,
{
    let word_addr = PAGE_BASE + (channel as u32) * PAGE_STRIDE + word_offset;
    word_addr * 4
}

} // verus!
