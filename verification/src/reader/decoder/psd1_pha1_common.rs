//! Common framing for DPP-PSD1 / DPP-PHA1 (DT5730 / VX1730 family) decoders.
//!
//! Both firmwares share the CAEN aggregate framing: board aggregate (4-word
//! header) → dual-channel blocks (2-word header) → events (time tag,
//! waveform, extras, physics word, each optional per the channel header).
//! They differ in the dual-channel size mask, the physics word and the
//! waveform layout, supplied by a [`Dig1Variant`].
//!
//! The framing trusts `aggregate_size`, `block_size` and `num_samples_wave`
//! from the headers and never second-guesses them.

use vstd::prelude::*;
use core::marker::PhantomData;

use super::common::{
    lemma_le_top_nibble,
    default_unknown_analog_probe_types, default_unknown_digital_probe_types, le_u32_at,
    read_le_u32, reserved_digital_probes_empty, sign_extend_14bit, sort_by_time, sort_events_by_time, spec_sign_extend_14bit,
    DataType, EventData, EventTime, RawData, Waveform, UNKNOWN_PROBE_TYPE,
};
use super::rollover::{
    lemma_extend_step, spec_extend, spec_reconstruct_subcounter, RolloverError, RolloverState,
    RolloverTracker,
};

verus! {

pub const WORD_SIZE: usize = 4;

pub const BOARD_HEADER_SIZE_WORDS: usize = 4;
pub const BOARD_HEADER_SIZE_BYTES: usize = 16;
pub const BOARD_TYPE_DATA: u32 = 0xA;
pub const AGGREGATE_SIZE_MASK: u32 = 0x0FFF_FFFF;
pub const CHANNEL_HEADER_SIZE_WORDS: usize = 2;
pub const TRIGGER_TIME_MASK: u32 = 0x7FFF_FFFF;
/// Flag bit set when the physics word reports pile-up.
pub const PILEUP_FLAG_BIT: u32 = 0x8000;

/// Parsed board aggregate header (4 words).
#[derive(Debug, Clone, Copy)]
pub struct Dig1BoardHeader {
    pub aggregate_size: u32,
    pub board_id: u8,
    pub board_fail: bool,
    pub dual_channel_mask: u8,
    pub aggregate_counter: u32,
    pub board_time_tag: u32,
}

/// Parsed dual-channel header (2 words).
#[derive(Debug, Clone, Copy)]
pub struct Dig1ChannelHeader {
    pub block_size: u32,
    pub num_samples_wave: u16,
    pub extra_option: u8,
    /// ES (bit 27): waveform samples present.
    pub samples_enabled: bool,
    /// PSD1 EE / PHA1 E2 (bit 28): extras word present.
    pub extras_enabled: bool,
    /// ET (bit 29): trigger time tag word present.
    pub time_enabled: bool,
    /// PSD1 EQ / PHA1 EE (bit 30): physics word present.
    pub physics_enabled: bool,
    /// DT (bit 31): dual-trace mode.
    pub dual_trace: bool,
}

/// Words per event announced by a channel header.
pub open spec fn spec_event_size_words(h: Dig1ChannelHeader) -> int {
    (if h.time_enabled { 1int } else { 0 }) + (if h.extras_enabled { 1int } else { 0 }) + (
    if h.samples_enabled { h.num_samples_wave as int * 4 } else { 0 }) + (if h.physics_enabled {
        1int
    } else {
        0
    })
}

impl Dig1ChannelHeader {
    /// Words per event: one each for time tag, extras and physics word, and
    /// `num_samples_wave * 4` for the waveform, as enabled.
    pub fn event_size_words(&self) -> (n: usize)
        ensures
            n == spec_event_size_words(*self),
    {
        let mut size: usize = 0;
        if self.time_enabled {
            size = size + 1;
        }
        if self.extras_enabled {
            size = size + 1;
        }
        if self.samples_enabled {
            size = size + self.num_samples_wave as usize * 4;
        }
        if self.physics_enabled {
            size = size + 1;
        }
        size
    }
}

/// Configuration shared by the PSD1 and PHA1 decoders. The time step is
/// applied where timestamps are converted to nanoseconds.
#[derive(Debug, Clone, Copy)]
pub struct Dig1Config {
    /// Module identifier carried into emitted events.
    pub module_id: u8,
    /// Diagnostics dumping requested.
    pub dump_enabled: bool,
}

impl Dig1Config {
    pub open spec fn spec_default() -> Dig1Config {
        Dig1Config { module_id: 0, dump_enabled: false }
    }

    pub fn default() -> (c: Self)
        ensures
            c == Self::spec_default(),
    {
        Dig1Config { module_id: 0, dump_enabled: false }
    }
}

/// Result of decoding the extras word.
#[derive(Debug, Clone, Copy, PartialEq, Eq, Structural)]
pub enum ExtrasDecoded {
    HwFineTs { extended_time: u16, fine_time: u16, flags: u32 },
    SwFineTs { before_zc: u16, after_zc: u16 },
}

/// Why a header could not be decoded.
#[derive(Debug, Clone, Copy, PartialEq, Eq, Structural)]
pub enum FrameError {
    /// Fewer bytes left than the header needs.
    InsufficientData,
    /// The board header's type nibble is not 0xA.
    InvalidHeaderType(u32),
    /// The board aggregate claims more bytes than there are.
    AggregateTooLarge,
}

/// Per-firmware customization of the DT5730/VX1730 decoder.
pub trait Dig1Variant {
    /// Mask of the dual-channel block size (PSD1 22 bit, PHA1 31 bit).
    spec fn spec_size_mask() -> u32;

    /// `(energy_long, energy_short_or_extra, pileup)` of a physics word.
    spec fn spec_physics(word: u32) -> (u16, u16, bool);

    /// Tick fraction `(num, den)` of a zero crossing between the samples
    /// before and after it.
    spec fn spec_sw_fraction(before_zc: u16, after_zc: u16) -> (u16, u16);

    /// The waveform decoded from the samples starting at byte `offset`.
    spec fn waveform_is(wf: Waveform, data: Seq<u8>, offset: int, h: Dig1ChannelHeader) -> bool;

    /// Firmware name used in diagnostics.
    spec fn spec_fw_name() -> Seq<char>;

    fn fw_name() -> (r: &'static str)
        ensures
            r@ == Self::spec_fw_name(),
    ;

    fn dual_channel_size_mask() -> (m: u32)
        ensures
            m == Self::spec_size_mask(),
    ;

    fn decode_physics_word(word: u32) -> (r: (u16, u16, bool))
        ensures
            r == Self::spec_physics(word),
    ;

    /// Zero-crossing fraction of a tick, as `(num, den)` with
    /// `0 <= num <= den` and `den > 0`.
    fn sw_fine_fraction(before_zc: u16, after_zc: u16) -> (r: (u16, u16))
        ensures
            r == Self::spec_sw_fraction(before_zc, after_zc),
            0 < r.1,
            r.0 <= r.1,
    ;

    /// Decode the waveform at `*offset`, advancing it past the
    /// `num_samples_wave * 4` sample words.
    fn decode_waveform(data: &[u8], offset: &mut usize, header: &Dig1ChannelHeader) -> (wf:
        Waveform)
        requires
            *old(offset) + header.num_samples_wave as int * 16 <= usize::MAX,
        ensures
            *final(offset) == *old(offset) + header.num_samples_wave as int * 16,
            Self::waveform_is(wf, data@, *old(offset) as int, *header),
    ;
}

// ---------------------------------------------------------------------------
// Wire-format specification
// ---------------------------------------------------------------------------

/// The board header at byte `offset`, if there is room for it and its type
/// is data.
pub open spec fn spec_board_header(data: Seq<u8>, offset: int) -> Result<Dig1BoardHeader, FrameError> {
    let w0 = le_u32_at(data, offset);
    let w1 = le_u32_at(data, offset + 4);
    let w2 = le_u32_at(data, offset + 8);
    let w3 = le_u32_at(data, offset + 12);
    if offset + 16 > data.len() {
        Err(FrameError::InsufficientData)
    } else if (w0 >> 28) & 0xF != BOARD_TYPE_DATA {
        Err(FrameError::InvalidHeaderType((w0 >> 28) & 0xF))
    } else {
        Ok(
            Dig1BoardHeader {
                aggregate_size: w0 & AGGREGATE_SIZE_MASK,
                board_id: ((w1 >> 27) & 0x1F) as u8,
                board_fail: (w1 >> 26) & 1 != 0,
                dual_channel_mask: (w1 & 0xFF) as u8,
                aggregate_counter: w2 & 0x7F_FFFF,
                board_time_tag: w3,
            },
        )
    }
}

/// The dual-channel header at byte `offset` under a block-size mask.
pub open spec fn spec_channel_header(data: Seq<u8>, offset: int, size_mask: u32) -> Dig1ChannelHeader {
    let w0 = le_u32_at(data, offset);
    let w1 = le_u32_at(data, offset + 4);
    Dig1ChannelHeader {
        block_size: w0 & size_mask,
        num_samples_wave: (w1 & 0xFFFF) as u16,
        extra_option: ((w1 >> 24) & 0x7) as u8,
        samples_enabled: (w1 >> 27) & 1 != 0,
        extras_enabled: (w1 >> 28) & 1 != 0,
        time_enabled: (w1 >> 29) & 1 != 0,
        physics_enabled: (w1 >> 30) & 1 != 0,
        dual_trace: (w1 >> 31) & 1 != 0,
    }
}

/// How an extras word decodes under `extra_option`.
pub open spec fn spec_extras(word: u32, extra_option: u8) -> ExtrasDecoded {
    let extended_time = ((word >> 16) & 0xFFFF) as u16;
    if extra_option == 2 {
        ExtrasDecoded::HwFineTs {
            extended_time,
            fine_time: (word & 0x3FF) as u16,
            flags: (word >> 10) & 0x3F,
        }
    } else if extra_option == 5 {
        ExtrasDecoded::SwFineTs { before_zc: ((word >> 16) & 0xFFFF) as u16, after_zc: (word
            & 0xFFFF) as u16 }
    } else if extra_option == 1 {
        ExtrasDecoded::HwFineTs { extended_time, fine_time: 0, flags: word & 0xFFFF }
    } else {
        ExtrasDecoded::HwFineTs { extended_time, fine_time: 0, flags: 0 }
    }
}

/// Byte offsets of the parts of the event starting at `offset`.
pub open spec fn waveform_offset(offset: int, h: Dig1ChannelHeader) -> int {
    offset + if h.time_enabled { 4int } else { 0 }
}

pub open spec fn extras_offset(offset: int, h: Dig1ChannelHeader) -> int {
    waveform_offset(offset, h) + if h.samples_enabled { h.num_samples_wave as int * 16 } else { 0 }
}

pub open spec fn physics_offset(offset: int, h: Dig1ChannelHeader) -> int {
    extras_offset(offset, h) + if h.extras_enabled { 4int } else { 0 }
}

/// The event decoded at byte `offset` of a block of channel pair `pair`,
/// with the board aggregate's extended time tag `board_time`.
pub open spec fn dig1_event_is<V: Dig1Variant>(
    e: EventData,
    data: Seq<u8>,
    offset: int,
    h: Dig1ChannelHeader,
    pair: u8,
    board_time: u64,
    module_id: u8,
) -> bool {
    let tw = le_u32_at(data, offset);
    let ttt: u32 = if h.time_enabled { tw & TRIGGER_TIME_MASK } else { 0 };
    let channel_flag: u8 = if h.time_enabled { ((tw >> 31) & 1) as u8 } else { 0 };
    let extras = spec_extras(le_u32_at(data, extras_offset(offset, h)), h.extra_option);
    let physics = V::spec_physics(le_u32_at(data, physics_offset(offset, h)));
    let pileup_flag: u32 = if h.physics_enabled && physics.2 { PILEUP_FLAG_BIT } else { 0 };
    &&& e.module == module_id
    &&& e.channel == pair * 2 + channel_flag
    &&& e.energy == (if h.physics_enabled { physics.0 } else { 0 })
    &&& e.energy_short == (if h.physics_enabled { physics.1 } else { 0 })
    &&& e.user_info@ == seq![0u64, 0u64, 0u64, 0u64]
    &&& (if h.samples_enabled {
        e.waveform matches Some(wf) && V::waveform_is(wf, data, waveform_offset(offset, h), h)
    } else {
        e.waveform is None
    })
    &&& if !h.extras_enabled {
        &&& e.time == EventTime::Ticks { coarse: ttt as u64, fine: 0 }
        &&& e.fine_time == 0
        &&& e.flags == pileup_flag
    } else {
        match extras {
            ExtrasDecoded::HwFineTs { extended_time, fine_time, flags } => {
                &&& e.time == EventTime::Ticks {
                    coarse: (extended_time as u64 * 0x8000_0000 + ttt as u64) as u64,
                    fine: fine_time,
                }
                &&& e.fine_time == fine_time
                &&& e.flags == flags | pileup_flag
            },
            ExtrasDecoded::SwFineTs { before_zc, after_zc } => {
                let frac = V::spec_sw_fraction(before_zc, after_zc);
                &&& e.time == EventTime::ZeroCrossing {
                    coarse: spec_reconstruct_subcounter(board_time, ttt as u64, 31),
                    num: frac.0,
                    den: frac.1,
                }
                &&& e.fine_time == spec_fraction_fine_time(frac.0, frac.1)
                &&& e.flags == pileup_flag
            },
        }
    }
}

/// Fine time (1/1024 of a tick) of a tick fraction `num / den`, at most
/// 1023.
pub open spec fn spec_fraction_fine_time(num: u16, den: u16) -> u16 {
    let f = num as int * 1024 / den as int;
    if f > 1023 { 1023 } else { f as u16 }
}

/// Where an event was found: byte offset, channel header, pair index and
/// the board aggregate's extended time tag.
pub type Dig1Site = (int, Dig1ChannelHeader, u8, u64);

/// Sites of the events of one dual-channel block: consecutive events of
/// `size` words from `offset` while they fit before `end`.
pub open spec fn block_sites(offset: int, end: int, size: int, h: Dig1ChannelHeader, pair: u8, board_time: u64) -> Seq<Dig1Site> {
    let n = if size > 0 && end >= offset { (end - offset) / (size * 4) } else { 0 };
    Seq::new(n as nat, |i: int| (offset + i * size * 4, h, pair, board_time))
}

/// Sites of the events of the dual-channel blocks of pairs `pair..8` of a
/// board aggregate ending at `block_end`, starting at byte `offset`.
pub open spec fn pair_sites<V: Dig1Variant>(
    data: Seq<u8>,
    offset: int,
    block_end: int,
    mask: u8,
    pair: int,
    board_time: u64,
) -> Seq<Dig1Site>
    decreases 8 - pair,
{
    if pair < 0 || pair >= 8 {
        Seq::empty()
    } else if (mask >> pair as u8) & 1 == 0 {
        pair_sites::<V>(data, offset, block_end, mask, pair + 1, board_time)
    } else if offset >= block_end || offset + 8 > data.len() {
        Seq::empty()
    } else {
        let h = spec_channel_header(data, offset, V::spec_size_mask());
        let ch_end = if offset + h.block_size as int * 4 <= block_end {
            offset + h.block_size as int * 4
        } else {
            block_end
        };
        let size = spec_event_size_words(h);
        if size == 0 {
            pair_sites::<V>(data, offset + 8, block_end, mask, pair + 1, board_time)
        } else {
            block_sites(offset + 8, ch_end, size, h, pair as u8, board_time).add(
                pair_sites::<V>(data, ch_end, block_end, mask, pair + 1, board_time),
            )
        }
    }
}

/// The decoder state that survives between aggregates.
pub type Dig1RunState = (RolloverState, u64, u32);

/// Run state after accepting board aggregate header `h`: the board time
/// tag is extended (keeping the previous extended time if the tracker
/// refuses it) and the aggregate counter recorded.
pub open spec fn next_run_state(st: Dig1RunState, h: Dig1BoardHeader) -> Dig1RunState {
    let (res, tracker) = spec_extend(st.0, h.board_time_tag as u64);
    let board_time = match res {
        Ok(t) => t,
        Err(_) => st.1,
    };
    (tracker, board_time, h.aggregate_counter)
}

/// `evs` are the events decoded at `sites`, one each, in order.
pub open spec fn dig1_events_at<V: Dig1Variant>(
    evs: Seq<EventData>,
    sites: Seq<Dig1Site>,
    data: Seq<u8>,
    module_id: u8,
) -> bool {
    &&& evs.len() == sites.len()
    &&& forall|i: int|
        0 <= i < sites.len() ==> #[trigger] dig1_event_is::<V>(
            evs[i],
            data,
            sites[i].0,
            sites[i].1,
            sites[i].2,
            sites[i].3,
            module_id,
        )
}

/// Whether every data board aggregate reached from `offset` (below
/// `bound`) announces a non-zero size, so that decoding advances.
pub open spec fn dig1_advances(data: Seq<u8>, offset: int, bound: int) -> bool
    decreases data.len() - offset,
{
    if offset < 0 || offset + 16 > bound {
        true
    } else {
        match spec_board_header(data, offset) {
            Err(_) => true,
            Ok(h) => {
                let block_end = offset + h.aggregate_size as int * 4;
                if block_end > data.len() {
                    true
                } else if h.aggregate_size == 0 {
                    false
                } else {
                    dig1_advances(data, block_end, bound)
                }
            },
        }
    }
}

/// Event sites found decoding board aggregates from byte `offset` while a
/// header fits below `bound`, and the run state afterwards (rollover
/// tracker, extended board time, last aggregate counter).
pub open spec fn dig1_walk<V: Dig1Variant>(data: Seq<u8>, offset: int, bound: int, st: Dig1RunState) -> (
    Seq<Dig1Site>,
    Dig1RunState,
)
    decreases data.len() - offset,
{
    if offset < 0 || offset + 16 > bound {
        (Seq::empty(), st)
    } else {
        match spec_board_header(data, offset) {
            Err(_) => (Seq::empty(), st),
            Ok(h) => {
                let block_end = offset + h.aggregate_size as int * 4;
                if block_end > data.len() || h.aggregate_size == 0 {
                    (Seq::empty(), st)
                } else {
                    let next = next_run_state(st, h);
                    let here = pair_sites::<V>(
                        data,
                        offset + 16,
                        block_end,
                        h.dual_channel_mask,
                        0,
                        next.1,
                    );
                    let (rest, last) = dig1_walk::<V>(data, block_end, bound, next);
                    (here.add(rest), last)
                }
            },
        }
    }
}

/// Whether the first word of an aggregate of `size` bytes is a data board
/// header.
pub open spec fn spec_dig1_classify(size: usize, data: Seq<u8>) -> DataType {
    if size < 16 || size % 4 != 0 {
        DataType::Unknown
    } else if (le_u32_at(data, 0) >> 28) & 0xF == BOARD_TYPE_DATA {
        DataType::Event
    } else {
        DataType::Unknown
    }
}

// ---------------------------------------------------------------------------
// Free helpers
// ---------------------------------------------------------------------------

/// Little-endian u32 at byte `offset`; 0 when fewer than 4 bytes remain.
pub fn read_u32(data: &[u8], offset: usize) -> (r: u32)
    ensures
        r == le_u32_at(data@, offset as int),
{
    read_le_u32(data, offset)
}

/// Decode the 4-word board aggregate header at `offset`.
pub fn decode_board_header(data: &[u8], offset: usize) -> (r: Result<Dig1BoardHeader, FrameError>)
    ensures
        r == spec_board_header(data@, offset as int),
{
    if offset > data.len() || data.len() - offset < 16 {
        return Err(FrameError::InsufficientData);
    }
    let w0 = read_u32(data, offset);
    let w1 = read_u32(data, offset + 4);
    let w2 = read_u32(data, offset + 8);
    let w3 = read_u32(data, offset + 12);
    let header_type = (w0 >> 28) & 0xF;
    if header_type != BOARD_TYPE_DATA {
        return Err(FrameError::InvalidHeaderType(header_type));
    }
    Ok(
        Dig1BoardHeader {
            aggregate_size: w0 & AGGREGATE_SIZE_MASK,
            board_id: ((w1 >> 27) & 0x1F) as u8,
            board_fail: ((w1 >> 26) & 1) != 0,
            dual_channel_mask: (w1 & 0xFF) as u8,
            aggregate_counter: w2 & 0x7F_FFFF,
            board_time_tag: w3,
        },
    )
}

/// Decode the 2-word dual-channel header at `offset` for variant `V`.
pub fn decode_dual_channel_header<V: Dig1Variant>(data: &[u8], offset: usize) -> (r: Result<
    Dig1ChannelHeader,
    FrameError,
>)
    ensures
        offset + 8 > data@.len() ==> r == Err::<Dig1ChannelHeader, FrameError>(
            FrameError::InsufficientData,
        ),
        offset + 8 <= data@.len() ==> r == Ok::<Dig1ChannelHeader, FrameError>(
            spec_channel_header(data@, offset as int, V::spec_size_mask()),
        ),
{
    if offset > data.len() || data.len() - offset < 8 {
        return Err(FrameError::InsufficientData);
    }
    let w0 = read_u32(data, offset);
    let w1 = read_u32(data, offset + 4);
    Ok(
        Dig1ChannelHeader {
            block_size: w0 & V::dual_channel_size_mask(),
            num_samples_wave: (w1 & 0xFFFF) as u16,
            extra_option: ((w1 >> 24) & 0x7) as u8,
            samples_enabled: ((w1 >> 27) & 1) != 0,
            extras_enabled: ((w1 >> 28) & 1) != 0,
            time_enabled: ((w1 >> 29) & 1) != 0,
            physics_enabled: ((w1 >> 30) & 1) != 0,
            dual_trace: ((w1 >> 31) & 1) != 0,
        },
    )
}

/// Decode the extras word according to `extra_option`: options 2 and 1
/// carry extended time with flags (and fine time for 2), option 5 the
/// zero-crossing sample pair, the rest only the extended time.
pub fn decode_extras_word(word: u32, extra_option: u8) -> (r: ExtrasDecoded)
    ensures
        r == spec_extras(word, extra_option),
{
    match extra_option {
        2 => {
            let extended_time = ((word >> 16) & 0xFFFF) as u16;
            let flags = (word >> 10) & 0x3F;
            let fine_time = (word & 0x3FF) as u16;
            ExtrasDecoded::HwFineTs { extended_time, fine_time, flags }
        },
        5 => {
            let before_zc = ((word >> 16) & 0xFFFF) as u16;
            let after_zc = (word & 0xFFFF) as u16;
            ExtrasDecoded::SwFineTs { before_zc, after_zc }
        },
        1 => {
            let extended_time = ((word >> 16) & 0xFFFF) as u16;
            let flags = word & 0xFFFF;
            ExtrasDecoded::HwFineTs { extended_time, fine_time: 0, flags }
        },
        _ => {
            let extended_time = ((word >> 16) & 0xFFFF) as u16;
            ExtrasDecoded::HwFineTs { extended_time, fine_time: 0, flags: 0 }
        },
    }
}

/// A zero-crossing fraction `n / d` clamped to `[0, 1]`, as
/// `(num, den)`; no crossing (`d == 0`) gives 0.
pub open spec fn spec_clamp_fraction(n: int, d: int) -> (u16, u16) {
    if d == 0 {
        (0, 1)
    } else {
        let a = if d < 0 { -n } else { n };
        let b = if d < 0 { -d } else { d };
        if a <= 0 {
            (0, 1)
        } else if a >= b {
            (1, 1)
        } else {
            (a as u16, b as u16)
        }
    }
}

/// Clamp the fraction `n / d` to `[0, 1]`, exactly; 0 when `d == 0`.
pub fn clamp_fraction(n: i32, d: i32) -> (r: (u16, u16))
    requires
        -0x1_0000 <= n <= 0x1_0000,
        -0xFFFF <= d <= 0xFFFF,
    ensures
        r == spec_clamp_fraction(n as int, d as int),
        0 < r.1,
        r.0 <= r.1,
{
    if d == 0 {
        return (0, 1);
    }
    let a = if d < 0 { -n } else { n };
    let b = if d < 0 { -d } else { d };
    if a <= 0 {
        (0, 1)
    } else if a >= b {
        (1, 1)
    } else {
        (a as u16, b as u16)
    }
}

/// Waveform word `k` of the samples starting at byte `offset`.
pub open spec fn dig1_wave_word(data: Seq<u8>, offset: int, k: int) -> u32 {
    le_u32_at(data, offset + k * 4)
}

/// The 16-bit half of sample `i` (low half for even samples, high half
/// for odd ones), above bit 15 possibly not cleared.
pub open spec fn dig1_half(data: Seq<u8>, offset: int, i: int) -> u32 {
    let w = dig1_wave_word(data, offset, i / 2);
    if i % 2 == 0 {
        w
    } else {
        w >> 16
    }
}

/// Analog value of a sample half: its low 14 bits, unsigned or
/// sign-extended.
pub open spec fn dig1_sample(half: u32, signed: bool) -> i16 {
    if signed {
        spec_sign_extend_14bit(half)
    } else {
        (half & 0x3FFF) as i16
    }
}

/// The waveform of `num_samples_wave * 4` words at byte `offset`: two
/// samples per word. Single trace puts every sample into analog probe 1;
/// dual trace puts the high half of each word twice into probe 1 and the
/// low half twice into probe 2. Digital probe 1 takes bit `dp1_shift`
/// of each sample, probe 2 the other of bits 14 and 15.
pub open spec fn dig1_waveform_is(
    wf: Waveform,
    data: Seq<u8>,
    offset: int,
    h: Dig1ChannelHeader,
    signed: bool,
    dp1_shift: u32,
) -> bool {
    let n = h.num_samples_wave as int * 8;
    let dp2_shift: u32 = (29 - dp1_shift) as u32;
    &&& wf.analog_probe1@.len() == n
    &&& wf.analog_probe2@.len() == (if h.dual_trace { n } else { 0 })
    &&& wf.digital_probe1@.len() == n
    &&& wf.digital_probe2@.len() == n
    &&& forall|i: int|
        0 <= i < n ==> #[trigger] wf.analog_probe1@[i] == if h.dual_trace {
            dig1_sample(dig1_wave_word(data, offset, i / 2) >> 16, signed)
        } else {
            dig1_sample(dig1_half(data, offset, i), signed)
        }
    &&& h.dual_trace ==> forall|i: int|
        0 <= i < n ==> #[trigger] wf.analog_probe2@[i] == dig1_sample(
            dig1_wave_word(data, offset, i / 2),
            signed,
        )
    &&& forall|i: int|
        0 <= i < n ==> #[trigger] wf.digital_probe1@[i] == ((dig1_half(data, offset, i)
            >> dp1_shift) & 1) as u8
    &&& forall|i: int|
        0 <= i < n ==> #[trigger] wf.digital_probe2@[i] == ((dig1_half(data, offset, i)
            >> dp2_shift) & 1) as u8
    &&& wf.analog_probe3@.len() == 0
    &&& wf.digital_probe3@.len() == 0
    &&& wf.digital_probe4@.len() == 0
    &&& wf.digital_probe5@.len() == 0
    &&& reserved_digital_probes_empty(wf)
    &&& wf.time_resolution == 0
    &&& wf.trigger_threshold == 0
    &&& wf.analog_probe1_is_signed == signed
    &&& wf.analog_probe2_is_signed == signed
    &&& !wf.analog_probe3_is_signed
    &&& forall|i: int| 0 <= i < 3 ==> #[trigger] wf.analog_probe_type@[i] == UNKNOWN_PROBE_TYPE
    &&& forall|i: int| 0 <= i < 16 ==> #[trigger] wf.digital_probe_type@[i] == UNKNOWN_PROBE_TYPE
}

fn dig1_sample_value(half: u32, signed: bool) -> (r: i16)
    ensures
        r == dig1_sample(half, signed),
{
    if signed {
        sign_extend_14bit(half)
    } else {
        (half & 0x3FFF) as i16
    }
}

/// Decode the DT5730 waveform at `*offset` (layout of [`dig1_waveform_is`]),
/// advancing `*offset` past its `num_samples_wave * 4` words.
pub fn decode_dig1_waveform(
    data: &[u8],
    offset: &mut usize,
    header: &Dig1ChannelHeader,
    signed: bool,
    dp1_shift: u32,
) -> (wf: Waveform)
    requires
        *old(offset) + header.num_samples_wave as int * 16 <= usize::MAX,
        dp1_shift == 14 || dp1_shift == 15,
    ensures
        *final(offset) == *old(offset) + header.num_samples_wave as int * 16,
        dig1_waveform_is(wf, data@, *old(offset) as int, *header, signed, dp1_shift),
{
    let ghost start = *offset as int;
    let dp2_shift: u32 = 29 - dp1_shift;
    let total_words = header.num_samples_wave as usize * 4;
    let mut analog_probe1: Vec<i16> = Vec::new();
    let mut analog_probe2: Vec<i16> = Vec::new();
    let mut digital_probe1: Vec<u8> = Vec::new();
    let mut digital_probe2: Vec<u8> = Vec::new();
    let mut k: usize = 0;
    while k < total_words
        invariant
            k <= total_words,
            total_words == header.num_samples_wave as int * 4,
            start + header.num_samples_wave as int * 16 <= usize::MAX,
            *offset == start + k * 4,
            dp2_shift == 29 - dp1_shift,
            analog_probe1@.len() == 2 * k,
            analog_probe2@.len() == (if header.dual_trace { 2 * k } else { 0 }),
            digital_probe1@.len() == 2 * k,
            digital_probe2@.len() == 2 * k,
            forall|i: int|
                0 <= i < 2 * k ==> #[trigger] analog_probe1@[i] == if header.dual_trace {
                    dig1_sample(dig1_wave_word(data@, start, i / 2) >> 16, signed)
                } else {
                    dig1_sample(dig1_half(data@, start, i), signed)
                },
            header.dual_trace ==> forall|i: int|
                0 <= i < 2 * k ==> #[trigger] analog_probe2@[i] == dig1_sample(
                    dig1_wave_word(data@, start, i / 2),
                    signed,
                ),
            forall|i: int|
                0 <= i < 2 * k ==> #[trigger] digital_probe1@[i] == ((dig1_half(data@, start, i)
                    >> dp1_shift) & 1) as u8,
            forall|i: int|
                0 <= i < 2 * k ==> #[trigger] digital_probe2@[i] == ((dig1_half(data@, start, i)
                    >> dp2_shift) & 1) as u8,
        decreases total_words - k,
    {
        let w = read_u32(data, *offset);
        *offset = *offset + WORD_SIZE;
        let upper = w >> 16;
        let s1 = dig1_sample_value(w, signed);
        let s2 = dig1_sample_value(upper, signed);
        proof {
            let ki = k as int;
            assert(dig1_wave_word(data@, start, ki) == w);
            assert((2 * ki) / 2 == ki && (2 * ki) % 2 == 0);
            assert((2 * ki + 1) / 2 == ki && (2 * ki + 1) % 2 == 1);
            assert(dig1_half(data@, start, 2 * ki) == w);
            assert(dig1_half(data@, start, 2 * ki + 1) == upper);
            assert((w >> dp1_shift) & 1 <= 1 && (upper >> dp1_shift) & 1 <= 1) by (bit_vector);
            assert((w >> dp2_shift) & 1 <= 1 && (upper >> dp2_shift) & 1 <= 1) by (bit_vector);
        }
        if header.dual_trace {
            analog_probe1.push(s2);
            analog_probe1.push(s2);
            analog_probe2.push(s1);
            analog_probe2.push(s1);
        } else {
            analog_probe1.push(s1);
            analog_probe1.push(s2);
        }
        digital_probe1.push(((w >> dp1_shift) & 1) as u8);
        digital_probe1.push(((upper >> dp1_shift) & 1) as u8);
        digital_probe2.push(((w >> dp2_shift) & 1) as u8);
        digital_probe2.push(((upper >> dp2_shift) & 1) as u8);
        k = k + 1;
    }
    Waveform {
        analog_probe1,
        analog_probe2,
        analog_probe3: Vec::new(),
        digital_probe1,
        digital_probe2,
        digital_probe3: Vec::new(),
        digital_probe4: Vec::new(),
        digital_probe5: Vec::new(),
        digital_probe6: Vec::new(),
        digital_probe7: Vec::new(),
        digital_probe8: Vec::new(),
        digital_probe9: Vec::new(),
        digital_probe10: Vec::new(),
        digital_probe11: Vec::new(),
        digital_probe12: Vec::new(),
        digital_probe13: Vec::new(),
        digital_probe14: Vec::new(),
        digital_probe15: Vec::new(),
        digital_probe16: Vec::new(),
        time_resolution: 0,
        trigger_threshold: 0,
        analog_probe1_is_signed: signed,
        analog_probe2_is_signed: signed,
        analog_probe3_is_signed: false,
        analog_probe_type: default_unknown_analog_probe_types(),
        digital_probe_type: default_unknown_digital_probe_types(),
    }
}

/// Size in bytes of a board aggregate of `size` words.
fn aggregate_bytes(size: u32) -> (n: u64)
    ensures
        n == size * 4,
{
    size as u64 * 4
}

/// Whether decoding `raw` reaches only board aggregates that announce a
/// non-zero size, so that decoding ends: an aggregate of size zero would
/// be decoded again and again.
pub fn aggregates_advance(raw: &RawData) -> (r: bool)
    requires
    ensures
        r == dig1_advances(raw.data@, 0, raw.size as int),
{
    let mut offset: usize = 0;
    while raw.size >= BOARD_HEADER_SIZE_BYTES && offset <= raw.size - BOARD_HEADER_SIZE_BYTES
        invariant
            offset <= raw.data@.len(),
                dig1_advances(raw.data@, 0, raw.size as int) == dig1_advances(
                raw.data@,
                offset as int,
                raw.size as int,
            ),
        decreases raw.data@.len() - offset,
    {
        match decode_board_header(&raw.data, offset) {
            Err(_) => {
                return true;
            },
            Ok(h) => {
                let agg_bytes = aggregate_bytes(h.aggregate_size);
                if agg_bytes > (raw.data.len() - offset) as u64 {
                    return true;
                }
                if h.aggregate_size == 0 {
                    return false;
                }
                offset = offset + agg_bytes as usize;
            },
        }
    }
    true
}

/// Coarse tick of a hardware fine-time event: `(extended_time << 31) |
/// trigger_time_tag`.
pub fn combined_time_tag(trigger_time_tag: u32, extended_time: u16) -> (r: u64)
    requires
        trigger_time_tag <= TRIGGER_TIME_MASK,
    ensures
        r == extended_time as u64 * 0x8000_0000 + trigger_time_tag as u64,
{
    assert(trigger_time_tag <= 0x7FFF_FFFF ==> ((extended_time as u64) << 31) | (trigger_time_tag
        as u64) == extended_time as u64 * 0x8000_0000 + trigger_time_tag as u64) by (bit_vector);
    ((extended_time as u64) << 31) | (trigger_time_tag as u64)
}

/// Fine time of a zero-crossing fraction `num / den` of a tick:
/// `floor(1024 * num / den)`, at most 1023.
pub fn fraction_fine_time(num: u16, den: u16) -> (r: u16)
    requires
        den > 0,
    ensures
        r == spec_fraction_fine_time(num, den),
{
    let f = num as u32 * 1024 / den as u32;
    if f > 1023 {
        1023
    } else {
        f as u16
    }
}

proof fn lemma_fits_below(d: int, s: int, k: int)
    requires
        s > 0,
        k >= 0,
    ensures
        (k + 1) * s <= d <==> (d >= 0 && k < d / s),
{
    if d >= 0 {
        vstd::arithmetic::div_mod::lemma_fundamental_div_mod(d, s);
        vstd::arithmetic::div_mod::lemma_mod_bound(d, s);
        let q = d / s;
        assert((k + 1) * s <= d <==> k < q) by (nonlinear_arith)
            requires
                s > 0,
                k >= 0,
                d == s * q + d % s,
                0 <= d % s < s,
        {
            if k < q {
                assert((k + 1) * s <= q * s);
            } else {
                assert((k + 1) * s >= (q + 1) * s);
            }
        }
    } else {
        assert((k + 1) * s > 0) by (nonlinear_arith)
            requires
                s > 0,
                k >= 0,
        ;
    }
}

proof fn lemma_mask_bit(mask: u8, pair: u8)
    requires
        pair < 8,
    ensures
        (mask & (1u8 << pair) == 0) == ((mask >> pair) & 1 == 0),
{
    assert(pair < 8 ==> ((mask & (1u8 << pair) == 0) == ((mask >> pair) & 1 == 0))) by (bit_vector);
}

// ---------------------------------------------------------------------------
// Decoder
// ---------------------------------------------------------------------------

/// Generic DT5730/VX1730 decoder, monomorphized per firmware.
pub struct Dig1Decoder<V: Dig1Variant> {
    pub config: Dig1Config,
    last_aggregate_counter: u32,
    /// 32-bit board aggregate time tag rollover tracker.
    tracker: RolloverTracker,
    /// Current extended board time in ticks (updated per board aggregate).
    extended_board_time: u64,
    _phantom: PhantomData<V>,
}

impl<V: Dig1Variant> Dig1Decoder<V> {
    #[verifier::type_invariant]
    spec fn inv(self) -> bool {
        &&& self.tracker@.bits == 32
        &&& self.tracker@.wf()
    }

    pub closed spec fn cfg(&self) -> Dig1Config {
        self.config
    }

    /// Rollover tracker state, extended board time, last aggregate counter.
    pub closed spec fn run_state(&self) -> Dig1RunState {
        (self.tracker@, self.extended_board_time, self.last_aggregate_counter)
    }

    /// State of a decoder at the start of a run.
    pub open spec fn fresh_run_state() -> Dig1RunState {
        (RolloverState::fresh(32), 0, 0)
    }

    /// Counter of the last board aggregate decoded.
    pub fn last_aggregate_counter(&self) -> (c: u32)
        ensures
            c == self.run_state().2,
    {
        self.last_aggregate_counter
    }

    /// Wraps of the board time tag seen since construction or reset.
    pub fn rollover_count(&self) -> (c: u64)
        ensures
            c == self.run_state().0.rollover_count,
    {
        self.tracker.rollover_count()
    }

    /// Extended board time of the last board aggregate decoded, in ticks.
    pub fn extended_board_time(&self) -> (t: u64)
        ensures
            t == self.run_state().1,
    {
        self.extended_board_time
    }

    pub fn new(config: Dig1Config) -> (d: Self)
        ensures
            d.cfg() == config,
            d.run_state() == Self::fresh_run_state(),
    {
        Dig1Decoder {
            config,
            last_aggregate_counter: 0,
            tracker: RolloverTracker::new(32),
            extended_board_time: 0,
            _phantom: PhantomData,
        }
    }

    pub fn with_defaults() -> (d: Self)
        ensures
            d.cfg() == Dig1Config::spec_default(),
            d.run_state() == Self::fresh_run_state(),
    {
        Self::new(Dig1Config::default())
    }

    pub fn set_dump_enabled(&mut self, enabled: bool)
        ensures
            final(self).cfg() == (Dig1Config { dump_enabled: enabled, ..old(self).cfg() }),
            final(self).run_state() == old(self).run_state(),
    {
        proof {
            use_type_invariant(&*self);
        }
        self.config.dump_enabled = enabled;
    }

    /// Reset state for a new run (the hardware counter was cleared).
    pub fn reset_for_new_run(&mut self)
        ensures
            final(self).cfg() == old(self).cfg(),
            final(self).run_state() == Self::fresh_run_state(),
    {
        proof {
            use_type_invariant(&*self);
        }
        self.last_aggregate_counter = 0;
        self.tracker = RolloverTracker::new(32);
        self.extended_board_time = 0;
    }

    /// Event for valid data board headers, Unknown otherwise (this family
    /// has no start/stop signals on the wire).
    pub fn classify(&self, raw: &RawData) -> (t: DataType)
        ensures
            t == spec_dig1_classify(raw.size, raw.data@),
    {
        if raw.size < BOARD_HEADER_SIZE_BYTES {
            return DataType::Unknown;
        }
        if raw.size % WORD_SIZE != 0 {
            return DataType::Unknown;
        }
        let word0 = read_u32(&raw.data, 0);
        let header_type = (word0 >> 28) & 0xF;
        if header_type == BOARD_TYPE_DATA {
            DataType::Event
        } else {
            DataType::Unknown
        }
    }

    /// Decode one event at `*offset` (the channel block has room for it).
    fn decode_event(
        &self,
        data: &[u8],
        offset: &mut usize,
        ch_header: &Dig1ChannelHeader,
        pair_index: u8,
    ) -> (e: EventData)
        requires
            pair_index < 8,
            *old(offset) + spec_event_size_words(*ch_header) * 4 <= data@.len(),
        ensures
            *final(offset) == *old(offset) + spec_event_size_words(*ch_header) * 4,
            dig1_event_is::<V>(e, data@, *old(offset) as int, *ch_header, pair_index,
                self.extended_board_time, self.config.module_id),
    {
        proof {
            use_type_invariant(self);
        }
        let ghost start = *offset as int;
        proof {
            assert(data@.len() == data.len());
        }
        let mut trigger_time_tag: u32 = 0;
        let mut channel_flag: u8 = 0;
        if ch_header.time_enabled {
            let w = read_u32(data, *offset);
            *offset = *offset + 4;
            channel_flag = ((w >> 31) & 1) as u8;
            trigger_time_tag = w & TRIGGER_TIME_MASK;
            assert((w >> 31) & 1 <= 1 && w & 0x7FFF_FFFF <= 0x7FFF_FFFF) by (bit_vector);
        }
        assert(*offset == waveform_offset(start, *ch_header));
        let waveform = if ch_header.samples_enabled {
            Some(V::decode_waveform(data, offset, ch_header))
        } else {
            None
        };
        assert(*offset == extras_offset(start, *ch_header));
        let mut time = EventTime::Ticks { coarse: trigger_time_tag as u64, fine: 0 };
        let mut fine_time: u16 = 0;
        let mut flags: u32 = 0;
        if ch_header.extras_enabled {
            let w = read_u32(data, *offset);
            *offset = *offset + 4;
            match decode_extras_word(w, ch_header.extra_option) {
                ExtrasDecoded::HwFineTs { extended_time, fine_time: ft, flags: fl } => {
                    time = EventTime::Ticks {
                        coarse: combined_time_tag(trigger_time_tag, extended_time),
                        fine: ft,
                    };
                    fine_time = ft;
                    flags = fl;
                },
                ExtrasDecoded::SwFineTs { before_zc, after_zc } => {
                    let (num, den) = V::sw_fine_fraction(before_zc, after_zc);
                    let full_ttt = self.tracker.reconstruct_subcounter(
                        self.extended_board_time,
                        trigger_time_tag as u64,
                        31,
                    );
                    time = EventTime::ZeroCrossing { coarse: full_ttt, num, den };
                    fine_time = fraction_fine_time(num, den);
                },
            }
        }
        assert(*offset == physics_offset(start, *ch_header));
        let mut energy_long: u16 = 0;
        let mut energy_short: u16 = 0;
        if ch_header.physics_enabled {
            let w = read_u32(data, *offset);
            *offset = *offset + 4;
            let (el, es, pileup) = V::decode_physics_word(w);
            energy_long = el;
            energy_short = es;
            if pileup {
                flags = flags | PILEUP_FLAG_BIT;
            }
        }
        proof {
            assert(flags | 0 == flags) by (bit_vector);
            assert(0u32 | PILEUP_FLAG_BIT == PILEUP_FLAG_BIT) by (bit_vector);
        }
        let user_info = [0u64, 0, 0, 0];
        assert(user_info@ =~= seq![0u64, 0u64, 0u64, 0u64]);
        EventData {
            time,
            module: self.config.module_id,
            channel: pair_index * 2 + channel_flag,
            energy: energy_long,
            energy_short,
            fine_time,
            flags,
            user_info,
            waveform,
        }
    }

    /// Decode `raw` into `all_events` (cleared first), sorted by time.
    /// Board aggregates are decoded while a header fits; the first one
    /// that cannot be read ends the decoding. Data that is not a data
    /// board aggregate yields no events.
    pub fn decode_into(&mut self, raw: &RawData, all_events: &mut Vec<EventData>)
        requires
                dig1_advances(raw.data@, 0, raw.size as int),
            old(self).run_state().0.rollover_count + raw.data@.len() < u64::MAX,
        ensures
            final(self).cfg() == old(self).cfg(),
            spec_dig1_classify(raw.size, raw.data@) != DataType::Event ==> final(all_events)@.len()
                == 0 && final(self).run_state() == old(self).run_state(),
            spec_dig1_classify(raw.size, raw.data@) == DataType::Event ==> ({
                let walk = dig1_walk::<V>(raw.data@, 0, raw.size as int, old(self).run_state());
                &&& final(self).run_state() == walk.1
                &&& exists|w: Seq<EventData>|
                    dig1_events_at::<V>(w, walk.0, raw.data@, old(self).cfg().module_id)
                        && final(all_events)@ == sort_by_time(w)
            }),
    {
        all_events.clear();
        if self.classify(raw) != DataType::Event {
            return;
        }
        let data = &raw.data;
        let total_bytes = raw.size;
        let ghost count0 = self.run_state().0.rollover_count;
        let ghost walk = dig1_walk::<V>(data@, 0, total_bytes as int, self.run_state());
        let ghost mut done: Seq<Dig1Site> = Seq::empty();
        let mut offset: usize = 0;
        let mut stop = false;
        assert(walk.0 =~= done + walk.0);
        while !stop && total_bytes >= BOARD_HEADER_SIZE_BYTES && offset <= total_bytes
            - BOARD_HEADER_SIZE_BYTES
            invariant
                    offset <= data@.len(),
                count0 + data@.len() < u64::MAX,
                self.run_state().0.rollover_count * 4 <= count0 * 4 + offset,
                self.cfg() == old(self).cfg(),
                !stop ==> dig1_advances(data@, offset as int, total_bytes as int),
                walk.0 == done + if stop {
                    Seq::<Dig1Site>::empty()
                } else {
                    dig1_walk::<V>(data@, offset as int, total_bytes as int, self.run_state()).0
                },
                walk.1 == if stop {
                    self.run_state()
                } else {
                    dig1_walk::<V>(data@, offset as int, total_bytes as int, self.run_state()).1
                },
                dig1_events_at::<V>(all_events@, done, data@, self.config.module_id),
            decreases data@.len() - offset, if stop { 0int } else { 1int },
        {
            let ghost before = offset as int;
            let ghost st = self.run_state();
            match self.decode_board_aggregate(data, &mut offset) {
                Ok(mut evs) => {
                    let ghost ev_seq = evs@;
                    let ghost old_all = all_events@;
                    all_events.append(&mut evs);
                    proof {
                        let h = spec_board_header(data@, before)->Ok_0;
                        let here = pair_sites::<V>(
                            data@,
                            before + 16,
                            offset as int,
                            h.dual_channel_mask,
                            0,
                            self.run_state().1,
                        );
                        let nd = done + here;
                        assert forall|i: int| 0 <= i < nd.len() implies #[trigger] dig1_event_is::<V>(
                            all_events@[i],
                            data@,
                            nd[i].0,
                            nd[i].1,
                            nd[i].2,
                            nd[i].3,
                            self.config.module_id,
                        ) by {
                            if i < done.len() {
                                assert(all_events@[i] == old_all[i]);
                            } else {
                                assert(all_events@[i] == ev_seq[i - done.len()]);
                                assert(nd[i] == here[i - done.len()]);
                            }
                        }
                        done = nd;
                        assert(walk.0 =~= done + dig1_walk::<V>(
                            data@,
                            offset as int,
                            total_bytes as int,
                            self.run_state(),
                        ).0);
                    }
                },
                Err(_) => {
                    stop = true;
                    proof {
                        assert(done + Seq::<Dig1Site>::empty() =~= done);
                    }
                },
            }
        }
        proof {
            if !stop {
                assert(done + Seq::<Dig1Site>::empty() =~= done);
            }
            assert(done =~= walk.0);
        }
        sort_events_by_time(all_events);
    }

    /// Decode `raw` into a new vector of events sorted by time.
    pub fn decode(&mut self, raw: &RawData) -> (events: Vec<EventData>)
        requires
                dig1_advances(raw.data@, 0, raw.size as int),
            old(self).run_state().0.rollover_count + raw.data@.len() < u64::MAX,
        ensures
            final(self).cfg() == old(self).cfg(),
            spec_dig1_classify(raw.size, raw.data@) != DataType::Event ==> events@.len() == 0
                && final(self).run_state() == old(self).run_state(),
            spec_dig1_classify(raw.size, raw.data@) == DataType::Event ==> ({
                let walk = dig1_walk::<V>(raw.data@, 0, raw.size as int, old(self).run_state());
                &&& final(self).run_state() == walk.1
                &&& exists|w: Seq<EventData>|
                    dig1_events_at::<V>(w, walk.0, raw.data@, old(self).cfg().module_id)
                        && events@ == sort_by_time(w)
            }),
    {
        let mut events = Vec::new();
        self.decode_into(raw, &mut events);
        events
    }

    /// Decode the board aggregate at `*offset`, leaving `*offset` at its
    /// end. A header that cannot be read, or an aggregate larger than the
    /// data, is refused with the run state unchanged.
    fn decode_board_aggregate(&mut self, data: &[u8], offset: &mut usize) -> (r: Result<
        Vec<EventData>,
        FrameError,
    >)
        requires
            *old(offset) <= data@.len(),
            *old(offset) + 16 <= data@.len() ==> old(self).run_state().0.rollover_count < u64::MAX,
        ensures
            final(self).cfg() == old(self).cfg(),
            final(self).run_state().0.rollover_count <= old(self).run_state().0.rollover_count + 1,
            r is Err ==> *final(offset) == *old(offset),
            match spec_board_header(data@, *old(offset) as int) {
                Err(e) => r == Err::<Vec<EventData>, FrameError>(e) && final(self).run_state()
                    == old(self).run_state(),
                Ok(h) => {
                    let block_end = *old(offset) + h.aggregate_size as int * 4;
                    if block_end > data@.len() {
                        r == Err::<Vec<EventData>, FrameError>(FrameError::AggregateTooLarge)
                            && final(self).run_state() == old(self).run_state()
                    } else {
                        let next = next_run_state(old(self).run_state(), h);
                        &&& r matches Ok(evs) && dig1_events_at::<V>(
                            evs@,
                            pair_sites::<V>(
                                data@,
                                *old(offset) + 16,
                                block_end,
                                h.dual_channel_mask,
                                0,
                                next.1,
                            ),
                            data@,
                            old(self).cfg().module_id,
                        )
                        &&& final(self).run_state() == next
                        &&& *final(offset) == block_end
                    }
                },
            },
    {
        proof {
            use_type_invariant(&*self);
        }
        let header = match decode_board_header(data, *offset) {
            Ok(h) => h,
            Err(e) => {
                return Err(e);
            },
        };
        let agg_bytes = aggregate_bytes(header.aggregate_size);
        if agg_bytes > (data.len() - *offset) as u64 {
            return Err(FrameError::AggregateTooLarge);
        }
        let block_end = *offset + agg_bytes as usize;
        self.last_aggregate_counter = header.aggregate_counter;
        let prev_extended = self.extended_board_time;
        let mut tracker = self.tracker.clone();
        proof {
            lemma_extend_step(tracker@, header.board_time_tag as u64);
        }
        let extended = tracker.extend(header.board_time_tag as u64);
        self.tracker = tracker;
        self.extended_board_time = match extended {
            Ok(t) => t,
            Err(_) => prev_extended,
        };
        *offset = *offset + BOARD_HEADER_SIZE_BYTES;
        let ghost bt = self.extended_board_time;
        let ghost all = pair_sites::<V>(data@, *offset as int, block_end as int, header.dual_channel_mask, 0, bt);
        let ghost mut done: Seq<Dig1Site> = Seq::empty();
        let mut events: Vec<EventData> = Vec::new();
        let mask = header.dual_channel_mask;
        let mut pair_index: u8 = 0;
        let mut stop = false;
        while pair_index < 8 && !stop
            invariant
                block_end <= data@.len(),
                    *offset <= data@.len(),
                pair_index <= 8,
                bt == self.extended_board_time,
                self.cfg() == old(self).cfg(),
                all == done + if stop {
                    Seq::<Dig1Site>::empty()
                } else {
                    pair_sites::<V>(data@, *offset as int, block_end as int, mask, pair_index as int, bt)
                },
                dig1_events_at::<V>(events@, done, data@, self.config.module_id),
            decreases 8 - pair_index, if stop { 0int } else { 1int },
        {
            let ghost before = *offset as int;
            let ghost rest = pair_sites::<V>(data@, before, block_end as int, mask, pair_index as int, bt);
            proof {
                lemma_mask_bit(mask, pair_index);
            }
            if mask & (1u8 << pair_index) == 0 {
                pair_index = pair_index + 1;
            } else if *offset >= block_end {
                stop = true;
                proof {
                    assert(done + Seq::<Dig1Site>::empty() =~= done);
                }
            } else {
                match self.decode_dual_channel_block(data, offset, pair_index, block_end) {
                    Ok(mut ch_events) => {
                        let ghost ch_evs = ch_events@;
                        let ghost old_evs = events@;
                        events.append(&mut ch_events);
                        proof {
                            let h = spec_channel_header(data@, before, V::spec_size_mask());
                            let ch_end = if before + h.block_size as int * 4 <= block_end {
                                before + h.block_size as int * 4
                            } else {
                                block_end as int
                            };
                            let size = spec_event_size_words(h);
                            let here = if size == 0 {
                                Seq::<Dig1Site>::empty()
                            } else {
                                block_sites(before + 8, ch_end, size, h, pair_index, bt)
                            };
                            assert(rest == here + pair_sites::<V>(
                                data@,
                                *offset as int,
                                block_end as int,
                                mask,
                                pair_index + 1,
                                bt,
                            ));
                            let nd = done + here;
                            assert forall|i: int| 0 <= i < nd.len() implies #[trigger] dig1_event_is::<V>(
                                events@[i],
                                data@,
                                nd[i].0,
                                nd[i].1,
                                nd[i].2,
                                nd[i].3,
                                self.config.module_id,
                            ) by {
                                if i < done.len() {
                                    assert(events@[i] == old_evs[i]);
                                } else {
                                    assert(events@[i] == ch_evs[i - done.len()]);
                                    assert(nd[i] == here[i - done.len()]);
                                }
                            }
                            done = nd;
                            assert(all =~= done + pair_sites::<V>(
                                data@,
                                *offset as int,
                                block_end as int,
                                mask,
                                pair_index + 1,
                                bt,
                            ));
                        }
                        pair_index = pair_index + 1;
                    },
                    Err(_) => {
                        stop = true;
                        proof {
                            assert(done + Seq::<Dig1Site>::empty() =~= done);
                        }
                    },
                }
            }
        }
        proof {
            if !stop {
                assert(done + Seq::<Dig1Site>::empty() =~= done);
            }
            assert(done =~= all);
        }
        *offset = block_end;
        Ok(events)
    }

    /// Decode the dual-channel block at `*offset` of pair `pair_index`,
    /// leaving `*offset` where the next block starts.
    fn decode_dual_channel_block(
        &self,
        data: &[u8],
        offset: &mut usize,
        pair_index: u8,
        block_end: usize,
    ) -> (r: Result<Vec<EventData>, FrameError>)
        requires
            pair_index < 8,
            *old(offset) < block_end <= data@.len(),
        ensures
            ({
                let off = *old(offset) as int;
                let h = spec_channel_header(data@, off, V::spec_size_mask());
                let ch_end = if off + h.block_size as int * 4 <= block_end {
                    off + h.block_size as int * 4
                } else {
                    block_end as int
                };
                let size = spec_event_size_words(h);
                if off + 8 > data@.len() {
                    r == Err::<Vec<EventData>, FrameError>(FrameError::InsufficientData)
                        && *final(offset) == off
                } else if size == 0 {
                    r matches Ok(evs) && evs@.len() == 0 && *final(offset) == off + 8
                } else {
                    &&& r matches Ok(evs) && dig1_events_at::<V>(
                        evs@,
                        block_sites(off + 8, ch_end, size, h, pair_index, self.run_state().1),
                        data@,
                        self.cfg().module_id,
                    )
                    &&& *final(offset) == ch_end
                }
            }),
    {
        let ghost off = *offset as int;
        let ch_header = match decode_dual_channel_header::<V>(data, *offset) {
            Ok(h) => h,
            Err(e) => {
                return Err(e);
            },
        };
        proof {
            assert(data@.len() == data.len());
        }
        let ch_bytes = ch_header.block_size as u64 * 4;
        let room = block_end - *offset;
        let ch_block_end = if ch_bytes <= room as u64 {
            *offset + ch_bytes as usize
        } else {
            block_end
        };
        *offset = *offset + CHANNEL_HEADER_SIZE_WORDS * WORD_SIZE;
        let event_size = ch_header.event_size_words();
        if event_size == 0 {
            return Ok(Vec::new());
        }
        let step = event_size * WORD_SIZE;
        let ghost start = *offset as int;
        let ghost sites = block_sites(
            start,
            ch_block_end as int,
            event_size as int,
            ch_header,
            pair_index,
            self.extended_board_time,
        );
        let mut events: Vec<EventData> = Vec::new();
        assert(events@.len() * step == 0) by (nonlinear_arith)
            requires
                events@.len() == 0,
        ;
        while *offset <= ch_block_end && step <= ch_block_end - *offset
            invariant
                start == off + 8,
                off + 8 <= data@.len(),
                ch_block_end <= block_end <= data@.len(),
                    pair_index < 8,
                step == event_size * 4,
                event_size == spec_event_size_words(ch_header),
                event_size > 0,
                event_size < 0x4_0000,
                *offset == start + events@.len() * step,
                *offset <= data@.len(),
                events@.len() <= sites.len(),
                sites == block_sites(
                    start,
                    ch_block_end as int,
                    event_size as int,
                    ch_header,
                    pair_index,
                    self.extended_board_time,
                ),
                dig1_events_at::<V>(
                    events@,
                    sites.take(events@.len() as int),
                    data@,
                    self.config.module_id,
                ),
            decreases ch_block_end - *offset,
        {
            let ghost k = events@.len() as int;
            proof {
                lemma_fits_below(ch_block_end - start, step as int, k);
                assert((k + 1) * step == k * step + step) by (nonlinear_arith);
            }
            let e = self.decode_event(data, offset, &ch_header, pair_index);
            events.push(e);
            proof {
                assert((k + 1) * step == k * step + step) by (nonlinear_arith);
                assert(sites[k] == (start + k * event_size * 4, ch_header, pair_index,
                    self.extended_board_time));
                assert(k * event_size * 4 == k * step) by (nonlinear_arith)
                    requires
                        step == event_size * 4,
                ;
                let t = sites.take(k + 1);
                assert forall|i: int| 0 <= i < t.len() implies #[trigger] dig1_event_is::<V>(
                    events@[i],
                    data@,
                    t[i].0,
                    t[i].1,
                    t[i].2,
                    t[i].3,
                    self.config.module_id,
                ) by {
                    if i < k {
                        assert(t[i] == sites.take(k)[i]);
                    }
                }
            }
        }
        proof {
            let k = events@.len() as int;
            lemma_fits_below(ch_block_end - start, step as int, k);
            assert(k * step + step == (k + 1) * step) by (nonlinear_arith);
            assert(sites.take(k) =~= sites);
        }
        *offset = ch_block_end;
        Ok(events)
    }
}

/// A DIG1 event's channel is its pair's even channel plus the odd-channel
/// flag (bit 31 of the time word when the time tag is enabled); with the
/// time tag and extras of option 2 (extended time and hardware fine time),
/// its coarse tick is the 16-bit extended time (extras bits [31:16]) above
/// the 31-bit trigger time tag, and its fine time is extras bits [9:0].
pub proof fn law_dig1_event_channel_and_time<V: Dig1Variant>(
    e: EventData,
    data: Seq<u8>,
    offset: int,
    h: Dig1ChannelHeader,
    pair: u8,
    board_time: u64,
    module_id: u8,
)
    requires
        dig1_event_is::<V>(e, data, offset, h, pair, board_time, module_id),
        pair < 8,
    ensures
        e.module == module_id,
        e.channel / 2 == pair,
        e.channel % 2 == if h.time_enabled {
            (le_u32_at(data, offset) >> 31u32) as int
        } else {
            0
        },
        (h.time_enabled && h.extras_enabled && h.extra_option == 2) ==> ({
            let tw = le_u32_at(data, offset);
            let x = le_u32_at(data, extras_offset(offset, h));
            e.time == EventTime::Ticks {
                coarse: (((x >> 16u32) as u64) << 31u64) | ((tw & 0x7FFF_FFFF) as u64),
                fine: (x & 0x3FF) as u16,
            }
        }),
{
    let tw = le_u32_at(data, offset);
    let x = le_u32_at(data, extras_offset(offset, h));
    assert((tw >> 31u32) & 1 == tw >> 31u32 && tw >> 31u32 <= 1 && (((x >> 16u32) & 0xFFFF) as u16)
        as u64 == (x >> 16u32) as u64) by (bit_vector);
    let et = (x >> 16u32) as u64;
    let t = (tw & 0x7FFF_FFFF) as u64;
    assert(et == (x >> 16u32) as u64 && t == (tw & 0x7FFF_FFFF) as u64 ==> et <= 0xFFFF && t
        <= 0x7FFF_FFFF && (et << 31u64) | t == et * 0x8000_0000 + t) by (bit_vector);
    assert(et * 0x8000_0000 + t < 0x1_0000_0000_0000_0000);
}

/// DIG1 buffers hold event data exactly when they are at least 16 bytes,
/// a whole number of 32-bit words, and the high nibble of their fourth
/// byte (the top of the first little-endian word) is 0xA, the board
/// aggregate type; everything else is unknown.
pub proof fn law_dig1_classify_bytes(size: usize, data: Seq<u8>)
    requires
        data.len() >= 4,
    ensures
        spec_dig1_classify(size, data) == DataType::Event <==> (size >= 16 && size % 4 == 0
            && data[3] >> 4u8 == 0xA),
        spec_dig1_classify(size, data) != DataType::Event ==> spec_dig1_classify(size, data)
            == DataType::Unknown,
{
    lemma_le_top_nibble(data);
}

/// A board aggregate header is read from its four little-endian words:
/// the first is the data type 0xA above the 28-bit aggregate size; the
/// second carries the board id (bits [31:27]), the board-fail flag (bit
/// 26) and the dual-channel mask (bits [7:0]); the third the 23-bit
/// aggregate counter; the fourth the board time tag. Fewer than 16 bytes
/// give no header.
pub proof fn law_board_header_words(data: Seq<u8>, offset: int)
    ensures
        offset + 16 > data.len() ==> spec_board_header(data, offset) == Err::<Dig1BoardHeader, FrameError>(
            FrameError::InsufficientData,
        ),
        spec_board_header(data, offset) matches Ok(h) ==> {
            let w0 = le_u32_at(data, offset);
            let w1 = le_u32_at(data, offset + 4);
            &&& w0 == 0xA000_0000u32 | h.aggregate_size
            &&& w1 & 0xFC00_00FF == ((h.board_id as u32) << 27u32) | (if h.board_fail {
                0x0400_0000u32
            } else {
                0u32
            }) | (h.dual_channel_mask as u32)
            &&& h.aggregate_counter == le_u32_at(data, offset + 8) & 0x7F_FFFF
            &&& h.board_time_tag == le_u32_at(data, offset + 12)
        },
{
    let w0 = le_u32_at(data, offset);
    let w1 = le_u32_at(data, offset + 4);
    assert(((w0 >> 28u32) & 0xF == 0xA ==> w0 == 0xA000_0000u32 | (w0 & 0x0FFF_FFFF)) && w1
        & 0xFC00_00FF == ((((w1 >> 27u32) & 0x1F) as u8 as u32) << 27u32) | (if (w1 >> 26u32) & 1
        != 0 { 0x0400_0000u32 } else { 0u32 }) | ((w1 & 0xFF) as u8 as u32)) by (bit_vector);
}

/// A DIG1 analog sample keeps the low 14 bits of its half-word: read
/// unsigned it is those bits, read signed the number in `[-8192, 8192)`
/// with those bits in two's complement; digital bits 14 and 15 are read as
/// 0 or 1.
pub proof fn lemma_dig1_sample_bits(x: u32, signed: bool)
    ensures
        (dig1_sample(x, signed) as int) % 0x4000 == (x & 0x3FFF) as int,
        signed ==> -0x2000 <= dig1_sample(x, signed) < 0x2000,
        !signed ==> dig1_sample(x, signed) as int == (x & 0x3FFF) as int,
        (((x >> 14u32) & 1) as u8) as u32 == (x >> 14u32) & 1,
        (((x >> 15u32) & 1) as u8) as u32 == (x >> 15u32) & 1,
{
    assert(x & 0x3FFF == x % 0x4000 && x & 0x3FFF < 0x4000 && (((x >> 14u32) & 1) as u8) as u32 == (x
        >> 14u32) & 1 && (((x >> 15u32) & 1) as u8) as u32 == (x >> 15u32) & 1) by (bit_vector);
    let v = (x % 0x4000) as int;
    vstd::arithmetic::div_mod::lemma_small_mod(v as nat, 0x4000);
    if signed && v >= 0x2000 {
        vstd::arithmetic::div_mod::lemma_mod_sub_multiples_vanish(v, 0x4000);
    }
}

/// The extras word under option 2 carries, from the top, the 16-bit
/// extended time, six flag bits and the 10-bit fine time, which put back
/// together give the word; under option 5 it carries the samples before
/// and after the zero crossing in its high and low halves; under option
/// 1 the extended time above 16 flag bits; under any other option only
/// the extended time is read.
pub proof fn law_extras_word_fields(word: u32, extra_option: u8)
    ensures
        extra_option == 2 ==> match spec_extras(word, extra_option) {
            ExtrasDecoded::HwFineTs { extended_time, fine_time, flags } => ((extended_time as u32)
                << 16u32) | (flags << 10u32) | (fine_time as u32) == word,
            _ => false,
        },
        extra_option == 5 ==> match spec_extras(word, extra_option) {
            ExtrasDecoded::SwFineTs { before_zc, after_zc } => ((before_zc as u32) << 16u32) | (
            after_zc as u32) == word,
            _ => false,
        },
        extra_option == 1 ==> spec_extras(word, extra_option) == (ExtrasDecoded::HwFineTs {
            extended_time: (word >> 16u32) as u16,
            fine_time: 0,
            flags: word & 0xFFFF,
        }),
        (extra_option != 1 && extra_option != 2 && extra_option != 5) ==> spec_extras(
            word,
            extra_option,
        ) == (ExtrasDecoded::HwFineTs { extended_time: (word >> 16u32) as u16, fine_time: 0, flags: 0 }),
{
    assert(((((word >> 16u32) & 0xFFFF) as u16) as u32) << 16u32 | (((word >> 10u32) & 0x3F) << 10u32)
        | (((word & 0x3FF) as u16) as u32) == word && ((((word >> 16u32) & 0xFFFF) as u16) as u32)
        << 16u32 | (((word & 0xFFFF) as u16) as u32) == word && ((word >> 16u32) & 0xFFFF) as u16
        == (word >> 16u32) as u16) by (bit_vector);
}

} // verus!
