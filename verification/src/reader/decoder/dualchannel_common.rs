//! Common framing for DPP-PSD2 / DPP-PHA2 (VX27xx / VX274x family) decoders.
//!
//! Both firmwares deliver the DIG2 RAW Individual-Trigger-Mode envelope: a
//! 64-bit big-endian aggregate header, per-event first/second words, and an
//! optional waveform (header + size word + samples). They differ only in the
//! `energy_short` slot of the second word and in the waveform-header probe
//! metadata, supplied by a [`Dig2Variant`].
//!
//! The framing trusts `total_words` (aggregate header) and the waveform size
//! word; it never second-guesses them with bit-pattern heuristics.

use vstd::prelude::*;
use core::marker::PhantomData;

use super::common::{
    lemma_first_byte_nibbles, lemma_signal_byte,
    be_u64_word, read_be_u64_word, sign_extend_14bit, sort_by_time, sort_events_by_time,
    reserved_digital_probes_empty, spec_sign_extend_14bit, word_count, DataType, EventData, EventTime, RawData, Waveform,
    UNKNOWN_PROBE_TYPE,
};

verus! {

pub const WORD_SIZE: usize = 8;
pub const MIN_DATA_SIZE: usize = 16;
pub const START_SIGNAL_SIZE: usize = 32;
pub const STOP_SIGNAL_SIZE: usize = 24;

/// Aggregate header: type nibble (bits 63..60) of a data aggregate.
pub const AGGREGATE_TYPE_DATA: u64 = 0x2;
/// Signal words: type 3, subtype 0 (start) or 2 (stop).
pub const SIGNAL_TYPE: u64 = 0x3;
pub const START_SUBTYPE: u64 = 0x0;
pub const STOP_SUBTYPE: u64 = 0x2;

/// Configuration shared by the PSD2 and PHA2 decoders. The ADC time step
/// is applied where timestamps are converted to nanoseconds.
#[derive(Debug, Clone, Copy)]
pub struct Dig2Config {
    /// Module ID stamped onto every emitted event.
    pub module_id: u8,
    /// Verbose dumping requested (diagnostics only).
    pub dump_enabled: bool,
    /// Number of physical channels; events above it are still emitted.
    pub num_channels: u8,
}

impl Dig2Config {
    /// Module 0, no dumping, 32 channels.
    pub open spec fn spec_default() -> Dig2Config {
        Dig2Config { module_id: 0, dump_enabled: false, num_channels: 32 }
    }

    /// Module 0, no dumping, 32 channels.
    pub fn default() -> (c: Self)
        ensures
            c == Self::spec_default(),
    {
        Dig2Config { module_id: 0, dump_enabled: false, num_channels: 32 }
    }
}

/// Sixteen digital probe types: the four given, the rest unknown.
pub open spec fn digital_types_padded(t: Seq<u8>) -> Seq<u8> {
    Seq::new(16, |i: int| if i < 4 { t[i] } else { UNKNOWN_PROBE_TYPE })
}

/// Per-probe metadata extracted from the waveform header.
#[derive(Debug, Clone, Copy)]
pub struct WaveformMetadata {
    pub analog_probe1_is_signed: bool,
    pub analog_probe2_is_signed: bool,
    pub analog_probe_type: [u8; 2],
    pub digital_probe_type: [u8; 4],
}

impl WaveformMetadata {
    /// All probes unsigned, all probe types unknown.
    pub open spec fn spec_default() -> WaveformMetadata {
        WaveformMetadata {
            analog_probe1_is_signed: false,
            analog_probe2_is_signed: false,
            analog_probe_type: [UNKNOWN_PROBE_TYPE, UNKNOWN_PROBE_TYPE],
            digital_probe_type: [
                UNKNOWN_PROBE_TYPE,
                UNKNOWN_PROBE_TYPE,
                UNKNOWN_PROBE_TYPE,
                UNKNOWN_PROBE_TYPE,
            ],
        }
    }

    /// All probes unsigned, all probe types unknown.
    pub fn default() -> (m: Self)
        ensures
            m == Self::spec_default(),
    {
        WaveformMetadata {
            analog_probe1_is_signed: false,
            analog_probe2_is_signed: false,
            analog_probe_type: [UNKNOWN_PROBE_TYPE, UNKNOWN_PROBE_TYPE],
            digital_probe_type: [
                UNKNOWN_PROBE_TYPE,
                UNKNOWN_PROBE_TYPE,
                UNKNOWN_PROBE_TYPE,
                UNKNOWN_PROBE_TYPE,
            ],
        }
    }

    /// Analog probe types padded to the three waveform slots.
    pub fn analog_probe_type_padded(&self) -> (r: [u8; 3])
        ensures
            r@ == seq![self.analog_probe_type[0], self.analog_probe_type[1], UNKNOWN_PROBE_TYPE],
    {
        let r = [self.analog_probe_type[0], self.analog_probe_type[1], UNKNOWN_PROBE_TYPE];
        assert(r@ =~= seq![self.analog_probe_type[0], self.analog_probe_type[1], UNKNOWN_PROBE_TYPE]);
        r
    }

    /// Digital probe types padded to the sixteen waveform slots.
    pub fn digital_probe_type_padded(&self) -> (r: [u8; 16])
        ensures
            r@ == digital_types_padded(self.digital_probe_type@),
    {
        let t = self.digital_probe_type;
        let u = UNKNOWN_PROBE_TYPE;
        let r = [t[0], t[1], t[2], t[3], u, u, u, u, u, u, u, u, u, u, u, u];
        assert(r@ =~= digital_types_padded(self.digital_probe_type@));
        r
    }
}

/// Per-firmware customization of the DIG2 RAW decoder.
pub trait Dig2Variant {
    /// `energy_short` carried by an event second word.
    spec fn spec_energy_short(second_word: u64) -> u16;

    /// Probe metadata carried by a waveform header.
    spec fn spec_waveform_metadata(wf_header: u64) -> WaveformMetadata;

    /// Firmware name used in diagnostics.
    spec fn spec_fw_name() -> Seq<char>;

    /// Firmware name used in diagnostics.
    fn fw_name() -> (r: &'static str)
        ensures
            r@ == Self::spec_fw_name(),
    ;

    fn decode_energy_short(second_word: u64) -> (r: u16)
        ensures
            r == Self::spec_energy_short(second_word),
    ;

    fn parse_waveform_metadata(wf_header: u64) -> (m: WaveformMetadata)
        ensures
            m == Self::spec_waveform_metadata(wf_header),
    ;
}

// ---------------------------------------------------------------------------
// Wire-format specification
// ---------------------------------------------------------------------------

/// Bit `s` of `w`.
pub open spec fn bit_of(w: u64, s: u64) -> bool {
    (w >> s) & 1 == 1
}

/// Whether the first word of `data` is a signal word of the given subtype.
pub open spec fn is_signal_word(data: Seq<u8>, subtype: u64) -> bool {
    let w = be_u64_word(data, 0);
    (w >> 60) & 0xF == SIGNAL_TYPE && (w >> 56) & 0xF == subtype
}

/// How the decoders classify an aggregate of `size` bytes.
pub open spec fn spec_dig2_classify(size: usize, data: Seq<u8>) -> DataType {
    if size < MIN_DATA_SIZE {
        DataType::Unknown
    } else if size == STOP_SIGNAL_SIZE && data.len() >= STOP_SIGNAL_SIZE && is_signal_word(
        data,
        STOP_SUBTYPE,
    ) {
        DataType::Stop
    } else if size == START_SIGNAL_SIZE && data.len() >= START_SIGNAL_SIZE && is_signal_word(
        data,
        START_SUBTYPE,
    ) {
        DataType::Start
    } else {
        DataType::Event
    }
}

/// Index just past the first word at or after `i` whose bit 63 is set (the
/// end of a special event's extra words), or the word count.
pub open spec fn drain_end(data: Seq<u8>, i: int) -> int
    decreases word_count(data) - i,
{
    if i < 0 || i >= word_count(data) {
        i
    } else if bit_of(be_u64_word(data, i), 63) {
        i + 1
    } else {
        drain_end(data, i + 1)
    }
}

/// Whether the waveform at word `at` has a valid header that fits.
pub open spec fn waveform_header_ok(data: Seq<u8>, at: int) -> bool {
    let h = be_u64_word(data, at);
    at + 2 <= word_count(data) && bit_of(h, 63) && (h >> 60) & 0x7 == 0
}

/// Number of sample words announced by the size word of the waveform at
/// `at`.
pub open spec fn waveform_size(data: Seq<u8>, at: int) -> int {
    (be_u64_word(data, at + 1) & 0xFFF) as int
}

/// Whether the waveform at word `at` is decoded (valid header, samples fit).
pub open spec fn waveform_present(data: Seq<u8>, at: int) -> bool {
    waveform_header_ok(data, at) && at + 2 + waveform_size(data, at) <= word_count(data)
}

/// Index after the waveform block starting at word `at`.
pub open spec fn waveform_end(data: Seq<u8>, at: int) -> int {
    if at + 2 > word_count(data) || !waveform_header_ok(data, at) {
        at
    } else if at + 2 + waveform_size(data, at) > word_count(data) {
        word_count(data)
    } else {
        at + 2 + waveform_size(data, at)
    }
}

/// 32-bit half-sample `k` of the waveform whose samples start at word `start`.
pub open spec fn half_sample(data: Seq<u8>, start: int, k: int) -> u32 {
    let w = be_u64_word(data, start + k / 2);
    (if k % 2 == 0 {
        w & 0xFFFF_FFFF
    } else {
        w >> 32
    }) as u32
}

/// 14-bit analog sample, sign-extended or not.
pub open spec fn analog_value(raw: u32, signed: bool) -> i16 {
    if signed {
        spec_sign_extend_14bit(raw)
    } else {
        (raw & 0x3FFF) as i16
    }
}

/// Single-bit probe `s` of a half-sample.
pub open spec fn probe_bit(x: u32, s: u32) -> u8 {
    ((x >> s) & 1) as u8
}

/// The waveform found at word `at` (header, size, samples).
pub open spec fn dig2_waveform_is(wf: Waveform, data: Seq<u8>, at: int, meta: WaveformMetadata) -> bool {
    let h = be_u64_word(data, at);
    let start = at + 2;
    let n = 2 * waveform_size(data, at);
    &&& wf.analog_probe1@ == Seq::new(n as nat, |k: int| analog_value(half_sample(data, start, k),
        meta.analog_probe1_is_signed))
    &&& wf.analog_probe2@ == Seq::new(n as nat, |k: int| analog_value(half_sample(data, start, k)
        >> 16, meta.analog_probe2_is_signed))
    &&& wf.digital_probe1@ == Seq::new(n as nat, |k: int| probe_bit(half_sample(data, start, k), 14))
    &&& wf.digital_probe2@ == Seq::new(n as nat, |k: int| probe_bit(half_sample(data, start, k), 15))
    &&& wf.digital_probe3@ == Seq::new(n as nat, |k: int| probe_bit(half_sample(data, start, k), 30))
    &&& wf.digital_probe4@ == Seq::new(n as nat, |k: int| probe_bit(half_sample(data, start, k), 31))
    &&& wf.analog_probe3@.len() == 0
    &&& wf.digital_probe5@.len() == 0
    &&& reserved_digital_probes_empty(wf)
    &&& wf.time_resolution == ((h >> 44) & 0x3) as u8
    &&& wf.trigger_threshold == ((h >> 28) & 0xFFFF) as u16
    &&& wf.analog_probe1_is_signed == meta.analog_probe1_is_signed
    &&& wf.analog_probe2_is_signed == meta.analog_probe2_is_signed
    &&& !wf.analog_probe3_is_signed
    &&& wf.analog_probe_type@ == seq![meta.analog_probe_type[0], meta.analog_probe_type[1],
        UNKNOWN_PROBE_TYPE]
    &&& wf.digital_probe_type@ == digital_types_padded(meta.digital_probe_type@)
}

/// Word index after decoding the event that starts at word `wi`.
pub open spec fn dig2_event_next(data: Seq<u8>, wi: int) -> int {
    let tw = word_count(data);
    let w1 = be_u64_word(data, wi);
    let w2 = be_u64_word(data, wi + 1);
    if wi >= tw {
        wi
    } else if bit_of(w1, 63) || wi + 1 >= tw {
        wi + 1
    } else if bit_of(w1, 55) {
        if bit_of(w2, 63) {
            wi + 2
        } else {
            drain_end(data, wi + 2)
        }
    } else if bit_of(w2, 62) {
        waveform_end(data, wi + 2)
    } else {
        wi + 2
    }
}

/// Whether the event starting at word `wi` yields an `EventData` (special
/// events and truncated tails do not).
pub open spec fn dig2_event_emitted(data: Seq<u8>, wi: int) -> bool {
    let tw = word_count(data);
    let w1 = be_u64_word(data, wi);
    wi < tw && (bit_of(w1, 63) || (wi + 1 < tw && !bit_of(w1, 55)))
}

/// The event decoded from word `wi`.
pub open spec fn dig2_event_is<V: Dig2Variant>(e: EventData, data: Seq<u8>, wi: int, module_id: u8) -> bool {
    let w1 = be_u64_word(data, wi);
    let w2 = be_u64_word(data, wi + 1);
    &&& e.module == module_id
    &&& e.channel == ((w1 >> 56) & 0x7F) as u8
    &&& e.user_info@ == seq![0u64, 0u64, 0u64, 0u64]
    &&& if bit_of(w1, 63) {
        // single-word compressed event
        &&& e.time == EventTime::Ticks { coarse: (w1 >> 16) & 0xFFFF_FFFF, fine: 0 }
        &&& e.energy == (w1 & 0xFFFF) as u16
        &&& e.energy_short == 0
        &&& e.fine_time == 0
        &&& e.flags == (((w1 >> 48) & 0xFF) << 12) as u32
        &&& e.waveform is None
    } else {
        &&& e.time == EventTime::Ticks {
            coarse: w1 & 0xFFFF_FFFF_FFFF,
            fine: ((w2 >> 16) & 0x3FF) as u16,
        }
        &&& e.energy == (w2 & 0xFFFF) as u16
        &&& e.energy_short == V::spec_energy_short(w2)
        &&& e.fine_time == ((w2 >> 16) & 0x3FF) as u16
        &&& e.flags == ((((w2 >> 42) & 0xFF) << 12) | ((w2 >> 50) & 0xFFF)) as u32
        &&& if bit_of(w2, 62) && waveform_present(data, wi + 2) {
            &&& e.waveform matches Some(wf)
            &&& dig2_waveform_is(wf, data, wi + 2, V::spec_waveform_metadata(be_u64_word(data, wi + 2)))
        } else {
            e.waveform is None
        }
    }
}

/// Start words (in stream order) of the events emitted while decoding from
/// word `wi` up to the aggregate's declared size `total`.
pub open spec fn dig2_event_starts(data: Seq<u8>, wi: int, total: int) -> Seq<int>
    decreases word_count(data) - wi,
{
    let next = dig2_event_next(data, wi);
    if wi >= total || next <= wi || next > word_count(data) {
        Seq::empty()
    } else if dig2_event_emitted(data, wi) {
        seq![wi].add(dig2_event_starts(data, next, total))
    } else {
        dig2_event_starts(data, next, total)
    }
}

/// Declared size (in words) of the aggregate whose header is `header`.
pub open spec fn aggregate_total_words(header: u64) -> int {
    (header & 0xFFFF_FFFF) as int
}

/// Whether `decode_into` would decode events from `raw` (an event
/// aggregate with a data-type header).
pub open spec fn dig2_decodes(size: usize, data: Seq<u8>) -> bool {
    spec_dig2_classify(size, data) == DataType::Event && (be_u64_word(data, 0) >> 60) & 0xF
        == AGGREGATE_TYPE_DATA
}

/// The events `decode_into` produces: one per emitted event start, in
/// stream order.
pub open spec fn dig2_events_are<V: Dig2Variant>(events: Seq<EventData>, size: usize, data: Seq<u8>, module_id: u8) -> bool {
    if dig2_decodes(size, data) {
        let starts = dig2_event_starts(data, 1, aggregate_total_words(be_u64_word(data, 0)));
        &&& events.len() == starts.len()
        &&& forall|i: int| 0 <= i < starts.len() ==> #[trigger] dig2_event_is::<V>(events[i], data,
            starts[i], module_id)
    } else {
        events.len() == 0
    }
}

// ---------------------------------------------------------------------------
// Termination facts
// ---------------------------------------------------------------------------

proof fn lemma_word_in_bounds(i: int, len: int)
    by (nonlinear_arith)
    requires
        0 <= i < len / 8,
        len >= 0,
    ensures
        i * 8 + 8 <= len,
{
}

proof fn lemma_drain_end_bounds(data: Seq<u8>, i: int)
    requires
        0 <= i <= word_count(data),
    ensures
        i <= drain_end(data, i) <= word_count(data),
    decreases word_count(data) - i,
{
    if i < word_count(data) && !bit_of(be_u64_word(data, i), 63) {
        lemma_drain_end_bounds(data, i + 1);
    }
}

proof fn lemma_event_next_bounds(data: Seq<u8>, wi: int)
    requires
        0 <= wi < word_count(data),
    ensures
        wi < dig2_event_next(data, wi) <= word_count(data),
{
    if wi + 1 < word_count(data) {
        lemma_drain_end_bounds(data, wi + 2);
    }
}

// ---------------------------------------------------------------------------
// Free helpers
// ---------------------------------------------------------------------------

/// Read the 64-bit big-endian word number `word_index`; 0 when out of
/// bounds.
pub fn read_u64(data: &[u8], word_index: usize) -> (r: u64)
    ensures
        r == be_u64_word(data@, word_index as int),
{
    read_be_u64_word(data, word_index)
}

fn decode_analog(raw: u32, signed: bool) -> (r: i16)
    ensures
        r == analog_value(raw, signed),
{
    if signed {
        sign_extend_14bit(raw)
    } else {
        (raw & 0x3FFF) as i16
    }
}

/// Decode the waveform block (header + size + samples) at `*word_index`.
/// Returns `None` (advancing past what was consumed) for an invalid header
/// or truncated samples.
fn decode_waveform<V: Dig2Variant>(data: &[u8], word_index: &mut usize) -> (r: Option<Waveform>)
    requires
        *old(word_index) <= word_count(data@),
    ensures
        *final(word_index) == waveform_end(data@, *old(word_index) as int),
        r is Some <==> waveform_present(data@, *old(word_index) as int),
        r matches Some(wf) ==> dig2_waveform_is(wf, data@, *old(word_index) as int,
            V::spec_waveform_metadata(be_u64_word(data@, *old(word_index) as int))),
{
    let total_words = data.len() / WORD_SIZE;
    let at = *word_index;
    if at + 2 > total_words {
        return None;
    }
    proof {
        lemma_word_in_bounds(at as int, data@.len() as int);
        lemma_word_in_bounds(at + 1, data@.len() as int);
    }
    let wf_header = read_u64(data, at);
    let check1 = (wf_header >> 63) & 0x1;
    let check2 = (wf_header >> 60) & 0x7;
    if check1 != 1 || check2 != 0 {
        return None;
    }
    *word_index = at + 1;
    let time_resolution = ((wf_header >> 44) & 0x3) as u8;
    let trigger_threshold = ((wf_header >> 28) & 0xFFFF) as u16;
    let metadata = V::parse_waveform_metadata(wf_header);

    let size_word = read_u64(data, at + 1);
    *word_index = at + 2;
    assert(size_word & 0xFFF <= 0xFFF) by (bit_vector);
    let n_waveform_words = (size_word & 0xFFF) as usize;
    if at + 2 + n_waveform_words > total_words {
        *word_index = total_words;
        return None;
    }
    let start = at + 2;
    let ghost n = 2 * n_waveform_words;
    let ghost sd = data@;

    let mut analog_probe1: Vec<i16> = Vec::new();
    let mut analog_probe2: Vec<i16> = Vec::new();
    let mut digital_probe1: Vec<u8> = Vec::new();
    let mut digital_probe2: Vec<u8> = Vec::new();
    let mut digital_probe3: Vec<u8> = Vec::new();
    let mut digital_probe4: Vec<u8> = Vec::new();

    let mut j: usize = 0;
    while j < n_waveform_words
        invariant
            start == at + 2,
            start + n_waveform_words <= total_words,
            total_words == word_count(sd),
            sd == data@,
            j <= n_waveform_words,
            *word_index == start + j,
            analog_probe1@ == Seq::new(2 * j as nat, |k: int| analog_value(half_sample(sd, start as int, k),
                metadata.analog_probe1_is_signed)),
            analog_probe2@ == Seq::new(2 * j as nat, |k: int| analog_value(half_sample(sd, start as int, k)
                >> 16, metadata.analog_probe2_is_signed)),
            digital_probe1@ == Seq::new(2 * j as nat, |k: int| probe_bit(half_sample(sd, start as int, k), 14)),
            digital_probe2@ == Seq::new(2 * j as nat, |k: int| probe_bit(half_sample(sd, start as int, k), 15)),
            digital_probe3@ == Seq::new(2 * j as nat, |k: int| probe_bit(half_sample(sd, start as int, k), 30)),
            digital_probe4@ == Seq::new(2 * j as nat, |k: int| probe_bit(half_sample(sd, start as int, k), 31)),
        decreases n_waveform_words - j,
    {
        proof {
            lemma_word_in_bounds((start + j) as int, sd.len() as int);
            assert(data@.len() == data.len());
        }
        let word = read_u64(data, start + j);
        *word_index = start + j + 1;
        let lo = (word & 0xFFFF_FFFF) as u32;
        let hi = (word >> 32) as u32;
        proof {
            assert(half_sample(sd, start as int, 2 * j as int) == lo);
            assert(half_sample(sd, start as int, 2 * j + 1) == hi);
        }
        analog_probe1.push(decode_analog(lo & 0x3FFF, metadata.analog_probe1_is_signed));
        analog_probe1.push(decode_analog(hi & 0x3FFF, metadata.analog_probe1_is_signed));
        analog_probe2.push(decode_analog((lo >> 16) & 0x3FFF, metadata.analog_probe2_is_signed));
        analog_probe2.push(decode_analog((hi >> 16) & 0x3FFF, metadata.analog_probe2_is_signed));
        digital_probe1.push(((lo >> 14) & 1) as u8);
        digital_probe1.push(((hi >> 14) & 1) as u8);
        digital_probe2.push(((lo >> 15) & 1) as u8);
        digital_probe2.push(((hi >> 15) & 1) as u8);
        digital_probe3.push(((lo >> 30) & 1) as u8);
        digital_probe3.push(((hi >> 30) & 1) as u8);
        digital_probe4.push(((lo >> 31) & 1) as u8);
        digital_probe4.push(((hi >> 31) & 1) as u8);
        proof {
            lemma_analog_masks(lo, metadata.analog_probe1_is_signed, metadata.analog_probe2_is_signed);
            lemma_analog_masks(hi, metadata.analog_probe1_is_signed, metadata.analog_probe2_is_signed);
            assert(analog_probe1@ =~= Seq::new(2 * (j + 1) as nat, |k: int| analog_value(half_sample(sd,
                start as int, k), metadata.analog_probe1_is_signed)));
            assert(analog_probe2@ =~= Seq::new(2 * (j + 1) as nat, |k: int| analog_value(half_sample(sd,
                start as int, k) >> 16, metadata.analog_probe2_is_signed)));
            assert(digital_probe1@ =~= Seq::new(2 * (j + 1) as nat, |k: int| probe_bit(half_sample(sd,
                start as int, k), 14)));
            assert(digital_probe2@ =~= Seq::new(2 * (j + 1) as nat, |k: int| probe_bit(half_sample(sd,
                start as int, k), 15)));
            assert(digital_probe3@ =~= Seq::new(2 * (j + 1) as nat, |k: int| probe_bit(half_sample(sd,
                start as int, k), 30)));
            assert(digital_probe4@ =~= Seq::new(2 * (j + 1) as nat, |k: int| probe_bit(half_sample(sd,
                start as int, k), 31)));
        }
        j = j + 1;
    }
    let analog_probe_type = metadata.analog_probe_type_padded();
    let digital_probe_type = metadata.digital_probe_type_padded();
    Some(
        Waveform {
            analog_probe1,
            analog_probe2,
            analog_probe3: Vec::new(),
            digital_probe1,
            digital_probe2,
            digital_probe3,
            digital_probe4,
            digital_probe5: Vec::new(),
            digital_probe6: Vec::new(),
            digital_probe7: Vec::new(),
            digital_probe8: Vec::new(),
            digital_probe9: Vec::new(),
            digital_probe10: Vec::new(),
            digital_probe11: Vec::new(),
            digital_probe12: Vec::new(),
            digital_probe13: Vec::new(),
            digital_probe14: Vec::new(),
            digital_probe15: Vec::new(),
            digital_probe16: Vec::new(),
            time_resolution,
            trigger_threshold,
            analog_probe1_is_signed: metadata.analog_probe1_is_signed,
            analog_probe2_is_signed: metadata.analog_probe2_is_signed,
            analog_probe3_is_signed: false,
            analog_probe_type,
            digital_probe_type,
        },
    )
}

proof fn lemma_analog_masks(x: u32, s1: bool, s2: bool)
    ensures
        analog_value(x & 0x3FFF, s1) == analog_value(x, s1),
        analog_value((x >> 16) & 0x3FFF, s2) == analog_value(x >> 16, s2),
{
    assert((x & 0x3FFF) & 0x3FFF == x & 0x3FFF) by (bit_vector);
    assert(((x >> 16) & 0x3FFF) & 0x3FFF == (x >> 16) & 0x3FFF) by (bit_vector);
    assert((x & 0x3FFF) % 0x4000 == x % 0x4000) by (bit_vector);
    assert(((x >> 16) & 0x3FFF) % 0x4000 == (x >> 16) % 0x4000) by (bit_vector);
}

// ---------------------------------------------------------------------------
// Decoder
// ---------------------------------------------------------------------------

/// Generic VX27xx/VX274x DIG2 RAW decoder, monomorphized per firmware.
pub struct Dig2Decoder<V: Dig2Variant> {
    pub config: Dig2Config,
    last_aggregate_counter: u16,
    fine_ts_clamp_warned: bool,
    fault_dumped: bool,
    _phantom: PhantomData<V>,
}

impl<V: Dig2Variant> Dig2Decoder<V> {
    /// The decoder's configuration.
    pub closed spec fn cfg(&self) -> Dig2Config {
        self.config
    }

    /// Counter of the last aggregate with a data header (0 after reset).
    pub closed spec fn last_aggregate_counter(&self) -> u16 {
        self.last_aggregate_counter
    }

    /// Whether an aggregate with out-of-range channels was seen this run.
    pub closed spec fn fault_seen(&self) -> bool {
        self.fault_dumped
    }

    /// Counter of the last aggregate with a data header.
    pub fn aggregate_counter(&self) -> (c: u16)
        ensures
            c == self.last_aggregate_counter(),
    {
        self.last_aggregate_counter
    }

    /// Whether an aggregate with out-of-range channels was seen this run.
    pub fn fault_dumped(&self) -> (b: bool)
        ensures
            b == self.fault_seen(),
    {
        self.fault_dumped
    }

    /// Whether an out-of-range fine timestamp was clamped this run.
    pub closed spec fn clamp_seen(&self) -> bool {
        self.fine_ts_clamp_warned
    }

    /// Whether an out-of-range fine timestamp was clamped this run.
    pub fn fine_ts_clamp_warned(&self) -> (b: bool)
        ensures
            b == self.clamp_seen(),
    {
        self.fine_ts_clamp_warned
    }

    pub fn new(config: Dig2Config) -> (d: Self)
        ensures
            d.cfg() == config,
            d.last_aggregate_counter() == 0,
            !d.fault_seen(),
            !d.clamp_seen(),
    {
        Dig2Decoder {
            config,
            last_aggregate_counter: 0,
            fine_ts_clamp_warned: false,
            fault_dumped: false,
            _phantom: PhantomData,
        }
    }

    pub fn with_defaults() -> (d: Self)
        ensures
            d.cfg() == Dig2Config::spec_default(),
            d.last_aggregate_counter() == 0,
            !d.fault_seen(),
    {
        Self::new(Dig2Config::default())
    }

    pub fn set_dump_enabled(&mut self, enabled: bool)
        ensures
            final(self).cfg() == (Dig2Config { dump_enabled: enabled, ..old(self).cfg() }),
            final(self).last_aggregate_counter() == old(self).last_aggregate_counter(),
            final(self).fault_seen() == old(self).fault_seen(),
    {
        self.config.dump_enabled = enabled;
    }

    /// Reset run-level state.
    pub fn reset_for_new_run(&mut self)
        ensures
            final(self).cfg() == old(self).cfg(),
            final(self).last_aggregate_counter() == 0,
            !final(self).fault_seen(),
            !final(self).clamp_seen(),
    {
        self.last_aggregate_counter = 0;
        self.fine_ts_clamp_warned = false;
        self.fault_dumped = false;
    }

    fn is_start_signal(&self, data: &[u8]) -> (r: bool)
        ensures
            r == (data@.len() >= START_SIGNAL_SIZE && is_signal_word(data@, START_SUBTYPE)),
    {
        if data.len() < START_SIGNAL_SIZE {
            return false;
        }
        let w = read_u64(data, 0);
        (w >> 60) & 0xF == SIGNAL_TYPE && (w >> 56) & 0xF == START_SUBTYPE
    }

    fn is_stop_signal(&self, data: &[u8]) -> (r: bool)
        ensures
            r == (data@.len() >= STOP_SIGNAL_SIZE && is_signal_word(data@, STOP_SUBTYPE)),
    {
        if data.len() < STOP_SIGNAL_SIZE {
            return false;
        }
        let w = read_u64(data, 0);
        (w >> 60) & 0xF == SIGNAL_TYPE && (w >> 56) & 0xF == STOP_SUBTYPE
    }

    /// Classify the data type by structural inspection.
    pub fn classify(&self, raw: &RawData) -> (t: DataType)
        ensures
            t == spec_dig2_classify(raw.size, raw.data@),
    {
        if raw.size < MIN_DATA_SIZE {
            return DataType::Unknown;
        }
        if raw.size == STOP_SIGNAL_SIZE && self.is_stop_signal(&raw.data) {
            return DataType::Stop;
        }
        if raw.size == START_SIGNAL_SIZE && self.is_start_signal(&raw.data) {
            return DataType::Start;
        }
        DataType::Event
    }

    /// Single-word compressed event (data-reduction mode).
    fn decode_single_word_event(&self, word: u64, channel: u8) -> (e: EventData)
        ensures
            e.module == self.cfg().module_id,
            e.channel == channel,
            e.time == (EventTime::Ticks { coarse: (word >> 16) & 0xFFFF_FFFF, fine: 0 }),
            e.energy == (word & 0xFFFF) as u16,
            e.energy_short == 0,
            e.fine_time == 0,
            e.flags == (((word >> 48) & 0xFF) << 12) as u32,
            e.waveform is None,
            e.user_info@ == seq![0u64, 0u64, 0u64, 0u64],
    {
        let flags_high = ((word >> 48) & 0xFF) as u32;
        let timestamp_reduced = (word >> 16) & 0xFFFF_FFFF;
        let energy = (word & 0xFFFF) as u16;
        assert((((word >> 48) & 0xFF) as u32) << 12 == (((word >> 48) & 0xFF) << 12) as u32)
            by (bit_vector);
        let user_info = [0u64, 0, 0, 0];
        assert(user_info@ =~= seq![0u64, 0u64, 0u64, 0u64]);
        EventData {
            time: EventTime::Ticks { coarse: timestamp_reduced, fine: 0 },
            module: self.config.module_id,
            channel,
            energy,
            energy_short: 0,
            fine_time: 0,
            flags: flags_high << 12,
            user_info,
            waveform: None,
        }
    }

    /// Decode one event at `*word_index`. Returns `None` for special events
    /// (their extra words are skipped) and for a truncated tail.
    fn decode_event(&mut self, data: &[u8], word_index: &mut usize) -> (r: Option<EventData>)
        requires
            *old(word_index) <= word_count(data@),
        ensures
            *final(word_index) == dig2_event_next(data@, *old(word_index) as int),
            r is Some <==> dig2_event_emitted(data@, *old(word_index) as int),
            r matches Some(e) ==> dig2_event_is::<V>(e, data@, *old(word_index) as int,
                old(self).cfg().module_id),
            final(self).cfg() == old(self).cfg(),
            final(self).last_aggregate_counter() == old(self).last_aggregate_counter(),
            final(self).fault_seen() == old(self).fault_seen(),
    {
        let total_words = data.len() / WORD_SIZE;
        let wi = *word_index;
        if wi >= total_words {
            return None;
        }
        proof {
            lemma_word_in_bounds(wi as int, data@.len() as int);
        }
        let first_word = read_u64(data, wi);
        *word_index = wi + 1;
        let channel = ((first_word >> 56) & 0x7F) as u8;
        if (first_word >> 63) & 0x1 == 1 {
            return Some(self.decode_single_word_event(first_word, channel));
        }
        let is_special_event = ((first_word >> 55) & 0x1) == 1;
        let raw_timestamp = first_word & 0xFFFF_FFFF_FFFF;
        if wi + 1 >= total_words {
            return None;
        }
        proof {
            lemma_word_in_bounds(wi + 1, data@.len() as int);
        }
        let second_word = read_u64(data, wi + 1);
        *word_index = wi + 2;
        let has_waveform = ((second_word >> 62) & 0x1) == 1;
        let is_last = ((second_word >> 63) & 0x1) == 1;
        if is_special_event {
            if !is_last {
                let ghost start = (wi + 2) as int;
                while *word_index < total_words
                    invariant_except_break
                        drain_end(data@, *word_index as int) == drain_end(data@, start),
                    invariant
                        start <= *word_index <= total_words,
                        total_words == word_count(data@),
                    ensures
                        *word_index == drain_end(data@, start),
                    decreases total_words - *word_index,
                {
                    proof {
                        lemma_word_in_bounds(*word_index as int, data@.len() as int);
                        assert(data@.len() == data.len());
                    }
                    let extra_word = read_u64(data, *word_index);
                    *word_index = *word_index + 1;
                    if (extra_word >> 63) & 0x1 == 1 {
                        break;
                    }
                }
            }
            return None;
        }
        let flags_low = (second_word >> 50) & 0xFFF;
        let flags_high = (second_word >> 42) & 0xFF;
        let flags = ((flags_high << 12) | flags_low) as u32;
        let energy = (second_word & 0xFFFF) as u16;
        let energy_short = V::decode_energy_short(second_word);
        let raw_fine_ts = ((second_word >> 16) & 0x3FF) as u16;
        assert((second_word >> 16) & 0x3FF <= 0x3FF) by (bit_vector);
        let fine_time = if raw_fine_ts >= 1024 {
            self.fine_ts_clamp_warned = true;
            1023
        } else {
            raw_fine_ts
        };
        let waveform = if has_waveform {
            decode_waveform::<V>(data, word_index)
        } else {
            None
        };
        let user_info = [0u64, 0, 0, 0];
        assert(user_info@ =~= seq![0u64, 0u64, 0u64, 0u64]);
        Some(
            EventData {
                time: EventTime::Ticks { coarse: raw_timestamp, fine: fine_time },
                module: self.config.module_id,
                channel,
                energy,
                energy_short,
                fine_time,
                flags,
                user_info,
                waveform,
            },
        )
    }

    /// Check the aggregate header type and record its counter.
    fn validate_header(&mut self, header: u64) -> (ok: bool)
        ensures
            ok == ((header >> 60) & 0xF == AGGREGATE_TYPE_DATA),
            final(self).cfg() == old(self).cfg(),
            final(self).fault_seen() == old(self).fault_seen(),
            final(self).last_aggregate_counter() == if ok {
                ((header >> 32) & 0xFFFF) as u16
            } else {
                old(self).last_aggregate_counter()
            },
    {
        let header_type = (header >> 60) & 0xF;
        if header_type != AGGREGATE_TYPE_DATA {
            return false;
        }
        let aggregate_counter = ((header >> 32) & 0xFFFF) as u16;
        self.last_aggregate_counter = aggregate_counter;
        true
    }

    /// Whether the aggregate's declared size fits in its data, which
    /// `decode_into` needs in order to terminate.
    pub fn declared_size_fits(raw: &RawData) -> (r: bool)
        ensures
            r == (dig2_decodes(raw.size, raw.data@) ==> aggregate_total_words(be_u64_word(raw.data@, 0))
                <= word_count(raw.data@)),
    {
        let header = read_u64(&raw.data, 0);
        let decodes = if raw.size < MIN_DATA_SIZE {
            false
        } else if raw.size == STOP_SIGNAL_SIZE && raw.data.len() >= STOP_SIGNAL_SIZE && (header
            >> 60) & 0xF == SIGNAL_TYPE && (header >> 56) & 0xF == STOP_SUBTYPE {
            false
        } else if raw.size == START_SIGNAL_SIZE && raw.data.len() >= START_SIGNAL_SIZE && (header
            >> 60) & 0xF == SIGNAL_TYPE && (header >> 56) & 0xF == START_SUBTYPE {
            false
        } else {
            (header >> 60) & 0xF == AGGREGATE_TYPE_DATA
        };
        assert(header & 0xFFFF_FFFF <= 0xFFFF_FFFF) by (bit_vector);
        !decodes || (header & 0xFFFF_FFFF) as usize <= raw.data.len() / WORD_SIZE
    }

    /// Decode an aggregate into `events` (cleared first), sorted by time.
    /// Start/stop/unknown data and special events produce no events.
    pub fn decode_into(&mut self, raw: &RawData, events: &mut Vec<EventData>)
        requires
            dig2_decodes(raw.size, raw.data@) ==> aggregate_total_words(be_u64_word(raw.data@, 0))
                <= word_count(raw.data@),
        ensures
            exists|w: Seq<EventData>|
                dig2_events_are::<V>(w, raw.size, raw.data@, old(self).cfg().module_id)
                    && final(events)@ == sort_by_time(w),
            final(self).cfg() == old(self).cfg(),
            final(self).last_aggregate_counter() == if dig2_decodes(raw.size, raw.data@) {
                ((be_u64_word(raw.data@, 0) >> 32) & 0xFFFF) as u16
            } else {
                old(self).last_aggregate_counter()
            },
    {
        events.clear();
        assert(sort_by_time(events@) == events@);
        let data_type = self.classify(raw);
        if data_type != DataType::Event {
            assert(dig2_events_are::<V>(events@, raw.size, raw.data@, self.config.module_id));
            return;
        }
        let data = &raw.data;
        let header = read_u64(data, 0);
        if !self.validate_header(header) {
            assert(dig2_events_are::<V>(events@, raw.size, raw.data@, self.config.module_id));
            return;
        }
        assert(header & 0xFFFF_FFFF <= 0xFFFF_FFFF) by (bit_vector);
        let total_size = (header & 0xFFFF_FFFF) as usize;
        let ghost sd = data@;
        let ghost all_starts = dig2_event_starts(sd, 1, total_size as int);
        let ghost mut done: Seq<int> = Seq::empty();
        let mut word_index: usize = 1;
        let mut out_of_range_count: u32 = 0;
        proof {
            assert(all_starts == done + dig2_event_starts(sd, 1, total_size as int));
        }
        while word_index < total_size
            invariant
                sd == data@,
                total_size <= word_count(sd),
                1 <= word_index,
                word_index <= word_count(sd) || word_index == 1,
                all_starts == done + dig2_event_starts(sd, word_index as int, total_size as int),
                events@.len() == done.len(),
                forall|i: int| 0 <= i < done.len() ==> #[trigger] dig2_event_is::<V>(events@[i], sd,
                    done[i], self.config.module_id),
                self.cfg() == old(self).cfg(),
                self.last_aggregate_counter() == ((header >> 32) & 0xFFFF) as u16,
            decreases word_count(sd) - word_index,
        {
            let ghost before = word_index as int;
            proof {
                lemma_event_next_bounds(sd, before);
            }
            let decoded = self.decode_event(data, &mut word_index);
            match decoded {
                Some(event) => {
                    if event.channel >= self.config.num_channels {
                        if out_of_range_count < u32::MAX {
                            out_of_range_count = out_of_range_count + 1;
                        }
                    }
                    events.push(event);
                    proof {
                        done = done.push(before);
                        assert(dig2_event_starts(sd, before, total_size as int) == seq![before].add(
                            dig2_event_starts(sd, word_index as int, total_size as int)));
                        assert(all_starts =~= done + dig2_event_starts(sd, word_index as int,
                            total_size as int));
                    }
                },
                None => {
                    proof {
                        assert(dig2_event_starts(sd, before, total_size as int) == dig2_event_starts(
                            sd, word_index as int, total_size as int));
                    }
                },
            }
        }
        if out_of_range_count > 0 && !self.fault_dumped {
            self.fault_dumped = true;
        }
        proof {
            assert(done =~= all_starts);
        }
        sort_events_by_time(events);
    }

    /// Decode an aggregate into a new vector.
    pub fn decode(&mut self, raw: &RawData) -> (events: Vec<EventData>)
        requires
            dig2_decodes(raw.size, raw.data@) ==> aggregate_total_words(be_u64_word(raw.data@, 0))
                <= word_count(raw.data@),
        ensures
            exists|w: Seq<EventData>|
                dig2_events_are::<V>(w, raw.size, raw.data@, old(self).cfg().module_id)
                    && events@ == sort_by_time(w),
            final(self).cfg() == old(self).cfg(),
    {
        let mut events = Vec::new();
        self.decode_into(raw, &mut events);
        events
    }
}

/// The fields of a decoded DIG2 event put back together give the event
/// words they came from: for a one-word event, channel (bits [62:56]),
/// coarse time (bits [47:16]) and energy (bits [15:0]) of its word; for a
/// standard event, channel and 48-bit coarse time of the first word, and
/// fine time (bits [25:16]) and energy (bits [15:0]) of the second.
pub proof fn law_dig2_event_fields<V: Dig2Variant>(e: EventData, data: Seq<u8>, wi: int, module_id: u8)
    requires
        dig2_event_is::<V>(e, data, wi, module_id),
    ensures
        e.module == module_id,
        e.time matches EventTime::Ticks { coarse, fine } && if bit_of(be_u64_word(data, wi), 63) {
            &&& ((e.channel as u64) << 56u64) | (coarse << 16u64) | (e.energy as u64) == be_u64_word(
                data,
                wi,
            ) & 0x7F00_FFFF_FFFF_FFFF
            &&& fine == 0
            &&& e.waveform is None
        } else {
            &&& ((e.channel as u64) << 56u64) | coarse == be_u64_word(data, wi) & 0x7F00_FFFF_FFFF_FFFF
            &&& ((fine as u64) << 16u64) | (e.energy as u64) == be_u64_word(data, wi + 1) & 0x3FF_FFFF
            &&& e.fine_time == fine
        },
{
    let w1 = be_u64_word(data, wi);
    let w2 = be_u64_word(data, wi + 1);
    assert((((w1 >> 56u64) & 0x7F) as u8) as u64 == (w1 >> 56u64) & 0x7F && ((w1 & 0xFFFF) as u16)
        as u64 == w1 & 0xFFFF && ((w2 & 0xFFFF) as u16) as u64 == w2 & 0xFFFF && (((w2 >> 16u64)
        & 0x3FF) as u16) as u64 == (w2 >> 16u64) & 0x3FF && ((w1 >> 56u64) & 0x7F) << 56u64 | (((w1
        >> 16u64) & 0xFFFF_FFFF) << 16u64) | (w1 & 0xFFFF) == w1 & 0x7F00_FFFF_FFFF_FFFF && ((w1
        >> 56u64) & 0x7F) << 56u64 | (w1 & 0xFFFF_FFFF_FFFF) == w1 & 0x7F00_FFFF_FFFF_FFFF && ((w2
        >> 16u64) & 0x3FF) << 16u64 | (w2 & 0xFFFF) == w2 & 0x3FF_FFFF) by (bit_vector);
}

/// DIG2 buffers are told apart by size and first byte: a Start signal is
/// a 32-byte buffer whose first byte is 0x30, a Stop signal a 24-byte
/// buffer whose first byte is 0x32, anything under 16 bytes is unknown,
/// and every other buffer is event data.
pub proof fn law_dig2_classify_bytes(size: usize, data: Seq<u8>)
    ensures
        spec_dig2_classify(size, data) == DataType::Start <==> (size == 32 && data.len() >= 32
            && data[0] == 0x30),
        spec_dig2_classify(size, data) == DataType::Stop <==> (size == 24 && data.len() >= 24
            && data[0] == 0x32),
        spec_dig2_classify(size, data) == DataType::Unknown <==> size < 16,
{
    if data.len() >= 8 {
        lemma_first_byte_nibbles(data);
        lemma_signal_byte(data[0], 0);
        lemma_signal_byte(data[0], 2);
    }
}

/// A 14-bit analog sample keeps the low 14 bits of its raw value: read
/// unsigned it is those bits, read signed it is the number in
/// `[-8192, 8192)` with those bits in two's complement.
pub proof fn law_analog_value_keeps_low_bits(raw: u32, signed: bool)
    ensures
        (analog_value(raw, signed) as int) % 0x4000 == (raw & 0x3FFF) as int,
        signed ==> -0x2000 <= analog_value(raw, signed) < 0x2000,
        !signed ==> 0 <= analog_value(raw, signed) < 0x4000,
{
    assert(raw & 0x3FFF == raw % 0x4000 && raw & 0x3FFF < 0x4000) by (bit_vector);
    let v = (raw % 0x4000) as int;
    if signed && v >= 0x2000 {
        assert((v - 0x4000) % 0x4000 == v % 0x4000) by {
            vstd::arithmetic::div_mod::lemma_mod_sub_multiples_vanish(v, 0x4000);
        }
        vstd::arithmetic::div_mod::lemma_small_mod(v as nat, 0x4000);
    } else {
        vstd::arithmetic::div_mod::lemma_small_mod(v as nat, 0x4000);
    }
}

/// Each 32-bit half-sample of a DIG2 waveform carries, from bit 0 up:
/// analog probe 1 (14 bits), digital probes 1 and 2 (bits 14 and 15),
/// analog probe 2 (14 bits from bit 16) and digital probes 3 and 4 (bits
/// 30 and 31); two half-samples per word, the low half first.
pub proof fn law_dig2_waveform_samples(wf: Waveform, data: Seq<u8>, at: int, meta: WaveformMetadata, k: int)
    requires
        dig2_waveform_is(wf, data, at, meta),
        0 <= k < 2 * waveform_size(data, at),
    ensures
        ({
            let w = be_u64_word(data, at + 2 + k / 2);
            let x: u32 = (if k % 2 == 0 {
                w & 0xFFFF_FFFF
            } else {
                w >> 32u64
            }) as u32;
            &&& (wf.analog_probe1@[k] as int) % 0x4000 == (x & 0x3FFF) as int
            &&& (wf.analog_probe2@[k] as int) % 0x4000 == ((x >> 16u32) & 0x3FFF) as int
            &&& wf.digital_probe1@[k] as u32 == (x >> 14u32) & 1
            &&& wf.digital_probe2@[k] as u32 == (x >> 15u32) & 1
            &&& wf.digital_probe3@[k] as u32 == (x >> 30u32) & 1
            &&& wf.digital_probe4@[k] as u32 == (x >> 31u32) & 1
        }),
{
    let x = half_sample(data, at + 2, k);
    law_analog_value_keeps_low_bits(x, meta.analog_probe1_is_signed);
    law_analog_value_keeps_low_bits(x >> 16u32, meta.analog_probe2_is_signed);
    assert(((x >> 16u32) & 0x3FFF) == ((x >> 16u32) & 0x3FFF));
    assert(((((x >> 14u32) & 1) as u8) as u32 == (x >> 14u32) & 1) && ((((x >> 15u32) & 1) as u8) as u32
        == (x >> 15u32) & 1) && ((((x >> 30u32) & 1) as u8) as u32 == (x >> 30u32) & 1) && ((((x
        >> 31u32) & 1) as u8) as u32 == (x >> 31u32) & 1)) by (bit_vector);
}

} // verus!
