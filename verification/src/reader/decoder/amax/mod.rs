//! AMax decoder for the DELILA custom firmware (trapezoidal-filter MCA).
//!
//! Each event is a header word (channel, special-event bit, 48-bit
//! timestamp), a data word (flags, PSD, fine time, energy, waveform flag),
//! user words up to the one with bit 63 set (AMax value, baseline, ...)
//! and, when flagged, a waveform: a header with the word count and 64-bit
//! sample words. Special events carry the debug firmware's four-lane
//! waveform instead of the single raw lane. One tick is 8 ns.

use vstd::prelude::*;

use super::common::{
    lemma_first_byte_nibbles, lemma_signal_byte,
    be_u64_word, default_unknown_analog_probe_types, default_unknown_digital_probe_types,
    read_be_u64_word, reserved_digital_probes_empty, word_count, DataType, EventData, EventTime,
    RawData, Waveform, UNKNOWN_PROBE_TYPE,
};

pub mod amax_probe_types;
pub mod constants;

use self::constants::{
    CHANNEL_MASK, CHANNEL_SHIFT, ENERGY_MASK, FINE_TIME_MASK, FINE_TIME_SHIFT, FLAGS_A_MASK,
    FLAGS_A_SHIFT, FLAGS_B_MASK, FLAGS_B_SHIFT, LAST_WORD_SHIFT, MIN_EVENT_SIZE, PSD_MASK,
    PSD_SHIFT, SIGNAL_SUBTYPE_SHIFT, SIGNAL_TYPE_SHIFT, SPECIAL_EVENT_SHIFT, START_SIGNAL_SIZE,
    START_SIGNAL_SUBTYPE, START_SIGNAL_TYPE, STOP_SIGNAL_SIZE, STOP_SIGNAL_SUBTYPE,
    STOP_SIGNAL_TYPE, TIMESTAMP_MASK, USER_DATA_MASK, USER_LAST_WORD_SHIFT, WAVEFORM_FLAG_SHIFT,
    WAVEFORM_WORDS_MASK, WORD_SIZE,
};

verus! {

/// AMax decoder configuration.
#[derive(Debug, Clone, Copy)]
pub struct AMaxConfig {
    /// Module ID carried into emitted events.
    pub module_id: u8,
    /// Diagnostics dumping requested.
    pub dump_enabled: bool,
    /// Number of physical channels (AMax typically uses only channel 0).
    pub num_channels: u8,
}

impl AMaxConfig {
    pub open spec fn spec_default() -> AMaxConfig {
        AMaxConfig { module_id: 0, dump_enabled: false, num_channels: 1 }
    }

    /// Module 0, no dumping, one channel.
    pub fn default() -> (c: Self)
        ensures
            c == Self::spec_default(),
    {
        AMaxConfig { module_id: 0, dump_enabled: false, num_channels: 1 }
    }
}

/// An AMax event: the common event and the two leading user words.
#[derive(Debug, Clone)]
pub struct AMaxEventData {
    pub base: EventData,
    /// AMax amplitude (user word 0), when non-zero.
    pub amax_value: Option<u64>,
    /// Baseline (user word 1), when non-zero.
    pub baseline: Option<u64>,
}

/// AMax decoder for the DELILA custom firmware.
#[derive(Debug, Clone, Copy)]
pub struct AMaxDecoder {
    pub config: AMaxConfig,
}

// ---------------------------------------------------------------------------
// Wire-format specification
// ---------------------------------------------------------------------------

/// Bit `s` of `w` is set.
pub open spec fn word_bit(w: u64, s: u64) -> bool {
    (w >> s) & 1 != 0
}

/// A start (subtype 0) or stop (subtype 2) signal word leads `data`.
pub open spec fn is_signal(data: Seq<u8>, min_len: int, subtype: u64) -> bool {
    let w = be_u64_word(data, 0);
    &&& data.len() >= min_len
    &&& (w >> SIGNAL_TYPE_SHIFT) & 0xF == START_SIGNAL_TYPE
    &&& (w >> SIGNAL_SUBTYPE_SHIFT) & 0xF == subtype
}

pub open spec fn spec_amax_classify(size: usize, data: Seq<u8>) -> DataType {
    if size < MIN_EVENT_SIZE {
        if size == STOP_SIGNAL_SIZE && is_signal(data, STOP_SIGNAL_SIZE as int, STOP_SIGNAL_SUBTYPE) {
            DataType::Stop
        } else {
            DataType::Unknown
        }
    } else if size == START_SIGNAL_SIZE && is_signal(
        data,
        START_SIGNAL_SIZE as int,
        START_SIGNAL_SUBTYPE,
    ) {
        DataType::Start
    } else {
        DataType::Event
    }
}

/// Word index after the user words starting at word `j`: past the first
/// one with bit 63 set, or `total`.
pub open spec fn user_words_end(data: Seq<u8>, j: int, total: int) -> int
    decreases total - j,
{
    if j >= total {
        j
    } else if word_bit(be_u64_word(data, j), USER_LAST_WORD_SHIFT) {
        j + 1
    } else {
        user_words_end(data, j + 1, total)
    }
}

/// Word index of the waveform header of the event at word `wi` (after its
/// user words, which the data word announces unless it is marked last).
pub open spec fn amax_wave_at(data: Seq<u8>, wi: int, total: int) -> int {
    if word_bit(be_u64_word(data, wi + 1), LAST_WORD_SHIFT) {
        wi + 2
    } else {
        user_words_end(data, wi + 2, total)
    }
}

/// Sample words of the waveform with header at word `at`, as many as the
/// header announces and the data holds.
pub open spec fn amax_wave_words(data: Seq<u8>, at: int, total: int) -> int {
    let c = (be_u64_word(data, at) & WAVEFORM_WORDS_MASK) as int;
    if at + 1 + c <= total {
        c
    } else {
        total - at - 1
    }
}

/// The event at word `wi` has a waveform to decode.
pub open spec fn amax_has_waveform(data: Seq<u8>, wi: int, total: int) -> bool {
    word_bit(be_u64_word(data, wi + 1), WAVEFORM_FLAG_SHIFT) && amax_wave_at(data, wi, total) < total
}

/// Word index after the event at word `wi`.
pub open spec fn amax_event_next(data: Seq<u8>, wi: int, total: int) -> int {
    let at = amax_wave_at(data, wi, total);
    if amax_has_waveform(data, wi, total) {
        at + 1 + amax_wave_words(data, at, total)
    } else {
        at
    }
}

/// Word indices where events start, from word `wi` on.
pub open spec fn amax_event_starts(data: Seq<u8>, wi: int, total: int) -> Seq<int>
    decreases total - wi,
{
    if wi < 0 || wi + 1 >= total {
        Seq::empty()
    } else {
        let next = amax_event_next(data, wi, total);
        if next <= wi || next > total {
            Seq::empty()
        } else {
            seq![wi].add(amax_event_starts(data, next, total))
        }
    }
}

/// 16-bit lane `l` (0 = least significant) of `w`.
pub open spec fn lane(w: u64, l: int) -> i16 {
    if l == 0 {
        (w & 0xFFFF) as i16
    } else if l == 1 {
        ((w >> 16) & 0xFFFF) as i16
    } else if l == 2 {
        ((w >> 32) & 0xFFFF) as i16
    } else {
        ((w >> 48) & 0xFFFF) as i16
    }
}

/// Bit `b` of the digital lane (bits 63..48) of `w`.
pub open spec fn digital_bit(w: u64, b: u64) -> u8 {
    ((((w >> 48) & 0xFFFF) >> b) & 1) as u8
}

/// The waveform whose header is word `at`: the raw lane four samples per
/// word, or (debug firmware) one sample of four lanes per word, the last
/// lane carrying five digital signals in bits 15 to 11.
pub open spec fn amax_waveform_is(wf: Waveform, data: Seq<u8>, at: int, total: int, debug: bool) -> bool {
    let n = amax_wave_words(data, at, total);
    let s = at + 1;
    &&& reserved_digital_probes_empty(wf)
    &&& wf.time_resolution == 0
    &&& wf.trigger_threshold == 0
    &&& if !debug {
        &&& wf.analog_probe1@ == Seq::new(
            (4 * n) as nat,
            |i: int| lane(be_u64_word(data, s + i / 4), i % 4),
        )
        &&& wf.analog_probe2@.len() == 0
        &&& wf.analog_probe3@.len() == 0
        &&& wf.digital_probe1@.len() == 0
        &&& wf.digital_probe2@.len() == 0
        &&& wf.digital_probe3@.len() == 0
        &&& wf.digital_probe4@.len() == 0
        &&& wf.digital_probe5@.len() == 0
        &&& !wf.analog_probe1_is_signed
        &&& !wf.analog_probe2_is_signed
        &&& !wf.analog_probe3_is_signed
        &&& wf.analog_probe_type@ == Seq::new(3, |i: int| UNKNOWN_PROBE_TYPE)
        &&& wf.digital_probe_type@ == Seq::new(16, |i: int| UNKNOWN_PROBE_TYPE)
    } else {
        &&& wf.analog_probe1@ == Seq::new(n as nat, |k: int| lane(be_u64_word(data, s + k), 0))
        &&& wf.analog_probe2@ == Seq::new(n as nat, |k: int| lane(be_u64_word(data, s + k), 1))
        &&& wf.analog_probe3@ == Seq::new(n as nat, |k: int| lane(be_u64_word(data, s + k), 2))
        &&& wf.digital_probe1@ == Seq::new(n as nat, |k: int| digital_bit(be_u64_word(data, s + k), 15))
        &&& wf.digital_probe2@ == Seq::new(n as nat, |k: int| digital_bit(be_u64_word(data, s + k), 14))
        &&& wf.digital_probe3@ == Seq::new(n as nat, |k: int| digital_bit(be_u64_word(data, s + k), 13))
        &&& wf.digital_probe4@ == Seq::new(n as nat, |k: int| digital_bit(be_u64_word(data, s + k), 12))
        &&& wf.digital_probe5@ == Seq::new(n as nat, |k: int| digital_bit(be_u64_word(data, s + k), 11))
        &&& wf.analog_probe1_is_signed
        &&& wf.analog_probe2_is_signed
        &&& wf.analog_probe3_is_signed
        &&& wf.analog_probe_type@ == seq![
            amax_probe_types::ANA_RAW,
            amax_probe_types::ANA_TRAP,
            amax_probe_types::ANA_TRIANGLE,
        ]
        &&& wf.digital_probe_type@ == debug_digital_types()
    }
}

/// Digital probe types of the debug waveform: five typed signals, the
/// rest unknown.
pub open spec fn debug_digital_types() -> Seq<u8> {
    Seq::new(
        16,
        |i: int|
            if i == 0 {
                amax_probe_types::DIG_TRIGGER_OUT
            } else if i == 1 {
                amax_probe_types::DIG_BL_HOLD
            } else if i == 2 {
                amax_probe_types::DIG_ENERGY_DV
            } else if i == 3 {
                amax_probe_types::DIG_SHAPING_DV
            } else if i == 4 {
                amax_probe_types::DIG_SHAPING_TRACK
            } else {
                UNKNOWN_PROBE_TYPE
            },
    )
}

/// User word `k` (63 data bits) of the event at `wi`, 0 past the last.
pub open spec fn amax_user_word(data: Seq<u8>, wi: int, total: int, k: int) -> u64 {
    let n = amax_wave_at(data, wi, total) - (wi + 2);
    if k < n {
        be_u64_word(data, wi + 2 + k) & USER_DATA_MASK
    } else {
        0
    }
}

/// The event decoded at word `wi`.
pub open spec fn amax_event_is(e: AMaxEventData, data: Seq<u8>, wi: int, total: int, module_id: u8) -> bool {
    let w0 = be_u64_word(data, wi);
    let w1 = be_u64_word(data, wi + 1);
    let u0 = amax_user_word(data, wi, total, 0);
    let u1 = amax_user_word(data, wi, total, 1);
    &&& e.base.time == EventTime::Ticks {
        coarse: w0 & TIMESTAMP_MASK,
        fine: ((w1 >> FINE_TIME_SHIFT) & FINE_TIME_MASK) as u16,
    }
    &&& e.base.module == module_id
    &&& e.base.channel == ((w0 >> CHANNEL_SHIFT) & CHANNEL_MASK) as u8
    &&& e.base.energy == (w1 & ENERGY_MASK) as u16
    &&& e.base.energy_short == ((w1 >> PSD_SHIFT) & PSD_MASK) as u16
    &&& e.base.fine_time == ((w1 >> FINE_TIME_SHIFT) & FINE_TIME_MASK) as u16
    &&& e.base.flags == ((((w1 >> FLAGS_A_SHIFT) & FLAGS_A_MASK) as u32) << 12) | (((w1
        >> FLAGS_B_SHIFT) & FLAGS_B_MASK) as u32)
    &&& e.base.user_info@ == Seq::new(4, |k: int| amax_user_word(data, wi, total, k))
    &&& e.amax_value == if u0 != 0 {
        Some(u0)
    } else {
        None
    }
    &&& e.baseline == if u1 != 0 {
        Some(u1)
    } else {
        None
    }
    &&& if amax_has_waveform(data, wi, total) {
        e.base.waveform matches Some(wf) && amax_waveform_is(
            wf,
            data,
            amax_wave_at(data, wi, total),
            total,
            word_bit(w0, SPECIAL_EVENT_SHIFT),
        )
    } else {
        e.base.waveform is None
    }
}

/// The events decoding `data` yields: one per event start, in order; none
/// unless the data classifies as events.
pub open spec fn amax_events_are(evs: Seq<AMaxEventData>, size: usize, data: Seq<u8>, module_id: u8) -> bool {
    if spec_amax_classify(size, data) == DataType::Event {
        let total = word_count(data);
        let starts = amax_event_starts(data, 0, total);
        &&& evs.len() == starts.len()
        &&& forall|i: int|
            0 <= i < starts.len() ==> #[trigger] amax_event_is(evs[i], data, starts[i], total, module_id)
    } else {
        evs.len() == 0
    }
}

impl AMaxDecoder {
    pub fn new(config: AMaxConfig) -> (d: Self)
        ensures
            d.config == config,
    {
        AMaxDecoder { config }
    }

    pub fn with_defaults() -> (d: Self)
        ensures
            d.config == AMaxConfig::spec_default(),
    {
        Self::new(AMaxConfig::default())
    }

    pub fn set_dump_enabled(&mut self, enabled: bool)
        ensures
            final(self).config == (AMaxConfig { dump_enabled: enabled, ..old(self).config }),
    {
        self.config.dump_enabled = enabled;
    }

    /// Start signal (32 bytes), stop signal (24 bytes), event data (32
    /// bytes or more) or unknown.
    pub fn classify(&self, raw: &RawData) -> (t: DataType)
        ensures
            t == spec_amax_classify(raw.size, raw.data@),
    {
        if raw.size < MIN_EVENT_SIZE {
            if raw.size == STOP_SIGNAL_SIZE && self.is_stop_signal(&raw.data) {
                return DataType::Stop;
            }
            return DataType::Unknown;
        }
        if raw.size == START_SIGNAL_SIZE && self.is_start_signal(&raw.data) {
            return DataType::Start;
        }
        DataType::Event
    }

    /// Decode `raw` into AMax events.
    pub fn decode(&self, raw: &RawData) -> (events: Vec<AMaxEventData>)
        ensures
            amax_events_are(events@, raw.size, raw.data@, self.config.module_id),
    {
        let mut events = Vec::new();
        self.decode_into(raw, &mut events);
        events
    }

    /// Decode `raw` into `events` (cleared first), in stream order, while
    /// a header and a data word remain; a trailing odd word is ignored.
    pub fn decode_into(&self, raw: &RawData, events: &mut Vec<AMaxEventData>)
        ensures
            amax_events_are(final(events)@, raw.size, raw.data@, self.config.module_id),
    {
        events.clear();
        if self.classify(raw) != DataType::Event {
            return;
        }
        let data = &raw.data;
        let total_words = data.len() / WORD_SIZE;
        let ghost total = total_words as int;
        let ghost all = amax_event_starts(data@, 0, total);
        let ghost mut done: Seq<int> = Seq::empty();
        let mut word_index: usize = 0;
        while word_index + 1 < total_words
            invariant
                total_words == word_count(data@),
                total_words < usize::MAX,
                total == total_words,
                word_index <= total_words,
                all == done + amax_event_starts(data@, word_index as int, total),
                events@.len() == done.len(),
                forall|i: int|
                    0 <= i < done.len() ==> #[trigger] amax_event_is(
                        events@[i],
                        data@,
                        done[i],
                        total,
                        self.config.module_id,
                    ),
            decreases total_words - word_index,
        {
            let ghost before = word_index as int;
            proof {
                lemma_event_next(data@, before, total);
            }
            match self.decode_event(data, &mut word_index) {
                Some(event) => {
                    events.push(event);
                    proof {
                        assert(amax_event_starts(data@, before, total) == seq![before].add(
                            amax_event_starts(data@, word_index as int, total),
                        ));
                        done = done.push(before);
                        assert(all =~= done + amax_event_starts(data@, word_index as int, total));
                    }
                },
                None => {},
            }
        }
        proof {
            assert(amax_event_starts(data@, word_index as int, total) =~= Seq::<int>::empty());
            assert(done =~= all);
        }
    }

    /// Decode the event at `*word_index` (nothing when fewer than two words
    /// remain), leaving the index after it.
    fn decode_event(&self, data: &[u8], word_index: &mut usize) -> (r: Option<AMaxEventData>)
        requires
            *old(word_index) <= word_count(data@),
        ensures
            ({
                let total = word_count(data@);
                let wi = *old(word_index) as int;
                if wi + 1 >= total {
                    r is None && *final(word_index) == wi
                } else {
                    &&& r matches Some(e) && amax_event_is(e, data@, wi, total, self.config.module_id)
                    &&& *final(word_index) == amax_event_next(data@, wi, total)
                }
            }),
    {
        let total_words = data.len() / WORD_SIZE;
        if *word_index + 1 >= total_words {
            return None;
        }
        let ghost wi0 = *word_index as int;
        let ghost total = total_words as int;
        proof {
            lemma_event_next(data@, wi0, total);
        }
        let word0 = self.read_u64(data, *word_index);
        *word_index = *word_index + 1;
        let channel = ((word0 >> CHANNEL_SHIFT) & CHANNEL_MASK) as u8;
        let special_event = ((word0 >> SPECIAL_EVENT_SHIFT) & 1) != 0;
        let raw_timestamp = word0 & TIMESTAMP_MASK;
        let word1 = self.read_u64(data, *word_index);
        *word_index = *word_index + 1;
        let data_is_last = ((word1 >> LAST_WORD_SHIFT) & 1) != 0;
        let has_waveform = ((word1 >> WAVEFORM_FLAG_SHIFT) & 1) != 0;
        let psd = ((word1 >> PSD_SHIFT) & PSD_MASK) as u16;
        let fine_time = ((word1 >> FINE_TIME_SHIFT) & FINE_TIME_MASK) as u16;
        let energy = (word1 & ENERGY_MASK) as u16;
        let flags = ((((word1 >> FLAGS_A_SHIFT) & FLAGS_A_MASK) as u32) << 12) | (((word1
            >> FLAGS_B_SHIFT) & FLAGS_B_MASK) as u32);
        let mut user_info = [0u64, 0, 0, 0];
        let mut user_word_index: usize = 0;
        if !data_is_last {
            let mut done = false;
            while !done && *word_index < total_words
                invariant
                    total_words == word_count(data@),
                    total == total_words,
                    0 <= wi0,
                    wi0 + 2 <= *word_index <= total_words,
                    total_words < usize::MAX,
                    user_word_index == *word_index - (wi0 + 2),
                    !done ==> user_words_end(data@, wi0 + 2, total) == user_words_end(
                        data@,
                        *word_index as int,
                        total,
                    ),
                    done ==> user_words_end(data@, wi0 + 2, total) == *word_index,
                    forall|k: int|
                        0 <= k < 4 ==> #[trigger] user_info@[k] == if k < user_word_index {
                            be_u64_word(data@, wi0 + 2 + k) & USER_DATA_MASK
                        } else {
                            0
                        },
                decreases total_words - *word_index, if done { 0int } else { 1int },
            {
                let user_word = self.read_u64(data, *word_index);
                *word_index = *word_index + 1;
                let is_last = ((user_word >> USER_LAST_WORD_SHIFT) & 1) != 0;
                let user_data = user_word & USER_DATA_MASK;
                if user_word_index < 4 {
                    user_info[user_word_index] = user_data;
                }
                user_word_index = user_word_index + 1;
                if is_last {
                    done = true;
                }
            }
        }
        proof {
            assert(*word_index == amax_wave_at(data@, wi0, total));
            assert forall|k: int| 0 <= k < 4 implies #[trigger] user_info@[k] == amax_user_word(
                data@,
                wi0,
                total,
                k,
            ) by {}
            assert(user_info@ =~= Seq::new(4, |k: int| amax_user_word(data@, wi0, total, k)));
        }
        let amax_value = if user_info[0] != 0 {
            Some(user_info[0])
        } else {
            None
        };
        let baseline = if user_info[1] != 0 {
            Some(user_info[1])
        } else {
            None
        };
        let waveform = if has_waveform {
            if special_event {
                self.decode_debug_waveform(data, word_index)
            } else {
                self.decode_waveform(data, word_index)
            }
        } else {
            None
        };
        Some(
            AMaxEventData {
                base: EventData {
                    time: EventTime::Ticks { coarse: raw_timestamp, fine: fine_time },
                    module: self.config.module_id,
                    channel,
                    energy,
                    energy_short: psd,
                    fine_time,
                    flags,
                    user_info,
                    waveform,
                },
                amax_value,
                baseline,
            },
        )
    }

    /// Decode the single-lane waveform whose header is at `*word_index`:
    /// four unsigned 16-bit samples per word.
    fn decode_waveform(&self, data: &[u8], word_index: &mut usize) -> (r: Option<Waveform>)
        requires
            *old(word_index) <= word_count(data@),
        ensures
            ({
                let total = word_count(data@);
                let at = *old(word_index) as int;
                if at >= total {
                    r is None && *final(word_index) == at
                } else {
                    &&& r matches Some(wf) && amax_waveform_is(wf, data@, at, total, false)
                    &&& *final(word_index) == at + 1 + amax_wave_words(data@, at, total)
                }
            }),
    {
        let total_words = data.len() / WORD_SIZE;
        if *word_index >= total_words {
            return None;
        }
        let ghost at = *word_index as int;
        let ghost total = total_words as int;
        let header = self.read_u64(data, *word_index);
        *word_index = *word_index + 1;
        assert(header & 0xFFF <= 0xFFF) by (bit_vector);
        let wave_word_count = (header & WAVEFORM_WORDS_MASK) as usize;
        let ghost n = amax_wave_words(data@, at, total);
        let mut analog_probe1: Vec<i16> = Vec::new();
        let mut k: usize = 0;
        while k < wave_word_count && *word_index < total_words
            invariant
                total_words == word_count(data@),
                total == total_words,
                wave_word_count == (header & WAVEFORM_WORDS_MASK) as int,
                header == be_u64_word(data@, at),
                n == amax_wave_words(data@, at, total),
                at < total,
                k <= n,
                *word_index == at + 1 + k,
                analog_probe1@ =~= Seq::new(
                    (4 * k) as nat,
                    |i: int| lane(be_u64_word(data@, at + 1 + i / 4), i % 4),
                ),
            decreases wave_word_count - k,
        {
            let word = self.read_u64(data, *word_index);
            *word_index = *word_index + 1;
            analog_probe1.push((word & 0xFFFF) as i16);
            analog_probe1.push(((word >> 16) & 0xFFFF) as i16);
            analog_probe1.push(((word >> 32) & 0xFFFF) as i16);
            analog_probe1.push(((word >> 48) & 0xFFFF) as i16);
            proof {
                let ki = k as int;
                let f = |i: int| lane(be_u64_word(data@, at + 1 + i / 4), i % 4);
                assert((4 * ki) / 4 == ki && (4 * ki) % 4 == 0);
                assert((4 * ki + 1) / 4 == ki && (4 * ki + 1) % 4 == 1);
                assert((4 * ki + 2) / 4 == ki && (4 * ki + 2) % 4 == 2);
                assert((4 * ki + 3) / 4 == ki && (4 * ki + 3) % 4 == 3);
                assert(analog_probe1@ =~= Seq::new((4 * (ki + 1)) as nat, f));
            }
            k = k + 1;
        }
        let analog_probe_type = default_unknown_analog_probe_types();
        let digital_probe_type = default_unknown_digital_probe_types();
        assert(analog_probe_type@ =~= Seq::new(3, |i: int| UNKNOWN_PROBE_TYPE));
        assert(digital_probe_type@ =~= Seq::new(16, |i: int| UNKNOWN_PROBE_TYPE));
        Some(
            Waveform {
                analog_probe1,
                analog_probe2: Vec::new(),
                analog_probe3: Vec::new(),
                digital_probe1: Vec::new(),
                digital_probe2: Vec::new(),
                digital_probe3: Vec::new(),
                digital_probe4: Vec::new(),
                digital_probe5: Vec::new(),
                digital_probe6: Vec::new(),
                digital_probe7: Vec::new(),
                digital_probe8: Vec::new(),
                digital_probe9: Vec::new(),
                digital_probe10: Vec::new(),
                digital_probe11: Vec::new(),
                digital_probe12: Vec::new(),
                digital_probe13: Vec::new(),
                digital_probe14: Vec::new(),
                digital_probe15: Vec::new(),
                digital_probe16: Vec::new(),
                time_resolution: 0,
                trigger_threshold: 0,
                analog_probe1_is_signed: false,
                analog_probe2_is_signed: false,
                analog_probe3_is_signed: false,
                analog_probe_type,
                digital_probe_type,
            },
        )
    }

    /// Decode the debug firmware's four-lane waveform whose header is at
    /// `*word_index`: per word, raw, trapezoid and triangle samples and a
    /// digital lane with Trigger_out, BL_Hold, Energy_Dv, shaping_dv and
    /// shaping_track in bits 15 to 11.
    fn decode_debug_waveform(&self, data: &[u8], word_index: &mut usize) -> (r: Option<Waveform>)
        requires
            *old(word_index) <= word_count(data@),
        ensures
            ({
                let total = word_count(data@);
                let at = *old(word_index) as int;
                if at >= total {
                    r is None && *final(word_index) == at
                } else {
                    &&& r matches Some(wf) && amax_waveform_is(wf, data@, at, total, true)
                    &&& *final(word_index) == at + 1 + amax_wave_words(data@, at, total)
                }
            }),
    {
        let total_words = data.len() / WORD_SIZE;
        if *word_index >= total_words {
            return None;
        }
        let ghost at = *word_index as int;
        let ghost total = total_words as int;
        let header = self.read_u64(data, *word_index);
        *word_index = *word_index + 1;
        assert(header & 0xFFF <= 0xFFF) by (bit_vector);
        let wave_word_count = (header & WAVEFORM_WORDS_MASK) as usize;
        let ghost n = amax_wave_words(data@, at, total);
        let mut analog_probe1: Vec<i16> = Vec::new();
        let mut analog_probe2: Vec<i16> = Vec::new();
        let mut analog_probe3: Vec<i16> = Vec::new();
        let mut digital_probe1: Vec<u8> = Vec::new();
        let mut digital_probe2: Vec<u8> = Vec::new();
        let mut digital_probe3: Vec<u8> = Vec::new();
        let mut digital_probe4: Vec<u8> = Vec::new();
        let mut digital_probe5: Vec<u8> = Vec::new();
        let mut k: usize = 0;
        while k < wave_word_count && *word_index < total_words
            invariant
                total_words == word_count(data@),
                total == total_words,
                wave_word_count == (header & WAVEFORM_WORDS_MASK) as int,
                header == be_u64_word(data@, at),
                n == amax_wave_words(data@, at, total),
                at < total,
                k <= n,
                *word_index == at + 1 + k,
                analog_probe1@ =~= Seq::new(k as nat, |j: int| lane(be_u64_word(data@, at + 1 + j), 0)),
                analog_probe2@ =~= Seq::new(k as nat, |j: int| lane(be_u64_word(data@, at + 1 + j), 1)),
                analog_probe3@ =~= Seq::new(k as nat, |j: int| lane(be_u64_word(data@, at + 1 + j), 2)),
                digital_probe1@ =~= Seq::new(k as nat, |j: int| digital_bit(be_u64_word(data@, at + 1 + j), 15)),
                digital_probe2@ =~= Seq::new(k as nat, |j: int| digital_bit(be_u64_word(data@, at + 1 + j), 14)),
                digital_probe3@ =~= Seq::new(k as nat, |j: int| digital_bit(be_u64_word(data@, at + 1 + j), 13)),
                digital_probe4@ =~= Seq::new(k as nat, |j: int| digital_bit(be_u64_word(data@, at + 1 + j), 12)),
                digital_probe5@ =~= Seq::new(k as nat, |j: int| digital_bit(be_u64_word(data@, at + 1 + j), 11)),
            decreases wave_word_count - k,
        {
            let word = self.read_u64(data, *word_index);
            *word_index = *word_index + 1;
            analog_probe1.push((word & 0xFFFF) as i16);
            analog_probe2.push(((word >> 16) & 0xFFFF) as i16);
            analog_probe3.push(((word >> 32) & 0xFFFF) as i16);
            let dig = (word >> 48) & 0xFFFF;
            digital_probe1.push(((dig >> 15) & 1) as u8);
            digital_probe2.push(((dig >> 14) & 1) as u8);
            digital_probe3.push(((dig >> 13) & 1) as u8);
            digital_probe4.push(((dig >> 12) & 1) as u8);
            digital_probe5.push(((dig >> 11) & 1) as u8);
            k = k + 1;
        }
        let u = UNKNOWN_PROBE_TYPE;
        let digital_probe_type = [
            amax_probe_types::DIG_TRIGGER_OUT,
            amax_probe_types::DIG_BL_HOLD,
            amax_probe_types::DIG_ENERGY_DV,
            amax_probe_types::DIG_SHAPING_DV,
            amax_probe_types::DIG_SHAPING_TRACK,
            u,
            u,
            u,
            u,
            u,
            u,
            u,
            u,
            u,
            u,
            u,
        ];
        let analog_probe_type = [
            amax_probe_types::ANA_RAW,
            amax_probe_types::ANA_TRAP,
            amax_probe_types::ANA_TRIANGLE,
        ];
        assert(digital_probe_type@ =~= debug_digital_types());
        assert(analog_probe_type@ =~= seq![
            amax_probe_types::ANA_RAW,
            amax_probe_types::ANA_TRAP,
            amax_probe_types::ANA_TRIANGLE,
        ]);
        Some(
            Waveform {
                analog_probe1,
                analog_probe2,
                analog_probe3,
                digital_probe1,
                digital_probe2,
                digital_probe3,
                digital_probe4,
                digital_probe5,
                digital_probe6: Vec::new(),
                digital_probe7: Vec::new(),
                digital_probe8: Vec::new(),
                digital_probe9: Vec::new(),
                digital_probe10: Vec::new(),
                digital_probe11: Vec::new(),
                digital_probe12: Vec::new(),
                digital_probe13: Vec::new(),
                digital_probe14: Vec::new(),
                digital_probe15: Vec::new(),
                digital_probe16: Vec::new(),
                time_resolution: 0,
                trigger_threshold: 0,
                analog_probe1_is_signed: true,
                analog_probe2_is_signed: true,
                analog_probe3_is_signed: true,
                analog_probe_type,
                digital_probe_type,
            },
        )
    }

    fn is_start_signal(&self, data: &[u8]) -> (r: bool)
        ensures
            r == is_signal(data@, START_SIGNAL_SIZE as int, START_SIGNAL_SUBTYPE),
    {
        if data.len() < START_SIGNAL_SIZE {
            return false;
        }
        let word0 = self.read_u64(data, 0);
        let signal_type = (word0 >> SIGNAL_TYPE_SHIFT) & 0xF;
        let signal_subtype = (word0 >> SIGNAL_SUBTYPE_SHIFT) & 0xF;
        signal_type == START_SIGNAL_TYPE && signal_subtype == START_SIGNAL_SUBTYPE
    }

    fn is_stop_signal(&self, data: &[u8]) -> (r: bool)
        ensures
            r == is_signal(data@, STOP_SIGNAL_SIZE as int, STOP_SIGNAL_SUBTYPE),
    {
        if data.len() < STOP_SIGNAL_SIZE {
            return false;
        }
        let word0 = self.read_u64(data, 0);
        let signal_type = (word0 >> SIGNAL_TYPE_SHIFT) & 0xF;
        let signal_subtype = (word0 >> SIGNAL_SUBTYPE_SHIFT) & 0xF;
        signal_type == STOP_SIGNAL_TYPE && signal_subtype == STOP_SIGNAL_SUBTYPE
    }

    /// Big-endian 64-bit word number `word_index` (which must lie in
    /// `data`).
    pub fn read_u64(&self, data: &[u8], word_index: usize) -> (r: u64)
        requires
            word_index * 8 + 8 <= data@.len(),
        ensures
            r == be_u64_word(data@, word_index as int),
    {
        let len = data.len();
        assert(word_index <= (usize::MAX - 8) / 8) by (nonlinear_arith)
            requires
                word_index * 8 + 8 <= usize::MAX,
        ;
        read_be_u64_word(data, word_index)
    }
}

proof fn lemma_user_words_end(data: Seq<u8>, j: int, total: int)
    ensures
        user_words_end(data, j, total) >= j,
        j <= total ==> user_words_end(data, j, total) <= total,
    decreases total - j,
{
    if j < total && !word_bit(be_u64_word(data, j), USER_LAST_WORD_SHIFT) {
        lemma_user_words_end(data, j + 1, total);
    }
}

proof fn lemma_event_next(data: Seq<u8>, wi: int, total: int)
    requires
        0 <= wi,
        wi + 1 < total,
    ensures
        wi + 2 <= amax_wave_at(data, wi, total) <= total,
        wi + 2 <= amax_event_next(data, wi, total) <= total,
{
    lemma_user_words_end(data, wi + 2, total);
}

/// The fields of a decoded AMax event put back together give its words:
/// channel (bits [62:56]) and 48-bit timestamp of the first word; PSD
/// charge (bits [41:26]), fine time (bits [25:16]) and energy (bits
/// [15:0]) of the second. The AMax value and baseline are the first two
/// user words when non-zero and absent when zero.
pub proof fn law_amax_event_fields(e: AMaxEventData, data: Seq<u8>, wi: int, total: int, module_id: u8)
    requires
        amax_event_is(e, data, wi, total, module_id),
    ensures
        e.base.module == module_id,
        e.base.time matches EventTime::Ticks { coarse, fine } && {
            &&& ((e.base.channel as u64) << 56u64) | coarse == be_u64_word(data, wi)
                & 0x7F00_FFFF_FFFF_FFFF
            &&& ((e.base.energy_short as u64) << 26u64) | ((fine as u64) << 16u64) | (
            e.base.energy as u64) == be_u64_word(data, wi + 1) & 0x3FF_FFFF_FFFF
            &&& e.base.fine_time == fine
        },
        e.amax_value matches Some(x) ==> x != 0 && x == e.base.user_info@[0],
        e.amax_value is None ==> e.base.user_info@[0] == 0,
        e.baseline matches Some(x) ==> x != 0 && x == e.base.user_info@[1],
        e.baseline is None ==> e.base.user_info@[1] == 0,
{
    let w0 = be_u64_word(data, wi);
    let w1 = be_u64_word(data, wi + 1);
    assert((((w0 >> 56u64) & 0x7F) as u8) as u64 == (w0 >> 56u64) & 0x7F && ((w1 & 0xFFFF) as u16)
        as u64 == w1 & 0xFFFF && (((w1 >> 16u64) & 0x3FF) as u16) as u64 == (w1 >> 16u64) & 0x3FF
        && (((w1 >> 26u64) & 0xFFFF) as u16) as u64 == (w1 >> 26u64) & 0xFFFF && ((w0 >> 56u64) & 0x7F)
        << 56u64 | (w0 & 0x0000_FFFF_FFFF_FFFF) == w0 & 0x7F00_FFFF_FFFF_FFFF && ((w1 >> 26u64) & 0xFFFF)
        << 26u64 | (((w1 >> 16u64) & 0x3FF) << 16u64) | (w1 & 0xFFFF) == w1 & 0x3FF_FFFF_FFFF)
        by (bit_vector);
    assert(e.base.user_info@[0] == amax_user_word(data, wi, total, 0));
    assert(e.base.user_info@[1] == amax_user_word(data, wi, total, 1));
}

/// AMax buffers are told apart by size and first byte: a Start signal is
/// a 32-byte buffer whose first byte is 0x30, a Stop signal a 24-byte
/// buffer whose first byte is 0x32, any other buffer under 32 bytes is
/// unknown, and every other buffer is event data.
pub proof fn law_amax_classify_bytes(size: usize, data: Seq<u8>)
    ensures
        spec_amax_classify(size, data) == DataType::Start <==> (size == 32 && data.len() >= 32
            && data[0] == 0x30),
        spec_amax_classify(size, data) == DataType::Stop <==> (size == 24 && data.len() >= 24
            && data[0] == 0x32),
        spec_amax_classify(size, data) == DataType::Unknown <==> (size < 32 && !(size == 24
            && data.len() >= 24 && data[0] == 0x32)),
{
    if data.len() >= 8 {
        lemma_first_byte_nibbles(data);
        lemma_signal_byte(data[0], 0);
        lemma_signal_byte(data[0], 2);
    }
}

/// A legacy (non-debug) AMax waveform holds four 16-bit samples per word,
/// lowest bits first: the four samples of word `k` put back together give
/// the word.
pub proof fn law_amax_legacy_waveform_words(wf: Waveform, data: Seq<u8>, at: int, total: int, k: int)
    requires
        amax_waveform_is(wf, data, at, total, false),
        0 <= k < amax_wave_words(data, at, total),
    ensures
        wf.analog_probe1@.len() == 4 * amax_wave_words(data, at, total),
        ((wf.analog_probe1@[4 * k + 3] as u16 as u64) << 48u64) | ((wf.analog_probe1@[4 * k + 2] as u16
            as u64) << 32u64) | ((wf.analog_probe1@[4 * k + 1] as u16 as u64) << 16u64) | (
        wf.analog_probe1@[4 * k] as u16 as u64) == be_u64_word(data, at + 1 + k),
{
    let w = be_u64_word(data, at + 1 + k);
    let n = amax_wave_words(data, at, total);
    assert forall|j: int| 0 <= j < 4 implies wf.analog_probe1@[4 * k + j] == lane(w, j) by {
        assert((4 * k + j) / 4 == k && (4 * k + j) % 4 == j);
        assert(4 * k + j < 4 * n);
    }
    assert(((((w >> 48u64) & 0xFFFF) as i16) as u16 as u64) << 48u64 | (((((w >> 32u64) & 0xFFFF)
        as i16) as u16 as u64) << 32u64) | (((((w >> 16u64) & 0xFFFF) as i16) as u16 as u64) << 16u64)
        | (((w & 0xFFFF) as i16) as u16 as u64) == w) by (bit_vector);
}

} // verus!
