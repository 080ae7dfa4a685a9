//! Types shared by all decoders, and the word readers they use.
//!
//! Timestamps stay integer here: an event carries its coarse tick count and
//! its fine-time fields; conversion to nanoseconds (a multiplication by the
//! digitizer's time step) happens where the events leave the library.

use vstd::prelude::*;

verus! {

/// Raw data from a digitizer.
#[derive(Debug, Clone)]
pub struct RawData {
    pub data: Vec<u8>,
    pub size: usize,
    pub n_events: u32,
}

impl RawData {
    /// RawData over a byte vector: `size` is its length, no event count.
    pub fn new(data: Vec<u8>) -> (r: Self)
        ensures
            r.data@ == data@,
            r.size == data.len(),
            r.n_events == 0,
    {
        let size = data.len();
        RawData { data, size, n_events: 0 }
    }
}

/// Data type classification.
#[derive(Debug, Clone, Copy, PartialEq, Eq, Structural)]
pub enum DataType {
    /// Start of run signal.
    Start,
    /// End of run signal.
    Stop,
    /// Normal event data.
    Event,
    /// Unknown or invalid data.
    Unknown,
}

/// Decode result for error handling.
#[derive(Debug, Clone, Copy, PartialEq, Eq, Structural)]
pub enum DecodeResult {
    Success,
    InvalidHeader,
    InsufficientData,
    CorruptedData,
    OutOfBounds,
}

/// Probe type "unknown / not carried on the wire".
pub const UNKNOWN_PROBE_TYPE: u8 = 0xFF;

/// Analog probe types of firmware that carries none.
pub fn default_unknown_analog_probe_types() -> (r: [u8; 3])
    ensures
        forall|i: int| 0 <= i < 3 ==> r@[i] == UNKNOWN_PROBE_TYPE,
{
    let u = UNKNOWN_PROBE_TYPE;
    let r = [u, u, u];
    assert(r@ =~= seq![u, u, u]);
    r
}

/// Digital probe types of firmware that carries none.
pub fn default_unknown_digital_probe_types() -> (r: [u8; 16])
    ensures
        forall|i: int| 0 <= i < 16 ==> r@[i] == UNKNOWN_PROBE_TYPE,
{
    let u = UNKNOWN_PROBE_TYPE;
    let r = [u, u, u, u, u, u, u, u, u, u, u, u, u, u, u, u];
    assert(r@ =~= seq![u, u, u, u, u, u, u, u, u, u, u, u, u, u, u, u]);
    r
}

/// Waveform samples. The sample period is a property of the digitizer and
/// is attached where events are converted to nanoseconds.
#[derive(Debug, Clone)]
pub struct Waveform {
    pub analog_probe1: Vec<i16>,
    pub analog_probe2: Vec<i16>,
    pub analog_probe3: Vec<i16>,
    pub digital_probe1: Vec<u8>,
    pub digital_probe2: Vec<u8>,
    pub digital_probe3: Vec<u8>,
    pub digital_probe4: Vec<u8>,
    pub digital_probe5: Vec<u8>,
    /// Digital probes 6 to 16: reserved, empty with today's firmware.
    pub digital_probe6: Vec<u8>,
    pub digital_probe7: Vec<u8>,
    pub digital_probe8: Vec<u8>,
    pub digital_probe9: Vec<u8>,
    pub digital_probe10: Vec<u8>,
    pub digital_probe11: Vec<u8>,
    pub digital_probe12: Vec<u8>,
    pub digital_probe13: Vec<u8>,
    pub digital_probe14: Vec<u8>,
    pub digital_probe15: Vec<u8>,
    pub digital_probe16: Vec<u8>,
    /// Time resolution code (0=1x, 1=2x, 2=4x, 3=8x).
    pub time_resolution: u8,
    pub trigger_threshold: u16,
    pub analog_probe1_is_signed: bool,
    pub analog_probe2_is_signed: bool,
    pub analog_probe3_is_signed: bool,
    pub analog_probe_type: [u8; 3],
    pub digital_probe_type: [u8; 16],
}

/// Digital probes 6 to 16 of `wf` carry no samples.
pub open spec fn reserved_digital_probes_empty(wf: Waveform) -> bool {
    &&& wf.digital_probe6@.len() == 0
    &&& wf.digital_probe7@.len() == 0
    &&& wf.digital_probe8@.len() == 0
    &&& wf.digital_probe9@.len() == 0
    &&& wf.digital_probe10@.len() == 0
    &&& wf.digital_probe11@.len() == 0
    &&& wf.digital_probe12@.len() == 0
    &&& wf.digital_probe13@.len() == 0
    &&& wf.digital_probe14@.len() == 0
    &&& wf.digital_probe15@.len() == 0
    &&& wf.digital_probe16@.len() == 0
}

/// When an event happened, in digitizer clock ticks.
#[derive(Debug, Clone, Copy, PartialEq, Eq, Structural)]
pub enum EventTime {
    /// `coarse` ticks plus `fine / 1024` of a tick.
    Ticks { coarse: u64, fine: u16 },
    /// `coarse` ticks plus `num / den` of a tick, the fraction interpolated
    /// from the two samples around the zero crossing (`num <= den`,
    /// `den > 0`).
    ZeroCrossing { coarse: u64, num: u16, den: u16 },
}

/// One decoded event.
#[derive(Debug, Clone)]
pub struct EventData {
    pub time: EventTime,
    /// Module ID (digitizer number).
    pub module: u8,
    pub channel: u8,
    /// Energy (long gate integral).
    pub energy: u16,
    /// Energy short (short gate integral).
    pub energy_short: u16,
    /// Fine timestamp (0-1023, /1024 scale).
    pub fine_time: u16,
    pub flags: u32,
    /// Per-event user info slots (AMax user words; 0 elsewhere).
    pub user_info: [u64; 4],
    pub waveform: Option<Waveform>,
}

/// Pile-up bit in `EventData::flags`.
pub const FLAG_PILEUP: u32 = 0x01;
pub const FLAG_OVER_SATURATION: u32 = 0x02;
pub const FLAG_NEGATIVE_OVER_SATURATION: u32 = 0x04;

impl EventData {
    pub fn has_pileup(&self) -> (r: bool)
        ensures
            r == (self.flags & FLAG_PILEUP != 0),
    {
        (self.flags & FLAG_PILEUP) != 0
    }
}

/// A waveform without samples: no trace, unsigned, probe types unknown.
pub open spec fn is_empty_waveform(w: Waveform) -> bool {
    &&& w.analog_probe1@.len() == 0 && w.analog_probe2@.len() == 0 && w.analog_probe3@.len() == 0
    &&& w.digital_probe1@.len() == 0 && w.digital_probe2@.len() == 0
    &&& w.digital_probe3@.len() == 0 && w.digital_probe4@.len() == 0
    &&& w.digital_probe5@.len() == 0
    &&& reserved_digital_probes_empty(w)
    &&& w.time_resolution == 0 && w.trigger_threshold == 0
    &&& !w.analog_probe1_is_signed && !w.analog_probe2_is_signed && !w.analog_probe3_is_signed
    &&& forall|i: int| 0 <= i < 3 ==> w.analog_probe_type@[i] == UNKNOWN_PROBE_TYPE
    &&& forall|i: int| 0 <= i < 16 ==> w.digital_probe_type@[i] == UNKNOWN_PROBE_TYPE
}

impl Default for Waveform {
    fn default() -> (w: Self)
        ensures
            is_empty_waveform(w),
    {
        Waveform {
            analog_probe1: Vec::new(),
            analog_probe2: Vec::new(),
            analog_probe3: Vec::new(),
            digital_probe1: Vec::new(),
            digital_probe2: Vec::new(),
            digital_probe3: Vec::new(),
            digital_probe4: Vec::new(),
            digital_probe5: Vec::new(),
            digital_probe6: Vec::new(),
            digital_probe7: Vec::new(),
            digital_probe8: Vec::new(),
            digital_probe9: Vec::new(),
            digital_probe10: Vec::new(),
            digital_probe11: Vec::new(),
            digital_probe12: Vec::new(),
            digital_probe13: Vec::new(),
            digital_probe14: Vec::new(),
            digital_probe15: Vec::new(),
            digital_probe16: Vec::new(),
            time_resolution: 0,
            trigger_threshold: 0,
            analog_probe1_is_signed: false,
            analog_probe2_is_signed: false,
            analog_probe3_is_signed: false,
            analog_probe_type: default_unknown_analog_probe_types(),
            digital_probe_type: default_unknown_digital_probe_types(),
        }
    }
}

impl Default for EventData {
    fn default() -> (e: Self)
        ensures
            e.time == (EventTime::Ticks { coarse: 0, fine: 0 }),
            e.module == 0 && e.channel == 0 && e.energy == 0 && e.energy_short == 0,
            e.fine_time == 0 && e.flags == 0,
            e.user_info@ == seq![0u64, 0u64, 0u64, 0u64],
            e.waveform is None,
    {
        let user_info = [0u64, 0, 0, 0];
        assert(user_info@ =~= seq![0u64, 0u64, 0u64, 0u64]);
        EventData {
            time: EventTime::Ticks { coarse: 0, fine: 0 },
            module: 0,
            channel: 0,
            energy: 0,
            energy_short: 0,
            fine_time: 0,
            flags: 0,
            user_info,
            waveform: None,
        }
    }
}

/// Sign-extend the low 14 bits of `value` as a two's complement number.
pub open spec fn spec_sign_extend_14bit(value: u32) -> i16 {
    let v = (value % 0x4000) as int;
    (if v >= 0x2000 { v - 0x4000 } else { v }) as i16
}

/// Sign-extend a 14-bit two's complement value to i16; bits above 13 are
/// ignored.
pub fn sign_extend_14bit(value: u32) -> (r: i16)
    ensures
        r == spec_sign_extend_14bit(value),
{
    let v = value & 0x3FFF;
    assert(v == value % 0x4000) by (bit_vector)
        requires v == value & 0x3FFF;
    if v >= 0x2000 {
        (v as i32 - 0x4000) as i16
    } else {
        v as i16
    }
}

// ---------------------------------------------------------------------------
// Word readers
// ---------------------------------------------------------------------------

/// Little-endian 32-bit word at byte `offset`, 0 when it does not fit.
pub open spec fn le_u32_at(data: Seq<u8>, offset: int) -> u32 {
    if 0 <= offset && offset + 4 <= data.len() {
        (data[offset] as int + data[offset + 1] as int * 0x100 + data[offset + 2] as int * 0x1_0000
            + data[offset + 3] as int * 0x100_0000) as u32
    } else {
        0
    }
}

/// Big-endian 64-bit word number `index`, 0 when it does not fit.
pub open spec fn be_u64_word(data: Seq<u8>, index: int) -> u64 {
    let o = index * 8;
    if 0 <= index && o + 8 <= data.len() {
        (data[o] as int * 0x100_0000_0000_0000 + data[o + 1] as int * 0x1_0000_0000_0000
            + data[o + 2] as int * 0x100_0000_0000 + data[o + 3] as int * 0x1_0000_0000
            + data[o + 4] as int * 0x100_0000 + data[o + 5] as int * 0x1_0000 + data[o + 6] as int
            * 0x100 + data[o + 7] as int) as u64
    } else {
        0
    }
}

/// Number of whole 64-bit words in `data`.
pub open spec fn word_count(data: Seq<u8>) -> int {
    data.len() as int / 8
}

proof fn lemma_le_u32(b0: u8, b1: u8, b2: u8, b3: u8)
    ensures
        (b0 as u32) | ((b1 as u32) << 8) | ((b2 as u32) << 16) | ((b3 as u32) << 24) == (b0 as int
            + b1 as int * 0x100 + b2 as int * 0x1_0000 + b3 as int * 0x100_0000) as u32,
        b0 as int + b1 as int * 0x100 + b2 as int * 0x1_0000 + b3 as int * 0x100_0000 <= u32::MAX,
{
    assert((b0 as u32) | ((b1 as u32) << 8) | ((b2 as u32) << 16) | ((b3 as u32) << 24) == (b0
        as int + b1 as int * 0x100 + b2 as int * 0x1_0000 + b3 as int * 0x100_0000) as u32)
        by (bit_vector);
}

proof fn lemma_be_u64(b: Seq<u8>)
    requires
        b.len() == 8,
    ensures
        ((b[0] as u64) << 56) | ((b[1] as u64) << 48) | ((b[2] as u64) << 40) | ((b[3] as u64)
            << 32) | ((b[4] as u64) << 24) | ((b[5] as u64) << 16) | ((b[6] as u64) << 8) | (b[7]
            as u64) == (b[0] as int * 0x100_0000_0000_0000 + b[1] as int * 0x1_0000_0000_0000
            + b[2] as int * 0x100_0000_0000 + b[3] as int * 0x1_0000_0000 + b[4] as int
            * 0x100_0000 + b[5] as int * 0x1_0000 + b[6] as int * 0x100 + b[7] as int) as u64,
{
    let (b0, b1, b2, b3, b4, b5, b6, b7) = (b[0], b[1], b[2], b[3], b[4], b[5], b[6], b[7]);
    assert(((b0 as u64) << 56) | ((b1 as u64) << 48) | ((b2 as u64) << 40) | ((b3 as u64) << 32)
        | ((b4 as u64) << 24) | ((b5 as u64) << 16) | ((b6 as u64) << 8) | (b7 as u64) == (b0
        as int * 0x100_0000_0000_0000 + b1 as int * 0x1_0000_0000_0000 + b2 as int
        * 0x100_0000_0000 + b3 as int * 0x1_0000_0000 + b4 as int * 0x100_0000 + b5 as int
        * 0x1_0000 + b6 as int * 0x100 + b7 as int) as u64) by (bit_vector);
}

/// The top four bits of the first big-endian word are the high nibble of
/// the first byte, and the next four its low nibble.
pub proof fn lemma_first_byte_nibbles(data: Seq<u8>)
    requires
        data.len() >= 8,
    ensures
        (be_u64_word(data, 0) >> 60u64) & 0xF == (data[0] >> 4u8) as u64,
        (be_u64_word(data, 0) >> 56u64) & 0xF == (data[0] & 0xF) as u64,
{
    let b = data.subrange(0, 8);
    lemma_be_u64(b);
    let (b0, b1, b2, b3, b4, b5, b6, b7) = (b[0], b[1], b[2], b[3], b[4], b[5], b[6], b[7]);
    assert(be_u64_word(data, 0) == ((b0 as u64) << 56) | ((b1 as u64) << 48) | ((b2 as u64) << 40) | (
    (b3 as u64) << 32) | ((b4 as u64) << 24) | ((b5 as u64) << 16) | ((b6 as u64) << 8) | (b7 as u64));
    assert(((((b0 as u64) << 56) | ((b1 as u64) << 48) | ((b2 as u64) << 40) | ((b3 as u64) << 32)
        | ((b4 as u64) << 24) | ((b5 as u64) << 16) | ((b6 as u64) << 8) | (b7 as u64)) >> 60u64)
        & 0xF == (b0 >> 4u8) as u64 && ((((b0 as u64) << 56) | ((b1 as u64) << 48) | ((b2 as u64)
        << 40) | ((b3 as u64) << 32) | ((b4 as u64) << 24) | ((b5 as u64) << 16) | ((b6 as u64) << 8)
        | (b7 as u64)) >> 56u64) & 0xF == (b0 & 0xF) as u64) by (bit_vector);
}

/// Little-endian 32-bit word at byte `offset`; 0 when fewer than 4 bytes
/// remain there.
pub fn read_le_u32(data: &[u8], offset: usize) -> (r: u32)
    ensures
        r == le_u32_at(data@, offset as int),
{
    if offset <= data.len() && data.len() - offset >= 4 {
        proof {
            lemma_le_u32(data@[offset as int], data@[offset + 1], data@[offset + 2], data@[offset + 3]);
        }
        (data[offset] as u32) | ((data[offset + 1] as u32) << 8) | ((data[offset + 2] as u32)
            << 16) | ((data[offset + 3] as u32) << 24)
    } else {
        0
    }
}

/// Big-endian 64-bit word number `word_index`; 0 when it lies beyond the
/// data.
pub fn read_be_u64_word(data: &[u8], word_index: usize) -> (r: u64)
    ensures
        r == be_u64_word(data@, word_index as int),
{
    let len = data.len();
    if word_index >= len / 8 {
        assert(word_index * 8 + 8 > len) by (nonlinear_arith)
            requires
                word_index >= len / 8,
        ;
        return 0;
    }
    assert(word_index * 8 + 8 <= len) by (nonlinear_arith)
        requires
            word_index < len / 8,
    ;
    let o = word_index * 8;
    proof {
        lemma_be_u64(data@.subrange(o as int, o + 8));
    }
    ((data[o] as u64) << 56) | ((data[o + 1] as u64) << 48) | ((data[o + 2] as u64) << 40) | ((
    data[o + 3] as u64) << 32) | ((data[o + 4] as u64) << 24) | ((data[o + 5] as u64) << 16) | ((
    data[o + 6] as u64) << 8) | (data[o + 7] as u64)
}


// ---------------------------------------------------------------------------
// Time order
// ---------------------------------------------------------------------------

/// An event time as the fraction `(numerator, denominator)` of ticks.
pub open spec fn time_ratio(t: EventTime) -> (int, int) {
    match t {
        EventTime::Ticks { coarse, fine } => (coarse * 1024 + fine, 1024),
        EventTime::ZeroCrossing { coarse, num, den } => (coarse * den + num, den as int),
    }
}

/// Whether `t` denotes a point in time: a zero-crossing fraction has a
/// non-zero denominator and is at most one tick.
pub open spec fn time_wf(t: EventTime) -> bool {
    match t {
        EventTime::Ticks { .. } => true,
        EventTime::ZeroCrossing { num, den, .. } => 0 < den && num <= den,
    }
}

/// `a` is strictly earlier than `b`.
pub open spec fn time_lt(a: EventTime, b: EventTime) -> bool {
    time_ratio(a).0 * time_ratio(b).1 < time_ratio(b).0 * time_ratio(a).1
}

/// Tick times are ordered by coarse tick, then by fine time (each fine
/// step 1/1024 of a tick).
pub proof fn law_tick_time_order(c1: u64, f1: u16, c2: u64, f2: u16)
    requires
        f1 < 1024,
        f2 < 1024,
    ensures
        time_lt(EventTime::Ticks { coarse: c1, fine: f1 }, EventTime::Ticks { coarse: c2, fine: f2 })
            <==> (c1 < c2 || (c1 == c2 && f1 < f2)),
{
    let x = c1 * 1024 + f1;
    let y = c2 * 1024 + f2;
    assert(x * 1024 < y * 1024 <==> x < y) by (nonlinear_arith);
    assert(x < y <==> (c1 < c2 || (c1 == c2 && f1 < f2))) by (nonlinear_arith)
        requires
            x == c1 * 1024 + f1,
            y == c2 * 1024 + f2,
            f1 < 1024,
            f2 < 1024,
    ;
}

/// Zero-crossing times on the same coarse tick are ordered by their
/// fractions `num / den` of a tick.
pub proof fn law_zero_crossing_time_order(c: u64, n1: u16, d1: u16, n2: u16, d2: u16)
    requires
        d1 > 0,
        d2 > 0,
    ensures
        time_lt(
            EventTime::ZeroCrossing { coarse: c, num: n1, den: d1 },
            EventTime::ZeroCrossing { coarse: c, num: n2, den: d2 },
        ) <==> n1 * d2 < n2 * d1,
{
    let ci = c as int;
    assert((ci * d1 + n1) * d2 < (ci * d2 + n2) * d1 <==> n1 * d2 < n2 * d1) by (nonlinear_arith);
}

proof fn lemma_mul_le(x: int, xb: int, y: int, yb: int)
    by (nonlinear_arith)
    requires
        0 <= x <= xb,
        0 <= y <= yb,
    ensures
        x * y <= xb * yb,
{
}

fn time_ratio_exec(t: &EventTime) -> (r: (u128, u128))
    ensures
        r.0 == time_ratio(*t).0,
        r.1 == time_ratio(*t).1,
        r.0 < 0x1_0000_0000_0000_0000_0000,
        r.1 <= 0xFFFF,
{
    match t {
        EventTime::Ticks { coarse, fine } => {
            proof {
                lemma_mul_le(*coarse as int, u64::MAX as int, 1024, 1024);
            }
            (*coarse as u128 * 1024 + *fine as u128, 1024)
        },
        EventTime::ZeroCrossing { coarse, num, den } => {
            proof {
                lemma_mul_le(*coarse as int, u64::MAX as int, *den as int, 0xFFFF);
            }
            (*coarse as u128 * *den as u128 + *num as u128, *den as u128)
        },
    }
}

/// Whether event time `a` is strictly earlier than `b`, compared exactly.
pub fn event_time_lt(a: &EventTime, b: &EventTime) -> (r: bool)
    ensures
        r == time_lt(*a, *b),
{
    let (na, da) = time_ratio_exec(a);
    let (nb, db) = time_ratio_exec(b);
    proof {
        lemma_mul_le(na as int, 0x1_0000_0000_0000_0000_0000, db as int, 0xFFFF);
        lemma_mul_le(nb as int, 0x1_0000_0000_0000_0000_0000, da as int, 0xFFFF);
    }
    na * db < nb * da
}

/// `e` placed into `s` after every event that is not later than it.
pub open spec fn insert_by_time(s: Seq<EventData>, e: EventData) -> Seq<EventData>
    decreases s.len(),
{
    if s.len() == 0 || !time_lt(e.time, s.last().time) {
        s.push(e)
    } else {
        insert_by_time(s.drop_last(), e).push(s.last())
    }
}

/// `s` stably sorted by time: events at equal times keep their order.
pub open spec fn sort_by_time(s: Seq<EventData>) -> Seq<EventData>
    decreases s.len(),
{
    if s.len() == 0 {
        s
    } else {
        insert_by_time(sort_by_time(s.drop_last()), s.last())
    }
}

/// No event of `s` is earlier than one before it.
pub open spec fn time_sorted(s: Seq<EventData>) -> bool {
    forall|i: int, j: int|
        0 <= i < j < s.len() ==> !time_lt(#[trigger] s[j].time, #[trigger] s[i].time)
}

/// Every event of `s` has a well-formed time.
pub open spec fn times_wf(s: Seq<EventData>) -> bool {
    forall|i: int| 0 <= i < s.len() ==> time_wf(#[trigger] s[i].time)
}

/// Inserting behind events that are all later than `e` happens in front
/// of them.
proof fn lemma_insert_split(s: Seq<EventData>, e: EventData, j: int)
    requires
        0 <= j <= s.len(),
        forall|k: int| j <= k < s.len() ==> time_lt(e.time, #[trigger] s[k].time),
    ensures
        insert_by_time(s, e) == insert_by_time(s.take(j), e) + s.skip(j),
    decreases s.len(),
{
    if j == s.len() {
        assert(s.take(j) =~= s);
        assert(s.skip(j) =~= Seq::<EventData>::empty());
        assert(insert_by_time(s.take(j), e) + s.skip(j) =~= insert_by_time(s.take(j), e));
    } else {
        let d = s.drop_last();
        assert(time_lt(e.time, s[s.len() - 1].time));
        lemma_insert_split(d, e, j);
        assert(d.take(j) =~= s.take(j));
        assert((insert_by_time(s.take(j), e) + d.skip(j)).push(s.last()) =~= insert_by_time(
            s.take(j),
            e,
        ) + s.skip(j));
    }
}

/// The insertion point of `e` is behind the last event not later than it.
proof fn lemma_insert_at(s: Seq<EventData>, e: EventData, p: int)
    requires
        0 <= p <= s.len(),
        p == 0 || !time_lt(e.time, s[p - 1].time),
        forall|k: int| p <= k < s.len() ==> time_lt(e.time, #[trigger] s[k].time),
    ensures
        insert_by_time(s, e) == s.insert(p, e),
{
    lemma_insert_split(s, e, p);
    assert(insert_by_time(s.take(p), e) == s.take(p).push(e));
    assert(s.take(p).push(e) + s.skip(p) =~= s.insert(p, e));
}

/// Sort `events` by time, stably, compared exactly.
pub fn sort_events_by_time(events: &mut Vec<EventData>)
    ensures
        final(events)@ == sort_by_time(old(events)@),
{
    let mut input: Vec<EventData> = Vec::new();
    std::mem::swap(&mut input, events);
    let ghost orig = input@;
    let n = input.len();
    assert(orig.take(0) =~= Seq::<EventData>::empty());
    while input.len() > 0
        invariant
            orig.len() == n,
            input.len() <= n,
            input@ =~= orig.skip(n - input.len()),
            events@ == sort_by_time(orig.take(n - input.len())),
        decreases input.len(),
    {
        let ghost k = n - input.len();
        let e = input.remove(0);
        assert(e == orig[k]);
        let mut p = events.len();
        while p > 0 && event_time_lt(&e.time, &events[p - 1].time)
            invariant
                p <= events.len(),
                forall|q: int| p <= q < events.len() ==> time_lt(e.time, #[trigger] events@[q].time),
            decreases p,
        {
            p = p - 1;
        }
        proof {
            lemma_insert_at(events@, e, p as int);
            assert(orig.take(k + 1).drop_last() =~= orig.take(k));
            assert(orig.skip(k + 1) =~= orig.skip(k).drop_first());
        }
        events.insert(p, e);
    }
    assert(orig.take(n as int) =~= orig);
}

proof fn lemma_insert_multiset(s: Seq<EventData>, e: EventData)
    ensures
        insert_by_time(s, e).to_multiset() =~= s.to_multiset().insert(e),
        insert_by_time(s, e).len() == s.len() + 1,
    decreases s.len(),
{
    broadcast use vstd::seq_lib::group_to_multiset_ensures;

    if s.len() == 0 || !time_lt(e.time, s.last().time) {
    } else {
        let d = s.drop_last();
        lemma_insert_multiset(d, e);
        assert(d.push(s.last()) =~= s);
    }
}

/// Sorting by time keeps exactly the events it is given.
pub proof fn law_sort_by_time_permutes(s: Seq<EventData>)
    ensures
        sort_by_time(s).to_multiset() =~= s.to_multiset(),
        sort_by_time(s).len() == s.len(),
    decreases s.len(),
{
    broadcast use vstd::seq_lib::group_to_multiset_ensures;

    if s.len() > 0 {
        let d = s.drop_last();
        law_sort_by_time_permutes(d);
        lemma_insert_multiset(sort_by_time(d), s.last());
        assert(d.push(s.last()) =~= s);
    }
}

proof fn lemma_le_trans(a: EventTime, b: EventTime, c: EventTime)
    requires
        time_wf(a),
        time_wf(b),
        time_wf(c),
        !time_lt(b, a),
        !time_lt(c, b),
    ensures
        !time_lt(c, a),
{
    let (na, da) = time_ratio(a);
    let (nb, db) = time_ratio(b);
    let (nc, dc) = time_ratio(c);
    assert(da > 0 && db > 0 && dc > 0);
    assert(na * dc <= nc * da) by (nonlinear_arith)
        requires
            da > 0,
            db > 0,
            dc > 0,
            na * db <= nb * da,
            nb * dc <= nc * db,
    {
        assert(na * db * dc <= nb * da * dc);
        assert(nb * dc * da <= nc * db * da);
        assert(na * dc * db <= nc * da * db);
    }
}

proof fn lemma_insert_sorted(s: Seq<EventData>, e: EventData)
    requires
        time_sorted(s),
        times_wf(s),
        time_wf(e.time),
    ensures
        time_sorted(insert_by_time(s, e)),
        times_wf(insert_by_time(s, e)),
    decreases s.len(),
{
    broadcast use vstd::seq_lib::group_to_multiset_ensures;

    let r = insert_by_time(s, e);
    lemma_insert_multiset(s, e);
    if s.len() == 0 || !time_lt(e.time, s.last().time) {
        assert forall|i: int, j: int| 0 <= i < j < r.len() implies !time_lt(
            #[trigger] r[j].time,
            #[trigger] r[i].time,
        ) by {
            if j == s.len() && s.len() > 0 {
                lemma_le_trans(s[i].time, s.last().time, e.time);
            }
        }
    } else {
        let d = s.drop_last();
        let last = s.last();
        let m = insert_by_time(d, e);
        lemma_insert_sorted(d, e);
        lemma_insert_multiset(d, e);
        assert forall|i: int| 0 <= i < m.len() implies !time_lt(last.time, #[trigger] m[i].time) by {
            assert(m.to_multiset().count(m[i]) > 0);
            if m[i] != e {
                assert(d.to_multiset().count(m[i]) > 0);
                assert(d.contains(m[i]));
                let q = choose|q: int| 0 <= q < d.len() && d[q] == m[i];
                assert(s[q] == d[q]);
            }
        }
        assert forall|i: int| 0 <= i < m.len() implies time_wf(#[trigger] m[i].time) by {
            assert(m.to_multiset().count(m[i]) > 0);
            if m[i] != e {
                assert(d.to_multiset().count(m[i]) > 0);
                assert(d.contains(m[i]));
                let q = choose|q: int| 0 <= q < d.len() && d[q] == m[i];
                assert(s[q] == d[q]);
            }
        }
        assert(r == m.push(last));
        assert forall|i: int, j: int| 0 <= i < j < r.len() implies !time_lt(
            #[trigger] r[j].time,
            #[trigger] r[i].time,
        ) by {
            if j == m.len() {
                assert(r[i] == m[i]);
            } else {
                assert(r[i] == m[i] && r[j] == m[j]);
            }
        }
        assert forall|i: int| 0 <= i < r.len() implies time_wf(#[trigger] r[i].time) by {
            if i < m.len() {
                assert(r[i] == m[i]);
            }
        }
    }
}

/// Sorting by time puts events in time order.
pub proof fn law_sort_by_time_sorted(s: Seq<EventData>)
    requires
        times_wf(s),
    ensures
        time_sorted(sort_by_time(s)),
    decreases s.len(),
{
    if s.len() > 0 {
        let d = s.drop_last();
        assert forall|i: int| 0 <= i < d.len() implies time_wf(#[trigger] d[i].time) by {
            assert(d[i] == s[i]);
        }
        law_sort_by_time_sorted(d);
        lemma_sort_wf(d);
        lemma_insert_sorted(sort_by_time(d), s.last());
    }
}

proof fn lemma_sort_wf(s: Seq<EventData>)
    requires
        times_wf(s),
    ensures
        times_wf(sort_by_time(s)),
    decreases s.len(),
{
    if s.len() > 0 {
        let d = s.drop_last();
        assert forall|i: int| 0 <= i < d.len() implies time_wf(#[trigger] d[i].time) by {
            assert(d[i] == s[i]);
        }
        law_sort_by_time_sorted(d);
        lemma_sort_wf(d);
        lemma_insert_sorted(sort_by_time(d), s.last());
    }
}

/// Events already in time order are left as they are.
pub proof fn law_sort_by_time_keeps_sorted(s: Seq<EventData>)
    requires
        time_sorted(s),
    ensures
        sort_by_time(s) == s,
    decreases s.len(),
{
    if s.len() > 0 {
        let d = s.drop_last();
        assert forall|i: int, j: int| 0 <= i < j < d.len() implies !time_lt(
            #[trigger] d[j].time,
            #[trigger] d[i].time,
        ) by {
            assert(d[i] == s[i] && d[j] == s[j]);
        }
        law_sort_by_time_keeps_sorted(d);
        if d.len() > 0 {
            assert(d.last() == s[s.len() - 2]);
        }
        assert(d.push(s.last()) =~= s);
    }
}

/// The first byte is `0x30 + sub` exactly when its high nibble is 3 and
/// its low nibble `sub`.
pub proof fn lemma_signal_byte(b: u8, sub: u8)
    requires
        sub < 16,
    ensures
        ((b >> 4u8) == 3 && (b & 0xF) == sub) <==> b == 0x30 + sub,
{
    assert(sub < 16 ==> (((b >> 4u8) == 3 && (b & 0xF) == sub) <==> b == 0x30 + sub)) by (bit_vector);
}

/// The top four bits of the little-endian word at the start of `data`
/// are the high nibble of its fourth byte.
pub proof fn lemma_le_top_nibble(data: Seq<u8>)
    requires
        data.len() >= 4,
    ensures
        (le_u32_at(data, 0) >> 28u32) & 0xF == (data[3] >> 4u8) as u32,
{
    let (b0, b1, b2, b3) = (data[0], data[1], data[2], data[3]);
    lemma_le_u32(b0, b1, b2, b3);
    assert((((b0 as u32) | ((b1 as u32) << 8) | ((b2 as u32) << 16) | ((b3 as u32) << 24)) >> 28u32)
        & 0xF == (b3 >> 4u8) as u32) by (bit_vector);
}

} // verus!
