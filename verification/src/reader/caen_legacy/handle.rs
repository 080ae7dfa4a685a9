//! V1743 board description, the enumerations of its configuration, and the
//! rules applied around the CAENDigitizer calls: board status decoding,
//! readiness polling decisions, and the reading of configuration words.
//!
//! Configuration words are compared ignoring ASCII case. None of the
//! accepted words holds a letter that a non-ASCII character lowercases to,
//! so this is the same as comparing their full lower case.

use vstd::prelude::*;

use super::error::{DigitizerError, ErrorCode};
use crate::text::{concat_str, eq_ignore_ascii_case, lower_seq, str_eq};

verus! {

/// Groups of a V1743.
pub const MAX_GROUPS: usize = 8;
/// Channels per group of a V1743.
pub const CHANNELS_PER_GROUP: usize = 2;
/// Channels of a V1743.
pub const MAX_CHANNELS: usize = 16;

/// Board status register.
pub const BOARD_FAIL_STATUS_REGISTER: u32 = 0x8178;
/// Poll interval while waiting for the board to become ready.
pub const BOARD_READY_POLL_INTERVAL_MS: u64 = 50;
/// Longest wait for the PLL to lock after a reset.
pub const BOARD_READY_TIMEOUT_MS: u64 = 5000;

/// Board information of a digitizer.
#[derive(Debug, Clone)]
pub struct BoardInfo {
    pub model_name: String,
    pub model: u32,
    pub channels: u32,
    pub form_factor: u32,
    pub family_code: u32,
    pub roc_firmware: String,
    pub amc_firmware: String,
    pub serial_number: u32,
    pub adc_nbits: u32,
    pub sam_correction_loaded: bool,
}

/// An open V1743 connection: the library handle and the board
/// information read when it was opened.
#[derive(Debug)]
pub struct X743Handle {
    handle: i32,
    board_info: Option<BoardInfo>,
}

impl X743Handle {
    pub closed spec fn spec_handle(&self) -> i32 {
        self.handle
    }

    pub closed spec fn spec_board_info(&self) -> Option<BoardInfo> {
        self.board_info
    }

    /// A connection over the library handle `handle`, with the board
    /// information read from it, if any.
    pub fn from_raw(handle: i32, board_info: Option<BoardInfo>) -> (h: Self)
        ensures
            h.spec_handle() == handle,
            h.spec_board_info() == board_info,
    {
        X743Handle { handle, board_info }
    }

    /// The library handle.
    pub fn raw_handle(&self) -> (r: i32)
        ensures
            r == self.spec_handle(),
    {
        self.handle
    }

    /// The board information read when the connection was opened.
    pub fn board_info(&self) -> (r: Option<&BoardInfo>)
        ensures
            match r {
                Some(b) => self.spec_board_info() == Some(*b),
                None => self.spec_board_info() is None,
            },
    {
        match &self.board_info {
            Some(b) => Some(b),
            None => None,
        }
    }
}

/// Connection type.
#[derive(Debug, Clone, Copy, PartialEq, Eq, Structural)]
pub enum ConnectionType {
    USB,
    OpticalLink,
}

/// SAM sampling frequency.
#[derive(Debug, Clone, Copy, PartialEq, Eq, Structural)]
pub enum SamFrequency {
    Ghz3_2,
    Ghz1_6,
    Mhz800,
    Mhz400,
}

/// SAM correction level.
#[derive(Debug, Clone, Copy, PartialEq, Eq, Structural)]
pub enum SamCorrectionLevel {
    Disabled,
    PedestalOnly,
    INL,
    All,
}

/// Trigger mode.
#[derive(Debug, Clone, Copy, PartialEq, Eq, Structural)]
pub enum TriggerMode {
    Disabled,
    AcqOnly,
    AcqAndExtOut,
    ExtOutOnly,
}

/// Trigger polarity (edge).
#[derive(Debug, Clone, Copy, PartialEq, Eq, Structural)]
pub enum TriggerPolarity {
    RisingEdge,
    FallingEdge,
}

/// I/O level.
#[derive(Debug, Clone, Copy, PartialEq, Eq, Structural)]
pub enum IOLevel {
    NIM,
    TTL,
}

/// Acquisition mode.
#[derive(Debug, Clone, Copy, PartialEq, Eq, Structural)]
pub enum AcqMode {
    SWControlled,
    SINControlled,
    FirstTrigControlled,
}

/// SAM pulse generator source.
#[derive(Debug, Clone, Copy, PartialEq, Eq, Structural)]
pub enum SamPulseSource {
    Software,
    Continuous,
}

/// `s` equals `w` ignoring ASCII case.
pub open spec fn word_is(s: Seq<char>, w: Seq<char>) -> bool {
    lower_seq(s) == lower_seq(w)
}

/// An error of generic code whose context is `prefix` followed by `s`.
pub open spec fn unknown_word_error(r: DigitizerError, prefix: Seq<char>, s: Seq<char>) -> bool {
    &&& r.code == ErrorCode::GenericError
    &&& r.context@ == prefix + s
}

fn unknown_word(prefix: &str, s: &str) -> (e: DigitizerError)
    ensures
        unknown_word_error(e, prefix@, s@),
{
    let context = concat_str(prefix, s);
    DigitizerError::new(-1, context.as_str())
}

pub open spec fn spec_sam_frequency(s: Seq<char>) -> Option<SamFrequency> {
    if word_is(s, "3.2ghz"@) || word_is(s, "3200mhz"@) {
        Some(SamFrequency::Ghz3_2)
    } else if word_is(s, "1.6ghz"@) || word_is(s, "1600mhz"@) {
        Some(SamFrequency::Ghz1_6)
    } else if word_is(s, "800mhz"@) || word_is(s, "0.8ghz"@) {
        Some(SamFrequency::Mhz800)
    } else if word_is(s, "400mhz"@) || word_is(s, "0.4ghz"@) {
        Some(SamFrequency::Mhz400)
    } else {
        None
    }
}

/// Sampling frequency named by `s` (e.g. "3.2GHz", "800MHz").
pub fn parse_sam_frequency(s: &str) -> (r: Result<SamFrequency, DigitizerError>)
    ensures
        spec_sam_frequency(s@) matches Some(f) ==> r == Ok::<SamFrequency, DigitizerError>(f),
        spec_sam_frequency(s@) is None ==> (r matches Err(e) && unknown_word_error(
            e,
            "Unknown sampling frequency: "@,
            s@,
        )),
{
    if eq_ignore_ascii_case(s, "3.2ghz") || eq_ignore_ascii_case(s, "3200mhz") {
        Ok(SamFrequency::Ghz3_2)
    } else if eq_ignore_ascii_case(s, "1.6ghz") || eq_ignore_ascii_case(s, "1600mhz") {
        Ok(SamFrequency::Ghz1_6)
    } else if eq_ignore_ascii_case(s, "800mhz") || eq_ignore_ascii_case(s, "0.8ghz") {
        Ok(SamFrequency::Mhz800)
    } else if eq_ignore_ascii_case(s, "400mhz") || eq_ignore_ascii_case(s, "0.4ghz") {
        Ok(SamFrequency::Mhz400)
    } else {
        Err(unknown_word("Unknown sampling frequency: ", s))
    }
}

pub open spec fn spec_correction_level(s: Seq<char>) -> Option<SamCorrectionLevel> {
    if word_is(s, "all"@) || word_is(s, "full"@) {
        Some(SamCorrectionLevel::All)
    } else if word_is(s, "pedestal_only"@) || word_is(s, "pedestal"@) {
        Some(SamCorrectionLevel::PedestalOnly)
    } else if word_is(s, "inl"@) {
        Some(SamCorrectionLevel::INL)
    } else if word_is(s, "disabled"@) || word_is(s, "none"@) {
        Some(SamCorrectionLevel::Disabled)
    } else {
        None
    }
}

/// SAM correction level named by `s`.
pub fn parse_correction_level(s: &str) -> (r: Result<SamCorrectionLevel, DigitizerError>)
    ensures
        spec_correction_level(s@) matches Some(c) ==> r == Ok::<SamCorrectionLevel, DigitizerError>(
            c,
        ),
        spec_correction_level(s@) is None ==> (r matches Err(e) && unknown_word_error(
            e,
            "Unknown correction level: "@,
            s@,
        )),
{
    if eq_ignore_ascii_case(s, "all") || eq_ignore_ascii_case(s, "full") {
        Ok(SamCorrectionLevel::All)
    } else if eq_ignore_ascii_case(s, "pedestal_only") || eq_ignore_ascii_case(s, "pedestal") {
        Ok(SamCorrectionLevel::PedestalOnly)
    } else if eq_ignore_ascii_case(s, "inl") {
        Ok(SamCorrectionLevel::INL)
    } else if eq_ignore_ascii_case(s, "disabled") || eq_ignore_ascii_case(s, "none") {
        Ok(SamCorrectionLevel::Disabled)
    } else {
        Err(unknown_word("Unknown correction level: ", s))
    }
}

pub open spec fn spec_io_level(s: Seq<char>) -> Option<IOLevel> {
    if word_is(s, "nim"@) {
        Some(IOLevel::NIM)
    } else if word_is(s, "ttl"@) {
        Some(IOLevel::TTL)
    } else {
        None
    }
}

/// I/O level named by `s`.
pub fn parse_io_level(s: &str) -> (r: Result<IOLevel, DigitizerError>)
    ensures
        spec_io_level(s@) matches Some(l) ==> r == Ok::<IOLevel, DigitizerError>(l),
        spec_io_level(s@) is None ==> (r matches Err(e) && unknown_word_error(
            e,
            "Unknown IO level: "@,
            s@,
        )),
{
    if eq_ignore_ascii_case(s, "nim") {
        Ok(IOLevel::NIM)
    } else if eq_ignore_ascii_case(s, "ttl") {
        Ok(IOLevel::TTL)
    } else {
        Err(unknown_word("Unknown IO level: ", s))
    }
}

pub open spec fn spec_pulse_source(s: Seq<char>) -> Option<SamPulseSource> {
    if word_is(s, "software"@) || word_is(s, "sw"@) {
        Some(SamPulseSource::Software)
    } else if word_is(s, "continuous"@) || word_is(s, "cont"@) {
        Some(SamPulseSource::Continuous)
    } else {
        None
    }
}

/// Pulse generator source named by `s`.
pub fn parse_pulse_source(s: &str) -> (r: Result<SamPulseSource, DigitizerError>)
    ensures
        spec_pulse_source(s@) matches Some(p) ==> r == Ok::<SamPulseSource, DigitizerError>(p),
        spec_pulse_source(s@) is None ==> (r matches Err(e) && unknown_word_error(
            e,
            "Unknown pulse source: "@,
            s@,
        )),
{
    if eq_ignore_ascii_case(s, "software") || eq_ignore_ascii_case(s, "sw") {
        Ok(SamPulseSource::Software)
    } else if eq_ignore_ascii_case(s, "continuous") || eq_ignore_ascii_case(s, "cont") {
        Ok(SamPulseSource::Continuous)
    } else {
        Err(unknown_word("Unknown pulse source: ", s))
    }
}

/// Fault reported by the board status register.
#[derive(Debug, Clone, Copy, PartialEq, Eq, Structural)]
pub enum BoardFailure {
    /// Bits [3:0]: internal communication timeout; the board needs a
    /// manual reset or power cycle.
    CommTimeout,
    /// Bit 4: the PLL is not locked to the reference clock; starting
    /// acquisition would crash the library.
    PllNotLocked,
}

pub open spec fn spec_board_fail_status(status: u32) -> Option<BoardFailure> {
    if status & 0xF != 0 {
        Some(BoardFailure::CommTimeout)
    } else if status & 0x10 != 0 {
        Some(BoardFailure::PllNotLocked)
    } else {
        None
    }
}

/// Read the board status register value: a communication timeout takes
/// precedence over an unlocked PLL.
pub fn board_fail_status(status: u32) -> (r: Result<(), BoardFailure>)
    ensures
        spec_board_fail_status(status) matches Some(f) ==> r == Err::<(), BoardFailure>(f),
        spec_board_fail_status(status) is None ==> r is Ok,
{
    if status & 0xF != 0 {
        Err(BoardFailure::CommTimeout)
    } else if status & 0x10 != 0 {
        Err(BoardFailure::PllNotLocked)
    } else {
        Ok(())
    }
}

/// What to do after one reading of the board status while waiting for
/// the board to become ready.
#[derive(Debug, Clone, Copy, PartialEq, Eq, Structural)]
pub enum ReadyStep {
    /// PLL locked, no fault: ready.
    Ready,
    /// Communication timeout: give up at once.
    Fail,
    /// PLL not locked yet: poll again after the poll interval.
    Wait,
    /// PLL still not locked at the timeout: give up.
    TimedOut,
}

/// Decision after reading `status` when `elapsed_ms` have passed since the
/// wait began.
pub fn board_ready_step(status: u32, elapsed_ms: u64) -> (r: ReadyStep)
    ensures
        r == if status & 0xF != 0 {
            ReadyStep::Fail
        } else if status & 0x10 == 0 {
            ReadyStep::Ready
        } else if elapsed_ms >= BOARD_READY_TIMEOUT_MS {
            ReadyStep::TimedOut
        } else {
            ReadyStep::Wait
        },
{
    if status & 0xF != 0 {
        ReadyStep::Fail
    } else if status & 0x10 == 0 {
        ReadyStep::Ready
    } else if elapsed_ms >= BOARD_READY_TIMEOUT_MS {
        ReadyStep::TimedOut
    } else {
        ReadyStep::Wait
    }
}

/// A board reported ready has no fault in its status.
pub proof fn law_ready_means_no_failure(status: u32, elapsed_ms: u64)
    ensures
        (if status & 0xF != 0 {
            ReadyStep::Fail
        } else if status & 0x10 == 0 {
            ReadyStep::Ready
        } else if elapsed_ms >= BOARD_READY_TIMEOUT_MS {
            ReadyStep::TimedOut
        } else {
            ReadyStep::Wait
        }) == ReadyStep::Ready <==> spec_board_fail_status(status) is None,
{
}

/// `(software trigger mode, external trigger input mode)` for a trigger
/// source word; the software trigger stays acquisition-only so that
/// diagnostic software triggers keep working, and an unknown source is
/// treated as external.
pub fn trigger_modes(source: &str) -> (r: (TriggerMode, TriggerMode))
    ensures
        r.0 == TriggerMode::AcqOnly,
        r.1 == if source@ == "software"@ || source@ == "sw"@ || source@ == "self"@ {
            TriggerMode::Disabled
        } else {
            TriggerMode::AcqOnly
        },
{
    if str_eq(source, "software") || str_eq(source, "sw") || str_eq(source, "self") {
        (TriggerMode::AcqOnly, TriggerMode::Disabled)
    } else {
        (TriggerMode::AcqOnly, TriggerMode::AcqOnly)
    }
}

/// Mask of the first `num_channels` channels (all 32 bits from 32 on).
pub fn all_channels_mask(num_channels: u8) -> (r: u32)
    ensures
        num_channels >= 32 ==> r == u32::MAX,
        num_channels < 32 ==> r == (1u32 << num_channels) - 1,
{
    if num_channels >= 32 {
        u32::MAX
    } else {
        let bit = 1u32 << num_channels;
        assert(num_channels < 32 ==> (1u32 << num_channels) >= 1) by (bit_vector);
        bit - 1
    }
}

pub open spec fn spec_trigger_edge(edge: Option<Seq<char>>, polarity: Option<Seq<char>>) -> Option<
    TriggerPolarity,
> {
    match edge {
        Some(e) => Some(
            if word_is(e, "rising"@) || word_is(e, "risingedge"@) || word_is(e, "rising_edge"@) {
                TriggerPolarity::RisingEdge
            } else {
                TriggerPolarity::FallingEdge
            },
        ),
        None => match polarity {
            Some(p) => Some(
                if word_is(p, "positive"@) || word_is(p, "polarity_positive"@) {
                    TriggerPolarity::RisingEdge
                } else {
                    TriggerPolarity::FallingEdge
                },
            ),
            None => None,
        },
    }
}

/// Trigger edge of a channel: from its trigger-edge word when given, else
/// from its pulse polarity (positive rises, anything else falls), else
/// none.
pub fn trigger_edge(edge: Option<&str>, polarity: Option<&str>) -> (r: Option<TriggerPolarity>)
    ensures
        r == spec_trigger_edge(
            match edge {
                Some(e) => Some(e@),
                None => None,
            },
            match polarity {
                Some(p) => Some(p@),
                None => None,
            },
        ),
{
    match edge {
        Some(e) => {
            if eq_ignore_ascii_case(e, "rising") || eq_ignore_ascii_case(e, "risingedge")
                || eq_ignore_ascii_case(e, "rising_edge") {
                Some(TriggerPolarity::RisingEdge)
            } else {
                Some(TriggerPolarity::FallingEdge)
            }
        },
        None => match polarity {
            Some(p) => {
                if eq_ignore_ascii_case(p, "positive") || eq_ignore_ascii_case(
                    p,
                    "polarity_positive",
                ) {
                    Some(TriggerPolarity::RisingEdge)
                } else {
                    Some(TriggerPolarity::FallingEdge)
                }
            },
            None => None,
        },
    }
}

/// Each sampling-frequency word names its value, in any ASCII case (3.2ghz, 3200mhz, 1.6ghz, 1600mhz, 800mhz, 0.8ghz, 400mhz, 0.4ghz),
/// and no other word is accepted.
pub proof fn law_sam_frequency_words(s: Seq<char>)
    ensures
        (lower_seq(s) == lower_seq("3.2ghz"@) || lower_seq(s) == lower_seq("3200mhz"@)) ==> spec_sam_frequency(s) == Some(SamFrequency::Ghz3_2),
        (lower_seq(s) == lower_seq("1.6ghz"@) || lower_seq(s) == lower_seq("1600mhz"@)) ==> spec_sam_frequency(s) == Some(SamFrequency::Ghz1_6),
        (lower_seq(s) == lower_seq("800mhz"@) || lower_seq(s) == lower_seq("0.8ghz"@)) ==> spec_sam_frequency(s) == Some(SamFrequency::Mhz800),
        (lower_seq(s) == lower_seq("400mhz"@) || lower_seq(s) == lower_seq("0.4ghz"@)) ==> spec_sam_frequency(s) == Some(SamFrequency::Mhz400),
        spec_sam_frequency(s) is Some <==> (lower_seq(s) == lower_seq("3.2ghz"@) || lower_seq(s) == lower_seq("3200mhz"@) || lower_seq(s) == lower_seq("1.6ghz"@) || lower_seq(s) == lower_seq("1600mhz"@) || lower_seq(s) == lower_seq("800mhz"@) || lower_seq(s) == lower_seq("0.8ghz"@) || lower_seq(s) == lower_seq("400mhz"@) || lower_seq(s) == lower_seq("0.4ghz"@)),
{
    reveal_strlit("3.2ghz");
    reveal_strlit("3200mhz");
    reveal_strlit("1.6ghz");
    reveal_strlit("1600mhz");
    reveal_strlit("800mhz");
    reveal_strlit("0.8ghz");
    reveal_strlit("400mhz");
    reveal_strlit("0.4ghz");
    assert(lower_seq("1.6ghz"@) != lower_seq("3.2ghz"@)) by {
        assert(lower_seq("1.6ghz"@)[0] != lower_seq("3.2ghz"@)[0]);
    }
    assert(lower_seq("1.6ghz"@) != lower_seq("3200mhz"@)) by {
        assert(lower_seq("1.6ghz"@).len() != lower_seq("3200mhz"@).len());
    }
    assert(lower_seq("1600mhz"@) != lower_seq("3.2ghz"@)) by {
        assert(lower_seq("1600mhz"@).len() != lower_seq("3.2ghz"@).len());
    }
    assert(lower_seq("1600mhz"@) != lower_seq("3200mhz"@)) by {
        assert(lower_seq("1600mhz"@)[0] != lower_seq("3200mhz"@)[0]);
    }
    assert(lower_seq("800mhz"@) != lower_seq("3.2ghz"@)) by {
        assert(lower_seq("800mhz"@)[0] != lower_seq("3.2ghz"@)[0]);
    }
    assert(lower_seq("800mhz"@) != lower_seq("3200mhz"@)) by {
        assert(lower_seq("800mhz"@).len() != lower_seq("3200mhz"@).len());
    }
    assert(lower_seq("800mhz"@) != lower_seq("1.6ghz"@)) by {
        assert(lower_seq("800mhz"@)[0] != lower_seq("1.6ghz"@)[0]);
    }
    assert(lower_seq("800mhz"@) != lower_seq("1600mhz"@)) by {
        assert(lower_seq("800mhz"@).len() != lower_seq("1600mhz"@).len());
    }
    assert(lower_seq("0.8ghz"@) != lower_seq("3.2ghz"@)) by {
        assert(lower_seq("0.8ghz"@)[0] != lower_seq("3.2ghz"@)[0]);
    }
    assert(lower_seq("0.8ghz"@) != lower_seq("3200mhz"@)) by {
        assert(lower_seq("0.8ghz"@).len() != lower_seq("3200mhz"@).len());
    }
    assert(lower_seq("0.8ghz"@) != lower_seq("1.6ghz"@)) by {
        assert(lower_seq("0.8ghz"@)[0] != lower_seq("1.6ghz"@)[0]);
    }
    assert(lower_seq("0.8ghz"@) != lower_seq("1600mhz"@)) by {
        assert(lower_seq("0.8ghz"@).len() != lower_seq("1600mhz"@).len());
    }
    assert(lower_seq("400mhz"@) != lower_seq("3.2ghz"@)) by {
        assert(lower_seq("400mhz"@)[0] != lower_seq("3.2ghz"@)[0]);
    }
    assert(lower_seq("400mhz"@) != lower_seq("3200mhz"@)) by {
        assert(lower_seq("400mhz"@).len() != lower_seq("3200mhz"@).len());
    }
    assert(lower_seq("400mhz"@) != lower_seq("1.6ghz"@)) by {
        assert(lower_seq("400mhz"@)[0] != lower_seq("1.6ghz"@)[0]);
    }
    assert(lower_seq("400mhz"@) != lower_seq("1600mhz"@)) by {
        assert(lower_seq("400mhz"@).len() != lower_seq("1600mhz"@).len());
    }
    assert(lower_seq("400mhz"@) != lower_seq("800mhz"@)) by {
        assert(lower_seq("400mhz"@)[0] != lower_seq("800mhz"@)[0]);
    }
    assert(lower_seq("400mhz"@) != lower_seq("0.8ghz"@)) by {
        assert(lower_seq("400mhz"@)[0] != lower_seq("0.8ghz"@)[0]);
    }
    assert(lower_seq("0.4ghz"@) != lower_seq("3.2ghz"@)) by {
        assert(lower_seq("0.4ghz"@)[0] != lower_seq("3.2ghz"@)[0]);
    }
    assert(lower_seq("0.4ghz"@) != lower_seq("3200mhz"@)) by {
        assert(lower_seq("0.4ghz"@).len() != lower_seq("3200mhz"@).len());
    }
    assert(lower_seq("0.4ghz"@) != lower_seq("1.6ghz"@)) by {
        assert(lower_seq("0.4ghz"@)[0] != lower_seq("1.6ghz"@)[0]);
    }
    assert(lower_seq("0.4ghz"@) != lower_seq("1600mhz"@)) by {
        assert(lower_seq("0.4ghz"@).len() != lower_seq("1600mhz"@).len());
    }
    assert(lower_seq("0.4ghz"@) != lower_seq("800mhz"@)) by {
        assert(lower_seq("0.4ghz"@)[0] != lower_seq("800mhz"@)[0]);
    }
    assert(lower_seq("0.4ghz"@) != lower_seq("0.8ghz"@)) by {
        assert(lower_seq("0.4ghz"@)[2] != lower_seq("0.8ghz"@)[2]);
    }
}

/// Each correction-level word names its value, in any ASCII case (all, full, pedestal_only, pedestal, inl, disabled, none),
/// and no other word is accepted.
pub proof fn law_correction_level_words(s: Seq<char>)
    ensures
        (lower_seq(s) == lower_seq("all"@) || lower_seq(s) == lower_seq("full"@)) ==> spec_correction_level(s) == Some(SamCorrectionLevel::All),
        (lower_seq(s) == lower_seq("pedestal_only"@) || lower_seq(s) == lower_seq("pedestal"@)) ==> spec_correction_level(s) == Some(SamCorrectionLevel::PedestalOnly),
        (lower_seq(s) == lower_seq("inl"@)) ==> spec_correction_level(s) == Some(SamCorrectionLevel::INL),
        (lower_seq(s) == lower_seq("disabled"@) || lower_seq(s) == lower_seq("none"@)) ==> spec_correction_level(s) == Some(SamCorrectionLevel::Disabled),
        spec_correction_level(s) is Some <==> (lower_seq(s) == lower_seq("all"@) || lower_seq(s) == lower_seq("full"@) || lower_seq(s) == lower_seq("pedestal_only"@) || lower_seq(s) == lower_seq("pedestal"@) || lower_seq(s) == lower_seq("inl"@) || lower_seq(s) == lower_seq("disabled"@) || lower_seq(s) == lower_seq("none"@)),
{
    reveal_strlit("all");
    reveal_strlit("full");
    reveal_strlit("pedestal_only");
    reveal_strlit("pedestal");
    reveal_strlit("inl");
    reveal_strlit("disabled");
    reveal_strlit("none");
    assert(lower_seq("pedestal_only"@) != lower_seq("all"@)) by {
        assert(lower_seq("pedestal_only"@).len() != lower_seq("all"@).len());
    }
    assert(lower_seq("pedestal_only"@) != lower_seq("full"@)) by {
        assert(lower_seq("pedestal_only"@).len() != lower_seq("full"@).len());
    }
    assert(lower_seq("pedestal"@) != lower_seq("all"@)) by {
        assert(lower_seq("pedestal"@).len() != lower_seq("all"@).len());
    }
    assert(lower_seq("pedestal"@) != lower_seq("full"@)) by {
        assert(lower_seq("pedestal"@).len() != lower_seq("full"@).len());
    }
    assert(lower_seq("inl"@) != lower_seq("all"@)) by {
        assert(lower_seq("inl"@)[0] != lower_seq("all"@)[0]);
    }
    assert(lower_seq("inl"@) != lower_seq("full"@)) by {
        assert(lower_seq("inl"@).len() != lower_seq("full"@).len());
    }
    assert(lower_seq("inl"@) != lower_seq("pedestal_only"@)) by {
        assert(lower_seq("inl"@).len() != lower_seq("pedestal_only"@).len());
    }
    assert(lower_seq("inl"@) != lower_seq("pedestal"@)) by {
        assert(lower_seq("inl"@).len() != lower_seq("pedestal"@).len());
    }
    assert(lower_seq("disabled"@) != lower_seq("all"@)) by {
        assert(lower_seq("disabled"@).len() != lower_seq("all"@).len());
    }
    assert(lower_seq("disabled"@) != lower_seq("full"@)) by {
        assert(lower_seq("disabled"@).len() != lower_seq("full"@).len());
    }
    assert(lower_seq("disabled"@) != lower_seq("pedestal_only"@)) by {
        assert(lower_seq("disabled"@).len() != lower_seq("pedestal_only"@).len());
    }
    assert(lower_seq("disabled"@) != lower_seq("pedestal"@)) by {
        assert(lower_seq("disabled"@)[0] != lower_seq("pedestal"@)[0]);
    }
    assert(lower_seq("disabled"@) != lower_seq("inl"@)) by {
        assert(lower_seq("disabled"@).len() != lower_seq("inl"@).len());
    }
    assert(lower_seq("none"@) != lower_seq("all"@)) by {
        assert(lower_seq("none"@).len() != lower_seq("all"@).len());
    }
    assert(lower_seq("none"@) != lower_seq("full"@)) by {
        assert(lower_seq("none"@)[0] != lower_seq("full"@)[0]);
    }
    assert(lower_seq("none"@) != lower_seq("pedestal_only"@)) by {
        assert(lower_seq("none"@).len() != lower_seq("pedestal_only"@).len());
    }
    assert(lower_seq("none"@) != lower_seq("pedestal"@)) by {
        assert(lower_seq("none"@).len() != lower_seq("pedestal"@).len());
    }
    assert(lower_seq("none"@) != lower_seq("inl"@)) by {
        assert(lower_seq("none"@).len() != lower_seq("inl"@).len());
    }
}

/// Each I/O-level word names its value, in any ASCII case (nim, ttl),
/// and no other word is accepted.
pub proof fn law_io_level_words(s: Seq<char>)
    ensures
        (lower_seq(s) == lower_seq("nim"@)) ==> spec_io_level(s) == Some(IOLevel::NIM),
        (lower_seq(s) == lower_seq("ttl"@)) ==> spec_io_level(s) == Some(IOLevel::TTL),
        spec_io_level(s) is Some <==> (lower_seq(s) == lower_seq("nim"@) || lower_seq(s) == lower_seq("ttl"@)),
{
    reveal_strlit("nim");
    reveal_strlit("ttl");
    assert(lower_seq("ttl"@) != lower_seq("nim"@)) by {
        assert(lower_seq("ttl"@)[0] != lower_seq("nim"@)[0]);
    }
}

/// Each pulse-source word names its value, in any ASCII case (software, sw, continuous, cont),
/// and no other word is accepted.
pub proof fn law_pulse_source_words(s: Seq<char>)
    ensures
        (lower_seq(s) == lower_seq("software"@) || lower_seq(s) == lower_seq("sw"@)) ==> spec_pulse_source(s) == Some(SamPulseSource::Software),
        (lower_seq(s) == lower_seq("continuous"@) || lower_seq(s) == lower_seq("cont"@)) ==> spec_pulse_source(s) == Some(SamPulseSource::Continuous),
        spec_pulse_source(s) is Some <==> (lower_seq(s) == lower_seq("software"@) || lower_seq(s) == lower_seq("sw"@) || lower_seq(s) == lower_seq("continuous"@) || lower_seq(s) == lower_seq("cont"@)),
{
    reveal_strlit("software");
    reveal_strlit("sw");
    reveal_strlit("continuous");
    reveal_strlit("cont");
    assert(lower_seq("continuous"@) != lower_seq("software"@)) by {
        assert(lower_seq("continuous"@).len() != lower_seq("software"@).len());
    }
    assert(lower_seq("continuous"@) != lower_seq("sw"@)) by {
        assert(lower_seq("continuous"@).len() != lower_seq("sw"@).len());
    }
    assert(lower_seq("cont"@) != lower_seq("software"@)) by {
        assert(lower_seq("cont"@).len() != lower_seq("software"@).len());
    }
    assert(lower_seq("cont"@) != lower_seq("sw"@)) by {
        assert(lower_seq("cont"@).len() != lower_seq("sw"@).len());
    }
}

/// The board status decodes as: any of the low four bits set is a
/// communication timeout, else bit 4 set is an unlocked PLL, else no
/// fault; so a board is fault-free exactly when bits [4:0] are clear.
pub proof fn law_board_fail_status_bits(status: u32)
    ensures
        spec_board_fail_status(status) is None <==> status & 0x1F == 0,
        spec_board_fail_status(status) == Some(BoardFailure::CommTimeout) <==> status & 0xF != 0,
        spec_board_fail_status(status) == Some(BoardFailure::PllNotLocked) <==> (status & 0xF == 0
            && status & 0x10 != 0),
{
    assert((status & 0x1F == 0) <==> (status & 0xF == 0 && status & 0x10 == 0)) by (bit_vector);
}

/// A trigger-edge word reading "rising", "risingedge" or "rising_edge" in
/// any ASCII case gives the rising edge and any other word the falling
/// edge; without one, a polarity reading "positive" or "polarity_positive"
/// gives the rising edge, another polarity the falling edge, and none
/// gives no edge.
pub proof fn law_trigger_edge_words(edge: Option<Seq<char>>, polarity: Option<Seq<char>>)
    ensures
        edge matches Some(e) ==> spec_trigger_edge(edge, polarity) == Some(
            if lower_seq(e) == lower_seq("rising"@) || lower_seq(e) == lower_seq("risingedge"@)
                || lower_seq(e) == lower_seq("rising_edge"@) {
                TriggerPolarity::RisingEdge
            } else {
                TriggerPolarity::FallingEdge
            },
        ),
        edge is None ==> match polarity {
            Some(p) => spec_trigger_edge(edge, polarity) == Some(
                if lower_seq(p) == lower_seq("positive"@) || lower_seq(p) == lower_seq(
                    "polarity_positive"@,
                ) {
                    TriggerPolarity::RisingEdge
                } else {
                    TriggerPolarity::FallingEdge
                },
            ),
            None => spec_trigger_edge(edge, polarity) is None,
        },
{
}

} // verus!
