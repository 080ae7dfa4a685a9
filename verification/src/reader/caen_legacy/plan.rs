//! The V1743 Standard-mode configuration sequence (the order of WaveDemo's
//! ProgramBoard), as a list of board operations. The list is computed
//! from plain settings here and executed against the board elsewhere; the
//! number of parameters it writes is what the Operator reports as
//! "Applied N parameters".
//!
//! A configuration word that cannot be read ends the sequence: the
//! operations before it are still performed, as the board saw them, and
//! the error is returned after them.

use vstd::prelude::*;

use super::error::{DigitizerError, ErrorCode};
use super::handle::{
    all_channels_mask, parse_correction_level, parse_io_level, parse_pulse_source,
    parse_sam_frequency, spec_correction_level, spec_io_level, spec_pulse_source,
    spec_sam_frequency, spec_trigger_edge, trigger_edge, trigger_modes, AcqMode, IOLevel,
    SamCorrectionLevel, SamFrequency, SamPulseSource, TriggerMode, TriggerPolarity, MAX_CHANNELS,
    MAX_GROUPS,
};
use crate::text::{eq_ignore_ascii_case, lower_seq};

verus! {

/// One operation on the board.
#[derive(Debug, Clone, Copy, PartialEq, Eq, Structural)]
pub enum X743Op {
    /// Software reset of the board.
    Reset,
    /// Wait until the board reports ready (PLL locked, no fault).
    WaitReady,
    /// Reload the SAM correction tables if the reset cleared them (a
    /// failure there is not fatal).
    CheckSamCorrection,
    GroupEnableMask(u32),
    PostTriggerSize { group: u32, size: u32 },
    SamplingFrequency(SamFrequency),
    EnablePulseGen { channel: u32, pattern: u16, source: SamPulseSource },
    DisablePulseGen { channel: u32 },
    ChannelSelfTrigger { mode: TriggerMode, mask: u32 },
    ChannelDcOffset { channel: u32, dac: u32 },
    ChannelThreshold { channel: u32, dac: u32 },
    ChannelPolarity { channel: u32, polarity: TriggerPolarity },
    SwTriggerMode(TriggerMode),
    ExtTriggerInputMode(TriggerMode),
    CorrectionLevel(SamCorrectionLevel),
    MaxEventsBlt(u32),
    RecordLength(u32),
    IoLevel(IOLevel),
    AcquisitionMode(AcqMode),
    WriteRegister { addr: u32, data: u32 },
}

/// Settings of one channel, each already resolved from the channel's own
/// entry or the defaults. The DAC values are computed from the
/// percentages and volts of the configuration where it is read.
#[derive(Debug, Clone)]
pub struct X743Channel {
    pub dc_offset_dac: u32,
    pub threshold_dac: Option<u32>,
    pub trigger_edge: Option<String>,
    pub polarity: Option<String>,
    pub enabled: Option<String>,
    pub self_trigger: Option<String>,
}

/// The board-level settings of the x743 configuration section.
#[derive(Debug, Clone)]
pub struct X743Settings {
    pub group_enable_mask: u32,
    pub post_trigger_size: u32,
    pub sampling_frequency: String,
    pub pulse_gen_enabled: bool,
    pub pulse_source: String,
    pub pulse_pattern: u16,
    pub trigger_source: String,
    pub correction_level: String,
    pub max_num_events_blt: u32,
    pub record_length: u32,
    pub io_level: String,
    /// Raw register writes `(address, data)`, applied last, in order.
    pub extra_registers: Vec<(u32, u32)>,
}

/// What the Standard-mode configuration reads: the channel count, the
/// settings of channels `0..num_channels`, and the x743 section if the
/// configuration has one.
#[derive(Debug, Clone)]
pub struct X743Config {
    pub num_channels: u8,
    pub channels: Vec<X743Channel>,
    pub x743: Option<X743Settings>,
}

/// The sequence to perform and, when a word could not be read, the error
/// that ends it.
#[derive(Debug, Clone)]
pub struct X743Plan {
    pub ops: Vec<X743Op>,
    pub error: Option<DigitizerError>,
}

// ---------------------------------------------------------------------------
// Specification
// ---------------------------------------------------------------------------

pub open spec fn opt_view(o: Option<String>) -> Option<Seq<char>> {
    match o {
        Some(s) => Some(s@),
        None => None,
    }
}

/// A yes/no word: "true" in any ASCII case is yes; absent gives `default`.
pub open spec fn flag_is_true(o: Option<String>, default: bool) -> bool {
    match o {
        Some(s) => lower_seq(s@) == lower_seq("true"@),
        None => default,
    }
}

/// Whether the group of channel `ch` is enabled in `mask`.
pub open spec fn group_enabled(mask: u32, ch: int) -> bool {
    mask & (1u32 << ((ch / 2) as u32)) != 0
}

/// Whether channel settings ask for the channel's self-trigger.
pub open spec fn wants_self_trigger(c: X743Channel) -> bool {
    flag_is_true(c.enabled, true) && flag_is_true(c.self_trigger, false)
}

/// Post-trigger size writes of the enabled groups among `0..g`.
pub open spec fn post_trigger_ops(mask: u32, size: u32, g: nat) -> Seq<X743Op>
    decreases g,
{
    if g == 0 {
        Seq::empty()
    } else {
        let k = (g - 1) as nat;
        post_trigger_ops(mask, size, k) + if mask & (1u32 << (k as u32)) != 0 {
            seq![X743Op::PostTriggerSize { group: k as u32, size }]
        } else {
            Seq::empty()
        }
    }
}

/// Pulse generator operations on channels `0..n`.
pub open spec fn pulse_ops(enabled: bool, pattern: u16, source: SamPulseSource, n: nat) -> Seq<X743Op> {
    Seq::new(
        n,
        |i: int|
            if enabled {
                X743Op::EnablePulseGen { channel: i as u32, pattern, source }
            } else {
                X743Op::DisablePulseGen { channel: i as u32 }
            },
    )
}

/// Operations of one channel of an enabled group: DC offset, then the
/// threshold and the trigger edge when the settings give them.
pub open spec fn one_channel_ops(c: X743Channel, ch: u32) -> Seq<X743Op> {
    seq![X743Op::ChannelDcOffset { channel: ch, dac: c.dc_offset_dac }] + match c.threshold_dac {
        Some(t) => seq![X743Op::ChannelThreshold { channel: ch, dac: t }],
        None => Seq::empty(),
    } + match spec_trigger_edge(opt_view(c.trigger_edge), opt_view(c.polarity)) {
        Some(p) => seq![X743Op::ChannelPolarity { channel: ch, polarity: p }],
        None => Seq::empty(),
    }
}

/// Operations of the channels `0..k` whose group is enabled.
pub open spec fn channel_ops(chs: Seq<X743Channel>, mask: u32, k: nat) -> Seq<X743Op>
    decreases k,
{
    if k == 0 {
        Seq::empty()
    } else {
        let j = (k - 1) as nat;
        channel_ops(chs, mask, j) + if group_enabled(mask, j as int) {
            one_channel_ops(chs[j as int], j as u32)
        } else {
            Seq::empty()
        }
    }
}

/// Self-trigger mask of the channels `0..k`: those of an enabled group
/// that are enabled and ask for a self-trigger.
pub open spec fn self_trigger_mask(chs: Seq<X743Channel>, mask: u32, k: nat) -> u32
    decreases k,
{
    if k == 0 {
        0
    } else {
        let j = (k - 1) as nat;
        let prev = self_trigger_mask(chs, mask, j);
        if group_enabled(mask, j as int) && wants_self_trigger(chs[j as int]) {
            prev | (1u32 << (j as u32))
        } else {
            prev
        }
    }
}

pub open spec fn spec_all_channels_mask(n: u8) -> u32 {
    if n >= 32 {
        u32::MAX
    } else {
        ((1u32 << n) - 1) as u32
    }
}

/// The channel section: every self-trigger disabled, the channels, then
/// the self-trigger mask when it is not empty.
pub open spec fn channel_section(cfg: X743Config, mask: u32) -> Seq<X743Op> {
    let n = cfg.num_channels as nat;
    let st = self_trigger_mask(cfg.channels@, mask, n);
    seq![X743Op::ChannelSelfTrigger { mode: TriggerMode::Disabled, mask: spec_all_channels_mask(cfg.num_channels) }]
        + channel_ops(cfg.channels@, mask, n) + if st != 0 {
        seq![X743Op::ChannelSelfTrigger { mode: TriggerMode::AcqOnly, mask: st }]
    } else {
        Seq::empty()
    }
}

/// External trigger input mode for a trigger source word (the software
/// trigger is always acquisition-only).
pub open spec fn ext_trigger_mode(source: Seq<char>) -> TriggerMode {
    if source == "software"@ || source == "sw"@ || source == "self"@ {
        TriggerMode::Disabled
    } else {
        TriggerMode::AcqOnly
    }
}

pub open spec fn register_ops(regs: Seq<(u32, u32)>) -> Seq<X743Op> {
    Seq::new(regs.len(), |i: int| X743Op::WriteRegister { addr: regs[i].0, data: regs[i].1 })
}

/// The sequence from the I/O level on, after the operations `d`.
pub open spec fn plan_from_io(x: X743Settings, d: Seq<X743Op>) -> (Seq<X743Op>, Option<Seq<char>>) {
    match spec_io_level(x.io_level@) {
        None => (d, Some("Unknown IO level: "@ + x.io_level@)),
        Some(io) => (
            d + seq![
                X743Op::IoLevel(io),
                X743Op::AcquisitionMode(AcqMode::SWControlled),
                X743Op::WaitReady,
            ] + register_ops(x.extra_registers@),
            None,
        ),
    }
}

/// The sequence from the correction level on, after the operations `c`.
pub open spec fn plan_from_correction(x: X743Settings, c: Seq<X743Op>) -> (Seq<X743Op>, Option<Seq<char>>) {
    match spec_correction_level(x.correction_level@) {
        None => (c, Some("Unknown correction level: "@ + x.correction_level@)),
        Some(cl) => plan_from_io(
            x,
            c + seq![
                X743Op::CorrectionLevel(cl),
                X743Op::MaxEventsBlt(x.max_num_events_blt),
                X743Op::RecordLength(x.record_length),
            ],
        ),
    }
}

/// Pulse source used by the pulse operations (irrelevant when they
/// disable the generator).
pub open spec fn pulse_source_of(x: X743Settings) -> SamPulseSource {
    match spec_pulse_source(x.pulse_source@) {
        Some(s) => s,
        None => SamPulseSource::Software,
    }
}

/// The sequence from the pulse generator on, after the operations `b`.
pub open spec fn plan_from_pulse(cfg: X743Config, x: X743Settings, b: Seq<X743Op>) -> (Seq<X743Op>, Option<Seq<char>>) {
    if x.pulse_gen_enabled && spec_pulse_source(x.pulse_source@) is None {
        (b, Some("Unknown pulse source: "@ + x.pulse_source@))
    } else {
        plan_from_correction(
            x,
            b + pulse_ops(x.pulse_gen_enabled, x.pulse_pattern, pulse_source_of(x), MAX_CHANNELS as nat)
                + channel_section(cfg, x.group_enable_mask) + seq![
                X743Op::SwTriggerMode(TriggerMode::AcqOnly),
                X743Op::ExtTriggerInputMode(ext_trigger_mode(x.trigger_source@)),
            ],
        )
    }
}

/// The first operations: reset, wait, correction tables, group mask and
/// post-trigger sizes.
pub open spec fn plan_head(x: X743Settings) -> Seq<X743Op> {
    seq![
        X743Op::Reset,
        X743Op::WaitReady,
        X743Op::CheckSamCorrection,
        X743Op::GroupEnableMask(x.group_enable_mask),
    ] + post_trigger_ops(x.group_enable_mask, x.post_trigger_size, MAX_GROUPS as nat)
}

/// The operations of the Standard-mode sequence, and the context of the
/// error that ends it early, if one does.
pub open spec fn spec_x743_plan(cfg: X743Config) -> (Seq<X743Op>, Option<Seq<char>>) {
    match cfg.x743 {
        None => (Seq::empty(), Some("Missing x743 config section"@)),
        Some(x) => match spec_sam_frequency(x.sampling_frequency@) {
            None => (plan_head(x), Some("Unknown sampling frequency: "@ + x.sampling_frequency@)),
            Some(f) => plan_from_pulse(cfg, x, plan_head(x).push(X743Op::SamplingFrequency(f))),
        },
    }
}

/// `p` holds the operations and the error of `s`.
pub open spec fn plan_is(p: X743Plan, s: (Seq<X743Op>, Option<Seq<char>>)) -> bool {
    &&& p.ops@ == s.0
    &&& match s.1 {
        None => p.error is None,
        Some(ctx) => p.error matches Some(e) && e.code == ErrorCode::GenericError && e.context@
            == ctx,
    }
}

/// Whether an operation writes a parameter to the board.
pub open spec fn writes_parameter(op: X743Op) -> bool {
    !(op is Reset || op is WaitReady || op is CheckSamCorrection)
}

/// Number of parameter writes in `ops`.
pub open spec fn param_count(ops: Seq<X743Op>) -> nat
    decreases ops.len(),
{
    if ops.len() == 0 {
        0
    } else {
        param_count(ops.drop_last()) + if writes_parameter(ops.last()) {
            1nat
        } else {
            0
        }
    }
}

/// The settings of channels `32..` ask for no self-trigger: their bit
/// does not exist in the 32-bit mask.
pub open spec fn self_triggers_fit(cfg: X743Config, mask: u32) -> bool {
    forall|k: int|
        32 <= k < cfg.num_channels ==> !(group_enabled(mask, k) && wants_self_trigger(
            #[trigger] cfg.channels@[k],
        ))
}

/// What the sequence needs of a configuration with an x743 section: the
/// settings of each channel, at most 64 channels (so that each has a
/// group bit), and no self-trigger asked of a channel from 32 on (it has
/// no bit in the 32-bit mask). Without the section nothing is read.
pub open spec fn plan_allowed(cfg: X743Config) -> bool {
    match cfg.x743 {
        None => true,
        Some(x) => {
            &&& cfg.channels@.len() == cfg.num_channels
            &&& cfg.num_channels <= 64
            &&& self_triggers_fit(cfg, x.group_enable_mask)
        },
    }
}

// ---------------------------------------------------------------------------
// Laws
// ---------------------------------------------------------------------------

proof fn lemma_param_count_add(a: Seq<X743Op>, b: Seq<X743Op>)
    ensures
        param_count(a + b) == param_count(a) + param_count(b),
    decreases b.len(),
{
    if b.len() > 0 {
        lemma_param_count_add(a, b.drop_last());
        assert((a + b).drop_last() =~= a + b.drop_last());
        assert((a + b).last() == b.last());
    } else {
        assert(a + b =~= a);
    }
}

proof fn lemma_all_write(s: Seq<X743Op>)
    requires
        forall|i: int| 0 <= i < s.len() ==> writes_parameter(#[trigger] s[i]),
    ensures
        param_count(s) == s.len(),
    decreases s.len(),
{
    if s.len() > 0 {
        lemma_all_write(s.drop_last());
    }
}

proof fn lemma_post_trigger_ops_write(mask: u32, size: u32, g: nat)
    ensures
        forall|i: int|
            0 <= i < post_trigger_ops(mask, size, g).len() ==> writes_parameter(
                #[trigger] post_trigger_ops(mask, size, g)[i],
            ),
    decreases g,
{
    if g > 0 {
        let k = (g - 1) as nat;
        lemma_post_trigger_ops_write(mask, size, k);
        let prev = post_trigger_ops(mask, size, k);
        let here = if mask & (1u32 << (k as u32)) != 0 {
            seq![X743Op::PostTriggerSize { group: k as u32, size }]
        } else {
            Seq::empty()
        };
        assert forall|i: int| 0 <= i < (prev + here).len() implies writes_parameter(
            #[trigger] (prev + here)[i],
        ) by {
            if i >= prev.len() {
                assert((prev + here)[i] == here[i - prev.len()]);
            }
        }
    }
}

proof fn lemma_channel_ops_write(chs: Seq<X743Channel>, mask: u32, k: nat)
    ensures
        forall|i: int|
            0 <= i < channel_ops(chs, mask, k).len() ==> writes_parameter(
                #[trigger] channel_ops(chs, mask, k)[i],
            ),
    decreases k,
{
    if k > 0 {
        lemma_channel_ops_write(chs, mask, (k - 1) as nat);
        let j = (k - 1) as nat;
        let prev = channel_ops(chs, mask, j);
        let here = if group_enabled(mask, j as int) {
            one_channel_ops(chs[j as int], j as u32)
        } else {
            Seq::empty()
        };
        assert forall|i: int| 0 <= i < (prev + here).len() implies writes_parameter(
            #[trigger] (prev + here)[i],
        ) by {
            if i >= prev.len() {
                assert((prev + here)[i] == here[i - prev.len()]);
            }
        }
    }
}

/// The operations of a completed plan between the post-trigger sizes and
/// the I/O level: frequency, pulse generator, channels, trigger modes,
/// correction level, events per transfer and record length.
pub open spec fn plan_body(cfg: X743Config, x: X743Settings) -> Seq<X743Op> {
    seq![X743Op::SamplingFrequency(spec_sam_frequency(x.sampling_frequency@)->0)] + pulse_ops(
        x.pulse_gen_enabled,
        x.pulse_pattern,
        pulse_source_of(x),
        MAX_CHANNELS as nat,
    ) + channel_section(cfg, x.group_enable_mask) + seq![
        X743Op::SwTriggerMode(TriggerMode::AcqOnly),
        X743Op::ExtTriggerInputMode(ext_trigger_mode(x.trigger_source@)),
    ] + seq![
        X743Op::CorrectionLevel(spec_correction_level(x.correction_level@)->0),
        X743Op::MaxEventsBlt(x.max_num_events_blt),
        X743Op::RecordLength(x.record_length),
    ]
}

pub open spec fn plan_tail(x: X743Settings) -> Seq<X743Op> {
    seq![
        X743Op::IoLevel(spec_io_level(x.io_level@)->0),
        X743Op::AcquisitionMode(AcqMode::SWControlled),
        X743Op::WaitReady,
    ]
}

proof fn lemma_plan_decomposes(cfg: X743Config)
    requires
        spec_x743_plan(cfg).1 is None,
    ensures
        cfg.x743 is Some,
        spec_x743_plan(cfg).0 == plan_head(cfg.x743->0) + plan_body(cfg, cfg.x743->0) + plan_tail(
            cfg.x743->0,
        ) + register_ops(cfg.x743->0.extra_registers@),
{
    let x = cfg.x743->0;
    assert(spec_x743_plan(cfg).0 =~= plan_head(x) + plan_body(cfg, x) + plan_tail(x) + register_ops(
        x.extra_registers@,
    ));
}

proof fn lemma_body_writes(cfg: X743Config, x: X743Settings)
    ensures
        param_count(plan_body(cfg, x)) == plan_body(cfg, x).len(),
{
    let m = x.group_enable_mask;
    let body = plan_body(cfg, x);
    let pulse = pulse_ops(x.pulse_gen_enabled, x.pulse_pattern, pulse_source_of(x), MAX_CHANNELS as nat);
    let chs = channel_section(cfg, m);
    let n = cfg.num_channels as nat;
    lemma_channel_ops_write(cfg.channels@, m, n);
    let st = self_trigger_mask(cfg.channels@, m, n);
    let last_st = if st != 0 {
        seq![X743Op::ChannelSelfTrigger { mode: TriggerMode::AcqOnly, mask: st }]
    } else {
        Seq::empty()
    };
    let cops = channel_ops(cfg.channels@, m, n);
    let c0 = seq![X743Op::ChannelSelfTrigger { mode: TriggerMode::Disabled, mask: spec_all_channels_mask(cfg.num_channels) }];
    assert(chs =~= c0 + cops + last_st);
    assert forall|i: int| 0 <= i < body.len() implies writes_parameter(#[trigger] body[i]) by {
        if i >= 1 + pulse.len() && i < 1 + pulse.len() + chs.len() {
            let k = i - 1 - pulse.len();
            assert(body[i] == chs[k]);
            if k >= 1 && k < 1 + cops.len() {
                assert(chs[k] == cops[k - 1]);
            }
        }
    }
    lemma_all_write(body);
}

proof fn lemma_or_bit(prev: u32, jp: u32, j: u32)
    requires
        jp < 32,
        j < 32,
    ensures
        ((prev | (1u32 << jp)) >> j) & 1 == if j == jp {
            1u32
        } else {
            (prev >> j) & 1
        },
        (0u32 >> j) & 1 == 0,
{
    assert(jp < 32 && j < 32 ==> ((prev | (1u32 << jp)) >> j) & 1 == if j == jp {
        1u32
    } else {
        (prev >> j) & 1
    } && (0u32 >> j) & 1 == 0) by (bit_vector);
}

/// Bit `ch` of the self-trigger mask is set exactly for a channel below
/// the channel count whose group (`ch / 2`) is enabled in the group mask,
/// whose `enabled` word is "true" in any case or absent, and whose
/// `self_trigger` word is "true" in any case.
pub proof fn law_self_trigger_mask_bits(chs: Seq<X743Channel>, mask: u32, k: nat, ch: u32)
    requires
        k <= chs.len(),
        k <= 32,
        ch < 32,
    ensures
        (self_trigger_mask(chs, mask, k) >> ch) & 1 == 1 <==> (ch < k && mask & (1u32 << (ch / 2))
            != 0 && match chs[ch as int].enabled {
            Some(e) => lower_seq(e@) == lower_seq("true"@),
            None => true,
        } && match chs[ch as int].self_trigger {
            Some(t) => lower_seq(t@) == lower_seq("true"@),
            None => false,
        }),
    decreases k,
{
    if k == 0 {
        lemma_or_bit(0, 0, ch);
    } else {
        let j = (k - 1) as nat;
        law_self_trigger_mask_bits(chs, mask, j, ch);
        lemma_or_bit(self_trigger_mask(chs, mask, j), j as u32, ch);
        assert((j as int / 2) as u32 == (j as u32) / 2);
    }
}

/// A plan that runs to completion resets the board and waits for it
/// first, waits again just before the raw register writes, which come
/// last and in order, and writes a parameter with every other operation:
/// the count it reports is the number of operations less the reset, the
/// two waits and the correction-table check.
pub proof fn law_x743_plan_shape(cfg: X743Config)
    requires
        spec_x743_plan(cfg).1 is None,
    ensures
        cfg.x743 is Some,
        ({
            let ops = spec_x743_plan(cfg).0;
            let regs = cfg.x743->0.extra_registers@;
            &&& ops.len() >= 5 + regs.len()
            &&& ops[0] == X743Op::Reset
            &&& ops[1] == X743Op::WaitReady
            &&& ops[2] == X743Op::CheckSamCorrection
            &&& ops[ops.len() - regs.len() - 1] == X743Op::WaitReady
            &&& forall|i: int|
                0 <= i < regs.len() ==> #[trigger] ops[ops.len() - regs.len() + i]
                    == X743Op::WriteRegister { addr: regs[i].0, data: regs[i].1 }
            &&& param_count(ops) + 4 == ops.len()
        }),
{
    lemma_plan_decomposes(cfg);
    let x = cfg.x743->0;
    let m = x.group_enable_mask;
    let post = post_trigger_ops(m, x.post_trigger_size, MAX_GROUPS as nat);
    let first = seq![
        X743Op::Reset,
        X743Op::WaitReady,
        X743Op::CheckSamCorrection,
        X743Op::GroupEnableMask(m),
    ];
    let head = plan_head(x);
    let body = plan_body(cfg, x);
    let tail = plan_tail(x);
    let regs = register_ops(x.extra_registers@);
    let ops = spec_x743_plan(cfg).0;
    assert(head == first + post);
    lemma_post_trigger_ops_write(m, x.post_trigger_size, MAX_GROUPS as nat);
    lemma_all_write(post);
    lemma_body_writes(cfg, x);
    lemma_all_write(regs);
    lemma_param_count_add(first, post);
    lemma_param_count_add(head, body);
    lemma_param_count_add(head + body, tail);
    lemma_param_count_add(head + body + tail, regs);
    assert(param_count(first) == 1) by {
        reveal_with_fuel(param_count, 5);
        assert(first.drop_last().drop_last().drop_last().drop_last() =~= Seq::<X743Op>::empty());
    }
    assert(param_count(tail) == 2) by {
        reveal_with_fuel(param_count, 4);
        assert(tail.drop_last().drop_last().drop_last() =~= Seq::<X743Op>::empty());
    }
    assert(ops[0] == first[0]);
    assert(ops[1] == first[1]);
    assert(ops[2] == first[2]);
    let pre = head + body + tail;
    assert(ops == pre + regs);
    assert(ops[ops.len() - regs.len() - 1] == pre[pre.len() - 1]);
    assert forall|i: int| 0 <= i < regs.len() implies #[trigger] ops[ops.len() - regs.len() + i]
        == X743Op::WriteRegister {
        addr: x.extra_registers@[i].0,
        data: x.extra_registers@[i].1,
    } by {
        assert(ops[ops.len() - regs.len() + i] == regs[i]);
    }
}

// ---------------------------------------------------------------------------
// Construction
// ---------------------------------------------------------------------------

/// Whether [`x743_standard_plan`] may be computed for `cfg`.
pub fn x743_plan_allowed(cfg: &X743Config) -> (r: bool)
    ensures
        r == plan_allowed(*cfg),
{
    let x = match &cfg.x743 {
        None => {
            return true;
        },
        Some(x) => x,
    };
    if cfg.channels.len() != cfg.num_channels as usize || cfg.num_channels > 64 {
        return false;
    }
    let mask = x.group_enable_mask;
    let n = cfg.num_channels;
    let mut ch: u8 = 32;
    while ch < n
        invariant
            n == cfg.num_channels,
            n <= 64,
            32 <= ch,
            cfg.channels@.len() == n,
            mask == x.group_enable_mask,
            cfg.x743 == Some(*x),
            forall|k: int|
                32 <= k < ch ==> !(group_enabled(mask, k) && wants_self_trigger(
                    #[trigger] cfg.channels@[k],
                )),
        decreases n - ch,
    {
        let c = &cfg.channels[ch as usize];
        let group: u32 = (ch / 2) as u32;
        if mask & (1u32 << group) != 0 && flag_true(&c.enabled, true) && flag_true(
            &c.self_trigger,
            false,
        ) {
            assert(group_enabled(mask, ch as int) && wants_self_trigger(cfg.channels@[ch as int]));
            return false;
        }
        ch = ch + 1;
    }
    true
}

fn flag_true(o: &Option<String>, default: bool) -> (r: bool)
    ensures
        r == flag_is_true(*o, default),
{
    match o {
        Some(s) => eq_ignore_ascii_case(s.as_str(), "true"),
        None => default,
    }
}

fn as_opt_str(o: &Option<String>) -> (r: Option<&str>)
    ensures
        match r {
            Some(s) => Some(s@),
            None => None::<Seq<char>>,
        } == opt_view(*o),
{
    match o {
        Some(s) => Some(s.as_str()),
        None => None,
    }
}

fn push_post_trigger_ops(ops: &mut Vec<X743Op>, mask: u32, size: u32)
    ensures
        final(ops)@ == old(ops)@ + post_trigger_ops(mask, size, MAX_GROUPS as nat),
{
    let ghost start = ops@;
    let mut g: u32 = 0;
    while g < MAX_GROUPS as u32
        invariant
            g <= MAX_GROUPS,
            ops@ == start + post_trigger_ops(mask, size, g as nat),
        decreases MAX_GROUPS - g,
    {
        if mask & (1u32 << g) != 0 {
            ops.push(X743Op::PostTriggerSize { group: g, size });
        }
        proof {
            assert(post_trigger_ops(mask, size, (g + 1) as nat) == post_trigger_ops(mask, size, g as nat)
                + if mask & (1u32 << g) != 0 {
                seq![X743Op::PostTriggerSize { group: g, size }]
            } else {
                Seq::empty()
            });
        }
        g = g + 1;
    }
}

fn push_pulse_ops(ops: &mut Vec<X743Op>, enabled: bool, pattern: u16, source: SamPulseSource)
    ensures
        final(ops)@ == old(ops)@ + pulse_ops(enabled, pattern, source, MAX_CHANNELS as nat),
{
    let ghost start = ops@;
    let mut ch: u32 = 0;
    while ch < MAX_CHANNELS as u32
        invariant
            ch <= MAX_CHANNELS,
            ops@ == start + pulse_ops(enabled, pattern, source, ch as nat),
        decreases MAX_CHANNELS - ch,
    {
        if enabled {
            ops.push(X743Op::EnablePulseGen { channel: ch, pattern, source });
        } else {
            ops.push(X743Op::DisablePulseGen { channel: ch });
        }
        assert(ops@ =~= start + pulse_ops(enabled, pattern, source, (ch + 1) as nat));
        ch = ch + 1;
    }
}

fn push_channel_section(ops: &mut Vec<X743Op>, cfg: &X743Config, mask: u32)
    requires
        cfg.channels@.len() == cfg.num_channels,
        cfg.num_channels <= 64,
        self_triggers_fit(*cfg, mask),
    ensures
        final(ops)@ == old(ops)@ + channel_section(*cfg, mask),
{
    let ghost start = ops@;
    let n = cfg.num_channels;
    let all = all_channels_mask(n);
    ops.push(X743Op::ChannelSelfTrigger { mode: TriggerMode::Disabled, mask: all });
    let ghost head = ops@;
    let mut st: u32 = 0;
    let mut ch: u8 = 0;
    while ch < n
        invariant
            n == cfg.num_channels,
            n <= 64,
            ch <= n,
            cfg.channels@.len() == n,
            self_triggers_fit(*cfg, mask),
            ops@ == head + channel_ops(cfg.channels@, mask, ch as nat),
            st == self_trigger_mask(cfg.channels@, mask, ch as nat),
        decreases n - ch,
    {
        let c = &cfg.channels[ch as usize];
        let group: u32 = (ch / 2) as u32;
        let ghost before = ops@;
        if mask & (1u32 << group) != 0 {
            ops.push(X743Op::ChannelDcOffset { channel: ch as u32, dac: c.dc_offset_dac });
            match c.threshold_dac {
                Some(t) => {
                    ops.push(X743Op::ChannelThreshold { channel: ch as u32, dac: t });
                },
                None => {},
            }
            match trigger_edge(as_opt_str(&c.trigger_edge), as_opt_str(&c.polarity)) {
                Some(p) => {
                    ops.push(X743Op::ChannelPolarity { channel: ch as u32, polarity: p });
                },
                None => {},
            }
            assert(ops@ =~= before + one_channel_ops(*c, ch as u32));
            if flag_true(&c.enabled, true) && flag_true(&c.self_trigger, false) {
                if ch >= 32 {
                    assert(group_enabled(mask, ch as int) && wants_self_trigger(cfg.channels@[ch as int]));
                }
                st = st | (1u32 << ch);
            }
        }
        proof {
            assert(ops@ =~= head + channel_ops(cfg.channels@, mask, (ch + 1) as nat));
        }
        ch = ch + 1;
    }
    if st != 0 {
        ops.push(X743Op::ChannelSelfTrigger { mode: TriggerMode::AcqOnly, mask: st });
    }
    assert(ops@ =~= start + channel_section(*cfg, mask));
}

fn push_register_ops(ops: &mut Vec<X743Op>, regs: &Vec<(u32, u32)>)
    ensures
        final(ops)@ == old(ops)@ + register_ops(regs@),
{
    let ghost start = ops@;
    let mut i: usize = 0;
    while i < regs.len()
        invariant
            i <= regs@.len(),
            ops@ == start + register_ops(regs@.take(i as int)),
        decreases regs@.len() - i,
    {
        let (addr, data) = regs[i];
        ops.push(X743Op::WriteRegister { addr, data });
        assert(ops@ =~= start + register_ops(regs@.take(i + 1)));
        i = i + 1;
    }
    assert(regs@.take(i as int) =~= regs@);
}

fn finish_from_io(mut ops: Vec<X743Op>, x: &X743Settings) -> (p: X743Plan)
    ensures
        plan_is(p, plan_from_io(*x, ops@)),
{
    let io = match parse_io_level(x.io_level.as_str()) {
        Ok(io) => io,
        Err(e) => {
            return X743Plan { ops, error: Some(e) };
        },
    };
    let ghost d = ops@;
    ops.push(X743Op::IoLevel(io));
    ops.push(X743Op::AcquisitionMode(AcqMode::SWControlled));
    ops.push(X743Op::WaitReady);
    assert(ops@ =~= d + seq![
        X743Op::IoLevel(io),
        X743Op::AcquisitionMode(AcqMode::SWControlled),
        X743Op::WaitReady,
    ]);
    push_register_ops(&mut ops, &x.extra_registers);
    X743Plan { ops, error: None }
}

fn finish_from_correction(mut ops: Vec<X743Op>, x: &X743Settings) -> (p: X743Plan)
    ensures
        plan_is(p, plan_from_correction(*x, ops@)),
{
    let cl = match parse_correction_level(x.correction_level.as_str()) {
        Ok(cl) => cl,
        Err(e) => {
            return X743Plan { ops, error: Some(e) };
        },
    };
    let ghost c = ops@;
    ops.push(X743Op::CorrectionLevel(cl));
    ops.push(X743Op::MaxEventsBlt(x.max_num_events_blt));
    ops.push(X743Op::RecordLength(x.record_length));
    assert(ops@ =~= c + seq![
        X743Op::CorrectionLevel(cl),
        X743Op::MaxEventsBlt(x.max_num_events_blt),
        X743Op::RecordLength(x.record_length),
    ]);
    finish_from_io(ops, x)
}

fn finish_from_pulse(mut ops: Vec<X743Op>, cfg: &X743Config, x: &X743Settings) -> (p: X743Plan)
    requires
        cfg.channels@.len() == cfg.num_channels,
        cfg.num_channels <= 64,
        self_triggers_fit(*cfg, x.group_enable_mask),
    ensures
        plan_is(p, plan_from_pulse(*cfg, *x, ops@)),
{
    let source = if x.pulse_gen_enabled {
        match parse_pulse_source(x.pulse_source.as_str()) {
            Ok(s) => s,
            Err(e) => {
                return X743Plan { ops, error: Some(e) };
            },
        }
    } else {
        SamPulseSource::Software
    };
    let ghost b = ops@;
    push_pulse_ops(&mut ops, x.pulse_gen_enabled, x.pulse_pattern, source);
    proof {
        assert(pulse_ops(x.pulse_gen_enabled, x.pulse_pattern, source, MAX_CHANNELS as nat)
            =~= pulse_ops(x.pulse_gen_enabled, x.pulse_pattern, pulse_source_of(*x), MAX_CHANNELS as nat));
    }
    push_channel_section(&mut ops, cfg, x.group_enable_mask);
    let (sw_mode, ext_mode) = trigger_modes(x.trigger_source.as_str());
    ops.push(X743Op::SwTriggerMode(sw_mode));
    ops.push(X743Op::ExtTriggerInputMode(ext_mode));
    assert(ops@ =~= b + pulse_ops(x.pulse_gen_enabled, x.pulse_pattern, pulse_source_of(*x), MAX_CHANNELS as nat)
        + channel_section(*cfg, x.group_enable_mask) + seq![
        X743Op::SwTriggerMode(TriggerMode::AcqOnly),
        X743Op::ExtTriggerInputMode(ext_trigger_mode(x.trigger_source@)),
    ]);
    finish_from_correction(ops, x)
}

/// The Standard-mode configuration sequence of `cfg`: reset and wait for
/// the board, the group mask and post-trigger sizes, the sampling
/// frequency, the pulse generator of every channel, the channels, the
/// trigger modes, correction level, events per transfer, record length,
/// I/O level and software-controlled acquisition, a second wait, and the
/// raw register writes last. It stops at the first configuration word
/// that cannot be read, with that error; without an x743 section nothing
/// is done.
pub fn x743_standard_plan(cfg: &X743Config) -> (p: X743Plan)
    requires
        plan_allowed(*cfg),
    ensures
        plan_is(p, spec_x743_plan(*cfg)),
{
    let mut ops: Vec<X743Op> = Vec::new();
    let x = match &cfg.x743 {
        Some(x) => x,
        None => {
            let e = DigitizerError::new(-1, "Missing x743 config section");
            return X743Plan { ops, error: Some(e) };
        },
    };
    let m = x.group_enable_mask;
    ops.push(X743Op::Reset);
    ops.push(X743Op::WaitReady);
    ops.push(X743Op::CheckSamCorrection);
    ops.push(X743Op::GroupEnableMask(m));
    push_post_trigger_ops(&mut ops, m, x.post_trigger_size);
    assert(ops@ =~= plan_head(*x));
    let f = match parse_sam_frequency(x.sampling_frequency.as_str()) {
        Ok(f) => f,
        Err(e) => {
            return X743Plan { ops, error: Some(e) };
        },
    };
    ops.push(X743Op::SamplingFrequency(f));
    finish_from_pulse(ops, cfg, x)
}

/// Number of parameters that `ops` write to the board (everything but
/// the reset, the waits and the correction-table check): what a completed
/// Standard-mode configuration reports.
pub fn x743_param_count(ops: &Vec<X743Op>) -> (n: usize)
    ensures
        n == param_count(ops@),
{
    let mut n: usize = 0;
    let mut i: usize = 0;
    while i < ops.len()
        invariant
            i <= ops@.len(),
            n == param_count(ops@.take(i as int)),
            n <= i,
        decreases ops@.len() - i,
    {
        proof {
            assert(ops@.take(i + 1).drop_last() =~= ops@.take(i as int));
        }
        match ops[i] {
            X743Op::Reset | X743Op::WaitReady | X743Op::CheckSamCorrection => {},
            _ => {
                n = n + 1;
            },
        }
        i = i + 1;
    }
    assert(ops@.take(i as int) =~= ops@);
    n
}

} // verus!
