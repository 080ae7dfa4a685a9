//! Reader: acquisition from CAEN digitizers, decoding, and the rules that
//! drive the read loop (run-state ranking, counter polling, reconnection
//! backoff, arm/start commands).

use vstd::prelude::*;

use self::caen::handle::OpenDppEvent;
use self::decoder::common::{EventData, EventTime};
use crate::text::{eq_ignore_ascii_case, lower_seq, str_eq};
use rand::Rng;

pub mod caen;
pub mod caen_legacy;
pub mod decoder;
pub mod metrics;
pub mod parallel_decode;
pub mod sync;

verus! {

/// Maximum channels per digitizer.
pub const MAX_CHANNELS: usize = 32;

/// Run-control state of a pipeline component.
#[derive(Debug, Clone, Copy, PartialEq, Eq, Structural)]
pub enum ComponentState {
    Idle,
    Configured,
    Armed,
    Running,
    Error,
}

pub open spec fn spec_state_rank(s: ComponentState) -> u8 {
    match s {
        ComponentState::Idle => 0,
        ComponentState::Configured => 1,
        ComponentState::Armed => 2,
        ComponentState::Running => 3,
        ComponentState::Error => 0,
    }
}

/// Rank of a state along Idle < Configured < Armed < Running; Error
/// ranks as Idle.
pub fn state_rank(s: ComponentState) -> (r: u8)
    ensures
        r == spec_state_rank(s),
{
    match s {
        ComponentState::Idle => 0,
        ComponentState::Configured => 1,
        ComponentState::Armed => 2,
        ComponentState::Running => 3,
        ComponentState::Error => 0,
    }
}

/// State to report: the hardware state when it lags the software state,
/// so that the Operator waits until the hardware has caught up.
pub fn effective_state(hw: ComponentState, software: ComponentState) -> (r: ComponentState)
    ensures
        r == if spec_state_rank(hw) < spec_state_rank(software) {
            hw
        } else {
            software
        },
{
    if state_rank(hw) < state_rank(software) {
        hw
    } else {
        software
    }
}

/// The reported state never ranks above either input.
pub proof fn law_effective_state_is_lesser(hw: ComponentState, software: ComponentState)
    ensures
        ({
            let r = if spec_state_rank(hw) < spec_state_rank(software) {
                hw
            } else {
                software
            };
            &&& spec_state_rank(r) <= spec_state_rank(hw)
            &&& spec_state_rank(r) <= spec_state_rank(software)
        }),
{
}

/// Difference of two readings of a 24-bit hardware counter that may have
/// wrapped once in between.
pub open spec fn spec_wrapping_diff_24bit(current: u64, prev: u64) -> int {
    if current >= prev {
        current - prev
    } else {
        current + 0x100_0000 - prev
    }
}

/// Whether the difference of two readings can be computed: the counter
/// did not go back by more than one wrap (and adding a wrap fits).
pub open spec fn diff_defined(current: u64, prev: u64) -> bool {
    current >= prev || (current + 0x100_0000 <= u64::MAX && prev <= current + 0x100_0000)
}

/// Wraparound-aware difference of 24-bit FPGA counter readings.
pub fn wrapping_diff_24bit(current: u64, prev: u64) -> (r: u64)
    requires
        diff_defined(current, prev),
    ensures
        r == spec_wrapping_diff_24bit(current, prev),
{
    if current >= prev {
        current - prev
    } else {
        current + 0x100_0000 - prev
    }
}

/// For readings of a 24-bit counter the difference is the count of
/// increments modulo 2^24.
pub proof fn law_wrapping_diff_is_modular(current: u64, prev: u64)
    requires
        current < 0x100_0000,
        prev < 0x100_0000,
    ensures
        0 <= spec_wrapping_diff_24bit(current, prev) < 0x100_0000,
        (prev + spec_wrapping_diff_24bit(current, prev)) % 0x100_0000 == current as int,
{
}

/// Trigger-counter polling state of DIG2 digitizers, across poll intervals.
#[derive(Debug, Clone)]
pub struct Dig2PollState {
    pub prev_trigger: Vec<u64>,
    pub prev_saved: Vec<u64>,
    pub accumulated_lost: u64,
    pub accumulated_trigger: u64,
    pub initialized: bool,
}

/// Triggers counted over channels `0..n`.
pub open spec fn trigger_sum(prev: Seq<u64>, now: Seq<u64>, n: int) -> int
    decreases n,
{
    if n <= 0 {
        0
    } else {
        trigger_sum(prev, now, n - 1) + spec_wrapping_diff_24bit(now[n - 1], prev[n - 1])
    }
}

/// Triggers not saved over channels `0..n` (per channel, triggers minus
/// saved events, not below zero).
pub open spec fn lost_sum(
    prev_t: Seq<u64>,
    now_t: Seq<u64>,
    prev_s: Seq<u64>,
    now_s: Seq<u64>,
    n: int,
) -> int
    decreases n,
{
    if n <= 0 {
        0
    } else {
        let dt = spec_wrapping_diff_24bit(now_t[n - 1], prev_t[n - 1]);
        let ds = spec_wrapping_diff_24bit(now_s[n - 1], prev_s[n - 1]);
        lost_sum(prev_t, now_t, prev_s, now_s, n - 1) + if dt > ds {
            dt - ds
        } else {
            0
        }
    }
}

/// The differences of the first `n` channels' readings can be computed.
pub open spec fn diffs_defined(prev: Seq<u64>, now: Seq<u64>, n: int) -> bool {
    forall|i: int| 0 <= i < n ==> #[trigger] diff_defined(now[i], prev[i])
}

/// Over any channels whose reading differences can be computed, the
/// triggers counted as lost never exceed the triggers counted, and are
/// never negative; both totals only grow with more channels.
pub proof fn law_lost_never_exceeds_triggers(
    prev_t: Seq<u64>,
    now_t: Seq<u64>,
    prev_s: Seq<u64>,
    now_s: Seq<u64>,
    n: int,
)
    requires
        diffs_defined(prev_t, now_t, n),
        diffs_defined(prev_s, now_s, n),
    ensures
        0 <= lost_sum(prev_t, now_t, prev_s, now_s, n) <= trigger_sum(prev_t, now_t, n),
        forall|m: int|
            0 <= m <= n ==> #[trigger] trigger_sum(prev_t, now_t, m) <= trigger_sum(prev_t, now_t, n)
                && lost_sum(prev_t, now_t, prev_s, now_s, m) <= lost_sum(
                prev_t,
                now_t,
                prev_s,
                now_s,
                n,
            ),
    decreases n,
{
    if n > 0 {
        assert(diff_defined(now_t[n - 1], prev_t[n - 1]));
        assert(diff_defined(now_s[n - 1], prev_s[n - 1]));
        law_lost_never_exceeds_triggers(prev_t, now_t, prev_s, now_s, n - 1);
    }
}

/// Lost triggers are triggers that were not saved: channel by channel,
/// none are lost where at least as many events were saved as triggered,
/// and all triggers are lost where nothing was saved.
pub proof fn law_lost_is_unsaved_triggers(
    prev_t: Seq<u64>,
    now_t: Seq<u64>,
    prev_s: Seq<u64>,
    now_s: Seq<u64>,
    n: int,
)
    ensures
        (forall|i: int|
            0 <= i < n ==> #[trigger] spec_wrapping_diff_24bit(now_s[i], prev_s[i])
                >= spec_wrapping_diff_24bit(now_t[i], prev_t[i])) ==> lost_sum(
            prev_t,
            now_t,
            prev_s,
            now_s,
            n,
        ) == 0,
        (forall|i: int|
            0 <= i < n ==> #[trigger] spec_wrapping_diff_24bit(now_s[i], prev_s[i]) == 0
                && spec_wrapping_diff_24bit(now_t[i], prev_t[i]) >= 0) ==> lost_sum(
            prev_t,
            now_t,
            prev_s,
            now_s,
            n,
        ) == trigger_sum(prev_t, now_t, n),
    decreases n,
{
    if n > 0 {
        law_lost_is_unsaved_triggers(prev_t, now_t, prev_s, now_s, n - 1);
        let k = n - 1;
        if forall|i: int|
            0 <= i < n ==> #[trigger] spec_wrapping_diff_24bit(now_s[i], prev_s[i])
                >= spec_wrapping_diff_24bit(now_t[i], prev_t[i]) {
            assert(spec_wrapping_diff_24bit(now_s[k], prev_s[k]) >= spec_wrapping_diff_24bit(
                now_t[k],
                prev_t[k],
            ));
        }
        if forall|i: int|
            0 <= i < n ==> #[trigger] spec_wrapping_diff_24bit(now_s[i], prev_s[i]) == 0
                && spec_wrapping_diff_24bit(now_t[i], prev_t[i]) >= 0 {
            assert(spec_wrapping_diff_24bit(now_s[k], prev_s[k]) == 0);
            assert(spec_wrapping_diff_24bit(now_t[k], prev_t[k]) >= 0);
        }
    }
}

impl Dig2PollState {
    pub fn new() -> (s: Self)
        ensures
            s.prev_trigger@.len() == 0,
            s.prev_saved@.len() == 0,
            s.accumulated_lost == 0,
            s.accumulated_trigger == 0,
            !s.initialized,
    {
        Dig2PollState {
            prev_trigger: Vec::new(),
            prev_saved: Vec::new(),
            accumulated_lost: 0,
            accumulated_trigger: 0,
            initialized: false,
        }
    }

    /// Forget all readings and totals (new run).
    pub fn reset(&mut self)
        ensures
            final(self).prev_trigger@.len() == 0,
            final(self).prev_saved@.len() == 0,
            final(self).accumulated_lost == 0,
            final(self).accumulated_trigger == 0,
            !final(self).initialized,
    {
        self.prev_trigger.clear();
        self.prev_saved.clear();
        self.accumulated_lost = 0;
        self.accumulated_trigger = 0;
        self.initialized = false;
    }
}

/// One poll of the DIG2 trigger counters, given this poll's per-channel
/// readings of the trigger and saved-event counters. The first poll only
/// records the readings as baseline; later polls add each channel's
/// triggers, and its triggers that were not saved, to the totals. No
/// enabled channel means nothing to poll.
pub fn poll_dig2_counters(poll: &mut Dig2PollState, triggers: &[u64], saved: &[u64])
    requires
        triggers@.len() == saved@.len(),
        old(poll).initialized ==> old(poll).prev_trigger@.len() == triggers@.len()
            && old(poll).prev_saved@.len() == triggers@.len(),
        old(poll).initialized ==> diffs_defined(
            old(poll).prev_trigger@,
            triggers@,
            triggers@.len() as int,
        ) && diffs_defined(old(poll).prev_saved@, saved@, triggers@.len() as int),
        old(poll).initialized ==> old(poll).accumulated_trigger + trigger_sum(
            old(poll).prev_trigger@,
            triggers@,
            triggers@.len() as int,
        ) <= u64::MAX && old(poll).accumulated_lost + lost_sum(
            old(poll).prev_trigger@,
            triggers@,
            old(poll).prev_saved@,
            saved@,
            triggers@.len() as int,
        ) <= u64::MAX,
    ensures
        triggers@.len() == 0 ==> *final(poll) == *old(poll),
        triggers@.len() > 0 && !old(poll).initialized ==> {
            &&& final(poll).initialized
            &&& final(poll).prev_trigger@ == triggers@
            &&& final(poll).prev_saved@ == saved@
            &&& final(poll).accumulated_trigger == old(poll).accumulated_trigger
            &&& final(poll).accumulated_lost == old(poll).accumulated_lost
        },
        triggers@.len() > 0 && old(poll).initialized ==> {
            &&& final(poll).initialized
            &&& final(poll).prev_trigger@ == triggers@
            &&& final(poll).prev_saved@ == saved@
            &&& final(poll).accumulated_trigger == old(poll).accumulated_trigger + trigger_sum(
                old(poll).prev_trigger@,
                triggers@,
                triggers@.len() as int,
            )
            &&& final(poll).accumulated_lost == old(poll).accumulated_lost + lost_sum(
                old(poll).prev_trigger@,
                triggers@,
                old(poll).prev_saved@,
                saved@,
                triggers@.len() as int,
            )
        },
{
    let n = triggers.len();
    if n == 0 {
        return;
    }
    if !poll.initialized {
        let mut pt: Vec<u64> = Vec::new();
        let mut ps: Vec<u64> = Vec::new();
        let mut i: usize = 0;
        while i < n
            invariant
                n == triggers@.len(),
                n == saved@.len(),
                i <= n,
                pt@ == triggers@.subrange(0, i as int),
                ps@ == saved@.subrange(0, i as int),
            decreases n - i,
        {
            pt.push(triggers[i]);
            ps.push(saved[i]);
            proof {
                assert(pt@ =~= triggers@.subrange(0, i + 1));
                assert(ps@ =~= saved@.subrange(0, i + 1));
            }
            i = i + 1;
        }
        proof {
            assert(pt@ =~= triggers@);
            assert(ps@ =~= saved@);
        }
        poll.prev_trigger = pt;
        poll.prev_saved = ps;
        poll.initialized = true;
        return;
    }
    let ghost prev_t = poll.prev_trigger@;
    let ghost prev_s = poll.prev_saved@;
    let ghost acc_t0 = poll.accumulated_trigger as int;
    let ghost acc_l0 = poll.accumulated_lost as int;
    let mut i: usize = 0;
    while i < n
        invariant
            n == triggers@.len(),
            n == saved@.len(),
            prev_t.len() == n,
            prev_s.len() == n,
            poll.prev_trigger@.len() == n,
            poll.prev_saved@.len() == n,
            poll.initialized,
            i <= n,
            diffs_defined(prev_t, triggers@, n as int),
            diffs_defined(prev_s, saved@, n as int),
            acc_t0 + trigger_sum(prev_t, triggers@, n as int) <= u64::MAX,
            acc_l0 + lost_sum(prev_t, triggers@, prev_s, saved@, n as int) <= u64::MAX,
            forall|k: int| i <= k < n ==> #[trigger] poll.prev_trigger@[k] == prev_t[k],
            forall|k: int| i <= k < n ==> #[trigger] poll.prev_saved@[k] == prev_s[k],
            forall|k: int| 0 <= k < i ==> #[trigger] poll.prev_trigger@[k] == triggers@[k],
            forall|k: int| 0 <= k < i ==> #[trigger] poll.prev_saved@[k] == saved@[k],
            poll.accumulated_trigger == acc_t0 + trigger_sum(prev_t, triggers@, i as int),
            poll.accumulated_lost == acc_l0 + lost_sum(prev_t, triggers@, prev_s, saved@, i as int),
        decreases n - i,
    {
        let t = triggers[i];
        let s = saved[i];
        let delta_trigger = wrapping_diff_24bit(t, poll.prev_trigger[i]);
        let delta_saved = wrapping_diff_24bit(s, poll.prev_saved[i]);
        proof {
            law_lost_never_exceeds_triggers(prev_t, triggers@, prev_s, saved@, n as int);
            assert(trigger_sum(prev_t, triggers@, i + 1) <= trigger_sum(prev_t, triggers@, n as int));
            assert(lost_sum(prev_t, triggers@, prev_s, saved@, i + 1) <= lost_sum(
                prev_t,
                triggers@,
                prev_s,
                saved@,
                n as int,
            ));
            assert(diff_defined(triggers@[i as int], prev_t[i as int]));
            assert(diff_defined(saved@[i as int], prev_s[i as int]));
        }
        poll.accumulated_trigger = poll.accumulated_trigger + delta_trigger;
        poll.accumulated_lost = poll.accumulated_lost + delta_trigger.saturating_sub(delta_saved);
        poll.prev_trigger.set(i, t);
        poll.prev_saved.set(i, s);
        i = i + 1;
    }
    proof {
        assert(poll.prev_trigger@ =~= triggers@);
        assert(poll.prev_saved@ =~= saved@);
    }
}

/// Decision of the rate-limited trigger-loss warning: warn when the loss
/// estimate grew since the last warning and at least ten seconds passed.
#[derive(Debug, Clone, Copy)]
pub struct TriggerLossWarner {
    /// Time of the last warning (or of construction), in milliseconds.
    pub last_warn_ms: u64,
    /// Loss estimate at the last warning.
    pub last_logged: u64,
}

/// Minimum time between two trigger-loss warnings.
pub const TRIGGER_LOSS_WARN_INTERVAL_MS: u64 = 10_000;

impl TriggerLossWarner {
    pub fn new(now_ms: u64) -> (w: Self)
        ensures
            w.last_warn_ms == now_ms,
            w.last_logged == 0,
    {
        TriggerLossWarner { last_warn_ms: now_ms, last_logged: 0 }
    }

    /// Whether to warn now about `lost` lost triggers; a warning records
    /// the time and the estimate.
    pub fn check(&mut self, lost: u64, now_ms: u64) -> (warn: bool)
        ensures
            warn == (lost > old(self).last_logged && now_ms >= old(self).last_warn_ms
                && now_ms - old(self).last_warn_ms >= TRIGGER_LOSS_WARN_INTERVAL_MS),
            warn ==> *final(self) == (TriggerLossWarner { last_warn_ms: now_ms, last_logged: lost }),
            !warn ==> *final(self) == *old(self),
    {
        if lost > self.last_logged && now_ms >= self.last_warn_ms && now_ms - self.last_warn_ms
            >= TRIGGER_LOSS_WARN_INTERVAL_MS {
            self.last_warn_ms = now_ms;
            self.last_logged = lost;
            true
        } else {
            false
        }
    }
}

/// Reconnection backoff: first wait, cap, and jitter range, in ms.
pub const RECONNECT_INITIAL_MS: u64 = 1000;
pub const RECONNECT_MAX_MS: u64 = 30000;
pub const RECONNECT_JITTER_MS: u64 = 500;

/// `(wait, next base)` of the exponential reconnect backoff for `base_ms`
/// and a jitter of `jitter_ms`.
pub open spec fn spec_reconnect_cooldown(base_ms: u64, jitter_ms: u64) -> (u64, u64) {
    let sum = base_ms + jitter_ms;
    let jittered = if sum > u64::MAX { RECONNECT_MAX_MS as int } else { sum };
    let capped = if jittered > RECONNECT_MAX_MS + RECONNECT_JITTER_MS {
        RECONNECT_MAX_MS + RECONNECT_JITTER_MS
    } else {
        jittered
    };
    let next = if base_ms * 2 > RECONNECT_MAX_MS { RECONNECT_MAX_MS as int } else { base_ms * 2 };
    (capped as u64, next as u64)
}

/// Wait before the next reconnect attempt, given the current base and a
/// jitter: base plus jitter, capped at the maximum plus the jitter range;
/// the base doubles up to the maximum.
pub fn reconnect_cooldown(base_ms: u64, jitter_ms: u64) -> (r: (u64, u64))
    requires
        base_ms <= u64::MAX / 2,
    ensures
        r == spec_reconnect_cooldown(base_ms, jitter_ms),
{
    let jittered = match base_ms.checked_add(jitter_ms) {
        Some(v) => v,
        None => RECONNECT_MAX_MS,
    };
    let capped = if jittered > RECONNECT_MAX_MS + RECONNECT_JITTER_MS {
        RECONNECT_MAX_MS + RECONNECT_JITTER_MS
    } else {
        jittered
    };
    let doubled = base_ms * 2;
    let next = if doubled > RECONNECT_MAX_MS {
        RECONNECT_MAX_MS
    } else {
        doubled
    };
    (capped, next)
}

/// A random jitter in `0..=max_ms` milliseconds, from `rand`'s thread-local
/// generator (`Rng::gen_range` over an inclusive range, which yields a
/// value in that range). Which value comes back is left open.
#[verifier::external_body]
fn random_jitter_ms(max_ms: u64) -> (r: u64)
    ensures
        r <= max_ms,
{
    rand::thread_rng().gen_range(0..=max_ms)
}

/// Next reconnect wait and base, with a random jitter of up to twice the
/// jitter range.
pub fn next_reconnect_cooldown(base_ms: u64) -> (r: (u64, u64))
    requires
        base_ms <= u64::MAX / 2,
    ensures
        exists|j: u64|
            j <= 2 * RECONNECT_JITTER_MS && r == spec_reconnect_cooldown(base_ms, j),
{
    let jitter = random_jitter_ms(RECONNECT_JITTER_MS * 2);
    reconnect_cooldown(base_ms, jitter)
}

/// The backoff never waits more than the cap plus the jitter range, and
/// the base never exceeds the cap once it has reached it.
pub proof fn law_reconnect_cooldown_bounded(base_ms: u64, jitter_ms: u64)
    requires
        base_ms <= u64::MAX / 2,
    ensures
        spec_reconnect_cooldown(base_ms, jitter_ms).0 <= RECONNECT_MAX_MS + RECONNECT_JITTER_MS,
        spec_reconnect_cooldown(base_ms, jitter_ms).1 <= RECONNECT_MAX_MS,
        base_ms <= RECONNECT_MAX_MS / 2 ==> spec_reconnect_cooldown(base_ms, jitter_ms).1 == 2
            * base_ms,
        base_ms > RECONNECT_MAX_MS / 2 ==> spec_reconnect_cooldown(base_ms, jitter_ms).1
            == RECONNECT_MAX_MS,
        base_ms + jitter_ms <= RECONNECT_MAX_MS + RECONNECT_JITTER_MS ==> spec_reconnect_cooldown(
            base_ms,
            jitter_ms,
        ).0 == base_ms + jitter_ms,
        RECONNECT_MAX_MS + RECONNECT_JITTER_MS < base_ms + jitter_ms <= u64::MAX
            ==> spec_reconnect_cooldown(
            base_ms,
            jitter_ms,
        ).0 == RECONNECT_MAX_MS + RECONNECT_JITTER_MS,
{
}

/// DIG1 start mode in which arming also starts acquisition.
pub const START_MODE_SW: &'static str = "START_MODE_SW";

/// Command to send on Arm: DIG1 in software start mode defers arming to
/// Start (none); otherwise arm.
pub fn arm_command(is_dig1: bool, startmode: &str) -> (r: Option<&'static str>)
    ensures
        is_dig1 && startmode@ == "START_MODE_SW"@ ==> r is None,
        !(is_dig1 && startmode@ == "START_MODE_SW"@) ==> (r matches Some(c) && c@
            == "/cmd/armacquisition"@),
{
    if is_dig1 && str_eq(startmode, START_MODE_SW) {
        None
    } else {
        Some("/cmd/armacquisition")
    }
}

/// Command to send on Start: DIG1 in software start mode arms (which
/// starts), other DIG1 modes started on Arm (none), DIG2 starts by
/// software.
pub fn start_command(is_dig1: bool, startmode: &str) -> (r: Option<&'static str>)
    ensures
        is_dig1 && startmode@ == "START_MODE_SW"@ ==> (r matches Some(c) && c@
            == "/cmd/armacquisition"@),
        is_dig1 && startmode@ != "START_MODE_SW"@ ==> r is None,
        !is_dig1 ==> (r matches Some(c) && c@ == "/cmd/swstartacquisition"@),
{
    if is_dig1 {
        if str_eq(startmode, START_MODE_SW) {
            Some("/cmd/armacquisition")
        } else {
            None
        }
    } else {
        Some("/cmd/swstartacquisition")
    }
}

/// Event of an OpenDPP (AMax) readout: timestamp in ticks with its fine
/// part, flags A above flags B, the PSD value in the short-gate slot.
pub fn opendpp_to_event_data(event: &OpenDppEvent, module_id: u8) -> (e: EventData)
    ensures
        e.time == (EventTime::Ticks { coarse: event.timestamp, fine: event.fine_timestamp }),
        e.module == module_id,
        e.channel == event.channel,
        e.energy == event.energy,
        e.energy_short == event.psd,
        e.fine_time == event.fine_timestamp,
        e.flags == ((event.flags_a as u32) << 12) | (event.flags_b as u32),
        e.user_info@ == seq![0u64, 0u64, 0u64, 0u64],
        e.waveform is None,
{
    let flags = ((event.flags_a as u32) << 12) | (event.flags_b as u32);
    let user_info = [0u64, 0, 0, 0];
    assert(user_info@ =~= seq![0u64, 0u64, 0u64, 0u64]);
    EventData {
        time: EventTime::Ticks { coarse: event.timestamp, fine: event.fine_timestamp },
        module: module_id,
        channel: event.channel,
        energy: event.energy,
        energy_short: event.psd,
        fine_time: event.fine_timestamp,
        flags,
        user_info,
        waveform: None,
    }
}

// ---------------------------------------------------------------------------
// Enabled channels
// ---------------------------------------------------------------------------

/// A configuration word reading "true" in any ASCII case.
pub open spec fn word_true(s: Seq<char>) -> bool {
    lower_seq(s) == lower_seq("true"@)
}

/// Whether channel `ch` is enabled: its own `enabled` word when it has
/// one, else the defaults' word, else not enabled.
pub open spec fn channel_enabled(default_word: Option<String>, own: Seq<Option<String>>, ch: int) -> bool {
    let d = match default_word {
        Some(s) => word_true(s@),
        None => false,
    };
    if 0 <= ch < own.len() {
        match own[ch] {
            Some(s) => word_true(s@),
            None => d,
        }
    } else {
        d
    }
}

/// The enabled channels among `0..k`, in increasing order.
pub open spec fn enabled_channel_list(default_word: Option<String>, own: Seq<Option<String>>, k: nat) -> Seq<u8>
    decreases k,
{
    if k == 0 {
        Seq::empty()
    } else {
        let j = (k - 1) as nat;
        let prev = enabled_channel_list(default_word, own, j);
        if channel_enabled(default_word, own, j as int) {
            prev.push(j as u8)
        } else {
            prev
        }
    }
}

/// The enabled channels are listed once each, in increasing order, and a
/// channel below the count is listed exactly when its own `enabled` word
/// reads "true" in any case, or it has none and the defaults' word does.
pub proof fn law_enabled_channels(default_word: Option<String>, own: Seq<Option<String>>, k: nat, ch: int)
    requires
        k <= 256,
    ensures
        forall|i: int, j: int|
            0 <= i < j < enabled_channel_list(default_word, own, k).len() ==> enabled_channel_list(
                default_word,
                own,
                k,
            )[i] < enabled_channel_list(default_word, own, k)[j],
        enabled_channel_list(default_word, own, k).contains(ch as u8) && 0 <= ch < 256 <==> (0 <= ch
            < k && if 0 <= ch < own.len() && own[ch] is Some {
            lower_seq(own[ch]->0@) == lower_seq("true"@)
        } else {
            default_word is Some && lower_seq(default_word->0@) == lower_seq("true"@)
        }),
    decreases k,
{
    if k > 0 {
        let j = (k - 1) as nat;
        law_enabled_channels(default_word, own, j, ch);
        let prev = enabled_channel_list(default_word, own, j);
        assert forall|i: int| 0 <= i < prev.len() implies prev[i] < j by {
            law_enabled_below(default_word, own, j, i);
        }
        if channel_enabled(default_word, own, j as int) {
            let cur = prev.push(j as u8);
            if cur.contains(ch as u8) && 0 <= ch < 256 {
                let t = choose|t: int| 0 <= t < cur.len() && cur[t] == ch as u8;
                if t < prev.len() {
                    assert(prev.contains(ch as u8));
                } else {
                    assert(ch as u8 == j as u8);
                }
            }
            if ch == j {
                assert(cur[cur.len() - 1] == j as u8);
            }
            if prev.contains(ch as u8) {
                let t = choose|t: int| 0 <= t < prev.len() && prev[t] == ch as u8;
                assert(cur[t] == ch as u8);
            }
        } else {
            if ch == j && 0 <= ch < 256 {
                if prev.contains(ch as u8) {
                    let t = choose|t: int| 0 <= t < prev.len() && prev[t] == ch as u8;
                    law_enabled_below(default_word, own, j, t);
                }
            }
        }
    }
}

proof fn law_enabled_below(default_word: Option<String>, own: Seq<Option<String>>, k: nat, i: int)
    requires
        k <= 256,
        0 <= i < enabled_channel_list(default_word, own, k).len(),
    ensures
        enabled_channel_list(default_word, own, k)[i] < k,
    decreases k,
{
    if k > 0 {
        let j = (k - 1) as nat;
        let prev = enabled_channel_list(default_word, own, j);
        if i < prev.len() {
            law_enabled_below(default_word, own, j, i);
        }
    }
}

fn word_is_true(o: &Option<String>, default: bool) -> (r: bool)
    ensures
        r == match o {
            Some(s) => word_true(s@),
            None => default,
        },
{
    match o {
        Some(s) => eq_ignore_ascii_case(s.as_str(), "true"),
        None => default,
    }
}

/// The channels of `0..num_channels` whose counters are polled: a channel
/// is enabled by its own `enabled` word (`own[ch]`, when present), else by
/// the defaults' word; without either it is not.
pub fn enabled_channels(default_word: &Option<String>, own: &Vec<Option<String>>, num_channels: u8) -> (v: Vec<u8>)
    ensures
        v@ == enabled_channel_list(*default_word, own@, num_channels as nat),
{
    let d = word_is_true(default_word, false);
    let mut v: Vec<u8> = Vec::new();
    let mut ch: u8 = 0;
    while ch < num_channels
        invariant
            ch <= num_channels,
            d == match default_word {
                Some(s) => word_true(s@),
                None => false,
            },
            v@ == enabled_channel_list(*default_word, own@, ch as nat),
        decreases num_channels - ch,
    {
        let on = if (ch as usize) < own.len() {
            word_is_true(&own[ch as usize], d)
        } else {
            d
        };
        if on {
            v.push(ch);
        }
        ch = ch + 1;
    }
    v
}

// ---------------------------------------------------------------------------
// Numbering of published batches
// ---------------------------------------------------------------------------

/// Numbers of what the decode stage publishes: the sequence number of the
/// next event batch and the count of heartbeats sent, both restarted by a
/// Start.
#[derive(Debug, Clone, Copy, PartialEq, Eq, Structural)]
pub struct PublishCounter {
    pub sequence_number: u64,
    pub heartbeat_counter: u64,
}

impl PublishCounter {
    pub fn new() -> (c: Self)
        ensures
            c == (PublishCounter { sequence_number: 0, heartbeat_counter: 0 }),
    {
        PublishCounter { sequence_number: 0, heartbeat_counter: 0 }
    }

    /// Start of a run: both numbers restart from zero.
    pub fn on_start(&mut self)
        ensures
            *final(self) == (PublishCounter { sequence_number: 0, heartbeat_counter: 0 }),
    {
        self.sequence_number = 0;
        self.heartbeat_counter = 0;
    }

    /// A batch was offered for publication with the current sequence
    /// number: the number advances only when the batch went out, so the
    /// published batches are numbered without gaps.
    pub fn on_batch_sent(&mut self, sent: bool)
        requires
            sent ==> old(self).sequence_number < u64::MAX,
        ensures
            *final(self) == (PublishCounter {
                sequence_number: if sent {
                    (old(self).sequence_number + 1) as u64
                } else {
                    old(self).sequence_number
                },
                ..*old(self)
            }),
    {
        if sent {
            self.sequence_number = self.sequence_number + 1;
        }
    }

    /// A heartbeat carrying the current count is built; the count then
    /// advances whether or not sending succeeds.
    pub fn take_heartbeat(&mut self) -> (n: u64)
        requires
            old(self).heartbeat_counter < u64::MAX,
        ensures
            n == old(self).heartbeat_counter,
            *final(self) == (PublishCounter {
                heartbeat_counter: (old(self).heartbeat_counter + 1) as u64,
                ..*old(self)
            }),
    {
        let n = self.heartbeat_counter;
        self.heartbeat_counter = n + 1;
        n
    }
}

} // verus!
