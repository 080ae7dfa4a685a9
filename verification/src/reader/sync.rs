//! Decisions of the read loop: bringing the digitizer to the run state the
//! Operator asks for, what to do when a read fails, and handing read
//! blocks to the decode stage. Data is never dropped: when decoding cannot
//! keep up, the reader stalls.
//!
//! One synchronisation pass checks, in order, whether to configure, arm,
//! start, stop and reset; each check sees the flags the previous steps
//! left. The loop performs the actions; these functions decide them.

use vstd::prelude::*;

use super::{spec_state_rank, state_rank, ComponentState};

verus! {

/// What the read loop knows of the digitizer.
#[derive(Debug, Clone, Copy, PartialEq, Eq, Structural)]
pub struct HwFlags {
    pub configured: bool,
    pub armed: bool,
    pub running: bool,
    /// Configuring from the configuration file failed; arming waits for a
    /// configuration from the Operator.
    pub auto_config_failed: bool,
}

/// One step of a synchronisation pass.
#[derive(Debug, Clone, Copy, PartialEq, Eq, Structural)]
pub enum SyncAction {
    /// Reset, reconfigure the endpoint, apply the configuration file.
    Configure,
    /// Send the arm command.
    Arm,
    /// Arming is due but the automatic configuration failed: warn only.
    ArmBlocked,
    /// Send the start command (and reset the trigger-counter polling).
    Start,
    /// Disarm, drain, signal the end of the run, clear data.
    Stop,
    /// Disarm and clear data, forgetting all hardware state.
    Reset,
}

/// Number of checks in a pass.
pub const SYNC_STAGES: u8 = 5;

impl HwFlags {
    /// A freshly (re)connected digitizer.
    pub fn new() -> (f: Self)
        ensures
            !f.configured && !f.armed && !f.running && !f.auto_config_failed,
    {
        HwFlags { configured: false, armed: false, running: false, auto_config_failed: false }
    }
}

/// The action of check number `stage` of a pass, if it is due.
pub open spec fn sync_action_at(f: HwFlags, target: ComponentState, stage: int) -> Option<
    SyncAction,
> {
    let rank = spec_state_rank(target);
    if stage == 0 {
        if rank >= 1 && !f.configured {
            Some(SyncAction::Configure)
        } else {
            None
        }
    } else if stage == 1 {
        if rank >= 2 && !f.armed {
            Some(if f.auto_config_failed { SyncAction::ArmBlocked } else { SyncAction::Arm })
        } else {
            None
        }
    } else if stage == 2 {
        if rank >= 3 && !f.running {
            Some(SyncAction::Start)
        } else {
            None
        }
    } else if stage == 3 {
        if rank < 3 && f.running {
            Some(SyncAction::Stop)
        } else {
            None
        }
    } else if stage == 4 {
        if target == ComponentState::Idle && (f.armed || f.configured) {
            Some(SyncAction::Reset)
        } else {
            None
        }
    } else {
        None
    }
}

/// The first due action at check `from` or later, with the check after it.
pub open spec fn first_sync_action(f: HwFlags, target: ComponentState, from: int) -> Option<
    (SyncAction, int),
>
    decreases 5 - from,
{
    if from < 0 || from >= 5 {
        None
    } else {
        match sync_action_at(f, target, from) {
            Some(a) => Some((a, from + 1)),
            None => first_sync_action(f, target, from + 1),
        }
    }
}

/// Flags after performing `a`; `config_failed` is the outcome of applying
/// the configuration file when `a` configures.
pub open spec fn spec_after_sync(f: HwFlags, a: SyncAction, config_failed: bool) -> HwFlags {
    match a {
        SyncAction::Configure => HwFlags {
            configured: true,
            auto_config_failed: f.auto_config_failed || config_failed,
            ..f
        },
        SyncAction::Arm => HwFlags { armed: true, ..f },
        SyncAction::ArmBlocked => f,
        SyncAction::Start => HwFlags { running: true, ..f },
        SyncAction::Stop => HwFlags { armed: false, running: false, ..f },
        SyncAction::Reset => HwFlags {
            configured: false,
            armed: false,
            running: false,
            auto_config_failed: false,
        },
    }
}

/// The hardware state to report after performing `a`, if it changes.
pub open spec fn spec_reported_state(a: SyncAction) -> Option<ComponentState> {
    match a {
        SyncAction::Configure => Some(ComponentState::Configured),
        SyncAction::Arm => Some(ComponentState::Armed),
        SyncAction::ArmBlocked => None,
        SyncAction::Start => Some(ComponentState::Running),
        SyncAction::Stop => Some(ComponentState::Configured),
        SyncAction::Reset => Some(ComponentState::Idle),
    }
}

/// Flags after a whole pass from check `from`, configuration succeeding
/// or failing as `config_failed` says.
pub open spec fn sync_pass(f: HwFlags, target: ComponentState, from: int, config_failed: bool) -> HwFlags
    decreases 5 - from,
{
    if from < 0 || from >= 5 {
        f
    } else {
        match sync_action_at(f, target, from) {
            Some(a) => sync_pass(spec_after_sync(f, a, config_failed), target, from + 1, config_failed),
            None => sync_pass(f, target, from + 1, config_failed),
        }
    }
}

/// The next action of a pass at check `from` or later, and the check to
/// continue from; none when the pass is over.
pub fn next_sync_action(f: HwFlags, target: ComponentState, from: u8) -> (r: Option<(SyncAction, u8)>)
    ensures
        match first_sync_action(f, target, from as int) {
            Some((a, next)) => r == Some((a, next as u8)),
            None => r is None,
        },
    decreases 5 - from,
{
    if from >= SYNC_STAGES {
        return None;
    }
    let rank = state_rank(target);
    let due = if from == 0 {
        if rank >= 1 && !f.configured {
            Some(SyncAction::Configure)
        } else {
            None
        }
    } else if from == 1 {
        if rank >= 2 && !f.armed {
            Some(if f.auto_config_failed { SyncAction::ArmBlocked } else { SyncAction::Arm })
        } else {
            None
        }
    } else if from == 2 {
        if rank >= 3 && !f.running {
            Some(SyncAction::Start)
        } else {
            None
        }
    } else if from == 3 {
        if rank < 3 && f.running {
            Some(SyncAction::Stop)
        } else {
            None
        }
    } else if target == ComponentState::Idle && (f.armed || f.configured) {
        Some(SyncAction::Reset)
    } else {
        None
    };
    assert(due == sync_action_at(f, target, from as int));
    match due {
        Some(a) => Some((a, from + 1)),
        None => next_sync_action(f, target, from + 1),
    }
}

/// Flags after performing `a` (with the outcome of applying the
/// configuration file when `a` configures), and the hardware state to
/// report, if it changes.
pub fn after_sync_action(f: HwFlags, a: SyncAction, config_failed: bool) -> (r: (
    HwFlags,
    Option<ComponentState>,
))
    ensures
        r.0 == spec_after_sync(f, a, config_failed),
        r.1 == spec_reported_state(a),
{
    match a {
        SyncAction::Configure => (
            HwFlags {
                configured: true,
                auto_config_failed: f.auto_config_failed || config_failed,
                ..f
            },
            Some(ComponentState::Configured),
        ),
        SyncAction::Arm => (HwFlags { armed: true, ..f }, Some(ComponentState::Armed)),
        SyncAction::ArmBlocked => (f, None),
        SyncAction::Start => (HwFlags { running: true, ..f }, Some(ComponentState::Running)),
        SyncAction::Stop => (
            HwFlags { armed: false, running: false, ..f },
            Some(ComponentState::Configured),
        ),
        SyncAction::Reset => (
            HwFlags { configured: false, armed: false, running: false, auto_config_failed: false },
            Some(ComponentState::Idle),
        ),
    }
}

/// The run state that hardware flags describe: running, else armed, else
/// configured, else idle.
pub open spec fn state_of_flags(f: HwFlags) -> ComponentState {
    if f.running {
        ComponentState::Running
    } else if f.armed {
        ComponentState::Armed
    } else if f.configured {
        ComponentState::Configured
    } else {
        ComponentState::Idle
    }
}

/// Flags as the read loop keeps them: running only when armed, armed
/// only when configured.
pub open spec fn flags_ordered(f: HwFlags) -> bool {
    (f.running ==> f.armed) && (f.armed ==> f.configured)
}

/// Whether `a` is an action a pass can take with flags `f`: each brings
/// the digitizer to a state it is not already in.
pub open spec fn action_applies(f: HwFlags, a: SyncAction) -> bool {
    match a {
        SyncAction::Configure => !f.configured,
        SyncAction::Arm => !f.armed,
        SyncAction::Start => !f.running,
        SyncAction::Stop => f.running,
        _ => true,
    }
}

/// The state reported after an action is the state the digitizer is then
/// in: Configure reports Configured, Arm Armed, Start Running, Stop
/// Configured and Reset Idle, each the state that the flags after the
/// action describe; a blocked arm changes nothing and reports nothing.
pub proof fn law_reported_state_matches_flags(f: HwFlags, a: SyncAction, config_failed: bool)
    requires
        flags_ordered(f),
        action_applies(f, a),
    ensures
        a == SyncAction::ArmBlocked ==> spec_reported_state(a) is None && spec_after_sync(
            f,
            a,
            config_failed,
        ) == f,
        a != SyncAction::ArmBlocked ==> spec_reported_state(a) == Some(
            state_of_flags(spec_after_sync(f, a, config_failed)),
        ),
        a == SyncAction::Start ==> spec_reported_state(a) == Some(ComponentState::Running),
        a == SyncAction::Arm ==> spec_reported_state(a) == Some(ComponentState::Armed),
{
}

/// One pass toward a target other than Error, with no configuration
/// failure, leaves the digitizer configured when the target is at least
/// Configured, running exactly when it is Running, and with no hardware
/// state when it is Idle. It is armed after the pass when the target is
/// Running, or Armed and the digitizer was not running (a running
/// digitizer is first stopped, which disarms it; the next pass arms).
pub proof fn law_sync_pass_reaches_target(f: HwFlags, target: ComponentState)
    requires
        target != ComponentState::Error,
        !f.auto_config_failed,
    ensures
        spec_state_rank(target) >= 1 ==> sync_pass(f, target, 0, false).configured,
        target == ComponentState::Running ==> sync_pass(f, target, 0, false).armed,
        target == ComponentState::Armed && !f.running ==> sync_pass(f, target, 0, false).armed,
        target == ComponentState::Armed && f.running ==> !sync_pass(f, target, 0, false).armed,
        sync_pass(f, target, 0, false).running == (target == ComponentState::Running),
        target == ComponentState::Idle ==> {
            let g = sync_pass(f, target, 0, false);
            !g.configured && !g.armed && !g.running
        },
        !sync_pass(f, target, 0, false).auto_config_failed,
{
    reveal_with_fuel(sync_pass, 6);
}

/// What to do after a failed read.
#[derive(Debug, Clone, Copy, PartialEq, Eq, Structural)]
pub enum ReadErrorAction {
    /// The digitizer signalled the end of the run during shutdown: leave
    /// the loop.
    Shutdown,
    /// The digitizer signalled the end of the run: wait for the Operator.
    AwaitStateChange,
    /// A transient error during acquisition: try again shortly.
    Retry,
    /// Errors have persisted too long: report Error and drop the
    /// connection.
    GiveUp,
    /// Not acquiring: drop the connection and reconnect.
    DropConnection,
}

/// Flags after the Operator's configuration request: a configuration
/// that was applied clears an earlier failure of the configuration file,
/// so arming may go ahead; a failed one leaves the flags as they were.
pub fn after_apply_request(f: HwFlags, applied: bool) -> (g: HwFlags)
    ensures
        g == if applied {
            HwFlags { auto_config_failed: false, ..f }
        } else {
            f
        },
{
    if applied {
        HwFlags { auto_config_failed: false, ..f }
    } else {
        f
    }
}

/// How long read errors may persist during acquisition, in ms.
pub const READ_ERROR_TIMEOUT_MS: u64 = 30_000;

/// The action after a failed read, and when the current run of errors
/// began (in ms), given whether the error is the digitizer's stop code,
/// whether the reader is shutting down, whether acquisition is the
/// target, when the current run of errors began (if one has) and the
/// time now.
pub fn read_error_action(
    is_stop_code: bool,
    shutdown: bool,
    target_running: bool,
    error_since_ms: Option<u64>,
    now_ms: u64,
) -> (r: (ReadErrorAction, Option<u64>))
    ensures
        is_stop_code && shutdown ==> r == (ReadErrorAction::Shutdown, error_since_ms),
        is_stop_code && !shutdown ==> r == (ReadErrorAction::AwaitStateChange, error_since_ms),
        !is_stop_code && !target_running ==> r == (ReadErrorAction::DropConnection, error_since_ms),
        !is_stop_code && target_running ==> {
            let since = match error_since_ms {
                Some(s) => s,
                None => now_ms,
            };
            if now_ms > since && now_ms - since > READ_ERROR_TIMEOUT_MS {
                r == (ReadErrorAction::GiveUp, None::<u64>)
            } else {
                r == (ReadErrorAction::Retry, Some(since))
            }
        },
{
    if is_stop_code {
        if shutdown {
            (ReadErrorAction::Shutdown, error_since_ms)
        } else {
            (ReadErrorAction::AwaitStateChange, error_since_ms)
        }
    } else if target_running {
        let since = match error_since_ms {
            Some(s) => s,
            None => now_ms,
        };
        if now_ms > since && now_ms - since > READ_ERROR_TIMEOUT_MS {
            (ReadErrorAction::GiveUp, None)
        } else {
            (ReadErrorAction::Retry, Some(since))
        }
    } else {
        (ReadErrorAction::DropConnection, error_since_ms)
    }
}

// ---------------------------------------------------------------------------
// Hand-off to the decode pipeline
// ---------------------------------------------------------------------------

/// Outcome of offering a buffer to the decode channel without waiting.
#[derive(Debug, Clone, Copy, PartialEq, Eq, Structural)]
pub enum TrySend {
    /// The channel took the buffer.
    Sent,
    /// The channel is full; the buffer comes back.
    Full,
    /// The decode side has gone.
    Closed,
}

/// What the read loop does after offering a read buffer.
#[derive(Debug, Clone, Copy, PartialEq, Eq, Structural)]
pub enum SendStep {
    /// The buffer is handed over: read the next one.
    ReadNext,
    /// Wait a moment and offer the same buffer again.
    Retry,
    /// Nobody decodes any more: stop reading.
    StopReading,
}

/// Pause between two offers of a buffer to a full channel, in ms.
pub const SEND_RETRY_INTERVAL_MS: u64 = 1;

/// The step after offering a buffer. Data is never dropped: a full
/// channel is waited on, whatever the run state, so that the reader
/// stalls when decoding cannot keep up; only a closed channel ends
/// sending.
pub open spec fn spec_back_pressure(o: TrySend) -> SendStep {
    match o {
        TrySend::Sent => SendStep::ReadNext,
        TrySend::Full => SendStep::Retry,
        TrySend::Closed => SendStep::StopReading,
    }
}

/// Back-pressure decision of the read loop (see [`spec_back_pressure`]).
pub fn back_pressure_step(o: TrySend) -> (s: SendStep)
    ensures
        s == spec_back_pressure(o),
{
    match o {
        TrySend::Sent => SendStep::ReadNext,
        TrySend::Full => SendStep::Retry,
        TrySend::Closed => SendStep::StopReading,
    }
}

/// No buffer is ever given up: after any offer the buffer has been handed
/// over, is offered again, or reading stops because the decode side has
/// gone; a full channel is always retried.
pub proof fn law_never_drop(o: TrySend)
    ensures
        spec_back_pressure(o) == SendStep::ReadNext <==> o == TrySend::Sent,
        spec_back_pressure(o) == SendStep::Retry <==> o == TrySend::Full,
        spec_back_pressure(o) == SendStep::StopReading <==> o == TrySend::Closed,
{
}

/// What one read of the drain after Stop gave.
#[derive(Debug, Clone, Copy, PartialEq, Eq, Structural)]
pub enum DrainRead {
    /// A buffered block, to be sent on like any other.
    Block,
    /// The device holds no more data.
    Empty,
    /// The read failed.
    Failed,
}

/// The drain after Stop reads on while the device returns blocks, and
/// each block is sent with [`back_pressure_step`]; nothing caps it by
/// count or time.
pub open spec fn spec_drain_continues(r: DrainRead) -> bool {
    r == DrainRead::Block
}

/// Whether the drain after Stop reads again after a read that gave `r`.
pub fn drain_continues(r: DrainRead) -> (more: bool)
    ensures
        more == spec_drain_continues(r),
{
    match r {
        DrainRead::Block => true,
        _ => false,
    }
}

/// The drain after Stop ends only when the device reports no more data
/// (or can no longer be read): a block read is never left behind.
pub proof fn law_drain_ends_only_when_empty(r: DrainRead)
    ensures
        !spec_drain_continues(r) <==> (r == DrainRead::Empty || r == DrainRead::Failed),
        spec_drain_continues(r) <==> r == DrainRead::Block,
{
}

/// What the read loop does after offering the Stop signal.
#[derive(Debug, Clone, Copy, PartialEq, Eq, Structural)]
pub enum StopStep {
    /// Delivered, or no longer needed because the decode side has gone.
    Done,
    /// Wait and offer it again.
    Retry,
    /// The channel stayed full past the deadline.
    GiveUp,
}

/// How long the Stop signal is offered to a full channel, in ms.
pub const STOP_SIGNAL_TIMEOUT_MS: u64 = 3000;

/// Pause between two offers of the Stop signal, in ms.
pub const STOP_RETRY_INTERVAL_MS: u64 = 10;

/// The Stop signal is retried while the channel is full, until
/// `STOP_SIGNAL_TIMEOUT_MS` have passed since the first offer at
/// `started_ms`.
pub fn stop_signal_step(o: TrySend, started_ms: u64, now_ms: u64) -> (s: StopStep)
    ensures
        o == TrySend::Full ==> s == if now_ms > started_ms + STOP_SIGNAL_TIMEOUT_MS {
            StopStep::GiveUp
        } else {
            StopStep::Retry
        },
        o != TrySend::Full ==> s == StopStep::Done,
{
    match o {
        TrySend::Full => {
            if now_ms > started_ms && now_ms - started_ms > STOP_SIGNAL_TIMEOUT_MS {
                StopStep::GiveUp
            } else {
                StopStep::Retry
            }
        },
        _ => StopStep::Done,
    }
}

} // verus!
