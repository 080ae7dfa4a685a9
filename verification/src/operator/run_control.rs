//! Run control of the Operator: the guards and the phase sequence of
//! "start run" (Reset → Configure → Arm → Start) and of "start" (arm first
//! when the system is only Configured). The Operator sends each phase to
//! every component and waits; these functions decide what comes next from
//! how a phase went, and which HTTP status answers a refused request.

use vstd::prelude::*;

verus! {

/// HTTP status of a started run.
pub const STATUS_OK: u16 = 200;

/// HTTP status when a component refused a phase.
pub const STATUS_BAD_REQUEST: u16 = 400;

/// HTTP status when a phase did not complete in time.
pub const STATUS_REQUEST_TIMEOUT: u16 = 408;

/// HTTP status of a request that conflicts with the current mode or state.
pub const STATUS_CONFLICT: u16 = 409;

/// State of the whole system, as the Operator derives it from the states
/// of all components.
#[derive(Debug, Clone, Copy, PartialEq, Eq, Structural)]
pub enum SystemState {
    Idle,
    Configured,
    Armed,
    Running,
    Error,
}

/// Why a start request is refused before any phase runs.
#[derive(Debug, Clone, Copy, PartialEq, Eq, Structural)]
pub enum RunConflict {
    /// Tune Up mode is active.
    TuneUpActive,
    /// A run is in progress.
    AlreadyRunning,
}

/// Status answering a refused request: 409 Conflict.
pub fn conflict_status(c: RunConflict) -> (s: u16)
    ensures
        s == STATUS_CONFLICT,
{
    STATUS_CONFLICT
}

/// Guard of "start run": refused in Tune Up mode, then while Running.
pub fn run_start_guard(tuneup_active: bool, system: SystemState) -> (r: Option<RunConflict>)
    ensures
        r == if tuneup_active {
            Some(RunConflict::TuneUpActive)
        } else if system == SystemState::Running {
            Some(RunConflict::AlreadyRunning)
        } else {
            None::<RunConflict>
        },
{
    if tuneup_active {
        Some(RunConflict::TuneUpActive)
    } else if system == SystemState::Running {
        Some(RunConflict::AlreadyRunning)
    } else {
        None
    }
}

/// Guard of "start": refused in Tune Up mode only.
pub fn start_guard(tuneup_active: bool) -> (r: Option<RunConflict>)
    ensures
        r == if tuneup_active {
            Some(RunConflict::TuneUpActive)
        } else {
            None::<RunConflict>
        },
{
    if tuneup_active {
        Some(RunConflict::TuneUpActive)
    } else {
        None
    }
}

/// A phase that the Operator sends to every component.
#[derive(Debug, Clone, Copy, PartialEq, Eq, Structural)]
pub enum RunPhase {
    Reset,
    Configure,
    Arm,
    Start,
}

/// How a phase went: it timed out, some component reported failure, or
/// every component succeeded.
#[derive(Debug, Clone, Copy, PartialEq, Eq, Structural)]
pub enum PhaseOutcome {
    TimedOut,
    SomeFailed,
    AllSucceeded,
}

/// What to do after a phase.
#[derive(Debug, Clone, Copy, PartialEq, Eq, Structural)]
pub enum RunStep {
    /// Send the next phase.
    Continue(RunPhase),
    /// Answer the request with this HTTP status and stop.
    Reject(u16),
    /// Every phase succeeded: record the run and answer 200.
    Started,
}

/// Outcome of a phase from whether it timed out and each component's
/// success.
pub fn phase_outcome(timed_out: bool, successes: &Vec<bool>) -> (r: PhaseOutcome)
    ensures
        r == if timed_out {
            PhaseOutcome::TimedOut
        } else if successes@.contains(false) {
            PhaseOutcome::SomeFailed
        } else {
            PhaseOutcome::AllSucceeded
        },
{
    if timed_out {
        return PhaseOutcome::TimedOut;
    }
    let mut i: usize = 0;
    while i < successes.len()
        invariant
            !timed_out,
            i <= successes@.len(),
            forall|j: int| 0 <= j < i ==> successes@[j],
        decreases successes@.len() - i,
    {
        if !successes[i] {
            assert(successes@[i as int] == false);
            assert(successes@.contains(false));
            return PhaseOutcome::SomeFailed;
        }
        i = i + 1;
    }
    assert(!successes@.contains(false)) by {
        assert forall|j: int| 0 <= j < successes@.len() implies successes@[j] != false by {}
    }
    PhaseOutcome::AllSucceeded
}

/// The phase of "start run" after `p`, if any.
pub open spec fn spec_next_phase(p: RunPhase) -> Option<RunPhase> {
    match p {
        RunPhase::Reset => Some(RunPhase::Configure),
        RunPhase::Configure => Some(RunPhase::Arm),
        RunPhase::Arm => Some(RunPhase::Start),
        RunPhase::Start => None,
    }
}

/// Step of "start run" after phase `p`.
pub open spec fn spec_run_start_next(p: RunPhase, o: PhaseOutcome) -> RunStep {
    match o {
        PhaseOutcome::TimedOut => RunStep::Reject(STATUS_REQUEST_TIMEOUT),
        PhaseOutcome::SomeFailed => RunStep::Reject(STATUS_BAD_REQUEST),
        PhaseOutcome::AllSucceeded => match spec_next_phase(p) {
            Some(n) => RunStep::Continue(n),
            None => RunStep::Started,
        },
    }
}

/// "Start run": a timeout answers 408, a failed component 400; after a
/// successful phase the next one follows, and after Start the run has
/// started.
pub fn run_start_next(p: RunPhase, o: PhaseOutcome) -> (r: RunStep)
    ensures
        r == spec_run_start_next(p, o),
{
    match o {
        PhaseOutcome::TimedOut => RunStep::Reject(STATUS_REQUEST_TIMEOUT),
        PhaseOutcome::SomeFailed => RunStep::Reject(STATUS_BAD_REQUEST),
        PhaseOutcome::AllSucceeded => match p {
            RunPhase::Reset => RunStep::Continue(RunPhase::Configure),
            RunPhase::Configure => RunStep::Continue(RunPhase::Arm),
            RunPhase::Arm => RunStep::Continue(RunPhase::Start),
            RunPhase::Start => RunStep::Started,
        },
    }
}

/// Where "start run" ends when the phases from `p` on go as `os` says
/// (one outcome per phase sent, in order).
pub open spec fn run_start_from(p: RunPhase, os: Seq<PhaseOutcome>) -> Option<RunStep>
    decreases os.len(),
{
    if os.len() == 0 {
        None
    } else {
        match spec_run_start_next(p, os[0]) {
            RunStep::Continue(n) => run_start_from(n, os.drop_first()),
            s => Some(s),
        }
    }
}

/// A run is started only when Reset, Configure, Arm and Start all
/// succeeded, in that order; the first phase that does not succeed
/// decides the answer: 408 for a timeout, 400 for a failed component.
pub proof fn law_run_starts_only_after_all_phases(os: Seq<PhaseOutcome>)
    requires
        os.len() == 4,
    ensures
        run_start_from(RunPhase::Reset, os) == Some(RunStep::Started) <==> (forall|i: int|
            0 <= i < 4 ==> os[i] == PhaseOutcome::AllSucceeded),
        forall|k: int|
            0 <= k < 4 && (forall|i: int| 0 <= i < k ==> os[i] == PhaseOutcome::AllSucceeded)
                && os[k] != PhaseOutcome::AllSucceeded ==> run_start_from(RunPhase::Reset, os)
                == Some(
                if os[k] == PhaseOutcome::TimedOut {
                    RunStep::Reject(STATUS_REQUEST_TIMEOUT)
                } else {
                    RunStep::Reject(STATUS_BAD_REQUEST)
                },
            ),
{
    let o1 = os.drop_first();
    let o2 = o1.drop_first();
    let o3 = o2.drop_first();
    let o4 = o3.drop_first();
    assert(o1[0] == os[1] && o2[0] == os[2] && o3[0] == os[3]);
    assert(o4.len() == 0);
    reveal_with_fuel(run_start_from, 5);
}

/// "Start" arms first when the system is only Configured.
pub fn start_needs_arm(system: SystemState) -> (r: bool)
    ensures
        r == (system == SystemState::Configured),
{
    system == SystemState::Configured
}

/// A phase of "start".
#[derive(Debug, Clone, Copy, PartialEq, Eq, Structural)]
pub enum StartPhase {
    /// Arming a system that was only Configured.
    AutoArm,
    /// Starting acquisition with the run number.
    Start,
}

/// The first phase of "start".
pub fn start_first_phase(system: SystemState) -> (p: StartPhase)
    ensures
        p == if system == SystemState::Configured {
            StartPhase::AutoArm
        } else {
            StartPhase::Start
        },
{
    if start_needs_arm(system) {
        StartPhase::AutoArm
    } else {
        StartPhase::Start
    }
}

/// What "start" does after a phase: a failed or timed-out auto-arm
/// answers 400; a timed-out start 408 and a failed one 400; otherwise the
/// start follows the arm and the run has started after the start.
pub fn start_next(p: StartPhase, o: PhaseOutcome) -> (r: Result<Option<StartPhase>, u16>)
    ensures
        r == match p {
            StartPhase::AutoArm => match o {
                PhaseOutcome::AllSucceeded => Ok(Some(StartPhase::Start)),
                _ => Err(STATUS_BAD_REQUEST),
            },
            StartPhase::Start => match o {
                PhaseOutcome::TimedOut => Err(STATUS_REQUEST_TIMEOUT),
                PhaseOutcome::SomeFailed => Err(STATUS_BAD_REQUEST),
                PhaseOutcome::AllSucceeded => Ok(None::<StartPhase>),
            },
        },
{
    match p {
        StartPhase::AutoArm => match o {
            PhaseOutcome::AllSucceeded => Ok(Some(StartPhase::Start)),
            _ => Err(STATUS_BAD_REQUEST),
        },
        StartPhase::Start => match o {
            PhaseOutcome::TimedOut => Err(STATUS_REQUEST_TIMEOUT),
            PhaseOutcome::SomeFailed => Err(STATUS_BAD_REQUEST),
            PhaseOutcome::AllSucceeded => Ok(None),
        },
    }
}

} // verus!
