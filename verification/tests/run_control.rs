use delila::operator::run_control::{
    conflict_status, phase_outcome, run_start_guard, run_start_next, start_first_phase,
    start_guard, start_needs_arm, start_next, PhaseOutcome, RunConflict, RunPhase, RunStep,
    StartPhase, SystemState,
};

#[test]
fn run_start_refused_in_tune_up_then_while_running() {
    assert_eq!(run_start_guard(true, SystemState::Idle), Some(RunConflict::TuneUpActive));
    assert_eq!(run_start_guard(true, SystemState::Running), Some(RunConflict::TuneUpActive));
    assert_eq!(run_start_guard(false, SystemState::Running), Some(RunConflict::AlreadyRunning));
    assert_eq!(run_start_guard(false, SystemState::Configured), None);
    assert_eq!(conflict_status(RunConflict::AlreadyRunning), 409);
}

#[test]
fn run_start_phases_in_order() {
    let ok = PhaseOutcome::AllSucceeded;
    assert_eq!(run_start_next(RunPhase::Reset, ok), RunStep::Continue(RunPhase::Configure));
    assert_eq!(run_start_next(RunPhase::Configure, ok), RunStep::Continue(RunPhase::Arm));
    assert_eq!(run_start_next(RunPhase::Arm, ok), RunStep::Continue(RunPhase::Start));
    assert_eq!(run_start_next(RunPhase::Start, ok), RunStep::Started);
}

#[test]
fn run_start_timeout_is_408_and_failure_400() {
    assert_eq!(run_start_next(RunPhase::Configure, PhaseOutcome::TimedOut), RunStep::Reject(408));
    assert_eq!(run_start_next(RunPhase::Arm, PhaseOutcome::SomeFailed), RunStep::Reject(400));
}

#[test]
fn phase_outcome_from_results() {
    assert_eq!(phase_outcome(true, &vec![true]), PhaseOutcome::TimedOut);
    assert_eq!(phase_outcome(false, &vec![true, false, true]), PhaseOutcome::SomeFailed);
    assert_eq!(phase_outcome(false, &vec![true, true]), PhaseOutcome::AllSucceeded);
    assert_eq!(phase_outcome(false, &vec![]), PhaseOutcome::AllSucceeded);
}

#[test]
fn start_arms_first_when_configured() {
    assert!(start_needs_arm(SystemState::Configured));
    assert!(!start_needs_arm(SystemState::Armed));
    assert_eq!(start_first_phase(SystemState::Configured), StartPhase::AutoArm);
    assert_eq!(start_first_phase(SystemState::Armed), StartPhase::Start);
    assert_eq!(start_guard(true), Some(RunConflict::TuneUpActive));
    assert_eq!(start_guard(false), None);
}

#[test]
fn start_steps() {
    assert_eq!(start_next(StartPhase::AutoArm, PhaseOutcome::AllSucceeded), Ok(Some(StartPhase::Start)));
    assert_eq!(start_next(StartPhase::AutoArm, PhaseOutcome::TimedOut), Err(400));
    assert_eq!(start_next(StartPhase::Start, PhaseOutcome::TimedOut), Err(408));
    assert_eq!(start_next(StartPhase::Start, PhaseOutcome::SomeFailed), Err(400));
    assert_eq!(start_next(StartPhase::Start, PhaseOutcome::AllSucceeded), Ok(None));
}
