use delila::reader::sync::{
    back_pressure_step, drain_continues, stop_signal_step, DrainRead, SendStep, StopStep,
    TrySend, STOP_SIGNAL_TIMEOUT_MS,
};

#[test]
fn full_channel_is_retried_whatever_the_run_state() {
    assert_eq!(back_pressure_step(TrySend::Full), SendStep::Retry);
}

#[test]
fn sent_reads_next_and_closed_stops() {
    assert_eq!(back_pressure_step(TrySend::Sent), SendStep::ReadNext);
    assert_eq!(back_pressure_step(TrySend::Closed), SendStep::StopReading);
}

#[test]
fn drain_reads_until_the_device_is_empty() {
    assert!(drain_continues(DrainRead::Block));
    assert!(!drain_continues(DrainRead::Empty));
    assert!(!drain_continues(DrainRead::Failed));
}

#[test]
fn stop_signal_retries_until_deadline() {
    assert_eq!(STOP_SIGNAL_TIMEOUT_MS, 3000);
    assert_eq!(stop_signal_step(TrySend::Full, 100, 3100), StopStep::Retry);
    assert_eq!(stop_signal_step(TrySend::Full, 100, 3101), StopStep::GiveUp);
    assert_eq!(stop_signal_step(TrySend::Sent, 100, 99_999), StopStep::Done);
    assert_eq!(stop_signal_step(TrySend::Closed, 100, 0), StopStep::Done);
}

use delila::reader::parallel_decode::{
    coalesce_has_room, coalesce_step, BatchKind, CoalesceStep, Polled, COALESCE_MAX,
};

#[test]
fn coalescing_keeps_one_kind_and_one_enable_flag() {
    assert_eq!(COALESCE_MAX, 256);
    assert!(coalesce_has_room(255));
    assert!(!coalesce_has_room(256));
    assert_eq!(coalesce_step(BatchKind::Decoded, Polled::Decoded), CoalesceStep::Append);
    assert_eq!(coalesce_step(BatchKind::Decoded, Polled::Other), CoalesceStep::FlushAndCarry);
    assert_eq!(coalesce_step(BatchKind::Decoded, Polled::Nothing), CoalesceStep::Flush);
    let on = BatchKind::OpenDpp { enable_acq: true };
    assert_eq!(coalesce_step(on, Polled::OpenDpp { enable_acq: true }), CoalesceStep::Append);
    assert_eq!(coalesce_step(on, Polled::OpenDpp { enable_acq: false }), CoalesceStep::FlushAndCarry);
    assert_eq!(coalesce_step(on, Polled::Decoded), CoalesceStep::FlushAndCarry);
}

use delila::reader::sync::{after_apply_request, HwFlags};
use delila::reader::{enabled_channels, PublishCounter};

#[test]
fn applied_configuration_clears_file_failure() {
    let f = HwFlags { configured: true, armed: false, running: false, auto_config_failed: true };
    let g = after_apply_request(f, true);
    assert!(!g.auto_config_failed);
    assert!(g.configured);
    assert_eq!(after_apply_request(f, false), f);
}

#[test]
fn enabled_channels_from_own_word_then_default() {
    let own = vec![Some("false".to_string()), None, Some("TRUE".to_string())];
    assert_eq!(enabled_channels(&Some("True".to_string()), &own, 4), vec![1, 2, 3]);
    assert_eq!(enabled_channels(&None, &own, 4), vec![2]);
    assert_eq!(enabled_channels(&Some("yes".to_string()), &vec![], 3), Vec::<u8>::new());
}

#[test]
fn publish_numbering_restarts_on_start_and_counts_sent_batches() {
    let mut c = PublishCounter::new();
    c.on_batch_sent(true);
    c.on_batch_sent(false);
    c.on_batch_sent(true);
    assert_eq!(c.sequence_number, 2);
    assert_eq!(c.take_heartbeat(), 0);
    assert_eq!(c.take_heartbeat(), 1);
    c.on_start();
    assert_eq!(c, PublishCounter { sequence_number: 0, heartbeat_counter: 0 });
}
