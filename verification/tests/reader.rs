use delila::reader::caen::handle::{OpenDppEvent, ParamInfo};
use delila::reader::caen::validation::{
    validate_enum, ApplyConfigResult, ParamApplyStatus, ValidateResult,
};
use delila::reader::caen_legacy::error::{DigitizerError, ErrorCode};
use delila::reader::caen_legacy::handle::{
    all_channels_mask, board_fail_status, board_ready_step, parse_correction_level,
    parse_io_level, parse_pulse_source, parse_sam_frequency, trigger_edge, trigger_modes,
    BoardFailure, IOLevel, ReadyStep, SamCorrectionLevel, SamFrequency, SamPulseSource,
    TriggerMode, TriggerPolarity, BOARD_READY_TIMEOUT_MS,
};
use delila::reader::decoder::common::{sort_events_by_time, EventData, EventTime};
use delila::reader::caen_legacy::handle::{BoardInfo, X743Handle};
use delila::reader::metrics::ReaderMetrics;
use delila::reader::parallel_decode::{
    resolve_worker_count, CollectorItem, DispatchCounter, ReorderBuffer,
};
use delila::reader::sync::{
    after_sync_action, next_sync_action, read_error_action, HwFlags, ReadErrorAction, SyncAction,
    READ_ERROR_TIMEOUT_MS,
};
use delila::reader::{
    arm_command, effective_state, next_reconnect_cooldown, opendpp_to_event_data,
    poll_dig2_counters, reconnect_cooldown, start_command, state_rank, wrapping_diff_24bit,
    ComponentState, Dig2PollState, TriggerLossWarner, RECONNECT_JITTER_MS, RECONNECT_MAX_MS,
};

// ---------------------------------------------------------------------------
// Reorder buffer
// ---------------------------------------------------------------------------

fn batch(index: u64) -> CollectorItem {
    CollectorItem::Batch { index, bytes: vec![index as u8], n_events: 1, seq: index }
}

fn indices(items: &[CollectorItem]) -> Vec<u64> {
    items.iter().map(|i| i.index()).collect()
}

#[test]
fn reorder_in_order_passthrough() {
    let mut rb = ReorderBuffer::new();
    assert_eq!(indices(&rb.push(batch(0))), vec![0]);
    assert_eq!(indices(&rb.push(batch(1))), vec![1]);
    assert_eq!(rb.pending_len(), 0);
}

#[test]
fn reorder_out_of_order_release() {
    let mut rb = ReorderBuffer::new();
    assert!(rb.push(batch(2)).is_empty());
    assert!(rb.push(batch(1)).is_empty());
    assert_eq!(rb.pending_len(), 2);
    assert_eq!(indices(&rb.push(batch(0))), vec![0, 1, 2]);
    assert_eq!(rb.pending_len(), 0);
}

#[test]
fn reorder_control_tokens_interleave() {
    let mut rb = ReorderBuffer::new();
    assert!(rb.push(CollectorItem::Stop { index: 3 }).is_empty());
    assert!(rb.push(batch(1)).is_empty());
    assert!(rb.push(CollectorItem::Skip { index: 2 }).is_empty());
    let ready = rb.push(CollectorItem::Start { index: 0 });
    assert_eq!(indices(&ready), vec![0, 1, 2, 3]);
    assert!(matches!(ready[0], CollectorItem::Start { .. }));
    assert!(matches!(ready[2], CollectorItem::Skip { .. }));
    assert!(matches!(ready[3], CollectorItem::Stop { .. }));
}

#[test]
fn reorder_drain_remaining_skips_gap() {
    let mut rb = ReorderBuffer::new();
    assert_eq!(indices(&rb.push(batch(0))), vec![0]);
    assert!(rb.push(batch(2)).is_empty());
    let drained = rb.drain_remaining();
    assert_eq!(indices(&drained), vec![2]);
    assert_eq!(rb.pending_len(), 0);
}

#[test]
fn reorder_releases_every_index_once_in_order() {
    let mut rb = ReorderBuffer::new();
    let mut released = Vec::new();
    for i in [5u64, 3, 0, 4, 1, 2, 7, 6] {
        released.extend(indices(&rb.push(batch(i))));
    }
    assert_eq!(released, vec![0, 1, 2, 3, 4, 5, 6, 7]);
    assert!(rb.drain_remaining().is_empty());
}

#[test]
fn reorder_prefix_released_and_rest_pending() {
    let mut rb = ReorderBuffer::new();
    let mut released = Vec::new();
    for i in [4u64, 1, 0, 9, 2] {
        released.extend(indices(&rb.push(batch(i))));
    }
    // 3 is the least index not pushed: 0..3 are out, 4 and 9 wait.
    assert_eq!(released, vec![0, 1, 2]);
    assert_eq!(rb.pending_len(), 2);
}

// ---------------------------------------------------------------------------
// Run-control helpers
// ---------------------------------------------------------------------------

#[test]
fn state_rank_orders_run_states() {
    assert_eq!(state_rank(ComponentState::Idle), 0);
    assert_eq!(state_rank(ComponentState::Configured), 1);
    assert_eq!(state_rank(ComponentState::Armed), 2);
    assert_eq!(state_rank(ComponentState::Running), 3);
    assert_eq!(state_rank(ComponentState::Error), 0);
}

#[test]
fn effective_state_reports_lagging_hardware() {
    assert_eq!(effective_state(ComponentState::Armed, ComponentState::Running), ComponentState::Armed);
    assert_eq!(
        effective_state(ComponentState::Running, ComponentState::Configured),
        ComponentState::Configured
    );
    assert_eq!(effective_state(ComponentState::Running, ComponentState::Running), ComponentState::Running);
}

#[test]
fn wrapping_diff_24bit_handles_wrap() {
    assert_eq!(wrapping_diff_24bit(100, 40), 60);
    assert_eq!(wrapping_diff_24bit(5, 0xFF_FFFE), 7);
    assert_eq!(wrapping_diff_24bit(7, 7), 0);
}

#[test]
fn poll_first_call_is_baseline_then_accumulates() {
    let mut poll = Dig2PollState::new();
    poll_dig2_counters(&mut poll, &[10, 20], &[10, 15]);
    assert!(poll.initialized);
    assert_eq!(poll.accumulated_trigger, 0);
    assert_eq!(poll.accumulated_lost, 0);
    poll_dig2_counters(&mut poll, &[30, 25], &[25, 20]);
    // triggers: 20 + 5; saved: 15 + 5; lost: 5 + 0
    assert_eq!(poll.accumulated_trigger, 25);
    assert_eq!(poll.accumulated_lost, 5);
    assert_eq!(poll.prev_trigger, vec![30, 25]);
    // wrap of the 24-bit counter
    poll_dig2_counters(&mut poll, &[2, 25], &[2, 20]);
    assert_eq!(poll.accumulated_trigger, 25 + (0x100_0000 - 30 + 2));
    poll.reset();
    assert!(!poll.initialized);
    assert_eq!(poll.accumulated_trigger, 0);
}

#[test]
fn poll_without_channels_changes_nothing() {
    let mut poll = Dig2PollState::new();
    poll_dig2_counters(&mut poll, &[], &[]);
    assert!(!poll.initialized);
}

#[test]
fn trigger_loss_warning_is_rate_limited() {
    let mut w = TriggerLossWarner::new(0);
    assert!(!w.check(5, 5_000));
    assert!(w.check(5, 10_000));
    assert_eq!(w.last_logged, 5);
    assert!(!w.check(6, 15_000));
    assert!(!w.check(5, 30_000));
    assert!(w.check(6, 30_000));
}

#[test]
fn reconnect_cooldown_doubles_and_caps() {
    assert_eq!(reconnect_cooldown(1000, 200), (1200, 2000));
    assert_eq!(reconnect_cooldown(20_000, 900), (20_900, 30_000));
    assert_eq!(reconnect_cooldown(30_000, 1000), (30_500, 30_000));
    for _ in 0..50 {
        let (wait, next) = next_reconnect_cooldown(30_000);
        assert!(wait <= RECONNECT_MAX_MS + RECONNECT_JITTER_MS);
        assert!(wait >= 30_000);
        assert_eq!(next, RECONNECT_MAX_MS);
        let (wait, next) = next_reconnect_cooldown(1000);
        assert!((1000..=1000 + 2 * RECONNECT_JITTER_MS).contains(&wait));
        assert_eq!(next, 2000);
    }
}

#[test]
fn arm_and_start_commands_follow_start_mode() {
    assert_eq!(arm_command(true, "START_MODE_SW"), None);
    assert_eq!(arm_command(true, "START_MODE_S_IN"), Some("/cmd/armacquisition"));
    assert_eq!(arm_command(false, "START_MODE_SW"), Some("/cmd/armacquisition"));
    assert_eq!(start_command(true, "START_MODE_SW"), Some("/cmd/armacquisition"));
    assert_eq!(start_command(true, "START_MODE_S_IN"), None);
    assert_eq!(start_command(false, "anything"), Some("/cmd/swstartacquisition"));
}

#[test]
fn opendpp_event_maps_fields() {
    let ev = OpenDppEvent {
        channel: 5,
        timestamp: 1000,
        fine_timestamp: 512,
        energy: 1234,
        flags_b: 0x0AB,
        flags_a: 0x3,
        psd: 77,
        user_info: vec![],
        waveform: None,
        event_size: 16,
    };
    let e = opendpp_to_event_data(&ev, 9);
    assert_eq!(e.time, EventTime::Ticks { coarse: 1000, fine: 512 });
    assert_eq!(e.module, 9);
    assert_eq!(e.channel, 5);
    assert_eq!(e.energy, 1234);
    assert_eq!(e.energy_short, 77);
    assert_eq!(e.fine_time, 512);
    assert_eq!(e.flags, (0x3 << 12) | 0x0AB);
    assert!(e.waveform.is_none());
}

fn event_at(time: EventTime, energy: u16) -> EventData {
    EventData {
        time,
        module: 0,
        channel: 0,
        energy,
        energy_short: 0,
        fine_time: 0,
        flags: 0,
        user_info: [0; 4],
        waveform: None,
    }
}

#[test]
fn sort_events_by_time_is_stable_and_ordered() {
    let mut events = vec![
        event_at(EventTime::Ticks { coarse: 5, fine: 0 }, 1),
        event_at(EventTime::Ticks { coarse: 2, fine: 512 }, 2),
        event_at(EventTime::ZeroCrossing { coarse: 2, num: 1, den: 4 }, 3),
        event_at(EventTime::Ticks { coarse: 5, fine: 0 }, 4),
        event_at(EventTime::Ticks { coarse: 1, fine: 1023 }, 5),
    ];
    sort_events_by_time(&mut events);
    let energies: Vec<u16> = events.iter().map(|e| e.energy).collect();
    assert_eq!(energies, vec![5, 3, 2, 1, 4]);
}

// ---------------------------------------------------------------------------
// Parameter validation and application results
// ---------------------------------------------------------------------------

fn polarity_info() -> ParamInfo {
    ParamInfo {
        name: "polarity".to_string(),
        datatype: "STRING".to_string(),
        access_mode: "READ_WRITE".to_string(),
        setinrun: false,
        min_value: None,
        max_value: None,
        allowed_values: vec!["Positive".to_string(), "Negative".to_string()],
        unit: None,
        increment: None,
        default_value: None,
        expuom: None,
    }
}

#[test]
fn test_validate_enum_valid() {
    let result = validate_enum("Positive", &polarity_info());
    assert!(!result.adjusted);
    assert!(result.message.is_none());
}

#[test]
fn test_validate_enum_invalid() {
    let result = validate_enum("Unknown", &polarity_info());
    assert!(!result.adjusted);
    assert_eq!(result.value, "Unknown");
    let message = result.message.unwrap();
    assert!(message.contains("not in allowed values"));
    assert_eq!(message, "'Unknown' not in allowed values: [\"Positive\", \"Negative\"]");
}

#[test]
fn apply_result_records_each_status() {
    let mut r = ApplyConfigResult::new(5);
    let ok = ValidateResult { value: "10".to_string(), adjusted: false, message: None };
    let adj = ValidateResult { value: "16".to_string(), adjusted: true, message: Some("snapped".to_string()) };
    r.record("/ch/0/par/a".to_string(), "10".to_string(), Some(ok.clone()), Ok(()));
    r.record("/ch/1/par/a".to_string(), "15".to_string(), Some(adj), Ok(()));
    r.record("/ch/2/par/a".to_string(), "10".to_string(), Some(ok), Err("refused".to_string()));
    r.record("/par/b".to_string(), "x".to_string(), None, Ok(()));
    r.record("/par/c".to_string(), "y".to_string(), None, Err("no such".to_string()));
    assert_eq!((r.ok, r.adjusted, r.failed, r.no_cache, r.skipped), (1, 1, 1, 1, 1));
    assert_eq!(r.total, 5);
    assert_eq!(r.details[0].status, ParamApplyStatus::Accepted);
    assert_eq!(r.details[1].status, ParamApplyStatus::Adjusted);
    assert_eq!(r.details[1].applied_value, "16");
    assert_eq!(r.details[1].message.as_deref(), Some("snapped"));
    assert_eq!(r.details[2].status, ParamApplyStatus::Failed);
    assert_eq!(r.details[2].message.as_deref(), Some("refused"));
    assert_eq!(r.details[3].status, ParamApplyStatus::NoCache);
    assert_eq!(r.details[3].applied_value, "x");
    assert_eq!(r.details[4].status, ParamApplyStatus::Skipped);
    assert_eq!(r.details[4].message.as_deref(), Some("Not in DevTree, set_value failed: no such"));
    assert!(!r.all_channel_params_failed());
}

#[test]
fn all_channel_params_failed_detects_channel_mismatch() {
    let mut r = ApplyConfigResult::new(3);
    assert!(!r.all_channel_params_failed());
    r.record("/par/x".to_string(), "1".to_string(), None, Ok(()));
    r.record("/ch/40/par/a".to_string(), "1".to_string(), None, Err("bad".to_string()));
    r.record(
        "/ch/41/par/a".to_string(),
        "1".to_string(),
        Some(ValidateResult { value: "1".to_string(), adjusted: false, message: None }),
        Err("bad".to_string()),
    );
    assert!(r.all_channel_params_failed());
}

// ---------------------------------------------------------------------------
// Legacy digitizer configuration words
// ---------------------------------------------------------------------------

#[test]
fn parse_words_case_insensitively() {
    assert_eq!(parse_sam_frequency("3.2GHz").unwrap(), SamFrequency::Ghz3_2);
    assert_eq!(parse_sam_frequency("1600MHZ").unwrap(), SamFrequency::Ghz1_6);
    assert_eq!(parse_sam_frequency("0.8ghz").unwrap(), SamFrequency::Mhz800);
    assert_eq!(parse_sam_frequency("400MHz").unwrap(), SamFrequency::Mhz400);
    assert_eq!(parse_correction_level("ALL").unwrap(), SamCorrectionLevel::All);
    assert_eq!(parse_correction_level("pedestal").unwrap(), SamCorrectionLevel::PedestalOnly);
    assert_eq!(parse_correction_level("Inl").unwrap(), SamCorrectionLevel::INL);
    assert_eq!(parse_correction_level("none").unwrap(), SamCorrectionLevel::Disabled);
    assert_eq!(parse_io_level("Nim").unwrap(), IOLevel::NIM);
    assert_eq!(parse_io_level("TTL").unwrap(), IOLevel::TTL);
    assert_eq!(parse_pulse_source("SW").unwrap(), SamPulseSource::Software);
    assert_eq!(parse_pulse_source("cont").unwrap(), SamPulseSource::Continuous);
}

#[test]
fn parse_words_report_unknown_input() {
    let e = parse_sam_frequency("2GHz").unwrap_err();
    assert_eq!(e.code, ErrorCode::GenericError);
    assert_eq!(e.context, "Unknown sampling frequency: 2GHz");
    assert_eq!(parse_correction_level("x").unwrap_err().context, "Unknown correction level: x");
    assert_eq!(parse_io_level("lvds").unwrap_err().context, "Unknown IO level: lvds");
    assert_eq!(parse_pulse_source("ext").unwrap_err().context, "Unknown pulse source: ext");
}

#[test]
fn digitizer_error_check_maps_return_codes() {
    assert!(DigitizerError::check(ErrorCode::Success, "open").is_ok());
    let e = DigitizerError::check(ErrorCode::Other(-5), "open").unwrap_err();
    assert_eq!(e.code, ErrorCode::Other(-5));
    assert_eq!(e.context, "open");
    assert!(DigitizerError::is_success(ErrorCode::Success));
    assert!(!DigitizerError::is_success(ErrorCode::GenericError));
    assert_eq!(DigitizerError::new(-3, "ctx").code, ErrorCode::GenericError);
}

#[test]
fn board_status_decisions() {
    assert_eq!(board_fail_status(0), Ok(()));
    assert_eq!(board_fail_status(0x1), Err(BoardFailure::CommTimeout));
    assert_eq!(board_fail_status(0x11), Err(BoardFailure::CommTimeout));
    assert_eq!(board_fail_status(0x10), Err(BoardFailure::PllNotLocked));
    assert_eq!(board_ready_step(0, 0), ReadyStep::Ready);
    assert_eq!(board_ready_step(0x2, 0), ReadyStep::Fail);
    assert_eq!(board_ready_step(0x10, 100), ReadyStep::Wait);
    assert_eq!(board_ready_step(0x10, BOARD_READY_TIMEOUT_MS), ReadyStep::TimedOut);
}

#[test]
fn trigger_configuration_words() {
    assert_eq!(trigger_modes("software"), (TriggerMode::AcqOnly, TriggerMode::Disabled));
    assert_eq!(trigger_modes("external"), (TriggerMode::AcqOnly, TriggerMode::AcqOnly));
    assert_eq!(all_channels_mask(0), 0);
    assert_eq!(all_channels_mask(8), 0xFF);
    assert_eq!(all_channels_mask(40), u32::MAX);
    assert_eq!(trigger_edge(Some("Rising"), Some("negative")), Some(TriggerPolarity::RisingEdge));
    assert_eq!(trigger_edge(Some("falling"), None), Some(TriggerPolarity::FallingEdge));
    assert_eq!(trigger_edge(None, Some("POSITIVE")), Some(TriggerPolarity::RisingEdge));
    assert_eq!(trigger_edge(None, Some("negative")), Some(TriggerPolarity::FallingEdge));
    assert_eq!(trigger_edge(None, None), None);
}

// ---------------------------------------------------------------------------
// Batch accounting
// ---------------------------------------------------------------------------

fn event_on(channel: u8, energy: u16, flags: u32) -> EventData {
    EventData {
        time: EventTime::Ticks { coarse: 0, fine: 0 },
        module: 0,
        channel,
        energy,
        energy_short: 0,
        fine_time: 0,
        flags,
        user_info: [0; 4],
        waveform: None,
    }
}

#[test]
fn account_events_filters_and_counts() {
    let mut m = ReaderMetrics::new();
    let events = vec![
        event_on(0, 50, 0x20),
        event_on(1, 500, 0x04),
        event_on(1, 700, 0x24),
        event_on(40, 900, 0),
    ];
    let kept = m.account_events(events, true, 100);
    let energies: Vec<u16> = kept.iter().map(|e| e.energy).collect();
    assert_eq!(energies, vec![500, 700, 900]);
    assert_eq!(m.events_decoded, 4);
    assert_eq!(m.filtered_events, 1);
    assert_eq!(m.per_channel_counts[0], 0);
    assert_eq!(m.per_channel_counts[1], 2);
    assert_eq!(m.trigger_lost_flag_events, 2);
    assert_eq!(m.n_lost_trigger_flag_events, 2);
    assert_eq!(m.trigger_loss_count, 2048);
    // DIG2 flags are not DIG1 loss flags; no ADC minimum keeps everything
    let kept = m.account_events(vec![event_on(2, 1, 0x24)], false, 0);
    assert_eq!(kept.len(), 1);
    assert_eq!(m.events_decoded, 5);
    assert_eq!(m.trigger_loss_count, 2048);
    assert_eq!(m.per_channel_counts[2], 1);
}

// ---------------------------------------------------------------------------
// Hardware synchronisation
// ---------------------------------------------------------------------------

fn run_pass(mut f: HwFlags, target: ComponentState, config_failed: bool) -> (HwFlags, Vec<SyncAction>) {
    let mut actions = Vec::new();
    let mut stage = 0u8;
    while let Some((a, next)) = next_sync_action(f, target, stage) {
        actions.push(a);
        f = after_sync_action(f, a, config_failed).0;
        stage = next;
    }
    (f, actions)
}

#[test]
fn sync_pass_brings_fresh_digitizer_to_running() {
    let (f, actions) = run_pass(HwFlags::new(), ComponentState::Running, false);
    assert_eq!(actions, vec![SyncAction::Configure, SyncAction::Arm, SyncAction::Start]);
    assert!(f.configured && f.armed && f.running);
}

#[test]
fn sync_pass_blocks_arm_after_failed_configuration() {
    let (f, actions) = run_pass(HwFlags::new(), ComponentState::Running, true);
    assert_eq!(actions, vec![SyncAction::Configure, SyncAction::ArmBlocked, SyncAction::Start]);
    assert!(f.auto_config_failed && !f.armed && f.running);
}

#[test]
fn sync_pass_stops_and_resets() {
    let running = HwFlags { configured: true, armed: true, running: true, auto_config_failed: false };
    let (f, actions) = run_pass(running, ComponentState::Configured, false);
    assert_eq!(actions, vec![SyncAction::Stop]);
    assert!(f.configured && !f.armed && !f.running);
    let (f, actions) = run_pass(running, ComponentState::Idle, false);
    assert_eq!(actions, vec![SyncAction::Stop, SyncAction::Reset]);
    assert_eq!(f, HwFlags::new());
    let (_, actions) = run_pass(running, ComponentState::Running, false);
    assert!(actions.is_empty());
}

#[test]
fn sync_reports_hardware_states() {
    let f = HwFlags::new();
    assert_eq!(after_sync_action(f, SyncAction::Configure, false).1, Some(ComponentState::Configured));
    assert_eq!(after_sync_action(f, SyncAction::ArmBlocked, false).1, None);
    assert_eq!(after_sync_action(f, SyncAction::Stop, false).1, Some(ComponentState::Configured));
    assert_eq!(after_sync_action(f, SyncAction::Reset, false).1, Some(ComponentState::Idle));
}

#[test]
fn read_errors_retry_then_give_up() {
    assert_eq!(read_error_action(true, true, true, None, 5), (ReadErrorAction::Shutdown, None));
    assert_eq!(read_error_action(true, false, true, Some(1), 5), (ReadErrorAction::AwaitStateChange, Some(1)));
    assert_eq!(read_error_action(false, false, false, None, 5), (ReadErrorAction::DropConnection, None));
    assert_eq!(read_error_action(false, false, true, None, 100), (ReadErrorAction::Retry, Some(100)));
    assert_eq!(
        read_error_action(false, false, true, Some(100), 100 + READ_ERROR_TIMEOUT_MS),
        (ReadErrorAction::Retry, Some(100))
    );
    assert_eq!(
        read_error_action(false, false, true, Some(100), 101 + READ_ERROR_TIMEOUT_MS),
        (ReadErrorAction::GiveUp, None)
    );
}

#[test]
fn x743_handle_keeps_handle_and_board_info() {
    let info = BoardInfo {
        model_name: "V1743".to_string(),
        model: 1743,
        channels: 16,
        form_factor: 0,
        family_code: 0,
        roc_firmware: "4.25".to_string(),
        amc_firmware: "1.3".to_string(),
        serial_number: 77,
        adc_nbits: 12,
        sam_correction_loaded: false,
    };
    let h = X743Handle::from_raw(3, Some(info));
    assert_eq!(h.raw_handle(), 3);
    assert_eq!(h.board_info().unwrap().serial_number, 77);
    assert!(X743Handle::from_raw(4, None).board_info().is_none());
}

#[test]
fn resolve_worker_count_explicit_and_auto() {
    // 4 logical CPUs when the machine does not tell
    assert_eq!(resolve_worker_count(6, 4), 6);
    assert_eq!(resolve_worker_count(100, 4), 64);
    let auto = resolve_worker_count(0, 4);
    assert!((1..=8).contains(&auto));
    assert_eq!(resolve_worker_count(0, 4), 1);
    assert_eq!(resolve_worker_count(0, 12), 5);
    assert_eq!(resolve_worker_count(0, 64), 8);
    assert_eq!(resolve_worker_count(0, 1), 1);
}

#[test]
fn dispatch_counter_numbers_consecutively() {
    let mut c = DispatchCounter::new();
    assert_eq!(c.number_work(), (0, 0, 0));
    assert_eq!(c.number_work(), (1, 1, 0));
    assert_eq!(c.number_stop(), 2);
    assert_eq!(c.number_start(), 3);
    assert_eq!(c.number_work(), (4, 0, 1));
    // dispatched items pushed out of order are published in order
    let mut rb = ReorderBuffer::new();
    let mut released = Vec::new();
    for i in [4u64, 2, 0, 3, 1] {
        released.extend(indices(&rb.push(batch(i))));
    }
    assert_eq!(released, vec![0, 1, 2, 3, 4]);
}
