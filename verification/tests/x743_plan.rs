use delila::reader::caen_legacy::error::ErrorCode;
use delila::reader::caen_legacy::handle::{
    AcqMode, IOLevel, SamCorrectionLevel, SamFrequency, SamPulseSource, TriggerMode,
    TriggerPolarity,
};
use delila::reader::caen_legacy::plan::{
    x743_param_count, x743_plan_allowed, x743_standard_plan, X743Channel, X743Config, X743Op, X743Settings,
};

fn channel(self_trigger: bool) -> X743Channel {
    X743Channel {
        dc_offset_dac: 32767,
        threshold_dac: Some(1000),
        trigger_edge: Some("Rising".to_string()),
        polarity: None,
        enabled: None,
        self_trigger: Some(if self_trigger { "TRUE" } else { "false" }.to_string()),
    }
}

fn settings() -> X743Settings {
    X743Settings {
        group_enable_mask: 0b01,
        post_trigger_size: 10,
        sampling_frequency: "3.2GHz".to_string(),
        pulse_gen_enabled: false,
        pulse_source: "software".to_string(),
        pulse_pattern: 0,
        trigger_source: "self".to_string(),
        correction_level: "all".to_string(),
        max_num_events_blt: 255,
        record_length: 1024,
        io_level: "NIM".to_string(),
        extra_registers: vec![(0x8000, 1)],
    }
}

#[test]
fn missing_section_is_refused_before_any_operation() {
    let cfg = X743Config { num_channels: 2, channels: vec![channel(false), channel(false)], x743: None };
    let p = x743_standard_plan(&cfg);
    assert!(p.ops.is_empty());
    let e = p.error.expect("error");
    assert_eq!(e.code, ErrorCode::GenericError);
    assert_eq!(e.context, "Missing x743 config section");
}

#[test]
fn full_sequence_and_parameter_count() {
    let cfg = X743Config {
        num_channels: 4,
        channels: vec![channel(true), channel(false), channel(true), channel(true)],
        x743: Some(settings()),
    };
    let p = x743_standard_plan(&cfg);
    assert!(p.error.is_none());
    let mut expected = vec![
        X743Op::Reset,
        X743Op::WaitReady,
        X743Op::CheckSamCorrection,
        X743Op::GroupEnableMask(1),
        X743Op::PostTriggerSize { group: 0, size: 10 },
        X743Op::SamplingFrequency(SamFrequency::Ghz3_2),
    ];
    for ch in 0..16 {
        expected.push(X743Op::DisablePulseGen { channel: ch });
    }
    expected.push(X743Op::ChannelSelfTrigger { mode: TriggerMode::Disabled, mask: 0b1111 });
    for ch in 0..2 {
        expected.push(X743Op::ChannelDcOffset { channel: ch, dac: 32767 });
        expected.push(X743Op::ChannelThreshold { channel: ch, dac: 1000 });
        expected.push(X743Op::ChannelPolarity { channel: ch, polarity: TriggerPolarity::RisingEdge });
    }
    expected.push(X743Op::ChannelSelfTrigger { mode: TriggerMode::AcqOnly, mask: 0b01 });
    expected.extend([
        X743Op::SwTriggerMode(TriggerMode::AcqOnly),
        X743Op::ExtTriggerInputMode(TriggerMode::Disabled),
        X743Op::CorrectionLevel(SamCorrectionLevel::All),
        X743Op::MaxEventsBlt(255),
        X743Op::RecordLength(1024),
        X743Op::IoLevel(IOLevel::NIM),
        X743Op::AcquisitionMode(AcqMode::SWControlled),
        X743Op::WaitReady,
        X743Op::WriteRegister { addr: 0x8000, data: 1 },
    ]);
    assert_eq!(p.ops, expected);
    // group mask, 1 post-trigger, frequency, 16 pulse, 1 + 6 + 1 channel,
    // 2 trigger modes, correction, BLT, record length, I/O, acq mode, 1 register
    assert_eq!(x743_param_count(&p.ops), 1 + 1 + 1 + 16 + 8 + 2 + 5 + 1);
}

#[test]
fn bad_frequency_ends_after_group_setup() {
    let mut s = settings();
    s.sampling_frequency = "5GHz".to_string();
    s.pulse_gen_enabled = true;
    s.pulse_source = "continuous".to_string();
    let cfg = X743Config { num_channels: 0, channels: vec![], x743: Some(s) };
    let p = x743_standard_plan(&cfg);
    assert_eq!(p.ops.len(), 5);
    assert_eq!(p.error.expect("error").context, "Unknown sampling frequency: 5GHz");
}

#[test]
fn pulse_generator_enabled_on_every_channel() {
    let mut s = settings();
    s.pulse_gen_enabled = true;
    s.pulse_source = "cont".to_string();
    s.pulse_pattern = 0xAAAA;
    let cfg = X743Config { num_channels: 0, channels: vec![], x743: Some(s) };
    let p = x743_standard_plan(&cfg);
    assert!(p.error.is_none());
    assert_eq!(
        p.ops[6],
        X743Op::EnablePulseGen { channel: 0, pattern: 0xAAAA, source: SamPulseSource::Continuous }
    );
    assert_eq!(p.ops[21], X743Op::EnablePulseGen { channel: 15, pattern: 0xAAAA, source: SamPulseSource::Continuous });
}

#[test]
fn bad_io_level_ends_before_acquisition_mode() {
    let mut s = settings();
    s.io_level = "LVDS".to_string();
    let cfg = X743Config { num_channels: 0, channels: vec![], x743: Some(s) };
    let p = x743_standard_plan(&cfg);
    assert_eq!(p.ops.last(), Some(&X743Op::RecordLength(1024)));
    assert_eq!(p.error.expect("error").context, "Unknown IO level: LVDS");
}

#[test]
fn missing_section_ignores_channel_count() {
    let cfg = X743Config { num_channels: 200, channels: vec![], x743: None };
    assert!(x743_plan_allowed(&cfg));
    let p = x743_standard_plan(&cfg);
    assert!(p.ops.is_empty());
    assert_eq!(p.error.expect("error").context, "Missing x743 config section");
}

#[test]
fn plan_not_allowed_for_self_trigger_beyond_31() {
    let mut s = settings();
    s.group_enable_mask = 0xFFFF_FFFF;
    let mut chs: Vec<X743Channel> = (0..33).map(|_| channel(false)).collect();
    let ok = X743Config { num_channels: 33, channels: chs.clone(), x743: Some(s.clone()) };
    assert!(x743_plan_allowed(&ok));
    chs[32] = channel(true);
    let bad = X743Config { num_channels: 33, channels: chs, x743: Some(s.clone()) };
    assert!(!x743_plan_allowed(&bad));
    let short = X743Config { num_channels: 3, channels: vec![channel(false)], x743: Some(s) };
    assert!(!x743_plan_allowed(&short));
}
