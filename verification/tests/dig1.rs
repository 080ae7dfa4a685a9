use delila::reader::decoder::common::{DataType, EventData, EventTime, RawData};
use delila::reader::decoder::pha1::{
    calculate_sw_fine_fraction_pha, decode_energy_word, decode_pha1_waveform, Pha1Decoder,
    Pha1Variant, PhaChannelHeader,
};
use delila::reader::decoder::psd1::{
    calculate_sw_fine_fraction_psd, decode_charge_word, decode_psd1_waveform, Psd1Decoder,
    Psd1Variant, PsdChannelHeader,
};
use delila::reader::decoder::psd1_pha1_common::{
    aggregates_advance, clamp_fraction, combined_time_tag, decode_board_header,
    decode_dual_channel_header, decode_extras_word, fraction_fine_time, read_u32, Dig1ChannelHeader,
    Dig1Config, Dig1Variant, ExtrasDecoded, PILEUP_FLAG_BIT,
};

/// Time step of the x725/x730 ADC clock, in ns.
const TIME_STEP_NS: f64 = 2.0;

fn timestamp_ns(e: &EventData) -> f64 {
    match e.time {
        EventTime::Ticks { coarse, fine } => {
            coarse as f64 * TIME_STEP_NS + (fine as f64 / 1024.0) * TIME_STEP_NS
        }
        EventTime::ZeroCrossing { coarse, num, den } => {
            coarse as f64 * TIME_STEP_NS + (num as f64 / den as f64) * TIME_STEP_NS
        }
    }
}

fn fraction(r: (u16, u16)) -> f64 {
    r.0 as f64 / r.1 as f64
}

fn push_u32(buf: &mut Vec<u8>, value: u32) {
    buf.extend_from_slice(&value.to_le_bytes());
}

fn make_board_header(aggregate_size: u32, mask: u8, board_id: u8, counter: u32) -> Vec<u8> {
    let mut buf = Vec::new();
    push_u32(&mut buf, (0xA << 28) | (aggregate_size & 0x0FFF_FFFF));
    push_u32(&mut buf, ((board_id as u32) << 27) | (mask as u32));
    push_u32(&mut buf, counter & 0x7F_FFFF);
    push_u32(&mut buf, 0x1234_5678);
    buf
}

struct ChFlags {
    time: bool,
    extras: bool,
    physics: bool,
    samples: bool,
    dual_trace: bool,
    extra_option: u8,
    num_samples: u16,
}

fn default_flags() -> ChFlags {
    ChFlags {
        time: true,
        extras: true,
        physics: true,
        samples: false,
        dual_trace: false,
        extra_option: 2,
        num_samples: 0,
    }
}

fn make_dual_channel_header(size: u32, flags: &ChFlags) -> Vec<u8> {
    let mut buf = Vec::new();
    push_u32(&mut buf, (1 << 31) | (size & 0x3F_FFFF));
    let mut w1: u32 = flags.num_samples as u32;
    w1 |= (flags.extra_option as u32 & 0x7) << 24;
    if flags.samples {
        w1 |= 1 << 27;
    }
    if flags.extras {
        w1 |= 1 << 28;
    }
    if flags.time {
        w1 |= 1 << 29;
    }
    if flags.physics {
        w1 |= 1 << 30;
    }
    if flags.dual_trace {
        w1 |= 1 << 31;
    }
    push_u32(&mut buf, w1);
    buf
}

fn make_time_word(trigger_time: u32, odd_channel: bool) -> u32 {
    let mut w = trigger_time & 0x7FFF_FFFF;
    if odd_channel {
        w |= 1 << 31;
    }
    w
}

fn make_extras_word(extended_time: u16, flags: u8, fine_time: u16) -> u32 {
    ((extended_time as u32) << 16) | (((flags as u32) & 0x3F) << 10) | ((fine_time as u32) & 0x3FF)
}

/// PHA1 energy word: energy in bits[14:0], pile-up bit 15, extra above.
fn make_physics_word(energy: u16, extra: u16, pileup: bool) -> u32 {
    let mut w = ((extra as u32) & 0xFFFF) << 16 | ((energy as u32) & 0x7FFF);
    if pileup {
        w |= 1 << 15;
    }
    w
}

fn single_event_aggregate(mask: u8, time_word: u32, physics_word: u32) -> Vec<u8> {
    let ch_size = 2 + 3;
    let total_size = 4 + ch_size;
    let mut data = make_board_header(total_size as u32, mask, 0, 1);
    data.extend(make_dual_channel_header(ch_size as u32, &default_flags()));
    push_u32(&mut data, time_word);
    push_u32(&mut data, make_extras_word(0, 0, 0));
    push_u32(&mut data, physics_word);
    data
}

fn wf_header(num_samples_wave: u16, dual_trace: bool) -> Dig1ChannelHeader {
    Dig1ChannelHeader {
        block_size: 0,
        num_samples_wave,
        extra_option: 0,
        samples_enabled: true,
        extras_enabled: false,
        time_enabled: false,
        physics_enabled: false,
        dual_trace,
    }
}

fn four_sample_words() -> Vec<u8> {
    let mut buf = Vec::new();
    push_u32(&mut buf, 100 | (200 << 16));
    push_u32(&mut buf, 300 | (400 << 16));
    push_u32(&mut buf, 500 | (600 << 16));
    push_u32(&mut buf, 700 | (800 << 16));
    buf
}

// ---------------------------------------------------------------------------
// Framing (shared by PSD1 and PHA1)
// ---------------------------------------------------------------------------

#[test]
fn classify_too_small() {
    let dec = Pha1Decoder::with_defaults();
    assert_eq!(dec.classify(&RawData::new(vec![0; 12])), DataType::Unknown);
}

#[test]
fn classify_not_word_aligned() {
    let dec = Pha1Decoder::with_defaults();
    assert_eq!(dec.classify(&RawData::new(vec![0; 17])), DataType::Unknown);
}

#[test]
fn classify_valid_data_header() {
    let dec = Pha1Decoder::with_defaults();
    let data = make_board_header(4, 0x01, 0, 1);
    assert_eq!(dec.classify(&RawData::new(data)), DataType::Event);
}

#[test]
fn classify_invalid_header_type() {
    let dec = Pha1Decoder::with_defaults();
    let mut data = vec![0u8; 16];
    data[..4].copy_from_slice(&0xB000_0004u32.to_le_bytes());
    assert_eq!(dec.classify(&RawData::new(data)), DataType::Unknown);
}

#[test]
fn classify_no_start_or_stop() {
    let dec = Pha1Decoder::with_defaults();
    let dt = dec.classify(&RawData::new(make_board_header(4, 0x01, 0, 1)));
    assert_ne!(dt, DataType::Start);
    assert_ne!(dt, DataType::Stop);
}

#[test]
fn decode_board_header_basic_fields() {
    let data = make_board_header(100, 0x03, 5, 42);
    let header = decode_board_header(&data, 0).unwrap();
    assert_eq!(header.aggregate_size, 100);
    assert_eq!(header.dual_channel_mask, 0x03);
    assert_eq!(header.board_id, 5);
    assert_eq!(header.aggregate_counter, 42);
    assert!(!header.board_fail);
    assert_eq!(header.board_time_tag, 0x1234_5678);
}

#[test]
fn decode_board_header_fail_bit() {
    let mut data = make_board_header(4, 0x01, 0, 1);
    let w1 = read_u32(&data, 4) | (1 << 26);
    data[4..8].copy_from_slice(&w1.to_le_bytes());
    let header = decode_board_header(&data, 0).unwrap();
    assert!(header.board_fail);
}

#[test]
fn decode_board_header_insufficient_data() {
    let data = vec![0u8; 12];
    assert!(decode_board_header(&data, 0).is_err());
}

#[test]
fn decode_board_header_wrong_type_errors() {
    let mut data = vec![0u8; 16];
    data[..4].copy_from_slice(&0xB000_0004u32.to_le_bytes());
    assert!(decode_board_header(&data, 0).is_err());
}

#[test]
fn dual_channel_header_default_flags() {
    let data = make_dual_channel_header(50, &default_flags());
    let h = decode_dual_channel_header::<Psd1Variant>(&data, 0).unwrap();
    assert_eq!(h.block_size, 50);
    assert!(h.time_enabled);
    assert!(h.extras_enabled);
    assert!(h.physics_enabled);
    assert!(!h.samples_enabled);
    assert!(!h.dual_trace);
    assert_eq!(h.extra_option, 2);
    assert_eq!(h.num_samples_wave, 0);
}

#[test]
fn dual_channel_header_all_flags_on() {
    let flags = ChFlags { samples: true, dual_trace: true, extra_option: 5, num_samples: 16, ..default_flags() };
    let data = make_dual_channel_header(100, &flags);
    let h = decode_dual_channel_header::<Psd1Variant>(&data, 0).unwrap();
    assert!(h.dual_trace);
    assert!(h.physics_enabled);
    assert!(h.time_enabled);
    assert!(h.extras_enabled);
    assert!(h.samples_enabled);
    assert_eq!(h.num_samples_wave, 16);
    assert_eq!(h.extra_option, 5);
}

#[test]
fn dual_channel_header_size_mask_depends_on_variant() {
    let mut data = Vec::new();
    push_u32(&mut data, 0x7FFF_FFFF);
    push_u32(&mut data, 0);
    let psd = decode_dual_channel_header::<Psd1Variant>(&data, 0).unwrap();
    let pha = decode_dual_channel_header::<Pha1Variant>(&data, 0).unwrap();
    assert_eq!(psd.block_size, 0x003F_FFFF);
    assert_eq!(pha.block_size, 0x7FFF_FFFF);
    assert!(decode_dual_channel_header::<Pha1Variant>(&data[..4], 0).is_err());
}

#[test]
fn channel_header_event_size_minimal() {
    let h = Dig1ChannelHeader {
        block_size: 0,
        num_samples_wave: 0,
        extra_option: 2,
        samples_enabled: false,
        extras_enabled: true,
        time_enabled: true,
        physics_enabled: true,
        dual_trace: false,
    };
    assert_eq!(h.event_size_words(), 3);
}

#[test]
fn channel_header_event_size_with_waveform() {
    let h = Dig1ChannelHeader {
        block_size: 0,
        num_samples_wave: 4,
        extra_option: 2,
        samples_enabled: true,
        extras_enabled: true,
        time_enabled: true,
        physics_enabled: true,
        dual_trace: false,
    };
    assert_eq!(h.event_size_words(), 3 + 16);
}

#[test]
fn extras_option2_returns_hw_fine_ts() {
    let word = make_extras_word(0x1234, 0x2A, 500);
    match decode_extras_word(word, 2) {
        ExtrasDecoded::HwFineTs { extended_time, fine_time, flags } => {
            assert_eq!(extended_time, 0x1234);
            assert_eq!(fine_time, 500);
            assert_eq!(flags, 0x2A);
        }
        _ => panic!("expected HwFineTs"),
    }
}

#[test]
fn extras_option5_returns_sw_fine_ts() {
    let before_zc: u16 = 100;
    let after_zc: u16 = 200;
    let word: u32 = ((before_zc as u32) << 16) | (after_zc as u32);
    match decode_extras_word(word, 5) {
        ExtrasDecoded::SwFineTs { before_zc: b, after_zc: a } => {
            assert_eq!(b, before_zc);
            assert_eq!(a, after_zc);
        }
        _ => panic!("expected SwFineTs"),
    }
}

#[test]
fn extras_option1_returns_hw_fine_ts_no_fine() {
    let word: u32 = (0x5678_u32 << 16) | 0x00FF;
    match decode_extras_word(word, 1) {
        ExtrasDecoded::HwFineTs { extended_time, fine_time, flags } => {
            assert_eq!(extended_time, 0x5678);
            assert_eq!(fine_time, 0);
            assert_eq!(flags, 0x00FF);
        }
        _ => panic!("expected HwFineTs"),
    }
}

#[test]
fn extras_other_option_carries_extended_time_only() {
    let word: u32 = (0x0042_u32 << 16) | 0xFFFF;
    assert_eq!(
        decode_extras_word(word, 0),
        ExtrasDecoded::HwFineTs { extended_time: 0x42, fine_time: 0, flags: 0 }
    );
}

#[test]
fn combined_time_tag_places_extension_above_bit_31() {
    assert_eq!(combined_time_tag(1000, 0), 1000);
    assert_eq!(combined_time_tag(0, 1), 1u64 << 31);
    assert_eq!(combined_time_tag(5, 2), (2u64 << 31) | 5);
    // 1 tick of extension at 2 ns per tick
    assert!(((combined_time_tag(0, 1) as f64) * TIME_STEP_NS - (1u64 << 31) as f64 * 2.0).abs() < 1.0);
}

#[test]
fn fraction_fine_time_scales_to_1024() {
    assert_eq!(fraction_fine_time(1, 2), 512);
    assert_eq!(fraction_fine_time(0, 1), 0);
    assert_eq!(fraction_fine_time(1, 1), 1023);
    assert_eq!(fraction_fine_time(3, 5), 614);
}

#[test]
fn clamp_fraction_cases() {
    assert_eq!(clamp_fraction(1, 0), (0, 1));
    assert_eq!(clamp_fraction(-3, 5), (0, 1));
    assert_eq!(clamp_fraction(7, 5), (1, 1));
    assert_eq!(clamp_fraction(3, 5), (3, 5));
    assert_eq!(clamp_fraction(-3, -5), (3, 5));
}

// ---------------------------------------------------------------------------
// End-to-end framing
// ---------------------------------------------------------------------------

#[test]
fn decode_single_event_end_to_end() {
    let mut dec = Pha1Decoder::with_defaults();
    let ch_size = 2 + 3;
    let total_size = 4 + ch_size;
    let mut data = make_board_header(total_size as u32, 0x01, 0, 1);
    data.extend(make_dual_channel_header(ch_size as u32, &default_flags()));
    push_u32(&mut data, make_time_word(1000, false));
    push_u32(&mut data, make_extras_word(0, 0, 100));
    push_u32(&mut data, make_physics_word(5000, 500, false));
    let events = dec.decode(&RawData::new(data));
    assert_eq!(events.len(), 1);
    let e = &events[0];
    assert_eq!(e.channel, 0);
    assert_eq!(e.energy, 5000);
    assert_eq!(e.energy_short, 500);
    assert_eq!(e.fine_time, 100);
    assert!(e.waveform.is_none());
    assert_eq!(e.time, EventTime::Ticks { coarse: 1000, fine: 100 });
}

#[test]
fn decode_odd_channel_uses_channel_flag_bit() {
    let mut dec = Pha1Decoder::with_defaults();
    let data = single_event_aggregate(0x01, make_time_word(1000, true), make_physics_word(100, 50, false));
    let events = dec.decode(&RawData::new(data));
    assert_eq!(events.len(), 1);
    assert_eq!(events[0].channel, 1);
}

#[test]
fn decode_channel_pair_offset_maps_to_higher_channels() {
    let mut dec = Pha1Decoder::with_defaults();
    let data = single_event_aggregate(0x04, make_time_word(1000, false), make_physics_word(100, 50, false));
    let events = dec.decode(&RawData::new(data));
    assert_eq!(events.len(), 1);
    assert_eq!(events[0].channel, 4);
}

#[test]
fn decode_pileup_sets_flag_bit_15() {
    let mut dec = Pha1Decoder::with_defaults();
    let data = single_event_aggregate(0x01, make_time_word(1000, false), make_physics_word(100, 50, true));
    let events = dec.decode(&RawData::new(data));
    assert_eq!(events.len(), 1);
    assert_ne!(events[0].flags & PILEUP_FLAG_BIT, 0);
}

#[test]
fn psd1_pha1_common_decode_multiple_events_sorted_by_timestamp() {
    let mut dec = Pha1Decoder::with_defaults();
    let ch_size = 2 + 3 * 2;
    let total_size = 4 + ch_size;
    let mut data = make_board_header(total_size as u32, 0x01, 0, 1);
    data.extend(make_dual_channel_header(ch_size as u32, &default_flags()));
    push_u32(&mut data, make_time_word(5000, false));
    push_u32(&mut data, make_extras_word(0, 0, 0));
    push_u32(&mut data, make_physics_word(500, 250, false));
    push_u32(&mut data, make_time_word(1000, false));
    push_u32(&mut data, make_extras_word(0, 0, 0));
    push_u32(&mut data, make_physics_word(100, 50, false));
    let events = dec.decode(&RawData::new(data));
    assert_eq!(events.len(), 2);
    assert!(timestamp_ns(&events[0]) < timestamp_ns(&events[1]));
    assert_eq!(events[0].energy, 100);
    assert_eq!(events[1].energy, 500);
}

#[test]
fn decode_multiple_board_aggregates() {
    let mut dec = Pha1Decoder::with_defaults();
    let ch_size = 2 + 3;
    let block_size = 4 + ch_size;
    let mut data = Vec::new();
    data.extend(make_board_header(block_size as u32, 0x01, 0, 1));
    data.extend(make_dual_channel_header(ch_size as u32, &default_flags()));
    push_u32(&mut data, make_time_word(1000, false));
    push_u32(&mut data, make_extras_word(0, 0, 0));
    push_u32(&mut data, make_physics_word(100, 50, false));
    data.extend(make_board_header(block_size as u32, 0x01, 0, 2));
    data.extend(make_dual_channel_header(ch_size as u32, &default_flags()));
    push_u32(&mut data, make_time_word(2000, false));
    push_u32(&mut data, make_extras_word(0, 0, 0));
    push_u32(&mut data, make_physics_word(200, 100, false));
    let raw = RawData::new(data);
    assert!(aggregates_advance(&raw));
    let events = dec.decode(&raw);
    assert_eq!(events.len(), 2);
    assert_eq!(events[0].energy, 100);
    assert_eq!(events[1].energy, 200);
}

#[test]
fn decode_skips_waveform_when_samples_enabled() {
    let mut dec = Pha1Decoder::with_defaults();
    let num_samples_wave: u16 = 1;
    let wf_words = num_samples_wave as usize * 4;
    let ch_size = 2 + 3 + wf_words;
    let total_size = 4 + ch_size;
    let mut data = make_board_header(total_size as u32, 0x01, 0, 1);
    let flags = ChFlags { samples: true, num_samples: num_samples_wave, ..default_flags() };
    data.extend(make_dual_channel_header(ch_size as u32, &flags));
    push_u32(&mut data, make_time_word(1000, false));
    for _ in 0..wf_words {
        push_u32(&mut data, 0xCAFE_BABE);
    }
    push_u32(&mut data, make_extras_word(0, 0, 0));
    push_u32(&mut data, make_physics_word(100, 50, false));
    let events = dec.decode(&RawData::new(data));
    assert_eq!(events.len(), 1);
    assert!(events[0].waveform.is_some());
    assert_eq!(events[0].energy, 100);
}

#[test]
fn decode_charge_only_event_no_time_no_extras() {
    let mut dec = Pha1Decoder::with_defaults();
    let ch_size = 2 + 1;
    let total_size = 4 + ch_size;
    let mut data = make_board_header(total_size as u32, 0x01, 0, 1);
    let flags = ChFlags { time: false, extras: false, ..default_flags() };
    data.extend(make_dual_channel_header(ch_size as u32, &flags));
    push_u32(&mut data, make_physics_word(999, 444, false));
    let events = dec.decode(&RawData::new(data));
    assert_eq!(events.len(), 1);
    assert_eq!(events[0].energy, 999);
    assert_eq!(events[0].energy_short & 0x3FF, 444);
    assert_eq!(events[0].channel, 0);
    assert!(timestamp_ns(&events[0]).abs() < 0.001);
}

#[test]
fn module_id_propagates_to_emitted_events() {
    let mut dec = Pha1Decoder::new(Dig1Config { module_id: 7, dump_enabled: false });
    let data = single_event_aggregate(0x01, make_time_word(1000, false), make_physics_word(100, 50, false));
    let events = dec.decode(&RawData::new(data));
    assert_eq!(events[0].module, 7);
}

#[test]
fn reset_for_new_run_clears_tracker_state() {
    let mut dec = Pha1Decoder::with_defaults();
    let data = single_event_aggregate(0x01, make_time_word(1000, false), make_physics_word(100, 50, false));
    let _ = dec.decode(&RawData::new(data.clone()));
    assert_ne!(dec.last_aggregate_counter(), 0);
    assert_ne!(dec.extended_board_time(), 0);
    dec.reset_for_new_run();
    assert_eq!(dec.last_aggregate_counter(), 0);
    assert_eq!(dec.extended_board_time(), 0);
}

#[test]
fn empty_input_yields_no_events() {
    let mut dec = Pha1Decoder::with_defaults();
    assert!(dec.decode(&RawData::new(vec![])).is_empty());
}

#[test]
fn invalid_header_yields_no_events() {
    let mut dec = Pha1Decoder::with_defaults();
    let mut data = vec![0u8; 16];
    data[..4].copy_from_slice(&0xB000_0004u32.to_le_bytes());
    assert!(dec.decode(&RawData::new(data)).is_empty());
}

#[test]
fn zero_size_aggregate_is_detected_before_decoding() {
    // A board header announcing 0 words would never advance.
    let data = make_board_header(0, 0x01, 0, 1);
    assert!(!aggregates_advance(&RawData::new(data)));
}

// ---------------------------------------------------------------------------
// PSD1
// ---------------------------------------------------------------------------

#[test]
fn sw_fine_fraction_returns_half_at_midpoint() {
    let frac = fraction(calculate_sw_fine_fraction_psd(8193, 8191));
    assert!((frac - 0.5).abs() < 1e-9);
}

#[test]
fn psd1_sw_fine_fraction_clamps_to_unit_interval() {
    let frac = fraction(calculate_sw_fine_fraction_psd(16000, 8000));
    assert!((0.0..=1.0).contains(&frac));
}

#[test]
fn sw_fine_fraction_returns_zero_on_no_crossing() {
    let frac = fraction(calculate_sw_fine_fraction_psd(8200, 8200));
    assert_eq!(frac, 0.0);
}

#[test]
fn decode_charge_word_basic() {
    let word = (1000_u32 << 16) | 500;
    let (cl, cs, pu) = decode_charge_word(word);
    assert_eq!(cl, 1000);
    assert_eq!(cs, 500);
    assert!(!pu);
}

#[test]
fn decode_charge_word_with_pileup() {
    let word = (2000_u32 << 16) | (1 << 15) | 800;
    let (cl, cs, pu) = decode_charge_word(word);
    assert_eq!(cl, 2000);
    assert_eq!(cs, 800);
    assert!(pu);
}

#[test]
fn decode_charge_word_max_values() {
    let word = (0xFFFF_u32 << 16) | 0x7FFF;
    let (cl, cs, _) = decode_charge_word(word);
    assert_eq!(cl, 0xFFFF);
    assert_eq!(cs, 0x7FFF);
}

#[test]
fn waveform_single_trace_has_all_samples_in_probe1() {
    let h: PsdChannelHeader = wf_header(1, false);
    let buf = four_sample_words();
    let mut offset = 0;
    let wf = decode_psd1_waveform(&buf, &mut offset, &h);
    assert_eq!(offset, 16);
    assert_eq!(wf.analog_probe1.len(), 8);
    assert!(wf.analog_probe2.is_empty());
    assert_eq!(wf.analog_probe1, vec![100, 200, 300, 400, 500, 600, 700, 800]);
    assert!(!wf.analog_probe1_is_signed);
}

#[test]
fn psd1_waveform_dual_trace_swaps_and_duplicates() {
    let h: PsdChannelHeader = wf_header(1, true);
    let buf = four_sample_words();
    let mut offset = 0;
    let wf = decode_psd1_waveform(&buf, &mut offset, &h);
    assert_eq!(wf.analog_probe1, vec![200, 200, 400, 400, 600, 600, 800, 800]);
    assert_eq!(wf.analog_probe2, vec![100, 100, 300, 300, 500, 500, 700, 700]);
}

#[test]
fn waveform_digital_probes_extracted_from_bits_14_15() {
    let h: PsdChannelHeader = wf_header(1, false);
    let mut buf = Vec::new();
    let w: u32 = 50 | (1 << 14) | (60 << 16) | (1 << 31);
    push_u32(&mut buf, w);
    push_u32(&mut buf, 0);
    push_u32(&mut buf, 0);
    push_u32(&mut buf, 0);
    let mut offset = 0;
    let wf = decode_psd1_waveform(&buf, &mut offset, &h);
    assert_eq!(wf.digital_probe1[0], 1);
    assert_eq!(wf.digital_probe1[1], 0);
    assert_eq!(wf.digital_probe2[0], 0);
    assert_eq!(wf.digital_probe2[1], 1);
}

fn psd1_channel_header(size: u32) -> Vec<u8> {
    let mut buf = Vec::new();
    push_u32(&mut buf, (1 << 31) | (size & 0x3F_FFFF));
    let w1: u32 = (2 << 24) | (1 << 28) | (1 << 29) | (1 << 30);
    push_u32(&mut buf, w1);
    buf
}

#[test]
fn psd1_decoder_classifies_valid_board_header_as_event() {
    let dec = Psd1Decoder::with_defaults();
    assert_eq!(dec.classify(&RawData::new(make_board_header(4, 0x01, 0, 1))), DataType::Event);
}

#[test]
fn psd1_decoder_decode_smoke_single_event() {
    let mut dec = Psd1Decoder::new(Dig1Config { module_id: 3, dump_enabled: false });
    let ch_size = 2 + 3;
    let total_size = 4 + ch_size;
    let mut data = make_board_header(total_size as u32, 0x01, 0, 1);
    data.extend(psd1_channel_header(ch_size as u32));
    push_u32(&mut data, 1000);
    push_u32(&mut data, (123_u32 << 16) | (4 << 10) | 200);
    push_u32(&mut data, (1500_u32 << 16) | 250);
    let events = dec.decode(&RawData::new(data));
    assert_eq!(events.len(), 1);
    let e = &events[0];
    assert_eq!(e.module, 3);
    assert_eq!(e.channel, 0);
    assert_eq!(e.energy, 1500);
    assert_eq!(e.energy_short, 250);
    assert_eq!(e.fine_time, 200);
    assert_eq!(e.flags, 4);
}

#[test]
fn psd1_decoder_dual_channel_size_mask_matches_22_bit() {
    assert_eq!(Psd1Variant::DUAL_CHANNEL_SIZE_MASK, 0x003F_FFFF);
    assert_eq!(Psd1Variant::dual_channel_size_mask(), 0x003F_FFFF);
}

#[test]
fn psd1_variant_fw_name_is_psd1() {
    assert_eq!(Psd1Variant::FW_NAME, "PSD1");
    assert_eq!(Psd1Variant::fw_name(), "PSD1");
}

// ---------------------------------------------------------------------------
// PHA1
// ---------------------------------------------------------------------------

#[test]
fn sw_fine_fraction_signed_interpolates_at_zero_cross() {
    let frac = fraction(calculate_sw_fine_fraction_pha(3, (-2_i16) as u16));
    assert!((frac - 0.6).abs() < 1e-9);
}

#[test]
fn pha1_sw_fine_fraction_clamps_to_unit_interval() {
    let frac = fraction(calculate_sw_fine_fraction_pha(1000, (-100_i16) as u16));
    assert!((0.0..=1.0).contains(&frac));
}

#[test]
fn sw_fine_fraction_returns_zero_when_no_crossing() {
    let frac = fraction(calculate_sw_fine_fraction_pha(10, 10));
    assert_eq!(frac, 0.0);
}

#[test]
fn decode_energy_word_basic() {
    let word = (500u32 << 16) | 1000;
    let (e, x, pu) = decode_energy_word(word);
    assert_eq!(e, 1000);
    assert_eq!(x, 500);
    assert!(!pu);
}

#[test]
fn decode_energy_word_with_pileup() {
    let word = (800u32 << 16) | (1 << 15) | 2000;
    let (e, x, pu) = decode_energy_word(word);
    assert_eq!(e, 2000);
    assert_eq!(x, 800);
    assert!(pu);
}

#[test]
fn decode_energy_word_max_values() {
    let word = (0x3FF_u32 << 16) | 0x7FFF;
    let (e, x, _) = decode_energy_word(word);
    assert_eq!(e, 0x7FFF);
    assert_eq!(x, 0x3FF);
}

#[test]
fn waveform_single_trace_sign_extends_samples() {
    let h: PhaChannelHeader = wf_header(1, false);
    let buf = four_sample_words();
    let mut offset = 0;
    let wf = decode_pha1_waveform(&buf, &mut offset, &h);
    assert_eq!(offset, 16);
    assert_eq!(wf.analog_probe1.len(), 8);
    assert!(wf.analog_probe2.is_empty());
    assert_eq!(wf.analog_probe1, vec![100, 200, 300, 400, 500, 600, 700, 800]);
    assert!(wf.analog_probe1_is_signed);
}

#[test]
fn waveform_sign_extension_handles_negative_value() {
    let h: PhaChannelHeader = wf_header(1, false);
    let mut buf = Vec::new();
    push_u32(&mut buf, 0x2000 | (0x3FFF << 16));
    push_u32(&mut buf, 0);
    push_u32(&mut buf, 0);
    push_u32(&mut buf, 0);
    let mut offset = 0;
    let wf = decode_pha1_waveform(&buf, &mut offset, &h);
    assert_eq!(wf.analog_probe1[0], -8192);
    assert_eq!(wf.analog_probe1[1], -1);
}

#[test]
fn pha1_waveform_dual_trace_swaps_and_duplicates() {
    let h: PhaChannelHeader = wf_header(1, true);
    let buf = four_sample_words();
    let mut offset = 0;
    let wf = decode_pha1_waveform(&buf, &mut offset, &h);
    assert_eq!(wf.analog_probe1, vec![200, 200, 400, 400, 600, 600, 800, 800]);
    assert_eq!(wf.analog_probe2, vec![100, 100, 300, 300, 500, 500, 700, 700]);
}

#[test]
fn waveform_digital_probes_tn_to_d0_dp_to_d1() {
    let h: PhaChannelHeader = wf_header(1, false);
    let mut buf = Vec::new();
    let w: u32 = 50 | (1 << 14) | (60 << 16) | (1 << 31);
    push_u32(&mut buf, w);
    push_u32(&mut buf, 0);
    push_u32(&mut buf, 0);
    push_u32(&mut buf, 0);
    let mut offset = 0;
    let wf = decode_pha1_waveform(&buf, &mut offset, &h);
    assert_eq!(wf.digital_probe1[0], 0);
    assert_eq!(wf.digital_probe1[1], 1);
    assert_eq!(wf.digital_probe2[0], 1);
    assert_eq!(wf.digital_probe2[1], 0);
}

fn pha1_channel_header(size: u32) -> Vec<u8> {
    let mut buf = Vec::new();
    push_u32(&mut buf, (1 << 31) | (size & 0x7FFF_FFFF));
    let w1: u32 = (2 << 24) | (1 << 28) | (1 << 29) | (1 << 30);
    push_u32(&mut buf, w1);
    buf
}

#[test]
fn pha1_decoder_classifies_valid_board_header_as_event() {
    let dec = Pha1Decoder::with_defaults();
    assert_eq!(dec.classify(&RawData::new(make_board_header(4, 0x01, 0, 1))), DataType::Event);
}

#[test]
fn pha1_decoder_decode_smoke_single_event() {
    let mut dec = Pha1Decoder::new(Dig1Config { module_id: 5, dump_enabled: false });
    let ch_size = 2 + 3;
    let total_size = 4 + ch_size;
    let mut data = make_board_header(total_size as u32, 0x01, 0, 1);
    data.extend(pha1_channel_header(ch_size as u32));
    push_u32(&mut data, 1000);
    push_u32(&mut data, (50_u32 << 16) | 256);
    push_u32(&mut data, (300_u32 << 16) | 4500);
    let events = dec.decode(&RawData::new(data));
    assert_eq!(events.len(), 1);
    let e = &events[0];
    assert_eq!(e.module, 5);
    assert_eq!(e.channel, 0);
    assert_eq!(e.energy, 4500);
    assert_eq!(e.energy_short, 300);
    assert_eq!(e.fine_time, 256);
}

#[test]
fn pha1_decoder_dual_channel_size_mask_matches_31_bit() {
    assert_eq!(Pha1Variant::DUAL_CHANNEL_SIZE_MASK, 0x7FFF_FFFF);
    assert_eq!(Pha1Variant::dual_channel_size_mask(), 0x7FFF_FFFF);
}

#[test]
fn pha1_variant_fw_name_is_pha1() {
    assert_eq!(Pha1Variant::FW_NAME, "PHA1");
    assert_eq!(Pha1Variant::fw_name(), "PHA1");
}

#[test]
fn pha1_decoder_pileup_propagates_through_variant() {
    let mut dec = Pha1Decoder::with_defaults();
    let ch_size = 2 + 3;
    let total_size = 4 + ch_size;
    let mut data = make_board_header(total_size as u32, 0x01, 0, 1);
    data.extend(pha1_channel_header(ch_size as u32));
    push_u32(&mut data, 1000);
    push_u32(&mut data, 0);
    push_u32(&mut data, (100_u32 << 16) | (1 << 15) | 50);
    let events = dec.decode(&RawData::new(data));
    assert_eq!(events.len(), 1);
    assert_ne!(events[0].flags & (1 << 15), 0);
}

#[test]
fn zero_crossing_time_uses_variant_fraction() {
    // extra_option 5: the extras word carries the samples around the crossing.
    let mut dec = Pha1Decoder::with_defaults();
    let ch_size = 2 + 3;
    let total_size = 4 + ch_size;
    let mut data = make_board_header(total_size as u32, 0x01, 0, 1);
    let flags = ChFlags { extra_option: 5, ..default_flags() };
    data.extend(make_dual_channel_header(ch_size as u32, &flags));
    push_u32(&mut data, make_time_word(1000, false));
    push_u32(&mut data, (3u32 << 16) | ((-2_i16) as u16 as u32));
    push_u32(&mut data, make_physics_word(100, 0, false));
    let events = dec.decode(&RawData::new(data));
    assert_eq!(events.len(), 1);
    match events[0].time {
        EventTime::ZeroCrossing { coarse, num, den } => {
            assert_eq!(coarse & 0x7FFF_FFFF, 1000);
            assert_eq!((num, den), (3, 5));
        }
        _ => panic!("expected a zero-crossing time"),
    }
    assert_eq!(events[0].fine_time, 614);
}

#[test]
fn read_u32_returns_zero_for_any_huge_offset() {
    let data: Vec<u8> = vec![0x01, 0x02, 0x03, 0x04];
    assert_eq!(read_u32(&data, 0), 0x0403_0201);
    assert_eq!(read_u32(&data, usize::MAX), 0);
    assert_eq!(read_u32(&data, usize::MAX - 2), 0);
    assert_eq!(read_u32(&data, 1), 0);
}
