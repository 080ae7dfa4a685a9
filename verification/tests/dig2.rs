use delila::reader::decoder::common::{
    sign_extend_14bit, DataType, EventData, EventTime, RawData, UNKNOWN_PROBE_TYPE,
};
use delila::reader::decoder::dualchannel_common::{
    read_u64, Dig2Config, Dig2Variant, STOP_SIGNAL_SIZE, START_SIGNAL_SIZE,
};
use delila::reader::decoder::pha2::{
    Pha2Decoder, Pha2Variant, DIGITAL_PROBE0_INFO_SHIFT, DIGITAL_PROBE1_INFO_SHIFT,
    DIGITAL_PROBE2_INFO_SHIFT, DIGITAL_PROBE3_INFO_SHIFT,
};
use delila::reader::decoder::kind::DecoderKind;
use delila::reader::decoder::psd2::{Psd2Decoder, Psd2Variant, ENERGY_SHORT_SHIFT};
use delila::reader::decoder::amax::AMaxDecoder;

/// Time step of the x27xx ADC clock, in ns.
const TIME_STEP_NS: f64 = 2.0;

fn timestamp_ns(e: &EventData) -> f64 {
    match e.time {
        EventTime::Ticks { coarse, fine } => {
            coarse as f64 * TIME_STEP_NS + (fine as f64 / 1024.0) * TIME_STEP_NS
        }
        EventTime::ZeroCrossing { coarse, num, den } => {
            coarse as f64 * TIME_STEP_NS + (num as f64 / den as f64) * TIME_STEP_NS
        }
    }
}

fn pack_be(words: &[u64]) -> Vec<u8> {
    let mut out = Vec::with_capacity(words.len() * 8);
    for &w in words {
        out.extend_from_slice(&w.to_be_bytes());
    }
    out
}

/// Header + two-word event, PSD2 layout (no energy_short).
fn build_aggregate(channel: u8, ts: u64, energy: u16, fine_ts: u16) -> Vec<u8> {
    let total_words: u64 = 3;
    let header = (0x2u64 << 60) | total_words;
    let evt_w1 = ((channel as u64) << 56) | (ts & 0xFFFF_FFFF_FFFF);
    let evt_w2 = (1u64 << 63) | ((fine_ts as u64 & 0x3FF) << 16) | energy as u64;
    pack_be(&[header, evt_w1, evt_w2])
}

fn build_psd2_event(channel: u8, ts: u64, energy: u16, energy_short: u16, fine_ts: u16) -> Vec<u8> {
    let total_words: u64 = 3;
    let header = (0x2u64 << 60) | total_words;
    let evt_w1 = ((channel as u64) << 56) | (ts & 0xFFFF_FFFF_FFFF);
    let evt_w2 = (1u64 << 63)
        | ((energy_short as u64 & 0xFFFF) << 26)
        | ((fine_ts as u64 & 0x3FF) << 16)
        | energy as u64;
    pack_be(&[header, evt_w1, evt_w2])
}

fn raw_data(bytes: Vec<u8>, n_events: u32) -> RawData {
    RawData { size: bytes.len(), data: bytes, n_events }
}

// ---------------------------------------------------------------------------
// common
// ---------------------------------------------------------------------------

#[test]
fn test_sign_extend_14bit() {
    assert_eq!(sign_extend_14bit(0x0000), 0);
    assert_eq!(sign_extend_14bit(0x1FFF), 8191);
    assert_eq!(sign_extend_14bit(0x2000), -8192);
    assert_eq!(sign_extend_14bit(0x3FFF), -1);
    assert_eq!(sign_extend_14bit(0x3FFE), -2);
    assert_eq!(sign_extend_14bit(0x0001), 1);
    assert_eq!(sign_extend_14bit(0x0064), 100);
    assert_eq!(sign_extend_14bit(0xFFFF_C001), 1);
    assert_eq!(sign_extend_14bit(0x4000), 0);
}

#[test]
fn raw_data_new_takes_length_from_bytes() {
    let raw = RawData::new(vec![1, 2, 3]);
    assert_eq!(raw.size, 3);
    assert_eq!(raw.n_events, 0);
    assert_eq!(raw.data, vec![1, 2, 3]);
}

// ---------------------------------------------------------------------------
// classify (framing shared by PSD2 and PHA2)
// ---------------------------------------------------------------------------

#[test]
fn classify_unknown_for_tiny_data() {
    let dec = Psd2Decoder::with_defaults();
    let raw = raw_data(vec![0u8; 8], 0);
    assert_eq!(dec.classify(&raw), DataType::Unknown);
}

#[test]
fn classify_minimum_size_is_event() {
    let dec = Psd2Decoder::with_defaults();
    let raw = raw_data(vec![0u8; 16], 0);
    assert_eq!(dec.classify(&raw), DataType::Event);
}

#[test]
fn classify_stop_signal_three_words() {
    let dec = Psd2Decoder::with_defaults();
    let mut data = vec![0u8; STOP_SIGNAL_SIZE];
    data[0] = 0x32;
    let raw = raw_data(data, 0);
    assert_eq!(dec.classify(&raw), DataType::Stop);
}

#[test]
fn classify_start_signal_four_words() {
    let dec = Psd2Decoder::with_defaults();
    let mut data = vec![0u8; START_SIGNAL_SIZE];
    data[0] = 0x30;
    let raw = raw_data(data, 0);
    assert_eq!(dec.classify(&raw), DataType::Start);
}

#[test]
fn classify_avoid_false_positives_on_event_size() {
    let dec = Psd2Decoder::with_defaults();
    let mut data = vec![0u8; STOP_SIGNAL_SIZE];
    data[0] = 0x20;
    let raw = raw_data(data, 0);
    assert_eq!(dec.classify(&raw), DataType::Event);
}

// ---------------------------------------------------------------------------
// decode
// ---------------------------------------------------------------------------

#[test]
fn decode_single_event_basic() {
    let mut dec = Psd2Decoder::with_defaults();
    let bytes = build_aggregate(5, 1_000_000, 4242, 200);
    let raw = raw_data(bytes, 1);
    let mut events = Vec::new();
    dec.decode_into(&raw, &mut events);
    assert_eq!(events.len(), 1);
    let e = &events[0];
    assert_eq!(e.channel, 5);
    assert_eq!(e.energy, 4242);
    assert_eq!(e.fine_time, 200);
    assert_eq!(e.time, EventTime::Ticks { coarse: 1_000_000, fine: 200 });
    assert!((timestamp_ns(e) - 2_000_000.39).abs() < 1.0);
}

#[test]
fn decode_zero_event_aggregate_header_only() {
    let header = (0x2u64 << 60) | 1;
    let bytes = pack_be(&[header]);
    let mut dec = Psd2Decoder::with_defaults();
    let raw = raw_data(bytes, 0);
    let mut events = Vec::new();
    dec.decode_into(&raw, &mut events);
    assert!(events.is_empty());
}

#[test]
fn decode_invalid_header_type_drops_aggregate() {
    let mut data = vec![0u8; 24];
    data[0] = 0x10;
    let raw = raw_data(data, 0);
    let mut dec = Psd2Decoder::with_defaults();
    let events = dec.decode(&raw);
    assert!(events.is_empty());
}

#[test]
fn decode_start_signal_returns_no_events() {
    let mut dec = Psd2Decoder::with_defaults();
    let mut data = vec![0u8; START_SIGNAL_SIZE];
    data[0] = 0x30;
    let raw = raw_data(data, 0);
    assert!(dec.decode(&raw).is_empty());
}

#[test]
fn decode_stop_signal_returns_no_events() {
    let mut dec = Psd2Decoder::with_defaults();
    let mut data = vec![0u8; STOP_SIGNAL_SIZE];
    data[0] = 0x32;
    let raw = raw_data(data, 0);
    assert!(dec.decode(&raw).is_empty());
}

#[test]
fn decode_emits_module_id_from_config() {
    let mut dec = Psd2Decoder::new(Dig2Config { module_id: 13, dump_enabled: false, num_channels: 32 });
    let bytes = build_aggregate(0, 1000, 100, 0);
    let raw = raw_data(bytes, 1);
    let events = dec.decode(&raw);
    assert_eq!(events.len(), 1);
    assert_eq!(events[0].module, 13);
}

#[test]
fn decode_special_event_is_filtered() {
    let total_words: u64 = 3;
    let header = (0x2u64 << 60) | total_words;
    let evt_w1 = (7u64 << 56) | (1u64 << 55) | 1000;
    let evt_w2 = 1u64 << 63;
    let bytes = pack_be(&[header, evt_w1, evt_w2]);
    let raw = raw_data(bytes, 1);
    let mut dec = Psd2Decoder::with_defaults();
    assert!(dec.decode(&raw).is_empty());
}

#[test]
fn decode_single_word_compressed_event() {
    let total_words: u64 = 2;
    let header = (0x2u64 << 60) | total_words;
    let evt = (1u64 << 63) | (4u64 << 56) | (500u64 << 16) | 999;
    let bytes = pack_be(&[header, evt]);
    let raw = raw_data(bytes, 1);
    let mut dec = Psd2Decoder::with_defaults();
    let events = dec.decode(&raw);
    assert_eq!(events.len(), 1);
    let e = &events[0];
    assert_eq!(e.channel, 4);
    assert_eq!(e.energy, 999);
    assert_eq!(e.energy_short, 0);
    assert_eq!(e.fine_time, 0);
    assert!((timestamp_ns(e) - 1000.0).abs() < 0.001);
}

#[test]
fn dualchannel_common_decode_multiple_events_sorted_by_timestamp() {
    let total_words: u64 = 5;
    let header = (0x2u64 << 60) | total_words;
    let later_w1: u64 = 5000;
    let later_w2 = (1u64 << 63) | 200;
    let earlier_w1: u64 = 1000;
    let earlier_w2 = (1u64 << 63) | 100;
    let bytes = pack_be(&[header, later_w1, later_w2, earlier_w1, earlier_w2]);
    let raw = raw_data(bytes, 2);
    let mut dec = Psd2Decoder::with_defaults();
    let events = dec.decode(&raw);
    assert_eq!(events.len(), 2);
    assert!(timestamp_ns(&events[0]) < timestamp_ns(&events[1]));
    assert_eq!(events[0].energy, 100);
    assert_eq!(events[1].energy, 200);
}

#[test]
fn reset_for_new_run_clears_diagnostic_state() {
    let mut dec = Psd2Decoder::with_defaults();
    let bytes = build_aggregate(0, 1000, 100, 0);
    let raw = raw_data(bytes, 1);
    let _ = dec.decode(&raw);
    dec.reset_for_new_run();
    assert!(!dec.fault_dumped());
    assert!(!dec.fine_ts_clamp_warned());
    assert_eq!(dec.aggregate_counter(), 0);
}

#[test]
fn decode_into_replaces_previous_events() {
    let mut dec = Psd2Decoder::with_defaults();
    let raw = raw_data(build_aggregate(1, 10, 1, 0), 1);
    let mut events = dec.decode(&raw);
    events.extend(dec.decode(&raw));
    dec.decode_into(&raw, &mut events);
    assert_eq!(events.len(), 1);
}

#[test]
fn declared_size_larger_than_data_is_detected() {
    // Header claims 4 words but only 3 are present.
    let header = (0x2u64 << 60) | 4;
    let raw = raw_data(pack_be(&[header, 0, 1u64 << 63]), 1);
    assert!(!Psd2Decoder::declared_size_fits(&raw));
    let ok = raw_data(build_aggregate(0, 1, 1, 0), 1);
    assert!(Psd2Decoder::declared_size_fits(&ok));
}

#[test]
fn read_u64_big_endian() {
    let data: Vec<u8> = vec![0x01, 0x02, 0x03, 0x04, 0x05, 0x06, 0x07, 0x08];
    assert_eq!(read_u64(&data, 0), 0x0102_0304_0506_0708);
}

#[test]
fn read_u64_returns_zero_on_out_of_bounds() {
    let data: Vec<u8> = vec![0x01];
    assert_eq!(read_u64(&data, 5), 0);
}

// ---------------------------------------------------------------------------
// PSD2
// ---------------------------------------------------------------------------

#[test]
fn decode_energy_short_extracts_bits_41_26() {
    let word = 0x1234u64 << ENERGY_SHORT_SHIFT;
    assert_eq!(Psd2Variant::decode_energy_short(word), 0x1234);
}

#[test]
fn decode_energy_short_max_value_16_bit() {
    let word = 0xFFFFu64 << ENERGY_SHORT_SHIFT;
    assert_eq!(Psd2Variant::decode_energy_short(word), 0xFFFF);
}

#[test]
fn decode_energy_short_zero_when_slot_clear() {
    let word: u64 = 0xFFFF_FFFF & !(0xFFFFu64 << ENERGY_SHORT_SHIFT);
    assert_eq!(Psd2Variant::decode_energy_short(word), 0);
}

#[test]
fn parse_waveform_metadata_returns_unsigned_unknown_for_any_header() {
    let metadata = Psd2Variant::parse_waveform_metadata(0xFFFF_FFFF_FFFF_FFFF);
    assert!(!metadata.analog_probe1_is_signed);
    assert!(!metadata.analog_probe2_is_signed);
    assert_eq!(metadata.analog_probe_type[0], 0xFF);
    assert_eq!(metadata.analog_probe_type[1], 0xFF);
    for &dp in &metadata.digital_probe_type {
        assert_eq!(dp, 0xFF);
    }
}

#[test]
fn psd2_decoder_classifies_minimum_size_as_event() {
    let dec = Psd2Decoder::with_defaults();
    assert_eq!(dec.classify(&raw_data(vec![0u8; 16], 0)), DataType::Event);
}

#[test]
fn psd2_decoder_decode_smoke_carries_charge_short() {
    let mut dec = Psd2Decoder::new(Dig2Config { module_id: 11, dump_enabled: false, num_channels: 32 });
    let raw = raw_data(build_psd2_event(5, 1000, 4242, 567, 100), 1);
    let events = dec.decode(&raw);
    assert_eq!(events.len(), 1);
    let e = &events[0];
    assert_eq!(e.module, 11);
    assert_eq!(e.channel, 5);
    assert_eq!(e.energy, 4242);
    assert_eq!(e.energy_short, 567);
    assert_eq!(e.fine_time, 100);
}

#[test]
fn psd2_decoder_classifies_start_and_stop_signals() {
    let dec = Psd2Decoder::with_defaults();
    let mut start_data = vec![0u8; START_SIGNAL_SIZE];
    start_data[0] = 0x30;
    assert_eq!(dec.classify(&raw_data(start_data, 0)), DataType::Start);
    let mut stop_data = vec![0u8; STOP_SIGNAL_SIZE];
    stop_data[0] = 0x32;
    assert_eq!(dec.classify(&raw_data(stop_data, 0)), DataType::Stop);
}

#[test]
fn psd2_variant_fw_name_is_psd2() {
    assert_eq!(Psd2Variant::FW_NAME, "PSD2");
    assert_eq!(Psd2Variant::fw_name(), "PSD2");
}

// ---------------------------------------------------------------------------
// PHA2
// ---------------------------------------------------------------------------

#[test]
fn decode_energy_short_always_zero_regardless_of_word() {
    for word in [0u64, !0u64, 0xCAFE_BABE_DEAD_BEEF, 1u64 << 30] {
        assert_eq!(Pha2Variant::decode_energy_short(word), 0);
    }
}

#[test]
fn parse_metadata_unsigned_unsigned_when_low_bits_clear() {
    let m = Pha2Variant::parse_waveform_metadata(0u64);
    assert!(!m.analog_probe1_is_signed);
    assert!(!m.analog_probe2_is_signed);
    assert_eq!(m.analog_probe_type, [0, 0]);
    assert_eq!(m.digital_probe_type, [0, 0, 0, 0]);
}

#[test]
fn parse_metadata_picks_up_analog_probe_signed_flags() {
    let ap0_info: u64 = 0b001_001;
    let ap1_info: u64 = 0;
    let wf_hdr: u64 = (1u64 << 63) | (ap1_info << 6) | ap0_info;
    let m = Pha2Variant::parse_waveform_metadata(wf_hdr);
    assert!(m.analog_probe1_is_signed);
    assert!(!m.analog_probe2_is_signed);
    assert_eq!(m.analog_probe_type, [1, 0]);
}

fn digital_types_header() -> u64 {
    (1u64 << 63)
        | (3u64 << DIGITAL_PROBE3_INFO_SHIFT)
        | (2u64 << DIGITAL_PROBE2_INFO_SHIFT)
        | (1u64 << DIGITAL_PROBE1_INFO_SHIFT)
        | (0u64 << DIGITAL_PROBE0_INFO_SHIFT)
}

#[test]
fn parse_metadata_picks_up_digital_probe_types() {
    let m = Pha2Variant::parse_waveform_metadata(digital_types_header());
    assert_eq!(m.digital_probe_type, [0, 1, 2, 3]);
}

#[test]
fn analog_probe_is_signed_flag_is_parsed_from_wf_header() {
    let ap0_info: u64 = 0b001_001;
    let wf_hdr: u64 = (1u64 << 63) | ap0_info;
    let sample: u64 = 0x3fff_3fff_3fff_3fff;
    let agg_header = (0x2u64 << 60) | 6;
    let ev1_w2 = 1u64 << 62;
    let bytes = pack_be(&[agg_header, 0, ev1_w2, wf_hdr, 1, sample]);
    let mut dec = Pha2Decoder::with_defaults();
    let mut events = Vec::new();
    dec.decode_into(&raw_data(bytes, 1), &mut events);
    assert_eq!(events.len(), 1);
    let wf = events[0].waveform.as_ref().expect("waveform missing");
    assert!(wf.analog_probe1_is_signed);
    assert!(!wf.analog_probe2_is_signed);
    assert_eq!(wf.analog_probe1[0], -1);
    assert_eq!(wf.analog_probe2[0], 16383);
    assert_eq!(wf.analog_probe_type, [1, 0, UNKNOWN_PROBE_TYPE]);
}

#[test]
fn digital_probe_types_are_parsed_from_wf_header() {
    let agg_header = (0x2u64 << 60) | 6;
    let ev1_w2 = 1u64 << 62;
    let bytes = pack_be(&[agg_header, 0, ev1_w2, digital_types_header(), 1, 0]);
    let mut dec = Pha2Decoder::with_defaults();
    let mut events = Vec::new();
    dec.decode_into(&raw_data(bytes, 1), &mut events);
    assert_eq!(events.len(), 1);
    let wf = events[0].waveform.as_ref().expect("waveform missing");
    let mut expected = [UNKNOWN_PROBE_TYPE; 16];
    expected[0] = 0;
    expected[1] = 1;
    expected[2] = 2;
    expected[3] = 3;
    assert_eq!(wf.digital_probe_type, expected);
}

#[test]
fn dp4_set_in_sample_does_not_truncate_waveform() {
    let agg_header = (0x2u64 << 60) | 9;
    let ev1_w2 = (1u64 << 62) | (1u64 << 63);
    let baseline_sample: u64 = 0x0000_135C_0000_135C;
    let dp4_fluke_sample: u64 = 0x80f7_1fd6_00f7_1fdb;
    let words: Vec<u64> = vec![
        agg_header,
        10,
        ev1_w2,
        1u64 << 63,
        4,
        baseline_sample,
        dp4_fluke_sample,
        baseline_sample,
        baseline_sample,
    ];
    let mut dec = Pha2Decoder::with_defaults();
    let mut events = Vec::new();
    dec.decode_into(&raw_data(pack_be(&words), 1), &mut events);
    assert_eq!(events.len(), 1);
    let wf = events[0].waveform.as_ref().expect("waveform must be present");
    assert_eq!(wf.analog_probe1.len(), 8);
    assert_eq!(wf.digital_probe4[3], 1);
}

#[test]
fn classify_start_signal_real_bytes() {
    let bytes: Vec<u8> = vec![
        0x30, 0x00, 0x00, 0x03, 0x00, 0x00, 0x00, 0x04, 0x02, 0x00, 0x00, 0x00, 0x02, 0x00, 0x00,
        0x00, 0x01, 0x00, 0x00, 0x00, 0xff, 0xff, 0xff, 0xff, 0x01, 0x00, 0x00, 0x00, 0x00, 0x00,
        0x00, 0x00,
    ];
    let dec = Pha2Decoder::with_defaults();
    assert_eq!(dec.classify(&raw_data(bytes, 1)), DataType::Start);
}

#[test]
fn pha2_decoder_decode_smoke_zeroes_energy_short() {
    let mut dec = Pha2Decoder::new(Dig2Config { module_id: 9, dump_enabled: false, num_channels: 32 });
    let raw = raw_data(build_aggregate(5, 1_000_000, 4242, 200), 1);
    let mut events = Vec::new();
    dec.decode_into(&raw, &mut events);
    assert_eq!(events.len(), 1);
    let e = &events[0];
    assert_eq!(e.module, 9);
    assert_eq!(e.channel, 5);
    assert_eq!(e.energy, 4242);
    assert_eq!(e.energy_short, 0);
    assert_eq!(e.fine_time, 200);
}

#[test]
fn pha2_variant_fw_name_is_pha2() {
    assert_eq!(Pha2Variant::FW_NAME, "PHA2");
    assert_eq!(Pha2Variant::fw_name(), "PHA2");
}

#[test]
fn decoder_kind_dispatches_to_firmware_decoder() {
    let mut k = DecoderKind::Psd2(Psd2Decoder::with_defaults());
    let raw = raw_data(build_psd2_event(3, 10, 7, 5, 0), 1);
    assert_eq!(k.classify(&raw), DataType::Event);
    let mut events = vec![];
    k.decode_into(&raw, &mut events);
    assert_eq!(events.len(), 1);
    assert_eq!(events[0].energy_short, 5);
    k.reset_for_new_run();
    // AMax appends the base events
    let mut a = DecoderKind::AMax(AMaxDecoder::with_defaults());
    let word0: u64 = 1000;
    let word1: u64 = 42;
    let user: u64 = 1u64 << 63;
    let raw = RawData::new(pack_be(&[word0, word1, user, user]));
    let mut events = vec![];
    a.decode_into(&raw, &mut events);
    a.decode_into(&raw, &mut events);
    assert_eq!(events.len(), 2);
    assert_eq!(events[1].energy, 42);
}

#[test]
fn defaults_are_empty() {
    let e = EventData::default();
    assert_eq!(e.time, EventTime::Ticks { coarse: 0, fine: 0 });
    assert_eq!((e.module, e.channel, e.energy, e.energy_short, e.fine_time, e.flags), (0, 0, 0, 0, 0, 0));
    assert_eq!(e.user_info, [0; 4]);
    assert!(e.waveform.is_none());
    assert!(!e.has_pileup());
    let w = delila::reader::decoder::common::Waveform::default();
    assert!(w.analog_probe1.is_empty() && w.digital_probe16.is_empty());
    assert_eq!(w.analog_probe_type, [UNKNOWN_PROBE_TYPE; 3]);
    assert_eq!(w.digital_probe_type, [UNKNOWN_PROBE_TYPE; 16]);
}

#[test]
fn read_u64_returns_zero_for_any_huge_index() {
    let data: Vec<u8> = vec![0x01, 0x02, 0x03, 0x04, 0x05, 0x06, 0x07, 0x08];
    assert_eq!(read_u64(&data, usize::MAX), 0);
    assert_eq!(read_u64(&data, usize::MAX / 8), 0);
}
