use delila::reader::decoder::amax::amax_probe_types::{
    ANA_RAW, ANA_TRAP, ANA_TRIANGLE, DIG_BL_HOLD, DIG_ENERGY_DV, DIG_SHAPING_DV, DIG_SHAPING_TRACK,
    DIG_TRIGGER_OUT,
};
use delila::reader::decoder::amax::constants::{
    FINE_TIME_SCALE, SPECIAL_EVENT_SHIFT, TIME_STEP_NS, USER_LAST_WORD_SHIFT, WAVEFORM_FLAG_SHIFT,
    WORD_SIZE,
};
use delila::reader::decoder::amax::{AMaxConfig, AMaxDecoder};
use delila::reader::decoder::common::{DataType, EventTime, RawData, UNKNOWN_PROBE_TYPE};

fn pack_be(words: &[u64]) -> Vec<u8> {
    words.iter().flat_map(|w| w.to_be_bytes()).collect()
}

#[test]
fn test_decoder_creation() {
    let decoder = AMaxDecoder::with_defaults();
    assert_eq!(decoder.config.module_id, 0);
    assert_eq!(decoder.config.num_channels, 1);
}

#[test]
fn test_decoder_with_config() {
    let config = AMaxConfig { module_id: 3, dump_enabled: true, num_channels: 1 };
    let decoder = AMaxDecoder::new(config);
    assert_eq!(decoder.config.module_id, 3);
    assert!(decoder.config.dump_enabled);
}

#[test]
fn set_dump_enabled_toggles_config_flag() {
    let mut decoder = AMaxDecoder::with_defaults();
    decoder.set_dump_enabled(true);
    assert!(decoder.config.dump_enabled);
    decoder.set_dump_enabled(false);
    assert!(!decoder.config.dump_enabled);
}

#[test]
fn test_classify_start_signal() {
    let decoder = AMaxDecoder::with_defaults();
    let start_data: [u8; 32] = [
        0x30, 0x00, 0x00, 0x03, 0x00, 0x00, 0x00, 0x04, 0x02, 0x00, 0x00, 0x00, 0x02, 0x00, 0x00,
        0x00, 0x01, 0x00, 0x00, 0x00, 0x00, 0x00, 0x00, 0x01, 0x01, 0x00, 0x00, 0x00, 0x00, 0x00,
        0x00, 0x00,
    ];
    let raw = RawData { data: start_data.to_vec(), size: 32, n_events: 1 };
    assert!(matches!(decoder.classify(&raw), DataType::Start));
}

#[test]
fn classify_stop_small_and_event() {
    let decoder = AMaxDecoder::with_defaults();
    let mut stop = vec![0u8; 24];
    stop[0] = 0x32;
    assert_eq!(decoder.classify(&RawData::new(stop)), DataType::Stop);
    assert_eq!(decoder.classify(&RawData::new(vec![0u8; 8])), DataType::Unknown);
    assert_eq!(decoder.classify(&RawData::new(vec![0u8; 32])), DataType::Event);
}

#[test]
fn test_read_u64_big_endian() {
    let decoder = AMaxDecoder::with_defaults();
    let data: [u8; 8] = [0x00, 0x01, 0x02, 0x03, 0x04, 0x05, 0x06, 0x07];
    assert_eq!(decoder.read_u64(&data, 0), 0x0001020304050607);
}

#[test]
fn test_timestamp_calculation() {
    let raw_timestamp: u64 = 1000;
    let fine_time: u16 = 512;
    let step = TIME_STEP_NS as f64;
    let coarse_ns = (raw_timestamp as f64) * step;
    let fine_ns = (fine_time as f64 / FINE_TIME_SCALE as f64) * step;
    let total_ns = coarse_ns + fine_ns;
    assert!((total_ns - 8004.0).abs() < 0.001);
}

#[test]
fn test_decode_event_structure() {
    let decoder = AMaxDecoder::with_defaults();
    let event_data: [u8; 32] = [
        0x00, 0x00, 0x00, 0x00, 0x00, 0x00, 0x03, 0xE8, 0x00, 0x00, 0x00, 0x32, 0x00, 0x64, 0x13,
        0x88, 0x00, 0x00, 0x00, 0x00, 0x00, 0x00, 0x03, 0xE8, 0x80, 0x00, 0x00, 0x00, 0x00, 0x00,
        0x01, 0xF4,
    ];
    let raw = RawData { data: event_data.to_vec(), size: 32, n_events: 1 };
    let events = decoder.decode(&raw);
    assert_eq!(events.len(), 1);
    assert_eq!(events[0].base.channel, 0);
}

#[test]
fn test_constants() {
    assert_eq!(WORD_SIZE, 8);
    assert_eq!(TIME_STEP_NS as f64, 8.0);
    assert_eq!(FINE_TIME_SCALE as f64, 1024.0);
}

#[test]
fn decode_event_legacy_path_unchanged_when_se_false() {
    let decoder = AMaxDecoder::with_defaults();
    let word0: u64 = 0x0000_0000_0001_2345;
    let word1: u64 = (1u64 << WAVEFORM_FLAG_SHIFT) | 42;
    let wave_hdr: u64 = 1;
    let wave_word: u64 = (4u64 << 48) | (3u64 << 32) | (2u64 << 16) | 1u64;
    let user_word: u64 = (1u64 << USER_LAST_WORD_SHIFT) | 0xABCD;
    let mut raw = RawData::new(pack_be(&[word0, word1, user_word, wave_hdr, wave_word]));
    raw.n_events = 1;
    let events = decoder.decode(&raw);
    assert_eq!(events.len(), 1);
    let event = &events[0];
    assert_eq!(event.base.channel, 0);
    assert_eq!(event.base.energy, 42);
    assert_eq!(event.base.time, EventTime::Ticks { coarse: 0x12345, fine: 0 });
    let wf = event.base.waveform.as_ref().expect("waveform expected");
    assert_eq!(wf.analog_probe1, vec![1i16, 2, 3, 4]);
    assert!(wf.analog_probe2.is_empty());
    assert!(wf.analog_probe3.is_empty());
    assert!(wf.digital_probe1.is_empty());
    assert!(wf.digital_probe2.is_empty());
    assert!(wf.digital_probe3.is_empty());
    assert!(wf.digital_probe4.is_empty());
    assert!(wf.digital_probe5.is_empty());
    assert!(!wf.analog_probe1_is_signed);
    assert_eq!(wf.analog_probe_type, [UNKNOWN_PROBE_TYPE; 3]);
    assert_eq!(wf.digital_probe_type, [UNKNOWN_PROBE_TYPE; 16]);
}

#[test]
fn decode_event_debug_path_when_se_true() {
    let decoder = AMaxDecoder::with_defaults();
    let word0: u64 = (1u64 << SPECIAL_EVENT_SHIFT) | 0x0001_2345;
    let word1: u64 = (1u64 << WAVEFORM_FLAG_SHIFT) | 42;
    let wave_hdr: u64 = 1;
    let wave_word: u64 = (0xF800u64 << 48) | (0x0506u64 << 32) | (0x0304u64 << 16) | 0x0102u64;
    let user_word: u64 = (1u64 << USER_LAST_WORD_SHIFT) | 0xABCD;
    let mut raw = RawData::new(pack_be(&[word0, word1, user_word, wave_hdr, wave_word]));
    raw.n_events = 1;
    let events = decoder.decode(&raw);
    assert_eq!(events.len(), 1);
    let event = &events[0];
    assert_eq!(event.base.channel, 0);
    assert_eq!(event.base.energy, 42);
    let wf = event.base.waveform.as_ref().expect("waveform expected");
    assert_eq!(wf.analog_probe1, vec![0x0102i16]);
    assert_eq!(wf.analog_probe2, vec![0x0304i16]);
    assert_eq!(wf.analog_probe3, vec![0x0506i16]);
    assert_eq!(wf.digital_probe1, vec![1u8]);
    assert_eq!(wf.digital_probe2, vec![1u8]);
    assert_eq!(wf.digital_probe3, vec![1u8]);
    assert_eq!(wf.digital_probe4, vec![1u8]);
    assert_eq!(wf.digital_probe5, vec![1u8]);
    assert!(wf.analog_probe1_is_signed);
    assert!(wf.analog_probe2_is_signed);
    assert!(wf.analog_probe3_is_signed);
    assert_eq!(wf.analog_probe_type, [ANA_RAW, ANA_TRAP, ANA_TRIANGLE]);
    let mut expected = [UNKNOWN_PROBE_TYPE; 16];
    expected[0] = DIG_TRIGGER_OUT;
    expected[1] = DIG_BL_HOLD;
    expected[2] = DIG_ENERGY_DV;
    expected[3] = DIG_SHAPING_DV;
    expected[4] = DIG_SHAPING_TRACK;
    assert_eq!(wf.digital_probe_type, expected);
}

#[test]
fn decode_debug_waveform_bit_unpack_per_signal() {
    let decoder = AMaxDecoder::with_defaults();
    let word0: u64 = (1u64 << SPECIAL_EVENT_SHIFT) | 0x0001_2345;
    let word1: u64 = (1u64 << WAVEFORM_FLAG_SHIFT) | 42;
    let wave_hdr: u64 = 5;
    let lane3_per_sample: [u64; 5] = [0x8000, 0x4000, 0x2000, 0x1000, 0x0800];
    let user_word: u64 = (1u64 << USER_LAST_WORD_SHIFT) | 0xABCD;
    let mut all_words = vec![word0, word1, user_word, wave_hdr];
    for dig in lane3_per_sample.iter() {
        all_words.push((dig & 0xFFFF) << 48);
    }
    let mut raw = RawData::new(pack_be(&all_words));
    raw.n_events = 1;
    let events = decoder.decode(&raw);
    assert_eq!(events.len(), 1);
    let wf = events[0].base.waveform.as_ref().expect("waveform expected");
    assert_eq!(wf.digital_probe1, vec![1u8, 0, 0, 0, 0]);
    assert_eq!(wf.digital_probe2, vec![0u8, 1, 0, 0, 0]);
    assert_eq!(wf.digital_probe3, vec![0u8, 0, 1, 0, 0]);
    assert_eq!(wf.digital_probe4, vec![0u8, 0, 0, 1, 0]);
    assert_eq!(wf.digital_probe5, vec![0u8, 0, 0, 0, 1]);
    assert_eq!(wf.analog_probe1, vec![0i16; 5]);
    assert_eq!(wf.analog_probe2, vec![0i16; 5]);
    assert_eq!(wf.analog_probe3, vec![0i16; 5]);
}

#[test]
fn start_and_stop_yield_no_events() {
    let decoder = AMaxDecoder::with_defaults();
    let mut start = vec![0u8; 32];
    start[0] = 0x30;
    assert!(decoder.decode(&RawData::new(start)).is_empty());
    let mut stop = vec![0u8; 24];
    stop[0] = 0x32;
    assert!(decoder.decode(&RawData::new(stop)).is_empty());
}

#[test]
fn zero_user_words_give_no_amax_value_and_no_baseline() {
    let decoder = AMaxDecoder::with_defaults();
    let word0: u64 = 0x0000_0000_0000_0100;
    let word1: u64 = 7;
    let user0: u64 = 0;
    let user1: u64 = 1u64 << USER_LAST_WORD_SHIFT;
    let raw = RawData::new(pack_be(&[word0, word1, user0, user1]));
    let events = decoder.decode(&raw);
    assert_eq!(events.len(), 1);
    assert_eq!(events[0].amax_value, None);
    assert_eq!(events[0].baseline, None);
}

#[test]
fn baseline_alone_is_reported_without_amax_value() {
    let decoder = AMaxDecoder::with_defaults();
    let word0: u64 = 0x0000_0000_0000_0100;
    let word1: u64 = 7;
    let user0: u64 = 0;
    let user1: u64 = (1u64 << USER_LAST_WORD_SHIFT) | 500;
    let raw = RawData::new(pack_be(&[word0, word1, user0, user1]));
    let events = decoder.decode(&raw);
    assert_eq!(events.len(), 1);
    assert_eq!(events[0].amax_value, None);
    assert_eq!(events[0].baseline, Some(500));
}
