use delila::reader::decoder::rollover::{RolloverError, RolloverTracker};

#[test]
fn t1_monotonic_advance() {
    let mut t = RolloverTracker::new(40);
    assert_eq!(t.extend(10).unwrap(), 10);
    assert_eq!(t.extend(20).unwrap(), 20);
    assert_eq!(t.extend(30).unwrap(), 30);
    assert_eq!(t.rollover_count(), 0);
}

#[test]
fn t2_clean_rollover() {
    const BITS: u8 = 40;
    let max: u64 = (1u64 << BITS) - 1;
    let mut t = RolloverTracker::new(BITS);
    assert_eq!(t.extend(max - 5).unwrap(), max - 5);
    assert_eq!(t.extend(max).unwrap(), max);
    assert_eq!(t.extend(5).unwrap(), (1u64 << BITS) | 5);
    assert_eq!(t.extend(10).unwrap(), (1u64 << BITS) | 10);
    assert_eq!(t.rollover_count(), 1);
}

#[test]
fn t3_micro_jitter_before_any_rollover_errors() {
    let mut t = RolloverTracker::new(40);
    assert_eq!(t.extend(10).unwrap(), 10);
    assert!(matches!(t.extend(8), Err(RolloverError::Underflow { raw: 8 })));
}

#[test]
fn t3b_micro_jitter_after_rollover() {
    const BITS: u8 = 40;
    let max: u64 = (1u64 << BITS) - 1;
    let mut t = RolloverTracker::new(BITS);
    assert_eq!(t.extend(max - 2).unwrap(), max - 2);
    assert_eq!(t.extend(2).unwrap(), (1u64 << BITS) | 2);
    assert_eq!(t.extend(max - 1).unwrap(), max - 1);
    assert_eq!(t.rollover_count(), 1);
    assert_eq!(t.extend(5).unwrap(), (1u64 << BITS) | 5);
}

#[test]
fn t4_rollover_with_late_arrival() {
    const BITS: u8 = 40;
    let max: u64 = (1u64 << BITS) - 1;
    let mut t = RolloverTracker::new(BITS);
    assert_eq!(t.extend(max - 2).unwrap(), max - 2);
    assert_eq!(t.extend(2).unwrap(), (1u64 << BITS) | 2);
    assert_eq!(t.extend(max - 1).unwrap(), max - 1);
    assert_eq!(t.extend(5).unwrap(), (1u64 << BITS) | 5);
    assert_eq!(t.rollover_count(), 1);
}

#[test]
fn t5_huge_gap_is_classified_as_late_arrival_by_design() {
    const BITS: u8 = 40;
    let max: u64 = (1u64 << BITS) - 1;
    let mut t = RolloverTracker::new(BITS);
    assert_eq!(t.extend(5).unwrap(), 5);
    assert!(matches!(t.extend(max - 5), Err(RolloverError::Underflow { .. })));
}

#[test]
fn t6_garbage_upper_bits_masked() {
    let mut t = RolloverTracker::new(40);
    assert_eq!(t.extend(5).unwrap(), 5);
    let garbage = (1u64 << 42) | 10;
    assert_eq!(t.extend(garbage).unwrap(), 10);
}

#[test]
fn t7_initial_underflow() {
    let mut t = RolloverTracker::new(16);
    assert_eq!(t.extend(100).unwrap(), 100);
    assert!(matches!(t.extend(50), Err(RolloverError::Underflow { raw: 50 })));
    assert_eq!(t.rollover_count(), 0);
    assert_eq!(t.extend(200).unwrap(), 200);
}

#[test]
fn t8_reset_clears_state() {
    const BITS: u8 = 40;
    let max = (1u64 << BITS) - 1;
    let mut t = RolloverTracker::new(BITS);
    assert_eq!(t.extend(max - 5).unwrap(), max - 5);
    assert_eq!(t.extend(5).unwrap(), (1u64 << BITS) | 5);
    assert_eq!(t.rollover_count(), 1);
    t.reset();
    assert_eq!(t.rollover_count(), 0);
    assert_eq!(t.extend(10).unwrap(), 10);
    assert_eq!(t.extend(20).unwrap(), 20);
}

#[test]
fn bits_accessor_matches_constructor() {
    let t = RolloverTracker::new(40);
    assert_eq!(t.bits(), 40);
    assert_eq!(RolloverTracker::new(32).bits(), 32);
}

#[test]
fn extend_handles_repeated_identical_values() {
    let mut t = RolloverTracker::new(40);
    assert_eq!(t.extend(42).unwrap(), 42);
    assert_eq!(t.extend(42).unwrap(), 42);
    assert_eq!(t.rollover_count(), 0);
}

#[test]
fn subcounter_trivial_identity_when_widths_match() {
    let t = RolloverTracker::new(32);
    let ext = (3u64 << 32) | 0x1234_5678;
    assert_eq!(t.reconstruct_subcounter(ext, 0x1234_5678, 32), ext);
}

#[test]
fn subcounter_31bit_same_epoch() {
    let t = RolloverTracker::new(32);
    let ext = (5u64 << 32) | 0x4000_0000;
    let r = t.reconstruct_subcounter(ext, 0x3FFF_F000, 31);
    assert_eq!(r, (5u64 << 32) | 0x3FFF_F000);
}

#[test]
fn subcounter_31bit_wraps_back_one_epoch() {
    let t = RolloverTracker::new(32);
    let r = t.reconstruct_subcounter(0x1000_0000, 0x7FFF_0000, 31);
    assert_eq!(r as i64, 0x7FFF_0000_i64 - (1i64 << 31));
}

#[test]
fn clone_keeps_state() {
    let mut t = RolloverTracker::new(16);
    t.extend(0xFFF0).unwrap();
    t.extend(5).unwrap();
    let mut c = t.clone();
    assert_eq!(c.rollover_count(), 1);
    assert_eq!(c.bits(), 16);
    assert_eq!(c.extend(6).unwrap(), t.extend(6).unwrap());
}

#[test]
fn extend_is_monotonic_for_forward_steps() {
    for bits in [16u8, 20, 40] {
        let mut tracker = RolloverTracker::new(bits);
        let mask = (1u64 << bits) - 1;
        let mut absolute = 0u64;
        let mut last_abs = 0u64;
        for i in 0..5000u64 {
            absolute += (i * 7919) % 1000;
            let got = tracker.extend(absolute & mask).unwrap();
            assert!(got >= last_abs);
            assert_eq!(got, absolute);
            last_abs = got;
        }
    }
}

#[test]
fn extend_preserves_low_bits_on_first_call() {
    for bits in [8u8, 16, 31, 40] {
        let mask = (1u64 << bits) - 1;
        for raw in [0u64, 1, 0xDEAD_BEEF_CAFE_F00D, u64::MAX] {
            let mut t = RolloverTracker::new(bits);
            let got = t.extend(raw).unwrap();
            assert_eq!(got & mask, raw & mask);
            t.reset();
            assert_eq!(t.rollover_count(), 0);
            assert_eq!(t.extend(raw).unwrap(), raw & mask);
        }
    }
}

#[test]
fn subcounter_does_not_exceed_extended_when_extended_is_large() {
    let t = RolloverTracker::new(48);
    for sub_bits in [8u8, 31, 32, 48] {
        for ext in [1u64 << 48, (1u64 << 48) + 12345, u64::MAX >> 4] {
            for sub in [0u64, 7, 0xFFFF_FFFF_FFFF] {
                assert!(t.reconstruct_subcounter(ext, sub, sub_bits) <= ext);
            }
        }
    }
}
