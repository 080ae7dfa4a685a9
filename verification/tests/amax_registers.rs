use delila::reader::caen::amax_registers::{
    channel_register_byte_addr, REG_SELECTOR_WAVE, REG_PRETRIGGER_INPUT, REG_POLARITY, REG_OFFSET, REG_THRS, REG_TRIG_K, REG_TRIG_M, REG_TRAP_K, REG_TRAP_M, REG_DECONV_M, REG_TRAP_GAIN, REG_BL_LEN, REG_BL_INIB, REG_SAMPLE_POS, REG_RUN_CFG, REG_AMAX_WINDOW, REG_AMAX_DELAY, REG_WINDOW_MAXIM, REG_AMAX_LEN, REG_BASELINE_DELAY, REG_BASELINE_LEN, REG_BASELINE_OFFSET, REG_PRETRIGGER_TRAP, REG_PRETRIGGER_AMAX,
};

#[test]
fn channel_register_byte_addr_matches_fw_table() {
    // Channel 0
    assert_eq!(channel_register_byte_addr(0, REG_SELECTOR_WAVE), 0x2000000);
    assert_eq!(channel_register_byte_addr(0, REG_POLARITY), 0x2000008);
    assert_eq!(channel_register_byte_addr(0, REG_THRS), 0x2000010);
    assert_eq!(channel_register_byte_addr(0, REG_PRETRIGGER_AMAX), 0x2000080);

    // Channel 1: page stride = 0x40000 words = 0x100000 bytes
    assert_eq!(channel_register_byte_addr(1, REG_POLARITY), 0x2100008);
    assert_eq!(channel_register_byte_addr(1, REG_PRETRIGGER_AMAX), 0x2100080);

    // Channel 31: linear extrapolation
    assert_eq!(channel_register_byte_addr(31, REG_POLARITY), 0x3F00008);
}

#[test]
fn register_offsets_are_distinct() {
    let offsets = [
        REG_SELECTOR_WAVE,
        REG_PRETRIGGER_INPUT,
        REG_POLARITY,
        REG_OFFSET,
        REG_THRS,
        REG_TRIG_K,
        REG_TRIG_M,
        REG_TRAP_K,
        REG_TRAP_M,
        REG_DECONV_M,
        REG_TRAP_GAIN,
        REG_BL_LEN,
        REG_BL_INIB,
        REG_SAMPLE_POS,
        REG_RUN_CFG,
        REG_AMAX_WINDOW,
        REG_AMAX_DELAY,
        REG_WINDOW_MAXIM,
        REG_AMAX_LEN,
        REG_BASELINE_DELAY,
        REG_BASELINE_LEN,
        REG_BASELINE_OFFSET,
        REG_PRETRIGGER_TRAP,
        REG_PRETRIGGER_AMAX,
    ];
    let mut sorted = offsets.to_vec();
    sorted.sort_unstable();
    sorted.dedup();
    assert_eq!(sorted.len(), offsets.len(), "duplicate register offset");
}

#[test]
fn register_page_formula_on_last_channel() {
    // (0x800000 + 255 * 0x40000 + 0x20) * 4
    assert_eq!(channel_register_byte_addr(255, REG_PRETRIGGER_AMAX), 0x11F0_0080);
}
