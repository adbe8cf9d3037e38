use wwwvm::mem::{Memory, HPET_BASE, LAPIC_BASE};


#[test]
fn read_write_byte_round_trip() {
    let mut m = Memory::new(64);
    m.write_u8(10, 0xAB);
    assert_eq!(m.read_u8(10), 0xAB);
}

#[test]
fn word_is_little_endian() {
    let mut m = Memory::new(64);
    m.write_u16(0, 0xBEEF);
    assert_eq!(m.read_u8(0), 0xEF);
    assert_eq!(m.read_u8(1), 0xBE);
    assert_eq!(m.read_u16(0), 0xBEEF);
}

#[test]
fn out_of_range_read_returns_zero_write_is_noop() {
    let mut m = Memory::new(16);
    m.write_u8(100, 0xFF);
    assert_eq!(m.read_u8(100), 0);
}

#[test]
fn write_slice_clips_at_boundary() {
    let mut m = Memory::new(8);
    m.write_slice(6, &[1, 2, 3, 4]);
    assert_eq!(m.read_u8(6), 1);
    assert_eq!(m.read_u8(7), 2);
}

#[test]
fn restore_full_round_trips() {
    let mut m = Memory::new(16);
    m.write_u8(0, 0xAA);
    let snap = m.as_slice().to_vec();
    let mut m2 = Memory::new(16);
    m2.restore_full(&snap).unwrap();
    assert_eq!(m2.read_u8(0), 0xAA);
}

#[test]
fn lapic_version_register_reads_as_canonical_value() {
    // Offset 0x030 — low byte version 0x14, bits 16..23 max LVT
    // count = 6. As a little-endian u32: 0x0006_0014.
    let m = Memory::new(64);
    assert_eq!(m.read_u32(LAPIC_BASE + 0x30), 0x0006_0014);
    // ID register at 0x020 = 0 (the BSP).
    assert_eq!(m.read_u32(LAPIC_BASE + 0x20), 0);
}

#[test]
fn lapic_writes_round_trip_through_the_scratch_window() {
    // The Spurious Interrupt Vector at offset 0x0F0 is the
    // canonical read-after-write register Linux probes — if
    // it doesn't return the written value, the kernel decides
    // the LAPIC is broken and falls back.
    let mut m = Memory::new(64);
    m.write_u32(LAPIC_BASE + 0xF0, 0x0000_010F); // enable + vector 0x0F
    assert_eq!(m.read_u32(LAPIC_BASE + 0xF0), 0x0000_010F);
}

#[test]
fn hpet_general_caps_register_reads_as_canonical_value() {
    let m = Memory::new(64);
    // Low dword: 0x8086_A201 — REV_ID 1, 3 timers, 64-bit
    // counter, LEG_RT supported, vendor 0x8086.
    assert_eq!(m.read_u32(HPET_BASE), 0x8086_A201);
    // High dword: 100 ns counter period in femtoseconds.
    assert_eq!(m.read_u32(HPET_BASE + 0x04), 0x05F5_E100);
}

#[test]
fn hpet_writes_round_trip_through_scratch() {
    let mut m = Memory::new(64);
    // Main counter at offset 0x0F0 (writable when timer is off).
    m.write_u32(HPET_BASE + 0xF0, 0xDEAD_BEEF);
    assert_eq!(m.read_u32(HPET_BASE + 0xF0), 0xDEAD_BEEF);
}

#[test]
fn lapic_window_does_not_steal_from_low_dram() {
    // Confirm a normal RAM write at 0x1000 still goes to DRAM
    // (the LAPIC check uses wrapping_sub so an address far below
    // LAPIC_BASE doesn't accidentally land in the LAPIC array).
    let mut m = Memory::new(0x4000);
    m.write_u32(0x1000, 0xDEAD_BEEF);
    assert_eq!(m.read_u32(0x1000), 0xDEAD_BEEF);
}

#[test]
fn restore_full_rejects_size_mismatch() {
    let mut m = Memory::new(16);
    let err = m.restore_full(&[0u8; 8]).unwrap_err();
    assert_eq!(err, 16);
}
