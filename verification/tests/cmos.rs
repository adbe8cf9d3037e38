use wwwvm::cmos::{reg, Cmos};
use wwwvm::IoDevice;


#[test]
fn default_status_b_is_bcd_24h() {
    let cmos = Cmos::new();
    let sb = cmos.storage_byte(reg::STATUS_B);
    assert_eq!(sb & 0x04, 0x00, "DM bit clear = BCD format");
    assert_eq!(sb & 0x02, 0x02, "24h bit");
}

#[test]
fn default_status_d_signals_battery_good() {
    let cmos = Cmos::new();
    assert_eq!(cmos.storage_byte(reg::STATUS_D), 0x80);
}

#[test]
fn index_then_data_round_trip() {
    let mut cmos = Cmos::new();
    cmos.write(0x70, reg::SECONDS);
    assert_eq!(cmos.read(0x71), 0);
    cmos.write(0x71, 42);
    assert_eq!(cmos.read(0x71), 42);
    // Reading again still returns the latched value — there's no
    // auto-increment on real RTCs.
    assert_eq!(cmos.read(0x71), 42);
}

#[test]
fn set_time_updates_register_bytes() {
    let mut cmos = Cmos::new();
    cmos.set_time(26, 5, 27, 12, 34, 56);
    // Registers are BCD: 12 -> 0x12, 34 -> 0x34, etc.
    cmos.write(0x70, reg::HOURS);
    assert_eq!(cmos.read(0x71), 0x12);
    cmos.write(0x70, reg::MINUTES);
    assert_eq!(cmos.read(0x71), 0x34);
    cmos.write(0x70, reg::SECONDS);
    assert_eq!(cmos.read(0x71), 0x56);
    cmos.write(0x70, reg::DAY_OF_MONTH);
    assert_eq!(cmos.read(0x71), 0x27);
    cmos.write(0x70, reg::MONTH);
    assert_eq!(cmos.read(0x71), 0x05);
    cmos.write(0x70, reg::YEAR);
    assert_eq!(cmos.read(0x71), 0x26);
}

#[test]
fn nmi_mask_bit_is_stripped_from_index() {
    let mut cmos = Cmos::new();
    // Write index 0x80 | SECONDS — bit 7 should be ignored.
    cmos.write(0x70, 0x80 | reg::SECONDS);
    cmos.set_storage_byte(reg::SECONDS, 7);
    assert_eq!(cmos.read(0x71), 7);
}

/// snapshot/restore must round-trip both the latched index
/// (so a guest mid-INDEX-then-DATA sequence resumes at the
/// right register) and the full 128-byte storage backing
/// store. Without index round-trip, a snapshot taken between
/// `out 0x70, X` and `in al, 0x71` would resume reading the
/// wrong register on the other side.
#[test]
fn snapshot_round_trip_preserves_index_and_storage() {
    let mut cmos = Cmos::new();
    cmos.set_time(26, 5, 27, 8, 15, 30);
    // Park the index latch at a non-default register so we
    // know the round-trip actually carries it.
    cmos.write(0x70, reg::MINUTES);
    // Sentinel write into a non-time scratch register too.
    cmos.write(0x70, 0x40);
    cmos.write(0x71, 0xAB);
    // And finally re-park the index at SECONDS so we can
    // check both halves: index latch AND storage contents.
    cmos.write(0x70, reg::SECONDS);

    let mut buf = Vec::new();
    cmos.snapshot_into(&mut buf);
    let mut cmos2 = Cmos::new();
    let consumed = cmos2.restore(&buf).expect("restore");
    assert_eq!(consumed, 1 + 128);

    // Index round-tripped.
    assert_eq!(cmos2.read(0x71), cmos.read(0x71), "index latch");
    // Time bytes round-tripped through storage (BCD: 30 -> 0x30, …).
    assert_eq!(cmos2.storage_byte(reg::SECONDS), 0x30);
    assert_eq!(cmos2.storage_byte(reg::MINUTES), 0x15);
    assert_eq!(cmos2.storage_byte(reg::HOURS), 0x08);
    // Scratch register round-tripped too.
    assert_eq!(cmos2.storage_byte(0x40), 0xAB);
}

/// restore must reject a truncated blob rather than panic on
/// the slice access. Boundary: 128 bytes alone is too short
/// (index byte missing).
#[test]
fn cmos_restore_rejects_truncated_blob() {
    let mut cmos = Cmos::new();
    let err = cmos.restore(&[0u8; 128]).unwrap_err();
    assert!(err.contains("truncated"));
}

/// A malicious snapshot must not be able to set the index >= 128 and then
/// OOB-panic the [u8; 128] storage on the next port-0x71 access.
#[test]
fn restore_masks_index_to_storage_bounds() {
    let mut cmos = Cmos::new();
    let mut blob = vec![0u8; 1 + 128];
    blob[0] = 0xFF; // crafted: index past storage
    cmos.restore(&blob).expect("restore");
    assert!(cmos.index < 128, "index must be masked into 0..127");
    // And a data-port read must not panic.
    let _ = cmos.read(cmos.data_port);
}
