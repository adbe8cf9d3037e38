use wwwvm::pit::Pit;
use wwwvm::IoDevice;


#[test]
fn mode2_fires_periodic_edge_every_reload_ticks() {
    let mut pit = Pit::standard();
    // SC=0, RW=3, mode=2  → 0x34
    pit.write(0x43, 0x34);
    pit.write(0x40, 0x03);
    pit.write(0x40, 0x00);
    pit.tick(3);
    assert!(pit.take_ch0_pending());
    assert!(!pit.take_ch0_pending());
    pit.tick(3);
    assert!(pit.take_ch0_pending());
}

#[test]
fn mode0_oneshot_halts_after_first_terminal_count() {
    let mut pit = Pit::standard();
    // Mode 0 — 0x30
    pit.write(0x43, 0x30);
    pit.write(0x40, 0x02);
    pit.write(0x40, 0x00);
    pit.tick(2);
    assert!(pit.take_ch0_pending());
    pit.tick(100);
    assert!(!pit.take_ch0_pending());
}

/// Counter Latch Command (CW=0x00): the live counter is
/// snapshotted into the hold register so two-byte reads see
/// a consistent value even if `tick()` runs in between. This
/// is how Linux's PIT clocksource reads the counter.
#[test]
fn counter_latch_command_freezes_value_across_reads() {
    let mut pit = Pit::standard();
    // Mode 2, RW=3 — 0x34. Reload = 0xABCD.
    pit.write(0x43, 0x34);
    pit.write(0x40, 0xCD);
    pit.write(0x40, 0xAB);
    // Issue Counter Latch (SC=0, RW=0) — value to latch is 0xABCD.
    pit.write(0x43, 0x00);
    // Tick between the two reads — the latched value must NOT
    // change. (Pick a small N so we don't trip the terminal-
    // count edge case.)
    let lsb = pit.read(0x40);
    pit.tick(0x10);
    let msb = pit.read(0x40);
    assert_eq!(lsb, 0xCD, "latched LSB");
    assert_eq!(msb, 0xAB, "latched MSB (frozen despite tick)");
    // After the LSB+MSB pair the latch clears — subsequent
    // reads see the live counter (post-tick value, 0xABCD - 0x10
    // = 0xABBD).
    let live_lsb = pit.read(0x40);
    let live_msb = pit.read(0x40);
    assert_eq!(live_lsb, 0xBD);
    assert_eq!(live_msb, 0xAB);
}

/// A second Counter Latch issued while one is still pending is
/// ignored on real 8254s. We match that — otherwise a fast
/// re-latch loop could lose track of pending bytes.
#[test]
fn second_latch_during_pending_read_is_ignored() {
    let mut pit = Pit::standard();
    pit.write(0x43, 0x34);
    pit.write(0x40, 0xCD);
    pit.write(0x40, 0xAB);
    pit.write(0x43, 0x00); // first latch — value 0xABCD
    let _ = pit.read(0x40); // consume LSB
                            // Mutate the counter, then try to re-latch — should be ignored.
    pit.tick(0x100);
    pit.write(0x43, 0x00);
    let msb = pit.read(0x40);
    assert_eq!(msb, 0xAB, "second latch must not clobber first");
}

/// Latch state survives snapshot/restore — required so that a
/// VM snapshot taken mid-read sequence resumes cleanly.
#[test]
fn snapshot_roundtrip_preserves_latch_state() {
    let mut pit = Pit::standard();
    pit.write(0x43, 0x34);
    pit.write(0x40, 0x34);
    pit.write(0x40, 0x12);
    pit.write(0x43, 0x00); // latch 0x1234
    let _ = pit.read(0x40); // consume LSB, read_state=1
    let mut buf = Vec::new();
    pit.snapshot_into(&mut buf);
    assert_eq!(buf.len(), 12);

    let mut pit2 = Pit::standard();
    let consumed = pit2.restore(&buf).unwrap();
    assert_eq!(consumed, 12);
    // The remaining read should still return the latched MSB.
    assert_eq!(pit2.read(0x40), 0x12);
    // And after that the latch is cleared.
    assert!(pit2.ch0_latch.is_none());
}

/// Old 10-byte snapshots (pre-latch) restore as latch=None and
/// read_state=0. Keeps existing snapshots loadable.
#[test]
fn restore_legacy_10_byte_snapshot() {
    let mut pit = Pit::standard();
    // Synthesize the 10-byte payload directly.
    let legacy = [
        0x00, 0x01, // reload = 0x0100
        0x42, 0x00, 0x00, 0x00, // counter = 0x42
        0x02, // mode = 2
        0x01, // flags: running, no pending edge
        0x00, // write_state = 0
        0x00, // pending_lsb = 0
    ];
    let consumed = pit.restore(&legacy).unwrap();
    assert_eq!(consumed, 10);
    assert!(pit.ch0_latch.is_none());
    assert_eq!(pit.read_state, 0);
    assert_eq!(pit.ch0_reload, 0x0100);
    assert_eq!(pit.ch0_counter, 0x42);
}
