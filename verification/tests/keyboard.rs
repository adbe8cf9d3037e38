use wwwvm::keyboard::Keyboard;
use wwwvm::IoDevice;


#[test]
fn data_port_drains_in_order() {
    let mut kbd = Keyboard::new();
    kbd.push_scancode(0x1E);
    kbd.push_scancode(0x9E);
    assert_eq!(kbd.read(Keyboard::DATA_PORT), 0x1E);
    assert_eq!(kbd.read(Keyboard::DATA_PORT), 0x9E);
    assert_eq!(kbd.read(Keyboard::DATA_PORT), 0); // empty
}

#[test]
fn status_port_reflects_buffer_state() {
    let mut kbd = Keyboard::new();
    assert_eq!(kbd.read(Keyboard::STATUS_PORT) & 1, 0);
    kbd.push_scancode(0x1C);
    assert_eq!(kbd.read(Keyboard::STATUS_PORT) & 1, 1);
    kbd.read(Keyboard::DATA_PORT);
    assert_eq!(kbd.read(Keyboard::STATUS_PORT) & 1, 0);
}

#[test]
fn irq_pending_tracks_queue() {
    let mut kbd = Keyboard::new();
    assert!(!kbd.irq_pending());
    kbd.push_scancode(1);
    assert!(kbd.irq_pending());
    kbd.read(Keyboard::DATA_PORT);
    assert!(!kbd.irq_pending());
}

#[test]
fn controller_self_test_returns_55() {
    let mut kbd = Keyboard::new();
    kbd.write(Keyboard::STATUS_PORT, 0xAA);
    assert_eq!(kbd.read(Keyboard::STATUS_PORT) & 1, 1);
    assert_eq!(kbd.read(Keyboard::DATA_PORT), 0x55);
    assert_eq!(kbd.read(Keyboard::STATUS_PORT) & 1, 0);
}

#[test]
fn first_port_test_returns_00() {
    let mut kbd = Keyboard::new();
    kbd.write(Keyboard::STATUS_PORT, 0xAB);
    assert_eq!(kbd.read(Keyboard::DATA_PORT), 0x00);
}

/// 0xA9 tests the second (aux/mouse) port. We now model a mouse, so
/// report 0x00 (OK) — telling Linux to proceed with aux init.
#[test]
fn second_port_test_returns_00() {
    let mut kbd = Keyboard::new();
    kbd.write(Keyboard::STATUS_PORT, 0xA9);
    assert_eq!(kbd.read(Keyboard::DATA_PORT), 0x00);
}

#[test]
fn command_response_takes_priority_over_scan_codes() {
    let mut kbd = Keyboard::new();
    kbd.push_scancode(0x1E);
    kbd.write(Keyboard::STATUS_PORT, 0xAA);
    assert_eq!(kbd.read(Keyboard::DATA_PORT), 0x55);
    assert_eq!(kbd.read(Keyboard::DATA_PORT), 0x1E);
}

/// Read-then-write of the controller config byte (CCB) — the exact
/// `0x20` / `0x60` round-trip Linux's i8042 init performs. The stub's
/// failure here was the "Can't read CTR" boot error.
#[test]
fn config_byte_read_write_round_trips() {
    let mut kbd = Keyboard::new();
    // Read current CCB (0x20) — must produce a reply byte.
    kbd.write(Keyboard::STATUS_PORT, 0x20);
    assert_eq!(
        kbd.read(Keyboard::STATUS_PORT) & 1,
        1,
        "OBF set for CCB read"
    );
    let ccb = kbd.read(Keyboard::DATA_PORT);
    assert_eq!(ccb & 0x01, 0x01, "default enables the keyboard interrupt");
    // Write a new CCB (0x60 + data) and read it back.
    kbd.write(Keyboard::STATUS_PORT, 0x60);
    kbd.write(Keyboard::DATA_PORT, 0x47);
    kbd.write(Keyboard::STATUS_PORT, 0x20);
    assert_eq!(kbd.read(Keyboard::DATA_PORT), 0x47);
}

/// Disabling the keyboard interrupt in the CCB (bit 0) suppresses
/// IRQ 1 even with a scan code waiting; re-enabling restores it.
#[test]
fn config_byte_gates_keyboard_irq() {
    let mut kbd = Keyboard::new();
    kbd.push_scancode(0x1E);
    assert!(kbd.irq_pending());
    // Clear bit 0.
    kbd.write(Keyboard::STATUS_PORT, 0x60);
    kbd.write(Keyboard::DATA_PORT, 0x00);
    assert!(!kbd.irq_pending(), "kbd int disabled");
    // Set bit 0 again.
    kbd.write(Keyboard::STATUS_PORT, 0x60);
    kbd.write(Keyboard::DATA_PORT, 0x01);
    assert!(kbd.irq_pending(), "kbd int re-enabled");
}

/// Disabling the keyboard port (0xAD) suppresses IRQ 1; 0xAE restores it.
#[test]
fn port_disable_suppresses_keyboard_irq() {
    let mut kbd = Keyboard::new();
    kbd.push_scancode(0x1E);
    kbd.write(Keyboard::STATUS_PORT, 0xAD); // disable kbd port
    assert!(!kbd.irq_pending());
    kbd.write(Keyboard::STATUS_PORT, 0xAE); // enable kbd port
    assert!(kbd.irq_pending());
}

/// Keyboard reset (0xFF) → ACK (0xFA) then BAT-OK (0xAA), which is the
/// sequence atkbd polls for when probing the keyboard.
#[test]
fn keyboard_reset_acks_then_bat() {
    let mut kbd = Keyboard::new();
    kbd.write(Keyboard::DATA_PORT, 0xFF);
    assert_eq!(kbd.read(Keyboard::DATA_PORT), 0xFA);
    assert_eq!(kbd.read(Keyboard::DATA_PORT), 0xAA);
}

/// Identify (0xF2) → ACK then the MF2 keyboard id 0xAB 0x83.
#[test]
fn keyboard_identify_returns_mf2_id() {
    let mut kbd = Keyboard::new();
    kbd.write(Keyboard::DATA_PORT, 0xF2);
    assert_eq!(kbd.read(Keyboard::DATA_PORT), 0xFA);
    assert_eq!(kbd.read(Keyboard::DATA_PORT), 0xAB);
    assert_eq!(kbd.read(Keyboard::DATA_PORT), 0x83);
}

/// Two-byte set-LEDs (0xED + bitmap) ACKs both bytes. The ACKs are
/// keyboard-sourced and raise IRQ 1 (with the keyboard interrupt
/// enabled) — `atkbd` waits for them via the interrupt, not by polling.
#[test]
fn keyboard_set_leds_acks_both_bytes() {
    let mut kbd = Keyboard::new();
    kbd.write(Keyboard::DATA_PORT, 0xED);
    assert_eq!(kbd.read(Keyboard::DATA_PORT), 0xFA);
    kbd.write(Keyboard::DATA_PORT, 0x02); // ScrollLock bitmap
    assert!(kbd.irq_pending(), "device ACK raises IRQ 1 for the driver");
    assert_eq!(kbd.read(Keyboard::DATA_PORT), 0xFA);
}

/// A full mouse bring-up: enable the aux port, reset, identify, enable
/// reporting — each device byte is aux-sourced (AUX-OBF set) and the
/// reset returns ACK / BAT / id.
#[test]
fn mouse_reset_identify_enable() {
    let mut kbd = Keyboard::new();
    kbd.write(Keyboard::STATUS_PORT, 0xA8); // enable aux port
                                            // Reset (0xD4 prefixes each aux byte).
    kbd.write(Keyboard::STATUS_PORT, 0xD4);
    kbd.write(Keyboard::DATA_PORT, 0xFF);
    assert_eq!(kbd.read(Keyboard::STATUS_PORT) & 0x20, 0x20, "AUX-OBF set");
    assert_eq!(kbd.read(Keyboard::DATA_PORT), 0xFA);
    assert_eq!(kbd.read(Keyboard::DATA_PORT), 0xAA);
    assert_eq!(kbd.read(Keyboard::DATA_PORT), 0x00);
    // Identify → ACK + id 0x00.
    kbd.write(Keyboard::STATUS_PORT, 0xD4);
    kbd.write(Keyboard::DATA_PORT, 0xF2);
    assert_eq!(kbd.read(Keyboard::DATA_PORT), 0xFA);
    assert_eq!(kbd.read(Keyboard::DATA_PORT), 0x00);
    // Enable reporting.
    kbd.write(Keyboard::STATUS_PORT, 0xD4);
    kbd.write(Keyboard::DATA_PORT, 0xF4);
    assert_eq!(kbd.read(Keyboard::DATA_PORT), 0xFA);
}

/// Set-sample-rate (0xF3 + rate) ACKs both bytes — the IntelliMouse
/// detection "knock" psmouse sends.
#[test]
fn mouse_set_sample_rate_acks_param() {
    let mut kbd = Keyboard::new();
    kbd.write(Keyboard::STATUS_PORT, 0xA8);
    kbd.write(Keyboard::STATUS_PORT, 0xD4);
    kbd.write(Keyboard::DATA_PORT, 0xF3);
    assert_eq!(kbd.read(Keyboard::DATA_PORT), 0xFA);
    kbd.write(Keyboard::STATUS_PORT, 0xD4);
    kbd.write(Keyboard::DATA_PORT, 0xC8); // 200 samples/s
    assert_eq!(kbd.read(Keyboard::DATA_PORT), 0xFA);
}

/// The AUX_LOOP test (0xD3 + byte) echoes the byte back as mouse data
/// (AUX-OBF set). i8042 uses this to detect the mouse port; without it
/// no aux serio port is created and psmouse can't bind. The keyboard
/// loopback (0xD2) echoes back as keyboard data.
#[test]
fn output_buffer_loopback_echoes_with_correct_source() {
    let mut kbd = Keyboard::new();
    kbd.write(Keyboard::STATUS_PORT, 0xD3); // AUX_LOOP
    kbd.write(Keyboard::DATA_PORT, 0x5A);
    assert_eq!(kbd.read(Keyboard::STATUS_PORT) & 0x20, 0x20, "AUX-OBF set");
    assert_eq!(kbd.read(Keyboard::DATA_PORT), 0x5A, "byte echoed back");
    kbd.write(Keyboard::STATUS_PORT, 0xD2); // KBD loopback
    kbd.write(Keyboard::DATA_PORT, 0x3C);
    assert_eq!(
        kbd.read(Keyboard::STATUS_PORT) & 0x20,
        0x00,
        "AUX-OBF clear"
    );
    assert_eq!(kbd.read(Keyboard::DATA_PORT), 0x3C);
}

/// An injected packet is dropped until reporting is enabled, then
/// delivered as 3 aux bytes that assert IRQ 12 (aux port enabled and
/// the aux interrupt enabled in the CCB).
#[test]
fn mouse_packet_gated_on_reporting_and_raises_irq12() {
    let mut kbd = Keyboard::new();
    // Silent before reporting is on.
    kbd.push_mouse_packet(5, -3, true, false, false);
    assert!(kbd.out.is_empty());
    // Enable aux port + aux interrupt + reporting.
    kbd.write(Keyboard::STATUS_PORT, 0xA8);
    kbd.write(Keyboard::STATUS_PORT, 0x60);
    kbd.write(
        Keyboard::DATA_PORT,
        Keyboard::CCB_KBD_INT | Keyboard::CCB_AUX_INT,
    );
    kbd.write(Keyboard::STATUS_PORT, 0xD4);
    kbd.write(Keyboard::DATA_PORT, 0xF4);
    assert_eq!(kbd.read(Keyboard::DATA_PORT), 0xFA); // drain the ACK
                                                     // Now a packet flows and raises IRQ 12.
    kbd.push_mouse_packet(5, -3, true, false, false);
    assert!(kbd.aux_irq_pending(), "mouse packet raises IRQ 12");
    let b0 = kbd.read(Keyboard::DATA_PORT);
    assert_eq!(b0 & 0x08, 0x08, "bit3 always set");
    assert_eq!(b0 & 0x01, 0x01, "left button");
    assert_eq!(b0 & 0x20, 0x20, "Y sign (negative dy)");
    assert_eq!(kbd.read(Keyboard::DATA_PORT), 5); // dx
    assert_eq!(kbd.read(Keyboard::DATA_PORT) as i8, -3); // dy
}

#[test]
fn snapshot_round_trip_preserves_scancode_queue_in_order() {
    let mut kbd = Keyboard::new();
    kbd.push_scancode(0x1E);
    kbd.push_scancode(0x9E);
    kbd.push_scancode(0x1C);

    let mut buf = Vec::new();
    kbd.snapshot_into(&mut buf);
    let mut kbd2 = Keyboard::new();
    let consumed = kbd2.restore(&buf).expect("restore");
    assert_eq!(consumed, 4 + 3, "header + 3 codes");

    assert_eq!(kbd2.read(Keyboard::DATA_PORT), 0x1E);
    assert_eq!(kbd2.read(Keyboard::DATA_PORT), 0x9E);
    assert_eq!(kbd2.read(Keyboard::DATA_PORT), 0x1C);
    assert_eq!(kbd2.read(Keyboard::DATA_PORT), 0);
}

#[test]
fn keyboard_restore_rejects_truncated_blob() {
    let mut kbd = Keyboard::new();
    assert!(kbd.restore(&[0u8; 3]).is_err(), "truncated header");
    let bad = [10u8, 0, 0, 0, 1, 2];
    assert!(kbd.restore(&bad).is_err(), "truncated queue");
}
