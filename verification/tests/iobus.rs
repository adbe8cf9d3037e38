use wwwvm::{IoBus, Keyboard, Uart};
use wwwvm::{cmos_reg, IoDevice};


#[test]
fn ata_state_round_trips_through_snapshot_and_restore() {
    let mut bus = IoBus::new();
    // Drive both ATA channels into recognisable mid-transfer
    // states: primary has issued IDENTIFY (DRQ up, buf full of
    // the IDENTIFY block); secondary has set LBA registers but
    // not yet issued a command.
    bus.ata.disk.load(&[0xAA; 1024]);
    bus.write(0x1F7, 0xEC); // IDENTIFY on primary
    bus.write(0x172, 5); // sector count = 5 on secondary
    bus.write(0x173, 0x42); // LBA low
    bus.write(0x174, 0x84); // LBA mid
    bus.write(0x176, 0x4F); // drive/head: LBA mode + bits
    let blob = bus.snapshot();
    // Restore into a fresh IoBus.
    let mut bus2 = IoBus::new();
    bus2.restore(&blob).expect("restore");
    // Primary's DRQ is still up and the very next read at 0x1F0
    // returns the first byte of the IDENTIFY block (0x40 = the
    // "ATA, non-removable" signature low byte).
    assert!(bus2.ata.read_alt_status() & 0x08 != 0, "DRQ");
    assert_eq!(bus2.read(0x1F0), 0x40);
    // Secondary's latched registers survived.
    assert_eq!(bus2.read(0x172), 5);
    assert_eq!(bus2.read(0x173), 0x42);
    assert_eq!(bus2.read(0x174), 0x84);
    assert_eq!(bus2.read(0x176), 0x4F);
}

#[test]
fn pci_address_latch_round_trips_through_snapshot() {
    let mut bus = IoBus::new();
    // Write a non-default address (enable + bus 1 / dev 2 / reg
    // 0x10) byte-by-byte.
    let addr: u32 = 0x8001_1010;
    for i in 0..4u16 {
        bus.write(0xCF8 + i, (addr >> (i * 8)) as u8);
    }
    let blob = bus.snapshot();
    let mut bus2 = IoBus::new();
    bus2.restore(&blob).expect("restore");
    // Read the four address bytes back via the port path.
    let mut got = 0u32;
    for i in 0..4u16 {
        got |= (bus2.read(0xCF8 + i) as u32) << (i * 8);
    }
    assert_eq!(got, addr);
}

/// Forward-compat: a snapshot created by an old build that only
/// knew 6 devices must still restore on this version (the new
/// ATA/PCI records simply aren't present; defaults take over).
#[test]
fn old_six_device_snapshot_restores_with_defaults_for_new_devices() {
    // Hand-build an old-shape blob: count=6 + the existing six
    // records. Easiest path: snapshot the current IoBus, then
    // truncate after the 6th record. The fixed 1-byte count is
    // the entry point.
    let bus = IoBus::new();
    let full = bus.snapshot();
    let mut old = Vec::with_capacity(full.len());
    old.push(6u8);
    // Walk 6 records from `full` (which has count=9 at offset 0).
    let mut p = 1;
    for _ in 0..6 {
        let len = u32::from_le_bytes([full[p], full[p + 1], full[p + 2], full[p + 3]]) as usize;
        let total = 4 + len;
        old.extend_from_slice(&full[p..p + total]);
        p += total;
    }
    let mut bus2 = IoBus::new();
    // Pre-poison ata/pci so we can confirm restore leaves them
    // at default rather than crashing.
    bus2.write(0x1F2, 7);
    bus2.write(0xCF8, 0xFF);
    bus2.restore(&old).expect("restore old-format blob");
    // PCI restored to default (not the 0xFF we poisoned).
    // We can't directly read pci.addr; instead, write 0x80 to
    // CF8 (enable bit) and read it back, then read data — if
    // the latch was 0 before our write, the data window must
    // still answer 0xFFFFFFFF.
    // Just verify the dispatch is healthy by reading the data
    // window: should still return 0xFF (no device).
    assert_eq!(bus2.read(0xCFC), 0xFF);
}

#[test]
fn ata_control_ports_mirror_status_for_both_channels() {
    let mut bus = IoBus::new();
    bus.ata.disk.load(&[0xAA; 512]);
    bus.ata2.disk.load(&[0x55; 512]);
    // Issue IDENTIFY on each side. The status registers should
    // come up with DRDY | DRQ. Read it both from the command
    // block (base+7) and the control port (base+0x206); the
    // values must match.
    for base in [0x1F0u16, 0x170u16] {
        bus.write(base + 7, 0xEC); // IDENTIFY
        let cmd = bus.read(base + 7);
        let alt = bus.read(base + 0x206);
        assert_eq!(cmd, alt, "channel @ {base:#X}");
        // DRDY (0x40) | DRQ (0x08) both set.
        assert_eq!(cmd & 0x48, 0x48);
        // A device-control write must be silently accepted.
        bus.write(base + 0x206, 0x02);
        // Alt-status reads don't disturb anything; same value
        // still comes back.
        assert_eq!(bus.read(base + 0x206), cmd);
    }
}

#[test]
fn primary_and_secondary_ata_channels_route_independently() {
    let mut bus = IoBus::new();
    // Load distinct images so each side has a recognisable
    // payload.
    bus.ata.disk.load(&[0xAAu8; 512]); // primary
    bus.ata2.disk.load(&[0x55u8; 512]); // secondary
                                        // Issue READ SECTORS at LBA 0, sector count 1, on each.
                                        // Each command-block read should drain that channel's own
                                        // buffer; if dispatch leaked between them the secondary
                                        // would echo 0xAA or vice versa.
    for (base, expect) in [(0x1F0u16, 0xAAu8), (0x170u16, 0x55u8)] {
        bus.write(base + 2, 1); // sector count
        bus.write(base + 3, 0); // LBA low
        bus.write(base + 4, 0);
        bus.write(base + 5, 0);
        bus.write(base + 6, 0x40); // LBA mode
        bus.write(base + 7, 0x20); // READ SECTORS
        for _ in 0..4 {
            assert_eq!(bus.read(base), expect);
        }
    }
}

#[test]
fn routes_to_uart() {
    let mut bus = IoBus::new();
    bus.write(0x3F8, b'q');
    assert_eq!(bus.read(0x3FD) >> 5 & 1, 1);
    assert_eq!(bus.uart.drain_tx(), b"q");
}

#[test]
fn unmapped_port_reads_ff() {
    let mut bus = IoBus::new();
    assert_eq!(bus.read(0x1234), 0xFF);
}

#[test]
fn refresh_irqs_latches_uart_into_pic() {
    let mut bus = IoBus::new();
    bus.write(Uart::COM1_BASE + 1, 0x01);
    bus.uart.push_rx(b"Q");
    bus.pic.imr = !(1 << 4);
    assert!(bus.pic.pending_vector().is_none());
    bus.refresh_irqs();
    assert_eq!(bus.pic.pending_vector(), Some(0x08 + 4));
}

#[test]
fn refresh_translates_keyboard_assertion_into_pic_irr() {
    let mut bus = IoBus::new();
    bus.kbd.push_scancode(0x1E);
    bus.pic.imr = !(1 << 1); // unmask IRQ 1
    assert!(bus.pic.pending_vector().is_none());
    bus.refresh_irqs();
    assert_eq!(bus.pic.pending_vector(), Some(0x08 + 1));
}

#[test]
fn iobus_routes_to_slave_pic() {
    let mut bus = IoBus::new();
    bus.write(0xA1, 0xAA);
    assert_eq!(bus.read(0xA1), 0xAA);
}

#[test]
fn slave_pending_cascades_through_master_irq2() {
    let mut bus = IoBus::new();
    bus.slave_pic.imr = 0; // unmask all on slave
    bus.pic.imr = !(1 << 2); // master only sees IRQ 2 (the cascade)
                             // Slave IRQ 0 → vector 0x70
    bus.slave_pic.raise_irq(0);
    // Without refresh, master is unaware.
    assert!(bus.pic.pending_vector().is_none());
    bus.refresh_irqs();
    // refresh latched IRQ 2 into master IRR; pending_irq_vector
    // now follows the cascade and returns the slave's vector.
    assert_eq!(bus.pending_irq_vector(), Some(0x70));
}

#[test]
fn cascade_ack_clears_both_pic_irr_bits() {
    let mut bus = IoBus::new();
    bus.slave_pic.imr = 0;
    bus.pic.imr = !(1 << 2);
    bus.slave_pic.raise_irq(3); // slave IRQ 11 → vector 0x73
    bus.refresh_irqs();
    assert_eq!(bus.pending_irq_vector(), Some(0x73));
    bus.ack_irq();
    // Both PICs moved their bits from IRR to ISR.
    assert_eq!(bus.pic.isr & (1 << 2), 1 << 2);
    assert_eq!(bus.slave_pic.isr & (1 << 3), 1 << 3);
    // No further pending — refresh_irqs deasserts master cascade
    // once slave has nothing left unmasked-and-unserviced.
    bus.refresh_irqs();
    assert!(bus.pending_irq_vector().is_none());
}

#[test]
fn iobus_routes_to_cmos() {
    let mut bus = IoBus::new();
    bus.cmos.set_time(26, 5, 27, 8, 0, 0);
    bus.write(0x70, cmos_reg::HOURS);
    assert_eq!(bus.read(0x71), 8);
}

#[test]
fn iobus_routes_to_keyboard() {
    let mut bus = IoBus::new();
    bus.kbd.push_scancode(0x42);
    assert_eq!(bus.read(Keyboard::STATUS_PORT) & 1, 1);
    assert_eq!(bus.read(Keyboard::DATA_PORT), 0x42);
    assert_eq!(bus.read(Keyboard::STATUS_PORT) & 1, 0);
}

#[test]
fn refresh_translates_pit_edge_into_pic_irr() {
    let mut bus = IoBus::new();
    bus.write(0x43, 0x34);
    bus.write(0x40, 0x01);
    bus.write(0x40, 0x00);
    bus.pic.imr = 0xFE;
    bus.refresh_irqs();
    assert_eq!(bus.pic.pending_vector(), Some(0x08));
}
