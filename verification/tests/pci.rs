use wwwvm::pci::Pci;
use wwwvm::IoDevice;


fn cfg_read(pci: &mut Pci, addr: u32) -> u32 {
    for i in 0..4u16 {
        pci.write(0xCF8 + i, (addr >> (i * 8)) as u8);
    }
    let mut got = 0u32;
    for i in 0..4u16 {
        got |= (pci.read(0xCFC + i) as u32) << (i * 8);
    }
    got
}

#[test]
fn host_bridge_present_at_00_00_0() {
    // Linux's pci_sanity_check needs a real device on bus 0, or it
    // disables PCI. 00:00.0 must report the host-bridge ID + class.
    let mut pci = Pci::new();
    // enable=1, bus0, dev0, func0, reg0 → vendor/device.
    assert_eq!(cfg_read(&mut pci, 0x8000_0000), 0x1237_8086);
    // reg 0x08 → class 0x060000 in the high 24 bits; sanity_check
    // reads the 16-bit class at offset 0x0A and wants 0x0600.
    let classdw = cfg_read(&mut pci, 0x8000_0008);
    assert_eq!(classdw >> 16, 0x0600, "class code = host bridge");
}

#[test]
fn rtl8139_nic_present_at_00_01_0() {
    let mut pci = Pci::new();
    // device 1 (bit 11), reg 0 → vendor 0x10EC / device 0x8139.
    assert_eq!(cfg_read(&mut pci, 0x8000_0800), 0x8139_10EC);
    // class 0x0200 (ethernet) in the high word of reg 0x08.
    assert_eq!(cfg_read(&mut pci, 0x8000_0808) >> 16, 0x0200);
}

#[test]
fn absent_slot_reads_all_ones() {
    let mut pci = Pci::new();
    // device 2 (bit 12) is empty → vendor 0xFFFF sentinel.
    assert_eq!(cfg_read(&mut pci, 0x8000_1000), 0xFFFF_FFFF);
}

#[test]
fn address_register_round_trips_through_byte_writes() {
    // Confirms the byte-accumulate logic for the 0x66-prefixed
    // 32-bit OUT path: write 4 bytes, read them back, compare.
    let mut pci = Pci::new();
    let want: u32 = 0x8000_4321; // enable + arbitrary address bits
    for i in 0..4u16 {
        pci.write(0xCF8 + i, (want >> (i * 8)) as u8);
    }
    let mut got = 0u32;
    for i in 0..4u16 {
        got |= (pci.read(0xCF8 + i) as u32) << (i * 8);
    }
    assert_eq!(got, want);
}

#[test]
fn writes_to_data_window_are_silently_discarded() {
    let mut pci = Pci::new();
    for i in 0..4u16 {
        pci.write(0xCFC + i, 0xAB);
    }
    // Read still returns the "no device" sentinel; nothing
    // landed in any imaginary register.
    for i in 0..4u16 {
        assert_eq!(pci.read(0xCFC + i), 0xFF);
    }
}

/// snapshot/restore must round-trip the latched 32-bit address
/// register so a snapshot taken mid-config-cycle resumes at
/// the same probe address. Without it, the kernel issues a
/// data-port read post-restore and we return 0xFFFFFFFF for
/// what the kernel thought was a different register — silently
/// wrong sub-system behavior. Companion to the CMOS/PIC/UART/
/// keyboard round-trip tests in this series.
#[test]
fn snapshot_round_trip_preserves_latched_address_and_nic() {
    let mut pci = Pci::new();
    // Assign the NIC an I/O base (BAR0) + enable I/O — must survive.
    // (These config cycles drive the address latch, so set the latch we
    // want to preserve AFTER them.)
    assign_nic_bar0(&mut pci, 0xC000);
    set_nic_command(&mut pci, 0x0005); // I/O + bus-master
    let want: u32 = 0x8000_4321;
    for i in 0..4u16 {
        pci.write(0xCF8 + i, (want >> (i * 8)) as u8);
    }
    let mut buf = Vec::new();
    pci.snapshot_into(&mut buf);
    assert_eq!(buf.len(), 10);

    let mut pci2 = Pci::new();
    let consumed = pci2.restore(&buf).expect("restore");
    assert_eq!(consumed, 10);
    let mut got = 0u32;
    for i in 0..4u16 {
        got |= (pci2.read(0xCF8 + i) as u32) << (i * 8);
    }
    assert_eq!(got, want);
    assert_eq!(pci2.nic_io_base(), 0xC000);
    assert!(pci2.nic_io_enabled());

    // An old 4-byte blob still restores the address (back-compat).
    let mut pci3 = Pci::new();
    assert_eq!(pci3.restore(&buf[..4]).expect("restore v1"), 4);
}

// Helpers: drive a config WRITE to the NIC's BAR0 / command register
// the way the kernel does (byte writes to the data window).
fn assign_nic_bar0(pci: &mut Pci, base: u16) {
    for i in 0..4u16 {
        pci.write(0xCF8 + i, (0x8000_0810u32 >> (i * 8)) as u8); // 00:01.0 reg 0x10
    }
    let val = (base as u32) | 0x1;
    for i in 0..4u16 {
        pci.write(0xCFC + i, (val >> (i * 8)) as u8);
    }
}
fn set_nic_command(pci: &mut Pci, cmd: u16) {
    for i in 0..4u16 {
        pci.write(0xCF8 + i, (0x8000_0804u32 >> (i * 8)) as u8); // 00:01.0 reg 0x04
    }
    for i in 0..2u16 {
        pci.write(0xCFC + i, (cmd >> (i * 8)) as u8);
    }
}

#[test]
fn nic_bar0_sizes_and_assigns_as_256b_io() {
    let mut pci = Pci::new();
    // Size probe: write all-ones to BAR0, read back the size mask.
    assign_nic_bar0(&mut pci, 0xFFFF); // low write; do full 0xFFFFFFFF:
    for i in 0..4u16 {
        pci.write(0xCF8 + i, (0x8000_0810u32 >> (i * 8)) as u8);
    }
    for i in 0..4u16 {
        pci.write(0xCFC + i, 0xFF);
    }
    assert_eq!(
        cfg_read(&mut pci, 0x8000_0810),
        0xFFFF_FF01,
        "256-byte I/O BAR"
    );
    // Assign base 0xC000.
    assign_nic_bar0(&mut pci, 0xC000);
    assert_eq!(cfg_read(&mut pci, 0x8000_0810) & 0xFF01, 0xC001);
    assert_eq!(pci.nic_io_base(), 0xC000);
}

/// restore must reject a truncated blob rather than panic.
/// 4-byte address takes exactly 4 bytes; any less is corruption.
#[test]
fn pci_restore_rejects_truncated_blob() {
    let mut pci = Pci::new();
    assert!(pci.restore(&[0u8; 3]).is_err());
}
