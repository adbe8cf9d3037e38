use wwwvm::rtl8139::{Rtl8139, DEFAULT_MAC, EE_CS, EE_DI, EE_DO, EE_SK};
use wwwvm::IoDevice;


/// Drive the 93C46 READ of `word` the way `8139too` does (a 93C46 with
/// a 6-bit address): leading zeros, start bit, opcode 10, 6 addr bits,
/// then clock out 16 bits — and return the assembled word.
fn eeprom_read(nic: &mut Rtl8139, word: u8) -> u16 {
    let base = EE_CS; // programming mode bits omitted; CS is what matters
    nic.write_reg(0x50, 0); // deselect
    nic.write_reg(0x50, base); // CS high
                               // command bits MSB-first: 0,0,1(start),1,0(op=READ),a5..a0
    let cmd_bits = [
        0u8,
        0,
        1,
        1,
        0,
        (word >> 5) & 1,
        (word >> 4) & 1,
        (word >> 3) & 1,
        (word >> 2) & 1,
        (word >> 1) & 1,
        word & 1,
    ];
    for b in cmd_bits {
        let di = if b != 0 { EE_DI } else { 0 };
        nic.write_reg(0x50, base | di); // SK low, DI set
        nic.write_reg(0x50, base | di | EE_SK); // SK high (rising edge)
    }
    nic.write_reg(0x50, base); // SK low between command and read (as the driver does)
    let mut val = 0u16;
    for _ in 0..16 {
        nic.write_reg(0x50, base | EE_SK); // SK high → presents next bit
        val = (val << 1) | (nic.read_reg(0x50) & EE_DO) as u16;
        nic.write_reg(0x50, base); // SK low
    }
    nic.write_reg(0x50, 0); // CS low
    val
}

#[test]
fn eeprom_returns_mac_words() {
    let mut nic = Rtl8139::new();
    // Words 7-9 are the MAC (little-endian): 52:54:00:12:34:56.
    assert_eq!(eeprom_read(&mut nic, 7), 0x5452);
    assert_eq!(eeprom_read(&mut nic, 8), 0x1200);
    assert_eq!(eeprom_read(&mut nic, 9), 0x5634);
    // Word 0 is the signature.
    assert_eq!(eeprom_read(&mut nic, 0), 0x8129);
}

#[test]
fn eeprom_custom_mac() {
    let mut nic = Rtl8139::with_mac([0xDE, 0xAD, 0xBE, 0xEF, 0x00, 0x01]);
    assert_eq!(eeprom_read(&mut nic, 7), 0xADDE);
    assert_eq!(eeprom_read(&mut nic, 8), 0xEFBE);
    assert_eq!(eeprom_read(&mut nic, 9), 0x0100);
}

#[test]
fn set_mac_updates_eeprom_and_idr() {
    // A default NIC reassigned in place exposes the new MAC via both the
    // EEPROM words the driver reads and the IDR registers.
    let mut nic = Rtl8139::new();
    nic.set_mac([0xDE, 0xAD, 0xBE, 0xEF, 0x00, 0x02]);
    assert_eq!(eeprom_read(&mut nic, 7), 0xADDE);
    assert_eq!(eeprom_read(&mut nic, 8), 0xEFBE);
    assert_eq!(eeprom_read(&mut nic, 9), 0x0200);
    assert_eq!(nic.read_reg(0), 0xDE);
    assert_eq!(nic.read_reg(5), 0x02);
}

#[test]
fn mac_address_reads_back_from_idr() {
    let nic = Rtl8139::new();
    for (i, &b) in DEFAULT_MAC.iter().enumerate() {
        assert_eq!(nic.read_reg(i as u16), b);
    }
}

#[test]
fn idr_is_read_only() {
    let mut nic = Rtl8139::new();
    nic.write_reg(0x00, 0xAA);
    assert_eq!(nic.read_reg(0x00), DEFAULT_MAC[0], "MAC must not change");
}

#[test]
fn chip_reset_bit_auto_clears() {
    let mut nic = Rtl8139::new();
    nic.write_reg(0x37, 0x10);
    assert_eq!(nic.read_reg(0x37) & 0x10, 0, "reset must auto-complete");
}

#[test]
fn txconfig_reports_rtl8139c_version() {
    let nic = Rtl8139::new();
    assert_eq!(nic.read_reg(0x43), 0x74, "HW version = RTL-8139C");
}

#[test]
fn plain_registers_round_trip() {
    let mut nic = Rtl8139::new();
    nic.write_reg(0x3C, 0xBE); // IntrMask low byte
    assert_eq!(nic.read_reg(0x3C), 0xBE);
}

// Write a 32-bit NIC register via 4 byte writes (as the guest's 32-bit
// OUT decomposes), low byte first.
fn wreg32(nic: &mut Rtl8139, off: u16, val: u32) {
    for i in 0..4u16 {
        nic.write_reg(off + i, (val >> (i * 8)) as u8);
    }
}

#[test]
fn tx_kick_queues_frame_and_signals_tok() {
    let mut nic = Rtl8139::new();
    // Driver: set TX buffer address (TSAD0), then write TSD0 with the
    // size and OWN cleared to start the transmit.
    wreg32(&mut nic, 0x20, 0x0010_0000); // TSAD0 = guest phys 0x100000
    wreg32(&mut nic, 0x10, 64); // TSD0 = size 64, OWN=0
    let frames = nic.take_tx_frames();
    assert_eq!(frames, vec![(0x0010_0000u32, 64u16)]);
    // The descriptor is reported complete (OWN + TOK set).
    assert_ne!(nic.read_reg(0x11) & 0x20, 0, "OWN set");
    assert_ne!(nic.read_reg(0x11) & 0x80, 0, "TOK set");
    // ISR.TOK (bit 2) raised.
    assert_ne!(nic.read_reg(0x3E) & 0x04, 0, "ISR TOK");
    // A second drain is empty.
    assert!(nic.take_tx_frames().is_empty());
}

#[test]
fn tx_uses_the_right_descriptor() {
    let mut nic = Rtl8139::new();
    wreg32(&mut nic, 0x28, 0xDEAD_0000); // TSAD2
    wreg32(&mut nic, 0x18, 128); // TSD2, size 128
    assert_eq!(nic.take_tx_frames(), vec![(0xDEAD_0000u32, 128u16)]);
}

#[test]
fn irq_pending_tracks_isr_and_mask() {
    let mut nic = Rtl8139::new();
    wreg32(&mut nic, 0x20, 0x1000);
    wreg32(&mut nic, 0x10, 60); // TX → sets ISR.TOK
    assert!(!nic.irq_pending(), "masked: IMR=0");
    // Unmask TOK in IMR (0x3C).
    nic.write_reg(0x3C, 0x04);
    assert!(nic.irq_pending(), "TOK unmasked → IRQ");
    // Driver acks by writing 1 to ISR.TOK (write-1-to-clear).
    nic.write_reg(0x3E, 0x04);
    assert!(!nic.irq_pending(), "ISR cleared → no IRQ");
}

#[test]
fn bmsr_reports_link_up() {
    let nic = Rtl8139::new();
    let bmsr = (nic.read_reg(0x64) as u16) | ((nic.read_reg(0x65) as u16) << 8);
    assert_ne!(bmsr & 0x0004, 0, "link-status bit set");
    assert_ne!(bmsr & 0x0020, 0, "autoneg-complete bit set");
}

#[test]
fn signal_rx_ok_sets_isr() {
    let mut nic = Rtl8139::new();
    nic.signal_rx_ok();
    assert_ne!(nic.read_reg(0x3E) & 0x01, 0, "ISR ROK");
}

// Bring the RX engine online exactly as 8139too's open() does: program
// the ring base (RBSTART), default RCR (8 KB buffer), initialise CAPR to
// −16 (0xFFF0, the driver's quirk), and set ChipCmd RxEnable.
fn rx_ready(rbstart: u32) -> Rtl8139 {
    let mut nic = Rtl8139::new();
    wreg32(&mut nic, 0x30, rbstart); // RBSTART
    nic.write_reg(0x38, 0xF0); // CAPR = 0xFFF0
    nic.write_reg(0x39, 0xFF);
    nic.write_reg(0x37, 0x08); // ChipCmd: RxEnable
    nic
}

#[test]
fn rx_wraps_contiguously_past_ring_end() {
    // A long transfer eventually writes a packet near the ring's end.
    // With RxNoWrap the packet is laid down contiguously (spilling into
    // the driver's slack) from the current offset, and CBR wraps for the
    // next one — the behaviour 8139too relies on.
    let rbstart = 0x6_0000u32;
    let mut nic = rx_ready(rbstart);
    let len = 8192u32; // default RCR → 8 KB ring
                       // Put the write pointer 10 bytes from the end, read pointer alongside
                       // it so there's room (CBR = rptr → empty).
    nic.write_reg(0x3A, ((len - 10) & 0xFF) as u8);
    nic.write_reg(0x3B, (((len - 10) >> 8) & 0xFF) as u8);
    // CAPR = (len-10) - 16 so rx_rptr = (CAPR+16)%len = len-10 = CBR.
    let capr = len - 26;
    nic.write_reg(0x38, (capr & 0xFF) as u8);
    nic.write_reg(0x39, ((capr >> 8) & 0xFF) as u8);

    let frame = vec![0x7E; 64];
    let (dest, bytes) = nic.accept_rx(&frame).expect("accepted");
    // Written contiguously at the old offset (into the slack region).
    assert_eq!(dest, rbstart + (len - 10));
    assert_eq!(bytes.len(), 72);
    // CBR wrapped: (len-10 + 72) mod len = 62.
    let cbr = nic.read_reg(0x3A) as u32 | ((nic.read_reg(0x3B) as u32) << 8);
    assert_eq!(cbr, 62);
}

#[test]
fn tx_multiple_descriptors_drain_in_order() {
    // A burst uses all four TX descriptors round-robin; the VM must see
    // each queued frame, in kick order.
    let mut nic = Rtl8139::new();
    for (i, (tsad, tsd)) in [(0x20, 0x10), (0x24, 0x14), (0x28, 0x18), (0x2C, 0x1C)]
        .into_iter()
        .enumerate()
    {
        wreg32(&mut nic, tsad as u16, 0x1000 * (i as u32 + 1));
        wreg32(&mut nic, tsd as u16, 100 + i as u32);
    }
    let frames = nic.take_tx_frames();
    assert_eq!(
        frames,
        vec![
            (0x1000, 100u16),
            (0x2000, 101),
            (0x3000, 102),
            (0x4000, 103),
        ]
    );
}

#[test]
fn rx_accept_writes_header_and_marks_data_available() {
    let rbstart = 0x4_0000u32;
    let mut nic = rx_ready(rbstart);
    // Fresh ring: BUFE set (empty), no ROK yet.
    assert_ne!(nic.read_reg(0x37) & 0x01, 0, "BUFE set when empty");

    let frame = vec![0xAA; 64];
    let (dest, bytes) = nic.accept_rx(&frame).expect("frame accepted");
    assert_eq!(dest, rbstart, "first packet lands at the ring base");
    // Header: status ROK, length = frame + 4-byte CRC.
    assert_eq!(u16::from_le_bytes([bytes[0], bytes[1]]), 0x0001);
    assert_eq!(u16::from_le_bytes([bytes[2], bytes[3]]), 68);
    assert_eq!(&bytes[4..4 + 64], &frame[..], "frame copied after header");
    // total = align_up(4 header + 68, 4) = 72.
    assert_eq!(bytes.len(), 72);
    // CBR advanced; ROK raised; ring no longer empty.
    let cbr = nic.read_reg(0x3A) as u16 | ((nic.read_reg(0x3B) as u16) << 8);
    assert_eq!(cbr, 72);
    assert_ne!(nic.read_reg(0x3E) & 0x01, 0, "ISR.ROK raised");
    assert_eq!(nic.read_reg(0x37) & 0x01, 0, "BUFE clear — packet waiting");

    // Driver consumes the packet: cur_rx = 72 → CAPR = 72 − 16 = 56.
    nic.write_reg(0x38, 56);
    nic.write_reg(0x39, 0);
    assert_ne!(
        nic.read_reg(0x37) & 0x01,
        0,
        "BUFE set once read ptr catches up"
    );
}

#[test]
fn rx_runt_frame_padded_to_min() {
    let mut nic = rx_ready(0x1000);
    let frame = vec![0x11; 20]; // a 20-byte runt
    let (_, bytes) = nic.accept_rx(&frame).expect("accepted");
    // Length field is the padded minimum (60) plus the 4-byte CRC.
    assert_eq!(u16::from_le_bytes([bytes[2], bytes[3]]), 64);
    assert_eq!(bytes.len(), 68); // align_up(4 + 64, 4)
    assert_eq!(&bytes[4..24], &frame[..], "real bytes preserved");
    assert!(bytes[24..].iter().all(|&b| b == 0), "padding is zero");
}

#[test]
fn rx_dropped_when_engine_disabled() {
    let mut nic = Rtl8139::new(); // RxEnable never set
    assert!(nic.accept_rx(&[0u8; 64]).is_none());
}

#[test]
fn rx_ring_full_drops_until_drained() {
    let mut nic = rx_ready(0x2000);
    let frame = vec![0x22; 60];
    let mut accepted = 0;
    // The driver never advances CAPR, so the 8 KB ring eventually fills.
    while nic.accept_rx(&frame).is_some() {
        accepted += 1;
        assert!(accepted < 1000, "must stop, not loop forever");
    }
    assert!(accepted > 0, "some frames fit");
    assert!(nic.accept_rx(&frame).is_none(), "still full");
}

#[test]
fn snapshot_round_trips() {
    let mut nic = rx_ready(0x5000);
    nic.write_reg(0x3C, 0x05);
    // Receive a frame so CBR and rx_rptr hold non-trivial state.
    nic.accept_rx(&[0x55; 64]).expect("accepted");
    let mut buf = Vec::new();
    nic.snapshot_into(&mut buf);
    assert_eq!(buf.len(), 388); // 256 regs + 128 EEPROM + 4 rx_rptr
    let mut nic2 = Rtl8139::new();
    nic2.restore(&buf).expect("restore");
    assert_eq!(nic2.read_reg(0x3C), 0x05);
    assert_eq!(eeprom_read(&mut nic2, 7), 0x5452);
    // RX ring pointers (CBR + rx_rptr) survive, so BUFE is preserved.
    assert_eq!(nic2.read_reg(0x37) & 0x01, nic.read_reg(0x37) & 0x01);
}

#[test]
fn snapshot_restores_old_384_byte_blob() {
    // A pre-RX snapshot (no trailing rx_rptr) must still load, with
    // rx_rptr defaulting to 0.
    let nic = Rtl8139::new();
    let mut buf = Vec::new();
    nic.snapshot_into(&mut buf);
    buf.truncate(384); // drop the rx_rptr tail → legacy layout
    let mut nic2 = Rtl8139::new();
    assert_eq!(nic2.restore(&buf).expect("restore"), 384);
}
