use wwwvm::ata::{CMD_READ_SECTORS, CMD_WRITE_SECTORS};
use wwwvm::disk::SECTOR_SIZE;
use wwwvm::keyboard::Keyboard;
use wwwvm::rtl8139::DEFAULT_MAC;
use wwwvm::scancode::{key_for, push_char_scancodes, string_to_scancodes};
use wwwvm::{
    cmos_reg, Ata, Cmos, Disk, IoBus, IoDevice, Pci, Pic, Pit, Rtl8139, Uart, PRIMARY_PORT_BASE,
    SECONDARY_PORT_BASE,
};

#[test]
fn the_lowest_unmasked_line_is_pending() {
    let mut pic = Pic::master();
    pic.imr = 0b0000_0010;
    pic.raise_irq(5);
    pic.raise_irq(1);
    pic.raise_irq(3);
    pic.raise_irq(8);
    assert_eq!(pic.irr, 0b0010_1010);
    assert_eq!(pic.pending_vector(), Some(0x08 + 3));
    pic.ack();
    assert_eq!((pic.irr, pic.isr), (0b0010_0010, 0b0000_1000));
    assert_eq!(pic.pending_vector(), Some(0x08 + 5));
    pic.write(Pic::MASTER_BASE, 0x20);
    assert_eq!(pic.isr, 0, "the acknowledged line is out of service");
}

#[test]
fn pic_restores_what_was_captured() {
    let mut pic = Pic::new(0xA0);
    pic.write(0xA0, 0x11);
    pic.write(0xA1, 0x73);
    let mut blob = vec![0xEE];
    pic.snapshot_into(&mut blob);
    assert_eq!(&blob[1..], &[0x70, 0, 0, 0, 2]);
    let mut other = Pic::new(0x20);
    assert_eq!(other.restore(&blob[1..]), Ok(5));
    assert_eq!(other, Pic { base_port: 0x20, ..pic });
    assert_eq!(other.restore(&[1, 2, 3, 4]), Err("pic: truncated"));
    assert_eq!(other.restore(&[1, 2, 3, 4, 9]), Err("pic: bad init_state tag"));
    assert_eq!((other.vector_base, other.imr, other.irr, other.isr), (1, 2, 3, 4));
}

fn program(pit: &mut Pit, control: u8, reload: u16) {
    pit.write(0x43, control);
    pit.write(0x40, reload as u8);
    pit.write(0x40, (reload >> 8) as u8);
}

fn latched(pit: &mut Pit) -> u16 {
    pit.write(0x43, 0x00);
    let lo = pit.read(0x40) as u16;
    lo | (pit.read(0x40) as u16) << 8
}

#[test]
fn ticks_add_up() {
    let (mut a, mut b) = (Pit::standard(), Pit::standard());
    program(&mut a, 0x34, 1000);
    program(&mut b, 0x34, 1000);
    a.tick(700);
    a.tick(900);
    b.tick(1600);
    assert_eq!(latched(&mut a), latched(&mut b));
    assert_eq!(latched(&mut a), 400);
    assert_eq!((a.take_ch0_pending(), b.take_ch0_pending()), (true, true));
    assert!(!a.take_ch0_pending());
}

#[test]
fn a_latched_count_does_not_move() {
    let mut pit = Pit::standard();
    program(&mut pit, 0x34, 500);
    pit.tick(100);
    pit.write(0x43, 0x00);
    pit.tick(50);
    let lo = pit.read(0x40) as u16;
    let hi = pit.read(0x40) as u16;
    assert_eq!(lo | hi << 8, 400);
    assert_eq!(latched(&mut pit), 350);
}

#[test]
fn a_one_shot_fires_once() {
    let mut pit = Pit::standard();
    program(&mut pit, 0x30, 10);
    pit.tick(9);
    assert!(!pit.take_ch0_pending());
    pit.tick(1);
    assert!(pit.take_ch0_pending());
    pit.tick(100_000);
    assert!(!pit.take_ch0_pending());
    assert_eq!(pit.restore(&[0; 3]), Err("pit: truncated"));
}

#[test]
fn received_bytes_come_out_in_order() {
    let mut uart = Uart::com1();
    uart.write(Uart::COM1_BASE + 1, 0x03);
    assert_eq!(uart.read(Uart::COM1_BASE + 2), 0x02);
    uart.push_rx(b"ab");
    uart.push_rx(b"c");
    assert_eq!((uart.rx_pending(), uart.rx_len()), (3, 3));
    assert_eq!(uart.read(Uart::COM1_BASE + 2), 0x04, "received data comes first");
    assert_eq!(uart.read(Uart::COM1_BASE), b'a');
    assert_eq!(uart.read(Uart::COM1_BASE), b'b');
    assert_eq!(uart.read(Uart::COM1_BASE), b'c');
    assert_eq!(uart.read(Uart::COM1_BASE), 0);
}

#[test]
fn uart_reports_what_is_truncated() {
    let mut uart = Uart::new(0x2F8);
    uart.write(0x2F8, b'x');
    uart.push_rx(b"yz");
    let mut blob = Vec::new();
    uart.snapshot_into(&mut blob);
    assert_eq!(blob.len(), 1 + 4 + 1 + 4 + 2);
    let mut other = Uart::com1();
    assert_eq!(other.restore(&blob), Ok(12));
    assert_eq!((other.base(), other.drain_tx(), other.rx_len()), (0x3F8, b"x".to_vec(), 2));
    assert_eq!(other.restore(&blob[..4]), Err("uart: truncated"));
    assert_eq!(other.restore(&blob[..8]), Err("uart: truncated tx"));
    assert_eq!(other.restore(&blob[..11]), Err("uart: truncated rx"));
}

#[test]
fn cmos_data_reads_back_at_the_index_without_its_top_bit() {
    let mut cmos = Cmos::new();
    cmos.write(0x70, 0x80 | 0x40);
    cmos.write(0x71, 0x5A);
    cmos.write(0x70, 0x40);
    assert_eq!(cmos.read(0x71), 0x5A);
    assert_eq!(cmos.storage_byte(0x40), 0x5A);
    cmos.set_time(99, 12, 31, 23, 59, 58);
    assert_eq!(cmos.storage_byte(cmos_reg::YEAR), 0x99);
    assert_eq!(cmos.storage_byte(cmos_reg::SECONDS), 0x58);
}

#[test]
fn a_disk_gives_back_what_was_written() {
    let mut disk = Disk::new();
    disk.load(&[1; 700]);
    assert_eq!(disk.size(), 700);
    let mut sector = vec![0xEE; SECTOR_SIZE];
    assert_eq!(disk.read_sectors(1, 1, &mut sector), SECTOR_SIZE);
    assert_eq!(sector[187], 1);
    assert_eq!(sector[188], 0, "the rest of a short image reads as zero");
    disk.write_sectors(3, &[7; SECTOR_SIZE]);
    assert_eq!(disk.size(), 4 * SECTOR_SIZE);
    assert_eq!(disk.read_from(3, SECTOR_SIZE), vec![7; SECTOR_SIZE]);
    assert_eq!(disk.read_from(2, SECTOR_SIZE), vec![0; SECTOR_SIZE]);
    assert_eq!(disk.read_from(0, 3), vec![1; 3]);
}

fn command(ata: &mut Ata, base: u16, lba: u8, count: u8, cmd: u8) {
    ata.write(base + 2, count);
    ata.write(base + 3, lba);
    ata.write(base + 4, 0);
    ata.write(base + 5, 0);
    ata.write(base + 6, 0xE0);
    ata.write(base + 7, cmd);
}

#[test]
fn sectors_written_through_the_data_port_are_read_back() {
    let mut ata = Ata::with_port_base(SECONDARY_PORT_BASE);
    let base = SECONDARY_PORT_BASE;
    assert_eq!(ata.control_port(), 0x376);
    ata.disk.load(&[0; 4 * SECTOR_SIZE]);
    command(&mut ata, base, 2, 1, CMD_WRITE_SECTORS);
    for i in 0..SECTOR_SIZE {
        assert_ne!(ata.read_alt_status() & 0x08, 0, "still wants data");
        ata.write(base, i as u8);
    }
    assert_eq!(ata.read_alt_status() & 0x08, 0);
    command(&mut ata, base, 2, 1, CMD_READ_SECTORS);
    for i in 0..SECTOR_SIZE {
        assert_eq!(ata.read(base), i as u8);
    }
    assert_eq!(ata.read_alt_status() & 0x08, 0);
}

#[test]
fn a_count_of_zero_reads_256_sectors() {
    let mut ata = Ata::new();
    assert_eq!(ata.control_port(), 0x3F6);
    let mut image = vec![0; 256 * SECTOR_SIZE];
    image[255 * SECTOR_SIZE] = 0x77;
    ata.disk.load(&image);
    command(&mut ata, PRIMARY_PORT_BASE, 0, 0, CMD_READ_SECTORS);
    let mut got = Vec::new();
    while ata.read_alt_status() & 0x08 != 0 {
        got.push(ata.read(PRIMARY_PORT_BASE));
    }
    assert_eq!(got, image);
}

#[test]
fn a_transfer_survives_a_snapshot() {
    let mut ata = Ata::new();
    ata.disk.load(&[0xA5; SECTOR_SIZE]);
    command(&mut ata, PRIMARY_PORT_BASE, 0, 1, CMD_READ_SECTORS);
    for _ in 0..100 {
        ata.read(PRIMARY_PORT_BASE);
    }
    let mut blob = Vec::new();
    ata.snapshot_into(&mut blob);
    let mut other = Ata::new();
    assert_eq!(other.restore(&blob), Ok(blob.len()));
    for _ in 100..SECTOR_SIZE {
        assert_ne!(other.read_alt_status() & 0x08, 0);
        assert_eq!(other.read(PRIMARY_PORT_BASE), 0xA5);
    }
    assert_eq!(other.read_alt_status() & 0x08, 0);
    assert_eq!(other.restore(&blob[..3]), Err("ata: truncated"));
    assert_eq!(other.restore(&blob[..blob.len() - 1]), Err("ata: truncated buffer"));
    other.write_device_control(0x04);
    assert_eq!(other.read_alt_status() & 0x08, 0);
}

#[test]
fn an_absent_device_reads_ones() {
    let mut pci = Pci::new();
    for (i, b) in 0x8000_F800u32.to_le_bytes().iter().enumerate() {
        pci.write(0xCF8 + i as u16, *b);
    }
    assert_eq!((0xCFC..0xD00).map(|p| pci.read(p)).collect::<Vec<u8>>(), vec![0xFF; 4]);
    assert_eq!(pci.read(0xCF9), 0xF8, "the address reads back");
    assert_eq!(pci.restore(&[0; 2]), Err("pci: truncated"));
}

#[test]
fn replies_come_before_scan_codes() {
    let mut kbd = Keyboard::new();
    kbd.push_scancode(0x1E);
    assert_eq!((kbd.peek_scancode(), kbd.rx_pending()), (Some(0x1E), 1));
    kbd.write(Keyboard::DATA_PORT, 0xF4);
    assert_eq!(kbd.read(Keyboard::DATA_PORT), 0xFA);
    assert_eq!(kbd.read(Keyboard::DATA_PORT), 0x1E);
    kbd.push_scancode(0x30);
    assert_eq!(kbd.pop_scancode(), Some(0x30));
    assert_eq!(kbd.pop_scancode(), None);
}

#[test]
fn the_configuration_byte_reads_back() {
    let mut kbd = Keyboard::new();
    kbd.write(Keyboard::STATUS_PORT, 0x60);
    kbd.write(Keyboard::DATA_PORT, 0x47);
    kbd.write(Keyboard::STATUS_PORT, 0x20);
    assert_eq!(kbd.read(Keyboard::DATA_PORT), 0x47);
    kbd.write(Keyboard::STATUS_PORT, 0x20);
    assert!(!(kbd.irq_pending() && kbd.aux_irq_pending()));
    let mut blob = Vec::new();
    kbd.push_scancode(0x11);
    kbd.snapshot_into(&mut blob);
    let mut other = Keyboard::new();
    assert_eq!(other.restore(&blob), Ok(blob.len()));
    assert_eq!(other.pop_scancode(), Some(0x11));
    assert_eq!(other.restore(&[1]), Err("kbd: truncated"));
    assert_eq!(other.restore(&blob[..blob.len() - 1]), Err("kbd: truncated queue"));
}

#[test]
fn typing_two_texts_is_typing_both() {
    let mut out = Vec::new();
    for c in "aB".chars() {
        push_char_scancodes(&mut out, c);
    }
    assert_eq!(out, string_to_scancodes("aB"));
    assert_eq!(out, vec![0x1E, 0x9E, 0x2A, 0x30, 0xB0, 0xAA]);
    assert_eq!(key_for('a'), Some((0x1E, false)));
    assert_eq!(key_for('A'), Some((0x1E, true)));
    assert_eq!(key_for('\u{e9}'), None);
    assert_eq!(string_to_scancodes("\u{e9}"), Vec::<u8>::new());
}

#[test]
fn the_card_keeps_its_address() {
    let mut nic = Rtl8139::default();
    assert!(!nic.has_pending_tx());
    nic.write_reg(0, 0xFF);
    assert_eq!((0..6).map(|i| nic.read_reg(i)).collect::<Vec<u8>>(), DEFAULT_MAC.to_vec());
    nic.set_mac([1, 2, 3, 4, 5, 6]);
    assert_eq!(nic.read_reg(5), 6);
    let mut blob = Vec::new();
    nic.snapshot_into(&mut blob);
    let mut other = Rtl8139::new();
    assert_eq!(other.restore(&blob), Ok(blob.len()));
    assert_eq!(other.read_reg(5), 6);
    assert_eq!(other.restore(&blob[..10]), Err("rtl8139: truncated"));
}

#[test]
fn a_full_ring_takes_no_more() {
    let mut nic = Rtl8139::new();
    assert!(nic.accept_rx(&[0; 60]).is_none(), "receiver off");
    nic.write_reg(0x37, 0x08);
    nic.write_reg(0x44, 0x0F);
    let mut taken = 0;
    while nic.accept_rx(&[0; 1000]).is_some() {
        taken += 1;
        assert!(taken < 20);
    }
    assert_eq!(taken, 8, "8 KiB of ring, 1008 bytes each");
}

#[test]
fn a_port_that_nobody_has_reads_ones() {
    let mut bus = IoBus::default();
    assert_eq!(bus.read(0x80), 0xFF);
    bus.write(0x80, 1);
    assert_eq!(bus.read(0x80), 0xFF);
    bus.uart_mut().push_rx(b"q");
    assert_eq!(bus.read(0x3F8), b'q');
    bus.pic_mut().imr = 0x12;
    assert_eq!(bus.read(0x21), 0x12);
    bus.disk_mut().load(&[3; 10]);
    assert_eq!(bus.disk().size(), 10);
}

#[test]
fn levels_are_mirrored_to_the_controllers() {
    let mut bus = IoBus::with_uart(Uart::com1());
    bus.pic.imr = 0;
    bus.slave_pic.imr = 0;
    bus.write(0x3F9, 0x01);
    bus.uart.push_rx(b"x");
    bus.refresh_irqs();
    assert_eq!(bus.pending_irq_vector(), Some(0x08 + 4));
    bus.ack_irq();
    assert_eq!(bus.pic.isr, 0x10);
    assert_eq!(bus.pending_irq_vector(), None);
    bus.slave_pic.raise_irq(6);
    bus.refresh_irqs();
    assert_eq!(bus.pending_irq_vector(), Some(0x70 + 6), "the joining line is not seen");
    bus.ack_irq();
    assert_eq!((bus.pic.isr, bus.slave_pic.isr), (0x14, 0x40));
}

#[test]
fn snapshots_say_what_is_wrong_with_them() {
    let mut bus = IoBus::new();
    assert_eq!(bus.restore(&[]), Err("iobus: empty".to_string()));
    assert_eq!(bus.restore(&[1, 1]), Err("iobus: truncated record header".to_string()));
    for body in [[9u8, 0, 0, 0], [0, 0, 0, 0]] {
        let blob = [&[1][..], &body[..]].concat();
        assert_eq!(bus.restore(&blob), Err("iobus: truncated record body".to_string()));
    }
    assert_eq!(bus.restore(&[1, 3, 0, 0, 0, 0xEE, 7, 7]), Ok(()), "unknown records are skipped");
    assert_eq!(bus.restore(&[1, 1, 0, 0, 0, 1]), Err("uart: truncated".to_string()));
    assert_eq!(bus.restore(&[1, 1, 0, 0, 0, 9]), Err("pci: truncated".to_string()));
    assert_eq!(bus.restore(&[0]), Ok(()));
}

fn busy_bus() -> IoBus {
    let mut bus = IoBus::new();
    bus.ata.disk.load(&[0xAA; 1024]);
    bus.write(0x1F7, 0xEC);
    bus.read(0x1F0);
    bus.write(0x3F8, b'x');
    bus.uart.push_rx(b"yz");
    bus.kbd.push_scancode(0x1E);
    bus.write(0x43, 0x34);
    bus.write(0x40, 0x07);
    bus.write(0xCF8, 0x10);
    bus
}

#[test]
fn a_restored_bus_gives_the_same_snapshot() {
    let blob = busy_bus().snapshot();
    let mut other = IoBus::new();
    assert_eq!(other.restore(&blob), Ok(()));
    assert_eq!(other.snapshot(), blob);
}

#[test]
fn every_cut_snapshot_is_refused() {
    let blob = busy_bus().snapshot();
    for cut in 0..blob.len() {
        let mut other = IoBus::new();
        assert!(other.restore(&blob[..cut]).is_err(), "cut at {cut}");
    }
}

#[test]
fn an_unknown_record_is_skipped_anywhere() {
    let blob = busy_bus().snapshot();
    let mut at = 1;
    for place in 0..10 {
        let mut longer = blob.clone();
        longer[0] = 10;
        longer.splice(at..at, [3, 0, 0, 0, 0xEE, 7, 7]);
        let mut other = IoBus::new();
        assert_eq!(other.restore(&longer), Ok(()), "place {place}");
        assert_eq!(other.snapshot(), blob);
        if place < 9 {
            let mut len = [0; 4];
            len.copy_from_slice(&blob[at..at + 4]);
            at += 4 + u32::from_le_bytes(len) as usize;
        }
    }
    assert_eq!(at, blob.len());
}
