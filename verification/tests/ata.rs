use wwwvm::ata::{Ata, CMD_IDENTIFY, CMD_READ_SECTORS, CMD_WRITE_SECTORS, STATUS_DRQ};
use wwwvm::disk::SECTOR_SIZE;
use wwwvm::IoDevice;


#[test]
fn identify_returns_signature_word_and_total_sector_count() {
    let mut ata = Ata::new();
    // Two-sector image.
    ata.disk.load(&[0xAA; SECTOR_SIZE * 2]);
    ata.write(0x1F7, CMD_IDENTIFY);
    assert!(ata.status & STATUS_DRQ != 0, "DRQ set after IDENTIFY");
    // Drain 512 bytes.
    let mut got = Vec::with_capacity(512);
    for _ in 0..512 {
        got.push(ata.read(0x1F0));
    }
    assert!(ata.status & STATUS_DRQ == 0, "DRQ clears once drained");
    // Word 0 = 0x0040.
    assert_eq!(u16::from_le_bytes([got[0], got[1]]), 0x0040);
    // Word 49 = 0x0200 (LBA supported).
    assert_eq!(u16::from_le_bytes([got[98], got[99]]), 0x0200);
    // Words 60/61 = total sectors (2 here).
    let total = (u16::from_le_bytes([got[120], got[121]]) as u32)
        | ((u16::from_le_bytes([got[122], got[123]]) as u32) << 16);
    assert_eq!(total, 2);
}

#[test]
fn read_sectors_returns_disk_contents_through_data_port() {
    let mut ata = Ata::new();
    // Three distinct sectors so we can check lane order.
    let mut img = Vec::with_capacity(SECTOR_SIZE * 3);
    img.extend_from_slice(&[0x11; SECTOR_SIZE]);
    img.extend_from_slice(&[0x22; SECTOR_SIZE]);
    img.extend_from_slice(&[0x33; SECTOR_SIZE]);
    ata.disk.load(&img);
    // Read sectors 1..3 (2 sectors).
    ata.write(0x1F2, 2); // sector count
    ata.write(0x1F3, 1); // LBA low = 1
    ata.write(0x1F4, 0);
    ata.write(0x1F5, 0);
    ata.write(0x1F6, 0x40); // LBA mode, drive 0
    ata.write(0x1F7, CMD_READ_SECTORS);
    assert!(ata.status & STATUS_DRQ != 0);
    // First half of buffer is all 0x22, second half all 0x33.
    for i in 0..SECTOR_SIZE {
        assert_eq!(ata.read(0x1F0), 0x22, "sector 1 byte {i}");
    }
    for i in 0..SECTOR_SIZE {
        assert_eq!(ata.read(0x1F0), 0x33, "sector 2 byte {i}");
    }
    assert!(ata.status & STATUS_DRQ == 0);
}

#[test]
fn write_sectors_commits_buffer_to_disk_on_full_drain() {
    let mut ata = Ata::new();
    // Start with two sectors of 0x11 so we can confirm sector 0
    // gets replaced while sector 1 stays untouched.
    ata.disk.load(&[0x11; SECTOR_SIZE * 2]);
    ata.write(0x1F2, 1); // sector count
    ata.write(0x1F3, 0); // LBA = 0
    ata.write(0x1F4, 0);
    ata.write(0x1F5, 0);
    ata.write(0x1F6, 0x40);
    ata.write(0x1F7, CMD_WRITE_SECTORS);
    assert!(ata.status & STATUS_DRQ != 0, "DRQ set after WRITE issue");
    assert!(ata.writing);
    // Pour 512 bytes through the data port.
    for _ in 0..SECTOR_SIZE {
        ata.write(0x1F0, 0x77);
    }
    assert!(ata.status & STATUS_DRQ == 0, "DRQ clears at end of write");
    assert!(!ata.writing);
    // Sector 0 now holds the new pattern; sector 1 still 0x11.
    let mut buf = [0u8; SECTOR_SIZE * 2];
    ata.disk.read_sectors(0, 2, &mut buf);
    assert!(buf[..SECTOR_SIZE].iter().all(|&b| b == 0x77));
    assert!(buf[SECTOR_SIZE..].iter().all(|&b| b == 0x11));
}

#[test]
fn outw_pattern_fills_two_bytes_per_pair_via_1f0_and_1f1() {
    // OUT DX, AX decomposes into write(0x1F0); write(0x1F1).
    // Both must accept buffer bytes while DRQ is up — mirror of
    // the inw drain test.
    let mut ata = Ata::new();
    ata.write(0x1F2, 1);
    ata.write(0x1F6, 0x40);
    ata.write(0x1F7, CMD_WRITE_SECTORS);
    for i in 0..256u32 {
        ata.write(0x1F0, i as u8); // low byte
        ata.write(0x1F1, (i >> 8) as u8); // high byte
    }
    assert!(ata.status & STATUS_DRQ == 0);
    // Read sector 0 back — it must hold the 256-byte pattern.
    let mut buf = [0u8; SECTOR_SIZE];
    ata.disk.read_sectors(0, 1, &mut buf);
    for i in 0..256u32 {
        assert_eq!(buf[(i * 2) as usize], i as u8, "lane {i} low");
        assert_eq!(buf[(i * 2 + 1) as usize], (i >> 8) as u8, "lane {i} high");
    }
}

#[test]
fn inw_pattern_drains_two_bytes_per_pair_via_1f0_and_1f1() {
    // Mimic what our CPU's `IN AX, DX` decomposes into: two
    // consecutive byte reads at 0x1F0 then 0x1F1. With DRQ set,
    // both reads must come from the data buffer (one byte each)
    // so a 256-iteration inw loop drains exactly 512 bytes.
    let mut ata = Ata::new();
    ata.disk.load(&[0x55u8; SECTOR_SIZE]);
    ata.write(0x1F2, 1);
    ata.write(0x1F6, 0x40);
    ata.write(0x1F7, CMD_READ_SECTORS);
    for _ in 0..256 {
        assert_eq!(ata.read(0x1F0), 0x55);
        assert_eq!(ata.read(0x1F1), 0x55);
    }
    assert!(ata.status & STATUS_DRQ == 0);
    // After DRQ clears, 0x1F1 returns the Error register again.
    assert_eq!(ata.read(0x1F1), 0);
}
