use wwwvm::disk::{Disk, SECTOR_SIZE};


#[test]
fn read_sector_past_end_returns_zero_padding() {
    let mut d = Disk::new();
    d.load(&[0xAA; 256]); // half a sector
    let mut buf = [0xFFu8; SECTOR_SIZE];
    let n = d.read_sectors(0, 1, &mut buf);
    assert_eq!(n, SECTOR_SIZE);
    assert_eq!(buf[0], 0xAA);
    assert_eq!(buf[255], 0xAA);
    assert_eq!(buf[256], 0x00, "zero-padded past image end");
}

#[test]
fn read_sector_one_grabs_second_512_bytes() {
    let mut d = Disk::new();
    let mut img = vec![0x11; SECTOR_SIZE];
    img.extend_from_slice(&[0x22; SECTOR_SIZE]);
    d.load(&img);
    let mut buf = [0u8; SECTOR_SIZE];
    d.read_sectors(1, 1, &mut buf);
    assert!(buf.iter().all(|&b| b == 0x22));
}
