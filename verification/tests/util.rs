use wwwvm::util::internet_checksum;


#[test]
fn rfc1071_known_vector() {
    let hdr = [
        0x45, 0x00, 0x00, 0x73, 0x00, 0x00, 0x40, 0x00, 0x40, 0x11, 0x00, 0x00, 0xc0, 0xa8,
        0x00, 0x01, 0xc0, 0xa8, 0x00, 0xc7,
    ];
    assert_eq!(internet_checksum(&hdr), 0xb861);
}

#[test]
fn valid_packet_sums_to_zero() {
    let mut hdr = [
        0x45, 0x00, 0x00, 0x73, 0x00, 0x00, 0x40, 0x00, 0x40, 0x11, 0x00, 0x00, 0xc0, 0xa8,
        0x00, 0x01, 0xc0, 0xa8, 0x00, 0xc7,
    ];
    let ck = internet_checksum(&hdr);
    hdr[10..12].copy_from_slice(&ck.to_be_bytes());
    assert_eq!(internet_checksum(&hdr), 0);
}
