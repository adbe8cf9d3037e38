use wwwvm::dns::{build_response, parse_query, DnsAnswer, QCLASS_IN, QTYPE_A, QTYPE_AAAA};
use wwwvm::ipv4::Ipv4Addr;

/// Encode a QNAME (labels) into wire form.
fn qname(name: &str) -> Vec<u8> {
    let mut v = Vec::new();
    for label in name.split('.') {
        v.push(label.len() as u8);
        v.extend_from_slice(label.as_bytes());
    }
    v.push(0);
    v
}

fn query_packet(id: u16, name: &str, qtype: u16) -> Vec<u8> {
    let mut p = Vec::new();
    p.extend_from_slice(&id.to_be_bytes());
    p.extend_from_slice(&0x0100u16.to_be_bytes()); // RD set, standard query
    p.extend_from_slice(&1u16.to_be_bytes()); // QDCOUNT
    p.extend_from_slice(&[0, 0, 0, 0, 0, 0]); // AN/NS/AR = 0
    p.extend_from_slice(&qname(name));
    p.extend_from_slice(&qtype.to_be_bytes());
    p.extend_from_slice(&QCLASS_IN.to_be_bytes());
    p
}

#[test]
fn parses_a_multi_label_a_query() {
    let q = parse_query(&query_packet(0xABCD, "dl-cdn.alpinelinux.org", QTYPE_A))
        .expect("valid query");
    assert_eq!(q.id, 0xABCD);
    assert_eq!(q.name, "dl-cdn.alpinelinux.org");
    assert_eq!(q.qtype, QTYPE_A);
    assert_eq!(q.qclass, QCLASS_IN);
    assert!(q.recursion_desired);
}

#[test]
fn qname_is_lowercased() {
    let q = parse_query(&query_packet(1, "DL-CDN.Alpinelinux.ORG", QTYPE_A)).unwrap();
    assert_eq!(q.name, "dl-cdn.alpinelinux.org");
}

#[test]
fn build_a_response_carries_address_and_echoes_question() {
    let q = parse_query(&query_packet(0x1234, "example.com", QTYPE_A)).unwrap();
    let ip = Ipv4Addr::new(93, 184, 216, 34);
    let r = build_response(&q, DnsAnswer::Addrs(vec![ip]));
    // Header: same ID, QR+AA+RA set, NOERROR, QD=1, AN=1.
    assert_eq!(u16::from_be_bytes([r[0], r[1]]), 0x1234);
    let flags = u16::from_be_bytes([r[2], r[3]]);
    assert_ne!(flags & 0x8000, 0, "QR");
    assert_eq!(flags & 0x000F, 0, "NOERROR");
    assert_eq!(u16::from_be_bytes([r[4], r[5]]), 1, "QDCOUNT");
    assert_eq!(u16::from_be_bytes([r[6], r[7]]), 1, "ANCOUNT");
    // Question echoed verbatim right after the 12-byte header.
    assert_eq!(&r[12..12 + q.question_wire.len()], &q.question_wire[..]);
    // Answer RR: compression pointer to 0x000C, type A, the IP in RDATA.
    let ans = 12 + q.question_wire.len();
    assert_eq!(&r[ans..ans + 2], &[0xC0, 0x0C]);
    assert_eq!(u16::from_be_bytes([r[ans + 2], r[ans + 3]]), QTYPE_A);
    assert_eq!(&r[ans + 12..ans + 16], &ip.octets());
}

#[test]
fn aaaa_gets_empty_noerror() {
    // Caller maps AAAA → Addrs(vec![]) (NOERROR, no answers) on our v4 LAN.
    let q = parse_query(&query_packet(7, "example.com", QTYPE_AAAA)).unwrap();
    assert_eq!(q.qtype, QTYPE_AAAA);
    let r = build_response(&q, DnsAnswer::Addrs(vec![]));
    assert_eq!(u16::from_be_bytes([r[6], r[7]]), 0, "ANCOUNT 0");
    assert_eq!(u16::from_be_bytes([r[2], r[3]]) & 0x000F, 0, "NOERROR");
}

#[test]
fn nxdomain_sets_rcode_3() {
    let q = parse_query(&query_packet(9, "nope.example", QTYPE_A)).unwrap();
    let r = build_response(&q, DnsAnswer::NxDomain);
    assert_eq!(u16::from_be_bytes([r[2], r[3]]) & 0x000F, 3, "NXDOMAIN");
    assert_eq!(u16::from_be_bytes([r[6], r[7]]), 0, "no answers");
}

#[test]
fn rejects_truncated_and_responses_and_multi_question() {
    assert!(parse_query(&[0u8; 5]).is_none(), "too short");
    // QR=1 (a response, not a query).
    let mut resp = query_packet(1, "x.com", QTYPE_A);
    resp[2] |= 0x80;
    assert!(parse_query(&resp).is_none(), "response rejected");
    // QDCOUNT = 2.
    let mut two = query_packet(1, "x.com", QTYPE_A);
    two[5] = 2;
    assert!(parse_query(&two).is_none(), "multi-question rejected");
}

#[test]
fn compression_pointer_loop_does_not_hang() {
    // A question name that is a pointer to itself — must terminate, not loop.
    let mut p = Vec::new();
    p.extend_from_slice(&1u16.to_be_bytes());
    p.extend_from_slice(&0x0100u16.to_be_bytes());
    p.extend_from_slice(&1u16.to_be_bytes());
    p.extend_from_slice(&[0, 0, 0, 0, 0, 0]);
    p.extend_from_slice(&[0xC0, 0x0C]); // pointer at offset 12 → points to 12 (self)
    assert!(parse_query(&p).is_none());
}

#[test]
fn every_address_of_an_answer_is_carried() {
    let q = parse_query(&query_packet(0x0102, "a.b", QTYPE_A)).unwrap();
    let addrs = vec![Ipv4Addr::new(1, 2, 3, 4), Ipv4Addr::new(5, 6, 7, 8)];
    let r = build_response(&q, DnsAnswer::Addrs(addrs));
    assert_eq!(u16::from_be_bytes([r[6], r[7]]), 2);
    assert_eq!(r.len(), 12 + q.question_wire.len() + 2 * 16);
    assert_eq!(&r[r.len() - 4..], &[5, 6, 7, 8]);
    assert!(parse_query(&r).is_none(), "an answer is no query");
}

#[test]
fn a_name_with_bytes_that_are_no_text_is_refused() {
    let mut p = query_packet(1, "ab", QTYPE_A);
    p[13] = 0xFF;
    let q = parse_query(&p);
    assert!(q.is_none());
}
