use wwwvm::dns::{QTYPE_A, QTYPE_AAAA};
use wwwvm::forwarder::{DnsForwarder, DNS_PORT, ETH_IPV4, IP_PROTO_UDP};
use wwwvm::ipv4::Ipv4Addr;
use wwwvm::util::internet_checksum;
use wwwvm::Allowlist;

const GW_IP: [u8; 4] = [10, 0, 2, 2];
const GW_MAC: [u8; 6] = [0x52, 0x54, 0x00, 0x00, 0x00, 0x02];
const GUEST_MAC: [u8; 6] = [0x52, 0x54, 0x00, 0x12, 0x34, 0x56];
const GUEST_IP: [u8; 4] = [10, 0, 2, 15];

fn fwd() -> DnsForwarder {
    DnsForwarder::new(
        GW_IP,
        GW_MAC,
        Allowlist::parse("dl-cdn.alpinelinux.org:80,dl-cdn.alpinelinux.org:443"),
    )
}

fn dns_query_payload(id: u16, name: &str, qtype: u16) -> Vec<u8> {
    let mut p = Vec::new();
    p.extend_from_slice(&id.to_be_bytes());
    p.extend_from_slice(&0x0100u16.to_be_bytes());
    p.extend_from_slice(&1u16.to_be_bytes());
    p.extend_from_slice(&[0, 0, 0, 0, 0, 0]);
    for label in name.split('.') {
        p.push(label.len() as u8);
        p.extend_from_slice(label.as_bytes());
    }
    p.push(0);
    p.extend_from_slice(&qtype.to_be_bytes());
    p.extend_from_slice(&1u16.to_be_bytes()); // IN
    p
}

fn query_frame(dst_ip: [u8; 4], payload: &[u8]) -> Vec<u8> {
    let udp_len = 8 + payload.len();
    let total = 20 + udp_len;
    let mut f = Vec::new();
    f.extend_from_slice(&GW_MAC); // to the gateway
    f.extend_from_slice(&GUEST_MAC);
    f.extend_from_slice(&ETH_IPV4.to_be_bytes());
    f.extend_from_slice(&[0x45, 0x00]);
    f.extend_from_slice(&(total as u16).to_be_bytes());
    f.extend_from_slice(&[0, 0, 0, 0, 64, IP_PROTO_UDP, 0, 0]);
    f.extend_from_slice(&GUEST_IP);
    f.extend_from_slice(&dst_ip);
    f.extend_from_slice(&40000u16.to_be_bytes()); // guest src port
    f.extend_from_slice(&DNS_PORT.to_be_bytes());
    f.extend_from_slice(&(udp_len as u16).to_be_bytes());
    f.extend_from_slice(&[0, 0]);
    f.extend_from_slice(payload);
    f
}

#[test]
fn cache_resolution_honours_allowlist_and_routability() {
    let mut f = fwd();
    let public = Ipv4Addr::new(151, 101, 2, 132);
    assert_eq!(f.cache_resolution("dl-cdn.alpinelinux.org", &[public]), 1);
    assert_eq!(f.name_for_ip(public), Some("dl-cdn.alpinelinux.org"));
    // Not allowlisted → rejected.
    assert_eq!(f.cache_resolution("evil.example.com", &[public]), 0);
    // Allowlisted but private/loopback → dropped (SSRF guard).
    assert_eq!(
        f.cache_resolution(
            "dl-cdn.alpinelinux.org",
            &[Ipv4Addr::new(127, 0, 0, 1), Ipv4Addr::new(10, 0, 0, 5)]
        ),
        0
    );
}

#[test]
fn a_query_for_cached_name_gets_the_address() {
    let mut f = fwd();
    let ip = Ipv4Addr::new(151, 101, 2, 132);
    f.cache_resolution("dl-cdn.alpinelinux.org", &[ip]);
    let frame = query_frame(
        GW_IP,
        &dns_query_payload(0x1111, "dl-cdn.alpinelinux.org", QTYPE_A),
    );
    let resp = f.handle_frame(&frame).expect("dns reply");
    // Ethernet + IP endpoints swapped back to the guest.
    assert_eq!(&resp[0..6], &GUEST_MAC);
    assert_eq!(&resp[6..12], &GW_MAC);
    // Walk to the DNS payload: eth(14) + ip(20) + udp(8).
    let dns = &resp[42..];
    assert_eq!(u16::from_be_bytes([dns[0], dns[1]]), 0x1111, "id echoed");
    assert_eq!(u16::from_be_bytes([dns[6], dns[7]]), 1, "one answer");
    // Answer RDATA = the cached IP (last 4 bytes).
    assert_eq!(&resp[resp.len() - 4..], &ip.octets());
    // IP header checksum valid.
    assert_eq!(internet_checksum(&resp[14..34]), 0);
    // UDP dst port = the guest's source port (40000).
    assert_eq!(u16::from_be_bytes([resp[36], resp[37]]), 40000);
}

#[test]
fn uncached_name_gets_nxdomain() {
    let f = fwd();
    let frame = query_frame(GW_IP, &dns_query_payload(2, "not-cached.example", QTYPE_A));
    let resp = f.handle_frame(&frame).expect("reply");
    let dns = &resp[42..];
    assert_eq!(u16::from_be_bytes([dns[2], dns[3]]) & 0x000F, 3, "NXDOMAIN");
}

#[test]
fn aaaa_query_gets_empty_noerror() {
    let mut f = fwd();
    f.cache_resolution("dl-cdn.alpinelinux.org", &[Ipv4Addr::new(151, 101, 2, 132)]);
    let frame = query_frame(
        GW_IP,
        &dns_query_payload(3, "dl-cdn.alpinelinux.org", QTYPE_AAAA),
    );
    let resp = f.handle_frame(&frame).expect("reply");
    let dns = &resp[42..];
    assert_eq!(u16::from_be_bytes([dns[2], dns[3]]) & 0x000F, 0, "NOERROR");
    assert_eq!(u16::from_be_bytes([dns[6], dns[7]]), 0, "no answers");
}

#[test]
fn non_dns_and_wrong_dst_are_ignored() {
    let f = fwd();
    // UDP to a different IP → not ours.
    let frame = query_frame([8, 8, 8, 8], &dns_query_payload(1, "x.com", QTYPE_A));
    assert!(f.handle_frame(&frame).is_none());
    // An ARP-sized non-IP frame.
    assert!(f.handle_frame(&[0u8; 30]).is_none());
}

#[test]
fn a_connection_needs_an_address_that_was_given_out() {
    let mut f = fwd();
    let ip = Ipv4Addr::new(151, 101, 2, 132);
    assert!(f.connection_permitted(ip, 80).is_none(), "never given out");
    assert_eq!(f.cache_resolution("DL-CDN.alpinelinux.org", &[ip]), 1);
    assert_eq!(f.connection_permitted(ip, 80).as_deref(), Some("dl-cdn.alpinelinux.org"));
    assert_eq!(f.connection_permitted(ip, 443).as_deref(), Some("dl-cdn.alpinelinux.org"));
    assert!(f.connection_permitted(ip, 22).is_none(), "port not allowed");
}

#[test]
fn an_allowed_name_that_is_not_cached_is_asked_for_once() {
    let mut f = fwd();
    let query = dns_query_payload(7, "dl-cdn.alpinelinux.org", QTYPE_A);
    assert!(f.serve_query(&query).is_some());
    assert!(f.serve_query(&query).is_some());
    assert!(f.serve_query(&dns_query_payload(8, "evil.example", QTYPE_A)).is_some());
    assert_eq!(f.take_pending(), vec!["dl-cdn.alpinelinux.org".to_string()]);
    assert!(f.take_pending().is_empty());
    f.cache_resolution("dl-cdn.alpinelinux.org", &[Ipv4Addr::new(151, 101, 2, 132)]);
    f.serve_query(&query);
    assert!(f.take_pending().is_empty(), "cached by now");
}

#[test]
fn the_gateway_itself_is_never_given_out() {
    let mut f = DnsForwarder::new([8, 8, 8, 8], GW_MAC, Allowlist::parse("*"));
    let kept = f.cache_resolution("a.b", &[Ipv4Addr::new(8, 8, 8, 8), Ipv4Addr::new(9, 9, 9, 9)]);
    assert_eq!(kept, 1);
    assert_eq!(f.name_for_ip(Ipv4Addr::new(8, 8, 8, 8)), None);
}
