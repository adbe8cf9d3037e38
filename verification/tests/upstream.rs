use serde_json::Value;
use wwwvm::upstream::{
    auto_order, http_verdict, usable_upstreams, Exchange, Handshake, HandshakeError, ProxyKind,
    ProxyRecord, Upstream, AUTO_MAX_TRIES, MAX_HTTP_HEAD,
};

fn text(v: &Value, field: &str) -> String {
    v[field].as_str().unwrap().to_string()
}

fn port(v: &Value) -> u16 {
    v["port"].as_u64().unwrap() as u16
}

#[test]
fn proxy_kind_parses_lowercase() {
    let v: Value =
        serde_json::from_str(r#"{"kind":"socks5","host":"1.2.3.4","port":1080}"#).unwrap();
    let u = Upstream {
        kind: ProxyKind::from_name(&text(&v, "kind")).unwrap(),
        host: text(&v, "host"),
        port: port(&v),
    };
    assert_eq!(u.kind, ProxyKind::Socks5);
    assert_eq!(u.host, "1.2.3.4");
    assert_eq!(u.port, 1080);
    assert_eq!(u.to_text(), "socks5://1.2.3.4:1080");
    assert_eq!(ProxyKind::from_name("SOCKS5"), None);
    for kind in [ProxyKind::Socks5, ProxyKind::Socks4, ProxyKind::Http] {
        assert_eq!(ProxyKind::from_name(kind.as_str()), Some(kind));
    }
}

#[test]
fn proxy_file_skips_https_and_unknown() {
    let json = r#"{"updated":1,"proxies":[
        {"type":"socks5","host":"1.1.1.1","port":1080,"source":"x"},
        {"type":"https","host":"2.2.2.2","port":443,"source":"x"},
        {"type":"http","host":"3.3.3.3","port":8080,"source":"x"},
        {"type":"socks4","host":"4.4.4.4","port":1080,"source":"x"},
        {"type":"weird","host":"5.5.5.5","port":1,"source":"x"}
    ]}"#;
    let file: Value = serde_json::from_slice(json.as_bytes()).unwrap();
    let records: Vec<ProxyRecord> = file["proxies"]
        .as_array()
        .unwrap()
        .iter()
        .map(|r| ProxyRecord { kind: text(r, "type"), host: text(r, "host"), port: port(r) })
        .collect();
    let list = usable_upstreams(&records);
    assert_eq!(list.len(), 3, "https + weird dropped");
    assert_eq!(list[0].kind, ProxyKind::Socks5);
    assert_eq!(list[1].kind, ProxyKind::Http);
    assert_eq!(list[2].kind, ProxyKind::Socks4);
    assert_eq!((list[1].host.as_str(), list[1].port), ("3.3.3.3", 8080));
}

fn sent(next: Exchange) -> (Vec<u8>, usize) {
    match next {
        Exchange::Send(bytes, want) => (bytes, want),
        other => panic!("something to send, not {other:?}"),
    }
}

/// Host names are sent behind one byte of length: up to 255 bytes.
#[test]
fn socks5_rejects_overlong_hostname() {
    let long = "a".repeat(256);
    let (mut talk, first) = Handshake::start(ProxyKind::Socks5, &long, 80);
    assert_eq!(sent(first), (vec![5, 1, 0], 2));
    let next = talk.received(&[0x05, 0x00]);
    assert!(
        matches!(next, Exchange::Failed(HandshakeError::HostTooLong(256))),
        "too long"
    );
    let (mut talk, _) = Handshake::start(ProxyKind::Socks5, &"a".repeat(255), 80);
    let (request, want) = sent(talk.received(&[0x05, 0x00]));
    assert_eq!(request.len(), 7 + 255);
    assert_eq!(request[4], 255);
    assert_eq!(want, 4);
}

#[test]
fn socks5_conversation() {
    let (mut talk, _) = Handshake::start(ProxyKind::Socks5, "a.b", 0x1234);
    let (request, want) = sent(talk.received(&[5, 0]));
    assert_eq!(request, vec![5, 1, 0, 3, 3, b'a', b'.', b'b', 0x12, 0x34]);
    assert_eq!(want, 4);
    assert_eq!(sent(talk.received(&[5, 0, 0, 3])), (vec![], 1));
    assert_eq!(sent(talk.received(&[9])), (vec![], 11));
    assert!(matches!(talk.received(&[0; 11]), Exchange::Done));

    for (kind, want) in [(1u8, 6usize), (4, 18)] {
        let (mut talk, _) = Handshake::start(ProxyKind::Socks5, "a.b", 80);
        talk.received(&[5, 0]);
        assert_eq!(sent(talk.received(&[5, 0, 0, kind])), (vec![], want));
        assert!(matches!(talk.received(&vec![0; want]), Exchange::Done));
    }
}

#[test]
fn socks5_failures() {
    let (mut talk, _) = Handshake::start(ProxyKind::Socks5, "a.b", 80);
    assert!(matches!(
        talk.received(&[5, 0xFF]),
        Exchange::Failed(HandshakeError::AuthRefused(5, 0xFF))
    ));
    let (mut talk, _) = Handshake::start(ProxyKind::Socks5, "a.b", 80);
    talk.received(&[5, 0]);
    assert!(matches!(
        talk.received(&[5, 5, 0, 1]),
        Exchange::Failed(HandshakeError::ConnectFailed(5))
    ));
    let (mut talk, _) = Handshake::start(ProxyKind::Socks5, "a.b", 80);
    talk.received(&[5, 0]);
    assert!(matches!(
        talk.received(&[5, 0, 0, 2]),
        Exchange::Failed(HandshakeError::BadAddressType(2))
    ));
    let (mut talk, _) = Handshake::start(ProxyKind::Socks5, "a.b", 80);
    assert!(matches!(talk.closed(), Exchange::Failed(HandshakeError::Closed)));
}

#[test]
fn socks4_conversation() {
    let (mut talk, first) = Handshake::start(ProxyKind::Socks4, "a.b", 0x0050);
    assert_eq!(
        sent(first),
        (vec![4, 1, 0, 0x50, 0, 0, 0, 1, 0, b'a', b'.', b'b', 0], 8)
    );
    assert!(matches!(talk.received(&[0, 0x5A, 0, 0, 0, 0, 0, 0]), Exchange::Done));
    let (mut talk, _) = Handshake::start(ProxyKind::Socks4, "a.b", 80);
    assert!(matches!(
        talk.received(&[0, 0x5B, 0, 0, 0, 0, 0, 0]),
        Exchange::Failed(HandshakeError::Rejected(0x5B))
    ));
}

fn http_answer(answer: &[u8]) -> Exchange {
    let (mut talk, first) = Handshake::start(ProxyKind::Http, "a.b", 443);
    let (request, mut want) = sent(first);
    assert_eq!(
        String::from_utf8(request).unwrap(),
        "CONNECT a.b:443 HTTP/1.1\r\nHost: a.b:443\r\nProxy-Connection: keep-alive\r\n\r\n"
    );
    for b in answer {
        assert_eq!(want, 1);
        match talk.received(&[*b]) {
            Exchange::Send(bytes, n) => {
                assert!(bytes.is_empty());
                want = n;
            }
            done => return done,
        }
    }
    talk.closed()
}

#[test]
fn http_conversation() {
    let ok = b"HTTP/1.1 200 Connection established\r\nX: y\r\n\r\n";
    assert!(matches!(http_answer(ok), Exchange::Done));
    match http_answer(b"HTTP/1.1 403 Forbidden\r\n\r\n") {
        Exchange::Failed(HandshakeError::Refused(line)) => {
            assert_eq!(line, "HTTP/1.1 403 Forbidden")
        }
        other => panic!("refused, not {other:?}"),
    }
    assert!(matches!(
        http_answer(b"HTTP/1.1 200 OK\r\n"),
        Exchange::Failed(HandshakeError::Closed)
    ));
    assert!(matches!(
        http_answer(&vec![b'x'; MAX_HTTP_HEAD + 1]),
        Exchange::Failed(HandshakeError::HeadTooLarge)
    ));
}

/// A status line that is no text is still shown, with marks for what cannot be read.
#[test]
fn http_status_line_may_be_damaged() {
    match http_answer(b"HTTP/1.1 \xFF\xFE no\r\n\r\n") {
        Exchange::Failed(HandshakeError::Refused(line)) => {
            assert_eq!(line, "HTTP/1.1 \u{FFFD}\u{FFFD} no")
        }
        other => panic!("refused, not {other:?}"),
    }
    assert!(matches!(http_answer(b"\xFF 204\r\n\r\n"), Exchange::Done));
}

#[test]
fn http_status_is_a_number_from_200_to_299() {
    let ok = |line: &str| matches!(http_verdict(line.to_string()), Exchange::Done);
    assert!(ok("HTTP/1.1 200"));
    assert!(ok("  HTTP/1.0\t 299 yes"));
    assert!(ok("x +204"));
    assert!(!ok("HTTP/1.1 300"));
    assert!(!ok("HTTP/1.1 199"));
    assert!(!ok("HTTP/1.1 2 00"));
    assert!(!ok("HTTP/1.1"));
    assert!(!ok(""));
    assert!(!ok("HTTP/1.1 65736"));
}

#[test]
fn tries_rotate_through_the_list() {
    assert_eq!(auto_order(0, 0), Vec::<usize>::new());
    assert_eq!(auto_order(0, 3), vec![0, 1, 2]);
    assert_eq!(auto_order(5, 3), vec![2, 0, 1]);
    assert_eq!(auto_order(8, 10), vec![8, 9, 0, 1, 2, 3]);
    assert_eq!(auto_order(usize::MAX, 7).len(), AUTO_MAX_TRIES);
    assert_eq!(auto_order(usize::MAX, 7)[0], usize::MAX % 7);
}
