use wwwvm::ipv4::Ipv4Addr;
use wwwvm::limits::PeerIp;
use wwwvm::session::{
    choose_route, choose_tls, client_action, connect_text, error_text, first_outside,
    origin_allowed, parse_origins, refusal_text, refuse_open_relay, watch_interval_ms,
    ClientAction, ClientMessage, ConnectFrame, Decision, FrameError, Route, Session, Stage,
    TlsChoice, Traffic,
};
use wwwvm::upstream::{ProxyKind, Upstream};
use wwwvm::Allowlist;

#[test]
fn open_relay_refused_only_on_public_bind_without_override() {
    assert!(refuse_open_relay(true, false, false)); // `*` + public + no override: refuse
    assert!(!refuse_open_relay(true, false, true)); // override set: allow
    assert!(!refuse_open_relay(true, true, false)); // loopback: allow (warn only)
    assert!(!refuse_open_relay(false, false, false)); // specific allowlist: allow
}

#[test]
fn origins_are_split_at_commas() {
    assert_eq!(parse_origins(None), None);
    assert_eq!(parse_origins(Some("  ")), None);
    let list = parse_origins(Some("http://a , http://b:8080"));
    assert_eq!(list, Some(vec!["http://a".to_string(), "http://b:8080".to_string()]));
    assert!(origin_allowed(&list, Some("http://a")));
    assert!(!origin_allowed(&list, Some("http://A")));
    assert!(!origin_allowed(&list, None));
    assert!(origin_allowed(&None, None));
    assert!(origin_allowed(&None, Some("http://evil")));
    assert!(origin_allowed(&Some(vec![String::new()]), None));
}

#[test]
fn the_first_message_is_text() {
    let ok = |m| connect_text(m).unwrap();
    assert_eq!(ok(ClientMessage::Text("{}".to_string())), "{}");
    assert_eq!(ok(ClientMessage::Binary("\u{e9}".as_bytes().to_vec())), "\u{e9}");
    assert_eq!(
        connect_text(ClientMessage::Binary(vec![0xFF])).unwrap_err(),
        FrameError::NotText
    );
    assert_eq!(connect_text(ClientMessage::Close).unwrap_err(), FrameError::Unexpected);
    assert_eq!(connect_text(ClientMessage::Other).unwrap_err(), FrameError::Unexpected);
}

fn frame(upstream: bool, auto: bool) -> ConnectFrame {
    let up = Upstream { kind: ProxyKind::Http, host: "p".to_string(), port: 1 };
    ConnectFrame {
        host: "Example.com".to_string(),
        port: 443,
        upstream: if upstream { Some(up) } else { None },
        auto,
    }
}

#[test]
fn the_policy_comes_before_the_way() {
    let allow = Allowlist::parse("example.com:443");
    let deny = Allowlist::parse("example.com:80");
    assert_eq!(choose_route(&frame(true, true), &deny, true), Route::Refused);
    assert_eq!(choose_route(&frame(true, true), &allow, true), Route::Upstream);
    assert_eq!(choose_route(&frame(false, true), &allow, true), Route::Auto);
    assert_eq!(choose_route(&frame(false, true), &allow, false), Route::NoPool);
    assert_eq!(choose_route(&frame(false, false), &allow, false), Route::Direct);
    assert_eq!(refusal_text("Example.com", 443), "ERR Example.com:443 not in allowlist");
    assert_eq!(error_text("h", 0, "resolve"), "ERR h:0 resolve");
}

#[test]
fn only_outside_addresses_are_connected_to() {
    let v4 = |a, b, c, d| PeerIp::V4(Ipv4Addr::new(a, b, c, d));
    let addrs = [PeerIp::V6(1), v4(127, 0, 0, 1), v4(9, 9, 9, 9), v4(8, 8, 8, 8)];
    assert_eq!(first_outside(&addrs), Some(2));
    assert_eq!(first_outside(&addrs[..2]), None);
    assert_eq!(first_outside(&[]), None);
}

#[test]
fn a_text_is_passed_on_unless_it_says_fin() {
    let act = |m| client_action(m);
    assert!(matches!(act(ClientMessage::Text("FIN".to_string())), ClientAction::Finish));
    assert!(matches!(act(ClientMessage::Close), ClientAction::Finish));
    assert!(matches!(act(ClientMessage::Other), ClientAction::Ignore));
    match act(ClientMessage::Text("fin".to_string())) {
        ClientAction::Forward(bytes) => assert_eq!(bytes, b"fin".to_vec()),
        _ => panic!("passed on"),
    }
    match act(ClientMessage::Binary(vec![1, 2])) {
        ClientAction::Forward(bytes) => assert_eq!(bytes, vec![1, 2]),
        _ => panic!("passed on"),
    }
}

#[test]
fn traffic_is_counted_both_ways_together() {
    let mut t = Traffic::new();
    assert!(!t.transferred(60, 5, 100));
    assert!(!t.transferred(0, 6, 100));
    assert!(!t.transferred(40, 7, 100), "exactly the limit");
    assert!(t.transferred(1, 8, 100));
    assert_eq!(t, Traffic { counted: 101, last_ms: 8 });
    assert!(!t.transferred(u64::MAX, 9, 0), "no limit");
    assert_eq!(t.counted, u64::MAX);
}

#[test]
fn idle_connections_are_noticed() {
    let t = Traffic { counted: 0, last_ms: 1000 };
    assert!(!t.is_idle(30_999, 30));
    assert!(t.is_idle(31_000, 30));
    assert!(!t.is_idle(u64::MAX, u64::MAX));
    assert_eq!(watch_interval_ms(1), 1000);
    assert_eq!(watch_interval_ms(3), 1500);
    assert_eq!(watch_interval_ms(60), 30_000);
}

#[test]
fn tls_needs_both_files() {
    assert_eq!(choose_tls(None, None), TlsChoice::Plain);
    assert_eq!(choose_tls(Some(" "), None), TlsChoice::Plain);
    assert_eq!(choose_tls(Some("c"), Some("k")), TlsChoice::Serve);
    assert_eq!(choose_tls(Some("c"), Some("")), TlsChoice::Incomplete);
    assert_eq!(choose_tls(None, Some("k")), TlsChoice::Incomplete);
}

fn asking() -> Session {
    let mut s = Session::new();
    assert!(s.greet(&None, None));
    s
}

fn connected() -> Session {
    let mut s = asking();
    assert_eq!(s.first_message(ClientMessage::Text("{}".to_string())).unwrap(), "{}");
    let allow = Allowlist::parse("example.com:443");
    match s.decide(&frame(false, false), &allow, false) {
        Decision::Connect(route) => assert_eq!(route, Route::Direct),
        Decision::Refuse(told) => panic!("connected, not {told}"),
    }
    assert_eq!(s.stage, Stage::Connecting(Route::Direct));
    s.connected();
    s
}

#[test]
fn a_client_that_is_refused_is_told_why() {
    let mut s = Session::new();
    assert!(!s.greet(&Some(vec!["http://a".to_string()]), Some("http://b")));
    assert_eq!(s.stage, Stage::Over);

    let mut s = asking();
    assert_eq!(s.first_message(ClientMessage::Other).unwrap_err(), FrameError::Unexpected);
    assert_eq!(s.stage, Stage::Over);

    for (policy, wish, told) in [
        ("other:1", frame(false, false), "ERR Example.com:443 not in allowlist"),
        (
            "example.com:*",
            frame(false, true),
            "ERR Example.com:443 auto upstream requested but WWWVM_PROXY_UPSTREAMS_FILE is unset",
        ),
    ] {
        let mut s = asking();
        s.first_message(ClientMessage::Binary(b"{}".to_vec())).unwrap();
        match s.decide(&wish, &Allowlist::parse(policy), false) {
            Decision::Refuse(text) => assert_eq!(text, told),
            Decision::Connect(_) => panic!("refused"),
        }
        assert_eq!(s.stage, Stage::Over);
    }

    let mut s = asking();
    s.first_message(ClientMessage::Text(String::new())).unwrap();
    s.decide(&frame(true, false), &Allowlist::parse("*"), false);
    assert_eq!(s.not_connected("timed out"), "ERR Example.com:443 timed out");
    assert_eq!(s.stage, Stage::Over);
}

#[test]
fn a_client_that_has_finished_is_still_served() {
    let mut s = connected();
    assert!(matches!(s.heard(ClientMessage::Binary(vec![1])), ClientAction::Forward(_)));
    assert!(!s.passed(true, 1, 10, 0));
    assert!(matches!(s.heard(ClientMessage::Text("FIN".to_string())), ClientAction::Finish));
    assert_eq!(s.stage, Stage::Relaying(false, true));
    assert!(matches!(s.heard(ClientMessage::Binary(vec![1])), ClientAction::Ignore));
    assert!(!s.passed(false, 500, 20, 0));
    assert_eq!(s.traffic, Traffic { counted: 501, last_ms: 20 });
    s.side_ended(false);
    assert_eq!(s.stage, Stage::Over);
}

#[test]
fn limits_end_a_connection() {
    let mut s = connected();
    assert!(!s.passed(false, 100, 1, 100));
    assert!(s.passed(true, 1, 2, 100));
    assert_eq!(s.stage, Stage::Relaying(false, true));
    s.side_ended(true);
    assert_eq!(s.stage, Stage::Relaying(false, true));

    let mut s = connected();
    s.passed(true, 1, 5_000, 0);
    assert!(!s.watched(99_000, 0), "no limit");
    assert!(!s.watched(14_999, 10));
    assert!(s.watched(15_000, 10));
    assert_eq!(s.stage, Stage::Over);
    assert!(!s.watched(99_000, 10));
}

#[test]
fn texts_count_toward_the_byte_limit() {
    let mut s = connected();
    let mut over = Vec::new();
    for word in ["a\u{e9}", "b", "c"] {
        match s.heard(ClientMessage::Text(word.to_string())) {
            ClientAction::Forward(bytes) => over.push(s.passed(true, bytes.len() as u64, 1, 4)),
            _ => panic!("passed on"),
        }
    }
    assert_eq!(over, vec![false, false, true], "3, 4 and 5 bytes of 4");
    assert_eq!(s.traffic.counted, 5);
    assert_eq!(s.stage, Stage::Relaying(false, true));
}
