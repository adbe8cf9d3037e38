use wwwvm::ipv4::Ipv4Addr;
use wwwvm::limits::{read_setting, Gate, Limits, PeerIp};

#[test]
fn gate_enforces_caps_and_releases_on_drop() {
    let limits = Limits { max_conns: 3, max_per_ip: 2, idle_secs: 0, max_bytes: 0 };
    let mut gate = Gate::new(&limits);
    let a = PeerIp::V4(Ipv4Addr::new(1, 1, 1, 1));
    let b = PeerIp::V4(Ipv4Addr::new(2, 2, 2, 2));

    let g1 = gate.try_acquire(a).expect("a #1");
    let g2 = gate.try_acquire(a).expect("a #2");
    // A refusal for one address takes no place from others.
    assert!(gate.try_acquire(a).is_none(), "per-IP cap reached for a");

    let g3 = gate.try_acquire(b).expect("b #1 (global slot 3/3)");
    assert!(gate.try_acquire(b).is_none(), "global cap reached");

    gate.release(g2);
    let g4 = gate.try_acquire(a).expect("a reacquires after release");

    gate.release(g1);
    gate.release(g3);
    gate.release(g4);
    assert!(gate.try_acquire(a).is_some());
    assert!(!gate.v4.contains_key(&0x0202_0202), "b entry removed");
    assert_eq!(gate.count_of(b), 0);
}

#[test]
fn zero_max_conns_is_unlimited_global() {
    let limits = Limits { max_conns: 0, max_per_ip: 0, idle_secs: 0, max_bytes: 0 };
    let mut gate = Gate::new(&limits);
    let a = PeerIp::V4(Ipv4Addr::new(9, 9, 9, 9));
    let guards: Vec<_> = (0..1000).filter_map(|_| gate.try_acquire(a)).collect();
    assert_eq!(guards.len(), 1000, "no global or per-IP cap");
}

#[test]
fn ipv6_addresses_are_counted_apart() {
    let limits = Limits { max_conns: 0, max_per_ip: 1, idle_secs: 0, max_bytes: 0 };
    let mut gate = Gate::new(&limits);
    let v4 = PeerIp::V4(Ipv4Addr::new(0, 0, 0, 1));
    let v6 = PeerIp::V6(1);
    let g = gate.try_acquire(v6).expect("first");
    assert!(gate.try_acquire(v6).is_none());
    assert!(gate.try_acquire(v4).is_some());
    gate.release(g);
    assert_eq!((gate.count_of(v6), gate.count_of(v4), gate.total), (0, 1, 1));
}

#[test]
fn settings_have_defaults() {
    let limits = Limits::from_settings(None, None, None, None);
    let expected = Limits { max_conns: 512, max_per_ip: 32, idle_secs: 0, max_bytes: 0 };
    assert_eq!(limits, expected);
    let limits = Limits::from_settings(Some(" 7 "), Some("x"), Some("30"), Some("-1"));
    let expected = Limits { max_conns: 7, max_per_ip: 32, idle_secs: 30, max_bytes: 0 };
    assert_eq!(limits, expected);
    assert_eq!(read_setting(Some("18446744073709551615"), 1), u64::MAX);
    assert_eq!(read_setting(Some("18446744073709551616"), 1), 1);
    assert_eq!(read_setting(Some(""), 5), 5);
}
