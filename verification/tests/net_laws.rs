use wwwvm::allow::{is_globally_routable, Allowlist};
use wwwvm::ipv4::Ipv4Addr;
use wwwvm::switch::{Forward, Hub, Switch};
use wwwvm::util::internet_checksum;

fn frame(dst: u8, src: u8) -> Vec<u8> {
    let mut f = vec![0x52, 0, 0, 0, 0, dst, 0x52, 0, 0, 0, 0, src];
    f.extend_from_slice(&[8, 0]);
    f
}

#[test]
fn no_frame_goes_back() {
    let mut sw = Switch::new();
    assert_eq!(sw.egress(2, &frame(1, 2), 4), vec![0, 1, 3]);
    assert_eq!(sw.egress(9, &frame(1, 3), 2), vec![0, 1]);
    assert_eq!(sw.egress(0, &frame(3, 1), 2), Vec::<usize>::new(), "port 9 does not exist");
    assert_eq!(sw.egress(2, &frame(2, 4), 4), Vec::<usize>::new());
}

#[test]
fn a_full_table_learns_nothing_new() {
    let mut sw = Switch::new();
    for i in 0..1030u32 {
        let mut f = frame(0, 0);
        f[8..12].copy_from_slice(&i.to_be_bytes());
        sw.route(1, &f);
    }
    assert_eq!(sw.learned(), 1024);
    let mut known = frame(0, 0);
    known[8..12].copy_from_slice(&5u32.to_be_bytes());
    sw.route(3, &known);
    let mut to_known = frame(0, 0);
    to_known[2..6].copy_from_slice(&5u32.to_be_bytes());
    assert_eq!(sw.route(0, &to_known), Forward::Unicast(3), "a known address is still followed");
    let mut none = Switch::default();
    none.route(0, &frame(1, 2));
    assert_eq!(none.learned(), 0);
}

#[test]
fn a_forgotten_port_is_relearned() {
    let mut hub = Hub::default();
    hub.switch_mut().cap = 8;
    let sw = hub.switch_mut();
    sw.route(0, &frame(9, 1));
    sw.forget_port(0);
    assert_eq!(sw.route(1, &frame(1, 2)), Forward::Flood);
    sw.route(0, &frame(9, 1));
    assert_eq!(sw.route(1, &frame(1, 2)), Forward::Unicast(0));
}

#[test]
fn policies_compose() {
    let none = Allowlist::parse(" , ,");
    assert!(none.is_empty() && !none.permits("a", 1) && !none.allows_anything());
    let two = Allowlist::parse("a:1,b:*");
    assert!(two.permits("A", 1) && !two.permits("a", 2));
    assert!(two.permits("b", 1) && two.permits_host("B") && !two.permits_host("c"));
    assert_eq!(two.hosts(), vec!["a".to_string(), "b".to_string()]);
    let all = Allowlist::parse("a:1,*");
    assert!(all.allows_anything() && all.permits("anything", 65535));
    assert!(Allowlist::default().is_empty());
}

#[test]
fn only_blank_texts_are_empty_policies() {
    for raw in ["", " ", ",", "\t,\n ,\u{3000}", ",, ,\u{a0}"] {
        assert!(Allowlist::parse(raw).is_empty(), "{raw:?}");
    }
    for raw in [".", " , :", "\u{200b}", ",,*"] {
        assert!(!Allowlist::parse(raw).is_empty(), "{raw:?}");
    }
}

#[test]
fn a_comma_joins_two_policies() {
    let (a, b) = ("a:1, ,b", " C:2 ,a:3");
    let joined = Allowlist::parse(&format!("{a},{b}"));
    let mut names = Allowlist::parse(a).hosts();
    names.push("c".to_string());
    assert_eq!(joined.hosts(), names);
    assert!(joined.permits("a", 1) && joined.permits("a", 3) && !joined.permits("a", 2));
    assert!(joined.permits("b", 9) && joined.permits("c", 2) && !joined.permits("c", 3));
}

#[test]
fn inside_addresses_are_not_routable() {
    let inside = [
        [0, 1, 2, 3],
        [10, 0, 0, 1],
        [100, 64, 0, 1],
        [127, 0, 0, 1],
        [169, 254, 1, 1],
        [172, 16, 0, 1],
        [172, 31, 255, 255],
        [192, 168, 1, 1],
        [224, 0, 0, 1],
        [255, 255, 255, 255],
    ];
    for ip in inside {
        assert!(!is_globally_routable(Ipv4Addr::from_octets(ip)));
    }
    for ip in [[8, 8, 8, 8], [100, 128, 0, 1], [172, 32, 0, 1], [93, 184, 216, 34]] {
        assert!(is_globally_routable(Ipv4Addr::from_octets(ip)));
    }
    assert_eq!(Ipv4Addr::new(1, 2, 3, 4).to_number(), 0x0102_0304);
    assert_eq!(Ipv4Addr::new(1, 2, 3, 4).octets(), [1, 2, 3, 4]);
}

#[test]
fn a_packet_with_its_checksum_sums_to_zero() {
    let mut data = vec![0x12, 0x34, 0xFF, 0xFF, 0, 0, 0x01];
    let ck = internet_checksum(&data);
    data[4..6].copy_from_slice(&ck.to_be_bytes());
    assert_eq!(internet_checksum(&data), 0);
    assert_eq!(internet_checksum(&[]), 0xFFFF);
}

#[test]
fn a_round_is_planned_port_by_port() {
    let mut hub = Hub::new();
    let sent = vec![vec![frame(2, 1)], vec![frame(1, 2), vec![0; 5]], vec![]];
    let plan = hub.plan(&sent);
    let got: Vec<(usize, Vec<u8>)> = plan.into_iter().map(|d| (d.port, d.frame)).collect();
    assert_eq!(got, vec![(1, frame(2, 1)), (2, frame(2, 1)), (0, frame(1, 2))]);
    assert_eq!(hub.switch.learned(), 2);
}
