use smoltcp::iface::{Config, Interface, SocketHandle, SocketSet};
use smoltcp::phy::{self, Device, DeviceCapabilities, Medium};
use smoltcp::socket::tcp;
use smoltcp::time::Instant;
use smoltcp::wire::{EthernetAddress, HardwareAddress, IpAddress, IpCidr, Ipv4Address};
use wwwvm::device::{GuestDevice, MTU};
use wwwvm::ipv4::Ipv4Addr;
use wwwvm::nat_stack::{
    is_over, parse_initial_syn, Admission, Flow, FlowKey, HostReply, HostTook, NatStack, Step,
    ETH_IPV4, IP_PROTO_TCP, MAX_FLOWS, PUMP_CHUNK, READ_CHUNK, TCP_BUF,
};
use wwwvm::pump::pump_flow;
use wwwvm::{Allowlist, DnsForwarder, QueueConnector};

const TCP_SYN: u8 = 0x02;
const TCP_ACK: u8 = 0x10;
const GW_MAC: [u8; 6] = [0x52, 0x54, 0x00, 0x00, 0x00, 0x02];
const GUEST_MAC: [u8; 6] = [0x52, 0x54, 0x00, 0x12, 0x34, 0x56];
const GW_IP: [u8; 4] = [10, 0, 2, 2];
const GUEST_IP: [u8; 4] = [10, 0, 2, 15];
const PUBLIC_IP: [u8; 4] = [93, 184, 216, 34];

fn syn_frame(dst_ip: [u8; 4], dst_port: u16, src_port: u16, ack: bool) -> Vec<u8> {
    let mut f = Vec::new();
    f.extend_from_slice(&GW_MAC);
    f.extend_from_slice(&GUEST_MAC);
    f.extend_from_slice(&ETH_IPV4.to_be_bytes());
    f.extend_from_slice(&[0x45, 0x00, 0x00, 0x28, 0, 0, 0, 0, 64, IP_PROTO_TCP, 0, 0]);
    f.extend_from_slice(&GUEST_IP);
    f.extend_from_slice(&dst_ip);
    f.extend_from_slice(&src_port.to_be_bytes());
    f.extend_from_slice(&dst_port.to_be_bytes());
    f.extend_from_slice(&[0, 0, 0, 0]);
    f.extend_from_slice(&[0, 0, 0, 0]);
    let flags = if ack { TCP_SYN | TCP_ACK } else { TCP_SYN };
    f.extend_from_slice(&[0x50, flags, 0xFF, 0xFF, 0, 0, 0, 0]);
    f
}

#[test]
fn parses_initial_syn() {
    let f = syn_frame([93, 184, 216, 34], 80, 50000, false);
    let key = parse_initial_syn(&f).expect("a SYN");
    assert_eq!(key.dst_ip, Ipv4Addr::new(93, 184, 216, 34));
    assert_eq!(key.dst_port, 80);
    assert_eq!(key.guest_port, 50000);
}

#[test]
fn ignores_syn_ack_and_non_tcp() {
    assert!(parse_initial_syn(&syn_frame([1, 2, 3, 4], 80, 1, true)).is_none());
    assert!(parse_initial_syn(&[0u8; 30]).is_none());
}

#[test]
fn options_move_the_tcp_header() {
    let mut f = syn_frame([1, 2, 3, 4], 80, 4660, false);
    f[14] = 0x46;
    f.splice(34..34, [1, 1, 1, 1]);
    let key = parse_initial_syn(&f).expect("a SYN behind options");
    assert_eq!(key.guest_port, 4660);
    assert_eq!(key.dst_port, 80);
    f[14] = 0x44;
    assert!(parse_initial_syn(&f).is_none(), "header too short");
    f[14] = 0x4F;
    assert!(parse_initial_syn(&f).is_none(), "header past the end");
}

fn dns_with(allow: &str, name: &str, ip: [u8; 4]) -> DnsForwarder {
    let mut d = DnsForwarder::new(GW_IP, GW_MAC, Allowlist::parse(allow));
    d.cache_resolution(name, &[Ipv4Addr::from_octets(ip)]);
    d
}

fn nat_with(dns: DnsForwarder) -> NatStack {
    NatStack::new(GW_IP, GW_MAC, GUEST_IP, dns)
}

#[test]
fn syn_to_allowlisted_host_opens_a_flow() {
    let dns = dns_with("dl-cdn.alpinelinux.org:80", "dl-cdn.alpinelinux.org", PUBLIC_IP);
    let mut nat = nat_with(dns);
    match nat.push_guest_frame(syn_frame(PUBLIC_IP, 80, 50000, false)) {
        Admission::Open(key, sock) => {
            assert_eq!((key.dst_ip, key.dst_port), (Ipv4Addr::from_octets(PUBLIC_IP), 80));
            assert_eq!(sock.state(), tcp::State::Listen);
            assert_eq!(sock.send_capacity(), TCP_BUF);
            assert_eq!(sock.recv_capacity(), TCP_BUF);
            assert_eq!(sock.timeout(), Some(smoltcp::time::Duration::from_secs(30)));
        }
        _ => panic!("flow opened"),
    }
    assert_eq!(nat.flow_count(), 1, "flow opened");
    assert!(
        matches!(
            nat.push_guest_frame(syn_frame(PUBLIC_IP, 80, 50000, false)),
            Admission::Pass
        ),
        "connected once"
    );
    assert_eq!(nat.flow_count(), 1);
}

#[test]
fn syn_to_non_allowlisted_port_is_denied() {
    let dns = dns_with("dl-cdn.alpinelinux.org:80", "dl-cdn.alpinelinux.org", PUBLIC_IP);
    let mut nat = nat_with(dns);
    let a = nat.push_guest_frame(syn_frame(PUBLIC_IP, 443, 50000, false));
    assert_eq!(nat.flow_count(), 0, "denied: no flow");
    assert!(matches!(a, Admission::Denied(_)), "nothing to connect");
}

#[test]
fn syn_to_unresolved_ip_is_denied() {
    let dns = dns_with("dl-cdn.alpinelinux.org:80", "dl-cdn.alpinelinux.org", PUBLIC_IP);
    let mut nat = nat_with(dns);
    let a = nat.push_guest_frame(syn_frame([8, 8, 8, 8], 80, 50000, false));
    assert_eq!(nat.flow_count(), 0, "unknown IP: no flow");
    assert!(matches!(a, Admission::Denied(_)));
}

#[test]
fn empty_allowlist_denies_all_tcp() {
    let dns = dns_with("", "dl-cdn.alpinelinux.org", PUBLIC_IP);
    let mut nat = nat_with(dns);
    let a = nat.push_guest_frame(syn_frame(PUBLIC_IP, 80, 50000, false));
    assert_eq!(nat.flow_count(), 0);
    assert!(matches!(a, Admission::Denied(_)));
}

#[test]
fn flows_are_limited_and_freed() {
    let mut nat = nat_with(dns_with("a.b:*", "a.b", PUBLIC_IP));
    for port in 0..MAX_FLOWS as u16 {
        let a = nat.push_guest_frame(syn_frame(PUBLIC_IP, 80, 1000 + port, false));
        assert!(matches!(a, Admission::Open(_, _)));
    }
    let a = nat.push_guest_frame(syn_frame(PUBLIC_IP, 80, 9, false));
    assert!(matches!(a, Admission::Full));
    assert_eq!(nat.flow_count(), MAX_FLOWS);
    let key = FlowKey {
        guest_port: 1003,
        dst_ip: Ipv4Addr::from_octets(PUBLIC_IP),
        dst_port: 80,
    };
    assert!(nat.find_flow(key).is_some());
    assert!(nat.close_flow(key));
    assert!(!nat.close_flow(key));
    assert_eq!(nat.flow_count(), MAX_FLOWS - 1);
    let a = nat.push_guest_frame(syn_frame(PUBLIC_IP, 80, 9, false));
    assert!(matches!(a, Admission::Open(_, _)));
}

#[test]
fn nothing_listens_on_port_zero() {
    let mut nat = nat_with(dns_with("a.b:*", "a.b", PUBLIC_IP));
    let a = nat.push_guest_frame(syn_frame(PUBLIC_IP, 0, 9, false));
    assert!(matches!(a, Admission::NoSocket(_)));
    assert_eq!(nat.flow_count(), 0);
}

#[test]
fn names_and_frames_pass_through_the_stack() {
    let mut nat = nat_with(dns_with("a.b:80", "a.b", PUBLIC_IP));
    assert_eq!(nat.guest_ip(), Ipv4Addr::from_octets(GUEST_IP));
    assert_eq!(nat.host_for_ip(Ipv4Addr::from_octets(PUBLIC_IP)), Some("a.b"));
    assert_eq!(nat.cache_dns("a.b", &[Ipv4Addr::new(9, 9, 9, 9), Ipv4Addr::new(10, 0, 0, 1)]), 1);
    assert_eq!(nat.host_for_ip(Ipv4Addr::new(9, 9, 9, 9)), Some("a.b"));
    assert!(nat.take_dns_requests().is_empty());
    nat.push_guest_frame_raw(vec![1]);
    assert_eq!(nat.device.pop_guest_frame(), Some(vec![1]));
    assert!(!nat.has_egress());
    nat.device.push_egress(vec![2]);
    nat.device.push_egress(vec![3]);
    let f = nat.pop_egress().unwrap();
    nat.requeue_egress_front(f);
    assert!(nat.has_egress());
    assert_eq!(nat.pop_egress(), Some(vec![2]));
    assert_eq!(nat.pop_egress(), Some(vec![3]));
    assert_eq!(nat.pop_egress(), None);
}

struct Link<'a>(&'a mut GuestDevice);
struct RxToken(Vec<u8>);
struct TxToken<'a>(&'a mut GuestDevice);

impl phy::RxToken for RxToken {
    fn consume<R, F>(mut self, f: F) -> R
    where
        F: FnOnce(&mut [u8]) -> R,
    {
        f(&mut self.0)
    }
}

impl phy::TxToken for TxToken<'_> {
    fn consume<R, F>(self, len: usize, f: F) -> R
    where
        F: FnOnce(&mut [u8]) -> R,
    {
        let mut buf = vec![0u8; len];
        let r = f(&mut buf);
        self.0.push_egress(buf);
        r
    }
}

impl Device for Link<'_> {
    type RxToken<'a> = RxToken where Self: 'a;
    type TxToken<'a> = TxToken<'a> where Self: 'a;

    fn receive(&mut self, _timestamp: Instant) -> Option<(Self::RxToken<'_>, Self::TxToken<'_>)> {
        let frame = self.0.pop_guest_frame()?;
        Some((RxToken(frame), TxToken(self.0)))
    }

    fn transmit(&mut self, _timestamp: Instant) -> Option<Self::TxToken<'_>> {
        Some(TxToken(self.0))
    }

    fn capabilities(&self) -> DeviceCapabilities {
        let mut caps = DeviceCapabilities::default();
        caps.medium = Medium::Ethernet;
        caps.max_transmission_unit = MTU;
        caps
    }
}

fn interface(device: &mut GuestDevice, mac: [u8; 6], ip: [u8; 4], router: [u8; 4]) -> Interface {
    let config = Config::new(HardwareAddress::Ethernet(EthernetAddress(mac)));
    let mut iface = Interface::new(config, &mut Link(device), Instant::from_millis(0));
    iface.update_ip_addrs(|a| {
        a.push(IpCidr::new(IpAddress::v4(ip[0], ip[1], ip[2], ip[3]), 24)).unwrap();
    });
    iface
        .routes_mut()
        .add_default_ipv4_route(Ipv4Address::new(router[0], router[1], router[2], router[3]))
        .unwrap();
    iface
}

struct Stack {
    nat: NatStack,
    iface: Interface,
    sockets: SocketSet<'static>,
    links: Vec<(FlowKey, SocketHandle, u64)>,
    queue: QueueConnector,
}

impl Stack {
    fn new(dns: DnsForwarder) -> Self {
        let mut nat = nat_with(dns);
        let mut iface = interface(&mut nat.device, GW_MAC, GW_IP, GW_IP);
        iface.set_any_ip(true);
        Stack {
            nat,
            iface,
            sockets: SocketSet::new(Vec::new()),
            links: Vec::new(),
            queue: QueueConnector::new(),
        }
    }

    fn push_guest_frame(&mut self, frame: Vec<u8>) {
        if let Admission::Open(key, sock) = self.nat.push_guest_frame(frame) {
            let handle = self.sockets.add(sock);
            let id = self.queue.open(key.dst_ip, key.dst_port);
            self.links.push((key, handle, id));
        }
    }

    fn poll(&mut self, now_millis: i64) {
        let ts = Instant::from_millis(now_millis);
        self.iface.poll(ts, &mut Link(&mut self.nat.device), &mut self.sockets);
        for (key, handle, id) in self.links.clone() {
            let Some(at) = self.nat.find_flow(key) else {
                continue;
            };
            let flow = &mut self.nat.flows[at];
            let sock = self.sockets.get_mut::<tcp::Socket>(handle);
            pump_flow(flow, sock, &mut self.queue, id);
            if is_over(sock) {
                self.nat.close_flow(key);
                self.queue.reap(id);
            }
        }
        self.iface.poll(ts, &mut Link(&mut self.nat.device), &mut self.sockets);
    }
}

fn arp_request(target_ip: [u8; 4]) -> Vec<u8> {
    let mut f = Vec::new();
    f.extend_from_slice(&[0xff; 6]);
    f.extend_from_slice(&GUEST_MAC);
    f.extend_from_slice(&[0x08, 0x06]);
    f.extend_from_slice(&[0x00, 0x01]);
    f.extend_from_slice(&ETH_IPV4.to_be_bytes());
    f.extend_from_slice(&[6, 4]);
    f.extend_from_slice(&[0x00, 0x01]);
    f.extend_from_slice(&GUEST_MAC);
    f.extend_from_slice(&GUEST_IP);
    f.extend_from_slice(&[0; 6]);
    f.extend_from_slice(&target_ip);
    f
}

fn drain_egress(nat: &mut NatStack) -> Vec<Vec<u8>> {
    let mut v = Vec::new();
    while let Some(f) = nat.pop_egress() {
        v.push(f);
    }
    v
}

fn is_arp_reply_for(f: &[u8], sender_ip: [u8; 4]) -> bool {
    f.len() >= 42
        && f[12] == 0x08
        && f[13] == 0x06
        && f[20] == 0
        && f[21] == 2
        && f[28..32] == sender_ip
}

#[test]
fn answers_gateway_arp_but_ignores_peer_arp() {
    let dns = DnsForwarder::new(GW_IP, GW_MAC, Allowlist::parse(""));
    let mut stack = Stack::new(dns);

    stack.push_guest_frame(arp_request([10, 0, 2, 2]));
    stack.poll(0);
    let egress = drain_egress(&mut stack.nat);
    let reply = egress
        .iter()
        .find(|f| is_arp_reply_for(f, [10, 0, 2, 2]))
        .expect("NAT must answer ARP for its gateway IP");
    assert_eq!(&reply[22..28], &GW_MAC, "ARP reply sender MAC = gateway MAC");

    stack.push_guest_frame(arp_request([10, 0, 2, 16]));
    stack.poll(10);
    let egress = drain_egress(&mut stack.nat);
    assert!(
        !egress.iter().any(|f| is_arp_reply_for(f, [10, 0, 2, 16])),
        "NAT must ignore ARP for peer IPs (no hijack on the shared LAN)"
    );
}

/// A guest with a TCP client of its own, connected to the stack.
struct Guest {
    dev: GuestDevice,
    iface: Interface,
    sockets: SocketSet<'static>,
    handle: SocketHandle,
}

impl Guest {
    fn connect(host: [u8; 4], port: u16) -> Self {
        let mut dev = GuestDevice::new();
        let mut iface = interface(&mut dev, GUEST_MAC, GUEST_IP, GW_IP);
        let mut sockets = SocketSet::new(Vec::new());
        let rx = tcp::SocketBuffer::new(vec![0u8; 8192]);
        let tx = tcp::SocketBuffer::new(vec![0u8; 8192]);
        let handle = sockets.add(tcp::Socket::new(rx, tx));
        let remote = (IpAddress::v4(host[0], host[1], host[2], host[3]), port);
        sockets
            .get_mut::<tcp::Socket>(handle)
            .connect(iface.context(), remote, 49152)
            .expect("client connect");
        Guest { dev, iface, sockets, handle }
    }

    fn exchange(&mut self, stack: &mut Stack, t_ms: i64) {
        let t = Instant::from_millis(t_ms);
        self.iface.poll(t, &mut Link(&mut self.dev), &mut self.sockets);
        while let Some(f) = self.dev.pop_egress() {
            stack.push_guest_frame(f);
        }
        stack.poll(t_ms);
        while let Some(f) = stack.nat.pop_egress() {
            self.dev.push_guest_frame(f);
        }
    }

    fn socket(&mut self) -> &mut tcp::Socket<'static> {
        self.sockets.get_mut::<tcp::Socket>(self.handle)
    }

    fn take(&mut self, got: &mut Vec<u8>) {
        let sock = self.socket();
        if sock.can_recv() {
            let _ = sock.recv(|buf| {
                got.extend_from_slice(buf);
                (buf.len(), ())
            });
        }
    }
}

#[test]
fn guest_tcp_through_queue_nat_echoes() {
    let mut stack = Stack::new(dns_with("example.com:80", "example.com", PUBLIC_IP));
    let mut guest = Guest::connect(PUBLIC_IP, 80);
    let mut open: Vec<u64> = Vec::new();
    let mut got = Vec::<u8>::new();
    let mut sent_request = false;
    let mut t_ms: i64 = 0;
    for _ in 0..400 {
        guest.exchange(&mut stack, t_ms);
        for (id, _, _) in stack.queue.take_new() {
            open.push(id);
        }
        for &id in &open {
            let (bytes, _closed) = stack.queue.drain_outbound(id);
            if !bytes.is_empty() {
                assert!(stack.queue.push_inbound(id, &bytes), "echo accepted");
            }
        }
        if guest.socket().can_send() && !sent_request {
            guest.socket().send_slice(b"PING").expect("send");
            sent_request = true;
        }
        guest.take(&mut got);
        if got == b"PING" {
            break;
        }
        t_ms += 10;
    }
    assert_eq!(got, b"PING", "guest received the host's echo through the NAT");
    assert_eq!(stack.queue.conn_count(), 1, "flow stayed open across the exchange");
    assert!(stack.nat.flows[0].established);
}

/// A whole conversation: more bytes than fit at once both ways, the guest finishes first,
/// then the outside, and the flow is freed.
#[test]
fn a_conversation_ends_without_losing_a_byte() {
    let mut stack = Stack::new(dns_with("example.com:80", "example.com", PUBLIC_IP));
    let mut guest = Guest::connect(PUBLIC_IP, 80);
    let up: Vec<u8> = (0..40_000u32).map(|i| (i % 251) as u8).collect();
    let down: Vec<u8> = (0..90_000u32).map(|i| (i % 249) as u8).collect();
    let (mut sent, mut fed) = (0usize, 0usize);
    let (mut shipped, mut got) = (Vec::<u8>::new(), Vec::<u8>::new());
    let mut guest_done = false;
    let mut half_closed = false;
    for turn in 0..4000i64 {
        guest.exchange(&mut stack, turn * 10);
        if guest.socket().can_send() && sent < up.len() {
            sent += guest.socket().send_slice(&up[sent..]).unwrap();
        }
        if sent == up.len() && !guest_done && guest.socket().may_send() {
            guest.socket().close();
            guest_done = true;
        }
        shipped.extend_from_slice(&stack.queue.drain_outbound(0).0);
        if let Some(flow) = stack.nat.flows.first() {
            if !flow.to_host_open {
                assert_eq!(shipped.len(), up.len(), "told the outside only after the last byte");
                half_closed = true;
            }
        }
        if half_closed && fed < down.len() {
            let end = (fed + 1000).min(down.len());
            if stack.queue.push_inbound(0, &down[fed..end]) {
                fed = end;
            }
            if fed == down.len() {
                stack.queue.host_closed(0);
            }
        }
        guest.take(&mut got);
        if got.len() == down.len() && stack.nat.flow_count() == 0 {
            break;
        }
    }
    assert!(half_closed);
    assert_eq!(shipped, up);
    assert_eq!(got, down);
    assert_eq!(stack.nat.flow_count(), 0, "flow freed");
}

fn listening_socket() -> tcp::Socket<'static> {
    let rx = tcp::SocketBuffer::new(vec![0u8; 16]);
    let tx = tcp::SocketBuffer::new(vec![0u8; 16]);
    tcp::Socket::new(rx, tx)
}

#[test]
fn a_flow_that_is_not_connected_keeps_what_the_outside_sends() {
    let key = FlowKey { guest_port: 1, dst_ip: Ipv4Addr::new(1, 2, 3, 4), dst_port: 80 };
    let mut flow = Flow::new(key);
    let mut sock = listening_socket();
    assert_eq!(flow.begin(&mut sock), Step::AskHost);
    assert!(!flow.established);
    assert_eq!(flow.host_replied(&mut sock, HostReply::Chunk(vec![1, 2])), Step::Finished);
    assert_eq!(flow.pending_to_guest, Some(vec![1, 2]));
    assert_eq!(flow.begin(&mut sock), Step::Finished, "nothing more is asked for");
    assert_eq!(flow.pending_to_guest, Some(vec![1, 2]));
    assert!(is_over(&sock));
    flow.pending_to_host = Some(vec![7]);
    assert_eq!(flow.begin(&mut sock), Step::OfferHost);
    assert_eq!(flow.host_took(&mut sock, HostTook::Full), Step::Finished);
    assert_eq!(flow.pending_to_host, Some(vec![7]));
    assert_eq!(flow.begin(&mut sock), Step::OfferHost);
    assert_eq!(flow.host_took(&mut sock, HostTook::Gone), Step::Finished);
    assert_eq!(flow.pending_to_host, None);
}

#[test]
fn an_outside_that_is_gone_closes_nothing_before_it_is_connected() {
    let key = FlowKey { guest_port: 1, dst_ip: Ipv4Addr::new(1, 2, 3, 4), dst_port: 80 };
    let mut flow = Flow::new(key);
    let mut sock = listening_socket();
    sock.listen(80).unwrap();
    assert_eq!(flow.begin(&mut sock), Step::AskHost);
    assert_eq!(flow.host_replied(&mut sock, HostReply::Gone), Step::Finished);
    assert!(flow.host_done);
    assert_eq!(sock.state(), tcp::State::Listen);
    assert!(PUMP_CHUNK > READ_CHUNK);
}
