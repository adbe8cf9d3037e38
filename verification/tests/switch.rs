use wwwvm::switch::{Forward, Hub, L2Port, QueuePort, Switch};


const A: [u8; 6] = [0x52, 0x54, 0x00, 0x00, 0x00, 0x0a];
const B: [u8; 6] = [0x52, 0x54, 0x00, 0x00, 0x00, 0x0b];
const BCAST: [u8; 6] = [0xff; 6];

/// Build a minimal Ethernet frame (dst, src, ethertype, 0 payload).
fn frame(dst: [u8; 6], src: [u8; 6]) -> Vec<u8> {
    let mut f = Vec::new();
    f.extend_from_slice(&dst);
    f.extend_from_slice(&src);
    f.extend_from_slice(&[0x08, 0x00]); // IPv4 ethertype
    f
}

#[test]
fn unknown_unicast_floods_then_learns() {
    let mut sw = Switch::new();
    // A (port 0) → B: B unknown, so flood; A is now learned on port 0.
    assert_eq!(sw.route(0, &frame(B, A)), Forward::Flood);
    assert_eq!(sw.learned(), 1);
    // B (port 1) → A: A is known on port 0 → unicast there.
    assert_eq!(sw.route(1, &frame(A, B)), Forward::Unicast(0));
    // Now A → B: B was learned on port 1 → unicast there.
    assert_eq!(sw.route(0, &frame(B, A)), Forward::Unicast(1));
}

#[test]
fn broadcast_always_floods() {
    let mut sw = Switch::new();
    assert_eq!(sw.route(0, &frame(BCAST, A)), Forward::Flood);
    // multicast (I/G bit set) too
    let mcast = [0x01, 0x00, 0x5e, 0x00, 0x00, 0x01];
    assert_eq!(sw.route(0, &frame(mcast, A)), Forward::Flood);
}

#[test]
fn dst_on_ingress_port_is_dropped() {
    let mut sw = Switch::new();
    sw.route(0, &frame(B, A)); // learn A on 0
    sw.route(0, &frame(B, B)); // learn B on 0 too (both on port 0)
                               // A → B, both on port 0 → drop (already there)
    assert_eq!(sw.route(0, &frame(B, A)), Forward::Drop);
}

#[test]
fn short_frame_dropped() {
    let mut sw = Switch::new();
    assert_eq!(sw.route(0, &[0u8; 10]), Forward::Drop);
}

#[test]
fn egress_expands_flood_and_unicast() {
    let mut sw = Switch::new();
    // unknown → flood to all but ingress (port 1) across 3 ports
    assert_eq!(sw.egress(1, &frame(B, A), 3), vec![0, 2]);
    // now A learned on 1; B→A unicasts to 1
    assert_eq!(sw.egress(0, &frame(A, B), 3), vec![1]);
}

#[test]
fn forget_port_drops_its_macs() {
    let mut sw = Switch::new();
    sw.route(0, &frame(B, A)); // A on 0
    sw.route(1, &frame(A, B)); // B on 1
    assert_eq!(sw.learned(), 2);
    sw.forget_port(0);
    assert_eq!(sw.learned(), 1);
    // A is forgotten → A as dst now floods again
    assert_eq!(sw.route(1, &frame(A, B)), Forward::Flood);
}

#[test]
fn group_source_is_not_learned() {
    let mut sw = Switch::new();
    // A frame with a broadcast SOURCE (illegal) must not pollute the table.
    sw.route(0, &frame(B, BCAST));
    assert_eq!(sw.learned(), 0);
}

/// A test port: a queue of frames to "transmit" and a log of injected ones.
#[derive(Default)]
struct MockPort {
    tx: Vec<Vec<u8>>,
    rx: Vec<Vec<u8>>,
}
impl L2Port for MockPort {
    fn drain_tx(&mut self) -> Vec<Vec<u8>> {
        std::mem::take(&mut self.tx)
    }
    fn inject_rx(&mut self, f: &[u8]) -> bool {
        self.rx.push(f.to_vec());
        true
    }
}

/// Broadcast from one port reaches all others (not the sender); a follow-up
/// unicast to the now-learned source goes only to that port.
#[test]
fn hub_floods_broadcast_then_unicasts_learned() {
    let mut hub = Hub::new();
    let mut ports = [
        MockPort::default(),
        MockPort::default(),
        MockPort::default(),
    ];
    // Port 0 broadcasts (announcing A).
    ports[0].tx.push(frame(BCAST, A));
    hub.pump(&mut ports);
    assert!(ports[0].rx.is_empty(), "sender doesn't get its own frame");
    assert_eq!(ports[1].rx.len(), 1, "flooded to 1");
    assert_eq!(ports[2].rx.len(), 1, "flooded to 2");

    // Port 1 replies to A — A was learned on port 0, so only port 0 hears it.
    ports[1].tx.push(frame(A, B));
    hub.pump(&mut ports);
    assert_eq!(ports[0].rx.len(), 1, "unicast reached port 0");
    assert_eq!(
        ports[2].rx.len(),
        1,
        "port 2 unchanged (still just the bcast)"
    );
}

/// A port that writes down what is asked of it and takes no frame.
#[derive(Default)]
struct LogPort {
    tx: Vec<Vec<u8>>,
    log: Vec<Option<Vec<u8>>>,
}

impl L2Port for LogPort {
    fn drain_tx(&mut self) -> Vec<Vec<u8>> {
        self.log.push(None);
        std::mem::take(&mut self.tx)
    }
    fn inject_rx(&mut self, f: &[u8]) -> bool {
        self.log.push(Some(f.to_vec()));
        false
    }
}

#[test]
fn a_round_drains_once_and_then_hands_out() {
    let mut hub = Hub::new();
    let mut ports = [LogPort::default(), LogPort::default(), LogPort::default()];
    ports[0].tx.push(frame(BCAST, A));
    ports[1].tx.push(frame(A, B));
    ports[1].tx.push(frame(B, B));
    ports[2].tx.push(vec![0; 13]);
    hub.pump(&mut ports);
    assert_eq!(ports[0].log, vec![None, Some(frame(A, B))]);
    assert_eq!(ports[1].log, vec![None, Some(frame(BCAST, A))]);
    assert_eq!(ports[2].log, vec![None, Some(frame(BCAST, A))]);
    assert_eq!(hub.switch_mut().learned(), 2);
    hub.pump(&mut ports);
    assert_eq!(ports[0].log.len(), 3);
    assert_eq!(ports[0].log[2], None);
}

#[test]
fn a_full_queue_port_refuses_frames() {
    let mut hub = Hub::new();
    let mut ports = [QueuePort::new(8), QueuePort::new(1)];
    ports[0].tx.push(frame(B, A));
    ports[0].tx.push(frame(BCAST, A));
    hub.pump(&mut ports);
    assert_eq!(ports[1].rx, vec![frame(B, A)], "the second frame finds no room");
    assert!(ports[0].tx.is_empty() && ports[0].rx.is_empty());
    ports[1].tx.push(frame(A, B));
    hub.pump(&mut ports);
    assert_eq!(ports[0].rx, vec![frame(A, B)]);
    hub.pump::<QueuePort>(&mut []);
}
