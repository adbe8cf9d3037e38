use wwwvm::ipv4::Ipv4Addr;
use wwwvm::nat_stack::{HostReply, HostTook};
use wwwvm::queue::{QueueConnector, IN_DEPTH, OUT_DEPTH};

const HOST_IP: [u8; 4] = [93, 184, 216, 34];

fn chunk(reply: HostReply) -> Vec<u8> {
    match reply {
        HostReply::Chunk(c) => c,
        _ => panic!("a chunk"),
    }
}

#[test]
fn queue_connector_round_trips_a_connection() {
    let mut qc = QueueConnector::new();

    // The gateway opens a connection.
    let id = qc.open(Ipv4Addr::from_octets(HOST_IP), 80);
    assert_eq!(qc.conn_count(), 1);
    assert_eq!(
        qc.take_new(),
        vec![(0, Ipv4Addr::from_octets(HOST_IP), 80)],
        "embedder sees the new connection once"
    );
    assert!(qc.take_new().is_empty(), "drained");

    // Guest to host.
    assert_eq!(qc.offer(id, b"GET / HTTP/1.0\r\n".to_vec()), HostTook::Taken);
    let (out, closed) = qc.drain_outbound(0);
    assert_eq!(out, b"GET / HTTP/1.0\r\n");
    assert!(!closed, "still open");

    // Host to guest.
    assert!(qc.push_inbound(0, b"HTTP/1.0 200 OK\r\n"));
    assert_eq!(chunk(qc.poll(id)), b"HTTP/1.0 200 OK\r\n");

    // The guest has finished writing: the gateway offers nothing more, and the embedder
    // keeps its side open.
    let (out, closed) = qc.drain_outbound(0);
    assert!(out.is_empty());
    assert!(!closed, "guest write half-close must NOT read as closed");
    assert!(qc.push_inbound(0, b"body"), "host to guest still open");
    assert_eq!(chunk(qc.poll(id)), b"body");

    // The gateway gives the flow up.
    qc.reap(id);
    assert!(qc.drain_outbound(0).1, "reaped flow reads as closed");

    // The embedder frees the connection.
    qc.host_closed(0);
    assert_eq!(qc.conn_count(), 0);
    assert!(qc.drain_outbound(0).1, "unknown id reads as closed");
}

#[test]
fn full_queues_refuse_more() {
    let mut qc = QueueConnector::new();
    let id = qc.open(Ipv4Addr::from_octets(HOST_IP), 80);
    for i in 0..OUT_DEPTH {
        assert_eq!(qc.offer(id, vec![i as u8]), HostTook::Taken);
    }
    assert_eq!(qc.offer(id, vec![0xFF]), HostTook::Full);
    for i in 0..IN_DEPTH {
        assert!(qc.push_inbound(id, &[i as u8]));
    }
    assert!(!qc.push_inbound(id, &[0xFF]));
    let (out, _) = qc.drain_outbound(id);
    assert_eq!(out, (0..OUT_DEPTH as u8).collect::<Vec<u8>>());
    assert_eq!(qc.offer(id, vec![9]), HostTook::Taken);
    for i in 0..IN_DEPTH {
        assert_eq!(chunk(qc.poll(id)), vec![i as u8]);
    }
    assert!(matches!(qc.poll(id), HostReply::Nothing));
}

#[test]
fn a_freed_connection_is_read_to_the_end() {
    let mut qc = QueueConnector::default();
    let id = qc.open(Ipv4Addr::from_octets(HOST_IP), 80);
    assert!(qc.push_inbound(id, b"a"));
    assert!(qc.push_inbound(id, b"b"));
    qc.host_closed(id);
    qc.host_closed(id);
    assert!(!qc.push_inbound(id, b"c"));
    assert_eq!(qc.offer(id, vec![1]), HostTook::Gone);
    assert_eq!(chunk(qc.poll(id)), b"a");
    assert_eq!(chunk(qc.poll(id)), b"b");
    assert!(matches!(qc.poll(id), HostReply::Gone));
    qc.reap(id);
    assert!(matches!(qc.poll(id), HostReply::Gone));
}

#[test]
fn connections_have_numbers_of_their_own() {
    let mut qc = QueueConnector::new();
    let a = qc.open(Ipv4Addr::new(1, 1, 1, 1), 80);
    let b = qc.open(Ipv4Addr::new(2, 2, 2, 2), 443);
    assert_ne!(a, b);
    qc.host_closed(a);
    assert_eq!(
        qc.take_new(),
        vec![(b, Ipv4Addr::new(2, 2, 2, 2), 443)],
        "the freed one is not announced"
    );
    assert!(qc.push_inbound(b, b"x"));
    assert!(matches!(qc.poll(a), HostReply::Gone));
    assert_eq!(chunk(qc.poll(b)), b"x");
    qc.reap(b);
    assert!(!qc.push_inbound(b, b"y"), "nobody reads it any more");
    assert_eq!(qc.offer(b, vec![1]), HostTook::Gone);
    assert!(matches!(qc.poll(b), HostReply::Gone));
}
