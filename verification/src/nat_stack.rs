//! The gateway's TCP translation.
//!
//! The first packet of each guest connection is looked at before the stack sees it.
//! If the policy permits its destination, a socket that listens on exactly that
//! destination is made ready, and a connection to the outside is opened for it.
//! From then on bytes are moved both ways between the guest's socket and the
//! outside, one chunk at a time in each direction, and each side learns when the
//! other has finished.

use crate::allow::{globally_routable, permitted};
use crate::bytes::{be_u16, copy_range, get_be_u16};
use crate::device::{put_back, GuestDevice, MTU};
use crate::forwarder::{only_vetted, texts, vetted, DnsForwarder};
use crate::ipv4::Ipv4Addr;
use crate::tcp::{can_recv, can_send, close, listen, may_recv, may_send, new_socket, phase_of, recv_slice, send_slice, set_timeout, tcp_view, TcpPhase, TcpView};
use smoltcp::socket::tcp::Socket;
use vstd::prelude::*;

verus! {

/// IPv4 in an Ethernet frame.
pub const ETH_IPV4: u16 = 0x0800;

/// TCP in an IPv4 packet.
pub const IP_PROTO_TCP: u8 = 6;

/// Bytes of buffer that a guest socket has in each direction.
pub const TCP_BUF: usize = 65536;

/// How many bytes of a flow are read from the guest before others have their turn.
pub const PUMP_CHUNK: usize = 8192;

/// How many bytes are read from the guest at once.
pub const READ_CHUNK: usize = 4096;

/// How many flows there can be.
pub const MAX_FLOWS: usize = 64;

/// After how many seconds of silence a guest socket gives up.
pub const FLOW_TIMEOUT_SECS: u32 = 30;

/// The largest IP packet on the link.
pub const LINK_MTU: usize = MTU;

/// What tells one flow from another; the guest's address is always the same.
#[derive(Clone, Copy, PartialEq, Eq, Structural, Hash, Debug)]
pub struct FlowKey {
    pub guest_port: u16,
    pub dst_ip: Ipv4Addr,
    pub dst_port: u16,
}

/// Where the TCP header of an IPv4 frame starts.
pub open spec fn tcp_offset(frame: Seq<u8>) -> int {
    14 + frame[14] % 16 * 4
}

/// Whether a frame holds a TCP header: Ethernet, IPv4 with a header of at least 20
/// bytes, TCP.
pub open spec fn holds_tcp(frame: Seq<u8>) -> bool {
    &&& frame.len() >= 34
    &&& be_u16(frame, 12) == ETH_IPV4
    &&& tcp_offset(frame) >= 34
    &&& frame.len() >= tcp_offset(frame) + 20
    &&& frame[23] == IP_PROTO_TCP
}

/// The flow that a frame starts: it is TCP with SYN set and ACK clear.
pub open spec fn initial_syn(frame: Seq<u8>) -> Option<FlowKey> {
    let at = tcp_offset(frame);
    if holds_tcp(frame) && frame[at + 13] / 2 % 2 == 1 && frame[at + 13] / 16 % 2 == 0 {
        Some(
            FlowKey {
                guest_port: be_u16(frame, at),
                dst_ip: Ipv4Addr { a: frame[30], b: frame[31], c: frame[32], d: frame[33] },
                dst_port: be_u16(frame, at + 2),
            },
        )
    } else {
        None
    }
}

/// The flow that a frame starts, if it is the first packet of one.
pub fn parse_initial_syn(frame: &[u8]) -> (key: Option<FlowKey>)
    ensures
        key == initial_syn(frame@),
{
    let n: usize = frame.len();
    if n < 34 || get_be_u16(frame, 12) != ETH_IPV4 {
        return None;
    }
    let ihl: usize = (frame[14] % 16) as usize * 4;
    if ihl < 20 || n < 14 + ihl + 20 || frame[23] != IP_PROTO_TCP {
        return None;
    }
    let at: usize = 14 + ihl;
    let flags: u8 = frame[at + 13];
    if flags / 2 % 2 == 0 || flags / 16 % 2 != 0 {
        return None;
    }
    Some(
        FlowKey {
            guest_port: get_be_u16(frame, at),
            dst_ip: Ipv4Addr::new(frame[30], frame[31], frame[32], frame[33]),
            dst_port: get_be_u16(frame, at + 2),
        },
    )
}

/// What the outside has for the guest.
pub enum HostReply {
    /// Some bytes.
    Chunk(Vec<u8>),
    /// Nothing at the moment.
    Nothing,
    /// Nothing any more: the outside has closed, or was never reached.
    Gone,
}

/// What became of bytes offered to the outside.
#[derive(Debug, Clone, Copy, PartialEq, Eq, Structural)]
pub enum HostTook {
    /// They were taken.
    Taken,
    /// There is no room for them at the moment.
    Full,
    /// There is nobody to take them any more.
    Gone,
}

/// What a flow needs next.
#[derive(Debug, Clone, Copy, PartialEq, Eq, Structural)]
pub enum Step {
    /// Ask the outside for bytes, and report with `host_replied`.
    AskHost,
    /// Offer `pending_to_host` to the outside, and report with `host_took`.
    OfferHost,
    /// Nothing until the next turn. If `to_host_open` is not set, the outside is to be
    /// told that the guest has finished writing.
    Finished,
}

/// One connection of the guest.
pub struct Flow {
    pub key: FlowKey,
    /// Whether the outside may still be written to.
    pub to_host_open: bool,
    /// Bytes read from the guest that the outside has not taken.
    pub pending_to_host: Option<Vec<u8>>,
    /// Bytes from the outside that the guest's socket has not taken.
    pub pending_to_guest: Option<Vec<u8>>,
    /// The outside has closed.
    pub host_done: bool,
    /// The connection has been established at some time.
    pub established: bool,
    /// How many bytes were read from the guest this turn.
    pub moved: usize,
}

/// A flow, by what it holds.
#[verifier::ext_equal]
pub ghost struct FlowState {
    pub key: FlowKey,
    pub to_host_open: bool,
    pub pending_to_host: Option<Seq<u8>>,
    pub pending_to_guest: Option<Seq<u8>>,
    pub host_done: bool,
    pub established: bool,
    pub moved: nat,
}

/// A flow, its guest socket, and what it needs next.
#[verifier::ext_equal]
pub ghost struct Turn {
    pub flow: FlowState,
    pub sock: TcpView,
    pub step: Step,
}

/// What an optional chunk holds.
pub open spec fn chunk_view(chunk: Option<Vec<u8>>) -> Option<Seq<u8>> {
    match chunk {
        Some(c) => Some(c@),
        None => None,
    }
}

/// The bytes of an optional chunk.
pub open spec fn bytes_of(chunk: Option<Seq<u8>>) -> Seq<u8> {
    match chunk {
        Some(c) => c,
        None => Seq::empty(),
    }
}

impl View for Flow {
    type V = FlowState;

    open spec fn view(&self) -> FlowState {
        FlowState {
            key: self.key,
            to_host_open: self.to_host_open,
            pending_to_host: chunk_view(self.pending_to_host),
            pending_to_guest: chunk_view(self.pending_to_guest),
            host_done: self.host_done,
            established: self.established,
            moved: self.moved as nat,
        }
    }
}

impl FlowState {
    /// A flow that nothing has happened to.
    pub open spec fn fresh(key: FlowKey) -> FlowState {
        FlowState {
            key,
            to_host_open: true,
            pending_to_host: None,
            pending_to_guest: None,
            host_done: false,
            established: false,
            moved: 0,
        }
    }

    /// The end of a turn. The guest has finished writing, and everything it wrote was
    /// passed on: then the outside is told.
    pub open spec fn finished(self, sock: TcpView) -> Turn {
        Turn {
            flow: FlowState {
                to_host_open: self.to_host_open && !(sock.phase is CloseWait
                    && self.pending_to_host is None && !sock.can_recv()),
                ..self
            },
            sock,
            step: Step::Finished,
        }
    }

    /// Passing on what waits for the outside, which is dropped if the outside may not
    /// be written to any more.
    pub open spec fn offered(self, sock: TcpView) -> Turn {
        if self.to_host_open {
            Turn { flow: self, sock, step: Step::OfferHost }
        } else {
            FlowState { pending_to_host: None, ..self }.finished(sock)
        }
    }

    /// The guest's turn: what waits for the outside is passed on first; then more is
    /// read, until the flow has had its share.
    pub open spec fn guest_to_host(self, sock: TcpView) -> Turn {
        if self.pending_to_host is Some {
            self.offered(sock)
        } else if sock.can_recv() && self.moved < PUMP_CHUNK {
            let n = sock.gives(READ_CHUNK as nat);
            FlowState {
                pending_to_host: Some(sock.unread.take(n as int)),
                moved: self.moved + n,
                ..self
            }.offered(sock.read(n))
        } else {
            self.finished(sock)
        }
    }

    /// The outside's turn is over: if it has closed, and the guest's socket has taken
    /// everything, the socket is closed. Then it is the guest's turn.
    pub open spec fn guest_served(self, sock: TcpView) -> Turn {
        if self.host_done && self.pending_to_guest is None && sock.may_send() {
            self.guest_to_host(sock.closed())
        } else {
            self.guest_to_host(sock)
        }
    }

    /// The outside's turn, with the bytes of `chunk` next: the guest's socket takes what
    /// it has room for. If that is all of them, more is asked for.
    pub open spec fn host_to_guest(self, sock: TcpView, chunk: Seq<u8>) -> Turn {
        if !sock.can_send() {
            FlowState { pending_to_guest: Some(chunk), ..self }.guest_served(sock)
        } else {
            let n = sock.fits(chunk.len());
            if n < chunk.len() {
                FlowState {
                    pending_to_guest: Some(chunk.skip(n as int)),
                    ..self
                }.guest_served(sock.written(chunk, n))
            } else {
                Turn {
                    flow: FlowState { pending_to_guest: None, ..self },
                    sock: sock.written(chunk, n),
                    step: Step::AskHost,
                }
            }
        }
    }

    /// The start of a turn.
    pub open spec fn begun(self, sock: TcpView) -> Turn {
        let flow = FlowState {
            established: self.established || sock.may_send() || sock.may_recv(),
            moved: 0,
            ..self
        };
        match self.pending_to_guest {
            Some(chunk) => flow.host_to_guest(sock, chunk),
            None => Turn { flow, sock, step: Step::AskHost },
        }
    }

    /// After the outside was asked and gave nothing, for good or not.
    pub open spec fn given_nothing(self, sock: TcpView, gone: bool) -> Turn {
        FlowState { host_done: self.host_done || gone, ..self }.guest_served(sock)
    }

    /// After bytes were offered to the outside.
    pub open spec fn taken(self, sock: TcpView, took: HostTook) -> Turn {
        match took {
            HostTook::Taken => FlowState { pending_to_host: None, ..self }.guest_to_host(sock),
            HostTook::Full => self.finished(sock),
            HostTook::Gone => FlowState { pending_to_host: None, ..self }.finished(sock),
        }
    }
}

impl Flow {
    /// A flow that nothing has happened to.
    pub fn new(key: FlowKey) -> (flow: Self)
        ensures
            flow@ == FlowState::fresh(key),
    {
        Flow {
            key,
            to_host_open: true,
            pending_to_host: None,
            pending_to_guest: None,
            host_done: false,
            established: false,
            moved: 0,
        }
    }

    fn finish(&mut self, sock: &Socket<'static>) -> (step: Step)
        ensures
            (Turn { flow: final(self)@, sock: tcp_view(*sock), step }) == old(self)@.finished(
                tcp_view(*sock),
            ),
    {
        if phase_of(sock) == TcpPhase::CloseWait && self.pending_to_host.is_none() && !can_recv(
            sock,
        ) {
            self.to_host_open = false;
        }
        Step::Finished
    }

    fn offer_host(&mut self, sock: &Socket<'static>) -> (step: Step)
        ensures
            (Turn { flow: final(self)@, sock: tcp_view(*sock), step }) == old(self)@.offered(
                tcp_view(*sock),
            ),
    {
        if self.to_host_open {
            Step::OfferHost
        } else {
            self.pending_to_host = None;
            self.finish(sock)
        }
    }

    fn guest_to_host(&mut self, sock: &mut Socket<'static>) -> (step: Step)
        ensures
            (Turn { flow: final(self)@, sock: tcp_view(*final(sock)), step }) == old(
                self,
            )@.guest_to_host(tcp_view(*old(sock))),
    {
        if self.pending_to_host.is_some() {
            return self.offer_host(sock);
        }
        if can_recv(sock) && self.moved < PUMP_CHUNK {
            match recv_slice(sock, READ_CHUNK) {
                Some(data) => {
                    self.moved = self.moved + data.len();
                    self.pending_to_host = Some(data);
                    self.offer_host(sock)
                },
                None => self.finish(sock),
            }
        } else {
            self.finish(sock)
        }
    }

    fn guest_served(&mut self, sock: &mut Socket<'static>) -> (step: Step)
        ensures
            (Turn { flow: final(self)@, sock: tcp_view(*final(sock)), step }) == old(
                self,
            )@.guest_served(tcp_view(*old(sock))),
    {
        if self.host_done && self.pending_to_guest.is_none() && may_send(sock) {
            close(sock);
        }
        self.guest_to_host(sock)
    }

    fn host_to_guest(&mut self, sock: &mut Socket<'static>, chunk: Vec<u8>) -> (step: Step)
        ensures
            (Turn { flow: final(self)@, sock: tcp_view(*final(sock)), step }) == old(
                self,
            )@.host_to_guest(tcp_view(*old(sock)), chunk@),
    {
        if !can_send(sock) {
            self.pending_to_guest = Some(chunk);
            return self.guest_served(sock);
        }
        match send_slice(sock, chunk.as_slice()) {
            Some(n) => {
                if n < chunk.len() {
                    let rest: Vec<u8> = copy_range(chunk.as_slice(), n, chunk.len());
                    assert(rest@ == chunk@.skip(n as int));
                    self.pending_to_guest = Some(rest);
                    self.guest_served(sock)
                } else {
                    self.pending_to_guest = None;
                    Step::AskHost
                }
            },
            None => Step::Finished,
        }
    }

    /// Starts the flow's turn.
    pub fn begin(&mut self, sock: &mut Socket<'static>) -> (step: Step)
        ensures
            (Turn { flow: final(self)@, sock: tcp_view(*final(sock)), step }) == old(self)@.begun(
                tcp_view(*old(sock)),
            ),
    {
        if may_send(sock) || may_recv(sock) {
            self.established = true;
        }
        self.moved = 0;
        match self.pending_to_guest.take() {
            Some(chunk) => self.host_to_guest(sock, chunk),
            None => Step::AskHost,
        }
    }

    /// Goes on after the outside was asked for bytes.
    pub fn host_replied(&mut self, sock: &mut Socket<'static>, reply: HostReply) -> (step: Step)
        requires
            old(self).pending_to_guest is None,
        ensures
            (Turn { flow: final(self)@, sock: tcp_view(*final(sock)), step }) == (match reply {
                HostReply::Chunk(chunk) => old(self)@.host_to_guest(tcp_view(*old(sock)), chunk@),
                HostReply::Nothing => old(self)@.given_nothing(tcp_view(*old(sock)), false),
                HostReply::Gone => old(self)@.given_nothing(tcp_view(*old(sock)), true),
            }),
    {
        match reply {
            HostReply::Chunk(chunk) => self.host_to_guest(sock, chunk),
            HostReply::Nothing => self.guest_served(sock),
            HostReply::Gone => {
                self.host_done = true;
                self.guest_served(sock)
            },
        }
    }

    /// Goes on after `pending_to_host` was offered to the outside.
    pub fn host_took(&mut self, sock: &mut Socket<'static>, took: HostTook) -> (step: Step)
        requires
            old(self).pending_to_host is Some,
        ensures
            (Turn { flow: final(self)@, sock: tcp_view(*final(sock)), step }) == old(self)@.taken(
                tcp_view(*old(sock)),
                took,
            ),
    {
        match took {
            HostTook::Taken => {
                self.pending_to_host = None;
                self.guest_to_host(sock)
            },
            HostTook::Full => self.finish(sock),
            HostTook::Gone => {
                self.pending_to_host = None;
                self.finish(sock)
            },
        }
    }
}

/// What becomes of a frame that the guest sends, before the stack sees it.
pub enum Admission {
    /// It starts nothing new.
    Pass,
    /// It would start a flow, but there are too many.
    Full,
    /// It would start a flow to where the guest may not connect.
    Denied(FlowKey),
    /// It would start a flow to a port that nothing can listen on.
    NoSocket(FlowKey),
    /// It starts a flow. The socket is to be handed to the stack, and a connection to
    /// the outside opened.
    Open(FlowKey, Socket<'static>),
}

/// What becomes of a frame, without the socket.
pub ghost enum Verdict {
    Pass,
    Full,
    Denied(FlowKey),
    NoSocket(FlowKey),
    Open(FlowKey),
}

impl Admission {
    /// The admission without the socket.
    pub open spec fn verdict(self) -> Verdict {
        match self {
            Admission::Pass => Verdict::Pass,
            Admission::Full => Verdict::Full,
            Admission::Denied(key) => Verdict::Denied(key),
            Admission::NoSocket(key) => Verdict::NoSocket(key),
            Admission::Open(key, _) => Verdict::Open(key),
        }
    }
}

/// Whether the guest may connect to where a flow goes: the address was given out for a
/// name that the policy allows on that port.
pub open spec fn may_connect(dns: DnsForwarder, key: FlowKey) -> bool {
    match dns.name_of(key.dst_ip) {
        Some(name) => permitted(dns.rules(), name, key.dst_port),
        None => false,
    }
}

/// The socket that waits for the guest's side of a flow: it is empty and listens on
/// exactly the destination.
pub open spec fn listening(key: FlowKey) -> TcpView {
    TcpView {
        phase: TcpPhase::Listen,
        unread: Seq::empty(),
        unsent: Seq::empty(),
        room: TCP_BUF as nat,
        timeout: Some(FLOW_TIMEOUT_SECS as u64),
        endpoint: Some((key.dst_ip, key.dst_port)),
    }
}

/// The flows in `list`, by what they hold.
pub open spec fn flow_views(list: Seq<Flow>) -> Seq<FlowState> {
    Seq::new(list.len(), |i: int| list[i]@)
}

/// Whether one of some flows has this key.
pub open spec fn has_key(flows: Seq<FlowState>, key: FlowKey) -> bool {
    exists|i: int| 0 <= i < flows.len() && (#[trigger] flows[i]).key == key
}

/// The flows but the one with this key, in order.
pub open spec fn without_key(flows: Seq<FlowState>, key: FlowKey) -> Seq<FlowState> {
    flows.filter(|f: FlowState| f.key != key)
}

/// The gateway: the link to the guest, the DNS service and the guest's flows.
pub struct NatStack {
    pub gw_ip: [u8; 4],
    pub gw_mac: [u8; 6],
    pub guest_ip: Ipv4Addr,
    pub device: GuestDevice,
    pub dns: DnsForwarder,
    pub flows: Vec<Flow>,
}

impl NatStack {
    /// The flows, by what they hold.
    pub open spec fn flow_states(self) -> Seq<FlowState> {
        flow_views(self.flows@)
    }

    /// No two flows have the same key, and there are not too many.
    pub open spec fn wf(self) -> bool {
        &&& forall|i: int, j: int|
            0 <= i < j < self.flows@.len() ==> self.flows@[i].key != self.flows@[j].key
        &&& self.flows@.len() <= MAX_FLOWS
    }

    /// What becomes of a frame that the guest sends.
    pub open spec fn verdict_on(self, frame: Seq<u8>) -> Verdict {
        match initial_syn(frame) {
            None => Verdict::Pass,
            Some(key) => if has_key(self.flow_states(), key) {
                Verdict::Pass
            } else if self.flows@.len() >= MAX_FLOWS {
                Verdict::Full
            } else if !may_connect(self.dns, key) {
                Verdict::Denied(key)
            } else if key.dst_port == 0 {
                Verdict::NoSocket(key)
            } else {
                Verdict::Open(key)
            },
        }
    }

    /// Whether two gateways serve the same guest from the same address.
    pub open spec fn same_setup(self, other: NatStack) -> bool {
        self.gw_ip == other.gw_ip && self.gw_mac == other.gw_mac && self.guest_ip
            == other.guest_ip
    }

    /// A gateway at `gw_ip` and `gw_mac` that serves the guest at `guest_ip`, without
    /// flows.
    pub fn new(
        gw_ip: [u8; 4],
        gw_mac: [u8; 6],
        guest_ip: [u8; 4],
        dns: DnsForwarder,
    ) -> (stack: Self)
        ensures
            stack.wf(),
            stack.gw_ip == gw_ip,
            stack.gw_mac == gw_mac,
            stack.dns == dns,
            stack.guest_ip.bytes() == guest_ip@,
            stack.flows@.len() == 0,
            stack.device.rx@.len() == 0,
            stack.device.tx@.len() == 0,
    {
        NatStack {
            gw_ip,
            gw_mac,
            guest_ip: Ipv4Addr::from_octets(guest_ip),
            device: GuestDevice::new(),
            dns,
            flows: Vec::new(),
        }
    }

    /// Where the flow with this key is.
    pub fn find_flow(&self, key: FlowKey) -> (r: Option<usize>)
        ensures
            match r {
                Some(i) => i < self.flows@.len() && self.flows@[i as int].key == key,
                None => !has_key(self.flow_states(), key),
            },
    {
        let mut i: usize = 0;
        while i < self.flows.len()
            invariant
                i <= self.flows@.len(),
                forall|j: int| 0 <= j < i ==> (#[trigger] self.flows@[j]).key != key,
            decreases self.flows@.len() - i,
        {
            if self.flows[i].key == key {
                return Some(i);
            }
            i = i + 1;
        }
        assert forall|j: int| 0 <= j < self.flow_states().len() implies (
        #[trigger] self.flow_states()[j]).key != key by {
            assert(self.flows@[j].key != key);
        }
        None
    }

    /// Takes a frame from the guest. If it starts a flow, the policy decides, and the
    /// flow is entered before the stack sees the frame.
    pub fn push_guest_frame(&mut self, frame: Vec<u8>) -> (a: Admission)
        requires
            old(self).wf(),
        ensures
            final(self).wf(),
            a.verdict() == old(self).verdict_on(frame@),
            a matches Admission::Open(key, sock) ==> tcp_view(sock) == listening(key),
            final(self).flow_states() == (match old(self).verdict_on(frame@) {
                Verdict::Open(key) => old(self).flow_states().push(FlowState::fresh(key)),
                _ => old(self).flow_states(),
            }),
            final(self).device.rx@ == old(self).device.rx@.push(frame),
            final(self).device.tx == old(self).device.tx,
            final(self).dns == old(self).dns,
            final(self).same_setup(*old(self)),
    {
        let a: Admission = match parse_initial_syn(frame.as_slice()) {
            None => Admission::Pass,
            Some(key) => match self.find_flow(key) {
                Some(i) => {
                    assert(self.flow_states()[i as int].key == key);
                    Admission::Pass
                },
                None => self.try_open_flow(key),
            },
        };
        self.device.push_guest_frame(frame);
        a
    }

    fn try_open_flow(&mut self, key: FlowKey) -> (a: Admission)
        requires
            old(self).wf(),
            !has_key(old(self).flow_states(), key),
        ensures
            final(self).wf(),
            a.verdict() == (if old(self).flows@.len() >= MAX_FLOWS {
                Verdict::Full
            } else if !may_connect(old(self).dns, key) {
                Verdict::Denied(key)
            } else if key.dst_port == 0 {
                Verdict::NoSocket(key)
            } else {
                Verdict::Open(key)
            }),
            a matches Admission::Open(k, sock) ==> tcp_view(sock) == listening(k),
            final(self).flow_states() == (if a.verdict() is Open {
                old(self).flow_states().push(FlowState::fresh(key))
            } else {
                old(self).flow_states()
            }),
            final(self).device == old(self).device,
            final(self).dns == old(self).dns,
            final(self).same_setup(*old(self)),
    {
        if self.flows.len() >= MAX_FLOWS {
            return Admission::Full;
        }
        if self.dns.connection_permitted(key.dst_ip, key.dst_port).is_none() {
            return Admission::Denied(key);
        }
        let mut sock: Socket<'static> = new_socket(TCP_BUF);
        set_timeout(&mut sock, FLOW_TIMEOUT_SECS);
        if !listen(&mut sock, key.dst_ip, key.dst_port) {
            return Admission::NoSocket(key);
        }
        let ghost before = self.flows@;
        assert forall|i: int| 0 <= i < before.len() implies (#[trigger] before[i]).key != key by {
            assert(flow_views(before)[i].key != key);
        }
        self.flows.push(Flow::new(key));
        assert(flow_views(self.flows@) =~= flow_views(before).push(FlowState::fresh(key)));
        Admission::Open(key, sock)
    }

    /// Removes the flow with this key, if there is one.
    pub fn close_flow(&mut self, key: FlowKey) -> (found: bool)
        requires
            old(self).wf(),
        ensures
            final(self).wf(),
            found == has_key(old(self).flow_states(), key),
            !has_key(final(self).flow_states(), key),
            final(self).flow_states() == without_key(old(self).flow_states(), key),
            final(self).device == old(self).device,
            final(self).dns == old(self).dns,
            final(self).same_setup(*old(self)),
    {
        let ghost before = self.flow_states();
        match self.find_flow(key) {
            Some(i) => {
                assert(before[i as int].key == key);
                let _ = self.flows.remove(i);
                assert(self.flow_states() =~= before.remove(i as int));
                proof {
                    lemma_without_key(before, i as int);
                }
                true
            },
            None => {
                proof {
                    lemma_without_absent_key(before, key);
                }
                false
            },
        }
    }

    /// Takes a frame from the guest without looking at it.
    pub fn push_guest_frame_raw(&mut self, frame: Vec<u8>)
        ensures
            final(self).device.rx@ == old(self).device.rx@.push(frame),
            final(self).device.tx == old(self).device.tx,
            final(self).dns == old(self).dns,
            final(self).same_setup(*old(self)),
            final(self).flows == old(self).flows,
    {
        self.device.push_guest_frame(frame);
    }

    /// The next frame for the guest.
    pub fn pop_egress(&mut self) -> (frame: Option<Vec<u8>>)
        ensures
            match frame {
                Some(f) => old(self).device.tx@.len() > 0 && f == old(self).device.tx@.first()
                    && final(self).device.tx@ == old(self).device.tx@.drop_first(),
                None => old(self).device.tx@.len() == 0 && final(self).device.tx@.len() == 0,
            },
            final(self).device.rx == old(self).device.rx,
            final(self).dns == old(self).dns,
            final(self).same_setup(*old(self)),
            final(self).flows == old(self).flows,
    {
        self.device.pop_egress()
    }

    /// Puts back a frame that the guest's card had no room for.
    pub fn requeue_egress_front(&mut self, frame: Vec<u8>)
        ensures
            final(self).device.tx@ == put_back(old(self).device.tx@, frame),
            final(self).device.rx == old(self).device.rx,
            final(self).dns == old(self).dns,
            final(self).same_setup(*old(self)),
            final(self).flows == old(self).flows,
    {
        self.device.requeue_egress_front(frame);
    }

    /// Whether there are frames for the guest.
    pub fn has_egress(&self) -> (b: bool)
        ensures
            b == (self.device.tx@.len() > 0),
    {
        self.device.has_egress()
    }

    /// How many flows there are.
    pub fn flow_count(&self) -> (n: usize)
        ensures
            n == self.flow_states().len(),
    {
        self.flows.len()
    }

    /// The guest's address.
    pub fn guest_ip(&self) -> (ip: Ipv4Addr)
        ensures
            ip == self.guest_ip,
    {
        self.guest_ip
    }

    /// Takes in what `name` was resolved to, and says how many addresses were kept.
    pub fn cache_dns(&mut self, name: &str, ips: &[Ipv4Addr]) -> (n: usize)
        ensures
            old(self).dns.resolved(name@, ips@, n as nat, final(self).dns),
            only_vetted(old(self).dns) ==> only_vetted(final(self).dns),
            final(self).device == old(self).device,
            final(self).same_setup(*old(self)),
            final(self).flows == old(self).flows,
    {
        self.dns.cache_resolution(name, ips)
    }

    /// Answers a DNS message from the guest, and remembers an allowed name that could
    /// not be answered.
    pub fn answer_dns(&mut self, query: &[u8]) -> (r: Option<Vec<u8>>)
        ensures
            match r {
                Some(out) => old(self).dns.response_to(query@) == Some(out@),
                None => old(self).dns.response_to(query@) is None,
            },
            final(self).dns.same_setup(old(self).dns),
            final(self).dns.by_name == old(self).dns.by_name,
            final(self).dns.by_ip == old(self).dns.by_ip,
            texts(final(self).dns.pending@) == (match old(self).dns.wanted_by(query@) {
                Some(name) => if texts(old(self).dns.pending@).contains(name) {
                    texts(old(self).dns.pending@)
                } else {
                    texts(old(self).dns.pending@).push(name)
                },
                None => texts(old(self).dns.pending@),
            }),
            final(self).device == old(self).device,
            final(self).same_setup(*old(self)),
            final(self).flows == old(self).flows,
    {
        self.dns.serve_query(query)
    }

    /// Hands out the names that the guest asked for and that wait to be resolved.
    pub fn take_dns_requests(&mut self) -> (names: Vec<String>)
        ensures
            names == old(self).dns.pending,
            final(self).dns.pending@.len() == 0,
            final(self).dns.same_setup(old(self).dns),
            final(self).dns.by_name == old(self).dns.by_name,
            final(self).dns.by_ip == old(self).dns.by_ip,
            final(self).device == old(self).device,
            final(self).same_setup(*old(self)),
            final(self).flows == old(self).flows,
    {
        self.dns.take_pending()
    }

    /// The name that `ip` was given out for.
    pub fn host_for_ip(&self, ip: Ipv4Addr) -> (name: Option<&str>)
        ensures
            match name {
                Some(s) => self.dns.name_of(ip) == Some(s@),
                None => self.dns.name_of(ip) is None,
            },
    {
        self.dns.name_for_ip(ip)
    }
}

/// Whether the guest's side of a flow is over, so that the flow is to be closed: a
/// connection that was never completed ends here too.
pub fn is_over(sock: &Socket<'static>) -> (b: bool)
    ensures
        b == (tcp_view(*sock).phase is Closed),
{
    phase_of(sock) == TcpPhase::Closed
}

proof fn lemma_without_absent_key(flows: Seq<FlowState>, key: FlowKey)
    requires
        !has_key(flows, key),
    ensures
        without_key(flows, key) == flows,
    decreases flows.len(),
{
    reveal(Seq::filter);
    if flows.len() > 0 {
        let shorter = flows.drop_last();
        if has_key(shorter, key) {
            let i = choose|i: int| 0 <= i < shorter.len() && (#[trigger] shorter[i]).key == key;
            assert(flows[i].key == key);
        }
        lemma_without_absent_key(shorter, key);
        assert(flows[flows.len() - 1].key != key);
        assert(shorter.push(flows.last()) =~= flows);
    }
}

proof fn lemma_without_key(flows: Seq<FlowState>, i: int)
    requires
        0 <= i < flows.len(),
        forall|a: int, b: int| 0 <= a < b < flows.len() ==> flows[a].key != flows[b].key,
    ensures
        without_key(flows, flows[i].key) == flows.remove(i),
        !has_key(flows.remove(i), flows[i].key),
    decreases flows.len(),
{
    reveal(Seq::filter);
    let key = flows[i].key;
    let shorter = flows.drop_last();
    if i == flows.len() - 1 {
        if has_key(shorter, key) {
            let j = choose|j: int| 0 <= j < shorter.len() && (#[trigger] shorter[j]).key == key;
            assert(flows[j].key != flows[i].key);
        }
        lemma_without_absent_key(shorter, key);
        assert(flows.remove(i) =~= shorter);
    } else {
        lemma_without_key(shorter, i);
        assert(flows[i].key != flows[flows.len() - 1].key);
        assert(flows.remove(i) =~= shorter.remove(i).push(flows.last()));
        assert forall|j: int| 0 <= j < flows.remove(i).len() implies (
        #[trigger] flows.remove(i)[j]).key != key by {
            if j < i {
                assert(flows[j].key != flows[i].key);
            } else {
                assert(flows[i].key != flows[j + 1].key);
            }
        }
    }
}

/// Deny by default: a flow is opened only to an outside address that was given out for
/// a name that the policy allows on that port, and never past the limit.
pub proof fn law_flows_open_only_where_permitted(stack: NatStack, frame: Seq<u8>, key: FlowKey)
    requires
        only_vetted(stack.dns),
        stack.verdict_on(frame) == Verdict::Open(key),
    ensures
        initial_syn(frame) == Some(key),
        stack.dns.name_of(key.dst_ip) matches Some(name) && permitted(
            stack.dns.rules(),
            name,
            key.dst_port,
        ),
        globally_routable(key.dst_ip),
        key.dst_ip.bytes() != stack.dns.gw_ip@,
        stack.flows@.len() < MAX_FLOWS,
{
    assert(vetted(stack.dns, key.dst_ip));
}

/// With an empty policy no flow is ever opened.
pub proof fn law_empty_policy_opens_nothing(stack: NatStack, frame: Seq<u8>)
    requires
        stack.dns.rules().len() == 0,
    ensures
        !(stack.verdict_on(frame) is Open),
{
}

/// Everything on its way to the guest, oldest first: what its socket holds, then what
/// the socket has not taken.
pub open spec fn bound_for_guest(flow: FlowState, sock: TcpView) -> Seq<u8> {
    sock.unsent + bytes_of(flow.pending_to_guest)
}

/// Everything on its way to the outside, oldest first: what the outside has not taken,
/// then what was not read from the guest's socket.
pub open spec fn bound_for_host(flow: FlowState, sock: TcpView) -> Seq<u8> {
    bytes_of(flow.pending_to_host) + sock.unread
}

/// What holds of every turn.
spec fn sound(flow: FlowState, sock: TcpView, turn: Turn) -> bool {
    &&& turn.sock.phase != sock.phase ==> {
        &&& turn.flow.host_done
        &&& turn.flow.pending_to_guest is None
        &&& turn.sock.phase == sock.closed().phase
    }
    &&& flow.to_host_open && !turn.flow.to_host_open ==> {
        &&& turn.sock.phase is CloseWait
        &&& turn.flow.pending_to_host is None
        &&& turn.sock.unread.len() == 0
    }
    &&& flow.moved < PUMP_CHUNK + READ_CHUNK ==> turn.flow.moved < PUMP_CHUNK + READ_CHUNK
    &&& turn.step is AskHost ==> turn.flow.pending_to_guest is None
    &&& turn.step is OfferHost ==> turn.flow.pending_to_host is Some && turn.flow.to_host_open
}

proof fn lemma_guest_to_host(flow: FlowState, sock: TcpView)
    ensures
        ({
            let turn = flow.guest_to_host(sock);
            &&& sound(flow, sock, turn)
            &&& !(turn.step is AskHost)
            &&& turn.sock.phase == sock.phase
            &&& turn.flow.host_done == flow.host_done
            &&& turn.flow.pending_to_guest == flow.pending_to_guest
            &&& bound_for_guest(turn.flow, turn.sock) == bound_for_guest(flow, sock)
            &&& flow.to_host_open ==> bound_for_host(turn.flow, turn.sock) == bound_for_host(
                flow,
                sock,
            )
        }),
{
    let turn = flow.guest_to_host(sock);
    if flow.pending_to_host is None && sock.can_recv() && flow.moved < PUMP_CHUNK {
        let n = sock.gives(READ_CHUNK as nat);
        assert(sock.unread.take(n as int) + sock.unread.skip(n as int) =~= sock.unread);
    }
    assert(flow.to_host_open ==> bound_for_host(turn.flow, turn.sock) =~= bound_for_host(
        flow,
        sock,
    ));
}

proof fn lemma_guest_served(flow: FlowState, sock: TcpView)
    ensures
        ({
            let turn = flow.guest_served(sock);
            &&& sound(flow, sock, turn)
            &&& !(turn.step is AskHost)
            &&& bound_for_guest(turn.flow, turn.sock) == bound_for_guest(flow, sock)
            &&& flow.to_host_open ==> bound_for_host(turn.flow, turn.sock) == bound_for_host(
                flow,
                sock,
            )
        }),
{
    lemma_guest_to_host(flow, sock);
    lemma_guest_to_host(flow, sock.closed());
}

proof fn lemma_host_to_guest(flow: FlowState, sock: TcpView, chunk: Seq<u8>)
    ensures
        ({
            let turn = flow.host_to_guest(sock, chunk);
            &&& sound(flow, sock, turn)
            &&& bound_for_guest(turn.flow, turn.sock) == sock.unsent + chunk
            &&& flow.to_host_open ==> bound_for_host(turn.flow, turn.sock) == bound_for_host(
                flow,
                sock,
            )
        }),
{
    let n = sock.fits(chunk.len());
    if !sock.can_send() {
        lemma_guest_served(FlowState { pending_to_guest: Some(chunk), ..flow }, sock);
    } else if n < chunk.len() {
        lemma_guest_served(
            FlowState { pending_to_guest: Some(chunk.skip(n as int)), ..flow },
            sock.written(chunk, n),
        );
        assert(sock.unsent + chunk.take(n as int) + chunk.skip(n as int) =~= sock.unsent + chunk);
    } else {
        assert(chunk.take(n as int) =~= chunk);
        assert(sock.unsent + chunk + Seq::<u8>::empty() =~= sock.unsent + chunk);
    }
}

proof fn lemma_begun(flow: FlowState, sock: TcpView)
    ensures
        ({
            let turn = flow.begun(sock);
            &&& sound(flow, sock, turn)
            &&& bound_for_guest(turn.flow, turn.sock) == bound_for_guest(flow, sock)
            &&& flow.to_host_open ==> bound_for_host(turn.flow, turn.sock) == bound_for_host(
                flow,
                sock,
            )
        }),
{
    if let Some(waiting) = flow.pending_to_guest {
        lemma_host_to_guest(
            FlowState {
                established: flow.established || sock.may_send() || sock.may_recv(),
                moved: 0,
                ..flow
            },
            sock,
            waiting,
        );
    }
}

/// Nothing that the outside sends to the guest is lost, repeated or reordered: what a
/// chunk adds to the bytes on their way to the guest is the chunk, behind all others.
/// Nothing else adds or removes a byte.
pub proof fn law_bytes_for_guest_are_kept(
    flow: FlowState,
    sock: TcpView,
    chunk: Seq<u8>,
    gone: bool,
    took: HostTook,
)
    ensures
        ({
            let turn = flow.begun(sock);
            bound_for_guest(turn.flow, turn.sock) == bound_for_guest(flow, sock)
        }),
        flow.pending_to_guest is None ==> ({
            let turn = flow.host_to_guest(sock, chunk);
            bound_for_guest(turn.flow, turn.sock) == bound_for_guest(flow, sock) + chunk
        }),
        ({
            let turn = flow.given_nothing(sock, gone);
            bound_for_guest(turn.flow, turn.sock) == bound_for_guest(flow, sock)
        }),
        ({
            let turn = flow.taken(sock, took);
            bound_for_guest(turn.flow, turn.sock) == bound_for_guest(flow, sock)
        }),
{
    lemma_host_to_guest(flow, sock, chunk);
    lemma_begun(flow, sock);
    lemma_guest_served(FlowState { host_done: flow.host_done || gone, ..flow }, sock);
    lemma_guest_to_host(FlowState { pending_to_host: None, ..flow }, sock);
}

/// Nothing that the guest sends is lost, repeated or reordered as long as the outside
/// may be written to: the bytes on their way to the outside stay the same, but for
/// those at their front that the outside takes. Only what is offered to an outside
/// that has gone is lost.
pub proof fn law_bytes_for_host_are_kept(
    flow: FlowState,
    sock: TcpView,
    chunk: Seq<u8>,
    gone: bool,
)
    requires
        flow.to_host_open,
    ensures
        ({
            let turn = flow.begun(sock);
            bound_for_host(turn.flow, turn.sock) == bound_for_host(flow, sock)
        }),
        ({
            let turn = flow.host_to_guest(sock, chunk);
            bound_for_host(turn.flow, turn.sock) == bound_for_host(flow, sock)
        }),
        ({
            let turn = flow.given_nothing(sock, gone);
            bound_for_host(turn.flow, turn.sock) == bound_for_host(flow, sock)
        }),
        flow.pending_to_host matches Some(offered) ==> ({
            let turn = flow.taken(sock, HostTook::Taken);
            offered + bound_for_host(turn.flow, turn.sock) == bound_for_host(flow, sock)
        }),
        ({
            let turn = flow.taken(sock, HostTook::Full);
            bound_for_host(turn.flow, turn.sock) == bound_for_host(flow, sock)
        }),
{
    lemma_host_to_guest(flow, sock, chunk);
    lemma_begun(flow, sock);
    lemma_guest_served(FlowState { host_done: flow.host_done || gone, ..flow }, sock);
    lemma_guest_to_host(FlowState { pending_to_host: None, ..flow }, sock);
    if let Some(offered) = flow.pending_to_host {
        assert(offered + (Seq::<u8>::empty() + sock.unread) =~= offered + sock.unread);
    }
}

/// Whether one of the things that can happen to a flow makes `turn` of it.
pub open spec fn follows(flow: FlowState, sock: TcpView, turn: Turn) -> bool {
    ||| turn == flow.begun(sock)
    ||| exists|chunk: Seq<u8>|
        flow.pending_to_guest is None && turn == #[trigger] flow.host_to_guest(sock, chunk)
    ||| exists|gone: bool| turn == #[trigger] flow.given_nothing(sock, gone)
    ||| exists|took: HostTook|
        flow.pending_to_host is Some && turn == #[trigger] flow.taken(sock, took)
}

proof fn lemma_follows(flow: FlowState, sock: TcpView, turn: Turn)
    requires
        follows(flow, sock, turn),
    ensures
        sound(flow, sock, turn),
{
    lemma_begun(flow, sock);
    assert forall|chunk: Seq<u8>| sound(flow, sock, #[trigger] flow.host_to_guest(sock, chunk)) by {
        lemma_host_to_guest(flow, sock, chunk);
    }
    assert forall|gone: bool| sound(flow, sock, #[trigger] flow.given_nothing(sock, gone)) by {
        lemma_guest_served(FlowState { host_done: flow.host_done || gone, ..flow }, sock);
    }
    assert forall|took: HostTook| sound(flow, sock, #[trigger] flow.taken(sock, took)) by {
        lemma_guest_to_host(FlowState { pending_to_host: None, ..flow }, sock);
    }
}

/// The guest is told that the outside has finished only after the outside has closed
/// and its last byte is in the guest's socket.
pub proof fn law_guest_is_closed_after_the_last_byte(flow: FlowState, sock: TcpView, turn: Turn)
    requires
        follows(flow, sock, turn),
        turn.sock.phase != sock.phase,
    ensures
        turn.flow.host_done,
        turn.flow.pending_to_guest is None,
        turn.sock.phase == sock.closed().phase,
{
    lemma_follows(flow, sock, turn);
}

/// The outside is told that the guest has finished only after the guest has said so
/// and everything it wrote was passed on; unread bytes are never cut off.
pub proof fn law_host_is_closed_after_the_last_byte(flow: FlowState, sock: TcpView, turn: Turn)
    requires
        follows(flow, sock, turn),
        flow.to_host_open,
        !turn.flow.to_host_open,
    ensures
        turn.sock.phase is CloseWait,
        turn.flow.pending_to_host is None,
        turn.sock.unread.len() == 0,
{
    lemma_follows(flow, sock, turn);
}

/// Once the outside has nothing to give, or was offered something, it is not asked
/// again in the same turn.
pub proof fn law_outside_has_its_turn_first(
    flow: FlowState,
    sock: TcpView,
    gone: bool,
    took: HostTook,
)
    ensures
        !(flow.given_nothing(sock, gone).step is AskHost),
        !(flow.taken(sock, took).step is AskHost),
{
    lemma_guest_served(FlowState { host_done: flow.host_done || gone, ..flow }, sock);
    lemma_guest_to_host(FlowState { pending_to_host: None, ..flow }, sock);
}

/// A turn reads a bounded number of bytes from the guest, and what the next step needs
/// is there.
pub proof fn law_turn_is_bounded(flow: FlowState, sock: TcpView, turn: Turn)
    requires
        follows(flow, sock, turn),
    ensures
        flow.moved < PUMP_CHUNK + READ_CHUNK ==> turn.flow.moved < PUMP_CHUNK + READ_CHUNK,
        turn.step is AskHost ==> turn.flow.pending_to_guest is None,
        turn.step is OfferHost ==> turn.flow.pending_to_host is Some && turn.flow.to_host_open,
{
    lemma_follows(flow, sock, turn);
}

/// An Ethernet frame that carries a TCP segment: `h` bytes of IPv4 header, addressed to
/// `dst`, then a TCP header with these ports.
pub open spec fn carries_tcp(frame: Seq<u8>, h: int, s: u16, dst: Seq<u8>, p: u16) -> bool {
    &&& 20 <= h <= 60
    &&& h % 4 == 0
    &&& frame.len() >= 14 + h + 20
    &&& frame[12] == 8 && frame[13] == 0
    &&& frame[14] % 16 == h / 4
    &&& frame[23] == 6
    &&& frame.subrange(30, 34) == dst
    &&& 256 * frame[14 + h] + frame[14 + h + 1] == s
    &&& 256 * frame[14 + h + 2] + frame[14 + h + 3] == p
}

/// A TCP segment with SYN set and ACK clear starts exactly the flow from its source port
/// to its destination address and port, whatever options its IPv4 header has; one with
/// SYN clear or ACK set starts none.
pub proof fn law_first_segment_starts_its_flow(
    frame: Seq<u8>,
    h: int,
    s: u16,
    dst: Ipv4Addr,
    p: u16,
)
    requires
        carries_tcp(frame, h, s, seq![dst.a, dst.b, dst.c, dst.d], p),
    ensures
        frame[14 + h + 13] / 2 % 2 == 1 && frame[14 + h + 13] / 16 % 2 == 0 ==> initial_syn(frame)
            == Some(FlowKey { guest_port: s, dst_ip: dst, dst_port: p }),
        frame[14 + h + 13] / 2 % 2 == 0 || frame[14 + h + 13] / 16 % 2 == 1 ==> initial_syn(frame)
            is None,
{
    let d = frame.subrange(30, 34);
    assert(d[0] == frame[30] && d[1] == frame[31] && d[2] == frame[32] && d[3] == frame[33]);
    assert(d[0] == dst.a && d[1] == dst.b && d[2] == dst.c && d[3] == dst.d);
    assert(frame[14] % 16 * 4 == h);
}

/// Nothing but a TCP segment in an IPv4 packet starts a flow: not a frame of another
/// kind, a packet of another protocol, one whose header is shorter than 20 bytes, or one
/// that is cut off before its TCP header ends.
pub proof fn law_other_frames_start_nothing(frame: Seq<u8>)
    requires
        frame.len() < 54 || frame[12] != 8 || frame[13] != 0 || frame[23] != 6 || frame[14] % 16 < 5
            || frame.len() < 34 + 4 * (frame[14] % 16),
    ensures
        initial_syn(frame) is None,
{
}

/// What becomes of a first segment: nothing new if its flow is there already; nothing if
/// there are 64 flows; otherwise its flow is opened if the address was given out for a
/// name that the policy allows on that port, and is refused if it was not.
pub proof fn law_permitted_flow_is_opened(stack: NatStack, frame: Seq<u8>, key: FlowKey)
    requires
        initial_syn(frame) == Some(key),
    ensures
        (exists|i: int| 0 <= i < stack.flows@.len() && (#[trigger] stack.flows@[i]).key == key)
            ==> stack.verdict_on(frame) is Pass,
        (forall|i: int| 0 <= i < stack.flows@.len() ==> (#[trigger] stack.flows@[i]).key != key) ==> {
            &&& stack.flows@.len() >= 64 ==> stack.verdict_on(frame) is Full
            &&& stack.flows@.len() < 64 && key.dst_port != 0 && (stack.dns.name_of(
                key.dst_ip,
            ) matches Some(name) && permitted(stack.dns.rules(), name, key.dst_port))
                ==> stack.verdict_on(frame) == Verdict::Open(key)
            &&& stack.flows@.len() < 64 && stack.dns.name_of(key.dst_ip) is None
                ==> stack.verdict_on(frame) == Verdict::Denied(key)
            &&& stack.flows@.len() < 64 && (stack.dns.name_of(key.dst_ip) matches Some(name)
                && !permitted(stack.dns.rules(), name, key.dst_port)) ==> stack.verdict_on(frame)
                == Verdict::Denied(key)
        },
{
    let views = stack.flow_states();
    if exists|i: int| 0 <= i < stack.flows@.len() && (#[trigger] stack.flows@[i]).key == key {
        let i = choose|i: int| 0 <= i < stack.flows@.len() && (#[trigger] stack.flows@[i]).key
            == key;
        assert(views[i].key == key);
    } else {
        if has_key(views, key) {
            let i = choose|i: int| 0 <= i < views.len() && (#[trigger] views[i]).key == key;
            assert(stack.flows@[i].key == key);
        }
    }
}

/// The socket made ready for a flow listens on its destination and on nothing else, has
/// 64 KiB of room, gives up after thirty seconds, and holds nothing.
pub proof fn law_flow_listens_on_its_destination(key: FlowKey)
    ensures
        listening(key).endpoint == Some((key.dst_ip, key.dst_port)),
        listening(key).phase is Listen,
        listening(key).timeout == Some(30u64),
        listening(key).room == 65536,
        listening(key).unread.len() == 0 && listening(key).unsent.len() == 0,
        FlowState::fresh(key).key == key,
        FlowState::fresh(key).to_host_open && !FlowState::fresh(key).host_done,
        FlowState::fresh(key).pending_to_host is None && FlowState::fresh(key).pending_to_guest
            is None,
{
}

/// Bytes move to the outside: while it may be written to, nothing waits for it and the
/// flow has not had its share of this turn, what the guest has written is read, up to
/// 4096 bytes at a time, and offered; once the offer is taken, more is read.
pub proof fn law_guest_bytes_are_offered(flow: FlowState, sock: TcpView)
    requires
        flow.to_host_open,
    ensures
        flow.pending_to_host is None && sock.unread.len() > 0 && flow.moved < 8192 ==> ({
            let turn = flow.guest_to_host(sock);
            let n = if sock.unread.len() < 4096 {
                sock.unread.len()
            } else {
                4096
            };
            &&& turn.step is OfferHost
            &&& turn.flow.pending_to_host == Some(sock.unread.take(n as int))
            &&& turn.sock.unread == sock.unread.skip(n as int)
            &&& turn.flow.moved == flow.moved + n
        }),
        flow.pending_to_host is Some ==> flow.guest_to_host(sock).step is OfferHost
            && flow.guest_to_host(sock).flow == flow && flow.guest_to_host(sock).sock == sock,
        flow.pending_to_host is None && (sock.unread.len() == 0 || flow.moved >= 8192)
            ==> flow.guest_to_host(sock).step is Finished && flow.guest_to_host(sock).sock == sock,
        flow.pending_to_host is Some ==> flow.taken(sock, HostTook::Taken) == (FlowState {
            pending_to_host: None,
            ..flow
        }).guest_to_host(sock),
        flow.pending_to_host is Some ==> flow.taken(sock, HostTook::Full).flow == flow && flow.taken(
            sock,
            HostTook::Full,
        ).step is Finished,
{
}

/// Bytes move to the guest: a chunk goes into its socket as far as there is room, and
/// only what did not fit is kept; when all of it fitted, more is asked for.
pub proof fn law_outside_bytes_are_delivered(flow: FlowState, sock: TcpView, chunk: Seq<u8>)
    requires
        flow.pending_to_guest is None,
        sock.phase is Established || sock.phase is CloseWait,
        sock.unsent.len() < sock.room,
    ensures
        ({
            let turn = flow.host_to_guest(sock, chunk);
            let free = sock.room - sock.unsent.len();
            &&& chunk.len() <= free ==> turn.step is AskHost && turn.sock.unsent == sock.unsent
                + chunk && turn.flow.pending_to_guest is None
            &&& chunk.len() > free ==> turn.sock.unsent == sock.unsent + chunk.take(free)
                && turn.flow.pending_to_guest == Some(chunk.skip(free))
        }),
{
    if chunk.len() <= sock.room - sock.unsent.len() {
        assert(chunk.take(chunk.len() as int) == chunk);
    }
}

/// Each side learns that the other has finished: once the outside has closed and the
/// guest's socket has taken everything, the socket is closed in that very turn; once the
/// guest has closed and everything it wrote was taken, the outside may not be written to
/// any more, which is how it is told.
pub proof fn law_both_ends_are_closed_in_the_end(flow: FlowState, sock: TcpView)
    ensures
        flow.pending_to_guest is None && sock.phase is Established ==> flow.given_nothing(
            sock,
            true,
        ).sock.phase is FinWait1,
        flow.pending_to_guest is None && sock.phase is CloseWait ==> flow.given_nothing(
            sock,
            true,
        ).sock.phase is LastAck,
        !flow.host_done ==> flow.given_nothing(sock, false).sock.phase == sock.phase,
        flow.given_nothing(sock, true).flow.host_done,
        flow.given_nothing(sock, false).flow.host_done == flow.host_done,
        sock.phase is CloseWait && flow.pending_to_host is None && sock.unread.len() == 0
            ==> !flow.guest_to_host(sock).flow.to_host_open,
        sock.phase is CloseWait && flow.pending_to_host is Some && sock.unread.len() == 0
            ==> !flow.taken(sock, HostTook::Taken).flow.to_host_open,
{
    lemma_guest_served(FlowState { host_done: true, ..flow }, sock);
    lemma_guest_to_host(FlowState { host_done: true, ..flow }, sock.closed());
    lemma_guest_to_host(FlowState { host_done: flow.host_done, ..flow }, sock);
    lemma_guest_to_host(flow, sock);
}

/// A new flow is open to the outside, holds nothing and has moved nothing.
pub proof fn law_new_flow(key: FlowKey)
    ensures
        ({
            let f = FlowState::fresh(key);
            &&& f.key == key
            &&& f.to_host_open && !f.host_done && !f.established
            &&& f.pending_to_host is None && f.pending_to_guest is None
            &&& f.moved == 0
        }),
{
}

/// How much the guest's turn takes on: what it has written, at most 4096 bytes at a time, as
/// long as the flow has moved less than 8192 bytes in this turn.
pub proof fn law_share_of_a_turn(flow: FlowState, sock: TcpView)
    requires
        flow.pending_to_host is None,
        flow.to_host_open,
    ensures
        sock.unread.len() > 0 && flow.moved <= 8191 ==> {
            let turn = flow.guest_to_host(sock);
            let n = if sock.unread.len() <= 4096 {
                sock.unread.len() as int
            } else {
                4096
            };
            &&& turn.step is OfferHost
            &&& turn.flow.pending_to_host == Some(sock.unread.take(n))
            &&& turn.flow.moved == flow.moved + n
        },
        sock.unread.len() == 0 || flow.moved >= 8192 ==> flow.guest_to_host(sock).step is Finished
            && flow.guest_to_host(sock).flow.pending_to_host is None,
{
}

} // verus!
