//! The guest's side of a TCP connection: a smoltcp socket, seen as what it holds.
//!
//! A socket has a state, the bytes received and not read yet, the bytes written and
//! still held for the guest, room for a fixed number of the latter, a timeout and
//! the address that it was told to listen on. The functions here call the socket's
//! own methods and say what they do to those six.

use crate::ipv4::Ipv4Addr;
use smoltcp::socket::tcp::{Socket, SocketBuffer, State};
use vstd::prelude::*;

verus! {

/// A smoltcp TCP socket.
#[verifier::external_type_specification]
#[verifier::external_body]
pub struct ExTcpSocket<'a>(smoltcp::socket::tcp::Socket<'a>);

/// The states of a TCP connection.
#[derive(Debug, Clone, Copy, PartialEq, Eq, Structural)]
pub enum TcpPhase {
    Closed,
    Listen,
    SynSent,
    SynReceived,
    Established,
    FinWait1,
    FinWait2,
    CloseWait,
    Closing,
    LastAck,
    TimeWait,
}

/// The bytes that a socket has received and that were not read yet.
pub uninterp spec fn tcp_unread(sock: Socket<'static>) -> Seq<u8>;

/// The bytes written to a socket that it still holds.
pub uninterp spec fn tcp_unsent(sock: Socket<'static>) -> Seq<u8>;

/// How many written bytes a socket can hold: what `Socket::send_capacity` returns.
pub uninterp spec fn tcp_room(sock: Socket<'static>) -> nat;

/// The state of a socket's connection: what `Socket::state` returns.
pub uninterp spec fn tcp_phase(sock: Socket<'static>) -> TcpPhase;

/// After how many seconds of silence a socket gives up, if ever: what `Socket::timeout`
/// returns.
pub uninterp spec fn tcp_timeout(sock: Socket<'static>) -> Option<u64>;

/// The address and port that a socket was last told to listen on.
pub uninterp spec fn tcp_endpoint(sock: Socket<'static>) -> Option<(Ipv4Addr, u16)>;

/// What is known of a socket.
#[verifier::ext_equal]
pub ghost struct TcpView {
    pub phase: TcpPhase,
    pub unread: Seq<u8>,
    pub unsent: Seq<u8>,
    pub room: nat,
    pub timeout: Option<u64>,
    pub endpoint: Option<(Ipv4Addr, u16)>,
}

/// What is known of `sock`.
pub open spec fn tcp_view(sock: Socket<'static>) -> TcpView {
    TcpView {
        phase: tcp_phase(sock),
        unread: tcp_unread(sock),
        unsent: tcp_unsent(sock),
        room: tcp_room(sock),
        timeout: tcp_timeout(sock),
        endpoint: tcp_endpoint(sock),
    }
}

impl TcpView {
    /// Whether bytes may still be written.
    pub open spec fn may_send(self) -> bool {
        self.phase is Established || self.phase is CloseWait
    }

    /// Whether there are bytes to read, or more may come.
    pub open spec fn may_recv(self) -> bool {
        self.phase is Established || self.phase is FinWait1 || self.phase is FinWait2
            || self.unread.len() > 0
    }

    /// Whether at least one byte can be written.
    pub open spec fn can_send(self) -> bool {
        self.may_send() && self.unsent.len() < self.room
    }

    /// Whether at least one byte can be read.
    pub open spec fn can_recv(self) -> bool {
        self.unread.len() > 0
    }

    /// How many of `n` bytes fit.
    pub open spec fn fits(self, n: nat) -> nat {
        if self.unsent.len() + n <= self.room {
            n
        } else if self.unsent.len() <= self.room {
            (self.room - self.unsent.len()) as nat
        } else {
            0
        }
    }

    /// How many bytes a read of at most `n` gives.
    pub open spec fn gives(self, n: nat) -> nat {
        if self.unread.len() <= n {
            self.unread.len()
        } else {
            n
        }
    }

    /// The socket after the first `k` of some bytes were written.
    pub open spec fn written(self, data: Seq<u8>, k: nat) -> TcpView {
        TcpView { unsent: self.unsent + data.take(k as int), ..self }
    }

    /// The socket after `k` bytes were read.
    pub open spec fn read(self, k: nat) -> TcpView {
        TcpView { unread: self.unread.skip(k as int), ..self }
    }

    /// The socket after its sending half was closed.
    pub open spec fn closed(self) -> TcpView {
        TcpView {
            phase: match self.phase {
                TcpPhase::Listen | TcpPhase::SynSent => TcpPhase::Closed,
                TcpPhase::SynReceived | TcpPhase::Established => TcpPhase::FinWait1,
                TcpPhase::CloseWait => TcpPhase::LastAck,
                other => other,
            },
            ..self
        }
    }
}

/// Wraps `Socket::new`, with two buffers of `room` bytes each. A new socket is closed
/// and empty, has no timeout and listens nowhere. Receive buffers of more than 1 GiB
/// make the call panic.
#[verifier::external_body]
pub(crate) fn new_socket(room: usize) -> (sock: Socket<'static>)
    requires
        room <= 0x4000_0000,
    ensures
        tcp_phase(sock) == TcpPhase::Closed,
        tcp_unread(sock) == Seq::<u8>::empty(),
        tcp_unsent(sock) == Seq::<u8>::empty(),
        tcp_room(sock) == room,
        tcp_timeout(sock) is None,
        tcp_endpoint(sock) is None,
{
    Socket::new(SocketBuffer::new(vec![0u8; room]), SocketBuffer::new(vec![0u8; room]))
}

/// Wraps `Socket::set_timeout`, with a number of seconds. Nothing else changes.
#[verifier::external_body]
pub(crate) fn set_timeout(sock: &mut Socket<'static>, secs: u32)
    ensures
        tcp_view(*final(sock)) == (TcpView {
            timeout: Some(secs as u64),
            ..tcp_view(*old(sock))
        }),
{
    sock.set_timeout(Some(smoltcp::time::Duration::from_secs(u64::from(secs))))
}

/// Wraps `Socket::listen` on a closed socket, with one address and port. It fails for
/// port 0 alone, and then changes nothing; otherwise the socket is emptied and
/// listens.
#[verifier::external_body]
pub(crate) fn listen(sock: &mut Socket<'static>, ip: Ipv4Addr, port: u16) -> (ok: bool)
    requires
        tcp_phase(*old(sock)) is Closed,
    ensures
        ok == (port != 0),
        !ok ==> tcp_view(*final(sock)) == tcp_view(*old(sock)),
        ok ==> tcp_view(*final(sock)) == (TcpView {
            phase: TcpPhase::Listen,
            unread: Seq::empty(),
            unsent: Seq::empty(),
            endpoint: Some((ip, port)),
            ..tcp_view(*old(sock))
        }),
{
    let addr = smoltcp::wire::IpAddress::v4(ip.a, ip.b, ip.c, ip.d);
    sock.listen(smoltcp::wire::IpListenEndpoint { addr: Some(addr), port }).is_ok()
}

/// Wraps `Socket::state`.
#[verifier::external_body]
pub(crate) fn phase_of(sock: &Socket<'static>) -> (p: TcpPhase)
    ensures
        p == tcp_phase(*sock),
{
    match sock.state() {
        State::Closed => TcpPhase::Closed,
        State::Listen => TcpPhase::Listen,
        State::SynSent => TcpPhase::SynSent,
        State::SynReceived => TcpPhase::SynReceived,
        State::Established => TcpPhase::Established,
        State::FinWait1 => TcpPhase::FinWait1,
        State::FinWait2 => TcpPhase::FinWait2,
        State::CloseWait => TcpPhase::CloseWait,
        State::Closing => TcpPhase::Closing,
        State::LastAck => TcpPhase::LastAck,
        State::TimeWait => TcpPhase::TimeWait,
    }
}

/// Wraps `Socket::may_send`: whether the state is one in which bytes may be written.
#[verifier::external_body]
pub(crate) fn may_send(sock: &Socket<'static>) -> (b: bool)
    ensures
        b == tcp_view(*sock).may_send(),
{
    sock.may_send()
}

/// Wraps `Socket::may_recv`: whether there are bytes to read, or the state is one in
/// which more may come.
#[verifier::external_body]
pub(crate) fn may_recv(sock: &Socket<'static>) -> (b: bool)
    ensures
        b == tcp_view(*sock).may_recv(),
{
    sock.may_recv()
}

/// Wraps `Socket::can_send`: whether bytes may be written and there is room for one.
#[verifier::external_body]
pub(crate) fn can_send(sock: &Socket<'static>) -> (b: bool)
    ensures
        b == tcp_view(*sock).can_send(),
{
    sock.can_send()
}

/// Wraps `Socket::can_recv`: whether there is a byte to read.
#[verifier::external_body]
pub(crate) fn can_recv(sock: &Socket<'static>) -> (b: bool)
    ensures
        b == tcp_view(*sock).can_recv(),
{
    sock.can_recv()
}

/// Wraps `Socket::send_slice`: as many bytes as fit are added behind those that the
/// socket holds, and their number is returned; where bytes may not be written it
/// fails and changes nothing.
#[verifier::external_body]
pub(crate) fn send_slice(sock: &mut Socket<'static>, data: &[u8]) -> (n: Option<usize>)
    ensures
        match n {
            Some(k) => tcp_view(*old(sock)).may_send() && k == tcp_view(*old(sock)).fits(
                data@.len(),
            ) && tcp_view(*final(sock)) == tcp_view(*old(sock)).written(data@, k as nat),
            None => !tcp_view(*old(sock)).may_send() && tcp_view(*final(sock)) == tcp_view(
                *old(sock),
            ),
        },
{
    sock.send_slice(data).ok()
}

/// Wraps `Socket::recv_slice`, into a buffer of `max` bytes that is then cut to what
/// was read: the oldest unread bytes, as many as there are. Where there is nothing to
/// read and nothing more can come it fails and changes nothing. Reading more than
/// `i32::MAX` bytes at once makes the call panic.
#[verifier::external_body]
pub(crate) fn recv_slice(sock: &mut Socket<'static>, max: usize) -> (data: Option<Vec<u8>>)
    requires
        max <= 0x7fff_ffff,
    ensures
        match data {
            Some(v) => tcp_view(*old(sock)).may_recv() && v@ == tcp_view(*old(sock)).unread.take(
                tcp_view(*old(sock)).gives(max as nat) as int,
            ) && tcp_view(*final(sock)) == tcp_view(*old(sock)).read(v@.len()),
            None => !tcp_view(*old(sock)).may_recv() && tcp_view(*final(sock)) == tcp_view(
                *old(sock),
            ),
        },
{
    let mut data = vec![0u8; max];
    let n: usize = sock.recv_slice(&mut data).ok()?;
    data.truncate(n);
    Some(data)
}

/// Wraps `Socket::close`: the sending half is closed, if it was open; what the socket
/// holds stays.
#[verifier::external_body]
pub(crate) fn close(sock: &mut Socket<'static>)
    ensures
        tcp_view(*final(sock)) == tcp_view(*old(sock)).closed(),
{
    sock.close()
}

/// What a connection can do: it sends while its own side is open, and reads while the other
/// side is, and after that what had arrived by then.
pub proof fn law_open_sides(t: TcpView, n: nat)
    ensures
        t.may_send() <==> t.phase == TcpPhase::Established || t.phase == TcpPhase::CloseWait,
        t.unread.len() > 0 ==> t.may_recv() && t.can_recv(),
        t.unread.len() == 0 ==> !t.can_recv() && (t.may_recv() <==> t.phase
            == TcpPhase::Established || t.phase == TcpPhase::FinWait1 || t.phase
            == TcpPhase::FinWait2),
        t.can_send() <==> t.may_send() && t.room - t.unsent.len() >= 1,
        t.fits(n) <= n,
        t.unsent.len() <= t.room ==> t.unsent.len() + t.fits(n) <= t.room && (t.fits(n) == n
            || t.unsent.len() + t.fits(n) == t.room),
        t.gives(n) <= n && t.gives(n) <= t.unread.len(),
        t.gives(n) == n || t.gives(n) == t.unread.len(),
{
}

} // verus!
