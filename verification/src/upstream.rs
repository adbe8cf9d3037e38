//! Tunnels through other proxies.
//!
//! Instead of connecting to a target directly, the relay can connect to a SOCKS5,
//! SOCKS4 or HTTP proxy and have that connect. The target's name is handed to the
//! proxy, which resolves it. This module holds the conversation: what is sent, how
//! much of an answer is awaited, and what an answer means.

use crate::bytes::{be16_bytes, copy_range, put_be_u16, put_bytes};
use crate::text::{chars_of, decimal_digits, find_second_word, is_space, law_decimal_digits, law_decimal_reads_back, law_digits_are_digits, law_second_word, law_unsigned_reads_digits, lossy_text, parse_unsigned, push_chars, push_text, same_chars, second_word, text_from_utf8_lossy, text_of, to_decimal, unsigned};
use vstd::prelude::*;
use vstd::utf8::encode_utf8;

verus! {

/// How many proxies are tried before giving up.
pub const AUTO_MAX_TRIES: usize = 6;

/// How many seconds a proxy has to be reached, and then to answer.
pub const UPSTREAM_TIMEOUT_SECS: u64 = 8;

/// How long the head of an HTTP answer may be.
pub const MAX_HTTP_HEAD: usize = 8192;

/// What a proxy speaks.
#[derive(Clone, Copy, Debug, PartialEq, Eq, Structural)]
pub enum ProxyKind {
    Socks5,
    Socks4,
    Http,
}

impl ProxyKind {
    /// The name of a kind.
    pub open spec fn name(self) -> Seq<char> {
        match self {
            ProxyKind::Socks5 => "socks5"@,
            ProxyKind::Socks4 => "socks4"@,
            ProxyKind::Http => "http"@,
        }
    }

    /// The kind with a name.
    pub open spec fn named(name: Seq<char>) -> Option<ProxyKind> {
        if name == "socks5"@ {
            Some(ProxyKind::Socks5)
        } else if name == "socks4"@ {
            Some(ProxyKind::Socks4)
        } else if name == "http"@ {
            Some(ProxyKind::Http)
        } else {
            None
        }
    }

    /// The name of a kind.
    pub fn as_str(&self) -> (name: &'static str)
        ensures
            name@ == self.name(),
    {
        match self {
            ProxyKind::Socks5 => "socks5",
            ProxyKind::Socks4 => "socks4",
            ProxyKind::Http => "http",
        }
    }

    /// The kind with a name. Names are lower case, and others have no kind.
    pub fn from_name(name: &str) -> (kind: Option<ProxyKind>)
        ensures
            kind == ProxyKind::named(name@),
    {
        let chars: Vec<char> = chars_of(name);
        if same_chars(chars.as_slice(), chars_of("socks5").as_slice()) {
            Some(ProxyKind::Socks5)
        } else if same_chars(chars.as_slice(), chars_of("socks4").as_slice()) {
            Some(ProxyKind::Socks4)
        } else if same_chars(chars.as_slice(), chars_of("http").as_slice()) {
            Some(ProxyKind::Http)
        } else {
            None
        }
    }
}

/// A proxy to tunnel through.
#[derive(Clone, Debug)]
pub struct Upstream {
    pub kind: ProxyKind,
    pub host: String,
    pub port: u16,
}

/// A proxy, by what it holds.
#[verifier::ext_equal]
pub ghost struct UpstreamView {
    pub kind: ProxyKind,
    pub host: Seq<char>,
    pub port: u16,
}

impl View for Upstream {
    type V = UpstreamView;

    open spec fn view(&self) -> UpstreamView {
        UpstreamView { kind: self.kind, host: self.host@, port: self.port }
    }
}

/// `host:port`.
pub open spec fn host_port(host: Seq<char>, port: u16) -> Seq<char> {
    host + ":"@ + to_decimal(port as nat)
}

/// Appends `host:port`.
pub fn push_host_port(out: &mut Vec<char>, host: &str, port: u16)
    ensures
        final(out)@ == old(out)@ + host_port(host@, port),
{
    push_text(out, host);
    push_text(out, ":");
    push_chars(out, decimal_digits(port as u64).as_slice());
    assert(out@ == old(out)@ + host_port(host@, port));
}

impl Upstream {
    /// The proxy as a URL.
    pub fn to_text(&self) -> (s: String)
        ensures
            s@ == self.kind.name() + "://"@ + host_port(self.host@, self.port),
    {
        let mut out: Vec<char> = Vec::new();
        push_text(&mut out, self.kind.as_str());
        push_text(&mut out, "://");
        push_host_port(&mut out, self.host.as_str(), self.port);
        assert(out@ == self.kind.name() + "://"@ + host_port(self.host@, self.port));
        text_of(out.as_slice())
    }
}

/// A proxy in a list of proxies, whose kind may be one that is not spoken here.
#[derive(Clone, Debug)]
pub struct ProxyRecord {
    pub kind: String,
    pub host: String,
    pub port: u16,
}

/// The proxies, by what they hold.
pub open spec fn upstream_views(list: Seq<Upstream>) -> Seq<UpstreamView> {
    Seq::new(list.len(), |i: int| list[i]@)
}

/// The proxies of a list that can be used, in order.
pub open spec fn usable(records: Seq<ProxyRecord>) -> Seq<UpstreamView>
    decreases records.len(),
{
    if records.len() == 0 {
        Seq::empty()
    } else {
        let before = usable(records.drop_last());
        let r = records.last();
        match ProxyKind::named(r.kind@) {
            Some(kind) => before.push(UpstreamView { kind, host: r.host@, port: r.port }),
            None => before,
        }
    }
}

/// The proxies of a list that can be used: those of other kinds, such as `https`, are
/// left out.
pub fn usable_upstreams(records: &[ProxyRecord]) -> (list: Vec<Upstream>)
    ensures
        upstream_views(list@) == usable(records@),
{
    let mut list: Vec<Upstream> = Vec::new();
    let mut i: usize = 0;
    assert(records@.take(0).len() == 0);
    assert(upstream_views(list@) =~= Seq::empty());
    while i < records.len()
        invariant
            i <= records@.len(),
            upstream_views(list@) == usable(records@.take(i as int)),
        decreases records@.len() - i,
    {
        proof {
            assert(records@.take(i + 1).drop_last() == records@.take(i as int));
            assert(records@.take(i + 1).last() == records@[i as int]);
        }
        let ghost before = list@;
        if let Some(kind) = ProxyKind::from_name(records[i].kind.as_str()) {
            let up = Upstream { kind, host: records[i].host.clone(), port: records[i].port };
            let ghost added = up@;
            list.push(up);
            assert(upstream_views(list@) =~= upstream_views(before).push(added));
        }
        i = i + 1;
    }
    assert(records@.take(records@.len() as int) == records@);
    list
}

/// How many proxies of a list are tried.
pub open spec fn tries(len: nat) -> nat {
    if len < AUTO_MAX_TRIES {
        len
    } else {
        AUTO_MAX_TRIES as nat
    }
}

/// Which proxies of a list are tried, in order, starting from one that rotates.
pub open spec fn rotation(start: nat, len: nat) -> Seq<usize> {
    Seq::new(tries(len), |i: int| ((start + i) % (len as int)) as usize)
}

/// Which proxies of a list of `len` are tried, in order, if `start` lists were tried
/// before.
pub fn auto_order(start: usize, len: usize) -> (order: Vec<usize>)
    ensures
        order@ == rotation(start as nat, len as nat),
{
    let mut order: Vec<usize> = Vec::new();
    if len == 0 {
        assert(order@ == rotation(start as nat, 0));
        return order;
    }
    let n: usize = if len < AUTO_MAX_TRIES {
        len
    } else {
        AUTO_MAX_TRIES
    };
    let mut at: usize = start % len;
    let mut i: usize = 0;
    assert((start + 0) % (len as int) == at);
    while i < n
        invariant
            len > 0,
            n == tries(len as nat),
            i <= n,
            at < len,
            at == (start + i) % (len as int),
            order@ == rotation(start as nat, len as nat).take(i as int),
        decreases n - i,
    {
        order.push(at);
        proof {
            assert(order@ =~= rotation(start as nat, len as nat).take(i + 1));
            lemma_next_index((start + i) as int, len as int);
        }
        at = if at + 1 < len {
            at + 1
        } else {
            0
        };
        i = i + 1;
    }
    assert(rotation(start as nat, len as nat).take(n as int) == rotation(start as nat, len as nat));
    order
}

proof fn lemma_next_index(a: int, len: int)
    requires
        a >= 0,
        len > 0,
    ensures
        (a + 1) % len == (if a % len + 1 < len {
            a % len + 1
        } else {
            0
        }),
{
    let q = a / len;
    let r = a % len;
    vstd::arithmetic::div_mod::lemma_fundamental_div_mod(a, len);
    vstd::arithmetic::div_mod::lemma_mod_bound(a, len);
    assert(len * q == q * len) by (nonlinear_arith);
    if r + 1 < len {
        vstd::arithmetic::div_mod::lemma_fundamental_div_mod_converse(a + 1, len, q, r + 1);
    } else {
        assert((q + 1) * len == q * len + len) by (nonlinear_arith);
        vstd::arithmetic::div_mod::lemma_fundamental_div_mod_converse(a + 1, len, q + 1, 0);
    }
}

/// No proxy is tried twice, all of them are in the list, and the next list of tries
/// starts one proxy later.
pub proof fn law_rotation_visits_distinct_proxies(start: nat, len: nat)
    requires
        0 < len <= usize::MAX,
    ensures
        forall|i: int| 0 <= i < tries(len) ==> #[trigger] rotation(start, len)[i] < len,
        forall|i: int, j: int|
            0 <= i < j < tries(len) ==> rotation(start, len)[i] != rotation(start, len)[j],
        rotation(start + 1, len)[0] == (start + 1) % len,
        tries(len) > 1 ==> rotation(start + 1, len)[0] == rotation(start, len)[1],
{
    let m = len as int;
    assert forall|i: int| 0 <= i < tries(len) implies #[trigger] rotation(start, len)[i] < len by {
        vstd::arithmetic::div_mod::lemma_mod_bound(start + i, m);
    }
    vstd::arithmetic::div_mod::lemma_mod_bound(start + 1int, m);
    assert forall|i: int, j: int| 0 <= i < j < tries(len) implies rotation(start, len)[i]
        != rotation(start, len)[j] by {
        vstd::arithmetic::div_mod::lemma_mod_bound(start + i, m);
        vstd::arithmetic::div_mod::lemma_mod_bound(start + j, m);
        if (start + i) % m == (start + j) % m {
            let a = start + i;
            let b = start + j;
            vstd::arithmetic::div_mod::lemma_fundamental_div_mod(a, m);
            vstd::arithmetic::div_mod::lemma_fundamental_div_mod(b, m);
            let d = b / m - a / m;
            assert(m * (b / m) - m * (a / m) == m * d) by (nonlinear_arith)
                requires
                    d == b / m - a / m,
            ;
            assert(0 < m * d < m);
            assert(false) by (nonlinear_arith)
                requires
                    0 < m * d < m,
            ;
        }
    }
}

/// Why a proxy could not be used.
#[derive(Debug)]
pub enum HandshakeError {
    /// SOCKS5: the proxy wants credentials; this was its answer.
    AuthRefused(u8, u8),
    /// SOCKS5: the target's name has this many bytes, which is too long to be sent.
    HostTooLong(usize),
    /// SOCKS5: the proxy did not connect, for this reason.
    ConnectFailed(u8),
    /// SOCKS5: the proxy's own address is of an unknown kind.
    BadAddressType(u8),
    /// SOCKS4: the proxy did not connect, for this reason.
    Rejected(u8),
    /// The proxy closed before it had answered.
    Closed,
    /// HTTP: the head of the answer is too long.
    HeadTooLarge,
    /// HTTP: the proxy did not connect; this was its status line.
    Refused(String),
}

/// Why a proxy could not be used, by what is held.
pub ghost enum Failure {
    AuthRefused(u8, u8),
    HostTooLong(nat),
    ConnectFailed(u8),
    BadAddressType(u8),
    Rejected(u8),
    Closed,
    HeadTooLarge,
    Refused(Seq<char>),
}

impl View for HandshakeError {
    type V = Failure;

    open spec fn view(&self) -> Failure {
        match self {
            HandshakeError::AuthRefused(a, b) => Failure::AuthRefused(*a, *b),
            HandshakeError::HostTooLong(n) => Failure::HostTooLong(*n as nat),
            HandshakeError::ConnectFailed(c) => Failure::ConnectFailed(*c),
            HandshakeError::BadAddressType(c) => Failure::BadAddressType(*c),
            HandshakeError::Rejected(c) => Failure::Rejected(*c),
            HandshakeError::Closed => Failure::Closed,
            HandshakeError::HeadTooLarge => Failure::HeadTooLarge,
            HandshakeError::Refused(line) => Failure::Refused(line@),
        }
    }
}

/// What comes next in the conversation with a proxy.
#[derive(Debug)]
pub enum Exchange {
    /// Send these bytes, then read this many and report them with `received`.
    Send(Vec<u8>, usize),
    /// The tunnel stands.
    Done,
    /// There will be no tunnel.
    Failed(HandshakeError),
}

/// What comes next, by what is held.
#[verifier::ext_equal]
pub ghost enum Next {
    Send(Seq<u8>, nat),
    Done,
    Failed(Failure),
}

impl View for Exchange {
    type V = Next;

    open spec fn view(&self) -> Next {
        match self {
            Exchange::Send(bytes, n) => Next::Send(bytes@, *n as nat),
            Exchange::Done => Next::Done,
            Exchange::Failed(e) => Next::Failed(e@),
        }
    }
}

/// What is awaited from a proxy.
#[derive(Debug)]
pub enum Stage {
    /// SOCKS5: the choice of a way to log in.
    Greeting,
    /// SOCKS5: the answer to the request, up to the kind of the proxy's address.
    Reply,
    /// SOCKS5: how long the proxy's name is.
    NameLength,
    /// SOCKS5: this many bytes of the proxy's address and port.
    BoundAddress(usize),
    /// SOCKS4: the answer to the request.
    Grant,
    /// HTTP: the next byte of the answer's head, of which this is there.
    Head(Vec<u8>),
    /// Nothing.
    Over,
}

/// What is awaited, by what is held.
#[verifier::ext_equal]
pub ghost enum StageView {
    Greeting,
    Reply,
    NameLength,
    BoundAddress(nat),
    Grant,
    Head(Seq<u8>),
    Over,
}

impl View for Stage {
    type V = StageView;

    open spec fn view(&self) -> StageView {
        match self {
            Stage::Greeting => StageView::Greeting,
            Stage::Reply => StageView::Reply,
            Stage::NameLength => StageView::NameLength,
            Stage::BoundAddress(n) => StageView::BoundAddress(*n as nat),
            Stage::Grant => StageView::Grant,
            Stage::Head(head) => StageView::Head(head@),
            Stage::Over => StageView::Over,
        }
    }
}

impl StageView {
    /// How many bytes are awaited.
    pub open spec fn awaits(self) -> nat {
        match self {
            StageView::Greeting => 2,
            StageView::Reply => 4,
            StageView::NameLength => 1,
            StageView::BoundAddress(n) => n,
            StageView::Grant => 8,
            StageView::Head(_) => 1,
            StageView::Over => 0,
        }
    }
}

/// A conversation with a proxy.
#[derive(Debug)]
pub struct Handshake {
    pub host: String,
    pub port: u16,
    pub stage: Stage,
}

/// The SOCKS5 request to connect to a name.
pub open spec fn socks5_request(host: Seq<u8>, port: u16) -> Seq<u8> {
    seq![5u8, 1, 0, 3, host.len() as u8] + host + be16_bytes(port)
}

/// The SOCKS4a request to connect to a name: no address, no user, and the name at the
/// end.
pub open spec fn socks4_request(host: Seq<u8>, port: u16) -> Seq<u8> {
    seq![4u8, 1] + be16_bytes(port) + seq![0u8, 0, 0, 1, 0] + host + seq![0u8]
}

/// The HTTP request to connect to a name.
pub open spec fn http_request(host: Seq<char>, port: u16) -> Seq<char> {
    "CONNECT "@ + host_port(host, port) + " HTTP/1.1\r\nHost: "@ + host_port(host, port)
        + "\r\nProxy-Connection: keep-alive\r\n\r\n"@
}

/// What starts the conversation.
pub open spec fn opening(kind: ProxyKind, host: Seq<char>, port: u16) -> (StageView, Next) {
    match kind {
        ProxyKind::Socks5 => (StageView::Greeting, Next::Send(seq![5u8, 1, 0], 2)),
        ProxyKind::Socks4 => (
            StageView::Grant,
            Next::Send(socks4_request(encode_utf8(host), port), 8),
        ),
        ProxyKind::Http => (
            StageView::Head(Seq::empty()),
            Next::Send(encode_utf8(http_request(host, port)), 1),
        ),
    }
}

/// Whether the head of an HTTP answer is complete: it ends with an empty line.
pub open spec fn head_is_complete(head: Seq<u8>) -> bool {
    &&& head.len() >= 4
    &&& head[head.len() - 4] == 13
    &&& head[head.len() - 3] == 10
    &&& head[head.len() - 2] == 13
    &&& head[head.len() - 1] == 10
}

/// The first line.
pub open spec fn first_line(head: Seq<u8>) -> Seq<u8>
    decreases head.len(),
{
    if head.len() == 0 || head[0] == 13 || head[0] == 10 {
        Seq::empty()
    } else {
        seq![head[0]] + first_line(head.drop_first())
    }
}

/// Whether a status line says that the request succeeded: its second word is a number
/// from 200 to 299.
pub open spec fn status_is_success(line: Seq<char>) -> bool {
    match second_word(line) {
        Some(word) => match unsigned(word, 65535) {
            Some(code) => 200 <= code < 300,
            None => false,
        },
        None => false,
    }
}

/// What the bytes that were awaited lead to.
pub open spec fn answer(
    stage: StageView,
    host: Seq<char>,
    port: u16,
    bytes: Seq<u8>,
) -> (StageView, Next) {
    match stage {
        StageView::Greeting => {
            let name = encode_utf8(host);
            if bytes[0] != 5 || bytes[1] != 0 {
                (StageView::Over, Next::Failed(Failure::AuthRefused(bytes[0], bytes[1])))
            } else if name.len() > 255 {
                (StageView::Over, Next::Failed(Failure::HostTooLong(name.len())))
            } else {
                (StageView::Reply, Next::Send(socks5_request(name, port), 4))
            }
        },
        StageView::Reply => if bytes[1] != 0 {
            (StageView::Over, Next::Failed(Failure::ConnectFailed(bytes[1])))
        } else if bytes[3] == 1 {
            (StageView::BoundAddress(6), Next::Send(Seq::empty(), 6))
        } else if bytes[3] == 4 {
            (StageView::BoundAddress(18), Next::Send(Seq::empty(), 18))
        } else if bytes[3] == 3 {
            (StageView::NameLength, Next::Send(Seq::empty(), 1))
        } else {
            (StageView::Over, Next::Failed(Failure::BadAddressType(bytes[3])))
        },
        StageView::NameLength => (
            StageView::BoundAddress((bytes[0] + 2) as nat),
            Next::Send(Seq::empty(), (bytes[0] + 2) as nat),
        ),
        StageView::BoundAddress(_) => (StageView::Over, Next::Done),
        StageView::Grant => if bytes[1] == 0x5A {
            (StageView::Over, Next::Done)
        } else {
            (StageView::Over, Next::Failed(Failure::Rejected(bytes[1])))
        },
        StageView::Head(had) => {
            let head = had + bytes;
            let line = lossy_text(first_line(head));
            if head.len() > MAX_HTTP_HEAD {
                (StageView::Over, Next::Failed(Failure::HeadTooLarge))
            } else if !head_is_complete(head) {
                (StageView::Head(head), Next::Send(Seq::empty(), 1))
            } else if status_is_success(line) {
                (StageView::Over, Next::Done)
            } else {
                (StageView::Over, Next::Failed(Failure::Refused(line)))
            }
        },
        StageView::Over => (StageView::Over, Next::Failed(Failure::Closed)),
    }
}

impl Handshake {
    /// The head of an HTTP answer is not longer than it may be.
    pub open spec fn wf(self) -> bool {
        self.stage@ matches StageView::Head(head) ==> head.len() <= MAX_HTTP_HEAD
    }

    /// Starts the conversation with a proxy of a kind, to connect to a name and port.
    pub fn start(kind: ProxyKind, host: &str, port: u16) -> (r: (Handshake, Exchange))
        ensures
            (r.0.stage@, r.1@) == opening(kind, host@, port),
            r.0.host@ == host@,
            r.0.port == port,
            r.0.wf(),
    {
        let name: String = host.to_owned();
        match kind {
            ProxyKind::Socks5 => {
                let hello: Vec<u8> = vec![5u8, 1, 0];
                assert(hello@ == seq![5u8, 1, 0]);
                (
                    Handshake { host: name, port, stage: Stage::Greeting },
                    Exchange::Send(hello, 2),
                )
            },
            ProxyKind::Socks4 => {
                let mut req: Vec<u8> = vec![4u8, 1];
                put_be_u16(&mut req, port);
                put_bytes(&mut req, vec![0u8, 0, 0, 1, 0].as_slice());
                put_bytes(&mut req, host.as_bytes());
                req.push(0);
                assert(req@ == socks4_request(encode_utf8(host@), port));
                (Handshake { host: name, port, stage: Stage::Grant }, Exchange::Send(req, 8))
            },
            ProxyKind::Http => {
                let mut text: Vec<char> = Vec::new();
                push_text(&mut text, "CONNECT ");
                push_host_port(&mut text, host, port);
                push_text(&mut text, " HTTP/1.1\r\nHost: ");
                push_host_port(&mut text, host, port);
                push_text(&mut text, "\r\nProxy-Connection: keep-alive\r\n\r\n");
                assert(text@ == http_request(host@, port));
                let req: String = text_of(text.as_slice());
                let bytes: &[u8] = req.as_str().as_bytes();
                let copy: Vec<u8> = copy_range(bytes, 0, bytes.len());
                assert(copy@ == encode_utf8(http_request(host@, port)));
                (
                    Handshake { host: name, port, stage: Stage::Head(Vec::new()) },
                    Exchange::Send(copy, 1),
                )
            },
        }
    }

    /// Goes on with the bytes that were awaited.
    pub fn received(&mut self, bytes: &[u8]) -> (next: Exchange)
        requires
            old(self).wf(),
            bytes@.len() == old(self).stage@.awaits(),
        ensures
            final(self).wf(),
            (final(self).stage@, next@) == answer(
                old(self).stage@,
                old(self).host@,
                old(self).port,
                bytes@,
            ),
            final(self).host == old(self).host,
            final(self).port == old(self).port,
    {
        let mut stage: Stage = Stage::Over;
        std::mem::swap(&mut stage, &mut self.stage);
        match stage {
            Stage::Greeting => self.choose_login(bytes),
            Stage::Reply => self.read_reply(bytes),
            Stage::NameLength => {
                let n: usize = bytes[0] as usize + 2;
                self.await_rest(n)
            },
            Stage::BoundAddress(_) => Exchange::Done,
            Stage::Grant => if bytes[1] == 0x5A {
                Exchange::Done
            } else {
                Exchange::Failed(HandshakeError::Rejected(bytes[1]))
            },
            Stage::Head(head) => self.read_head(head, bytes),
            Stage::Over => Exchange::Failed(HandshakeError::Closed),
        }
    }

    fn await_rest(&mut self, n: usize) -> (next: Exchange)
        ensures
            final(self).stage@ == StageView::BoundAddress(n as nat),
            next@ == Next::Send(Seq::empty(), n as nat),
            final(self).host == old(self).host,
            final(self).port == old(self).port,
    {
        self.stage = Stage::BoundAddress(n);
        let nothing: Vec<u8> = Vec::new();
        assert(nothing@ == Seq::<u8>::empty());
        Exchange::Send(nothing, n)
    }

    fn choose_login(&mut self, bytes: &[u8]) -> (next: Exchange)
        requires
            old(self).stage@ is Over,
            bytes@.len() == 2,
        ensures
            (final(self).stage@, next@) == answer(
                StageView::Greeting,
                old(self).host@,
                old(self).port,
                bytes@,
            ),
            final(self).host == old(self).host,
            final(self).port == old(self).port,
    {
        if bytes[0] != 5 || bytes[1] != 0 {
            return Exchange::Failed(HandshakeError::AuthRefused(bytes[0], bytes[1]));
        }
        let name: &[u8] = self.host.as_str().as_bytes();
        if name.len() > 255 {
            return Exchange::Failed(HandshakeError::HostTooLong(name.len()));
        }
        let mut req: Vec<u8> = vec![5u8, 1, 0, 3, name.len() as u8];
        put_bytes(&mut req, name);
        put_be_u16(&mut req, self.port);
        assert(req@ == socks5_request(encode_utf8(self.host@), self.port));
        self.stage = Stage::Reply;
        Exchange::Send(req, 4)
    }

    fn read_reply(&mut self, bytes: &[u8]) -> (next: Exchange)
        requires
            old(self).stage@ is Over,
            bytes@.len() == 4,
        ensures
            (final(self).stage@, next@) == answer(
                StageView::Reply,
                old(self).host@,
                old(self).port,
                bytes@,
            ),
            final(self).host == old(self).host,
            final(self).port == old(self).port,
    {
        if bytes[1] != 0 {
            return Exchange::Failed(HandshakeError::ConnectFailed(bytes[1]));
        }
        if bytes[3] == 1 {
            self.await_rest(6)
        } else if bytes[3] == 4 {
            self.await_rest(18)
        } else if bytes[3] == 3 {
            self.stage = Stage::NameLength;
            let nothing: Vec<u8> = Vec::new();
            assert(nothing@ == Seq::<u8>::empty());
            Exchange::Send(nothing, 1)
        } else {
            Exchange::Failed(HandshakeError::BadAddressType(bytes[3]))
        }
    }

    fn read_head(&mut self, had: Vec<u8>, bytes: &[u8]) -> (next: Exchange)
        requires
            old(self).stage@ is Over,
            bytes@.len() == 1,
            had@.len() <= MAX_HTTP_HEAD,
        ensures
            final(self).wf(),
            (final(self).stage@, next@) == answer(
                StageView::Head(had@),
                old(self).host@,
                old(self).port,
                bytes@,
            ),
            final(self).host == old(self).host,
            final(self).port == old(self).port,
    {
        let mut head: Vec<u8> = had;
        put_bytes(&mut head, bytes);
        let n: usize = head.len();
        if n > MAX_HTTP_HEAD {
            return Exchange::Failed(HandshakeError::HeadTooLarge);
        }
        if !(n >= 4 && head[n - 4] == 13 && head[n - 3] == 10 && head[n - 2] == 13 && head[n - 1]
            == 10) {
            self.stage = Stage::Head(head);
            let nothing: Vec<u8> = Vec::new();
            assert(nothing@ == Seq::<u8>::empty());
            return Exchange::Send(nothing, 1);
        }
        http_verdict(text_from_utf8_lossy(line_of(head.as_slice()).as_slice()))
    }

    /// The proxy has closed before it had sent what was awaited.
    pub fn closed(&mut self) -> (next: Exchange)
        ensures
            final(self).stage@ == StageView::Over,
            next@ == Next::Failed(Failure::Closed),
            final(self).host == old(self).host,
            final(self).port == old(self).port,
    {
        self.stage = Stage::Over;
        Exchange::Failed(HandshakeError::Closed)
    }
}

/// What the status line of an HTTP answer means.
pub fn http_verdict(line: String) -> (next: Exchange)
    ensures
        next@ == (if status_is_success(line@) {
            Next::Done
        } else {
            Next::Failed(Failure::Refused(line@))
        }),
{
    let chars: Vec<char> = chars_of(line.as_str());
    let ok: bool = match find_second_word(chars.as_slice()) {
        Some(word) => match parse_unsigned(word.as_slice(), 65535) {
            Some(code) => 200 <= code && code < 300,
            None => false,
        },
        None => false,
    };
    if ok {
        Exchange::Done
    } else {
        Exchange::Failed(HandshakeError::Refused(line))
    }
}

fn line_of(head: &[u8]) -> (line: Vec<u8>)
    ensures
        line@ == first_line(head@),
{
    let n: usize = head.len();
    let mut at: usize = 0;
    assert(head@.skip(0) == head@);
    assert(head@.take(0) + first_line(head@) == first_line(head@));
    while at < n && head[at] != 13 && head[at] != 10
        invariant
            at <= n == head@.len(),
            first_line(head@) == head@.take(at as int) + first_line(head@.skip(at as int)),
        decreases n - at,
    {
        proof {
            let rest = head@.skip(at as int);
            assert(rest.drop_first() == head@.skip(at + 1));
            assert(head@.take(at + 1) + first_line(head@.skip(at + 1)) =~= head@.take(at as int)
                + first_line(rest));
        }
        at = at + 1;
    }
    assert(first_line(head@.skip(at as int)) =~= Seq::empty());
    assert(head@.subrange(0, at as int) == head@.take(at as int));
    copy_range(head, 0, at)
}

/// A kind is read back from its name, and no other text names one.
pub proof fn law_kind_names_read_back(kind: ProxyKind, name: Seq<char>)
    ensures
        ProxyKind::named(kind.name()) == Some(kind),
        ProxyKind::named(name) matches Some(k) ==> k.name() == name,
{
    reveal_strlit("socks5");
    reveal_strlit("socks4");
    reveal_strlit("http");
    assert("socks5"@[5] != "socks4"@[5]);
    assert("http"@.len() == 4);
}

/// In every conversation what is read next is what is awaited next, and the
/// conversation is over exactly when nothing is awaited.
pub proof fn law_conversation_is_in_step(
    kind: ProxyKind,
    stage: StageView,
    host: Seq<char>,
    port: u16,
    bytes: Seq<u8>,
)
    ensures
        opening(kind, host, port).1 matches Next::Send(_, n) && n == opening(
            kind,
            host,
            port,
        ).0.awaits(),
        answer(stage, host, port, bytes).1 matches Next::Send(_, n) ==> n == answer(
            stage,
            host,
            port,
            bytes,
        ).0.awaits() && n > 0,
        answer(stage, host, port, bytes).1 is Send <==> !(answer(stage, host, port, bytes).0 is Over),
{
}

/// A tunnel is reported only after the proxy has granted it. With SOCKS5 the last thing
/// awaited is the proxy's own address, which is awaited only after a reply that reports
/// success, which is awaited only after the proxy chose to go without a login.
pub proof fn law_tunnel_needs_a_grant(
    stage: StageView,
    host: Seq<char>,
    port: u16,
    bytes: Seq<u8>,
)
    ensures
        answer(stage, host, port, bytes).1 is Done ==> match stage {
            StageView::BoundAddress(_) => true,
            StageView::Grant => bytes[1] == 0x5A,
            StageView::Head(had) => head_is_complete(had + bytes) && status_is_success(
                lossy_text(first_line(had + bytes)),
            ),
            _ => false,
        },
        answer(stage, host, port, bytes).0 is BoundAddress ==> stage is NameLength || (stage is Reply
            && bytes[1] == 0),
        answer(stage, host, port, bytes).0 is NameLength ==> stage is Reply && bytes[1] == 0,
        answer(stage, host, port, bytes).0 is Reply ==> stage is Greeting && bytes[0] == 5
            && bytes[1] == 0,
{
}

/// A name that is sent with SOCKS5 is never cut off: its length stands before it in one
/// byte, and a name that is too long for that is not sent.
pub proof fn law_socks5_name_is_whole(host: Seq<char>, port: u16, bytes: Seq<u8>)
    ensures
        answer(StageView::Greeting, host, port, bytes).1 matches Next::Send(request, _) ==> {
            let name = encode_utf8(host);
            &&& request[4] == name.len()
            &&& request.subrange(5, 5 + name.len() as int) == name
            &&& request.len() == 7 + name.len()
        },
{
    let name = encode_utf8(host);
    let request = socks5_request(name, port);
    assert(request.subrange(5, 5 + name.len() as int) =~= name);
}

/// The conversation with a SOCKS5 proxy, byte by byte: the greeting offers no login; the
/// request asks for a connection to a name, with its length in front and the port behind
/// it, high byte first; the reply is read to the end of the proxy's own address.
pub proof fn law_socks5_bytes(host: Seq<char>, port: u16, a: u8, b: u8, c: u8, d: u8)
    ensures
        opening(ProxyKind::Socks5, host, port) == (
            StageView::Greeting,
            Next::Send(seq![5u8, 1u8, 0u8], 2),
        ),
        ({
            let name = encode_utf8(host);
            let (stage, next) = answer(StageView::Greeting, host, port, seq![5u8, 0u8]);
            &&& name.len() > 255 ==> stage is Over && next == Next::Failed(
                Failure::HostTooLong(name.len()),
            )
            &&& name.len() <= 255 ==> stage is Reply && (next matches Next::Send(request, n) && n == 4
                && request.len() == 7 + name.len() && request.take(4) == seq![5u8, 1u8, 0u8, 3u8]
                && request[4] == name.len() && request.subrange(5, 5 + name.len() as int) == name
                && request[request.len() - 2] * 256 + request[request.len() - 1] == port)
        }),
        a != 5 || b != 0 ==> answer(StageView::Greeting, host, port, seq![a, b]) == (
            StageView::Over,
            Next::Failed(Failure::AuthRefused(a, b)),
        ),
        b != 0 ==> answer(StageView::Reply, host, port, seq![a, b, c, d]) == (
            StageView::Over,
            Next::Failed(Failure::ConnectFailed(b)),
        ),
        answer(StageView::Reply, host, port, seq![a, 0u8, c, 1u8]) == (
            StageView::BoundAddress(4 + 2),
            Next::Send(Seq::empty(), 4 + 2),
        ),
        answer(StageView::Reply, host, port, seq![a, 0u8, c, 4u8]) == (
            StageView::BoundAddress(16 + 2),
            Next::Send(Seq::empty(), 16 + 2),
        ),
        answer(StageView::Reply, host, port, seq![a, 0u8, c, 3u8]) == (
            StageView::NameLength,
            Next::Send(Seq::empty(), 1),
        ),
        d != 1 && d != 3 && d != 4 ==> answer(StageView::Reply, host, port, seq![a, 0u8, c, d]) == (
            StageView::Over,
            Next::Failed(Failure::BadAddressType(d)),
        ),
        answer(StageView::NameLength, host, port, seq![a]).0 == StageView::BoundAddress(
            (a + 2) as nat,
        ),
        answer(StageView::NameLength, host, port, seq![a]).1 == Next::Send(
            Seq::empty(),
            (a + 2) as nat,
        ),
{
    let name = encode_utf8(host);
    let request = socks5_request(name, port);
    assert(request.take(4) =~= seq![5u8, 1u8, 0u8, 3u8]);
    assert(request.subrange(5, 5 + name.len() as int) =~= name);
    assert(request[request.len() - 2] == be16_bytes(port)[0]);
    assert(request[request.len() - 1] == be16_bytes(port)[1]);
}

/// The conversation with a SOCKS4 proxy, byte by byte: one request, with the port high
/// byte first, an address that stands for none, no user and the name, which a zero ends;
/// and one answer, whose second byte is 90 if the tunnel stands.
pub proof fn law_socks4_bytes(host: Seq<char>, port: u16, bytes: Seq<u8>)
    requires
        bytes.len() == 8,
    ensures
        ({
            let name = encode_utf8(host);
            let (stage, next) = opening(ProxyKind::Socks4, host, port);
            &&& stage is Grant
            &&& next matches Next::Send(request, n) && n == 8 && request.len() == 10 + name.len()
                && request[0] == 4 && request[1] == 1 && request[2] * 256 + request[3] == port
                && request.subrange(4, 9) == seq![0u8, 0u8, 0u8, 1u8, 0u8] && request.subrange(
                9,
                9 + name.len() as int,
            ) == name && request.last() == 0
        }),
        bytes[1] == 90 ==> answer(StageView::Grant, host, port, bytes) == (
            StageView::Over,
            Next::Done,
        ),
        bytes[1] != 90 ==> answer(StageView::Grant, host, port, bytes) == (
            StageView::Over,
            Next::Failed(Failure::Rejected(bytes[1])),
        ),
{
    let name = encode_utf8(host);
    let request = socks4_request(name, port);
    assert(request.subrange(4, 9) =~= seq![0u8, 0u8, 0u8, 1u8, 0u8]);
    assert(request.subrange(9, 9 + name.len() as int) =~= name);
    assert(request[2] == be16_bytes(port)[0]);
    assert(request[3] == be16_bytes(port)[1]);
}

/// What is asked of an HTTP proxy: to connect to `host:port`, which is named twice, and
/// nothing else.
pub proof fn law_http_request_text(host: Seq<char>, port: u16)
    ensures
        host_port(host, port) == host + seq![':'] + to_decimal(port as nat),
        opening(ProxyKind::Http, host, port) == (
            StageView::Head(Seq::empty()),
            Next::Send(
                encode_utf8(
                    "CONNECT "@ + host_port(host, port) + " HTTP/1.1\r\nHost: "@ + host_port(
                        host,
                        port,
                    ) + "\r\nProxy-Connection: keep-alive\r\n\r\n"@,
                ),
                1,
            ),
        ),
{
    reveal_strlit(":");
    assert(":"@ =~= seq![':']);
}

/// How the answer of an HTTP proxy is read: byte by byte up to the first empty line, if
/// that comes within 8192 bytes. Then the line before the first line end decides.
pub proof fn law_http_answer(line: Seq<u8>, more: Seq<u8>, b: u8, host: Seq<char>, port: u16)
    requires
        !line.contains(13),
        !line.contains(10),
    ensures
        ({
            let had = line + seq![13u8] + more + seq![13u8, 10u8, 13u8];
            let text = lossy_text(line);
            had.len() < 8192 ==> answer(StageView::Head(had), host, port, seq![10u8]) == (
                StageView::Over,
                if status_is_success(text) {
                    Next::Done
                } else {
                    Next::Failed(Failure::Refused(text))
                },
            )
        }),
        more.len() < 8192 && (b != 10 || more.len() < 3 || more.subrange(
            more.len() - 3,
            more.len() as int,
        ) != seq![13u8, 10u8, 13u8]) ==> answer(StageView::Head(more), host, port, seq![b]) == (
            StageView::Head(more.push(b)),
            Next::Send(Seq::empty(), 1),
        ),
        more.len() >= 8192 ==> answer(StageView::Head(more), host, port, seq![b]) == (
            StageView::Over,
            Next::Failed(Failure::HeadTooLarge),
        ),
{
    let had = line + seq![13u8] + more + seq![13u8, 10u8, 13u8];
    let head = had + seq![10u8];
    assert(head =~= line + (seq![13u8] + more + seq![13u8, 10u8, 13u8, 10u8]));
    lemma_first_line(line, seq![13u8] + more + seq![13u8, 10u8, 13u8, 10u8]);
    let longer = more + seq![b];
    assert(longer =~= more.push(b));
    if more.len() < 8192 && head_is_complete(longer) {
        assert(more.subrange(more.len() - 3, more.len() as int) =~= seq![13u8, 10u8, 13u8]);
    }
}

proof fn lemma_first_line(line: Seq<u8>, rest: Seq<u8>)
    requires
        !line.contains(13),
        !line.contains(10),
        rest.len() > 0,
        rest[0] == 13,
    ensures
        first_line(line + rest) == line,
    decreases line.len(),
{
    let s = line + rest;
    if line.len() == 0 {
        assert(s[0] == rest[0]);
        assert(line =~= Seq::<u8>::empty());
    } else {
        let shorter = line.drop_first();
        assert(line.contains(line[0]));
        assert(s.drop_first() =~= shorter + rest);
        assert forall|x: u8| shorter.contains(x) implies line.contains(x) by {
            let j = choose|j: int| 0 <= j < shorter.len() && shorter[j] == x;
            assert(line[j + 1] == x);
        }
        lemma_first_line(shorter, rest);
        assert(seq![line[0]] + shorter =~= line);
    }
}

/// Which status lines grant the tunnel: those whose second word is a number from 200 to
/// 299.
pub proof fn law_status_line(version: Seq<char>, code: u16, rest: Seq<char>, word: Seq<char>)
    requires
        version.len() > 0,
        forall|i: int| 0 <= i < version.len() ==> !is_space(#[trigger] version[i]),
        rest.len() > 0 ==> is_space(rest[0]),
        word.len() > 0,
        forall|i: int| 0 <= i < word.len() ==> !is_space(#[trigger] word[i]),
    ensures
        status_is_success(version + seq![' '] + to_decimal(code as nat) + rest) <==> 200 <= code
            <= 299,
        !(48 <= word[0] as u32 <= 57) && word[0] != '+' ==> !status_is_success(
            version + seq![' '] + word + rest,
        ),
        !status_is_success(version),
{
    let digits = to_decimal(code as nat);
    law_decimal_digits(code as nat);
    law_decimal_reads_back(code as nat);
    assert forall|i: int| 0 <= i < digits.len() implies !is_space(#[trigger] digits[i]) by {
        if !(48 <= digits[i] as u32 <= 57) {
            law_digits_are_digits(code as nat, digits[i]);
            assert(digits.contains(digits[i]));
        }
    }
    law_second_word(version, digits, rest);
    law_second_word(version, word, rest);
    law_unsigned_reads_digits(code as nat, 65535, word, 0);
}

/// Which proxies are tried: at most six, one after the other from the starting place,
/// beginning again at the end of the list.
pub proof fn law_rotation_order(start: nat, len: nat, i: int)
    requires
        0 < len <= usize::MAX,
    ensures
        len < 6 ==> rotation(start, len).len() == len,
        len >= 6 ==> rotation(start, len).len() == 6,
        0 <= i < rotation(start, len).len() ==> rotation(start, len)[i] == (start + i) % (
        len as int),
{
    vstd::arithmetic::div_mod::lemma_mod_bound(start + i, len as int);
}

/// A proxy of a list can be used exactly if its kind is `socks5`, `socks4` or `http`, and
/// is then used as it is listed; the order stays.
pub proof fn law_usable_proxies(records: Seq<ProxyRecord>, r: ProxyRecord)
    ensures
        r.kind@ == "socks5"@ ==> usable(records.push(r)) == usable(records).push(
            UpstreamView { kind: ProxyKind::Socks5, host: r.host@, port: r.port },
        ),
        r.kind@ == "socks4"@ ==> usable(records.push(r)) == usable(records).push(
            UpstreamView { kind: ProxyKind::Socks4, host: r.host@, port: r.port },
        ),
        r.kind@ == "http"@ ==> usable(records.push(r)) == usable(records).push(
            UpstreamView { kind: ProxyKind::Http, host: r.host@, port: r.port },
        ),
        r.kind@ != "socks5"@ && r.kind@ != "socks4"@ && r.kind@ != "http"@ ==> usable(
            records.push(r),
        ) == usable(records),
        usable(Seq::empty()) == Seq::<UpstreamView>::empty(),
{
    assert(records.push(r).drop_last() =~= records);
    reveal_strlit("socks5");
    reveal_strlit("socks4");
    reveal_strlit("http");
    assert("socks5"@[5] != "socks4"@[5]);
    assert("http"@.len() == 4);
}

} // verus!
