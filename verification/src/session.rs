//! One client of the relay, from its first message to its last byte.
//!
//! A client says where it wants to connect. The policy decides, a way to get there
//! is chosen, and then bytes are passed both ways while the limits are watched.

use crate::allow::{globally_routable, is_globally_routable, permitted, Allowlist, Rule};
use crate::bytes::copy_range;
use crate::forwarder::texts;
use crate::limits::{text_view, PeerIp};
use crate::text::{chars_of, push_text, same_chars, split, split_at, text_from_utf8, text_of, to_decimal, trim, trimmed};
use crate::upstream::{host_port, push_host_port, Upstream};
use vstd::prelude::*;
use vstd::utf8::{decode_utf8, encode_utf8, valid_utf8};

verus! {

/// The text message with which a client says that the guest has finished writing.
pub const HALF_CLOSE: &'static str = "FIN";

/// How many seconds a client has to say where it wants to connect.
pub const CONNECT_TIMEOUT_SECS: u64 = 10;

/// Whether a relay is one that should not run.
pub open spec fn is_open_relay(allows_anything: bool, is_loopback: bool, override_set: bool) -> bool {
    allows_anything && !is_loopback && !override_set
}

/// Whether to refuse to run: anyone could reach anything through the relay, anyone can
/// reach the relay, and nobody has said that this is meant.
pub fn refuse_open_relay(allows_anything: bool, is_loopback: bool, override_set: bool) -> (b: bool)
    ensures
        b == (allows_anything && !is_loopback && !override_set),
        b == is_open_relay(allows_anything, is_loopback, override_set),
{
    allows_anything && !is_loopback && !override_set
}

/// The origins that a setting names: its pieces between commas, without white space
/// around them. A setting that is blank or not set names none and accepts all.
pub open spec fn origins_of(setting: Option<Seq<char>>) -> Option<Seq<Seq<char>>> {
    match setting {
        Some(s) => if trim(s).len() == 0 {
            None
        } else {
            Some(split(s, ',').map_values(|piece: Seq<char>| trim(piece)))
        },
        None => None,
    }
}

/// What an optional list of texts holds.
pub open spec fn list_view(list: Option<Vec<String>>) -> Option<Seq<Seq<char>>> {
    match list {
        Some(v) => Some(texts(v@)),
        None => None,
    }
}

/// The origins that a setting names.
pub fn parse_origins(setting: Option<&str>) -> (list: Option<Vec<String>>)
    ensures
        list_view(list) == origins_of(text_view(setting)),
{
    match setting {
        Some(s) => {
            let chars: Vec<char> = chars_of(s);
            if trimmed(chars.as_slice()).len() == 0 {
                return None;
            }
            let pieces: Vec<Vec<char>> = split_at(chars.as_slice(), ',');
            let mut list: Vec<String> = Vec::new();
            let mut i: usize = 0;
            let ghost all = split(s@, ',').map_values(|piece: Seq<char>| trim(piece));
            while i < pieces.len()
                invariant
                    i <= pieces@.len(),
                    all.len() == pieces@.len(),
                    forall|j: int| 0 <= j < all.len() ==> #[trigger] all[j] == trim(pieces@[j]@),
                    texts(list@) == all.take(i as int),
                decreases pieces@.len() - i,
            {
                let piece: Vec<char> = trimmed(pieces[i].as_slice());
                let text: String = text_of(piece.as_slice());
                let ghost before = list@;
                list.push(text);
                assert(texts(list@) =~= texts(before).push(text@));
                assert(all.take(i + 1) =~= all.take(i as int).push(all[i as int]));
                i = i + 1;
            }
            assert(all.take(all.len() as int) == all);
            Some(list)
        },
        None => None,
    }
}

/// Whether a page from `origin` may use the relay. A page that does not say where it
/// is from has an empty origin.
pub open spec fn accepts_origin(origins: Option<Seq<Seq<char>>>, origin: Option<Seq<char>>) -> bool {
    match origins {
        Some(list) => list.contains(
            match origin {
                Some(o) => o,
                None => Seq::empty(),
            },
        ),
        None => true,
    }
}

/// Whether a page from `origin` may use the relay.
pub fn origin_allowed(origins: &Option<Vec<String>>, origin: Option<&str>) -> (b: bool)
    ensures
        b == accepts_origin(list_view(*origins), text_view(origin)),
{
    match origins {
        None => true,
        Some(list) => {
            let wanted: Vec<char> = match origin {
                Some(o) => chars_of(o),
                None => Vec::new(),
            };
            let mut i: usize = 0;
            while i < list.len()
                invariant
                    i <= list@.len(),
                    *origins == Some(*list),
                    wanted@ == (match text_view(origin) {
                        Some(o) => o,
                        None => Seq::empty(),
                    }),
                    forall|j: int| 0 <= j < i ==> (#[trigger] list@[j])@ != wanted@,
                decreases list@.len() - i,
            {
                let chars: Vec<char> = chars_of(list[i].as_str());
                if same_chars(chars.as_slice(), wanted.as_slice()) {
                    assert(texts(list@)[i as int] == wanted@);
                    return true;
                }
                i = i + 1;
            }
            assert(!texts(list@).contains(wanted@));
            false
        },
    }
}

/// A message from a client.
#[derive(Debug)]
pub enum ClientMessage {
    Text(String),
    Binary(Vec<u8>),
    Close,
    Other,
}

/// Why a first message says nothing.
#[derive(Debug, Clone, Copy, PartialEq, Eq, Structural)]
pub enum FrameError {
    /// It is no text.
    NotText,
    /// It is neither text nor bytes.
    Unexpected,
}

/// The text of a client's first message, which may come as bytes too.
pub fn connect_text(msg: ClientMessage) -> (r: Result<String, FrameError>)
    ensures
        match msg {
            ClientMessage::Text(s) => r matches Ok(t) && t@ == s@,
            ClientMessage::Binary(b) => if valid_utf8(b@) {
                r matches Ok(t) && t@ == decode_utf8(b@)
            } else {
                r == Err::<String, FrameError>(FrameError::NotText)
            },
            _ => r == Err::<String, FrameError>(FrameError::Unexpected),
        },
{
    match msg {
        ClientMessage::Text(s) => Ok(s),
        ClientMessage::Binary(b) => match text_from_utf8(b.as_slice()) {
            Some(t) => Ok(t),
            None => Err(FrameError::NotText),
        },
        _ => Err(FrameError::Unexpected),
    }
}

/// Where a client wants to connect.
#[derive(Debug)]
pub struct ConnectFrame {
    pub host: String,
    pub port: u16,
    /// Through this proxy.
    pub upstream: Option<Upstream>,
    /// Through a proxy that the relay picks, if no proxy is given.
    pub auto: bool,
}

/// How a client's wish is met.
#[derive(Debug, Clone, Copy, PartialEq, Eq, Structural)]
pub enum Route {
    /// Not at all: the policy forbids it.
    Refused,
    /// Through the proxy that the client gave.
    Upstream,
    /// Through a proxy from the relay's list.
    Auto,
    /// Not at all: there is no list of proxies.
    NoPool,
    /// Directly.
    Direct,
}

/// How a client's wish is met: the policy comes first, then a proxy that the client gave,
/// then one from the relay's list.
pub open spec fn route_for(frame: ConnectFrame, rules: Seq<Rule>, has_pool: bool) -> Route {
    if !permitted(rules, frame.host@, frame.port) {
        Route::Refused
    } else if frame.upstream is Some {
        Route::Upstream
    } else if frame.auto {
        if has_pool {
            Route::Auto
        } else {
            Route::NoPool
        }
    } else {
        Route::Direct
    }
}

/// How a client's wish is met. `has_pool` says whether there is a list of proxies.
pub fn choose_route(frame: &ConnectFrame, allow: &Allowlist, has_pool: bool) -> (route: Route)
    ensures
        route == route_for(*frame, allow@, has_pool),
{
    if !allow.permits(frame.host.as_str(), frame.port) {
        Route::Refused
    } else if frame.upstream.is_some() {
        Route::Upstream
    } else if frame.auto {
        if has_pool {
            Route::Auto
        } else {
            Route::NoPool
        }
    } else {
        Route::Direct
    }
}

/// What a client is told if it gets no connection.
pub open spec fn error_message(host: Seq<char>, port: u16, reason: Seq<char>) -> Seq<char> {
    "ERR "@ + host_port(host, port) + " "@ + reason
}

/// What a client is told if it gets no connection.
pub fn error_text(host: &str, port: u16, reason: &str) -> (s: String)
    ensures
        s@ == error_message(host@, port, reason@),
{
    let mut out: Vec<char> = Vec::new();
    push_text(&mut out, "ERR ");
    push_host_port(&mut out, host, port);
    push_text(&mut out, " ");
    push_text(&mut out, reason);
    assert(out@ == error_message(host@, port, reason@));
    text_of(out.as_slice())
}

/// What a client is told if the policy forbids its wish.
pub fn refusal_text(host: &str, port: u16) -> (s: String)
    ensures
        s@ == error_message(host@, port, "not in allowlist"@),
{
    error_text(host, port, "not in allowlist")
}

/// Whether an address may be connected to: it is an outside IPv4 address.
pub open spec fn is_outside(ip: PeerIp) -> bool {
    match ip {
        PeerIp::V4(a) => globally_routable(a),
        PeerIp::V6(_) => false,
    }
}

/// Which of the addresses that a name was resolved to is connected to: the first that
/// is outside.
pub fn first_outside(addrs: &[PeerIp]) -> (at: Option<usize>)
    ensures
        match at {
            Some(i) => i < addrs@.len() && is_outside(addrs@[i as int]) && forall|j: int|
                0 <= j < i ==> !is_outside(#[trigger] addrs@[j]),
            None => forall|j: int| 0 <= j < addrs@.len() ==> !is_outside(#[trigger] addrs@[j]),
        },
{
    let mut i: usize = 0;
    while i < addrs.len()
        invariant
            i <= addrs@.len(),
            forall|j: int| 0 <= j < i ==> !is_outside(#[trigger] addrs@[j]),
        decreases addrs@.len() - i,
    {
        let outside: bool = match addrs[i] {
            PeerIp::V4(a) => is_globally_routable(a),
            PeerIp::V6(_) => false,
        };
        if outside {
            return Some(i);
        }
        i = i + 1;
    }
    None
}

/// What is done with a message from a client once it is connected.
#[derive(Debug)]
pub enum ClientAction {
    /// These bytes are passed on.
    Forward(Vec<u8>),
    /// The guest has finished writing: the target is told, and still read from.
    Finish,
    /// Nothing.
    Ignore,
}

/// What is done with a message, by what it holds.
pub ghost enum ActionView {
    Forward(Seq<u8>),
    Finish,
    Ignore,
}

impl View for ClientAction {
    type V = ActionView;

    open spec fn view(&self) -> ActionView {
        match self {
            ClientAction::Forward(bytes) => ActionView::Forward(bytes@),
            ClientAction::Finish => ActionView::Finish,
            ClientAction::Ignore => ActionView::Ignore,
        }
    }
}

/// What is done with a message from a client once it is connected.
pub open spec fn action_for(msg: ClientMessage) -> ActionView {
    match msg {
        ClientMessage::Binary(b) => ActionView::Forward(b@),
        ClientMessage::Text(t) => if t@ == HALF_CLOSE@ {
            ActionView::Finish
        } else {
            ActionView::Forward(encode_utf8(t@))
        },
        ClientMessage::Close => ActionView::Finish,
        ClientMessage::Other => ActionView::Ignore,
    }
}

/// What is done with a message from a client once it is connected: bytes are passed on;
/// a text is too, unless it says that the guest has finished.
pub fn client_action(msg: ClientMessage) -> (action: ClientAction)
    ensures
        action@ == action_for(msg),
{
    match msg {
        ClientMessage::Binary(b) => ClientAction::Forward(b),
        ClientMessage::Text(t) => {
            let chars: Vec<char> = chars_of(t.as_str());
            let fin: Vec<char> = chars_of(HALF_CLOSE);
            if same_chars(chars.as_slice(), fin.as_slice()) {
                ClientAction::Finish
            } else {
                let bytes: &[u8] = t.as_str().as_bytes();
                let copy: Vec<u8> = copy_range(bytes, 0, bytes.len());
                assert(copy@ == bytes@);
                ClientAction::Forward(copy)
            }
        },
        ClientMessage::Close => ClientAction::Finish,
        ClientMessage::Other => ClientAction::Ignore,
    }
}

/// What a connection has carried: how many bytes, both ways together, and when the last byte passed, in milliseconds.
#[derive(Debug, Clone, Copy, PartialEq, Eq, Structural)]
pub struct Traffic {
    pub counted: u64,
    pub last_ms: u64,
}

impl Traffic {
    /// A connection that has carried nothing.
    pub fn new() -> (t: Self)
        ensures
            t == (Traffic { counted: 0, last_ms: 0 }),
    {
        Traffic { counted: 0, last_ms: 0 }
    }

    /// The connection after `n` bytes have passed at `now_ms`.
    pub open spec fn carried(self, n: u64, now_ms: u64) -> Traffic {
        Traffic {
            counted: if self.counted + n <= u64::MAX {
                (self.counted + n) as u64
            } else {
                u64::MAX
            },
            last_ms: now_ms,
        }
    }

    /// Whether the byte limit is exceeded; zero means that there is none.
    pub open spec fn is_over(self, max_bytes: u64) -> bool {
        max_bytes > 0 && self.counted > max_bytes
    }

    /// Whether nothing has passed for so many seconds.
    pub open spec fn idle_at(self, now_ms: u64, idle_secs: u64) -> bool {
        now_ms - self.last_ms >= idle_secs * 1000
    }

    /// Notes that `n` bytes have passed at `now_ms`. Returns whether the connection is to
    /// be closed, because the byte limit is exceeded.
    pub fn transferred(&mut self, n: u64, now_ms: u64, max_bytes: u64) -> (over: bool)
        ensures
            *final(self) == old(self).carried(n, now_ms),
            over == final(self).is_over(max_bytes),
    {
        self.last_ms = now_ms;
        self.counted = self.counted.saturating_add(n);
        max_bytes > 0 && self.counted > max_bytes
    }

    /// Whether nothing has passed for so long that the connection is to be closed.
    pub fn is_idle(&self, now_ms: u64, idle_secs: u64) -> (b: bool)
        requires
            self.last_ms <= now_ms,
        ensures
            b == self.idle_at(now_ms, idle_secs),
    {
        (now_ms - self.last_ms) as u128 >= idle_secs as u128 * 1000
    }
}

/// How far a client has come.
#[derive(Debug, Clone, Copy, PartialEq, Eq, Structural)]
pub enum Stage {
    /// The client has connected.
    Opening,
    /// The client may say where it wants to connect.
    Asking,
    /// What the client said is being read.
    Parsing,
    /// The target is being reached in this way.
    Connecting(Route),
    /// Bytes are passed: from the client as long as the first field says so, and from the
    /// target as long as the second does.
    Relaying(bool, bool),
    /// Nothing more happens.
    Over,
}

/// One client.
#[derive(Debug)]
pub struct Session {
    pub stage: Stage,
    /// Where the client wants to connect, once it has said so.
    pub host: String,
    pub port: u16,
    pub traffic: Traffic,
}

/// One client, by what is known of it.
#[verifier::ext_equal]
pub ghost struct SessionState {
    pub stage: Stage,
    pub host: Seq<char>,
    pub port: u16,
    pub traffic: Traffic,
}

impl View for Session {
    type V = SessionState;

    open spec fn view(&self) -> SessionState {
        SessionState {
            stage: self.stage,
            host: self.host@,
            port: self.port,
            traffic: self.traffic,
        }
    }
}

/// What is done once a client has said where it wants to connect.
#[derive(Debug)]
pub enum Decision {
    /// The client is told this, and that is all.
    Refuse(String),
    /// The target is reached in this way.
    Connect(Route),
}

/// What is done, by what it holds.
pub ghost enum DecisionView {
    Refuse(Seq<char>),
    Connect(Route),
}

impl View for Decision {
    type V = DecisionView;

    open spec fn view(&self) -> DecisionView {
        match self {
            Decision::Refuse(told) => DecisionView::Refuse(told@),
            Decision::Connect(route) => DecisionView::Connect(*route),
        }
    }
}

/// Why a client that is permitted to connect gets no connection if there is no list of
/// proxies to pick from.
pub const NO_POOL: &'static str = "auto upstream requested but WWWVM_PROXY_UPSTREAMS_FILE is unset";

impl SessionState {
    /// Whether nothing has passed for too long, and what becomes of the connection then.
    pub open spec fn watched(self, now_ms: u64, idle_secs: u64) -> (bool, SessionState) {
        if idle_secs > 0 && self.stage is Relaying && self.traffic.idle_at(now_ms, idle_secs) {
            (true, self.at(Stage::Over))
        } else {
            (false, self)
        }
    }

    /// A client that has just connected.
    pub open spec fn fresh() -> SessionState {
        SessionState {
            stage: Stage::Opening,
            host: Seq::empty(),
            port: 0,
            traffic: Traffic { counted: 0, last_ms: 0 },
        }
    }

    /// At another stage.
    pub open spec fn at(self, stage: Stage) -> SessionState {
        SessionState { stage, ..self }
    }

    /// After a stage of the relaying: when neither side passes bytes any more it is over.
    pub open spec fn relaying(self, client: bool, target: bool) -> SessionState {
        if client || target {
            self.at(Stage::Relaying(client, target))
        } else {
            self.at(Stage::Over)
        }
    }

    /// What a wish leads to: what is done, and how far the client has come then.
    pub open spec fn decided(
        self,
        frame: ConnectFrame,
        rules: Seq<Rule>,
        has_pool: bool,
    ) -> (DecisionView, SessionState) {
        let asked = SessionState { host: frame.host@, port: frame.port, ..self };
        let route = route_for(frame, rules, has_pool);
        match route {
            Route::Refused => (
                DecisionView::Refuse(
                    error_message(frame.host@, frame.port, "not in allowlist"@),
                ),
                asked.at(Stage::Over),
            ),
            Route::NoPool => (
                DecisionView::Refuse(error_message(frame.host@, frame.port, NO_POOL@)),
                asked.at(Stage::Over),
            ),
            _ => (DecisionView::Connect(route), asked.at(Stage::Connecting(route))),
        }
    }

    /// After a message from a client that is connected.
    pub open spec fn heard(self, msg: ClientMessage) -> (ActionView, SessionState) {
        match self.stage {
            Stage::Relaying(true, target) => match action_for(msg) {
                ActionView::Finish => (ActionView::Finish, self.relaying(false, target)),
                action => (action, self),
            },
            _ => (ActionView::Ignore, self),
        }
    }

    /// After bytes from the client were passed on, or from the target: a side whose bytes
    /// exceed the limit passes no more.
    pub open spec fn passed(
        self,
        from_client: bool,
        n: u64,
        now_ms: u64,
        max_bytes: u64,
    ) -> SessionState {
        let traffic = self.traffic.carried(n, now_ms);
        let after = SessionState { traffic, ..self };
        match self.stage {
            Stage::Relaying(client, target) => if traffic.is_over(max_bytes) {
                if from_client {
                    after.relaying(false, target)
                } else {
                    after.relaying(client, false)
                }
            } else {
                after
            },
            _ => self,
        }
    }

    /// After one side has ended.
    pub open spec fn side_ended(self, client_ended: bool) -> SessionState {
        match self.stage {
            Stage::Relaying(client, target) => if client_ended {
                self.relaying(false, target)
            } else {
                self.relaying(client, false)
            },
            _ => self,
        }
    }
}

impl Session {
    /// A client that has just connected.
    pub fn new() -> (s: Self)
        ensures
            s@ == SessionState::fresh(),
    {
        let s = Session {
            stage: Stage::Opening,
            host: String::new(),
            port: 0,
            traffic: Traffic::new(),
        };
        assert(s@ == SessionState::fresh());
        s
    }

    /// The client says from which page it comes. If that may not use the relay, nothing
    /// more happens.
    pub fn greet(&mut self, origins: &Option<Vec<String>>, origin: Option<&str>) -> (ok: bool)
        requires
            old(self).stage is Opening,
        ensures
            ok == accepts_origin(list_view(*origins), text_view(origin)),
            final(self)@ == (if ok {
                old(self)@.at(Stage::Asking)
            } else {
                old(self)@.at(Stage::Over)
            }),
    {
        let ok: bool = origin_allowed(origins, origin);
        self.stage = if ok {
            Stage::Asking
        } else {
            Stage::Over
        };
        ok
    }

    /// The client's first message: its text, if it is one.
    pub fn first_message(&mut self, msg: ClientMessage) -> (r: Result<String, FrameError>)
        requires
            old(self).stage is Asking,
        ensures
            match msg {
                ClientMessage::Text(s) => r matches Ok(t) && t@ == s@,
                ClientMessage::Binary(b) => if valid_utf8(b@) {
                    r matches Ok(t) && t@ == decode_utf8(b@)
                } else {
                    r == Err::<String, FrameError>(FrameError::NotText)
                },
                _ => r == Err::<String, FrameError>(FrameError::Unexpected),
            },
            final(self)@ == (if r is Ok {
                old(self)@.at(Stage::Parsing)
            } else {
                old(self)@.at(Stage::Over)
            }),
    {
        let r: Result<String, FrameError> = connect_text(msg);
        self.stage = if r.is_ok() {
            Stage::Parsing
        } else {
            Stage::Over
        };
        r
    }

    /// Where the client wants to connect. The policy is asked before anything is reached.
    pub fn decide(
        &mut self,
        frame: &ConnectFrame,
        allow: &Allowlist,
        has_pool: bool,
    ) -> (decision: Decision)
        requires
            old(self).stage is Parsing,
        ensures
            (decision@, final(self)@) == old(self)@.decided(*frame, allow@, has_pool),
    {
        self.host = frame.host.clone();
        self.port = frame.port;
        let route: Route = choose_route(frame, allow, has_pool);
        match route {
            Route::Refused => {
                self.stage = Stage::Over;
                Decision::Refuse(refusal_text(frame.host.as_str(), frame.port))
            },
            Route::NoPool => {
                self.stage = Stage::Over;
                Decision::Refuse(error_text(frame.host.as_str(), frame.port, NO_POOL))
            },
            _ => {
                self.stage = Stage::Connecting(route);
                Decision::Connect(route)
            },
        }
    }

    /// The target was reached.
    pub fn connected(&mut self)
        requires
            old(self).stage is Connecting,
        ensures
            final(self)@ == old(self)@.at(Stage::Relaying(true, true)),
    {
        self.stage = Stage::Relaying(true, true);
    }

    /// The target was not reached: what the client is told.
    pub fn not_connected(&mut self, reason: &str) -> (told: String)
        requires
            old(self).stage is Connecting,
        ensures
            told@ == error_message(old(self).host@, old(self).port, reason@),
            final(self)@ == old(self)@.at(Stage::Over),
    {
        self.stage = Stage::Over;
        error_text(self.host.as_str(), self.port, reason)
    }

    fn set_relaying(&mut self, client: bool, target: bool)
        ensures
            final(self)@ == old(self)@.relaying(client, target),
    {
        self.stage = if client || target {
            Stage::Relaying(client, target)
        } else {
            Stage::Over
        };
    }

    /// A message from the client once it is connected.
    pub fn heard(&mut self, msg: ClientMessage) -> (action: ClientAction)
        ensures
            (action@, final(self)@) == old(self)@.heard(msg),
    {
        match self.stage {
            Stage::Relaying(true, target) => {
                let action: ClientAction = client_action(msg);
                if let ClientAction::Finish = action {
                    self.set_relaying(false, target);
                }
                action
            },
            _ => ClientAction::Ignore,
        }
    }

    /// Bytes from the client have been passed on to the target, or from the target to the
    /// client. Returns whether that side passes no more, because the byte limit is
    /// exceeded.
    pub fn passed(
        &mut self,
        from_client: bool,
        n: u64,
        now_ms: u64,
        max_bytes: u64,
    ) -> (over: bool)
        ensures
            final(self)@ == old(self)@.passed(from_client, n, now_ms, max_bytes),
            over == (old(self).stage is Relaying && old(self).traffic.carried(
                n,
                now_ms,
            ).is_over(max_bytes)),
    {
        match self.stage {
            Stage::Relaying(client, target) => {
                let over: bool = self.traffic.transferred(n, now_ms, max_bytes);
                if over {
                    if from_client {
                        self.set_relaying(false, target);
                    } else {
                        self.set_relaying(client, false);
                    }
                }
                over
            },
            _ => false,
        }
    }

    /// The client has closed, or the target has.
    pub fn side_ended(&mut self, client_ended: bool)
        ensures
            final(self)@ == old(self)@.side_ended(client_ended),
    {
        if let Stage::Relaying(client, target) = self.stage {
            if client_ended {
                self.set_relaying(false, target);
            } else {
                self.set_relaying(client, false);
            }
        }
    }

    /// Looks at the clock: if nothing has passed for too long it is over. Without a limit
    /// it never is.
    pub fn watched(&mut self, now_ms: u64, idle_secs: u64) -> (idle: bool)
        requires
            old(self).traffic.last_ms <= now_ms,
        ensures
            idle == (idle_secs > 0 && old(self).stage is Relaying && old(self).traffic.idle_at(
                now_ms,
                idle_secs,
            )),
            final(self)@ == (if idle {
                old(self)@.at(Stage::Over)
            } else {
                old(self)@
            }),
            (idle, final(self)@) == old(self)@.watched(now_ms, idle_secs),
    {
        let relaying: bool = match self.stage {
            Stage::Relaying(_, _) => true,
            _ => false,
        };
        if idle_secs > 0 && relaying && self.traffic.is_idle(now_ms, idle_secs) {
            self.stage = Stage::Over;
            true
        } else {
            false
        }
    }
}

/// How often a connection is looked at, as a number of milliseconds.
pub open spec fn watch_interval(idle_secs: u64) -> int {
    if idle_secs * 500 > 1000 {
        idle_secs * 500
    } else {
        1000
    }
}

/// How often a connection is looked at, in milliseconds: twice in the time after which
/// it is idle, but not more than once a second.
pub fn watch_interval_ms(idle_secs: u64) -> (ms: u128)
    ensures
        ms == (if idle_secs * 500 > 1000 {
            idle_secs * 500
        } else {
            1000
        }),
        ms == watch_interval(idle_secs),
{
    let half: u128 = idle_secs as u128 * 500;
    if half > 1000 {
        half
    } else {
        1000
    }
}

/// Whether the relay speaks TLS.
#[derive(Debug, Clone, Copy, PartialEq, Eq, Structural)]
pub enum TlsChoice {
    Serve,
    Plain,
    /// Only one of certificate and key is set.
    Incomplete,
}

/// Whether a setting is set: it is there and not blank.
pub open spec fn is_set(setting: Option<Seq<char>>) -> bool {
    setting matches Some(s) && trim(s).len() > 0
}

fn setting_is_set(setting: Option<&str>) -> (b: bool)
    ensures
        b == is_set(text_view(setting)),
{
    match setting {
        Some(s) => trimmed(chars_of(s).as_slice()).len() > 0,
        None => false,
    }
}

/// Whether the relay speaks TLS if these are its certificate and key.
pub open spec fn tls_choice(cert: Option<Seq<char>>, key: Option<Seq<char>>) -> TlsChoice {
    if is_set(cert) && is_set(key) {
        TlsChoice::Serve
    } else if !is_set(cert) && !is_set(key) {
        TlsChoice::Plain
    } else {
        TlsChoice::Incomplete
    }
}

/// Whether the relay speaks TLS: if a certificate and a key are set.
pub fn choose_tls(cert: Option<&str>, key: Option<&str>) -> (choice: TlsChoice)
    ensures
        choice == (if is_set(text_view(cert)) && is_set(text_view(key)) {
            TlsChoice::Serve
        } else if !is_set(text_view(cert)) && !is_set(text_view(key)) {
            TlsChoice::Plain
        } else {
            TlsChoice::Incomplete
        }),
        choice == tls_choice(text_view(cert), text_view(key)),
{
    let has_cert: bool = setting_is_set(cert);
    let has_key: bool = setting_is_set(key);
    if has_cert && has_key {
        TlsChoice::Serve
    } else if !has_cert && !has_key {
        TlsChoice::Plain
    } else {
        TlsChoice::Incomplete
    }
}

/// Bytes that pass in either direction keep a connection from being idle: it is not until
/// the whole time has gone by without any.
pub proof fn law_traffic_resets_idle_time(
    t: Traffic,
    n: u64,
    now_ms: u64,
    later_ms: u64,
    idle_secs: u64,
)
    requires
        now_ms <= later_ms,
    ensures
        t.carried(n, now_ms).idle_at(later_ms, idle_secs) <==> later_ms - now_ms
            >= idle_secs * 1000,
{
}

/// The byte limit counts every byte, both directions together, and is never forgotten: once it is
/// exceeded it stays so.
pub proof fn law_byte_limit_is_lasting(t: Traffic, n: u64, now_ms: u64, max_bytes: u64)
    ensures
        t.is_over(max_bytes) ==> t.carried(n, now_ms).is_over(max_bytes),
        max_bytes == 0 ==> !t.is_over(max_bytes),
        max_bytes > 0 && t.counted + n > max_bytes && max_bytes < u64::MAX ==> t.carried(
            n,
            now_ms,
        ).is_over(max_bytes),
{
}

/// Whether a client that is being connected, or is connected, may be.
pub open spec fn cleared(s: SessionState, rules: Seq<Rule>) -> bool {
    s.stage is Connecting || s.stage is Relaying ==> permitted(rules, s.host, s.port)
}

/// Nothing is reached without the policy's permission: where the client wants to connect
/// is decided once, by the policy, and never changes after that.
pub proof fn law_nothing_is_reached_without_permission(
    s: SessionState,
    rules: Seq<Rule>,
    frame: ConnectFrame,
    has_pool: bool,
    msg: ClientMessage,
    from_client: bool,
    n: u64,
    now_ms: u64,
    max_bytes: u64,
)
    requires
        cleared(s, rules),
    ensures
        cleared(SessionState::fresh(), rules),
        cleared(s.decided(frame, rules, has_pool).1, rules),
        s.stage is Connecting ==> cleared(s.at(Stage::Relaying(true, true)), rules),
        cleared(s.heard(msg).1, rules),
        cleared(s.passed(from_client, n, now_ms, max_bytes), rules),
        cleared(s.side_ended(from_client), rules),
        cleared(s.at(Stage::Over), rules),
        !permitted(rules, frame.host@, frame.port) ==> s.decided(frame, rules, has_pool).1.stage
            is Over && s.decided(frame, rules, has_pool).0 == DecisionView::Refuse(
            error_message(frame.host@, frame.port, "not in allowlist"@),
        ),
{
}

/// A client that has finished writing still gets what the target sends: only the target's
/// end, the byte limit or a long silence ends that.
pub proof fn law_finished_client_is_still_served(s: SessionState, msg: ClientMessage)
    requires
        s.stage == Stage::Relaying(true, true),
        action_for(msg) is Finish,
    ensures
        s.heard(msg).1.stage == Stage::Relaying(false, true),
        s.heard(msg).1.heard(msg) == (ActionView::Ignore, s.heard(msg).1),
        s.heard(msg).1.side_ended(false).stage is Over,
{
}

/// A relay that anyone can reach and that lets anyone reach anything is refused unless that
/// is meant; every other relay may run.
pub proof fn law_open_relays(anything: bool, loopback: bool, meant: bool)
    ensures
        is_open_relay(true, false, false),
        !is_open_relay(false, loopback, meant),
        !is_open_relay(anything, true, meant),
        !is_open_relay(anything, loopback, true),
{
}

/// Which way a client gets: none if the policy forbids it, whatever else it asks for; else
/// the proxy that it names; else one of the relay's, if it wants one and there are any; and
/// else straight there.
pub proof fn law_routes(frame: ConnectFrame, rules: Seq<Rule>, pool: bool)
    ensures
        !permitted(rules, frame.host@, frame.port) ==> route_for(frame, rules, pool)
            == Route::Refused,
        permitted(rules, frame.host@, frame.port) ==> {
            &&& frame.upstream is Some ==> route_for(frame, rules, pool) == Route::Upstream
            &&& frame.upstream is None && frame.auto ==> route_for(frame, rules, true)
                == Route::Auto && route_for(frame, rules, false) == Route::NoPool
            &&& frame.upstream is None && !frame.auto ==> route_for(frame, rules, pool)
                == Route::Direct
        },
{
}

/// A connection that is let through is connected in the way that was chosen, to where the
/// client asked; one that is not is over, and the client is told why.
pub proof fn law_decisions(s: SessionState, frame: ConnectFrame, rules: Seq<Rule>, pool: bool)
    ensures
        ({
            let (told, after) = s.decided(frame, rules, pool);
            let route = route_for(frame, rules, pool);
            &&& after.host == frame.host@
            &&& after.port == frame.port
            &&& after.traffic == s.traffic
            &&& route == Route::Refused ==> told == DecisionView::Refuse(
                error_message(frame.host@, frame.port, "not in allowlist"@),
            )
            &&& route == Route::NoPool ==> told == DecisionView::Refuse(
                error_message(
                    frame.host@,
                    frame.port,
                    "auto upstream requested but WWWVM_PROXY_UPSTREAMS_FILE is unset"@,
                ),
            )
            &&& route == Route::Refused || route == Route::NoPool <==> after.stage == Stage::Over
            &&& route == Route::Upstream || route == Route::Auto || route == Route::Direct ==> told
                == DecisionView::Connect(route) && after.stage == Stage::Connecting(route)
        }),
{
}

/// What a client is told that cannot be connected: `ERR`, where it wanted to go, and why.
pub proof fn law_error_texts(host: Seq<char>, port: u16, reason: Seq<char>)
    ensures
        error_message(host, port, reason) == seq!['E', 'R', 'R', ' '] + host + seq![':']
            + to_decimal(port as nat) + seq![' '] + reason,
{
    reveal_strlit("ERR ");
    reveal_strlit(":");
    reveal_strlit(" ");
    assert("ERR "@ =~= seq!['E', 'R', 'R', ' ']);
    assert(":"@ =~= seq![':']);
    assert(" "@ =~= seq![' ']);
    assert(error_message(host, port, reason) =~= seq!['E', 'R', 'R', ' '] + host + seq![':']
        + to_decimal(port as nat) + seq![' '] + reason);
}

/// What the messages of a connected client mean: bytes and texts are passed on as they are,
/// but for the text `FIN`, which, like closing, ends what the client sends.
pub proof fn law_client_messages(msg: ClientMessage)
    ensures
        msg matches ClientMessage::Binary(b) ==> action_for(msg) == ActionView::Forward(b@),
        msg matches ClientMessage::Text(t) ==> (t@ == seq!['F', 'I', 'N'] ==> action_for(msg)
            == ActionView::Finish) && (t@ != seq!['F', 'I', 'N'] ==> action_for(msg)
            == ActionView::Forward(encode_utf8(t@))),
        msg is Close ==> action_for(msg) == ActionView::Finish,
        msg is Other ==> action_for(msg) == ActionView::Ignore,
{
    reveal_strlit("FIN");
    assert(HALF_CLOSE@ =~= seq!['F', 'I', 'N']);
}

/// Which pages may use the relay: all if no origins are set; otherwise exactly those whose
/// origin is one of the pieces between commas, without the white space around it. A client
/// that names no origin is one whose origin is empty.
pub proof fn law_accepted_origins(s: Seq<char>, origin: Seq<char>, any: Option<Seq<char>>)
    ensures
        accepts_origin(origins_of(None), any),
        trim(s).len() == 0 ==> accepts_origin(origins_of(Some(s)), any),
        trim(s).len() > 0 ==> (accepts_origin(origins_of(Some(s)), Some(origin)) <==> exists|k: int|
            0 <= k < split(s, ',').len() && trim(#[trigger] split(s, ',')[k]) == origin),
        accepts_origin(origins_of(Some(s)), None) <==> accepts_origin(
            origins_of(Some(s)),
            Some(Seq::empty()),
        ),
{
    let pieces = split(s, ',');
    let list = pieces.map_values(|piece: Seq<char>| trim(piece));
    if exists|k: int| 0 <= k < pieces.len() && trim(#[trigger] pieces[k]) == origin {
        let k = choose|k: int| 0 <= k < pieces.len() && trim(#[trigger] pieces[k]) == origin;
        assert(list[k] == origin);
    }
    if list.contains(origin) {
        let k = choose|k: int| 0 <= k < list.len() && list[k] == origin;
        assert(trim(pieces[k]) == origin);
    }
}

/// Bytes are counted both ways together, and a connection has carried too much exactly if
/// there is a limit and the count is above it.
pub proof fn law_traffic_is_counted(t: Traffic, n: u64, m: u64, at: u64, max: u64)
    requires
        t.counted + n + m <= u64::MAX,
    ensures
        t.carried(n, at).counted == t.counted + n,
        t.carried(n, at).last_ms == at,
        t.carried(n, at).carried(m, at) == t.carried((n + m) as u64, at),
        max > 0 ==> (t.carried(n, at).is_over(max) <==> t.counted + n >= max + 1),
        !t.is_over(0),
{
}

/// What happens when too much has passed: the direction in which it passed is shut, and the
/// other one goes on if it was open. As long as it is not too much nothing is shut.
pub proof fn law_byte_limit_shuts_one_direction(
    s: SessionState,
    client: bool,
    target: bool,
    n: u64,
    at: u64,
    max: u64,
)
    requires
        s.stage == Stage::Relaying(client, target),
        client || target,
    ensures
        !s.traffic.carried(n, at).is_over(max) ==> s.passed(true, n, at, max).stage == s.stage
            && s.passed(false, n, at, max).stage == s.stage,
        s.traffic.carried(n, at).is_over(max) ==> {
            &&& target ==> s.passed(true, n, at, max).stage == Stage::Relaying(false, true)
            &&& !target ==> s.passed(true, n, at, max).stage == Stage::Over
            &&& client ==> s.passed(false, n, at, max).stage == Stage::Relaying(true, false)
            &&& !client ==> s.passed(false, n, at, max).stage == Stage::Over
        },
        s.passed(true, n, at, max).traffic == s.traffic.carried(n, at),
        s.passed(false, n, at, max).traffic == s.traffic.carried(n, at),
        s.passed(true, n, at, max).host == s.host && s.passed(false, n, at, max).host == s.host,
{
}

/// When one side has ended only the other is served, and when both have the connection is
/// over.
pub proof fn law_sides_end_apart(s: SessionState, client: bool, target: bool)
    requires
        s.stage == Stage::Relaying(client, target),
    ensures
        target ==> s.side_ended(true).stage == Stage::Relaying(false, true),
        client ==> s.side_ended(false).stage == Stage::Relaying(true, false),
        s.side_ended(true).side_ended(false).stage == Stage::Over,
        s.side_ended(false).side_ended(true).stage == Stage::Over,
        s.side_ended(true).traffic == s.traffic && s.side_ended(true).host == s.host,
{
}

/// A connection that passes bytes is closed once nothing has passed for the set number of
/// seconds, and not before; where no number is set it never is.
pub proof fn law_idle_connections(s: SessionState, now_ms: u64, secs: u64)
    requires
        s.traffic.last_ms <= now_ms,
    ensures
        s.watched(now_ms, 0) == (false, s),
        !(s.stage is Relaying) ==> s.watched(now_ms, secs) == (false, s),
        secs > 0 && s.stage is Relaying ==> {
            &&& now_ms >= s.traffic.last_ms + 1000 * secs ==> s.watched(now_ms, secs).0 && s.watched(
                now_ms,
                secs,
            ).1 == (SessionState { stage: Stage::Over, ..s })
            &&& now_ms < s.traffic.last_ms + 1000 * secs ==> s.watched(now_ms, secs) == (false, s)
        },
        1000 <= watch_interval(secs),
        secs >= 2 ==> 2 * watch_interval(secs) == 1000 * secs,
        secs <= 2 ==> watch_interval(secs) == 1000,
{
}

/// Only IPv4 addresses can be outside, and exactly those that are routed globally.
pub proof fn law_outside_addresses(a: crate::ipv4::Ipv4Addr, n: u128)
    ensures
        is_outside(PeerIp::V4(a)) <==> globally_routable(a),
        !is_outside(PeerIp::V6(n)),
{
}

/// TLS needs both a certificate and a key. One that is blank is not set.
pub proof fn law_tls_needs_both(cert: Seq<char>, key: Seq<char>, any: Option<Seq<char>>)
    ensures
        trim(cert).len() > 0 && trim(key).len() > 0 ==> tls_choice(Some(cert), Some(key))
            == TlsChoice::Serve,
        tls_choice(None, None) == TlsChoice::Plain,
        trim(cert).len() > 0 ==> tls_choice(Some(cert), None) == TlsChoice::Incomplete,
        trim(key).len() > 0 ==> tls_choice(None, Some(key)) == TlsChoice::Incomplete,
        trim(cert).len() == 0 ==> tls_choice(Some(cert), any) == tls_choice(None, any) && tls_choice(
            any,
            Some(cert),
        ) == tls_choice(any, None),
{
}

} // verus!
