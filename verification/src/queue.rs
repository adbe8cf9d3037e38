//! Connections to the outside as queues of bytes, for an embedder that carries them
//! itself, such as a web page that opens a WebSocket for each.
//!
//! The gateway opens a connection and then writes to it and reads from it. The
//! embedder learns of the new connection, ships what the gateway wrote, feeds back
//! what came in return, and frees the connection when its own side has closed. A
//! full queue refuses more, so that neither side outruns the other.

use crate::bytes::{byte_views, copy_range, flat, put_bytes};
use crate::ipv4::Ipv4Addr;
use crate::nat_stack::{HostReply, HostTook};
use std::collections::{HashMap, VecDeque};
use vstd::prelude::*;

verus! {

broadcast use vstd::std_specs::hash::group_hash_axioms;

/// How many chunks wait for the embedder on one connection.
pub const OUT_DEPTH: usize = 16;

/// How many chunks wait for the gateway on one connection.
pub const IN_DEPTH: usize = 64;

/// One connection.
pub struct QueueConn {
    pub dst_ip: Ipv4Addr,
    pub dst_port: u16,
    /// From the guest, for the embedder.
    pub outbound: VecDeque<Vec<u8>>,
    /// From the embedder, for the guest.
    pub inbound: VecDeque<Vec<u8>>,
    /// The gateway has given the connection up.
    pub reaped: bool,
}

/// The connections.
pub struct QueueConnector {
    /// The number of the next connection.
    pub next_id: u64,
    /// Connections that the embedder does not know of yet.
    pub fresh: Vec<u64>,
    /// Connections that the embedder has not freed.
    pub conns: HashMap<u64, QueueConn>,
    /// What the gateway can still read of freed connections.
    pub rest: HashMap<u64, VecDeque<Vec<u8>>>,
}

/// A connection, by what it holds.
#[verifier::ext_equal]
pub ghost struct ConnState {
    pub dst_ip: Ipv4Addr,
    pub dst_port: u16,
    pub outbound: Seq<Seq<u8>>,
    pub inbound: Seq<Seq<u8>>,
    pub reaped: bool,
}

/// All connections, by what they hold.
#[verifier::ext_equal]
pub ghost struct QueueState {
    pub next_id: u64,
    pub fresh: Seq<u64>,
    pub conns: Map<u64, ConnState>,
    pub rest: Map<u64, Seq<Seq<u8>>>,
}

impl View for QueueConn {
    type V = ConnState;

    open spec fn view(&self) -> ConnState {
        ConnState {
            dst_ip: self.dst_ip,
            dst_port: self.dst_port,
            outbound: byte_views(self.outbound@),
            inbound: byte_views(self.inbound@),
            reaped: self.reaped,
        }
    }
}

impl View for QueueConnector {
    type V = QueueState;

    open spec fn view(&self) -> QueueState {
        QueueState {
            next_id: self.next_id,
            fresh: self.fresh@,
            conns: self.conns@.map_values(|c: QueueConn| c@),
            rest: self.rest@.map_values(|q: VecDeque<Vec<u8>>| byte_views(q@)),
        }
    }
}

/// The connections in `ids` that have not been freed, in order, each with where it goes.
pub open spec fn announced(ids: Seq<u64>, conns: Map<u64, ConnState>) -> Seq<(u64, Ipv4Addr, u16)>
    decreases ids.len(),
{
    if ids.len() == 0 {
        Seq::empty()
    } else {
        let before = announced(ids.drop_last(), conns);
        let id = ids.last();
        if conns.contains_key(id) {
            before.push((id, conns[id].dst_ip, conns[id].dst_port))
        } else {
            before
        }
    }
}

impl QueueState {
    /// Every connection has a number that was given out, and no queue is overfull.
    pub open spec fn wf(self) -> bool {
        &&& forall|id: u64| #[trigger]
            self.conns.contains_key(id) ==> id < self.next_id && self.conns[id].outbound.len()
                <= OUT_DEPTH && self.conns[id].inbound.len() <= IN_DEPTH
        &&& forall|id: u64| #[trigger]
            self.rest.contains_key(id) ==> id < self.next_id && !self.conns.contains_key(id)
        &&& forall|i: int| 0 <= i < self.fresh.len() ==> #[trigger] self.fresh[i] < self.next_id
    }

    /// After a connection was opened.
    pub open spec fn opened(self, ip: Ipv4Addr, port: u16) -> QueueState {
        QueueState {
            next_id: (self.next_id + 1) as u64,
            fresh: self.fresh.push(self.next_id),
            conns: self.conns.insert(
                self.next_id,
                ConnState {
                    dst_ip: ip,
                    dst_port: port,
                    outbound: Seq::empty(),
                    inbound: Seq::empty(),
                    reaped: false,
                },
            ),
            ..self
        }
    }

    /// Whether the embedder is to close its side: the gateway has given the connection
    /// up, or there is none.
    pub open spec fn is_closed(self, id: u64) -> bool {
        !self.conns.contains_key(id) || self.conns[id].reaped
    }

    /// Whether there is room for a chunk from the embedder.
    pub open spec fn takes_inbound(self, id: u64) -> bool {
        self.conns.contains_key(id) && !self.conns[id].reaped && self.conns[id].inbound.len()
            < IN_DEPTH
    }

    /// With `conn` as the connection `id`.
    pub open spec fn with_conn(self, id: u64, conn: ConnState) -> QueueState {
        QueueState { conns: self.conns.insert(id, conn), ..self }
    }

    /// After the embedder took what the gateway wrote.
    pub open spec fn drained(self, id: u64) -> QueueState {
        if self.conns.contains_key(id) {
            self.with_conn(id, ConnState { outbound: Seq::empty(), ..self.conns[id] })
        } else {
            self
        }
    }

    /// After the embedder fed bytes.
    pub open spec fn fed(self, id: u64, bytes: Seq<u8>) -> QueueState {
        if self.takes_inbound(id) {
            let conn = self.conns[id];
            self.with_conn(id, ConnState { inbound: conn.inbound.push(bytes), ..conn })
        } else {
            self
        }
    }

    /// After the embedder freed a connection. The gateway can read what is left of it.
    pub open spec fn freed(self, id: u64) -> QueueState {
        if self.conns.contains_key(id) {
            QueueState {
                conns: self.conns.remove(id),
                rest: if self.conns[id].reaped {
                    self.rest
                } else {
                    self.rest.insert(id, self.conns[id].inbound)
                },
                ..self
            }
        } else {
            self
        }
    }

    /// What becomes of a chunk that the gateway offers.
    pub open spec fn verdict_on_offer(self, id: u64) -> HostTook {
        if self.is_closed(id) {
            HostTook::Gone
        } else if self.conns[id].outbound.len() < OUT_DEPTH {
            HostTook::Taken
        } else {
            HostTook::Full
        }
    }

    /// After the gateway offered a chunk.
    pub open spec fn offered(self, id: u64, chunk: Seq<u8>) -> QueueState {
        if self.verdict_on_offer(id) is Taken {
            let conn = self.conns[id];
            self.with_conn(id, ConnState { outbound: conn.outbound.push(chunk), ..conn })
        } else {
            self
        }
    }

    /// What waits for the gateway, unless the connection is closed for it.
    pub open spec fn readable(self, id: u64) -> Option<Seq<Seq<u8>>> {
        if self.conns.contains_key(id) && !self.conns[id].reaped {
            Some(self.conns[id].inbound)
        } else if self.rest.contains_key(id) && self.rest[id].len() > 0 {
            Some(self.rest[id])
        } else {
            None
        }
    }

    /// After the gateway asked for a chunk.
    pub open spec fn polled(self, id: u64) -> QueueState {
        match self.readable(id) {
            Some(q) => if q.len() == 0 {
                self
            } else if self.conns.contains_key(id) {
                self.with_conn(id, ConnState { inbound: q.drop_first(), ..self.conns[id] })
            } else {
                QueueState { rest: self.rest.insert(id, q.drop_first()), ..self }
            },
            None => self,
        }
    }

    /// After the gateway gave a connection up.
    pub open spec fn reaped(self, id: u64) -> QueueState {
        if self.conns.contains_key(id) {
            self.with_conn(
                id,
                ConnState { inbound: Seq::empty(), reaped: true, ..self.conns[id] },
            )
        } else {
            QueueState { rest: self.rest.remove(id), ..self }
        }
    }
}

impl QueueConnector {
    /// No connections.
    pub fn new() -> (q: Self)
        ensures
            q@ == (QueueState {
                next_id: 0,
                fresh: Seq::empty(),
                conns: Map::empty(),
                rest: Map::empty(),
            }),
            q@.wf(),
    {
        let q = QueueConnector {
            next_id: 0,
            fresh: Vec::new(),
            conns: HashMap::new(),
            rest: HashMap::new(),
        };
        assert(q@.conns =~= Map::empty());
        assert(q@.rest =~= Map::empty());
        q
    }

    fn put(&mut self, id: u64, conn: QueueConn)
        ensures
            final(self)@ == old(self)@.with_conn(id, conn@),
    {
        self.conns.insert(id, conn);
        assert(self@.conns =~= old(self)@.conns.insert(id, conn@));
    }

    fn take_out(&mut self, id: u64) -> (conn: Option<QueueConn>)
        ensures
            match conn {
                Some(c) => old(self)@.conns.contains_key(id) && c@ == old(self)@.conns[id]
                    && final(self)@ == (QueueState {
                    conns: old(self)@.conns.remove(id),
                    ..old(self)@
                }),
                None => !old(self)@.conns.contains_key(id) && final(self)@ == old(self)@,
            },
    {
        let conn = self.conns.remove(&id);
        assert(conn is Some ==> self@.conns =~= old(self)@.conns.remove(id));
        assert(conn is None ==> self@.conns =~= old(self)@.conns);
        conn
    }

    /// Opens a connection for the gateway, and gives it a number. Numbers are never
    /// used twice.
    pub fn open(&mut self, ip: Ipv4Addr, port: u16) -> (id: u64)
        requires
            old(self)@.wf(),
            old(self).next_id < u64::MAX,
        ensures
            final(self)@.wf(),
            id == old(self).next_id,
            final(self)@ == old(self)@.opened(ip, port),
    {
        let id: u64 = self.next_id;
        self.next_id = id + 1;
        self.fresh.push(id);
        let conn = QueueConn {
            dst_ip: ip,
            dst_port: port,
            outbound: VecDeque::new(),
            inbound: VecDeque::new(),
            reaped: false,
        };
        assert(conn@.outbound =~= Seq::empty());
        assert(conn@.inbound =~= Seq::empty());
        self.put(id, conn);
        assert(self@ =~= old(self)@.opened(ip, port));
        id
    }

    /// The connections opened since the last call that were not freed meanwhile: their
    /// numbers and where they go.
    pub fn take_new(&mut self) -> (list: Vec<(u64, Ipv4Addr, u16)>)
        ensures
            list@ == announced(old(self)@.fresh, old(self)@.conns),
            final(self)@ == (QueueState { fresh: Seq::empty(), ..old(self)@ }),
    {
        let mut list: Vec<(u64, Ipv4Addr, u16)> = Vec::new();
        let mut i: usize = 0;
        assert(self.fresh@.take(0).len() == 0);
        while i < self.fresh.len()
            invariant
                i <= self.fresh@.len(),
                *self == *old(self),
                list@ == announced(self.fresh@.take(i as int), self@.conns),
            decreases self.fresh@.len() - i,
        {
            proof {
                assert(self.fresh@.take(i + 1).drop_last() == self.fresh@.take(i as int));
                assert(self.fresh@.take(i + 1).last() == self.fresh@[i as int]);
            }
            let id: u64 = self.fresh[i];
            if let Some(conn) = self.conns.get(&id) {
                list.push((id, conn.dst_ip, conn.dst_port));
            }
            i = i + 1;
        }
        assert(self.fresh@.take(self.fresh@.len() as int) == self.fresh@);
        self.fresh = Vec::new();
        list
    }

    /// What the gateway wrote to a connection since the last call, and whether the
    /// embedder is to close its side and free the connection. That the guest has
    /// finished writing is no reason to: it may still be reading.
    pub fn drain_outbound(&mut self, id: u64) -> (r: (Vec<u8>, bool))
        requires
            old(self)@.wf(),
        ensures
            final(self)@.wf(),
            final(self)@ == old(self)@.drained(id),
            r.0@ == (if old(self)@.conns.contains_key(id) {
                flat(old(self)@.conns[id].outbound)
            } else {
                Seq::empty()
            }),
            r.1 == old(self)@.is_closed(id),
    {
        match self.take_out(id) {
            None => (Vec::new(), true),
            Some(mut conn) => {
                let mut out: Vec<u8> = Vec::new();
                let ghost whole = conn@;
                let ghost all = conn@.outbound;
                let mut done: usize = 0;
                let closed: bool = conn.reaped;
                assert(all.take(0).len() == 0);
                assert(all.skip(0) =~= all);
                while conn.outbound.len() > 0
                    invariant
                        done <= all.len(),
                        out@ == flat(all.take(done as int)),
                        all.len() <= OUT_DEPTH,
                        conn@ == (ConnState { outbound: all.skip(done as int), ..whole }),
                    decreases conn.outbound@.len(),
                {
                    let ghost before = conn.outbound@;
                    assert(conn@.outbound.len() == all.len() - done);
                    if let Some(chunk) = conn.outbound.pop_front() {
                        put_bytes(&mut out, chunk.as_slice());
                        proof {
                            assert(byte_views(before)[0] == chunk@);
                            assert(all.skip(done as int)[0] == all[done as int]);
                            assert(all.take(done + 1).drop_last() == all.take(done as int));
                            assert(byte_views(conn.outbound@) =~= byte_views(before).drop_first());
                            assert(all.skip(done + 1) =~= all.skip(done as int).drop_first());
                        }
                        done = done + 1;
                    }
                }
                proof {
                    assert(conn@.outbound.len() == 0);
                    assert(done == all.len());
                    assert(all.take(done as int) == all);
                    assert(conn@.outbound =~= Seq::empty());
                }
                self.put(id, conn);
                assert(self@ =~= old(self)@.drained(id));
                (out, closed)
            },
        }
    }

    /// Feeds what came back from outside. `false` if there is no room at the moment or
    /// nobody to read it.
    pub fn push_inbound(&mut self, id: u64, bytes: &[u8]) -> (ok: bool)
        requires
            old(self)@.wf(),
        ensures
            final(self)@.wf(),
            ok == old(self)@.takes_inbound(id),
            final(self)@ == old(self)@.fed(id, bytes@),
    {
        match self.take_out(id) {
            None => false,
            Some(mut conn) => {
                let ok: bool = !conn.reaped && conn.inbound.len() < IN_DEPTH;
                if ok {
                    let ghost before = conn.inbound@;
                    let copy: Vec<u8> = copy_range(bytes, 0, bytes.len());
                    conn.inbound.push_back(copy);
                    assert(copy@ == bytes@);
                    assert(byte_views(conn.inbound@) =~= byte_views(before).push(bytes@));
                }
                self.put(id, conn);
                assert(self@ =~= old(self)@.fed(id, bytes@));
                ok
            },
        }
    }

    /// The embedder's side of a connection has closed: the connection is freed, and the
    /// gateway finds it closed once it has read what is left. Freeing twice changes
    /// nothing.
    pub fn host_closed(&mut self, id: u64)
        requires
            old(self)@.wf(),
        ensures
            final(self)@.wf(),
            final(self)@ == old(self)@.freed(id),
    {
        match self.take_out(id) {
            None => {},
            Some(conn) => {
                let ghost state = conn@;
                let ghost mid = self@;
                if !conn.reaped {
                    self.rest.insert(id, conn.inbound);
                    assert(self@.rest =~= mid.rest.insert(id, state.inbound));
                    assert(self@.conns == mid.conns);
                }
                assert(self@ =~= old(self)@.freed(id));
            },
        }
    }

    /// How many connections the embedder has not freed.
    pub fn conn_count(&self) -> (n: usize)
        ensures
            n == self@.conns.len(),
    {
        assert(self@.conns.dom() =~= self.conns@.dom());
        self.conns.len()
    }

    /// The gateway offers bytes to a connection.
    pub fn offer(&mut self, id: u64, chunk: Vec<u8>) -> (took: HostTook)
        requires
            old(self)@.wf(),
        ensures
            final(self)@.wf(),
            took == old(self)@.verdict_on_offer(id),
            final(self)@ == old(self)@.offered(id, chunk@),
    {
        match self.take_out(id) {
            None => HostTook::Gone,
            Some(mut conn) => {
                let ghost bytes = chunk@;
                let took: HostTook = if conn.reaped {
                    HostTook::Gone
                } else if conn.outbound.len() < OUT_DEPTH {
                    let ghost before = conn.outbound@;
                    conn.outbound.push_back(chunk);
                    assert(byte_views(conn.outbound@) =~= byte_views(before).push(bytes));
                    HostTook::Taken
                } else {
                    HostTook::Full
                };
                self.put(id, conn);
                assert(self@ =~= old(self)@.offered(id, bytes));
                took
            },
        }
    }

    /// The gateway asks a connection for bytes.
    pub fn poll(&mut self, id: u64) -> (reply: HostReply)
        requires
            old(self)@.wf(),
        ensures
            final(self)@.wf(),
            final(self)@ == old(self)@.polled(id),
            match old(self)@.readable(id) {
                None => reply is Gone,
                Some(q) => if q.len() == 0 {
                    reply is Nothing
                } else {
                    reply matches HostReply::Chunk(chunk) && chunk@ == q.first()
                },
            },
    {
        match self.take_out(id) {
            Some(mut conn) => {
                let ghost before = conn.inbound@;
                let reply: HostReply = if conn.reaped {
                    HostReply::Gone
                } else {
                    match conn.inbound.pop_front() {
                        Some(chunk) => {
                            assert(byte_views(conn.inbound@) =~= byte_views(before).drop_first());
                            assert(byte_views(before)[0] == chunk@);
                            HostReply::Chunk(chunk)
                        },
                        None => HostReply::Nothing,
                    }
                };
                self.put(id, conn);
                assert(self@ =~= old(self)@.polled(id));
                reply
            },
            None => self.poll_rest(id),
        }
    }

    fn poll_rest(&mut self, id: u64) -> (reply: HostReply)
        requires
            old(self)@.wf(),
            !old(self)@.conns.contains_key(id),
        ensures
            final(self)@.wf(),
            final(self)@ == old(self)@.polled(id),
            match old(self)@.readable(id) {
                None => reply is Gone,
                Some(q) => reply matches HostReply::Chunk(chunk) && chunk@ == q.first(),
            },
    {
        match self.rest.remove(&id) {
            Some(mut q) => {
                let ghost before = q@;
                let ghost mid = self@;
                assert(mid.rest =~= old(self)@.rest.remove(id));
                assert(mid.conns == old(self)@.conns);
                let reply: HostReply = match q.pop_front() {
                    Some(chunk) => {
                        assert(byte_views(q@) =~= byte_views(before).drop_first());
                        assert(byte_views(before)[0] == chunk@);
                        HostReply::Chunk(chunk)
                    },
                    None => HostReply::Gone,
                };
                let ghost left = byte_views(q@);
                self.rest.insert(id, q);
                assert(self@.rest =~= mid.rest.insert(id, left));
                assert(self@ =~= old(self)@.polled(id));
                reply
            },
            None => {
                assert(self@ =~= old(self)@);
                HostReply::Gone
            },
        }
    }

    /// The gateway gives a connection up: nothing is written to it or read from it any
    /// more.
    pub fn reap(&mut self, id: u64)
        requires
            old(self)@.wf(),
        ensures
            final(self)@.wf(),
            final(self)@ == old(self)@.reaped(id),
    {
        match self.take_out(id) {
            Some(mut conn) => {
                conn.reaped = true;
                conn.inbound = VecDeque::new();
                assert(conn@.inbound =~= Seq::empty());
                self.put(id, conn);
                assert(self@ =~= old(self)@.reaped(id));
            },
            None => {
                let _ = self.rest.remove(&id);
                assert(self@.rest =~= old(self)@.rest.remove(id));
                assert(self@ =~= old(self)@.reaped(id));
            },
        }
    }
}

impl Default for QueueConnector {
    fn default() -> (q: Self)
        ensures
            q@ == (QueueState {
                next_id: 0,
                fresh: Seq::empty(),
                conns: Map::empty(),
                rest: Map::empty(),
            }),
            q@.wf(),
    {
        QueueConnector::new()
    }
}

/// What the embedder feeds reaches the gateway in order: the chunk joins those that
/// wait, behind them, and asking takes the first.
pub proof fn law_inbound_is_first_in_first_out(q: QueueState, id: u64, bytes: Seq<u8>)
    requires
        q.takes_inbound(id),
    ensures
        q.readable(id) matches Some(before) && q.fed(id, bytes).readable(id) == Some(
            before.push(bytes),
        ),
        q.fed(id, bytes).polled(id).readable(id) == Some(
            q.fed(id, bytes).readable(id)->0.drop_first(),
        ),
{
}

/// What the gateway writes reaches the embedder in order, and once: draining gives all
/// chunks taken since the last time, one behind the other.
pub proof fn law_outbound_is_shipped_in_order(q: QueueState, id: u64, chunk: Seq<u8>)
    requires
        q.verdict_on_offer(id) is Taken,
    ensures
        flat(q.offered(id, chunk).conns[id].outbound) == flat(q.conns[id].outbound) + chunk,
        q.offered(id, chunk).drained(id).conns[id].outbound == Seq::<Seq<u8>>::empty(),
{
    let after = q.offered(id, chunk).conns[id].outbound;
    assert(after.drop_last() =~= q.conns[id].outbound);
}

/// A connection that the embedder frees stays readable until what was fed is read; then
/// it is closed for the gateway. For the embedder it is closed at once.
pub proof fn law_freed_connection_is_read_to_the_end(q: QueueState, id: u64)
    requires
        q.wf(),
        q.conns.contains_key(id),
        !q.conns[id].reaped,
    ensures
        q.freed(id).is_closed(id),
        q.freed(id).verdict_on_offer(id) is Gone,
        q.conns[id].inbound.len() > 0 ==> q.freed(id).readable(id) == Some(q.conns[id].inbound),
        q.conns[id].inbound.len() == 0 ==> q.freed(id).readable(id) is None,
        q.conns[id].inbound.len() == 1 ==> q.freed(id).polled(id).readable(id) is None,
        q.freed(id).freed(id) == q.freed(id),
{
}

/// A connection reads as closed to the embedder exactly when the gateway has given it
/// up, or it was freed; reading and writing do not close it.
pub proof fn law_only_giving_up_closes(q: QueueState, id: u64, bytes: Seq<u8>)
    ensures
        q.fed(id, bytes).is_closed(id) == q.is_closed(id),
        q.offered(id, bytes).is_closed(id) == q.is_closed(id),
        q.drained(id).is_closed(id) == q.is_closed(id),
        q.polled(id).is_closed(id) == q.is_closed(id),
        q.reaped(id).is_closed(id),
{
}

/// A new connection has a number of its own, and the embedder learns of it.
pub proof fn law_new_connection_is_announced(q: QueueState, ip: Ipv4Addr, port: u16)
    requires
        q.wf(),
        q.next_id < u64::MAX,
    ensures
        !q.conns.contains_key(q.next_id),
        !q.rest.contains_key(q.next_id),
        ({
            let after = q.opened(ip, port);
            announced(after.fresh, after.conns).last() == (q.next_id, ip, port)
        }),
{
    let after = q.opened(ip, port);
    assert(after.fresh.drop_last() =~= q.fresh);
}

/// How much waits on a connection: 16 chunks for the embedder and 64 for the gateway.
/// What finds no room is refused, and so is anything on a connection that was given up.
pub proof fn law_queues_are_bounded(q: QueueState, id: u64)
    ensures
        !q.conns.contains_key(id) ==> q.verdict_on_offer(id) is Gone && !q.takes_inbound(id),
        q.conns.contains_key(id) && q.conns[id].reaped ==> q.verdict_on_offer(id) is Gone
            && !q.takes_inbound(id),
        q.conns.contains_key(id) && !q.conns[id].reaped ==> {
            &&& q.verdict_on_offer(id) is Taken <==> q.conns[id].outbound.len() <= 15
            &&& q.verdict_on_offer(id) is Full <==> q.conns[id].outbound.len() >= 16
            &&& q.takes_inbound(id) <==> q.conns[id].inbound.len() <= 63
        },
{
}

/// What happens on one connection leaves every other one as it is, and announces none.
pub proof fn law_connections_are_apart(q: QueueState, id: u64, other: u64, bytes: Seq<u8>)
    requires
        id != other,
    ensures
        forall|r: QueueState|
            #![trigger r.conns]
            r == q.fed(id, bytes) || r == q.offered(id, bytes) || r == q.drained(id) || r
                == q.polled(id) || r == q.freed(id) || r == q.reaped(id) ==> {
                &&& r.next_id == q.next_id
                &&& r.fresh == q.fresh
                &&& r.conns.contains_key(other) == q.conns.contains_key(other)
                &&& q.conns.contains_key(other) ==> r.conns[other] == q.conns[other]
                &&& r.rest.contains_key(other) == q.rest.contains_key(other)
                &&& q.rest.contains_key(other) ==> r.rest[other] == q.rest[other]
                &&& r.readable(other) == q.readable(other)
            },
{
}

/// What happens in one direction of a connection leaves the other direction, and where
/// the connection goes, as they are.
pub proof fn law_directions_are_apart(q: QueueState, id: u64, bytes: Seq<u8>)
    requires
        q.conns.contains_key(id),
    ensures
        q.fed(id, bytes).conns.contains_key(id),
        q.fed(id, bytes).conns[id].outbound == q.conns[id].outbound,
        q.offered(id, bytes).conns.contains_key(id),
        q.offered(id, bytes).conns[id].inbound == q.conns[id].inbound,
        q.drained(id).conns.contains_key(id),
        q.drained(id).conns[id].inbound == q.conns[id].inbound,
        q.polled(id).conns.contains_key(id),
        q.polled(id).conns[id].outbound == q.conns[id].outbound,
        q.reaped(id).conns.contains_key(id),
        q.reaped(id).conns[id].outbound == q.conns[id].outbound,
        q.reaped(id).conns[id].inbound.len() == 0,
        q.reaped(id).conns[id].reaped,
        !q.freed(id).conns.contains_key(id),
        q.conns[id].reaped && !q.rest.contains_key(id) ==> q.freed(id).readable(id) is None,
        forall|r: QueueState|
            #![trigger r.conns]
            r == q.fed(id, bytes) || r == q.offered(id, bytes) || r == q.drained(id) || r
                == q.polled(id) ==> r.conns[id].reaped == q.conns[id].reaped && r.conns[id].dst_ip
                == q.conns[id].dst_ip && r.conns[id].dst_port == q.conns[id].dst_port,
{
}

/// A new connection has the next number, goes where it was asked to go, and is empty;
/// those before it stay. A freed connection is announced no more.
pub proof fn law_opening(q: QueueState, ip: Ipv4Addr, port: u16, id: u64)
    requires
        q.wf(),
        q.next_id < u64::MAX,
    ensures
        ({
            let after = q.opened(ip, port);
            &&& after.next_id == q.next_id + 1
            &&& after.conns.contains_key(q.next_id)
            &&& after.conns[q.next_id].dst_ip == ip
            &&& after.conns[q.next_id].dst_port == port
            &&& after.conns[q.next_id].outbound.len() == 0
            &&& after.readable(q.next_id) == Some(Seq::<Seq<u8>>::empty())
            &&& after.verdict_on_offer(q.next_id) is Taken
            &&& !after.is_closed(q.next_id)
            &&& q.conns.contains_key(id) ==> after.conns.contains_key(id) && after.conns[id]
                == q.conns[id]
            &&& after.rest == q.rest
        }),
        announced(seq![id], q.conns).len() == 1 <==> q.conns.contains_key(id),
        q.conns.contains_key(id) ==> announced(seq![id], q.conns) == seq![
            (id, q.conns[id].dst_ip, q.conns[id].dst_port),
        ],
{
    assert(seq![id].drop_last() =~= Seq::<u64>::empty());
    assert(announced(Seq::<u64>::empty(), q.conns) =~= Seq::empty());
    assert(seq![id].last() == id);
}

/// Connections are announced in the order of their opening.
pub proof fn law_announcements_are_in_order(
    a: Seq<u64>,
    b: Seq<u64>,
    conns: Map<u64, ConnState>,
)
    ensures
        announced(a + b, conns) == announced(a, conns) + announced(b, conns),
    decreases b.len(),
{
    if b.len() == 0 {
        assert(a + b =~= a);
    } else {
        law_announcements_are_in_order(a, b.drop_last(), conns);
        assert((a + b).drop_last() =~= a + b.drop_last());
        assert((a + b).last() == b.last());
        assert(announced(a + b, conns) =~= announced(a, conns) + announced(b, conns));
    }
}

} // verus!
