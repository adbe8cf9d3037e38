//! A flow's turn with a queued connection: bytes are moved between the guest's socket
//! and the queues until there is nothing more to move.

use crate::bytes::{copy_range, flat};
use crate::nat_stack::{bound_for_guest, bound_for_host, bytes_of, follows, law_bytes_for_guest_are_kept, law_bytes_for_host_are_kept, law_outside_has_its_turn_first, law_turn_is_bounded, Flow, FlowState, HostReply, HostTook, Step, Turn, PUMP_CHUNK};
use crate::queue::{law_only_giving_up_closes, QueueConnector, QueueState, OUT_DEPTH};
use crate::tcp::{tcp_view, TcpView};
use smoltcp::socket::tcp::Socket;
use vstd::prelude::*;

verus! {

/// A turn in progress, with the queues.
#[verifier::ext_equal]
pub ghost struct Pumping {
    pub turn: Turn,
    pub queue: QueueState,
}

impl Pumping {
    /// Whether what the next step needs is there, and the numbers are in bounds.
    pub open spec fn wf(self, id: u64) -> bool {
        &&& self.queue.wf()
        &&& self.turn.step is AskHost ==> self.turn.flow.pending_to_guest is None
        &&& self.turn.step is OfferHost ==> self.turn.flow.pending_to_host is Some
            && self.turn.flow.to_host_open
    }

    /// After the next step.
    pub open spec fn stepped(self, id: u64) -> Pumping {
        let flow = self.turn.flow;
        let sock = self.turn.sock;
        match self.turn.step {
            Step::AskHost => Pumping {
                turn: match self.queue.readable(id) {
                    None => flow.given_nothing(sock, true),
                    Some(q) => if q.len() == 0 {
                        flow.given_nothing(sock, false)
                    } else {
                        flow.host_to_guest(sock, q.first())
                    },
                },
                queue: self.queue.polled(id),
            },
            Step::OfferHost => Pumping {
                turn: flow.taken(sock, self.queue.verdict_on_offer(id)),
                queue: self.queue.offered(id, bytes_of(flow.pending_to_host)),
            },
            Step::Finished => self,
        }
    }

    /// How many steps are left at most, in the outside's turn and in the guest's.
    pub open spec fn steps_left(self, id: u64) -> (nat, nat) {
        match self.turn.step {
            Step::AskHost => (
                1,
                match self.queue.readable(id) {
                    None => 0,
                    Some(q) => q.len(),
                },
            ),
            Step::OfferHost => (
                0,
                if self.queue.conns.contains_key(id) {
                    (OUT_DEPTH + 1 - self.queue.conns[id].outbound.len()) as nat
                } else {
                    1
                },
            ),
            Step::Finished => (0, 0),
        }
    }
}

/// A turn after all of its steps.
pub open spec fn all_steps(p: Pumping, id: u64) -> Pumping
    decreases p.steps_left(id).0, p.steps_left(id).1,
    when p.wf(id)
    via all_steps_end
{
    if p.turn.step is Finished {
        p
    } else {
        all_steps(p.stepped(id), id)
    }
}

#[via_fn]
proof fn all_steps_end(p: Pumping, id: u64) {
    if !(p.turn.step is Finished) {
        lemma_step(p, id);
    }
}

proof fn lemma_step(p: Pumping, id: u64)
    requires
        p.wf(id),
        !(p.turn.step is Finished),
    ensures
        p.stepped(id).wf(id),
        p.stepped(id).steps_left(id).0 < p.steps_left(id).0 || (p.stepped(id).steps_left(id).0
            == p.steps_left(id).0 && p.stepped(id).steps_left(id).1 < p.steps_left(id).1),
{
    let flow = p.turn.flow;
    let sock = p.turn.sock;
    let after = p.stepped(id);
    assert(follows(flow, sock, after.turn));
    law_turn_is_bounded(flow, sock, after.turn);
    law_outside_has_its_turn_first(flow, sock, true, p.queue.verdict_on_offer(id));
    law_outside_has_its_turn_first(flow, sock, false, p.queue.verdict_on_offer(id));
    lemma_queue_wf(p.queue, id, bytes_of(flow.pending_to_host));
    if p.turn.step is OfferHost {
        lemma_not_taken_is_finished(flow, sock, p.queue.verdict_on_offer(id));
    }
}

proof fn lemma_not_taken_is_finished(flow: FlowState, sock: TcpView, took: HostTook)
    ensures
        !(took is Taken) ==> flow.taken(sock, took).step is Finished,
{
}

proof fn lemma_queue_wf(q: QueueState, id: u64, chunk: Seq<u8>)
    requires
        q.wf(),
    ensures
        q.polled(id).wf(),
        q.offered(id, chunk).wf(),
{
}

/// What the guest is still to be given: what its socket holds, what the socket has not
/// taken, and what waits in the queue.
pub open spec fn owed_to_guest(p: Pumping, id: u64) -> Seq<u8> {
    bound_for_guest(p.turn.flow, p.turn.sock) + (match p.queue.readable(id) {
        Some(q) => flat(q),
        None => Seq::empty(),
    })
}

/// What the outside is still to be given: what waits for the embedder, what was not put
/// there yet, and what was not read from the guest's socket.
pub open spec fn owed_to_host(p: Pumping, id: u64) -> Seq<u8> {
    flat(p.queue.conns[id].outbound) + bound_for_host(p.turn.flow, p.turn.sock)
}

/// Runs a flow's turn: bytes are moved both ways until the guest's socket is full or the
/// outside has nothing more to give, and until the guest has nothing more to give, the
/// queue is full or the flow has had its share.
pub fn pump_flow(
    flow: &mut Flow,
    sock: &mut Socket<'static>,
    queue: &mut QueueConnector,
    id: u64,
)
    requires
        old(queue)@.wf(),
    ensures
        final(queue)@.wf(),
        ({
            let start = Pumping {
                turn: old(flow)@.begun(tcp_view(*old(sock))),
                queue: old(queue)@,
            };
            let end = all_steps(start, id);
            &&& start.wf(id)
            &&& final(flow)@ == end.turn.flow
            &&& tcp_view(*final(sock)) == end.turn.sock
            &&& final(queue)@ == end.queue
        }),
{
    let ghost before = flow@;
    let ghost socket = tcp_view(*sock);
    let ghost start = Pumping { turn: before.begun(socket), queue: queue@ };
    proof {
        assert(follows(before, socket, start.turn));
        law_turn_is_bounded(before, socket, start.turn);
    }
    let mut step: Step = flow.begin(sock);
    while step != Step::Finished
        invariant
            ({
                let now = Pumping {
                    turn: Turn { flow: flow@, sock: tcp_view(*sock), step },
                    queue: queue@,
                };
                &&& now.wf(id)
                &&& all_steps(now, id) == all_steps(start, id)
            }),
        decreases
                (Pumping {
                    turn: Turn { flow: flow@, sock: tcp_view(*sock), step },
                    queue: queue@,
                }).steps_left(id).0,
                (Pumping {
                    turn: Turn { flow: flow@, sock: tcp_view(*sock), step },
                    queue: queue@,
                }).steps_left(id).1,
    {
        let ghost now = Pumping {
            turn: Turn { flow: flow@, sock: tcp_view(*sock), step },
            queue: queue@,
        };
        proof {
            lemma_step(now, id);
        }
        if step == Step::AskHost {
            let reply: HostReply = queue.poll(id);
            step = flow.host_replied(sock, reply);
        } else {
            let chunk: Vec<u8> = match &flow.pending_to_host {
                Some(waiting) => copy_range(waiting.as_slice(), 0, waiting.len()),
                None => Vec::new(),
            };
            assert(chunk@ == bytes_of(flow@.pending_to_host));
            let took: HostTook = queue.offer(id, chunk);
            step = flow.host_took(sock, took);
        }
        assert((Pumping {
            turn: Turn { flow: flow@, sock: tcp_view(*sock), step },
            queue: queue@,
        }) == now.stepped(id));
    }
}

proof fn lemma_flat_first(q: Seq<Seq<u8>>)
    requires
        q.len() > 0,
    ensures
        flat(q) == q.first() + flat(q.drop_first()),
    decreases q.len(),
{
    if q.len() == 1 {
        assert(q.drop_last() =~= Seq::empty());
        assert(q.drop_first() =~= Seq::empty());
        assert(flat(q) =~= q.first() + flat(q.drop_first()));
    } else {
        lemma_flat_first(q.drop_last());
        assert(q.drop_last().drop_first() =~= q.drop_first().drop_last());
        assert(flat(q) =~= q.first() + flat(q.drop_first()));
    }
}

proof fn lemma_step_keeps_bytes(p: Pumping, id: u64)
    requires
        p.wf(id),
        !(p.turn.step is Finished),
    ensures
        owed_to_guest(p.stepped(id), id) == owed_to_guest(p, id),
        p.turn.flow.to_host_open && !p.queue.is_closed(id) ==> owed_to_host(p.stepped(id), id)
            == owed_to_host(p, id),
        p.queue.is_closed(id) == p.stepped(id).queue.is_closed(id),
        p.stepped(id).turn.flow.to_host_open || p.stepped(id).turn.step is Finished
            || !p.turn.flow.to_host_open,
{
    let flow = p.turn.flow;
    let sock = p.turn.sock;
    let after = p.stepped(id);
    let took = p.queue.verdict_on_offer(id);
    law_only_giving_up_closes(p.queue, id, bytes_of(flow.pending_to_host));
    match p.turn.step {
        Step::AskHost => {
            let next = match p.queue.readable(id) {
                Some(q) => if q.len() > 0 {
                    q.first()
                } else {
                    Seq::empty()
                },
                None => Seq::empty(),
            };
            law_bytes_for_guest_are_kept(flow, sock, next, true, took);
            law_bytes_for_guest_are_kept(flow, sock, next, false, took);
            if flow.to_host_open {
                law_bytes_for_host_are_kept(flow, sock, next, true);
                law_bytes_for_host_are_kept(flow, sock, next, false);
            }
            if let Some(q) = p.queue.readable(id) {
                if q.len() > 0 {
                    lemma_flat_first(q);
                    assert(bound_for_guest(flow, sock) + q.first() + flat(q.drop_first())
                        =~= bound_for_guest(flow, sock) + flat(q));
                    assert(flat(Seq::<Seq<u8>>::empty()) == Seq::<u8>::empty());
                    if q.len() == 1 {
                        assert(q.drop_first() =~= Seq::empty());
                    }
                }
            }
        },
        Step::OfferHost => {
            law_bytes_for_guest_are_kept(flow, sock, Seq::empty(), false, took);
            law_bytes_for_host_are_kept(flow, sock, Seq::empty(), false);
            let offered = bytes_of(flow.pending_to_host);
            if took is Taken {
                let had = p.queue.conns[id].outbound;
                assert(after.queue.conns[id].outbound == had.push(offered));
                assert(had.push(offered).drop_last() =~= had);
                assert(flat(had) + offered + bound_for_host(after.turn.flow, after.turn.sock)
                    =~= flat(had) + (offered + bound_for_host(after.turn.flow, after.turn.sock)));
            }
        },
        Step::Finished => {},
    }
    assert(follows(flow, sock, after.turn));
    law_turn_is_bounded(flow, sock, after.turn);
    lemma_closed_is_finished(flow, sock, after.turn);
}

/// What was open is closed only at the end of a turn.
proof fn lemma_closed_is_finished(flow: FlowState, sock: TcpView, turn: Turn)
    requires
        follows(flow, sock, turn),
    ensures
        flow.to_host_open && !turn.flow.to_host_open ==> turn.step is Finished,
{
}

/// A turn loses, repeats and reorders nothing on the way to the guest: what the guest is
/// owed by its socket, the flow and the queue together is the same after it.
pub proof fn law_turn_keeps_bytes_for_guest(p: Pumping, id: u64)
    requires
        p.wf(id),
    ensures
        owed_to_guest(all_steps(p, id), id) == owed_to_guest(p, id),
    decreases p.steps_left(id).0, p.steps_left(id).1,
{
    if !(p.turn.step is Finished) {
        lemma_step(p, id);
        lemma_step_keeps_bytes(p, id);
        law_turn_keeps_bytes_for_guest(p.stepped(id), id);
    }
}

/// A turn loses, repeats and reorders nothing on the way to the outside, as long as that
/// may be written to: what the outside is owed by the queue, the flow and the guest's
/// socket together is the same after it.
pub proof fn law_turn_keeps_bytes_for_host(p: Pumping, id: u64)
    requires
        p.wf(id),
        p.turn.flow.to_host_open || p.turn.step is Finished,
        !p.queue.is_closed(id),
    ensures
        owed_to_host(all_steps(p, id), id) == owed_to_host(p, id),
    decreases p.steps_left(id).0, p.steps_left(id).1,
{
    if !(p.turn.step is Finished) {
        lemma_step(p, id);
        lemma_step_keeps_bytes(p, id);
        law_turn_keeps_bytes_for_host(p.stepped(id), id);
    }
}

/// A turn ends, and then nothing is left to do before the next one.
pub proof fn law_turn_ends(p: Pumping, id: u64)
    requires
        p.wf(id),
    ensures
        all_steps(p, id).turn.step is Finished,
        all_steps(p, id).wf(id),
    decreases p.steps_left(id).0, p.steps_left(id).1,
{
    if !(p.turn.step is Finished) {
        lemma_step(p, id);
        law_turn_ends(p.stepped(id), id);
    }
}

/// Whether the outside's side of a turn is where it should be: either it is asked next,
/// or the guest's socket is full, or there is nothing to be had.
pub open spec fn outside_is_served(p: Pumping, id: u64) -> bool {
    ||| p.turn.step is AskHost
    ||| p.turn.flow.pending_to_guest is Some
    ||| p.queue.readable(id) is None
    ||| p.queue.readable(id) matches Some(q) && q.len() == 0
}

/// Whether the guest's side of a turn is where it should be: either it is not over, or
/// the queue is full, or the outside may not be written to, or the guest has nothing to
/// give, or the flow has had its share.
pub open spec fn guest_is_served(p: Pumping) -> bool {
    ||| !(p.turn.step is Finished)
    ||| p.turn.flow.pending_to_host is Some
    ||| !p.turn.flow.to_host_open
    ||| p.turn.sock.unread.len() == 0
    ||| p.turn.flow.moved >= PUMP_CHUNK
}

/// The start of a turn is where it should be.
pub proof fn law_turn_starts_well(flow: FlowState, sock: TcpView, queue: QueueState, id: u64)
    requires
        queue.wf(),
    ensures
        ({
            let start = Pumping { turn: flow.begun(sock), queue };
            &&& start.wf(id)
            &&& outside_is_served(start, id)
            &&& guest_is_served(start)
            &&& owed_to_guest(start, id) == bound_for_guest(flow, sock) + (match queue.readable(
                id,
            ) {
                Some(q) => flat(q),
                None => Seq::empty(),
            })
            &&& flow.to_host_open ==> bound_for_host(start.turn.flow, start.turn.sock)
                == bound_for_host(flow, sock)
        }),
{
    let turn = flow.begun(sock);
    assert(follows(flow, sock, turn));
    law_turn_is_bounded(flow, sock, turn);
    law_bytes_for_guest_are_kept(flow, sock, Seq::empty(), false, HostTook::Full);
    if flow.to_host_open {
        law_bytes_for_host_are_kept(flow, sock, Seq::empty(), false);
    }
}

/// A turn goes as far as it can. It leaves bytes in the queue only while the guest's
/// socket is full, and, as long as the connection is open, bytes in the guest's socket
/// only while the queue is full or the flow has had its share.
pub proof fn law_turn_goes_as_far_as_it_can(p: Pumping, id: u64)
    requires
        p.wf(id),
        outside_is_served(p, id),
        guest_is_served(p),
        !p.queue.is_closed(id),
    ensures
        outside_is_served(all_steps(p, id), id),
        guest_is_served(all_steps(p, id)),
        all_steps(p, id).turn.step is Finished,
    decreases p.steps_left(id).0, p.steps_left(id).1,
{
    if !(p.turn.step is Finished) {
        lemma_step(p, id);
        law_only_giving_up_closes(
            p.queue,
            id,
            bytes_of(p.turn.flow.pending_to_host),
        );
        lemma_step_serves(p, id);
        law_turn_goes_as_far_as_it_can(p.stepped(id), id);
    }
}

proof fn lemma_step_serves(p: Pumping, id: u64)
    requires
        p.wf(id),
        !(p.turn.step is Finished),
        outside_is_served(p, id),
        !p.queue.is_closed(id),
    ensures
        outside_is_served(p.stepped(id), id),
        guest_is_served(p.stepped(id)),
{
}

} // verus!
