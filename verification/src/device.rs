//! The link between the guest's network card and the host's network stack: two
//! queues of Ethernet frames, without checksums at their end and without padding.

use std::collections::VecDeque;
use vstd::prelude::*;

verus! {

/// The largest IP packet on the link.
pub const MTU: usize = 1500;

/// The frame queues of the link.
pub struct GuestDevice {
    /// Frames from the guest, for the stack.
    pub rx: VecDeque<Vec<u8>>,
    /// Frames from the stack, for the guest.
    pub tx: VecDeque<Vec<u8>>,
}

/// A queue with `frame` before all others.
pub open spec fn put_back(queue: Seq<Vec<u8>>, frame: Vec<u8>) -> Seq<Vec<u8>> {
    seq![frame] + queue
}

impl GuestDevice {
    pub fn new() -> (d: Self)
        ensures
            d.rx@.len() == 0,
            d.tx@.len() == 0,
    {
        GuestDevice { rx: VecDeque::new(), tx: VecDeque::new() }
    }

    /// Hands the stack a frame from the guest.
    pub fn push_guest_frame(&mut self, frame: Vec<u8>)
        ensures
            final(self).rx@ == old(self).rx@.push(frame),
            final(self).tx == old(self).tx,
    {
        self.rx.push_back(frame);
    }

    /// The oldest frame from the guest that the stack has not taken.
    pub fn pop_guest_frame(&mut self) -> (frame: Option<Vec<u8>>)
        ensures
            final(self).tx == old(self).tx,
            match frame {
                Some(f) => old(self).rx@.len() > 0 && f == old(self).rx@.first()
                    && final(self).rx@ == old(self).rx@.drop_first(),
                None => old(self).rx@.len() == 0 && final(self).rx@.len() == 0,
            },
    {
        self.rx.pop_front()
    }

    /// Queues a frame from the stack for the guest.
    pub fn push_egress(&mut self, frame: Vec<u8>)
        ensures
            final(self).tx@ == old(self).tx@.push(frame),
            final(self).rx == old(self).rx,
    {
        self.tx.push_back(frame);
    }

    /// The next frame for the guest.
    pub fn pop_egress(&mut self) -> (frame: Option<Vec<u8>>)
        ensures
            final(self).rx == old(self).rx,
            match frame {
                Some(f) => old(self).tx@.len() > 0 && f == old(self).tx@.first()
                    && final(self).tx@ == old(self).tx@.drop_first(),
                None => old(self).tx@.len() == 0 && final(self).tx@.len() == 0,
            },
    {
        self.tx.pop_front()
    }

    /// Puts back a frame that the guest's card had no room for: it is the next one
    /// again.
    pub fn requeue_egress_front(&mut self, frame: Vec<u8>)
        ensures
            final(self).tx@ == put_back(old(self).tx@, frame),
            final(self).rx == old(self).rx,
    {
        self.tx.push_front(frame);
        assert(self.tx@ == put_back(old(self).tx@, frame));
    }

    /// Whether there are frames for the guest.
    pub fn has_egress(&self) -> (b: bool)
        ensures
            b == (self.tx@.len() > 0),
    {
        self.tx.len() > 0
    }
}

impl Default for GuestDevice {
    fn default() -> (d: Self)
        ensures
            d.rx@.len() == 0,
            d.tx@.len() == 0,
    {
        GuestDevice::new()
    }
}

/// Frames leave in the order in which they were queued, and one that is put back is
/// tried again before any later frame: popping a frame and putting it back leaves
/// the queue as it was.
pub proof fn law_requeue_undoes_pop(queue: Seq<Vec<u8>>)
    requires
        queue.len() > 0,
    ensures
        put_back(queue.drop_first(), queue.first()) == queue,
{
}

} // verus!
