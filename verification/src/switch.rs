//! A learning Ethernet switch that joins several guests into one LAN.
//!
//! The source address of every frame is remembered with the port it came from. A
//! frame to a known address goes to that address's port; one to an unknown or a
//! group address goes to every other port; one whose destination is on the port it
//! came from goes nowhere.

use vstd::prelude::*;

use crate::bytes::{byte_views, copy_range};

verus! {

/// How many addresses a switch remembers.
pub const TABLE_CAP: usize = 1024;

/// Where a frame goes.
#[derive(Debug, Clone, Copy, PartialEq, Eq, Structural)]
pub enum Forward {
    /// To this port.
    Unicast(usize),
    /// To every port but the one it came from.
    Flood,
    /// Nowhere.
    Drop,
}

/// An address and the port it was seen on.
#[derive(Debug, Clone, Copy, PartialEq, Eq, Structural)]
pub struct MacEntry {
    pub mac: u64,
    pub port: usize,
}

/// The switch. No address stands in its table twice.
#[derive(Debug)]
pub struct Switch {
    pub table: Vec<MacEntry>,
    /// Past this many addresses nothing new is learned.
    pub cap: usize,
}

/// What a switch knows: the port of each remembered address.
#[verifier::ext_equal]
pub ghost struct SwitchState {
    pub ports: Map<u64, usize>,
    pub cap: nat,
}

/// The address in the six bytes at `at`, as a number.
pub open spec fn mac_at(frame: Seq<u8>, at: int) -> u64 {
    (frame[at] * 0x100_0000_0000 + frame[at + 1] * 0x1_0000_0000 + frame[at + 2] * 0x100_0000
        + frame[at + 3] * 0x1_0000 + frame[at + 4] * 0x100 + frame[at + 5]) as u64
}

/// Whether an address stands for a group: the lowest bit of its first byte.
pub open spec fn is_group(mac: u64) -> bool {
    mac / 0x100_0000_0000 % 2 == 1
}

/// Whether a frame is long enough to have an Ethernet header.
pub open spec fn has_header(frame: Seq<u8>) -> bool {
    frame.len() >= 14
}

impl SwitchState {
    /// There are not more addresses than the cap.
    pub open spec fn wf(self) -> bool {
        self.ports.dom().finite() && self.ports.len() <= self.cap
    }

    /// Whether the source of a frame is learned: it is no group address, and it is
    /// known already or there is room.
    pub open spec fn learns(self, src: u64) -> bool {
        !is_group(src) && (self.ports.len() < self.cap || self.ports.contains_key(src))
    }

    /// The switch after a frame that came in on `in_port`.
    pub open spec fn after_frame(self, in_port: usize, frame: Seq<u8>) -> SwitchState {
        if has_header(frame) && self.learns(mac_at(frame, 6)) {
            SwitchState { ports: self.ports.insert(mac_at(frame, 6), in_port), ..self }
        } else {
            self
        }
    }

    /// Where a frame that came in on `in_port` goes.
    pub open spec fn routed(self, in_port: usize, frame: Seq<u8>) -> Forward {
        if !has_header(frame) {
            Forward::Drop
        } else {
            let dst = mac_at(frame, 0);
            let known = self.after_frame(in_port, frame).ports;
            if is_group(dst) || !known.contains_key(dst) {
                Forward::Flood
            } else if known[dst] == in_port {
                Forward::Drop
            } else {
                Forward::Unicast(known[dst])
            }
        }
    }

    /// The ports, of `num_ports`, that a frame goes to.
    pub open spec fn egress(self, in_port: usize, frame: Seq<u8>, num_ports: usize) -> Seq<usize> {
        match self.routed(in_port, frame) {
            Forward::Drop => Seq::empty(),
            Forward::Unicast(p) => if p < num_ports {
                seq![p]
            } else {
                Seq::empty()
            },
            Forward::Flood => others(in_port, num_ports as nat),
        }
    }

    /// The switch without what it knew of `port`.
    pub open spec fn forgetting(self, port: usize) -> SwitchState {
        SwitchState { ports: without(self.ports, port), ..self }
    }
}

/// The addresses that are not on `port`.
pub open spec fn without(ports: Map<u64, usize>, port: usize) -> Map<u64, usize> {
    Map::new(|mac: u64| ports.contains_key(mac) && ports[mac] != port, |mac: u64| ports[mac])
}

/// Every port below `n` but `in_port`, in order.
pub open spec fn others(in_port: usize, n: nat) -> Seq<usize>
    decreases n,
{
    if n == 0 {
        Seq::empty()
    } else if n - 1 == in_port {
        others(in_port, (n - 1) as nat)
    } else {
        others(in_port, (n - 1) as nat).push((n - 1) as usize)
    }
}

/// The entries of a table, as a map.
pub open spec fn table_ports(table: Seq<MacEntry>) -> Map<u64, usize>
    decreases table.len(),
{
    if table.len() == 0 {
        Map::empty()
    } else {
        table_ports(table.drop_last()).insert(table.last().mac, table.last().port)
    }
}

/// No address stands in the table twice.
pub open spec fn distinct(table: Seq<MacEntry>) -> bool {
    forall|i: int, j: int| 0 <= i < j < table.len() ==> table[i].mac != table[j].mac
}

impl View for Switch {
    type V = SwitchState;

    open spec fn view(&self) -> SwitchState {
        SwitchState { ports: table_ports(self.table@), cap: self.cap as nat }
    }
}

impl Switch {
    /// No address is remembered twice, and there are not more than the cap.
    pub open spec fn wf(self) -> bool {
        distinct(self.table@) && self.table@.len() <= self.cap
    }

    /// A switch that knows nothing.
    pub fn new() -> (sw: Self)
        ensures
            sw.wf(),
            sw@ == (SwitchState { ports: Map::empty(), cap: 1024 }),
    {
        Switch { table: Vec::new(), cap: TABLE_CAP }
    }

    fn find(&self, mac: u64) -> (r: Option<usize>)
        requires
            self.wf(),
        ensures
            match r {
                Some(i) => i < self.table@.len() && self.table@[i as int].mac == mac
                    && self@.ports.contains_key(mac) && self@.ports[mac]
                    == self.table@[i as int].port,
                None => !self@.ports.contains_key(mac),
            },
    {
        let mut i: usize = 0;
        while i < self.table.len()
            invariant
                i <= self.table@.len(),
                self.wf(),
                forall|j: int| 0 <= j < i ==> (#[trigger] self.table@[j]).mac != mac,
            decreases self.table@.len() - i,
        {
            if self.table[i].mac == mac {
                proof {
                    lemma_entry(self.table@, i as int);
                }
                return Some(i);
            }
            i = i + 1;
        }
        proof {
            lemma_no_entry(self.table@, mac);
        }
        None
    }

    /// Learns the source of a frame that came in on `in_port` and says where the
    /// frame goes. Frames without a whole header go nowhere and teach nothing.
    pub fn route(&mut self, in_port: usize, frame: &[u8]) -> (f: Forward)
        requires
            old(self).wf(),
        ensures
            final(self).wf(),
            f == old(self)@.routed(in_port, frame@),
            final(self)@ == old(self)@.after_frame(in_port, frame@),
    {
        if frame.len() < 14 {
            return Forward::Drop;
        }
        let dst: u64 = get_mac(frame, 0);
        let src: u64 = get_mac(frame, 6);
        let ghost before = self.table@;
        proof {
            lemma_table_len(before);
        }
        if src / 0x100_0000_0000 % 2 != 1 {
            match self.find(src) {
                Some(i) => {
                    self.table[i] = MacEntry { mac: src, port: in_port };
                    proof {
                        lemma_updated(before, i as int, in_port);
                    }
                },
                None => {
                    if self.table.len() < self.cap {
                        self.table.push(MacEntry { mac: src, port: in_port });
                        proof {
                            lemma_pushed(before, src, in_port);
                        }
                    }
                },
            }
        }
        if dst / 0x100_0000_0000 % 2 == 1 {
            return Forward::Flood;
        }
        match self.find(dst) {
            Some(i) => {
                let p: usize = self.table[i].port;
                if p == in_port {
                    Forward::Drop
                } else {
                    Forward::Unicast(p)
                }
            },
            None => Forward::Flood,
        }
    }

    /// Routes a frame and lists the ports, of `num_ports`, that it goes to.
    pub fn egress(&mut self, in_port: usize, frame: &[u8], num_ports: usize) -> (ports: Vec<usize>)
        requires
            old(self).wf(),
        ensures
            final(self).wf(),
            ports@ == old(self)@.egress(in_port, frame@, num_ports),
            final(self)@ == old(self)@.after_frame(in_port, frame@),
    {
        match self.route(in_port, frame) {
            Forward::Drop => Vec::new(),
            Forward::Unicast(p) => {
                let mut ports: Vec<usize> = Vec::new();
                if p < num_ports {
                    ports.push(p);
                }
                ports
            },
            Forward::Flood => {
                let mut ports: Vec<usize> = Vec::new();
                let mut p: usize = 0;
                while p < num_ports
                    invariant
                        p <= num_ports,
                        ports@ == others(in_port, p as nat),
                    decreases num_ports - p,
                {
                    if p != in_port {
                        ports.push(p);
                    }
                    p = p + 1;
                }
                ports
            },
        }
    }

    /// Forgets every address seen on `port`.
    pub fn forget_port(&mut self, port: usize)
        requires
            old(self).wf(),
        ensures
            final(self).wf(),
            final(self)@ == old(self)@.forgetting(port),
    {
        let mut kept: Vec<MacEntry> = Vec::new();
        let mut i: usize = 0;
        let ghost before = *self;
        assert(table_ports(self.table@.take(0)) =~= Map::empty());
        assert(table_ports(kept@) =~= without(Map::empty(), port));
        while i < self.table.len()
            invariant
                i <= self.table@.len(),
                *self == before,
                before.wf(),
                kept@.len() <= i,
                distinct(kept@),
                forall|k: int|
                    0 <= k < kept@.len() ==> exists|j: int|
                        0 <= j < i && self.table@[j] == #[trigger] kept@[k],
                table_ports(kept@) == without(table_ports(self.table@.take(i as int)), port),
            decreases self.table@.len() - i,
        {
            let e: MacEntry = self.table[i];
            proof {
                let done = self.table@.take(i as int);
                let next = self.table@.take(i + 1);
                assert(next.drop_last() == done);
                assert(next.last() == e);
                lemma_no_entry(done, e.mac);
                assert forall|j: int| 0 <= j < done.len() implies (#[trigger] done[j]).mac
                    != e.mac by {
                    assert(self.table@[j].mac != self.table@[i as int].mac);
                }
                lemma_without(table_ports(done), e.mac, e.port, port);
            }
            let ghost kept_before = kept@;
            if e.port != port {
                kept.push(e);
                proof {
                    assert(kept@.drop_last() == kept_before);
                    assert(kept@[kept_before.len() as int] == self.table@[i as int]);
                    assert forall|k: int| 0 <= k < kept@.len() implies exists|j: int|
                        0 <= j < i + 1 && self.table@[j] == #[trigger] kept@[k] by {
                        if k < kept_before.len() {
                            let j = choose|j: int| 0 <= j < i && self.table@[j] == kept_before[k];
                            assert(self.table@[j] == kept@[k]);
                        }
                    }
                    assert forall|a: int, b: int| 0 <= a < b < kept@.len() implies kept@[a].mac
                        != kept@[b].mac by {
                        if b == kept_before.len() {
                            let j = choose|j: int| 0 <= j < i && self.table@[j] == kept_before[a];
                            assert(self.table@[j].mac != self.table@[i as int].mac);
                        }
                    }
                }
            } else {
                proof {
                    assert forall|k: int| 0 <= k < kept@.len() implies exists|j: int|
                        0 <= j < i + 1 && self.table@[j] == #[trigger] kept@[k] by {
                        let j = choose|j: int| 0 <= j < i && self.table@[j] == kept_before[k];
                        assert(self.table@[j] == kept@[k]);
                    }
                }
            }
            i = i + 1;
        }
        assert(self.table@.take(self.table@.len() as int) == self.table@);
        self.table = kept;
        assert(self@.ports =~= before@.forgetting(port).ports);
    }

    /// How many addresses are remembered.
    pub fn learned(&self) -> (n: usize)
        requires
            self.wf(),
        ensures
            n == self@.ports.len(),
    {
        proof {
            lemma_table_len(self.table@);
        }
        self.table.len()
    }
}

impl Default for Switch {
    /// A switch that remembers nothing and has no room to learn.
    fn default() -> (sw: Self)
        ensures
            sw.wf(),
            sw@ == (SwitchState { ports: Map::empty(), cap: 0 }),
    {
        Switch { table: Vec::new(), cap: 0 }
    }
}

fn get_mac(frame: &[u8], at: usize) -> (mac: u64)
    requires
        at + 6 <= frame@.len(),
    ensures
        mac == mac_at(frame@, at as int),
{
    let n: usize = frame.len();
    assert(at + 6 <= n);
    frame[at] as u64 * 0x100_0000_0000 + frame[at + 1] as u64 * 0x1_0000_0000 + frame[at + 2] as u64
        * 0x100_0000 + frame[at + 3] as u64 * 0x1_0000 + frame[at + 4] as u64 * 0x100 + frame[at
        + 5] as u64
}

proof fn lemma_no_entry(table: Seq<MacEntry>, mac: u64)
    ensures
        table_ports(table).contains_key(mac) <==> exists|j: int|
            0 <= j < table.len() && (#[trigger] table[j]).mac == mac,
    decreases table.len(),
{
    if table.len() > 0 {
        let shorter = table.drop_last();
        lemma_no_entry(shorter, mac);
        if table_ports(table).contains_key(mac) {
            if table.last().mac == mac {
                assert(table[table.len() - 1].mac == mac);
            } else {
                let j = choose|j: int| 0 <= j < shorter.len() && (#[trigger] shorter[j]).mac == mac;
                assert(table[j].mac == mac);
            }
        }
        if exists|j: int| 0 <= j < table.len() && (#[trigger] table[j]).mac == mac {
            let j = choose|j: int| 0 <= j < table.len() && (#[trigger] table[j]).mac == mac;
            if j < shorter.len() {
                assert(shorter[j].mac == mac);
            }
        }
    }
}

proof fn lemma_entry(table: Seq<MacEntry>, i: int)
    requires
        distinct(table),
        0 <= i < table.len(),
    ensures
        table_ports(table).contains_key(table[i].mac),
        table_ports(table)[table[i].mac] == table[i].port,
    decreases table.len(),
{
    if i < table.len() - 1 {
        lemma_entry(table.drop_last(), i);
        assert(table[i].mac != table[table.len() - 1].mac);
    }
}

proof fn lemma_table_len(table: Seq<MacEntry>)
    requires
        distinct(table),
    ensures
        table_ports(table).dom().finite(),
        table_ports(table).len() == table.len(),
    decreases table.len(),
{
    if table.len() > 0 {
        let shorter = table.drop_last();
        lemma_table_len(shorter);
        lemma_no_entry(shorter, table.last().mac);
        assert forall|j: int| 0 <= j < shorter.len() implies (#[trigger] shorter[j]).mac
            != table.last().mac by {
            assert(table[j].mac != table[table.len() - 1].mac);
        }
        assert(table_ports(table).dom() =~= table_ports(shorter).dom().insert(table.last().mac));
    } else {
        assert(table_ports(table).dom() =~= Set::empty());
    }
}

proof fn lemma_updated(table: Seq<MacEntry>, i: int, port: usize)
    requires
        distinct(table),
        0 <= i < table.len(),
    ensures
        distinct(table.update(i, MacEntry { mac: table[i].mac, port })),
        table_ports(table.update(i, MacEntry { mac: table[i].mac, port })) == table_ports(
            table,
        ).insert(table[i].mac, port),
    decreases table.len(),
{
    let entry = MacEntry { mac: table[i].mac, port };
    let changed = table.update(i, entry);
    if i == table.len() - 1 {
        assert(changed.drop_last() == table.drop_last());
    } else {
        let shorter = table.drop_last();
        assert(changed.drop_last() == shorter.update(i, entry));
        assert(shorter[i] == table[i]);
        lemma_updated(shorter, i, port);
        assert(table[i].mac != table[table.len() - 1].mac);
    }
    assert(table_ports(changed) =~= table_ports(table).insert(table[i].mac, port));
}

proof fn lemma_without(ports: Map<u64, usize>, mac: u64, at: usize, port: usize)
    requires
        !ports.contains_key(mac),
    ensures
        without(ports.insert(mac, at), port) == (if at == port {
            without(ports, port)
        } else {
            without(ports, port).insert(mac, at)
        }),
{
    assert(without(ports.insert(mac, at), port) =~= (if at == port {
        without(ports, port)
    } else {
        without(ports, port).insert(mac, at)
    }));
}

proof fn lemma_pushed(table: Seq<MacEntry>, mac: u64, port: usize)
    requires
        distinct(table),
        !table_ports(table).contains_key(mac),
    ensures
        distinct(table.push(MacEntry { mac, port })),
        table_ports(table.push(MacEntry { mac, port })) == table_ports(table).insert(mac, port),
{
    lemma_no_entry(table, mac);
    assert(table.push(MacEntry { mac, port }).drop_last() == table);
}

/// One frame to be put on one port.
#[derive(Debug)]
pub struct Delivery {
    pub port: usize,
    pub frame: Vec<u8>,
}

impl View for Delivery {
    type V = (usize, Seq<u8>);

    open spec fn view(&self) -> (usize, Seq<u8>) {
        (self.port, self.frame@)
    }
}

/// The deliveries in `list`, by what they hold.
pub open spec fn delivery_views(list: Seq<Delivery>) -> Seq<(usize, Seq<u8>)> {
    Seq::new(list.len(), |i: int| list[i]@)
}

/// One frame to each of some ports.
pub open spec fn to_each(ports: Seq<usize>, frame: Seq<u8>) -> Seq<(usize, Seq<u8>)> {
    Seq::new(ports.len(), |i: int| (ports[i], frame))
}

impl SwitchState {
    /// The switch after the frames of one port, in order.
    pub open spec fn after_frames(self, in_port: usize, frames: Seq<Seq<u8>>) -> SwitchState
        decreases frames.len(),
    {
        if frames.len() == 0 {
            self
        } else {
            self.after_frames(in_port, frames.drop_last()).after_frame(in_port, frames.last())
        }
    }

    /// What the frames of one port lead to, among `num_ports`.
    pub open spec fn deliveries(
        self,
        in_port: usize,
        frames: Seq<Seq<u8>>,
        num_ports: usize,
    ) -> Seq<(usize, Seq<u8>)>
        decreases frames.len(),
    {
        if frames.len() == 0 {
            Seq::empty()
        } else {
            self.deliveries(in_port, frames.drop_last(), num_ports) + to_each(
                self.after_frames(in_port, frames.drop_last()).egress(
                    in_port,
                    frames.last(),
                    num_ports,
                ),
                frames.last(),
            )
        }
    }

    /// The switch after the frames of every port, port by port from 0.
    pub open spec fn after_round(self, drained: Seq<Seq<Seq<u8>>>) -> SwitchState
        decreases drained.len(),
    {
        if drained.len() == 0 {
            self
        } else {
            self.after_round(drained.drop_last()).after_frames(
                (drained.len() - 1) as usize,
                drained.last(),
            )
        }
    }

    /// What the frames of every port lead to, among `num_ports`.
    pub open spec fn round_deliveries(
        self,
        drained: Seq<Seq<Seq<u8>>>,
        num_ports: usize,
    ) -> Seq<(usize, Seq<u8>)>
        decreases drained.len(),
    {
        if drained.len() == 0 {
            Seq::empty()
        } else {
            self.round_deliveries(drained.drop_last(), num_ports) + self.after_round(
                drained.drop_last(),
            ).deliveries((drained.len() - 1) as usize, drained.last(), num_ports)
        }
    }
}

impl Switch {
    /// Routes the frames that one port sent and appends where each of them goes.
    pub fn collect(
        &mut self,
        in_port: usize,
        frames: &[Vec<u8>],
        num_ports: usize,
        deliveries: &mut Vec<Delivery>,
    )
        requires
            old(self).wf(),
        ensures
            final(self).wf(),
            final(self)@ == old(self)@.after_frames(in_port, byte_views(frames@)),
            delivery_views(final(deliveries)@) == delivery_views(old(deliveries)@)
                + old(self)@.deliveries(in_port, byte_views(frames@), num_ports),
    {
        let ghost before = self@;
        let ghost had = delivery_views(deliveries@);
        let ghost all = byte_views(frames@);
        let mut i: usize = 0;
        assert(all.take(0).len() == 0);
        assert(had + before.deliveries(in_port, all.take(0), num_ports) =~= had);
        while i < frames.len()
            invariant
                i <= frames@.len(),
                self.wf(),
                all == byte_views(frames@),
                self@ == before.after_frames(in_port, all.take(i as int)),
                delivery_views(deliveries@) == had + before.deliveries(
                    in_port,
                    all.take(i as int),
                    num_ports,
                ),
            decreases frames@.len() - i,
        {
            proof {
                assert(all.take(i + 1).drop_last() == all.take(i as int));
                assert(all.take(i + 1).last() == frames@[i as int]@);
            }
            let ghost so_far = delivery_views(deliveries@);
            let frame: &[u8] = frames[i].as_slice();
            let targets: Vec<usize> = self.egress(in_port, frame, num_ports);
            let mut k: usize = 0;
            assert(so_far + to_each(targets@.take(0), frame@) =~= so_far);
            while k < targets.len()
                invariant
                    k <= targets@.len(),
                    delivery_views(deliveries@) == so_far + to_each(
                        targets@.take(k as int),
                        frame@,
                    ),
                decreases targets@.len() - k,
            {
                let ghost list = deliveries@;
                let copy: Vec<u8> = copy_range(frame, 0, frame.len());
                deliveries.push(Delivery { port: targets[k], frame: copy });
                proof {
                    assert(copy@ == frame@);
                    assert(delivery_views(deliveries@) =~= delivery_views(list).push(
                        (targets@[k as int], frame@),
                    ));
                    assert(to_each(targets@.take(k + 1), frame@) =~= to_each(
                        targets@.take(k as int),
                        frame@,
                    ).push((targets@[k as int], frame@)));
                }
                k = k + 1;
            }
            proof {
                assert(targets@.take(targets@.len() as int) == targets@);
                assert(delivery_views(deliveries@) =~= had + before.deliveries(
                    in_port,
                    all.take(i + 1),
                    num_ports,
                ));
            }
            i = i + 1;
        }
        assert(all.take(all.len() as int) == all);
    }
}

/// Something that was asked of a port.
pub ghost enum PortCall {
    /// To hand over what its guest has sent.
    Drain,
    /// To hand its guest this frame.
    Inject(Seq<u8>),
}

/// A guest's network card, as something attached to a hub. A verified port says what
/// its two spec functions are; a port of plain Rust has the two methods alone.
pub trait L2Port {
    /// The frames that the guest has sent and that nobody has taken yet, in order.
    open spec fn waiting(&self) -> Seq<Seq<u8>> {
        Seq::empty()
    }

    /// Everything that was ever asked of the port, in order.
    open spec fn calls(&self) -> Seq<PortCall> {
        Seq::empty()
    }

    /// Takes every frame that the guest has sent since the last call.
    fn drain_tx(&mut self) -> (frames: Vec<Vec<u8>>)
        ensures
            byte_views(frames@) == old(self).waiting(),
            final(self).waiting().len() == 0,
            final(self).calls() == old(self).calls().push(PortCall::Drain),
    ;

    /// Hands one frame to the guest's card; `false` if the card dropped it.
    fn inject_rx(&mut self, frame: &[u8]) -> (taken: bool)
        ensures
            final(self).calls() == old(self).calls().push(PortCall::Inject(frame@)),
    ;
}

/// A port made of two lists of frames: those that are to be sent, and those that
/// have arrived, as many of them as there is room for.
pub struct QueuePort {
    pub tx: Vec<Vec<u8>>,
    pub rx: Vec<Vec<u8>>,
    /// How many frames may wait in `rx`.
    pub room: usize,
    pub asked: Ghost<Seq<PortCall>>,
}

impl QueuePort {
    /// A port that has nothing to send and to which nothing has arrived.
    pub fn new(room: usize) -> (port: Self)
        ensures
            port.tx@.len() == 0,
            port.rx@.len() == 0,
            port.room == room,
            port.calls().len() == 0,
    {
        QueuePort { tx: Vec::new(), rx: Vec::new(), room, asked: Ghost(Seq::empty()) }
    }
}

impl L2Port for QueuePort {
    open spec fn waiting(&self) -> Seq<Seq<u8>> {
        byte_views(self.tx@)
    }

    open spec fn calls(&self) -> Seq<PortCall> {
        self.asked@
    }

    fn drain_tx(&mut self) -> (frames: Vec<Vec<u8>>)
        ensures
            frames == old(self).tx,
            final(self).tx@.len() == 0,
            final(self).rx == old(self).rx,
            final(self).room == old(self).room,
    {
        let mut frames: Vec<Vec<u8>> = Vec::new();
        std::mem::swap(&mut frames, &mut self.tx);
        self.asked = Ghost(self.asked@.push(PortCall::Drain));
        frames
    }

    fn inject_rx(&mut self, frame: &[u8]) -> (taken: bool)
        ensures
            taken == (old(self).rx@.len() < old(self).room),
            byte_views(final(self).rx@) == (if taken {
                byte_views(old(self).rx@).push(frame@)
            } else {
                byte_views(old(self).rx@)
            }),
            final(self).tx == old(self).tx,
            final(self).room == old(self).room,
    {
        self.asked = Ghost(self.asked@.push(PortCall::Inject(frame@)));
        if self.rx.len() < self.room {
            let copy: Vec<u8> = copy_range(frame, 0, frame.len());
            assert(copy@ == frame@);
            self.rx.push(copy);
            assert(byte_views(self.rx@) == byte_views(old(self).rx@).push(frame@));
            true
        } else {
            false
        }
    }
}

/// What waits at every port of a row.
pub open spec fn all_waiting<P: L2Port>(ports: Seq<P>) -> Seq<Seq<Seq<u8>>> {
    Seq::new(ports.len(), |i: int| ports[i].waiting())
}

/// The frames of the deliveries to one port, in order.
pub open spec fn for_port(list: Seq<(usize, Seq<u8>)>, port: int) -> Seq<Seq<u8>>
    decreases list.len(),
{
    if list.len() == 0 {
        Seq::empty()
    } else if list.last().0 == port {
        for_port(list.drop_last(), port).push(list.last().1)
    } else {
        for_port(list.drop_last(), port)
    }
}

/// To be handed each of some frames, one after the other.
pub open spec fn injections(frames: Seq<Seq<u8>>) -> Seq<PortCall> {
    Seq::new(frames.len(), |i: int| PortCall::Inject(frames[i]))
}

/// A switch over a row of ports; a port's place in the row is its number.
#[derive(Debug)]
pub struct Hub {
    pub switch: Switch,
}

/// What every port has sent, by what it holds.
pub open spec fn round_views(sent: Seq<Vec<Vec<u8>>>) -> Seq<Seq<Seq<u8>>> {
    Seq::new(sent.len(), |i: int| byte_views(sent[i]@))
}

impl Hub {
    /// A hub whose switch knows nothing.
    pub fn new() -> (hub: Self)
        ensures
            hub.switch.wf(),
            hub.switch@ == (SwitchState { ports: Map::empty(), cap: 1024 }),
    {
        Hub { switch: Switch::new() }
    }

    /// Routes what every port has sent, port by port from 0, and says which frame is to
    /// be put on which port, in order.
    pub fn plan(&mut self, sent: &[Vec<Vec<u8>>]) -> (deliveries: Vec<Delivery>)
        requires
            old(self).switch.wf(),
        ensures
            final(self).switch.wf(),
            final(self).switch@ == old(self).switch@.after_round(round_views(sent@)),
            delivery_views(deliveries@) == old(self).switch@.round_deliveries(
                round_views(sent@),
                sent@.len() as usize,
            ),
            forall|k: int|
                0 <= k < deliveries@.len() ==> (#[trigger] deliveries@[k]).port < sent@.len(),
    {
        let n: usize = sent.len();
        let ghost before = self.switch@;
        let ghost all = round_views(sent@);
        let mut deliveries: Vec<Delivery> = Vec::new();
        let mut i: usize = 0;
        assert(all.take(0).len() == 0);
        assert(delivery_views(deliveries@) =~= Seq::empty());
        while i < n
            invariant
                i <= n,
                n == sent@.len(),
                all == round_views(sent@),
                self.switch.wf(),
                self.switch@ == before.after_round(all.take(i as int)),
                delivery_views(deliveries@) == before.round_deliveries(all.take(i as int), n),
            decreases n - i,
        {
            proof {
                assert(all.take(i + 1).drop_last() == all.take(i as int));
                assert(all.take(i + 1).last() == byte_views(sent@[i as int]@));
            }
            self.switch.collect(i, sent[i].as_slice(), n, &mut deliveries);
            i = i + 1;
        }
        proof {
            assert(all.take(n as int) == all);
            lemma_round_in_range(before, all, n);
            assert forall|k: int| 0 <= k < deliveries@.len() implies (
            #[trigger] deliveries@[k]).port < n by {
                assert(delivery_views(deliveries@)[k].0 < n);
            }
        }
        deliveries
    }

    /// Moves one round of frames: every port is drained, once, and then every frame is
    /// handed to the ports that `plan` says, in that order. Nothing else is asked of a
    /// port, and whether it takes a frame makes no difference.
    pub fn pump<P: L2Port>(&mut self, ports: &mut [P])
        requires
            old(self).switch.wf(),
        ensures
            final(self).switch.wf(),
            final(self).switch@ == old(self).switch@.after_round(all_waiting(old(ports)@)),
            final(ports)@.len() == old(ports)@.len(),
            forall|j: int|
                0 <= j < old(ports)@.len() ==> (#[trigger] final(ports)@[j]).calls() == old(
                    ports,
                )@[j].calls().push(PortCall::Drain) + injections(
                    for_port(
                        old(self).switch@.round_deliveries(
                            all_waiting(old(ports)@),
                            old(ports)@.len() as usize,
                        ),
                        j,
                    ),
                ),
    {
        let n: usize = ports.len();
        let ghost before = ports@;
        let mut sent: Vec<Vec<Vec<u8>>> = Vec::new();
        let mut i: usize = 0;
        while i < n
            invariant
                i <= n,
                n == ports@.len(),
                n == before.len(),
                sent@.len() == i,
                *self == *old(self),
                forall|j: int| 0 <= j < i ==> byte_views((#[trigger] sent@[j])@) == before[j].waiting(),
                forall|j: int|
                    0 <= j < i ==> (#[trigger] ports@[j]).calls() == before[j].calls().push(
                        PortCall::Drain,
                    ),
                forall|j: int| i <= j < n ==> #[trigger] ports@[j] == before[j],
            decreases n - i,
        {
            let frames: Vec<Vec<u8>> = ports[i].drain_tx();
            sent.push(frames);
            i = i + 1;
        }
        let ghost drained = ports@;
        let deliveries: Vec<Delivery> = self.plan(sent.as_slice());
        let ghost list = delivery_views(deliveries@);
        assert(round_views(sent@) == all_waiting(before));
        let mut k: usize = 0;
        assert(list.take(0).len() == 0);
        assert forall|j: int| 0 <= j < n implies (#[trigger] ports@[j]).calls()
            == drained[j].calls() + injections(for_port(list.take(0), j)) by {
            assert(injections(for_port(list.take(0), j)).len() == 0);
        }
        while k < deliveries.len()
            invariant
                k <= deliveries@.len(),
                n == ports@.len(),
                n == drained.len(),
                list == delivery_views(deliveries@),
                forall|d: int|
                    0 <= d < deliveries@.len() ==> (#[trigger] deliveries@[d]).port < n,
                forall|j: int|
                    0 <= j < n ==> (#[trigger] ports@[j]).calls() == drained[j].calls()
                        + injections(for_port(list.take(k as int), j)),
            decreases deliveries@.len() - k,
        {
            let at: usize = deliveries[k].port;
            let ghost here = ports@;
            proof {
                assert(list.take(k + 1).drop_last() == list.take(k as int));
                assert(list.take(k + 1).last() == (at, deliveries@[k as int].frame@));
            }
            ports[at].inject_rx(deliveries[k].frame.as_slice());
            proof {
                assert forall|j: int| 0 <= j < n implies (#[trigger] ports@[j]).calls()
                    == drained[j].calls() + injections(for_port(list.take(k + 1), j)) by {
                    let had = for_port(list.take(k as int), j);
                    assert(here[j].calls() == drained[j].calls() + injections(had));
                    if j == at {
                        let frame = deliveries@[k as int].frame@;
                        assert(injections(had.push(frame)) == injections(had).push(
                            PortCall::Inject(frame),
                        ));
                    } else {
                        assert(ports@[j] == here[j]);
                    }
                }
            }
            k = k + 1;
        }
        assert(list.take(k as int) == list);
    }

    /// The switch itself.
    pub fn switch_mut(&mut self) -> (sw: &mut Switch)
        ensures
            *sw == old(self).switch,
            *final(sw) == final(self).switch,
    {
        &mut self.switch
    }
}

impl Default for Hub {
    fn default() -> (hub: Self)
        ensures
            hub.switch.wf(),
            hub.switch@ == (SwitchState { ports: Map::empty(), cap: 0 }),
    {
        Hub { switch: Switch::default() }
    }
}

proof fn lemma_others(in_port: usize, n: nat)
    requires
        n <= usize::MAX,
    ensures
        forall|p: usize| #[trigger] others(in_port, n).contains(p) <==> p < n && p != in_port,
        others(in_port, n).no_duplicates(),
    decreases n,
{
    if n > 0 {
        let m = (n - 1) as nat;
        lemma_others(in_port, m);
        let before = others(in_port, m);
        let after = others(in_port, n);
        assert forall|p: usize| #[trigger]
            after.contains(p) <==> p < n && p != in_port by {
            assert(before.contains(p) <==> p < m && p != in_port);
            if n - 1 != in_port {
                if before.contains(p) {
                    let k = choose|k: int| 0 <= k < before.len() && before[k] == p;
                    assert(after[k] == p);
                }
                assert(after[before.len() as int] == m as usize);
                if after.contains(p) {
                    let k = choose|k: int| 0 <= k < after.len() && after[k] == p;
                    if k < before.len() {
                        assert(before[k] == p);
                    }
                }
            }
        }
        if n - 1 != in_port {
            assert forall|a: int, b: int| 0 <= a < b < after.len() implies after[a] != after[b] by {
                if b == before.len() {
                    assert(before.contains(before[a]));
                }
            }
        }
    }
}

proof fn lemma_egress_in_range(sw: SwitchState, in_port: usize, frame: Seq<u8>, n: usize)
    ensures
        forall|k: int|
            0 <= k < sw.egress(in_port, frame, n).len() ==> {
                &&& #[trigger] sw.egress(in_port, frame, n)[k] < n
                &&& sw.egress(in_port, frame, n)[k] != in_port
            },
{
    lemma_others(in_port, n as nat);
    assert forall|k: int| 0 <= k < sw.egress(in_port, frame, n).len() implies {
        &&& #[trigger] sw.egress(in_port, frame, n)[k] < n
        &&& sw.egress(in_port, frame, n)[k] != in_port
    } by {
        assert(sw.routed(in_port, frame) is Flood ==> others(in_port, n as nat).contains(
            others(in_port, n as nat)[k],
        ));
    }
}

/// Whether every delivery is for one of `n` ports.
spec fn all_below(list: Seq<(usize, Seq<u8>)>, n: usize) -> bool {
    forall|k: int| 0 <= k < list.len() ==> (#[trigger] list[k]).0 < n
}

proof fn lemma_deliveries_in_range(sw: SwitchState, in_port: usize, frames: Seq<Seq<u8>>, n: usize)
    ensures
        all_below(sw.deliveries(in_port, frames, n), n),
    decreases frames.len(),
{
    if frames.len() > 0 {
        let before = sw.after_frames(in_port, frames.drop_last());
        lemma_deliveries_in_range(sw, in_port, frames.drop_last(), n);
        lemma_egress_in_range(before, in_port, frames.last(), n);
        assert(all_below(to_each(before.egress(in_port, frames.last(), n), frames.last()), n));
    }
}

proof fn lemma_round_in_range(sw: SwitchState, drained: Seq<Seq<Seq<u8>>>, n: usize)
    ensures
        all_below(sw.round_deliveries(drained, n), n),
    decreases drained.len(),
{
    if drained.len() > 0 {
        lemma_round_in_range(sw, drained.drop_last(), n);
        lemma_deliveries_in_range(
            sw.after_round(drained.drop_last()),
            (drained.len() - 1) as usize,
            drained.last(),
            n,
        );
    }
}

/// No frame goes back to the port that it came from, nor to one that does not
/// exist, nor twice to the same port.
pub proof fn law_never_back_to_sender(sw: SwitchState, in_port: usize, frame: Seq<u8>, n: usize)
    ensures
        !sw.egress(in_port, frame, n).contains(in_port),
        forall|p: usize| #[trigger] sw.egress(in_port, frame, n).contains(p) ==> p < n,
        sw.egress(in_port, frame, n).no_duplicates(),
{
    lemma_egress_in_range(sw, in_port, frame, n);
    lemma_others(in_port, n as nat);
}

/// A flooded frame reaches every port but the one that it came from.
pub proof fn law_flood_reaches_everyone_else(
    sw: SwitchState,
    in_port: usize,
    frame: Seq<u8>,
    n: usize,
    p: usize,
)
    requires
        sw.routed(in_port, frame) is Flood,
    ensures
        sw.egress(in_port, frame, n).contains(p) <==> p < n && p != in_port,
{
    lemma_others(in_port, n as nat);
}

/// Once a guest has sent a frame, and its address was learned, a frame to it from
/// another port goes straight to it.
pub proof fn law_reply_goes_to_learned_port(
    sw: SwitchState,
    port: usize,
    frame: Seq<u8>,
    other: usize,
    reply: Seq<u8>,
)
    requires
        has_header(frame),
        has_header(reply),
        sw.learns(mac_at(frame, 6)),
        mac_at(reply, 0) == mac_at(frame, 6),
        mac_at(reply, 6) != mac_at(frame, 6),
        port != other,
    ensures
        sw.after_frame(port, frame).routed(other, reply) == Forward::Unicast(port),
{
}

/// The table never outgrows its cap, whatever is sent.
pub proof fn law_table_stays_within_cap(sw: SwitchState, in_port: usize, frame: Seq<u8>)
    requires
        sw.wf(),
    ensures
        sw.after_frame(in_port, frame).wf(),
        sw.after_frame(in_port, frame).ports.len() >= sw.ports.len(),
{
    let src = mac_at(frame, 6);
    if sw.ports.contains_key(src) {
        assert(sw.ports.insert(src, in_port).dom() =~= sw.ports.dom());
    } else {
        assert(sw.ports.insert(src, in_port).dom() =~= sw.ports.dom().insert(src));
    }
}

/// A group address as a source teaches nothing, and as a destination floods.
pub proof fn law_group_addresses(sw: SwitchState, in_port: usize, frame: Seq<u8>)
    requires
        has_header(frame),
    ensures
        is_group(mac_at(frame, 6)) ==> sw.after_frame(in_port, frame) == sw,
        is_group(mac_at(frame, 0)) ==> sw.routed(in_port, frame) is Flood,
{
}

proof fn lemma_for_port_joins(
    a: Seq<(usize, Seq<u8>)>,
    b: Seq<(usize, Seq<u8>)>,
    port: int,
)
    ensures
        for_port(a + b, port) == for_port(a, port) + for_port(b, port),
    decreases b.len(),
{
    if b.len() == 0 {
        assert(a + b == a);
    } else {
        assert((a + b).drop_last() == a + b.drop_last());
        lemma_for_port_joins(a, b.drop_last(), port);
    }
}

proof fn lemma_for_port_of_one_frame(ports: Seq<usize>, frame: Seq<u8>, port: usize)
    ensures
        ports.contains(port) ==> for_port(to_each(ports, frame), port as int).contains(frame),
        !ports.contains(port) ==> for_port(to_each(ports, frame), port as int).len() == 0,
    decreases ports.len(),
{
    let list = to_each(ports, frame);
    if ports.len() > 0 {
        let shorter = ports.drop_last();
        lemma_for_port_of_one_frame(shorter, frame, port);
        assert(list.drop_last() == to_each(shorter, frame));
        let before = for_port(list.drop_last(), port as int);
        let after = for_port(list, port as int);
        if shorter.contains(port) {
            let k = choose|k: int| 0 <= k < shorter.len() && shorter[k] == port;
            assert(ports[k] == port);
            let m = choose|m: int| 0 <= m < before.len() && before[m] == frame;
            assert(after[m] == frame);
        }
        if ports.last() == port {
            assert(ports[ports.len() - 1] == port);
            assert(after[before.len() as int] == frame);
        } else if ports.contains(port) {
            let k = choose|k: int| 0 <= k < ports.len() && ports[k] == port;
            assert(shorter[k] == port);
        }
    }
}

/// Whatever a port sends in a round, none of it comes back to it.
pub proof fn law_port_never_hears_itself(
    sw: SwitchState,
    in_port: usize,
    frames: Seq<Seq<u8>>,
    n: usize,
)
    ensures
        for_port(sw.deliveries(in_port, frames, n), in_port as int).len() == 0,
    decreases frames.len(),
{
    if frames.len() > 0 {
        let earlier = frames.drop_last();
        let here = sw.after_frames(in_port, earlier);
        let targets = here.egress(in_port, frames.last(), n);
        law_port_never_hears_itself(sw, in_port, earlier, n);
        law_never_back_to_sender(here, in_port, frames.last(), n);
        lemma_for_port_of_one_frame(targets, frames.last(), in_port);
        lemma_for_port_joins(
            sw.deliveries(in_port, earlier, n),
            to_each(targets, frames.last()),
            in_port as int,
        );
    }
}

/// A frame sent in a round is handed, in that round, to every port that the switch
/// sends it to when its turn comes.
pub proof fn law_sent_frame_is_delivered(
    sw: SwitchState,
    drained: Seq<Seq<Seq<u8>>>,
    n: usize,
    i: usize,
    k: int,
    port: usize,
)
    requires
        i < drained.len(),
        0 <= k < drained[i as int].len(),
        sw.after_round(drained.take(i as int)).after_frames(i, drained[i as int].take(k)).egress(
            i,
            drained[i as int][k],
            n,
        ).contains(port),
    ensures
        for_port(sw.round_deliveries(drained, n), port as int).contains(drained[i as int][k]),
    decreases drained.len(),
{
    let earlier = drained.drop_last();
    let before = sw.round_deliveries(earlier, n);
    let last = (drained.len() - 1) as usize;
    let added = sw.after_round(earlier).deliveries(last, drained.last(), n);
    let frame = drained[i as int][k];
    lemma_for_port_joins(before, added, port as int);
    if i == drained.len() - 1 {
        assert(drained.take(i as int) == earlier);
        lemma_sent_by_one_port(sw.after_round(earlier), i, drained.last(), n, k, port);
        let m = choose|m: int|
            0 <= m < for_port(added, port as int).len() && for_port(added, port as int)[m] == frame;
        assert((for_port(before, port as int) + for_port(added, port as int))[for_port(
            before,
            port as int,
        ).len() + m] == frame);
    } else {
        assert(earlier.take(i as int) == drained.take(i as int));
        law_sent_frame_is_delivered(sw, earlier, n, i, k, port);
        let m = choose|m: int|
            0 <= m < for_port(before, port as int).len() && for_port(before, port as int)[m]
                == frame;
        assert((for_port(before, port as int) + for_port(added, port as int))[m] == frame);
    }
}

proof fn lemma_sent_by_one_port(
    sw: SwitchState,
    in_port: usize,
    frames: Seq<Seq<u8>>,
    n: usize,
    k: int,
    port: usize,
)
    requires
        0 <= k < frames.len(),
        sw.after_frames(in_port, frames.take(k)).egress(in_port, frames[k], n).contains(port),
    ensures
        for_port(sw.deliveries(in_port, frames, n), port as int).contains(frames[k]),
    decreases frames.len(),
{
    let earlier = frames.drop_last();
    let targets = sw.after_frames(in_port, earlier).egress(in_port, frames.last(), n);
    let before = for_port(sw.deliveries(in_port, earlier, n), port as int);
    let added = for_port(to_each(targets, frames.last()), port as int);
    lemma_for_port_joins(
        sw.deliveries(in_port, earlier, n),
        to_each(targets, frames.last()),
        port as int,
    );
    if k == frames.len() - 1 {
        assert(frames.take(k) == earlier);
        lemma_for_port_of_one_frame(targets, frames.last(), port);
        let m = choose|m: int| 0 <= m < added.len() && added[m] == frames[k];
        assert((before + added)[before.len() + m] == frames[k]);
    } else {
        assert(earlier.take(k) == frames.take(k));
        lemma_sent_by_one_port(sw, in_port, earlier, n, k, port);
        let m = choose|m: int| 0 <= m < before.len() && before[m] == frames[k];
        assert((before + added)[m] == frames[k]);
    }
}

/// Nothing is routed to a port that was forgotten until something is heard from it
/// again.
pub proof fn law_forgotten_port_hears_only_floods(
    sw: SwitchState,
    port: usize,
    in_port: usize,
    frame: Seq<u8>,
)
    requires
        in_port != port,
    ensures
        sw.forgetting(port).routed(in_port, frame) != Forward::Unicast(port),
{
}

/// An address in a frame is its six bytes: two are the same exactly if all six are. The
/// addresses of groups are those whose first byte is odd.
pub proof fn law_addresses_are_six_bytes(f: Seq<u8>, i: int, g: Seq<u8>, j: int)
    ensures
        mac_at(f, i) == mac_at(g, j) <==> f[i] == g[j] && f[i + 1] == g[j + 1] && f[i + 2] == g[j
            + 2] && f[i + 3] == g[j + 3] && f[i + 4] == g[j + 4] && f[i + 5] == g[j + 5],
        is_group(mac_at(f, i)) <==> f[i] % 2 == 1,
{
    let x4 = f[i] * 0x100 + f[i + 1];
    let x3 = x4 * 0x100 + f[i + 2];
    let x2 = x3 * 0x100 + f[i + 3];
    let x1 = x2 * 0x100 + f[i + 4];
    let y4 = g[j] * 0x100 + g[j + 1];
    let y3 = y4 * 0x100 + g[j + 2];
    let y2 = y3 * 0x100 + g[j + 3];
    let y1 = y2 * 0x100 + g[j + 4];
    assert(mac_at(f, i) == x1 * 0x100 + f[i + 5]);
    assert(mac_at(g, j) == y1 * 0x100 + g[j + 5]);
    if mac_at(f, i) == mac_at(g, j) {
        lemma_last_byte(x1, f[i + 5], y1, g[j + 5]);
        lemma_last_byte(x2, f[i + 4], y2, g[j + 4]);
        lemma_last_byte(x3, f[i + 3], y3, g[j + 3]);
        lemma_last_byte(x4, f[i + 2], y4, g[j + 2]);
        lemma_last_byte(f[i] as int, f[i + 1], g[j] as int, g[j + 1]);
    }
    let low = mac_at(f, i) - f[i] * 0x100_0000_0000;
    assert(0 <= low < 0x100_0000_0000);
    assert(mac_at(f, i) / 0x100_0000_0000 == f[i]);
}

proof fn lemma_last_byte(x: int, p: u8, y: int, q: u8)
    requires
        x * 0x100 + p == y * 0x100 + q,
    ensures
        x == y,
        p == q,
{
}

/// Where a frame goes: nowhere if it is shorter than 14 bytes; to everyone else if its
/// first six bytes are a group's address or one that was never seen; nowhere if that
/// address was last seen on the same port; and otherwise to the port where it was last
/// seen.
pub proof fn law_where_frames_go(sw: SwitchState, in_port: usize, frame: Seq<u8>, n: usize)
    ensures
        frame.len() <= 13 ==> sw.routed(in_port, frame) is Drop && sw.after_frame(in_port, frame)
            == sw && sw.egress(in_port, frame, n).len() == 0,
        frame.len() >= 14 && frame[0] % 2 == 1 ==> sw.routed(in_port, frame) is Flood,
        frame.len() >= 14 && frame[0] % 2 == 0 && mac_at(frame, 0) != mac_at(frame, 6) ==> {
            let dst = mac_at(frame, 0);
            &&& !sw.ports.contains_key(dst) ==> sw.routed(in_port, frame) is Flood
            &&& sw.ports.contains_key(dst) && sw.ports[dst] == in_port ==> sw.routed(in_port, frame)
                is Drop
            &&& sw.ports.contains_key(dst) && sw.ports[dst] != in_port ==> sw.routed(in_port, frame)
                == Forward::Unicast(sw.ports[dst])
        },
        sw.routed(in_port, frame) is Drop ==> sw.egress(in_port, frame, n).len() == 0,
        sw.routed(in_port, frame) matches Forward::Unicast(p) ==> (p < n ==> sw.egress(
            in_port,
            frame,
            n,
        ) == seq![p]) && (p >= n ==> sw.egress(in_port, frame, n).len() == 0),
{
    if frame.len() >= 14 {
        law_addresses_are_six_bytes(frame, 0, frame, 6);
    }
}

/// What is learned from a frame: that its sender, bytes six to eleven, is on the port that
/// it came from, unless the sender is a group or is new and the table is full. Nothing else
/// changes.
pub proof fn law_what_is_learned(sw: SwitchState, in_port: usize, frame: Seq<u8>, mac: u64)
    requires
        frame.len() >= 14,
    ensures
        ({
            let src = mac_at(frame, 6);
            let after = sw.after_frame(in_port, frame);
            &&& after.cap == sw.cap
            &&& frame[6] % 2 == 0 && (sw.ports.len() < sw.cap || sw.ports.contains_key(src))
                ==> after.ports.contains_key(src) && after.ports[src] == in_port
            &&& frame[6] % 2 == 1 || (sw.ports.len() >= sw.cap && !sw.ports.contains_key(src))
                ==> after.ports == sw.ports
            &&& mac != src ==> after.ports.contains_key(mac) == sw.ports.contains_key(mac)
            &&& mac != src && sw.ports.contains_key(mac) ==> after.ports[mac] == sw.ports[mac]
        }),
{
    law_addresses_are_six_bytes(frame, 6, frame, 6);
}

/// Forgetting a port forgets what was seen there, and nothing else.
pub proof fn law_forgetting_is_exact(sw: SwitchState, port: usize, mac: u64)
    ensures
        sw.forgetting(port).cap == sw.cap,
        sw.ports.contains_key(mac) && sw.ports[mac] == port ==> !sw.forgetting(
            port,
        ).ports.contains_key(mac),
        sw.ports.contains_key(mac) && sw.ports[mac] != port ==> sw.forgetting(
            port,
        ).ports.contains_key(mac) && sw.forgetting(port).ports[mac] == sw.ports[mac],
        !sw.ports.contains_key(mac) ==> !sw.forgetting(port).ports.contains_key(mac),
{
}

/// The frames of a port are handled one after the other, each with what was learned from
/// those before it, and each is delivered whole to every port it goes to.
pub proof fn law_frames_are_handled_in_order(
    sw: SwitchState,
    in_port: usize,
    frames: Seq<Seq<u8>>,
    frame: Seq<u8>,
    n: usize,
    k: int,
)
    ensures
        sw.after_frames(in_port, Seq::empty()) == sw,
        sw.deliveries(in_port, Seq::empty(), n).len() == 0,
        sw.after_frames(in_port, frames.push(frame)) == sw.after_frames(
            in_port,
            frames,
        ).after_frame(in_port, frame),
        ({
            let before = sw.deliveries(in_port, frames, n);
            let after = sw.deliveries(in_port, frames.push(frame), n);
            let to = sw.after_frames(in_port, frames).egress(in_port, frame, n);
            &&& after.len() == before.len() + to.len()
            &&& 0 <= k < before.len() ==> after[k] == before[k]
            &&& 0 <= k < to.len() ==> after[before.len() + k] == (to[k], frame)
        }),
{
    assert(frames.push(frame).drop_last() =~= frames);
}

/// The ports of a round are handled one after the other, from the first, each with what was
/// learned from those before it.
pub proof fn law_ports_are_handled_in_order(
    sw: SwitchState,
    drained: Seq<Seq<Seq<u8>>>,
    frames: Seq<Seq<u8>>,
    n: usize,
)
    requires
        drained.len() < usize::MAX,
    ensures
        sw.after_round(Seq::empty()) == sw,
        sw.round_deliveries(Seq::empty(), n).len() == 0,
        sw.after_round(drained.push(frames)) == sw.after_round(drained).after_frames(
            drained.len() as usize,
            frames,
        ),
        sw.round_deliveries(drained.push(frames), n) == sw.round_deliveries(drained, n)
            + sw.after_round(drained).deliveries(drained.len() as usize, frames, n),
{
    assert(drained.push(frames).drop_last() =~= drained);
}

/// What a port is handed is what is delivered to it, in order.
pub proof fn law_port_is_handed_its_deliveries(
    list: Seq<(usize, Seq<u8>)>,
    to: usize,
    frame: Seq<u8>,
    port: usize,
)
    ensures
        for_port(Seq::empty(), port as int).len() == 0,
        port == to ==> for_port(list.push((to, frame)), port as int) == for_port(
            list,
            port as int,
        ).push(frame),
        port != to ==> for_port(list.push((to, frame)), port as int) == for_port(list, port as int),
{
    assert(list.push((to, frame)).drop_last() =~= list);
}

} // verus!
