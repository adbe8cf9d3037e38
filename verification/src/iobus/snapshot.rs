//! Snapshots of the whole bus: a record count, then one record per device.
//!
//! A record is a 32-bit length, a device number and the device's own bytes; the
//! length counts the device number and the bytes, so a reader can step over a
//! device that it does not know. Device numbers never change meaning. Disk images
//! are not part of a snapshot.

use crate::ata::{law_transfer_fits_a_snapshot, transfer_fits, AtaState};
use crate::bytes::{copy_range, get_le_u32, le32_bytes, le_u32, lemma_le32_at, put_bytes, put_le_u32};
use crate::cmos::CmosState;
use crate::iobus::{BusState, IoBus};
use crate::keyboard::KeyboardState;
use crate::pci::Pci;
use crate::pic::Pic;
use crate::pit::{law_operations_keep_wf, Pit};
use crate::uart::UartState;
use vstd::prelude::*;

verus! {

pub const DEV_UART: u8 = 1;

pub const DEV_PIC_MASTER: u8 = 2;

pub const DEV_PIC_SLAVE: u8 = 3;

pub const DEV_PIT: u8 = 4;

pub const DEV_KBD: u8 = 5;

pub const DEV_CMOS: u8 = 6;

pub const DEV_ATA_PRIMARY: u8 = 7;

pub const DEV_ATA_SECONDARY: u8 = 8;

pub const DEV_PCI: u8 = 9;

/// One record.
#[verifier::opaque]
pub open spec fn record(id: u8, payload: Seq<u8>) -> Seq<u8> {
    le32_bytes(((1 + payload.len()) % 0x1_0000_0000) as u32) + seq![id] + payload
}

/// Records one after the other.
pub open spec fn records(list: Seq<(u8, Seq<u8>)>) -> Seq<u8>
    decreases list.len(),
{
    if list.len() == 0 {
        Seq::empty()
    } else {
        record(list[0].0, list[0].1) + records(list.drop_first())
    }
}

/// What a device's result means for the whole.
pub open spec fn device_result(r: Result<usize, &'static str>) -> Result<(), Seq<char>> {
    match r {
        Ok(_) => Ok(()),
        Err(e) => Err(e@),
    }
}

/// A restore under way: the devices as loaded so far, and which of the devices
/// that older snapshots lack have had a record.
#[verifier::ext_equal]
pub struct Loading {
    pub bus: BusState,
    pub ata_seen: bool,
    pub ata2_seen: bool,
    pub pci_seen: bool,
}

impl Loading {
    /// Loading has not begun.
    pub open spec fn begin(bus: BusState) -> Loading {
        Loading { bus, ata_seen: false, ata2_seen: false, pci_seen: false }
    }

    /// After the record of device `id`. The record of an unknown device changes
    /// nothing.
    #[verifier::opaque]
    pub open spec fn after_record(self, id: u8, payload: Seq<u8>) -> (
        Loading,
        Result<(), Seq<char>>,
    ) {
        let bus = self.bus;
        if id == DEV_UART {
            let (uart, r) = bus.uart.restore_outcome(payload);
            (Loading { bus: BusState { uart, ..bus }, ..self }, device_result(r))
        } else if id == DEV_PIC_MASTER {
            let (pic, r) = bus.pic.restore_outcome(payload);
            (Loading { bus: BusState { pic, ..bus }, ..self }, device_result(r))
        } else if id == DEV_PIC_SLAVE {
            let (slave_pic, r) = bus.slave_pic.restore_outcome(payload);
            (Loading { bus: BusState { slave_pic, ..bus }, ..self }, device_result(r))
        } else if id == DEV_PIT {
            let (pit, r) = bus.pit.restore_outcome(payload);
            (Loading { bus: BusState { pit, ..bus }, ..self }, device_result(r))
        } else if id == DEV_KBD {
            let (kbd, r) = bus.kbd.restore_outcome(payload);
            (Loading { bus: BusState { kbd, ..bus }, ..self }, device_result(r))
        } else if id == DEV_CMOS {
            let (cmos, r) = bus.cmos.restore_outcome(payload);
            (Loading { bus: BusState { cmos, ..bus }, ..self }, device_result(r))
        } else if id == DEV_ATA_PRIMARY {
            let (ata, r) = bus.ata.restore_outcome(payload);
            (Loading { bus: BusState { ata, ..bus }, ata_seen: true, ..self }, device_result(r))
        } else if id == DEV_ATA_SECONDARY {
            let (ata2, r) = bus.ata2.restore_outcome(payload);
            (Loading { bus: BusState { ata2, ..bus }, ata2_seen: true, ..self }, device_result(r))
        } else if id == DEV_PCI {
            let (pci, r) = bus.pci.restore_outcome(payload);
            (Loading { bus: BusState { pci, ..bus }, pci_seen: true, ..self }, device_result(r))
        } else {
            (self, Ok(()))
        }
    }

    /// After `count` records from `p` on, or as far as the first fault.
    pub open spec fn after_records(self, bytes: Seq<u8>, p: int, count: nat) -> (
        Loading,
        Result<(), Seq<char>>,
    )
        decreases count,
    {
        if count == 0 {
            (self, Ok(()))
        } else if bytes.len() < p + 4 {
            (self, Err("iobus: truncated record header"@))
        } else {
            let len = le_u32(bytes, p) as int;
            if bytes.len() < p + 4 + len || len < 1 {
                (self, Err("iobus: truncated record body"@))
            } else {
                let (next, r) = self.after_record(
                    bytes[p + 4],
                    bytes.subrange(p + 5, p + 4 + len),
                );
                match r {
                    Err(e) => (next, Err(e)),
                    Ok(_) => next.after_records(bytes, p + 4 + len, (count - 1) as nat),
                }
            }
        }
    }

    /// The devices when all records have been loaded: an IDE channel or a PCI
    /// space that had no record is as after a reset, a channel with its disk.
    pub open spec fn finish(self) -> BusState {
        BusState {
            ata: if self.ata_seen {
                self.bus.ata
            } else {
                AtaState::fresh(self.bus.ata.port_base, self.bus.ata.disk)
            },
            ata2: if self.ata2_seen {
                self.bus.ata2
            } else {
                AtaState::fresh(self.bus.ata2.port_base, self.bus.ata2.disk)
            },
            pci: if self.pci_seen {
                self.bus.pci
            } else {
                Pci { addr: 0, nic_bar0: 0, nic_command: 0 }
            },
            ..self.bus
        }
    }
}

impl BusState {
    /// The device records of a snapshot, in order.
    pub open spec fn device_records(self) -> Seq<(u8, Seq<u8>)> {
        seq![
            (DEV_UART, self.uart.snapshot_bytes()),
            (DEV_PIC_MASTER, self.pic.snapshot_bytes()),
            (DEV_PIC_SLAVE, self.slave_pic.snapshot_bytes()),
            (DEV_PIT, self.pit.snapshot_bytes()),
            (DEV_KBD, self.kbd.snapshot_bytes()),
            (DEV_CMOS, self.cmos.snapshot_bytes()),
            (DEV_ATA_PRIMARY, self.ata.snapshot_bytes()),
            (DEV_ATA_SECONDARY, self.ata2.snapshot_bytes()),
            (DEV_PCI, self.pci.snapshot_bytes()),
        ]
    }

    /// What a snapshot of the bus holds.
    pub open spec fn snapshot_bytes(self) -> Seq<u8> {
        seq![9u8] + records(self.device_records())
    }

    /// The devices and the result that `restore` leaves behind. What was loaded
    /// before a fault stays loaded.
    pub open spec fn restore_outcome(self, bytes: Seq<u8>) -> (BusState, Result<(), Seq<char>>) {
        if bytes.len() == 0 {
            (self, Err("iobus: empty"@))
        } else {
            let (loaded, r) = Loading::begin(self).after_records(bytes, 1, bytes[0] as nat);
            match r {
                Ok(_) => (loaded.finish(), Ok(())),
                Err(e) => (loaded.bus, Err(e)),
            }
        }
    }
}

fn put_record(out: &mut Vec<u8>, id: u8, payload: &Vec<u8>)
    ensures
        final(out)@ == old(out)@ + record(id, payload@),
{
    let len: u128 = (1 + payload.len() as u128) % 0x1_0000_0000;
    put_le_u32(out, len as u32);
    out.push(id);
    put_bytes(out, payload.as_slice());
    reveal(record);
    assert(out@ == old(out)@ + record(id, payload@));
}

proof fn lemma_records_push(list: Seq<(u8, Seq<u8>)>, id: u8, payload: Seq<u8>)
    ensures
        records(list.push((id, payload))) == records(list) + record(id, payload),
    decreases list.len(),
{
    let longer = list.push((id, payload));
    if list.len() == 0 {
        assert(longer.drop_first() == list);
        assert(records(longer) == record(id, payload) + records(list));
    } else {
        assert(longer.drop_first() == list.drop_first().push((id, payload)));
        lemma_records_push(list.drop_first(), id, payload);
    }
}

proof fn lemma_record_flags(here: Loading, id: u8, payload: Seq<u8>)
    ensures
        ({
            let (fresh, outcome) = Loading::begin(here.bus).after_record(id, payload);
            here.after_record(id, payload) == (
                Loading {
                    bus: fresh.bus,
                    ata_seen: here.ata_seen || id == DEV_ATA_PRIMARY,
                    ata2_seen: here.ata2_seen || id == DEV_ATA_SECONDARY,
                    pci_seen: here.pci_seen || id == DEV_PCI,
                },
                outcome,
            )
        }),
{
    reveal(Loading::after_record);
}

proof fn lemma_record_keeps_wf(here: Loading, id: u8, payload: Seq<u8>)
    ensures
        here.bus.wf() ==> here.after_record(id, payload).0.bus.wf(),
{
    reveal(Loading::after_record);
}

impl IoBus {
    /// Captures the state of every device.
    pub fn snapshot(&self) -> (out: Vec<u8>)
        ensures
            out@ == self@.snapshot_bytes(),
    {
        let mut out: Vec<u8> = Vec::new();
        out.push(9u8);
        let ghost mut list = Seq::<(u8, Seq<u8>)>::empty();
        assert(out@ == seq![9u8] + records(list));
        let mut buf: Vec<u8> = Vec::new();
        self.uart.snapshot_into(&mut buf);
        put_record(&mut out, DEV_UART, &buf);
        proof {
            lemma_records_push(list, DEV_UART, buf@);
            list = list.push((DEV_UART, buf@));
        }
        let mut buf: Vec<u8> = Vec::new();
        self.pic.snapshot_into(&mut buf);
        put_record(&mut out, DEV_PIC_MASTER, &buf);
        proof {
            lemma_records_push(list, DEV_PIC_MASTER, buf@);
            list = list.push((DEV_PIC_MASTER, buf@));
        }
        let mut buf: Vec<u8> = Vec::new();
        self.slave_pic.snapshot_into(&mut buf);
        put_record(&mut out, DEV_PIC_SLAVE, &buf);
        proof {
            lemma_records_push(list, DEV_PIC_SLAVE, buf@);
            list = list.push((DEV_PIC_SLAVE, buf@));
        }
        let mut buf: Vec<u8> = Vec::new();
        self.pit.snapshot_into(&mut buf);
        put_record(&mut out, DEV_PIT, &buf);
        proof {
            lemma_records_push(list, DEV_PIT, buf@);
            list = list.push((DEV_PIT, buf@));
        }
        let mut buf: Vec<u8> = Vec::new();
        self.kbd.snapshot_into(&mut buf);
        put_record(&mut out, DEV_KBD, &buf);
        proof {
            lemma_records_push(list, DEV_KBD, buf@);
            list = list.push((DEV_KBD, buf@));
        }
        let mut buf: Vec<u8> = Vec::new();
        self.cmos.snapshot_into(&mut buf);
        put_record(&mut out, DEV_CMOS, &buf);
        proof {
            lemma_records_push(list, DEV_CMOS, buf@);
            list = list.push((DEV_CMOS, buf@));
        }
        let mut buf: Vec<u8> = Vec::new();
        self.ata.snapshot_into(&mut buf);
        put_record(&mut out, DEV_ATA_PRIMARY, &buf);
        proof {
            lemma_records_push(list, DEV_ATA_PRIMARY, buf@);
            list = list.push((DEV_ATA_PRIMARY, buf@));
        }
        let mut buf: Vec<u8> = Vec::new();
        self.ata2.snapshot_into(&mut buf);
        put_record(&mut out, DEV_ATA_SECONDARY, &buf);
        proof {
            lemma_records_push(list, DEV_ATA_SECONDARY, buf@);
            list = list.push((DEV_ATA_SECONDARY, buf@));
        }
        let mut buf: Vec<u8> = Vec::new();
        self.pci.snapshot_into(&mut buf);
        put_record(&mut out, DEV_PCI, &buf);
        proof {
            lemma_records_push(list, DEV_PCI, buf@);
            list = list.push((DEV_PCI, buf@));
        }
        assert(list == self@.device_records());
        out
    }

    fn restore_record(&mut self, id: u8, payload: &[u8]) -> (r: Result<usize, &'static str>)
        ensures
            ({
                let (next, outcome) = Loading::begin(old(self)@).after_record(id, payload@);
                final(self)@ == next.bus && device_result(r) == outcome
            }),
    {
        reveal(Loading::after_record);
        match id {
            1 => self.uart.restore(payload),
            2 => self.pic.restore(payload),
            3 => self.slave_pic.restore(payload),
            4 => self.pit.restore(payload),
            5 => self.kbd.restore(payload),
            6 => self.cmos.restore(payload),
            7 => self.ata.restore(payload),
            8 => self.ata2.restore(payload),
            9 => self.pci.restore(payload),
            _ => Ok(payload.len()),
        }
    }

    /// Takes back what `snapshot` captured. Records of unknown devices are
    /// skipped; an IDE channel or a PCI space without a record is reset.
    pub fn restore(&mut self, bytes: &[u8]) -> (r: Result<(), String>)
        ensures
            ({
                let (bus, outcome) = old(self)@.restore_outcome(bytes@);
                &&& final(self)@ == bus
                &&& match r {
                    Ok(_) => outcome is Ok,
                    Err(e) => outcome == Err::<(), Seq<char>>(e@),
                }
            }),
            old(self).wf() ==> final(self).wf(),
    {
        let size: usize = bytes.len();
        if size == 0 {
            return Err("iobus: empty".to_owned());
        }
        let count: u8 = bytes[0];
        let mut p: usize = 1;
        let mut i: u8 = 0;
        let mut ata_seen: bool = false;
        let mut ata2_seen: bool = false;
        let mut pci_seen: bool = false;
        let ghost start = Loading::begin(self@);
        while i < count
            invariant
                i <= count,
                size == bytes@.len(),
                1 <= p <= size,
                start == Loading::begin(old(self)@),
                start.after_records(bytes@, 1, count as nat) == (Loading {
                    bus: self@,
                    ata_seen,
                    ata2_seen,
                    pci_seen,
                }).after_records(bytes@, p as int, (count - i) as nat),
                old(self).wf() ==> self.wf(),
                count == bytes@[0],
            decreases count - i,
        {
            let ghost here = Loading { bus: self@, ata_seen, ata2_seen, pci_seen };
            if size - p < 4 {
                return Err("iobus: truncated record header".to_owned());
            }
            let len: usize = get_le_u32(bytes, p) as usize;
            if size - p - 4 < len || len < 1 {
                return Err("iobus: truncated record body".to_owned());
            }
            let id: u8 = bytes[p + 4];
            let payload: Vec<u8> = copy_range(bytes, p + 5, p + 4 + len);
            match self.restore_record(id, payload.as_slice()) {
                Err(e) => {
                    proof {
                        lemma_record_flags(here, id, payload@);
                        lemma_record_keeps_wf(here, id, payload@);
                    }
                    return Err(e.to_owned());
                },
                Ok(_) => {},
            }
            if id == DEV_ATA_PRIMARY {
                ata_seen = true;
            } else if id == DEV_ATA_SECONDARY {
                ata2_seen = true;
            } else if id == DEV_PCI {
                pci_seen = true;
            }
            proof {
                lemma_record_flags(here, id, payload@);
                lemma_record_keeps_wf(here, id, payload@);
            }
            p = p + 4 + len;
            i = i + 1;
        }
        if !ata_seen {
            self.ata.reset();
        }
        if !ata2_seen {
            self.ata2.reset();
        }
        if !pci_seen {
            self.pci = Pci::new();
        }
        Ok(())
    }
}

impl Loading {
    /// After every record of `list`, or as far as the first fault.
    pub open spec fn after_all(self, list: Seq<(u8, Seq<u8>)>) -> (Loading, Result<(), Seq<char>>)
        decreases list.len(),
    {
        if list.len() == 0 {
            (self, Ok(()))
        } else {
            let (next, r) = self.after_record(list[0].0, list[0].1);
            match r {
                Err(e) => (next, Err(e)),
                Ok(_) => next.after_all(list.drop_first()),
            }
        }
    }
}

proof fn lemma_record_layout(head: Seq<u8>, id: u8, payload: Seq<u8>, rest: Seq<u8>)
    requires
        payload.len() + 1 < 0x1_0000_0000,
    ensures
        ({
            let bytes = head + record(id, payload) + rest;
            let p = head.len() as int;
            let len = 1 + payload.len() as int;
            &&& bytes.len() >= p + 4 + len
            &&& le_u32(bytes, p) == len
            &&& bytes[p + 4] == id
            &&& bytes.subrange(p + 5, p + 4 + len) == payload
            &&& record(id, payload).len() == 4 + len
        }),
{
    reveal(record);
    let bytes = head + record(id, payload) + rest;
    let p = head.len() as int;
    let len = 1 + payload.len() as int;
    assert(bytes.subrange(p, p + 4) == le32_bytes(len as u32));
    lemma_le32_at(bytes, p, len as u32);
    assert(bytes.subrange(p + 5, p + 4 + len) == payload);
}

/// Reading records that were written one after the other hands each device its
/// own bytes, in order, and ignores what follows the last record.
pub proof fn law_records_are_read_back(
    loading: Loading,
    head: Seq<u8>,
    list: Seq<(u8, Seq<u8>)>,
    tail: Seq<u8>,
)
    requires
        forall|i: int| 0 <= i < list.len() ==> #[trigger] list[i].1.len() + 1 < 0x1_0000_0000,
    ensures
        loading.after_records(head + records(list) + tail, head.len() as int, list.len())
            == loading.after_all(list),
    decreases list.len(),
{
    let bytes = head + records(list) + tail;
    if list.len() > 0 {
        let id = list[0].0;
        let payload = list[0].1;
        let first = record(id, payload);
        let rest = records(list.drop_first());
        assert(list[0].1.len() + 1 < 0x1_0000_0000);
        assert(bytes == head + first + (rest + tail));
        lemma_record_layout(head, id, payload, rest + tail);
        let (next, r) = loading.after_record(id, payload);
        if r is Ok {
            assert(bytes == (head + first) + rest + tail);
            assert forall|i: int| 0 <= i < list.drop_first().len() implies #[trigger] list.drop_first()[i].1.len()
                + 1 < 0x1_0000_0000 by {
                assert(list[i + 1].1.len() + 1 < 0x1_0000_0000);
            }
            law_records_are_read_back(next, head + first, list.drop_first(), tail);
        }
    }
}

/// A record of a device that is not known is stepped over, wherever it stands: the
/// outcome is that of the records without it.
pub proof fn law_unknown_record_is_skipped(
    loading: Loading,
    list: Seq<(u8, Seq<u8>)>,
    at: int,
    id: u8,
    payload: Seq<u8>,
)
    requires
        id == 0 || id > 9,
        0 <= at <= list.len(),
    ensures
        loading.after_all(list.insert(at, (id, payload))) == loading.after_all(list),
    decreases list.len(),
{
    let longer = list.insert(at, (id, payload));
    if at == 0 {
        reveal(Loading::after_record);
        assert(longer.drop_first() == list);
    } else {
        assert(longer.drop_first() == list.drop_first().insert(at - 1, (id, payload)));
        assert(longer[0] == list[0]);
        law_unknown_record_is_skipped(
            loading.after_record(list[0].0, list[0].1).0,
            list.drop_first(),
            at - 1,
            id,
            payload,
        );
    }
}

/// Records that were cut off before their end are refused, wherever the cut is.
pub proof fn law_cut_records_are_refused(
    loading: Loading,
    head: Seq<u8>,
    list: Seq<(u8, Seq<u8>)>,
    cut: int,
)
    requires
        forall|i: int| 0 <= i < list.len() ==> #[trigger] list[i].1.len() + 1 < 0x1_0000_0000,
        0 <= cut < records(list).len(),
    ensures
        loading.after_records(head + records(list).take(cut), head.len() as int, list.len()).1
            is Err,
    decreases list.len(),
{
    let bytes = head + records(list).take(cut);
    let p = head.len() as int;
    let id = list[0].0;
    let payload = list[0].1;
    let first = record(id, payload);
    let rest = list.drop_first();
    let whole = head + first + records(rest);
    assert(list[0].1.len() + 1 < 0x1_0000_0000);
    lemma_record_layout(head, id, payload, records(rest));
    assert(head + records(list) == whole);
    assert(bytes == whole.take(p + cut));
    if cut >= 4 {
        assert(bytes[p] == whole[p] && bytes[p + 1] == whole[p + 1] && bytes[p + 2] == whole[p + 2]
            && bytes[p + 3] == whole[p + 3]);
        if cut >= first.len() {
            assert(bytes[p + 4] == id);
            assert(bytes.subrange(p + 5, p + first.len()) == whole.subrange(
                p + 5,
                p + first.len(),
            ));
            let (next, r) = loading.after_record(id, payload);
            if r is Ok {
                let left = cut - first.len();
                assert(bytes == (head + first) + records(rest).take(left));
                assert forall|i: int| 0 <= i < rest.len() implies #[trigger] rest[i].1.len() + 1
                    < 0x1_0000_0000 by {
                    assert(list[i + 1].1.len() + 1 < 0x1_0000_0000);
                }
                law_cut_records_are_refused(next, head + first, rest, left);
            }
        }
    }
}

/// The devices are such as the operations of a bus leave them.
pub open spec fn sound(bus: BusState) -> bool {
    &&& bus.pit.wf()
    &&& bus.cmos.wf()
    &&& transfer_fits(bus.ata)
    &&& transfer_fits(bus.ata2)
}

/// A sound bus whose records are short enough for their length fields.
pub open spec fn capturable(bus: BusState) -> bool {
    &&& sound(bus)
    &&& bus.uart.snapshot_bytes().len() < 0xFFFF_FFFF
    &&& bus.kbd.snapshot_bytes().len() < 0xFFFF_FFFF
    &&& bus.ata.snapshot_bytes().len() < 0xFFFF_FFFF
    &&& bus.ata2.snapshot_bytes().len() < 0xFFFF_FFFF
}

/// A new bus is sound, and stays so whatever is read, written, refreshed, taken or
/// restored.
pub proof fn law_bus_stays_sound(
    bus: BusState,
    uart: UartState,
    port: u16,
    value: u8,
    bytes: Seq<u8>,
)
    requires
        sound(bus),
    ensures
        sound(BusState::fresh(uart)),
        sound(bus.after_read(port)),
        sound(bus.after_write(port, value)),
        sound(bus.refreshed()),
        sound(bus.acked()),
        sound(bus.restore_outcome(bytes).0),
{
    law_operations_keep_wf(bus.pit, 1, port, value, bytes);
    law_transfer_fits_a_snapshot(bus.ata, port, value, bytes);
    law_transfer_fits_a_snapshot(bus.ata2, port, value, bytes);
    if bytes.len() > 0 {
        lemma_records_keep_sound(Loading::begin(bus), bytes, 1, bytes[0] as nat);
    }
}

proof fn lemma_record_keeps_sound(here: Loading, id: u8, payload: Seq<u8>)
    requires
        sound(here.bus),
    ensures
        sound(here.after_record(id, payload).0.bus),
{
    reveal(Loading::after_record);
    law_operations_keep_wf(here.bus.pit, 0, 0, 0, payload);
    law_transfer_fits_a_snapshot(here.bus.ata, 0, 0, payload);
    law_transfer_fits_a_snapshot(here.bus.ata2, 0, 0, payload);
}

proof fn lemma_records_keep_sound(here: Loading, bytes: Seq<u8>, p: int, count: nat)
    requires
        sound(here.bus),
    ensures
        sound(here.after_records(bytes, p, count).0.bus),
    decreases count,
{
    if count > 0 && bytes.len() >= p + 4 {
        let len = le_u32(bytes, p) as int;
        if bytes.len() >= p + 4 + len && len >= 1 {
            let id = bytes[p + 4];
            let payload = bytes.subrange(p + 5, p + 4 + len);
            lemma_record_keeps_sound(here, id, payload);
            lemma_records_keep_sound(
                here.after_record(id, payload).0,
                bytes,
                p + 4 + len,
                (count - 1) as nat,
            );
        }
    }
}

/// The bus that a restore of `captured` makes of `target`: the captured state of
/// every device, at the target's own ports and with the target's own disks. Of
/// the keyboard controller only the scan codes are captured.
pub open spec fn restored(captured: BusState, target: BusState) -> BusState {
    BusState {
        ata: AtaState {
            disk: target.ata.disk,
            port_base: target.ata.port_base,
            ..captured.ata
        },
        ata2: AtaState {
            disk: target.ata2.disk,
            port_base: target.ata2.port_base,
            ..captured.ata2
        },
        pci: captured.pci,
        ..restored_without_ide(captured, target)
    }
}

/// The same for a snapshot that has no records of the IDE channels and of PCI.
pub open spec fn restored_without_ide(captured: BusState, target: BusState) -> BusState {
    BusState {
        uart: UartState { base: target.uart.base, ..captured.uart },
        pic: Pic {
            base_port: target.pic.base_port,
            read_select: target.pic.read_select,
            ..captured.pic
        },
        slave_pic: Pic {
            base_port: target.slave_pic.base_port,
            read_select: target.slave_pic.read_select,
            ..captured.slave_pic
        },
        pit: Pit { base_port: target.pit.base_port, ..captured.pit },
        kbd: KeyboardState::power_on(
            target.kbd.data_port,
            target.kbd.status_port,
            captured.kbd.queue,
        ),
        cmos: CmosState {
            index_port: target.cmos.index_port,
            data_port: target.cmos.data_port,
            ..captured.cmos
        },
        ..target
    }
}

proof fn lemma_load_uart(l: Loading, captured: UartState)
    requires
        captured.snapshot_bytes().len() < 0xFFFF_FFFF,
    ensures
        l.after_record(DEV_UART, captured.snapshot_bytes()) == (
            Loading { bus: BusState { uart: UartState { base: l.bus.uart.base, ..captured }, ..l.bus }, ..l },
            Ok::<(), Seq<char>>(()),
        ),
{
    reveal(Loading::after_record);
    let none = Seq::<u8>::empty();
    assert(captured.snapshot_bytes() + none == captured.snapshot_bytes());
    crate::uart::law_snapshot_round_trip(captured, l.bus.uart, none);
}

proof fn lemma_load_pic(l: Loading, captured: Pic)
    ensures
        l.after_record(DEV_PIC_MASTER, captured.snapshot_bytes()) == (
            Loading { bus: BusState { pic: Pic {
                    base_port: l.bus.pic.base_port,
                    read_select: l.bus.pic.read_select,
                    ..captured
                }, ..l.bus }, ..l },
            Ok::<(), Seq<char>>(()),
        ),
{
    reveal(Loading::after_record);
    let none = Seq::<u8>::empty();
    assert(captured.snapshot_bytes() + none == captured.snapshot_bytes());
    crate::pic::law_snapshot_round_trip(captured, l.bus.pic, none);
}

proof fn lemma_load_slave_pic(l: Loading, captured: Pic)
    ensures
        l.after_record(DEV_PIC_SLAVE, captured.snapshot_bytes()) == (
            Loading { bus: BusState { slave_pic: Pic {
                    base_port: l.bus.slave_pic.base_port,
                    read_select: l.bus.slave_pic.read_select,
                    ..captured
                }, ..l.bus }, ..l },
            Ok::<(), Seq<char>>(()),
        ),
{
    reveal(Loading::after_record);
    let none = Seq::<u8>::empty();
    assert(captured.snapshot_bytes() + none == captured.snapshot_bytes());
    crate::pic::law_snapshot_round_trip(captured, l.bus.slave_pic, none);
}

proof fn lemma_load_pit(l: Loading, captured: Pit)
    requires
        captured.wf(),
    ensures
        l.after_record(DEV_PIT, captured.snapshot_bytes()) == (
            Loading { bus: BusState { pit: Pit { base_port: l.bus.pit.base_port, ..captured }, ..l.bus }, ..l },
            Ok::<(), Seq<char>>(()),
        ),
{
    reveal(Loading::after_record);
    let none = Seq::<u8>::empty();
    assert(captured.snapshot_bytes() + none == captured.snapshot_bytes());
    crate::pit::law_snapshot_round_trip(captured, l.bus.pit, none);
}

proof fn lemma_load_kbd(l: Loading, captured: KeyboardState)
    requires
        captured.snapshot_bytes().len() < 0xFFFF_FFFF,
    ensures
        l.after_record(DEV_KBD, captured.snapshot_bytes()) == (
            Loading { bus: BusState { kbd: KeyboardState::power_on(
                    l.bus.kbd.data_port,
                    l.bus.kbd.status_port,
                    captured.queue,
                ), ..l.bus }, ..l },
            Ok::<(), Seq<char>>(()),
        ),
{
    reveal(Loading::after_record);
    let none = Seq::<u8>::empty();
    assert(captured.snapshot_bytes() + none == captured.snapshot_bytes());
    crate::keyboard::law_snapshot_round_trip(captured, l.bus.kbd, none);
}

proof fn lemma_load_cmos(l: Loading, captured: CmosState)
    requires
        captured.wf(),
    ensures
        l.after_record(DEV_CMOS, captured.snapshot_bytes()) == (
            Loading { bus: BusState { cmos: CmosState {
                    index_port: l.bus.cmos.index_port,
                    data_port: l.bus.cmos.data_port,
                    ..captured
                }, ..l.bus }, ..l },
            Ok::<(), Seq<char>>(()),
        ),
{
    reveal(Loading::after_record);
    let none = Seq::<u8>::empty();
    assert(captured.snapshot_bytes() + none == captured.snapshot_bytes());
    crate::cmos::law_snapshot_round_trip(captured, l.bus.cmos, none);
}

proof fn lemma_load_ata(l: Loading, captured: AtaState)
    requires
        transfer_fits(captured),
    ensures
        l.after_record(DEV_ATA_PRIMARY, captured.snapshot_bytes()) == (
            Loading { bus: BusState { ata: AtaState {
                    disk: l.bus.ata.disk,
                    port_base: l.bus.ata.port_base,
                    ..captured
                }, ..l.bus }, ata_seen: true, ..l },
            Ok::<(), Seq<char>>(()),
        ),
{
    reveal(Loading::after_record);
    let none = Seq::<u8>::empty();
    assert(captured.snapshot_bytes() + none == captured.snapshot_bytes());
    crate::ata::law_snapshot_round_trip(captured, l.bus.ata, none);
}

proof fn lemma_load_ata2(l: Loading, captured: AtaState)
    requires
        transfer_fits(captured),
    ensures
        l.after_record(DEV_ATA_SECONDARY, captured.snapshot_bytes()) == (
            Loading { bus: BusState { ata2: AtaState {
                    disk: l.bus.ata2.disk,
                    port_base: l.bus.ata2.port_base,
                    ..captured
                }, ..l.bus }, ata2_seen: true, ..l },
            Ok::<(), Seq<char>>(()),
        ),
{
    reveal(Loading::after_record);
    let none = Seq::<u8>::empty();
    assert(captured.snapshot_bytes() + none == captured.snapshot_bytes());
    crate::ata::law_snapshot_round_trip(captured, l.bus.ata2, none);
}

proof fn lemma_load_pci(l: Loading, captured: Pci)
    ensures
        l.after_record(DEV_PCI, captured.snapshot_bytes()) == (
            Loading { bus: BusState { pci: captured, ..l.bus }, pci_seen: true, ..l },
            Ok::<(), Seq<char>>(()),
        ),
{
    reveal(Loading::after_record);
    let none = Seq::<u8>::empty();
    assert(captured.snapshot_bytes() + none == captured.snapshot_bytes());
    crate::pci::law_snapshot_round_trip(captured, l.bus.pci, none);
}

/// One step of loading a list of records.
proof fn lemma_step(l: Loading, list: Seq<(u8, Seq<u8>)>, next: Loading)
    requires
        list.len() > 0,
        l.after_record(list[0].0, list[0].1) == (next, Ok::<(), Seq<char>>(())),
    ensures
        l.after_all(list) == next.after_all(list.drop_first()),
{
}

proof fn lemma_first_six(captured: BusState, target: BusState, all: Seq<(u8, Seq<u8>)>)
    requires
        capturable(captured),
        all.len() >= 6,
        all.take(6) == captured.device_records().take(6),
    ensures
        Loading::begin(target).after_all(all) == (Loading::begin(
            restored_without_ide(captured, target),
        )).after_all(all.skip(6)),
{
    let first = captured.device_records().take(6);
    assert(all[0] == first[0] && all[1] == first[1] && all[2] == first[2] && all[3] == first[3]
        && all[4] == first[4] && all[5] == first[5]);
    let a1 = all.drop_first();
    let a2 = a1.drop_first();
    let a3 = a2.drop_first();
    let a4 = a3.drop_first();
    let a5 = a4.drop_first();
    let a6 = a5.drop_first();
    assert(a6 == all.skip(6));
    let l0 = Loading::begin(target);
    lemma_load_uart(l0, captured.uart);
    let l1 = l0.after_record(DEV_UART, captured.uart.snapshot_bytes()).0;
    lemma_step(l0, all, l1);
    lemma_load_pic(l1, captured.pic);
    let l2 = l1.after_record(DEV_PIC_MASTER, captured.pic.snapshot_bytes()).0;
    lemma_step(l1, a1, l2);
    lemma_load_slave_pic(l2, captured.slave_pic);
    let l3 = l2.after_record(DEV_PIC_SLAVE, captured.slave_pic.snapshot_bytes()).0;
    lemma_step(l2, a2, l3);
    lemma_load_pit(l3, captured.pit);
    let l4 = l3.after_record(DEV_PIT, captured.pit.snapshot_bytes()).0;
    lemma_step(l3, a3, l4);
    lemma_load_kbd(l4, captured.kbd);
    let l5 = l4.after_record(DEV_KBD, captured.kbd.snapshot_bytes()).0;
    lemma_step(l4, a4, l5);
    lemma_load_cmos(l5, captured.cmos);
    let l6 = l5.after_record(DEV_CMOS, captured.cmos.snapshot_bytes()).0;
    lemma_step(l5, a5, l6);
    assert(l6 == Loading::begin(restored_without_ide(captured, target)));
}

proof fn lemma_record_sizes(captured: BusState)
    requires
        capturable(captured),
    ensures
        forall|i: int|
            0 <= i < 9 ==> #[trigger] captured.device_records()[i].1.len() + 1 < 0x1_0000_0000,
{
    lemma_pic_size(captured.pic);
    lemma_pic_size(captured.slave_pic);
    lemma_pit_size(captured.pit);
    lemma_cmos_size(captured.cmos);
    lemma_ata_size(captured.ata);
    lemma_ata_size(captured.ata2);
    lemma_pci_size(captured.pci);
    lemma_list_sizes(
        captured.uart.snapshot_bytes(),
        captured.pic.snapshot_bytes(),
        captured.slave_pic.snapshot_bytes(),
        captured.pit.snapshot_bytes(),
        captured.kbd.snapshot_bytes(),
        captured.cmos.snapshot_bytes(),
        captured.ata.snapshot_bytes(),
        captured.ata2.snapshot_bytes(),
        captured.pci.snapshot_bytes(),
    );
}

proof fn lemma_list_sizes(
    b1: Seq<u8>,
    b2: Seq<u8>,
    b3: Seq<u8>,
    b4: Seq<u8>,
    b5: Seq<u8>,
    b6: Seq<u8>,
    b7: Seq<u8>,
    b8: Seq<u8>,
    b9: Seq<u8>,
)
    requires
        b1.len() < 0xFFFF_FFFF,
        b2.len() < 0xFFFF_FFFF,
        b3.len() < 0xFFFF_FFFF,
        b4.len() < 0xFFFF_FFFF,
        b5.len() < 0xFFFF_FFFF,
        b6.len() < 0xFFFF_FFFF,
        b7.len() < 0xFFFF_FFFF,
        b8.len() < 0xFFFF_FFFF,
        b9.len() < 0xFFFF_FFFF,
    ensures
        ({
            let list = seq![
                (DEV_UART, b1),
                (DEV_PIC_MASTER, b2),
                (DEV_PIC_SLAVE, b3),
                (DEV_PIT, b4),
                (DEV_KBD, b5),
                (DEV_CMOS, b6),
                (DEV_ATA_PRIMARY, b7),
                (DEV_ATA_SECONDARY, b8),
                (DEV_PCI, b9),
            ];
            forall|i: int| 0 <= i < 9 ==> #[trigger] list[i].1.len() + 1 < 0x1_0000_0000
        }),
{
}

proof fn lemma_pic_size(pic: Pic)
    ensures
        pic.snapshot_bytes().len() == 5,
{
}

proof fn lemma_pit_size(pit: Pit)
    ensures
        pit.snapshot_bytes().len() == 12,
{
}

proof fn lemma_cmos_size(cmos: CmosState)
    requires
        cmos.wf(),
    ensures
        cmos.snapshot_bytes().len() == 129,
{
}

proof fn lemma_ata_size(ata: AtaState)
    ensures
        ata.snapshot_bytes().len() == 20 + ata.buf.len(),
{
}

proof fn lemma_pci_size(pci: Pci)
    ensures
        pci.snapshot_bytes().len() == 10,
{
}

/// A bus restored from a snapshot has the captured state of every device; what
/// stands behind the snapshot is ignored.
pub proof fn law_snapshot_round_trip(captured: BusState, target: BusState, tail: Seq<u8>)
    requires
        capturable(captured),
    ensures
        target.restore_outcome(captured.snapshot_bytes() + tail) == (
            restored(captured, target),
            Ok::<(), Seq<char>>(()),
        ),
{
    let list = captured.device_records();
    let bytes = captured.snapshot_bytes() + tail;
    let l0 = Loading::begin(target);
    lemma_record_sizes(captured);
    assert(bytes[0] == 9);
    law_records_are_read_back(l0, seq![9u8], list, tail);
    assert(seq![9u8] + records(list) + tail == bytes);
    lemma_first_six(captured, target, list);
    let b0 = list.skip(6);
    let b1 = b0.drop_first();
    let b2 = b1.drop_first();
    let b3 = b2.drop_first();
    let l6 = Loading::begin(restored_without_ide(captured, target));
    lemma_load_ata(l6, captured.ata);
    let l7 = l6.after_record(DEV_ATA_PRIMARY, captured.ata.snapshot_bytes()).0;
    assert(b0[0] == (DEV_ATA_PRIMARY, captured.ata.snapshot_bytes()));
    lemma_step(l6, b0, l7);
    lemma_load_ata2(l7, captured.ata2);
    let l8 = l7.after_record(DEV_ATA_SECONDARY, captured.ata2.snapshot_bytes()).0;
    assert(b1[0] == (DEV_ATA_SECONDARY, captured.ata2.snapshot_bytes()));
    lemma_step(l7, b1, l8);
    lemma_load_pci(l8, captured.pci);
    let l9 = l8.after_record(DEV_PCI, captured.pci.snapshot_bytes()).0;
    assert(b2[0] == (DEV_PCI, captured.pci.snapshot_bytes()));
    lemma_step(l8, b2, l9);
    assert(b3.len() == 0);
    assert(l9.finish() == restored(captured, target));
}

/// A restored bus gives the snapshot that it was restored from.
pub proof fn law_restored_bus_gives_the_same_snapshot(captured: BusState, target: BusState)
    ensures
        restored(captured, target).snapshot_bytes() == captured.snapshot_bytes(),
{
    assert(restored(captured, target).device_records() == captured.device_records());
}

/// A snapshot with one more record, of a device that is not known, restores like the
/// snapshot itself, wherever that record stands.
pub proof fn law_snapshot_with_unknown_record_restores(
    captured: BusState,
    target: BusState,
    at: int,
    id: u8,
    payload: Seq<u8>,
)
    requires
        capturable(captured),
        0 <= at <= 9,
        id == 0 || id > 9,
        payload.len() < 0xFFFF_FFFF,
    ensures
        target.restore_outcome(
            seq![10u8] + records(captured.device_records().insert(at, (id, payload))),
        ) == (restored(captured, target), Ok::<(), Seq<char>>(())),
{
    let list = captured.device_records();
    let longer = list.insert(at, (id, payload));
    let none = Seq::<u8>::empty();
    let start = Loading::begin(target);
    lemma_record_sizes(captured);
    assert forall|i: int| 0 <= i < longer.len() implies #[trigger] longer[i].1.len() + 1
        < 0x1_0000_0000 by {
        if i < at {
            assert(list[i].1.len() + 1 < 0x1_0000_0000);
        } else if i > at {
            assert(list[i - 1].1.len() + 1 < 0x1_0000_0000);
        }
    }
    law_records_are_read_back(start, seq![10u8], longer, none);
    assert(seq![10u8] + records(longer) + none == seq![10u8] + records(longer));
    law_records_are_read_back(start, seq![9u8], list, none);
    assert(seq![9u8] + records(list) + none == captured.snapshot_bytes());
    assert(captured.snapshot_bytes() + none == captured.snapshot_bytes());
    law_unknown_record_is_skipped(start, list, at, id, payload);
    law_snapshot_round_trip(captured, target, none);
}

/// A snapshot that was cut off before its end is refused, wherever the cut is; so is
/// the empty one.
pub proof fn law_cut_snapshot_is_refused(captured: BusState, target: BusState, cut: int)
    requires
        capturable(captured),
        0 <= cut < captured.snapshot_bytes().len(),
    ensures
        target.restore_outcome(captured.snapshot_bytes().take(cut)).1 is Err,
{
    let list = captured.device_records();
    if cut > 0 {
        lemma_record_sizes(captured);
        law_cut_records_are_refused(Loading::begin(target), seq![9u8], list, cut - 1);
        assert(captured.snapshot_bytes().take(cut) == seq![9u8] + records(list).take(cut - 1));
    }
}

/// A snapshot with the first six records alone, from before the IDE channels and
/// PCI were captured, restores those six devices and resets the others; the disks
/// stay.
pub proof fn law_six_record_snapshot_restores(captured: BusState, target: BusState)
    requires
        capturable(captured),
    ensures
        target.restore_outcome(seq![6u8] + records(captured.device_records().take(6))) == (
            BusState {
                ata: AtaState::fresh(target.ata.port_base, target.ata.disk),
                ata2: AtaState::fresh(target.ata2.port_base, target.ata2.disk),
                pci: Pci { addr: 0, nic_bar0: 0, nic_command: 0 },
                ..restored_without_ide(captured, target)
            },
            Ok::<(), Seq<char>>(()),
        ),
{
    let list = captured.device_records().take(6);
    let none = Seq::<u8>::empty();
    let bytes = seq![6u8] + records(list);
    lemma_record_sizes(captured);
    assert forall|i: int| 0 <= i < list.len() implies #[trigger] list[i].1.len() + 1
        < 0x1_0000_0000 by {
        assert(captured.device_records()[i].1.len() + 1 < 0x1_0000_0000);
    }
    assert(bytes[0] == 6);
    law_records_are_read_back(Loading::begin(target), seq![6u8], list, none);
    assert(seq![6u8] + records(list) + none == bytes);
    assert(list.take(6) == list);
    lemma_first_six(captured, target, list);
    assert(list.skip(6).len() == 0);
}

/// How a snapshot is laid out: the number of records, which is nine, and then the devices in
/// the order of their numbers.
pub proof fn law_snapshot_layout(bus: BusState)
    ensures
        bus.snapshot_bytes()[0] == 9,
        bus.snapshot_bytes().skip(1) == records(bus.device_records()),
        bus.device_records().len() == 9,
        forall|k: int| 0 <= k < 9 ==> (#[trigger] bus.device_records()[k]).0 == k + 1,
        bus.device_records()[0].1 == bus.uart.snapshot_bytes(),
        bus.device_records()[1].1 == bus.pic.snapshot_bytes(),
        bus.device_records()[2].1 == bus.slave_pic.snapshot_bytes(),
        bus.device_records()[3].1 == bus.pit.snapshot_bytes(),
        bus.device_records()[4].1 == bus.kbd.snapshot_bytes(),
        bus.device_records()[5].1 == bus.cmos.snapshot_bytes(),
        bus.device_records()[6].1 == bus.ata.snapshot_bytes(),
        bus.device_records()[7].1 == bus.ata2.snapshot_bytes(),
        bus.device_records()[8].1 == bus.pci.snapshot_bytes(),
{
    assert(bus.snapshot_bytes().skip(1) =~= records(bus.device_records()));
}

/// How a record is laid out: how many bytes follow, low byte first, then the device's number
/// and its own bytes. Records follow one another.
pub proof fn law_record_layout(id: u8, payload: Seq<u8>, list: Seq<(u8, Seq<u8>)>)
    requires
        payload.len() + 1 < 0x1_0000_0000,
    ensures
        ({
            let r = record(id, payload);
            &&& r.len() == 5 + payload.len()
            &&& r[0] + 256 * (r[1] + 256 * (r[2] + 256 * r[3])) == 1 + payload.len()
            &&& r[4] == id
            &&& r.skip(5) == payload
        }),
        records(Seq::empty()).len() == 0,
        records(seq![(id, payload)] + list) == record(id, payload) + records(list),
{
    reveal(record);
    let r = record(id, payload);
    let v = (1 + payload.len()) as u32;
    assert(r[0] == v % 0x100);
    assert(r[1] == v / 0x100 % 0x100);
    assert(r[2] == v / 0x1_0000 % 0x100);
    assert(r[3] == v / 0x100_0000);
    assert(r.skip(5) =~= payload);
    assert((seq![(id, payload)] + list).drop_first() =~= list);
    assert((seq![(id, payload)] + list)[0] == (id, payload));
}

/// Why a snapshot is refused: there is nothing in it, or a record's header or its body is cut
/// off. A record that is not even as long as its device's number counts as cut off.
pub proof fn law_refusals(bus: BusState, loading: Loading, bytes: Seq<u8>, p: int, count: nat)
    requires
        0 <= p,
        count > 0,
    ensures
        bus.restore_outcome(Seq::empty()) == (bus, Err::<(), Seq<char>>("iobus: empty"@)),
        bytes.len() < p + 4 ==> loading.after_records(bytes, p, count) == (
            loading,
            Err::<(), Seq<char>>("iobus: truncated record header"@),
        ),
        bytes.len() >= p + 4 ==> {
            let n = bytes[p] + 256 * (bytes[p + 1] + 256 * (bytes[p + 2] + 256 * bytes[p + 3]));
            n == 0 || bytes.len() < p + 4 + n ==> loading.after_records(bytes, p, count) == (
                loading,
                Err::<(), Seq<char>>("iobus: truncated record body"@),
            )
        },
{
}

} // verus!
