//! CMOS memory and real-time clock, in the manner of the MC146818.
//!
//! A write to the index port selects one of 128 bytes (bit 7, the NMI mask, is
//! dropped); the data port reads and writes that byte. Times are packed BCD in
//! 24-hour form. Alarm and periodic interrupts are not modelled.

use crate::bytes::put_bytes;
use crate::iobus::IoDevice;
use vstd::prelude::*;

pub mod reg;

verus! {

/// The clock and its memory.
pub struct Cmos {
    pub index_port: u16,
    pub data_port: u16,
    pub storage: [u8; 128],
    pub index: u8,
}

/// What the clock holds.
#[verifier::ext_equal]
pub struct CmosState {
    pub index_port: u16,
    pub data_port: u16,
    pub storage: Seq<u8>,
    pub index: u8,
}

impl View for Cmos {
    type V = CmosState;

    open spec fn view(&self) -> CmosState {
        CmosState {
            index_port: self.index_port,
            data_port: self.data_port,
            storage: self.storage@,
            index: self.index,
        }
    }
}

/// Two decimal digits as one byte: 26 is 0x26. Only the low four bits of the
/// tens are kept, which matters from 160 on.
pub open spec fn bcd(v: u8) -> u8 {
    ((v / 10 % 16) * 16 + v % 10) as u8
}

fn to_bcd(v: u8) -> (b: u8)
    ensures
        b == bcd(v),
{
    (v / 10 % 16) * 16 + v % 10
}

impl CmosState {
    /// The selected byte exists.
    pub open spec fn wf(self) -> bool {
        self.index < 128 && self.storage.len() == 128
    }

    /// The clock at power-on: Thursday 2026-01-01 00:00:00, BCD and 24-hour
    /// mode, battery good.
    pub open spec fn power_on() -> CmosState {
        CmosState {
            index_port: Cmos::INDEX_PORT,
            data_port: Cmos::DATA_PORT,
            storage: Seq::new(
                128,
                |i: int|
                    if i == reg::DAY_OF_WEEK {
                        0x05u8
                    } else if i == reg::DAY_OF_MONTH {
                        0x01
                    } else if i == reg::MONTH {
                        0x01
                    } else if i == reg::YEAR {
                        0x26
                    } else if i == reg::STATUS_A {
                        0x26
                    } else if i == reg::STATUS_B {
                        0x02
                    } else if i == reg::STATUS_D {
                        0x80
                    } else {
                        0
                    },
            ),
            index: 0,
        }
    }

    /// What a read from `port` returns.
    pub open spec fn read_value(self, port: u16) -> u8 {
        if port == self.data_port {
            self.storage[self.index as int]
        } else {
            0
        }
    }

    /// The clock after a write of `value` to `port`.
    pub open spec fn after_write(self, port: u16, value: u8) -> CmosState {
        if port == self.index_port {
            CmosState { index: value % 128, ..self }
        } else if port == self.data_port {
            CmosState { storage: self.storage.update(self.index as int, value), ..self }
        } else {
            self
        }
    }

    /// The 129 bytes that a snapshot holds: the index, then the storage.
    pub open spec fn snapshot_bytes(self) -> Seq<u8> {
        seq![self.index] + self.storage
    }

    /// The clock and the result that `restore` leaves behind.
    pub open spec fn restore_outcome(self, bytes: Seq<u8>) -> (
        CmosState,
        Result<usize, &'static str>,
    ) {
        if bytes.len() < 129 {
            (self, Err("cmos: truncated"))
        } else {
            (
                CmosState { index: bytes[0] % 128, storage: bytes.subrange(1, 129), ..self },
                Ok(129),
            )
        }
    }
}

impl Cmos {
    pub const INDEX_PORT: u16 = 0x70;

    pub const DATA_PORT: u16 = 0x71;

    /// Whether the selected byte exists.
    pub open spec fn wf(self) -> bool {
        self.index < 128
    }

    pub fn new() -> (cmos: Self)
        ensures
            cmos@ == CmosState::power_on(),
            cmos.wf(),
    {
        let mut storage: [u8; 128] = [0u8; 128];
        storage[reg::SECONDS as usize] = to_bcd(0);
        storage[reg::MINUTES as usize] = to_bcd(0);
        storage[reg::HOURS as usize] = to_bcd(0);
        storage[reg::DAY_OF_WEEK as usize] = to_bcd(5);
        storage[reg::DAY_OF_MONTH as usize] = to_bcd(1);
        storage[reg::MONTH as usize] = to_bcd(1);
        storage[reg::YEAR as usize] = to_bcd(26);
        storage[reg::STATUS_A as usize] = 0x26;
        storage[reg::STATUS_B as usize] = 0x02;
        storage[reg::STATUS_C as usize] = 0;
        storage[reg::STATUS_D as usize] = 0x80;
        let cmos = Cmos {
            index_port: Self::INDEX_PORT,
            data_port: Self::DATA_PORT,
            storage,
            index: 0,
        };
        assert(cmos@.storage == CmosState::power_on().storage);
        cmos
    }

    /// Sets the date and time from decimal values; the year has two digits. The
    /// day of the week is left as it is.
    pub fn set_time(&mut self, year: u8, month: u8, day: u8, hour: u8, minute: u8, second: u8)
        ensures
            final(self)@ == (CmosState {
                storage: old(self)@.storage.update(reg::SECONDS as int, bcd(second)).update(
                    reg::MINUTES as int,
                    bcd(minute),
                ).update(reg::HOURS as int, bcd(hour)).update(reg::DAY_OF_MONTH as int, bcd(day)).update(
                    reg::MONTH as int,
                    bcd(month),
                ).update(reg::YEAR as int, bcd(year)),
                ..old(self)@
            }),
    {
        self.storage[reg::SECONDS as usize] = to_bcd(second);
        self.storage[reg::MINUTES as usize] = to_bcd(minute);
        self.storage[reg::HOURS as usize] = to_bcd(hour);
        self.storage[reg::DAY_OF_MONTH as usize] = to_bcd(day);
        self.storage[reg::MONTH as usize] = to_bcd(month);
        self.storage[reg::YEAR as usize] = to_bcd(year);
    }

    /// Reads a byte from the host side, past the index latch.
    pub fn storage_byte(&self, idx: u8) -> (value: u8)
        ensures
            value == self@.storage[idx as int % 128],
    {
        self.storage[(idx % 128) as usize]
    }

    /// Writes a byte from the host side, past the index latch.
    pub fn set_storage_byte(&mut self, idx: u8, value: u8)
        ensures
            final(self)@ == (CmosState {
                storage: old(self)@.storage.update(idx as int % 128, value),
                ..old(self)@
            }),
    {
        self.storage[(idx % 128) as usize] = value;
    }

    /// Appends the index and the storage to `out`.
    pub fn snapshot_into(&self, out: &mut Vec<u8>)
        ensures
            final(out)@ == old(out)@ + self@.snapshot_bytes(),
    {
        out.push(self.index);
        put_bytes(out, &self.storage);
    }

    /// Takes back what `snapshot_into` wrote and returns its length. The index
    /// is reduced to the storage, so it is valid whatever the bytes say.
    pub fn restore(&mut self, bytes: &[u8]) -> (r: Result<usize, &'static str>)
        ensures
            (final(self)@, r) == old(self)@.restore_outcome(bytes@),
            r is Ok ==> final(self).wf(),
    {
        if bytes.len() < 129 {
            return Err("cmos: truncated");
        }
        self.index = bytes[0] % 128;
        let mut i: usize = 0;
        while i < 128
            invariant
                i <= 128,
                bytes@.len() >= 129,
                self.index_port == old(self).index_port,
                self.data_port == old(self).data_port,
                self.index == bytes@[0] % 128,
                forall|j: int| 0 <= j < i ==> self.storage@[j] == bytes@[j + 1],
            decreases 128 - i,
        {
            self.storage[i] = bytes[i + 1];
            i = i + 1;
        }
        assert(self@.storage == bytes@.subrange(1, 129));
        Ok(129)
    }
}

impl Default for Cmos {
    fn default() -> (cmos: Self)
        ensures
            cmos@ == CmosState::power_on(),
            cmos.wf(),
    {
        Self::new()
    }
}

impl IoDevice for Cmos {
    open spec fn fits_port_space(&self) -> bool {
        self@.index_port <= self@.data_port
    }

    open spec fn accepts(&self, port: u16) -> bool {
        self.wf()
    }

    fn port_range(&self) -> (range: (u16, u16))
        ensures
            range == (self@.index_port, self@.data_port),
    {
        (self.index_port, self.data_port)
    }

    fn read(&mut self, port: u16) -> (value: u8)
        ensures
            value == old(self)@.read_value(port),
            *final(self) == *old(self),
    {
        if port == self.data_port {
            self.storage[self.index as usize]
        } else {
            0
        }
    }

    fn write(&mut self, port: u16, value: u8)
        ensures
            final(self)@ == old(self)@.after_write(port, value),
            final(self).wf(),
    {
        if port == self.index_port {
            self.index = value % 128;
        } else if port == self.data_port {
            self.storage[self.index as usize] = value;
        }
    }
}

/// The data port reads back what was last written to it, as often as it is
/// read, and selecting another byte and coming back does not lose it.
pub proof fn law_data_reads_back(cmos: CmosState, at: u8, value: u8, other: u8)
    requires
        cmos.wf(),
        cmos.index_port != cmos.data_port,
    ensures
        ({
            let written = cmos.after_write(cmos.index_port, at).after_write(cmos.data_port, value);
            &&& written.wf()
            &&& written.read_value(cmos.data_port) == value
            &&& written.after_write(cmos.index_port, other).after_write(
                cmos.index_port,
                at,
            ).read_value(cmos.data_port) == value
        }),
{
}

/// The NMI mask bit of an index write is ignored.
pub proof fn law_nmi_bit_is_dropped(cmos: CmosState, at: u8)
    requires
        at < 128,
    ensures
        cmos.after_write(cmos.index_port, (at + 128) as u8) == cmos.after_write(
            cmos.index_port,
            at,
        ),
{
}

/// A two-digit value stored as BCD shows its two digits.
pub proof fn law_bcd_digits(v: u8)
    requires
        v < 100,
    ensures
        bcd(v) / 16 == v / 10,
        bcd(v) % 16 == v % 10,
{
}

/// A restored clock has the captured index and storage, at its own ports.
pub proof fn law_snapshot_round_trip(captured: CmosState, target: CmosState, tail: Seq<u8>)
    requires
        captured.wf(),
    ensures
        target.restore_outcome(captured.snapshot_bytes() + tail) == (
            CmosState { index_port: target.index_port, data_port: target.data_port, ..captured },
            Ok::<usize, &'static str>(129),
        ),
{
    assert((captured.snapshot_bytes() + tail).subrange(1, 129) == captured.storage);
}

/// A byte written through the ports changes that byte and no other; the index port itself
/// reads as zero.
pub proof fn law_data_write_is_local(cmos: CmosState, at: u8, value: u8, i: int)
    requires
        cmos.wf(),
        cmos.index_port != cmos.data_port,
        0 <= i < 128,
    ensures
        ({
            let later = cmos.after_write(cmos.index_port, at).after_write(cmos.data_port, value);
            &&& later.storage[i] == (if i == at % 128 {
                value
            } else {
                cmos.storage[i]
            })
            &&& later.index == at % 128
            &&& later.read_value(cmos.index_port) == 0
        }),
{
}

/// At power-on the clock shows 2026-01-01 00:00:00, a Thursday, in BCD and in 24-hour
/// form, with a good battery: seconds, minutes and hours stand at 0, 2 and 4, the day of
/// the week, the day, the month and the year at 6 to 9, the status from 10 on.
pub proof fn law_power_on_date(i: int)
    requires
        0 <= i < 128,
    ensures
        ({
            let s = CmosState::power_on().storage;
            &&& s.len() == 128
            &&& s[0] == 0 && s[2] == 0 && s[4] == 0
            &&& s[6] == 5 && s[7] == 1 && s[8] == 1 && s[9] == 0x26
            &&& s[10] == 0x26 && s[11] == 2 && s[12] == 0 && s[13] == 0x80
            &&& i > 13 ==> s[i] == 0
        }),
        CmosState::power_on().index_port == 0x70,
        CmosState::power_on().data_port == 0x71,
        reg::SECONDS == 0 && reg::MINUTES == 2 && reg::HOURS == 4 && reg::DAY_OF_MONTH == 7
            && reg::MONTH == 8 && reg::YEAR == 9,
{
}

/// A snapshot is the index and the 128 bytes.
pub proof fn law_snapshot_layout(cmos: CmosState)
    requires
        cmos.wf(),
    ensures
        cmos.snapshot_bytes().len() == 129,
        cmos.snapshot_bytes()[0] == cmos.index,
        cmos.snapshot_bytes().skip(1) == cmos.storage,
{
    assert(cmos.snapshot_bytes().skip(1) =~= cmos.storage);
}

/// Which snapshots are refused: those with less than 129 bytes, of which nothing is loaded.
pub proof fn law_short_snapshots(cmos: CmosState, bytes: Seq<u8>)
    ensures
        bytes.len() <= 128 ==> cmos.restore_outcome(bytes) == (
            cmos,
            Err::<usize, &'static str>("cmos: truncated"),
        ),
        bytes.len() >= 129 ==> cmos.restore_outcome(bytes).1 == Ok::<usize, &'static str>(129),
{
}

} // verus!
