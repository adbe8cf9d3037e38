//! Guest physical memory: flat RAM and two windows of memory-mapped timers.
//!
//! Bytes that are not backed by anything read as zero and ignore writes. The
//! local APIC window keeps what is written to it, counts its timer down and
//! queues the timer's interrupt; the HPET window does the same for its counter
//! and three comparators. Both share one interrupt slot.

use crate::bytes::{get_le_u32, get_le_u64, le_u32, le_u64, lemma_stored_le32, stored_le32};
use vstd::prelude::*;

verus! {

/// First address of the local APIC window.
pub const LAPIC_BASE: u32 = 0xFEE0_0000;

/// Size of the local APIC window.
pub const LAPIC_SIZE: u32 = 0x1000;

/// First address of the HPET window.
pub const HPET_BASE: u32 = 0xFED0_0000;

/// Size of the HPET window.
pub const HPET_SIZE: u32 = 0x0400;

/// APIC register: timer entry of the local vector table.
pub const LVT_TIMER: usize = 0x320;

/// APIC register: initial count of the timer.
pub const INITIAL_COUNT: usize = 0x380;

/// APIC register: current count of the timer.
pub const CURRENT_COUNT: usize = 0x390;

/// HPET register: general configuration.
pub const HPET_CONFIG: usize = 0x010;

/// HPET register: main counter.
pub const HPET_COUNTER: usize = 0x0F0;

/// Guest memory.
pub struct Memory {
    pub bytes: Vec<u8>,
    pub lapic: [u8; 0x1000],
    pub hpet: [u8; 0x400],
    pub pending_lapic_irq: Option<u8>,
}

/// What the memory holds.
#[verifier::ext_equal]
pub struct MemState {
    pub ram: Seq<u8>,
    pub lapic: Seq<u8>,
    pub hpet: Seq<u8>,
    pub pending: Option<u8>,
}

impl View for Memory {
    type V = MemState;

    open spec fn view(&self) -> MemState {
        MemState {
            ram: self.bytes@,
            lapic: self.lapic@,
            hpet: self.hpet@,
            pending: self.pending_lapic_irq,
        }
    }
}

pub open spec fn in_lapic(addr: u32) -> bool {
    LAPIC_BASE <= addr < LAPIC_BASE + LAPIC_SIZE
}

pub open spec fn in_hpet(addr: u32) -> bool {
    HPET_BASE <= addr < HPET_BASE + HPET_SIZE
}

/// The address `k` above `addr`; addresses wrap round.
pub open spec fn above(addr: u32, k: int) -> u32 {
    ((addr + k) % 0x1_0000_0000) as u32
}

/// The APIC window at reset: version 0x14 with six vector-table entries.
pub open spec fn lapic_reset() -> Seq<u8> {
    Seq::new(
        0x1000,
        |i: int|
            if i == 0x30 {
                0x14u8
            } else if i == 0x32 {
                0x06
            } else {
                0
            },
    )
}

/// The HPET window at reset: three 64-bit timers, vendor 0x8086, a period of
/// 100 ns (in femtoseconds).
pub open spec fn hpet_reset() -> Seq<u8> {
    stored_le32(stored_le32(Seq::new(0x400, |i: int| 0u8), 0, 0x8086_A201), 4, 0x05F5_E100)
}

impl MemState {
    /// The windows have their sizes.
    pub open spec fn wf(self) -> bool {
        self.lapic.len() == 0x1000 && self.hpet.len() == 0x400
    }

    /// Whether something backs the byte at `addr`.
    pub open spec fn mapped(self, addr: u32) -> bool {
        in_lapic(addr) || in_hpet(addr) || addr < self.ram.len()
    }

    /// The byte at `addr`.
    pub open spec fn byte(self, addr: u32) -> u8 {
        if in_lapic(addr) {
            self.lapic[addr - LAPIC_BASE]
        } else if in_hpet(addr) {
            self.hpet[addr - HPET_BASE]
        } else if addr < self.ram.len() {
            self.ram[addr as int]
        } else {
            0
        }
    }

    /// The 16-bit number at `addr`.
    pub open spec fn half(self, addr: u32) -> u16 {
        (self.byte(addr) + 0x100 * self.byte(above(addr, 1))) as u16
    }

    /// The 32-bit number at `addr`.
    pub open spec fn word(self, addr: u32) -> u32 {
        (self.half(addr) + 0x1_0000 * self.half(above(addr, 2))) as u32
    }

    /// The memory after `value` has been written to `addr`. A byte of the timer's
    /// initial count also goes to the current count.
    pub open spec fn after_byte(self, addr: u32, value: u8) -> MemState {
        if in_lapic(addr) {
            let off = addr - LAPIC_BASE;
            let stored = self.lapic.update(off, value);
            MemState {
                lapic: if INITIAL_COUNT <= off < INITIAL_COUNT + 4 {
                    stored.update(CURRENT_COUNT + (off - INITIAL_COUNT), value)
                } else {
                    stored
                },
                ..self
            }
        } else if in_hpet(addr) {
            MemState { hpet: self.hpet.update(addr - HPET_BASE, value), ..self }
        } else if addr < self.ram.len() {
            MemState { ram: self.ram.update(addr as int, value), ..self }
        } else {
            self
        }
    }

    /// The memory after a 16-bit write, low byte first.
    pub open spec fn after_half(self, addr: u32, value: u16) -> MemState {
        self.after_byte(addr, (value % 0x100) as u8).after_byte(
            above(addr, 1),
            (value / 0x100) as u8,
        )
    }

    /// The memory after a 32-bit write, low half first.
    pub open spec fn after_word(self, addr: u32, value: u32) -> MemState {
        self.after_half(addr, (value % 0x1_0000) as u16).after_half(
            above(addr, 2),
            (value / 0x1_0000) as u16,
        )
    }

    /// The current count of the APIC timer.
    pub open spec fn lapic_count(self) -> u32 {
        le_u32(self.lapic, CURRENT_COUNT as int)
    }

    /// The timer entry of the local vector table: vector, mask bit, mode.
    pub open spec fn lvt(self) -> u32 {
        le_u32(self.lapic, LVT_TIMER as int)
    }

    pub open spec fn lvt_masked(self) -> bool {
        self.lvt() / 0x1_0000 % 2 == 1
    }

    pub open spec fn lvt_periodic(self) -> bool {
        self.lvt() / 0x2_0000 % 4 == 1
    }

    /// The memory after one tick of the APIC timer. A timer at zero stands still.
    /// On arrival at zero an unmasked timer queues its vector, unless one is
    /// queued already, and a periodic timer starts again from its initial count.
    pub open spec fn lapic_ticked(self) -> MemState {
        let count = self.lapic_count();
        if count == 0 {
            self
        } else if count > 1 {
            MemState {
                lapic: stored_le32(self.lapic, CURRENT_COUNT as int, (count - 1) as u32),
                ..self
            }
        } else {
            MemState {
                lapic: stored_le32(
                    self.lapic,
                    CURRENT_COUNT as int,
                    if self.lvt_periodic() {
                        le_u32(self.lapic, INITIAL_COUNT as int)
                    } else {
                        0
                    },
                ),
                pending: if !self.lvt_masked() && self.pending is None {
                    Some((self.lvt() % 0x100) as u8)
                } else {
                    self.pending
                },
                ..self
            }
        }
    }

    /// The main counter of the HPET.
    pub open spec fn hpet_count(self) -> u64 {
        le_u64(self.hpet, HPET_COUNTER as int)
    }

    pub open spec fn hpet_enabled(self) -> bool {
        self.hpet[HPET_CONFIG as int] % 2 == 1
    }

    /// What timer `n` of the HPET queues when the counter reaches `count`: the
    /// vector of a timer whose interrupt and direct delivery are both enabled and
    /// whose comparator has that value.
    pub open spec fn hpet_match(self, n: int, count: u64) -> Option<u8> {
        let base = 0x100 + 0x20 * n;
        let config = le_u32(self.hpet, base);
        if config / 4 % 2 == 1 && config / 0x4000 % 2 == 1 && le_u64(self.hpet, base + 8) == count {
            Some((le_u32(self.hpet, base + 0x10) % 0x100) as u8)
        } else {
            None
        }
    }

    /// The memory after one tick of the HPET: an enabled counter goes up by one,
    /// and the first timer that matches queues its vector unless one is queued
    /// already.
    pub open spec fn hpet_ticked(self) -> MemState {
        if !self.hpet_enabled() {
            self
        } else {
            let next = ((self.hpet_count() + 1) % 0x1_0000_0000_0000_0000) as u64;
            let counted = MemState {
                hpet: stored_le32(
                    stored_le32(
                        self.hpet,
                        HPET_COUNTER as int,
                        (next % 0x1_0000_0000) as u32,
                    ),
                    HPET_COUNTER + 4,
                    (next / 0x1_0000_0000) as u32,
                ),
                ..self
            };
            MemState {
                pending: if self.pending is Some {
                    self.pending
                } else if counted.hpet_match(0, next) is Some {
                    counted.hpet_match(0, next)
                } else if counted.hpet_match(1, next) is Some {
                    counted.hpet_match(1, next)
                } else {
                    counted.hpet_match(2, next)
                },
                ..counted
            }
        }
    }
}

impl Memory {
    /// `size` bytes of zeroed RAM, and both windows at reset.
    pub fn new(size: usize) -> (mem: Self)
        ensures
            mem@ == (MemState {
                ram: Seq::new(size as nat, |i: int| 0u8),
                lapic: lapic_reset(),
                hpet: hpet_reset(),
                pending: None,
            }),
    {
        let mut lapic: [u8; 0x1000] = [0u8; 0x1000];
        lapic[0x30] = 0x14;
        lapic[0x32] = 0x06;
        let mut hpet: [u8; 0x400] = [0u8; 0x400];
        hpet[0x00] = 0x01;
        hpet[0x01] = 0xA2;
        hpet[0x02] = 0x86;
        hpet[0x03] = 0x80;
        hpet[0x04] = 0x00;
        hpet[0x05] = 0xE1;
        hpet[0x06] = 0xF5;
        hpet[0x07] = 0x05;
        let bytes: Vec<u8> = vec![0u8; size];
        let mem = Memory { bytes, lapic, hpet, pending_lapic_irq: None };
        assert(mem@.ram == Seq::new(size as nat, |i: int| 0u8));
        assert(mem@.lapic == lapic_reset());
        assert(mem@.hpet == hpet_reset());
        mem
    }

    /// Bytes of RAM.
    pub fn size(&self) -> (n: usize)
        ensures
            n == self@.ram.len(),
    {
        self.bytes.len()
    }

    /// Grows the RAM with zeros; it never shrinks.
    pub fn resize(&mut self, new_size: usize)
        ensures
            new_size <= old(self)@.ram.len() ==> final(self)@ == old(self)@,
            new_size > old(self)@.ram.len() ==> final(self)@ == (MemState {
                ram: old(self)@.ram + Seq::new(
                    (new_size - old(self)@.ram.len()) as nat,
                    |i: int| 0u8,
                ),
                ..old(self)@
            }),
    {
        if new_size > self.bytes.len() {
            self.bytes.resize(new_size, 0);
            assert(self@.ram == old(self)@.ram + Seq::new(
                (new_size - old(self)@.ram.len()) as nat,
                |i: int| 0u8,
            ));
        }
    }

    fn is_lapic(addr: u32) -> (b: bool)
        ensures
            b == in_lapic(addr),
    {
        LAPIC_BASE <= addr && addr < LAPIC_BASE + LAPIC_SIZE
    }

    fn is_hpet(addr: u32) -> (b: bool)
        ensures
            b == in_hpet(addr),
    {
        HPET_BASE <= addr && addr < HPET_BASE + HPET_SIZE
    }

    pub fn read_u8(&self, addr: u32) -> (value: u8)
        ensures
            value == self@.byte(addr),
    {
        if Self::is_lapic(addr) {
            return self.lapic[(addr - LAPIC_BASE) as usize];
        }
        if Self::is_hpet(addr) {
            return self.hpet[(addr - HPET_BASE) as usize];
        }
        let a: usize = addr as usize;
        if a < self.bytes.len() {
            self.bytes[a]
        } else {
            0
        }
    }

    pub fn write_u8(&mut self, addr: u32, value: u8)
        ensures
            final(self)@ == old(self)@.after_byte(addr, value),
    {
        if Self::is_lapic(addr) {
            let off: usize = (addr - LAPIC_BASE) as usize;
            self.lapic[off] = value;
            if INITIAL_COUNT <= off && off < INITIAL_COUNT + 4 {
                self.lapic[CURRENT_COUNT + (off - INITIAL_COUNT)] = value;
            }
            return ;
        }
        if Self::is_hpet(addr) {
            self.hpet[(addr - HPET_BASE) as usize] = value;
            return ;
        }
        let a: usize = addr as usize;
        if a < self.bytes.len() {
            self.bytes[a] = value;
        }
    }

    fn set_current_count(&mut self, v: u32)
        ensures
            final(self)@ == (MemState {
                lapic: stored_le32(old(self)@.lapic, CURRENT_COUNT as int, v),
                ..old(self)@
            }),
    {
        self.lapic[CURRENT_COUNT] = (v % 0x100) as u8;
        self.lapic[CURRENT_COUNT + 1] = (v / 0x100 % 0x100) as u8;
        self.lapic[CURRENT_COUNT + 2] = (v / 0x1_0000 % 0x100) as u8;
        self.lapic[CURRENT_COUNT + 3] = (v / 0x100_0000) as u8;
    }

    fn set_hpet_u32(&mut self, at: usize, v: u32)
        requires
            at + 4 <= 0x400,
        ensures
            final(self)@ == (MemState {
                hpet: stored_le32(old(self)@.hpet, at as int, v),
                ..old(self)@
            }),
    {
        self.hpet[at] = (v % 0x100) as u8;
        self.hpet[at + 1] = (v / 0x100 % 0x100) as u8;
        self.hpet[at + 2] = (v / 0x1_0000 % 0x100) as u8;
        self.hpet[at + 3] = (v / 0x100_0000) as u8;
    }

    /// One tick of the APIC timer.
    pub fn tick_lapic_timer(&mut self)
        ensures
            final(self)@ == old(self)@.lapic_ticked(),
    {
        let count: u32 = get_le_u32(&self.lapic, CURRENT_COUNT);
        if count == 0 {
            return ;
        }
        if count > 1 {
            self.set_current_count(count - 1);
            return ;
        }
        let lvt: u32 = get_le_u32(&self.lapic, LVT_TIMER);
        if lvt / 0x1_0000 % 2 != 1 && self.pending_lapic_irq.is_none() {
            self.pending_lapic_irq = Some((lvt % 0x100) as u8);
        }
        let next: u32 = if lvt / 0x2_0000 % 4 == 1 {
            get_le_u32(&self.lapic, INITIAL_COUNT)
        } else {
            0
        };
        self.set_current_count(next);
    }

    /// Hands out the queued timer interrupt, if there is one.
    pub fn take_pending_lapic_irq(&mut self) -> (vector: Option<u8>)
        ensures
            vector == old(self)@.pending,
            final(self)@ == (MemState { pending: None, ..old(self)@ }),
    {
        let vector: Option<u8> = self.pending_lapic_irq;
        self.pending_lapic_irq = None;
        vector
    }

    fn hpet_timer_match(&self, n: usize, count: u64) -> (vector: Option<u8>)
        requires
            n < 3,
        ensures
            vector == self@.hpet_match(n as int, count),
    {
        let base: usize = 0x100 + 0x20 * n;
        let config: u32 = get_le_u32(&self.hpet, base);
        if config / 4 % 2 == 1 && config / 0x4000 % 2 == 1 && get_le_u64(&self.hpet, base + 8)
            == count {
            Some((get_le_u32(&self.hpet, base + 0x10) % 0x100) as u8)
        } else {
            None
        }
    }

    /// One tick of the HPET counter.
    pub fn tick_hpet_counter(&mut self)
        ensures
            final(self)@ == old(self)@.hpet_ticked(),
    {
        if self.hpet[HPET_CONFIG] % 2 != 1 {
            return ;
        }
        let count: u64 = get_le_u64(&self.hpet, HPET_COUNTER);
        let next: u64 = count.wrapping_add(1);
        assert(next == (self@.hpet_count() + 1) % 0x1_0000_0000_0000_0000);
        self.set_hpet_u32(HPET_COUNTER, (next % 0x1_0000_0000) as u32);
        self.set_hpet_u32(HPET_COUNTER + 4, (next / 0x1_0000_0000) as u32);
        let ghost counted = self@;
        let mut n: usize = 0;
        while n < 3
            invariant
                n <= 3,
                self@ == (MemState { pending: self@.pending, ..counted }),
                self@.pending == (if counted.pending is Some {
                    counted.pending
                } else if n > 0 && counted.hpet_match(0, next) is Some {
                    counted.hpet_match(0, next)
                } else if n > 1 && counted.hpet_match(1, next) is Some {
                    counted.hpet_match(1, next)
                } else if n > 2 {
                    counted.hpet_match(2, next)
                } else {
                    None
                }),
            decreases 3 - n,
        {
            let hit: Option<u8> = self.hpet_timer_match(n, next);
            assert(hit == counted.hpet_match(n as int, next));
            if self.pending_lapic_irq.is_none() {
                self.pending_lapic_irq = hit;
            }
            n = n + 1;
        }
    }

    pub fn read_u16(&self, addr: u32) -> (value: u16)
        ensures
            value == self@.half(addr),
    {
        let lo: u16 = self.read_u8(addr) as u16;
        let hi: u16 = self.read_u8(next_addr(addr, 1)) as u16;
        lo + 0x100 * hi
    }

    pub fn write_u16(&mut self, addr: u32, value: u16)
        ensures
            final(self)@ == old(self)@.after_half(addr, value),
    {
        self.write_u8(addr, (value % 0x100) as u8);
        self.write_u8(next_addr(addr, 1), (value / 0x100) as u8);
    }

    pub fn read_u32(&self, addr: u32) -> (value: u32)
        ensures
            value == self@.word(addr),
    {
        let lo: u32 = self.read_u16(addr) as u32;
        let hi: u32 = self.read_u16(next_addr(addr, 2)) as u32;
        lo + 0x1_0000 * hi
    }

    pub fn write_u32(&mut self, addr: u32, value: u32)
        ensures
            final(self)@ == old(self)@.after_word(addr, value),
    {
        self.write_u16(addr, (value % 0x1_0000) as u16);
        self.write_u16(next_addr(addr, 2), (value / 0x1_0000) as u16);
    }

    /// Copies `data` into RAM from `addr` on; what does not fit is dropped. The
    /// windows are not reached this way.
    pub fn write_slice(&mut self, addr: u32, data: &[u8])
        ensures
            final(self)@ == (MemState {
                ram: Seq::new(
                    old(self)@.ram.len(),
                    |i: int|
                        if addr <= i < addr + data@.len() {
                            data@[i - addr]
                        } else {
                            old(self)@.ram[i]
                        },
                ),
                ..old(self)@
            }),
    {
        let start: usize = addr as usize;
        let size: usize = self.bytes.len();
        let n: usize = if start >= size {
            0
        } else if data.len() <= size - start {
            data.len()
        } else {
            size - start
        };
        let mut i: usize = 0;
        while i < n
            invariant
                i <= n <= data@.len(),
                start == addr,
                n > 0 ==> start + n <= size,
                size == old(self)@.ram.len(),
                self@ == (MemState { ram: self@.ram, ..old(self)@ }),
                self@.ram.len() == size,
                forall|j: int|
                    0 <= j < size ==> #[trigger] self@.ram[j] == (if start <= j < start + i {
                        data@[j - start]
                    } else {
                        old(self)@.ram[j]
                    }),
            decreases n - i,
        {
            self.bytes[start + i] = data[i];
            i = i + 1;
        }
        assert(self@.ram == Seq::new(
            old(self)@.ram.len(),
            |i: int|
                if addr <= i < addr + data@.len() {
                    data@[i - addr]
                } else {
                    old(self)@.ram[i]
                },
        ));
    }

    /// All of RAM.
    pub fn as_slice(&self) -> (ram: &[u8])
        ensures
            ram@ == self@.ram,
    {
        self.bytes.as_slice()
    }

    /// Replaces all of RAM. Data of another size is refused with the size that is
    /// expected.
    pub fn restore_full(&mut self, data: &[u8]) -> (r: Result<(), usize>)
        ensures
            data@.len() == old(self)@.ram.len() ==> r is Ok && final(self)@ == (MemState {
                ram: data@,
                ..old(self)@
            }),
            data@.len() != old(self)@.ram.len() ==> r == Err::<(), usize>(
                old(self)@.ram.len() as usize,
            ) && final(self)@ == old(self)@,
    {
        let size: usize = self.bytes.len();
        if data.len() != size {
            return Err(size);
        }
        let mut i: usize = 0;
        while i < size
            invariant
                i <= size == data@.len(),
                self@ == (MemState { ram: self@.ram, ..old(self)@ }),
                self@.ram.len() == size,
                forall|j: int| 0 <= j < i ==> self@.ram[j] == data@[j],
            decreases size - i,
        {
            self.bytes[i] = data[i];
            i = i + 1;
        }
        assert(self@.ram == data@);
        Ok(())
    }

    /// The local APIC window.
    pub fn lapic_bytes(&self) -> (window: &[u8])
        ensures
            window@ == self@.lapic,
    {
        &self.lapic
    }

    /// Replaces the local APIC window, as `restore_full` does for RAM.
    pub fn restore_lapic(&mut self, data: &[u8]) -> (r: Result<(), usize>)
        ensures
            data@.len() == 0x1000 ==> r is Ok && final(self)@ == (MemState {
                lapic: data@,
                ..old(self)@
            }),
            data@.len() != 0x1000 ==> r == Err::<(), usize>(0x1000) && final(self)@ == old(self)@,
    {
        if data.len() != 0x1000 {
            return Err(0x1000);
        }
        let mut i: usize = 0;
        while i < 0x1000
            invariant
                i <= 0x1000 == data@.len(),
                self@ == (MemState { lapic: self@.lapic, ..old(self)@ }),
                self@.lapic.len() == 0x1000,
                forall|j: int| 0 <= j < i ==> self@.lapic[j] == data@[j],
            decreases 0x1000 - i,
        {
            self.lapic[i] = data[i];
            i = i + 1;
        }
        assert(self@.lapic == data@);
        Ok(())
    }

    /// The HPET window.
    pub fn hpet_bytes(&self) -> (window: &[u8])
        ensures
            window@ == self@.hpet,
    {
        &self.hpet
    }

    /// Replaces the HPET window, as `restore_full` does for RAM.
    pub fn restore_hpet(&mut self, data: &[u8]) -> (r: Result<(), usize>)
        ensures
            data@.len() == 0x400 ==> r is Ok && final(self)@ == (MemState {
                hpet: data@,
                ..old(self)@
            }),
            data@.len() != 0x400 ==> r == Err::<(), usize>(0x400) && final(self)@ == old(self)@,
    {
        if data.len() != 0x400 {
            return Err(0x400);
        }
        let mut i: usize = 0;
        while i < 0x400
            invariant
                i <= 0x400 == data@.len(),
                self@ == (MemState { hpet: self@.hpet, ..old(self)@ }),
                self@.hpet.len() == 0x400,
                forall|j: int| 0 <= j < i ==> self@.hpet[j] == data@[j],
            decreases 0x400 - i,
        {
            self.hpet[i] = data[i];
            i = i + 1;
        }
        assert(self@.hpet == data@);
        Ok(())
    }
}

fn next_addr(addr: u32, k: u32) -> (r: u32)
    ensures
        r == above(addr, k as int),
{
    addr.wrapping_add(k)
}

/// A byte that is backed by something reads back what was written; one that is
/// not reads as zero and nothing changes.
pub proof fn law_byte_reads_back(mem: MemState, addr: u32, value: u8)
    requires
        mem.wf(),
    ensures
        mem.mapped(addr) ==> mem.after_byte(addr, value).byte(addr) == value,
        !mem.mapped(addr) ==> mem.byte(addr) == 0 && mem.after_byte(addr, value) == mem,
        mem.after_byte(addr, value).wf(),
{
}

/// A byte write changes no other byte, but for the current count of the APIC
/// timer under a write to the initial count.
pub proof fn law_byte_write_is_local(mem: MemState, addr: u32, value: u8, other: u32)
    requires
        mem.wf(),
        other != addr,
        !(LAPIC_BASE + INITIAL_COUNT <= addr < LAPIC_BASE + INITIAL_COUNT + 4 && other == addr
            + 0x10),
    ensures
        mem.after_byte(addr, value).byte(other) == mem.byte(other),
{
}

/// A 16-bit number reads back, low byte at the lower address.
pub proof fn law_half_reads_back(mem: MemState, addr: u32, value: u16)
    requires
        mem.wf(),
        mem.mapped(addr),
        mem.mapped(above(addr, 1)),
    ensures
        mem.after_half(addr, value).half(addr) == value,
        mem.after_half(addr, value).byte(addr) == value % 0x100,
        mem.after_half(addr, value).byte(above(addr, 1)) == value / 0x100,
        mem.after_half(addr, value).wf(),
{
    let one = mem.after_byte(addr, (value % 0x100) as u8);
    law_byte_reads_back(mem, addr, (value % 0x100) as u8);
    law_byte_reads_back(one, above(addr, 1), (value / 0x100) as u8);
    law_byte_write_is_local(one, above(addr, 1), (value / 0x100) as u8, addr);
}

/// A 32-bit number reads back.
pub proof fn law_word_reads_back(mem: MemState, addr: u32, value: u32)
    requires
        mem.wf(),
        mem.mapped(addr),
        mem.mapped(above(addr, 1)),
        mem.mapped(above(addr, 2)),
        mem.mapped(above(addr, 3)),
    ensures
        mem.after_word(addr, value).word(addr) == value,
{
    let lo = (value % 0x1_0000) as u16;
    let hi = (value / 0x1_0000) as u16;
    let a1 = above(addr, 1);
    let a2 = above(addr, 2);
    let a3 = above(addr, 3);
    assert(above(a2, 1) == a3);
    law_half_reads_back(mem, addr, lo);
    let one = mem.after_half(addr, lo);
    law_half_reads_back(one, a2, hi);
    let b = (hi % 0x100) as u8;
    let c = (hi / 0x100) as u8;
    let two = one.after_byte(a2, b);
    law_byte_reads_back(one, a2, b);
    law_byte_write_is_local(one, a2, b, addr);
    law_byte_write_is_local(one, a2, b, a1);
    law_byte_write_is_local(two, a3, c, addr);
    law_byte_write_is_local(two, a3, c, a1);
    assert(mem.after_word(addr, value).half(addr) == lo);
    assert(mem.after_word(addr, value).half(a2) == hi);
}

/// Writing the initial count starts the timer from it.
pub proof fn law_initial_count_starts_timer(mem: MemState, value: u32)
    requires
        mem.wf(),
    ensures
        mem.after_word((LAPIC_BASE + INITIAL_COUNT) as u32, value).lapic_count() == value,
{
    let a = (LAPIC_BASE + INITIAL_COUNT) as u32;
    let lo = (value % 0x1_0000) as u16;
    let hi = (value / 0x1_0000) as u16;
    let m1 = mem.after_byte(a, (lo % 0x100) as u8);
    let m2 = m1.after_byte((a + 1) as u32, (lo / 0x100) as u8);
    let m3 = m2.after_byte((a + 2) as u32, (hi % 0x100) as u8);
    let m4 = m3.after_byte((a + 3) as u32, (hi / 0x100) as u8);
    assert(m4 == mem.after_word(a, value));
    assert(m4.lapic[0x390] == lo % 0x100);
    assert(m4.lapic[0x391] == lo / 0x100);
    assert(m4.lapic[0x392] == hi % 0x100);
    assert(m4.lapic[0x393] == hi / 0x100);
}

/// The memory after `n` ticks of the APIC timer.
pub open spec fn after_lapic_ticks(mem: MemState, n: nat) -> MemState
    decreases n,
{
    if n == 0 {
        mem
    } else {
        after_lapic_ticks(mem, (n - 1) as nat).lapic_ticked()
    }
}

/// The timer counts down by one per tick and queues nothing on the way; the tick
/// that brings it to zero queues the vector of an unmasked timer and restarts a
/// periodic one.
pub proof fn law_lapic_timer_fires_on_time(mem: MemState, n: nat)
    requires
        mem.wf(),
        mem.pending is None,
        0 < n <= mem.lapic_count(),
    ensures
        n < mem.lapic_count() ==> after_lapic_ticks(mem, n).lapic_count() == mem.lapic_count() - n
            && after_lapic_ticks(mem, n).pending is None,
        n == mem.lapic_count() ==> {
            &&& after_lapic_ticks(mem, n).pending == (if mem.lvt_masked() {
                None
            } else {
                Some((mem.lvt() % 0x100) as u8)
            })
            &&& after_lapic_ticks(mem, n).lapic_count() == (if mem.lvt_periodic() {
                le_u32(mem.lapic, INITIAL_COUNT as int)
            } else {
                0
            })
        },
{
    lemma_countdown(mem, (n - 1) as nat);
    let before = after_lapic_ticks(mem, (n - 1) as nat);
    lemma_count_stored(before, (before.lapic_count() - 1) as u32);
    lemma_count_stored(before, le_u32(before.lapic, INITIAL_COUNT as int));
    lemma_count_stored(before, 0);
}

proof fn lemma_count_stored(mem: MemState, v: u32)
    requires
        mem.wf(),
    ensures
        ({
            let stored = stored_le32(mem.lapic, CURRENT_COUNT as int, v);
            &&& stored.len() == 0x1000
            &&& le_u32(stored, CURRENT_COUNT as int) == v
            &&& le_u32(stored, LVT_TIMER as int) == mem.lvt()
            &&& le_u32(stored, INITIAL_COUNT as int) == le_u32(mem.lapic, INITIAL_COUNT as int)
        }),
{
    lemma_stored_le32(mem.lapic, CURRENT_COUNT as int, v);
}

proof fn lemma_countdown(mem: MemState, n: nat)
    requires
        mem.wf(),
        mem.pending is None,
        n < mem.lapic_count(),
    ensures
        ({
            let later = after_lapic_ticks(mem, n);
            &&& later.wf()
            &&& later.lapic_count() == mem.lapic_count() - n
            &&& later.pending is None
            &&& later.lvt() == mem.lvt()
            &&& le_u32(later.lapic, INITIAL_COUNT as int) == le_u32(
                mem.lapic,
                INITIAL_COUNT as int,
            )
        }),
    decreases n,
{
    if n > 0 {
        lemma_countdown(mem, (n - 1) as nat);
        let before = after_lapic_ticks(mem, (n - 1) as nat);
        lemma_count_stored(before, (before.lapic_count() - 1) as u32);
    }
}

/// A disabled HPET stands still; an enabled one counts by one and keeps a vector
/// that is queued already.
pub proof fn law_hpet_counts_while_enabled(mem: MemState)
    requires
        mem.wf(),
    ensures
        !mem.hpet_enabled() ==> mem.hpet_ticked() == mem,
        mem.hpet_enabled() ==> mem.hpet_ticked().hpet_count() == (mem.hpet_count() + 1)
            % 0x1_0000_0000_0000_0000,
        mem.pending is Some ==> mem.hpet_ticked().pending == mem.pending,
{
    if mem.hpet_enabled() {
        let next = ((mem.hpet_count() + 1) % 0x1_0000_0000_0000_0000) as u64;
        let lo = (next % 0x1_0000_0000) as u32;
        let hi = (next / 0x1_0000_0000) as u32;
        lemma_stored_le32(mem.hpet, HPET_COUNTER as int, lo);
        let one = stored_le32(mem.hpet, HPET_COUNTER as int, lo);
        lemma_stored_le32(one, HPET_COUNTER + 4, hi);
        let two = stored_le32(one, HPET_COUNTER + 4, hi);
        assert(two[0xF0] == one[0xF0] && two[0xF1] == one[0xF1] && two[0xF2] == one[0xF2]
            && two[0xF3] == one[0xF3]);
        assert(le_u32(two, HPET_COUNTER as int) == lo);
        assert(le_u32(two, HPET_COUNTER + 4) == hi);
        assert(mem.hpet_ticked().hpet == two);
    }
}

/// Where things are: the APIC window takes up the 4096 bytes from 0xFEE00000, the HPET
/// window the 1024 bytes from 0xFED00000, and RAM counts from zero; everything else reads
/// as zero. Numbers are stored low byte first.
pub proof fn law_address_map(mem: MemState, addr: u32)
    requires
        mem.wf(),
        mem.ram.len() <= 0xFED0_0000,
    ensures
        addr < mem.ram.len() ==> mem.byte(addr) == mem.ram[addr as int],
        0xFEE0_0000 <= addr < 0xFEE0_1000 ==> mem.byte(addr) == mem.lapic[addr - 0xFEE0_0000],
        0xFED0_0000 <= addr < 0xFED0_0400 ==> mem.byte(addr) == mem.hpet[addr - 0xFED0_0000],
        addr >= mem.ram.len() && !(0xFEE0_0000 <= addr < 0xFEE0_1000) && !(0xFED0_0000 <= addr
            < 0xFED0_0400) ==> mem.byte(addr) == 0 && !mem.mapped(addr),
        addr < 0xFFFF_FFFF ==> mem.half(addr) == mem.byte(addr) + 0x100 * mem.byte((addr + 1) as u32),
        addr < 0xFFFF_FFFD ==> mem.word(addr) == mem.byte(addr) + 0x100 * mem.byte(
            (addr + 1) as u32,
        ) + 0x1_0000 * mem.byte((addr + 2) as u32) + 0x100_0000 * mem.byte((addr + 3) as u32),
{
}

/// At reset the APIC says that it is version 0x14 with seven vector-table entries, and the
/// HPET that it has three 64-bit timers and a period of 100 ns.
pub proof fn law_windows_identify_themselves(ram: Seq<u8>)
    ensures
        ({
            let mem = MemState { ram, lapic: lapic_reset(), hpet: hpet_reset(), pending: None };
            &&& mem.wf()
            &&& mem.word(0xFEE0_0030) == 0x0006_0014
            &&& mem.word(0xFED0_0000) == 0x8086_A201
            &&& mem.word(0xFED0_0004) == 0x05F5_E100
            &&& mem.word(0xFED0_0010) == 0
            &&& mem.word(0xFEE0_0390) == 0
        }),
{
    let mem = MemState { ram, lapic: lapic_reset(), hpet: hpet_reset(), pending: None };
    let h = mem.hpet;
    assert(h[0] == 0x01 && h[1] == 0xA2 && h[2] == 0x86 && h[3] == 0x80);
    assert(h[4] == 0x00 && h[5] == 0xE1 && h[6] == 0xF5 && h[7] == 0x05);
}

proof fn lemma_lapic_word(mem: MemState, off: int)
    requires
        mem.wf(),
        0 <= off <= 0xFFC,
    ensures
        mem.word((0xFEE0_0000 + off) as u32) == le_u32(mem.lapic, off),
{
}

proof fn lemma_hpet_word(mem: MemState, off: int)
    requires
        mem.wf(),
        0 <= off <= 0x3FC,
    ensures
        mem.word((0xFED0_0000 + off) as u32) == le_u32(mem.hpet, off),
{
}

proof fn lemma_stored_lapic_word(mem: MemState, off: int, value: u32)
    requires
        mem.wf(),
        0 <= off <= 0xFFC,
        off + 4 <= 0x380 || off >= 0x384,
    ensures
        ({
            let later = mem.after_word((0xFEE0_0000 + off) as u32, value);
            later == (MemState { lapic: stored_le32(mem.lapic, off, value), ..mem })
        }),
{
    let lo = (value % 0x1_0000) as u16;
    let hi = (value / 0x1_0000) as u16;
    let b0 = (lo % 0x100) as u8;
    let b1 = (lo / 0x100) as u8;
    let b2 = (hi % 0x100) as u8;
    let b3 = (hi / 0x100) as u8;
    let m1 = MemState { lapic: mem.lapic.update(off, b0), ..mem };
    let m2 = MemState { lapic: m1.lapic.update(off + 1, b1), ..mem };
    let m3 = MemState { lapic: m2.lapic.update(off + 2, b2), ..mem };
    lemma_lapic_byte(mem, off, b0);
    lemma_lapic_byte(m1, off + 1, b1);
    lemma_lapic_byte(m2, off + 2, b2);
    lemma_lapic_byte(m3, off + 3, b3);
    lemma_value_bytes(value);
}

proof fn lemma_lapic_byte(mem: MemState, off: int, b: u8)
    requires
        mem.wf(),
        0 <= off < 0x1000,
        off < 0x380 || off >= 0x384,
    ensures
        mem.after_byte((0xFEE0_0000 + off) as u32, b) == (MemState {
            lapic: mem.lapic.update(off, b),
            ..mem
        }),
{
}

proof fn lemma_value_bytes(value: u32)
    ensures
        value % 0x1_0000 % 0x100 == value % 0x100,
        value % 0x1_0000 / 0x100 == value / 0x100 % 0x100,
        value / 0x1_0000 / 0x100 == value / 0x100_0000,
{
}

/// The guest's APIC timer: with the table entry `entry` written at 0xFEE00320 and then the
/// count at 0xFEE00380, the register at 0xFEE00390 counts down by one per tick; the tick
/// that brings it to zero queues the vector in the low eight bits of the entry, unless bit
/// 16 masks it, and starts over from the count if bits 17 and 18 hold a one.
pub proof fn law_guest_programs_apic_timer(mem: MemState, entry: u32, count: u32, n: nat)
    requires
        mem.wf(),
        mem.pending is None,
        0 < n <= count,
    ensures
        ({
            let set = mem.after_word(0xFEE0_0320, entry).after_word(0xFEE0_0380, count);
            let later = after_lapic_ticks(set, n);
            &&& set.word(0xFEE0_0390) == count && set.pending is None
            &&& n < count ==> later.pending is None && later.word(0xFEE0_0390) == count - n
            &&& n == count && entry / 0x1_0000 % 2 == 0 ==> later.pending == Some(
                (entry % 0x100) as u8,
            )
            &&& n == count && entry / 0x1_0000 % 2 == 1 ==> later.pending is None
            &&& n == count && entry / 0x2_0000 % 4 == 1 ==> later.word(0xFEE0_0390) == count
            &&& n == count && entry / 0x2_0000 % 4 != 1 ==> later.word(0xFEE0_0390) == 0
            &&& later.word(0xFEE0_0320) == entry && later.word(0xFEE0_0380) == count
            &&& later.ram == mem.ram && later.hpet == mem.hpet
        }),
{
    let one = mem.after_word(0xFEE0_0320, entry);
    lemma_stored_lapic_word(mem, 0x320, entry);
    lemma_stored_le32(mem.lapic, 0x320, entry);
    let set = one.after_word(0xFEE0_0380, count);
    lemma_initial_count_stored(one, count);
    law_initial_count_starts_timer(one, count);
    lemma_lapic_word(set, 0x390);
    lemma_lapic_word(set, 0x320);
    lemma_lapic_word(set, 0x380);
    assert(set.lapic[0x320] == one.lapic[0x320] && set.lapic[0x321] == one.lapic[0x321]
        && set.lapic[0x322] == one.lapic[0x322] && set.lapic[0x323] == one.lapic[0x323]);
    law_lapic_timer_fires_on_time(set, n);
    lemma_ticks_keep(set, n);
    let later = after_lapic_ticks(set, n);
    lemma_lapic_word(later, 0x390);
    lemma_lapic_word(later, 0x320);
    lemma_lapic_word(later, 0x380);
}

proof fn lemma_initial_count_stored(mem: MemState, value: u32)
    requires
        mem.wf(),
    ensures
        ({
            let later = mem.after_word(0xFEE0_0380, value);
            &&& later.wf() && later.ram == mem.ram && later.hpet == mem.hpet && later.pending
                == mem.pending
            &&& le_u32(later.lapic, 0x380) == value
            &&& forall|i: int|
                0 <= i < 0x1000 && !(0x380 <= i < 0x384) && !(0x390 <= i < 0x394)
                    ==> #[trigger] later.lapic[i] == mem.lapic[i]
        }),
{
    let lo = (value % 0x1_0000) as u16;
    let hi = (value / 0x1_0000) as u16;
    let m1 = mem.after_byte(0xFEE0_0380, (lo % 0x100) as u8);
    let m2 = m1.after_byte(0xFEE0_0381, (lo / 0x100) as u8);
    let m3 = m2.after_byte(0xFEE0_0382, (hi % 0x100) as u8);
    let m4 = m3.after_byte(0xFEE0_0383, (hi / 0x100) as u8);
    assert(m4 == mem.after_word(0xFEE0_0380, value));
    assert(m4.lapic[0x380] == lo % 0x100);
    assert(m4.lapic[0x381] == lo / 0x100);
    assert(m4.lapic[0x382] == hi % 0x100);
    assert(m4.lapic[0x383] == hi / 0x100);
}

proof fn lemma_ticks_keep(mem: MemState, n: nat)
    requires
        mem.wf(),
    ensures
        ({
            let later = after_lapic_ticks(mem, n);
            &&& later.wf()
            &&& later.ram == mem.ram && later.hpet == mem.hpet
            &&& le_u32(later.lapic, 0x320) == le_u32(mem.lapic, 0x320)
            &&& le_u32(later.lapic, 0x380) == le_u32(mem.lapic, 0x380)
        }),
    decreases n,
{
    if n > 0 {
        lemma_ticks_keep(mem, (n - 1) as nat);
        let before = after_lapic_ticks(mem, (n - 1) as nat);
        lemma_count_stored(before, (before.lapic_count() - 1) as u32);
        lemma_count_stored(before, le_u32(before.lapic, INITIAL_COUNT as int));
        lemma_count_stored(before, 0);
    }
}

/// A timer at zero stands still, and a vector that is queued already is never replaced.
pub proof fn law_stopped_apic_timer_is_silent(mem: MemState)
    requires
        mem.wf(),
    ensures
        mem.word(0xFEE0_0390) == 0 ==> mem.lapic_ticked() == mem,
        mem.pending is Some ==> mem.lapic_ticked().pending == mem.pending,
{
    lemma_lapic_word(mem, 0x390);
}

/// The 32-bit register that the guest reads at an address.
#[verifier::opaque]
pub open spec fn register(mem: MemState, addr: int) -> int {
    mem.word(addr as u32) as int
}

/// Whether timer `n` of the HPET fires at a count: its interrupt is enabled, bit 2 of its
/// configuration at 0x100 and 32 bytes more for each timer, it is delivered directly, bit
/// 14, and the 64-bit comparator eight bytes on has that count.
#[verifier::opaque]
pub open spec fn hpet_timer_fires(mem: MemState, n: int, count: int) -> bool {
    let at = 0xFED0_0100 + 0x20 * n;
    &&& register(mem, at) / 4 % 2 == 1
    &&& register(mem, at) / 0x4000 % 2 == 1
    &&& register(mem, at + 8) + 0x1_0000_0000 * register(mem, at + 12) == count
}

/// The HPET: while bit 0 of its configuration at 0xFED00010 is set, each tick brings the
/// 64-bit counter at 0xFED000F0 up by one; the first timer that fires at the new count
/// queues the low eight bits of what stands 16 bytes behind its configuration, if nothing
/// is queued; if none fires nothing is queued.
#[verifier::spinoff_prover]
pub proof fn law_hpet_fires_on_its_comparators(mem: MemState)
    requires
        mem.wf(),
        mem.pending is None,
        register(mem, 0xFED0_0010) % 2 == 1,
    ensures
        ({
            let count = register(mem, 0xFED0_00F0) + 0x1_0000_0000 * register(mem, 0xFED0_00F4);
            let next = if count == 0xFFFF_FFFF_FFFF_FFFF {
                0
            } else {
                count + 1
            };
            let later = mem.hpet_ticked();
            &&& register(later, 0xFED0_00F0) + 0x1_0000_0000 * register(later, 0xFED0_00F4) == next
            &&& hpet_timer_fires(mem, 0, next) ==> later.pending == Some(
                (register(mem, 0xFED0_0110) % 0x100) as u8,
            )
            &&& !hpet_timer_fires(mem, 0, next) && hpet_timer_fires(mem, 1, next) ==> later.pending
                == Some((register(mem, 0xFED0_0130) % 0x100) as u8)
            &&& !hpet_timer_fires(mem, 0, next) && !hpet_timer_fires(mem, 1, next)
                && hpet_timer_fires(mem, 2, next) ==> later.pending == Some(
                (register(mem, 0xFED0_0150) % 0x100) as u8,
            )
            &&& !hpet_timer_fires(mem, 0, next) && !hpet_timer_fires(mem, 1, next)
                && !hpet_timer_fires(mem, 2, next) ==> later.pending is None
            &&& later.ram == mem.ram && later.lapic == mem.lapic
        }),
{
    assert(hpet_once(mem) == mem.hpet_ticked()) by {
        reveal(hpet_once);
    }
    let next = lemma_hpet_next(mem);
    lemma_hpet_outcome(mem, next);
}

proof fn lemma_hpet_next(mem: MemState) -> (next: u64)
    requires
        mem.wf(),
        register(mem, 0xFED0_0010) % 2 == 1,
    ensures
        mem.hpet_enabled(),
        next == (mem.hpet_count() + 1) % 0x1_0000_0000_0000_0000,
        ({
            let count = register(mem, 0xFED0_00F0) + 0x1_0000_0000 * register(mem, 0xFED0_00F4);
            next == (if count == 0xFFFF_FFFF_FFFF_FFFF {
                0
            } else {
                count + 1
            })
        }),
{
    let next = ((mem.hpet_count() + 1) % 0x1_0000_0000_0000_0000) as u64;
    lemma_hpet_registers(mem, next);
    next
}

#[verifier::opaque]
spec fn hpet_once(mem: MemState) -> MemState {
    mem.hpet_ticked()
}

#[verifier::opaque]
spec fn hpet_queues(mem: MemState, n: int, next: u64) -> Option<u8> {
    hpet_counted(mem, next).hpet_match(n, next)
}

#[verifier::spinoff_prover]
proof fn lemma_hpet_outcome(mem: MemState, next: u64)
    requires
        mem.wf(),
        mem.pending is None,
        mem.hpet_enabled(),
        next == (mem.hpet_count() + 1) % 0x1_0000_0000_0000_0000,
    ensures
        ({
            let later = hpet_once(mem);
            &&& register(later, 0xFED0_00F0) + 0x1_0000_0000 * register(later, 0xFED0_00F4) == next
            &&& hpet_timer_fires(mem, 0, next as int) ==> later.pending == Some(
                (register(mem, 0xFED0_0110) % 0x100) as u8,
            )
            &&& !hpet_timer_fires(mem, 0, next as int) && hpet_timer_fires(mem, 1, next as int)
                ==> later.pending == Some((register(mem, 0xFED0_0130) % 0x100) as u8)
            &&& !hpet_timer_fires(mem, 0, next as int) && !hpet_timer_fires(mem, 1, next as int)
                && hpet_timer_fires(mem, 2, next as int) ==> later.pending == Some(
                (register(mem, 0xFED0_0150) % 0x100) as u8,
            )
            &&& !hpet_timer_fires(mem, 0, next as int) && !hpet_timer_fires(mem, 1, next as int)
                && !hpet_timer_fires(mem, 2, next as int) ==> later.pending is None
            &&& later.ram == mem.ram && later.lapic == mem.lapic
        }),
{
    lemma_hpet_pending(mem, next);
    lemma_hpet_timer(mem, 0, next);
    lemma_hpet_timer(mem, 1, next);
    lemma_hpet_timer(mem, 2, next);
    lemma_hpet_counted(mem, next);
    lemma_hpet_registers(mem, next);
    lemma_register_of(hpet_once(mem), hpet_counted(mem, next));
}

proof fn lemma_register_of(a: MemState, b: MemState)
    requires
        a.hpet == b.hpet,
        a.wf(),
        b.wf(),
    ensures
        register(a, 0xFED0_00F0) == register(b, 0xFED0_00F0),
        register(a, 0xFED0_00F4) == register(b, 0xFED0_00F4),
{
    lemma_register(a, 0xF0);
    lemma_register(b, 0xF0);
    lemma_register(a, 0xF4);
    lemma_register(b, 0xF4);
}

proof fn lemma_hpet_registers(mem: MemState, next: u64)
    requires
        mem.wf(),
    ensures
        register(mem, 0xFED0_0010) % 2 == 1 ==> mem.hpet_enabled(),
        register(mem, 0xFED0_00F0) + 0x1_0000_0000 * register(mem, 0xFED0_00F4) == mem.hpet_count(),
        register(hpet_counted(mem, next), 0xFED0_00F0) == next % 0x1_0000_0000,
        register(hpet_counted(mem, next), 0xFED0_00F4) == next / 0x1_0000_0000,
{
    lemma_register(mem, 0x10);
    lemma_register(mem, 0xF0);
    lemma_register(mem, 0xF4);
    lemma_hpet_counted(mem, next);
    lemma_register(hpet_counted(mem, next), 0xF0);
    lemma_register(hpet_counted(mem, next), 0xF4);
}

proof fn lemma_register(mem: MemState, off: int)
    requires
        mem.wf(),
        0 <= off <= 0x3FC,
    ensures
        register(mem, 0xFED0_0000 + off) == le_u32(mem.hpet, off),
{
    reveal(register);
    lemma_hpet_word(mem, off);
}

proof fn lemma_hpet_pending(mem: MemState, next: u64)
    requires
        mem.wf(),
        mem.pending is None,
        mem.hpet_enabled(),
        next == (mem.hpet_count() + 1) % 0x1_0000_0000_0000_0000,
    ensures
        ({
            let c = hpet_counted(mem, next);
            let later = hpet_once(mem);
            &&& later == (MemState { pending: later.pending, ..c })
            &&& later.pending == (if hpet_queues(mem, 0, next) is Some {
                hpet_queues(mem, 0, next)
            } else if hpet_queues(mem, 1, next) is Some {
                hpet_queues(mem, 1, next)
            } else {
                hpet_queues(mem, 2, next)
            })
        }),
{
    reveal(hpet_counted);
    reveal(hpet_once);
    reveal(hpet_queues);
}

#[verifier::opaque]
spec fn hpet_counted(mem: MemState, next: u64) -> MemState {
    MemState {
        hpet: stored_le32(
            stored_le32(mem.hpet, HPET_COUNTER as int, (next % 0x1_0000_0000) as u32),
            HPET_COUNTER + 4,
            (next / 0x1_0000_0000) as u32,
        ),
        ..mem
    }
}

proof fn lemma_hpet_counted(mem: MemState, next: u64)
    requires
        mem.wf(),
    ensures
        ({
            let c = hpet_counted(mem, next);
            &&& c.wf() && c.ram == mem.ram && c.lapic == mem.lapic
            &&& le_u32(c.hpet, 0xF0) == next % 0x1_0000_0000
            &&& le_u32(c.hpet, 0xF4) == next / 0x1_0000_0000
            &&& forall|i: int| 0x100 <= i < 0x400 ==> #[trigger] c.hpet[i] == mem.hpet[i]
        }),
{
    reveal(hpet_counted);
    let lo = (next % 0x1_0000_0000) as u32;
    let hi = (next / 0x1_0000_0000) as u32;
    lemma_stored_le32(mem.hpet, 0xF0, lo);
    let one = stored_le32(mem.hpet, 0xF0, lo);
    lemma_stored_le32(one, 0xF4, hi);
    let two = stored_le32(one, 0xF4, hi);
    assert(two[0xF0] == one[0xF0] && two[0xF1] == one[0xF1] && two[0xF2] == one[0xF2] && two[0xF3]
        == one[0xF3]);
}

#[verifier::spinoff_prover]
proof fn lemma_hpet_timer(mem: MemState, n: int, next: u64)
    requires
        mem.wf(),
        0 <= n < 3,
    ensures
        hpet_queues(mem, n, next) == (if hpet_timer_fires(mem, n, next as int) {
            Some((register(mem, 0xFED0_0110 + 0x20 * n) % 0x100) as u8)
        } else {
            None
        }),
{
    let base = 0x100 + 0x20 * n;
    let c = hpet_counted(mem, next);
    lemma_hpet_counted(mem, next);
    lemma_same_words(c.hpet, mem.hpet, base);
    lemma_same_words(c.hpet, mem.hpet, base + 8);
    lemma_same_words(c.hpet, mem.hpet, base + 12);
    lemma_same_words(c.hpet, mem.hpet, base + 0x10);
    lemma_timer_of(mem, c, n, next);
    reveal(hpet_queues);
}

#[verifier::spinoff_prover]
proof fn lemma_timer_of(mem: MemState, c: MemState, n: int, next: u64)
    requires
        mem.wf(),
        0 <= n < 3,
        le_u32(c.hpet, 0x100 + 0x20 * n) == le_u32(mem.hpet, 0x100 + 0x20 * n),
        le_u32(c.hpet, 0x100 + 0x20 * n + 8) == le_u32(mem.hpet, 0x100 + 0x20 * n + 8),
        le_u32(c.hpet, 0x100 + 0x20 * n + 12) == le_u32(mem.hpet, 0x100 + 0x20 * n + 12),
        le_u32(c.hpet, 0x100 + 0x20 * n + 0x10) == le_u32(mem.hpet, 0x100 + 0x20 * n + 0x10),
    ensures
        c.hpet_match(n, next) == (if hpet_timer_fires(mem, n, next as int) {
            Some((register(mem, 0xFED0_0110 + 0x20 * n) % 0x100) as u8)
        } else {
            None
        }),
{
    reveal(hpet_timer_fires);
    let base = 0x100 + 0x20 * n;
    lemma_register(mem, base);
    lemma_register(mem, base + 8);
    lemma_register(mem, base + 12);
    lemma_register(mem, base + 0x10);
}

proof fn lemma_same_words(a: Seq<u8>, b: Seq<u8>, at: int)
    requires
        a[at] == b[at],
        a[at + 1] == b[at + 1],
        a[at + 2] == b[at + 2],
        a[at + 3] == b[at + 3],
    ensures
        le_u32(a, at) == le_u32(b, at),
{
}

} // verus!
