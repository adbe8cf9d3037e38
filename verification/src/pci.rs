//! PCI configuration space, reached through an address and a data port.
//!
//! The address register (four ports from 0xCF8) selects bus, device, function
//! and register; the data window (four ports from 0xCFC) reads and writes the
//! selected 32-bit register byte by byte. Two devices are there: a host bridge
//! in slot 0 and an RTL8139 network card in slot 1. Every other place answers
//! all ones.

use crate::bytes::{byte_of, get_byte, get_le_u16, get_le_u32, le16_bytes, le32_bytes, le_u16, le_u32, lemma_le32_at, lemma_with_byte, put_le_u16, put_le_u32, set_byte, with_byte};
use crate::iobus::IoDevice;
use vstd::prelude::*;

verus! {

/// First port of the address register.
pub const PORT_ADDR_LO: u16 = 0xCF8;

/// First port of the data window.
pub const PORT_DATA_LO: u16 = 0xCFC;

/// Last port of the data window.
pub const PORT_LAST: u16 = 0xCFF;

/// Size of the I/O window of the network card.
pub const RTL8139_IO_SIZE: u32 = 0x100;

/// The configuration space.
#[derive(Copy, Clone, Debug, PartialEq, Eq, Structural)]
pub struct Pci {
    pub addr: u32,
    /// I/O base that the guest has assigned to the network card.
    pub nic_bar0: u32,
    /// Command register of the network card: bit 0 enables its I/O window.
    pub nic_command: u16,
}

/// Whether the address register starts a configuration cycle.
pub open spec fn addr_enabled(addr: u32) -> bool {
    addr >= 0x8000_0000
}

pub open spec fn addr_bus(addr: u32) -> int {
    addr as int / 0x1_0000 % 0x100
}

pub open spec fn addr_device(addr: u32) -> int {
    addr as int / 0x800 % 0x20
}

pub open spec fn addr_function(addr: u32) -> int {
    addr as int / 0x100 % 8
}

/// The selected register, a multiple of four.
pub open spec fn addr_register(addr: u32) -> int {
    addr as int % 0x100 / 4 * 4
}

/// Whether the address selects function 0 of device `device` on bus 0.
pub open spec fn selects(addr: u32, device: int) -> bool {
    addr_bus(addr) == 0 && addr_device(addr) == device && addr_function(addr) == 0
}

/// Register `reg` of the host bridge: Intel 440FX, class host bridge.
pub open spec fn host_bridge_register(reg: int) -> u32 {
    if reg == 0x00 {
        0x1237_8086
    } else if reg == 0x08 {
        0x0600_0002
    } else {
        0
    }
}

impl Pci {
    /// Register `reg` of the network card: Realtek 8139, class Ethernet, one
    /// 256-byte I/O window, interrupt line 11.
    pub open spec fn nic_register(self, reg: int) -> u32 {
        if reg == 0x00 {
            0x8139_10EC
        } else if reg == 0x04 {
            self.nic_command as u32
        } else if reg == 0x08 {
            0x0200_0010
        } else if reg == 0x10 {
            (self.nic_bar0 / 0x100 * 0x100 + 1) as u32
        } else if reg == 0x3C {
            0x0000_010B
        } else {
            0
        }
    }

    /// The register that the address selects.
    pub open spec fn selected_register(self) -> u32 {
        if !addr_enabled(self.addr) {
            0xFFFF_FFFF
        } else if selects(self.addr, 0) {
            host_bridge_register(addr_register(self.addr))
        } else if selects(self.addr, 1) {
            self.nic_register(addr_register(self.addr))
        } else {
            0xFFFF_FFFF
        }
    }

    /// The configuration space after `value` has been written to byte `off` of
    /// the network card's registers. Command and I/O base are writable.
    pub open spec fn after_nic_write(self, off: int, value: u8) -> Pci {
        if off == 0x04 {
            Pci { nic_command: (self.nic_command / 0x100 * 0x100 + value) as u16, ..self }
        } else if off == 0x05 {
            Pci { nic_command: (self.nic_command % 0x100 + 0x100 * value) as u16, ..self }
        } else if 0x10 <= off <= 0x13 {
            Pci { nic_bar0: with_byte(self.nic_bar0, off - 0x10, value), ..self }
        } else {
            self
        }
    }

    /// What a read from `port` returns.
    pub open spec fn read_value(self, port: u16) -> u8 {
        if PORT_ADDR_LO <= port < PORT_DATA_LO {
            byte_of(self.addr, port - PORT_ADDR_LO)
        } else if PORT_DATA_LO <= port <= PORT_LAST {
            byte_of(self.selected_register(), port - PORT_DATA_LO)
        } else {
            0xFF
        }
    }

    /// The configuration space after a write of `value` to `port`.
    pub open spec fn after_write(self, port: u16, value: u8) -> Pci {
        if PORT_ADDR_LO <= port < PORT_DATA_LO {
            Pci { addr: with_byte(self.addr, port - PORT_ADDR_LO, value), ..self }
        } else if PORT_DATA_LO <= port <= PORT_LAST && addr_enabled(self.addr) && selects(
            self.addr,
            1,
        ) {
            self.after_nic_write(addr_register(self.addr) + (port - PORT_DATA_LO), value)
        } else {
            self
        }
    }

    /// The ten bytes that a snapshot holds.
    pub open spec fn snapshot_bytes(self) -> Seq<u8> {
        le32_bytes(self.addr) + le32_bytes(self.nic_bar0) + le16_bytes(self.nic_command)
    }

    /// The configuration space and the result that `restore` leaves behind.
    /// Four bytes without the card's registers restore the address alone.
    pub open spec fn restore_outcome(self, bytes: Seq<u8>) -> (Pci, Result<usize, &'static str>) {
        if bytes.len() < 4 {
            (self, Err("pci: truncated"))
        } else if bytes.len() < 10 {
            (Pci { addr: le_u32(bytes, 0), ..self }, Ok(4))
        } else {
            (
                Pci {
                    addr: le_u32(bytes, 0),
                    nic_bar0: le_u32(bytes, 4),
                    nic_command: le_u16(bytes, 8),
                },
                Ok(10),
            )
        }
    }

    pub fn new() -> (pci: Self)
        ensures
            pci == (Pci { addr: 0, nic_bar0: 0, nic_command: 0 }),
    {
        Pci { addr: 0, nic_bar0: 0, nic_command: 0 }
    }

    fn nic_config_read(&self, reg: u32) -> (v: u32)
        ensures
            v == self.nic_register(reg as int),
    {
        match reg {
            0x00 => 0x8139_10EC,
            0x04 => self.nic_command as u32,
            0x08 => 0x0200_0010,
            0x0C => 0,
            0x10 => self.nic_bar0 / 0x100 * 0x100 + 1,
            0x3C => 0x0000_010B,
            _ => 0,
        }
    }

    fn nic_write_byte(&mut self, off: u32, value: u8)
        ensures
            *final(self) == old(self).after_nic_write(off as int, value),
    {
        if off == 0x04 {
            self.nic_command = self.nic_command / 0x100 * 0x100 + value as u16;
        } else if off == 0x05 {
            self.nic_command = self.nic_command % 0x100 + 0x100 * (value as u16);
        } else if 0x10 <= off && off <= 0x13 {
            self.nic_bar0 = set_byte(self.nic_bar0, (off - 0x10) as u16, value);
        }
    }

    /// The I/O base that the guest has assigned to the network card.
    pub fn nic_io_base(&self) -> (base: u16)
        ensures
            base == self.nic_bar0 as int / 0x100 % 0x100 * 0x100,
    {
        (self.nic_bar0 / 0x100 % 0x100 * 0x100) as u16
    }

    /// Whether the guest has enabled the card's I/O window at a real base.
    pub fn nic_io_enabled(&self) -> (enabled: bool)
        ensures
            enabled == (self.nic_command % 2 == 1 && self.nic_bar0 as int / 0x100 % 0x100 != 0),
    {
        self.nic_command % 2 == 1 && self.nic_io_base() != 0
    }

    fn selects_slot(&self, device: u32) -> (b: bool)
        ensures
            b == selects(self.addr, device as int),
    {
        self.addr / 0x1_0000 % 0x100 == 0 && self.addr / 0x800 % 0x20 == device && self.addr / 0x100
            % 8 == 0
    }

    fn read_data(&self) -> (v: u32)
        ensures
            v == self.selected_register(),
    {
        if self.addr < 0x8000_0000 {
            return 0xFFFF_FFFF;
        }
        let reg: u32 = self.addr % 0x100 / 4 * 4;
        if self.selects_slot(0) {
            host_bridge_config(reg)
        } else if self.selects_slot(1) {
            self.nic_config_read(reg)
        } else {
            0xFFFF_FFFF
        }
    }

    /// Appends the address register and the network card's assigned registers to
    /// `out`.
    pub fn snapshot_into(&self, out: &mut Vec<u8>)
        ensures
            final(out)@ == old(out)@ + self.snapshot_bytes(),
    {
        put_le_u32(out, self.addr);
        put_le_u32(out, self.nic_bar0);
        put_le_u16(out, self.nic_command);
    }

    /// Takes back what `snapshot_into` wrote and returns its length; the shorter
    /// layout without the card's registers is accepted too.
    pub fn restore(&mut self, bytes: &[u8]) -> (r: Result<usize, &'static str>)
        ensures
            (*final(self), r) == old(self).restore_outcome(bytes@),
    {
        if bytes.len() < 4 {
            return Err("pci: truncated");
        }
        self.addr = get_le_u32(bytes, 0);
        if bytes.len() >= 10 {
            self.nic_bar0 = get_le_u32(bytes, 4);
            self.nic_command = get_le_u16(bytes, 8);
            Ok(10)
        } else {
            Ok(4)
        }
    }
}

fn host_bridge_config(reg: u32) -> (v: u32)
    ensures
        v == host_bridge_register(reg as int),
{
    match reg {
        0x00 => 0x1237_8086,
        0x08 => 0x0600_0002,
        _ => 0,
    }
}

impl Default for Pci {
    fn default() -> (pci: Self)
        ensures
            pci == (Pci { addr: 0, nic_bar0: 0, nic_command: 0 }),
    {
        Pci::new()
    }
}

impl IoDevice for Pci {
    open spec fn fits_port_space(&self) -> bool {
        true
    }

    open spec fn accepts(&self, port: u16) -> bool {
        true
    }

    fn port_range(&self) -> (range: (u16, u16))
        ensures
            range == (PORT_ADDR_LO, PORT_LAST),
    {
        (PORT_ADDR_LO, PORT_LAST)
    }

    fn read(&mut self, port: u16) -> (value: u8)
        ensures
            value == old(self).read_value(port),
            *final(self) == *old(self),
    {
        if PORT_ADDR_LO <= port && port < PORT_DATA_LO {
            get_byte(self.addr, port - PORT_ADDR_LO)
        } else if PORT_DATA_LO <= port && port <= PORT_LAST {
            get_byte(self.read_data(), port - PORT_DATA_LO)
        } else {
            0xFF
        }
    }

    fn write(&mut self, port: u16, value: u8)
        ensures
            *final(self) == old(self).after_write(port, value),
    {
        if PORT_ADDR_LO <= port && port < PORT_DATA_LO {
            self.addr = set_byte(self.addr, port - PORT_ADDR_LO, value);
        } else if PORT_DATA_LO <= port && port <= PORT_LAST && self.addr >= 0x8000_0000
            && self.selects_slot(1) {
            let off: u32 = self.addr % 0x100 / 4 * 4 + (port - PORT_DATA_LO) as u32;
            self.nic_write_byte(off, value);
        }
    }
}

/// The configuration space after the address has been written byte by byte,
/// lowest first.
pub open spec fn after_address(pci: Pci, address: u32) -> Pci {
    pci.after_write(0xCF8, byte_of(address, 0)).after_write(0xCF9, byte_of(address, 1)).after_write(
        0xCFA,
        byte_of(address, 2),
    ).after_write(0xCFB, byte_of(address, 3))
}

/// The configuration space after a 32-bit value has been written to the data
/// window byte by byte, lowest first.
pub open spec fn after_data(pci: Pci, value: u32) -> Pci {
    pci.after_write(0xCFC, byte_of(value, 0)).after_write(0xCFD, byte_of(value, 1)).after_write(
        0xCFE,
        byte_of(value, 2),
    ).after_write(0xCFF, byte_of(value, 3))
}

/// An address written byte by byte is the address register's whole value, reads
/// back from the same ports, and disturbs nothing else.
pub proof fn law_address_reads_back(pci: Pci, address: u32, k: int)
    requires
        0 <= k < 4,
    ensures
        after_address(pci, address) == (Pci { addr: address, ..pci }),
        after_address(pci, address).read_value((0xCF8 + k) as u16) == byte_of(address, k),
{
    lemma_assemble(pci.addr, address);
}

proof fn lemma_assemble(v: u32, w: u32)
    ensures
        with_byte(
            with_byte(
                with_byte(with_byte(v, 0, byte_of(w, 0)), 1, byte_of(w, 1)),
                2,
                byte_of(w, 2),
            ),
            3,
            byte_of(w, 3),
        ) == w,
{
    let a = with_byte(v, 0, byte_of(w, 0));
    let b = with_byte(a, 1, byte_of(w, 1));
    let c = with_byte(b, 2, byte_of(w, 2));
    let d = with_byte(c, 3, byte_of(w, 3));
    lemma_with_byte(v, 0, byte_of(w, 0), 0);
    lemma_with_byte(a, 1, byte_of(w, 1), 0);
    lemma_with_byte(a, 1, byte_of(w, 1), 1);
    lemma_with_byte(b, 2, byte_of(w, 2), 0);
    lemma_with_byte(b, 2, byte_of(w, 2), 1);
    lemma_with_byte(b, 2, byte_of(w, 2), 2);
    lemma_with_byte(c, 3, byte_of(w, 3), 0);
    lemma_with_byte(c, 3, byte_of(w, 3), 1);
    lemma_with_byte(c, 3, byte_of(w, 3), 2);
    lemma_with_byte(c, 3, byte_of(w, 3), 3);
    lemma_from_bytes(d);
    lemma_from_bytes(w);
}

proof fn lemma_from_bytes(v: u32)
    ensures
        v == byte_of(v, 0) + 0x100 * byte_of(v, 1) + 0x1_0000 * byte_of(v, 2) + 0x100_0000
            * byte_of(v, 3),
{
}

/// The guest sizes the card's I/O window by writing a base and reading it back:
/// the low eight bits are fixed, so all ones read back as 0xFFFFFF01, and an
/// assigned base is the one that the window answers at.
pub proof fn law_nic_base_is_assigned(pci: Pci, value: u32)
    requires
        pci.addr == 0x8000_0810,
    ensures
        after_data(pci, value).nic_bar0 == value,
        after_data(pci, value).selected_register() == value / 0x100 * 0x100 + 1,
        after_data(pci, value).nic_command == pci.nic_command,
{
    let b0 = byte_of(value, 0);
    let b1 = byte_of(value, 1);
    let b2 = byte_of(value, 2);
    let b3 = byte_of(value, 3);
    lemma_nic_base_byte(pci, 0, b0);
    let p1 = pci.after_write(0xCFC, b0);
    lemma_nic_base_byte(p1, 1, b1);
    let p2 = p1.after_write(0xCFD, b1);
    lemma_nic_base_byte(p2, 2, b2);
    let p3 = p2.after_write(0xCFE, b2);
    lemma_nic_base_byte(p3, 3, b3);
    let p4 = p3.after_write(0xCFF, b3);
    lemma_assemble(pci.nic_bar0, value);
    assert(p4 == (Pci { nic_bar0: value, ..pci }));
    assert(addr_register(pci.addr) == 0x10 && selects(pci.addr, 1) && !selects(pci.addr, 0));
}

proof fn lemma_nic_base_byte(pci: Pci, k: int, b: u8)
    requires
        pci.addr == 0x8000_0810,
        0 <= k < 4,
    ensures
        pci.after_write((0xCFC + k) as u16, b) == (Pci {
            nic_bar0: with_byte(pci.nic_bar0, k, b),
            ..pci
        }),
{
    assert(addr_register(pci.addr) == 0x10 && selects(pci.addr, 1) && !selects(pci.addr, 0));
}

/// Unless the address selects the network card, the data window ignores writes.
pub proof fn law_other_slots_are_read_only(pci: Pci, port: u16, value: u8)
    requires
        PORT_DATA_LO <= port <= PORT_LAST,
        !addr_enabled(pci.addr) || !selects(pci.addr, 1),
    ensures
        pci.after_write(port, value) == pci,
{
}

/// A place with no device answers all ones in every byte.
pub proof fn law_absent_device_reads_ones(pci: Pci, port: u16)
    requires
        PORT_DATA_LO <= port <= PORT_LAST,
        !addr_enabled(pci.addr) || !(selects(pci.addr, 0) || selects(pci.addr, 1)),
    ensures
        pci.read_value(port) == 0xFF,
{
}

/// A restored configuration space is the captured one.
pub proof fn law_snapshot_round_trip(captured: Pci, target: Pci, tail: Seq<u8>)
    ensures
        target.restore_outcome(captured.snapshot_bytes() + tail) == (
            captured,
            Ok::<usize, &'static str>(10),
        ),
{
    let s = captured.snapshot_bytes() + tail;
    assert(s.subrange(0, 4) == le32_bytes(captured.addr));
    assert(s.subrange(4, 8) == le32_bytes(captured.nic_bar0));
    lemma_le32_at(s, 0, captured.addr);
    lemma_le32_at(s, 4, captured.nic_bar0);
    assert(s[8] == le16_bytes(captured.nic_command)[0]);
    assert(s[9] == le16_bytes(captured.nic_command)[1]);
}

/// What the data window shows once the guest has selected register `reg` of device
/// `device` on bus 0: the host bridge in slot 0 and the network card in slot 1 say who
/// they are, the card also what was assigned to it, and every other slot reads as ones.
pub proof fn law_devices_identify_themselves(pci: Pci, device: int, reg: int)
    requires
        0 <= device < 32,
        0 <= reg < 0x100,
        reg % 4 == 0,
    ensures
        ({
            let shown = after_address(
                pci,
                (0x8000_0000 + 0x800 * device + reg) as u32,
            ).selected_register();
            &&& device == 0 ==> shown == (if reg == 0 {
                0x1237_8086
            } else if reg == 8 {
                0x0600_0002
            } else {
                0int
            })
            &&& device == 1 && reg == 0 ==> shown == 0x8139_10EC
            &&& device == 1 && reg == 4 ==> shown == pci.nic_command
            &&& device == 1 && reg == 8 ==> shown == 0x0200_0010
            &&& device == 1 && reg == 0x10 ==> shown == pci.nic_bar0 / 256 * 256 + 1
            &&& device == 1 && reg == 0x3C ==> shown == 0x0000_010B
            &&& device == 1 && reg != 0 && reg != 4 && reg != 8 && reg != 0x10 && reg != 0x3C
                ==> shown == 0
            &&& device > 1 ==> shown == 0xFFFF_FFFF
        }),
{
    let address = (0x8000_0000 + 0x800 * device + reg) as u32;
    law_address_reads_back(pci, address, 0);
    lemma_address_parts(device, reg);
}

proof fn lemma_address_parts(device: int, reg: int)
    requires
        0 <= device < 32,
        0 <= reg < 0x100,
        reg % 4 == 0,
    ensures
        ({
            let address = (0x8000_0000 + 0x800 * device + reg) as u32;
            &&& addr_enabled(address)
            &&& addr_bus(address) == 0
            &&& addr_device(address) == device
            &&& addr_function(address) == 0
            &&& addr_register(address) == reg
        }),
{
    let address = 0x8000_0000 + 0x800 * device + reg;
    assert(address / 0x800 == 0x10_0000 + device);
    assert(address % 0x100 == reg);
    assert(address / 0x100 == 0x80_0000 + 8 * device);
    assert(address / 0x1_0000 == 0x8000);
}

/// With any bus but 0, any function but 0, or bit 31 of the address clear, no device
/// answers, and nothing can be written.
pub proof fn law_only_function_zero_of_bus_zero(pci: Pci, port: u16, value: u8)
    requires
        pci.addr < 0x8000_0000 || pci.addr / 0x1_0000 % 0x100 != 0 || pci.addr / 0x100 % 8 != 0,
        0xCFC <= port <= 0xCFF,
    ensures
        pci.selected_register() == 0xFFFF_FFFF,
        pci.read_value(port) == 0xFF,
        pci.after_write(port, value) == pci,
{
}

/// The four ports of the window are the four bytes of the selected register, low one
/// first.
pub proof fn law_window_is_little_endian(pci: Pci)
    ensures
        pci.read_value(0xCFC) + 0x100 * pci.read_value(0xCFD) + 0x1_0000 * pci.read_value(0xCFE)
            + 0x100_0000 * pci.read_value(0xCFF) == pci.selected_register(),
        pci.read_value(0xCF8) + 0x100 * pci.read_value(0xCF9) + 0x1_0000 * pci.read_value(0xCFA)
            + 0x100_0000 * pci.read_value(0xCFB) == pci.addr,
{
    lemma_bytes_join(pci.selected_register());
    lemma_bytes_join(pci.addr);
}

proof fn lemma_bytes_join(v: u32)
    ensures
        byte_of(v, 0) + 0x100 * byte_of(v, 1) + 0x1_0000 * byte_of(v, 2) + 0x100_0000 * byte_of(
            v,
            3,
        ) == v,
{
}

/// The command register of the card takes its two bytes from ports 0xCFC and 0xCFD of
/// register 4; the I/O base is left alone.
pub proof fn law_card_command_is_written(pci: Pci, lo: u8, hi: u8)
    requires
        pci.addr == 0x8000_0804,
    ensures
        pci.after_write(0xCFC, lo).after_write(0xCFD, hi) == (Pci {
            nic_command: (lo + 0x100 * hi) as u16,
            ..pci
        }),
{
    lemma_address_parts(1, 4);
}

/// A snapshot is the address, the I/O base and the command register, low byte first.
pub proof fn law_snapshot_layout(pci: Pci)
    ensures
        ({
            let s = pci.snapshot_bytes();
            &&& s.len() == 10
            &&& s[0] + 0x100 * s[1] + 0x1_0000 * s[2] + 0x100_0000 * s[3] == pci.addr
            &&& s[4] + 0x100 * s[5] + 0x1_0000 * s[6] + 0x100_0000 * s[7] == pci.nic_bar0
            &&& s[8] + 0x100 * s[9] == pci.nic_command
        }),
{
    let s = pci.snapshot_bytes();
    assert(s.subrange(0, 4) =~= le32_bytes(pci.addr));
    assert(s.subrange(4, 8) =~= le32_bytes(pci.nic_bar0));
    lemma_le32_at(s, 0, pci.addr);
    lemma_le32_at(s, 4, pci.nic_bar0);
    assert(s[8] == le16_bytes(pci.nic_command)[0] && s[9] == le16_bytes(pci.nic_command)[1]);
}

/// Which snapshots are refused: those with less than four bytes, of which nothing is loaded.
/// One with less than ten holds the address alone.
pub proof fn law_short_snapshots(pci: Pci, bytes: Seq<u8>)
    ensures
        bytes.len() <= 3 ==> pci.restore_outcome(bytes) == (
            pci,
            Err::<usize, &'static str>("pci: truncated"),
        ),
        4 <= bytes.len() <= 9 ==> {
            let r = pci.restore_outcome(bytes);
            &&& r.1 == Ok::<usize, &'static str>(4)
            &&& r.0.addr == bytes[0] + 256 * (bytes[1] + 256 * (bytes[2] + 256 * bytes[3]))
            &&& r.0.nic_bar0 == pci.nic_bar0 && r.0.nic_command == pci.nic_command
        },
        bytes.len() >= 10 ==> pci.restore_outcome(bytes).1 == Ok::<usize, &'static str>(10),
{
}

} // verus!
