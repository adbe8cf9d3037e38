//! The port-I/O bus: the device trait, and the set of devices of a PC with their
//! ports and interrupt lines.
//!
//! Ports that no device claims read as 0xFF and ignore writes.

use crate::ata::{Ata, AtaState, PRIMARY_PORT_BASE, SECONDARY_PORT_BASE};
use crate::bits::{lemma_clear_line, lemma_set_line, line_set};
use crate::cmos::{Cmos, CmosState};
use crate::disk::Disk;
use crate::keyboard::{Keyboard, KeyboardState};
use crate::pci::{Pci, PORT_ADDR_LO, PORT_LAST};
use crate::pic::{law_ack_moves_request, law_pending_line, Pic};
use crate::pit::Pit;
use crate::uart::{Uart, UartState};
use vstd::prelude::*;

pub mod snapshot;

verus! {

/// A device that answers port I/O.
pub trait IoDevice {
    /// Whether the device's highest port is a 16-bit port number.
    spec fn fits_port_space(&self) -> bool;

    /// Whether the device can be handed an access to `port`.
    spec fn accepts(&self, port: u16) -> bool;

    /// Inclusive range of ports the device claims.
    fn port_range(&self) -> (range: (u16, u16))
        requires
            self.fits_port_space(),
        ensures
            range.0 <= range.1,
    ;

    /// Answers a byte read from `port`.
    fn read(&mut self, port: u16) -> (value: u8)
        requires
            old(self).accepts(port),
    ;

    /// Takes a byte written to `port`.
    fn write(&mut self, port: u16, value: u8)
        requires
            old(self).accepts(port),
    ;
}

/// The devices of a PC.
pub struct IoBus {
    pub uart: Uart,
    /// First interrupt controller, lines 0 to 7.
    pub pic: Pic,
    /// Second interrupt controller, lines 8 to 15, wired to line 2 of the first.
    pub slave_pic: Pic,
    pub pit: Pit,
    pub kbd: Keyboard,
    pub cmos: Cmos,
    /// First IDE channel, with the boot disk.
    pub ata: Ata,
    /// Second IDE channel.
    pub ata2: Ata,
    pub pci: Pci,
}

/// What the devices hold.
#[verifier::ext_equal]
pub struct BusState {
    pub uart: UartState,
    pub pic: Pic,
    pub slave_pic: Pic,
    pub pit: Pit,
    pub kbd: KeyboardState,
    pub cmos: CmosState,
    pub ata: AtaState,
    pub ata2: AtaState,
    pub pci: Pci,
}

impl View for IoBus {
    type V = BusState;

    open spec fn view(&self) -> BusState {
        BusState {
            uart: self.uart@,
            pic: self.pic,
            slave_pic: self.slave_pic,
            pit: self.pit,
            kbd: self.kbd@,
            cmos: self.cmos@,
            ata: self.ata@,
            ata2: self.ata2@,
            pci: self.pci,
        }
    }
}

/// Where an access goes.
pub enum Target {
    Uart,
    Pic,
    Pit,
    Keyboard,
    Cmos,
    SlavePic,
    Ata,
    Ata2,
    AtaControl,
    Ata2Control,
    Pci,
    /// No device answers.
    Open,
}

/// `x` with line `n` at the given level.
pub open spec fn at_level(x: u8, n: u8, level: bool) -> u8 {
    if level {
        x | (1u8 << n)
    } else {
        x & !(1u8 << n)
    }
}

impl BusState {
    /// Every device's ports are port numbers, and the devices are valid.
    pub open spec fn wf(self) -> bool {
        &&& self.uart.base <= 0xFFF8
        &&& self.pic.base_port < 0xFFFF
        &&& self.slave_pic.base_port < 0xFFFF
        &&& self.pit.base_port <= 0xFFFC
        &&& self.kbd.data_port <= self.kbd.status_port
        &&& self.cmos.index_port <= self.cmos.data_port
        &&& self.cmos.wf()
        &&& self.ata.port_base <= 0xFDF9
        &&& self.ata2.port_base <= 0xFDF9
    }

    /// The devices fresh from reset, with this UART.
    pub open spec fn fresh(uart: UartState) -> BusState {
        BusState {
            uart,
            pic: Pic::fresh(Pic::MASTER_BASE),
            slave_pic: Pic { vector_base: 0x70, ..Pic::fresh(0xA0) },
            pit: Pit::fresh(Pit::BASE),
            kbd: KeyboardState::power_on(
                Keyboard::DATA_PORT,
                Keyboard::STATUS_PORT,
                Seq::empty(),
            ),
            cmos: CmosState::power_on(),
            ata: AtaState::fresh(PRIMARY_PORT_BASE, Seq::empty()),
            ata2: AtaState::fresh(SECONDARY_PORT_BASE, Seq::empty()),
            pci: Pci { addr: 0, nic_bar0: 0, nic_command: 0 },
        }
    }

    /// The device that claims `port`: the first one in this order.
    pub open spec fn route(self, port: u16) -> Target {
        if self.uart.base <= port <= self.uart.base + 7 {
            Target::Uart
        } else if self.pic.base_port <= port <= self.pic.base_port + 1 {
            Target::Pic
        } else if self.pit.base_port <= port <= self.pit.base_port + 3 {
            Target::Pit
        } else if self.kbd.data_port <= port <= self.kbd.status_port {
            Target::Keyboard
        } else if self.cmos.index_port <= port <= self.cmos.data_port {
            Target::Cmos
        } else if self.slave_pic.base_port <= port <= self.slave_pic.base_port + 1 {
            Target::SlavePic
        } else if self.ata.port_base <= port <= self.ata.port_base + 7 {
            Target::Ata
        } else if self.ata2.port_base <= port <= self.ata2.port_base + 7 {
            Target::Ata2
        } else if port == self.ata.port_base + 0x206 {
            Target::AtaControl
        } else if port == self.ata2.port_base + 0x206 {
            Target::Ata2Control
        } else if PORT_ADDR_LO <= port <= PORT_LAST {
            Target::Pci
        } else {
            Target::Open
        }
    }

    /// What a read from `port` returns.
    pub open spec fn read_value(self, port: u16) -> u8 {
        match self.route(port) {
            Target::Uart => self.uart.read_value(port),
            Target::Pic => self.pic.read_value(port),
            Target::Pit => self.pit.read_value(port),
            Target::Keyboard => self.kbd.read_value(port),
            Target::Cmos => self.cmos.read_value(port),
            Target::SlavePic => self.slave_pic.read_value(port),
            Target::Ata => self.ata.read_value(port),
            Target::Ata2 => self.ata2.read_value(port),
            Target::AtaControl => self.ata.status,
            Target::Ata2Control => self.ata2.status,
            Target::Pci => self.pci.read_value(port),
            Target::Open => 0xFF,
        }
    }

    /// The devices after a read from `port`.
    pub open spec fn after_read(self, port: u16) -> BusState {
        match self.route(port) {
            Target::Uart => BusState { uart: self.uart.after_read(port), ..self },
            Target::Pit => BusState { pit: self.pit.after_read(port), ..self },
            Target::Keyboard => BusState { kbd: self.kbd.after_read(port), ..self },
            Target::Ata => BusState { ata: self.ata.after_read(port), ..self },
            Target::Ata2 => BusState { ata2: self.ata2.after_read(port), ..self },
            _ => self,
        }
    }

    /// The devices after a write of `value` to `port`.
    pub open spec fn after_write(self, port: u16, value: u8) -> BusState {
        match self.route(port) {
            Target::Uart => BusState { uart: self.uart.after_write(port, value), ..self },
            Target::Pic => BusState { pic: self.pic.after_write(port, value), ..self },
            Target::Pit => BusState { pit: self.pit.after_write(port, value), ..self },
            Target::Keyboard => BusState { kbd: self.kbd.after_write(port, value), ..self },
            Target::Cmos => BusState { cmos: self.cmos.after_write(port, value), ..self },
            Target::SlavePic => BusState {
                slave_pic: self.slave_pic.after_write(port, value),
                ..self
            },
            Target::Ata => BusState { ata: self.ata.after_write(port, value), ..self },
            Target::Ata2 => BusState { ata2: self.ata2.after_write(port, value), ..self },
            Target::AtaControl => self,
            Target::Ata2Control => self,
            Target::Pci => BusState { pci: self.pci.after_write(port, value), ..self },
            Target::Open => self,
        }
    }

    /// The devices after one refresh of the interrupt lines: the timer moves on
    /// by one tick; the UART (line 4), the keyboard (line 1), the mouse (line 12)
    /// and the second controller (line 2) show their level; a timer edge is
    /// latched on line 0.
    pub open spec fn refreshed(self) -> BusState {
        let ticked = self.pit.ticked(1);
        let slave_pic = Pic { irr: at_level(self.slave_pic.irr, 4, self.kbd.aux_irq()), ..self.slave_pic
        };
        let with_uart = at_level(
            self.pic.irr,
            4,
            self.uart.rx_interrupt() || self.uart.tx_interrupt(),
        );
        let with_kbd = at_level(with_uart, 1, self.kbd.kbd_irq());
        let with_timer = if ticked.ch0_pending_edge {
            with_kbd | (1u8 << 0u8)
        } else {
            with_kbd
        };
        BusState {
            pit: Pit { ch0_pending_edge: false, ..ticked },
            slave_pic,
            pic: Pic { irr: at_level(with_timer, 2, slave_pic.vector() is Some), ..self.pic },
            ..self
        }
    }

    /// The vector to deliver to the processor, if any. Line 2 of the first
    /// controller stands for whatever the second one has pending.
    pub open spec fn vector(self) -> Option<u8> {
        if self.pic.pending_line() == Some(2u8) {
            self.slave_pic.vector()
        } else {
            self.pic.vector()
        }
    }

    /// The devices after the processor has taken the pending interrupt: on line
    /// 2 both controllers move their request into service.
    pub open spec fn acked(self) -> BusState {
        BusState {
            pic: self.pic.acked(),
            slave_pic: if self.pic.pending_line() == Some(2u8) {
                self.slave_pic.acked()
            } else {
                self.slave_pic
            },
            ..self
        }
    }
}

impl IoBus {
    /// Every device's ports are port numbers, and the devices are valid.
    pub open spec fn wf(self) -> bool {
        self@.wf()
    }

    /// The boot disk.
    pub fn disk(&self) -> (disk: &Disk)
        ensures
            *disk == self.ata.disk,
            disk@ == self@.ata.disk,
    {
        &self.ata.disk
    }

    /// The boot disk, for changing.
    pub fn disk_mut(&mut self) -> (disk: &mut Disk)
        ensures
            *disk == old(self).ata.disk,
            final(self)@ == (BusState {
                ata: AtaState { disk: final(disk)@, ..old(self)@.ata },
                ..old(self)@
            }),
    {
        &mut self.ata.disk
    }

    /// The devices of a PC, fresh from reset.
    pub fn new() -> (bus: Self)
        ensures
            bus@ == BusState::fresh(UartState::fresh(Uart::COM1_BASE)),
            bus.wf(),
    {
        Self::with_uart(Uart::com1())
    }

    /// The devices of a PC, fresh from reset, around this UART.
    pub fn with_uart(uart: Uart) -> (bus: Self)
        ensures
            bus@ == BusState::fresh(uart@),
            uart@.base <= 0xFFF8 ==> bus.wf(),
    {
        let mut slave_pic = Pic::new(0xA0);
        slave_pic.vector_base = 0x70;
        IoBus {
            uart,
            pic: Pic::master(),
            slave_pic,
            pit: Pit::standard(),
            kbd: Keyboard::new(),
            cmos: Cmos::new(),
            ata: Ata::new(),
            ata2: Ata::with_port_base(SECONDARY_PORT_BASE),
            pci: Pci::new(),
        }
    }

    /// The UART, for changing.
    pub fn uart_mut(&mut self) -> (uart: &mut Uart)
        ensures
            *uart == old(self).uart,
            final(self)@ == (BusState { uart: final(uart)@, ..old(self)@ }),
    {
        &mut self.uart
    }

    /// The first interrupt controller, for changing.
    pub fn pic_mut(&mut self) -> (pic: &mut Pic)
        ensures
            *pic == old(self).pic,
            final(self)@ == (BusState { pic: *final(pic), ..old(self)@ }),
    {
        &mut self.pic
    }

    /// Brings every interrupt request up to date and moves the timer on by one
    /// tick. To be called once per processor step, before asking for a pending
    /// interrupt.
    pub fn refresh_irqs(&mut self)
        ensures
            final(self)@ == old(self)@.refreshed(),
    {
        self.pic.irr = with_level(self.pic.irr, 4, self.uart.irq_pending());
        self.pic.irr = with_level(self.pic.irr, 1, self.kbd.irq_pending());
        self.pit.tick(1);
        if self.pit.take_ch0_pending() {
            self.pic.irr = self.pic.irr | (1u8 << 0u8);
        }
        self.slave_pic.irr = with_level(self.slave_pic.irr, 4, self.kbd.aux_irq_pending());
        self.pic.irr = with_level(self.pic.irr, 2, self.slave_pic.pending_vector().is_some());
    }

    /// The vector to deliver to the processor, if any.
    pub fn pending_irq_vector(&self) -> (vector: Option<u8>)
        ensures
            vector == self@.vector(),
    {
        proof {
            crate::bits::lemma_lowest_line_is_minimum(self.pic.candidates());
        }
        match self.pic.pending_vector() {
            None => None,
            Some(v) => {
                let line: u8 = v.wrapping_sub(self.pic.vector_base);
                assert(self.pic.pending_line() == Some(line));
                if line == 2 {
                    self.slave_pic.pending_vector()
                } else {
                    Some(v)
                }
            },
        }
    }

    /// The processor takes the pending interrupt.
    pub fn ack_irq(&mut self)
        ensures
            final(self)@ == old(self)@.acked(),
    {
        proof {
            crate::bits::lemma_lowest_line_is_minimum(self.pic.candidates());
        }
        if let Some(v) = self.pic.pending_vector() {
            let line: u8 = v.wrapping_sub(self.pic.vector_base);
            assert(self.pic.pending_line() == Some(line));
            if line == 2 {
                self.slave_pic.ack();
            }
            self.pic.ack();
        }
    }

    /// Answers a byte read from `port`.
    pub fn read(&mut self, port: u16) -> (value: u8)
        requires
            old(self).wf(),
        ensures
            value == old(self)@.read_value(port),
            final(self)@ == old(self)@.after_read(port),
            final(self).wf(),
    {
        let range: (u16, u16) = self.uart.port_range();
        if range.0 <= port && port <= range.1 {
            return self.uart.read(port);
        }
        let range: (u16, u16) = self.pic.port_range();
        if range.0 <= port && port <= range.1 {
            return self.pic.read(port);
        }
        let range: (u16, u16) = self.pit.port_range();
        if range.0 <= port && port <= range.1 {
            return self.pit.read(port);
        }
        let range: (u16, u16) = self.kbd.port_range();
        if range.0 <= port && port <= range.1 {
            return self.kbd.read(port);
        }
        let range: (u16, u16) = self.cmos.port_range();
        if range.0 <= port && port <= range.1 {
            return self.cmos.read(port);
        }
        let range: (u16, u16) = self.slave_pic.port_range();
        if range.0 <= port && port <= range.1 {
            return self.slave_pic.read(port);
        }
        let range: (u16, u16) = self.ata.port_range();
        if range.0 <= port && port <= range.1 {
            return self.ata.read(port);
        }
        let range: (u16, u16) = self.ata2.port_range();
        if range.0 <= port && port <= range.1 {
            return self.ata2.read(port);
        }
        if port == self.ata.control_port() {
            return self.ata.read_alt_status();
        }
        if port == self.ata2.control_port() {
            return self.ata2.read_alt_status();
        }
        let range: (u16, u16) = self.pci.port_range();
        if range.0 <= port && port <= range.1 {
            return self.pci.read(port);
        }
        0xFF
    }

    /// Takes a byte written to `port`.
    pub fn write(&mut self, port: u16, value: u8)
        requires
            old(self).wf(),
        ensures
            final(self)@ == old(self)@.after_write(port, value),
            final(self).wf(),
    {
        let range: (u16, u16) = self.uart.port_range();
        if range.0 <= port && port <= range.1 {
            self.uart.write(port, value);
            return ;
        }
        let range: (u16, u16) = self.pic.port_range();
        if range.0 <= port && port <= range.1 {
            self.pic.write(port, value);
            return ;
        }
        let range: (u16, u16) = self.pit.port_range();
        if range.0 <= port && port <= range.1 {
            self.pit.write(port, value);
            return ;
        }
        let range: (u16, u16) = self.kbd.port_range();
        if range.0 <= port && port <= range.1 {
            self.kbd.write(port, value);
            return ;
        }
        let range: (u16, u16) = self.cmos.port_range();
        if range.0 <= port && port <= range.1 {
            self.cmos.write(port, value);
            return ;
        }
        let range: (u16, u16) = self.slave_pic.port_range();
        if range.0 <= port && port <= range.1 {
            self.slave_pic.write(port, value);
            return ;
        }
        let range: (u16, u16) = self.ata.port_range();
        if range.0 <= port && port <= range.1 {
            self.ata.write(port, value);
            return ;
        }
        let range: (u16, u16) = self.ata2.port_range();
        if range.0 <= port && port <= range.1 {
            self.ata2.write(port, value);
            return ;
        }
        if port == self.ata.control_port() {
            self.ata.write_device_control(value);
            return ;
        }
        if port == self.ata2.control_port() {
            self.ata2.write_device_control(value);
            return ;
        }
        let range: (u16, u16) = self.pci.port_range();
        if range.0 <= port && port <= range.1 {
            self.pci.write(port, value);
        }
    }
}

fn with_level(x: u8, n: u8, level: bool) -> (r: u8)
    requires
        n < 8,
    ensures
        r == at_level(x, n, level),
{
    if level {
        x | (1u8 << n)
    } else {
        x & !(1u8 << n)
    }
}

impl Default for IoBus {
    fn default() -> (bus: Self)
        ensures
            bus@ == BusState::fresh(UartState::fresh(Uart::COM1_BASE)),
            bus.wf(),
    {
        IoBus::new()
    }
}

/// An access changes no device but the one that claims the port.
pub proof fn law_access_reaches_one_device(bus: BusState, port: u16, value: u8)
    ensures
        ({
            let r = bus.after_read(port);
            let w = bus.after_write(port, value);
            let target = bus.route(port);
            &&& target !is Uart ==> r.uart == bus.uart && w.uart == bus.uart
            &&& target !is Pic ==> r.pic == bus.pic && w.pic == bus.pic
            &&& target !is SlavePic ==> r.slave_pic == bus.slave_pic && w.slave_pic
                == bus.slave_pic
            &&& target !is Pit ==> r.pit == bus.pit && w.pit == bus.pit
            &&& target !is Keyboard ==> r.kbd == bus.kbd && w.kbd == bus.kbd
            &&& target !is Cmos ==> r.cmos == bus.cmos && w.cmos == bus.cmos
            &&& target !is Ata ==> r.ata == bus.ata && w.ata == bus.ata
            &&& target !is Ata2 ==> r.ata2 == bus.ata2 && w.ata2 == bus.ata2
            &&& target !is Pci ==> r.pci == bus.pci && w.pci == bus.pci
        }),
{
}

/// A port that nothing claims reads as ones and forgets what is written to it.
pub proof fn law_open_port(bus: BusState, port: u16, value: u8)
    requires
        bus.route(port) is Open,
    ensures
        bus.read_value(port) == 0xFF,
        bus.after_read(port) == bus,
        bus.after_write(port, value) == bus,
{
}

/// After a refresh the request lines of the UART, the keyboard, the mouse and the
/// second controller show exactly what those devices assert.
pub proof fn law_refresh_mirrors_levels(bus: BusState)
    ensures
        ({
            let r = bus.refreshed();
            &&& line_set(r.pic.irr, 4) <==> bus.uart.rx_interrupt() || bus.uart.tx_interrupt()
            &&& line_set(r.pic.irr, 1) <==> bus.kbd.kbd_irq()
            &&& line_set(r.slave_pic.irr, 4) <==> bus.kbd.aux_irq()
            &&& line_set(r.pic.irr, 2) <==> r.slave_pic.vector() is Some
            &&& bus.pit.ticked(1).ch0_pending_edge ==> line_set(r.pic.irr, 0)
        }),
{
    let x = bus.pic.irr;
    let uart = bus.uart.rx_interrupt() || bus.uart.tx_interrupt();
    let kbd = bus.kbd.kbd_irq();
    let edge = bus.pit.ticked(1).ch0_pending_edge;
    let a = at_level(x, 4, uart);
    let b = at_level(a, 1, kbd);
    let c = if edge {
        b | (1u8 << 0u8)
    } else {
        b
    };
    let d = at_level(c, 2, bus.refreshed().slave_pic.vector() is Some);
    assert(bus.refreshed().pic.irr == d);
    lemma_level(x, 4, uart, 4);
    lemma_level(a, 1, kbd, 4);
    lemma_level(a, 1, kbd, 1);
    lemma_set_line(b, 0, 4);
    lemma_set_line(b, 0, 1);
    lemma_set_line(b, 0, 0);
    lemma_level(c, 2, bus.refreshed().slave_pic.vector() is Some, 4);
    lemma_level(c, 2, bus.refreshed().slave_pic.vector() is Some, 1);
    lemma_level(c, 2, bus.refreshed().slave_pic.vector() is Some, 0);
    lemma_level(c, 2, bus.refreshed().slave_pic.vector() is Some, 2);
    lemma_level(bus.slave_pic.irr, 4, bus.kbd.aux_irq(), 4);
}

proof fn lemma_level(x: u8, n: u8, level: bool, m: u8)
    requires
        n < 8,
        m < 8,
    ensures
        line_set(at_level(x, n, level), m as int) == (if m == n {
            level
        } else {
            line_set(x, m as int)
        }),
{
    lemma_set_line(x, n, m);
    lemma_clear_line(x, n, m);
}

/// The processor never sees the line that joins the controllers: after a refresh,
/// when that line is the pending one, the vector is the second controller's and
/// there is one, and taking the interrupt moves both requests into service.
pub proof fn law_cascade_is_transparent(bus: BusState)
    requires
        bus.refreshed().pic.pending_line() == Some(2u8),
    ensures
        bus.refreshed().vector() is Some,
        bus.refreshed().vector() == bus.refreshed().slave_pic.vector(),
        line_set(bus.refreshed().acked().pic.isr, 2),
        match bus.refreshed().slave_pic.pending_line() {
            Some(n) => line_set(bus.refreshed().acked().slave_pic.isr, n as int) && !line_set(
                bus.refreshed().acked().slave_pic.irr,
                n as int,
            ),
            None => false,
        },
{
    let r = bus.refreshed();
    law_refresh_mirrors_levels(bus);
    law_pending_line(r.pic);
    law_ack_moves_request(r.pic, 2);
    law_pending_line(r.slave_pic);
    let n = r.slave_pic.pending_line()->0;
    law_ack_moves_request(r.slave_pic, n as int);
}

/// Where the devices of a new bus are: the serial port at 0x3F8, the interrupt controllers at
/// 0x20 and 0xA0, the timer at 0x40, the keyboard controller from 0x60 to 0x64, the clock at
/// 0x70, the disk channels at 0x1F0 and 0x170 with a control port each at 0x3F6 and 0x376,
/// and the PCI window at 0xCF8.
pub proof fn law_standard_ports(port: u16)
    ensures
        ({
            let target = BusState::fresh(UartState::fresh(Uart::COM1_BASE)).route(port);
            &&& target is Uart <==> 0x3F8 <= port <= 0x3FF
            &&& target is Pic <==> port == 0x20 || port == 0x21
            &&& target is SlavePic <==> port == 0xA0 || port == 0xA1
            &&& target is Pit <==> 0x40 <= port <= 0x43
            &&& target is Keyboard <==> 0x60 <= port <= 0x64
            &&& target is Cmos <==> port == 0x70 || port == 0x71
            &&& target is Ata <==> 0x1F0 <= port <= 0x1F7
            &&& target is Ata2 <==> 0x170 <= port <= 0x177
            &&& target is AtaControl <==> port == 0x3F6
            &&& target is Ata2Control <==> port == 0x376
            &&& target is Pci <==> 0xCF8 <= port <= 0xCFF
        }),
{
}

/// What a new bus holds: two interrupt controllers with every line masked, whose vectors
/// start at 8 and 0x70, no disks, nothing set in the PCI window, and the serial port that
/// was put in.
pub proof fn law_new_bus(uart: UartState)
    ensures
        ({
            let bus = BusState::fresh(uart);
            &&& bus.uart == uart
            &&& bus.pic.vector_base == 8
            &&& bus.slave_pic.vector_base == 0x70
            &&& bus.pic.imr == 0xFF && bus.slave_pic.imr == 0xFF
            &&& bus.ata.disk.len() == 0 && bus.ata2.disk.len() == 0
            &&& bus.pci.addr == 0 && bus.pci.nic_bar0 == 0 && bus.pci.nic_command == 0
            &&& !bus.pit.ch0_running
        }),
{
}

/// A device is handed every access to its own ports and gives the answer; a control port
/// tells how its disk channel stands, and changes nothing.
pub proof fn law_access_is_passed_on(bus: BusState, port: u16, value: u8)
    ensures
        ({
            let got = bus.read_value(port);
            let r = bus.after_read(port);
            let w = bus.after_write(port, value);
            match bus.route(port) {
                Target::Uart => got == bus.uart.read_value(port) && r.uart == bus.uart.after_read(
                    port,
                ) && w.uart == bus.uart.after_write(port, value),
                Target::Pic => got == bus.pic.read_value(port) && w.pic == bus.pic.after_write(
                    port,
                    value,
                ) && r == bus,
                Target::SlavePic => got == bus.slave_pic.read_value(port) && w.slave_pic
                    == bus.slave_pic.after_write(port, value) && r == bus,
                Target::Pit => got == bus.pit.read_value(port) && r.pit == bus.pit.after_read(port)
                    && w.pit == bus.pit.after_write(port, value),
                Target::Keyboard => got == bus.kbd.read_value(port) && r.kbd == bus.kbd.after_read(
                    port,
                ) && w.kbd == bus.kbd.after_write(port, value),
                Target::Cmos => got == bus.cmos.read_value(port) && w.cmos == bus.cmos.after_write(
                    port,
                    value,
                ) && r == bus,
                Target::Ata => got == bus.ata.read_value(port) && r.ata == bus.ata.after_read(port)
                    && w.ata == bus.ata.after_write(port, value),
                Target::Ata2 => got == bus.ata2.read_value(port) && r.ata2 == bus.ata2.after_read(
                    port,
                ) && w.ata2 == bus.ata2.after_write(port, value),
                Target::AtaControl => got == bus.ata.status && r == bus && w == bus,
                Target::Ata2Control => got == bus.ata2.status && r == bus && w == bus,
                Target::Pci => got == bus.pci.read_value(port) && w.pci == bus.pci.after_write(
                    port,
                    value,
                ) && r == bus,
                Target::Open => got == 0xFF && r == bus && w == bus,
            }
        }),
{
}

/// What a refresh leaves alone: lines that no device drives, a timer line that is already
/// raised, masks, lines in service, and every device but the timer, which it moves on by one
/// tick and whose edge it takes.
pub proof fn law_refresh_touches_nothing_else(bus: BusState, m: u8)
    requires
        m < 8,
    ensures
        ({
            let r = bus.refreshed();
            &&& m != 0 && m != 1 && m != 2 && m != 4 ==> line_set(r.pic.irr, m as int) == line_set(
                bus.pic.irr,
                m as int,
            )
            &&& m != 4 ==> line_set(r.slave_pic.irr, m as int) == line_set(
                bus.slave_pic.irr,
                m as int,
            )
            &&& !bus.pit.ticked(1).ch0_pending_edge ==> line_set(r.pic.irr, 0) == line_set(
                bus.pic.irr,
                0,
            )
            &&& r.pic == (Pic { irr: r.pic.irr, ..bus.pic })
            &&& r.slave_pic == (Pic { irr: r.slave_pic.irr, ..bus.slave_pic })
            &&& r.pit == (Pit { ch0_pending_edge: false, ..bus.pit.ticked(1) })
            &&& r.uart == bus.uart && r.kbd == bus.kbd && r.cmos == bus.cmos && r.pci == bus.pci
            &&& r.ata == bus.ata && r.ata2 == bus.ata2
        }),
{
    let x = bus.pic.irr;
    let uart = bus.uart.rx_interrupt() || bus.uart.tx_interrupt();
    let kbd = bus.kbd.kbd_irq();
    let edge = bus.pit.ticked(1).ch0_pending_edge;
    let a = at_level(x, 4, uart);
    let b = at_level(a, 1, kbd);
    let c = if edge {
        b | (1u8 << 0u8)
    } else {
        b
    };
    let second = bus.refreshed().slave_pic.vector() is Some;
    assert(bus.refreshed().pic.irr == at_level(c, 2, second));
    lemma_level(x, 4, uart, m);
    lemma_level(a, 1, kbd, m);
    lemma_set_line(b, 0, m);
    lemma_level(c, 2, second, m);
    lemma_level(x, 4, uart, 0);
    lemma_level(a, 1, kbd, 0);
    lemma_level(c, 2, second, 0);
    lemma_level(bus.slave_pic.irr, 4, bus.kbd.aux_irq(), m);
}

/// An interrupt of the first controller is its own, and taking it does not concern the
/// second. Taking one concerns nothing but the controllers.
pub proof fn law_own_interrupts(bus: BusState)
    ensures
        bus.pic.pending_line() != Some(2u8) ==> bus.vector() == bus.pic.vector()
            && bus.acked().slave_pic == bus.slave_pic,
        bus.acked() == (BusState {
            pic: bus.acked().pic,
            slave_pic: bus.acked().slave_pic,
            ..bus
        }),
        bus.acked().pic == bus.pic.acked(),
{
}

} // verus!
