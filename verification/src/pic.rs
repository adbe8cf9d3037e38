//! 8259A programmable interrupt controller.
//!
//! Modelled: the mask, request and in-service registers, the vector base, the
//! initialization sequence (ICW3 and ICW4 are accepted and dropped), the two
//! end-of-interrupt commands with their rotating variants (the rotation itself
//! is ignored), and the choice of register that a command-port read returns.
//! Poll mode and automatic end-of-interrupt are not modelled.

use crate::bits::{find_lowest_line, lemma_clear_line, lemma_clear_undoes_set, lemma_line_of_candidates, lemma_lowest_line_is_minimum, lemma_no_line_in_zero, lemma_set_line, line_set, lowest_line};
use crate::iobus::IoDevice;
use vstd::prelude::*;

verus! {

/// Which register a command-port read returns.
#[derive(Copy, Clone, Debug, PartialEq, Eq, Structural)]
pub enum ReadSelect {
    Irr,
    Isr,
}

/// Progress through the initialization command words.
#[derive(Copy, Clone, Debug, PartialEq, Eq, Structural)]
pub enum InitState {
    /// Normal operation; a data-port write sets the mask.
    Idle,
    /// The next data-port write is ICW2, the vector base.
    ExpectIcw2,
    /// The next data-port write is ICW3, which is dropped.
    ExpectIcw3,
    /// The next data-port write is ICW4, which is dropped.
    ExpectIcw4,
}

impl InitState {
    /// The byte that stands for the state in a snapshot.
    pub open spec fn tag(self) -> u8 {
        match self {
            InitState::Idle => 0,
            InitState::ExpectIcw2 => 1,
            InitState::ExpectIcw3 => 2,
            InitState::ExpectIcw4 => 3,
        }
    }

    /// The state that a snapshot byte stands for.
    pub open spec fn of_tag(tag: u8) -> Option<InitState> {
        if tag == 0 {
            Some(InitState::Idle)
        } else if tag == 1 {
            Some(InitState::ExpectIcw2)
        } else if tag == 2 {
            Some(InitState::ExpectIcw3)
        } else if tag == 3 {
            Some(InitState::ExpectIcw4)
        } else {
            None
        }
    }
}

/// One interrupt controller with eight request lines.
#[derive(Copy, Clone, Debug, PartialEq, Eq, Structural)]
pub struct Pic {
    pub base_port: u16,
    pub vector_base: u8,
    pub imr: u8,
    pub irr: u8,
    pub isr: u8,
    pub init_state: InitState,
    pub read_select: ReadSelect,
}

impl Pic {
    /// Command port of the first controller of a PC.
    pub const MASTER_BASE: u16 = 0x20;

    /// The lines that are requested, unmasked and not already in service.
    pub open spec fn candidates(self) -> u8 {
        self.irr & !self.imr & !self.isr
    }

    /// The line that would be served next, if any.
    pub open spec fn pending_line(self) -> Option<u8> {
        lowest_line(self.candidates())
    }

    /// The vector of the line that would be served next, if any.
    pub open spec fn vector(self) -> Option<u8> {
        match self.pending_line() {
            None => None,
            Some(n) => Some(((self.vector_base + n) % 256) as u8),
        }
    }

    /// The controller fresh from reset.
    pub open spec fn fresh(base_port: u16) -> Pic {
        Pic {
            base_port,
            vector_base: 0x08,
            imr: 0xFF,
            irr: 0,
            isr: 0,
            init_state: InitState::Idle,
            read_select: ReadSelect::Irr,
        }
    }

    /// The controller after the processor has taken the pending line.
    pub open spec fn acked(self) -> Pic {
        match self.pending_line() {
            None => self,
            Some(n) => Pic {
                irr: self.irr & !(1u8 << n),
                isr: self.isr | (1u8 << n),
                ..self
            },
        }
    }

    /// The controller after its highest-priority line has left service.
    pub open spec fn after_non_specific_eoi(self) -> Pic {
        match lowest_line(self.isr) {
            None => self,
            Some(n) => Pic { isr: self.isr & !(1u8 << n), ..self },
        }
    }

    /// The controller after line `irq` has left service.
    pub open spec fn after_specific_eoi(self, irq: u8) -> Pic {
        if irq < 8 {
            Pic { isr: self.isr & !(1u8 << irq), ..self }
        } else {
            self
        }
    }

    /// The controller after `value` has been written to its command port.
    pub open spec fn after_command(self, value: u8) -> Pic {
        if value & 0x10 != 0 {
            Pic { init_state: InitState::ExpectIcw2, imr: 0, isr: 0, irr: 0, ..self }
        } else if value & 0x18 == 0x08 {
            if value & 0b11 == 0b10 {
                Pic { read_select: ReadSelect::Irr, ..self }
            } else if value & 0b11 == 0b11 {
                Pic { read_select: ReadSelect::Isr, ..self }
            } else {
                self
            }
        } else if value & 0x18 == 0 {
            let operation = value & 0xE0;
            if operation == 0x20 || operation == 0xA0 {
                self.after_non_specific_eoi()
            } else if operation == 0x60 || operation == 0xE0 {
                self.after_specific_eoi(value & 0x07)
            } else {
                self
            }
        } else {
            self
        }
    }

    /// The controller after `value` has been written to its data port.
    pub open spec fn after_data(self, value: u8) -> Pic {
        match self.init_state {
            InitState::Idle => Pic { imr: value, ..self },
            InitState::ExpectIcw2 => Pic {
                vector_base: value & 0xF8,
                init_state: InitState::ExpectIcw3,
                ..self
            },
            InitState::ExpectIcw3 => Pic { init_state: InitState::ExpectIcw4, ..self },
            InitState::ExpectIcw4 => Pic { init_state: InitState::Idle, ..self },
        }
    }

    /// The controller after a write of `value` to `port`.
    pub open spec fn after_write(self, port: u16, value: u8) -> Pic {
        if port == self.base_port {
            self.after_command(value)
        } else if port == self.base_port + 1 {
            self.after_data(value)
        } else {
            self
        }
    }

    /// What a read from `port` returns.
    pub open spec fn read_value(self, port: u16) -> u8 {
        if port == self.base_port {
            match self.read_select {
                ReadSelect::Irr => self.irr,
                ReadSelect::Isr => self.isr,
            }
        } else if port == self.base_port + 1 {
            self.imr
        } else {
            0
        }
    }

    /// The five bytes that a snapshot holds of the controller.
    pub open spec fn snapshot_bytes(self) -> Seq<u8> {
        seq![self.vector_base, self.imr, self.irr, self.isr, self.init_state.tag()]
    }

    /// The controller and the result that `restore` leaves behind.
    pub open spec fn restore_outcome(self, bytes: Seq<u8>) -> (Pic, Result<usize, &'static str>) {
        if bytes.len() < 5 {
            (self, Err("pic: truncated"))
        } else {
            let loaded = Pic {
                vector_base: bytes[0],
                imr: bytes[1],
                irr: bytes[2],
                isr: bytes[3],
                ..self
            };
            match InitState::of_tag(bytes[4]) {
                Some(init_state) => (Pic { init_state, ..loaded }, Ok(5)),
                None => (loaded, Err("pic: bad init_state tag")),
            }
        }
    }

    pub fn new(base_port: u16) -> (pic: Self)
        ensures
            pic == Pic::fresh(base_port),
    {
        Pic {
            base_port,
            vector_base: 0x08,
            imr: 0xFF,
            irr: 0,
            isr: 0,
            init_state: InitState::Idle,
            read_select: ReadSelect::Irr,
        }
    }

    /// The controller at [`Pic::MASTER_BASE`].
    pub fn master() -> (pic: Self)
        ensures
            pic == Pic::fresh(Pic::MASTER_BASE),
    {
        Self::new(Self::MASTER_BASE)
    }

    /// A device asserts request line `n`; there are lines 0 to 7 only.
    pub fn raise_irq(&mut self, n: u8)
        ensures
            n < 8 ==> *final(self) == (Pic { irr: old(self).irr | (1u8 << n), ..*old(self) }),
            n >= 8 ==> *final(self) == *old(self),
    {
        if n < 8 {
            self.irr = self.irr | (1u8 << n);
        }
    }

    /// The vector of the line that would be served next, if any.
    pub fn pending_vector(&self) -> (vector: Option<u8>)
        ensures
            vector == self.vector(),
    {
        match find_lowest_line(self.irr & !self.imr & !self.isr) {
            None => None,
            Some(n) => Some(self.vector_base.wrapping_add(n)),
        }
    }

    /// The processor takes the line that `pending_vector` names: its request
    /// becomes an in-service bit.
    pub fn ack(&mut self)
        ensures
            *final(self) == old(self).acked(),
    {
        if let Some(n) = find_lowest_line(self.irr & !self.imr & !self.isr) {
            proof {
                lemma_lowest_line_is_minimum(self.candidates());
            }
            let bit: u8 = 1u8 << n;
            self.irr = self.irr & !bit;
            self.isr = self.isr | bit;
        }
    }

    /// Appends the vector base, the three registers and the initialization
    /// state to `out`.
    pub fn snapshot_into(&self, out: &mut Vec<u8>)
        ensures
            final(out)@ == old(out)@ + self.snapshot_bytes(),
    {
        out.push(self.vector_base);
        out.push(self.imr);
        out.push(self.irr);
        out.push(self.isr);
        out.push(
            match self.init_state {
                InitState::Idle => 0,
                InitState::ExpectIcw2 => 1,
                InitState::ExpectIcw3 => 2,
                InitState::ExpectIcw4 => 3,
            },
        );
    }

    /// Takes back what `snapshot_into` wrote and returns its length. A bad
    /// state tag is noticed only after the registers have been loaded.
    pub fn restore(&mut self, bytes: &[u8]) -> (r: Result<usize, &'static str>)
        ensures
            (*final(self), r) == old(self).restore_outcome(bytes@),
    {
        if bytes.len() < 5 {
            return Err("pic: truncated");
        }
        self.vector_base = bytes[0];
        self.imr = bytes[1];
        self.irr = bytes[2];
        self.isr = bytes[3];
        self.init_state = match bytes[4] {
            0 => InitState::Idle,
            1 => InitState::ExpectIcw2,
            2 => InitState::ExpectIcw3,
            3 => InitState::ExpectIcw4,
            _ => return Err("pic: bad init_state tag"),
        };
        Ok(5)
    }

    fn non_specific_eoi(&mut self)
        ensures
            *final(self) == old(self).after_non_specific_eoi(),
    {
        if let Some(n) = find_lowest_line(self.isr) {
            proof {
                lemma_lowest_line_is_minimum(self.isr);
            }
            self.isr = self.isr & !(1u8 << n);
        }
    }

    fn specific_eoi(&mut self, irq: u8)
        ensures
            *final(self) == old(self).after_specific_eoi(irq),
    {
        if irq < 8 {
            self.isr = self.isr & !(1u8 << irq);
        }
    }
}

impl IoDevice for Pic {
    open spec fn fits_port_space(&self) -> bool {
        self.base_port < 0xFFFF
    }

    open spec fn accepts(&self, port: u16) -> bool {
        port >= self.base_port
    }

    fn port_range(&self) -> (range: (u16, u16))
        ensures
            range == (self.base_port, (self.base_port + 1) as u16),
    {
        (self.base_port, self.base_port + 1)
    }

    fn read(&mut self, port: u16) -> (value: u8)
        ensures
            value == old(self).read_value(port),
            *final(self) == *old(self),
    {
        match port - self.base_port {
            0 => match self.read_select {
                ReadSelect::Irr => self.irr,
                ReadSelect::Isr => self.isr,
            },
            1 => self.imr,
            _ => 0,
        }
    }

    fn write(&mut self, port: u16, value: u8)
        ensures
            *final(self) == old(self).after_write(port, value),
    {
        match port - self.base_port {
            0 => {
                if value & 0x10 != 0 {
                    self.init_state = InitState::ExpectIcw2;
                    self.imr = 0;
                    self.isr = 0;
                    self.irr = 0;
                } else if value & 0x18 == 0x08 {
                    match value & 0b11 {
                        0b10 => self.read_select = ReadSelect::Irr,
                        0b11 => self.read_select = ReadSelect::Isr,
                        _ => {},
                    }
                } else if value & 0x18 == 0x00 {
                    match value & 0xE0 {
                        0x20 => self.non_specific_eoi(),
                        0x60 => self.specific_eoi(value & 0x07),
                        0xA0 => self.non_specific_eoi(),
                        0xE0 => self.specific_eoi(value & 0x07),
                        _ => {},
                    }
                }
            },
            1 => match self.init_state {
                InitState::Idle => self.imr = value,
                InitState::ExpectIcw2 => {
                    self.vector_base = value & 0xF8;
                    self.init_state = InitState::ExpectIcw3;
                },
                InitState::ExpectIcw3 => {
                    self.init_state = InitState::ExpectIcw4;
                },
                InitState::ExpectIcw4 => {
                    self.init_state = InitState::Idle;
                },
            },
            _ => {},
        }
    }
}

/// A line that is masked, not requested or already in service is never the
/// pending one, and no line of higher priority than the pending one is waiting.
pub proof fn law_pending_line(pic: Pic)
    ensures
        match pic.pending_line() {
            Some(n) => {
                &&& n < 8
                &&& line_set(pic.irr, n as int)
                &&& !line_set(pic.imr, n as int)
                &&& !line_set(pic.isr, n as int)
                &&& forall|m: int|
                    0 <= m < n && #[trigger] line_set(pic.irr, m) ==> line_set(pic.imr, m)
                        || line_set(pic.isr, m)
            },
            None => forall|m: int| #[trigger]
                line_set(pic.irr, m) ==> line_set(pic.imr, m) || line_set(pic.isr, m),
        },
{
    lemma_lowest_line_is_minimum(pic.candidates());
    assert forall|m: int| 0 <= m < 8 implies (#[trigger] line_set(pic.candidates(), m) <==> line_set(
        pic.irr,
        m,
    ) && !line_set(pic.imr, m) && !line_set(pic.isr, m)) by {
        lemma_line_of_candidates(pic.irr, pic.imr, pic.isr, m as u8);
    }
    if pic.pending_line() is None {
        assert forall|m: int| #[trigger] line_set(pic.irr, m) implies line_set(pic.imr, m)
            || line_set(pic.isr, m) by {
            assert(line_set(pic.candidates(), m) <==> line_set(pic.irr, m) && !line_set(pic.imr, m)
                && !line_set(pic.isr, m));
            lemma_no_line_in_zero(m as u8);
        }
    } else {
        let n = pic.pending_line()->0;
        assert forall|m: int| 0 <= m < n && #[trigger] line_set(pic.irr, m) implies line_set(
            pic.imr,
            m,
        ) || line_set(pic.isr, m) by {
            assert(!line_set(pic.candidates(), m));
        }
    }
}

/// Acknowledging turns exactly the pending request into an in-service bit:
/// every other line, the mask and the rest of the controller stay as they are.
pub proof fn law_ack_moves_request(pic: Pic, m: int)
    requires
        0 <= m < 8,
    ensures
        pic.acked().imr == pic.imr,
        pic.acked().vector_base == pic.vector_base,
        match pic.pending_line() {
            None => pic.acked() == pic,
            Some(n) => {
                &&& line_set(pic.acked().irr, m) <==> line_set(pic.irr, m) && m != n
                &&& line_set(pic.acked().isr, m) <==> line_set(pic.isr, m) || m == n
                &&& pic.acked().pending_line() != Some(n)
            },
        },
{
    law_pending_line(pic);
    law_pending_line(pic.acked());
    if let Some(n) = pic.pending_line() {
        lemma_set_line(pic.isr, n, m as u8);
        lemma_clear_line(pic.irr, n, m as u8);
        lemma_set_line(pic.isr, n, n);
    }
}

/// A non-specific end of interrupt right after an acknowledge takes the same
/// line out of service again, provided no line of higher priority was there.
pub proof fn law_eoi_ends_what_ack_began(pic: Pic)
    requires
        pic.pending_line() is Some,
        forall|m: int| 0 <= m < pic.pending_line()->0 ==> !line_set(pic.isr, m),
    ensures
        pic.acked().after_non_specific_eoi().isr == pic.isr,
{
    let n = pic.pending_line()->0;
    law_pending_line(pic);
    let acked = pic.acked();
    lemma_lowest_line_is_minimum(acked.isr);
    lemma_set_line(pic.isr, n, n);
    lemma_no_line_in_zero(n);
    assert(lowest_line(acked.isr) is Some);
    let low = lowest_line(acked.isr)->0;
    lemma_set_line(pic.isr, n, low);
    assert(line_set(acked.isr, n as int));
    assert(line_set(pic.isr, low as int) || low == n);
    lemma_clear_undoes_set(pic.isr, n);
}

/// A restored controller has the registers and the initialization state that
/// were captured; its port and its read selection are its own.
pub proof fn law_snapshot_round_trip(captured: Pic, target: Pic, tail: Seq<u8>)
    ensures
        target.restore_outcome(captured.snapshot_bytes() + tail) == (
            Pic { base_port: target.base_port, read_select: target.read_select, ..captured },
            Ok::<usize, &'static str>(5),
        ),
{
}

/// The initialization sequence: a command with bit 4 set clears all registers; of the
/// three bytes that follow on the data port the first is the vector base, of which the
/// low three bits are dropped, and the other two change nothing. After them the data port
/// is the mask, which reads back.
pub proof fn law_initialization_sets_vector_base(
    pic: Pic,
    icw1: u8,
    base: u8,
    icw3: u8,
    icw4: u8,
    mask: u8,
)
    requires
        pic.base_port < 0xFFFF,
        icw1 / 16 % 2 == 1,
    ensures
        ({
            let data = (pic.base_port + 1) as u16;
            let begun = pic.after_write(pic.base_port, icw1);
            let done = begun.after_write(data, base).after_write(data, icw3).after_write(
                data,
                icw4,
            );
            let ready = done.after_write(data, mask);
            &&& begun.imr == 0 && begun.irr == 0 && begun.isr == 0
            &&& done.imr == 0 && done.irr == 0 && done.isr == 0
            &&& done.vector_base == base / 8 * 8
            &&& ready == (Pic { imr: mask, ..done })
            &&& ready.read_value(data) == mask
            &&& ready.read_select == pic.read_select && ready.base_port == pic.base_port
        }),
{
    lemma_command_bits(icw1);
    lemma_base_bits(base);
}

/// Commands without bit 4: with bit 3 clear the upper three bits say what ends. 1 and 5
/// take the lowest line in service out of service, 3 and 7 the line in the low three
/// bits; all others do nothing. With bit 3 set, 2 and 3 in the low two bits choose the
/// request or the in-service register for reading.
pub proof fn law_commands(pic: Pic, value: u8, m: int)
    requires
        value / 16 % 2 == 0,
        0 <= m < 8,
    ensures
        ({
            let later = pic.after_write(pic.base_port, value);
            let top = value / 32;
            &&& value / 8 % 2 == 1 && value % 4 == 2 ==> later == (Pic {
                read_select: ReadSelect::Irr,
                ..pic
            })
            &&& value / 8 % 2 == 1 && value % 4 == 3 ==> later == (Pic {
                read_select: ReadSelect::Isr,
                ..pic
            })
            &&& value / 8 % 2 == 1 && value % 4 < 2 ==> later == pic
            &&& value / 8 % 2 == 0 && top != 1 && top != 3 && top != 5 && top != 7 ==> later == pic
            &&& value / 8 % 2 == 0 && (top == 3 || top == 7) ==> later == (Pic {
                isr: later.isr,
                ..pic
            }) && (line_set(later.isr, m) <==> line_set(pic.isr, m) && m != value % 8)
            &&& value / 8 % 2 == 0 && (top == 1 || top == 5) ==> later == (Pic {
                isr: later.isr,
                ..pic
            }) && (line_set(later.isr, m) <==> line_set(pic.isr, m) && exists|k: int|
                0 <= k < m && #[trigger] line_set(pic.isr, k))
        }),
{
    lemma_command_bits(value);
    let top = value / 32;
    if value / 8 % 2 == 0 && (top == 3 || top == 7) {
        lemma_clear_line(pic.isr, (value % 8) as u8, m as u8);
    }
    if value / 8 % 2 == 0 && (top == 1 || top == 5) {
        lemma_lowest_line_is_minimum(pic.isr);
        match lowest_line(pic.isr) {
            None => {
                lemma_no_line_in_zero(m as u8);
            },
            Some(n) => {
                lemma_clear_line(pic.isr, n, m as u8);
                if line_set(pic.isr, m) && m != n {
                    assert(n < m && line_set(pic.isr, n as int));
                }
            },
        }
    }
}

proof fn lemma_command_bits(v: u8)
    by (bit_vector)
    ensures
        v & 0x10 != 0 <==> v / 16 % 2 == 1,
        v / 16 % 2 == 0 ==> (v & 0x18 == 0x08 <==> v / 8 % 2 == 1),
        v / 16 % 2 == 0 ==> (v & 0x18 == 0 <==> v / 8 % 2 == 0),
        v & 3 == v % 4,
        v & 7 == v % 8,
        v & 0xE0 == v / 32 * 32,
{
}

proof fn lemma_base_bits(v: u8)
    by (bit_vector)
    ensures
        v & 0xF8 == v / 8 * 8,
{
}

/// The vector of the pending line is its number above the vector base. The command port
/// reads the register that was chosen, the data port the mask.
pub proof fn law_vector_and_reads(pic: Pic)
    requires
        pic.base_port < 0xFFFF,
        pic.vector_base % 8 == 0,
    ensures
        pic.pending_line() matches Some(n) ==> pic.vector() == Some((pic.vector_base + n) as u8),
        pic.pending_line() is None ==> pic.vector() is None,
        pic.read_select is Irr ==> pic.read_value(pic.base_port) == pic.irr,
        pic.read_select is Isr ==> pic.read_value(pic.base_port) == pic.isr,
        pic.read_value((pic.base_port + 1) as u16) == pic.imr,
{
    law_pending_line(pic);
}

/// A new controller masks every line, serves vectors from 8 on, and has nothing requested
/// or in service. A snapshot holds vector base, mask, requests, lines in service, and how
/// far an initialization has come.
pub proof fn law_reset_and_snapshot_layout(pic: Pic, port: u16)
    ensures
        ({
            let new = Pic::fresh(port);
            &&& new.base_port == port && new.vector_base == 8 && new.imr == 0xFF && new.irr == 0
                && new.isr == 0
            &&& new.init_state is Idle && new.read_select is Irr
        }),
        ({
            let s = pic.snapshot_bytes();
            &&& s.len() == 5
            &&& s[0] == pic.vector_base && s[1] == pic.imr && s[2] == pic.irr && s[3] == pic.isr
            &&& pic.init_state is Idle ==> s[4] == 0
            &&& pic.init_state is ExpectIcw2 ==> s[4] == 1
            &&& pic.init_state is ExpectIcw3 ==> s[4] == 2
            &&& pic.init_state is ExpectIcw4 ==> s[4] == 3
        }),
{
}

/// Which snapshots are refused: short ones, of which nothing is loaded, and those with an
/// unknown place in the initialization, of which the rest is.
pub proof fn law_refused_snapshots(pic: Pic, bytes: Seq<u8>)
    ensures
        bytes.len() <= 4 ==> pic.restore_outcome(bytes) == (
            pic,
            Err::<usize, &'static str>("pic: truncated"),
        ),
        bytes.len() >= 5 && bytes[4] >= 4 ==> pic.restore_outcome(bytes) == (
            Pic {
                vector_base: bytes[0],
                imr: bytes[1],
                irr: bytes[2],
                isr: bytes[3],
                ..pic
            },
            Err::<usize, &'static str>("pic: bad init_state tag"),
        ),
        bytes.len() >= 5 && bytes[4] <= 3 ==> pic.restore_outcome(bytes).1
            == Ok::<usize, &'static str>(5),
{
}

} // verus!
