//! 16550-style UART: the byte channel between guest and host.
//!
//! The guest transmits into a buffer that the host drains, and reads bytes that
//! the host has pushed. Modelled registers: data (offset 0), interrupt enable
//! (1), interrupt identification (2) and line status (5); the others read as
//! zero and ignore writes. Transmission takes no time, so the transmitter is
//! always ready.

use crate::bytes::{copy_range, get_le_u32, le32_bytes, le_u32, lemma_le32_at, put_bytes, put_le_u32};
use crate::iobus::IoDevice;
use std::collections::VecDeque;
use vstd::prelude::*;

verus! {

/// The UART.
pub struct Uart {
    pub base: u16,
    pub tx_buffer: Vec<u8>,
    pub rx_buffer: VecDeque<u8>,
    pub ier: u8,
}

/// What a UART holds: the bytes on their way in each direction and the
/// interrupt enable register.
#[verifier::ext_equal]
pub struct UartState {
    pub base: u16,
    pub tx: Seq<u8>,
    pub rx: Seq<u8>,
    pub ier: u8,
}

impl View for Uart {
    type V = UartState;

    open spec fn view(&self) -> UartState {
        UartState { base: self.base, tx: self.tx_buffer@, rx: self.rx_buffer@, ier: self.ier }
    }
}

impl UartState {
    /// The UART fresh from reset.
    pub open spec fn fresh(base: u16) -> UartState {
        UartState { base, tx: Seq::empty(), rx: Seq::empty(), ier: 0 }
    }

    /// Received data is waiting and the guest wants an interrupt for it.
    pub open spec fn rx_interrupt(self) -> bool {
        self.ier & 0x01 != 0 && self.rx.len() > 0
    }

    /// The guest wants an interrupt for an empty transmitter.
    pub open spec fn tx_interrupt(self) -> bool {
        self.ier & 0x02 != 0
    }

    /// What a read from `port` returns.
    pub open spec fn read_value(self, port: u16) -> u8 {
        let offset = port - self.base;
        if offset == 0 {
            if self.rx.len() > 0 {
                self.rx[0]
            } else {
                0
            }
        } else if offset == 1 {
            self.ier
        } else if offset == 2 {
            if self.rx_interrupt() {
                0x04
            } else if self.tx_interrupt() {
                0x02
            } else {
                0x01
            }
        } else if offset == 5 {
            if self.rx.len() > 0 {
                0x21
            } else {
                0x20
            }
        } else {
            0
        }
    }

    /// The UART after a read from `port`: only the data register consumes.
    pub open spec fn after_read(self, port: u16) -> UartState {
        if port == self.base && self.rx.len() > 0 {
            UartState { rx: self.rx.drop_first(), ..self }
        } else {
            self
        }
    }

    /// The UART after a write of `value` to `port`.
    pub open spec fn after_write(self, port: u16, value: u8) -> UartState {
        if port == self.base {
            UartState { tx: self.tx.push(value), ..self }
        } else if port == self.base + 1 {
            UartState { ier: value, ..self }
        } else {
            self
        }
    }

    /// What a snapshot holds of the UART.
    pub open spec fn snapshot_bytes(self) -> Seq<u8> {
        seq![self.ier] + le32_bytes((self.tx.len() % 0x1_0000_0000) as u32) + self.tx + le32_bytes(
            (self.rx.len() % 0x1_0000_0000) as u32,
        ) + self.rx
    }

    /// The UART and the result that `restore` leaves behind. What has been read
    /// before a truncation is noticed stays loaded.
    pub open spec fn restore_outcome(self, bytes: Seq<u8>) -> (
        UartState,
        Result<usize, &'static str>,
    ) {
        if bytes.len() < 5 {
            (self, Err("uart: truncated"))
        } else {
            let with_ier = UartState { ier: bytes[0], ..self };
            let tx_len = le_u32(bytes, 1) as int;
            if bytes.len() < 5 + tx_len + 4 {
                (with_ier, Err("uart: truncated tx"))
            } else {
                let with_tx = UartState { tx: bytes.subrange(5, 5 + tx_len), ..with_ier };
                let rx_len = le_u32(bytes, 5 + tx_len) as int;
                let rx_at = 5 + tx_len + 4;
                if bytes.len() < rx_at + rx_len {
                    (with_tx, Err("uart: truncated rx"))
                } else {
                    (
                        UartState { rx: bytes.subrange(rx_at, rx_at + rx_len), ..with_tx },
                        Ok((rx_at + rx_len) as usize),
                    )
                }
            }
        }
    }
}

impl Uart {
    /// First port of the first serial port of a PC.
    pub const COM1_BASE: u16 = 0x3F8;

    pub fn new(base: u16) -> (uart: Self)
        ensures
            uart@ == UartState::fresh(base),
    {
        Uart { base, tx_buffer: Vec::new(), rx_buffer: VecDeque::new(), ier: 0 }
    }

    /// The UART at [`Uart::COM1_BASE`].
    pub fn com1() -> (uart: Self)
        ensures
            uart@ == UartState::fresh(Uart::COM1_BASE),
    {
        Self::new(Self::COM1_BASE)
    }

    pub fn base(&self) -> (base: u16)
        ensures
            base == self@.base,
    {
        self.base
    }

    /// Hands out everything the guest has transmitted since the last call.
    pub fn drain_tx(&mut self) -> (sent: Vec<u8>)
        ensures
            sent@ == old(self)@.tx,
            final(self)@ == (UartState { tx: Seq::empty(), ..old(self)@ }),
    {
        let mut sent: Vec<u8> = Vec::new();
        std::mem::swap(&mut sent, &mut self.tx_buffer);
        sent
    }

    /// Queues bytes for the guest to read.
    pub fn push_rx(&mut self, bytes: &[u8])
        ensures
            final(self)@ == (UartState { rx: old(self)@.rx + bytes@, ..old(self)@ }),
    {
        let mut i: usize = 0;
        while i < bytes.len()
            invariant
                i <= bytes@.len(),
                self@ == (UartState { rx: old(self)@.rx + bytes@.take(i as int), ..old(self)@ }),
            decreases bytes@.len() - i,
        {
            self.rx_buffer.push_back(bytes[i]);
            i = i + 1;
            assert(bytes@.take(i as int) == bytes@.take(i - 1).push(bytes@[i - 1]));
        }
        assert(bytes@.take(bytes@.len() as int) == bytes@);
    }

    /// How many bytes wait for the guest.
    pub fn rx_pending(&self) -> (n: usize)
        ensures
            n == self@.rx.len(),
    {
        self.rx_buffer.len()
    }

    /// Whether the interrupt line is high right now.
    pub fn irq_pending(&self) -> (level: bool)
        ensures
            level == (self@.rx_interrupt() || self@.tx_interrupt()),
    {
        let rx = (self.ier & 0x01) != 0 && self.rx_buffer.len() > 0;
        let tx = (self.ier & 0x02) != 0;
        rx || tx
    }

    /// The interrupt enable register.
    pub fn ier(&self) -> (ier: u8)
        ensures
            ier == self@.ier,
    {
        self.ier
    }

    /// How many bytes wait for the guest.
    pub fn rx_len(&self) -> (n: usize)
        ensures
            n == self@.rx.len(),
    {
        self.rx_buffer.len()
    }

    /// Appends the interrupt enable register and both buffers, each with its
    /// length in front, to `out`.
    pub fn snapshot_into(&self, out: &mut Vec<u8>)
        ensures
            final(out)@ == old(out)@ + self@.snapshot_bytes(),
    {
        out.push(self.ier);
        put_le_u32(out, (self.tx_buffer.len() as u64 % 0x1_0000_0000) as u32);
        put_bytes(out, self.tx_buffer.as_slice());
        put_le_u32(out, (self.rx_buffer.len() as u64 % 0x1_0000_0000) as u32);
        let ghost before = out@;
        let n: usize = self.rx_buffer.len();
        let mut i: usize = 0;
        while i < n
            invariant
                i <= n,
                n == self.rx_buffer@.len(),
                out@ == before + self.rx_buffer@.take(i as int),
            decreases n - i,
        {
            out.push(self.rx_buffer[i]);
            i = i + 1;
            assert(self.rx_buffer@.take(i as int) == self.rx_buffer@.take(i - 1).push(
                self.rx_buffer@[i - 1],
            ));
        }
        assert(self.rx_buffer@.take(n as int) == self.rx_buffer@);
    }

    /// Takes back what `snapshot_into` wrote and returns its length.
    pub fn restore(&mut self, bytes: &[u8]) -> (r: Result<usize, &'static str>)
        ensures
            (final(self)@, r) == old(self)@.restore_outcome(bytes@),
    {
        let len: usize = bytes.len();
        if len < 5 {
            return Err("uart: truncated");
        }
        self.ier = bytes[0];
        let tx_len: usize = get_le_u32(bytes, 1) as usize;
        if len - 5 < 4 || len - 5 - 4 < tx_len {
            return Err("uart: truncated tx");
        }
        self.tx_buffer = copy_range(bytes, 5, 5 + tx_len);
        let rx_len: usize = get_le_u32(bytes, 5 + tx_len) as usize;
        let rx_at: usize = 5 + tx_len + 4;
        if len - rx_at < rx_len {
            return Err("uart: truncated rx");
        }
        let mut queue: VecDeque<u8> = VecDeque::new();
        let mut i: usize = rx_at;
        while i < rx_at + rx_len
            invariant
                rx_at <= i <= rx_at + rx_len <= bytes@.len(),
                bytes@.len() == len,
                queue@ == bytes@.subrange(rx_at as int, i as int),
            decreases rx_at + rx_len - i,
        {
            queue.push_back(bytes[i]);
            i = i + 1;
            assert(bytes@.subrange(rx_at as int, i as int) == bytes@.subrange(
                rx_at as int,
                i - 1,
            ).push(bytes@[i - 1]));
        }
        self.rx_buffer = queue;
        Ok(rx_at + rx_len)
    }
}

impl IoDevice for Uart {
    open spec fn fits_port_space(&self) -> bool {
        self@.base <= 0xFFF8
    }

    open spec fn accepts(&self, port: u16) -> bool {
        port >= self@.base
    }

    fn port_range(&self) -> (range: (u16, u16))
        ensures
            range == (self@.base, (self@.base + 7) as u16),
    {
        (self.base, self.base + 7)
    }

    fn read(&mut self, port: u16) -> (value: u8)
        ensures
            value == old(self)@.read_value(port),
            final(self)@ == old(self)@.after_read(port),
    {
        match port - self.base {
            0 => match self.rx_buffer.pop_front() {
                Some(b) => {
                    assert(self@.rx == old(self)@.rx.drop_first());
                    b
                },
                None => 0,
            },
            1 => self.ier,
            2 => {
                if (self.ier & 0x01) != 0 && self.rx_buffer.len() > 0 {
                    0x04
                } else if (self.ier & 0x02) != 0 {
                    0x02
                } else {
                    0x01
                }
            },
            5 => {
                if self.rx_buffer.len() > 0 {
                    0x21
                } else {
                    0x20
                }
            },
            _ => 0,
        }
    }

    fn write(&mut self, port: u16, value: u8)
        ensures
            final(self)@ == old(self)@.after_write(port, value),
    {
        match port - self.base {
            0 => self.tx_buffer.push(value),
            1 => self.ier = value,
            _ => {},
        }
    }
}

/// The identification register names a cause exactly while the interrupt line
/// is high, and received data comes before an empty transmitter.
pub proof fn law_identification_matches_line(uart: UartState)
    requires
        uart.base <= 0xFFF8,
    ensures
        ({
            let cause = uart.read_value((uart.base + 2) as u16);
            &&& cause != 0x01 <==> uart.rx_interrupt() || uart.tx_interrupt()
            &&& uart.rx_interrupt() <==> cause == 0x04
        }),
{
}

/// Bytes come out of the data register in the order in which the host pushed
/// them, after those that were waiting already.
pub proof fn law_receive_is_first_in_first_out(uart: UartState, bytes: Seq<u8>)
    requires
        uart.rx.len() > 0 || bytes.len() > 0,
    ensures
        ({
            let pushed = UartState { rx: uart.rx + bytes, ..uart };
            &&& pushed.read_value(uart.base) == (uart.rx + bytes)[0]
            &&& uart.rx.len() > 0 ==> pushed.read_value(uart.base) == uart.rx[0]
                && pushed.after_read(uart.base).rx == uart.rx.drop_first() + bytes
            &&& uart.rx.len() == 0 ==> pushed.read_value(uart.base) == bytes[0]
                && pushed.after_read(uart.base).rx == bytes.drop_first()
        }),
{
    if uart.rx.len() > 0 {
        assert((uart.rx + bytes).drop_first() == uart.rx.drop_first() + bytes);
    } else {
        assert(uart.rx + bytes == bytes);
    }
}

/// A restored UART has the captured interrupt enable register and both buffers,
/// at its own port.
#[verifier::spinoff_prover]
pub proof fn law_snapshot_round_trip(captured: UartState, target: UartState, tail: Seq<u8>)
    requires
        captured.tx.len() < 0x1_0000_0000,
        captured.rx.len() < 0x1_0000_0000,
        captured.snapshot_bytes().len() <= usize::MAX,
    ensures
        target.restore_outcome(captured.snapshot_bytes() + tail) == (
            UartState { base: target.base, ..captured },
            Ok::<usize, &'static str>(captured.snapshot_bytes().len() as usize),
        ),
{
    let n = captured.tx.len() as int;
    let s = captured.snapshot_bytes() + tail;
    lemma_layout(
        captured.ier,
        le32_bytes(n as u32),
        captured.tx,
        le32_bytes(captured.rx.len() as u32),
        captured.rx,
        tail,
    );
    lemma_le32_at(s, 1, n as u32);
    lemma_le32_at(s, 5 + n, captured.rx.len() as u32);
    lemma_restored(captured, target, s);
}

/// What bytes that hold the parts of a snapshot restore.
proof fn lemma_restored(captured: UartState, target: UartState, s: Seq<u8>)
    requires
        ({
            let n = captured.tx.len() as int;
            let m = captured.rx.len() as int;
            &&& s.len() >= 9 + n + m
            &&& s[0] == captured.ier
            &&& le_u32(s, 1) == n
            &&& s.subrange(5, 5 + n) == captured.tx
            &&& le_u32(s, 5 + n) == m
            &&& s.subrange(9 + n, 9 + n + m) == captured.rx
        }),
    ensures
        target.restore_outcome(s) == (
            UartState { base: target.base, ..captured },
            Ok::<usize, &'static str>((9 + captured.tx.len() + captured.rx.len()) as usize),
        ),
{
}

/// Where the parts of a snapshot stand.
proof fn lemma_layout(
    ier: u8,
    tx_len: Seq<u8>,
    tx: Seq<u8>,
    rx_len: Seq<u8>,
    rx: Seq<u8>,
    tail: Seq<u8>,
)
    requires
        tx_len.len() == 4,
        rx_len.len() == 4,
    ensures
        ({
            let s = seq![ier] + tx_len + tx + rx_len + rx + tail;
            let n = tx.len() as int;
            &&& s.len() == 9 + n + rx.len() + tail.len()
            &&& s[0] == ier
            &&& s.subrange(1, 5) == tx_len
            &&& s.subrange(5, 5 + n) == tx
            &&& s.subrange(5 + n, 9 + n) == rx_len
            &&& s.subrange(9 + n, 9 + n + rx.len() as int) == rx
        }),
{
    let s = seq![ier] + tx_len + tx + rx_len + rx + tail;
    let n = tx.len() as int;
    assert(s.subrange(1, 5) =~= tx_len);
    assert(s.subrange(5, 5 + n) =~= tx);
    assert(s.subrange(5 + n, 9 + n) =~= rx_len);
    assert(s.subrange(9 + n, 9 + n + rx.len() as int) =~= rx);
}

/// The registers, counted from the base port: data that has arrived, the interrupt enable
/// byte, the cause of the interrupt, and the line status, in which the transmitter is
/// always empty and bit 0 says whether data waits. Everything else reads as zero.
pub proof fn law_registers_read(uart: UartState, k: int)
    requires
        uart.base <= 0xFFF8,
        0 <= k < 8,
    ensures
        ({
            let value = uart.read_value((uart.base + k) as u16);
            let waiting = uart.rx.len() > 0;
            &&& k == 0 && waiting ==> value == uart.rx[0]
            &&& k == 0 && !waiting ==> value == 0
            &&& k == 1 ==> value == uart.ier
            &&& k == 2 && waiting && uart.ier % 2 == 1 ==> value == 4
            &&& k == 2 && !(waiting && uart.ier % 2 == 1) && uart.ier / 2 % 2 == 1 ==> value == 2
            &&& k == 2 && !(waiting && uart.ier % 2 == 1) && uart.ier / 2 % 2 == 0 ==> value == 1
            &&& k == 5 ==> value == (if waiting {
                0x21
            } else {
                0x20int
            })
            &&& k != 0 && k != 1 && k != 2 && k != 5 ==> value == 0
            &&& k != 0 ==> uart.after_read((uart.base + k) as u16) == uart
        }),
{
    lemma_enable_bits(uart.ier);
}

proof fn lemma_enable_bits(ier: u8)
    by (bit_vector)
    ensures
        ier & 1u8 != 0 <==> ier % 2 == 1,
        ier & 2u8 != 0 <==> ier / 2 % 2 == 1,
{
}

/// What the guest writes to the data register is sent, in order; a write to the next
/// register sets the interrupt enable byte; nothing else is changed by a write.
pub proof fn law_registers_take_writes(uart: UartState, k: int, value: u8)
    requires
        uart.base <= 0xFFF8,
        0 <= k < 8,
    ensures
        ({
            let later = uart.after_write((uart.base + k) as u16, value);
            &&& k == 0 ==> later == (UartState { tx: uart.tx.push(value), ..uart })
            &&& k == 1 ==> later == (UartState { ier: value, ..uart })
            &&& k > 1 ==> later == uart
        }),
{
}

/// The interrupt line is high exactly while data waits and its interrupt is enabled, bit
/// 0, or the interrupt of the empty transmitter is enabled, bit 1.
pub proof fn law_line_follows_enable_bits(uart: UartState)
    ensures
        uart.rx_interrupt() || uart.tx_interrupt() <==> (uart.rx.len() > 0 && uart.ier % 2 == 1)
            || uart.ier / 2 % 2 == 1,
{
    lemma_enable_bits(uart.ier);
}

/// A snapshot: the interrupt enable byte, the length of what was sent and those bytes,
/// the length of what waits and those bytes; lengths in four bytes, low one first.
pub proof fn law_snapshot_layout(uart: UartState)
    requires
        uart.tx.len() < 0x1_0000_0000,
        uart.rx.len() < 0x1_0000_0000,
    ensures
        ({
            let s = uart.snapshot_bytes();
            let n = uart.tx.len() as int;
            &&& s.len() == 9 + n + uart.rx.len()
            &&& s[0] == uart.ier
            &&& s[1] + 0x100 * s[2] + 0x1_0000 * s[3] + 0x100_0000 * s[4] == n
            &&& s.subrange(5, 5 + n) == uart.tx
            &&& s[5 + n] + 0x100 * s[6 + n] + 0x1_0000 * s[7 + n] + 0x100_0000 * s[8 + n]
                == uart.rx.len()
            &&& s.skip(9 + n) == uart.rx
        }),
{
    let n = uart.tx.len() as int;
    let m = uart.rx.len() as int;
    lemma_parts(uart.ier, le32_bytes(n as u32), uart.tx, le32_bytes(m as u32), uart.rx);
    lemma_number_bytes(n as u32);
    lemma_number_bytes(m as u32);
}

proof fn lemma_number_bytes(v: u32)
    ensures
        ({
            let b = le32_bytes(v);
            b.len() == 4 && b[0] + 0x100 * b[1] + 0x1_0000 * b[2] + 0x100_0000 * b[3] == v
        }),
{
}

proof fn lemma_parts(ier: u8, tx_len: Seq<u8>, tx: Seq<u8>, rx_len: Seq<u8>, rx: Seq<u8>)
    requires
        tx_len.len() == 4,
        rx_len.len() == 4,
    ensures
        ({
            let s = seq![ier] + tx_len + tx + rx_len + rx;
            let n = tx.len() as int;
            &&& s.len() == 9 + n + rx.len()
            &&& s[0] == ier
            &&& s[1] == tx_len[0] && s[2] == tx_len[1] && s[3] == tx_len[2] && s[4] == tx_len[3]
            &&& s.subrange(5, 5 + n) == tx
            &&& s[5 + n] == rx_len[0] && s[6 + n] == rx_len[1] && s[7 + n] == rx_len[2] && s[8
                + n] == rx_len[3]
            &&& s.skip(9 + n) == rx
        }),
{
    let s = seq![ier] + tx_len + tx + rx_len + rx;
    let n = tx.len() as int;
    assert(s.subrange(5, 5 + n) =~= tx);
    assert(s.skip(9 + n) =~= rx);
}

/// Which snapshots are refused, and what is loaded of them: nothing of one without a whole
/// header, the enable bits of one that ends among the sent bytes, and those and the sent bytes
/// of one that ends among the received ones.
pub proof fn law_cut_snapshots(uart: UartState, bytes: Seq<u8>)
    ensures
        bytes.len() <= 4 ==> uart.restore_outcome(bytes) == (
            uart,
            Err::<usize, &'static str>("uart: truncated"),
        ),
        bytes.len() >= 5 ==> {
            let sent = bytes[1] + 256 * (bytes[2] + 256 * (bytes[3] + 256 * bytes[4]));
            &&& bytes.len() < 9 + sent ==> uart.restore_outcome(bytes) == (
                UartState { ier: bytes[0], ..uart },
                Err::<usize, &'static str>("uart: truncated tx"),
            )
            &&& bytes.len() >= 9 + sent && uart.restore_outcome(bytes).1 is Err
                ==> uart.restore_outcome(bytes) == (
                UartState { ier: bytes[0], tx: bytes.subrange(5, 5 + sent), ..uart },
                Err::<usize, &'static str>("uart: truncated rx"),
            )
        },
{
}

/// A new serial port holds nothing, asks for no interrupts and is where it was put.
pub proof fn law_new_port(base: u16)
    ensures
        UartState::fresh(base).base == base,
        UartState::fresh(base).tx.len() == 0,
        UartState::fresh(base).rx.len() == 0,
        UartState::fresh(base).ier == 0,
{
}

} // verus!
