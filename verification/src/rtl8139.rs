//! Realtek RTL8139 network card: the 256-byte register window and the 93C46
//! serial EEPROM that holds the MAC address.
//!
//! The card cannot reach guest memory. Frames that the driver starts to transmit
//! are queued as address and length, to be copied out by whoever owns the memory;
//! a received frame is handed back as the address and the bytes to write there.
//! Transmission completes at once. Registers that are not described below are
//! plain storage.

use crate::bytes::{get_le_u16, get_le_u32, le16_bytes, le32_bytes, le_u16, le_u32, lemma_le32_at, put_bytes, put_le_u16, put_le_u32};
use vstd::prelude::*;

verus! {

/// MAC address of a card that was given none.
pub const DEFAULT_MAC: [u8; 6] = [0x52, 0x54, 0x00, 0x12, 0x34, 0x56];

/// Version byte that identifies the chip as an RTL8139C.
pub const HW_VERSION_HI: u8 = 0x74;

/// EEPROM control: chip select.
pub const EE_CS: u8 = 0x08;

/// EEPROM control: serial clock.
pub const EE_SK: u8 = 0x04;

/// EEPROM control: data to the EEPROM.
pub const EE_DI: u8 = 0x02;

/// EEPROM control: data from the EEPROM.
pub const EE_DO: u8 = 0x01;

/// Receive-ring base address (32 bits).
pub const RBSTART: usize = 0x30;

/// Chip command.
pub const CHIP_CMD: usize = 0x37;

/// Driver's read offset, less sixteen (16 bits).
pub const CAPR: usize = 0x38;

/// Card's write offset (16 bits).
pub const CBR: usize = 0x3A;

/// Interrupt mask (16 bits).
pub const IMR: usize = 0x3C;

/// Interrupt status (16 bits); writing a one clears the bit.
pub const ISR: usize = 0x3E;

/// Receive configuration (32 bits).
pub const RCR: usize = 0x44;

/// EEPROM control register.
pub const CMD_9346: usize = 0x50;

/// Chip command: receiver enabled.
pub const CMD_RX_ENABLE: u8 = 0x08;

/// Chip command: nothing to read in the receive ring.
pub const CMD_BUFE: u8 = 0x01;

/// Interrupt status: a frame was received.
pub const ISR_ROK: u8 = 0x01;

/// Interrupt status: a frame was transmitted.
pub const ISR_TOK: u8 = 0x04;

/// Second byte of a transmit status: the card owns the descriptor.
pub const TSD_OWN_HI: u8 = 0x20;

/// Second byte of a transmit status: transmitted.
pub const TSD_TOK_HI: u8 = 0x80;

/// Shortest frame on the wire, without its checksum.
pub const ETH_MIN_FRAME: usize = 60;

/// The card.
pub struct Rtl8139 {
    pub regs: [u8; 256],
    pub eeprom: [u16; 64],
    pub ee_prev_sk: bool,
    pub ee_cs: bool,
    pub ee_waiting_start: bool,
    pub ee_reading: bool,
    pub ee_cmd: u16,
    pub ee_count: u8,
    pub ee_shift: u16,
    pub ee_dobit: u8,
    pub tx_pending: Vec<(u32, u16)>,
    pub rx_rptr: u32,
}

/// State of the serial protocol of the EEPROM.
#[derive(Copy, Clone, Debug, PartialEq, Eq, Structural)]
pub struct SerialState {
    pub prev_sk: bool,
    pub cs: bool,
    /// No start bit has come yet.
    pub waiting_start: bool,
    /// A word is being shifted out.
    pub reading: bool,
    /// Command bits shifted in so far.
    pub cmd: u16,
    /// How many command bits have come.
    pub count: u8,
    /// What remains of the word, next bit on top.
    pub shift: u16,
    /// The bit on the data-out line.
    pub dobit: u8,
}

/// What the card holds.
#[verifier::ext_equal]
pub struct RtlState {
    pub regs: Seq<u8>,
    pub eeprom: Seq<u16>,
    pub serial: SerialState,
    pub tx: Seq<(u32, u16)>,
    pub rx_rptr: u32,
}

impl View for Rtl8139 {
    type V = RtlState;

    open spec fn view(&self) -> RtlState {
        RtlState {
            regs: self.regs@,
            eeprom: self.eeprom@,
            serial: SerialState {
                prev_sk: self.ee_prev_sk,
                cs: self.ee_cs,
                waiting_start: self.ee_waiting_start,
                reading: self.ee_reading,
                cmd: self.ee_cmd,
                count: self.ee_count,
                shift: self.ee_shift,
                dobit: self.ee_dobit,
            },
            tx: self.tx_pending@,
            rx_rptr: self.rx_rptr,
        }
    }
}

impl SerialState {
    /// The protocol at rest.
    pub open spec fn idle() -> SerialState {
        SerialState {
            prev_sk: false,
            cs: false,
            waiting_start: true,
            reading: false,
            cmd: 0,
            count: 0,
            shift: 0,
            dobit: 0,
        }
    }

    /// The protocol after a rising clock edge with data bit `di`: wait for the
    /// start bit, take eight command bits, then shift the addressed word out,
    /// top bit first. Only the read command does anything.
    pub open spec fn edge(self, eeprom: Seq<u16>, di: bool) -> SerialState {
        if self.waiting_start {
            if di {
                SerialState { waiting_start: false, cmd: 0, count: 0, ..self }
            } else {
                self
            }
        } else if !self.reading {
            let cmd = (self.cmd % 0x8000 * 2 + (if di {
                1int
            } else {
                0
            })) as u16;
            let count = if self.count < 255 {
                (self.count + 1) as u8
            } else {
                255
            };
            let taken = SerialState { cmd, count, ..self };
            if count == 8 && cmd / 64 % 4 == 2 {
                SerialState { shift: eeprom[cmd as int % 64], reading: true, ..taken }
            } else {
                taken
            }
        } else {
            SerialState {
                dobit: (self.shift / 0x8000) as u8,
                shift: (self.shift % 0x8000 * 2) as u16,
                ..self
            }
        }
    }

    /// The protocol after `value` has been written to the control register.
    pub open spec fn after_control(self, eeprom: Seq<u16>, value: u8) -> SerialState {
        let cs = value / 8 % 2 == 1;
        let sk = value / 4 % 2 == 1;
        let di = value / 2 % 2 == 1;
        if !cs {
            SerialState {
                cs: false,
                waiting_start: true,
                reading: false,
                count: 0,
                prev_sk: sk,
                ..self
            }
        } else {
            let selected = if self.cs {
                self
            } else {
                SerialState { waiting_start: true, reading: false, cmd: 0, count: 0, ..self }
            };
            let clocked = if sk && !self.prev_sk {
                selected.edge(eeprom, di)
            } else {
                selected
            };
            SerialState { cs: true, prev_sk: sk, ..clocked }
        }
    }
}

/// The 16-bit word with these two bytes, low byte first.
pub open spec fn mac_word(lo: u8, hi: u8) -> u16 {
    (lo + 0x100 * hi) as u16
}

/// The register file of a card with address `mac`.
pub open spec fn regs_with_mac(regs: Seq<u8>, mac: Seq<u8>) -> Seq<u8> {
    mac + regs.skip(6)
}

/// The EEPROM of a card with address `mac`.
pub open spec fn eeprom_with_mac(eeprom: Seq<u16>, mac: Seq<u8>) -> Seq<u16> {
    eeprom.update(7, mac_word(mac[0], mac[1])).update(8, mac_word(mac[2], mac[3])).update(
        9,
        mac_word(mac[4], mac[5]),
    )
}

/// How many bytes a frame of `n` bytes takes up in the receive ring: header,
/// frame padded to the minimum, checksum, rounded up to a multiple of four.
pub open spec fn rx_total(n: int) -> int {
    let payload = if n < 60 {
        60
    } else {
        n
    };
    (4 + payload + 4 + 3) / 4 * 4
}

/// What is written to the receive ring for `frame`.
pub open spec fn rx_record(frame: Seq<u8>) -> Seq<u8> {
    let payload = if frame.len() < 60 {
        60
    } else {
        frame.len() as int
    };
    let head = le16_bytes(1) + le16_bytes((payload + 4) as u16) + frame;
    head + Seq::new((rx_total(frame.len() as int) - head.len()) as nat, |i: int| 0u8)
}

impl RtlState {
    /// The card fresh from reset with address `mac`.
    pub open spec fn fresh(mac: Seq<u8>) -> RtlState {
        RtlState {
            regs: regs_with_mac(Seq::new(256, |i: int| 0u8), mac),
            eeprom: eeprom_with_mac(Seq::new(64, |i: int| 0u16).update(0, 0x8129), mac),
            serial: SerialState::idle(),
            tx: Seq::empty(),
            rx_rptr: 0,
        }
    }

    /// Length of the receive ring, chosen by two bits of the configuration.
    pub open spec fn ring_len(self) -> int {
        let sel = self.regs[RCR + 1] as int / 8 % 4;
        if sel == 0 {
            0x2000
        } else if sel == 1 {
            0x4000
        } else if sel == 2 {
            0x8000
        } else {
            0x1_0000
        }
    }

    /// Where the card writes next.
    pub open spec fn write_offset(self) -> int {
        le_u16(self.regs, CBR as int) as int % self.ring_len()
    }

    /// Where the driver reads next.
    pub open spec fn read_offset(self) -> int {
        self.rx_rptr as int % self.ring_len()
    }

    /// How many bytes of the ring the driver has not read.
    pub open spec fn unread(self) -> int {
        (self.write_offset() + self.ring_len() - self.read_offset()) % self.ring_len()
    }

    /// Whether an unmasked interrupt condition is present.
    pub open spec fn irq(self) -> bool {
        self.regs[ISR as int] & self.regs[IMR as int] != 0 || self.regs[ISR + 1] & self.regs[IMR
            + 1] != 0
    }

    /// The card with the receive interrupt condition raised.
    pub open spec fn rx_signalled(self) -> RtlState {
        RtlState { regs: self.regs.update(ISR as int, self.regs[ISR as int] | ISR_ROK), ..self }
    }

    /// Whether a frame of `n` bytes is taken: the receiver is on and the unread
    /// part of the ring is not reached.
    pub open spec fn takes_frame(self, n: int) -> bool {
        self.regs[CHIP_CMD as int] & CMD_RX_ENABLE != 0 && self.unread() + rx_total(n)
            < self.ring_len()
    }

    /// The card after it has taken a frame of `n` bytes.
    pub open spec fn after_frame(self, n: int) -> RtlState {
        let cbr = ((self.write_offset() + rx_total(n)) % self.ring_len()) as u16;
        RtlState {
            regs: self.regs.update(CBR as int, (cbr % 0x100) as u8).update(
                CBR + 1,
                (cbr / 0x100) as u8,
            ),
            ..self
        }.rx_signalled()
    }

    /// What a read of register `off` returns.
    pub open spec fn read_value(self, off: u16) -> u8 {
        let r = off as int % 256;
        if r == CMD_9346 {
            (self.regs[r] & !EE_DO) | self.serial.dobit
        } else if r == 0x43 {
            HW_VERSION_HI
        } else if r == 0x64 {
            0x2D
        } else if r == 0x65 {
            0x78
        } else if r == CHIP_CMD {
            if self.write_offset() == self.read_offset() {
                self.regs[r] | CMD_BUFE
            } else {
                self.regs[r] & !CMD_BUFE
            }
        } else {
            self.regs[r]
        }
    }

    /// The card after the top byte of transmit status `n` has been written: a
    /// descriptor that the card does not own is queued and completed.
    pub open spec fn after_kick(self, n: int) -> RtlState {
        let tsd = 0x10 + 4 * n;
        if self.regs[tsd + 1] & TSD_OWN_HI == 0 {
            RtlState {
                tx: self.tx.push(
                    (
                        le_u32(self.regs, 0x20 + 4 * n),
                        (self.regs[tsd] + 0x100 * (self.regs[tsd + 1] % 32)) as u16,
                    ),
                ),
                regs: self.regs.update(
                    tsd + 1,
                    self.regs[tsd + 1] | TSD_OWN_HI | TSD_TOK_HI,
                ).update(ISR as int, self.regs[ISR as int] | ISR_TOK),
                ..self
            }
        } else {
            self
        }
    }

    /// The card after `value` has been written to register `off`.
    pub open spec fn after_write(self, off: u16, value: u8) -> RtlState {
        let r = off as int % 256;
        let stored = RtlState { regs: self.regs.update(r, value), ..self };
        if r == CMD_9346 {
            RtlState { serial: self.serial.after_control(self.eeprom, value), ..stored }
        } else if r == CHIP_CMD {
            RtlState { regs: self.regs.update(r, value & !0x10), ..self }
        } else if r <= 5 {
            self
        } else if r == ISR || r == ISR + 1 {
            RtlState { regs: self.regs.update(r, self.regs[r] & !value), ..self }
        } else if r == CAPR || r == CAPR + 1 {
            RtlState {
                rx_rptr: ((le_u16(stored.regs, CAPR as int) + 16) % stored.ring_len()) as u32,
                ..stored
            }
        } else if 0x13 <= r <= 0x1F && r % 4 == 3 {
            stored.after_kick((r - 0x13) / 4)
        } else {
            stored
        }
    }

    /// What a snapshot holds: the registers, the EEPROM and the read offset. A
    /// serial exchange or a transmission in flight is not kept.
    pub open spec fn snapshot_bytes(self) -> Seq<u8> {
        self.regs + eeprom_bytes(self.eeprom) + le32_bytes(self.rx_rptr)
    }

    /// The card and the result that `restore` leaves behind. Without the read
    /// offset at the end it is zero.
    pub open spec fn restore_outcome(self, bytes: Seq<u8>) -> (
        RtlState,
        Result<usize, &'static str>,
    ) {
        if bytes.len() < 384 {
            (self, Err("rtl8139: truncated"))
        } else {
            let loaded = RtlState {
                regs: bytes.take(256),
                eeprom: Seq::new(64, |i: int| le_u16(bytes, 256 + 2 * i)),
                rx_rptr: 0,
                ..self
            };
            if bytes.len() < 388 {
                (loaded, Ok(384))
            } else {
                (RtlState { rx_rptr: le_u32(bytes, 384), ..loaded }, Ok(388))
            }
        }
    }
}

/// The words of an EEPROM as bytes, low byte of each word first.
pub open spec fn eeprom_bytes(words: Seq<u16>) -> Seq<u8> {
    Seq::new(
        2 * words.len(),
        |i: int|
            (if i % 2 == 0 {
                words[i / 2] % 0x100
            } else {
                words[i / 2] / 0x100
            }) as u8,
    )
}

impl Rtl8139 {
    /// A card with the default address.
    pub fn new() -> (nic: Self)
        ensures
            nic@ == RtlState::fresh(DEFAULT_MAC@),
    {
        Self::with_mac(DEFAULT_MAC)
    }

    /// Gives the card another address: in its registers and in the EEPROM, where
    /// a driver reads it when it binds.
    pub fn set_mac(&mut self, mac: [u8; 6])
        ensures
            final(self)@ == (RtlState {
                regs: regs_with_mac(old(self)@.regs, mac@),
                eeprom: eeprom_with_mac(old(self)@.eeprom, mac@),
                ..old(self)@
            }),
    {
        let mut i: usize = 0;
        while i < 6
            invariant
                i <= 6,
                self@.regs.len() == 256,
                self@ == (RtlState { regs: self@.regs, ..old(self)@ }),
                forall|j: int|
                    0 <= j < 256 ==> self@.regs[j] == (if j < i {
                        mac@[j]
                    } else {
                        old(self)@.regs[j]
                    }),
            decreases 6 - i,
        {
            self.regs[i] = mac[i];
            i = i + 1;
        }
        self.eeprom[7] = mac[0] as u16 + 0x100 * (mac[1] as u16);
        self.eeprom[8] = mac[2] as u16 + 0x100 * (mac[3] as u16);
        self.eeprom[9] = mac[4] as u16 + 0x100 * (mac[5] as u16);
        assert(self@.regs == regs_with_mac(old(self)@.regs, mac@));
        assert(self@.eeprom == eeprom_with_mac(old(self)@.eeprom, mac@));
    }

    /// A card with address `mac`.
    pub fn with_mac(mac: [u8; 6]) -> (nic: Self)
        ensures
            nic@ == RtlState::fresh(mac@),
    {
        let regs: [u8; 256] = [0u8; 256];
        let mut eeprom: [u16; 64] = [0u16; 64];
        eeprom[0] = 0x8129;
        let mut nic = Rtl8139 {
            regs,
            eeprom,
            ee_prev_sk: false,
            ee_cs: false,
            ee_waiting_start: true,
            ee_reading: false,
            ee_cmd: 0,
            ee_count: 0,
            ee_shift: 0,
            ee_dobit: 0,
            tx_pending: Vec::new(),
            rx_rptr: 0,
        };
        assert(nic@.regs == Seq::new(256, |i: int| 0u8));
        assert(nic@.eeprom == Seq::new(64, |i: int| 0u16).update(0, 0x8129));
        nic.set_mac(mac);
        nic
    }

    fn reg_u32(&self, off: usize) -> (v: u32)
        requires
            off + 4 <= 256,
        ensures
            v == le_u32(self@.regs, off as int),
    {
        get_le_u32(&self.regs, off)
    }

    fn reg_u16(&self, off: usize) -> (v: u16)
        requires
            off + 2 <= 256,
        ensures
            v == le_u16(self@.regs, off as int),
    {
        get_le_u16(&self.regs, off)
    }

    /// Whether the card asserts its interrupt line.
    pub fn irq_pending(&self) -> (level: bool)
        ensures
            level == self@.irq(),
    {
        self.regs[ISR] & self.regs[IMR] != 0 || self.regs[ISR + 1] & self.regs[IMR + 1] != 0
    }

    /// Whether frames wait to be copied out.
    pub fn has_pending_tx(&self) -> (b: bool)
        ensures
            b == (self@.tx.len() > 0),
    {
        self.tx_pending.len() > 0
    }

    /// Hands out the frames that the driver has started to transmit, as guest
    /// address and length, in order.
    pub fn take_tx_frames(&mut self) -> (frames: Vec<(u32, u16)>)
        ensures
            frames@ == old(self)@.tx,
            final(self)@ == (RtlState { tx: Seq::empty(), ..old(self)@ }),
    {
        let mut frames: Vec<(u32, u16)> = Vec::new();
        std::mem::swap(&mut frames, &mut self.tx_pending);
        frames
    }

    /// Raises the receive interrupt condition.
    pub fn signal_rx_ok(&mut self)
        ensures
            final(self)@ == old(self)@.rx_signalled(),
    {
        self.regs[ISR] = self.regs[ISR] | ISR_ROK;
    }

    fn rx_buf_len(&self) -> (len: u32)
        ensures
            len == self@.ring_len(),
            0x2000 <= len <= 0x1_0000,
    {
        match self.regs[RCR + 1] / 8 % 4 {
            0 => 0x2000,
            1 => 0x4000,
            2 => 0x8000,
            _ => 0x1_0000,
        }
    }

    fn rx_buffer_empty(&self) -> (empty: bool)
        ensures
            empty == (self@.write_offset() == self@.read_offset()),
    {
        let len: u32 = self.rx_buf_len();
        self.reg_u16(CBR) as u32 % len == self.rx_rptr % len
    }

    /// Takes an inbound frame (without checksum). Returns where in guest memory
    /// to write what, or nothing if the frame is dropped: the receiver is off,
    /// or the ring has no room that the driver has already read. A record that
    /// starts near the end of the ring runs on behind it.
    pub fn accept_rx(&mut self, frame: &[u8]) -> (r: Option<(u32, Vec<u8>)>)
        ensures
            match r {
                Some(write) => {
                    &&& old(self)@.takes_frame(frame@.len() as int)
                    &&& write.0 == (le_u32(old(self)@.regs, RBSTART as int)
                        + old(self)@.write_offset()) % 0x1_0000_0000
                    &&& write.1@ == rx_record(frame@)
                    &&& final(self)@ == old(self)@.after_frame(frame@.len() as int)
                },
                None => {
                    &&& !old(self)@.takes_frame(frame@.len() as int)
                    &&& *final(self) == *old(self)
                },
            },
    {
        if self.regs[CHIP_CMD] & CMD_RX_ENABLE == 0 {
            return None;
        }
        let n: usize = frame.len();
        let len: u32 = self.rx_buf_len();
        let wptr: u32 = self.reg_u16(CBR) as u32 % len;
        let rptr: u32 = self.rx_rptr % len;
        let unread: u32 = (wptr + len - rptr) % len;
        assert(unread == self@.unread());
        if n > 0xFFF4 {
            assert(rx_total(n as int) >= 0x1_0000);
            return None;
        }
        let payload: usize = if n < ETH_MIN_FRAME {
            ETH_MIN_FRAME
        } else {
            n
        };
        let total: usize = (4 + payload + 4 + 3) / 4 * 4;
        if unread + total as u32 >= len {
            return None;
        }
        let buf: Vec<u8> = build_rx_record(frame);
        let dest: u32 = self.reg_u32(RBSTART).wrapping_add(wptr);
        let new_cbr: u16 = ((wptr + total as u32) % len) as u16;
        self.regs[CBR] = (new_cbr % 0x100) as u8;
        self.regs[CBR + 1] = (new_cbr / 0x100) as u8;
        self.signal_rx_ok();
        Some((dest, buf))
    }

    /// Reads a register; the offset counts modulo 256.
    pub fn read_reg(&self, off: u16) -> (value: u8)
        ensures
            value == self@.read_value(off),
    {
        let r: usize = (off % 256) as usize;
        match r {
            0x50 => (self.regs[CMD_9346] & !EE_DO) | self.ee_dobit,
            0x43 => HW_VERSION_HI,
            0x64 => 0x2D,
            0x65 => 0x78,
            0x37 => {
                if self.rx_buffer_empty() {
                    self.regs[CHIP_CMD] | CMD_BUFE
                } else {
                    self.regs[CHIP_CMD] & !CMD_BUFE
                }
            },
            _ => self.regs[r],
        }
    }

    /// Writes a register; the offset counts modulo 256.
    pub fn write_reg(&mut self, off: u16, value: u8)
        ensures
            final(self)@ == old(self)@.after_write(off, value),
    {
        let r: usize = (off % 256) as usize;
        if r == CMD_9346 {
            self.eeprom_clock(value);
            self.regs[CMD_9346] = value;
        } else if r == CHIP_CMD {
            self.regs[CHIP_CMD] = value & !0x10;
        } else if r <= 5 {
        } else if r == ISR || r == ISR + 1 {
            self.regs[r] = self.regs[r] & !value;
        } else if r == CAPR || r == CAPR + 1 {
            self.regs[r] = value;
            let len: u32 = self.rx_buf_len();
            self.rx_rptr = (self.reg_u16(CAPR) as u32 + 16) % len;
        } else if 0x13 <= r && r <= 0x1F && r % 4 == 3 {
            self.regs[r] = value;
            self.kick((r - 0x13) / 4);
        } else {
            self.regs[r] = value;
        }
    }

    fn kick(&mut self, n: usize)
        requires
            n < 4,
        ensures
            final(self)@ == old(self)@.after_kick(n as int),
    {
        let tsd: usize = 0x10 + 4 * n;
        if self.regs[tsd + 1] & TSD_OWN_HI == 0 {
            let addr: u32 = self.reg_u32(0x20 + 4 * n);
            let size: u16 = self.regs[tsd] as u16 + 0x100 * ((self.regs[tsd + 1] % 32) as u16);
            self.tx_pending.push((addr, size));
            self.regs[tsd + 1] = self.regs[tsd + 1] | TSD_OWN_HI | TSD_TOK_HI;
            self.regs[ISR] = self.regs[ISR] | ISR_TOK;
        }
    }

    fn eeprom_clock(&mut self, value: u8)
        ensures
            final(self)@ == (RtlState {
                serial: old(self)@.serial.after_control(old(self)@.eeprom, value),
                ..old(self)@
            }),
    {
        let cs = value / 8 % 2 == 1;
        let sk = value / 4 % 2 == 1;
        let di = value / 2 % 2 == 1;
        if !cs {
            self.ee_cs = false;
            self.ee_waiting_start = true;
            self.ee_reading = false;
            self.ee_count = 0;
            self.ee_prev_sk = sk;
            return ;
        }
        if !self.ee_cs {
            self.ee_waiting_start = true;
            self.ee_reading = false;
            self.ee_cmd = 0;
            self.ee_count = 0;
        }
        self.ee_cs = true;
        if sk && !self.ee_prev_sk {
            if self.ee_waiting_start {
                if di {
                    self.ee_waiting_start = false;
                    self.ee_cmd = 0;
                    self.ee_count = 0;
                }
            } else if !self.ee_reading {
                let bit: u16 = if di {
                    1
                } else {
                    0
                };
                self.ee_cmd = self.ee_cmd % 0x8000 * 2 + bit;
                if self.ee_count < 255 {
                    self.ee_count = self.ee_count + 1;
                }
                if self.ee_count == 8 && self.ee_cmd / 64 % 4 == 2 {
                    self.ee_shift = self.eeprom[(self.ee_cmd % 64) as usize];
                    self.ee_reading = true;
                }
            } else {
                self.ee_dobit = (self.ee_shift / 0x8000) as u8;
                self.ee_shift = self.ee_shift % 0x8000 * 2;
            }
        }
        self.ee_prev_sk = sk;
    }

    /// Appends the registers, the EEPROM and the driver's read offset to `out`.
    pub fn snapshot_into(&self, out: &mut Vec<u8>)
        ensures
            final(out)@ == old(out)@ + self@.snapshot_bytes(),
    {
        put_bytes(out, &self.regs);
        let ghost before = out@;
        let mut i: usize = 0;
        while i < 64
            invariant
                i <= 64,
                out@ == before + eeprom_bytes(self@.eeprom).take(2 * i),
            decreases 64 - i,
        {
            let w: u16 = self.eeprom[i];
            put_le_u16(out, w);
            let ghost all = eeprom_bytes(self@.eeprom);
            assert((2 * i) / 2 == i && (2 * i + 1) / 2 == i && (2 * i) % 2 == 0 && (2 * i + 1) % 2
                == 1);
            assert(all[2 * i] == w % 0x100 && all[2 * i + 1] == w / 0x100);
            assert(all.take(2 * i + 2) == all.take(2 * i) + le16_bytes(w));
            i = i + 1;
        }
        assert(eeprom_bytes(self@.eeprom).take(128) == eeprom_bytes(self@.eeprom));
        put_le_u32(out, self.rx_rptr);
    }

    /// Takes back what `snapshot_into` wrote and returns its length; the shorter
    /// layout without the read offset is accepted too.
    pub fn restore(&mut self, bytes: &[u8]) -> (r: Result<usize, &'static str>)
        ensures
            (final(self)@, r) == old(self)@.restore_outcome(bytes@),
    {
        if bytes.len() < 384 {
            return Err("rtl8139: truncated");
        }
        let mut i: usize = 0;
        while i < 256
            invariant
                i <= 256,
                bytes@.len() >= 384,
                self@ == (RtlState { regs: self@.regs, ..old(self)@ }),
                self@.regs.len() == 256,
                forall|j: int| 0 <= j < i ==> self@.regs[j] == bytes@[j],
            decreases 256 - i,
        {
            self.regs[i] = bytes[i];
            i = i + 1;
        }
        assert(self@.regs == bytes@.take(256));
        let mut w: usize = 0;
        while w < 64
            invariant
                w <= 64,
                bytes@.len() >= 384,
                self@ == (RtlState {
                    regs: bytes@.take(256),
                    eeprom: self@.eeprom,
                    ..old(self)@
                }),
                self@.eeprom.len() == 64,
                forall|j: int| 0 <= j < w ==> self@.eeprom[j] == le_u16(bytes@, 256 + 2 * j),
            decreases 64 - w,
        {
            self.eeprom[w] = get_le_u16(bytes, 256 + 2 * w);
            w = w + 1;
        }
        assert(self@.eeprom == Seq::new(64, |i: int| le_u16(bytes@, 256 + 2 * i)));
        if bytes.len() >= 388 {
            self.rx_rptr = get_le_u32(bytes, 384);
            Ok(388)
        } else {
            self.rx_rptr = 0;
            Ok(384)
        }
    }
}

fn build_rx_record(frame: &[u8]) -> (buf: Vec<u8>)
    requires
        frame@.len() <= 0xFFF4,
    ensures
        buf@ == rx_record(frame@),
{
    let n: usize = frame.len();
    let payload: usize = if n < ETH_MIN_FRAME {
        ETH_MIN_FRAME
    } else {
        n
    };
    let total: usize = (4 + payload + 4 + 3) / 4 * 4;
    let mut buf: Vec<u8> = Vec::new();
    put_le_u16(&mut buf, 1);
    put_le_u16(&mut buf, (payload + 4) as u16);
    put_bytes(&mut buf, frame);
    let ghost head = buf@;
    assert(head == le16_bytes(1) + le16_bytes((payload + 4) as u16) + frame@);
    while buf.len() < total
        invariant
            head.len() <= buf@.len() <= total,
            buf@ == head + Seq::new((buf@.len() - head.len()) as nat, |i: int| 0u8),
        decreases total - buf@.len(),
    {
        buf.push(0u8);
        assert(buf@ == head + Seq::new((buf@.len() - head.len()) as nat, |i: int| 0u8));
    }
    buf
}

impl Default for Rtl8139 {
    fn default() -> (nic: Self)
        ensures
            nic@ == RtlState::fresh(DEFAULT_MAC@),
    {
        Rtl8139::new()
    }
}

/// A frame that is taken never reaches unread data: the unread part grows by
/// exactly the frame's record and stays shorter than the ring. A frame that is
/// not taken would have reached it, or the receiver is off.
pub proof fn law_ring_is_never_overrun(nic: RtlState, n: int)
    requires
        nic.regs.len() == 256,
        nic.takes_frame(n),
        n >= 0,
    ensures
        nic.after_frame(n).ring_len() == nic.ring_len(),
        nic.after_frame(n).read_offset() == nic.read_offset(),
        nic.after_frame(n).write_offset() == (nic.write_offset() + rx_total(n)) % nic.ring_len(),
        nic.after_frame(n).unread() == nic.unread() + rx_total(n),
        nic.after_frame(n).unread() < nic.ring_len(),
{
    let len = nic.ring_len();
    let later = nic.after_frame(n);
    assert(later.regs[RCR + 1] == nic.regs[RCR + 1]);
    assert(later.ring_len() == len);
    let w = nic.write_offset();
    let r = nic.read_offset();
    let total = rx_total(n);
    vstd::arithmetic::div_mod::lemma_mod_bound(le_u16(nic.regs, CBR as int) as int, len);
    vstd::arithmetic::div_mod::lemma_mod_bound(nic.rx_rptr as int, len);
    lemma_mod_one_wrap(w + len - r, len);
    lemma_mod_one_wrap(w + total, len);
    let cbr = (w + total) % len;
    assert(later.regs[CBR as int] == (cbr as u16) % 0x100);
    assert(later.regs[CBR + 1] == (cbr as u16) / 0x100);
    assert(le_u16(later.regs, CBR as int) == cbr);
    lemma_mod_one_wrap(cbr, len);
    assert(later.write_offset() == cbr);
    lemma_mod_one_wrap(cbr + len - r, len);
}

proof fn lemma_mod_one_wrap(x: int, len: int)
    requires
        len > 0,
        0 <= x < 2 * len,
    ensures
        x % len == (if x < len {
            x
        } else {
            x - len
        }),
{
    if x < len {
        vstd::arithmetic::div_mod::lemma_small_mod(x as nat, len as nat);
    } else {
        vstd::arithmetic::div_mod::lemma_fundamental_div_mod_converse(x, len, 1, x - len);
    }
}

/// Once the driver has moved its read offset up to the card's write offset (it
/// stores it less sixteen), the ring is empty and the chip command says so.
pub proof fn law_caught_up_reader_sees_empty(nic: RtlState)
    requires
        nic.regs.len() == 256,
    ensures
        ({
            let capr = (nic.write_offset() + 0x1_0000 - 16) % 0x1_0000;
            let later = nic.after_write(CAPR as u16, (capr % 0x100) as u8).after_write(
                (CAPR + 1) as u16,
                (capr / 0x100) as u8,
            );
            &&& later.unread() == 0
            &&& later.read_value(CHIP_CMD as u16) == later.regs[CHIP_CMD as int] | CMD_BUFE
        }),
{
    let len = nic.ring_len();
    let w = nic.write_offset();
    let capr = (w + 0x1_0000 - 16) % 0x1_0000;
    vstd::arithmetic::div_mod::lemma_mod_bound(le_u16(nic.regs, CBR as int) as int, len);
    lemma_capr_offset(w, len);
    let one = nic.after_write(CAPR as u16, (capr % 0x100) as u8);
    let two = one.after_write((CAPR + 1) as u16, (capr / 0x100) as u8);
    assert(one.regs == nic.regs.update(CAPR as int, (capr % 0x100) as u8));
    assert(two.regs == one.regs.update(CAPR + 1, (capr / 0x100) as u8));
    assert(le_u16(two.regs, CAPR as int) == capr);
    assert(le_u16(two.regs, CBR as int) == le_u16(nic.regs, CBR as int));
    assert(two.ring_len() == len);
    assert(two.rx_rptr == w);
}

proof fn lemma_capr_offset(w: int, len: int)
    requires
        len == 0x2000 || len == 0x4000 || len == 0x8000 || len == 0x1_0000,
        0 <= w < len,
    ensures
        ((w + 0x1_0000 - 16) % 0x1_0000 + 16) % len == w,
        w % len == w,
        len % len == 0,
{
    let q = if len == 0x2000 {
        8int
    } else if len == 0x4000 {
        4
    } else if len == 0x8000 {
        2
    } else {
        1
    };
    assert(q * len == 0x1_0000);
    if w < 16 {
        vstd::arithmetic::div_mod::lemma_fundamental_div_mod_converse(0x1_0000 + w, len, q, w);
    }
    lemma_mod_one_wrap(w, len);
    lemma_mod_one_wrap(len, len);
}

/// No register write changes the MAC address, in the registers or in the EEPROM.
pub proof fn law_mac_is_read_only(nic: RtlState, off: u16, value: u8)
    requires
        nic.regs.len() == 256,
    ensures
        nic.after_write(off, value).regs.take(6) == nic.regs.take(6),
        nic.after_write(off, value).eeprom == nic.eeprom,
{
    assert(nic.after_write(off, value).regs.take(6) =~= nic.regs.take(6));
}

/// Acknowledging an interrupt condition that is there makes the line low again
/// if no other unmasked condition is left.
pub proof fn law_acknowledge_clears(nic: RtlState, value: u8)
    requires
        nic.regs.len() == 256,
    ensures
        nic.after_write(ISR as u16, value).regs == nic.regs.update(
            ISR as int,
            nic.regs[ISR as int] & !value,
        ),
        (nic.regs[ISR as int] & !value) & nic.regs[IMR as int] == 0 && nic.regs[ISR + 1] & nic.regs[
        IMR + 1] == 0 ==> !nic.after_write(ISR as u16, value).irq(),
{
}

/// Starting a transmission queues the descriptor's address and length behind the
/// frames that wait, marks the descriptor complete and raises the condition.
pub proof fn law_kick_queues_frame(nic: RtlState, n: int)
    requires
        nic.regs.len() == 256,
        0 <= n < 4,
        nic.regs[0x10 + 4 * n + 1] & TSD_OWN_HI == 0,
    ensures
        nic.after_kick(n).tx == nic.tx.push(
            (
                le_u32(nic.regs, 0x20 + 4 * n),
                (le_u16(nic.regs, 0x10 + 4 * n) % 0x2000) as u16,
            ),
        ),
        nic.after_kick(n).regs[0x10 + 4 * n + 1] & TSD_OWN_HI != 0,
        nic.after_kick(n).regs[0x10 + 4 * n + 1] & TSD_TOK_HI != 0,
        nic.after_kick(n).regs[ISR as int] & ISR_TOK != 0,
        nic.after_kick(n).after_kick(n) == nic.after_kick(n),
{
    lemma_completion_bits(nic.regs[0x10 + 4 * n + 1], nic.regs[ISR as int]);
}

proof fn lemma_completion_bits(status: u8, isr: u8)
    by (bit_vector)
    ensures
        (status | 0x20u8 | 0x80u8) & 0x20u8 != 0,
        (status | 0x20u8 | 0x80u8) & 0x80u8 != 0,
        (isr | 0x04u8) & 0x04u8 != 0,
{
}

/// The protocol after each bit of `bits` has been clocked in: the data line set
/// while the clock is low, then the clock raised.
#[verifier::opaque]
pub open spec fn after_bits(s: SerialState, eeprom: Seq<u16>, bits: Seq<bool>) -> SerialState
    decreases bits.len(),
{
    if bits.len() == 0 {
        s
    } else {
        let di: u8 = if bits.last() {
            EE_DI
        } else {
            0
        };
        after_bits(s, eeprom, bits.drop_last()).after_control(
            eeprom,
            (EE_CS + di) as u8,
        ).after_control(eeprom, (EE_CS + di + EE_SK) as u8)
    }
}

/// The protocol after `n` further clock pulses.
pub open spec fn after_pulses(s: SerialState, eeprom: Seq<u16>, n: nat) -> SerialState
    decreases n,
{
    if n == 0 {
        s
    } else {
        after_pulses(s, eeprom, (n - 1) as nat).after_control(eeprom, EE_CS).after_control(
            eeprom,
            (EE_CS + EE_SK) as u8,
        )
    }
}

/// Bit `k` of `v`, counted from the top.
pub open spec fn top_bit(v: u16, k: int) -> bool {
    (v >> ((15 - k) as u16)) & 1 == 1
}

/// The command that reads word `word`: two idle bits, the start bit, the read
/// operation, and the six bits of the address.
pub open spec fn read_command(word: int) -> Seq<bool> {
    seq![
        false,
        false,
        true,
        true,
        false,
        word / 32 % 2 == 1,
        word / 16 % 2 == 1,
        word / 8 % 2 == 1,
        word / 4 % 2 == 1,
        word / 2 % 2 == 1,
        word % 2 == 1,
    ]
}

proof fn lemma_no_bits(s: SerialState, eeprom: Seq<u16>)
    ensures
        after_bits(s, eeprom, Seq::empty()) == s,
{
    reveal(after_bits);
}

proof fn lemma_clock_bit(s: SerialState, eeprom: Seq<u16>, bits: Seq<bool>, b: bool)
    requires
        after_bits(s, eeprom, bits).cs,
    ensures
        after_bits(s, eeprom, bits.push(b)) == (SerialState {
            prev_sk: true,
            ..after_bits(s, eeprom, bits).edge(eeprom, b)
        }),
{
    reveal(after_bits);
    assert(bits.push(b).drop_last() == bits);
}

/// Clocking the read command for word `word` into a freshly selected EEPROM and
/// then pulsing the clock shifts that word out, top bit first.
pub proof fn law_eeprom_read_delivers_word(s: SerialState, eeprom: Seq<u16>, word: int, k: int)
    requires
        eeprom.len() == 64,
        0 <= word < 64,
        0 <= k < 16,
    ensures
        ({
            let selected = s.after_control(eeprom, 0).after_control(eeprom, EE_CS);
            let addressed = after_bits(selected, eeprom, read_command(word));
            after_pulses(addressed, eeprom, (k + 1) as nat).dobit == (if top_bit(
                eeprom[word],
                k,
            ) {
                1u8
            } else {
                0
            })
        }),
{
    let selected = s.after_control(eeprom, 0).after_control(eeprom, EE_CS);
    let addressed = after_bits(selected, eeprom, read_command(word));
    lemma_addressed(selected, eeprom, word);
    lemma_pulses(addressed, eeprom, eeprom[word], (k + 1) as nat);
}

proof fn lemma_addressed(selected: SerialState, eeprom: Seq<u16>, word: int)
    requires
        eeprom.len() == 64,
        0 <= word < 64,
        selected.cs,
        selected.waiting_start,
        !selected.reading,
        !selected.prev_sk,
    ensures
        ({
            let addressed = after_bits(selected, eeprom, read_command(word));
            addressed.cs && addressed.reading && !addressed.waiting_start && addressed.shift
                == eeprom[word]
        }),
{
    let b5 = word / 32 % 2 == 1;
    let b4 = word / 16 % 2 == 1;
    let b3 = word / 8 % 2 == 1;
    let b2 = word / 4 % 2 == 1;
    let b1 = word / 2 % 2 == 1;
    let b0 = word % 2 == 1;
    let s0 = Seq::<bool>::empty();
    let s1 = s0.push(false);
    let s2 = s1.push(false);
    let s3 = s2.push(true);
    let s4 = s3.push(true);
    let s5 = s4.push(false);
    let s6 = s5.push(b5);
    let s7 = s6.push(b4);
    let s8 = s7.push(b3);
    let s9 = s8.push(b2);
    let s10 = s9.push(b1);
    let s11 = s10.push(b0);
    assert(read_command(word) == s11);
    lemma_halves(word);
    lemma_start_bit(selected, eeprom);
    lemma_take_bit(selected, eeprom, s3, true, 0, 0);
    lemma_take_bit(selected, eeprom, s4, false, 1, 1);
    lemma_take_bit(selected, eeprom, s5, b5, 2, 2);
    lemma_take_bit(selected, eeprom, s6, b4, 4 + word / 32, 3);
    lemma_take_bit(selected, eeprom, s7, b3, 8 + word / 16, 4);
    lemma_take_bit(selected, eeprom, s8, b2, 16 + word / 8, 5);
    lemma_take_bit(selected, eeprom, s9, b1, 32 + word / 4, 6);
    lemma_last_bit(selected, eeprom, s10, b0, 64 + word / 2);
}

/// The protocol has taken `count` command bits, which read as `cmd`.
#[verifier::opaque]
spec fn taking_command(t: SerialState, cmd: int, count: int) -> bool {
    t.cs && !t.waiting_start && !t.reading && t.cmd == cmd && t.count == count
}

proof fn lemma_start_bit(selected: SerialState, eeprom: Seq<u16>)
    requires
        selected.cs,
        selected.waiting_start,
        !selected.reading,
    ensures
        taking_command(
            after_bits(
                selected,
                eeprom,
                Seq::<bool>::empty().push(false).push(false).push(true),
            ),
            0,
            0,
        ),
{
    reveal(taking_command);
    let s0 = Seq::<bool>::empty();
    lemma_no_bits(selected, eeprom);
    lemma_clock_bit(selected, eeprom, s0, false);
    lemma_clock_bit(selected, eeprom, s0.push(false), false);
    lemma_clock_bit(selected, eeprom, s0.push(false).push(false), true);
}

proof fn lemma_take_bit(
    selected: SerialState,
    eeprom: Seq<u16>,
    bits: Seq<bool>,
    b: bool,
    cmd: int,
    count: int,
)
    requires
        taking_command(after_bits(selected, eeprom, bits), cmd, count),
        0 <= count < 7,
        0 <= cmd < 0x4000,
    ensures
        taking_command(
            after_bits(selected, eeprom, bits.push(b)),
            2 * cmd + (if b {
                1int
            } else {
                0
            }),
            count + 1,
        ),
{
    reveal(taking_command);
    lemma_clock_bit(selected, eeprom, bits, b);
}

proof fn lemma_last_bit(
    selected: SerialState,
    eeprom: Seq<u16>,
    bits: Seq<bool>,
    b: bool,
    cmd: int,
)
    requires
        taking_command(after_bits(selected, eeprom, bits), cmd, 7),
        64 <= cmd < 96,
        eeprom.len() == 64,
    ensures
        ({
            let addressed = after_bits(selected, eeprom, bits.push(b));
            addressed.cs && addressed.reading && !addressed.waiting_start && addressed.shift
                == eeprom[2 * cmd + (if b {
                1int
            } else {
                0
            }) - 128]
        }),
{
    reveal(taking_command);
    lemma_clock_bit(selected, eeprom, bits, b);
}

proof fn lemma_halves(word: int)
    requires
        0 <= word < 64,
    ensures
        0 <= word / 32 <= 1,
        word / 32 % 2 == word / 32,
        word / 16 == 2 * (word / 32) + word / 16 % 2,
        word / 8 == 2 * (word / 16) + word / 8 % 2,
        word / 4 == 2 * (word / 8) + word / 4 % 2,
        word / 2 == 2 * (word / 4) + word / 2 % 2,
        word == 2 * (word / 2) + word % 2,
        0 <= word / 16 < 4,
        0 <= word / 8 < 8,
        0 <= word / 4 < 16,
        0 <= word / 2 < 32,
{
}

proof fn lemma_pulses(s: SerialState, eeprom: Seq<u16>, v: u16, n: nat)
    requires
        s.cs,
        s.reading,
        !s.waiting_start,
        s.shift == v,
        n <= 16,
    ensures
        ({
            let t = after_pulses(s, eeprom, n);
            &&& t.cs && t.reading && !t.waiting_start
            &&& t.shift == v << (n as u16)
            &&& n > 0 ==> t.dobit == (if top_bit(v, n - 1) {
                1u8
            } else {
                0
            })
        }),
    decreases n,
{
    if n > 0 {
        let m = (n - 1) as nat;
        lemma_pulses(s, eeprom, v, m);
        lemma_shift_step(v, m as u16);
    } else {
        lemma_shift_none(v);
    }
}

proof fn lemma_shift_none(v: u16)
    by (bit_vector)
    ensures
        v << 0u16 == v,
{
}

proof fn lemma_shift_step(v: u16, m: u16)
    by (bit_vector)
    requires
        m < 16,
    ensures
        (v << m) / 0x8000 == (v >> ((15 - m) as u16)) & 1,
        (v << m) % 0x8000 * 2 == v << ((m + 1) as u16),
        (v >> ((15 - m) as u16)) & 1 <= 1,
{
}

/// A restored card has the captured registers, EEPROM and read offset.
pub proof fn law_snapshot_round_trip(captured: RtlState, target: RtlState, tail: Seq<u8>)
    requires
        captured.regs.len() == 256,
        captured.eeprom.len() == 64,
    ensures
        target.restore_outcome(captured.snapshot_bytes() + tail) == (
            RtlState { serial: target.serial, tx: target.tx, ..captured },
            Ok::<usize, &'static str>(388),
        ),
{
    let s = captured.snapshot_bytes() + tail;
    let words = eeprom_bytes(captured.eeprom);
    assert(s.take(256) == captured.regs);
    assert forall|i: int| 0 <= i < 64 implies le_u16(s, 256 + 2 * i) == captured.eeprom[i] by {
        assert(s[256 + 2 * i] == words[2 * i]);
        assert(s[256 + 2 * i + 1] == words[2 * i + 1]);
        assert((2 * i) / 2 == i && (2 * i + 1) / 2 == i && (2 * i) % 2 == 0 && (2 * i + 1) % 2
            == 1);
    }
    assert(Seq::new(64, |i: int| le_u16(s, 256 + 2 * i)) == captured.eeprom);
    assert(s.subrange(384, 388) == le32_bytes(captured.rx_rptr));
    lemma_le32_at(s, 384, captured.rx_rptr);
}

/// The room that a frame takes up in the ring is the least multiple of four that holds
/// the four bytes of the header, the frame filled up to 60 bytes, and the four bytes of
/// the checksum.
pub proof fn law_record_holds_frame_and_checksum(n: int)
    requires
        n >= 0,
    ensures
        rx_total(n) % 4 == 0,
        rx_total(n) >= n + 8,
        rx_total(n) >= 68,
        n >= 60 ==> rx_total(n) < n + 12,
        n < 60 ==> rx_total(n) == 68,
{
}

/// The record of a frame: good status, the length of the frame (at least 60) with its
/// checksum, the frame itself, zeros. It is as long as the room that it takes up, and
/// the driver, which rounds header and stored length up to a multiple of four, comes out
/// behind it.
pub proof fn law_record_layout(frame: Seq<u8>, i: int)
    requires
        frame.len() <= 0xFFF4,
    ensures
        ({
            let r = rx_record(frame);
            let stored = r[2] + 0x100 * r[3];
            &&& r.len() == rx_total(frame.len() as int)
            &&& r[0] == 1 && r[1] == 0
            &&& stored == (if frame.len() < 60 {
                64
            } else {
                frame.len() + 4
            })
            &&& (stored + 4 + 3) / 4 * 4 == r.len()
            &&& 0 <= i < frame.len() ==> r[4 + i] == frame[i]
            &&& frame.len() <= i < r.len() - 4 ==> r[4 + i] == 0
        }),
{
    law_record_holds_frame_and_checksum(frame.len() as int);
    let payload: int = if frame.len() < 60 {
        60
    } else {
        frame.len() as int
    };
    let head = le16_bytes(1) + le16_bytes((payload + 4) as u16) + frame;
    let r = rx_record(frame);
    assert(r[2] == ((payload + 4) as u16 % 0x100) as u8);
    assert(r[3] == ((payload + 4) as u16 / 0x100) as u8);
}

/// The length of the ring: 8 KiB, doubled as often as bits 11 and 12 of the receive
/// configuration say.
pub proof fn law_ring_length(nic: RtlState)
    requires
        nic.regs.len() == 256,
    ensures
        nic.ring_len() == (if nic.regs[0x45] / 8 % 4 == 0 {
            8192
        } else if nic.regs[0x45] / 8 % 4 == 1 {
            16384
        } else if nic.regs[0x45] / 8 % 4 == 2 {
            32768
        } else {
            65536int
        }),
{
}

/// Where the card and the driver stand: the write offset is what the 16-bit register at
/// 0x3A holds, the read offset is sixteen more than what the driver last stored at 0x38,
/// both modulo the length of the ring, and what lies between them is unread.
pub proof fn law_ring_offsets(nic: RtlState, lo: u8, hi: u8)
    requires
        nic.regs.len() == 256,
    ensures
        ({
            let len = nic.ring_len();
            let later = nic.after_write(0x38, lo).after_write(0x39, hi);
            let w = (nic.regs[0x3A] + 0x100 * nic.regs[0x3B]) % len;
            let r = (lo + 0x100 * hi + 16) % len;
            &&& nic.write_offset() == w
            &&& later.write_offset() == w
            &&& later.read_offset() == r
            &&& later.unread() == (if w >= r {
                w - r
            } else {
                w + len - r
            })
            &&& later.read_value(0x37) % 2 == (if w == r {
                1
            } else {
                0int
            })
            &&& later.read_value(0x37) / 2 == nic.regs[0x37] / 2
        }),
{
    let len = nic.ring_len();
    let one = nic.after_write(0x38, lo);
    let later = one.after_write(0x39, hi);
    assert(one.regs == nic.regs.update(0x38, lo));
    assert(later.regs == one.regs.update(0x39, hi));
    assert(later.ring_len() == len);
    let w = (nic.regs[0x3A] + 0x100 * nic.regs[0x3B]) % len;
    let r = (lo + 0x100 * hi + 16) % len;
    vstd::arithmetic::div_mod::lemma_mod_bound(nic.regs[0x3A] + 0x100 * nic.regs[0x3B], len);
    vstd::arithmetic::div_mod::lemma_mod_bound(lo + 0x100 * hi + 16, len);
    lemma_mod_one_wrap(r, len);
    lemma_mod_one_wrap(w + len - r, len);
    lemma_empty_bit(nic.regs[0x37]);
}

proof fn lemma_empty_bit(cmd: u8)
    by (bit_vector)
    ensures
        (cmd | 1u8) % 2 == 1,
        (cmd | 1u8) / 2 == cmd / 2,
        (cmd & !1u8) % 2 == 0,
        (cmd & !1u8) / 2 == cmd / 2,
{
}

/// A frame is taken exactly while the receiver is on and its record stays short of the
/// unread part; the next record then starts behind it, the receive condition is there,
/// and nothing else of the card changes.
pub proof fn law_frame_moves_the_write_offset(nic: RtlState, n: int, r: int)
    requires
        nic.regs.len() == 256,
        n >= 0,
        0 <= r < 256,
    ensures
        ({
            let len = nic.ring_len();
            let later = nic.after_frame(n);
            let next = (nic.write_offset() + rx_total(n)) % len;
            &&& nic.takes_frame(n) <==> nic.regs[0x37] / 8 % 2 == 1 && nic.unread() + rx_total(n)
                < len
            &&& later.regs[0x3A] + 0x100 * later.regs[0x3B] == next
            &&& later.regs[0x3E] % 2 == 1 && later.regs[0x3E] / 2 == nic.regs[0x3E] / 2
            &&& r != 0x3A && r != 0x3B && r != 0x3E ==> later.regs[r] == nic.regs[r]
            &&& later.rx_rptr == nic.rx_rptr && later.tx == nic.tx && later.eeprom == nic.eeprom
                && later.serial == nic.serial
        }),
{
    let len = nic.ring_len();
    vstd::arithmetic::div_mod::lemma_mod_bound(nic.write_offset() + rx_total(n), len);
    lemma_receiver_bit(nic.regs[0x37]);
    lemma_empty_bit(nic.regs[0x3E]);
}

proof fn lemma_receiver_bit(cmd: u8)
    by (bit_vector)
    ensures
        cmd & 0x08u8 != 0 <==> cmd / 8 % 2 == 1,
{
}

/// The card after the guest has written `value` to the four registers from `off` on, low
/// byte first.
#[verifier::opaque]
pub open spec fn after_dword(nic: RtlState, off: u16, value: u32) -> RtlState {
    nic.after_write(off, (value % 0x100) as u8).after_write(
        (off + 1) as u16,
        (value / 0x100 % 0x100) as u8,
    ).after_write((off + 2) as u16, (value / 0x1_0000 % 0x100) as u8).after_write(
        (off + 3) as u16,
        (value / 0x100_0000) as u8,
    )
}

/// Sending: when the driver has stored the address of its buffer in descriptor `n` and
/// then the length with the ownership bit clear, exactly that address and that length
/// are queued, behind what was queued before.
pub proof fn law_sent_frame_is_queued(nic: RtlState, n: int, addr: u32, size: u32)
    requires
        nic.regs.len() == 256,
        0 <= n < 4,
        size < 0x2000,
    ensures
        ({
            let later = after_dword(
                after_dword(nic, (0x20 + 4 * n) as u16, addr),
                (0x10 + 4 * n) as u16,
                size,
            );
            &&& later.tx == nic.tx.push((addr, size as u16))
            &&& later.regs[0x11 + 4 * n] / 0x20 % 2 == 1
            &&& later.regs[0x11 + 4 * n] / 0x80 == 1
            &&& later.regs[0x3E] / 4 % 2 == 1
        }),
{
    lemma_dword(nic, 0x20 + 4 * n, addr);
    lemma_descriptor_dword(after_dword(nic, (0x20 + 4 * n) as u16, addr), n, size);
}

proof fn lemma_descriptor_dword(nic: RtlState, n: int, size: u32)
    requires
        nic.regs.len() == 256,
        0 <= n < 4,
        size < 0x2000,
    ensures
        ({
            let later = after_dword(nic, (0x10 + 4 * n) as u16, size);
            &&& later.tx == nic.tx.push((le_u32(nic.regs, 0x20 + 4 * n), size as u16))
            &&& later.regs[0x11 + 4 * n] / 0x20 % 2 == 1
            &&& later.regs[0x11 + 4 * n] / 0x80 == 1
            &&& later.regs[0x3E] / 4 % 2 == 1
        }),
{
    let t = 0x10 + 4 * n;
    let b0 = (size % 0x100) as u8;
    let b1 = (size / 0x100 % 0x100) as u8;
    let b2 = (size / 0x1_0000 % 0x100) as u8;
    let b3 = (size / 0x100_0000) as u8;
    let regs = nic.regs.update(t, b0).update(t + 1, b1).update(t + 2, b2);
    let three = RtlState { regs, ..nic };
    lemma_dword_ends(nic, n, size);
    lemma_small_status(b1, regs[0x3E]);
    assert(regs[t] == b0 && regs[t + 1] == b1);
    lemma_descriptor_store(three, n, b3);
    let stored = regs.update(t + 3, b3);
    lemma_same_dword(stored, nic.regs, 0x20 + 4 * n);
    assert(size == b0 + 0x100 * b1);
}

proof fn lemma_dword_ends(nic: RtlState, n: int, size: u32)
    requires
        nic.regs.len() == 256,
        0 <= n < 4,
    ensures
        ({
            let t = 0x10 + 4 * n;
            let b0 = (size % 0x100) as u8;
            let b1 = (size / 0x100 % 0x100) as u8;
            let b2 = (size / 0x1_0000 % 0x100) as u8;
            after_dword(nic, t as u16, size) == (RtlState {
                regs: nic.regs.update(t, b0).update(t + 1, b1).update(t + 2, b2),
                ..nic
            }).after_write((t + 3) as u16, (size / 0x100_0000) as u8)
        }),
{
    reveal(after_dword);
    lemma_three_stores(
        nic,
        0x10 + 4 * n,
        (size % 0x100) as u8,
        (size / 0x100 % 0x100) as u8,
        (size / 0x1_0000 % 0x100) as u8,
    );
}

proof fn lemma_three_stores(nic: RtlState, t: int, b0: u8, b1: u8, b2: u8)
    requires
        nic.regs.len() == 256,
        0x10 <= t < 0x20,
        t % 4 == 0,
    ensures
        nic.after_write(t as u16, b0).after_write((t + 1) as u16, b1).after_write(
            (t + 2) as u16,
            b2,
        ) == (RtlState {
            regs: nic.regs.update(t, b0).update(t + 1, b1).update(t + 2, b2),
            ..nic
        }),
{
    lemma_store(nic, t, b0);
    let one = nic.after_write(t as u16, b0);
    lemma_store(one, t + 1, b1);
    let two = one.after_write((t + 1) as u16, b1);
    lemma_store(two, t + 2, b2);
}

/// Registers that are plain storage.
spec fn is_plain(r: int) -> bool {
    0x10 <= r < 0x20 && r % 4 != 3 || 0x20 <= r < 0x37
}

proof fn lemma_store(nic: RtlState, r: int, v: u8)
    requires
        nic.regs.len() == 256,
        is_plain(r),
    ensures
        nic.after_write(r as u16, v) == (RtlState { regs: nic.regs.update(r, v), ..nic }),
{
}

proof fn lemma_descriptor_store(nic: RtlState, n: int, v: u8)
    requires
        nic.regs.len() == 256,
        0 <= n < 4,
        nic.regs[0x11 + 4 * n] & TSD_OWN_HI == 0,
    ensures
        ({
            let stored = nic.regs.update(0x13 + 4 * n, v);
            let later = nic.after_write((0x13 + 4 * n) as u16, v);
            &&& later.tx == nic.tx.push(
                (
                    le_u32(stored, 0x20 + 4 * n),
                    (stored[0x10 + 4 * n] + 0x100 * (stored[0x11 + 4 * n] % 32)) as u16,
                ),
            )
            &&& later.regs[0x11 + 4 * n] == stored[0x11 + 4 * n] | 0x20 | 0x80
            &&& later.regs[0x3E] == stored[0x3E] | 4
        }),
{
    let r = 0x13 + 4 * n;
    assert(r % 4 == 3 && (r - 0x13) / 4 == n);
}

proof fn lemma_split(v: u32)
    ensures
        v == v % 0x100 + 0x100 * (v / 0x100 % 0x100) + 0x1_0000 * (v / 0x1_0000 % 0x100)
            + 0x100_0000 * (v / 0x100_0000),
{
}

proof fn lemma_same_dword(s: Seq<u8>, t: Seq<u8>, at: int)
    requires
        s[at] == t[at],
        s[at + 1] == t[at + 1],
        s[at + 2] == t[at + 2],
        s[at + 3] == t[at + 3],
    ensures
        le_u32(s, at) == le_u32(t, at),
{
}

proof fn lemma_dword(nic: RtlState, a: int, v: u32)
    requires
        nic.regs.len() == 256,
        0x20 <= a,
        a + 4 <= 0x37,
    ensures
        ({
            let later = after_dword(nic, a as u16, v);
            &&& later == (RtlState { regs: later.regs, ..nic })
            &&& later.regs.len() == 256
            &&& le_u32(later.regs, a) == v
            &&& forall|i: int|
                0 <= i < 256 && !(a <= i < a + 4) ==> #[trigger] later.regs[i] == nic.regs[i]
        }),
{
    reveal(after_dword);
    let b0 = (v % 0x100) as u8;
    let b1 = (v / 0x100 % 0x100) as u8;
    let b2 = (v / 0x1_0000 % 0x100) as u8;
    let b3 = (v / 0x100_0000) as u8;
    let one = nic.after_write(a as u16, b0);
    let two = one.after_write((a + 1) as u16, b1);
    let three = two.after_write((a + 2) as u16, b2);
    let four = three.after_write((a + 3) as u16, b3);
    lemma_store(nic, a, b0);
    lemma_store(one, a + 1, b1);
    lemma_store(two, a + 2, b2);
    lemma_store(three, a + 3, b3);
    assert(after_dword(nic, a as u16, v) == four);
    assert(four.regs == nic.regs.update(a, b0).update(a + 1, b1).update(a + 2, b2).update(
        a + 3,
        b3,
    ));
    lemma_split(v);
}

proof fn lemma_small_status(status: u8, isr: u8)
    by (bit_vector)
    requires
        status < 0x20,
    ensures
        status & 0x20u8 == 0,
        (status | 0x20u8 | 0x80u8) / 0x20 % 2 == 1,
        (status | 0x20u8 | 0x80u8) / 0x80 == 1,
        (isr | 0x04u8) / 4 % 2 == 1,
{
}

/// A frame is written to guest memory at the ring's base address, which the driver has
/// stored at 0x30, plus the write offset.
pub proof fn law_ring_base_reads_back(nic: RtlState, base: u32)
    requires
        nic.regs.len() == 256,
    ensures
        ({
            let later = after_dword(nic, 0x30, base);
            &&& le_u32(later.regs, RBSTART as int) == base
            &&& later.write_offset() == nic.write_offset()
            &&& later.read_offset() == nic.read_offset()
        }),
{
    lemma_dword(nic, 0x30, base);
    let later = after_dword(nic, 0x30, base);
    assert(later.regs[0x45] == nic.regs[0x45] && later.regs[0x3A] == nic.regs[0x3A]
        && later.regs[0x3B] == nic.regs[0x3B]);
    assert(later.ring_len() == nic.ring_len());
}

/// The line is high exactly while a condition is there that the mask lets through: some
/// bit is set both in the status at 0x3E and in the mask at 0x3C, or in the bytes behind
/// them. Writing ones to the status clears those bits and no others.
pub proof fn law_interrupt_line(nic: RtlState, value: u8)
    requires
        nic.regs.len() == 256,
    ensures
        nic.irq() <==> nic.regs[0x3E] & nic.regs[0x3C] != 0 || nic.regs[0x3F] & nic.regs[0x3D] != 0,
        nic.after_write(0x3E, value).regs == nic.regs.update(0x3E, nic.regs[0x3E] & !value),
        nic.after_write(0x3F, value).regs == nic.regs.update(0x3F, nic.regs[0x3F] & !value),
        nic.after_write(0x3C, value).regs == nic.regs.update(0x3C, value),
        nic.rx_signalled().regs == nic.regs.update(0x3E, nic.regs[0x3E] | 1),
{
}

/// What the registers read as: the address in the first six; the chip's version, and a
/// link that is up; everything else as it was written, but for the reset bit of the chip
/// command, which is never seen set.
pub proof fn law_registers_read(nic: RtlState, off: u16, value: u8)
    requires
        nic.regs.len() == 256,
    ensures
        nic.read_value(0x43) == 0x74,
        nic.read_value(0x64) == 0x2D,
        nic.read_value(0x65) == 0x78,
        off % 256 < 6 ==> nic.read_value(off) == nic.regs[off as int % 256] && nic.after_write(
            off,
            value,
        ) == nic,
        nic.read_value(off) == nic.read_value((off % 256) as u16),
        nic.after_write(off, value) == nic.after_write((off % 256) as u16, value),
        nic.after_write(0x37, value).regs[0x37] / 16 % 2 == 0,
        nic.after_write(0x37, value).regs[0x37] % 16 == value % 16,
        nic.after_write(0x37, value).regs[0x37] / 32 == value / 32,
        0x60 <= off < 0x100 && off != 0x64 && off != 0x65 ==> nic.after_write(
            off,
            value,
        ).read_value(off) == value,
{
    lemma_reset_bit(value);
}

proof fn lemma_reset_bit(value: u8)
    by (bit_vector)
    ensures
        (value & !0x10u8) / 16 % 2 == 0,
        (value & !0x10u8) % 16 == value % 16,
        (value & !0x10u8) / 32 == value / 32,
{
}

/// A new card has its address in its first registers, and in words 7 to 9 of its EEPROM,
/// low byte of each word first; word 0 is the chip's signature.
pub proof fn law_new_card_has_its_address(mac: Seq<u8>, i: int)
    requires
        mac.len() == 6,
        0 <= i < 3,
    ensures
        ({
            let nic = RtlState::fresh(mac);
            &&& nic.regs.len() == 256 && nic.eeprom.len() == 64
            &&& nic.read_value((2 * i) as u16) == mac[2 * i]
            &&& nic.read_value((2 * i + 1) as u16) == mac[2 * i + 1]
            &&& nic.eeprom[7 + i] % 0x100 == mac[2 * i]
            &&& nic.eeprom[7 + i] / 0x100 == mac[2 * i + 1]
            &&& nic.eeprom[0] == 0x8129
            &&& nic.tx.len() == 0 && !nic.irq() && nic.write_offset() == 0 && nic.read_offset() == 0
        }),
{
    let nic = RtlState::fresh(mac);
    assert(nic.regs[2 * i] == mac[2 * i] && nic.regs[2 * i + 1] == mac[2 * i + 1]);
    assert(nic.regs[0x3A] == 0 && nic.regs[0x3B] == 0);
    lemma_no_condition();
}

proof fn lemma_no_condition()
    by (bit_vector)
    ensures
        0u8 & 0u8 == 0,
{
}

/// The wires of the EEPROM are the low four bits of the register at 0x50: from the top, select,
/// clock, data in and data out.
pub proof fn law_eeprom_wires()
    ensures
        CMD_9346 == 0x50,
        EE_CS == 8,
        EE_SK == 4,
        EE_DI == 2,
        EE_DO == 1,
{
}

} // verus!
