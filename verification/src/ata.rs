//! IDE controller with one disk: the command block that a kernel pokes at when
//! it drives the disk without firmware.
//!
//! Served commands: IDENTIFY DEVICE, READ SECTORS and WRITE SECTORS (28-bit
//! addresses). Any other command completes at once without data.
//!
//! A 16-bit access to the data register arrives here as two byte accesses, to
//! the base port and to the one above it. While data is requested both of them
//! move the transfer on by one byte; otherwise the upper port is the error
//! register.

use crate::bytes::{copy_range, get_le_u32, le32_bytes, le_u32, lemma_le32_at, put_bytes, put_le_u32, zeros};
use crate::disk::{image_read, image_written, Disk, SECTOR_SIZE};
use crate::iobus::IoDevice;
use vstd::prelude::*;

verus! {

/// First port of the command block of the first channel.
pub const PRIMARY_PORT_BASE: u16 = 0x1F0;

/// First port of the command block of the second channel.
pub const SECONDARY_PORT_BASE: u16 = 0x170;

/// Status: data is requested or on offer.
pub const STATUS_DRQ: u8 = 0x08;

/// Status: the drive is ready.
pub const STATUS_DRDY: u8 = 0x40;

/// Status: a command is executing; never seen by the guest.
pub const STATUS_BSY: u8 = 0x80;

pub const CMD_READ_SECTORS: u8 = 0x20;

pub const CMD_WRITE_SECTORS: u8 = 0x30;

pub const CMD_IDENTIFY: u8 = 0xEC;

/// The ready status with data requested.
pub const STATUS_TRANSFER: u8 = 0x48;

/// One IDE channel and its disk.
pub struct Ata {
    pub disk: Disk,
    /// Zero stands for 256 sectors.
    pub sector_count: u8,
    pub lba_low: u8,
    pub lba_mid: u8,
    pub lba_high: u8,
    /// The low four bits are the top of the sector address.
    pub drive_head: u8,
    pub error: u8,
    pub status: u8,
    /// The data of the transfer that is under way.
    pub buf: Vec<u8>,
    /// How far the transfer has come.
    pub pos: usize,
    /// Whether the guest is the one that supplies the data.
    pub writing: bool,
    /// Where the data of a write goes, latched with the command.
    pub write_lba: u32,
    pub port_base: u16,
}

/// What a channel holds.
#[verifier::ext_equal]
pub struct AtaState {
    pub disk: Seq<u8>,
    pub sector_count: u8,
    pub lba_low: u8,
    pub lba_mid: u8,
    pub lba_high: u8,
    pub drive_head: u8,
    pub error: u8,
    pub status: u8,
    pub buf: Seq<u8>,
    pub pos: int,
    pub writing: bool,
    pub write_lba: u32,
    pub port_base: u16,
}

impl View for Ata {
    type V = AtaState;

    open spec fn view(&self) -> AtaState {
        AtaState {
            disk: self.disk@,
            sector_count: self.sector_count,
            lba_low: self.lba_low,
            lba_mid: self.lba_mid,
            lba_high: self.lba_high,
            drive_head: self.drive_head,
            error: self.error,
            status: self.status,
            buf: self.buf@,
            pos: self.pos as int,
            writing: self.writing,
            write_lba: self.write_lba,
            port_base: self.port_base,
        }
    }
}

/// Word `w` of the identification block of a disk with `sectors` sectors:
/// configuration, LBA support, sector count, version. The rest is zero.
pub open spec fn identify_word(sectors: int, w: int) -> int {
    if w == 0 {
        0x0040
    } else if w == 49 {
        0x0200
    } else if w == 60 {
        sectors % 0x1_0000
    } else if w == 61 {
        sectors / 0x1_0000 % 0x1_0000
    } else if w == 80 {
        0x0040
    } else {
        0
    }
}

/// The identification block of a disk of `size` bytes, low byte of each word
/// first.
pub open spec fn identify_block(size: int) -> Seq<u8> {
    Seq::new(
        512,
        |i: int|
            (if i % 2 == 0 {
                identify_word(size / 512, i / 2) % 0x100
            } else {
                identify_word(size / 512, i / 2) / 0x100
            }) as u8,
    )
}

/// The number of sectors that a sector-count register stands for.
pub open spec fn sectors_of(register: u8) -> int {
    if register == 0 {
        256
    } else {
        register as int
    }
}

impl AtaState {
    /// The channel fresh from reset, with disk image `disk`.
    pub open spec fn fresh(port_base: u16, disk: Seq<u8>) -> AtaState {
        AtaState {
            disk,
            sector_count: 0,
            lba_low: 0,
            lba_mid: 0,
            lba_high: 0,
            drive_head: 0,
            error: 0,
            status: STATUS_DRDY,
            buf: Seq::empty(),
            pos: 0,
            writing: false,
            write_lba: 0,
            port_base,
        }
    }

    /// The 28-bit sector address in the registers.
    pub open spec fn lba28(self) -> u32 {
        (self.lba_low + 0x100 * self.lba_mid + 0x1_0000 * self.lba_high + 0x100_0000 * (
        self.drive_head % 16)) as u32
    }

    /// Whether data is requested or on offer.
    pub open spec fn drq(self) -> bool {
        self.status & STATUS_DRQ != 0
    }

    /// The register that `port` selects, counted from the base port.
    pub open spec fn offset(self, port: u16) -> int {
        if port >= self.port_base {
            port - self.port_base
        } else {
            port - self.port_base + 0x1_0000
        }
    }

    /// The channel after command `cmd`.
    pub open spec fn after_command(self, cmd: u8) -> AtaState {
        let started = AtaState { pos: 0, error: 0, writing: false, status: STATUS_TRANSFER, ..self };
        let bytes = (sectors_of(self.sector_count) * 512) as nat;
        if cmd == CMD_IDENTIFY {
            AtaState { buf: identify_block(self.disk.len() as int), ..started }
        } else if cmd == CMD_READ_SECTORS {
            AtaState { buf: image_read(self.disk, self.lba28() * 512, bytes), ..started }
        } else if cmd == CMD_WRITE_SECTORS {
            AtaState {
                buf: Seq::new(bytes, |i: int| 0u8),
                writing: true,
                write_lba: self.lba28(),
                ..started
            }
        } else {
            AtaState { buf: Seq::empty(), status: STATUS_DRDY, ..started }
        }
    }

    /// The byte that the transfer offers next.
    pub open spec fn next_byte(self) -> u8 {
        if self.pos < self.buf.len() {
            self.buf[self.pos]
        } else {
            0xFF
        }
    }

    /// The channel after the guest has taken a byte of the transfer. The last
    /// one ends it.
    pub open spec fn after_take(self) -> AtaState {
        let pos = if self.pos < self.buf.len() {
            self.pos + 1
        } else {
            self.pos
        };
        AtaState {
            pos,
            status: if pos >= self.buf.len() {
                self.status & !STATUS_DRQ
            } else {
                self.status
            },
            ..self
        }
    }

    /// The channel after the guest has supplied a byte of the transfer. The
    /// last one commits the whole to the disk.
    pub open spec fn after_supply(self, b: u8) -> AtaState {
        if self.pos >= self.buf.len() {
            self
        } else {
            let taken = AtaState { buf: self.buf.update(self.pos, b), pos: self.pos + 1, ..self };
            if taken.pos < taken.buf.len() {
                taken
            } else {
                AtaState {
                    disk: image_written(self.disk, self.write_lba * 512, taken.buf),
                    status: self.status & !STATUS_DRQ,
                    writing: false,
                    ..taken
                }
            }
        }
    }

    /// What a read from `port` returns.
    pub open spec fn read_value(self, port: u16) -> u8 {
        let at = self.offset(port);
        if at <= 1 && self.drq() && !self.writing {
            self.next_byte()
        } else if at == 1 {
            self.error
        } else if at == 2 {
            self.sector_count
        } else if at == 3 {
            self.lba_low
        } else if at == 4 {
            self.lba_mid
        } else if at == 5 {
            self.lba_high
        } else if at == 6 {
            self.drive_head
        } else if at == 7 {
            self.status
        } else {
            0xFF
        }
    }

    /// The channel after a read from `port`.
    pub open spec fn after_read(self, port: u16) -> AtaState {
        if self.offset(port) <= 1 && self.drq() && !self.writing {
            self.after_take()
        } else {
            self
        }
    }

    /// The channel after a write of `value` to `port`.
    pub open spec fn after_write(self, port: u16, value: u8) -> AtaState {
        let at = self.offset(port);
        if at <= 1 {
            if self.writing && self.drq() {
                self.after_supply(value)
            } else {
                self
            }
        } else if at == 2 {
            AtaState { sector_count: value, ..self }
        } else if at == 3 {
            AtaState { lba_low: value, ..self }
        } else if at == 4 {
            AtaState { lba_mid: value, ..self }
        } else if at == 5 {
            AtaState { lba_high: value, ..self }
        } else if at == 6 {
            AtaState { drive_head: value, ..self }
        } else if at == 7 {
            self.after_command(value)
        } else {
            self
        }
    }

    /// What a snapshot holds of the channel: the registers and the transfer
    /// under way, not the disk.
    pub open spec fn snapshot_bytes(self) -> Seq<u8> {
        seq![
            self.sector_count,
            self.lba_low,
            self.lba_mid,
            self.lba_high,
            self.drive_head,
            self.error,
            self.status,
            if self.writing {
                1
            } else {
                0
            },
        ] + le32_bytes(self.write_lba) + le32_bytes((self.pos % 0x1_0000_0000) as u32) + le32_bytes(
            (self.buf.len() % 0x1_0000_0000) as u32,
        ) + self.buf
    }

    /// The channel and the result that `restore` leaves behind.
    pub open spec fn restore_outcome(self, bytes: Seq<u8>) -> (
        AtaState,
        Result<usize, &'static str>,
    ) {
        if bytes.len() < 20 {
            (self, Err("ata: truncated"))
        } else {
            let buf_len = le_u32(bytes, 16) as int;
            if bytes.len() < 20 + buf_len {
                (self, Err("ata: truncated buffer"))
            } else {
                (
                    AtaState {
                        disk: self.disk,
                        sector_count: bytes[0],
                        lba_low: bytes[1],
                        lba_mid: bytes[2],
                        lba_high: bytes[3],
                        drive_head: bytes[4],
                        error: bytes[5],
                        status: bytes[6],
                        buf: bytes.subrange(20, 20 + buf_len),
                        pos: le_u32(bytes, 12) as int,
                        writing: bytes[7] != 0,
                        write_lba: le_u32(bytes, 8),
                        port_base: self.port_base,
                    },
                    Ok((20 + buf_len) as usize),
                )
            }
        }
    }
}

impl Ata {
    /// The first channel, with an empty disk.
    pub fn new() -> (ata: Self)
        ensures
            ata@ == AtaState::fresh(PRIMARY_PORT_BASE, Seq::empty()),
    {
        Self::with_port_base(PRIMARY_PORT_BASE)
    }

    /// A channel with its command block at `port_base` and an empty disk.
    pub fn with_port_base(port_base: u16) -> (ata: Self)
        ensures
            ata@ == AtaState::fresh(port_base, Seq::empty()),
    {
        Ata {
            disk: Disk::new(),
            sector_count: 0,
            lba_low: 0,
            lba_mid: 0,
            lba_high: 0,
            drive_head: 0,
            error: 0,
            status: STATUS_DRDY,
            buf: Vec::new(),
            pos: 0,
            writing: false,
            write_lba: 0,
            port_base,
        }
    }

    /// Puts every register back to its reset value; the disk stays.
    pub fn reset(&mut self)
        ensures
            final(self)@ == AtaState::fresh(old(self)@.port_base, old(self)@.disk),
    {
        self.sector_count = 0;
        self.lba_low = 0;
        self.lba_mid = 0;
        self.lba_high = 0;
        self.drive_head = 0;
        self.error = 0;
        self.status = STATUS_DRDY;
        self.buf.clear();
        self.pos = 0;
        self.writing = false;
        self.write_lba = 0;
    }

    fn lba28(&self) -> (lba: u32)
        ensures
            lba == self@.lba28(),
    {
        self.lba_low as u32 + 0x100 * (self.lba_mid as u32) + 0x1_0000 * (self.lba_high as u32)
            + 0x100_0000 * ((self.drive_head % 16) as u32)
    }

    fn drq(&self) -> (drq: bool)
        ensures
            drq == self@.drq(),
    {
        self.status & STATUS_DRQ != 0
    }

    fn execute(&mut self, cmd: u8)
        ensures
            final(self)@ == old(self)@.after_command(cmd),
    {
        let count: usize = if self.sector_count == 0 {
            256
        } else {
            self.sector_count as usize
        };
        if cmd == CMD_IDENTIFY {
            self.buf = build_identify_block(&self.disk);
            self.writing = false;
            self.status = STATUS_TRANSFER;
        } else if cmd == CMD_READ_SECTORS {
            self.buf = self.disk.read_from(self.lba28(), SECTOR_SIZE * count);
            self.writing = false;
            self.status = STATUS_TRANSFER;
        } else if cmd == CMD_WRITE_SECTORS {
            self.buf = zeros(SECTOR_SIZE * count);
            self.writing = true;
            self.write_lba = self.lba28();
            self.status = STATUS_TRANSFER;
        } else {
            self.buf.clear();
            self.writing = false;
            self.status = STATUS_DRDY;
        }
        self.pos = 0;
        self.error = 0;
    }

    fn pop_buf_byte(&mut self) -> (b: u8)
        ensures
            b == old(self)@.next_byte(),
            final(self)@ == old(self)@.after_take(),
    {
        if self.pos >= self.buf.len() {
            self.status = self.status & !STATUS_DRQ;
            return 0xFF;
        }
        let b: u8 = self.buf[self.pos];
        self.pos = self.pos + 1;
        if self.pos >= self.buf.len() {
            self.status = self.status & !STATUS_DRQ;
        }
        b
    }

    fn push_buf_byte(&mut self, b: u8)
        ensures
            final(self)@ == old(self)@.after_supply(b),
    {
        if self.pos >= self.buf.len() {
            return ;
        }
        let at: usize = self.pos;
        self.buf[at] = b;
        self.pos = at + 1;
        if self.pos >= self.buf.len() {
            self.disk.write_sectors(self.write_lba, self.buf.as_slice());
            self.status = self.status & !STATUS_DRQ;
            self.writing = false;
        }
    }

    /// The port of the control block, which lies apart from the command block.
    pub fn control_port(&self) -> (port: u16)
        requires
            self@.port_base <= 0xFDF9,
        ensures
            port == self@.port_base + 0x206,
    {
        self.port_base + 0x206
    }

    /// Reads the status through the control block, which disturbs nothing.
    pub fn read_alt_status(&self) -> (status: u8)
        ensures
            status == self@.status,
    {
        self.status
    }

    /// Takes a device-control write; there is nothing in it to act on.
    pub fn write_device_control(&mut self, value: u8)
        ensures
            *final(self) == *old(self),
    {
    }

    /// Appends the registers and the transfer under way to `out`; the disk is
    /// not part of it.
    pub fn snapshot_into(&self, out: &mut Vec<u8>)
        ensures
            final(out)@ == old(out)@ + self@.snapshot_bytes(),
    {
        out.push(self.sector_count);
        out.push(self.lba_low);
        out.push(self.lba_mid);
        out.push(self.lba_high);
        out.push(self.drive_head);
        out.push(self.error);
        out.push(self.status);
        out.push(
            if self.writing {
                1
            } else {
                0
            },
        );
        put_le_u32(out, self.write_lba);
        put_le_u32(out, (self.pos as u64 % 0x1_0000_0000) as u32);
        put_le_u32(out, (self.buf.len() as u64 % 0x1_0000_0000) as u32);
        put_bytes(out, self.buf.as_slice());
    }

    /// Takes back what `snapshot_into` wrote and returns its length. On an error
    /// nothing changes.
    pub fn restore(&mut self, bytes: &[u8]) -> (r: Result<usize, &'static str>)
        ensures
            (final(self)@, r) == old(self)@.restore_outcome(bytes@),
    {
        let len: usize = bytes.len();
        if len < 20 {
            return Err("ata: truncated");
        }
        let buf_len: usize = get_le_u32(bytes, 16) as usize;
        if len - 20 < buf_len {
            return Err("ata: truncated buffer");
        }
        self.sector_count = bytes[0];
        self.lba_low = bytes[1];
        self.lba_mid = bytes[2];
        self.lba_high = bytes[3];
        self.drive_head = bytes[4];
        self.error = bytes[5];
        self.status = bytes[6];
        self.writing = bytes[7] != 0;
        self.write_lba = get_le_u32(bytes, 8);
        self.pos = get_le_u32(bytes, 12) as usize;
        self.buf = copy_range(bytes, 20, 20 + buf_len);
        Ok(20 + buf_len)
    }
}

impl Default for Ata {
    fn default() -> (ata: Self)
        ensures
            ata@ == AtaState::fresh(PRIMARY_PORT_BASE, Seq::empty()),
    {
        Ata::new()
    }
}

impl IoDevice for Ata {
    open spec fn fits_port_space(&self) -> bool {
        self@.port_base <= 0xFFF8
    }

    open spec fn accepts(&self, port: u16) -> bool {
        true
    }

    fn port_range(&self) -> (range: (u16, u16))
        ensures
            range == (self@.port_base, (self@.port_base + 7) as u16),
    {
        (self.port_base, self.port_base + 7)
    }

    fn read(&mut self, port: u16) -> (value: u8)
        ensures
            value == old(self)@.read_value(port),
            final(self)@ == old(self)@.after_read(port),
    {
        let at: u16 = port.wrapping_sub(self.port_base);
        assert(at == self@.offset(port));
        if at <= 1 && self.drq() && !self.writing {
            return self.pop_buf_byte();
        }
        match at {
            1 => self.error,
            2 => self.sector_count,
            3 => self.lba_low,
            4 => self.lba_mid,
            5 => self.lba_high,
            6 => self.drive_head,
            7 => self.status,
            _ => 0xFF,
        }
    }

    fn write(&mut self, port: u16, value: u8)
        ensures
            final(self)@ == old(self)@.after_write(port, value),
    {
        let at: u16 = port.wrapping_sub(self.port_base);
        assert(at == self@.offset(port));
        match at {
            0 | 1 => {
                if self.writing && self.drq() {
                    self.push_buf_byte(value);
                }
            },
            2 => self.sector_count = value,
            3 => self.lba_low = value,
            4 => self.lba_mid = value,
            5 => self.lba_high = value,
            6 => self.drive_head = value,
            7 => {
                self.status = STATUS_BSY;
                self.execute(value);
            },
            _ => {},
        }
    }
}

fn build_identify_block(disk: &Disk) -> (block: Vec<u8>)
    ensures
        block@ == identify_block(disk@.len() as int),
{
    let sectors: u64 = (disk.size() / SECTOR_SIZE) as u64;
    let mut block: Vec<u8> = Vec::new();
    let mut w: usize = 0;
    while w < 256
        invariant
            w <= 256,
            sectors == disk@.len() as int / 512,
            block@ == identify_block(disk@.len() as int).take(2 * w),
        decreases 256 - w,
    {
        let word: u64 = if w == 0 {
            0x0040
        } else if w == 49 {
            0x0200
        } else if w == 60 {
            sectors % 0x1_0000
        } else if w == 61 {
            sectors / 0x1_0000 % 0x1_0000
        } else if w == 80 {
            0x0040
        } else {
            0
        };
        let ghost full = identify_block(disk@.len() as int);
        assert(word == identify_word(disk@.len() as int / 512, w as int));
        block.push((word % 0x100) as u8);
        block.push((word / 0x100) as u8);
        assert(2 * w / 2 == w && (2 * w + 1) / 2 == w && (2 * w) % 2 == 0 && (2 * w + 1) % 2 == 1);
        assert(full[2 * w] == word % 0x100);
        assert(full[2 * w + 1] == word / 0x100);
        w = w + 1;
        assert(full.take(2 * w) == full.take(2 * (w - 1)).push(full[2 * w - 2]).push(
            full[2 * w - 1],
        ));
    }
    assert(identify_block(disk@.len() as int).take(512) == identify_block(disk@.len() as int));
    block
}

/// The transfer of a channel is within bounds.
pub open spec fn transfer_in_bounds(ata: AtaState) -> bool {
    0 <= ata.pos <= ata.buf.len() && ata.buf.len() <= 256 * 512
}

/// The channel after the guest has read the data port once for every byte of
/// `n`.
pub open spec fn after_takes(ata: AtaState, n: nat) -> AtaState
    decreases n,
{
    if n == 0 {
        ata
    } else {
        after_takes(ata, (n - 1) as nat).after_read(ata.port_base)
    }
}

/// The channel after the guest has written `data` to the data port, byte by
/// byte.
pub open spec fn after_supplies(ata: AtaState, data: Seq<u8>) -> AtaState
    decreases data.len(),
{
    if data.len() == 0 {
        ata
    } else {
        after_supplies(ata, data.drop_last()).after_write(ata.port_base, data.last())
    }
}

/// Every access keeps the transfer within bounds.
pub proof fn law_transfer_stays_in_bounds(ata: AtaState, port: u16, value: u8)
    requires
        transfer_in_bounds(ata),
    ensures
        transfer_in_bounds(ata.after_read(port)),
        transfer_in_bounds(ata.after_write(port, value)),
{
}

/// After READ SECTORS the data port delivers the addressed sectors byte by
/// byte, zeros past the end of the image, and the request for data ends with
/// the last byte and not before.
pub proof fn law_read_delivers_sectors(ata: AtaState, n: nat)
    requires
        n <= sectors_of(ata.sector_count) * 512,
    ensures
        ({
            let started = ata.after_command(CMD_READ_SECTORS);
            let later = after_takes(started, n);
            let all = sectors_of(ata.sector_count) * 512;
            &&& later.drq() <==> n < all
            &&& later.pos == n
            &&& later.disk == ata.disk
            &&& n < all ==> later.read_value(ata.port_base) == crate::disk::image_byte(
                ata.disk,
                ata.lba28() * 512 + n,
            )
        }),
    decreases n,
{
    lemma_transfer_bit();
    let started = ata.after_command(CMD_READ_SECTORS);
    if n == 0 {
        assert(started.drq());
    } else {
        let before = after_takes(started, (n - 1) as nat);
        law_read_delivers_sectors(ata, (n - 1) as nat);
        lemma_takes_keep(started, (n - 1) as nat);
        lemma_clearing_drq(before.status);
    }
    lemma_takes_keep(started, n);
}

proof fn lemma_takes_keep(ata: AtaState, n: nat)
    ensures
        after_takes(ata, n).port_base == ata.port_base,
        after_takes(ata, n).buf == ata.buf,
        after_takes(ata, n).writing == ata.writing,
        after_takes(ata, n).disk == ata.disk,
    decreases n,
{
    if n > 0 {
        lemma_takes_keep(ata, (n - 1) as nat);
    }
}

proof fn lemma_transfer_bit()
    by (bit_vector)
    ensures
        0x48u8 & 0x08u8 != 0,
{
}

proof fn lemma_clearing_drq(status: u8)
    by (bit_vector)
    ensures
        (status & !0x08u8) & 0x08u8 == 0,
{
}

/// After WRITE SECTORS the disk changes only with the last byte supplied; it
/// then holds the data at the address that the registers had with the command,
/// and a READ SECTORS from there offers it again.
pub proof fn law_write_commits_data(ata: AtaState, data: Seq<u8>)
    requires
        data.len() <= sectors_of(ata.sector_count) * 512,
    ensures
        ({
            let started = ata.after_command(CMD_WRITE_SECTORS);
            let later = after_supplies(started, data);
            let all = sectors_of(ata.sector_count) * 512;
            &&& data.len() < all ==> later.disk == ata.disk && later.writing && later.drq()
            &&& data.len() == all ==> {
                &&& later.disk == image_written(ata.disk, ata.lba28() * 512, data)
                &&& !later.writing
                &&& !later.drq()
                &&& ata.lba28() * 512 + all <= usize::MAX ==> later.after_command(
                    CMD_READ_SECTORS,
                ).buf == data
            }
        }),
{
    let started = ata.after_command(CMD_WRITE_SECTORS);
    lemma_supplies(ata, data);
    let later = after_supplies(started, data);
    let all = sectors_of(ata.sector_count) * 512;
    if data.len() == all && ata.lba28() * 512 + all <= usize::MAX {
        crate::disk::law_read_back_written(ata.disk, ata.lba28() * 512, data, 0);
    }
}

proof fn lemma_supplies(ata: AtaState, data: Seq<u8>)
    requires
        data.len() <= sectors_of(ata.sector_count) * 512,
    ensures
        ({
            let started = ata.after_command(CMD_WRITE_SECTORS);
            let later = after_supplies(started, data);
            let all = sectors_of(ata.sector_count) * 512;
            &&& later.pos == data.len()
            &&& later.buf == data + Seq::new((all - data.len()) as nat, |i: int| 0u8)
            &&& later.port_base == ata.port_base
            &&& later.write_lba == ata.lba28()
            &&& later.lba28() == ata.lba28()
            &&& later.sector_count == ata.sector_count
            &&& data.len() < all ==> later.disk == ata.disk && later.writing && later.drq()
            &&& data.len() == all ==> later.disk == image_written(
                ata.disk,
                ata.lba28() * 512,
                data,
            ) && !later.writing && !later.drq()
        }),
    decreases data.len(),
{
    lemma_transfer_bit();
    let started = ata.after_command(CMD_WRITE_SECTORS);
    let all = sectors_of(ata.sector_count) * 512;
    if data.len() == 0 {
        assert(started.buf == data + Seq::new((all - data.len()) as nat, |i: int| 0u8));
    } else {
        let shorter = data.drop_last();
        lemma_supplies(ata, shorter);
        let before = after_supplies(started, shorter);
        lemma_clearing_drq(before.status);
        assert(before.buf.update(before.pos, data.last()) == data + Seq::new(
            (all - data.len()) as nat,
            |i: int| 0u8,
        ));
        if data.len() == all {
            assert(before.buf.update(before.pos, data.last()) == data);
        }
    }
}

/// The offset and the length of the transfer fit their 32-bit fields of a snapshot.
pub open spec fn transfer_fits(ata: AtaState) -> bool {
    0 <= ata.pos < 0x1_0000_0000 && ata.buf.len() < 0x1_0000_0000
}

/// Whatever the guest does, and whatever is restored, the transfer fits a snapshot.
pub proof fn law_transfer_fits_a_snapshot(ata: AtaState, port: u16, value: u8, bytes: Seq<u8>)
    requires
        transfer_fits(ata),
    ensures
        transfer_fits(ata.after_read(port)),
        transfer_fits(ata.after_write(port, value)),
        transfer_fits(ata.restore_outcome(bytes).0),
{
}

/// A restored channel has the captured registers and the captured transfer; its
/// disk and its port are its own.
pub proof fn law_snapshot_round_trip(captured: AtaState, target: AtaState, tail: Seq<u8>)
    requires
        transfer_fits(captured),
    ensures
        target.restore_outcome(captured.snapshot_bytes() + tail) == (
            AtaState { disk: target.disk, port_base: target.port_base, ..captured },
            Ok::<usize, &'static str>(captured.snapshot_bytes().len() as usize),
        ),
{
    lemma_snapshot_layout(captured, tail);
}

proof fn lemma_snapshot_layout(captured: AtaState, tail: Seq<u8>)
    requires
        transfer_fits(captured),
    ensures
        ({
            let s = captured.snapshot_bytes() + tail;
            let n = captured.buf.len() as int;
            &&& captured.snapshot_bytes().len() == 20 + n
            &&& s.len() == 20 + n + tail.len()
            &&& s[0] == captured.sector_count
            &&& s[1] == captured.lba_low
            &&& s[2] == captured.lba_mid
            &&& s[3] == captured.lba_high
            &&& s[4] == captured.drive_head
            &&& s[5] == captured.error
            &&& s[6] == captured.status
            &&& (s[7] != 0) == captured.writing
            &&& le_u32(s, 8) == captured.write_lba
            &&& le_u32(s, 12) == captured.pos
            &&& le_u32(s, 16) == n
            &&& s.subrange(20, 20 + n) == captured.buf
        }),
{
    let s = captured.snapshot_bytes() + tail;
    assert(s.subrange(8, 12) == le32_bytes(captured.write_lba));
    assert(s.subrange(12, 16) == le32_bytes(captured.pos as u32));
    assert(s.subrange(16, 20) == le32_bytes(captured.buf.len() as u32));
    lemma_le32_at(s, 8, captured.write_lba);
    lemma_le32_at(s, 12, captured.pos as u32);
    lemma_le32_at(s, 16, captured.buf.len() as u32);
    assert(s.subrange(20, 20 + captured.buf.len() as int) == captured.buf);
}

/// The channel after the guest has chosen `count` sectors from sector `l` on: the four
/// parts of the sector number, low one first, go to the four registers behind the
/// sector count, the last of which holds `select` in its upper half.
pub open spec fn addressed(ata: AtaState, count: u8, l: int, select: int) -> AtaState {
    let base = ata.port_base;
    ata.after_write((base + 2) as u16, count).after_write(
        (base + 3) as u16,
        (l % 0x100) as u8,
    ).after_write((base + 4) as u16, (l / 0x100 % 0x100) as u8).after_write(
        (base + 5) as u16,
        (l / 0x1_0000 % 0x100) as u8,
    ).after_write((base + 6) as u16, (16 * select + l / 0x100_0000) as u8)
}

proof fn lemma_addressed(ata: AtaState, count: u8, l: int, select: int)
    requires
        ata.port_base <= 0xFFF8,
        0 <= l < 0x1000_0000,
        0 <= select < 16,
    ensures
        addressed(ata, count, l, select).lba28() == l,
        addressed(ata, count, l, select) == (AtaState {
            sector_count: count,
            lba_low: (l % 0x100) as u8,
            lba_mid: (l / 0x100 % 0x100) as u8,
            lba_high: (l / 0x1_0000 % 0x100) as u8,
            drive_head: (16 * select + l / 0x100_0000) as u8,
            ..ata
        }),
{
    let top = l / 0x100_0000;
    assert(0 <= top < 16);
    assert((16 * select + top) % 16 == top);
    assert(l == l % 0x100 + 0x100 * (l / 0x100 % 0x100) + 0x1_0000 * (l / 0x1_0000 % 0x100)
        + 0x100_0000 * top);
}

/// READ SECTORS offers, byte by byte, the bytes of the image from the addressed sector
/// on, zeros past its end: for every sector number, and for as many sectors as the count
/// register says (zero stands for 256). The status shows data until the last byte is
/// taken, and the disk stays as it is.
pub proof fn law_addressed_sectors_are_read(
    ata: AtaState,
    count: u8,
    l: int,
    select: int,
    n: nat,
)
    requires
        ata.port_base <= 0xFFF8,
        0 <= l < 0x1000_0000,
        0 <= select < 16,
        n <= (if count == 0 {
            256
        } else {
            count as int
        }) * 512,
    ensures
        ({
            let base = ata.port_base;
            let all = (if count == 0 {
                256
            } else {
                count as int
            }) * 512;
            let later = after_takes(
                addressed(ata, count, l, select).after_write((base + 7) as u16, 0x20),
                n,
            );
            &&& n < all ==> later.read_value(base) == (if l * 512 + n < ata.disk.len() {
                ata.disk[l * 512 + n]
            } else {
                0
            })
            &&& n < all ==> later.read_value((base + 1) as u16) == later.read_value(base)
            &&& n < all ==> later.read_value((base + 7) as u16) == 0x48
            &&& n == all ==> later.read_value((base + 7) as u16) == 0x40
            &&& later.disk == ata.disk
        }),
{
    let base = ata.port_base;
    let a = addressed(ata, count, l, select);
    lemma_addressed(ata, count, l, select);
    law_read_delivers_sectors(a, n);
    let started = a.after_command(CMD_READ_SECTORS);
    lemma_takes_keep(started, n);
    lemma_takes_status(started, n);
}

proof fn lemma_takes_status(ata: AtaState, n: nat)
    requires
        ata.status == 0x48,
        !ata.writing,
        ata.pos == 0,
        n <= ata.buf.len(),
        ata.buf.len() > 0,
    ensures
        after_takes(ata, n).pos == n,
        after_takes(ata, n).status == (if n < ata.buf.len() {
            0x48u8
        } else {
            0x40u8
        }),
    decreases n,
{
    lemma_transfer_bit();
    lemma_transfer_end();
    if n > 0 {
        lemma_takes_status(ata, (n - 1) as nat);
        lemma_takes_keep(ata, (n - 1) as nat);
    }
}

proof fn lemma_transfer_end()
    by (bit_vector)
    ensures
        0x48u8 & !0x08u8 == 0x40,
{
}

/// WRITE SECTORS stores, with the last of the bytes supplied, all of them at the
/// addressed sector: every byte of the image that lies there is the one supplied, every
/// other one is as before, and the image grows only as far as it has to.
pub proof fn law_addressed_sectors_are_written(
    ata: AtaState,
    count: u8,
    l: int,
    select: int,
    data: Seq<u8>,
    i: int,
)
    requires
        ata.port_base <= 0xFFF8,
        0 <= l < 0x1000_0000,
        0 <= select < 16,
        data.len() == (if count == 0 {
            256
        } else {
            count as int
        }) * 512,
        l * 512 + data.len() <= usize::MAX,
        i >= 0,
    ensures
        ({
            let base = ata.port_base;
            let started = addressed(ata, count, l, select).after_write((base + 7) as u16, 0x30);
            let later = after_supplies(started, data);
            let end = l * 512 + data.len();
            &&& after_supplies(started, data.drop_last()).disk == ata.disk
            &&& later.disk.len() == (if end > ata.disk.len() {
                end
            } else {
                ata.disk.len() as int
            })
            &&& l * 512 <= i < end ==> later.disk[i] == data[i - l * 512]
            &&& i < ata.disk.len() && !(l * 512 <= i < end) ==> later.disk[i] == ata.disk[i]
            &&& ata.disk.len() <= i < l * 512 ==> later.disk[i] == 0
            &&& started.read_value((base + 7) as u16) == 0x48
            &&& later.read_value((base + 7) as u16) == 0x40
        }),
{
    let a = addressed(ata, count, l, select);
    lemma_addressed(ata, count, l, select);
    law_write_commits_data(a, data);
    law_write_commits_data(a, data.drop_last());
    lemma_supplies(a, data);
    lemma_supplies_status(a, data);
}

proof fn lemma_supplies_status(ata: AtaState, data: Seq<u8>)
    requires
        data.len() <= sectors_of(ata.sector_count) * 512,
    ensures
        ({
            let later = after_supplies(ata.after_command(CMD_WRITE_SECTORS), data);
            later.status == (if data.len() < sectors_of(ata.sector_count) * 512 {
                0x48u8
            } else {
                0x40u8
            })
        }),
    decreases data.len(),
{
    lemma_transfer_bit();
    lemma_transfer_end();
    if data.len() > 0 {
        lemma_supplies_status(ata, data.drop_last());
        lemma_supplies(ata, data.drop_last());
    }
}

/// IDENTIFY DEVICE offers 512 bytes that say how many sectors the disk has, in words 60
/// and 61, that it takes sector numbers, in word 49, and which standard it follows, in
/// word 80; word 0 tells that it is a fixed disk, and every other byte is zero.
pub proof fn law_identification_tells_the_size(ata: AtaState, i: int)
    requires
        ata.port_base <= 0xFFF8,
        0 <= i < 512,
    ensures
        ({
            let told = ata.after_write((ata.port_base + 7) as u16, 0xEC);
            let b = told.buf;
            &&& b.len() == 512 && told.pos == 0 && !told.writing
            &&& told.read_value((ata.port_base + 7) as u16) == 0x48
            &&& b[120] + 0x100 * b[121] + 0x1_0000 * b[122] + 0x100_0000 * b[123] == ata.disk.len()
                as int / 512 % 0x1_0000_0000
            &&& b[0] == 0x40 && b[1] == 0
            &&& b[98] == 0 && b[99] == 2
            &&& b[160] == 0x40 && b[161] == 0
            &&& i != 0 && i != 99 && !(120 <= i <= 123) && i != 160 ==> b[i] == 0
            &&& told.disk == ata.disk
        }),
{
    let s = ata.disk.len() as int / 512;
    let b = identify_block(ata.disk.len() as int);
    assert(120int / 2 == 60 && 121int / 2 == 60 && 122int / 2 == 61 && 123int / 2 == 61);
    assert(b[120] == s % 0x1_0000 % 0x100 && b[121] == s % 0x1_0000 / 0x100);
    assert(b[122] == s / 0x1_0000 % 0x1_0000 % 0x100 && b[123] == s / 0x1_0000 % 0x1_0000 / 0x100);
    assert(s % 0x1_0000_0000 == s % 0x1_0000 + 0x1_0000 * (s / 0x1_0000 % 0x1_0000));
    assert(s % 0x1_0000 == s % 0x1_0000 % 0x100 + 0x100 * (s % 0x1_0000 / 0x100));
    let h = s / 0x1_0000 % 0x1_0000;
    assert(h == h % 0x100 + 0x100 * (h / 0x100));
    assert(0int / 2 == 0 && 1int / 2 == 0 && 98int / 2 == 49 && 99int / 2 == 49 && 160int / 2 == 80
        && 161int / 2 == 80);
    if i != 0 && i != 99 && !(120 <= i <= 123) && i != 160 {
        assert(i / 2 == 0 ==> i == 1);
        assert(i / 2 == 49 ==> i == 98);
        assert(i / 2 == 80 ==> i == 161);
        assert(i / 2 != 60 && i / 2 != 61);
    }
}

/// The registers of the command block read back what was written to them, the error
/// register is clear after every command, and a command that is not served completes at
/// once without data.
pub proof fn law_command_block_reads_back(ata: AtaState, k: int, value: u8, cmd: u8)
    requires
        ata.port_base <= 0xFFF8,
        2 <= k <= 6,
    ensures
        ({
            let base = ata.port_base;
            let done = ata.after_write((base + 7) as u16, cmd);
            &&& ata.after_write((base + k) as u16, value).read_value((base + k) as u16) == value
            &&& forall|j: int|
                2 <= j <= 7 && j != k ==> #[trigger] ata.after_write(
                    (base + k) as u16,
                    value,
                ).read_value((base + j) as u16) == ata.read_value((base + j) as u16)
            &&& ata.after_write((base + k) as u16, value).disk == ata.disk
            &&& done.error == 0 && done.pos == 0 && done.disk == ata.disk
            &&& cmd != 0x20 && cmd != 0x30 && cmd != 0xEC ==> done.status == 0x40 && done.buf.len()
                == 0 && !done.writing
        }),
{
}

/// Registers are counted from the base port on, around the end of the port space.
pub proof fn law_register_offsets(ata: AtaState, port: u16)
    ensures
        0 <= ata.offset(port) < 0x1_0000,
        (ata.port_base + ata.offset(port)) % 0x1_0000 == port,
{
}

/// Which snapshots are refused: those that end before the buffer that they announce. Nothing
/// is loaded of them.
pub proof fn law_cut_snapshots(ata: AtaState, bytes: Seq<u8>)
    ensures
        bytes.len() <= 19 ==> ata.restore_outcome(bytes) == (
            ata,
            Err::<usize, &'static str>("ata: truncated"),
        ),
        bytes.len() >= 20 ==> {
            let n = bytes[16] + 256 * (bytes[17] + 256 * (bytes[18] + 256 * bytes[19]));
            bytes.len() < 20 + n ==> ata.restore_outcome(bytes) == (
                ata,
                Err::<usize, &'static str>("ata: truncated buffer"),
            )
        },
{
}

/// A new channel is ready, 0x40, with nothing addressed and no transfer under way.
pub proof fn law_new_channel(base: u16, disk: Seq<u8>)
    ensures
        ({
            let a = AtaState::fresh(base, disk);
            &&& a.port_base == base && a.disk == disk
            &&& a.status == 0x40 && a.error == 0
            &&& a.sector_count == 0 && a.lba_low == 0 && a.lba_mid == 0 && a.lba_high == 0
            &&& a.drive_head == 0 && a.write_lba == 0
            &&& a.buf.len() == 0 && a.pos == 0 && !a.writing
        }),
{
}

} // verus!
