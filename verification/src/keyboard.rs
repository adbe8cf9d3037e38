//! 8042 controller with a keyboard on its first port and a mouse on its second.
//!
//! The data port reads from the controller's output buffer (replies to commands
//! and mouse packets, each marked with its source) and, when that is empty, from
//! the queue of scan codes that the host has pushed. A write to it is the
//! parameter of a pending controller command, or else a command to the keyboard.
//! The status port reads the status byte and takes controller commands.
//!
//! The keyboard interrupt (line 1) is high while a keyboard byte waits at the
//! head, the keyboard port is enabled and the configuration byte allows it; the
//! mouse interrupt (line 12) likewise for a mouse byte.

use crate::bytes::{get_le_u32, le32_bytes, le_u32, lemma_le32_at, put_le_u32};
use crate::iobus::IoDevice;
use std::collections::VecDeque;
use vstd::prelude::*;

verus! {

/// What the next write to the data port means.
#[derive(Clone, Copy, Debug, PartialEq, Eq, Structural)]
pub enum CtrlPending {
    /// A command to the keyboard.
    Idle,
    /// The new configuration byte.
    WriteCcb,
    /// A command to the mouse.
    WriteAux,
    /// A byte to be echoed as keyboard data.
    WriteKbdOut,
    /// A byte to be echoed as mouse data.
    WriteAuxOut,
}

/// The controller and its two devices.
pub struct Keyboard {
    pub data_port: u16,
    pub status_port: u16,
    /// Scan codes pushed by the host.
    pub queue: VecDeque<u8>,
    /// Replies and mouse packets; the flag marks mouse data.
    pub out: VecDeque<(u8, bool)>,
    /// Configuration byte.
    pub ccb: u8,
    pub kbd_enabled: bool,
    pub aux_enabled: bool,
    pub pending: CtrlPending,
    /// Keyboard command that waits for its parameter.
    pub kbd_arg: Option<u8>,
    /// Mouse command that waits for its parameter.
    pub mouse_arg: Option<u8>,
    /// Whether the mouse sends packets.
    pub mouse_reporting: bool,
}

/// What the controller holds.
#[verifier::ext_equal]
pub struct KeyboardState {
    pub data_port: u16,
    pub status_port: u16,
    pub queue: Seq<u8>,
    pub out: Seq<(u8, bool)>,
    pub ccb: u8,
    pub kbd_enabled: bool,
    pub aux_enabled: bool,
    pub pending: CtrlPending,
    pub kbd_arg: Option<u8>,
    pub mouse_arg: Option<u8>,
    pub mouse_reporting: bool,
}

impl View for Keyboard {
    type V = KeyboardState;

    open spec fn view(&self) -> KeyboardState {
        KeyboardState {
            data_port: self.data_port,
            status_port: self.status_port,
            queue: self.queue@,
            out: self.out@,
            ccb: self.ccb,
            kbd_enabled: self.kbd_enabled,
            aux_enabled: self.aux_enabled,
            pending: self.pending,
            kbd_arg: self.kbd_arg,
            mouse_arg: self.mouse_arg,
            mouse_reporting: self.mouse_reporting,
        }
    }
}

/// Marks each byte with its source.
pub open spec fn tagged(bytes: Seq<u8>, is_aux: bool) -> Seq<(u8, bool)> {
    Seq::new(bytes.len(), |i: int| (bytes[i], is_aux))
}

/// What the keyboard answers to `cmd`, or to a parameter of command `arg`.
pub open spec fn keyboard_reply(arg: Option<u8>, cmd: u8) -> Seq<u8> {
    match arg {
        Some(prev) => if prev == 0xF0 && cmd == 0x00 {
            seq![Keyboard::ACK, 0x02]
        } else {
            seq![Keyboard::ACK]
        },
        None => if cmd == 0xFF {
            seq![Keyboard::ACK, 0xAA]
        } else if cmd == 0xF2 {
            seq![Keyboard::ACK, 0xAB, 0x83]
        } else if cmd == 0xEE {
            seq![0xEE]
        } else {
            seq![Keyboard::ACK]
        },
    }
}

/// What the mouse answers to `cmd`, or to a parameter of command `arg`.
pub open spec fn mouse_reply(arg: Option<u8>, cmd: u8) -> Seq<u8> {
    if arg is Some {
        seq![Keyboard::ACK]
    } else if cmd == 0xFF {
        seq![Keyboard::ACK, 0xAA, 0x00]
    } else if cmd == 0xF2 {
        seq![Keyboard::ACK, 0x00]
    } else if cmd == 0xE9 {
        seq![Keyboard::ACK, 0x00, 0x02, 0x64]
    } else if cmd == 0xEB {
        seq![Keyboard::ACK, 0x08, 0x00, 0x00]
    } else {
        seq![Keyboard::ACK]
    }
}

/// What the controller answers to `cmd`.
pub open spec fn controller_reply(ccb: u8, cmd: u8) -> Seq<u8> {
    if cmd == 0x20 {
        seq![ccb]
    } else if cmd == 0xAA {
        seq![0x55]
    } else if cmd == 0xAB || cmd == 0xA9 {
        seq![0x00]
    } else if cmd == 0xC0 {
        seq![0x80]
    } else if cmd == 0xD0 {
        seq![0x01]
    } else {
        Seq::empty()
    }
}

/// A movement cut to what nine signed bits can say.
pub open spec fn clamp_delta(d: i16) -> int {
    if d < -256 {
        -256
    } else if d > 255 {
        255
    } else {
        d as int
    }
}

/// The three bytes of a mouse packet: buttons and signs, then the low eight
/// bits of each movement.
pub open spec fn mouse_packet(dx: i16, dy: i16, left: bool, right: bool, middle: bool) -> Seq<u8> {
    let cx = clamp_delta(dx);
    let cy = clamp_delta(dy);
    let head = 8 + (if left { 1int } else { 0 }) + (if right { 2int } else { 0 }) + (if middle {
        4int
    } else {
        0
    }) + (if cx < 0 { 16int } else { 0 }) + (if cy < 0 { 32int } else { 0 });
    seq![head as u8, (cx % 256) as u8, (cy % 256) as u8]
}

impl KeyboardState {
    /// The controller at power-on, at these ports, with `queue` waiting.
    pub open spec fn power_on(data_port: u16, status_port: u16, queue: Seq<u8>) -> KeyboardState {
        KeyboardState {
            data_port,
            status_port,
            queue,
            out: Seq::empty(),
            ccb: 0x25,
            kbd_enabled: true,
            aux_enabled: false,
            pending: CtrlPending::Idle,
            kbd_arg: None,
            mouse_arg: None,
            mouse_reporting: false,
        }
    }

    /// The controller with `bytes` put into its output buffer.
    pub open spec fn replied(self, bytes: Seq<u8>, is_aux: bool) -> KeyboardState {
        KeyboardState { out: self.out + tagged(bytes, is_aux), ..self }
    }

    /// The byte that waits at the head is keyboard data.
    pub open spec fn head_is_kbd(self) -> bool {
        if self.out.len() > 0 {
            !self.out[0].1
        } else {
            self.queue.len() > 0
        }
    }

    /// The byte that waits at the head is mouse data.
    pub open spec fn head_is_aux(self) -> bool {
        self.out.len() > 0 && self.out[0].1
    }

    /// Level of the keyboard interrupt.
    pub open spec fn kbd_irq(self) -> bool {
        self.head_is_kbd() && self.kbd_enabled && self.ccb & Keyboard::CCB_KBD_INT != 0
    }

    /// Level of the mouse interrupt.
    pub open spec fn aux_irq(self) -> bool {
        self.head_is_aux() && self.aux_enabled && self.ccb & Keyboard::CCB_AUX_INT != 0
    }

    /// The controller after command `cmd`.
    pub open spec fn after_controller_command(self, cmd: u8) -> KeyboardState {
        let s = self.replied(controller_reply(self.ccb, cmd), false);
        if cmd == 0x60 {
            KeyboardState { pending: CtrlPending::WriteCcb, ..s }
        } else if cmd == 0xD4 {
            KeyboardState { pending: CtrlPending::WriteAux, ..s }
        } else if cmd == 0xD2 {
            KeyboardState { pending: CtrlPending::WriteKbdOut, ..s }
        } else if cmd == 0xD3 {
            KeyboardState { pending: CtrlPending::WriteAuxOut, ..s }
        } else if cmd == 0xA8 {
            KeyboardState { aux_enabled: true, ccb: self.ccb & !Keyboard::CCB_AUX_CLK_DIS, ..s }
        } else if cmd == 0xA7 {
            KeyboardState { aux_enabled: false, ccb: self.ccb | Keyboard::CCB_AUX_CLK_DIS, ..s }
        } else if cmd == 0xAE {
            KeyboardState { kbd_enabled: true, ccb: self.ccb & !Keyboard::CCB_KBD_CLK_DIS, ..s }
        } else if cmd == 0xAD {
            KeyboardState { kbd_enabled: false, ccb: self.ccb | Keyboard::CCB_KBD_CLK_DIS, ..s }
        } else {
            s
        }
    }

    /// The controller after `cmd` has been sent to the keyboard.
    pub open spec fn after_keyboard_command(self, cmd: u8) -> KeyboardState {
        KeyboardState {
            kbd_arg: if self.kbd_arg is None && (cmd == 0xED || cmd == 0xF3 || cmd == 0xF0) {
                Some(cmd)
            } else {
                None
            },
            ..self.replied(keyboard_reply(self.kbd_arg, cmd), false)
        }
    }

    /// The controller after `cmd` has been sent to the mouse.
    pub open spec fn after_mouse_command(self, cmd: u8) -> KeyboardState {
        KeyboardState {
            mouse_arg: if self.mouse_arg is None && (cmd == 0xF3 || cmd == 0xE8) {
                Some(cmd)
            } else {
                None
            },
            mouse_reporting: if self.mouse_arg is Some {
                self.mouse_reporting
            } else if cmd == 0xF4 {
                true
            } else if cmd == 0xFF || cmd == 0xF5 {
                false
            } else {
                self.mouse_reporting
            },
            ..self.replied(mouse_reply(self.mouse_arg, cmd), true)
        }
    }

    /// The controller after `value` has been written to the data port.
    pub open spec fn after_data(self, value: u8) -> KeyboardState {
        let idle = KeyboardState { pending: CtrlPending::Idle, ..self };
        match self.pending {
            CtrlPending::WriteCcb => KeyboardState {
                ccb: value,
                kbd_enabled: value & Keyboard::CCB_KBD_CLK_DIS == 0,
                aux_enabled: value & Keyboard::CCB_AUX_CLK_DIS == 0,
                ..idle
            },
            CtrlPending::WriteAux => idle.after_mouse_command(value),
            CtrlPending::WriteKbdOut => idle.replied(seq![value], false),
            CtrlPending::WriteAuxOut => idle.replied(seq![value], true),
            CtrlPending::Idle => self.after_keyboard_command(value),
        }
    }

    /// The status byte: data waiting, system flag, mouse data waiting.
    pub open spec fn status(self) -> u8 {
        ((if self.out.len() > 0 || self.queue.len() > 0 { 0x01int } else { 0 }) + (if self.ccb
            & Keyboard::CCB_SYS_FLAG != 0 {
            0x04int
        } else {
            0
        }) + (if self.head_is_aux() { 0x20int } else { 0 })) as u8
    }

    /// What a read from `port` returns.
    pub open spec fn read_value(self, port: u16) -> u8 {
        if port == self.data_port {
            if self.out.len() > 0 {
                self.out[0].0
            } else if self.queue.len() > 0 {
                self.queue[0]
            } else {
                0
            }
        } else if port == self.status_port {
            self.status()
        } else {
            0
        }
    }

    /// The controller after a read from `port`.
    pub open spec fn after_read(self, port: u16) -> KeyboardState {
        if port == self.data_port {
            if self.out.len() > 0 {
                KeyboardState { out: self.out.drop_first(), ..self }
            } else if self.queue.len() > 0 {
                KeyboardState { queue: self.queue.drop_first(), ..self }
            } else {
                self
            }
        } else {
            self
        }
    }

    /// The controller after a write of `value` to `port`.
    pub open spec fn after_write(self, port: u16, value: u8) -> KeyboardState {
        if port == self.status_port {
            self.after_controller_command(value)
        } else if port == self.data_port {
            self.after_data(value)
        } else {
            self
        }
    }

    /// What a snapshot holds: the scan codes. Commands in flight are not kept.
    pub open spec fn snapshot_bytes(self) -> Seq<u8> {
        le32_bytes((self.queue.len() % 0x1_0000_0000) as u32) + self.queue
    }

    /// The controller and the result that `restore` leaves behind.
    pub open spec fn restore_outcome(self, bytes: Seq<u8>) -> (
        KeyboardState,
        Result<usize, &'static str>,
    ) {
        if bytes.len() < 4 {
            (self, Err("kbd: truncated"))
        } else {
            let n = le_u32(bytes, 0) as int;
            if bytes.len() < 4 + n {
                (self, Err("kbd: truncated queue"))
            } else {
                (
                    KeyboardState::power_on(
                        self.data_port,
                        self.status_port,
                        bytes.subrange(4, 4 + n),
                    ),
                    Ok((4 + n) as usize),
                )
            }
        }
    }
}

impl Keyboard {
    pub const DATA_PORT: u16 = 0x60;

    pub const STATUS_PORT: u16 = 0x64;

    /// Configuration: keyboard interrupt enabled.
    pub const CCB_KBD_INT: u8 = 0x01;

    /// Configuration: mouse interrupt enabled.
    pub const CCB_AUX_INT: u8 = 0x02;

    /// Configuration: system flag, shown in the status byte.
    pub const CCB_SYS_FLAG: u8 = 0x04;

    /// Configuration: keyboard port off.
    pub const CCB_KBD_CLK_DIS: u8 = 0x10;

    /// Configuration: mouse port off.
    pub const CCB_AUX_CLK_DIS: u8 = 0x20;

    /// A device's acknowledgement.
    pub const ACK: u8 = 0xFA;

    pub fn new() -> (kbd: Self)
        ensures
            kbd@ == KeyboardState::power_on(
                Keyboard::DATA_PORT,
                Keyboard::STATUS_PORT,
                Seq::empty(),
            ),
    {
        Keyboard {
            data_port: Self::DATA_PORT,
            status_port: Self::STATUS_PORT,
            queue: VecDeque::new(),
            out: VecDeque::new(),
            ccb: 0x25,
            kbd_enabled: true,
            aux_enabled: false,
            pending: CtrlPending::Idle,
            kbd_arg: None,
            mouse_arg: None,
            mouse_reporting: false,
        }
    }

    /// The host pushes a scan code.
    pub fn push_scancode(&mut self, code: u8)
        ensures
            final(self)@ == (KeyboardState { queue: old(self)@.queue.push(code), ..old(self)@ }),
    {
        self.queue.push_back(code);
    }

    /// The host moves the mouse. Nothing happens while the guest has not asked
    /// for packets.
    pub fn push_mouse_packet(&mut self, dx: i16, dy: i16, left: bool, right: bool, middle: bool)
        ensures
            old(self)@.mouse_reporting ==> final(self)@ == old(self)@.replied(
                mouse_packet(dx, dy, left, right, middle),
                true,
            ),
            !old(self)@.mouse_reporting ==> *final(self) == *old(self),
    {
        if !self.mouse_reporting {
            return ;
        }
        let cx: i16 = cut_delta(dx);
        let cy: i16 = cut_delta(dy);
        let mut head: u8 = 0x08;
        if left {
            head = head + 0x01;
        }
        if right {
            head = head + 0x02;
        }
        if middle {
            head = head + 0x04;
        }
        if cx < 0 {
            head = head + 0x10;
        }
        if cy < 0 {
            head = head + 0x20;
        }
        self.out.push_back((head, true));
        self.out.push_back((low_byte(cx), true));
        self.out.push_back((low_byte(cy), true));
        assert(self@.out == old(self)@.out + tagged(
            mouse_packet(dx, dy, left, right, middle),
            true,
        ));
    }

    /// Takes the next scan code past the ports.
    pub fn pop_scancode(&mut self) -> (code: Option<u8>)
        ensures
            old(self)@.queue.len() == 0 ==> code is None && final(self)@ == old(self)@,
            old(self)@.queue.len() > 0 ==> code == Some(old(self)@.queue[0]) && final(self)@ == (
            KeyboardState { queue: old(self)@.queue.drop_first(), ..old(self)@ }),
    {
        let code: Option<u8> = self.queue.pop_front();
        assert(old(self)@.queue.len() > 0 ==> self@.queue == old(self)@.queue.drop_first());
        code
    }

    /// Looks at the next scan code without taking it.
    pub fn peek_scancode(&self) -> (code: Option<u8>)
        ensures
            code == (if self@.queue.len() > 0 {
                Some(self@.queue[0])
            } else {
                None
            }),
    {
        if self.queue.len() > 0 {
            Some(self.queue[0])
        } else {
            None
        }
    }

    /// How many scan codes wait.
    pub fn rx_pending(&self) -> (n: usize)
        ensures
            n == self@.queue.len(),
    {
        self.queue.len()
    }

    fn head_is_kbd(&self) -> (b: bool)
        ensures
            b == self@.head_is_kbd(),
    {
        if self.out.len() > 0 {
            !self.out[0].1
        } else {
            self.queue.len() > 0
        }
    }

    fn head_is_aux(&self) -> (b: bool)
        ensures
            b == self@.head_is_aux(),
    {
        self.out.len() > 0 && self.out[0].1
    }

    /// Level of the keyboard interrupt, line 1.
    pub fn irq_pending(&self) -> (level: bool)
        ensures
            level == self@.kbd_irq(),
    {
        self.head_is_kbd() && self.kbd_enabled && (self.ccb & Self::CCB_KBD_INT != 0)
    }

    /// Level of the mouse interrupt, line 12.
    pub fn aux_irq_pending(&self) -> (level: bool)
        ensures
            level == self@.aux_irq(),
    {
        self.head_is_aux() && self.aux_enabled && (self.ccb & Self::CCB_AUX_INT != 0)
    }

    /// Appends the scan codes, with their number in front, to `out`.
    pub fn snapshot_into(&self, out: &mut Vec<u8>)
        ensures
            final(out)@ == old(out)@ + self@.snapshot_bytes(),
    {
        let n: usize = self.queue.len();
        put_le_u32(out, (n as u64 % 0x1_0000_0000) as u32);
        let ghost before = out@;
        let mut i: usize = 0;
        while i < n
            invariant
                i <= n,
                n == self.queue@.len(),
                out@ == before + self.queue@.take(i as int),
            decreases n - i,
        {
            out.push(self.queue[i]);
            i = i + 1;
            assert(self.queue@.take(i as int) == self.queue@.take(i - 1).push(self.queue@[i - 1]));
        }
        assert(self.queue@.take(n as int) == self.queue@);
    }

    /// Takes back what `snapshot_into` wrote and returns its length. The rest of
    /// the controller goes back to its power-on state. On an error nothing
    /// changes.
    pub fn restore(&mut self, bytes: &[u8]) -> (r: Result<usize, &'static str>)
        ensures
            (final(self)@, r) == old(self)@.restore_outcome(bytes@),
    {
        let len: usize = bytes.len();
        if len < 4 {
            return Err("kbd: truncated");
        }
        let n: usize = get_le_u32(bytes, 0) as usize;
        if len - 4 < n {
            return Err("kbd: truncated queue");
        }
        let mut queue: VecDeque<u8> = VecDeque::new();
        let mut i: usize = 4;
        while i < 4 + n
            invariant
                4 <= i <= 4 + n <= bytes@.len(),
                bytes@.len() == len,
                queue@ == bytes@.subrange(4, i as int),
            decreases 4 + n - i,
        {
            queue.push_back(bytes[i]);
            i = i + 1;
            assert(bytes@.subrange(4, i as int) == bytes@.subrange(4, i - 1).push(bytes@[i - 1]));
        }
        self.queue = queue;
        self.out = VecDeque::new();
        self.ccb = 0x25;
        self.kbd_enabled = true;
        self.aux_enabled = false;
        self.pending = CtrlPending::Idle;
        self.kbd_arg = None;
        self.mouse_arg = None;
        self.mouse_reporting = false;
        Ok(4 + n)
    }

    fn reply_kbd(&mut self, b: u8)
        ensures
            final(self)@ == old(self)@.replied(seq![b], false),
    {
        self.out.push_back((b, false));
        assert(self@.out == old(self)@.out + tagged(seq![b], false));
    }

    fn reply_aux(&mut self, b: u8)
        ensures
            final(self)@ == old(self)@.replied(seq![b], true),
    {
        self.out.push_back((b, true));
        assert(self@.out == old(self)@.out + tagged(seq![b], true));
    }

    fn controller_command(&mut self, cmd: u8)
        ensures
            final(self)@ == old(self)@.after_controller_command(cmd),
    {
        match cmd {
            0x20 => {
                let ccb: u8 = self.ccb;
                self.reply_kbd(ccb);
            },
            0x60 => self.pending = CtrlPending::WriteCcb,
            0xAA => self.reply_kbd(0x55),
            0xAB => self.reply_kbd(0x00),
            0xA9 => self.reply_kbd(0x00),
            0xA8 => {
                self.aux_enabled = true;
                self.ccb = self.ccb & !Self::CCB_AUX_CLK_DIS;
            },
            0xA7 => {
                self.aux_enabled = false;
                self.ccb = self.ccb | Self::CCB_AUX_CLK_DIS;
            },
            0xAE => {
                self.kbd_enabled = true;
                self.ccb = self.ccb & !Self::CCB_KBD_CLK_DIS;
            },
            0xAD => {
                self.kbd_enabled = false;
                self.ccb = self.ccb | Self::CCB_KBD_CLK_DIS;
            },
            0xD4 => self.pending = CtrlPending::WriteAux,
            0xD2 => self.pending = CtrlPending::WriteKbdOut,
            0xD3 => self.pending = CtrlPending::WriteAuxOut,
            0xC0 => self.reply_kbd(0x80),
            0xD0 => self.reply_kbd(0x01),
            _ => {},
        }
        assert(self@.out == old(self)@.out + tagged(controller_reply(old(self)@.ccb, cmd), false));
    }

    fn keyboard_command(&mut self, cmd: u8)
        ensures
            final(self)@ == old(self)@.after_keyboard_command(cmd),
    {
        let arg: Option<u8> = self.kbd_arg;
        self.kbd_arg = None;
        match arg {
            Some(prev) => {
                self.reply_kbd(Self::ACK);
                if prev == 0xF0 && cmd == 0x00 {
                    self.reply_kbd(0x02);
                }
            },
            None => match cmd {
                0xFF => {
                    self.reply_kbd(Self::ACK);
                    self.reply_kbd(0xAA);
                },
                0xF2 => {
                    self.reply_kbd(Self::ACK);
                    self.reply_kbd(0xAB);
                    self.reply_kbd(0x83);
                },
                0xED | 0xF3 | 0xF0 => {
                    self.kbd_arg = Some(cmd);
                    self.reply_kbd(Self::ACK);
                },
                0xEE => self.reply_kbd(0xEE),
                _ => self.reply_kbd(Self::ACK),
            },
        }
        assert(self@.out == old(self)@.out + tagged(
            keyboard_reply(old(self)@.kbd_arg, cmd),
            false,
        ));
    }

    fn mouse_command(&mut self, cmd: u8)
        ensures
            final(self)@ == old(self)@.after_mouse_command(cmd),
    {
        let arg: Option<u8> = self.mouse_arg;
        self.mouse_arg = None;
        if arg.is_some() {
            self.reply_aux(Self::ACK);
        } else {
            match cmd {
                0xFF => {
                    self.mouse_reporting = false;
                    self.reply_aux(Self::ACK);
                    self.reply_aux(0xAA);
                    self.reply_aux(0x00);
                },
                0xF2 => {
                    self.reply_aux(Self::ACK);
                    self.reply_aux(0x00);
                },
                0xF3 | 0xE8 => {
                    self.mouse_arg = Some(cmd);
                    self.reply_aux(Self::ACK);
                },
                0xE9 => {
                    self.reply_aux(Self::ACK);
                    self.reply_aux(0x00);
                    self.reply_aux(0x02);
                    self.reply_aux(0x64);
                },
                0xEB => {
                    self.reply_aux(Self::ACK);
                    self.reply_aux(0x08);
                    self.reply_aux(0x00);
                    self.reply_aux(0x00);
                },
                0xF4 => {
                    self.mouse_reporting = true;
                    self.reply_aux(Self::ACK);
                },
                0xF5 => {
                    self.mouse_reporting = false;
                    self.reply_aux(Self::ACK);
                },
                _ => self.reply_aux(Self::ACK),
            }
        }
        assert(self@.out == old(self)@.out + tagged(mouse_reply(old(self)@.mouse_arg, cmd), true));
    }
}

fn cut_delta(d: i16) -> (c: i16)
    ensures
        c == clamp_delta(d),
{
    if d < -256 {
        -256
    } else if d > 255 {
        255
    } else {
        d
    }
}

fn low_byte(c: i16) -> (b: u8)
    requires
        -256 <= c <= 255,
    ensures
        b == c as int % 256,
{
    if c < 0 {
        (c + 256) as u8
    } else {
        c as u8
    }
}

impl Default for Keyboard {
    fn default() -> (kbd: Self)
        ensures
            kbd@ == KeyboardState::power_on(
                Keyboard::DATA_PORT,
                Keyboard::STATUS_PORT,
                Seq::empty(),
            ),
    {
        Keyboard::new()
    }
}

impl IoDevice for Keyboard {
    open spec fn fits_port_space(&self) -> bool {
        self@.data_port <= self@.status_port
    }

    open spec fn accepts(&self, port: u16) -> bool {
        true
    }

    fn port_range(&self) -> (range: (u16, u16))
        ensures
            range == (self@.data_port, self@.status_port),
    {
        (self.data_port, self.status_port)
    }

    fn read(&mut self, port: u16) -> (value: u8)
        ensures
            value == old(self)@.read_value(port),
            final(self)@ == old(self)@.after_read(port),
    {
        if port == self.data_port {
            match self.out.pop_front() {
                Some(head) => {
                    assert(self@.out == old(self)@.out.drop_first());
                    head.0
                },
                None => match self.queue.pop_front() {
                    Some(code) => {
                        assert(self@.queue == old(self)@.queue.drop_first());
                        code
                    },
                    None => 0,
                },
            }
        } else if port == self.status_port {
            let mut status: u8 = 0;
            if self.out.len() > 0 || self.queue.len() > 0 {
                status = status + 0x01;
            }
            if self.ccb & Self::CCB_SYS_FLAG != 0 {
                status = status + 0x04;
            }
            if self.head_is_aux() {
                status = status + 0x20;
            }
            status
        } else {
            0
        }
    }

    fn write(&mut self, port: u16, value: u8)
        ensures
            final(self)@ == old(self)@.after_write(port, value),
    {
        if port == self.status_port {
            self.controller_command(value);
        } else if port == self.data_port {
            match self.pending {
                CtrlPending::WriteCcb => {
                    self.ccb = value;
                    self.kbd_enabled = value & Self::CCB_KBD_CLK_DIS == 0;
                    self.aux_enabled = value & Self::CCB_AUX_CLK_DIS == 0;
                    self.pending = CtrlPending::Idle;
                },
                CtrlPending::WriteAux => {
                    self.pending = CtrlPending::Idle;
                    self.mouse_command(value);
                },
                CtrlPending::WriteKbdOut => {
                    self.pending = CtrlPending::Idle;
                    self.reply_kbd(value);
                },
                CtrlPending::WriteAuxOut => {
                    self.pending = CtrlPending::Idle;
                    self.reply_aux(value);
                },
                CtrlPending::Idle => self.keyboard_command(value),
            }
        }
    }
}

/// Replies and packets are read before scan codes, and a read of one source
/// leaves the other alone.
pub proof fn law_replies_come_before_scan_codes(kbd: KeyboardState)
    ensures
        kbd.out.len() > 0 ==> kbd.read_value(kbd.data_port) == kbd.out[0].0 && kbd.after_read(
            kbd.data_port,
        ).queue == kbd.queue,
        kbd.out.len() == 0 && kbd.queue.len() > 0 ==> kbd.read_value(kbd.data_port) == kbd.queue[0]
            && kbd.after_read(kbd.data_port).out == kbd.out,
{
}

/// The two interrupts are never high together, and neither is high unless the
/// status byte says that data waits.
pub proof fn law_interrupts_exclude_each_other(kbd: KeyboardState)
    ensures
        !(kbd.kbd_irq() && kbd.aux_irq()),
        kbd.kbd_irq() || kbd.aux_irq() ==> kbd.status() % 2 == 1,
        kbd.aux_irq() ==> kbd.status() / 0x20 % 2 == 1,
        kbd.kbd_irq() ==> kbd.status() / 0x20 % 2 == 0,
{
}

/// A configuration byte that was written is the one that is read back, after
/// what was waiting in the output buffer.
pub proof fn law_config_byte_reads_back(kbd: KeyboardState, value: u8)
    requires
        kbd.data_port != kbd.status_port,
    ensures
        ({
            let written = kbd.after_write(kbd.status_port, 0x60).after_write(kbd.data_port, value);
            let asked = written.after_write(kbd.status_port, 0x20);
            &&& written.ccb == value
            &&& written.out == kbd.out
            &&& asked.out == kbd.out.push((value, false))
        }),
{
    let written = kbd.after_write(kbd.status_port, 0x60).after_write(kbd.data_port, value);
    let asked = written.after_write(kbd.status_port, 0x20);
    assert(written.out == kbd.out);
    assert(asked.out == kbd.out.push((value, false)));
}

/// A disabled port and a cleared enable bit each keep the interrupt low, whatever
/// waits.
pub proof fn law_port_disable_silences_keyboard(kbd: KeyboardState)
    ensures
        !kbd.after_write(kbd.status_port, 0xAD).kbd_irq(),
        !kbd.after_write(kbd.status_port, 0xA7).aux_irq(),
{
}

/// A restored controller has the captured scan codes and is otherwise as at
/// power-on, at its own ports.
pub proof fn law_snapshot_round_trip(captured: KeyboardState, target: KeyboardState, tail: Seq<u8>)
    requires
        captured.queue.len() < 0x1_0000_0000,
        4 + captured.queue.len() <= usize::MAX,
    ensures
        target.restore_outcome(captured.snapshot_bytes() + tail) == (
            KeyboardState::power_on(target.data_port, target.status_port, captured.queue),
            Ok::<usize, &'static str>((4 + captured.queue.len()) as usize),
        ),
{
    let s = captured.snapshot_bytes() + tail;
    let n = captured.queue.len() as int;
    assert(s.subrange(0, 4) == le32_bytes(n as u32));
    lemma_le32_at(s, 0, n as u32);
    assert(s.subrange(4, 4 + n) == captured.queue);
}

/// What the controller answers to its own commands, behind what waits already: 0x20 gives
/// the configuration byte, 0xAA passes the self test with 0x55, 0xAB and 0xA9 find both
/// ports good, 0xC0 and 0xD0 read the input and the output port. No other command is
/// answered, and none touches the scan codes.
pub proof fn law_controller_answers(kbd: KeyboardState, cmd: u8)
    ensures
        ({
            let later = kbd.after_write(kbd.status_port, cmd);
            &&& cmd == 0x20 ==> later.out == kbd.out.push((kbd.ccb, false))
            &&& cmd == 0xAA ==> later.out == kbd.out.push((0x55, false))
            &&& cmd == 0xAB || cmd == 0xA9 ==> later.out == kbd.out.push((0, false))
            &&& cmd == 0xC0 ==> later.out == kbd.out.push((0x80, false))
            &&& cmd == 0xD0 ==> later.out == kbd.out.push((1, false))
            &&& cmd != 0x20 && cmd != 0xAA && cmd != 0xAB && cmd != 0xA9 && cmd != 0xC0 && cmd
                != 0xD0 ==> later.out == kbd.out
            &&& later.queue == kbd.queue
            &&& later.mouse_reporting == kbd.mouse_reporting
        }),
{
    let later = kbd.after_write(kbd.status_port, cmd);
    let reply = controller_reply(kbd.ccb, cmd);
    assert(reply.len() == 1 ==> later.out =~= kbd.out.push((reply[0], false)));
    assert(reply.len() == 0 ==> later.out =~= kbd.out);
}

/// Which command switches what: 0xAD and 0xAE the keyboard port off and on, 0xA7 and 0xA8
/// the mouse port, and the configuration byte says so in its bits 4 and 5; 0x60, 0xD4,
/// 0xD2 and 0xD3 say what the next data byte is for. All else stays.
pub proof fn law_controller_switches(kbd: KeyboardState, cmd: u8)
    ensures
        ({
            let later = kbd.after_write(kbd.status_port, cmd);
            &&& later.kbd_enabled == (if cmd == 0xAD {
                false
            } else if cmd == 0xAE {
                true
            } else {
                kbd.kbd_enabled
            })
            &&& later.aux_enabled == (if cmd == 0xA7 {
                false
            } else if cmd == 0xA8 {
                true
            } else {
                kbd.aux_enabled
            })
            &&& cmd == 0xAD ==> later.ccb == kbd.ccb | 0x10
            &&& cmd == 0xAE ==> later.ccb == kbd.ccb & !0x10
            &&& cmd == 0xA7 ==> later.ccb == kbd.ccb | 0x20
            &&& cmd == 0xA8 ==> later.ccb == kbd.ccb & !0x20
            &&& cmd != 0xAD && cmd != 0xAE && cmd != 0xA7 && cmd != 0xA8 ==> later.ccb == kbd.ccb
            &&& later.pending == (if cmd == 0x60 {
                CtrlPending::WriteCcb
            } else if cmd == 0xD4 {
                CtrlPending::WriteAux
            } else if cmd == 0xD2 {
                CtrlPending::WriteKbdOut
            } else if cmd == 0xD3 {
                CtrlPending::WriteAuxOut
            } else {
                kbd.pending
            })
        }),
{
}

/// What the keyboard answers when a byte is written to it: it acknowledges with 0xFA;
/// after a reset, 0xFF, it adds that its test passed, to 0xF2 it adds its identity, and
/// 0xEE it echoes. 0xED, 0xF3 and 0xF0 take the next byte as a parameter, which is
/// acknowledged too; asked with 0xF0 and 0 it adds that it uses set 2.
pub proof fn law_keyboard_answers(kbd: KeyboardState, cmd: u8)
    requires
        kbd.pending is Idle,
        kbd.data_port != kbd.status_port,
    ensures
        ({
            let later = kbd.after_write(kbd.data_port, cmd);
            &&& kbd.kbd_arg is None && cmd == 0xFF ==> later.out == kbd.out.push(
                (0xFA, false),
            ).push((0xAA, false))
            &&& kbd.kbd_arg is None && cmd == 0xF2 ==> later.out == kbd.out.push(
                (0xFA, false),
            ).push((0xAB, false)).push((0x83, false))
            &&& kbd.kbd_arg is None && cmd == 0xEE ==> later.out == kbd.out.push((0xEE, false))
            &&& kbd.kbd_arg is None && cmd != 0xFF && cmd != 0xF2 && cmd != 0xEE ==> later.out
                == kbd.out.push((0xFA, false))
            &&& kbd.kbd_arg is None ==> later.kbd_arg == (if cmd == 0xED || cmd == 0xF3 || cmd
                == 0xF0 {
                Some(cmd)
            } else {
                None
            })
            &&& kbd.kbd_arg is Some ==> later.kbd_arg is None
            &&& kbd.kbd_arg == Some(0xF0u8) && cmd == 0 ==> later.out == kbd.out.push(
                (0xFA, false),
            ).push((2, false))
            &&& kbd.kbd_arg is Some && !(kbd.kbd_arg == Some(0xF0u8) && cmd == 0) ==> later.out
                == kbd.out.push((0xFA, false))
            &&& later.queue == kbd.queue && later.ccb == kbd.ccb
        }),
{
    let later = kbd.after_write(kbd.data_port, cmd);
    let r = keyboard_reply(kbd.kbd_arg, cmd);
    lemma_replied(kbd, r, false);
}

proof fn lemma_replied(kbd: KeyboardState, r: Seq<u8>, aux: bool)
    ensures
        r.len() == 1 ==> kbd.replied(r, aux).out == kbd.out.push((r[0], aux)),
        r.len() == 2 ==> kbd.replied(r, aux).out == kbd.out.push((r[0], aux)).push((r[1], aux)),
        r.len() == 3 ==> kbd.replied(r, aux).out == kbd.out.push((r[0], aux)).push((r[1], aux)).push(
            (r[2], aux),
        ),
        r.len() == 4 ==> kbd.replied(r, aux).out == kbd.out.push((r[0], aux)).push((r[1], aux)).push(
            (r[2], aux),
        ).push((r[3], aux)),
{
    let o = kbd.replied(r, aux).out;
    if r.len() == 1 {
        assert(o =~= kbd.out.push((r[0], aux)));
    } else if r.len() == 2 {
        assert(o =~= kbd.out.push((r[0], aux)).push((r[1], aux)));
    } else if r.len() == 3 {
        assert(o =~= kbd.out.push((r[0], aux)).push((r[1], aux)).push((r[2], aux)));
    } else if r.len() == 4 {
        assert(o =~= kbd.out.push((r[0], aux)).push((r[1], aux)).push((r[2], aux)).push(
            (r[3], aux),
        ));
    }
}

/// What the mouse answers when a byte is sent to it behind command 0xD4, each byte marked
/// as the mouse's: the acknowledgement 0xFA, and after it the passed test and the identity
/// to 0xFF, the identity to 0xF2, its settings to 0xE9, and a packet at rest to 0xEB. 0xF4
/// makes it report, 0xF5 and 0xFF stop it, and 0xF3 and 0xE8 take a parameter.
pub proof fn law_mouse_answers(kbd: KeyboardState, cmd: u8)
    requires
        kbd.pending is WriteAux,
        kbd.data_port != kbd.status_port,
    ensures
        ({
            let later = kbd.after_write(kbd.data_port, cmd);
            let ack = kbd.out.push((0xFA, true));
            &&& kbd.mouse_arg is Some ==> later.out == ack && later.mouse_reporting
                == kbd.mouse_reporting && later.mouse_arg is None
            &&& kbd.mouse_arg is None ==> {
                &&& cmd == 0xFF ==> later.out == ack.push((0xAA, true)).push((0, true))
                &&& cmd == 0xF2 ==> later.out == ack.push((0, true))
                &&& cmd == 0xE9 ==> later.out == ack.push((0, true)).push((2, true)).push(
                    (0x64, true),
                )
                &&& cmd == 0xEB ==> later.out == ack.push((8, true)).push((0, true)).push((0, true))
                &&& cmd != 0xFF && cmd != 0xF2 && cmd != 0xE9 && cmd != 0xEB ==> later.out == ack
                &&& later.mouse_reporting == (if cmd == 0xF4 {
                    true
                } else if cmd == 0xF5 || cmd == 0xFF {
                    false
                } else {
                    kbd.mouse_reporting
                })
                &&& later.mouse_arg == (if cmd == 0xF3 || cmd == 0xE8 {
                    Some(cmd)
                } else {
                    None
                })
            }
            &&& later.pending is Idle && later.queue == kbd.queue
        }),
{
    lemma_replied(
        KeyboardState { pending: CtrlPending::Idle, ..kbd },
        mouse_reply(kbd.mouse_arg, cmd),
        true,
    );
}

/// A configuration byte that is written takes effect: bits 4 and 5 switch the ports off.
/// The two echo commands put the byte into the output buffer, as the keyboard's or as the
/// mouse's.
pub proof fn law_controller_parameters(kbd: KeyboardState, value: u8)
    requires
        kbd.data_port != kbd.status_port,
    ensures
        ({
            let later = kbd.after_write(kbd.data_port, value);
            &&& kbd.pending is WriteCcb ==> {
                &&& later.ccb == value
                &&& later.kbd_enabled == (value / 16 % 2 == 0)
                &&& later.aux_enabled == (value / 32 % 2 == 0)
                &&& later.out == kbd.out && later.pending is Idle
            }
            &&& kbd.pending is WriteKbdOut ==> later.out == kbd.out.push((value, false))
                && later.pending is Idle
            &&& kbd.pending is WriteAuxOut ==> later.out == kbd.out.push((value, true))
                && later.pending is Idle
        }),
{
    lemma_config_bits(value);
    let idle = KeyboardState { pending: CtrlPending::Idle, ..kbd };
    lemma_replied(idle, seq![value], false);
    lemma_replied(idle, seq![value], true);
}

proof fn lemma_config_bits(v: u8)
    by (bit_vector)
    ensures
        v & 0x10 == 0 <==> v / 16 % 2 == 0,
        v & 0x20 == 0 <==> v / 32 % 2 == 0,
        v & 0x01 != 0 <==> v % 2 == 1,
        v & 0x02 != 0 <==> v / 2 % 2 == 1,
        v & 0x04 != 0 <==> v / 4 % 2 == 1,
{
}

/// The status byte says in bit 0 whether a byte waits, in bit 2 what bit 2 of the
/// configuration says, and in bit 5 whether the byte is the mouse's. The keyboard's
/// interrupt is high while a byte of the keyboard is next, its port is on and bit 0 of the
/// configuration is set; the mouse's likewise, with bit 1.
pub proof fn law_status_and_interrupts(kbd: KeyboardState)
    requires
        kbd.data_port != kbd.status_port,
    ensures
        ({
            let s = kbd.read_value(kbd.status_port);
            let mouse = kbd.out.len() > 0 && kbd.out[0].1;
            let keys = if kbd.out.len() > 0 {
                !kbd.out[0].1
            } else {
                kbd.queue.len() > 0
            };
            &&& s % 2 == 1 <==> kbd.out.len() > 0 || kbd.queue.len() > 0
            &&& s / 4 % 2 == 1 <==> kbd.ccb / 4 % 2 == 1
            &&& s / 32 % 2 == 1 <==> mouse
            &&& s / 2 % 2 == 0 && s / 8 % 4 == 0 && s / 64 == 0
            &&& kbd.kbd_irq() <==> keys && kbd.kbd_enabled && kbd.ccb % 2 == 1
            &&& kbd.aux_irq() <==> mouse && kbd.aux_enabled && kbd.ccb / 2 % 2 == 1
            &&& kbd.after_read(kbd.status_port) == kbd
        }),
{
    lemma_config_bits(kbd.ccb);
}

/// A read of the data port takes the byte that it gives: from the output buffer first,
/// then from the scan codes, each in the order in which they came.
pub proof fn law_data_port_takes_in_order(kbd: KeyboardState)
    ensures
        kbd.out.len() > 0 ==> kbd.read_value(kbd.data_port) == kbd.out[0].0 && kbd.after_read(
            kbd.data_port,
        ) == (KeyboardState { out: kbd.out.skip(1), ..kbd }),
        kbd.out.len() == 0 && kbd.queue.len() > 0 ==> kbd.read_value(kbd.data_port) == kbd.queue[0]
            && kbd.after_read(kbd.data_port) == (KeyboardState { queue: kbd.queue.skip(1), ..kbd }),
        kbd.out.len() == 0 && kbd.queue.len() == 0 ==> kbd.read_value(kbd.data_port) == 0
            && kbd.after_read(kbd.data_port) == kbd,
{
    if kbd.out.len() > 0 {
        assert(kbd.out.drop_first() =~= kbd.out.skip(1));
    } else if kbd.queue.len() > 0 {
        assert(kbd.queue.drop_first() =~= kbd.queue.skip(1));
    }
}

/// A mouse packet tells the movement and the buttons: the driver, which takes nine bits
/// with the sign in the first byte, reads the movement cut to -256 up to 255, and finds
/// the buttons in bits 0 to 2 and bit 3 set.
pub proof fn law_mouse_packet_tells_movement(
    dx: i16,
    dy: i16,
    left: bool,
    right: bool,
    middle: bool,
)
    ensures
        ({
            let p = mouse_packet(dx, dy, left, right, middle);
            let x = p[1] - (if p[0] / 16 % 2 == 1 {
                256int
            } else {
                0
            });
            let y = p[2] - (if p[0] / 32 % 2 == 1 {
                256int
            } else {
                0
            });
            &&& p.len() == 3
            &&& p[0] % 2 == 1 <==> left
            &&& p[0] / 2 % 2 == 1 <==> right
            &&& p[0] / 4 % 2 == 1 <==> middle
            &&& p[0] / 8 % 2 == 1
            &&& p[0] < 64
            &&& -256 <= dx <= 255 ==> x == dx
            &&& dx < -256 ==> x == -256
            &&& dx > 255 ==> x == 255
            &&& -256 <= dy <= 255 ==> y == dy
            &&& dy < -256 ==> y == -256
            &&& dy > 255 ==> y == 255
        }),
{
}

/// At power-on the controller has both buffers empty, the keyboard port on and its
/// interrupt enabled, the mouse port off and the mouse silent. A snapshot holds how many
/// scan codes there are, in four bytes, low one first, and the scan codes.
pub proof fn law_power_on_and_snapshot_layout(kbd: KeyboardState, d: u16, s: u16)
    requires
        kbd.queue.len() < 0x1_0000_0000,
    ensures
        ({
            let new = KeyboardState::power_on(d, s, Seq::empty());
            &&& new.data_port == d && new.status_port == s
            &&& new.queue.len() == 0 && new.out.len() == 0
            &&& new.kbd_enabled && !new.aux_enabled && !new.mouse_reporting
            &&& new.ccb == 0x25
            &&& new.pending is Idle && new.kbd_arg is None && new.mouse_arg is None
        }),
        ({
            let b = kbd.snapshot_bytes();
            &&& b[0] + 0x100 * b[1] + 0x1_0000 * b[2] + 0x100_0000 * b[3] == kbd.queue.len()
            &&& b.skip(4) == kbd.queue
        }),
{
    let b = kbd.snapshot_bytes();
    let n = le32_bytes(kbd.queue.len() as u32);
    assert(b[0] == n[0] && b[1] == n[1] && b[2] == n[2] && b[3] == n[3]);
    assert(b.skip(4) =~= kbd.queue);
}

/// Which snapshots are refused: those that end before the bytes that they announce. Nothing
/// is loaded of them.
pub proof fn law_cut_snapshots(kbd: KeyboardState, bytes: Seq<u8>)
    ensures
        bytes.len() <= 3 ==> kbd.restore_outcome(bytes) == (
            kbd,
            Err::<usize, &'static str>("kbd: truncated"),
        ),
        bytes.len() >= 4 ==> {
            let n = bytes[0] + 256 * (bytes[1] + 256 * (bytes[2] + 256 * bytes[3]));
            bytes.len() < 4 + n ==> kbd.restore_outcome(bytes) == (
                kbd,
                Err::<usize, &'static str>("kbd: truncated queue"),
            )
        },
{
}

} // verus!
