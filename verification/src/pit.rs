//! 8254 programmable interval timer: channel 0.
//!
//! Modelled: mode 0 (one-shot) and the periodic modes 2 and 3, which are the
//! same as far as interrupts go; control words that select channel 0 with
//! low-then-high byte access; the counter latch command. Channels 1 and 2 take
//! writes and do nothing.

use crate::bits::lemma_flag_bits;
use crate::bytes::{get_le_u16, get_le_u32, le16_bytes, le32_bytes, le_u16, le_u32, put_le_u16, put_le_u32};
use crate::iobus::IoDevice;
use vstd::prelude::*;

verus! {

/// The timer.
#[derive(Copy, Clone, Debug, PartialEq, Eq)]
pub struct Pit {
    pub base_port: u16,
    pub ch0_reload: u16,
    pub ch0_counter: u32,
    pub ch0_mode: u8,
    pub ch0_running: bool,
    /// Set on terminal count, consumed by `take_ch0_pending`.
    pub ch0_pending_edge: bool,
    /// Which byte of the reload value is written next: 0 is the low one.
    pub write_state: u8,
    pub pending_lsb: u8,
    /// The value held by a counter latch command until both bytes are read.
    pub ch0_latch: Option<u16>,
    /// Which byte is read next: 0 is the low one.
    pub read_state: u8,
}

/// The number of ticks that a reload value stands for: zero means 65536.
pub open spec fn period(reload: u16) -> int {
    if reload == 0 {
        0x1_0000
    } else {
        reload as int
    }
}

/// Selects the channel: bits 7 and 6 of a control word.
pub open spec fn control_channel(value: u8) -> u8 {
    value >> 6
}

/// Selects the byte access: bits 5 and 4 of a control word.
pub open spec fn control_access(value: u8) -> u8 {
    (value >> 4) & 3
}

/// Selects the mode: bits 3 to 1 of a control word.
pub open spec fn control_mode(value: u8) -> u8 {
    (value >> 1) & 7
}

impl Pit {
    /// First port of the timer of a PC.
    pub const BASE: u16 = 0x40;

    /// The timer fresh from reset.
    pub open spec fn fresh(base_port: u16) -> Pit {
        Pit {
            base_port,
            ch0_reload: 0,
            ch0_counter: 0,
            ch0_mode: 0,
            ch0_running: false,
            ch0_pending_edge: false,
            write_state: 0,
            pending_lsb: 0,
            ch0_latch: None,
            read_state: 0,
        }
    }

    /// The read phase is the low or the high byte.
    pub open spec fn wf(self) -> bool {
        self.read_state <= 1
    }

    /// The timer `n` ticks later.
    pub open spec fn ticked(self, n: int) -> Pit {
        let c = self.ch0_counter as int;
        if !self.ch0_running || n == 0 {
            self
        } else if n < c {
            Pit { ch0_counter: (c - n) as u32, ..self }
        } else if self.ch0_mode == 0 {
            // One shot: the count stops at zero, and the channel halts as soon
            // as a tick finds it there.
            Pit {
                ch0_counter: 0,
                ch0_pending_edge: self.ch0_pending_edge || c > 0,
                ch0_running: n == c,
                ..self
            }
        } else {
            // Periodic: `past` ticks have gone by since the count was zero.
            let past = n - c;
            let p = period(self.ch0_reload);
            Pit {
                ch0_counter: (if past % p == 0 {
                    0
                } else {
                    p - past % p
                }) as u32,
                ch0_pending_edge: self.ch0_pending_edge || c > 0 || past >= p,
                ..self
            }
        }
    }

    /// The 16-bit count that a read sees: the held one, or the running one.
    pub open spec fn visible_count(self) -> u16 {
        match self.ch0_latch {
            Some(v) => v,
            None => (self.ch0_counter % 0x1_0000) as u16,
        }
    }

    /// What a read from `port` returns.
    pub open spec fn read_value(self, port: u16) -> u8 {
        if port != self.base_port {
            0
        } else if self.read_state == 0 {
            (self.visible_count() % 0x100) as u8
        } else {
            (self.visible_count() / 0x100) as u8
        }
    }

    /// The timer after a read from `port`.
    pub open spec fn after_read(self, port: u16) -> Pit {
        if port != self.base_port {
            self
        } else if self.read_state == 0 {
            Pit { read_state: 1, ..self }
        } else {
            Pit { read_state: 0, ch0_latch: None, ..self }
        }
    }

    /// The timer after control word `value`.
    pub open spec fn after_control(self, value: u8) -> Pit {
        if control_channel(value) == 0 && control_access(value) == 0 {
            if self.ch0_latch is None {
                Pit { ch0_latch: Some((self.ch0_counter % 0x1_0000) as u16), read_state: 0, ..self }
            } else {
                self
            }
        } else if control_channel(value) == 0 && control_access(value) == 3 {
            Pit {
                ch0_mode: control_mode(value),
                write_state: 0,
                read_state: 0,
                ch0_latch: None,
                ch0_pending_edge: false,
                ch0_running: false,
                ..self
            }
        } else {
            self
        }
    }

    /// The timer after `value` has been written to the channel-0 data port.
    pub open spec fn after_data(self, value: u8) -> Pit {
        if self.write_state == 0 {
            Pit { pending_lsb: value, write_state: 1, ..self }
        } else {
            let reload = (self.pending_lsb + 0x100 * value) as u16;
            Pit {
                ch0_reload: reload,
                ch0_counter: period(reload) as u32,
                ch0_running: true,
                write_state: 0,
                ..self
            }
        }
    }

    /// The timer after a write of `value` to `port`.
    pub open spec fn after_write(self, port: u16, value: u8) -> Pit {
        if port == self.base_port {
            self.after_data(value)
        } else if port == self.base_port + 3 {
            self.after_control(value)
        } else {
            self
        }
    }

    /// The flag byte of a snapshot.
    pub open spec fn snapshot_flags(self) -> u8 {
        ((if self.ch0_running { 1int } else { 0 }) + (if self.ch0_pending_edge { 2int } else { 0 })
            + (if self.ch0_latch is Some { 4int } else { 0 }) + 8 * (self.read_state % 2)) as u8
    }

    /// The twelve bytes that a snapshot holds of the timer.
    pub open spec fn snapshot_bytes(self) -> Seq<u8> {
        le16_bytes(self.ch0_reload) + le32_bytes(self.ch0_counter) + seq![
            self.ch0_mode,
            self.snapshot_flags(),
            self.write_state,
            self.pending_lsb,
        ] + le16_bytes(
            match self.ch0_latch {
                Some(v) => v,
                None => 0,
            },
        )
    }

    /// The timer and the result that `restore` leaves behind. Ten bytes without
    /// the latch fields restore with no latch.
    pub open spec fn restore_outcome(self, bytes: Seq<u8>) -> (Pit, Result<usize, &'static str>) {
        if bytes.len() < 10 {
            (self, Err("pit: truncated"))
        } else {
            let flags = bytes[7];
            let loaded = Pit {
                base_port: self.base_port,
                ch0_reload: le_u16(bytes, 0),
                ch0_counter: le_u32(bytes, 2),
                ch0_mode: bytes[6],
                ch0_running: flags & 1 != 0,
                ch0_pending_edge: flags & 2 != 0,
                write_state: bytes[8],
                pending_lsb: bytes[9],
                ch0_latch: None,
                read_state: 0,
            };
            if bytes.len() >= 12 {
                (
                    Pit {
                        ch0_latch: if flags & 4 != 0 {
                            Some(le_u16(bytes, 10))
                        } else {
                            None
                        },
                        read_state: if flags & 8 != 0 {
                            1
                        } else {
                            0
                        },
                        ..loaded
                    },
                    Ok(12),
                )
            } else {
                (loaded, Ok(10))
            }
        }
    }

    pub fn new(base_port: u16) -> (pit: Self)
        ensures
            pit == Pit::fresh(base_port),
    {
        Pit {
            base_port,
            ch0_reload: 0,
            ch0_counter: 0,
            ch0_mode: 0,
            ch0_running: false,
            ch0_pending_edge: false,
            write_state: 0,
            pending_lsb: 0,
            ch0_latch: None,
            read_state: 0,
        }
    }

    /// The timer at [`Pit::BASE`].
    pub fn standard() -> (pit: Self)
        ensures
            pit == Pit::fresh(Pit::BASE),
    {
        Self::new(Self::BASE)
    }

    /// Advances the timer by `n` ticks. Each arrival at zero leaves one pending
    /// edge; a periodic mode then counts down from the reload value again.
    pub fn tick(&mut self, n: u32)
        ensures
            *final(self) == old(self).ticked(n as int),
    {
        if !self.ch0_running || n == 0 {
            return ;
        }
        let c: u32 = self.ch0_counter;
        if n < c {
            self.ch0_counter = c - n;
            return ;
        }
        if self.ch0_mode == 0 {
            self.ch0_counter = 0;
            self.ch0_pending_edge = self.ch0_pending_edge || c > 0;
            self.ch0_running = n == c;
            return ;
        }
        let past: u32 = n - c;
        let p: u32 = if self.ch0_reload == 0 {
            0x1_0000
        } else {
            self.ch0_reload as u32
        };
        let rest: u32 = past % p;
        self.ch0_counter = if rest == 0 {
            0
        } else {
            p - rest
        };
        self.ch0_pending_edge = self.ch0_pending_edge || c > 0 || past >= p;
    }

    /// Hands out the pending edge, if there is one, and forgets it.
    pub fn take_ch0_pending(&mut self) -> (edge: bool)
        ensures
            edge == old(self).ch0_pending_edge,
            *final(self) == (Pit { ch0_pending_edge: false, ..*old(self) }),
    {
        let edge = self.ch0_pending_edge;
        self.ch0_pending_edge = false;
        edge
    }

    /// Appends the state of channel 0 to `out`: reload, counter, mode, flags
    /// (running, pending edge, latched, read phase), write phase, low byte
    /// waiting, latched value.
    pub fn snapshot_into(&self, out: &mut Vec<u8>)
        ensures
            final(out)@ == old(out)@ + self.snapshot_bytes(),
    {
        put_le_u16(out, self.ch0_reload);
        put_le_u32(out, self.ch0_counter);
        out.push(self.ch0_mode);
        let mut flags: u8 = 8 * (self.read_state % 2);
        if self.ch0_running {
            flags = flags + 1;
        }
        if self.ch0_pending_edge {
            flags = flags + 2;
        }
        if self.ch0_latch.is_some() {
            flags = flags + 4;
        }
        out.push(flags);
        out.push(self.write_state);
        out.push(self.pending_lsb);
        let held: u16 = match self.ch0_latch {
            Some(v) => v,
            None => 0,
        };
        put_le_u16(out, held);
    }

    /// Takes back what `snapshot_into` wrote and returns its length; the shorter
    /// layout without latch fields is accepted too.
    pub fn restore(&mut self, bytes: &[u8]) -> (r: Result<usize, &'static str>)
        ensures
            (*final(self), r) == old(self).restore_outcome(bytes@),
    {
        if bytes.len() < 10 {
            return Err("pit: truncated");
        }
        self.ch0_reload = get_le_u16(bytes, 0);
        self.ch0_counter = get_le_u32(bytes, 2);
        self.ch0_mode = bytes[6];
        let flags: u8 = bytes[7];
        self.ch0_running = flags & 1 != 0;
        self.ch0_pending_edge = flags & 2 != 0;
        self.write_state = bytes[8];
        self.pending_lsb = bytes[9];
        if bytes.len() >= 12 {
            self.ch0_latch = if flags & 4 != 0 {
                Some(get_le_u16(bytes, 10))
            } else {
                None
            };
            self.read_state = if flags & 8 != 0 {
                1
            } else {
                0
            };
            Ok(12)
        } else {
            self.ch0_latch = None;
            self.read_state = 0;
            Ok(10)
        }
    }
}

impl IoDevice for Pit {
    open spec fn fits_port_space(&self) -> bool {
        self.base_port <= 0xFFFC
    }

    open spec fn accepts(&self, port: u16) -> bool {
        port >= self.base_port
    }

    fn port_range(&self) -> (range: (u16, u16))
        ensures
            range == (self.base_port, (self.base_port + 3) as u16),
    {
        (self.base_port, self.base_port + 3)
    }

    fn read(&mut self, port: u16) -> (value: u8)
        ensures
            value == old(self).read_value(port),
            *final(self) == old(self).after_read(port),
    {
        if port - self.base_port != 0 {
            return 0;
        }
        let count: u16 = match self.ch0_latch {
            Some(v) => v,
            None => (self.ch0_counter % 0x1_0000) as u16,
        };
        if self.read_state == 0 {
            self.read_state = 1;
            (count % 0x100) as u8
        } else {
            self.ch0_latch = None;
            self.read_state = 0;
            (count / 0x100) as u8
        }
    }

    fn write(&mut self, port: u16, value: u8)
        ensures
            *final(self) == old(self).after_write(port, value),
    {
        match port - self.base_port {
            3 => {
                let channel: u8 = value >> 6;
                let access: u8 = (value >> 4) & 3;
                if channel == 0 && access == 0 {
                    if self.ch0_latch.is_none() {
                        self.ch0_latch = Some((self.ch0_counter % 0x1_0000) as u16);
                        self.read_state = 0;
                    }
                } else if channel == 0 && access == 3 {
                    self.ch0_mode = (value >> 1) & 7;
                    self.write_state = 0;
                    self.read_state = 0;
                    self.ch0_latch = None;
                    self.ch0_pending_edge = false;
                    self.ch0_running = false;
                }
            },
            0 => {
                if self.write_state == 0 {
                    self.pending_lsb = value;
                    self.write_state = 1;
                } else {
                    let reload: u16 = self.pending_lsb as u16 + 0x100 * (value as u16);
                    self.ch0_reload = reload;
                    self.ch0_counter = if reload == 0 {
                        0x1_0000
                    } else {
                        reload as u32
                    };
                    self.ch0_running = true;
                    self.write_state = 0;
                }
            },
            _ => {},
        }
    }
}

/// Ticking in two steps is ticking once by the sum.
pub proof fn law_ticks_add_up(pit: Pit, a: int, b: int)
    requires
        0 <= a,
        0 <= b,
    ensures
        pit.ticked(a).ticked(b) == pit.ticked(a + b),
{
    let c = pit.ch0_counter as int;
    let p = period(pit.ch0_reload);
    if pit.ch0_running && a > 0 && b > 0 && a >= c && pit.ch0_mode != 0 {
        let past = a - c;
        let c2 = pit.ticked(a).ch0_counter as int;
        vstd::arithmetic::div_mod::lemma_mod_bound(past, p);
        vstd::arithmetic::div_mod::lemma_fundamental_div_mod(past, p);
        let q = past / p;
        let rest = past % p;
        assert(p * q == q * p) by (nonlinear_arith);
        if b < c2 {
            assert(rest > 0 && past + b == q * p + (rest + b));
            vstd::arithmetic::div_mod::lemma_fundamental_div_mod_converse(past + b, p, q, rest + b);
            assert(past >= p ==> past + b >= p);
            assert(past + b >= p ==> past >= p) by {
                if past < p {
                    vstd::arithmetic::div_mod::lemma_small_mod(past as nat, p as nat);
                }
            }
        } else {
            let past2 = b - c2;
            vstd::arithmetic::div_mod::lemma_fundamental_div_mod(past2, p);
            vstd::arithmetic::div_mod::lemma_mod_bound(past2, p);
            let q2 = past2 / p;
            let whole = if rest == 0 { q + q2 } else { q + 1 + q2 };
            assert(past + b == whole * p + past2 % p) by (nonlinear_arith)
                requires
                    past == p * q + rest,
                    past2 == p * q2 + past2 % p,
                    b == past2 + c2,
                    c2 == (if rest == 0 { 0 } else { p - rest }),
                    whole == (if rest == 0 { q + q2 } else { q + 1 + q2 }),
            ;
            vstd::arithmetic::div_mod::lemma_fundamental_div_mod_converse(
                past + b,
                p,
                whole,
                past2 % p,
            );
            if past < p {
                vstd::arithmetic::div_mod::lemma_small_mod(past as nat, p as nat);
            }
        }
    }
}

/// While a count is held, ticks and further latch commands do not show: the two
/// reads give the low and the high byte of the count at the time of the latch
/// command, and only then is the running count visible again.
pub proof fn law_latch_freezes_count(pit: Pit, latch: u8, n: int, m: int, again: u8)
    requires
        pit.wf(),
        pit.ch0_latch is None,
        pit.base_port <= 0xFFFC,
        control_channel(latch) == 0 && control_access(latch) == 0,
        control_channel(again) == 0 && control_access(again) == 0,
        0 <= n,
        0 <= m,
    ensures
        ({
            let port = pit.base_port;
            let control = (pit.base_port + 3) as u16;
            let held = (pit.ch0_counter % 0x1_0000) as u16;
            let first = pit.after_write(control, latch).ticked(n);
            let second = first.after_read(port).after_write(control, again).ticked(m);
            let after = second.after_read(port);
            &&& first.read_value(port) == held % 0x100
            &&& second.read_value(port) == held / 0x100
            &&& after.ch0_latch is None
            &&& after.read_state == 0
            &&& after.ch0_counter == pit.ticked(n).ticked(m).ch0_counter
        }),
{
}

/// A periodic channel leaves an edge exactly when the ticks reach the count.
pub proof fn law_edge_on_terminal_count(pit: Pit, n: int)
    requires
        pit.ch0_running,
        pit.ch0_counter > 0,
        !pit.ch0_pending_edge,
        n >= 0,
    ensures
        pit.ticked(n).ch0_pending_edge <==> n >= pit.ch0_counter,
{
}

/// Once a one-shot has fired and its edge has been taken, it never fires again.
pub proof fn law_one_shot_fires_once(pit: Pit, n: int, m: int)
    requires
        pit.ch0_running,
        pit.ch0_mode == 0,
        pit.ch0_counter > 0,
        n >= pit.ch0_counter,
        m >= 0,
    ensures
        pit.ticked(n).ch0_pending_edge,
        !(Pit { ch0_pending_edge: false, ..pit.ticked(n) }).ticked(m).ch0_pending_edge,
{
}

/// Every operation keeps the read phase valid.
pub proof fn law_operations_keep_wf(pit: Pit, n: int, port: u16, value: u8, bytes: Seq<u8>)
    requires
        pit.wf(),
        n >= 0,
    ensures
        pit.ticked(n).wf(),
        pit.after_read(port).wf(),
        pit.after_write(port, value).wf(),
        pit.restore_outcome(bytes).0.wf(),
{
}

/// A restored timer is the captured one, at its own port.
pub proof fn law_snapshot_round_trip(captured: Pit, target: Pit, tail: Seq<u8>)
    requires
        captured.wf(),
    ensures
        target.restore_outcome(captured.snapshot_bytes() + tail) == (
            Pit { base_port: target.base_port, ..captured },
            Ok::<usize, &'static str>(12),
        ),
{
    lemma_flag_bits(captured.snapshot_flags());
}

/// A channel that repeats fires again and again: when its count has just come to zero
/// and its edge has been taken, the next edge is there after as many ticks as its
/// reload value says (zero stands for 65536), and not before; it never stops.
pub proof fn law_periodic_channel_keeps_firing(pit: Pit, n: int)
    requires
        pit.ch0_running,
        pit.ch0_mode != 0,
        pit.ch0_counter == 0,
        !pit.ch0_pending_edge,
        n >= 0,
    ensures
        ({
            let p: int = if pit.ch0_reload == 0 {
                0x1_0000
            } else {
                pit.ch0_reload as int
            };
            let later = pit.ticked(n);
            &&& later.ch0_running
            &&& later.ch0_mode == pit.ch0_mode
            &&& later.ch0_reload == pit.ch0_reload
            &&& later.ch0_pending_edge <==> n >= p
            &&& 0 < n < p ==> later.ch0_counter == p - n
            &&& n == p ==> later.ch0_counter == 0
            &&& n > p ==> later == pit.ticked(p).ticked(n - p)
        }),
{
    let p = period(pit.ch0_reload);
    if 0 < n < p {
        vstd::arithmetic::div_mod::lemma_small_mod(n as nat, p as nat);
    } else if n == p {
        vstd::arithmetic::div_mod::lemma_mod_self_0(p);
    } else if n > p {
        law_ticks_add_up(pit, p, n - p);
    }
}

/// Which of the modes other than 0 was chosen makes no difference to how a channel
/// counts.
pub proof fn law_repeating_modes_count_alike(pit: Pit, mode: u8, n: int)
    requires
        pit.ch0_mode != 0,
        mode != 0,
        n >= 0,
    ensures
        (Pit { ch0_mode: mode, ..pit }).ticked(n) == (Pit { ch0_mode: mode, ..pit.ticked(n) }),
{
}

/// What a single tick does: a count above one goes down by one; from one it comes to
/// zero and leaves an edge; a tick that finds zero stops a one-shot for good, and
/// starts any other channel over from its reload value, of which the tick is the
/// first.
pub proof fn law_single_tick(pit: Pit)
    ensures
        ({
            let later = pit.ticked(1);
            &&& !pit.ch0_running ==> later == pit
            &&& pit.ch0_running && pit.ch0_counter > 1 ==> later == (Pit {
                ch0_counter: (pit.ch0_counter - 1) as u32,
                ..pit
            })
            &&& pit.ch0_running && pit.ch0_counter == 1 ==> later == (Pit {
                ch0_counter: 0,
                ch0_pending_edge: true,
                ..pit
            })
            &&& pit.ch0_running && pit.ch0_counter == 0 && pit.ch0_mode == 0 ==> later == (Pit {
                ch0_running: false,
                ..pit
            })
            &&& pit.ch0_running && pit.ch0_counter == 0 && pit.ch0_mode != 0 && pit.ch0_reload != 1
                ==> later == (Pit {
                ch0_counter: if pit.ch0_reload == 0 {
                    0xFFFF
                } else {
                    (pit.ch0_reload - 1) as u32
                },
                ..pit
            })
            &&& pit.ch0_running && pit.ch0_counter == 0 && pit.ch0_mode != 0 && pit.ch0_reload == 1
                ==> later == (Pit { ch0_pending_edge: true, ..pit })
        }),
{
    let p = period(pit.ch0_reload);
    if pit.ch0_counter == 1 {
        vstd::arithmetic::div_mod::lemma_small_mod(0, p as nat);
    } else if pit.ch0_counter == 0 {
        if p > 1 {
            vstd::arithmetic::div_mod::lemma_small_mod(1, p as nat);
        }
    }
}

/// Programming channel 0: a control word for it with access to both bytes chooses the
/// mode in its bits 1 to 3 and stops the channel; the two data bytes that follow, low
/// one first, start it, and with a count of `count` (zero stands for 65536) its first
/// edge is there after `count` ticks and not before.
pub proof fn law_programmed_channel_fires(pit: Pit, word: u8, lo: u8, hi: u8, n: int)
    requires
        pit.base_port <= 0xFFFC,
        word / 64 == 0,
        word / 16 % 4 == 3,
        n >= 0,
    ensures
        ({
            let base = pit.base_port;
            let chosen = pit.after_write((base + 3) as u16, word);
            let half = chosen.after_write(base, lo);
            let started = half.after_write(base, hi);
            let count: int = if lo == 0 && hi == 0 {
                0x1_0000
            } else {
                lo + 0x100 * hi
            };
            &&& chosen.ch0_mode == word / 2 % 8
            &&& !chosen.ch0_running && !half.ch0_running && started.ch0_running
            &&& !started.ch0_pending_edge
            &&& started.ch0_mode == word / 2 % 8
            &&& started.ch0_reload == lo + 0x100 * hi
            &&& started.ch0_counter == count
            &&& started.ticked(n).ch0_pending_edge <==> n >= count
            &&& n < count ==> started.ticked(n).ch0_counter == count - n
            &&& n == count ==> started.ticked(n).ch0_counter == 0 && started.ticked(n).ch0_running
            &&& started.ch0_latch is None && started.read_state == 0
        }),
{
    lemma_control_word(word);
    let base = pit.base_port;
    let started = pit.after_write((base + 3) as u16, word).after_write(base, lo).after_write(
        base,
        hi,
    );
    let p = period(started.ch0_reload);
    if n == started.ch0_counter {
        vstd::arithmetic::div_mod::lemma_small_mod(0, p as nat);
    }
}

/// Control words for the other channels, and those that give channel 0 access to one
/// byte alone, change nothing; nor do writes to the data ports of the other channels,
/// which read as zero.
pub proof fn law_other_channels_are_inert(pit: Pit, word: u8, port: u16)
    requires
        pit.base_port <= 0xFFFC,
        pit.base_port < port < pit.base_port + 3,
    ensures
        word / 64 != 0 ==> pit.after_write((pit.base_port + 3) as u16, word) == pit,
        word / 16 % 4 == 1 || word / 16 % 4 == 2 ==> pit.after_write(
            (pit.base_port + 3) as u16,
            word,
        ) == pit,
        pit.after_write(port, word) == pit,
        pit.after_read(port) == pit,
        pit.read_value(port) == 0,
        pit.read_value((pit.base_port + 3) as u16) == 0,
{
    lemma_control_word(word);
}

/// Two reads of the data port give the low byte and then the high byte of the count:
/// the running one, or the one that a latch command has held.
pub proof fn law_count_is_read_low_byte_first(pit: Pit, word: u8, n: int)
    requires
        pit.base_port <= 0xFFFC,
        pit.read_state == 0,
        pit.ch0_latch is None,
        word < 16,
        n >= 0,
    ensures
        ({
            let base = pit.base_port;
            let held = pit.after_write((base + 3) as u16, word).ticked(n);
            &&& pit.read_value(base) + 0x100 * pit.after_read(base).read_value(base)
                == pit.ch0_counter % 0x1_0000
            &&& held.read_value(base) + 0x100 * held.after_read(base).read_value(base)
                == pit.ch0_counter % 0x1_0000
            &&& pit.after_read(base).after_read(base) == pit
        }),
{
    lemma_control_word(word);
}

proof fn lemma_control_word(word: u8)
    by (bit_vector)
    ensures
        word >> 6 == word / 64,
        (word >> 4) & 3 == word / 16 % 4,
        (word >> 1) & 7 == word / 2 % 8,
        word < 16 ==> word / 64 == 0 && word / 16 % 4 == 0,
{
}

/// A snapshot, byte by byte: reload value in two bytes and count in four, low byte first;
/// mode; flags for running, pending edge, held count and high byte next; which byte of the
/// reload value comes next, and the low one that waits; the held count in two bytes.
pub proof fn law_snapshot_layout(pit: Pit)
    requires
        pit.wf(),
    ensures
        ({
            let s = pit.snapshot_bytes();
            &&& s.len() == 12
            &&& s[0] + 0x100 * s[1] == pit.ch0_reload
            &&& s[2] + 0x100 * s[3] + 0x1_0000 * s[4] + 0x100_0000 * s[5] == pit.ch0_counter
            &&& s[6] == pit.ch0_mode
            &&& s[7] % 2 == 1 <==> pit.ch0_running
            &&& s[7] / 2 % 2 == 1 <==> pit.ch0_pending_edge
            &&& s[7] / 4 % 2 == 1 <==> pit.ch0_latch is Some
            &&& s[7] / 8 == pit.read_state
            &&& s[8] == pit.write_state && s[9] == pit.pending_lsb
            &&& pit.ch0_latch matches Some(v) ==> s[10] + 0x100 * s[11] == v
            &&& pit.ch0_latch is None ==> s[10] == 0 && s[11] == 0
        }),
{
    let s = pit.snapshot_bytes();
    assert(s[0] == le16_bytes(pit.ch0_reload)[0] && s[1] == le16_bytes(pit.ch0_reload)[1]);
    let c = le32_bytes(pit.ch0_counter);
    assert(s[2] == c[0] && s[3] == c[1] && s[4] == c[2] && s[5] == c[3]);
    if let Some(v) = pit.ch0_latch {
        assert(s[10] == le16_bytes(v)[0] && s[11] == le16_bytes(v)[1]);
    } else {
        assert(s[10] == le16_bytes(0)[0] && s[11] == le16_bytes(0)[1]);
    }
}

/// Which snapshots are refused: those with less than ten bytes, of which nothing is loaded.
/// One with ten or eleven is one without a held count.
pub proof fn law_short_snapshots(pit: Pit, bytes: Seq<u8>)
    ensures
        bytes.len() <= 9 ==> pit.restore_outcome(bytes) == (
            pit,
            Err::<usize, &'static str>("pit: truncated"),
        ),
        bytes.len() == 10 || bytes.len() == 11 ==> pit.restore_outcome(bytes).1
            == Ok::<usize, &'static str>(10) && pit.restore_outcome(bytes).0.ch0_latch is None
            && pit.restore_outcome(bytes).0.read_state == 0,
        bytes.len() >= 12 ==> pit.restore_outcome(bytes).1 == Ok::<usize, &'static str>(12),
{
}

/// A new timer stands still, with nothing set, held or pending.
pub proof fn law_new_timer(base: u16)
    ensures
        ({
            let t = Pit::fresh(base);
            &&& t.base_port == base
            &&& t.ch0_reload == 0 && t.ch0_counter == 0 && t.ch0_mode == 0
            &&& !t.ch0_running && !t.ch0_pending_edge
            &&& t.ch0_latch is None
            &&& t.write_state == 0 && t.read_state == 0 && t.pending_lsb == 0
        }),
{
}

} // verus!
