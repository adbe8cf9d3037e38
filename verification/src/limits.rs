//! Limits on what clients of the relay may use.

use crate::ipv4::Ipv4Addr;
use crate::text::{chars_of, law_decimal_digits, law_decimal_reads_back, law_digits_are_digits, law_trim_cuts_white_space, law_unsigned_reads_digits, parse_unsigned, to_decimal, trim, trimmed, unsigned};
use std::collections::HashMap;
use vstd::prelude::*;

verus! {

broadcast use vstd::std_specs::hash::group_hash_axioms;

/// Limits; zero means that there is none.
#[derive(Debug, Clone, Copy, PartialEq, Eq, Structural)]
pub struct Limits {
    /// Connections at a time.
    pub max_conns: usize,
    /// Connections at a time from one address.
    pub max_per_ip: usize,
    /// Seconds without a byte after which a connection is closed.
    pub idle_secs: u64,
    /// Bytes that a connection may carry, both ways together.
    pub max_bytes: u64,
}

/// The number that a setting stands for: a default if it is not set or no number.
pub open spec fn setting(text: Option<Seq<char>>, default: u64) -> u64 {
    match text {
        Some(s) => match unsigned(trim(s), u64::MAX as nat) {
            Some(n) => n as u64,
            None => default,
        },
        None => default,
    }
}

/// What an optional text holds.
pub open spec fn text_view(text: Option<&str>) -> Option<Seq<char>> {
    match text {
        Some(s) => Some(s@),
        None => None,
    }
}

/// The number that a setting stands for.
pub fn read_setting(text: Option<&str>, default: u64) -> (n: u64)
    ensures
        n == setting(text_view(text), default),
{
    match text {
        Some(s) => {
            let chars: Vec<char> = trimmed(chars_of(s).as_slice());
            match parse_unsigned(chars.as_slice(), u64::MAX) {
                Some(n) => n,
                None => default,
            }
        },
        None => default,
    }
}

impl Limits {
    /// The limits that the texts of four settings stand for.
    pub open spec fn of(
        max_conns: Option<Seq<char>>,
        max_per_ip: Option<Seq<char>>,
        idle_secs: Option<Seq<char>>,
        max_bytes: Option<Seq<char>>,
    ) -> Limits {
        Limits {
            max_conns: setting(max_conns, 512) as usize,
            max_per_ip: setting(max_per_ip, 32) as usize,
            idle_secs: setting(idle_secs, 0),
            max_bytes: setting(max_bytes, 0),
        }
    }

    /// The limits that four settings stand for.
    pub fn from_settings(
        max_conns: Option<&str>,
        max_per_ip: Option<&str>,
        idle_secs: Option<&str>,
        max_bytes: Option<&str>,
    ) -> (limits: Self)
        ensures
            limits == (Limits {
                max_conns: setting(text_view(max_conns), 512) as usize,
                max_per_ip: setting(text_view(max_per_ip), 32) as usize,
                idle_secs: setting(text_view(idle_secs), 0),
                max_bytes: setting(text_view(max_bytes), 0),
            }),
            limits == Limits::of(
                text_view(max_conns),
                text_view(max_per_ip),
                text_view(idle_secs),
                text_view(max_bytes),
            ),
    {
        Limits {
            max_conns: read_setting(max_conns, 512) as usize,
            max_per_ip: read_setting(max_per_ip, 32) as usize,
            idle_secs: read_setting(idle_secs, 0),
            max_bytes: read_setting(max_bytes, 0),
        }
    }
}

/// The address of a client, or one that a name was resolved to.
#[derive(Debug, Clone, Copy, PartialEq, Eq, Structural)]
pub enum PeerIp {
    V4(Ipv4Addr),
    /// An IPv6 address, as a number.
    V6(u128),
}

/// Counts connections, and lets no more in than the limits allow.
pub struct Gate {
    pub max_conns: usize,
    pub max_per_ip: usize,
    /// Connections at the moment.
    pub total: usize,
    /// Connections by number of IPv4 address; only addresses that have some.
    pub v4: HashMap<u32, usize>,
    /// Connections by IPv6 address; only addresses that have some.
    pub v6: HashMap<u128, usize>,
}

/// The right to one connection, until it is handed back.
#[derive(Debug)]
pub struct ConnGuard {
    pub ip: PeerIp,
}

/// The counts of a gate.
#[verifier::ext_equal]
pub ghost struct GateState {
    pub max_conns: usize,
    pub max_per_ip: usize,
    pub total: nat,
    pub v4: Map<u32, usize>,
    pub v6: Map<u128, usize>,
}

impl View for Gate {
    type V = GateState;

    open spec fn view(&self) -> GateState {
        GateState {
            max_conns: self.max_conns,
            max_per_ip: self.max_per_ip,
            total: self.total as nat,
            v4: self.v4@,
            v6: self.v6@,
        }
    }
}

/// The sum of all counts.
pub open spec fn sum<K>(counts: Map<K, usize>) -> nat
    recommends
        counts.dom().finite(),
    decreases counts.dom().len(),
{
    if counts.dom().finite() && counts.dom().len() > 0 {
        let k = counts.dom().choose();
        counts[k] as nat + sum(counts.remove(k))
    } else {
        0
    }
}

impl GateState {
    /// How many connections an address has.
    pub open spec fn count(self, ip: PeerIp) -> nat {
        match ip {
            PeerIp::V4(a) => if self.v4.contains_key(a.number()) {
                self.v4[a.number()] as nat
            } else {
                0
            },
            PeerIp::V6(n) => if self.v6.contains_key(n) {
                self.v6[n] as nat
            } else {
                0
            },
        }
    }

    /// An address is in the tables only if it has connections, and the connections of
    /// all addresses are all there are.
    pub open spec fn wf(self) -> bool {
        &&& self.v4.dom().finite()
        &&& self.v6.dom().finite()
        &&& forall|n: u32| #[trigger] self.v4.contains_key(n) ==> 0 < self.v4[n]
        &&& forall|n: u128| #[trigger] self.v6.contains_key(n) ==> 0 < self.v6[n]
        &&& self.total == sum(self.v4) + sum(self.v6)
    }

    /// Whether a connection from an address is let in.
    pub open spec fn admits(self, ip: PeerIp) -> bool {
        &&& self.max_conns > 0 ==> self.total < self.max_conns
        &&& self.max_per_ip > 0 ==> self.count(ip) < self.max_per_ip
    }

    /// With another number of connections from an address; at zero it is forgotten.
    pub open spec fn with_count(self, ip: PeerIp, n: usize) -> GateState {
        match ip {
            PeerIp::V4(a) => GateState {
                v4: if n == 0 {
                    self.v4.remove(a.number())
                } else {
                    self.v4.insert(a.number(), n)
                },
                ..self
            },
            PeerIp::V6(x) => GateState {
                v6: if n == 0 {
                    self.v6.remove(x)
                } else {
                    self.v6.insert(x, n)
                },
                ..self
            },
        }
    }

    /// After a connection was let in.
    pub open spec fn acquired(self, ip: PeerIp) -> GateState {
        GateState { total: self.total + 1, ..self.with_count(ip, (self.count(ip) + 1) as usize) }
    }

    /// After a connection has ended.
    pub open spec fn released(self, ip: PeerIp) -> GateState {
        GateState {
            total: (self.total - 1) as nat,
            ..self.with_count(ip, (self.count(ip) - 1) as usize)
        }
    }
}

impl Gate {
    /// A gate without connections.
    pub fn new(limits: &Limits) -> (gate: Self)
        ensures
            gate@ == (GateState {
                max_conns: limits.max_conns,
                max_per_ip: limits.max_per_ip,
                total: 0,
                v4: Map::empty(),
                v6: Map::empty(),
            }),
            gate@.wf(),
    {
        Gate {
            max_conns: limits.max_conns,
            max_per_ip: limits.max_per_ip,
            total: 0,
            v4: HashMap::new(),
            v6: HashMap::new(),
        }
    }

    /// How many connections an address has.
    pub fn count_of(&self, ip: PeerIp) -> (n: usize)
        ensures
            n == self@.count(ip),
    {
        match ip {
            PeerIp::V4(a) => match self.v4.get(&a.to_number()) {
                Some(n) => *n,
                None => 0,
            },
            PeerIp::V6(x) => match self.v6.get(&x) {
                Some(n) => *n,
                None => 0,
            },
        }
    }

    fn set_count(&mut self, ip: PeerIp, n: usize)
        ensures
            final(self)@ == old(self)@.with_count(ip, n),
    {
        match ip {
            PeerIp::V4(a) => {
                if n == 0 {
                    let _ = self.v4.remove(&a.to_number());
                    assert(self.v4@ =~= old(self).v4@.remove(a.number()));
                } else {
                    self.v4.insert(a.to_number(), n);
                }
            },
            PeerIp::V6(x) => {
                if n == 0 {
                    let _ = self.v6.remove(&x);
                    assert(self.v6@ =~= old(self).v6@.remove(x));
                } else {
                    self.v6.insert(x, n);
                }
            },
        }
    }

    /// Lets a connection in, if neither limit is reached; otherwise nothing changes.
    pub fn try_acquire(&mut self, ip: PeerIp) -> (guard: Option<ConnGuard>)
        requires
            old(self)@.wf(),
            old(self).total < usize::MAX,
        ensures
            final(self)@.wf(),
            match guard {
                Some(g) => old(self)@.admits(ip) && g.ip == ip && final(self)@ == old(
                    self,
                )@.acquired(ip),
                None => !old(self)@.admits(ip) && final(self)@ == old(self)@,
            },
    {
        if self.max_conns > 0 && self.total >= self.max_conns {
            return None;
        }
        let n: usize = self.count_of(ip);
        if self.max_per_ip > 0 && n >= self.max_per_ip {
            return None;
        }
        proof {
            lemma_with_count(self@, ip, (n + 1) as usize);
        }
        self.set_count(ip, n + 1);
        self.total = self.total + 1;
        Some(ConnGuard { ip })
    }

    /// Hands a connection's right back.
    pub fn release(&mut self, guard: ConnGuard)
        requires
            old(self)@.wf(),
            old(self)@.count(guard.ip) > 0,
        ensures
            final(self)@.wf(),
            final(self)@ == old(self)@.released(guard.ip),
    {
        let n: usize = self.count_of(guard.ip);
        proof {
            lemma_with_count(self@, guard.ip, (n - 1) as usize);
        }
        self.set_count(guard.ip, n - 1);
        self.total = self.total - 1;
    }
}

proof fn lemma_sum_remove<K>(counts: Map<K, usize>, k: K)
    requires
        counts.dom().finite(),
        counts.contains_key(k),
    ensures
        sum(counts) == counts[k] + sum(counts.remove(k)),
    decreases counts.dom().len(),
{
    let c = counts.dom().choose();
    if c != k {
        lemma_sum_remove(counts.remove(c), k);
        lemma_sum_remove(counts.remove(k), c);
        assert(counts.remove(c).remove(k) =~= counts.remove(k).remove(c));
    }
}

proof fn lemma_sum_insert<K>(counts: Map<K, usize>, k: K, n: usize)
    requires
        counts.dom().finite(),
    ensures
        counts.insert(k, n).dom().finite(),
        sum(counts.insert(k, n)) == sum(counts.remove(k)) + n,
{
    lemma_sum_remove(counts.insert(k, n), k);
    assert(counts.insert(k, n).remove(k) =~= counts.remove(k));
}

proof fn lemma_sum_without<K>(counts: Map<K, usize>, k: K)
    requires
        counts.dom().finite(),
    ensures
        sum(counts) == sum(counts.remove(k)) + (if counts.contains_key(k) {
            counts[k] as nat
        } else {
            0
        }),
{
    if counts.contains_key(k) {
        lemma_sum_remove(counts, k);
    } else {
        assert(counts.remove(k) =~= counts);
    }
}

/// What another number of connections from an address does to the sum.
proof fn lemma_with_count(gate: GateState, ip: PeerIp, n: usize)
    requires
        gate.wf(),
    ensures
        ({
            let after = gate.with_count(ip, n);
            &&& after.v4.dom().finite()
            &&& after.v6.dom().finite()
            &&& sum(after.v4) + sum(after.v6) == gate.total - gate.count(ip) + n
            &&& gate.count(ip) <= gate.total
        }),
{
    match ip {
        PeerIp::V4(a) => {
            lemma_sum_without(gate.v4, a.number());
            lemma_sum_insert(gate.v4, a.number(), n);
        },
        PeerIp::V6(x) => {
            lemma_sum_without(gate.v6, x);
            lemma_sum_insert(gate.v6, x, n);
        },
    }
}

/// Neither limit is ever exceeded: not by all connections, and not by those of one
/// address.
pub proof fn law_limits_are_kept(gate: GateState, ip: PeerIp, other: PeerIp)
    requires
        gate.wf(),
        gate.admits(ip),
        gate.total < usize::MAX,
        gate.max_conns > 0 ==> gate.total <= gate.max_conns,
        gate.max_per_ip > 0 ==> gate.count(other) <= gate.max_per_ip,
    ensures
        gate.acquired(ip).max_conns > 0 ==> gate.acquired(ip).total <= gate.max_conns,
        gate.acquired(ip).max_per_ip > 0 ==> gate.acquired(ip).count(other) <= gate.max_per_ip,
{
    lemma_with_count(gate, ip, 0);
    lemma_same_address(ip, other);
}

proof fn lemma_same_address(a: PeerIp, b: PeerIp)
    ensures
        a matches PeerIp::V4(x) ==> b matches PeerIp::V4(y) ==> x.number() == y.number() ==> a == b,
{
    if let PeerIp::V4(x) = a {
        if let PeerIp::V4(y) = b {
            if x.number() == y.number() {
                crate::ipv4::lemma_number_is_injective(x, y);
            }
        }
    }
}

/// A connection that ends leaves the counts as they were before it was let in, so that
/// another can take its place.
pub proof fn law_release_undoes_acquire(gate: GateState, ip: PeerIp)
    requires
        gate.wf(),
        gate.total < usize::MAX,
    ensures
        gate.acquired(ip).released(ip) == gate,
{
    lemma_with_count(gate, ip, 0);
    let after = gate.acquired(ip).released(ip);
    assert(after.v4 =~= gate.v4);
    assert(after.v6 =~= gate.v6);
}

/// Connections of one address do not count for another.
pub proof fn law_addresses_are_counted_apart(gate: GateState, ip: PeerIp, other: PeerIp)
    requires
        gate.wf(),
        gate.total < usize::MAX,
        ip != other,
    ensures
        gate.acquired(ip).count(other) == gate.count(other),
        gate.acquired(ip).count(ip) == gate.count(ip) + 1,
{
    lemma_with_count(gate, ip, 0);
    lemma_same_address(ip, other);
}

/// Without limits everyone is let in.
pub proof fn law_zero_means_unlimited(gate: GateState, ip: PeerIp)
    requires
        gate.max_conns == 0,
        gate.max_per_ip == 0,
    ensures
        gate.admits(ip),
{
}

/// Who is let in: everyone for whom both limits, where there are any, leave at least one
/// connection; and nobody else.
pub proof fn law_admission(gate: GateState, ip: PeerIp)
    ensures
        (gate.max_conns == 0 || gate.total + 1 <= gate.max_conns) && (gate.max_per_ip == 0
            || gate.count(ip) + 1 <= gate.max_per_ip) ==> gate.admits(ip),
        gate.max_conns > 0 && gate.total >= gate.max_conns ==> !gate.admits(ip),
        gate.max_per_ip > 0 && gate.count(ip) >= gate.max_per_ip ==> !gate.admits(ip),
{
}

/// A connection that is let in is counted once, for all and for its address; the limits
/// stay.
pub proof fn law_connections_are_counted(gate: GateState, ip: PeerIp)
    requires
        gate.wf(),
        gate.total < usize::MAX,
    ensures
        gate.acquired(ip).total == gate.total + 1,
        gate.acquired(ip).count(ip) == gate.count(ip) + 1,
        gate.acquired(ip).max_conns == gate.max_conns,
        gate.acquired(ip).max_per_ip == gate.max_per_ip,
        gate.count(ip) > 0 ==> gate.released(ip).total == gate.total - 1 && gate.released(ip).count(
            ip,
        ) == gate.count(ip) - 1,
{
    lemma_with_count(gate, ip, 0);
}

/// A setting that holds a number stands for it, whatever white space is around it; one
/// that is not set, is blank or holds no number stands for the default.
pub proof fn law_settings_read(n: u64, default: u64, s: Seq<char>)
    ensures
        setting(None, default) == default,
        setting(Some(to_decimal(n as nat)), default) == n,
        setting(Some(seq![' '] + to_decimal(n as nat) + seq![' ']), default) == n,
        trim(s).len() == 0 ==> setting(Some(s), default) == default,
        trim(s).len() > 0 && trim(s)[0] != '+' && !(48 <= trim(s)[0] as u32 <= 57) ==> setting(
            Some(s),
            default,
        ) == default,
{
    let d = to_decimal(n as nat);
    law_unsigned_reads_digits(n as nat, u64::MAX as nat, trim(s), 0);
    law_decimal_digits(n as nat);
    lemma_digits_trim(n as nat);
    if trim(s).len() == 0 {
        assert(trim(s) =~= Seq::<char>::empty());
    }
}

proof fn lemma_digits_trim(n: nat)
    ensures
        trim(to_decimal(n)) == to_decimal(n),
        trim(seq![' '] + to_decimal(n) + seq![' ']) == to_decimal(n),
{
    let d = to_decimal(n);
    let none = Seq::<char>::empty();
    lemma_digit_ends(n);
    law_trim_cuts_white_space(none, d, none);
    assert(none + d + none =~= d);
    law_trim_cuts_white_space(seq![' '], d, seq![' ']);
}

proof fn lemma_digit_ends(n: nat)
    ensures
        to_decimal(n).len() > 0,
        !crate::text::is_space(to_decimal(n)[0]),
        !crate::text::is_space(to_decimal(n).last()),
{
    let d = to_decimal(n);
    law_decimal_digits(n);
    law_decimal_reads_back(n);
    assert(d.len() > 0);
    if !(48 <= d[0] as u32 <= 57) {
        law_digits_are_digits(n, d[0]);
        assert(d.contains(d[0]));
    }
}

/// What limits there are where nothing is set: 512 connections in all, 32 from one address,
/// no idle time and no number of bytes. A setting changes its own limit and no other.
pub proof fn law_each_setting_has_its_limit(
    conns: Option<Seq<char>>,
    per_ip: Option<Seq<char>>,
    idle: Option<Seq<char>>,
    bytes: Option<Seq<char>>,
    n: u32,
)
    ensures
        ({
            let none = Limits::of(None, None, None, None);
            none.max_conns == 512 && none.max_per_ip == 32 && none.idle_secs == 0
                && none.max_bytes == 0
        }),
        Limits::of(Some(to_decimal(n as nat)), per_ip, idle, bytes) == (Limits {
            max_conns: n as usize,
            ..Limits::of(conns, per_ip, idle, bytes)
        }),
        Limits::of(conns, Some(to_decimal(n as nat)), idle, bytes) == (Limits {
            max_per_ip: n as usize,
            ..Limits::of(conns, per_ip, idle, bytes)
        }),
        Limits::of(conns, per_ip, Some(to_decimal(n as nat)), bytes) == (Limits {
            idle_secs: n as u64,
            ..Limits::of(conns, per_ip, idle, bytes)
        }),
        Limits::of(conns, per_ip, idle, Some(to_decimal(n as nat))) == (Limits {
            max_bytes: n as u64,
            ..Limits::of(conns, per_ip, idle, bytes)
        }),
{
    law_settings_read(n as u64, 512, Seq::empty());
    law_settings_read(n as u64, 32, Seq::empty());
    law_settings_read(n as u64, 0, Seq::empty());
}

} // verus!
