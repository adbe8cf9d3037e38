//! The gateway's DNS service.
//!
//! Questions are answered from a cache that is filled from outside, for names
//! that the policy allows and addresses that are outside. The cache also knows
//! which name an address was given out for, which is what a connection to that
//! address is judged by: an address that was never given out cannot be reached.

use crate::allow::{globally_routable, host_permitted, is_globally_routable, permitted, Allowlist, Rule};
use crate::bytes::{be16_bytes, be_u16, copy_range, get_be_u16, put_be_u16, put_bytes, same_bytes};
use crate::dns::{build_response, parse_query, query_of, response_bytes, DnsAnswer, QueryView, QTYPE_A, QTYPE_AAAA};
use crate::ipv4::{lemma_number_is_injective, Ipv4Addr};
use crate::text::{chars_of, lower, lowered, same_chars, text_of};
use crate::util::{checksum, internet_checksum, with_checksum};
use std::collections::HashMap;
use vstd::prelude::*;

verus! {

broadcast use vstd::std_specs::hash::group_hash_axioms;

/// IPv4 in an Ethernet frame.
pub const ETH_IPV4: u16 = 0x0800;

/// UDP in an IPv4 packet.
pub const IP_PROTO_UDP: u8 = 17;

/// The DNS port.
pub const DNS_PORT: u16 = 53;

/// A name and the addresses that it was resolved to.
pub struct NameEntry {
    pub name: String,
    pub addrs: Vec<Ipv4Addr>,
}

/// The DNS service.
pub struct DnsForwarder {
    pub gw_ip: [u8; 4],
    pub gw_mac: [u8; 6],
    pub allow: Allowlist,
    pub by_name: Vec<NameEntry>,
    /// Name by number of address.
    pub by_ip: HashMap<u32, String>,
    /// Names that were asked for and are allowed but not cached.
    pub pending: Vec<String>,
}

/// The addresses cached for `name`.
pub open spec fn cached_in(entries: Seq<NameEntry>, name: Seq<char>) -> Seq<Ipv4Addr>
    decreases entries.len(),
{
    if entries.len() == 0 {
        Seq::empty()
    } else if entries[0].name@ == name {
        entries[0].addrs@
    } else {
        cached_in(entries.drop_first(), name)
    }
}

/// The addresses that may be given out.
pub open spec fn outside_of(addrs: Seq<Ipv4Addr>, gw_ip: Seq<u8>) -> Seq<Ipv4Addr>
    decreases addrs.len(),
{
    if addrs.len() == 0 {
        Seq::empty()
    } else {
        let before = outside_of(addrs.drop_last(), gw_ip);
        if globally_routable(addrs.last()) && addrs.last().bytes() != gw_ip {
            before.push(addrs.last())
        } else {
            before
        }
    }
}

/// The views of a list of texts.
pub open spec fn texts(v: Seq<String>) -> Seq<Seq<char>> {
    Seq::new(v.len(), |i: int| v[i]@)
}

/// A DNS query as it arrives in a frame.
#[verifier::ext_equal]
pub struct FrameView {
    pub guest_mac: Seq<u8>,
    pub guest_ip: Seq<u8>,
    pub src_port: u16,
    pub payload: Seq<u8>,
}

/// The query in `frame`, if it is a UDP packet to the DNS port of `gw_ip`.
pub open spec fn frame_query(frame: Seq<u8>, gw_ip: Seq<u8>) -> Option<FrameView> {
    let ihl = frame[14] as int % 16 * 4;
    let udp = 14 + ihl;
    let udp_len = be_u16(frame, udp + 4) as int;
    if frame.len() < 42 || be_u16(frame, 12) != ETH_IPV4 || ihl < 20 || frame.len() < udp + 8
        || frame[23] != IP_PROTO_UDP || frame.subrange(30, 34) != gw_ip || be_u16(frame, udp + 2)
        != DNS_PORT || udp_len < 8 || udp + udp_len > frame.len() {
        None
    } else {
        Some(
            FrameView {
                guest_mac: frame.subrange(6, 12),
                guest_ip: frame.subrange(26, 30),
                src_port: be_u16(frame, udp),
                payload: frame.subrange(udp + 8, udp + udp_len),
            },
        )
    }
}

/// An IPv4 header for `len` bytes of UDP, with a zero checksum.
pub open spec fn ip_header(src: Seq<u8>, dst: Seq<u8>, len: int) -> Seq<u8> {
    seq![0x45u8, 0x00] + be16_bytes(((20 + len) % 0x1_0000) as u16) + seq![
        0u8,
        0,
        0,
        0,
        64,
        IP_PROTO_UDP,
        0,
        0,
    ] + src + dst
}

/// The frame that carries a DNS answer to the guest. The UDP checksum is left out.
pub open spec fn reply_frame(
    gw_mac: Seq<u8>,
    gw_ip: Seq<u8>,
    guest: FrameView,
    answer: Seq<u8>,
) -> Seq<u8> {
    let udp_len = 8 + answer.len() as int;
    guest.guest_mac + gw_mac + be16_bytes(ETH_IPV4) + with_checksum(
        ip_header(gw_ip, guest.guest_ip, udp_len),
        10,
    ) + be16_bytes(DNS_PORT) + be16_bytes(guest.src_port) + be16_bytes(
        (udp_len % 0x1_0000) as u16,
    ) + seq![0u8, 0] + answer
}

impl DnsForwarder {
    /// The addresses cached for `name`.
    pub open spec fn cached(self, name: Seq<char>) -> Seq<Ipv4Addr> {
        cached_in(self.by_name@, name)
    }

    /// The name that `ip` was given out for.
    pub open spec fn name_of(self, ip: Ipv4Addr) -> Option<Seq<char>> {
        if self.by_ip@.contains_key(ip.number()) {
            Some(self.by_ip@[ip.number()]@)
        } else {
            None
        }
    }

    /// The policy.
    pub open spec fn rules(self) -> Seq<Rule> {
        self.allow@
    }

    /// The two forwarders are the same but for the cache.
    pub open spec fn same_setup(self, other: DnsForwarder) -> bool {
        self.gw_ip == other.gw_ip && self.gw_mac == other.gw_mac && self.allow == other.allow
    }

    /// The result code and the addresses with which a query is answered: cached
    /// addresses for an IPv4 question, none for an IPv6 question, and otherwise
    /// the name does not exist.
    pub open spec fn answer_to(self, query: QueryView) -> (int, Seq<Ipv4Addr>) {
        if query.qtype == QTYPE_AAAA {
            (0, Seq::empty())
        } else if query.qtype == QTYPE_A && self.cached(query.name).len() > 0 {
            (0, self.cached(query.name))
        } else {
            (3, Seq::empty())
        }
    }

    /// The answer to a message, if it holds a query.
    pub open spec fn response_to(self, payload: Seq<u8>) -> Option<Seq<u8>> {
        match query_of(payload) {
            Some(query) => {
                let (rcode, addrs) = self.answer_to(query);
                Some(response_bytes(query, rcode, addrs))
            },
            None => None,
        }
    }

    /// The name that a message makes it worth resolving: one asked for by address,
    /// allowed, and not cached.
    pub open spec fn wanted_by(self, payload: Seq<u8>) -> Option<Seq<char>> {
        match query_of(payload) {
            Some(query) => if query.qtype == QTYPE_A && self.cached(query.name).len() == 0
                && host_permitted(self.rules(), query.name) {
                Some(query.name)
            } else {
                None
            },
            None => None,
        }
    }

    /// Whether `after` is the forwarder after `name` was resolved to `addrs`, of which
    /// `n` were kept: those that are outside, if the policy allows the name. They
    /// are added to what is cached for the name, and given out for it.
    pub open spec fn resolved(
        self,
        name: Seq<char>,
        addrs: Seq<Ipv4Addr>,
        n: nat,
        after: DnsForwarder,
    ) -> bool {
        let kept = outside_of(addrs, self.gw_ip@);
        if host_permitted(self.rules(), name) {
            &&& after.same_setup(self)
            &&& after.pending == self.pending
            &&& n == kept.len()
            &&& forall|s: Seq<char>| #[trigger]
                after.cached(s) == (if s == lower(name) {
                    self.cached(s) + kept
                } else {
                    self.cached(s)
                })
            &&& forall|ip: Ipv4Addr| #[trigger]
                after.name_of(ip) == (if kept.contains(ip) {
                    Some(lower(name))
                } else {
                    self.name_of(ip)
                })
        } else {
            n == 0 && after == self
        }
    }

    /// A forwarder with an empty cache.
    pub fn new(gw_ip: [u8; 4], gw_mac: [u8; 6], allow: Allowlist) -> (f: Self)
        ensures
            f.gw_ip == gw_ip,
            f.gw_mac == gw_mac,
            f.allow == allow,
            forall|name: Seq<char>| f.cached(name).len() == 0,
            forall|ip: Ipv4Addr| f.name_of(ip) is None,
            texts(f.pending@).len() == 0,
            only_vetted(f),
    {
        DnsForwarder {
            gw_ip,
            gw_mac,
            allow,
            by_name: Vec::new(),
            by_ip: HashMap::new(),
            pending: Vec::new(),
        }
    }

    fn is_routable(&self, ip: Ipv4Addr) -> (b: bool)
        ensures
            b == (globally_routable(ip) && ip.bytes() != self.gw_ip@),
    {
        let octets: [u8; 4] = ip.octets();
        is_globally_routable(ip) && !same_bytes(&octets, &self.gw_ip)
    }

    fn find_name(&self, name: &[char]) -> (r: Option<usize>)
        ensures
            match r {
                Some(i) => i < self.by_name@.len() && self.by_name@[i as int].name@ == name@
                    && forall|j: int| 0 <= j < i ==> (#[trigger] self.by_name@[j]).name@ != name@,
                None => forall|j: int|
                    0 <= j < self.by_name@.len() ==> (#[trigger] self.by_name@[j]).name@ != name@,
            },
    {
        let mut i: usize = 0;
        while i < self.by_name.len()
            invariant
                i <= self.by_name@.len(),
                forall|j: int| 0 <= j < i ==> (#[trigger] self.by_name@[j]).name@ != name@,
            decreases self.by_name@.len() - i,
        {
            let chars: Vec<char> = chars_of(self.by_name[i].name.as_str());
            if same_chars(chars.as_slice(), name) {
                return Some(i);
            }
            i = i + 1;
        }
        None
    }

    /// Takes in what `name` was resolved to. Names that the policy does not allow
    /// and addresses that are not outside are dropped. Returns how many addresses
    /// were kept.
    pub fn cache_resolution(&mut self, name: &str, addrs: &[Ipv4Addr]) -> (n: usize)
        ensures
            only_vetted(*old(self)) ==> only_vetted(*final(self)),
            old(self).resolved(name@, addrs@, n as nat, *final(self)),
    {
        if !self.allow.permits_host(name) {
            return 0;
        }
        let raw: Vec<char> = chars_of(name);
        let lc: Vec<char> = lowered(raw.as_slice());
        let mut kept: Vec<Ipv4Addr> = Vec::new();
        let mut i: usize = 0;
        let ghost gw = self.gw_ip@;
        assert(addrs@.take(0).len() == 0);
        while i < addrs.len()
            invariant
                i <= addrs@.len(),
                *self == *old(self),
                gw == self.gw_ip@,
                kept@ == outside_of(addrs@.take(i as int), gw),
            decreases addrs@.len() - i,
        {
            assert(addrs@.take(i + 1).drop_last() == addrs@.take(i as int));
            assert(addrs@.take(i + 1).last() == addrs@[i as int]);
            if self.is_routable(addrs[i]) {
                kept.push(addrs[i]);
            }
            i = i + 1;
        }
        assert(addrs@.take(addrs@.len() as int) == addrs@);
        let mut k: usize = 0;
        while k < kept.len()
            invariant
                k <= kept@.len(),
                lc@ == lower(name@),
                self.same_setup(*old(self)),
                self.pending == old(self).pending,
                self.by_name == old(self).by_name,
                forall|ip: Ipv4Addr| #[trigger]
                    self.name_of(ip) == (if kept@.take(k as int).contains(ip) {
                        Some(lower(name@))
                    } else {
                        old(self).name_of(ip)
                    }),
            decreases kept@.len() - k,
        {
            let ip: Ipv4Addr = kept[k];
            let ghost before = *self;
            self.by_ip.insert(ip.to_number(), text_of(lc.as_slice()));
            assert forall|x: Ipv4Addr| #[trigger]
                self.name_of(x) == (if kept@.take(k + 1).contains(x) {
                    Some(lower(name@))
                } else {
                    old(self).name_of(x)
                }) by {
                let shorter = kept@.take(k as int);
                let longer = kept@.take(k + 1);
                assert(longer == shorter.push(ip));
                if x.number() == ip.number() {
                    lemma_number_is_injective(x, ip);
                    assert(longer[k as int] == ip);
                } else {
                    assert(self.name_of(x) == before.name_of(x));
                    if longer.contains(x) {
                        let j = choose|j: int| 0 <= j < longer.len() && longer[j] == x;
                        assert(shorter[j] == x);
                    }
                    if shorter.contains(x) {
                        let j = choose|j: int| 0 <= j < shorter.len() && shorter[j] == x;
                        assert(longer[j] == x);
                    }
                }
            }
            k = k + 1;
        }
        assert(kept@.take(kept@.len() as int) == kept@);
        let count: usize = kept.len();
        let ghost mid = *self;
        if count > 0 {
            match self.find_name(lc.as_slice()) {
                Some(at) => {
                    self.extend_entry(at, &kept);
                    assert forall|s: Seq<char>| #[trigger]
                        self.cached(s) == (if s == lower(name@) {
                            old(self).cached(s) + kept@
                        } else {
                            old(self).cached(s)
                        }) by {
                        lemma_cached_at(mid.by_name@, at as int, lc@);
                        lemma_cached_updated(mid.by_name@, at as int, self.by_name@[at as int], s);
                    }
                },
                None => {
                    let ghost new_addrs = kept@;
                    self.by_name.push(NameEntry { name: text_of(lc.as_slice()), addrs: kept });
                    assert forall|s: Seq<char>| #[trigger]
                        self.cached(s) == (if s == lower(name@) {
                            old(self).cached(s) + new_addrs
                        } else {
                            old(self).cached(s)
                        }) by {
                        lemma_cached_none(mid.by_name@, lc@);
                        lemma_cached_pushed(mid.by_name@, self.by_name@.last(), s);
                        assert(self.by_name@ == mid.by_name@.push(self.by_name@.last()));
                        assert(Seq::<Ipv4Addr>::empty() + new_addrs == new_addrs);
                    }
                },
            }
        } else {
            assert forall|s: Seq<char>| #[trigger]
                self.cached(s) == (if s == lower(name@) {
                    old(self).cached(s) + kept@
                } else {
                    old(self).cached(s)
                }) by {
                assert(old(self).cached(s) + kept@ == old(self).cached(s));
            }
        }
        assert(forall|ip: Ipv4Addr| #[trigger] self.name_of(ip) == mid.name_of(ip));
        proof {
            if only_vetted(*old(self)) {
                law_resolution_keeps_cache_vetted(*old(self), *self, name@, addrs@, count as nat);
            }
        }
        count
    }

    fn extend_entry(&mut self, at: usize, more: &Vec<Ipv4Addr>)
        requires
            at < old(self).by_name@.len(),
        ensures
            final(self).same_setup(*old(self)),
            final(self).pending == old(self).pending,
            final(self).by_ip == old(self).by_ip,
            final(self).by_name@.len() == old(self).by_name@.len(),
            forall|j: int|
                0 <= j < old(self).by_name@.len() && j != at ==> final(self).by_name@[j] == old(
                    self,
                ).by_name@[j],
            final(self).by_name@[at as int].name@ == old(self).by_name@[at as int].name@,
            final(self).by_name@[at as int].addrs@ == old(self).by_name@[at as int].addrs@
                + more@,
            final(self).by_name@ == old(self).by_name@.update(
                at as int,
                final(self).by_name@[at as int],
            ),
    {
        let name: String = text_of(chars_of(self.by_name[at].name.as_str()).as_slice());
        let mut addrs: Vec<Ipv4Addr> = copy_addrs(&self.by_name[at].addrs);
        let ghost was = addrs@;
        let mut i: usize = 0;
        while i < more.len()
            invariant
                i <= more@.len(),
                addrs@ == was + more@.take(i as int),
            decreases more@.len() - i,
        {
            addrs.push(more[i]);
            i = i + 1;
            assert(more@.take(i as int) == more@.take(i - 1).push(more@[i - 1]));
        }
        assert(more@.take(more@.len() as int) == more@);
        self.by_name[at] = NameEntry { name, addrs };
    }

    /// The name that `ip` was given out for.
    pub fn name_for_ip(&self, ip: Ipv4Addr) -> (name: Option<&str>)
        ensures
            match name {
                Some(s) => self.name_of(ip) == Some(s@),
                None => self.name_of(ip) is None,
            },
    {
        match self.by_ip.get(&ip.to_number()) {
            Some(name) => Some(name.as_str()),
            None => None,
        }
    }

    /// Whether the guest may connect to `ip` on `port`: the name that the address
    /// was given out for, if the policy allows it on that port.
    pub fn connection_permitted(&self, ip: Ipv4Addr, port: u16) -> (name: Option<String>)
        ensures
            match self.name_of(ip) {
                Some(s) => match name {
                    Some(n) => n@ == s && permitted(self.rules(), s, port),
                    None => !permitted(self.rules(), s, port),
                },
                None => name is None,
            },
    {
        match self.by_ip.get(&ip.to_number()) {
            Some(name) => if self.allow.permits(name.as_str(), port) {
                Some(name.clone())
            } else {
                None
            },
            None => None,
        }
    }

    /// The answer to a message, if it holds a query.
    pub fn respond_to_query(&self, payload: &[u8]) -> (r: Option<Vec<u8>>)
        ensures
            match r {
                Some(out) => self.response_to(payload@) == Some(out@),
                None => self.response_to(payload@) is None,
            },
    {
        match parse_query(payload) {
            None => None,
            Some(query) => {
                let answer: DnsAnswer = if query.qtype == QTYPE_AAAA {
                    DnsAnswer::Addrs(Vec::new())
                } else if query.qtype == QTYPE_A {
                    let chars: Vec<char> = chars_of(query.name.as_str());
                    match self.find_name(chars.as_slice()) {
                        Some(at) => {
                            proof {
                                lemma_cached_at(self.by_name@, at as int, query@.name);
                            }
                            if self.by_name[at].addrs.len() > 0 {
                                DnsAnswer::Addrs(copy_addrs(&self.by_name[at].addrs))
                            } else {
                                DnsAnswer::NxDomain
                            }
                        },
                        None => {
                            proof {
                                lemma_cached_none(self.by_name@, query@.name);
                            }
                            DnsAnswer::NxDomain
                        },
                    }
                } else {
                    DnsAnswer::NxDomain
                };
                Some(build_response(&query, answer))
            },
        }
    }

    /// Answers a message as `respond_to_query` does, and remembers an allowed name
    /// that could not be answered, so that it can be resolved.
    pub fn serve_query(&mut self, payload: &[u8]) -> (r: Option<Vec<u8>>)
        ensures
            match r {
                Some(out) => old(self).response_to(payload@) == Some(out@),
                None => old(self).response_to(payload@) is None,
            },
            final(self).same_setup(*old(self)),
            final(self).by_name == old(self).by_name,
            final(self).by_ip == old(self).by_ip,
            texts(final(self).pending@) == (match old(self).wanted_by(payload@) {
                Some(name) => if texts(old(self).pending@).contains(name) {
                    texts(old(self).pending@)
                } else {
                    texts(old(self).pending@).push(name)
                },
                None => texts(old(self).pending@),
            }),
    {
        if let Some(query) = parse_query(payload) {
            let chars: Vec<char> = chars_of(query.name.as_str());
            let cached = match self.find_name(chars.as_slice()) {
                Some(at) => {
                    proof {
                        lemma_cached_at(self.by_name@, at as int, query@.name);
                    }
                    self.by_name[at].addrs.len() > 0
                },
                None => {
                    proof {
                        lemma_cached_none(self.by_name@, query@.name);
                    }
                    false
                },
            };
            if query.qtype == QTYPE_A && !cached && self.allow.permits_host(query.name.as_str())
                && !self.is_pending(chars.as_slice()) {
                let ghost before = texts(self.pending@);
                self.pending.push(text_of(chars.as_slice()));
                assert(texts(self.pending@) == before.push(query@.name));
            }
        }
        self.respond_to_query(payload)
    }

    fn is_pending(&self, name: &[char]) -> (b: bool)
        ensures
            b == texts(self.pending@).contains(name@),
    {
        let mut i: usize = 0;
        while i < self.pending.len()
            invariant
                i <= self.pending@.len(),
                forall|j: int| 0 <= j < i ==> (#[trigger] self.pending@[j])@ != name@,
            decreases self.pending@.len() - i,
        {
            let chars: Vec<char> = chars_of(self.pending[i].as_str());
            if same_chars(chars.as_slice(), name) {
                assert(texts(self.pending@)[i as int] == name@);
                return true;
            }
            i = i + 1;
        }
        false
    }

    /// Hands out the names that wait to be resolved.
    pub fn take_pending(&mut self) -> (names: Vec<String>)
        ensures
            names == old(self).pending,
            final(self).pending@.len() == 0,
            final(self).same_setup(*old(self)),
            final(self).by_name == old(self).by_name,
            final(self).by_ip == old(self).by_ip,
    {
        let mut names: Vec<String> = Vec::new();
        std::mem::swap(&mut names, &mut self.pending);
        names
    }

    /// The frame that answers `frame`, if that is a DNS query to the gateway.
    pub fn handle_frame(&self, frame: &[u8]) -> (r: Option<Vec<u8>>)
        ensures
            match frame_query(frame@, self.gw_ip@) {
                None => r is None,
                Some(q) => match self.response_to(q.payload) {
                    None => r is None,
                    Some(answer) => match r {
                        Some(out) => out@ == reply_frame(self.gw_mac@, self.gw_ip@, q, answer),
                        None => false,
                    },
                },
            },
    {
        match self.parse_dns_query_frame(frame) {
            None => None,
            Some(q) => match self.respond_to_query(q.payload.as_slice()) {
                None => None,
                Some(answer) => Some(
                    self.build_udp_frame(
                        q.guest_mac.as_slice(),
                        q.guest_ip.as_slice(),
                        q.src_port,
                        answer.as_slice(),
                    ),
                ),
            },
        }
    }

    fn parse_dns_query_frame(&self, frame: &[u8]) -> (r: Option<DnsQueryFrame>)
        ensures
            match r {
                Some(q) => frame_query(frame@, self.gw_ip@) == Some(q@),
                None => frame_query(frame@, self.gw_ip@) is None,
            },
    {
        let n: usize = frame.len();
        if n < 42 || get_be_u16(frame, 12) != ETH_IPV4 {
            return None;
        }
        let ihl: usize = (frame[14] % 16) as usize * 4;
        let udp: usize = 14 + ihl;
        if ihl < 20 || n < udp + 8 {
            return None;
        }
        let dst: Vec<u8> = copy_range(frame, 30, 34);
        if frame[23] != IP_PROTO_UDP || !same_bytes(dst.as_slice(), &self.gw_ip) {
            return None;
        }
        if get_be_u16(frame, udp + 2) != DNS_PORT {
            return None;
        }
        let udp_len: usize = get_be_u16(frame, udp + 4) as usize;
        if udp_len < 8 || udp_len > n - udp {
            return None;
        }
        Some(
            DnsQueryFrame {
                guest_mac: copy_range(frame, 6, 12),
                guest_ip: copy_range(frame, 26, 30),
                src_port: get_be_u16(frame, udp),
                payload: copy_range(frame, udp + 8, udp + udp_len),
            },
        )
    }

    fn build_udp_frame(
        &self,
        guest_mac: &[u8],
        guest_ip: &[u8],
        guest_port: u16,
        dns_resp: &[u8],
    ) -> (f: Vec<u8>)
        requires
            guest_ip@.len() == 4,
        ensures
            f@ == reply_frame(
                self.gw_mac@,
                self.gw_ip@,
                (FrameView {
                    guest_mac: guest_mac@,
                    guest_ip: guest_ip@,
                    src_port: guest_port,
                    payload: Seq::empty(),
                }),
                dns_resp@,
            ),
    {
        let udp_len: u128 = 8 + dns_resp.len() as u128;
        let mut header: Vec<u8> = Vec::new();
        header.push(0x45);
        header.push(0x00);
        put_be_u16(&mut header, ((20 + udp_len) % 0x1_0000) as u16);
        header.push(0);
        header.push(0);
        header.push(0);
        header.push(0);
        header.push(64);
        header.push(IP_PROTO_UDP);
        header.push(0);
        header.push(0);
        put_bytes(&mut header, &self.gw_ip);
        put_bytes(&mut header, guest_ip);
        assert(header@ == ip_header(self.gw_ip@, guest_ip@, udp_len as int));
        let ck: u16 = internet_checksum(header.as_slice());
        header[10] = (ck / 0x100) as u8;
        header[11] = (ck % 0x100) as u8;
        let mut f: Vec<u8> = Vec::new();
        put_bytes(&mut f, guest_mac);
        put_bytes(&mut f, &self.gw_mac);
        put_be_u16(&mut f, ETH_IPV4);
        put_bytes(&mut f, header.as_slice());
        put_be_u16(&mut f, DNS_PORT);
        put_be_u16(&mut f, guest_port);
        put_be_u16(&mut f, (udp_len % 0x1_0000) as u16);
        f.push(0);
        f.push(0);
        put_bytes(&mut f, dns_resp);
        f
    }
}

/// A DNS query as it arrived in a frame.
pub struct DnsQueryFrame {
    pub guest_mac: Vec<u8>,
    pub guest_ip: Vec<u8>,
    pub src_port: u16,
    pub payload: Vec<u8>,
}

impl View for DnsQueryFrame {
    type V = FrameView;

    open spec fn view(&self) -> FrameView {
        FrameView {
            guest_mac: self.guest_mac@,
            guest_ip: self.guest_ip@,
            src_port: self.src_port,
            payload: self.payload@,
        }
    }
}

fn copy_addrs(addrs: &Vec<Ipv4Addr>) -> (out: Vec<Ipv4Addr>)
    ensures
        out@ == addrs@,
{
    let mut out: Vec<Ipv4Addr> = Vec::new();
    let mut i: usize = 0;
    while i < addrs.len()
        invariant
            i <= addrs@.len(),
            out@ == addrs@.take(i as int),
        decreases addrs@.len() - i,
    {
        out.push(addrs[i]);
        i = i + 1;
        assert(addrs@.take(i as int) == addrs@.take(i - 1).push(addrs@[i - 1]));
    }
    assert(addrs@.take(addrs@.len() as int) == addrs@);
    out
}

proof fn lemma_cached_at(entries: Seq<NameEntry>, at: int, name: Seq<char>)
    requires
        0 <= at < entries.len(),
        entries[at].name@ == name,
        forall|j: int| 0 <= j < at ==> (#[trigger] entries[j]).name@ != name,
    ensures
        cached_in(entries, name) == entries[at].addrs@,
    decreases entries.len(),
{
    if at > 0 {
        assert(entries[0].name@ != name);
        let rest = entries.drop_first();
        assert forall|j: int| 0 <= j < at - 1 implies (#[trigger] rest[j]).name@ != name by {
            assert(entries[j + 1].name@ != name);
        }
        lemma_cached_at(rest, at - 1, name);
    }
}

proof fn lemma_cached_none(entries: Seq<NameEntry>, name: Seq<char>)
    requires
        forall|j: int| 0 <= j < entries.len() ==> (#[trigger] entries[j]).name@ != name,
    ensures
        cached_in(entries, name) == Seq::<Ipv4Addr>::empty(),
    decreases entries.len(),
{
    if entries.len() > 0 {
        let rest = entries.drop_first();
        assert(entries[0].name@ != name);
        assert forall|j: int| 0 <= j < rest.len() implies (#[trigger] rest[j]).name@ != name by {
            assert(entries[j + 1].name@ != name);
        }
        lemma_cached_none(rest, name);
    }
}

proof fn lemma_cached_updated(entries: Seq<NameEntry>, at: int, entry: NameEntry, name: Seq<char>)
    requires
        0 <= at < entries.len(),
        entry.name@ == entries[at].name@,
        forall|j: int| 0 <= j < at ==> (#[trigger] entries[j]).name@ != entry.name@,
    ensures
        cached_in(entries.update(at, entry), name) == (if name == entry.name@ {
            entry.addrs@
        } else {
            cached_in(entries, name)
        }),
    decreases entries.len(),
{
    let changed = entries.update(at, entry);
    let rest = entries.drop_first();
    if at == 0 {
        assert(changed.drop_first() == rest);
    } else {
        assert(entries[0].name@ != entry.name@);
        assert(changed.drop_first() == rest.update(at - 1, entry));
        assert forall|j: int| 0 <= j < at - 1 implies (#[trigger] rest[j]).name@ != entry.name@ by {
            assert(entries[j + 1].name@ != entry.name@);
        }
        lemma_cached_updated(rest, at - 1, entry, name);
    }
}

proof fn lemma_cached_pushed(entries: Seq<NameEntry>, entry: NameEntry, name: Seq<char>)
    requires
        forall|j: int| 0 <= j < entries.len() ==> (#[trigger] entries[j]).name@ != entry.name@,
    ensures
        cached_in(entries.push(entry), name) == (if name == entry.name@ {
            entry.addrs@
        } else {
            cached_in(entries, name)
        }),
    decreases entries.len(),
{
    let longer = entries.push(entry);
    if entries.len() == 0 {
        assert(longer.drop_first() == entries);
    } else {
        assert(entries[0].name@ != entry.name@);
        let rest = entries.drop_first();
        assert(longer.drop_first() == rest.push(entry));
        assert forall|j: int| 0 <= j < rest.len() implies (#[trigger] rest[j]).name@
            != entry.name@ by {
            assert(entries[j + 1].name@ != entry.name@);
        }
        lemma_cached_pushed(rest, entry, name);
    }
}

/// What is kept of a resolution is exactly the addresses that are outside and not
/// the gateway itself.
pub proof fn law_only_outside_addresses_are_kept(
    addrs: Seq<Ipv4Addr>,
    gw_ip: Seq<u8>,
    ip: Ipv4Addr,
)
    ensures
        outside_of(addrs, gw_ip).contains(ip) <==> addrs.contains(ip) && globally_routable(ip)
            && ip.bytes() != gw_ip,
    decreases addrs.len(),
{
    if addrs.len() > 0 {
        let shorter = addrs.drop_last();
        let last = addrs.last();
        law_only_outside_addresses_are_kept(shorter, gw_ip, ip);
        let before = outside_of(shorter, gw_ip);
        assert(addrs == shorter.push(last));
        assert(addrs.contains(ip) <==> shorter.contains(ip) || ip == last) by {
            lemma_push_contains(shorter, last, ip);
        }
        lemma_push_contains(before, last, ip);
    }
}

proof fn lemma_push_contains(s: Seq<Ipv4Addr>, x: Ipv4Addr, ip: Ipv4Addr)
    ensures
        s.push(x).contains(ip) <==> s.contains(ip) || ip == x,
{
    if s.contains(ip) {
        let j = choose|j: int| 0 <= j < s.len() && s[j] == ip;
        assert(s.push(x)[j] == ip);
    }
    if ip == x {
        assert(s.push(x)[s.len() as int] == ip);
    }
    if s.push(x).contains(ip) {
        let j = choose|j: int| 0 <= j < s.push(x).len() && s.push(x)[j] == ip;
        if j < s.len() {
            assert(s[j] == ip);
        }
    }
}

/// An address that was given out is outside, and the policy allows its name.
pub open spec fn vetted(f: DnsForwarder, ip: Ipv4Addr) -> bool {
    f.name_of(ip) matches Some(name) ==> globally_routable(ip) && ip.bytes() != f.gw_ip@
        && host_permitted(f.rules(), name)
}

/// Every address that was given out is outside, and the policy allows its name.
pub open spec fn only_vetted(f: DnsForwarder) -> bool {
    forall|ip: Ipv4Addr| #[trigger] vetted(f, ip)
}

/// A forwarder that has given out vetted addresses only still has after a
/// resolution.
pub proof fn law_resolution_keeps_cache_vetted(
    before: DnsForwarder,
    after: DnsForwarder,
    name: Seq<char>,
    addrs: Seq<Ipv4Addr>,
    n: nat,
)
    requires
        only_vetted(before),
        before.resolved(name, addrs, n, after),
    ensures
        only_vetted(after),
{
    assert(lower(lower(name)) == lower(name)) by {
        assert forall|i: int| 0 <= i < name.len() implies lower(lower(name))[i]
            == lower(name)[i] by {}
    }
    crate::allow::law_host_case_is_ignored(before.rules(), name, lower(name), 0);
    assert forall|ip: Ipv4Addr| host_permitted(before.rules(), name) implies #[trigger] vetted(
        after,
        ip,
    ) by {
        law_only_outside_addresses_are_kept(addrs, before.gw_ip@, ip);
        assert(vetted(before, ip));
        assert(after.name_of(ip) == (if outside_of(addrs, before.gw_ip@).contains(ip) {
            Some(lower(name))
        } else {
            before.name_of(ip)
        }));
    }
}

/// A connection is permitted only to an outside address that was given out for a
/// name that the policy allows on that port; an address that was never given out is
/// never permitted.
pub proof fn law_connections_go_to_vetted_addresses(f: DnsForwarder, ip: Ipv4Addr, port: u16)
    requires
        only_vetted(f),
        f.name_of(ip) matches Some(name) && permitted(f.rules(), name, port),
    ensures
        globally_routable(ip),
        ip.bytes() != f.gw_ip@,
{
    assert(vetted(f, ip));
}

/// The IPv4 header of a reply is valid: summed with its checksum it gives zero.
pub proof fn law_reply_header_is_valid(
    gw_mac: Seq<u8>,
    gw_ip: Seq<u8>,
    guest: FrameView,
    answer: Seq<u8>,
)
    requires
        gw_mac.len() == 6,
        gw_ip.len() == 4,
        guest.guest_mac.len() == 6,
        guest.guest_ip.len() == 4,
    ensures
        checksum(reply_frame(gw_mac, gw_ip, guest, answer).subrange(14, 34)) == 0,
        reply_frame(gw_mac, gw_ip, guest, answer).subrange(0, 6) == guest.guest_mac,
        reply_frame(gw_mac, gw_ip, guest, answer).subrange(6, 12) == gw_mac,
        be_u16(reply_frame(gw_mac, gw_ip, guest, answer), 36) == guest.src_port,
        reply_frame(gw_mac, gw_ip, guest, answer).skip(42) == answer,
{
    let udp_len = 8 + answer.len() as int;
    let header = ip_header(gw_ip, guest.guest_ip, udp_len);
    let f = reply_frame(gw_mac, gw_ip, guest, answer);
    let sealed = with_checksum(header, 10);
    assert(header.len() == 20 && header[10] == 0 && header[11] == 0);
    crate::util::law_valid_packet_sums_to_zero(header, 10);
    lemma_reply_layout(gw_mac, guest, sealed, udp_len, answer);
    reveal(reply_parts);
    assert(f == reply_parts(gw_mac, guest, sealed, udp_len, answer));
}

#[verifier::opaque]
spec fn reply_parts(
    gw_mac: Seq<u8>,
    guest: FrameView,
    header: Seq<u8>,
    udp_len: int,
    answer: Seq<u8>,
) -> Seq<u8> {
    guest.guest_mac + gw_mac + be16_bytes(ETH_IPV4) + header + be16_bytes(DNS_PORT) + be16_bytes(
        guest.src_port,
    ) + be16_bytes((udp_len % 0x1_0000) as u16) + seq![0u8, 0] + answer
}

proof fn lemma_reply_layout(
    gw_mac: Seq<u8>,
    guest: FrameView,
    header: Seq<u8>,
    udp_len: int,
    answer: Seq<u8>,
)
    requires
        gw_mac.len() == 6,
        guest.guest_mac.len() == 6,
        header.len() == 20,
    ensures
        ({
            let f = reply_parts(gw_mac, guest, header, udp_len, answer);
            &&& f.subrange(14, 34) == header
            &&& f.subrange(0, 6) == guest.guest_mac
            &&& f.subrange(6, 12) == gw_mac
            &&& be_u16(f, 36) == guest.src_port
            &&& f.skip(42) == answer
        }),
{
    reveal(reply_parts);
    let f = reply_parts(gw_mac, guest, header, udp_len, answer);
    assert(f.subrange(14, 34) == header);
    assert(f.subrange(0, 6) == guest.guest_mac);
    assert(f.subrange(6, 12) == gw_mac);
    assert(f[36] == be16_bytes(guest.src_port)[0]);
    assert(f[37] == be16_bytes(guest.src_port)[1]);
    assert(f.skip(42) == answer);
}

/// A UDP packet to the DNS port of the gateway is read as what it says: who sent it, from
/// which port, and the bytes that its length field covers.
pub proof fn law_query_frame_is_read(frame: Seq<u8>, gw_ip: Seq<u8>, h: int, n: int, s: u16)
    requires
        20 <= h <= 60,
        h % 4 == 0,
        0 <= n <= 0xFFF7,
        frame.len() >= 14 + h + 8 + n,
        frame[12] == 8 && frame[13] == 0,
        frame[14] % 16 == h / 4,
        frame[23] == 17,
        frame.subrange(30, 34) == gw_ip,
        256 * frame[14 + h] + frame[14 + h + 1] == s,
        256 * frame[14 + h + 2] + frame[14 + h + 3] == 53,
        256 * frame[14 + h + 4] + frame[14 + h + 5] == 8 + n,
    ensures
        frame_query(frame, gw_ip) == Some(
            FrameView {
                guest_mac: frame.subrange(6, 12),
                guest_ip: frame.subrange(26, 30),
                src_port: s,
                payload: frame.subrange(14 + h + 8, 14 + h + 8 + n),
            },
        ),
{
    assert(frame[14] % 16 * 4 == h);
}

/// What is no UDP packet to the DNS port of the gateway is no query: a frame of another
/// kind, a packet of another protocol, to another address or to another port, and one
/// whose length field covers less than its own header or more than there is.
pub proof fn law_other_frames_are_no_queries(frame: Seq<u8>, gw_ip: Seq<u8>)
    requires
        frame.len() < 42 || frame[12] != 8 || frame[13] != 0 || frame[23] != 17 || frame[14] % 16
            < 5 || frame.subrange(30, 34) != gw_ip || ({
            let at = 14 + 4 * (frame[14] % 16);
            let len = 256 * frame[at + 4] + frame[at + 5];
            ||| frame.len() < at + 8
            ||| 256 * frame[at + 2] + frame[at + 3] != 53
            ||| len < 8
            ||| frame.len() < at + len
        }),
    ensures
        frame_query(frame, gw_ip) is None,
{
}

/// The reply to a query frame goes back to where that came from: Ethernet and IPv4
/// addresses and ports are those of the query exchanged, it is a UDP packet in an IPv4
/// packet without options, the length fields cover it to its end, and behind its headers
/// stands the answer.
pub proof fn law_reply_exchanges_endpoints(
    gw_mac: Seq<u8>,
    gw_ip: Seq<u8>,
    frame: Seq<u8>,
    q: FrameView,
    answer: Seq<u8>,
)
    requires
        gw_mac.len() == 6,
        gw_ip.len() == 4,
        frame_query(frame, gw_ip) == Some(q),
        answer.len() <= 0xFFE3,
    ensures
        ({
            let r = reply_frame(gw_mac, gw_ip, q, answer);
            let at = 14 + 4 * (frame[14] % 16);
            &&& r.len() == 42 + answer.len()
            &&& r.subrange(0, 6) == frame.subrange(6, 12)
            &&& r.subrange(6, 12) == gw_mac
            &&& r[12] == 8 && r[13] == 0
            &&& r[14] == 0x45
            &&& 256 * r[16] + r[17] == r.len() - 14
            &&& r[23] == 17
            &&& r.subrange(26, 30) == gw_ip
            &&& r.subrange(30, 34) == frame.subrange(26, 30)
            &&& 256 * r[34] + r[35] == 53
            &&& r[36] == frame[at] && r[37] == frame[at + 1]
            &&& 256 * r[38] + r[39] == r.len() - 34
            &&& r[40] == 0 && r[41] == 0
            &&& r.skip(42) == answer
        }),
{
    lemma_reply_fields(gw_mac, gw_ip, q, answer);
    let at = 14 + 4 * (frame[14] % 16);
    assert(q.src_port == 256 * frame[at] + frame[at + 1]);
}

proof fn lemma_reply_fields(gw_mac: Seq<u8>, gw_ip: Seq<u8>, q: FrameView, answer: Seq<u8>)
    requires
        gw_mac.len() == 6,
        gw_ip.len() == 4,
        q.guest_mac.len() == 6,
        q.guest_ip.len() == 4,
        answer.len() <= 0xFFE3,
    ensures
        ({
            let r = reply_frame(gw_mac, gw_ip, q, answer);
            &&& r.len() == 42 + answer.len()
            &&& r.subrange(0, 6) == q.guest_mac
            &&& r.subrange(6, 12) == gw_mac
            &&& r[12] == 8 && r[13] == 0
            &&& r[14] == 0x45
            &&& 256 * r[16] + r[17] == r.len() - 14
            &&& r[23] == 17
            &&& r.subrange(26, 30) == gw_ip
            &&& r.subrange(30, 34) == q.guest_ip
            &&& 256 * r[34] + r[35] == 53
            &&& 256 * r[36] + r[37] == q.src_port
            &&& 256 * r[38] + r[39] == r.len() - 34
            &&& r[40] == 0 && r[41] == 0
            &&& r.skip(42) == answer
        }),
{
    let udp_len = 8 + answer.len() as int;
    let sealed = with_checksum(ip_header(gw_ip, q.guest_ip, udp_len), 10);
    lemma_sealed_header(gw_ip, q.guest_ip, udp_len);
    let r = reply_parts(gw_mac, q, sealed, udp_len, answer);
    assert(reply_frame(gw_mac, gw_ip, q, answer) == r) by {
        reveal(reply_parts);
    }
    lemma_reply_layout(gw_mac, q, sealed, udp_len, answer);
    lemma_reply_ports(gw_mac, q, sealed, udp_len, answer);
    lemma_header_in_frame(r, sealed);
}

proof fn lemma_header_in_frame(r: Seq<u8>, header: Seq<u8>)
    requires
        r.len() >= 34,
        header.len() == 20,
        r.subrange(14, 34) == header,
    ensures
        r[14] == header[0],
        r[16] == header[2],
        r[17] == header[3],
        r[23] == header[9],
        r.subrange(26, 30) == header.subrange(12, 16),
        r.subrange(30, 34) == header.subrange(16, 20),
{
    let t = r.subrange(14, 34);
    assert(t[0] == r[14] && t[2] == r[16] && t[3] == r[17] && t[9] == r[23]);
    assert(r.subrange(26, 30) =~= t.subrange(12, 16));
    assert(r.subrange(30, 34) =~= t.subrange(16, 20));
}

proof fn lemma_sealed_header(src: Seq<u8>, dst: Seq<u8>, len: int)
    requires
        src.len() == 4,
        dst.len() == 4,
        8 <= len <= 0xFFEB,
    ensures
        ({
            let s = with_checksum(ip_header(src, dst, len), 10);
            &&& s.len() == 20
            &&& s[0] == 0x45
            &&& 256 * s[2] + s[3] == 20 + len
            &&& s[9] == 17
            &&& s.subrange(12, 16) == src
            &&& s.subrange(16, 20) == dst
        }),
{
    let h = ip_header(src, dst, len);
    let s = with_checksum(h, 10);
    let total = be16_bytes((20 + len) as u16);
    assert(h[2] == total[0] && h[3] == total[1]);
    assert(s.subrange(12, 16) =~= src);
    assert(s.subrange(16, 20) =~= dst);
}

proof fn lemma_reply_ports(
    gw_mac: Seq<u8>,
    guest: FrameView,
    header: Seq<u8>,
    udp_len: int,
    answer: Seq<u8>,
)
    requires
        gw_mac.len() == 6,
        guest.guest_mac.len() == 6,
        header.len() == 20,
        8 <= udp_len < 0x1_0000,
    ensures
        ({
            let f = reply_parts(gw_mac, guest, header, udp_len, answer);
            &&& f.len() == 42 + answer.len()
            &&& f[12] == 8 && f[13] == 0
            &&& 256 * f[34] + f[35] == 53
            &&& 256 * f[36] + f[37] == guest.src_port
            &&& 256 * f[38] + f[39] == udp_len
            &&& f[40] == 0 && f[41] == 0
        }),
{
    reveal(reply_parts);
    let f = reply_parts(gw_mac, guest, header, udp_len, answer);
    assert(f[12] == be16_bytes(ETH_IPV4)[0] && f[13] == be16_bytes(ETH_IPV4)[1]);
    assert(f[34] == be16_bytes(DNS_PORT)[0] && f[35] == be16_bytes(DNS_PORT)[1]);
    assert(f[36] == be16_bytes(guest.src_port)[0] && f[37] == be16_bytes(guest.src_port)[1]);
    assert(f[38] == be16_bytes(udp_len as u16)[0] && f[39] == be16_bytes(udp_len as u16)[1]);
}

/// What a query is answered: the cached addresses of the name, all of them and in order,
/// to a question for IPv4 addresses; no addresses, but no error, to one for IPv6
/// addresses; and that the name does not exist, which is result code 3, to anything else.
pub proof fn law_answers_follow_the_cache(f: DnsForwarder, payload: Seq<u8>, q: QueryView)
    requires
        query_of(payload) == Some(q),
    ensures
        q.qtype == 28 ==> f.response_to(payload) == Some(response_bytes(q, 0, Seq::empty())),
        q.qtype == 1 && f.cached(q.name).len() > 0 ==> f.response_to(payload) == Some(
            response_bytes(q, 0, f.cached(q.name)),
        ),
        q.qtype == 1 && f.cached(q.name).len() == 0 ==> f.response_to(payload) == Some(
            response_bytes(q, 3, Seq::empty()),
        ),
        q.qtype != 1 && q.qtype != 28 ==> f.response_to(payload) == Some(
            response_bytes(q, 3, Seq::empty()),
        ),
        f.wanted_by(payload) == (if q.qtype == 1 && f.cached(q.name).len() == 0 && host_permitted(
            f.rules(),
            q.name,
        ) {
            Some(q.name)
        } else {
            None
        }),
{
}

/// What was resolved is answered: an outside address that a permitted name was resolved
/// to is, from then on, among the addresses of that name in lower case, and is known to
/// have been given out for it; nothing is kept for a name that is not permitted.
pub proof fn law_resolution_is_answered(
    before: DnsForwarder,
    after: DnsForwarder,
    name: Seq<char>,
    addrs: Seq<Ipv4Addr>,
    n: nat,
    ip: Ipv4Addr,
)
    requires
        before.resolved(name, addrs, n, after),
    ensures
        host_permitted(before.rules(), name) && addrs.contains(ip) && globally_routable(ip)
            && ip.bytes() != before.gw_ip@ ==> {
            &&& after.cached(lower(name)).contains(ip)
            &&& after.name_of(ip) == Some(lower(name))
            &&& n > 0
        },
        host_permitted(before.rules(), name) && !(addrs.contains(ip) && globally_routable(ip)
            && ip.bytes() != before.gw_ip@) ==> after.name_of(ip) == before.name_of(ip),
        !host_permitted(before.rules(), name) ==> after == before && n == 0,
{
    if host_permitted(before.rules(), name) {
        let kept = outside_of(addrs, before.gw_ip@);
        law_only_outside_addresses_are_kept(addrs, before.gw_ip@, ip);
        assert(after.cached(lower(name)) == before.cached(lower(name)) + kept);
        if kept.contains(ip) {
            let j = choose|j: int| 0 <= j < kept.len() && kept[j] == ip;
            assert((before.cached(lower(name)) + kept)[before.cached(lower(name)).len() + j] == ip);
        }
        assert(after.name_of(ip) == (if kept.contains(ip) {
            Some(lower(name))
        } else {
            before.name_of(ip)
        }));
    }
}

/// Two forwarders are set up alike exactly if they have the same addresses and policy.
pub proof fn law_same_setup(a: DnsForwarder, b: DnsForwarder)
    ensures
        a.same_setup(b) ==> a.gw_ip == b.gw_ip && a.gw_mac == b.gw_mac && a.allow == b.allow,
        a.same_setup(a),
{
}

} // verus!
