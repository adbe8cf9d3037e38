//! IPv4 addresses.

use vstd::prelude::*;

verus! {

/// An IPv4 address, written `a.b.c.d`.
#[derive(Clone, Copy, Debug, PartialEq, Eq, Structural, Hash)]
pub struct Ipv4Addr {
    pub a: u8,
    pub b: u8,
    pub c: u8,
    pub d: u8,
}

impl Ipv4Addr {
    /// The four bytes, first one first.
    pub open spec fn bytes(self) -> Seq<u8> {
        seq![self.a, self.b, self.c, self.d]
    }

    /// The address as a number.
    pub open spec fn number(self) -> u32 {
        (self.a * 0x100_0000 + self.b * 0x1_0000 + self.c * 0x100 + self.d) as u32
    }

    pub fn new(a: u8, b: u8, c: u8, d: u8) -> (ip: Self)
        ensures
            ip == (Ipv4Addr { a, b, c, d }),
    {
        Ipv4Addr { a, b, c, d }
    }

    /// The address with these bytes.
    pub fn from_octets(octets: [u8; 4]) -> (ip: Self)
        ensures
            ip.bytes() == octets@,
    {
        let ip = Ipv4Addr { a: octets[0], b: octets[1], c: octets[2], d: octets[3] };
        assert(ip.bytes() == octets@);
        ip
    }

    /// The four bytes, first one first.
    pub fn octets(&self) -> (octets: [u8; 4])
        ensures
            octets@ == self.bytes(),
    {
        let octets: [u8; 4] = [self.a, self.b, self.c, self.d];
        assert(octets@ == self.bytes());
        octets
    }

    /// The address as a number.
    pub fn to_number(&self) -> (n: u32)
        ensures
            n == self.number(),
    {
        self.a as u32 * 0x100_0000 + self.b as u32 * 0x1_0000 + self.c as u32 * 0x100
            + self.d as u32
    }
}

/// Different addresses are different numbers.
pub proof fn lemma_number_is_injective(x: Ipv4Addr, y: Ipv4Addr)
    requires
        x.number() == y.number(),
    ensures
        x == y,
{
}

/// The number of an address has its four parts in order, the first one on top.
pub proof fn law_number_has_parts_in_order(ip: Ipv4Addr)
    ensures
        ip.number() / 0x100_0000 == ip.a,
        ip.number() / 0x1_0000 % 0x100 == ip.b,
        ip.number() / 0x100 % 0x100 == ip.c,
        ip.number() % 0x100 == ip.d,
        ip.bytes() == seq![ip.a, ip.b, ip.c, ip.d],
{
}

} // verus!
