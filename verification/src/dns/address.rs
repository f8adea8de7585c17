//! Host addresses as they stand in the data of address records.

use vstd::prelude::*;
use crate::dns::wire::u16_octets;

verus! {

/// An IPv4 address: its four octets in network order.
#[derive(Debug, Copy, Clone, PartialEq, Eq, Hash, PartialOrd, Ord)]
pub struct Ipv4Address {
    pub octets: [u8; 4],
}

impl Ipv4Address {
    /// The address `a.b.c.d`.
    pub fn new(a: u8, b: u8, c: u8, d: u8) -> (address: Ipv4Address)
        ensures
            address.octets@ == seq![a, b, c, d],
    {
        let address = Ipv4Address { octets: [a, b, c, d] };
        assert(address.octets@ =~= seq![a, b, c, d]);
        address
    }

    /// The four octets of the address, first octet first.
    pub fn octets(&self) -> (octets: [u8; 4])
        ensures
            octets == self.octets,
    {
        self.octets
    }

    /// The address as it stands in the data of an `A` record.
    pub open spec fn wire(self) -> Seq<u8> {
        self.octets@
    }
}

/// An IPv6 address: its eight 16-bit groups in network order.
#[derive(Debug, Copy, Clone, PartialEq, Eq, Hash, PartialOrd, Ord)]
pub struct Ipv6Address {
    pub segments: [u16; 8],
}

impl Ipv6Address {
    /// The address `a:b:c:d:e:f:g:h`.
    pub fn new(a: u16, b: u16, c: u16, d: u16, e: u16, f: u16, g: u16, h: u16) -> (address:
        Ipv6Address)
        ensures
            address.segments@ == seq![a, b, c, d, e, f, g, h],
    {
        let address = Ipv6Address { segments: [a, b, c, d, e, f, g, h] };
        assert(address.segments@ =~= seq![a, b, c, d, e, f, g, h]);
        address
    }

    /// The eight groups of the address, first group first.
    pub fn segments(&self) -> (segments: [u16; 8])
        ensures
            segments == self.segments,
    {
        self.segments
    }

    /// The octets of the first `count` groups, each group high octet first.
    pub open spec fn groups_wire(groups: Seq<u16>, count: int) -> Seq<u8>
        decreases count,
    {
        if count <= 0 {
            Seq::empty()
        } else {
            Self::groups_wire(groups, count - 1) + u16_octets(groups[count - 1])
        }
    }

    /// The address as it stands in the data of an `AAAA` record.
    pub open spec fn wire(self) -> Seq<u8> {
        Self::groups_wire(self.segments@, 8)
    }
}

} // verus!
