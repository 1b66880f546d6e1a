//! Hardware addresses.

use vstd::prelude::*;
use smoltcp::wire::EthernetAddress;

verus! {

/// `smoltcp::wire::EthernetAddress`, as a type that can stand in signatures.
/// Nothing is known of what is inside but through [`ethernet_octets`].
#[verifier::external_type_specification]
#[verifier::external_body]
pub struct ExEthernetAddress(EthernetAddress);

/// The six octets that an `EthernetAddress` holds, in the order in which
/// they go on the wire.
pub uninterp spec fn ethernet_octets(a: EthernetAddress) -> Seq<u8>;

/// `smoltcp::wire::EthernetAddress::from_bytes`. Claimed: the address built
/// holds the six bytes given, in their order. The function panics on any
/// other length, which the precondition rules out.
#[verifier::external_body]
fn ethernet_from_bytes(data: &[u8]) -> (a: EthernetAddress)
    requires
        data@.len() == 6,
    ensures
        ethernet_octets(a) == data@,
{
    EthernetAddress::from_bytes(data)
}

/// A hardware address as the driver holds it.
#[derive(Debug, Clone, Copy, PartialEq, Eq)]
pub struct EtherAddr {
    /// The six octets, first on the wire first.
    pub addr_bytes: [u8; 6],
}

/// An Ethernet hardware address.
#[derive(Debug, Clone, Copy, PartialEq, Eq)]
pub struct MacAddr(pub [u8; 6]);

impl View for MacAddr {
    type V = Seq<u8>;

    open spec fn view(&self) -> Seq<u8> {
        self.0@
    }
}

impl MacAddr {
    /// The address as the driver holds it.
    #[inline]
    pub fn into_ether_addr(mac: Self) -> (e: EtherAddr)
        ensures
            e.addr_bytes == mac.0,
    {
        EtherAddr { addr_bytes: mac.0 }
    }

    /// The address that the driver holds.
    #[inline]
    pub fn from_ether_addr(mac: EtherAddr) -> (m: Self)
        ensures
            m.0 == mac.addr_bytes,
    {
        MacAddr(mac.addr_bytes)
    }

    /// The same address for the TCP/IP stack.
    pub fn to_ethernetaddr(&self) -> (e: EthernetAddress)
        ensures
            ethernet_octets(e) == self@,
    {
        ethernet_from_bytes(self.0.as_slice())
    }

    /// Whether two addresses have the same octets.
    pub fn same(&self, other: &MacAddr) -> (eq: bool)
        ensures
            eq == (self@ == other@),
    {
        let mut i: usize = 0;
        while i < 6
            invariant
                i <= 6,
                forall|j: int| 0 <= j < i ==> self@[j] == other@[j],
            decreases 6 - i,
        {
            if self.0[i] != other.0[i] {
                return false;
            }
            i = i + 1;
        }
        assert(self@ =~= other@);
        true
    }
}

/// The hardware address that arrived: each octet is taken as it stands, since
/// a single octet has no byte order.
pub fn parse_mac(mac: [u8; 6]) -> (r: [u8; 6])
    ensures
        r@ == mac@,
{
    let mut te_mac: [u8; 6] = [0u8; 6];
    let mut i: usize = 0;
    while i < 6
        invariant
            i <= 6,
            forall|j: int| 0 <= j < i ==> te_mac@[j] == mac@[j],
        decreases 6 - i,
    {
        te_mac[i] = mac[i];
        i = i + 1;
    }
    assert(te_mac@ =~= mac@);
    te_mac
}

} // verus!
