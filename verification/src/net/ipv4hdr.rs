//! The addresses of an IPv4 header.

use vstd::prelude::*;
use crate::mbuf::Mbuf;
use crate::net::wire::{
    be32,
    be32_bytes,
    ipv4_dst,
    ipv4_payload_offset,
    ipv4_src,
    is_ipv4,
    read_be32,
};

verus! {

/// The four octets of an IPv4 address held in host byte order, first on the
/// wire first.
pub open spec fn octets_of(ip: u32) -> Seq<u8> {
    be32_bytes(ip)
}

/// The address, in host byte order, that four octets stand for.
pub open spec fn ip_of(octets: Seq<u8>) -> u32 {
    be32(octets, 0)
}

/// Splits an address into its octets.
pub fn u32_to_octets(ip: u32) -> (o: [u8; 4])
    ensures
        o@ == octets_of(ip),
{
    let o: [u8; 4] = [
        (ip / 0x100_0000) as u8,
        (ip / 0x1_0000 % 256) as u8,
        (ip / 0x100 % 256) as u8,
        (ip % 256) as u8,
    ];
    assert(o@ =~= octets_of(ip));
    o
}

/// Joins four octets into an address.
pub fn octets_to_u32(o: &[u8; 4]) -> (ip: u32)
    ensures
        ip == ip_of(o@),
{
    (o[0] as u32) * 0x100_0000 + (o[1] as u32) * 0x1_0000 + (o[2] as u32) * 0x100 + (o[3] as u32)
}

/// Joining four octets and splitting the number gives the octets.
proof fn lemma_split_of_join(a: int, b: int, c: int, d: int)
    requires
        0 <= a < 256,
        0 <= b < 256,
        0 <= c < 256,
        0 <= d < 256,
    ensures
        (a * 0x100_0000 + b * 0x1_0000 + c * 0x100 + d) / 0x100_0000 == a,
        (a * 0x100_0000 + b * 0x1_0000 + c * 0x100 + d) / 0x1_0000 % 256 == b,
        (a * 0x100_0000 + b * 0x1_0000 + c * 0x100 + d) / 0x100 % 256 == c,
        (a * 0x100_0000 + b * 0x1_0000 + c * 0x100 + d) % 256 == d,
{
    let v = a * 0x100_0000 + b * 0x1_0000 + c * 0x100 + d;
    assert(v / 0x100_0000 == a);
    assert(v / 0x1_0000 == a * 256 + b);
    assert(v / 0x100 == a * 0x1_0000 + b * 256 + c);
}

/// Splitting an address and joining the octets gives the address, and the
/// other way round.
pub proof fn lemma_octets_round_trip(ip: u32, o: Seq<u8>)
    requires
        o.len() == 4,
    ensures
        ip_of(octets_of(ip)) == ip,
        octets_of(ip_of(o)) == o,
{
    lemma_split_of_join(o[0] as int, o[1] as int, o[2] as int, o[3] as int);
    assert(octets_of(ip_of(o)) =~= o);
}

/// The addresses of the IPv4 header of a frame, in host byte order.
#[derive(Debug, Clone, Copy, PartialEq, Eq, Structural)]
pub struct Ipv4Hdr {
    src_addr: u32,
    dst_addr: u32,
}

impl Ipv4Hdr {
    /// The source address.
    pub closed spec fn spec_src(&self) -> u32 {
        self.src_addr
    }

    /// The destination address.
    pub closed spec fn spec_dst(&self) -> u32 {
        self.dst_addr
    }

    /// Reads the IPv4 header of the frame in `buf`; `None` when the frame is
    /// not IPv4.
    pub fn from_mbuf(buf: &Mbuf) -> (r: Option<Self>)
        ensures
            r is Some <==> is_ipv4(buf@.data),
            r matches Some(h) ==> h.spec_src() == ipv4_src(buf@.data) && h.spec_dst() == ipv4_dst(
                buf@.data,
            ),
    {
        let data = buf.data_slice();
        match ipv4_payload_offset(data) {
            None => None,
            Some(_) => Some(
                Ipv4Hdr { src_addr: read_be32(data, 26), dst_addr: read_be32(data, 30) },
            ),
        }
    }

    /// The source address.
    pub fn get_src_addr(&self) -> (ip: u32)
        ensures
            ip == self.spec_src(),
    {
        self.src_addr
    }

    /// The destination address.
    pub fn get_dst_addr(&self) -> (ip: u32)
        ensures
            ip == self.spec_dst(),
    {
        self.dst_addr
    }
}

} // verus!
