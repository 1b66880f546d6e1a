//! The layout of Ethernet, ARP, IPv4, ICMP and TCP on the wire, as functions
//! on the bytes of a frame. Addresses and ports come out in host byte order.

use vstd::prelude::*;
use crate::net::checksum::{checksum, internet_checksum};
use crate::net::mac::MacAddr;

verus! {

/// Length of an Ethernet header.
pub const ETHER_HDR_LEN: usize = 14;

/// EtherType of IPv4.
pub const ETHERTYPE_IPV4: u16 = 0x0800;

/// EtherType of ARP.
pub const ETHERTYPE_ARP: u16 = 0x0806;

/// Length of an ARP frame for IPv4 over Ethernet, header included.
pub const ARP_FRAME_LEN: usize = 42;

/// ARP operation: request.
pub const ARP_REQUEST: u16 = 1;

/// ARP operation: reply.
pub const ARP_REPLY: u16 = 2;

/// IPv4 protocol number of ICMP.
pub const IPPROTO_ICMP: u8 = 1;

/// IPv4 protocol number of TCP.
pub const IPPROTO_TCP: u8 = 6;

/// ICMP type of an echo request.
pub const ICMP_ECHO_REQUEST: u8 = 8;

/// ICMP type of an echo reply.
pub const ICMP_ECHO_REPLY: u8 = 0;

/// The 16-bit big-endian number at `at`.
pub open spec fn be16(s: Seq<u8>, at: int) -> u16 {
    (s[at] as int * 256 + s[at + 1] as int) as u16
}

/// The 32-bit big-endian number at `at`.
pub open spec fn be32(s: Seq<u8>, at: int) -> u32 {
    (s[at] as int * 0x100_0000 + s[at + 1] as int * 0x1_0000 + s[at + 2] as int * 0x100 + s[at
        + 3] as int) as u32
}

/// The two bytes of `v`, high byte first.
pub open spec fn be16_bytes(v: u16) -> Seq<u8> {
    seq![(v / 256) as u8, (v % 256) as u8]
}

/// The four bytes of `v`, high byte first.
pub open spec fn be32_bytes(v: u32) -> Seq<u8> {
    seq![
        (v / 0x100_0000) as u8,
        (v / 0x1_0000 % 256) as u8,
        (v / 0x100 % 256) as u8,
        (v % 256) as u8,
    ]
}

/// Reads the 16-bit big-endian number at `at`.
pub fn read_be16(data: &[u8], at: usize) -> (v: u16)
    requires
        at + 2 <= data@.len(),
    ensures
        v == be16(data@, at as int),
{
    (data[at] as u16) * 256 + (data[at + 1] as u16)
}

/// Reads the 32-bit big-endian number at `at`.
pub fn read_be32(data: &[u8], at: usize) -> (v: u32)
    requires
        at + 4 <= data@.len(),
    ensures
        v == be32(data@, at as int),
{
    (data[at] as u32) * 0x100_0000 + (data[at + 1] as u32) * 0x1_0000 + (data[at + 2] as u32)
        * 0x100 + (data[at + 3] as u32)
}

/// Appends the two bytes of `v`, high byte first.
pub fn push_be16(out: &mut Vec<u8>, v: u16)
    ensures
        final(out)@ == old(out)@ + be16_bytes(v),
{
    out.push((v / 256) as u8);
    out.push((v % 256) as u8);
    assert(out@ =~= old(out)@ + be16_bytes(v));
}

/// Appends the four bytes of `v`, high byte first.
pub fn push_be32(out: &mut Vec<u8>, v: u32)
    ensures
        final(out)@ == old(out)@ + be32_bytes(v),
{
    out.push((v / 0x100_0000) as u8);
    out.push((v / 0x1_0000 % 256) as u8);
    out.push((v / 0x100 % 256) as u8);
    out.push((v % 256) as u8);
    assert(out@ =~= old(out)@ + be32_bytes(v));
}

/// Appends the bytes at `[from, to)` of `src`.
pub fn push_range(out: &mut Vec<u8>, src: &[u8], from: usize, to: usize)
    requires
        from <= to <= src@.len(),
    ensures
        final(out)@ == old(out)@ + src@.subrange(from as int, to as int),
{
    let mut i: usize = from;
    while i < to
        invariant
            from <= i <= to,
            to <= src@.len(),
            out@ == old(out)@ + src@.subrange(from as int, i as int),
        decreases to - i,
    {
        out.push(src[i]);
        i = i + 1;
        assert(out@ =~= old(out)@ + src@.subrange(from as int, i as int));
    }
    assert(src@.subrange(from as int, from as int) =~= Seq::empty());
}

/// Reading back the bytes of a 16-bit number gives the number.
pub proof fn lemma_be16_round_trip(v: u16)
    ensures
        be16(be16_bytes(v), 0) == v,
{
}

/// Reading back the bytes of a 32-bit number gives the number.
pub proof fn lemma_be32_round_trip(v: u32)
    ensures
        be32(be32_bytes(v), 0) == v,
{
}

/// The hardware address at `at`.
pub fn read_mac(data: &[u8], at: usize) -> (m: MacAddr)
    requires
        at + 6 <= data@.len(),
    ensures
        m@ == data@.subrange(at as int, at + 6),
{
    let m = MacAddr(
        [data[at], data[at + 1], data[at + 2], data[at + 3], data[at + 4], data[at + 5]],
    );
    assert(m@ =~= data@.subrange(at as int, at + 6));
    m
}

/// The EtherType of a frame, if the frame holds an Ethernet header.
pub open spec fn ethertype(frame: Seq<u8>) -> Option<u16> {
    if frame.len() >= ETHER_HDR_LEN {
        Some(be16(frame, 12))
    } else {
        None
    }
}

/// Reads the EtherType of a frame.
pub fn ether_type(data: &[u8]) -> (t: Option<u16>)
    ensures
        t == ethertype(data@),
{
    if data.len() >= ETHER_HDR_LEN {
        Some(read_be16(data, 12))
    } else {
        None
    }
}

/// Whether a frame is ARP: its EtherType says so, and it is long enough to
/// hold an ARP packet for IPv4 over Ethernet.
pub open spec fn is_arp(frame: Seq<u8>) -> bool {
    frame.len() >= ARP_FRAME_LEN && be16(frame, 12) == ETHERTYPE_ARP
}

/// Decides [`is_arp`].
pub fn arp_frame(data: &[u8]) -> (yes: bool)
    ensures
        yes == is_arp(data@),
{
    data.len() >= ARP_FRAME_LEN && read_be16(data, 12) == ETHERTYPE_ARP
}

/// The operation of an ARP frame.
pub open spec fn arp_oper(frame: Seq<u8>) -> u16 {
    be16(frame, 20)
}

/// The sender's hardware address in an ARP frame.
pub open spec fn arp_sha(frame: Seq<u8>) -> Seq<u8> {
    frame.subrange(22, 28)
}

/// The sender's protocol address in an ARP frame.
pub open spec fn arp_spa(frame: Seq<u8>) -> u32 {
    be32(frame, 28)
}

/// The target's hardware address in an ARP frame.
pub open spec fn arp_tha(frame: Seq<u8>) -> Seq<u8> {
    frame.subrange(32, 38)
}

/// The target's protocol address in an ARP frame.
pub open spec fn arp_tpa(frame: Seq<u8>) -> u32 {
    be32(frame, 38)
}

/// The destination hardware address of a frame.
pub open spec fn ether_dst(frame: Seq<u8>) -> Seq<u8> {
    frame.subrange(0, 6)
}

/// The source hardware address of a frame.
pub open spec fn ether_src(frame: Seq<u8>) -> Seq<u8> {
    frame.subrange(6, 12)
}

/// The fixed fields of an ARP packet for IPv4 over Ethernet that answers:
/// EtherType ARP, hardware type Ethernet, protocol type IPv4, address lengths
/// six and four, operation reply.
pub open spec fn arp_reply_fixed() -> Seq<u8> {
    seq![0x08u8, 0x06u8, 0x00u8, 0x01u8, 0x08u8, 0x00u8, 0x06u8, 0x04u8, 0x00u8, 0x02u8]
}

/// The reply to the ARP frame `req`, sent for the local binding of `ip` to
/// `mac`: the frame goes back to where the request came from, the sender is
/// the local binding, and the target is the request's sender.
pub open spec fn arp_reply(req: Seq<u8>, mac: Seq<u8>, ip: u32) -> Seq<u8> {
    ether_src(req) + ether_dst(req) + arp_reply_fixed() + mac + be32_bytes(ip) + arp_sha(req)
        + req.subrange(28, 32)
}

/// Builds the reply to an ARP frame; `None` for a frame that is not ARP.
pub fn build_arp_reply(req: &[u8], mac: &MacAddr, ip: u32) -> (r: Option<Vec<u8>>)
    ensures
        r is Some <==> is_arp(req@),
        r matches Some(out) ==> out@ == arp_reply(req@, mac@, ip) && out@.len() == ARP_FRAME_LEN,
{
    if !arp_frame(req) {
        return None;
    }
    let mut out: Vec<u8> = Vec::new();
    push_range(&mut out, req, 6, 12);
    push_range(&mut out, req, 0, 6);
    push_be16(&mut out, ETHERTYPE_ARP);
    push_be16(&mut out, 1);
    push_be16(&mut out, ETHERTYPE_IPV4);
    out.push(6);
    out.push(4);
    push_be16(&mut out, ARP_REPLY);
    assert(out@ =~= ether_src(req@) + ether_dst(req@) + arp_reply_fixed());
    push_range(&mut out, mac.0.as_slice(), 0, 6);
    assert(mac.0@.subrange(0, 6) =~= mac@);
    push_be32(&mut out, ip);
    push_range(&mut out, req, 22, 28);
    push_range(&mut out, req, 28, 32);
    Some(out)
}

/// What the reply to an ARP frame holds: it is an ARP frame whose operation
/// is "reply", the Ethernet source and destination of the request have
/// changed places, the sender is the local binding, and the target is the
/// sender of the request.
pub proof fn lemma_arp_reply_fields(req: Seq<u8>, mac: Seq<u8>, ip: u32)
    requires
        is_arp(req),
        mac.len() == 6,
    ensures
        is_arp(arp_reply(req, mac, ip)),
        arp_reply(req, mac, ip).len() == ARP_FRAME_LEN,
        arp_oper(arp_reply(req, mac, ip)) == ARP_REPLY,
        ether_dst(arp_reply(req, mac, ip)) == ether_src(req),
        ether_src(arp_reply(req, mac, ip)) == ether_dst(req),
        arp_sha(arp_reply(req, mac, ip)) == mac,
        arp_spa(arp_reply(req, mac, ip)) == ip,
        arp_tha(arp_reply(req, mac, ip)) == arp_sha(req),
        arp_tpa(arp_reply(req, mac, ip)) == arp_spa(req),
{
    let r = arp_reply(req, mac, ip);
    assert(r.len() == 42);
    assert(ether_dst(r) =~= ether_src(req));
    assert(ether_src(r) =~= ether_dst(req));
    assert(arp_sha(r) =~= mac);
    assert(arp_tha(r) =~= arp_sha(req));
    let b = be32_bytes(ip);
    assert(r[28] == b[0] && r[29] == b[1] && r[30] == b[2] && r[31] == b[3]);
    lemma_be32_round_trip(ip);
    assert(r[38] == req[28] && r[39] == req[29] && r[40] == req[30] && r[41] == req[31]);
    assert(r[12] == 0x08 && r[13] == 0x06 && r[20] == 0 && r[21] == 2);
}

/// The length of the IPv4 header of a frame, in bytes.
pub open spec fn ipv4_ihl(frame: Seq<u8>) -> int {
    (frame[14] % 16) as int * 4
}

/// Whether a frame is IPv4: its EtherType says so, the version is 4, and the
/// header, of twenty bytes at least, lies within the frame.
pub open spec fn is_ipv4(frame: Seq<u8>) -> bool {
    &&& frame.len() >= ETHER_HDR_LEN + 20
    &&& be16(frame, 12) == ETHERTYPE_IPV4
    &&& frame[14] / 16 == 4
    &&& ipv4_ihl(frame) >= 20
    &&& frame.len() >= ETHER_HDR_LEN + ipv4_ihl(frame)
}

/// The total length that the IPv4 header of a frame states.
pub open spec fn ipv4_total_len(frame: Seq<u8>) -> int {
    be16(frame, 16) as int
}

/// The protocol that the IPv4 header of a frame states.
pub open spec fn ipv4_proto(frame: Seq<u8>) -> u8 {
    frame[23]
}

/// The source address of an IPv4 frame.
pub open spec fn ipv4_src(frame: Seq<u8>) -> u32 {
    be32(frame, 26)
}

/// The destination address of an IPv4 frame.
pub open spec fn ipv4_dst(frame: Seq<u8>) -> u32 {
    be32(frame, 30)
}

/// Where the payload of an IPv4 frame starts.
pub open spec fn l4_offset(frame: Seq<u8>) -> int {
    ETHER_HDR_LEN + ipv4_ihl(frame)
}

/// Returns where the payload of an IPv4 frame starts, or `None` for a frame
/// that is not IPv4.
pub fn ipv4_payload_offset(data: &[u8]) -> (r: Option<usize>)
    ensures
        r is Some <==> is_ipv4(data@),
        r matches Some(at) ==> at == l4_offset(data@) && at <= data@.len() && at >= 34,
{
    if data.len() < ETHER_HDR_LEN + 20 {
        return None;
    }
    if read_be16(data, 12) != ETHERTYPE_IPV4 {
        return None;
    }
    if data[14] / 16 != 4 {
        return None;
    }
    let ihl: usize = (data[14] % 16) as usize * 4;
    if ihl < 20 || data.len() < ETHER_HDR_LEN + ihl {
        return None;
    }
    Some(ETHER_HDR_LEN + ihl)
}

/// Whether a frame is an ICMPv4 echo request: IPv4 with protocol ICMP, a
/// total length that holds the ICMP header and lies within the frame, type 8
/// and code 0.
pub open spec fn is_echo_request(frame: Seq<u8>) -> bool {
    &&& is_ipv4(frame)
    &&& ipv4_proto(frame) == IPPROTO_ICMP
    &&& ipv4_total_len(frame) >= ipv4_ihl(frame) + 8
    &&& ETHER_HDR_LEN + ipv4_total_len(frame) <= frame.len()
    &&& frame[l4_offset(frame)] == ICMP_ECHO_REQUEST
    &&& frame[l4_offset(frame) + 1] == 0
}

/// Decides [`is_echo_request`].
pub fn echo_request(data: &[u8]) -> (yes: bool)
    ensures
        yes == is_echo_request(data@),
{
    match ipv4_payload_offset(data) {
        None => false,
        Some(at) => {
            let total: usize = read_be16(data, 16) as usize;
            data[23] == IPPROTO_ICMP && total >= (at - ETHER_HDR_LEN) + 8 && ETHER_HDR_LEN + total
                <= data.len() && data[at] == ICMP_ECHO_REQUEST && data[at + 1] == 0
        },
    }
}

/// Where the IPv4 packet of a frame ends.
pub open spec fn ipv4_end(frame: Seq<u8>) -> int {
    ETHER_HDR_LEN + ipv4_total_len(frame)
}

/// The ICMP message of an echo reply before its checksum is filled in: type
/// and code zero, checksum zero, and the rest of the request's message.
pub open spec fn echo_reply_unsummed(frame: Seq<u8>) -> Seq<u8> {
    seq![0u8, 0u8, 0u8, 0u8] + frame.subrange(l4_offset(frame) + 4, ipv4_end(frame))
}

/// The echo reply to the echo request `frame`: hardware addresses and IPv4
/// addresses have changed places, the ICMP type is "echo reply", and the ICMP
/// checksum is computed anew. All else, padding after the packet included,
/// is that of the request.
pub open spec fn echo_reply(frame: Seq<u8>) -> Seq<u8> {
    ether_src(frame) + ether_dst(frame) + frame.subrange(12, 26) + frame.subrange(30, 34)
        + frame.subrange(26, 30) + frame.subrange(34, l4_offset(frame)) + seq![0u8, 0u8]
        + be16_bytes(internet_checksum(echo_reply_unsummed(frame))) + frame.subrange(
        l4_offset(frame) + 4,
        ipv4_end(frame),
    ) + frame.subrange(ipv4_end(frame), frame.len() as int)
}

/// Builds the reply to an echo request; `None` for a frame that is none.
pub fn build_echo_reply(req: &[u8]) -> (r: Option<Vec<u8>>)
    ensures
        r is Some <==> is_echo_request(req@),
        r matches Some(out) ==> out@ == echo_reply(req@) && out@.len() == req@.len(),
{
    if !echo_request(req) {
        return None;
    }
    let at: usize = ETHER_HDR_LEN + (req[14] % 16) as usize * 4;
    let end: usize = ETHER_HDR_LEN + read_be16(req, 16) as usize;
    let mut body: Vec<u8> = Vec::new();
    body.push(0);
    body.push(0);
    body.push(0);
    body.push(0);
    assert(body@ =~= seq![0u8, 0u8, 0u8, 0u8]);
    push_range(&mut body, req, at + 4, end);
    let c: u16 = checksum(body.as_slice());
    let mut out: Vec<u8> = Vec::new();
    push_range(&mut out, req, 6, 12);
    push_range(&mut out, req, 0, 6);
    push_range(&mut out, req, 12, 26);
    push_range(&mut out, req, 30, 34);
    push_range(&mut out, req, 26, 30);
    push_range(&mut out, req, 34, at);
    let ghost head = out@;
    out.push(ICMP_ECHO_REPLY);
    out.push(0);
    assert(out@ =~= head + seq![0u8, 0u8]);
    push_be16(&mut out, c);
    push_range(&mut out, req, at + 4, end);
    push_range(&mut out, req, end, req.len());
    Some(out)
}

/// What the reply to an echo request holds: it is as long as the request,
/// hardware and IPv4 addresses have changed places, type and code are zero,
/// and the checksum is that of the ICMP message with a zero checksum field.
pub proof fn lemma_echo_reply_fields(frame: Seq<u8>)
    requires
        is_echo_request(frame),
    ensures
        echo_reply(frame).len() == frame.len(),
        ether_dst(echo_reply(frame)) == ether_src(frame),
        ether_src(echo_reply(frame)) == ether_dst(frame),
        ipv4_src(echo_reply(frame)) == ipv4_dst(frame),
        ipv4_dst(echo_reply(frame)) == ipv4_src(frame),
        is_ipv4(echo_reply(frame)),
        l4_offset(echo_reply(frame)) == l4_offset(frame),
        echo_reply(frame)[l4_offset(frame)] == ICMP_ECHO_REPLY,
        echo_reply(frame)[l4_offset(frame) + 1] == 0,
        be16(echo_reply(frame), l4_offset(frame) + 2) == internet_checksum(
            echo_reply_unsummed(frame),
        ),
{
    let r = echo_reply(frame);
    let at = l4_offset(frame);
    let c = internet_checksum(echo_reply_unsummed(frame));
    assert(r.len() == frame.len());
    assert(ether_dst(r) =~= ether_src(frame));
    assert(ether_src(r) =~= ether_dst(frame));
    assert forall|i: int| 12 <= i < 26 implies r[i] == frame[i] by {}
    assert(r[26] == frame[30] && r[27] == frame[31] && r[28] == frame[32] && r[29] == frame[33]);
    assert(r[30] == frame[26] && r[31] == frame[27] && r[32] == frame[28] && r[33] == frame[29]);
    assert(r[at] == 0 && r[at + 1] == 0);
    assert(r[at + 2] == be16_bytes(c)[0] && r[at + 3] == be16_bytes(c)[1]);
    lemma_be16_round_trip(c);
}

/// Length of a TCP header without options.
pub const TCP_HDR_LEN: usize = 20;

/// Whether a frame is TCP over IPv4 and holds a whole TCP header.
pub open spec fn is_tcp(frame: Seq<u8>) -> bool {
    &&& is_ipv4(frame)
    &&& ipv4_proto(frame) == IPPROTO_TCP
    &&& frame.len() >= l4_offset(frame) + TCP_HDR_LEN
}

/// Returns where the TCP header of a frame starts, or `None` for a frame
/// that is not TCP.
pub fn tcp_offset(data: &[u8]) -> (r: Option<usize>)
    ensures
        r is Some <==> is_tcp(data@),
        r matches Some(at) ==> at == l4_offset(data@) && at + TCP_HDR_LEN <= data@.len() && at
            >= 34,
{
    match ipv4_payload_offset(data) {
        None => None,
        Some(at) => {
            if data[23] == IPPROTO_TCP && data.len() - at >= TCP_HDR_LEN {
                Some(at)
            } else {
                None
            }
        },
    }
}

} // verus!
