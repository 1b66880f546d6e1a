//! Connections: the identity of a TCP connection as read from a frame, its
//! 24-byte encoding, its hash, and the table of connection states.

use vstd::prelude::*;
use std::collections::hash_map::DefaultHasher;
use std::collections::HashMap;
use std::hash::Hasher;
use vstd::std_specs::hash::DefaultHasherAdditionalSpecFns;
use crate::mbuf::Mbuf;
use crate::net::ipv4hdr::{octets_of, u32_to_octets};
use crate::net::wire::{
    be16,
    be32,
    ether_dst,
    ether_src,
    ipv4_dst,
    ipv4_src,
    is_tcp,
    l4_offset,
    push_range,
    read_be16,
    read_be32,
    read_mac,
    tcp_offset,
};

verus! {

/// Length of an encoded connection identity.
pub const MBUF_BIN_SZ: usize = 24;

/// The state of a TCP connection as the last packet showed it.
#[derive(Debug, Clone, Copy, PartialEq, Eq, Structural)]
pub struct ConnState {
    /// The receive window.
    pub rx_win: u16,
    /// The sequence number.
    pub seq_num: u32,
    /// The acknowledgement number.
    pub ack_num: u32,
}

/// What identifies a connection: addresses, ports and hardware addresses of
/// both ends. Addresses and ports are in host byte order.
#[derive(Debug, Clone, Copy, PartialEq, Eq)]
pub struct ConnIdentity {
    dst_ip: u32,
    dst_mac: [u8; 6],
    dst_port: u16,
    src_ip: u32,
    src_mac: [u8; 6],
    src_port: u16,
}

/// The two bytes of `v`, low byte first.
pub open spec fn le16_bytes(v: u16) -> Seq<u8> {
    seq![(v % 256) as u8, (v / 256) as u8]
}

/// The 16-bit little-endian number at `at`.
pub open spec fn le16(s: Seq<u8>, at: int) -> u16 {
    (s[at] as int + s[at + 1] as int * 256) as u16
}

/// What a connection identity is, as far as contracts are concerned.
pub struct ConnView {
    /// The destination address.
    pub dst_ip: u32,
    /// The destination hardware address.
    pub dst_mac: Seq<u8>,
    /// The destination port.
    pub dst_port: u16,
    /// The source address.
    pub src_ip: u32,
    /// The source hardware address.
    pub src_mac: Seq<u8>,
    /// The source port.
    pub src_port: u16,
}

impl ConnView {
    /// The hardware addresses have six octets each.
    pub open spec fn wf(self) -> bool {
        self.dst_mac.len() == 6 && self.src_mac.len() == 6
    }

    /// The encoding of an identity: destination address, destination
    /// hardware address, destination port, then the same of the source.
    /// Addresses go first octet first, ports low byte first.
    pub open spec fn bytes(self) -> Seq<u8> {
        octets_of(self.dst_ip) + self.dst_mac + le16_bytes(self.dst_port) + octets_of(self.src_ip)
            + self.src_mac + le16_bytes(self.src_port)
    }
}

/// The identity that 24 bytes encode.
pub open spec fn conn_of_bytes(b: Seq<u8>) -> ConnView {
    ConnView {
        dst_ip: be32(b, 0),
        dst_mac: b.subrange(4, 10),
        dst_port: le16(b, 10),
        src_ip: be32(b, 12),
        src_mac: b.subrange(16, 22),
        src_port: le16(b, 22),
    }
}

/// The identity of the connection that a TCP frame belongs to.
pub open spec fn conn_of_frame(frame: Seq<u8>) -> ConnView {
    ConnView {
        dst_ip: ipv4_dst(frame),
        dst_mac: ether_dst(frame),
        dst_port: be16(frame, l4_offset(frame) + 2),
        src_ip: ipv4_src(frame),
        src_mac: ether_src(frame),
        src_port: be16(frame, l4_offset(frame)),
    }
}

/// The state of the connection as a TCP frame shows it.
pub open spec fn state_of_frame(frame: Seq<u8>) -> ConnState {
    ConnState {
        rx_win: be16(frame, l4_offset(frame) + 14),
        seq_num: be32(frame, l4_offset(frame) + 4),
        ack_num: be32(frame, l4_offset(frame) + 8),
    }
}

/// Encoding an identity and decoding the bytes gives the identity, and
/// decoding 24 bytes and encoding the identity gives the bytes.
pub proof fn lemma_conn_round_trip(c: ConnView, b: Seq<u8>)
    requires
        c.wf(),
        b.len() == MBUF_BIN_SZ,
    ensures
        c.bytes().len() == MBUF_BIN_SZ,
        conn_of_bytes(c.bytes()) == c,
        conn_of_bytes(b).wf(),
        conn_of_bytes(b).bytes() == b,
{
    let e = c.bytes();
    assert(e.len() == 24);
    crate::net::ipv4hdr::lemma_octets_round_trip(c.dst_ip, octets_of(c.dst_ip));
    crate::net::ipv4hdr::lemma_octets_round_trip(c.src_ip, octets_of(c.src_ip));
    assert(e[0] == octets_of(c.dst_ip)[0] && e[1] == octets_of(c.dst_ip)[1] && e[2] == octets_of(
        c.dst_ip,
    )[2] && e[3] == octets_of(c.dst_ip)[3]);
    assert(e[12] == octets_of(c.src_ip)[0] && e[13] == octets_of(c.src_ip)[1] && e[14]
        == octets_of(c.src_ip)[2] && e[15] == octets_of(c.src_ip)[3]);
    assert(e[10] == le16_bytes(c.dst_port)[0] && e[11] == le16_bytes(c.dst_port)[1]);
    assert(e[22] == le16_bytes(c.src_port)[0] && e[23] == le16_bytes(c.src_port)[1]);
    assert(e.subrange(4, 10) =~= c.dst_mac);
    assert(e.subrange(16, 22) =~= c.src_mac);
    let d = conn_of_bytes(b);
    crate::net::ipv4hdr::lemma_octets_round_trip(0, b.subrange(0, 4));
    crate::net::ipv4hdr::lemma_octets_round_trip(0, b.subrange(12, 16));
    assert(octets_of(d.dst_ip) =~= b.subrange(0, 4));
    assert(octets_of(d.src_ip) =~= b.subrange(12, 16));
    assert(le16_bytes(d.dst_port) =~= b.subrange(10, 12));
    assert(le16_bytes(d.src_port) =~= b.subrange(22, 24));
    assert(d.bytes() =~= b);
}

impl View for ConnIdentity {
    type V = ConnView;

    closed spec fn view(&self) -> ConnView {
        ConnView {
            dst_ip: self.dst_ip,
            dst_mac: self.dst_mac@,
            dst_port: self.dst_port,
            src_ip: self.src_ip,
            src_mac: self.src_mac@,
            src_port: self.src_port,
        }
    }
}

impl ConnIdentity {
    /// An identity from its parts.
    pub fn new(
        dst_ip: u32,
        dst_mac: [u8; 6],
        dst_port: u16,
        src_ip: u32,
        src_mac: [u8; 6],
        src_port: u16,
    ) -> (c: Self)
        ensures
            c@ == (ConnView {
                dst_ip,
                dst_mac: dst_mac@,
                dst_port,
                src_ip,
                src_mac: src_mac@,
                src_port,
            }),
            c@.wf(),
    {
        Self { dst_ip, dst_mac, dst_port, src_ip, src_mac, src_port }
    }

    /// The destination address.
    pub fn dst_ip(&self) -> (v: u32)
        ensures
            v == self@.dst_ip,
    {
        self.dst_ip
    }

    /// The source address.
    pub fn src_ip(&self) -> (v: u32)
        ensures
            v == self@.src_ip,
    {
        self.src_ip
    }

    /// The destination port.
    pub fn dst_port(&self) -> (v: u16)
        ensures
            v == self@.dst_port,
    {
        self.dst_port
    }

    /// The source port.
    pub fn src_port(&self) -> (v: u16)
        ensures
            v == self@.src_port,
    {
        self.src_port
    }

    /// The destination hardware address.
    pub fn dst_mac(&self) -> (v: [u8; 6])
        ensures
            v@ == self@.dst_mac,
    {
        self.dst_mac
    }

    /// The source hardware address.
    pub fn src_mac(&self) -> (v: [u8; 6])
        ensures
            v@ == self@.src_mac,
    {
        self.src_mac
    }

    /// Encodes the identity in 24 bytes.
    pub fn to_bytes(&self) -> (out: Vec<u8>)
        ensures
            out@ == self@.bytes(),
            out@.len() == MBUF_BIN_SZ,
    {
        let mut out: Vec<u8> = Vec::new();
        let d = u32_to_octets(self.dst_ip);
        push_range(&mut out, d.as_slice(), 0, 4);
        assert(d@.subrange(0, 4) =~= d@);
        push_range(&mut out, self.dst_mac.as_slice(), 0, 6);
        assert(self.dst_mac@.subrange(0, 6) =~= self.dst_mac@);
        out.push((self.dst_port % 256) as u8);
        out.push((self.dst_port / 256) as u8);
        assert(out@ =~= octets_of(self.dst_ip) + self.dst_mac@ + le16_bytes(self.dst_port));
        let s = u32_to_octets(self.src_ip);
        push_range(&mut out, s.as_slice(), 0, 4);
        assert(s@.subrange(0, 4) =~= s@);
        push_range(&mut out, self.src_mac.as_slice(), 0, 6);
        assert(self.src_mac@.subrange(0, 6) =~= self.src_mac@);
        let ghost head = out@;
        out.push((self.src_port % 256) as u8);
        out.push((self.src_port / 256) as u8);
        assert(out@ =~= head + le16_bytes(self.src_port));
        out
    }

    /// Decodes an identity from its 24 bytes.
    pub fn from_bytes(bytes: &[u8; 24]) -> (c: Self)
        ensures
            c@ == conn_of_bytes(bytes@),
            c@.wf(),
    {
        let b = bytes.as_slice();
        Self {
            dst_ip: read_be32(b, 0),
            dst_mac: read_mac(b, 4).0,
            dst_port: (b[10] as u16) + (b[11] as u16) * 256,
            src_ip: read_be32(b, 12),
            src_mac: read_mac(b, 16).0,
            src_port: (b[22] as u16) + (b[23] as u16) * 256,
        }
    }
}

/// The hash of a connection identity: that of its 24 bytes, written to the
/// default hasher in one piece.
pub open spec fn conn_hash(c: ConnView) -> u64 {
    DefaultHasher::spec_finish(seq![c.bytes()])
}

/// Hashes a connection identity.
pub fn hash_conn(conn: ConnIdentity) -> (h: u64)
    ensures
        h == conn_hash(conn@),
{
    let bytes = conn.to_bytes();
    let mut hasher = DefaultHasher::new();
    hasher.write(bytes.as_slice());
    assert(hasher@ =~= seq![conn@.bytes()]);
    hasher.finish()
}

/// An address as it stands in a header field read as a big-endian number:
/// already in host byte order.
pub fn parse_u32_2_ipv4(ip: u32) -> (octets: [u8; 4])
    ensures
        octets@ == octets_of(ip),
{
    u32_to_octets(ip)
}

/// Reads the identity and the state of the connection from the frame in
/// `pkt`; `None` unless the frame is TCP over IPv4 with a whole TCP header.
pub fn parse_pkt(pkt: &Mbuf) -> (r: Option<(ConnIdentity, ConnState)>)
    ensures
        r is Some <==> is_tcp(pkt@.data),
        r matches Some((id, st)) ==> id@ == conn_of_frame(pkt@.data) && id@.wf() && st
            == state_of_frame(pkt@.data),
{
    let data = pkt.data_slice();
    let at = match tcp_offset(data) {
        None => {
            return None;
        },
        Some(at) => at,
    };
    let conn_id = ConnIdentity {
        dst_ip: read_be32(data, 30),
        dst_mac: read_mac(data, 0).0,
        dst_port: read_be16(data, at + 2),
        src_ip: read_be32(data, 26),
        src_mac: read_mac(data, 6).0,
        src_port: read_be16(data, at),
    };
    let conn_state = ConnState {
        rx_win: read_be16(data, at + 14),
        seq_num: read_be32(data, at + 4),
        ack_num: read_be32(data, at + 8),
    };
    Some((conn_id, conn_state))
}

/// Encodes the identity of the connection that the frame in `buf` belongs
/// to; `None` unless the frame is TCP over IPv4.
pub fn serialize_conn(buf: &Mbuf) -> (r: Option<Vec<u8>>)
    ensures
        r is Some <==> is_tcp(buf@.data),
        r matches Some(bytes) ==> bytes@ == conn_of_frame(buf@.data).bytes() && bytes@.len()
            == MBUF_BIN_SZ,
{
    match parse_pkt(buf) {
        Some((conn_id, _)) => Some(conn_id.to_bytes()),
        None => None,
    }
}

/// Decodes a connection identity. Every 24 bytes encode one.
pub fn deserialize_conn(bytes: [u8; 24]) -> (r: Option<ConnIdentity>)
    ensures
        r matches Some(c) && c@ == conn_of_bytes(bytes@) && c@.wf(),
{
    Some(ConnIdentity::from_bytes(&bytes))
}

/// The table of connections, keyed by the hash of the identity.
pub struct ConnTable {
    connections: HashMap<u64, ConnState>,
}

impl View for ConnTable {
    type V = Map<u64, ConnState>;

    closed spec fn view(&self) -> Map<u64, ConnState> {
        self.connections@
    }
}

/// The table after it has seen `frame`: a TCP frame sets the entry of its
/// connection, any other frame changes nothing.
pub open spec fn table_after(table: Map<u64, ConnState>, frame: Seq<u8>) -> Map<u64, ConnState> {
    if is_tcp(frame) {
        table.insert(conn_hash(conn_of_frame(frame)), state_of_frame(frame))
    } else {
        table
    }
}

impl ConnTable {
    /// An empty table.
    pub fn new() -> (t: Self)
        ensures
            t@ == Map::<u64, ConnState>::empty(),
    {
        Self { connections: HashMap::new() }
    }

    /// The number of connections.
    pub fn len(&self) -> (n: usize)
        ensures
            n == self@.len(),
    {
        self.connections.len()
    }

    /// The state kept under `key`, if there is one.
    pub fn get(&self, key: u64) -> (r: Option<ConnState>)
        ensures
            r == (if self@.contains_key(key) {
                Some(self@[key])
            } else {
                None
            }),
    {
        broadcast use vstd::std_specs::hash::group_hash_axioms;

        match self.connections.get(&key) {
            Some(st) => Some(*st),
            None => None,
        }
    }

    /// Looks at one packet: if its frame is TCP over IPv4, the entry of its
    /// connection is set to the state that the frame shows, and the key of
    /// the entry is returned.
    pub fn process(&mut self, pkt: &Mbuf) -> (key: Option<u64>)
        ensures
            final(self)@ == table_after(old(self)@, pkt@.data),
            key == (if is_tcp(pkt@.data) {
                Some(conn_hash(conn_of_frame(pkt@.data)))
            } else {
                None
            }),
    {
        broadcast use vstd::std_specs::hash::group_hash_axioms;

        match parse_pkt(pkt) {
            Some((conn_id, conn_state)) => {
                let h = hash_conn(conn_id);
                let _ = self.connections.insert(h, conn_state);
                Some(h)
            },
            None => None,
        }
    }
}

} // verus!
