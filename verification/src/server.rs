//! The responder: the local bindings of IPv4 addresses to hardware
//! addresses, and the replies to ARP requests and ICMP echo requests that
//! are meant for them.

use vstd::prelude::*;
use crate::mbuf::Mbuf;
use crate::mempool::{Mempool, PoolView};
use crate::net::mac::MacAddr;
use crate::net::wire::{
    arp_frame,
    arp_oper,
    arp_reply,
    arp_sha,
    arp_spa,
    arp_tha,
    arp_tpa,
    ether_dst,
    ether_src,
    lemma_arp_reply_fields,
    build_arp_reply,
    build_echo_reply,
    echo_reply,
    echo_request,
    ipv4_dst,
    is_arp,
    is_echo_request,
    read_be32,
    ARP_FRAME_LEN,
    ARP_REPLY,
};

verus! {

/// An IPv4 address, in host byte order, with the length of its network
/// prefix.
#[derive(Debug, Clone, Copy, PartialEq, Eq, Structural)]
pub struct IpNetwork {
    /// The address.
    pub addr: u32,
    /// The number of leading bits that name the network.
    pub prefix: u8,
}

impl IpNetwork {
    /// The address.
    pub fn ip(&self) -> (a: u32)
        ensures
            a == self.addr,
    {
        self.addr
    }
}

/// A local interface: a hardware address, if it has one, and the addresses
/// bound to it.
#[derive(Debug)]
pub struct NetworkInterface {
    /// The interface's name.
    pub name: String,
    /// A description of the interface.
    pub description: String,
    /// The interface's index.
    pub index: u32,
    /// The hardware address, if the interface has one.
    pub mac: Option<MacAddr>,
    /// The addresses bound to the interface.
    pub ips: Vec<IpNetwork>,
    /// The interface's flags.
    pub flags: u32,
}

impl NetworkInterface {
    /// Whether the interface binds `ip`: it has a hardware address, and `ip`
    /// is one of its addresses.
    pub open spec fn binds(self, ip: u32) -> bool {
        self.mac is Some && exists|i: int| 0 <= i < self.ips@.len() && self.ips@[i].addr == ip
    }

    /// Decides [`NetworkInterface::binds`].
    pub fn has(&self, ip: u32) -> (yes: bool)
        ensures
            yes == self.binds(ip),
    {
        if self.mac.is_none() {
            return false;
        }
        let mut i: usize = 0;
        while i < self.ips.len()
            invariant
                i <= self.ips@.len(),
                self.mac is Some,
                forall|j: int| 0 <= j < i ==> self.ips@[j].addr != ip,
            decreases self.ips@.len() - i,
        {
            if self.ips[i].addr == ip {
                assert(self.ips@[i as int].addr == ip);
                return true;
            }
            i = i + 1;
        }
        false
    }
}

/// The hardware address that answers for `ip`: that of the first interface,
/// from position `from` on, that binds it.
pub open spec fn local_mac_from(ifaces: Seq<NetworkInterface>, ip: u32, from: int) -> Option<
    MacAddr,
>
    decreases ifaces.len() - from,
{
    if from < 0 || from >= ifaces.len() {
        None
    } else if ifaces[from].binds(ip) {
        ifaces[from].mac
    } else {
        local_mac_from(ifaces, ip, from + 1)
    }
}

/// The hardware address that answers for `ip`, if `ip` is a local address.
pub open spec fn local_mac(ifaces: Seq<NetworkInterface>, ip: u32) -> Option<MacAddr> {
    local_mac_from(ifaces, ip, 0)
}

/// An address is local exactly when some interface binds it.
pub proof fn lemma_local_iff_bound(ifaces: Seq<NetworkInterface>, ip: u32, from: int)
    requires
        0 <= from <= ifaces.len(),
    ensures
        local_mac_from(ifaces, ip, from) is Some <==> exists|i: int|
            from <= i < ifaces.len() && (#[trigger] ifaces[i]).binds(ip),
    decreases ifaces.len() - from,
{
    if from < ifaces.len() {
        lemma_local_iff_bound(ifaces, ip, from + 1);
        if !ifaces[from].binds(ip) {
            if exists|i: int| from <= i < ifaces.len() && (#[trigger] ifaces[i]).binds(ip) {
                let i = choose|i: int| from <= i < ifaces.len() && (#[trigger] ifaces[i]).binds(ip);
                assert(from + 1 <= i);
            }
        }
    }
}

/// What an ARP frame asks of us: the local address it asks for and the
/// address of the sender, when the frame is ARP and its target protocol
/// address is a local one.
pub open spec fn arp_for_us(ifaces: Seq<NetworkInterface>, frame: Seq<u8>) -> Option<(u32, u32)> {
    if is_arp(frame) && local_mac(ifaces, arp_tpa(frame)) is Some {
        Some((arp_tpa(frame), arp_spa(frame)))
    } else {
        None
    }
}

/// Whether a frame is an echo request to a local address.
pub open spec fn echo_for_us(ifaces: Seq<NetworkInterface>, frame: Seq<u8>) -> bool {
    is_echo_request(frame) && local_mac(ifaces, ipv4_dst(frame)) is Some
}

/// The pool after it was offered `buf`.
pub open spec fn pool_after_return(pool: PoolView, buf: crate::mbuf::MbufView) -> PoolView {
    if pool.takes(buf) {
        pool.after_free(1)
    } else {
        pool
    }
}

/// Whether the pool can provide a buffer that holds `n` bytes of data.
pub open spec fn pool_provides(pool: PoolView, n: nat) -> bool {
    pool.free > 0 && 0 < n <= pool.buf_len - pool.headroom
}

/// The ARP and ICMP responder.
#[derive(Debug)]
pub struct Server {
    interfaces: Vec<NetworkInterface>,
}

impl View for Server {
    type V = Seq<NetworkInterface>;

    closed spec fn view(&self) -> Seq<NetworkInterface> {
        self.interfaces@
    }
}

impl Server {
    /// A responder without bindings.
    pub fn new() -> (s: Self)
        ensures
            s@ == Seq::<NetworkInterface>::empty(),
    {
        Self { interfaces: Vec::new() }
    }

    /// Adds an interface with its hardware address and its addresses.
    pub fn add(
        &mut self,
        name: &str,
        desc: &str,
        index: u32,
        mac: Option<MacAddr>,
        ips: Vec<IpNetwork>,
        flags: u32,
    )
        ensures
            final(self)@.len() == old(self)@.len() + 1,
            final(self)@.subrange(0, old(self)@.len() as int) == old(self)@,
            final(self)@.last().name@ == name@,
            final(self)@.last().description@ == desc@,
            final(self)@.last().index == index,
            final(self)@.last().mac == mac,
            final(self)@.last().ips == ips,
            final(self)@.last().flags == flags,
    {
        let iface = NetworkInterface {
            name: name.to_owned(),
            description: desc.to_owned(),
            index,
            mac,
            ips,
            flags,
        };
        self.interfaces.push(iface);
        assert(self@.subrange(0, old(self)@.len() as int) =~= old(self)@);
    }

    /// The hardware address that answers for `ip`: that of the first
    /// interface that binds it.
    pub fn get_mac_by_ip(&self, ip: u32) -> (m: Option<MacAddr>)
        ensures
            m == local_mac(self@, ip),
    {
        let mut i: usize = 0;
        while i < self.interfaces.len()
            invariant
                i <= self.interfaces@.len(),
                local_mac(self@, ip) == local_mac_from(self@, ip, i as int),
            decreases self.interfaces@.len() - i,
        {
            if self.interfaces[i].has(ip) {
                return self.interfaces[i].mac;
            }
            i = i + 1;
        }
        None
    }

    /// Joins the octets of an address into a number, first octet highest.
    pub fn ipaddr_to_u32(ip: &[u8; 4]) -> (n: u32)
        ensures
            n == crate::net::ipv4hdr::ip_of(ip@),
    {
        crate::net::ipv4hdr::octets_to_u32(ip)
    }

    /// Tells whether the frame in `buf` is an ARP request for one of the
    /// local addresses, and if so returns that address and the address of the
    /// sender.
    pub fn detect_arp(&self, buf: &Mbuf) -> (r: Option<(u32, u32)>)
        ensures
            r == arp_for_us(self@, buf@.data),
    {
        let data = buf.data_slice();
        if !arp_frame(data) {
            return None;
        }
        let tip: u32 = read_be32(data, 38);
        let remote_ip: u32 = read_be32(data, 28);
        match self.get_mac_by_ip(tip) {
            Some(_) => Some((tip, remote_ip)),
            None => None,
        }
    }

    /// Tells whether the frame in `buf` is an echo request to one of the
    /// local addresses.
    pub fn detect_echo(&self, buf: &Mbuf) -> (yes: bool)
        ensures
            yes == echo_for_us(self@, buf@.data),
    {
        let data = buf.data_slice();
        if !echo_request(data) {
            return false;
        }
        let dst: u32 = read_be32(data, 30);
        self.get_mac_by_ip(dst).is_some()
    }

    /// Answers the ARP request in `buf`. The request goes back to the pool
    /// first, whatever it holds; the reply is then built in a fresh buffer.
    /// There is a reply exactly when the request asks for a local address and
    /// the pool can provide a buffer for it; that is so, at the least,
    /// whenever the request sat in a buffer of this pool and the pool's
    /// buffers hold an ARP frame. The reply is one ARP frame with the
    /// operation "reply": the hardware addresses of the request's Ethernet
    /// header have changed places, the sender is the local binding, and the
    /// target is the sender of the request.
    pub fn send_arp_reply(&self, buf: Mbuf, mp: &mut Mempool) -> (r: Option<Mbuf>)
        ensures
            final(mp)@.wf(),
            final(mp).spec_name() == old(mp).spec_name(),
            r is Some <==> arp_for_us(self@, buf@.data) is Some && pool_provides(
                pool_after_return(old(mp)@, buf@),
                ARP_FRAME_LEN as nat,
            ),
            r is None ==> final(mp)@ == pool_after_return(old(mp)@, buf@),
            r matches Some(reply) ==> {
                &&& final(mp)@ == pool_after_return(old(mp)@, buf@).after_alloc()
                &&& reply@ == old(mp)@.fresh().with_data(
                    arp_reply(
                        buf@.data,
                        local_mac(self@, arp_tpa(buf@.data))->0@,
                        arp_tpa(buf@.data),
                    ),
                )
                &&& reply@.wf()
                &&& is_arp(reply@.data)
                &&& arp_oper(reply@.data) == ARP_REPLY
                &&& ether_dst(reply@.data) == ether_src(buf@.data)
                &&& ether_src(reply@.data) == ether_dst(buf@.data)
                &&& arp_sha(reply@.data) == local_mac(self@, arp_tpa(buf@.data))->0@
                &&& arp_spa(reply@.data) == arp_tpa(buf@.data)
                &&& arp_tha(reply@.data) == arp_sha(buf@.data)
                &&& arp_tpa(reply@.data) == arp_spa(buf@.data)
            },
            arp_for_us(self@, buf@.data) is Some && old(mp)@.takes(buf@) && ARP_FRAME_LEN <= old(mp)@.buf_len - old(mp)@.headroom ==> r is Some,
    {
        proof {
            if arp_for_us(self@, buf@.data) is Some {
                let mac = local_mac(self@, arp_tpa(buf@.data))->0;
                assert(mac@.len() == 6);
                lemma_arp_reply_fields(buf@.data, mac@, arp_tpa(buf@.data));
            }
        }
        let bytes: Option<Vec<u8>> = match self.detect_arp(&buf) {
            None => None,
            Some((local_ip, _)) => {
                match self.get_mac_by_ip(local_ip) {
                    None => None,
                    Some(mac) => build_arp_reply(buf.data_slice(), &mac, local_ip),
                }
            },
        };
        let _ = mp.free(buf);
        match bytes {
            None => None,
            Some(b) => match Mbuf::from_bytes(b.as_slice(), mp) {
                Ok(reply) => Some(reply),
                Err(_) => None,
            },
        }
    }

    /// Answers the echo request in `buf`. The request goes back to the pool
    /// first, whatever it holds; the reply is then built in a fresh buffer.
    /// There is a reply exactly when the request is an echo request to a
    /// local address and the pool can provide a buffer for it.
    pub fn send_echo_reply(&self, buf: Mbuf, mp: &mut Mempool) -> (r: Option<Mbuf>)
        ensures
            final(mp)@.wf(),
            final(mp).spec_name() == old(mp).spec_name(),
            r is Some <==> echo_for_us(self@, buf@.data) && pool_provides(
                pool_after_return(old(mp)@, buf@),
                buf@.data.len(),
            ),
            r is None ==> final(mp)@ == pool_after_return(old(mp)@, buf@),
            r matches Some(reply) ==> {
                &&& final(mp)@ == pool_after_return(old(mp)@, buf@).after_alloc()
                &&& reply@ == old(mp)@.fresh().with_data(echo_reply(buf@.data))
                &&& reply@.wf()
            },
    {
        let bytes: Option<Vec<u8>> = if self.detect_echo(&buf) {
            build_echo_reply(buf.data_slice())
        } else {
            None
        };
        let _ = mp.free(buf);
        match bytes {
            None => None,
            Some(b) => match Mbuf::from_bytes(b.as_slice(), mp) {
                Ok(reply) => Some(reply),
                Err(_) => None,
            },
        }
    }
}

} // verus!
