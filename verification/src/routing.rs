//! The routing table of the packetiser: which client has which IPv4
//! address, and the other way round.

use vstd::prelude::*;
use std::collections::HashMap;

verus! {

/// The client id that stands for "no client".
pub const NO_CLIENT: u16 = 0;

/// The mapping between client ids and IPv4 addresses, kept in both
/// directions. Addresses are in host byte order.
pub struct RoutingTable {
    ip_id_map: HashMap<u32, u16>,
    id_ip_map: HashMap<u16, u32>,
}

/// The client id under `ip`, or [`NO_CLIENT`] if there is none.
pub open spec fn id_of(by_ip: Map<u32, u16>, ip: u32) -> u16 {
    if by_ip.contains_key(ip) {
        by_ip[ip]
    } else {
        NO_CLIENT
    }
}

impl RoutingTable {
    /// The client ids by address.
    pub closed spec fn by_ip(&self) -> Map<u32, u16> {
        self.ip_id_map@
    }

    /// The addresses by client id.
    pub closed spec fn by_id(&self) -> Map<u16, u32> {
        self.id_ip_map@
    }

    /// An empty table.
    pub fn new() -> (t: Self)
        ensures
            t.by_ip() == Map::<u32, u16>::empty(),
            t.by_id() == Map::<u16, u32>::empty(),
    {
        Self { ip_id_map: HashMap::new(), id_ip_map: HashMap::new() }
    }

    /// Binds a client and an address to each other.
    pub fn add_client(&mut self, client_id: u16, client_ip: u32)
        ensures
            final(self).by_ip() == old(self).by_ip().insert(client_ip, client_id),
            final(self).by_id() == old(self).by_id().insert(client_id, client_ip),
    {
        broadcast use vstd::std_specs::hash::group_hash_axioms;

        let _ = self.ip_id_map.insert(client_ip, client_id);
        let _ = self.id_ip_map.insert(client_id, client_ip);
    }

    /// Forgets the address of a client. The entry under the address stays.
    pub fn remove_by_id(&mut self, client_id: u16)
        ensures
            final(self).by_id() == old(self).by_id().remove(client_id),
            final(self).by_ip() == old(self).by_ip(),
    {
        broadcast use vstd::std_specs::hash::group_hash_axioms;

        let _ = self.id_ip_map.remove(&client_id);
    }

    /// Forgets the client of an address. The entry under the client stays.
    pub fn remove_by_ip(&mut self, client_ip: u32)
        ensures
            final(self).by_ip() == old(self).by_ip().remove(client_ip),
            final(self).by_id() == old(self).by_id(),
    {
        broadcast use vstd::std_specs::hash::group_hash_axioms;

        let _ = self.ip_id_map.remove(&client_ip);
    }

    /// Whether an address has a client.
    pub fn lookup_by_ip(&self, client_ip: u32) -> (yes: bool)
        ensures
            yes == self.by_ip().contains_key(client_ip),
    {
        broadcast use vstd::std_specs::hash::group_hash_axioms;

        self.ip_id_map.contains_key(&client_ip)
    }

    /// Whether a client has an address.
    pub fn lookup_by_id(&self, client_id: u16) -> (yes: bool)
        ensures
            yes == self.by_id().contains_key(client_id),
    {
        broadcast use vstd::std_specs::hash::group_hash_axioms;

        self.id_ip_map.contains_key(&client_id)
    }

    /// The client of an address, or [`NO_CLIENT`] if it has none.
    pub fn id_from_ip(&self, client_ip: u32) -> (id: u16)
        ensures
            id == id_of(self.by_ip(), client_ip),
    {
        broadcast use vstd::std_specs::hash::group_hash_axioms;

        match self.ip_id_map.get(&client_ip) {
            Some(id) => *id,
            None => NO_CLIENT,
        }
    }
}

/// The client that was bound to an address last is the one that the address
/// leads to, until the address is forgotten.
pub proof fn lemma_route_after_add(by_ip: Map<u32, u16>, id: u16, ip: u32)
    ensures
        id_of(by_ip.insert(ip, id), ip) == id,
        id_of(by_ip.insert(ip, id).remove(ip), ip) == NO_CLIENT,
{
}

} // verus!
