//! The channel registry: which clients have a channel. The engine routes
//! buffers to and from the packetiser and the network functions through it.

use vstd::prelude::*;
use std::collections::HashMap;
use crate::error::{MemoryError, RingClientMapError};
use crate::mbuf::Mbuf;
use crate::memring::{channel_of, Channel, RingTable};

verus! {

/// A registry without clients.
pub open spec fn no_channels() -> Map<u16, Channel> {
    Map::empty()
}

/// The entry under `key`, if there is one.
pub open spec fn entry(m: Map<u16, Channel>, key: u16) -> Option<Channel> {
    if m.contains_key(key) {
        Some(m[key])
    } else {
        None
    }
}

/// The mapping from client ids to channels.
pub struct RingClientMap {
    ringmap: HashMap<u16, Channel>,
}

impl View for RingClientMap {
    type V = Map<u16, Channel>;

    closed spec fn view(&self) -> Map<u16, Channel> {
        self.ringmap@
    }
}

impl RingClientMap {
    /// A registry without clients.
    pub fn new() -> (r: Self)
        ensures
            r@ == no_channels(),
    {
        Self { ringmap: HashMap::new() }
    }

    /// The number of clients.
    pub fn len(&self) -> (n: usize)
        ensures
            n == self@.len(),
    {
        self.ringmap.len()
    }

    /// The channel of client `key`, if it is registered.
    pub fn channel(&self, key: u16) -> (r: Option<Channel>)
        ensures
            r == entry(self@, key),
    {
        broadcast use vstd::std_specs::hash::group_hash_axioms;

        match self.ringmap.get(&key) {
            Some(ch) => Some(*ch),
            None => None,
        }
    }

    /// Adds a client: makes its two rings and registers its channel. When the
    /// rings cannot be made, because the client has them already or for
    /// another reason, nothing changes.
    pub fn add_client(&mut self, table: &mut RingTable, client_id: u16) -> (r: Result<
        (),
        RingClientMapError,
    >)
        ensures
            match r {
                Ok(()) => {
                    &&& old(table)@.channel_outcome(client_id) is Ok
                    &&& final(self)@ == old(self)@.insert(client_id, channel_of(client_id))
                    &&& final(table)@ == old(table)@.with_channel(client_id)
                    &&& final(table)@.has_channel(client_id)
                },
                Err(e) => {
                    &&& old(table)@.channel_outcome(client_id) matches Err(m)
                    &&& e == RingClientMapError::MemoryError(m)
                    &&& final(self)@ == old(self)@
                    &&& final(table)@ == old(table)@
                },
            },
    {
        let channel = match Channel::new(table, client_id) {
            Ok(ch) => ch,
            Err(e) => {
                return Err(RingClientMapError::MemoryError(e));
            },
        };
        broadcast use vstd::std_specs::hash::group_hash_axioms;

        let _ = self.ringmap.insert(client_id, channel);
        Ok(())
    }

    /// Removes a client: its channel leaves the registry, its rings leave the
    /// table, and the buffers that were still in them are handed back.
    pub fn remove_client(&mut self, table: &mut RingTable, client_id: u16) -> (left: Vec<Mbuf>)
        ensures
            final(self)@ == old(self)@.remove(client_id),
            match entry(old(self)@, client_id) {
                None => left@ == Seq::<Mbuf>::empty() && final(table)@ == old(table)@,
                Some(ch) => {
                    &&& left@ == old(table)@.items_of(ch.engine_to_client) + old(table)@.without_ring(ch.engine_to_client).items_of(ch.client_to_engine)
                    &&& final(table)@ == old(table)@.without_ring(
                        ch.engine_to_client,
                    ).without_ring(ch.client_to_engine)
                },
            },
    {
        broadcast use vstd::std_specs::hash::group_hash_axioms;

        match self.ringmap.remove(&client_id) {
            None => Vec::new(),
            Some(ch) => ch.free(table),
        }
    }

    /// Sends a buffer to client `key`. The buffer comes back with the error
    /// when the client is not registered or its ring refuses the buffer.
    pub fn send(&self, table: &mut RingTable, key: u16, pkt: Mbuf) -> (r: Result<
        (),
        (RingClientMapError, Mbuf),
    >)
        ensures
            match entry(self@, key) {
                None => r == Err::<(), (RingClientMapError, Mbuf)>(
                    (RingClientMapError::ClientNotFound(key), pkt),
                ) && final(table)@ == old(table)@,
                Some(ch) => match old(table)@.slot_of(ch.engine_to_client) {
                    None => r == Err::<(), (RingClientMapError, Mbuf)>(
                        (RingClientMapError::MemoryError(MemoryError::NoEntries), pkt),
                    ) && final(table)@ == old(table)@,
                    Some(i) => if old(table)@.rings[i].is_full() {
                        r == Err::<(), (RingClientMapError, Mbuf)>(
                            (RingClientMapError::MemoryError(MemoryError::NoSpace), pkt),
                        ) && final(table)@ == old(table)@
                    } else {
                        r is Ok && final(table)@ == old(table)@.with_items(
                            i,
                            old(table)@.rings[i].items.push(pkt),
                        )
                    },
                },
            },
    {
        let channel = match self.channel(key) {
            Some(ch) => ch,
            None => {
                return Err((RingClientMapError::ClientNotFound(key), pkt));
            },
        };
        match channel.send_to_client(table, pkt) {
            Ok(()) => Ok(()),
            Err((e, pkt)) => Err((RingClientMapError::MemoryError(e), pkt)),
        }
    }

    /// Receives a buffer from client `key`.
    pub fn receive(&self, table: &mut RingTable, key: u16) -> (r: Result<Mbuf, RingClientMapError>)
        ensures
            match entry(self@, key) {
                None => r == Err::<Mbuf, RingClientMapError>(
                    RingClientMapError::ClientNotFound(key),
                ) && final(table)@ == old(table)@,
                Some(ch) => match old(table)@.slot_of(ch.client_to_engine) {
                    Some(i) if old(table)@.rings[i].items.len() > 0 => r == Ok::<
                        Mbuf,
                        RingClientMapError,
                    >(old(table)@.rings[i].items[0]) && final(table)@ == old(table)@.with_items(
                        i,
                        old(table)@.rings[i].items.subrange(
                            1,
                            old(table)@.rings[i].items.len() as int,
                        ),
                    ),
                    _ => r == Err::<Mbuf, RingClientMapError>(
                        RingClientMapError::MemoryError(MemoryError::NoEntries),
                    ) && final(table)@ == old(table)@,
                },
            },
    {
        let channel = match self.channel(key) {
            Some(ch) => ch,
            None => {
                return Err(RingClientMapError::ClientNotFound(key));
            },
        };
        match channel.receive_from_client(table) {
            Ok(pkt) => Ok(pkt),
            Err(e) => Err(RingClientMapError::MemoryError(e)),
        }
    }

    /// Sends all of `pkts` to client `key`, or none of them, and returns how
    /// many were sent. Fails with `ClientNotFound`, and changes nothing, when
    /// the client is not registered.
    pub fn send_bulk(&self, table: &mut RingTable, key: u16, pkts: &mut Vec<Mbuf>) -> (r: Result<
        usize,
        RingClientMapError,
    >)
        ensures
            match entry(self@, key) {
                None => r == Err::<usize, RingClientMapError>(
                    RingClientMapError::ClientNotFound(key),
                ) && final(table)@ == old(table)@ && final(pkts)@ == old(pkts)@,
                Some(ch) => if ch.engine_to_client.bulk_fits(old(table)@, old(pkts)@.len()) {
                    &&& r == Ok::<usize, RingClientMapError>(old(pkts)@.len() as usize)
                    &&& final(pkts)@ == Seq::<Mbuf>::empty()
                    &&& final(table)@ == old(table)@.with_items(
                        old(table)@.slot_of(ch.engine_to_client)->0,
                        old(table)@.rings[old(table)@.slot_of(ch.engine_to_client)->0].items + old(pkts)@,
                    )
                } else {
                    &&& r == Ok::<usize, RingClientMapError>(0usize)
                    &&& final(pkts)@ == old(pkts)@
                    &&& final(table)@ == old(table)@
                },
            },
    {
        let channel = match self.channel(key) {
            Some(ch) => ch,
            None => {
                return Err(RingClientMapError::ClientNotFound(key));
            },
        };
        let count = channel.send_to_client_bulk(table, pkts);
        Ok(count)
    }

    /// Receives up to `rx_burst_max` buffers from client `key`, appends them
    /// to `pkts`, and returns how many there were. Fails with
    /// `ClientNotFound`, and changes nothing, when the client is not
    /// registered.
    pub fn receive_bulk(
        &self,
        table: &mut RingTable,
        key: u16,
        pkts: &mut Vec<Mbuf>,
        rx_burst_max: usize,
    ) -> (r: Result<usize, RingClientMapError>)
        ensures
            match entry(self@, key) {
                None => r == Err::<usize, RingClientMapError>(
                    RingClientMapError::ClientNotFound(key),
                ) && final(table)@ == old(table)@ && final(pkts)@ == old(pkts)@,
                Some(ch) => match old(table)@.slot_of(ch.client_to_engine) {
                    None => r == Ok::<usize, RingClientMapError>(0usize) && final(pkts)@ == old(pkts)@ && final(table)@ == old(table)@,
                    Some(i) => {
                        &&& r matches Ok(n)
                        &&& n == vstd::math::min(
                            rx_burst_max as int,
                            old(table)@.rings[i].items.len() as int,
                        )
                        &&& final(pkts)@ == old(pkts)@ + old(table)@.rings[i].items.subrange(
                            0,
                            n as int,
                        )
                        &&& final(table)@ == old(table)@.with_items(
                            i,
                            old(table)@.rings[i].items.subrange(
                                n as int,
                                old(table)@.rings[i].items.len() as int,
                            ),
                        )
                    },
                },
            },
    {
        let channel = match self.channel(key) {
            Some(ch) => ch,
            None => {
                return Err(RingClientMapError::ClientNotFound(key));
            },
        };
        let count = channel.recv_from_client_bulk(table, pkts, rx_burst_max);
        Ok(count)
    }
}

} // verus!
