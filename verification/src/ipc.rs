//! The multiplexer's side of the network functions: the names under which
//! they register, the map of services, and the interface that each of them
//! gets.

use vstd::prelude::*;
use std::collections::HashMap;
use std::collections::hash_map::DefaultHasher;
use std::hash::Hasher;
use vstd::slice::slice_to_vec;
use vstd::std_specs::hash::DefaultHasherAdditionalSpecFns;
use vstd::string::StringExecFns;
use crate::ipc_queue::QueueError;
use crate::mbuf::zeros;
use crate::memenpsf::{Interface, Stream, StreamError};
use crate::memring::{decimal, decimal_digits};

verus! {

/// Length of the name that a network function sends when it connects.
pub const CLIENT_NAME_SZ: usize = 30;

/// The number of slots of each queue of an interface.
pub const CAP: usize = 32;

/// The kind of host that makes the shared region.
pub const CLIENT: u8 = 0;

/// The kind of host that is handed the shared region.
pub const SERVER: u8 = 1;

/// An element of the queues between multiplexer and network function: an
/// encoded connection identity.
pub type Element = [u8; 24];

/// A name filled up with NUL bytes to the length that goes over the line.
pub open spec fn padded(name: Seq<u8>) -> Seq<u8> {
    name + zeros((CLIENT_NAME_SZ - name.len()) as nat)
}

/// Fills a name up with NUL bytes to thirty bytes; `None` for a name that
/// is longer than that.
pub fn pad_name(name: &[u8]) -> (r: Option<Vec<u8>>)
    ensures
        r is Some <==> name@.len() <= CLIENT_NAME_SZ,
        r matches Some(b) ==> b@ == padded(name@) && b@.len() == CLIENT_NAME_SZ,
{
    if name.len() > CLIENT_NAME_SZ {
        return None;
    }
    let mut b = slice_to_vec(name);
    while b.len() < CLIENT_NAME_SZ
        invariant
            name@.len() <= b@.len() <= CLIENT_NAME_SZ,
            b@ == name@ + zeros((b@.len() - name@.len()) as nat),
        decreases CLIENT_NAME_SZ - b@.len(),
    {
        let ghost before = b@;
        b.push(0);
        assert(b@ =~= name@ + zeros((b@.len() - name@.len()) as nat));
    }
    Some(b)
}

/// What is left of a buffer without the NUL bytes at its end.
pub open spec fn trimmed(buf: Seq<u8>) -> Seq<u8>
    decreases buf.len(),
{
    if buf.len() == 0 || buf.last() != 0 {
        buf
    } else {
        trimmed(buf.drop_last())
    }
}

/// The name in a buffer: the buffer without the NUL bytes at its end.
pub fn service_name(buf: &[u8]) -> (name: Vec<u8>)
    ensures
        name@ == trimmed(buf@),
{
    let mut n: usize = buf.len();
    proof {
        assert(buf@.subrange(0, n as int) =~= buf@);
    }
    while n > 0 && buf[n - 1] == 0
        invariant
            n <= buf@.len(),
            trimmed(buf@) == trimmed(buf@.subrange(0, n as int)),
        decreases n,
    {
        proof {
            assert(buf@.subrange(0, n as int).drop_last() =~= buf@.subrange(0, n - 1));
        }
        n = n - 1;
    }
    let mut name: Vec<u8> = Vec::new();
    crate::net::wire::push_range(&mut name, buf, 0, n);
    assert(name@ =~= buf@.subrange(0, n as int));
    name
}

/// A name that does not end in a NUL byte comes back from its padded form.
pub proof fn lemma_name_round_trip(name: Seq<u8>)
    requires
        name.len() <= CLIENT_NAME_SZ,
        name.len() == 0 || name.last() != 0,
    ensures
        trimmed(padded(name)) == name,
{
    lemma_trim_zeros(name, (CLIENT_NAME_SZ - name.len()) as nat);
}

/// NUL bytes appended to a name that does not end in one are trimmed away.
proof fn lemma_trim_zeros(name: Seq<u8>, k: nat)
    requires
        name.len() == 0 || name.last() != 0,
    ensures
        trimmed(name + zeros(k)) == name,
    decreases k,
{
    if k == 0 {
        assert(name + zeros(0) =~= name);
    } else {
        assert((name + zeros(k)).drop_last() =~= name + zeros((k - 1) as nat));
        lemma_trim_zeros(name, (k - 1) as nat);
    }
}

/// The key of a service: the hash of the thirty bytes of its name, written
/// to the default hasher in one piece.
pub open spec fn name_key(buf: Seq<u8>) -> u64 {
    DefaultHasher::spec_finish(seq![buf])
}

/// Hashes the bytes of a name.
pub fn name_hash(buf: &[u8]) -> (h: u64)
    ensures
        h == name_key(buf@),
{
    let mut hasher = DefaultHasher::new();
    hasher.write(buf);
    assert(hasher@ =~= seq![buf@]);
    hasher.finish()
}

/// The name of the interface with number `n`: `eth`, then the number in
/// decimal.
pub fn interface_name(n: u8) -> (s: String)
    ensures
        s@ == "eth"@ + decimal_digits(n as nat),
{
    let mut name = String::from_str("eth");
    let digits = decimal(n as u16);
    name.append(digits.as_str());
    name
}

/// Makes the interface of one side: `typ` is [`CLIENT`] for the network
/// function and anything else for the multiplexer.
pub fn new_int(name: String, cap: usize, typ: u8) -> (r: Result<Interface<Element>, QueueError>)
    ensures
        r is Ok <==> 0 < cap <= crate::ipc_queue::MAX_CAPACITY,
        r matches Err(e) ==> e == QueueError::BadCapacity,
        r matches Ok(i) ==> i.spec_name() == name@ && i@.wf() && i@.cap == cap && i@.stype == (
        if typ == CLIENT {
            crate::memenpsf::HostType::Client
        } else {
            crate::memenpsf::HostType::Server
        }),
{
    Interface::<Element>::new(name, cap, typ)
}

/// No services.
pub open spec fn no_entries() -> Map<u64, u64> {
    Map::empty()
}

/// The slot under `key`, if there is one.
pub open spec fn value_under(m: Map<u64, u64>, key: u64) -> Option<u64> {
    if m.contains_key(key) {
        Some(m[key])
    } else {
        None
    }
}

/// The map of services: from the key of a name to the slot of the service.
pub struct NFMap {
    map: HashMap<u64, u64>,
}

impl View for NFMap {
    type V = Map<u64, u64>;

    closed spec fn view(&self) -> Map<u64, u64> {
        self.map@
    }
}

impl NFMap {
    /// A map without services.
    pub fn new() -> (m: Self)
        ensures
            m@ == no_entries(),
    {
        Self { map: HashMap::new() }
    }

    /// Sets the slot under a key.
    pub fn insert(&mut self, key: u64, val: u64)
        ensures
            final(self)@ == old(self)@.insert(key, val),
    {
        broadcast use vstd::std_specs::hash::group_hash_axioms;

        let _ = self.map.insert(key, val);
    }

    /// The slot under a key, if there is one.
    pub fn get(&self, key: u64) -> (r: Option<u64>)
        ensures
            r == value_under(self@, key),
    {
        broadcast use vstd::std_specs::hash::group_hash_axioms;

        match self.map.get(&key) {
            Some(v) => Some(*v),
            None => None,
        }
    }
}

/// The slots that a packet for all services goes to: for each name, in
/// order, the slot that the map has under the name's key, if it has one.
pub open spec fn slots_of(names: Seq<Vec<u8>>, map: Map<u64, u64>) -> Seq<u64>
    decreases names.len(),
{
    if names.len() == 0 {
        Seq::empty()
    } else {
        let before = slots_of(names.drop_last(), map);
        match value_under(map, name_key(names.last()@)) {
            Some(slot) => before.push(slot),
            None => before,
        }
    }
}

/// Works out where a packet for all network functions goes: the slots of
/// the services that are registered under the names given.
pub fn send_to_all_nfs(names: &Vec<Vec<u8>>, map: &NFMap) -> (slots: Vec<u64>)
    ensures
        slots@ == slots_of(names@, map@),
{
    let mut slots: Vec<u64> = Vec::new();
    let mut i: usize = 0;
    proof {
        assert(names@.subrange(0, 0) =~= Seq::<Vec<u8>>::empty());
    }
    while i < names.len()
        invariant
            i <= names@.len(),
            slots@ == slots_of(names@.subrange(0, i as int), map@),
        decreases names@.len() - i,
    {
        proof {
            assert(names@.subrange(0, i + 1).drop_last() =~= names@.subrange(0, i as int));
        }
        let h = name_hash(names[i].as_slice());
        match map.get(h) {
            Some(slot) => {
                slots.push(slot);
            },
            None => {},
        }
        i = i + 1;
    }
    proof {
        assert(names@.subrange(0, names@.len() as int) =~= names@);
    }
    slots
}

/// The multiplexer's record of the network functions that have connected.
pub struct Mux {
    names: Vec<Vec<u8>>,
    map: NFMap,
}

impl Mux {
    /// The names of the services, in the order in which they registered.
    pub closed spec fn names(&self) -> Seq<Vec<u8>> {
        self.names@
    }

    /// The slots of the services by the key of their name.
    pub closed spec fn services(&self) -> Map<u64, u64> {
        self.map@
    }

    /// A multiplexer without services.
    pub fn new() -> (m: Self)
        ensures
            m.names() == Seq::<Vec<u8>>::empty(),
            m.services() == no_entries(),
    {
        Self { names: Vec::new(), map: NFMap::new() }
    }

    /// Registers the service whose name arrived in `buf`: it gets the next
    /// slot. A buffer of any other length than thirty bytes is no name, and
    /// nothing changes.
    pub fn register(&mut self, buf: &[u8]) -> (slot: Option<u64>)
        ensures
            slot is Some <==> buf@.len() == CLIENT_NAME_SZ,
            slot is None ==> final(self).names() == old(self).names() && final(self).services()
                == old(self).services(),
            slot matches Some(s) ==> {
                &&& s == old(self).names().len()
                &&& final(self).names().len() == old(self).names().len() + 1
                &&& final(self).names().subrange(0, old(self).names().len() as int) == old(self).names()
                &&& final(self).names().last()@ == buf@
                &&& final(self).services() == old(self).services().insert(name_key(buf@), s)
            },
    {
        if buf.len() != CLIENT_NAME_SZ {
            return None;
        }
        let slot: u64 = self.names.len() as u64;
        self.names.push(slice_to_vec(buf));
        self.map.insert(name_hash(buf), slot);
        assert(self.names@.subrange(0, old(self).names@.len() as int) =~= old(self).names@);
        Some(slot)
    }

    /// Takes the name that a network function sends when it connects, and
    /// registers the service. Nothing is registered unless exactly thirty
    /// bytes were read.
    pub fn accept<S: Stream>(&mut self, stream: &mut S) -> (slot: Option<u64>)
        ensures
            slot is None ==> final(self).names() == old(self).names() && final(self).services()
                == old(self).services(),
            slot matches Some(s) ==> {
                &&& s == old(self).names().len()
                &&& final(self).names().len() == old(self).names().len() + 1
                &&& final(self).names().last()@.len() == CLIENT_NAME_SZ
                &&& final(self).services() == old(self).services().insert(
                    name_key(final(self).names().last()@),
                    s,
                )
            },
    {
        let read = stream.s_read(CLIENT_NAME_SZ);
        self.register_read(read)
    }

    /// The slot of the service whose name is in `buf`, if it is registered.
    pub fn slot_of(&self, buf: &[u8]) -> (r: Option<u64>)
        ensures
            r == value_under(self.services(), name_key(buf@)),
    {
        self.map.get(name_hash(buf))
    }

    /// The slots that a packet for all services goes to.
    pub fn all_slots(&self) -> (slots: Vec<u64>)
        ensures
            slots@ == slots_of(self.names(), self.services()),
    {
        send_to_all_nfs(&self.names, &self.map)
    }

    /// Deals with what a read of the name from the control line gave: exactly
    /// thirty bytes are a name, and the service is registered under it; a
    /// failed read and a read of any other length register nothing.
    pub fn register_read(&mut self, read: Result<Vec<u8>, StreamError>) -> (slot: Option<u64>)
        ensures
            slot is Some <==> (read matches Ok(buf) && buf@.len() == CLIENT_NAME_SZ),
            slot is None ==> final(self).names() == old(self).names() && final(self).services()
                == old(self).services(),
            slot matches Some(s) ==> {
                &&& s == old(self).names().len()
                &&& final(self).names().len() == old(self).names().len() + 1
                &&& final(self).names().subrange(0, old(self).names().len() as int) == old(self).names()
                &&& final(self).names().last()@ == read->Ok_0@
                &&& final(self).services() == old(self).services().insert(
                    name_key(read->Ok_0@),
                    s,
                )
            },
    {
        match read {
            Ok(buf) => self.register(buf.as_slice()),
            Err(_) => None,
        }
    }
}

} // verus!
