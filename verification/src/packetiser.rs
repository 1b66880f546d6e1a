//! The packetiser: the secondary process that takes packets from the
//! engine, keeps the table of connections, and hands the packets back.

use vstd::prelude::*;
use crossbeam_queue::ArrayQueue;
use crate::queues::{
    aq_capacity,
    aq_len,
    aq_new,
    aq_pop,
    aq_push,
    bound,
    held,
    no_buffers,
    MAX_QUEUE,
};
use crate::error::{bump, counted, MemoryError, RingClientMapError};
use crate::mbuf::{Mbuf, MbufView};
use crate::mempool::{count_owned, views, Mempool, PoolView};
use crate::memring::{channel_of, Channel, RingTable, RingType, Side};
use crate::net::ipv4hdr::Ipv4Hdr;
use crate::net::wire::{ipv4_dst, is_ipv4, is_tcp};
use crate::process::{table_after, ConnState, ConnTable};
use crate::registry::{entry, no_channels, RingClientMap};
use crate::routing::{id_of, RoutingTable};
use crate::server::pool_after_return;

verus! {

/// The client id of the packetiser itself.
pub const PACKETISER_ID: u16 = 1;

/// The smallest client id that a network function can have.
pub const FIRST_CLIENT_ID: u16 = 2;

/// The smallest id from `from` to `last` that is not among `ids`.
pub open spec fn first_unused(ids: Seq<u16>, from: int, last: int) -> Option<int>
    decreases last - from + 1,
{
    if from > last {
        None
    } else if !ids.contains(from as u16) {
        Some(from)
    } else {
        first_unused(ids, from + 1, last)
    }
}

/// The id that the next client gets: the smallest unused id from 2 to the
/// largest id given out so far, or else the id after that one. `None` when
/// the ids have run out.
pub open spec fn next_client_id(ids: Seq<u16>, last: u16) -> Option<u16> {
    match first_unused(ids, FIRST_CLIENT_ID as int, last as int) {
        Some(k) => Some(k as u16),
        None => if last < u16::MAX {
            Some((last + 1) as u16)
        } else {
            None
        },
    }
}

/// The position of the first occurrence of `key` among `ids` from position
/// `from` on.
pub open spec fn position_from(ids: Seq<u16>, key: u16, from: int) -> Option<int>
    decreases ids.len() - from,
{
    if from < 0 || from >= ids.len() {
        None
    } else if ids[from] == key {
        Some(from)
    } else {
        position_from(ids, key, from + 1)
    }
}

/// `ids` without the first occurrence of `key`.
pub open spec fn without_id(ids: Seq<u16>, key: u16) -> Seq<u16> {
    match position_from(ids, key, 0) {
        Some(i) => ids.remove(i),
        None => ids,
    }
}

/// What the packetiser works on when it looks at the packets it received.
pub struct ProcState {
    /// The table of connections.
    pub conns: Map<u64, ConnState>,
    /// The packets that go back to the engine, oldest first.
    pub out: Seq<Mbuf>,
    /// The pool.
    pub pool: PoolView,
    /// The number of packets dropped so far.
    pub dropped: u64,
}

/// The state after the packetiser looked at one packet. A TCP packet sets
/// the entry of its connection and goes back to the engine, unchanged, if
/// the queue towards the engine has room. Any other packet, and a packet for
/// which there is no room, is dropped: its buffer goes back to the pool and
/// the counter of dropped packets goes up.
pub open spec fn proc_one(s: ProcState, out_bound: usize, pkt: Mbuf) -> ProcState {
    if is_tcp(pkt@.data) && s.out.len() < out_bound {
        ProcState { conns: table_after(s.conns, pkt@.data), out: s.out.push(pkt), ..s }
    } else {
        ProcState {
            conns: table_after(s.conns, pkt@.data),
            pool: pool_after_return(s.pool, pkt@),
            dropped: bump(s.dropped),
            ..s
        }
    }
}

/// The state after the packetiser looked at the packets `pkts`, in order.
pub open spec fn proc_all(s: ProcState, out_bound: usize, pkts: Seq<Mbuf>) -> ProcState
    decreases pkts.len(),
{
    if pkts.len() == 0 {
        s
    } else {
        proc_one(proc_all(s, out_bound, pkts.drop_last()), out_bound, pkts.last())
    }
}

/// The packets that go back to the engine are packets that came from it, in
/// the order in which they came and unchanged: what the packetiser hands
/// back, byte for byte, is what it was handed.
pub proof fn lemma_proc_passes_unchanged(s: ProcState, out_bound: usize, pkts: Seq<Mbuf>)
    ensures
        ({
            let t = proc_all(s, out_bound, pkts);
            &&& t.out.len() >= s.out.len()
            &&& t.out.subrange(0, s.out.len() as int) == s.out
            &&& forall|i: int|
                s.out.len() <= i < t.out.len() ==> pkts.contains(#[trigger] t.out[i]) && is_tcp(
                    t.out[i]@.data,
                )
        }),
    decreases pkts.len(),
{
    let t = proc_all(s, out_bound, pkts);
    if pkts.len() == 0 {
        assert(t.out.subrange(0, s.out.len() as int) =~= s.out);
    } else {
        lemma_proc_passes_unchanged(s, out_bound, pkts.drop_last());
        let p = proc_all(s, out_bound, pkts.drop_last());
        assert(t.out.subrange(0, s.out.len() as int) =~= p.out.subrange(0, s.out.len() as int));
        assert forall|i: int| s.out.len() <= i < t.out.len() implies pkts.contains(
            #[trigger] t.out[i],
        ) && is_tcp(t.out[i]@.data) by {
            if i < p.out.len() {
                let j = choose|j: int| 0 <= j < pkts.drop_last().len() && pkts.drop_last()[j]
                    == p.out[i];
                assert(pkts[j] == t.out[i]);
            } else {
                assert(pkts[pkts.len() - 1] == t.out[i]);
            }
        }
    }
}

/// What the packetiser works on when it forwards packets to its clients.
pub struct FwdState {
    /// The table of rings.
    pub table: crate::memring::TableView,
    /// The pool.
    pub pool: PoolView,
    /// The number of packets dropped so far.
    pub dropped: u64,
    /// The number of packets forwarded in this round.
    pub forwarded: nat,
}

/// The state after one packet was forwarded: it goes on the ring towards the
/// client that the routing table has for its destination address. When there
/// is no such client, or its ring does not take the packet, the packet is
/// dropped.
pub open spec fn fwd_one(
    clients: Map<u16, Channel>,
    routes: Map<u32, u16>,
    s: FwdState,
    pkt: Mbuf,
) -> FwdState {
    match entry(clients, Packetiser::client_for(routes, pkt@.data)) {
        Some(ch) if s.table.accepts(ch.engine_to_client) => FwdState {
            table: s.table.after_enqueue(ch.engine_to_client, pkt),
            forwarded: s.forwarded + 1,
            ..s
        },
        _ => FwdState {
            pool: pool_after_return(s.pool, pkt@),
            dropped: bump(s.dropped),
            ..s
        },
    }
}

/// The state after the packets `pkts` were forwarded, in order.
pub open spec fn fwd_all(
    clients: Map<u16, Channel>,
    routes: Map<u32, u16>,
    s: FwdState,
    pkts: Seq<Mbuf>,
) -> FwdState
    decreases pkts.len(),
{
    if pkts.len() == 0 {
        s
    } else {
        fwd_one(clients, routes, fwd_all(clients, routes, s, pkts.drop_last()), pkts.last())
    }
}

/// What the packetiser works on when it collects packets from its clients.
pub struct StoreState {
    /// The table of rings.
    pub table: crate::memring::TableView,
    /// The packets that go back to the engine, oldest first.
    pub out: Seq<Mbuf>,
}

/// The state after the packetiser asked one client for a packet: the oldest
/// packet that the client sent, if there is one, joins the packets for the
/// engine, as long as their queue has room.
pub open spec fn store_one(
    clients: Map<u16, Channel>,
    out_bound: usize,
    s: StoreState,
    id: u16,
) -> StoreState {
    if s.out.len() < out_bound {
        match entry(clients, id) {
            Some(ch) => match s.table.front(ch.client_to_engine) {
                Some(pkt) => StoreState {
                    table: s.table.after_dequeue(ch.client_to_engine),
                    out: s.out.push(pkt),
                },
                None => s,
            },
            None => s,
        }
    } else {
        s
    }
}

/// The state after the packetiser asked the clients `ids`, in order.
pub open spec fn store_all(
    clients: Map<u16, Channel>,
    out_bound: usize,
    s: StoreState,
    ids: Seq<u16>,
) -> StoreState
    decreases ids.len(),
{
    if ids.len() == 0 {
        s
    } else {
        store_one(
            clients,
            out_bound,
            store_all(clients, out_bound, s, ids.drop_last()),
            ids.last(),
        )
    }
}

/// The packetiser.
pub struct Packetiser {
    channel: Channel,
    clientmap: RingClientMap,
    i_bufqueue: ArrayQueue<Mbuf>,
    o_bufqueue: ArrayQueue<Mbuf>,
    allocated_ids: Vec<u16>,
    last_allocated: u16,
    connections: ConnTable,
    dropped: u64,
}

impl Packetiser {
    /// The packets that came from the engine and wait to be looked at.
    pub closed spec fn i_bufqueue(&self) -> Seq<Mbuf> {
        held(self.i_bufqueue)
    }

    /// The packets that wait to go back to the engine.
    pub closed spec fn o_bufqueue(&self) -> Seq<Mbuf> {
        held(self.o_bufqueue)
    }

    /// The number of packets that each queue was made for.
    pub closed spec fn cap(&self) -> usize {
        bound(self.i_bufqueue)
    }

    /// The number of packets that the queue towards the engine was made for.
    pub closed spec fn out_cap(&self) -> usize {
        bound(self.o_bufqueue)
    }

    /// The client ids that are given out, in the order in which they were.
    pub closed spec fn allocated_ids(&self) -> Seq<u16> {
        self.allocated_ids@
    }

    /// The largest client id given out so far.
    pub closed spec fn last_allocated(&self) -> u16 {
        self.last_allocated
    }

    /// The channels of the clients.
    pub closed spec fn clients(&self) -> Map<u16, Channel> {
        self.clientmap@
    }

    /// The table of connections.
    pub closed spec fn connections(&self) -> Map<u64, ConnState> {
        self.connections@
    }

    /// The number of packets dropped so far.
    pub closed spec fn dropped(&self) -> u64 {
        self.dropped
    }

    /// The channel to the engine.
    pub closed spec fn channel(&self) -> Channel {
        self.channel
    }

    /// Everything but the two queues and the table of connections is as in
    /// `other`.
    pub open spec fn same_clients(&self, other: &Packetiser) -> bool {
        &&& self.cap() == other.cap()
        &&& self.out_cap() == other.out_cap()
        &&& self.allocated_ids() == other.allocated_ids()
        &&& self.last_allocated() == other.last_allocated()
        &&& self.clients() == other.clients()
        &&& self.channel() == other.channel()
    }

    /// Attaches to the channel that the engine made for the packetiser, as
    /// its client, with queues for `cap` packets each. Fails with `Invalid`
    /// when `cap` is zero or more than a queue can be made for, with
    /// `NoEntries` when the channel's rings are not in the table, and with
    /// `Exists` when the channel has its client already. Nothing changes
    /// when it fails.
    pub fn new(table: &mut RingTable, cap: usize) -> (r: Result<Self, MemoryError>)
        ensures
            match r {
                Ok(p) => {
                    &&& 0 < cap <= MAX_QUEUE
                    &&& old(table)@.has_channel(PACKETISER_ID)
                    &&& old(table)@.side_outcome(channel_of(PACKETISER_ID), Side::Client) is Ok
                    &&& final(table)@ == old(table)@.after_side(
                        channel_of(PACKETISER_ID),
                        Side::Client,
                    )
                    &&& p.channel() == channel_of(PACKETISER_ID)
                    &&& p.i_bufqueue() == no_buffers()
                    &&& p.o_bufqueue() == no_buffers()
                    &&& p.cap() == cap
                    &&& p.out_cap() == cap
                    &&& p.allocated_ids() == Seq::<u16>::empty()
                    &&& p.last_allocated() == PACKETISER_ID
                    &&& p.clients() == no_channels()
                    &&& p.connections() == Map::<u64, ConnState>::empty()
                    &&& p.dropped() == 0
                },
                Err(e) => {
                    &&& final(table)@ == old(table)@
                    &&& e == (if cap == 0 || cap > MAX_QUEUE {
                        MemoryError::Invalid
                    } else if !old(table)@.has_channel(PACKETISER_ID) {
                        MemoryError::NoEntries
                    } else {
                        MemoryError::Exists
                    })
                    &&& 0 < cap <= MAX_QUEUE && old(table)@.has_channel(PACKETISER_ID)
                        ==> old(table)@.side_outcome(channel_of(PACKETISER_ID), Side::Client)
                        == Err::<(), MemoryError>(MemoryError::Exists)
                },
            },
    {
        if cap == 0 || cap > MAX_QUEUE {
            return Err(MemoryError::Invalid);
        }
        let channel = match Channel::lookup(table, PACKETISER_ID) {
            Ok(ch) => ch,
            Err(e) => {
                return Err(e);
            },
        };
        match channel.attach(table, Side::Client) {
            Ok(()) => {},
            Err(e) => {
                return Err(e);
            },
        }
        Ok(
            Self {
                channel,
                clientmap: RingClientMap::new(),
                i_bufqueue: aq_new(cap),
                o_bufqueue: aq_new(cap),
                allocated_ids: Vec::new(),
                last_allocated: PACKETISER_ID,
                connections: ConnTable::new(),
                dropped: 0,
            },
        )
    }

    /// Gives up the client's side of the channel to the engine, so that
    /// another packetiser can attach.
    pub fn detach(&self, table: &mut RingTable)
        ensures
            final(table)@ == old(table)@.after_detach(
                self.channel().engine_to_client,
                crate::memring::RingEnd::Consumer,
            ).after_detach(self.channel().client_to_engine, crate::memring::RingEnd::Producer),
    {
        self.channel.detach(table, Side::Client);
    }

    /// Whether `id` is given out.
    fn is_allocated(&self, id: u16) -> (yes: bool)
        ensures
            yes == self.allocated_ids().contains(id),
    {
        let mut i: usize = 0;
        while i < self.allocated_ids.len()
            invariant
                i <= self.allocated_ids@.len(),
                forall|j: int| 0 <= j < i ==> self.allocated_ids@[j] != id,
            decreases self.allocated_ids@.len() - i,
        {
            if self.allocated_ids[i] == id {
                assert(self.allocated_ids@[i as int] == id);
                return true;
            }
            i = i + 1;
        }
        false
    }

    /// The id that the next client gets.
    pub fn next_id(&self) -> (r: Option<u16>)
        ensures
            r == next_client_id(self.allocated_ids(), self.last_allocated()),
    {
        let mut id: u16 = FIRST_CLIENT_ID;
        while id <= self.last_allocated
            invariant
                FIRST_CLIENT_ID <= id,
                id <= self.last_allocated + 1 || id == FIRST_CLIENT_ID,
                first_unused(
                    self.allocated_ids(),
                    FIRST_CLIENT_ID as int,
                    self.last_allocated as int,
                ) == first_unused(self.allocated_ids(), id as int, self.last_allocated as int),
            decreases self.last_allocated + 1 - id,
        {
            if !self.is_allocated(id) {
                return Some(id);
            }
            if id == u16::MAX {
                return None;
            }
            id = id + 1;
        }
        if self.last_allocated < u16::MAX {
            Some(self.last_allocated + 1)
        } else {
            None
        }
    }

    /// Adds a client: gives it the next id, makes its rings and registers
    /// its channel. Returns the id. Fails with `NoSpace` when the ids have
    /// run out, and as the registry does when the rings cannot be made;
    /// nothing changes then.
    pub fn add_client(&mut self, table: &mut RingTable) -> (r: Result<u16, RingClientMapError>)
        ensures
            final(self).i_bufqueue() == old(self).i_bufqueue(),
            final(self).o_bufqueue() == old(self).o_bufqueue(),
            final(self).cap() == old(self).cap(),
            final(self).out_cap() == old(self).out_cap(),
            final(self).channel() == old(self).channel(),
            final(self).connections() == old(self).connections(),
            final(self).dropped() == old(self).dropped(),
            match next_client_id(old(self).allocated_ids(), old(self).last_allocated()) {
                None => r == Err::<u16, RingClientMapError>(
                    RingClientMapError::MemoryError(MemoryError::NoSpace),
                ) && final(table)@ == old(table)@ && final(self).same_clients(old(self)),
                Some(id) => match old(table)@.channel_outcome(id) {
                    Err(m) => r == Err::<u16, RingClientMapError>(
                        RingClientMapError::MemoryError(m),
                    ) && final(table)@ == old(table)@ && final(self).same_clients(old(self)),
                    Ok(()) => {
                        &&& r == Ok::<u16, RingClientMapError>(id)
                        &&& final(table)@ == old(table)@.with_channel(id)
                        &&& final(self).clients() == old(self).clients().insert(
                            id,
                            channel_of(id),
                        )
                        &&& final(self).allocated_ids() == old(self).allocated_ids().push(id)
                        &&& final(self).last_allocated() == (if id > old(self).last_allocated() {
                            id
                        } else {
                            old(self).last_allocated()
                        })
                    },
                },
            },
    {
        let key = match self.next_id() {
            Some(id) => id,
            None => {
                return Err(RingClientMapError::MemoryError(MemoryError::NoSpace));
            },
        };
        match self.clientmap.add_client(table, key) {
            Ok(()) => {},
            Err(e) => {
                return Err(e);
            },
        }
        self.allocated_ids.push(key);
        if key > self.last_allocated {
            self.last_allocated = key;
        }
        Ok(key)
    }

    /// Removes a client: its id is free again, its channel leaves the
    /// registry, its rings leave the table, and the buffers that were still
    /// in them are handed back.
    pub fn remove_clients(&mut self, table: &mut RingTable, key: u16) -> (left: Vec<Mbuf>)
        ensures
            final(self).i_bufqueue() == old(self).i_bufqueue(),
            final(self).o_bufqueue() == old(self).o_bufqueue(),
            final(self).cap() == old(self).cap(),
            final(self).out_cap() == old(self).out_cap(),
            final(self).channel() == old(self).channel(),
            final(self).connections() == old(self).connections(),
            final(self).dropped() == old(self).dropped(),
            final(self).last_allocated() == old(self).last_allocated(),
            final(self).allocated_ids() == without_id(old(self).allocated_ids(), key),
            final(self).clients() == old(self).clients().remove(key),
            match entry(old(self).clients(), key) {
                None => left@ == Seq::<Mbuf>::empty() && final(table)@ == old(table)@,
                Some(ch) => {
                    &&& left@ == old(table)@.items_of(ch.engine_to_client) + old(table)@.without_ring(ch.engine_to_client).items_of(ch.client_to_engine)
                    &&& final(table)@ == old(table)@.without_ring(
                        ch.engine_to_client,
                    ).without_ring(ch.client_to_engine)
                },
            },
    {
        let mut index: usize = 0;
        while index < self.allocated_ids.len()
            invariant
                index <= self.allocated_ids@.len(),
                self.allocated_ids@ == old(self).allocated_ids@,
                position_from(self.allocated_ids@, key, 0) == position_from(
                    self.allocated_ids@,
                    key,
                    index as int,
                ),
            ensures
                index <= self.allocated_ids@.len(),
                self.allocated_ids@ == old(self).allocated_ids@,
                position_from(self.allocated_ids@, key, 0) == (if index
                    < self.allocated_ids@.len() {
                    Some(index as int)
                } else {
                    None
                }),
            decreases self.allocated_ids@.len() - index,
        {
            if self.allocated_ids[index] == key {
                break ;
            }
            index = index + 1;
        }
        if index < self.allocated_ids.len() {
            let _ = self.allocated_ids.remove(index);
        }
        self.clientmap.remove_client(table, key)
    }

    /// Takes packets from the engine's ring, as many as the queue of packets
    /// to look at has room for, and puts them in that queue. Returns how
    /// many there were. Fails with `NoEntries` when the ring is no longer in
    /// the table.
    pub fn recv_from_engine_burst(&mut self, table: &mut RingTable) -> (r: Result<
        usize,
        MemoryError,
    >)
        ensures
            final(self).same_clients(old(self)),
            final(self).o_bufqueue() == old(self).o_bufqueue(),
            final(self).connections() == old(self).connections(),
            final(self).dropped() == old(self).dropped(),
            match old(table)@.slot_of(old(self).channel().engine_to_client) {
                None => r == Err::<usize, MemoryError>(MemoryError::NoEntries) && final(table)@
                    == old(table)@ && final(self).i_bufqueue() == old(self).i_bufqueue(),
                Some(i) => {
                    let room = old(self).cap() - old(self).i_bufqueue().len();
                    let n = vstd::math::min(room, old(table)@.rings[i].items.len() as int);
                    &&& r == Ok::<usize, MemoryError>(n as usize)
                    &&& final(self).i_bufqueue() == old(self).i_bufqueue() + old(table)@.rings[i].items.subrange(0, n)
                    &&& final(table)@ == old(table)@.with_items(
                        i,
                        old(table)@.rings[i].items.subrange(
                            n,
                            old(table)@.rings[i].items.len() as int,
                        ),
                    )
                },
            },
    {
        if table.count(&self.channel.engine_to_client).is_none() {
            return Err(MemoryError::NoEntries);
        }
        let range = aq_capacity(&self.i_bufqueue) - aq_len(&self.i_bufqueue);
        let mut pkts: Vec<Mbuf> = Vec::new();
        let count = self.channel.recv_from_engine_burst(table, &mut pkts, range);
        let ghost got = pkts@;
        let mut k: usize = 0;
        proof {
            assert(self.i_bufqueue() =~= old(self).i_bufqueue() + got.subrange(0, 0));
        }
        while k < count
            invariant
                k <= count,
                count == got.len(),
                count <= range,
                range == old(self).cap() - old(self).i_bufqueue().len(),
                pkts@ == got.subrange(k as int, count as int),
                self.i_bufqueue() == old(self).i_bufqueue() + got.subrange(0, k as int),
                self.same_clients(old(self)),
                self.o_bufqueue() == old(self).o_bufqueue(),
                self.connections() == old(self).connections(),
                self.dropped() == old(self).dropped(),
            decreases count - k,
        {
            let pkt = pkts.remove(0);
            let _ = aq_push(&mut self.i_bufqueue, pkt);
            k = k + 1;
            proof {
                assert(pkts@ =~= got.subrange(k as int, count as int));
                assert(self.i_bufqueue() =~= old(self).i_bufqueue() + got.subrange(0, k as int));
            }
        }
        proof {
            assert(got.subrange(0, count as int) =~= got);
        }
        Ok(count)
    }

    /// Looks at every packet that came from the engine, oldest first: the
    /// frame of a TCP packet sets the entry of its connection, and the packet
    /// joins the queue towards the engine, unchanged; any other packet is
    /// dropped, and so is a packet for which that queue has no room. Returns
    /// the number of packets looked at.
    pub fn process_incoming(&mut self, mp: &mut Mempool) -> (n: usize)
        ensures
            final(mp)@.wf(),
            final(mp).spec_name() == old(mp).spec_name(),
            final(self).same_clients(old(self)),
            final(self).i_bufqueue() == no_buffers(),
            n == old(self).i_bufqueue().len(),
            ({
                let end = proc_all(
                    ProcState {
                        conns: old(self).connections(),
                        out: old(self).o_bufqueue(),
                        pool: old(mp)@,
                        dropped: old(self).dropped(),
                    },
                    old(self).out_cap(),
                    old(self).i_bufqueue(),
                );
                &&& final(self).connections() == end.conns
                &&& final(self).o_bufqueue() == end.out
                &&& final(mp)@ == end.pool
                &&& final(self).dropped() == end.dropped
            }),
    {
        let _ = mp.free_count();
        let ghost all = self.i_bufqueue();
        let ghost start = ProcState {
            conns: self.connections(),
            out: self.o_bufqueue(),
            pool: mp@,
            dropped: self.dropped(),
        };
        let ghost out_bound = self.out_cap();
        let mut n: usize = 0;
        let total = aq_len(&self.i_bufqueue);
        proof {
            assert(all.subrange(0, 0) =~= Seq::<Mbuf>::empty());
            assert(self.i_bufqueue() =~= all.subrange(0, all.len() as int));
        }
        while n < total
            invariant
                n <= total,
                total == all.len(),
                all == old(self).i_bufqueue(),
                out_bound == old(self).out_cap(),
                mp@.wf(),
                mp.spec_name() == old(mp).spec_name(),
                self.same_clients(old(self)),
                self.i_bufqueue() == all.subrange(n as int, all.len() as int),
                self.connections() == proc_all(start, out_bound, all.subrange(0, n as int)).conns,
                self.o_bufqueue() == proc_all(start, out_bound, all.subrange(0, n as int)).out,
                mp@ == proc_all(start, out_bound, all.subrange(0, n as int)).pool,
                self.dropped() == proc_all(start, out_bound, all.subrange(0, n as int)).dropped,
            ensures
                n == total,
            decreases total - n,
        {
            let ghost done = all.subrange(0, n as int);
            let ghost next = all.subrange(0, n + 1);
            proof {
                assert(next.drop_last() =~= done);
                assert(next.last() == all[n as int]);
            }
            let pkt = match aq_pop(&mut self.i_bufqueue) {
                Some(pkt) => pkt,
                None => {
                    proof {
                        assert(false);
                    }
                    break ;
                },
            };
            proof {
                assert(self.i_bufqueue() =~= all.subrange(n + 1, all.len() as int));
            }
            let key = self.connections.process(&pkt);
            let back = match key {
                Some(_) => aq_push(&mut self.o_bufqueue, pkt),
                None => Err(pkt),
            };
            match back {
                Ok(()) => {},
                Err(pkt) => {
                    let _ = mp.free(pkt);
                    self.dropped = counted(self.dropped, 1);
                },
            }
            n = n + 1;
        }
        proof {
            assert(all.subrange(0, all.len() as int) =~= all);
            assert(self.i_bufqueue() =~= no_buffers());
        }
        n
    }

    /// Hands the packets that wait for the engine to the engine's ring: all
    /// of them or none. When the ring does not take them, their buffers are
    /// freed. Returns the number of packets sent.
    pub fn send_to_engine_bulk(&mut self, table: &mut RingTable, mp: &mut Mempool) -> (n: usize)
        ensures
            final(mp)@.wf(),
            final(mp).spec_name() == old(mp).spec_name(),
            final(self).same_clients(old(self)),
            final(self).i_bufqueue() == old(self).i_bufqueue(),
            final(self).connections() == old(self).connections(),
            final(self).dropped() == old(self).dropped(),
            final(self).o_bufqueue() == no_buffers(),
            if old(self).channel().client_to_engine.bulk_fits(
                old(table)@,
                old(self).o_bufqueue().len(),
            ) {
                &&& n == old(self).o_bufqueue().len()
                &&& final(mp)@ == old(mp)@
                &&& final(table)@ == old(table)@.with_items(
                    old(table)@.slot_of(old(self).channel().client_to_engine)->0,
                    old(table)@.rings[old(table)@.slot_of(
                        old(self).channel().client_to_engine,
                    )->0].items + old(self).o_bufqueue(),
                )
            } else {
                &&& n == 0
                &&& final(table)@ == old(table)@
                &&& final(mp)@ == old(mp)@.after_free(
                    vstd::math::min(
                        count_owned(views(old(self).o_bufqueue()), old(mp)@.id) as int,
                        old(mp)@.in_use() as int,
                    ) as nat,
                )
            },
    {
        let _ = mp.free_count();
        let mut pkts: Vec<Mbuf> = Vec::new();
        let ghost all = self.o_bufqueue();
        let total = aq_len(&self.o_bufqueue);
        let mut k: usize = 0;
        proof {
            assert(pkts@ =~= all.subrange(0, 0));
            assert(self.o_bufqueue() =~= all.subrange(0, all.len() as int));
        }
        while k < total
            invariant
                k <= total,
                total == all.len(),
                all == old(self).o_bufqueue(),
                pkts@ == all.subrange(0, k as int),
                self.o_bufqueue() == all.subrange(k as int, all.len() as int),
                self.same_clients(old(self)),
                self.i_bufqueue() == old(self).i_bufqueue(),
                self.connections() == old(self).connections(),
                self.dropped() == old(self).dropped(),
            decreases total - k,
        {
            match aq_pop(&mut self.o_bufqueue) {
                Some(pkt) => {
                    pkts.push(pkt);
                },
                None => {
                    proof {
                        assert(false);
                    }
                },
            }
            k = k + 1;
            proof {
                assert(pkts@ =~= all.subrange(0, k as int));
                assert(self.o_bufqueue() =~= all.subrange(k as int, all.len() as int));
            }
        }
        proof {
            assert(all.subrange(0, all.len() as int) =~= all);
            assert(self.o_bufqueue() =~= no_buffers());
        }
        let sent = self.channel.send_to_engine_bulk(table, &mut pkts);
        if pkts.len() > 0 {
            let _ = mp.free_each(pkts);
        } else {
            proof {
                assert(views(pkts@) =~= Seq::<MbufView>::empty());
                assert(mp@ == old(mp)@.after_free(0));
                if all.len() == 0 {
                    assert(views(all) =~= Seq::<MbufView>::empty());
                }
            }
        }
        sent
    }

    /// Hands a packet to client `key`. The packet comes back with the error
    /// when the client is not registered or its ring refuses the packet.
    pub fn recv_from_clients(&self, table: &mut RingTable, key: u16, pkt: Mbuf) -> (r: Result<
        (),
        (RingClientMapError, Mbuf),
    >)
        ensures
            match entry(self.clients(), key) {
                None => r == Err::<(), (RingClientMapError, Mbuf)>(
                    (RingClientMapError::ClientNotFound(key), pkt),
                ) && final(table)@ == old(table)@,
                Some(ch) => final(table)@ == old(table)@.after_enqueue(ch.engine_to_client, pkt)
                    && (r is Ok <==> old(table)@.accepts(ch.engine_to_client)) && (r matches Err(
                    e,
                ) ==> e.1 == pkt),
            },
    {
        let r = self.clientmap.send(table, key, pkt);
        proof {
            match entry(self.clients(), key) {
                Some(ch) => {
                    match old(table)@.slot_of(ch.engine_to_client) {
                        Some(i) => {},
                        None => {},
                    }
                },
                None => {},
            }
        }
        r
    }

    /// Takes a packet that client `key` sent.
    pub fn send_to_clients(&self, table: &mut RingTable, key: u16) -> (r: Result<
        Mbuf,
        RingClientMapError,
    >)
        ensures
            match entry(self.clients(), key) {
                None => r == Err::<Mbuf, RingClientMapError>(
                    RingClientMapError::ClientNotFound(key),
                ) && final(table)@ == old(table)@,
                Some(ch) => match old(table)@.slot_of(ch.client_to_engine) {
                    Some(i) if old(table)@.rings[i].items.len() > 0 => r == Ok::<
                        Mbuf,
                        RingClientMapError,
                    >(old(table)@.rings[i].items[0]) && final(table)@ == old(table)@.with_items(
                        i,
                        old(table)@.rings[i].items.subrange(
                            1,
                            old(table)@.rings[i].items.len() as int,
                        ),
                    ),
                    _ => r == Err::<Mbuf, RingClientMapError>(
                        RingClientMapError::MemoryError(MemoryError::NoEntries),
                    ) && final(table)@ == old(table)@,
                },
            },
    {
        self.clientmap.receive(table, key)
    }

    /// The IPv4 header of a packet, if its frame is IPv4.
    pub fn ipv4hdr(&self, pkt: &Mbuf) -> (r: Option<Ipv4Hdr>)
        ensures
            r is Some <==> is_ipv4(pkt@.data),
            r matches Some(h) ==> h.spec_dst() == ipv4_dst(pkt@.data),
    {
        Ipv4Hdr::from_mbuf(pkt)
    }

    /// The destination address of a packet, if its frame is IPv4.
    pub fn get_ip_hdr(&self, buf: &Mbuf) -> (r: Option<u32>)
        ensures
            r == (if is_ipv4(buf@.data) {
                Some(ipv4_dst(buf@.data))
            } else {
                None
            }),
    {
        match Ipv4Hdr::from_mbuf(buf) {
            Some(h) => Some(h.get_dst_addr()),
            None => None,
        }
    }

    /// The client that a packet is for: the one that the routing table has
    /// under the packet's destination address, and no client when the frame
    /// is not IPv4 or the address has none.
    pub open spec fn client_for(routes: Map<u32, u16>, frame: Seq<u8>) -> u16 {
        if is_ipv4(frame) {
            id_of(routes, ipv4_dst(frame))
        } else {
            crate::routing::NO_CLIENT
        }
    }

    /// Decides [`Packetiser::client_for`].
    pub fn route(&self, routes: &RoutingTable, pkt: &Mbuf) -> (id: u16)
        ensures
            id == Self::client_for(routes.by_ip(), pkt@.data),
    {
        match self.get_ip_hdr(pkt) {
            Some(dst) => routes.id_from_ip(dst),
            None => crate::routing::NO_CLIENT,
        }
    }

    /// Forwards every packet that came from the engine, oldest first, to the
    /// client that the routing table has for the packet's destination
    /// address. A packet without such a client, and a packet that the
    /// client's ring does not take, is dropped. Returns the number of packets
    /// forwarded.
    pub fn forward_incoming_packets(
        &mut self,
        routes: &RoutingTable,
        table: &mut RingTable,
        mp: &mut Mempool,
    ) -> (n: usize)
        ensures
            final(mp)@.wf(),
            final(mp).spec_name() == old(mp).spec_name(),
            final(self).same_clients(old(self)),
            final(self).i_bufqueue() == no_buffers(),
            final(self).o_bufqueue() == old(self).o_bufqueue(),
            final(self).connections() == old(self).connections(),
            ({
                let end = fwd_all(
                    old(self).clients(),
                    routes.by_ip(),
                    FwdState {
                        table: old(table)@,
                        pool: old(mp)@,
                        dropped: old(self).dropped(),
                        forwarded: 0,
                    },
                    old(self).i_bufqueue(),
                );
                &&& final(table)@ == end.table
                &&& final(mp)@ == end.pool
                &&& final(self).dropped() == end.dropped
                &&& n == end.forwarded
            }),
    {
        let _ = mp.free_count();
        let ghost all = self.i_bufqueue();
        let ghost clients = self.clients();
        let ghost start = FwdState {
            table: table@,
            pool: mp@,
            dropped: self.dropped(),
            forwarded: 0,
        };
        let total = aq_len(&self.i_bufqueue);
        let mut k: usize = 0;
        let mut n: usize = 0;
        proof {
            assert(all.subrange(0, 0) =~= Seq::<Mbuf>::empty());
            assert(self.i_bufqueue() =~= all.subrange(0, all.len() as int));
        }
        while k < total
            invariant
                k <= total,
                n <= k,
                total == all.len(),
                all == old(self).i_bufqueue(),
                clients == old(self).clients(),
                mp@.wf(),
                mp.spec_name() == old(mp).spec_name(),
                self.same_clients(old(self)),
                self.o_bufqueue() == old(self).o_bufqueue(),
                self.connections() == old(self).connections(),
                self.i_bufqueue() == all.subrange(k as int, all.len() as int),
                table@ == fwd_all(clients, routes.by_ip(), start, all.subrange(0, k as int)).table,
                mp@ == fwd_all(clients, routes.by_ip(), start, all.subrange(0, k as int)).pool,
                self.dropped() == fwd_all(
                    clients,
                    routes.by_ip(),
                    start,
                    all.subrange(0, k as int),
                ).dropped,
                n == fwd_all(clients, routes.by_ip(), start, all.subrange(0, k as int)).forwarded,
            ensures
                k == total,
            decreases total - k,
        {
            proof {
                assert(all.subrange(0, k + 1).drop_last() =~= all.subrange(0, k as int));
                assert(all.subrange(0, k + 1).last() == all[k as int]);
            }
            let pkt = match aq_pop(&mut self.i_bufqueue) {
                Some(pkt) => pkt,
                None => {
                    proof {
                        assert(false);
                    }
                    break ;
                },
            };
            proof {
                assert(self.i_bufqueue() =~= all.subrange(k + 1, all.len() as int));
            }
            let id = self.route(routes, &pkt);
            match self.recv_from_clients(table, id, pkt) {
                Ok(()) => {
                    n = n + 1;
                },
                Err((_, pkt)) => {
                    let _ = mp.free(pkt);
                    self.dropped = counted(self.dropped, 1);
                },
            }
            k = k + 1;
        }
        proof {
            assert(all.subrange(0, all.len() as int) =~= all);
            assert(self.i_bufqueue() =~= no_buffers());
        }
        n
    }

    /// Asks each client once, in the order in which the clients were added,
    /// for a packet that it sent, and puts what comes among the packets for
    /// the engine, as long as their queue has room. Returns the number of
    /// packets that came.
    pub fn store_outgoing(&mut self, table: &mut RingTable) -> (n: usize)
        ensures
            final(self).same_clients(old(self)),
            final(self).i_bufqueue() == old(self).i_bufqueue(),
            final(self).connections() == old(self).connections(),
            final(self).dropped() == old(self).dropped(),
            ({
                let end = store_all(
                    old(self).clients(),
                    old(self).out_cap(),
                    StoreState { table: old(table)@, out: old(self).o_bufqueue() },
                    old(self).allocated_ids(),
                );
                &&& final(table)@ == end.table
                &&& final(self).o_bufqueue() == end.out
                &&& n == end.out.len() - old(self).o_bufqueue().len()
            }),
    {
        let ghost ids = self.allocated_ids();
        let ghost clients = self.clients();
        let ghost out_bound = self.out_cap();
        let ghost start = StoreState { table: table@, out: self.o_bufqueue() };
        let mut k: usize = 0;
        let mut n: usize = 0;
        proof {
            assert(ids.subrange(0, 0) =~= Seq::<u16>::empty());
        }
        while k < self.allocated_ids.len()
            invariant
                k <= ids.len(),
                n <= k,
                ids == self.allocated_ids(),
                ids == old(self).allocated_ids(),
                clients == old(self).clients(),
                out_bound == old(self).out_cap(),
                self.same_clients(old(self)),
                self.i_bufqueue() == old(self).i_bufqueue(),
                self.connections() == old(self).connections(),
                self.dropped() == old(self).dropped(),
                table@ == store_all(clients, out_bound, start, ids.subrange(0, k as int)).table,
                self.o_bufqueue() == store_all(
                    clients,
                    out_bound,
                    start,
                    ids.subrange(0, k as int),
                ).out,
                n == self.o_bufqueue().len() - start.out.len(),
            decreases ids.len() - k,
        {
            proof {
                assert(ids.subrange(0, k + 1).drop_last() =~= ids.subrange(0, k as int));
                assert(ids.subrange(0, k + 1).last() == ids[k as int]);
            }
            let id = self.allocated_ids[k];
            if aq_len(&self.o_bufqueue) < aq_capacity(&self.o_bufqueue) {
                match self.clientmap.receive(table, id) {
                    Ok(pkt) => {
                        let _ = aq_push(&mut self.o_bufqueue, pkt);
                        n = n + 1;
                    },
                    Err(_) => {},
                }
            }
            k = k + 1;
        }
        proof {
            assert(ids.subrange(0, ids.len() as int) =~= ids);
        }
        n
    }

    /// The number of packets that wait to be looked at.
    pub fn incoming_len(&self) -> (n: usize)
        ensures
            n == self.i_bufqueue().len(),
    {
        aq_len(&self.i_bufqueue)
    }

    /// The number of packets that wait to go back to the engine.
    pub fn outgoing_len(&self) -> (n: usize)
        ensures
            n == self.o_bufqueue().len(),
    {
        aq_len(&self.o_bufqueue)
    }

    /// The number of connections seen.
    pub fn connection_count(&self) -> (n: usize)
        ensures
            n == self.connections().len(),
    {
        self.connections.len()
    }

    /// The state of the connection under `key`, if there is one.
    pub fn connection(&self, key: u64) -> (r: Option<ConnState>)
        ensures
            r == (if self.connections().contains_key(key) {
                Some(self.connections()[key])
            } else {
                None
            }),
    {
        self.connections.get(key)
    }

    /// The number of packets dropped so far.
    pub fn dropped_count(&self) -> (n: u64)
        ensures
            n == self.dropped(),
    {
        self.dropped
    }
}

} // verus!
