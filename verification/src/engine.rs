//! The engine: the receive step, which sorts the frames of a burst into
//! replies, packets for the packetiser and frames to drop, and the transmit
//! step, which sends what the packetiser returned and what the engine
//! answered itself.

use vstd::prelude::*;
use crossbeam_queue::SegQueue;
use crate::queues::{no_buffers, queued, seg_len, seg_new, seg_pop, seg_push};
use crate::error::{bump, count_more, counted, RingClientMapError};
use crate::mbuf::{Mbuf, MbufView};
use crate::mempool::{count_owned, views, Mempool, PoolView};
use crate::memring::RingTable;
use crate::packetiser::PACKETISER_ID;
use crate::net::wire::{arp_reply, arp_tpa, echo_reply, ether_type, ethertype, ARP_FRAME_LEN, ETHERTYPE_IPV4};
use crate::port::{
    frames_of,
    pair_of,
    paired_queue,
    rx_views,
    wire_frames,
    Port,
    RX_BURST_MAX,
    TX_BURST_MAX,
};
use crate::registry::{entry, RingClientMap};
use crate::server::{
    arp_for_us,
    echo_for_us,
    local_mac,
    pool_after_return,
    pool_provides,
    NetworkInterface,
    Server,
};

verus! {

/// The number of buffers that the queue of frames to transmit holds unless
/// told otherwise.
pub const TX_QUEUE_CACHE_SZ: usize = 512;

/// What the engine does with a frame.
pub enum Verdict {
    /// The frame is neither ARP for us nor IPv4: its buffer is freed.
    Drop,
    /// The frame is an ARP request for a local address: it is answered.
    ArpReply,
    /// The frame is an echo request to a local address: it is answered.
    EchoReply,
    /// The frame is IPv4: it goes to the packetiser.
    Forward,
}

/// The engine's verdict on a frame.
pub open spec fn verdict(ifaces: Seq<NetworkInterface>, frame: Seq<u8>) -> Verdict {
    if arp_for_us(ifaces, frame) is Some {
        Verdict::ArpReply
    } else if echo_for_us(ifaces, frame) {
        Verdict::EchoReply
    } else if ethertype(frame) == Some(ETHERTYPE_IPV4) {
        Verdict::Forward
    } else {
        Verdict::Drop
    }
}

/// What the receive step works on: the pool, the frames to transmit and the
/// packets for the packetiser.
pub struct RxState {
    /// The pool.
    pub pool: PoolView,
    /// The frames to transmit, oldest first.
    pub out: Seq<MbufView>,
    /// The packets for the packetiser, oldest first.
    pub fwd: Seq<MbufView>,
    /// The number of frames lost so far for want of a buffer or of room.
    pub dropped: u64,
}

/// The state after a request was answered with `reply`: the request goes
/// back to the pool, and the reply is queued if the pool can provide a
/// buffer for it. If it cannot, the loss is counted.
pub open spec fn rx_answer(s: RxState, req: MbufView, reply: Seq<u8>) -> RxState {
    let pool = pool_after_return(s.pool, req);
    if pool_provides(pool, reply.len()) {
        RxState { pool: pool.after_alloc(), out: s.out.push(pool.fresh().with_data(reply)), ..s }
    } else {
        RxState { pool, dropped: bump(s.dropped), ..s }
    }
}

/// The state after the receive step dealt with one buffer.
pub open spec fn rx_one(ifaces: Seq<NetworkInterface>, s: RxState, v: MbufView) -> RxState {
    match verdict(ifaces, v.data) {
        Verdict::ArpReply => rx_answer(
            s,
            v,
            arp_reply(v.data, local_mac(ifaces, arp_tpa(v.data))->0@, arp_tpa(v.data)),
        ),
        Verdict::EchoReply => rx_answer(s, v, echo_reply(v.data)),
        Verdict::Forward => RxState { fwd: s.fwd.push(v), ..s },
        Verdict::Drop => RxState { pool: pool_after_return(s.pool, v), ..s },
    }
}

/// The state after the receive step dealt with the buffers `vs`, in order.
pub open spec fn rx_all(ifaces: Seq<NetworkInterface>, s: RxState, vs: Seq<MbufView>) -> RxState
    decreases vs.len(),
{
    if vs.len() == 0 {
        s
    } else {
        rx_one(ifaces, rx_all(ifaces, s, vs.drop_last()), vs.last())
    }
}

/// The receive step neither loses a buffer nor makes one up: when the
/// buffers that it deals with are the pool's own, and the pool has that many
/// handed out, each of them ends up back in the pool, among the frames to
/// transmit (as itself or as the reply that took its place), or among the
/// packets for the packetiser.
pub proof fn lemma_rx_conserves(ifaces: Seq<NetworkInterface>, s: RxState, vs: Seq<MbufView>)
    requires
        s.pool.wf(),
        forall|i: int| 0 <= i < vs.len() ==> (#[trigger] vs[i]).pool == s.pool.id,
        vs.len() <= s.pool.in_use(),
    ensures
        ({
            let t = rx_all(ifaces, s, vs);
            &&& t.pool.free + t.out.len() + t.fwd.len() == s.pool.free + s.out.len() + s.fwd.len()
                + vs.len()
            &&& t.pool.wf()
            &&& t.pool.id == s.pool.id
            &&& t.pool.capacity == s.pool.capacity
            &&& t.out.len() >= s.out.len()
            &&& t.fwd.len() >= s.fwd.len()
            &&& t.out.len() + t.fwd.len() <= s.out.len() + s.fwd.len() + vs.len()
        }),
    decreases vs.len(),
{
    if vs.len() > 0 {
        lemma_rx_conserves(ifaces, s, vs.drop_last());
    }
}

/// Every ARP request for a local address is answered exactly once: when the
/// request sits in a buffer of the pool, and the pool's buffers hold an ARP
/// frame, the receive step adds one frame to those to transmit and nothing
/// else. The frame added is an ARP reply from the local binding to the sender
/// of the request, with the hardware addresses of the request's Ethernet
/// header in each other's place.
pub proof fn lemma_arp_request_answered(
    ifaces: Seq<NetworkInterface>,
    s: RxState,
    req: MbufView,
)
    requires
        s.pool.wf(),
        arp_for_us(ifaces, req.data) is Some,
        req.pool == s.pool.id,
        s.pool.in_use() > 0,
        ARP_FRAME_LEN <= s.pool.buf_len - s.pool.headroom,
    ensures
        ({
            let t = rx_one(ifaces, s, req);
            let mac = local_mac(ifaces, arp_tpa(req.data))->0@;
            let reply = arp_reply(req.data, mac, arp_tpa(req.data));
            &&& t.out == s.out.push(s.pool.fresh().with_data(reply))
            &&& t.fwd == s.fwd
            &&& t.pool == s.pool
            &&& t.dropped == s.dropped
            &&& crate::net::wire::is_arp(reply)
            &&& crate::net::wire::arp_oper(reply) == crate::net::wire::ARP_REPLY
            &&& crate::net::wire::ether_dst(reply) == crate::net::wire::ether_src(req.data)
            &&& crate::net::wire::ether_src(reply) == crate::net::wire::ether_dst(req.data)
            &&& crate::net::wire::arp_sha(reply) == mac
            &&& crate::net::wire::arp_spa(reply) == arp_tpa(req.data)
            &&& crate::net::wire::arp_tha(reply) == crate::net::wire::arp_sha(req.data)
            &&& crate::net::wire::arp_tpa(reply) == crate::net::wire::arp_spa(req.data)
        }),
{
    let mac = local_mac(ifaces, arp_tpa(req.data))->0@;
    assert(mac.len() == 6);
    crate::net::wire::lemma_arp_reply_fields(req.data, mac, arp_tpa(req.data));
}

/// The first `max` of `items`, or all of them if there are fewer.
pub open spec fn burst_len(n: nat, max: usize) -> nat {
    if n <= max {
        n
    } else {
        max as nat
    }
}

/// Takes up to `max` buffers from the head of a queue, oldest first.
fn take_burst(q: &mut SegQueue<Mbuf>, max: usize) -> (burst: Vec<Mbuf>)
    ensures
        burst@ == queued(*old(q)).subrange(0, burst_len(queued(*old(q)).len(), max) as int),
        queued(*final(q)) == queued(*old(q)).subrange(
            burst_len(queued(*old(q)).len(), max) as int,
            queued(*old(q)).len() as int,
        ),
{
    let mut burst: Vec<Mbuf> = Vec::new();
    let ghost all = queued(*q);
    let mut n: usize = 0;
    proof {
        assert(burst@ =~= all.subrange(0, 0));
        assert(queued(*q) =~= all.subrange(0, all.len() as int));
    }
    while n < max
        invariant
            n <= max,
            n <= all.len(),
            all == queued(*old(q)),
            burst@ == all.subrange(0, n as int),
            queued(*q) == all.subrange(n as int, all.len() as int),
        ensures
            n == burst_len(all.len(), max),
        decreases max - n,
    {
        match seg_pop(q) {
            None => {
                proof {
                    assert(all.subrange(n as int, all.len() as int).len() == 0);
                }
                break ;
            },
            Some(p) => {
                burst.push(p);
                n = n + 1;
                proof {
                    assert(burst@ =~= all.subrange(0, n as int));
                    assert(queued(*q) =~= all.subrange(n as int, all.len() as int));
                }
            },
        }
    }
    burst
}

/// The engine's own state: the responder, the channel registry and the
/// three staging queues.
pub struct Engine {
    server: Server,
    registry: RingClientMap,
    out_pkts: SegQueue<Mbuf>,
    to_packetiser: SegQueue<Mbuf>,
    from_packetiser: SegQueue<Mbuf>,
    out_capacity: usize,
    dropped: u64,
}

impl Engine {
    /// The frames that are ready to transmit, oldest first.
    pub closed spec fn out_pkts(&self) -> Seq<Mbuf> {
        queued(self.out_pkts)
    }

    /// The packets that wait for the packetiser, oldest first.
    pub closed spec fn to_packetiser(&self) -> Seq<Mbuf> {
        queued(self.to_packetiser)
    }

    /// The packets that the packetiser returned, oldest first.
    pub closed spec fn from_packetiser(&self) -> Seq<Mbuf> {
        queued(self.from_packetiser)
    }

    /// The number of frames to transmit beyond which the engine takes no more
    /// frames from the card.
    pub closed spec fn out_capacity(&self) -> nat {
        self.out_capacity as nat
    }

    /// The number of frames lost so far: frames that arrived and replies for
    /// which the pool had no buffer, packets that the packetiser's ring did
    /// not take, and frames that the card refused.
    pub closed spec fn dropped(&self) -> u64 {
        self.dropped
    }

    /// The local bindings.
    pub closed spec fn bindings(&self) -> Seq<NetworkInterface> {
        self.server@
    }

    /// The registered channels.
    pub closed spec fn channels(&self) -> Map<u16, crate::memring::Channel> {
        self.registry@
    }

    /// Whether the queue of frames to transmit has room for a whole burst.
    pub open spec fn spec_rx_ready(&self) -> bool {
        self.out_pkts().len() + RX_BURST_MAX <= self.out_capacity()
    }

    /// What the receive step does: `after` is the engine after the step that
    /// received `n` buffers, `pool` and `pool_after` are the pool before and
    /// after it, and `wire` holds the frames that arrived.
    pub open spec fn received(
        &self,
        after: Engine,
        port: &Port,
        queue: u16,
        pool: PoolView,
        pool_after: PoolView,
        wire: Seq<Seq<u8>>,
        n: usize,
    ) -> bool {
        &&& (after.from_packetiser() == self.from_packetiser())
        &&& (after.out_capacity() == self.out_capacity())
        &&& (after.bindings() == self.bindings())
        &&& (after.channels() == self.channels())
        &&& (!self.spec_rx_ready() ==> {
                &&& n == 0
                &&& pool_after == pool
                &&& after.out_pkts() == self.out_pkts()
                &&& after.to_packetiser() == self.to_packetiser()
                &&& after.dropped() == self.dropped()
            })
        &&& (self.spec_rx_ready() ==> ({
                let burst = port.burst_of(queue, wire);
                let bufs = rx_views(pool, burst);
                let start = RxState {
                    pool: PoolView { free: (pool.free - bufs.len()) as nat, ..pool },
                    out: views(self.out_pkts()),
                    fwd: views(self.to_packetiser()),
                    dropped: count_more(self.dropped(), (burst.len() - bufs.len()) as nat),
                };
                let end = rx_all(self.bindings(), start, bufs);
                &&& n == bufs.len()
                &&& pool_after == end.pool
                &&& views(after.out_pkts()) == end.out
                &&& views(after.to_packetiser()) == end.fwd
                &&& after.dropped() == end.dropped
            }))
    }

    /// What the step towards the packetiser does: `after` is the engine after
    /// the step that sent `n` packets, `table` and `pool` are the table of
    /// rings and the pool before it, `table_after` and `pool_after` after it.
    pub open spec fn handed_over(
        &self,
        after: Engine,
        table: crate::memring::TableView,
        table_after: crate::memring::TableView,
        pool: PoolView,
        pool_after: PoolView,
        n: usize,
    ) -> bool {
        &&& (after.out_pkts() == self.out_pkts())
        &&& (after.from_packetiser() == self.from_packetiser())
        &&& (after.out_capacity() == self.out_capacity())
        &&& (after.bindings() == self.bindings())
        &&& (after.channels() == self.channels())
        &&& (({
                let k = burst_len(self.to_packetiser().len(), TX_BURST_MAX) as int;
                let burst = self.to_packetiser().subrange(0, k);
                &&& after.to_packetiser() == self.to_packetiser().subrange(
                    k,
                    self.to_packetiser().len() as int,
                )
                &&& match entry(self.channels(), PACKETISER_ID) {
                    Some(ch) if ch.engine_to_client.bulk_fits(table, burst.len()) => {
                        &&& n == k
                        &&& pool_after == pool
                        &&& after.dropped() == self.dropped()
                        &&& table_after == table.with_items(
                            table.slot_of(ch.engine_to_client)->0,
                            table.rings[table.slot_of(ch.engine_to_client)->0].items
                                + burst,
                        )
                    },
                    _ => {
                        &&& n == 0
                        &&& table_after == table
                        &&& after.dropped() == count_more(self.dropped(), burst.len())
                        &&& pool_after == pool.after_free(
                            vstd::math::min(
                                count_owned(views(burst), pool.id) as int,
                                pool.in_use() as int,
                            ) as nat,
                        )
                    },
                }
            }))
    }

    /// What the step from the packetiser does: `after` is the engine after
    /// the step that left `left` packets waiting, `table` and `table_after`
    /// are the table of rings before and after it.
    pub open spec fn returned(
        &self,
        after: Engine,
        table: crate::memring::TableView,
        table_after: crate::memring::TableView,
        left: usize,
    ) -> bool {
        &&& (after.dropped() == self.dropped())
        &&& (after.to_packetiser() == self.to_packetiser())
        &&& (after.out_capacity() == self.out_capacity())
        &&& (after.bindings() == self.bindings())
        &&& (after.channels() == self.channels())
        &&& (({
                let got = match entry(self.channels(), PACKETISER_ID) {
                    Some(ch) => {
                        let items = table.items_of(ch.client_to_engine);
                        items.subrange(0, burst_len(items.len(), RX_BURST_MAX) as int)
                    },
                    None => Seq::<Mbuf>::empty(),
                };
                let staged = self.from_packetiser() + got;
                let room = if self.out_pkts().len() <= self.out_capacity() {
                    (self.out_capacity() - self.out_pkts().len()) as nat
                } else {
                    0nat
                };
                let moved = if staged.len() <= room {
                    staged.len()
                } else {
                    room
                };
                &&& after.out_pkts() == self.out_pkts() + staged.subrange(
                    0,
                    moved as int,
                )
                &&& after.from_packetiser() == staged.subrange(
                    moved as int,
                    staged.len() as int,
                )
                &&& left == staged.len() - moved
                &&& match entry(self.channels(), PACKETISER_ID) {
                    Some(ch) => match table.slot_of(ch.client_to_engine) {
                        Some(i) => table_after == table.with_items(
                            i,
                            table.rings[i].items.subrange(
                                got.len() as int,
                                table.rings[i].items.len() as int,
                            ),
                        ),
                        None => table_after == table,
                    },
                    None => table_after == table,
                }
            }))
    }

    /// What the transmit burst does: `after` is the engine after the burst
    /// that sent `n` frames to a card with room for `room`; `port`, `pool`
    /// and `wire` are the port, the pool and the frames sent before it,
    /// `port_after`, `pool_after` and `wire_after` after it.
    pub open spec fn sent_out(
        &self,
        after: Engine,
        port: Port,
        port_after: Port,
        queue: u16,
        room: usize,
        pool: PoolView,
        pool_after: PoolView,
        wire: Seq<Seq<u8>>,
        wire_after: Seq<Seq<u8>>,
        n: usize,
    ) -> bool {
        &&& (after.to_packetiser() == self.to_packetiser())
        &&& (after.from_packetiser() == self.from_packetiser())
        &&& (after.out_capacity() == self.out_capacity())
        &&& (after.bindings() == self.bindings())
        &&& (after.channels() == self.channels())
        &&& (({
                let k = burst_len(self.out_pkts().len(), TX_BURST_MAX) as int;
                let burst = self.out_pkts().subrange(0, k);
                &&& after.out_pkts() == self.out_pkts().subrange(
                    k,
                    self.out_pkts().len() as int,
                )
                &&& n == port.sent_of(paired_queue(queue), k as nat, room)
                &&& after.dropped() == count_more(self.dropped(), (k - n) as nat)
                &&& wire_after == wire + frames_of(
                    views(burst).subrange(0, n as int),
                )
                &&& port_after.same_setup(&port)
                &&& port_after.on_card() == port.on_card() + burst.subrange(0, n as int)
                &&& pool_after == pool.after_free(
                    vstd::math::min(
                        count_owned(views(burst.subrange(n as int, k)), pool.id) as int,
                        pool.in_use() as int,
                    ) as nat,
                )
            }))
    }

    /// An engine with the given responder, without clients and with empty
    /// queues.
    pub fn new(server: Server, out_capacity: usize) -> (e: Self)
        ensures
            e.out_pkts() == no_buffers(),
            e.to_packetiser() == no_buffers(),
            e.from_packetiser() == no_buffers(),
            e.out_capacity() == out_capacity,
            e.bindings() == server@,
            e.channels() == crate::registry::no_channels(),
            e.dropped() == 0,
    {
        Self {
            server,
            registry: RingClientMap::new(),
            out_pkts: seg_new(),
            to_packetiser: seg_new(),
            from_packetiser: seg_new(),
            out_capacity,
            dropped: 0,
        }
    }

    /// Registers a client and makes its rings.
    pub fn add_client(&mut self, table: &mut RingTable, client_id: u16) -> (r: Result<
        (),
        RingClientMapError,
    >)
        ensures
            final(self).out_pkts() == old(self).out_pkts(),
            final(self).to_packetiser() == old(self).to_packetiser(),
            final(self).from_packetiser() == old(self).from_packetiser(),
            final(self).out_capacity() == old(self).out_capacity(),
            final(self).bindings() == old(self).bindings(),
            final(self).dropped() == old(self).dropped(),
            match r {
                Ok(()) => {
                    &&& old(table)@.channel_outcome(client_id) is Ok
                    &&& final(self).channels() == old(self).channels().insert(
                        client_id,
                        crate::memring::channel_of(client_id),
                    )
                    &&& final(table)@ == old(table)@.with_channel(client_id)
                },
                Err(e) => {
                    &&& old(table)@.channel_outcome(client_id) matches Err(m)
                    &&& e == RingClientMapError::MemoryError(m)
                    &&& final(self).channels() == old(self).channels()
                    &&& final(table)@ == old(table)@
                },
            },
    {
        self.registry.add_client(table, client_id)
    }

    /// The number of frames that are ready to transmit.
    pub fn out_len(&self) -> (n: usize)
        ensures
            n == self.out_pkts().len(),
    {
        seg_len(&self.out_pkts)
    }

    /// The number of packets that wait for the packetiser.
    pub fn to_packetiser_len(&self) -> (n: usize)
        ensures
            n == self.to_packetiser().len(),
    {
        seg_len(&self.to_packetiser)
    }

    /// The number of packets that the packetiser returned and that are not
    /// yet among the frames to transmit.
    pub fn from_packetiser_len(&self) -> (n: usize)
        ensures
            n == self.from_packetiser().len(),
    {
        seg_len(&self.from_packetiser)
    }

    /// The number of frames lost so far.
    pub fn dropped_count(&self) -> (n: u64)
        ensures
            n == self.dropped(),
    {
        self.dropped
    }

    /// Whether the receive step takes frames from the card: not while the
    /// queue of frames to transmit is within one burst of its capacity.
    pub fn rx_ready(&self) -> (ready: bool)
        ensures
            ready == self.spec_rx_ready(),
    {
        let n = seg_len(&self.out_pkts);
        n <= self.out_capacity && self.out_capacity - n >= RX_BURST_MAX
    }

    /// Puts a frame among the frames to transmit.
    pub fn push_out(&mut self, pkt: Mbuf)
        ensures
            final(self).out_pkts() == old(self).out_pkts().push(pkt),
            final(self).to_packetiser() == old(self).to_packetiser(),
            final(self).from_packetiser() == old(self).from_packetiser(),
            final(self).out_capacity() == old(self).out_capacity(),
            final(self).bindings() == old(self).bindings(),
            final(self).channels() == old(self).channels(),
            final(self).dropped() == old(self).dropped(),
    {
        seg_push(&mut self.out_pkts, pkt);
    }

    /// The receive step. Unless the queue of frames to transmit is within one
    /// burst of its capacity, in which case nothing is taken from the card,
    /// one burst is received on queue `queue_id` of the port and each buffer
    /// is dealt with in
    /// turn: an ARP request for a local address and an echo request to a
    /// local address are answered, the reply joining the frames to transmit;
    /// any other IPv4 frame joins the packets for the packetiser; everything
    /// else is freed. A frame of the burst that found no buffer is lost, and
    /// the loss is counted. Returns the number of buffers received.
    pub fn get_external_pkts(
        &mut self,
        port: &Port,
        queue_id: u16,
        mp: &mut Mempool,
        wire: &Vec<Vec<u8>>,
    ) -> (n: usize)
        ensures
            final(mp)@.wf(),
            final(mp).spec_name() == old(mp).spec_name(),
            old(self).received(
                *final(self),
                port,
                queue_id,
                old(mp)@,
                final(mp)@,
                wire_frames(wire@),
                n,
            ),
            final(mp)@.free + final(self).out_pkts().len() + final(self).to_packetiser().len()
                == old(mp)@.free + old(self).out_pkts().len() + old(self).to_packetiser().len(),
            final(self).out_pkts().len() <= old(self).out_pkts().len() + n,
            n <= RX_BURST_MAX,
    {
        let _ = mp.free_count();
        if !self.rx_ready() {
            return 0;
        }
        let arrived = port.burst_size(queue_id, wire.len());
        let mut pkts = port.receive(queue_id, mp, wire);
        let len = pkts.len();
        proof {
            crate::port::lemma_rx_views_len(
                old(mp)@,
                port.burst_of(queue_id, wire_frames(wire@)),
            );
        }
        self.dropped = counted(self.dropped, arrived - len);
        let ghost ifaces = self.server@;
        let ghost all = views(pkts@);
        let ghost start = RxState {
            pool: mp@,
            out: views(old(self).out_pkts()),
            fwd: views(old(self).to_packetiser()),
            dropped: self.dropped(),
        };
        proof {
            assert(all.subrange(0, 0) =~= Seq::<MbufView>::empty());
            assert forall|i: int| 0 <= i < all.len() implies (#[trigger] all[i]).pool
                == old(mp)@.id by {
                lemma_rx_views_pool(old(mp)@, port.burst_of(queue_id, wire_frames(wire@)), i);
            }
        }
        let mut k: usize = 0;
        while k < len
            invariant
                k <= len,
                len == all.len(),
                pkts@.len() == len - k,
                views(pkts@) == all.subrange(k as int, len as int),
                ifaces == self.server@,
                start.pool.wf(),
                forall|i: int| 0 <= i < all.len() ==> (#[trigger] all[i]).pool == start.pool.id,
                all.len() <= start.pool.in_use(),
                mp@ == rx_all(ifaces, start, all.subrange(0, k as int)).pool,
                mp.spec_name() == old(mp).spec_name(),
                views(self.out_pkts()) == rx_all(ifaces, start, all.subrange(0, k as int)).out,
                views(self.to_packetiser()) == rx_all(
                    ifaces,
                    start,
                    all.subrange(0, k as int),
                ).fwd,
                self.dropped() == rx_all(ifaces, start, all.subrange(0, k as int)).dropped,
                self.from_packetiser() == old(self).from_packetiser(),
                self.out_capacity() == old(self).out_capacity(),
                self.channels() == old(self).channels(),
            decreases len - k,
        {
            let ghost done = all.subrange(0, k as int);
            let ghost next = all.subrange(0, k + 1);
            let ghost before = rx_all(ifaces, start, done);
            let ghost rest = views(pkts@);
            let ghost prev = pkts@;
            let pkt = pkts.remove(0);
            proof {
                assert(next.drop_last() =~= done);
                assert(next.last() == all[k as int]);
                assert(pkt@ == rest[0]);
                assert(pkts@ == prev.remove(0));
                assert forall|i: int| 0 <= i < pkts@.len() implies views(pkts@)[i] == rest[i
                    + 1] by {
                    assert(pkts@[i] == prev[i + 1]);
                }
                assert(views(pkts@) =~= all.subrange(k + 1, len as int));
                lemma_rx_conserves(ifaces, start, done);
            }
            let ghost out_before = self.out_pkts();
            let ghost fwd_before = self.to_packetiser();
            if self.server.detect_arp(&pkt).is_some() {
                match self.server.send_arp_reply(pkt, mp) {
                    Some(reply) => {
                        seg_push(&mut self.out_pkts, reply);
                        proof {
                            assert(views(self.out_pkts()) =~= views(out_before).push(reply@));
                        }
                    },
                    None => {
                        self.dropped = counted(self.dropped, 1);
                    },
                }
            } else if self.server.detect_echo(&pkt) {
                match self.server.send_echo_reply(pkt, mp) {
                    Some(reply) => {
                        seg_push(&mut self.out_pkts, reply);
                        proof {
                            assert(views(self.out_pkts()) =~= views(out_before).push(reply@));
                        }
                    },
                    None => {
                        self.dropped = counted(self.dropped, 1);
                    },
                }
            } else {
                let forward = match ether_type(pkt.data_slice()) {
                    Some(t) => t == ETHERTYPE_IPV4,
                    None => false,
                };
                if forward {
                    seg_push(&mut self.to_packetiser, pkt);
                    proof {
                        assert(views(self.to_packetiser()) =~= views(fwd_before).push(pkt@));
                    }
                } else {
                    let _ = mp.free(pkt);
                }
            }
            k = k + 1;
        }
        proof {
            assert(all.subrange(0, len as int) =~= all);
            lemma_rx_conserves(ifaces, start, all);
        }
        len
    }

    /// Hands one burst of the packets that wait for the packetiser to the
    /// packetiser's ring: all of the burst or none of it. When the ring does
    /// not take the burst, or the packetiser has no channel, the buffers of
    /// the burst are freed. Returns the number of packets sent.
    pub fn send_to_packetiser(&mut self, table: &mut RingTable, mp: &mut Mempool) -> (n: usize)
        ensures
            final(mp)@.wf(),
            final(mp).spec_name() == old(mp).spec_name(),
            old(self).handed_over(
                *final(self),
                old(table)@,
                final(table)@,
                old(mp)@,
                final(mp)@,
                n,
            ),
    {
        let _ = mp.free_count();
        let mut burst = take_burst(&mut self.to_packetiser, TX_BURST_MAX);
        let sent = match self.registry.send_bulk(table, PACKETISER_ID, &mut burst) {
            Ok(n) => n,
            Err(_) => 0,
        };
        if burst.len() > 0 {
            self.dropped = counted(self.dropped, burst.len());
            let _ = mp.free_each(burst);
        } else {
            proof {
                assert(views(burst@) =~= Seq::<MbufView>::empty());
                assert(mp@ == old(mp)@.after_free(0));
                if !(entry(old(self).channels(), PACKETISER_ID) matches Some(ch)
                    && ch.engine_to_client.bulk_fits(
                    old(table)@,
                    burst_len(old(self).to_packetiser().len(), TX_BURST_MAX),
                )) {
                    assert(views(
                        old(self).to_packetiser().subrange(
                            0,
                            burst_len(old(self).to_packetiser().len(), TX_BURST_MAX) as int,
                        ),
                    ) =~= Seq::<MbufView>::empty());
                }
            }
        }
        sent
    }

    /// Takes one burst from the packetiser's ring and moves what the
    /// packetiser returned to the frames to transmit, as far as these have
    /// room. Returns the number of packets that still wait.
    pub fn get_from_packetiser(&mut self, table: &mut RingTable) -> (left: usize)
        ensures
            old(self).returned(*final(self), old(table)@, final(table)@, left),
    {
        let mut pkts: Vec<Mbuf> = Vec::new();
        let _ = self.registry.receive_bulk(table, PACKETISER_ID, &mut pkts, RX_BURST_MAX);
        let ghost got = pkts@;
        let ghost staged = old(self).from_packetiser() + got;
        proof {
            match entry(old(self).channels(), PACKETISER_ID) {
                Some(ch) => {
                    match old(table)@.slot_of(ch.client_to_engine) {
                        Some(i) => {
                            assert(got =~= old(table)@.rings[i].items.subrange(
                                0,
                                got.len() as int,
                            ));
                        },
                        None => {
                            assert(got =~= Seq::<Mbuf>::empty());
                            assert(Seq::<Mbuf>::empty().subrange(0, 0) =~= Seq::<Mbuf>::empty());
                        },
                    }
                },
                None => {
                    assert(got =~= Seq::<Mbuf>::empty());
                },
            }
        }
        let total = pkts.len();
        let mut k: usize = 0;
        proof {
            assert(self.from_packetiser() =~= old(self).from_packetiser() + got.subrange(0, 0));
        }
        while k < total
            invariant
                k <= total,
                total == got.len(),
                pkts@ == got.subrange(k as int, total as int),
                self.from_packetiser() == old(self).from_packetiser() + got.subrange(0, k as int),
                self.out_pkts() == old(self).out_pkts(),
                self.to_packetiser() == old(self).to_packetiser(),
                self.out_capacity() == old(self).out_capacity(),
                self.bindings() == old(self).bindings(),
                self.channels() == old(self).channels(),
                self.dropped() == old(self).dropped(),
            decreases total - k,
        {
            let pkt = pkts.remove(0);
            seg_push(&mut self.from_packetiser, pkt);
            k = k + 1;
            proof {
                assert(pkts@ =~= got.subrange(k as int, total as int));
                assert(self.from_packetiser() =~= old(self).from_packetiser() + got.subrange(
                    0,
                    k as int,
                ));
            }
        }
        proof {
            assert(got.subrange(0, total as int) =~= got);
        }
        let mut moved: usize = 0;
        let have = seg_len(&self.out_pkts);
        let room: usize = if have <= self.out_capacity {
            self.out_capacity - have
        } else {
            0
        };
        proof {
            assert(self.out_pkts() =~= old(self).out_pkts() + staged.subrange(0, 0));
            assert(self.from_packetiser() =~= staged.subrange(0, staged.len() as int));
        }
        while moved < room
            invariant
                moved <= room,
                moved <= staged.len(),
                self.out_pkts() == old(self).out_pkts() + staged.subrange(0, moved as int),
                self.from_packetiser() == staged.subrange(moved as int, staged.len() as int),
                self.to_packetiser() == old(self).to_packetiser(),
                self.out_capacity() == old(self).out_capacity(),
                self.bindings() == old(self).bindings(),
                self.channels() == old(self).channels(),
                self.dropped() == old(self).dropped(),
            ensures
                moved == (if staged.len() <= room {
                    staged.len()
                } else {
                    room as nat
                }),
            decreases room - moved,
        {
            match seg_pop(&mut self.from_packetiser) {
                None => {
                    proof {
                        assert(staged.subrange(moved as int, staged.len() as int).len() == 0);
                    }
                    break ;
                },
                Some(pkt) => {
                    seg_push(&mut self.out_pkts, pkt);
                    moved = moved + 1;
                    proof {
                        assert(self.out_pkts() =~= old(self).out_pkts() + staged.subrange(
                            0,
                            moved as int,
                        ));
                        assert(self.from_packetiser() =~= staged.subrange(
                            moved as int,
                            staged.len() as int,
                        ));
                    }
                },
            }
        }
        seg_len(&self.from_packetiser)
    }

    /// The transmit burst: hands up to one burst of the frames to transmit to
    /// the port, on the transmit queue that is paired with receive queue
    /// `queue_id`. The card has room for `room` frames. The frames that go out
    /// are appended to `wire`, and their buffers belong to the card until it
    /// is done with them; the buffers that the card refused go back to the
    /// pool, and the loss is counted. Returns the number of frames sent.
    pub fn send_pkts_out(
        &mut self,
        port: &mut Port,
        queue_id: u16,
        room: usize,
        mp: &mut Mempool,
        wire: &mut Vec<Vec<u8>>,
    ) -> (n: usize)
        ensures
            final(mp)@.wf(),
            final(mp).spec_name() == old(mp).spec_name(),
            old(self).sent_out(
                *final(self),
                *old(port),
                *final(port),
                queue_id,
                room,
                old(mp)@,
                final(mp)@,
                wire_frames(old(wire)@),
                wire_frames(final(wire)@),
                n,
            ),
    {
        let burst = take_burst(&mut self.out_pkts, TX_BURST_MAX);
        let k = burst.len();
        let n = port.send(burst, pair_of(queue_id), room, mp, wire);
        self.dropped = counted(self.dropped, k - n);
        n
    }

    /// One round of the receive loop: the receive step, then one burst to the
    /// packetiser. Returns the number of buffers received and the number of
    /// packets sent to the packetiser.
    pub fn rx_iteration(
        &mut self,
        port: &Port,
        queue_id: u16,
        table: &mut RingTable,
        mp: &mut Mempool,
        wire: &Vec<Vec<u8>>,
    ) -> (r: (usize, usize))
        ensures
            final(mp)@.wf(),
            final(mp).spec_name() == old(mp).spec_name(),
            exists|mid: Engine, pool_mid: PoolView|
                #![trigger old(self).received(mid, port, queue_id, old(mp)@, pool_mid, wire_frames(wire@), r.0)]
                old(self).received(mid, port, queue_id, old(mp)@, pool_mid, wire_frames(wire@), r.0)
                    && mid.handed_over(
                    *final(self),
                    old(table)@,
                    final(table)@,
                    pool_mid,
                    final(mp)@,
                    r.1,
                ),
    {
        let received = self.get_external_pkts(port, queue_id, mp, wire);
        let ghost mid = *self;
        let ghost pool_mid = mp@;
        let sent = self.send_to_packetiser(table, mp);
        let r = (received, sent);
        proof {
            assert(old(self).received(mid, port, queue_id, old(mp)@, pool_mid, wire_frames(wire@), r.0)
                && mid.handed_over(*self, old(table)@, table@, pool_mid, mp@, r.1));
            assert(exists|mid: Engine, pool_mid: PoolView|
                #![trigger old(self).received(mid, port, queue_id, old(mp)@, pool_mid, wire_frames(wire@), r.0)]
                old(self).received(mid, port, queue_id, old(mp)@, pool_mid, wire_frames(wire@), r.0)
                    && mid.handed_over(*self, old(table)@, table@, pool_mid, mp@, r.1));
        }
        r
    }

    /// One round of the transmit loop: one burst from the packetiser, then
    /// one transmit burst. Returns the number of packets that still wait and
    /// the number of frames sent.
    pub fn tx_iteration(
        &mut self,
        port: &mut Port,
        queue_id: u16,
        room: usize,
        table: &mut RingTable,
        mp: &mut Mempool,
        wire: &mut Vec<Vec<u8>>,
    ) -> (r: (usize, usize))
        ensures
            final(mp)@.wf(),
            final(mp).spec_name() == old(mp).spec_name(),
            exists|mid: Engine|
                #![trigger old(self).returned(mid, old(table)@, final(table)@, r.0)]
                old(self).returned(mid, old(table)@, final(table)@, r.0) && mid.sent_out(
                    *final(self),
                    *old(port),
                    *final(port),
                    queue_id,
                    room,
                    old(mp)@,
                    final(mp)@,
                    wire_frames(old(wire)@),
                    wire_frames(final(wire)@),
                    r.1,
                ),
    {
        let left = self.get_from_packetiser(table);
        let ghost mid = *self;
        let sent = self.send_pkts_out(port, queue_id, room, mp, wire);
        let r = (left, sent);
        proof {
            assert(old(self).returned(mid, old(table)@, table@, r.0) && mid.sent_out(
                *self,
                *old(port),
                *port,
                queue_id,
                room,
                old(mp)@,
                mp@,
                wire_frames(old(wire)@),
                wire_frames(wire@),
                r.1,
            ));
            assert(exists|mid: Engine|
                #![trigger old(self).returned(mid, old(table)@, table@, r.0)]
                old(self).returned(mid, old(table)@, table@, r.0) && mid.sent_out(
                    *self,
                    *old(port),
                    *port,
                    queue_id,
                    room,
                    old(mp)@,
                    mp@,
                    wire_frames(old(wire)@),
                    wire_frames(wire@),
                    r.1,
                ));
        }
        r
    }
}

/// Every buffer of a receive burst carries the pool's id.
pub proof fn lemma_rx_views_pool(pool: PoolView, frames: Seq<Seq<u8>>, i: int)
    requires
        0 <= i < rx_views(pool, frames).len(),
    ensures
        rx_views(pool, frames)[i].pool == pool.id,
    decreases frames.len(),
{
    if frames.len() > 0 {
        let before = rx_views(pool, frames.drop_last());
        if i < before.len() {
            lemma_rx_views_pool(pool, frames.drop_last(), i);
        }
    }
}

} // verus!
