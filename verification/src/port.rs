//! The port: a network card as the engine sees it. The library decides how
//! the card is set up, which frames of a burst get a buffer, and what
//! becomes of the buffers of a transmit burst; the program that drives the
//! card hands over the frames that arrived and sends the frames it is given.

use vstd::prelude::*;
use crate::error::PortError;
use crate::mbuf::{Mbuf, MbufView};
use crate::mempool::{views, Mempool, PoolView};

verus! {

/// Most frames that one receive burst takes.
pub const RX_BURST_MAX: usize = 32;

/// Most frames that one transmit burst takes.
pub const TX_BURST_MAX: usize = 32;

/// Descriptors of each receive queue.
pub const RX_DESC_DEFAULT: u16 = 512;

/// Descriptors of each transmit queue.
pub const TX_DESC_DEFAULT: u16 = 512;

/// The packet kinds that the receive-side hash covers: IP, TCP, UDP, SCTP and
/// layer-2 payload.
pub const DEFAULT_RSS_HF: u64 = 0x3FFFC;

/// Receive offload: checksums of IP, UDP and TCP.
pub const RX_OFFLOAD_CHECKSUM: u64 = 0x0000000E;

/// Transmit offloads: checksums of IPv4, UDP and TCP.
pub const TX_OFFLOAD_CHECKSUMS: u64 = 0x0000000E;

/// Transmit offload: transmitted buffers are released the fast way.
pub const TX_OFFLOAD_MBUF_FAST_FREE: u64 = 0x00010000;

/// Longest Ethernet frame, checksum included.
pub const ETHER_MAX_LEN: u32 = 1518;

/// Multi-queue mode: receive-side scaling.
pub const MQ_RX_RSS: u32 = 1;

/// Length of the hash key.
pub const RSS_KEY_LEN: usize = 40;

/// The symmetric hash key: `0x6d5a`, twenty times.
pub open spec fn rss_symmetric_key() -> Seq<u8> {
    Seq::new(RSS_KEY_LEN as nat, |i: int| if i % 2 == 0 { 0x6du8 } else { 0x5au8 })
}

/// What a device reports of itself.
#[derive(Debug, Clone, Copy, PartialEq, Eq, Structural)]
pub struct DevInfo {
    /// The packet kinds that the device can hash.
    pub flow_type_rss_offloads: u64,
    /// The transmit offloads that the device offers.
    pub tx_offload_capa: u64,
}

/// How a port is to be set up.
#[derive(Debug)]
pub struct PortConf {
    /// Multi-queue mode of the receive side.
    pub rx_mq_mode: u32,
    /// Longest frame that is received.
    pub max_rx_pkt_len: u32,
    /// Size of a split header: none.
    pub split_hdr_size: u16,
    /// Receive offloads.
    pub rx_offloads: u64,
    /// The packet kinds that are hashed.
    pub rss_hf: u64,
    /// The hash key.
    pub rss_key: Vec<u8>,
    /// Multi-queue mode of the transmit side: none.
    pub tx_mq_mode: u32,
    /// Transmit offloads.
    pub tx_offloads: u64,
    /// Number of receive queues, and of transmit queues.
    pub queues: u16,
    /// Descriptors of each receive queue.
    pub rx_desc: u16,
    /// Descriptors of each transmit queue.
    pub tx_desc: u16,
    /// The id of the pool that the receive queues take their buffers from.
    pub rx_pool: u32,
    /// Whether the port takes frames for any address.
    pub promiscuous: bool,
}

/// The number of queues for `num_cores` worker cores: the next even number,
/// so that every core has a receive queue and a transmit queue of its own.
pub open spec fn queues_for(num_cores: u16) -> int {
    if num_cores % 2 == 1 {
        num_cores + 1
    } else {
        num_cores as int
    }
}

/// The transmit offloads for a device: the checksums, and the fast release of
/// buffers where the device offers it.
pub open spec fn tx_offloads_for(info: DevInfo) -> u64 {
    if info.tx_offload_capa & TX_OFFLOAD_MBUF_FAST_FREE > 0 {
        TX_OFFLOAD_CHECKSUMS | TX_OFFLOAD_MBUF_FAST_FREE
    } else {
        TX_OFFLOAD_CHECKSUMS
    }
}

/// Where a port stands in its life.
#[derive(Debug, Clone, Copy, PartialEq, Eq, Structural)]
pub enum PortState {
    /// Made, not yet set up.
    Fresh,
    /// Set up, not yet started.
    Configured,
    /// Receiving and sending.
    Started,
    /// Stopped for good.
    Stopped,
}

/// A network card.
#[derive(Debug)]
pub struct Port {
    /// The port's number.
    pub id: u16,
    /// The device's name.
    pub device: &'static str,
    /// What the device reports of itself.
    pub dev_info: DevInfo,
    /// Where the port stands in its life.
    pub state: PortState,
    /// The number of receive queues, and of transmit queues: none before the
    /// port is set up.
    pub queues: u16,
    /// The buffers that the card accepted for sending and is not yet done
    /// with, oldest first.
    pub on_card: Vec<Mbuf>,
}

/// The transmit queue that goes with a receive queue, and the other way
/// round: queues come in pairs, an even one and the odd one after it.
pub open spec fn paired_queue(queue: u16) -> u16 {
    queue ^ 1
}

/// Computes [`paired_queue`].
pub fn pair_of(queue: u16) -> (q: u16)
    ensures
        q == paired_queue(queue),
{
    queue ^ 1
}

/// Because the number of queues is even, every queue has its pair among the
/// queues.
pub proof fn lemma_pair_is_a_queue(queue: u16, queues: u16)
    requires
        queues % 2 == 0,
        queue < queues,
    ensures
        paired_queue(queue) < queues,
        paired_queue(paired_queue(queue)) == queue,
        paired_queue(queue) != queue,
{
    assert(queue ^ 1 < queues) by (bit_vector)
        requires
            queues % 2 == 0,
            queue < queues,
    ;
    assert((queue ^ 1) ^ 1 == queue) by (bit_vector);
    assert(queue ^ 1 != queue) by (bit_vector);
}

/// The number of queues for any number of cores that a port accepts is even.
pub proof fn lemma_queues_are_even(num_cores: u16)
    requires
        0 < num_cores < u16::MAX,
    ensures
        queues_for(num_cores) % 2 == 0,
        num_cores <= queues_for(num_cores) <= num_cores + 1,
{
}

/// Whether the pool can hold `frame` in a buffer of its own.
pub open spec fn rx_takes(pool: PoolView, frame: Seq<u8>) -> bool {
    Mbuf::from_bytes_outcome(pool, frame) is Ok
}

/// The buffers that a receive burst makes of `frames`: one for each frame
/// that the pool can hold when its turn comes, in order. A frame that is
/// empty or too long, or that finds the pool exhausted, is lost.
pub open spec fn rx_views(pool: PoolView, frames: Seq<Seq<u8>>) -> Seq<MbufView>
    decreases frames.len(),
{
    if frames.len() == 0 {
        Seq::empty()
    } else {
        let before = rx_views(pool, frames.drop_last());
        let now = PoolView { free: (pool.free - before.len()) as nat, ..pool };
        if rx_takes(now, frames.last()) {
            before.push(pool.fresh().with_data(frames.last()))
        } else {
            before
        }
    }
}

/// A burst makes at most one buffer per frame, and no more buffers than the
/// pool has.
pub proof fn lemma_rx_views_len(pool: PoolView, frames: Seq<Seq<u8>>)
    ensures
        rx_views(pool, frames).len() <= frames.len(),
        rx_views(pool, frames).len() <= pool.free,
    decreases frames.len(),
{
    if frames.len() > 0 {
        lemma_rx_views_len(pool, frames.drop_last());
    }
}

/// The frames on a wire, as byte sequences.
pub open spec fn wire_frames(wire: Seq<Vec<u8>>) -> Seq<Seq<u8>> {
    wire.map_values(|f: Vec<u8>| f@)
}

/// The frames of `pkts`, in order.
pub open spec fn frames_of(pkts: Seq<MbufView>) -> Seq<Seq<u8>> {
    pkts.map_values(|p: MbufView| p.data)
}

impl Port {
    /// The buffers that the card accepted for sending and is not yet done
    /// with, oldest first. They stay handed out by the pool.
    pub open spec fn on_card(&self) -> Seq<Mbuf> {
        self.on_card@
    }

    /// Whether the port is set up as `other` is and stands where `other`
    /// stands in its life.
    pub open spec fn same_setup(&self, other: &Port) -> bool {
        &&& self.id == other.id
        &&& self.device == other.device
        &&& self.dev_info == other.dev_info
        &&& self.state == other.state
        &&& self.queues == other.queues
    }

    /// The number of frames that one burst takes of `arrived` frames on a
    /// queue.
    pub open spec fn burst_count(self, queue: u16, arrived: nat) -> nat {
        if self.serves(queue) {
            if arrived <= RX_BURST_MAX {
                arrived
            } else {
                RX_BURST_MAX as nat
            }
        } else {
            0
        }
    }

    /// Computes [`Port::burst_count`].
    pub fn burst_size(&self, queue_id: u16, arrived: usize) -> (n: usize)
        ensures
            n == self.burst_count(queue_id, arrived as nat),
            n <= RX_BURST_MAX,
    {
        if !self.is_started() || queue_id >= self.queues {
            0
        } else if arrived <= RX_BURST_MAX {
            arrived
        } else {
            RX_BURST_MAX
        }
    }

    /// The number of buffers that the card is not yet done with.
    pub fn on_card_len(&self) -> (n: usize)
        ensures
            n == self.on_card().len(),
    {
        self.on_card.len()
    }

    /// A port for device `device`, number `id`, with what the device reports
    /// of itself.
    pub fn new(device: &'static str, id: u16, dev_info: DevInfo) -> (p: Self)
        ensures
            p.id == id,
            p.device == device,
            p.dev_info == dev_info,
            p.state == PortState::Fresh,
            p.queues == 0,
            p.on_card() == Seq::<Mbuf>::empty(),
    {
        Self { id, device, dev_info, state: PortState::Fresh, queues: 0, on_card: Vec::new() }
    }

    /// Works out how the port is to be set up for `num_cores` worker cores:
    /// receive-side scaling with the symmetric key over the packet kinds that
    /// the device can hash, checksum offloads both ways, fast release of
    /// transmitted buffers where the device offers it, promiscuous mode, and
    /// as many receive and transmit queues as there are cores, rounded up to
    /// an even number, with the receive queues fed from `mempool`. Fails with
    /// `Invalid`, and changes nothing, when there
    /// is no core, when the number of queues does not fit, or when the port
    /// was set up before.
    pub fn configure(&mut self, num_cores: u16, mempool: &Mempool) -> (r: Result<
        PortConf,
        PortError,
    >)
        ensures
            r is Ok <==> num_cores > 0 && num_cores < u16::MAX && old(self).state
                == PortState::Fresh,
            r matches Err(e) ==> e == PortError::Invalid && *final(self) == *old(self),
            r matches Ok(conf) ==> {
                &&& *final(self) == (Port {
                    state: PortState::Configured,
                    queues: conf.queues,
                    ..*old(self)
                })
                &&& conf.rx_mq_mode == MQ_RX_RSS
                &&& conf.max_rx_pkt_len == ETHER_MAX_LEN
                &&& conf.split_hdr_size == 0
                &&& conf.rx_offloads == RX_OFFLOAD_CHECKSUM
                &&& conf.rss_hf == DEFAULT_RSS_HF & old(self).dev_info.flow_type_rss_offloads
                &&& conf.rss_key@ == rss_symmetric_key()
                &&& conf.tx_mq_mode == 0
                &&& conf.tx_offloads == tx_offloads_for(old(self).dev_info)
                &&& conf.queues == queues_for(num_cores)
                &&& conf.rx_desc == RX_DESC_DEFAULT
                &&& conf.tx_desc == TX_DESC_DEFAULT
                &&& conf.rx_pool == mempool@.id
                &&& conf.promiscuous
            },
    {
        let fresh = match self.state {
            PortState::Fresh => true,
            _ => false,
        };
        if num_cores == 0 || num_cores == u16::MAX || !fresh {
            return Err(PortError::Invalid);
        }
        let mut rss_key: Vec<u8> = Vec::new();
        let mut i: usize = 0;
        while i < RSS_KEY_LEN
            invariant
                i <= RSS_KEY_LEN,
                rss_key@.len() == i,
                forall|j: int|
                    0 <= j < i ==> rss_key@[j] == (if j % 2 == 0 {
                        0x6du8
                    } else {
                        0x5au8
                    }),
            decreases RSS_KEY_LEN - i,
        {
            if i % 2 == 0 {
                rss_key.push(0x6d);
            } else {
                rss_key.push(0x5a);
            }
            i = i + 1;
        }
        assert(rss_key@ =~= rss_symmetric_key());
        let mut tx_offloads: u64 = TX_OFFLOAD_CHECKSUMS;
        if self.dev_info.tx_offload_capa & TX_OFFLOAD_MBUF_FAST_FREE > 0 {
            tx_offloads = tx_offloads | TX_OFFLOAD_MBUF_FAST_FREE;
        }
        let mut n_cores: u16 = num_cores;
        if num_cores % 2 == 1 {
            n_cores = n_cores + 1;
        }
        self.state = PortState::Configured;
        self.queues = n_cores;
        Ok(
            PortConf {
                rx_mq_mode: MQ_RX_RSS,
                max_rx_pkt_len: ETHER_MAX_LEN,
                split_hdr_size: 0,
                rx_offloads: RX_OFFLOAD_CHECKSUM,
                rss_hf: DEFAULT_RSS_HF & self.dev_info.flow_type_rss_offloads,
                rss_key,
                tx_mq_mode: 0,
                tx_offloads,
                queues: n_cores,
                rx_desc: RX_DESC_DEFAULT,
                tx_desc: TX_DESC_DEFAULT,
                rx_pool: mempool.id(),
                promiscuous: true,
            },
        )
    }

    /// Starts the port. Fails with `Invalid`, and changes nothing, unless the
    /// port is set up and not yet started.
    pub fn start(&mut self) -> (r: Result<(), PortError>)
        ensures
            r is Ok <==> old(self).state == PortState::Configured,
            r is Ok ==> *final(self) == (Port { state: PortState::Started, ..*old(self) }),
            r matches Err(e) ==> e == PortError::Invalid && *final(self) == *old(self),
    {
        match self.state {
            PortState::Configured => {
                self.state = PortState::Started;
                Ok(())
            },
            _ => Err(PortError::Invalid),
        }
    }

    /// Stops the port for good.
    pub fn stop(&mut self)
        ensures
            *final(self) == (Port { state: PortState::Stopped, ..*old(self) }),
    {
        self.state = PortState::Stopped;
    }

    /// Whether the port receives and sends.
    pub fn is_started(&self) -> (s: bool)
        ensures
            s == (self.state == PortState::Started),
    {
        match self.state {
            PortState::Started => true,
            _ => false,
        }
    }

    /// The device's name.
    pub fn get_name(&self) -> (name: &str)
        ensures
            name == self.device,
    {
        self.device
    }

    /// Whether the port receives and sends on the given queue: it is started,
    /// and the queue is one of its queues.
    pub open spec fn serves(self, queue: u16) -> bool {
        self.state == PortState::Started && queue < self.queues
    }

    /// The frames that one burst takes of those that arrived on a queue: the
    /// first thirty-two, and none while the port does not serve the queue.
    pub open spec fn burst_of(self, queue: u16, wire: Seq<Seq<u8>>) -> Seq<Seq<u8>> {
        if self.serves(queue) {
            if wire.len() <= RX_BURST_MAX {
                wire
            } else {
                wire.subrange(0, RX_BURST_MAX as int)
            }
        } else {
            Seq::empty()
        }
    }

    /// Receives one burst on a queue: gives each of the first thirty-two
    /// frames that arrived a buffer of its own, as far as the pool can hold
    /// them.
    pub fn receive(&self, queue_id: u16, mp: &mut Mempool, wire: &Vec<Vec<u8>>) -> (pkts: Vec<
        Mbuf,
    >)
        ensures
            final(mp)@.wf(),
            final(mp).spec_name() == old(mp).spec_name(),
            views(pkts@) == rx_views(old(mp)@, self.burst_of(queue_id, wire_frames(wire@))),
            final(mp)@ == (PoolView { free: (old(mp)@.free - pkts@.len()) as nat, ..old(mp)@ }),
            pkts@.len() <= old(mp)@.free,
            pkts@.len() <= RX_BURST_MAX,
            forall|i: int| 0 <= i < pkts@.len() ==> (#[trigger] pkts@[i])@.wf(),
    {
        let mut pkts: Vec<Mbuf> = Vec::new();
        let n: usize = if !self.is_started() || queue_id >= self.queues {
            0
        } else if wire.len() <= RX_BURST_MAX {
            wire.len()
        } else {
            RX_BURST_MAX
        };
        let ghost burst = self.burst_of(queue_id, wire_frames(wire@));
        let _ = mp.free_count();
        proof {
            assert(views(pkts@) =~= rx_views(old(mp)@, burst.subrange(0, 0))) by {
                assert(burst.subrange(0, 0) =~= Seq::<Seq<u8>>::empty());
            }
        }
        let mut i: usize = 0;
        while i < n
            invariant
                i <= n,
                n == burst.len(),
                n <= wire@.len(),
                n <= RX_BURST_MAX,
                forall|j: int| 0 <= j < n ==> burst[j] == (#[trigger] wire@[j])@,
                old(mp)@.wf(),
                mp@.wf(),
                mp.spec_name() == old(mp).spec_name(),
                views(pkts@) == rx_views(old(mp)@, burst.subrange(0, i as int)),
                mp@ == (PoolView { free: (old(mp)@.free - pkts@.len()) as nat, ..old(mp)@ }),
                pkts@.len() <= old(mp)@.free,
                pkts@.len() <= i,
                forall|k: int| 0 <= k < pkts@.len() ==> (#[trigger] pkts@[k])@.wf(),
            decreases n - i,
        {
            let ghost done = burst.subrange(0, i as int);
            let ghost next = burst.subrange(0, i + 1);
            proof {
                assert(next.drop_last() =~= done);
                assert(next.last() == wire@[i as int]@);
            }
            match Mbuf::from_bytes(wire[i].as_slice(), mp) {
                Ok(b) => {
                    let ghost before = views(pkts@);
                    pkts.push(b);
                    proof {
                        assert(views(pkts@) =~= before.push(b@));
                    }
                },
                Err(_) => {},
            }
            i = i + 1;
        }
        proof {
            assert(burst.subrange(0, n as int) =~= burst);
        }
        pkts
    }

    /// The number of buffers of a transmit burst that go out on a queue: as
    /// many as the card has room for, and none while the port does not serve
    /// the queue.
    pub open spec fn sent_of(self, queue: u16, n: nat, room: usize) -> nat {
        if self.serves(queue) {
            if n <= room {
                n
            } else {
                room as nat
            }
        } else {
            0
        }
    }

    /// Sends a burst on a queue. The card has room for `room` frames: it
    /// accepts the first buffers, as many as that. Their frames are appended
    /// to `wire`, and the buffers belong to the card until it is done with
    /// them: they stay handed out. The buffers that the card refused go back
    /// to the pool. Returns the number of buffers accepted.
    pub fn send(
        &mut self,
        pkts: Vec<Mbuf>,
        queue_id: u16,
        room: usize,
        mp: &mut Mempool,
        wire: &mut Vec<Vec<u8>>,
    ) -> (count: usize)
        ensures
            final(mp)@.wf(),
            final(mp).spec_name() == old(mp).spec_name(),
            final(self).same_setup(old(self)),
            count == old(self).sent_of(queue_id, pkts@.len(), room),
            wire_frames(final(wire)@) == wire_frames(old(wire)@) + frames_of(
                views(pkts@).subrange(0, count as int),
            ),
            final(self).on_card() == old(self).on_card() + pkts@.subrange(0, count as int),
            final(mp)@ == old(mp)@.after_free(
                vstd::math::min(
                    crate::mempool::count_owned(
                        views(pkts@.subrange(count as int, pkts@.len() as int)),
                        old(mp)@.id,
                    ) as int,
                    old(mp)@.in_use() as int,
                ) as nat,
            ),
    {
        let mut pkts = pkts;
        let ghost all = pkts@;
        let count: usize = if !self.is_started() || queue_id >= self.queues {
            0
        } else if pkts.len() <= room {
            pkts.len()
        } else {
            room
        };
        let mut i: usize = 0;
        proof {
            assert(wire_frames(wire@) =~= wire_frames(old(wire)@) + frames_of(
                views(pkts@).subrange(0, 0),
            ));
        }
        while i < count
            invariant
                i <= count,
                count <= pkts@.len(),
                pkts@ == all,
                wire_frames(wire@) == wire_frames(old(wire)@) + frames_of(
                    views(pkts@).subrange(0, i as int),
                ),
            decreases count - i,
        {
            let ghost before = wire_frames(wire@);
            let frame = pkts[i].data();
            wire.push(frame);
            proof {
                assert(wire_frames(wire@) =~= before.push(pkts@[i as int]@.data));
                assert(frames_of(views(pkts@).subrange(0, i + 1)) =~= frames_of(
                    views(pkts@).subrange(0, i as int),
                ).push(pkts@[i as int]@.data));
            }
            i = i + 1;
        }
        let refused = pkts.split_off(count);
        self.on_card.append(&mut pkts);
        let _ = mp.free_each(refused);
        count
    }

    /// Takes note that the card is done with the `n` oldest buffers it
    /// accepted, or with all of them if they are fewer: they go back to the
    /// pool. Returns the number of buffers the card was done with.
    pub fn tx_done(&mut self, n: usize, mp: &mut Mempool) -> (k: usize)
        ensures
            final(mp)@.wf(),
            final(mp).spec_name() == old(mp).spec_name(),
            final(self).same_setup(old(self)),
            k == vstd::math::min(n as int, old(self).on_card().len() as int),
            final(self).on_card() == old(self).on_card().subrange(
                k as int,
                old(self).on_card().len() as int,
            ),
            final(mp)@ == old(mp)@.after_free(
                vstd::math::min(
                    crate::mempool::count_owned(
                        views(old(self).on_card().subrange(0, k as int)),
                        old(mp)@.id,
                    ) as int,
                    old(mp)@.in_use() as int,
                ) as nat,
            ),
    {
        let k: usize = if n <= self.on_card.len() {
            n
        } else {
            self.on_card.len()
        };
        let mut rest = self.on_card.split_off(k);
        let mut done: Vec<Mbuf> = Vec::new();
        done.append(&mut self.on_card);
        self.on_card.append(&mut rest);
        assert(done@ =~= old(self).on_card().subrange(0, k as int));
        assert(self.on_card@ =~= old(self).on_card().subrange(
            k as int,
            old(self).on_card().len() as int,
        ));
        let _ = mp.free_each(done);
        k
    }
}

} // verus!
