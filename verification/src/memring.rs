//! Rings, channels and the channel registry.
//!
//! A ring is a bounded first-in first-out queue of packet buffers with one
//! producer and one consumer. Rings live in a table that the cooperating
//! processes share and are found there by name: `C2E-<id>` carries buffers
//! from client `id` to the engine, `E2C-<id>` the other way. A channel is the
//! pair of rings of one client, and the registry maps client ids to channels.

use vstd::prelude::*;
use std::collections::VecDeque;
use vstd::string::StringExecFns;
use crate::error::MemoryError;
use crate::mbuf::Mbuf;

verus! {

/// The direction of a ring, seen from the client.
#[derive(Debug, Clone, Copy, PartialEq, Eq, Structural)]
pub enum RingType {
    /// Client to engine.
    C2E,
    /// Engine to client.
    E2C,
}

/// Flag of a ring: it has a single producer.
pub const RING_F_SP_ENQ: u8 = 0x0001;

/// Flag of a ring: it has a single consumer.
pub const RING_F_SC_DEQ: u8 = 0x0002;

/// The flags that every ring is made with.
pub const RING_FLAGS: u8 = 0x0003;

/// The capacity that every ring is made with, a power of two. One slot
/// stays empty, so that a full ring can be told from an empty one: a ring
/// holds one buffer less than its capacity.
pub const RING_CAPACITY: usize = 512;

/// The decimal digits of `n`, without leading zeros.
pub open spec fn decimal_digits(n: nat) -> Seq<char>
    decreases n,
{
    if n < 10 {
        seq![(('0' as u8) + n) as char]
    } else {
        decimal_digits(n / 10).push((('0' as u8) + n % 10) as char)
    }
}

/// The formatting of a `u16` by `std` (`format!("{}", n)`). Claimed: the
/// string holds the decimal digits of the number, without sign and without
/// leading zeros.
#[verifier::external_body]
pub(crate) fn decimal(n: u16) -> (s: String)
    ensures
        s@ == decimal_digits(n as nat),
{
    format!("{}", n)
}

/// What a ring is, as far as contracts are concerned.
pub struct RingView {
    /// The client that the ring belongs to.
    pub client_id: u16,
    /// The ring's direction.
    pub rtype: RingType,
    /// The ring's capacity; it holds one buffer less.
    pub capacity: nat,
    /// The buffers in the ring, oldest first.
    pub items: Seq<Mbuf>,
    /// Whether the ring has its producer.
    pub producer: bool,
    /// Whether the ring has its consumer.
    pub consumer: bool,
}

/// An end of a ring.
#[derive(Debug, Clone, Copy, PartialEq, Eq, Structural)]
pub enum RingEnd {
    /// The end that enqueues.
    Producer,
    /// The end that dequeues.
    Consumer,
}

/// A side of a channel.
#[derive(Debug, Clone, Copy, PartialEq, Eq, Structural)]
pub enum Side {
    /// The engine: it enqueues towards the client and dequeues what the
    /// client sent.
    Engine,
    /// The client: it dequeues what the engine sent and enqueues towards the
    /// engine.
    Client,
}

/// The end that a side of a channel has of a ring of the given direction.
pub open spec fn end_of(side: Side, rtype: RingType) -> RingEnd {
    match (side, rtype) {
        (Side::Engine, RingType::E2C) => RingEnd::Producer,
        (Side::Engine, RingType::C2E) => RingEnd::Consumer,
        (Side::Client, RingType::E2C) => RingEnd::Consumer,
        (Side::Client, RingType::C2E) => RingEnd::Producer,
    }
}

impl RingView {
    /// Whether the given end of the ring is taken.
    pub open spec fn has(self, end: RingEnd) -> bool {
        match end {
            RingEnd::Producer => self.producer,
            RingEnd::Consumer => self.consumer,
        }
    }

    /// The ring with the given end taken or free.
    pub open spec fn with_end(self, end: RingEnd, taken: bool) -> RingView {
        match end {
            RingEnd::Producer => RingView { producer: taken, ..self },
            RingEnd::Consumer => RingView { consumer: taken, ..self },
        }
    }

    /// Whether no further buffer fits.
    pub open spec fn is_full(self) -> bool {
        self.items.len() + 1 >= self.capacity
    }

    /// The number of buffers that still fit.
    pub open spec fn room(self) -> nat {
        if self.is_full() {
            0
        } else {
            (self.capacity - 1 - self.items.len()) as nat
        }
    }

    /// The ring with other contents.
    pub open spec fn with_items(self, items: Seq<Mbuf>) -> RingView {
        RingView { items, ..self }
    }

    /// The ring after an attempt to enqueue `x`: unchanged when full.
    pub open spec fn after_enqueue(self, x: Mbuf) -> RingView {
        if self.is_full() {
            self
        } else {
            self.with_items(self.items.push(x))
        }
    }

    /// The ring after an attempt to dequeue: unchanged when empty.
    pub open spec fn after_dequeue(self) -> RingView {
        if self.items.len() == 0 {
            self
        } else {
            self.with_items(self.items.subrange(1, self.items.len() as int))
        }
    }
}

/// The storage of one ring in the table.
#[derive(Debug)]
pub struct RingSlot {
    client_id: u16,
    rtype: RingType,
    capacity: usize,
    q: VecDeque<Mbuf>,
    producer: bool,
    consumer: bool,
}

impl View for RingSlot {
    type V = RingView;

    closed spec fn view(&self) -> RingView {
        RingView {
            client_id: self.client_id,
            rtype: self.rtype,
            capacity: self.capacity as nat,
            items: self.q@,
            producer: self.producer,
            consumer: self.consumer,
        }
    }
}

/// What the table of rings is, as far as contracts are concerned.
pub struct TableView {
    /// Whether the table is held by the primary process, which alone may
    /// make rings.
    pub primary: bool,
    /// The number of rings that the table has room for.
    pub max_rings: nat,
    /// The rings, in the order in which they were made.
    pub rings: Seq<RingView>,
}

impl TableView {
    /// The position of the first ring, from `from` on, named by `rtype` and
    /// `id`.
    pub open spec fn find_from(self, rtype: RingType, id: u16, from: int) -> Option<int>
        decreases self.rings.len() - from,
    {
        if from < 0 || from >= self.rings.len() {
            None
        } else if self.rings[from].rtype == rtype && self.rings[from].client_id == id {
            Some(from)
        } else {
            self.find_from(rtype, id, from + 1)
        }
    }

    /// The position of the ring named by `rtype` and `id`.
    pub open spec fn find(self, rtype: RingType, id: u16) -> Option<int> {
        self.find_from(rtype, id, 0)
    }

    /// The position of the ring that a handle names.
    pub open spec fn slot_of(self, ring: Ring) -> Option<int> {
        self.find(ring.rtype, ring.client_id)
    }

    /// The table with other contents in ring `i`.
    pub open spec fn with_items(self, i: int, items: Seq<Mbuf>) -> TableView {
        TableView { rings: self.rings.update(i, self.rings[i].with_items(items)), ..self }
    }

    /// The table with one more ring, empty, of the default capacity and with
    /// both ends free.
    pub open spec fn with_ring(self, rtype: RingType, id: u16) -> TableView {
        TableView {
            rings: self.rings.push(
                RingView {
                    client_id: id,
                    rtype,
                    capacity: RING_CAPACITY as nat,
                    items: Seq::empty(),
                    producer: false,
                    consumer: false,
                },
            ),
            ..self
        }
    }

    /// The table with an end of ring `i` taken or free.
    pub open spec fn with_end(self, i: int, end: RingEnd, taken: bool) -> TableView {
        TableView { rings: self.rings.update(i, self.rings[i].with_end(end, taken)), ..self }
    }

    /// What taking an end of the ring that a handle names answers: a ring
    /// has one producer and one consumer, and no second one is added.
    pub open spec fn attach_outcome(self, ring: Ring, end: RingEnd) -> Result<(), MemoryError> {
        match self.slot_of(ring) {
            None => Err(MemoryError::NoEntries),
            Some(i) => if self.rings[i].has(end) {
                Err(MemoryError::Exists)
            } else {
                Ok(())
            },
        }
    }

    /// The table after an attempt to take an end of the ring that a handle
    /// names.
    pub open spec fn after_attach(self, ring: Ring, end: RingEnd) -> TableView {
        match self.slot_of(ring) {
            Some(i) if !self.rings[i].has(end) => self.with_end(i, end, true),
            _ => self,
        }
    }

    /// The table after an end of the ring that a handle names was given up.
    pub open spec fn after_detach(self, ring: Ring, end: RingEnd) -> TableView {
        match self.slot_of(ring) {
            Some(i) => self.with_end(i, end, false),
            None => self,
        }
    }

    /// The table without ring `i`.
    pub open spec fn without(self, i: int) -> TableView {
        TableView { rings: self.rings.remove(i), ..self }
    }

    /// What making the ring named by `rtype` and `id` answers.
    pub open spec fn create_outcome(self, rtype: RingType, id: u16) -> Result<(), MemoryError> {
        if !self.primary {
            Err(MemoryError::SecondaryProcess)
        } else if self.find(rtype, id) is Some {
            Err(MemoryError::Exists)
        } else if self.rings.len() >= self.max_rings {
            Err(MemoryError::NoSpace)
        } else {
            Ok(())
        }
    }

    /// The table without the ring that a handle names.
    pub open spec fn without_ring(self, ring: Ring) -> TableView {
        match self.slot_of(ring) {
            Some(i) => self.without(i),
            None => self,
        }
    }

    /// The buffers in the ring that a handle names, oldest first.
    pub open spec fn items_of(self, ring: Ring) -> Seq<Mbuf> {
        match self.slot_of(ring) {
            Some(i) => self.rings[i].items,
            None => Seq::empty(),
        }
    }

    /// Whether the ring that a handle names takes one more buffer.
    pub open spec fn accepts(self, ring: Ring) -> bool {
        self.slot_of(ring) matches Some(i) && !self.rings[i].is_full()
    }

    /// The table after an attempt to put `pkt` on the ring that a handle
    /// names.
    pub open spec fn after_enqueue(self, ring: Ring, pkt: Mbuf) -> TableView {
        match self.slot_of(ring) {
            Some(i) if !self.rings[i].is_full() => self.with_items(
                i,
                self.rings[i].items.push(pkt),
            ),
            _ => self,
        }
    }

    /// The oldest buffer on the ring that a handle names, if there is one.
    pub open spec fn front(self, ring: Ring) -> Option<Mbuf> {
        match self.slot_of(ring) {
            Some(i) if self.rings[i].items.len() > 0 => Some(self.rings[i].items[0]),
            _ => None,
        }
    }

    /// The table after an attempt to take the oldest buffer off the ring that
    /// a handle names.
    pub open spec fn after_dequeue(self, ring: Ring) -> TableView {
        match self.slot_of(ring) {
            Some(i) if self.rings[i].items.len() > 0 => self.with_items(
                i,
                self.rings[i].items.subrange(1, self.rings[i].items.len() as int),
            ),
            _ => self,
        }
    }

    /// The number of buffers that sit in the rings from position `from` on.
    pub open spec fn in_flight_from(self, from: int) -> nat
        decreases self.rings.len() - from,
    {
        if from < 0 || from >= self.rings.len() {
            0
        } else {
            self.rings[from].items.len() + self.in_flight_from(from + 1)
        }
    }

    /// The number of buffers that sit in rings.
    pub open spec fn in_flight(self) -> nat {
        self.in_flight_from(0)
    }
}

/// A position found is that of a ring with the name asked for.
pub proof fn lemma_find_is_named(t: TableView, rtype: RingType, id: u16, from: int)
    requires
        0 <= from,
    ensures
        t.find_from(rtype, id, from) matches Some(i) ==> from <= i < t.rings.len()
            && t.rings[i].rtype == rtype && t.rings[i].client_id == id,
    decreases t.rings.len() - from,
{
    if from < t.rings.len() && !(t.rings[from].rtype == rtype && t.rings[from].client_id == id) {
        lemma_find_is_named(t, rtype, id, from + 1);
    }
}

/// A change of a ring's contents leaves every name where it is.
pub proof fn lemma_find_after_items(
    t: TableView,
    i: int,
    items: Seq<Mbuf>,
    rtype: RingType,
    id: u16,
    from: int,
)
    requires
        0 <= i < t.rings.len(),
        0 <= from,
    ensures
        t.with_items(i, items).find_from(rtype, id, from) == t.find_from(rtype, id, from),
    decreases t.rings.len() - from,
{
    if from < t.rings.len() {
        lemma_find_after_items(t, i, items, rtype, id, from + 1);
    }
}

/// A change of a ring's contents changes the number of buffers in rings by
/// as much as it changes the number of buffers in that ring.
pub proof fn lemma_in_flight_after_items(t: TableView, i: int, items: Seq<Mbuf>, from: int)
    requires
        0 <= i < t.rings.len(),
        0 <= from <= t.rings.len(),
    ensures
        t.with_items(i, items).in_flight_from(from) == t.in_flight_from(from) + (if from <= i {
            items.len() - t.rings[i].items.len()
        } else {
            0
        }),
    decreases t.rings.len() - from,
{
    if from < t.rings.len() {
        lemma_in_flight_after_items(t, i, items, from + 1);
    }
}

/// Buffers move through rings one by one and none is lost or made up on the
/// way: a buffer that a ring takes is one more buffer in the rings, a buffer
/// that a ring hands out is one less, and an attempt that is refused changes
/// nothing. The pool is not touched: what it has handed out is, at all times,
/// what its holders hold and what sits in the rings.
pub proof fn lemma_ring_moves_conserve(t: TableView, ring: Ring, pkt: Mbuf)
    ensures
        t.accepts(ring) ==> t.after_enqueue(ring, pkt).in_flight() == t.in_flight() + 1,
        !t.accepts(ring) ==> t.after_enqueue(ring, pkt) == t,
        t.front(ring) is Some ==> t.after_dequeue(ring).in_flight() + 1 == t.in_flight(),
        t.front(ring) is None ==> t.after_dequeue(ring) == t,
{
    lemma_find_is_named(t, ring.rtype, ring.client_id, 0);
    if t.slot_of(ring) is Some {
        let i = t.slot_of(ring)->0;
        lemma_in_flight_after_items(t, i, t.rings[i].items.push(pkt), 0);
        if t.rings[i].items.len() > 0 {
            lemma_in_flight_after_items(
                t,
                i,
                t.rings[i].items.subrange(1, t.rings[i].items.len() as int),
                0,
            );
        }
    }
}

/// Taking or giving up an end of a ring leaves every name where it is.
pub proof fn lemma_find_after_end(
    t: TableView,
    i: int,
    end: RingEnd,
    taken: bool,
    rtype: RingType,
    id: u16,
    from: int,
)
    requires
        0 <= i < t.rings.len(),
        0 <= from,
    ensures
        t.with_end(i, end, taken).find_from(rtype, id, from) == t.find_from(rtype, id, from),
    decreases t.rings.len() - from,
{
    if from < t.rings.len() {
        lemma_find_after_end(t, i, end, taken, rtype, id, from + 1);
    }
}

/// A new ring is found under its own name, at the end of the table, unless
/// an older ring has that name; every other name is found where it was.
pub proof fn lemma_find_with_ring(
    t: TableView,
    rtype: RingType,
    id: u16,
    new_type: RingType,
    new_id: u16,
    from: int,
)
    requires
        0 <= from <= t.rings.len(),
    ensures
        t.with_ring(new_type, new_id).find_from(rtype, id, from) == (match t.find_from(
            rtype,
            id,
            from,
        ) {
            Some(i) => Some(i),
            None => if rtype == new_type && id == new_id {
                Some(t.rings.len() as int)
            } else {
                None
            },
        }),
    decreases t.rings.len() - from,
{
    let u = t.with_ring(new_type, new_id);
    if from < t.rings.len() {
        assert(u.rings[from] == t.rings[from]);
        lemma_find_with_ring(t, rtype, id, new_type, new_id, from + 1);
    } else {
        assert(u.find_from(rtype, id, from + 1) is None);
    }
}

/// The table of rings that the cooperating processes share.
#[derive(Debug)]
pub struct RingTable {
    primary: bool,
    max_rings: usize,
    rings: Vec<RingSlot>,
}

/// The views of the slots of a table.
pub open spec fn slot_views(slots: Seq<RingSlot>) -> Seq<RingView> {
    slots.map_values(|s: RingSlot| s@)
}

impl View for RingTable {
    type V = TableView;

    closed spec fn view(&self) -> TableView {
        TableView {
            primary: self.primary,
            max_rings: self.max_rings as nat,
            rings: slot_views(self.rings@),
        }
    }
}

impl RingTable {
    /// An empty table with room for `max_rings` rings.
    pub fn new(primary: bool, max_rings: usize) -> (t: Self)
        ensures
            t@ == (TableView { primary, max_rings: max_rings as nat, rings: Seq::empty() }),
    {
        let t = RingTable { primary, max_rings, rings: Vec::new() };
        assert(t@.rings =~= Seq::empty());
        t
    }

    /// The number of rings in the table.
    pub fn len(&self) -> (n: usize)
        ensures
            n == self@.rings.len(),
    {
        self.rings.len()
    }

    /// Whether the table is held by the primary process.
    pub fn is_primary(&self) -> (p: bool)
        ensures
            p == self@.primary,
    {
        self.primary
    }

    /// Finds the ring named by `rtype` and `id`.
    fn find(&self, rtype: RingType, id: u16) -> (r: Option<usize>)
        ensures
            match r {
                Some(i) => self@.find(rtype, id) == Some(i as int) && i < self.rings@.len()
                    && self.rings@[i as int]@ == self@.rings[i as int],
                None => self@.find(rtype, id) is None,
            },
    {
        let mut i: usize = 0;
        while i < self.rings.len()
            invariant
                i <= self.rings@.len(),
                self@.find(rtype, id) == self@.find_from(rtype, id, i as int),
            decreases self.rings@.len() - i,
        {
            let same_type = match (self.rings[i].rtype, rtype) {
                (RingType::C2E, RingType::C2E) => true,
                (RingType::E2C, RingType::E2C) => true,
                _ => false,
            };
            if same_type && self.rings[i].client_id == id {
                return Some(i);
            }
            i = i + 1;
        }
        None
    }

    /// The number of buffers in the ring that `ring` names; `None` when the
    /// table holds no such ring.
    pub fn count(&self, ring: &Ring) -> (n: Option<usize>)
        ensures
            match self@.slot_of(*ring) {
                Some(i) => n == Some(self@.rings[i].items.len() as usize),
                None => n is None,
            },
    {
        match self.find(ring.rtype, ring.client_id) {
            Some(i) => Some(self.rings[i].q.len()),
            None => None,
        }
    }
}

/// A handle on a ring: its name. The ring itself lives in the table.
#[derive(Debug, Clone, Copy, PartialEq, Eq, Structural)]
pub struct Ring {
    /// The client that the ring belongs to.
    pub client_id: u16,
    /// The ring's direction.
    pub rtype: RingType,
}

/// The prefix of a ring's name.
pub open spec fn ring_prefix(rtype: RingType) -> Seq<char> {
    match rtype {
        RingType::C2E => "C2E-"@,
        RingType::E2C => "E2C-"@,
    }
}

impl Ring {
    /// Makes the ring named by `rtype` and `client_id`, empty and of the
    /// default capacity. Only the primary process may do so
    /// (`SecondaryProcess`), the name must be free (`Exists`), and the table
    /// must have room (`NoSpace`).
    pub fn new(table: &mut RingTable, client_id: u16, rtype: RingType) -> (r: Result<
        Self,
        MemoryError,
    >)
        ensures
            match r {
                Ok(ring) => old(table)@.create_outcome(rtype, client_id) is Ok && ring == (Ring {
                    client_id,
                    rtype,
                }) && final(table)@ == old(table)@.with_ring(rtype, client_id),
                Err(e) => old(table)@.create_outcome(rtype, client_id) == Err::<(), MemoryError>(e)
                    && final(table)@ == old(table)@,
            },
    {
        if !table.primary {
            return Err(MemoryError::SecondaryProcess);
        }
        if table.find(rtype, client_id).is_some() {
            return Err(MemoryError::Exists);
        }
        if table.rings.len() >= table.max_rings {
            return Err(MemoryError::NoSpace);
        }
        table.rings.push(
            RingSlot {
                client_id,
                rtype,
                capacity: RING_CAPACITY,
                q: VecDeque::new(),
                producer: false,
                consumer: false,
            },
        );
        assert(table@.rings =~= old(table)@.with_ring(rtype, client_id).rings);
        Ok(Ring { client_id, rtype })
    }

    /// The name under which the ring is looked up: `C2E-` or `E2C-`, then
    /// the client id in decimal.
    #[inline]
    pub fn name(&self) -> (s: String)
        ensures
            s@ == ring_prefix(self.rtype) + decimal_digits(self.client_id as nat),
    {
        let mut name: String = match self.rtype {
            RingType::C2E => String::from_str("C2E-"),
            RingType::E2C => String::from_str("E2C-"),
        };
        let id = decimal(self.client_id);
        name.append(id.as_str());
        name
    }

    /// Looks up the ring named by `rtype` and `client_id`. Fails with
    /// `NoEntries` when the table holds no such ring.
    pub fn lookup(table: &RingTable, rtype: RingType, client_id: u16) -> (r: Result<
        Self,
        MemoryError,
    >)
        ensures
            r is Ok <==> table@.find(rtype, client_id) is Some,
            r matches Ok(ring) ==> ring == (Ring { client_id, rtype }),
            r matches Err(e) ==> e == MemoryError::NoEntries,
    {
        match table.find(rtype, client_id) {
            Some(_) => Ok(Ring { client_id, rtype }),
            None => Err(MemoryError::NoEntries),
        }
    }

    /// Takes an end of the ring. A ring has one producer and one consumer:
    /// the attempt to add a second one fails with `Exists`. It fails with
    /// `NoEntries` when the ring is not in the table. Nothing changes when it
    /// fails.
    pub fn attach(&self, table: &mut RingTable, end: RingEnd) -> (r: Result<(), MemoryError>)
        ensures
            r == old(table)@.attach_outcome(*self, end),
            final(table)@ == old(table)@.after_attach(*self, end),
    {
        match table.find(self.rtype, self.client_id) {
            None => Err(MemoryError::NoEntries),
            Some(i) => {
                let taken = match end {
                    RingEnd::Producer => table.rings[i].producer,
                    RingEnd::Consumer => table.rings[i].consumer,
                };
                if taken {
                    Err(MemoryError::Exists)
                } else {
                    match end {
                        RingEnd::Producer => {
                            table.rings[i].producer = true;
                        },
                        RingEnd::Consumer => {
                            table.rings[i].consumer = true;
                        },
                    }
                    assert(table@.rings =~= old(table)@.with_end(i as int, end, true).rings);
                    Ok(())
                }
            },
        }
    }

    /// Gives up an end of the ring, so that another producer or consumer can
    /// take it.
    pub fn detach(&self, table: &mut RingTable, end: RingEnd)
        ensures
            final(table)@ == old(table)@.after_detach(*self, end),
    {
        match table.find(self.rtype, self.client_id) {
            None => {},
            Some(i) => {
                match end {
                    RingEnd::Producer => {
                        table.rings[i].producer = false;
                    },
                    RingEnd::Consumer => {
                        table.rings[i].consumer = false;
                    },
                }
                assert(table@.rings =~= old(table)@.with_end(i as int, end, false).rings);
            },
        }
    }

    /// Puts one buffer on the ring. When the ring is full (`NoSpace`) or no
    /// longer in the table (`NoEntries`) the buffer comes back with the
    /// error, and nothing changes.
    pub fn enqueue(&self, table: &mut RingTable, pkt: Mbuf) -> (r: Result<(), (MemoryError, Mbuf)>)
        ensures
            match old(table)@.slot_of(*self) {
                None => r == Err::<(), (MemoryError, Mbuf)>((MemoryError::NoEntries, pkt))
                    && final(table)@ == old(table)@,
                Some(i) => if old(table)@.rings[i].is_full() {
                    r == Err::<(), (MemoryError, Mbuf)>((MemoryError::NoSpace, pkt)) && final(table)@ == old(table)@
                } else {
                    r is Ok && final(table)@ == old(table)@.with_items(
                        i,
                        old(table)@.rings[i].items.push(pkt),
                    )
                },
            },
    {
        match table.find(self.rtype, self.client_id) {
            None => Err((MemoryError::NoEntries, pkt)),
            Some(i) => {
                if table.rings[i].capacity == 0 || table.rings[i].q.len()
                    >= table.rings[i].capacity - 1 {
                    Err((MemoryError::NoSpace, pkt))
                } else {
                    table.rings[i].q.push_back(pkt);
                    assert(table@.rings =~= old(table)@.with_items(
                        i as int,
                        old(table)@.rings[i as int].items.push(pkt),
                    ).rings);
                    Ok(())
                }
            },
        }
    }

    /// Takes the oldest buffer off the ring. Fails with `NoEntries`, and
    /// changes nothing, when the ring is empty or no longer in the table.
    pub fn dequeue(&self, table: &mut RingTable) -> (r: Result<Mbuf, MemoryError>)
        ensures
            match old(table)@.slot_of(*self) {
                Some(i) if old(table)@.rings[i].items.len() > 0 => r == Ok::<Mbuf, MemoryError>(
                    old(table)@.rings[i].items[0],
                ) && final(table)@ == old(table)@.with_items(
                    i,
                    old(table)@.rings[i].items.subrange(
                        1,
                        old(table)@.rings[i].items.len() as int,
                    ),
                ),
                _ => r == Err::<Mbuf, MemoryError>(MemoryError::NoEntries) && final(table)@ == old(table)@,
            },
    {
        match table.find(self.rtype, self.client_id) {
            None => Err(MemoryError::NoEntries),
            Some(i) => {
                match table.rings[i].q.pop_front() {
                    None => {
                        assert(table@.rings =~= old(table)@.rings);
                        Err(MemoryError::NoEntries)
                    },
                    Some(pkt) => {
                        assert(table@.rings =~= old(table)@.with_items(
                            i as int,
                            old(table)@.rings[i as int].items.subrange(
                                1,
                                old(table)@.rings[i as int].items.len() as int,
                            ),
                        ).rings);
                        Ok(pkt)
                    },
                }
            },
        }
    }

    /// Whether all of `n` buffers fit the ring that the handle names.
    pub open spec fn bulk_fits(self, table: TableView, n: nat) -> bool {
        table.slot_of(self) matches Some(i) && n <= table.rings[i].room()
    }

    /// Puts all of `pkts` on the ring, in order, or none of them. Returns
    /// the number of buffers enqueued: all, or zero. The buffers that were
    /// enqueued leave `pkts`.
    pub fn enqueue_bulk(&self, table: &mut RingTable, pkts: &mut Vec<Mbuf>) -> (n: usize)
        ensures
            self.bulk_fits(old(table)@, old(pkts)@.len()) ==> {
                &&& n == old(pkts)@.len()
                &&& final(pkts)@ == Seq::<Mbuf>::empty()
                &&& final(table)@ == old(table)@.with_items(
                    old(table)@.slot_of(*self)->0,
                    old(table)@.rings[old(table)@.slot_of(*self)->0].items + old(pkts)@,
                )
            },
            !self.bulk_fits(old(table)@, old(pkts)@.len()) ==> {
                &&& n == 0
                &&& final(pkts)@ == old(pkts)@
                &&& final(table)@ == old(table)@
            },
    {
        let i: usize = match table.find(self.rtype, self.client_id) {
            None => {
                return 0;
            },
            Some(i) => i,
        };
        let cap: usize = table.rings[i].capacity;
        let have: usize = table.rings[i].q.len();
        let total: usize = pkts.len();
        let ghost all = pkts@;
        let ghost before = table.rings@[i as int].q@;
        if cap == 0 || have >= cap - 1 || total > cap - 1 - have {
            proof {
                if total == 0 {
                    assert(before + all =~= before);
                    assert(old(table)@.with_items(i as int, before).rings =~= old(table)@.rings);
                }
            }
            return 0;
        }
        while pkts.len() > 0
            invariant
                i < table.rings@.len(),
                table.rings@.len() == old(table).rings@.len(),
                table.primary == old(table).primary,
                table.max_rings == old(table).max_rings,
                forall|j: int|
                    0 <= j < table.rings@.len() && j != i ==> table.rings@[j] == old(table).rings@[j],
                table.rings@[i as int].client_id == old(table).rings@[i as int].client_id,
                table.rings@[i as int].rtype == old(table).rings@[i as int].rtype,
                table.rings@[i as int].capacity == old(table).rings@[i as int].capacity,
                table.rings@[i as int].producer == old(table).rings@[i as int].producer,
                table.rings@[i as int].consumer == old(table).rings@[i as int].consumer,
                have == before.len(),
                before == old(table).rings@[i as int].q@,
                pkts@ == all.subrange(0, pkts@.len() as int),
                pkts@.len() <= all.len(),
                all.len() == total,
                table.rings@[i as int].q@ == before + all.subrange(
                    pkts@.len() as int,
                    all.len() as int,
                ),
            decreases pkts@.len(),
        {
            let ghost mid = table.rings@[i as int].q@;
            let p = pkts.pop().unwrap();
            table.rings[i].q.insert(have, p);
            proof {
                assert(pkts@ =~= all.subrange(0, pkts@.len() as int));
                assert(mid.insert(have as int, p) =~= before + all.subrange(
                    pkts@.len() as int,
                    all.len() as int,
                ));
            }
        }
        proof {
            assert(all.subrange(0, all.len() as int) =~= all);
            assert(pkts@ =~= Seq::<Mbuf>::empty());
            assert(table@.rings =~= old(table)@.with_items(i as int, before + all).rings);
        }
        total
    }

    /// Takes up to `rx_burst_max` buffers off the ring, oldest first, and
    /// appends them to `pkts`. Returns how many it took: as many as the ring
    /// held, up to the limit, and none when the ring is no longer in the
    /// table.
    pub fn dequeue_burst(&self, table: &mut RingTable, pkts: &mut Vec<Mbuf>, rx_burst_max: usize) -> (n:
        usize)
        ensures
            match old(table)@.slot_of(*self) {
                None => n == 0 && final(pkts)@ == old(pkts)@ && final(table)@ == old(table)@,
                Some(i) => {
                    &&& n == vstd::math::min(
                        rx_burst_max as int,
                        old(table)@.rings[i].items.len() as int,
                    )
                    &&& final(pkts)@ == old(pkts)@ + old(table)@.rings[i].items.subrange(
                        0,
                        n as int,
                    )
                    &&& final(table)@ == old(table)@.with_items(
                        i,
                        old(table)@.rings[i].items.subrange(
                            n as int,
                            old(table)@.rings[i].items.len() as int,
                        ),
                    )
                },
            },
    {
        let i: usize = match table.find(self.rtype, self.client_id) {
            None => {
                return 0;
            },
            Some(i) => i,
        };
        let ghost before = table.rings@[i as int].q@;
        let mut n: usize = 0;
        proof {
            assert(before.subrange(0, before.len() as int) =~= before);
            assert(pkts@ =~= old(pkts)@ + before.subrange(0, 0));
        }
        while n < rx_burst_max && table.rings[i].q.len() > 0
            invariant
                i < table.rings@.len(),
                table.rings@.len() == old(table).rings@.len(),
                table.primary == old(table).primary,
                table.max_rings == old(table).max_rings,
                forall|j: int|
                    0 <= j < table.rings@.len() && j != i ==> table.rings@[j] == old(table).rings@[j],
                table.rings@[i as int].client_id == old(table).rings@[i as int].client_id,
                table.rings@[i as int].rtype == old(table).rings@[i as int].rtype,
                table.rings@[i as int].capacity == old(table).rings@[i as int].capacity,
                table.rings@[i as int].producer == old(table).rings@[i as int].producer,
                table.rings@[i as int].consumer == old(table).rings@[i as int].consumer,
                n <= rx_burst_max,
                n <= before.len(),
                before == old(table).rings@[i as int].q@,
                pkts@ == old(pkts)@ + before.subrange(0, n as int),
                table.rings@[i as int].q@ == before.subrange(n as int, before.len() as int),
            decreases before.len() - n,
        {
            let p = table.rings[i].q.pop_front().unwrap();
            pkts.push(p);
            n = n + 1;
            proof {
                assert(pkts@ =~= old(pkts)@ + before.subrange(0, n as int));
                assert(table.rings@[i as int].q@ =~= before.subrange(
                    n as int,
                    before.len() as int,
                ));
            }
        }
        proof {
            assert(table@.rings =~= old(table)@.with_items(
                i as int,
                before.subrange(n as int, before.len() as int),
            ).rings);
        }
        n
    }

    /// Takes the ring out of the table and hands back the buffers that were
    /// still in it, oldest first. Nothing happens when the table holds no
    /// such ring.
    pub fn free(self, table: &mut RingTable) -> (left: Vec<Mbuf>)
        ensures
            left@ == old(table)@.items_of(self),
            final(table)@ == old(table)@.without_ring(self),
    {
        let mut left: Vec<Mbuf> = Vec::new();
        match table.find(self.rtype, self.client_id) {
            None => {},
            Some(i) => {
                let mut slot = table.rings.remove(i);
                assert(table@.rings =~= old(table)@.without(i as int).rings);
                let ghost items = slot.q@;
                while slot.q.len() > 0
                    invariant
                        left@ + slot.q@ == items,
                    decreases slot.q@.len(),
                {
                    let ghost rest = slot.q@;
                    let p = slot.q.pop_front().unwrap();
                    left.push(p);
                    assert(left@ + slot.q@ =~= items) by {
                        assert(left@.drop_last() + rest =~= items);
                    }
                }
                assert(left@ =~= items);
            },
        }
        left
    }
}

/// The two rings of one client: one for each direction.
#[derive(Debug, Clone, Copy, PartialEq, Eq, Structural)]
pub struct Channel {
    /// Carries buffers from the client to the engine.
    pub client_to_engine: Ring,
    /// Carries buffers from the engine to the client.
    pub engine_to_client: Ring,
}

/// The channel of client `id`: its rings are named by the id alone.
pub open spec fn channel_of(id: u16) -> Channel {
    Channel {
        client_to_engine: Ring { client_id: id, rtype: RingType::C2E },
        engine_to_client: Ring { client_id: id, rtype: RingType::E2C },
    }
}

impl TableView {
    /// What making the channel of client `id` answers: the verdict on the
    /// ring towards the client first, then that on the ring towards the
    /// engine.
    pub open spec fn channel_outcome(self, id: u16) -> Result<(), MemoryError> {
        if !self.primary {
            Err(MemoryError::SecondaryProcess)
        } else if self.find(RingType::E2C, id) is Some {
            Err(MemoryError::Exists)
        } else if self.rings.len() >= self.max_rings {
            Err(MemoryError::NoSpace)
        } else if self.find(RingType::C2E, id) is Some {
            Err(MemoryError::Exists)
        } else if self.rings.len() + 1 >= self.max_rings {
            Err(MemoryError::NoSpace)
        } else {
            Ok(())
        }
    }

    /// What taking a side of a channel answers: the verdict on the ring
    /// towards the client first, then that on the ring towards the engine.
    pub open spec fn side_outcome(self, ch: Channel, side: Side) -> Result<(), MemoryError> {
        match self.attach_outcome(ch.engine_to_client, end_of(side, RingType::E2C)) {
            Err(e) => Err(e),
            Ok(()) => self.attach_outcome(ch.client_to_engine, end_of(side, RingType::C2E)),
        }
    }

    /// The table after a side of a channel was taken: both ends of that
    /// side, or neither.
    pub open spec fn after_side(self, ch: Channel, side: Side) -> TableView {
        if self.side_outcome(ch, side) is Ok {
            self.after_attach(ch.engine_to_client, end_of(side, RingType::E2C)).after_attach(
                ch.client_to_engine,
                end_of(side, RingType::C2E),
            )
        } else {
            self
        }
    }

    /// The table with the channel of client `id` made and the engine's side
    /// of it taken.
    pub open spec fn with_channel(self, id: u16) -> TableView {
        self.with_ring(RingType::E2C, id).with_ring(RingType::C2E, id).after_side(
            channel_of(id),
            Side::Engine,
        )
    }

    /// Whether the table holds both rings of client `id`.
    pub open spec fn has_channel(self, id: u16) -> bool {
        self.find(RingType::E2C, id) is Some && self.find(RingType::C2E, id) is Some
    }
}

impl Channel {
    /// Makes both rings of client `client_id`, or neither, and takes the
    /// engine's side of the channel.
    pub fn new(table: &mut RingTable, client_id: u16) -> (r: Result<Self, MemoryError>)
        ensures
            match r {
                Ok(ch) => old(table)@.channel_outcome(client_id) is Ok && ch == channel_of(
                    client_id,
                ) && final(table)@ == old(table)@.with_channel(client_id) && final(table)@.has_channel(client_id),
                Err(e) => old(table)@.channel_outcome(client_id) == Err::<(), MemoryError>(e)
                    && final(table)@ == old(table)@,
            },
    {
        if !table.primary {
            return Err(MemoryError::SecondaryProcess);
        }
        if table.find(RingType::E2C, client_id).is_some() {
            return Err(MemoryError::Exists);
        }
        if table.rings.len() >= table.max_rings {
            return Err(MemoryError::NoSpace);
        }
        if table.find(RingType::C2E, client_id).is_some() {
            return Err(MemoryError::Exists);
        }
        if table.rings.len() + 1 >= table.max_rings {
            return Err(MemoryError::NoSpace);
        }
        table.rings.push(
            RingSlot {
                client_id,
                rtype: RingType::E2C,
                capacity: RING_CAPACITY,
                q: VecDeque::new(),
                producer: true,
                consumer: false,
            },
        );
        table.rings.push(
            RingSlot {
                client_id,
                rtype: RingType::C2E,
                capacity: RING_CAPACITY,
                q: VecDeque::new(),
                producer: false,
                consumer: true,
            },
        );
        proof {
            let t0 = old(table)@;
            let t1 = t0.with_ring(RingType::E2C, client_id);
            let t2 = t1.with_ring(RingType::C2E, client_id);
            let n = t0.rings.len() as int;
            lemma_find_with_ring(t0, RingType::E2C, client_id, RingType::E2C, client_id, 0);
            lemma_find_with_ring(t0, RingType::C2E, client_id, RingType::E2C, client_id, 0);
            lemma_find_with_ring(t1, RingType::E2C, client_id, RingType::C2E, client_id, 0);
            lemma_find_with_ring(t1, RingType::C2E, client_id, RingType::C2E, client_id, 0);
            assert(t2.find(RingType::E2C, client_id) == Some(n));
            assert(t2.find(RingType::C2E, client_id) == Some(n + 1));
            let t3 = t2.with_end(n, RingEnd::Producer, true);
            lemma_find_after_end(t2, n, RingEnd::Producer, true, RingType::C2E, client_id, 0);
            lemma_find_after_end(t2, n, RingEnd::Producer, true, RingType::E2C, client_id, 0);
            let t4 = t3.with_end(n + 1, RingEnd::Consumer, true);
            lemma_find_after_end(t3, n + 1, RingEnd::Consumer, true, RingType::C2E, client_id, 0);
            lemma_find_after_end(t3, n + 1, RingEnd::Consumer, true, RingType::E2C, client_id, 0);
            assert(t0.with_channel(client_id) == t4);
            assert(table@.rings =~= t4.rings);
        }
        Ok(
            Channel {
                client_to_engine: Ring { client_id, rtype: RingType::C2E },
                engine_to_client: Ring { client_id, rtype: RingType::E2C },
            },
        )
    }

    /// Takes a side of the channel: the engine's side is the producer's end
    /// of the ring towards the client and the consumer's end of the ring
    /// towards the engine, the client's side the other two ends. Both ends
    /// are taken or neither: the attempt fails with `Exists` when one of them
    /// is taken already and with `NoEntries` when a ring is missing.
    pub fn attach(&self, table: &mut RingTable, side: Side) -> (r: Result<(), MemoryError>)
        ensures
            r == old(table)@.side_outcome(*self, side),
            final(table)@ == old(table)@.after_side(*self, side),
    {
        let (to_client, to_engine) = match side {
            Side::Engine => (RingEnd::Producer, RingEnd::Consumer),
            Side::Client => (RingEnd::Consumer, RingEnd::Producer),
        };
        match self.engine_to_client.attach(table, to_client) {
            Ok(()) => {},
            Err(e) => {
                return Err(e);
            },
        }
        proof {
            let t = old(table)@;
            let i = t.slot_of(self.engine_to_client)->0;
            lemma_find_is_named(t, self.engine_to_client.rtype, self.engine_to_client.client_id, 0);
            lemma_find_after_end(
                t,
                i,
                to_client,
                true,
                self.client_to_engine.rtype,
                self.client_to_engine.client_id,
                0,
            );
            lemma_find_is_named(t, self.client_to_engine.rtype, self.client_to_engine.client_id, 0);
        }
        match self.client_to_engine.attach(table, to_engine) {
            Ok(()) => Ok(()),
            Err(e) => {
                self.engine_to_client.detach(table, to_client);
                proof {
                    let t = old(table)@;
                    let i = t.slot_of(self.engine_to_client)->0;
                    lemma_find_after_end(
                        t,
                        i,
                        to_client,
                        true,
                        self.engine_to_client.rtype,
                        self.engine_to_client.client_id,
                        0,
                    );
                    assert(table@.rings =~= t.rings);
                }
                Err(e)
            },
        }
    }

    /// Gives up a side of the channel.
    pub fn detach(&self, table: &mut RingTable, side: Side)
        ensures
            final(table)@ == old(table)@.after_detach(
                self.engine_to_client,
                end_of(side, RingType::E2C),
            ).after_detach(self.client_to_engine, end_of(side, RingType::C2E)),
    {
        let (to_client, to_engine) = match side {
            Side::Engine => (RingEnd::Producer, RingEnd::Consumer),
            Side::Client => (RingEnd::Consumer, RingEnd::Producer),
        };
        self.engine_to_client.detach(table, to_client);
        self.client_to_engine.detach(table, to_engine);
    }

    /// Looks up both rings of client `client_id`. Fails with `NoEntries`
    /// unless the table holds both.
    pub fn lookup(table: &RingTable, client_id: u16) -> (r: Result<Self, MemoryError>)
        ensures
            r is Ok <==> table@.has_channel(client_id),
            r matches Ok(ch) ==> ch == channel_of(client_id),
            r matches Err(e) ==> e == MemoryError::NoEntries,
    {
        let engine_to_client = match Ring::lookup(table, RingType::E2C, client_id) {
            Ok(ring) => ring,
            Err(e) => {
                return Err(e);
            },
        };
        let client_to_engine = match Ring::lookup(table, RingType::C2E, client_id) {
            Ok(ring) => ring,
            Err(e) => {
                return Err(e);
            },
        };
        Ok(Self { client_to_engine, engine_to_client })
    }

    /// Takes both rings out of the table and hands back the buffers that
    /// were still in them: those on their way to the client first.
    pub fn free(self, table: &mut RingTable) -> (left: Vec<Mbuf>)
        ensures
            left@ == old(table)@.items_of(self.engine_to_client) + old(table)@.without_ring(
                self.engine_to_client,
            ).items_of(self.client_to_engine),
            final(table)@ == old(table)@.without_ring(self.engine_to_client).without_ring(
                self.client_to_engine,
            ),
    {
        let mut left = self.engine_to_client.free(table);
        let mut rest = self.client_to_engine.free(table);
        left.append(&mut rest);
        left
    }

    /// Sends a buffer from the client to the engine.
    pub fn send_to_engine(&self, table: &mut RingTable, pkt: Mbuf) -> (r: Result<
        (),
        (MemoryError, Mbuf),
    >)
        ensures
            match old(table)@.slot_of(self.client_to_engine) {
                None => r == Err::<(), (MemoryError, Mbuf)>((MemoryError::NoEntries, pkt))
                    && final(table)@ == old(table)@,
                Some(i) => if old(table)@.rings[i].is_full() {
                    r == Err::<(), (MemoryError, Mbuf)>((MemoryError::NoSpace, pkt)) && final(table)@ == old(table)@
                } else {
                    r is Ok && final(table)@ == old(table)@.with_items(
                        i,
                        old(table)@.rings[i].items.push(pkt),
                    )
                },
            },
    {
        self.client_to_engine.enqueue(table, pkt)
    }

    /// Receives, on the client's side, a buffer that the engine sent.
    pub fn receive_from_engine(&self, table: &mut RingTable) -> (r: Result<Mbuf, MemoryError>)
        ensures
            match old(table)@.slot_of(self.engine_to_client) {
                Some(i) if old(table)@.rings[i].items.len() > 0 => r == Ok::<Mbuf, MemoryError>(
                    old(table)@.rings[i].items[0],
                ) && final(table)@ == old(table)@.with_items(
                    i,
                    old(table)@.rings[i].items.subrange(
                        1,
                        old(table)@.rings[i].items.len() as int,
                    ),
                ),
                _ => r == Err::<Mbuf, MemoryError>(MemoryError::NoEntries) && final(table)@ == old(table)@,
            },
    {
        self.engine_to_client.dequeue(table)
    }

    /// Sends a buffer from the engine to the client.
    pub fn send_to_client(&self, table: &mut RingTable, pkt: Mbuf) -> (r: Result<
        (),
        (MemoryError, Mbuf),
    >)
        ensures
            match old(table)@.slot_of(self.engine_to_client) {
                None => r == Err::<(), (MemoryError, Mbuf)>((MemoryError::NoEntries, pkt))
                    && final(table)@ == old(table)@,
                Some(i) => if old(table)@.rings[i].is_full() {
                    r == Err::<(), (MemoryError, Mbuf)>((MemoryError::NoSpace, pkt)) && final(table)@ == old(table)@
                } else {
                    r is Ok && final(table)@ == old(table)@.with_items(
                        i,
                        old(table)@.rings[i].items.push(pkt),
                    )
                },
            },
    {
        self.engine_to_client.enqueue(table, pkt)
    }

    /// Receives, on the engine's side, a buffer that the client sent.
    pub fn receive_from_client(&self, table: &mut RingTable) -> (r: Result<Mbuf, MemoryError>)
        ensures
            match old(table)@.slot_of(self.client_to_engine) {
                Some(i) if old(table)@.rings[i].items.len() > 0 => r == Ok::<Mbuf, MemoryError>(
                    old(table)@.rings[i].items[0],
                ) && final(table)@ == old(table)@.with_items(
                    i,
                    old(table)@.rings[i].items.subrange(
                        1,
                        old(table)@.rings[i].items.len() as int,
                    ),
                ),
                _ => r == Err::<Mbuf, MemoryError>(MemoryError::NoEntries) && final(table)@ == old(table)@,
            },
    {
        self.client_to_engine.dequeue(table)
    }

    /// Sends all of `pkts` from the engine to the client, or none of them.
    pub fn send_to_client_bulk(&self, table: &mut RingTable, pkts: &mut Vec<Mbuf>) -> (n: usize)
        ensures
            self.engine_to_client.bulk_fits(old(table)@, old(pkts)@.len()) ==> {
                &&& n == old(pkts)@.len()
                &&& final(pkts)@ == Seq::<Mbuf>::empty()
                &&& final(table)@ == old(table)@.with_items(
                    old(table)@.slot_of(self.engine_to_client)->0,
                    old(table)@.rings[old(table)@.slot_of(self.engine_to_client)->0].items + old(pkts)@,
                )
            },
            !self.engine_to_client.bulk_fits(old(table)@, old(pkts)@.len()) ==> {
                &&& n == 0
                &&& final(pkts)@ == old(pkts)@
                &&& final(table)@ == old(table)@
            },
    {
        self.engine_to_client.enqueue_bulk(table, pkts)
    }

    /// Receives, on the engine's side, up to `rx_burst_max` buffers that the
    /// client sent.
    pub fn recv_from_client_bulk(
        &self,
        table: &mut RingTable,
        pkts: &mut Vec<Mbuf>,
        rx_burst_max: usize,
    ) -> (n: usize)
        ensures
            match old(table)@.slot_of(self.client_to_engine) {
                None => n == 0 && final(pkts)@ == old(pkts)@ && final(table)@ == old(table)@,
                Some(i) => {
                    &&& n == vstd::math::min(
                        rx_burst_max as int,
                        old(table)@.rings[i].items.len() as int,
                    )
                    &&& final(pkts)@ == old(pkts)@ + old(table)@.rings[i].items.subrange(
                        0,
                        n as int,
                    )
                    &&& final(table)@ == old(table)@.with_items(
                        i,
                        old(table)@.rings[i].items.subrange(
                            n as int,
                            old(table)@.rings[i].items.len() as int,
                        ),
                    )
                },
            },
    {
        self.client_to_engine.dequeue_burst(table, pkts, rx_burst_max)
    }

    /// Sends all of `pkts` from the client to the engine, or none of them.
    pub fn send_to_engine_bulk(&self, table: &mut RingTable, pkts: &mut Vec<Mbuf>) -> (n: usize)
        ensures
            self.client_to_engine.bulk_fits(old(table)@, old(pkts)@.len()) ==> {
                &&& n == old(pkts)@.len()
                &&& final(pkts)@ == Seq::<Mbuf>::empty()
                &&& final(table)@ == old(table)@.with_items(
                    old(table)@.slot_of(self.client_to_engine)->0,
                    old(table)@.rings[old(table)@.slot_of(self.client_to_engine)->0].items + old(pkts)@,
                )
            },
            !self.client_to_engine.bulk_fits(old(table)@, old(pkts)@.len()) ==> {
                &&& n == 0
                &&& final(pkts)@ == old(pkts)@
                &&& final(table)@ == old(table)@
            },
    {
        self.client_to_engine.enqueue_bulk(table, pkts)
    }

    /// Receives, on the client's side, up to `rx_burst_max` buffers that the
    /// engine sent.
    pub fn recv_from_engine_burst(
        &self,
        table: &mut RingTable,
        pkts: &mut Vec<Mbuf>,
        rx_burst_max: usize,
    ) -> (n: usize)
        ensures
            match old(table)@.slot_of(self.engine_to_client) {
                None => n == 0 && final(pkts)@ == old(pkts)@ && final(table)@ == old(table)@,
                Some(i) => {
                    &&& n == vstd::math::min(
                        rx_burst_max as int,
                        old(table)@.rings[i].items.len() as int,
                    )
                    &&& final(pkts)@ == old(pkts)@ + old(table)@.rings[i].items.subrange(
                        0,
                        n as int,
                    )
                    &&& final(table)@ == old(table)@.with_items(
                        i,
                        old(table)@.rings[i].items.subrange(
                            n as int,
                            old(table)@.rings[i].items.len() as int,
                        ),
                    )
                },
            },
    {
        self.engine_to_client.dequeue_burst(table, pkts, rx_burst_max)
    }
}

/// One step of a ring's life.
pub enum RingOp {
    /// An attempt to enqueue this buffer.
    Enqueue(Mbuf),
    /// An attempt to dequeue.
    Dequeue,
}

/// A ring together with what went into it and what came out, in order.
pub struct RingTrace {
    /// The ring.
    pub ring: RingView,
    /// The buffers that were enqueued, first first.
    pub enqueued: Seq<Mbuf>,
    /// The buffers that were dequeued, first first.
    pub dequeued: Seq<Mbuf>,
}

/// The trace after one more step: a refused step leaves it as it is.
pub open spec fn ring_step(t: RingTrace, op: RingOp) -> RingTrace {
    match op {
        RingOp::Enqueue(x) => if t.ring.is_full() {
            t
        } else {
            RingTrace { ring: t.ring.after_enqueue(x), enqueued: t.enqueued.push(x), ..t }
        },
        RingOp::Dequeue => if t.ring.items.len() == 0 {
            t
        } else {
            RingTrace {
                ring: t.ring.after_dequeue(),
                dequeued: t.dequeued.push(t.ring.items[0]),
                ..t
            }
        },
    }
}

/// The trace after a sequence of steps.
pub open spec fn ring_run(t: RingTrace, ops: Seq<RingOp>) -> RingTrace
    decreases ops.len(),
{
    if ops.len() == 0 {
        t
    } else {
        ring_step(ring_run(t, ops.drop_last()), ops.last())
    }
}

/// A ring is first-in first-out: after any sequence of enqueues and
/// dequeues on a ring that started empty, what was dequeued, followed by
/// what is still in the ring, is what was enqueued. So the buffers dequeued
/// are a prefix of the buffers enqueued, and the ring never holds as many
/// buffers as its capacity.
pub proof fn lemma_ring_fifo(ring: RingView, ops: Seq<RingOp>)
    requires
        ring.items.len() == 0,
        ring.capacity >= 1,
    ensures
        ({
            let t = ring_run(
                RingTrace { ring, enqueued: Seq::empty(), dequeued: Seq::empty() },
                ops,
            );
            &&& t.dequeued + t.ring.items == t.enqueued
            &&& t.dequeued.len() <= t.enqueued.len()
            &&& t.dequeued == t.enqueued.subrange(0, t.dequeued.len() as int)
            &&& t.ring.items.len() < t.ring.capacity
            &&& t.ring.capacity == ring.capacity
        }),
    decreases ops.len(),
{
    let start = RingTrace { ring, enqueued: Seq::empty(), dequeued: Seq::empty() };
    if ops.len() == 0 {
        assert(start.dequeued + start.ring.items =~= start.enqueued);
        assert(start.dequeued =~= start.enqueued.subrange(0, 0));
    } else {
        lemma_ring_fifo(ring, ops.drop_last());
        let p = ring_run(start, ops.drop_last());
        let t = ring_step(p, ops.last());
        assert(t.dequeued + t.ring.items =~= t.enqueued);
        assert(t.dequeued =~= t.enqueued.subrange(0, t.dequeued.len() as int));
    }
}

/// What is sent on an empty ring is what is received from it next, and the
/// table is then as it was before.
pub proof fn lemma_ring_round_trip(t: TableView, ring: Ring, pkt: Mbuf)
    requires
        t.slot_of(ring) is Some,
        t.rings[t.slot_of(ring)->0].items.len() == 0,
        !t.rings[t.slot_of(ring)->0].is_full(),
    ensures
        ({
            let i = t.slot_of(ring)->0;
            let sent = t.with_items(i, t.rings[i].items.push(pkt));
            &&& sent.slot_of(ring) == Some(i)
            &&& sent.rings[i].items.len() == 1
            &&& sent.rings[i].items[0] == pkt
            &&& sent.with_items(i, sent.rings[i].items.subrange(1, 1)) == t
        }),
{
    let i = t.slot_of(ring)->0;
    lemma_find_is_named(t, ring.rtype, ring.client_id, 0);
    let sent = t.with_items(i, t.rings[i].items.push(pkt));
    lemma_find_after_items(t, i, t.rings[i].items.push(pkt), ring.rtype, ring.client_id, 0);
    assert(sent.rings[i].items.subrange(1, 1) =~= t.rings[i].items);
    assert(sent.with_items(i, sent.rings[i].items.subrange(1, 1)).rings =~= t.rings);
}

} // verus!
