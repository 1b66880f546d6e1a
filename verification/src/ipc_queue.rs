//! A circular queue of fixed-size elements for one producer and one
//! consumer in two processes. The elements lie in a region of memory that
//! both processes see; each process keeps indices of its own and learns the
//! other's from control messages. The queue holds one element less than its
//! capacity.

use vstd::prelude::*;

verus! {

/// Largest capacity of a queue: an index must fit in the single byte that a
/// control message has for it.
pub const MAX_CAPACITY: usize = 256;

/// What can go wrong with a queue.
#[derive(Debug, Clone, Copy, PartialEq, Eq, Structural)]
pub enum QueueError {
    /// The capacity is zero or more than an index byte can address.
    BadCapacity,
    /// The queue is full.
    Full,
    /// The region of memory does not hold the queue.
    NoRegion,
}

/// The index after `i` in a queue of capacity `cap`: the indices go round.
pub open spec fn next_index(i: nat, cap: nat) -> nat {
    if i + 1 < cap {
        i + 1
    } else if i + 1 == cap {
        0
    } else {
        (i + 1) % cap
    }
}

/// The place in the region of slot `i` of a queue that starts at `base`.
pub open spec fn slot(base: nat, i: nat) -> int {
    (base + i) as int
}

/// The number of steps from index `read` to index `write`.
pub open spec fn distance(read: nat, write: nat, cap: nat) -> nat {
    if write >= read {
        (write - read) as nat
    } else {
        (write + cap - read) as nat
    }
}

/// The elements between index `read`, exclusive, and index `write`,
/// inclusive: those that were written and not yet read, oldest first.
pub open spec fn pending_from<T>(region: Seq<T>, base: nat, cap: nat, read: nat, write: nat) -> Seq<
    T,
>
    decreases distance(read, write, cap),
{
    if read == write || read >= cap || write >= cap {
        Seq::empty()
    } else {
        seq![region[slot(base, next_index(read, cap))]] + pending_from(
            region,
            base,
            cap,
            next_index(read, cap),
            write,
        )
    }
}

/// What a queue is, as far as contracts are concerned.
pub struct RingBufView {
    /// The number of slots.
    pub capacity: nat,
    /// Where in the region the slots start.
    pub base: nat,
    /// The slot written last.
    pub write: nat,
    /// The slot read last.
    pub read: nat,
}

impl RingBufView {
    /// The queue has slots, no more than an index byte can address, and
    /// each index fits in a byte.
    pub open spec fn wf(self) -> bool {
        &&& 0 < self.capacity <= MAX_CAPACITY
        &&& self.write < MAX_CAPACITY
        &&& self.read < MAX_CAPACITY
    }

    /// Both indices address a slot. An index taken over from the other side
    /// may address none.
    pub open spec fn in_range(self) -> bool {
        self.write < self.capacity && self.read < self.capacity
    }

    /// Whether what is pending can be read: the region holds the queue, and
    /// both indices address a slot.
    pub open spec fn readable<T>(self, region: Seq<T>) -> bool {
        self.within(region) && self.in_range()
    }

    /// Whether the region holds the queue.
    pub open spec fn within<T>(self, region: Seq<T>) -> bool {
        self.base + self.capacity <= region.len()
    }

    /// Whether no further element fits.
    pub open spec fn is_full(self) -> bool {
        next_index(self.write, self.capacity) == self.read
    }

    /// The elements that were written and not yet read, oldest first.
    pub open spec fn pending<T>(self, region: Seq<T>) -> Seq<T> {
        pending_from(region, self.base, self.capacity, self.read, self.write)
    }

    /// The two index bytes that go into a control message: write index,
    /// then read index.
    pub open spec fn index_bytes(self) -> Seq<u8> {
        seq![self.write as u8, self.read as u8]
    }

    /// The queue with another write index.
    pub open spec fn with_write(self, write: nat) -> RingBufView {
        RingBufView { write, ..self }
    }

    /// The queue with another read index.
    pub open spec fn with_read(self, read: nat) -> RingBufView {
        RingBufView { read, ..self }
    }
}

/// The indices of a circular queue.
#[derive(Debug)]
pub struct RingBuf<T: Copy> {
    capacity: usize,
    base: usize,
    write: usize,
    read: usize,
    _marker: core::marker::PhantomData<T>,
}

impl<T: Copy> View for RingBuf<T> {
    type V = RingBufView;

    closed spec fn view(&self) -> RingBufView {
        RingBufView {
            capacity: self.capacity as nat,
            base: self.base as nat,
            write: self.write as nat,
            read: self.read as nat,
        }
    }
}

/// Appending an element in the slot after the write index adds it at the
/// end of what is pending, and changes nothing else that is pending.
pub proof fn lemma_pending_push<T>(
    region: Seq<T>,
    base: nat,
    cap: nat,
    read: nat,
    write: nat,
    elem: T,
)
    requires
        0 < cap,
        read < cap,
        write < cap,
        next_index(write, cap) != read,
        base + cap <= region.len(),
    ensures
        pending_from(
            region.update(slot(base, next_index(write, cap)), elem),
            base,
            cap,
            read,
            next_index(write, cap),
        ) == pending_from(region, base, cap, read, write).push(elem),
    decreases distance(read, write, cap),
{
    let nw = next_index(write, cap);
    let after = region.update(slot(base, nw), elem);
    if read == write {
        assert(pending_from(after, base, cap, nw, nw) =~= Seq::<T>::empty());
        assert(pending_from(after, base, cap, read, nw) =~= seq![elem]);
        assert(pending_from(region, base, cap, read, write).push(elem) =~= seq![elem]);
    } else {
        let nr = next_index(read, cap);
        lemma_pending_push(region, base, cap, nr, write, elem);
        assert(nr != nw);
        assert(after[slot(base, nr)] == region[slot(base, nr)]);
        assert(pending_from(after, base, cap, read, nw) =~= seq![region[slot(base, nr)]]
            + pending_from(after, base, cap, nr, nw));
        assert(pending_from(region, base, cap, read, write).push(elem) =~= seq![
            region[slot(base, nr)],
        ] + pending_from(region, base, cap, nr, write).push(elem));
    }
}

/// The number of pending elements is the distance between the indices.
pub proof fn lemma_pending_len<T>(region: Seq<T>, base: nat, cap: nat, read: nat, write: nat)
    requires
        0 < cap,
        read < cap,
        write < cap,
    ensures
        pending_from(region, base, cap, read, write).len() == distance(read, write, cap),
        distance(read, write, cap) < cap,
    decreases distance(read, write, cap),
{
    if read != write {
        lemma_pending_len(region, base, cap, next_index(read, cap), write);
    }
}

/// What the producer wrote reaches the consumer with the write index: once
/// the consumer, whose read index the producer knows, has taken over the
/// write index that the producer's control message carries, exactly one more
/// element is pending for it, the one that was written, after all that was
/// pending before.
pub proof fn lemma_write_index_delivers<T>(
    producer: RingBufView,
    consumer: RingBufView,
    region: Seq<T>,
    elem: T,
)
    requires
        producer.wf(),
        producer.in_range(),
        consumer == producer,
        producer.within(region),
        !producer.is_full(),
    ensures
        ({
            let written = next_index(producer.write, producer.capacity);
            let after = region.update(slot(producer.base, written), elem);
            consumer.with_write(written).pending(after) == consumer.pending(region).push(elem)
        }),
{
    lemma_pending_push(
        region,
        producer.base,
        producer.capacity,
        producer.read,
        producer.write,
        elem,
    );
}

impl<T: Copy> RingBuf<T> {
    #[verifier::type_invariant]
    spec fn inv(self) -> bool {
        &&& 0 < self.capacity <= MAX_CAPACITY
        &&& self.write < MAX_CAPACITY
        &&& self.read < MAX_CAPACITY
    }

    /// An empty queue of `cap` slots that start at `base` of the region.
    /// Fails with `BadCapacity` when `cap` is zero or more than 256.
    pub fn new(base: usize, cap: usize) -> (r: Result<Self, QueueError>)
        ensures
            r is Ok <==> 0 < cap <= MAX_CAPACITY,
            r matches Err(e) ==> e == QueueError::BadCapacity,
            r matches Ok(q) ==> q@ == (RingBufView {
                capacity: cap as nat,
                base: base as nat,
                write: 0,
                read: 0,
            }) && q@.wf() && q@.in_range(),
    {
        if cap == 0 || cap > MAX_CAPACITY {
            return Err(QueueError::BadCapacity);
        }
        Ok(Self { capacity: cap, base, write: 0, read: 0, _marker: core::marker::PhantomData })
    }

    /// The number of slots.
    pub fn capacity(&self) -> (n: usize)
        ensures
            n == self@.capacity,
            self@.wf(),
    {
        proof {
            use_type_invariant(self);
        }
        self.capacity
    }

    /// The write index and the read index, each as one byte.
    pub fn indices(&self) -> (r: [u8; 2])
        ensures
            self@.wf(),
            r[0] == self@.write,
            r[1] == self@.read,
            r@ == self@.index_bytes(),
    {
        proof {
            use_type_invariant(self);
        }
        let r: [u8; 2] = [self.write as u8, self.read as u8];
        assert(r@ =~= self@.index_bytes());
        r
    }

    /// Takes over the write index of the producer, so that the consumer
    /// knows how far data was written.
    pub fn update_write_index(&mut self, write: u8)
        ensures
            final(self)@.wf(),
            final(self)@ == old(self)@.with_write(write as nat),
    {
        proof {
            use_type_invariant(&*self);
        }
        self.write = write as usize;
    }

    /// Takes over the read index of the consumer, so that the producer knows
    /// how far data was read.
    pub fn update_read_index(&mut self, read: u8)
        ensures
            final(self)@.wf(),
            final(self)@ == old(self)@.with_read(read as nat),
    {
        proof {
            use_type_invariant(&*self);
        }
        self.read = read as usize;
    }

    /// The index after `i`, going round.
    fn next(&self, i: usize) -> (n: usize)
        requires
            i < MAX_CAPACITY,
        ensures
            n == next_index(i as nat, self@.capacity),
            n < self@.capacity,
    {
        proof {
            use_type_invariant(self);
        }
        if i + 1 < self.capacity {
            i + 1
        } else if i + 1 == self.capacity {
            0
        } else {
            let n = (i + 1) % self.capacity;
            n
        }
    }

    /// The number of elements that were written and not yet read; zero while
    /// an index addresses no slot.
    pub fn len(&self) -> (n: usize)
        ensures
            n == (if self@.in_range() {
                distance(self@.read, self@.write, self@.capacity)
            } else {
                0
            }),
            n < self@.capacity,
            self@.wf(),
    {
        proof {
            use_type_invariant(self);
        }
        if self.write >= self.capacity || self.read >= self.capacity {
            0
        } else if self.write >= self.read {
            self.write - self.read
        } else {
            self.write + self.capacity - self.read
        }
    }

    /// Writes an element into the slot after the write index and moves the
    /// index there. Fails with `NoRegion` when the region does not hold the
    /// queue and with `Full` when the slot is the one read last; nothing
    /// changes then.
    pub fn push(&mut self, region: &mut Vec<T>, elem: T) -> (r: Result<(), QueueError>)
        ensures
            old(self)@.wf(),
            final(self)@.wf(),
            r == (if !old(self)@.within(old(region)@) {
                Err::<(), QueueError>(QueueError::NoRegion)
            } else if old(self)@.is_full() {
                Err::<(), QueueError>(QueueError::Full)
            } else {
                Ok::<(), QueueError>(())
            }),
            r is Err ==> final(self)@ == old(self)@ && final(region)@ == old(region)@,
            r is Ok ==> {
                &&& final(self)@ == old(self)@.with_write(
                    next_index(old(self)@.write, old(self)@.capacity),
                )
                &&& final(region)@ == old(region)@.update(
                    slot(old(self)@.base, next_index(old(self)@.write, old(self)@.capacity)),
                    elem,
                )
                &&& old(self)@.in_range() ==> final(self)@.in_range() && final(self)@.pending(
                    final(region)@,
                ) == old(self)@.pending(old(region)@).push(elem)
            },
    {
        proof {
            use_type_invariant(&*self);
        }
        if region.len() < self.capacity || self.base > region.len() - self.capacity {
            return Err(QueueError::NoRegion);
        }
        let cur_ind: usize = self.next(self.write);
        if cur_ind == self.read {
            return Err(QueueError::Full);
        }
        proof {
            if self@.in_range() {
                lemma_pending_push(
                    region@,
                    self.base as nat,
                    self.capacity as nat,
                    self.read as nat,
                    self.write as nat,
                    elem,
                );
            }
        }
        self.write = cur_ind;
        region[self.base + cur_ind] = elem;
        Ok(())
    }

    /// Reads the element in the slot after the read index and moves the
    /// index there. Returns `None`, and changes nothing, when the read index
    /// is the write index or the region does not hold the queue.
    pub fn pop(&mut self, region: &Vec<T>) -> (r: Option<T>)
        ensures
            old(self)@.wf(),
            final(self)@.wf(),
            r is Some <==> old(self)@.within(region@) && old(self)@.read != old(self)@.write,
            r is None ==> final(self)@ == old(self)@,
            r matches Some(elem) ==> {
                &&& final(self)@ == old(self)@.with_read(
                    next_index(old(self)@.read, old(self)@.capacity),
                )
                &&& elem == region@[slot(
                    old(self)@.base,
                    next_index(old(self)@.read, old(self)@.capacity),
                )]
                &&& old(self)@.in_range() ==> {
                    &&& final(self)@.in_range()
                    &&& old(self)@.pending(region@).len() > 0
                    &&& elem == old(self)@.pending(region@)[0]
                    &&& final(self)@.pending(region@) == old(self)@.pending(region@).subrange(
                        1,
                        old(self)@.pending(region@).len() as int,
                    )
                }
            },
    {
        proof {
            use_type_invariant(&*self);
        }
        if region.len() < self.capacity || self.base > region.len() - self.capacity {
            return None;
        }
        if self.read == self.write {
            return None;
        }
        let cur_ind: usize = self.next(self.read);
        proof {
            if self@.in_range() {
                let p = old(self)@.pending(region@);
                let rest = pending_from(
                    region@,
                    self.base as nat,
                    self.capacity as nat,
                    cur_ind as nat,
                    self.write as nat,
                );
                assert(p =~= seq![region@[self.base + cur_ind]] + rest);
                assert(rest =~= p.subrange(1, p.len() as int));
            }
        }
        self.read = cur_ind;
        Some(region[self.base + cur_ind])
    }

    /// Reads all that is pending, oldest first. While the region does not
    /// hold the queue, or an index addresses no slot, nothing is read and
    /// nothing changes.
    pub fn drain(&mut self, region: &Vec<T>) -> (out: Vec<T>)
        ensures
            old(self)@.wf(),
            final(self)@.wf(),
            old(self)@.readable(region@) ==> out@ == old(self)@.pending(region@) && final(self)@
                == old(self)@.with_read(old(self)@.write),
            !old(self)@.readable(region@) ==> out@.len() == 0 && final(self)@ == old(self)@,
    {
        proof {
            use_type_invariant(&*self);
        }
        let mut out: Vec<T> = Vec::new();
        if self.write >= self.capacity || self.read >= self.capacity {
            return out;
        }
        let ghost all = self@.pending(region@);
        proof {
            lemma_pending_len(
                region@,
                self@.base,
                self@.capacity,
                self@.read,
                self@.write,
            );
        }
        loop
            invariant
                self@.wf(),
                self@.in_range(),
                self@.capacity == old(self)@.capacity,
                self@.base == old(self)@.base,
                self@.write == old(self)@.write,
                old(self)@.in_range(),
                old(self)@.within(region@) ==> out@ + self@.pending(region@) == all,
                !old(self)@.within(region@) ==> out@.len() == 0 && self@ == old(self)@,
                all == old(self)@.pending(region@),
            ensures
                old(self)@.within(region@) ==> self@.read == self@.write && out@ == all,
                !old(self)@.within(region@) ==> out@.len() == 0 && self@ == old(self)@,
                self@.capacity == old(self)@.capacity,
                self@.base == old(self)@.base,
                self@.write == old(self)@.write,
                self@.wf(),
            decreases self@.pending(region@).len(),
        {
            let ghost before = self@.pending(region@);
            match self.pop(region) {
                Some(elem) => {
                    let ghost prev = out@;
                    out.push(elem);
                    proof {
                        assert(out@ + self@.pending(region@) =~= prev + before);
                    }
                },
                None => {
                    proof {
                        if old(self)@.within(region@) {
                            assert(self@.pending(region@) =~= Seq::<T>::empty());
                            assert(out@ + self@.pending(region@) =~= out@);
                        }
                    }
                    break ;
                },
            }
        }
        out
    }
}

} // verus!
