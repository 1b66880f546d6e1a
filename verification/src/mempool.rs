//! The buffer pool: a named allocator with a fixed number of packet buffers.

use vstd::prelude::*;
use vstd::slice::slice_to_vec;
use vstd::string::StringSliceAdditionalSpecFns;
use crate::error::MemoryError;
use crate::mbuf::{Mbuf, MbufView};

verus! {

/// Longest name of a pool, ring or memory zone, in bytes.
pub const NAME_MAX: usize = 32;

/// Buffer length that a pool gives its buffers unless told otherwise.
pub const DEFAULT_BUF_LEN: u16 = 2176;

/// Headroom that a pool gives its buffers unless told otherwise.
pub const DEFAULT_HEADROOM: u16 = 128;

/// Whether `name` may name a pool, a ring or a zone: at most 32 bytes, each
/// of them printable ASCII.
pub open spec fn valid_name(name: Seq<u8>) -> bool {
    &&& name.len() <= NAME_MAX
    &&& forall|i: int| 0 <= i < name.len() ==> 0x20 <= #[trigger] name[i] <= 0x7e
}

/// Decides [`valid_name`].
pub fn is_valid_name(name: &[u8]) -> (ok: bool)
    ensures
        ok == valid_name(name@),
{
    if name.len() > NAME_MAX {
        return false;
    }
    let mut i: usize = 0;
    while i < name.len()
        invariant
            i <= name@.len(),
            forall|j: int| 0 <= j < i ==> 0x20 <= #[trigger] name@[j] <= 0x7e,
        decreases name@.len() - i,
    {
        if name[i] < 0x20 || name[i] > 0x7e {
            return false;
        }
        i = i + 1;
    }
    true
}

/// What a pool is, as far as contracts are concerned.
pub struct PoolView {
    /// The id that the pool stamps on its buffers.
    pub id: u32,
    /// The number of buffers that the pool was made with.
    pub capacity: nat,
    /// The number of buffers that can be handed out now.
    pub free: nat,
    /// The total length of each buffer.
    pub buf_len: nat,
    /// The headroom of a freshly allocated buffer.
    pub headroom: nat,
}

impl PoolView {
    /// The number of buffers that are handed out: held by a component or
    /// sitting in a ring.
    pub open spec fn in_use(self) -> nat {
        (self.capacity - self.free) as nat
    }

    /// A pool never has more free buffers than it was made with.
    pub open spec fn wf(self) -> bool {
        &&& self.free <= self.capacity
        &&& self.headroom <= self.buf_len <= u16::MAX
    }

    /// The pool after one buffer was taken.
    pub open spec fn after_alloc(self) -> PoolView {
        PoolView { free: (self.free - 1) as nat, ..self }
    }

    /// The pool after `n` buffers were returned.
    pub open spec fn after_free(self, n: nat) -> PoolView {
        PoolView { free: self.free + n, ..self }
    }

    /// The buffer that the pool hands out: no data, default headroom.
    pub open spec fn fresh(self) -> MbufView {
        MbufView { pool: self.id, headroom: self.headroom, buf_len: self.buf_len, data: Seq::empty() }
    }

    /// What a bulk release of `bufs` answers: every buffer must be the
    /// pool's own, and the pool must have that many handed out.
    pub open spec fn bulk_outcome(self, bufs: Seq<MbufView>) -> Result<(), MemoryError> {
        if exists|i: int| 0 <= i < bufs.len() && (#[trigger] bufs[i]).pool != self.id {
            Err(MemoryError::Invalid)
        } else if bufs.len() > self.in_use() {
            Err(MemoryError::NoSpace)
        } else {
            Ok(())
        }
    }

    /// Whether the pool takes `buf` back: it is one of its own, and the pool
    /// has buffers handed out.
    pub open spec fn takes(self, buf: MbufView) -> bool {
        buf.pool == self.id && self.free < self.capacity
    }
}

/// How many of `bufs` carry the pool id `id`.
pub open spec fn count_owned(bufs: Seq<MbufView>, id: u32) -> nat
    decreases bufs.len(),
{
    if bufs.len() == 0 {
        0
    } else {
        count_owned(bufs.drop_last(), id) + if bufs.last().pool == id { 1nat } else { 0nat }
    }
}

/// The views of a vector of buffers.
pub open spec fn views(bufs: Seq<Mbuf>) -> Seq<MbufView> {
    bufs.map_values(|b: Mbuf| b@)
}

/// A named, fixed-capacity allocator of packet buffers.
pub struct Mempool {
    id: u32,
    name: Vec<u8>,
    capacity: usize,
    free: usize,
    buf_len: u16,
    headroom: u16,
}

impl View for Mempool {
    type V = PoolView;

    closed spec fn view(&self) -> PoolView {
        PoolView {
            id: self.id,
            capacity: self.capacity as nat,
            free: self.free as nat,
            buf_len: self.buf_len as nat,
            headroom: self.headroom as nat,
        }
    }
}

impl Mempool {
    #[verifier::type_invariant]
    spec fn inv(self) -> bool {
        &&& self.free <= self.capacity
        &&& self.headroom <= self.buf_len
        &&& valid_name(self.name@)
    }

    /// The pool's name, as bytes.
    pub closed spec fn spec_name(&self) -> Seq<u8> {
        self.name@
    }

    /// Makes a pool of `capacity` buffers, each `buf_len` bytes long with
    /// `headroom` bytes before the data. Fails with `Invalid` when the name
    /// is not a valid one, when the capacity is zero, or when the headroom
    /// does not fit the buffer.
    pub fn new(id: u32, name: &str, capacity: usize, buf_len: u16, headroom: u16) -> (r: Result<
        Self,
        MemoryError,
    >)
        ensures
            r is Ok <==> valid_name(name.spec_bytes()) && capacity > 0 && headroom <= buf_len,
            r matches Err(e) ==> e == MemoryError::Invalid,
            r matches Ok(p) ==> p@ == (PoolView {
                id,
                capacity: capacity as nat,
                free: capacity as nat,
                buf_len: buf_len as nat,
                headroom: headroom as nat,
            }) && p.spec_name() == name.spec_bytes() && p@.wf(),
    {
        let bytes = name.as_bytes();
        if !is_valid_name(bytes) || capacity == 0 || headroom > buf_len {
            return Err(MemoryError::Invalid);
        }
        let name = slice_to_vec(bytes);
        Ok(Mempool { id, name, capacity, free: capacity, buf_len, headroom })
    }

    /// The id that the pool stamps on its buffers.
    pub fn id(&self) -> (id: u32)
        ensures
            id == self@.id,
    {
        self.id
    }

    /// The pool's name, as bytes.
    pub fn name(&self) -> (name: &Vec<u8>)
        ensures
            name@ == self.spec_name(),
            valid_name(name@),
    {
        proof {
            use_type_invariant(self);
        }
        &self.name
    }

    /// The number of buffers that the pool was made with.
    pub fn capacity(&self) -> (n: usize)
        ensures
            n == self@.capacity,
            self@.wf(),
    {
        proof {
            use_type_invariant(self);
        }
        self.capacity
    }

    /// The number of buffers that can be handed out now.
    pub fn free_count(&self) -> (n: usize)
        ensures
            n == self@.free,
            self@.wf(),
    {
        proof {
            use_type_invariant(self);
        }
        self.free
    }

    /// The number of buffers that are handed out. Together with the free
    /// ones they always make up the capacity.
    pub fn in_use(&self) -> (n: usize)
        ensures
            n == self@.in_use(),
            n + self@.free == self@.capacity,
            self@.wf(),
    {
        proof {
            use_type_invariant(self);
        }
        self.capacity - self.free
    }

    /// Takes one buffer from the pool: it has no data, and the pool's
    /// headroom. Fails with `NoBuf`, and changes nothing, when the pool is
    /// exhausted.
    pub fn alloc_buf(&mut self) -> (r: Result<Mbuf, MemoryError>)
        ensures
            old(self)@.wf(),
            final(self)@.wf(),
            final(self).spec_name() == old(self).spec_name(),
            match r {
                Ok(b) => old(self)@.free > 0 && final(self)@ == old(self)@.after_alloc() && b@
                    == old(self)@.fresh() && b@.wf(),
                Err(e) => e == MemoryError::NoBuf && old(self)@.free == 0 && final(self)@ == old(self)@,
            },
    {
        proof {
            use_type_invariant(&*self);
        }
        if self.free == 0 {
            return Err(MemoryError::NoBuf);
        }
        self.free = self.free - 1;
        let storage: Vec<u8> = vec![0u8; self.buf_len as usize];
        Ok(Mbuf::with_storage(storage, self.headroom, self.id))
    }

    /// Returns a buffer to the pool. Fails with `Invalid` when the buffer
    /// belongs to another pool and with `NoSpace` when no buffer of this pool
    /// is handed out; the pool is then unchanged.
    pub fn free(&mut self, buf: Mbuf) -> (r: Result<(), MemoryError>)
        ensures
            old(self)@.wf(),
            final(self)@.wf(),
            final(self).spec_name() == old(self).spec_name(),
            r is Ok <==> old(self)@.takes(buf@),
            r is Ok ==> final(self)@ == old(self)@.after_free(1),
            r is Err ==> final(self)@ == old(self)@,
            r matches Err(e) ==> e == (if buf@.pool != old(self)@.id {
                MemoryError::Invalid
            } else {
                MemoryError::NoSpace
            }),
    {
        proof {
            use_type_invariant(&*self);
        }
        if buf.pool_id() != self.id {
            return Err(MemoryError::Invalid);
        }
        if self.free == self.capacity {
            return Err(MemoryError::NoSpace);
        }
        self.free = self.free + 1;
        Ok(())
    }

    /// Takes `n` buffers from the pool, or none: fails with `NoBuf`, and
    /// changes nothing, unless `n` buffers are free.
    pub fn alloc_bulk(&mut self, n: usize) -> (r: Result<Vec<Mbuf>, MemoryError>)
        ensures
            old(self)@.wf(),
            final(self)@.wf(),
            final(self).spec_name() == old(self).spec_name(),
            r is Ok <==> n <= old(self)@.free,
            r matches Err(e) ==> e == MemoryError::NoBuf && final(self)@ == old(self)@,
            r matches Ok(bufs) ==> {
                &&& bufs@.len() == n
                &&& final(self)@ == (PoolView { free: (old(self)@.free - n) as nat, ..old(self)@ })
                &&& forall|i: int| 0 <= i < n ==> (#[trigger] bufs@[i])@ == old(self)@.fresh()
            },
    {
        proof {
            use_type_invariant(&*self);
        }
        if n > self.free {
            return Err(MemoryError::NoBuf);
        }
        let mut bufs: Vec<Mbuf> = Vec::new();
        let mut i: usize = 0;
        while i < n
            invariant
                i <= n,
                bufs@.len() == i,
                self@ == (PoolView { free: (old(self)@.free - i) as nat, ..old(self)@ }),
                self.spec_name() == old(self).spec_name(),
                n <= old(self)@.free,
                forall|j: int| 0 <= j < i ==> (#[trigger] bufs@[j])@ == old(self)@.fresh(),
            decreases n - i,
        {
            match self.alloc_buf() {
                Ok(b) => {
                    bufs.push(b);
                },
                Err(_) => {
                    proof {
                        assert(false);
                    }
                },
            }
            i = i + 1;
        }
        Ok(bufs)
    }

    /// Returns buffers to the pool in one bulk release: all of them or none.
    /// A bulk release must hold buffers of this pool only, and no more than
    /// the pool has handed out. Otherwise the buffers come back with the
    /// error, `Invalid` for a buffer of another pool and `NoSpace` for too
    /// many, so that the caller can split them and try again; the pool is
    /// then unchanged.
    pub fn free_bulk(&mut self, bufs: Vec<Mbuf>) -> (r: Result<usize, (MemoryError, Vec<Mbuf>)>)
        ensures
            old(self)@.wf(),
            final(self)@.wf(),
            final(self).spec_name() == old(self).spec_name(),
            match r {
                Ok(n) => {
                    &&& old(self)@.bulk_outcome(views(bufs@)) is Ok
                    &&& n == bufs@.len()
                    &&& final(self)@ == old(self)@.after_free(bufs@.len())
                },
                Err((e, back)) => {
                    &&& old(self)@.bulk_outcome(views(bufs@)) == Err::<(), MemoryError>(e)
                    &&& back@ == bufs@
                    &&& final(self)@ == old(self)@
                },
            },
    {
        proof {
            use_type_invariant(&*self);
        }
        let mut i: usize = 0;
        while i < bufs.len()
            invariant
                i <= bufs@.len(),
                self@.wf(),
                forall|j: int| 0 <= j < i ==> (#[trigger] views(bufs@)[j]).pool == self.id,
            decreases bufs@.len() - i,
        {
            if bufs[i].pool_id() != self.id {
                assert(views(bufs@)[i as int].pool != self.id);
                return Err((MemoryError::Invalid, bufs));
            }
            assert(views(bufs@)[i as int] == bufs@[i as int]@);
            i = i + 1;
        }
        let n = bufs.len();
        if n > self.capacity - self.free {
            return Err((MemoryError::NoSpace, bufs));
        }
        self.free = self.free + n;
        Ok(n)
    }

    /// Returns buffers to the pool one by one, in order, and says how many it
    /// took: those that are its own, as long as the pool has buffers handed
    /// out. The others are lost.
    pub fn free_each(&mut self, bufs: Vec<Mbuf>) -> (n: usize)
        ensures
            old(self)@.wf(),
            final(self)@.wf(),
            final(self).spec_name() == old(self).spec_name(),
            n == vstd::math::min(
                count_owned(views(bufs@), old(self)@.id) as int,
                old(self)@.in_use() as int,
            ),
            final(self)@ == old(self)@.after_free(n as nat),
    {
        proof {
            use_type_invariant(&*self);
        }
        let mut bufs = bufs;
        let ghost all = views(bufs@);
        let mut n: usize = 0;
        while bufs.len() > 0
            invariant
                old(self)@.wf(),
                views(bufs@) == all.subrange(0, bufs@.len() as int),
                bufs@.len() <= all.len(),
                self@ == old(self)@.after_free(n as nat),
                self.spec_name() == old(self).spec_name(),
                n == vstd::math::min(
                    (count_owned(all, old(self)@.id) - count_owned(
                        views(bufs@),
                        old(self)@.id,
                    )) as int,
                    old(self)@.in_use() as int,
                ),
            decreases bufs@.len(),
        {
            let ghost before = views(bufs@);
            let b = bufs.pop().unwrap();
            proof {
                assert(views(bufs@) =~= before.drop_last());
                assert(b@ == before.last());
                assert(views(bufs@) =~= all.subrange(0, bufs@.len() as int));
                lemma_count_owned_bounds(views(bufs@), old(self)@.id);
                lemma_count_owned_prefix(all, bufs@.len() as int + 1, old(self)@.id);
                lemma_count_owned_prefix(all, bufs@.len() as int, old(self)@.id);
            }
            match self.free(b) {
                Ok(()) => {
                    n = n + 1;
                },
                Err(_) => {},
            }
        }
        proof {
            assert(views(bufs@) =~= Seq::empty());
        }
        n
    }
}

/// A count of owned buffers is at most the number of buffers.
pub proof fn lemma_count_owned_bounds(bufs: Seq<MbufView>, id: u32)
    ensures
        count_owned(bufs, id) <= bufs.len(),
    decreases bufs.len(),
{
    if bufs.len() > 0 {
        lemma_count_owned_bounds(bufs.drop_last(), id);
    }
}

/// A prefix holds no more owned buffers than the whole.
pub proof fn lemma_count_owned_prefix(bufs: Seq<MbufView>, k: int, id: u32)
    requires
        0 <= k <= bufs.len(),
    ensures
        count_owned(bufs.subrange(0, k), id) <= count_owned(bufs, id),
    decreases bufs.len() - k,
{
    if k < bufs.len() {
        lemma_count_owned_prefix(bufs, k + 1, id);
        assert(bufs.subrange(0, k + 1).drop_last() =~= bufs.subrange(0, k));
    } else {
        assert(bufs.subrange(0, k) =~= bufs);
    }
}

/// The pool's accounts always balance: what is handed out and what is free
/// make up the capacity, before and after a buffer is taken or returned.
pub proof fn lemma_pool_balance(pool: PoolView, returned: nat)
    requires
        pool.wf(),
        returned <= pool.in_use(),
    ensures
        pool.in_use() + pool.free == pool.capacity,
        pool.free > 0 ==> pool.after_alloc().in_use() + pool.after_alloc().free == pool.capacity
            && pool.after_alloc().in_use() == pool.in_use() + 1,
        pool.after_free(returned).in_use() + pool.after_free(returned).free == pool.capacity,
        pool.after_free(returned).in_use() == pool.in_use() - returned,
{
}

/// A run of buffers of one pool: the pool's id and the number of buffers.
pub struct Run {
    /// The id of the owning pool.
    pub pool: u32,
    /// The number of buffers in the run.
    pub len: nat,
}

/// The runs of a sequence of buffers: each stretch of neighbours with the
/// same owning pool, in order.
pub open spec fn runs_of(bufs: Seq<MbufView>) -> Seq<Run>
    decreases bufs.len(),
{
    if bufs.len() == 0 {
        Seq::empty()
    } else {
        let before = runs_of(bufs.drop_last());
        if before.len() > 0 && before.last().pool == bufs.last().pool {
            before.drop_last().push(Run { pool: bufs.last().pool, len: before.last().len + 1 })
        } else {
            before.push(Run { pool: bufs.last().pool, len: 1 })
        }
    }
}

/// The position of the first pool, from `from` on, with the id `id`.
pub open spec fn pool_from(pools: Seq<PoolView>, id: u32, from: int) -> Option<int>
    decreases pools.len() - from,
{
    if from < 0 || from >= pools.len() {
        None
    } else if pools[from].id == id {
        Some(from)
    } else {
        pool_from(pools, id, from + 1)
    }
}

/// The pools after one bulk release of a run: the first pool with the run's
/// id takes the run back, unless the run has more buffers than the pool has
/// handed out. A run that is not taken back, and a run whose pool is not
/// among the pools, is lost.
pub open spec fn release_run(pools: Seq<PoolView>, run: Run) -> Seq<PoolView> {
    match pool_from(pools, run.pool, 0) {
        Some(i) if run.len <= pools[i].in_use() => pools.update(i, pools[i].after_free(run.len)),
        _ => pools,
    }
}

/// The pools after one bulk release for each run, in order.
pub open spec fn release_runs(pools: Seq<PoolView>, runs: Seq<Run>) -> Seq<PoolView>
    decreases runs.len(),
{
    if runs.len() == 0 {
        pools
    } else {
        release_run(release_runs(pools, runs.drop_last()), runs.last())
    }
}

/// A position found is that of the first pool with the id asked for; when
/// none is found, no pool from `from` on has the id.
pub proof fn lemma_pool_from(pools: Seq<PoolView>, id: u32, from: int)
    requires
        0 <= from,
    ensures
        match pool_from(pools, id, from) {
            Some(i) => from <= i < pools.len() && pools[i].id == id,
            None => forall|k: int| from <= k < pools.len() ==> (#[trigger] pools[k]).id != id,
        },
    decreases pools.len() - from,
{
    if from < pools.len() && pools[from].id != id {
        lemma_pool_from(pools, id, from + 1);
    }
}

/// The last run of a sequence of buffers: it ends with the last buffer, all
/// its buffers are of one pool, and what comes before it has the other runs.
pub proof fn lemma_last_run(bufs: Seq<MbufView>)
    requires
        bufs.len() > 0,
    ensures
        ({
            let rs = runs_of(bufs);
            let l = rs.last().len as int;
            let head = bufs.subrange(0, bufs.len() - l);
            &&& rs.len() >= 1
            &&& 1 <= l <= bufs.len()
            &&& rs.last().pool == bufs.last().pool
            &&& runs_of(head) == rs.drop_last()
            &&& forall|id: u32| #[trigger]
                count_owned(bufs, id) == count_owned(head, id) + (if id == rs.last().pool {
                    l
                } else {
                    0
                })
        }),
    decreases bufs.len(),
{
    let d = bufs.drop_last();
    let rs = runs_of(bufs);
    if d.len() == 0 {
        assert(runs_of(d) =~= Seq::<Run>::empty());
        assert(rs =~= seq![Run { pool: bufs.last().pool, len: 1 }]);
        assert(rs.drop_last() =~= Seq::<Run>::empty());
        assert(bufs.subrange(0, 0) =~= d);
    } else {
        lemma_last_run(d);
        let before = runs_of(d);
        let lb = before.last().len as int;
        if before.last().pool == bufs.last().pool {
            assert(rs.drop_last() =~= before.drop_last());
            assert(bufs.subrange(0, bufs.len() - (lb + 1)) =~= d.subrange(0, d.len() - lb));
            assert forall|id: u32| #[trigger]
                count_owned(bufs, id) == count_owned(
                    bufs.subrange(0, bufs.len() - (lb + 1)),
                    id,
                ) + (if id == rs.last().pool {
                    lb + 1
                } else {
                    0
                }) by {
                assert(count_owned(d, id) == count_owned(d.subrange(0, d.len() - lb), id) + (
                if id == before.last().pool {
                    lb
                } else {
                    0
                }));
            }
        } else {
            assert(rs.drop_last() =~= before);
            assert(bufs.subrange(0, bufs.len() - 1) =~= d);
        }
    }
}

/// The pools with each pool's own buffers among `bufs` returned to it.
pub open spec fn credited(pools: Seq<PoolView>, bufs: Seq<MbufView>) -> Seq<PoolView> {
    Seq::new(pools.len(), |j: int| pools[j].after_free(count_owned(bufs, pools[j].id)))
}

/// Whether no two of the pools have the same id.
pub open spec fn distinct_ids(pools: Seq<PoolView>) -> bool {
    forall|i: int, j: int| 0 <= i < j < pools.len() ==> pools[i].id != pools[j].id
}

/// Whether each pool has handed out at least as many buffers as `bufs`
/// holds of it.
pub open spec fn handed_out(pools: Seq<PoolView>, bufs: Seq<MbufView>) -> bool {
    forall|j: int|
        0 <= j < pools.len() ==> (#[trigger] pools[j]).wf() && count_owned(bufs, pools[j].id)
            <= pools[j].in_use()
}

/// Returning buffers in bulk, run by run, gives every buffer back to its own
/// pool, once: when the pools have ids of their own and the buffers are
/// buffers that they have handed out, each pool ends up with as many more
/// free buffers as the sequence holds of it, whatever the order of the
/// buffers, and nothing else about the pools changes. So what a pool has
/// handed out and what it has free still make up its capacity.
pub proof fn lemma_free_bulk_credits_each_pool(pools: Seq<PoolView>, bufs: Seq<MbufView>)
    requires
        distinct_ids(pools),
        handed_out(pools, bufs),
    ensures
        release_runs(pools, runs_of(bufs)) == credited(pools, bufs),
        forall|j: int|
            0 <= j < pools.len() ==> (#[trigger] credited(pools, bufs)[j]).wf() && credited(
                pools,
                bufs,
            )[j].in_use() + credited(pools, bufs)[j].free == pools[j].capacity,
    decreases bufs.len(),
{
    if bufs.len() == 0 {
        assert(runs_of(bufs) =~= Seq::<Run>::empty());
        assert(credited(pools, bufs) =~= pools);
    } else {
        lemma_last_run(bufs);
        let rs = runs_of(bufs);
        let l = rs.last().len;
        let p = rs.last().pool;
        let head = bufs.subrange(0, bufs.len() - l);
        assert(handed_out(pools, head)) by {
            assert forall|j: int| 0 <= j < pools.len() implies (#[trigger] pools[j]).wf()
                && count_owned(head, pools[j].id) <= pools[j].in_use() by {
                assert(count_owned(bufs, pools[j].id) == count_owned(head, pools[j].id) + (
                if pools[j].id == p {
                    l as int
                } else {
                    0
                }));
            }
        }
        lemma_free_bulk_credits_each_pool(pools, head);
        let q = credited(pools, head);
        assert(release_runs(pools, rs) == release_run(release_runs(pools, rs.drop_last()), rs.last()));
        lemma_pool_from(q, p, 0);
        assert forall|j: int| 0 <= j < pools.len() implies #[trigger] release_run(q, rs.last())[j]
            == credited(pools, bufs)[j] by {
            assert(count_owned(bufs, pools[j].id) == count_owned(head, pools[j].id) + (
            if pools[j].id == p {
                l as int
            } else {
                0
            }));
            assert(q[j].id == pools[j].id);
        }
        assert(release_run(q, rs.last()) =~= credited(pools, bufs));
    }
    assert forall|j: int| 0 <= j < pools.len() implies (#[trigger] credited(pools, bufs)[j]).wf()
        && credited(pools, bufs)[j].in_use() + credited(pools, bufs)[j].free
        == pools[j].capacity by {
        assert(pools[j].wf());
    }
}

/// The views of a vector of pools.
pub open spec fn pool_views(pools: Seq<Mempool>) -> Seq<PoolView> {
    pools.map_values(|p: Mempool| p@)
}

/// Releases one run of buffers of pool `id` into the first pool with that
/// id.
fn release(pools: &mut Vec<Mempool>, group: Vec<Mbuf>, id: u32)
    requires
        forall|i: int| 0 <= i < group@.len() ==> (#[trigger] group@[i])@.pool == id,
    ensures
        pool_views(final(pools)@) == release_run(
            pool_views(old(pools)@),
            Run { pool: id, len: group@.len() },
        ),
        final(pools)@.len() == old(pools)@.len(),
{
    let mut i: usize = 0;
    while i < pools.len()
        invariant
            i <= pools@.len(),
            pools@ == old(pools)@,
            forall|j: int| 0 <= j < group@.len() ==> (#[trigger] group@[j])@.pool == id,
            pool_from(pool_views(pools@), id, 0) == pool_from(pool_views(pools@), id, i as int),
        decreases pools@.len() - i,
    {
        if pools[i].id() == id {
            proof {
                assert forall|k: int| 0 <= k < views(group@).len() implies (#[trigger] views(
                    group@,
                )[k]).pool == id by {
                    assert(views(group@)[k] == group@[k]@);
                }
            }
            let ghost before = pool_views(pools@);
            let _ = pools[i].free_bulk(group);
            proof {
                assert(pool_views(pools@) =~= release_run(
                    before,
                    Run { pool: id, len: group@.len() },
                ));
            }
            return ;
        }
        i = i + 1;
    }
}

impl Mbuf {
    /// Takes `len` buffers from the pool, or none: fails with `NoBuf` unless
    /// `len` buffers are free.
    pub fn alloc_bulk(len: usize, mp: &mut Mempool) -> (r: Result<Vec<Mbuf>, MemoryError>)
        ensures
            final(mp)@.wf(),
            final(mp).spec_name() == old(mp).spec_name(),
            r is Ok <==> len <= old(mp)@.free,
            r matches Err(e) ==> e == MemoryError::NoBuf && final(mp)@ == old(mp)@,
            r matches Ok(bufs) ==> {
                &&& bufs@.len() == len
                &&& final(mp)@ == (PoolView { free: (old(mp)@.free - len) as nat, ..old(mp)@ })
                &&& forall|i: int| 0 <= i < len ==> (#[trigger] bufs@[i])@ == old(mp)@.fresh()
            },
    {
        mp.alloc_bulk(len)
    }

    /// Returns buffers to their pools. The buffers are walked in order and
    /// grouped by owning pool: each time the owning pool changes, the group
    /// gathered so far is released in bulk to the first of `pools` with that
    /// id. Returns the number of bulk releases.
    pub fn free_bulk(mbufs: Vec<Mbuf>, pools: &mut Vec<Mempool>) -> (n: usize)
        ensures
            pool_views(final(pools)@) == release_runs(
                pool_views(old(pools)@),
                runs_of(views(mbufs@)),
            ),
            n == runs_of(views(mbufs@)).len(),
            final(pools)@.len() == old(pools)@.len(),
    {
        let mut mbufs = mbufs;
        let ghost all = views(mbufs@);
        let total = mbufs.len();
        if total == 0 {
            return 0;
        }
        let mut to_free: Vec<Mbuf> = Vec::new();
        let ghost whole = mbufs@;
        let first = mbufs.remove(0);
        let mut pool: u32 = first.pool_id();
        to_free.push(first);
        let mut n: usize = 0;
        let mut k: usize = 1;
        proof {
            assert(first@ == all[0]);
            assert(all.subrange(0, 1).last() == all[0]);
            assert(all.subrange(0, 1).drop_last() =~= Seq::<MbufView>::empty());
            assert(runs_of(all.subrange(0, 1).drop_last()) =~= Seq::<Run>::empty());
            assert(runs_of(all.subrange(0, 1)) =~= seq![Run { pool, len: 1 }]);
            assert(Seq::<Run>::empty().push(Run { pool, len: 1 }) =~= seq![Run { pool, len: 1 }]);
            assert(views(mbufs@) =~= all.subrange(1, total as int)) by {
                assert forall|i: int| 0 <= i < mbufs@.len() implies views(mbufs@)[i] == all[i
                    + 1] by {
                    assert(mbufs@[i] == whole[i + 1]);
                }
            }
        }
        let ghost mut done: Seq<Run> = Seq::empty();
        while k < total
            invariant
                1 <= k <= total,
                total == all.len(),
                n == done.len(),
                n < k,
                to_free@.len() >= 1,
                to_free@.len() <= k,
                views(mbufs@) == all.subrange(k as int, total as int),
                mbufs@.len() == total - k,
                forall|i: int| 0 <= i < to_free@.len() ==> (#[trigger] to_free@[i])@.pool == pool,
                runs_of(all.subrange(0, k as int)) == done.push(
                    Run { pool, len: to_free@.len() },
                ),
                pool_views(pools@) == release_runs(pool_views(old(pools)@), done),
                pools@.len() == old(pools)@.len(),
            decreases total - k,
        {
            let ghost rest = views(mbufs@);
            let ghost prev = mbufs@;
            let mbuf = mbufs.remove(0);
            proof {
                assert(mbuf@ == rest[0]);
                assert(mbuf@ == all[k as int]);
                assert forall|i: int| 0 <= i < mbufs@.len() implies views(mbufs@)[i] == rest[i
                    + 1] by {
                    assert(mbufs@[i] == prev[i + 1]);
                }
                assert(views(mbufs@) =~= all.subrange(k + 1, total as int));
                assert(all.subrange(0, k + 1).drop_last() =~= all.subrange(0, k as int));
                assert(all.subrange(0, k + 1).last() == all[k as int]);
                let before = done.push(Run { pool, len: to_free@.len() });
                assert(before.drop_last() =~= done);
            }
            if mbuf.pool_id() == pool {
                to_free.push(mbuf);
            } else {
                let ghost run = Run { pool, len: to_free@.len() };
                let mut group: Vec<Mbuf> = Vec::new();
                group.push(mbuf);
                let next_pool = group[0].pool_id();
                std::mem::swap(&mut group, &mut to_free);
                release(pools, group, pool);
                proof {
                    assert(done.push(run).drop_last() =~= done);
                    done = done.push(run);
                }
                pool = next_pool;
                n = n + 1;
            }
            k = k + 1;
        }
        proof {
            assert(all.subrange(0, total as int) =~= all);
            let run = Run { pool, len: to_free@.len() };
            assert(done.push(run).drop_last() =~= done);
        }
        release(pools, to_free, pool);
        n + 1
    }

    /// Returns buffers to their pools, as [`Mbuf::free_bulk`] does.
    pub fn mbuf_free_bulk(mbufs: Vec<Mbuf>, pools: &mut Vec<Mempool>) -> (n: usize)
        ensures
            pool_views(final(pools)@) == release_runs(
                pool_views(old(pools)@),
                runs_of(views(mbufs@)),
            ),
            n == runs_of(views(mbufs@)).len(),
            final(pools)@.len() == old(pools)@.len(),
    {
        Self::free_bulk(mbufs, pools)
    }
}

} // verus!
