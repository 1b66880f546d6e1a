//! The packet buffer: a fixed block of bytes with headroom before the data
//! and tailroom after it, and the edits that grow, shrink, read and write
//! the data.

use vstd::prelude::*;
use vstd::slice::slice_subrange;
use crate::error::{BufError, MbufError, MemoryError};
use crate::mempool::{Mempool, PoolView};

verus! {

/// The size of a type in bytes, as bound checks on reads count it.
pub trait SizeOf {
    /// The size of the type in bytes.
    spec fn spec_size_of() -> nat;

    /// Returns the size of the type in bytes.
    fn size_of() -> (n: usize)
        ensures
            n == Self::spec_size_of(),
    ;
}

impl SizeOf for () {
    open spec fn spec_size_of() -> nat {
        0
    }

    fn size_of() -> (n: usize) {
        0
    }
}

impl SizeOf for u8 {
    open spec fn spec_size_of() -> nat {
        1
    }

    fn size_of() -> (n: usize) {
        1
    }
}

impl SizeOf for [u8; 2] {
    open spec fn spec_size_of() -> nat {
        2
    }

    fn size_of() -> (n: usize) {
        2
    }
}

impl SizeOf for [u8; 16] {
    open spec fn spec_size_of() -> nat {
        16
    }

    fn size_of() -> (n: usize) {
        16
    }
}

/// What a buffer is, as far as contracts are concerned.
pub struct MbufView {
    /// The id of the pool that owns the buffer.
    pub pool: u32,
    /// The number of bytes before the data.
    pub headroom: nat,
    /// The total length of the buffer.
    pub buf_len: nat,
    /// The data.
    pub data: Seq<u8>,
}

/// A size as a machine number: the largest one for a size beyond it.
pub open spec fn clip(n: nat) -> usize {
    if n <= usize::MAX {
        n as usize
    } else {
        usize::MAX
    }
}

/// `n` zero bytes.
pub open spec fn zeros(n: nat) -> Seq<u8> {
    Seq::new(n, |i: int| 0u8)
}

impl MbufView {
    /// The data never runs past the end of the buffer, and its length fits
    /// in sixteen bits.
    pub open spec fn wf(self) -> bool {
        self.headroom + self.data.len() <= self.buf_len <= u16::MAX
    }

    /// The number of bytes after the data.
    pub open spec fn tailroom(self) -> nat {
        (self.buf_len - self.headroom - self.data.len()) as nat
    }

    /// The packet length: that of the data, since a packet is one segment.
    pub open spec fn pkt_len(self) -> nat {
        self.data.len()
    }

    /// The same buffer with other data.
    pub open spec fn with_data(self, data: Seq<u8>) -> MbufView {
        MbufView { data, ..self }
    }

    /// What `extend(offset, len)` answers. An offset beyond the data is
    /// reported whatever the length is; then a length of zero; then a length
    /// beyond the tailroom.
    pub open spec fn extend_outcome(self, offset: usize, len: usize) -> Result<(), BufError> {
        if offset > self.data.len() {
            Err(BufError::BadOffset(offset, self.data.len() as usize))
        } else if len == 0 {
            Err(BufError::NotResized)
        } else if len > self.tailroom() {
            Err(BufError::OutOfBuffer(len, self.tailroom() as usize))
        } else {
            Ok(())
        }
    }

    /// The data after `extend(offset, len)` went through: `len` zero bytes
    /// stand at `offset`, and what was there has moved down.
    pub open spec fn extended(self, offset: usize, len: usize) -> Seq<u8> {
        self.data.subrange(0, offset as int) + zeros(len as nat) + self.data.subrange(
            offset as int,
            self.data.len() as int,
        )
    }

    /// What `shrink(offset, len)` answers.
    pub open spec fn shrink_outcome(self, offset: usize, len: usize) -> Result<(), BufError> {
        if offset > self.data.len() {
            Err(BufError::BadOffset(offset, self.data.len() as usize))
        } else if len == 0 {
            Err(BufError::NotResized)
        } else if len > self.data.len() - offset {
            Err(BufError::OutOfBuffer(len, (self.data.len() - offset) as usize))
        } else {
            Ok(())
        }
    }

    /// The data after `shrink(offset, len)` went through: the `len` bytes at
    /// `offset` are gone, and what followed has moved up.
    pub open spec fn shrunk(self, offset: usize, len: usize) -> Seq<u8> {
        self.data.subrange(0, offset as int) + self.data.subrange(
            offset + len,
            self.data.len() as int,
        )
    }

    /// What a read of `size` bytes at `offset` answers. A size that no
    /// machine number holds is reported as the largest machine number.
    pub open spec fn read_outcome(self, offset: usize, size: nat) -> Result<Seq<u8>, BufError> {
        if offset >= self.data.len() {
            Err(BufError::BadOffset(offset, self.data.len() as usize))
        } else if offset + size > self.data.len() {
            Err(BufError::OutOfBuffer(clip(size), (self.data.len() - offset) as usize))
        } else {
            Ok(self.data.subrange(offset as int, offset + size))
        }
    }

    /// Whether `write_data_slice(offset, bytes)` copies the bytes in: the
    /// range must lie within the data.
    pub open spec fn write_fits(self, offset: usize, n: nat) -> bool {
        offset <= self.data.len() && n <= self.data.len() - offset
    }

    /// The data after `bytes` were copied in at `offset`.
    pub open spec fn written(self, offset: usize, bytes: Seq<u8>) -> Seq<u8> {
        self.data.subrange(0, offset as int) + bytes + self.data.subrange(
            offset + bytes.len(),
            self.data.len() as int,
        )
    }

    /// The number of bytes of data from `offset` on: none for an offset
    /// beyond the data.
    pub open spec fn room_at(self, offset: usize) -> usize {
        if offset <= self.data.len() {
            (self.data.len() - offset) as usize
        } else {
            0
        }
    }

    /// What `write_data_slice(offset, bytes)` answers: the bytes as they
    /// read back, or `OutOfBuffer` with the length of the bytes and the room
    /// there is for them, when the range is not part of the data.
    pub open spec fn write_outcome(self, offset: usize, bytes: Seq<u8>) -> Result<
        Seq<u8>,
        BufError,
    > {
        if !self.write_fits(offset, bytes.len()) {
            Err(BufError::OutOfBuffer(bytes.len() as usize, self.room_at(offset)))
        } else {
            self.with_data(self.written(offset, bytes)).read_outcome(offset, bytes.len())
        }
    }
}

/// What is written into the data reads back: when the range lies within the
/// data and holds at least one byte, writing `bytes` at `offset` answers
/// with the bytes, and so does reading as many bytes at `offset` afterwards.
pub proof fn lemma_write_read_round_trip(v: MbufView, offset: usize, bytes: Seq<u8>)
    requires
        v.wf(),
        v.write_fits(offset, bytes.len()),
        bytes.len() > 0,
    ensures
        v.write_outcome(offset, bytes) == Ok::<Seq<u8>, BufError>(bytes),
        v.with_data(v.written(offset, bytes)).read_outcome(offset, bytes.len()) == Ok::<
            Seq<u8>,
            BufError,
        >(bytes),
        v.with_data(v.written(offset, bytes)).wf(),
        v.written(offset, bytes).len() == v.data.len(),
{
    let w = v.written(offset, bytes);
    assert(w.len() == v.data.len());
    assert(w.subrange(offset as int, offset + bytes.len()) =~= bytes);
}

/// Every edit keeps the data within the buffer: after an extension, a
/// shrinking or a truncation that went through, headroom and data length
/// together do not exceed the buffer's length, and the headroom is what it
/// was.
pub proof fn lemma_edits_stay_within(v: MbufView, offset: usize, len: usize)
    requires
        v.wf(),
    ensures
        v.extend_outcome(offset, len) is Ok ==> v.with_data(v.extended(offset, len)).wf()
            && v.extended(offset, len).len() == v.data.len() + len,
        v.shrink_outcome(offset, len) is Ok ==> v.with_data(v.shrunk(offset, len)).wf()
            && v.shrunk(offset, len).len() == v.data.len() - len,
        len < v.data.len() ==> v.with_data(v.data.subrange(0, len as int)).wf(),
        v.extend_outcome(offset, len) is Ok && v.with_data(
            v.extended(offset, len),
        ).shrink_outcome(offset, len) is Ok ==> v.with_data(v.extended(offset, len)).shrunk(
            offset,
            len,
        ) == v.data,
{
    if v.extend_outcome(offset, len) is Ok {
        let e = v.with_data(v.extended(offset, len));
        assert(e.shrunk(offset, len) =~= v.data);
    }
}

/// A packet buffer. Whoever holds the value holds the buffer: it is moved
/// into a ring and out of it, never copied.
#[derive(Debug)]
pub struct Mbuf {
    buf: Vec<u8>,
    data_off: u16,
    data_len: u16,
    pool: u32,
}

impl View for Mbuf {
    type V = MbufView;

    closed spec fn view(&self) -> MbufView {
        MbufView {
            pool: self.pool,
            headroom: self.data_off as nat,
            buf_len: self.buf@.len(),
            data: self.buf@.subrange(self.data_off as int, self.data_off + self.data_len),
        }
    }
}

/// Moves the bytes at `[from, end)` of `buf` down by `n` and clears the gap.
fn open_gap(buf: &mut Vec<u8>, from: usize, end: usize, n: usize)
    requires
        from <= end,
        end + n <= old(buf)@.len(),
    ensures
        final(buf)@.len() == old(buf)@.len(),
        forall|i: int| 0 <= i < from ==> final(buf)@[i] == old(buf)@[i],
        forall|i: int| from <= i < from + n ==> final(buf)@[i] == 0u8,
        forall|i: int| from + n <= i < end + n ==> final(buf)@[i] == old(buf)@[i - n],
        forall|i: int| end + n <= i < old(buf)@.len() ==> final(buf)@[i] == old(buf)@[i],
    no_unwind
{
    let total: usize = buf.len();
    let mut k: usize = end;
    while k > from
        invariant
            total == old(buf)@.len(),
            from <= k <= end,
            end + n <= old(buf)@.len(),
            buf@.len() == old(buf)@.len(),
            forall|i: int| 0 <= i < k ==> buf@[i] == old(buf)@[i],
            forall|i: int| k <= i < k + n && i < end ==> buf@[i] == old(buf)@[i],
            forall|i: int| k + n <= i < end + n ==> buf@[i] == old(buf)@[i - n],
            forall|i: int| end + n <= i < old(buf)@.len() ==> buf@[i] == old(buf)@[i],
        decreases k - from,
    {
        k = k - 1;
        let b = buf[k];
        buf[k + n] = b;
    }
    let mut j: usize = from;
    while j < from + n
        invariant
            total == old(buf)@.len(),
            from <= j <= from + n,
            end + n <= old(buf)@.len(),
            from <= end,
            buf@.len() == old(buf)@.len(),
            forall|i: int| 0 <= i < from ==> buf@[i] == old(buf)@[i],
            forall|i: int| from <= i < j ==> buf@[i] == 0u8,
            forall|i: int| from + n <= i < end + n ==> buf@[i] == old(buf)@[i - n],
            forall|i: int| end + n <= i < old(buf)@.len() ==> buf@[i] == old(buf)@[i],
        decreases from + n - j,
    {
        buf[j] = 0u8;
        j = j + 1;
    }
}

/// Moves the bytes at `[from + n, end)` of `buf` up by `n`.
fn close_gap(buf: &mut Vec<u8>, from: usize, end: usize, n: usize)
    requires
        from + n <= end,
        end <= old(buf)@.len(),
    ensures
        final(buf)@.len() == old(buf)@.len(),
        forall|i: int| 0 <= i < from ==> final(buf)@[i] == old(buf)@[i],
        forall|i: int| from <= i < end - n ==> final(buf)@[i] == old(buf)@[i + n],
    no_unwind
{
    let total: usize = buf.len();
    let mut k: usize = from;
    while k + n < end
        invariant
            total == old(buf)@.len(),
            from <= k,
            k + n <= end,
            end <= old(buf)@.len(),
            buf@.len() == old(buf)@.len(),
            forall|i: int| 0 <= i < from ==> buf@[i] == old(buf)@[i],
            forall|i: int| from <= i < k ==> buf@[i] == old(buf)@[i + n],
            forall|i: int| k + n <= i < old(buf)@.len() ==> buf@[i] == old(buf)@[i],
        decreases end - n - k,
    {
        let b = buf[k + n];
        buf[k] = b;
        k = k + 1;
    }
}

impl Mbuf {
    #[verifier::type_invariant]
    spec fn inv(self) -> bool {
        self.data_off + self.data_len <= self.buf@.len() <= u16::MAX
    }

    /// Wraps fresh storage as an empty buffer of pool `pool`.
    pub(crate) fn with_storage(storage: Vec<u8>, headroom: u16, pool: u32) -> (b: Self)
        requires
            headroom <= storage@.len() <= u16::MAX,
        ensures
            b@ == (MbufView {
                pool,
                headroom: headroom as nat,
                buf_len: storage@.len(),
                data: Seq::empty(),
            }),
            b@.wf(),
    {
        let b = Mbuf { buf: storage, data_off: headroom, data_len: 0, pool };
        assert(b@.data =~= Seq::empty());
        b
    }

    /// Takes a buffer from the pool: it has no data, and the pool's
    /// headroom. Fails with `NoBuf` when the pool is exhausted.
    pub fn new(mp: &mut Mempool) -> (r: Result<Self, MemoryError>)
        ensures
            final(mp)@.wf(),
            final(mp).spec_name() == old(mp).spec_name(),
            match r {
                Ok(b) => old(mp)@.free > 0 && final(mp)@ == old(mp)@.after_alloc() && b@ == old(mp)@.fresh() && b@.wf(),
                Err(e) => e == MemoryError::NoBuf && old(mp)@.free == 0 && final(mp)@ == old(mp)@,
            },
    {
        mp.alloc_buf()
    }

    /// What `from_bytes` answers on a pool and bytes: the pool's verdict
    /// first, then that of the extension by the length of the bytes.
    pub open spec fn from_bytes_outcome(pool: PoolView, data: Seq<u8>) -> Result<(), MbufError> {
        if pool.free == 0 {
            Err(MbufError::Memory(MemoryError::NoBuf))
        } else {
            match pool.fresh().extend_outcome(0, data.len() as usize) {
                Ok(()) => Ok(()),
                Err(e) => Err(MbufError::Buf(e)),
            }
        }
    }

    /// Takes a buffer from the pool and fills it with `data`. When the bytes
    /// do not fit (or there are none) the buffer goes back to the pool.
    pub fn from_bytes(data: &[u8], mp: &mut Mempool) -> (r: Result<Self, MbufError>)
        ensures
            final(mp)@.wf(),
            final(mp).spec_name() == old(mp).spec_name(),
            match r {
                Ok(b) => Self::from_bytes_outcome(old(mp)@, data@) is Ok && b@ == old(mp)@.fresh().with_data(data@) && b@.wf() && final(mp)@ == old(mp)@.after_alloc(),
                Err(e) => Self::from_bytes_outcome(old(mp)@, data@) == Err::<(), MbufError>(e)
                    && final(mp)@ == old(mp)@,
            },
    {
        let mut mbuf = match mp.alloc_buf() {
            Ok(b) => b,
            Err(e) => {
                return Err(MbufError::Memory(e));
            },
        };
        match mbuf.extend(0, data.len()) {
            Ok(()) => {},
            Err(e) => {
                let _ = mp.free(mbuf);
                return Err(MbufError::Buf(e));
            },
        }
        match mbuf.write_data_slice(0, data) {
            Ok(_) => {
                proof {
                    let v = old(mp)@.fresh();
                    let mid = v.with_data(v.extended(0, data@.len() as usize));
                    assert(mid.written(0, data@) =~= data@);
                }
                Ok(mbuf)
            },
            Err(e) => {
                let _ = mp.free(mbuf);
                Err(MbufError::Buf(e))
            },
        }
    }

    /// The id of the pool that owns the buffer.
    pub fn pool_id(&self) -> (id: u32)
        ensures
            id == self@.pool,
    {
        self.pool
    }

    /// The number of bytes of data.
    pub fn data_len(&self) -> (n: usize)
        ensures
            n == self@.data.len(),
            self@.wf(),
    {
        proof {
            use_type_invariant(self);
        }
        self.data_len as usize
    }

    /// The packet length, which is the data length.
    pub fn pkt_len(&self) -> (n: u32)
        ensures
            n == self@.pkt_len(),
            self@.wf(),
    {
        proof {
            use_type_invariant(self);
        }
        self.data_len as u32
    }

    /// The number of bytes before the data.
    pub fn data_off(&self) -> (n: usize)
        ensures
            n == self@.headroom,
            self@.wf(),
    {
        proof {
            use_type_invariant(self);
        }
        self.data_off as usize
    }

    /// The total length of the buffer.
    pub fn buf_len(&self) -> (n: usize)
        ensures
            n == self@.buf_len,
            self@.wf(),
    {
        proof {
            use_type_invariant(self);
        }
        self.buf.len()
    }

    /// The position in the buffer of the byte at `offset` of the data, or of
    /// the end of the data when `offset` is the data length; `None` for an
    /// offset beyond the data.
    pub fn data_address(&self, offset: usize) -> (a: Option<usize>)
        ensures
            self@.wf(),
            a == (if offset <= self@.data.len() {
                Some((self@.headroom + offset) as usize)
            } else {
                None
            }),
    {
        proof {
            use_type_invariant(self);
        }
        if offset <= self.data_len as usize {
            Some(self.data_off as usize + offset)
        } else {
            None
        }
    }

    /// The number of bytes after the data.
    pub fn tailroom(&self) -> (n: usize)
        ensures
            n == self@.tailroom(),
            self@.wf(),
    {
        proof {
            use_type_invariant(self);
        }
        self.buf.len() - self.data_off as usize - self.data_len as usize
    }

    /// The data, borrowed.
    pub fn data_slice(&self) -> (d: &[u8])
        ensures
            d@ == self@.data,
            self@.wf(),
    {
        proof {
            use_type_invariant(self);
        }
        slice_subrange(
            self.buf.as_slice(),
            self.data_off as usize,
            self.data_off as usize + self.data_len as usize,
        )
    }

    /// A copy of the data.
    pub fn data(&self) -> (d: Vec<u8>)
        ensures
            d@ == self@.data,
            self@.wf(),
    {
        proof {
            use_type_invariant(self);
        }
        let start: usize = self.data_off as usize;
        let n: usize = self.data_len as usize;
        let mut d: Vec<u8> = Vec::new();
        let mut i: usize = 0;
        while i < n
            invariant
                i <= n,
                start + n <= self.buf@.len() <= u16::MAX,
                d@ == self.buf@.subrange(start as int, start + i),
            decreases n - i,
        {
            d.push(self.buf[start + i]);
            i = i + 1;
            assert(d@ =~= self.buf@.subrange(start as int, start + i));
        }
        d
    }

    /// The byte at `offset` of the data, if there is one.
    pub fn byte_at(&self, offset: usize) -> (b: Option<u8>)
        ensures
            b == (if offset < self@.data.len() {
                Some(self@.data[offset as int])
            } else {
                None
            }),
    {
        proof {
            use_type_invariant(self);
        }
        if offset < self.data_len as usize {
            Some(self.buf[self.data_off as usize + offset])
        } else {
            None
        }
    }

    /// Makes room for `len` more bytes at `offset`: the data after `offset`
    /// moves down and the gap is cleared. Fails with `BadOffset` when
    /// `offset` lies beyond the data, with `NotResized` when `len` is zero,
    /// and with `OutOfBuffer` when `len` exceeds the tailroom; nothing
    /// changes then.
    pub fn extend(&mut self, offset: usize, len: usize) -> (r: Result<(), BufError>)
        ensures
            old(self)@.wf(),
            final(self)@.wf(),
            r == old(self)@.extend_outcome(offset, len),
            r is Ok ==> final(self)@ == old(self)@.with_data(old(self)@.extended(offset, len)),
            r is Err ==> *final(self) == *old(self),
    {
        proof {
            use_type_invariant(&*self);
        }
        let data_len: usize = self.data_len as usize;
        let tailroom: usize = self.buf.len() - self.data_off as usize - data_len;
        if offset > data_len {
            return Err(BufError::BadOffset(offset, data_len));
        }
        if len == 0 {
            return Err(BufError::NotResized);
        }
        if len > tailroom {
            return Err(BufError::OutOfBuffer(len, tailroom));
        }
        let start: usize = self.data_off as usize;
        open_gap(&mut self.buf, start + offset, start + data_len, len);
        self.data_len = (data_len + len) as u16;
        proof {
            assert(self@.data =~= old(self)@.extended(offset, len));
        }
        Ok(())
    }

    /// Removes the `len` bytes at `offset`: the data after them moves up.
    /// Nothing changes unless `len` is positive and the range lies within
    /// the data.
    pub fn shrink(&mut self, offset: usize, len: usize) -> (r: Result<(), BufError>)
        ensures
            old(self)@.wf(),
            final(self)@.wf(),
            r == old(self)@.shrink_outcome(offset, len),
            r is Ok ==> final(self)@ == old(self)@.with_data(old(self)@.shrunk(offset, len)),
            r is Err ==> *final(self) == *old(self),
    {
        proof {
            use_type_invariant(&*self);
        }
        let data_len: usize = self.data_len as usize;
        if offset > data_len {
            return Err(BufError::BadOffset(offset, data_len));
        }
        if len == 0 {
            return Err(BufError::NotResized);
        }
        if len > data_len - offset {
            return Err(BufError::OutOfBuffer(len, data_len - offset));
        }
        let start: usize = self.data_off as usize;
        close_gap(&mut self.buf, start + offset, start + data_len, len);
        self.data_len = (data_len - len) as u16;
        proof {
            assert(self@.data =~= old(self)@.shrunk(offset, len));
        }
        Ok(())
    }

    /// Grows the data by `len` bytes at `offset` when `len` is not negative,
    /// and shrinks it by `-len` bytes when it is.
    pub fn resize(&mut self, offset: usize, len: isize) -> (r: Result<(), BufError>)
        ensures
            old(self)@.wf(),
            final(self)@.wf(),
            len >= 0 ==> r == old(self)@.extend_outcome(offset, len as usize),
            len >= 0 && r is Ok ==> final(self)@ == old(self)@.with_data(
                old(self)@.extended(offset, len as usize),
            ),
            len < 0 ==> r == old(self)@.shrink_outcome(offset, (-len) as usize),
            len < 0 && r is Ok ==> final(self)@ == old(self)@.with_data(
                old(self)@.shrunk(offset, (-len) as usize),
            ),
            r is Err ==> *final(self) == *old(self),
    {
        if len < 0 {
            let n: usize = ((-(len + 1)) as usize) + 1;
            self.shrink(offset, n)
        } else {
            self.extend(offset, len as usize)
        }
    }

    /// Drops the tail of the data, so that `to_len` bytes are left. Fails
    /// with `NotResized`, and changes nothing, unless `to_len` is less than
    /// the data length.
    pub fn truncate(&mut self, to_len: usize) -> (r: Result<(), BufError>)
        ensures
            old(self)@.wf(),
            final(self)@.wf(),
            r is Ok <==> to_len < old(self)@.data.len(),
            r matches Err(e) ==> e == BufError::NotResized && *final(self) == *old(self),
            r is Ok ==> final(self)@ == old(self)@.with_data(
                old(self)@.data.subrange(0, to_len as int),
            ),
    {
        proof {
            use_type_invariant(&*self);
        }
        if to_len >= self.data_len as usize {
            return Err(BufError::NotResized);
        }
        self.data_len = to_len as u16;
        proof {
            assert(self@.data =~= old(self)@.data.subrange(0, to_len as int));
        }
        Ok(())
    }

    /// Copies `size` bytes of the data from `offset`.
    fn read_bytes(&self, offset: usize, size: usize) -> (r: Result<Vec<u8>, BufError>)
        ensures
            self@.wf(),
            match r {
                Ok(bytes) => self@.read_outcome(offset, size as nat) == Ok::<Seq<u8>, BufError>(
                    bytes@,
                ),
                Err(e) => self@.read_outcome(offset, size as nat) == Err::<Seq<u8>, BufError>(e),
            },
    {
        proof {
            use_type_invariant(self);
        }
        let data_len: usize = self.data_len as usize;
        if offset >= data_len {
            return Err(BufError::BadOffset(offset, data_len));
        }
        if size > data_len - offset {
            return Err(BufError::OutOfBuffer(size, data_len - offset));
        }
        let start: usize = self.data_off as usize + offset;
        let mut out: Vec<u8> = Vec::new();
        let mut i: usize = 0;
        while i < size
            invariant
                i <= size,
                start + size <= self.buf@.len() <= u16::MAX,
                out@ == self.buf@.subrange(start as int, start + i),
            decreases size - i,
        {
            out.push(self.buf[start + i]);
            i = i + 1;
            assert(out@ =~= self.buf@.subrange(start as int, start + i));
        }
        proof {
            assert(out@ =~= self@.data.subrange(offset as int, offset + size));
        }
        Ok(out)
    }

    /// Reads the bytes of one `T` at `offset` of the data. Fails with
    /// `BadOffset` when `offset` is not within the data and with
    /// `OutOfBuffer` when the data ends before the value does.
    pub fn read_data<T: SizeOf>(&self, offset: usize) -> (r: Result<Vec<u8>, BufError>)
        ensures
            self@.wf(),
            match r {
                Ok(bytes) => self@.read_outcome(offset, T::spec_size_of()) == Ok::<
                    Seq<u8>,
                    BufError,
                >(bytes@),
                Err(e) => self@.read_outcome(offset, T::spec_size_of()) == Err::<
                    Seq<u8>,
                    BufError,
                >(e),
            },
    {
        self.read_bytes(offset, T::size_of())
    }

    /// Reads the bytes of `count` values of type `T` at `offset` of the data.
    /// Fails with `BadOffset` when `offset` is not within the data and with
    /// `OutOfBuffer` when the data ends before the values do.
    pub fn read_data_slice<T: SizeOf>(&self, offset: usize, count: usize) -> (r: Result<
        Vec<u8>,
        BufError,
    >)
        ensures
            self@.wf(),
            match r {
                Ok(bytes) => self@.read_outcome(offset, (T::spec_size_of() * count) as nat) == Ok::<
                    Seq<u8>,
                    BufError,
                >(bytes@),
                Err(e) => self@.read_outcome(offset, (T::spec_size_of() * count) as nat) == Err::<
                    Seq<u8>,
                    BufError,
                >(e),
            },
    {
        let size: usize = T::size_of();
        if count != 0 && size > usize::MAX / count {
            proof {
                assert(size * count > usize::MAX) by (nonlinear_arith)
                    requires
                        count > 0,
                        size > usize::MAX / count,
                ;
                assert(size * count == T::spec_size_of() * count);
            }
            let data_len = self.data_len();
            if offset >= data_len {
                return Err(BufError::BadOffset(offset, data_len));
            }
            return Err(BufError::OutOfBuffer(usize::MAX, data_len - offset));
        }
        proof {
            assert(size * count <= usize::MAX) by (nonlinear_arith)
                requires
                    count == 0 || size <= usize::MAX / count,
                    size >= 0,
                    count >= 0,
            ;
            assert(size * count == T::spec_size_of() * count);
        }
        self.read_bytes(offset, size * count)
    }

    /// Copies `slice` into the data at `offset` and reads it back. The range
    /// must have been made part of the data before, by `extend`: otherwise
    /// the write fails with `OutOfBuffer`, and changes nothing.
    pub fn write_data_slice(&mut self, offset: usize, slice: &[u8]) -> (r: Result<
        Vec<u8>,
        BufError,
    >)
        ensures
            old(self)@.wf(),
            final(self)@.wf(),
            match r {
                Ok(bytes) => old(self)@.write_outcome(offset, slice@) == Ok::<Seq<u8>, BufError>(
                    bytes@,
                ),
                Err(e) => old(self)@.write_outcome(offset, slice@) == Err::<Seq<u8>, BufError>(e),
            },
            old(self)@.write_fits(offset, slice@.len()) ==> final(self)@ == old(self)@.with_data(
                old(self)@.written(offset, slice@),
            ),
            !old(self)@.write_fits(offset, slice@.len()) ==> *final(self) == *old(self),
    {
        proof {
            use_type_invariant(&*self);
        }
        let count: usize = slice.len();
        let data_len: usize = self.data_len as usize;
        if offset > data_len {
            return Err(BufError::OutOfBuffer(count, 0));
        }
        if count > data_len - offset {
            return Err(BufError::OutOfBuffer(count, data_len - offset));
        }
        let start: usize = self.data_off as usize + offset;
        let mut i: usize = 0;
        while i < count
            invariant
                i <= count,
                count == slice@.len(),
                start + count <= self.buf@.len() <= u16::MAX,
                self.data_off + self.data_len <= self.buf@.len(),
                self.buf@.len() == old(self).buf@.len(),
                self.data_off == old(self).data_off,
                self.data_len == old(self).data_len,
                self.pool == old(self).pool,
                forall|j: int| 0 <= j < start ==> self.buf@[j] == old(self).buf@[j],
                forall|j: int| start <= j < start + i ==> self.buf@[j] == slice@[j - start],
                forall|j: int|
                    start + i <= j < self.buf@.len() ==> self.buf@[j] == old(self).buf@[j],
            decreases count - i,
        {
            self.buf[start + i] = slice[i];
            i = i + 1;
        }
        proof {
            assert(self@.data =~= old(self)@.written(offset, slice@));
        }
        self.read_bytes(offset, count)
    }
}

} // verus!
