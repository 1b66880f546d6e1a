//! The shared-memory interface between the multiplexer and a network
//! function: two circular queues in one region of memory, one for each
//! direction, and a control line that carries the queue indices after every
//! read and write.

use vstd::prelude::*;
use crate::ipc_queue::{next_index, slot, QueueError, RingBuf, RingBufView};

verus! {

/// Control opcode: something went wrong on the control line.
pub const ERR: u8 = 100;

/// Control opcode: the sender wrote to its outbound queue.
pub const WRITE: u8 = 1;

/// Control opcode: the sender read from its inbound queue.
pub const READ: u8 = 2;

/// Length of a control message.
pub const CTRL_MSG_LEN: usize = 4;

/// What can go wrong on the control line.
#[derive(Debug, Clone, Copy, PartialEq, Eq, Structural)]
pub enum StreamError {
    /// Nothing can be read or written right now.
    WouldBlock,
    /// The other side has closed the line.
    Closed,
    /// Any other failure.
    Other,
}

/// The control line, and the passing of the file descriptor of the shared
/// region. The program that links the library implements it for the socket
/// it uses.
pub trait Stream {
    /// Shuts the line down in both directions.
    fn shutdown(&self);

    /// Writes bytes and returns how many were written.
    fn s_write(&mut self, buf: &[u8]) -> Result<usize, StreamError>;

    /// Reads at most `max` bytes.
    fn s_read(&mut self, max: usize) -> Result<Vec<u8>, StreamError>;

    /// Switches between blocking and non-blocking reads and writes.
    fn s_set_nonblocking(&self, nonblocking: bool) -> Result<(), StreamError>;

    /// Receives a file descriptor.
    fn recv_fd(&mut self) -> Result<i32, StreamError>;

    /// Sends a file descriptor.
    fn send_fd(&mut self, fd: i32) -> Result<(), StreamError>;
}

/// Which side of an interface a process is.
#[derive(Debug, Clone, Copy, PartialEq, Eq, Structural)]
pub enum HostType {
    /// The network function, which makes the shared region.
    Client,
    /// The multiplexer, which is handed the shared region.
    Server,
}

/// The control message for queue indices `msg` (write index first) and
/// opcode `r_or_w`: a reserved zero byte, the opcode, the write index, the
/// read index.
pub open spec fn ctrl_msg_of(msg: Seq<u8>, r_or_w: u8) -> Seq<u8> {
    seq![0u8, r_or_w, msg[0], msg[1]]
}

/// Builds [`ctrl_msg_of`].
pub fn ctrl_msg(msg: [u8; 2], r_or_w: u8) -> (m: [u8; 4])
    ensures
        m@ == ctrl_msg_of(msg@, r_or_w),
{
    let m: [u8; 4] = [0, r_or_w, msg[0], msg[1]];
    assert(m@ =~= ctrl_msg_of(msg@, r_or_w));
    m
}

/// What a control message asks of its receiver.
#[derive(Debug, Clone, Copy, PartialEq, Eq, Structural)]
pub enum Ctrl {
    /// The sender wrote: the receiver's inbound queue takes over this write
    /// index.
    Write(u8),
    /// The sender read: the receiver's outbound queue takes over this read
    /// index.
    Read(u8),
    /// Nothing: the message is short, or its opcode is neither of the two.
    Nothing,
}

/// What the bytes read from the control line ask.
pub open spec fn ctrl_of(bytes: Seq<u8>) -> Ctrl {
    if bytes.len() < CTRL_MSG_LEN {
        Ctrl::Nothing
    } else if bytes[1] == WRITE {
        Ctrl::Write(bytes[2])
    } else if bytes[1] == READ {
        Ctrl::Read(bytes[3])
    } else {
        Ctrl::Nothing
    }
}

/// Decodes the bytes read from the control line.
pub fn decode_ctrl(bytes: &[u8]) -> (c: Ctrl)
    ensures
        c == ctrl_of(bytes@),
{
    if bytes.len() < CTRL_MSG_LEN {
        Ctrl::Nothing
    } else if bytes[1] == WRITE {
        Ctrl::Write(bytes[2])
    } else if bytes[1] == READ {
        Ctrl::Read(bytes[3])
    } else {
        Ctrl::Nothing
    }
}

/// A control message says what it was built to say.
pub proof fn lemma_ctrl_round_trip(msg: Seq<u8>)
    requires
        msg.len() == 2,
    ensures
        ctrl_of(ctrl_msg_of(msg, WRITE)) == Ctrl::Write(msg[0]),
        ctrl_of(ctrl_msg_of(msg, READ)) == Ctrl::Read(msg[1]),
        ctrl_of(ctrl_msg_of(msg, ERR)) == Ctrl::Nothing,
{
}

/// What an interface is, as far as contracts are concerned.
pub struct InterfaceView {
    /// Which side this is.
    pub stype: HostType,
    /// The number of slots of each queue.
    pub cap: nat,
    /// The queue from the server to the client.
    pub s2c: RingBufView,
    /// The queue from the client to the server.
    pub c2s: RingBufView,
}

impl InterfaceView {
    /// The queue that this side writes to.
    pub open spec fn outbound(self) -> RingBufView {
        match self.stype {
            HostType::Client => self.c2s,
            HostType::Server => self.s2c,
        }
    }

    /// The queue that this side reads from.
    pub open spec fn inbound(self) -> RingBufView {
        match self.stype {
            HostType::Client => self.s2c,
            HostType::Server => self.c2s,
        }
    }

    /// The interface with another outbound queue.
    pub open spec fn with_outbound(self, q: RingBufView) -> InterfaceView {
        match self.stype {
            HostType::Client => InterfaceView { c2s: q, ..self },
            HostType::Server => InterfaceView { s2c: q, ..self },
        }
    }

    /// The interface with another inbound queue.
    pub open spec fn with_inbound(self, q: RingBufView) -> InterfaceView {
        match self.stype {
            HostType::Client => InterfaceView { s2c: q, ..self },
            HostType::Server => InterfaceView { c2s: q, ..self },
        }
    }

    /// The interface after it took note of a control message: a write by the
    /// other side moves the write index of the inbound queue, a read by the
    /// other side moves the read index of the outbound queue.
    pub open spec fn after_ctrl(self, c: Ctrl) -> InterfaceView {
        match c {
            Ctrl::Write(w) => self.with_inbound(self.inbound().with_write(w as nat)),
            Ctrl::Read(r) => self.with_outbound(self.outbound().with_read(r as nat)),
            Ctrl::Nothing => self,
        }
    }

    /// The interface after an attempt to write an element to the outbound
    /// queue.
    pub open spec fn after_xmit<T>(self, region: Seq<T>) -> InterfaceView {
        if self.outbound().within(region) && !self.outbound().is_full() {
            self.with_outbound(
                self.outbound().with_write(
                    next_index(self.outbound().write, self.outbound().capacity),
                ),
            )
        } else {
            self
        }
    }

    /// The interface after all that is pending on the inbound queue was
    /// read.
    pub open spec fn after_drain<T>(self, region: Seq<T>) -> InterfaceView {
        if self.inbound().readable(region) {
            self.with_inbound(self.inbound().with_read(self.inbound().write))
        } else {
            self
        }
    }

    /// The control message that tells the other side of a write: it carries
    /// the indices of the outbound queue.
    pub open spec fn write_msg(self) -> Seq<u8> {
        ctrl_msg_of(self.outbound().index_bytes(), WRITE)
    }

    /// The control message that tells the other side of a read: it carries
    /// the indices of the inbound queue.
    pub open spec fn read_msg(self) -> Seq<u8> {
        ctrl_msg_of(self.inbound().index_bytes(), READ)
    }

    /// Both queues are well formed.
    pub open spec fn wf(self) -> bool {
        self.s2c.wf() && self.c2s.wf()
    }
}

/// What one round of an interface's loop gave.
pub struct Polled<T> {
    /// What the control message that came asked.
    pub asked: Ctrl,
    /// The elements received, oldest first.
    pub received: Vec<T>,
    /// The control message to send for the read.
    pub read_msg: [u8; 4],
    /// Whether the element to transmit went into the outbound queue.
    pub sent: bool,
    /// The control message to send for the write, if there was an element to
    /// transmit.
    pub write_msg: Option<[u8; 4]>,
}

/// One side of the shared-memory interface. It keeps the indices of the two
/// queues and says which control message is to go over the control line
/// after each read and write; the program that holds the line sends it.
pub struct Interface<T: Copy> {
    stype: HostType,
    name: String,
    cap: usize,
    s2c_q: RingBuf<T>,
    c2s_q: RingBuf<T>,
}

impl<T: Copy> View for Interface<T> {
    type V = InterfaceView;

    closed spec fn view(&self) -> InterfaceView {
        InterfaceView {
            stype: self.stype,
            cap: self.cap as nat,
            s2c: self.s2c_q@,
            c2s: self.c2s_q@,
        }
    }
}

impl<T: Copy> Interface<T> {
    /// The interface's name.
    pub closed spec fn spec_name(&self) -> Seq<char> {
        self.name@
    }

    /// An interface over a region of twice `cap` slots: the queue from the
    /// server to the client in the first half, the queue from the client to
    /// the server in the second. `typ` is 0 for the client and anything else
    /// for the server. Fails with `BadCapacity` when `cap` is zero or more
    /// than 256.
    pub fn new(name: String, cap: usize, typ: u8) -> (r: Result<Self, QueueError>)
        ensures
            r is Ok <==> 0 < cap <= crate::ipc_queue::MAX_CAPACITY,
            r matches Err(e) ==> e == QueueError::BadCapacity,
            r matches Ok(i) ==> i.spec_name() == name@ && i@.wf() && i@ == (InterfaceView {
                stype: if typ == 0 {
                    HostType::Client
                } else {
                    HostType::Server
                },
                cap: cap as nat,
                s2c: RingBufView { capacity: cap as nat, base: 0, write: 0, read: 0 },
                c2s: RingBufView { capacity: cap as nat, base: cap as nat, write: 0, read: 0 },
            }),
    {
        let stype = if typ == 0 {
            HostType::Client
        } else {
            HostType::Server
        };
        let s2c_q = match RingBuf::<T>::new(0, cap) {
            Ok(q) => q,
            Err(e) => {
                return Err(e);
            },
        };
        let c2s_q = match RingBuf::<T>::new(cap, cap) {
            Ok(q) => q,
            Err(e) => {
                return Err(e);
            },
        };
        Ok(Self { stype, name, cap, s2c_q, c2s_q })
    }

    /// The number of slots of each queue.
    pub fn cap(&self) -> (n: usize)
        ensures
            n == self@.cap,
    {
        self.cap
    }

    /// The number of slots that the shared region must have to hold both
    /// queues.
    pub fn region_len(&self) -> (n: usize)
        ensures
            n == self@.s2c.capacity + self@.c2s.capacity,
            self@.wf(),
    {
        let a = self.s2c_q.capacity();
        let b = self.c2s_q.capacity();
        a + b
    }

    /// The interface's name.
    pub fn name(&self) -> (s: String)
        ensures
            s@ == self.spec_name(),
    {
        self.name.clone()
    }

    /// Which side this is: `"server"` or `"client"`.
    pub fn stype(&self) -> (s: &'static str)
        ensures
            s@ == (match self@.stype {
                HostType::Server => "server"@,
                HostType::Client => "client"@,
            }),
    {
        match self.stype {
            HostType::Server => "server",
            HostType::Client => "client",
        }
    }

    /// The control message to send for indices `msg` and opcode `r_or_w`.
    pub fn send_ctrl_msg(&self, msg: [u8; 2], r_or_w: u8) -> (m: [u8; 4])
        ensures
            m@ == ctrl_msg_of(msg@, r_or_w),
    {
        ctrl_msg(msg, r_or_w)
    }

    /// The control message that tells the other side of a write.
    fn write_msg(&self) -> (m: [u8; 4])
        ensures
            m@ == self@.write_msg(),
    {
        match self.stype {
            HostType::Client => ctrl_msg(self.c2s_q.indices(), WRITE),
            HostType::Server => ctrl_msg(self.s2c_q.indices(), WRITE),
        }
    }

    /// The control message that tells the other side of a read.
    fn read_msg(&self) -> (m: [u8; 4])
        ensures
            m@ == self@.read_msg(),
    {
        match self.stype {
            HostType::Client => ctrl_msg(self.s2c_q.indices(), READ),
            HostType::Server => ctrl_msg(self.c2s_q.indices(), READ),
        }
    }

    /// Takes note of a control message: a write by the other side moves the
    /// write index of the inbound queue, a read by the other side moves the
    /// read index of the outbound queue. Any other message changes nothing.
    pub fn apply_ctrl(&mut self, c: Ctrl)
        ensures
            old(self)@.wf(),
            final(self)@.wf(),
            final(self)@ == old(self)@.after_ctrl(c),
            final(self).spec_name() == old(self).spec_name(),
    {
        let _ = self.s2c_q.capacity();
        let _ = self.c2s_q.capacity();
        match c {
            Ctrl::Write(w) => {
                match self.stype {
                    HostType::Client => self.s2c_q.update_write_index(w),
                    HostType::Server => self.c2s_q.update_write_index(w),
                }
            },
            Ctrl::Read(r) => {
                match self.stype {
                    HostType::Client => self.c2s_q.update_read_index(r),
                    HostType::Server => self.s2c_q.update_read_index(r),
                }
            },
            Ctrl::Nothing => {},
        }
    }

    /// Takes note of the bytes that were read from the control line: a
    /// control message if they are four or more, and nothing otherwise.
    /// Returns what the message asked.
    pub fn recv_ctrl_msg(&mut self, bytes: &[u8]) -> (c: Ctrl)
        ensures
            old(self)@.wf(),
            final(self)@.wf(),
            c == ctrl_of(bytes@),
            final(self)@ == old(self)@.after_ctrl(c),
            final(self).spec_name() == old(self).spec_name(),
    {
        let c = decode_ctrl(bytes);
        self.apply_ctrl(c);
        c
    }

    /// Transmits an element: writes it to the outbound queue. A full queue is
    /// an error; the element is then not written. Returns, with the verdict,
    /// the `WRITE` message to send over the control line: it carries the
    /// indices of the outbound queue as they now are, whether or not the
    /// element went in.
    pub fn xmit(&mut self, region: &mut Vec<T>, buf: T) -> (r: (Result<(), QueueError>, [u8; 4]))
        ensures
            old(self)@.wf(),
            final(self)@.wf(),
            final(self).spec_name() == old(self).spec_name(),
            r.0 == (if !old(self)@.outbound().within(old(region)@) {
                Err::<(), QueueError>(QueueError::NoRegion)
            } else if old(self)@.outbound().is_full() {
                Err::<(), QueueError>(QueueError::Full)
            } else {
                Ok::<(), QueueError>(())
            }),
            final(self)@ == old(self)@.after_xmit(old(region)@),
            r.1@ == final(self)@.write_msg(),
            r.0 is Err ==> final(region)@ == old(region)@,
            r.0 is Ok ==> {
                &&& final(region)@ == old(region)@.update(
                    slot(
                        old(self)@.outbound().base,
                        next_index(old(self)@.outbound().write, old(self)@.outbound().capacity),
                    ),
                    buf,
                )
                &&& old(self)@.outbound().in_range() ==> final(self)@.outbound().pending(
                    final(region)@,
                ) == old(self)@.outbound().pending(old(region)@).push(buf)
            },
    {
        let _ = self.s2c_q.capacity();
        let _ = self.c2s_q.capacity();
        let res = match self.stype {
            HostType::Client => self.c2s_q.push(region, buf),
            HostType::Server => self.s2c_q.push(region, buf),
        };
        let msg = self.write_msg();
        (res, msg)
    }

    /// Receives an element: reads the element after the read index of the
    /// inbound queue, unless the read index is the write index. Returns,
    /// with the element, the `READ` message to send over the control line:
    /// it carries the indices of the inbound queue as they now are.
    pub fn recv(&mut self, region: &Vec<T>) -> (r: (Option<T>, [u8; 4]))
        ensures
            old(self)@.wf(),
            final(self)@.wf(),
            final(self).spec_name() == old(self).spec_name(),
            r.0 is Some <==> old(self)@.inbound().within(region@) && old(self)@.inbound().read
                != old(self)@.inbound().write,
            r.1@ == final(self)@.read_msg(),
            r.0 is None ==> final(self)@ == old(self)@,
            r.0 matches Some(elem) ==> {
                &&& final(self)@ == old(self)@.with_inbound(
                    old(self)@.inbound().with_read(
                        next_index(old(self)@.inbound().read, old(self)@.inbound().capacity),
                    ),
                )
                &&& elem == region@[slot(
                    old(self)@.inbound().base,
                    next_index(old(self)@.inbound().read, old(self)@.inbound().capacity),
                )]
                &&& old(self)@.inbound().in_range() ==> {
                    &&& old(self)@.inbound().pending(region@).len() > 0
                    &&& elem == old(self)@.inbound().pending(region@)[0]
                    &&& final(self)@.inbound().pending(region@) == old(self)@.inbound().pending(
                        region@,
                    ).subrange(1, old(self)@.inbound().pending(region@).len() as int)
                }
            },
    {
        let _ = self.s2c_q.capacity();
        let _ = self.c2s_q.capacity();
        let res = match self.stype {
            HostType::Client => self.s2c_q.pop(region),
            HostType::Server => self.c2s_q.pop(region),
        };
        let msg = self.read_msg();
        (res, msg)
    }

    /// Receives all that is pending on the inbound queue, oldest first.
    /// Returns, with the elements, the single `READ` message to send over the
    /// control line: it carries the indices of the inbound queue after the
    /// last read.
    pub fn recv_vectored(&mut self, region: &Vec<T>) -> (r: (Vec<T>, [u8; 4]))
        ensures
            old(self)@.wf(),
            final(self)@.wf(),
            final(self).spec_name() == old(self).spec_name(),
            final(self)@ == old(self)@.after_drain(region@),
            r.1@ == final(self)@.read_msg(),
            r.0@ == (if old(self)@.inbound().readable(region@) {
                old(self)@.inbound().pending(region@)
            } else {
                Seq::<T>::empty()
            }),
    {
        let _ = self.s2c_q.capacity();
        let _ = self.c2s_q.capacity();
        let bufs = match self.stype {
            HostType::Client => self.s2c_q.drain(region),
            HostType::Server => self.c2s_q.drain(region),
        };
        proof {
            if !old(self)@.inbound().readable(region@) {
                assert(bufs@ =~= Seq::<T>::empty());
            }
        }
        let msg = self.read_msg();
        (bufs, msg)
    }

    /// One round of the interface's loop. `incoming` holds the bytes that
    /// were read from the control line, none if nothing came. The interface
    /// takes note of them, receives all that is pending, and transmits
    /// `outgoing` if there is something to transmit. It returns what was
    /// received and the control messages to send: one for the read, and one
    /// for the write if there was an element to transmit.
    pub fn poll(&mut self, region: &mut Vec<T>, incoming: &[u8], outgoing: Option<T>) -> (r: Polled<
        T,
    >)
        ensures
            old(self)@.wf(),
            final(self)@.wf(),
            final(self).spec_name() == old(self).spec_name(),
            ({
                let noted = old(self)@.after_ctrl(ctrl_of(incoming@));
                let read = noted.after_drain(old(region)@);
                &&& r.asked == ctrl_of(incoming@)
                &&& r.received@ == (if noted.inbound().readable(old(region)@) {
                    noted.inbound().pending(old(region)@)
                } else {
                    Seq::<T>::empty()
                })
                &&& r.read_msg@ == read.read_msg()
                &&& r.sent == (outgoing is Some && read.outbound().within(old(region)@)
                    && !read.outbound().is_full())
                &&& final(self)@ == (if outgoing is Some {
                    read.after_xmit(old(region)@)
                } else {
                    read
                })
                &&& r.write_msg is Some <==> outgoing is Some
                &&& r.write_msg matches Some(m) ==> m@ == final(self)@.write_msg()
                &&& !r.sent ==> final(region)@ == old(region)@
                &&& r.sent ==> final(region)@ == old(region)@.update(
                    slot(
                        read.outbound().base,
                        next_index(read.outbound().write, read.outbound().capacity),
                    ),
                    outgoing->0,
                )
            }),
    {
        let asked = self.recv_ctrl_msg(incoming);
        let (received, read_msg) = self.recv_vectored(region);
        match outgoing {
            Some(pkt) => {
                let (res, msg) = self.xmit(region, pkt);
                Polled { asked, received, read_msg, sent: res.is_ok(), write_msg: Some(msg) }
            },
            None => Polled { asked, received, read_msg, sent: false, write_msg: None },
        }
    }
}

} // verus!
