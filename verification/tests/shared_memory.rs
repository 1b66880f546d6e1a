use l3engine::ipc::{
    interface_name, name_hash, new_int, pad_name, send_to_all_nfs, service_name, Mux, NFMap, CAP,
    CLIENT, CLIENT_NAME_SZ, SERVER,
};
use l3engine::ipc_queue::{QueueError, RingBuf};
use l3engine::memenpsf::{
    ctrl_msg, decode_ctrl, Ctrl, Interface, Stream, StreamError, ERR, READ, WRITE,
};
use std::cell::RefCell;
use std::collections::VecDeque;
use std::rc::Rc;

/// One end of a control line that lives in the test: what is written is
/// queued for the other end, what the other end wrote can be read.
#[derive(Clone)]
struct Line {
    inbox: Rc<RefCell<VecDeque<Vec<u8>>>>,
    outbox: Rc<RefCell<VecDeque<Vec<u8>>>>,
    closed: Rc<RefCell<bool>>,
}

fn line_pair() -> (Line, Line) {
    let a = Rc::new(RefCell::new(VecDeque::new()));
    let b = Rc::new(RefCell::new(VecDeque::new()));
    let closed = Rc::new(RefCell::new(false));
    (
        Line { inbox: a.clone(), outbox: b.clone(), closed: closed.clone() },
        Line { inbox: b, outbox: a, closed },
    )
}

impl Stream for Line {
    fn shutdown(&self) {
        *self.closed.borrow_mut() = true;
    }

    fn s_write(&mut self, buf: &[u8]) -> Result<usize, StreamError> {
        self.outbox.borrow_mut().push_back(buf.to_vec());
        Ok(buf.len())
    }

    fn s_read(&mut self, max: usize) -> Result<Vec<u8>, StreamError> {
        match self.inbox.borrow_mut().pop_front() {
            Some(mut msg) => {
                msg.truncate(max);
                Ok(msg)
            }
            None => Err(StreamError::WouldBlock),
        }
    }

    fn s_set_nonblocking(&self, _nonblocking: bool) -> Result<(), StreamError> {
        Ok(())
    }

    fn recv_fd(&mut self) -> Result<i32, StreamError> {
        Err(StreamError::Other)
    }

    fn send_fd(&mut self, _fd: i32) -> Result<(), StreamError> {
        Ok(())
    }
}

#[test]
fn queue_capacity_is_bounded_by_the_index_byte() {
    assert_eq!(RingBuf::<u8>::new(0, 0).err(), Some(QueueError::BadCapacity));
    assert_eq!(RingBuf::<u8>::new(0, 257).err(), Some(QueueError::BadCapacity));
    let q = RingBuf::<u8>::new(0, 256).unwrap();
    assert_eq!(q.capacity(), 256);
    assert_eq!(q.indices(), [0, 0]);
    assert_eq!(q.len(), 0);
}

#[test]
fn queue_holds_one_element_less_than_its_capacity() {
    let mut region = vec![0u32; 4];
    let mut q = RingBuf::<u32>::new(0, 4).unwrap();
    assert_eq!(q.push(&mut region, 10), Ok(()));
    assert_eq!(q.push(&mut region, 20), Ok(()));
    assert_eq!(q.push(&mut region, 30), Ok(()));
    assert_eq!(q.push(&mut region, 40), Err(QueueError::Full));
    assert_eq!(q.len(), 3);
    assert_eq!(q.indices(), [3, 0]);
    assert_eq!(region, vec![0, 10, 20, 30]);
    assert_eq!(q.pop(&region), Some(10));
    assert_eq!(q.indices(), [3, 1]);
    assert_eq!(q.push(&mut region, 40), Ok(()));
    assert_eq!(q.indices(), [0, 1]);
    assert_eq!(region, vec![40, 10, 20, 30]);
    assert_eq!(q.drain(&region), vec![20, 30, 40]);
    assert_eq!(q.pop(&region), None);
    assert_eq!(q.indices(), [0, 0]);
}

#[test]
fn queue_needs_its_region() {
    let mut region = vec![0u8; 7];
    let mut q = RingBuf::<u8>::new(4, 4).unwrap();
    assert_eq!(q.push(&mut region, 1), Err(QueueError::NoRegion));
    assert_eq!(q.pop(&region), None);
    assert!(q.drain(&region).is_empty());
    region.push(0);
    assert_eq!(q.push(&mut region, 1), Ok(()));
    assert_eq!(region[5], 1);
}

#[test]
fn indices_of_the_other_side_are_taken_over() {
    let mut region = vec![0u8; 8];
    let mut producer = RingBuf::<u8>::new(0, 8).unwrap();
    let mut consumer = RingBuf::<u8>::new(0, 8).unwrap();
    producer.push(&mut region, 7).unwrap();
    producer.push(&mut region, 8).unwrap();
    // the consumer sees nothing until it learns the write index
    assert_eq!(consumer.pop(&region), None);
    consumer.update_write_index(producer.indices()[0]);
    assert_eq!(consumer.drain(&region), vec![7, 8]);
    producer.update_read_index(consumer.indices()[1]);
    assert_eq!(producer.indices(), [2, 2]);
    assert_eq!(producer.len(), 0);
}

#[test]
fn any_index_byte_is_taken_over() {
    let mut region = vec![0u8; 8];
    let mut q = RingBuf::<u8>::new(0, 8).unwrap();
    q.push(&mut region, 7).unwrap();
    assert_eq!(q.indices(), [1, 0]);
    q.update_write_index(200);
    assert_eq!(q.indices(), [200, 0]);
    q.update_read_index(255);
    assert_eq!(q.indices(), [200, 255]);
    assert_eq!(q.capacity(), 8);
    assert_eq!(region, vec![0, 7, 0, 0, 0, 0, 0, 0]);
    // while an index addresses no slot nothing counts as pending
    assert_eq!(q.len(), 0);
    assert!(q.drain(&region).is_empty());
    assert_eq!(q.indices(), [200, 255]);
    // the indices go round: after 200 comes 201 modulo 8
    assert_eq!(q.push(&mut region, 9), Ok(()));
    assert_eq!(q.indices(), [1, 255]);
    assert_eq!(region[1], 9);
    q.update_read_index(0);
    q.update_write_index(3);
    assert_eq!(q.indices(), [3, 0]);
    assert_eq!(q.len(), 3);
}

#[test]
fn control_messages_have_four_bytes() {
    assert_eq!(ctrl_msg([5, 3], WRITE), [0, 1, 5, 3]);
    assert_eq!(ctrl_msg([5, 3], READ), [0, 2, 5, 3]);
    assert_eq!(ctrl_msg([0, 0], ERR), [0, 100, 0, 0]);
    assert_eq!(decode_ctrl(&[0, 1, 5, 3]), Ctrl::Write(5));
    assert_eq!(decode_ctrl(&[0, 2, 5, 3]), Ctrl::Read(3));
    assert_eq!(decode_ctrl(&[0, 100, 5, 3]), Ctrl::Nothing);
    assert_eq!(decode_ctrl(&[0, 1, 5]), Ctrl::Nothing);
    assert_eq!(decode_ctrl(&[]), Ctrl::Nothing);
}

#[test]
fn memenpsf_control_handshake() {
    let (mut client_line, mut server_line) = line_pair();
    // the client sends its name, thirty bytes, and the server registers it
    let mut mux = Mux::new();
    let name = pad_name(b"basic_monitor").unwrap();
    assert_eq!(name.len(), 30);
    assert_eq!(client_line.s_write(&name), Ok(30));
    assert_eq!(mux.accept(&mut server_line), Some(0));
    assert_eq!(mux.slot_of(&name), Some(0));
    assert_eq!(mux.all_slots(), vec![0]);

    let mut region = vec![[0u8; 24]; 2 * CAP];
    let mut client = new_int(interface_name(1), CAP, CLIENT).unwrap();
    let mut server = new_int(interface_name(2), CAP, SERVER).unwrap();
    assert_eq!(client.stype(), "client");
    assert_eq!(server.stype(), "server");
    assert_eq!(client.name(), "eth1");
    assert_eq!(server.cap(), 32);
    assert_eq!(server.region_len(), 64);

    let first = [1u8; 24];
    let second = [2u8; 24];
    assert_eq!(client.xmit(&mut region, first), (Ok(()), [0, 1, 1, 0]));
    // the second write tells of widx = 2: reserved 0, WRITE, widx 2, ridx 0
    let (sent, msg) = client.xmit(&mut region, second);
    assert_eq!(sent, Ok(()));
    assert_eq!(msg, [0, 1, 2, 0]);
    assert_eq!(client_line.s_write(&msg), Ok(4));

    // the server takes note of the message and sees the two elements
    let bytes = server_line.s_read(4).unwrap();
    assert_eq!(server.recv_ctrl_msg(&bytes), Ctrl::Write(2));
    let (got, answer) = server.recv_vectored(&region);
    assert_eq!(got, vec![first, second]);
    // it answers with a single READ message that carries ridx = 2
    assert_eq!(answer, [0, 2, 2, 2]);
    assert_eq!(server_line.s_write(&answer), Ok(4));
    let bytes = client_line.s_read(4).unwrap();
    assert_eq!(client.recv_ctrl_msg(&bytes), Ctrl::Read(2));
    // nothing is pending any more
    let (got, answer) = server.recv_vectored(&region);
    assert!(got.is_empty());
    assert_eq!(answer, [0, 2, 2, 2]);
}

#[test]
fn elements_travel_both_ways_through_one_region() {
    let mut region = vec![0u8; 8];
    let mut client = Interface::<u8>::new("c".to_string(), 4, 0).unwrap();
    let mut server = Interface::<u8>::new("s".to_string(), 4, 1).unwrap();
    let (sent, to_client) = server.xmit(&mut region, 9);
    assert_eq!(sent, Ok(()));
    assert_eq!(to_client, [0, 1, 1, 0]);
    let (sent, to_server) = client.xmit(&mut region, 5);
    assert_eq!(sent, Ok(()));
    // server to client lies in the first half, client to server in the second
    assert_eq!(region, vec![0, 9, 0, 0, 0, 5, 0, 0]);
    let polled = client.poll(&mut region, &to_client, Some(6));
    assert_eq!(polled.asked, Ctrl::Write(1));
    assert_eq!(polled.received, vec![9]);
    assert_eq!(polled.read_msg, [0, 2, 1, 1]);
    assert!(polled.sent);
    assert_eq!(polled.write_msg, Some([0, 1, 2, 0]));
    // the server reads its control messages one by one
    assert_eq!(server.recv_ctrl_msg(&to_server), Ctrl::Write(1));
    assert_eq!(server.recv(&region), (Some(5), [0, 2, 1, 1]));
    assert_eq!(server.recv(&region), (None, [0, 2, 1, 1]));
    assert_eq!(server.recv_ctrl_msg(&polled.read_msg), Ctrl::Read(1));
    assert_eq!(server.recv_ctrl_msg(&polled.write_msg.unwrap()), Ctrl::Write(2));
    assert_eq!(server.recv_vectored(&region), (vec![6], [0, 2, 2, 2]));
    // a round without anything to take note of or to transmit
    let idle = server.poll(&mut region, &[], None);
    assert_eq!(idle.asked, Ctrl::Nothing);
    assert!(idle.received.is_empty());
    assert!(!idle.sent);
    assert_eq!(idle.write_msg, None);
    assert_eq!(idle.read_msg, [0, 2, 2, 2]);
}

#[test]
fn a_full_outbound_queue_is_an_error() {
    let mut region = vec![0u8; 4];
    let mut client = Interface::<u8>::new("c".to_string(), 2, 0).unwrap();
    assert_eq!(client.xmit(&mut region, 1), (Ok(()), [0, 1, 1, 0]));
    // the message goes out all the same, with the indices as they are
    assert_eq!(client.xmit(&mut region, 2), (Err(QueueError::Full), [0, 1, 1, 0]));
    assert_eq!(region, vec![0, 0, 0, 1]);
    let mut short = vec![0u8; 3];
    assert_eq!(client.xmit(&mut short, 2).0, Err(QueueError::NoRegion));
    assert!(Interface::<u8>::new("c".to_string(), 0, 0).is_err());
    assert!(Interface::<u8>::new("c".to_string(), 257, 0).is_err());
    assert_eq!(client.send_ctrl_msg([1, 2], WRITE), [0, 1, 1, 2]);
    assert_eq!(client.send_ctrl_msg([1, 2], READ), [0, 2, 1, 2]);
}

#[test]
fn a_control_message_moves_the_index_it_names() {
    let mut region = vec![0u8; 8];
    let mut server = Interface::<u8>::new("s".to_string(), 4, 1).unwrap();
    // any byte is taken over, also one that addresses no slot
    assert_eq!(server.recv_ctrl_msg(&[0, 1, 9, 0]), Ctrl::Write(9));
    assert_eq!(server.recv(&region), (Some(0), [0, 2, 9, 1]));
    assert_eq!(server.recv_ctrl_msg(&[0, 2, 0, 7]), Ctrl::Read(7));
    assert_eq!(server.xmit(&mut region, 1).1, [0, 1, 1, 7]);
    assert_eq!(server.recv_ctrl_msg(&[0, 100, 3, 3]), Ctrl::Nothing);
    assert_eq!(server.recv_ctrl_msg(&[0, 1, 3]), Ctrl::Nothing);
}

#[test]
fn service_names_are_padded_with_nul_bytes() {
    let padded = pad_name(b"basic_monitor").unwrap();
    assert_eq!(padded.len(), CLIENT_NAME_SZ);
    assert_eq!(&padded[..13], b"basic_monitor");
    assert!(padded[13..].iter().all(|b| *b == 0));
    assert_eq!(service_name(&padded), b"basic_monitor".to_vec());
    assert_eq!(service_name(&[0, 0, 0]), Vec::<u8>::new());
    assert_eq!(service_name(b"a\0b\0\0"), b"a\0b".to_vec());
    assert!(pad_name(&[b'x'; 31]).is_none());
    assert_eq!(pad_name(&[b'x'; 30]).unwrap(), vec![b'x'; 30]);
}

#[test]
fn services_are_found_by_name() {
    let mut mux = Mux::new();
    let a = pad_name(b"monitor").unwrap();
    let b = pad_name(b"firewall").unwrap();
    assert_eq!(mux.register(&a), Some(0));
    assert_eq!(mux.register(&b), Some(1));
    assert_eq!(mux.register(b"short"), None);
    assert_eq!(mux.slot_of(&a), Some(0));
    assert_eq!(mux.slot_of(&b), Some(1));
    assert_eq!(mux.slot_of(&pad_name(b"nobody").unwrap()), None);
    assert_eq!(mux.all_slots(), vec![0, 1]);
    assert_eq!(name_hash(&a), name_hash(&pad_name(b"monitor").unwrap()));
    assert_ne!(name_hash(&a), name_hash(&b));
}

#[test]
fn a_packet_for_all_goes_to_the_services_that_are_registered() {
    let mut map = NFMap::new();
    let names = vec![b"one".to_vec(), b"two".to_vec(), b"three".to_vec()];
    map.insert(name_hash(&names[0]), 10);
    map.insert(name_hash(&names[2]), 30);
    assert_eq!(map.get(name_hash(&names[1])), None);
    assert_eq!(send_to_all_nfs(&names, &map), vec![10, 30]);
    assert_eq!(interface_name(0), "eth0");
    assert_eq!(interface_name(255), "eth255");
}

#[test]
fn only_a_read_of_thirty_bytes_registers_a_service() {
    let mut mux = Mux::new();
    assert_eq!(mux.register_read(Err(StreamError::Closed)), None);
    assert_eq!(mux.register_read(Err(StreamError::WouldBlock)), None);
    assert_eq!(mux.register_read(Ok(vec![b'x'; 29])), None);
    assert_eq!(mux.register_read(Ok(Vec::new())), None);
    assert_eq!(mux.all_slots(), Vec::<u64>::new());
    let name = pad_name(b"monitor").unwrap();
    assert_eq!(mux.register_read(Ok(name.clone())), Some(0));
    assert_eq!(mux.slot_of(&name), Some(0));
    // a line that has nothing to read registers nothing
    let (_client, mut server_line) = line_pair();
    assert_eq!(mux.accept(&mut server_line), None);
    assert_eq!(mux.all_slots(), vec![0]);
}
