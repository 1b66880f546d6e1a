use l3engine::error::{MemoryError, RingClientMapError};
use l3engine::mbuf::Mbuf;
use l3engine::mempool::Mempool;
use l3engine::memring::{Channel, RingTable};
use l3engine::net::ipv4hdr::octets_to_u32;
use l3engine::packetiser::{Packetiser, PACKETISER_ID};
use l3engine::process::{
    deserialize_conn, hash_conn, parse_pkt, parse_u32_2_ipv4, serialize_conn, ConnIdentity,
    ConnState, ConnTable,
};
use l3engine::routing::RoutingTable;

const DST_MAC: [u8; 6] = [0x90, 0xe2, 0xba, 0x87, 0x6b, 0xa4];
const SRC_MAC: [u8; 6] = [0x02, 0x00, 0x00, 0x00, 0x00, 0x05];

fn tcp_frame(src_port: u16, dst: [u8; 4]) -> Vec<u8> {
    let mut f = Vec::new();
    f.extend_from_slice(&DST_MAC);
    f.extend_from_slice(&SRC_MAC);
    f.extend_from_slice(&[0x08, 0x00]);
    f.extend_from_slice(&[0x45, 0x00, 0x00, 40, 0, 0, 0, 0, 64, 6, 0, 0]);
    f.extend_from_slice(&[10, 0, 0, 5]);
    f.extend_from_slice(&dst);
    f.extend_from_slice(&src_port.to_be_bytes());
    f.extend_from_slice(&443u16.to_be_bytes());
    f.extend_from_slice(&7u32.to_be_bytes());
    f.extend_from_slice(&9u32.to_be_bytes());
    f.extend_from_slice(&[0x50, 0x10]);
    f.extend_from_slice(&1024u16.to_be_bytes());
    f.extend_from_slice(&[0, 0, 0, 0]);
    f
}

fn udp_frame() -> Vec<u8> {
    let mut f = tcp_frame(1, [192, 168, 0, 2]);
    f[23] = 17;
    f
}

fn setup() -> (Mempool, RingTable, Channel, Packetiser) {
    let mp = Mempool::new(0, "GLOBAL_MEMPOOL", 64, 256, 16).unwrap();
    let mut table = RingTable::new(true, 64);
    let engine_side = Channel::new(&mut table, PACKETISER_ID).unwrap();
    let p = Packetiser::new(&mut table, 4).unwrap();
    (mp, table, engine_side, p)
}

#[test]
fn packetiser_needs_its_channel_and_a_sound_capacity() {
    let mut table = RingTable::new(true, 8);
    assert_eq!(Packetiser::new(&mut table, 4).err(), Some(MemoryError::NoEntries));
    Channel::new(&mut table, PACKETISER_ID).unwrap();
    assert_eq!(Packetiser::new(&mut table, 0).err(), Some(MemoryError::Invalid));
    assert_eq!(Packetiser::new(&mut table, usize::MAX).err(), Some(MemoryError::Invalid));
    assert_eq!(Packetiser::new(&mut table, usize::MAX / 128 + 1).err(), Some(MemoryError::Invalid));
    let first = Packetiser::new(&mut table, 65537).unwrap();
    // the channel has its client now: a second one is refused
    assert_eq!(Packetiser::new(&mut table, 4).err(), Some(MemoryError::Exists));
    first.detach(&mut table);
    assert!(Packetiser::new(&mut table, 4).is_ok());
}

#[test]
fn client_ids_are_the_smallest_unused_from_two() {
    let (mut mp, mut table, _engine, mut p) = setup();
    assert_eq!(p.next_id(), Some(2));
    assert_eq!(p.add_client(&mut table), Ok(2));
    assert_eq!(p.add_client(&mut table), Ok(3));
    assert_eq!(p.add_client(&mut table), Ok(4));
    // a released id is given out again before a new one
    let left = p.remove_clients(&mut table, 3);
    assert!(left.is_empty());
    assert_eq!(p.next_id(), Some(3));
    assert_eq!(p.add_client(&mut table), Ok(3));
    assert_eq!(p.add_client(&mut table), Ok(5));
    // removing a client that is not there changes nothing
    assert!(p.remove_clients(&mut table, 9).is_empty());
    assert_eq!(p.add_client(&mut table), Ok(6));
    // the rings of the clients are in the table
    assert!(Channel::lookup(&table, 5).is_ok());
    assert!(Channel::lookup(&table, 7).is_err());
    let pkt = Mbuf::from_bytes(&[1], &mut mp).unwrap();
    assert!(p.recv_from_clients(&mut table, 5, pkt).is_ok());
    let client = Channel::lookup(&table, 5).unwrap();
    let got = client.receive_from_engine(&mut table).unwrap();
    assert!(client.send_to_engine(&mut table, got).is_ok());
    assert_eq!(p.send_to_clients(&mut table, 5).unwrap().data(), vec![1]);
    assert_eq!(
        p.send_to_clients(&mut table, 9).err(),
        Some(RingClientMapError::ClientNotFound(9))
    );
}

#[test]
fn a_client_is_not_added_when_its_rings_cannot_be_made() {
    let mut table = RingTable::new(true, 3);
    Channel::new(&mut table, PACKETISER_ID).unwrap();
    let mut p = Packetiser::new(&mut table, 4).unwrap();
    assert_eq!(
        p.add_client(&mut table),
        Err(RingClientMapError::MemoryError(MemoryError::NoSpace))
    );
    assert_eq!(p.next_id(), Some(2));
    assert_eq!(table.len(), 2);
}

#[test]
fn packetiser_takes_only_what_its_queue_has_room_for() {
    let (mut mp, mut table, engine, mut p) = setup();
    for port in 0..6u16 {
        let b = Mbuf::from_bytes(&tcp_frame(port, [192, 168, 0, 2]), &mut mp).unwrap();
        assert!(engine.send_to_client(&mut table, b).is_ok());
    }
    assert_eq!(p.recv_from_engine_burst(&mut table), Ok(4));
    assert_eq!(p.recv_from_engine_burst(&mut table), Ok(0));
    assert_eq!(p.incoming_len(), 4);
    assert_eq!(table.count(&engine.engine_to_client), Some(2));
    assert_eq!(p.process_incoming(&mut mp), 4);
    assert_eq!(p.incoming_len(), 0);
    assert_eq!(p.outgoing_len(), 4);
    assert_eq!(p.connection_count(), 4);
    assert_eq!(p.recv_from_engine_burst(&mut table), Ok(2));
    // the queue towards the engine is full: these two are dropped
    assert_eq!(p.process_incoming(&mut mp), 2);
    assert_eq!(p.outgoing_len(), 4);
    assert_eq!(p.dropped_count(), 2);
    assert_eq!(p.connection_count(), 6);
    assert_eq!(mp.in_use(), 4);
    assert_eq!(p.send_to_engine_bulk(&mut table, &mut mp), 4);
    assert_eq!(p.outgoing_len(), 0);
    let mut back = Vec::new();
    assert_eq!(engine.recv_from_client_bulk(&mut table, &mut back, 32), 4);
    let ports: Vec<u8> = back.iter().map(|b| b.data()[35]).collect();
    assert_eq!(ports, vec![0, 1, 2, 3]);
}

#[test]
fn packets_that_do_not_parse_are_dropped_and_counted() {
    let (mut mp, mut table, engine, mut p) = setup();
    let good = tcp_frame(7, [192, 168, 0, 2]);
    for frame in [udp_frame(), good.clone(), vec![0u8; 10]] {
        let b = Mbuf::from_bytes(&frame, &mut mp).unwrap();
        assert!(engine.send_to_client(&mut table, b).is_ok());
    }
    assert_eq!(p.recv_from_engine_burst(&mut table), Ok(3));
    assert_eq!(p.process_incoming(&mut mp), 3);
    assert_eq!(p.dropped_count(), 2);
    assert_eq!(p.connection_count(), 1);
    assert_eq!(p.outgoing_len(), 1);
    assert_eq!(mp.in_use(), 1);
    assert_eq!(p.send_to_engine_bulk(&mut table, &mut mp), 1);
    // what goes back is, byte for byte, what came
    assert_eq!(engine.receive_from_client(&mut table).unwrap().data(), good);
}

#[test]
fn packetiser_frees_what_the_engine_ring_does_not_take() {
    let (mut mp, mut table, engine, mut p) = setup();
    let b = Mbuf::from_bytes(&tcp_frame(7, [192, 168, 0, 2]), &mut mp).unwrap();
    assert!(engine.send_to_client(&mut table, b).is_ok());
    assert_eq!(p.recv_from_engine_burst(&mut table), Ok(1));
    assert_eq!(p.process_incoming(&mut mp), 1);
    let left = engine.free(&mut table);
    assert!(left.is_empty());
    assert_eq!(p.recv_from_engine_burst(&mut table), Err(MemoryError::NoEntries));
    assert_eq!(p.send_to_engine_bulk(&mut table, &mut mp), 0);
    assert_eq!(p.outgoing_len(), 0);
    assert_eq!(mp.in_use(), 0);
}

#[test]
fn packets_are_routed_by_destination_address() {
    let (mut mp, _table, _engine, p) = setup();
    let mut routes = RoutingTable::new();
    let ip = octets_to_u32(&[192, 168, 0, 2]);
    routes.add_client(5, ip);
    assert!(routes.lookup_by_ip(ip));
    assert!(routes.lookup_by_id(5));
    assert!(!routes.lookup_by_id(6));
    assert_eq!(routes.id_from_ip(ip), 5);
    assert_eq!(routes.id_from_ip(ip + 1), 0);
    let b = Mbuf::from_bytes(&tcp_frame(7, [192, 168, 0, 2]), &mut mp).unwrap();
    assert_eq!(p.get_ip_hdr(&b), Some(ip));
    assert_eq!(p.ipv4hdr(&b).unwrap().get_dst_addr(), ip);
    assert_eq!(p.route(&routes, &b), 5);
    let other = Mbuf::from_bytes(&tcp_frame(7, [192, 168, 0, 3]), &mut mp).unwrap();
    assert_eq!(p.route(&routes, &other), 0);
    let runt = Mbuf::from_bytes(&[1, 2, 3], &mut mp).unwrap();
    assert_eq!(p.get_ip_hdr(&runt), None);
    assert_eq!(p.route(&routes, &runt), 0);
    routes.remove_by_ip(ip);
    assert!(!routes.lookup_by_ip(ip));
    assert!(routes.lookup_by_id(5));
    assert_eq!(p.route(&routes, &b), 0);
    routes.remove_by_id(5);
    assert!(!routes.lookup_by_id(5));
}

#[test]
fn connection_identity_is_read_from_the_frame() {
    let mut mp = Mempool::new(0, "GLOBAL_MEMPOOL", 4, 256, 16).unwrap();
    let b = Mbuf::from_bytes(&tcp_frame(40000, [192, 168, 0, 2]), &mut mp).unwrap();
    let (id, state) = parse_pkt(&b).unwrap();
    assert_eq!(id.dst_ip(), octets_to_u32(&[192, 168, 0, 2]));
    assert_eq!(id.src_ip(), octets_to_u32(&[10, 0, 0, 5]));
    assert_eq!(id.dst_mac(), DST_MAC);
    assert_eq!(id.src_mac(), SRC_MAC);
    assert_eq!(id.dst_port(), 443);
    assert_eq!(id.src_port(), 40000);
    assert_eq!(state, ConnState { rx_win: 1024, seq_num: 7, ack_num: 9 });
    let udp = Mbuf::from_bytes(&udp_frame(), &mut mp).unwrap();
    assert!(parse_pkt(&udp).is_none());
    assert!(serialize_conn(&udp).is_none());
    assert_eq!(parse_u32_2_ipv4(0xc0a80002), [192, 168, 0, 2]);
}

#[test]
fn connection_identity_is_encoded_in_twenty_four_bytes() {
    let mut mp = Mempool::new(0, "GLOBAL_MEMPOOL", 4, 256, 16).unwrap();
    let b = Mbuf::from_bytes(&tcp_frame(0x1234, [192, 168, 0, 2]), &mut mp).unwrap();
    let bytes = serialize_conn(&b).unwrap();
    assert_eq!(
        bytes,
        vec![
            192, 168, 0, 2, 0x90, 0xe2, 0xba, 0x87, 0x6b, 0xa4, 0xbb, 0x01, 10, 0, 0, 5, 0x02, 0,
            0, 0, 0, 0x05, 0x34, 0x12
        ]
    );
    let mut arr = [0u8; 24];
    arr.copy_from_slice(&bytes);
    let id = deserialize_conn(arr).unwrap();
    assert_eq!(id, parse_pkt(&b).unwrap().0);
    assert_eq!(id.to_bytes(), bytes);
    assert_eq!(ConnIdentity::from_bytes(&arr), id);
}

#[test]
fn encoding_is_that_of_the_fixed_width_binary_form() {
    let id = ConnIdentity::new(0xc0a80002, DST_MAC, 443, 0x0a000005, SRC_MAC, 0x1234);
    let as_tuple: ([u8; 4], [u8; 6], u16, [u8; 4], [u8; 6], u16) =
        ([192, 168, 0, 2], DST_MAC, 443, [10, 0, 0, 5], SRC_MAC, 0x1234);
    assert_eq!(id.to_bytes(), bincode::serialize(&as_tuple).unwrap());
    let back: ([u8; 4], [u8; 6], u16, [u8; 4], [u8; 6], u16) =
        bincode::deserialize(&id.to_bytes()).unwrap();
    assert_eq!(back, as_tuple);
}

#[test]
fn equal_identities_hash_alike() {
    let a = ConnIdentity::new(1, DST_MAC, 2, 3, SRC_MAC, 4);
    let b = ConnIdentity::new(1, DST_MAC, 2, 3, SRC_MAC, 4);
    let c = ConnIdentity::new(1, DST_MAC, 2, 3, SRC_MAC, 5);
    assert_eq!(hash_conn(a), hash_conn(b));
    assert_ne!(hash_conn(a), hash_conn(c));
}

#[test]
fn connection_table_keeps_the_latest_state() {
    let mut mp = Mempool::new(0, "GLOBAL_MEMPOOL", 4, 256, 16).unwrap();
    let mut table = ConnTable::new();
    assert_eq!(table.len(), 0);
    let mut frame = tcp_frame(1, [192, 168, 0, 2]);
    let first = Mbuf::from_bytes(&frame, &mut mp).unwrap();
    let key = table.process(&first).unwrap();
    assert_eq!(table.get(key), Some(ConnState { rx_win: 1024, seq_num: 7, ack_num: 9 }));
    frame[41] = 8;
    let second = Mbuf::from_bytes(&frame, &mut mp).unwrap();
    assert_eq!(table.process(&second), Some(key));
    assert_eq!(table.len(), 1);
    assert_eq!(table.get(key), Some(ConnState { rx_win: 1024, seq_num: 8, ack_num: 9 }));
    let udp = Mbuf::from_bytes(&udp_frame(), &mut mp).unwrap();
    assert_eq!(table.process(&udp), None);
    assert_eq!(table.len(), 1);
    assert_eq!(table.get(key + 1), None);
}

#[test]
fn incoming_packets_are_forwarded_to_the_client_of_their_destination() {
    let (mut mp, mut table, engine, mut p) = setup();
    let mut routes = RoutingTable::new();
    assert_eq!(p.add_client(&mut table), Ok(2));
    assert_eq!(p.add_client(&mut table), Ok(3));
    routes.add_client(2, octets_to_u32(&[192, 168, 0, 2]));
    routes.add_client(3, octets_to_u32(&[192, 168, 0, 3]));
    for (port, dst) in [(1u16, [192, 168, 0, 3]), (2, [192, 168, 0, 9]), (3, [192, 168, 0, 2])] {
        let b = Mbuf::from_bytes(&tcp_frame(port, dst), &mut mp).unwrap();
        assert!(engine.send_to_client(&mut table, b).is_ok());
    }
    assert_eq!(p.recv_from_engine_burst(&mut table), Ok(3));
    assert_eq!(p.forward_incoming_packets(&routes, &mut table, &mut mp), 2);
    assert_eq!(p.incoming_len(), 0);
    // the packet without a route was dropped and its buffer freed
    assert_eq!(p.dropped_count(), 1);
    assert_eq!(mp.in_use(), 2);
    let second = Channel::lookup(&table, 2).unwrap();
    let third = Channel::lookup(&table, 3).unwrap();
    assert_eq!(second.receive_from_engine(&mut table).unwrap().data()[35], 3);
    assert_eq!(third.receive_from_engine(&mut table).unwrap().data()[35], 1);
}

#[test]
fn outgoing_packets_are_collected_from_each_client_in_turn() {
    let (mut mp, mut table, _engine, mut p) = setup();
    assert_eq!(p.add_client(&mut table), Ok(2));
    assert_eq!(p.add_client(&mut table), Ok(3));
    assert_eq!(p.add_client(&mut table), Ok(4));
    let second = Channel::lookup(&table, 2).unwrap();
    let fourth = Channel::lookup(&table, 4).unwrap();
    for tag in [20u8, 21] {
        assert!(second
            .send_to_engine(&mut table, Mbuf::from_bytes(&[tag], &mut mp).unwrap())
            .is_ok());
    }
    assert!(fourth
        .send_to_engine(&mut table, Mbuf::from_bytes(&[40], &mut mp).unwrap())
        .is_ok());
    // one packet from each client that has one
    assert_eq!(p.store_outgoing(&mut table), 2);
    assert_eq!(p.outgoing_len(), 2);
    assert_eq!(p.store_outgoing(&mut table), 1);
    assert_eq!(p.store_outgoing(&mut table), 0);
    assert_eq!(p.outgoing_len(), 3);
    assert_eq!(table.count(&second.client_to_engine), Some(0));
}

#[test]
fn nothing_is_collected_while_the_queue_towards_the_engine_is_full() {
    let mp = Mempool::new(0, "GLOBAL_MEMPOOL", 64, 256, 16).unwrap();
    let mut mp = mp;
    let mut table = RingTable::new(true, 64);
    Channel::new(&mut table, PACKETISER_ID).unwrap();
    let mut p = Packetiser::new(&mut table, 1).unwrap();
    assert_eq!(p.add_client(&mut table), Ok(2));
    let client = Channel::lookup(&table, 2).unwrap();
    for tag in [1u8, 2] {
        assert!(client
            .send_to_engine(&mut table, Mbuf::from_bytes(&[tag], &mut mp).unwrap())
            .is_ok());
    }
    assert_eq!(p.store_outgoing(&mut table), 1);
    assert_eq!(p.store_outgoing(&mut table), 0);
    assert_eq!(table.count(&client.client_to_engine), Some(1));
}
