use l3engine::engine::{Engine, TX_QUEUE_CACHE_SZ};
use l3engine::error::PortError;
use l3engine::mbuf::Mbuf;
use l3engine::mempool::Mempool;
use l3engine::memring::{Channel, RingTable};
use l3engine::net::ipv4hdr::octets_to_u32;
use l3engine::net::mac::MacAddr;
use l3engine::packetiser::{Packetiser, PACKETISER_ID};
use l3engine::port::{pair_of, DevInfo, Port, PortState};
use l3engine::process::{hash_conn, ConnIdentity, ConnState};
use l3engine::server::{IpNetwork, Server};

const LOCAL_MAC: [u8; 6] = [0x90, 0xe2, 0xba, 0x87, 0x6b, 0xa4];
const REMOTE_MAC: [u8; 6] = [0x02, 0x00, 0x00, 0x00, 0x00, 0x05];

fn server() -> Server {
    let mut s = Server::new();
    s.add(
        "port0",
        "",
        0,
        Some(MacAddr(LOCAL_MAC)),
        vec![IpNetwork { addr: octets_to_u32(&[10, 10, 1, 1]), prefix: 24 }],
        0,
    );
    s
}

fn started_port(mp: &Mempool) -> Port {
    let mut port = Port::new(
        "port0",
        0,
        DevInfo { flow_type_rss_offloads: 0x38d34, tx_offload_capa: 0x1000f },
    );
    port.configure(2, mp).unwrap();
    port.start().unwrap();
    port
}

fn arp_request(target: [u8; 4]) -> Vec<u8> {
    let mut f = Vec::new();
    f.extend_from_slice(&[0xff; 6]);
    f.extend_from_slice(&REMOTE_MAC);
    f.extend_from_slice(&[0x08, 0x06]);
    f.extend_from_slice(&[0x00, 0x01, 0x08, 0x00, 6, 4, 0x00, 0x01]);
    f.extend_from_slice(&REMOTE_MAC);
    f.extend_from_slice(&[10, 0, 0, 5]);
    f.extend_from_slice(&[0; 6]);
    f.extend_from_slice(&target);
    f
}

fn echo_request(dst: [u8; 4]) -> Vec<u8> {
    let mut f = Vec::new();
    f.extend_from_slice(&LOCAL_MAC);
    f.extend_from_slice(&REMOTE_MAC);
    f.extend_from_slice(&[0x08, 0x00]);
    f.extend_from_slice(&[0x45, 0x00, 0x00, 28, 0, 0, 0, 0, 64, 1, 0, 0]);
    f.extend_from_slice(&[10, 0, 0, 5]);
    f.extend_from_slice(&dst);
    f.extend_from_slice(&[8, 0, 0xe5, 0xca, 0x12, 0x34, 0x00, 0x01]);
    f
}

fn tcp_frame(src_port: u16, payload: &[u8]) -> Vec<u8> {
    let mut f = Vec::new();
    f.extend_from_slice(&LOCAL_MAC);
    f.extend_from_slice(&REMOTE_MAC);
    f.extend_from_slice(&[0x08, 0x00]);
    let total = (40 + payload.len()) as u16;
    f.extend_from_slice(&[0x45, 0x00]);
    f.extend_from_slice(&total.to_be_bytes());
    f.extend_from_slice(&[0, 0, 0, 0, 64, 6, 0, 0]);
    f.extend_from_slice(&[10, 0, 0, 5]);
    f.extend_from_slice(&[192, 168, 0, 2]);
    f.extend_from_slice(&src_port.to_be_bytes());
    f.extend_from_slice(&80u16.to_be_bytes());
    f.extend_from_slice(&0x01020304u32.to_be_bytes());
    f.extend_from_slice(&0x0a0b0c0du32.to_be_bytes());
    f.extend_from_slice(&[0x50, 0x10]);
    f.extend_from_slice(&4096u16.to_be_bytes());
    f.extend_from_slice(&[0, 0, 0, 0]);
    f.extend_from_slice(payload);
    f
}

#[test]
fn engine_answers_arp_for_local_ip() {
    let mut mp = Mempool::new(0, "GLOBAL_MEMPOOL", 64, 2048, 128).unwrap();
    let mut port = started_port(&mp);
    let mut engine = Engine::new(server(), TX_QUEUE_CACHE_SZ);
    let n = engine.get_external_pkts(&port, 0, &mut mp, &vec![arp_request([10, 10, 1, 1])]);
    assert_eq!(n, 1);
    assert_eq!(engine.out_len(), 1);
    assert_eq!(engine.to_packetiser_len(), 0);
    assert_eq!(mp.in_use(), 1);
    let mut wire = Vec::new();
    assert_eq!(engine.send_pkts_out(&mut port, 0, 32, &mut mp, &mut wire), 1);
    assert_eq!(wire.len(), 1);
    let f = &wire[0];
    assert_eq!(&f[12..14], &[0x08, 0x06]);
    assert_eq!(&f[20..22], &[0x00, 0x02]);
    assert_eq!(&f[22..28], &LOCAL_MAC);
    assert_eq!(&f[28..32], &[10, 10, 1, 1]);
    assert_eq!(&f[32..38], &REMOTE_MAC);
    assert_eq!(&f[38..42], &[10, 0, 0, 5]);
    assert_eq!(engine.out_len(), 0);
    // the buffer belongs to the card until the card is done with it
    assert_eq!(mp.in_use(), 1);
    assert_eq!(port.on_card_len(), 1);
    assert_eq!(port.tx_done(32, &mut mp), 1);
    assert_eq!(mp.in_use(), 0);
}

#[test]
fn engine_drops_arp_for_non_local_ip() {
    let mut mp = Mempool::new(0, "GLOBAL_MEMPOOL", 64, 2048, 128).unwrap();
    let mut port = started_port(&mp);
    let mut engine = Engine::new(server(), TX_QUEUE_CACHE_SZ);
    let n = engine.get_external_pkts(&port, 0, &mut mp, &vec![arp_request([10, 10, 1, 2])]);
    assert_eq!(n, 1);
    assert_eq!(engine.out_len(), 0);
    assert_eq!(engine.to_packetiser_len(), 0);
    assert_eq!(mp.in_use(), 0);
    let mut wire = Vec::new();
    assert_eq!(engine.send_pkts_out(&mut port, 0, 32, &mut mp, &mut wire), 0);
    assert!(wire.is_empty());
}

#[test]
fn engine_answers_echo_to_local_ip() {
    let mut mp = Mempool::new(0, "GLOBAL_MEMPOOL", 64, 2048, 128).unwrap();
    let mut port = started_port(&mp);
    let mut engine = Engine::new(server(), TX_QUEUE_CACHE_SZ);
    assert_eq!(engine.get_external_pkts(&port, 0, &mut mp, &vec![echo_request([10, 10, 1, 1])]), 1);
    assert_eq!(engine.out_len(), 1);
    let mut wire = Vec::new();
    assert_eq!(engine.send_pkts_out(&mut port, 0, 32, &mut mp, &mut wire), 1);
    let f = &wire[0];
    assert_eq!(&f[0..6], &REMOTE_MAC);
    assert_eq!(&f[6..12], &LOCAL_MAC);
    assert_eq!(&f[26..30], &[10, 10, 1, 1]);
    assert_eq!(&f[30..34], &[10, 0, 0, 5]);
    assert_eq!(&f[34..38], &[0, 0, 0xed, 0xca]);
}

#[test]
fn engine_frees_what_is_neither_arp_nor_ipv4() {
    let mut mp = Mempool::new(0, "GLOBAL_MEMPOOL", 64, 2048, 128).unwrap();
    let mut port = started_port(&mp);
    let mut engine = Engine::new(server(), TX_QUEUE_CACHE_SZ);
    let mut ipv6 = tcp_frame(1, &[]);
    ipv6[12] = 0x86;
    ipv6[13] = 0xdd;
    let runt = vec![1u8, 2, 3];
    assert_eq!(engine.get_external_pkts(&port, 0, &mut mp, &vec![ipv6, runt]), 2);
    assert_eq!(engine.out_len(), 0);
    assert_eq!(engine.to_packetiser_len(), 0);
    assert_eq!(mp.in_use(), 0);
}

#[test]
fn data_packet_goes_through_the_packetiser_and_out() {
    let mut mp = Mempool::new(0, "GLOBAL_MEMPOOL", 64, 2048, 128).unwrap();
    let mut table = RingTable::new(true, 16);
    let mut port = started_port(&mp);
    let mut engine = Engine::new(server(), TX_QUEUE_CACHE_SZ);
    assert_eq!(engine.add_client(&mut table, PACKETISER_ID), Ok(()));
    let mut packetiser = Packetiser::new(&mut table, 512).unwrap();

    let frame = tcp_frame(40000, b"hello");
    assert_eq!(engine.rx_iteration(&port, 0, &mut table, &mut mp, &vec![frame.clone()]), (1, 1));
    assert_eq!(engine.to_packetiser_len(), 0);

    assert_eq!(packetiser.recv_from_engine_burst(&mut table), Ok(1));
    assert_eq!(packetiser.incoming_len(), 1);
    assert_eq!(packetiser.process_incoming(&mut mp), 1);
    assert_eq!(packetiser.connection_count(), 1);
    let key = hash_conn(ConnIdentity::new(
        octets_to_u32(&[192, 168, 0, 2]),
        LOCAL_MAC,
        80,
        octets_to_u32(&[10, 0, 0, 5]),
        REMOTE_MAC,
        40000,
    ));
    assert_eq!(
        packetiser.connection(key),
        Some(ConnState { rx_win: 4096, seq_num: 0x01020304, ack_num: 0x0a0b0c0d })
    );
    assert_eq!(packetiser.dropped_count(), 0);
    assert_eq!(packetiser.send_to_engine_bulk(&mut table, &mut mp), 1);

    let mut wire = Vec::new();
    assert_eq!(engine.tx_iteration(&mut port, 0, 32, &mut table, &mut mp, &mut wire), (0, 1));
    assert_eq!(wire, vec![frame]);
    assert_eq!(mp.in_use(), 1);
    assert_eq!(port.tx_done(1, &mut mp), 1);
    assert_eq!(mp.in_use(), 0);
}

#[test]
fn ring_back_pressure() {
    let capacity = 64;
    let mut mp = Mempool::new(0, "GLOBAL_MEMPOOL", 256, 256, 16).unwrap();
    let mut port = started_port(&mp);
    let mut engine = Engine::new(server(), capacity);
    for _ in 0..capacity - 1 {
        engine.push_out(Mbuf::from_bytes(&[1, 2, 3], &mut mp).unwrap());
    }
    assert_eq!(engine.out_len(), capacity - 1);
    assert!(!engine.rx_ready());
    let free_before = mp.free_count();
    let burst: Vec<Vec<u8>> = (0..32).map(|_| arp_request([10, 10, 1, 1])).collect();
    assert_eq!(engine.get_external_pkts(&port, 0, &mut mp, &burst), 0);
    assert_eq!(engine.out_len(), capacity - 1);
    assert_eq!(mp.free_count(), free_before);
}

#[test]
fn receive_step_is_ready_while_a_whole_burst_fits() {
    let mut mp = Mempool::new(0, "GLOBAL_MEMPOOL", 256, 256, 16).unwrap();
    let mut port = started_port(&mp);
    let mut engine = Engine::new(server(), 33);
    assert!(engine.rx_ready());
    engine.push_out(Mbuf::from_bytes(&[1], &mut mp).unwrap());
    assert!(engine.rx_ready());
    engine.push_out(Mbuf::from_bytes(&[1], &mut mp).unwrap());
    assert!(!engine.rx_ready());
    let mut wire = Vec::new();
    assert_eq!(engine.send_pkts_out(&mut port, 0, 1, &mut mp, &mut wire), 1);
    assert_eq!(engine.out_len(), 0);
    // one buffer is with the card, the one that the card refused is free
    assert_eq!(mp.in_use(), 1);
    assert_eq!(port.on_card_len(), 1);
}

#[test]
fn a_burst_takes_thirty_two_frames() {
    let mut mp = Mempool::new(0, "GLOBAL_MEMPOOL", 256, 256, 16).unwrap();
    let mut table = RingTable::new(true, 16);
    let mut port = started_port(&mp);
    let mut engine = Engine::new(server(), TX_QUEUE_CACHE_SZ);
    engine.add_client(&mut table, PACKETISER_ID).unwrap();
    let frames: Vec<Vec<u8>> = (0..40).map(|i| tcp_frame(1000 + i, &[])).collect();
    assert_eq!(engine.get_external_pkts(&port, 0, &mut mp, &frames), 32);
    assert_eq!(engine.to_packetiser_len(), 32);
    assert_eq!(mp.in_use(), 32);
    assert_eq!(engine.send_to_packetiser(&mut table, &mut mp), 32);
    assert_eq!(engine.to_packetiser_len(), 0);
    let client = Channel::lookup(&table, PACKETISER_ID).unwrap();
    assert_eq!(table.count(&client.engine_to_client), Some(32));
}

#[test]
fn packets_for_a_packetiser_that_is_not_there_are_freed() {
    let mut mp = Mempool::new(0, "GLOBAL_MEMPOOL", 64, 256, 16).unwrap();
    let mut table = RingTable::new(true, 16);
    let mut port = started_port(&mp);
    let mut engine = Engine::new(server(), TX_QUEUE_CACHE_SZ);
    assert_eq!(engine.get_external_pkts(&port, 0, &mut mp, &vec![tcp_frame(1, &[])]), 1);
    assert_eq!(mp.in_use(), 1);
    assert_eq!(engine.send_to_packetiser(&mut table, &mut mp), 0);
    assert_eq!(engine.to_packetiser_len(), 0);
    assert_eq!(mp.in_use(), 0);
    assert_eq!(engine.dropped_count(), 1);
}

#[test]
fn frames_that_the_card_refuses_are_freed() {
    let mut mp = Mempool::new(0, "GLOBAL_MEMPOOL", 64, 256, 16).unwrap();
    let mut port = started_port(&mp);
    let mut engine = Engine::new(server(), TX_QUEUE_CACHE_SZ);
    for tag in 0..5u8 {
        engine.push_out(Mbuf::from_bytes(&[tag], &mut mp).unwrap());
    }
    let mut wire = Vec::new();
    assert_eq!(engine.dropped_count(), 0);
    let free_before = mp.free_count();
    assert_eq!(engine.send_pkts_out(&mut port, 0, 2, &mut mp, &mut wire), 2);
    assert_eq!(wire, vec![vec![0u8], vec![1u8]]);
    assert_eq!(engine.out_len(), 0);
    // exactly the three refused buffers went back to the pool
    assert_eq!(mp.free_count(), free_before + 3);
    assert_eq!(mp.in_use(), 2);
    assert_eq!(port.on_card_len(), 2);
    assert_eq!(engine.dropped_count(), 3);
    assert_eq!(port.tx_done(1, &mut mp), 1);
    assert_eq!(mp.in_use(), 1);
    assert_eq!(port.tx_done(5, &mut mp), 1);
    assert_eq!(port.tx_done(5, &mut mp), 0);
    assert_eq!(mp.in_use(), 0);
}

#[test]
fn what_the_packetiser_returned_waits_while_the_out_queue_is_full() {
    let mut mp = Mempool::new(0, "GLOBAL_MEMPOOL", 64, 256, 16).unwrap();
    let mut table = RingTable::new(true, 16);
    let mut engine = Engine::new(server(), 2);
    engine.add_client(&mut table, PACKETISER_ID).unwrap();
    let client = Channel::lookup(&table, PACKETISER_ID).unwrap();
    for tag in 0..3u8 {
        assert!(client
            .send_to_engine(&mut table, Mbuf::from_bytes(&[tag], &mut mp).unwrap())
            .is_ok());
    }
    assert_eq!(engine.get_from_packetiser(&mut table), 1);
    assert_eq!(engine.out_len(), 2);
    assert_eq!(engine.from_packetiser_len(), 1);
    let mut port = started_port(&mp);
    let mut wire = Vec::new();
    assert_eq!(engine.send_pkts_out(&mut port, 0, 32, &mut mp, &mut wire), 2);
    assert_eq!(engine.get_from_packetiser(&mut table), 0);
    assert_eq!(engine.send_pkts_out(&mut port, 0, 32, &mut mp, &mut wire), 1);
    assert_eq!(wire, vec![vec![0u8], vec![1u8], vec![2u8]]);
}

#[test]
fn port_is_set_up_for_receive_side_scaling() {
    let mp = Mempool::new(0, "GLOBAL_MEMPOOL", 4, 256, 16).unwrap();
    let mut port = Port::new(
        "port0",
        3,
        DevInfo { flow_type_rss_offloads: 0x38d34, tx_offload_capa: 0x1000f },
    );
    assert_eq!(port.get_name(), "port0");
    assert!(!port.is_started());
    assert_eq!(port.start(), Err(PortError::Invalid));
    let conf = port.configure(3, &mp).unwrap();
    assert_eq!(conf.queues, 4);
    assert_eq!(conf.rx_mq_mode, 1);
    assert_eq!(conf.max_rx_pkt_len, 1518);
    assert_eq!(conf.rx_offloads, 0xe);
    assert_eq!(conf.rss_hf, 0x3fffc & 0x38d34);
    assert_eq!(conf.rss_key.len(), 40);
    assert!(conf.rss_key.chunks(2).all(|c| c == [0x6d, 0x5a]));
    assert_eq!(conf.tx_offloads, 0x1000e);
    assert_eq!(conf.rx_pool, 0);
    assert_eq!(conf.rx_desc, 512);
    assert_eq!(conf.tx_desc, 512);
    assert!(conf.promiscuous);
    assert_eq!(port.state, PortState::Configured);
    assert_eq!(port.configure(2, &mp).err(), Some(PortError::Invalid));
    assert_eq!(port.start(), Ok(()));
    assert!(port.is_started());
    port.stop();
    assert_eq!(port.state, PortState::Stopped);
}

#[test]
fn port_without_fast_free_and_with_an_even_number_of_cores() {
    let mp = Mempool::new(0, "GLOBAL_MEMPOOL", 4, 256, 16).unwrap();
    let mut port = Port::new("port1", 1, DevInfo { flow_type_rss_offloads: 0, tx_offload_capa: 0xf });
    assert_eq!(port.configure(0, &mp).err(), Some(PortError::Invalid));
    assert_eq!(port.configure(65535, &mp).err(), Some(PortError::Invalid));
    let conf = port.configure(2, &mp).unwrap();
    assert_eq!(conf.queues, 2);
    assert_eq!(conf.tx_offloads, 0xe);
    assert_eq!(conf.rss_hf, 0);
}

#[test]
fn a_port_that_is_not_started_neither_receives_nor_sends() {
    let mut mp = Mempool::new(0, "GLOBAL_MEMPOOL", 4, 256, 16).unwrap();
    let mut port = Port::new("port0", 0, DevInfo { flow_type_rss_offloads: 0, tx_offload_capa: 0 });
    assert!(port.receive(0, &mut mp, &vec![vec![1u8, 2, 3]]).is_empty());
    let b = Mbuf::from_bytes(&[1], &mut mp).unwrap();
    let mut wire = Vec::new();
    assert_eq!(port.send(vec![b], 1, 32, &mut mp, &mut wire), 0);
    assert!(wire.is_empty());
    assert_eq!(port.on_card_len(), 0);
    assert_eq!(mp.in_use(), 0);
}

#[test]
fn receive_loses_frames_that_find_no_buffer() {
    let mut mp = Mempool::new(0, "GLOBAL_MEMPOOL", 2, 8, 0).unwrap();
    let mut port = started_port(&mp);
    let frames = vec![vec![1u8; 9], vec![], vec![2u8; 8], vec![3u8], vec![4u8]];
    let pkts = port.receive(0, &mut mp, &frames);
    assert_eq!(pkts.len(), 2);
    assert_eq!(pkts[0].data(), vec![2u8; 8]);
    assert_eq!(pkts[1].data(), vec![3u8]);
    assert_eq!(mp.free_count(), 0);
}

#[test]
fn queues_come_in_pairs() {
    let mut mp = Mempool::new(0, "GLOBAL_MEMPOOL", 8, 256, 16).unwrap();
    assert_eq!(pair_of(0), 1);
    assert_eq!(pair_of(1), 0);
    assert_eq!(pair_of(6), 7);
    let mut port = Port::new("port0", 0, DevInfo { flow_type_rss_offloads: 0, tx_offload_capa: 0 });
    assert_eq!(port.queues, 0);
    port.configure(3, &mp).unwrap();
    port.start().unwrap();
    assert_eq!(port.queues, 4);
    // queue 3 is the last one; there is no queue 4
    assert_eq!(port.receive(3, &mut mp, &vec![vec![1u8]]).len(), 1);
    assert!(port.receive(4, &mut mp, &vec![vec![1u8]]).is_empty());
    assert_eq!(port.burst_size(3, 40), 32);
    assert_eq!(port.burst_size(3, 7), 7);
    assert_eq!(port.burst_size(4, 40), 0);
    let b = Mbuf::from_bytes(&[7], &mut mp).unwrap();
    let mut wire = Vec::new();
    assert_eq!(port.send(vec![b], 4, 32, &mut mp, &mut wire), 0);
    assert!(wire.is_empty());
    let mut engine = Engine::new(server(), TX_QUEUE_CACHE_SZ);
    engine.push_out(Mbuf::from_bytes(&[8], &mut mp).unwrap());
    // receive queue 2 goes with transmit queue 3
    assert_eq!(engine.send_pkts_out(&mut port, 2, 32, &mut mp, &mut wire), 1);
    assert_eq!(wire, vec![vec![8u8]]);
}

#[test]
fn a_frame_that_finds_no_buffer_is_not_received() {
    let mut own = Mempool::new(0, "GLOBAL_MEMPOOL", 1, 256, 16).unwrap();
    let mut port = started_port(&own);
    let mut engine = Engine::new(server(), TX_QUEUE_CACHE_SZ);
    let held = Mbuf::from_bytes(&[1], &mut own).unwrap();
    assert_eq!(own.free_count(), 0);
    assert_eq!(engine.get_external_pkts(&port, 0, &mut own, &vec![arp_request([10, 10, 1, 1])]), 0);
    assert_eq!(engine.out_len(), 0);
    // the frame that found the pool exhausted is lost, and counted
    assert_eq!(engine.dropped_count(), 1);
    assert_eq!(own.free(held), Ok(()));
    // the reply takes the buffer that the request gave back
    assert_eq!(engine.get_external_pkts(&port, 0, &mut own, &vec![arp_request([10, 10, 1, 1])]), 1);
    assert_eq!(engine.out_len(), 1);
    assert_eq!(own.free_count(), 0);
    assert_eq!(engine.dropped_count(), 1);
}

#[test]
fn a_burst_that_the_card_takes_whole_frees_nothing() {
    let mut mp = Mempool::new(0, "GLOBAL_MEMPOOL", 8, 256, 16).unwrap();
    let mut port = started_port(&mp);
    let pkts = vec![
        Mbuf::from_bytes(&[1], &mut mp).unwrap(),
        Mbuf::from_bytes(&[2], &mut mp).unwrap(),
    ];
    let free_before = mp.free_count();
    let mut wire = Vec::new();
    assert_eq!(port.send(pkts, 1, 2, &mut mp, &mut wire), 2);
    assert_eq!(mp.free_count(), free_before);
    assert_eq!(port.on_card_len(), 2);
    let one = vec![Mbuf::from_bytes(&[3], &mut mp).unwrap()];
    assert_eq!(port.send(one, 1, 0, &mut mp, &mut wire), 0);
    assert_eq!(mp.free_count(), free_before);
    assert_eq!(wire, vec![vec![1u8], vec![2u8]]);
}
