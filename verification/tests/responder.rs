use l3engine::mbuf::Mbuf;
use l3engine::mempool::Mempool;
use l3engine::net::checksum::checksum;
use l3engine::net::ipv4hdr::{octets_to_u32, u32_to_octets, Ipv4Hdr};
use l3engine::net::mac::{parse_mac, EtherAddr, MacAddr};
use l3engine::net::wire::{
    build_arp_reply, build_echo_reply, echo_request, ether_type, ipv4_payload_offset, read_be16,
    read_be32, read_mac, tcp_offset,
};
use l3engine::server::{IpNetwork, Server};

const LOCAL_MAC: [u8; 6] = [0x90, 0xe2, 0xba, 0x87, 0x6b, 0xa4];
const REMOTE_MAC: [u8; 6] = [0x02, 0x00, 0x00, 0x00, 0x00, 0x05];

fn ip(a: u8, b: u8, c: u8, d: u8) -> u32 {
    octets_to_u32(&[a, b, c, d])
}

fn pool() -> Mempool {
    Mempool::new(0, "GLOBAL_MEMPOOL", 8, 2048, 128).unwrap()
}

fn server() -> Server {
    let mut s = Server::new();
    s.add(
        "port0",
        "first port",
        0,
        Some(MacAddr(LOCAL_MAC)),
        vec![IpNetwork { addr: ip(10, 10, 1, 1), prefix: 24 }],
        0,
    );
    s
}

fn arp_request(target: [u8; 4]) -> Vec<u8> {
    let mut f = Vec::new();
    f.extend_from_slice(&[0xff; 6]);
    f.extend_from_slice(&REMOTE_MAC);
    f.extend_from_slice(&[0x08, 0x06]);
    f.extend_from_slice(&[0x00, 0x01, 0x08, 0x00, 6, 4, 0x00, 0x01]);
    f.extend_from_slice(&REMOTE_MAC);
    f.extend_from_slice(&[10, 0, 0, 5]);
    f.extend_from_slice(&[0; 6]);
    f.extend_from_slice(&target);
    f
}

fn echo_request_frame(dst: [u8; 4]) -> Vec<u8> {
    let mut f = Vec::new();
    f.extend_from_slice(&LOCAL_MAC);
    f.extend_from_slice(&REMOTE_MAC);
    f.extend_from_slice(&[0x08, 0x00]);
    // IPv4 header: 20 bytes, total length 28, protocol 1
    f.extend_from_slice(&[0x45, 0x00, 0x00, 28, 0, 0, 0, 0, 64, 1, 0, 0]);
    f.extend_from_slice(&[10, 0, 0, 5]);
    f.extend_from_slice(&dst);
    // ICMP: echo request, code 0, checksum, identifier 0x1234, sequence 1
    f.extend_from_slice(&[8, 0, 0xe5, 0xca, 0x12, 0x34, 0x00, 0x01]);
    f
}

#[test]
fn checksum_of_a_known_header() {
    let header = [
        0x45, 0x00, 0x00, 0x73, 0x00, 0x00, 0x40, 0x00, 0x40, 0x11, 0x00, 0x00, 0xc0, 0xa8, 0x00,
        0x01, 0xc0, 0xa8, 0x00, 0xc7,
    ];
    assert_eq!(checksum(&header), 0xb861);
    assert_eq!(checksum(&[]), 0xffff);
    assert_eq!(checksum(&[0x01]), 0xfeff);
    assert_eq!(checksum(&[0xff, 0xff, 0xff, 0xff]), 0x0000);
    assert_eq!(checksum(&[0, 0, 0, 0, 0x12, 0x34, 0x00, 0x01]), 0xedca);
}

#[test]
fn numbers_are_read_high_byte_first() {
    let data = [0x12, 0x34, 0x56, 0x78, 0x9a];
    assert_eq!(read_be16(&data, 0), 0x1234);
    assert_eq!(read_be16(&data, 3), 0x789a);
    assert_eq!(read_be32(&data, 1), 0x3456789a);
    assert_eq!(u32_to_octets(0x0a0a0101), [10, 10, 1, 1]);
    assert_eq!(octets_to_u32(&[10, 10, 1, 1]), 0x0a0a0101);
    assert_eq!(Server::ipaddr_to_u32(&[192, 168, 0, 2]), 0xc0a80002);
}

#[test]
fn hardware_addresses_convert() {
    let mac = MacAddr(LOCAL_MAC);
    assert_eq!(MacAddr::into_ether_addr(mac), EtherAddr { addr_bytes: LOCAL_MAC });
    assert_eq!(MacAddr::from_ether_addr(EtherAddr { addr_bytes: LOCAL_MAC }), mac);
    assert_eq!(mac.to_ethernetaddr().as_bytes(), &LOCAL_MAC[..]);
    assert_eq!(
        MacAddr(REMOTE_MAC).to_ethernetaddr(),
        smoltcp::wire::EthernetAddress([0x02, 0, 0, 0, 0, 0x05])
    );
    assert!(mac.same(&MacAddr(LOCAL_MAC)));
    assert!(!mac.same(&MacAddr(REMOTE_MAC)));
    assert_eq!(parse_mac(REMOTE_MAC), REMOTE_MAC);
    assert_eq!(read_mac(&arp_request([10, 10, 1, 1]), 6), MacAddr(REMOTE_MAC));
}

#[test]
fn frames_are_told_apart() {
    let arp = arp_request([10, 10, 1, 1]);
    let echo = echo_request_frame([10, 10, 1, 1]);
    assert_eq!(ether_type(&arp), Some(0x0806));
    assert_eq!(ether_type(&echo), Some(0x0800));
    assert_eq!(ether_type(&arp[..13]), None);
    assert_eq!(ipv4_payload_offset(&echo), Some(34));
    assert_eq!(ipv4_payload_offset(&arp), None);
    assert_eq!(ipv4_payload_offset(&echo[..33]), None);
    assert!(echo_request(&echo));
    assert!(!echo_request(&arp));
    assert_eq!(tcp_offset(&echo), None);
    let mut reply = echo.clone();
    reply[34] = 0;
    assert!(!echo_request(&reply));
    let mut bad_version = echo.clone();
    bad_version[14] = 0x65;
    assert_eq!(ipv4_payload_offset(&bad_version), None);
}

#[test]
fn arp_for_local_ip() {
    let mut mp = pool();
    let s = server();
    let req = Mbuf::from_bytes(&arp_request([10, 10, 1, 1]), &mut mp).unwrap();
    assert_eq!(s.detect_arp(&req), Some((ip(10, 10, 1, 1), ip(10, 0, 0, 5))));
    let reply = s.send_arp_reply(req, &mut mp).unwrap();
    let f = reply.data();
    assert_eq!(f.len(), 42);
    // the frame goes back to the sender of the request
    assert_eq!(&f[0..6], &REMOTE_MAC);
    assert_eq!(&f[6..12], &[0xff; 6]);
    assert_eq!(&f[12..14], &[0x08, 0x06]);
    assert_eq!(&f[14..20], &[0x00, 0x01, 0x08, 0x00, 6, 4]);
    // operation: reply
    assert_eq!(&f[20..22], &[0x00, 0x02]);
    // sender: the local binding
    assert_eq!(&f[22..28], &LOCAL_MAC);
    assert_eq!(&f[28..32], &[10, 10, 1, 1]);
    // target: the sender of the request
    assert_eq!(&f[32..38], &REMOTE_MAC);
    assert_eq!(&f[38..42], &[10, 0, 0, 5]);
    // the request went back to the pool, the reply is the only buffer out
    assert_eq!(mp.in_use(), 1);
    assert_eq!(
        Some(f),
        build_arp_reply(&arp_request([10, 10, 1, 1]), &MacAddr(LOCAL_MAC), ip(10, 10, 1, 1))
    );
    assert_eq!(build_arp_reply(&echo_request_frame([10, 10, 1, 1]), &MacAddr(LOCAL_MAC), 1), None);
}

#[test]
fn arp_for_non_local_ip() {
    let mut mp = pool();
    let s = server();
    let req = Mbuf::from_bytes(&arp_request([10, 10, 1, 2]), &mut mp).unwrap();
    assert_eq!(s.detect_arp(&req), None);
    assert!(s.send_arp_reply(req, &mut mp).is_none());
    assert_eq!(mp.in_use(), 0);
}

#[test]
fn arp_reply_comes_from_the_buffer_of_the_request_when_the_pool_is_exhausted() {
    let mut mp = Mempool::new(0, "GLOBAL_MEMPOOL", 1, 2048, 128).unwrap();
    let s = server();
    let req = Mbuf::from_bytes(&arp_request([10, 10, 1, 1]), &mut mp).unwrap();
    assert_eq!(mp.free_count(), 0);
    assert!(s.send_arp_reply(req, &mut mp).is_some());
    assert_eq!(mp.free_count(), 0);
}

#[test]
fn interfaces_without_hardware_address_bind_nothing() {
    let mut mp = pool();
    let mut s = Server::new();
    s.add("lo", "", 0, None, vec![IpNetwork { addr: ip(10, 10, 1, 1), prefix: 8 }], 0);
    assert_eq!(s.get_mac_by_ip(ip(10, 10, 1, 1)), None);
    let req = Mbuf::from_bytes(&arp_request([10, 10, 1, 1]), &mut mp).unwrap();
    assert_eq!(s.detect_arp(&req), None);
    s.add(
        "port1",
        "",
        1,
        Some(MacAddr(LOCAL_MAC)),
        vec![
            IpNetwork { addr: ip(10, 10, 2, 1), prefix: 24 },
            IpNetwork { addr: ip(10, 10, 1, 1), prefix: 24 },
        ],
        0,
    );
    assert_eq!(s.get_mac_by_ip(ip(10, 10, 1, 1)), Some(MacAddr(LOCAL_MAC)));
    assert_eq!(s.detect_arp(&req), Some((ip(10, 10, 1, 1), ip(10, 0, 0, 5))));
    assert_eq!(IpNetwork { addr: 7, prefix: 8 }.ip(), 7);
}

#[test]
fn icmp_echo() {
    let mut mp = pool();
    let s = server();
    let frame = echo_request_frame([10, 10, 1, 1]);
    let req = Mbuf::from_bytes(&frame, &mut mp).unwrap();
    assert!(s.detect_echo(&req));
    let reply = s.send_echo_reply(req, &mut mp).unwrap();
    let f = reply.data();
    assert_eq!(f.len(), frame.len());
    // hardware addresses have changed places
    assert_eq!(&f[0..6], &REMOTE_MAC);
    assert_eq!(&f[6..12], &LOCAL_MAC);
    assert_eq!(&f[12..14], &[0x08, 0x00]);
    // the rest of the IPv4 header is as it was, the addresses changed places
    assert_eq!(&f[14..26], &frame[14..26]);
    assert_eq!(&f[26..30], &[10, 10, 1, 1]);
    assert_eq!(&f[30..34], &[10, 0, 0, 5]);
    // echo reply, code 0, checksum computed anew
    assert_eq!(f[34], 0);
    assert_eq!(f[35], 0);
    assert_eq!(&f[36..38], &[0xed, 0xca]);
    assert_eq!(&f[38..42], &[0x12, 0x34, 0x00, 0x01]);
    assert_eq!(checksum(&f[34..42]), 0);
    assert_eq!(mp.in_use(), 1);
    assert_eq!(Some(f), build_echo_reply(&frame));
    assert_eq!(build_echo_reply(&arp_request([10, 10, 1, 1])), None);
}

#[test]
fn echo_to_another_address_is_not_answered() {
    let mut mp = pool();
    let s = server();
    let req = Mbuf::from_bytes(&echo_request_frame([10, 10, 1, 2]), &mut mp).unwrap();
    assert!(!s.detect_echo(&req));
    assert!(s.send_echo_reply(req, &mut mp).is_none());
    assert_eq!(mp.in_use(), 0);
}

#[test]
fn echo_reply_keeps_padding_and_payload() {
    let mut frame = echo_request_frame([10, 10, 1, 1]);
    // four bytes of payload, then padding that is not part of the packet
    frame[17] = 32;
    frame.extend_from_slice(&[0xde, 0xad, 0xbe, 0xef]);
    frame.extend_from_slice(&[0x55; 6]);
    let reply = build_echo_reply(&frame).unwrap();
    assert_eq!(reply.len(), frame.len());
    assert_eq!(&reply[42..46], &[0xde, 0xad, 0xbe, 0xef]);
    assert_eq!(&reply[46..], &[0x55; 6]);
    assert_eq!(checksum(&reply[34..46]), 0);
}

#[test]
fn ipv4_header_addresses() {
    let mut mp = pool();
    let b = Mbuf::from_bytes(&echo_request_frame([10, 10, 1, 1]), &mut mp).unwrap();
    let h = Ipv4Hdr::from_mbuf(&b).unwrap();
    assert_eq!(h.get_src_addr(), ip(10, 0, 0, 5));
    assert_eq!(h.get_dst_addr(), ip(10, 10, 1, 1));
    let arp = Mbuf::from_bytes(&arp_request([10, 10, 1, 1]), &mut mp).unwrap();
    assert!(Ipv4Hdr::from_mbuf(&arp).is_none());
}
