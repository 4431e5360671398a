use pnet::packet::tcp::{ipv4_checksum, MutableTcpPacket, TcpFlags, TcpOption, TcpPacket};
use pnet::packet::Packet;

use hype::config::TCP_PORTS;
use hype::ipv4::Ipv4Addr;
use hype::tcp_syn::{build_syn, is_alive_reply, reply_port, syn_segments, write_syn, TCP_HEADER_LEN};

fn std_ip(ip: Ipv4Addr) -> core::net::Ipv4Addr {
    core::net::Ipv4Addr::new(ip.a, ip.b, ip.c, ip.d)
}

/// The segment as the pnet packet builder writes it.
fn pnet_syn(buf: &mut [u8], src: Ipv4Addr, dst: Ipv4Addr, sport: u16, dport: u16, seq: u32) {
    let mut tcp = MutableTcpPacket::new(buf).unwrap();
    tcp.set_source(sport);
    tcp.set_destination(dport);
    tcp.set_sequence(seq);
    tcp.set_acknowledgement(0);
    tcp.set_data_offset(8);
    tcp.set_flags(TcpFlags::SYN);
    tcp.set_window(64240);
    tcp.set_urgent_ptr(0);
    tcp.set_options(&[
        TcpOption::mss(1460),
        TcpOption::sack_perm(),
        TcpOption::nop(),
        TcpOption::nop(),
        TcpOption::wscale(7),
    ]);
    let csum = ipv4_checksum(&tcp.to_immutable(), &std_ip(src), &std_ip(dst));
    tcp.set_checksum(csum);
}

#[test]
fn write_syn_matches_pnet_builder_on_zeroed_buffer() {
    let src = Ipv4Addr::new(192, 168, 1, 10);
    let dst = Ipv4Addr::new(93, 184, 216, 34);
    let mut ours = [0u8; TCP_HEADER_LEN];
    let mut theirs = [0u8; TCP_HEADER_LEN];
    write_syn(&mut ours, src, dst, 40000, 443, 0x12345678);
    pnet_syn(&mut theirs, src, dst, 40000, 443, 0x12345678);
    assert_eq!(ours, theirs);
    assert_eq!(
        &ours[..16],
        &[0x9c, 0x40, 0x01, 0xbb, 0x12, 0x34, 0x56, 0x78, 0, 0, 0, 0, 0x80, 0x02, 0xfa, 0xf0]
    );
    assert_eq!(&ours[18..], &[0, 0, 2, 4, 5, 180, 4, 2, 1, 1, 3, 3, 7, 0]);
}

#[test]
fn write_syn_matches_pnet_builder_on_dirty_longer_buffer() {
    let src = Ipv4Addr::new(10, 0, 0, 1);
    let dst = Ipv4Addr::new(10, 0, 0, 2);
    let mut ours = [0xabu8; 40];
    let mut theirs = [0xabu8; 40];
    write_syn(&mut ours, src, dst, 32768, 22, 7);
    pnet_syn(&mut theirs, src, dst, 32768, 22, 7);
    assert_eq!(ours, theirs);
    assert_eq!(ours[12], 0x8b);
    assert_eq!(ours[31], 0xab);
}

#[test]
fn write_syn_matches_pnet_builder_on_shortest_buffer() {
    let src = Ipv4Addr::new(172, 16, 0, 1);
    let dst = Ipv4Addr::new(172, 16, 0, 2);
    let mut ours = [0x11u8; 31];
    let mut theirs = [0x11u8; 31];
    write_syn(&mut ours, src, dst, 60999, 445, 0xfffffffe);
    pnet_syn(&mut theirs, src, dst, 60999, 445, 0xfffffffe);
    assert_eq!(ours, theirs);
}

#[test]
fn checksum_depends_on_addresses_and_verifies() {
    let a = Ipv4Addr::new(1, 2, 3, 4);
    let b = Ipv4Addr::new(5, 6, 7, 8);
    let c = Ipv4Addr::new(5, 6, 7, 9);
    let mut x = [0u8; TCP_HEADER_LEN];
    let mut y = [0u8; TCP_HEADER_LEN];
    write_syn(&mut x, a, b, 50000, 80, 1);
    write_syn(&mut y, a, c, 50000, 80, 1);
    assert_ne!(&x[16..18], &y[16..18]);
    assert_eq!(&x[..16], &y[..16]);
    // the checksum field holds what pnet computes for the finished segment
    let packet = TcpPacket::new(&x).unwrap();
    assert_eq!(packet.get_checksum(), ipv4_checksum(&packet, &std_ip(a), &std_ip(b)));
}

#[test]
fn build_syn_writes_its_random_sequence() {
    let src = Ipv4Addr::new(192, 0, 2, 1);
    let dst = Ipv4Addr::new(198, 51, 100, 7);
    let mut buf = [0u8; TCP_HEADER_LEN];
    let seq = build_syn(&mut buf, src, dst, 45000, 3389);
    let mut expected = [0u8; TCP_HEADER_LEN];
    write_syn(&mut expected, src, dst, 45000, 3389, seq);
    assert_eq!(buf, expected);
    let packet = TcpPacket::new(&buf).unwrap();
    assert_eq!(packet.get_sequence(), seq);
    assert_eq!(packet.get_destination(), 3389);
    assert_eq!(packet.get_source(), 45000);
}

#[test]
fn syn_segments_cover_configured_ports_in_order() {
    let src = Ipv4Addr::new(10, 9, 8, 7);
    let dst = Ipv4Addr::new(10, 9, 8, 6);
    let segs = syn_segments(src, dst, 33333);
    assert_eq!(segs.len(), TCP_PORTS.len());
    for (k, (bytes, seq)) in segs.iter().enumerate() {
        assert_eq!(bytes.len(), TCP_HEADER_LEN);
        let mut expected = [0u8; TCP_HEADER_LEN];
        pnet_syn(&mut expected, src, dst, 33333, TCP_PORTS[k], *seq);
        assert_eq!(bytes.as_slice(), &expected[..]);
    }
}

#[test]
fn replies_are_matched_by_flags() {
    assert!(is_alive_reply(TcpFlags::SYN | TcpFlags::ACK));
    assert!(is_alive_reply(TcpFlags::RST));
    assert!(is_alive_reply(TcpFlags::RST | TcpFlags::ACK));
    assert!(!is_alive_reply(TcpFlags::SYN));
    assert!(!is_alive_reply(TcpFlags::ACK));
    assert!(!is_alive_reply(TcpFlags::FIN | TcpFlags::ACK));
    assert!(!is_alive_reply(0));
}

#[test]
fn reply_port_reads_destination_of_answers() {
    let mut seg = [0u8; 20];
    {
        let mut tcp = MutableTcpPacket::new(&mut seg).unwrap();
        tcp.set_source(443);
        tcp.set_destination(40001);
        tcp.set_flags(TcpFlags::SYN | TcpFlags::ACK);
    }
    assert_eq!(reply_port(&seg), Some(40001));
    seg[13] = TcpFlags::RST;
    assert_eq!(reply_port(&seg), Some(40001));
    seg[13] = TcpFlags::ACK;
    assert_eq!(reply_port(&seg), None);
    assert_eq!(reply_port(&seg[..19]), None);
}

#[test]
fn own_syn_is_not_a_reply() {
    let mut buf = [0u8; TCP_HEADER_LEN];
    write_syn(&mut buf, Ipv4Addr::new(1, 1, 1, 1), Ipv4Addr::new(2, 2, 2, 2), 40000, 80, 9);
    assert_eq!(reply_port(&buf), None);
    assert_eq!(TcpPacket::new(&buf).unwrap().packet().len(), TCP_HEADER_LEN);
}
