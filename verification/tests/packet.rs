//! Packets in frames.

use k8netd::model::{Ipv4Addr, MacAddr};
use k8netd::packet::{ethertype, gateway_icmp_reply, hex_prefix, inet_checksum, ipv4_checksum, parse_ipv4};

const HEADER: [u8; 20] = [
    0x45, 0x00, 0x00, 0x73, 0x00, 0x00, 0x40, 0x00, 0x40, 0x11, 0x00, 0x00, 0xc0, 0xa8, 0x00, 0x01, 0xc0, 0xa8, 0x00,
    0xc7,
];

fn frame_with(packet: &[u8]) -> Vec<u8> {
    let mut f = vec![2, 0, 0, 0, 0, 2, 2, 0, 0, 0, 0, 1, 8, 0];
    f.extend_from_slice(packet);
    f
}

#[test]
fn checksums_of_known_headers() {
    assert_eq!(ipv4_checksum(&HEADER), 0xb861);
    assert_eq!(inet_checksum(&HEADER), 0xb861);
    assert_eq!(inet_checksum(&[]), 0xffff);
    assert_eq!(inet_checksum(&[0x01]), 0xfeff, "an odd byte is the high byte of a word");
    let mut full = HEADER;
    full[10..12].copy_from_slice(&0xb861u16.to_be_bytes());
    assert_eq!(inet_checksum(&full), 0, "a header with its checksum sums up to nothing");
}

#[test]
fn ethertypes_of_frames() {
    assert_eq!(ethertype(&frame_with(&[])), Some(0x0800));
    assert_eq!(ethertype(&frame_with(&[])[..13]), None);
}

#[test]
fn packets_are_read_by_their_header() {
    let mut packet = HEADER.to_vec();
    packet.extend_from_slice(&[1, 2, 3]);
    let f = frame_with(&packet);
    let p = parse_ipv4(&f).unwrap();
    assert_eq!(p.src, Ipv4Addr::new(192, 168, 0, 1));
    assert_eq!(p.dst, Ipv4Addr::new(192, 168, 0, 199));
    assert_eq!(p.proto, 17);
    assert_eq!(p.payload, &[1, 2, 3]);
}

#[test]
fn what_is_no_packet_is_not_read() {
    assert!(parse_ipv4(&frame_with(&[])).is_none());
    assert!(parse_ipv4(&frame_with(&HEADER[..19])).is_none());
    let mut six = HEADER;
    six[0] = 0x65;
    assert!(parse_ipv4(&frame_with(&six)).is_none(), "another version");
    let mut short = HEADER;
    short[0] = 0x44;
    assert!(parse_ipv4(&frame_with(&short)).is_none(), "a header that is too short");
    let mut odd = HEADER;
    odd[9] = 200;
    assert!(parse_ipv4(&frame_with(&odd)).is_none(), "no known protocol");
    let mut arp = frame_with(&HEADER);
    arp[13] = 6;
    assert!(parse_ipv4(&arp).is_none(), "no IPv4");
}

#[test]
fn compact_headers_end_a_byte_earlier() {
    let mut compact = HEADER.to_vec();
    compact.remove(8);
    compact.extend_from_slice(&[9, 9]);
    let f = frame_with(&compact);
    let p = parse_ipv4(&f).unwrap();
    assert_eq!(p.proto, 17);
    assert_eq!(p.dst, Ipv4Addr::new(192, 168, 0, 199));
    assert_eq!(p.payload, &[9, 9]);
}

#[test]
fn options_are_passed_over() {
    for words in 6..=15u8 {
        let mut packet = HEADER.to_vec();
        packet[0] = 0x40 | words;
        // Options that hold the numbers of protocols.
        packet.extend_from_slice(&vec![6; usize::from(words - 5) * 4]);
        packet.extend_from_slice(&[1, 2, 3]);
        let f = frame_with(&packet);
        let p = parse_ipv4(&f).unwrap();
        assert_eq!(p.src, Ipv4Addr::new(192, 168, 0, 1));
        assert_eq!(p.dst, Ipv4Addr::new(192, 168, 0, 199));
        assert_eq!(p.proto, 17);
        assert_eq!(p.payload, &[1, 2, 3]);
        assert!(parse_ipv4(&f[..f.len() - 4]).is_none(), "cut in the options");
        let mut odd = f.clone();
        odd[23] = 200;
        odd[22] = 17;
        assert!(parse_ipv4(&odd).is_none(), "no compact form with options");
    }
}

#[test]
fn echo_replies_keep_the_options() {
    let gateway = Ipv4Addr::new(192, 168, 0, 199);
    let mac = MacAddr::from_bytes([2, 0, 0, 0, 0, 1]);
    let mut packet = HEADER.to_vec();
    packet[0] = 0x46;
    packet[9] = 1;
    packet.extend_from_slice(&[0x94, 4, 0, 0]);
    packet.extend_from_slice(&[8, 0, 0, 0, 0, 1, 0, 1, 7]);
    let reply = gateway_icmp_reply(&frame_with(&packet), mac, gateway).unwrap();
    let p = parse_ipv4(&reply).unwrap();
    assert_eq!((p.src, p.dst), (gateway, Ipv4Addr::new(192, 168, 0, 1)));
    assert_eq!(p.payload[0], 0, "an echo reply");
    assert_eq!(&p.payload[4..], &[0, 1, 0, 1, 7]);
    assert_eq!(&reply[34..38], &[0x94, 4, 0, 0]);
    assert_eq!(inet_checksum(&reply[14..38]), 0);
    assert_eq!(inet_checksum(p.payload), 0);
}

#[test]
fn only_echo_requests_for_the_gateway_are_answered() {
    let gateway = Ipv4Addr::new(192, 168, 0, 199);
    let mac = MacAddr::from_bytes([2, 0, 0, 0, 0, 1]);
    let mut packet = HEADER.to_vec();
    packet[9] = 1;
    packet.extend_from_slice(&[8, 0, 0, 0, 0, 1, 0, 1]);
    assert!(gateway_icmp_reply(&frame_with(&packet), mac, gateway).is_some());
    assert!(gateway_icmp_reply(&frame_with(&packet), mac, Ipv4Addr::new(192, 168, 0, 1)).is_none());
    assert!(gateway_icmp_reply(&frame_with(&packet[..27]), mac, gateway).is_none(), "cut short");
    let mut reply = packet.clone();
    reply[20] = 0;
    assert!(gateway_icmp_reply(&frame_with(&reply), mac, gateway).is_none(), "no request");
    let mut udp = packet.clone();
    udp[9] = 17;
    assert!(gateway_icmp_reply(&frame_with(&udp), mac, gateway).is_none(), "no ICMP");
}

#[test]
fn frames_are_shown_by_their_first_bytes() {
    assert_eq!(hex_prefix(&[0x00, 0xab, 0xff]), "00abff");
    assert_eq!(hex_prefix(&[0x11; 40]), "11".repeat(16));
    assert_eq!(hex_prefix(&[]), "");
}
