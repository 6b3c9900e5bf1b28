//! Reading Ethernet frames.

use k8netd::model::MacAddr;
use k8netd::switch::frame::{FrameError, ParsedFrame};

fn mac(s: &str) -> MacAddr {
    s.parse().unwrap()
}

fn eth_frame(dst: &[u8; 6], src: &[u8; 6], ethertype: u16, payload: &[u8]) -> Vec<u8> {
    let mut frame = Vec::with_capacity(14 + payload.len());
    frame.extend_from_slice(dst);
    frame.extend_from_slice(src);
    frame.extend_from_slice(&ethertype.to_be_bytes());
    frame.extend_from_slice(payload);
    frame
}

#[test]
fn parse_arp_frame_fixture() {
    let frame = [
        0xff, 0xff, 0xff, 0xff, 0xff, 0xff,
        0x02, 0x00, 0x00, 0x00, 0x00, 0x01,
        0x08, 0x06,
        0x00, 0x01,
        0x08, 0x00,
        0x06,
        0x04,
        0x00, 0x01,
        0x02, 0x00, 0x00, 0x00, 0x00, 0x01,
        0xc0, 0xa8, 0x7c, 0x0a,
        0x00, 0x00, 0x00, 0x00, 0x00, 0x00,
        0xc0, 0xa8, 0x7c, 0x01,
    ];
    let parsed = ParsedFrame::parse(&frame).expect("valid ARP frame");
    assert_eq!(parsed.dst, mac("ff:ff:ff:ff:ff:ff"));
    assert_eq!(parsed.src, mac("02:00:00:00:00:01"));
    assert_eq!(parsed.ethertype, 0x0806);
    assert_eq!(parsed.payload.len(), 28);
    assert_eq!(parsed.payload[0..2], [0x00, 0x01]);
    assert_eq!(parsed.payload[24..28], [0xc0, 0xa8, 0x7c, 0x01]);
    assert_eq!(parsed.payload, &frame[14..]);
}

#[test]
fn parse_ipv4_frame_fixture() {
    let payload = [
        0x45, 0x00, 0x00, 0x1c, 0x00, 0x01, 0x00, 0x00, 0x40, 0x01, 0x00, 0x00, 0xc0, 0xa8, 0x7c, 0x0a, 0xc0, 0xa8,
        0x7c, 0x01,
    ];
    let frame = eth_frame(
        &[0x02, 0x00, 0x00, 0x00, 0x00, 0x02],
        &[0x02, 0x00, 0x00, 0x00, 0x00, 0x01],
        0x0800,
        &payload,
    );
    let parsed = ParsedFrame::parse(&frame).expect("valid IPv4 frame");
    assert_eq!(parsed.dst, mac("02:00:00:00:00:02"));
    assert_eq!(parsed.src, mac("02:00:00:00:00:01"));
    assert_eq!(parsed.ethertype, 0x0800);
    assert_eq!(parsed.payload, payload.as_slice());
    assert_eq!(parsed.payload, &frame[14..]);
}

#[test]
fn parse_broadcast_dst_mac() {
    let frame = eth_frame(
        &[0xff, 0xff, 0xff, 0xff, 0xff, 0xff],
        &[0x02, 0x00, 0x00, 0x00, 0x00, 0x01],
        0x0800,
        &[0xde, 0xad, 0xbe, 0xef],
    );
    let parsed = ParsedFrame::parse(&frame).expect("broadcast frame parses");
    assert_eq!(parsed.dst, mac("ff:ff:ff:ff:ff:ff"));
}

#[test]
fn parse_zero_src_mac() {
    let frame = eth_frame(
        &[0x02, 0x00, 0x00, 0x00, 0x00, 0x02],
        &[0x00, 0x00, 0x00, 0x00, 0x00, 0x00],
        0x0806,
        &[0x00; 8],
    );
    let parsed = ParsedFrame::parse(&frame).expect("zero source MAC parses");
    assert_eq!(parsed.src, mac("00:00:00:00:00:00"));
    assert_eq!(parsed.ethertype, 0x0806);
}

#[test]
fn parse_unknown_ethertype_is_not_error() {
    let frame = eth_frame(
        &[0x02, 0x00, 0x00, 0x00, 0x00, 0x02],
        &[0x02, 0x00, 0x00, 0x00, 0x00, 0x01],
        0x88b5,
        &[0xaa, 0xbb],
    );
    let parsed = ParsedFrame::parse(&frame).expect("unknown ethertype parses");
    assert_eq!(parsed.ethertype, 0x88b5);
    assert_eq!(parsed.payload, [0xaa, 0xbb]);
}

#[test]
fn parse_exact_14_byte_header_no_payload() {
    let frame = eth_frame(
        &[0x02, 0x00, 0x00, 0x00, 0x00, 0x02],
        &[0x02, 0x00, 0x00, 0x00, 0x00, 0x01],
        0x0800,
        &[],
    );
    let parsed = ParsedFrame::parse(&frame).expect("header-only frame parses");
    assert_eq!(parsed.ethertype, 0x0800);
    assert!(parsed.payload.is_empty());
}

#[test]
fn parse_frame_shorter_than_header_is_error() {
    let short = [
        0x02, 0x00, 0x00, 0x00, 0x00, 0x01, 0x02, 0x00, 0x00, 0x00, 0x00, 0x02, 0x08,
    ];
    let err = ParsedFrame::parse(&short).expect_err("13-byte frame must be rejected");
    assert!(matches!(err, FrameError::TooShort { .. }));
}

#[test]
fn parse_empty_frame_is_error() {
    let err = ParsedFrame::parse(&[]).expect_err("empty frame must be rejected");
    assert!(matches!(err, FrameError::TooShort { .. }));
}

#[test]
fn parse_vlan_tagged_frame_skips_tag() {
    let mut frame = Vec::with_capacity(18 + 4);
    frame.extend_from_slice(&[0x02, 0x00, 0x00, 0x00, 0x00, 0x02]);
    frame.extend_from_slice(&[0x02, 0x00, 0x00, 0x00, 0x00, 0x01]);
    frame.extend_from_slice(&[0x81, 0x00]);
    frame.extend_from_slice(&[0x00, 0x64]);
    frame.extend_from_slice(&[0x08, 0x00]);
    frame.extend_from_slice(&[0xde, 0xad, 0xbe, 0xef]);
    let parsed = ParsedFrame::parse(&frame).expect("tagged frame parses");
    assert_eq!(parsed.ethertype, 0x0800);
    assert_eq!(parsed.payload, [0xde, 0xad, 0xbe, 0xef]);
    assert_eq!(parsed.payload, &frame[18..]);
}
