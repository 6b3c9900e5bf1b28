//! The gateway of a network.

use k8netd::model::{IpPool, Ipv4Addr, Network};
use k8netd::switch::gateway::{Gateway, GatewayAction};
use k8netd::switch::mac_table::PortId;

const MAC_A: [u8; 6] = [0x02, 0x00, 0x00, 0x00, 0x00, 0x01];
const MAC_B: [u8; 6] = [0x02, 0x00, 0x00, 0x00, 0x00, 0x02];
const MAC_D: [u8; 6] = [0x02, 0x00, 0x00, 0x00, 0x00, 0x09];
const BCAST: [u8; 6] = [0xff, 0xff, 0xff, 0xff, 0xff, 0xff];
const ZERO: [u8; 6] = [0x00; 6];
const GW_MAC_LAB: [u8; 6] = [0x02, 0x00, 0xc0, 0xa8, 0x7c, 0x01];
const ARP: u16 = 0x0806;
const IPV4: u16 = 0x0800;

fn ip(a: u8, b: u8, c: u8, d: u8) -> Ipv4Addr {
    Ipv4Addr::new(a, b, c, d)
}

fn eth_frame(dst: &[u8; 6], src: &[u8; 6], ethertype: u16, payload: &[u8]) -> Vec<u8> {
    let mut frame = Vec::with_capacity(14 + payload.len());
    frame.extend_from_slice(dst);
    frame.extend_from_slice(src);
    frame.extend_from_slice(&ethertype.to_be_bytes());
    frame.extend_from_slice(payload);
    frame
}

fn arp_payload(op: u16, sha: &[u8; 6], spa: Ipv4Addr, tha: &[u8; 6], tpa: Ipv4Addr) -> Vec<u8> {
    let mut p = Vec::with_capacity(28);
    p.extend_from_slice(&1u16.to_be_bytes());
    p.extend_from_slice(&0x0800u16.to_be_bytes());
    p.push(6);
    p.push(4);
    p.extend_from_slice(&op.to_be_bytes());
    p.extend_from_slice(sha);
    p.extend_from_slice(&spa.octets());
    p.extend_from_slice(tha);
    p.extend_from_slice(&tpa.octets());
    p
}

fn arp_frame(
    dst: &[u8; 6],
    src: &[u8; 6],
    op: u16,
    sha: &[u8; 6],
    spa: Ipv4Addr,
    tha: &[u8; 6],
    tpa: Ipv4Addr,
) -> Vec<u8> {
    eth_frame(dst, src, ARP, &arp_payload(op, sha, spa, tha, tpa))
}

fn ipv4_header(src: Ipv4Addr, dst: Ipv4Addr) -> Vec<u8> {
    let mut h = Vec::with_capacity(20);
    h.push(0x45);
    h.push(0x00);
    h.extend_from_slice(&20u16.to_be_bytes());
    h.extend_from_slice(&0u16.to_be_bytes());
    h.extend_from_slice(&0x4000u16.to_be_bytes());
    h.push(64);
    h.push(17);
    h.extend_from_slice(&0u16.to_be_bytes());
    h.extend_from_slice(&src.octets());
    h.extend_from_slice(&dst.octets());
    h
}

fn ipv4_frame(dst: &[u8; 6], src: &[u8; 6], src_ip: Ipv4Addr, dst_ip: Ipv4Addr) -> Vec<u8> {
    eth_frame(dst, src, IPV4, &ipv4_header(src_ip, dst_ip))
}

fn lab_network() -> Network {
    Network::new(
        "lab",
        "192.168.124.0/24",
        "192.168.124.1",
        IpPool::new(ip(192, 168, 124, 10), ip(192, 168, 124, 200)).unwrap(),
    )
    .unwrap()
}

fn staging_network() -> Network {
    Network::new(
        "staging",
        "10.0.0.0/24",
        "10.0.0.1",
        IpPool::new(ip(10, 0, 0, 10), ip(10, 0, 0, 200)).unwrap(),
    )
    .unwrap()
}

fn lab_gateway() -> Gateway {
    let mut gw = Gateway::new();
    gw.add_network(&lab_network());
    gw.add_port(PortId(1), "lab");
    gw.add_port(PortId(2), "lab");
    gw
}

fn two_network_gateway() -> Gateway {
    let mut gw = Gateway::new();
    gw.add_network(&lab_network());
    gw.add_network(&staging_network());
    gw.add_port(PortId(1), "lab");
    gw.add_port(PortId(2), "lab");
    gw.add_port(PortId(9), "staging");
    gw
}

#[test]
fn arp_request_for_gateway_answered_with_gateway_mac() {
    let gw = lab_gateway();
    let frame = arp_frame(
        &GW_MAC_LAB,
        &MAC_A,
        1,
        &MAC_A,
        ip(192, 168, 124, 10),
        &ZERO,
        ip(192, 168, 124, 1),
    );
    let expected = arp_frame(
        &MAC_A,
        &GW_MAC_LAB,
        2,
        &GW_MAC_LAB,
        ip(192, 168, 124, 1),
        &MAC_A,
        ip(192, 168, 124, 10),
    );
    match gw.handle_frame(PortId(1), &frame) {
        GatewayAction::ArpReply(reply) => assert_eq!(reply, expected),
        other => panic!("expected ArpReply, got {other:?}"),
    }
}

#[test]
fn arp_request_for_peer_address_not_answered() {
    let gw = lab_gateway();
    let frame = arp_frame(
        &BCAST,
        &MAC_A,
        1,
        &MAC_A,
        ip(192, 168, 124, 10),
        &ZERO,
        ip(192, 168, 124, 20),
    );
    assert!(matches!(gw.handle_frame(PortId(1), &frame), GatewayAction::L2));
}

#[test]
fn arp_request_for_outside_address_not_answered() {
    let gw = lab_gateway();
    let frame = arp_frame(&BCAST, &MAC_A, 1, &MAC_A, ip(192, 168, 124, 10), &ZERO, ip(10, 0, 0, 5));
    assert!(matches!(gw.handle_frame(PortId(1), &frame), GatewayAction::L2));
}

#[test]
fn non_local_ipv4_routed_to_ingress_own_wan() {
    let gw = lab_gateway();
    let frame = ipv4_frame(&GW_MAC_LAB, &MAC_A, ip(192, 168, 124, 10), ip(8, 8, 8, 8));
    match gw.handle_frame(PortId(1), &frame) {
        GatewayAction::Wan(wan) => assert_eq!(wan, &frame),
        other => panic!("expected Wan, got {other:?}"),
    }
}

#[test]
fn non_local_ipv4_on_second_network_routed_to_wan() {
    let gw = two_network_gateway();
    let frame = ipv4_frame(&BCAST, &MAC_D, ip(10, 0, 0, 10), ip(9, 9, 9, 9));
    match gw.handle_frame(PortId(9), &frame) {
        GatewayAction::Wan(wan) => assert_eq!(wan, &frame),
        other => panic!("expected Wan, got {other:?}"),
    }
}

#[test]
fn local_ipv4_between_vms_bypasses_wan() {
    let gw = lab_gateway();
    let frame = ipv4_frame(&MAC_B, &MAC_A, ip(192, 168, 124, 10), ip(192, 168, 124, 20));
    assert!(matches!(gw.handle_frame(PortId(1), &frame), GatewayAction::L2));
}

#[test]
fn local_ipv4_to_gateway_ip_bypasses_wan() {
    let gw = lab_gateway();
    let frame = ipv4_frame(&GW_MAC_LAB, &MAC_A, ip(192, 168, 124, 10), ip(192, 168, 124, 1));
    assert!(matches!(gw.handle_frame(PortId(1), &frame), GatewayAction::L2));
}

#[test]
fn non_ip_non_arp_ethertype_is_l2_only() {
    let gw = lab_gateway();
    let frame = eth_frame(&BCAST, &MAC_A, 0x88b5, &[0xaa, 0xbb]);
    assert!(matches!(gw.handle_frame(PortId(1), &frame), GatewayAction::L2));
}

#[test]
fn arp_reply_is_not_answered() {
    let gw = lab_gateway();
    let frame = arp_frame(
        &GW_MAC_LAB,
        &MAC_A,
        2,
        &MAC_A,
        ip(192, 168, 124, 10),
        &GW_MAC_LAB,
        ip(192, 168, 124, 1),
    );
    assert!(matches!(gw.handle_frame(PortId(1), &frame), GatewayAction::L2));
}

#[test]
fn arp_request_for_other_network_gateway_not_answered() {
    let gw = two_network_gateway();
    let from_d = arp_frame(&BCAST, &MAC_D, 1, &MAC_D, ip(10, 0, 0, 10), &ZERO, ip(192, 168, 124, 1));
    assert!(matches!(gw.handle_frame(PortId(9), &from_d), GatewayAction::L2));
    let from_a = arp_frame(&BCAST, &MAC_A, 1, &MAC_A, ip(192, 168, 124, 10), &ZERO, ip(10, 0, 0, 1));
    assert!(matches!(gw.handle_frame(PortId(1), &from_a), GatewayAction::L2));
}

#[test]
fn non_local_ipv4_with_short_ip_header_not_routed() {
    let gw = lab_gateway();
    let frame = eth_frame(&GW_MAC_LAB, &MAC_A, IPV4, &[0x45, 0x00, 0x00, 0x04]);
    assert!(matches!(gw.handle_frame(PortId(1), &frame), GatewayAction::L2));
}

#[test]
fn non_local_ipv4_with_ihl_below_minimum_not_routed() {
    let gw = lab_gateway();
    let mut header = ipv4_header(ip(192, 168, 124, 10), ip(8, 8, 8, 8));
    header[0] = 0x40;
    let frame = eth_frame(&GW_MAC_LAB, &MAC_A, IPV4, &header);
    assert!(matches!(gw.handle_frame(PortId(1), &frame), GatewayAction::L2));
}

#[test]
fn non_local_ipv4_from_unattached_port_not_routed() {
    let mut gw = lab_gateway();
    let frame = ipv4_frame(&GW_MAC_LAB, &MAC_A, ip(192, 168, 124, 10), ip(8, 8, 8, 8));
    assert!(matches!(gw.handle_frame(PortId(77), &frame), GatewayAction::L2));
    gw.add_port(PortId(77), "lab");
    match gw.handle_frame(PortId(77), &frame) {
        GatewayAction::Wan(wan) => assert_eq!(wan, &frame),
        other => panic!("expected Wan while attached, got {other:?}"),
    }
    assert!(gw.remove_port(PortId(77)));
    assert!(matches!(gw.handle_frame(PortId(77), &frame), GatewayAction::L2));
}

#[test]
fn two_ports_same_network_each_route_to_own_wan() {
    let gw = lab_gateway();
    let from_a = ipv4_frame(&GW_MAC_LAB, &MAC_A, ip(192, 168, 124, 10), ip(8, 8, 8, 8));
    let from_b = ipv4_frame(&GW_MAC_LAB, &MAC_B, ip(192, 168, 124, 11), ip(9, 9, 9, 9));
    assert_ne!(from_a, from_b);
    match gw.handle_frame(PortId(1), &from_a) {
        GatewayAction::Wan(wan) => assert_eq!(wan, &from_a, "A's WAN must get A's frame"),
        other => panic!("expected Wan for A, got {other:?}"),
    }
    match gw.handle_frame(PortId(2), &from_b) {
        GatewayAction::Wan(wan) => assert_eq!(wan, &from_b, "B's WAN must get B's frame"),
        other => panic!("expected Wan for B, got {other:?}"),
    }
}

#[test]
fn broadcast_arp_for_gateway_answered_unicast_reply() {
    let gw = lab_gateway();
    let frame = arp_frame(
        &BCAST,
        &MAC_A,
        1,
        &MAC_A,
        ip(192, 168, 124, 10),
        &ZERO,
        ip(192, 168, 124, 1),
    );
    let expected = arp_frame(
        &MAC_A,
        &GW_MAC_LAB,
        2,
        &GW_MAC_LAB,
        ip(192, 168, 124, 1),
        &MAC_A,
        ip(192, 168, 124, 10),
    );
    match gw.handle_frame(PortId(1), &frame) {
        GatewayAction::ArpReply(reply) => assert_eq!(reply, expected),
        other => panic!("expected ArpReply, got {other:?}"),
    }
}

#[test]
fn port_on_unknown_network_is_l2() {
    let mut gw = Gateway::new();
    gw.add_port(PortId(5), "ghost");
    let frame = arp_frame(
        &BCAST,
        &MAC_A,
        1,
        &MAC_A,
        ip(192, 168, 124, 10),
        &ZERO,
        ip(192, 168, 124, 1),
    );
    assert!(matches!(gw.handle_frame(PortId(5), &frame), GatewayAction::L2));
}
