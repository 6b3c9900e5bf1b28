//! The forwarding engine.

use k8netd::switch::engine::Switch;
use k8netd::switch::mac_table::PortId;

const MAC_A: [u8; 6] = [0x02, 0x00, 0x00, 0x00, 0x00, 0x01];
const MAC_B: [u8; 6] = [0x02, 0x00, 0x00, 0x00, 0x00, 0x02];
const MAC_C: [u8; 6] = [0x02, 0x00, 0x00, 0x00, 0x00, 0x03];
const MAC_X: [u8; 6] = [0x02, 0x00, 0x00, 0x00, 0x00, 0x0a];
const BCAST: [u8; 6] = [0xff, 0xff, 0xff, 0xff, 0xff, 0xff];
const IGMP: [u8; 6] = [0x01, 0x00, 0x5e, 0x00, 0x00, 0x01];
const IPV4: u16 = 0x0800;

fn eth_frame(dst: &[u8; 6], src: &[u8; 6], ethertype: u16, payload: &[u8]) -> Vec<u8> {
    let mut frame = Vec::with_capacity(14 + payload.len());
    frame.extend_from_slice(dst);
    frame.extend_from_slice(src);
    frame.extend_from_slice(&ethertype.to_be_bytes());
    frame.extend_from_slice(payload);
    frame
}

fn egress(out: &[(PortId, &[u8])]) -> Vec<PortId> {
    let mut ports: Vec<PortId> = out.iter().map(|(port, _)| *port).collect();
    ports.sort_by_key(|port| port.0);
    ports
}

fn assert_frames_unmodified(out: &[(PortId, &[u8])], frame: &[u8]) {
    for (_, delivered) in out {
        assert_eq!(*delivered, frame);
    }
}

fn lab_switch() -> Switch {
    let mut sw = Switch::new();
    sw.add_port(PortId(1), "lab");
    sw.add_port(PortId(2), "lab");
    sw.add_port(PortId(3), "lab");
    sw
}

fn two_network_switch() -> Switch {
    let mut sw = Switch::new();
    sw.add_port(PortId(1), "lab");
    sw.add_port(PortId(2), "lab");
    sw.add_port(PortId(3), "lab");
    sw.add_port(PortId(9), "staging");
    sw
}

#[test]
fn known_unicast_delivered_only_to_learned_port() {
    let mut sw = lab_switch();
    let from_b = eth_frame(&MAC_X, &MAC_B, IPV4, &[]);
    let out = sw.forward(PortId(2), &from_b);
    assert_eq!(egress(&out), vec![PortId(1), PortId(3)]);
    let from_a = eth_frame(&MAC_B, &MAC_A, IPV4, &[0xde, 0xad]);
    let out = sw.forward(PortId(1), &from_a);
    assert_eq!(egress(&out), vec![PortId(2)]);
    assert_frames_unmodified(&out, &from_a);
    let from_c = eth_frame(&MAC_A, &MAC_C, IPV4, &[0xbe, 0xef]);
    let out = sw.forward(PortId(3), &from_c);
    assert_eq!(egress(&out), vec![PortId(1)]);
}

#[test]
fn an_answer_finds_its_way_back_past_other_stations() {
    for (others, ports) in [(0, vec![PortId(1)]), (1022, vec![PortId(1)]), (1023, vec![PortId(1), PortId(3)])] {
        let mut sw = lab_switch();
        sw.forward(PortId(1), &eth_frame(&BCAST, &MAC_A, IPV4, &[1]));
        for i in 0..others as u16 {
            let [hi, lo] = i.to_be_bytes();
            sw.forward(PortId(3), &eth_frame(&BCAST, &[0x02, 1, 1, 1, hi, lo], IPV4, &[2]));
        }
        let answer = eth_frame(&MAC_A, &MAC_B, IPV4, &[3]);
        assert_eq!(egress(&sw.forward(PortId(2), &answer)), ports, "after {others} other stations");
    }
}

#[test]
fn tagged_frame_forwarded_like_untagged() {
    let mut sw = lab_switch();
    let mut tagged = Vec::new();
    tagged.extend_from_slice(&MAC_X);
    tagged.extend_from_slice(&MAC_B);
    tagged.extend_from_slice(&[0x81, 0x00]);
    tagged.extend_from_slice(&[0x00, 0x64]);
    tagged.extend_from_slice(&[0x08, 0x00]);
    tagged.extend_from_slice(&[0xde, 0xad]);
    let out = sw.forward(PortId(2), &tagged);
    assert_eq!(egress(&out), vec![PortId(1), PortId(3)]);
    let from_a = eth_frame(&MAC_B, &MAC_A, IPV4, &[0xbe, 0xef]);
    let out = sw.forward(PortId(1), &from_a);
    assert_eq!(egress(&out), vec![PortId(2)]);
}

#[test]
fn unknown_unicast_floods_all_ports_except_source() {
    let mut sw = lab_switch();
    let frame = eth_frame(&MAC_X, &MAC_A, IPV4, &[0xde, 0xad]);
    let out = sw.forward(PortId(1), &frame);
    assert_eq!(egress(&out), vec![PortId(2), PortId(3)]);
    assert_frames_unmodified(&out, &frame);
}

#[test]
fn flood_reaches_port_that_never_transmitted() {
    let mut sw = lab_switch();
    let from_b = eth_frame(&MAC_X, &MAC_B, IPV4, &[]);
    let out = sw.forward(PortId(2), &from_b);
    assert_eq!(egress(&out), vec![PortId(1), PortId(3)]);
    let frame = eth_frame(&MAC_X, &MAC_A, IPV4, &[0xde, 0xad]);
    let out = sw.forward(PortId(1), &frame);
    assert_eq!(egress(&out), vec![PortId(2), PortId(3)]);
}

#[test]
fn broadcast_floods_all_ports_except_source() {
    let mut sw = lab_switch();
    let frame = eth_frame(&BCAST, &MAC_A, IPV4, &[0xde, 0xad]);
    let out = sw.forward(PortId(1), &frame);
    assert_eq!(egress(&out), vec![PortId(2), PortId(3)]);
    assert_frames_unmodified(&out, &frame);
}

#[test]
fn multicast_floods_even_when_dst_learned() {
    let mut sw = lab_switch();
    let pathological = eth_frame(&MAC_X, &IGMP, IPV4, &[]);
    let out = sw.forward(PortId(2), &pathological);
    assert_eq!(egress(&out), vec![PortId(1), PortId(3)]);
    let frame = eth_frame(&IGMP, &MAC_A, IPV4, &[0xde, 0xad]);
    let out = sw.forward(PortId(1), &frame);
    assert_eq!(egress(&out), vec![PortId(2), PortId(3)]);
}

#[test]
fn broadcast_floods_even_when_dst_learned() {
    let mut sw = lab_switch();
    let pathological = eth_frame(&MAC_X, &BCAST, IPV4, &[]);
    let out = sw.forward(PortId(2), &pathological);
    assert_eq!(egress(&out), vec![PortId(1), PortId(3)]);
    let frame = eth_frame(&BCAST, &MAC_A, IPV4, &[0xde, 0xad]);
    let out = sw.forward(PortId(1), &frame);
    assert_eq!(egress(&out), vec![PortId(2), PortId(3)]);
}

#[test]
fn cross_network_learned_dst_floods_within_ingress_network() {
    let mut sw = two_network_switch();
    let from_d = eth_frame(&MAC_B, &MAC_X, IPV4, &[]);
    let out = sw.forward(PortId(9), &from_d);
    assert!(out.is_empty());
    let frame = eth_frame(&MAC_X, &MAC_A, IPV4, &[0xde, 0xad]);
    let out = sw.forward(PortId(1), &frame);
    assert_eq!(egress(&out), vec![PortId(2), PortId(3)]);
    assert_frames_unmodified(&out, &frame);
}

#[test]
fn broadcast_never_crosses_networks() {
    let mut sw = two_network_switch();
    let frame = eth_frame(&BCAST, &MAC_A, IPV4, &[0xde, 0xad]);
    let out = sw.forward(PortId(1), &frame);
    assert_eq!(egress(&out), vec![PortId(2), PortId(3)]);
    let from_d = eth_frame(&BCAST, &MAC_X, IPV4, &[0xde, 0xad]);
    let out = sw.forward(PortId(9), &from_d);
    assert!(out.is_empty());
}

#[test]
fn no_echo_to_ingress_port() {
    let mut sw = lab_switch();
    let from_a = eth_frame(&MAC_X, &MAC_A, IPV4, &[]);
    let out = sw.forward(PortId(1), &from_a);
    assert_eq!(egress(&out), vec![PortId(2), PortId(3)]);
    let self_addr = eth_frame(&MAC_A, &MAC_A, IPV4, &[0xde, 0xad]);
    let out = sw.forward(PortId(1), &self_addr);
    assert!(out.is_empty());
}

#[test]
fn learning_happens_before_forwarding() {
    let mut sw = lab_switch();
    let from_a = eth_frame(&MAC_X, &MAC_A, IPV4, &[0xde, 0xad]);
    let out = sw.forward(PortId(1), &from_a);
    assert_eq!(egress(&out), vec![PortId(2), PortId(3)]);
    let from_b = eth_frame(&MAC_A, &MAC_B, IPV4, &[0xbe, 0xef]);
    let out = sw.forward(PortId(2), &from_b);
    assert_eq!(egress(&out), vec![PortId(1)]);
}

#[test]
fn single_port_network_has_no_flood_destination() {
    let mut sw = Switch::new();
    sw.add_port(PortId(1), "lab");
    let frame = eth_frame(&MAC_X, &MAC_A, IPV4, &[0xde, 0xad]);
    let out = sw.forward(PortId(1), &frame);
    assert!(out.is_empty());
}

#[test]
fn mac_moved_between_ports_relearns() {
    let mut sw = lab_switch();
    let from_a = eth_frame(&MAC_C, &MAC_X, IPV4, &[]);
    let out = sw.forward(PortId(1), &from_a);
    assert_eq!(egress(&out), vec![PortId(2), PortId(3)]);
    let from_b = eth_frame(&MAC_C, &MAC_X, IPV4, &[0x01]);
    let out = sw.forward(PortId(2), &from_b);
    assert_eq!(egress(&out), vec![PortId(1), PortId(3)]);
    let from_c = eth_frame(&MAC_X, &MAC_C, IPV4, &[0x02]);
    let out = sw.forward(PortId(3), &from_c);
    assert_eq!(egress(&out), vec![PortId(2)]);
}

#[test]
fn frame_at_unknown_port_is_dropped_and_not_learned() {
    let mut sw = lab_switch();
    let frame = eth_frame(&MAC_X, &MAC_X, IPV4, &[0xde, 0xad]);
    let out = sw.forward(PortId(99), &frame);
    assert!(out.is_empty());
    let from_a = eth_frame(&MAC_X, &MAC_A, IPV4, &[0xbe, 0xef]);
    let out = sw.forward(PortId(1), &from_a);
    assert_eq!(egress(&out), vec![PortId(2), PortId(3)]);
}

#[test]
fn malformed_frame_is_dropped_and_switch_stays_usable() {
    let mut sw = lab_switch();
    let short = [
        0x02, 0x00, 0x00, 0x00, 0x00, 0x01, 0x02, 0x00, 0x00, 0x00, 0x00, 0x02, 0x08,
    ];
    let out = sw.forward(PortId(1), &short);
    assert!(out.is_empty());
    let frame = eth_frame(&MAC_X, &MAC_A, IPV4, &[0xde, 0xad]);
    let out = sw.forward(PortId(1), &frame);
    assert_eq!(egress(&out), vec![PortId(2), PortId(3)]);
}

#[test]
fn removed_port_stops_sending_and_receiving() {
    let mut sw = lab_switch();
    let from_b = eth_frame(&MAC_X, &MAC_B, IPV4, &[]);
    let out = sw.forward(PortId(2), &from_b);
    assert_eq!(egress(&out), vec![PortId(1), PortId(3)]);
    assert!(sw.remove_port(PortId(2)));
    let at_b = eth_frame(&MAC_X, &MAC_B, IPV4, &[0x01]);
    let out = sw.forward(PortId(2), &at_b);
    assert!(out.is_empty());
    let from_a = eth_frame(&MAC_B, &MAC_A, IPV4, &[0x02]);
    let out = sw.forward(PortId(1), &from_a);
    assert!(out.is_empty());
    let bcast = eth_frame(&BCAST, &MAC_A, IPV4, &[0x03]);
    let out = sw.forward(PortId(1), &bcast);
    assert_eq!(egress(&out), vec![PortId(3)]);
    assert!(!sw.remove_port(PortId(99)));
}
