//! The DHCP server.

use dhcproto::v4::{Decodable, DhcpOption, Encodable, Flags, Message, MessageType, Opcode, OptionCode};
use k8netd::dhcp::{DhcpMessage, DhcpServer};
use k8netd::ipam::Ipam;
use k8netd::model::{IpPool, Ipv4Addr, MacAddr, Network};

const XID: u32 = 0x1122_3344;
const GATEWAY: Ipv4Addr = Ipv4Addr { a: 192, b: 168, c: 124, d: 1 };
const NOWHERE: [u8; 4] = [0, 0, 0, 0];
const LEASE_SECONDS: u32 = 3600;

const MAC_A: &str = "02:00:00:00:00:01";
const MAC_B: &str = "02:00:00:00:00:02";
const MAC_C: &str = "02:00:00:00:00:03";
const MAC_R: &str = "02:00:00:00:00:05";

fn ip(a: u8, b: u8, c: u8, d: u8) -> Ipv4Addr {
    Ipv4Addr::new(a, b, c, d)
}

fn from_octets(o: [u8; 4]) -> Ipv4Addr {
    Ipv4Addr::new(o[0], o[1], o[2], o[3])
}

fn yiaddr(msg: &Message) -> Ipv4Addr {
    from_octets(msg.yiaddr().octets())
}

fn mac(s: &str) -> MacAddr {
    s.parse().unwrap()
}

fn mac_bytes(s: &str) -> [u8; 6] {
    let mut out = [0u8; 6];
    for (i, part) in s.split(':').enumerate() {
        out[i] = u8::from_str_radix(part, 16).unwrap();
    }
    out
}

fn lab_pool() -> IpPool {
    IpPool::new(ip(192, 168, 124, 10), ip(192, 168, 124, 200)).unwrap()
}

fn lab_network() -> Network {
    Network::new("lab", "192.168.124.0/24", "192.168.124.1", lab_pool()).unwrap()
}

fn small_network() -> Network {
    let pool = IpPool::new(ip(192, 168, 124, 10), ip(192, 168, 124, 12)).unwrap();
    Network::new("small", "192.168.124.0/24", "192.168.124.1", pool).unwrap()
}

fn net28_network() -> Network {
    let pool = IpPool::new(ip(192, 168, 124, 10), ip(192, 168, 124, 14)).unwrap();
    Network::new("net28", "192.168.124.0/28", "192.168.124.1", pool).unwrap()
}

fn server() -> DhcpServer {
    DhcpServer::new(Ipam::new(lab_network()))
}

fn discover(xid: u32, addr: &str) -> Message {
    let mut msg = Message::new_with_id(
        xid,
        NOWHERE.into(),
        NOWHERE.into(),
        NOWHERE.into(),
        NOWHERE.into(),
        &mac_bytes(addr),
    );
    msg.opts_mut().insert(DhcpOption::MessageType(MessageType::Discover));
    msg
}

fn request(xid: u32, addr: &str, requested: Option<Ipv4Addr>) -> Message {
    let mut msg = Message::new_with_id(
        xid,
        NOWHERE.into(),
        NOWHERE.into(),
        NOWHERE.into(),
        NOWHERE.into(),
        &mac_bytes(addr),
    );
    msg.opts_mut().insert(DhcpOption::MessageType(MessageType::Request));
    if let Some(ip) = requested {
        msg.opts_mut().insert(DhcpOption::RequestedIpAddress(ip.octets().into()));
    }
    msg
}

fn renew(xid: u32, addr: &str, ciaddr: Ipv4Addr) -> Message {
    let mut msg = Message::new_with_id(
        xid,
        ciaddr.octets().into(),
        NOWHERE.into(),
        NOWHERE.into(),
        NOWHERE.into(),
        &mac_bytes(addr),
    );
    msg.opts_mut().insert(DhcpOption::MessageType(MessageType::Request));
    msg
}

fn encode(msg: &Message) -> Vec<u8> {
    msg.to_vec().unwrap()
}

fn decode(bytes: &[u8]) -> Message {
    Message::from_bytes(bytes).unwrap()
}

fn exchange(server: &mut DhcpServer, msg: &Message) -> Option<Message> {
    server.handle(&encode(msg)).map(decode)
}

fn opt_subnet_mask(msg: &Message) -> Option<Ipv4Addr> {
    match msg.opts().get(OptionCode::SubnetMask) {
        Some(DhcpOption::SubnetMask(ip)) => Some(from_octets(ip.octets())),
        _ => None,
    }
}

fn opt_router(msg: &Message) -> Option<Vec<Ipv4Addr>> {
    match msg.opts().get(OptionCode::Router) {
        Some(DhcpOption::Router(ips)) => Some(ips.iter().map(|ip| from_octets(ip.octets())).collect()),
        _ => None,
    }
}

fn opt_dns(msg: &Message) -> Option<Vec<Ipv4Addr>> {
    match msg.opts().get(OptionCode::DomainNameServer) {
        Some(DhcpOption::DomainNameServer(ips)) => Some(ips.iter().map(|ip| from_octets(ip.octets())).collect()),
        _ => None,
    }
}

fn opt_lease(msg: &Message) -> Option<u32> {
    match msg.opts().get(OptionCode::AddressLeaseTime) {
        Some(DhcpOption::AddressLeaseTime(secs)) => Some(*secs),
        _ => None,
    }
}

fn opt_server_id(msg: &Message) -> Option<Ipv4Addr> {
    match msg.opts().get(OptionCode::ServerIdentifier) {
        Some(DhcpOption::ServerIdentifier(ip)) => Some(from_octets(ip.octets())),
        _ => None,
    }
}

fn assert_reply(msg: &Message, xid: u32, addr: &str, mtype: MessageType) {
    assert_eq!(msg.opcode(), Opcode::BootReply, "opcode must be BootReply");
    assert_eq!(msg.xid(), xid, "xid must be echoed");
    assert_eq!(msg.chaddr(), &mac_bytes(addr)[..], "chaddr must be echoed");
    assert_eq!(msg.opts().msg_type(), Some(mtype), "message type");
}

fn assert_req3_options(msg: &Message, mask: Ipv4Addr) {
    assert_eq!(opt_subnet_mask(msg), Some(mask), "subnet mask option");
    assert_eq!(
        opt_router(msg),
        Some(vec![GATEWAY]),
        "router option must be the gateway"
    );
    assert_eq!(opt_dns(msg), Some(vec![GATEWAY]), "dns option must be the gateway");
    assert_eq!(opt_lease(msg), Some(LEASE_SECONDS), "lease time option");
}

#[test]
fn discover_unknown_mac_yields_offer_with_pool_ip() {
    let mut server = server();
    let offer = exchange(&mut server, &discover(XID, MAC_A)).expect("an OFFER is expected");
    assert_reply(&offer, XID, MAC_A, MessageType::Offer);
    assert_eq!(yiaddr(&offer), ip(192, 168, 124, 10), "lowest free pool address");
}

#[test]
fn request_offered_ip_yields_ack() {
    let mut server = server();
    let offer = exchange(&mut server, &discover(XID, MAC_A)).expect("an OFFER is expected");
    let offered = yiaddr(&offer);
    let ack = exchange(&mut server, &request(XID, MAC_A, Some(offered))).expect("an ACK is expected");
    assert_reply(&ack, XID, MAC_A, MessageType::Ack);
    assert_eq!(yiaddr(&ack), offered);
}

#[test]
fn discover_retransmit_reoffers_same_ip() {
    let mut server = server();
    let first = exchange(&mut server, &discover(XID, MAC_A)).expect("an OFFER is expected");
    let second = exchange(&mut server, &discover(XID, MAC_A)).expect("an OFFER is expected");
    assert_eq!(
        yiaddr(&first),
        yiaddr(&second),
        "the binding pins the MAC to its address"
    );
}

#[test]
fn offer_and_ack_echo_broadcast_flag() {
    let mut server = server();
    let mut d = discover(XID, MAC_A);
    d.set_flags(Flags::default().set_broadcast());
    let offer = exchange(&mut server, &d).expect("an OFFER is expected");
    assert!(offer.flags().broadcast(), "OFFER must echo the broadcast flag");
    let mut r = request(XID, MAC_A, Some(yiaddr(&offer)));
    r.set_flags(Flags::default().set_broadcast());
    let ack = exchange(&mut server, &r).expect("an ACK is expected");
    assert!(ack.flags().broadcast(), "ACK must echo the broadcast flag");
}

#[test]
fn reserved_mac_receives_reserved_ip_in_offer() {
    let mut ipam = Ipam::new(lab_network());
    let reserved = ipam.allocate(mac(MAC_R)).expect("pool has free addresses");
    let mut server = DhcpServer::new(ipam);
    let offer = exchange(&mut server, &discover(XID, MAC_R)).expect("an OFFER is expected");
    assert_reply(&offer, XID, MAC_R, MessageType::Offer);
    assert_eq!(yiaddr(&offer), reserved, "the reserved IP must be offered");
}

#[test]
fn reserved_mac_receives_reserved_ip_in_ack() {
    let mut ipam = Ipam::new(lab_network());
    let reserved = ipam.allocate(mac(MAC_R)).expect("pool has free addresses");
    let mut server = DhcpServer::new(ipam);
    exchange(&mut server, &discover(XID, MAC_R)).expect("an OFFER is expected");
    let ack = exchange(&mut server, &request(XID, MAC_R, Some(reserved))).expect("an ACK is expected");
    assert_reply(&ack, XID, MAC_R, MessageType::Ack);
    assert_eq!(yiaddr(&ack), reserved, "the reserved IP must be ACKed");
}

#[test]
fn reserved_mac_offer_precedes_pool_order() {
    let mut ipam = Ipam::new(lab_network());
    ipam.allocate(mac(MAC_A)).unwrap();
    ipam.allocate(mac(MAC_B)).unwrap();
    let reserved = ipam.allocate(mac(MAC_R)).unwrap();
    let mut server = DhcpServer::new(ipam);
    let offer = exchange(&mut server, &discover(XID, MAC_R)).expect("an OFFER is expected");
    assert_eq!(yiaddr(&offer), reserved, "reservation wins over pool order");
    assert_ne!(yiaddr(&offer), ip(192, 168, 124, 10), "not the lowest free address");
}

#[test]
fn offer_carries_required_options() {
    let mut server = server();
    let offer = exchange(&mut server, &discover(XID, MAC_A)).expect("an OFFER is expected");
    assert_req3_options(&offer, ip(255, 255, 255, 0));
}

#[test]
fn ack_carries_required_options() {
    let mut server = server();
    let offer = exchange(&mut server, &discover(XID, MAC_A)).expect("an OFFER is expected");
    let ack = exchange(&mut server, &request(XID, MAC_A, Some(yiaddr(&offer)))).expect("an ACK is expected");
    assert_req3_options(&ack, ip(255, 255, 255, 0));
}

#[test]
fn subnet_mask_derived_from_cidr_prefix() {
    let mut server = DhcpServer::new(Ipam::new(net28_network()));
    let offer = exchange(&mut server, &discover(XID, MAC_A)).expect("an OFFER is expected");
    assert_eq!(
        opt_subnet_mask(&offer),
        Some(ip(255, 255, 255, 240)),
        "the /28 mask must be derived from the CIDR, not hardcoded"
    );
}

#[test]
fn two_unknown_macs_get_distinct_pool_ips() {
    let mut server = server();
    let a = exchange(&mut server, &discover(XID, MAC_A)).expect("an OFFER is expected");
    let b = exchange(&mut server, &discover(XID, MAC_B)).expect("an OFFER is expected");
    assert_eq!(yiaddr(&a), ip(192, 168, 124, 10));
    assert_eq!(yiaddr(&b), ip(192, 168, 124, 11), "the next pool address");
    assert_ne!(yiaddr(&a), yiaddr(&b), "pool addresses are never duplicated");
}

#[test]
fn request_ip_offered_to_other_mac_yields_nak() {
    let mut server = server();
    let offer = exchange(&mut server, &discover(XID, MAC_A)).expect("an OFFER is expected");
    let nak = exchange(&mut server, &request(XID, MAC_B, Some(yiaddr(&offer)))).expect("a NAK is expected");
    assert_reply(&nak, XID, MAC_B, MessageType::Nak);
}

#[test]
fn nak_carries_expected_fields() {
    let mut server = server();
    exchange(&mut server, &discover(XID, MAC_A)).expect("an OFFER is expected");
    let nak = exchange(&mut server, &request(XID, MAC_B, Some(ip(192, 168, 124, 10)))).expect("a NAK is expected");
    assert_reply(&nak, XID, MAC_B, MessageType::Nak);
    assert_eq!(yiaddr(&nak), ip(0, 0, 0, 0), "a NAK must not carry an address");
    assert_eq!(opt_server_id(&nak), None, "a NAK carries only the message type");
    assert_eq!(opt_subnet_mask(&nak), None);
    assert_eq!(opt_router(&nak), None);
    assert_eq!(opt_dns(&nak), None);
    assert_eq!(opt_lease(&nak), None);
}

#[test]
fn request_ip_outside_pool_yields_nak() {
    let mut server = server();
    let nak = exchange(&mut server, &request(XID, MAC_A, Some(ip(192, 168, 124, 5)))).expect("a NAK is expected");
    assert_reply(&nak, XID, MAC_A, MessageType::Nak);
}

#[test]
fn request_gateway_ip_yields_nak() {
    let mut server = server();
    let nak = exchange(&mut server, &request(XID, MAC_A, Some(GATEWAY))).expect("a NAK is expected");
    assert_reply(&nak, XID, MAC_A, MessageType::Nak);
}

#[test]
fn request_without_requested_ip_option_yields_nak() {
    let mut server = server();
    let nak = exchange(&mut server, &request(XID, MAC_A, None)).expect("a NAK is expected");
    assert_reply(&nak, XID, MAC_A, MessageType::Nak);
}

#[test]
fn renewing_request_with_matching_ciaddr_yields_ack() {
    let mut server = server();
    let offer = exchange(&mut server, &discover(XID, MAC_A)).expect("an OFFER is expected");
    let bound = yiaddr(&offer);
    let ack = exchange(&mut server, &renew(XID, MAC_A, bound)).expect("an ACK is expected");
    assert_reply(&ack, XID, MAC_A, MessageType::Ack);
    assert_eq!(yiaddr(&ack), bound, "the ACK must carry the renewed ciaddr");
    assert_req3_options(&ack, ip(255, 255, 255, 0));
}

#[test]
fn reserved_mac_renewing_with_ciaddr_yields_ack() {
    let mut ipam = Ipam::new(lab_network());
    let reserved = ipam.allocate(mac(MAC_R)).expect("pool has free addresses");
    let mut server = DhcpServer::new(ipam);
    let ack = exchange(&mut server, &renew(XID, MAC_R, reserved)).expect("an ACK is expected");
    assert_reply(&ack, XID, MAC_R, MessageType::Ack);
    assert_eq!(yiaddr(&ack), reserved, "the reserved IP must be ACKed on renewal");
}

#[test]
fn renewing_request_with_ciaddr_bound_to_other_mac_yields_nak() {
    let mut server = server();
    let offer_a = exchange(&mut server, &discover(XID, MAC_A)).expect("an OFFER is expected");
    exchange(&mut server, &discover(XID, MAC_B)).expect("an OFFER is expected");
    let nak = exchange(&mut server, &renew(XID, MAC_B, yiaddr(&offer_a))).expect("a NAK is expected");
    assert_reply(&nak, XID, MAC_B, MessageType::Nak);
}

#[test]
fn renewing_request_with_unbound_ciaddr_yields_nak() {
    let mut server = server();
    exchange(&mut server, &discover(XID, MAC_A)).expect("an OFFER is expected");
    let nak = exchange(&mut server, &renew(XID, MAC_A, ip(192, 168, 124, 11))).expect("a NAK is expected");
    assert_reply(&nak, XID, MAC_A, MessageType::Nak);
}

#[test]
fn renewing_request_with_ciaddr_outside_pool_yields_nak() {
    let mut server = server();
    exchange(&mut server, &discover(XID, MAC_A)).expect("an OFFER is expected");
    let nak = exchange(&mut server, &renew(XID, MAC_A, ip(192, 168, 124, 5))).expect("a NAK is expected");
    assert_reply(&nak, XID, MAC_A, MessageType::Nak);
}

#[test]
fn renewing_request_with_ciaddr_equal_gateway_yields_nak() {
    let mut server = server();
    exchange(&mut server, &discover(XID, MAC_A)).expect("an OFFER is expected");
    let nak = exchange(&mut server, &renew(XID, MAC_A, GATEWAY)).expect("a NAK is expected");
    assert_reply(&nak, XID, MAC_A, MessageType::Nak);
}

#[test]
fn request_without_option50_and_unspecified_ciaddr_yields_nak() {
    let mut server = server();
    exchange(&mut server, &discover(XID, MAC_A)).expect("an OFFER is expected");
    let nak = exchange(&mut server, &request(XID, MAC_A, None)).expect("a NAK is expected");
    assert_reply(&nak, XID, MAC_A, MessageType::Nak);
}

#[test]
fn request_with_option50_takes_precedence_over_ciaddr() {
    let mut server = server();
    let offer = exchange(&mut server, &discover(XID, MAC_A)).expect("an OFFER is expected");
    let mut r = request(XID, MAC_A, Some(yiaddr(&offer)));
    r.set_ciaddr(ip(192, 168, 124, 11).octets());
    let ack = exchange(&mut server, &r).expect("an ACK is expected");
    assert_reply(&ack, XID, MAC_A, MessageType::Ack);
    assert_eq!(yiaddr(&ack), yiaddr(&offer), "option 50 wins over ciaddr");
}

#[test]
fn request_with_option50_mismatch_naks_even_when_ciaddr_matches() {
    let mut server = server();
    let offer_a = exchange(&mut server, &discover(XID, MAC_A)).expect("an OFFER is expected");
    exchange(&mut server, &discover(XID, MAC_B)).expect("an OFFER is expected");
    let mut r = request(XID, MAC_A, Some(ip(192, 168, 124, 11)));
    r.set_ciaddr(yiaddr(&offer_a).octets());
    let nak = exchange(&mut server, &r).expect("a NAK is expected");
    assert_reply(&nak, XID, MAC_A, MessageType::Nak);
}

#[test]
fn released_reservation_mac_gets_pool_address_not_old_ip() {
    let mut ipam = Ipam::new(lab_network());
    let old_ip = ipam.allocate(mac(MAC_A)).expect("pool has free addresses");
    ipam.release(mac(MAC_A)).expect("the reservation is active");
    let mut server = DhcpServer::new(ipam);
    let b = exchange(&mut server, &discover(XID, MAC_B)).expect("an OFFER is expected");
    assert_eq!(yiaddr(&b), old_ip, "the freed address is the lowest free one");
    let a = exchange(&mut server, &discover(XID, MAC_A)).expect("an OFFER is expected");
    assert_ne!(yiaddr(&a), old_ip, "the released MAC must not get its old IP back");
    assert_eq!(yiaddr(&a), ip(192, 168, 124, 11), "the next free pool address");
}

#[test]
fn request_different_ip_than_offered_yields_nak() {
    let mut server = server();
    let offer = exchange(&mut server, &discover(XID, MAC_A)).expect("an OFFER is expected");
    let nak = exchange(&mut server, &request(XID, MAC_A, Some(ip(192, 168, 124, 11)))).expect("a NAK is expected");
    assert_reply(&nak, XID, MAC_A, MessageType::Nak);
    assert_ne!(yiaddr(&offer), ip(192, 168, 124, 11));
}

#[test]
fn exhausted_pool_discover_yields_no_response() {
    let mut ipam = Ipam::new(small_network());
    ipam.allocate(mac(MAC_A)).unwrap();
    ipam.allocate(mac(MAC_B)).unwrap();
    ipam.allocate(mac(MAC_C)).unwrap();
    let mut server = DhcpServer::new(ipam);
    assert_eq!(
        exchange(&mut server, &discover(XID, MAC_R)),
        None,
        "no address to offer"
    );
    let offer = exchange(&mut server, &discover(XID, MAC_A)).expect("an OFFER is expected");
    assert_eq!(yiaddr(&offer), ip(192, 168, 124, 10));
}

#[test]
fn offer_and_ack_server_identifier_is_gateway() {
    let mut server = server();
    let offer = exchange(&mut server, &discover(XID, MAC_A)).expect("an OFFER is expected");
    assert_eq!(opt_server_id(&offer), Some(GATEWAY), "OFFER server identifier");
    let ack = exchange(&mut server, &request(XID, MAC_A, Some(yiaddr(&offer)))).expect("an ACK is expected");
    assert_eq!(opt_server_id(&ack), Some(GATEWAY), "ACK server identifier");
}

#[test]
fn bad_magic_cookie_yields_no_response() {
    let mut server = server();
    let mut bytes = encode(&discover(XID, MAC_A));
    bytes[236..240].copy_from_slice(&[0xEE; 4]);
    assert_eq!(server.handle(&bytes), None, "a wrong magic cookie must not be answered");
}

#[test]
fn truncated_and_empty_packets_yield_no_response() {
    let mut server = server();
    assert_eq!(server.handle(&[]), None, "empty packet");
    let bytes = encode(&discover(XID, MAC_A));
    assert_eq!(server.handle(&bytes[..50]), None, "truncated packet");
    assert_eq!(server.handle(&bytes[..200]), None, "truncated before the magic cookie");
}

#[test]
fn bootrequest_without_message_type_yields_no_response() {
    let mut server = server();
    let mut msg = Message::new_with_id(
        XID,
        NOWHERE.into(),
        NOWHERE.into(),
        NOWHERE.into(),
        NOWHERE.into(),
        &mac_bytes(MAC_A),
    );
    msg.opts_mut()
        .insert(DhcpOption::ClientIdentifier(mac_bytes(MAC_A).to_vec()));
    assert_eq!(exchange(&mut server, &msg), None, "no MessageType option, no reply");
}

#[test]
fn non_ethernet_hlen_yields_no_response() {
    let mut server = server();
    let mut msg = Message::new_with_id(
        XID,
        NOWHERE.into(),
        NOWHERE.into(),
        NOWHERE.into(),
        NOWHERE.into(),
        &[0x02, 0x00, 0x00],
    );
    msg.opts_mut().insert(DhcpOption::MessageType(MessageType::Discover));
    assert_eq!(
        server.handle(&encode(&msg)),
        None,
        "hlen != 6 must not be answered (or panic)"
    );
}

/// The reply to a packet of the client `MAC_A` with just these options.
fn reply_to_options(server: &mut DhcpServer, options: &[u8]) -> Option<MessageType> {
    let mut bytes = encode(&discover(XID, MAC_A));
    bytes.truncate(240);
    bytes.extend_from_slice(options);
    server.handle(&bytes).and_then(|b| decode(b).opts().msg_type())
}

#[test]
fn options_that_are_too_long_are_passed_over() {
    let mut server = server();
    let offer = Some(MessageType::Offer);
    for (code, len) in [(80, 1), (80, 7), (94, 4), (152, 5), (153, 9), (154, 5), (155, 255)] {
        let mut long = vec![code, len];
        long.extend_from_slice(&vec![53; len as usize]);
        let before = [long.as_slice(), &[53, 1, 1, 255]].concat();
        assert_eq!(reply_to_options(&mut server, &before), offer, "{code} before the type");
        let after = [&[53, 1, 1], long.as_slice()].concat();
        assert_eq!(reply_to_options(&mut server, &after), offer, "{code} after the type");
        let request = [&[53, 1, 3], long.as_slice(), &[50, 4, 192, 168, 124, 10, 255]].concat();
        assert_eq!(reply_to_options(&mut server, &request), Some(MessageType::Ack), "{code} in between");
    }
    let halves = [80, 0, 80, 2, 1, 1, 53, 1, 1, 255];
    assert_eq!(reply_to_options(&mut server, &halves), offer, "too long together");
}

#[test]
fn with_an_option_that_is_too_short_the_options_end() {
    let mut server = server();
    let offer = Some(MessageType::Offer);
    for (code, len) in [(81, 0), (81, 2), (94, 2), (152, 3), (153, 0), (154, 1), (155, 2)] {
        let mut short = vec![code, len];
        short.extend_from_slice(&vec![0; len as usize]);
        let before = [short.as_slice(), &[53, 1, 1, 255]].concat();
        assert_eq!(reply_to_options(&mut server, &before), None, "{code}: the type is not read");
        let after = [&[53, 1, 1], short.as_slice(), &[255]].concat();
        assert_eq!(reply_to_options(&mut server, &after), offer);
        let request = [&[53, 1, 3], short.as_slice(), &[50, 4, 192, 168, 124, 10, 255]].concat();
        assert_eq!(reply_to_options(&mut server, &request), Some(MessageType::Nak), "{code}: the address is not read");
    }
    let halves = [94, 1, 1, 94, 2, 2, 1, 53, 1, 1, 255];
    assert_eq!(reply_to_options(&mut server, &halves), offer, "long enough together");
}

#[test]
fn messages_are_answered_by_what_they_say() {
    let mut server = server();
    let mut m = DhcpMessage {
        xid: XID,
        flags: 0x8000,
        ciaddr: ip(0, 0, 0, 0),
        chaddr: mac_bytes(MAC_A).to_vec(),
        kind: Some(1),
        requested: None,
    };
    let offer = decode(&server.respond(&m).unwrap());
    assert_reply(&offer, XID, MAC_A, MessageType::Offer);
    assert!(offer.flags().broadcast());
    m.kind = Some(3);
    m.requested = Some(ip(192, 168, 124, 10));
    assert_reply(&decode(&server.respond(&m).unwrap()), XID, MAC_A, MessageType::Ack);
    m.kind = Some(7);
    assert_eq!(server.respond(&m), None, "a release is not answered");
    m.kind = None;
    assert_eq!(server.respond(&m), None);
}
