//! The gateway of each network: it answers ARP requests for the gateway's
//! address, and tells the packets that leave the network from those that
//! stay.

use std::collections::HashMap;

use vstd::prelude::*;
use vstd::slice::slice_subrange;

use crate::bytes;
use crate::bytes::{push_all, push_be16, read_be16};
use crate::model::{Ipv4Addr, Network};
use crate::names::NameMap;
use crate::switch::engine;
use crate::switch::frame;
use crate::switch::frame::ParsedFrame;
use crate::switch::mac_table::PortId;

verus! {

/// The ethertype of ARP.
pub const ETHERTYPE_ARP: u16 = 0x0806;

/// The ethertype of IPv4.
pub const ETHERTYPE_IPV4: u16 = 0x0800;

/// The length of an ARP packet for IPv4 over Ethernet.
pub const ARP_LEN: usize = 28;

/// The length of an IPv4 header without options.
pub const IPV4_MIN_HEADER_LEN: usize = 20;

/// The gateways of all networks: the configured networks by name, and the
/// attached ports, each with the name of its network.
#[derive(Debug)]
pub struct Gateway {
    networks: NameMap<Network>,
    ports: HashMap<u32, String>,
}

/// What a [`Gateway`] holds.
#[verifier::ext_equal]
pub struct GatewayView {
    pub networks: Map<Seq<char>, Network>,
    pub ports: Map<PortId, Seq<char>>,
}

impl View for Gateway {
    type V = GatewayView;

    closed spec fn view(&self) -> GatewayView {
        GatewayView { networks: self.networks@, ports: engine::port_names(self.ports@) }
    }
}

/// What the gateway makes of one frame.
#[derive(Debug)]
pub enum GatewayAction<'a> {
    /// Nothing: the switch forwards the frame as any other.
    L2,
    /// The frame leaves the network: it goes, unchanged, to the WAN of the
    /// port it came from.
    Wan(&'a [u8]),
    /// The frame is an ARP request for the gateway: this reply goes to the
    /// port it came from.
    ArpReply(Vec<u8>),
}

/// What a [`GatewayAction`] holds.
#[verifier::ext_equal]
pub enum ActionView {
    L2,
    Wan(Seq<u8>),
    ArpReply(Seq<u8>),
}

impl<'a> View for GatewayAction<'a> {
    type V = ActionView;

    open spec fn view(&self) -> ActionView {
        match self {
            GatewayAction::L2 => ActionView::L2,
            GatewayAction::Wan(f) => ActionView::Wan(f@),
            GatewayAction::ArpReply(f) => ActionView::ArpReply(f@),
        }
    }
}

/// Whether `p` is an ARP request for IPv4 over Ethernet.
pub open spec fn is_arp_request(p: Seq<u8>) -> bool {
    &&& p.len() >= ARP_LEN
    &&& bytes::be16(p[0], p[1]) == 1
    &&& bytes::be16(p[2], p[3]) == 0x0800
    &&& p[4] == 6
    &&& p[5] == 4
    &&& bytes::be16(p[6], p[7]) == 1
}

/// Whether `p` starts with an IPv4 header: version 4, a header of at least 20
/// bytes, and all of it there.
pub open spec fn has_ipv4_header(p: Seq<u8>) -> bool {
    &&& p.len() >= IPV4_MIN_HEADER_LEN
    &&& p[0] / 16 == 4
    &&& p[0] % 16 >= 5
    &&& p.len() >= (p[0] % 16) * 4
}

/// The address in the four bytes of `p` at `at`.
pub open spec fn address_at(p: Seq<u8>, at: int) -> Ipv4Addr {
    Ipv4Addr { a: p[at], b: p[at + 1], c: p[at + 2], d: p[at + 3] }
}

/// The MAC address of a gateway, which is made from its IP address.
pub open spec fn gateway_mac_bytes(gateway: Ipv4Addr) -> Seq<u8> {
    seq![0x02u8, 0x00u8, gateway.a, gateway.b, gateway.c, gateway.d]
}

/// The reply, in an Ethernet frame, to the ARP request `request`: the gateway
/// tells its MAC address to the station that asked, and to it alone.
pub open spec fn arp_reply(request: Seq<u8>, gateway: Ipv4Addr) -> Seq<u8> {
    let mac = gateway_mac_bytes(gateway);
    request.subrange(8, 14) + mac + bytes::be16_bytes(ETHERTYPE_ARP) + bytes::be16_bytes(1)
        + bytes::be16_bytes(0x0800) + seq![6u8, 4u8] + bytes::be16_bytes(2) + mac + gateway.bytes()
        + request.subrange(8, 14) + request.subrange(14, 18)
}

impl GatewayView {
    /// The network of the port `ingress`, where it is attached to one that is
    /// configured.
    pub open spec fn network_of(self, ingress: PortId) -> Option<Network> {
        if self.ports.contains_key(ingress) && self.networks.contains_key(self.ports[ingress]) {
            Some(self.networks[self.ports[ingress]])
        } else {
            None
        }
    }

    /// What becomes of the frame `f` that arrives at `ingress`.
    pub open spec fn action(self, ingress: PortId, f: Seq<u8>) -> ActionView {
        match (self.network_of(ingress), frame::parsed(f)) {
            (Some(network), Some(p)) => if p.ethertype == ETHERTYPE_ARP {
                arp_action(network, p.payload)
            } else if p.ethertype == ETHERTYPE_IPV4 {
                ipv4_action(network, p.payload, f)
            } else {
                ActionView::L2
            },
            _ => ActionView::L2,
        }
    }
}

/// What becomes of the ARP packet `p` on `network`.
pub open spec fn arp_action(network: Network, p: Seq<u8>) -> ActionView {
    if is_arp_request(p) && address_at(p, 24) == network.gateway {
        ActionView::ArpReply(arp_reply(p, network.gateway))
    } else {
        ActionView::L2
    }
}

/// What becomes of the IPv4 packet `p`, in the frame `f`, on `network`.
pub open spec fn ipv4_action(network: Network, p: Seq<u8>, f: Seq<u8>) -> ActionView {
    if has_ipv4_header(p) && !network.cidr@.has(address_at(p, 16)) {
        ActionView::Wan(f)
    } else {
        ActionView::L2
    }
}

impl Gateway {
    /// A gateway with no networks and no ports.
    pub fn new() -> (r: Gateway)
        ensures
            r@.networks == Map::<Seq<char>, Network>::empty(),
            r@.ports == Map::<PortId, Seq<char>>::empty(),
    {
        let r = Gateway { networks: NameMap::new(), ports: HashMap::new() };
        assert(r@.ports =~= Map::<PortId, Seq<char>>::empty());
        r
    }

    /// Configures `network` under its name, in place of one that had the name
    /// before.
    pub fn add_network(&mut self, network: &Network)
        ensures
            final(self)@ == (GatewayView {
                networks: old(self)@.networks.insert(network.name@, *network),
                ports: old(self)@.ports,
            }),
    {
        let _ = self.networks.insert(network.name.clone(), network.clone());
    }

    /// Takes away the network called `name`; says whether it was configured.
    pub fn remove_network(&mut self, name: &str) -> (r: bool)
        ensures
            r == old(self)@.networks.contains_key(name@),
            final(self)@ == (GatewayView {
                networks: old(self)@.networks.remove(name@),
                ports: old(self)@.ports,
            }),
    {
        self.networks.remove(name).is_some()
    }

    /// Attaches `port` to the network called `network`, in place of the one it
    /// was attached to before.
    pub fn add_port(&mut self, port: PortId, network: &str)
        ensures
            final(self)@ == (GatewayView {
                networks: old(self)@.networks,
                ports: old(self)@.ports.insert(port, network@),
            }),
    {
        let _ = self.ports.insert(port.0, network.to_owned());
        assert(self@.ports =~= old(self)@.ports.insert(port, network@));
    }

    /// Detaches `port`; says whether it was attached.
    pub fn remove_port(&mut self, port: PortId) -> (r: bool)
        ensures
            r == old(self)@.ports.contains_key(port),
            final(self)@ == (GatewayView {
                networks: old(self)@.networks,
                ports: old(self)@.ports.remove(port),
            }),
    {
        let gone = self.ports.remove(&port.0);
        assert(self@.ports =~= old(self)@.ports.remove(port));
        gone.is_some()
    }

    /// What becomes of the frame that arrives at `ingress`.
    ///
    /// A frame at a port that is not attached to a configured network, and one
    /// too short to be read, is left to the switch.
    pub fn handle_frame<'a>(&self, ingress: PortId, frame: &'a [u8]) -> (r: GatewayAction<'a>)
        ensures
            r@ == self@.action(ingress, frame@),
    {
        let name = match self.ports.get(&ingress.0) {
            Some(name) => name,
            None => {
                return GatewayAction::L2;
            },
        };
        assert(self@.ports.contains_key(ingress));
        let network = match self.networks.get(name.as_str()) {
            Some(network) => network,
            None => {
                return GatewayAction::L2;
            },
        };
        let parsed = match ParsedFrame::parse(frame) {
            Ok(parsed) => parsed,
            Err(_) => {
                return GatewayAction::L2;
            },
        };
        if parsed.ethertype == ETHERTYPE_ARP {
            arp_response(network, &parsed)
        } else if parsed.ethertype == ETHERTYPE_IPV4 {
            ipv4_egress(network, &parsed, frame)
        } else {
            GatewayAction::L2
        }
    }
}

impl Default for Gateway {
    fn default() -> (r: Self)
        ensures
            r@.networks == Map::<Seq<char>, Network>::empty(),
            r@.ports == Map::<PortId, Seq<char>>::empty(),
    {
        Self::new()
    }
}

/// The address in the four bytes of `p` at `at`.
pub fn read_address(p: &[u8], at: usize) -> (r: Ipv4Addr)
    requires
        at + 4 <= p.len(),
    ensures
        r == address_at(p@, at as int),
{
    Ipv4Addr { a: p[at], b: p[at + 1], c: p[at + 2], d: p[at + 3] }
}

/// Answers an ARP request for the gateway of `network`; any other ARP packet
/// is left to the switch.
pub fn arp_response<'p>(network: &Network, parsed: &ParsedFrame<'p>) -> (r: GatewayAction<'p>)
    ensures
        r@ == arp_action(*network, parsed.payload@),
{
    let payload = parsed.payload;
    if !is_ipv4_over_ethernet_arp_request(payload) {
        return GatewayAction::L2;
    }
    if read_address(payload, 24) != network.gateway {
        return GatewayAction::L2;
    }
    GatewayAction::ArpReply(build_arp_reply(payload, network.gateway))
}

/// Sends an IPv4 packet for an address outside `network` to the WAN; any
/// other packet is left to the switch.
pub fn ipv4_egress<'p>(network: &Network, parsed: &ParsedFrame<'p>, frame: &'p [u8]) -> (r:
    GatewayAction<'p>)
    ensures
        r@ == ipv4_action(*network, parsed.payload@, frame@),
{
    let payload = parsed.payload;
    if !is_valid_ipv4_header(payload) {
        return GatewayAction::L2;
    }
    if network.cidr.contains(read_address(payload, 16)) {
        GatewayAction::L2
    } else {
        GatewayAction::Wan(frame)
    }
}

/// Whether `payload` is an ARP request for IPv4 over Ethernet.
pub fn is_ipv4_over_ethernet_arp_request(payload: &[u8]) -> (r: bool)
    ensures
        r == is_arp_request(payload@),
{
    payload.len() >= ARP_LEN && read_be16(payload[0], payload[1]) == 1 && read_be16(
        payload[2],
        payload[3],
    ) == 0x0800 && payload[4] == 6 && payload[5] == 4 && read_be16(payload[6], payload[7]) == 1
}

/// Whether `payload` starts with an IPv4 header.
pub fn is_valid_ipv4_header(payload: &[u8]) -> (r: bool)
    ensures
        r == has_ipv4_header(payload@),
{
    if payload.len() < IPV4_MIN_HEADER_LEN {
        return false;
    }
    let first: u8 = payload[0];
    let ihl: usize = (first % 16) as usize;
    first / 16 == 4 && ihl >= 5 && payload.len() >= ihl * 4
}

/// The MAC address of a gateway: 02:00 and the four octets of its address.
pub fn gateway_mac(gateway: Ipv4Addr) -> (r: [u8; 6])
    ensures
        r@ == gateway_mac_bytes(gateway),
{
    let r: [u8; 6] = [0x02, 0x00, gateway.a, gateway.b, gateway.c, gateway.d];
    assert(r@ =~= gateway_mac_bytes(gateway));
    r
}

/// The reply to the ARP request `request`, which is for the gateway.
pub fn build_arp_reply(request: &[u8], gateway: Ipv4Addr) -> (r: Vec<u8>)
    requires
        request.len() >= ARP_LEN,
    ensures
        r@ == arp_reply(request@, gateway),
        r.len() == 42,
{
    let mac: [u8; 6] = gateway_mac(gateway);
    let mut reply: Vec<u8> = Vec::new();
    push_all(&mut reply, slice_subrange(request, 8, 14));
    push_all(&mut reply, mac.as_slice());
    push_be16(&mut reply, ETHERTYPE_ARP);
    push_be16(&mut reply, 1);
    push_be16(&mut reply, 0x0800);
    reply.push(6);
    reply.push(4);
    push_be16(&mut reply, 2);
    push_all(&mut reply, mac.as_slice());
    push_all(&mut reply, gateway.octets().as_slice());
    push_all(&mut reply, slice_subrange(request, 8, 14));
    push_all(&mut reply, slice_subrange(request, 14, 18));
    assert(reply@ =~= arp_reply(request@, gateway));
    reply
}

/// The reply to an ARP request reads as a frame for the station that asked,
/// from the gateway's MAC address, and carries an ARP packet, which is not a
/// request itself.
pub proof fn law_arp_reply_is_addressed(request: Seq<u8>, gateway: Ipv4Addr)
    requires
        is_arp_request(request),
    ensures
        frame::parsed(arp_reply(request, gateway)) matches Some(p) && {
            &&& p.dst.bytes() == request.subrange(8, 14)
            &&& p.src.bytes() == gateway_mac_bytes(gateway)
            &&& p.ethertype == ETHERTYPE_ARP
            &&& p.payload.len() == ARP_LEN
            &&& bytes::be16(p.payload[6], p.payload[7]) == 2
            &&& p.payload.subrange(8, 14) == gateway_mac_bytes(gateway)
            &&& address_at(p.payload, 14) == gateway
            &&& p.payload.subrange(18, 24) == request.subrange(8, 14)
            &&& p.payload.subrange(24, 28) == request.subrange(14, 18)
            &&& !is_arp_request(p.payload)
        },
{
    let r = arp_reply(request, gateway);
    assert(r.len() == 42);
    assert(r[12] == 8 && r[13] == 6);
    let p = frame::parsed(r)->0;
    assert(p.dst.bytes() =~= r.subrange(0, 6));
    assert(p.src.bytes() =~= r.subrange(6, 12));
    assert(r.subrange(0, 6) =~= request.subrange(8, 14));
    assert(r.subrange(6, 12) =~= gateway_mac_bytes(gateway));
    assert(p.payload.subrange(8, 14) =~= gateway_mac_bytes(gateway));
    assert(p.payload.subrange(18, 24) =~= request.subrange(8, 14));
    assert(p.payload.subrange(24, 28) =~= request.subrange(14, 18));
    assert(p.payload[6] == 0 && p.payload[7] == 2);
}

/// A frame sent to the WAN is the frame that came in, and carries a packet
/// for an address outside the network of its port.
pub proof fn law_only_foreign_packets_leave(v: GatewayView, ingress: PortId, f: Seq<u8>)
    requires
        v.action(ingress, f) is Wan,
    ensures
        v.action(ingress, f) == ActionView::Wan(f),
        v.network_of(ingress) matches Some(n) && !n.cidr@.has(
            address_at(frame::parsed(f)->0.payload, 16),
        ),
{
}

/// A packet for an address in the network of its port, the gateway's own
/// among them, stays on the network.
pub proof fn law_local_packets_stay(v: GatewayView, ingress: PortId, f: Seq<u8>)
    requires
        v.network_of(ingress) matches Some(n) && n.cidr@.has(
            address_at(frame::parsed(f)->0.payload, 16),
        ),
        frame::parsed(f) matches Some(p) && p.ethertype == ETHERTYPE_IPV4,
    ensures
        v.action(ingress, f) == ActionView::L2,
{
}

/// Every packet for an address outside the network of its port leaves by the
/// WAN, whatever its protocol, its source and its payload: the frame may have a
/// tag, and the header must be complete. Where such a header names an address
/// in the network, the frame stays.
pub proof fn law_every_foreign_packet_leaves(
    v: GatewayView,
    ingress: PortId,
    f: Seq<u8>,
    n: Network,
)
    requires
        v.ports.contains_key(ingress),
        v.networks.contains_key(v.ports[ingress]),
        v.networks[v.ports[ingress]] == n,
        n.cidr@.valid(),
        ({
            let at = if f[12] == 0x81 && f[13] == 0x00 { 18int } else { 14int };
            &&& f[at - 2] == 0x08 && f[at - 1] == 0x00
            &&& f.len() >= at + 20
            &&& 0x45 <= f[at] <= 0x4f
            &&& f.len() >= at + 4 * (f[at] - 0x40)
        }),
    ensures
        ({
            let at = if f[12] == 0x81 && f[13] == 0x00 { 18int } else { 14int };
            let to = f[at + 16] * 0x100_0000 + f[at + 17] * 0x1_0000 + f[at + 18] * 0x100 + f[at
                + 19];
            let a = n.cidr@.addr;
            let first = a.a * 0x100_0000 + a.b * 0x1_0000 + a.c * 0x100 + a.d;
            let size = vstd::arithmetic::power2::pow2((32 - n.cidr@.prefix) as nat);
            v.action(ingress, f) == (if first <= to < first + size {
                ActionView::L2
            } else {
                ActionView::Wan(f)
            })
        }),
{
    frame::law_every_frame_that_is_long_enough_is_read(f);
    let at = if f[12] == 0x81 && f[13] == 0x00 { 18int } else { 14int };
    let p = f.skip(at);
    assert(p[0] == f[at] && p[16] == f[at + 16] && p[17] == f[at + 17] && p[18] == f[at + 18]
        && p[19] == f[at + 19]);
    assert(f[at] / 16 == 4 && f[at] % 16 == f[at] - 0x40) by (nonlinear_arith)
        requires
            0x45 <= f[at] <= 0x4f,
    ;
    crate::net::law_network_is_a_range(n.cidr@, address_at(p, 16));
}

/// Every ARP request for the address of the gateway is answered, whatever the
/// station that asks, and no other: the reply goes to the station's MAC
/// address, from one made of 02:00 and the address of the gateway, and says
/// that the latter is there.
pub proof fn law_every_request_for_the_gateway_is_answered(
    v: GatewayView,
    ingress: PortId,
    f: Seq<u8>,
    n: Network,
)
    requires
        v.ports.contains_key(ingress),
        v.networks.contains_key(v.ports[ingress]),
        v.networks[v.ports[ingress]] == n,
        f.len() >= 42,
        f.subrange(12, 22) == seq![0x08u8, 0x06, 0, 1, 0x08, 0, 6, 4, 0, 1],
    ensures
        ({
            let g = n.gateway;
            let asked = f[38] == g.a && f[39] == g.b && f[40] == g.c && f[41] == g.d;
            &&& !asked ==> v.action(ingress, f) == ActionView::L2
            &&& asked ==> v.action(ingress, f) == ActionView::ArpReply(
                f.subrange(22, 28) + seq![0x02u8, 0x00, g.a, g.b, g.c, g.d] + seq![
                    0x08u8,
                    0x06,
                    0,
                    1,
                    0x08,
                    0,
                    6,
                    4,
                    0,
                    2,
                ] + seq![0x02u8, 0x00, g.a, g.b, g.c, g.d] + seq![g.a, g.b, g.c, g.d]
                    + f.subrange(22, 28) + f.subrange(28, 32),
            )
        }),
{
    let s = f.subrange(12, 22);
    assert(f[12] == s[0] && f[13] == s[1] && f[14] == s[2] && f[15] == s[3] && f[16] == s[4]
        && f[17] == s[5] && f[18] == s[6] && f[19] == s[7] && f[20] == s[8] && f[21] == s[9]);
    frame::law_every_frame_that_is_long_enough_is_read(f);
    let p = f.skip(14);
    let g = n.gateway;
    assert(p.subrange(8, 14) =~= f.subrange(22, 28));
    assert(p.subrange(14, 18) =~= f.subrange(28, 32));
    let reply = f.subrange(22, 28) + seq![0x02u8, 0x00, g.a, g.b, g.c, g.d] + seq![
        0x08u8,
        0x06,
        0,
        1,
        0x08,
        0,
        6,
        4,
        0,
        2,
    ] + seq![0x02u8, 0x00, g.a, g.b, g.c, g.d] + seq![g.a, g.b, g.c, g.d] + f.subrange(22, 28)
        + f.subrange(28, 32);
    assert(arp_reply(p, g) =~= reply);
}

/// A frame at a port that is on no configured network, and one that carries
/// neither ARP nor IPv4, is left to the switch.
pub proof fn law_other_frames_are_left_to_the_switch(v: GatewayView, ingress: PortId, f: Seq<u8>)
    requires
        !v.ports.contains_key(ingress) || !v.networks.contains_key(v.ports[ingress]) || !(f[12]
            == 0x81 && f[13] == 0x00) && !(f[12] == 0x08 && (f[13] == 0x00 || f[13] == 0x06)),
    ensures
        v.action(ingress, f) == ActionView::L2,
{
    frame::law_every_frame_that_is_long_enough_is_read(f);
}

/// Of ARP packets, tagged or not, just the complete requests for IPv4 over
/// Ethernet that name the address of the gateway are answered; every other one
/// is left to the switch, and none goes to the WAN.
pub proof fn law_only_requests_for_the_gateway_are_answered(
    v: GatewayView,
    ingress: PortId,
    f: Seq<u8>,
    n: Network,
    at: int,
)
    requires
        v.ports.contains_key(ingress),
        v.networks.contains_key(v.ports[ingress]),
        v.networks[v.ports[ingress]] == n,
        at == (if f[12] == 0x81 && f[13] == 0x00 {
            18int
        } else {
            14int
        }),
        f.len() >= at,
        f[at - 2] == 0x08 && f[at - 1] == 0x06,
    ensures
        v.action(ingress, f) is ArpReply <==> {
            &&& f.len() >= at + 28
            &&& f.subrange(at, at + 8) == seq![0u8, 1, 0x08, 0, 6, 4, 0, 1]
            &&& f.subrange(at + 24, at + 28) == seq![
                n.gateway.a,
                n.gateway.b,
                n.gateway.c,
                n.gateway.d,
            ]
        },
        !(v.action(ingress, f) is Wan),
{
    frame::law_every_frame_that_is_long_enough_is_read(f);
    let p = f.skip(at);
    if f.len() >= at + 28 {
        let s = f.subrange(at, at + 8);
        let t = f.subrange(at + 24, at + 28);
        let g = n.gateway;
        let want = seq![0u8, 1, 0x08, 0, 6, 4, 0, 1];
        let to = seq![g.a, g.b, g.c, g.d];
        assert(s[0] == p[0] && s[1] == p[1] && s[2] == p[2] && s[3] == p[3] && s[4] == p[4] && s[5]
            == p[5] && s[6] == p[6] && s[7] == p[7]);
        assert(t[0] == p[24] && t[1] == p[25] && t[2] == p[26] && t[3] == p[27]);
        assert(want[0] == 0 && want[1] == 1 && want[2] == 8 && want[3] == 0 && want[4] == 6
            && want[5] == 4 && want[6] == 0 && want[7] == 1);
        assert(to[0] == g.a && to[1] == g.b && to[2] == g.c && to[3] == g.d);
        if is_arp_request(p) {
            assert(s =~= want);
        }
        if address_at(p, 24) == g {
            assert(t =~= to);
        }
    }
}

} // verus!
