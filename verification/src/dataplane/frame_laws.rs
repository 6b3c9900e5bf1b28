//! What becomes of the frames of a VM, in bytes: which are answered, which go to
//! the WAN, and which reach other VMs.

use vstd::prelude::*;

use crate::dataplane;
use crate::dataplane::pump;
use crate::dhcp;
use crate::dns;
use crate::ipam;
use crate::model::{Ipv4Addr, MacAddr};
use crate::net;
use crate::packet;
use crate::passt;
use crate::switch::engine;
use crate::switch::gateway;
use crate::switch::mac_table::PortId;

verus! {

// -- bytes --------------------------------------------------------------------

/// Where the payload of the IPv4 packet in the frame `f` starts.
pub open spec fn header_end(f: Seq<u8>) -> int {
    14 + 4 * (f[14] - 0x40)
}

/// Whether the frame `f` carries an IPv4 packet with a complete header.
pub open spec fn is_ipv4(f: Seq<u8>) -> bool {
    &&& f.len() >= 34
    &&& f[12] == 0x08 && f[13] == 0x00
    &&& 0x45 <= f[14] <= 0x4f
    &&& f.len() >= header_end(f)
}

/// How long the datagram in the frame `f` says that it is.
pub open spec fn said_length(f: Seq<u8>) -> int {
    f[header_end(f) + 4] * 256 + f[header_end(f) + 5]
}

/// Whether the frame `f` carries a UDP datagram that is at least as long as it
/// says; what follows it is padding.
pub open spec fn is_udp(f: Seq<u8>) -> bool {
    &&& is_ipv4(f)
    &&& f[23] == 17
    &&& f.len() >= header_end(f) + 8
    &&& 8 <= said_length(f) <= f.len() - header_end(f)
}

/// What the datagram in the frame `f` carries.
pub open spec fn carried(f: Seq<u8>) -> Seq<u8> {
    f.subrange(header_end(f) + 8, header_end(f) + said_length(f))
}

/// The UDP port that the datagram in `f` comes from.
pub open spec fn from_port(f: Seq<u8>) -> int {
    f[header_end(f)] * 256 + f[header_end(f) + 1]
}

/// The UDP port that the datagram in `f` goes to.
pub open spec fn to_port(f: Seq<u8>) -> int {
    f[header_end(f) + 2] * 256 + f[header_end(f) + 3]
}

/// The number of the address that the packet in `f` goes to.
pub open spec fn to_number(f: Seq<u8>) -> int {
    f[30] * 0x100_0000 + f[31] * 0x1_0000 + f[32] * 0x100 + f[33]
}

/// Whether the four bytes of `f` at `at` are the octets of `ip`.
pub open spec fn names_at(f: Seq<u8>, at: int, ip: Ipv4Addr) -> bool {
    f[at] == ip.a && f[at + 1] == ip.b && f[at + 2] == ip.c && f[at + 3] == ip.d
}

/// Whether the number `n` is that of an address in the network of `b`.
pub open spec fn in_network(b: ipam::IpamView, n: int) -> bool {
    let a = b.network.cidr@.addr;
    let first = a.a * 0x100_0000 + a.b * 0x1_0000 + a.c * 0x100 + a.d;
    first <= n < first + vstd::arithmetic::power2::pow2((32 - b.network.cidr@.prefix) as nat)
}

/// Whether the port `port` is attached, with the MAC address `mac`, to a network
/// that is there and has the bindings `b`.
pub open spec fn attached_to(
    v: dataplane::DataView,
    port: Seq<char>,
    mac: MacAddr,
    b: ipam::IpamView,
) -> bool {
    let p = v.ports[port];
    &&& v.ports.contains_key(port)
    &&& p.mac == Some(mac)
    &&& p.network is Some
    &&& v.networks.contains_key(p.network->0)
    &&& v.networks[p.network->0].ipam == b
}

/// What a sound state says of an attached port: the gateway has it on its
/// network.
proof fn lemma_attached(
    v: dataplane::DataView,
    port: Seq<char>,
    mac: MacAddr,
    b: ipam::IpamView,
)
    requires
        v.sound(),
        attached_to(v, port, mac, b),
    ensures
        ({
            let me = PortId(v.ports[port].id);
            &&& b.network.wf()
            &&& b.network.cidr@.valid()
            &&& v.gateway.network_of(me) == Some(b.network)
            &&& v.gateway.ports.contains_key(me)
            &&& v.gateway.networks.contains_key(v.gateway.ports[me])
            &&& v.gateway.networks[v.gateway.ports[me]] == b.network
            &&& v.names.contains_key(me) && v.names[me] == port
            &&& v.switch.ports.contains_key(me)
            &&& v.switch.ports[me] == v.ports[port].network->0
        }),
{
    assert(v.port_sound(port));
}

/// The gateway is in its network.
proof fn lemma_gateway_is_local(b: ipam::IpamView, f: Seq<u8>)
    requires
        b.network.wf(),
        !in_network(b, to_number(f)),
    ensures
        !names_at(f, 30, b.network.gateway),
{
    net::law_network_is_a_range(b.network.cidr@, b.network.gateway);
}

// -- services -----------------------------------------------------------------

/// A datagram of an attached VM is read whole, whatever its addresses, its
/// ports and its options; a port that is attached to nothing has none.
pub proof fn law_datagrams_are_read(
    v: dataplane::DataView,
    port: Seq<char>,
    f: Seq<u8>,
    mac: MacAddr,
    b: ipam::IpamView,
)
    requires
        is_udp(f),
    ensures
        attached_to(v, port, mac, b) ==> {
            &&& pump::datagram(v, port, f) matches Some(d) && {
                &&& d.ipam == b
                &&& d.mac == mac
                &&& names_at(f, 26, d.src)
                &&& names_at(f, 30, d.dst)
                &&& d.sport == from_port(f)
                &&& d.dport == to_port(f)
                &&& d.payload == carried(f)
            }
        },
        !v.ports.contains_key(port) || v.ports[port].network is None ==> pump::datagram(
            v,
            port,
            f,
        ) is None,
{
    packet::law_every_packet_is_read(f);
    lemma_listed_udp();
    let end = header_end(f);
    let u = f.skip(end);
    assert(u[0] == f[end] && u[1] == f[end + 1] && u[2] == f[end + 2] && u[3] == f[end + 3] && u[4]
        == f[end + 4] && u[5] == f[end + 5]);
    assert(pump::udp_payload(u) =~= carried(f));
}

proof fn lemma_listed_udp()
    ensures
        packet::listed(17),
{
    let s = seq![1u8, 6, 17, 47, 50, 51, 58];
    assert(s[2] == 17);
}

/// Every DHCP packet of an attached VM, from port 68 to port 67, whatever its
/// addresses, is handed to a server with the bindings of the network. Its reply
/// goes back whole, from port 67 to port 68, to the station that sent the frame,
/// at the address that it gives; to all where it gives none.
pub proof fn law_dhcp_is_served(
    v: dataplane::DataView,
    port: Seq<char>,
    f: Seq<u8>,
    mac: MacAddr,
    b: ipam::IpamView,
    answer: Option<Seq<u8>>,
)
    requires
        attached_to(v, port, mac, b),
        is_udp(f),
        from_port(f) == 68,
        to_port(f) == 67,
        pump::service_answer(v, port, f, answer),
    ensures
        ({
            let packet = carried(f);
            &&& !dhcp::acceptable(packet) ==> answer is None
            &&& dhcp::acceptable(packet) ==> exists|after: ipam::IpamView, reply: Option<Seq<u8>>|
                #[trigger]
                dhcp::answers(b, dhcp::message_in(packet), after, reply) && served(f, reply, answer)
        }),
{
    law_datagrams_are_read(v, port, f, mac, b);
    let packet = carried(f);
    let d = pump::datagram(v, port, f)->0;
    if dhcp::acceptable(packet) {
        let (after, reply) = choose|after: ipam::IpamView, reply: Option<Seq<u8>>| #[trigger]
            dhcp::answers(d.ipam, dhcp::message_in(d.payload), after, reply) && answer == (match reply {
                Some(r) => Some(
                    packet::udp_reply(
                        r,
                        MacAddr::of(f.subrange(6, 12)),
                        d.ipam.network.gateway,
                        pump::given_address(r),
                        pump::DHCP_SERVER_PORT,
                        pump::DHCP_CLIENT_PORT,
                    ),
                ),
                None => None,
            });
        if let Some(r) = reply {
            lemma_served(f, r, d.ipam.network.gateway);
        }
        assert(served(f, reply, answer));
    }
}

proof fn lemma_served(f: Seq<u8>, r: Seq<u8>, g: Ipv4Addr)
    requires
        f.len() >= 12,
    ensures
        served(
            f,
            Some(r),
            Some(
                packet::udp_reply(
                    r,
                    MacAddr::of(f.subrange(6, 12)),
                    g,
                    pump::given_address(r),
                    pump::DHCP_SERVER_PORT,
                    pump::DHCP_CLIENT_PORT,
                ),
            ),
        ),
{
    let to = MacAddr::of(f.subrange(6, 12));
    let ip = pump::given_address(r);
    let x = packet::udp_reply(r, to, g, ip, pump::DHCP_SERVER_PORT, pump::DHCP_CLIENT_PORT);
    packet::law_udp_reply_carries_the_payload(
        r,
        to,
        g,
        ip,
        pump::DHCP_SERVER_PORT,
        pump::DHCP_CLIENT_PORT,
    );
    let all = r.len() < 20 || (r[16] == 0 && r[17] == 0 && r[18] == 0 && r[19] == 0);
    if !all {
        assert(seq![ip.a, ip.b, ip.c, ip.d] =~= r.subrange(16, 20));
        assert(seq![to.o0, to.o1, to.o2, to.o3, to.o4, to.o5] =~= f.subrange(6, 12));
    }
}

/// Whether `answer` is the frame that carries the DHCP packet `reply` back to
/// the sender of the frame `f`.
pub open spec fn served(f: Seq<u8>, reply: Option<Seq<u8>>, answer: Option<Seq<u8>>) -> bool {
    match (reply, answer) {
        (Some(r), Some(x)) => {
            let all = r.len() < 20 || (r[16] == 0 && r[17] == 0 && r[18] == 0 && r[19] == 0);
            &&& x.skip(42) == r
            &&& all ==> x.take(6) == seq![0xffu8, 0xff, 0xff, 0xff, 0xff, 0xff]
            &&& all ==> x.subrange(30, 34) == seq![255u8, 255, 255, 255]
            &&& !all ==> x.take(6) == f.subrange(6, 12)
            &&& !all ==> x.subrange(30, 34) == r.subrange(16, 20)
            &&& x[34] * 256 + x[35] == 67
            &&& x[36] * 256 + x[37] == 68
        },
        (None, None) => true,
        _ => false,
    }
}

/// Every DNS query of an attached VM to the gateway, to port 53, from whatever
/// port, is relayed to the upstreams, and what that comes to goes back whole to
/// the port's MAC, to the address and the port that asked. Other datagrams, but
/// those of DHCP, are answered by no service.
pub proof fn law_dns_is_served(
    v: dataplane::DataView,
    port: Seq<char>,
    f: Seq<u8>,
    mac: MacAddr,
    b: ipam::IpamView,
    answer: Option<Seq<u8>>,
)
    requires
        attached_to(v, port, mac, b),
        is_udp(f),
        !(from_port(f) == 68 && to_port(f) == 67),
        pump::service_answer(v, port, f, answer),
    ensures
        ({
            let query = carried(f);
            let asked = to_port(f) == 53 && names_at(f, 30, b.network.gateway) && dns::asks(query);
            &&& !asked ==> answer is None
            &&& asked ==> answer is Some && exists|os: Seq<Option<Seq<u8>>>| #[trigger]
                dns::tried(query, os, v.upstreams) && relayed(
                    f,
                    mac,
                    dns::settled(dns::id_of(query), os),
                    answer->0,
                )
        }),
{
    law_datagrams_are_read(v, port, f, mac, b);
    let query = carried(f);
    let d = pump::datagram(v, port, f)->0;
    assert(names_at(f, 30, b.network.gateway) == (d.dst == b.network.gateway));
    if to_port(f) == 53 && names_at(f, 30, b.network.gateway) && dns::asks(query) {
        let os = choose|os: Seq<Option<Seq<u8>>>| #[trigger]
            dns::tried(d.payload, os, v.upstreams) && answer == Some(
                packet::udp_reply(
                    dns::settled(dns::id_of(d.payload), os),
                    d.mac,
                    d.ipam.network.gateway,
                    d.src,
                    pump::DNS_PORT,
                    d.sport,
                ),
            );
        let r = dns::settled(dns::id_of(query), os);
        lemma_relayed(f, mac, r, b.network.gateway, d.src, d.sport);
        let x = answer->0;
        assert(relayed(f, mac, r, x));
    }
}

proof fn lemma_relayed(
    f: Seq<u8>,
    mac: MacAddr,
    r: Seq<u8>,
    g: Ipv4Addr,
    src: Ipv4Addr,
    sport: u16,
)
    requires
        f.len() >= 34,
        names_at(f, 26, src),
        sport == from_port(f),
    ensures
        relayed(f, mac, r, packet::udp_reply(r, mac, g, src, pump::DNS_PORT, sport)),
{
    packet::law_udp_reply_carries_the_payload(r, mac, g, src, pump::DNS_PORT, sport);
    assert(seq![src.a, src.b, src.c, src.d] =~= f.subrange(26, 30));
}

/// Whether the frame `x` carries the DNS message `r` back to the sender, with
/// the MAC address `mac`, of the query in the frame `f`.
pub open spec fn relayed(f: Seq<u8>, mac: MacAddr, r: Seq<u8>, x: Seq<u8>) -> bool {
    let nowhere = f[26] == 0 && f[27] == 0 && f[28] == 0 && f[29] == 0;
    &&& x.skip(42) == r
    &&& !nowhere ==> x.take(6) == seq![mac.o0, mac.o1, mac.o2, mac.o3, mac.o4, mac.o5]
    &&& !nowhere ==> x.subrange(30, 34) == f.subrange(26, 30)
    &&& x[34] * 256 + x[35] == 53
    &&& x[36] * 256 + x[37] == from_port(f)
}

/// What no UDP datagram is answered by no service: a frame that carries no IPv4
/// packet, or a packet of another protocol.
pub proof fn law_only_datagrams_are_served(
    v: dataplane::DataView,
    port: Seq<char>,
    f: Seq<u8>,
    answer: Option<Seq<u8>>,
)
    requires
        f[12] != 0x08 || f[13] != 0x00 || (f[23] != 17 && (f[22] != 17 || f[14] != 0x45
            || packet::listed(f[23]))),
        pump::service_answer(v, port, f, answer),
    ensures
        answer is None,
{
    packet::law_every_packet_is_read(f);
}

// -- the WAN ------------------------------------------------------------------

/// Every packet of an attached VM for an address outside its network goes to
/// the WAN process of its own port where that runs, whole, and nowhere else;
/// nothing is learned from it. That holds whatever its protocol and its length,
/// but for DHCP, which is served.
///
/// Left out are headers without options that have no listed protocol in its
/// place, but one a byte earlier.
pub proof fn law_every_foreign_packet_goes_to_the_wan(
    v: dataplane::DataView,
    port: Seq<char>,
    f: Seq<u8>,
    mac: MacAddr,
    b: ipam::IpamView,
    w: dataplane::DataView,
    d: pump::DeliveryView,
)
    requires
        v.sound(),
        attached_to(v, port, mac, b),
        is_ipv4(f),
        !in_network(b, to_number(f)),
        packet::listed(f[23]) || f[14] != 0x45 || !packet::listed(f[22]),
        f[23] == 17 && f.len() >= header_end(f) + 8 ==> !(from_port(f) == 68 && to_port(f) == 67),
        pump::frame_pumped(v, port, PortId(v.ports[port].id), f, w, d),
    ensures
        w == v,
        d.inject.len() == 0,
        ({
            let runs = v.passts.contains_key(port) && v.passts[port].live;
            &&& d.wan is Some <==> runs
            &&& runs && f.len() <= 0xffff_ffff ==> {
                let x = d.wan->0;
                &&& x.skip(4) == f
                &&& x[0] * 0x100_0000 + x[1] * 0x1_0000 + x[2] * 0x100 + x[3] == f.len()
            }
        }),
{
    let me = PortId(v.ports[port].id);
    lemma_attached(v, port, mac, b);
    lemma_gateway_is_local(b, f);
    let answer = choose|answer: Option<Seq<u8>>| #[trigger]
        pump::service_answer(v, port, f, answer) && match answer {
            Some(reply) => w == v && d == pump::injected(port, reply),
            None => pump::frame_routed(v, port, me, f, w, d),
        };
    packet::law_every_packet_is_read(f);
    if f[23] == 17 {
        let u = f.skip(header_end(f));
        if f.len() >= header_end(f) + 8 {
            assert(u[0] == f[header_end(f)] && u[1] == f[header_end(f) + 1] && u[2] == f[header_end(
                f,
            ) + 2] && u[3] == f[header_end(f) + 3]);
        }
        assert(answer is None);
    } else {
        law_only_datagrams_are_served(v, port, f, answer);
    }
    gateway::law_every_foreign_packet_leaves(v.gateway, me, f, b.network);
    if f.len() <= 0xffff_ffff {
        passt::law_frames_are_written_whole(f);
    }
}

// -- answers of the gateway ---------------------------------------------------

/// Every ARP request of an attached VM for the address of the gateway is
/// answered, to that VM alone.
pub proof fn law_every_arp_request_is_answered(
    v: dataplane::DataView,
    port: Seq<char>,
    f: Seq<u8>,
    mac: MacAddr,
    b: ipam::IpamView,
    w: dataplane::DataView,
    d: pump::DeliveryView,
)
    requires
        v.sound(),
        attached_to(v, port, mac, b),
        f.len() >= 42,
        f.subrange(12, 22) == seq![0x08u8, 0x06, 0, 1, 0x08, 0, 6, 4, 0, 1],
        names_at(f, 38, b.network.gateway),
        pump::frame_pumped(v, port, PortId(v.ports[port].id), f, w, d),
    ensures
        w == v,
        d.wan is None,
        d.inject.len() == 1,
        d.inject[0].0 == port,
        ({
            let r = d.inject[0].1;
            let g = b.network.gateway;
            &&& r.len() == 42
            &&& r.take(6) == f.subrange(22, 28)
            &&& r.subrange(20, 28) == seq![0u8, 2, 0x02, 0, g.a, g.b, g.c, g.d]
            &&& r.subrange(28, 32) == seq![g.a, g.b, g.c, g.d]
            &&& r.subrange(32, 38) == f.subrange(22, 28)
        }),
{
    let me = PortId(v.ports[port].id);
    lemma_attached(v, port, mac, b);
    let s = f.subrange(12, 22);
    assert(f[12] == s[0] && f[13] == s[1]);
    let answer = choose|answer: Option<Seq<u8>>| #[trigger]
        pump::service_answer(v, port, f, answer) && match answer {
            Some(reply) => w == v && d == pump::injected(port, reply),
            None => pump::frame_routed(v, port, me, f, w, d),
        };
    law_only_datagrams_are_served(v, port, f, answer);
    gateway::law_every_request_for_the_gateway_is_answered(v.gateway, me, f, b.network);
    let r = d.inject[0].1;
    let g = b.network.gateway;
    assert(r.take(6) =~= f.subrange(22, 28));
    assert(r.subrange(20, 28) =~= seq![0u8, 2, 0x02, 0, g.a, g.b, g.c, g.d]);
    assert(r.subrange(28, 32) =~= seq![g.a, g.b, g.c, g.d]);
    assert(r.subrange(32, 38) =~= f.subrange(22, 28));
}

/// Every echo request of an attached VM to the gateway is answered, to that VM
/// alone, with what it sent along.
pub proof fn law_every_ping_is_answered(
    v: dataplane::DataView,
    port: Seq<char>,
    f: Seq<u8>,
    mac: MacAddr,
    b: ipam::IpamView,
    w: dataplane::DataView,
    d: pump::DeliveryView,
)
    requires
        v.sound(),
        attached_to(v, port, mac, b),
        is_ipv4(f),
        f[23] == 1,
        names_at(f, 30, b.network.gateway),
        f.len() >= header_end(f) + 8,
        f[header_end(f)] == 8,
        pump::frame_pumped(v, port, PortId(v.ports[port].id), f, w, d),
    ensures
        w == v,
        d.wan is None,
        d.inject.len() == 1,
        d.inject[0].0 == port,
        ({
            let r = d.inject[0].1;
            let end = header_end(f);
            &&& r.len() == f.len()
            &&& r.take(6) == seq![mac.o0, mac.o1, mac.o2, mac.o3, mac.o4, mac.o5]
            &&& names_at(r, 26, b.network.gateway)
            &&& r.subrange(30, 34) == f.subrange(26, 30)
            &&& r[23] == 1 && r[end] == 0
            &&& r.skip(end + 4) == f.skip(end + 4)
        }),
{
    let me = PortId(v.ports[port].id);
    lemma_attached(v, port, mac, b);
    let s = seq![1u8, 6, 17, 47, 50, 51, 58];
    assert(s[0] == 1);
    let answer = choose|answer: Option<Seq<u8>>| #[trigger]
        pump::service_answer(v, port, f, answer) && match answer {
            Some(reply) => w == v && d == pump::injected(port, reply),
            None => pump::frame_routed(v, port, me, f, w, d),
        };
    law_only_datagrams_are_served(v, port, f, answer);
    packet::law_every_echo_request_is_answered(f, mac, b.network.gateway);
    let r = d.inject[0].1;
    assert(r.take(6) =~= r.take(14).take(6));
    assert(r.take(6) =~= seq![mac.o0, mac.o1, mac.o2, mac.o3, mac.o4, mac.o5]);
}

// -- other VMs ----------------------------------------------------------------

/// Whether the frame `f` of an attached VM is nothing that the services or the
/// gateway take: it carries
///
/// - neither ARP nor IPv4,
/// - ARP, but no request for the gateway,
/// - an IPv4 packet to an address in the network, which is neither an echo
///   request for the gateway, nor DHCP, nor a datagram to port 53 of the gateway.
pub open spec fn is_ordinary(b: ipam::IpamView, f: Seq<u8>) -> bool {
    let g = b.network.gateway;
    ||| f[12] != 0x08 || (f[13] != 0x00 && f[13] != 0x06)
    ||| {
        &&& f[12] == 0x08 && f[13] == 0x06
        &&& f.len() >= 42
        &&& !(f.subrange(14, 22) == seq![0u8, 1, 0x08, 0, 6, 4, 0, 1] && names_at(f, 38, g))
    }
    ||| {
        &&& is_ipv4(f)
        &&& packet::listed(f[23])
        &&& in_network(b, to_number(f))
        &&& !(f[23] == 1 && names_at(f, 30, g))
        &&& f[23] == 17 ==> is_udp(f) && !(from_port(f) == 68 && to_port(f) == 67) && !(to_port(f)
            == 53 && names_at(f, 30, g))
    }
}

/// Whether the frame `f` of the port `port` is for the MAC address of its WAN.
pub open spec fn is_for_wan(v: dataplane::DataView, port: Seq<char>, f: Seq<u8>) -> bool {
    let wan = v.passts[port].mac;
    v.passts.contains_key(port) && wan is Some && f.len() >= 6 && f[0] == wan->0.o0 && f[1]
        == wan->0.o1 && f[2] == wan->0.o2 && f[3] == wan->0.o3 && f[4] == wan->0.o4 && f[5]
        == wan->0.o5
}

/// Whether the frame `f` of an attached VM is nothing that the services, the
/// gateway or the WAN take.
pub open spec fn is_for_others(
    v: dataplane::DataView,
    port: Seq<char>,
    b: ipam::IpamView,
    f: Seq<u8>,
) -> bool {
    f.len() >= 18 && !is_for_wan(v, port, f) && is_ordinary(b, f)
}

/// A frame for the MAC address of the WAN that is nothing that the services or
/// the gateway take goes to the WAN process where that runs, whole, and nowhere
/// else.
pub proof fn law_every_frame_for_the_wan_reaches_it(
    v: dataplane::DataView,
    port: Seq<char>,
    f: Seq<u8>,
    mac: MacAddr,
    b: ipam::IpamView,
    w: dataplane::DataView,
    d: pump::DeliveryView,
)
    requires
        v.sound(),
        attached_to(v, port, mac, b),
        is_for_wan(v, port, f),
        f.len() >= 14,
        is_ordinary(b, f),
        pump::frame_pumped(v, port, PortId(v.ports[port].id), f, w, d),
    ensures
        w == v,
        d.inject.len() == 0,
        d.wan is Some <==> v.passts[port].live,
        v.passts[port].live && f.len() <= 0xffff_ffff ==> {
            let x = d.wan->0;
            &&& x.skip(4) == f
            &&& x[0] * 0x100_0000 + x[1] * 0x1_0000 + x[2] * 0x100 + x[3] == f.len()
        },
{
    let me = PortId(v.ports[port].id);
    let answer = choose|answer: Option<Seq<u8>>| #[trigger]
        pump::service_answer(v, port, f, answer) && match answer {
            Some(reply) => w == v && d == pump::injected(port, reply),
            None => pump::frame_routed(v, port, me, f, w, d),
        };
    lemma_nothing_else_takes(v, port, f, mac, b, answer);
    lemma_for_wan(v, port, f);
    if f.len() <= 0xffff_ffff {
        passt::law_frames_are_written_whole(f);
    }
}

/// Whether a frame is for the WAN, byte by byte.
proof fn lemma_for_wan(v: dataplane::DataView, port: Seq<char>, f: Seq<u8>)
    requires
        v.ports.contains_key(port),
        v.ports[port].network is Some,
    ensures
        pump::for_wan_mac(v, port, f) == is_for_wan(v, port, f),
{
    if f.len() >= 6 && v.passts.contains_key(port) && v.passts[port].mac is Some {
        let wan = v.passts[port].mac->0;
        let s = f.take(6);
        let t = wan.bytes();
        assert(s[0] == f[0] && s[1] == f[1] && s[2] == f[2] && s[3] == f[3] && s[4] == f[4] && s[5]
            == f[5]);
        assert(t[0] == wan.o0 && t[1] == wan.o1 && t[2] == wan.o2 && t[3] == wan.o3 && t[4] == wan.o4
            && t[5] == wan.o5);
        if is_for_wan(v, port, f) {
            assert(s =~= t);
        }
    }
}

/// A frame that is nothing that the services, the gateway or the WAN take goes
/// to other VMs of the network, whatever it carries and however long it is, and
/// to no process: its sender is then known at its port; a frame for a group, or
/// for a station that is not known, reaches every other VM of the network; one
/// for a station that is known at the port of another VM of the network reaches
/// that VM alone. Nobody gets anything but the frame.
pub proof fn law_every_other_frame_reaches_its_station(
    v: dataplane::DataView,
    port: Seq<char>,
    f: Seq<u8>,
    mac: MacAddr,
    b: ipam::IpamView,
    w: dataplane::DataView,
    d: pump::DeliveryView,
    other: Seq<char>,
)
    requires
        v.sound(),
        v.switch.table.valid(),
        v.switch.table.capacity > 0,
        attached_to(v, port, mac, b),
        is_for_others(v, port, b, f),
        pump::frame_pumped(v, port, PortId(v.ports[port].id), f, w, d),
    ensures
        ({
            let dst = MacAddr { o0: f[0], o1: f[1], o2: f[2], o3: f[3], o4: f[4], o5: f[5] };
            let src = MacAddr { o0: f[6], o1: f[7], o2: f[8], o3: f[9], o4: f[10], o5: f[11] };
            let table = w.switch.table.entries;
            let known = |q: PortId| table.contains((dst, q));
            let peer = other != port && v.ports.contains_key(other) && v.ports[other].network
                == v.ports[port].network;
            &&& d.wan is None
            &&& forall|i: int| 0 <= i < d.inject.len() ==> (#[trigger] d.inject[i]).1 == f
            &&& table.contains((src, PortId(v.ports[port].id)))
            &&& f[0] % 2 == 1 || (forall|q: PortId| !#[trigger] known(q)) ==> (d.inject.contains(
                (other, f),
            ) <==> peer)
            &&& f[0] % 2 == 0 && peer && known(PortId(v.ports[other].id)) ==> d.inject.len() == 1
                && d.inject[0].0 == other
        }),
{
    let me = PortId(v.ports[port].id);
    lemma_attached(v, port, mac, b);
    let g = b.network.gateway;
    let answer = choose|answer: Option<Seq<u8>>| #[trigger]
        pump::service_answer(v, port, f, answer) && match answer {
            Some(reply) => w == v && d == pump::injected(port, reply),
            None => pump::frame_routed(v, port, me, f, w, d),
        };
    lemma_nothing_else_takes(v, port, f, mac, b, answer);
    lemma_for_wan(v, port, f);
    assert(pump::switched(v, me, f, d));
    lemma_switched(v, port, f, mac, b, d, other);
}

/// No service and no gateway takes an ordinary frame.
proof fn lemma_nothing_else_takes(
    v: dataplane::DataView,
    port: Seq<char>,
    f: Seq<u8>,
    mac: MacAddr,
    b: ipam::IpamView,
    answer: Option<Seq<u8>>,
)
    requires
        v.sound(),
        attached_to(v, port, mac, b),
        f.len() >= 14,
        is_ordinary(b, f),
        pump::service_answer(v, port, f, answer),
    ensures
        ({
            let me = PortId(v.ports[port].id);
            &&& answer is None
            &&& pump::arp_answer(v, me, f) is None
            &&& pump::echo_answer(v, port, f) is None
            &&& !pump::leaves(v, me, f)
        }),
{
    let me = PortId(v.ports[port].id);
    lemma_attached(v, port, mac, b);
    let g = b.network.gateway;
    packet::law_every_packet_is_read(f);
    if f[12] != 0x08 || (f[13] != 0x00 && f[13] != 0x06) {
        law_only_datagrams_are_served(v, port, f, answer);
        assert(packet::packet_in(f) is None);
    } else if f[13] == 0x06 {
        law_only_datagrams_are_served(v, port, f, answer);
        gateway::law_only_requests_for_the_gateway_are_answered(v.gateway, me, f, b.network, 14);
        let t = f.subrange(38, 42);
        assert(t[0] == f[38] && t[1] == f[39] && t[2] == f[40] && t[3] == f[41]);
        if t == seq![g.a, g.b, g.c, g.d] {
            assert(names_at(f, 38, g));
        }
    } else {
        assert(is_ipv4(f));
        if f[23] == 17 {
            law_dns_is_served(v, port, f, mac, b, answer);
        } else {
            law_only_datagrams_are_served(v, port, f, answer);
        }
        gateway::law_every_foreign_packet_leaves(v.gateway, me, f, b.network);
        packet::law_every_echo_request_is_answered(f, mac, g);
    }
}

/// What the switch makes of a frame, by the names of the ports.
proof fn lemma_switched(
    v: dataplane::DataView,
    port: Seq<char>,
    f: Seq<u8>,
    mac: MacAddr,
    b: ipam::IpamView,
    d: pump::DeliveryView,
    other: Seq<char>,
)
    requires
        v.sound(),
        v.switch.table.valid(),
        v.switch.table.capacity > 0,
        attached_to(v, port, mac, b),
        f.len() >= 18,
        pump::switched(v, PortId(v.ports[port].id), f, d),
    ensures
        ({
            let me = PortId(v.ports[port].id);
            let dst = MacAddr { o0: f[0], o1: f[1], o2: f[2], o3: f[3], o4: f[4], o5: f[5] };
            let src = MacAddr { o0: f[6], o1: f[7], o2: f[8], o3: f[9], o4: f[10], o5: f[11] };
            let table = v.switch.after(me, f).table.entries;
            let known = |q: PortId| table.contains((dst, q));
            let peer = other != port && v.ports.contains_key(other) && v.ports[other].network
                == v.ports[port].network;
            &&& d.wan is None
            &&& forall|i: int| 0 <= i < d.inject.len() ==> (#[trigger] d.inject[i]).1 == f
            &&& table.contains((src, me))
            &&& f[0] % 2 == 1 || (forall|q: PortId| !#[trigger] known(q)) ==> (d.inject.contains(
                (other, f),
            ) <==> peer)
            &&& f[0] % 2 == 0 && peer && known(PortId(v.ports[other].id)) ==> d.inject.len() == 1
                && d.inject[0].0 == other
        }),
{
    let me = PortId(v.ports[port].id);
    lemma_attached(v, port, mac, b);
    let ids = choose|ids: Seq<PortId>| #[trigger]
        engine::lists(ids, pump::targets(v, me, f)) && d.inject == pump::named(v, ids, f);
    let dst = MacAddr { o0: f[0], o1: f[1], o2: f[2], o3: f[3], o4: f[4], o5: f[5] };
    let table = v.switch.after(me, f).table.entries;
    let known = |q: PortId| table.contains((dst, q));
    let peer = other != port && v.ports.contains_key(other) && v.ports[other].network
        == v.ports[port].network;
    engine::law_every_frame_is_forwarded(v.switch, me, f, me);
    assert(d.inject.len() == ids.len());
    if f[0] % 2 == 1 || (forall|q: PortId| !#[trigger] known(q)) {
        if peer {
            let to = PortId(v.ports[other].id);
            assert(v.port_sound(other));
            assert(v.port_sound(port));
            engine::law_every_frame_is_forwarded(v.switch, me, f, to);
            assert(pump::targets(v, me, f).contains(to));
            assert(ids.contains(to));
            let i = ids.index_of(to);
            assert(d.inject[i] == (other, f));
        }
        if d.inject.contains((other, f)) {
            let i = d.inject.index_of((other, f));
            let to = ids[i];
            assert(ids.contains(to));
            assert(pump::targets(v, me, f).contains(to));
            engine::law_every_frame_is_forwarded(v.switch, me, f, to);
            assert(d.inject[i].0 == v.names[to]);
            assert(v.port_sound(v.names[to]));
        }
    }
    if f[0] % 2 == 0 && peer && known(PortId(v.ports[other].id)) {
        let to = PortId(v.ports[other].id);
        assert(v.port_sound(other));
        engine::law_every_frame_is_forwarded(v.switch, me, f, to);
        assert(v.switch.egress(me, f).contains(to));
        assert(pump::targets(v, me, f).contains(to));
        assert(ids.contains(to));
        assert forall|i: int| 0 <= i < ids.len() implies ids[i] == to by {
            assert(ids.contains(ids[i]));
            assert(pump::targets(v, me, f).contains(ids[i]));
            engine::law_every_frame_is_forwarded(v.switch, me, f, ids[i]);
            assert(known(to));
        }
        if ids.len() > 1 {
            assert(ids[0] == ids[1]);
        }
        let i = ids.index_of(to);
        assert(d.inject[i] == (other, f));
    }
}

/// What a datagram carries is what it says it does, or all that is there where
/// it says more; nothing where it says that it is shorter than its header.
pub proof fn law_datagrams_are_cut_to_their_length(u: Seq<u8>)
    requires
        u.len() >= 8,
    ensures
        ({
            let n = u[4] * 256 + u[5];
            pump::udp_payload(u) == u.subrange(
                8,
                if n < 8 {
                    8
                } else if n < u.len() {
                    n
                } else {
                    u.len() as int
                },
            )
        }),
{
}

} // verus!
