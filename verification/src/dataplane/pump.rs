//! What becomes of a frame that a VM sends.
//!
//! The services of the gateway come first: DHCP and DNS are answered before
//! anything else is made of the frame. Then the gateway answers ARP and echo
//! requests for its address, and what is for the WAN goes to the process of
//! the port. Everything else is the switch's.

use vstd::prelude::*;
use vstd::slice::slice_subrange;

use crate::bytes;
use crate::bytes::read_be16;
use crate::dataplane;
use crate::dataplane::Dataplane;
use crate::dhcp;
use crate::dhcp::DhcpServer;
use crate::dns;
use crate::dns::UpstreamSender;
use crate::ipam;
use crate::model::{Ipv4Addr, MacAddr};
use crate::net;
use crate::packet;
use crate::packet::{ethertype, gateway_icmp_reply, parse_ipv4, wrap_udp_reply, IPPROTO_UDP};
use crate::passt;
use crate::passt::encode_frame;
use crate::switch::engine;
use crate::switch::frame::mac_at;
use crate::switch::gateway;
use crate::switch::gateway::{read_address, GatewayAction, ETHERTYPE_ARP, ETHERTYPE_IPV4};
use crate::switch::mac_table::PortId;

verus! {

/// The port of DHCP servers.
pub const DHCP_SERVER_PORT: u16 = 67;

/// The port of DHCP clients.
pub const DHCP_CLIENT_PORT: u16 = 68;

/// The port of DNS servers.
pub const DNS_PORT: u16 = 53;

// -- services -----------------------------------------------------------------

/// A UDP datagram that an attached port sends: the bindings of its network,
/// its MAC, and the datagram.
pub struct Datagram {
    pub ipam: ipam::IpamView,
    pub mac: MacAddr,
    pub src: Ipv4Addr,
    pub dst: Ipv4Addr,
    pub sport: u16,
    pub dport: u16,
    pub payload: Seq<u8>,
}

/// The payload of the UDP datagram `u`: as much as its length says, where
/// there is that much.
pub open spec fn udp_payload(u: Seq<u8>) -> Seq<u8> {
    let announced = bytes::be16(u[4], u[5]);
    let len = if announced < 8 {
        8
    } else {
        announced as int
    };
    u.subrange(
        8,
        if len < u.len() {
            len
        } else {
            u.len() as int
        },
    )
}

/// The UDP datagram in the frame `f` that the port `port` sends, where the
/// port is attached to a network that is there.
pub open spec fn datagram(v: dataplane::DataView, port: Seq<char>, f: Seq<u8>) -> Option<Datagram> {
    let p = v.ports[port];
    match packet::packet_in(f) {
        Some(ip) => if v.ports.contains_key(port) && p.network is Some && p.mac is Some
            && v.networks.contains_key(p.network->0) && ip.proto == IPPROTO_UDP
            && ip.payload.len() >= 8 {
            Some(
                Datagram {
                    ipam: v.networks[p.network->0].ipam,
                    mac: p.mac->0,
                    src: ip.src,
                    dst: ip.dst,
                    sport: bytes::be16(ip.payload[0], ip.payload[1]) as u16,
                    dport: bytes::be16(ip.payload[2], ip.payload[3]) as u16,
                    payload: udp_payload(ip.payload),
                },
            )
        } else {
            None
        },
        None => None,
    }
}

/// The address that the DHCP packet `reply` gives to the client.
pub open spec fn given_address(reply: Seq<u8>) -> Ipv4Addr {
    if reply.len() >= 20 {
        gateway::address_at(reply, 16)
    } else {
        net::any_address()
    }
}

/// Whether `r` is a DHCP answer to the datagram `d` in the frame `f`: that of
/// a server with the bindings of the network as they are, sent to the station
/// that the frame came from.
pub open spec fn dhcp_answer(d: Datagram, f: Seq<u8>, r: Option<Seq<u8>>) -> bool {
    if dhcp::acceptable(d.payload) {
        exists|after: ipam::IpamView, reply: Option<Seq<u8>>| #[trigger]
            dhcp::answers(d.ipam, dhcp::message_in(d.payload), after, reply) && r == (match reply {
                Some(b) => Some(
                    packet::udp_reply(
                        b,
                        MacAddr::of(f.subrange(6, 12)),
                        d.ipam.network.gateway,
                        given_address(b),
                        DHCP_SERVER_PORT,
                        DHCP_CLIENT_PORT,
                    ),
                ),
                None => None,
            })
    } else {
        r is None
    }
}

/// Whether `r` is a DNS answer to the datagram `d`, with the given upstreams:
/// the datagram's payload is relayed to them, and what that comes to is sent to
/// the port's MAC.
pub open spec fn dns_answer(
    d: Datagram,
    upstreams: Seq<Box<dyn UpstreamSender>>,
    r: Option<Seq<u8>>,
) -> bool {
    if dns::asks(d.payload) {
        exists|os: Seq<Option<Seq<u8>>>| #[trigger]
            dns::tried(d.payload, os, upstreams) && r == Some(
                packet::udp_reply(
                    dns::settled(dns::id_of(d.payload), os),
                    d.mac,
                    d.ipam.network.gateway,
                    d.src,
                    DNS_PORT,
                    d.sport,
                ),
            )
    } else {
        r is None
    }
}

/// Whether `r` is the answer of a service to the frame `f` that the port
/// `port` sends: DHCP from the client's port to the server's, and DNS to the
/// gateway.
pub open spec fn service_answer(
    v: dataplane::DataView,
    port: Seq<char>,
    f: Seq<u8>,
    r: Option<Seq<u8>>,
) -> bool {
    match datagram(v, port, f) {
        Some(d) => if d.dport == DHCP_SERVER_PORT && d.sport == DHCP_CLIENT_PORT {
            dhcp_answer(d, f, r)
        } else if d.dport == DNS_PORT && d.dst == d.ipam.network.gateway {
            dns_answer(d, v.upstreams, r)
        } else {
            r is None
        },
        None => r is None,
    }
}

/// The content of optional bytes.
pub open spec fn optional_bytes(b: Option<Vec<u8>>) -> Option<Seq<u8>> {
    match b {
        Some(b) => Some(b@),
        None => None,
    }
}

impl Dataplane {
    /// The frame in which a service answers the frame that the port sends.
    pub fn service_reply(&self, port: &str, frame: &[u8]) -> (r: Option<Vec<u8>>)
        ensures
            service_answer(self@, port@, frame@, optional_bytes(r)),
    {
        let lp = match self.ports.get(port) {
            Some(lp) => lp,
            None => {
                return None;
            },
        };
        let (net_name, vm_mac) = match (&lp.network, lp.mac) {
            (Some(net), Some(mac)) => (net, mac),
            _ => {
                return None;
            },
        };
        let entry = match self.networks.get(net_name.as_str()) {
            Some(entry) => entry,
            None => {
                return None;
            },
        };
        let gateway_ip = entry.ipam.network().gateway;
        let ip = match parse_ipv4(frame) {
            Some(ip) => ip,
            None => {
                return None;
            },
        };
        if ip.proto != IPPROTO_UDP || ip.payload.len() < 8 {
            return None;
        }
        let sport: u16 = read_be16(ip.payload[0], ip.payload[1]);
        let dport: u16 = read_be16(ip.payload[2], ip.payload[3]);
        let announced: usize = read_be16(ip.payload[4], ip.payload[5]) as usize;
        let len: usize = if announced < 8 {
            8
        } else {
            announced
        };
        let end: usize = if len < ip.payload.len() {
            len
        } else {
            ip.payload.len()
        };
        let payload = slice_subrange(ip.payload, 8, end);
        let ghost d = datagram(self@, port@, frame@)->0;
        assert(payload@ == d.payload);
        if dport == DHCP_SERVER_PORT && sport == DHCP_CLIENT_PORT {
            let mut server = DhcpServer::new(entry.ipam.clone());
            let mut copy: Vec<u8> = Vec::new();
            let answered = match server.handle(payload) {
                Some(b) => {
                    bytes::push_all(&mut copy, b);
                    true
                },
                None => false,
            };
            let ghost answer = if answered {
                Some(copy@)
            } else {
                None
            };
            proof {
                if dhcp::acceptable(payload@) {
                    assert(dhcp::answers(
                        d.ipam,
                        dhcp::message_in(payload@),
                        server@,
                        answer,
                    ));
                }
            }
            if !answered {
                return None;
            }
            let reply = copy.as_slice();
            let yiaddr = if reply.len() >= 20 {
                read_address(reply, 16)
            } else {
                Ipv4Addr::unspecified()
            };
            return Some(
                wrap_udp_reply(
                    reply,
                    mac_at(frame, 6),
                    gateway_ip,
                    yiaddr,
                    DHCP_SERVER_PORT,
                    DHCP_CLIENT_PORT,
                ),
            );
        }
        if dport == DNS_PORT && ip.dst == gateway_ip {
            return match self.dns.handle(payload) {
                Some(answer) => Some(
                    wrap_udp_reply(
                        answer.as_slice(),
                        vm_mac,
                        gateway_ip,
                        ip.src,
                        DNS_PORT,
                        sport,
                    ),
                ),
                None => None,
            };
        }
        None
    }
}

// -- the way of a frame -------------------------------------------------------

/// What is to be done with a frame.
#[derive(Debug)]
pub struct Delivery {
    /// The frames that ports get, by name.
    pub inject: Vec<(String, Vec<u8>)>,
    /// The bytes that the WAN process of the sending port gets.
    pub wan: Option<Vec<u8>>,
}

/// What a [`Delivery`] holds.
#[verifier::ext_equal]
pub struct DeliveryView {
    pub inject: Seq<(Seq<char>, Seq<u8>)>,
    pub wan: Option<Seq<u8>>,
}

impl View for Delivery {
    type V = DeliveryView;

    open spec fn view(&self) -> DeliveryView {
        DeliveryView {
            inject: self.inject@.map_values(|e: (String, Vec<u8>)| (e.0@, e.1@)),
            wan: optional_bytes(self.wan),
        }
    }
}

/// The port `port` gets the frame `f`.
pub open spec fn injected(port: Seq<char>, f: Seq<u8>) -> DeliveryView {
    DeliveryView { inject: seq![(port, f)], wan: None }
}

/// The WAN process of the port `port` gets the frame `f`, where it runs.
pub open spec fn egressed(v: dataplane::DataView, port: Seq<char>, f: Seq<u8>) -> DeliveryView {
    DeliveryView {
        inject: seq![],
        wan: if v.passts.contains_key(port) && v.passts[port].live {
            Some(passt::frame_bytes(f))
        } else {
            None
        },
    }
}

/// The answer of the gateway to an ARP request in the frame `f`.
pub open spec fn arp_answer(v: dataplane::DataView, me: PortId, f: Seq<u8>) -> Option<Seq<u8>> {
    if packet::ethertype_of(f) == Some(ETHERTYPE_ARP) {
        match v.gateway.action(me, f) {
            gateway::ActionView::ArpReply(reply) => Some(reply),
            _ => None,
        }
    } else {
        None
    }
}

/// The answer of the gateway to an echo request in the frame `f` that the port
/// `port` sends.
pub open spec fn echo_answer(v: dataplane::DataView, port: Seq<char>, f: Seq<u8>) -> Option<
    Seq<u8>,
> {
    let p = v.ports[port];
    if v.ports.contains_key(port) && p.network is Some && p.mac is Some && v.networks.contains_key(
        p.network->0,
    ) {
        packet::echo_reply(f, p.mac->0, v.networks[p.network->0].ipam.network.gateway)
    } else {
        None
    }
}

/// Whether the frame `f` leaves the network of the port `me`.
pub open spec fn leaves(v: dataplane::DataView, me: PortId, f: Seq<u8>) -> bool {
    packet::ethertype_of(f) == Some(ETHERTYPE_IPV4) && v.gateway.action(me, f) is Wan
}

/// Whether the frame `f` that the port `port` sends is for its WAN, which it
/// has while it is attached.
pub open spec fn for_wan_mac(v: dataplane::DataView, port: Seq<char>, f: Seq<u8>) -> bool {
    &&& v.ports.contains_key(port)
    &&& v.ports[port].network is Some
    &&& v.passts.contains_key(port)
    &&& v.passts[port].mac is Some
    &&& f.len() >= 6
    &&& f.take(6) == v.passts[port].mac->0.bytes()
}

/// The ports that the switch sends the frame `f` to, as far as they have a
/// name.
pub open spec fn targets(v: dataplane::DataView, me: PortId, f: Seq<u8>) -> Set<PortId> {
    v.switch.egress(me, f).filter(|p: PortId| p != me && v.names.contains_key(p))
}

/// The ports `ids`, by name, each with the frame `f`.
pub open spec fn named(v: dataplane::DataView, ids: Seq<PortId>, f: Seq<u8>) -> Seq<
    (Seq<char>, Seq<u8>),
> {
    ids.map_values(|p: PortId| (v.names[p], f))
}

/// Whether `d` sends the frame `f` to each of its targets at the switch.
pub open spec fn switched(
    v: dataplane::DataView,
    me: PortId,
    f: Seq<u8>,
    d: DeliveryView,
) -> bool {
    &&& d.wan is None
    &&& exists|ids: Seq<PortId>| #[trigger]
        engine::lists(ids, targets(v, me, f)) && d.inject == named(v, ids, f)
}

/// Whether the frame `f`, which no service answers, may take the state `v` to
/// `w` and lead to `d`: the gateway answers it, it goes to the WAN, or the
/// switch forwards it.
pub open spec fn frame_routed(
    v: dataplane::DataView,
    port: Seq<char>,
    me: PortId,
    f: Seq<u8>,
    w: dataplane::DataView,
    d: DeliveryView,
) -> bool {
    if arp_answer(v, me, f) is Some {
        w == v && d == injected(port, arp_answer(v, me, f)->0)
    } else if echo_answer(v, port, f) is Some {
        w == v && d == injected(port, echo_answer(v, port, f)->0)
    } else if leaves(v, me, f) || for_wan_mac(v, port, f) {
        w == v && d == egressed(v, port, f)
    } else {
        &&& w == (dataplane::DataView { switch: v.switch.after(me, f), ..v })
        &&& switched(v, me, f, d)
    }
}

/// Whether the frame `f` that the port `port` sends may take the state `v` to
/// `w` and lead to `d`.
pub open spec fn frame_pumped(
    v: dataplane::DataView,
    port: Seq<char>,
    me: PortId,
    f: Seq<u8>,
    w: dataplane::DataView,
    d: DeliveryView,
) -> bool {
    exists|answer: Option<Seq<u8>>| #[trigger]
        service_answer(v, port, f, answer) && match answer {
            Some(reply) => w == v && d == injected(port, reply),
            None => frame_routed(v, port, me, f, w, d),
        }
}

/// A frame for one port.
fn inject_one(port: &str, frame: Vec<u8>) -> (r: Delivery)
    ensures
        r@ == injected(port@, frame@),
{
    let mut inject: Vec<(String, Vec<u8>)> = Vec::new();
    inject.push((port.to_owned(), frame));
    let r = Delivery { inject, wan: None };
    assert(r@ =~= injected(port@, frame@));
    r
}

impl Dataplane {
    /// The answer of the gateway to an echo request that the port sends.
    fn echo_reply(&self, port: &str, frame: &[u8]) -> (r: Option<Vec<u8>>)
        ensures
            optional_bytes(r) == echo_answer(self@, port@, frame@),
    {
        let lp = match self.ports.get(port) {
            Some(lp) => lp,
            None => {
                return None;
            },
        };
        match (&lp.network, lp.mac) {
            (Some(net), Some(mac)) => match self.networks.get(net.as_str()) {
                Some(entry) => gateway_icmp_reply(frame, mac, entry.ipam.network().gateway),
                None => None,
            },
            _ => None,
        }
    }

    /// A frame for the WAN process of the port.
    fn egress(&self, port: &str, frame: &[u8]) -> (r: Delivery)
        ensures
            r@ == egressed(self@, port@, frame@),
    {
        let wan = if self.passt_runs(port) {
            Some(encode_frame(frame))
        } else {
            None
        };
        let r = Delivery { inject: Vec::new(), wan };
        assert(r@ =~= egressed(self@, port@, frame@));
        r
    }

    /// Whether the frame that the port sends is for its WAN.
    fn is_for_wan_mac(&self, port: &str, frame: &[u8]) -> (r: bool)
        ensures
            r == for_wan_mac(self@, port@, frame@),
    {
        if frame.len() < 6 {
            return false;
        }
        let attached = match self.ports.get(port) {
            Some(lp) => lp.network.is_some(),
            None => false,
        };
        if !attached {
            return false;
        }
        let dst = mac_at(frame, 0);
        assert(frame@.subrange(0, 6) =~= frame@.take(6));
        match self.passts.get(port) {
            Some(slot) => match slot.mac {
                Some(mac) => {
                    assert(MacAddr::of(mac.bytes()) == mac);
                    assert(MacAddr::of(dst.bytes()) == dst);
                    mac == dst
                },
                None => false,
            },
            None => false,
        }
    }

    /// The frame that the switch makes of one that arrives at the port `me`.
    fn forward(&mut self, me: PortId, frame: &[u8]) -> (r: Delivery)
        ensures
            final(self)@ == (dataplane::DataView {
                switch: old(self)@.switch.after(me, frame@),
                ..old(self)@
            }),
            switched(old(self)@, me, frame@, r@),
    {
        let ghost v = self@;
        let out = self.switch.forward(me, frame);
        let ghost all = out@.map_values(|e: (PortId, &[u8])| e.0);
        let mut inject: Vec<(String, Vec<u8>)> = Vec::new();
        let ghost mut ids: Seq<PortId> = Seq::empty();
        let mut i: usize = 0;
        assert(self@ =~= dataplane::DataView {
            switch: v.switch.after(me, frame@),
            ..v
        });
        while i < out.len()
            invariant
                i <= out.len(),
                self@.names == v.names,
                all == out@.map_values(|e: (PortId, &[u8])| e.0),
                engine::lists(all, v.switch.egress(me, frame@)),
                forall|k: int| 0 <= k < out.len() ==> (#[trigger] out[k]).1@ == frame@,
                ids.len() == inject.len(),
                forall|k: int|
                    0 <= k < ids.len() ==> (#[trigger] inject@[k]).0@ == v.names[ids[k]]
                        && inject@[k].1@ == frame@,
                ids.no_duplicates(),
                forall|p: PortId| #[trigger]
                    ids.contains(p) <==> p != me && v.names.contains_key(p) && all.take(
                        i as int,
                    ).contains(p),
            decreases out.len() - i,
        {
            let (port, f) = out[i];
            let ghost before = ids;
            proof {
                assert(all[i as int] == port);
                assert(all.take(i + 1) =~= all.take(i as int).push(port));
                assert(!all.take(i as int).contains(port)) by {
                    if all.take(i as int).contains(port) {
                        let k = all.take(i as int).index_of(port);
                        assert(all[k] == all[i as int]);
                    }
                }
            }
            if port.0 != me.0 {
                if let Some(name) = self.names.get(&port.0) {
                    assert(v.names.contains_key(port));
                    let mut copy: Vec<u8> = Vec::new();
                    bytes::push_all(&mut copy, f);
                    inject.push((name.clone(), copy));
                    proof {
                        assert(!ids.contains(port));
                        ids = ids.push(port);
                    }
                } else {
                    assert(!v.names.contains_key(port));
                }
            }
            proof {
                assert forall|p: PortId| #[trigger] ids.contains(p) <==> p != me
                    && v.names.contains_key(p) && all.take(i + 1).contains(p) by {
                    lemma_push_contains(all.take(i as int), port, p);
                    lemma_push_contains(before, port, p);
                    assert(before.contains(p) <==> p != me && v.names.contains_key(p) && all.take(
                        i as int,
                    ).contains(p));
                }
            }
            i = i + 1;
        }
        let r = Delivery { inject, wan: None };
        proof {
            assert(all.take(all.len() as int) =~= all);
            assert(engine::lists(ids, targets(v, me, frame@)));
            assert(r@.inject =~= named(v, ids, frame@));
        }
        r
    }

    /// What is to be done with the frame that the port `port`, with the handle
    /// `me`, sends and that no service answers.
    pub fn route(&mut self, port: &str, me: PortId, frame: &[u8]) -> (r: Delivery)
        ensures
            frame_routed(old(self)@, port@, me, frame@, final(self)@, r@),
    {
        let kind = ethertype(frame);
        if kind == Some(ETHERTYPE_ARP) {
            if let GatewayAction::ArpReply(reply) = self.gateway.handle_frame(me, frame) {
                return inject_one(port, reply);
            }
        }
        if let Some(reply) = self.echo_reply(port, frame) {
            return inject_one(port, reply);
        }
        if kind == Some(ETHERTYPE_IPV4) {
            if let GatewayAction::Wan(_) = self.gateway.handle_frame(me, frame) {
                return self.egress(port, frame);
            }
        }
        if self.is_for_wan_mac(port, frame) {
            return self.egress(port, frame);
        }
        self.forward(me, frame)
    }

    /// What is to be done with the frame that the port `port`, with the handle
    /// `me`, sends.
    pub fn pump_frame(&mut self, port: &str, me: PortId, frame: &[u8]) -> (r: Delivery)
        ensures
            frame_pumped(old(self)@, port@, me, frame@, final(self)@, r@),
    {
        let answer = self.service_reply(port, frame);
        assert(service_answer(self@, port@, frame@, optional_bytes(answer)));
        match answer {
            Some(reply) => inject_one(port, reply),
            None => self.route(port, me, frame),
        }
    }
}

/// What a sequence holds once `x` is appended to it.
proof fn lemma_push_contains(s: Seq<PortId>, x: PortId, p: PortId)
    ensures
        s.push(x).contains(p) <==> s.contains(p) || p == x,
{
    assert(s.push(x)[s.len() as int] == x);
    if s.contains(p) {
        let i = s.index_of(p);
        assert(s.push(x)[i] == p);
    }
    if s.push(x).contains(p) {
        let i = s.push(x).index_of(p);
        if i < s.len() {
            assert(s[i] == p);
        }
    }
}

} // verus!
