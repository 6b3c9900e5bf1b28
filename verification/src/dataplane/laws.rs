//! What holds of the dataplane as a whole.

use vstd::prelude::*;

use crate::dataplane;
use crate::dataplane::control;
use crate::dataplane::pump;
use crate::dataplane::restore;
use crate::dataplane::store;
use crate::dhcp;
use crate::dns;
use crate::ipam;
use crate::json;
use crate::memory;
use crate::model;
use crate::model::{Ipv4Addr, MacAddr, Network};
use crate::net;
use crate::packet;
use crate::params;
use crate::protocol::RpcError;
use crate::server;
use crate::state;
use crate::switch::engine;
use crate::switch::mac_table::PortId;
use crate::text;

verus! {

/// The state at the start is sound, where no host port is published twice.
pub proof fn law_initial_state_is_sound(published: model::Published)
    requires
        model::hosts_distinct(published),
    ensures
        dataplane::DataView::initial(published).sound(),
{
}

/// Other upstreams and another range of host ports keep the state sound.
pub proof fn law_settings_keep_the_state_sound(
    v: dataplane::DataView,
    upstreams: Seq<Box<dyn dns::UpstreamSender>>,
    range: (u16, u16),
)
    requires
        v.sound(),
    ensures
        (dataplane::DataView { upstreams, range, ..v }).sound(),
{
}

/// Every operation keeps the state sound.
pub proof fn law_operations_keep_the_state_sound(
    v: dataplane::DataView,
    op: server::Operation,
    p: json::Json,
    w: dataplane::DataView,
    plan: dataplane::PlanView,
)
    requires
        v.sound(),
        v.next_id < u32::MAX,
        control::operation_effect(v, op, p, w, plan),
    ensures
        w.sound(),
{
    match op {
        server::Operation::CreateNetwork => {
            if w != v {
                let n = choose|n: Network| #[trigger]
                    params::describes(p, n) && w == control::with_network(v, n, p);
                assert(w.networks[n.name@].ipam.sound());
                assert forall|m: Seq<char>| #[trigger] w.ports.contains_key(m) implies w.port_sound(
                    m,
                ) by {
                    assert(v.port_sound(m));
                }
            }
        },
        server::Operation::DeleteNetwork => {
            assert forall|m: Seq<char>| #[trigger] w.ports.contains_key(m) implies w.port_sound(
                m,
            ) by {
                assert(v.port_sound(m));
            }
        },
        server::Operation::CreatePort => {
            if w != v {
                lemma_new_port_is_sound(v, params::text_param(p, "name"@)->0);
            }
        },
        server::Operation::DeletePort => {
            if w != v {
                lemma_deleted_port_leaves_soundness(v, params::text_param(p, "name"@)->0);
            }
        },
        server::Operation::AttachPort => {
            if w != v {
                lemma_attached_port_is_sound(v, p, w, plan);
            }
        },
        server::Operation::DetachPort => {
            let name = params::text_param(p, "name"@)->0;
            if w != v {
                let q = v.ports[name];
                lemma_detached_port_is_sound(v, name);
                let u = control::without_attachment(v, name);
                lemma_release_keeps_soundness(u, q.network, q.mac);
                let x = control::released(u, q.network, q.mac);
                lemma_withdrawing_keeps_soundness(x, name);
            }
        },
        server::Operation::AllocateIp => {
            let net = params::text_param(p, "network"@);
            let mac = params::mac_param_in(p, "mac"@);
            if w != v {
                let ip = choose|ip: Result<Ipv4Addr, RpcError>| #[trigger]
                    control::bind_effect(v, net->0, mac->0, w, ip) && plan == (dataplane::PlanView {
                        steps: if ip is Ok {
                            seq![dataplane::StepView::Persist]
                        } else {
                            seq![]
                        },
                        reply: memory::address_outcome(ip),
                    });
                lemma_binding_keeps_soundness(v, net->0, mac->0, w, ip);
            }
        },
        server::Operation::ReleaseIp => {
            if w != v {
                lemma_release_keeps_soundness(
                    v,
                    params::text_param(p, "network"@),
                    params::mac_param_in(p, "mac"@),
                );
            }
        },
        server::Operation::PublishPort => {
            let pair = (
                params::text_param(p, "port"@)->0,
                params::number_param(p, "vm_port"@)->0,
            );
            if w != v {
                let h = choose|h: u16|
                    {
                        &&& #[trigger] model::lowest_free_host(v.published, v.range, h)
                        &&& w == (dataplane::DataView {
                            published: v.published.insert(pair, h),
                            ..v
                        })
                        &&& control::forwards_changed(w, pair.0, memory::host_json(h), plan)
                    };
                model::law_publishing_keeps_hosts_distinct(v.published, pair, v.range, h);
                lemma_same_ports(v, w);
            }
        },
        server::Operation::UnpublishPort => {
            let pair = (
                params::text_param(p, "port"@)->0,
                params::number_param(p, "vm_port"@)->0,
            );
            if w != v {
                model::law_withdrawing_keeps_hosts_distinct(v.published, pair, pair.0);
                lemma_same_ports(v, w);
            }
        },
        _ => {},
    }
}

/// What is published and bound has no part in whether ports are sound.
proof fn lemma_same_ports(v: dataplane::DataView, w: dataplane::DataView)
    requires
        v.sound(),
        w.ports == v.ports,
        w.names == v.names,
        w.next_id == v.next_id,
        w.switch.ports == v.switch.ports,
        w.gateway.ports == v.gateway.ports,
    ensures
        forall|m: Seq<char>| #[trigger] w.ports.contains_key(m) ==> w.port_sound(m),
{
    assert forall|m: Seq<char>| #[trigger] w.ports.contains_key(m) implies w.port_sound(m) by {
        assert(v.port_sound(m));
    }
}

proof fn lemma_new_port_is_sound(v: dataplane::DataView, name: Seq<char>)
    requires
        v.sound(),
        v.next_id < u32::MAX,
        !v.ports.contains_key(name),
    ensures
        control::with_new_port(v, name).sound(),
{
    let w = control::with_new_port(v, name);
    let id = PortId(v.next_id);
    assert(!v.names.contains_key(id)) by {
        if v.names.contains_key(id) {
            assert(v.port_sound(v.names[id]));
        }
    }
    assert(!v.gateway.ports.contains_key(id));
    assert forall|m: Seq<char>| #[trigger] w.ports.contains_key(m) implies w.port_sound(m) by {
        if m != name {
            assert(v.port_sound(m));
        }
    }
}

proof fn lemma_detached_port_is_sound(v: dataplane::DataView, name: Seq<char>)
    requires
        v.sound(),
        v.ports.contains_key(name),
    ensures
        control::without_attachment(v, name).sound(),
{
    let w = control::without_attachment(v, name);
    assert(v.port_sound(name));
    assert forall|m: Seq<char>| #[trigger] w.ports.contains_key(m) implies w.port_sound(m) by {
        assert(v.port_sound(m));
    }
}

proof fn lemma_release_keeps_soundness(
    v: dataplane::DataView,
    net: Option<Seq<char>>,
    mac: Option<MacAddr>,
)
    requires
        v.sound(),
    ensures
        control::released(v, net, mac).sound(),
{
    let w = control::released(v, net, mac);
    if net is Some && mac is Some && v.networks.contains_key(net->0) {
        assert(v.networks[net->0].ipam.unbind(mac->0).sound());
        lemma_same_ports(v, w);
    }
}

proof fn lemma_withdrawing_keeps_soundness(v: dataplane::DataView, name: Seq<char>)
    requires
        v.sound(),
    ensures
        v.without_forwards(name).sound(),
{
    model::law_withdrawing_keeps_hosts_distinct(v.published, (name, 0), name);
    lemma_same_ports(v, v.without_forwards(name));
}

proof fn lemma_deleted_port_leaves_soundness(v: dataplane::DataView, name: Seq<char>)
    requires
        v.sound(),
        v.ports.contains_key(name),
    ensures
        control::without_port(v, name).sound(),
{
    let q = v.ports[name];
    let w = control::without_port(v, name);
    assert(v.port_sound(name));
    lemma_release_keeps_soundness(v, q.network, q.mac);
    let u = control::released(v, q.network, q.mac);
    model::law_withdrawing_keeps_hosts_distinct(v.published, (name, 0), name);
    assert forall|m: Seq<char>| #[trigger] w.ports.contains_key(m) implies w.port_sound(m) by {
        assert(u.port_sound(m));
    }
    assert forall|n: Seq<char>| #[trigger] w.networks.contains_key(n) implies u.networks.contains_key(
        n,
    ) by {}
}

proof fn lemma_binding_keeps_soundness(
    v: dataplane::DataView,
    net: Seq<char>,
    mac: MacAddr,
    w: dataplane::DataView,
    r: Result<Ipv4Addr, RpcError>,
)
    requires
        v.sound(),
        control::bind_effect(v, net, mac, w, r),
    ensures
        w.sound(),
{
    if w != v {
        ipam::law_allocation_stays_sound(v.networks[net].ipam, mac, r->Ok_0);
        lemma_same_ports(v, w);
    }
}

proof fn lemma_attached_port_is_sound(
    v: dataplane::DataView,
    p: json::Json,
    w: dataplane::DataView,
    plan: dataplane::PlanView,
)
    requires
        v.sound(),
        control::attach_port_effect(v, p, w, plan),
        w != v,
    ensures
        w.sound(),
{
    let port = params::text_param(p, "port"@)->0;
    let net = params::text_param(p, "network"@)->0;
    let mac = params::mac_param_in(p, "mac"@)->0;
    let (u, ip) = choose|u: dataplane::DataView, ip: Result<Ipv4Addr, RpcError>| #[trigger]
        control::bind_effect(v, net, mac, u, ip) && match ip {
            Ok(ip) => {
                &&& w == control::with_attachment(u, port, net, mac)
                &&& plan == control::attach_plan(port, mac, ip)
            },
            Err(e) => w == u && plan == dataplane::failing(e),
        };
    lemma_binding_keeps_soundness(v, net, mac, u, ip);
    if ip is Ok {
        assert(u.networks.contains_key(net));
        assert(u.port_sound(port));
        assert forall|m: Seq<char>| #[trigger] w.ports.contains_key(m) implies w.port_sound(m) by {
            assert(u.port_sound(m));
        }
    }
}

/// Creating a network again with the same parameters does nothing; with others
/// it is in conflict, and nothing changes either.
pub proof fn law_creating_a_network_again(
    v: dataplane::DataView,
    p: json::Json,
    w: dataplane::DataView,
    plan: dataplane::PlanView,
    q: json::Json,
    x: dataplane::DataView,
    again: dataplane::PlanView,
)
    requires
        control::create_network_effect(v, p, w, plan),
        plan.reply is Ok,
        params::has_network_params(q),
        params::text_param(q, "name"@) == params::text_param(p, "name"@),
        control::create_network_effect(w, q, x, again),
    ensures
        x == w,
        q == p ==> again == dataplane::replying(seq![], json::Json::Null),
        q != p ==> again == dataplane::failing(RpcError::Conflict),
{
}

/// A port that is attached has the address that its WAN process is to run
/// for, and that is the one bound to its MAC; attaching it again does nothing.
pub proof fn law_attached_port_has_its_address(
    v: dataplane::DataView,
    p: json::Json,
    w: dataplane::DataView,
    plan: dataplane::PlanView,
    x: dataplane::DataView,
    again: dataplane::PlanView,
)
    requires
        control::attach_port_effect(v, p, w, plan),
        plan.reply is Ok,
        plan.steps.len() > 0,
        control::attach_port_effect(w, p, x, again),
    ensures
        ({
            let port = params::text_param(p, "port"@)->0;
            let mac = params::mac_param_in(p, "mac"@)->0;
            &&& w.address_of(port) is Some
            &&& plan == control::attach_plan(port, mac, w.address_of(port)->0)
        }),
        x == w,
        again == dataplane::replying(seq![], json::Json::Null),
{
}

/// An attachment survives a restart: where the state is written down after a
/// port was attached, the dataplane that starts with it has the port on the
/// network, with its MAC bound to the same address, and shows both as before.
/// The port is one of those whose sockets are to be bound.
pub proof fn law_attachment_survives_a_restart(
    v: dataplane::DataView,
    p: json::Json,
    w: dataplane::DataView,
    plan: dataplane::PlanView,
    s: state::StoreView,
    x: dataplane::DataView,
    q: json::Json,
)
    requires
        v.sound(),
        control::attach_port_effect(v, p, w, plan),
        plan.reply is Ok,
        plan.steps.len() > 0,
        store::kept(w, s),
        restore::restores(s, x),
    ensures
        ({
            let port = params::text_param(p, "port"@)->0;
            let net = params::text_param(p, "network"@)->0;
            let mac = params::mac_param_in(p, "mac"@)->0;
            &&& x.ports.contains_key(port)
            &&& x.ports[port].network == Some(net)
            &&& x.ports[port].mac == Some(mac)
            &&& x.networks.contains_key(net)
            &&& x.address_of(port) is Some
            &&& x.address_of(port) == w.address_of(port)
        }),
        control::network_shown(x, q) == control::network_shown(w, q),
        control::port_shown(x, q) == control::port_shown(w, q),
{
    let port = params::text_param(p, "port"@)->0;
    let net = params::text_param(p, "network"@)->0;
    if w != v {
        lemma_attached_port_is_sound(v, p, w, plan);
    }
    restore::law_restart_keeps_everything(w, s, x);
    restore::law_restart_is_not_seen(w, s, x, q);
    assert(w.ports.contains_key(port));
    assert(x.ports.contains_key(port));
    assert(w.networks.contains_key(net));
    assert(x.networks.contains_key(net));
}

/// A port that is attached otherwise keeps its attachment, and no address is
/// bound for the refused one.
pub proof fn law_conflicting_attachment_binds_nothing(
    v: dataplane::DataView,
    p: json::Json,
    w: dataplane::DataView,
    plan: dataplane::PlanView,
)
    requires
        control::attach_port_effect(v, p, w, plan),
        params::text_param(p, "port"@) is Some,
        v.ports.contains_key(params::text_param(p, "port"@)->0),
        v.ports[params::text_param(p, "port"@)->0].network is Some,
    ensures
        w == v,
{
}

/// While a pair is published, publishing it again gives its host port again
/// and changes nothing.
pub proof fn law_publishing_again(
    v: dataplane::DataView,
    p: json::Json,
    w: dataplane::DataView,
    plan: dataplane::PlanView,
    x: dataplane::DataView,
    again: dataplane::PlanView,
)
    requires
        control::publish_port_effect(v, p, w, plan),
        plan.reply is Ok,
        control::publish_port_effect(w, p, x, again),
    ensures
        x == w,
        again == plan,
{
    let port = params::text_param(p, "port"@)->0;
    let vm_port = params::number_param(p, "vm_port"@)->0;
    let ip = w.reserved(port)->Ok_0;
    let host = w.published[(port, vm_port)];
    let f = choose|f: Seq<(u16, u16)>| #[trigger]
        model::forwards_of(w.published, port, f) && plan == dataplane::replying(
            seq![
                dataplane::StepView::Persist,
                dataplane::StepView::EnsurePasst { port, vm_ip: ip.text(), published: f },
            ],
            memory::host_json(host),
        );
    let g = choose|g: Seq<(u16, u16)>| #[trigger]
        model::forwards_of(w.published, port, g) && again == dataplane::replying(
            seq![
                dataplane::StepView::Persist,
                dataplane::StepView::EnsurePasst { port, vm_ip: ip.text(), published: g },
            ],
            memory::host_json(host),
        );
    model::lemma_forwards_are_one(w.published, port, f, g);
}

/// Once a port is detached or deleted, what was published for it is free to be
/// published by others, its address is free, and its WAN process is to be
/// stopped. That holds as well where its network was gone, or its address was
/// freed before, so that the reply is an error.
pub proof fn law_everything_ends_with_the_attachment(
    v: dataplane::DataView,
    op: server::Operation,
    p: json::Json,
    w: dataplane::DataView,
    plan: dataplane::PlanView,
    vm_port: u16,
)
    requires
        v.sound(),
        op == server::Operation::DetachPort || op == server::Operation::DeletePort,
        params::text_param(p, "name"@) is Some,
        v.ports.contains_key(params::text_param(p, "name"@)->0),
        control::operation_effect(v, op, p, w, plan),
    ensures
        ({
            let name = params::text_param(p, "name"@)->0;
            let q = v.ports[name];
            &&& !w.published.contains_key((name, vm_port))
            &&& v.published.contains_key((name, vm_port)) ==> !model::host_taken(
                w.published,
                v.published[(name, vm_port)],
            )
            &&& v.address_of(name) is Some ==> !w.networks[q.network->0].ipam.bound(
                v.address_of(name)->0,
            )
            &&& w.address_of(name) is None
            &&& plan.steps.contains(dataplane::StepView::Persist)
            &&& plan.steps.contains(dataplane::StepView::StopPasst { port: name })
        }),
{
    let name = params::text_param(p, "name"@)->0;
    let q = v.ports[name];
    if v.published.contains_key((name, vm_port)) {
        model::law_withdrawn_port_is_free(v.published, name, vm_port);
    }
    if v.address_of(name) is Some {
        let b = v.networks[q.network->0].ipam;
        ipam::law_release_frees_the_address(b, q.mac->0);
    }
    assert(plan.steps[0] == dataplane::StepView::Persist);
    assert(plan.steps[1] == dataplane::StepView::StopPasst { port: name });
}

/// Every operation that changes the state writes it down, whatever its reply.
pub proof fn law_changes_are_written_down(
    v: dataplane::DataView,
    op: server::Operation,
    p: json::Json,
    w: dataplane::DataView,
    plan: dataplane::PlanView,
)
    requires
        v.sound(),
        control::operation_effect(v, op, p, w, plan),
        w != v,
    ensures
        plan.steps.contains(dataplane::StepView::Persist),
{
    let persist = dataplane::StepView::Persist;
    match op {
        server::Operation::DeleteNetwork => {
            let name = params::text_param(p, "name"@)->0;
            if !v.networks.contains_key(name) {
                assert(v.networks.remove(name) =~= v.networks);
                assert(v.gateway.networks.remove(name) =~= v.gateway.networks);
                assert(w =~= v);
            }
            assert(plan.steps[0] == persist);
        },
        server::Operation::AttachPort => {
            assert(plan.steps[2] == persist);
        },
        _ => {
            assert(plan.steps[0] == persist);
        },
    }
}

/// The WAN process of a port is the way out of its VM: no operation on a port
/// that keeps its address stops the process, whatever becomes of its forwards.
pub proof fn law_the_way_out_stays_open(
    v: dataplane::DataView,
    op: server::Operation,
    p: json::Json,
    w: dataplane::DataView,
    plan: dataplane::PlanView,
    port: Seq<char>,
)
    requires
        control::operation_effect(v, op, p, w, plan),
        w.address_of(port) is Some,
    ensures
        !plan.steps.contains(dataplane::StepView::StopPasst { port }),
{
    let stop = dataplane::StepView::StopPasst { port };
    if plan.steps.contains(stop) {
        let i = plan.steps.index_of(stop);
        assert(plan.steps[i] == stop);
    }
}

/// The switch never takes a frame off the network of the port that sends it:
/// it goes to other ports that are attached to the same network. What a port
/// that is attached to nothing sends therefore goes to none.
pub proof fn law_frames_stay_on_their_network(
    v: dataplane::DataView,
    port: Seq<char>,
    f: Seq<u8>,
    d: pump::DeliveryView,
    i: int,
)
    requires
        v.sound(),
        v.ports.contains_key(port),
        pump::switched(v, PortId(v.ports[port].id), f, d),
        0 <= i < d.inject.len(),
    ensures
        v.ports[port].network is Some,
        d.inject[i].0 != port,
        v.ports.contains_key(d.inject[i].0),
        v.ports[d.inject[i].0].network == v.ports[port].network,
        d.inject[i].1 == f,
{
    let me = PortId(v.ports[port].id);
    let ids = choose|ids: Seq<PortId>| #[trigger]
        engine::lists(ids, pump::targets(v, me, f)) && d.inject == pump::named(v, ids, f);
    let t = ids[i];
    assert(ids.contains(t));
    assert(pump::targets(v, me, f).contains(t));
    engine::law_frames_stay_on_their_network(v.switch, me, f, t);
    let name = v.names[t];
    assert(v.port_sound(port));
    assert(v.port_sound(name));
}

/// A broadcast that is left to the switch reaches every other port that is
/// attached to the network.
pub proof fn law_broadcast_reaches_the_network(
    v: dataplane::DataView,
    port: Seq<char>,
    f: Seq<u8>,
    d: pump::DeliveryView,
    other: Seq<char>,
)
    requires
        v.sound(),
        v.ports.contains_key(port),
        v.ports[port].network is Some,
        v.ports.contains_key(other),
        v.ports[other].network == v.ports[port].network,
        other != port,
        f.len() >= 18,
        f[0] == 0xff,
        pump::switched(v, PortId(v.ports[port].id), f, d),
    ensures
        d.inject.contains((other, f)),
{
    let me = PortId(v.ports[port].id);
    let to = PortId(v.ports[other].id);
    assert(v.port_sound(port));
    assert(v.port_sound(other));
    let ids = choose|ids: Seq<PortId>| #[trigger]
        engine::lists(ids, pump::targets(v, me, f)) && d.inject == pump::named(v, ids, f);
    assert(v.switch.egress(me, f).contains(to));
    assert(pump::targets(v, me, f).contains(to));
    assert(ids.contains(to));
    let i = ids.index_of(to);
    assert(d.inject[i] == (other, f));
}

/// Pumping a frame keeps the state sound.
pub proof fn law_frames_keep_the_state_sound(
    v: dataplane::DataView,
    port: Seq<char>,
    me: PortId,
    f: Seq<u8>,
    w: dataplane::DataView,
    d: pump::DeliveryView,
)
    requires
        v.sound(),
        pump::frame_pumped(v, port, me, f, w, d),
    ensures
        w.sound(),
{
    if w != v {
        lemma_same_ports(v, w);
    }
}

/// What a port that is not attached sends goes nowhere: no port gets anything,
/// neither an answer nor the frame, no WAN process gets the frame, and nothing
/// is learned from it.
pub proof fn law_unattached_ports_are_silent(
    v: dataplane::DataView,
    port: Seq<char>,
    f: Seq<u8>,
    w: dataplane::DataView,
    d: pump::DeliveryView,
)
    requires
        v.sound(),
        v.ports.contains_key(port),
        v.ports[port].network is None,
        pump::frame_pumped(v, port, PortId(v.ports[port].id), f, w, d),
    ensures
        d.inject.len() == 0,
        d.wan is None,
        w == v,
{
    let me = PortId(v.ports[port].id);
    assert(v.port_sound(port));
    assert(pump::frame_routed(v, port, me, f, w, d));
    assert(pump::switched(v, me, f, d));
    if d.inject.len() > 0 {
        law_frames_stay_on_their_network(v, port, f, d, 0);
    }
}

/// A VM that asks for an address by DHCP is offered, and on request given, the
/// address that was bound to its MAC when its port was attached. The reply goes
/// to the station that asked.
pub proof fn law_attached_vm_gets_its_address(
    v: dataplane::DataView,
    port: Seq<char>,
    f: Seq<u8>,
    answer: Option<Seq<u8>>,
)
    requires
        pump::service_answer(v, port, f, answer),
        v.address_of(port) is Some,
        pump::datagram(v, port, f) matches Some(d) && {
            let m = dhcp::message_in(d.payload);
            &&& d.sport == pump::DHCP_CLIENT_PORT
            &&& d.dport == pump::DHCP_SERVER_PORT
            &&& dhcp::acceptable(d.payload)
            &&& m.mac() == d.mac
            &&& m.kind == Some(dhcp::DISCOVER) || (m.kind == Some(dhcp::REQUEST) && Some(m.wanted())
                == v.address_of(port))
        },
    ensures
        ({
            let d = pump::datagram(v, port, f)->0;
            let m = dhcp::message_in(d.payload);
            let ip = v.address_of(port)->0;
            let kind = if m.kind == Some(dhcp::DISCOVER) {
                dhcp::OFFER
            } else {
                dhcp::ACK
            };
            answer == Some(
                packet::udp_reply(
                    dhcp::lease_packet(d.ipam.network, m, ip, kind),
                    MacAddr::of(f.subrange(6, 12)),
                    d.ipam.network.gateway,
                    ip,
                    pump::DHCP_SERVER_PORT,
                    pump::DHCP_CLIENT_PORT,
                ),
            )
        }),
{
    let d = pump::datagram(v, port, f)->0;
    let m = dhcp::message_in(d.payload);
    let ip = v.address_of(port)->0;
    let kind = if m.kind == Some(dhcp::DISCOVER) {
        dhcp::OFFER
    } else {
        dhcp::ACK
    };
    let lease = dhcp::LeaseOptions {
        server: d.ipam.network.gateway,
        mask: dhcp::mask_of(d.ipam.network.cidr@.prefix as int),
        router: d.ipam.network.gateway,
        dns: d.ipam.network.gateway,
        seconds: dhcp::LEASE_SECONDS,
    };
    dhcp::lemma_packet_fields(m, ip, kind, Some(lease));
}

/// A VM that requests another address is refused, and the refusal is a
/// broadcast: it reaches the VM whatever address it has.
pub proof fn law_refusals_are_broadcast(
    v: dataplane::DataView,
    port: Seq<char>,
    f: Seq<u8>,
    answer: Option<Seq<u8>>,
)
    requires
        pump::service_answer(v, port, f, answer),
        pump::datagram(v, port, f) matches Some(d) && {
            let m = dhcp::message_in(d.payload);
            &&& d.sport == pump::DHCP_CLIENT_PORT
            &&& d.dport == pump::DHCP_SERVER_PORT
            &&& dhcp::acceptable(d.payload)
            &&& m.kind == Some(dhcp::REQUEST)
            &&& d.ipam.at(m.mac()) != Some(m.wanted())
        },
    ensures
        answer matches Some(r) && {
            &&& r.subrange(0, 6) == seq![0xffu8, 0xff, 0xff, 0xff, 0xff, 0xff]
            &&& packet::packet_in(r) matches Some(q) && q.dst == net::all_hosts() && q.src
                == pump::datagram(v, port, f)->0.ipam.network.gateway
        },
{
    let d = pump::datagram(v, port, f)->0;
    lemma_refusal(v, port, f, answer);
    lemma_broadcast(
        dhcp::nak_packet(dhcp::message_in(d.payload)),
        MacAddr::of(f.subrange(6, 12)),
        d.ipam.network.gateway,
    );
}

/// A DHCP reply to no address is a broadcast from the gateway.
proof fn lemma_broadcast(payload: Seq<u8>, mac: MacAddr, gateway: model::Ipv4Addr)
    ensures
        ({
            let r = packet::udp_reply(
                payload,
                mac,
                gateway,
                net::any_address(),
                pump::DHCP_SERVER_PORT,
                pump::DHCP_CLIENT_PORT,
            );
            &&& r.subrange(0, 6) == seq![0xffu8, 0xff, 0xff, 0xff, 0xff, 0xff]
            &&& packet::packet_in(r) matches Some(q) && q.dst == net::all_hosts() && q.src
                == gateway
        }),
{
    packet::law_udp_reply_reads_back(
        payload,
        mac,
        gateway,
        net::any_address(),
        pump::DHCP_SERVER_PORT,
        pump::DHCP_CLIENT_PORT,
    );
}

/// The answer to a request for another address.
proof fn lemma_refusal(
    v: dataplane::DataView,
    port: Seq<char>,
    f: Seq<u8>,
    answer: Option<Seq<u8>>,
)
    requires
        pump::service_answer(v, port, f, answer),
        pump::datagram(v, port, f) matches Some(d) && {
            let m = dhcp::message_in(d.payload);
            &&& d.sport == pump::DHCP_CLIENT_PORT
            &&& d.dport == pump::DHCP_SERVER_PORT
            &&& dhcp::acceptable(d.payload)
            &&& m.kind == Some(dhcp::REQUEST)
            &&& d.ipam.at(m.mac()) != Some(m.wanted())
        },
    ensures
        answer == Some(
            packet::udp_reply(
                dhcp::nak_packet(dhcp::message_in(pump::datagram(v, port, f)->0.payload)),
                MacAddr::of(f.subrange(6, 12)),
                pump::datagram(v, port, f)->0.ipam.network.gateway,
                net::any_address(),
                pump::DHCP_SERVER_PORT,
                pump::DHCP_CLIENT_PORT,
            ),
        ),
{
    let d = pump::datagram(v, port, f)->0;
    dhcp::lemma_packet_fields(
        dhcp::message_in(d.payload),
        net::any_address(),
        dhcp::NAK,
        None,
    );
}

/// A query that a VM sends to the gateway is answered with its own identifier,
/// from the gateway to the address and the port that it came from, whatever
/// the upstreams do.
pub proof fn law_queries_to_the_gateway_are_answered(
    v: dataplane::DataView,
    port: Seq<char>,
    f: Seq<u8>,
    answer: Option<Seq<u8>>,
)
    requires
        pump::service_answer(v, port, f, answer),
        pump::datagram(v, port, f) matches Some(d) && {
            &&& d.dport == pump::DNS_PORT
            &&& d.dst == d.ipam.network.gateway
            &&& dns::asks(d.payload)
        },
    ensures
        ({
            let d = pump::datagram(v, port, f)->0;
            exists|reply: Seq<u8>|
                {
                    &&& #[trigger] dns::id_of(reply) == dns::id_of(d.payload)
                    &&& reply[2] >= 128
                    &&& answer == Some(
                        packet::udp_reply(
                            reply,
                            d.mac,
                            d.ipam.network.gateway,
                            d.src,
                            pump::DNS_PORT,
                            d.sport,
                        ),
                    )
                }
        }),
{
    let d = pump::datagram(v, port, f)->0;
    let id = dns::id_of(d.payload);
    let os = choose|os: Seq<Option<Seq<u8>>>| #[trigger]
        dns::tried(d.payload, os, v.upstreams) && answer == Some(
            packet::udp_reply(
                dns::settled(id, os),
                d.mac,
                d.ipam.network.gateway,
                d.src,
                pump::DNS_PORT,
                d.sport,
            ),
        );
    dns::law_answer_matches_the_query(id, os);
    assert(dns::id_of(dns::settled(id, os)) == id);
}

} // verus!
