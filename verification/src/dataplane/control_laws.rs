//! What the operations of the control plane come to: what they promise for
//! every network, port and address, and what they leave alone.

use vstd::prelude::*;

use crate::dataplane;
use crate::dataplane::control;
use crate::dataplane::wan;
use crate::ipam;
use crate::json;
use crate::json::Number;
use crate::model;
use crate::model::{Ipv4Addr, MacAddr, Network};
use crate::params;
use crate::passt;
use crate::protocol::RpcError;
use crate::server;
use crate::switch::mac_table::PortId;

verus! {

/// Whether the plan is to answer `r`.
pub open spec fn replies(plan: dataplane::PlanView, r: Result<json::Json, RpcError>) -> bool {
    plan.reply == r
}

/// Whether the plan is to write the state down.
pub open spec fn persists(plan: dataplane::PlanView) -> bool {
    plan.steps.contains(dataplane::StepView::Persist)
}

// -- networks -----------------------------------------------------------------

/// Every valid network with a new name is created, whatever its addresses: it
/// is there as the parameters describe it, with nothing bound in it, and the
/// gateway serves it. All else stays, and the state is written down. Parameters
/// that describe no valid network are refused.
pub proof fn law_every_valid_network_is_created(
    v: dataplane::DataView,
    p: json::Json,
    w: dataplane::DataView,
    plan: dataplane::PlanView,
    n: Network,
    other: Seq<char>,
)
    requires
        control::create_network_effect(v, p, w, plan),
        params::says(p, "name"@, n.name@),
        !v.networks.contains_key(n.name@),
    ensures
        n.wf() && params::says(p, "cidr"@, n.cidr@.text()) && params::says(
            p,
            "gateway"@,
            n.gateway.text(),
        ) && params::says(p, "poolStart"@, n.pool.start.text()) && params::says(
            p,
            "poolEnd"@,
            n.pool.end.text(),
        ) ==> {
            let e = w.networks[n.name@];
            &&& replies(plan, Ok(json::Json::Null))
            &&& persists(plan)
            &&& w.networks.contains_key(n.name@)
            &&& e.ipam.network.name@ == n.name@
            &&& e.ipam.network.cidr@ == n.cidr@
            &&& e.ipam.network.gateway == n.gateway
            &&& e.ipam.network.pool == n.pool
            &&& forall|m: MacAddr| !#[trigger] e.ipam.bindings.contains_key(m)
            &&& e.created_with == p
            &&& w.gateway.networks.contains_key(n.name@)
            &&& w.gateway.networks[n.name@] == e.ipam.network
        },
        (forall|x: Network| !#[trigger] params::describes(p, x)) ==> w == v && replies(
            plan,
            Err(RpcError::InvalidParams),
        ),
        other != n.name@ ==> {
            &&& w.networks.contains_key(other) == v.networks.contains_key(other)
            &&& v.networks.contains_key(other) ==> w.networks[other] == v.networks[other]
            &&& w.gateway.networks.contains_key(other) == v.gateway.networks.contains_key(other)
            &&& v.gateway.networks.contains_key(other) ==> w.gateway.networks[other]
                == v.gateway.networks[other]
        },
        w == (dataplane::DataView { networks: w.networks, gateway: w.gateway, ..v }),
        w.gateway.ports == v.gateway.ports,
{
    params::law_networks_are_described(p, n);
    params::law_parameters_are_read(p, "name"@, n.name@, 0);
    if params::describes_network(p) {
        let x = choose|x: Network| #[trigger] params::describes(p, x);
        params::law_networks_are_described(p, x);
        let y = choose|y: Network| #[trigger]
            params::describes(p, y) && w == control::with_network(v, y, p);
        if params::describes(p, n) {
            params::law_parameters_describe_one_network(p, n, y);
        }
        params::law_networks_are_described(p, y);
        params::law_parameters_are_read(p, "name"@, y.name@, 0);
        assert(plan.steps[0] == dataplane::StepView::Persist);
    }
}

/// A network that is there is deleted, whatever is bound in it and attached to
/// it: it is gone, and the gateway serves it no longer; all else stays.
pub proof fn law_every_network_can_be_deleted(
    v: dataplane::DataView,
    p: json::Json,
    w: dataplane::DataView,
    plan: dataplane::PlanView,
    name: Seq<char>,
    other: Seq<char>,
)
    requires
        control::delete_network_effect(v, p, w, plan),
        params::says(p, "name"@, name),
    ensures
        v.networks.contains_key(name) ==> replies(plan, Ok(json::Json::Null)) && persists(plan),
        !v.networks.contains_key(name) ==> replies(plan, Err(RpcError::NotFound)),
        !w.networks.contains_key(name),
        !w.gateway.networks.contains_key(name),
        other != name ==> {
            &&& w.networks.contains_key(other) == v.networks.contains_key(other)
            &&& v.networks.contains_key(other) ==> w.networks[other] == v.networks[other]
            &&& w.gateway.networks.contains_key(other) == v.gateway.networks.contains_key(other)
            &&& v.gateway.networks.contains_key(other) ==> w.gateway.networks[other]
                == v.gateway.networks[other]
        },
        w == (dataplane::DataView { networks: w.networks, gateway: w.gateway, ..v }),
        w.gateway.ports == v.gateway.ports,
{
    params::law_parameters_are_read(p, "name"@, name, 0);
    if v.networks.contains_key(name) {
        assert(plan.steps[0] == dataplane::StepView::Persist);
    }
}

/// Every network that is there is shown with its name, its addresses and its
/// gateway, every port with its name, its network, its MAC address and its
/// address; nothing is done for that. What is not there is not found.
pub proof fn law_everything_is_shown(v: dataplane::DataView, p: json::Json, name: Seq<char>)
    requires
        params::says(p, "name"@, name),
    ensures
        ({
            let plan = control::network_shown(v, p);
            let n = v.networks[name].ipam.network;
            &&& plan.steps.len() == 0
            &&& !v.networks.contains_key(name) ==> replies(plan, Err(RpcError::NotFound))
            &&& v.networks.contains_key(name) ==> (plan.reply matches Ok(json::Json::Object(m))
                && m["name"@] == json::Json::String(name) && m["cidr"@] == json::Json::String(
                n.cidr@.text(),
            ) && m["gateway"@] == json::Json::String(n.gateway.text()))
        }),
        ({
            let plan = control::port_shown(v, p);
            let q = v.ports[name];
            let bound = v.networks[q.network->0].ipam.bindings;
            &&& plan.steps.len() == 0
            &&& !v.ports.contains_key(name) ==> replies(plan, Err(RpcError::NotFound))
            &&& v.ports.contains_key(name) ==> (plan.reply matches Ok(json::Json::Object(m))
                && m["name"@] == json::Json::String(name) && m["network"@] == (match q.network {
                Some(t) => json::Json::String(t),
                None => json::Json::Null,
            }) && m["mac"@] == (match q.mac {
                Some(x) => json::Json::String(x.text()),
                None => json::Json::Null,
            }) && m["ip"@] == (if q.network is Some && q.mac is Some && v.networks.contains_key(
                q.network->0,
            ) && bound.contains_key(q.mac->0) {
                json::Json::String(bound[q.mac->0].text())
            } else {
                json::Json::Null
            }))
        }),
{
    params::law_parameters_are_read(p, "name"@, name, 0);
    reveal_strlit("name");
    reveal_strlit("cidr");
    reveal_strlit("gateway");
    reveal_strlit("network");
    reveal_strlit("mac");
    reveal_strlit("ip");
    assert("name"@.len() == 4 && "cidr"@.len() == 4 && "gateway"@.len() == 7 && "network"@.len() == 7
        && "mac"@.len() == 3 && "ip"@.len() == 2);
    assert("name"@[0] == 'n' && "cidr"@[0] == 'c');
}

// -- ports --------------------------------------------------------------------

/// Every port with a new name is created, attached to nothing and with a handle
/// that no port has; one that is there stays as it is. All else stays.
pub proof fn law_every_port_is_created(
    v: dataplane::DataView,
    p: json::Json,
    w: dataplane::DataView,
    plan: dataplane::PlanView,
    name: Seq<char>,
    other: Seq<char>,
)
    requires
        v.sound(),
        v.next_id < u32::MAX,
        control::create_port_effect(v, p, w, plan),
        params::says(p, "name"@, name),
    ensures
        replies(plan, Ok(json::Json::Null)),
        w.ports.contains_key(name),
        v.ports.contains_key(name) ==> w == v,
        !v.ports.contains_key(name) ==> {
            let id = PortId(w.ports[name].id);
            &&& persists(plan)
            &&& w.ports[name].network is None
            &&& w.ports[name].mac is None
            &&& !v.names.contains_key(id)
            &&& w.names.contains_key(id) && w.names[id] == name
            &&& w == (dataplane::DataView {
                ports: w.ports,
                names: w.names,
                next_id: (v.next_id + 1) as u32,
                ..v
            })
        },
        other != name ==> w.ports.contains_key(other) == v.ports.contains_key(other),
        other != name && v.ports.contains_key(other) ==> w.ports[other] == v.ports[other],
{
    params::law_parameters_are_read(p, "name"@, name, 0);
    if !v.ports.contains_key(name) {
        assert(plan.steps[0] == dataplane::StepView::Persist);
        if v.names.contains_key(PortId(v.next_id)) {
            assert(v.port_sound(v.names[PortId(v.next_id)]));
        }
    }
}

/// Every port that is there is deleted: it is gone, from the switch and the
/// gateway too, its address is free and nothing is published for it; the state
/// is written down, its process is stopped and its socket removed. Other ports,
/// addresses and forwards stay.
pub proof fn law_every_port_can_be_deleted(
    v: dataplane::DataView,
    p: json::Json,
    w: dataplane::DataView,
    plan: dataplane::PlanView,
    name: Seq<char>,
    other: Seq<char>,
    net: Seq<char>,
    mac: MacAddr,
    vm_port: u16,
)
    requires
        control::delete_port_effect(v, p, w, plan),
        params::says(p, "name"@, name),
    ensures
        !v.ports.contains_key(name) ==> w == v && replies(plan, Err(RpcError::NotFound)),
        v.ports.contains_key(name) ==> {
            let q = v.ports[name];
            &&& replies(plan, Ok(json::Json::Null))
            &&& persists(plan)
            &&& plan.steps.contains(dataplane::StepView::StopPasst { port: name })
            &&& plan.steps.contains(dataplane::StepView::RemoveSocket { port: name })
            &&& !w.ports.contains_key(name)
            &&& !w.switch.ports.contains_key(PortId(q.id))
            &&& !w.gateway.ports.contains_key(PortId(q.id))
            &&& !w.names.contains_key(PortId(q.id))
            &&& !w.published.contains_key((name, vm_port))
            &&& other != name ==> {
                &&& w.ports.contains_key(other) == v.ports.contains_key(other)
                &&& v.ports.contains_key(other) ==> w.ports[other] == v.ports[other]
                &&& w.published.contains_key((other, vm_port)) == v.published.contains_key(
                    (other, vm_port),
                )
                &&& v.published.contains_key((other, vm_port)) ==> w.published[(other, vm_port)]
                    == v.published[(other, vm_port)]
            }
            &&& w.networks.contains_key(net) == v.networks.contains_key(net)
            &&& v.networks.contains_key(net) ==> w.networks[net].ipam.at(mac) == (if q.network
                == Some(net) && q.mac == Some(mac) {
                None
            } else {
                v.networks[net].ipam.at(mac)
            })
        },
{
    params::law_parameters_are_read(p, "name"@, name, 0);
    if v.ports.contains_key(name) {
        let q = v.ports[name];
        assert(plan.steps[0] == dataplane::StepView::Persist);
        assert(plan.steps[1] == dataplane::StepView::StopPasst { port: name });
        assert(plan.steps[2] == dataplane::StepView::RemoveSocket { port: name });
        if q.mac is Some && v.networks.contains_key(net) {
            ipam::law_binding_changes_one(v.networks[net].ipam, q.mac->0, Ipv4Addr {
                a: 0,
                b: 0,
                c: 0,
                d: 0,
            }, mac);
        }
    }
}

// -- addresses ----------------------------------------------------------------

/// In every network that is there, a MAC address gets the address that it has;
/// where it has none, the lowest of the pool that nobody has, which it then has;
/// and only where somebody has every one is that a conflict. All else stays.
pub proof fn law_every_mac_gets_an_address(
    v: dataplane::DataView,
    net: Seq<char>,
    mac: MacAddr,
    w: dataplane::DataView,
    r: Result<Ipv4Addr, RpcError>,
    ip: Ipv4Addr,
    m: MacAddr,
    other: Seq<char>,
)
    requires
        control::bind_effect(v, net, mac, w, r),
    ensures
        !v.networks.contains_key(net) ==> w == v && r == Err::<Ipv4Addr, RpcError>(
            RpcError::NotFound,
        ),
        w == (dataplane::DataView { networks: w.networks, ..v }),
        other != net ==> w.networks.contains_key(other) == v.networks.contains_key(other),
        other != net && v.networks.contains_key(other) ==> w.networks[other] == v.networks[other],
        v.networks.contains_key(net) ==> {
            let b = v.networks[net].ipam;
            let c = w.networks[net].ipam;
            let start = b.network.pool.start.num();
            let end = b.network.pool.end.num();
            &&& w.networks.contains_key(net)
            &&& w.networks[net].created_with == v.networks[net].created_with
            &&& c.network == b.network
            &&& m != mac ==> c.at(m) == b.at(m)
            &&& b.bindings.contains_key(mac) ==> w == v && r == Ok::<Ipv4Addr, RpcError>(
                b.bindings[mac],
            )
            &&& r is Ok ==> c.bindings.contains_key(mac) && c.bindings[mac] == r->Ok_0
            &&& !b.bindings.contains_key(mac) && r is Ok ==> {
                &&& start <= r->Ok_0.num() <= end
                &&& b.bindings.contains_key(m) ==> b.bindings[m] != r->Ok_0
                &&& start <= ip.num() < r->Ok_0.num() ==> exists|x: MacAddr| #[trigger]
                    b.bindings.contains_key(x) && b.bindings[x] == ip
            }
            &&& r is Err ==> {
                &&& w == v
                &&& r == Err::<Ipv4Addr, RpcError>(RpcError::Conflict)
                &&& start <= ip.num() <= end ==> exists|x: MacAddr| #[trigger]
                    b.bindings.contains_key(x) && b.bindings[x] == ip
            }
        },
{
    if v.networks.contains_key(net) {
        let b = v.networks[net].ipam;
        if r is Ok && !b.bindings.contains_key(mac) {
            ipam::law_no_free_address_is_passed_over(b, r->Ok_0, ip);
            ipam::law_binding_changes_one(b, mac, r->Ok_0, m);
        }
        ipam::law_no_free_address_is_passed_over(b, ip, ip);
    }
}

/// The address that a MAC address gets is the reply, in words, and the binding
/// is written down.
pub proof fn law_the_address_is_the_reply(
    v: dataplane::DataView,
    p: json::Json,
    w: dataplane::DataView,
    plan: dataplane::PlanView,
    net: Seq<char>,
    mac: MacAddr,
)
    requires
        control::allocate_ip_effect(v, p, w, plan),
        params::says(p, "network"@, net),
        params::mac_param_in(p, "mac"@) == Some(mac),
    ensures
        exists|r: Result<Ipv4Addr, RpcError>| #[trigger]
            control::bind_effect(v, net, mac, w, r) && match r {
                Ok(ip) => replies(plan, Ok(json::Json::String(ip.text()))) && persists(plan),
                Err(e) => replies(plan, Err(e)),
            },
{
    params::law_parameters_are_read(p, "network"@, net, 0);
    let r = choose|r: Result<Ipv4Addr, RpcError>| #[trigger]
        control::bind_effect(v, net, mac, w, r) && plan == (dataplane::PlanView {
            steps: if r is Ok {
                seq![dataplane::StepView::Persist]
            } else {
                seq![]
            },
            reply: crate::memory::address_outcome(r),
        });
    if r is Ok {
        assert(plan.steps[0] == dataplane::StepView::Persist);
    }
    assert(control::bind_effect(v, net, mac, w, r));
}

/// Every address that a MAC address has is freed on request, that one alone;
/// and then the state is written down.
pub proof fn law_every_address_can_be_released(
    v: dataplane::DataView,
    p: json::Json,
    w: dataplane::DataView,
    plan: dataplane::PlanView,
    net: Seq<char>,
    mac: MacAddr,
    other: Seq<char>,
    m: MacAddr,
)
    requires
        control::release_ip_effect(v, p, w, plan),
        params::says(p, "network"@, net),
        params::mac_param_in(p, "mac"@) == Some(mac),
    ensures
        ({
            let there = v.networks.contains_key(net) && v.networks[net].ipam.bindings.contains_key(
                mac,
            );
            &&& !there ==> w == v && replies(plan, Err(RpcError::NotFound))
            &&& there ==> replies(plan, Ok(json::Json::Null)) && persists(plan)
        }),
        w == (dataplane::DataView { networks: w.networks, ..v }),
        w.networks.contains_key(other) == v.networks.contains_key(other),
        v.networks.contains_key(other) ==> w.networks[other].ipam.network
            == v.networks[other].ipam.network && w.networks[other].ipam.at(m) == (if other == net
            && m == mac {
            None
        } else {
            v.networks[other].ipam.at(m)
        }),
{
    params::law_parameters_are_read(p, "network"@, net, 0);
    if v.networks.contains_key(other) {
        ipam::law_binding_changes_one(
            v.networks[other].ipam,
            mac,
            Ipv4Addr { a: 0, b: 0, c: 0, d: 0 },
            m,
        );
    }
    if plan.reply is Ok {
        assert(plan.steps[0] == dataplane::StepView::Persist);
    }
}

// -- attachments --------------------------------------------------------------

/// Every port that is attached to nothing is attached to any network that is
/// there and has an address for its MAC: the switch and the gateway have it on
/// that network, its device shows the MAC, a process without forwards runs for
/// its address, and the state is written down. One that is so attached stays,
/// one that is attached otherwise is in conflict; all else stays.
pub proof fn law_every_free_port_can_be_attached(
    v: dataplane::DataView,
    p: json::Json,
    w: dataplane::DataView,
    plan: dataplane::PlanView,
    port: Seq<char>,
    net: Seq<char>,
    mac: MacAddr,
    other: Seq<char>,
    id: PortId,
)
    requires
        control::attach_port_effect(v, p, w, plan),
        params::says(p, "port"@, port),
        params::says(p, "network"@, net),
        params::mac_param_in(p, "mac"@) == Some(mac),
    ensures
        ({
            let q = v.ports[port];
            let there = v.ports.contains_key(port);
            &&& !there ==> w == v && replies(plan, Err(RpcError::NotFound))
            &&& there && q.network is Some ==> w == v && plan.steps.len() == 0 && replies(
                plan,
                if q.network == Some(net) && q.mac == Some(mac) {
                    Ok(json::Json::Null)
                } else {
                    Err(RpcError::Conflict)
                },
            )
            &&& there && q.network is None && q.mac is None ==> exists|
                u: dataplane::DataView,
                r: Result<Ipv4Addr, RpcError>,
            | #[trigger]
                control::bind_effect(v, net, mac, u, r) && match r {
                    Err(e) => w == u && replies(plan, Err(e)),
                    Ok(ip) => {
                        &&& replies(plan, Ok(json::Json::Null))
                        &&& persists(plan)
                        &&& plan.steps.contains(dataplane::StepView::PinMac { port, mac })
                        &&& plan.steps.contains(
                            dataplane::StepView::EnsurePasst {
                                port,
                                vm_ip: ip.text(),
                                published: seq![],
                            },
                        )
                        &&& w.ports.contains_key(port)
                        &&& w.ports[port].id == q.id
                        &&& w.ports[port].network == Some(net)
                        &&& w.ports[port].mac == Some(mac)
                        &&& w.switch.ports.contains_key(PortId(q.id)) && w.switch.ports[PortId(
                            q.id,
                        )] == net
                        &&& w.gateway.ports.contains_key(PortId(q.id)) && w.gateway.ports[PortId(
                            q.id,
                        )] == net
                        &&& id != PortId(q.id) ==> {
                            &&& w.switch.ports.contains_key(id) == v.switch.ports.contains_key(id)
                            &&& v.switch.ports.contains_key(id) ==> w.switch.ports[id]
                                == v.switch.ports[id]
                            &&& w.gateway.ports.contains_key(id) == v.gateway.ports.contains_key(id)
                            &&& v.gateway.ports.contains_key(id) ==> w.gateway.ports[id]
                                == v.gateway.ports[id]
                        }
                        &&& w.switch.table == v.switch.table
                        &&& w.gateway.networks == v.gateway.networks
                        &&& w == (dataplane::DataView {
                            networks: u.networks,
                            ports: w.ports,
                            switch: w.switch,
                            gateway: w.gateway,
                            ..v
                        })
                    },
                }
        }),
        other != port ==> w.ports.contains_key(other) == v.ports.contains_key(other),
        other != port && v.ports.contains_key(other) ==> w.ports[other] == v.ports[other],
{
    params::law_parameters_are_read(p, "port"@, port, 0);
    params::law_parameters_are_read(p, "network"@, net, 0);
    let q = v.ports[port];
    if v.ports.contains_key(port) && q.network is None {
        let (u, r) = choose|u: dataplane::DataView, r: Result<Ipv4Addr, RpcError>| #[trigger]
            control::bind_effect(v, net, mac, u, r) && match r {
                Ok(ip) => {
                    &&& w == control::with_attachment(u, port, net, mac)
                    &&& plan == control::attach_plan(port, mac, ip)
                },
                Err(e) => w == u && plan == dataplane::failing(e),
            };
        let zero = Ipv4Addr { a: 0, b: 0, c: 0, d: 0 };
        law_every_mac_gets_an_address(v, net, mac, u, r, zero, mac, net);
        if let Ok(ip) = r {
            assert(plan.steps[0] == dataplane::StepView::PinMac { port, mac });
            assert(plan.steps[1] == dataplane::StepView::EnsurePasst {
                port,
                vm_ip: ip.text(),
                published: seq![],
            });
            assert(plan.steps[2] == dataplane::StepView::Persist);
        }
        assert(control::bind_effect(v, net, mac, u, r));
    }
}

/// Every port that is there can be detached: it stays, attached to nothing, off
/// the switch and the gateway, its address is free and nothing is published for
/// it; the state is written down and its process stopped. Other ports,
/// addresses and forwards stay.
pub proof fn law_every_port_can_be_detached(
    v: dataplane::DataView,
    p: json::Json,
    w: dataplane::DataView,
    plan: dataplane::PlanView,
    name: Seq<char>,
    other: Seq<char>,
    net: Seq<char>,
    mac: MacAddr,
    vm_port: u16,
)
    requires
        control::detach_port_effect(v, p, w, plan),
        params::says(p, "name"@, name),
    ensures
        !v.ports.contains_key(name) ==> w == v && replies(plan, Err(RpcError::NotFound)),
        v.ports.contains_key(name) ==> {
            let q = v.ports[name];
            let bound = v.networks.contains_key(q.network->0) && v.networks[
                q.network->0
            ].ipam.bindings.contains_key(q.mac->0);
            &&& replies(
                plan,
                if q.network is Some && q.mac is Some && !bound {
                    Err(RpcError::NotFound)
                } else {
                    Ok(json::Json::Null)
                },
            )
            &&& persists(plan)
            &&& plan.steps.contains(dataplane::StepView::StopPasst { port: name })
            &&& w.ports.contains_key(name)
            &&& w.ports[name].id == q.id && w.ports[name].network is None && w.ports[name].mac is None
            &&& !w.switch.ports.contains_key(PortId(q.id))
            &&& !w.gateway.ports.contains_key(PortId(q.id))
            &&& w.names == v.names
            &&& !w.published.contains_key((name, vm_port))
            &&& other != name ==> {
                &&& w.ports.contains_key(other) == v.ports.contains_key(other)
                &&& v.ports.contains_key(other) ==> w.ports[other] == v.ports[other]
                &&& w.published.contains_key((other, vm_port)) == v.published.contains_key(
                    (other, vm_port),
                )
                &&& v.published.contains_key((other, vm_port)) ==> w.published[(other, vm_port)]
                    == v.published[(other, vm_port)]
            }
            &&& w.networks.contains_key(net) == v.networks.contains_key(net)
            &&& v.networks.contains_key(net) ==> w.networks[net].ipam.at(mac) == (if q.network
                == Some(net) && q.mac == Some(mac) {
                None
            } else {
                v.networks[net].ipam.at(mac)
            })
        },
{
    params::law_parameters_are_read(p, "name"@, name, 0);
    if v.ports.contains_key(name) {
        let q = v.ports[name];
        assert(plan.steps[0] == dataplane::StepView::Persist);
        assert(plan.steps[1] == dataplane::StepView::StopPasst { port: name });
        if q.mac is Some && v.networks.contains_key(net) {
            ipam::law_binding_changes_one(v.networks[net].ipam, q.mac->0, Ipv4Addr {
                a: 0,
                b: 0,
                c: 0,
                d: 0,
            }, mac);
        }
    }
}

// -- forwards -----------------------------------------------------------------

/// Every port of an attached VM with an address can be published while a host
/// port of the range is free: the reply is the host port that the pair has, or
/// the lowest free one, which it then has; the state is written down, and the
/// process runs for the address with all pairs of the port. Other pairs keep
/// their host ports.
pub proof fn law_every_port_can_be_published(
    v: dataplane::DataView,
    p: json::Json,
    w: dataplane::DataView,
    plan: dataplane::PlanView,
    port: Seq<char>,
    vm_port: u16,
    other: (Seq<char>, u16),
    h: u16,
)
    requires
        control::publish_port_effect(v, p, w, plan),
        params::says(p, "port"@, port),
        params::number_param(p, "vm_port"@) == Some(vm_port),
    ensures
        ({
            let pair = (port, vm_port);
            let q = v.ports[port];
            let attached = v.ports.contains_key(port) && q.network is Some;
            let b = v.networks[q.network->0].ipam.bindings;
            let bound = q.mac is Some && v.networks.contains_key(q.network->0) && b.contains_key(
                q.mac->0,
            );
            let free = |x: u16| v.range.0 <= x <= v.range.1 && forall|k: (Seq<char>, u16)| #[trigger]
                v.published.contains_key(k) ==> v.published[k] != x;
            &&& w == (dataplane::DataView { published: w.published, ..v })
            &&& other != pair ==> w.published.contains_key(other) == v.published.contains_key(other)
            &&& other != pair && v.published.contains_key(other) ==> w.published[other]
                == v.published[other]
            &&& v.published.contains_key(pair) ==> w.published == v.published
            &&& !attached ==> w == v && replies(plan, Err(RpcError::NotFound))
            &&& attached && !v.published.contains_key(pair) && !w.published.contains_key(pair) ==> {
                &&& w == v
                &&& replies(plan, Err(RpcError::Conflict))
                &&& !free(h)
            }
            &&& !v.published.contains_key(pair) && w.published.contains_key(pair) ==> {
                &&& attached
                &&& free(w.published[pair])
                &&& h < w.published[pair] ==> !free(h)
            }
            &&& attached && bound && w.published.contains_key(pair) ==> {
                &&& (plan.reply matches Ok(json::Json::Object(m)) && m["host_port"@]
                    == json::Json::Number(Number::PosInt(w.published[pair] as u64)))
                &&& persists(plan)
                &&& exists|f: Seq<(u16, u16)>|
                    {
                        &&& #[trigger] model::forwards_of(w.published, port, f)
                        &&& f.contains((vm_port, w.published[pair]))
                        &&& plan.steps.contains(
                            dataplane::StepView::EnsurePasst {
                                port,
                                vm_ip: b[q.mac->0].text(),
                                published: f,
                            },
                        )
                    }
            }
        }),
{
    params::law_parameters_are_read(p, "port"@, port, 0);
    let pair = (port, vm_port);
    let q = v.ports[port];
    let attached = v.ports.contains_key(port) && q.network is Some;
    if attached && !v.published.contains_key(pair) {
        if model::hosts_exhausted(v.published, v.range) {
            model::law_no_free_host_port_is_passed_over(v.published, v.range, h, h);
        } else {
            let x = choose|x: u16|
                {
                    &&& #[trigger] model::lowest_free_host(v.published, v.range, x)
                    &&& w == (dataplane::DataView { published: v.published.insert(pair, x), ..v })
                    &&& control::forwards_changed(w, port, crate::memory::host_json(x), plan)
                };
            model::law_no_free_host_port_is_passed_over(v.published, v.range, x, h);
        }
    }
    if attached && w.published.contains_key(pair) && w.reserved(port) is Ok {
        let ip = w.reserved(port)->Ok_0;
        let reply = crate::memory::host_json(w.published[pair]);
        let f = choose|f: Seq<(u16, u16)>| #[trigger]
            model::forwards_of(w.published, port, f) && plan == dataplane::replying(
                seq![
                    dataplane::StepView::Persist,
                    dataplane::StepView::EnsurePasst { port, vm_ip: ip.text(), published: f },
                ],
                reply,
            );
        model::law_forwards_are_what_is_published(
            w.published,
            port,
            f,
            vm_port,
            w.published[pair],
        );
        assert(plan.steps[0] == dataplane::StepView::Persist);
        assert(plan.steps[1] == dataplane::StepView::EnsurePasst {
            port,
            vm_ip: ip.text(),
            published: f,
        });
    }
}

/// Every pair that is published can be withdrawn, that one alone. The state is
/// written down, and the process of a port that has an address runs with what
/// is left.
pub proof fn law_every_pair_can_be_withdrawn(
    v: dataplane::DataView,
    p: json::Json,
    w: dataplane::DataView,
    plan: dataplane::PlanView,
    port: Seq<char>,
    vm_port: u16,
    other: (Seq<char>, u16),
)
    requires
        control::unpublish_port_effect(v, p, w, plan),
        params::says(p, "port"@, port),
        params::number_param(p, "vm_port"@) == Some(vm_port),
    ensures
        ({
            let pair = (port, vm_port);
            let q = v.ports[port];
            let b = v.networks[q.network->0].ipam.bindings;
            let bound = v.ports.contains_key(port) && q.network is Some && q.mac is Some
                && v.networks.contains_key(q.network->0) && b.contains_key(q.mac->0);
            &&& w == (dataplane::DataView { published: w.published, ..v })
            &&& !w.published.contains_key(pair)
            &&& other != pair ==> w.published.contains_key(other) == v.published.contains_key(other)
            &&& other != pair && v.published.contains_key(other) ==> w.published[other]
                == v.published[other]
            &&& !v.published.contains_key(pair) ==> w == v && replies(plan, Err(RpcError::NotFound))
            &&& v.published.contains_key(pair) ==> persists(plan)
            &&& v.published.contains_key(pair) && bound ==> {
                &&& replies(plan, Ok(json::Json::Null))
                &&& exists|f: Seq<(u16, u16)>|
                    {
                        &&& #[trigger] model::forwards_of(w.published, port, f)
                        &&& plan.steps.contains(
                            dataplane::StepView::EnsurePasst {
                                port,
                                vm_ip: b[q.mac->0].text(),
                                published: f,
                            },
                        )
                    }
            }
        }),
{
    params::law_parameters_are_read(p, "port"@, port, 0);
    let pair = (port, vm_port);
    if v.published.contains_key(pair) {
        assert(plan.steps[0] == dataplane::StepView::Persist);
        if w.reserved(port) is Ok {
            let ip = w.reserved(port)->Ok_0;
            let f = choose|f: Seq<(u16, u16)>| #[trigger]
                model::forwards_of(w.published, port, f) && plan == dataplane::replying(
                    seq![
                        dataplane::StepView::Persist,
                        dataplane::StepView::EnsurePasst { port, vm_ip: ip.text(), published: f },
                    ],
                    json::Json::Null,
                );
            assert(plan.steps[1] == dataplane::StepView::EnsurePasst {
                port,
                vm_ip: ip.text(),
                published: f,
            });
        }
    }
}

// -- processes ----------------------------------------------------------------

/// Every port that is attached to a network that is there can have its process:
/// one that runs as it should is kept, and otherwise one is started as it
/// should run, in place of the one that runs. No other port has one, and the
/// processes of other ports stay.
pub proof fn law_every_attached_port_has_a_process(
    v: dataplane::DataView,
    port: Seq<char>,
    config: passt::ConfigView,
    other: Seq<char>,
)
    ensures
        ({
            let (w, r) = wan::ensured(v, port, config);
            let q = v.ports[port];
            let attached = v.ports.contains_key(port) && q.network is Some
                && v.networks.contains_key(q.network->0);
            let runs = v.passts.contains_key(port) && v.passts[port].live;
            &&& w == (dataplane::DataView { passts: w.passts, ..v })
            &&& other != port ==> w.passts.contains_key(other) == v.passts.contains_key(other)
            &&& other != port && v.passts.contains_key(other) ==> w.passts[other] == v.passts[other]
            &&& !attached ==> w == v && r == Err::<wan::PasstPlanView, RpcError>(RpcError::NotFound)
            &&& attached && runs && v.passts[port].desired == config ==> w == v && r == Ok::<
                wan::PasstPlanView,
                RpcError,
            >(wan::PasstPlanView::Keep)
            &&& attached && !(runs && v.passts[port].desired == config) ==> {
                &&& r == Ok::<wan::PasstPlanView, RpcError>(
                    wan::PasstPlanView::Start { stop: runs, config },
                )
                &&& w.passts.contains_key(port)
                &&& w.passts[port].desired == config
                &&& !w.passts[port].live
            }
        }),
{
}

// -- refusals -----------------------------------------------------------------

/// Every operation that lacks one of its parameters, or has one that is of
/// another form, changes nothing and is answered so.
pub proof fn law_missing_parameters_are_refused(
    v: dataplane::DataView,
    op: server::Operation,
    p: json::Json,
    w: dataplane::DataView,
    plan: dataplane::PlanView,
)
    requires
        control::operation_effect(v, op, p, w, plan),
        ({
            let no_name = forall|s: Seq<char>| !#[trigger] params::says(p, "name"@, s);
            let no_port = forall|s: Seq<char>| !#[trigger] params::says(p, "port"@, s);
            let no_network = forall|s: Seq<char>| !#[trigger] params::says(p, "network"@, s);
            let no_mac = params::mac_param_in(p, "mac"@) is None;
            let no_vm_port = params::number_param(p, "vm_port"@) is None;
            match op {
                server::Operation::AttachPort => no_port || no_network || no_mac,
                server::Operation::AllocateIp => no_network || no_mac,
                server::Operation::ReleaseIp => no_network || no_mac,
                server::Operation::PublishPort => no_port || no_vm_port,
                server::Operation::UnpublishPort => no_port || no_vm_port,
                _ => no_name,
            }
        }),
    ensures
        w == v,
        plan.steps.len() == 0,
        replies(plan, Err(RpcError::InvalidParams)),
{
    assert forall|key: Seq<char>, s: Seq<char>| #[trigger] params::says(p, key, s) == (
    params::text_param(p, key) == Some(s)) by {
        params::law_parameters_are_read(p, key, s, 0);
    }
    if params::text_param(p, "name"@) is Some {
        assert(params::says(p, "name"@, params::text_param(p, "name"@)->0));
    }
    if params::text_param(p, "port"@) is Some {
        assert(params::says(p, "port"@, params::text_param(p, "port"@)->0));
    }
    if params::text_param(p, "network"@) is Some {
        assert(params::says(p, "network"@, params::text_param(p, "network"@)->0));
    }
}

/// A network that is there stays as it is when it is created again: the
/// parameters that it was created with are accepted, others are in conflict.
pub proof fn law_a_network_that_is_there_stays(
    v: dataplane::DataView,
    p: json::Json,
    w: dataplane::DataView,
    plan: dataplane::PlanView,
    name: Seq<char>,
)
    requires
        control::create_network_effect(v, p, w, plan),
        params::says(p, "name"@, name),
        v.networks.contains_key(name),
        params::has_network_params(p),
    ensures
        w == v,
        plan.steps.len() == 0,
        replies(
            plan,
            if v.networks[name].created_with == p {
                Ok(json::Json::Null)
            } else {
                Err(RpcError::Conflict)
            },
        ),
{
    params::law_parameters_are_read(p, "name"@, name, 0);
}

} // verus!
