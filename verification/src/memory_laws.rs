//! What the operations of the control plane in memory come to: what they promise
//! for every network, port and address, and what they leave alone.

use vstd::prelude::*;

use crate::ipam;
use crate::json;
use crate::json::Number;
use crate::memory;
use crate::model;
use crate::model::{Ipv4Addr, MacAddr, Network};
use crate::params;
use crate::protocol::RpcError;
use crate::server;
use crate::server::Operation;
use crate::text;

verus! {

/// Whether the outcome is the error `e`, and nothing changes.
pub open spec fn fails(
    v: memory::PlaneView,
    w: memory::PlaneView,
    r: server::Outcome,
    e: RpcError,
) -> bool {
    w == v && r == Err::<json::Json, RpcError>(e)
}

/// Whether the outcome is null.
pub open spec fn succeeds(r: server::Outcome) -> bool {
    r == Ok::<json::Json, RpcError>(json::Json::Null)
}

/// Every valid network with a new name is created, as the parameters describe
/// it and with nothing bound in it; parameters that describe none are refused.
/// Every network that is there is deleted on request. All else stays.
pub proof fn law_every_valid_network_is_created(
    v: memory::PlaneView,
    p: json::Json,
    w: memory::PlaneView,
    r: server::Outcome,
    n: Network,
    other: Seq<char>,
)
    requires
        memory::plane_effect(v, Operation::CreateNetwork, p, w, r),
        params::says(p, "name"@, n.name@),
        !v.networks.contains_key(n.name@),
    ensures
        n.wf() && params::says(p, "cidr"@, n.cidr@.text()) && params::says(
            p,
            "gateway"@,
            n.gateway.text(),
        ) && params::says(p, "poolStart"@, n.pool.start.text()) && params::says(
            p,
            "poolEnd"@,
            n.pool.end.text(),
        ) ==> {
            let e = w.networks[n.name@];
            &&& succeeds(r)
            &&& w.networks.contains_key(n.name@)
            &&& e.ipam.network.name@ == n.name@
            &&& e.ipam.network.cidr@ == n.cidr@
            &&& e.ipam.network.gateway == n.gateway
            &&& e.ipam.network.pool == n.pool
            &&& forall|m: MacAddr| !#[trigger] e.ipam.bindings.contains_key(m)
            &&& e.created_with == p
        },
        (forall|x: Network| !#[trigger] params::describes(p, x)) ==> fails(
            v,
            w,
            r,
            RpcError::InvalidParams,
        ),
        other != n.name@ ==> w.networks.contains_key(other) == v.networks.contains_key(other),
        other != n.name@ && v.networks.contains_key(other) ==> w.networks[other]
            == v.networks[other],
        w == (memory::PlaneView { networks: w.networks, ..v }),
{
    params::law_networks_are_described(p, n);
    params::law_parameters_are_read(p, "name"@, n.name@, 0);
    if params::describes_network(p) {
        let x = choose|x: Network| #[trigger] params::describes(p, x);
        params::law_networks_are_described(p, x);
        let y = choose|y: Network| #[trigger]
            params::describes(p, y) && w == v.with_network(
                n.name@,
                memory::fresh_network(y, p),
            );
        if params::describes(p, n) {
            params::law_parameters_describe_one_network(p, n, y);
        }
    }
}

/// Every network and port that is there is deleted on request, and nothing but
/// it and the forwards of the port.
pub proof fn law_everything_can_be_deleted(
    v: memory::PlaneView,
    op: Operation,
    p: json::Json,
    w: memory::PlaneView,
    r: server::Outcome,
    name: Seq<char>,
    other: Seq<char>,
    vm_port: u16,
)
    requires
        op == Operation::DeleteNetwork || op == Operation::DeletePort,
        memory::plane_effect(v, op, p, w, r),
        params::says(p, "name"@, name),
    ensures
        ({
            let there = if op == Operation::DeleteNetwork {
                v.networks.contains_key(name)
            } else {
                v.ports.contains_key(name)
            };
            &&& there ==> succeeds(r)
            &&& !there ==> r == Err::<json::Json, RpcError>(RpcError::NotFound)
        }),
        w.range == v.range,
        op == Operation::DeleteNetwork ==> {
            &&& !w.networks.contains_key(name)
            &&& w.ports == v.ports
            &&& w.published == v.published
        },
        op == Operation::DeletePort ==> {
            &&& !w.ports.contains_key(name)
            &&& !w.published.contains_key((name, vm_port))
            &&& w.networks == v.networks
        },
        other != name ==> {
            &&& w.networks.contains_key(other) == v.networks.contains_key(other)
            &&& v.networks.contains_key(other) ==> w.networks[other] == v.networks[other]
            &&& w.ports.contains_key(other) == v.ports.contains_key(other)
            &&& v.ports.contains_key(other) ==> w.ports[other] == v.ports[other]
            &&& w.published.contains_key((other, vm_port)) == v.published.contains_key(
                (other, vm_port),
            )
            &&& v.published.contains_key((other, vm_port)) ==> w.published[(other, vm_port)]
                == v.published[(other, vm_port)]
        },
{
    params::law_parameters_are_read(p, "name"@, name, 0);
}

/// Every network that is there is shown with its name, its addresses and its
/// gateway, every port with its name and what it is attached to, and nothing
/// changes.
pub proof fn law_everything_is_shown(
    v: memory::PlaneView,
    op: Operation,
    p: json::Json,
    w: memory::PlaneView,
    r: server::Outcome,
    name: Seq<char>,
)
    requires
        op == Operation::GetNetwork || op == Operation::GetPort,
        memory::plane_effect(v, op, p, w, r),
        params::says(p, "name"@, name),
    ensures
        w == v,
        op == Operation::GetNetwork && !v.networks.contains_key(name) ==> r == Err::<
            json::Json,
            RpcError,
        >(RpcError::NotFound),
        op == Operation::GetNetwork && v.networks.contains_key(name) ==> {
            let n = v.networks[name].ipam.network;
            r matches Ok(json::Json::Object(m)) && m["name"@] == json::Json::String(n.name@)
                && m["cidr"@] == json::Json::String(n.cidr@.text()) && m["gateway"@]
                == json::Json::String(n.gateway.text())
        },
        op == Operation::GetPort && !v.ports.contains_key(name) ==> r == Err::<
            json::Json,
            RpcError,
        >(RpcError::NotFound),
        op == Operation::GetPort && v.ports.contains_key(name) ==> {
            let q = v.ports[name];
            r matches Ok(json::Json::Object(m)) && m["name"@] == json::Json::String(q.name)
                && m["network"@] == (match q.network {
                Some(t) => json::Json::String(t),
                None => json::Json::Null,
            }) && m["mac"@] == (match q.mac {
                Some(x) => json::Json::String(x.text()),
                None => json::Json::Null,
            }) && m["ip"@] == (match q.ip {
                Some(x) => json::Json::String(x.text()),
                None => json::Json::Null,
            })
        },
{
    params::law_parameters_are_read(p, "name"@, name, 0);
    reveal_strlit("name");
    reveal_strlit("cidr");
    reveal_strlit("gateway");
    reveal_strlit("network");
    reveal_strlit("mac");
    reveal_strlit("ip");
    assert("name"@.len() == 4 && "cidr"@.len() == 4 && "gateway"@.len() == 7 && "network"@.len() == 7
        && "mac"@.len() == 3 && "ip"@.len() == 2);
    assert("name"@[0] == 'n' && "cidr"@[0] == 'c');
}

/// Every port with a new name that holds something is created, attached to
/// nothing, with a socket of that name; one that is there stays. All else stays.
pub proof fn law_every_port_is_created(
    v: memory::PlaneView,
    p: json::Json,
    w: memory::PlaneView,
    r: server::Outcome,
    name: Seq<char>,
    other: Seq<char>,
)
    requires
        memory::plane_effect(v, Operation::CreatePort, p, w, r),
        params::says(p, "name"@, name),
        exists|i: int| 0 <= i < name.len() && !text::white_space(#[trigger] name[i]),
    ensures
        succeeds(r),
        w.ports.contains_key(name),
        v.ports.contains_key(name) ==> w == v,
        !v.ports.contains_key(name) ==> w.ports[name] == (model::PortView {
            name,
            socket_path: "/run/user/1000/k8snet/"@ + name + ".sock"@,
            network: None,
            mac: None,
            ip: None,
        }),
        other != name ==> w.ports.contains_key(other) == v.ports.contains_key(other),
        other != name && v.ports.contains_key(other) ==> w.ports[other] == v.ports[other],
        w == (memory::PlaneView { ports: w.ports, ..v }),
{
    params::law_parameters_are_read(p, "name"@, name, 0);
}

/// In every network that is there, a MAC address gets the address that it has;
/// where it has none, the lowest of the pool that nobody has, which it then has;
/// and only where somebody has every one is that a conflict. All else stays.
pub proof fn law_every_mac_gets_an_address(
    v: memory::PlaneView,
    net: Seq<char>,
    mac: MacAddr,
    w: memory::PlaneView,
    r: Result<Ipv4Addr, RpcError>,
    ip: Ipv4Addr,
    m: MacAddr,
    other: Seq<char>,
)
    requires
        memory::bind_effect(v, net, mac, w, r),
    ensures
        !v.networks.contains_key(net) ==> w == v && r == Err::<Ipv4Addr, RpcError>(
            RpcError::NotFound,
        ),
        w == (memory::PlaneView { networks: w.networks, ..v }),
        other != net ==> w.networks.contains_key(other) == v.networks.contains_key(other),
        other != net && v.networks.contains_key(other) ==> w.networks[other] == v.networks[other],
        v.networks.contains_key(net) ==> {
            let b = v.networks[net].ipam;
            let c = w.networks[net].ipam;
            let start = b.network.pool.start.num();
            let end = b.network.pool.end.num();
            &&& w.networks.contains_key(net)
            &&& w.networks[net].created_with == v.networks[net].created_with
            &&& c.network == b.network
            &&& m != mac ==> c.at(m) == b.at(m)
            &&& b.bindings.contains_key(mac) ==> w == v && r == Ok::<Ipv4Addr, RpcError>(
                b.bindings[mac],
            )
            &&& r is Ok ==> c.bindings.contains_key(mac) && c.bindings[mac] == r->Ok_0
            &&& !b.bindings.contains_key(mac) && r is Ok ==> {
                &&& start <= r->Ok_0.num() <= end
                &&& b.bindings.contains_key(m) ==> b.bindings[m] != r->Ok_0
                &&& start <= ip.num() < r->Ok_0.num() ==> exists|x: MacAddr| #[trigger]
                    b.bindings.contains_key(x) && b.bindings[x] == ip
            }
            &&& r is Err ==> {
                &&& w == v
                &&& r == Err::<Ipv4Addr, RpcError>(RpcError::Conflict)
                &&& start <= ip.num() <= end ==> exists|x: MacAddr| #[trigger]
                    b.bindings.contains_key(x) && b.bindings[x] == ip
            }
        },
{
    if v.networks.contains_key(net) {
        let b = v.networks[net].ipam;
        if r is Ok && !b.bindings.contains_key(mac) {
            ipam::law_no_free_address_is_passed_over(b, r->Ok_0, ip);
            ipam::law_binding_changes_one(b, mac, r->Ok_0, m);
        }
        ipam::law_no_free_address_is_passed_over(b, ip, ip);
    }
}

/// The address that a MAC address gets is the outcome, in words.
pub proof fn law_the_address_is_the_outcome(
    v: memory::PlaneView,
    p: json::Json,
    w: memory::PlaneView,
    r: server::Outcome,
    net: Seq<char>,
    mac: MacAddr,
)
    requires
        memory::plane_effect(v, Operation::AllocateIp, p, w, r),
        params::says(p, "network"@, net),
        params::mac_param_in(p, "mac"@) == Some(mac),
    ensures
        exists|ip: Result<Ipv4Addr, RpcError>| #[trigger]
            memory::bind_effect(v, net, mac, w, ip) && match ip {
                Ok(x) => r == Ok::<json::Json, RpcError>(json::Json::String(x.text())),
                Err(e) => r == Err::<json::Json, RpcError>(e),
            },
{
    params::law_parameters_are_read(p, "network"@, net, 0);
    let ip = choose|ip: Result<Ipv4Addr, RpcError>| #[trigger]
        memory::bind_effect(v, net, mac, w, ip) && r == memory::address_outcome(ip);
    assert(memory::bind_effect(v, net, mac, w, ip));
}

/// Every address that a MAC address has is freed on request, that one alone.
pub proof fn law_every_address_can_be_released(
    v: memory::PlaneView,
    p: json::Json,
    w: memory::PlaneView,
    r: server::Outcome,
    net: Seq<char>,
    mac: MacAddr,
    other: Seq<char>,
    m: MacAddr,
)
    requires
        memory::plane_effect(v, Operation::ReleaseIp, p, w, r),
        params::says(p, "network"@, net),
        params::mac_param_in(p, "mac"@) == Some(mac),
    ensures
        ({
            let there = v.networks.contains_key(net) && v.networks[net].ipam.bindings.contains_key(
                mac,
            );
            &&& !there ==> fails(v, w, r, RpcError::NotFound)
            &&& there ==> succeeds(r)
        }),
        w == (memory::PlaneView { networks: w.networks, ..v }),
        w.networks.contains_key(other) == v.networks.contains_key(other),
        v.networks.contains_key(other) ==> w.networks[other].ipam.network
            == v.networks[other].ipam.network && w.networks[other].ipam.at(m) == (if other == net
            && m == mac {
            None
        } else {
            v.networks[other].ipam.at(m)
        }),
{
    params::law_parameters_are_read(p, "network"@, net, 0);
    if v.networks.contains_key(other) {
        ipam::law_binding_changes_one(
            v.networks[other].ipam,
            mac,
            Ipv4Addr { a: 0, b: 0, c: 0, d: 0 },
            m,
        );
    }
}

/// Every port that is attached to nothing is attached to any network that has
/// an address for its MAC, and has that address. One that is so attached stays,
/// one that is attached otherwise is in conflict; all else stays.
pub proof fn law_every_free_port_can_be_attached(
    v: memory::PlaneView,
    p: json::Json,
    w: memory::PlaneView,
    r: server::Outcome,
    port: Seq<char>,
    net: Seq<char>,
    mac: MacAddr,
    other: Seq<char>,
)
    requires
        memory::plane_effect(v, Operation::AttachPort, p, w, r),
        params::says(p, "port"@, port),
        params::says(p, "network"@, net),
        params::mac_param_in(p, "mac"@) == Some(mac),
    ensures
        !v.ports.contains_key(port) ==> fails(v, w, r, RpcError::NotFound),
        v.ports.contains_key(port) ==> exists|
            u: memory::PlaneView,
            ip: Result<Ipv4Addr, RpcError>,
        | #[trigger]
            memory::bind_effect(v, net, mac, u, ip) && {
                let q = v.ports[port];
                &&& w == (memory::PlaneView { ports: w.ports, ..u })
                &&& match ip {
                    Err(e) => fails(u, w, r, e),
                    Ok(x) => {
                        &&& q.network is Some ==> w == u && r == (if q.network == Some(net) && q.mac
                            == Some(mac) {
                            Ok::<json::Json, RpcError>(json::Json::Null)
                        } else {
                            Err(RpcError::Conflict)
                        })
                        &&& q.network is None ==> succeeds(r) && w.ports.contains_key(port)
                            && w.ports[port] == (model::PortView {
                            name: q.name,
                            socket_path: q.socket_path,
                            network: Some(net),
                            mac: Some(mac),
                            ip: Some(x),
                        })
                    },
                }
            },
        other != port ==> w.ports.contains_key(other) == v.ports.contains_key(other),
        other != port && v.ports.contains_key(other) ==> w.ports[other] == v.ports[other],
{
    params::law_parameters_are_read(p, "port"@, port, 0);
    params::law_parameters_are_read(p, "network"@, net, 0);
    if v.ports.contains_key(port) {
        let (u, ip) = choose|u: memory::PlaneView, ip: Result<Ipv4Addr, RpcError>| #[trigger]
            memory::bind_effect(v, net, mac, u, ip) && memory::attached(
                u,
                port,
                net,
                mac,
                ip,
                w,
                r,
            );
        let zero = Ipv4Addr { a: 0, b: 0, c: 0, d: 0 };
        law_every_mac_gets_an_address(v, net, mac, u, ip, zero, mac, net);
        assert(u.ports == v.ports);
        assert(memory::bind_effect(v, net, mac, u, ip));
    }
}

/// Every port that is there can be detached: it stays, attached to nothing, and
/// nothing is published for it. All else stays.
pub proof fn law_every_port_can_be_detached(
    v: memory::PlaneView,
    p: json::Json,
    w: memory::PlaneView,
    r: server::Outcome,
    name: Seq<char>,
    other: Seq<char>,
    vm_port: u16,
)
    requires
        memory::plane_effect(v, Operation::DetachPort, p, w, r),
        params::says(p, "name"@, name),
    ensures
        !v.ports.contains_key(name) ==> fails(v, w, r, RpcError::NotFound),
        v.ports.contains_key(name) ==> {
            &&& succeeds(r)
            &&& w.ports.contains_key(name)
            &&& w.ports[name] == (model::PortView {
                name: v.ports[name].name,
                socket_path: v.ports[name].socket_path,
                network: None,
                mac: None,
                ip: None,
            })
            &&& !w.published.contains_key((name, vm_port))
        },
        w.networks == v.networks,
        w.range == v.range,
        other != name ==> {
            &&& w.ports.contains_key(other) == v.ports.contains_key(other)
            &&& v.ports.contains_key(other) ==> w.ports[other] == v.ports[other]
            &&& w.published.contains_key((other, vm_port)) == v.published.contains_key(
                (other, vm_port),
            )
            &&& v.published.contains_key((other, vm_port)) ==> w.published[(other, vm_port)]
                == v.published[(other, vm_port)]
        },
{
    params::law_parameters_are_read(p, "name"@, name, 0);
}

/// Every port of an attached VM can be published while a host port of the range
/// is free, on the one that the pair has, or else on the lowest free one, which
/// is the outcome; every pair that is published can be withdrawn. Other pairs
/// keep their host ports, and all else stays.
pub proof fn law_every_port_can_be_published(
    v: memory::PlaneView,
    op: Operation,
    p: json::Json,
    w: memory::PlaneView,
    r: server::Outcome,
    port: Seq<char>,
    vm_port: u16,
    other: (Seq<char>, u16),
    h: u16,
)
    requires
        op == Operation::PublishPort || op == Operation::UnpublishPort,
        memory::plane_effect(v, op, p, w, r),
        params::says(p, "port"@, port),
        params::number_param(p, "vm_port"@) == Some(vm_port),
    ensures
        ({
            let pair = (port, vm_port);
            let attached = v.ports.contains_key(port) && v.ports[port].network is Some;
            let free = |x: u16| v.range.0 <= x <= v.range.1 && forall|k: (Seq<char>, u16)| #[trigger]
                v.published.contains_key(k) ==> v.published[k] != x;
            &&& w == (memory::PlaneView { published: w.published, ..v })
            &&& other != pair ==> w.published.contains_key(other) == v.published.contains_key(other)
            &&& other != pair && v.published.contains_key(other) ==> w.published[other]
                == v.published[other]
            &&& op == Operation::UnpublishPort ==> {
                &&& !w.published.contains_key(pair)
                &&& v.published.contains_key(pair) ==> succeeds(r)
                &&& !v.published.contains_key(pair) ==> fails(v, w, r, RpcError::NotFound)
            }
            &&& op == Operation::PublishPort ==> {
                &&& !attached ==> fails(v, w, r, RpcError::NotFound)
                &&& v.published.contains_key(pair) ==> w == v
                &&& attached && !w.published.contains_key(pair) ==> fails(
                    v,
                    w,
                    r,
                    RpcError::Conflict,
                ) && !free(h)
                &&& attached && w.published.contains_key(pair) ==> (r matches Ok(
                    json::Json::Object(m),
                ) && m["host_port"@] == json::Json::Number(
                    Number::PosInt(w.published[pair] as u64),
                ))
                &&& !v.published.contains_key(pair) && w.published.contains_key(pair) ==> free(
                    w.published[pair],
                ) && (h < w.published[pair] ==> !free(h))
            }
        }),
{
    params::law_parameters_are_read(p, "port"@, port, 0);
    let pair = (port, vm_port);
    let attached = v.ports.contains_key(port) && v.ports[port].network is Some;
    if op == Operation::PublishPort && attached && !v.published.contains_key(pair) {
        if model::hosts_exhausted(v.published, v.range) {
            model::law_no_free_host_port_is_passed_over(v.published, v.range, h, h);
        } else {
            let x = choose|x: u16|
                {
                    &&& #[trigger] model::lowest_free_host(v.published, v.range, x)
                    &&& r == Ok::<json::Json, RpcError>(memory::host_json(x))
                    &&& w == (memory::PlaneView { published: v.published.insert(pair, x), ..v })
                };
            model::law_no_free_host_port_is_passed_over(v.published, v.range, x, h);
        }
    }
}

/// Every operation that lacks one of its parameters, or has one that is of
/// another form, changes nothing and is answered so.
pub proof fn law_missing_parameters_are_refused(
    v: memory::PlaneView,
    op: Operation,
    p: json::Json,
    w: memory::PlaneView,
    r: server::Outcome,
)
    requires
        memory::plane_effect(v, op, p, w, r),
        ({
            let no_name = forall|s: Seq<char>| !#[trigger] params::says(p, "name"@, s);
            let no_port = forall|s: Seq<char>| !#[trigger] params::says(p, "port"@, s);
            let no_network = forall|s: Seq<char>| !#[trigger] params::says(p, "network"@, s);
            let no_mac = params::mac_param_in(p, "mac"@) is None;
            let no_vm_port = params::number_param(p, "vm_port"@) is None;
            match op {
                Operation::AttachPort => no_port || no_network || no_mac,
                Operation::AllocateIp => no_network || no_mac,
                Operation::ReleaseIp => no_network || no_mac,
                Operation::PublishPort => no_port || no_vm_port,
                Operation::UnpublishPort => no_port || no_vm_port,
                _ => no_name,
            }
        }),
    ensures
        fails(v, w, r, RpcError::InvalidParams),
{
    assert forall|key: Seq<char>, s: Seq<char>| #[trigger] params::says(p, key, s) == (
    params::text_param(p, key) == Some(s)) by {
        params::law_parameters_are_read(p, key, s, 0);
    }
    if params::text_param(p, "name"@) is Some {
        assert(params::says(p, "name"@, params::text_param(p, "name"@)->0));
    }
    if params::text_param(p, "port"@) is Some {
        assert(params::says(p, "port"@, params::text_param(p, "port"@)->0));
    }
    if params::text_param(p, "network"@) is Some {
        assert(params::says(p, "network"@, params::text_param(p, "network"@)->0));
    }
}

/// A network that is there stays as it is when it is created again: the
/// parameters that it was created with are accepted, others are in conflict.
pub proof fn law_a_network_that_is_there_stays(
    v: memory::PlaneView,
    p: json::Json,
    w: memory::PlaneView,
    r: server::Outcome,
    name: Seq<char>,
)
    requires
        memory::plane_effect(v, Operation::CreateNetwork, p, w, r),
        params::says(p, "name"@, name),
        v.networks.contains_key(name),
        params::has_network_params(p),
    ensures
        w == v,
        r == (if v.networks[name].created_with == p {
            Ok::<json::Json, RpcError>(json::Json::Null)
        } else {
            Err(RpcError::Conflict)
        }),
{
    params::law_parameters_are_read(p, "name"@, name, 0);
}

/// At the start there is nothing but what is published.
pub proof fn law_what_is_there_at_the_start(
    range: (u16, u16),
    published: model::Published,
    name: Seq<char>,
)
    ensures
        ({
            let v = memory::PlaneView::initial(range, published);
            &&& !v.networks.contains_key(name) && !v.ports.contains_key(name)
            &&& v.range == range
            &&& v.published == published
            &&& server::DEFAULT_PUBLISH_RANGE == (20_000u16, 21_000u16)
        }),
{
}

} // verus!
