//! The operations of the control plane on live ports.

use vstd::prelude::*;

use crate::dataplane;
use crate::dataplane::{Dataplane, LivePort, Plan, Step};
use crate::ipam;
use crate::ipam::{Ipam, IpamError};
use crate::json;
use crate::json::{Number, Value};
use crate::memory;
use crate::memory::NetworkEntry;
use crate::model;
use crate::model::{Ipv4Addr, MacAddr, Network};
use crate::params;
use crate::params::{mac_param, network_param, str_param, u16_param};
use crate::protocol::RpcError;
use crate::server;
use crate::switch::engine;
use crate::switch::gateway;
use crate::switch::mac_table::PortId;
use crate::text;

verus! {

/// The error that a failed binding is answered with.
pub fn ipam_err(e: IpamError) -> (r: RpcError)
    ensures
        r == (match e {
            IpamError::PoolExhausted => RpcError::Conflict,
            IpamError::UnknownMac => RpcError::NotFound,
        }),
{
    match e {
        IpamError::PoolExhausted => RpcError::Conflict,
        IpamError::UnknownMac => RpcError::NotFound,
    }
}

// -- networks -----------------------------------------------------------------

/// A network is created from the parameters, and the gateway serves it. Where
/// a network of that name is there, nothing changes: the parameters it was
/// created with are accepted again, others are in conflict.
pub open spec fn create_network_effect(
    v: dataplane::DataView,
    p: json::Json,
    w: dataplane::DataView,
    plan: dataplane::PlanView,
) -> bool {
    let name = params::text_param(p, "name"@)->0;
    if !params::has_network_params(p) {
        w == v && plan == dataplane::failing(RpcError::InvalidParams)
    } else if v.networks.contains_key(name) {
        w == v && plan == (if v.networks[name].created_with == p {
            dataplane::replying(seq![], json::Json::Null)
        } else {
            dataplane::failing(RpcError::Conflict)
        })
    } else if !params::describes_network(p) {
        w == v && plan == dataplane::failing(RpcError::InvalidParams)
    } else {
        &&& plan == dataplane::replying(seq![dataplane::StepView::Persist], json::Json::Null)
        &&& exists|n: Network| #[trigger] params::describes(p, n) && w == with_network(v, n, p)
    }
}

/// The state with the network `n`, created with the parameters `p`.
pub open spec fn with_network(v: dataplane::DataView, n: Network, p: json::Json) -> dataplane::DataView {
    dataplane::DataView {
        networks: v.networks.insert(n.name@, memory::fresh_network(n, p)),
        gateway: gateway::GatewayView {
            networks: v.gateway.networks.insert(n.name@, n),
            ports: v.gateway.ports,
        },
        ..v
    }
}

/// The state without the network `name`.
pub open spec fn without_network(v: dataplane::DataView, name: Seq<char>) -> dataplane::DataView {
    dataplane::DataView {
        networks: v.networks.remove(name),
        gateway: gateway::GatewayView {
            networks: v.gateway.networks.remove(name),
            ports: v.gateway.ports,
        },
        ..v
    }
}

/// The network is forgotten, and the gateway serves it no longer.
pub open spec fn delete_network_effect(
    v: dataplane::DataView,
    p: json::Json,
    w: dataplane::DataView,
    plan: dataplane::PlanView,
) -> bool {
    match params::text_param(p, "name"@) {
        None => w == v && plan == dataplane::failing(RpcError::InvalidParams),
        Some(name) => {
            &&& w == without_network(v, name)
            &&& plan == (if v.networks.contains_key(name) {
                dataplane::replying(seq![dataplane::StepView::Persist], json::Json::Null)
            } else {
                dataplane::failing(RpcError::NotFound)
            })
        },
    }
}

/// The network is shown.
pub open spec fn network_shown(v: dataplane::DataView, p: json::Json) -> dataplane::PlanView {
    match params::text_param(p, "name"@) {
        None => dataplane::failing(RpcError::InvalidParams),
        Some(name) => if v.networks.contains_key(name) {
            dataplane::replying(
                seq![],
                memory::network_json(name, v.networks[name].ipam.network),
            )
        } else {
            dataplane::failing(RpcError::NotFound)
        },
    }
}

// -- ports --------------------------------------------------------------------

/// The state with the new port `name`, attached to nothing: neither the switch
/// nor the gateway has it.
pub open spec fn with_new_port(v: dataplane::DataView, name: Seq<char>) -> dataplane::DataView {
    let id = PortId(v.next_id);
    dataplane::DataView {
        ports: v.ports.insert(
            name,
            dataplane::LiveView { id: v.next_id, network: None, mac: None },
        ),
        names: v.names.insert(id, name),
        next_id: (v.next_id + 1) as u32,
        ..v
    }
}

/// The port `id` off the switch and the gateway.
pub open spec fn without_handle(v: dataplane::DataView, id: u32) -> dataplane::DataView {
    dataplane::DataView {
        switch: engine::SwitchView {
            ports: v.switch.ports.remove(PortId(id)),
            table: v.switch.table,
        },
        gateway: gateway::GatewayView {
            networks: v.gateway.networks,
            ports: v.gateway.ports.remove(PortId(id)),
        },
        ..v
    }
}

/// The address of `mac` freed in the network `net`, where it is bound there.
pub open spec fn released(v: dataplane::DataView, net: Option<Seq<char>>, mac: Option<MacAddr>) -> dataplane::DataView {
    if net is Some && mac is Some && v.networks.contains_key(net->0) {
        v.with_bindings(net->0, v.networks[net->0].ipam.unbind(mac->0))
    } else {
        v
    }
}

/// The state without the port `name`: its address is freed, it is off the
/// switch and the gateway, and nothing is published for it.
pub open spec fn without_port(v: dataplane::DataView, name: Seq<char>) -> dataplane::DataView {
    let p = v.ports[name];
    let u = without_handle(released(v, p.network, p.mac), p.id);
    dataplane::DataView {
        ports: u.ports.remove(name),
        names: u.names.remove(PortId(p.id)),
        ..u.without_forwards(name)
    }
}

/// The port is forgotten; its WAN process is stopped and its socket removed.
pub open spec fn delete_port_effect(
    v: dataplane::DataView,
    p: json::Json,
    w: dataplane::DataView,
    plan: dataplane::PlanView,
) -> bool {
    match params::text_param(p, "name"@) {
        None => w == v && plan == dataplane::failing(RpcError::InvalidParams),
        Some(name) => if v.ports.contains_key(name) {
            &&& w == without_port(v, name)
            &&& plan == dataplane::replying(
                seq![
                    dataplane::StepView::Persist,
                    dataplane::StepView::StopPasst { port: name },
                    dataplane::StepView::RemoveSocket { port: name },
                ],
                json::Json::Null,
            )
        } else {
            w == v && plan == dataplane::failing(RpcError::NotFound)
        },
    }
}

/// A port, what it is attached to, and the address that it has there, as JSON.
pub open spec fn live_json(
    name: Seq<char>,
    p: dataplane::LiveView,
    ip: Option<Ipv4Addr>,
) -> json::Json {
    json::Json::Object(
        Map::<Seq<char>, json::Json>::empty().insert("name"@, json::Json::String(name)).insert(
            "network"@,
            memory::optional_json(p.network),
        ).insert(
            "mac"@,
            match p.mac {
                Some(m) => json::Json::String(m.text()),
                None => json::Json::Null,
            },
        ).insert(
            "ip"@,
            match ip {
                Some(ip) => json::Json::String(ip.text()),
                None => json::Json::Null,
            },
        ),
    )
}

/// The port is shown.
pub open spec fn port_shown(v: dataplane::DataView, p: json::Json) -> dataplane::PlanView {
    match params::text_param(p, "name"@) {
        None => dataplane::failing(RpcError::InvalidParams),
        Some(name) => if v.ports.contains_key(name) {
            dataplane::replying(seq![], live_json(name, v.ports[name], v.address_of(name)))
        } else {
            dataplane::failing(RpcError::NotFound)
        },
    }
}

// -- attachments --------------------------------------------------------------

/// In the network `net`, `mac` gets the address it is bound to; where it is
/// bound to none, the lowest free one of the pool, which is then bound to it.
/// Where there is no such network, it is not found; where the pool is
/// exhausted, that is a conflict.
pub open spec fn bind_effect(
    v: dataplane::DataView,
    net: Seq<char>,
    mac: MacAddr,
    w: dataplane::DataView,
    r: Result<Ipv4Addr, RpcError>,
) -> bool {
    let b = v.networks[net].ipam;
    if !v.networks.contains_key(net) {
        r == Err::<Ipv4Addr, RpcError>(RpcError::NotFound) && w == v
    } else if b.bindings.contains_key(mac) {
        r == Ok::<Ipv4Addr, RpcError>(b.bindings[mac]) && w == v
    } else if b.exhausted() {
        r == Err::<Ipv4Addr, RpcError>(RpcError::Conflict) && w == v
    } else {
        &&& r is Ok
        &&& b.lowest_free(r->Ok_0)
        &&& w == v.with_bindings(net, b.bind(mac, r->Ok_0))
    }
}

/// The state with the port `port` attached to the network `net` with `mac`.
pub open spec fn with_attachment(
    v: dataplane::DataView,
    port: Seq<char>,
    net: Seq<char>,
    mac: MacAddr,
) -> dataplane::DataView {
    let p = v.ports[port];
    dataplane::DataView {
        ports: v.ports.insert(
            port,
            dataplane::LiveView { id: p.id, network: Some(net), mac: Some(mac) },
        ),
        switch: engine::SwitchView {
            ports: v.switch.ports.insert(PortId(p.id), net),
            table: v.switch.table,
        },
        gateway: gateway::GatewayView {
            networks: v.gateway.networks,
            ports: v.gateway.ports.insert(PortId(p.id), net),
        },
        ..v
    }
}

/// What has to be done for an attached port with the address `ip`.
pub open spec fn attach_plan(port: Seq<char>, mac: MacAddr, ip: Ipv4Addr) -> dataplane::PlanView {
    dataplane::replying(
        seq![
            dataplane::StepView::PinMac { port, mac },
            dataplane::StepView::EnsurePasst { port, vm_ip: ip.text(), published: seq![] },
            dataplane::StepView::Persist,
        ],
        json::Json::Null,
    )
}

/// The port is attached to the network: its MAC is bound to an address there,
/// the switch and the gateway have it on the network, and it gets a WAN
/// process without forwards.
///
/// A port that is so attached stays as it is; one that is attached otherwise
/// is in conflict, and then nothing is bound.
pub open spec fn attach_port_effect(
    v: dataplane::DataView,
    p: json::Json,
    w: dataplane::DataView,
    plan: dataplane::PlanView,
) -> bool {
    let port = params::text_param(p, "port"@);
    let net = params::text_param(p, "network"@);
    let mac = params::mac_param_in(p, "mac"@);
    let q = v.ports[port->0];
    if port is None || net is None || mac is None {
        w == v && plan == dataplane::failing(RpcError::InvalidParams)
    } else if !v.ports.contains_key(port->0) {
        w == v && plan == dataplane::failing(RpcError::NotFound)
    } else if q.network == net && q.mac == mac {
        w == v && plan == dataplane::replying(seq![], json::Json::Null)
    } else if q.network is Some {
        w == v && plan == dataplane::failing(RpcError::Conflict)
    } else {
        exists|u: dataplane::DataView, ip: Result<Ipv4Addr, RpcError>| #[trigger]
            bind_effect(v, net->0, mac->0, u, ip) && match ip {
                Ok(ip) => {
                    &&& w == with_attachment(u, port->0, net->0, mac->0)
                    &&& plan == attach_plan(port->0, mac->0, ip)
                },
                Err(e) => w == u && plan == dataplane::failing(e),
            }
    }
}

/// The state with the port `name` attached to nothing, off the switch and the
/// gateway.
pub open spec fn without_attachment(v: dataplane::DataView, name: Seq<char>) -> dataplane::DataView {
    let p = v.ports[name];
    dataplane::DataView {
        ports: v.ports.insert(name, dataplane::LiveView { id: p.id, network: None, mac: None }),
        ..without_handle(v, p.id)
    }
}

/// The port is detached: it is off the switch and the gateway, its address is
/// freed, nothing is published for it, and its WAN process is stopped.
///
/// Where its network is gone, or its address was freed before, all of that is
/// done too, but for the address, and the reply is that this was not found.
pub open spec fn detach_port_effect(
    v: dataplane::DataView,
    p: json::Json,
    w: dataplane::DataView,
    plan: dataplane::PlanView,
) -> bool {
    match params::text_param(p, "name"@) {
        None => w == v && plan == dataplane::failing(RpcError::InvalidParams),
        Some(name) => if !v.ports.contains_key(name) {
            w == v && plan == dataplane::failing(RpcError::NotFound)
        } else {
            let q = v.ports[name];
            let u = without_attachment(v, name);
            let lost = q.network is Some && q.mac is Some && v.address_of(name) is None;
            &&& w == released(u, q.network, q.mac).without_forwards(name)
            &&& plan == (dataplane::PlanView {
                steps: seq![
                    dataplane::StepView::Persist,
                    dataplane::StepView::StopPasst { port: name },
                ],
                reply: if lost {
                    Err(RpcError::NotFound)
                } else {
                    Ok(json::Json::Null)
                },
            })
        },
    }
}

// -- addresses ----------------------------------------------------------------

/// The MAC is bound to an address in the network, which is the reply. The state
/// is written down even where the MAC was bound before, so that an address is
/// never the reply before its binding is kept.
pub open spec fn allocate_ip_effect(
    v: dataplane::DataView,
    p: json::Json,
    w: dataplane::DataView,
    plan: dataplane::PlanView,
) -> bool {
    let net = params::text_param(p, "network"@);
    let mac = params::mac_param_in(p, "mac"@);
    if net is None || mac is None {
        w == v && plan == dataplane::failing(RpcError::InvalidParams)
    } else {
        exists|ip: Result<Ipv4Addr, RpcError>| #[trigger]
            bind_effect(v, net->0, mac->0, w, ip) && plan == (dataplane::PlanView {
                steps: if ip is Ok {
                    seq![dataplane::StepView::Persist]
                } else {
                    seq![]
                },
                reply: memory::address_outcome(ip),
            })
    }
}

/// The address of the MAC is freed in the network.
pub open spec fn release_ip_effect(
    v: dataplane::DataView,
    p: json::Json,
    w: dataplane::DataView,
    plan: dataplane::PlanView,
) -> bool {
    let net = params::text_param(p, "network"@);
    let mac = params::mac_param_in(p, "mac"@);
    if net is None || mac is None {
        w == v && plan == dataplane::failing(RpcError::InvalidParams)
    } else if !v.networks.contains_key(net->0) || !v.networks[net->0].ipam.bindings.contains_key(
        mac->0,
    ) {
        w == v && plan == dataplane::failing(RpcError::NotFound)
    } else {
        &&& w == released(v, net, mac)
        &&& plan == dataplane::replying(seq![dataplane::StepView::Persist], json::Json::Null)
    }
}

// -- forwards -----------------------------------------------------------------

/// After a change to what is published for the port `port`: the state is
/// written down, and the WAN process is ensured for all that is published;
/// without an address for it, the reply is an error.
pub open spec fn forwards_changed(
    w: dataplane::DataView,
    port: Seq<char>,
    reply: json::Json,
    plan: dataplane::PlanView,
) -> bool {
    match w.reserved(port) {
        Err(e) => plan == (dataplane::PlanView {
            steps: seq![dataplane::StepView::Persist],
            reply: Err(e),
        }),
        Ok(ip) => exists|f: Seq<(u16, u16)>| #[trigger]
            model::forwards_of(w.published, port, f) && plan == dataplane::replying(
                seq![
                    dataplane::StepView::Persist,
                    dataplane::StepView::EnsurePasst { port, vm_ip: ip.text(), published: f },
                ],
                reply,
            ),
    }
}

/// A port of an attached VM is published on the host port that it has; where
/// it has none, on the lowest free one. Where none is free, that is a conflict
/// and nothing changes. The WAN process is ensured for all that is published.
pub open spec fn publish_port_effect(
    v: dataplane::DataView,
    p: json::Json,
    w: dataplane::DataView,
    plan: dataplane::PlanView,
) -> bool {
    let port = params::text_param(p, "port"@);
    let vm_port = params::number_param(p, "vm_port"@);
    let pair = (port->0, vm_port->0);
    if port is None || vm_port is None {
        w == v && plan == dataplane::failing(RpcError::InvalidParams)
    } else if !v.ports.contains_key(port->0) || v.ports[port->0].network is None {
        w == v && plan == dataplane::failing(RpcError::NotFound)
    } else if v.published.contains_key(pair) {
        w == v && forwards_changed(w, port->0, memory::host_json(v.published[pair]), plan)
    } else if model::hosts_exhausted(v.published, v.range) {
        w == v && plan == dataplane::failing(RpcError::Conflict)
    } else {
        exists|h: u16|
            {
                &&& #[trigger] model::lowest_free_host(v.published, v.range, h)
                &&& w == (dataplane::DataView { published: v.published.insert(pair, h), ..v })
                &&& forwards_changed(w, port->0, memory::host_json(h), plan)
            }
    }
}

/// Whether anything is published for the port `port`.
pub open spec fn publishes(published: model::Published, port: Seq<char>) -> bool {
    exists|vm_port: u16| #[trigger] published.contains_key((port, vm_port))
}

/// A port is withdrawn, and the WAN process is ensured for what is left, which
/// may be nothing: it is the way out of the VM all the same. Where the port has
/// no address to run it for and nothing is left, the process is stopped.
pub open spec fn unpublish_port_effect(
    v: dataplane::DataView,
    p: json::Json,
    w: dataplane::DataView,
    plan: dataplane::PlanView,
) -> bool {
    let port = params::text_param(p, "port"@);
    let vm_port = params::number_param(p, "vm_port"@);
    let pair = (port->0, vm_port->0);
    if port is None || vm_port is None {
        w == v && plan == dataplane::failing(RpcError::InvalidParams)
    } else if !v.published.contains_key(pair) {
        w == v && plan == dataplane::failing(RpcError::NotFound)
    } else {
        &&& w == (dataplane::DataView { published: v.published.remove(pair), ..v })
        &&& if w.address_of(port->0) is Some || publishes(w.published, port->0) {
            forwards_changed(w, port->0, json::Json::Null, plan)
        } else {
            plan == dataplane::replying(
                seq![
                    dataplane::StepView::Persist,
                    dataplane::StepView::StopPasst { port: port->0 },
                ],
                json::Json::Null,
            )
        }
    }
}

/// What creating a port comes to, once its socket is bound where there is to
/// be one.
pub open spec fn create_port_effect(
    v: dataplane::DataView,
    p: json::Json,
    w: dataplane::DataView,
    plan: dataplane::PlanView,
) -> bool {
    match params::text_param(p, "name"@) {
        None => w == v && plan == dataplane::failing(RpcError::InvalidParams),
        Some(name) => if v.ports.contains_key(name) {
            w == v && plan == dataplane::replying(seq![], json::Json::Null)
        } else {
            &&& w == with_new_port(v, name)
            &&& plan == dataplane::replying(seq![dataplane::StepView::Persist], json::Json::Null)
        },
    }
}

/// What the operation `op` does.
pub open spec fn operation_effect(
    v: dataplane::DataView,
    op: server::Operation,
    p: json::Json,
    w: dataplane::DataView,
    plan: dataplane::PlanView,
) -> bool {
    match op {
        server::Operation::CreateNetwork => create_network_effect(v, p, w, plan),
        server::Operation::DeleteNetwork => delete_network_effect(v, p, w, plan),
        server::Operation::GetNetwork => w == v && plan == network_shown(v, p),
        server::Operation::CreatePort => create_port_effect(v, p, w, plan),
        server::Operation::DeletePort => delete_port_effect(v, p, w, plan),
        server::Operation::GetPort => w == v && plan == port_shown(v, p),
        server::Operation::AttachPort => attach_port_effect(v, p, w, plan),
        server::Operation::DetachPort => detach_port_effect(v, p, w, plan),
        server::Operation::AllocateIp => allocate_ip_effect(v, p, w, plan),
        server::Operation::ReleaseIp => release_ip_effect(v, p, w, plan),
        server::Operation::PublishPort => publish_port_effect(v, p, w, plan),
        server::Operation::UnpublishPort => unpublish_port_effect(v, p, w, plan),
    }
}

// -- the operations -----------------------------------------------------------

/// What there is to do for a port that is to be created.
#[derive(Debug, PartialEq, Eq)]
pub enum PortCreation {
    /// Nothing: it is there.
    Exists,
    /// A socket is bound for the port with this name, and then
    /// [`Dataplane::port_bound`] is called.
    Bind(String),
}

impl Dataplane {
    /// Creates a network.
    pub fn create_network(&mut self, params: &Value) -> (r: Plan)
        ensures
            create_network_effect(old(self)@, params@, final(self)@, r@),
    {
        broadcast use json::lemma_value_view;

        let name = match str_param(params, "name") {
            Ok(name) => name,
            Err(e) => {
                return Plan::fail(e);
            },
        };
        if str_param(params, "cidr").is_err() || str_param(params, "gateway").is_err()
            || str_param(params, "poolStart").is_err() || str_param(params, "poolEnd").is_err() {
            return Plan::fail(RpcError::InvalidParams);
        }
        if let Some(entry) = self.networks.get(name) {
            return if entry.created_with.same(params) {
                Plan::just(Value::Null)
            } else {
                Plan::fail(RpcError::Conflict)
            };
        }
        let network = match network_param(params) {
            Ok(network) => network,
            Err(e) => {
                return Plan::fail(e);
            },
        };
        self.gateway.add_network(&network);
        let entry = NetworkEntry { ipam: Ipam::new(network), created_with: params.clone() };
        let _ = self.networks.insert(name.to_owned(), entry);
        assert(self@ =~= with_network(old(self)@, network, params@));
        let mut plan = Plan::just(Value::Null);
        plan.add_step(Step::Persist);
        assert(plan@.steps =~= seq![dataplane::StepView::Persist]);
        plan
    }

    /// Deletes a network.
    pub fn delete_network(&mut self, params: &Value) -> (r: Plan)
        ensures
            delete_network_effect(old(self)@, params@, final(self)@, r@),
    {
        broadcast use json::lemma_value_view;

        let name = match str_param(params, "name") {
            Ok(name) => name,
            Err(e) => {
                return Plan::fail(e);
            },
        };
        let _ = self.gateway.remove_network(name);
        let gone = self.networks.remove(name);
        assert(self@ =~= without_network(old(self)@, name@));
        match gone {
            Some(_) => {
                let mut plan = Plan::just(Value::Null);
                plan.add_step(Step::Persist);
                assert(plan@.steps =~= seq![dataplane::StepView::Persist]);
                plan
            },
            None => Plan::fail(RpcError::NotFound),
        }
    }

    /// Shows a network.
    pub fn get_network(&self, params: &Value) -> (r: Plan)
        ensures
            r@ == network_shown(self@, params@),
    {
        broadcast use json::lemma_value_view;

        let name = match str_param(params, "name") {
            Ok(name) => name,
            Err(e) => {
                return Plan::fail(e);
            },
        };
        match self.networks.get(name) {
            Some(e) => {
                let n = e.ipam.network();
                let mut m = Value::no_members();
                Value::put(&mut m, "name", Value::String(name.to_owned()));
                Value::put(&mut m, "cidr", Value::String(n.cidr.to_string()));
                Value::put(&mut m, "gateway", Value::String(n.gateway.to_string()));
                Plan::just(Value::object(m))
            },
            None => Plan::fail(RpcError::NotFound),
        }
    }

    /// What there is to do for a port that is to be created.
    pub fn create_port(&self, params: &Value) -> (r: Result<PortCreation, RpcError>)
        ensures
            match r {
                Err(e) => e == RpcError::InvalidParams && params::text_param(params@, "name"@) is None,
                Ok(PortCreation::Exists) => params::text_param(params@, "name"@) is Some
                    && self@.ports.contains_key(params::text_param(params@, "name"@)->0),
                Ok(PortCreation::Bind(name)) => params::text_param(params@, "name"@) == Some(name@)
                    && !self@.ports.contains_key(name@),
            },
    {
        let name = str_param(params, "name")?;
        if self.ports.contains_key(name) {
            return Ok(PortCreation::Exists);
        }
        Ok(PortCreation::Bind(name.to_owned()))
    }

    /// The handle of the next port that is created.
    pub fn next_port_id(&self) -> (r: u32)
        ensures
            r == self@.next_id,
    {
        self.next_port_id
    }

    /// Takes up the new port `name`, whose socket is bound; gives its handle.
    pub fn port_bound(&mut self, name: &str) -> (r: (PortId, Plan))
        requires
            !old(self)@.ports.contains_key(name@),
            old(self)@.next_id < u32::MAX,
        ensures
            r.0 == PortId(old(self)@.next_id),
            r.1@ == dataplane::replying(seq![dataplane::StepView::Persist], json::Json::Null),
            final(self)@ == with_new_port(old(self)@, name@),
    {
        broadcast use json::lemma_value_view;

        let id: u32 = self.next_port_id;
        self.next_port_id = id + 1;
        let _ = self.names.insert(id, name.to_owned());
        let _ = self.ports.insert(name.to_owned(), LivePort { id, network: None, mac: None });
        assert(self@ =~= with_new_port(old(self)@, name@));
        let mut plan = Plan::just(Value::Null);
        plan.add_step(Step::Persist);
        assert(plan@.steps =~= seq![dataplane::StepView::Persist]);
        (PortId(id), plan)
    }

    /// Frees the address of `mac` in the network `net`; says whether there
    /// was one.
    fn release(&mut self, net: &str, mac: MacAddr) -> (r: Result<(), RpcError>)
        ensures
            if old(self)@.networks.contains_key(net@)
                && old(self)@.networks[net@].ipam.bindings.contains_key(mac) {
                &&& r is Ok
                &&& final(self)@ == released(old(self)@, Some(net@), Some(mac))
            } else {
                &&& r == Err::<(), RpcError>(RpcError::NotFound)
                &&& final(self)@ == old(self)@
                &&& final(self)@ == released(old(self)@, Some(net@), Some(mac))
            },
    {
        match self.networks.remove(net) {
            None => {
                assert(self@ =~= old(self)@);
                Err(RpcError::NotFound)
            },
            Some(e) => {
                let mut entry: NetworkEntry = e;
                let r = entry.ipam.release(mac);
                let _ = self.networks.insert(net.to_owned(), entry);
                assert(self@ =~= old(self)@.with_bindings(net@, entry.ipam@));
                match r {
                    Ok(_) => Ok(()),
                    Err(e) => {
                        assert(self@ =~= old(self)@);
                        assert(entry.ipam@.bindings.remove(mac) =~= entry.ipam@.bindings);
                        Err(ipam_err(e))
                    },
                }
            },
        }
    }

    /// Binds `mac` to an address in the network `net`.
    fn bind(&mut self, net: &str, mac: MacAddr) -> (r: Result<Ipv4Addr, RpcError>)
        ensures
            bind_effect(old(self)@, net@, mac, final(self)@, r),
    {
        match self.networks.remove(net) {
            None => {
                assert(self@ =~= old(self)@);
                Err(RpcError::NotFound)
            },
            Some(e) => {
                let mut entry: NetworkEntry = e;
                let r = entry.ipam.allocate(mac);
                let _ = self.networks.insert(net.to_owned(), entry);
                let ghost v = old(self)@;
                let ghost b = v.networks[net@].ipam;
                assert(self@ =~= v.with_bindings(net@, entry.ipam@));
                match r {
                    Ok(ip) => {
                        proof {
                            if b.bindings.contains_key(mac) {
                                assert(self@ =~= v);
                            } else {
                                assert(!b.bound(ip));
                            }
                        }
                        Ok(ip)
                    },
                    Err(e) => {
                        assert(self@ =~= v);
                        Err(ipam_err(e))
                    },
                }
            },
        }
    }

    /// Deletes a port.
    pub fn delete_port(&mut self, params: &Value) -> (r: Plan)
        ensures
            delete_port_effect(old(self)@, params@, final(self)@, r@),
    {
        broadcast use json::lemma_value_view;

        let name = match str_param(params, "name") {
            Ok(name) => name,
            Err(e) => {
                return Plan::fail(e);
            },
        };
        let port = match self.ports.remove(name) {
            Some(port) => port,
            None => {
                assert(self@ =~= old(self)@);
                return Plan::fail(RpcError::NotFound);
            },
        };
        assert(self@ =~= dataplane::DataView {
            ports: old(self)@.ports.remove(name@),
            ..old(self)@
        });
        if let (Some(network), Some(mac)) = (&port.network, port.mac) {
            let _ = self.release(network.as_str(), mac);
        }
        let _ = self.switch.remove_port(PortId(port.id));
        let _ = self.gateway.remove_port(PortId(port.id));
        let _ = self.names.remove(&port.id);
        self.publish_table.remove_port(name);
        assert(self@ =~= without_port(old(self)@, name@));
        let mut plan = Plan::just(Value::Null);
        plan.add_step(Step::Persist);
        plan.add_step(Step::StopPasst { port: name.to_owned() });
        plan.add_step(Step::RemoveSocket { port: name.to_owned() });
        assert(plan@.steps =~= seq![
            dataplane::StepView::Persist,
            dataplane::StepView::StopPasst { port: name@ },
            dataplane::StepView::RemoveSocket { port: name@ },
        ]);
        plan
    }

    /// Shows a port.
    pub fn get_port(&self, params: &Value) -> (r: Plan)
        ensures
            r@ == port_shown(self@, params@),
    {
        broadcast use json::lemma_value_view;

        let name = match str_param(params, "name") {
            Ok(name) => name,
            Err(e) => {
                return Plan::fail(e);
            },
        };
        match self.ports.get(name) {
            Some(p) => {
                let mac = match p.mac {
                    Some(mac) => Some(mac.to_string()),
                    None => None,
                };
                let ip = match self.address_of(p) {
                    Some(ip) => Some(ip.to_string()),
                    None => None,
                };
                let mut m = Value::no_members();
                Value::put(&mut m, "name", Value::String(name.to_owned()));
                Value::put(&mut m, "network", memory::optional_value(p.network.clone()));
                Value::put(&mut m, "mac", memory::optional_value(mac));
                Value::put(&mut m, "ip", memory::optional_value(ip));
                Plan::just(Value::object(m))
            },
            None => Plan::fail(RpcError::NotFound),
        }
    }

    /// Attaches a port to a network.
    pub fn attach_port(&mut self, params: &Value) -> (r: Plan)
        ensures
            attach_port_effect(old(self)@, params@, final(self)@, r@),
    {
        broadcast use json::lemma_value_view;

        let (port_name, net_name, mac) = match (
            str_param(params, "port"),
            str_param(params, "network"),
            mac_param(params, "mac"),
        ) {
            (Ok(port), Ok(net), Ok(mac)) => (port, net, mac),
            _ => {
                return Plan::fail(RpcError::InvalidParams);
            },
        };
        match self.ports.get(port_name) {
            None => {
                return Plan::fail(RpcError::NotFound);
            },
            Some(port) => {
                if let Some(n) = &port.network {
                    return if text::same_text(n.as_str(), net_name) && port.mac == Some(mac) {
                        Plan::just(Value::Null)
                    } else {
                        Plan::fail(RpcError::Conflict)
                    };
                }
            },
        }
        let bound = self.bind(net_name, mac);
        let ghost u = self@;
        assert(params::text_param(params@, "network"@)->0 == net_name@);
        assert(params::mac_param_in(params@, "mac"@)->0 == mac);
        assert(bind_effect(old(self)@, net_name@, mac, u, bound));
        let ip = match bound {
            Ok(ip) => ip,
            Err(e) => {
                return Plan::fail(e);
            },
        };
        match self.ports.remove(port_name) {
            None => {
                return Plan::fail(RpcError::NotFound);
            },
            Some(p) => {
                let mut port: LivePort = p;
                port.network = Some(net_name.to_owned());
                port.mac = Some(mac);
                self.switch.add_port(PortId(port.id), net_name);
                self.gateway.add_port(PortId(port.id), net_name);
                let _ = self.ports.insert(port_name.to_owned(), port);
            },
        }
        assert(self@ =~= with_attachment(u, port_name@, net_name@, mac));
        let mut plan = Plan::just(Value::Null);
        plan.add_step(Step::PinMac { port: port_name.to_owned(), mac });
        plan.add_step(
            Step::EnsurePasst {
                port: port_name.to_owned(),
                vm_ip: ip.to_string(),
                published: Vec::new(),
            },
        );
        plan.add_step(Step::Persist);
        assert(plan@ =~= attach_plan(port_name@, mac, ip));
        plan
    }

    /// Detaches a port; its socket stays.
    pub fn detach_port(&mut self, params: &Value) -> (r: Plan)
        ensures
            detach_port_effect(old(self)@, params@, final(self)@, r@),
    {
        broadcast use json::lemma_value_view;

        let name = match str_param(params, "name") {
            Ok(name) => name,
            Err(e) => {
                return Plan::fail(e);
            },
        };
        let port = match self.ports.remove(name) {
            Some(port) => port,
            None => {
                assert(self@ =~= old(self)@);
                return Plan::fail(RpcError::NotFound);
            },
        };
        let _ = self.ports.insert(
            name.to_owned(),
            LivePort { id: port.id, network: None, mac: None },
        );
        let _ = self.gateway.remove_port(PortId(port.id));
        let _ = self.switch.remove_port(PortId(port.id));
        assert(self@ =~= without_attachment(old(self)@, name@));
        let outcome = match (&port.network, port.mac) {
            (Some(network), Some(mac)) => self.release(network.as_str(), mac),
            _ => Ok(()),
        };
        self.publish_table.remove_port(name);
        let mut plan = match outcome {
            Ok(_) => Plan::just(Value::Null),
            Err(e) => Plan::fail(e),
        };
        plan.add_step(Step::Persist);
        plan.add_step(Step::StopPasst { port: name.to_owned() });
        assert(plan@.steps =~= seq![
            dataplane::StepView::Persist,
            dataplane::StepView::StopPasst { port: name@ },
        ]);
        plan
    }

    /// Binds a MAC address to an address.
    pub fn allocate_ip(&mut self, params: &Value) -> (r: Plan)
        ensures
            allocate_ip_effect(old(self)@, params@, final(self)@, r@),
    {
        broadcast use json::lemma_value_view;

        let (net, mac) = match (str_param(params, "network"), mac_param(params, "mac")) {
            (Ok(net), Ok(mac)) => (net, mac),
            _ => {
                return Plan::fail(RpcError::InvalidParams);
            },
        };
        let ip = self.bind(net, mac);
        assert(params::text_param(params@, "network"@)->0 == net@);
        assert(params::mac_param_in(params@, "mac"@)->0 == mac);
        assert(bind_effect(old(self)@, net@, mac, self@, ip));
        match ip {
            Ok(ip) => {
                let mut plan = Plan::just(Value::String(ip.to_string()));
                plan.add_step(Step::Persist);
                assert(plan@.steps =~= seq![dataplane::StepView::Persist]);
                plan
            },
            Err(e) => Plan::fail(e),
        }
    }

    /// Frees the address of a MAC address.
    pub fn release_ip(&mut self, params: &Value) -> (r: Plan)
        ensures
            release_ip_effect(old(self)@, params@, final(self)@, r@),
    {
        broadcast use json::lemma_value_view;

        let (net, mac) = match (str_param(params, "network"), mac_param(params, "mac")) {
            (Ok(net), Ok(mac)) => (net, mac),
            _ => {
                return Plan::fail(RpcError::InvalidParams);
            },
        };
        match self.release(net, mac) {
            Ok(_) => {
                let mut plan = Plan::just(Value::Null);
                plan.add_step(Step::Persist);
                assert(plan@.steps =~= seq![dataplane::StepView::Persist]);
                plan
            },
            Err(e) => Plan::fail(e),
        }
    }

    /// The address that is bound to the MAC of the port, or why there is none.
    fn reserved(&self, port: &str) -> (r: Result<Ipv4Addr, RpcError>)
        ensures
            r == self@.reserved(port@),
    {
        let p = match self.ports.get(port) {
            Some(p) => p,
            None => {
                return Err(RpcError::NotFound);
            },
        };
        let net = match &p.network {
            Some(net) => net,
            None => {
                return Err(RpcError::NotFound);
            },
        };
        let mac = match p.mac {
            Some(mac) => mac,
            None => {
                return Err(RpcError::Internal);
            },
        };
        match self.networks.get(net.as_str()) {
            Some(entry) => match entry.ipam.lookup(mac) {
                Some(ip) => Ok(ip),
                None => Err(RpcError::NotFound),
            },
            None => Err(RpcError::NotFound),
        }
    }

    /// What has to be done after a change to what is published for the port.
    fn forwards_plan(&self, port: &str, published: Vec<(u16, u16)>, reply: Value) -> (r: Plan)
        requires
            model::forwards_of(self@.published, port@, published@),
        ensures
            forwards_changed(self@, port@, reply@, r@),
    {
        match self.reserved(port) {
            Err(e) => {
                let mut plan = Plan::fail(e);
                plan.add_step(Step::Persist);
                assert(plan@.steps =~= seq![dataplane::StepView::Persist]);
                plan
            },
            Ok(ip) => {
                let mut plan = Plan::just(reply);
                plan.add_step(Step::Persist);
                plan.add_step(
                    Step::EnsurePasst {
                        port: port.to_owned(),
                        vm_ip: ip.to_string(),
                        published,
                    },
                );
                assert(plan@.steps =~= seq![
                    dataplane::StepView::Persist,
                    dataplane::StepView::EnsurePasst {
                        port: port@,
                        vm_ip: ip.text(),
                        published: published@,
                    },
                ]);
                plan
            },
        }
    }

    /// Publishes a port of a VM.
    pub fn publish_port(&mut self, params: &Value) -> (r: Plan)
        ensures
            publish_port_effect(old(self)@, params@, final(self)@, r@),
    {
        broadcast use json::lemma_value_view;

        let (port_name, vm_port) = match (str_param(params, "port"), u16_param(params, "vm_port")) {
            (Ok(port), Ok(vm_port)) => (port, vm_port),
            _ => {
                return Plan::fail(RpcError::InvalidParams);
            },
        };
        let attached = match self.ports.get(port_name) {
            Some(port) => port.network.is_some(),
            None => false,
        };
        if !attached {
            return Plan::fail(RpcError::NotFound);
        }
        let host_port = match self.publish_table.get(port_name, vm_port) {
            Some(host) => host,
            None => match self.publish_table.allocate(port_name, vm_port, self.publish_range) {
                Some(host) => host,
                None => {
                    return Plan::fail(RpcError::Conflict);
                },
            },
        };
        let mut m = Value::no_members();
        Value::put(&mut m, "host_port", Value::Number(Number::PosInt(host_port as u64)));
        let published = self.publish_table.forwards(port_name);
        self.forwards_plan(port_name, published, Value::object(m))
    }

    /// Withdraws a port of a VM.
    pub fn unpublish_port(&mut self, params: &Value) -> (r: Plan)
        ensures
            unpublish_port_effect(old(self)@, params@, final(self)@, r@),
    {
        broadcast use json::lemma_value_view;

        let (port_name, vm_port) = match (str_param(params, "port"), u16_param(params, "vm_port")) {
            (Ok(port), Ok(vm_port)) => (port, vm_port),
            _ => {
                return Plan::fail(RpcError::InvalidParams);
            },
        };
        if self.publish_table.remove(port_name, vm_port).is_none() {
            assert(self@ =~= old(self)@);
            return Plan::fail(RpcError::NotFound);
        }
        let published = self.publish_table.forwards(port_name);
        let left = published.len() > 0;
        assert(left ==> self@.published.contains_key((port_name@, published@[0].0)));
        if left || self.reserved(port_name).is_ok() {
            return self.forwards_plan(port_name, published, Value::Null);
        }
        let mut plan = Plan::just(Value::Null);
        plan.add_step(Step::Persist);
        plan.add_step(Step::StopPasst { port: port_name.to_owned() });
        assert(plan@.steps =~= seq![
            dataplane::StepView::Persist,
            dataplane::StepView::StopPasst { port: port_name@ },
        ]);
        plan
    }
}

} // verus!
