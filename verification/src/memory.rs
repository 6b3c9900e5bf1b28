//! The control plane that keeps everything in memory.

use vstd::prelude::*;

use crate::ipam;
use crate::ipam::{Ipam, IpamError};
use crate::json;
use crate::json::{Number, Value};
use crate::model;
use crate::model::{Ipv4Addr, MacAddr, Network, Port, PublishTable};
use crate::names::NameMap;
use crate::params;
use crate::params::{mac_param, network_param, str_param, u16_param};
use crate::protocol::RpcError;
use crate::server;
use crate::server::{ControlPlane, DEFAULT_PUBLISH_RANGE};
use crate::state::StateStore;
use crate::text;

verus! {

/// A network with its bindings and the parameters that it was created with.
#[derive(Debug)]
pub struct NetworkEntry {
    pub ipam: Ipam,
    pub created_with: Value,
}

/// What a [`NetworkEntry`] holds.
#[verifier::ext_equal]
pub struct NetworkRecord {
    pub ipam: ipam::IpamView,
    pub created_with: json::Json,
}

impl View for NetworkEntry {
    type V = NetworkRecord;

    open spec fn view(&self) -> NetworkRecord {
        NetworkRecord { ipam: self.ipam@, created_with: self.created_with@ }
    }
}

/// The contents of networks, by name.
pub open spec fn network_records(m: Map<Seq<char>, NetworkEntry>) -> Map<Seq<char>, NetworkRecord> {
    m.map_values(|e: NetworkEntry| e@)
}

/// The contents of ports, by name.
pub open spec fn port_records(m: Map<Seq<char>, Port>) -> Map<Seq<char>, model::PortView> {
    m.map_values(|p: Port| p@)
}

/// The control plane that keeps everything in memory.
#[derive(Debug)]
pub struct MemoryControlPlane {
    networks: NameMap<NetworkEntry>,
    ports: NameMap<Port>,
    publish_range: (u16, u16),
    publish_table: PublishTable,
}

/// What a [`MemoryControlPlane`] holds: its networks and ports by name, the
/// host ports that may be published, both ends included, and what is published.
#[verifier::ext_equal]
pub struct PlaneView {
    pub networks: Map<Seq<char>, NetworkRecord>,
    pub ports: Map<Seq<char>, model::PortView>,
    pub range: (u16, u16),
    pub published: model::Published,
}

impl View for MemoryControlPlane {
    type V = PlaneView;

    closed spec fn view(&self) -> PlaneView {
        PlaneView {
            networks: network_records(self.networks@),
            ports: port_records(self.ports@),
            range: self.publish_range,
            published: self.publish_table@,
        }
    }
}

impl PlaneView {
    /// The plane without networks and ports.
    pub open spec fn initial(range: (u16, u16), published: model::Published) -> PlaneView {
        PlaneView { networks: Map::empty(), ports: Map::empty(), range, published }
    }

    /// The plane with the record `e` for the network `name`.
    pub open spec fn with_network(self, name: Seq<char>, e: NetworkRecord) -> PlaneView {
        PlaneView { networks: self.networks.insert(name, e), ..self }
    }

    /// The plane with the bindings `b` for the network `name`.
    pub open spec fn with_bindings(self, name: Seq<char>, b: ipam::IpamView) -> PlaneView {
        self.with_network(
            name,
            NetworkRecord { ipam: b, created_with: self.networks[name].created_with },
        )
    }

    /// The plane with `p` for the port `name`.
    pub open spec fn with_port(self, name: Seq<char>, p: model::PortView) -> PlaneView {
        PlaneView { ports: self.ports.insert(name, p), ..self }
    }

    /// The plane with nothing published for the port `name`.
    pub open spec fn without_forwards(self, name: Seq<char>) -> PlaneView {
        PlaneView { published: model::without_port(self.published, name), ..self }
    }

    /// Whether every network and port is kept under its name, the networks
    /// and their bindings are valid, and no host port is published twice.
    pub open spec fn sound(self) -> bool {
        &&& forall|n: Seq<char>| #[trigger]
            self.networks.contains_key(n) ==> {
                &&& self.networks[n].ipam.network.name@ == n
                &&& self.networks[n].ipam.network.wf()
                &&& self.networks[n].ipam.sound()
            }
        &&& forall|n: Seq<char>| #[trigger]
            self.ports.contains_key(n) ==> {
                &&& self.ports[n].name == n
                &&& !text::blank(n)
            }
        &&& model::hosts_distinct(self.published)
    }
}

// -- what the operations do ---------------------------------------------------

/// Nothing changes, and the outcome is the error `e`.
pub open spec fn refused(v: PlaneView, w: PlaneView, r: server::Outcome, e: RpcError) -> bool {
    r == Err::<json::Json, RpcError>(e) && w == v
}

/// The outcome is null.
pub open spec fn done(r: server::Outcome) -> bool {
    r == Ok::<json::Json, RpcError>(json::Json::Null)
}

/// The path of the socket of the port `name`.
pub open spec fn socket_path(name: Seq<char>) -> Seq<char> {
    "/run/user/1000/k8snet/"@ + name + ".sock"@
}

/// A network is created from the parameters. Where a network of that name is
/// there, nothing changes: the parameters it was created with are accepted
/// again, others are in conflict.
pub open spec fn create_network_effect(
    v: PlaneView,
    p: json::Json,
    w: PlaneView,
    r: server::Outcome,
) -> bool {
    let name = params::text_param(p, "name"@)->0;
    if !params::has_network_params(p) {
        refused(v, w, r, RpcError::InvalidParams)
    } else if v.networks.contains_key(name) {
        if v.networks[name].created_with == p {
            done(r) && w == v
        } else {
            refused(v, w, r, RpcError::Conflict)
        }
    } else if !params::describes_network(p) {
        refused(v, w, r, RpcError::InvalidParams)
    } else {
        &&& done(r)
        &&& exists|n: Network| #[trigger]
            params::describes(p, n) && w == v.with_network(name, fresh_network(n, p))
    }
}

/// The record of the network `n`, created with the parameters `p`, before
/// anything is bound in it.
pub open spec fn fresh_network(n: Network, p: json::Json) -> NetworkRecord {
    NetworkRecord {
        ipam: ipam::IpamView { network: n, bindings: Map::empty() },
        created_with: p,
    }
}

/// The network is forgotten.
pub open spec fn delete_network_effect(
    v: PlaneView,
    p: json::Json,
    w: PlaneView,
    r: server::Outcome,
) -> bool {
    match params::text_param(p, "name"@) {
        None => refused(v, w, r, RpcError::InvalidParams),
        Some(name) => if v.networks.contains_key(name) {
            done(r) && w == (PlaneView { networks: v.networks.remove(name), ..v })
        } else {
            refused(v, w, r, RpcError::NotFound)
        },
    }
}

/// The name, the addresses and the gateway of a network, as JSON.
pub open spec fn network_json(name: Seq<char>, n: Network) -> json::Json {
    json::Json::Object(
        Map::<Seq<char>, json::Json>::empty().insert("name"@, json::Json::String(name)).insert(
            "cidr"@,
            json::Json::String(n.cidr@.text()),
        ).insert("gateway"@, json::Json::String(n.gateway.text())),
    )
}

/// The network is shown.
pub open spec fn get_network_effect(
    v: PlaneView,
    p: json::Json,
    w: PlaneView,
    r: server::Outcome,
) -> bool {
    match params::text_param(p, "name"@) {
        None => refused(v, w, r, RpcError::InvalidParams),
        Some(name) => if v.networks.contains_key(name) {
            let n = v.networks[name].ipam.network;
            r == Ok::<json::Json, RpcError>(network_json(n.name@, n)) && w == v
        } else {
            refused(v, w, r, RpcError::NotFound)
        },
    }
}

/// The port `name`, attached to nothing.
pub open spec fn fresh_port(name: Seq<char>) -> model::PortView {
    model::PortView { name, socket_path: socket_path(name), network: None, mac: None, ip: None }
}

/// A port is created, attached to nothing; one that is there stays as it is.
pub open spec fn create_port_effect(
    v: PlaneView,
    p: json::Json,
    w: PlaneView,
    r: server::Outcome,
) -> bool {
    match params::text_param(p, "name"@) {
        None => refused(v, w, r, RpcError::InvalidParams),
        Some(name) => if v.ports.contains_key(name) {
            done(r) && w == v
        } else if text::blank(name) {
            refused(v, w, r, RpcError::InvalidParams)
        } else {
            done(r) && w == v.with_port(name, fresh_port(name))
        },
    }
}

/// The port is forgotten. What is published under its name is withdrawn,
/// whether there is such a port or not.
pub open spec fn delete_port_effect(
    v: PlaneView,
    p: json::Json,
    w: PlaneView,
    r: server::Outcome,
) -> bool {
    match params::text_param(p, "name"@) {
        None => refused(v, w, r, RpcError::InvalidParams),
        Some(name) => {
            &&& w == (PlaneView { ports: v.ports.remove(name), ..v.without_forwards(name) })
            &&& r == (if v.ports.contains_key(name) {
                Ok::<json::Json, RpcError>(json::Json::Null)
            } else {
                Err(RpcError::NotFound)
            })
        },
    }
}

/// An optional text as JSON: null where there is none.
pub open spec fn optional_json(s: Option<Seq<char>>) -> json::Json {
    match s {
        Some(t) => json::Json::String(t),
        None => json::Json::Null,
    }
}

/// A port and what it is attached to, as JSON.
pub open spec fn port_json(p: model::PortView) -> json::Json {
    json::Json::Object(
        Map::<Seq<char>, json::Json>::empty().insert("name"@, json::Json::String(p.name)).insert(
            "network"@,
            optional_json(p.network),
        ).insert(
            "mac"@,
            match p.mac {
                Some(m) => json::Json::String(m.text()),
                None => json::Json::Null,
            },
        ).insert(
            "ip"@,
            match p.ip {
                Some(ip) => json::Json::String(ip.text()),
                None => json::Json::Null,
            },
        ),
    )
}

/// The port is shown.
pub open spec fn get_port_effect(
    v: PlaneView,
    p: json::Json,
    w: PlaneView,
    r: server::Outcome,
) -> bool {
    match params::text_param(p, "name"@) {
        None => refused(v, w, r, RpcError::InvalidParams),
        Some(name) => if v.ports.contains_key(name) {
            r == Ok::<json::Json, RpcError>(port_json(v.ports[name])) && w == v
        } else {
            refused(v, w, r, RpcError::NotFound)
        },
    }
}

/// In the network `net`, `mac` gets the address it is bound to; where it is
/// bound to none, the lowest free one of the pool, which is then bound to it.
/// Where there is no such network, it is not found; where the pool is
/// exhausted, that is a conflict.
pub open spec fn bind_effect(
    v: PlaneView,
    net: Seq<char>,
    mac: MacAddr,
    w: PlaneView,
    r: Result<Ipv4Addr, RpcError>,
) -> bool {
    let b = v.networks[net].ipam;
    if !v.networks.contains_key(net) {
        r == Err::<Ipv4Addr, RpcError>(RpcError::NotFound) && w == v
    } else if b.bindings.contains_key(mac) {
        r == Ok::<Ipv4Addr, RpcError>(b.bindings[mac]) && w == v
    } else if b.exhausted() {
        r == Err::<Ipv4Addr, RpcError>(RpcError::Conflict) && w == v
    } else {
        &&& r is Ok
        &&& b.lowest_free(r->Ok_0)
        &&& w == v.with_bindings(net, b.bind(mac, r->Ok_0))
    }
}

/// The port is attached to the network, and its MAC bound to an address there.
///
/// The address is bound first. Then a port that is so attached stays as it is;
/// one that is attached otherwise is in conflict, and keeps its attachment.
pub open spec fn attach_port_effect(
    v: PlaneView,
    p: json::Json,
    w: PlaneView,
    r: server::Outcome,
) -> bool {
    let port = params::text_param(p, "port"@);
    let net = params::text_param(p, "network"@);
    let mac = params::mac_param_in(p, "mac"@);
    if port is None || net is None || mac is None {
        refused(v, w, r, RpcError::InvalidParams)
    } else if !v.ports.contains_key(port->0) {
        refused(v, w, r, RpcError::NotFound)
    } else {
        exists|u: PlaneView, ip: Result<Ipv4Addr, RpcError>| #[trigger]
            bind_effect(v, net->0, mac->0, u, ip) && attached(
                u,
                port->0,
                net->0,
                mac->0,
                ip,
                w,
                r,
            )
    }
}

/// The second half of attaching a port: `ip` is what binding its MAC gave.
pub open spec fn attached(
    u: PlaneView,
    port: Seq<char>,
    net: Seq<char>,
    mac: MacAddr,
    ip: Result<Ipv4Addr, RpcError>,
    w: PlaneView,
    r: server::Outcome,
) -> bool {
    let q = u.ports[port];
    match ip {
        Err(e) => refused(u, w, r, e),
        Ok(ip) => if q.network == Some(net) && q.mac == Some(mac) {
            done(r) && w == u
        } else if q.network is Some {
            refused(u, w, r, RpcError::Conflict)
        } else {
            &&& done(r)
            &&& w == u.with_port(
                port,
                model::PortView { network: Some(net), mac: Some(mac), ip: Some(ip), ..q },
            )
        },
    }
}

/// The port is detached, and what is published for it is withdrawn.
pub open spec fn detach_port_effect(
    v: PlaneView,
    p: json::Json,
    w: PlaneView,
    r: server::Outcome,
) -> bool {
    match params::text_param(p, "name"@) {
        None => refused(v, w, r, RpcError::InvalidParams),
        Some(name) => if v.ports.contains_key(name) {
            &&& done(r)
            &&& w == v.without_forwards(name).with_port(
                name,
                model::PortView { network: None, mac: None, ip: None, ..v.ports[name] },
            )
        } else {
            refused(v, w, r, RpcError::NotFound)
        },
    }
}

/// The MAC is bound to an address in the network, which is the outcome.
pub open spec fn allocate_ip_effect(
    v: PlaneView,
    p: json::Json,
    w: PlaneView,
    r: server::Outcome,
) -> bool {
    let net = params::text_param(p, "network"@);
    let mac = params::mac_param_in(p, "mac"@);
    if net is None || mac is None {
        refused(v, w, r, RpcError::InvalidParams)
    } else {
        exists|ip: Result<Ipv4Addr, RpcError>| #[trigger]
            bind_effect(v, net->0, mac->0, w, ip) && r == address_outcome(ip)
    }
}

/// An address as the outcome of an operation.
pub open spec fn address_outcome(ip: Result<Ipv4Addr, RpcError>) -> server::Outcome {
    match ip {
        Ok(ip) => Ok(json::Json::String(ip.text())),
        Err(e) => Err(e),
    }
}

/// The address of the MAC is freed in the network.
pub open spec fn release_ip_effect(
    v: PlaneView,
    p: json::Json,
    w: PlaneView,
    r: server::Outcome,
) -> bool {
    let net = params::text_param(p, "network"@);
    let mac = params::mac_param_in(p, "mac"@);
    if net is None || mac is None {
        refused(v, w, r, RpcError::InvalidParams)
    } else if !v.networks.contains_key(net->0) || !v.networks[net->0].ipam.bindings.contains_key(
        mac->0,
    ) {
        refused(v, w, r, RpcError::NotFound)
    } else {
        done(r) && w == v.with_bindings(net->0, v.networks[net->0].ipam.unbind(mac->0))
    }
}

/// A host port as JSON.
pub open spec fn host_json(host: u16) -> json::Json {
    json::Json::Object(
        Map::<Seq<char>, json::Json>::empty().insert(
            "host_port"@,
            json::Json::Number(Number::PosInt(host as u64)),
        ),
    )
}

/// A port of an attached VM is published on the host port that it has; where
/// it has none, on the lowest free one. Where none is free, that is a conflict
/// and nothing changes.
pub open spec fn publish_port_effect(
    v: PlaneView,
    p: json::Json,
    w: PlaneView,
    r: server::Outcome,
) -> bool {
    let port = params::text_param(p, "port"@);
    let vm_port = params::number_param(p, "vm_port"@);
    if port is None || vm_port is None {
        refused(v, w, r, RpcError::InvalidParams)
    } else if !v.ports.contains_key(port->0) || v.ports[port->0].network is None {
        refused(v, w, r, RpcError::NotFound)
    } else if v.published.contains_key((port->0, vm_port->0)) {
        r == Ok::<json::Json, RpcError>(host_json(v.published[(port->0, vm_port->0)])) && w == v
    } else if model::hosts_exhausted(v.published, v.range) {
        refused(v, w, r, RpcError::Conflict)
    } else {
        exists|h: u16|
            {
                &&& #[trigger] model::lowest_free_host(v.published, v.range, h)
                &&& r == Ok::<json::Json, RpcError>(host_json(h))
                &&& w == (PlaneView {
                    published: v.published.insert((port->0, vm_port->0), h),
                    ..v
                })
            }
    }
}

/// A port is withdrawn.
pub open spec fn unpublish_port_effect(
    v: PlaneView,
    p: json::Json,
    w: PlaneView,
    r: server::Outcome,
) -> bool {
    let port = params::text_param(p, "port"@);
    let vm_port = params::number_param(p, "vm_port"@);
    if port is None || vm_port is None {
        refused(v, w, r, RpcError::InvalidParams)
    } else if v.published.contains_key((port->0, vm_port->0)) {
        done(r) && w == (PlaneView { published: v.published.remove((port->0, vm_port->0)), ..v })
    } else {
        refused(v, w, r, RpcError::NotFound)
    }
}

/// What the operation `op` does.
pub open spec fn plane_effect(
    v: PlaneView,
    op: server::Operation,
    p: json::Json,
    w: PlaneView,
    r: server::Outcome,
) -> bool {
    match op {
        server::Operation::CreateNetwork => create_network_effect(v, p, w, r),
        server::Operation::DeleteNetwork => delete_network_effect(v, p, w, r),
        server::Operation::GetNetwork => get_network_effect(v, p, w, r),
        server::Operation::CreatePort => create_port_effect(v, p, w, r),
        server::Operation::DeletePort => delete_port_effect(v, p, w, r),
        server::Operation::GetPort => get_port_effect(v, p, w, r),
        server::Operation::AttachPort => attach_port_effect(v, p, w, r),
        server::Operation::DetachPort => detach_port_effect(v, p, w, r),
        server::Operation::AllocateIp => allocate_ip_effect(v, p, w, r),
        server::Operation::ReleaseIp => release_ip_effect(v, p, w, r),
        server::Operation::PublishPort => publish_port_effect(v, p, w, r),
        server::Operation::UnpublishPort => unpublish_port_effect(v, p, w, r),
    }
}

// -- the operations -----------------------------------------------------------

/// The error that a failed binding is answered with.
pub fn ipam_error(e: IpamError) -> (r: RpcError)
    ensures
        r == (match e {
            IpamError::PoolExhausted => RpcError::Conflict,
            IpamError::UnknownMac => RpcError::Internal,
        }),
{
    match e {
        IpamError::PoolExhausted => RpcError::Conflict,
        IpamError::UnknownMac => RpcError::Internal,
    }
}

/// A port's path: its name between the socket directory and the suffix.
fn socket_path_of(name: &str) -> (r: String)
    ensures
        r@ == socket_path(name@),
{
    let mut r = "/run/user/1000/k8snet/".to_owned();
    r.append(name);
    r.append(".sock");
    r
}

/// An optional text as JSON.
pub fn optional_value(s: Option<String>) -> (r: Value)
    ensures
        r@ == optional_json(
            match s {
                Some(t) => Some(t@),
                None => None,
            },
        ),
{
    broadcast use json::lemma_value_view;

    match s {
        Some(t) => Value::String(t),
        None => Value::Null,
    }
}

impl Default for MemoryControlPlane {
    fn default() -> (r: Self)
        ensures
            r@ == PlaneView::initial(DEFAULT_PUBLISH_RANGE, model::Published::empty()),
    {
        let r = MemoryControlPlane {
            networks: NameMap::new(),
            ports: NameMap::new(),
            publish_range: DEFAULT_PUBLISH_RANGE,
            publish_table: PublishTable::default(),
        };
        assert(r@ =~= PlaneView::initial(DEFAULT_PUBLISH_RANGE, model::Published::empty()));
        r
    }
}

impl MemoryControlPlane {
    /// A control plane with nothing in it.
    pub fn new() -> (r: Self)
        ensures
            r@ == PlaneView::initial(DEFAULT_PUBLISH_RANGE, model::Published::empty()),
    {
        MemoryControlPlane::default()
    }

    /// A control plane that publishes the host ports from `start` to `end`.
    pub fn with_publish_range(start: u16, end: u16) -> (r: Self)
        ensures
            r@ == PlaneView::initial((start, end), model::Published::empty()),
    {
        let mut r = MemoryControlPlane::default();
        r.publish_range = (start, end);
        r
    }

    /// A control plane with what was published when `store` was kept, so that
    /// it is published on the same host ports again.
    pub fn from_store(store: StateStore) -> (r: Self)
        ensures
            r@ == PlaneView::initial(DEFAULT_PUBLISH_RANGE, store@.published),
    {
        let mut r = MemoryControlPlane::default();
        r.publish_table = store.publish_table;
        r
    }

    /// Binds `mac` to an address in the network `net`.
    fn bind(&mut self, net: &str, mac: MacAddr) -> (r: Result<Ipv4Addr, RpcError>)
        ensures
            bind_effect(old(self)@, net@, mac, final(self)@, r),
    {
        match self.networks.remove(net) {
            None => {
                assert(self@ =~= old(self)@);
                Err(RpcError::NotFound)
            },
            Some(e) => {
                let mut entry: NetworkEntry = e;
                let r = entry.ipam.allocate(mac);
                let _ = self.networks.insert(net.to_owned(), entry);
                let ghost v = old(self)@;
                let ghost b = v.networks[net@].ipam;
                assert(self@ =~= v.with_bindings(net@, entry.ipam@));
                match r {
                    Ok(ip) => {
                        proof {
                            if b.bindings.contains_key(mac) {
                                assert(self@ =~= v);
                            } else {
                                assert(!b.exhausted()) by {
                                    assert(!b.bound(ip));
                                }
                            }
                        }
                        Ok(ip)
                    },
                    Err(e) => {
                        assert(self@ =~= v);
                        Err(ipam_error(e))
                    },
                }
            },
        }
    }
}

impl ControlPlane for MemoryControlPlane {
    open spec fn effect(
        before: Self,
        op: server::Operation,
        p: json::Json,
        after: Self,
        r: server::Outcome,
    ) -> bool {
        plane_effect(before@, op, p, after@, r)
    }

    fn create_network(&mut self, params: &Value) -> (r: Result<Value, RpcError>) {
        broadcast use json::lemma_value_view;

        let name = str_param(params, "name")?;
        let _ = str_param(params, "cidr")?;
        let _ = str_param(params, "gateway")?;
        let _ = str_param(params, "poolStart")?;
        let _ = str_param(params, "poolEnd")?;
        if let Some(entry) = self.networks.get(name) {
            return if entry.created_with.same(params) {
                Ok(Value::Null)
            } else {
                Err(RpcError::Conflict)
            };
        }
        let network = network_param(params)?;
        let entry = NetworkEntry { ipam: Ipam::new(network), created_with: params.clone() };
        let _ = self.networks.insert(name.to_owned(), entry);
        assert(self@ =~= old(self)@.with_network(name@, fresh_network(network, params@)));
        Ok(Value::Null)
    }

    fn delete_network(&mut self, params: &Value) -> (r: Result<Value, RpcError>) {
        broadcast use json::lemma_value_view;

        let name = str_param(params, "name")?;
        let gone = self.networks.remove(name);
        assert(self@.networks =~= old(self)@.networks.remove(name@));
        match gone {
            Some(_) => Ok(Value::Null),
            None => {
                assert(self@ =~= old(self)@);
                Err(RpcError::NotFound)
            },
        }
    }

    fn get_network(&mut self, params: &Value) -> (r: Result<Value, RpcError>) {
        broadcast use json::lemma_value_view;

        let name = str_param(params, "name")?;
        match self.networks.get(name) {
            Some(e) => {
                let n = e.ipam.network();
                let mut m = Value::no_members();
                Value::put(&mut m, "name", Value::String(n.name.clone()));
                Value::put(&mut m, "cidr", Value::String(n.cidr.to_string()));
                Value::put(&mut m, "gateway", Value::String(n.gateway.to_string()));
                Ok(Value::object(m))
            },
            None => Err(RpcError::NotFound),
        }
    }

    fn create_port(&mut self, params: &Value) -> (r: Result<Value, RpcError>) {
        broadcast use json::lemma_value_view;

        let name = str_param(params, "name")?;
        if self.ports.contains_key(name) {
            return Ok(Value::Null);
        }
        let path = socket_path_of(name);
        match Port::new(name, path.as_str()) {
            Ok(port) => {
                let _ = self.ports.insert(name.to_owned(), port);
                assert(self@ =~= old(self)@.with_port(name@, fresh_port(name@)));
                Ok(Value::Null)
            },
            Err(_) => Err(RpcError::InvalidParams),
        }
    }

    fn delete_port(&mut self, params: &Value) -> (r: Result<Value, RpcError>) {
        broadcast use json::lemma_value_view;

        let name = str_param(params, "name")?;
        self.publish_table.remove_port(name);
        let gone = self.ports.remove(name);
        assert(self@.ports =~= old(self)@.ports.remove(name@));
        match gone {
            Some(_) => Ok(Value::Null),
            None => Err(RpcError::NotFound),
        }
    }

    fn get_port(&mut self, params: &Value) -> (r: Result<Value, RpcError>) {
        broadcast use json::lemma_value_view;

        let name = str_param(params, "name")?;
        match self.ports.get(name) {
            Some(p) => {
                let mac = match p.mac {
                    Some(mac) => Some(mac.to_string()),
                    None => None,
                };
                let ip = match p.ip {
                    Some(ip) => Some(ip.to_string()),
                    None => None,
                };
                let mut m = Value::no_members();
                Value::put(&mut m, "name", Value::String(p.name.clone()));
                Value::put(&mut m, "network", optional_value(p.network.clone()));
                Value::put(&mut m, "mac", optional_value(mac));
                Value::put(&mut m, "ip", optional_value(ip));
                Ok(Value::object(m))
            },
            None => Err(RpcError::NotFound),
        }
    }

    fn attach_port(&mut self, params: &Value) -> (r: Result<Value, RpcError>) {
        broadcast use json::lemma_value_view;

        let port_name = str_param(params, "port")?;
        let net_name = str_param(params, "network")?;
        let mac = mac_param(params, "mac")?;
        if !self.ports.contains_key(port_name) {
            return Err(RpcError::NotFound);
        }
        let bound = self.bind(net_name, mac);
        let ghost u = self@;
        assert(params::text_param(params@, "network"@)->0 == net_name@);
        assert(params::mac_param_in(params@, "mac"@)->0 == mac);
        assert(bind_effect(old(self)@, net_name@, mac, u, bound));
        let ip = bound?;
        match self.ports.remove(port_name) {
            None => Err(RpcError::NotFound),
            Some(p) => {
                let mut port: Port = p;
                let same = match &port.network {
                    Some(n) => text::same_text(n.as_str(), net_name) && port.mac == Some(mac),
                    None => false,
                };
                let taken = port.network.is_some();
                if !taken {
                    port.attach(net_name, mac, ip);
                }
                let _ = self.ports.insert(port_name.to_owned(), port);
                assert(self@ =~= u.with_port(port_name@, port@));
                if same {
                    assert(self@ =~= u);
                    Ok(Value::Null)
                } else if taken {
                    assert(self@ =~= u);
                    Err(RpcError::Conflict)
                } else {
                    Ok(Value::Null)
                }
            },
        }
    }

    fn detach_port(&mut self, params: &Value) -> (r: Result<Value, RpcError>) {
        broadcast use json::lemma_value_view;

        let name = str_param(params, "name")?;
        match self.ports.remove(name) {
            None => {
                assert(self@ =~= old(self)@);
                Err(RpcError::NotFound)
            },
            Some(p) => {
                let mut port: Port = p;
                port.detach();
                let _ = self.ports.insert(name.to_owned(), port);
                self.publish_table.remove_port(name);
                assert(self@ =~= old(self)@.without_forwards(name@).with_port(name@, port@));
                Ok(Value::Null)
            },
        }
    }

    fn allocate_ip(&mut self, params: &Value) -> (r: Result<Value, RpcError>) {
        broadcast use json::lemma_value_view;

        let net = str_param(params, "network")?;
        let mac = mac_param(params, "mac")?;
        let ip = self.bind(net, mac);
        assert(params::text_param(params@, "network"@)->0 == net@);
        assert(params::mac_param_in(params@, "mac"@)->0 == mac);
        assert(bind_effect(old(self)@, net@, mac, self@, ip));
        match ip {
            Ok(ip) => Ok(Value::String(ip.to_string())),
            Err(e) => Err(e),
        }
    }

    fn release_ip(&mut self, params: &Value) -> (r: Result<Value, RpcError>) {
        broadcast use json::lemma_value_view;

        let net = str_param(params, "network")?;
        let mac = mac_param(params, "mac")?;
        match self.networks.remove(net) {
            None => {
                assert(self@ =~= old(self)@);
                Err(RpcError::NotFound)
            },
            Some(e) => {
                let mut entry: NetworkEntry = e;
                let r = entry.ipam.release(mac);
                let _ = self.networks.insert(net.to_owned(), entry);
                assert(self@ =~= old(self)@.with_bindings(net@, entry.ipam@));
                match r {
                    Ok(_) => Ok(Value::Null),
                    Err(IpamError::UnknownMac) => {
                        assert(self@ =~= old(self)@);
                        Err(RpcError::NotFound)
                    },
                    Err(other) => Err(ipam_error(other)),
                }
            },
        }
    }

    fn publish_port(&mut self, params: &Value) -> (r: Result<Value, RpcError>) {
        broadcast use json::lemma_value_view;

        let port_name = str_param(params, "port")?;
        let vm_port = u16_param(params, "vm_port")?;
        let attached = match self.ports.get(port_name) {
            Some(port) => port.network.is_some(),
            None => false,
        };
        if !attached {
            return Err(RpcError::NotFound);
        }
        let host_port = match self.publish_table.get(port_name, vm_port) {
            Some(host) => host,
            None => match self.publish_table.allocate(port_name, vm_port, self.publish_range) {
                Some(host) => host,
                None => {
                    return Err(RpcError::Conflict);
                },
            },
        };
        let mut m = Value::no_members();
        Value::put(&mut m, "host_port", Value::Number(Number::PosInt(host_port as u64)));
        Ok(Value::object(m))
    }

    fn unpublish_port(&mut self, params: &Value) -> (r: Result<Value, RpcError>) {
        broadcast use json::lemma_value_view;

        let port_name = str_param(params, "port")?;
        let vm_port = u16_param(params, "vm_port")?;
        match self.publish_table.remove(port_name, vm_port) {
            Some(_) => Ok(Value::Null),
            None => {
                assert(self@ =~= old(self)@);
                Err(RpcError::NotFound)
            },
        }
    }
}

// -- laws ---------------------------------------------------------------------

/// Every operation keeps the plane sound: networks and ports stay under their
/// names and valid, no address is bound twice or outside its pool, and no host
/// port is published twice.
pub proof fn law_operations_keep_the_plane_sound(
    v: PlaneView,
    op: server::Operation,
    p: json::Json,
    w: PlaneView,
    r: server::Outcome,
)
    requires
        v.sound(),
        plane_effect(v, op, p, w, r),
    ensures
        w.sound(),
{
    match op {
        server::Operation::AttachPort => {
            let net = params::text_param(p, "network"@);
            let mac = params::mac_param_in(p, "mac"@);
            if w != v {
                let (u, ip) = choose|u: PlaneView, ip: Result<Ipv4Addr, RpcError>| #[trigger]
                    bind_effect(v, net->0, mac->0, u, ip) && attached(
                        u,
                        params::text_param(p, "port"@)->0,
                        net->0,
                        mac->0,
                        ip,
                        w,
                        r,
                    );
                lemma_binding_keeps_the_plane_sound(v, net->0, mac->0, u, ip);
            }
        },
        server::Operation::AllocateIp => {
            let net = params::text_param(p, "network"@);
            let mac = params::mac_param_in(p, "mac"@);
            if w != v {
                let ip = choose|ip: Result<Ipv4Addr, RpcError>| #[trigger]
                    bind_effect(v, net->0, mac->0, w, ip) && r == address_outcome(ip);
                lemma_binding_keeps_the_plane_sound(v, net->0, mac->0, w, ip);
            }
        },
        server::Operation::ReleaseIp => {
            let net = params::text_param(p, "network"@)->0;
            let mac = params::mac_param_in(p, "mac"@)->0;
            if w != v {
                assert(v.networks[net].ipam.unbind(mac).sound());
            }
        },
        server::Operation::PublishPort => {
            let port = params::text_param(p, "port"@)->0;
            let vm_port = params::number_param(p, "vm_port"@)->0;
            if w != v {
                let h = choose|h: u16|
                    {
                        &&& #[trigger] model::lowest_free_host(v.published, v.range, h)
                        &&& r == Ok::<json::Json, RpcError>(host_json(h))
                        &&& w == (PlaneView {
                            published: v.published.insert((port, vm_port), h),
                            ..v
                        })
                    };
                model::law_publishing_keeps_hosts_distinct(
                    v.published,
                    (port, vm_port),
                    v.range,
                    h,
                );
            }
        },
        server::Operation::UnpublishPort => {
            let port = params::text_param(p, "port"@)->0;
            let vm_port = params::number_param(p, "vm_port"@)->0;
            model::law_withdrawing_keeps_hosts_distinct(v.published, (port, vm_port), port);
        },
        server::Operation::DeletePort | server::Operation::DetachPort => {
            let name = params::text_param(p, "name"@)->0;
            model::law_withdrawing_keeps_hosts_distinct(v.published, (name, 0), name);
        },
        _ => {},
    }
}

/// Binding a MAC keeps the plane sound.
proof fn lemma_binding_keeps_the_plane_sound(
    v: PlaneView,
    net: Seq<char>,
    mac: MacAddr,
    w: PlaneView,
    r: Result<Ipv4Addr, RpcError>,
)
    requires
        v.sound(),
        bind_effect(v, net, mac, w, r),
    ensures
        w.sound(),
{
    if w != v {
        ipam::law_allocation_stays_sound(v.networks[net].ipam, mac, r->Ok_0);
    }
}

/// Creating a network twice with the same parameters is creating it once;
/// other parameters under the same name are in conflict and change nothing.
pub proof fn law_creating_a_network_again(
    v: PlaneView,
    p: json::Json,
    w: PlaneView,
    r: server::Outcome,
    q: json::Json,
    x: PlaneView,
    s: server::Outcome,
)
    requires
        create_network_effect(v, p, w, r),
        done(r),
        params::has_network_params(q),
        params::text_param(q, "name"@) == params::text_param(p, "name"@),
        create_network_effect(w, q, x, s),
    ensures
        x == w,
        q == p ==> done(s),
        q != p ==> s == Err::<json::Json, RpcError>(RpcError::Conflict),
{
}

/// Creating a port twice is creating it once.
pub proof fn law_creating_a_port_again(
    v: PlaneView,
    p: json::Json,
    w: PlaneView,
    r: server::Outcome,
    x: PlaneView,
    s: server::Outcome,
)
    requires
        create_port_effect(v, p, w, r),
        done(r),
        create_port_effect(w, p, x, s),
    ensures
        done(s) && x == w,
{
}

/// A port that was deleted is created anew: it is attached to nothing and
/// nothing is published for it.
pub proof fn law_recreated_port_is_fresh(
    v: PlaneView,
    p: json::Json,
    w: PlaneView,
    r: server::Outcome,
    x: PlaneView,
    s: server::Outcome,
    vm_port: u16,
)
    requires
        delete_port_effect(v, p, w, r),
        create_port_effect(w, p, x, s),
        done(s),
    ensures
        x.ports[params::text_param(p, "name"@)->0] == fresh_port(
            params::text_param(p, "name"@)->0,
        ),
        !x.published.contains_key((params::text_param(p, "name"@)->0, vm_port)),
{
}

/// A port that was attached to nothing has, once attached, the address that is
/// bound to its MAC in the network; attaching it again changes nothing.
pub proof fn law_attached_port_has_its_address(
    v: PlaneView,
    p: json::Json,
    w: PlaneView,
    r: server::Outcome,
    x: PlaneView,
    s: server::Outcome,
)
    requires
        attach_port_effect(v, p, w, r),
        done(r),
        v.ports[params::text_param(p, "port"@)->0].network is None,
        attach_port_effect(w, p, x, s),
    ensures
        ({
            let q = w.ports[params::text_param(p, "port"@)->0];
            let net = params::text_param(p, "network"@)->0;
            let mac = params::mac_param_in(p, "mac"@)->0;
            &&& q.network == Some(net)
            &&& q.mac == Some(mac)
            &&& q.ip is Some
            &&& w.networks[net].ipam.at(mac) == q.ip
        }),
        done(s) && x == w,
{
    let net = params::text_param(p, "network"@)->0;
    let mac = params::mac_param_in(p, "mac"@)->0;
    let port = params::text_param(p, "port"@)->0;
    let (u, ip) = choose|u: PlaneView, ip: Result<Ipv4Addr, RpcError>| #[trigger]
        bind_effect(v, net, mac, u, ip) && attached(u, port, net, mac, ip, w, r);
    assert(u.ports == v.ports);
}

/// While a MAC is bound, allocating for it gives its address again.
pub proof fn law_allocating_again(
    v: PlaneView,
    p: json::Json,
    w: PlaneView,
    r: server::Outcome,
    x: PlaneView,
    s: server::Outcome,
)
    requires
        allocate_ip_effect(v, p, w, r),
        r is Ok,
        allocate_ip_effect(w, p, x, s),
    ensures
        s == r && x == w,
{
}

/// While a pair is published, publishing it again gives its host port again.
pub proof fn law_publishing_again(
    v: PlaneView,
    p: json::Json,
    w: PlaneView,
    r: server::Outcome,
    x: PlaneView,
    s: server::Outcome,
)
    requires
        publish_port_effect(v, p, w, r),
        r is Ok,
        publish_port_effect(w, p, x, s),
    ensures
        s == r && x == w,
{
}

/// Two pairs are published on two host ports.
pub proof fn law_pairs_get_their_own_host_ports(
    v: PlaneView,
    p: json::Json,
    w: PlaneView,
    r: server::Outcome,
    q: json::Json,
    x: PlaneView,
    s: server::Outcome,
)
    requires
        v.sound(),
        publish_port_effect(v, p, w, r),
        r is Ok,
        publish_port_effect(w, q, x, s),
        s is Ok,
        params::text_param(p, "port"@) != params::text_param(q, "port"@) || params::number_param(
            p,
            "vm_port"@,
        ) != params::number_param(q, "vm_port"@),
    ensures
        r != s,
{
    law_operations_keep_the_plane_sound(v, server::Operation::PublishPort, p, w, r);
    law_operations_keep_the_plane_sound(w, server::Operation::PublishPort, q, x, s);
    let a = (params::text_param(p, "port"@)->0, params::number_param(p, "vm_port"@)->0);
    let b = (params::text_param(q, "port"@)->0, params::number_param(q, "vm_port"@)->0);
    assert(x.published.contains_key(a) && x.published.contains_key(b));
    assert(r == Ok::<json::Json, RpcError>(host_json(x.published[a])));
    assert(s == Ok::<json::Json, RpcError>(host_json(x.published[b])));
    lemma_host_json(x.published[a], x.published[b]);
}

/// The JSON of a host port tells the host port.
proof fn lemma_host_json(a: u16, b: u16)
    requires
        a != b,
    ensures
        host_json(a) != host_json(b),
{
    assert(json::member(host_json(a), "host_port"@) != json::member(host_json(b), "host_port"@));
}

/// Once a port is detached or deleted, what was published for it is free to be
/// published by others, and publishing for it is refused.
pub proof fn law_forwards_end_with_the_attachment(
    v: PlaneView,
    op: server::Operation,
    p: json::Json,
    w: PlaneView,
    r: server::Outcome,
    vm_port: u16,
    q: json::Json,
    x: PlaneView,
    s: server::Outcome,
)
    requires
        v.sound(),
        op == server::Operation::DetachPort || op == server::Operation::DeletePort,
        plane_effect(v, op, p, w, r),
        done(r),
        params::text_param(q, "port"@) == params::text_param(p, "name"@),
        params::number_param(q, "vm_port"@) is Some,
        publish_port_effect(w, q, x, s),
    ensures
        v.published.contains_key((params::text_param(p, "name"@)->0, vm_port))
            ==> !model::host_taken(
            w.published,
            v.published[(params::text_param(p, "name"@)->0, vm_port)],
        ),
        s == Err::<json::Json, RpcError>(RpcError::NotFound) && x == w,
{
    let name = params::text_param(p, "name"@)->0;
    if v.published.contains_key((name, vm_port)) {
        model::law_withdrawn_port_is_free(v.published, name, vm_port);
    }
}

} // verus!
