//! The dataplane: the control plane of live ports, and what becomes of the
//! frames that they carry.
//!
//! [`Dataplane`] keeps the state and takes the decisions. What has to be done
//! outside of it, such as binding a socket, writing the state down or starting
//! a process, it hands out as a [`Plan`] of [`Step`]s, and it is told how that
//! went where its state depends on it.

pub mod control;
pub mod control_laws;
pub mod frame_laws;
pub mod laws;
pub mod pump;
pub mod restore;
pub mod store;
pub mod wan;

use std::collections::BTreeMap;

use vstd::prelude::*;

use crate::dns::{DnsForwarder, UpstreamSender};
use crate::ipam;
use crate::json;
use crate::json::Value;
use crate::memory;
use crate::memory::NetworkEntry;
use crate::model;
use crate::model::{MacAddr, Network, PublishTable};
use crate::names::NameMap;
use crate::passt;
use crate::passt::PasstConfig;
use crate::protocol::RpcError;
use crate::server;
use crate::server::DEFAULT_PUBLISH_RANGE;
use crate::switch::engine;
use crate::switch::engine::Switch;
use crate::switch::gateway;
use crate::switch::gateway::Gateway;
use crate::switch::mac_table::PortId;
use crate::text;

verus! {

// -- the state ----------------------------------------------------------------

/// A live port: its handle at the switch, and what it is attached to.
#[derive(Debug)]
pub struct LivePort {
    pub id: u32,
    pub network: Option<String>,
    pub mac: Option<MacAddr>,
}

/// What a [`LivePort`] holds.
#[verifier::ext_equal]
pub struct LiveView {
    pub id: u32,
    pub network: Option<Seq<char>>,
    pub mac: Option<MacAddr>,
}

impl View for LivePort {
    type V = LiveView;

    open spec fn view(&self) -> LiveView {
        LiveView {
            id: self.id,
            network: match self.network {
                Some(n) => Some(n@),
                None => None,
            },
            mac: self.mac,
        }
    }
}

/// The WAN process of a port: what it is to be started with, and how it fares.
#[derive(Debug)]
pub struct PasstSlot {
    /// What the process is to be started with.
    pub desired: PasstConfig,
    /// Whether a process is running.
    pub live: bool,
    /// Whether the process was asked for and has not been started since.
    pub asked: bool,
    /// How many times in a row it failed, with no frame delivered in between.
    pub failures: u32,
    /// When it may be started again, in milliseconds; at once where there is
    /// none.
    pub next_retry: Option<u64>,
    /// The MAC address of the WAN, once it is known.
    pub mac: Option<MacAddr>,
}

/// What a [`PasstSlot`] holds.
#[verifier::ext_equal]
pub struct SlotView {
    pub desired: passt::ConfigView,
    pub live: bool,
    pub asked: bool,
    pub failures: u32,
    pub next_retry: Option<u64>,
    pub mac: Option<MacAddr>,
}

impl View for PasstSlot {
    type V = SlotView;

    open spec fn view(&self) -> SlotView {
        SlotView {
            desired: self.desired@,
            live: self.live,
            asked: self.asked,
            failures: self.failures,
            next_retry: self.next_retry,
            mac: self.mac,
        }
    }
}

/// The control state of a daemon: networks, ports, the switch and the gateway
/// between them, the WAN processes, the DNS forwarder, and the published
/// forwards.
pub struct Dataplane {
    networks: NameMap<NetworkEntry>,
    ports: NameMap<LivePort>,
    /// The names of the ports, by handle.
    names: BTreeMap<u32, String>,
    next_port_id: u32,
    switch: Switch,
    gateway: Gateway,
    passts: NameMap<PasstSlot>,
    dns: DnsForwarder,
    publish_range: (u16, u16),
    publish_table: PublishTable,
}

/// The contents of ports, by name.
pub open spec fn live_views(m: Map<Seq<char>, LivePort>) -> Map<Seq<char>, LiveView> {
    m.map_values(|p: LivePort| p@)
}

/// The contents of slots, by the name of the port.
pub open spec fn slot_views(m: Map<Seq<char>, PasstSlot>) -> Map<Seq<char>, SlotView> {
    m.map_values(|s: PasstSlot| s@)
}

/// What a [`Dataplane`] holds.
#[verifier::ext_equal]
pub struct DataView {
    pub networks: Map<Seq<char>, memory::NetworkRecord>,
    pub ports: Map<Seq<char>, LiveView>,
    pub names: Map<PortId, Seq<char>>,
    pub next_id: u32,
    pub switch: engine::SwitchView,
    pub gateway: gateway::GatewayView,
    pub passts: Map<Seq<char>, SlotView>,
    pub upstreams: Seq<Box<dyn UpstreamSender>>,
    pub range: (u16, u16),
    pub published: model::Published,
}

impl View for Dataplane {
    type V = DataView;

    closed spec fn view(&self) -> DataView {
        DataView {
            networks: memory::network_records(self.networks@),
            ports: live_views(self.ports@),
            names: engine::port_names(self.names@),
            next_id: self.next_port_id,
            switch: self.switch@,
            gateway: self.gateway@,
            passts: slot_views(self.passts@),
            upstreams: self.dns.upstreams(),
            range: self.publish_range,
            published: self.publish_table@,
        }
    }
}

impl DataView {
    /// The state at the start, with what is published.
    pub open spec fn initial(published: model::Published) -> DataView {
        DataView {
            networks: Map::empty(),
            ports: Map::empty(),
            names: Map::empty(),
            next_id: 1,
            switch: engine::empty_switch(),
            gateway: gateway::GatewayView { networks: Map::empty(), ports: Map::empty() },
            passts: Map::empty(),
            upstreams: seq![],
            range: DEFAULT_PUBLISH_RANGE,
            published,
        }
    }

    /// The state with the bindings `b` in the network `net`.
    pub open spec fn with_bindings(self, net: Seq<char>, b: ipam::IpamView) -> DataView {
        DataView {
            networks: self.networks.insert(
                net,
                memory::NetworkRecord { ipam: b, created_with: self.networks[net].created_with },
            ),
            ..self
        }
    }

    /// The state with `slot` for the WAN process of the port `port`.
    pub open spec fn with_slot(self, port: Seq<char>, slot: SlotView) -> DataView {
        DataView { passts: self.passts.insert(port, slot), ..self }
    }

    /// The state with nothing published for the port `port`.
    pub open spec fn without_forwards(self, port: Seq<char>) -> DataView {
        DataView { published: model::without_port(self.published, port), ..self }
    }

    /// The address that is bound to the MAC of the port `port`, where it is
    /// attached to a network that is there.
    pub open spec fn address_of(self, port: Seq<char>) -> Option<model::Ipv4Addr> {
        let p = self.ports[port];
        if self.ports.contains_key(port) && p.network is Some && p.mac is Some
            && self.networks.contains_key(p.network->0) {
            self.networks[p.network->0].ipam.at(p.mac->0)
        } else {
            None
        }
    }

    /// The same as an outcome: why there is none, where there is none.
    pub open spec fn reserved(self, port: Seq<char>) -> Result<model::Ipv4Addr, RpcError> {
        let p = self.ports[port];
        if self.ports.contains_key(port) && p.network is Some && p.mac is None {
            Err(RpcError::Internal)
        } else {
            match self.address_of(port) {
                Some(ip) => Ok(ip),
                None => Err(RpcError::NotFound),
            }
        }
    }
}

impl Dataplane {
    /// A dataplane without networks, ports and DNS upstreams, with what is
    /// published.
    fn without_records(publish_table: PublishTable) -> (r: Self)
        ensures
            r@ == DataView::initial(publish_table@),
    {
        let r = Dataplane {
            networks: NameMap::new(),
            ports: NameMap::new(),
            names: BTreeMap::new(),
            next_port_id: 1,
            switch: Switch::new(),
            gateway: Gateway::new(),
            passts: NameMap::new(),
            dns: DnsForwarder::new(Vec::new()),
            publish_range: DEFAULT_PUBLISH_RANGE,
            publish_table,
        };
        assert(r@ =~= DataView::initial(publish_table@));
        r
    }

    /// Takes the given DNS upstreams, in order, in place of those before.
    pub fn set_dns_upstreams(&mut self, upstreams: Vec<Box<dyn UpstreamSender>>)
        ensures
            final(self)@ == (DataView { upstreams: upstreams@, ..old(self)@ }),
    {
        self.dns = DnsForwarder::new(upstreams);
    }

    /// Publishes from now on the host ports from the first of `range` to the
    /// last.
    pub fn set_publish_range(&mut self, range: (u16, u16))
        ensures
            final(self)@ == (DataView { range, ..old(self)@ }),
    {
        self.publish_range = range;
    }
}

// -- plans --------------------------------------------------------------------

/// Something that has to be done for a request.
#[derive(Debug)]
pub enum Step {
    /// The state is written down.
    Persist,
    /// The MAC address of the port's device is set, before a driver reads it.
    PinMac { port: String, mac: MacAddr },
    /// The WAN process of the port runs for the address and the published
    /// pairs, VM port first: see [`Dataplane::ensure_passt`].
    EnsurePasst { port: String, vm_ip: String, published: Vec<(u16, u16)> },
    /// The WAN process of the port is stopped: see
    /// [`Dataplane::teardown_passt`].
    StopPasst { port: String },
    /// The socket of the port is removed.
    RemoveSocket { port: String },
}

/// What a [`Step`] holds.
#[verifier::ext_equal]
pub enum StepView {
    Persist,
    PinMac { port: Seq<char>, mac: MacAddr },
    EnsurePasst { port: Seq<char>, vm_ip: Seq<char>, published: Seq<(u16, u16)> },
    StopPasst { port: Seq<char> },
    RemoveSocket { port: Seq<char> },
}

impl View for Step {
    type V = StepView;

    open spec fn view(&self) -> StepView {
        match self {
            Step::Persist => StepView::Persist,
            Step::PinMac { port, mac } => StepView::PinMac { port: port@, mac: *mac },
            Step::EnsurePasst { port, vm_ip, published } => StepView::EnsurePasst {
                port: port@,
                vm_ip: vm_ip@,
                published: published@,
            },
            Step::StopPasst { port } => StepView::StopPasst { port: port@ },
            Step::RemoveSocket { port } => StepView::RemoveSocket { port: port@ },
        }
    }
}

/// What has to be done for a request, in order, and its reply once all of it
/// is done. Where writing the state down or ensuring a WAN process fails, the
/// rest is left out and the reply is an internal error.
#[derive(Debug)]
pub struct Plan {
    pub steps: Vec<Step>,
    pub reply: Result<Value, RpcError>,
}

/// What a [`Plan`] holds.
#[verifier::ext_equal]
pub struct PlanView {
    pub steps: Seq<StepView>,
    pub reply: server::Outcome,
}

impl View for Plan {
    type V = PlanView;

    open spec fn view(&self) -> PlanView {
        PlanView {
            steps: self.steps@.map_values(|s: Step| s@),
            reply: server::outcome(self.reply),
        }
    }
}

/// Nothing is done, and the reply is the error `e`.
pub open spec fn failing(e: RpcError) -> PlanView {
    PlanView { steps: seq![], reply: Err(e) }
}

/// The given steps are taken, and the reply is `v`.
pub open spec fn replying(steps: Seq<StepView>, v: json::Json) -> PlanView {
    PlanView { steps, reply: Ok(v) }
}

impl Plan {
    /// Nothing is done, and the reply is the error `e`.
    fn fail(e: RpcError) -> (r: Plan)
        ensures
            r@ == failing(e),
    {
        let r = Plan { steps: Vec::new(), reply: Err(e) };
        assert(r@ =~= failing(e));
        r
    }

    /// Nothing is done, and the reply is `v`.
    fn just(v: Value) -> (r: Plan)
        ensures
            r@ == replying(seq![], v@),
    {
        let r = Plan { steps: Vec::new(), reply: Ok(v) };
        assert(r@ =~= replying(seq![], v@));
        r
    }

    /// Adds a step at the end.
    fn add_step(&mut self, s: Step)
        ensures
            final(self)@ == (PlanView {
                steps: old(self)@.steps.push(s@),
                reply: old(self)@.reply,
            }),
    {
        self.steps.push(s);
        assert(self@.steps =~= old(self)@.steps.push(s@));
    }
}

// -- invariants ---------------------------------------------------------------

impl DataView {
    /// Whether the state is sound:
    ///
    /// - every network is kept under its name and is valid, with sound
    ///   bindings, and the gateway knows just these networks;
    /// - every port has a handle of its own, from 1 on and below the next one,
    ///   and the names by handle are just the names of the ports, which are
    ///   finitely many;
    /// - a port is attached to a network if and only if it has a MAC address,
    ///   and then the switch and the gateway have it on that network, whose
    ///   name is not blank;
    /// - the switch and the gateway have no other ports;
    /// - no host port is published twice.
    pub open spec fn sound(self) -> bool {
        &&& forall|n: Seq<char>| #[trigger]
            self.networks.contains_key(n) ==> {
                &&& self.networks[n].ipam.network.name@ == n
                &&& self.networks[n].ipam.network.wf()
                &&& self.networks[n].ipam.sound()
                &&& self.gateway.networks.contains_key(n)
                &&& self.gateway.networks[n] == self.networks[n].ipam.network
            }
        &&& forall|n: Seq<char>| #[trigger]
            self.gateway.networks.contains_key(n) ==> self.networks.contains_key(n)
        &&& self.ports.dom().finite()
        &&& self.next_id >= 1
        &&& forall|n: Seq<char>| #[trigger] self.ports.contains_key(n) ==> self.port_sound(n)
        &&& forall|id: PortId| #[trigger]
            self.names.contains_key(id) ==> self.ports.contains_key(self.names[id])
                && self.ports[self.names[id]].id == id.0
        &&& forall|id: PortId| #[trigger]
            self.switch.ports.contains_key(id) ==> self.names.contains_key(id)
        &&& forall|id: PortId| #[trigger]
            self.gateway.ports.contains_key(id) ==> self.names.contains_key(id)
        &&& model::hosts_distinct(self.published)
    }

    /// Whether the port `n` is sound, as [`DataView::sound`] says.
    pub open spec fn port_sound(self, n: Seq<char>) -> bool {
        let p = self.ports[n];
        let id = PortId(p.id);
        &&& 1 <= p.id < self.next_id
        &&& self.names.contains_key(id)
        &&& self.names[id] == n
        &&& p.network is Some <==> p.mac is Some
        &&& match p.network {
            Some(net) => {
                &&& !text::blank(net)
                &&& self.switch.ports.contains_key(id)
                &&& self.switch.ports[id] == net
                &&& self.gateway.ports.contains_key(id)
                &&& self.gateway.ports[id] == net
            },
            None => {
                &&& !self.switch.ports.contains_key(id)
                &&& !self.gateway.ports.contains_key(id)
            },
        }
    }
}

} // verus!
