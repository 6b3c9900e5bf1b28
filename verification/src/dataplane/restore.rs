//! The dataplane at its start: as it was before a restart, out of what was kept.

use vstd::prelude::*;

use crate::dataplane;
use crate::dataplane::control;
use crate::dataplane::store;
use crate::dataplane::{Dataplane, LivePort, Plan, Step};
use crate::ipam;
use crate::ipam::Ipam;
use crate::json;
use crate::json::Value;
use crate::memory;
use crate::memory::NetworkEntry;
use crate::model;
use crate::model::{IpPool, Ipv4Addr, MacAddr, Network};
use crate::net;
use crate::params;
use crate::params::read_mac;
use crate::protocol::RpcError;
use crate::state;
use crate::state::{NetworkState, PortState, StateStore};
use crate::switch::engine;
use crate::switch::gateway;
use crate::switch::mac_table::PortId;
use crate::text;

verus! {

// -- networks -----------------------------------------------------------------

/// Whether `s` is a record of the valid network `n` with the name `name`.
pub open spec fn records_network(name: Seq<char>, s: state::NetworkStateView, n: Network) -> bool {
    &&& n.wf()
    &&& n.name@ == name
    &&& n.cidr@.text() == s.cidr
    &&& n.gateway.text() == s.gateway
    &&& Some(n.pool.start.text()) == s.pool_start
    &&& Some(n.pool.end.text()) == s.pool_end
}

/// Whether `s` is a record of `e`: of its network, of all that is bound in it,
/// and of what it was created with.
pub open spec fn records(
    name: Seq<char>,
    s: state::NetworkStateView,
    e: memory::NetworkRecord,
) -> bool {
    &&& records_network(name, s, e.ipam.network)
    &&& e.ipam.sound()
    &&& store::allocation_texts(e.ipam.bindings) == s.allocations
    &&& e.created_with == s.params
}

/// Two networks of one record agree in everything.
proof fn lemma_one_network(name: Seq<char>, s: state::NetworkStateView, m: Network, n: Network)
    requires
        records_network(name, s, m),
        records_network(name, s, n),
    ensures
        m.name@ == n.name@,
        m.cidr@ == n.cidr@,
        m.gateway == n.gateway,
        m.pool == n.pool,
{
    net::law_network_text_is_unique(m.cidr@, n.cidr@);
    net::law_address_text_is_unique(m.gateway, n.gateway);
    net::law_address_text_is_unique(m.pool.start, n.pool.start);
    net::law_address_text_is_unique(m.pool.end, n.pool.end);
}

/// The network of the record `s`.
fn read_network(name: &str, s: &NetworkState) -> (r: Option<Network>)
    ensures
        match r {
            Some(n) => records_network(name@, s@, n),
            None => forall|n: Network| !(#[trigger] records_network(name@, s@, n)),
        },
{
    let (pool_start, pool_end) = match (&s.pool_start, &s.pool_end) {
        (Some(a), Some(b)) => (a, b),
        _ => {
            return None;
        },
    };
    let (start, end) = match (
        Ipv4Addr::parse(pool_start.as_str()),
        Ipv4Addr::parse(pool_end.as_str()),
    ) {
        (Ok(a), Ok(b)) => (a, b),
        _ => {
            return None;
        },
    };
    let pool = IpPool { start, end };
    match Network::new(name, s.cidr.as_str(), s.gateway.as_str(), pool) {
        Ok(n) => Some(n),
        Err(e) => {
            proof {
                assert forall|n: Network| !(#[trigger] records_network(name@, s@, n)) by {
                    if records_network(name@, s@, n) {
                        net::law_address_text_is_unique(n.pool.start, start);
                        net::law_address_text_is_unique(n.pool.end, end);
                        assert(n.pool == pool);
                        model::law_valid_network_is_not_refused(n, e);
                    }
                }
            }
            None
        },
    }
}

/// Whether the bindings `b` are those of the first `n` of the given MAC
/// addresses in words.
spec fn read_so_far(
    b: Map<MacAddr, Ipv4Addr>,
    texts: Map<Seq<char>, Seq<char>>,
    keys: Seq<&String>,
    n: int,
) -> bool {
    &&& forall|m: MacAddr| #[trigger]
        b.contains_key(m) ==> texts.contains_key(m.text()) && texts[m.text()] == b[m].text()
            && exists|j: int| 0 <= j < n && (#[trigger] keys[j])@ == m.text()
    &&& forall|j: int|
        0 <= j < n ==> exists|m: MacAddr| #[trigger]
            b.contains_key(m) && m.text() == (#[trigger] keys[j])@
}

/// The network of the record `s` with all that is bound in it.
fn read_entry(name: &str, s: &NetworkState) -> (r: Option<NetworkEntry>)
    ensures
        match r {
            Some(e) => records(name@, s@, e@),
            None => forall|e: memory::NetworkRecord| !(#[trigger] records(name@, s@, e)),
        },
{
    let network = match read_network(name, s) {
        Some(n) => n,
        None => {
            return None;
        },
    };
    let ghost n = network;
    let ghost texts = s@.allocations;
    let mut ipam = Ipam::new(network);
    let keys = s.allocations.keys();
    let mut i: usize = 0;
    while i < keys.len()
        invariant
            i <= keys.len(),
            records_network(name@, s@, n),
            texts == s@.allocations,
            forall|k: Seq<char>|
                s.allocations@.contains_key(k) <==> exists|i: int|
                    0 <= i < keys.len() && (#[trigger] keys[i])@ == k,
            forall|a: int, b: int|
                0 <= a < b < keys.len() ==> (#[trigger] keys[a])@ != (#[trigger] keys[b])@,
            ipam@.network == n,
            ipam@.sound(),
            read_so_far(ipam@.bindings, texts, keys@, i as int),
        decreases keys.len() - i,
    {
        let key = keys[i].as_str();
        assert(s.allocations@.contains_key(keys[i as int]@));
        let mac = match MacAddr::parse(key) {
            Ok(mac) => mac,
            Err(_) => {
                proof {
                    lemma_unread(name@, s@, key@);
                }
                return None;
            },
        };
        if !text::same_text(mac.to_string().as_str(), key) {
            proof {
                lemma_other_text(name@, s@, key@, mac);
            }
            return None;
        }
        let word = match s.allocations.get(key) {
            Some(word) => word.as_str(),
            None => {
                return None;
            },
        };
        let ip = match Ipv4Addr::parse(word) {
            Ok(ip) => ip,
            Err(_) => {
                proof {
                    lemma_unread_address(name@, s@, mac);
                }
                return None;
            },
        };
        let ghost before = ipam@;
        if !ipam.reserve(mac, ip) {
            proof {
                lemma_refused(name@, s@, keys@, i as int, before, mac, ip);
            }
            return None;
        }
        proof {
            lemma_read_more(before.bindings, texts, keys@, i as int, mac, ip);
        }
        i = i + 1;
    }
    proof {
        lemma_all_read(ipam@.bindings, texts, keys@);
    }
    Some(NetworkEntry { ipam, created_with: s.params.clone() })
}

/// A binding that is recorded is one of every network with that record.
proof fn lemma_recorded(
    name: Seq<char>,
    s: state::NetworkStateView,
    e: memory::NetworkRecord,
    mac: MacAddr,
)
    requires
        records(name, s, e),
    ensures
        s.allocations.contains_key(mac.text()) <==> e.ipam.bindings.contains_key(mac),
        e.ipam.bindings.contains_key(mac) ==> s.allocations[mac.text()]
            == e.ipam.bindings[mac].text(),
{
    store::lemma_allocation_text(e.ipam.bindings, mac);
}

/// What is recorded under something other than a MAC address is no binding.
proof fn lemma_unread(name: Seq<char>, s: state::NetworkStateView, key: Seq<char>)
    requires
        s.allocations.contains_key(key),
        forall|m: MacAddr| #[trigger] m.text() != net::lower_hex_text(key),
    ensures
        forall|e: memory::NetworkRecord| !(#[trigger] records(name, s, e)),
{
    assert forall|e: memory::NetworkRecord| !(#[trigger] records(name, s, e)) by {
        if records(name, s, e) {
            let b = e.ipam.bindings;
            assert(store::allocation_texts(b).contains_key(key));
            let m = choose|m: MacAddr| #[trigger] b.contains_key(m) && m.text() == key;
            net::law_mac_text_is_unique(m, m);
        }
    }
}

/// What is recorded under a MAC address that is written otherwise is no
/// binding.
proof fn lemma_other_text(
    name: Seq<char>,
    s: state::NetworkStateView,
    key: Seq<char>,
    mac: MacAddr,
)
    requires
        s.allocations.contains_key(key),
        mac.text() == net::lower_hex_text(key),
        mac.text() != key,
    ensures
        forall|e: memory::NetworkRecord| !(#[trigger] records(name, s, e)),
{
    assert forall|e: memory::NetworkRecord| !(#[trigger] records(name, s, e)) by {
        if records(name, s, e) {
            let b = e.ipam.bindings;
            assert(store::allocation_texts(b).contains_key(key));
            let m = choose|m: MacAddr| #[trigger] b.contains_key(m) && m.text() == key;
            net::law_mac_text_is_unique(m, mac);
        }
    }
}

/// What is recorded of a MAC address and is no address is no binding.
proof fn lemma_unread_address(name: Seq<char>, s: state::NetworkStateView, mac: MacAddr)
    requires
        s.allocations.contains_key(mac.text()),
        forall|ip: Ipv4Addr| #[trigger] ip.text() != s.allocations[mac.text()],
    ensures
        forall|e: memory::NetworkRecord| !(#[trigger] records(name, s, e)),
{
    assert forall|e: memory::NetworkRecord| !(#[trigger] records(name, s, e)) by {
        if records(name, s, e) {
            lemma_recorded(name, s, e, mac);
        }
    }
}

/// A recorded address that is not in the pool, or is recorded twice, is no
/// binding.
proof fn lemma_refused(
    name: Seq<char>,
    s: state::NetworkStateView,
    keys: Seq<&String>,
    i: int,
    before: ipam::IpamView,
    mac: MacAddr,
    ip: Ipv4Addr,
)
    requires
        0 <= i < keys.len(),
        forall|a: int, b: int|
            0 <= a < b < keys.len() ==> (#[trigger] keys[a])@ != (#[trigger] keys[b])@,
        records_network(name, s, before.network),
        read_so_far(before.bindings, s.allocations, keys, i),
        keys[i]@ == mac.text(),
        s.allocations.contains_key(mac.text()),
        s.allocations[mac.text()] == ip.text(),
        !before.network.pool.has(ip) || before.bindings.contains_key(mac) || before.bound(ip),
    ensures
        forall|e: memory::NetworkRecord| !(#[trigger] records(name, s, e)),
{
    assert forall|e: memory::NetworkRecord| !(#[trigger] records(name, s, e)) by {
        if records(name, s, e) {
            let b = e.ipam.bindings;
            lemma_one_network(name, s, e.ipam.network, before.network);
            lemma_recorded(name, s, e, mac);
            net::law_address_text_is_unique(b[mac], ip);
            assert(before.network.pool.has(ip));
            if before.bound(ip) {
                let m = choose|m: MacAddr| #[trigger]
                    before.bindings.contains_key(m) && before.bindings[m] == ip;
                lemma_recorded(name, s, e, m);
                net::law_address_text_is_unique(b[m], ip);
                assert(m == mac);
            }
            assert(before.bindings.contains_key(mac));
            let j = choose|j: int| 0 <= j < i && (#[trigger] keys[j])@ == mac.text();
            assert(keys[j]@ != keys[i]@);
        }
    }
}

/// One more binding is read.
proof fn lemma_read_more(
    b: Map<MacAddr, Ipv4Addr>,
    texts: Map<Seq<char>, Seq<char>>,
    keys: Seq<&String>,
    i: int,
    mac: MacAddr,
    ip: Ipv4Addr,
)
    requires
        0 <= i < keys.len(),
        read_so_far(b, texts, keys, i),
        keys[i]@ == mac.text(),
        texts.contains_key(mac.text()),
        texts[mac.text()] == ip.text(),
        !b.contains_key(mac),
    ensures
        read_so_far(b.insert(mac, ip), texts, keys, i + 1),
{
    let c = b.insert(mac, ip);
    assert forall|m: MacAddr| #[trigger] c.contains_key(m) implies texts.contains_key(m.text())
        && texts[m.text()] == c[m].text() && exists|j: int|
        0 <= j < i + 1 && (#[trigger] keys[j])@ == m.text() by {
        if m == mac {
            assert(keys[i]@ == m.text());
        } else {
            assert(b.contains_key(m));
            let j = choose|j: int| 0 <= j < i && (#[trigger] keys[j])@ == m.text();
            assert(keys[j]@ == m.text());
        }
    }
    assert forall|j: int| 0 <= j < i + 1 implies exists|m: MacAddr| #[trigger]
        c.contains_key(m) && m.text() == (#[trigger] keys[j])@ by {
        if j == i {
            assert(c.contains_key(mac) && mac.text() == keys[j]@);
        } else {
            let m = choose|m: MacAddr| #[trigger] b.contains_key(m) && m.text() == keys[j]@;
            assert(c.contains_key(m) && m.text() == keys[j]@);
        }
    }
}

/// Once all is read, the bindings are those in words.
proof fn lemma_all_read(
    b: Map<MacAddr, Ipv4Addr>,
    texts: Map<Seq<char>, Seq<char>>,
    keys: Seq<&String>,
)
    requires
        read_so_far(b, texts, keys, keys.len() as int),
        forall|k: Seq<char>| #[trigger]
            texts.contains_key(k) ==> exists|i: int| 0 <= i < keys.len() && (#[trigger] keys[i])@ == k,
    ensures
        store::allocation_texts(b) == texts,
{
    let t = store::allocation_texts(b);
    assert forall|k: Seq<char>| t.contains_key(k) == texts.contains_key(k) && (t.contains_key(k)
        ==> t[k] == texts[k]) by {
        if texts.contains_key(k) {
            let j = choose|j: int| 0 <= j < keys.len() && (#[trigger] keys[j])@ == k;
            let m = choose|m: MacAddr| #[trigger] b.contains_key(m) && m.text() == keys[j]@;
            store::lemma_allocation_text(b, m);
        }
        if t.contains_key(k) {
            let m = choose|m: MacAddr| #[trigger] b.contains_key(m) && m.text() == k;
            store::lemma_allocation_text(b, m);
        }
    }
    assert(t =~= texts);
}

// -- ports --------------------------------------------------------------------

/// The network and the MAC address of the port with the record `p`. A port is
/// attached to nothing where one of them is missing or cannot be read.
pub open spec fn attachment(p: state::PortStateView) -> Option<(Seq<char>, MacAddr)> {
    if p.network is Some && !text::blank(p.network->0) && p.mac is Some && params::mac_in(
        p.mac->0,
    ) is Some {
        Some((p.network->0, params::mac_in(p.mac->0)->0))
    } else {
        None
    }
}

/// The port with the record `p` and the handle `id`.
pub open spec fn live_port(p: state::PortStateView, id: u32) -> dataplane::LiveView {
    dataplane::LiveView {
        id,
        network: match attachment(p) {
            Some(a) => Some(a.0),
            None => None,
        },
        mac: match attachment(p) {
            Some(a) => Some(a.1),
            None => None,
        },
    }
}

/// The handle of the port `name`: the ports `order` have handles from 1 on, in
/// order.
pub open spec fn handle_in(order: Seq<Seq<char>>, name: Seq<char>) -> u32 {
    (order.index_of(name) + 1) as u32
}

/// The network of each handle of the ports `order` that are attached.
pub open spec fn networks_by_handle(
    ports: Map<Seq<char>, state::PortStateView>,
    order: Seq<Seq<char>>,
) -> Map<PortId, Seq<char>> {
    Map::new(
        |id: PortId| 1 <= id.0 <= order.len() && attachment(ports[order[id.0 - 1]]) is Some,
        |id: PortId| (attachment(ports[order[id.0 - 1]])->0).0,
    )
}

/// The state with the given networks and the ports `order` out of the store
/// `s`: no WAN process runs, nothing is learned, and the rest is as at the
/// start.
pub open spec fn state_with(
    s: state::StoreView,
    networks: Map<Seq<char>, memory::NetworkRecord>,
    order: Seq<Seq<char>>,
) -> dataplane::DataView {
    dataplane::DataView {
        networks,
        ports: Map::new(
            |n: Seq<char>| order.contains(n),
            |n: Seq<char>| live_port(s.ports[n], handle_in(order, n)),
        ),
        names: Map::new(
            |id: PortId| 1 <= id.0 <= order.len(),
            |id: PortId| order[id.0 - 1],
        ),
        next_id: (order.len() + 1) as u32,
        switch: engine::SwitchView {
            ports: networks_by_handle(s.ports, order),
            table: engine::empty_switch().table,
        },
        gateway: gateway::GatewayView {
            networks: networks.map_values(|e: memory::NetworkRecord| e.ipam.network),
            ports: networks_by_handle(s.ports, order),
        },
        ..dataplane::DataView::initial(s.published)
    }
}

// -- the state ----------------------------------------------------------------

/// Whether the record `s` can be read as one of a network with the name `name`.
pub open spec fn readable(name: Seq<char>, s: state::NetworkStateView) -> bool {
    exists|e: memory::NetworkRecord| #[trigger] records(name, s, e)
}

/// Whether `networks` are those of the store that can be read.
pub open spec fn restores_networks(
    s: state::StoreView,
    networks: Map<Seq<char>, memory::NetworkRecord>,
) -> bool {
    &&& forall|n: Seq<char>| #[trigger]
        networks.contains_key(n) <==> s.networks.contains_key(n) && readable(n, s.networks[n])
    &&& forall|n: Seq<char>| #[trigger]
        networks.contains_key(n) ==> records(n, s.networks[n], networks[n])
}

/// Whether `order` are names of ports of the store, each once: all of them, but
/// no more than there are handles.
pub open spec fn lists_ports(s: state::StoreView, order: Seq<Seq<char>>) -> bool {
    &&& order.no_duplicates()
    &&& forall|n: Seq<char>| #[trigger] order.contains(n) ==> s.ports.contains_key(n)
    &&& if s.ports.len() < u32::MAX {
        &&& order.len() == s.ports.len()
        &&& forall|n: Seq<char>| #[trigger] s.ports.contains_key(n) ==> order.contains(n)
    } else {
        order.len() == u32::MAX - 1
    }
}

/// The names of the ports of the state `w`, in the order of their handles.
pub open spec fn port_order(w: dataplane::DataView) -> Seq<Seq<char>> {
    Seq::new((w.next_id - 1) as nat, |i: int| w.names[PortId((i + 1) as u32)])
}

/// Whether the store `s` is restored as the state `w`: with every network that
/// can be read, every port, and all that is published.
pub open spec fn restores(s: state::StoreView, w: dataplane::DataView) -> bool {
    &&& restores_networks(s, w.networks)
    &&& lists_ports(s, port_order(w))
    &&& w == state_with(s, w.networks, port_order(w))
}

impl Dataplane {
    /// The dataplane with the networks, the bindings, the ports, their
    /// attachments and the published forwards of the store, without DNS
    /// upstreams and with no WAN process running. The record of a network that
    /// cannot be read is passed over.
    ///
    /// The sockets of its ports, which [`Dataplane::port_handles`] gives, are
    /// to be bound. After that [`Dataplane::rebound`] says what more there is
    /// to do for each.
    pub fn new(store: &StateStore) -> (r: Self)
        ensures
            restores(store@, r@),
    {
        let mut d = Dataplane::without_records(store.publish_table.clone());
        d.restore_networks(store);
        let ghost networks = d@.networks;
        let order = d.restore_ports(store);
        proof {
            lemma_order(store@, networks, order@);
        }
        d
    }

    /// The ports, each with its handle.
    pub fn port_handles(&self) -> (r: Vec<(String, PortId)>)
        ensures
            forall|i: int|
                0 <= i < r.len() ==> self@.ports.contains_key((#[trigger] r[i]).0@) && r[i].1
                    == PortId(self@.ports[r[i].0@].id),
            forall|n: Seq<char>| #[trigger]
                self@.ports.contains_key(n) ==> exists|i: int|
                    0 <= i < r.len() && (#[trigger] r[i]).0@ == n,
            forall|i: int, j: int|
                0 <= i < j < r.len() ==> (#[trigger] r[i]).0@ != (#[trigger] r[j]).0@,
    {
        let names = self.ports.keys();
        let mut r: Vec<(String, PortId)> = Vec::new();
        let mut i: usize = 0;
        while i < names.len()
            invariant
                i <= names.len(),
                r.len() == i,
                forall|k: Seq<char>|
                    self.ports@.contains_key(k) <==> exists|i: int|
                        0 <= i < names.len() && (#[trigger] names[i])@ == k,
                forall|a: int, b: int|
                    0 <= a < b < names.len() ==> (#[trigger] names[a])@ != (#[trigger] names[b])@,
                forall|j: int|
                    0 <= j < i ==> (#[trigger] r[j]).0@ == names[j]@ && r[j].1 == PortId(
                        self.ports@[names[j]@].id,
                    ),
            decreases names.len() - i,
        {
            assert(self.ports@.contains_key(names[i as int]@));
            match self.ports.get(names[i].as_str()) {
                Some(port) => {
                    r.push((names[i].clone(), PortId(port.id)));
                },
                None => {
                    assert(false);
                },
            }
            i = i + 1;
        }
        proof {
            assert forall|k: int| 0 <= k < r.len() implies self@.ports.contains_key(
                (#[trigger] r[k]).0@,
            ) && r[k].1 == PortId(self@.ports[r[k].0@].id) by {
                assert(self.ports@.contains_key(names[k]@));
            }
            assert forall|n: Seq<char>| #[trigger] self@.ports.contains_key(n) implies exists|
                i: int,
            | 0 <= i < r.len() && (#[trigger] r[i]).0@ == n by {
                assert(self.ports@.contains_key(n));
                let j = choose|j: int| 0 <= j < names.len() && (#[trigger] names[j])@ == n;
                assert(r[j].0@ == n);
            }
            assert forall|a: int, b: int| 0 <= a < b < r.len() implies (#[trigger] r[a]).0@ != (
            #[trigger] r[b]).0@ by {
                assert(names[a]@ != names[b]@);
            }
        }
        r
    }

    /// Takes up the networks of the store that can be read.
    fn restore_networks(&mut self, store: &StateStore)
        requires
            old(self)@ == dataplane::DataView::initial(store@.published),
        ensures
            final(self)@ == state_with(store@, final(self)@.networks, seq![]),
            restores_networks(store@, final(self)@.networks),
    {
        let names = store.networks.keys();
        let ghost s = store@;
        let mut i: usize = 0;
        proof {
            assert(self@ =~= state_with(s, self@.networks, seq![]));
        }
        while i < names.len()
            invariant
                i <= names.len(),
                s == store@,
                forall|k: Seq<char>|
                    store.networks@.contains_key(k) <==> exists|i: int|
                        0 <= i < names.len() && (#[trigger] names[i])@ == k,
                self@ == state_with(s, self@.networks, seq![]),
                forall|k: Seq<char>| #[trigger]
                    self@.networks.contains_key(k) ==> s.networks.contains_key(k) && records(
                        k,
                        s.networks[k],
                        self@.networks[k],
                    ),
                forall|j: int|
                    0 <= j < i && readable((#[trigger] names[j])@, s.networks[names[j]@])
                        ==> self@.networks.contains_key(names[j]@),
            decreases names.len() - i,
        {
            let name = names[i];
            assert(store.networks@.contains_key(names[i as int]@));
            if let Some(kept) = store.networks.get(name.as_str()) {
                assert(s.networks[name@] == kept@);
                if let Some(entry) = read_entry(name.as_str(), kept) {
                    let ghost v = self@;
                    self.gateway.add_network(entry.ipam.network());
                    let _ = self.networks.insert(name.clone(), entry);
                    proof {
                        assert(self@.networks =~= v.networks.insert(name@, entry@));
                        assert(self@ =~= state_with(s, self@.networks, seq![]));
                    }
                }
            }
            i = i + 1;
        }
        proof {
            assert forall|n: Seq<char>| #[trigger] self@.networks.contains_key(n)
                <==> s.networks.contains_key(n) && readable(n, s.networks[n]) by {
                if s.networks.contains_key(n) {
                    assert(store.networks@.contains_key(n));
                    let j = choose|j: int| 0 <= j < names.len() && (#[trigger] names[j])@ == n;
                    assert(readable(names[j]@, s.networks[names[j]@]) == readable(
                        n,
                        s.networks[n],
                    ));
                }
            }
        }
    }

    /// Takes up the port `name` with the record `kept`.
    fn restore_port(&mut self, name: &str, kept: &PortState)
        requires
            old(self)@.next_id < u32::MAX,
        ensures
            ({
                let v = old(self)@;
                let id = PortId(v.next_id);
                final(self)@ == (dataplane::DataView {
                    ports: v.ports.insert(name@, live_port(kept@, id.0)),
                    names: v.names.insert(id, name@),
                    next_id: (v.next_id + 1) as u32,
                    switch: engine::SwitchView {
                        ports: match attachment(kept@) {
                            Some(a) => v.switch.ports.insert(id, a.0),
                            None => v.switch.ports,
                        },
                        table: v.switch.table,
                    },
                    gateway: gateway::GatewayView {
                        networks: v.gateway.networks,
                        ports: match attachment(kept@) {
                            Some(a) => v.gateway.ports.insert(id, a.0),
                            None => v.gateway.ports,
                        },
                    },
                    ..v
                })
            }),
    {
        let id: u32 = self.next_port_id;
        let mut port = LivePort { id, network: None, mac: None };
        if let (Some(network), Some(word)) = (&kept.network, &kept.mac) {
            if let Some(mac) = read_mac(word.as_str()) {
                if !text::is_blank(text::chars_of(network.as_str()).as_slice()) {
                    port.network = Some(network.clone());
                    port.mac = Some(mac);
                    self.switch.add_port(PortId(id), network.as_str());
                    self.gateway.add_port(PortId(id), network.as_str());
                }
            }
        }
        self.next_port_id = id + 1;
        let _ = self.names.insert(id, name.to_owned());
        assert(port@ =~= live_port(kept@, id));
        let _ = self.ports.insert(name.to_owned(), port);
        assert(self@.names =~= old(self)@.names.insert(PortId(id), name@));
        assert(self@.ports =~= old(self)@.ports.insert(name@, live_port(kept@, id)));
    }

    /// Takes up the ports of the store, as far as there are handles; gives
    /// their names, in order.
    fn restore_ports(&mut self, store: &StateStore) -> (r: Ghost<Seq<Seq<char>>>)
        requires
            old(self)@ == state_with(store@, old(self)@.networks, seq![]),
        ensures
            final(self)@ == state_with(store@, old(self)@.networks, r@),
            lists_ports(store@, r@),
    {
        let names = store.ports.keys();
        let ghost s = store@;
        let ghost networks = self@.networks;
        assert(s.ports.dom() =~= store.ports@.dom());
        let most: usize = u32::MAX as usize - 1;
        let count: usize = if names.len() <= most {
            names.len()
        } else {
            most
        };
        let ghost all = names@.map_values(|n: &String| n@);
        let mut i: usize = 0;
        assert(all.take(0) =~= seq![]);
        while i < count
            invariant
                i <= count <= names.len(),
                count < u32::MAX,
                s == store@,
                forall|k: Seq<char>|
                    store.ports@.contains_key(k) <==> exists|i: int|
                        0 <= i < names.len() && (#[trigger] names[i])@ == k,
                forall|a: int, b: int|
                    0 <= a < b < names.len() ==> (#[trigger] names[a])@ != (#[trigger] names[b])@,
                all == names@.map_values(|n: &String| n@),
                self@ == state_with(s, networks, all.take(i as int)),
            decreases count - i,
        {
            let name = names[i];
            assert(store.ports@.contains_key(names[i as int]@));
            let ghost order = all.take(i as int);
            proof {
                assert forall|j: int| 0 <= j < order.len() implies #[trigger] order[j]
                    == names[j]@ by {}
                assert(!order.contains(name@)) by {
                    if order.contains(name@) {
                        let j = order.index_of(name@);
                        assert(names[j]@ == names[i as int]@);
                    }
                }
                lemma_names_differ(names@, i as int);
                assert(all.take(i + 1) =~= order.push(name@));
            }
            match store.ports.get(name.as_str()) {
                Some(kept) => {
                    assert(s.ports[name@] == kept@);
                    self.restore_port(name.as_str(), kept);
                },
                None => {
                    assert(false);
                },
            }
            proof {
                lemma_one_more_port(s, networks, order, name@);
                assert(self@ =~= state_with(s, networks, order.push(name@)));
            }
            i = i + 1;
        }
        let ghost order = all.take(count as int);
        proof {
            lemma_names_differ(names@, count as int);
            assert forall|n: Seq<char>| #[trigger] order.contains(n) implies s.ports.contains_key(
                n,
            ) by {
                let j = order.index_of(n);
                assert(names[j]@ == n);
                assert(store.ports@.contains_key(n));
            }
            if s.ports.len() < u32::MAX {
                assert forall|n: Seq<char>| #[trigger] s.ports.contains_key(
                    n,
                ) implies order.contains(n) by {
                    assert(store.ports@.contains_key(n));
                    let j = choose|j: int| 0 <= j < names.len() && (#[trigger] names[j])@ == n;
                    assert(order[j] == n);
                }
            }
        }
        Ghost(order)
    }
}

/// Names that differ differ in words.
proof fn lemma_names_differ(names: Seq<&String>, n: int)
    requires
        0 <= n <= names.len(),
        forall|a: int, b: int|
            0 <= a < b < names.len() ==> (#[trigger] names[a])@ != (#[trigger] names[b])@,
    ensures
        names.map_values(|n: &String| n@).take(n).no_duplicates(),
{
    let order = names.map_values(|n: &String| n@).take(n);
    assert forall|a: int, b: int|
        0 <= a < order.len() && 0 <= b < order.len() && a != b implies order[a] != order[b] by {
        if a < b {
            assert(names[a]@ != names[b]@);
        } else {
            assert(names[b]@ != names[a]@);
        }
    }
}

/// The ports of a state that was put together in an order are in that order.
proof fn lemma_order(
    s: state::StoreView,
    networks: Map<Seq<char>, memory::NetworkRecord>,
    order: Seq<Seq<char>>,
)
    requires
        order.len() < u32::MAX,
    ensures
        port_order(state_with(s, networks, order)) == order,
{
    let w = state_with(s, networks, order);
    assert(port_order(w).len() == order.len());
    assert forall|i: int| 0 <= i < order.len() implies #[trigger] port_order(w)[i] == order[i] by {
        assert(w.names.contains_key(PortId((i + 1) as u32)));
    }
    assert(port_order(w) =~= order);
}

/// The place of a name among names that differ.
proof fn lemma_place(order: Seq<Seq<char>>, i: int)
    requires
        order.no_duplicates(),
        0 <= i < order.len(),
    ensures
        order.contains(order[i]),
        order.index_of(order[i]) == i,
{
    let j = order.index_of(order[i]);
    assert(order[j] == order[i]);
}

/// What becomes of the state with one more port.
proof fn lemma_one_more_port(
    s: state::StoreView,
    networks: Map<Seq<char>, memory::NetworkRecord>,
    order: Seq<Seq<char>>,
    name: Seq<char>,
)
    requires
        order.no_duplicates(),
        !order.contains(name),
        order.len() + 1 < u32::MAX,
    ensures
        ({
            let v = state_with(s, networks, order);
            let w = state_with(s, networks, order.push(name));
            let id = PortId((order.len() + 1) as u32);
            let p = s.ports[name];
            &&& w.ports == v.ports.insert(name, live_port(p, id.0))
            &&& w.names == v.names.insert(id, name)
            &&& w.switch.ports == match attachment(p) {
                Some(a) => v.switch.ports.insert(id, a.0),
                None => v.switch.ports,
            }
        }),
{
    let next = order.push(name);
    let v = state_with(s, networks, order);
    let w = state_with(s, networks, next);
    let id = PortId((order.len() + 1) as u32);
    let p = s.ports[name];
    assert(next.no_duplicates());
    lemma_place(next, order.len() as int);
    assert forall|n: Seq<char>| order.contains(n) implies next.contains(n) && next.index_of(n)
        == order.index_of(n) by {
        let i = order.index_of(n);
        assert(next[i] == n);
        lemma_place(next, i);
    }
    assert forall|n: Seq<char>| next.contains(n) && n != name implies order.contains(n) by {
        let i = next.index_of(n);
        assert(order[i] == n);
    }
    assert(w.ports =~= v.ports.insert(name, live_port(p, id.0)));
    assert forall|k: PortId| 1 <= k.0 <= order.len() implies #[trigger] next[k.0 - 1] == order[k.0
        - 1] by {}
    assert(w.names =~= v.names.insert(id, name));
    let want = match attachment(p) {
        Some(a) => v.switch.ports.insert(id, a.0),
        None => v.switch.ports,
    };
    assert(w.switch.ports =~= want);
}

// -- once the sockets are bound -----------------------------------------------

/// What there is to do for the port `port` once its socket is bound again: its
/// MAC address is set, and the WAN process runs for its address and all that is
/// published for it, where it has these.
pub open spec fn rebinding(
    v: dataplane::DataView,
    port: Seq<char>,
    plan: dataplane::PlanView,
) -> bool {
    let p = v.ports[port];
    let pin = dataplane::StepView::PinMac { port, mac: p.mac->0 };
    if !v.ports.contains_key(port) {
        plan == dataplane::failing(RpcError::NotFound)
    } else if p.mac is None {
        plan == dataplane::replying(seq![], json::Json::Null)
    } else {
        match v.address_of(port) {
            None => plan == dataplane::replying(seq![pin], json::Json::Null),
            Some(ip) => exists|f: Seq<(u16, u16)>| #[trigger]
                model::forwards_of(v.published, port, f) && plan == dataplane::replying(
                    seq![
                        pin,
                        dataplane::StepView::EnsurePasst { port, vm_ip: ip.text(), published: f },
                    ],
                    json::Json::Null,
                ),
        }
    }
}

impl Dataplane {
    /// What there is to do for the port once its socket is bound again.
    pub fn rebound(&self, port: &str) -> (r: Plan)
        ensures
            rebinding(self@, port@, r@),
    {
        broadcast use json::lemma_value_view;

        let live = match self.ports.get(port) {
            Some(live) => live,
            None => {
                return Plan::fail(RpcError::NotFound);
            },
        };
        let mut plan = Plan::just(Value::Null);
        let mac = match live.mac {
            Some(mac) => mac,
            None => {
                return plan;
            },
        };
        plan.add_step(Step::PinMac { port: port.to_owned(), mac });
        let ghost pin = dataplane::StepView::PinMac { port: port@, mac };
        assert(plan@.steps =~= seq![pin]);
        if let Some(ip) = self.address_of(live) {
            let published = self.publish_table.forwards(port);
            let ghost f = published@;
            assert(model::forwards_of(self@.published, port@, f));
            plan.add_step(
                Step::EnsurePasst { port: port.to_owned(), vm_ip: ip.to_string(), published },
            );
            assert(plan@.steps =~= seq![
                pin,
                dataplane::StepView::EnsurePasst {
                    port: port@,
                    vm_ip: ip.text(),
                    published: f,
                },
            ]);
        }
        plan
    }
}

// -- laws ---------------------------------------------------------------------

/// The record of a port tells its attachment.
proof fn lemma_kept_attachment(v: dataplane::DataView, s: state::StoreView, n: Seq<char>)
    requires
        v.sound(),
        store::kept(v, s),
        s.ports.contains_key(n),
    ensures
        v.ports.contains_key(n),
        forall|id: u32| #[trigger]
            live_port(s.ports[n], id) == (dataplane::LiveView { id, ..v.ports[n] }),
{
    assert(v.ports.contains_key(n));
    assert(v.port_sound(n));
    assert(s.ports[n] == store::kept_port(v, n));
    if v.ports[n].mac is Some {
        let mac = v.ports[n].mac->0;
        net::law_mac_text_is_unique(mac, mac);
        assert(mac.text() == net::lower_hex_text(mac.text()));
        let m = params::mac_in(mac.text())->0;
        net::law_mac_text_is_unique(mac, m);
    }
}

/// A sound state has a handle for each of its ports.
proof fn lemma_handles_suffice(v: dataplane::DataView, s: state::StoreView)
    requires
        v.sound(),
        store::kept(v, s),
    ensures
        s.ports.len() < u32::MAX,
{
    assert(s.ports.dom() =~= v.ports.dom());
    let names = v.ports.dom();
    let f = |n: Seq<char>| v.ports[n].id as int;
    let ids = names.map(f);
    assert(vstd::relations::injective_on(f, names)) by {
        assert forall|a: Seq<char>, b: Seq<char>|
            names.contains(a) && names.contains(b) && #[trigger] f(a) == #[trigger] f(b) implies a
            == b by {
            assert(v.port_sound(a) && v.port_sound(b));
        }
    }
    vstd::set_lib::lemma_map_size(names, ids, f);
    let range = vstd::set_lib::set_int_range(1, u32::MAX as int);
    vstd::set_lib::lemma_int_range(1, u32::MAX as int);
    assert(ids.subset_of(range)) by {
        assert forall|id: int| ids.contains(id) implies range.contains(id) by {
            let n = choose|n: Seq<char>| names.contains(n) && f(n) == id;
            assert(v.port_sound(n));
        }
    }
    vstd::set_lib::lemma_len_subset(ids, range);
}

/// A restart loses nothing: the restored state has the networks that the state
/// before it had, with the same bindings, the same ports with the same
/// attachments and addresses, and the same forwards.
pub proof fn law_restart_keeps_everything(
    v: dataplane::DataView,
    s: state::StoreView,
    w: dataplane::DataView,
)
    requires
        v.sound(),
        store::kept(v, s),
        restores(s, w),
    ensures
        forall|n: Seq<char>| #[trigger] w.networks.contains_key(n) == v.networks.contains_key(n),
        forall|n: Seq<char>| #[trigger]
            v.networks.contains_key(n) ==> {
                &&& w.networks[n].ipam.network.cidr@ == v.networks[n].ipam.network.cidr@
                &&& w.networks[n].ipam.network.gateway == v.networks[n].ipam.network.gateway
                &&& w.networks[n].ipam.network.pool == v.networks[n].ipam.network.pool
                &&& w.networks[n].ipam.bindings == v.networks[n].ipam.bindings
                &&& w.networks[n].created_with == v.networks[n].created_with
            },
        forall|n: Seq<char>| #[trigger] w.ports.contains_key(n) == v.ports.contains_key(n),
        forall|n: Seq<char>| #[trigger]
            v.ports.contains_key(n) ==> {
                &&& w.ports[n].network == v.ports[n].network
                &&& w.ports[n].mac == v.ports[n].mac
                &&& w.address_of(n) == v.address_of(n)
            },
        w.published == v.published,
{
    let order = port_order(w);
    lemma_handles_suffice(v, s);
    assert forall|n: Seq<char>| #[trigger] w.networks.contains_key(n) == v.networks.contains_key(
        n,
    ) by {
        assert(s.networks.contains_key(n) == v.networks.contains_key(n));
        if v.networks.contains_key(n) {
            assert(records(n, s.networks[n], v.networks[n]));
        }
    }
    assert forall|n: Seq<char>| #[trigger] v.networks.contains_key(n) implies {
        &&& w.networks[n].ipam.network.cidr@ == v.networks[n].ipam.network.cidr@
        &&& w.networks[n].ipam.network.gateway == v.networks[n].ipam.network.gateway
        &&& w.networks[n].ipam.network.pool == v.networks[n].ipam.network.pool
        &&& w.networks[n].ipam.bindings == v.networks[n].ipam.bindings
        &&& w.networks[n].created_with == v.networks[n].created_with
    } by {
        assert(w.networks.contains_key(n));
        assert(s.networks[n] == store::kept_network(v.networks[n]));
        assert(records(n, s.networks[n], v.networks[n]));
        assert(records(n, s.networks[n], w.networks[n]));
        lemma_one_network(n, s.networks[n], v.networks[n].ipam.network, w.networks[n].ipam.network);
        store::law_allocation_texts_are_unique(
            v.networks[n].ipam.bindings,
            w.networks[n].ipam.bindings,
        );
    }
    assert forall|n: Seq<char>| #[trigger] w.ports.contains_key(n) == v.ports.contains_key(n) by {
        assert(w.ports.contains_key(n) == order.contains(n));
        assert(s.ports.contains_key(n) == v.ports.contains_key(n));
    }
    assert forall|n: Seq<char>| #[trigger] v.ports.contains_key(n) implies {
        &&& w.ports[n].network == v.ports[n].network
        &&& w.ports[n].mac == v.ports[n].mac
        &&& w.address_of(n) == v.address_of(n)
    } by {
        assert(w.ports.contains_key(n));
        assert(s.ports.contains_key(n));
        lemma_kept_attachment(v, s, n);
        assert(w.ports[n] == live_port(s.ports[n], handle_in(order, n)));
        if v.ports[n].network is Some {
            let net = v.ports[n].network->0;
            assert(w.networks.contains_key(net) == v.networks.contains_key(net));
        }
    }
}

/// A restart is not seen from outside: every network and every port is shown
/// as before.
pub proof fn law_restart_is_not_seen(
    v: dataplane::DataView,
    s: state::StoreView,
    w: dataplane::DataView,
    p: json::Json,
)
    requires
        v.sound(),
        store::kept(v, s),
        restores(s, w),
    ensures
        control::network_shown(w, p) == control::network_shown(v, p),
        control::port_shown(w, p) == control::port_shown(v, p),
{
    law_restart_keeps_everything(v, s, w);
    if params::text_param(p, "name"@) is Some {
        let name = params::text_param(p, "name"@)->0;
        assert(w.networks.contains_key(name) == v.networks.contains_key(name));
        assert(w.ports.contains_key(name) == v.ports.contains_key(name));
    }
}

/// A store without networks and ports gives the state at the start.
pub proof fn law_nothing_kept_is_the_start(s: state::StoreView, w: dataplane::DataView)
    requires
        restores(s, w),
        s.networks == Map::<Seq<char>, state::NetworkStateView>::empty(),
        s.ports == Map::<Seq<char>, state::PortStateView>::empty(),
    ensures
        w == dataplane::DataView::initial(s.published),
{
    assert(port_order(w) =~= seq![]);
    assert(w.networks =~= Map::<Seq<char>, memory::NetworkRecord>::empty());
    assert(w =~= dataplane::DataView::initial(s.published));
}

/// The restored state is sound, where no host port is published twice.
pub proof fn law_restored_state_is_sound(
    s: state::StoreView,
    w: dataplane::DataView,
)
    requires
        restores(s, w),
        model::hosts_distinct(s.published),
    ensures
        w.sound(),
{
    let order = port_order(w);
    assert(w.ports.dom() =~= order.to_set());
    assert(order.to_set().finite()) by {
        vstd::seq_lib::seq_to_set_is_finite(order);
    }
    assert forall|n: Seq<char>| #[trigger] w.ports.contains_key(n) implies w.port_sound(n) by {
        let i = order.index_of(n);
        assert(order[i] == n);
        assert(s.ports.contains_key(n));
    }
    assert forall|id: PortId| #[trigger] w.names.contains_key(id) implies w.ports.contains_key(
        w.names[id],
    ) && w.ports[w.names[id]].id == id.0 by {
        lemma_place(order, id.0 - 1);
    }
}

/// Every port that is attached has its device set up when its socket is bound
/// again, and where it has an address its process runs for that with every pair
/// that is published for it; for a port that is attached to nothing, nothing is
/// done.
pub proof fn law_every_restored_port_gets_its_process(
    v: dataplane::DataView,
    port: Seq<char>,
    plan: dataplane::PlanView,
    mac: MacAddr,
    vm_port: u16,
)
    requires
        v.ports.contains_key(port),
        rebinding(v, port, plan),
    ensures
        plan.reply == Ok::<json::Json, RpcError>(json::Json::Null),
        v.ports[port].mac is None ==> plan.steps.len() == 0,
        v.ports[port].mac == Some(mac) ==> {
            let q = v.ports[port];
            let b = v.networks[q.network->0].ipam.bindings;
            &&& plan.steps.contains(dataplane::StepView::PinMac { port, mac })
            &&& q.network is Some && v.networks.contains_key(q.network->0) && b.contains_key(mac)
                ==> exists|f: Seq<(u16, u16)>|
                {
                    &&& #[trigger] model::forwards_of(v.published, port, f)
                    &&& v.published.contains_key((port, vm_port)) ==> f.contains(
                        (vm_port, v.published[(port, vm_port)]),
                    )
                    &&& plan.steps.contains(
                        dataplane::StepView::EnsurePasst {
                            port,
                            vm_ip: b[mac].text(),
                            published: f,
                        },
                    )
                }
        },
{
    let q = v.ports[port];
    if q.mac is Some {
        assert(plan.steps[0] == dataplane::StepView::PinMac { port, mac: q.mac->0 });
        if v.address_of(port) is Some {
            let ip = v.address_of(port)->0;
            let f = choose|f: Seq<(u16, u16)>| #[trigger]
                model::forwards_of(v.published, port, f) && plan == dataplane::replying(
                    seq![
                        dataplane::StepView::PinMac { port, mac: q.mac->0 },
                        dataplane::StepView::EnsurePasst { port, vm_ip: ip.text(), published: f },
                    ],
                    json::Json::Null,
                );
            if v.published.contains_key((port, vm_port)) {
                model::law_forwards_are_what_is_published(
                    v.published,
                    port,
                    f,
                    vm_port,
                    v.published[(port, vm_port)],
                );
            }
            assert(plan.steps[1] == dataplane::StepView::EnsurePasst {
                port,
                vm_ip: ip.text(),
                published: f,
            });
        }
    }
}

/// At the start there is nothing but what is published, and host ports from
/// 20000 to 21000 to publish on.
pub proof fn law_what_is_there_at_the_start(
    published: model::Published,
    name: Seq<char>,
    id: PortId,
)
    ensures
        ({
            let v = dataplane::DataView::initial(published);
            &&& !v.networks.contains_key(name) && !v.ports.contains_key(name)
                && !v.passts.contains_key(name)
            &&& !v.names.contains_key(id) && !v.switch.ports.contains_key(id)
                && !v.gateway.ports.contains_key(id)
            &&& !v.gateway.networks.contains_key(name)
            &&& v.switch.table.entries.len() == 0 && v.switch.table.capacity == 1024
            &&& v.upstreams.len() == 0
            &&& v.range == (20_000u16, 21_000u16)
            &&& v.published == published
        }),
{
}

} // verus!
