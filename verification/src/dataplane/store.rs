//! What is kept of the dataplane across restarts.

use vstd::prelude::*;

use crate::dataplane;
use crate::dataplane::{Dataplane, LivePort};
use crate::ipam::Ipam;
use crate::memory;
use crate::memory::NetworkEntry;
use crate::model::{Ipv4Addr, MacAddr};
use crate::names::NameMap;
use crate::net;
use crate::state;
use crate::state::{
    insert_ipam, insert_network, insert_port, IpamSnapshot, NetworkState, PortState, StateStore,
};
use crate::text;
use crate::text::comes_before;

verus! {

/// The bindings `b` in words: under each MAC address its address.
pub open spec fn allocation_texts(b: Map<MacAddr, Ipv4Addr>) -> Map<Seq<char>, Seq<char>> {
    Map::new(
        |k: Seq<char>| exists|m: MacAddr| #[trigger] b.contains_key(m) && m.text() == k,
        |k: Seq<char>| b[choose|m: MacAddr| #[trigger] b.contains_key(m) && m.text() == k].text(),
    )
}

/// What the words say of a bound MAC address.
pub proof fn lemma_allocation_text(b: Map<MacAddr, Ipv4Addr>, mac: MacAddr)
    ensures
        allocation_texts(b).contains_key(mac.text()) <==> b.contains_key(mac),
        b.contains_key(mac) ==> allocation_texts(b)[mac.text()] == b[mac].text(),
{
    if allocation_texts(b).contains_key(mac.text()) {
        let m = choose|m: MacAddr| #[trigger] b.contains_key(m) && m.text() == mac.text();
        net::law_mac_text_is_unique(m, mac);
    }
}

/// Bindings that are alike in words are the same.
pub proof fn law_allocation_texts_are_unique(
    a: Map<MacAddr, Ipv4Addr>,
    b: Map<MacAddr, Ipv4Addr>,
)
    requires
        allocation_texts(a) == allocation_texts(b),
    ensures
        a == b,
{
    assert forall|m: MacAddr|
        #![trigger a.contains_key(m)]
        #![trigger b.contains_key(m)]
        a.contains_key(m) == b.contains_key(m) && (a.contains_key(m) ==> a[m] == b[m]) by {
        lemma_allocation_text(a, m);
        lemma_allocation_text(b, m);
        if a.contains_key(m) {
            net::law_address_text_is_unique(a[m], b[m]);
        }
    }
    assert(a =~= b);
}

/// What is kept of a network.
pub open spec fn kept_network(e: memory::NetworkRecord) -> state::NetworkStateView {
    state::NetworkStateView {
        cidr: e.ipam.network.cidr@.text(),
        gateway: e.ipam.network.gateway.text(),
        dns: seq![],
        mtu: 1500,
        params: e.created_with,
        pool_start: Some(e.ipam.network.pool.start.text()),
        pool_end: Some(e.ipam.network.pool.end.text()),
        allocations: allocation_texts(e.ipam.bindings),
    }
}

/// What is kept of the port `name`.
pub open spec fn kept_port(v: dataplane::DataView, name: Seq<char>) -> state::PortStateView {
    state::PortStateView {
        network: v.ports[name].network,
        vm_ip: match v.address_of(name) {
            Some(ip) => Some(ip.text()),
            None => None,
        },
        mac: match v.ports[name].mac {
            Some(mac) => Some(mac.text()),
            None => None,
        },
        ipam: state::IpamSnapshotView { free_ranges: seq![], allocations: Map::empty() },
    }
}

/// Whether `mac` is bound in the network `name`.
pub open spec fn bound_in(
    networks: Map<Seq<char>, memory::NetworkRecord>,
    mac: MacAddr,
    name: Seq<char>,
) -> bool {
    networks.contains_key(name) && networks[name].ipam.bindings.contains_key(mac)
}

/// Whether the network `name` is the last one, by name, in which `mac` is
/// bound.
pub open spec fn last_bound(
    networks: Map<Seq<char>, memory::NetworkRecord>,
    mac: MacAddr,
    name: Seq<char>,
) -> bool {
    &&& bound_in(networks, mac, name)
    &&& forall|other: Seq<char>|
        other != name && #[trigger] bound_in(networks, mac, other) ==> text::precedes(other, name)
}

/// The record of an address: the network of just that address.
pub open spec fn record_text(ip: Ipv4Addr) -> Seq<char> {
    ip.text() + "/32"@
}

/// Whether `records` are the bindings of the networks, by MAC address without
/// colons. Of a MAC address that is bound in several networks, the record is
/// that of the last, by name.
pub open spec fn records_of(
    networks: Map<Seq<char>, memory::NetworkRecord>,
    records: Map<Seq<char>, Seq<char>>,
) -> bool {
    &&& forall|k: Seq<char>| #[trigger]
        records.contains_key(k) ==> exists|mac: MacAddr, name: Seq<char>| #[trigger]
            last_bound(networks, mac, name) && mac.plain_text() == k
    &&& forall|mac: MacAddr, name: Seq<char>| #[trigger]
        last_bound(networks, mac, name) ==> records.contains_key(mac.plain_text())
            && records[mac.plain_text()] == record_text(networks[name].ipam.bindings[mac])
}

/// Whether the store `s` is what is kept of the state `v`.
pub open spec fn kept(v: dataplane::DataView, s: state::StoreView) -> bool {
    &&& s.networks == v.networks.map_values(|e: memory::NetworkRecord| kept_network(e))
    &&& s.ports == Map::new(|n: Seq<char>| v.ports.contains_key(n), |n: Seq<char>| kept_port(v, n))
    &&& records_of(v.networks, s.ipam_records)
    &&& s.dhcp_leases == Map::<Seq<char>, state::LeaseStateView>::empty()
    &&& s.published == v.published
}

/// The bindings in words.
fn allocations_of(ipam: &Ipam) -> (r: NameMap<String>)
    ensures
        state::named_texts(r@) == allocation_texts(ipam@.bindings),
{
    let pairs = ipam.snapshot();
    let ghost b = ipam@.bindings;
    let mut r: NameMap<String> = NameMap::new();
    let mut i: usize = 0;
    while i < pairs.len()
        invariant
            i <= pairs.len(),
            b == ipam@.bindings,
            forall|k: int|
                0 <= k < pairs.len() ==> b.contains_key((#[trigger] pairs[k]).0) && b[pairs[k].0]
                    == pairs[k].1,
            forall|k: int| 0 <= k < i ==> r@.contains_key((#[trigger] pairs[k]).0.text()),
            forall|k: Seq<char>| #[trigger]
                r@.contains_key(k) ==> allocation_texts(b).contains_key(k) && r@[k]@
                    == allocation_texts(b)[k],
        decreases pairs.len() - i,
    {
        let (mac, ip) = pairs[i];
        assert(pairs@[i as int] == (mac, ip));
        proof {
            lemma_allocation_text(b, mac);
        }
        let _ = r.insert(mac.to_string(), ip.to_string());
        i = i + 1;
    }
    proof {
        assert forall|k: Seq<char>| #[trigger] allocation_texts(b).contains_key(
            k,
        ) implies r@.contains_key(k) by {
            let m = choose|m: MacAddr| #[trigger] b.contains_key(m) && m.text() == k;
            let j = choose|j: int| 0 <= j < pairs.len() && (#[trigger] pairs[j]).0 == m;
            assert(r@.contains_key(pairs[j].0.text()));
        }
        assert(state::named_texts(r@) =~= allocation_texts(b));
    }
    r
}

/// What is kept of a network.
fn network_state(e: &NetworkEntry) -> (r: NetworkState)
    ensures
        r@ == kept_network(e@),
{
    let n = e.ipam.network();
    let r = NetworkState {
        cidr: n.cidr.to_string(),
        gateway: n.gateway.to_string(),
        dns: Vec::new(),
        mtu: 1500,
        params: e.created_with.clone(),
        pool_start: Some(n.pool.start.to_string()),
        pool_end: Some(n.pool.end.to_string()),
        allocations: allocations_of(&e.ipam),
    };
    assert(r@.dns =~= seq![]);
    r
}

/// The record of an address.
fn record_of(ip: Ipv4Addr) -> (r: String)
    ensures
        r@ == record_text(ip),
{
    let mut r = ip.to_string();
    r.append("/32");
    r
}

/// Whether the records cover the bindings of the first `n` networks of
/// `names`, and of the next one its first `m` bindings `pairs`.
spec fn covered(
    networks: Map<Seq<char>, memory::NetworkRecord>,
    names: Seq<&String>,
    n: int,
    pairs: Seq<(MacAddr, Ipv4Addr)>,
    m: int,
    records: Map<Seq<char>, Seq<char>>,
) -> bool {
    &&& forall|k: Seq<char>| #[trigger]
        records.contains_key(k) ==> exists|mac: MacAddr, name: Seq<char>| #[trigger]
            last_bound(networks, mac, name) && mac.plain_text() == k
    &&& forall|mac: MacAddr, i: int|
        #![trigger last_bound(networks, mac, names[i]@)]
        0 <= i < n && last_bound(networks, mac, names[i]@) ==> recorded(
            networks,
            mac,
            names[i]@,
            records,
        )
    &&& forall|j: int|
        0 <= j < m && last_bound(networks, (#[trigger] pairs[j]).0, names[n]@) ==> recorded(
            networks,
            pairs[j].0,
            names[n]@,
            records,
        )
}

/// Whether the records have the binding of `mac` in the network `name`.
spec fn recorded(
    networks: Map<Seq<char>, memory::NetworkRecord>,
    mac: MacAddr,
    name: Seq<char>,
    records: Map<Seq<char>, Seq<char>>,
) -> bool {
    records.contains_key(mac.plain_text()) && records[mac.plain_text()] == record_text(
        networks[name].ipam.bindings[mac],
    )
}

/// There is one last network in which a MAC is bound.
proof fn lemma_one_last(
    networks: Map<Seq<char>, memory::NetworkRecord>,
    mac: MacAddr,
    a: Seq<char>,
    b: Seq<char>,
)
    requires
        last_bound(networks, mac, a),
        last_bound(networks, mac, b),
    ensures
        a == b,
{
    if a != b {
        assert(bound_in(networks, mac, a) && bound_in(networks, mac, b));
        text::lemma_precedes_total(a, b);
    }
}

impl Dataplane {
    /// Whether the network `name`, in which `mac` is bound, is the last such
    /// one by name.
    fn is_last_bound(&self, mac: MacAddr, name: &str) -> (r: bool)
        requires
            bound_in(self@.networks, mac, name@),
        ensures
            r == last_bound(self@.networks, mac, name@),
    {
        let names = self.networks.keys();
        let mut i: usize = 0;
        while i < names.len()
            invariant
                i <= names.len(),
                bound_in(self@.networks, mac, name@),
                forall|j: int|
                    0 <= j < i && (#[trigger] names[j])@ != name@ && bound_in(
                        self@.networks,
                        mac,
                        names[j]@,
                    ) ==> text::precedes(names[j]@, name@),
            decreases names.len() - i,
        {
            let other = names[i].as_str();
            if !text::same_text(other, name) {
                if let Some(entry) = self.networks.get(other) {
                    if entry.ipam.lookup(mac).is_some() && !comes_before(other, name) {
                        assert(bound_in(self@.networks, mac, other@));
                        return false;
                    }
                }
            }
            i = i + 1;
        }
        proof {
            assert forall|other: Seq<char>|
                other != name@ && #[trigger] bound_in(
                    self@.networks,
                    mac,
                    other,
                ) implies text::precedes(other, name@) by {
                assert(self.networks@.contains_key(other));
                let j = choose|j: int| 0 <= j < names.len() && (#[trigger] names[j])@ == other;
                assert(bound_in(self@.networks, mac, names[j]@));
            }
        }
        true
    }

    /// The address that is bound to the MAC of the port.
    pub(crate) fn address_of(&self, port: &LivePort) -> (r: Option<Ipv4Addr>)
        ensures
            r == (if port.network is Some && port.mac is Some && self@.networks.contains_key(
                port.network->0@,
            ) {
                self@.networks[port.network->0@].ipam.at(port.mac->0)
            } else {
                None
            }),
    {
        match (&port.network, port.mac) {
            (Some(net), Some(mac)) => match self.networks.get(net.as_str()) {
                Some(entry) => entry.ipam.lookup(mac),
                None => None,
            },
            _ => None,
        }
    }

    /// Keeps the networks and their bindings.
    fn keep_networks(&self, store: &mut StateStore)
        requires
            old(store)@ == state::StoreView::empty(),
        ensures
            final(store)@.networks == self@.networks.map_values(
                |e: memory::NetworkRecord| kept_network(e),
            ),
            records_of(self@.networks, final(store)@.ipam_records),
            final(store)@.ports == old(store)@.ports,
            final(store)@.dhcp_leases == old(store)@.dhcp_leases,
            final(store)@.published == old(store)@.published,
    {
        let names = self.networks.keys();
        let ghost networks = self@.networks;
        let ghost s0 = store@;
        let ghost none = Seq::<(MacAddr, Ipv4Addr)>::empty();
        let mut i: usize = 0;
        while i < names.len()
            invariant
                i <= names.len(),
                networks == self@.networks,
                forall|k: Seq<char>|
                    self.networks@.contains_key(k) <==> exists|i: int|
                        0 <= i < names.len() && (#[trigger] names[i])@ == k,
                forall|a: int, b: int|
                    0 <= a < b < names.len() ==> (#[trigger] names[a])@ != (#[trigger] names[b])@,
                forall|j: int|
                    0 <= j < i ==> store@.networks.contains_key((#[trigger] names[j])@)
                        && store@.networks[names[j]@] == kept_network(networks[names[j]@]),
                forall|k: Seq<char>| #[trigger]
                    store@.networks.contains_key(k) ==> networks.contains_key(k),
                covered(networks, names@, i as int, none, 0, store@.ipam_records),
                store@.ports == s0.ports,
                store@.dhcp_leases == s0.dhcp_leases,
                store@.published == s0.published,
            decreases names.len() - i,
        {
            let name = names[i];
            assert(self.networks@.contains_key(names[i as int]@));
            match self.networks.get(name.as_str()) {
                None => {},
                Some(entry) => {
                    insert_network(store, name.clone(), network_state(entry));
                    let pairs = entry.ipam.snapshot();
                    let mut j: usize = 0;
                    let ghost s1 = store@;
                    while j < pairs.len()
                        invariant
                            j <= pairs.len(),
                            i < names.len(),
                            name == names[i as int],
                            networks == self@.networks,
                            networks.contains_key(name@),
                            entry.ipam@ == networks[name@].ipam,
                            forall|k: int|
                                0 <= k < pairs.len() ==> entry.ipam@.bindings.contains_key(
                                    (#[trigger] pairs[k]).0,
                                ) && entry.ipam@.bindings[pairs[k].0] == pairs[k].1,
                            covered(
                                networks,
                                names@,
                                i as int,
                                pairs@,
                                j as int,
                                store@.ipam_records,
                            ),
                            store@.networks == s1.networks,
                            store@.ports == s1.ports,
                            store@.dhcp_leases == s1.dhcp_leases,
                            store@.published == s1.published,
                        decreases pairs.len() - j,
                    {
                        let (mac, ip) = pairs[j];
                        assert(pairs@[j as int] == (mac, ip));
                        assert(bound_in(networks, mac, name@));
                        if self.is_last_bound(mac, name.as_str()) {
                            let ghost before = store@.ipam_records;
                            insert_ipam(store, mac.to_plain_string(), record_of(ip));
                            proof {
                                lemma_record_added(
                                    networks,
                                    names@,
                                    i as int,
                                    pairs@,
                                    j as int,
                                    before,
                                );
                            }
                        }
                        j = j + 1;
                    }
                    proof {
                        lemma_network_covered(
                            networks,
                            names@,
                            i as int,
                            pairs@,
                            store@.ipam_records,
                        );
                    }
                },
            }
            i = i + 1;
        }
        proof {
            assert(store@.networks =~= networks.map_values(
                |e: memory::NetworkRecord| kept_network(e),
            )) by {
                assert forall|k: Seq<char>| networks.contains_key(k) implies store@.networks.contains_key(
                    k,
                ) && store@.networks[k] == kept_network(networks[k]) by {
                    assert(self.networks@.contains_key(k));
                    let j = choose|j: int| 0 <= j < names.len() && (#[trigger] names[j])@ == k;
                    assert(names[j]@ == k);
                }
            }
            assert forall|mac: MacAddr, name: Seq<char>| #[trigger]
                last_bound(networks, mac, name) implies recorded(
                networks,
                mac,
                name,
                store@.ipam_records,
            ) by {
                assert(bound_in(networks, mac, name));
                assert(self.networks@.contains_key(name));
                let j = choose|j: int| 0 <= j < names.len() && (#[trigger] names[j])@ == name;
                assert(last_bound(networks, mac, names[j]@));
            }
        }
    }

    /// Keeps the ports.
    fn keep_ports(&self, store: &mut StateStore)
        requires
            old(store)@.ports == Map::<Seq<char>, state::PortStateView>::empty(),
        ensures
            final(store)@ == (state::StoreView {
                ports: Map::new(
                    |n: Seq<char>| self@.ports.contains_key(n),
                    |n: Seq<char>| kept_port(self@, n),
                ),
                ..old(store)@
            }),
    {
        let names = self.ports.keys();
        let ghost s0 = store@;
        let ghost v = self@;
        let mut i: usize = 0;
        while i < names.len()
            invariant
                i <= names.len(),
                v == self@,
                forall|k: Seq<char>|
                    self.ports@.contains_key(k) <==> exists|i: int|
                        0 <= i < names.len() && (#[trigger] names[i])@ == k,
                forall|a: int, b: int|
                    0 <= a < b < names.len() ==> (#[trigger] names[a])@ != (#[trigger] names[b])@,
                forall|j: int|
                    0 <= j < i ==> store@.ports.contains_key((#[trigger] names[j])@)
                        && store@.ports[names[j]@] == kept_port(v, names[j]@),
                forall|k: Seq<char>| #[trigger]
                    store@.ports.contains_key(k) ==> v.ports.contains_key(k),
                store@ == (state::StoreView { ports: store@.ports, ..s0 }),
            decreases names.len() - i,
        {
            let name = names[i];
            assert(self.ports@.contains_key(names[i as int]@));
            match self.ports.get(name.as_str()) {
                None => {},
                Some(port) => {
                    let vm_ip = match self.address_of(port) {
                        Some(ip) => Some(ip.to_string()),
                        None => None,
                    };
                    let mac = match port.mac {
                        Some(mac) => Some(mac.to_string()),
                        None => None,
                    };
                    let kept = PortState {
                        network: port.network.clone(),
                        vm_ip,
                        mac,
                        ipam: IpamSnapshot {
                            free_ranges: Vec::new(),
                            allocations: NameMap::new(),
                        },
                    };
                    assert(kept@ =~= kept_port(v, name@)) by {
                        assert(kept@.ipam.free_ranges =~= seq![]);
                        assert(kept@.ipam.allocations =~= Map::empty());
                    }
                    insert_port(store, name.clone(), kept);
                },
            }
            i = i + 1;
        }
        proof {
            let want = Map::new(
                |n: Seq<char>| v.ports.contains_key(n),
                |n: Seq<char>| kept_port(v, n),
            );
            assert(store@.ports =~= want) by {
                assert forall|k: Seq<char>| v.ports.contains_key(k) implies store@.ports.contains_key(
                    k,
                ) && store@.ports[k] == kept_port(v, k) by {
                    assert(self.ports@.contains_key(k));
                    let j = choose|j: int| 0 <= j < names.len() && (#[trigger] names[j])@ == k;
                    assert(names[j]@ == k);
                }
            }
        }
    }

    /// What is kept of the networks, the ports, the bindings and what is
    /// published.
    pub fn store(&self) -> (r: StateStore)
        ensures
            kept(self@, r@),
    {
        let mut store = StateStore::default();
        self.keep_networks(&mut store);
        self.keep_ports(&mut store);
        store.publish_table = self.publish_table.clone();
        store
    }
}

/// Recording the binding `pairs[m]` of the last network in which its MAC is
/// bound.
proof fn lemma_record_added(
    networks: Map<Seq<char>, memory::NetworkRecord>,
    names: Seq<&String>,
    n: int,
    pairs: Seq<(MacAddr, Ipv4Addr)>,
    m: int,
    records: Map<Seq<char>, Seq<char>>,
)
    requires
        0 <= n < names.len(),
        0 <= m < pairs.len(),
        covered(networks, names, n, pairs, m, records),
        last_bound(networks, pairs[m].0, names[n]@),
        networks[names[n]@].ipam.bindings[pairs[m].0] == pairs[m].1,
    ensures
        covered(
            networks,
            names,
            n,
            pairs,
            m + 1,
            records.insert(pairs[m].0.plain_text(), record_text(pairs[m].1)),
        ),
{
    let mac = pairs[m].0;
    let after = records.insert(mac.plain_text(), record_text(pairs[m].1));
    assert forall|k: Seq<char>| #[trigger] after.contains_key(k) implies exists|
        mac: MacAddr,
        name: Seq<char>,
    | #[trigger] last_bound(networks, mac, name) && mac.plain_text() == k by {
        if k == mac.plain_text() {
            assert(last_bound(networks, mac, names[n]@) && mac.plain_text() == k);
        } else {
            assert(records.contains_key(k));
        }
    }
    assert forall|other: MacAddr, i: int|
        #![trigger last_bound(networks, other, names[i]@)]
        0 <= i < n && last_bound(networks, other, names[i]@) implies recorded(
        networks,
        other,
        names[i]@,
        after,
    ) by {
        assert(recorded(networks, other, names[i]@, records));
        net::law_plain_mac_text_is_unique(mac, other);
        if other == mac {
            lemma_one_last(networks, mac, names[i]@, names[n]@);
        }
    }
    assert forall|j: int|
        0 <= j < m + 1 && last_bound(networks, (#[trigger] pairs[j]).0, names[n]@) implies recorded(
        networks,
        pairs[j].0,
        names[n]@,
        after,
    ) by {
        net::law_plain_mac_text_is_unique(mac, pairs[j].0);
        if j < m {
            assert(recorded(networks, pairs[j].0, names[n]@, records));
        }
    }
}

/// Once all bindings of a network are covered, so is the network.
proof fn lemma_network_covered(
    networks: Map<Seq<char>, memory::NetworkRecord>,
    names: Seq<&String>,
    n: int,
    pairs: Seq<(MacAddr, Ipv4Addr)>,
    records: Map<Seq<char>, Seq<char>>,
)
    requires
        0 <= n < names.len(),
        covered(networks, names, n, pairs, pairs.len() as int, records),
        forall|m: MacAddr| #[trigger]
            networks[names[n]@].ipam.bindings.contains_key(m) ==> exists|i: int|
                0 <= i < pairs.len() && (#[trigger] pairs[i]).0 == m,
    ensures
        covered(
            networks,
            names,
            n + 1,
            Seq::<(MacAddr, Ipv4Addr)>::empty(),
            0,
            records,
        ),
{
    assert forall|mac: MacAddr, i: int|
        #![trigger last_bound(networks, mac, names[i]@)]
        0 <= i < n + 1 && last_bound(networks, mac, names[i]@) implies recorded(
        networks,
        mac,
        names[i]@,
        records,
    ) by {
        if i == n {
            assert(networks[names[n]@].ipam.bindings.contains_key(mac));
            let j = choose|j: int| 0 <= j < pairs.len() && (#[trigger] pairs[j]).0 == mac;
            assert(last_bound(networks, pairs[j].0, names[n]@));
        }
    }
}

// -- laws ---------------------------------------------------------------------

/// Every binding is kept: of each MAC address that is bound in some network
/// there is a record.
pub proof fn law_every_bound_mac_is_recorded(
    networks: Map<Seq<char>, memory::NetworkRecord>,
    records: Map<Seq<char>, Seq<char>>,
    mac: MacAddr,
    name: Seq<char>,
)
    requires
        networks.dom().finite(),
        records_of(networks, records),
        bound_in(networks, mac, name),
    ensures
        records.contains_key(mac.plain_text()),
{
    let holders = networks.dom().filter(|n: Seq<char>| bound_in(networks, mac, n));
    assert(holders.contains(name));
    let last = lemma_last(holders);
    assert(last_bound(networks, mac, last)) by {
        assert forall|other: Seq<char>|
            other != last && #[trigger] bound_in(networks, mac, other) implies text::precedes(
            other,
            last,
        ) by {
            assert(holders.contains(other));
        }
    }
}

/// What is kept tells which networks there are, what they were created with and
/// what is bound in them, which ports there are and what they are attached to,
/// and what is published: two states that are kept alike have the same.
pub proof fn law_kept_state_tells_everything(
    v: dataplane::DataView,
    w: dataplane::DataView,
    s: state::StoreView,
)
    requires
        kept(v, s),
        kept(w, s),
    ensures
        v.networks.dom() == w.networks.dom(),
        forall|n: Seq<char>| #[trigger]
            v.networks.contains_key(n) ==> {
                &&& v.networks[n].ipam.network.cidr@ == w.networks[n].ipam.network.cidr@
                &&& v.networks[n].ipam.network.gateway == w.networks[n].ipam.network.gateway
                &&& v.networks[n].ipam.network.pool == w.networks[n].ipam.network.pool
                &&& v.networks[n].ipam.bindings == w.networks[n].ipam.bindings
                &&& v.networks[n].created_with == w.networks[n].created_with
            },
        v.ports.dom() == w.ports.dom(),
        forall|n: Seq<char>| #[trigger]
            v.ports.contains_key(n) ==> v.ports[n].network == w.ports[n].network && v.ports[n].mac
                == w.ports[n].mac && v.address_of(n) == w.address_of(n),
        v.published == w.published,
{
    assert forall|n: Seq<char>| #[trigger] v.networks.contains_key(n) == w.networks.contains_key(
        n,
    ) by {
        assert(s.networks.contains_key(n) == v.networks.contains_key(n));
        assert(s.networks.contains_key(n) == w.networks.contains_key(n));
    }
    assert(v.networks.dom() =~= w.networks.dom());
    assert forall|n: Seq<char>| #[trigger] v.networks.contains_key(n) implies {
        &&& v.networks[n].ipam.network.cidr@ == w.networks[n].ipam.network.cidr@
        &&& v.networks[n].ipam.network.gateway == w.networks[n].ipam.network.gateway
        &&& v.networks[n].ipam.network.pool == w.networks[n].ipam.network.pool
        &&& v.networks[n].ipam.bindings == w.networks[n].ipam.bindings
        &&& v.networks[n].created_with == w.networks[n].created_with
    } by {
        let x = v.networks[n].ipam.network;
        let y = w.networks[n].ipam.network;
        assert(s.networks[n] == kept_network(v.networks[n]));
        assert(s.networks[n] == kept_network(w.networks[n]));
        net::law_network_text_is_unique(x.cidr@, y.cidr@);
        net::law_address_text_is_unique(x.gateway, y.gateway);
        net::law_address_text_is_unique(x.pool.start, y.pool.start);
        net::law_address_text_is_unique(x.pool.end, y.pool.end);
        law_allocation_texts_are_unique(
            v.networks[n].ipam.bindings,
            w.networks[n].ipam.bindings,
        );
    }
    assert forall|n: Seq<char>| #[trigger] v.ports.contains_key(n) == w.ports.contains_key(n) by {
        assert(s.ports.contains_key(n) == v.ports.contains_key(n));
        assert(s.ports.contains_key(n) == w.ports.contains_key(n));
    }
    assert(v.ports.dom() =~= w.ports.dom());
    assert forall|n: Seq<char>| #[trigger] v.ports.contains_key(n) implies v.ports[n].network
        == w.ports[n].network && v.ports[n].mac == w.ports[n].mac && v.address_of(n) == w.address_of(n) by {
        assert(s.ports[n] == kept_port(v, n));
        assert(s.ports[n] == kept_port(w, n));
        if v.ports[n].mac is Some && w.ports[n].mac is Some {
            net::law_mac_text_is_unique(v.ports[n].mac->0, w.ports[n].mac->0);
        }
        if v.address_of(n) is Some && w.address_of(n) is Some {
            net::law_address_text_is_unique(v.address_of(n)->0, w.address_of(n)->0);
        }
    }
}

/// The last name of a set of names.
proof fn lemma_last(s: Set<Seq<char>>) -> (r: Seq<char>)
    requires
        s.finite(),
        s.len() > 0,
    ensures
        s.contains(r),
        forall|other: Seq<char>|
            other != r && #[trigger] s.contains(other) ==> text::precedes(other, r),
    decreases s.len(),
{
    let a = s.choose();
    let t = s.remove(a);
    if t.len() == 0 {
        assert forall|other: Seq<char>| other != a && #[trigger] s.contains(
            other,
        ) implies text::precedes(other, a) by {
            assert(t.contains(other));
        }
        a
    } else {
        let b = lemma_last(t);
        text::lemma_precedes_total(a, b);
        if text::precedes(a, b) {
            assert forall|other: Seq<char>| other != b && #[trigger] s.contains(
                other,
            ) implies text::precedes(other, b) by {
                if other != a {
                    assert(t.contains(other));
                }
            }
            b
        } else {
            assert forall|other: Seq<char>| other != a && #[trigger] s.contains(
                other,
            ) implies text::precedes(other, a) by {
                assert(t.contains(other));
                if other != b {
                    text::lemma_precedes_transitive(other, b, a);
                }
            }
            a
        }
    }
}

/// What is kept of every network and every port, in words: the addresses and
/// the parameters of a network and under each MAC address that has an address
/// there that address; the network, the MAC address and the address of a port;
/// and all that is published. Nothing else is kept.
pub proof fn law_what_is_kept(
    v: dataplane::DataView,
    s: state::StoreView,
    name: Seq<char>,
    mac: MacAddr,
)
    requires
        kept(v, s),
    ensures
        s.published == v.published,
        s.networks.contains_key(name) == v.networks.contains_key(name),
        v.networks.contains_key(name) ==> {
            let n = v.networks[name].ipam.network;
            let b = v.networks[name].ipam.bindings;
            let k = s.networks[name];
            &&& k.cidr == n.cidr@.text()
            &&& k.gateway == n.gateway.text()
            &&& k.pool_start == Some(n.pool.start.text())
            &&& k.pool_end == Some(n.pool.end.text())
            &&& k.params == v.networks[name].created_with
            &&& k.mtu == 1500
            &&& k.allocations.contains_key(mac.text()) == b.contains_key(mac)
            &&& b.contains_key(mac) ==> k.allocations[mac.text()] == b[mac].text()
        },
        s.ports.contains_key(name) == v.ports.contains_key(name),
        v.ports.contains_key(name) ==> {
            let q = v.ports[name];
            let k = s.ports[name];
            let b = v.networks[q.network->0].ipam.bindings;
            &&& k.network == q.network
            &&& k.mac == (match q.mac {
                Some(m) => Some(m.text()),
                None => None,
            })
            &&& k.vm_ip == (if q.network is Some && q.mac is Some && v.networks.contains_key(
                q.network->0,
            ) && b.contains_key(q.mac->0) {
                Some(b[q.mac->0].text())
            } else {
                None
            })
        },
{
    if v.networks.contains_key(name) {
        lemma_allocation_text(v.networks[name].ipam.bindings, mac);
        assert(s.networks.contains_key(name));
    } else {
        assert(!s.networks.contains_key(name));
    }
    assert(s.ports.contains_key(name) == v.ports.contains_key(name));
}

/// The record of a MAC address that has an address in one network only is that
/// address, with the length of a whole address behind a slash.
pub proof fn law_the_record_is_the_address(
    networks: Map<Seq<char>, memory::NetworkRecord>,
    records: Map<Seq<char>, Seq<char>>,
    mac: MacAddr,
    name: Seq<char>,
)
    requires
        records_of(networks, records),
        networks.contains_key(name),
        networks[name].ipam.bindings.contains_key(mac),
        forall|other: Seq<char>|
            #[trigger] networks.contains_key(other) && networks[other].ipam.bindings.contains_key(
                mac,
            ) ==> other == name,
    ensures
        records.contains_key(mac.plain_text()),
        records[mac.plain_text()] == networks[name].ipam.bindings[mac].text() + "/32"@,
{
    assert(bound_in(networks, mac, name));
    assert forall|other: Seq<char>| other != name implies !#[trigger] bound_in(
        networks,
        mac,
        other,
    ) by {
        assert(networks.contains_key(other) && networks[other].ipam.bindings.contains_key(mac)
            ==> other == name);
    }
    assert(last_bound(networks, mac, name));
}

} // verus!
