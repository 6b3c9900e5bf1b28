//! What is kept of the daemon's state across restarts.
//!
//! A [`StateStore`] holds the networks, the ports, the address records, the
//! leases and the published forwards. A [`StateSnapshot`] is a store with the
//! version of the format; a snapshot of another version is not restored.

use vstd::prelude::*;

use crate::json;
use crate::json::Value;
use crate::model;
use crate::model::PublishTable;
use crate::names::NameMap;

verus! {

/// The version of the format, raised when its structure changes.
pub const STATE_FORMAT_VERSION: u32 = 1;

/// A snapshot that cannot be restored.
#[derive(Debug, Clone, Copy, PartialEq, Eq, Structural)]
pub enum StateError {
    /// The snapshot is of another version of the format.
    VersionMismatch { expected: u32, found: u32 },
}

// -- records ------------------------------------------------------------------

/// The contents of the strings `s`.
pub open spec fn texts(s: Seq<String>) -> Seq<Seq<char>> {
    s.map_values(|t: String| t@)
}

/// A copy of the strings `s`.
fn copied(s: &Vec<String>) -> (r: Vec<String>)
    ensures
        texts(r@) == texts(s@),
{
    let mut r: Vec<String> = Vec::new();
    let mut i: usize = 0;
    while i < s.len()
        invariant
            i <= s.len(),
            r.len() == i,
            forall|j: int| 0 <= j < i ==> (#[trigger] r@[j])@ == s@[j]@,
        decreases s.len() - i,
    {
        r.push(s[i].clone());
        i = i + 1;
    }
    assert(texts(r@) =~= texts(s@));
    r
}

/// The content of an optional string.
pub open spec fn optional_text(s: Option<String>) -> Option<Seq<char>> {
    match s {
        Some(t) => Some(t@),
        None => None,
    }
}

/// The contents of named strings.
pub open spec fn named_texts(m: Map<Seq<char>, String>) -> Map<Seq<char>, Seq<char>> {
    m.map_values(|t: String| t@)
}

/// A copy of the named strings `m`.
fn copied_names(m: &NameMap<String>) -> (r: NameMap<String>)
    ensures
        named_texts(r@) == named_texts(m@),
{
    let r = m.clone();
    assert(named_texts(r@) =~= named_texts(m@));
    r
}

/// What is kept of a network.
#[derive(Debug)]
pub struct NetworkState {
    /// The network, such as "192.168.124.0/24".
    pub cidr: String,
    /// The address of the gateway.
    pub gateway: String,
    /// The DNS servers.
    pub dns: Vec<String>,
    /// The MTU.
    pub mtu: u16,
    /// The parameters that the network was created with.
    pub params: Value,
    /// The first address of the pool.
    pub pool_start: Option<String>,
    /// The last address of the pool.
    pub pool_end: Option<String>,
    /// The allocated addresses, by MAC address.
    pub allocations: NameMap<String>,
}

/// What a [`NetworkState`] holds.
#[verifier::ext_equal]
pub struct NetworkStateView {
    pub cidr: Seq<char>,
    pub gateway: Seq<char>,
    pub dns: Seq<Seq<char>>,
    pub mtu: u16,
    pub params: json::Json,
    pub pool_start: Option<Seq<char>>,
    pub pool_end: Option<Seq<char>>,
    pub allocations: Map<Seq<char>, Seq<char>>,
}

impl View for NetworkState {
    type V = NetworkStateView;

    open spec fn view(&self) -> NetworkStateView {
        NetworkStateView {
            cidr: self.cidr@,
            gateway: self.gateway@,
            dns: texts(self.dns@),
            mtu: self.mtu,
            params: self.params@,
            pool_start: optional_text(self.pool_start),
            pool_end: optional_text(self.pool_end),
            allocations: named_texts(self.allocations@),
        }
    }
}

impl Clone for NetworkState {
    fn clone(&self) -> (r: Self)
        ensures
            r@ == self@,
    {
        NetworkState {
            cidr: self.cidr.clone(),
            gateway: self.gateway.clone(),
            dns: copied(&self.dns),
            mtu: self.mtu,
            params: self.params.clone(),
            pool_start: self.pool_start.clone(),
            pool_end: self.pool_end.clone(),
            allocations: copied_names(&self.allocations),
        }
    }
}

/// What is kept of the addresses of a port.
#[derive(Debug)]
pub struct IpamSnapshot {
    /// The ranges that are not allocated.
    pub free_ranges: Vec<String>,
    /// The allocated addresses, by MAC address.
    pub allocations: NameMap<String>,
}

/// What an [`IpamSnapshot`] holds.
#[verifier::ext_equal]
pub struct IpamSnapshotView {
    pub free_ranges: Seq<Seq<char>>,
    pub allocations: Map<Seq<char>, Seq<char>>,
}

impl View for IpamSnapshot {
    type V = IpamSnapshotView;

    open spec fn view(&self) -> IpamSnapshotView {
        IpamSnapshotView {
            free_ranges: texts(self.free_ranges@),
            allocations: named_texts(self.allocations@),
        }
    }
}

impl Clone for IpamSnapshot {
    fn clone(&self) -> (r: Self)
        ensures
            r@ == self@,
    {
        IpamSnapshot {
            free_ranges: copied(&self.free_ranges),
            allocations: copied_names(&self.allocations),
        }
    }
}

/// What is kept of a port.
#[derive(Debug)]
pub struct PortState {
    /// The network that the port is attached to.
    pub network: Option<String>,
    /// The address of the attached VM.
    pub vm_ip: Option<String>,
    /// The MAC address of the attached VM.
    pub mac: Option<String>,
    /// The addresses of the port.
    pub ipam: IpamSnapshot,
}

/// What a [`PortState`] holds.
#[verifier::ext_equal]
pub struct PortStateView {
    pub network: Option<Seq<char>>,
    pub vm_ip: Option<Seq<char>>,
    pub mac: Option<Seq<char>>,
    pub ipam: IpamSnapshotView,
}

impl View for PortState {
    type V = PortStateView;

    open spec fn view(&self) -> PortStateView {
        PortStateView {
            network: optional_text(self.network),
            vm_ip: optional_text(self.vm_ip),
            mac: optional_text(self.mac),
            ipam: self.ipam@,
        }
    }
}

impl Clone for PortState {
    fn clone(&self) -> (r: Self)
        ensures
            r@ == self@,
    {
        PortState {
            network: self.network.clone(),
            vm_ip: self.vm_ip.clone(),
            mac: self.mac.clone(),
            ipam: self.ipam.clone(),
        }
    }
}

/// What is kept of a lease.
#[derive(Debug)]
pub struct DhcpLeaseState {
    /// The MAC address, in hexadecimal without colons.
    pub chaddr: String,
    /// The leased address.
    pub ip_address: String,
    /// How long the lease lasts, in seconds.
    pub lease_time: u32,
    /// The DNS servers given with the lease.
    pub dns: Vec<String>,
}

/// What a [`DhcpLeaseState`] holds.
#[verifier::ext_equal]
pub struct LeaseStateView {
    pub chaddr: Seq<char>,
    pub ip_address: Seq<char>,
    pub lease_time: u32,
    pub dns: Seq<Seq<char>>,
}

impl View for DhcpLeaseState {
    type V = LeaseStateView;

    open spec fn view(&self) -> LeaseStateView {
        LeaseStateView {
            chaddr: self.chaddr@,
            ip_address: self.ip_address@,
            lease_time: self.lease_time,
            dns: texts(self.dns@),
        }
    }
}

impl Clone for DhcpLeaseState {
    fn clone(&self) -> (r: Self)
        ensures
            r@ == self@,
    {
        DhcpLeaseState {
            chaddr: self.chaddr.clone(),
            ip_address: self.ip_address.clone(),
            lease_time: self.lease_time,
            dns: copied(&self.dns),
        }
    }
}

// -- the store ----------------------------------------------------------------

/// Everything that is kept.
#[derive(Debug)]
pub struct StateStore {
    /// The networks, by name.
    pub networks: NameMap<NetworkState>,
    /// The ports, by name.
    pub ports: NameMap<PortState>,
    /// The allocated addresses, by MAC address in hexadecimal without colons.
    pub ipam_records: NameMap<String>,
    /// The leases, by MAC address in hexadecimal without colons.
    pub dhcp_leases: NameMap<DhcpLeaseState>,
    /// The published forwards.
    pub publish_table: PublishTable,
}

/// What a [`StateStore`] holds.
#[verifier::ext_equal]
pub struct StoreView {
    pub networks: Map<Seq<char>, NetworkStateView>,
    pub ports: Map<Seq<char>, PortStateView>,
    pub ipam_records: Map<Seq<char>, Seq<char>>,
    pub dhcp_leases: Map<Seq<char>, LeaseStateView>,
    pub published: model::Published,
}

/// The contents of networks, by name.
pub open spec fn network_states(m: Map<Seq<char>, NetworkState>) -> Map<
    Seq<char>,
    NetworkStateView,
> {
    m.map_values(|s: NetworkState| s@)
}

/// The contents of ports, by name.
pub open spec fn port_states(m: Map<Seq<char>, PortState>) -> Map<Seq<char>, PortStateView> {
    m.map_values(|s: PortState| s@)
}

/// The contents of leases, by MAC address.
pub open spec fn lease_states(m: Map<Seq<char>, DhcpLeaseState>) -> Map<Seq<char>, LeaseStateView> {
    m.map_values(|s: DhcpLeaseState| s@)
}

impl View for StateStore {
    type V = StoreView;

    open spec fn view(&self) -> StoreView {
        StoreView {
            networks: network_states(self.networks@),
            ports: port_states(self.ports@),
            ipam_records: named_texts(self.ipam_records@),
            dhcp_leases: lease_states(self.dhcp_leases@),
            published: self.publish_table@,
        }
    }
}

impl StoreView {
    /// The store without anything in it.
    pub open spec fn empty() -> StoreView {
        StoreView {
            networks: Map::empty(),
            ports: Map::empty(),
            ipam_records: Map::empty(),
            dhcp_leases: Map::empty(),
            published: model::Published::empty(),
        }
    }
}

impl Default for StateStore {
    fn default() -> (r: Self)
        ensures
            r@ == StoreView::empty(),
    {
        let r = StateStore {
            networks: NameMap::new(),
            ports: NameMap::new(),
            ipam_records: NameMap::new(),
            dhcp_leases: NameMap::new(),
            publish_table: PublishTable::default(),
        };
        assert(r@ =~= StoreView::empty());
        r
    }
}

impl Clone for StateStore {
    fn clone(&self) -> (r: Self)
        ensures
            r@ == self@,
    {
        let networks = self.networks.clone();
        let ports = self.ports.clone();
        let dhcp_leases = self.dhcp_leases.clone();
        assert(network_states(networks@) =~= network_states(self.networks@));
        assert(port_states(ports@) =~= port_states(self.ports@));
        assert(lease_states(dhcp_leases@) =~= lease_states(self.dhcp_leases@));
        StateStore {
            networks,
            ports,
            ipam_records: copied_names(&self.ipam_records),
            dhcp_leases,
            publish_table: self.publish_table.clone(),
        }
    }
}

// -- snapshots ----------------------------------------------------------------

/// A store as it is written down, with the version of the format.
#[derive(Debug)]
pub struct StateSnapshot {
    pub version: u32,
    pub networks: NameMap<NetworkState>,
    pub ports: NameMap<PortState>,
    pub ipam_records: NameMap<String>,
    pub dhcp_leases: NameMap<DhcpLeaseState>,
    pub publish_table: PublishTable,
}

impl StateSnapshot {
    /// The store that was written down.
    pub open spec fn store(self) -> StateStore {
        StateStore {
            networks: self.networks,
            ports: self.ports,
            ipam_records: self.ipam_records,
            dhcp_leases: self.dhcp_leases,
            publish_table: self.publish_table,
        }
    }

    /// The snapshot of `store`, in the current version of the format.
    pub fn from_store(store: &StateStore) -> (r: StateSnapshot)
        ensures
            r.version == STATE_FORMAT_VERSION,
            r.store()@ == store@,
    {
        let s = store.clone();
        StateSnapshot {
            version: STATE_FORMAT_VERSION,
            networks: s.networks,
            ports: s.ports,
            ipam_records: s.ipam_records,
            dhcp_leases: s.dhcp_leases,
            publish_table: s.publish_table,
        }
    }

    /// The store in the snapshot; refused where the snapshot is of another
    /// version of the format.
    pub fn restore(self) -> (r: Result<StateStore, StateError>)
        ensures
            r == restoration(self),
    {
        if self.version != STATE_FORMAT_VERSION {
            return Err(
                StateError::VersionMismatch {
                    expected: STATE_FORMAT_VERSION,
                    found: self.version,
                },
            );
        }
        Ok(StateStore::from(self))
    }
}

/// What restoring the snapshot `s` gives.
pub open spec fn restoration(s: StateSnapshot) -> Result<StateStore, StateError> {
    if s.version == STATE_FORMAT_VERSION {
        Ok(s.store())
    } else {
        Err(
            StateError::VersionMismatch { expected: STATE_FORMAT_VERSION, found: s.version },
        )
    }
}

/// Restoring a snapshot that was taken of a store gives back that store.
pub proof fn law_snapshot_gives_back_the_store(store: StateStore, s: StateSnapshot)
    requires
        s.version == STATE_FORMAT_VERSION,
        s.store()@ == store@,
    ensures
        restoration(s) matches Ok(r) && r@ == store@,
{
}

impl From<StateSnapshot> for StateStore {
    fn from(s: StateSnapshot) -> (r: Self) {
        StateStore {
            networks: s.networks,
            ports: s.ports,
            ipam_records: s.ipam_records,
            dhcp_leases: s.dhcp_leases,
            publish_table: s.publish_table,
        }
    }
}

impl vstd::std_specs::convert::FromSpecImpl<StateSnapshot> for StateStore {
    open spec fn obeys_from_spec() -> bool {
        true
    }

    open spec fn from_spec(s: StateSnapshot) -> StateStore {
        s.store()
    }
}

// -- entries ------------------------------------------------------------------

/// Keeps `state` for the network `name`.
pub fn insert_network(store: &mut StateStore, name: String, state: NetworkState)
    ensures
        final(store)@ == (StoreView {
            networks: old(store)@.networks.insert(name@, state@),
            ..old(store)@
        }),
{
    let _ = store.networks.insert(name, state);
    assert(network_states(store.networks@) =~= network_states(old(store).networks@).insert(
        name@,
        state@,
    ));
}

/// Forgets the network `name`, giving back what was kept of it.
pub fn remove_network(store: &mut StateStore, name: &str) -> (r: Option<NetworkState>)
    ensures
        match r {
            Some(s) => old(store)@.networks.contains_key(name@) && s@
                == old(store)@.networks[name@],
            None => !old(store)@.networks.contains_key(name@),
        },
        final(store)@ == (StoreView {
            networks: old(store)@.networks.remove(name@),
            ..old(store)@
        }),
{
    let r = store.networks.remove(name);
    assert(network_states(store.networks@) =~= network_states(old(store).networks@).remove(name@));
    r
}

/// What is kept of the network `name`.
pub fn get_network<'a>(store: &'a StateStore, name: &str) -> (r: Option<&'a NetworkState>)
    ensures
        match r {
            Some(s) => store@.networks.contains_key(name@) && s@ == store@.networks[name@],
            None => !store@.networks.contains_key(name@),
        },
{
    store.networks.get(name)
}

/// Keeps `state` for the port `name`.
pub fn insert_port(store: &mut StateStore, name: String, state: PortState)
    ensures
        final(store)@ == (StoreView {
            ports: old(store)@.ports.insert(name@, state@),
            ..old(store)@
        }),
{
    let _ = store.ports.insert(name, state);
    assert(port_states(store.ports@) =~= port_states(old(store).ports@).insert(name@, state@));
}

/// Forgets the port `name`, giving back what was kept of it.
pub fn remove_port(store: &mut StateStore, name: &str) -> (r: Option<PortState>)
    ensures
        match r {
            Some(s) => old(store)@.ports.contains_key(name@) && s@ == old(store)@.ports[name@],
            None => !old(store)@.ports.contains_key(name@),
        },
        final(store)@ == (StoreView { ports: old(store)@.ports.remove(name@), ..old(store)@ }),
{
    let r = store.ports.remove(name);
    assert(port_states(store.ports@) =~= port_states(old(store).ports@).remove(name@));
    r
}

/// What is kept of the port `name`.
pub fn get_port<'a>(store: &'a StateStore, name: &str) -> (r: Option<&'a PortState>)
    ensures
        match r {
            Some(s) => store@.ports.contains_key(name@) && s@ == store@.ports[name@],
            None => !store@.ports.contains_key(name@),
        },
{
    store.ports.get(name)
}

/// Keeps the address `cidr` for the MAC address `chaddr`.
pub fn insert_ipam(store: &mut StateStore, chaddr: String, cidr: String)
    ensures
        final(store)@ == (StoreView {
            ipam_records: old(store)@.ipam_records.insert(chaddr@, cidr@),
            ..old(store)@
        }),
{
    let _ = store.ipam_records.insert(chaddr, cidr);
    assert(named_texts(store.ipam_records@) =~= named_texts(old(store).ipam_records@).insert(
        chaddr@,
        cidr@,
    ));
}

/// Forgets the address of the MAC address `chaddr`, giving it back.
pub fn remove_ipam(store: &mut StateStore, chaddr: &str) -> (r: Option<String>)
    ensures
        match r {
            Some(s) => old(store)@.ipam_records.contains_key(chaddr@) && s@
                == old(store)@.ipam_records[chaddr@],
            None => !old(store)@.ipam_records.contains_key(chaddr@),
        },
        final(store)@ == (StoreView {
            ipam_records: old(store)@.ipam_records.remove(chaddr@),
            ..old(store)@
        }),
{
    let r = store.ipam_records.remove(chaddr);
    assert(named_texts(store.ipam_records@) =~= named_texts(old(store).ipam_records@).remove(
        chaddr@,
    ));
    r
}

/// The address kept for the MAC address `chaddr`.
pub fn get_ipam<'a>(store: &'a StateStore, chaddr: &str) -> (r: Option<&'a String>)
    ensures
        match r {
            Some(s) => store@.ipam_records.contains_key(chaddr@) && s@
                == store@.ipam_records[chaddr@],
            None => !store@.ipam_records.contains_key(chaddr@),
        },
{
    store.ipam_records.get(chaddr)
}

/// Keeps `lease` for the MAC address `chaddr`.
pub fn insert_dhcp_lease(store: &mut StateStore, chaddr: String, lease: DhcpLeaseState)
    ensures
        final(store)@ == (StoreView {
            dhcp_leases: old(store)@.dhcp_leases.insert(chaddr@, lease@),
            ..old(store)@
        }),
{
    let _ = store.dhcp_leases.insert(chaddr, lease);
    assert(lease_states(store.dhcp_leases@) =~= lease_states(old(store).dhcp_leases@).insert(
        chaddr@,
        lease@,
    ));
}

/// Forgets the lease of the MAC address `chaddr`, giving it back.
pub fn remove_dhcp_lease(store: &mut StateStore, chaddr: &str) -> (r: Option<DhcpLeaseState>)
    ensures
        match r {
            Some(s) => old(store)@.dhcp_leases.contains_key(chaddr@) && s@
                == old(store)@.dhcp_leases[chaddr@],
            None => !old(store)@.dhcp_leases.contains_key(chaddr@),
        },
        final(store)@ == (StoreView {
            dhcp_leases: old(store)@.dhcp_leases.remove(chaddr@),
            ..old(store)@
        }),
{
    let r = store.dhcp_leases.remove(chaddr);
    assert(lease_states(store.dhcp_leases@) =~= lease_states(old(store).dhcp_leases@).remove(
        chaddr@,
    ));
    r
}

/// The lease kept for the MAC address `chaddr`.
pub fn get_dhcp_lease<'a>(store: &'a StateStore, chaddr: &str) -> (r: Option<&'a DhcpLeaseState>)
    ensures
        match r {
            Some(s) => store@.dhcp_leases.contains_key(chaddr@) && s@
                == store@.dhcp_leases[chaddr@],
            None => !store@.dhcp_leases.contains_key(chaddr@),
        },
{
    store.dhcp_leases.get(chaddr)
}

/// The number of networks.
pub fn network_count(store: &StateStore) -> (r: usize)
    ensures
        store@.networks.dom().finite(),
        r == store@.networks.len(),
{
    assert(store@.networks.dom() =~= store.networks@.dom());
    store.networks.len()
}

/// The number of ports.
pub fn port_count(store: &StateStore) -> (r: usize)
    ensures
        store@.ports.dom().finite(),
        r == store@.ports.len(),
{
    assert(store@.ports.dom() =~= store.ports@.dom());
    store.ports.len()
}

/// The number of address records.
pub fn ipam_count(store: &StateStore) -> (r: usize)
    ensures
        store@.ipam_records.dom().finite(),
        r == store@.ipam_records.len(),
{
    assert(store@.ipam_records.dom() =~= store.ipam_records@.dom());
    store.ipam_records.len()
}

/// The number of leases.
pub fn dhcp_lease_count(store: &StateStore) -> (r: usize)
    ensures
        store@.dhcp_leases.dom().finite(),
        r == store@.dhcp_leases.len(),
{
    assert(store@.dhcp_leases.dom() =~= store.dhcp_leases@.dom());
    store.dhcp_leases.len()
}

/// A snapshot of the first version of the format is restored whole, and one of
/// any other version is refused.
pub proof fn law_only_the_version_counts(s: StateSnapshot)
    ensures
        s.version == 1 ==> (restoration(s) matches Ok(r) && r.networks == s.networks && r.ports
            == s.ports && r.ipam_records == s.ipam_records && r.dhcp_leases == s.dhcp_leases
            && r.publish_table == s.publish_table),
        s.version != 1 ==> restoration(s) == Err::<StateStore, StateError>(
            StateError::VersionMismatch { expected: 1, found: s.version },
        ),
{
}

} // verus!
