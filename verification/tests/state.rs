//! The state that is kept.

use k8netd::json::Value;
use k8netd::names::NameMap;
use k8netd::state::{
    dhcp_lease_count, get_dhcp_lease, get_ipam, get_network, get_port, insert_dhcp_lease, insert_ipam, insert_network,
    insert_port, ipam_count, network_count, port_count, remove_dhcp_lease, remove_ipam, remove_network, remove_port,
    DhcpLeaseState, IpamSnapshot, NetworkState, PortState, StateError, StateSnapshot, StateStore, STATE_FORMAT_VERSION,
};

fn network() -> NetworkState {
    NetworkState {
        cidr: "192.168.124.0/24".to_string(),
        gateway: "192.168.124.1".to_string(),
        dns: vec!["1.1.1.1".to_string(), "8.8.8.8".to_string()],
        mtu: 1400,
        params: Value::Bool(true),
        pool_start: Some("192.168.124.10".to_string()),
        pool_end: None,
        allocations: NameMap::new(),
    }
}

fn port() -> PortState {
    let mut allocations = NameMap::new();
    allocations.insert("020000000001".to_string(), "192.168.124.10".to_string());
    PortState {
        network: Some("lab".to_string()),
        vm_ip: Some("192.168.124.10".to_string()),
        mac: None,
        ipam: IpamSnapshot {
            free_ranges: vec!["192.168.124.11-192.168.124.20".to_string()],
            allocations,
        },
    }
}

fn lease() -> DhcpLeaseState {
    DhcpLeaseState {
        chaddr: "020000000001".to_string(),
        ip_address: "192.168.124.10".to_string(),
        lease_time: 3600,
        dns: vec!["192.168.124.1".to_string()],
    }
}

fn full() -> StateStore {
    let mut store = StateStore::default();
    insert_network(&mut store, "lab".to_string(), network());
    insert_port(&mut store, "vm1".to_string(), port());
    insert_ipam(&mut store, "020000000001".to_string(), "192.168.124.10/32".to_string());
    insert_dhcp_lease(&mut store, "020000000001".to_string(), lease());
    store.publish_table.allocate("vm1", 22, (20000, 20001));
    store
}

#[test]
fn entries_are_kept_until_they_are_forgotten() {
    let mut store = full();
    assert_eq!(network_count(&store), 1);
    assert_eq!(port_count(&store), 1);
    assert_eq!(ipam_count(&store), 1);
    assert_eq!(dhcp_lease_count(&store), 1);
    assert_eq!(get_network(&store, "lab").unwrap().mtu, 1400);
    assert_eq!(
        get_port(&store, "vm1").unwrap().vm_ip.as_deref(),
        Some("192.168.124.10")
    );
    assert_eq!(
        get_ipam(&store, "020000000001").map(String::as_str),
        Some("192.168.124.10/32")
    );
    assert_eq!(get_dhcp_lease(&store, "020000000001").unwrap().lease_time, 3600);
    assert!(get_network(&store, "other").is_none());
    assert!(get_port(&store, "other").is_none());
    assert!(get_ipam(&store, "other").is_none());
    assert!(get_dhcp_lease(&store, "other").is_none());

    assert_eq!(remove_network(&mut store, "lab").unwrap().gateway, "192.168.124.1");
    assert!(remove_network(&mut store, "lab").is_none());
    assert_eq!(port_count(&store), 1, "the others stay");
    assert!(remove_port(&mut store, "vm1").is_some());
    assert!(remove_port(&mut store, "vm1").is_none());
    assert_eq!(
        remove_ipam(&mut store, "020000000001").as_deref(),
        Some("192.168.124.10/32")
    );
    assert!(remove_ipam(&mut store, "020000000001").is_none());
    assert!(remove_dhcp_lease(&mut store, "020000000001").is_some());
    assert!(remove_dhcp_lease(&mut store, "020000000001").is_none());
    assert_eq!(
        network_count(&store) + port_count(&store) + ipam_count(&store) + dhcp_lease_count(&store),
        0
    );
}

#[test]
fn entries_are_replaced() {
    let mut store = full();
    insert_ipam(&mut store, "020000000001".to_string(), "192.168.124.99/32".to_string());
    assert_eq!(ipam_count(&store), 1);
    assert_eq!(
        get_ipam(&store, "020000000001").map(String::as_str),
        Some("192.168.124.99/32")
    );
}

#[test]
fn snapshots_give_back_the_store() {
    let store = full();
    let restored = StateSnapshot::from_store(&store).restore().unwrap();
    let n = get_network(&restored, "lab").unwrap();
    assert_eq!(n.cidr, "192.168.124.0/24");
    assert_eq!(n.dns, vec!["1.1.1.1", "8.8.8.8"]);
    assert_eq!(n.params, Value::Bool(true));
    assert_eq!(n.pool_start.as_deref(), Some("192.168.124.10"));
    assert_eq!(n.pool_end, None);
    let p = get_port(&restored, "vm1").unwrap();
    assert_eq!(p.ipam.free_ranges, vec!["192.168.124.11-192.168.124.20"]);
    assert_eq!(
        p.ipam.allocations.get("020000000001").map(String::as_str),
        Some("192.168.124.10")
    );
    let l = get_dhcp_lease(&restored, "020000000001").unwrap();
    assert_eq!(l.chaddr, "020000000001");
    assert_eq!(l.ip_address, "192.168.124.10");
    assert_eq!(l.dns, vec!["192.168.124.1"]);
    assert_eq!(restored.publish_table.get("vm1", 22), Some(20000));
}

#[test]
fn other_versions_are_not_restored() {
    let mut snapshot = StateSnapshot::from_store(&full());
    assert_eq!(snapshot.version, STATE_FORMAT_VERSION);
    snapshot.version = 99;
    assert_eq!(
        snapshot.restore().unwrap_err(),
        StateError::VersionMismatch { expected: 1, found: 99 }
    );
}
