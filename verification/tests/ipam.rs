//! Address management.

use k8netd::ipam::{Ipam, IpamError};
use k8netd::model::{IpPool, Ipv4Addr, MacAddr, Network};

fn ip(a: u8, b: u8, c: u8, d: u8) -> Ipv4Addr {
    Ipv4Addr::new(a, b, c, d)
}

fn mac(s: &str) -> MacAddr {
    s.parse().unwrap()
}

fn pool(start: Ipv4Addr, end: Ipv4Addr) -> IpPool {
    IpPool::new(start, end).unwrap()
}

fn lab_network(gateway: Ipv4Addr, pool: IpPool) -> Network {
    Network::new("lab", "192.168.124.0/24", &gateway.to_string(), pool).unwrap()
}

#[test]
fn allocate_returns_address_inside_pool() {
    let mut ipam = Ipam::new(lab_network(
        ip(192, 168, 124, 1),
        pool(ip(192, 168, 124, 10), ip(192, 168, 124, 200)),
    ));
    let allocated = ipam
        .allocate(mac("02:00:00:00:00:01"))
        .expect("pool has free addresses");
    let start = ip(192, 168, 124, 10).to_u32();
    let end = ip(192, 168, 124, 200).to_u32();
    assert!(
        allocated.to_u32() >= start && allocated.to_u32() <= end,
        "allocated {allocated:?} is outside the pool"
    );
}

#[test]
fn allocate_returns_lowest_free_address() {
    let mut ipam = Ipam::new(lab_network(
        ip(192, 168, 124, 1),
        pool(ip(192, 168, 124, 10), ip(192, 168, 124, 12)),
    ));
    assert_eq!(ipam.allocate(mac("02:00:00:00:00:01")).unwrap(), ip(192, 168, 124, 10));
}

#[test]
fn same_mac_gets_same_ip() {
    let mut ipam = Ipam::new(lab_network(
        ip(192, 168, 124, 1),
        pool(ip(192, 168, 124, 10), ip(192, 168, 124, 12)),
    ));
    let first = ipam.allocate(mac("02:00:00:00:00:01")).unwrap();
    let second = ipam.allocate(mac("02:00:00:00:00:01")).unwrap();
    assert_eq!(first, second);
}

#[test]
fn lookup_returns_bound_ip() {
    let mut ipam = Ipam::new(lab_network(
        ip(192, 168, 124, 1),
        pool(ip(192, 168, 124, 10), ip(192, 168, 124, 12)),
    ));
    let allocated = ipam.allocate(mac("02:00:00:00:00:01")).unwrap();
    assert_eq!(ipam.lookup(mac("02:00:00:00:00:01")), Some(allocated));
}

#[test]
fn release_frees_ip_for_reuse() {
    let mut ipam = Ipam::new(lab_network(
        ip(192, 168, 124, 1),
        pool(ip(192, 168, 124, 10), ip(192, 168, 124, 12)),
    ));
    let a = ipam.allocate(mac("02:00:00:00:00:01")).unwrap();
    let _b = ipam.allocate(mac("02:00:00:00:00:02")).unwrap();
    ipam.release(mac("02:00:00:00:00:01")).unwrap();
    let c = ipam.allocate(mac("02:00:00:00:00:03")).unwrap();
    assert_eq!(c, a, "the freed .10 must be reusable");
}

#[test]
fn release_removes_binding() {
    let mut ipam = Ipam::new(lab_network(
        ip(192, 168, 124, 1),
        pool(ip(192, 168, 124, 10), ip(192, 168, 124, 12)),
    ));
    ipam.allocate(mac("02:00:00:00:00:01")).unwrap();
    ipam.release(mac("02:00:00:00:00:01")).unwrap();
    assert_eq!(ipam.lookup(mac("02:00:00:00:00:01")), None);
}

#[test]
fn release_unknown_mac_returns_error() {
    let mut ipam = Ipam::new(lab_network(
        ip(192, 168, 124, 1),
        pool(ip(192, 168, 124, 10), ip(192, 168, 124, 12)),
    ));
    assert_eq!(ipam.release(mac("02:00:00:00:00:ff")), Err(IpamError::UnknownMac));
}

#[test]
fn pool_exhaustion_returns_error() {
    let mut ipam = Ipam::new(lab_network(
        ip(192, 168, 124, 1),
        pool(ip(192, 168, 124, 10), ip(192, 168, 124, 12)),
    ));
    ipam.allocate(mac("02:00:00:00:00:01")).unwrap();
    ipam.allocate(mac("02:00:00:00:00:02")).unwrap();
    ipam.allocate(mac("02:00:00:00:00:03")).unwrap();
    assert_eq!(ipam.allocate(mac("02:00:00:00:00:04")), Err(IpamError::PoolExhausted));
}

#[test]
fn allocation_after_exhaustion_post_release() {
    let mut ipam = Ipam::new(lab_network(
        ip(192, 168, 124, 1),
        pool(ip(192, 168, 124, 10), ip(192, 168, 124, 12)),
    ));
    ipam.allocate(mac("02:00:00:00:00:01")).unwrap();
    ipam.allocate(mac("02:00:00:00:00:02")).unwrap();
    ipam.allocate(mac("02:00:00:00:00:03")).unwrap();
    assert_eq!(ipam.allocate(mac("02:00:00:00:00:04")), Err(IpamError::PoolExhausted));
    ipam.release(mac("02:00:00:00:00:01")).unwrap();
    let again = ipam.allocate(mac("02:00:00:00:00:04")).unwrap();
    assert_eq!(
        again,
        ip(192, 168, 124, 10),
        "the freed .10 must be reused after exhaustion"
    );
}

#[test]
fn gateway_adjacent_to_pool_start_never_allocated() {
    let mut ipam = Ipam::new(lab_network(
        ip(192, 168, 124, 9),
        pool(ip(192, 168, 124, 10), ip(192, 168, 124, 12)),
    ));
    let ips = [
        ipam.allocate(mac("02:00:00:00:00:01")).unwrap(),
        ipam.allocate(mac("02:00:00:00:00:02")).unwrap(),
        ipam.allocate(mac("02:00:00:00:00:03")).unwrap(),
    ];
    assert!(
        !ips.contains(&ip(192, 168, 124, 9)),
        "gateway .9 must never be allocated"
    );
}

#[test]
fn gateway_adjacent_to_pool_end_never_allocated() {
    let mut ipam = Ipam::new(lab_network(
        ip(192, 168, 124, 13),
        pool(ip(192, 168, 124, 10), ip(192, 168, 124, 12)),
    ));
    let ips = [
        ipam.allocate(mac("02:00:00:00:00:01")).unwrap(),
        ipam.allocate(mac("02:00:00:00:00:02")).unwrap(),
        ipam.allocate(mac("02:00:00:00:00:03")).unwrap(),
    ];
    assert!(
        !ips.contains(&ip(192, 168, 124, 13)),
        "gateway .13 must never be allocated"
    );
}

#[test]
fn two_macs_never_get_same_ip() {
    let mut ipam = Ipam::new(lab_network(
        ip(192, 168, 124, 1),
        pool(ip(192, 168, 124, 10), ip(192, 168, 124, 14)),
    ));
    let mut seen = std::collections::HashSet::new();
    for i in 1..=5 {
        let mac = format!("02:00:00:00:00:{i:02x}");
        let allocated = ipam.allocate(mac.parse().unwrap()).unwrap();
        assert!(seen.insert(allocated), "duplicate IP {allocated:?} handed out");
    }
}

#[test]
fn single_address_pool() {
    let mut ipam = Ipam::new(lab_network(
        ip(192, 168, 124, 1),
        pool(ip(192, 168, 124, 10), ip(192, 168, 124, 10)),
    ));
    assert_eq!(ipam.allocate(mac("02:00:00:00:00:01")).unwrap(), ip(192, 168, 124, 10));
    assert_eq!(ipam.allocate(mac("02:00:00:00:00:02")), Err(IpamError::PoolExhausted));
    ipam.release(mac("02:00:00:00:00:01")).unwrap();
    assert_eq!(ipam.allocate(mac("02:00:00:00:00:03")).unwrap(), ip(192, 168, 124, 10));
}

#[test]
fn full_pool_release_one_reallocate() {
    let mut ipam = Ipam::new(lab_network(
        ip(192, 168, 124, 1),
        pool(ip(192, 168, 124, 10), ip(192, 168, 124, 12)),
    ));
    ipam.allocate(mac("02:00:00:00:00:01")).unwrap();
    ipam.allocate(mac("02:00:00:00:00:02")).unwrap();
    ipam.allocate(mac("02:00:00:00:00:03")).unwrap();
    ipam.release(mac("02:00:00:00:00:02")).unwrap();
    let reallocated = ipam.allocate(mac("02:00:00:00:00:04")).unwrap();
    assert_eq!(
        reallocated,
        ip(192, 168, 124, 11),
        "lowest free address is the released .11"
    );
}

#[test]
fn errors_in_words() {
    assert_eq!(IpamError::PoolExhausted.message(), "IP pool exhausted");
    assert_eq!(IpamError::UnknownMac.message(), "no allocation for the given MAC");
}

#[test]
fn the_bindings_are_listed() {
    let mut ipam = Ipam::new(lab_network(
        ip(192, 168, 124, 1),
        pool(ip(192, 168, 124, 10), ip(192, 168, 124, 12)),
    ));
    ipam.allocate(mac("02:00:00:00:00:02")).unwrap();
    ipam.allocate(mac("02:00:00:00:00:01")).unwrap();
    let mut listed: Vec<(String, String)> = ipam
        .clone()
        .snapshot()
        .iter()
        .map(|(m, a)| (m.to_string(), a.to_string()))
        .collect();
    listed.sort();
    assert_eq!(
        listed,
        vec![
            ("02:00:00:00:00:01".to_string(), "192.168.124.11".to_string()),
            ("02:00:00:00:00:02".to_string(), "192.168.124.10".to_string()),
        ]
    );
    assert_eq!(ipam.network().name, "lab");
}
