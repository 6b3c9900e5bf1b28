//! The domain model.

use k8netd::model::{
    Allocation, DhcpLease, IpPool, Ipv4Addr, Ipv4Cidr, MacAddr, ModelError, Network, Port, PublishTable,
};

fn ip(a: u8, b: u8, c: u8, d: u8) -> Ipv4Addr {
    Ipv4Addr::new(a, b, c, d)
}

fn mac(s: &str) -> MacAddr {
    s.parse().unwrap()
}

fn lab_pool() -> IpPool {
    IpPool::new(ip(192, 168, 124, 10), ip(192, 168, 124, 200)).unwrap()
}

#[test]
fn network_valid_construction() {
    let n = Network::new("lab", "192.168.124.0/24", "192.168.124.1", lab_pool()).expect("valid network");
    assert_eq!(n.name, "lab");
    assert_eq!(n.cidr, "192.168.124.0/24".parse::<Ipv4Cidr>().unwrap());
    assert_eq!(n.gateway, ip(192, 168, 124, 1));
    assert_eq!(n.pool.start, ip(192, 168, 124, 10));
    assert_eq!(n.pool.end, ip(192, 168, 124, 200));
}

#[test]
fn network_rejects_empty_name() {
    assert!(Network::new("", "192.168.124.0/24", "192.168.124.1", lab_pool()).is_err());
}

#[test]
fn network_rejects_whitespace_name() {
    assert!(Network::new("   ", "192.168.124.0/24", "192.168.124.1", lab_pool()).is_err());
}

#[test]
fn network_rejects_unparseable_cidr() {
    assert!(Network::new("lab", "not-a-cidr", "192.168.124.1", lab_pool()).is_err());
}

#[test]
fn network_rejects_cidr_with_host_bits() {
    assert!(Network::new("lab", "192.168.124.1/24", "192.168.124.1", lab_pool()).is_err());
}

#[test]
fn network_rejects_prefix_out_of_range() {
    assert!(Network::new("lab", "192.168.124.0/33", "192.168.124.1", lab_pool()).is_err());
}

#[test]
fn network_rejects_unparseable_gateway() {
    assert!(Network::new("lab", "192.168.124.0/24", "not-an-ip", lab_pool()).is_err());
}

#[test]
fn network_rejects_gateway_outside_cidr() {
    assert!(Network::new("lab", "192.168.124.0/24", "10.0.0.1", lab_pool()).is_err());
}

#[test]
fn network_rejects_pool_outside_cidr() {
    let outside = IpPool::new(ip(10, 0, 0, 1), ip(10, 0, 0, 10)).unwrap();
    assert!(Network::new("lab", "192.168.124.0/24", "192.168.124.1", outside).is_err());
}

#[test]
fn network_rejects_pool_overlapping_gateway() {
    let overlapping = IpPool::new(ip(192, 168, 124, 1), ip(192, 168, 124, 10)).unwrap();
    assert!(Network::new("lab", "192.168.124.0/24", "192.168.124.1", overlapping).is_err());
}

#[test]
fn ip_pool_rejects_reversed_bounds() {
    assert!(IpPool::new(ip(192, 168, 124, 200), ip(192, 168, 124, 10)).is_err());
}

#[test]
fn ip_pool_accepts_single_address() {
    let p = IpPool::new(ip(192, 168, 124, 10), ip(192, 168, 124, 10)).unwrap();
    assert_eq!(p.start, p.end);
}

#[test]
fn ipv4_cidr_rejects_host_bits() {
    assert!("192.168.124.1/24".parse::<Ipv4Cidr>().is_err());
}

#[test]
fn ipv4_cidr_parses_clean_network() {
    let c: Ipv4Cidr = "192.168.124.0/24".parse().unwrap();
    assert_eq!(c.to_string(), "192.168.124.0/24");
}

#[test]
fn port_created_is_detached() {
    let p = Port::new("vm1", "/run/user/1000/k8snet/vm1.sock").unwrap();
    assert_eq!(p.name, "vm1");
    assert_eq!(p.socket_path, "/run/user/1000/k8snet/vm1.sock");
    assert_eq!(p.network, None);
    assert_eq!(p.mac, None);
    assert_eq!(p.ip, None);
}

#[test]
fn port_rejects_empty_name() {
    assert!(Port::new("", "/run/user/1000/k8snet/vm1.sock").is_err());
}

#[test]
fn port_rejects_whitespace_name() {
    assert!(Port::new("   ", "/run/user/1000/k8snet/vm1.sock").is_err());
}

#[test]
fn port_attach_sets_attachment() {
    let mut p = Port::new("vm1", "/run/user/1000/k8snet/vm1.sock").unwrap();
    p.attach("lab", mac("02:00:00:00:00:01"), ip(192, 168, 124, 10));
    assert_eq!(p.network.as_deref(), Some("lab"));
    assert_eq!(p.mac, Some(mac("02:00:00:00:00:01")));
    assert_eq!(p.ip, Some(ip(192, 168, 124, 10)));
}

#[test]
fn port_detach_clears_attachment_keeps_socket() {
    let mut p = Port::new("vm1", "/run/user/1000/k8snet/vm1.sock").unwrap();
    p.attach("lab", mac("02:00:00:00:00:01"), ip(192, 168, 124, 10));
    p.detach();
    assert_eq!(p.network, None);
    assert_eq!(p.mac, None);
    assert_eq!(p.ip, None);
    assert_eq!(p.socket_path, "/run/user/1000/k8snet/vm1.sock");
}

#[test]
fn port_reattach_after_detach() {
    let mut p = Port::new("vm1", "/run/user/1000/k8snet/vm1.sock").unwrap();
    p.attach("lab", mac("02:00:00:00:00:01"), ip(192, 168, 124, 10));
    p.detach();
    p.attach("other", mac("02:00:00:00:00:02"), ip(192, 168, 124, 11));
    assert_eq!(p.network.as_deref(), Some("other"));
    assert_eq!(p.mac, Some(mac("02:00:00:00:00:02")));
    assert_eq!(p.ip, Some(ip(192, 168, 124, 11)));
}

#[test]
fn mac_parses_valid() {
    let m: MacAddr = "02:00:00:00:00:01".parse().unwrap();
    assert_eq!(m.to_string(), "02:00:00:00:00:01");
}

#[test]
fn mac_rejects_too_short() {
    assert!("02:00:00:00:00".parse::<MacAddr>().is_err());
}

#[test]
fn mac_rejects_too_long() {
    assert!("02:00:00:00:00:01:02".parse::<MacAddr>().is_err());
}

#[test]
fn mac_rejects_non_hex() {
    assert!("zz:00:00:00:00:01".parse::<MacAddr>().is_err());
}

#[test]
fn mac_rejects_empty() {
    assert!("".parse::<MacAddr>().is_err());
}

#[test]
fn mac_display_round_trip() {
    let m: MacAddr = "02:00:00:00:00:01".parse().unwrap();
    let again: MacAddr = m.to_string().parse().unwrap();
    assert_eq!(m, again);
}

#[test]
fn allocation_binds_ip_to_mac() {
    let a = Allocation {
        network: "lab".to_string(),
        mac: mac("02:00:00:00:00:01"),
        ip: ip(192, 168, 124, 10),
    };
    assert_eq!(a.network, "lab");
    assert_eq!(a.mac, mac("02:00:00:00:00:01"));
    assert_eq!(a.ip, ip(192, 168, 124, 10));
}

#[test]
fn dhcp_lease_records_fields() {
    let l = DhcpLease {
        mac: mac("02:00:00:00:00:01"),
        ip: ip(192, 168, 124, 10),
        lease_seconds: 3600,
    };
    assert_eq!(l.mac, mac("02:00:00:00:00:01"));
    assert_eq!(l.ip, ip(192, 168, 124, 10));
    assert_eq!(l.lease_seconds, 3600);
}


#[test]
fn refusals_tell_what_is_wrong() {
    let pool = |a: Ipv4Addr, b: Ipv4Addr| IpPool::new(a, b).unwrap();
    let refused = |name: &str, cidr: &str, gateway: &str, p: IpPool| Network::new(name, cidr, gateway, p).unwrap_err();
    let (cidr, gw) = ("192.168.124.0/24", "192.168.124.1");
    assert_eq!(refused("\u{2003}", "x", "x", lab_pool()), ModelError::BlankName);
    assert_eq!(refused("lab", "192.168.124.0/024", gw, lab_pool()), ModelError::InvalidCidr);
    assert_eq!(refused("lab", cidr, "192.168.124.01", lab_pool()), ModelError::InvalidGateway);
    assert_eq!(refused("lab", cidr, "10.0.0.1", lab_pool()), ModelError::GatewayOutsideCidr);
    assert_eq!(
        refused("lab", cidr, gw, pool(ip(192, 168, 124, 10), ip(192, 168, 125, 1))),
        ModelError::PoolOutsideCidr
    );
    assert_eq!(
        refused("lab", cidr, gw, pool(ip(192, 168, 124, 0), ip(192, 168, 124, 10))),
        ModelError::PoolContainsGateway
    );
    assert_eq!(
        IpPool::new(ip(10, 0, 0, 2), ip(10, 0, 0, 1)),
        Err(ModelError::ReversedPool)
    );
}

#[test]
fn networks_of_every_length() {
    let all: Ipv4Cidr = "0.0.0.0/0".parse().unwrap();
    assert!(all.contains(ip(255, 255, 255, 255)));
    assert_eq!(all.netmask(), ip(0, 0, 0, 0));
    let one: Ipv4Cidr = "10.1.2.3/32".parse().unwrap();
    assert!(one.contains(ip(10, 1, 2, 3)));
    assert!(!one.contains(ip(10, 1, 2, 4)));
    assert_eq!(one.netmask(), ip(255, 255, 255, 255));
    let c: Ipv4Cidr = "172.16.0.0/12".parse().unwrap();
    assert_eq!(c.netmask(), ip(255, 240, 0, 0));
    assert!(c.contains(ip(172, 31, 255, 255)));
    assert!(!c.contains(ip(172, 32, 0, 0)));
    assert_eq!(c.prefix(), 12);
    assert_eq!(c.addr(), ip(172, 16, 0, 0));
}

#[test]
fn addresses_are_written_in_one_way() {
    for good in ["0.0.0.0", "255.255.255.255", "1.20.30.4"] {
        assert_eq!(good.parse::<Ipv4Addr>().unwrap().to_string(), good);
    }
    for bad in ["", "1.2.3", "1.2.3.4.5", "256.0.0.1", "01.2.3.4", "1.2.3.4 ", "+1.2.3.4", "1..2.3"] {
        assert!(bad.parse::<Ipv4Addr>().is_err(), "{bad:?}");
    }
    assert_eq!(mac("AA:bb:Cc:00:01:fF").to_string(), "aa:bb:cc:00:01:ff");
    assert_eq!(mac("AA:bb:Cc:00:01:fF").to_plain_string(), "aabbcc0001ff");
}

#[test]
fn forwards_are_published_on_the_lowest_free_host_port() {
    let mut t = PublishTable::default();
    let range = (100, 102);
    assert_eq!(t.allocate("a", 1, range), Some(100));
    assert_eq!(t.allocate("b", 1, range), Some(101));
    assert_eq!(t.allocate("a", 1, range), Some(100), "a pair keeps its host port");
    assert_eq!(t.allocate("a", 2, range), Some(102));
    assert_eq!(t.allocate("c", 1, range), None);
    assert_eq!(t.forwards("a"), vec![(1, 100), (2, 102)]);
    assert_eq!(t.remove("a", 1), Some(100));
    assert_eq!(t.remove("a", 1), None);
    assert!(!t.host_in_use(100));
    assert_eq!(t.allocate("c", 1, range), Some(100));
    t.remove_port("a");
    assert_eq!(t.get("a", 2), None);
    assert_eq!(t.get("b", 1), Some(101));
    assert_eq!(t.forwards("a"), vec![]);
    assert_eq!(t.allocate("d", 1, (65535, 65535)), Some(65535));
    assert_eq!(t.allocate("d", 2, (65535, 65535)), None);
    assert_eq!(t.allocate("d", 3, (5, 4)), None, "a reversed range is empty");
}

#[test]
fn network_rejects_reversed_pool() {
    let reversed = IpPool { start: ip(192, 168, 124, 20), end: ip(192, 168, 124, 10) };
    assert_eq!(
        Network::new("lab", "192.168.124.0/24", "192.168.124.1", reversed).err(),
        Some(ModelError::ReversedPool)
    );
}
