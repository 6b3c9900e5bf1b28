//! The table of learned addresses.

use k8netd::model::MacAddr;
use k8netd::switch::mac_table::{MacTable, PortId};

fn mac(s: &str) -> MacAddr {
    s.parse().unwrap()
}

#[test]
fn learn_then_lookup_returns_port() {
    let mut table = MacTable::new(16);
    table.learn(PortId(1), mac("02:00:00:00:00:01"));
    assert_eq!(table.lookup(mac("02:00:00:00:00:01")), Some(PortId(1)));
}

#[test]
fn learn_multiple_macs_per_port() {
    let mut table = MacTable::new(16);
    table.learn(PortId(1), mac("02:00:00:00:00:01"));
    table.learn(PortId(1), mac("02:00:00:00:00:02"));
    assert_eq!(table.lookup(mac("02:00:00:00:00:01")), Some(PortId(1)));
    assert_eq!(table.lookup(mac("02:00:00:00:00:02")), Some(PortId(1)));
    assert_eq!(table.len(), 2);
}

#[test]
fn learn_same_mac_new_port_updates_mapping() {
    let mut table = MacTable::new(16);
    table.learn(PortId(1), mac("02:00:00:00:00:01"));
    table.learn(PortId(2), mac("02:00:00:00:00:01"));
    assert_eq!(table.lookup(mac("02:00:00:00:00:01")), Some(PortId(2)));
    assert_eq!(table.len(), 1);
}

#[test]
fn relearn_same_mac_same_port_keeps_len() {
    let mut table = MacTable::new(16);
    table.learn(PortId(1), mac("02:00:00:00:00:01"));
    table.learn(PortId(1), mac("02:00:00:00:00:01"));
    assert_eq!(table.len(), 1);
}

#[test]
fn learn_zero_mac_is_stored() {
    let mut table = MacTable::new(16);
    table.learn(PortId(1), mac("00:00:00:00:00:00"));
    assert_eq!(table.lookup(mac("00:00:00:00:00:00")), Some(PortId(1)));
}

#[test]
fn new_table_is_empty() {
    let table = MacTable::new(16);
    assert!(table.is_empty());
    assert_eq!(table.len(), 0);
}

#[test]
fn lookup_absent_mac_returns_none() {
    let table = MacTable::new(16);
    assert_eq!(table.lookup(mac("02:00:00:00:00:01")), None);
}

#[test]
fn lookup_after_evict_returns_none() {
    let mut table = MacTable::new(16);
    table.learn(PortId(1), mac("02:00:00:00:00:01"));
    table.evict(mac("02:00:00:00:00:01"));
    assert_eq!(table.lookup(mac("02:00:00:00:00:01")), None);
}

#[test]
fn evict_removes_entry() {
    let mut table = MacTable::new(16);
    table.learn(PortId(1), mac("02:00:00:00:00:01"));
    assert!(table.evict(mac("02:00:00:00:00:01")));
    assert!(table.is_empty());
}

#[test]
fn evict_absent_mac_returns_false() {
    let mut table = MacTable::new(16);
    assert!(!table.evict(mac("02:00:00:00:00:01")));
}

#[test]
fn evict_then_relearn_works() {
    let mut table = MacTable::new(16);
    table.learn(PortId(1), mac("02:00:00:00:00:01"));
    table.evict(mac("02:00:00:00:00:01"));
    table.learn(PortId(2), mac("02:00:00:00:00:01"));
    assert_eq!(table.lookup(mac("02:00:00:00:00:01")), Some(PortId(2)));
}

#[test]
fn capacity_full_evicts_oldest() {
    let mut table = MacTable::new(2);
    table.learn(PortId(1), mac("02:00:00:00:00:01"));
    table.learn(PortId(2), mac("02:00:00:00:00:02"));
    table.learn(PortId(3), mac("02:00:00:00:00:03"));
    assert_eq!(table.lookup(mac("02:00:00:00:00:01")), None);
    assert_eq!(table.lookup(mac("02:00:00:00:00:02")), Some(PortId(2)));
    assert_eq!(table.lookup(mac("02:00:00:00:00:03")), Some(PortId(3)));
    assert_eq!(table.len(), 2);
}

#[test]
fn relearn_refreshes_recency() {
    let mut table = MacTable::new(2);
    table.learn(PortId(1), mac("02:00:00:00:00:01"));
    table.learn(PortId(2), mac("02:00:00:00:00:02"));
    table.learn(PortId(1), mac("02:00:00:00:00:01"));
    table.learn(PortId(3), mac("02:00:00:00:00:03"));
    assert_eq!(table.lookup(mac("02:00:00:00:00:01")), Some(PortId(1)));
    assert_eq!(table.lookup(mac("02:00:00:00:00:02")), None);
    assert_eq!(table.lookup(mac("02:00:00:00:00:03")), Some(PortId(3)));
}

#[test]
fn zero_capacity_table_drops_all_learns() {
    let mut table = MacTable::new(0);
    table.learn(PortId(1), mac("02:00:00:00:00:01"));
    assert!(table.is_empty());
    assert_eq!(table.lookup(mac("02:00:00:00:00:01")), None);
}
