//! The control plane and its routing.

use std::collections::BTreeMap;

use k8netd::json::{Number, Value};
use k8netd::names::NameMap;
use k8netd::protocol::{RawRequest, Request, Response, RpcError};
use k8netd::server::{ControlPlane, MemoryControlPlane, Operation, Router};
use k8netd::state::{StateSnapshot, StateStore};

fn string(s: &str) -> Value {
    Value::String(s.to_string())
}

fn number(n: u64) -> Value {
    Value::Number(Number::PosInt(n))
}

fn object(pairs: &[(&str, Value)]) -> Value {
    let mut m = NameMap::new();
    for (k, v) in pairs {
        m.insert(k.to_string(), v.clone());
    }
    Value::object(m)
}

fn words(pairs: &[(&str, &str)]) -> Value {
    let pairs: Vec<(&str, Value)> = pairs.iter().map(|(k, v)| (*k, string(v))).collect();
    object(&pairs)
}

fn code(resp: &Response) -> Option<&'static str> {
    resp.error.map(|e| e.code())
}

fn router() -> Router<MemoryControlPlane> {
    Router::new(MemoryControlPlane::new())
}

fn net_params(cidr: &str) -> Value {
    words(&[
        ("name", "net0"),
        ("cidr", cidr),
        ("gateway", "192.168.124.1"),
        ("poolStart", "192.168.124.100"),
        ("poolEnd", "192.168.124.200"),
    ])
}

fn ask(r: &mut Router<MemoryControlPlane>, method: &str, params: Value) -> Response {
    r.dispatch(Request::new(method, Some(params), number(1)))
}

fn create_net(r: &mut Router<MemoryControlPlane>, cidr: &str) -> Response {
    ask(r, "CreateNetwork", net_params(cidr))
}

#[test]
fn unknown_method_is_method_not_found() {
    let mut r = router();
    let resp = r.dispatch(Request::new("Nope", None, number(7)));
    assert_eq!(code(&resp), Some("method_not_found"));
    assert_eq!(resp.id, number(7));
}

#[test]
fn missing_params_is_invalid_params() {
    let mut r = router();
    let resp = ask(&mut r, "CreateNetwork", words(&[("name", "x")]));
    assert_eq!(code(&resp), Some("invalid_params"));
}

#[test]
fn create_network_idempotency_semantics() {
    let mut r = router();
    assert!(create_net(&mut r, "192.168.124.0/24").error.is_none());
    assert!(create_net(&mut r, "192.168.124.0/24").error.is_none());
    let resp = create_net(&mut r, "10.0.0.0/24");
    assert_eq!(code(&resp), Some("conflict"));
}

#[test]
fn get_network_round_trip_and_not_found() {
    let mut r = router();
    create_net(&mut r, "192.168.124.0/24");
    let resp = ask(&mut r, "GetNetwork", words(&[("name", "net0")]));
    let shown = resp.result.unwrap();
    assert_eq!(shown.get("cidr"), Some(&string("192.168.124.0/24")));
    assert_eq!(shown.get("name"), Some(&string("net0")));
    assert_eq!(shown.get("gateway"), Some(&string("192.168.124.1")));
    let resp = ask(&mut r, "GetNetwork", words(&[("name", "zz")]));
    assert_eq!(code(&resp), Some("not_found"));
}

#[test]
fn delete_network_lifecycle() {
    let mut r = router();
    create_net(&mut r, "192.168.124.0/24");
    let del = || Request::new("DeleteNetwork", Some(words(&[("name", "net0")])), number(4));
    assert!(r.dispatch(del()).error.is_none());
    assert_eq!(code(&r.dispatch(del())), Some("not_found"));
}

#[test]
fn create_network_key_order_insensitive_equality() {
    let mut r = router();
    let a = words(&[
        ("name", "n"),
        ("cidr", "10.0.0.0/24"),
        ("gateway", "10.0.0.1"),
        ("poolStart", "10.0.0.10"),
        ("poolEnd", "10.0.0.20"),
    ]);
    let b = words(&[
        ("poolEnd", "10.0.0.20"),
        ("poolStart", "10.0.0.10"),
        ("gateway", "10.0.0.1"),
        ("cidr", "10.0.0.0/24"),
        ("name", "n"),
    ]);
    assert_eq!(a, b, "equality ignores object key order");
    assert!(ask(&mut r, "CreateNetwork", a).error.is_none());
    assert!(ask(&mut r, "CreateNetwork", b).error.is_none());
}

#[test]
fn port_recreate_after_delete_is_fresh() {
    let mut r = router();
    ask(&mut r, "CreatePort", words(&[("name", "p")]));
    ask(&mut r, "DeletePort", words(&[("name", "p")]));
    assert!(ask(&mut r, "CreatePort", words(&[("name", "p")])).error.is_none());
    let got = ask(&mut r, "GetPort", words(&[("name", "p")]));
    let port = got.result.unwrap();
    assert_eq!(port.get("network"), Some(&Value::Null), "fresh port starts detached");
}

#[test]
fn create_port_idempotent_delete_not_found() {
    let mut r = router();
    let mk = Request::new("CreatePort", Some(words(&[("name", "vm-a")])), number(5));
    assert!(r.dispatch(mk.clone()).error.is_none());
    assert!(r.dispatch(mk).error.is_none());
    let del = Request::new("DeletePort", Some(words(&[("name", "vm-a")])), number(6));
    assert!(r.dispatch(del.clone()).error.is_none());
    assert_eq!(code(&r.dispatch(del)), Some("not_found"));
}

#[test]
fn attach_detach_transitions() {
    let mut r = router();
    create_net(&mut r, "192.168.124.0/24");
    ask(&mut r, "CreatePort", words(&[("name", "p1")]));

    let attach = |r: &mut Router<MemoryControlPlane>| {
        ask(
            r,
            "AttachPort",
            words(&[("port", "p1"), ("network", "net0"), ("mac", "02:00:00:00:00:01")]),
        )
    };
    assert!(attach(&mut r).error.is_none());
    assert!(attach(&mut r).error.is_none(), "re-attach is idempotent");

    ask(
        &mut r,
        "CreateNetwork",
        words(&[
            ("name", "net1"),
            ("cidr", "10.0.0.0/24"),
            ("gateway", "10.0.0.1"),
            ("poolStart", "10.0.0.10"),
            ("poolEnd", "10.0.0.20"),
        ]),
    );
    let resp = ask(
        &mut r,
        "AttachPort",
        words(&[("port", "p1"), ("network", "net1"), ("mac", "02:00:00:00:00:01")]),
    );
    assert_eq!(code(&resp), Some("conflict"));

    let resp = ask(
        &mut r,
        "AttachPort",
        words(&[("port", "ghost"), ("network", "net0"), ("mac", "02:00:00:00:00:09")]),
    );
    assert_eq!(code(&resp), Some("not_found"));

    assert!(ask(&mut r, "DetachPort", words(&[("name", "p1")])).error.is_none());
    let got = ask(&mut r, "GetPort", words(&[("name", "p1")]));
    let port = got.result.unwrap();
    assert_eq!(port.get("network"), Some(&Value::Null));
    assert_eq!(port.get("name"), Some(&string("p1")));
}

#[test]
fn allocate_release_ip_semantics() {
    let mut r = router();
    create_net(&mut r, "192.168.124.0/24");
    let alloc = |r: &mut Router<MemoryControlPlane>, mac: &str| {
        ask(r, "AllocateIP", words(&[("network", "net0"), ("mac", mac)]))
    };
    let ip_of = |resp: Response| resp.result.unwrap().as_str().unwrap().to_string();
    let ip1 = ip_of(alloc(&mut r, "02:00:00:00:00:01"));
    let ip2 = ip_of(alloc(&mut r, "02:00:00:00:00:02"));
    assert_ne!(ip1, ip2, "distinct MACs get distinct IPs");
    let again = ip_of(alloc(&mut r, "02:00:00:00:00:01"));
    assert_eq!(again, ip1);

    let rel = |r: &mut Router<MemoryControlPlane>, mac: &str| {
        ask(r, "ReleaseIP", words(&[("network", "net0"), ("mac", mac)]))
    };
    assert!(rel(&mut r, "02:00:00:00:00:01").error.is_none());
    assert_eq!(code(&rel(&mut r, "02:00:00:00:00:01")), Some("not_found"));
    let resp = ask(
        &mut r,
        "AllocateIP",
        words(&[("network", "zz"), ("mac", "02:00:00:00:00:01")]),
    );
    assert_eq!(code(&resp), Some("not_found"));
}

#[test]
fn malformed_input_yields_parse_error_response() {
    let mut r = router();
    let resp = r.answer(None);
    assert_eq!(code(&resp), Some("parse_error"));
    assert_eq!(resp.id, Value::Null);
}

#[test]
fn a_connection_is_answered_with_its_identifier() {
    let mut r = router();
    create_net(&mut r, "192.168.124.0/24");
    let raw = RawRequest {
        jsonrpc: Some("2.0".to_string()),
        version: Some("1.0".to_string()),
        method: Some("GetNetwork".to_string()),
        params: Some(words(&[("name", "net0")])),
        id: Some(string("abc")),
    };
    let resp = r.answer(Some(raw));
    assert_eq!(resp.id, string("abc"));
    assert_eq!(resp.result.unwrap().get("gateway"), Some(&string("192.168.124.1")));
}

fn pub_req(port: &str, vm_port: u16, id: u64) -> Request {
    Request::new(
        "PublishPort",
        Some(object(&[("port", string(port)), ("vm_port", number(vm_port as u64))])),
        number(id),
    )
}

fn attached_port(r: &mut Router<MemoryControlPlane>, name: &str, mac: &str) {
    create_net(r, "192.168.124.0/24");
    ask(r, "CreatePort", words(&[("name", name)]));
    let resp = ask(
        r,
        "AttachPort",
        words(&[("port", name), ("network", "net0"), ("mac", mac)]),
    );
    assert!(resp.error.is_none(), "setup: attach of {name} must succeed");
}

fn host_port_of(resp: Response) -> u16 {
    resp.result.unwrap().get("host_port").unwrap().as_u64().unwrap() as u16
}

#[test]
fn publish_port_idempotent_same_params_same_host_port() {
    let mut r = router();
    attached_port(&mut r, "vm1", "02:00:00:00:00:01");
    let first = host_port_of(r.dispatch(pub_req("vm1", 6443, 1)));
    let again = host_port_of(r.dispatch(pub_req("vm1", 6443, 2)));
    assert_eq!(first, again, "identical re-publish must return the same host_port");
    assert!(
        (20000..=21000).contains(&first),
        "allocation must come from the default range"
    );
    assert_eq!(first, 20000, "the lowest free host port");
}

#[test]
fn publish_port_distinct_vm_port_gets_distinct_host_port() {
    let mut r = router();
    attached_port(&mut r, "vm1", "02:00:00:00:00:01");
    let api = host_port_of(r.dispatch(pub_req("vm1", 6443, 1)));
    let ssh = host_port_of(r.dispatch(pub_req("vm1", 22, 2)));
    assert_ne!(api, ssh, "distinct vm_ports must get distinct host_ports");
    assert!((20000..=21000).contains(&api));
    assert!((20000..=21000).contains(&ssh));
}

#[test]
fn publish_port_unknown_port_is_error() {
    let mut r = router();
    let resp = r.dispatch(pub_req("ghost", 6443, 1));
    assert_eq!(code(&resp), Some("not_found"));
}

#[test]
fn publish_port_unattached_port_is_error() {
    let mut r = router();
    ask(&mut r, "CreatePort", words(&[("name", "lonely")]));
    let resp = r.dispatch(pub_req("lonely", 6443, 2));
    assert_eq!(code(&resp), Some("not_found"), "unattached port");

    attached_port(&mut r, "vm1", "02:00:00:00:00:01");
    assert!(r.dispatch(pub_req("vm1", 6443, 3)).error.is_none());
    ask(&mut r, "DetachPort", words(&[("name", "vm1")]));
    let resp = r.dispatch(pub_req("vm1", 6443, 5));
    assert_eq!(code(&resp), Some("not_found"), "detached port");
}

#[test]
fn publish_range_exhaustion_typed_error_no_partial_state() {
    let mut r = Router::new(MemoryControlPlane::with_publish_range(20000, 20001));
    attached_port(&mut r, "vm1", "02:00:00:00:00:01");
    attached_port(&mut r, "vm2", "02:00:00:00:00:02");
    attached_port(&mut r, "vm3", "02:00:00:00:00:03");
    assert!(r.dispatch(pub_req("vm1", 6443, 1)).error.is_none());
    assert!(r.dispatch(pub_req("vm2", 6443, 2)).error.is_none());

    let resp = r.dispatch(pub_req("vm3", 6443, 3));
    assert_eq!(
        code(&resp),
        Some("conflict"),
        "exhaustion must surface as the typed conflict code"
    );

    ask(&mut r, "DetachPort", words(&[("name", "vm1")]));
    let got = r.dispatch(pub_req("vm3", 6443, 5));
    assert!(got.error.is_none(), "failed publish must not leak a reservation");
    let hp = host_port_of(got);
    assert!((20000..=20001).contains(&hp));
    assert_eq!(
        host_port_of(r.dispatch(pub_req("vm3", 6443, 6))),
        hp,
        "still idempotent"
    );
}

#[test]
fn detach_port_frees_allocations() {
    let mut r = Router::new(MemoryControlPlane::with_publish_range(20000, 20002));
    attached_port(&mut r, "vm1", "02:00:00:00:00:01");
    attached_port(&mut r, "vm2", "02:00:00:00:00:02");
    attached_port(&mut r, "vm3", "02:00:00:00:00:03");
    attached_port(&mut r, "vm4", "02:00:00:00:00:04");
    assert!(r.dispatch(pub_req("vm1", 6443, 1)).error.is_none());
    assert!(r.dispatch(pub_req("vm1", 22, 2)).error.is_none());
    assert!(r.dispatch(pub_req("vm2", 6443, 3)).error.is_none());
    assert_eq!(
        code(&r.dispatch(pub_req("vm3", 6443, 4))),
        Some("conflict"),
        "range is full"
    );

    ask(&mut r, "DetachPort", words(&[("name", "vm1")]));
    assert!(r.dispatch(pub_req("vm3", 6443, 6)).error.is_none());
    assert!(r.dispatch(pub_req("vm3", 22, 7)).error.is_none());
    assert_eq!(
        code(&r.dispatch(pub_req("vm4", 6443, 8))),
        Some("conflict"),
        "only the detached port's allocations may be freed"
    );
}

#[test]
fn delete_port_frees_allocations() {
    let mut r = Router::new(MemoryControlPlane::with_publish_range(20000, 20001));
    attached_port(&mut r, "vm1", "02:00:00:00:00:01");
    attached_port(&mut r, "vm2", "02:00:00:00:00:02");
    attached_port(&mut r, "vm3", "02:00:00:00:00:03");
    assert!(r.dispatch(pub_req("vm1", 6443, 1)).error.is_none());
    assert!(r.dispatch(pub_req("vm2", 6443, 2)).error.is_none());
    assert_eq!(code(&r.dispatch(pub_req("vm3", 6443, 3))), Some("conflict"));

    ask(&mut r, "DeletePort", words(&[("name", "vm1")]));
    assert!(
        r.dispatch(pub_req("vm3", 6443, 5)).error.is_none(),
        "deleted port's allocation must be reclaimed"
    );
}

#[test]
fn publish_allocations_persist_across_restart() {
    let mut r = router();
    attached_port(&mut r, "vm1", "02:00:00:00:00:01");
    let h1 = host_port_of(r.dispatch(pub_req("vm1", 6443, 1)));

    let mut store = StateStore::default();
    store
        .publish_table
        .entries
        .insert("vm1".to_string(), BTreeMap::from([(6443u16, h1)]));

    let restored = StateSnapshot::from_store(&store).restore().unwrap();
    assert_eq!(
        restored.publish_table.entries.get("vm1").unwrap()[&6443],
        h1,
        "publish table must survive the round trip"
    );
    let mut r2 = Router::new(MemoryControlPlane::from_store(restored));
    attached_port(&mut r2, "vm1", "02:00:00:00:00:01");
    let h2 = host_port_of(r2.dispatch(pub_req("vm1", 6443, 2)));
    assert_eq!(h1, h2, "restored allocator must honor persisted allocations");
}

#[test]
fn restored_allocations_block_others() {
    let mut store = StateStore::default();
    store
        .publish_table
        .entries
        .insert("gone".to_string(), BTreeMap::from([(80u16, 20000u16)]));
    let mut r = Router::new(MemoryControlPlane::from_store(store));
    attached_port(&mut r, "vm1", "02:00:00:00:00:01");
    assert_eq!(host_port_of(r.dispatch(pub_req("vm1", 6443, 1))), 20001);
    ask(&mut r, "DeletePort", words(&[("name", "gone")]));
    assert_eq!(
        host_port_of(r.dispatch(pub_req("vm1", 22, 2))),
        20000,
        "what is published under a name is withdrawn, whether there is such a port or not"
    );
}

#[test]
fn unpublish_withdraws_one_pair() {
    let mut r = router();
    attached_port(&mut r, "vm1", "02:00:00:00:00:01");
    r.dispatch(pub_req("vm1", 6443, 1));
    let params = object(&[("port", string("vm1")), ("vm_port", number(6443))]);
    let resp = ask(&mut r, "UnpublishPort", params.clone());
    assert_eq!(resp.result, Some(Value::Null));
    assert_eq!(code(&ask(&mut r, "UnpublishPort", params)), Some("not_found"));
}

#[test]
fn ports_outside_sixteen_bits_are_invalid() {
    let mut r = router();
    attached_port(&mut r, "vm1", "02:00:00:00:00:01");
    for bad in [number(65536), string("6443"), Value::Number(Number::NegInt(-1)), Value::Null] {
        let params = object(&[("port", string("vm1")), ("vm_port", bad)]);
        assert_eq!(code(&ask(&mut r, "PublishPort", params)), Some("invalid_params"));
    }
    assert_eq!(host_port_of(r.dispatch(pub_req("vm1", 65535, 9))), 20000);
}

#[test]
fn attachment_reserves_the_address_that_is_shown() {
    let mut r = router();
    attached_port(&mut r, "vm1", "02:00:00:00:00:AB");
    let port = ask(&mut r, "GetPort", words(&[("name", "vm1")])).result.unwrap();
    assert_eq!(port.get("ip"), Some(&string("192.168.124.100")));
    assert_eq!(port.get("mac"), Some(&string("02:00:00:00:00:ab")));
    assert_eq!(port.get("network"), Some(&string("net0")));
    let ip = ask(
        &mut r,
        "AllocateIP",
        words(&[("network", "net0"), ("mac", "02:00:00:00:00:ab")]),
    );
    assert_eq!(ip.result, Some(string("192.168.124.100")));
}

#[test]
fn an_exhausted_pool_is_a_conflict() {
    let mut r = router();
    ask(
        &mut r,
        "CreateNetwork",
        words(&[
            ("name", "tiny"),
            ("cidr", "10.0.0.0/24"),
            ("gateway", "10.0.0.1"),
            ("poolStart", "10.0.0.10"),
            ("poolEnd", "10.0.0.10"),
        ]),
    );
    let mut alloc = |mac: &str| ask(&mut r, "AllocateIP", words(&[("network", "tiny"), ("mac", mac)]));
    assert_eq!(alloc("02:00:00:00:00:01").result, Some(string("10.0.0.10")));
    assert_eq!(code(&alloc("02:00:00:00:00:02")), Some("conflict"));
    assert_eq!(code(&alloc("nonsense")), Some("invalid_params"));
}

#[test]
fn networks_that_cannot_be_are_invalid() {
    let base = [
        ("name", "n"),
        ("cidr", "10.0.0.0/24"),
        ("gateway", "10.0.0.1"),
        ("poolStart", "10.0.0.10"),
        ("poolEnd", "10.0.0.20"),
    ];
    let bad = [
        ("name", " "),
        ("cidr", "10.0.0.1/24"),
        ("gateway", "10.0.1.1"),
        ("gateway", "10.0.0.15"),
        ("poolStart", "10.0.0.21"),
        ("poolStart", "x"),
        ("poolEnd", "10.0.1.20"),
        ("poolEnd", ""),
    ];
    for (key, value) in bad {
        let mut r = router();
        let params: Vec<(&str, &str)> = base
            .iter()
            .map(|(k, v)| if *k == key { (*k, value) } else { (*k, *v) })
            .collect();
        assert_eq!(
            code(&ask(&mut r, "CreateNetwork", words(&params))),
            Some("invalid_params"),
            "{key}={value:?}"
        );
    }
}

#[test]
fn blank_ports_are_invalid() {
    let mut r = router();
    assert_eq!(
        code(&ask(&mut r, "CreatePort", words(&[("name", "  ")]))),
        Some("invalid_params")
    );
    assert_eq!(code(&ask(&mut r, "GetPort", words(&[("name", "  ")]))), Some("not_found"));
    assert_eq!(code(&ask(&mut r, "GetPort", Value::Null)), Some("invalid_params"));
}

#[test]
fn methods_have_their_operations() {
    assert_eq!(Operation::named("AllocateIP"), Some(Operation::AllocateIp));
    assert_eq!(Operation::named("ReleaseIP"), Some(Operation::ReleaseIp));
    assert_eq!(Operation::named("UnpublishPort"), Some(Operation::UnpublishPort));
    assert_eq!(Operation::named("allocateip"), None);
}

#[test]
fn the_control_plane_can_be_used_directly() {
    let mut r = router();
    let plane = r.control_plane();
    assert_eq!(plane.create_port(&words(&[("name", "p")])), Ok(Value::Null));
    assert_eq!(
        plane.detach_port(&words(&[("name", "q")])),
        Err(RpcError::NotFound)
    );
    assert!(ask(&mut r, "GetPort", words(&[("name", "p")])).error.is_none());
}
