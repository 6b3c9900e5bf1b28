//! The dataplane, with a host that does what it plans.

use std::collections::BTreeMap;
use std::sync::{Arc, Mutex};

use k8netd::dataplane::control::PortCreation;
use k8netd::dataplane::pump::{Delivery, DHCP_CLIENT_PORT, DHCP_SERVER_PORT};
use k8netd::dataplane::wan::PasstPlan;
use k8netd::dataplane::{Dataplane, Plan, Step};
use k8netd::dns::{UpstreamError, UpstreamSender};
use k8netd::json::{Number, Value};
use k8netd::model::{Ipv4Addr, MacAddr, PublishTable};
use k8netd::names::NameMap;
use k8netd::packet::{
    inet_checksum, parse_ipv4, wrap_udp_reply, ICMP_ECHO_REPLY, ICMP_ECHO_REQUEST, IPPROTO_ICMP,
};
use k8netd::passt::{decode_frame, passt_argv, restart_backoff};
use k8netd::protocol::RpcError;
use k8netd::state::{NetworkState, PortState, StateStore};
use k8netd::switch::gateway::ETHERTYPE_IPV4;
use k8netd::switch::mac_table::PortId;

const GW_MAC: [u8; 6] = [0x02, 0x00, 0xc0, 0xa8, 0x7c, 0x01];
const VM_MAC: [u8; 6] = [0x02, 0x00, 0x00, 0x00, 0x00, 0x09];
const PEER_MAC: [u8; 6] = [0x02, 0x00, 0x00, 0x00, 0x00, 0x0a];
const GW_IP: [u8; 4] = [192, 168, 124, 1];

// -- the host -----------------------------------------------------------------

/// A host that does what the dataplane plans, and records it.
struct Host {
    dp: Dataplane,
    started: Vec<Vec<String>>,
    stopped: usize,
    saved: Vec<StateStore>,
    pinned: Vec<(String, MacAddr)>,
    removed: Vec<String>,
    broken: bool,
    now: u64,
}

fn string(s: &str) -> Value {
    Value::String(s.to_string())
}

fn words(pairs: &[(&str, &str)]) -> Value {
    let mut m = NameMap::new();
    for (k, v) in pairs {
        m.insert(k.to_string(), string(v));
    }
    Value::object(m)
}

fn pair(port: &str, vm_port: u16) -> Value {
    let mut m = NameMap::new();
    m.insert("port".to_string(), string(port));
    m.insert("vm_port".to_string(), Value::Number(Number::PosInt(vm_port as u64)));
    Value::object(m)
}

fn net_params() -> Value {
    words(&[
        ("name", "net0"),
        ("cidr", "192.168.124.0/24"),
        ("gateway", "192.168.124.1"),
        ("poolStart", "192.168.124.100"),
        ("poolEnd", "192.168.124.200"),
    ])
}

/// A dataplane that starts with nothing but what is published.
fn with_published(publish_table: PublishTable) -> Dataplane {
    let mut store = StateStore::default();
    store.publish_table = publish_table;
    Dataplane::new(&store)
}

impl Host {
    fn new() -> Host {
        Host {
            dp: Dataplane::new(&StateStore::default()),
            started: Vec::new(),
            stopped: 0,
            saved: Vec::new(),
            pinned: Vec::new(),
            removed: Vec::new(),
            broken: false,
            now: 0,
        }
    }

    fn run(&mut self, plan: Plan) -> Result<Value, RpcError> {
        for step in plan.steps {
            match step {
                Step::Persist => self.saved.push(self.dp.store()),
                Step::PinMac { port, mac } => self.pinned.push((port, mac)),
                Step::EnsurePasst { port, vm_ip, published } => {
                    match self.dp.ensure_passt(&port, &vm_ip, &published)? {
                        PasstPlan::Keep => {}
                        PasstPlan::Start { stop, config } => {
                            if stop {
                                self.stopped += 1;
                            }
                            if self.broken {
                                self.dp.passt_failed(&port, self.now);
                                return Err(RpcError::Internal);
                            }
                            self.started.push(passt_argv(&config, 7));
                            self.dp.passt_started(&port);
                        }
                    }
                }
                Step::StopPasst { port } => {
                    if self.dp.teardown_passt(&port) {
                        self.stopped += 1;
                    }
                }
                Step::RemoveSocket { port } => self.removed.push(port),
            }
        }
        plan.reply
    }

    fn create_network(&mut self, params: &Value) -> Result<Value, RpcError> {
        let plan = self.dp.create_network(params);
        self.run(plan)
    }

    fn create_port(&mut self, name: &str) -> Result<Value, RpcError> {
        match self.dp.create_port(&words(&[("name", name)]))? {
            PortCreation::Exists => Ok(Value::Null),
            PortCreation::Bind(name) => {
                let (_, plan) = self.dp.port_bound(&name);
                self.run(plan)
            }
        }
    }

    fn attach_port(&mut self, port: &str, network: &str, mac: &str) -> Result<Value, RpcError> {
        let plan = self
            .dp
            .attach_port(&words(&[("port", port), ("network", network), ("mac", mac)]));
        self.run(plan)
    }

    fn delete_port(&mut self, name: &str) -> Result<Value, RpcError> {
        let plan = self.dp.delete_port(&words(&[("name", name)]));
        self.run(plan)
    }

    fn detach_port(&mut self, name: &str) -> Result<Value, RpcError> {
        let plan = self.dp.detach_port(&words(&[("name", name)]));
        self.run(plan)
    }

    fn allocate_ip(&mut self, mac: &str) -> Result<Value, RpcError> {
        let plan = self.dp.allocate_ip(&words(&[("network", "net0"), ("mac", mac)]));
        self.run(plan)
    }

    fn publish(&mut self, port: &str, vm_port: u16) -> Result<u16, RpcError> {
        let plan = self.dp.publish_port(&pair(port, vm_port));
        let r = self.run(plan)?;
        Ok(r.get("host_port").unwrap().as_u64().unwrap() as u16)
    }

    fn unpublish(&mut self, port: &str, vm_port: u16) -> Result<Value, RpcError> {
        let plan = self.dp.unpublish_port(&pair(port, vm_port));
        self.run(plan)
    }
}

/// A host with net0 and one attached port, and the address reserved for it.
fn attached(port: &str, mac: &str) -> (Host, String) {
    let mut host = Host::new();
    host.create_network(&net_params()).unwrap();
    host.create_port(port).unwrap();
    host.attach_port(port, "net0", mac).unwrap();
    let ip = host.allocate_ip(mac).unwrap();
    (host, ip.as_str().expect("bare ip string").to_string())
}

// -- frames -------------------------------------------------------------------

fn eth_frame(dst: &[u8; 6], src: &[u8; 6], ethertype: u16, payload: &[u8]) -> Vec<u8> {
    let mut f = Vec::with_capacity(14 + payload.len());
    f.extend_from_slice(dst);
    f.extend_from_slice(src);
    f.extend_from_slice(&ethertype.to_be_bytes());
    f.extend_from_slice(payload);
    f
}

fn ipv4_header(src: [u8; 4], dst: [u8; 4], total_len: u16, proto: u8) -> Vec<u8> {
    let mut h = vec![0x45, 0x00];
    h.extend_from_slice(&total_len.to_be_bytes());
    h.extend_from_slice(&[0, 0]);
    h.extend_from_slice(&[0x40, 0]);
    h.push(64);
    h.push(proto);
    h.extend_from_slice(&[0, 0]);
    h.extend_from_slice(&src);
    h.extend_from_slice(&dst);
    h
}

fn udp_header(sport: u16, dport: u16, payload_len: usize) -> Vec<u8> {
    let mut h = Vec::with_capacity(8);
    h.extend_from_slice(&sport.to_be_bytes());
    h.extend_from_slice(&dport.to_be_bytes());
    h.extend_from_slice(&((8 + payload_len) as u16).to_be_bytes());
    h.extend_from_slice(&[0, 0]);
    h
}

fn ipv4_octets(s: &str) -> [u8; 4] {
    s.parse::<Ipv4Addr>().unwrap().octets()
}

fn dhcp_packet(msg_type: u8, xid: u32, mac: &[u8; 6], requested: Option<[u8; 4]>) -> Vec<u8> {
    let mut p = vec![0u8; 240];
    p[0] = 1;
    p[1] = 1;
    p[2] = 6;
    p[4..8].copy_from_slice(&xid.to_be_bytes());
    p[28..34].copy_from_slice(mac);
    p[236..240].copy_from_slice(&[0x63, 0x82, 0x53, 0x63]);
    p.extend_from_slice(&[53u8, 1, msg_type]);
    if let Some(ip) = requested {
        p.extend_from_slice(&[50u8, 4]);
        p.extend_from_slice(&ip);
    }
    p.push(255);
    p
}

fn udp_over_eth(
    dst: &[u8; 6],
    src_mac: &[u8; 6],
    src_ip: [u8; 4],
    dst_ip: [u8; 4],
    sport: u16,
    dport: u16,
    inner: &[u8],
) -> Vec<u8> {
    let udp = udp_header(sport, dport, inner.len());
    let ip = ipv4_header(src_ip, dst_ip, (20 + 8 + inner.len()) as u16, 17);
    let mut payload = ip;
    payload.extend_from_slice(&udp);
    payload.extend_from_slice(inner);
    eth_frame(dst, src_mac, 0x0800, &payload)
}

struct DhcpReply {
    msg_type: Option<u8>,
    yiaddr: [u8; 4],
    router: Option<[u8; 4]>,
    dns: Option<[u8; 4]>,
}

fn parse_dhcp_reply(frame: &[u8]) -> Option<DhcpReply> {
    if frame.len() < 14 + 20 + 8 + 240 {
        return None;
    }
    let ihl = usize::from(frame[14] & 0x0f) * 4;
    let dhcp = frame.get(14 + ihl + 8..)?;
    if dhcp.len() < 240 || dhcp[236..240] != [0x63, 0x82, 0x53, 0x63] {
        return None;
    }
    let yiaddr = [dhcp[16], dhcp[17], dhcp[18], dhcp[19]];
    let (mut msg_type, mut router, mut dns) = (None, None, None);
    let mut i = 240;
    while i + 2 <= dhcp.len() {
        let code = dhcp[i];
        if code == 0 || code == 255 {
            break;
        }
        let len = dhcp[i + 1] as usize;
        let val = dhcp.get(i + 2..i + 2 + len)?;
        match (code, len) {
            (53, 1) => msg_type = val.first().copied(),
            (3, 4) => router = Some([val[0], val[1], val[2], val[3]]),
            (6, 4) => dns = Some([val[0], val[1], val[2], val[3]]),
            _ => {}
        }
        i += 2 + len;
    }
    Some(DhcpReply {
        msg_type,
        yiaddr,
        router,
        dns,
    })
}

fn dns_query_bytes(id: u16) -> Vec<u8> {
    let mut q = Vec::new();
    q.extend_from_slice(&id.to_be_bytes());
    q.extend_from_slice(&[0x01, 0x00]);
    q.extend_from_slice(&[0, 1, 0, 0, 0, 0, 0, 0]);
    q.extend_from_slice(b"\x07example\x03com\x00");
    q.extend_from_slice(&[0, 1, 0, 1]);
    q
}

/// What the first port gets back for a frame that it sends.
fn answer(host: &mut Host, port: &str, frame: &[u8]) -> Vec<u8> {
    let d = host.dp.pump_frame(port, PortId(1), frame);
    assert_eq!(d.inject.len(), 1, "one frame");
    assert_eq!(d.inject[0].0, port, "for the port that asked");
    assert!(d.wan.is_none());
    d.inject[0].1.clone()
}

fn is_dropped(d: &Delivery) -> bool {
    d.inject.is_empty() && d.wan.is_none()
}

// -- the switch ---------------------------------------------------------------

#[test]
fn broadcast_floods_between_two_live_ports() {
    let mut host = Host::new();
    assert!(host.create_network(&net_params()).is_ok());
    host.create_port("vm1").unwrap();
    host.create_port("vm2").unwrap();
    host.attach_port("vm1", "net0", "02:00:00:00:00:01").unwrap();
    host.attach_port("vm2", "net0", "02:00:00:00:00:02").unwrap();

    let frame = vec![0xffu8; 60];
    let d = host.dp.pump_frame("vm1", PortId(1), &frame);
    assert_eq!(d.inject, vec![("vm2".to_string(), frame)], "broadcast must arrive intact at the peer");
    assert!(d.wan.is_none());
}

#[test]
fn detached_ports_get_no_frames() {
    let mut host = Host::new();
    host.create_network(&net_params()).unwrap();
    for (name, mac) in [("vm1", "02:00:00:00:00:01"), ("vm2", "02:00:00:00:00:02")] {
        host.create_port(name).unwrap();
        host.attach_port(name, "net0", mac).unwrap();
    }
    host.create_port("idle").unwrap();
    let frame = vec![0xffu8; 60];
    assert_eq!(host.dp.pump_frame("vm1", PortId(1), &frame).inject.len(), 1);
    host.detach_port("vm2").unwrap();
    assert!(is_dropped(&host.dp.pump_frame("vm1", PortId(1), &frame)));
    host.attach_port("vm2", "net0", "02:00:00:00:00:02").unwrap();
    assert_eq!(host.dp.pump_frame("vm1", PortId(1), &frame).inject.len(), 1);
}

#[test]
fn frames_stay_on_their_network() {
    let mut host = Host::new();
    host.create_network(&net_params()).unwrap();
    host.create_network(&words(&[
        ("name", "net1"),
        ("cidr", "10.0.0.0/24"),
        ("gateway", "10.0.0.1"),
        ("poolStart", "10.0.0.10"),
        ("poolEnd", "10.0.0.20"),
    ]))
    .unwrap();
    for (name, net, mac) in [
        ("a", "net0", "02:00:00:00:00:01"),
        ("b", "net0", "02:00:00:00:00:02"),
        ("c", "net1", "02:00:00:00:00:03"),
    ] {
        host.create_port(name).unwrap();
        host.attach_port(name, net, mac).unwrap();
    }
    let frame = vec![0xffu8; 60];
    let d = host.dp.pump_frame("a", PortId(1), &frame);
    assert_eq!(d.inject, vec![("b".to_string(), frame.clone())]);
    assert!(is_dropped(&host.dp.pump_frame("c", PortId(3), &frame)));
}

#[test]
fn unattached_ports_reach_nobody() {
    let mut host = Host::new();
    host.create_network(&net_params()).unwrap();
    for name in ["a", "b", "c"] {
        host.create_port(name).unwrap();
    }
    let frame = vec![0xffu8; 60];
    assert!(is_dropped(&host.dp.pump_frame("a", PortId(1), &frame)), "no two unattached ports");
    host.attach_port("c", "net0", "02:00:00:00:00:03").unwrap();
    assert!(is_dropped(&host.dp.pump_frame("a", PortId(1), &frame)));
    assert!(is_dropped(&host.dp.pump_frame("c", PortId(3), &frame)), "nobody else is attached");
    host.attach_port("a", "net0", "02:00:00:00:00:01").unwrap();
    assert_eq!(host.dp.pump_frame("a", PortId(1), &frame).inject.len(), 1);
    let wan_mac = [0x52, 0x55, 0x0a, 0x00, 0x02, 0x02];
    host.dp.learn_passt_mac("a", MacAddr::from_bytes(wan_mac));
    let to_wan = eth_frame(&wan_mac, &VM_MAC, 0x0806, &[0u8; 28]);
    assert!(host.dp.pump_frame("a", PortId(1), &to_wan).wan.is_some());
    let plan = host.dp.detach_port(&words(&[("name", "a")]));
    assert!(host.dp.passt_runs("a"), "the process is still to be stopped");
    assert!(is_dropped(&host.dp.pump_frame("a", PortId(1), &to_wan)));
    host.run(plan).unwrap();
    assert!(is_dropped(&host.dp.pump_frame("a", PortId(1), &frame)));
}

// -- WAN processes ------------------------------------------------------------

#[test]
fn publishing_starts_passt_for_the_vm_and_its_forward() {
    let (mut host, ip) = attached("vm1", "02:00:00:00:00:01");
    let hp = host.publish("vm1", 6443).unwrap();
    let last = host.started.last().expect("argv recorded").clone();
    let a_pos = last.iter().position(|t| t == "-a");
    assert_eq!(
        a_pos.and_then(|i| last.get(i + 1).cloned()),
        Some(ip.clone()),
        "passt argv must advertise the VM IP via -a; got {last:?}"
    );
    let want = format!("-t{hp}:{ip}/6443");
    assert!(last.contains(&want), "passt argv must contain {want}; got {last:?}");
}

#[test]
fn republish_same_pair_does_not_respawn_passt() {
    let (mut host, _ip) = attached("vm1", "02:00:00:00:00:01");
    let hp1 = host.publish("vm1", 6443).unwrap();
    let before = host.started.clone();
    let hp2 = host.publish("vm1", 6443).unwrap();
    assert_eq!(hp1, hp2, "re-publish must be idempotent");
    assert_eq!(host.started, before, "identical re-publish must not respawn passt");
}

#[test]
fn attach_port_spawns_egress_passt_without_forwards() {
    let (host, ip) = attached("vm1", "02:00:00:00:00:01");
    assert_eq!(host.started, vec![vec!["passt", "--fd", "7", "-a", ip.as_str()]]);
    assert_eq!(
        host.pinned,
        vec![("vm1".to_string(), "02:00:00:00:00:01".parse::<MacAddr>().unwrap())]
    );
}

#[test]
fn a_second_forward_restarts_passt_with_both() {
    let (mut host, ip) = attached("vm1", "02:00:00:00:00:01");
    let hp_api = host.publish("vm1", 6443).unwrap();
    let count_before = host.started.len();
    let stopped_before = host.stopped;
    let hp_ssh = host.publish("vm1", 22).unwrap();
    assert_eq!(
        host.started.len(),
        count_before + 1,
        "second vm_port publish must restart passt"
    );
    let last = host.started.last().unwrap();
    assert!(
        last.contains(&format!("-t{hp_api}:{ip}/6443")),
        "restarted argv keeps the first forward: {last:?}"
    );
    assert!(
        last.contains(&format!("-t{hp_ssh}:{ip}/22")),
        "restarted argv adds the second forward: {last:?}"
    );
    assert_eq!(
        host.stopped,
        stopped_before + 1,
        "the replaced passt process must be terminated"
    );
}

#[test]
fn delete_port_stops_the_port_passt() {
    let (mut host, _ip) = attached("vm1", "02:00:00:00:00:01");
    host.publish("vm1", 6443).unwrap();
    let before = host.stopped;
    host.delete_port("vm1").expect("delete_port ok");
    assert_eq!(host.stopped, before + 1, "DeletePort must stop the port's passt");
    assert_eq!(host.removed, vec!["vm1".to_string()]);
    assert_eq!(host.delete_port("vm1"), Err(RpcError::NotFound));
}

#[test]
fn detach_port_stops_the_port_passt() {
    let (mut host, _ip) = attached("vm1", "02:00:00:00:00:01");
    host.publish("vm1", 6443).unwrap();
    let before = host.stopped;
    host.detach_port("vm1").expect("detach_port ok");
    assert_eq!(host.stopped, before + 1, "DetachPort must stop the port's passt");
    assert!(host.removed.is_empty(), "the socket stays");
    assert!(!host.dp.passt_runs("vm1"));
}

#[test]
fn daemon_reensures_passt_after_unexpected_exit() {
    let (mut host, _ip) = attached("vm1", "02:00:00:00:00:01");
    host.publish("vm1", 6443).unwrap();
    assert!(host.dp.supervise_passt("vm1", false, 1000).is_none(), "a running process is left alone");
    assert!(
        host.dp.supervise_passt("vm1", true, 1000).is_none(),
        "an exited process is not started at once"
    );
    assert!(host.dp.supervise_passt("vm1", false, 1099).is_none());
    let config = host.dp.supervise_passt("vm1", false, 1100).expect("due after the delay");
    assert_eq!(passt_argv(&config, 7), *host.started.last().unwrap());
    host.dp.passt_failed("vm1", 1100);
    assert!(host.dp.supervise_passt("vm1", false, 1299).is_none(), "the delay has doubled");
    assert!(host.dp.supervise_passt("vm1", false, 1300).is_some());
    host.dp.passt_started("vm1");
    assert!(host.dp.passt_runs("vm1"));
    assert!(host.dp.supervise_passt("vm1", true, 5000).is_none());
    assert!(
        host.dp.supervise_passt("vm1", false, 5399).is_none(),
        "a start alone does not shorten the delay"
    );
    assert!(host.dp.supervise_passt("vm1", false, 5400).is_some());
    assert!(host.dp.supervise_passt("nobody", true, 0).is_none());
}

#[test]
fn every_exit_in_a_row_waits_longer() {
    let (mut host, _ip) = attached("vm1", "02:00:00:00:00:01");
    let mut now = 1000;
    for delay in [100, 200, 400, 800, 1600, 2000, 2000] {
        assert!(host.dp.supervise_passt("vm1", true, now).is_none(), "no start at the exit");
        assert!(host.dp.supervise_passt("vm1", false, now + delay - 1).is_none());
        now += delay;
        assert!(host.dp.supervise_passt("vm1", false, now).is_some());
        host.dp.passt_started("vm1");
    }
}

#[test]
fn a_process_that_is_asked_for_starts_afresh() {
    let (mut host, _ip) = attached("vm1", "02:00:00:00:00:01");
    for now in [1000, 2000, 3000] {
        assert!(host.dp.supervise_passt("vm1", true, now).is_none());
        assert!(host.dp.supervise_passt("vm1", false, now + 400).is_some());
        host.dp.passt_started("vm1");
    }
    host.publish("vm1", 22).unwrap();
    assert!(host.dp.supervise_passt("vm1", true, 5000).is_none());
    assert!(host.dp.supervise_passt("vm1", false, 5099).is_none());
    assert!(host.dp.supervise_passt("vm1", false, 5100).is_some(), "the shortest delay");
    host.dp.passt_started("vm1");
    assert!(host.dp.supervise_passt("vm1", true, 6000).is_none());
    host.broken = true;
    host.now = 6000;
    assert_eq!(host.publish("vm1", 80), Err(RpcError::Internal));
    assert!(host.dp.supervise_passt("vm1", false, 6399).is_none(), "a start that failed counts");
    assert!(host.dp.supervise_passt("vm1", false, 6400).is_some());
    host.dp.passt_started("vm1");
    assert!(host.dp.supervise_passt("vm1", true, 7000).is_none());
    assert!(host.dp.supervise_passt("vm1", false, 7100).is_some());
}

#[test]
fn a_process_that_delivers_is_forgiven_its_failures() {
    let (mut host, _ip) = attached("vm1", "02:00:00:00:00:01");
    for now in [1000, 2000] {
        assert!(host.dp.supervise_passt("vm1", true, now).is_none());
        host.dp.passt_delivered("vm1");
        assert!(host.dp.supervise_passt("vm1", false, now + 200).is_some());
        host.dp.passt_started("vm1");
    }
    host.dp.passt_delivered("vm1");
    assert!(host.dp.supervise_passt("vm1", true, 3000).is_none());
    assert!(host.dp.supervise_passt("vm1", false, 3099).is_none());
    assert!(host.dp.supervise_passt("vm1", false, 3100).is_some());
    host.dp.passt_delivered("nobody");
    assert!(!host.dp.passt_runs("nobody"));
}

#[test]
fn the_delay_doubles_up_to_its_cap() {
    let delays: Vec<u64> = [0, 1, 2, 3, 4, 5, 6, 7, 100, u32::MAX]
        .iter()
        .map(|f| restart_backoff(*f))
        .collect();
    assert_eq!(delays, vec![100, 100, 200, 400, 800, 1600, 2000, 2000, 2000, 2000]);
}

#[test]
fn a_process_that_does_not_start_is_an_internal_error() {
    let mut host = Host::new();
    host.create_network(&net_params()).unwrap();
    host.create_port("vm1").unwrap();
    host.broken = true;
    host.now = 50;
    let saved = host.saved.len();
    assert_eq!(
        host.attach_port("vm1", "net0", "02:00:00:00:00:01"),
        Err(RpcError::Internal)
    );
    assert_eq!(host.saved.len(), saved, "what follows a failed step is left out");
    assert!(host.dp.supervise_passt("vm1", false, 149).is_none());
    assert!(host.dp.supervise_passt("vm1", false, 150).is_some());
}

#[test]
fn unpublishing_leaves_the_way_out_open() {
    let (mut host, ip) = attached("vm1", "02:00:00:00:00:01");
    host.publish("vm1", 6443).unwrap();
    let ssh = host.publish("vm1", 22).unwrap();
    host.unpublish("vm1", 6443).unwrap();
    assert_eq!(
        *host.started.last().unwrap(),
        vec![
            "passt".to_string(),
            "--fd".to_string(),
            "7".to_string(),
            "-a".to_string(),
            ip.clone(),
            format!("-t{ssh}:{ip}/22"),
        ]
    );
    host.unpublish("vm1", 22).unwrap();
    assert_eq!(
        *host.started.last().unwrap(),
        vec!["passt".to_string(), "--fd".to_string(), "7".to_string(), "-a".to_string(), ip],
        "nothing is left to forward"
    );
    assert!(host.dp.passt_runs("vm1"), "the VM still reaches the WAN");
    assert_eq!(host.unpublish("vm1", 22), Err(RpcError::NotFound));
}

#[test]
fn unpublishing_without_an_address_stops_passt() {
    let (mut host, _ip) = attached("vm1", "02:00:00:00:00:01");
    host.publish("vm1", 22).unwrap();
    host.publish("vm1", 80).unwrap();
    let mac = words(&[("network", "net0"), ("mac", "02:00:00:00:00:01")]);
    let plan = host.dp.release_ip(&mac);
    host.run(plan).unwrap();
    assert_eq!(host.unpublish("vm1", 22), Err(RpcError::NotFound), "no address for the rest");
    assert!(host.dp.passt_runs("vm1"));
    assert_eq!(host.unpublish("vm1", 80), Ok(Value::Null));
    assert!(!host.dp.passt_runs("vm1"));
}

// -- the gateway --------------------------------------------------------------

#[test]
fn gateway_destined_frame_reaches_owning_port_passt_fd_only() {
    let (mut host, ip) = attached("vm1", "02:00:00:00:00:09");
    host.publish("vm1", 6443).unwrap();
    let src_ip = ipv4_octets(&ip);

    let mut local_ip = ipv4_header(src_ip, [192, 168, 124, 50], 24, 17);
    local_ip.extend_from_slice(&[0x11, 0x22, 0x33, 0x44]);
    let local = eth_frame(&PEER_MAC, &VM_MAC, 0x0800, &local_ip);
    let d = host.dp.pump_frame("vm1", PortId(1), &local);
    assert!(d.wan.is_none(), "local (in-CIDR) frame must not reach passt");

    let mut wan_ip = ipv4_header(src_ip, [8, 8, 8, 8], 24, 17);
    wan_ip.extend_from_slice(&[0xde, 0xad, 0xbe, 0xef]);
    let wan = eth_frame(&GW_MAC, &VM_MAC, 0x0800, &wan_ip);
    let d = host.dp.pump_frame("vm1", PortId(1), &wan);
    assert!(d.inject.is_empty());
    let bytes = d.wan.expect("gateway-destined frame must be written to the port's passt fd");
    assert_eq!(decode_frame(&bytes), Some(wan.as_slice()));

    host.dp.teardown_passt("vm1");
    assert!(
        is_dropped(&host.dp.pump_frame("vm1", PortId(1), &wan)),
        "without a process the frame is dropped"
    );
}

#[test]
fn frames_for_the_wan_mac_reach_passt() {
    let (mut host, _ip) = attached("vm1", "02:00:00:00:00:09");
    let wan_mac = [0x52, 0x55, 0x0a, 0x00, 0x02, 0x02];
    let reply = eth_frame(&wan_mac, &VM_MAC, 0x0806, &[0u8; 28]);
    assert!(is_dropped(&host.dp.pump_frame("vm1", PortId(1), &reply)));
    assert!(host.dp.learn_passt_mac("vm1", MacAddr::from_bytes(wan_mac)));
    assert!(!host.dp.learn_passt_mac("vm1", MacAddr::from_bytes(wan_mac)));
    let d = host.dp.pump_frame("vm1", PortId(1), &reply);
    assert_eq!(decode_frame(&d.wan.unwrap()), Some(reply.as_slice()));
    assert!(!host.dp.learn_passt_mac("nobody", MacAddr::from_bytes(wan_mac)));
}

#[test]
fn arp_for_the_gateway_is_answered() {
    let (mut host, ip) = attached("vm9", "02:00:00:00:00:09");
    let mut arp = vec![0, 1, 8, 0, 6, 4, 0, 1];
    arp.extend_from_slice(&VM_MAC);
    arp.extend_from_slice(&ipv4_octets(&ip));
    arp.extend_from_slice(&[0; 6]);
    arp.extend_from_slice(&GW_IP);
    let request = eth_frame(&[0xff; 6], &VM_MAC, 0x0806, &arp);
    let reply = answer(&mut host, "vm9", &request);
    assert_eq!(&reply[0..6], &VM_MAC);
    assert_eq!(&reply[6..12], &GW_MAC);
    assert_eq!(&reply[20..22], &[0, 2]);
    assert_eq!(&reply[28..32], &GW_IP);
}

#[test]
fn gateway_icmp_echo_request_yields_echo_reply() {
    let (mut host, ip) = attached("vm9", "02:00:00:00:00:09");
    let reserved = ipv4_octets(&ip);

    let mut icmp = vec![ICMP_ECHO_REQUEST, 0, 0, 0, 0x12, 0x34, 0, 1];
    icmp.extend_from_slice(b"payload");
    let icmp_sum = inet_checksum(&icmp);
    icmp[2..4].copy_from_slice(&icmp_sum.to_be_bytes());
    let mut pkt = ipv4_header(reserved, GW_IP, (20 + icmp.len()) as u16, IPPROTO_ICMP);
    pkt.extend_from_slice(&icmp);
    let ip_sum = inet_checksum(&pkt[..20]);
    pkt[10..12].copy_from_slice(&ip_sum.to_be_bytes());
    let request = eth_frame(&GW_MAC, &VM_MAC, ETHERTYPE_IPV4, &pkt);

    let frame = answer(&mut host, "vm9", &request);

    assert_eq!(&frame[0..6], &VM_MAC, "reply addressed to the VM");
    assert_eq!(&frame[6..12], &GW_MAC, "reply sourced from the gateway MAC");
    let ihl = usize::from(frame[14] & 0x0f) * 4;
    assert_eq!(&frame[14..16], &[0x45, 0]);
    assert_eq!(&frame[16..18], &(20 + icmp.len() as u16).to_be_bytes(), "total length");
    assert_eq!(&frame[26..30], &GW_IP, "IP src must be the gateway");
    assert_eq!(&frame[30..34], &reserved, "IP dst must be the VM");
    let icmp_reply = &frame[14 + ihl..];
    assert_eq!(icmp_reply[0], ICMP_ECHO_REPLY, "type must be echo reply");
    assert_eq!(&icmp_reply[4..6], &[0x12, 0x34], "identifier echoed");
    assert_eq!(&icmp_reply[6..8], &[0, 1], "sequence echoed");
    assert_eq!(&icmp_reply[8..], b"payload", "payload echoed");
    assert_eq!(inet_checksum(icmp_reply), 0, "ICMP checksum must verify");
    assert_eq!(inet_checksum(&frame[14..14 + ihl]), 0, "IPv4 checksum must verify");
}

// -- services -----------------------------------------------------------------

#[test]
fn dhcp_discover_on_attached_port_yields_offer_then_ack_with_reserved_ip_gateway_dns() {
    let (mut host, ip) = attached("vm9", "02:00:00:00:00:09");
    let reserved = ipv4_octets(&ip);

    let discover = udp_over_eth(
        &[0xff; 6],
        &VM_MAC,
        [0, 0, 0, 0],
        [255, 255, 255, 255],
        68,
        67,
        &dhcp_packet(1, 0x1122_3344, &VM_MAC, None),
    );
    let offer_frame = answer(&mut host, "vm9", &discover);
    let offer = parse_dhcp_reply(&offer_frame).expect("OFFER frame with a DHCP payload");
    assert_eq!(offer.msg_type, Some(2), "first reply must be an OFFER");
    assert_eq!(offer.yiaddr, reserved, "OFFER must carry the port's reserved IP");
    assert_eq!(offer.router, Some(GW_IP), "router option must be the gateway");
    assert_eq!(offer.dns, Some(GW_IP), "DNS option must be the gateway IP");

    let request = udp_over_eth(
        &[0xff; 6],
        &VM_MAC,
        [0, 0, 0, 0],
        [255, 255, 255, 255],
        68,
        67,
        &dhcp_packet(3, 0x1122_3344, &VM_MAC, Some(reserved)),
    );
    let ack_frame = answer(&mut host, "vm9", &request);
    let ack = parse_dhcp_reply(&ack_frame).expect("ACK frame with a DHCP payload");
    assert_eq!(ack.msg_type, Some(5), "second reply must be an ACK");
    assert_eq!(ack.yiaddr, reserved, "ACK must carry the port's reserved IP");
    assert_eq!(ack.router, Some(GW_IP), "router option must be the gateway");
    assert_eq!(ack.dns, Some(GW_IP), "DNS option must be the gateway IP");
}

#[test]
fn dhcp_offer_addressed_to_sender_mac_when_different_from_port_mac() {
    let (mut host, _ip) = attached("vm9", "02:00:00:00:00:09");
    let guest_mac = [0x02, 0x00, 0x00, 0x00, 0x00, 0x0a];
    let discover = udp_over_eth(
        &[0xff; 6],
        &guest_mac,
        [0, 0, 0, 0],
        [255, 255, 255, 255],
        68,
        67,
        &dhcp_packet(1, 0x1122_3344, &guest_mac, None),
    );
    let offer_frame = answer(&mut host, "vm9", &discover);
    let offer = parse_dhcp_reply(&offer_frame).expect("OFFER frame with a DHCP payload");
    assert_eq!(offer.msg_type, Some(2), "first reply must be an OFFER");
    assert_ne!(offer.yiaddr, [0, 0, 0, 0], "OFFER must carry an address (unicast path)");
    assert_eq!(
        &offer_frame[0..6],
        &guest_mac,
        "OFFER must be Ethernet-addressed to the DHCP sender MAC, not the port's pinned MAC"
    );
    assert_ne!(
        &offer_frame[0..6],
        &VM_MAC,
        "OFFER must not be addressed to the port's pinned MAC"
    );
}

#[test]
fn dhcp_ack_addressed_to_sender_mac_when_different_from_port_mac() {
    let (mut host, _ip) = attached("vm9", "02:00:00:00:00:09");
    let guest_mac = [0x02, 0x00, 0x00, 0x00, 0x00, 0x0a];
    let guest_ip = host.allocate_ip("02:00:00:00:00:0a").unwrap();
    let guest_reserved = ipv4_octets(guest_ip.as_str().expect("bare ip string"));

    let discover = udp_over_eth(
        &[0xff; 6],
        &guest_mac,
        [0, 0, 0, 0],
        [255, 255, 255, 255],
        68,
        67,
        &dhcp_packet(1, 0x1122_3344, &guest_mac, None),
    );
    let offer_frame = answer(&mut host, "vm9", &discover);
    let offer = parse_dhcp_reply(&offer_frame).expect("OFFER frame with a DHCP payload");
    assert_eq!(offer.msg_type, Some(2), "first reply must be an OFFER");
    assert_eq!(
        offer.yiaddr, guest_reserved,
        "OFFER must carry the guest MAC's reservation"
    );

    let request = udp_over_eth(
        &[0xff; 6],
        &guest_mac,
        [0, 0, 0, 0],
        [255, 255, 255, 255],
        68,
        67,
        &dhcp_packet(3, 0x1122_3344, &guest_mac, Some(offer.yiaddr)),
    );
    let ack_frame = answer(&mut host, "vm9", &request);
    let ack = parse_dhcp_reply(&ack_frame).expect("ACK frame with a DHCP payload");
    assert_eq!(ack.msg_type, Some(5), "second reply must be an ACK");
    assert_eq!(ack.yiaddr, offer.yiaddr, "ACK must carry the offered address");
    assert_eq!(
        &ack_frame[0..6],
        &guest_mac,
        "ACK must be Ethernet-addressed to the DHCP sender MAC, not the port's pinned MAC"
    );
}

#[test]
fn dhcp_nak_uses_ethernet_broadcast() {
    let (mut host, ip) = attached("vm9", "02:00:00:00:00:09");
    let reserved = ipv4_octets(&ip);
    let guest_mac = [0x02, 0x00, 0x00, 0x00, 0x00, 0x0a];
    let request = udp_over_eth(
        &[0xff; 6],
        &guest_mac,
        [0, 0, 0, 0],
        [255, 255, 255, 255],
        68,
        67,
        &dhcp_packet(3, 0x1122_3344, &guest_mac, Some(reserved)),
    );
    let nak_frame = answer(&mut host, "vm9", &request);
    let nak = parse_dhcp_reply(&nak_frame).expect("NAK frame with a DHCP payload");
    assert_eq!(nak.msg_type, Some(6), "reply must be a NAK");
    assert_eq!(nak.yiaddr, [0, 0, 0, 0], "a NAK must not carry an address");
    assert_eq!(&nak_frame[0..6], &[0xff; 6], "NAK must be Ethernet-broadcast");
    assert_eq!(
        &nak_frame[30..34],
        &[255, 255, 255, 255],
        "NAK must keep the IP-broadcast destination"
    );
    assert_eq!(
        &nak_frame[26..30],
        &GW_IP,
        "NAK must keep the gateway as the IP source"
    );
}

#[test]
fn wrap_udp_reply_broadcasts_ethernet_when_reply_ip_unspecified() {
    let frame = wrap_udp_reply(
        &[0u8; 240],
        MacAddr::from_bytes(VM_MAC),
        Ipv4Addr::new(192, 168, 124, 1),
        Ipv4Addr::new(0, 0, 0, 0),
        DHCP_SERVER_PORT,
        DHCP_CLIENT_PORT,
    );
    assert_eq!(
        &frame[0..6],
        &[0xff; 6],
        "an unspecified reply IP must yield an Ethernet-broadcast destination"
    );
    assert_eq!(
        &frame[30..34],
        &[255, 255, 255, 255],
        "an unspecified reply IP must keep the IP-broadcast destination"
    );
    assert_eq!(
        &frame[26..30],
        &[192, 168, 124, 1],
        "an unspecified reply IP must keep the gateway as the IP source"
    );
    let packet = parse_ipv4(&frame).unwrap();
    assert_eq!(packet.payload.len(), 8 + 240);
    assert_eq!(inet_checksum(&frame[14..34]), 0);
}

struct RecordingUpstream {
    sent: Arc<Mutex<Vec<Vec<u8>>>>,
}

impl UpstreamSender for RecordingUpstream {
    fn send(&self, query: &[u8]) -> Result<Vec<u8>, UpstreamError> {
        self.sent.lock().expect("sent lock").push(query.to_vec());
        let mut resp = query.to_vec();
        if let Some(flags) = resp.get_mut(2) {
            *flags |= 0x80;
        }
        Ok(resp)
    }
}

fn recording(host: &mut Host) -> Arc<Mutex<Vec<Vec<u8>>>> {
    let sent = Arc::new(Mutex::new(Vec::new()));
    host.dp.set_dns_upstreams(vec![Box::new(RecordingUpstream {
        sent: Arc::clone(&sent),
    })]);
    sent
}

#[test]
fn dns_query_to_gateway_ip_is_forwarded_to_stub_upstream_and_answered() {
    let (mut host, ip) = attached("vm9", "02:00:00:00:00:09");
    let sent = recording(&mut host);

    let query = dns_query_bytes(0x4242);
    let qframe = udp_over_eth(&GW_MAC, &VM_MAC, ipv4_octets(&ip), GW_IP, 12345, 53, &query);
    let reply_frame = answer(&mut host, "vm9", &qframe);

    let seen = sent.lock().expect("sent lock").clone();
    assert_eq!(seen.len(), 1, "query forwarded upstream exactly once");
    assert_eq!(seen[0], query, "query relayed byte-for-byte");

    let ihl = usize::from(reply_frame[14] & 0x0f) * 4;
    let dns_payload = &reply_frame[14 + ihl + 8..];
    let mut expected = query.clone();
    expected[2] |= 0x80;
    assert_eq!(
        dns_payload,
        &expected[..],
        "upstream answer relayed byte-for-byte to the VM"
    );
    assert_eq!(&reply_frame[34..36], &53u16.to_be_bytes());
    assert_eq!(&reply_frame[36..38], &12345u16.to_be_bytes());
}

#[test]
fn dns_reply_keeps_port_mac_addressing_for_non_dhcp() {
    let (mut host, _ip) = attached("vm9", "02:00:00:00:00:09");
    recording(&mut host);
    let guest_mac = [0x02, 0x00, 0x00, 0x00, 0x00, 0x0a];
    let query = dns_query_bytes(0x4242);
    let qframe = udp_over_eth(&GW_MAC, &guest_mac, [192, 168, 124, 150], GW_IP, 12345, 53, &query);
    let reply_frame = answer(&mut host, "vm9", &qframe);
    assert_eq!(&reply_frame[0..6], &VM_MAC, "DNS replies keep the port's pinned MAC");
    assert_eq!(&reply_frame[30..34], &[192, 168, 124, 150]);
}

#[test]
fn without_upstreams_the_server_has_failed() {
    let (mut host, ip) = attached("vm9", "02:00:00:00:00:09");
    let query = dns_query_bytes(0x4242);
    let qframe = udp_over_eth(&GW_MAC, &VM_MAC, ipv4_octets(&ip), GW_IP, 12345, 53, &query);
    let reply = answer(&mut host, "vm9", &qframe);
    assert_eq!(&reply[42..], &[0x42, 0x42, 0x80, 0x02, 0, 0, 0, 0, 0, 0, 0, 0]);
}

#[test]
fn dns_to_others_is_no_service() {
    let (mut host, ip) = attached("vm9", "02:00:00:00:00:09");
    let sent = recording(&mut host);
    let query = dns_query_bytes(0x4242);
    let frame = udp_over_eth(&GW_MAC, &VM_MAC, ipv4_octets(&ip), [8, 8, 8, 8], 12345, 53, &query);
    let d = host.dp.pump_frame("vm9", PortId(1), &frame);
    assert!(d.wan.is_some());
    assert!(sent.lock().unwrap().is_empty());
}

#[test]
fn unattached_ports_get_no_service() {
    let mut host = Host::new();
    host.create_network(&net_params()).unwrap();
    host.create_port("vm9").unwrap();
    let discover = udp_over_eth(
        &[0xff; 6],
        &VM_MAC,
        [0, 0, 0, 0],
        [255, 255, 255, 255],
        68,
        67,
        &dhcp_packet(1, 1, &VM_MAC, None),
    );
    assert!(is_dropped(&host.dp.pump_frame("vm9", PortId(1), &discover)));
}

// -- the control plane --------------------------------------------------------

#[test]
fn networks_are_created_once() {
    let mut host = Host::new();
    assert_eq!(host.create_network(&net_params()), Ok(Value::Null));
    let saved = host.saved.len();
    assert_eq!(host.create_network(&net_params()), Ok(Value::Null));
    assert_eq!(host.saved.len(), saved, "nothing new to keep");
    let other = words(&[
        ("name", "net0"),
        ("cidr", "10.0.0.0/24"),
        ("gateway", "10.0.0.1"),
        ("poolStart", "10.0.0.10"),
        ("poolEnd", "10.0.0.20"),
    ]);
    assert_eq!(host.create_network(&other), Err(RpcError::Conflict));
    assert_eq!(host.create_network(&Value::Null), Err(RpcError::InvalidParams));
    let shown = host.dp.get_network(&words(&[("name", "net0")]));
    assert_eq!(
        shown.reply,
        Ok(words(&[
            ("name", "net0"),
            ("cidr", "192.168.124.0/24"),
            ("gateway", "192.168.124.1"),
        ]))
    );
    let plan = host.dp.delete_network(&words(&[("name", "net0")]));
    assert_eq!(host.run(plan), Ok(Value::Null));
    let plan = host.dp.delete_network(&words(&[("name", "net0")]));
    assert_eq!(host.run(plan), Err(RpcError::NotFound));
    assert_eq!(
        host.dp.get_network(&words(&[("name", "net0")])).reply,
        Err(RpcError::NotFound)
    );
}

#[test]
fn a_refused_attachment_binds_nothing() {
    let (mut host, _ip) = attached("vm1", "02:00:00:00:00:01");
    assert_eq!(
        host.attach_port("vm1", "net0", "02:00:00:00:00:02"),
        Err(RpcError::Conflict)
    );
    assert_eq!(
        host.allocate_ip("02:00:00:00:00:03").unwrap(),
        string("192.168.124.101"),
        "the refused MAC has no address"
    );
    assert_eq!(host.attach_port("vm1", "net0", "02:00:00:00:00:01"), Ok(Value::Null));
    assert_eq!(
        host.attach_port("vm2", "net0", "02:00:00:00:00:02"),
        Err(RpcError::NotFound)
    );
    host.create_port("vm2").unwrap();
    assert_eq!(
        host.attach_port("vm2", "net9", "02:00:00:00:00:02"),
        Err(RpcError::NotFound)
    );
    assert_eq!(
        host.attach_port("vm2", "net0", "nonsense"),
        Err(RpcError::InvalidParams)
    );
}

#[test]
fn detaching_frees_the_address_and_the_forwards() {
    let (mut host, ip) = attached("vm1", "02:00:00:00:00:01");
    assert_eq!(host.publish("vm1", 6443), Ok(20000));
    host.detach_port("vm1").unwrap();
    assert_eq!(host.publish("vm1", 6443), Err(RpcError::NotFound));
    host.create_port("vm2").unwrap();
    host.attach_port("vm2", "net0", "02:00:00:00:00:02").unwrap();
    assert_eq!(host.allocate_ip("02:00:00:00:00:02").unwrap(), string(&ip));
    assert_eq!(host.publish("vm2", 22), Ok(20000));
    let shown = host.dp.get_port(&words(&[("name", "vm1")]));
    assert_eq!(shown.reply.unwrap().get("network"), Some(&Value::Null));
}

#[test]
fn detaching_from_a_network_that_is_gone_is_not_found() {
    let (mut host, _ip) = attached("vm1", "02:00:00:00:00:01");
    host.publish("vm1", 22).unwrap();
    let plan = host.dp.delete_network(&words(&[("name", "net0")]));
    host.run(plan).unwrap();
    let saved = host.saved.len();
    assert_eq!(host.detach_port("vm1"), Err(RpcError::NotFound));
    assert_eq!(host.saved.len(), saved + 1);
    assert_eq!(host.saved.last().unwrap().publish_table.get("vm1", 22), None, "its forwards are withdrawn");
    assert!(!host.dp.passt_runs("vm1"), "its WAN process is stopped");
    let shown = host.dp.get_port(&words(&[("name", "vm1")]));
    assert_eq!(shown.reply.unwrap().get("network"), Some(&Value::Null), "it is detached all the same");
    assert_eq!(host.detach_port("vm1"), Ok(Value::Null));
}

#[test]
fn releasing_an_address_frees_it() {
    let (mut host, _ip) = attached("vm1", "02:00:00:00:00:01");
    let mac = words(&[("network", "net0"), ("mac", "02:00:00:00:00:07")]);
    host.allocate_ip("02:00:00:00:00:07").unwrap();
    let plan = host.dp.release_ip(&mac);
    assert_eq!(host.run(plan), Ok(Value::Null));
    let plan = host.dp.release_ip(&mac);
    assert_eq!(host.run(plan), Err(RpcError::NotFound));
}

#[test]
fn a_new_binding_is_written_down() {
    let (mut host, _ip) = attached("vm1", "02:00:00:00:00:01");
    let saved = host.saved.len();
    let ip = host.allocate_ip("02:00:00:00:00:07").unwrap();
    assert_eq!(host.saved.len(), saved + 1);
    assert_eq!(
        host.saved.last().unwrap().networks.get("net0").unwrap().allocations.get("02:00:00:00:00:07").map(String::as_str),
        ip.as_str()
    );
    let plan = host.dp.allocate_ip(&words(&[("network", "net0"), ("mac", "02:00:00:00:00:08")]));
    let lost = plan.reply.unwrap();
    assert_eq!(host.saved.len(), saved + 1, "a write that did not take place");
    assert_eq!(host.allocate_ip("02:00:00:00:00:08").unwrap(), lost);
    assert_eq!(host.saved.len(), saved + 2, "is made up for");
    assert_eq!(
        host.saved.last().unwrap().networks.get("net0").unwrap().allocations.get("02:00:00:00:00:08").map(String::as_str),
        lost.as_str()
    );
}

#[test]
fn ports_are_shown_with_their_addresses() {
    let (mut host, ip) = attached("vm1", "02:00:00:00:00:0A");
    let shown = host.dp.get_port(&words(&[("name", "vm1")]));
    assert_eq!(
        shown.reply,
        Ok(words(&[("name", "vm1"), ("network", "net0"), ("mac", "02:00:00:00:00:0a"), ("ip", &ip)]))
    );
    host.detach_port("vm1").unwrap();
    let shown = host.dp.get_port(&words(&[("name", "vm1")])).reply.unwrap();
    assert_eq!(shown.get("ip"), Some(&Value::Null));
    assert_eq!(host.dp.get_port(&words(&[("name", "vm2")])).reply, Err(RpcError::NotFound));
}

#[test]
fn the_range_of_host_ports_can_run_out() {
    let mut table = PublishTable::default();
    let all: BTreeMap<u16, u16> = (20000..21000).map(|host| (host, host)).collect();
    table.entries.insert("others".to_string(), all);
    let mut host = Host::new();
    host.dp = with_published(table);
    host.create_network(&net_params()).unwrap();
    host.create_port("vm1").unwrap();
    host.attach_port("vm1", "net0", "02:00:00:00:00:01").unwrap();
    assert_eq!(host.publish("vm1", 1), Ok(21000), "the last one");
    assert_eq!(host.publish("vm1", 2), Err(RpcError::Conflict));
    assert_eq!(host.publish("vm1", 1), Ok(21000));
}

#[test]
fn ports_have_handles_of_their_own() {
    let mut host = Host::new();
    assert_eq!(host.dp.next_port_id(), 1);
    host.create_port("a").unwrap();
    host.create_port("b").unwrap();
    host.create_port("a").unwrap();
    assert_eq!(host.dp.next_port_id(), 3);
    host.delete_port("a").unwrap();
    host.create_port("a").unwrap();
    assert_eq!(host.dp.next_port_id(), 4, "handles are not used again");
    assert!(host.dp.create_port(&Value::Null).is_err());
}

#[test]
fn the_state_that_is_kept() {
    let (mut host, ip) = attached("vm1", "02:00:00:00:00:0A");
    host.create_port("idle").unwrap();
    host.publish("vm1", 6443).unwrap();
    let store = host.saved.last().unwrap();
    let net = store.networks.get("net0").unwrap();
    assert_eq!(net.cidr, "192.168.124.0/24");
    assert_eq!(net.gateway, "192.168.124.1");
    assert_eq!(net.mtu, 1500);
    assert!(net.dns.is_empty());
    assert_eq!(net.params, net_params());
    assert_eq!(net.pool_start.as_deref(), Some("192.168.124.100"));
    assert_eq!(net.pool_end.as_deref(), Some("192.168.124.200"));
    let port = store.ports.get("vm1").unwrap();
    assert_eq!(port.vm_ip.as_deref(), Some(ip.as_str()));
    assert_eq!(port.mac.as_deref(), Some("02:00:00:00:00:0a"));
    assert_eq!(port.network.as_deref(), Some("net0"));
    assert_eq!(net.allocations.get("02:00:00:00:00:0a"), Some(&ip));
    assert_eq!(net.allocations.len(), 1);
    let idle = store.ports.get("idle").unwrap();
    assert_eq!(idle.vm_ip, None);
    assert_eq!(idle.mac, None);
    assert_eq!(idle.network, None);
    assert_eq!(
        store.ipam_records.get("02000000000a").map(String::as_str),
        Some("192.168.124.100/32")
    );
    assert_eq!(store.ipam_records.len(), 1);
    assert!(store.dhcp_leases.is_empty());
    assert_eq!(store.publish_table.get("vm1", 6443), Some(20000));
}

#[test]
fn of_a_mac_in_two_networks_the_last_one_is_kept() {
    let mut host = Host::new();
    for (name, third) in [("b", "2"), ("a", "1"), ("aa", "3")] {
        let at = |last: &str| format!("10.0.{third}.{last}");
        host.create_network(&words(&[
            ("name", name),
            ("cidr", &format!("10.0.{third}.0/24")),
            ("gateway", &at("1")),
            ("poolStart", &at("10")),
            ("poolEnd", &at("20")),
        ]))
        .unwrap();
        let plan = host
            .dp
            .allocate_ip(&words(&[("network", name), ("mac", "02:00:00:00:00:01")]));
        host.run(plan).unwrap();
    }
    let store = host.dp.store();
    assert_eq!(
        store.ipam_records.get("020000000001").map(String::as_str),
        Some("10.0.2.10/32")
    );
    let again = Dataplane::new(&store);
    assert!(again.port_handles().is_empty());
    for (name, ip) in [("a", "10.0.1.10"), ("aa", "10.0.3.10"), ("b", "10.0.2.10")] {
        let kept = again.store();
        let kept = &kept.networks.get(name).unwrap().allocations;
        assert_eq!(kept.len(), 1);
        assert_eq!(kept.get("02:00:00:00:00:01").map(String::as_str), Some(ip), "it is restored in each");
    }
}

#[test]
fn a_restart_loses_nothing() {
    let (mut host, ip) = attached("vm1", "02:00:00:00:00:01");
    host.create_port("idle").unwrap();
    let other = host.allocate_ip("02:00:00:00:00:07").unwrap();
    let port = host.publish("vm1", 22).unwrap();
    let store = host.saved.pop().unwrap();

    let mut again = Host::new();
    again.dp = Dataplane::new(&store);
    let ports = again.dp.port_handles();
    let mut names: Vec<&str> = ports.iter().map(|(name, _)| name.as_str()).collect();
    names.sort();
    assert_eq!(names, vec!["idle", "vm1"]);
    assert_eq!(again.dp.next_port_id(), 3);
    for name in ["vm1", "idle"] {
        let p = words(&[("name", name)]);
        assert_eq!(again.dp.get_port(&p).reply, host.dp.get_port(&p).reply);
    }
    let p = words(&[("name", "net0")]);
    assert_eq!(again.dp.get_network(&p).reply, host.dp.get_network(&p).reply);
    assert_eq!(again.create_network(&net_params()), Ok(Value::Null), "it is there as it was created");

    for (name, _) in &ports {
        let plan = again.dp.rebound(name);
        assert_eq!(again.run(plan), Ok(Value::Null));
    }
    assert_eq!(again.pinned, vec![("vm1".to_string(), MacAddr::from_bytes([2, 0, 0, 0, 0, 1]))]);
    assert_eq!(again.started, vec![host.started.last().unwrap().clone()]);
    assert!(again.dp.passt_runs("vm1"));
    assert_eq!(again.dp.rebound("nobody").reply, Err(RpcError::NotFound));

    assert_eq!(again.allocate_ip("02:00:00:00:00:01").unwrap(), string(&ip));
    assert_eq!(again.allocate_ip("02:00:00:00:00:07").unwrap(), other);
    assert_eq!(again.publish("vm1", 22), Ok(port));
    let (_, me) = ports.iter().find(|(name, _)| name == "vm1").unwrap();
    let (_, idle) = ports.iter().find(|(name, _)| name == "idle").unwrap();
    again.attach_port("idle", "net0", "02:00:00:00:00:02").unwrap();
    let frame = vec![0xffu8; 60];
    assert_eq!(again.dp.pump_frame("vm1", *me, &frame).inject, vec![("idle".to_string(), frame.clone())]);
    assert_eq!(again.dp.pump_frame("idle", *idle, &frame).inject, vec![("vm1".to_string(), frame)]);
}

#[test]
fn an_attachment_outlives_its_network_over_a_restart() {
    let (mut host, _ip) = attached("vm1", "02:00:00:00:00:01");
    let plan = host.dp.delete_network(&words(&[("name", "net0")]));
    host.run(plan).unwrap();
    let dp = Dataplane::new(&host.dp.store());
    assert_eq!(dp.port_handles(), vec![("vm1".to_string(), PortId(1))]);
    let shown = dp.get_port(&words(&[("name", "vm1")])).reply.unwrap();
    assert_eq!(shown.get("network"), Some(&string("net0")));
    assert_eq!(shown.get("ip"), Some(&Value::Null));
    let plan = dp.rebound("vm1");
    assert!(matches!(plan.steps.as_slice(), [Step::PinMac { .. }]), "no address to run a process for");
}

#[test]
fn records_that_cannot_be_read_are_passed_over() {
    let (mut host, ip) = attached("vm1", "02:00:00:00:00:01");
    let host_port = host.publish("vm1", 22).unwrap();
    let name = |n: &str| words(&[("name", n)]);
    let started = |change: &dyn Fn(&mut StateStore)| {
        let mut store = host.dp.store();
        change(&mut store);
        let dp = Dataplane::new(&store);
        assert_eq!(dp.store().publish_table.get("vm1", 22), Some(host_port), "what is published stays");
        assert_eq!(dp.port_handles(), vec![("vm1".to_string(), PortId(1))], "the port stays");
        dp
    };
    let network = |change: &dyn Fn(&mut NetworkState)| {
        let dp = started(&|s: &mut StateStore| {
            let mut n = s.networks.remove("net0").unwrap();
            change(&mut n);
            s.networks.insert("net0".to_string(), n);
        });
        let shown = dp.get_port(&name("vm1")).reply.unwrap();
        assert_eq!(shown.get("network"), Some(&string("net0")), "it stays attached");
        dp.get_network(&name("net0")).reply.is_ok()
    };
    let port = |change: &dyn Fn(&mut PortState)| {
        let dp = started(&|s: &mut StateStore| {
            let mut p = s.ports.remove("vm1").unwrap();
            change(&mut p);
            s.ports.insert("vm1".to_string(), p);
        });
        assert!(dp.get_network(&name("net0")).reply.is_ok(), "the network stays");
        dp.get_port(&name("vm1")).reply.unwrap().get("network") == Some(&string("net0"))
    };
    assert!(network(&|_| {}));
    assert!(!network(&|n| n.cidr = "192.168.124.1/24".to_string()));
    assert!(!network(&|n| n.gateway = "10.0.0.1".to_string()));
    assert!(!network(&|n| n.pool_start = None));
    assert!(!network(&|n| n.pool_end = Some("x".to_string())));
    let bound = |n: &mut NetworkState, mac: &str, ip: &str| {
        n.allocations.insert(mac.to_string(), ip.to_string());
    };
    assert!(network(&|n| bound(n, "02:00:00:00:00:05", "192.168.124.150")));
    assert!(!network(&|n| bound(n, "02:00:00:00:00:05", "192.168.124.99")), "not in the pool");
    assert!(!network(&|n| bound(n, "02:00:00:00:00:05", &ip)), "bound twice");
    assert!(!network(&|n| bound(n, "02:00:00:00:00:05", "x")));
    assert!(!network(&|n| bound(n, "nobody", "192.168.124.150")));
    assert!(!network(&|n| bound(n, "02:00:00:00:00:0A", "192.168.124.150")));
    assert!(port(&|_| {}));
    assert!(!port(&|p| p.mac = Some("x".to_string())));
    assert!(!port(&|p| p.network = Some(" ".to_string())));
    assert!(!port(&|p| p.mac = None));
}

#[test]
fn what_was_published_survives_a_restart() {
    let (mut host, _ip) = attached("vm1", "02:00:00:00:00:01");
    host.publish("vm1", 22).unwrap();
    let second = host.publish("vm1", 6443).unwrap();
    let store = host.saved.pop().unwrap();
    let mut again = Host::new();
    again.dp = with_published(store.publish_table);
    again.create_network(&net_params()).unwrap();
    again.create_port("vm1").unwrap();
    again.attach_port("vm1", "net0", "02:00:00:00:00:01").unwrap();
    assert_eq!(again.publish("vm1", 6443), Ok(second));
}

#[test]
fn configured_host_ports_are_published() {
    let (mut host, _) = attached("vm1", "02:00:00:00:00:01");
    host.dp.set_publish_range((30_000, 30_001));
    assert_eq!(host.publish("vm1", 22), Ok(30_000));
    assert_eq!(host.publish("vm1", 6443), Ok(30_001));
    assert_eq!(host.publish("vm1", 22), Ok(30_000), "published again on the same host port");
    assert_eq!(host.publish("vm1", 80), Err(RpcError::Conflict), "no host port is left");
    assert_eq!(host.dp.store().publish_table.get("vm1", 80), None);
}

#[test]
fn kept_state_tells_networks_ports_and_bindings() {
    let (mut host, ip) = attached("vm1", "02:00:00:00:00:01");
    host.publish("vm1", 22).unwrap();
    let store = host.dp.store();
    let net = store.networks.get("net0").expect("the network is kept");
    assert_eq!(net.cidr, "192.168.124.0/24");
    assert_eq!(net.gateway, "192.168.124.1");
    assert_eq!(net.pool_start.as_deref(), Some("192.168.124.100"));
    assert_eq!(net.pool_end.as_deref(), Some("192.168.124.200"));
    assert_eq!(net.params, net_params());
    let port = store.ports.get("vm1").expect("the port is kept");
    assert_eq!(port.vm_ip.as_deref(), Some(ip.as_str()));
    assert_eq!(port.mac.as_deref(), Some("02:00:00:00:00:01"));
    assert_eq!(store.ipam_records.get("020000000001"), Some(&format!("{ip}/32")));
    assert_eq!(store.publish_table.get("vm1", 22), Some(20_000));
}
