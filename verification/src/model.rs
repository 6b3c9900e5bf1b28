//! The domain model: networks with their address pools, ports, the records
//! kept of allocations and leases, and the table of published forwards.

use std::collections::BTreeMap;

use vstd::prelude::*;

pub use crate::net::{AddrParseError, Ipv4Addr, Ipv4Cidr, MacAddr};

use crate::names::NameMap;
use crate::net;
use crate::text;
use crate::text::{chars_of, is_blank};

verus! {

/// Why a pool, a network or a port is refused.
#[derive(Debug, Clone, Copy, PartialEq, Eq, Structural)]
pub enum ModelError {
    /// The name is empty or holds nothing but white space.
    BlankName,
    /// The network is not written as an address without host bits, a slash
    /// and a prefix length of at most 32.
    InvalidCidr,
    /// The gateway is not written as an address.
    InvalidGateway,
    /// The gateway is not in the network.
    GatewayOutsideCidr,
    /// The pool is not in the network.
    PoolOutsideCidr,
    /// The gateway is in the pool.
    PoolContainsGateway,
    /// The pool's first address comes after its last.
    ReversedPool,
}

// -- pools --------------------------------------------------------------------

/// The addresses from `start` to `end`, both included.
#[derive(Debug, Clone, Copy, PartialEq, Eq, Structural)]
pub struct IpPool {
    pub start: Ipv4Addr,
    pub end: Ipv4Addr,
}

impl IpPool {
    /// Whether `ip` is in the pool.
    pub open spec fn has(self, ip: Ipv4Addr) -> bool {
        self.start.num() <= ip.num() <= self.end.num()
    }

    /// The pool from `start` to `end`, which must not come before `start`.
    pub fn new(start: Ipv4Addr, end: Ipv4Addr) -> (r: Result<IpPool, ModelError>)
        ensures
            r == (if start.num() <= end.num() {
                Ok::<IpPool, ModelError>(IpPool { start, end })
            } else {
                Err(ModelError::ReversedPool)
            }),
    {
        if start.to_u32() > end.to_u32() {
            return Err(ModelError::ReversedPool);
        }
        Ok(IpPool { start, end })
    }

    /// Whether `ip` is in the pool.
    pub fn contains(&self, ip: Ipv4Addr) -> (r: bool)
        ensures
            r == self.has(ip),
    {
        self.start.to_u32() <= ip.to_u32() && ip.to_u32() <= self.end.to_u32()
    }
}

// -- networks -----------------------------------------------------------------

/// An L2 segment: its name, its addresses, its gateway, and the pool that
/// addresses are allocated from.
#[derive(Debug, PartialEq, Eq)]
pub struct Network {
    pub name: String,
    pub cidr: Ipv4Cidr,
    pub gateway: Ipv4Addr,
    pub pool: IpPool,
}

impl Clone for Network {
    fn clone(&self) -> (r: Self)
        ensures
            r == *self,
    {
        Network {
            name: self.name.clone(),
            cidr: self.cidr,
            gateway: self.gateway,
            pool: self.pool,
        }
    }
}

impl Network {
    /// Whether the name is not blank, the gateway and the pool are in the
    /// network, the pool is not reversed, and the gateway is not in it.
    pub open spec fn wf(self) -> bool {
        &&& !text::blank(self.name@)
        &&& self.cidr@.valid()
        &&& self.cidr@.has(self.gateway)
        &&& self.cidr@.has(self.pool.start)
        &&& self.cidr@.has(self.pool.end)
        &&& self.pool.start.num() <= self.pool.end.num()
        &&& !self.pool.has(self.gateway)
    }

    /// The network called `name` with the addresses `cidr`, the gateway
    /// `gateway` and the pool `pool`.
    ///
    /// Refused, in this order: a blank name, a malformed network, a malformed
    /// gateway, a gateway outside the network, a reversed pool, a pool that is
    /// not wholly in the network, and a pool that contains the gateway.
    pub fn new(name: &str, cidr: &str, gateway: &str, pool: IpPool) -> (r: Result<
        Network,
        ModelError,
    >)
        ensures
            match r {
                Ok(n) => n.wf() && n.name@ == name@ && n.cidr@.text() == cidr@ && n.gateway.text()
                    == gateway@ && n.pool == pool,
                Err(e) => refusal(name@, cidr@, gateway@, pool, e),
            },
    {
        if is_blank(chars_of(name).as_slice()) {
            return Err(ModelError::BlankName);
        }
        let c = match Ipv4Cidr::parse(cidr) {
            Ok(c) => c,
            Err(_) => {
                return Err(ModelError::InvalidCidr);
            },
        };
        let gw = match Ipv4Addr::parse(gateway) {
            Ok(gw) => gw,
            Err(_) => {
                return Err(ModelError::InvalidGateway);
            },
        };
        if !c.contains(gw) {
            return Err(ModelError::GatewayOutsideCidr);
        }
        if pool.start.to_u32() > pool.end.to_u32() {
            return Err(ModelError::ReversedPool);
        }
        if !c.contains(pool.start) || !c.contains(pool.end) {
            return Err(ModelError::PoolOutsideCidr);
        }
        if pool.contains(gw) {
            return Err(ModelError::PoolContainsGateway);
        }
        Ok(Network { name: name.to_owned(), cidr: c, gateway: gw, pool })
    }
}

/// Whether `s` writes no network.
pub open spec fn no_network(s: Seq<char>) -> bool {
    forall|v: net::CidrView| #[trigger] v.valid() ==> v.text() != s
}

/// Whether `s` writes no address.
pub open spec fn no_address(s: Seq<char>) -> bool {
    forall|ip: Ipv4Addr| #[trigger] ip.text() != s
}

/// Whether a network so described is refused with `e`.
pub open spec fn refusal(
    name: Seq<char>,
    cidr: Seq<char>,
    gateway: Seq<char>,
    pool: IpPool,
    e: ModelError,
) -> bool {
    if text::blank(name) {
        e == ModelError::BlankName
    } else if no_network(cidr) {
        e == ModelError::InvalidCidr
    } else if no_address(gateway) {
        e == ModelError::InvalidGateway
    } else {
        exists|c: net::CidrView, g: Ipv4Addr|
            #![trigger c.has(g)]
            {
                &&& c.valid()
                &&& c.text() == cidr
                &&& g.text() == gateway
                &&& if !c.has(g) {
                    e == ModelError::GatewayOutsideCidr
                } else if pool.start.num() > pool.end.num() {
                    e == ModelError::ReversedPool
                } else if !c.has(pool.start) || !c.has(pool.end) {
                    e == ModelError::PoolOutsideCidr
                } else {
                    pool.has(g) && e == ModelError::PoolContainsGateway
                }
            }
    }
}

/// A description is never both accepted and refused: where a valid network
/// matches it, there is no refusal.
pub proof fn law_valid_network_is_not_refused(n: Network, e: ModelError)
    requires
        n.wf(),
    ensures
        !refusal(n.name@, n.cidr@.text(), n.gateway.text(), n.pool, e),
{
    assert(n.cidr@.valid());
    if refusal(n.name@, n.cidr@.text(), n.gateway.text(), n.pool, e) {
        let (c, g) = choose|c: net::CidrView, g: Ipv4Addr|
            #![trigger c.has(g)]
            {
                &&& c.valid()
                &&& c.text() == n.cidr@.text()
                &&& g.text() == n.gateway.text()
                &&& if !c.has(g) {
                    e == ModelError::GatewayOutsideCidr
                } else if n.pool.start.num() > n.pool.end.num() {
                    e == ModelError::ReversedPool
                } else if !c.has(n.pool.start) || !c.has(n.pool.end) {
                    e == ModelError::PoolOutsideCidr
                } else {
                    n.pool.has(g) && e == ModelError::PoolContainsGateway
                }
            };
        net::law_network_text_is_unique(c, n.cidr@);
        net::law_address_text_is_unique(g, n.gateway);
    }
}

// -- ports --------------------------------------------------------------------

/// A vhost-user endpoint: its name, the path of its socket, and what it is
/// attached to.
#[derive(Debug, PartialEq, Eq)]
pub struct Port {
    pub name: String,
    pub socket_path: String,
    pub network: Option<String>,
    pub mac: Option<MacAddr>,
    pub ip: Option<Ipv4Addr>,
}

/// What a [`Port`] holds.
#[verifier::ext_equal]
pub struct PortView {
    pub name: Seq<char>,
    pub socket_path: Seq<char>,
    pub network: Option<Seq<char>>,
    pub mac: Option<MacAddr>,
    pub ip: Option<Ipv4Addr>,
}

impl View for Port {
    type V = PortView;

    open spec fn view(&self) -> PortView {
        PortView {
            name: self.name@,
            socket_path: self.socket_path@,
            network: match self.network {
                Some(n) => Some(n@),
                None => None,
            },
            mac: self.mac,
            ip: self.ip,
        }
    }
}

impl Port {
    /// Whether the port is attached to nothing.
    pub open spec fn detached(self) -> bool {
        self.network is None && self.mac is None && self.ip is None
    }

    /// A port that is attached to nothing; a blank name is refused.
    pub fn new(name: &str, socket_path: &str) -> (r: Result<Port, ModelError>)
        ensures
            match r {
                Ok(p) => !text::blank(name@) && p.name@ == name@ && p.socket_path@ == socket_path@
                    && p.detached(),
                Err(e) => text::blank(name@) && e == ModelError::BlankName,
            },
    {
        if is_blank(chars_of(name).as_slice()) {
            return Err(ModelError::BlankName);
        }
        Ok(
            Port {
                name: name.to_owned(),
                socket_path: socket_path.to_owned(),
                network: None,
                mac: None,
                ip: None,
            },
        )
    }

    /// Attaches the port to `network` with the addresses `mac` and `ip`.
    pub fn attach(&mut self, network: &str, mac: MacAddr, ip: Ipv4Addr)
        ensures
            final(self).name == old(self).name,
            final(self).socket_path == old(self).socket_path,
            final(self).network matches Some(n) && n@ == network@,
            final(self).mac == Some(mac),
            final(self).ip == Some(ip),
    {
        self.network = Some(network.to_owned());
        self.mac = Some(mac);
        self.ip = Some(ip);
    }

    /// Detaches the port; its name and its socket stay.
    pub fn detach(&mut self)
        ensures
            final(self).name == old(self).name,
            final(self).socket_path == old(self).socket_path,
            final(self).detached(),
    {
        self.network = None;
        self.mac = None;
        self.ip = None;
    }
}

// -- records ------------------------------------------------------------------

/// An address bound to a MAC address in a network.
#[derive(Debug, Clone, PartialEq, Eq)]
pub struct Allocation {
    pub network: String,
    pub mac: MacAddr,
    pub ip: Ipv4Addr,
}

/// An address leased to a MAC address.
#[derive(Debug, Clone, PartialEq, Eq)]
pub struct DhcpLease {
    pub mac: MacAddr,
    pub ip: Ipv4Addr,
    pub lease_seconds: u64,
}

/// Everything that is recorded of the networks and ports.
#[derive(Debug)]
pub struct State {
    pub networks: NameMap<Network>,
    pub ports: NameMap<Port>,
    pub allocations: Vec<Allocation>,
    pub leases: Vec<DhcpLease>,
}

impl Default for State {
    fn default() -> (r: Self)
        ensures
            r.networks@ == Map::<Seq<char>, Network>::empty(),
            r.ports@ == Map::<Seq<char>, Port>::empty(),
            r.allocations@ == Seq::<Allocation>::empty(),
            r.leases@ == Seq::<DhcpLease>::empty(),
    {
        State {
            networks: NameMap::new(),
            ports: NameMap::new(),
            allocations: Vec::new(),
            leases: Vec::new(),
        }
    }
}

// -- published forwards -------------------------------------------------------

/// The host ports that are published: for each port by name, its VM ports
/// with the host port of each.
#[derive(Debug)]
pub struct PublishTable {
    pub entries: NameMap<BTreeMap<u16, u16>>,
}

/// The published pairs of a port's name and a VM port, with their host ports.
pub type Published = Map<(Seq<char>, u16), u16>;

impl View for PublishTable {
    type V = Published;

    open spec fn view(&self) -> Published {
        Map::new(
            |k: (Seq<char>, u16)|
                self.entries@.contains_key(k.0) && self.entries@[k.0]@.contains_key(k.1),
            |k: (Seq<char>, u16)| self.entries@[k.0]@[k.1],
        )
    }
}

/// Whether some pair is published on the host port `host`.
pub open spec fn host_taken(p: Published, host: u16) -> bool {
    exists|k: (Seq<char>, u16)| #[trigger] p.contains_key(k) && p[k] == host
}

/// Whether no two pairs are published on one host port.
pub open spec fn hosts_distinct(p: Published) -> bool {
    forall|k: (Seq<char>, u16), l: (Seq<char>, u16)|
        #[trigger] p.contains_key(k) && #[trigger] p.contains_key(l) && p[k] == p[l] ==> k == l
}

/// Whether `host` is the lowest host port of `range` that is free.
pub open spec fn lowest_free_host(p: Published, range: (u16, u16), host: u16) -> bool {
    &&& range.0 <= host <= range.1
    &&& !host_taken(p, host)
    &&& forall|h: u16| range.0 <= h < host ==> #[trigger] host_taken(p, h)
}

/// Whether every host port of `range` is taken.
pub open spec fn hosts_exhausted(p: Published, range: (u16, u16)) -> bool {
    forall|h: u16| range.0 <= h <= range.1 ==> #[trigger] host_taken(p, h)
}

/// What is published for other ports than `name`.
pub open spec fn without_port(p: Published, name: Seq<char>) -> Published {
    p.restrict(Set::new(|k: (Seq<char>, u16)| k.0 != name))
}

impl Default for PublishTable {
    fn default() -> (r: Self)
        ensures
            r@ == Published::empty(),
    {
        let r = PublishTable { entries: NameMap::new() };
        assert(r@ =~= Published::empty());
        r
    }
}

impl Clone for PublishTable {
    fn clone(&self) -> (r: Self)
        ensures
            r@ == self@,
    {
        let r = PublishTable { entries: self.entries.clone() };
        assert(r@ =~= self@);
        r
    }
}

impl PublishTable {
    /// The host port that `vm_port` of the port `port` is published on.
    pub fn get(&self, port: &str, vm_port: u16) -> (r: Option<u16>)
        ensures
            r == (if self@.contains_key((port@, vm_port)) {
                Some(self@[(port@, vm_port)])
            } else {
                None
            }),
    {
        match self.entries.get(port) {
            None => None,
            Some(m) => match m.get(&vm_port) {
                None => None,
                Some(h) => Some(*h),
            },
        }
    }

    /// Whether some pair is published on the host port `host`.
    pub fn host_in_use(&self, host: u16) -> (r: bool)
        ensures
            r == host_taken(self@, host),
    {
        let names = self.entries.keys();
        let mut i: usize = 0;
        while i < names.len()
            invariant
                i <= names.len(),
                forall|k: Seq<char>|
                    self.entries@.contains_key(k) <==> exists|i: int|
                        0 <= i < names.len() && (#[trigger] names[i])@ == k,
                forall|j: int, v: u16|
                    0 <= j < i && #[trigger] self.entries@[names[j]@]@.contains_key(v)
                        ==> self.entries@[names[j]@]@[v] != host,
            decreases names.len() - i,
        {
            assert(self.entries@.contains_key(names[i as int]@));
            match self.entries.get(names[i].as_str()) {
                None => {},
                Some(m) => {
                    if holds_value(m, host) {
                        proof {
                            let v = choose|v: u16| #[trigger] m@.contains_key(v) && m@[v] == host;
                            assert(self@.contains_key((names[i as int]@, v)));
                        }
                        return true;
                    }
                },
            }
            i = i + 1;
        }
        proof {
            assert forall|k: (Seq<char>, u16)| #[trigger] self@.contains_key(k) implies self@[k]
                != host by {
                let j = choose|j: int| 0 <= j < names.len() && (#[trigger] names[j])@ == k.0;
                assert(self.entries@[names[j]@]@.contains_key(k.1));
            }
        }
        false
    }

    /// Publishes `vm_port` of the port `port` on the lowest free host port of
    /// `range`, both ends included. A pair that is published keeps its host
    /// port; where no host port is free, nothing changes.
    pub fn allocate(&mut self, port: &str, vm_port: u16, range: (u16, u16)) -> (r: Option<u16>)
        ensures
            match r {
                Some(h) => if old(self)@.contains_key((port@, vm_port)) {
                    h == old(self)@[(port@, vm_port)] && final(self)@ == old(self)@
                } else {
                    lowest_free_host(old(self)@, range, h) && final(self)@ == old(self)@.insert(
                        (port@, vm_port),
                        h,
                    )
                },
                None => {
                    &&& !old(self)@.contains_key((port@, vm_port))
                    &&& hosts_exhausted(old(self)@, range)
                    &&& final(self)@ == old(self)@
                },
            },
    {
        if let Some(h) = self.get(port, vm_port) {
            return Some(h);
        }
        let mut candidate: u32 = range.0 as u32;
        while candidate <= range.1 as u32
            invariant
                range.0 <= candidate <= 0x1_0000,
                *self == *old(self),
                !old(self)@.contains_key((port@, vm_port)),
                forall|h: u16| range.0 <= h < candidate ==> #[trigger] host_taken(self@, h),
            decreases 0x1_0000 - candidate,
        {
            let host: u16 = candidate as u16;
            if !self.host_in_use(host) {
                let mut inner: BTreeMap<u16, u16> = match self.entries.remove(port) {
                    Some(m) => m,
                    None => BTreeMap::new(),
                };
                inner.insert(vm_port, host);
                self.entries.insert(port.to_owned(), inner);
                assert(self@ =~= old(self)@.insert((port@, vm_port), host));
                return Some(host);
            }
            candidate = candidate + 1;
        }
        None
    }

    /// Withdraws `vm_port` of the port `port`, giving back its host port.
    pub fn remove(&mut self, port: &str, vm_port: u16) -> (r: Option<u16>)
        ensures
            r == (if old(self)@.contains_key((port@, vm_port)) {
                Some(old(self)@[(port@, vm_port)])
            } else {
                None
            }),
            final(self)@ == old(self)@.remove((port@, vm_port)),
    {
        match self.entries.remove(port) {
            None => {
                assert(self@ =~= old(self)@.remove((port@, vm_port)));
                None
            },
            Some(m) => {
                let mut inner: BTreeMap<u16, u16> = m;
                let r: Option<u16> = inner.remove(&vm_port);
                self.entries.insert(port.to_owned(), inner);
                assert(self@ =~= old(self)@.remove((port@, vm_port)));
                r
            },
        }
    }

    /// Withdraws everything that is published for the port `port`.
    pub fn remove_port(&mut self, port: &str)
        ensures
            final(self)@ == without_port(old(self)@, port@),
    {
        let _ = self.entries.remove(port);
        assert(self@ =~= without_port(old(self)@, port@));
    }

    /// The VM ports that are published for the port `port`, in ascending
    /// order, each with its host port.
    pub fn forwards(&self, port: &str) -> (r: Vec<(u16, u16)>)
        ensures
            forwards_of(self@, port@, r@),
    {
        let mut r: Vec<(u16, u16)> = Vec::new();
        match self.entries.get(port) {
            None => {},
            Some(m) => {
                let pairs = m.iter();
                let ghost all = vstd::std_specs::iter::IteratorSpec::remaining(&pairs);
                for kv in it: pairs
                    invariant
                        it.seq() == all,
                        r.len() == it.index(),
                        forall|i: int|
                            0 <= i < r.len() ==> (#[trigger] r[i]).0 == *all[i].0 && r[i].1
                                == *all[i].1,
                {
                    r.push((*kv.0, *kv.1));
                }
                proof {
                    lemma_ascending(*m, all);
                    assert forall|v: u16| #[trigger] self@.contains_key((port@, v)) implies exists|
                        i: int,
                    |
                        0 <= i < r.len() && (#[trigger] r[i]).0 == v by {
                        let i = choose|i: int| 0 <= i < all.len() && *(#[trigger] all[i]).0 == v;
                        assert(r[i].0 == v);
                    }
                }
            },
        }
        r
    }
}

/// Whether `f` lists the VM ports published for the port `name`, in ascending
/// order, each with its host port.
pub open spec fn forwards_of(p: Published, name: Seq<char>, f: Seq<(u16, u16)>) -> bool {
    &&& forall|i: int, j: int| 0 <= i < j < f.len() ==> (#[trigger] f[i]).0 < (#[trigger] f[j]).0
    &&& forall|i: int|
        0 <= i < f.len() ==> p.contains_key((name, (#[trigger] f[i]).0)) && p[(name, f[i].0)]
            == f[i].1
    &&& forall|v: u16| #[trigger]
        p.contains_key((name, v)) ==> exists|i: int| 0 <= i < f.len() && (#[trigger] f[i]).0 == v
}

/// The VM ports that are published for a port are listed in one way.
pub proof fn lemma_forwards_are_one(
    p: Published,
    name: Seq<char>,
    f: Seq<(u16, u16)>,
    g: Seq<(u16, u16)>,
)
    requires
        forwards_of(p, name, f),
        forwards_of(p, name, g),
    ensures
        f == g,
    decreases f.len() + g.len(),
{
    if f.len() == 0 && g.len() == 0 {
        assert(f =~= g);
    } else if f.len() == 0 {
        assert(p.contains_key((name, g[0].0)));
    } else if g.len() == 0 {
        assert(p.contains_key((name, f[0].0)));
    } else {
        assert(p.contains_key((name, f.last().0)));
        assert(p.contains_key((name, g.last().0)));
        let i = choose|i: int| 0 <= i < g.len() && (#[trigger] g[i]).0 == f.last().0;
        let j = choose|j: int| 0 <= j < f.len() && (#[trigger] f[j]).0 == g.last().0;
        assert(f.last() == g.last());
        let rest = p.remove((name, f.last().0));
        let a = f.drop_last();
        let b = g.drop_last();
        assert(forwards_of(rest, name, a)) by {
            assert forall|v: u16| #[trigger] rest.contains_key((name, v)) implies exists|i: int|
                0 <= i < a.len() && (#[trigger] a[i]).0 == v by {
                assert(p.contains_key((name, v)));
                let i = choose|i: int| 0 <= i < f.len() && (#[trigger] f[i]).0 == v;
                assert(a[i].0 == v);
            }
        }
        assert(forwards_of(rest, name, b)) by {
            assert forall|v: u16| #[trigger] rest.contains_key((name, v)) implies exists|i: int|
                0 <= i < b.len() && (#[trigger] b[i]).0 == v by {
                assert(p.contains_key((name, v)));
                let i = choose|i: int| 0 <= i < g.len() && (#[trigger] g[i]).0 == v;
                assert(b[i].0 == v);
            }
        }
        lemma_forwards_are_one(rest, name, a, b);
        assert(f =~= a.push(f.last()));
        assert(g =~= b.push(g.last()));
    }
}

/// Publishing a new pair on a free host port leaves all host ports distinct.
pub proof fn law_publishing_keeps_hosts_distinct(
    p: Published,
    pair: (Seq<char>, u16),
    range: (u16, u16),
    host: u16,
)
    requires
        hosts_distinct(p),
        !p.contains_key(pair),
        lowest_free_host(p, range, host),
    ensures
        hosts_distinct(p.insert(pair, host)),
        forall|k: (Seq<char>, u16)| #[trigger] p.contains_key(k) ==> p[k] != host,
{
}

/// Withdrawing pairs leaves the remaining host ports distinct and as they were.
pub proof fn law_withdrawing_keeps_hosts_distinct(
    p: Published,
    pair: (Seq<char>, u16),
    name: Seq<char>,
)
    requires
        hosts_distinct(p),
    ensures
        hosts_distinct(p.remove(pair)),
        hosts_distinct(without_port(p, name)),
{
}

/// Withdrawing a port frees what was published for it, and nothing else: its
/// host ports can be handed out again, and every other port keeps its own.
pub proof fn law_withdrawn_port_is_free(p: Published, name: Seq<char>, vm_port: u16)
    requires
        hosts_distinct(p),
        p.contains_key((name, vm_port)),
    ensures
        !without_port(p, name).contains_key((name, vm_port)),
        !host_taken(without_port(p, name), p[(name, vm_port)]),
        forall|k: (Seq<char>, u16)|
            k.0 != name ==> (#[trigger] without_port(p, name).contains_key(k) <==> p.contains_key(k))
                && (p.contains_key(k) ==> without_port(p, name)[k] == p[k]),
{
}

/// Whether `value` is among the values of `m`.
fn holds_value(m: &BTreeMap<u16, u16>, value: u16) -> (r: bool)
    ensures
        r == exists|k: u16| #[trigger] m@.contains_key(k) && m@[k] == value,
{
    let pairs = m.iter();
    let ghost all = vstd::std_specs::iter::IteratorSpec::remaining(&pairs);
    proof {
        lemma_ascending(*m, all);
    }
    for kv in it: pairs
        invariant
            it.seq() == all,
            forall|i: int|
                0 <= i < all.len() ==> m@.contains_key(*(#[trigger] all[i]).0) && m@[*all[i].0]
                    == *all[i].1,
            forall|i: int| 0 <= i < it.index() ==> *(#[trigger] all[i]).1 != value,
    {
        if *kv.1 == value {
            assert(m@.contains_key(*all[it.index() as int].0));
            return true;
        }
    }
    false
}

/// What walking `m` gives: its keys in ascending order, each with its value.
proof fn lemma_ascending(m: BTreeMap<u16, u16>, all: Seq<(&u16, &u16)>)
    requires
        vstd::std_specs::btree::key_obeys_cmp_spec::<u16>() ==> all
            == vstd::std_specs::iter::IteratorSpec::remaining(
            &vstd::std_specs::btree::spec_btree_map_iter(&m),
        )
            && vstd::std_specs::btree::increasing_seq(
            all.map_values(|kv: (&u16, &u16)| *kv.0),
        ),
    ensures
        forall|i: int|
            0 <= i < all.len() ==> m@.contains_key(*(#[trigger] all[i]).0) && m@[*all[i].0]
                == *all[i].1,
        forall|k: u16| #[trigger]
            m@.contains_key(k) ==> exists|i: int| 0 <= i < all.len() && *(#[trigger] all[i]).0 == k,
        forall|i: int, j: int|
            0 <= i < j < all.len() ==> *(#[trigger] all[i]).0 < *(#[trigger] all[j]).0,
{
    assert(vstd::std_specs::btree::key_obeys_cmp_spec::<u16>());
    let keys = all.map_values(|kv: (&u16, &u16)| *kv.0);
    vstd::std_specs::btree::axiom_increasing_seq_meaning::<u16>(keys);
    assert forall|i: int, j: int| 0 <= i < j < all.len() implies *(#[trigger] all[i]).0 < *(
    #[trigger] all[j]).0 by {
        assert(vstd::std_specs::cmp::OrdSpec::cmp_spec(&keys[i], &keys[j]) is Less);
        assert(keys[i] == *all[i].0 && keys[j] == *all[j].0);
    }
    assert forall|k: u16| #[trigger] m@.contains_key(k) implies exists|i: int|
        0 <= i < all.len() && *(#[trigger] all[i]).0 == k by {
        assert(all.contains((&k, &m@[k])));
    }
}

// -- laws ---------------------------------------------------------------------

/// What makes a network valid: its name holds something, its addresses are a
/// network, and the gateway and the two ends of the pool are addresses of that,
/// the gateway being before or behind the pool. Nothing else is asked of it.
pub proof fn law_what_makes_a_network_valid(n: Network)
    ensures
        ({
            let a = n.cidr@.addr;
            let first = a.a * 0x100_0000 + a.b * 0x1_0000 + a.c * 0x100 + a.d;
            let size = vstd::arithmetic::power2::pow2((32 - n.cidr@.prefix) as nat) as int;
            let last = first + size - 1;
            n.wf() <==> {
                &&& exists|i: int|
                    0 <= i < n.name@.len() && !text::white_space(#[trigger] n.name@[i])
                &&& n.cidr@.prefix <= 32
                &&& first % size == 0
                &&& first <= n.gateway.num() <= last
                &&& first <= n.pool.start.num() <= n.pool.end.num() <= last
                &&& n.gateway.num() < n.pool.start.num() || n.pool.end.num() < n.gateway.num()
            }
        }),
{
    if n.cidr@.prefix <= 32 {
        net::law_network_is_a_range(n.cidr@, n.gateway);
        net::law_network_is_a_range(n.cidr@, n.pool.start);
        net::law_network_is_a_range(n.cidr@, n.pool.end);
    }
}

/// No visible character of ASCII is white space.
pub proof fn law_visible_characters_are_no_white_space(c: char)
    ensures
        0x21 <= c as u32 <= 0x7e ==> !text::white_space(c),
        c == ' ' ==> text::white_space(c),
{
}

/// A host port is given to a pair only where it is in the range, no pair has it
/// and every lower one of the range is taken; and none is free only where every
/// one of the range is taken by some pair. No host port is passed over.
pub proof fn law_no_free_host_port_is_passed_over(
    p: Published,
    range: (u16, u16),
    host: u16,
    other: u16,
)
    ensures
        lowest_free_host(p, range, host) ==> range.0 <= host <= range.1 && forall|
            k: (Seq<char>, u16),
        | #[trigger] p.contains_key(k) ==> p[k] != host,
        (lowest_free_host(p, range, host) && range.0 <= other < host) || (hosts_exhausted(p, range)
            && range.0 <= other <= range.1) ==> exists|k: (Seq<char>, u16)| #[trigger]
            p.contains_key(k) && p[k] == other,
        range.0 <= other <= range.1 && (forall|k: (Seq<char>, u16)| #[trigger]
            p.contains_key(k) ==> p[k] != other) ==> !hosts_exhausted(p, range),
{
    if lowest_free_host(p, range, host) {
        assert(!host_taken(p, host));
    }
    if (lowest_free_host(p, range, host) && range.0 <= other < host) || (hosts_exhausted(p, range)
        && range.0 <= other <= range.1) {
        assert(host_taken(p, other));
    }
}

/// The forwards of a port are just the pairs that are published for it, in
/// ascending order.
pub proof fn law_forwards_are_what_is_published(
    p: Published,
    name: Seq<char>,
    f: Seq<(u16, u16)>,
    vm: u16,
    host: u16,
)
    requires
        forwards_of(p, name, f),
    ensures
        f.contains((vm, host)) <==> p.contains_key((name, vm)) && p[(name, vm)] == host,
        forall|i: int, j: int| 0 <= i < j < f.len() ==> (#[trigger] f[i]).0 < (#[trigger] f[j]).0,
{
    if f.contains((vm, host)) {
        let i = f.index_of((vm, host));
        assert(f[i].0 == vm);
    }
    if p.contains_key((name, vm)) && p[(name, vm)] == host {
        let i = choose|i: int| 0 <= i < f.len() && (#[trigger] f[i]).0 == vm;
        assert(f[i] == (vm, host));
    }
}

/// Why a network is refused, of whatever addresses: the first of what is wrong
/// with it counts, from its name on to its pool.
pub proof fn law_why_a_network_is_refused(
    name: Seq<char>,
    c: net::CidrView,
    g: Ipv4Addr,
    pool: IpPool,
    e: ModelError,
)
    requires
        c.valid(),
        refusal(name, c.text(), g.text(), pool, e),
    ensures
        ({
            let first = c.addr.num();
            let last = first + vstd::arithmetic::power2::pow2((32 - c.prefix) as nat) - 1;
            e == (if forall|i: int|
                0 <= i < name.len() ==> text::white_space(#[trigger] name[i]) {
                ModelError::BlankName
            } else if !(first <= g.num() <= last) {
                ModelError::GatewayOutsideCidr
            } else if pool.start.num() > pool.end.num() {
                ModelError::ReversedPool
            } else if !(first <= pool.start.num() && pool.end.num() <= last) {
                ModelError::PoolOutsideCidr
            } else {
                ModelError::PoolContainsGateway
            })
        }),
{
    if !text::blank(name) {
        assert(!no_network(c.text()));
        assert(!no_address(g.text()));
        let (d, h) = choose|d: net::CidrView, h: Ipv4Addr|
            #![trigger d.has(h)]
            {
                &&& d.valid()
                &&& d.text() == c.text()
                &&& h.text() == g.text()
                &&& if !d.has(h) {
                    e == ModelError::GatewayOutsideCidr
                } else if pool.start.num() > pool.end.num() {
                    e == ModelError::ReversedPool
                } else if !d.has(pool.start) || !d.has(pool.end) {
                    e == ModelError::PoolOutsideCidr
                } else {
                    pool.has(h) && e == ModelError::PoolContainsGateway
                }
            };
        net::law_network_text_is_unique(c, d);
        net::law_address_text_is_unique(g, h);
        net::law_network_is_a_range(c, g);
        net::law_network_is_a_range(c, pool.start);
        net::law_network_is_a_range(c, pool.end);
    }
}

/// A network whose addresses are no network, or whose gateway is no address, is
/// refused for that, unless its name is blank.
pub proof fn law_words_that_are_no_addresses_are_refused(
    name: Seq<char>,
    cidr: Seq<char>,
    gateway: Seq<char>,
    pool: IpPool,
    e: ModelError,
    i: int,
)
    requires
        0 <= i < name.len(),
        !text::white_space(name[i]),
        refusal(name, cidr, gateway, pool, e),
    ensures
        (forall|c: net::CidrView| #[trigger] c.valid() ==> c.text() != cidr) ==> e
            == ModelError::InvalidCidr,
        (exists|c: net::CidrView| #[trigger] c.valid() && c.text() == cidr) && (forall|g: Ipv4Addr|
            #[trigger] g.text() != gateway) ==> e == ModelError::InvalidGateway,
{
    assert(!text::blank(name));
}

} // verus!
