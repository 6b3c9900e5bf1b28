//! Address management for one network: which address of the pool is bound to
//! which MAC address.

use vstd::prelude::*;

use crate::model::{Ipv4Addr, MacAddr, Network};
use crate::net;

verus! {

/// Why an address could not be allocated or released.
#[derive(Debug, Clone, Copy, PartialEq, Eq, Structural)]
pub enum IpamError {
    /// Every address in the pool is already bound to a MAC.
    PoolExhausted,
    /// The MAC has no address to release.
    UnknownMac,
}

impl IpamError {
    /// The error in words.
    pub fn message(&self) -> (r: String)
        ensures
            r@ == (match *self {
                IpamError::PoolExhausted => "IP pool exhausted"@,
                IpamError::UnknownMac => "no allocation for the given MAC"@,
            }),
    {
        match self {
            IpamError::PoolExhausted => "IP pool exhausted".to_owned(),
            IpamError::UnknownMac => "no allocation for the given MAC".to_owned(),
        }
    }
}

/// The bindings of one network: each allocation takes the lowest free address
/// of the pool and binds it to a MAC, which keeps it until it is released.
#[derive(Debug)]
pub struct Ipam {
    network: Network,
    allocations: Vec<(MacAddr, Ipv4Addr)>,
}

/// What an [`Ipam`] holds.
pub struct IpamView {
    pub network: Network,
    pub bindings: Map<MacAddr, Ipv4Addr>,
}

impl IpamView {
    /// Whether some MAC is bound to `ip`.
    pub open spec fn bound(self, ip: Ipv4Addr) -> bool {
        exists|m: MacAddr| #[trigger] self.bindings.contains_key(m) && self.bindings[m] == ip
    }

    /// Whether `ip` is the lowest address of the pool that is not bound.
    pub open spec fn lowest_free(self, ip: Ipv4Addr) -> bool {
        &&& self.network.pool.has(ip)
        &&& !self.bound(ip)
        &&& forall|other: Ipv4Addr|
            self.network.pool.start.num() <= other.num() < ip.num() ==> #[trigger] self.bound(other)
    }

    /// Whether every address of the pool is bound.
    pub open spec fn exhausted(self) -> bool {
        forall|ip: Ipv4Addr| self.network.pool.has(ip) ==> #[trigger] self.bound(ip)
    }

    /// The same with `mac` bound to `ip`.
    pub open spec fn bind(self, mac: MacAddr, ip: Ipv4Addr) -> IpamView {
        IpamView { network: self.network, bindings: self.bindings.insert(mac, ip) }
    }

    /// The same with `mac` bound to nothing.
    pub open spec fn unbind(self, mac: MacAddr) -> IpamView {
        IpamView { network: self.network, bindings: self.bindings.remove(mac) }
    }

    /// The address bound to `mac`, if any.
    pub open spec fn at(self, mac: MacAddr) -> Option<Ipv4Addr> {
        if self.bindings.contains_key(mac) {
            Some(self.bindings[mac])
        } else {
            None
        }
    }

    /// Whether every bound address is in the pool and no address is bound to
    /// two MACs.
    pub open spec fn sound(self) -> bool {
        &&& forall|m: MacAddr| #[trigger]
            self.bindings.contains_key(m) ==> self.network.pool.has(self.bindings[m])
        &&& forall|m: MacAddr, n: MacAddr|
            #[trigger] self.bindings.contains_key(m) && #[trigger] self.bindings.contains_key(n)
                && self.bindings[m] == self.bindings[n] ==> m == n
    }
}

/// Whether `s` holds no MAC twice.
spec fn distinct_macs(s: Seq<(MacAddr, Ipv4Addr)>) -> bool {
    forall|i: int, j: int| 0 <= i < j < s.len() ==> (#[trigger] s[i]).0 != (#[trigger] s[j]).0
}

/// Whether `mac` is one of the MACs of `s`.
spec fn holds_mac(s: Seq<(MacAddr, Ipv4Addr)>, mac: MacAddr) -> bool {
    exists|i: int| 0 <= i < s.len() && (#[trigger] s[i]).0 == mac
}

/// The bindings that the pairs `s` stand for.
spec fn bindings_of(s: Seq<(MacAddr, Ipv4Addr)>) -> Map<MacAddr, Ipv4Addr> {
    Map::new(
        |m: MacAddr| holds_mac(s, m),
        |m: MacAddr| s[choose|i: int| 0 <= i < s.len() && (#[trigger] s[i]).0 == m].1,
    )
}

proof fn lemma_pair(s: Seq<(MacAddr, Ipv4Addr)>, i: int)
    requires
        distinct_macs(s),
        0 <= i < s.len(),
    ensures
        bindings_of(s).contains_key(s[i].0),
        bindings_of(s)[s[i].0] == s[i].1,
{
    let j = choose|j: int| 0 <= j < s.len() && (#[trigger] s[j]).0 == s[i].0;
    assert(s[i].0 == s[i].0);
    assert(j == i);
}

proof fn lemma_pairs_push(s: Seq<(MacAddr, Ipv4Addr)>, e: (MacAddr, Ipv4Addr))
    requires
        distinct_macs(s),
        !holds_mac(s, e.0),
    ensures
        distinct_macs(s.push(e)),
        bindings_of(s.push(e)) == bindings_of(s).insert(e.0, e.1),
{
    let t = s.push(e);
    assert forall|i: int, j: int| 0 <= i < j < t.len() implies (#[trigger] t[i]).0 != (
    #[trigger] t[j]).0 by {
        if j == s.len() {
            assert(s[i].0 != e.0);
        } else {
            assert(s[i].0 != s[j].0);
        }
    }
    assert forall|m: MacAddr| holds_mac(t, m) == (holds_mac(s, m) || m == e.0) by {
        assert(t[s.len() as int] == e);
        if holds_mac(s, m) {
            let i = choose|i: int| 0 <= i < s.len() && (#[trigger] s[i]).0 == m;
            assert(t[i].0 == m);
        }
    }
    assert forall|m: MacAddr| holds_mac(t, m) implies bindings_of(t)[m] == bindings_of(s).insert(
        e.0,
        e.1,
    )[m] by {
        let i = choose|i: int| 0 <= i < t.len() && (#[trigger] t[i]).0 == m;
        lemma_pair(t, i);
        if i < s.len() {
            lemma_pair(s, i);
        }
    }
    assert(bindings_of(t) =~= bindings_of(s).insert(e.0, e.1));
}

proof fn lemma_pairs_remove(s: Seq<(MacAddr, Ipv4Addr)>, at: int)
    requires
        distinct_macs(s),
        0 <= at < s.len(),
    ensures
        distinct_macs(s.remove(at)),
        bindings_of(s.remove(at)) == bindings_of(s).remove(s[at].0),
{
    let t = s.remove(at);
    let gone = s[at].0;
    assert forall|i: int| 0 <= i < t.len() implies #[trigger] t[i] == (if i < at {
        s[i]
    } else {
        s[i + 1]
    }) by {}
    assert forall|m: MacAddr| holds_mac(t, m) == (holds_mac(s, m) && m != gone) by {
        if holds_mac(t, m) {
            let i = choose|i: int| 0 <= i < t.len() && (#[trigger] t[i]).0 == m;
            let j = if i < at { i } else { i + 1 };
            assert(s[j].0 == m);
        }
        if holds_mac(s, m) && m != gone {
            let i = choose|i: int| 0 <= i < s.len() && (#[trigger] s[i]).0 == m;
            let j = if i < at { i } else { i - 1 };
            assert(t[j].0 == m);
        }
    }
    assert forall|m: MacAddr| holds_mac(t, m) implies bindings_of(t)[m] == bindings_of(s)[m] by {
        let i = choose|i: int| 0 <= i < t.len() && (#[trigger] t[i]).0 == m;
        lemma_pair(t, i);
        lemma_pair(s, if i < at { i } else { i + 1 });
    }
    assert(bindings_of(t) =~= bindings_of(s).remove(gone));
}

impl View for Ipam {
    type V = IpamView;

    closed spec fn view(&self) -> IpamView {
        IpamView { network: self.network, bindings: bindings_of(self.allocations@) }
    }
}

impl Clone for Ipam {
    fn clone(&self) -> (r: Self)
        ensures
            r@ == self@,
    {
        proof {
            use_type_invariant(self);
        }
        Ipam { network: self.network.clone(), allocations: self.copied() }
    }
}

impl Ipam {
    #[verifier::type_invariant]
    closed spec fn wf(self) -> bool {
        distinct_macs(self.allocations@)
    }

    /// An allocator for `network` with nothing bound.
    pub fn new(network: Network) -> (r: Self)
        ensures
            r@.network == network,
            r@.bindings == Map::<MacAddr, Ipv4Addr>::empty(),
            r@.sound(),
    {
        let r = Ipam { network, allocations: Vec::new() };
        assert(r@.bindings =~= Map::<MacAddr, Ipv4Addr>::empty());
        r
    }

    /// The network whose addresses are managed.
    pub fn network(&self) -> (r: &Network)
        ensures
            *r == self@.network,
    {
        &self.network
    }

    /// The position of `mac` among the allocations.
    fn find(&self, mac: MacAddr) -> (r: Option<usize>)
        ensures
            match r {
                Some(i) => i < self.allocations@.len() && self.allocations@[i as int].0 == mac,
                None => !holds_mac(self.allocations@, mac),
            },
    {
        let mut i: usize = 0;
        while i < self.allocations.len()
            invariant
                i <= self.allocations@.len(),
                forall|j: int| 0 <= j < i ==> (#[trigger] self.allocations@[j]).0 != mac,
            decreases self.allocations@.len() - i,
        {
            if self.allocations[i].0 == mac {
                return Some(i);
            }
            i = i + 1;
        }
        None
    }

    /// Whether some MAC is bound to `ip`.
    fn is_bound(&self, ip: Ipv4Addr) -> (r: bool)
        ensures
            r == self@.bound(ip),
    {
        proof {
            use_type_invariant(self);
        }
        let mut i: usize = 0;
        while i < self.allocations.len()
            invariant
                distinct_macs(self.allocations@),
                i <= self.allocations@.len(),
                forall|j: int| 0 <= j < i ==> (#[trigger] self.allocations@[j]).1 != ip,
            decreases self.allocations@.len() - i,
        {
            if self.allocations[i].1 == ip {
                proof {
                    lemma_pair(self.allocations@, i as int);
                    assert(self@.bindings.contains_key(self.allocations@[i as int].0));
                }
                return true;
            }
            i = i + 1;
        }
        proof {
            assert forall|m: MacAddr| #[trigger]
                self@.bindings.contains_key(m) implies self@.bindings[m] != ip by {
                let j = choose|j: int|
                    0 <= j < self.allocations@.len() && (#[trigger] self.allocations@[j]).0 == m;
                lemma_pair(self.allocations@, j);
            }
        }
        false
    }

    /// The address bound to `mac`; where there is none, the lowest free
    /// address of the pool, which is then bound to it. Fails where every
    /// address of the pool is bound to another MAC.
    pub fn allocate(&mut self, mac: MacAddr) -> (r: Result<Ipv4Addr, IpamError>)
        ensures
            match r {
                Ok(ip) => if old(self)@.bindings.contains_key(mac) {
                    ip == old(self)@.bindings[mac] && final(self)@ == old(self)@
                } else {
                    old(self)@.lowest_free(ip) && final(self)@ == old(self)@.bind(mac, ip)
                },
                Err(e) => {
                    &&& e == IpamError::PoolExhausted
                    &&& !old(self)@.bindings.contains_key(mac)
                    &&& old(self)@.exhausted()
                    &&& final(self)@ == old(self)@
                },
            },
    {
        if let Some(ip) = self.lookup(mac) {
            return Ok(ip);
        }
        let start: u64 = self.network.pool.start.to_u32() as u64;
        let end: u64 = self.network.pool.end.to_u32() as u64;
        let mut candidate: u64 = start;
        while candidate <= end
            invariant
                *self == *old(self),
                !self@.bindings.contains_key(mac),
                start == self@.network.pool.start.num(),
                end == self@.network.pool.end.num(),
                start <= candidate,
                end <= 0xffff_ffff,
                candidate <= 0x1_0000_0000,
                forall|ip: Ipv4Addr| start <= ip.num() < candidate ==> #[trigger] self@.bound(ip),
            decreases 0x1_0000_0000 - candidate,
        {
            let ip = Ipv4Addr::from_u32(candidate as u32);
            if !self.is_bound(ip) {
                proof {
                    use_type_invariant(&*self);
                    lemma_pairs_push(self.allocations@, (mac, ip));
                }
                let mut allocations: Vec<(MacAddr, Ipv4Addr)> = Vec::new();
                std::mem::swap(&mut allocations, &mut self.allocations);
                allocations.push((mac, ip));
                self.allocations = allocations;
                return Ok(ip);
            }
            proof {
                assert forall|other: Ipv4Addr| start <= other.num() < candidate + 1 implies
                    #[trigger] self@.bound(other) by {
                    if other.num() == candidate {
                        net::lemma_num_injective(other, ip);
                    }
                }
            }
            candidate = candidate + 1;
        }
        Err(IpamError::PoolExhausted)
    }

    /// Binds `mac` to just the address `ip`; says whether that was possible:
    /// `ip` is in the pool, and neither is bound.
    pub fn reserve(&mut self, mac: MacAddr, ip: Ipv4Addr) -> (r: bool)
        ensures
            r == (old(self)@.network.pool.has(ip) && !old(self)@.bindings.contains_key(mac)
                && !old(self)@.bound(ip)),
            final(self)@ == (if r {
                old(self)@.bind(mac, ip)
            } else {
                old(self)@
            }),
    {
        if !self.network.pool.contains(ip) || self.lookup(mac).is_some() || self.is_bound(ip) {
            return false;
        }
        proof {
            use_type_invariant(&*self);
            lemma_pairs_push(self.allocations@, (mac, ip));
        }
        let mut allocations: Vec<(MacAddr, Ipv4Addr)> = Vec::new();
        std::mem::swap(&mut allocations, &mut self.allocations);
        allocations.push((mac, ip));
        self.allocations = allocations;
        true
    }

    /// Frees the address bound to `mac`; fails where there is none.
    pub fn release(&mut self, mac: MacAddr) -> (r: Result<(), IpamError>)
        ensures
            match r {
                Ok(_) => old(self)@.bindings.contains_key(mac) && final(self)@ == old(self)@.unbind(
                    mac,
                ),
                Err(e) => e == IpamError::UnknownMac && !old(self)@.bindings.contains_key(mac)
                    && final(self)@ == old(self)@,
            },
    {
        match self.find(mac) {
            None => Err(IpamError::UnknownMac),
            Some(i) => {
                proof {
                    use_type_invariant(&*self);
                    lemma_pair(self.allocations@, i as int);
                    lemma_pairs_remove(self.allocations@, i as int);
                }
                let mut allocations: Vec<(MacAddr, Ipv4Addr)> = Vec::new();
                std::mem::swap(&mut allocations, &mut self.allocations);
                let _ = allocations.remove(i);
                self.allocations = allocations;
                Ok(())
            },
        }
    }

    /// The address bound to `mac`, if any.
    pub fn lookup(&self, mac: MacAddr) -> (r: Option<Ipv4Addr>)
        ensures
            r == self@.at(mac),
    {
        proof {
            use_type_invariant(self);
        }
        match self.find(mac) {
            None => None,
            Some(i) => {
                proof {
                    lemma_pair(self.allocations@, i as int);
                }
                Some(self.allocations[i].1)
            },
        }
    }

    /// The bindings, each MAC once.
    pub fn snapshot(&self) -> (r: Vec<(MacAddr, Ipv4Addr)>)
        ensures
            forall|i: int|
                0 <= i < r.len() ==> self@.bindings.contains_key((#[trigger] r[i]).0)
                    && self@.bindings[r[i].0] == r[i].1,
            forall|m: MacAddr| #[trigger]
                self@.bindings.contains_key(m) ==> exists|i: int|
                    0 <= i < r.len() && (#[trigger] r[i]).0 == m,
            forall|i: int, j: int| 0 <= i < j < r.len() ==> (#[trigger] r[i]).0 != (#[trigger] r[j]).0,
    {
        proof {
            use_type_invariant(self);
        }
        let r = self.copied();
        proof {
            assert forall|i: int| 0 <= i < r.len() implies self@.bindings.contains_key(
                (#[trigger] r[i]).0,
            ) && self@.bindings[r[i].0] == r[i].1 by {
                lemma_pair(self.allocations@, i);
            }
        }
        r
    }

    /// A copy of the pairs.
    fn copied(&self) -> (r: Vec<(MacAddr, Ipv4Addr)>)
        ensures
            r@ == self.allocations@,
    {
        let mut r: Vec<(MacAddr, Ipv4Addr)> = Vec::new();
        let mut i: usize = 0;
        while i < self.allocations.len()
            invariant
                i <= self.allocations@.len(),
                r@ == self.allocations@.take(i as int),
            decreases self.allocations@.len() - i,
        {
            r.push(self.allocations[i]);
            assert(self.allocations@.take(i + 1) =~= self.allocations@.take(i as int).push(
                self.allocations@[i as int],
            ));
            i = i + 1;
        }
        assert(r@ =~= self.allocations@);
        r
    }
}

/// Allocating keeps every bound address in the pool and bound to one MAC, and
/// never hands out the gateway of a valid network.
pub proof fn law_allocation_stays_sound(v: IpamView, mac: MacAddr, ip: Ipv4Addr)
    requires
        v.sound(),
        v.network.wf(),
        !v.bindings.contains_key(mac),
        v.lowest_free(ip),
    ensures
        v.bind(mac, ip).sound(),
        ip != v.network.gateway,
        v.network.cidr@.has(v.network.gateway),
        forall|m: MacAddr| #[trigger] v.bindings.contains_key(m) ==> v.bindings[m] != ip,
{
}

/// Releasing keeps every bound address in the pool and bound to one MAC, and
/// makes the released address free.
pub proof fn law_release_frees_the_address(v: IpamView, mac: MacAddr)
    requires
        v.sound(),
        v.bindings.contains_key(mac),
    ensures
        v.unbind(mac).sound(),
        !v.unbind(mac).bound(v.bindings[mac]),
        !v.unbind(mac).exhausted(),
        forall|m: MacAddr| m != mac ==> v.unbind(mac).at(m) == v.at(m),
{
    let ip = v.bindings[mac];
    assert(v.network.pool.has(ip));
    assert(!v.unbind(mac).bound(ip)) by {
        if v.unbind(mac).bound(ip) {
            let m = choose|m: MacAddr| #[trigger]
                v.unbind(mac).bindings.contains_key(m) && v.unbind(mac).bindings[m] == ip;
            assert(v.bindings.contains_key(m));
        }
    }
}

/// No address of the gateway is ever bound in a valid network.
pub proof fn law_gateway_is_never_bound(v: IpamView)
    requires
        v.sound(),
        v.network.wf(),
    ensures
        !v.bound(v.network.gateway),
{
}

/// The lowest free address is one between the ends of the pool that nobody
/// holds, while somebody holds every lower one; and a pool is exhausted only
/// where somebody holds every address of it. No other address is passed over.
pub proof fn law_no_free_address_is_passed_over(v: IpamView, ip: Ipv4Addr, other: Ipv4Addr)
    ensures
        ({
            let start = v.network.pool.start.num();
            let end = v.network.pool.end.num();
            &&& v.lowest_free(ip) ==> start <= ip.num() <= end && forall|m: MacAddr| #[trigger]
                v.bindings.contains_key(m) ==> v.bindings[m] != ip
            &&& v.lowest_free(ip) && start <= other.num() < ip.num() ==> exists|m: MacAddr| #[trigger]
                v.bindings.contains_key(m) && v.bindings[m] == other
            &&& v.exhausted() && start <= other.num() <= end ==> exists|m: MacAddr| #[trigger]
                v.bindings.contains_key(m) && v.bindings[m] == other
            &&& start <= other.num() <= end && (forall|m: MacAddr| #[trigger]
                v.bindings.contains_key(m) ==> v.bindings[m] != other) ==> !v.exhausted()
        }),
{
    if v.lowest_free(ip) {
        assert(!v.bound(ip));
    }
    let start = v.network.pool.start.num();
    if (v.lowest_free(ip) && start <= other.num() < ip.num()) || (v.exhausted() && start
        <= other.num() <= v.network.pool.end.num()) {
        assert(v.bound(other));
    }
}

/// Binding and freeing an address changes it for the one MAC address alone.
pub proof fn law_binding_changes_one(v: IpamView, mac: MacAddr, ip: Ipv4Addr, m: MacAddr)
    ensures
        v.bind(mac, ip).network == v.network,
        v.unbind(mac).network == v.network,
        v.bind(mac, ip).at(m) == (if m == mac {
            Some(ip)
        } else {
            v.at(m)
        }),
        v.unbind(mac).at(m) == (if m == mac {
            None
        } else {
            v.at(m)
        }),
        v.at(m) == (if v.bindings.contains_key(m) {
            Some(v.bindings[m])
        } else {
            None
        }),
{
}

} // verus!
