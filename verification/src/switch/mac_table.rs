//! The MAC learning table: which port an address was last seen on. The table
//! is bounded; where it is full, the address that was seen longest ago leaves.

use vstd::prelude::*;

use crate::model::MacAddr;

verus! {

/// The handle of a port.
#[derive(Debug, Clone, Copy, PartialEq, Eq, Hash, PartialOrd, Ord, Structural)]
pub struct PortId(pub u32);

/// The learned addresses, the most recently seen one last.
#[derive(Debug)]
pub struct MacTable {
    capacity: usize,
    entries: Vec<(MacAddr, PortId)>,
}

/// What a [`MacTable`] holds.
pub struct TableView {
    pub capacity: nat,
    pub entries: Seq<(MacAddr, PortId)>,
}

/// Whether `mac` was learned and not forgotten since.
pub open spec fn knows(s: Seq<(MacAddr, PortId)>, mac: MacAddr) -> bool {
    exists|i: int| 0 <= i < s.len() && (#[trigger] s[i]).0 == mac
}

/// The position of `mac` in `s`.
pub open spec fn position(s: Seq<(MacAddr, PortId)>, mac: MacAddr) -> int {
    choose|i: int| 0 <= i < s.len() && (#[trigger] s[i]).0 == mac
}

/// The port that `mac` was last seen on.
pub open spec fn port_of(s: Seq<(MacAddr, PortId)>, mac: MacAddr) -> Option<PortId> {
    if knows(s, mac) {
        Some(s[position(s, mac)].1)
    } else {
        None
    }
}

/// `s` without the entry for `mac`.
pub open spec fn without(s: Seq<(MacAddr, PortId)>, mac: MacAddr) -> Seq<(MacAddr, PortId)> {
    if knows(s, mac) {
        s.remove(position(s, mac))
    } else {
        s
    }
}

/// Whether no address occurs twice in `s`.
pub open spec fn distinct(s: Seq<(MacAddr, PortId)>) -> bool {
    forall|i: int, j: int| 0 <= i < j < s.len() ==> (#[trigger] s[i]).0 != (#[trigger] s[j]).0
}

impl TableView {
    /// Whether no address occurs twice and the capacity is kept.
    pub open spec fn valid(self) -> bool {
        distinct(self.entries) && self.entries.len() <= self.capacity
    }

    /// The table once `mac` was seen on `port`: its entry becomes the most
    /// recent one, and where there is no room for it, the oldest entry
    /// leaves. A table without capacity learns nothing.
    pub open spec fn learned(self, port: PortId, mac: MacAddr) -> TableView {
        let rest = without(self.entries, mac);
        if self.capacity == 0 {
            self
        } else if rest.len() >= self.capacity {
            TableView { capacity: self.capacity, entries: rest.skip(1).push((mac, port)) }
        } else {
            TableView { capacity: self.capacity, entries: rest.push((mac, port)) }
        }
    }
}

impl View for MacTable {
    type V = TableView;

    closed spec fn view(&self) -> TableView {
        TableView { capacity: self.capacity as nat, entries: self.entries@ }
    }
}

/// Where no address occurs twice, an entry is the one for its address.
pub proof fn lemma_position(s: Seq<(MacAddr, PortId)>, i: int)
    requires
        distinct(s),
        0 <= i < s.len(),
    ensures
        knows(s, s[i].0),
        position(s, s[i].0) == i,
{
    let j = position(s, s[i].0);
    assert(s[i].0 == s[i].0);
    assert(j == i);
}

/// Taking out an entry leaves the others distinct.
proof fn lemma_without(s: Seq<(MacAddr, PortId)>, mac: MacAddr)
    requires
        distinct(s),
    ensures
        distinct(without(s, mac)),
        !knows(without(s, mac), mac),
        forall|m: MacAddr| m != mac ==> port_of(without(s, mac), m) == port_of(s, m),
{
    let t = without(s, mac);
    if knows(s, mac) {
        let at = position(s, mac);
        assert forall|i: int| 0 <= i < t.len() implies #[trigger] t[i] == (if i < at {
            s[i]
        } else {
            s[i + 1]
        }) by {}
        assert(distinct(t));
        assert forall|m: MacAddr| m != mac implies port_of(t, m) == port_of(s, m) by {
            if knows(t, m) {
                let i = position(t, m);
                let j = if i < at { i } else { i + 1 };
                assert(s[j].0 == m);
                lemma_position(s, j);
            }
            if knows(s, m) {
                let i = position(s, m);
                let j = if i < at { i } else { i - 1 };
                assert(t[j].0 == m);
                lemma_position(t, j);
            }
        }
    }
}

/// Learning keeps a table valid.
pub proof fn law_table_stays_valid(v: TableView, port: PortId, mac: MacAddr)
    requires
        v.valid(),
    ensures
        v.learned(port, mac).valid(),
        v.learned(port, mac).capacity == v.capacity,
{
    lemma_without(v.entries, mac);
    let rest = without(v.entries, mac);
    let kept = if rest.len() >= v.capacity { rest.skip(1) } else { rest };
    if v.capacity > 0 {
        let t = kept.push((mac, port));
        assert forall|i: int, j: int| 0 <= i < j < t.len() implies (#[trigger] t[i]).0 != (
        #[trigger] t[j]).0 by {
            let o: int = if rest.len() >= v.capacity { 1 } else { 0 };
            assert(t[i] == rest[i + o]);
            if j < kept.len() {
                assert(t[j] == rest[j + o]);
            } else {
                assert(rest[i + o].0 != mac);
            }
        }
    }
}

/// An address that was just learned is known, on the port it was seen on.
pub proof fn law_learned_address_is_known(v: TableView, port: PortId, mac: MacAddr)
    requires
        v.valid(),
        v.capacity > 0,
    ensures
        port_of(v.learned(port, mac).entries, mac) == Some(port),
{
    law_table_stays_valid(v, port, mac);
    let t = v.learned(port, mac).entries;
    assert(t.last() == (mac, port));
    lemma_position(t, t.len() - 1);
}

/// Learning forgets nothing while there is room, and one address otherwise:
/// the one that was seen longest ago.
pub proof fn law_only_the_oldest_leaves(v: TableView, port: PortId, mac: MacAddr, other: MacAddr)
    requires
        v.valid(),
        v.capacity > 0,
        other != mac,
    ensures
        port_of(v.learned(port, mac).entries, other) == (if !knows(v.entries, mac)
            && v.entries.len() == v.capacity && v.entries[0].0 == other {
            None
        } else {
            port_of(v.entries, other)
        }),
{
    law_table_stays_valid(v, port, mac);
    lemma_without(v.entries, mac);
    let rest = without(v.entries, mac);
    let t = v.learned(port, mac).entries;
    let o: int = if rest.len() >= v.capacity { 1 } else { 0 };
    assert forall|i: int| 0 <= i < t.len() - 1 implies #[trigger] t[i] == rest[i + o] by {}
    assert(t.last() == (mac, port));
    if knows(rest, other) {
        let i = position(rest, other);
        if i >= o {
            assert(t[i - o] == rest[i]);
            lemma_position(t, i - o);
        } else {
            assert(!knows(t, other)) by {
                if knows(t, other) {
                    let j = position(t, other);
                    assert(t[j] == rest[j + o]);
                }
            }
        }
    } else if knows(t, other) {
        let j = position(t, other);
        assert(t[j] == rest[j + o]);
    }
}

impl TableView {
    /// The table once the addresses of `seen` were seen, in order, each on its
    /// port.
    pub open spec fn learned_all(self, seen: Seq<(PortId, MacAddr)>) -> TableView
        decreases seen.len(),
    {
        if seen.len() == 0 {
            self
        } else {
            self.learned_all(seen.drop_last()).learned(seen.last().0, seen.last().1)
        }
    }
}

/// The addresses of `seen` other than `mac`.
pub open spec fn others(seen: Seq<(PortId, MacAddr)>, mac: MacAddr) -> Set<MacAddr>
    decreases seen.len(),
{
    if seen.len() == 0 {
        Set::empty()
    } else if seen.last().1 == mac {
        others(seen.drop_last(), mac)
    } else {
        others(seen.drop_last(), mac).insert(seen.last().1)
    }
}

/// Whether `s` has `mac` on `port`, and behind it nothing but addresses of
/// `newer`.
spec fn known_before(
    s: Seq<(MacAddr, PortId)>,
    mac: MacAddr,
    port: PortId,
    newer: Set<MacAddr>,
) -> bool {
    exists|p: int|
        0 <= p < s.len() && #[trigger] s[p] == (mac, port) && forall|j: int|
            p < j < s.len() ==> newer.contains((#[trigger] s[j]).0)
}

/// An address does not leave while fewer others than fit are newer.
proof fn lemma_known_before(
    v: TableView,
    mac: MacAddr,
    port: PortId,
    newer: Set<MacAddr>,
    at: PortId,
    other: MacAddr,
)
    requires
        v.valid(),
        known_before(v.entries, mac, port, newer),
        newer.finite(),
        newer.insert(other).len() < v.capacity,
        other != mac,
    ensures
        known_before(v.learned(at, other).entries, mac, port, newer.insert(other)),
{
    let s = v.entries;
    let p = choose|p: int|
        0 <= p < s.len() && #[trigger] s[p] == (mac, port) && forall|j: int|
            p < j < s.len() ==> newer.contains((#[trigger] s[j]).0);
    let all = newer.insert(other);
    let rest = without(s, other);
    let t = v.learned(at, other).entries;
    if knows(s, other) {
        let k = position(s, other);
        let q = if k < p { p - 1 } else { p };
        assert forall|j: int| 0 <= j < rest.len() implies #[trigger] rest[j] == (if j < k {
            s[j]
        } else {
            s[j + 1]
        }) by {}
        assert(t[q] == (mac, port));
        assert forall|j: int| q < j < t.len() implies all.contains((#[trigger] t[j]).0) by {
            if j < rest.len() {
                let i = if j < k { j } else { j + 1 };
                assert(newer.contains(s[i].0));
            }
        }
    } else if s.len() < v.capacity {
        assert(t[p] == (mac, port));
        assert forall|j: int| p < j < t.len() implies all.contains((#[trigger] t[j]).0) by {
            if j < s.len() {
                assert(newer.contains(s[j].0));
            }
        }
    } else {
        if p == 0 {
            let macs = Seq::new(s.len(), |i: int| if i == 0 { other } else { s[i].0 });
            assert(macs.no_duplicates()) by {
                assert forall|i: int, j: int|
                    0 <= i < macs.len() && 0 <= j < macs.len() && i != j implies macs[i]
                    != macs[j] by {
                    if i != 0 && j != 0 {
                        if i < j {
                            assert(s[i].0 != s[j].0);
                        } else {
                            assert(s[j].0 != s[i].0);
                        }
                    } else {
                        let k = if i == 0 { j } else { i };
                        assert(s[k].0 != other);
                    }
                }
            }
            macs.unique_seq_to_set();
            assert(macs.to_set().subset_of(all)) by {
                assert forall|m: MacAddr| macs.to_set().contains(m) implies all.contains(m) by {
                    let i = macs.index_of(m);
                    if i != 0 {
                        assert(newer.contains(s[i].0));
                    }
                }
            }
            vstd::set_lib::lemma_len_subset(macs.to_set(), all);
        }
        assert(t[p - 1] == (mac, port));
        assert forall|j: int| p - 1 < j < t.len() implies all.contains((#[trigger] t[j]).0) by {
            if j + 1 < s.len() {
                assert(t[j] == s[j + 1]);
                assert(newer.contains(s[j + 1].0));
            }
        }
    }
}

/// The addresses of `seen` are finitely many, and more with every one.
proof fn lemma_others(seen: Seq<(PortId, MacAddr)>, mac: MacAddr)
    ensures
        others(seen, mac).finite(),
        seen.len() > 0 ==> others(seen.drop_last(), mac).len() <= others(seen, mac).len(),
    decreases seen.len(),
{
    if seen.len() > 0 {
        lemma_others(seen.drop_last(), mac);
    }
}

/// An address that was learned stays known, on the port it was seen on, until
/// as many other addresses were learned as the table has room for.
pub proof fn law_address_stays_known(
    v: TableView,
    port: PortId,
    mac: MacAddr,
    seen: Seq<(PortId, MacAddr)>,
)
    requires
        v.valid(),
        forall|i: int| 0 <= i < seen.len() && (#[trigger] seen[i]).1 == mac ==> seen[i].0 == port,
        others(seen, mac).len() < v.capacity,
    ensures
        port_of(v.learned(port, mac).learned_all(seen).entries, mac) == Some(port),
        v.learned(port, mac).learned_all(seen).valid(),
        v.learned(port, mac).learned_all(seen).capacity == v.capacity,
{
    lemma_stays_known(v, port, mac, seen);
    let s = v.learned(port, mac).learned_all(seen).entries;
    let p = choose|p: int|
        0 <= p < s.len() && #[trigger] s[p] == (mac, port) && forall|j: int|
            p < j < s.len() ==> others(seen, mac).contains((#[trigger] s[j]).0);
    lemma_position(s, p);
}

proof fn lemma_stays_known(
    v: TableView,
    port: PortId,
    mac: MacAddr,
    seen: Seq<(PortId, MacAddr)>,
)
    requires
        v.valid(),
        forall|i: int| 0 <= i < seen.len() && (#[trigger] seen[i]).1 == mac ==> seen[i].0 == port,
        others(seen, mac).len() < v.capacity,
    ensures
        known_before(
            v.learned(port, mac).learned_all(seen).entries,
            mac,
            port,
            others(seen, mac),
        ),
        v.learned(port, mac).learned_all(seen).valid(),
        v.learned(port, mac).learned_all(seen).capacity == v.capacity,
    decreases seen.len(),
{
    law_table_stays_valid(v, port, mac);
    lemma_others(seen, mac);
    if seen.len() == 0 {
        let s = v.learned(port, mac).entries;
        assert(s[s.len() - 1] == (mac, port));
    } else {
        let before = seen.drop_last();
        lemma_stays_known(v, port, mac, before);
        lemma_others(before, mac);
        let u = v.learned(port, mac).learned_all(before);
        let (at, other) = seen.last();
        law_table_stays_valid(u, at, other);
        if other == mac {
            assert(seen[seen.len() - 1].0 == port);
            let s = u.learned(port, mac).entries;
            assert(s[s.len() - 1] == (mac, port));
        } else {
            lemma_known_before(u, mac, port, others(before, mac), at, other);
        }
    }
}

impl MacTable {
    #[verifier::type_invariant]
    closed spec fn wf(self) -> bool {
        self@.valid()
    }

    /// An empty table for at most `capacity` addresses.
    pub fn new(capacity: usize) -> (r: MacTable)
        ensures
            r@ == (TableView { capacity: capacity as nat, entries: Seq::empty() }),
    {
        MacTable { capacity, entries: Vec::new() }
    }

    /// The position of `mac` among the entries.
    fn find(&self, mac: MacAddr) -> (r: Option<usize>)
        ensures
            match r {
                Some(i) => i < self@.entries.len() && self@.entries[i as int].0 == mac,
                None => !knows(self@.entries, mac),
            },
    {
        let mut i: usize = 0;
        while i < self.entries.len()
            invariant
                i <= self.entries@.len(),
                forall|j: int| 0 <= j < i ==> (#[trigger] self.entries@[j]).0 != mac,
            decreases self.entries@.len() - i,
        {
            if self.entries[i].0 == mac {
                return Some(i);
            }
            i = i + 1;
        }
        None
    }

    /// Records that `mac` was seen on `port`.
    pub fn learn(&mut self, port: PortId, mac: MacAddr)
        ensures
            final(self)@ == old(self)@.learned(port, mac),
            final(self)@.valid(),
    {
        proof {
            use_type_invariant(&*self);
            law_table_stays_valid(self@, port, mac);
        }
        if self.capacity == 0 {
            return;
        }
        let _ = self.evict(mac);
        let mut entries: Vec<(MacAddr, PortId)> = Vec::new();
        std::mem::swap(&mut entries, &mut self.entries);
        if entries.len() >= self.capacity {
            let ghost rest = entries@;
            let _ = entries.remove(0);
            assert(entries@ =~= rest.skip(1));
        }
        entries.push((mac, port));
        self.entries = entries;
    }

    /// The port that `mac` was last seen on.
    pub fn lookup(&self, mac: MacAddr) -> (r: Option<PortId>)
        ensures
            r == port_of(self@.entries, mac),
    {
        proof {
            use_type_invariant(self);
        }
        match self.find(mac) {
            None => None,
            Some(i) => {
                proof {
                    lemma_position(self.entries@, i as int);
                }
                Some(self.entries[i].1)
            },
        }
    }

    /// Forgets `mac`; says whether it was known.
    pub fn evict(&mut self, mac: MacAddr) -> (r: bool)
        ensures
            r == knows(old(self)@.entries, mac),
            final(self)@ == (TableView {
                capacity: old(self)@.capacity,
                entries: without(old(self)@.entries, mac),
            }),
    {
        proof {
            use_type_invariant(&*self);
            lemma_without(self.entries@, mac);
        }
        match self.find(mac) {
            None => false,
            Some(i) => {
                proof {
                    lemma_position(self.entries@, i as int);
                }
                let mut entries: Vec<(MacAddr, PortId)> = Vec::new();
                std::mem::swap(&mut entries, &mut self.entries);
                let _ = entries.remove(i);
                self.entries = entries;
                true
            },
        }
    }

    /// How many addresses are known.
    pub fn len(&self) -> (r: usize)
        ensures
            r == self@.entries.len(),
            self@.valid(),
    {
        proof {
            use_type_invariant(self);
        }
        self.entries.len()
    }

    /// Whether no address is known.
    pub fn is_empty(&self) -> (r: bool)
        ensures
            r == (self@.entries.len() == 0),
    {
        self.entries.len() == 0
    }
}

/// Where no address occurs twice, an address is known on a port if and only if
/// that pair is in the table.
pub proof fn law_known_is_in_the_table(v: TableView, mac: MacAddr, port: PortId)
    requires
        v.valid(),
    ensures
        port_of(v.entries, mac) == Some(port) <==> v.entries.contains((mac, port)),
        port_of(v.entries, mac) is None <==> forall|i: int|
            0 <= i < v.entries.len() ==> (#[trigger] v.entries[i]).0 != mac,
{
    if v.entries.contains((mac, port)) {
        let i = v.entries.index_of((mac, port));
        lemma_position(v.entries, i);
    }
    if knows(v.entries, mac) {
        let i = position(v.entries, mac);
        assert(v.entries[i].0 == mac);
    }
}

/// Once an address is forgotten it is not known, and every other one is known
/// as before.
pub proof fn law_one_address_is_forgotten(
    v: TableView,
    mac: MacAddr,
    other: MacAddr,
    port: PortId,
)
    requires
        v.valid(),
    ensures
        ({
            let s = without(v.entries, mac);
            &&& forall|i: int| 0 <= i < s.len() ==> (#[trigger] s[i]).0 != mac
            &&& other != mac ==> (s.contains((other, port)) <==> v.entries.contains((other, port)))
        }),
{
    lemma_without(v.entries, mac);
    let s = without(v.entries, mac);
    assert forall|i: int| 0 <= i < s.len() implies (#[trigger] s[i]).0 != mac by {
        assert(!knows(s, mac));
    }
    law_known_is_in_the_table(v, other, port);
    let w = TableView { capacity: v.capacity, entries: s };
    law_known_is_in_the_table(w, other, port);
}

} // verus!
