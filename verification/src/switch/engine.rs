//! The forwarding engine: it learns where addresses are, delivers a frame to
//! the port of its destination where that is known, and floods it within the
//! network otherwise.

use std::collections::HashMap;

use vstd::prelude::*;

use crate::model::MacAddr;
use crate::switch::frame;
use crate::switch::frame::ParsedFrame;
use crate::switch::mac_table;
use crate::switch::mac_table::{MacTable, PortId};
use crate::text::same_text;

verus! {

/// How many addresses a switch remembers.
pub const MAC_TABLE_CAPACITY: usize = 1024;

/// An L2 switch: ports on named networks, and the addresses learned.
#[derive(Debug)]
pub struct Switch {
    /// The live ports, by handle, each with the name of its network.
    ports: HashMap<u32, String>,
    /// The learned addresses.
    table: MacTable,
}

/// What a [`Switch`] holds.
#[verifier::ext_equal]
pub struct SwitchView {
    pub ports: Map<PortId, Seq<char>>,
    pub table: mac_table::TableView,
}

/// The ports of `m` with the names of their networks.
pub open spec fn port_names(m: Map<u32, String>) -> Map<PortId, Seq<char>> {
    Map::new(|p: PortId| m.contains_key(p.0), |p: PortId| m[p.0]@)
}

impl View for Switch {
    type V = SwitchView;

    closed spec fn view(&self) -> SwitchView {
        SwitchView { ports: port_names(self.ports@), table: self.table@ }
    }
}

/// Whether the destination of the frame `f` is a single station: the lowest
/// bit of its first byte is clear.
pub open spec fn is_unicast(f: Seq<u8>) -> bool {
    f[0] % 2 == 0
}

impl SwitchView {
    /// The live ports on `network`, except `exclude`.
    pub open spec fn flood(self, network: Seq<char>, exclude: PortId) -> Set<PortId> {
        Set::new(
            |p: PortId| self.ports.contains_key(p) && self.ports[p] == network && p != exclude,
        )
    }

    /// Whether the switch takes the frame `f` that arrives at `ingress`: the
    /// port is live and the frame is long enough.
    pub open spec fn accepts(self, ingress: PortId, f: Seq<u8>) -> bool {
        self.ports.contains_key(ingress) && frame::parsed(f) is Some
    }

    /// The switch once the frame `f` has arrived at `ingress`: its source is
    /// learned where the frame is taken.
    pub open spec fn after(self, ingress: PortId, f: Seq<u8>) -> SwitchView {
        if self.accepts(ingress, f) {
            SwitchView {
                ports: self.ports,
                table: self.table.learned(ingress, frame::parsed(f)->0.src),
            }
        } else {
            self
        }
    }

    /// The ports that a frame for `dst` leaves by: that of the destination
    /// where it is known, live and on `network`; none where it is the ingress
    /// or a port that is gone; every other port on `network` otherwise.
    pub open spec fn unicast(self, network: Seq<char>, ingress: PortId, dst: MacAddr) -> Set<
        PortId,
    > {
        match mac_table::port_of(self.table.entries, dst) {
            Some(port) => if port == ingress || !self.ports.contains_key(port) {
                Set::empty()
            } else if self.ports[port] == network {
                set![port]
            } else {
                self.flood(network, ingress)
            },
            None => self.flood(network, ingress),
        }
    }

    /// The ports that the frame `f`, arriving at `ingress`, leaves by.
    pub open spec fn egress(self, ingress: PortId, f: Seq<u8>) -> Set<PortId> {
        let learned = self.after(ingress, f);
        let network = self.ports[ingress];
        if !self.accepts(ingress, f) {
            Set::empty()
        } else if is_unicast(f) {
            learned.unicast(network, ingress, frame::parsed(f)->0.dst)
        } else {
            learned.flood(network, ingress)
        }
    }
}

/// The switch with no ports that has learned nothing.
pub open spec fn empty_switch() -> SwitchView {
    SwitchView {
        ports: Map::empty(),
        table: mac_table::TableView { capacity: MAC_TABLE_CAPACITY as nat, entries: Seq::empty() },
    }
}

/// Whether `v` lists the ports of `s`, each once.
pub open spec fn lists(v: Seq<PortId>, s: Set<PortId>) -> bool {
    &&& v.no_duplicates()
    &&& forall|p: PortId| s.contains(p) <==> v.contains(p)
}

impl Switch {
    /// A switch with no ports that has learned nothing.
    pub fn new() -> (r: Switch)
        ensures
            r@ == empty_switch(),
    {
        let r = Switch { ports: HashMap::new(), table: MacTable::new(MAC_TABLE_CAPACITY) };
        assert(r@.ports =~= Map::<PortId, Seq<char>>::empty());
        r
    }

    /// Puts `port` on the network called `network`, taking it off the network
    /// it was on before.
    pub fn add_port(&mut self, port: PortId, network: &str)
        ensures
            final(self)@ == (SwitchView {
                ports: old(self)@.ports.insert(port, network@),
                table: old(self)@.table,
            }),
    {
        let _ = self.ports.insert(port.0, network.to_owned());
        assert(self@.ports =~= old(self)@.ports.insert(port, network@));
    }

    /// Takes `port` off the switch; says whether it was live. What was learned
    /// on it stays.
    pub fn remove_port(&mut self, port: PortId) -> (r: bool)
        ensures
            r == old(self)@.ports.contains_key(port),
            final(self)@ == (SwitchView {
                ports: old(self)@.ports.remove(port),
                table: old(self)@.table,
            }),
    {
        let gone = self.ports.remove(&port.0);
        assert(self@.ports =~= old(self)@.ports.remove(port));
        gone.is_some()
    }

    /// Takes the frame that arrives at `ingress`: learns its source, and gives
    /// the ports that it leaves by, each with the frame unchanged.
    ///
    /// A frame for a single station goes to the port it was learned on, where
    /// that port is live and on the ingress's network; any other frame is
    /// flooded within that network. Nothing goes back to the ingress. A frame
    /// at a port that is not live, and one too short to be read, is dropped
    /// and teaches nothing.
    pub fn forward<'a>(&mut self, ingress: PortId, frame: &'a [u8]) -> (r: Vec<(PortId, &'a [u8])>)
        ensures
            final(self)@ == old(self)@.after(ingress, frame@),
            lists(r@.map_values(|e: (PortId, &'a [u8])| e.0), old(self)@.egress(ingress, frame@)),
            forall|i: int| 0 <= i < r.len() ==> (#[trigger] r[i]).1@ == frame@,
    {
        let parsed = match (self.ports.contains_key(&ingress.0), ParsedFrame::parse(frame)) {
            (true, Ok(parsed)) => parsed,
            _ => {
                let r: Vec<(PortId, &'a [u8])> = Vec::new();
                assert(r@.map_values(|e: (PortId, &'a [u8])| e.0) =~= Seq::<PortId>::empty());
                return r;
            },
        };
        self.table.learn(ingress, parsed.src);
        assert(self@ =~= old(self)@.after(ingress, frame@));
        let network = self.ports.get(&ingress.0).unwrap().as_str();
        let egress = if is_local_unicast(frame) {
            self.unicast_egress(network, ingress, parsed.dst)
        } else {
            self.flood_set(network, ingress)
        };
        let mut r: Vec<(PortId, &'a [u8])> = Vec::new();
        let mut i: usize = 0;
        while i < egress.len()
            invariant
                i <= egress.len(),
                r.len() == i,
                forall|j: int|
                    0 <= j < i ==> (#[trigger] r[j]).0 == egress[j] && r[j].1@ == frame@,
            decreases egress.len() - i,
        {
            r.push((egress[i], frame));
            i = i + 1;
        }
        assert(r@.map_values(|e: (PortId, &'a [u8])| e.0) =~= egress@);
        r
    }

    /// The ports that a frame for the station `dst`, arriving at `ingress` on
    /// `network`, leaves by.
    pub fn unicast_egress(&self, network: &str, ingress: PortId, dst: MacAddr) -> (r: Vec<PortId>)
        ensures
            lists(r@, self@.unicast(network@, ingress, dst)),
    {
        match self.table.lookup(dst) {
            Some(port) => {
                if port == ingress {
                    return Vec::new();
                }
                match self.ports.get(&port.0) {
                    None => Vec::new(),
                    Some(target) => {
                        assert(self@.ports.contains_key(port));
                        if same_text(target.as_str(), network) {
                            let r: Vec<PortId> = vec![port];
                            assert(r@[0] == port);
                            r
                        } else {
                            self.flood_set(network, ingress)
                        }
                    },
                }
            },
            None => self.flood_set(network, ingress),
        }
    }

    /// The live ports on `network`, except `exclude`.
    pub fn flood_set(&self, network: &str, exclude: PortId) -> (r: Vec<PortId>)
        ensures
            lists(r@, self@.flood(network@, exclude)),
    {
        let mut r: Vec<PortId> = Vec::new();
        let pairs = self.ports.iter();
        let ghost all = vstd::std_specs::iter::IteratorSpec::remaining(&pairs);
        proof {
            lemma_walk(self.ports, all);
        }
        for kv in it: pairs
            invariant
                it.seq() == all,
                forall|i: int, j: int|
                    0 <= i < j < all.len() ==> *(#[trigger] all[i]).0 != *(#[trigger] all[j]).0,
                forall|p: PortId| #[trigger]
                    r@.contains(p) ==> p != exclude && exists|j: int|
                        0 <= j < it.index() && *(#[trigger] all[j]).0 == p.0 && all[j].1@
                            == network@,
                forall|j: int|
                    0 <= j < it.index() && *(#[trigger] all[j]).0 != exclude.0 && all[j].1@
                        == network@ ==> r@.contains(PortId(*all[j].0)),
                r@.no_duplicates(),
        {
            let ghost before = r@;
            let ghost at = it.index() as int;
            assert(all[at] == kv);
            if *kv.0 != exclude.0 && same_text(kv.1.as_str(), network) {
                r.push(PortId(*kv.0));
                proof {
                    assert(!before.contains(PortId(*kv.0))) by {
                        if before.contains(PortId(*kv.0)) {
                            let j = choose|j: int|
                                0 <= j < at && *(#[trigger] all[j]).0 == *kv.0 && all[j].1@
                                    == network@;
                            assert(*all[j].0 != *all[at].0);
                        }
                    }
                    assert forall|p: PortId| #[trigger] r@.contains(p) implies before.contains(p)
                        || p == PortId(*kv.0) by {
                        let i = choose|i: int| 0 <= i < r@.len() && r@[i] == p;
                        if i < before.len() {
                            assert(before[i] == p);
                        }
                    }
                    assert forall|p: PortId| before.contains(p) || p == PortId(*kv.0) implies
                        #[trigger] r@.contains(p) by {
                        if before.contains(p) {
                            let i = choose|i: int| 0 <= i < before.len() && before[i] == p;
                            assert(r@[i] == p);
                        } else {
                            assert(r@[before.len() as int] == p);
                        }
                    }
                }
            }
        }
        proof {
            let set = self@.flood(network@, exclude);
            assert forall|p: PortId| set.contains(p) <==> r@.contains(p) by {
                if set.contains(p) {
                    let j = choose|j: int| 0 <= j < all.len() && *(#[trigger] all[j]).0 == p.0;
                    assert(all[j].1@ == network@);
                }
                if r@.contains(p) {
                    let j = choose|j: int|
                        0 <= j < all.len() && *(#[trigger] all[j]).0 == p.0 && all[j].1@
                            == network@;
                    assert(self.ports@.contains_key(*all[j].0));
                }
            }
        }
        r
    }
}

/// What walking `m` gives: each of its keys once, with its value.
proof fn lemma_walk(m: HashMap<u32, String>, all: Seq<(&u32, &String)>)
    requires
        all == vstd::std_specs::iter::IteratorSpec::remaining(
            &vstd::std_specs::hash::spec_hash_map_iter(&m),
        ),
        all.no_duplicates(),
    ensures
        forall|i: int|
            0 <= i < all.len() ==> m@.contains_key(*(#[trigger] all[i]).0) && m@[*all[i].0]
                == *all[i].1,
        forall|k: u32| #[trigger]
            m@.contains_key(k) ==> exists|i: int| 0 <= i < all.len() && *(#[trigger] all[i]).0 == k,
        forall|i: int, j: int|
            0 <= i < j < all.len() ==> *(#[trigger] all[i]).0 != *(#[trigger] all[j]).0,
{
    assert forall|k: u32| #[trigger] m@.contains_key(k) implies exists|i: int|
        0 <= i < all.len() && *(#[trigger] all[i]).0 == k by {
        assert(all.contains((&k, &m@[k])));
    }
    assert forall|i: int, j: int| 0 <= i < j < all.len() implies *(#[trigger] all[i]).0 != *(
    #[trigger] all[j]).0 by {
        if *all[i].0 == *all[j].0 {
            assert(m@.contains_key(*all[i].0) && m@.contains_key(*all[j].0));
            assert(all[i] == all[j]);
        }
    }
}

impl Default for Switch {
    fn default() -> (r: Self)
        ensures
            r@ == empty_switch(),
    {
        Self::new()
    }
}

/// A frame never goes back to the port it came from, and never leaves the
/// network of that port.
pub proof fn law_frames_stay_on_their_network(v: SwitchView, ingress: PortId, f: Seq<u8>, p: PortId)
    requires
        v.egress(ingress, f).contains(p),
    ensures
        p != ingress,
        v.ports.contains_key(ingress),
        v.ports.contains_key(p),
        v.ports[p] == v.ports[ingress],
{
}

/// A frame that is not for a single station reaches every other port on its
/// network, whatever was learned.
pub proof fn law_broadcast_reaches_the_network(v: SwitchView, ingress: PortId, f: Seq<u8>)
    requires
        v.accepts(ingress, f),
        !is_unicast(f),
    ensures
        v.egress(ingress, f) == v.flood(v.ports[ingress], ingress),
{
    assert(v.egress(ingress, f) =~= v.flood(v.ports[ingress], ingress));
}

/// A frame for a station that was never seen reaches every other port on its
/// network.
pub proof fn law_unknown_destination_floods(v: SwitchView, ingress: PortId, f: Seq<u8>)
    requires
        v.accepts(ingress, f),
        is_unicast(f),
        !mac_table::knows(v.after(ingress, f).table.entries, frame::parsed(f)->0.dst),
    ensures
        v.egress(ingress, f) == v.flood(v.ports[ingress], ingress),
{
    assert(v.egress(ingress, f) =~= v.flood(v.ports[ingress], ingress));
}

impl SwitchView {
    /// The switch once the given frames have arrived, in order, each at its
    /// port.
    pub open spec fn after_all(self, frames: Seq<(PortId, Seq<u8>)>) -> SwitchView
        decreases frames.len(),
    {
        if frames.len() == 0 {
            self
        } else {
            self.after_all(frames.drop_last()).after(frames.last().0, frames.last().1)
        }
    }

    /// The sources of those of the given frames that the switch takes, each
    /// with its port.
    pub open spec fn sources(self, frames: Seq<(PortId, Seq<u8>)>) -> Seq<(PortId, MacAddr)>
        decreases frames.len(),
    {
        if frames.len() == 0 {
            seq![]
        } else if self.accepts(frames.last().0, frames.last().1) {
            self.sources(frames.drop_last()).push(
                (frames.last().0, frame::parsed(frames.last().1)->0.src),
            )
        } else {
            self.sources(frames.drop_last())
        }
    }
}

/// What the switch learns from frames are their sources.
proof fn lemma_sources_are_learned(v: SwitchView, frames: Seq<(PortId, Seq<u8>)>)
    ensures
        v.after_all(frames).ports == v.ports,
        v.after_all(frames).table == v.table.learned_all(v.sources(frames)),
    decreases frames.len(),
{
    if frames.len() > 0 {
        let before = frames.drop_last();
        lemma_sources_are_learned(v, before);
        let (port, f) = frames.last();
        if v.accepts(port, f) {
            let seen = v.sources(frames);
            assert(seen.drop_last() =~= v.sources(before));
        }
    }
}

/// A station that has sent a frame is reached at its port alone: a frame for
/// it, from another live port of its network, leaves by that port and by no
/// other. That holds whatever frames have passed in between, as long as the
/// station was not seen on another port and fewer other stations than the
/// table has room for have sent one, the sender of this frame counted in.
pub proof fn law_answer_finds_its_way_back(
    v: SwitchView,
    asker: PortId,
    question: Seq<u8>,
    between: Seq<(PortId, Seq<u8>)>,
    answerer: PortId,
    answer: Seq<u8>,
)
    requires
        v.table.valid(),
        v.table.capacity == MAC_TABLE_CAPACITY,
        v.accepts(asker, question),
        v.accepts(answerer, answer),
        asker != answerer,
        v.ports[asker] == v.ports[answerer],
        is_unicast(answer),
        frame::parsed(answer)->0.dst == frame::parsed(question)->0.src,
        ({
            let station = frame::parsed(question)->0.src;
            let seen = v.sources(between.push((answerer, answer)));
            &&& forall|i: int|
                0 <= i < seen.len() && (#[trigger] seen[i]).1 == station ==> seen[i].0 == asker
            &&& mac_table::others(seen, station).len() < MAC_TABLE_CAPACITY
        }),
    ensures
        v.after(asker, question).after_all(between).egress(answerer, answer) == set![asker],
{
    let station = frame::parsed(question)->0.src;
    let u = v.after(asker, question);
    let all = between.push((answerer, answer));
    assert(all.drop_last() =~= between);
    lemma_same_sources(v, u, all);
    lemma_sources_are_learned(u, between);
    lemma_sources_are_learned(u, all);
    mac_table::law_address_stays_known(v.table, asker, station, v.sources(all));
    assert(u.after_all(between).egress(answerer, answer) =~= set![asker]);
}

/// What a switch takes does not depend on what it has learned.
proof fn lemma_same_sources(v: SwitchView, u: SwitchView, frames: Seq<(PortId, Seq<u8>)>)
    requires
        v.ports == u.ports,
    ensures
        v.sources(frames) == u.sources(frames),
    decreases frames.len(),
{
    if frames.len() > 0 {
        lemma_same_sources(v, u, frames.drop_last());
    }
}

/// Whether the destination of `frame` is a single station.
pub fn is_local_unicast(frame: &[u8]) -> (r: bool)
    requires
        frame.len() >= 1,
    ensures
        r == is_unicast(frame@),
{
    let b: u8 = frame[0];
    assert((b & 0x01 == 0) == (b % 2 == 0)) by (bit_vector);
    b & 0x01 == 0
}

/// A new switch has no ports, knows no address, and has room for 1024.
pub proof fn law_new_switch_is_empty()
    ensures
        forall|p: PortId| !#[trigger] empty_switch().ports.contains_key(p),
        empty_switch().table.entries.len() == 0,
        empty_switch().table.capacity == 1024,
        empty_switch().table.valid(),
{
}

/// What becomes of a frame is a matter of its addresses, and of its length only
/// as far as it must be long enough to be read: 14 bytes, or 18 with a tag.
///
/// Its source is then known at the port it arrived at. A frame for a group
/// leaves by every other live port of the network. One for a single station
/// leaves by the port that the station is known at: by that port alone where it
/// is live and on the network, by none where it is the port the frame arrived
/// at or is gone. Where the station is known at a port of another network, or
/// not at all, it leaves as one for a group does.
pub proof fn law_every_frame_is_forwarded(v: SwitchView, ingress: PortId, f: Seq<u8>, p: PortId)
    requires
        v.table.valid(),
        v.table.capacity > 0,
        v.ports.contains_key(ingress),
        f.len() >= 18 || (f.len() >= 14 && !(f[12] == 0x81 && f[13] == 0x00)),
    ensures
        ({
            let w = v.after(ingress, f);
            let out = v.egress(ingress, f);
            let dst = MacAddr { o0: f[0], o1: f[1], o2: f[2], o3: f[3], o4: f[4], o5: f[5] };
            let src = MacAddr { o0: f[6], o1: f[7], o2: f[8], o3: f[9], o4: f[10], o5: f[11] };
            let flooded = p != ingress && v.ports.contains_key(p) && v.ports[p]
                == v.ports[ingress];
            let known = |q: PortId| w.table.entries.contains((dst, q));
            let unknown = forall|q: PortId| !#[trigger] known(q);
            &&& w.ports == v.ports
            &&& w.table.capacity == v.table.capacity
            &&& w.table.entries.contains((src, ingress))
            &&& f[0] % 2 == 1 || unknown ==> (out.contains(p) <==> flooded)
            &&& f[0] % 2 == 0 ==> forall|q: PortId| #[trigger]
                known(q) ==> (out.contains(p) <==> if q == ingress || !v.ports.contains_key(q) {
                    false
                } else if v.ports[q] == v.ports[ingress] {
                    p == q
                } else {
                    flooded
                })
        }),
{
    frame::law_every_frame_that_is_long_enough_is_read(f);
    let w = v.after(ingress, f);
    let dst = MacAddr { o0: f[0], o1: f[1], o2: f[2], o3: f[3], o4: f[4], o5: f[5] };
    let src = MacAddr { o0: f[6], o1: f[7], o2: f[8], o3: f[9], o4: f[10], o5: f[11] };
    mac_table::law_table_stays_valid(v.table, ingress, src);
    mac_table::law_learned_address_is_known(v.table, ingress, src);
    mac_table::law_known_is_in_the_table(w.table, src, ingress);
    let known = |q: PortId| w.table.entries.contains((dst, q));
    assert forall|q: PortId| #[trigger] known(q) implies mac_table::port_of(w.table.entries, dst)
        == Some(q) by {
        mac_table::law_known_is_in_the_table(w.table, dst, q);
    }
    if mac_table::port_of(w.table.entries, dst) is Some {
        let q = mac_table::port_of(w.table.entries, dst)->0;
        mac_table::law_known_is_in_the_table(w.table, dst, q);
        assert(known(q));
    }
}

/// A frame that is too short to be read, or arrives at a port that is not live,
/// leaves by no port and teaches nothing.
pub proof fn law_other_frames_are_dropped(v: SwitchView, ingress: PortId, f: Seq<u8>, p: PortId)
    requires
        !v.ports.contains_key(ingress) || f.len() < 14 || (f.len() < 18 && f[12] == 0x81 && f[13]
            == 0x00),
    ensures
        v.after(ingress, f) == v,
        !v.egress(ingress, f).contains(p),
{
    frame::law_every_frame_that_is_long_enough_is_read(f);
}

/// What was known of another station than the sender of a frame is still known
/// after it, unless the table is full, the sender is new, and the station was
/// seen longest ago.
pub proof fn law_frames_make_nobody_unknown(
    v: SwitchView,
    ingress: PortId,
    f: Seq<u8>,
    mac: MacAddr,
    port: PortId,
)
    requires
        v.table.valid(),
        v.table.capacity > 0,
        v.table.entries.contains((mac, port)),
        mac.o0 != f[6] || mac.o1 != f[7] || mac.o2 != f[8] || mac.o3 != f[9] || mac.o4 != f[10]
            || mac.o5 != f[11],
        v.table.entries.len() < v.table.capacity || v.table.entries[0].0 != mac,
    ensures
        v.after(ingress, f).table.entries.contains((mac, port)),
{
    frame::law_every_frame_that_is_long_enough_is_read(f);
    let src = MacAddr { o0: f[6], o1: f[7], o2: f[8], o3: f[9], o4: f[10], o5: f[11] };
    let w = v.after(ingress, f);
    mac_table::law_known_is_in_the_table(v.table, mac, port);
    mac_table::law_table_stays_valid(v.table, ingress, src);
    mac_table::law_only_the_oldest_leaves(v.table, ingress, src, mac);
    mac_table::law_known_is_in_the_table(w.table, mac, port);
}

} // verus!
