//! A map keyed by names.
//!
//! Entries are kept in the order in which they were last inserted;
//! no name occurs twice.

use vstd::prelude::*;

use crate::text::same_text;

verus! {

/// A map from names to values.
#[derive(Debug)]
pub struct NameMap<V> {
    pub(crate) entries: Vec<(String, V)>,
}

/// Whether no name occurs twice in `s`.
pub open spec fn distinct_names<V>(s: Seq<(String, V)>) -> bool {
    forall|i: int, j: int|
        0 <= i < j < s.len() ==> (#[trigger] s[i]).0@ != (#[trigger] s[j]).0@
}

/// Whether `name` is the name of some entry of `s`.
pub open spec fn holds_name<V>(s: Seq<(String, V)>, name: Seq<char>) -> bool {
    exists|i: int| 0 <= i < s.len() && (#[trigger] s[i]).0@ == name
}

/// The value of the entry of `s` that is called `name`.
pub open spec fn value_of<V>(s: Seq<(String, V)>, name: Seq<char>) -> V {
    s[choose|i: int| 0 <= i < s.len() && (#[trigger] s[i]).0@ == name].1
}

/// The map that the entries `s` stand for.
pub open spec fn entry_map<V>(s: Seq<(String, V)>) -> Map<Seq<char>, V> {
    Map::new(|k: Seq<char>| holds_name(s, k), |k: Seq<char>| value_of(s, k))
}

/// Each entry is found under its name.
pub proof fn lemma_entry<V>(s: Seq<(String, V)>, i: int)
    requires
        distinct_names(s),
        0 <= i < s.len(),
    ensures
        entry_map(s).contains_key(s[i].0@),
        entry_map(s)[s[i].0@] == s[i].1,
{
    let j = choose|j: int| 0 <= j < s.len() && (#[trigger] s[j]).0@ == s[i].0@;
    assert(s[i].0@ == s[i].0@);
    assert(j == i);
}

/// Appending an entry with a new name inserts it into the map.
proof fn lemma_push<V>(s: Seq<(String, V)>, e: (String, V))
    requires
        distinct_names(s),
        !entry_map(s).contains_key(e.0@),
    ensures
        distinct_names(s.push(e)),
        entry_map(s.push(e)) == entry_map(s).insert(e.0@, e.1),
{
    let t = s.push(e);
    assert(distinct_names(t)) by {
        assert forall|i: int, j: int| 0 <= i < j < t.len() implies (#[trigger] t[i]).0@ != (
        #[trigger] t[j]).0@ by {
            if j == s.len() {
                assert(s[i].0@ != e.0@);
            } else {
                assert(s[i].0@ != s[j].0@);
            }
        }
    }
    assert forall|k: Seq<char>| holds_name(t, k) == (holds_name(s, k) || k == e.0@) by {
        assert(t[s.len() as int] == e);
        if holds_name(s, k) {
            let i = choose|i: int| 0 <= i < s.len() && (#[trigger] s[i]).0@ == k;
            assert(t[i].0@ == k);
        }
    }
    assert forall|k: Seq<char>| holds_name(t, k) implies value_of(t, k) == entry_map(s).insert(
        e.0@,
        e.1,
    )[k] by {
        let i = choose|i: int| 0 <= i < t.len() && (#[trigger] t[i]).0@ == k;
        lemma_entry(t, i);
        if i < s.len() {
            lemma_entry(s, i);
        }
    }
    assert(entry_map(t) =~= entry_map(s).insert(e.0@, e.1));
}

/// Removing an entry removes its name from the map.
proof fn lemma_remove<V>(s: Seq<(String, V)>, at: int)
    requires
        distinct_names(s),
        0 <= at < s.len(),
    ensures
        distinct_names(s.remove(at)),
        entry_map(s.remove(at)) == entry_map(s).remove(s[at].0@),
{
    let t = s.remove(at);
    let gone = s[at].0@;
    assert forall|i: int| 0 <= i < t.len() implies #[trigger] t[i] == (if i < at {
        s[i]
    } else {
        s[i + 1]
    }) by {}
    assert(distinct_names(t));
    assert forall|k: Seq<char>| holds_name(t, k) == (holds_name(s, k) && k != gone) by {
        if holds_name(t, k) {
            let i = choose|i: int| 0 <= i < t.len() && (#[trigger] t[i]).0@ == k;
            let j = if i < at { i } else { i + 1 };
            assert(s[j].0@ == k);
        }
        if holds_name(s, k) && k != gone {
            let i = choose|i: int| 0 <= i < s.len() && (#[trigger] s[i]).0@ == k;
            let j = if i < at { i } else { i - 1 };
            assert(t[j].0@ == k);
        }
    }
    assert forall|k: Seq<char>| holds_name(t, k) implies value_of(t, k) == entry_map(s)[k] by {
        let i = choose|i: int| 0 <= i < t.len() && (#[trigger] t[i]).0@ == k;
        lemma_entry(t, i);
        lemma_entry(s, if i < at { i } else { i + 1 });
    }
    assert(entry_map(t) =~= entry_map(s).remove(gone));
}

impl<V> View for NameMap<V> {
    type V = Map<Seq<char>, V>;

    closed spec fn view(&self) -> Map<Seq<char>, V> {
        entry_map(self.entries@)
    }
}

impl<V> NameMap<V> {
    #[verifier::type_invariant]
    pub(crate) closed spec fn wf(self) -> bool {
        distinct_names(self.entries@)
    }

    /// An empty map.
    pub fn new() -> (r: Self)
        ensures
            r@ == Map::<Seq<char>, V>::empty(),
    {
        let r = NameMap { entries: Vec::new() };
        assert(r@ =~= Map::<Seq<char>, V>::empty());
        r
    }

    /// The map with the given entries.
    pub(crate) fn from_entries(entries: Vec<(String, V)>) -> (r: Self)
        requires
            distinct_names(entries@),
        ensures
            r.entries == entries,
            r@ == entry_map(entries@),
    {
        NameMap { entries }
    }

    /// The position of `name` among the entries.
    fn find(&self, name: &str) -> (r: Option<usize>)
        ensures
            match r {
                Some(i) => i < self.entries@.len() && self.entries@[i as int].0@ == name@,
                None => !self@.contains_key(name@),
            },
    {
        let mut i: usize = 0;
        while i < self.entries.len()
            invariant
                i <= self.entries@.len(),
                forall|j: int| 0 <= j < i ==> (#[trigger] self.entries@[j]).0@ != name@,
            decreases self.entries@.len() - i,
        {
            if same_text(self.entries[i].0.as_str(), name) {
                return Some(i);
            }
            i = i + 1;
        }
        None
    }

    /// The value stored under `name`.
    pub fn get(&self, name: &str) -> (r: Option<&V>)
        ensures
            match r {
                Some(v) => self@.contains_key(name@) && *v == self@[name@],
                None => !self@.contains_key(name@),
            },
    {
        proof {
            use_type_invariant(self);
        }
        match self.find(name) {
            Some(i) => {
                proof {
                    lemma_entry(self.entries@, i as int);
                }
                Some(&self.entries[i].1)
            },
            None => None,
        }
    }

    /// Whether some value is stored under `name`.
    pub fn contains_key(&self, name: &str) -> (r: bool)
        ensures
            r == self@.contains_key(name@),
    {
        self.get(name).is_some()
    }

    /// Stores `value` under `name`, giving back the value stored there before.
    pub fn insert(&mut self, name: String, value: V) -> (r: Option<V>)
        ensures
            final(self)@ == old(self)@.insert(name@, value),
            r == (if old(self)@.contains_key(name@) {
                Some(old(self)@[name@])
            } else {
                None
            }),
    {
        let r = self.remove(name.as_str());
        proof {
            use_type_invariant(&*self);
            lemma_push(self.entries@, (name, value));
        }
        let mut entries: Vec<(String, V)> = Vec::new();
        std::mem::swap(&mut entries, &mut self.entries);
        entries.push((name, value));
        self.entries = entries;
        assert(old(self)@.remove(name@).insert(name@, value) =~= old(self)@.insert(name@, value));
        r
    }

    /// Takes out the value stored under `name`.
    pub fn remove(&mut self, name: &str) -> (r: Option<V>)
        ensures
            final(self)@ == old(self)@.remove(name@),
            r == (if old(self)@.contains_key(name@) {
                Some(old(self)@[name@])
            } else {
                None
            }),
    {
        proof {
            use_type_invariant(&*self);
        }
        match self.find(name) {
            None => {
                assert(self@.remove(name@) =~= self@);
                None
            },
            Some(i) => {
                proof {
                    lemma_entry(self.entries@, i as int);
                    lemma_remove(self.entries@, i as int);
                }
                let mut entries: Vec<(String, V)> = Vec::new();
                std::mem::swap(&mut entries, &mut self.entries);
                let (_, v) = entries.remove(i);
                self.entries = entries;
                Some(v)
            },
        }
    }

    /// The number of entries.
    pub fn len(&self) -> (r: usize)
        ensures
            self@.dom().finite(),
            r == self@.len(),
    {
        proof {
            use_type_invariant(self);
            lemma_size(self.entries@);
        }
        self.entries.len()
    }

    /// Whether there are no entries.
    pub fn is_empty(&self) -> (r: bool)
        ensures
            r == (self@ == Map::<Seq<char>, V>::empty()),
    {
        proof {
            use_type_invariant(self);
            if self.entries@.len() == 0 {
                assert(self@ =~= Map::<Seq<char>, V>::empty());
            } else {
                lemma_entry(self.entries@, 0);
            }
        }
        self.entries.len() == 0
    }

    /// The names, each once.
    pub fn keys(&self) -> (r: Vec<&String>)
        ensures
            forall|k: Seq<char>|
                self@.contains_key(k) <==> exists|i: int| 0 <= i < r.len() && (#[trigger] r[i])@ == k,
            forall|i: int, j: int|
                0 <= i < j < r.len() ==> (#[trigger] r[i])@ != (#[trigger] r[j])@,
            self@.dom().finite(),
            r.len() == self@.len(),
    {
        proof {
            use_type_invariant(self);
            lemma_size(self.entries@);
        }
        let mut r: Vec<&String> = Vec::new();
        let mut i: usize = 0;
        while i < self.entries.len()
            invariant
                i == r.len(),
                i <= self.entries@.len(),
                forall|j: int| 0 <= j < i ==> *(#[trigger] r[j]) == self.entries@[j].0,
            decreases self.entries@.len() - i,
        {
            r.push(&self.entries[i].0);
            i = i + 1;
        }
        proof {
            assert forall|k: Seq<char>|
                self@.contains_key(k) <==> exists|i: int|
                    0 <= i < r.len() && (#[trigger] r[i])@ == k by {
                if self@.contains_key(k) {
                    let j = choose|j: int|
                        0 <= j < self.entries@.len() && (#[trigger] self.entries@[j]).0@ == k;
                    assert(r[j]@ == k);
                }
                if exists|i: int| 0 <= i < r.len() && (#[trigger] r[i])@ == k {
                    let j = choose|j: int| 0 <= j < r.len() && (#[trigger] r[j])@ == k;
                    lemma_entry(self.entries@, j);
                }
            }
            assert forall|i: int, j: int| 0 <= i < j < r.len() implies (#[trigger] r[i])@ != (
            #[trigger] r[j])@ by {
                assert(self.entries@[i].0@ != self.entries@[j].0@);
            }
        }
        r
    }
}

/// What a map holds, by its entries.
pub(crate) proof fn lemma_view<V>(m: NameMap<V>)
    requires
        m.wf(),
    ensures
        distinct_names(m.entries@),
        m@ == entry_map(m.entries@),
{
}

/// A map has as many keys as it has entries.
proof fn lemma_size<V>(s: Seq<(String, V)>)
    requires
        distinct_names(s),
    ensures
        entry_map(s).dom().finite(),
        entry_map(s).len() == s.len(),
    decreases s.len(),
{
    if s.len() == 0 {
        assert(entry_map(s).dom() =~= Set::empty());
    } else {
        let t = s.drop_last();
        assert(distinct_names(t)) by {
            assert forall|i: int, j: int| 0 <= i < j < t.len() implies (#[trigger] t[i]).0@ != (
            #[trigger] t[j]).0@ by {
                assert(s[i].0@ != s[j].0@);
            }
        }
        lemma_size(t);
        assert(!entry_map(t).contains_key(s.last().0@)) by {
            if holds_name(t, s.last().0@) {
                let i = choose|i: int| 0 <= i < t.len() && (#[trigger] t[i]).0@ == s.last().0@;
                assert(s[i].0@ != s[s.len() - 1].0@);
            }
        }
        lemma_push(t, s.last());
        assert(t.push(s.last()) =~= s);
        assert(entry_map(s).dom() =~= entry_map(t).dom().insert(s.last().0@));
    }
}

impl<V: Clone> Clone for NameMap<V> {
    fn clone(&self) -> (r: Self)
        ensures
            r@.dom() == self@.dom(),
            forall|k: Seq<char>| #[trigger]
                r@.contains_key(k) ==> cloned::<V>(self@[k], r@[k]),
    {
        proof {
            use_type_invariant(self);
        }
        let mut entries: Vec<(String, V)> = Vec::new();
        let mut i: usize = 0;
        while i < self.entries.len()
            invariant
                i == entries.len(),
                i <= self.entries@.len(),
                forall|j: int|
                    #![trigger entries@[j]]
                    0 <= j < i ==> entries@[j].0 == self.entries@[j].0 && cloned::<V>(
                        self.entries@[j].1,
                        entries@[j].1,
                    ),
            decreases self.entries@.len() - i,
        {
            entries.push((self.entries[i].0.clone(), self.entries[i].1.clone()));
            i = i + 1;
        }
        proof {
            assert forall|i: int, j: int| 0 <= i < j < entries@.len() implies (
            #[trigger] entries@[i]).0@ != (#[trigger] entries@[j]).0@ by {
                assert(self.entries@[i].0@ != self.entries@[j].0@);
            }
        }
        let r = NameMap { entries };
        proof {
            assert forall|k: Seq<char>| r@.contains_key(k) == self@.contains_key(k) by {
                if r@.contains_key(k) {
                    let j = choose|j: int|
                        0 <= j < r.entries@.len() && (#[trigger] r.entries@[j]).0@ == k;
                    lemma_entry(self.entries@, j);
                }
                if self@.contains_key(k) {
                    let j = choose|j: int|
                        0 <= j < self.entries@.len() && (#[trigger] self.entries@[j]).0@ == k;
                    lemma_entry(r.entries@, j);
                }
            }
            assert(r@.dom() =~= self@.dom());
            assert forall|k: Seq<char>| #[trigger] r@.contains_key(k) implies cloned::<V>(
                self@[k],
                r@[k],
            ) by {
                let j = choose|j: int|
                    0 <= j < r.entries@.len() && (#[trigger] r.entries@[j]).0@ == k;
                lemma_entry(r.entries@, j);
                lemma_entry(self.entries@, j);
            }
        }
        r
    }
}

} // verus!
