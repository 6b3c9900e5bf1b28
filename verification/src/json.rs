//! JSON values: what requests carry as parameters and responses as results.

use vstd::prelude::*;

use crate::names;
use crate::names::NameMap;

verus! {

/// A JSON number: a non-negative integer, a negative integer, or any other
/// number, given by the bits of its IEEE 754 double.
#[derive(Debug, Clone, Copy, PartialEq, Eq, Structural)]
pub enum Number {
    PosInt(u64),
    NegInt(i64),
    Float { bits: u64 },
}

/// The bits of the double `-0`, which is the same number as `0`.
pub const NEGATIVE_ZERO_BITS: u64 = 0x8000_0000_0000_0000;

impl View for Number {
    type V = Number;

    /// The number itself: the two zeros of a double are one number.
    open spec fn view(&self) -> Number {
        match *self {
            Number::Float { bits } => Number::Float {
                bits: if bits == NEGATIVE_ZERO_BITS {
                    0
                } else {
                    bits
                },
            },
            n => n,
        }
    }
}

impl Number {
    /// Whether the two are the same number.
    pub fn same(&self, other: &Number) -> (r: bool)
        ensures
            r == (self@ == other@),
    {
        self.normal() == other.normal()
    }

    /// The number with `0` for `-0`.
    fn normal(&self) -> (r: Number)
        ensures
            r == self@,
    {
        match *self {
            Number::Float { bits } => Number::Float {
                bits: if bits == NEGATIVE_ZERO_BITS {
                    0
                } else {
                    bits
                },
            },
            n => n,
        }
    }
}

/// A JSON value. Objects have no order: two objects are the same value when
/// they hold the same values under the same names.
#[derive(Debug)]
pub enum Value {
    Null,
    Bool(bool),
    Number(Number),
    String(String),
    Array(Vec<Value>),
    Object(NameMap<Value>),
}

/// The mathematical content of a [`Value`].
#[verifier::ext_equal]
pub enum Json {
    Null,
    Bool(bool),
    Number(Number),
    String(Seq<char>),
    Array(Seq<Json>),
    Object(Map<Seq<char>, Json>),
}

/// The map that a sequence of named JSON values stands for.
spec fn pair_map(s: Seq<(Seq<char>, Json)>) -> Map<Seq<char>, Json> {
    Map::new(
        |k: Seq<char>| exists|i: int| 0 <= i < s.len() && (#[trigger] s[i]).0 == k,
        |k: Seq<char>| s[choose|i: int| 0 <= i < s.len() && (#[trigger] s[i]).0 == k].1,
    )
}

/// The content of `v`.
spec fn content(v: Value) -> Json
    decreases v,
{
    match v {
        Value::Null => Json::Null,
        Value::Bool(b) => Json::Bool(b),
        Value::Number(n) => Json::Number(n@),
        Value::String(s) => Json::String(s@),
        Value::Array(a) => Json::Array(
            Seq::new(
                a@.len(),
                |i: int|
                    if 0 <= i < a@.len() {
                        content(a@[i])
                    } else {
                        Json::Null
                    },
            ),
        ),
        Value::Object(m) => Json::Object(pair_map(named_contents(m.entries@))),
    }
}

/// The names of the entries `s`, each with the content of its value.
spec fn named_contents(s: Seq<(String, Value)>) -> Seq<(Seq<char>, Json)>
    decreases s,
{
    Seq::new(
        s.len(),
        |i: int|
            if 0 <= i < s.len() {
                (s[i].0@, content(s[i].1))
            } else {
                (seq![], Json::Null)
            },
    )
}

impl View for Value {
    type V = Json;

    closed spec fn view(&self) -> Json {
        content(*self)
    }
}

/// The content of an object whose members are `m`.
pub open spec fn json_map(m: Map<Seq<char>, Value>) -> Map<Seq<char>, Json> {
    m.map_values(|v: Value| v@)
}

/// The content of an array whose items are `s`.
pub open spec fn json_seq(s: Seq<Value>) -> Seq<Json> {
    s.map_values(|v: Value| v@)
}

/// The content of each kind of value but an object.
pub broadcast proof fn lemma_value_view(v: Value)
    ensures
        (#[trigger] v@) == v@,
        v is Null <==> v@ is Null,
        v is Bool <==> v@ is Bool,
        v is Number <==> v@ is Number,
        v is String <==> v@ is String,
        v is Array <==> v@ is Array,
        v is Object <==> v@ is Object,
        v matches Value::Null ==> v@ == Json::Null,
        v matches Value::Bool(b) ==> v@ == Json::Bool(b),
        v matches Value::Number(n) ==> v@ == Json::Number(n@),
        v matches Value::String(s) ==> v@ == Json::String(s@),
        v matches Value::Array(a) ==> v@ == Json::Array(json_seq(a@)),
{
    reveal_with_fuel(content, 2);
    if let Value::Array(a) = v {
        assert(v@->Array_0 =~= json_seq(a@));
    }
}

/// The content of an object, by its members.
proof fn lemma_object_view(m: NameMap<Value>)
    requires
        m.wf(),
    ensures
        Value::Object(m)@ == Json::Object(json_map(m@)),
{
    let s = m.entries@;
    let ps = named_contents(s);
    reveal_with_fuel(content, 2);
    reveal_with_fuel(named_contents, 2);
    names::lemma_view(m);
    let d = json_map(m@);
    assert forall|k: Seq<char>| pair_map(ps).contains_key(k) == d.contains_key(k) by {
        if pair_map(ps).contains_key(k) {
            let i = choose|i: int| 0 <= i < ps.len() && (#[trigger] ps[i]).0 == k;
            assert(s[i].0@ == k);
        }
        if d.contains_key(k) {
            let i = choose|i: int| 0 <= i < s.len() && (#[trigger] s[i]).0@ == k;
            assert(ps[i].0 == k);
        }
    }
    assert forall|k: Seq<char>| pair_map(ps).contains_key(k) implies pair_map(ps)[k] == d[k] by {
        let i = choose|i: int| 0 <= i < ps.len() && (#[trigger] ps[i]).0 == k;
        names::lemma_entry(s, i);
    }
    assert(pair_map(ps) =~= d);
}

impl Value {
    /// The object with the members `m`.
    pub fn object(m: NameMap<Value>) -> (r: Value)
        ensures
            r@ == Json::Object(json_map(m@)),
            r == Value::Object(m),
    {
        proof {
            use_type_invariant(&m);
            lemma_object_view(m);
        }
        Value::Object(m)
    }

    /// Adds `v` under `key` to the members `m`.
    pub fn put(m: &mut NameMap<Value>, key: &str, v: Value)
        ensures
            json_map(final(m)@) == json_map(old(m)@).insert(key@, v@),
    {
        let _ = m.insert(key.to_owned(), v);
        assert(json_map(m@) =~= json_map(old(m)@).insert(key@, v@));
    }

    /// An object without members.
    pub fn no_members() -> (m: NameMap<Value>)
        ensures
            json_map(m@) == Map::<Seq<char>, Json>::empty(),
    {
        let m: NameMap<Value> = NameMap::new();
        assert(json_map(m@) =~= Map::<Seq<char>, Json>::empty());
        m
    }

    /// The member called `key`, where the value is an object that has one.
    pub fn get(&self, key: &str) -> (r: Option<&Value>)
        ensures
            match r {
                Some(v) => member(self@, key@) == Some(v@),
                None => member(self@, key@) is None,
            },
    {
        broadcast use lemma_value_view;

        match self {
            Value::Object(m) => {
                proof {
                    use_type_invariant(m);
                    lemma_object_view(*m);
                }
                m.get(key)
            },
            _ => None,
        }
    }

    /// The text, where the value is a string.
    pub fn as_str(&self) -> (r: Option<&str>)
        ensures
            match r {
                Some(s) => self@ == Json::String(s@),
                None => !(self@ is String),
            },
    {
        broadcast use lemma_value_view;

        match self {
            Value::String(s) => Some(s.as_str()),
            _ => None,
        }
    }

    /// The number, where the value is a non-negative integer.
    pub fn as_u64(&self) -> (r: Option<u64>)
        ensures
            match r {
                Some(n) => self@ == Json::Number(Number::PosInt(n)),
                None => !(self@ matches Json::Number(n) && n is PosInt),
            },
    {
        broadcast use lemma_value_view;

        match self {
            Value::Number(Number::PosInt(n)) => Some(*n),
            _ => None,
        }
    }

    /// Whether the two are the same value.
    pub fn same(&self, other: &Value) -> (r: bool)
        ensures
            r == (self@ == other@),
        decreases self,
    {
        broadcast use lemma_value_view;

        match (self, other) {
            (Value::Null, Value::Null) => true,
            (Value::Bool(a), Value::Bool(b)) => *a == *b,
            (Value::Number(a), Value::Number(b)) => a.same(b),
            (Value::String(a), Value::String(b)) => *a == *b,
            (Value::Array(a), Value::Array(b)) => {
                if a.len() != b.len() {
                    assert(json_seq(a@).len() != json_seq(b@).len());
                    return false;
                }
                let mut i: usize = 0;
                while i < a.len()
                    invariant
                        *self == Value::Array(*a),
                        i <= a.len(),
                        a.len() == b.len(),
                        self@ == Json::Array(json_seq(a@)),
                        other@ == Json::Array(json_seq(b@)),
                        forall|j: int| 0 <= j < i ==> (#[trigger] a@[j])@ == b@[j]@,
                    decreases a.len() - i,
                {
                    assert(decreases_to!(*self => self->Array_0@[i as int]));
                    if !a[i].same(&b[i]) {
                        assert(json_seq(a@)[i as int] != json_seq(b@)[i as int]);
                        return false;
                    }
                    i = i + 1;
                }
                assert(json_seq(a@) =~= json_seq(b@));
                true
            },
            (Value::Object(a), Value::Object(b)) => {
                proof {
                    use_type_invariant(a);
                    use_type_invariant(b);
                    lemma_object_view(*a);
                    lemma_object_view(*b);
                    names::lemma_view(*a);
                }
                let na = a.len();
                let nb = b.len();
                if na != nb {
                    assert(json_map(a@).dom() =~= a@.dom());
                    assert(json_map(b@).dom() =~= b@.dom());
                    return false;
                }
                let mut i: usize = 0;
                while i < a.entries.len()
                    invariant
                        *self == Value::Object(*a),
                        names::distinct_names(a.entries@),
                        a@ == names::entry_map(a.entries@),
                        i <= a.entries.len(),
                        self@ == Json::Object(json_map(a@)),
                        other@ == Json::Object(json_map(b@)),
                        forall|j: int|
                            0 <= j < i ==> b@.contains_key((#[trigger] a.entries@[j]).0@)
                                && a.entries@[j].1@ == b@[a.entries@[j].0@]@,
                    decreases a.entries.len() - i,
                {
                    proof {
                        names::lemma_entry(a.entries@, i as int);
                    }
                    let ghost name = a.entries@[i as int].0@;
                    assert(json_map(a@).contains_key(name));
                    assert(json_map(a@)[name] == a.entries@[i as int].1@);
                    match b.get(a.entries[i].0.as_str()) {
                        None => {
                            assert(!json_map(b@).contains_key(name));
                            return false;
                        },
                        Some(w) => {
                            assert(json_map(b@)[name] == w@);
                            assert(decreases_to!(*self => self->Object_0.entries@[i as int].1));
                            if !a.entries[i].1.same(w) {
                                return false;
                            }
                        },
                    }
                    i = i + 1;
                }
                proof {
                    assert forall|k: Seq<char>| a@.contains_key(k) implies b@.contains_key(k)
                        && a@[k]@ == b@[k]@ by {
                        let j = choose|j: int|
                            0 <= j < a.entries@.len() && (#[trigger] a.entries@[j]).0@ == k;
                        names::lemma_entry(a.entries@, j);
                    }
                    assert(a@.dom().subset_of(b@.dom()));
                    vstd::set_lib::lemma_subset_equality(a@.dom(), b@.dom());
                    assert(json_map(a@) =~= json_map(b@));
                }
                true
            },
            _ => false,
        }
    }
}

/// The member called `key` of the content `j`.
pub open spec fn member(j: Json, key: Seq<char>) -> Option<Json> {
    match j {
        Json::Object(m) => if m.contains_key(key) {
            Some(m[key])
        } else {
            None
        },
        _ => None,
    }
}

impl PartialEq for Value {
    fn eq(&self, other: &Self) -> (r: bool) {
        self.same(other)
    }
}

impl vstd::std_specs::cmp::PartialEqSpecImpl for Value {
    open spec fn obeys_eq_spec() -> bool {
        true
    }

    open spec fn eq_spec(&self, other: &Self) -> bool {
        self@ == other@
    }
}

impl Eq for Value {

}

impl Clone for Value {
    fn clone(&self) -> (r: Self)
        ensures
            r@ == self@,
        decreases self,
    {
        broadcast use lemma_value_view;

        match self {
            Value::Null => Value::Null,
            Value::Bool(b) => Value::Bool(*b),
            Value::Number(n) => Value::Number(*n),
            Value::String(s) => Value::String(s.clone()),
            Value::Array(a) => {
                let mut items: Vec<Value> = Vec::new();
                let mut i: usize = 0;
                while i < a.len()
                    invariant
                        *self == Value::Array(*a),
                        i == items.len(),
                        i <= a.len(),
                        forall|j: int| 0 <= j < i ==> (#[trigger] items@[j])@ == a@[j]@,
                    decreases a.len() - i,
                {
                    assert(decreases_to!(*self => self->Array_0@[i as int]));
                    items.push(a[i].clone());
                    i = i + 1;
                }
                assert(json_seq(items@) =~= json_seq(a@));
                Value::Array(items)
            },
            Value::Object(m) => {
                proof {
                    use_type_invariant(m);
                    lemma_object_view(*m);
                }
                let mut entries: Vec<(String, Value)> = Vec::new();
                let mut i: usize = 0;
                while i < m.entries.len()
                    invariant
                        *self == Value::Object(*m),
                        i == entries.len(),
                        i <= m.entries.len(),
                        forall|j: int|
                            #![trigger entries@[j]]
                            0 <= j < i ==> entries@[j].0 == m.entries@[j].0 && entries@[j].1@
                                == m.entries@[j].1@,
                    decreases m.entries.len() - i,
                {
                    assert(decreases_to!(*self => self->Object_0.entries@[i as int].1));
                    entries.push((m.entries[i].0.clone(), m.entries[i].1.clone()));
                    i = i + 1;
                }
                proof {
                    names::lemma_view(*m);
                    lemma_same_members(m.entries@, entries@);
                }
                Value::object(NameMap::from_entries(entries))
            },
        }
    }
}

/// Entries with the same names and the same contents make the same object.
proof fn lemma_same_members(s: Seq<(String, Value)>, t: Seq<(String, Value)>)
    requires
        names::distinct_names(s),
        s.len() == t.len(),
        forall|j: int|
            #![trigger t[j]]
            0 <= j < s.len() ==> t[j].0 == s[j].0 && t[j].1@ == s[j].1@,
    ensures
        names::distinct_names(t),
        json_map(names::entry_map(s)) == json_map(names::entry_map(t)),
{
    assert(names::distinct_names(t)) by {
        assert forall|i: int, j: int| 0 <= i < j < t.len() implies (#[trigger] t[i]).0@ != (
        #[trigger] t[j]).0@ by {
            assert(s[i].0@ != s[j].0@);
        }
    }
    let a = json_map(names::entry_map(s));
    let b = json_map(names::entry_map(t));
    assert forall|k: Seq<char>| a.contains_key(k) == b.contains_key(k) by {
        if a.contains_key(k) {
            let j = choose|j: int| 0 <= j < s.len() && (#[trigger] s[j]).0@ == k;
            assert(t[j].0@ == k);
        }
        if b.contains_key(k) {
            let j = choose|j: int| 0 <= j < t.len() && (#[trigger] t[j]).0@ == k;
            assert(s[j].0@ == k);
        }
    }
    assert forall|k: Seq<char>| a.contains_key(k) implies a[k] == b[k] by {
        let j = choose|j: int| 0 <= j < s.len() && (#[trigger] s[j]).0@ == k;
        names::lemma_entry(s, j);
        names::lemma_entry(t, j);
    }
    assert(a =~= b);
}

} // verus!
