//! JSON values as the library reads and builds them (JSON-RPC messages, tool
//! descriptions, MCP client config files). Objects keep their keys in insertion
//! order; inserting an existing key replaces its value in place and removing a
//! key moves the last entry into its slot, as an insertion-ordered map does.
use vstd::prelude::*;

use crate::text::str_eq;

verus! {

/// A JSON number: a non-negative or negative integer, or a float held as the
/// decimal text that renders it.
#[derive(Debug)]
pub enum JsonNumber {
    PosInt(u64),
    NegInt(i64),
    Float(String),
}

#[derive(Debug)]
pub enum JsonValue {
    Null,
    Bool(bool),
    Number(JsonNumber),
    String(String),
    Array(Vec<JsonValue>),
    Object(Vec<(String, JsonValue)>),
}

pub enum NumV {
    PosInt(u64),
    NegInt(i64),
    Float(Seq<char>),
}

/// The mathematical value of a JSON document.
pub enum JsonV {
    Null,
    Bool(bool),
    Number(NumV),
    Str(Seq<char>),
    Array(Seq<JsonV>),
    Object(Seq<(Seq<char>, JsonV)>),
}

pub open spec fn num_view(n: JsonNumber) -> NumV {
    match n {
        JsonNumber::PosInt(u) => NumV::PosInt(u),
        JsonNumber::NegInt(i) => NumV::NegInt(i),
        JsonNumber::Float(s) => NumV::Float(s@),
    }
}

impl JsonValue {
    pub open spec fn jv(&self) -> JsonV
        decreases self,
    {
        match self {
            JsonValue::Null => JsonV::Null,
            JsonValue::Bool(b) => JsonV::Bool(*b),
            JsonValue::Number(n) => JsonV::Number(num_view(*n)),
            JsonValue::String(s) => JsonV::Str(s@),
            JsonValue::Array(v) => JsonV::Array(
                Seq::new(v@.len(), |i: int| if 0 <= i < v@.len() { v@[i].jv() } else { JsonV::Null }),
            ),
            JsonValue::Object(v) => JsonV::Object(
                Seq::new(
                    v@.len(),
                    |i: int|
                        if 0 <= i < v@.len() {
                            (v@[i].0@, v@[i].1.jv())
                        } else {
                            (Seq::empty(), JsonV::Null)
                        },
                ),
            ),
        }
    }
}

/// The views of the elements of an array.
pub open spec fn items_view(v: Seq<JsonValue>) -> Seq<JsonV> {
    Seq::new(v.len(), |i: int| v[i].jv())
}

/// The views of the entries of an object.
pub open spec fn entries_view(v: Seq<(String, JsonValue)>) -> Seq<(Seq<char>, JsonV)> {
    Seq::new(v.len(), |i: int| (v[i].0@, v[i].1.jv()))
}

pub proof fn lemma_array_view(v: Vec<JsonValue>)
    ensures
        JsonValue::Array(v).jv() == JsonV::Array(items_view(v@)),
{
    let a = JsonValue::Array(v);
    assert(a.jv()->Array_0 =~= items_view(v@));
}

pub proof fn lemma_object_view(v: Vec<(String, JsonValue)>)
    ensures
        JsonValue::Object(v).jv() == JsonV::Object(entries_view(v@)),
{
    let a = JsonValue::Object(v);
    assert(a.jv()->Object_0 =~= entries_view(v@));
}

// ---------------------------------------------------------------------------
// Reading
// ---------------------------------------------------------------------------

/// The first entry of an object with the given key.
#[verifier::opaque]
pub open spec fn find_key(entries: Seq<(Seq<char>, JsonV)>, key: Seq<char>) -> Option<int> {
    if exists|i: int| 0 <= i < entries.len() && entries[i].0 == key {
        Some(
            choose|i: int|
                0 <= i < entries.len() && entries[i].0 == key && forall|j: int|
                    0 <= j < i ==> entries[j].0 != key,
        )
    } else {
        None
    }
}

/// `value.get(key)`: the member `key` of an object, `None` for anything else.
pub open spec fn jget(v: JsonV, key: Seq<char>) -> Option<JsonV> {
    match v {
        JsonV::Object(entries) => match find_key(entries, key) {
            Some(i) => Some(entries[i].1),
            None => None,
        },
        _ => None,
    }
}

/// `value.as_str()`.
pub open spec fn jstr(v: JsonV) -> Option<Seq<char>> {
    match v {
        JsonV::Str(s) => Some(s),
        _ => None,
    }
}

/// `opt.and_then(|v| v.as_str())`.
pub open spec fn jstr_opt(v: Option<JsonV>) -> Option<Seq<char>> {
    match v {
        Some(x) => jstr(x),
        None => None,
    }
}

/// `opt.and_then(|v| v.get(key))`.
pub open spec fn jget_opt(v: Option<JsonV>, key: Seq<char>) -> Option<JsonV> {
    match v {
        Some(x) => jget(x, key),
        None => None,
    }
}

/// `value.as_i64()`: integers that fit in `i64`.
pub open spec fn ji64(v: JsonV) -> Option<int> {
    match v {
        JsonV::Number(NumV::PosInt(u)) => if u <= i64::MAX {
            Some(u as int)
        } else {
            None
        },
        JsonV::Number(NumV::NegInt(i)) => Some(i as int),
        _ => None,
    }
}

pub open spec fn opt_jv(o: Option<&JsonValue>) -> Option<JsonV> {
    match o {
        Some(v) => Some(v.jv()),
        None => None,
    }
}

pub open spec fn opt_jv_owned(o: Option<JsonValue>) -> Option<JsonV> {
    match o {
        Some(v) => Some(v.jv()),
        None => None,
    }
}

pub proof fn lemma_find_key(entries: Seq<(Seq<char>, JsonV)>, key: Seq<char>, i: int)
    requires
        0 <= i < entries.len(),
        entries[i].0 == key,
        forall|j: int| 0 <= j < i ==> entries[j].0 != key,
    ensures
        find_key(entries, key) == Some(i),
{
    reveal(find_key);
    let c = choose|c: int|
        0 <= c < entries.len() && entries[c].0 == key && forall|j: int| 0 <= j < c ==> entries[j].0 != key;
    assert(0 <= c < entries.len() && entries[c].0 == key);
    if c < i {
        assert(entries[c].0 != key);
    }
    if i < c {
        assert(entries[i].0 != key);
    }
}

/// The position of the first entry with the given key.
pub fn entry_index(entries: &Vec<(String, JsonValue)>, key: &str) -> (r: Option<usize>)
    ensures
        r matches Some(i) ==> find_key(entries_view(entries@), key@) == Some(i as int) && i
            < entries@.len(),
        r is None ==> find_key(entries_view(entries@), key@) is None,
{
    let ghost ev = entries_view(entries@);
    let mut i: usize = 0;
    while i < entries.len()
        invariant
            ev == entries_view(entries@),
            i <= entries@.len(),
            forall|j: int| 0 <= j < i ==> ev[j].0 != key@,
        decreases entries@.len() - i,
    {
        if str_eq(entries[i].0.as_str(), key) {
            proof {
                lemma_find_key(ev, key@, i as int);
            }
            return Some(i);
        }
        i = i + 1;
    }
    reveal(find_key);
    None
}

/// What the first entry with a key is.
pub proof fn lemma_find_key_props(entries: Seq<(Seq<char>, JsonV)>, key: Seq<char>)
    ensures
        match find_key(entries, key) {
            Some(i) => 0 <= i < entries.len() && entries[i].0 == key && forall|j: int| 0 <= j < i ==> entries[j].0 != key,
            None => forall|j: int| 0 <= j < entries.len() ==> entries[j].0 != key,
        },
{
    reveal(find_key);
    if exists|i: int| 0 <= i < entries.len() && entries[i].0 == key {
        let i = choose|i: int| 0 <= i < entries.len() && entries[i].0 == key;
        lemma_least_key(entries, key, i);
    }
}

proof fn lemma_least_key(entries: Seq<(Seq<char>, JsonV)>, key: Seq<char>, i: int)
    requires
        0 <= i < entries.len(),
        entries[i].0 == key,
    ensures
        exists|m: int| 0 <= m < entries.len() && entries[m].0 == key && forall|j: int| 0 <= j < m ==> entries[j].0 != key,
    decreases i,
{
    if exists|j: int| 0 <= j < i && entries[j].0 == key {
        let j = choose|j: int| 0 <= j < i && entries[j].0 == key;
        lemma_least_key(entries, key, j);
    }
}

impl JsonValue {
    /// `value.get(key)`.
    pub fn get<'a>(&'a self, key: &str) -> (r: Option<&'a JsonValue>)
        ensures
            opt_jv(r) == jget(self.jv(), key@),
    {
        match self {
            JsonValue::Object(entries) => {
                proof {
                    lemma_object_view(*entries);
                }
                match entry_index(entries, key) {
                    Some(i) => Some(&entries[i].1),
                    None => None,
                }
            },
            _ => None,
        }
    }

    /// `value.as_str()`.
    pub fn as_str<'a>(&'a self) -> (r: Option<&'a String>)
        ensures
            match r {
                Some(s) => jstr(self.jv()) == Some(s@),
                None => jstr(self.jv()) is None,
            },
    {
        match self {
            JsonValue::String(s) => Some(s),
            _ => None,
        }
    }

    /// `value.as_i64()`.
    pub fn as_i64(&self) -> (r: Option<i64>)
        ensures
            match r {
                Some(n) => ji64(self.jv()) == Some(n as int),
                None => ji64(self.jv()) is None,
            },
    {
        match self {
            JsonValue::Number(JsonNumber::PosInt(u)) => {
                if *u <= 9223372036854775807u64 {
                    Some(*u as i64)
                } else {
                    None
                }
            },
            JsonValue::Number(JsonNumber::NegInt(i)) => Some(*i),
            _ => None,
        }
    }

    /// `value.as_array()`.
    pub fn as_array<'a>(&'a self) -> (r: Option<&'a Vec<JsonValue>>)
        ensures
            match r {
                Some(v) => self.jv() == JsonV::Array(items_view(v@)),
                None => !(self.jv() is Array),
            },
    {
        match self {
            JsonValue::Array(v) => {
                proof {
                    lemma_array_view(*v);
                }
                Some(v)
            },
            _ => None,
        }
    }

    /// `value.as_object()`.
    pub fn as_object<'a>(&'a self) -> (r: Option<&'a Vec<(String, JsonValue)>>)
        ensures
            match r {
                Some(v) => self.jv() == JsonV::Object(entries_view(v@)),
                None => !(self.jv() is Object),
            },
    {
        match self {
            JsonValue::Object(v) => {
                proof {
                    lemma_object_view(*v);
                }
                Some(v)
            },
            _ => None,
        }
    }

    /// A deep copy.
    #[verifier::loop_isolation(false)]
    pub fn deep_clone(&self) -> (r: JsonValue)
        ensures
            r.jv() == self.jv(),
        decreases self,
    {
        match self {
            JsonValue::Null => JsonValue::Null,
            JsonValue::Bool(b) => JsonValue::Bool(*b),
            JsonValue::Number(n) => JsonValue::Number(
                match n {
                    JsonNumber::PosInt(u) => JsonNumber::PosInt(*u),
                    JsonNumber::NegInt(i) => JsonNumber::NegInt(*i),
                    JsonNumber::Float(s) => JsonNumber::Float(s.clone()),
                },
            ),
            JsonValue::String(s) => JsonValue::String(s.clone()),
            JsonValue::Array(v) => {
                let mut out: Vec<JsonValue> = Vec::new();
                let mut i: usize = 0;
                while i < v.len()
                    invariant
                        i <= v@.len(),
                        out@.len() == i,
                        forall|k: int| 0 <= k < i ==> #[trigger] out@[k].jv() == v@[k].jv(),
                    decreases v@.len() - i,
                {
                    proof {
                        broadcast use vstd::std_specs::vec::axiom_vec_index_decreases;

                        assert(decreases_to!(*v => v[i as int]));
                        assert(decreases_to!(*self => self->Array_0));
                    }
                    let c = v[i].deep_clone();
                    out.push(c);
                    i = i + 1;
                }
                proof {
                    lemma_array_view(out);
                    lemma_array_view(*v);
                    assert(items_view(out@) =~= items_view(v@));
                }
                JsonValue::Array(out)
            },
            JsonValue::Object(v) => {
                let mut out: Vec<(String, JsonValue)> = Vec::new();
                let mut i: usize = 0;
                while i < v.len()
                    invariant
                        i <= v@.len(),
                        out@.len() == i,
                        forall|k: int|
                            0 <= k < i ==> #[trigger] out@[k].1.jv() == v@[k].1.jv() && out@[k].0@
                                == v@[k].0@,
                    decreases v@.len() - i,
                {
                    proof {
                        broadcast use vstd::std_specs::vec::axiom_vec_index_decreases;

                        assert(decreases_to!(*v => v[i as int]));
                        assert(decreases_to!(*self => self->Object_0));
                    }
                    let c = v[i].1.deep_clone();
                    let k = v[i].0.clone();
                    out.push((k, c));
                    i = i + 1;
                }
                proof {
                    lemma_object_view(out);
                    lemma_object_view(*v);
                    assert(entries_view(out@) =~= entries_view(v@));
                }
                JsonValue::Object(out)
            },
        }
    }
}

// ---------------------------------------------------------------------------
// Building
// ---------------------------------------------------------------------------

/// Inserting into an object: an existing key keeps its position and gets the
/// new value; a new key is appended.
pub open spec fn obj_insert(entries: Seq<(Seq<char>, JsonV)>, key: Seq<char>, val: JsonV) -> Seq<(Seq<char>, JsonV)> {
    match find_key(entries, key) {
        Some(i) => entries.update(i, (key, val)),
        None => entries.push((key, val)),
    }
}

/// Removing from an object: the entry's slot is taken by the last entry.
pub open spec fn obj_remove(entries: Seq<(Seq<char>, JsonV)>, key: Seq<char>) -> Seq<(Seq<char>, JsonV)> {
    match find_key(entries, key) {
        Some(i) => entries.update(i, entries.last()).drop_last(),
        None => entries,
    }
}

/// `map.insert(key, val)` on an insertion-ordered object.
pub fn object_insert(entries: &mut Vec<(String, JsonValue)>, key: String, val: JsonValue)
    ensures
        entries_view(final(entries)@) == obj_insert(entries_view(old(entries)@), key@, val.jv()),
{
    let ghost kv = key@;
    let ghost vv = val.jv();
    match entry_index(entries, key.as_str()) {
        Some(i) => {
            let ghost before = entries@;
            entries.set(i, (key, val));
            assert(entries_view(entries@) =~= entries_view(before).update(i as int, (kv, vv)));
        },
        None => {
            let ghost before = entries@;
            entries.push((key, val));
            assert(entries_view(entries@) =~= entries_view(before).push((kv, vv)));
        },
    }
}

/// `map.remove(key)` on an insertion-ordered object (the last entry takes the
/// removed entry's slot).
pub fn object_remove(entries: &mut Vec<(String, JsonValue)>, key: &str) -> (r: Option<JsonValue>)
    ensures
        entries_view(final(entries)@) == obj_remove(entries_view(old(entries)@), key@),
        opt_jv_owned(r) == match find_key(entries_view(old(entries)@), key@) {
            Some(i) => Some(entries_view(old(entries)@)[i].1),
            None => None,
        },
{
    match entry_index(entries, key) {
        Some(i) => {
            let ghost before = entries@;
            let removed = entries.swap_remove(i);
            assert(entries_view(entries@) =~= entries_view(before).update(
                i as int,
                entries_view(before).last(),
            ).drop_last());
            Some(removed.1)
        },
        None => None,
    }
}

/// A JSON string.
pub fn json_string(s: &str) -> (r: JsonValue)
    ensures
        r.jv() == JsonV::Str(s@),
{
    JsonValue::String(s.to_owned())
}

/// A JSON integer from an `i64`.
pub fn json_i64(n: i64) -> (r: JsonValue)
    ensures
        ji64(r.jv()) == Some(n as int),
        n >= 0 ==> r.jv() == JsonV::Number(NumV::PosInt(n as u64)),
        n < 0 ==> r.jv() == JsonV::Number(NumV::NegInt(n)),
{
    if n >= 0 {
        JsonValue::Number(JsonNumber::PosInt(n as u64))
    } else {
        JsonValue::Number(JsonNumber::NegInt(n))
    }
}

/// An object from its entries.
pub fn json_object(entries: Vec<(String, JsonValue)>) -> (r: JsonValue)
    ensures
        r.jv() == JsonV::Object(entries_view(entries@)),
{
    proof {
        lemma_object_view(entries);
    }
    JsonValue::Object(entries)
}

/// An array from its items.
pub fn json_array(items: Vec<JsonValue>) -> (r: JsonValue)
    ensures
        r.jv() == JsonV::Array(items_view(items@)),
{
    proof {
        lemma_array_view(items);
    }
    JsonValue::Array(items)
}

/// An entry `(key, value)` with the key given as text.
pub fn entry(key: &str, val: JsonValue) -> (r: (String, JsonValue))
    ensures
        r.0@ == key@,
        r.1 == val,
{
    (key.to_owned(), val)
}

// ---------------------------------------------------------------------------
// Laws of insertion and removal
// ---------------------------------------------------------------------------

/// The keys of an object are pairwise distinct.
pub open spec fn distinct_keys(e: Seq<(Seq<char>, JsonV)>) -> bool {
    forall|i: int, j: int| 0 <= i < j < e.len() ==> e[i].0 != e[j].0
}

/// The value of a member, if present.
pub open spec fn member(e: Seq<(Seq<char>, JsonV)>, key: Seq<char>) -> Option<JsonV> {
    jget(JsonV::Object(e), key)
}

/// Law: inserting a key leaves every other member as it was, and the key
/// then holds the inserted value.
pub proof fn lemma_insert_member(e: Seq<(Seq<char>, JsonV)>, key: Seq<char>, v: JsonV, other: Seq<char>)
    ensures
        member(obj_insert(e, key, v), key) == Some(v),
        other != key ==> member(obj_insert(e, key, v), other) == member(e, other),
{
    let n = obj_insert(e, key, v);
    lemma_find_key_props(e, key);
    lemma_find_key_props(e, other);
    match find_key(e, key) {
        Some(i) => {
            assert forall|j: int| 0 <= j < i implies n[j].0 != key by {
                assert(n[j] == e[j]);
            }
            lemma_find_key(n, key, i);
        },
        None => {
            assert forall|j: int| 0 <= j < e.len() implies n[j].0 != key by {
                assert(n[j] == e[j]);
            }
            lemma_find_key(n, key, e.len() as int);
        },
    }
    if other != key {
        lemma_find_key_props(n, other);
        match find_key(e, other) {
            Some(k) => {
                assert(n[k] == e[k]);
                assert forall|j: int| 0 <= j < k implies n[j].0 != other by {
                    if n[j] != e[j] {
                        assert(n[j].0 == key);
                    }
                }
                lemma_find_key(n, other, k);
            },
            None => {
                match find_key(n, other) {
                    Some(k) => {
                        if k < e.len() && n[k] == e[k] {
                            assert(e[k].0 != other);
                        }
                    },
                    None => {},
                }
            },
        }
    }
}

/// Law: with distinct keys, removing a key drops it and leaves every other
/// member as it was (only positions may change), and the keys stay distinct.
pub proof fn lemma_remove_member(e: Seq<(Seq<char>, JsonV)>, key: Seq<char>, other: Seq<char>)
    requires
        distinct_keys(e),
    ensures
        member(obj_remove(e, key), key) is None,
        other != key ==> member(obj_remove(e, key), other) == member(e, other),
        distinct_keys(obj_remove(e, key)),
{
    let n = obj_remove(e, key);
    lemma_find_key_props(e, key);
    lemma_find_key_props(e, other);
    lemma_find_key_props(n, key);
    lemma_find_key_props(n, other);
    match find_key(e, key) {
        Some(i) => {
            let last = e.len() - 1;
            assert(n.len() == last);
            assert forall|j: int| 0 <= j < n.len() implies n[j].0 != key by {
                if j == i {
                    assert(n[j] == e[last]);
                    if i != last {
                        assert(e[i].0 != e[last].0);
                    }
                } else {
                    assert(n[j] == e[j]);
                    assert(e[j].0 != e[i].0 || j == i);
                }
            }
            assert forall|a: int, b: int| 0 <= a < b < n.len() implies n[a].0 != n[b].0 by {
                let ea = if a == i { last } else { a };
                let eb = if b == i { last } else { b };
                assert(n[a] == e[ea]);
                assert(n[b] == e[eb]);
                assert(ea != eb);
                if ea < eb {
                    assert(e[ea].0 != e[eb].0);
                } else {
                    assert(e[eb].0 != e[ea].0);
                }
            }
            if other != key {
                match find_key(e, other) {
                    Some(k) => {
                        let nk = if k == last { i } else { k };
                        assert(k != i);
                        assert(n[nk] == e[k]);
                        assert forall|j: int| 0 <= j < nk implies n[j].0 != other by {
                            let ej = if j == i { last } else { j };
                            assert(n[j] == e[ej]);
                            if ej != k {
                                if ej < k {
                                    assert(e[ej].0 != e[k].0);
                                } else {
                                    assert(e[k].0 != e[ej].0);
                                }
                            }
                        }
                        lemma_find_key(n, other, nk);
                    },
                    None => {
                        match find_key(n, other) {
                            Some(k) => {
                                let ek = if k == i { last } else { k };
                                assert(n[k] == e[ek]);
                            },
                            None => {},
                        }
                    },
                }
            }
        },
        None => {},
    }
}

/// The key names at most one member.
pub open spec fn at_most_once(e: Seq<(Seq<char>, JsonV)>, key: Seq<char>) -> bool {
    forall|i: int, j: int| 0 <= i < j < e.len() ==> !(#[trigger] e[i].0 == key && #[trigger] e[j].0 == key)
}

/// Law: removing a key that names at most one member drops it; a member
/// whose key names at most one member keeps its value.
pub proof fn lemma_remove_once(e: Seq<(Seq<char>, JsonV)>, key: Seq<char>, other: Seq<char>)
    ensures
        at_most_once(e, key) ==> member(obj_remove(e, key), key) is None,
        other != key && at_most_once(e, other) ==> member(obj_remove(e, key), other) == member(e, other),
{
    let n = obj_remove(e, key);
    lemma_find_key_props(e, key);
    lemma_find_key_props(e, other);
    lemma_find_key_props(n, key);
    lemma_find_key_props(n, other);
    match find_key(e, key) {
        Some(i) => {
            let last = e.len() - 1;
            assert(n.len() == last);
            if at_most_once(e, key) {
                assert forall|j: int| 0 <= j < n.len() implies n[j].0 != key by {
                    if j == i {
                        assert(n[j] == e[last]);
                        assert(!(e[i].0 == key && e[last].0 == key));
                    } else {
                        assert(n[j] == e[j]);
                        if j < i {
                        } else {
                            assert(!(e[i].0 == key && e[j].0 == key));
                        }
                    }
                }
            }
            if other != key && at_most_once(e, other) {
                match find_key(e, other) {
                    Some(k) => {
                        assert(k != i);
                        let nk = if k == last { i } else { k };
                        assert(n[nk] == e[k]);
                        assert forall|j: int| 0 <= j < nk implies n[j].0 != other by {
                            if j == i {
                                assert(n[j] == e[last]);
                                if last != k {
                                    if last < k {
                                    } else {
                                        assert(!(e[k].0 == other && e[last].0 == other));
                                    }
                                }
                            } else {
                                assert(n[j] == e[j]);
                                if k == last {
                                    assert(!(e[j].0 == other && e[k].0 == other));
                                }
                            }
                        }
                        lemma_find_key(n, other, nk);
                    },
                    None => {
                        match find_key(n, other) {
                            Some(k) => {
                                let ek = if k == i { last } else { k };
                                assert(n[k] == e[ek]);
                            },
                            None => {},
                        }
                    },
                }
            }
        },
        None => {},
    }
}

} // verus!
