//! Reading typed fields out of a parsed JSON object with the rules of a
//! derived deserializer: a required string must be present and a string; an
//! optional field may be absent or `null`; a list defaulting to empty may be
//! absent but not `null`; a value of the wrong type makes the whole document
//! malformed. Unknown members are ignored.
use vstd::prelude::*;

use crate::config::strs;
use crate::json::{JsonNumber, JsonV, JsonValue, NumV, jget};
use crate::text::owned;

verus! {

/// A required string member (`None`: missing or not a string).
pub open spec fn req_str(obj: JsonV, key: Seq<char>) -> Option<Seq<char>> {
    match jget(obj, key) {
        Some(JsonV::Str(s)) => Some(s),
        _ => None,
    }
}

/// An optional string member (outer `None`: malformed).
pub open spec fn opt_str_field(obj: JsonV, key: Seq<char>) -> Option<Option<Seq<char>>> {
    match jget(obj, key) {
        None => Some(None),
        Some(JsonV::Null) => Some(None),
        Some(JsonV::Str(s)) => Some(Some(s)),
        _ => None,
    }
}

/// An optional unsigned integer member (outer `None`: malformed, which
/// includes negative and fractional numbers).
pub open spec fn opt_u64_field(obj: JsonV, key: Seq<char>) -> Option<Option<u64>> {
    match jget(obj, key) {
        None => Some(None),
        Some(JsonV::Null) => Some(None),
        Some(JsonV::Number(NumV::PosInt(u))) => Some(Some(u)),
        _ => None,
    }
}

/// The strings of an array whose items are all strings.
pub open spec fn str_items(items: Seq<JsonV>) -> Option<Seq<Seq<char>>>
    decreases items.len(),
{
    if items.len() == 0 {
        Some(Seq::empty())
    } else {
        match (items.last(), str_items(items.drop_last())) {
            (JsonV::Str(s), Some(front)) => Some(front.push(s)),
            _ => None,
        }
    }
}

/// An optional list of strings (outer `None`: malformed).
pub open spec fn opt_strs_field(obj: JsonV, key: Seq<char>) -> Option<Option<Seq<Seq<char>>>> {
    match jget(obj, key) {
        None => Some(None),
        Some(JsonV::Null) => Some(None),
        Some(JsonV::Array(a)) => match str_items(a) {
            Some(v) => Some(Some(v)),
            None => None,
        },
        _ => None,
    }
}

/// A list of strings that defaults to empty when absent (`None`: malformed,
/// `null` included).
pub open spec fn strs_default_field(obj: JsonV, key: Seq<char>) -> Option<Seq<Seq<char>>> {
    match jget(obj, key) {
        None => Some(Seq::empty()),
        Some(JsonV::Array(a)) => str_items(a),
        _ => None,
    }
}

pub open spec fn opt_strs_view(o: Option<Vec<String>>) -> Option<Seq<Seq<char>>> {
    match o {
        Some(v) => Some(strs(v@)),
        None => None,
    }
}

/// A required string member.
pub fn read_req_str(obj: &JsonValue, key: &str) -> (r: Option<String>)
    ensures
        match r {
            Some(s) => req_str(obj.jv(), key@) == Some(s@),
            None => req_str(obj.jv(), key@) is None,
        },
{
    match obj.get(key) {
        Some(JsonValue::String(s)) => Some(owned(s.as_str())),
        _ => None,
    }
}

/// An optional string member.
pub fn read_opt_str(obj: &JsonValue, key: &str) -> (r: Option<Option<String>>)
    ensures
        match r {
            Some(Some(s)) => opt_str_field(obj.jv(), key@) == Some(Some(s@)),
            Some(None) => opt_str_field(obj.jv(), key@) == Some(None::<Seq<char>>),
            None => opt_str_field(obj.jv(), key@) is None,
        },
{
    match obj.get(key) {
        None => Some(None),
        Some(JsonValue::Null) => Some(None),
        Some(JsonValue::String(s)) => Some(Some(owned(s.as_str()))),
        _ => None,
    }
}

/// An optional unsigned integer member.
pub fn read_opt_u64(obj: &JsonValue, key: &str) -> (r: Option<Option<u64>>)
    ensures
        r == opt_u64_field(obj.jv(), key@),
{
    match obj.get(key) {
        None => Some(None),
        Some(JsonValue::Null) => Some(None),
        Some(JsonValue::Number(JsonNumber::PosInt(u))) => Some(Some(*u)),
        _ => None,
    }
}

/// The strings of an array, when all items are strings.
pub fn read_str_items(items: &Vec<JsonValue>) -> (r: Option<Vec<String>>)
    ensures
        match r {
            Some(v) => str_items(crate::json::items_view(items@)) == Some(strs(v@)),
            None => str_items(crate::json::items_view(items@)) is None,
        },
{
    let ghost iv = crate::json::items_view(items@);
    let mut out: Vec<String> = Vec::new();
    let mut i: usize = 0;
    while i < items.len()
        invariant
            iv == crate::json::items_view(items@),
            i <= items@.len(),
            str_items(iv.take(i as int)) == Some(strs(out@)),
        decreases items@.len() - i,
    {
        assert(iv.take(i + 1).drop_last() =~= iv.take(i as int));
        assert(iv.take(i + 1).last() == items@[i as int].jv());
        match &items[i] {
            JsonValue::String(s) => {
                let ghost prev = out@;
                out.push(owned(s.as_str()));
                assert(strs(out@) =~= strs(prev).push(s@));
            },
            _ => {
                proof {
                    lemma_str_items_prefix(iv, i as int + 1);
                }
                return None;
            },
        }
        i = i + 1;
    }
    assert(iv.take(i as int) =~= iv);
    Some(out)
}

/// A malformed prefix makes the whole array malformed.
proof fn lemma_str_items_prefix(items: Seq<JsonV>, k: int)
    requires
        0 <= k <= items.len(),
        str_items(items.take(k)) is None,
    ensures
        str_items(items) is None,
    decreases items.len() - k,
{
    if k < items.len() {
        assert(items.take(k + 1).drop_last() =~= items.take(k));
        lemma_str_items_prefix(items, k + 1);
    } else {
        assert(items.take(k) =~= items);
    }
}

/// An optional list of strings.
pub fn read_opt_strs(obj: &JsonValue, key: &str) -> (r: Option<Option<Vec<String>>>)
    ensures
        match r {
            Some(o) => opt_strs_field(obj.jv(), key@) == Some(opt_strs_view(o)),
            None => opt_strs_field(obj.jv(), key@) is None,
        },
{
    match obj.get(key) {
        None => Some(None),
        Some(JsonValue::Null) => Some(None),
        Some(JsonValue::Array(a)) => {
            proof {
                crate::json::lemma_array_view(*a);
            }
            match read_str_items(a) {
                Some(v) => Some(Some(v)),
                None => None,
            }
        },
        _ => None,
    }
}

/// A list of strings defaulting to empty.
pub fn read_strs_default(obj: &JsonValue, key: &str) -> (r: Option<Vec<String>>)
    ensures
        match r {
            Some(v) => strs_default_field(obj.jv(), key@) == Some(strs(v@)),
            None => strs_default_field(obj.jv(), key@) is None,
        },
{
    match obj.get(key) {
        None => {
            let v: Vec<String> = Vec::new();
            assert(strs(v@) =~= Seq::<Seq<char>>::empty());
            Some(v)
        },
        Some(JsonValue::Array(a)) => {
            proof {
                crate::json::lemma_array_view(*a);
            }
            read_str_items(a)
        },
        _ => None,
    }
}

} // verus!
