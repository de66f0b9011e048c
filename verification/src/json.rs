//! JSON documents as the library reads them: the replies of the language
//! model and the results of running a script arrive as JSON text, which the
//! application parses into this form.
use vstd::prelude::*;
use crate::seqs::{first_index, first_index_from, lemma_first_index_push, lemma_first_index_update};
use crate::text::str_eq;

verus! {

/// A JSON number as the parser classified it; a float keeps the text it is
/// printed as.
#[derive(Debug)]
pub enum JsonNumber {
    PosInt(u64),
    NegInt(i64),
    Float(String),
}

/// A JSON value. An object lists its members in order, each key once.
#[derive(Debug)]
pub enum JsonValue {
    Null,
    Bool(bool),
    Number(JsonNumber),
    Str(String),
    Array(Vec<JsonValue>),
    Object(Vec<(String, JsonValue)>),
}

/// The value of the first member named `key`.
pub open spec fn member(entries: Seq<(String, JsonValue)>, key: Seq<char>) -> Option<JsonValue> {
    match first_index(entries, |e: (String, JsonValue)| e.0@ == key) {
        Some(j) => Some(entries[j].1),
        None => None,
    }
}

/// `v[key]` where `v` is an object that has the member; `None` otherwise
/// (where indexing would give `null`).
pub open spec fn field(v: JsonValue, key: Seq<char>) -> Option<JsonValue> {
    match v {
        JsonValue::Object(entries) => member(entries@, key),
        _ => None,
    }
}

/// `as_str` of an optional value.
pub open spec fn str_of(v: Option<JsonValue>) -> Option<Seq<char>> {
    match v {
        Some(JsonValue::Str(s)) => Some(s@),
        _ => None,
    }
}

/// The string member `key` of `v`, else `default`.
pub open spec fn text_or(v: JsonValue, key: Seq<char>, default: Seq<char>) -> Seq<char> {
    match str_of(field(v, key)) {
        Some(s) => s,
        None => default,
    }
}

/// `as_bool` of an optional value.
pub open spec fn bool_of(v: Option<JsonValue>) -> Option<bool> {
    match v {
        Some(JsonValue::Bool(b)) => Some(b),
        _ => None,
    }
}

/// `as_u64` of an optional value.
pub open spec fn u64_of(v: Option<JsonValue>) -> Option<u64> {
    match v {
        Some(JsonValue::Number(JsonNumber::PosInt(n))) => Some(n),
        _ => None,
    }
}

/// `as_array` of an optional value.
pub open spec fn array_of(v: Option<JsonValue>) -> Option<Seq<JsonValue>> {
    match v {
        Some(JsonValue::Array(items)) => Some(items@),
        _ => None,
    }
}

/// `v[key] == text`: the member is a string equal to `text`.
pub open spec fn field_is(v: JsonValue, key: Seq<char>, text: Seq<char>) -> bool {
    str_of(field(v, key)) == Some(text)
}

/// The member `key` of `v`, if `v` is an object that has it.
pub fn get_field<'a>(v: &'a JsonValue, key: &str) -> (r: Option<&'a JsonValue>)
    ensures
        r matches Some(x) ==> field(*v, key@) == Some(*x),
        r is None ==> field(*v, key@) is None,
{
    match v {
        JsonValue::Object(entries) => {
            let ghost p = |e: (String, JsonValue)| e.0@ == key@;
            let mut j: usize = 0;
            while j < entries.len()
                invariant
                    j <= entries.len(),
                    *v is Object,
                    v->Object_0 == *entries,
                    p == (|e: (String, JsonValue)| e.0@ == key@),
                    first_index(entries@, p) == first_index_from(entries@, p, j as int),
                decreases entries.len() - j,
            {
                if str_eq(entries[j].0.as_str(), key) {
                    assert(p(entries@[j as int]));
                    return Some(&entries[j].1);
                }
                j = j + 1;
            }
            None
        },
        _ => None,
    }
}

/// The member `key` of `v` as a string, if it is one.
pub fn get_str<'a>(v: &'a JsonValue, key: &str) -> (r: Option<&'a String>)
    ensures
        r matches Some(s) ==> str_of(field(*v, key@)) == Some(s@),
        r is None ==> str_of(field(*v, key@)) is None,
{
    match get_field(v, key) {
        Some(JsonValue::Str(s)) => Some(s),
        _ => None,
    }
}

/// The member `key` of `v` as a boolean, if it is one.
pub fn get_bool(v: &JsonValue, key: &str) -> (r: Option<bool>)
    ensures
        r == bool_of(field(*v, key@)),
{
    match get_field(v, key) {
        Some(JsonValue::Bool(b)) => Some(*b),
        _ => None,
    }
}

/// The member `key` of `v` as an unsigned integer, if it is one.
pub fn get_u64(v: &JsonValue, key: &str) -> (r: Option<u64>)
    ensures
        r == u64_of(field(*v, key@)),
{
    match get_field(v, key) {
        Some(JsonValue::Number(JsonNumber::PosInt(n))) => Some(*n),
        _ => None,
    }
}

/// The member `key` of `v` as an array, if it is one.
pub fn get_array<'a>(v: &'a JsonValue, key: &str) -> (r: Option<&'a Vec<JsonValue>>)
    ensures
        r matches Some(a) ==> array_of(field(*v, key@)) == Some(a@),
        r is None ==> array_of(field(*v, key@)) is None,
{
    match get_field(v, key) {
        Some(JsonValue::Array(items)) => Some(items),
        _ => None,
    }
}

/// Whether the member `key` of `v` is the string `text`.
pub fn field_equals(v: &JsonValue, key: &str, text: &str) -> (b: bool)
    ensures
        b == field_is(*v, key@, text@),
{
    match get_str(v, key) {
        Some(s) => str_eq(s.as_str(), text),
        None => false,
    }
}

/// Takes the member `key` out of `v`, if `v` is an object that has it.
pub fn take_field(v: JsonValue, key: &str) -> (r: Option<JsonValue>)
    ensures
        r == field(v, key@),
{
    let ghost v0 = v;
    match v {
        JsonValue::Object(mut entries) => {
            let ghost e0 = entries@;
            let ghost p = |e: (String, JsonValue)| e.0@ == key@;
            let mut j: usize = 0;
            while j < entries.len()
                invariant
                    j <= entries.len(),
                    entries@ == e0,
                    v0 == v,
                    v0 == JsonValue::Object(entries),
                    p == (|e: (String, JsonValue)| e.0@ == key@),
                    first_index(e0, p) == first_index_from(e0, p, j as int),
                decreases entries.len() - j,
            {
                if str_eq(entries[j].0.as_str(), key) {
                    assert(p(e0[j as int]));
                    assert(first_index_from(e0, p, j as int) == Some(j as int));
                    assert(field(v0, key@) == Some(e0[j as int].1));
                    let e = entries.remove(j);
                    assert(e == e0[j as int]);
                    return Some(e.1);
                }
                j = j + 1;
            }
            None
        },
        _ => None,
    }
}


/// Sets the member `key` of an object's members: its value is replaced when
/// it is there, otherwise the member is added; every other member is kept.
pub fn set_member(entries: &mut Vec<(String, JsonValue)>, key: String, val: JsonValue)
    ensures
        member(final(entries)@, key@) == Some(val),
        forall|k: Seq<char>| k != key@ ==> member(final(entries)@, k) == member(old(entries)@, k),
{
    let ghost e0 = entries@;
    let ghost pk = |e: (String, JsonValue)| e.0@ == key@;
    let mut j: usize = 0;
    while j < entries.len()
        invariant
            j <= entries.len(),
            entries@ == e0,
            e0 == old(entries)@,
            pk == (|e: (String, JsonValue)| e.0@ == key@),
            first_index(e0, pk) == first_index_from(e0, pk, j as int),
        decreases entries.len() - j,
    {
        if str_eq(entries[j].0.as_str(), key.as_str()) {
            let old_entry = entries.remove(j);
            let ghost kept = old_entry.0;
            entries.insert(j, (old_entry.0, val));
            proof {
                assert(pk(e0[j as int]));
                assert(first_index_from(e0, pk, j as int) == Some(j as int));
                let e1 = e0.update(j as int, (kept, val));
                assert(entries@ =~= e1);
                lemma_first_index_update(e0, j as int, (kept, val), pk);
                assert forall|k: Seq<char>| k != key@ implies member(entries@, k) == member(e0, k) by {
                    let pq = |e: (String, JsonValue)| e.0@ == k;
                    lemma_first_index_update(e0, j as int, (kept, val), pq);
                    crate::seqs::lemma_first_index_from(e0, pq, 0);
                    match first_index(e0, pq) {
                        Some(m) => {
                            assert(m != j);
                            assert(e1[m] == e0[m]);
                        },
                        None => {},
                    }
                }
            }
            return;
        }
        j = j + 1;
    }
    let ghost kv = key@;
    entries.push((key, val));
    proof {
        lemma_first_index_push(e0, (entries@.last().0, val), pk);
        assert(entries@ =~= e0.push((entries@.last().0, val)));
        assert(entries@.last().0@ == kv);
        assert forall|k: Seq<char>| k != kv implies member(entries@, k) == member(e0, k) by {
            let pq = |e: (String, JsonValue)| e.0@ == k;
            lemma_first_index_push(e0, (entries@.last().0, val), pq);
            crate::seqs::lemma_first_index_from(e0, pq, 0);
            match first_index(e0, pq) {
                Some(m) => {
                    assert(entries@[m] == e0[m]);
                },
                None => {
                    assert(!pq(entries@.last()));
                },
            }
        }
    }
}

} // verus!
