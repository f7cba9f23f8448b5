//! A JSON document model for contract processing.
//!
//! `JsonValue` holds a parsed JSON document as plain values; `Json` is its
//! mathematical value, over which the contract rules are stated. Object
//! members keep the order they were given in.
use vstd::prelude::*;

use crate::maps::{lookup, lemma_lookup_absent, lemma_lookup_index};
use crate::text::chars_lt;
use crate::text::str_equal;

verus! {

/// A JSON value.
#[derive(Debug, PartialEq, Eq)]
pub enum JsonValue {
    Null,
    Bool(bool),
    /// A number, by its JSON text.
    Number(String),
    String(String),
    Array(Vec<JsonValue>),
    Object(Vec<JsonMember>),
}

/// One member of a JSON object.
#[derive(Debug, PartialEq, Eq)]
pub struct JsonMember {
    pub key: String,
    pub value: JsonValue,
}

/// The mathematical value of a JSON value.
pub enum Json {
    Null,
    Bool(bool),
    Number(Seq<char>),
    Str(Seq<char>),
    Array(Seq<Json>),
    Object(Seq<(Seq<char>, Json)>),
}

pub open spec fn json_view(v: JsonValue) -> Json
    decreases v,
{
    match v {
        JsonValue::Null => Json::Null,
        JsonValue::Bool(b) => Json::Bool(b),
        JsonValue::Number(n) => Json::Number(n@),
        JsonValue::String(s) => Json::Str(s@),
        JsonValue::Array(items) => Json::Array(
            Seq::new(
                items@.len(),
                |i: int|
                    if 0 <= i < items@.len() {
                        json_view(items@[i])
                    } else {
                        Json::Null
                    },
            ),
        ),
        JsonValue::Object(members) => Json::Object(
            Seq::new(
                members@.len(),
                |i: int|
                    if 0 <= i < members@.len() {
                        (members@[i].key@, json_view(members@[i].value))
                    } else {
                        (seq![], Json::Null)
                    },
            ),
        ),
    }
}

/// The members of an object, by key and value.
pub open spec fn members_view(ms: Seq<JsonMember>) -> Seq<(Seq<char>, Json)> {
    Seq::new(ms.len(), |i: int| (ms[i].key@, json_view(ms[i].value)))
}

/// The elements of an array.
pub open spec fn items_view(items: Seq<JsonValue>) -> Seq<Json> {
    Seq::new(items.len(), |i: int| json_view(items[i]))
}

pub open spec fn as_object(v: Json) -> Option<Seq<(Seq<char>, Json)>> {
    match v {
        Json::Object(ms) => Some(ms),
        _ => None,
    }
}

pub open spec fn as_array(v: Json) -> Option<Seq<Json>> {
    match v {
        Json::Array(items) => Some(items),
        _ => None,
    }
}

pub open spec fn as_str(v: Json) -> Option<Seq<char>> {
    match v {
        Json::Str(s) => Some(s),
        _ => None,
    }
}

pub open spec fn as_bool(v: Json) -> Option<bool> {
    match v {
        Json::Bool(b) => Some(b),
        _ => None,
    }
}

/// The string held by member `k`, when there is one and it is a string.
pub open spec fn str_member(ms: Seq<(Seq<char>, Json)>, k: Seq<char>) -> Option<Seq<char>> {
    match lookup(ms, k) {
        Some(v) => as_str(v),
        None => None,
    }
}

/// The boolean held by member `k`, when there is one and it is a boolean.
pub open spec fn bool_member(ms: Seq<(Seq<char>, Json)>, k: Seq<char>) -> Option<bool> {
    match lookup(ms, k) {
        Some(v) => as_bool(v),
        None => None,
    }
}

pub proof fn lemma_object_view(ms: Vec<JsonMember>)
    ensures
        json_view(JsonValue::Object(ms)) == Json::Object(members_view(ms@)),
{
    assert(as_object(json_view(JsonValue::Object(ms)))->0 =~= members_view(ms@));
}

pub proof fn lemma_array_view(items: Vec<JsonValue>)
    ensures
        json_view(JsonValue::Array(items)) == Json::Array(items_view(items@)),
{
    assert(as_array(json_view(JsonValue::Array(items)))->0 =~= items_view(items@));
}

/// The members of an object value.
pub fn object_of(v: &JsonValue) -> (r: Option<&Vec<JsonMember>>)
    ensures
        match r {
            Some(ms) => as_object(json_view(*v)) == Some(members_view(ms@)),
            None => as_object(json_view(*v)) is None,
        },
{
    match v {
        JsonValue::Object(ms) => {
            proof {
                lemma_object_view(*ms);
            }
            Some(ms)
        },
        _ => None,
    }
}

/// The elements of an array value.
pub fn array_of(v: &JsonValue) -> (r: Option<&Vec<JsonValue>>)
    ensures
        match r {
            Some(items) => as_array(json_view(*v)) == Some(items_view(items@)),
            None => as_array(json_view(*v)) is None,
        },
{
    match v {
        JsonValue::Array(items) => {
            proof {
                lemma_array_view(*items);
            }
            Some(items)
        },
        _ => None,
    }
}

/// The text of a string value.
pub fn str_of(v: &JsonValue) -> (r: Option<&String>)
    ensures
        match r {
            Some(s) => as_str(json_view(*v)) == Some(s@),
            None => as_str(json_view(*v)) is None,
        },
{
    match v {
        JsonValue::String(s) => Some(s),
        _ => None,
    }
}

/// The boolean of a boolean value.
pub fn bool_of(v: &JsonValue) -> (r: Option<bool>)
    ensures
        r == as_bool(json_view(*v)),
{
    match v {
        JsonValue::Bool(b) => Some(*b),
        _ => None,
    }
}

/// The value of the first member with key `key`.
pub fn member<'a>(ms: &'a Vec<JsonMember>, key: &str) -> (r: Option<&'a JsonValue>)
    ensures
        match r {
            Some(v) => lookup(members_view(ms@), key@) == Some(json_view(*v)),
            None => lookup(members_view(ms@), key@) is None,
        },
{
    let ghost mv = members_view(ms@);
    let mut i: usize = 0;
    while i < ms.len()
        invariant
            mv == members_view(ms@),
            i <= ms@.len(),
            forall|j: int| 0 <= j < i ==> mv[j].0 != key@,
        decreases ms@.len() - i,
    {
        if str_equal(ms[i].key.as_str(), key) {
            proof {
                lemma_lookup_index(mv, key@, i as int);
            }
            return Some(&ms[i].value);
        }
        i = i + 1;
    }
    proof {
        lemma_lookup_absent(mv, key@);
    }
    None
}

/// The string held by member `key`, when there is one and it is a string.
pub fn str_member_of<'a>(ms: &'a Vec<JsonMember>, key: &str) -> (r: Option<&'a String>)
    ensures
        match r {
            Some(s) => str_member(members_view(ms@), key@) == Some(s@),
            None => str_member(members_view(ms@), key@) is None,
        },
{
    match member(ms, key) {
        Some(v) => str_of(v),
        None => None,
    }
}

/// The boolean held by member `key`, when there is one and it is a boolean.
pub fn bool_member_of(ms: &Vec<JsonMember>, key: &str) -> (r: Option<bool>)
    ensures
        r == bool_member(members_view(ms@), key@),
{
    match member(ms, key) {
        Some(v) => bool_of(v),
        None => None,
    }
}

/// A deep copy of a JSON value.
pub fn clone_json(v: &JsonValue) -> (r: JsonValue)
    ensures
        json_view(r) == json_view(*v),
    decreases v,
{
    match v {
        JsonValue::Null => JsonValue::Null,
        JsonValue::Bool(b) => JsonValue::Bool(*b),
        JsonValue::Number(n) => JsonValue::Number(n.clone()),
        JsonValue::String(s) => JsonValue::String(s.clone()),
        JsonValue::Array(items) => {
            let mut out: Vec<JsonValue> = Vec::new();
            let mut i: usize = 0;
            while i < items.len()
                invariant
                    *v == JsonValue::Array(*items),
                    i <= items@.len(),
                    out@.len() == i,
                    forall|j: int| 0 <= j < i ==> json_view(#[trigger] out@[j]) == json_view(items@[j]),
                decreases items@.len() - i,
            {
                assert(decreases_to!(*v => v->Array_0));
                assert(decreases_to!(*items => items@));
                assert(decreases_to!(items@ => items@[i as int]));
                let c = clone_json(&items[i]);
                out.push(c);
                i = i + 1;
            }
            proof {
                lemma_array_view(out);
                lemma_array_view(*items);
                assert(items_view(out@) =~= items_view(items@));
            }
            JsonValue::Array(out)
        },
        JsonValue::Object(ms) => {
            let mut out: Vec<JsonMember> = Vec::new();
            let mut i: usize = 0;
            while i < ms.len()
                invariant
                    *v == JsonValue::Object(*ms),
                    i <= ms@.len(),
                    out@.len() == i,
                    forall|j: int|
                        0 <= j < i ==> (#[trigger] out@[j]).key@ == ms@[j].key@ && json_view(
                            out@[j].value,
                        ) == json_view(ms@[j].value),
                decreases ms@.len() - i,
            {
                assert(decreases_to!(*v => v->Object_0));
                assert(decreases_to!(*ms => ms@));
                assert(decreases_to!(ms@ => ms@[i as int]));
                assert(decreases_to!(ms@[i as int] => ms@[i as int].value));
                let c = clone_json(&ms[i].value);
                out.push(JsonMember { key: ms[i].key.clone(), value: c });
                i = i + 1;
            }
            proof {
                lemma_object_view(out);
                lemma_object_view(*ms);
                assert(members_view(out@) =~= members_view(ms@));
            }
            JsonValue::Object(out)
        },
    }
}

/// `ms` with the value of its first member with key `k` replaced by `v`.
pub open spec fn replace_first<V>(ms: Seq<(Seq<char>, V)>, k: Seq<char>, v: V) -> Seq<(Seq<char>, V)>
    decreases ms.len(),
{
    if ms.len() == 0 {
        ms
    } else if ms[0].0 == k {
        seq![(k, v)] + ms.drop_first()
    } else {
        seq![ms[0]] + replace_first(ms.drop_first(), k, v)
    }
}

/// `ms` with a member `(k, v)` added before the first member whose key is
/// greater than `k`.
pub open spec fn insert_before_greater<V>(ms: Seq<(Seq<char>, V)>, k: Seq<char>, v: V) -> Seq<(Seq<char>, V)>
    decreases ms.len(),
{
    if ms.len() == 0 {
        seq![(k, v)]
    } else if chars_lt(k, ms[0].0) {
        seq![(k, v)] + ms
    } else {
        seq![ms[0]] + insert_before_greater(ms.drop_first(), k, v)
    }
}

/// Setting member `k` of an object: the first member with that key gets the
/// value; without one, the member goes before the first greater key (on an
/// object whose keys ascend, this is where an ordered map puts it).
pub open spec fn put_member<V>(ms: Seq<(Seq<char>, V)>, k: Seq<char>, v: V) -> Seq<(Seq<char>, V)> {
    if lookup(ms, k) is Some {
        replace_first(ms, k, v)
    } else {
        insert_before_greater(ms, k, v)
    }
}

pub proof fn lemma_replace_first_at<V>(ms: Seq<(Seq<char>, V)>, k: Seq<char>, v: V, i: int)
    requires
        0 <= i < ms.len(),
        ms[i].0 == k,
        forall|j: int| 0 <= j < i ==> (#[trigger] ms[j]).0 != k,
    ensures
        replace_first(ms, k, v) == ms.update(i, (k, v)),
    decreases i,
{
    if i == 0 {
        assert(seq![(k, v)] + ms.drop_first() =~= ms.update(0, (k, v)));
    } else {
        let t = ms.drop_first();
        assert forall|j: int| 0 <= j < i - 1 implies (#[trigger] t[j]).0 != k by {
            assert(t[j] == ms[j + 1]);
        }
        lemma_replace_first_at(t, k, v, i - 1);
        assert(seq![ms[0]] + t.update(i - 1, (k, v)) =~= ms.update(i, (k, v)));
    }
}

pub proof fn lemma_insert_before_greater_at<V>(ms: Seq<(Seq<char>, V)>, k: Seq<char>, v: V, i: int)
    requires
        0 <= i <= ms.len(),
        forall|j: int| 0 <= j < i ==> !chars_lt(k, (#[trigger] ms[j]).0),
        i < ms.len() ==> chars_lt(k, ms[i].0),
    ensures
        insert_before_greater(ms, k, v) == ms.insert(i, (k, v)),
    decreases i,
{
    if i == 0 {
        if ms.len() > 0 {
            assert(seq![(k, v)] + ms =~= ms.insert(0, (k, v)));
        } else {
            assert(seq![(k, v)] =~= ms.insert(0, (k, v)));
        }
    } else {
        let t = ms.drop_first();
        assert forall|j: int| 0 <= j < i - 1 implies !chars_lt(k, (#[trigger] t[j]).0) by {
            assert(t[j] == ms[j + 1]);
        }
        lemma_insert_before_greater_at(t, k, v, i - 1);
        assert(seq![ms[0]] + t.insert(i - 1, (k, v)) =~= ms.insert(i, (k, v)));
    }
}

impl View for JsonValue {
    type V = Json;

    open spec fn view(&self) -> Json {
        json_view(*self)
    }
}

/// Sets member `key` of an object, as `put_member` states.
pub fn set_member(ms: &mut Vec<JsonMember>, key: &str, value: JsonValue)
    ensures
        members_view(final(ms)@) == put_member(members_view(old(ms)@), key@, json_view(value)),
{
    let ghost s = members_view(ms@);
    let ghost jv = json_view(value);
    let mut i: usize = 0;
    while i < ms.len()
        invariant
            s == members_view(ms@),
            s == members_view(old(ms)@),
            jv == json_view(value),
            i <= s.len(),
            forall|j: int| 0 <= j < i ==> (#[trigger] s[j]).0 != key@,
        decreases s.len() - i,
    {
        if str_equal(ms[i].key.as_str(), key) {
            proof {
                lemma_lookup_index(s, key@, i as int);
                lemma_replace_first_at(s, key@, jv, i as int);
            }
            ms.set(i, JsonMember { key: key.to_owned(), value });
            assert(members_view(ms@) =~= s.update(i as int, (key@, jv)));
            return;
        }
        i = i + 1;
    }
    proof {
        lemma_lookup_absent(s, key@);
    }
    let mut j: usize = 0;
    while j < ms.len() && !crate::text::str_less(key, ms[j].key.as_str())
        invariant
            s == members_view(ms@),
            j <= s.len(),
            forall|m: int| 0 <= m < j ==> !chars_lt(key@, (#[trigger] s[m]).0),
        decreases s.len() - j,
    {
        j = j + 1;
    }
    proof {
        lemma_insert_before_greater_at(s, key@, jv, j as int);
    }
    ms.insert(j, JsonMember { key: key.to_owned(), value });
    assert(members_view(ms@) =~= s.insert(j as int, (key@, jv)));
}

pub proof fn lemma_lookup_cons<V>(x: (Seq<char>, V), s: Seq<(Seq<char>, V)>, k: Seq<char>)
    ensures
        lookup(seq![x] + s, k) == (if x.0 == k { Some(x.1) } else { lookup(s, k) }),
{
    assert((seq![x] + s).drop_first() =~= s);
}

pub proof fn lemma_replace_first_other<V>(ms: Seq<(Seq<char>, V)>, k: Seq<char>, v: V, k2: Seq<char>)
    requires
        k2 != k,
    ensures
        lookup(replace_first(ms, k, v), k2) == lookup(ms, k2),
    decreases ms.len(),
{
    if ms.len() > 0 {
        lemma_lookup_cons(ms[0], ms.drop_first(), k2);
        assert(ms =~= seq![ms[0]] + ms.drop_first());
        if ms[0].0 == k {
            lemma_lookup_cons((k, v), ms.drop_first(), k2);
        } else {
            lemma_replace_first_other(ms.drop_first(), k, v, k2);
            lemma_lookup_cons(ms[0], replace_first(ms.drop_first(), k, v), k2);
        }
    }
}

pub proof fn lemma_insert_before_greater_other<V>(ms: Seq<(Seq<char>, V)>, k: Seq<char>, v: V, k2: Seq<char>)
    requires
        k2 != k,
    ensures
        lookup(insert_before_greater(ms, k, v), k2) == lookup(ms, k2),
    decreases ms.len(),
{
    if ms.len() == 0 {
        lemma_lookup_cons((k, v), ms, k2);
    } else {
        lemma_lookup_cons(ms[0], ms.drop_first(), k2);
        assert(ms =~= seq![ms[0]] + ms.drop_first());
        if chars_lt(k, ms[0].0) {
            lemma_lookup_cons((k, v), ms, k2);
        } else {
            lemma_insert_before_greater_other(ms.drop_first(), k, v, k2);
            lemma_lookup_cons(ms[0], insert_before_greater(ms.drop_first(), k, v), k2);
        }
    }
}

/// Setting one member leaves every other key's value unchanged.
pub proof fn lemma_put_member_other<V>(ms: Seq<(Seq<char>, V)>, k: Seq<char>, v: V, k2: Seq<char>)
    requires
        k2 != k,
    ensures
        lookup(put_member(ms, k, v), k2) == lookup(ms, k2),
{
    lemma_replace_first_other(ms, k, v, k2);
    lemma_insert_before_greater_other(ms, k, v, k2);
}

pub proof fn lemma_replace_first_same<V>(ms: Seq<(Seq<char>, V)>, k: Seq<char>, v: V)
    requires
        lookup(ms, k) is Some,
    ensures
        lookup(replace_first(ms, k, v), k) == Some(v),
    decreases ms.len(),
{
    lemma_lookup_cons(ms[0], ms.drop_first(), k);
    assert(ms =~= seq![ms[0]] + ms.drop_first());
    if ms[0].0 == k {
        lemma_lookup_cons((k, v), ms.drop_first(), k);
    } else {
        lemma_replace_first_same(ms.drop_first(), k, v);
        lemma_lookup_cons(ms[0], replace_first(ms.drop_first(), k, v), k);
    }
}

pub proof fn lemma_insert_before_greater_same<V>(ms: Seq<(Seq<char>, V)>, k: Seq<char>, v: V)
    requires
        lookup(ms, k) is None,
    ensures
        lookup(insert_before_greater(ms, k, v), k) == Some(v),
    decreases ms.len(),
{
    if ms.len() == 0 {
        lemma_lookup_cons((k, v), ms, k);
    } else {
        lemma_lookup_cons(ms[0], ms.drop_first(), k);
        assert(ms =~= seq![ms[0]] + ms.drop_first());
        if chars_lt(k, ms[0].0) {
            lemma_lookup_cons((k, v), ms, k);
        } else {
            lemma_insert_before_greater_same(ms.drop_first(), k, v);
            lemma_lookup_cons(ms[0], insert_before_greater(ms.drop_first(), k, v), k);
        }
    }
}

/// After setting member `k`, reading `k` gives the value set.
pub proof fn lemma_put_member_same<V>(ms: Seq<(Seq<char>, V)>, k: Seq<char>, v: V)
    ensures
        lookup(put_member(ms, k, v), k) == Some(v),
{
    if lookup(ms, k) is Some {
        lemma_replace_first_same(ms, k, v);
    } else {
        lemma_insert_before_greater_same(ms, k, v);
    }
}

/// Setting a member to the value it already has changes nothing.
pub proof fn lemma_put_member_unchanged<V>(ms: Seq<(Seq<char>, V)>, k: Seq<char>, v: V)
    requires
        lookup(ms, k) == Some(v),
    ensures
        put_member(ms, k, v) == ms,
    decreases ms.len(),
{
    assert(ms =~= seq![ms[0]] + ms.drop_first());
    if ms[0].0 == k {
        assert(seq![(k, v)] + ms.drop_first() =~= ms);
    } else {
        lemma_put_member_unchanged(ms.drop_first(), k, v);
        assert(lookup(ms.drop_first(), k) is Some);
        assert(replace_first(ms, k, v) =~= seq![ms[0]] + replace_first(ms.drop_first(), k, v));
    }
}

} // verus!
