use vstd::prelude::*;

use crate::map::{assoc_insert, assoc_insert_exec, index_of_key, keys_of, lemma_index_of_key};
use crate::media::{BamlMedia, MediaV};

verus! {

/// A JSON document as the serializers of this crate produce it.
///
/// `Float` holds the IEEE-754 binary64 bit pattern of the number; `Media`
/// stands for a media value, which is written in the media's own format.
/// An `Object` lists its members in insertion order, each key once.
#[derive(Debug, PartialEq)]
pub enum JsonValue {
    Null,
    Bool(bool),
    Int(i64),
    Float(u64),
    String(String),
    Array(Vec<JsonValue>),
    Object(Vec<(String, JsonValue)>),
    Media(BamlMedia),
}

/// Abstract JSON document.
pub enum JsonV {
    Null,
    Bool(bool),
    Int(i64),
    Float(u64),
    String(Seq<char>),
    Array(Seq<JsonV>),
    Object(Seq<(Seq<char>, JsonV)>),
    Media(MediaV),
}

/// The abstract document of a JSON value.
pub open spec fn json_view(v: JsonValue) -> JsonV
    decreases v,
{
    match v {
        JsonValue::Null => JsonV::Null,
        JsonValue::Bool(b) => JsonV::Bool(b),
        JsonValue::Int(i) => JsonV::Int(i),
        JsonValue::Float(f) => JsonV::Float(f),
        JsonValue::String(s) => JsonV::String(s@),
        JsonValue::Array(a) => JsonV::Array(
            Seq::new(
                a@.len(),
                |i: int|
                    if 0 <= i < a@.len() {
                        json_view(a@[i])
                    } else {
                        JsonV::Null
                    },
            ),
        ),
        JsonValue::Object(o) => JsonV::Object(
            Seq::new(
                o@.len(),
                |i: int|
                    if 0 <= i < o@.len() {
                        (o@[i].0@, json_view(o@[i].1))
                    } else {
                        (Seq::empty(), JsonV::Null)
                    },
            ),
        ),
        JsonValue::Media(m) => JsonV::Media(m@),
    }
}

impl View for JsonValue {
    type V = JsonV;

    open spec fn view(&self) -> JsonV {
        json_view(*self)
    }
}

/// Views of JSON values.
pub open spec fn json_items_view(s: Seq<JsonValue>) -> Seq<JsonV> {
    Seq::new(s.len(), |i: int| s[i]@)
}

/// Views of JSON object members.
pub open spec fn json_pairs_view(s: Seq<(String, JsonValue)>) -> Seq<(Seq<char>, JsonV)> {
    Seq::new(s.len(), |i: int| (s[i].0@, s[i].1@))
}

pub proof fn lemma_json_view_shapes(v: JsonValue)
    ensures
        v matches JsonValue::Array(a) ==> v@ == JsonV::Array(json_items_view(a@)),
        v matches JsonValue::Object(o) ==> v@ == JsonV::Object(json_pairs_view(o@)),
{
    match v {
        JsonValue::Array(a) => {
            assert(v@->Array_0 =~= json_items_view(a@));
        },
        JsonValue::Object(o) => {
            assert(v@->Object_0 =~= json_pairs_view(o@));
        },
        _ => {},
    }
}

/// Setting a member of an object: an existing key keeps its place and takes
/// the new value; a new key is added last.
pub open spec fn obj_insert(o: Seq<(Seq<char>, JsonV)>, k: Seq<char>, v: JsonV) -> Seq<(Seq<char>, JsonV)> {
    let i = index_of_key(Seq::new(o.len(), |j: int| o[j].0), k);
    if i >= 0 {
        o.update(i, (k, v))
    } else {
        o.push((k, v))
    }
}

/// The object `o` after setting the members of `items` in turn.
pub open spec fn obj_insert_seq(o: Seq<(Seq<char>, JsonV)>, items: Seq<(Seq<char>, JsonV)>) -> Seq<(Seq<char>, JsonV)>
    decreases items.len(),
{
    if items.len() == 0 {
        o
    } else {
        obj_insert(obj_insert_seq(o, items.drop_last()), items.last().0, items.last().1)
    }
}

/// The object obtained by setting the members of `items` in turn, starting
/// from an empty object.
pub open spec fn obj_from(items: Seq<(Seq<char>, JsonV)>) -> Seq<(Seq<char>, JsonV)> {
    obj_insert_seq(Seq::empty(), items)
}

proof fn lemma_insert_view(s: Seq<(String, JsonValue)>, k: String, v: JsonValue)
    ensures
        json_pairs_view(assoc_insert(s, k, v)) == obj_insert(json_pairs_view(s), k@, v@),
{
    let pv = json_pairs_view(s);
    assert(keys_of(s) =~= Seq::new(pv.len(), |j: int| pv[j].0));
    lemma_index_of_key(keys_of(s), k@);
    let i = index_of_key(keys_of(s), k@);
    if i >= 0 {
        assert(json_pairs_view(assoc_insert(s, k, v)) =~= obj_insert(pv, k@, v@));
    } else {
        assert(json_pairs_view(assoc_insert(s, k, v)) =~= obj_insert(pv, k@, v@));
    }
}

/// Set a member of an object held as a vector of members.
pub fn obj_insert_exec(o: &mut Vec<(String, JsonValue)>, k: String, v: JsonValue)
    ensures
        json_pairs_view(final(o)@) == obj_insert(json_pairs_view(old(o)@), k@, v@),
{
    proof {
        lemma_insert_view(o@, k, v);
    }
    assoc_insert_exec(o, k, v);
}

/// Set the members of `items` in turn on the object `o`.
pub fn obj_insert_all_exec(o: &mut Vec<(String, JsonValue)>, items: Vec<(String, JsonValue)>)
    ensures
        json_pairs_view(final(o)@) == obj_insert_seq(json_pairs_view(old(o)@), json_pairs_view(items@)),
{
    let ghost start = json_pairs_view(o@);
    let ghost all = json_pairs_view(items@);
    let mut items = items;
    let mut rev: Vec<(String, JsonValue)> = Vec::new();
    let ghost orig_items = items@;
    let total = items.len();
    while items.len() > 0
        invariant
            items@.len() + rev@.len() == orig_items.len(),
            forall|j: int| 0 <= j < items@.len() ==> items@[j] == orig_items[j],
            forall|j: int| 0 <= j < rev@.len() ==> rev@[j] == orig_items[orig_items.len() - 1 - j],
        decreases items@.len(),
    {
        let p = items.pop().unwrap();
        rev.push(p);
    }
    let mut n: usize = 0;
    while rev.len() > 0
        invariant
            n + rev@.len() == orig_items.len(),
            total == orig_items.len(),
            all == json_pairs_view(orig_items),
            forall|j: int| 0 <= j < rev@.len() ==> rev@[j] == orig_items[orig_items.len() - 1 - j],
            json_pairs_view(o@) == obj_insert_seq(start, all.take(n as int)),
        decreases rev@.len(),
    {
        let (k, v) = rev.pop().unwrap();
        proof {
            assert(all.take(n + 1).drop_last() =~= all.take(n as int));
            assert(all.take(n + 1).last() == (k@, v@));
        }
        obj_insert_exec(o, k, v);
        n = n + 1;
    }
    assert(all.take(n as int) =~= all);
}

} // verus!
