//! Properties that span several operations of the library.
use vstd::prelude::*;

use crate::serialize::{
    meta_items_json, meta_json, meta_pairs_json, value_items_json, value_json, value_pairs_json,
    SerializeMetadata,
};
use crate::deserializer::{all_defaults, default_shape, first_default};
use crate::field_type::FieldType;
use crate::iter::{walk, walk_entries_rev, walk_items_rev};
use crate::map::{assoc_insert, distinct_keys, index_of_key, keys_of, lemma_index_of_key};
use crate::order::{
    key_less, key_order, keys_ascending, lemma_key_less_total, lemma_key_order_range,
    lemma_key_order_sorted, pick, sorted_by_key,
};
use crate::value::{
    classes_as_maps, key_views, lemma_classes_as_maps_shapes, lemma_map_meta_functional,
    lemma_map_meta_items_rel, lemma_map_meta_pairs_rel, lemma_strip_shapes, map_meta_rel,
    map_meta_spec, meta_of, strip, MetaV, ValueV,
};
use crate::zip::{float_eq, zip_items, zip_pairs, zip_spec};

verus! {

/// Mapping the metadata of a value changes no plain content: the result of
/// `map_meta` strips to the same plain value as its input, and its root
/// metadata is a result of the function on the input's root metadata.
pub proof fn law_map_meta_keeps_value<T, U, F: Fn(&T) -> U>(a: MetaV<T>, b: MetaV<U>, f: F)
    requires
        map_meta_rel(a, b, f),
    ensures
        strip(b) == strip(a),
        f.ensures((&meta_of(a),), meta_of(b)),
    decreases a,
{
    lemma_strip_shapes(a);
    lemma_strip_shapes(b);
        match (a, b) {
        (MetaV::Mapping(x, _), MetaV::Mapping(y, _)) => {
            lemma_map_meta_pairs_rel(x, y, f);
            assert forall|i: int| 0 <= i < x.len() implies strip(#[trigger] y[i].1) == strip(x[i].1) && y[i].0 == x[i].0 by {
                assert(map_meta_rel(x[i].1, y[i].1, f));
                law_map_meta_keeps_value(x[i].1, y[i].1, f);
            }
            assert(strip(b)->Mapping_0 =~= strip(a)->Mapping_0);
        },
        (MetaV::Class(_, x, _), MetaV::Class(_, y, _)) => {
            lemma_map_meta_pairs_rel(x, y, f);
            assert forall|i: int| 0 <= i < x.len() implies strip(#[trigger] y[i].1) == strip(x[i].1) && y[i].0 == x[i].0 by {
                assert(map_meta_rel(x[i].1, y[i].1, f));
                law_map_meta_keeps_value(x[i].1, y[i].1, f);
            }
            assert(strip(b)->Class_1 =~= strip(a)->Class_1);
        },
        (MetaV::List(x, _), MetaV::List(y, _)) => {
            lemma_map_meta_items_rel(x, y, f);
            assert forall|i: int| 0 <= i < x.len() implies strip(#[trigger] y[i]) == strip(x[i]) by {
                law_map_meta_keeps_value(x[i], y[i], f);
            }
            assert(strip(b)->List_0 =~= strip(a)->List_0);
        },
        _ => {},
    }
}

/// No node of the value carries a metadata member.
pub open spec fn no_members<T: SerializeMetadata>(v: MetaV<T>) -> bool
    decreases v, 1nat,
{
    meta_of(v).metadata_json().len() == 0 && match v {
        MetaV::Mapping(e, _) => no_members_pairs(e),
        MetaV::Class(_, e, _) => no_members_pairs(e),
        MetaV::List(l, _) => no_members_items(l),
        _ => true,
    }
}

/// No node of the entries' values carries a metadata member.
pub open spec fn no_members_pairs<T: SerializeMetadata>(e: Seq<(Seq<char>, MetaV<T>)>) -> bool
    decreases e, 0nat,
{
    if e.len() == 0 {
        true
    } else {
        no_members_pairs(e.subrange(0, e.len() - 1)) && no_members(e[e.len() - 1].1)
    }
}

/// No node of the items carries a metadata member.
pub open spec fn no_members_items<T: SerializeMetadata>(l: Seq<MetaV<T>>) -> bool
    decreases l, 0nat,
{
    if l.len() == 0 {
        true
    } else {
        no_members_items(l.subrange(0, l.len() - 1)) && no_members(l[l.len() - 1])
    }
}

/// Metadata that adds no member changes nothing in the JSON form: a value
/// whose nodes carry no metadata member serializes exactly as the plain value
/// underneath it.
pub proof fn law_json_without_members<T: SerializeMetadata>(v: MetaV<T>)
    requires
        no_members(v),
    ensures
        meta_json(v) == value_json(strip(v)),
    decreases v, 1nat,
{
    lemma_strip_shapes(v);
    match v {
        MetaV::Mapping(e, _) => {
            lemma_pairs_json_without_members(e);
        },
        MetaV::Class(_, e, _) => {
            lemma_pairs_json_without_members(e);
        },
        MetaV::List(l, _) => {
            lemma_items_json_without_members(l);
        },
        _ => {},
    }
}

proof fn lemma_pairs_json_without_members<T: SerializeMetadata>(e: Seq<(Seq<char>, MetaV<T>)>)
    requires
        no_members_pairs(e),
    ensures
        meta_pairs_json(e) == value_pairs_json(Seq::new(e.len(), |i: int| (e[i].0, strip(e[i].1)))),
    decreases e, 0nat,
{
    let s = Seq::new(e.len(), |i: int| (e[i].0, strip(e[i].1)));
    if e.len() > 0 {
        let d = e.subrange(0, e.len() - 1);
        lemma_pairs_json_without_members(d);
        law_json_without_members(e[e.len() - 1].1);
        assert(s.subrange(0, s.len() - 1) =~= Seq::new(d.len(), |i: int| (d[i].0, strip(d[i].1))));
    } else {
        assert(s =~= Seq::empty());
    }
}

proof fn lemma_items_json_without_members<T: SerializeMetadata>(l: Seq<MetaV<T>>)
    requires
        no_members_items(l),
    ensures
        meta_items_json(l) == value_items_json(Seq::new(l.len(), |i: int| strip(l[i]))),
    decreases l, 0nat,
{
    let s = Seq::new(l.len(), |i: int| strip(l[i]));
    if l.len() > 0 {
        let d = l.subrange(0, l.len() - 1);
        lemma_items_json_without_members(d);
        law_json_without_members(l[l.len() - 1]);
        assert(s.subrange(0, s.len() - 1) =~= Seq::new(d.len(), |i: int| strip(d[i])));
    } else {
        assert(s =~= Seq::empty());
    }
}

/// Whether a binary64 bit pattern is a NaN.
pub open spec fn is_nan(f: u64) -> bool {
    (f >> 52u64) & 0x7ffu64 == 0x7ffu64 && f & 0xf_ffff_ffff_ffffu64 != 0u64
}

/// No float anywhere in the value is a NaN.
pub open spec fn nan_free(v: ValueV) -> bool
    decreases v, 1nat,
{
    match v {
        ValueV::Float(f) => !is_nan(f),
        ValueV::Mapping(e) => nan_free_pairs(e),
        ValueV::Class(_, e) => nan_free_pairs(e),
        ValueV::List(l) => nan_free_items(l),
        _ => true,
    }
}

/// No float in the entries' values is a NaN.
pub open spec fn nan_free_pairs(e: Seq<(Seq<char>, ValueV)>) -> bool
    decreases e, 0nat,
{
    if e.len() == 0 {
        true
    } else {
        nan_free_pairs(e.subrange(0, e.len() - 1)) && nan_free(e[e.len() - 1].1)
    }
}

/// No float in the items is a NaN.
pub open spec fn nan_free_items(l: Seq<ValueV>) -> bool
    decreases l, 0nat,
{
    if l.len() == 0 {
        true
    } else {
        nan_free_items(l.subrange(0, l.len() - 1)) && nan_free(l[l.len() - 1])
    }
}

proof fn lemma_nan_free_pairs(e: Seq<(Seq<char>, ValueV)>)
    requires
        nan_free_pairs(e),
    ensures
        forall|i: int| 0 <= i < e.len() ==> #[trigger] nan_free(e[i].1),
    decreases e.len(),
{
    if e.len() > 0 {
        let d = e.subrange(0, e.len() - 1);
        lemma_nan_free_pairs(d);
        assert forall|i: int| 0 <= i < e.len() implies #[trigger] nan_free(e[i].1) by {
            if i < e.len() - 1 {
                assert(d[i] == e[i]);
            }
        }
    }
}

proof fn lemma_nan_free_items(l: Seq<ValueV>)
    requires
        nan_free_items(l),
    ensures
        forall|i: int| 0 <= i < l.len() ==> #[trigger] nan_free(l[i]),
    decreases l.len(),
{
    if l.len() > 0 {
        let d = l.subrange(0, l.len() - 1);
        lemma_nan_free_items(d);
        assert forall|i: int| 0 <= i < l.len() implies #[trigger] nan_free(l[i]) by {
            if i < l.len() - 1 {
                assert(d[i] == l[i]);
            }
        }
    }
}

/// Two values with the same plain contents, none of whose floats is a NaN,
/// always pair up: `zip_meta` gives a value, and its root carries both
/// pieces of root metadata.
pub proof fn law_zip_same_plain<T, U>(a: MetaV<T>, b: MetaV<U>)
    requires
        strip(a) == strip(b),
        nan_free(strip(a)),
    ensures
        zip_spec(a, b) is Some,
        meta_of(zip_spec(a, b).unwrap()) == (meta_of(a), meta_of(b)),
    decreases a, 1nat,
{
    lemma_strip_shapes(a);
    lemma_strip_shapes(b);
    match (a, b) {
        (MetaV::Mapping(e1, _), MetaV::Mapping(e2, _)) => {
            lemma_entries_same_plain(e1, e2, strip(a)->Mapping_0, strip(b)->Mapping_0);
            lemma_nan_free_pairs(strip(a)->Mapping_0);
            let o = key_order(key_views(e1));
            lemma_key_order_range(key_views(e1));
            assert(key_views(e1) =~= key_views(e2));
            lemma_zip_pairs_some(e1, e2, o, e1.len());
        },
        (MetaV::Class(_, e1, _), MetaV::Class(_, e2, _)) => {
            lemma_entries_same_plain(e1, e2, strip(a)->Class_1, strip(b)->Class_1);
            lemma_nan_free_pairs(strip(a)->Class_1);
            let o = key_order(key_views(e1));
            lemma_key_order_range(key_views(e1));
            assert(key_views(e1) =~= key_views(e2));
            lemma_zip_pairs_some(e1, e2, o, e1.len());
        },
        (MetaV::List(l1, _), MetaV::List(l2, _)) => {
            let s1 = strip(a)->List_0;
            let s2 = strip(b)->List_0;
            assert forall|i: int| 0 <= i < l1.len() implies #[trigger] strip(l1[i]) == strip(l2[i]) by {
                assert(s1[i] == s2[i]);
            }
            lemma_nan_free_items(s1);
            assert forall|i: int| 0 <= i < l1.len() implies #[trigger] nan_free(strip(l1[i])) by {
                assert(nan_free(s1[i]));
            }
            lemma_zip_items_some(l1, l2, l1.len());
        },
        (MetaV::Float(x, _), MetaV::Float(y, _)) => {
            assert(float_eq(x, y));
        },
        _ => {},
    }
}

proof fn lemma_entries_same_plain<T, U>(
    e1: Seq<(Seq<char>, MetaV<T>)>,
    e2: Seq<(Seq<char>, MetaV<U>)>,
    s1: Seq<(Seq<char>, ValueV)>,
    s2: Seq<(Seq<char>, ValueV)>,
)
    requires
        s1 == Seq::new(e1.len(), |i: int| (e1[i].0, strip(e1[i].1))),
        s2 == Seq::new(e2.len(), |i: int| (e2[i].0, strip(e2[i].1))),
        s1 == s2,
    ensures
        e1.len() == e2.len(),
        forall|i: int| 0 <= i < e1.len() ==> e1[i].0 == e2[i].0,
        forall|i: int| 0 <= i < e1.len() ==> #[trigger] strip(e1[i].1) == strip(e2[i].1),
        forall|i: int| 0 <= i < e1.len() ==> #[trigger] strip(e1[i].1) == s1[i].1,
{
    assert(s1.len() == e1.len() && s2.len() == e2.len());
    assert forall|i: int| 0 <= i < e1.len() implies #[trigger] strip(e1[i].1) == strip(e2[i].1) && strip(e1[i].1) == s1[i].1 by {
        assert(s1[i] == (e1[i].0, strip(e1[i].1)));
        assert(s2[i] == (e2[i].0, strip(e2[i].1)));
    }
    assert forall|i: int| 0 <= i < e1.len() implies e1[i].0 == e2[i].0 by {
        assert(s1[i] == (e1[i].0, strip(e1[i].1)));
        assert(s2[i] == (e2[i].0, strip(e2[i].1)));
    }
}

proof fn lemma_zip_pairs_some<T, U>(
    e1: Seq<(Seq<char>, MetaV<T>)>,
    e2: Seq<(Seq<char>, MetaV<U>)>,
    o: Seq<int>,
    n: nat,
)
    requires
        e1.len() == e2.len(),
        forall|i: int| 0 <= i < e1.len() ==> #[trigger] strip(e1[i].1) == strip(e2[i].1),
        forall|i: int| 0 <= i < e1.len() ==> #[trigger] nan_free(strip(e1[i].1)),
        n <= o.len(),
        forall|j: int| 0 <= j < o.len() ==> 0 <= #[trigger] o[j] < e1.len(),
    ensures
        zip_pairs(e1, o, e2, o, n) is Some,
    decreases e1, n,
{
    if n > 0 {
        lemma_zip_pairs_some(e1, e2, o, (n - 1) as nat);
        let k = o[n - 1];
        assert(0 <= k < e1.len());
        assert(strip(e1[k].1) == strip(e2[k].1));
        assert(nan_free(strip(e1[k].1)));
        assert(decreases_to!(e1 => e1[k]));
        law_zip_same_plain(e1[k].1, e2[k].1);
    }
}

proof fn lemma_zip_items_some<T, U>(l1: Seq<MetaV<T>>, l2: Seq<MetaV<U>>, n: nat)
    requires
        l1.len() == l2.len(),
        forall|i: int| 0 <= i < l1.len() ==> #[trigger] strip(l1[i]) == strip(l2[i]),
        forall|i: int| 0 <= i < l1.len() ==> #[trigger] nan_free(strip(l1[i])),
        n <= l1.len(),
    ensures
        zip_items(l1, l2, n) is Some,
    decreases l1, n,
{
    if n > 0 {
        lemma_zip_items_some(l1, l2, (n - 1) as nat);
        assert(strip(l1[n - 1]) == strip(l2[n - 1]));
        assert(nan_free(strip(l1[n - 1])));
        law_zip_same_plain(l1[n - 1], l2[n - 1]);
    }
}

/// No class anywhere in the value.
pub open spec fn class_free(v: ValueV) -> bool
    decreases v, 1nat,
{
    match v {
        ValueV::Class(_, _) => false,
        ValueV::Mapping(e) => class_free_pairs(e),
        ValueV::List(l) => class_free_items(l),
        _ => true,
    }
}

/// No class in the entries' values.
pub open spec fn class_free_pairs(e: Seq<(Seq<char>, ValueV)>) -> bool
    decreases e, 0nat,
{
    if e.len() == 0 {
        true
    } else {
        class_free_pairs(e.subrange(0, e.len() - 1)) && class_free(e[e.len() - 1].1)
    }
}

/// No class in the items.
pub open spec fn class_free_items(l: Seq<ValueV>) -> bool
    decreases l, 0nat,
{
    if l.len() == 0 {
        true
    } else {
        class_free_items(l.subrange(0, l.len() - 1)) && class_free(l[l.len() - 1])
    }
}

/// Giving a value default metadata and taking the plain value back returns
/// the value itself when it holds no class (a class comes back as a map of
/// its fields): `classes_as_maps`, which `with_default_meta` followed by
/// `value` computes, leaves a class-free value unchanged.
pub proof fn law_default_meta_round_trip(v: ValueV)
    requires
        class_free(v),
    ensures
        classes_as_maps(v) == v,
    decreases v, 1nat,
{
    lemma_classes_as_maps_shapes(v);
    match v {
        ValueV::Mapping(e) => {
            lemma_round_trip_pairs(e);
            assert(classes_as_maps(v)->Mapping_0 =~= e);
        },
        ValueV::List(l) => {
            lemma_round_trip_items(l);
            assert(classes_as_maps(v)->List_0 =~= l);
        },
        _ => {},
    }
}

proof fn lemma_round_trip_pairs(e: Seq<(Seq<char>, ValueV)>)
    requires
        class_free_pairs(e),
    ensures
        forall|i: int| 0 <= i < e.len() ==> #[trigger] classes_as_maps(e[i].1) == e[i].1,
    decreases e, 0nat,
{
    if e.len() > 0 {
        let d = e.subrange(0, e.len() - 1);
        lemma_round_trip_pairs(d);
        law_default_meta_round_trip(e[e.len() - 1].1);
        assert forall|i: int| 0 <= i < e.len() implies #[trigger] classes_as_maps(e[i].1) == e[i].1 by {
            if i < e.len() - 1 {
                assert(d[i] == e[i]);
            }
        }
    }
}

proof fn lemma_round_trip_items(l: Seq<ValueV>)
    requires
        class_free_items(l),
    ensures
        forall|i: int| 0 <= i < l.len() ==> #[trigger] classes_as_maps(l[i]) == l[i],
    decreases l, 0nat,
{
    if l.len() > 0 {
        let d = l.subrange(0, l.len() - 1);
        lemma_round_trip_items(d);
        law_default_meta_round_trip(l[l.len() - 1]);
        assert forall|i: int| 0 <= i < l.len() implies #[trigger] classes_as_maps(l[i]) == l[i] by {
            if i < l.len() - 1 {
                assert(d[i] == l[i]);
            }
        }
    }
}

/// The value stored under `k` in an insertion-ordered association, if any.
pub open spec fn lookup<V>(s: Seq<(String, V)>, k: Seq<char>) -> Option<V> {
    let i = index_of_key(keys_of(s), k);
    if i >= 0 {
        Some(s[i].1)
    } else {
        None
    }
}

/// Reading a map after an insert: the inserted key gives the inserted value,
/// and every other key gives what it gave before.
pub proof fn law_insert_then_lookup<V>(s: Seq<(String, V)>, key: String, value: V, other: Seq<char>)
    requires
        other != key@,
    ensures
        lookup(assoc_insert(s, key, value), key@) == Some(value),
        lookup(assoc_insert(s, key, value), other) == lookup(s, other),
{
    let r = assoc_insert(s, key, value);
    let ks = keys_of(s);
    let kr = keys_of(r);
    lemma_index_of_key(ks, key@);
    lemma_index_of_key(ks, other);
    let i = index_of_key(ks, key@);
    if i >= 0 {
        assert(kr =~= ks);
    } else {
        assert(kr =~= ks.push(key@));
        lemma_index_of_key(kr, key@);
        lemma_index_of_key(kr, other);
        let p = index_of_key(kr, key@);
        assert(kr[ks.len() as int] == key@);
        assert(kr.contains(key@));
        if p < ks.len() {
            assert(ks[p] == key@);
            assert(ks.contains(key@));
        }
        let q = index_of_key(kr, other);
        let q0 = index_of_key(ks, other);
        if q0 >= 0 {
            assert(kr[q0] == other);
            assert(kr.contains(other));
            if q < q0 {
                assert(ks[q] == other);
            }
            if q > q0 {
                assert(kr[q0] != other);
            }
        } else {
            if q >= 0 {
                if q < ks.len() {
                    assert(ks[q] == other);
                    assert(ks.contains(other));
                }
            }
        }
    }
}

/// Sorting a map's entries by key rearranges them into strictly increasing
/// key order: the same entries, each once, smallest key first.
pub proof fn law_sort_by_key<V>(s: Seq<(String, V)>)
    requires
        distinct_keys(keys_of(s)),
    ensures
        sorted_by_key(s).len() == s.len(),
        forall|i: int, j: int|
            0 <= i < j < s.len() ==> key_less(#[trigger] sorted_by_key(s)[i].0@, #[trigger] sorted_by_key(s)[j].0@),
        forall|j: int| 0 <= j < s.len() ==> s.contains(#[trigger] sorted_by_key(s)[j]),
        forall|i: int| 0 <= i < s.len() ==> sorted_by_key(s).contains(#[trigger] s[i]),
{
    let keys = keys_of(s);
    let o = key_order(keys);
    let r = sorted_by_key(s);
    lemma_key_order_range(keys);
    lemma_key_order_sorted(keys);
    let pk = pick(keys, o);
    assert(keys_ascending(pk));
    assert forall|i: int, j: int| 0 <= i < j < s.len() implies key_less(#[trigger] r[i].0@, #[trigger] r[j].0@) by {
        assert(pk[i] == r[i].0@ && pk[j] == r[j].0@);
        assert(!key_less(pk[j], pk[i]));
        assert(o[i] != o[j]);
        assert(keys[o[i]] != keys[o[j]]);
        lemma_key_less_total(pk[i], pk[j]);
    }
    assert forall|j: int| 0 <= j < s.len() implies s.contains(#[trigger] r[j]) by {
        assert(r[j] == s[o[j]]);
    }
    assert forall|i: int| 0 <= i < s.len() implies r.contains(#[trigger] s[i]) by {
        assert(o.contains(i));
        let j = choose|j: int| 0 <= j < o.len() && o[j] == i;
        assert(r[j] == s[i]);
    }
}

/// A walk over a value starts at the value itself and reaches each of its
/// children (each entry of a map or class, each item of a list).
pub proof fn law_walk_reaches_children<T>(v: MetaV<T>)
    ensures
        walk(v).len() >= 1,
        walk(v)[0] == v,
        v matches MetaV::Mapping(e, _) ==> forall|i: int| 0 <= i < e.len() ==> walk(v).contains(#[trigger] e[i].1),
        v matches MetaV::Class(_, e, _) ==> forall|i: int| 0 <= i < e.len() ==> walk(v).contains(#[trigger] e[i].1),
        v matches MetaV::List(l, _) ==> forall|i: int| 0 <= i < l.len() ==> walk(v).contains(#[trigger] l[i]),
{
    match v {
        MetaV::Mapping(e, _) => {
            lemma_walk_entries_reach(e);
            assert forall|i: int| 0 <= i < e.len() implies walk(v).contains(#[trigger] e[i].1) by {
                let w = walk_entries_rev(e);
                let k = choose|k: int| 0 <= k < w.len() && w[k] == e[i].1;
                assert(walk(v)[k + 1] == e[i].1);
            }
        },
        MetaV::Class(_, e, _) => {
            lemma_walk_entries_reach(e);
            assert forall|i: int| 0 <= i < e.len() implies walk(v).contains(#[trigger] e[i].1) by {
                let w = walk_entries_rev(e);
                let k = choose|k: int| 0 <= k < w.len() && w[k] == e[i].1;
                assert(walk(v)[k + 1] == e[i].1);
            }
        },
        MetaV::List(l, _) => {
            lemma_walk_items_reach(l);
            assert forall|i: int| 0 <= i < l.len() implies walk(v).contains(#[trigger] l[i]) by {
                let w = walk_items_rev(l);
                let k = choose|k: int| 0 <= k < w.len() && w[k] == l[i];
                assert(walk(v)[k + 1] == l[i]);
            }
        },
        _ => {},
    }
}

proof fn lemma_walk_entries_reach<T>(e: Seq<(Seq<char>, MetaV<T>)>)
    ensures
        forall|i: int| 0 <= i < e.len() ==> walk_entries_rev(e).contains(#[trigger] e[i].1),
    decreases e.len(),
{
    if e.len() > 0 {
        let d = e.subrange(0, e.len() - 1);
        lemma_walk_entries_reach(d);
        let x = e[e.len() - 1].1;
        let w = walk(x);
        let rest = walk_entries_rev(d);
        assert(walk_entries_rev(e) == w + rest);
        assert forall|i: int| 0 <= i < e.len() implies walk_entries_rev(e).contains(#[trigger] e[i].1) by {
            if i == e.len() - 1 {
                assert(w[0] == x);
                assert((w + rest)[0] == x);
            } else {
                assert(d[i] == e[i]);
                let k = choose|k: int| 0 <= k < rest.len() && rest[k] == e[i].1;
                assert((w + rest)[w.len() + k] == e[i].1);
            }
        }
    }
}

proof fn lemma_walk_items_reach<T>(l: Seq<MetaV<T>>)
    ensures
        forall|i: int| 0 <= i < l.len() ==> walk_items_rev(l).contains(#[trigger] l[i]),
    decreases l.len(),
{
    if l.len() > 0 {
        let d = l.subrange(0, l.len() - 1);
        lemma_walk_items_reach(d);
        let x = l[l.len() - 1];
        let w = walk(x);
        let rest = walk_items_rev(d);
        assert(walk_items_rev(l) == w + rest);
        assert forall|i: int| 0 <= i < l.len() implies walk_items_rev(l).contains(#[trigger] l[i]) by {
            if i == l.len() - 1 {
                assert(w[0] == x);
                assert((w + rest)[0] == x);
            } else {
                assert(d[i] == l[i]);
                let k = choose|k: int| 0 <= k < rest.len() && rest[k] == l[i];
                assert((w + rest)[w.len() + k] == l[i]);
            }
        }
    }
}

/// The number of nodes of a value: itself and every node inside it.
pub open spec fn node_count<T>(v: MetaV<T>) -> nat
    decreases v, 1nat,
{
    1 + match v {
        MetaV::Mapping(e, _) => node_count_pairs(e),
        MetaV::Class(_, e, _) => node_count_pairs(e),
        MetaV::List(l, _) => node_count_items(l),
        _ => 0,
    }
}

/// The number of nodes of the entries' values.
pub open spec fn node_count_pairs<T>(e: Seq<(Seq<char>, MetaV<T>)>) -> nat
    decreases e, 0nat,
{
    if e.len() == 0 {
        0
    } else {
        node_count_pairs(e.subrange(0, e.len() - 1)) + node_count(e[e.len() - 1].1)
    }
}

/// The number of nodes of the items.
pub open spec fn node_count_items<T>(l: Seq<MetaV<T>>) -> nat
    decreases l, 0nat,
{
    if l.len() == 0 {
        0
    } else {
        node_count_items(l.subrange(0, l.len() - 1)) + node_count(l[l.len() - 1])
    }
}

/// A walk yields as many values as the value has nodes: each node once.
pub proof fn law_walk_length<T>(v: MetaV<T>)
    ensures
        walk(v).len() == node_count(v),
    decreases v, 1nat,
{
    match v {
        MetaV::Mapping(e, _) => lemma_walk_entries_length(e),
        MetaV::Class(_, e, _) => lemma_walk_entries_length(e),
        MetaV::List(l, _) => lemma_walk_items_length(l),
        _ => {},
    }
}

proof fn lemma_walk_entries_length<T>(e: Seq<(Seq<char>, MetaV<T>)>)
    ensures
        walk_entries_rev(e).len() == node_count_pairs(e),
    decreases e, 0nat,
{
    if e.len() > 0 {
        lemma_walk_entries_length(e.subrange(0, e.len() - 1));
        law_walk_length(e[e.len() - 1].1);
    }
}

proof fn lemma_walk_items_length<T>(l: Seq<MetaV<T>>)
    ensures
        walk_items_rev(l).len() == node_count_items(l),
    decreases l, 0nat,
{
    if l.len() > 0 {
        lemma_walk_items_length(l.subrange(0, l.len() - 1));
        law_walk_length(l[l.len() - 1]);
    }
}

/// `map_meta_spec` with a function that returns its argument changes nothing.
pub proof fn lemma_map_meta_spec_identity<T>(a: MetaV<T>, g: spec_fn(T) -> T)
    requires
        forall|t: T| #[trigger] g(t) == t,
    ensures
        map_meta_spec(a, g) == a,
    decreases a,
{
    let r = map_meta_spec(a, g);
    match a {
        MetaV::Mapping(e, m) => {
            let re = r->Mapping_0;
            assert(re.len() == e.len());
            assert forall|i: int| 0 <= i < e.len() implies #[trigger] re[i] == e[i] by {
                lemma_map_meta_spec_identity(e[i].1, g);
                assert(re[i] == (e[i].0, map_meta_spec(e[i].1, g)));
            }
            assert(re =~= e);
        },
        MetaV::Class(n, e, m) => {
            let re = r->Class_1;
            assert(re.len() == e.len());
            assert forall|i: int| 0 <= i < e.len() implies #[trigger] re[i] == e[i] by {
                lemma_map_meta_spec_identity(e[i].1, g);
                assert(re[i] == (e[i].0, map_meta_spec(e[i].1, g)));
            }
            assert(re =~= e);
        },
        MetaV::List(l, m) => {
            let rl = r->List_0;
            assert(rl.len() == l.len());
            assert forall|i: int| 0 <= i < l.len() implies #[trigger] rl[i] == l[i] by {
                lemma_map_meta_spec_identity(l[i], g);
                assert(rl[i] == map_meta_spec(l[i], g));
            }
            assert(rl =~= l);
        },
        _ => {},
    }
}

/// `map_meta_spec` with `g1` then `g2` is `map_meta_spec` with their
/// composition `g3`.
pub proof fn lemma_map_meta_spec_compose<T, U, W>(
    a: MetaV<T>,
    g1: spec_fn(T) -> U,
    g2: spec_fn(U) -> W,
    g3: spec_fn(T) -> W,
)
    requires
        forall|t: T| #[trigger] g3(t) == g2(g1(t)),
    ensures
        map_meta_spec(map_meta_spec(a, g1), g2) == map_meta_spec(a, g3),
    decreases a,
{
    let b = map_meta_spec(a, g1);
    let c = map_meta_spec(b, g2);
    let d = map_meta_spec(a, g3);
    match a {
        MetaV::Mapping(e, m) => {
            let eb = b->Mapping_0;
            let ec = c->Mapping_0;
            let ed = d->Mapping_0;
            assert(ec.len() == ed.len());
            assert forall|i: int| 0 <= i < e.len() implies #[trigger] ec[i] == ed[i] by {
                lemma_map_meta_spec_compose(e[i].1, g1, g2, g3);
                assert(eb[i] == (e[i].0, map_meta_spec(e[i].1, g1)));
                assert(ec[i] == (eb[i].0, map_meta_spec(eb[i].1, g2)));
                assert(ed[i] == (e[i].0, map_meta_spec(e[i].1, g3)));
            }
            assert(ec =~= ed);
        },
        MetaV::Class(n, e, m) => {
            let eb = b->Class_1;
            let ec = c->Class_1;
            let ed = d->Class_1;
            assert(ec.len() == ed.len());
            assert forall|i: int| 0 <= i < e.len() implies #[trigger] ec[i] == ed[i] by {
                lemma_map_meta_spec_compose(e[i].1, g1, g2, g3);
                assert(eb[i] == (e[i].0, map_meta_spec(e[i].1, g1)));
                assert(ec[i] == (eb[i].0, map_meta_spec(eb[i].1, g2)));
                assert(ed[i] == (e[i].0, map_meta_spec(e[i].1, g3)));
            }
            assert(ec =~= ed);
        },
        MetaV::List(l, m) => {
            let lb = b->List_0;
            let lc = c->List_0;
            let ld = d->List_0;
            assert(lc.len() == ld.len());
            assert forall|i: int| 0 <= i < l.len() implies #[trigger] lc[i] == ld[i] by {
                lemma_map_meta_spec_compose(l[i], g1, g2, g3);
                assert(lb[i] == map_meta_spec(l[i], g1));
                assert(lc[i] == map_meta_spec(lb[i], g2));
                assert(ld[i] == map_meta_spec(l[i], g3));
            }
            assert(lc =~= ld);
        },
        _ => {},
    }
}

/// Mapping the metadata with a function that returns (a value equal to) its
/// argument gives the value back unchanged.
pub proof fn law_map_meta_identity<T, F: Fn(&T) -> T>(a: MetaV<T>, b: MetaV<T>, f: F)
    requires
        map_meta_rel(a, b, f),
        forall|t: &T, u: T| #[trigger] f.ensures((t,), u) ==> u == *t,
    ensures
        b == a,
{
    let g = |t: T| t;
    lemma_map_meta_functional(a, b, f, g);
    lemma_map_meta_spec_identity(a, g);
}

/// Mapping the metadata with `f` and then with `h` gives what mapping it once
/// with their composition `k` gives, for functions whose results are
/// determined by their arguments (by `g1`, `g2` and `g3`).
pub proof fn law_map_meta_compose<T, U, W, F: Fn(&T) -> U, H: Fn(&U) -> W, K: Fn(&T) -> W>(
    a: MetaV<T>,
    b: MetaV<U>,
    c: MetaV<W>,
    d: MetaV<W>,
    f: F,
    h: H,
    k: K,
    g1: spec_fn(T) -> U,
    g2: spec_fn(U) -> W,
    g3: spec_fn(T) -> W,
)
    requires
        map_meta_rel(a, b, f),
        map_meta_rel(b, c, h),
        map_meta_rel(a, d, k),
        forall|t: &T, u: U| #[trigger] f.ensures((t,), u) ==> u == g1(*t),
        forall|t: &U, u: W| #[trigger] h.ensures((t,), u) ==> u == g2(*t),
        forall|t: &T, u: W| #[trigger] k.ensures((t,), u) ==> u == g3(*t),
        forall|t: T| #[trigger] g3(t) == g2(g1(t)),
    ensures
        c == d,
{
    lemma_map_meta_functional(a, b, f, g1);
    lemma_map_meta_functional(b, c, h, g2);
    lemma_map_meta_functional(a, d, k, g3);
    lemma_map_meta_spec_compose(a, g1, g2, g3);
}

/// Pairing is symmetric in whether it succeeds: `a` pairs with `b` exactly
/// when `b` pairs with `a`.
pub proof fn law_zip_symmetric<T, U>(a: MetaV<T>, b: MetaV<U>)
    ensures
        zip_spec(a, b) is Some <==> zip_spec(b, a) is Some,
    decreases a, 1nat,
{
    match (a, b) {
        (MetaV::Mapping(e1, _), MetaV::Mapping(e2, _)) => {
            let n = if e1.len() <= e2.len() { e1.len() } else { e2.len() };
            lemma_zip_pairs_symmetric(e1, key_order(key_views(e1)), e2, key_order(key_views(e2)), n);
        },
        (MetaV::Class(_, e1, _), MetaV::Class(_, e2, _)) => {
            let n = if e1.len() <= e2.len() { e1.len() } else { e2.len() };
            lemma_zip_pairs_symmetric(e1, key_order(key_views(e1)), e2, key_order(key_views(e2)), n);
        },
        (MetaV::List(l1, _), MetaV::List(l2, _)) => {
            let n = if l1.len() <= l2.len() { l1.len() } else { l2.len() };
            lemma_zip_items_symmetric(l1, l2, n);
        },
        _ => {},
    }
}

proof fn lemma_zip_pairs_symmetric<T, U>(
    e1: Seq<(Seq<char>, MetaV<T>)>,
    o1: Seq<int>,
    e2: Seq<(Seq<char>, MetaV<U>)>,
    o2: Seq<int>,
    n: nat,
)
    ensures
        zip_pairs(e1, o1, e2, o2, n) is Some <==> zip_pairs(e2, o2, e1, o1, n) is Some,
    decreases e1, n,
{
    if n > 0 {
        lemma_zip_pairs_symmetric(e1, o1, e2, o2, (n - 1) as nat);
        let k1 = o1[n - 1];
        let k2 = o2[n - 1];
        if 0 <= k1 < e1.len() && 0 <= k2 < e2.len() {
            assert(decreases_to!(e1 => e1[k1]));
            law_zip_symmetric(e1[k1].1, e2[k2].1);
        }
    }
}

proof fn lemma_zip_items_symmetric<T, U>(l1: Seq<MetaV<T>>, l2: Seq<MetaV<U>>, n: nat)
    ensures
        zip_items(l1, l2, n) is Some <==> zip_items(l2, l1, n) is Some,
    decreases l1, n,
{
    if n > 0 {
        lemma_zip_items_symmetric(l1, l2, (n - 1) as nat);
        if n - 1 < l1.len() && n - 1 < l2.len() {
            law_zip_symmetric(l1[n - 1], l2[n - 1]);
        }
    }
}

/// The value with the entries of every map and class in key order (the
/// order `zip_meta` pairs them in), at every depth.
pub open spec fn sort_keys<T>(v: MetaV<T>) -> MetaV<T>
    decreases v,
{
    match v {
        MetaV::Mapping(e, m) => MetaV::Mapping(
            Seq::new(
                e.len(),
                |j: int| {
                    let k = key_order(key_views(e))[j];
                    if 0 <= k < e.len() {
                        (e[k].0, sort_keys(e[k].1))
                    } else {
                        (Seq::empty(), MetaV::Null(m))
                    }
                },
            ),
            m,
        ),
        MetaV::Class(n, e, m) => MetaV::Class(
            n,
            Seq::new(
                e.len(),
                |j: int| {
                    let k = key_order(key_views(e))[j];
                    if 0 <= k < e.len() {
                        (e[k].0, sort_keys(e[k].1))
                    } else {
                        (Seq::empty(), MetaV::Null(m))
                    }
                },
            ),
            m,
        ),
        MetaV::List(l, m) => MetaV::List(
            Seq::new(l.len(), |i: int| if 0 <= i < l.len() { sort_keys(l[i]) } else { MetaV::Null(m) }),
            m,
        ),
        _ => v,
    }
}

/// Pairing two values whose plain contents are the same once the entries of
/// every map and class are put in key order (maps equal in any entry order;
/// no NaN) pairs them at every depth: the result's first metadata components
/// give the first value and its second components the second, each with its
/// maps and classes in key order.
pub proof fn law_zip_same_plain_everywhere<T, U>(
    a: MetaV<T>,
    b: MetaV<U>,
    fst: spec_fn((T, U)) -> T,
    snd: spec_fn((T, U)) -> U,
)
    requires
        strip(sort_keys(a)) == strip(sort_keys(b)),
        nan_free(strip(sort_keys(a))),
        forall|p: (T, U)| #[trigger] fst(p) == p.0,
        forall|p: (T, U)| #[trigger] snd(p) == p.1,
    ensures
        zip_spec(a, b) is Some,
        map_meta_spec(zip_spec(a, b).unwrap(), fst) == sort_keys(a),
        map_meta_spec(zip_spec(a, b).unwrap(), snd) == sort_keys(b),
    decreases a, 1nat,
{
    let sa = sort_keys(a);
    let sb = sort_keys(b);
    lemma_strip_shapes(sa);
    lemma_strip_shapes(sb);
    match (a, b) {
        (MetaV::Mapping(e1, m1), MetaV::Mapping(e2, m2)) => {
            let o1 = key_order(key_views(e1));
            let o2 = key_order(key_views(e2));
            lemma_key_order_range(key_views(e1));
            lemma_key_order_range(key_views(e2));
            let p1 = strip(sa)->Mapping_0;
            let p2 = strip(sb)->Mapping_0;
            lemma_nan_free_pairs(p1);
            assert(e1.len() == e2.len()) by {
                assert(p1.len() == p2.len());
            }
            assert forall|j: int| 0 <= j < e1.len() implies
                e1[o1[j]].0 == e2[o2[j]].0
                && #[trigger] strip(sort_keys(e1[o1[j]].1)) == strip(sort_keys(e2[o2[j]].1))
                && nan_free(strip(sort_keys(e1[o1[j]].1))) by {
                assert(0 <= o1[j] < e1.len() && 0 <= o2[j] < e2.len());
                assert(p1[j] == p2[j]);
                assert(nan_free(p1[j].1));
            }
            lemma_zip_pairs_projections(e1, e2, o1, o2, e1.len(), fst, snd);
            let r = zip_pairs(e1, o1, e2, o2, e1.len()).unwrap();
            let z = MetaV::Mapping(r, (m1, m2));
            assert(zip_spec(a, b) == Some(z));
            assert(map_meta_spec(z, fst)->Mapping_0 =~= sa->Mapping_0);
            assert forall|j: int| 0 <= j < e1.len() implies #[trigger] map_meta_spec(z, snd)->Mapping_0[j] == sb->Mapping_0[j] by {
                assert(strip(sort_keys(e1[o1[j]].1)) == strip(sort_keys(e2[o2[j]].1)));
            }
            assert(map_meta_spec(z, snd)->Mapping_0 =~= sb->Mapping_0);
        },
        (MetaV::Class(c1, e1, m1), MetaV::Class(c2, e2, m2)) => {
            let o1 = key_order(key_views(e1));
            let o2 = key_order(key_views(e2));
            lemma_key_order_range(key_views(e1));
            lemma_key_order_range(key_views(e2));
            let p1 = strip(sa)->Class_1;
            let p2 = strip(sb)->Class_1;
            lemma_nan_free_pairs(p1);
            assert(e1.len() == e2.len()) by {
                assert(p1.len() == p2.len());
            }
            assert forall|j: int| 0 <= j < e1.len() implies
                e1[o1[j]].0 == e2[o2[j]].0
                && #[trigger] strip(sort_keys(e1[o1[j]].1)) == strip(sort_keys(e2[o2[j]].1))
                && nan_free(strip(sort_keys(e1[o1[j]].1))) by {
                assert(0 <= o1[j] < e1.len() && 0 <= o2[j] < e2.len());
                assert(p1[j] == p2[j]);
                assert(nan_free(p1[j].1));
            }
            lemma_zip_pairs_projections(e1, e2, o1, o2, e1.len(), fst, snd);
            let r = zip_pairs(e1, o1, e2, o2, e1.len()).unwrap();
            let z = MetaV::Class(c1, r, (m1, m2));
            assert(zip_spec(a, b) == Some(z));
            assert(map_meta_spec(z, fst)->Class_1 =~= sa->Class_1);
            assert forall|j: int| 0 <= j < e1.len() implies #[trigger] map_meta_spec(z, snd)->Class_1[j] == sb->Class_1[j] by {
                assert(strip(sort_keys(e1[o1[j]].1)) == strip(sort_keys(e2[o2[j]].1)));
            }
            assert(map_meta_spec(z, snd)->Class_1 =~= sb->Class_1);
        },
        (MetaV::List(l1, m1), MetaV::List(l2, m2)) => {
            let s1 = strip(sa)->List_0;
            let s2 = strip(sb)->List_0;
            assert(l1.len() == l2.len()) by {
                assert(s1.len() == s2.len());
            }
            lemma_nan_free_items(s1);
            assert forall|i: int| 0 <= i < l1.len() implies #[trigger] strip(sort_keys(l1[i])) == strip(sort_keys(l2[i]))
                && nan_free(strip(sort_keys(l1[i]))) by {
                assert(s1[i] == s2[i]);
                assert(nan_free(s1[i]));
            }
            lemma_zip_items_projections(l1, l2, l1.len(), fst, snd);
            let r = zip_items(l1, l2, l1.len()).unwrap();
            let z = MetaV::List(r, (m1, m2));
            assert(zip_spec(a, b) == Some(z));
            assert(map_meta_spec(z, fst)->List_0 =~= sa->List_0);
            assert(map_meta_spec(z, snd)->List_0 =~= sb->List_0);
        },
        (MetaV::Float(x, _), MetaV::Float(y, _)) => {
            assert(float_eq(x, y));
        },
        _ => {},
    }
}

proof fn lemma_zip_pairs_projections<T, U>(
    e1: Seq<(Seq<char>, MetaV<T>)>,
    e2: Seq<(Seq<char>, MetaV<U>)>,
    o1: Seq<int>,
    o2: Seq<int>,
    n: nat,
    fst: spec_fn((T, U)) -> T,
    snd: spec_fn((T, U)) -> U,
)
    requires
        e1.len() == e2.len(),
        o1.len() == e1.len(),
        o2.len() == e2.len(),
        n <= o1.len(),
        forall|j: int| 0 <= j < o1.len() ==> 0 <= #[trigger] o1[j] < e1.len(),
        forall|j: int| 0 <= j < o2.len() ==> 0 <= #[trigger] o2[j] < e2.len(),
        forall|j: int| 0 <= j < e1.len() ==>
            e1[o1[j]].0 == e2[o2[j]].0
            && #[trigger] strip(sort_keys(e1[o1[j]].1)) == strip(sort_keys(e2[o2[j]].1))
            && nan_free(strip(sort_keys(e1[o1[j]].1))),
        forall|p: (T, U)| #[trigger] fst(p) == p.0,
        forall|p: (T, U)| #[trigger] snd(p) == p.1,
    ensures
        zip_pairs(e1, o1, e2, o2, n) is Some,
        zip_pairs(e1, o1, e2, o2, n).unwrap().len() == n,
        forall|j: int| 0 <= j < n ==> {
            let r = #[trigger] zip_pairs(e1, o1, e2, o2, n).unwrap()[j];
            &&& r.0 == e1[o1[j]].0
            &&& map_meta_spec(r.1, fst) == sort_keys(e1[o1[j]].1)
            &&& map_meta_spec(r.1, snd) == sort_keys(e2[o2[j]].1)
        },
    decreases e1, n,
{
    if n > 0 {
        lemma_zip_pairs_projections(e1, e2, o1, o2, (n - 1) as nat, fst, snd);
        let k1 = o1[n - 1];
        let k2 = o2[n - 1];
        assert(0 <= k1 < e1.len());
        assert(0 <= k2 < e2.len());
        assert(strip(sort_keys(e1[k1].1)) == strip(sort_keys(e2[k2].1)));
        assert(decreases_to!(e1 => e1[k1]));
        law_zip_same_plain_everywhere(e1[k1].1, e2[k2].1, fst, snd);
        let prev = zip_pairs(e1, o1, e2, o2, (n - 1) as nat).unwrap();
        let r = zip_pairs(e1, o1, e2, o2, n).unwrap();
        assert(r == prev.push((e1[k1].0, zip_spec(e1[k1].1, e2[k2].1).unwrap())));
        assert forall|j: int| 0 <= j < n implies {
            let x = #[trigger] zip_pairs(e1, o1, e2, o2, n).unwrap()[j];
            &&& x.0 == e1[o1[j]].0
            &&& map_meta_spec(x.1, fst) == sort_keys(e1[o1[j]].1)
            &&& map_meta_spec(x.1, snd) == sort_keys(e2[o2[j]].1)
        } by {
            if j < n - 1 {
                assert(r[j] == prev[j]);
                assert(prev[j] == zip_pairs(e1, o1, e2, o2, (n - 1) as nat).unwrap()[j]);
            }
        }
    }
}

proof fn lemma_zip_items_projections<T, U>(
    l1: Seq<MetaV<T>>,
    l2: Seq<MetaV<U>>,
    n: nat,
    fst: spec_fn((T, U)) -> T,
    snd: spec_fn((T, U)) -> U,
)
    requires
        l1.len() == l2.len(),
        forall|i: int| 0 <= i < l1.len() ==> #[trigger] strip(sort_keys(l1[i])) == strip(sort_keys(l2[i]))
            && nan_free(strip(sort_keys(l1[i]))),
        n <= l1.len(),
        forall|p: (T, U)| #[trigger] fst(p) == p.0,
        forall|p: (T, U)| #[trigger] snd(p) == p.1,
    ensures
        zip_items(l1, l2, n) is Some,
        zip_items(l1, l2, n).unwrap().len() == n,
        forall|j: int| 0 <= j < n ==> {
            let r = #[trigger] zip_items(l1, l2, n).unwrap()[j];
            &&& map_meta_spec(r, fst) == sort_keys(l1[j])
            &&& map_meta_spec(r, snd) == sort_keys(l2[j])
        },
    decreases l1, n,
{
    if n > 0 {
        lemma_zip_items_projections(l1, l2, (n - 1) as nat, fst, snd);
        assert(strip(sort_keys(l1[n - 1])) == strip(sort_keys(l2[n - 1])));
        law_zip_same_plain_everywhere(l1[n - 1], l2[n - 1], fst, snd);
        let prev = zip_items(l1, l2, (n - 1) as nat).unwrap();
        let r = zip_items(l1, l2, n).unwrap();
        assert(r == prev.push(zip_spec(l1[n - 1], l2[n - 1]).unwrap()));
        assert forall|j: int| 0 <= j < n implies {
            let x = #[trigger] zip_items(l1, l2, n).unwrap()[j];
            &&& map_meta_spec(x, fst) == sort_keys(l1[j])
            &&& map_meta_spec(x, snd) == sort_keys(l2[j])
        } by {
            if j < n - 1 {
                assert(r[j] == prev[j]);
                assert(prev[j] == zip_items(l1, l2, (n - 1) as nat).unwrap()[j]);
            }
        }
    }
}

/// Two values whose first metadata components agree everywhere and whose
/// second components agree everywhere are equal.
proof fn lemma_pair_meta_ext<X, Y>(z: MetaV<(X, Y)>, w: MetaV<(X, Y)>, fst: spec_fn((X, Y)) -> X, snd: spec_fn((X, Y)) -> Y)
    requires
        map_meta_spec(z, fst) == map_meta_spec(w, fst),
        map_meta_spec(z, snd) == map_meta_spec(w, snd),
        forall|p: (X, Y)| #[trigger] fst(p) == p.0,
        forall|p: (X, Y)| #[trigger] snd(p) == p.1,
    ensures
        z == w,
    decreases z,
{
    let zf = map_meta_spec(z, fst);
    let zs = map_meta_spec(z, snd);
    let wf = map_meta_spec(w, fst);
    let ws = map_meta_spec(w, snd);
    match (z, w) {
        (MetaV::Mapping(ez, _), MetaV::Mapping(ew, _)) => {
            assert(ez.len() == ew.len()) by {
                assert(zf->Mapping_0.len() == wf->Mapping_0.len());
            }
            assert forall|i: int| 0 <= i < ez.len() implies #[trigger] ez[i] == ew[i] by {
                assert(zf->Mapping_0[i] == wf->Mapping_0[i]);
                assert(zs->Mapping_0[i] == ws->Mapping_0[i]);
                lemma_pair_meta_ext(ez[i].1, ew[i].1, fst, snd);
            }
            assert(ez =~= ew);
        },
        (MetaV::Class(_, ez, _), MetaV::Class(_, ew, _)) => {
            assert(ez.len() == ew.len()) by {
                assert(zf->Class_1.len() == wf->Class_1.len());
            }
            assert forall|i: int| 0 <= i < ez.len() implies #[trigger] ez[i] == ew[i] by {
                assert(zf->Class_1[i] == wf->Class_1[i]);
                assert(zs->Class_1[i] == ws->Class_1[i]);
                lemma_pair_meta_ext(ez[i].1, ew[i].1, fst, snd);
            }
            assert(ez =~= ew);
        },
        (MetaV::List(lz, _), MetaV::List(lw, _)) => {
            assert(lz.len() == lw.len()) by {
                assert(zf->List_0.len() == wf->List_0.len());
            }
            assert forall|i: int| 0 <= i < lz.len() implies #[trigger] lz[i] == lw[i] by {
                assert(zf->List_0[i] == wf->List_0[i]);
                assert(zs->List_0[i] == ws->List_0[i]);
                lemma_pair_meta_ext(lz[i], lw[i], fst, snd);
            }
            assert(lz =~= lw);
        },
        _ => {},
    }
}

/// For two values with the same plain contents up to the order of map and
/// class entries (no NaN), pairing them the other way round gives the same
/// pairs with their components swapped.
pub proof fn law_zip_swap<T, U>(a: MetaV<T>, b: MetaV<U>, swap: spec_fn((T, U)) -> (U, T))
    requires
        strip(sort_keys(a)) == strip(sort_keys(b)),
        nan_free(strip(sort_keys(a))),
        forall|p: (T, U)| #[trigger] swap(p) == (p.1, p.0),
    ensures
        zip_spec(a, b) is Some,
        zip_spec(b, a) == Some(map_meta_spec(zip_spec(a, b).unwrap(), swap)),
{
    let f1 = |p: (T, U)| p.0;
    let s1 = |p: (T, U)| p.1;
    let f2 = |p: (U, T)| p.0;
    let s2 = |p: (U, T)| p.1;
    law_zip_same_plain_everywhere(a, b, f1, s1);
    law_zip_same_plain_everywhere(b, a, f2, s2);
    let z = zip_spec(a, b).unwrap();
    let w = zip_spec(b, a).unwrap();
    let sz = map_meta_spec(z, swap);
    lemma_map_meta_spec_compose(z, swap, f2, s1);
    lemma_map_meta_spec_compose(z, swap, s2, f1);
    lemma_pair_meta_ext(sz, w, f2, s2);
}

/// Where the walk of child `i` starts in the walk of `v`: after `v` itself
/// and the walks of the children after `i`, which a stack-based walk visits
/// first.
pub open spec fn child_offset<T>(v: MetaV<T>, i: int) -> int {
    1 + match v {
        MetaV::Mapping(e, _) => walk_entries_rev(e.subrange(i + 1, e.len() as int)).len() as int,
        MetaV::Class(_, e, _) => walk_entries_rev(e.subrange(i + 1, e.len() as int)).len() as int,
        MetaV::List(l, _) => walk_items_rev(l.subrange(i + 1, l.len() as int)).len() as int,
        _ => 0,
    }
}

/// The children of a value: the values of its entries, or its items.
pub open spec fn children<T>(v: MetaV<T>) -> Seq<MetaV<T>> {
    match v {
        MetaV::Mapping(e, _) => Seq::new(e.len(), |i: int| e[i].1),
        MetaV::Class(_, e, _) => Seq::new(e.len(), |i: int| e[i].1),
        MetaV::List(l, _) => l,
        _ => Seq::empty(),
    }
}

proof fn lemma_entry_walk_block<T>(e: Seq<(Seq<char>, MetaV<T>)>, i: int)
    requires
        0 <= i < e.len(),
    ensures
        ({
            let off = walk_entries_rev(e.subrange(i + 1, e.len() as int)).len() as int;
            &&& off + walk(e[i].1).len() <= walk_entries_rev(e).len()
            &&& walk_entries_rev(e).subrange(off, off + walk(e[i].1).len()) == walk(e[i].1)
        }),
    decreases e.len(),
{
    let d = e.subrange(0, e.len() - 1);
    let w = walk(e[e.len() - 1].1);
    let rest = walk_entries_rev(d);
    assert(walk_entries_rev(e) == w + rest);
    if i == e.len() - 1 {
        assert(e.subrange(i + 1, e.len() as int) =~= Seq::<(Seq<char>, MetaV<T>)>::empty());
        assert((w + rest).subrange(0, w.len() as int) =~= w);
    } else {
        assert(d[i] == e[i]);
        lemma_entry_walk_block(d, i);
        let t = e.subrange(i + 1, e.len() as int);
        assert(t.subrange(0, t.len() - 1) =~= d.subrange(i + 1, d.len() as int));
        assert(t[t.len() - 1] == e[e.len() - 1]);
        let o = walk_entries_rev(d.subrange(i + 1, d.len() as int)).len() as int;
        assert(walk_entries_rev(t).len() == w.len() + o);
        assert((w + rest).subrange(w.len() as int + o, w.len() as int + o + walk(e[i].1).len()) =~= rest.subrange(o, o + walk(e[i].1).len()));
    }
}

proof fn lemma_item_walk_block<T>(l: Seq<MetaV<T>>, i: int)
    requires
        0 <= i < l.len(),
    ensures
        ({
            let off = walk_items_rev(l.subrange(i + 1, l.len() as int)).len() as int;
            &&& off + walk(l[i]).len() <= walk_items_rev(l).len()
            &&& walk_items_rev(l).subrange(off, off + walk(l[i]).len()) == walk(l[i])
        }),
    decreases l.len(),
{
    let d = l.subrange(0, l.len() - 1);
    let w = walk(l[l.len() - 1]);
    let rest = walk_items_rev(d);
    assert(walk_items_rev(l) == w + rest);
    if i == l.len() - 1 {
        assert(l.subrange(i + 1, l.len() as int) =~= Seq::<MetaV<T>>::empty());
        assert((w + rest).subrange(0, w.len() as int) =~= w);
    } else {
        assert(d[i] == l[i]);
        lemma_item_walk_block(d, i);
        let t = l.subrange(i + 1, l.len() as int);
        assert(t.subrange(0, t.len() - 1) =~= d.subrange(i + 1, d.len() as int));
        assert(t[t.len() - 1] == l[l.len() - 1]);
        let o = walk_items_rev(d.subrange(i + 1, d.len() as int)).len() as int;
        assert(walk_items_rev(t).len() == w.len() + o);
        assert((w + rest).subrange(w.len() as int + o, w.len() as int + o + walk(l[i]).len()) =~= rest.subrange(o, o + walk(l[i]).len()));
    }
}

/// In a walk, each child's own walk (the child and all its descendants)
/// follows the parent as one contiguous run, at `child_offset`.
pub proof fn law_walk_children_contiguous<T>(v: MetaV<T>, i: int)
    requires
        0 <= i < children(v).len(),
    ensures
        child_offset(v, i) + walk(children(v)[i]).len() <= walk(v).len(),
        walk(v).subrange(child_offset(v, i), child_offset(v, i) + walk(children(v)[i]).len()) == walk(children(v)[i]),
{
    let c = children(v);
    let r = match v {
        MetaV::Mapping(e, _) => walk_entries_rev(e),
        MetaV::Class(_, e, _) => walk_entries_rev(e),
        MetaV::List(l, _) => walk_items_rev(l),
        _ => Seq::empty(),
    };
    match v {
        MetaV::Mapping(e, _) => lemma_entry_walk_block(e, i),
        MetaV::Class(_, e, _) => lemma_entry_walk_block(e, i),
        MetaV::List(l, _) => lemma_item_walk_block(l, i),
        _ => {},
    }
    let o = child_offset(v, i) - 1;
    let w = walk(c[i]);
    assert(walk(v) == seq![v] + r);
    assert(walk(v).subrange(o + 1, o + 1 + w.len()) =~= r.subrange(o, o + w.len()));
}

/// After `sort_keys`, the keys of a map or class come in ascending order (so
/// do those of a paired value, whose projections are sorted values).
pub proof fn law_sort_keys_ascending<T>(v: MetaV<T>)
    ensures
        v matches MetaV::Mapping(_, _) ==> keys_ascending(key_views(sort_keys(v)->Mapping_0)),
        v matches MetaV::Class(_, _, _) ==> keys_ascending(key_views(sort_keys(v)->Class_1)),
{
    match v {
        MetaV::Mapping(e, _) => {
            lemma_key_order_range(key_views(e));
            lemma_key_order_sorted(key_views(e));
            assert(key_views(sort_keys(v)->Mapping_0) =~= pick(key_views(e), key_order(key_views(e))));
        },
        MetaV::Class(_, e, _) => {
            lemma_key_order_range(key_views(e));
            lemma_key_order_sorted(key_views(e));
            assert(key_views(sort_keys(v)->Class_1) =~= pick(key_views(e), key_order(key_views(e))));
        },
        _ => {},
    }
}

/// A union's default is the default of its first member, in order, that has
/// one; a union none of whose members has a default has none.
pub proof fn law_union_default(items: Seq<FieldType>)
    ensures
        forall|i: int| #![trigger default_shape(items[i])]
            0 <= i < items.len() && default_shape(items[i]) is Some
                && (forall|j: int| 0 <= j < i ==> #[trigger] default_shape(items[j]) is None)
                ==> first_default(items) == default_shape(items[i]),
        (forall|j: int| 0 <= j < items.len() ==> #[trigger] default_shape(items[j]) is None) ==> first_default(items) is None,
    decreases items.len(),
{
    if items.len() > 0 {
        let rest = items.subrange(1, items.len() as int);
        law_union_default(rest);
        assert forall|j: int| 0 <= j < rest.len() implies rest[j] == items[j + 1] by {}
        assert forall|i: int| #![trigger default_shape(items[i])]
            0 <= i < items.len() && default_shape(items[i]) is Some
                && (forall|j: int| 0 <= j < i ==> #[trigger] default_shape(items[j]) is None)
                implies first_default(items) == default_shape(items[i]) by {
            if i > 0 {
                assert(default_shape(items[0]) is None);
                assert(rest[i - 1] == items[i]);
                assert forall|j: int| 0 <= j < i - 1 implies #[trigger] default_shape(rest[j]) is None by {
                    assert(rest[j] == items[j + 1]);
                    assert(default_shape(items[j + 1]) is None);
                }
                assert(default_shape(rest[i - 1]) is Some);
            }
        }
        if forall|j: int| 0 <= j < items.len() ==> #[trigger] default_shape(items[j]) is None {
            assert(default_shape(items[0]) is None);
            assert forall|j: int| 0 <= j < rest.len() implies #[trigger] default_shape(rest[j]) is None by {
                assert(rest[j] == items[j + 1]);
                assert(default_shape(items[j + 1]) is None);
            }
        }
    }
}

/// A tuple's members all have defaults exactly when their list of defaults
/// exists, and then it holds each member's default in order.
pub proof fn law_tuple_default(ts: Seq<FieldType>)
    ensures
        (forall|i: int| 0 <= i < ts.len() ==> #[trigger] default_shape(ts[i]) is Some) <==> all_defaults(ts) is Some,
        all_defaults(ts) matches Some(ds) ==> ds.len() == ts.len()
            && forall|i: int| 0 <= i < ts.len() ==> ds[i] == (#[trigger] default_shape(ts[i])).unwrap(),
    decreases ts.len(),
{
    if ts.len() > 0 {
        let d = ts.subrange(0, ts.len() - 1);
        law_tuple_default(d);
        assert forall|i: int| 0 <= i < d.len() implies d[i] == ts[i] by {}
        if forall|i: int| 0 <= i < ts.len() ==> #[trigger] default_shape(ts[i]) is Some {
            assert forall|i: int| 0 <= i < d.len() implies #[trigger] default_shape(d[i]) is Some by {
                assert(default_shape(ts[i]) is Some);
            }
            assert(default_shape(ts[ts.len() - 1]) is Some);
        }
        if all_defaults(ts) is Some {
            assert forall|i: int| 0 <= i < ts.len() implies #[trigger] default_shape(ts[i]) is Some by {
                if i < ts.len() - 1 {
                    assert(d[i] == ts[i]);
                    assert(default_shape(d[i]) is Some);
                }
            }
            let ds = all_defaults(ts).unwrap();
            assert forall|i: int| 0 <= i < ts.len() implies ds[i] == (#[trigger] default_shape(ts[i])).unwrap() by {
                if i < ts.len() - 1 {
                    assert(d[i] == ts[i]);
                    assert(default_shape(d[i]) is Some);
                }
            }
        }
    }
}

/// The walk is a depth-first pre-order: it starts at the value, holds as
/// many values as the value has nodes, and each child's subtree follows as
/// one contiguous run (so every node comes before all its descendants, which
/// follow it together).
pub proof fn law_walk_preorder<T>(v: MetaV<T>)
    ensures
        walk(v).len() == node_count(v),
        walk(v)[0] == v,
        forall|i: int| #![trigger children(v)[i]] 0 <= i < children(v).len() ==> {
            &&& child_offset(v, i) + walk(children(v)[i]).len() <= walk(v).len()
            &&& walk(v).subrange(child_offset(v, i), child_offset(v, i) + walk(children(v)[i]).len()) == walk(children(v)[i])
        },
{
    law_walk_length(v);
    law_walk_reaches_children(v);
    assert forall|i: int| #![trigger children(v)[i]] 0 <= i < children(v).len() implies {
        &&& child_offset(v, i) + walk(children(v)[i]).len() <= walk(v).len()
        &&& walk(v).subrange(child_offset(v, i), child_offset(v, i) + walk(children(v)[i]).len()) == walk(children(v)[i])
    } by {
        law_walk_children_contiguous(v, i);
    }
}

} // verus!
