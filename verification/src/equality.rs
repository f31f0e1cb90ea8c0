//! Equality of maps and values: maps are equal when they hold the same keys
//! with equal values, whatever the order of their entries; floats compare as
//! IEEE-754 numbers.
use vstd::prelude::*;
use vstd::std_specs::cmp::{PartialEqSpec, PartialEqSpecImpl};

use crate::map::{find_key, index_of_key, keys_of, BamlMap};
use crate::strings::string_eq;
use crate::value::{
    entries_view, key_views, lemma_meta_view_shapes, lemma_value_view_shapes, meta_entries_view, meta_of,
    metas_view, values_view, BamlValue, BamlValueWithMeta, MetaV, ValueV,
};
use crate::zip::{float_eq, float_eq_exec};

verus! {

/// Two plain values are equal: same kind and contents, floats by IEEE-754
/// equality, maps and classes holding the same keys with equal values in any
/// order, lists item by item.
pub open spec fn value_eq(a: ValueV, b: ValueV) -> bool
    decreases a, 1nat,
{
    match (a, b) {
        (ValueV::String(x), ValueV::String(y)) => x == y,
        (ValueV::Int(x), ValueV::Int(y)) => x == y,
        (ValueV::Float(x), ValueV::Float(y)) => float_eq(x, y),
        (ValueV::Bool(x), ValueV::Bool(y)) => x == y,
        (ValueV::Mapping(x), ValueV::Mapping(y)) => x.len() == y.len() && entries_found(x, y),
        (ValueV::List(x), ValueV::List(y)) => items_eq(x, y),
        (ValueV::Media(x), ValueV::Media(y)) => x == y,
        (ValueV::Enum(n, x), ValueV::Enum(o, y)) => n == o && x == y,
        (ValueV::Class(n, x), ValueV::Class(o, y)) => n == o && x.len() == y.len() && entries_found(x, y),
        (ValueV::Null, ValueV::Null) => true,
        _ => false,
    }
}

/// Every entry of `x` has its key in `y`, where the first entry of that key
/// holds an equal value.
pub open spec fn entries_found(x: Seq<(Seq<char>, ValueV)>, y: Seq<(Seq<char>, ValueV)>) -> bool
    decreases x, 0nat,
{
    if x.len() == 0 {
        true
    } else {
        entries_found(x.subrange(0, x.len() - 1), y) && {
            let j = index_of_key(key_views(y), x[x.len() - 1].0);
            0 <= j < y.len() && value_eq(x[x.len() - 1].1, y[j].1)
        }
    }
}

/// Same length, and equal items at each position.
pub open spec fn items_eq(x: Seq<ValueV>, y: Seq<ValueV>) -> bool
    decreases x, 0nat,
{
    if x.len() == 0 {
        y.len() == 0
    } else {
        y.len() == x.len() && items_eq(x.subrange(0, x.len() - 1), y.subrange(0, y.len() - 1))
            && value_eq(x[x.len() - 1], y[y.len() - 1])
    }
}

proof fn lemma_entries_found_prefix(x: Seq<(Seq<char>, ValueV)>, y: Seq<(Seq<char>, ValueV)>, k: int)
    requires
        entries_found(x, y),
        0 <= k <= x.len(),
    ensures
        entries_found(x.subrange(0, k), y),
    decreases x.len(),
{
    if k < x.len() {
        let d = x.subrange(0, x.len() - 1);
        lemma_entries_found_prefix(d, y, k);
        assert(d.subrange(0, k) =~= x.subrange(0, k));
    } else {
        assert(x.subrange(0, k) =~= x);
    }
}

proof fn lemma_items_eq_prefix(x: Seq<ValueV>, y: Seq<ValueV>, k: int)
    requires
        items_eq(x, y),
        0 <= k <= x.len(),
    ensures
        items_eq(x.subrange(0, k), y.subrange(0, k)),
    decreases x.len(),
{
    if k < x.len() {
        let d = x.subrange(0, x.len() - 1);
        let e = y.subrange(0, y.len() - 1);
        lemma_items_eq_prefix(d, e, k);
        assert(d.subrange(0, k) =~= x.subrange(0, k));
        assert(e.subrange(0, k) =~= y.subrange(0, k));
    } else {
        assert(x.subrange(0, k) =~= x);
        assert(y.subrange(0, k) =~= y);
    }
}

fn value_eq_exec(a: &BamlValue, b: &BamlValue) -> (r: bool)
    ensures
        r == value_eq(a@, b@),
    decreases a, 1nat,
{
    proof {
        lemma_value_view_shapes(*a);
        lemma_value_view_shapes(*b);
    }
    match (a, b) {
        (BamlValue::String(x), BamlValue::String(y)) => string_eq(x, y),
        (BamlValue::Int(x), BamlValue::Int(y)) => *x == *y,
        (BamlValue::Float(x), BamlValue::Float(y)) => float_eq_exec(*x, *y),
        (BamlValue::Bool(x), BamlValue::Bool(y)) => *x == *y,
        (BamlValue::Mapping(x), BamlValue::Mapping(y)) => {
            x.entries.len() == y.entries.len() && entries_found_exec(Ghost(*a), &x.entries, &y.entries)
        },
        (BamlValue::List(x), BamlValue::List(y)) => items_eq_exec(Ghost(*a), x, y),
        (BamlValue::Media(x), BamlValue::Media(y)) => x.same_as(y),
        (BamlValue::Enum(n, x), BamlValue::Enum(o, y)) => string_eq(n, o) && string_eq(x, y),
        (BamlValue::Class(n, x), BamlValue::Class(o, y)) => {
            string_eq(n, o) && x.entries.len() == y.entries.len() && entries_found_exec(Ghost(*a), &x.entries, &y.entries)
        },
        (BamlValue::Null, BamlValue::Null) => true,
        _ => false,
    }
}

fn entries_found_exec(
    Ghost(owner): Ghost<BamlValue>,
    x: &Vec<(String, BamlValue)>,
    y: &Vec<(String, BamlValue)>,
) -> (r: bool)
    requires
        (owner matches BamlValue::Mapping(m) && m.entries == *x) || (owner matches BamlValue::Class(_, m) && m.entries == *x),
    ensures
        r == entries_found(entries_view(x@), entries_view(y@)),
    decreases owner, 0nat,
{
    let ghost ex = entries_view(x@);
    let ghost ey = entries_view(y@);
    proof {
        assert(keys_of(y@) =~= key_views(ey));
        assert(ex.subrange(0, 0) =~= Seq::<(Seq<char>, ValueV)>::empty());
    }
    let mut i: usize = 0;
    while i < x.len()
        invariant
            (owner matches BamlValue::Mapping(m) && m.entries == *x) || (owner matches BamlValue::Class(_, m) && m.entries == *x),
            ex == entries_view(x@),
            ey == entries_view(y@),
            keys_of(y@) == key_views(ey),
            i <= x@.len(),
            entries_found(ex.subrange(0, i as int), ey),
        decreases x@.len() - i,
    {
        proof {
            assert(ex.subrange(0, i + 1).subrange(0, i as int) =~= ex.subrange(0, i as int));
            assert(ex.subrange(0, i + 1)[i as int] == ex[i as int]);
        }
        match find_key(y, &x[i].0) {
            None => {
                proof {
                    if entries_found(ex, ey) {
                        lemma_entries_found_prefix(ex, ey, i + 1);
                    }
                }
                return false;
            },
            Some(j) => {
                proof {
                    if owner is Mapping {
                        let m = owner->Mapping_0;
                        assert(decreases_to!(owner => m));
                        assert(decreases_to!(m => m.entries));
                    } else {
                        let m = owner->Class_1;
                        assert(decreases_to!(owner => m));
                        assert(decreases_to!(m => m.entries));
                    }
                    assert(decreases_to!(*x => x@));
                    assert(decreases_to!(x@ => x@[i as int]));
                    assert(decreases_to!(x@[i as int] => x@[i as int].1));
                    crate::map::lemma_index_of_key(keys_of(y@), x@[i as int].0@);
                }
                if !value_eq_exec(&x[i].1, &y[j].1) {
                    proof {
                        if entries_found(ex, ey) {
                            lemma_entries_found_prefix(ex, ey, i + 1);
                        }
                    }
                    return false;
                }
            },
        }
        i = i + 1;
    }
    proof {
        assert(ex.subrange(0, i as int) =~= ex);
    }
    true
}

fn items_eq_exec(Ghost(owner): Ghost<BamlValue>, x: &Vec<BamlValue>, y: &Vec<BamlValue>) -> (r: bool)
    requires
        owner matches BamlValue::List(l) && l == *x,
    ensures
        r == items_eq(values_view(x@), values_view(y@)),
    decreases owner, 0nat,
{
    let ghost vx = values_view(x@);
    let ghost vy = values_view(y@);
    if x.len() != y.len() {
        return false;
    }
    proof {
        assert(vx.subrange(0, 0) =~= Seq::<ValueV>::empty());
        assert(vy.subrange(0, 0) =~= Seq::<ValueV>::empty());
    }
    let mut i: usize = 0;
    while i < x.len()
        invariant
            owner matches BamlValue::List(l) && l == *x,
            vx == values_view(x@),
            vy == values_view(y@),
            x@.len() == y@.len(),
            i <= x@.len(),
            items_eq(vx.subrange(0, i as int), vy.subrange(0, i as int)),
        decreases x@.len() - i,
    {
        proof {
            assert(vx.subrange(0, i + 1).subrange(0, i as int) =~= vx.subrange(0, i as int));
            assert(vy.subrange(0, i + 1).subrange(0, i as int) =~= vy.subrange(0, i as int));
            let l = owner->List_0;
            assert(decreases_to!(owner => l));
            assert(decreases_to!(l => l@));
            assert(decreases_to!(l@ => l@[i as int]));
        }
        if !value_eq_exec(&x[i], &y[i]) {
            proof {
                if items_eq(vx, vy) {
                    lemma_items_eq_prefix(vx, vy, i + 1);
                }
            }
            return false;
        }
        i = i + 1;
    }
    proof {
        assert(vx.subrange(0, i as int) =~= vx);
        assert(vy.subrange(0, i as int) =~= vy);
    }
    true
}

impl PartialEq for BamlValue {
    fn eq(&self, other: &Self) -> (r: bool) {
        value_eq_exec(self, other)
    }
}

impl PartialEqSpecImpl for BamlValue {
    open spec fn obeys_eq_spec() -> bool {
        true
    }

    open spec fn eq_spec(&self, other: &Self) -> bool {
        value_eq(self@, other@)
    }
}

/// Every entry of `x` has its key in `y`, where the first entry of that key
/// holds a value equal to the entry's.
pub open spec fn map_entries_found<V: PartialEq>(x: Seq<(String, V)>, y: Seq<(String, V)>) -> bool {
    forall|i: int| #![trigger x[i]] 0 <= i < x.len() ==> {
        let j = index_of_key(keys_of(y), x[i].0@);
        0 <= j < y.len() && x[i].1.eq_spec(&y[j].1)
    }
}

impl<V: PartialEq> PartialEq for BamlMap<V> {
    fn eq(&self, other: &Self) -> (r: bool) {
        if self.entries.len() != other.entries.len() {
            return false;
        }
        let mut i: usize = 0;
        while i < self.entries.len()
            invariant
                i <= self.entries@.len(),
                self.entries@.len() == other.entries@.len(),
                V::obeys_eq_spec() ==> forall|k: int| #![trigger self.entries@[k]] 0 <= k < i ==> {
                    let j = index_of_key(keys_of(other.entries@), self.entries@[k].0@);
                    0 <= j < other.entries@.len() && self.entries@[k].1.eq_spec(&other.entries@[j].1)
                },
            decreases self.entries@.len() - i,
        {
            proof {
                crate::map::lemma_index_of_key(keys_of(other.entries@), self.entries@[i as int].0@);
            }
            match find_key(&other.entries, &self.entries[i].0) {
                None => {
                    return false;
                },
                Some(j) => {
                    if !self.entries[i].1.eq(&other.entries[j].1) {
                        return false;
                    }
                },
            }
            i = i + 1;
        }
        true
    }
}

impl<V: PartialEq> PartialEqSpecImpl for BamlMap<V> {
    open spec fn obeys_eq_spec() -> bool {
        V::obeys_eq_spec()
    }

    open spec fn eq_spec(&self, other: &Self) -> bool {
        self.entries@.len() == other.entries@.len() && map_entries_found(self.entries@, other.entries@)
    }
}

/// Two values with metadata are equal: the same as `value_eq` for their
/// contents, and equal metadata at every node.
pub open spec fn meta_eq<T: PartialEq>(a: MetaV<T>, b: MetaV<T>) -> bool
    decreases a, 1nat,
{
    meta_of(a).eq_spec(&meta_of(b)) && match (a, b) {
        (MetaV::String(x, _), MetaV::String(y, _)) => x == y,
        (MetaV::Int(x, _), MetaV::Int(y, _)) => x == y,
        (MetaV::Float(x, _), MetaV::Float(y, _)) => float_eq(x, y),
        (MetaV::Bool(x, _), MetaV::Bool(y, _)) => x == y,
        (MetaV::Mapping(x, _), MetaV::Mapping(y, _)) => x.len() == y.len() && meta_entries_found(x, y),
        (MetaV::List(x, _), MetaV::List(y, _)) => meta_items_eq(x, y),
        (MetaV::Media(x, _), MetaV::Media(y, _)) => x == y,
        (MetaV::Enum(n, x, _), MetaV::Enum(o, y, _)) => n == o && x == y,
        (MetaV::Class(n, x, _), MetaV::Class(o, y, _)) => n == o && x.len() == y.len() && meta_entries_found(x, y),
        (MetaV::Null(_), MetaV::Null(_)) => true,
        _ => false,
    }
}

/// Every entry of `x` has its key in `y`, where the first entry of that key
/// holds an equal value.
pub open spec fn meta_entries_found<T: PartialEq>(x: Seq<(Seq<char>, MetaV<T>)>, y: Seq<(Seq<char>, MetaV<T>)>) -> bool
    decreases x, 0nat,
{
    if x.len() == 0 {
        true
    } else {
        meta_entries_found(x.subrange(0, x.len() - 1), y) && {
            let j = index_of_key(key_views(y), x[x.len() - 1].0);
            0 <= j < y.len() && meta_eq(x[x.len() - 1].1, y[j].1)
        }
    }
}

/// Same length, and equal items at each position.
pub open spec fn meta_items_eq<T: PartialEq>(x: Seq<MetaV<T>>, y: Seq<MetaV<T>>) -> bool
    decreases x, 0nat,
{
    if x.len() == 0 {
        y.len() == 0
    } else {
        y.len() == x.len() && meta_items_eq(x.subrange(0, x.len() - 1), y.subrange(0, y.len() - 1))
            && meta_eq(x[x.len() - 1], y[y.len() - 1])
    }
}

proof fn lemma_meta_entries_found_prefix<T: PartialEq>(x: Seq<(Seq<char>, MetaV<T>)>, y: Seq<(Seq<char>, MetaV<T>)>, k: int)
    requires
        meta_entries_found(x, y),
        0 <= k <= x.len(),
    ensures
        meta_entries_found(x.subrange(0, k), y),
    decreases x.len(),
{
    if k < x.len() {
        let d = x.subrange(0, x.len() - 1);
        lemma_meta_entries_found_prefix(d, y, k);
        assert(d.subrange(0, k) =~= x.subrange(0, k));
    } else {
        assert(x.subrange(0, k) =~= x);
    }
}

proof fn lemma_meta_items_eq_prefix<T: PartialEq>(x: Seq<MetaV<T>>, y: Seq<MetaV<T>>, k: int)
    requires
        meta_items_eq(x, y),
        0 <= k <= x.len(),
    ensures
        meta_items_eq(x.subrange(0, k), y.subrange(0, k)),
    decreases x.len(),
{
    if k < x.len() {
        let d = x.subrange(0, x.len() - 1);
        let e = y.subrange(0, y.len() - 1);
        lemma_meta_items_eq_prefix(d, e, k);
        assert(d.subrange(0, k) =~= x.subrange(0, k));
        assert(e.subrange(0, k) =~= y.subrange(0, k));
    } else {
        assert(x.subrange(0, k) =~= x);
        assert(y.subrange(0, k) =~= y);
    }
}

fn meta_eq_exec<T: PartialEq>(a: &BamlValueWithMeta<T>, b: &BamlValueWithMeta<T>) -> (r: bool)
    ensures
        T::obeys_eq_spec() ==> r == meta_eq(a@, b@),
    decreases a, 1nat,
{
    proof {
        lemma_meta_view_shapes(*a);
        lemma_meta_view_shapes(*b);
    }
    if !a.meta().eq(b.meta()) {
        return false;
    }
    match (a, b) {
        (BamlValueWithMeta::String(x, _), BamlValueWithMeta::String(y, _)) => string_eq(x, y),
        (BamlValueWithMeta::Int(x, _), BamlValueWithMeta::Int(y, _)) => *x == *y,
        (BamlValueWithMeta::Float(x, _), BamlValueWithMeta::Float(y, _)) => float_eq_exec(*x, *y),
        (BamlValueWithMeta::Bool(x, _), BamlValueWithMeta::Bool(y, _)) => *x == *y,
        (BamlValueWithMeta::Mapping(x, _), BamlValueWithMeta::Mapping(y, _)) => {
            x.entries.len() == y.entries.len() && meta_entries_found_exec(Ghost(*a), &x.entries, &y.entries)
        },
        (BamlValueWithMeta::List(x, _), BamlValueWithMeta::List(y, _)) => meta_items_eq_exec(Ghost(*a), x, y),
        (BamlValueWithMeta::Media(x, _), BamlValueWithMeta::Media(y, _)) => x.same_as(y),
        (BamlValueWithMeta::Enum(n, x, _), BamlValueWithMeta::Enum(o, y, _)) => string_eq(n, o) && string_eq(x, y),
        (BamlValueWithMeta::Class(n, x, _), BamlValueWithMeta::Class(o, y, _)) => {
            string_eq(n, o) && x.entries.len() == y.entries.len() && meta_entries_found_exec(Ghost(*a), &x.entries, &y.entries)
        },
        (BamlValueWithMeta::Null(_), BamlValueWithMeta::Null(_)) => true,
        _ => false,
    }
}

fn meta_entries_found_exec<T: PartialEq>(
    Ghost(owner): Ghost<BamlValueWithMeta<T>>,
    x: &Vec<(String, BamlValueWithMeta<T>)>,
    y: &Vec<(String, BamlValueWithMeta<T>)>,
) -> (r: bool)
    requires
        (owner matches BamlValueWithMeta::Mapping(m, _) && m.entries == *x)
            || (owner matches BamlValueWithMeta::Class(_, m, _) && m.entries == *x),
    ensures
        T::obeys_eq_spec() ==> r == meta_entries_found(meta_entries_view(x@), meta_entries_view(y@)),
    decreases owner, 0nat,
{
    let ghost ex = meta_entries_view(x@);
    let ghost ey = meta_entries_view(y@);
    proof {
        assert(keys_of(y@) =~= key_views(ey));
        assert(ex.subrange(0, 0) =~= Seq::<(Seq<char>, MetaV<T>)>::empty());
    }
    let mut i: usize = 0;
    while i < x.len()
        invariant
            (owner matches BamlValueWithMeta::Mapping(m, _) && m.entries == *x)
                || (owner matches BamlValueWithMeta::Class(_, m, _) && m.entries == *x),
            ex == meta_entries_view(x@),
            ey == meta_entries_view(y@),
            keys_of(y@) == key_views(ey),
            i <= x@.len(),
            T::obeys_eq_spec() ==> meta_entries_found(ex.subrange(0, i as int), ey),
        decreases x@.len() - i,
    {
        proof {
            assert(ex.subrange(0, i + 1).subrange(0, i as int) =~= ex.subrange(0, i as int));
            assert(ex.subrange(0, i + 1)[i as int] == ex[i as int]);
        }
        match find_key(y, &x[i].0) {
            None => {
                proof {
                    if meta_entries_found(ex, ey) {
                        lemma_meta_entries_found_prefix(ex, ey, i + 1);
                    }
                }
                return false;
            },
            Some(j) => {
                proof {
                    if owner is Mapping {
                        let m = owner->Mapping_0;
                        assert(decreases_to!(owner => m));
                        assert(decreases_to!(m => m.entries));
                    } else {
                        let m = owner->Class_1;
                        assert(decreases_to!(owner => m));
                        assert(decreases_to!(m => m.entries));
                    }
                    assert(decreases_to!(*x => x@));
                    assert(decreases_to!(x@ => x@[i as int]));
                    assert(decreases_to!(x@[i as int] => x@[i as int].1));
                    crate::map::lemma_index_of_key(keys_of(y@), x@[i as int].0@);
                }
                if !meta_eq_exec(&x[i].1, &y[j].1) {
                    proof {
                        if meta_entries_found(ex, ey) {
                            lemma_meta_entries_found_prefix(ex, ey, i + 1);
                        }
                    }
                    return false;
                }
            },
        }
        i = i + 1;
    }
    proof {
        assert(ex.subrange(0, i as int) =~= ex);
    }
    true
}

fn meta_items_eq_exec<T: PartialEq>(
    Ghost(owner): Ghost<BamlValueWithMeta<T>>,
    x: &Vec<BamlValueWithMeta<T>>,
    y: &Vec<BamlValueWithMeta<T>>,
) -> (r: bool)
    requires
        owner matches BamlValueWithMeta::List(l, _) && l == *x,
    ensures
        T::obeys_eq_spec() ==> r == meta_items_eq(metas_view(x@), metas_view(y@)),
    decreases owner, 0nat,
{
    let ghost vx = metas_view(x@);
    let ghost vy = metas_view(y@);
    if x.len() != y.len() {
        return false;
    }
    proof {
        assert(vx.subrange(0, 0) =~= Seq::<MetaV<T>>::empty());
        assert(vy.subrange(0, 0) =~= Seq::<MetaV<T>>::empty());
    }
    let mut i: usize = 0;
    while i < x.len()
        invariant
            owner matches BamlValueWithMeta::List(l, _) && l == *x,
            vx == metas_view(x@),
            vy == metas_view(y@),
            x@.len() == y@.len(),
            i <= x@.len(),
            T::obeys_eq_spec() ==> meta_items_eq(vx.subrange(0, i as int), vy.subrange(0, i as int)),
        decreases x@.len() - i,
    {
        proof {
            assert(vx.subrange(0, i + 1).subrange(0, i as int) =~= vx.subrange(0, i as int));
            assert(vy.subrange(0, i + 1).subrange(0, i as int) =~= vy.subrange(0, i as int));
            let l = owner->List_0;
            assert(decreases_to!(owner => l));
            assert(decreases_to!(l => l@));
            assert(decreases_to!(l@ => l@[i as int]));
        }
        if !meta_eq_exec(&x[i], &y[i]) {
            proof {
                if meta_items_eq(vx, vy) {
                    lemma_meta_items_eq_prefix(vx, vy, i + 1);
                }
            }
            return false;
        }
        i = i + 1;
    }
    proof {
        assert(vx.subrange(0, i as int) =~= vx);
        assert(vy.subrange(0, i as int) =~= vy);
    }
    true
}

impl<T: PartialEq> PartialEq for BamlValueWithMeta<T> {
    fn eq(&self, other: &Self) -> (r: bool) {
        meta_eq_exec(self, other)
    }
}

impl<T: PartialEq> PartialEqSpecImpl for BamlValueWithMeta<T> {
    open spec fn obeys_eq_spec() -> bool {
        T::obeys_eq_spec()
    }

    open spec fn eq_spec(&self, other: &Self) -> bool {
        meta_eq(self@, other@)
    }
}

} // verus!
