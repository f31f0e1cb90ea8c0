use vstd::prelude::*;
use vstd::string::StringExecFns;

use crate::media::BamlMediaType;
use crate::strings::{concat3, dedup, dedup_strings, join, join_strings};
use crate::value::{lemma_value_view_shapes, entries_view, strip, values_view, BamlValue, BamlValueWithMeta, ValueV};

verus! {

/// The type names of a sequence of values, each name listed once, joined by
/// `" | "`.
pub open spec fn union_of_names(names: Seq<Seq<char>>) -> Seq<char> {
    join(dedup(names), " | "@)
}

/// A readable name of the type of a plain value: for a map or a list, the
/// distinct types of its elements joined by `" | "`, or `?` when it is empty.
pub open spec fn value_type_of(v: ValueV) -> Seq<char>
    decreases v,
{
    match v {
        ValueV::String(_) => "string"@,
        ValueV::Int(_) => "int"@,
        ValueV::Float(_) => "float"@,
        ValueV::Bool(_) => "bool"@,
        ValueV::Mapping(kv) => {
            let j = union_of_names(entry_type_names(kv));
            if j.len() == 0 {
                "map<string, ?>"@
            } else {
                "map<string, "@ + j + ">"@
            }
        },
        ValueV::List(items) => {
            let j = union_of_names(item_type_names(items));
            if j.len() == 0 {
                "list<?>"@
            } else {
                "list<"@ + j + ">"@
            }
        },
        ValueV::Media(m) => match m.media_type {
            BamlMediaType::Image => "image"@,
            BamlMediaType::Audio => "audio"@,
        },
        ValueV::Enum(e, _) => "enum "@ + e,
        ValueV::Class(c, _) => "class "@ + c,
        ValueV::Null => "null"@,
    }
}

/// The type names of the values of keyed entries, in order.
pub open spec fn entry_type_names(kv: Seq<(Seq<char>, ValueV)>) -> Seq<Seq<char>>
    decreases kv,
{
    if kv.len() == 0 {
        Seq::empty()
    } else {
        entry_type_names(kv.subrange(0, kv.len() - 1)).push(value_type_of(kv[kv.len() - 1].1))
    }
}

/// The type names of a sequence of values, in order.
pub open spec fn item_type_names(items: Seq<ValueV>) -> Seq<Seq<char>>
    decreases items,
{
    if items.len() == 0 {
        Seq::empty()
    } else {
        item_type_names(items.subrange(0, items.len() - 1)).push(value_type_of(items[items.len() - 1]))
    }
}

impl BamlValue {
    /// A readable name of this value's type, such as `int`, `class Foo` or
    /// `list<int | string>`.
    ///
    /// The element types of a map or a list are listed once each, in the
    /// order in which they first occur.
    pub fn value_type(&self) -> (r: String)
        ensures
            r@ == value_type_of(self@),
        decreases self,
    {
        proof {
            lemma_value_view_shapes(*self);
        }
        match self {
            BamlValue::String(_) => "string".to_owned(),
            BamlValue::Int(_) => "int".to_owned(),
            BamlValue::Float(_) => "float".to_owned(),
            BamlValue::Bool(_) => "bool".to_owned(),
            BamlValue::Mapping(kv) => {
                let mut names: Vec<String> = Vec::new();
                let mut i: usize = 0;
                while i < kv.entries.len()
                    invariant
                        i <= kv.entries@.len(),
                        *self == BamlValue::Mapping(*kv),
                        names@.len() == i,
                        names@.map_values(|e: String| e@) == entry_type_names(entries_view(kv.entries@).subrange(0, i as int)),
                    decreases kv.entries@.len() - i,
                {
                    proof {
                        assert(decreases_to!(*self => self->Mapping_0));
                        assert(decreases_to!(*kv => kv.entries));
                        assert(decreases_to!(kv.entries => kv.entries@));
                        assert(decreases_to!(kv.entries@ => kv.entries@[i as int]));
                        assert(decreases_to!(kv.entries@[i as int] => kv.entries@[i as int].1));
                    }
                    let n = kv.entries[i].1.value_type();
                    names.push(n);
                    proof {
                        let ve = entries_view(kv.entries@);
                        assert(ve.subrange(0, i + 1).subrange(0, i as int) =~= ve.subrange(0, i as int));
                        assert(names@.map_values(|e: String| e@) =~= entry_type_names(ve.subrange(0, i + 1)));
                    }
                    i = i + 1;
                }
                assert(entries_view(kv.entries@).subrange(0, i as int) =~= entries_view(kv.entries@));
                let d = dedup_strings(names);
                let j = join_strings(&d, " | ");
                let r = if j.as_str().is_empty() {
                    "map<string, ?>".to_owned()
                } else {
                    concat3("map<string, ", j.as_str(), ">")
                };
                assert(r@ == value_type_of(self@));
                r
            },
            BamlValue::List(items) => {
                let mut names: Vec<String> = Vec::new();
                let mut i: usize = 0;
                while i < items.len()
                    invariant
                        i <= items@.len(),
                        *self == BamlValue::List(*items),
                        names@.len() == i,
                        names@.map_values(|e: String| e@) == item_type_names(values_view(items@).subrange(0, i as int)),
                    decreases items@.len() - i,
                {
                    proof {
                        assert(decreases_to!(*self => self->List_0));
                        assert(decreases_to!(*items => items@));
                        assert(decreases_to!(items@ => items@[i as int]));
                    }
                    let n = items[i].value_type();
                    names.push(n);
                    proof {
                        let vl = values_view(items@);
                        assert(vl.subrange(0, i + 1).subrange(0, i as int) =~= vl.subrange(0, i as int));
                        assert(names@.map_values(|e: String| e@) =~= item_type_names(vl.subrange(0, i + 1)));
                    }
                    i = i + 1;
                }
                assert(values_view(items@).subrange(0, i as int) =~= values_view(items@));
                let d = dedup_strings(names);
                let j = join_strings(&d, " | ");
                if j.as_str().is_empty() {
                    "list<?>".to_owned()
                } else {
                    concat3("list<", j.as_str(), ">")
                }
            },
            BamlValue::Media(m) => match m.media_type {
                BamlMediaType::Image => "image".to_owned(),
                BamlMediaType::Audio => "audio".to_owned(),
            },
            BamlValue::Enum(e, _) => {
                let mut r = "enum ".to_owned();
                r.append(e.as_str());
                assert(r@ == value_type_of(self@));
                r
            },
            BamlValue::Class(c, _) => {
                let mut r = "class ".to_owned();
                r.append(c.as_str());
                r
            },
            BamlValue::Null => "null".to_owned(),
        }
    }
}

impl<T> BamlValueWithMeta<T> {
    /// The name of the type of the plain value underneath.
    pub fn value_type(&self) -> (r: String)
        ensures
            r@ == value_type_of(strip(self@)),
    {
        let plain = self.to_value();
        plain.value_type()
    }
}

/// Type names: each scalar kind has its own name (`string`, `int`,
/// `float`, `bool`, `null`); a media value is named by its media type,
/// `image` or `audio`, so media of different types get different names; an
/// enum value is `enum ` and its enum's name, a class value `class ` and its
/// class's name; an empty list is `list<?>` and an empty map
/// `map<string, ?>`, and other lists and maps start `list<` and
/// `map<string, ` and end with `>`.
pub proof fn law_value_type_names(v: ValueV, w: ValueV)
    ensures
        v is String ==> value_type_of(v) == "string"@,
        v is Int ==> value_type_of(v) == "int"@,
        v is Float ==> value_type_of(v) == "float"@,
        v is Bool ==> value_type_of(v) == "bool"@,
        v is Null ==> value_type_of(v) == "null"@,
        v matches ValueV::Media(m) ==> value_type_of(v) == (if m.media_type == BamlMediaType::Image { "image"@ } else { "audio"@ }),
        (v matches ValueV::Media(m1) && w matches ValueV::Media(m2) && m1.media_type != m2.media_type)
            ==> value_type_of(v) != value_type_of(w),
        v matches ValueV::Enum(e, _) ==> value_type_of(v) == "enum "@ + e,
        v matches ValueV::Class(c, _) ==> value_type_of(v) == "class "@ + c,
        v matches ValueV::List(l) ==> (l.len() == 0 ==> value_type_of(v) == "list<?>"@),
        v matches ValueV::Mapping(e) ==> (e.len() == 0 ==> value_type_of(v) == "map<string, ?>"@),
{
    reveal_strlit("image");
    reveal_strlit("audio");
    if v is List {
        let l = v->List_0;
        if l.len() == 0 {
            assert(item_type_names(l) =~= Seq::<Seq<char>>::empty());
            crate::strings::lemma_dedup(item_type_names(l));
        }
    }
    if v is Mapping {
        let e = v->Mapping_0;
        if e.len() == 0 {
            assert(entry_type_names(e) =~= Seq::<Seq<char>>::empty());
            crate::strings::lemma_dedup(entry_type_names(e));
        }
    }
    if v is Media && w is Media {
        assert("image"@[0] != "audio"@[0]);
    }
}

/// Every type name is non-empty.
proof fn lemma_type_name_nonempty(v: ValueV)
    ensures
        value_type_of(v).len() > 0,
{
    reveal_strlit("string");
    reveal_strlit("int");
    reveal_strlit("float");
    reveal_strlit("bool");
    reveal_strlit("null");
    reveal_strlit("image");
    reveal_strlit("audio");
    reveal_strlit("enum ");
    reveal_strlit("class ");
    reveal_strlit("list<?>");
    reveal_strlit("list<");
    reveal_strlit("map<string, ?>");
    reveal_strlit("map<string, ");
}

proof fn lemma_item_type_names(items: Seq<ValueV>)
    ensures
        item_type_names(items).len() == items.len(),
        forall|i: int| 0 <= i < items.len() ==> #[trigger] item_type_names(items)[i] == value_type_of(items[i]),
    decreases items.len(),
{
    if items.len() > 0 {
        lemma_item_type_names(items.subrange(0, items.len() - 1));
    }
}

proof fn lemma_entry_type_names(kv: Seq<(Seq<char>, ValueV)>)
    ensures
        entry_type_names(kv).len() == kv.len(),
        forall|i: int| 0 <= i < kv.len() ==> #[trigger] entry_type_names(kv)[i] == value_type_of(kv[i].1),
    decreases kv.len(),
{
    if kv.len() > 0 {
        lemma_entry_type_names(kv.subrange(0, kv.len() - 1));
    }
}

/// A join is at least as long as its last element.
proof fn lemma_join_last(d: Seq<Seq<char>>, sep: Seq<char>)
    requires
        d.len() > 0,
    ensures
        join(d, sep).len() >= d.last().len(),
{
    if d.len() > 1 {
        assert(join(d, sep) == join(d.drop_last(), sep) + sep + d.last());
    }
}

/// Names that all agree collapse to that one name.
proof fn lemma_union_of_one_name(names: Seq<Seq<char>>, t: Seq<char>)
    requires
        names.len() > 0,
        forall|i: int| 0 <= i < names.len() ==> #[trigger] names[i] == t,
    ensures
        union_of_names(names) == t,
{
    crate::strings::lemma_dedup(names);
    let d = dedup(names);
    assert forall|k: int| 0 <= k < d.len() implies d[k] == t by {
        assert(d.contains(d[k]));
        assert(names.contains(d[k]));
    }
    if d.len() > 1 {
        assert(d[0] == d[1]);
    }
    assert(d.len() == 1);
}

/// The type name of a non-empty list or map lists the type names of its
/// elements: each of them exactly once and nothing else, with `" | "`
/// between them; when all its elements have one type name `t` it is
/// `list<t>` or `map<string, t>`.
pub proof fn law_collection_type_names(v: ValueV)
    ensures
        (v is List && v->List_0.len() > 0) ==> exists|d: Seq<Seq<char>>| {
            &&& value_type_of(v) == "list<"@ + join(d, " | "@) + ">"@
            &&& forall|i: int, j: int| 0 <= i < j < d.len() ==> d[i] != d[j]
            &&& forall|x: Seq<char>| d.contains(x) <==> exists|i: int|
                0 <= i < v->List_0.len() && value_type_of(#[trigger] v->List_0[i]) == x
        },
        (v is Mapping && v->Mapping_0.len() > 0) ==> exists|d: Seq<Seq<char>>| {
            &&& value_type_of(v) == "map<string, "@ + join(d, " | "@) + ">"@
            &&& forall|i: int, j: int| 0 <= i < j < d.len() ==> d[i] != d[j]
            &&& forall|x: Seq<char>| d.contains(x) <==> exists|i: int|
                0 <= i < v->Mapping_0.len() && value_type_of(#[trigger] v->Mapping_0[i].1) == x
        },
        (v is List && v->List_0.len() > 0 && forall|i: int|
            0 <= i < v->List_0.len() ==> value_type_of(#[trigger] v->List_0[i]) == value_type_of(v->List_0[0]))
            ==> value_type_of(v) == "list<"@ + value_type_of(v->List_0[0]) + ">"@,
        (v is Mapping && v->Mapping_0.len() > 0 && forall|i: int|
            0 <= i < v->Mapping_0.len() ==> value_type_of(#[trigger] v->Mapping_0[i].1) == value_type_of(v->Mapping_0[0].1))
            ==> value_type_of(v) == "map<string, "@ + value_type_of(v->Mapping_0[0].1) + ">"@,
{
    if v is List && v->List_0.len() > 0 {
        let l = v->List_0;
        let names = item_type_names(l);
        lemma_item_type_names(l);
        crate::strings::lemma_dedup(names);
        let d = dedup(names);
        assert(d.contains(d.last()));
        assert(names.contains(d.last()));
        let i = choose|i: int| 0 <= i < names.len() && names[i] == d.last();
        lemma_type_name_nonempty(l[i]);
        lemma_join_last(d, " | "@);
        assert(union_of_names(names).len() > 0);
        assert forall|x: Seq<char>| d.contains(x) <==> exists|i: int|
            0 <= i < l.len() && value_type_of(#[trigger] l[i]) == x by {
            if d.contains(x) {
                assert(names.contains(x));
                let i = choose|i: int| 0 <= i < names.len() && names[i] == x;
                assert(value_type_of(l[i]) == x);
            }
            if exists|i: int| 0 <= i < l.len() && value_type_of(#[trigger] l[i]) == x {
                let i = choose|i: int| 0 <= i < l.len() && value_type_of(#[trigger] l[i]) == x;
                assert(names[i] == x);
                assert(names.contains(x));
            }
        }
        if forall|i: int| 0 <= i < l.len() ==> value_type_of(#[trigger] l[i]) == value_type_of(l[0]) {
            assert forall|i: int| 0 <= i < names.len() implies #[trigger] names[i] == value_type_of(l[0]) by {
                assert(value_type_of(l[i]) == value_type_of(l[0]));
            }
            lemma_union_of_one_name(names, value_type_of(l[0]));
        }
    }
    if v is Mapping && v->Mapping_0.len() > 0 {
        let e = v->Mapping_0;
        let names = entry_type_names(e);
        lemma_entry_type_names(e);
        crate::strings::lemma_dedup(names);
        let d = dedup(names);
        assert(d.contains(d.last()));
        assert(names.contains(d.last()));
        let i = choose|i: int| 0 <= i < names.len() && names[i] == d.last();
        lemma_type_name_nonempty(e[i].1);
        lemma_join_last(d, " | "@);
        assert(union_of_names(names).len() > 0);
        assert forall|x: Seq<char>| d.contains(x) <==> exists|i: int|
            0 <= i < e.len() && value_type_of(#[trigger] e[i].1) == x by {
            if d.contains(x) {
                assert(names.contains(x));
                let i = choose|i: int| 0 <= i < names.len() && names[i] == x;
                assert(value_type_of(e[i].1) == x);
            }
            if exists|i: int| 0 <= i < e.len() && value_type_of(#[trigger] e[i].1) == x {
                let i = choose|i: int| 0 <= i < e.len() && value_type_of(#[trigger] e[i].1) == x;
                assert(names[i] == x);
                assert(names.contains(x));
            }
        }
        if forall|i: int| 0 <= i < e.len() ==> value_type_of(#[trigger] e[i].1) == value_type_of(e[0].1) {
            assert forall|i: int| 0 <= i < names.len() implies #[trigger] names[i] == value_type_of(e[0].1) by {
                assert(value_type_of(e[i].1) == value_type_of(e[0].1));
            }
            lemma_union_of_one_name(names, value_type_of(e[0].1));
        }
    }
}

} // verus!
