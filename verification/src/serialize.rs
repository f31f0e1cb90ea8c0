use vstd::prelude::*;

use crate::constraint::ResponseCheck;
use crate::json::{
    json_items_view, json_pairs_view, lemma_json_view_shapes, obj_from, obj_insert_all_exec,
    obj_insert, obj_insert_seq, JsonV, JsonValue,
};
use crate::map::{index_of_key, lemma_index_of_key};
use crate::value::{
    entries_view, lemma_meta_view_shapes, lemma_value_view_shapes, meta_entries_view, meta_of,
    metas_view, values_view, BamlValue, BamlValueWithMeta, CompletionState, MetaV, ValueV,
};

verus! {

/// The JSON object of a check: its name, expression and status.
pub open spec fn check_json(c: ResponseCheck) -> JsonV {
    JsonV::Object(
        seq![
            ("name"@, JsonV::String(c.name@)),
            ("expression"@, JsonV::String(c.expression@)),
            ("status"@, JsonV::String(c.status@)),
        ],
    )
}

/// Members naming each check by its name, in order.
pub open spec fn check_pairs(cs: Seq<ResponseCheck>) -> Seq<(Seq<char>, JsonV)> {
    Seq::new(cs.len(), |i: int| (cs[i].name@, check_json(cs[i])))
}

/// `[name, check]` arrays, one per check, in order.
pub open spec fn check_name_arrays(cs: Seq<ResponseCheck>) -> Seq<JsonV> {
    Seq::new(cs.len(), |i: int| JsonV::Array(seq![JsonV::String(cs[i].name@), check_json(cs[i])]))
}

/// The JSON string naming a completion state.
pub open spec fn completion_state_json(s: CompletionState) -> JsonV {
    match s {
        CompletionState::Pending => JsonV::String("Pending"@),
        CompletionState::Incomplete => JsonV::String("Incomplete"@),
        CompletionState::Complete => JsonV::String("Complete"@),
    }
}

/// Metadata that adds members to the JSON form of the value it is attached to.
pub trait SerializeMetadata {
    /// The members, in order.
    spec fn metadata_json(&self) -> Seq<(Seq<char>, JsonV)>;

    /// The members, computed.
    fn metadata_fields(&self) -> (r: Vec<(String, JsonValue)>)
        ensures
            json_pairs_view(r@) == self.metadata_json(),
    ;
}

/// The members for a list of checks: none when there is no check, else a
/// `checks` object naming each check by its name (a later check replaces an
/// earlier one of the same name).
pub open spec fn checks_fields(cs: Seq<ResponseCheck>) -> Seq<(Seq<char>, JsonV)> {
    if cs.len() > 0 {
        seq![("checks"@, JsonV::Object(obj_from(check_pairs(cs))))]
    } else {
        Seq::empty()
    }
}

fn check_to_json(c: &ResponseCheck) -> (r: JsonValue)
    ensures
        r@ == check_json(*c),
{
    let mut o: Vec<(String, JsonValue)> = Vec::new();
    o.push(("name".to_owned(), JsonValue::String(c.name.clone())));
    o.push(("expression".to_owned(), JsonValue::String(c.expression.clone())));
    o.push(("status".to_owned(), JsonValue::String(c.status.clone())));
    let r = JsonValue::Object(o);
    proof {
        lemma_json_view_shapes(r);
        assert(json_pairs_view(o@) =~= check_json(*c)->Object_0);
    }
    r
}

fn checks_to_fields(cs: &Vec<ResponseCheck>) -> (r: Vec<(String, JsonValue)>)
    ensures
        json_pairs_view(r@) == checks_fields(cs@),
{
    if cs.len() == 0 {
        let r: Vec<(String, JsonValue)> = Vec::new();
        assert(json_pairs_view(r@) =~= checks_fields(cs@));
        return r;
    }
    let mut pairs: Vec<(String, JsonValue)> = Vec::new();
    let mut i: usize = 0;
    while i < cs.len()
        invariant
            i <= cs@.len(),
            pairs@.len() == i,
            forall|j: int| 0 <= j < i ==> (#[trigger] pairs@[j]).0@ == cs@[j].name@ && pairs@[j].1@ == check_json(cs@[j]),
        decreases cs@.len() - i,
    {
        pairs.push((cs[i].name.clone(), check_to_json(&cs[i])));
        i = i + 1;
    }
    assert(json_pairs_view(pairs@) =~= check_pairs(cs@));
    let mut obj: Vec<(String, JsonValue)> = Vec::new();
    assert(json_pairs_view(obj@) =~= Seq::empty());
    obj_insert_all_exec(&mut obj, pairs);
    let checks = JsonValue::Object(obj);
    proof {
        lemma_json_view_shapes(checks);
    }
    let mut r: Vec<(String, JsonValue)> = Vec::new();
    r.push(("checks".to_owned(), checks));
    assert(json_pairs_view(r@) =~= checks_fields(cs@));
    r
}

impl SerializeMetadata for Vec<ResponseCheck> {
    open spec fn metadata_json(&self) -> Seq<(Seq<char>, JsonV)> {
        checks_fields(self@)
    }

    fn metadata_fields(&self) -> (r: Vec<(String, JsonValue)>) {
        checks_to_fields(self)
    }
}

impl SerializeMetadata for BamlValueWithMeta<Vec<ResponseCheck>> {
    open spec fn metadata_json(&self) -> Seq<(Seq<char>, JsonV)> {
        checks_fields(meta_of(self@)@)
    }

    fn metadata_fields(&self) -> (r: Vec<(String, JsonValue)>) {
        checks_to_fields(self.meta())
    }
}

/// The members for checks and a completion state: a `checks` array of
/// `[name, check]` pairs when there are checks, then a `completion_state`
/// string when there is a state.
pub open spec fn checks_and_state_fields(cs: Seq<ResponseCheck>, state: Option<CompletionState>) -> Seq<(Seq<char>, JsonV)> {
    let a: Seq<(Seq<char>, JsonV)> = if cs.len() > 0 {
        seq![("checks"@, JsonV::Array(check_name_arrays(cs)))]
    } else {
        Seq::empty()
    };
    match state {
        Some(s) => a.push(("completion_state"@, completion_state_json(s))),
        None => a,
    }
}

fn completion_state_to_json(s: CompletionState) -> (r: JsonValue)
    ensures
        r@ == completion_state_json(s),
{
    match s {
        CompletionState::Pending => JsonValue::String("Pending".to_owned()),
        CompletionState::Incomplete => JsonValue::String("Incomplete".to_owned()),
        CompletionState::Complete => JsonValue::String("Complete".to_owned()),
    }
}

/// The members for a list of checks and an optional completion state.
pub fn checks_and_state_to_fields(cs: &Vec<ResponseCheck>, state: &Option<CompletionState>) -> (r: Vec<(String, JsonValue)>)
    ensures
        json_pairs_view(r@) == checks_and_state_fields(cs@, *state),
{
    let mut fields: Vec<(String, JsonValue)> = Vec::new();
    if cs.len() > 0 {
        let mut arr: Vec<JsonValue> = Vec::new();
        let mut i: usize = 0;
        while i < cs.len()
            invariant
                i <= cs@.len(),
                arr@.len() == i,
                forall|j: int| 0 <= j < i ==> (#[trigger] arr@[j])@ == check_name_arrays(cs@)[j],
            decreases cs@.len() - i,
        {
            let mut pair: Vec<JsonValue> = Vec::new();
            pair.push(JsonValue::String(cs[i].name.clone()));
            pair.push(check_to_json(&cs[i]));
            let p = JsonValue::Array(pair);
            proof {
                lemma_json_view_shapes(p);
                assert(json_items_view(pair@) =~= seq![JsonV::String(cs@[i as int].name@), check_json(cs@[i as int])]);
            }
            arr.push(p);
            i = i + 1;
        }
        let a = JsonValue::Array(arr);
        proof {
            lemma_json_view_shapes(a);
            assert(json_items_view(arr@) =~= check_name_arrays(cs@));
        }
        fields.push(("checks".to_owned(), a));
    }
    let ghost before = json_pairs_view(fields@);
    assert(before =~= (if cs@.len() > 0 {
        seq![("checks"@, JsonV::Array(check_name_arrays(cs@)))]
    } else {
        Seq::<(Seq<char>, JsonV)>::empty()
    }));
    match state {
        Some(s) => {
            fields.push(("completion_state".to_owned(), completion_state_to_json(*s)));
            assert(json_pairs_view(fields@) =~= before.push(("completion_state"@, completion_state_json(*s))));
        },
        None => {},
    }
    fields
}

impl<X> SerializeMetadata for (X, Vec<ResponseCheck>, Option<CompletionState>) {
    open spec fn metadata_json(&self) -> Seq<(Seq<char>, JsonV)> {
        checks_and_state_fields(self.1@, self.2)
    }

    fn metadata_fields(&self) -> (r: Vec<(String, JsonValue)>) {
        checks_and_state_to_fields(&self.1, &self.2)
    }
}

/// The JSON form of a plain value: maps and classes become objects of their
/// entries, an enum value becomes its value's name, null becomes null.
pub open spec fn value_json(v: ValueV) -> JsonV
    decreases v,
{
    match v {
        ValueV::String(s) => JsonV::String(s),
        ValueV::Int(i) => JsonV::Int(i),
        ValueV::Float(f) => JsonV::Float(f),
        ValueV::Bool(b) => JsonV::Bool(b),
        ValueV::Mapping(e) => JsonV::Object(obj_from(value_pairs_json(e))),
        ValueV::List(l) => JsonV::Array(value_items_json(l)),
        ValueV::Media(m) => JsonV::Media(m),
        ValueV::Enum(_, x) => JsonV::String(x),
        ValueV::Class(_, e) => JsonV::Object(obj_from(value_pairs_json(e))),
        ValueV::Null => JsonV::Null,
    }
}

/// Keys paired with the JSON forms of their values, in order.
pub open spec fn value_pairs_json(e: Seq<(Seq<char>, ValueV)>) -> Seq<(Seq<char>, JsonV)>
    decreases e,
{
    if e.len() == 0 {
        Seq::empty()
    } else {
        value_pairs_json(e.subrange(0, e.len() - 1)).push((e[e.len() - 1].0, value_json(e[e.len() - 1].1)))
    }
}

/// The JSON forms of a sequence of values, in order.
pub open spec fn value_items_json(l: Seq<ValueV>) -> Seq<JsonV>
    decreases l,
{
    if l.len() == 0 {
        Seq::empty()
    } else {
        value_items_json(l.subrange(0, l.len() - 1)).push(value_json(l[l.len() - 1]))
    }
}

/// `x` alone when there is no metadata member; else an object whose `value`
/// member is `x`, followed by the metadata members.
pub open spec fn with_fields(x: JsonV, fields: Seq<(Seq<char>, JsonV)>) -> JsonV {
    if fields.len() > 0 {
        JsonV::Object(obj_insert_seq(seq![("value"@, x)], fields))
    } else {
        x
    }
}

/// The JSON form of a value with metadata: each node as its plain form, with
/// the members of its metadata added. A map gets them among its entries; a
/// class without metadata members is the object of its fields, else an object
/// with the fields under `value`; any other node is wrapped by `with_fields`.
pub open spec fn meta_json<T: SerializeMetadata>(v: MetaV<T>) -> JsonV
    decreases v,
{
    let fields = meta_of(v).metadata_json();
    match v {
        MetaV::String(s, _) => with_fields(JsonV::String(s), fields),
        MetaV::Int(i, _) => with_fields(JsonV::Int(i), fields),
        MetaV::Float(f, _) => with_fields(JsonV::Float(f), fields),
        MetaV::Bool(b, _) => with_fields(JsonV::Bool(b), fields),
        MetaV::Mapping(e, _) => JsonV::Object(obj_insert_seq(obj_from(meta_pairs_json(e)), fields)),
        MetaV::List(l, _) => with_fields(JsonV::Array(meta_items_json(l)), fields),
        MetaV::Media(m, _) => with_fields(JsonV::Media(m), fields),
        MetaV::Enum(_, x, _) => with_fields(JsonV::String(x), fields),
        MetaV::Class(_, e, _) => if fields.len() == 0 {
            JsonV::Object(obj_insert_seq(obj_from(meta_pairs_json(e)), fields))
        } else {
            JsonV::Object(obj_insert_seq(seq![("value"@, JsonV::Object(obj_from(meta_pairs_json(e))))], fields))
        },
        MetaV::Null(_) => with_fields(JsonV::Null, fields),
    }
}

/// Keys paired with the JSON forms of their values, in order.
pub open spec fn meta_pairs_json<T: SerializeMetadata>(e: Seq<(Seq<char>, MetaV<T>)>) -> Seq<(Seq<char>, JsonV)>
    decreases e,
{
    if e.len() == 0 {
        Seq::empty()
    } else {
        meta_pairs_json(e.subrange(0, e.len() - 1)).push((e[e.len() - 1].0, meta_json(e[e.len() - 1].1)))
    }
}

/// The JSON forms of a sequence of values with metadata, in order.
pub open spec fn meta_items_json<T: SerializeMetadata>(l: Seq<MetaV<T>>) -> Seq<JsonV>
    decreases l,
{
    if l.len() == 0 {
        Seq::empty()
    } else {
        meta_items_json(l.subrange(0, l.len() - 1)).push(meta_json(l[l.len() - 1]))
    }
}

/// `x` alone, or an object of `value: x` and the given members.
pub fn serialize_with_checks(x: JsonValue, fields: Vec<(String, JsonValue)>) -> (r: JsonValue)
    ensures
        r@ == with_fields(x@, json_pairs_view(fields@)),
{
    if fields.len() > 0 {
        let mut o: Vec<(String, JsonValue)> = Vec::new();
        o.push(("value".to_owned(), x));
        proof {
            assert(json_pairs_view(o@) =~= seq![("value"@, x@)]);
        }
        add_checks(&mut o, fields);
        let r = JsonValue::Object(o);
        proof {
            lemma_json_view_shapes(r);
        }
        r
    } else {
        x
    }
}

/// Set the metadata members on an object under construction.
pub fn add_checks(o: &mut Vec<(String, JsonValue)>, fields: Vec<(String, JsonValue)>)
    ensures
        json_pairs_view(final(o)@) == obj_insert_seq(json_pairs_view(old(o)@), json_pairs_view(fields@)),
{
    obj_insert_all_exec(o, fields);
}

impl BamlValue {
    /// The JSON form of this value.
    pub fn to_json(&self) -> (r: JsonValue)
        ensures
            r@ == value_json(self@),
        decreases self, 1nat,
    {
        proof {
            lemma_value_view_shapes(*self);
        }
        match self {
            BamlValue::String(s) => JsonValue::String(s.clone()),
            BamlValue::Int(i) => JsonValue::Int(*i),
            BamlValue::Float(f) => JsonValue::Float(*f),
            BamlValue::Bool(b) => JsonValue::Bool(*b),
            BamlValue::Mapping(m) => {
                let pairs = value_pairs_to_json(self, m);
                let mut o: Vec<(String, JsonValue)> = Vec::new();
                assert(json_pairs_view(o@) =~= Seq::empty());
                obj_insert_all_exec(&mut o, pairs);
                let r = JsonValue::Object(o);
                proof {
                    lemma_json_view_shapes(r);
                }
                r
            },
            BamlValue::List(l) => {
                let mut items: Vec<JsonValue> = Vec::new();
                let mut i: usize = 0;
                while i < l.len()
                    invariant
                        i <= l@.len(),
                        *self == BamlValue::List(*l),
                        json_items_view(items@) == value_items_json(values_view(l@).subrange(0, i as int)),
                    decreases l@.len() - i,
                {
                    proof {
                        assert(decreases_to!(*self => self->List_0));
                        assert(decreases_to!(*l => l@));
                        assert(decreases_to!(l@ => l@[i as int]));
                    }
                    let x = l[i].to_json();
                    items.push(x);
                    proof {
                        let vl = values_view(l@);
                        assert(vl.subrange(0, i + 1).subrange(0, i as int) =~= vl.subrange(0, i as int));
                        assert(json_items_view(items@) =~= value_items_json(vl.subrange(0, i + 1)));
                    }
                    i = i + 1;
                }
                assert(values_view(l@).subrange(0, i as int) =~= values_view(l@));
                let r = JsonValue::Array(items);
                proof {
                    lemma_json_view_shapes(r);
                }
                r
            },
            BamlValue::Media(m) => JsonValue::Media(m.duplicate()),
            BamlValue::Enum(_, v) => JsonValue::String(v.clone()),
            BamlValue::Class(_, m) => {
                let pairs = value_pairs_to_json(self, m);
                let mut o: Vec<(String, JsonValue)> = Vec::new();
                assert(json_pairs_view(o@) =~= Seq::empty());
                obj_insert_all_exec(&mut o, pairs);
                let r = JsonValue::Object(o);
                proof {
                    lemma_json_view_shapes(r);
                }
                r
            },
            BamlValue::Null => JsonValue::Null,
        }
    }
}

fn value_pairs_to_json(owner: &BamlValue, m: &crate::map::BamlMap<BamlValue>) -> (r: Vec<(String, JsonValue)>)
    requires
        *owner == BamlValue::Mapping(*m) || (owner matches BamlValue::Class(_, mm) && mm == *m),
    ensures
        json_pairs_view(r@) == value_pairs_json(entries_view(m.entries@)),
    decreases owner, 0nat,
{
    let mut pairs: Vec<(String, JsonValue)> = Vec::new();
    let mut i: usize = 0;
    while i < m.entries.len()
        invariant
            i <= m.entries@.len(),
            *owner == BamlValue::Mapping(*m) || (owner matches BamlValue::Class(_, mm) && mm == *m),
            json_pairs_view(pairs@) == value_pairs_json(entries_view(m.entries@).subrange(0, i as int)),
        decreases m.entries@.len() - i,
    {
        proof {
            if owner is Mapping {
                assert(decreases_to!(*owner => owner->Mapping_0));
            } else {
                assert(decreases_to!(*owner => owner->Class_1));
            }
            assert(decreases_to!(*m => m.entries));
            assert(decreases_to!(m.entries => m.entries@));
            assert(decreases_to!(m.entries@ => m.entries@[i as int]));
            assert(decreases_to!(m.entries@[i as int] => m.entries@[i as int].1));
        }
        let x = m.entries[i].1.to_json();
        pairs.push((m.entries[i].0.clone(), x));
        proof {
            let ve = entries_view(m.entries@);
            assert(ve.subrange(0, i + 1).subrange(0, i as int) =~= ve.subrange(0, i as int));
            assert(json_pairs_view(pairs@) =~= value_pairs_json(ve.subrange(0, i + 1)));
        }
        i = i + 1;
    }
    assert(entries_view(m.entries@).subrange(0, i as int) =~= entries_view(m.entries@));
    pairs
}

impl<T: SerializeMetadata> BamlValueWithMeta<T> {
    /// The JSON form of this value, with the members of each node's metadata.
    pub fn to_json(&self) -> (r: JsonValue)
        ensures
            r@ == meta_json(self@),
        decreases self, 1nat,
    {
        proof {
            lemma_meta_view_shapes(*self);
        }
        let fields = self.meta().metadata_fields();
        match self {
            BamlValueWithMeta::String(v, _) => serialize_with_checks(JsonValue::String(v.clone()), fields),
            BamlValueWithMeta::Int(v, _) => serialize_with_checks(JsonValue::Int(*v), fields),
            BamlValueWithMeta::Float(v, _) => serialize_with_checks(JsonValue::Float(*v), fields),
            BamlValueWithMeta::Bool(v, _) => serialize_with_checks(JsonValue::Bool(*v), fields),
            BamlValueWithMeta::Mapping(m, _) => {
                let pairs = meta_pairs_to_json(self, m);
                let mut o: Vec<(String, JsonValue)> = Vec::new();
                assert(json_pairs_view(o@) =~= Seq::empty());
                obj_insert_all_exec(&mut o, pairs);
                add_checks(&mut o, fields);
                let r = JsonValue::Object(o);
                proof {
                    lemma_json_view_shapes(r);
                }
                r
            },
            BamlValueWithMeta::List(l, _) => {
                let mut items: Vec<JsonValue> = Vec::new();
                let mut i: usize = 0;
                while i < l.len()
                    invariant
                        i <= l@.len(),
                        *self == BamlValueWithMeta::List(*l, meta_of(self@)),
                        json_items_view(items@) == meta_items_json(metas_view(l@).subrange(0, i as int)),
                    decreases l@.len() - i,
                {
                    proof {
                        assert(decreases_to!(*self => self->List_0));
                        assert(decreases_to!(*l => l@));
                        assert(decreases_to!(l@ => l@[i as int]));
                    }
                    let x = l[i].to_json();
                    items.push(x);
                    proof {
                        let vl = metas_view(l@);
                        assert(vl.subrange(0, i + 1).subrange(0, i as int) =~= vl.subrange(0, i as int));
                        assert(json_items_view(items@) =~= meta_items_json(vl.subrange(0, i + 1)));
                    }
                    i = i + 1;
                }
                assert(metas_view(l@).subrange(0, i as int) =~= metas_view(l@));
                let a = JsonValue::Array(items);
                proof {
                    lemma_json_view_shapes(a);
                }
                serialize_with_checks(a, fields)
            },
            BamlValueWithMeta::Media(v, _) => serialize_with_checks(JsonValue::Media(v.duplicate()), fields),
            BamlValueWithMeta::Enum(_, v, _) => serialize_with_checks(JsonValue::String(v.clone()), fields),
            BamlValueWithMeta::Class(_, m, _) => {
                let pairs = meta_pairs_to_json(self, m);
                let mut o: Vec<(String, JsonValue)> = Vec::new();
                assert(json_pairs_view(o@) =~= Seq::empty());
                obj_insert_all_exec(&mut o, pairs);
                if fields.len() == 0 {
                    add_checks(&mut o, fields);
                    let r = JsonValue::Object(o);
                    proof {
                        lemma_json_view_shapes(r);
                    }
                    r
                } else {
                    let inner = JsonValue::Object(o);
                    proof {
                        lemma_json_view_shapes(inner);
                    }
                    let mut checked: Vec<(String, JsonValue)> = Vec::new();
                    checked.push(("value".to_owned(), inner));
                    assert(json_pairs_view(checked@) =~= seq![("value"@, inner@)]);
                    add_checks(&mut checked, fields);
                    let r = JsonValue::Object(checked);
                    proof {
                        lemma_json_view_shapes(r);
                    }
                    r
                }
            },
            BamlValueWithMeta::Null(_) => serialize_with_checks(JsonValue::Null, fields),
        }
    }
}

fn meta_pairs_to_json<T: SerializeMetadata>(owner: &BamlValueWithMeta<T>, m: &crate::map::BamlMap<BamlValueWithMeta<T>>) -> (r: Vec<(String, JsonValue)>)
    requires
        (owner matches BamlValueWithMeta::Mapping(mm, _) && mm == *m) || (owner matches BamlValueWithMeta::Class(_, mm, _) && mm == *m),
    ensures
        json_pairs_view(r@) == meta_pairs_json(meta_entries_view(m.entries@)),
    decreases owner, 0nat,
{
    let mut pairs: Vec<(String, JsonValue)> = Vec::new();
    let mut i: usize = 0;
    while i < m.entries.len()
        invariant
            i <= m.entries@.len(),
            (owner matches BamlValueWithMeta::Mapping(mm, _) && mm == *m) || (owner matches BamlValueWithMeta::Class(_, mm, _) && mm == *m),
            json_pairs_view(pairs@) == meta_pairs_json(meta_entries_view(m.entries@).subrange(0, i as int)),
        decreases m.entries@.len() - i,
    {
        proof {
            if owner is Mapping {
                assert(decreases_to!(*owner => owner->Mapping_0));
            } else {
                assert(decreases_to!(*owner => owner->Class_1));
            }
            assert(decreases_to!(*m => m.entries));
            assert(decreases_to!(m.entries => m.entries@));
            assert(decreases_to!(m.entries@ => m.entries@[i as int]));
            assert(decreases_to!(m.entries@[i as int] => m.entries@[i as int].1));
        }
        let x = m.entries[i].1.to_json();
        pairs.push((m.entries[i].0.clone(), x));
        proof {
            let ve = meta_entries_view(m.entries@);
            assert(ve.subrange(0, i + 1).subrange(0, i as int) =~= ve.subrange(0, i as int));
            assert(json_pairs_view(pairs@) =~= meta_pairs_json(ve.subrange(0, i + 1)));
        }
        i = i + 1;
    }
    assert(meta_entries_view(m.entries@).subrange(0, i as int) =~= meta_entries_view(m.entries@));
    pairs
}

/// The JSON form of a node without the members of its own metadata: the
/// plain form of a scalar, enum or null; its items' forms for a list; the
/// object of its entries' forms for a map or class.
pub open spec fn bare_json<T: SerializeMetadata>(v: MetaV<T>) -> JsonV {
    match v {
        MetaV::String(s, _) => JsonV::String(s),
        MetaV::Int(i, _) => JsonV::Int(i),
        MetaV::Float(f, _) => JsonV::Float(f),
        MetaV::Bool(b, _) => JsonV::Bool(b),
        MetaV::Mapping(e, _) => JsonV::Object(obj_from(meta_pairs_json(e))),
        MetaV::List(l, _) => JsonV::Array(meta_items_json(l)),
        MetaV::Media(m, _) => JsonV::Media(m),
        MetaV::Enum(_, x, _) => JsonV::String(x),
        MetaV::Class(_, e, _) => JsonV::Object(obj_from(meta_pairs_json(e))),
        MetaV::Null(_) => JsonV::Null,
    }
}

/// The keys of object members.
pub open spec fn member_keys(o: Seq<(Seq<char>, JsonV)>) -> Seq<Seq<char>> {
    Seq::new(o.len(), |j: int| o[j].0)
}

/// Setting members whose keys are new and distinct appends them in order.
pub proof fn lemma_obj_insert_seq_fresh(o: Seq<(Seq<char>, JsonV)>, f: Seq<(Seq<char>, JsonV)>)
    requires
        forall|i: int, j: int| 0 <= i < j < f.len() ==> f[i].0 != f[j].0,
        forall|i: int, j: int| 0 <= i < f.len() && 0 <= j < o.len() ==> f[i].0 != o[j].0,
    ensures
        obj_insert_seq(o, f) == o + f,
    decreases f.len(),
{
    if f.len() > 0 {
        let d = f.drop_last();
        lemma_obj_insert_seq_fresh(o, d);
        let k = f.last().0;
        let cur = o + d;
        let keys = Seq::new(cur.len(), |j: int| cur[j].0);
        lemma_index_of_key(keys, k);
        if keys.contains(k) {
            let j = choose|j: int| 0 <= j < keys.len() && keys[j] == k;
            if j < o.len() {
                assert(f[f.len() - 1].0 != o[j].0);
            } else {
                assert(cur[j] == d[j - o.len()]);
                assert(f[j - o.len()].0 != f[f.len() - 1].0);
            }
        }
        assert(obj_insert(cur, k, f.last().1) == cur.push((k, f.last().1)));
        assert(cur.push(f.last()) =~= o + f);
    } else {
        assert(o + f =~= o);
    }
}

/// Items serialize one by one, in order; entries keep their keys, in order.
pub proof fn lemma_items_and_pairs_json<T: SerializeMetadata>(l: Seq<MetaV<T>>, e: Seq<(Seq<char>, MetaV<T>)>)
    ensures
        meta_items_json(l).len() == l.len(),
        forall|i: int| 0 <= i < l.len() ==> #[trigger] meta_items_json(l)[i] == meta_json(l[i]),
        meta_pairs_json(e).len() == e.len(),
        forall|i: int| 0 <= i < e.len() ==> #[trigger] meta_pairs_json(e)[i] == (e[i].0, meta_json(e[i].1)),
    decreases l.len() + e.len(),
{
    if l.len() > 0 {
        let d = l.subrange(0, l.len() - 1);
        lemma_items_and_pairs_json(d, e);
        assert forall|i: int| 0 <= i < l.len() implies #[trigger] meta_items_json(l)[i] == meta_json(l[i]) by {
            if i < l.len() - 1 {
                assert(d[i] == l[i]);
            }
        }
    } else if e.len() > 0 {
        let d = e.subrange(0, e.len() - 1);
        lemma_items_and_pairs_json(l, d);
        assert forall|i: int| 0 <= i < e.len() implies #[trigger] meta_pairs_json(e)[i] == (e[i].0, meta_json(e[i].1)) by {
            if i < e.len() - 1 {
                assert(d[i] == e[i]);
            }
        }
    }
}

/// How the members of a node's own metadata appear in its JSON form: a map
/// gets them after its entries; any other node (a class too) is its bare
/// form when there are none, and otherwise an object whose `value` member is
/// the bare form, followed by exactly those members, in order (when their
/// keys are distinct and none is `value`).
pub proof fn law_json_members<T: SerializeMetadata>(v: MetaV<T>)
    ensures
        ({
            let f = meta_of(v).metadata_json();
            &&& v is Mapping ==> meta_json(v) == JsonV::Object(obj_insert_seq(bare_json(v)->Object_0, f))
            &&& !(v is Mapping) && f.len() == 0 ==> meta_json(v) == bare_json(v)
            &&& !(v is Mapping) && f.len() > 0 ==> meta_json(v) == JsonV::Object(obj_insert_seq(seq![("value"@, bare_json(v))], f))
            &&& !(v is Mapping) && f.len() > 0
                && (forall|i: int, j: int| 0 <= i < j < f.len() ==> f[i].0 != f[j].0)
                && (forall|i: int| 0 <= i < f.len() ==> f[i].0 != "value"@)
                ==> meta_json(v) == JsonV::Object(seq![("value"@, bare_json(v))] + f)
        }),
{
    let f = meta_of(v).metadata_json();
    if !(v is Mapping) && f.len() > 0 && (forall|i: int, j: int| 0 <= i < j < f.len() ==> f[i].0 != f[j].0)
        && (forall|i: int| 0 <= i < f.len() ==> f[i].0 != "value"@) {
        let o = seq![("value"@, bare_json(v))];
        assert forall|i: int, j: int| 0 <= i < f.len() && 0 <= j < o.len() implies f[i].0 != o[j].0 by {
            assert(j == 0);
        }
        lemma_obj_insert_seq_fresh(o, f);
    }
}

/// With checks as metadata, a node other than a map that has checks
/// serializes as its bare form under `value`, followed by one `checks`
/// member naming each check; without checks it is its bare form.
pub proof fn law_checks_json(v: MetaV<Vec<ResponseCheck>>)
    requires
        !(v is Mapping),
    ensures
        meta_of(v)@.len() > 0 ==> meta_json(v) == JsonV::Object(seq![
            ("value"@, bare_json(v)),
            ("checks"@, JsonV::Object(obj_from(check_pairs(meta_of(v)@)))),
        ]),
        meta_of(v)@.len() == 0 ==> meta_json(v) == bare_json(v),
{
    law_json_members(v);
    let f = meta_of(v).metadata_json();
    if meta_of(v)@.len() > 0 {
        reveal_strlit("checks");
        reveal_strlit("value");
        assert(f.len() == 1);
        assert(f[0].0 != "value"@) by {
            assert(f[0].0[0] != "value"@[0]);
        }
        assert(seq![("value"@, bare_json(v))] + f =~= seq![
            ("value"@, bare_json(v)),
            ("checks"@, JsonV::Object(obj_from(check_pairs(meta_of(v)@)))),
        ]);
    }
}

/// A check is written as an object of its name, expression and status;
/// a completion state as its name.
pub proof fn law_check_and_state_json(c: ResponseCheck, s: CompletionState)
    ensures
        check_json(c) == JsonV::Object(
            seq![
                ("name"@, JsonV::String(c.name@)),
                ("expression"@, JsonV::String(c.expression@)),
                ("status"@, JsonV::String(c.status@)),
            ],
        ),
        completion_state_json(s) == JsonV::String(
            match s {
                CompletionState::Pending => "Pending"@,
                CompletionState::Incomplete => "Incomplete"@,
                CompletionState::Complete => "Complete"@,
            },
        ),
{
}

/// With checks and a completion state as metadata, a node other than a map
/// serializes as its bare form under `value`, followed by a `checks` array
/// of `[name, check]` pairs (one per check, in order) when it has checks,
/// then its `completion_state` when it has one; with neither it is its bare
/// form.
pub proof fn law_checks_and_state_json<X>(v: MetaV<(X, Vec<ResponseCheck>, Option<CompletionState>)>)
    requires
        !(v is Mapping),
    ensures
        ({
            let cs = meta_of(v).1@;
            let st = meta_of(v).2;
            let checks = ("checks"@, JsonV::Array(
                Seq::new(cs.len(), |i: int| JsonV::Array(seq![JsonV::String(cs[i].name@), check_json(cs[i])])),
            ));
            &&& cs.len() == 0 && st is None ==> meta_json(v) == bare_json(v)
            &&& cs.len() > 0 && st is None ==> meta_json(v) == JsonV::Object(seq![("value"@, bare_json(v)), checks])
            &&& cs.len() == 0 && st is Some ==> meta_json(v) == JsonV::Object(
                seq![("value"@, bare_json(v)), ("completion_state"@, completion_state_json(st->Some_0))],
            )
            &&& cs.len() > 0 && st is Some ==> meta_json(v) == JsonV::Object(
                seq![("value"@, bare_json(v)), checks, ("completion_state"@, completion_state_json(st->Some_0))],
            )
        }),
{
    law_json_members(v);
    let cs = meta_of(v).1@;
    let st = meta_of(v).2;
    let f = meta_of(v).metadata_json();
    reveal_strlit("checks");
    reveal_strlit("value");
    reveal_strlit("completion_state");
    let ck = "checks"@;
    let vk = "value"@;
    let sk = "completion_state"@;
    assert(ck[0] != vk[0]);
    assert(sk[0] != vk[0]);
    assert(ck[1] != sk[1]);
    let checks = ("checks"@, JsonV::Array(
        Seq::new(cs.len(), |i: int| JsonV::Array(seq![JsonV::String(cs[i].name@), check_json(cs[i])])),
    ));
    assert(check_name_arrays(cs) =~= Seq::new(
        cs.len(),
        |i: int| JsonV::Array(seq![JsonV::String(cs[i].name@), check_json(cs[i])]),
    ));
    if cs.len() > 0 && st is None {
        assert(f =~= seq![checks]);
        assert(seq![("value"@, bare_json(v))] + f =~= seq![("value"@, bare_json(v)), checks]);
    }
    if cs.len() == 0 && st is Some {
        let sm = ("completion_state"@, completion_state_json(st->Some_0));
        assert(f =~= seq![sm]);
        assert(seq![("value"@, bare_json(v))] + f =~= seq![("value"@, bare_json(v)), sm]);
    }
    if cs.len() > 0 && st is Some {
        let sm = ("completion_state"@, completion_state_json(st->Some_0));
        assert(f =~= seq![checks, sm]);
        assert(f[0].0 != f[1].0);
        assert(seq![("value"@, bare_json(v))] + f =~= seq![("value"@, bare_json(v)), checks, sm]);
    }
    if cs.len() == 0 && st is None {
        assert(f.len() == 0);
    }
}

} // verus!
