use vstd::prelude::*;

use crate::field_type::{meta_of_type, FieldType, StreamingBehavior, TypeValue};
use crate::ir::{Class, IntermediateRepr};
use crate::map::BamlMap;
use crate::strings::{dedup, dedup_strings, string_eq};
use crate::deserializer::{completion_state, has_incomplete, Flag};
use crate::value::{
    lemma_map_meta_functional, lemma_meta_view_shapes, map_meta_spec, meta_entries_view, meta_of, metas_view, strip,
    BamlValueWithMeta,
    CompletionState, MetaV,
};

verus! {

/// Why a streamed value cannot be shown yet.
#[derive(Clone, Copy, Debug, PartialEq, Eq, Structural)]
pub enum StreamingError {
    ExpectedClass,
    IncompleteDoneValue,
}

/// Whether values of a type, whatever its annotations, are only shown once
/// complete: numbers, booleans, media, null, literals and enums are; strings,
/// lists, maps, tuples, classes, unions and optional types are not.
pub open spec fn type_implies_done(t: FieldType) -> bool {
    match t {
        FieldType::Primitive(tv, _) => match tv {
            TypeValue::String => false,
            _ => true,
        },
        FieldType::Optional(_, _) => false,
        FieldType::Literal(_, _) => true,
        FieldType::List(_, _) => false,
        FieldType::Mapping(_, _, _) => false,
        FieldType::Enum(_, _) => true,
        FieldType::Tuple(_, _) => false,
        FieldType::Class(_, _) => false,
        FieldType::Union(_, _) => false,
    }
}

/// Whether values of `t` must be complete before they are shown: by their
/// kind, or because the type is marked `@streaming::done`.
pub fn required_done(t: &FieldType) -> (r: bool)
    ensures
        r == (type_implies_done(*t) || meta_of_type(*t).streaming_behavior.done),
{
    let type_implies = match t {
        FieldType::Primitive(tv, _) => match tv {
            TypeValue::String => false,
            _ => true,
        },
        FieldType::Optional(_, _) => false,
        FieldType::Literal(_, _) => true,
        FieldType::List(_, _) => false,
        FieldType::Mapping(_, _, _) => false,
        FieldType::Enum(_, _) => true,
        FieldType::Tuple(_, _) => false,
        FieldType::Class(_, _) => false,
        FieldType::Union(_, _) => false,
    };
    type_implies || t.meta().streaming_behavior.done
}

/// The streaming behavior annotated on a type.
pub fn streaming_behavior(t: &FieldType) -> (r: StreamingBehavior)
    ensures
        r == meta_of_type(*t).streaming_behavior,
{
    t.meta().streaming_behavior
}

/// Position of the first class named `name`, or -1.
pub open spec fn class_index(classes: Seq<Class>, name: Seq<char>) -> int
    decreases classes.len(),
{
    if classes.len() == 0 {
        -1
    } else if classes.last().name@ == name && class_index(classes.drop_last(), name) < 0 {
        classes.len() - 1
    } else {
        class_index(classes.drop_last(), name)
    }
}

/// The names of the fields marked `@streaming::needed`, in order.
pub open spec fn needed_names(fields: Seq<crate::ir::Field>) -> Seq<Seq<char>>
    decreases fields.len(),
{
    if fields.len() == 0 {
        Seq::empty()
    } else if fields.last().streaming_needed {
        needed_names(fields.drop_last()).push(fields.last().name@)
    } else {
        needed_names(fields.drop_last())
    }
}

/// For a class type, the set of the fields of that class marked
/// `@streaming::needed` (each name once, in field order); an error when the
/// type is not a class or the class is unknown.
pub open spec fn needed_fields_spec(ir: IntermediateRepr, t: FieldType) -> Result<Seq<Seq<char>>, StreamingError> {
    match t {
        FieldType::Class(name, _) => {
            let i = class_index(ir.classes@, name@);
            if i >= 0 {
                Ok(dedup(needed_names(ir.classes@[i].static_fields@)))
            } else {
                Err(StreamingError::ExpectedClass)
            }
        },
        _ => Err(StreamingError::ExpectedClass),
    }
}

proof fn lemma_class_index(classes: Seq<Class>, name: Seq<char>)
    ensures
        -1 <= class_index(classes, name) < classes.len(),
        class_index(classes, name) >= 0 ==> classes[class_index(classes, name)].name@ == name,
        class_index(classes, name) >= 0 ==> forall|j: int| 0 <= j < class_index(classes, name) ==> classes[j].name@ != name,
        class_index(classes, name) < 0 ==> forall|j: int| 0 <= j < classes.len() ==> classes[j].name@ != name,
    decreases classes.len(),
{
    if classes.len() > 0 {
        lemma_class_index(classes.drop_last(), name);
        assert forall|j: int| 0 <= j < classes.len() - 1 implies classes.drop_last()[j] == classes[j] by {}
    }
}

/// The first class of the project with the given name.
pub fn find_class<'a>(ir: &'a IntermediateRepr, name: &String) -> (r: Option<&'a Class>)
    ensures
        match r {
            Some(c) => class_index(ir.classes@, name@) >= 0 && *c == ir.classes@[class_index(ir.classes@, name@)],
            None => class_index(ir.classes@, name@) < 0,
        },
{
    proof {
        lemma_class_index(ir.classes@, name@);
    }
    let mut i: usize = 0;
    while i < ir.classes.len()
        invariant
            i <= ir.classes@.len(),
            forall|j: int| 0 <= j < i ==> ir.classes@[j].name@ != name@,
            -1 <= class_index(ir.classes@, name@) < ir.classes@.len(),
            class_index(ir.classes@, name@) >= 0 ==> ir.classes@[class_index(ir.classes@, name@)].name@ == name@,
            class_index(ir.classes@, name@) >= 0 ==> forall|j: int| 0 <= j < class_index(ir.classes@, name@) ==> ir.classes@[j].name@ != name@,
            class_index(ir.classes@, name@) < 0 ==> forall|j: int| 0 <= j < ir.classes@.len() ==> ir.classes@[j].name@ != name@,
        decreases ir.classes@.len() - i,
    {
        if string_eq(&ir.classes[i].name, name) {
            return Some(&ir.classes[i]);
        }
        i = i + 1;
    }
    None
}

/// The fields of a class type marked `@streaming::needed` (see
/// `needed_fields_spec`).
pub fn needed_fields(ir: &IntermediateRepr, t: &FieldType) -> (r: Result<Vec<String>, StreamingError>)
    ensures
        match r {
            Ok(v) => needed_fields_spec(*ir, *t) == Ok::<Seq<Seq<char>>, StreamingError>(v@.map_values(|s: String| s@)),
            Err(e) => needed_fields_spec(*ir, *t) == Err::<Seq<Seq<char>>, StreamingError>(e),
        },
{
    match t {
        FieldType::Class(class_name, _) => {
            match find_class(ir, class_name) {
                None => Err(StreamingError::ExpectedClass),
                Some(class) => {
                    let fields = &class.static_fields;
                    let mut names: Vec<String> = Vec::new();
                    let mut i: usize = 0;
                    while i < fields.len()
                        invariant
                            i <= fields@.len(),
                            names@.map_values(|s: String| s@) == needed_names(fields@.take(i as int)),
                        decreases fields@.len() - i,
                    {
                        assert(fields@.take(i + 1).drop_last() =~= fields@.take(i as int));
                        if fields[i].streaming_needed {
                            names.push(fields[i].name.clone());
                            assert(names@.map_values(|s: String| s@) =~= needed_names(fields@.take(i as int)).push(fields@[i as int].name@));
                        }
                        i = i + 1;
                    }
                    assert(fields@.take(i as int) =~= fields@);
                    Ok(dedup_strings(names))
                },
            }
        },
        _ => Err(StreamingError::ExpectedClass),
    }
}

/// The completion state to report for a node: its state when its type asks
/// for it (`@streaming::state`), else nothing.
pub open spec fn reported_state<'a>(m: (CompletionState, &'a FieldType)) -> Option<CompletionState> {
    if meta_of_type(*m.1).streaming_behavior.state {
        Some(m.0)
    } else {
        None
    }
}

/// Whether a node must be held back: its type must be complete before it is
/// shown (by its kind, or because it is marked `@streaming::done`) and the
/// node is not complete.
pub open spec fn held_back<'a>(m: (CompletionState, &'a FieldType)) -> bool {
    (type_implies_done(*m.1) || meta_of_type(*m.1).streaming_behavior.done) && m.0 != CompletionState::Complete
}

/// The result of processing a node: an error for a held-back node;
/// otherwise the node with the state its type asks to report as metadata,
/// where a list keeps the items and a map the entries that process without
/// error, each processed; a class node first looks up the fields of its
/// class, failing with that lookup's error, and then keeps its fields as a
/// map does.
pub open spec fn process_spec<'a>(ir: IntermediateRepr, v: MetaV<(CompletionState, &'a FieldType)>) -> Result<MetaV<Option<CompletionState>>, StreamingError>
    decreases v, 1nat,
{
    let m = meta_of(v);
    if held_back(m) {
        Err(StreamingError::IncompleteDoneValue)
    } else {
        let nm = reported_state(m);
        match v {
            MetaV::String(s, _) => Ok(MetaV::String(s, nm)),
            MetaV::Int(i, _) => Ok(MetaV::Int(i, nm)),
            MetaV::Float(f, _) => Ok(MetaV::Float(f, nm)),
            MetaV::Bool(b, _) => Ok(MetaV::Bool(b, nm)),
            MetaV::Media(x, _) => Ok(MetaV::Media(x, nm)),
            MetaV::Enum(n, x, _) => Ok(MetaV::Enum(n, x, nm)),
            MetaV::Null(_) => Ok(MetaV::Null(nm)),
            MetaV::List(items, _) => Ok(MetaV::List(processed_items(ir, items), nm)),
            MetaV::Mapping(e, _) => Ok(MetaV::Mapping(processed_pairs(ir, e), nm)),
            MetaV::Class(n, e, _) => match needed_fields_spec(ir, *m.1) {
                Err(err) => Err(err),
                Ok(_) => Ok(MetaV::Class(n, processed_pairs(ir, e), nm)),
            },
        }
    }
}

/// The items that process without error, processed, in order.
pub open spec fn processed_items<'a>(ir: IntermediateRepr, items: Seq<MetaV<(CompletionState, &'a FieldType)>>) -> Seq<MetaV<Option<CompletionState>>>
    decreases items, 0nat,
{
    if items.len() == 0 {
        Seq::empty()
    } else {
        let rest = processed_items(ir, items.subrange(0, items.len() - 1));
        match process_spec(ir, items[items.len() - 1]) {
            Ok(x) => rest.push(x),
            Err(_) => rest,
        }
    }
}

/// The entries whose values process without error, each value processed,
/// with their keys, in order.
pub open spec fn processed_pairs<'a>(ir: IntermediateRepr, e: Seq<(Seq<char>, MetaV<(CompletionState, &'a FieldType)>)>) -> Seq<(Seq<char>, MetaV<Option<CompletionState>>)>
    decreases e, 0nat,
{
    if e.len() == 0 {
        Seq::empty()
    } else {
        let rest = processed_pairs(ir, e.subrange(0, e.len() - 1));
        match process_spec(ir, e[e.len() - 1].1) {
            Ok(x) => rest.push((e[e.len() - 1].0, x)),
            Err(_) => rest,
        }
    }
}

fn process_entries<'a>(
    ir: &IntermediateRepr,
    Ghost(owner): Ghost<BamlValueWithMeta<(CompletionState, &'a FieldType)>>,
    entries: Vec<(String, BamlValueWithMeta<(CompletionState, &'a FieldType)>)>,
) -> (r: Vec<(String, BamlValueWithMeta<Option<CompletionState>>)>)
    requires
        (owner matches BamlValueWithMeta::Mapping(m, _) && m.entries == entries)
            || (owner matches BamlValueWithMeta::Class(_, m, _) && m.entries == entries),
    ensures
        meta_entries_view(r@) == processed_pairs(*ir, meta_entries_view(entries@)),
    decreases owner, 0nat,
{
    let ghost all = entries@;
    let ghost vall = meta_entries_view(all);
    let mut rest = entries;
    let mut out: Vec<(String, BamlValueWithMeta<Option<CompletionState>>)> = Vec::new();
    let ghost mut n: int = 0;
    assert(meta_entries_view(out@) =~= processed_pairs(*ir, vall.subrange(0, 0)));
    while rest.len() > 0
        invariant
            (owner matches BamlValueWithMeta::Mapping(m, _) && m.entries@ == all)
                || (owner matches BamlValueWithMeta::Class(_, m, _) && m.entries@ == all),
            vall == meta_entries_view(all),
            0 <= n <= all.len(),
            rest@ == all.skip(n),
            meta_entries_view(out@) == processed_pairs(*ir, vall.subrange(0, n)),
        decreases rest@.len(),
    {
        let (k, item) = rest.remove(0);
        proof {
            assert(all.skip(n)[0] == all[n]);
            assert((k, item) == all[n]);
            assert(rest@ =~= all.skip(n + 1));
            if owner is Mapping {
                let m = owner->Mapping_0;
                assert(decreases_to!(owner => m));
                assert(decreases_to!(m => m.entries));
                assert(decreases_to!(m.entries => m.entries@));
                assert(decreases_to!(m.entries@ => m.entries@[n]));
                assert(decreases_to!(m.entries@[n] => m.entries@[n].1));
            } else {
                let m = owner->Class_1;
                assert(decreases_to!(owner => m));
                assert(decreases_to!(m => m.entries));
                assert(decreases_to!(m.entries => m.entries@));
                assert(decreases_to!(m.entries@ => m.entries@[n]));
                assert(decreases_to!(m.entries@[n] => m.entries@[n].1));
            }
            assert(vall[n] == (k@, item@));
            assert(vall.subrange(0, n + 1).subrange(0, n) =~= vall.subrange(0, n));
        }
        let res = process_node(ir, item);
        match res {
            Ok(x) => {
                out.push((k, x));
                proof {
                    assert(meta_entries_view(out@) =~= processed_pairs(*ir, vall.subrange(0, n + 1)));
                }
            },
            Err(_) => {
                proof {
                    assert(meta_entries_view(out@) =~= processed_pairs(*ir, vall.subrange(0, n + 1)));
                }
            },
        }
        proof {
            n = n + 1;
        }
    }
    proof {
        assert(vall.subrange(0, n) =~= vall);
    }
    out
}

/// Check a node's completion state against its type's streaming behavior and
/// attach the state the type asks to report; descend into lists, maps and
/// classes, keeping the children that pass (see `process_spec`).
pub fn process_node<'a>(ir: &IntermediateRepr, value: BamlValueWithMeta<(CompletionState, &'a FieldType)>) -> (r: Result<BamlValueWithMeta<Option<CompletionState>>, StreamingError>)
    ensures
        match r {
            Ok(x) => process_spec(*ir, value@) == Ok::<MetaV<Option<CompletionState>>, StreamingError>(x@),
            Err(e) => process_spec(*ir, value@) == Err::<MetaV<Option<CompletionState>>, StreamingError>(e),
        },
    decreases value, 1nat,
{
    proof {
        lemma_meta_view_shapes(value);
    }
    let (completion_state, field_type) = *value.meta();
    if required_done(field_type) && !(completion_state == CompletionState::Complete) {
        return Err(StreamingError::IncompleteDoneValue);
    }
    let new_meta = if streaming_behavior(field_type).state {
        Some(completion_state)
    } else {
        None
    };
    let ghost orig = value;
    match value {
        BamlValueWithMeta::String(s, _) => Ok(BamlValueWithMeta::String(s, new_meta)),
        BamlValueWithMeta::Int(i, _) => Ok(BamlValueWithMeta::Int(i, new_meta)),
        BamlValueWithMeta::Float(f, _) => Ok(BamlValueWithMeta::Float(f, new_meta)),
        BamlValueWithMeta::Bool(b, _) => Ok(BamlValueWithMeta::Bool(b, new_meta)),
        BamlValueWithMeta::Media(x, _) => Ok(BamlValueWithMeta::Media(x, new_meta)),
        BamlValueWithMeta::Enum(n, x, _) => Ok(BamlValueWithMeta::Enum(n, x, new_meta)),
        BamlValueWithMeta::Null(_) => Ok(BamlValueWithMeta::Null(new_meta)),
        BamlValueWithMeta::Mapping(m, meta) => {
            let ghost e = m.entries@;
            let out = process_entries(ir, Ghost(orig), m.entries);
            let r = BamlValueWithMeta::Mapping(BamlMap { entries: out }, new_meta);
            proof {
                lemma_meta_view_shapes(r);
                assert(orig@ == MetaV::Mapping(meta_entries_view(e), meta));
            }
            Ok(r)
        },
        BamlValueWithMeta::Class(name, m, meta) => {
            match needed_fields(ir, field_type) {
                Err(err) => Err(err),
                Ok(_) => {
                    let ghost e = m.entries@;
                    let out = process_entries(ir, Ghost(orig), m.entries);
                    let r = BamlValueWithMeta::Class(name, BamlMap { entries: out }, new_meta);
                    proof {
                        lemma_meta_view_shapes(r);
                        assert(orig@ == MetaV::Class(name@, meta_entries_view(e), meta));
                    }
                    Ok(r)
                },
            }
        },
        BamlValueWithMeta::List(items, _) => {
            let ghost all = items@;
            let ghost vall = metas_view(all);
            proof {
                assert(orig@ == MetaV::List(vall, meta_of(orig@)));
            }
            let mut rest = items;
            let mut out: Vec<BamlValueWithMeta<Option<CompletionState>>> = Vec::new();
            let ghost mut n: int = 0;
            while rest.len() > 0
                invariant
                    orig matches BamlValueWithMeta::List(l, _) && l@ == all,
                    orig == value,
                    vall == metas_view(all),
                    0 <= n <= all.len(),
                    rest@ == all.skip(n),
                    metas_view(out@) == processed_items(*ir, vall.subrange(0, n)),
                decreases rest@.len(),
            {
                let item = rest.remove(0);
                proof {
                    assert(all.skip(n)[0] == all[n]);
                    assert(item == all[n]);
                    assert(rest@ =~= all.skip(n + 1));
                    let l = orig->List_0;
                    assert(decreases_to!(orig => orig->List_0));
                    assert(decreases_to!(l => l@));
                    assert(decreases_to!(l@ => l@[n]));
                    assert(vall[n] == item@);
                    assert(vall.subrange(0, n + 1).subrange(0, n) =~= vall.subrange(0, n));
                }
                let res = process_node(ir, item);
                match res {
                    Ok(x) => {
                        out.push(x);
                        proof {
                            assert(metas_view(out@) =~= processed_items(*ir, vall.subrange(0, n + 1)));
                        }
                    },
                    Err(_) => {
                        proof {
                            assert(metas_view(out@) =~= processed_items(*ir, vall.subrange(0, n + 1)));
                        }
                    },
                }
                proof {
                    n = n + 1;
                }
            }
            proof {
                assert(vall.subrange(0, n) =~= vall);
            }
            let r = BamlValueWithMeta::List(out, new_meta);
            proof {
                lemma_meta_view_shapes(r);
            }
            Ok(r)
        },
    }
}

/// A node's completion state, from its parser flags, beside its type.
pub open spec fn state_of<'a>(m: (Vec<Flag>, &'a FieldType)) -> (CompletionState, &'a FieldType) {
    (
        if has_incomplete(m.0@) {
            CompletionState::Incomplete
        } else {
            CompletionState::Complete
        },
        m.1,
    )
}

/// Each node's completion state, from its flags, beside its type.
pub open spec fn states_view<'a>(v: MetaV<(Vec<Flag>, &'a FieldType)>) -> MetaV<(CompletionState, &'a FieldType)> {
    map_meta_spec(v, |m: (Vec<Flag>, &'a FieldType)| state_of(m))
}

fn node_state<'a>(m: &(Vec<Flag>, &'a FieldType)) -> (r: (CompletionState, &'a FieldType))
    ensures
        r == state_of(*m),
{
    (completion_state(&m.0), m.1)
}

/// Check a parsed value whose nodes carry their flags and their types
/// against the streaming behavior of those types: each node's completion
/// state is read off its flags, then the value is processed (see
/// `process_spec`).
pub fn validate_streaming_state<'a>(
    ir: &IntermediateRepr,
    typed: &BamlValueWithMeta<(Vec<Flag>, &'a FieldType)>,
) -> (r: Result<BamlValueWithMeta<Option<CompletionState>>, StreamingError>)
    ensures
        match r {
            Ok(x) => process_spec(*ir, states_view(typed@)) == Ok::<MetaV<Option<CompletionState>>, StreamingError>(x@),
            Err(e) => process_spec(*ir, states_view(typed@)) == Err::<MetaV<Option<CompletionState>>, StreamingError>(e),
        },
{
    let f = node_state;
    let with_states = typed.map_meta(f);
    proof {
        let g = |m: (Vec<Flag>, &'a FieldType)| state_of(m);
        lemma_map_meta_functional(typed@, with_states@, f, g);
    }
    process_node(ir, with_states)
}

/// The kinds of type whose values are shown only once complete, whatever
/// their annotations: every primitive but `string` (int, float, bool, media,
/// null), literals and enums.
pub open spec fn complete_only_kind(t: FieldType) -> bool {
    ||| (t matches FieldType::Primitive(tv, _) && tv != TypeValue::String)
    ||| t is Literal
    ||| t is Enum
}

/// Which types hold back incomplete values: exactly the complete-only kinds
/// (every primitive but string, literals, enums) and the types marked
/// `@streaming::done`. Processing a node whose state is not `Complete` and
/// whose type is such a type fails with `IncompleteDoneValue`, whatever the
/// node; a string node of a type without the mark is shown, with its state
/// when the type asks for it.
pub proof fn law_required_done<'a>(ir: IntermediateRepr, v: MetaV<(CompletionState, &'a FieldType)>)
    ensures
        type_implies_done(*meta_of(v).1) <==> complete_only_kind(*meta_of(v).1),
        (complete_only_kind(*meta_of(v).1) || meta_of_type(*meta_of(v).1).streaming_behavior.done)
            && meta_of(v).0 != CompletionState::Complete
            ==> process_spec(ir, v) == Err::<MetaV<Option<CompletionState>>, StreamingError>(StreamingError::IncompleteDoneValue),
        (v matches MetaV::String(s, m) && m.1 is Primitive && m.1->Primitive_0 == TypeValue::String
            && !meta_of_type(*m.1).streaming_behavior.done)
            ==> process_spec(ir, v) == Ok::<MetaV<Option<CompletionState>>, StreamingError>(MetaV::String(
                v->String_0,
                if meta_of_type(*meta_of(v).1).streaming_behavior.state { Some(meta_of(v).0) } else { None },
            )),
        (complete_only_kind(*meta_of(v).1) || meta_of_type(*meta_of(v).1).streaming_behavior.done)
            && meta_of(v).0 == CompletionState::Complete && v is Int
            ==> process_spec(ir, v) is Ok,
{
}

/// The items of a list that process without error, each processed, in
/// order.
pub open spec fn kept_items<'a>(
    ir: IntermediateRepr,
    items: Seq<MetaV<(CompletionState, &'a FieldType)>>,
) -> Seq<MetaV<Option<CompletionState>>> {
    items.filter(|x: MetaV<(CompletionState, &'a FieldType)>| process_spec(ir, x) is Ok).map_values(
        |x: MetaV<(CompletionState, &'a FieldType)>| process_spec(ir, x)->Ok_0,
    )
}

/// The entries of a map or class whose values process without error, each
/// value processed under its key, in order.
pub open spec fn kept_pairs<'a>(
    ir: IntermediateRepr,
    e: Seq<(Seq<char>, MetaV<(CompletionState, &'a FieldType)>)>,
) -> Seq<(Seq<char>, MetaV<Option<CompletionState>>)> {
    e.filter(|p: (Seq<char>, MetaV<(CompletionState, &'a FieldType)>)| process_spec(ir, p.1) is Ok).map_values(
        |p: (Seq<char>, MetaV<(CompletionState, &'a FieldType)>)| (p.0, process_spec(ir, p.1)->Ok_0),
    )
}

proof fn lemma_processed_items<'a>(ir: IntermediateRepr, items: Seq<MetaV<(CompletionState, &'a FieldType)>>)
    ensures
        processed_items(ir, items) == kept_items(ir, items),
    decreases items.len(),
{
    reveal(Seq::filter);
    if items.len() > 0 {
        let init = items.subrange(0, items.len() - 1);
        assert(init =~= items.drop_last());
        lemma_processed_items(ir, init);
        let f = |x: MetaV<(CompletionState, &'a FieldType)>| process_spec(ir, x) is Ok;
        let g = |x: MetaV<(CompletionState, &'a FieldType)>| process_spec(ir, x)->Ok_0;
        assert(items.filter(f) == if f(items.last()) {
            init.filter(f).push(items.last())
        } else {
            init.filter(f)
        });
        if f(items.last()) {
            assert(init.filter(f).push(items.last()).map_values(g) =~= init.filter(f).map_values(g).push(
                g(items.last()),
            ));
        }
    }
}

proof fn lemma_processed_pairs<'a>(ir: IntermediateRepr, e: Seq<(Seq<char>, MetaV<(CompletionState, &'a FieldType)>)>)
    ensures
        processed_pairs(ir, e) == kept_pairs(ir, e),
    decreases e.len(),
{
    reveal(Seq::filter);
    if e.len() > 0 {
        let init = e.subrange(0, e.len() - 1);
        assert(init =~= e.drop_last());
        lemma_processed_pairs(ir, init);
        let f = |p: (Seq<char>, MetaV<(CompletionState, &'a FieldType)>)| process_spec(ir, p.1) is Ok;
        let g = |p: (Seq<char>, MetaV<(CompletionState, &'a FieldType)>)| (p.0, process_spec(ir, p.1)->Ok_0);
        assert(e.filter(f) == if f(e.last()) {
            init.filter(f).push(e.last())
        } else {
            init.filter(f)
        });
        if f(e.last()) {
            assert(init.filter(f).push(e.last()).map_values(g) =~= init.filter(f).map_values(g).push(g(e.last())));
        }
    }
}

/// What processing gives back for a node that is not held back: it
/// succeeds (a class node once its class's fields are found), its metadata
/// is the node's state when its type asks to report it and nothing
/// otherwise; a scalar keeps its contents; a list keeps exactly the items
/// that process without error and a map (or class) exactly the entries whose
/// values do, each processed, in their order.
pub proof fn law_process_results<'a>(ir: IntermediateRepr, v: MetaV<(CompletionState, &'a FieldType)>)
    ensures
        !((complete_only_kind(*meta_of(v).1) || meta_of_type(*meta_of(v).1).streaming_behavior.done)
            && meta_of(v).0 != CompletionState::Complete) && !(v is Class) ==> process_spec(ir, v) is Ok,
        process_spec(ir, v) is Ok ==> meta_of(process_spec(ir, v)->Ok_0) == (if meta_of_type(
            *meta_of(v).1,
        ).streaming_behavior.state {
            Some(meta_of(v).0)
        } else {
            None
        }),
        process_spec(ir, v) is Ok && !(v is List || v is Mapping || v is Class) ==> strip(process_spec(ir, v)->Ok_0)
            == strip(v),
        process_spec(ir, v) is Ok && v is List ==> process_spec(ir, v)->Ok_0 is List
            && process_spec(ir, v)->Ok_0->List_0 == kept_items(ir, v->List_0),
        process_spec(ir, v) is Ok && v is Mapping ==> process_spec(ir, v)->Ok_0 is Mapping
            && process_spec(ir, v)->Ok_0->Mapping_0 == kept_pairs(ir, v->Mapping_0),
        process_spec(ir, v) is Ok && v is Class ==> process_spec(ir, v)->Ok_0 is Class
            && process_spec(ir, v)->Ok_0->Class_0 == v->Class_0
            && process_spec(ir, v)->Ok_0->Class_1 == kept_pairs(ir, v->Class_1),
{
    law_required_done(ir, v);
    match v {
        MetaV::List(items, _) => lemma_processed_items(ir, items),
        MetaV::Mapping(e, _) => lemma_processed_pairs(ir, e),
        MetaV::Class(_, e, _) => lemma_processed_pairs(ir, e),
        _ => {},
    }
}

proof fn lemma_needed_names(fields: Seq<crate::ir::Field>)
    ensures
        forall|x: Seq<char>| needed_names(fields).contains(x) <==> exists|j: int|
            0 <= j < fields.len() && (#[trigger] fields[j]).streaming_needed && fields[j].name@ == x,
    decreases fields.len(),
{
    if fields.len() > 0 {
        let init = fields.drop_last();
        lemma_needed_names(init);
        assert forall|x: Seq<char>| needed_names(fields).contains(x) <==> exists|j: int|
            0 <= j < fields.len() && (#[trigger] fields[j]).streaming_needed && fields[j].name@ == x by {
            if needed_names(fields).contains(x) {
                if needed_names(init).contains(x) {
                    let j = choose|j: int| 0 <= j < init.len() && (#[trigger] init[j]).streaming_needed && init[j].name@ == x;
                    assert(fields[j] == init[j]);
                } else {
                    let k = choose|k: int| 0 <= k < needed_names(fields).len() && needed_names(fields)[k] == x;
                    assert(fields.last().streaming_needed);
                    assert(x == fields.last().name@);
                    assert(fields[fields.len() - 1] == fields.last());
                }
            }
            if exists|j: int| 0 <= j < fields.len() && (#[trigger] fields[j]).streaming_needed && fields[j].name@ == x {
                let j = choose|j: int| 0 <= j < fields.len() && (#[trigger] fields[j]).streaming_needed && fields[j].name@ == x;
                if j < fields.len() - 1 {
                    assert(init[j] == fields[j]);
                    assert(needed_names(init).contains(x));
                    let k = choose|k: int| 0 <= k < needed_names(init).len() && needed_names(init)[k] == x;
                    if fields.last().streaming_needed {
                        assert(needed_names(fields)[k] == x);
                    }
                } else {
                    assert(needed_names(fields).last() == x);
                }
            }
        }
    }
}

/// The needed fields of a type: for a class that the project defines (the
/// first class of that name), each name of its fields marked
/// `@streaming::needed`, exactly once, and nothing else; for an unknown class
/// or a type that is not a class, `ExpectedClass`.
pub proof fn law_needed_fields(ir: IntermediateRepr, t: FieldType)
    ensures
        !(t is Class) ==> needed_fields_spec(ir, t) == Err::<Seq<Seq<char>>, StreamingError>(StreamingError::ExpectedClass),
        needed_fields_spec(ir, t) is Err ==> needed_fields_spec(ir, t) == Err::<Seq<Seq<char>>, StreamingError>(
            StreamingError::ExpectedClass,
        ),
        t is Class ==> (needed_fields_spec(ir, t) is Ok <==> exists|i: int|
            0 <= i < ir.classes@.len() && (#[trigger] ir.classes@[i]).name@ == t->Class_0@),
        needed_fields_spec(ir, t) is Ok ==> exists|i: int| {
            &&& 0 <= i < ir.classes@.len()
            &&& (#[trigger] ir.classes@[i]).name@ == t->Class_0@
            &&& forall|j: int| 0 <= j < i ==> ir.classes@[j].name@ != t->Class_0@
            &&& forall|x: Seq<char>| (needed_fields_spec(ir, t)->Ok_0).contains(x) <==> exists|k: int|
                0 <= k < ir.classes@[i].static_fields@.len() && (#[trigger] ir.classes@[i].static_fields@[k]).streaming_needed
                    && ir.classes@[i].static_fields@[k].name@ == x
        },
        needed_fields_spec(ir, t) is Ok ==> forall|a: int, b: int|
            0 <= a < b < (needed_fields_spec(ir, t)->Ok_0).len() ==> (needed_fields_spec(ir, t)->Ok_0)[a] != (
            needed_fields_spec(ir, t)->Ok_0)[b],
{
    if t is Class {
        let name = t->Class_0@;
        lemma_class_index(ir.classes@, name);
        let i = class_index(ir.classes@, name);
        if i >= 0 {
            let fields = ir.classes@[i].static_fields@;
            lemma_needed_names(fields);
            crate::strings::lemma_dedup(needed_names(fields));
            assert(ir.classes@[i].name@ == name);
            let r = needed_fields_spec(ir, t)->Ok_0;
            assert(r == dedup(needed_names(fields)));
            assert forall|x: Seq<char>| r.contains(x) <==> exists|k: int|
                0 <= k < fields.len() && (#[trigger] fields[k]).streaming_needed && fields[k].name@ == x by {
                assert(r.contains(x) <==> needed_names(fields).contains(x));
            }
            assert(forall|j: int| 0 <= j < i ==> ir.classes@[j].name@ != name);
        } else {
            assert forall|j: int| 0 <= j < ir.classes@.len() implies (#[trigger] ir.classes@[j]).name@ != name by {}
        }
    }
}

} // verus!
