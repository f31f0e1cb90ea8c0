use vstd::prelude::*;
use vstd::string::StringExecFns;

use crate::ir::{type_text, Class, Enum, FieldType, Function, FunctionArgs, IntermediateRepr, TypeValue};
use crate::json::{
    json_items_view, json_pairs_view, lemma_json_view_shapes, obj_from, obj_insert, obj_insert_all_exec,
    obj_insert_exec, JsonV, JsonValue,
};
use crate::strings::concat3;

verus! {

/// The JSON-schema type name of a primitive other than `char`.
pub open spec fn json_type_name(p: TypeValue) -> Seq<char> {
    match p {
        TypeValue::Char => "string"@,
        TypeValue::String => "string"@,
        TypeValue::Int => "integer"@,
        TypeValue::Float => "number"@,
        TypeValue::Bool => "boolean"@,
        TypeValue::Null => "null"@,
    }
}

/// `res` with a `title` member set, when it is an object.
pub open spec fn titled(res: JsonV, title: Seq<char>) -> JsonV {
    match res {
        JsonV::Object(o) => JsonV::Object(obj_insert(o, "title"@, JsonV::String(title))),
        _ => res,
    }
}

/// The member `k` of an object, or null.
pub open spec fn member(v: JsonV, k: Seq<char>) -> JsonV {
    match v {
        JsonV::Object(o) => {
            let i = crate::map::index_of_key(Seq::new(o.len(), |j: int| o[j].0), k);
            if i >= 0 {
                o[i].1
            } else {
                JsonV::Null
            }
        },
        _ => JsonV::Null,
    }
}

/// `v` with its member `k` set to `x`, when it is an object.
pub open spec fn set_member(v: JsonV, k: Seq<char>, x: JsonV) -> JsonV {
    match v {
        JsonV::Object(o) => JsonV::Object(obj_insert(o, k, x)),
        _ => v,
    }
}

/// The JSON schema of a type: classes and enums refer to their definitions,
/// a union is `anyOf` its members' schemas (each titled with the member's
/// text), an optional primitive allows `null` in its `type`, any other
/// optional type is `anyOf` its schema and `null`; an optional type's
/// default is null.
pub open spec fn schema_of(t: FieldType) -> JsonV
    decreases t, 1nat,
{
    match t {
        FieldType::Class(name) => JsonV::Object(seq![("$ref"@, JsonV::String("#/definitions/"@ + name@))]),
        FieldType::Enum(name) => JsonV::Object(seq![("$ref"@, JsonV::String("#/definitions/"@ + name@))]),
        FieldType::Primitive(p) => match p {
            TypeValue::Char => JsonV::Object(seq![("type"@, JsonV::String("string"@)), ("maxLength"@, JsonV::Int(1))]),
            _ => JsonV::Object(seq![("type"@, JsonV::String(json_type_name(p)))]),
        },
        FieldType::List(item) => JsonV::Object(seq![("type"@, JsonV::String("array"@)), ("items"@, schema_of(*item))]),
        FieldType::Mapping(_, v) => JsonV::Object(
            seq![("type"@, JsonV::String("object"@)), ("additionalProperties"@, JsonV::Object(seq![("type"@, schema_of(*v))]))],
        ),
        FieldType::Union(options) => JsonV::Object(seq![("anyOf"@, JsonV::Array(union_members(options@)))]),
        FieldType::Tuple(options) => JsonV::Object(
            seq![("type"@, JsonV::String("array"@)), ("prefixItems"@, JsonV::Array(schemas_of(options@)))],
        ),
        FieldType::Optional(inner) => match *inner {
            FieldType::Primitive(_) => {
                let res = schema_of(*inner);
                let res = set_member(res, "type"@, JsonV::Array(seq![member(res, "type"@), JsonV::String("null"@)]));
                set_member(res, "default"@, JsonV::Null)
            },
            _ => JsonV::Object(
                seq![
                    ("anyOf"@, JsonV::Array(seq![
                        titled(schema_of(*inner), type_text(*inner)),
                        JsonV::Object(seq![("type"@, JsonV::String("null"@)), ("title"@, JsonV::String("null"@))]),
                    ])),
                    ("default"@, JsonV::Null),
                ],
            ),
        },
    }
}

/// The schemas of union members, each titled with the member's text.
pub open spec fn union_members(s: Seq<FieldType>) -> Seq<JsonV>
    decreases s, 0nat,
{
    if s.len() == 0 {
        Seq::empty()
    } else {
        union_members(s.subrange(0, s.len() - 1)).push(titled(schema_of(s[s.len() - 1]), type_text(s[s.len() - 1])))
    }
}

/// The schemas of a sequence of types, in order.
pub open spec fn schemas_of(s: Seq<FieldType>) -> Seq<JsonV>
    decreases s, 0nat,
{
    if s.len() == 0 {
        Seq::empty()
    } else {
        schemas_of(s.subrange(0, s.len() - 1)).push(schema_of(s[s.len() - 1]))
    }
}

fn str_json(s: &str) -> (r: JsonValue)
    ensures
        r@ == JsonV::String(s@),
{
    JsonValue::String(s.to_owned())
}

fn object1(k: &str, v: JsonValue) -> (r: JsonValue)
    ensures
        r@ == JsonV::Object(seq![(k@, v@)]),
{
    let mut o: Vec<(String, JsonValue)> = Vec::new();
    o.push((k.to_owned(), v));
    let r = JsonValue::Object(o);
    proof {
        lemma_json_view_shapes(r);
        assert(json_pairs_view(o@) =~= seq![(k@, v@)]);
    }
    r
}

fn object2(k1: &str, v1: JsonValue, k2: &str, v2: JsonValue) -> (r: JsonValue)
    ensures
        r@ == JsonV::Object(seq![(k1@, v1@), (k2@, v2@)]),
{
    let mut o: Vec<(String, JsonValue)> = Vec::new();
    o.push((k1.to_owned(), v1));
    o.push((k2.to_owned(), v2));
    let r = JsonValue::Object(o);
    proof {
        lemma_json_view_shapes(r);
        assert(json_pairs_view(o@) =~= seq![(k1@, v1@), (k2@, v2@)]);
    }
    r
}

fn array2(a: JsonValue, b: JsonValue) -> (r: JsonValue)
    ensures
        r@ == JsonV::Array(seq![a@, b@]),
{
    let mut v: Vec<JsonValue> = Vec::new();
    v.push(a);
    v.push(b);
    let r = JsonValue::Array(v);
    proof {
        lemma_json_view_shapes(r);
        assert(json_items_view(v@) =~= seq![a@, b@]);
    }
    r
}

/// Set the `title` member of `res` to `title` when it is an object.
fn add_title(res: JsonValue, title: String) -> (r: JsonValue)
    ensures
        r@ == titled(res@, title@),
{
    proof {
        lemma_json_view_shapes(res);
    }
    match res {
        JsonValue::Object(mut o) => {
            obj_insert_exec(&mut o, "title".to_owned(), JsonValue::String(title));
            let r = JsonValue::Object(o);
            proof {
                lemma_json_view_shapes(r);
            }
            r
        },
        other => other,
    }
}

/// The member `k` of `v` taken out (null when absent) and `v` without it
/// changed otherwise.
fn take_member(v: &JsonValue, k: &str) -> (r: JsonValue)
    ensures
        r@ == member(v@, k@),
{
    proof {
        lemma_json_view_shapes(*v);
    }
    match v {
        JsonValue::Object(o) => {
            let key = k.to_owned();
            match crate::map::find_key(o, &key) {
                Some(i) => {
                    proof {
                        crate::map::lemma_index_of_key(crate::map::keys_of(o@), key@);
                        let pv = json_pairs_view(o@);
                        assert(crate::map::keys_of(o@) =~= Seq::new(pv.len(), |j: int| pv[j].0));
                    }
                    copy_json(&o[i].1)
                },
                None => {
                    proof {
                        let pv = json_pairs_view(o@);
                        assert(crate::map::keys_of(o@) =~= Seq::new(pv.len(), |j: int| pv[j].0));
                    }
                    JsonValue::Null
                },
            }
        },
        _ => JsonValue::Null,
    }
}

/// A copy of a JSON value.
pub fn copy_json(v: &JsonValue) -> (r: JsonValue)
    ensures
        r@ == v@,
    decreases v,
{
    proof {
        lemma_json_view_shapes(*v);
    }
    match v {
        JsonValue::Null => JsonValue::Null,
        JsonValue::Bool(b) => JsonValue::Bool(*b),
        JsonValue::Int(i) => JsonValue::Int(*i),
        JsonValue::Float(f) => JsonValue::Float(*f),
        JsonValue::String(s) => JsonValue::String(s.clone()),
        JsonValue::Array(a) => {
            let mut out: Vec<JsonValue> = Vec::new();
            let mut i: usize = 0;
            while i < a.len()
                invariant
                    i <= a@.len(),
                    *v == JsonValue::Array(*a),
                    out@.len() == i,
                    forall|j: int| 0 <= j < i ==> (#[trigger] out@[j])@ == a@[j]@,
                decreases a@.len() - i,
            {
                proof {
                    assert(decreases_to!(*v => v->Array_0));
                    assert(decreases_to!(*a => a@));
                    assert(decreases_to!(a@ => a@[i as int]));
                }
                out.push(copy_json(&a[i]));
                i = i + 1;
            }
            let r = JsonValue::Array(out);
            proof {
                lemma_json_view_shapes(r);
                assert(json_items_view(out@) =~= json_items_view(a@));
            }
            r
        },
        JsonValue::Object(o) => {
            let mut out: Vec<(String, JsonValue)> = Vec::new();
            let mut i: usize = 0;
            while i < o.len()
                invariant
                    i <= o@.len(),
                    *v == JsonValue::Object(*o),
                    out@.len() == i,
                    forall|j: int| 0 <= j < i ==> (#[trigger] out@[j]).0@ == o@[j].0@ && out@[j].1@ == o@[j].1@,
                decreases o@.len() - i,
            {
                proof {
                    assert(decreases_to!(*v => v->Object_0));
                    assert(decreases_to!(*o => o@));
                    assert(decreases_to!(o@ => o@[i as int]));
                    assert(decreases_to!(o@[i as int] => o@[i as int].1));
                }
                out.push((o[i].0.clone(), copy_json(&o[i].1)));
                i = i + 1;
            }
            let r = JsonValue::Object(out);
            proof {
                lemma_json_view_shapes(r);
                assert(json_pairs_view(out@) =~= json_pairs_view(o@));
            }
            r
        },
        JsonValue::Media(m) => JsonValue::Media(m.duplicate()),
    }
}

/// Set member `k` of `v` to `x`, when `v` is an object.
fn put_member(v: JsonValue, k: &str, x: JsonValue) -> (r: JsonValue)
    ensures
        r@ == set_member(v@, k@, x@),
{
    proof {
        lemma_json_view_shapes(v);
    }
    match v {
        JsonValue::Object(mut o) => {
            obj_insert_exec(&mut o, k.to_owned(), x);
            let r = JsonValue::Object(o);
            proof {
                lemma_json_view_shapes(r);
            }
            r
        },
        other => other,
    }
}

fn ref_schema(name: &String) -> (r: JsonValue)
    ensures
        r@ == JsonV::Object(seq![("$ref"@, JsonV::String("#/definitions/"@ + name@))]),
{
    let mut target = "#/definitions/".to_owned();
    target.append(name.as_str());
    object1("$ref", JsonValue::String(target))
}

/// The JSON schema of a type (see `schema_of`).
pub fn field_type_schema(t: &FieldType) -> (r: JsonValue)
    ensures
        r@ == schema_of(*t),
    decreases t,
{
    match t {
        FieldType::Class(name) => ref_schema(name),
        FieldType::Enum(name) => ref_schema(name),
        FieldType::Primitive(p) => match p {
            TypeValue::Char => object2("type", str_json("string"), "maxLength", JsonValue::Int(1)),
            TypeValue::String => object1("type", str_json("string")),
            TypeValue::Int => object1("type", str_json("integer")),
            TypeValue::Float => object1("type", str_json("number")),
            TypeValue::Bool => object1("type", str_json("boolean")),
            TypeValue::Null => object1("type", str_json("null")),
        },
        FieldType::List(item) => object2("type", str_json("array"), "items", field_type_schema(item)),
        FieldType::Mapping(_k, v) => object2(
            "type",
            str_json("object"),
            "additionalProperties",
            object1("type", field_type_schema(v)),
        ),
        FieldType::Union(options) => {
            let mut items: Vec<JsonValue> = Vec::new();
            let mut i: usize = 0;
            while i < options.len()
                invariant
                    i <= options@.len(),
                    *t == FieldType::Union(*options),
                    json_items_view(items@) == union_members(options@.subrange(0, i as int)),
                decreases options@.len() - i,
            {
                proof {
                    assert(decreases_to!(*t => t->Union_0));
                    assert(decreases_to!(*options => options@));
                    assert(decreases_to!(options@ => options@[i as int]));
                }
                let res = field_type_schema(&options[i]);
                let titled_res = add_title(res, options[i].to_text());
                items.push(titled_res);
                proof {
                    assert(options@.subrange(0, i + 1).subrange(0, i as int) =~= options@.subrange(0, i as int));
                    assert(json_items_view(items@) =~= union_members(options@.subrange(0, i + 1)));
                }
                i = i + 1;
            }
            assert(options@.subrange(0, i as int) =~= options@);
            let a = JsonValue::Array(items);
            proof {
                lemma_json_view_shapes(a);
            }
            object1("anyOf", a)
        },
        FieldType::Tuple(options) => {
            let mut items: Vec<JsonValue> = Vec::new();
            let mut i: usize = 0;
            while i < options.len()
                invariant
                    i <= options@.len(),
                    *t == FieldType::Tuple(*options),
                    json_items_view(items@) == schemas_of(options@.subrange(0, i as int)),
                decreases options@.len() - i,
            {
                proof {
                    assert(decreases_to!(*t => t->Tuple_0));
                    assert(decreases_to!(*options => options@));
                    assert(decreases_to!(options@ => options@[i as int]));
                }
                let res = field_type_schema(&options[i]);
                items.push(res);
                proof {
                    assert(options@.subrange(0, i + 1).subrange(0, i as int) =~= options@.subrange(0, i as int));
                    assert(json_items_view(items@) =~= schemas_of(options@.subrange(0, i + 1)));
                }
                i = i + 1;
            }
            assert(options@.subrange(0, i as int) =~= options@);
            let a = JsonValue::Array(items);
            proof {
                lemma_json_view_shapes(a);
            }
            object2("type", str_json("array"), "prefixItems", a)
        },
        FieldType::Optional(inner) => {
            match &**inner {
                FieldType::Primitive(_) => {
                    let res = field_type_schema(inner);
                    let current = take_member(&res, "type");
                    let res = put_member(res, "type", array2(current, str_json("null")));
                    put_member(res, "default", JsonValue::Null)
                },
                _ => {
                    let res = field_type_schema(inner);
                    let res = add_title(res, inner.to_text());
                    let null_schema = object2("type", str_json("null"), "title", str_json("null"));
                    object2("anyOf", array2(res, null_schema), "default", JsonValue::Null)
                },
            }
        },
    }
}

/// Something with a JSON schema.
pub trait WithJsonSchema {
    /// The schema.
    spec fn schema(&self) -> JsonV;

    /// The schema, computed.
    fn json_schema(&self) -> (r: JsonValue)
        ensures
            r@ == self.schema(),
    ;
}

impl WithJsonSchema for FieldType {
    open spec fn schema(&self) -> JsonV {
        schema_of(*self)
    }

    fn json_schema(&self) -> (r: JsonValue) {
        field_type_schema(self)
    }
}

/// Each named argument paired with its schema, in order.
pub open spec fn arg_props(args: Seq<(String, FieldType)>) -> Seq<(Seq<char>, JsonV)> {
    Seq::new(args.len(), |i: int| (args[i].0@, schema_of(args[i].1)))
}

/// The names of the arguments whose type is optional, in order.
pub open spec fn optional_arg_names(args: Seq<(String, FieldType)>) -> Seq<JsonV>
    decreases args.len(),
{
    if args.len() == 0 {
        Seq::empty()
    } else {
        let rest = optional_arg_names(args.drop_last());
        if args.last().1 is Optional {
            rest.push(JsonV::String(args.last().0@))
        } else {
            rest
        }
    }
}

/// The schema of function arguments: an unnamed argument's type schema, or
/// an object with a property per named argument and, under `required`, the
/// names of the arguments whose type is optional.
pub open spec fn args_schema(a: FunctionArgs) -> JsonV {
    match a {
        FunctionArgs::UnnamedArg(t) => schema_of(t),
        FunctionArgs::NamedArgList(args) => JsonV::Object(
            seq![
                ("type"@, JsonV::String("object"@)),
                ("properties"@, JsonV::Object(obj_from(arg_props(args@)))),
                ("required"@, JsonV::Array(optional_arg_names(args@))),
            ],
        ),
    }
}

fn object3(k1: &str, v1: JsonValue, k2: &str, v2: JsonValue, k3: &str, v3: JsonValue) -> (r: JsonValue)
    ensures
        r@ == JsonV::Object(seq![(k1@, v1@), (k2@, v2@), (k3@, v3@)]),
{
    let mut o: Vec<(String, JsonValue)> = Vec::new();
    o.push((k1.to_owned(), v1));
    o.push((k2.to_owned(), v2));
    o.push((k3.to_owned(), v3));
    let r = JsonValue::Object(o);
    proof {
        lemma_json_view_shapes(r);
        assert(json_pairs_view(o@) =~= seq![(k1@, v1@), (k2@, v2@), (k3@, v3@)]);
    }
    r
}

fn object4(k1: &str, v1: JsonValue, k2: &str, v2: JsonValue, k3: &str, v3: JsonValue, k4: &str, v4: JsonValue) -> (r: JsonValue)
    ensures
        r@ == JsonV::Object(seq![(k1@, v1@), (k2@, v2@), (k3@, v3@), (k4@, v4@)]),
{
    let mut o: Vec<(String, JsonValue)> = Vec::new();
    o.push((k1.to_owned(), v1));
    o.push((k2.to_owned(), v2));
    o.push((k3.to_owned(), v3));
    o.push((k4.to_owned(), v4));
    let r = JsonValue::Object(o);
    proof {
        lemma_json_view_shapes(r);
        assert(json_pairs_view(o@) =~= seq![(k1@, v1@), (k2@, v2@), (k3@, v3@), (k4@, v4@)]);
    }
    r
}

impl WithJsonSchema for FunctionArgs {
    open spec fn schema(&self) -> JsonV {
        args_schema(*self)
    }

    fn json_schema(&self) -> (r: JsonValue) {
        match self {
            FunctionArgs::UnnamedArg(t) => field_type_schema(t),
            FunctionArgs::NamedArgList(args) => {
                let mut props: Vec<(String, JsonValue)> = Vec::new();
                let mut required: Vec<JsonValue> = Vec::new();
                let mut i: usize = 0;
                while i < args.len()
                    invariant
                        i <= args@.len(),
                        props@.len() == i,
                        forall|j: int| 0 <= j < i ==> (#[trigger] props@[j]).0@ == args@[j].0@ && props@[j].1@ == schema_of(args@[j].1),
                        json_items_view(required@) == optional_arg_names(args@.take(i as int)),
                    decreases args@.len() - i,
                {
                    props.push((args[i].0.clone(), field_type_schema(&args[i].1)));
                    let ghost before = json_items_view(required@);
                    match &args[i].1 {
                        FieldType::Optional(_) => {
                            required.push(JsonValue::String(args[i].0.clone()));
                            assert(json_items_view(required@) =~= before.push(JsonV::String(args@[i as int].0@)));
                        },
                        _ => {},
                    }
                    assert(args@.take(i + 1).drop_last() =~= args@.take(i as int));
                    i = i + 1;
                }
                assert(args@.take(i as int) =~= args@);
                assert(json_pairs_view(props@) =~= arg_props(args@));
                let mut properties: Vec<(String, JsonValue)> = Vec::new();
                assert(json_pairs_view(properties@) =~= Seq::empty());
                obj_insert_all_exec(&mut properties, props);
                let p = JsonValue::Object(properties);
                let q = JsonValue::Array(required);
                proof {
                    lemma_json_view_shapes(p);
                    lemma_json_view_shapes(q);
                }
                object3("type", str_json("object"), "properties", p, "required", q)
            },
        }
    }
}

/// Each value of an enum as a `const` schema, in order.
pub open spec fn enum_consts(values: Seq<String>) -> Seq<JsonV> {
    Seq::new(values.len(), |i: int| JsonV::Object(seq![("const"@, JsonV::String(values[i]@))]))
}

/// The schema of an enum: its name as title and its values.
pub open spec fn enum_schema(e: Enum) -> JsonV {
    JsonV::Object(seq![("title"@, JsonV::String(e.name@)), ("enum"@, JsonV::Array(enum_consts(e.values@)))])
}

impl WithJsonSchema for Enum {
    open spec fn schema(&self) -> JsonV {
        enum_schema(*self)
    }

    fn json_schema(&self) -> (r: JsonValue) {
        let mut consts: Vec<JsonValue> = Vec::new();
        let mut i: usize = 0;
        while i < self.values.len()
            invariant
                i <= self.values@.len(),
                consts@.len() == i,
                forall|j: int| 0 <= j < i ==> (#[trigger] consts@[j])@ == enum_consts(self.values@)[j],
            decreases self.values@.len() - i,
        {
            consts.push(object1("const", JsonValue::String(self.values[i].clone())));
            i = i + 1;
        }
        let a = JsonValue::Array(consts);
        proof {
            lemma_json_view_shapes(a);
            assert(json_items_view(consts@) =~= enum_consts(self.values@));
        }
        object2("title", JsonValue::String(self.name.clone()), "enum", a)
    }
}

/// Each field of a class paired with the schema of its type, in order.
pub open spec fn field_props(fields: Seq<crate::ir::Field>) -> Seq<(Seq<char>, JsonV)> {
    Seq::new(fields.len(), |i: int| (fields[i].name@, schema_of(fields[i].field_type)))
}

/// The names of the fields whose type is not optional, in order.
pub open spec fn required_field_names(fields: Seq<crate::ir::Field>) -> Seq<JsonV>
    decreases fields.len(),
{
    if fields.len() == 0 {
        Seq::empty()
    } else {
        let rest = required_field_names(fields.drop_last());
        if fields.last().field_type is Optional {
            rest
        } else {
            rest.push(JsonV::String(fields.last().name@))
        }
    }
}

/// The schema of a class: its name as title, an object type with a property
/// per field, and the fields that are not optional as `required`.
pub open spec fn class_schema(c: Class) -> JsonV {
    JsonV::Object(
        seq![
            ("title"@, JsonV::String(c.name@)),
            ("type"@, JsonV::String("object"@)),
            ("properties"@, JsonV::Object(obj_from(field_props(c.static_fields@)))),
            ("required"@, JsonV::Array(required_field_names(c.static_fields@))),
        ],
    )
}

impl WithJsonSchema for Class {
    open spec fn schema(&self) -> JsonV {
        class_schema(*self)
    }

    fn json_schema(&self) -> (r: JsonValue) {
        let fields = &self.static_fields;
        let mut props: Vec<(String, JsonValue)> = Vec::new();
        let mut required: Vec<JsonValue> = Vec::new();
        let mut i: usize = 0;
        while i < fields.len()
            invariant
                i <= fields@.len(),
                props@.len() == i,
                forall|j: int| 0 <= j < i ==> (#[trigger] props@[j]).0@ == fields@[j].name@ && props@[j].1@ == schema_of(fields@[j].field_type),
                json_items_view(required@) == required_field_names(fields@.take(i as int)),
            decreases fields@.len() - i,
        {
            props.push((fields[i].name.clone(), field_type_schema(&fields[i].field_type)));
            let ghost before = json_items_view(required@);
            match &fields[i].field_type {
                FieldType::Optional(_) => {},
                _ => {
                    required.push(JsonValue::String(fields[i].name.clone()));
                    assert(json_items_view(required@) =~= before.push(JsonV::String(fields@[i as int].name@)));
                },
            }
            assert(fields@.take(i + 1).drop_last() =~= fields@.take(i as int));
            i = i + 1;
        }
        assert(fields@.take(i as int) =~= fields@);
        assert(json_pairs_view(props@) =~= field_props(fields@));
        let mut properties: Vec<(String, JsonValue)> = Vec::new();
        assert(json_pairs_view(properties@) =~= Seq::empty());
        obj_insert_all_exec(&mut properties, props);
        let p = JsonValue::Object(properties);
        let q = JsonValue::Array(required);
        proof {
            lemma_json_view_shapes(p);
            lemma_json_view_shapes(q);
        }
        object4("title", JsonValue::String(self.name.clone()), "type", str_json("object"), "properties", p, "required", q)
    }
}

/// The schema of a function's input (its arguments) or output (its output
/// type), titled `<name> input` or `<name> output` when it is an object.
pub open spec fn function_schema(f: Function, is_input: bool) -> JsonV {
    let res = if is_input {
        args_schema(f.inputs)
    } else {
        schema_of(f.output)
    };
    titled(res, f.name@ + " "@ + if is_input { "input"@ } else { "output"@ })
}

impl<'a> WithJsonSchema for (&'a Function, bool) {
    open spec fn schema(&self) -> JsonV {
        function_schema(*self.0, self.1)
    }

    fn json_schema(&self) -> (r: JsonValue) {
        let (f, is_input) = *self;
        let res = if is_input {
            f.inputs.json_schema()
        } else {
            field_type_schema(&f.output)
        };
        let title = if is_input {
            concat3(f.name.as_str(), " ", "input")
        } else {
            concat3(f.name.as_str(), " ", "output")
        };
        add_title(res, title)
    }
}

/// The definitions of a project: each enum and class under its name, then
/// each function's input under `<name>_input` and output under
/// `<name>_output`; a later definition replaces an earlier one of the same
/// name.
pub open spec fn definitions(ir: IntermediateRepr) -> Seq<(Seq<char>, JsonV)> {
    obj_from(enum_defs(ir) + class_defs(ir) + input_defs(ir) + output_defs(ir))
}

/// Each enum under its name.
pub open spec fn enum_defs(ir: IntermediateRepr) -> Seq<(Seq<char>, JsonV)> {
    Seq::new(ir.enums@.len(), |i: int| (ir.enums@[i].name@, enum_schema(ir.enums@[i])))
}

/// Each class under its name.
pub open spec fn class_defs(ir: IntermediateRepr) -> Seq<(Seq<char>, JsonV)> {
    Seq::new(ir.classes@.len(), |i: int| (ir.classes@[i].name@, class_schema(ir.classes@[i])))
}

/// Each function's input schema under `<name>_input`.
pub open spec fn input_defs(ir: IntermediateRepr) -> Seq<(Seq<char>, JsonV)> {
    Seq::new(ir.functions@.len(), |i: int| (ir.functions@[i].name@ + "_input"@, function_schema(ir.functions@[i], true)))
}

/// Each function's output schema under `<name>_output`.
pub open spec fn output_defs(ir: IntermediateRepr) -> Seq<(Seq<char>, JsonV)> {
    Seq::new(ir.functions@.len(), |i: int| (ir.functions@[i].name@ + "_output"@, function_schema(ir.functions@[i], false)))
}

impl WithJsonSchema for IntermediateRepr {
    open spec fn schema(&self) -> JsonV {
        JsonV::Object(seq![("definitions"@, JsonV::Object(definitions(*self)))])
    }

    fn json_schema(&self) -> (r: JsonValue) {
        let mut defs: Vec<(String, JsonValue)> = Vec::new();
        let mut i: usize = 0;
        while i < self.enums.len()
            invariant
                i <= self.enums@.len(),
                defs@.len() == i,
                forall|j: int| 0 <= j < i ==> (#[trigger] defs@[j]).0@ == self.enums@[j].name@ && defs@[j].1@ == enum_schema(self.enums@[j]),
            decreases self.enums@.len() - i,
        {
            defs.push((self.enums[i].name.clone(), self.enums[i].json_schema()));
            i = i + 1;
        }
        let ne = self.enums.len();
        let mut i: usize = 0;
        while i < self.classes.len()
            invariant
                i <= self.classes@.len(),
                ne == self.enums@.len(),
                defs@.len() == ne + i,
                forall|j: int| 0 <= j < ne ==> (#[trigger] defs@[j]).0@ == self.enums@[j].name@ && defs@[j].1@ == enum_schema(self.enums@[j]),
                forall|j: int| 0 <= j < i ==> (#[trigger] defs@[ne + j]).0@ == self.classes@[j].name@ && defs@[ne + j].1@ == class_schema(self.classes@[j]),
            decreases self.classes@.len() - i,
        {
            defs.push((self.classes[i].name.clone(), self.classes[i].json_schema()));
            i = i + 1;
        }
        let nc = self.classes.len();
        let mut i: usize = 0;
        while i < self.functions.len()
            invariant
                i <= self.functions@.len(),
                ne == self.enums@.len(),
                nc == self.classes@.len(),
                defs@.len() == ne + nc + i,
                forall|j: int| 0 <= j < ne ==> (#[trigger] defs@[j]).0@ == self.enums@[j].name@ && defs@[j].1@ == enum_schema(self.enums@[j]),
                forall|j: int| 0 <= j < nc ==> (#[trigger] defs@[ne + j]).0@ == self.classes@[j].name@ && defs@[ne + j].1@ == class_schema(self.classes@[j]),
                forall|j: int| 0 <= j < i ==> (#[trigger] defs@[ne + nc + j]).0@ == self.functions@[j].name@ + "_input"@ && defs@[ne + nc + j].1@ == function_schema(self.functions@[j], true),
            decreases self.functions@.len() - i,
        {
            let f = &self.functions[i];
            let mut name = f.name.clone();
            name.append("_input");
            defs.push((name, (f, true).json_schema()));
            i = i + 1;
        }
        let nf = self.functions.len();
        let mut i: usize = 0;
        while i < self.functions.len()
            invariant
                i <= self.functions@.len(),
                ne == self.enums@.len(),
                nc == self.classes@.len(),
                nf == self.functions@.len(),
                defs@.len() == ne + nc + nf + i,
                forall|j: int| 0 <= j < ne ==> (#[trigger] defs@[j]).0@ == self.enums@[j].name@ && defs@[j].1@ == enum_schema(self.enums@[j]),
                forall|j: int| 0 <= j < nc ==> (#[trigger] defs@[ne + j]).0@ == self.classes@[j].name@ && defs@[ne + j].1@ == class_schema(self.classes@[j]),
                forall|j: int| 0 <= j < nf ==> (#[trigger] defs@[ne + nc + j]).0@ == self.functions@[j].name@ + "_input"@ && defs@[ne + nc + j].1@ == function_schema(self.functions@[j], true),
                forall|j: int| 0 <= j < i ==> (#[trigger] defs@[ne + nc + nf + j]).0@ == self.functions@[j].name@ + "_output"@ && defs@[ne + nc + nf + j].1@ == function_schema(self.functions@[j], false),
            decreases self.functions@.len() - i,
        {
            let f = &self.functions[i];
            let mut name = f.name.clone();
            name.append("_output");
            defs.push((name, (f, false).json_schema()));
            i = i + 1;
        }
        proof {
            let ir = *self;
            let all = enum_defs(ir) + class_defs(ir) + input_defs(ir) + output_defs(ir);
            let pv = json_pairs_view(defs@);
            assert(pv.len() == all.len());
            assert forall|j: int| 0 <= j < pv.len() implies pv[j] == all[j] by {
                if j < ne {
                    assert(all[j] == enum_defs(ir)[j]);
                } else if j < ne + nc {
                    assert(all[j] == class_defs(ir)[j - ne]);
                    assert(defs@[ne + (j - ne)] == defs@[j]);
                } else if j < ne + nc + nf {
                    assert(all[j] == input_defs(ir)[j - ne - nc]);
                    assert(defs@[ne + nc + (j - ne - nc)] == defs@[j]);
                } else {
                    assert(all[j] == output_defs(ir)[j - ne - nc - nf]);
                    assert(defs@[ne + nc + nf + (j - ne - nc - nf)] == defs@[j]);
                }
            }
            assert(pv =~= all);
        }
        let mut o: Vec<(String, JsonValue)> = Vec::new();
        assert(json_pairs_view(o@) =~= Seq::empty());
        obj_insert_all_exec(&mut o, defs);
        let d = JsonValue::Object(o);
        proof {
            lemma_json_view_shapes(d);
        }
        object1("definitions", d)
    }
}

/// `schemas_of` keeps one schema per type, in order.
pub proof fn lemma_schemas_of(s: Seq<FieldType>)
    ensures
        schemas_of(s).len() == s.len(),
        forall|i: int| 0 <= i < s.len() ==> #[trigger] schemas_of(s)[i] == schema_of(s[i]),
    decreases s.len(),
{
    if s.len() > 0 {
        let d = s.subrange(0, s.len() - 1);
        lemma_schemas_of(d);
        assert forall|i: int| 0 <= i < s.len() implies #[trigger] schemas_of(s)[i] == schema_of(s[i]) by {
            if i < s.len() - 1 {
                assert(d[i] == s[i]);
            }
        }
    }
}

/// `union_members` keeps one titled schema per type, in order.
pub proof fn lemma_union_members(s: Seq<FieldType>)
    ensures
        union_members(s).len() == s.len(),
        forall|i: int| 0 <= i < s.len() ==> #[trigger] union_members(s)[i] == titled(schema_of(s[i]), type_text(s[i])),
    decreases s.len(),
{
    if s.len() > 0 {
        let d = s.subrange(0, s.len() - 1);
        lemma_union_members(d);
        assert forall|i: int| 0 <= i < s.len() implies #[trigger] union_members(s)[i] == titled(schema_of(s[i]), type_text(s[i])) by {
            if i < s.len() - 1 {
                assert(d[i] == s[i]);
            }
        }
    }
}

/// The schema of a tuple is an array type whose `prefixItems` hold, in
/// member order, one schema per member: the i-th is the i-th member's schema.
pub proof fn law_tuple_schema(options: Vec<FieldType>)
    ensures
        ({
            let o = schema_of(FieldType::Tuple(options))->Object_0;
            &&& schema_of(FieldType::Tuple(options)) is Object
            &&& o.len() == 2
            &&& o[0] == ("type"@, JsonV::String("array"@))
            &&& o[1].0 == "prefixItems"@
            &&& o[1].1 is Array
            &&& o[1].1->Array_0.len() == options@.len()
            &&& forall|i: int| 0 <= i < options@.len() ==> #[trigger] o[1].1->Array_0[i] == schema_of(options@[i])
        }),
{
    lemma_schemas_of(options@);
}

/// The schema of a union is `anyOf` one schema per member, in member order:
/// the i-th is the i-th member's schema, titled with that member's text when
/// it is an object.
pub proof fn law_union_schema(options: Vec<FieldType>)
    ensures
        ({
            let o = schema_of(FieldType::Union(options))->Object_0;
            &&& schema_of(FieldType::Union(options)) is Object
            &&& o.len() == 1
            &&& o[0].0 == "anyOf"@
            &&& o[0].1 is Array
            &&& o[0].1->Array_0.len() == options@.len()
            &&& forall|i: int| 0 <= i < options@.len() ==> #[trigger] o[0].1->Array_0[i] == titled(schema_of(options@[i]), type_text(options@[i]))
        }),
{
    lemma_union_members(options@);
}

/// The schema of a list is an array type whose `items` is the element
/// type's schema; a class or enum refers to its definition by name.
pub proof fn law_list_and_reference_schemas(inner: FieldType, name: String)
    ensures
        schema_of(FieldType::List(Box::new(inner))) == JsonV::Object(seq![("type"@, JsonV::String("array"@)), ("items"@, schema_of(inner))]),
        schema_of(FieldType::Class(name)) == JsonV::Object(seq![("$ref"@, JsonV::String("#/definitions/"@ + name@))]),
        schema_of(FieldType::Enum(name)) == JsonV::Object(seq![("$ref"@, JsonV::String("#/definitions/"@ + name@))]),
{
}

/// The schema of a primitive names its JSON type: `integer` for an int,
/// `number` for a float, `boolean`, `string`, `null`; a char is a string of
/// at most one character.
pub proof fn law_primitive_schemas()
    ensures
        schema_of(FieldType::Primitive(TypeValue::Int)) == JsonV::Object(seq![("type"@, JsonV::String("integer"@))]),
        schema_of(FieldType::Primitive(TypeValue::Float)) == JsonV::Object(seq![("type"@, JsonV::String("number"@))]),
        schema_of(FieldType::Primitive(TypeValue::Bool)) == JsonV::Object(seq![("type"@, JsonV::String("boolean"@))]),
        schema_of(FieldType::Primitive(TypeValue::String)) == JsonV::Object(seq![("type"@, JsonV::String("string"@))]),
        schema_of(FieldType::Primitive(TypeValue::Null)) == JsonV::Object(seq![("type"@, JsonV::String("null"@))]),
        schema_of(FieldType::Primitive(TypeValue::Char)) == JsonV::Object(
            seq![("type"@, JsonV::String("string"@)), ("maxLength"@, JsonV::Int(1))],
        ),
{
}

/// The schema of a map is an object type whose `additionalProperties` give
/// the value type's schema; an optional primitive keeps its own schema with
/// `null` added beside its `type` and a null default; any other optional
/// type is `anyOf` its own schema (titled with its text) and a null schema,
/// with a null default.
pub proof fn law_map_and_optional_schemas(key: FieldType, value: FieldType, p: TypeValue, inner: FieldType)
    ensures
        schema_of(FieldType::Mapping(Box::new(key), Box::new(value))) == JsonV::Object(
            seq![
                ("type"@, JsonV::String("object"@)),
                ("additionalProperties"@, JsonV::Object(seq![("type"@, schema_of(value))])),
            ],
        ),
        p != TypeValue::Char ==> schema_of(FieldType::Optional(Box::new(FieldType::Primitive(p)))) == JsonV::Object(
            seq![
                ("type"@, JsonV::Array(seq![schema_of(FieldType::Primitive(p))->Object_0[0].1, JsonV::String("null"@)])),
                ("default"@, JsonV::Null),
            ],
        ),
        schema_of(FieldType::Optional(Box::new(FieldType::Primitive(TypeValue::Char)))) == JsonV::Object(
            seq![
                ("type"@, JsonV::Array(seq![JsonV::String("string"@), JsonV::String("null"@)])),
                ("maxLength"@, JsonV::Int(1)),
                ("default"@, JsonV::Null),
            ],
        ),
        !(inner is Primitive) ==> schema_of(FieldType::Optional(Box::new(inner))) == JsonV::Object(
            seq![
                ("anyOf"@, JsonV::Array(seq![
                    titled(schema_of(inner), type_text(inner)),
                    JsonV::Object(seq![("type"@, JsonV::String("null"@)), ("title"@, JsonV::String("null"@))]),
                ])),
                ("default"@, JsonV::Null),
            ],
        ),
{
    reveal_strlit("type");
    reveal_strlit("default");
    reveal_strlit("maxLength");
    let tk = "type"@;
    let dk = "default"@;
    let mk = "maxLength"@;
    assert(tk[0] != dk[0]);
    assert(mk[0] != dk[0]);
    assert(tk[0] != mk[0]);
    reveal_with_fuel(crate::map::index_of_key, 3);
    if p != TypeValue::Char {
        let res = schema_of(FieldType::Primitive(p));
        let o = res->Object_0;
        assert(Seq::new(o.len(), |j: int| o[j].0) =~= seq![tk]);
        assert(crate::map::index_of_key(seq![tk], tk) == 0);
        let o2 = o.update(0, (tk, JsonV::Array(seq![o[0].1, JsonV::String("null"@)])));
        assert(Seq::new(o2.len(), |j: int| o2[j].0) =~= seq![tk]);
        assert(seq![tk].drop_first() =~= Seq::<Seq<char>>::empty());
        assert(crate::map::index_of_key(seq![tk], dk) == -1);
        assert(member(res, tk) == o[0].1);
        assert(set_member(res, tk, JsonV::Array(seq![member(res, tk), JsonV::String("null"@)])) == JsonV::Object(o2));
        assert(o2.push((dk, JsonV::Null)) =~= seq![
            (tk, JsonV::Array(seq![o[0].1, JsonV::String("null"@)])),
            (dk, JsonV::Null),
        ]);
    }
    {
        let o = seq![(tk, JsonV::String("string"@)), (mk, JsonV::Int(1))];
        assert(Seq::new(o.len(), |j: int| o[j].0) =~= seq![tk, mk]);
        assert(crate::map::index_of_key(seq![tk, mk], tk) == 0);
        let o2 = o.update(0, (tk, JsonV::Array(seq![JsonV::String("string"@), JsonV::String("null"@)])));
        assert(Seq::new(o2.len(), |j: int| o2[j].0) =~= seq![tk, mk]);
        assert(seq![tk, mk].drop_first() =~= seq![mk]);
        assert(seq![mk].drop_first() =~= Seq::<Seq<char>>::empty());
        assert(crate::map::index_of_key(seq![tk, mk], dk) == -1);
        let res = schema_of(FieldType::Primitive(TypeValue::Char));
        assert(res == JsonV::Object(o));
        assert(member(res, tk) == JsonV::String("string"@));
        assert(set_member(res, tk, JsonV::Array(seq![member(res, tk), JsonV::String("null"@)])) == JsonV::Object(o2));
        assert(o2.push((dk, JsonV::Null)) =~= seq![
            (tk, JsonV::Array(seq![JsonV::String("string"@), JsonV::String("null"@)])),
            (mk, JsonV::Int(1)),
            (dk, JsonV::Null),
        ]);
    }
}

} // verus!
