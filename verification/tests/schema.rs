use baml_engine::ir::{
    to_python, Class, Enum, Field, FieldType, Function, FunctionArgs, IntermediateRepr, TypeValue,
};
use baml_engine::json::JsonValue;
use baml_engine::python::{PythonClient, PythonFunction};
use baml_engine::schema::WithJsonSchema;

fn to_serde(v: &JsonValue) -> serde_json::Value {
    match v {
        JsonValue::Null => serde_json::Value::Null,
        JsonValue::Bool(b) => serde_json::Value::Bool(*b),
        JsonValue::Int(i) => serde_json::Value::from(*i),
        JsonValue::Float(bits) => serde_json::Number::from_f64(f64::from_bits(*bits))
            .map(serde_json::Value::Number)
            .unwrap_or(serde_json::Value::Null),
        JsonValue::String(s) => serde_json::Value::String(s.clone()),
        JsonValue::Array(items) => serde_json::Value::Array(items.iter().map(to_serde).collect()),
        JsonValue::Object(members) => {
            let mut m = serde_json::Map::new();
            for (k, x) in members {
                m.insert(k.clone(), to_serde(x));
            }
            serde_json::Value::Object(m)
        }
        JsonValue::Media(_) => serde_json::Value::Null,
    }
}

fn obj(pairs: Vec<(&str, serde_json::Value)>) -> serde_json::Value {
    let mut m = serde_json::Map::new();
    for (k, v) in pairs {
        m.insert(k.to_string(), v);
    }
    serde_json::Value::Object(m)
}

fn st(x: &str) -> serde_json::Value {
    serde_json::Value::String(x.to_string())
}

fn prim(t: TypeValue) -> FieldType {
    FieldType::Primitive(t)
}

fn schema(t: &FieldType) -> serde_json::Value {
    to_serde(&t.json_schema())
}

#[test]
fn type_text_of_each_kind() {
    assert_eq!(prim(TypeValue::Char).to_text(), "char");
    assert_eq!(prim(TypeValue::Null).to_text(), "null");
    assert_eq!(FieldType::Class("Person".to_string()).to_text(), "Person");
    let u = FieldType::Union(vec![prim(TypeValue::Int), prim(TypeValue::String)]);
    assert_eq!(u.to_text(), "(int | string)");
    let t = FieldType::Tuple(vec![prim(TypeValue::Bool), prim(TypeValue::Float)]);
    assert_eq!(t.to_text(), "(bool, float)");
    let m = FieldType::Mapping(Box::new(prim(TypeValue::String)), Box::new(prim(TypeValue::Int)));
    assert_eq!(m.to_text(), "map<string, int>");
    let l = FieldType::List(Box::new(FieldType::Optional(Box::new(FieldType::Enum("E".to_string())))));
    assert_eq!(l.to_text(), "E?[]");
}

#[test]
fn python_type_references() {
    assert_eq!(to_python(TypeValue::String), "str");
    assert_eq!(to_python(TypeValue::Null), "None");
    assert_eq!(FieldType::Class("Person".to_string()).to_type_reference(), "types.Person");
    let l = FieldType::List(Box::new(prim(TypeValue::Int)));
    assert_eq!(l.to_type_reference(), "List[int]");
    let m = FieldType::Mapping(Box::new(prim(TypeValue::String)), Box::new(prim(TypeValue::Float)));
    assert_eq!(m.to_type_reference(), "Dict[str, float]");
    let u = FieldType::Union(vec![prim(TypeValue::Bool), FieldType::Enum("E".to_string())]);
    assert_eq!(u.to_type_reference(), "Union[bool, types.E]");
    let t = FieldType::Tuple(vec![prim(TypeValue::Int), prim(TypeValue::Int)]);
    assert_eq!(t.to_type_reference(), "Tuple[int, int]");
    let o = FieldType::Optional(Box::new(prim(TypeValue::String)));
    assert_eq!(o.to_type_reference(), "Optional[str]");
}

#[test]
fn primitive_and_reference_schemas() {
    assert_eq!(schema(&prim(TypeValue::Int)), obj(vec![("type", st("integer"))]));
    assert_eq!(
        schema(&prim(TypeValue::Char)),
        obj(vec![("type", st("string")), ("maxLength", serde_json::Value::from(1))])
    );
    assert_eq!(
        schema(&FieldType::Enum("Color".to_string())),
        obj(vec![("$ref", st("#/definitions/Color"))])
    );
}

#[test]
fn list_map_tuple_schemas() {
    let l = FieldType::List(Box::new(prim(TypeValue::Bool)));
    assert_eq!(
        schema(&l),
        obj(vec![("type", st("array")), ("items", obj(vec![("type", st("boolean"))]))])
    );
    let m = FieldType::Mapping(Box::new(prim(TypeValue::String)), Box::new(prim(TypeValue::Float)));
    assert_eq!(
        schema(&m),
        obj(vec![
            ("type", st("object")),
            (
                "additionalProperties",
                obj(vec![("type", obj(vec![("type", st("number"))]))]),
            ),
        ])
    );
    let t = FieldType::Tuple(vec![prim(TypeValue::Null)]);
    assert_eq!(
        schema(&t),
        obj(vec![
            ("type", st("array")),
            ("prefixItems", serde_json::Value::Array(vec![obj(vec![("type", st("null"))])])),
        ])
    );
}

#[test]
fn union_members_are_titled() {
    let u = FieldType::Union(vec![prim(TypeValue::Int), FieldType::Class("A".to_string())]);
    assert_eq!(
        schema(&u),
        obj(vec![(
            "anyOf",
            serde_json::Value::Array(vec![
                obj(vec![("type", st("integer")), ("title", st("int"))]),
                obj(vec![("$ref", st("#/definitions/A")), ("title", st("A"))]),
            ]),
        )])
    );
}

#[test]
fn optional_schemas() {
    let o = FieldType::Optional(Box::new(prim(TypeValue::String)));
    assert_eq!(
        schema(&o),
        obj(vec![
            ("type", serde_json::Value::Array(vec![st("string"), st("null")])),
            ("default", serde_json::Value::Null),
        ])
    );
    let o = FieldType::Optional(Box::new(FieldType::Class("A".to_string())));
    assert_eq!(
        schema(&o),
        obj(vec![
            (
                "anyOf",
                serde_json::Value::Array(vec![
                    obj(vec![("$ref", st("#/definitions/A")), ("title", st("A"))]),
                    obj(vec![("type", st("null")), ("title", st("null"))]),
                ]),
            ),
            ("default", serde_json::Value::Null),
        ])
    );
}

fn field(name: &str, t: FieldType) -> Field {
    Field { name: name.to_string(), field_type: t, streaming_needed: false }
}

#[test]
fn class_and_enum_schemas() {
    let c = Class {
        name: "Person".to_string(),
        static_fields: vec![
            field("name", prim(TypeValue::String)),
            field("age", FieldType::Optional(Box::new(prim(TypeValue::Int)))),
        ],
    };
    let expected = obj(vec![
        ("title", st("Person")),
        ("type", st("object")),
        (
            "properties",
            obj(vec![
                ("name", obj(vec![("type", st("string"))])),
                (
                    "age",
                    obj(vec![
                        ("type", serde_json::Value::Array(vec![st("integer"), st("null")])),
                        ("default", serde_json::Value::Null),
                    ]),
                ),
            ]),
        ),
        ("required", serde_json::Value::Array(vec![st("name")])),
    ]);
    assert_eq!(to_serde(&c.json_schema()), expected);
    let e = Enum { name: "Color".to_string(), values: vec!["Red".to_string(), "Blue".to_string()] };
    let expected = obj(vec![
        ("title", st("Color")),
        (
            "enum",
            serde_json::Value::Array(vec![obj(vec![("const", st("Red"))]), obj(vec![("const", st("Blue"))])]),
        ),
    ]);
    assert_eq!(to_serde(&e.json_schema()), expected);
}

#[test]
fn named_args_list_optional_ones_as_required() {
    let args = FunctionArgs::NamedArgList(vec![
        ("a".to_string(), prim(TypeValue::Int)),
        ("b".to_string(), FieldType::Optional(Box::new(FieldType::Class("C".to_string())))),
    ]);
    let s = to_serde(&args.json_schema());
    assert_eq!(s["required"], serde_json::Value::Array(vec![st("b")]));
    assert_eq!(s["type"], st("object"));
    assert_eq!(s["properties"]["a"], obj(vec![("type", st("integer"))]));
    let unnamed = FunctionArgs::UnnamedArg(prim(TypeValue::Bool));
    assert_eq!(to_serde(&unnamed.json_schema()), obj(vec![("type", st("boolean"))]));
}

#[test]
fn project_definitions() {
    let ir = IntermediateRepr {
        enums: vec![Enum { name: "E".to_string(), values: vec!["X".to_string()] }],
        classes: vec![Class { name: "C".to_string(), static_fields: vec![] }],
        functions: vec![Function {
            name: "F".to_string(),
            inputs: FunctionArgs::NamedArgList(vec![("x".to_string(), prim(TypeValue::String))]),
            output: FieldType::Class("C".to_string()),
            client_configs: None,
        }],
    };
    let s = to_serde(&ir.json_schema());
    let defs = &s["definitions"];
    assert_eq!(defs["E"]["title"], st("E"));
    assert_eq!(defs["C"]["type"], st("object"));
    assert_eq!(defs["F_input"]["title"], st("F input"));
    assert_eq!(defs["F_input"]["properties"]["x"], obj(vec![("type", st("string"))]));
    assert_eq!(
        defs["F_output"],
        obj(vec![("$ref", st("#/definitions/C")), ("title", st("F output"))])
    );
    let f = &ir.functions[0];
    assert_eq!(to_serde(&(f, false).json_schema()), defs["F_output"]);
}

#[test]
fn python_client_functions() {
    let ir = IntermediateRepr {
        enums: vec![],
        classes: vec![],
        functions: vec![
            Function {
                name: "Extract".to_string(),
                inputs: FunctionArgs::NamedArgList(vec![
                    ("text".to_string(), prim(TypeValue::String)),
                    ("n".to_string(), FieldType::Optional(Box::new(prim(TypeValue::Int)))),
                ]),
                output: FieldType::List(Box::new(FieldType::Class("Item".to_string()))),
                client_configs: Some(vec!["primary".to_string(), "backup".to_string()]),
            },
            Function {
                name: "Legacy".to_string(),
                inputs: FunctionArgs::UnnamedArg(prim(TypeValue::String)),
                output: prim(TypeValue::Bool),
                client_configs: None,
            },
        ],
    };
    let client = PythonClient::try_from(&ir).unwrap();
    let expected = PythonFunction {
        name: "Extract".to_string(),
        return_type: "List[types.Item]".to_string(),
        args: vec![
            ("text".to_string(), "str".to_string()),
            ("n".to_string(), "Optional[int]".to_string()),
        ],
    };
    assert_eq!(client.funcs.len(), 2);
    assert_eq!(client.funcs[0], expected);
    assert_eq!(client.funcs[1], expected);
}

#[test]
fn python_client_rejects_unnamed_args() {
    let ir = IntermediateRepr {
        enums: vec![],
        classes: vec![],
        functions: vec![Function {
            name: "Classify".to_string(),
            inputs: FunctionArgs::UnnamedArg(prim(TypeValue::String)),
            output: prim(TypeValue::Bool),
            client_configs: Some(vec!["primary".to_string()]),
        }],
    };
    assert_eq!(
        PythonClient::try_from(&ir),
        Err("Python codegen does not support unnamed args: please add names to all arguments of BAML function 'Classify'".to_string())
    );
}
