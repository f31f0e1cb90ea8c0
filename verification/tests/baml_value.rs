use baml_engine::constraint::ResponseCheck;
use baml_engine::json::JsonValue;
use baml_engine::map::BamlMap;
use baml_engine::media::{BamlMedia, BamlMediaContent, BamlMediaType, MediaUrl};
use baml_engine::value::{BamlValue, BamlValueWithMeta, CompletionState};

fn to_serde(v: &JsonValue) -> serde_json::Value {
    match v {
        JsonValue::Null => serde_json::Value::Null,
        JsonValue::Bool(b) => serde_json::Value::Bool(*b),
        JsonValue::Int(i) => serde_json::Value::from(*i),
        JsonValue::Float(bits) => serde_json::Number::from_f64(f64::from_bits(*bits))
            .map(serde_json::Value::Number)
            .unwrap_or(serde_json::Value::Null),
        JsonValue::String(s) => serde_json::Value::String(s.clone()),
        JsonValue::Array(items) => serde_json::Value::Array(items.iter().map(to_serde).collect()),
        JsonValue::Object(members) => {
            let mut m = serde_json::Map::new();
            for (k, x) in members {
                m.insert(k.clone(), to_serde(x));
            }
            serde_json::Value::Object(m)
        }
        JsonValue::Media(media) => {
            let mut m = serde_json::Map::new();
            let url = match &media.content {
                BamlMediaContent::File(f) => f.path.clone(),
                BamlMediaContent::Url(u) => u.url.clone(),
                BamlMediaContent::Base64(b) => b.base64.clone(),
            };
            m.insert("content".to_string(), serde_json::Value::String(url));
            serde_json::Value::Object(m)
        }
    }
}

fn obj(pairs: Vec<(&str, serde_json::Value)>) -> serde_json::Value {
    let mut m = serde_json::Map::new();
    for (k, v) in pairs {
        m.insert(k.to_string(), v);
    }
    serde_json::Value::Object(m)
}

fn check(name: &str, expression: &str, status: &str) -> ResponseCheck {
    ResponseCheck {
        name: name.to_string(),
        expression: expression.to_string(),
        status: status.to_string(),
    }
}

fn check_json(name: &str, expression: &str, status: &str) -> serde_json::Value {
    obj(vec![
        ("name", serde_json::Value::String(name.to_string())),
        ("expression", serde_json::Value::String(expression.to_string())),
        ("status", serde_json::Value::String(status.to_string())),
    ])
}

fn s(x: &str) -> String {
    x.to_string()
}

#[test]
fn test_baml_value_with_meta_serialization() {
    let baml_value: BamlValueWithMeta<Vec<ResponseCheck>> =
        BamlValueWithMeta::String("hi".to_string(), vec![]);
    let baml_value_2: BamlValueWithMeta<Vec<ResponseCheck>> = BamlValueWithMeta::Class(
        "ContactInfo".to_string(),
        BamlMap::from_pairs(vec![(
            "primary".to_string(),
            BamlValueWithMeta::Class(
                "PhoneNumber".to_string(),
                BamlMap::from_pairs(vec![(
                    "value".to_string(),
                    BamlValueWithMeta::String(
                        "123-456-7890".to_string(),
                        vec![check("foo", "foo", "succeeded")],
                    ),
                )]),
                vec![],
            ),
        )]),
        vec![],
    );
    assert!(serde_json::to_value(to_serde(&baml_value.to_json())).is_ok());
    assert!(serde_json::to_value(to_serde(&baml_value_2.to_json())).is_ok());
}

#[test]
fn test_serialize_class_checks() {
    let baml_value: BamlValueWithMeta<Vec<ResponseCheck>> = BamlValueWithMeta::Class(
        "Foo".to_string(),
        BamlMap::from_pairs(vec![
            ("foo".to_string(), BamlValueWithMeta::Int(1, vec![])),
            (
                "bar".to_string(),
                BamlValueWithMeta::String("hi".to_string(), vec![]),
            ),
        ]),
        vec![check("bar_len_lt_foo", "this.bar|length < this.foo", "failed")],
    );
    let expected = obj(vec![
        (
            "value",
            obj(vec![
                ("foo", serde_json::Value::from(1)),
                ("bar", serde_json::Value::String(s("hi"))),
            ]),
        ),
        (
            "checks",
            obj(vec![(
                "bar_len_lt_foo",
                check_json("bar_len_lt_foo", "this.bar|length < this.foo", "failed"),
            )]),
        ),
    ]);
    let json = to_serde(&baml_value.to_json());
    assert_eq!(json, expected);
}

#[test]
fn test_serialize_nested_class_checks() {
    let foo: BamlValueWithMeta<Vec<ResponseCheck>> = BamlValueWithMeta::Class(
        "Foo".to_string(),
        BamlMap::from_pairs(vec![
            ("foo".to_string(), BamlValueWithMeta::Int(1, vec![])),
            (
                "bar".to_string(),
                BamlValueWithMeta::String("hi".to_string(), vec![]),
            ),
        ]),
        vec![check("bar_len_lt_foo", "this.bar|length < this.foo", "failed")],
    );
    let baml_value: BamlValueWithMeta<Vec<ResponseCheck>> = BamlValueWithMeta::Class(
        "FooWrapper".to_string(),
        BamlMap::from_pairs(vec![("foo".to_string(), foo)]),
        vec![],
    );
    let expected = obj(vec![(
        "foo",
        obj(vec![
            (
                "value",
                obj(vec![
                    ("foo", serde_json::Value::from(1)),
                    ("bar", serde_json::Value::String(s("hi"))),
                ]),
            ),
            (
                "checks",
                obj(vec![(
                    "bar_len_lt_foo",
                    check_json("bar_len_lt_foo", "this.bar|length < this.foo", "failed"),
                )]),
            ),
        ]),
    )]);
    let json = to_serde(&baml_value.to_json());
    assert_eq!(json, expected);
}

#[test]
fn scalar_with_checks_is_wrapped_under_value() {
    let v: BamlValueWithMeta<Vec<ResponseCheck>> =
        BamlValueWithMeta::Int(7, vec![check("positive", "this > 0", "succeeded")]);
    let expected = obj(vec![
        ("value", serde_json::Value::from(7)),
        (
            "checks",
            obj(vec![("positive", check_json("positive", "this > 0", "succeeded"))]),
        ),
    ]);
    assert_eq!(to_serde(&v.to_json()), expected);
}

#[test]
fn map_with_checks_gets_checks_among_its_entries() {
    let v: BamlValueWithMeta<Vec<ResponseCheck>> = BamlValueWithMeta::Mapping(
        BamlMap::from_pairs(vec![(s("a"), BamlValueWithMeta::Bool(true, vec![]))]),
        vec![check("c", "e", "failed")],
    );
    let expected = obj(vec![
        ("a", serde_json::Value::Bool(true)),
        ("checks", obj(vec![("c", check_json("c", "e", "failed"))])),
    ]);
    assert_eq!(to_serde(&v.to_json()), expected);
}

#[test]
fn later_check_with_same_name_replaces_earlier() {
    let v: BamlValueWithMeta<Vec<ResponseCheck>> = BamlValueWithMeta::Null(vec![
        check("c", "first", "failed"),
        check("c", "second", "succeeded"),
    ]);
    let expected = obj(vec![
        ("value", serde_json::Value::Null),
        ("checks", obj(vec![("c", check_json("c", "second", "succeeded"))])),
    ]);
    assert_eq!(to_serde(&v.to_json()), expected);
}

#[test]
fn checks_and_completion_state_members() {
    let meta: (u8, Vec<ResponseCheck>, Option<CompletionState>) =
        (0, vec![check("c", "e", "succeeded")], Some(CompletionState::Incomplete));
    let v = BamlValueWithMeta::String(s("x"), meta);
    let json = to_serde(&v.to_json());
    let pair = serde_json::Value::Array(vec![
        serde_json::Value::String(s("c")),
        check_json("c", "e", "succeeded"),
    ]);
    let expected = obj(vec![
        ("value", serde_json::Value::String(s("x"))),
        ("checks", serde_json::Value::Array(vec![pair])),
        ("completion_state", serde_json::Value::String(s("Incomplete"))),
    ]);
    assert_eq!(json, expected);
}

#[test]
fn no_metadata_serializes_like_the_plain_value() {
    let v: BamlValueWithMeta<Vec<ResponseCheck>> = BamlValueWithMeta::Class(
        s("C"),
        BamlMap::from_pairs(vec![
            (s("n"), BamlValueWithMeta::Int(3, vec![])),
            (
                s("l"),
                BamlValueWithMeta::List(
                    vec![
                        BamlValueWithMeta::Enum(s("E"), s("A"), vec![]),
                        BamlValueWithMeta::Null(vec![]),
                    ],
                    vec![],
                ),
            ),
        ]),
        vec![],
    );
    let plain = v.to_value();
    assert_eq!(to_serde(&v.to_json()), to_serde(&plain.to_json()));
    let expected = obj(vec![
        ("n", serde_json::Value::from(3)),
        (
            "l",
            serde_json::Value::Array(vec![serde_json::Value::String(s("A")), serde_json::Value::Null]),
        ),
    ]);
    assert_eq!(to_serde(&plain.to_json()), expected);
}

#[test]
fn plain_value_json_float_and_enum() {
    let v = BamlValue::List(vec![
        BamlValue::Float(1.5f64.to_bits()),
        BamlValue::Enum(s("Color"), s("Red")),
        BamlValue::Bool(false),
    ]);
    let expected = serde_json::Value::Array(vec![
        serde_json::Value::from(1.5),
        serde_json::Value::String(s("Red")),
        serde_json::Value::Bool(false),
    ]);
    assert_eq!(to_serde(&v.to_json()), expected);
}

#[test]
fn accessors_of_plain_values() {
    assert_eq!(BamlValue::Bool(true).as_bool(), Some(true));
    assert_eq!(BamlValue::Int(4).as_bool(), None);
    assert_eq!(BamlValue::Int(4).as_int(), Some(4));
    assert_eq!(BamlValue::Null.as_int(), None);
    assert_eq!(BamlValue::String(s("hey")).as_str(), Some("hey"));
    assert_eq!(BamlValue::Bool(true).as_str(), None);
    let m = BamlValue::Mapping(BamlMap::from_pairs(vec![(s("k"), BamlValue::Int(1))]));
    assert!(m.is_map());
    assert!(!BamlValue::Null.is_map());
    assert_eq!(m.as_map().map(|x| x.len()), Some(1));
    assert!(BamlValue::Null.as_map().is_none());
    let owned = m.as_map_owned().unwrap();
    assert_eq!(owned.entries[0].0, "k");
    let l = BamlValue::List(vec![BamlValue::Int(1), BamlValue::Int(2)]);
    assert_eq!(l.as_list_owned(), Some(vec![BamlValue::Int(1), BamlValue::Int(2)]));
    assert_eq!(BamlValue::Int(1).as_list_owned(), None);
}

#[test]
fn type_names_of_values() {
    assert_eq!(BamlValue::String(s("x")).value_type(), "string");
    assert_eq!(BamlValue::Int(1).value_type(), "int");
    assert_eq!(BamlValue::Float(0).value_type(), "float");
    assert_eq!(BamlValue::Bool(true).value_type(), "bool");
    assert_eq!(BamlValue::Null.value_type(), "null");
    assert_eq!(BamlValue::Enum(s("E"), s("A")).value_type(), "enum E");
    assert_eq!(BamlValue::Class(s("C"), BamlMap::new()).value_type(), "class C");
    assert_eq!(BamlValue::List(vec![]).value_type(), "list<?>");
    assert_eq!(BamlValue::Mapping(BamlMap::new()).value_type(), "map<string, ?>");
    let l = BamlValue::List(vec![BamlValue::Int(1), BamlValue::Int(2), BamlValue::Int(3)]);
    assert_eq!(l.value_type(), "list<int>");
    let mixed = BamlValue::List(vec![
        BamlValue::Int(1),
        BamlValue::String(s("a")),
        BamlValue::Int(2),
    ]);
    let t = mixed.value_type();
    assert!(t == "list<int | string>" || t == "list<string | int>");
    let m = BamlValue::Mapping(BamlMap::from_pairs(vec![
        (s("a"), BamlValue::Bool(true)),
        (s("b"), BamlValue::Bool(false)),
    ]));
    assert_eq!(m.value_type(), "map<string, bool>");
    let media = BamlValue::Media(BamlMedia {
        media_type: BamlMediaType::Audio,
        mime_type: None,
        content: BamlMediaContent::Url(MediaUrl { url: s("u") }),
    });
    assert_eq!(media.value_type(), "audio");
    let with_meta: BamlValueWithMeta<u8> =
        BamlValueWithMeta::List(vec![BamlValueWithMeta::Int(1, 0)], 0);
    assert_eq!(with_meta.value_type(), "list<int>");
}

#[test]
fn meta_and_meta_mut() {
    let mut v: BamlValueWithMeta<u32> = BamlValueWithMeta::Enum(s("E"), s("A"), 5);
    assert_eq!(*v.meta(), 5);
    *v.meta_mut() = 9;
    assert_eq!(*v.meta(), 9);
    assert_eq!(v, BamlValueWithMeta::Enum(s("E"), s("A"), 9));
}

#[test]
fn value_drops_metadata() {
    let v: BamlValueWithMeta<u32> = BamlValueWithMeta::Class(
        s("C"),
        BamlMap::from_pairs(vec![(s("x"), BamlValueWithMeta::Int(2, 1))]),
        0,
    );
    let expected = BamlValue::Class(s("C"), BamlMap::from_pairs(vec![(s("x"), BamlValue::Int(2))]));
    assert_eq!(v.to_value(), expected);
    assert_eq!(v.value(), expected);
}

#[test]
fn default_meta_turns_classes_into_maps() {
    let v = BamlValue::Class(
        s("C"),
        BamlMap::from_pairs(vec![(s("x"), BamlValue::List(vec![BamlValue::Null]))]),
    );
    let w: BamlValueWithMeta<u32> = BamlValueWithMeta::with_default_meta(&v);
    let expected: BamlValueWithMeta<u32> = BamlValueWithMeta::Mapping(
        BamlMap::from_pairs(vec![(
            s("x"),
            BamlValueWithMeta::List(vec![BamlValueWithMeta::Null(0)], 0),
        )]),
        0,
    );
    assert_eq!(w, expected);
}

#[test]
fn default_meta_round_trip_without_classes() {
    let v = BamlValue::Mapping(BamlMap::from_pairs(vec![
        (s("a"), BamlValue::Int(1)),
        (s("b"), BamlValue::List(vec![BamlValue::String(s("z"))])),
    ]));
    let w: BamlValueWithMeta<Vec<ResponseCheck>> = BamlValueWithMeta::with_default_meta(&v);
    assert_eq!(w.value(), v);
}

fn double(x: &u32) -> u64 {
    (*x as u64) * 2
}

#[test]
fn map_meta_applies_function_everywhere() {
    let v: BamlValueWithMeta<u32> = BamlValueWithMeta::List(
        vec![
            BamlValueWithMeta::Int(10, 1),
            BamlValueWithMeta::Mapping(
                BamlMap::from_pairs(vec![(s("k"), BamlValueWithMeta::Bool(true, 3))]),
                2,
            ),
        ],
        4,
    );
    let w = v.map_meta(double);
    let expected: BamlValueWithMeta<u64> = BamlValueWithMeta::List(
        vec![
            BamlValueWithMeta::Int(10, 2),
            BamlValueWithMeta::Mapping(
                BamlMap::from_pairs(vec![(s("k"), BamlValueWithMeta::Bool(true, 6))]),
                4,
            ),
        ],
        8,
    );
    assert_eq!(w, expected);
    assert_eq!(w.to_value(), v.to_value());
}

#[test]
fn iteration_is_depth_first_last_child_first() {
    let v: BamlValueWithMeta<u32> = BamlValueWithMeta::List(
        vec![
            BamlValueWithMeta::Int(1, 1),
            BamlValueWithMeta::List(vec![BamlValueWithMeta::Int(3, 3)], 2),
            BamlValueWithMeta::Int(4, 4),
        ],
        0,
    );
    let order: Vec<u32> = v.nodes().iter().map(|n| *n.meta()).collect();
    assert_eq!(order, vec![0, 4, 2, 3, 1]);
    let mut it = v.iter();
    let mut seen = Vec::new();
    while let Some(n) = it.next() {
        seen.push(*n.meta());
    }
    assert_eq!(seen, order);
}

#[test]
fn iteration_visits_map_and_class_fields() {
    let v: BamlValueWithMeta<u32> = BamlValueWithMeta::Class(
        s("C"),
        BamlMap::from_pairs(vec![
            (s("a"), BamlValueWithMeta::Null(1)),
            (
                s("b"),
                BamlValueWithMeta::Mapping(
                    BamlMap::from_pairs(vec![(s("c"), BamlValueWithMeta::Null(3))]),
                    2,
                ),
            ),
        ]),
        0,
    );
    let order: Vec<u32> = v.nodes().iter().map(|n| *n.meta()).collect();
    assert_eq!(order, vec![0, 2, 3, 1]);
}

#[test]
fn zip_pairs_metadata_of_equal_values() {
    let a: BamlValueWithMeta<u32> = BamlValueWithMeta::Mapping(
        BamlMap::from_pairs(vec![
            (s("b"), BamlValueWithMeta::Int(2, 20)),
            (s("a"), BamlValueWithMeta::Int(1, 10)),
        ]),
        0,
    );
    let b: BamlValueWithMeta<char> = BamlValueWithMeta::Mapping(
        BamlMap::from_pairs(vec![
            (s("a"), BamlValueWithMeta::Int(1, 'x')),
            (s("b"), BamlValueWithMeta::Int(2, 'y')),
        ]),
        'r',
    );
    let z = a.zip_meta(b).unwrap();
    let expected: BamlValueWithMeta<(u32, char)> = BamlValueWithMeta::Mapping(
        BamlMap::from_pairs(vec![
            (s("a"), BamlValueWithMeta::Int(1, (10, 'x'))),
            (s("b"), BamlValueWithMeta::Int(2, (20, 'y'))),
        ]),
        (0, 'r'),
    );
    assert_eq!(z, expected);
}

#[test]
fn zip_fails_on_different_contents() {
    let a: BamlValueWithMeta<u8> = BamlValueWithMeta::String(s("x"), 0);
    let b: BamlValueWithMeta<u8> = BamlValueWithMeta::String(s("y"), 0);
    assert!(a.zip_meta(b).is_none());
    let a: BamlValueWithMeta<u8> = BamlValueWithMeta::Int(1, 0);
    let b: BamlValueWithMeta<u8> = BamlValueWithMeta::Bool(true, 0);
    assert!(a.zip_meta(b).is_none());
    let a: BamlValueWithMeta<u8> = BamlValueWithMeta::Class(s("A"), BamlMap::new(), 0);
    let b: BamlValueWithMeta<u8> = BamlValueWithMeta::Class(s("B"), BamlMap::new(), 0);
    assert!(a.zip_meta(b).is_none());
}

#[test]
fn zip_floats_follow_ieee_equality() {
    let nan = f64::NAN.to_bits();
    let a: BamlValueWithMeta<u8> = BamlValueWithMeta::Float(nan, 0);
    let b: BamlValueWithMeta<u8> = BamlValueWithMeta::Float(nan, 1);
    assert!(a.zip_meta(b).is_none());
    let a: BamlValueWithMeta<u8> = BamlValueWithMeta::Float(0.0f64.to_bits(), 0);
    let b: BamlValueWithMeta<u8> = BamlValueWithMeta::Float((-0.0f64).to_bits(), 1);
    assert_eq!(
        a.zip_meta(b),
        Some(BamlValueWithMeta::Float(0.0f64.to_bits(), (0, 1)))
    );
}

#[test]
fn zip_lists_are_cut_to_the_shorter() {
    let a: BamlValueWithMeta<u8> = BamlValueWithMeta::List(
        vec![BamlValueWithMeta::Int(1, 1), BamlValueWithMeta::Int(2, 2)],
        0,
    );
    let b: BamlValueWithMeta<u8> = BamlValueWithMeta::List(vec![BamlValueWithMeta::Int(1, 9)], 8);
    assert_eq!(
        a.zip_meta(b),
        Some(BamlValueWithMeta::List(vec![BamlValueWithMeta::Int(1, (1, 9))], (0, 8)))
    );
}

#[test]
fn contact_info_serializes_nested_checks_exactly() {
    let v: BamlValueWithMeta<Vec<ResponseCheck>> = BamlValueWithMeta::Class(
        s("ContactInfo"),
        BamlMap::from_pairs(vec![(
            s("primary"),
            BamlValueWithMeta::Class(
                s("PhoneNumber"),
                BamlMap::from_pairs(vec![(
                    s("value"),
                    BamlValueWithMeta::String(s("123-456-7890"), vec![check("foo", "foo", "succeeded")]),
                )]),
                vec![],
            ),
        )]),
        vec![],
    );
    let expected = obj(vec![(
        "primary",
        obj(vec![(
            "value",
            obj(vec![
                ("value", serde_json::Value::String(s("123-456-7890"))),
                ("checks", obj(vec![("foo", check_json("foo", "foo", "succeeded"))])),
            ]),
        )]),
    )]);
    assert_eq!(to_serde(&v.to_json()), expected);
    let plain: BamlValueWithMeta<Vec<ResponseCheck>> = BamlValueWithMeta::String(s("hi"), vec![]);
    assert_eq!(to_serde(&plain.to_json()), serde_json::Value::String(s("hi")));
}

fn same(x: &u32) -> u32 {
    *x
}

fn plus_one(x: &u64) -> u64 {
    *x + 1
}

fn double_plus_one(x: &u32) -> u64 {
    (*x as u64) * 2 + 1
}

#[test]
fn map_meta_identity_and_composition() {
    let v: BamlValueWithMeta<u32> = BamlValueWithMeta::Class(
        s("C"),
        BamlMap::from_pairs(vec![
            (s("a"), BamlValueWithMeta::List(vec![BamlValueWithMeta::Null(5)], 4)),
            (s("b"), BamlValueWithMeta::Float(2.5f64.to_bits(), 6)),
        ]),
        3,
    );
    assert_eq!(v.map_meta(same), v);
    assert_eq!(v.map_meta(double).map_meta(plus_one), v.map_meta(double_plus_one));
}

#[test]
fn zip_the_other_way_swaps_the_pairs() {
    let a: BamlValueWithMeta<u32> = BamlValueWithMeta::Mapping(
        BamlMap::from_pairs(vec![
            (s("y"), BamlValueWithMeta::List(vec![BamlValueWithMeta::Int(1, 1)], 2)),
            (s("x"), BamlValueWithMeta::Bool(true, 3)),
        ]),
        0,
    );
    let b: BamlValueWithMeta<char> = BamlValueWithMeta::Mapping(
        BamlMap::from_pairs(vec![
            (s("x"), BamlValueWithMeta::Bool(true, 'p')),
            (s("y"), BamlValueWithMeta::List(vec![BamlValueWithMeta::Int(1, 'q')], 'r')),
        ]),
        's',
    );
    let ab = a.map_meta(same).zip_meta(b.map_meta(|c: &char| *c)).unwrap();
    let ba = b.zip_meta(a).unwrap();
    assert_eq!(ba, ab.map_meta(|p: &(u32, char)| (p.1, p.0)));
    let expected_keys: Vec<String> = match &ab {
        BamlValueWithMeta::Mapping(m, _) => m.entries.iter().map(|(k, _)| k.clone()).collect(),
        _ => vec![],
    };
    assert_eq!(expected_keys, vec![s("x"), s("y")]);
    let c: BamlValueWithMeta<u8> = BamlValueWithMeta::Int(1, 0);
    let d: BamlValueWithMeta<u8> = BamlValueWithMeta::String(s("1"), 0);
    assert!(c.zip_meta(d).is_none());
}

#[test]
fn walk_puts_each_subtree_in_one_run() {
    let v: BamlValueWithMeta<u32> = BamlValueWithMeta::List(
        vec![
            BamlValueWithMeta::List(vec![BamlValueWithMeta::Int(0, 2), BamlValueWithMeta::Int(0, 3)], 1),
            BamlValueWithMeta::List(vec![BamlValueWithMeta::Int(0, 5)], 4),
        ],
        0,
    );
    let order: Vec<u32> = v.nodes().iter().map(|n| *n.meta()).collect();
    assert_eq!(order, vec![0, 4, 5, 1, 3, 2]);
}

#[test]
fn equality_ignores_map_order_and_follows_ieee_floats() {
    let a = BamlValue::Mapping(BamlMap::from_pairs(vec![(s("x"), BamlValue::Int(1)), (s("y"), BamlValue::Null)]));
    let b = BamlValue::Mapping(BamlMap::from_pairs(vec![(s("y"), BamlValue::Null), (s("x"), BamlValue::Int(1))]));
    assert_eq!(a, b);
    let c = BamlValue::Mapping(BamlMap::from_pairs(vec![(s("y"), BamlValue::Null), (s("x"), BamlValue::Int(2))]));
    assert_ne!(a, c);
    assert_eq!(BamlValue::Float(0.0f64.to_bits()), BamlValue::Float((-0.0f64).to_bits()));
    assert_ne!(BamlValue::Float(f64::NAN.to_bits()), BamlValue::Float(f64::NAN.to_bits()));
    assert_ne!(BamlValue::List(vec![BamlValue::Int(1)]), BamlValue::List(vec![]));
    let m1: BamlValueWithMeta<u8> = BamlValueWithMeta::Class(
        s("C"),
        BamlMap::from_pairs(vec![(s("p"), BamlValueWithMeta::Bool(true, 1)), (s("q"), BamlValueWithMeta::Null(2))]),
        0,
    );
    let m2: BamlValueWithMeta<u8> = BamlValueWithMeta::Class(
        s("C"),
        BamlMap::from_pairs(vec![(s("q"), BamlValueWithMeta::Null(2)), (s("p"), BamlValueWithMeta::Bool(true, 1))]),
        0,
    );
    assert_eq!(m1, m2);
    let m3: BamlValueWithMeta<u8> = BamlValueWithMeta::Class(
        s("C"),
        BamlMap::from_pairs(vec![(s("q"), BamlValueWithMeta::Null(9)), (s("p"), BamlValueWithMeta::Bool(true, 1))]),
        0,
    );
    assert_ne!(m1, m3);
    let k1 = BamlMap::from_pairs(vec![(s("a"), 1), (s("b"), 2)]);
    let k2 = BamlMap::from_pairs(vec![(s("b"), 2), (s("a"), 1)]);
    assert_eq!(k1, k2);
}

#[test]
fn clones_are_equal() {
    let v = BamlValue::Class(
        s("C"),
        BamlMap::from_pairs(vec![(s("l"), BamlValue::List(vec![BamlValue::Int(1), BamlValue::String(s("x"))]))]),
    );
    assert_eq!(v.clone(), v);
    let m: BamlValueWithMeta<Vec<ResponseCheck>> =
        BamlValueWithMeta::List(vec![BamlValueWithMeta::Int(2, vec![check("c", "e", "ok")])], vec![]);
    assert_eq!(m.clone(), m);
}
