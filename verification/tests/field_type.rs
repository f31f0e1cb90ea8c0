use baml_engine::constraint::{Constraint, ConstraintLevel, JinjaExpression};
use baml_engine::deserializer::{
    any_of_step, coerce_from_markdown, completion_state, AnyOfStep, markdown_flag, parse_string_target, validate_asserts, BamlValueWithFlags, DeserializerConditions, Flag,
    ParsingError,
};
use baml_engine::field_type::{FieldType, LiteralValue, StreamingBehavior, TypeMetadata, TypeValue};
use baml_engine::media::BamlMediaType;
use baml_engine::value::CompletionState;

fn default_meta() -> TypeMetadata {
    TypeMetadata {
        constraints: vec![],
        streaming_behavior: StreamingBehavior { done: false, state: false },
    }
}

#[test]
fn builders_make_types_with_default_metadata() {
    assert_eq!(FieldType::string(), FieldType::Primitive(TypeValue::String, default_meta()));
    assert_eq!(FieldType::int_type(), FieldType::Primitive(TypeValue::Int, default_meta()));
    assert_eq!(FieldType::float(), FieldType::Primitive(TypeValue::Float, default_meta()));
    assert_eq!(FieldType::bool(), FieldType::Primitive(TypeValue::Bool, default_meta()));
    assert_eq!(FieldType::null(), FieldType::Primitive(TypeValue::Null, default_meta()));
    assert_eq!(
        FieldType::image(),
        FieldType::Primitive(TypeValue::Media(BamlMediaType::Image), default_meta())
    );
    assert_eq!(
        FieldType::literal_string("x".to_string()),
        FieldType::Literal(LiteralValue::String("x".to_string()), default_meta())
    );
    assert_eq!(
        FieldType::literal_int(-3),
        FieldType::Literal(LiteralValue::Int(-3), default_meta())
    );
    assert_eq!(
        FieldType::literal_bool(true),
        FieldType::Literal(LiteralValue::Bool(true), default_meta())
    );
    assert_eq!(FieldType::enum_type("Color"), FieldType::Enum("Color".to_string(), default_meta()));
    assert_eq!(FieldType::class("Person"), FieldType::Class("Person".to_string(), default_meta()));
}

#[test]
fn compound_builders() {
    assert_eq!(
        FieldType::list(FieldType::int_type()),
        FieldType::List(Box::new(FieldType::int_type()), default_meta())
    );
    assert_eq!(FieldType::int_type().as_list(), FieldType::list(FieldType::int_type()));
    assert_eq!(
        FieldType::map(FieldType::string(), FieldType::bool()),
        FieldType::Mapping(Box::new(FieldType::string()), Box::new(FieldType::bool()), default_meta())
    );
    assert_eq!(
        FieldType::union(vec![FieldType::int_type(), FieldType::string()]),
        FieldType::Union(vec![FieldType::int_type(), FieldType::string()], default_meta())
    );
    assert_eq!(
        FieldType::tuple(vec![FieldType::null()]),
        FieldType::Tuple(vec![FieldType::null()], default_meta())
    );
    assert_eq!(
        FieldType::optional(FieldType::float()),
        FieldType::Optional(Box::new(FieldType::float()), default_meta())
    );
    assert_eq!(FieldType::float().as_optional(), FieldType::optional(FieldType::float()));
}

fn flags_of(c: &DeserializerConditions) -> &Vec<Flag> {
    &c.flags
}

#[test]
fn default_of_list_is_empty_list_flagged_no_value() {
    let d = FieldType::list(FieldType::string()).default_value(None).unwrap();
    match d {
        BamlValueWithFlags::List(c, items) => {
            assert!(items.is_empty());
            assert_eq!(flags_of(&c), &vec![Flag::DefaultFromNoValue]);
        }
        _ => panic!("expected a list"),
    }
}

#[test]
fn default_with_error_carries_the_error() {
    let e = ParsingError { scope: vec!["x".to_string()], reason: "bad".to_string(), causes: vec![] };
    let d = FieldType::optional(FieldType::int_type()).default_value(Some(&e)).unwrap();
    match d {
        BamlValueWithFlags::Null(c) => {
            assert_eq!(
                flags_of(&c),
                &vec![Flag::DefaultButHadUnparseableValue(ParsingError {
                    scope: vec!["x".to_string()],
                    reason: "bad".to_string(),
                    causes: vec![],
                })]
            );
        }
        _ => panic!("expected null"),
    }
}

#[test]
fn types_without_defaults() {
    assert!(FieldType::string().default_value(None).is_none());
    assert!(FieldType::int_type().default_value(None).is_none());
    assert!(FieldType::enum_type("E").default_value(None).is_none());
    assert!(FieldType::class("C").default_value(None).is_none());
    assert!(FieldType::literal_int(1).default_value(None).is_none());
}

#[test]
fn null_and_map_defaults() {
    match FieldType::null().default_value(None) {
        Some(BamlValueWithFlags::Null(_)) => {}
        _ => panic!("expected null"),
    }
    match FieldType::map(FieldType::string(), FieldType::int_type()).default_value(None) {
        Some(BamlValueWithFlags::Mapping(c, m)) => {
            assert_eq!(m.len(), 0);
            assert_eq!(flags_of(&c), &vec![Flag::DefaultFromNoValue]);
        }
        _ => panic!("expected a map"),
    }
}

#[test]
fn union_takes_first_member_with_a_default() {
    let u = FieldType::union(vec![
        FieldType::string(),
        FieldType::map(FieldType::string(), FieldType::int_type()),
        FieldType::null(),
    ]);
    match u.default_value(None) {
        Some(BamlValueWithFlags::Mapping(_, _)) => {}
        _ => panic!("expected the map's default"),
    }
    let none = FieldType::union(vec![FieldType::string(), FieldType::int_type()]);
    assert!(none.default_value(None).is_none());
}

#[test]
fn tuple_default_needs_every_member() {
    let t = FieldType::tuple(vec![FieldType::null(), FieldType::list(FieldType::int_type())]);
    match t.default_value(None) {
        Some(BamlValueWithFlags::List(_, items)) => {
            assert_eq!(items.len(), 2);
            assert!(matches!(items[0], BamlValueWithFlags::Null(_)));
            assert!(matches!(items[1], BamlValueWithFlags::List(_, _)));
        }
        _ => panic!("expected a list"),
    }
    let t = FieldType::tuple(vec![FieldType::null(), FieldType::int_type()]);
    assert!(t.default_value(None).is_none());
}

fn constraint(level: ConstraintLevel, label: Option<&str>, expr: &str) -> Constraint {
    Constraint {
        level,
        expression: JinjaExpression(expr.to_string()),
        label: label.map(|l| l.to_string()),
    }
}

#[test]
fn failed_assert_is_an_error() {
    let cs = vec![
        (constraint(ConstraintLevel::Check, Some("c"), "this > 0"), false),
        (constraint(ConstraintLevel::Assert, Some("a"), "this < 10"), false),
    ];
    let e = validate_asserts(&cs).unwrap_err();
    assert_eq!(e.reason, "Assertions failed.");
    assert!(e.causes.is_empty());
    assert!(e.scope.is_empty());
}

#[test]
fn failed_checks_and_passed_asserts_are_fine() {
    let cs = vec![
        (constraint(ConstraintLevel::Check, None, "this > 0"), false),
        (constraint(ConstraintLevel::Assert, None, "this < 10"), true),
    ];
    assert!(validate_asserts(&cs).is_ok());
    assert!(validate_asserts(&vec![]).is_ok());
}

#[test]
fn completion_state_from_flags() {
    assert_eq!(completion_state(&vec![]), CompletionState::Complete);
    assert_eq!(
        completion_state(&vec![Flag::DefaultFromNoValue, Flag::ObjectFromMarkdown(1)]),
        CompletionState::Complete
    );
    assert_eq!(
        completion_state(&vec![Flag::DefaultFromNoValue, Flag::Incomplete]),
        CompletionState::Incomplete
    );
}

#[test]
fn conditions_collect_flags_in_order() {
    let c = DeserializerConditions::new().with_flag(Flag::Incomplete).with_flag(Flag::DefaultFromNoValue);
    assert_eq!(c.flags, vec![Flag::Incomplete, Flag::DefaultFromNoValue]);
}

#[test]
fn markdown_flag_depends_on_string_target() {
    assert_eq!(markdown_flag(&FieldType::string()), Flag::ObjectFromMarkdown(1));
    assert_eq!(markdown_flag(&FieldType::int_type()), Flag::ObjectFromMarkdown(0));
    let inner = Ok(BamlValueWithFlags::Int(3, DeserializerConditions::new().with_flag(Flag::Incomplete)));
    let r = coerce_from_markdown(&FieldType::int_type(), inner).unwrap();
    assert_eq!(
        r,
        BamlValueWithFlags::Int(
            3,
            DeserializerConditions { flags: vec![Flag::Incomplete, Flag::ObjectFromMarkdown(0)] }
        )
    );
    let e = ParsingError { scope: vec![], reason: "no".to_string(), causes: vec![] };
    let r = coerce_from_markdown(&FieldType::string(), Err(e));
    assert_eq!(r, Err(ParsingError { scope: vec![], reason: "no".to_string(), causes: vec![] }));
}

#[test]
fn string_target_takes_raw_text() {
    assert_eq!(
        parse_string_target(&FieldType::string(), "{\"a\": 1}"),
        Some(BamlValueWithFlags::String("{\"a\": 1}".to_string(), DeserializerConditions::new()))
    );
    assert_eq!(parse_string_target(&FieldType::int_type(), "1"), None);
}

#[test]
fn any_of_string_target_coerces_raw_text() {
    assert_eq!(
        any_of_step(&FieldType::string(), &"[1, 2]".to_string()),
        AnyOfStep::CoerceText("[1, 2]".to_string())
    );
    assert_eq!(any_of_step(&FieldType::list(FieldType::int_type()), &"[1, 2]".to_string()), AnyOfStep::PickCandidate);
}
