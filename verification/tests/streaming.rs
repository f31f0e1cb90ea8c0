use baml_engine::deserializer::Flag;
use baml_engine::field_type::{FieldType, StreamingBehavior, TypeMetadata, TypeValue};
use baml_engine::ir::{self, Class, Field, IntermediateRepr};
use baml_engine::map::BamlMap;
use baml_engine::streaming::{
    needed_fields, process_node, required_done, streaming_behavior,
    validate_streaming_state, StreamingError,
};
use baml_engine::value::{BamlValueWithMeta, CompletionState};

fn with_behavior(done: bool, state: bool) -> TypeMetadata {
    TypeMetadata { constraints: vec![], streaming_behavior: StreamingBehavior { done, state } }
}

fn project() -> IntermediateRepr {
    IntermediateRepr {
        enums: vec![],
        classes: vec![Class {
            name: "Person".to_string(),
            static_fields: vec![
                Field {
                    name: "name".to_string(),
                    field_type: ir::FieldType::Primitive(ir::TypeValue::String),
                    streaming_needed: true,
                },
                Field {
                    name: "age".to_string(),
                    field_type: ir::FieldType::Primitive(ir::TypeValue::Int),
                    streaming_needed: false,
                },
                Field {
                    name: "id".to_string(),
                    field_type: ir::FieldType::Primitive(ir::TypeValue::Int),
                    streaming_needed: true,
                },
            ],
        }],
        functions: vec![],
    }
}

#[test]
fn which_types_require_done() {
    assert!(!required_done(&FieldType::string()));
    assert!(required_done(&FieldType::int_type()));
    assert!(required_done(&FieldType::enum_type("E")));
    assert!(required_done(&FieldType::literal_bool(true)));
    assert!(!required_done(&FieldType::list(FieldType::int_type())));
    assert!(!required_done(&FieldType::class("C")));
    assert!(required_done(&FieldType::Primitive(TypeValue::String, with_behavior(true, false))));
    assert_eq!(
        streaming_behavior(&FieldType::Class("C".to_string(), with_behavior(false, true))),
        StreamingBehavior { done: false, state: true }
    );
}

#[test]
fn needed_fields_of_a_class() {
    let p = project();
    assert_eq!(
        needed_fields(&p, &FieldType::class("Person")),
        Ok(vec!["name".to_string(), "id".to_string()])
    );
    assert_eq!(needed_fields(&p, &FieldType::class("Nobody")), Err(StreamingError::ExpectedClass));
    assert_eq!(needed_fields(&p, &FieldType::int_type()), Err(StreamingError::ExpectedClass));
}

#[test]
fn incomplete_done_value_is_an_error() {
    let p = project();
    let t = FieldType::int_type();
    let v = BamlValueWithMeta::Int(3, (CompletionState::Incomplete, &t));
    assert_eq!(process_node(&p, v), Err(StreamingError::IncompleteDoneValue));
    let v = BamlValueWithMeta::Int(3, (CompletionState::Complete, &t));
    assert_eq!(process_node(&p, v), Ok(BamlValueWithMeta::Int(3, None)));
}

#[test]
fn state_is_reported_when_asked() {
    let p = project();
    let t = FieldType::Primitive(TypeValue::String, with_behavior(false, true));
    let v = BamlValueWithMeta::String("par".to_string(), (CompletionState::Incomplete, &t));
    assert_eq!(
        process_node(&p, v),
        Ok(BamlValueWithMeta::String("par".to_string(), Some(CompletionState::Incomplete)))
    );
}

#[test]
fn list_keeps_items_that_pass() {
    let p = project();
    let lt = FieldType::list(FieldType::int_type());
    let it = FieldType::int_type();
    let v = BamlValueWithMeta::List(
        vec![
            BamlValueWithMeta::Int(1, (CompletionState::Complete, &it)),
            BamlValueWithMeta::Int(2, (CompletionState::Incomplete, &it)),
            BamlValueWithMeta::Int(3, (CompletionState::Complete, &it)),
        ],
        (CompletionState::Incomplete, &lt),
    );
    assert_eq!(
        process_node(&p, v),
        Ok(BamlValueWithMeta::List(
            vec![BamlValueWithMeta::Int(1, None), BamlValueWithMeta::Int(3, None)],
            None
        ))
    );
}

#[test]
fn class_of_unknown_type_is_expected_class_error() {
    let p = project();
    let t = FieldType::class("Nobody");
    let v = BamlValueWithMeta::Class("Nobody".to_string(), BamlMap::new(), (CompletionState::Complete, &t));
    assert_eq!(process_node(&p, v), Err(StreamingError::ExpectedClass));
}

#[test]
fn streaming_state_from_flags() {
    let p = project();
    let st = FieldType::Primitive(TypeValue::String, with_behavior(false, true));
    let it = FieldType::int_type();
    let lt = FieldType::list(FieldType::int_type());
    let typed = BamlValueWithMeta::List(
        vec![
            BamlValueWithMeta::Int(1, (vec![Flag::Incomplete], &it)),
            BamlValueWithMeta::Int(2, (vec![], &it)),
        ],
        (vec![], &lt),
    );
    assert_eq!(
        validate_streaming_state(&p, &typed),
        Ok(BamlValueWithMeta::List(vec![BamlValueWithMeta::Int(2, None)], None))
    );
    let s = BamlValueWithMeta::String("ab".to_string(), (vec![Flag::Incomplete], &st));
    assert_eq!(
        validate_streaming_state(&p, &s),
        Ok(BamlValueWithMeta::String("ab".to_string(), Some(CompletionState::Incomplete)))
    );
    let done = BamlValueWithMeta::Int(5, (vec![Flag::Incomplete], &it));
    assert_eq!(validate_streaming_state(&p, &done), Err(StreamingError::IncompleteDoneValue));
}

#[test]
fn maps_enums_and_nulls_are_processed() {
    let p = project();
    let mt = FieldType::map(FieldType::string(), FieldType::int_type());
    let it = FieldType::int_type();
    let et = FieldType::Enum("E".to_string(), with_behavior(false, true));
    let nt = FieldType::optional(FieldType::int_type());
    let v = BamlValueWithMeta::Mapping(
        BamlMap::from_pairs(vec![
            ("a".to_string(), BamlValueWithMeta::Int(1, (CompletionState::Incomplete, &it))),
            ("b".to_string(), BamlValueWithMeta::Enum("E".to_string(), "X".to_string(), (CompletionState::Complete, &et))),
            ("c".to_string(), BamlValueWithMeta::Null((CompletionState::Incomplete, &nt))),
        ]),
        (CompletionState::Incomplete, &mt),
    );
    assert_eq!(
        process_node(&p, v),
        Ok(BamlValueWithMeta::Mapping(
            BamlMap::from_pairs(vec![
                (
                    "b".to_string(),
                    BamlValueWithMeta::Enum("E".to_string(), "X".to_string(), Some(CompletionState::Complete))
                ),
                ("c".to_string(), BamlValueWithMeta::Null(None)),
            ]),
            None
        ))
    );
}

#[test]
fn known_class_keeps_fields_that_pass() {
    let p = project();
    let ct = FieldType::Class("Person".to_string(), with_behavior(false, true));
    let st = FieldType::string();
    let it = FieldType::int_type();
    let v = BamlValueWithMeta::Class(
        "Person".to_string(),
        BamlMap::from_pairs(vec![
            ("name".to_string(), BamlValueWithMeta::String("Al".to_string(), (CompletionState::Incomplete, &st))),
            ("age".to_string(), BamlValueWithMeta::Int(4, (CompletionState::Incomplete, &it))),
        ]),
        (CompletionState::Incomplete, &ct),
    );
    assert_eq!(
        process_node(&p, v),
        Ok(BamlValueWithMeta::Class(
            "Person".to_string(),
            BamlMap::from_pairs(vec![("name".to_string(), BamlValueWithMeta::String("Al".to_string(), None))]),
            Some(CompletionState::Incomplete)
        ))
    );
}

#[test]
fn list_of_classes_and_maps_descends() {
    let p = project();
    let lt = FieldType::list(FieldType::class("Nobody"));
    let ct = FieldType::class("Nobody");
    let mt = FieldType::map(FieldType::string(), FieldType::string());
    let v = BamlValueWithMeta::List(
        vec![
            BamlValueWithMeta::Class("Nobody".to_string(), BamlMap::new(), (CompletionState::Complete, &ct)),
            BamlValueWithMeta::Mapping(BamlMap::new(), (CompletionState::Complete, &mt)),
        ],
        (CompletionState::Complete, &lt),
    );
    assert_eq!(
        process_node(&p, v),
        Ok(BamlValueWithMeta::List(vec![BamlValueWithMeta::Mapping(BamlMap::new(), None)], None))
    );
}

#[test]
fn done_annotation_holds_back_incomplete_strings() {
    let p = project();
    let t = FieldType::Primitive(TypeValue::String, with_behavior(true, false));
    let v = BamlValueWithMeta::String("par".to_string(), (CompletionState::Incomplete, &t));
    assert_eq!(process_node(&p, v), Err(StreamingError::IncompleteDoneValue));
    let v = BamlValueWithMeta::String("full".to_string(), (CompletionState::Complete, &t));
    assert_eq!(process_node(&p, v), Ok(BamlValueWithMeta::String("full".to_string(), None)));
}
