use baml_engine::constraint::ResponseCheck;
use baml_engine::deserializer::Flag;
use baml_engine::json::JsonValue;
use baml_engine::map::BamlMap;
use baml_engine::response::ResponseBamlValue;
use baml_engine::value::{BamlValue, BamlValueWithMeta, CompletionState};

type Meta = (Vec<Flag>, Vec<ResponseCheck>, Option<CompletionState>);

fn plain_meta() -> Meta {
    (vec![Flag::Incomplete], vec![], None)
}

#[test]
fn response_json_reports_state_and_checks() {
    let check = ResponseCheck {
        name: "c".to_string(),
        expression: "e".to_string(),
        status: "succeeded".to_string(),
    };
    let inner: BamlValueWithMeta<Meta> =
        BamlValueWithMeta::Int(5, (vec![], vec![check], Some(CompletionState::Complete)));
    let v = ResponseBamlValue(BamlValueWithMeta::Mapping(
        BamlMap::from_pairs(vec![("n".to_string(), inner)]),
        plain_meta(),
    ));
    let json = v.to_json();
    match json {
        JsonValue::Object(members) => {
            assert_eq!(members.len(), 1);
            assert_eq!(members[0].0, "n");
            match &members[0].1 {
                JsonValue::Object(m) => {
                    let keys: Vec<&str> = m.iter().map(|(k, _)| k.as_str()).collect();
                    assert_eq!(keys, vec!["value", "checks", "completion_state"]);
                    assert_eq!(m[0].1, JsonValue::Int(5));
                    assert_eq!(m[2].1, JsonValue::String("Complete".to_string()));
                }
                _ => panic!("expected an object"),
            }
        }
        _ => panic!("expected an object"),
    }
}

#[test]
fn response_into_plain_value() {
    let v = ResponseBamlValue(BamlValueWithMeta::List(
        vec![BamlValueWithMeta::Bool(true, plain_meta())],
        plain_meta(),
    ));
    assert_eq!(v.into_value(), BamlValue::List(vec![BamlValue::Bool(true)]));
}
