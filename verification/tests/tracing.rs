use baml_engine::json::JsonValue;
use baml_engine::tracing::{
    error_from_result, event_chain, parent_event_id, root_event_id, APIWrapper, BamlTracer,
    FunctionOutcome, TracingSpan,
};

fn options(enabled: bool, stage: &str) -> APIWrapper {
    APIWrapper { enabled, stage: stage.to_string() }
}

#[test]
fn tracer_uses_given_options_or_fallback() {
    let t = BamlTracer::new(Some(options(true, "test")), options(false, "prod"));
    assert!(t.enabled);
    assert_eq!(t.options.stage, "test");
    assert_eq!(t.tracer_batch_size, Some(1));
    assert!(t.flush());
    let t = BamlTracer::new(None, options(true, "prod"));
    assert_eq!(t.tracer_batch_size, Some(20));
    let t = BamlTracer::new(None, options(false, "test"));
    assert!(!t.enabled);
    assert_eq!(t.tracer_batch_size, None);
    assert!(!t.flush());
}

#[test]
fn disabled_tracer_starts_no_span() {
    let t = BamlTracer::new(None, options(false, "prod"));
    assert!(t.start_span("f", &vec![], None, 7).is_none());
}

#[test]
fn spans_get_v4_ids_and_parents() {
    let t = BamlTracer::new(None, options(true, "prod"));
    let params = vec![("x".to_string(), JsonValue::Int(1))];
    let root = t.start_span("outer", &params, None, u128::MAX).unwrap();
    assert_eq!(root.function_name, "outer");
    assert_eq!(root.params, params);
    assert!(root.parent_ids.is_none());
    assert_eq!((root.span_id >> 76) & 0xf, 4);
    assert_eq!((root.span_id >> 62) & 0x3, 2);
    assert_eq!(root.span_id, 0xffff_ffff_ffff_4fff_bfff_ffff_ffff_ffffu128);
    let child = t.start_span("inner", &vec![], Some(&root), 0).unwrap();
    assert_eq!(child.parent_ids, Some(vec![("outer".to_string(), root.span_id)]));
    assert_eq!(child.span_id, 0x0000_0000_0000_4000_8000_0000_0000_0000u128);
    assert_eq!(
        uuid::Uuid::from_u128(child.span_id).get_version(),
        Some(uuid::Version::Random)
    );
}

#[test]
fn errors_recorded_for_calls() {
    let ok = FunctionOutcome { parsed: Some(Ok(())), llm_content_error: None };
    assert!(error_from_result(&Ok(ok)).is_none());
    let parse_failed = FunctionOutcome {
        parsed: Some(Err("could not parse".to_string())),
        llm_content_error: Some("other".to_string()),
    };
    let e = error_from_result(&Ok(parse_failed));
    assert!(e.is_none());
    let no_parse = FunctionOutcome { parsed: None, llm_content_error: Some("timeout".to_string()) };
    let e = error_from_result(&Ok(no_parse)).unwrap();
    assert_eq!(e.code, -2);
    assert_eq!(e.message, "timeout");
    let nothing = FunctionOutcome { parsed: None, llm_content_error: None };
    assert_eq!(error_from_result(&Ok(nothing)).unwrap().message, "Unknown error");
    let failed = error_from_result(&Err("boom".to_string())).unwrap();
    assert_eq!(failed.code, -2);
    assert_eq!(failed.message, "boom");
}

#[test]
fn event_ids_of_a_span_chain() {
    let span = TracingSpan {
        span_id: 9,
        function_name: "f".to_string(),
        params: vec![],
        parent_ids: Some(vec![("a".to_string(), 1), ("b".to_string(), 2)]),
    };
    assert_eq!(root_event_id(&span), 1);
    assert_eq!(parent_event_id(&span), Some(2));
    assert_eq!(event_chain(&span), vec!["a".to_string(), "b".to_string()]);
    let lone = TracingSpan { span_id: 9, function_name: "f".to_string(), params: vec![], parent_ids: None };
    assert_eq!(root_event_id(&lone), 9);
    assert_eq!(parent_event_id(&lone), None);
    assert!(event_chain(&lone).is_empty());
}
