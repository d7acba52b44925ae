//! Chat completions, text completions and what requests say of themselves.

use dynamo_llm::baseten_ext::BasetenExt;
use dynamo_llm::chat::{
    deserialize_arguments, deserialize_arguments_opt, ImageDetail, ReasoningContent, Stop,
};
use dynamo_llm::chat_request::{
    B10ReasoningEffort, ChatCompletionRequestUserMessageContent, B10_REASONING_EFFORT_LEVELS,
};
use dynamo_llm::completion::deserialize_echo_bool;
use dynamo_llm::extensions::{
    session_affinity_from_context, session_affinity_from_headers, SessionAffinityId,
    HEADER_DYNAMO_SESSION_ID,
};
use dynamo_llm::number::Float32;
use dynamo_llm::responses::request::{CreateResponse, NvCreateResponse, NvExt};
use dynamo_llm::responses::types::ReasoningEffort;

fn value(text: &str) -> serde_json::Value {
    serde_json::from_str(text).expect("JSON")
}

fn stop(text: &str) -> Option<Stop> {
    Stop::from_value(&value(text))
}

#[test]
fn chat_stop_accepts_token_id_array() {
    assert_eq!(stop("[32, 34]"), Some(Stop::TokenIdArray(vec![32, 34])));
}

#[test]
fn chat_stop_accepts_string_and_string_array() {
    assert_eq!(stop(r#"" The""#), Some(Stop::String(" The".to_string())));
    assert_eq!(
        stop(r#"["A", "B"]"#),
        Some(Stop::StringArray(vec!["A".to_string(), "B".to_string()]))
    );
}

#[test]
fn chat_stop_token_id_display_string_remains_string_stop() {
    assert_eq!(stop(r#""token_id:576""#), Some(Stop::String("token_id:576".to_string())));
    assert_eq!(
        stop(r#"["token_id:576"]"#),
        Some(Stop::StringArray(vec!["token_id:576".to_string()]))
    );
}

#[test]
fn chat_stop_rejects_single_token_id() {
    assert!(stop("576").is_none());
}

fn request_stop(json: &str) -> Option<Stop> {
    Stop::from_value(&value(json)["stop"])
}

#[test]
fn completion_stop_accepts_token_id_array() {
    let json = r#"{"model": "test_model", "prompt": [1, 2, 3], "stop": [32, 34]}"#;
    assert_eq!(request_stop(json), Some(Stop::TokenIdArray(vec![32, 34])));
}

#[test]
fn completion_stop_accepts_string_and_string_array() {
    let one_stop = r#"{"model": "test_model", "prompt": "hello", "stop": " The"}"#;
    assert_eq!(request_stop(one_stop), Some(Stop::String(" The".to_string())));
    let many_stops = r#"{"model": "test_model", "prompt": "hello", "stop": ["A", "B"]}"#;
    assert_eq!(
        request_stop(many_stops),
        Some(Stop::StringArray(vec!["A".to_string(), "B".to_string()]))
    );
}

#[test]
fn completion_stop_token_id_display_string_remains_string_stop() {
    let json = r#"{"model": "test_model", "prompt": [1, 2, 3], "stop": "token_id:576"}"#;
    assert_eq!(request_stop(json), Some(Stop::String("token_id:576".to_string())));
    let json = r#"{"model": "test_model", "prompt": [1, 2, 3], "stop": ["token_id:576"]}"#;
    assert_eq!(
        request_stop(json),
        Some(Stop::StringArray(vec!["token_id:576".to_string()]))
    );
}

#[test]
fn completion_stop_rejects_single_token_id() {
    let json = r#"{"model": "test_model", "prompt": [1, 2, 3], "stop": 576}"#;
    assert!(request_stop(json).is_none());
}

#[test]
fn stop_converts_from_upstream_stop_configuration() {
    let upstream =
        async_openai::types::chat::StopConfiguration::StringArray(vec!["END".to_string()]);
    assert_eq!(Stop::from(upstream), Stop::StringArray(vec!["END".to_string()]));
}

#[test]
fn builder_accepts_upstream_stop_configuration() {
    let upstream_stop = async_openai::types::chat::StopConfiguration::String("END".to_string());
    assert_eq!(Stop::from(upstream_stop), Stop::String("END".to_string()));
}

#[test]
fn stops_are_texts_or_token_ids_but_not_both() {
    assert_eq!(stop("[]"), Some(Stop::StringArray(vec![])));
    assert_eq!(stop(r#"["A", 1]"#), None);
    assert_eq!(stop("[4294967295]"), Some(Stop::TokenIdArray(vec![4294967295])));
    assert_eq!(stop("[4294967296]"), None);
    assert_eq!(stop("[-1]"), None);
    assert_eq!(stop("[1.0]"), None);
}

#[test]
fn stops_tell_texts_from_token_ids() {
    let one = Stop::from("END");
    assert_eq!(one, Stop::from("END".to_string()));
    assert_eq!(one.strings(), Some(vec!["END".to_string()]));
    assert_eq!(one.token_ids(), None);
    let some = Stop::from(vec!["END".to_string()]);
    assert_eq!(some.strings(), Some(vec!["END".to_string()]));
    let ids = Stop::from(vec![7]);
    assert_eq!(ids.strings(), None);
    assert_eq!(ids.token_ids(), Some(vec![7]));
}

#[test]
fn function_call_accepts_string_arguments() {
    let arguments = deserialize_arguments(&value(r#""{\"location\":\"SF\"}""#));
    assert_eq!(arguments.as_deref(), Ok("{\"location\":\"SF\"}"));
}

#[test]
fn function_call_accepts_dict_arguments() {
    let arguments = deserialize_arguments(&value(r#"{"location": "SF"}"#));
    assert_eq!(arguments.as_deref(), Ok("{\"location\":\"SF\"}"));
}

#[test]
fn function_call_rejects_integer_arguments() {
    let error = deserialize_arguments(&value("42")).unwrap_err();
    assert_eq!(error, "expected string or object for `arguments`, got 42");
}

#[test]
fn function_call_rejects_boolean_arguments() {
    assert!(deserialize_arguments(&value("true")).is_err());
}

#[test]
fn function_call_rejects_null_arguments() {
    assert!(deserialize_arguments(&value("null")).is_err());
}

#[test]
fn function_call_rejects_array_arguments() {
    assert!(deserialize_arguments(&value("[1, 2, 3]")).is_err());
}

#[test]
fn function_call_stream_null_arguments_produces_none() {
    assert_eq!(deserialize_arguments_opt(Some(&value("null"))), Ok(None));
}

#[test]
fn function_call_stream_rejects_integer_arguments() {
    assert!(deserialize_arguments_opt(Some(&value("42"))).is_err());
}

#[test]
fn function_call_stream_rejects_boolean_arguments() {
    assert!(deserialize_arguments_opt(Some(&value("true"))).is_err());
}

#[test]
fn function_call_stream_accepts_dict_arguments() {
    let arguments = deserialize_arguments_opt(Some(&value(r#"{"location": "SF"}"#)));
    assert_eq!(arguments, Ok(Some("{\"location\":\"SF\"}".to_string())));
}

#[test]
fn function_call_stream_accepts_null_arguments() {
    assert_eq!(deserialize_arguments_opt(None), Ok(None));
}

#[test]
fn tool_call_with_dict_arguments_roundtrip() {
    let arguments =
        deserialize_arguments(&value(r#"{"query": "hello", "limit": 10}"#)).unwrap();
    assert_eq!(value(&arguments), value(r#"{"query": "hello", "limit": 10}"#));
}

#[test]
fn stream_delta_function_call_accepts_dict_arguments() {
    let arguments = deserialize_arguments_opt(Some(&value(r#"{"location": "SF"}"#))).unwrap();
    assert_eq!(arguments.as_deref(), Some("{\"location\":\"SF\"}"));
}

#[test]
fn image_detail_defaults_to_auto() {
    assert_eq!(ImageDetail::default(), ImageDetail::Auto);
}

fn effort(level: &str) -> B10ReasoningEffort {
    B10ReasoningEffort::from_client_value(serde_json::Value::String(level.to_string()))
}

#[test]
fn every_canonical_level_round_trips_to_its_variant() {
    for level in B10_REASONING_EFFORT_LEVELS {
        let parsed = effort(level);
        assert_eq!(parsed.as_level(), Some(level), "level {level}");
        assert_eq!(
            parsed.to_value(),
            serde_json::Value::String(level.to_string()),
            "level {level} re-serializes"
        );
    }
}

#[test]
fn off_ladder_values_are_carried_verbatim() {
    for text in [r#""ultra""#, r#""persistent""#, r#""turbo""#, r#""Max""#, r#""""#, "true", "4096"]
    {
        let raw = value(text);
        let parsed = B10ReasoningEffort::from_client_value(raw.clone());
        match &parsed {
            B10ReasoningEffort::Other(kept) => assert_eq!(*kept, raw),
            _ => panic!("{raw} is no level"),
        }
        assert_eq!(parsed.as_level(), None, "{raw}");
        assert_eq!(parsed.to_value(), raw, "{raw} re-serializes byte for byte");
    }
}

#[test]
fn only_max_folds_when_echoed_through_the_upstream_enum() {
    let expected = [
        ("none", ReasoningEffort::NoEffort),
        ("minimal", ReasoningEffort::Minimal),
        ("low", ReasoningEffort::Low),
        ("medium", ReasoningEffort::Medium),
        ("high", ReasoningEffort::High),
        ("xhigh", ReasoningEffort::Xhigh),
        ("max", ReasoningEffort::Xhigh),
    ];
    for (level, echoed) in expected {
        assert_eq!(effort(level).to_async_openai(), Some(echoed), "level {level}");
    }
    assert_eq!(effort("ultra").to_async_openai(), None);
}

#[test]
fn user_messages_are_made_of_text() {
    let text = ChatCompletionRequestUserMessageContent::Text("hi".to_string());
    assert_eq!(ChatCompletionRequestUserMessageContent::from("hi"), text);
    assert_eq!(ChatCompletionRequestUserMessageContent::from("hi".to_string()), text);
    assert_eq!(
        ChatCompletionRequestUserMessageContent::default(),
        ChatCompletionRequestUserMessageContent::Text(String::new())
    );
}

#[test]
fn reasoning_in_segments_reads_as_lines() {
    let segments =
        ReasoningContent::Segments(vec!["a".to_string(), String::new(), "b".to_string()]);
    assert_eq!(segments.to_flat_string(), "a\nb");
    assert_eq!(segments.segments().map(|s| s.len()), Some(3));
    let text = ReasoningContent::Text("a".to_string());
    assert_eq!(text.to_flat_string(), "a");
    assert!(text.segments().is_none());
}

#[test]
fn echo_rejects_integer() {
    let err_msg = deserialize_echo_bool(&value("1")).unwrap_err();
    assert!(err_msg.contains("invalid type"));
    assert!(err_msg.contains("integer"));
    assert!(err_msg.contains("echo parameter"));
}

#[test]
fn echo_rejects_string() {
    let err_msg = deserialize_echo_bool(&value(r#""null""#)).unwrap_err();
    assert!(err_msg.contains("invalid type"));
    assert!(err_msg.contains("string"));
    assert!(err_msg.contains("echo parameter"));
}

#[test]
fn echo_is_a_flag_or_absent() {
    assert_eq!(deserialize_echo_bool(&value("true")), Ok(Some(true)));
    assert_eq!(deserialize_echo_bool(&value("false")), Ok(Some(false)));
    assert_eq!(deserialize_echo_bool(&value("null")), Ok(None));
}

#[test]
fn requires_nonempty_explicit_header() {
    let mut headers = http::HeaderMap::new();
    assert!(session_affinity_from_headers(&headers).is_none());
    headers.insert(HEADER_DYNAMO_SESSION_ID, "session-123".parse().unwrap());
    assert_eq!(session_affinity_from_headers(&headers).unwrap().as_str(), "session-123");
    headers.insert(HEADER_DYNAMO_SESSION_ID, "".parse().unwrap());
    assert!(session_affinity_from_headers(&headers).is_none());
}

#[test]
fn affinity_survives_context_metadata_only_hop() {
    let forwarded = Some("session-123".to_string());
    assert_eq!(
        session_affinity_from_context(None, forwarded.clone()).unwrap().as_str(),
        "session-123"
    );
    let typed = Some(SessionAffinityId::new("session-1".to_string()));
    assert_eq!(
        session_affinity_from_context(typed, forwarded).unwrap().as_str(),
        "session-1"
    );
    assert!(session_affinity_from_context(None, Some(String::new())).is_none());
}

fn make_response_request() -> NvCreateResponse {
    NvCreateResponse {
        inner: CreateResponse {
            model: Some("test-model".to_string()),
            max_output_tokens: Some(1024),
            temperature: Some(Float32 { bits: 0.5f32.to_bits() }),
            top_p: Some(Float32 { bits: 0.9f32.to_bits() }),
        },
        baseten_ext: BasetenExt::default(),
        nvext: Some(NvExt {
            annotations: Some(vec!["debug".to_string(), "trace".to_string()]),
        }),
    }
}

fn number(value: Option<Float32>) -> Option<f32> {
    value.map(|v| f32::from_bits(v.bits))
}

#[test]
fn test_annotations_trait_behavior() {
    let req = make_response_request();
    assert_eq!(req.annotations(), Some(vec!["debug".to_string(), "trace".to_string()]));
    assert!(req.has_annotation("debug"));
    assert!(req.has_annotation("trace"));
    assert!(!req.has_annotation("missing"));
    assert!(!req.has_annotation("deb"));
}

#[test]
fn test_openai_sampling_trait_behavior() {
    let req = make_response_request();
    assert_eq!(number(req.get_temperature()), Some(0.5));
    assert_eq!(number(req.get_top_p()), Some(0.9));
    assert_eq!(number(req.get_frequency_penalty()), None);
    assert_eq!(number(req.get_presence_penalty()), None);
    assert_eq!(req.get_seed(), None);
    assert_eq!(req.get_n(), None);
    assert_eq!(req.get_best_of(), None);
}

#[test]
fn test_openai_stop_conditions_trait_behavior() {
    let req = make_response_request();
    assert_eq!(req.get_max_tokens(), Some(1024));
    assert_eq!(req.get_min_tokens(), None);
    assert_eq!(req.get_stop(), None);
}

#[test]
fn requests_without_extensions_ask_for_nothing() {
    let mut req = make_response_request();
    assert!(req.nvext().is_some());
    assert!(req.raw_prompt().is_none());
    req.nvext = None;
    assert_eq!(req.annotations(), None);
    assert!(!req.has_annotation("debug"));
}
