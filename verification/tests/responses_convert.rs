//! Whole chat completions as Responses API objects, tools, and the members of the wire form.

use std::borrow::Cow;

use dynamo_llm::chat::{
    ChatChoice, ChatCompletionMessageContent, ChatCompletionMessageToolCall,
    ChatCompletionResponseMessage, CompletionUsage, CreateChatCompletionResponse, FinishReason,
    FunctionCall, FunctionType, NvCreateChatCompletionResponse, PromptTokensDetails, Role,
};
use dynamo_llm::json::{parse_json, Json};
use dynamo_llm::number::Float32;
use dynamo_llm::request_flags::{messages_stream_options, responses_stream};
use dynamo_llm::responses::convert::{chat_completion_to_response, NvResponse};
use dynamo_llm::responses::response::{ResponseParams, ResponsesContext};
use dynamo_llm::responses::spec_fields::patch_response_for_spec;
use dynamo_llm::responses::tools::{
    call_described_by, namespaced_chat_tool_name, normalize_tools, parse_tool_call_text, resolve_tool_identity,
    strip_tool_call_text,
};
use dynamo_llm::responses::types::{
    AssistantRole, CustomToolParam, FunctionTool, FunctionToolParam, IncludeEnum,
    NamespaceToolParam, NamespaceToolParamTool, OutputItem, OutputMessageContent, OutputStatus,
    PromptCacheRetention, Reasoning, ReasoningEffort, ReasoningSummary, ResponseTextParam,
    ServiceTier, Status, SummaryPart, SummaryTextContent, TextResponseFormatConfiguration, Tool,
    Truncation,
};
use dynamo_llm::text_map::TextMap;

fn text_map(pairs: &[(&str, &str)]) -> TextMap<String> {
    let mut map = TextMap::new();
    for (name, text) in pairs {
        map.insert(name.to_string(), text.to_string());
    }
    map
}

fn function(name: &str) -> Tool {
    Tool::Function(FunctionTool {
        name: name.to_string(),
        parameters: None,
        strict: None,
        description: None,
        defer_loading: None,
    })
}

fn member(name: &str) -> NamespaceToolParamTool {
    NamespaceToolParamTool::Function(FunctionToolParam {
        name: name.to_string(),
        parameters: None,
        strict: None,
        description: None,
        defer_loading: None,
    })
}

fn namespace(name: &str, tools: Vec<NamespaceToolParamTool>) -> Tool {
    Tool::Namespace(NamespaceToolParam {
        name: name.to_string(),
        description: "a group".to_string(),
        tools,
    })
}

fn identity(name: &str, group: Option<&str>) -> (String, Option<String>) {
    (name.to_string(), group.map(String::from))
}

fn chat_response(choices: Vec<ChatChoice>) -> NvCreateChatCompletionResponse {
    NvCreateChatCompletionResponse {
        inner: CreateChatCompletionResponse {
            id: "test".to_string(),
            choices,
            created: 0,
            model: "m".to_string(),
            service_tier: None,
            system_fingerprint: None,
            object: "chat.completion".to_string(),
            usage: None,
        },
        nvext: None,
    }
}

fn choice(message: ChatCompletionResponseMessage, finish_reason: Option<FinishReason>) -> ChatChoice {
    ChatChoice { index: 0, message, finish_reason }
}

fn message(text: Option<&str>) -> ChatCompletionResponseMessage {
    ChatCompletionResponseMessage {
        content: text.map(|text| ChatCompletionMessageContent::Text(text.to_string())),
        refusal: None,
        tool_calls: None,
        role: Role::Assistant,
        function_call: None,
        reasoning_content: None,
    }
}

fn make_chat_resp_with_text(text: &str) -> NvCreateChatCompletionResponse {
    chat_response(vec![choice(message(Some(text)), Some(FinishReason::Stop))])
}

fn make_chat_resp_with_reasoning(reasoning: &str) -> NvCreateChatCompletionResponse {
    let mut response = make_chat_resp_with_text("answer");
    response.inner.choices[0].message.reasoning_content = Some(reasoning.to_string());
    response
}

fn tool_call(id: &str, name: &str, arguments: &str) -> ChatCompletionMessageToolCall {
    ChatCompletionMessageToolCall {
        id: id.to_string(),
        kind: FunctionType::Function,
        function: FunctionCall { name: name.to_string(), arguments: arguments.to_string() },
    }
}

fn make_chat_resp_with_tool_call(
    finish_reason: FinishReason,
    arguments: &str,
) -> NvCreateChatCompletionResponse {
    let mut response = make_chat_resp_with_text("");
    let choice = &mut response.inner.choices[0];
    choice.finish_reason = Some(finish_reason);
    choice.message.content = None;
    choice.message.tool_calls = Some(vec![tool_call("call_abc", "get_weather", arguments)]);
    response
}

fn summary_params() -> ResponseParams {
    ResponseParams {
        reasoning: Some(Reasoning { effort: None, summary: Some(ReasoningSummary::Auto) }),
        ..Default::default()
    }
}

fn convert(response: NvCreateChatCompletionResponse, params: &ResponseParams) -> NvResponse {
    chat_completion_to_response(response, params, &None)
}

#[test]
fn namespace_tool_group_flattens_and_maps() {
    let tools = Some(vec![
        function("shell"),
        namespace("mcp__codex_apps__gmail", vec![member("get_recent_emails")]),
    ]);

    assert_eq!(
        namespaced_chat_tool_name("mcp__codex_apps__gmail", "get_recent_emails"),
        "mcp__codex_apps__gmail__get_recent_emails"
    );
    assert_eq!(
        resolve_tool_identity(&tools, "mcp__codex_apps__gmail__get_recent_emails"),
        identity("get_recent_emails", Some("mcp__codex_apps__gmail"))
    );
    assert_eq!(resolve_tool_identity(&tools, "shell"), identity("shell", None));
    assert_eq!(resolve_tool_identity(&None, "anything"), identity("anything", None));
}

#[test]
fn overlapping_tool_names_across_namespaces_stay_distinct() {
    let tools = Some(vec![
        namespace("gmail", vec![member("search")]),
        namespace("drive", vec![member("search")]),
    ]);

    assert_eq!(namespaced_chat_tool_name("gmail", "search"), "gmail__search");
    assert_eq!(namespaced_chat_tool_name("drive", "search"), "drive__search");
    assert_eq!(
        resolve_tool_identity(&tools, "gmail__search"),
        identity("search", Some("gmail"))
    );
    assert_eq!(
        resolve_tool_identity(&tools, "drive__search"),
        identity("search", Some("drive"))
    );
}

#[test]
fn members_with_underscores_are_not_split() {
    let custom = NamespaceToolParamTool::Custom(CustomToolParam {
        name: "a__b".to_string(),
        description: None,
        format: None,
    });
    let tools = Some(vec![namespace("x", vec![custom])]);
    assert_eq!(resolve_tool_identity(&tools, "x__a__b"), identity("a__b", Some("x")));
    assert_eq!(resolve_tool_identity(&tools, "x__a"), identity("x__a", None));
}

#[test]
fn normal_tools_are_strict_unless_they_say_otherwise() {
    let mut loose = FunctionTool {
        name: "g".to_string(),
        parameters: None,
        strict: Some(false),
        description: None,
        defer_loading: None,
    };
    let normal = normalize_tools(vec![function("f"), Tool::Function(loose.clone())]);
    let Tool::Function(first) = &normal[0] else { panic!("expected a function") };
    assert_eq!(first.strict, Some(true));
    loose.strict = Some(false);
    let Tool::Function(second) = &normal[1] else { panic!("expected a function") };
    assert_eq!(second.strict, Some(false));
}

#[test]
fn test_into_nvresponse_from_chat_response() {
    let mut chat_resp =
        chat_response(vec![choice(message(Some("This is a reply")), None)]);
    chat_resp.inner.id = "chatcmpl-xyz".to_string();
    chat_resp.inner.created = 1_726_000_000;
    chat_resp.inner.model = "llama-3.1-8b-instruct".to_string();

    let wrapped = convert(chat_resp, &ResponseParams::default());

    assert_eq!(wrapped.inner.model, "llama-3.1-8b-instruct");
    assert_eq!(wrapped.inner.status, Status::Completed);
    assert_eq!(wrapped.inner.object, "response");
    assert!(wrapped.inner.id.starts_with("resp_"));

    let OutputItem::Message(msg) = &wrapped.inner.output[0] else {
        panic!("Expected Message variant");
    };
    assert_eq!(msg.role, AssistantRole::Assistant);
    let OutputMessageContent::OutputText(txt) = &msg.content[0] else {
        panic!("Expected OutputText content");
    };
    assert_eq!(txt.text, "This is a reply");
}

#[test]
fn test_response_with_tool_calls() {
    let mut reply = message(None);
    reply.tool_calls = Some(vec![tool_call("call_abc", "get_weather", r#"{"location":"SF"}"#)]);
    let wrapped = convert(chat_response(vec![choice(reply, None)]), &ResponseParams::default());
    assert_eq!(wrapped.inner.output.len(), 1);
    let OutputItem::FunctionCall(fc) = &wrapped.inner.output[0] else {
        panic!("Expected FunctionCall output");
    };
    assert_eq!(fc.call_id, "call_abc");
    assert_eq!(fc.name, "get_weather");
}

#[test]
fn test_parse_tool_call_text() {
    let text = r#"<think>
Let me check the weather.
</think>

<tool_call>
{"name": "get_weather", "arguments": {"location": "San Francisco"}}
</tool_call>"#;
    let calls = parse_tool_call_text(text);
    assert_eq!(calls.len(), 1);
    assert_eq!(calls[0].0, "get_weather");
    let args: serde_json::Value = serde_json::from_str(&calls[0].1).unwrap();
    assert_eq!(args["location"], "San Francisco");
}

#[test]
fn test_parse_tool_call_text_multiple() {
    let text = r#"<tool_call>
{"name": "func_a", "arguments": {"x": 1}}
</tool_call>
<tool_call>
{"name": "func_b", "arguments": {"y": 2}}
</tool_call>"#;
    let calls = parse_tool_call_text(text);
    assert_eq!(calls.len(), 2);
    assert_eq!(calls[0].0, "func_a");
    assert_eq!(calls[1].0, "func_b");
}

#[test]
fn test_parse_tool_call_text_no_calls() {
    let text = "Just a regular message with no tool calls.";
    let calls = parse_tool_call_text(text);
    assert!(calls.is_empty());
}

#[test]
fn test_strip_tool_call_text() {
    let text = r#"<think>
thinking
</think>

<tool_call>
{"name": "f", "arguments": {}}
</tool_call>"#;
    let stripped = strip_tool_call_text(text);
    assert!(!stripped.contains("<tool_call>"));
    assert!(!stripped.contains("<think>"));
}

#[test]
fn stripping_keeps_the_text_around_calls() {
    assert_eq!(strip_tool_call_text("a<tool_call>x</tool_call>b<think>y</think>c"), "abc");
    assert_eq!(strip_tool_call_text("plain"), "plain");
}

#[test]
fn calls_written_in_text_become_calls() {
    let text = "Sure.<tool_call>{\"name\":\"f\",\"arguments\":{\"a\":1}}</tool_call>";
    let wrapped = convert(make_chat_resp_with_text(text), &ResponseParams::default());
    let call = wrapped
        .inner
        .output
        .iter()
        .find_map(|item| match item {
            OutputItem::FunctionCall(call) => Some(call),
            _ => None,
        })
        .expect("a call");
    assert_eq!(call.name, "f");
    assert_eq!(call.arguments, "{\"a\":1}");
    assert!(call.call_id.starts_with("call_"));
}

#[test]
fn test_response_echoes_reasoning() {
    let params = ResponseParams {
        reasoning: Some(Reasoning { effort: Some(ReasoningEffort::High), summary: None }),
        ..Default::default()
    };
    let resp = convert(chat_response(vec![]), &params);
    assert_eq!(resp.inner.reasoning.unwrap().effort, Some(ReasoningEffort::High));
}

#[test]
fn test_response_echoes_text_format() {
    let params = ResponseParams {
        text: Some(ResponseTextParam {
            format: TextResponseFormatConfiguration::JsonObject,
            verbosity: None,
        }),
        ..Default::default()
    };
    let resp = convert(chat_response(vec![]), &params);
    assert_eq!(resp.inner.text.unwrap().format, TextResponseFormatConfiguration::JsonObject);
}

#[test]
fn test_response_echoes_service_tier() {
    let params = ResponseParams { service_tier: Some(ServiceTier::Flex), ..Default::default() };
    let resp = convert(chat_response(vec![]), &params);
    assert_eq!(resp.inner.service_tier, Some(ServiceTier::Flex));
}

#[test]
fn test_response_echoes_parallel_tool_calls() {
    let params = ResponseParams { parallel_tool_calls: Some(false), ..Default::default() };
    let resp = convert(chat_response(vec![]), &params);
    assert_eq!(resp.inner.parallel_tool_calls, Some(false));
}

#[test]
fn b10_reasoning_summary_requires_explicit_request() {
    let unrequested =
        convert(make_chat_resp_with_reasoning("private reasoning"), &ResponseParams::default());
    assert!(unrequested
        .inner
        .output
        .iter()
        .all(|item| !matches!(item, OutputItem::Reasoning(_))));

    let requested = convert(make_chat_resp_with_reasoning("summary"), &summary_params());
    let reasoning = requested
        .inner
        .output
        .iter()
        .find_map(|item| match item {
            OutputItem::Reasoning(reasoning) => Some(reasoning),
            _ => None,
        })
        .expect("requested reasoning summary output");
    assert_eq!(
        reasoning.summary,
        vec![SummaryPart::SummaryText(SummaryTextContent { text: "summary".to_string() })]
    );
}

#[test]
fn test_include_logprobs_empty_by_default() {
    let resp = convert(make_chat_resp_with_text("hello"), &ResponseParams::default());
    for item in &resp.inner.output {
        if let OutputItem::Message(msg) = item {
            for content in &msg.content {
                if let OutputMessageContent::OutputText(t) = content {
                    assert_eq!(t.logprobs.as_deref(), Some(&[][..]));
                }
            }
        }
    }
}

#[test]
fn test_include_logprobs_kept_when_requested() {
    let params = ResponseParams {
        requested: Some(vec![IncludeEnum::MessageOutputTextLogprobs]),
        ..Default::default()
    };
    let resp = convert(make_chat_resp_with_text("hello"), &params);

    let mut found_text = false;
    for item in &resp.inner.output {
        if let OutputItem::Message(msg) = item {
            for content in &msg.content {
                if let OutputMessageContent::OutputText(t) = content {
                    found_text = true;
                    assert!(t.logprobs.is_some());
                }
            }
        }
    }
    assert!(found_text, "Expected text output");
}

#[test]
fn test_truncation_auto_echoed_back() {
    let params = ResponseParams { truncation: Some(Truncation::Auto), ..Default::default() };
    let resp = convert(make_chat_resp_with_text("hello"), &params);
    assert_eq!(resp.inner.truncation, Some(Truncation::Auto));
}

#[test]
fn test_truncation_defaults_to_disabled() {
    let resp = convert(make_chat_resp_with_text("hello"), &ResponseParams::default());
    assert_eq!(resp.inner.truncation, Some(Truncation::Disabled));
}

#[test]
fn b10_length_finish_reason_returns_incomplete_response() {
    let mut chat_resp = make_chat_resp_with_text("partial");
    chat_resp.inner.choices[0].finish_reason = Some(FinishReason::Length);

    let resp = convert(chat_resp, &ResponseParams::default());

    assert_eq!(resp.inner.status, Status::Incomplete);
    assert_eq!(resp.inner.completed_at, None);
    assert_eq!(
        resp.inner.incomplete_details.as_ref().map(|details| details.reason.as_str()),
        Some("max_output_tokens")
    );
    let OutputItem::Message(message) = &resp.inner.output[0] else {
        panic!("expected message output");
    };
    assert_eq!(message.status, OutputStatus::Incomplete);
}

#[test]
fn b10_tool_calls_finish_reason_returns_completed_response() {
    let chat_resp = make_chat_resp_with_tool_call(FinishReason::ToolCalls, r#"{"location":"SF"}"#);

    let response = convert(chat_resp, &ResponseParams::default());

    assert_eq!(response.inner.status, Status::Completed);
    assert!(response.inner.incomplete_details.is_none());
    let OutputItem::FunctionCall(call) = &response.inner.output[0] else {
        panic!("expected function call output");
    };
    assert_eq!(call.status, Some(OutputStatus::Completed));
}

#[test]
fn b10_unmodified_length_with_tool_call_returns_incomplete_response() {
    let chat_resp = make_chat_resp_with_tool_call(FinishReason::Length, r#"{"location":"SF"#);

    let response = convert(chat_resp, &ResponseParams::default());

    assert_eq!(response.inner.status, Status::Incomplete);
    assert_eq!(
        response.inner.incomplete_details.as_ref().map(|details| details.reason.as_str()),
        Some("max_output_tokens")
    );
    let OutputItem::FunctionCall(call) = &response.inner.output[0] else {
        panic!("expected function call output");
    };
    assert_eq!(call.status, Some(OutputStatus::Incomplete));
}

#[test]
fn b10_length_finish_reason_preserves_completed_reasoning_status() {
    let mut chat_resp = make_chat_resp_with_reasoning("complete reasoning");
    chat_resp.inner.choices[0].finish_reason = Some(FinishReason::Length);

    let response = convert(chat_resp, &summary_params()).inner;
    assert_eq!(response.status, Status::Incomplete);
    let OutputItem::Reasoning(reasoning) = &response.output[0] else {
        panic!("expected reasoning output");
    };
    assert_eq!(reasoning.status, Some(OutputStatus::Completed));
    let OutputItem::Message(message) = &response.output[1] else {
        panic!("expected message output");
    };
    assert_eq!(message.status, OutputStatus::Incomplete);
}

#[test]
fn b10_length_finish_reason_marks_terminal_reasoning_incomplete() {
    let mut chat_resp = make_chat_resp_with_reasoning("partial reasoning");
    chat_resp.inner.choices[0].message.content = None;
    chat_resp.inner.choices[0].finish_reason = Some(FinishReason::Length);

    let response = convert(chat_resp, &summary_params()).inner;
    assert_eq!(response.status, Status::Incomplete);
    let OutputItem::Reasoning(reasoning) = &response.output[0] else {
        panic!("expected reasoning output");
    };
    assert_eq!(reasoning.status, Some(OutputStatus::Incomplete));
}

#[test]
fn test_response_echoes_passthrough_metadata() {
    let params = ResponseParams {
        prompt_cache_key: Some("cache-key-codex-1".to_string()),
        prompt_cache_retention: Some(PromptCacheRetention::InMemory),
        safety_identifier: Some("user-abc".to_string()),
        ..Default::default()
    };
    let resp = convert(make_chat_resp_with_text("hello"), &params);
    assert_eq!(resp.inner.prompt_cache_key.as_deref(), Some("cache-key-codex-1"));
    assert_eq!(resp.inner.prompt_cache_retention, Some(PromptCacheRetention::InMemory));
    assert_eq!(resp.inner.safety_identifier.as_deref(), Some("user-abc"));
}

#[test]
fn test_response_echoes_metadata_top_logprobs_and_penalties() {
    let bits = |value: f32| Float32 { bits: value.to_bits() };
    let params = ResponseParams {
        metadata: Some(text_map(&[("job", "x")])),
        top_logprobs: Some(5),
        presence_penalty: Some(bits(0.75)),
        frequency_penalty: Some(bits(0.25)),
        service_tier: Some(ServiceTier::Auto),
        ..Default::default()
    };
    let resp = convert(make_chat_resp_with_text("hello"), &params);
    assert_eq!(resp.inner.metadata, Some(text_map(&[("job", "x")])));
    assert_eq!(resp.inner.top_logprobs, Some(5));
    assert_eq!(f32::from_bits(resp.presence_penalty.bits), 0.75);
    assert_eq!(f32::from_bits(resp.frequency_penalty.bits), 0.25);
    assert_eq!(resp.inner.service_tier, Some(ServiceTier::Auto));
}

fn text(value: &str) -> Json {
    Json::Str(value.to_string())
}

fn find<'a>(members: &'a [(String, Json)], name: &str) -> Option<&'a Json> {
    members.iter().find(|(held, _)| held == name).map(|(_, value)| value)
}

#[test]
fn test_response_wire_format_shape() {
    let resp = convert(make_chat_resp_with_text("hello"), &ResponseParams::default());
    assert_eq!(f32::from_bits(resp.frequency_penalty.bits), 0.0);
    assert_eq!(f32::from_bits(resp.presence_penalty.bits), 0.0);
    assert_eq!(resp.store, false);
    assert_eq!(resp.inner.object, "response");
    assert_eq!(resp.inner.status, Status::Completed);
    assert_eq!(resp.inner.metadata, Some(text_map(&[])));
    assert!(resp.nvext.is_none());

    let nullable = [
        "error",
        "incomplete_details",
        "billing",
        "conversation",
        "safety_identifier",
        "max_tool_calls",
        "instructions",
        "previous_response_id",
        "prompt_cache_key",
        "reasoning",
    ];
    let names: Vec<String> = nullable.iter().map(|name| name.to_string()).collect();
    let mut members = vec![("object".to_string(), text("response"))];
    patch_response_for_spec(
        &mut members,
        &names,
        Json::Number("0.0".to_string()),
        Json::Number("0.0".to_string()),
        resp.store,
        &resp.nvext,
    );
    for name in nullable {
        assert_eq!(find(&members, name), Some(&Json::Null), "{name}");
    }
    assert_eq!(find(&members, "object"), Some(&text("response")));
    assert_eq!(find(&members, "store"), Some(&Json::Bool(false)));
    assert_eq!(find(&members, "presence_penalty"), Some(&Json::Number("0.0".to_string())));
    assert!(find(&members, "nvext").is_none());
}

#[test]
fn token_details_tell_of_cache_writes() {
    let details = Json::Object(vec![("cached_tokens".to_string(), Json::Number("3".to_string()))]);
    let usage = Json::Object(vec![("input_tokens_details".to_string(), details)]);
    let mut members = vec![("usage".to_string(), usage)];
    patch_response_for_spec(
        &mut members,
        &vec!["error".to_string()],
        Json::Number("1".to_string()),
        Json::Number("2".to_string()),
        true,
        &Some(text("extra")),
    );
    let usage = find(&members, "usage").unwrap();
    let details = usage.get("input_tokens_details").unwrap();
    assert_eq!(details.get("cache_write_tokens"), Some(&Json::Number("0".to_string())));
    assert_eq!(details.get("cached_tokens"), Some(&Json::Number("3".to_string())));
    assert_eq!(find(&members, "frequency_penalty"), Some(&Json::Number("2".to_string())));
    assert_eq!(find(&members, "store"), Some(&Json::Bool(true)));
    assert_eq!(find(&members, "nvext"), Some(&text("extra")));
}

#[test]
fn context_and_token_counts_reach_the_response() {
    let context = Some(ResponsesContext {
        previous_response_id: Some("resp_prev".to_string()),
        store: true,
    });
    let mut chat_resp = make_chat_resp_with_text("hi");
    chat_resp.inner.usage = Some(CompletionUsage {
        prompt_tokens: 10,
        completion_tokens: 5,
        total_tokens: 15,
        prompt_tokens_details: Some(PromptTokensDetails {
            audio_tokens: None,
            cached_tokens: Some(4),
        }),
        completion_tokens_details: None,
    });
    let resp = chat_completion_to_response(chat_resp, &ResponseParams::default(), &context);
    assert_eq!(resp.inner.previous_response_id.as_deref(), Some("resp_prev"));
    let usage = resp.inner.usage.unwrap();
    assert_eq!(usage.input_tokens, 10);
    assert_eq!(usage.input_tokens_details.cached_tokens, 4);
}

#[test]
fn streaming_follows_the_body() {
    let read = |text: &str| -> serde_json::Value { serde_json::from_str(text).unwrap() };
    assert!(!responses_stream(&read("{\"stream\":false}")));
    assert!(responses_stream(&read("{\"stream\":true}")));
    assert!(responses_stream(&read("{}")));
    assert!(responses_stream(&read("{\"stream\":\"false\"}")));
    let options = messages_stream_options();
    assert!(options.include_usage);
    assert!(!options.continuous_usage_stats);
}

#[test]
fn a_text_without_tags_is_handed_back_as_it_is() {
    for text in ["plain", "", "a</think>b", "a</tool_call>b"] {
        match strip_tool_call_text(text) {
            Cow::Borrowed(same) => assert_eq!(same, text),
            Cow::Owned(copy) => panic!("{copy:?} was copied"),
        }
    }
    for text in ["<think>", "a<tool_call>b"] {
        assert!(matches!(strip_tool_call_text(text), Cow::Owned(_)));
    }
}

#[test]
fn a_json_value_describes_a_call() {
    let tree = |name: Json, arguments: Option<Json>| {
        let mut members = vec![("name".to_string(), name)];
        if let Some(value) = arguments {
            members.push(("arguments".to_string(), value));
        }
        Json::Object(members)
    };
    let name = || Json::Str("f".to_string());
    let printed = || Some("[1]".to_string());
    let call = |arguments: &str| Some(("f".to_string(), arguments.to_string()));
    let list = || Some(Json::Array(vec![Json::Number("1".to_string())]));
    assert_eq!(call_described_by(&tree(name(), list()), printed()), call("[1]"));
    assert_eq!(call_described_by(&tree(name(), list()), None), call("{}"));
    assert_eq!(call_described_by(&tree(name(), None), None), call("{}"));
    let text = Some(Json::Str("{\"a\":1}".to_string()));
    assert_eq!(call_described_by(&tree(name(), text), printed()), call("{\"a\":1}"));
    assert_eq!(call_described_by(&tree(Json::Str(String::new()), None), None), None);
    assert_eq!(call_described_by(&tree(Json::Null, None), None), None);
    assert_eq!(call_described_by(&Json::Null, None), None);
}

#[test]
fn printed_arguments_keep_the_order_of_their_members() {
    let calls = parse_tool_call_text(
        "<tool_call>{\"name\":\"f\",\"arguments\":{\"z\":1,\"a\":2}}</tool_call>",
    );
    assert_eq!(calls, vec![("f".to_string(), "{\"z\":1,\"a\":2}".to_string())]);
}

#[test]
fn metadata_is_the_same_in_any_order() {
    let one = text_map(&[("a", "1"), ("b", "2")]);
    assert_eq!(one, text_map(&[("b", "2"), ("a", "1")]));
    assert_eq!(one, one.copied());
    assert_ne!(one, text_map(&[("a", "1")]));
    assert_ne!(one, text_map(&[("a", "1"), ("b", "3")]));
    assert_ne!(one, text_map(&[("a", "1"), ("c", "2")]));
    assert_eq!(one.get("b").map(String::as_str), Some("2"));
    assert_eq!(one.get("c"), None);
    assert_eq!(text_map(&[("a", "1"), ("a", "2")]), text_map(&[("a", "2")]));
}

#[test]
fn every_call_of_a_response_has_a_fresh_id() {
    let text = "<tool_call>{\"name\":\"f\"}</tool_call><tool_call>{\"name\":\"g\"}</tool_call>";
    let response = convert(make_chat_resp_with_text(text), &ResponseParams::default());
    let mut ids = Vec::new();
    for item in &response.inner.output {
        if let OutputItem::FunctionCall(call) = item {
            let id = call.id.clone().unwrap();
            assert!(id.starts_with("fc_") && id.len() == 35);
            assert!(call.call_id.starts_with("call_") && call.call_id.len() == 37);
            ids.push(id);
        }
    }
    assert_eq!(ids.len(), 2);
    assert_ne!(ids[0], ids[1]);
}

#[test]
fn json_objects_are_the_same_in_any_order() {
    let read = |text: &str| parse_json(text).unwrap();
    let one = read("{\"a\":[1,{\"x\":true,\"y\":null}],\"b\":\"t\"}");
    assert_eq!(one, read("{\"b\":\"t\",\"a\":[1,{\"y\":null,\"x\":true}]}"));
    assert_ne!(one, read("{\"b\":\"t\",\"a\":[{\"y\":null,\"x\":true},1]}"));
    assert_ne!(one, read("{\"a\":[1,{\"x\":true,\"y\":null}]}"));
    assert_ne!(read("{\"a\":1}"), read("{\"a\":1,\"b\":2}"));
    assert_ne!(read("{\"a\":1}"), read("{\"a\":2}"));
    assert_ne!(read("1"), read("1.0"));
    assert_eq!(read("0.0"), read("-0.0"));
    assert_ne!(read("\"1\""), read("1"));
}
