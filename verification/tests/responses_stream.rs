//! Streams of Responses API events.

use dynamo_llm::chat::{
    ChatChoiceStream, ChatCompletionMessageContent, ChatCompletionMessageToolCallChunk,
    ChatCompletionStreamResponseDelta, CompletionUsage, CreateChatCompletionStreamResponse,
    FinishReason, FunctionCallStream, FunctionType, NvCreateChatCompletionStreamResponse,
};
use dynamo_llm::responses::response::{ResponseParams, ResponsesContext};
use dynamo_llm::responses::stream::BackendError;
use dynamo_llm::responses::stream_converter::ResponseStreamConverter;
use dynamo_llm::responses::types::{
    get_event_type, FunctionToolCall, FunctionToolParam, NamespaceToolParam,
    NamespaceToolParamTool, OutputItem, OutputMessageContent, OutputStatus, Reasoning,
    ReasoningSummary, Response, ResponseEventPayload, ResponseStreamEvent, Status, SummaryPart,
    SummaryTextContent, Tool,
};

fn default_params() -> ResponseParams {
    ResponseParams::default()
}

fn summary_params() -> ResponseParams {
    ResponseParams {
        reasoning: Some(Reasoning { effort: None, summary: Some(ReasoningSummary::Auto) }),
        ..default_params()
    }
}

fn converter(params: ResponseParams) -> ResponseStreamConverter {
    ResponseStreamConverter::new("test-model".to_string(), params)
}

fn no_delta() -> ChatCompletionStreamResponseDelta {
    ChatCompletionStreamResponseDelta {
        content: None,
        function_call: None,
        tool_calls: None,
        role: None,
        refusal: None,
        reasoning_content: None,
    }
}

fn chunk_of(
    delta: ChatCompletionStreamResponseDelta,
    finish_reason: Option<FinishReason>,
) -> NvCreateChatCompletionStreamResponse {
    NvCreateChatCompletionStreamResponse {
        inner: CreateChatCompletionStreamResponse {
            id: "chat-1".to_string(),
            choices: vec![ChatChoiceStream { index: 0, delta, finish_reason }],
            created: 0,
            model: "test".to_string(),
            service_tier: None,
            system_fingerprint: None,
            object: "chat.completion.chunk".to_string(),
            usage: None,
        },
        nvext: None,
    }
}

fn tool_call_chunk(
    tc_index: u32,
    id: Option<&str>,
    name: Option<&str>,
    args: Option<&str>,
) -> NvCreateChatCompletionStreamResponse {
    let mut delta = no_delta();
    delta.tool_calls = Some(vec![ChatCompletionMessageToolCallChunk {
        index: tc_index,
        id: id.map(String::from),
        kind: Some(FunctionType::Function),
        function: Some(FunctionCallStream {
            name: name.map(String::from),
            arguments: args.map(String::from),
        }),
    }]);
    chunk_of(delta, None)
}

fn finish_chunk(reason: FinishReason) -> NvCreateChatCompletionStreamResponse {
    chunk_of(no_delta(), Some(reason))
}

fn text_chunk(text: &str) -> NvCreateChatCompletionStreamResponse {
    let mut delta = no_delta();
    delta.content = Some(ChatCompletionMessageContent::Text(text.to_string()));
    chunk_of(delta, None)
}

fn reasoning_chunk(text: &str) -> NvCreateChatCompletionStreamResponse {
    let mut delta = no_delta();
    delta.reasoning_content = Some(text.to_string());
    chunk_of(delta, None)
}

fn with_finish_reason(
    mut chunk: NvCreateChatCompletionStreamResponse,
    reason: FinishReason,
) -> NvCreateChatCompletionStreamResponse {
    chunk.inner.choices[0].finish_reason = Some(reason);
    chunk
}

fn event_types(events: &[ResponseStreamEvent]) -> Vec<String> {
    events.iter().map(|event| get_event_type(&event.payload).to_string()).collect()
}

fn has(types: &[String], name: &str) -> bool {
    types.iter().any(|held| held == name)
}

fn count(types: &[String], name: &str) -> usize {
    types.iter().filter(|held| *held == name).count()
}

/// The arguments of the first `done` event for arguments, and the name it gives.
fn arguments_done(events: &[ResponseStreamEvent]) -> Option<(String, Option<String>)> {
    events.iter().find_map(|event| match &event.payload {
        ResponseEventPayload::ResponseFunctionCallArgumentsDone { arguments, name, .. } => {
            Some((arguments.clone(), name.clone()))
        }
        _ => None,
    })
}

/// The call of the first event that announces one.
fn call_added(events: &[ResponseStreamEvent]) -> Option<&FunctionToolCall> {
    events.iter().find_map(|event| match &event.payload {
        ResponseEventPayload::ResponseOutputItemAdded {
            item: OutputItem::FunctionCall(call), ..
        } => Some(call),
        _ => None,
    })
}

/// The call of the first event that ends one.
fn call_done(events: &[ResponseStreamEvent]) -> Option<&FunctionToolCall> {
    events.iter().find_map(|event| match &event.payload {
        ResponseEventPayload::ResponseOutputItemDone {
            item: OutputItem::FunctionCall(call), ..
        } => Some(call),
        _ => None,
    })
}

/// The response of the last event.
fn terminal(events: &[ResponseStreamEvent]) -> &Response {
    match &events[events.len() - 1].payload {
        ResponseEventPayload::ResponseCompleted { response } => response,
        ResponseEventPayload::ResponseIncomplete { response } => response,
        ResponseEventPayload::ResponseFailed { response } => response,
        _ => panic!("the last event is not terminal"),
    }
}

fn reason(response: &Response) -> Option<&str> {
    response.incomplete_details.as_ref().map(|details| details.reason.as_str())
}

fn summary_of(item: &OutputItem) -> String {
    let OutputItem::Reasoning(reasoning) = item else {
        panic!("expected reasoning output");
    };
    let SummaryPart::SummaryText(summary) = &reasoning.summary[0];
    summary.text.clone()
}

#[test]
fn b10_length_finish_reason_marks_open_tool_call_incomplete() {
    let mut conv = converter(default_params());
    let _ = conv.process_chunk(&tool_call_chunk(
        0,
        Some("call-1"),
        Some("get_weather"),
        Some("{\"city\":\"SF"),
    ));
    let finish_events = conv.process_chunk(&finish_chunk(FinishReason::Length));
    let finish_types = event_types(&finish_events);
    assert!(has(&finish_types, "response.function_call_arguments.done"));
    assert!(has(&finish_types, "response.output_item.done"));

    let end_events = conv.emit_end_events();
    assert_eq!(
        event_types(&end_events).last().map(String::as_str),
        Some("response.incomplete")
    );

    let response = conv.make_response(conv.terminal_status(), conv.completed_output());
    assert_eq!(response.status, Status::Incomplete);
    assert_eq!(reason(&response), Some("max_output_tokens"));
    let OutputItem::FunctionCall(call) = &response.output[0] else {
        panic!("expected function call output");
    };
    assert_eq!(call.status, Some(OutputStatus::Incomplete));
}

#[test]
fn b10_length_finish_reason_emits_incomplete_terminal_response() {
    let mut conv = converter(default_params());
    let _ = conv.process_chunk(&text_chunk("partial"));
    let _ = conv.process_chunk(&finish_chunk(FinishReason::Length));

    let end_events = conv.emit_end_events();
    assert_eq!(
        event_types(&end_events).last().map(String::as_str),
        Some("response.incomplete")
    );

    let response = conv.make_response(conv.terminal_status(), conv.completed_output());
    assert_eq!(response.status, Status::Incomplete);
    assert_eq!(reason(&response), Some("max_output_tokens"));
    assert_eq!(response.completed_at, None);
    let OutputItem::Message(message) = &response.output[0] else {
        panic!("expected message output");
    };
    assert_eq!(message.status, OutputStatus::Incomplete);
}

#[test]
fn b10_length_finish_reason_marks_reasoning_item_incomplete() {
    let mut conv = converter(summary_params());
    let _ = conv.process_chunk(&reasoning_chunk("partial"));
    let _ = conv.process_chunk(&finish_chunk(FinishReason::Length));
    let _ = conv.emit_end_events();

    let response = conv.make_response(conv.terminal_status(), conv.completed_output());
    let OutputItem::Reasoning(reasoning) = &response.output[0] else {
        panic!("expected reasoning output");
    };
    assert_eq!(reasoning.status, Some(OutputStatus::Incomplete));
    assert_eq!(summary_of(&response.output[0]), "partial...");
}

#[test]
fn b10_completed_reasoning_stays_complete_when_text_is_truncated() {
    let mut conv = converter(summary_params());
    let _ = conv.process_chunk(&reasoning_chunk("complete reasoning"));
    let _ = conv.process_chunk(&text_chunk("partial answer"));
    let _ = conv.process_chunk(&finish_chunk(FinishReason::Length));
    let _ = conv.emit_end_events();

    let response = conv.make_response(conv.terminal_status(), conv.completed_output());
    assert_eq!(response.status, Status::Incomplete);
    let OutputItem::Reasoning(reasoning) = &response.output[0] else {
        panic!("expected reasoning output");
    };
    assert_eq!(reasoning.status, Some(OutputStatus::Completed));
    assert_eq!(summary_of(&response.output[0]), "complete reasoning");
    let OutputItem::Message(message) = &response.output[1] else {
        panic!("expected message output");
    };
    assert_eq!(message.status, OutputStatus::Incomplete);
}

#[test]
fn b10_same_chunk_text_and_length_complete_reasoning_only() {
    let mut conv = converter(summary_params());
    let _ = conv.process_chunk(&reasoning_chunk("complete reasoning"));

    let events = conv.process_chunk(&with_finish_reason(
        text_chunk("partial answer"),
        FinishReason::Length,
    ));

    assert_eq!(
        event_types(&events),
        vec![
            "response.reasoning_summary_text.done".to_string(),
            "response.reasoning_summary_part.done".to_string(),
            "response.output_item.done".to_string(),
            "response.output_item.added".to_string(),
            "response.content_part.added".to_string(),
            "response.output_text.delta".to_string(),
        ]
    );
    assert_eq!(conv.reasoning_output_status(), Some(OutputStatus::Completed));

    let _ = conv.emit_end_events();
    let response = conv.make_response(conv.terminal_status(), conv.completed_output());
    assert_eq!(response.status, Status::Incomplete);
    let OutputItem::Reasoning(reasoning) = &response.output[0] else {
        panic!("expected reasoning output");
    };
    assert_eq!(reasoning.status, Some(OutputStatus::Completed));
    let OutputItem::Message(message) = &response.output[1] else {
        panic!("expected message output");
    };
    assert_eq!(message.status, OutputStatus::Incomplete);
}

#[test]
fn b10_same_chunk_tool_call_and_length_complete_reasoning_only() {
    let mut conv = converter(summary_params());
    let _ = conv.process_chunk(&reasoning_chunk("complete reasoning"));

    let _ = conv.process_chunk(&with_finish_reason(
        tool_call_chunk(0, Some("call-1"), Some("get_weather"), Some("{\"city\":\"SF")),
        FinishReason::Length,
    ));

    assert_eq!(conv.reasoning_output_status(), Some(OutputStatus::Completed));
    let _ = conv.emit_end_events();
    let response = conv.make_response(conv.terminal_status(), conv.completed_output());
    assert_eq!(response.status, Status::Incomplete);
    let OutputItem::Reasoning(reasoning) = &response.output[0] else {
        panic!("expected reasoning output");
    };
    assert_eq!(reasoning.status, Some(OutputStatus::Completed));
    let OutputItem::FunctionCall(function_call) = &response.output[1] else {
        panic!("expected function call output");
    };
    assert_eq!(function_call.status, Some(OutputStatus::Incomplete));
}

#[test]
fn b10_requested_reasoning_summary_streams_complete_event_sequence() {
    let mut conv = converter(summary_params());

    let reasoning_events = conv.process_chunk(&reasoning_chunk("thinking"));
    assert_eq!(
        event_types(&reasoning_events),
        vec![
            "response.output_item.added".to_string(),
            "response.reasoning_summary_part.added".to_string(),
            "response.reasoning_summary_text.delta".to_string(),
        ]
    );

    let text_events = conv.process_chunk(&text_chunk("answer"));
    assert_eq!(
        event_types(&text_events),
        vec![
            "response.reasoning_summary_text.done".to_string(),
            "response.reasoning_summary_part.done".to_string(),
            "response.output_item.done".to_string(),
            "response.output_item.added".to_string(),
            "response.content_part.added".to_string(),
            "response.output_text.delta".to_string(),
        ]
    );

    let response = conv.make_response(Status::Completed, conv.completed_output());
    assert_eq!(response.output.len(), 2);
    let OutputItem::Reasoning(reasoning) = &response.output[0] else {
        panic!("expected reasoning output before message");
    };
    assert_eq!(
        reasoning.summary,
        vec![SummaryPart::SummaryText(SummaryTextContent { text: "thinking".to_string() })]
    );
    assert!(matches!(response.output[1], OutputItem::Message(_)));
}

#[test]
fn b10_reasoning_without_requested_summary_emits_no_events() {
    let mut conv = converter(default_params());

    let events = conv.process_chunk(&reasoning_chunk("private reasoning"));

    assert!(events.is_empty());
    assert!(conv.completed_output().is_empty());
}

#[test]
fn b10_reasoning_summary_ignores_updates_after_completion() {
    let mut conv = converter(summary_params());

    let _ = conv.process_chunk(&reasoning_chunk("summary"));
    let _ = conv.process_chunk(&text_chunk("answer"));
    let late_events = conv.process_chunk(&reasoning_chunk(" must not be appended"));

    assert!(late_events.is_empty());
    let output = conv.completed_output();
    let OutputItem::Reasoning(reasoning) = &output[0] else {
        panic!("expected reasoning output");
    };
    assert_eq!(
        reasoning.summary,
        vec![SummaryPart::SummaryText(SummaryTextContent { text: "summary".to_string() })]
    );
}

#[test]
fn b10_reasoning_summary_finishes_before_tool_call() {
    let mut conv = converter(summary_params());

    let _ = conv.process_chunk(&reasoning_chunk("summary"));
    let tool_events = conv.process_chunk(&tool_call_chunk(
        0,
        Some("call-1"),
        Some("get_time"),
        Some("{}"),
    ));
    assert_eq!(
        &event_types(&tool_events)[..3],
        [
            "response.reasoning_summary_text.done".to_string(),
            "response.reasoning_summary_part.done".to_string(),
            "response.output_item.done".to_string(),
        ]
    );

    let late_events = conv.process_chunk(&reasoning_chunk(" must not be appended"));
    assert!(late_events.is_empty());
}

#[test]
fn b10_reasoning_summary_does_not_start_after_visible_output() {
    let mut conv = converter(summary_params());

    let _ = conv.process_chunk(&text_chunk("answer"));
    let late_events = conv.process_chunk(&reasoning_chunk("out of order"));

    assert!(late_events.is_empty());
    assert!(conv
        .completed_output()
        .iter()
        .all(|item| !matches!(item, OutputItem::Reasoning(_))));
}

#[test]
fn b10_tool_call_done_on_finish_reason() {
    let mut conv = converter(default_params());
    let _ = conv.emit_start_events();

    let events = conv.process_chunk(&tool_call_chunk(
        0,
        Some("call-1"),
        Some("get_weather"),
        Some("{\"city\":\"SF\"}"),
    ));

    let types = event_types(&events);
    assert!(has(&types, "response.output_item.added"));
    assert!(has(&types, "response.function_call_arguments.delta"));
    assert!(!has(&types, "response.function_call_arguments.done"));

    let finish_events = conv.process_chunk(&finish_chunk(FinishReason::ToolCalls));
    let (arguments, _) = arguments_done(&finish_events).expect("args done on finish_reason");
    assert_eq!(arguments, "{\"city\":\"SF\"}");
    assert!(has(&event_types(&finish_events), "response.output_item.done"));

    let end_types = event_types(&conv.emit_end_events());
    assert!(!has(&end_types, "response.function_call_arguments.done"));
    assert!(!has(&end_types, "response.output_item.done"));

    let response = conv.make_response(conv.terminal_status(), conv.completed_output());
    assert_eq!(response.status, Status::Completed);
    let OutputItem::FunctionCall(call) = &response.output[0] else {
        panic!("expected function call output");
    };
    assert_eq!(call.status, Some(OutputStatus::Completed));
}

#[test]
fn b10_fragmented_args_done_carries_full_arguments() {
    let mut conv = converter(default_params());
    let _ = conv.emit_start_events();

    let mut all_events = Vec::new();
    all_events.extend(conv.process_chunk(&tool_call_chunk(
        0,
        Some("call-1"),
        Some("shell"),
        Some("{"),
    )));
    all_events.extend(conv.process_chunk(&tool_call_chunk(0, None, None, Some("\"command\":"))));
    all_events.extend(conv.process_chunk(&tool_call_chunk(
        0,
        None,
        None,
        Some("[\"ls\",\"-la\"]}"),
    )));

    let types = event_types(&all_events);
    assert!(!has(&types, "response.function_call_arguments.done"));
    assert_eq!(count(&types, "response.function_call_arguments.delta"), 3);

    let finish_events = conv.process_chunk(&finish_chunk(FinishReason::ToolCalls));

    let full_args = "{\"command\":[\"ls\",\"-la\"]}";
    let (arguments, _) = arguments_done(&finish_events).expect("args done present");
    assert_eq!(arguments, full_args);

    let item_done = call_done(&finish_events).expect("item done present");
    assert_eq!(item_done.arguments, full_args);
    assert_eq!(item_done.call_id, "call-1");
    assert_eq!(item_done.name, "shell");

    let end_events = conv.emit_end_events();
    assert!(has(&event_types(&end_events), "response.completed"));
    let OutputItem::FunctionCall(call) = &terminal(&end_events).output[0] else {
        panic!("expected function call output");
    };
    assert_eq!(call.arguments, full_args);
}

#[test]
fn b10_stream_end_without_finish_reason_closes_tool_call() {
    let mut conv = converter(default_params());
    let _ = conv.emit_start_events();

    let _ = conv.process_chunk(&tool_call_chunk(0, Some("call-1"), Some("shell"), Some("{")));
    let _ = conv.process_chunk(&tool_call_chunk(0, None, None, Some("\"a\":1}")));

    let end_events = conv.emit_end_events();
    let types = event_types(&end_events);
    assert_eq!(count(&types, "response.function_call_arguments.done"), 1);
    let (arguments, _) = arguments_done(&end_events).unwrap();
    assert_eq!(arguments, "{\"a\":1}");
    assert!(has(&types, "response.completed"));
}

#[test]
fn b10_multiple_tool_calls_closed_on_finish_reason() {
    let mut conv = converter(default_params());
    let _ = conv.emit_start_events();

    let _ = conv.process_chunk(&tool_call_chunk(
        0,
        Some("call-1"),
        Some("get_weather"),
        Some("{\"city\":\"SF\"}"),
    ));
    let _ = conv.process_chunk(&tool_call_chunk(
        1,
        Some("call-2"),
        Some("get_time"),
        Some("{\"tz\":\"PST\"}"),
    ));

    let finish_types = event_types(&conv.process_chunk(&finish_chunk(FinishReason::ToolCalls)));
    assert_eq!(count(&finish_types, "response.function_call_arguments.done"), 2);

    let end_types = event_types(&conv.emit_end_events());
    assert_eq!(count(&end_types, "response.function_call_arguments.done"), 0);
}

#[test]
fn test_text_only_response_no_tool_events() {
    let mut conv = converter(default_params());
    let _ = conv.emit_start_events();

    let types = event_types(&conv.process_chunk(&text_chunk("Hello world")));
    assert!(!has(&types, "response.function_call_arguments.done"));

    let end_types = event_types(&conv.emit_end_events());
    assert!(has(&end_types, "response.output_text.done"));
    assert!(has(&end_types, "response.completed"));
}

#[test]
fn test_text_then_tool_call() {
    let mut conv = converter(default_params());
    let _ = conv.emit_start_events();

    let text_types = event_types(&conv.process_chunk(&text_chunk("Let me check that.")));
    assert!(has(&text_types, "response.output_item.added"));

    let tool_types = event_types(&conv.process_chunk(&tool_call_chunk(
        0,
        Some("call-1"),
        Some("search"),
        Some("{\"q\":\"rust\"}"),
    )));
    assert!(has(&tool_types, "response.output_item.added"));

    let finish_types = event_types(&conv.process_chunk(&finish_chunk(FinishReason::ToolCalls)));
    assert!(has(&finish_types, "response.function_call_arguments.done"));
    assert!(has(&finish_types, "response.output_item.done"));
}

#[test]
fn test_with_context_enriches_response() {
    let ctx = ResponsesContext {
        previous_response_id: Some("resp_prev_123".to_string()),
        store: true,
    };
    let mut conv = ResponseStreamConverter::with_context(
        "test-model".to_string(),
        ResponseParams::default(),
        ctx,
    );

    let _ = conv.emit_start_events();
    let _ = conv.process_chunk(&text_chunk("Hello"));
    let _end_events = conv.emit_end_events();

    let response = conv.make_response(Status::Completed, vec![]);
    assert_eq!(response.previous_response_id.as_deref(), Some("resp_prev_123"));
}

#[test]
fn test_without_context_defaults() {
    let conv = converter(ResponseParams::default());

    let response = conv.make_response(Status::Completed, vec![]);
    assert_eq!(response.previous_response_id, None);
}

#[test]
fn test_stream_response_echoes_parallel_tool_calls() {
    let params = ResponseParams { parallel_tool_calls: Some(false), ..Default::default() };
    let conv = converter(params);

    let response = conv.make_response(Status::Completed, vec![]);
    assert_eq!(response.parallel_tool_calls, Some(false));
}

#[test]
fn b10_backend_cutoff_error_presented_as_incomplete() {
    let mut conv = converter(default_params());
    let _ = conv.emit_start_events();
    let _ = conv.process_chunk(&tool_call_chunk(
        0,
        Some("call-1"),
        Some("run_command"),
        Some("{\"cmd\":\"ls -"),
    ));

    let events = conv.emit_error_events(Some(BackendError {
        message: "Tool calls cutoff by max_tokens.".to_string(),
        http_status: 400,
    }));
    let types = event_types(&events);

    assert!(!has(&types, "response.failed"));
    assert!(has(&types, "response.function_call_arguments.done"));
    assert!(has(&types, "response.output_item.done"));
    assert_eq!(types.last().map(String::as_str), Some("response.incomplete"));

    let response = terminal(&events);
    assert_eq!(response.status, Status::Incomplete);
    assert_eq!(reason(response), Some("max_output_tokens"));
    assert!(!response.output.is_empty());
    let OutputItem::FunctionCall(call) = &response.output[0] else {
        panic!("expected function call output");
    };
    assert_eq!(call.status, Some(OutputStatus::Incomplete));
    assert_eq!(call.arguments, "{\"cmd\":\"ls -");
}

#[test]
fn b10_backend_error_carries_detail_and_partial_output() {
    let mut conv = converter(default_params());
    let _ = conv.emit_start_events();
    let _ = conv.process_chunk(&text_chunk("partial answer"));

    let events = conv.emit_error_events(Some(BackendError {
        message: "engine worker crashed".to_string(),
        http_status: 500,
    }));
    assert_eq!(events.len(), 1);
    assert_eq!(event_types(&events)[0], "response.failed");

    let response = terminal(&events);
    assert_eq!(response.status, Status::Failed);
    let error = response.error.as_ref().unwrap();
    assert_eq!(error.code, "server_error");
    assert_eq!(error.message, "engine worker crashed");
    let OutputItem::Message(message) = &response.output[0] else {
        panic!("expected message output");
    };
    assert_eq!(message.status, OutputStatus::Incomplete);
    let OutputMessageContent::OutputText(text) = &message.content[0] else {
        panic!("expected text");
    };
    assert_eq!(text.text, "partial answer");
}

#[test]
fn b10_namespaced_tool_call_echoes_namespace() {
    let params = ResponseParams {
        tools: Some(vec![Tool::Namespace(NamespaceToolParam {
            name: "mcp__codex_apps__gmail".to_string(),
            description: "Gmail tools".to_string(),
            tools: vec![NamespaceToolParamTool::Function(FunctionToolParam {
                name: "get_recent_emails".to_string(),
                parameters: None,
                strict: None,
                description: None,
                defer_loading: None,
            })],
        })]),
        ..Default::default()
    };
    let mut conv = converter(params);
    let _ = conv.emit_start_events();
    let events = conv.process_chunk(&tool_call_chunk(
        0,
        Some("call-1"),
        Some("mcp__codex_apps__gmail__get_recent_emails"),
        Some("{}"),
    ));
    let added = call_added(&events).expect("item added");
    assert_eq!(added.namespace.as_deref(), Some("mcp__codex_apps__gmail"));
    assert_eq!(added.name, "get_recent_emails");

    let finish_events = conv.process_chunk(&finish_chunk(FinishReason::ToolCalls));
    let done = call_done(&finish_events).expect("item done");
    assert_eq!(done.namespace.as_deref(), Some("mcp__codex_apps__gmail"));
    assert_eq!(done.name, "get_recent_emails");
    let (_, name) = arguments_done(&finish_events).expect("args done");
    assert_eq!(name.as_deref(), Some("get_recent_emails"));

    let response = conv.make_response(Status::Completed, conv.completed_output());
    let OutputItem::FunctionCall(call) = &response.output[0] else {
        panic!("expected function call output");
    };
    assert_eq!(call.namespace.as_deref(), Some("mcp__codex_apps__gmail"));
    assert_eq!(call.name, "get_recent_emails");
}

#[test]
fn b10_plain_tool_call_has_no_namespace() {
    let mut conv = converter(default_params());
    let _ = conv.emit_start_events();
    let _ = conv.process_chunk(&tool_call_chunk(
        0,
        Some("call-1"),
        Some("get_weather"),
        Some("{}"),
    ));
    let finish_events = conv.process_chunk(&finish_chunk(FinishReason::ToolCalls));
    let done = call_done(&finish_events).expect("item done");
    assert!(done.namespace.is_none());
}

#[test]
fn b10_prompt_overflow_error_carries_openai_code() {
    let mut conv = converter(default_params());
    let _ = conv.emit_start_events();

    let events = conv.emit_error_events(Some(BackendError {
        message: "Input length 345123 exceeds the maximum allowed input length of 131040 tokens."
            .to_string(),
        http_status: 400,
    }));
    assert_eq!(events.len(), 1);
    assert_eq!(event_types(&events)[0], "response.failed");
    let error = terminal(&events).error.as_ref().unwrap();
    assert_eq!(error.code, "context_length_exceeded");
    assert!(error.message.contains("exceeds the maximum allowed input length"));
}

#[test]
fn b10_backend_error_without_detail_still_populates_error() {
    let mut conv = converter(default_params());
    let _ = conv.emit_start_events();

    let events = conv.emit_error_events(None);
    assert_eq!(events.len(), 1);
    assert_eq!(event_types(&events)[0], "response.failed");
    let error = terminal(&events).error.as_ref().unwrap();
    assert_eq!(error.code, "server_error");
    assert!(!error.message.is_empty());
}

#[test]
fn rate_limited_errors_say_so() {
    let mut conv = converter(default_params());
    let events = conv.emit_error_events(Some(BackendError {
        message: "slow down".to_string(),
        http_status: 429,
    }));
    assert_eq!(terminal(&events).error.as_ref().unwrap().code, "rate_limit_exceeded");
}

#[test]
fn events_are_numbered_without_a_gap() {
    let mut conv = converter(summary_params());
    let mut all = conv.emit_start_events();
    all.extend(conv.process_chunk(&reasoning_chunk("think")));
    all.extend(conv.process_chunk(&text_chunk("say")));
    all.extend(conv.process_chunk(&tool_call_chunk(1, Some("call-2"), Some("b"), Some("{}"))));
    all.extend(conv.process_chunk(&tool_call_chunk(0, Some("call-1"), Some("a"), Some("{}"))));
    all.extend(conv.process_chunk(&finish_chunk(FinishReason::ToolCalls)));
    all.extend(conv.emit_end_events());
    let numbers: Vec<u64> = all.iter().map(|event| event.sequence_number).collect();
    let expected: Vec<u64> = (0..all.len() as u64).collect();
    assert_eq!(numbers, expected);
    assert_eq!(event_types(&all)[0], "response.created");
    assert_eq!(event_types(&all)[1], "response.in_progress");
}

#[test]
fn output_stands_in_the_order_of_its_indices() {
    let mut conv = converter(default_params());
    let _ = conv.process_chunk(&tool_call_chunk(1, Some("call-2"), Some("b"), Some("{}")));
    let _ = conv.process_chunk(&text_chunk("hi"));
    let _ = conv.process_chunk(&tool_call_chunk(0, Some("call-1"), Some("a"), Some("{}")));
    let output = conv.completed_output();
    assert_eq!(output.len(), 3);
    let OutputItem::FunctionCall(first) = &output[0] else { panic!("expected a call") };
    assert_eq!(first.call_id, "call-1");
    let OutputItem::FunctionCall(second) = &output[1] else { panic!("expected a call") };
    assert_eq!(second.call_id, "call-2");
    assert!(matches!(output[2], OutputItem::Message(_)));
}

#[test]
fn a_call_without_arguments_is_not_announced() {
    let mut conv = converter(default_params());
    let events = conv.process_chunk(&tool_call_chunk(0, Some("call-1"), Some("a"), None));
    assert!(events.is_empty());
    let end_types = event_types(&conv.emit_end_events());
    assert_eq!(end_types, vec!["response.completed".to_string()]);
}

#[test]
fn text_is_carried_unchanged_to_the_end() {
    let mut conv = converter(default_params());
    let _ = conv.process_chunk(&text_chunk("Hello, "));
    let _ = conv.process_chunk(&text_chunk(""));
    let _ = conv.process_chunk(&text_chunk("world"));
    let end = conv.emit_end_events();
    let text = end.iter().find_map(|event| match &event.payload {
        ResponseEventPayload::ResponseOutputTextDone { text, .. } => Some(text.clone()),
        _ => None,
    });
    assert_eq!(text.as_deref(), Some("Hello, world"));
}

#[test]
fn token_counts_reach_the_terminal_event() {
    let mut conv = converter(default_params());
    let mut chunk = text_chunk("hi");
    chunk.inner.usage = Some(CompletionUsage {
        prompt_tokens: 11,
        completion_tokens: 7,
        total_tokens: 18,
        prompt_tokens_details: None,
        completion_tokens_details: None,
    });
    assert!(conv.has_room_for(&chunk));
    let _ = conv.process_chunk(&chunk);
    assert!(conv.has_room_to_end());
    let end = conv.emit_end_events();
    let usage = terminal(&end).usage.unwrap();
    assert_eq!(usage.input_tokens, 11);
    assert_eq!(usage.output_tokens, 7);
    assert_eq!(usage.total_tokens, 18);
    assert_eq!(usage.input_tokens_details.cached_tokens, 0);
}

#[test]
fn ids_have_their_prefixes() {
    let mut conv = converter(default_params());
    let _ = conv.process_chunk(&text_chunk("hi"));
    let _ = conv.process_chunk(&tool_call_chunk(0, Some("call-1"), Some("a"), Some("{}")));
    let response = conv.make_response(Status::Completed, conv.completed_output());
    assert!(response.id.starts_with("resp_"));
    assert_eq!(response.id.len(), 5 + 32);
    let OutputItem::Message(message) = &response.output[0] else { panic!("expected a message") };
    assert!(message.id.starts_with("msg_"));
    let OutputItem::FunctionCall(call) = &response.output[1] else { panic!("expected a call") };
    assert!(call.id.as_deref().unwrap().starts_with("fc_"));
    assert!(response.completed_at.unwrap() > 1_600_000_000);
}

/// What a client puts together from the events: id and text by output index.
fn put_together(events: &[ResponseStreamEvent]) -> Vec<(u32, String, String)> {
    let mut items: Vec<(u32, String, String)> = Vec::new();
    for event in events {
        match &event.payload {
            ResponseEventPayload::ResponseOutputItemAdded { output_index, item } => {
                let id = match item {
                    OutputItem::Message(message) => message.id.clone(),
                    OutputItem::FunctionCall(call) => call.id.clone().unwrap(),
                    OutputItem::Reasoning(reasoning) => reasoning.id.clone().unwrap(),
                };
                items.push((*output_index, id, String::new()));
            }
            ResponseEventPayload::ResponseOutputTextDelta { output_index, delta, .. }
            | ResponseEventPayload::ResponseFunctionCallArgumentsDelta {
                output_index, delta, ..
            }
            | ResponseEventPayload::ResponseReasoningSummaryTextDelta {
                output_index, delta, ..
            } => {
                let item = items.iter_mut().find(|item| item.0 == *output_index).unwrap();
                item.2.push_str(delta);
            }
            _ => {}
        }
    }
    items.sort_by_key(|item| item.0);
    items
}

fn listed(response: &Response) -> Vec<(String, String)> {
    response
        .output
        .iter()
        .map(|item| match item {
            OutputItem::Message(message) => match &message.content[0] {
                OutputMessageContent::OutputText(text) => (message.id.clone(), text.text.clone()),
                OutputMessageContent::Refusal(text) => (message.id.clone(), text.clone()),
            },
            OutputItem::FunctionCall(call) => (call.id.clone().unwrap(), call.arguments.clone()),
            OutputItem::Reasoning(reasoning) => (reasoning.id.clone().unwrap(), summary_of(item)),
        })
        .collect()
}

fn spoken(conv: &mut ResponseStreamConverter) -> Vec<ResponseStreamEvent> {
    let mut events = conv.emit_start_events();
    events.extend(conv.process_chunk(&reasoning_chunk("why")));
    events.extend(conv.process_chunk(&tool_call_chunk(1, Some("call-2"), Some("b"), Some("{"))));
    events.extend(conv.process_chunk(&text_chunk("hello")));
    events.extend(conv.process_chunk(&tool_call_chunk(1, None, None, Some("}"))));
    events
}

#[test]
fn the_final_output_is_what_was_read() {
    let mut conv = converter(summary_params());
    let mut events = spoken(&mut conv);
    events.extend(conv.emit_end_events());
    let read: Vec<(String, String)> =
        put_together(&events).into_iter().map(|(_, id, text)| (id, text)).collect();
    assert_eq!(read.len(), 3);
    assert_eq!(read[0].1, "why");
    assert_eq!(read[1].1, "{}");
    assert_eq!(read[2].1, "hello");
    assert_eq!(listed(terminal(&events)), read);
}

#[test]
fn the_partial_output_is_what_was_read() {
    for message in ["engine worker crashed", "Cutoff by max_tokens"] {
        let mut conv = converter(summary_params());
        let mut events = spoken(&mut conv);
        events.extend(conv.emit_error_events(Some(BackendError {
            message: message.to_string(),
            http_status: 500,
        })));
        let read: Vec<(String, String)> =
            put_together(&events).into_iter().map(|(_, id, text)| (id, text)).collect();
        assert_eq!(listed(terminal(&events)), read);
    }
}

#[test]
fn a_call_index_out_of_range_has_no_room() {
    let conv = converter(default_params());
    assert!(conv.has_room_for(&tool_call_chunk(7, Some("call-1"), Some("a"), Some("{}"))));
    assert!(!conv.has_room_for(&tool_call_chunk(u32::MAX, Some("x"), Some("a"), Some("{}"))));
}

/// Arguments that come once a call is done are told after its end.
#[test]
fn arguments_for_a_call_that_is_done_are_out_of_place() {
    let mut conv = converter(default_params());
    conv.emit_start_events();
    conv.process_chunk(&tool_call_chunk(0, Some("call-1"), Some("a"), Some("{}")));
    let closed = event_types(&conv.process_chunk(&finish_chunk(FinishReason::ToolCalls)));
    assert_eq!(closed.last().unwrap(), "response.output_item.done");
    let late = event_types(&conv.process_chunk(&tool_call_chunk(0, None, None, Some(" "))));
    assert_eq!(late, vec!["response.function_call_arguments.delta"]);
}

/// Numbers run without a gap even over chunks that bring arguments too late.
#[test]
fn every_stream_is_numbered_without_a_gap() {
    let mut conv = converter(summary_params());
    let mut events = spoken(&mut conv);
    events.extend(conv.process_chunk(&finish_chunk(FinishReason::ToolCalls)));
    events.extend(conv.process_chunk(&tool_call_chunk(1, None, None, Some(" "))));
    events.extend(conv.emit_end_events());
    for (k, event) in events.iter().enumerate() {
        assert_eq!(event.sequence_number, k as u64);
    }
    let types = event_types(&events);
    assert_eq!(types[0], "response.created");
    assert_eq!(types[1], "response.in_progress");
}

/// The last event alone ends a stream, and says whether the token limit was reached by any
/// chunk before.
#[test]
fn streams_end_once() {
    for (reason, expected) in [
        (FinishReason::Length, "response.incomplete"),
        (FinishReason::Stop, "response.completed"),
    ] {
        let mut conv = converter(default_params());
        let mut events = conv.emit_start_events();
        events.extend(conv.process_chunk(&finish_chunk(reason)));
        events.extend(conv.process_chunk(&text_chunk("more")));
        events.extend(conv.process_chunk(&finish_chunk(FinishReason::Stop)));
        events.extend(conv.emit_end_events());
        let types = event_types(&events);
        assert_eq!(types.last().unwrap(), expected);
        for name in ["response.incomplete", "response.completed", "response.failed"] {
            assert_eq!(count(&types, name), if name == expected { 1 } else { 0 });
        }
        let response = terminal(&events);
        assert_eq!(response.status == Status::Incomplete, reason == FinishReason::Length);
        assert_eq!(response.completed_at.is_some(), reason == FinishReason::Stop);
    }
}

/// Between chunks the output is what was sent, arguments that came too late included.
#[test]
fn the_output_between_chunks_is_what_was_sent() {
    let mut conv = converter(summary_params());
    let mut events = conv.emit_start_events();
    let chunks = [
        reasoning_chunk("why"),
        tool_call_chunk(1, Some("call-2"), Some("b"), Some("{")),
        text_chunk("hello"),
        tool_call_chunk(1, None, None, Some("}")),
        finish_chunk(FinishReason::ToolCalls),
        tool_call_chunk(1, None, None, Some(" ")),
    ];
    for chunk in &chunks {
        events.extend(conv.process_chunk(chunk));
        let output = conv.collect_output(OutputStatus::Incomplete);
        let sent = put_together(&events);
        assert_eq!(output.len(), sent.len());
        for (item, (_, id, text)) in output.iter().zip(&sent) {
            match item {
                OutputItem::Message(message) => {
                    assert_eq!(&message.id, id);
                    assert_eq!(message.status, OutputStatus::Incomplete);
                    match &message.content[0] {
                        OutputMessageContent::OutputText(part) => assert_eq!(&part.text, text),
                        other => panic!("expected text, got {other:?}"),
                    }
                }
                OutputItem::FunctionCall(call) => {
                    assert_eq!(call.id.as_ref(), Some(id));
                    assert_eq!(call.status, Some(OutputStatus::Incomplete));
                    assert_eq!(&call.arguments, text);
                }
                OutputItem::Reasoning(reasoning) => {
                    assert_eq!(reasoning.id.as_ref(), Some(id));
                    assert_eq!(&summary_of(item), text);
                }
            }
        }
    }
}
