//! Streams of Messages API events.

use dynamo_llm::anthropic::reply::{
    AnthropicContext, AnthropicDelta, AnthropicResponseContentBlock, AnthropicStopReason,
    AnthropicStreamEvent, AnthropicUsage,
};
use dynamo_llm::anthropic::stream_converter::AnthropicStreamConverter;
use dynamo_llm::chat::{
    ChatChoiceStream, ChatCompletionMessageContent, ChatCompletionMessageToolCallChunk,
    ChatCompletionStreamResponseDelta, CompletionUsage, CreateChatCompletionStreamResponse,
    FinishReason, FunctionCallStream, FunctionType, NvCreateChatCompletionStreamResponse,
    PromptTokensDetails,
};
use dynamo_llm::json::Json;

fn no_delta() -> ChatCompletionStreamResponseDelta {
    ChatCompletionStreamResponseDelta {
        content: None,
        function_call: None,
        tool_calls: None,
        role: None,
        refusal: None,
        reasoning_content: None,
    }
}

fn chunk_of(delta: ChatCompletionStreamResponseDelta) -> NvCreateChatCompletionStreamResponse {
    NvCreateChatCompletionStreamResponse {
        inner: CreateChatCompletionStreamResponse {
            id: "chat-1".to_string(),
            choices: vec![ChatChoiceStream { index: 0, delta, finish_reason: None }],
            created: 0,
            model: "test".to_string(),
            service_tier: None,
            system_fingerprint: None,
            object: "chat.completion.chunk".to_string(),
            usage: None,
        },
        nvext: None,
    }
}

fn text_chunk(text: &str) -> NvCreateChatCompletionStreamResponse {
    let mut delta = no_delta();
    delta.content = Some(ChatCompletionMessageContent::Text(text.to_string()));
    chunk_of(delta)
}

fn reasoning_chunk(text: &str) -> NvCreateChatCompletionStreamResponse {
    let mut delta = no_delta();
    delta.reasoning_content = Some(text.to_string());
    chunk_of(delta)
}

fn tool_call_chunk(
    tc_index: u32,
    id: Option<&str>,
    name: Option<&str>,
    args: Option<&str>,
) -> NvCreateChatCompletionStreamResponse {
    let mut delta = no_delta();
    delta.tool_calls = Some(vec![ChatCompletionMessageToolCallChunk {
        index: tc_index,
        id: id.map(String::from),
        kind: Some(FunctionType::Function),
        function: Some(FunctionCallStream {
            name: name.map(String::from),
            arguments: args.map(String::from),
        }),
    }]);
    chunk_of(delta)
}

fn usage_chunk(
    prompt_tokens: u32,
    cached_tokens: Option<u32>,
    completion_tokens: u32,
) -> NvCreateChatCompletionStreamResponse {
    let mut chunk = chunk_of(no_delta());
    chunk.inner.choices = vec![];
    chunk.inner.usage = Some(CompletionUsage {
        prompt_tokens,
        completion_tokens,
        total_tokens: prompt_tokens + completion_tokens,
        prompt_tokens_details: cached_tokens
            .map(|c| PromptTokensDetails { audio_tokens: None, cached_tokens: Some(c) }),
        completion_tokens_details: None,
    });
    chunk
}

fn converter(model: &str) -> AnthropicStreamConverter {
    AnthropicStreamConverter::new(model.to_string())
}

fn event_types(events: &[AnthropicStreamEvent]) -> Vec<&'static str> {
    events.iter().map(|e| e.event_type()).collect()
}

fn message_delta(
    events: &[AnthropicStreamEvent],
) -> (Option<AnthropicStopReason>, Option<String>, AnthropicUsage) {
    events
        .iter()
        .find_map(|event| match event {
            AnthropicStreamEvent::MessageDelta { delta, usage } => {
                Some((delta.stop_reason, delta.stop_sequence.clone(), *usage))
            }
            _ => None,
        })
        .expect("message_delta present")
}

fn assert_text_tool_text_blocks(events: &[AnthropicStreamEvent], expected_args: &str) {
    let mut active = None;
    let mut texts = Vec::new();
    let mut arguments = String::new();
    let mut started = Vec::new();
    for event in events {
        match event {
            AnthropicStreamEvent::ContentBlockStart { index, .. } => {
                assert!(active.is_none(), "previous block must close before next start");
                active = Some(*index);
                started.push(*index);
            }
            AnthropicStreamEvent::ContentBlockDelta { index, delta } => {
                assert_eq!(active, Some(*index), "delta must target the open block");
                match delta {
                    AnthropicDelta::TextDelta { text } => texts.push((*index, text.as_str())),
                    AnthropicDelta::InputJsonDelta { partial_json } => {
                        arguments.push_str(partial_json)
                    }
                    _ => panic!("unexpected delta: {delta:?}"),
                }
            }
            AnthropicStreamEvent::ContentBlockStop { index } => {
                assert_eq!(active.take(), Some(*index), "stop must close the open block once");
            }
            _ => assert!(active.is_none(), "all blocks close before message end"),
        }
    }
    assert_eq!(started, vec![0, 1, 2]);
    assert_eq!(texts, vec![(0, "\n"), (2, "\n")]);
    assert_eq!(arguments, expected_args);
    assert!(active.is_none());
}

#[test]
fn test_text_between_tool_header_and_arguments_gets_a_new_block() {
    let mut conv = converter("nemotron");
    let mut events = conv.process_chunk(&text_chunk("\n"));
    events.extend(conv.process_chunk(&tool_call_chunk(
        0,
        Some("call-1"),
        Some("get_weather"),
        Some(""),
    )));
    let pending = conv.process_chunk(&text_chunk("\n"));
    assert!(pending.is_empty(), "text waits for the open tool block to close");
    events.extend(conv.process_chunk(&tool_call_chunk(
        0,
        None,
        None,
        Some(r#"{"city":"Tokyo"}"#),
    )));
    events.extend(conv.emit_end_events());
    assert_text_tool_text_blocks(&events, r#"{"city":"Tokyo"}"#);
}

#[test]
fn test_text_after_tool_and_text_pending_at_stream_end_are_preserved() {
    for args in [r#"{"city":"Tokyo"}"#, r#"{"city":"#] {
        let mut conv = converter("nemotron");
        let mut events = conv.process_chunk(&text_chunk("\n"));
        events.extend(conv.process_chunk(&tool_call_chunk(
            0,
            Some("call-1"),
            Some("get_weather"),
            Some(args),
        )));
        events.extend(conv.process_chunk(&text_chunk("\n")));
        events.extend(conv.emit_end_events());
        assert_text_tool_text_blocks(&events, args);
    }
}

#[test]
fn test_streaming_input_tokens_reconciled_from_engine_usage() {
    let mut conv = converter("test-model");
    assert_eq!(conv.usage().input_tokens, 0);

    let events = conv.process_chunk(&usage_chunk(12, Some(11), 5));
    assert_eq!(events.len(), 1, "usage-only first chunk emits message_start but no content events");
    assert_eq!(conv.usage().input_tokens, 1);
    assert_eq!(conv.usage().cache_read_input_tokens, Some(11));
    assert_eq!(conv.usage().cache_creation_input_tokens, Some(0));
    assert_eq!(conv.usage().output_tokens, 5);

    let (_, _, usage) = message_delta(&conv.emit_end_events());
    assert_eq!(usage.input_tokens, 1);
    assert_eq!(usage.cache_read_input_tokens, Some(11));
    assert_eq!(usage.cache_creation_input_tokens, Some(0));
    assert_eq!(usage.output_tokens, 5);
}

#[test]
fn test_production_sse_matched_stop() {
    let cases = [
        (FinishReason::Stop, Some("END"), AnthropicStopReason::StopSequence, Some("END")),
        (FinishReason::Stop, Some("<|return|>"), AnthropicStopReason::EndTurn, None),
        (FinishReason::Stop, None, AnthropicStopReason::EndTurn, None),
        (FinishReason::ToolCalls, Some("END"), AnthropicStopReason::ToolUse, None),
        (FinishReason::FunctionCall, Some("END"), AnthropicStopReason::ToolUse, None),
        (FinishReason::Length, Some("END"), AnthropicStopReason::MaxTokens, None),
        (FinishReason::ContentFilter, Some("END"), AnthropicStopReason::EndTurn, None),
    ];
    for (finish, matched, expected, sequence) in cases {
        for metadata_first in [false, true] {
            let mut conv = AnthropicStreamConverter::with_context(
                "m".to_string(),
                AnthropicContext {
                    service_tier: None,
                    stop_sequences: vec!["END".to_string()],
                },
            );
            let mut terminal = text_chunk("");
            terminal.inner.choices[0].finish_reason = Some(finish);
            let mut metadata = usage_chunk(12, Some(11), 5);
            metadata.nvext = Some(Json::Object(vec![(
                "matched_stop".to_string(),
                match matched {
                    Some(text) => Json::Str(text.to_string()),
                    None => Json::Null,
                },
            )]));
            let chunks =
                if metadata_first { [&metadata, &terminal] } else { [&terminal, &metadata] };
            let mut events = conv.process_chunk(chunks[0]);
            events.extend(conv.process_chunk(chunks[1]));
            events.extend(conv.emit_end_events());
            let (reason, found, _) = message_delta(&events);
            assert_eq!(
                reason,
                Some(expected),
                "{finish:?}, {matched:?}, metadata_first={metadata_first}"
            );
            assert_eq!(found.as_deref(), sequence);
        }
    }
}

#[test]
fn test_backend_error_does_not_emit_successful_end() {
    for with_content in [false, true] {
        let mut conv = converter("m");
        let mut events =
            if with_content { conv.process_chunk(&text_chunk("Hi")) } else { vec![] };
        events.extend(conv.emit_error_events());
        let types = event_types(&events);
        assert_eq!(types.last(), Some(&"error"));
        assert!(!types.iter().any(|n| *n == "message_delta" || *n == "message_stop"));
    }
}

#[test]
fn test_production_sse_message_start_carries_first_chunk_usage() {
    let mut conv = converter("test-model");
    let mut first = text_chunk("OK");
    first.inner.usage = Some(CompletionUsage {
        prompt_tokens: 7125,
        completion_tokens: 1,
        total_tokens: 7126,
        prompt_tokens_details: Some(PromptTokensDetails {
            audio_tokens: None,
            cached_tokens: Some(7100),
        }),
        completion_tokens_details: None,
    });
    let mut events = conv.process_chunk(&first);
    events.extend(conv.process_chunk(&text_chunk(".")));
    events.extend(conv.process_chunk(&usage_chunk(7125, Some(7100), 3)));
    events.extend(conv.emit_end_events());
    assert_eq!(
        event_types(&events),
        vec![
            "message_start",
            "content_block_start",
            "content_block_delta",
            "content_block_delta",
            "content_block_stop",
            "message_delta",
            "message_stop",
        ]
    );
    match &events[0] {
        AnthropicStreamEvent::MessageStart { message } => {
            assert_eq!(message.usage.input_tokens, 25);
            assert_eq!(message.usage.cache_read_input_tokens, Some(7100));
            assert_eq!(message.usage.cache_creation_input_tokens, Some(0));
            assert_eq!(message.usage.output_tokens, 1);
        }
        _ => panic!("message_start must lead"),
    }
    let (_, _, usage) = message_delta(&events);
    assert_eq!(usage.output_tokens, 3);
    assert_eq!(usage.input_tokens, 25);
    assert_eq!(usage.cache_read_input_tokens, Some(7100));
}

#[test]
fn test_generator_to_converter_initial_usage_requires_cache_metadata() {
    let cases: [(Option<Option<u32>>, u32, u32); 5] = [
        (None, 7100, 0),
        (Some(None), 7100, 0),
        (None, 0, 0),
        (Some(Some(0)), 0, 7125),
        (Some(Some(7100)), 7100, 25),
    ];
    for (first_cached, final_cached, expected_start_input) in cases {
        let mut first_chunk = text_chunk("OK");
        first_chunk.inner.usage = Some(CompletionUsage {
            prompt_tokens: 7125,
            completion_tokens: 1,
            total_tokens: 7126,
            prompt_tokens_details: first_cached.map(|cached_tokens| PromptTokensDetails {
                audio_tokens: None,
                cached_tokens,
            }),
            completion_tokens_details: None,
        });
        let mut conv = converter("m");
        let mut events = conv.process_chunk(&first_chunk);
        assert_eq!(
            event_types(&events),
            vec!["message_start", "content_block_start", "content_block_delta"],
            "unknown cache usage must not buffer content"
        );
        match &events[0] {
            AnthropicStreamEvent::MessageStart { message } => {
                assert_eq!(message.usage.input_tokens, expected_start_input, "{first_cached:?}");
                assert_eq!(
                    message.usage.cache_read_input_tokens,
                    Some(first_cached.flatten().unwrap_or(0))
                );
                assert_eq!(message.usage.cache_creation_input_tokens, Some(0));
                assert_eq!(message.usage.output_tokens, 1);
            }
            _ => panic!("message_start must lead"),
        }

        let mut last_chunk = text_chunk(".");
        last_chunk.inner.choices[0].finish_reason = Some(FinishReason::Stop);
        events.extend(conv.process_chunk(&last_chunk));
        events.extend(conv.process_chunk(&usage_chunk(7125, Some(final_cached), 2)));
        events.extend(conv.emit_end_events());
        let (_, _, end) = message_delta(&events);
        assert_eq!(end.input_tokens, 7125 - final_cached);
        assert_eq!(end.cache_read_input_tokens, Some(final_cached));
        assert_eq!(end.output_tokens, 2);
        assert_eq!(event_types(&events).iter().filter(|n| **n == "message_start").count(), 1);
    }
}

#[test]
fn streams_have_room_for_ordinary_chunks() {
    let conv = converter("m");
    assert!(conv.has_room_to_end());
    assert!(conv.has_room_for(&text_chunk("hi")));
    assert!(!conv.has_room_for(&tool_call_chunk(u32::MAX, Some("x"), Some("f"), Some("{}"))));
}

#[test]
fn test_production_sse_cold_prompt_writes_explicit_zero_cache_read() {
    let mut conv = converter("test-model");
    let mut events = conv.process_chunk(&usage_chunk(7039, None, 1));
    events.extend(conv.emit_end_events());
    match &events[0] {
        AnthropicStreamEvent::MessageStart { message } => {
            assert_eq!(message.usage.input_tokens, 0);
            assert_eq!(message.usage.cache_read_input_tokens, Some(0));
        }
        _ => panic!("message_start must lead"),
    }
    let (_, _, usage) = message_delta(&events);
    assert_eq!(usage.input_tokens, 7039);
    assert_eq!(usage.cache_read_input_tokens, Some(0));
    assert_eq!(event_types(&events).iter().filter(|n| **n == "message_start").count(), 1);
}

#[test]
fn test_empty_stream_emits_message_start_at_end() {
    let mut conv = converter("test-model");
    let end = conv.emit_end_events();
    assert_eq!(event_types(&end), vec!["message_start", "message_delta", "message_stop"]);
}

#[test]
fn test_message_start_without_first_chunk_usage_still_leads() {
    let mut conv = converter("test-model");
    let events = conv.process_chunk(&text_chunk("Hi"));
    let usage = match &events[0] {
        AnthropicStreamEvent::MessageStart { message } => &message.usage,
        _ => panic!("message_start must lead"),
    };
    assert_eq!(usage.input_tokens, 0);
    assert_eq!(usage.cache_read_input_tokens, Some(0));
    assert_eq!(usage.cache_creation_input_tokens, Some(0));
}

#[test]
fn test_text_block_stops_before_tool_block_starts() {
    let mut conv = converter("test-model");
    let _ = conv.emit_start_events(0);

    let text_events = conv.process_chunk(&text_chunk("I'll edit the file."));
    assert_eq!(event_types(&text_events), vec!["content_block_start", "content_block_delta"]);

    let tool_events = conv.process_chunk(&tool_call_chunk(
        0,
        Some("call-1"),
        Some("Edit"),
        Some("{\"file_path\":\"/tmp/test.txt\"}"),
    ));
    assert_eq!(
        event_types(&tool_events),
        vec![
            "content_block_stop",
            "content_block_start",
            "content_block_delta",
            "content_block_stop",
        ],
        "text block must be closed before tool block starts; complete tool call stopped inline"
    );

    match &tool_events[0] {
        AnthropicStreamEvent::ContentBlockStop { index } => assert_eq!(*index, 0),
        other => panic!("expected ContentBlockStop, got {other:?}"),
    }
    match &tool_events[1] {
        AnthropicStreamEvent::ContentBlockStart { index, content_block } => {
            assert_eq!(*index, 1);
            match content_block {
                AnthropicResponseContentBlock::ToolUse { id, name, .. } => {
                    assert!(id.starts_with("toolu_"));
                    assert!(!id.contains("call-1"));
                    assert_eq!(name, "Edit");
                }
                other => panic!("expected ToolUse, got {other:?}"),
            }
        }
        other => panic!("expected ContentBlockStart, got {other:?}"),
    }

    let end_events = conv.emit_end_events();
    assert_eq!(
        event_types(&end_events),
        vec!["message_delta", "message_stop"],
        "no block stops in end events (both text and tool already closed inline)"
    );
}

#[test]
fn test_streaming_tool_use_id_is_rewritten_to_toolu_prefix() {
    let mut conv = converter("test-model");
    let events = conv.process_chunk(&tool_call_chunk(
        0,
        Some("chatcmpl-tool-DEADBEEF"),
        Some("Edit"),
        Some("{\"file_path\":\"/tmp/test.txt\"}"),
    ));
    let id = events
        .iter()
        .find_map(|event| match event {
            AnthropicStreamEvent::ContentBlockStart {
                content_block: AnthropicResponseContentBlock::ToolUse { id, .. },
                ..
            } => Some(id.clone()),
            _ => None,
        })
        .expect("expected tool_use content block start");
    assert!(id.starts_with("toolu_"), "tool_use.id must start with toolu_, got {id}");
    assert!(!id.contains("chatcmpl-tool-"), "upstream id format must not leak, got {id}");
}

#[test]
fn test_tool_only_response_no_text_block() {
    let mut conv = converter("test-model");
    let _ = conv.emit_start_events(0);
    let tool_events = conv.process_chunk(&tool_call_chunk(
        0,
        Some("call-1"),
        Some("Read"),
        Some("{\"path\":\"/tmp/test.txt\"}"),
    ));
    assert_eq!(
        event_types(&tool_events),
        vec!["content_block_start", "content_block_delta", "content_block_stop"],
        "complete tool call emits stop inline"
    );
    let end_events = conv.emit_end_events();
    assert_eq!(
        event_types(&end_events),
        vec!["message_delta", "message_stop"],
        "no block stop in end events (already stopped inline)"
    );
}

#[test]
fn test_text_only_response_stop_in_end_events() {
    let mut conv = converter("test-model");
    conv.process_chunk(&text_chunk("Hello world"));
    let end_events = conv.emit_end_events();
    assert_eq!(
        event_types(&end_events),
        vec!["content_block_stop", "message_delta", "message_stop"]
    );
    match &end_events[0] {
        AnthropicStreamEvent::ContentBlockStop { index } => assert_eq!(*index, 0),
        other => panic!("expected text stop at index 0, got {other:?}"),
    }
}

#[test]
fn test_thinking_text_then_tool_call() {
    let mut conv = converter("test-model");
    let _ = conv.emit_start_events(0);

    let ev = conv.process_chunk(&reasoning_chunk("Let me think..."));
    assert_eq!(event_types(&ev), vec!["content_block_start", "content_block_delta"]);
    assert!(matches!(
        &ev[0],
        AnthropicStreamEvent::ContentBlockStart {
            index: 0,
            content_block: AnthropicResponseContentBlock::Thinking { .. }
        }
    ));

    let ev = conv.process_chunk(&text_chunk("Hello!"));
    assert_eq!(
        event_types(&ev),
        vec![
            "content_block_delta",
            "content_block_stop",
            "content_block_start",
            "content_block_delta"
        ]
    );
    assert!(matches!(&ev[1], AnthropicStreamEvent::ContentBlockStop { index: 0 }));
    assert!(matches!(&ev[2], AnthropicStreamEvent::ContentBlockStart { index: 1, .. }));

    let ev = conv.process_chunk(&tool_call_chunk(
        0,
        Some("call-1"),
        Some("Read"),
        Some("{\"path\":\"/tmp/test.txt\"}"),
    ));
    assert_eq!(
        event_types(&ev),
        vec![
            "content_block_stop",
            "content_block_start",
            "content_block_delta",
            "content_block_stop"
        ]
    );
    assert!(matches!(&ev[0], AnthropicStreamEvent::ContentBlockStop { index: 1 }));
    assert!(matches!(&ev[1], AnthropicStreamEvent::ContentBlockStart { index: 2, .. }));
}

#[test]
fn test_thinking_only_closed_in_end_events() {
    let mut conv = converter("test-model");
    conv.process_chunk(&reasoning_chunk("Deep thought..."));
    let ev = conv.emit_end_events();
    assert_eq!(
        event_types(&ev),
        vec!["content_block_delta", "content_block_stop", "message_delta", "message_stop"]
    );
}

#[test]
fn test_multiple_tool_calls_each_stopped_inline() {
    let mut conv = converter("test-model");
    let _ = conv.emit_start_events(0);
    let closed = vec!["content_block_start", "content_block_delta", "content_block_stop"];

    let events1 = conv.process_chunk(&tool_call_chunk(
        0,
        Some("call-1"),
        Some("Read"),
        Some("{\"path\":\"/tmp/a.txt\"}"),
    ));
    assert_eq!(event_types(&events1), closed, "first tool call closed inline");

    let events2 = conv.process_chunk(&tool_call_chunk(
        1,
        Some("call-2"),
        Some("Write"),
        Some("{\"path\":\"/tmp/b.txt\"}"),
    ));
    assert_eq!(event_types(&events2), closed, "second tool call closed inline");

    let end_events = conv.emit_end_events();
    assert_eq!(
        event_types(&end_events),
        vec!["message_delta", "message_stop"],
        "no block stops in end events"
    );
}

#[test]
fn test_with_context_preserves_context() {
    let ctx = AnthropicContext {
        service_tier: Some("priority".to_string()),
        stop_sequences: vec![],
    };
    let mut conv = AnthropicStreamConverter::with_context("test-model".to_string(), ctx);
    let _ = conv.emit_start_events(0);
    assert!(conv.context().is_some());
    assert_eq!(
        conv.context().as_ref().unwrap().service_tier.as_deref(),
        Some("priority")
    );

    let ev = conv.process_chunk(&text_chunk("Hello"));
    assert_eq!(event_types(&ev), vec!["content_block_start", "content_block_delta"]);

    let end = conv.emit_end_events();
    assert_eq!(event_types(&end), vec!["content_block_stop", "message_delta", "message_stop"]);
}

#[test]
fn test_streamed_tool_args_close_only_when_json_complete() {
    let mut conv = converter("test-model");
    let _ = conv.emit_start_events(0);

    let ev1 = conv.process_chunk(&tool_call_chunk(0, Some("call-1"), Some("Write"), Some("")));
    assert_eq!(
        event_types(&ev1),
        vec!["content_block_start", "content_block_delta"],
        "first chunk: open block + empty delta, no premature stop"
    );
    let ev2 = conv.process_chunk(&tool_call_chunk(
        0,
        None,
        None,
        Some("{\"file_path\":\"whoami.txt\""),
    ));
    assert_eq!(
        event_types(&ev2),
        vec!["content_block_delta"],
        "partial-args chunk: delta only, no stop"
    );
    let ev3 = conv.process_chunk(&tool_call_chunk(
        0,
        None,
        None,
        Some(", \"content\":\"MiniMaxAI/MiniMax-M2.5\""),
    ));
    assert_eq!(
        event_types(&ev3),
        vec!["content_block_delta"],
        "still-partial-args chunk: delta only, no stop"
    );
    let ev4 = conv.process_chunk(&tool_call_chunk(0, None, None, Some("}")));
    assert_eq!(
        event_types(&ev4),
        vec!["content_block_delta", "content_block_stop"],
        "completing-args chunk: delta + inline stop (JSON now parses)"
    );
    let end_events = conv.emit_end_events();
    assert_eq!(
        event_types(&end_events),
        vec!["message_delta", "message_stop"],
        "no leftover block stop in end events"
    );
}

#[test]
fn test_streamed_tool_args_unclosed_finalized_in_end_events() {
    let mut conv = converter("test-model");
    let _ = conv.emit_start_events(0);

    let ev1 = conv.process_chunk(&tool_call_chunk(0, Some("call-1"), Some("Write"), Some("")));
    assert_eq!(
        event_types(&ev1),
        vec!["content_block_start", "content_block_delta"],
        "open block + empty delta, no inline stop"
    );
    let ev2 = conv.process_chunk(&tool_call_chunk(
        0,
        None,
        None,
        Some("{\"file_path\":\"truncated"),
    ));
    assert_eq!(
        event_types(&ev2),
        vec!["content_block_delta"],
        "partial-args chunk: delta only"
    );
    let end_events = conv.emit_end_events();
    assert_eq!(
        event_types(&end_events),
        vec!["content_block_stop", "message_delta", "message_stop"],
        "end events close the dangling tool block"
    );
}

fn is_of_block(event: &AnthropicStreamEvent, block: u32) -> bool {
    match event {
        AnthropicStreamEvent::ContentBlockStart { index, .. } => *index == block,
        AnthropicStreamEvent::ContentBlockDelta { index, .. } => *index == block,
        AnthropicStreamEvent::ContentBlockStop { index } => *index == block,
        _ => false,
    }
}

#[test]
fn test_minimax_m2_claude_code_session_replay() {
    let mut conv = converter("MiniMaxAI/MiniMax-M2.5");
    let mut events: Vec<AnthropicStreamEvent> = Vec::new();
    events.extend(conv.process_chunk(&reasoning_chunk("The user wants me ")));
    events.extend(conv.process_chunk(&reasoning_chunk("to write to whoami.txt.")));
    events.extend(conv.process_chunk(&text_chunk("\n\n\n")));
    events.extend(conv.process_chunk(&tool_call_chunk(
        0,
        Some("chatcmpl-tool-x"),
        Some("Write"),
        Some(""),
    )));
    events.extend(conv.process_chunk(&tool_call_chunk(
        0,
        None,
        None,
        Some("{\"file_path\":\"whoami.txt\""),
    )));
    events.extend(conv.process_chunk(&tool_call_chunk(
        0,
        None,
        None,
        Some(", \"content\":\"MiniMaxAI/MiniMax-M2.5\""),
    )));
    events.extend(conv.process_chunk(&tool_call_chunk(0, None, None, Some("}"))));
    events.extend(conv.emit_end_events());

    let tool_block_events: Vec<AnthropicStreamEvent> =
        events.iter().filter(|e| is_of_block(e, 2)).cloned().collect();
    let stop_pos = tool_block_events
        .iter()
        .position(|e| matches!(e, AnthropicStreamEvent::ContentBlockStop { .. }))
        .expect("tool_use block must be closed");
    assert_eq!(
        stop_pos,
        tool_block_events.len() - 1,
        "content_block_stop for tool_use must be the last event for that block"
    );
    assert_eq!(
        event_types(&tool_block_events),
        vec![
            "content_block_start",
            "content_block_delta",
            "content_block_delta",
            "content_block_delta",
            "content_block_delta",
            "content_block_stop",
        ]
    );

    let mut accumulated = String::new();
    for e in &tool_block_events {
        if let AnthropicStreamEvent::ContentBlockDelta {
            delta: AnthropicDelta::InputJsonDelta { partial_json },
            ..
        } = e
        {
            accumulated.push_str(partial_json);
        }
    }
    assert_eq!(
        accumulated, r#"{"file_path":"whoami.txt", "content":"MiniMaxAI/MiniMax-M2.5"}"#,
        "concatenated input_json_delta payloads must reconstruct the full tool args"
    );
    let parsed: serde_json::Value =
        serde_json::from_str(&accumulated).expect("accumulated args must be valid JSON");
    assert_eq!(parsed["file_path"], "whoami.txt");
    assert_eq!(parsed["content"], "MiniMaxAI/MiniMax-M2.5");

    let types = event_types(&events);
    assert_eq!(types[types.len() - 2..], ["message_delta", "message_stop"]);
}

#[test]
fn a_message_starts_once() {
    let mut conv = converter("m");
    match &conv.emit_start_events(7)[..] {
        [AnthropicStreamEvent::MessageStart { message }] => {
            assert_eq!(message.usage.input_tokens, 7);
        }
        other => panic!("expected MessageStart, got {other:?}"),
    }
    assert_eq!(conv.usage().input_tokens, 0);
    assert!(conv.emit_start_events(9).is_empty());
}

#[test]
fn given_ids_name_the_tool_blocks() {
    let mut conv =
        AnthropicStreamConverter::from_parts("m".to_string(), None, "msg_1".to_string());
    let chunk = tool_call_chunk(0, Some("call-1"), Some("f"), Some("{}"));
    assert!(conv.has_room_for(&chunk));
    let events = conv.process_chunk_with(&chunk, &vec![vec!["toolu_9".to_string()]]);
    match &events[0] {
        AnthropicStreamEvent::MessageStart { message } => assert_eq!(message.id, "msg_1"),
        other => panic!("expected MessageStart, got {other:?}"),
    }
    match &events[1] {
        AnthropicStreamEvent::ContentBlockStart {
            index: 0,
            content_block: AnthropicResponseContentBlock::ToolUse { id, name, .. },
        } => {
            assert_eq!(id, "toolu_9");
            assert_eq!(name, "f");
        }
        other => panic!("expected a tool block, got {other:?}"),
    }
}

#[test]
fn an_error_says_nothing_of_its_cause() {
    let mut conv = converter("m");
    match &conv.emit_error_events()[0] {
        AnthropicStreamEvent::Error { error } => {
            assert_eq!(error.error_type, "api_error");
            assert_eq!(error.message, "An internal error occurred during generation.");
        }
        other => panic!("expected Error, got {other:?}"),
    }
}

/// Every text and every fragment of reasoning is sent, in order, in some block.
#[test]
fn streams_keep_all_text_and_reasoning() {
    let mut conv = converter("m");
    let mut events = conv.process_chunk(&reasoning_chunk("a"));
    events.extend(conv.process_chunk(&reasoning_chunk("b")));
    events.extend(conv.process_chunk(&text_chunk("c")));
    events.extend(conv.process_chunk(&tool_call_chunk(0, Some("x"), Some("f"), Some("{"))));
    events.extend(conv.process_chunk(&text_chunk("d")));
    events.extend(conv.process_chunk(&text_chunk("e")));
    events.extend(conv.emit_end_events());
    let mut text = String::new();
    let mut thinking = String::new();
    for event in &events {
        if let AnthropicStreamEvent::ContentBlockDelta { delta, .. } = event {
            match delta {
                AnthropicDelta::TextDelta { text: part } => text.push_str(part),
                AnthropicDelta::ThinkingDelta { thinking: part } => thinking.push_str(part),
                _ => {}
            }
        }
    }
    assert_eq!(text, "cde");
    assert_eq!(thinking, "ab");
}

/// Reasoning that comes while text is open starts a block inside the text block, and
/// arguments of a complete call go to a block that is over.
#[test]
fn late_reasoning_and_arguments_are_out_of_place() {
    let mut conv = converter("m");
    conv.process_chunk(&text_chunk("a"));
    let events = conv.process_chunk(&reasoning_chunk("b"));
    assert_eq!(event_types(&events), vec!["content_block_start", "content_block_delta"]);

    let mut conv = converter("m");
    let events = conv.process_chunk(&tool_call_chunk(0, Some("x"), Some("f"), Some("{}")));
    assert_eq!(*event_types(&events).last().unwrap(), "content_block_stop");
    let events = conv.process_chunk(&tool_call_chunk(0, None, None, Some(" ")));
    assert_eq!(event_types(&events), vec!["content_block_delta"]);
}

/// A stream of the usual shape, with a last call that is cut off, is read from its start to
/// its end: one block after the other, each started and stopped once.
#[test]
fn usual_streams_are_read_to_the_end() {
    let mut conv = converter("m");
    let mut events = conv.process_chunk(&reasoning_chunk("why"));
    events.extend(conv.process_chunk(&text_chunk("hello")));
    events.extend(conv.process_chunk(&tool_call_chunk(0, Some("a"), Some("f"), Some("{"))));
    events.extend(conv.process_chunk(&text_chunk(" and")));
    events.extend(conv.process_chunk(&tool_call_chunk(0, None, None, Some("}"))));
    events.extend(conv.process_chunk(&tool_call_chunk(1, Some("b"), Some("g"), None)));
    events.extend(conv.process_chunk(&tool_call_chunk(1, None, None, Some("{\"x\":"))));
    events.extend(conv.emit_end_events());

    let types = event_types(&events);
    assert_eq!(types[0], "message_start");
    assert_eq!(types.iter().filter(|kind| **kind == "message_start").count(), 1);
    assert_eq!(&types[types.len() - 2..], ["message_delta", "message_stop"]);
    let mut open = None;
    let mut started = Vec::new();
    for event in &events {
        match event {
            AnthropicStreamEvent::ContentBlockStart { index, .. } => {
                assert_eq!(open, None);
                assert!(!started.contains(index));
                started.push(*index);
                open = Some(*index);
            }
            AnthropicStreamEvent::ContentBlockDelta { index, .. } => assert_eq!(open, Some(*index)),
            AnthropicStreamEvent::ContentBlockStop { index } => {
                assert_eq!(open, Some(*index));
                open = None;
            }
            _ => {}
        }
    }
    assert_eq!(open, None);
    assert_eq!(started.len(), 5);
}

/// An empty list of calls before all reasoning changes nothing; after some it ends reasoning.
#[test]
fn an_empty_list_of_calls_ends_only_reasoning_that_has_come() {
    let empty = || {
        let mut delta = no_delta();
        delta.tool_calls = Some(vec![]);
        chunk_of(delta)
    };
    let mut conv = converter("m");
    conv.process_chunk(&empty());
    let events = conv.process_chunk(&reasoning_chunk("b"));
    assert_eq!(event_types(&events), vec!["content_block_start", "content_block_delta"]);

    let mut conv = converter("m");
    conv.process_chunk(&reasoning_chunk("a"));
    let events = conv.process_chunk(&empty());
    assert_eq!(event_types(&events), vec!["content_block_delta", "content_block_stop"]);
}
