//! Messages API requests, complete replies and token counts.

use dynamo_llm::anthropic::blocks::{
    AnthropicContentBlock, AnthropicMessage, AnthropicMessageContent, AnthropicRole, BlockParts,
    ResultBlockParts,
};
use dynamo_llm::anthropic::convert::{
    chat_completion_to_anthropic_response, chat_completion_to_anthropic_response_with,
    completion_usage_to_anthropic,
};
use dynamo_llm::anthropic::count::{
    estimate_block_len, AnthropicCountTokensRequest, AnthropicTool,
};
use dynamo_llm::anthropic::reply::{AnthropicResponseContentBlock, AnthropicStopReason};
use dynamo_llm::anthropic::request::{
    AnthropicImageSource, CacheControl, CacheControlType, DocumentBlock, DocumentSource,
    SearchResultBlock, SystemBlock, SystemContent, SystemPrompt, ToolResultContent,
    ToolResultContentBlock,
};
use dynamo_llm::chat::{
    ChatChoice, ChatCompletionMessageContent, ChatCompletionMessageToolCall,
    ChatCompletionResponseMessage, CompletionUsage, CreateChatCompletionResponse, FinishReason,
    FunctionCall, FunctionType, NvCreateChatCompletionResponse, PromptTokensDetails, Role,
};
use dynamo_llm::json::Json;
use dynamo_llm::number::parse_u64;

fn value(text: &str) -> serde_json::Value {
    serde_json::from_str(text).expect("JSON")
}

fn text_of(value: &serde_json::Value, name: &str) -> Option<String> {
    value.get(name).and_then(|v| v.as_str()).map(String::from)
}

fn cache_control(value: &serde_json::Value) -> Option<CacheControl> {
    value.get("cache_control").map(|control| CacheControl {
        control_type: if text_of(control, "type").as_deref() == Some("ephemeral") {
            CacheControlType::Ephemeral
        } else {
            CacheControlType::Unknown
        },
        ttl: text_of(control, "ttl"),
    })
}

fn image_source(value: &serde_json::Value) -> Result<AnthropicImageSource, String> {
    let source = value.get("source").ok_or("missing field `source`")?;
    Ok(AnthropicImageSource {
        source_type: text_of(source, "type").ok_or("missing field `type`")?,
        media_type: text_of(source, "media_type").ok_or("missing field `media_type`")?,
        data: text_of(source, "data").ok_or("missing field `data`")?,
    })
}

fn document(value: &serde_json::Value) -> Option<DocumentBlock> {
    let source = value.get("source")?;
    let source = match text_of(source, "type")?.as_str() {
        "base64" => DocumentSource::Base64 {
            media_type: text_of(source, "media_type")?,
            data: text_of(source, "data")?,
        },
        "url" => DocumentSource::Url { url: text_of(source, "url")? },
        "text" => DocumentSource::Text {
            media_type: text_of(source, "media_type"),
            data: text_of(source, "data")?,
        },
        _ => return None,
    };
    Some(DocumentBlock {
        source,
        title: text_of(value, "title"),
        context: None,
        citations: None,
        cache_control: None,
    })
}

fn search_result(value: &serde_json::Value) -> Option<SearchResultBlock> {
    let mut content = Vec::new();
    for item in value.get("content")?.as_array()? {
        content.push(result_block(item).ok()?);
    }
    Some(SearchResultBlock {
        source: text_of(value, "source"),
        title: text_of(value, "title"),
        content,
        citations: None,
        cache_control: None,
    })
}

fn result_block(value: &serde_json::Value) -> Result<ToolResultContentBlock, String> {
    ToolResultContentBlock::from_value(
        value.clone(),
        ResultBlockParts {
            source: image_source(value),
            document: document(value),
            search_result: search_result(value),
        },
    )
}

fn tool_result_content(value: &serde_json::Value) -> Option<ToolResultContent> {
    let content = value.get("content")?;
    if let Some(text) = content.as_str() {
        return Some(ToolResultContent::Text(text.to_string()));
    }
    let mut blocks = Vec::new();
    for item in content.as_array()? {
        blocks.push(result_block(item).ok()?);
    }
    Some(ToolResultContent::Blocks(blocks))
}

fn content_block(value: &serde_json::Value) -> Result<AnthropicContentBlock, String> {
    AnthropicContentBlock::from_value(
        value.clone(),
        BlockParts {
            cache_control: cache_control(value),
            source: image_source(value),
            content: tool_result_content(value),
        },
    )
}

fn message_content(value: &serde_json::Value) -> Result<AnthropicMessageContent, String> {
    let mut blocks = Ok(Vec::new());
    if let Some(items) = value.as_array() {
        blocks = items.iter().map(content_block).collect();
    }
    AnthropicMessageContent::from_value(value, blocks)
}

/// The blocks of the content of a message.
fn blocks(text: &str) -> Vec<AnthropicContentBlock> {
    match message_content(&value(text)) {
        Ok(AnthropicMessageContent::Blocks { content }) => content,
        Ok(AnthropicMessageContent::Text { .. }) => panic!("expected blocks content"),
        Err(error) => panic!("{error}"),
    }
}

fn completion(
    message: ChatCompletionResponseMessage,
    finish_reason: FinishReason,
    usage: CompletionUsage,
) -> NvCreateChatCompletionResponse {
    NvCreateChatCompletionResponse {
        inner: CreateChatCompletionResponse {
            id: "chatcmpl-xyz".to_string(),
            choices: vec![ChatChoice { index: 0, message, finish_reason: Some(finish_reason) }],
            created: 1726000000,
            model: "test-model".to_string(),
            service_tier: None,
            system_fingerprint: None,
            object: "chat.completion".to_string(),
            usage: Some(usage),
        },
        nvext: None,
    }
}

fn message(text: Option<&str>) -> ChatCompletionResponseMessage {
    ChatCompletionResponseMessage {
        content: text.map(|t| ChatCompletionMessageContent::Text(t.to_string())),
        refusal: None,
        tool_calls: None,
        role: Role::Assistant,
        function_call: None,
        reasoning_content: None,
    }
}

fn usage(prompt: u32, cached: Option<u32>, generated: u32) -> CompletionUsage {
    CompletionUsage {
        prompt_tokens: prompt,
        completion_tokens: generated,
        total_tokens: prompt + generated,
        prompt_tokens_details: cached
            .map(|c| PromptTokensDetails { audio_tokens: None, cached_tokens: Some(c) }),
        completion_tokens_details: None,
    }
}

#[test]
fn test_chat_completion_to_anthropic_response() {
    let chat_resp = completion(message(Some("Hello!")), FinishReason::Stop, usage(10, None, 5));
    let response = chat_completion_to_anthropic_response(chat_resp, "test-model", None);
    assert!(response.id.starts_with("msg_"));
    assert_eq!(response.object_type, "message");
    assert_eq!(response.role, "assistant");
    assert_eq!(response.model, "test-model");
    assert_eq!(response.stop_reason, Some(AnthropicStopReason::EndTurn));
    assert_eq!(response.usage.input_tokens, 10);
    assert_eq!(response.usage.output_tokens, 5);
    assert_eq!(response.content.len(), 1);
    match &response.content[0] {
        AnthropicResponseContentBlock::Text { text, .. } => assert_eq!(text, "Hello!"),
        _ => panic!("expected text block"),
    }
}

#[test]
fn test_anthropic_response_input_tokens_excludes_cached() {
    let chat_resp = completion(message(Some("Hi!")), FinishReason::Stop, usage(12, Some(11), 5));
    let response = chat_completion_to_anthropic_response(chat_resp, "test-model", None);
    assert_eq!(response.usage.input_tokens, 1);
    assert_eq!(response.usage.cache_read_input_tokens, Some(11));
    assert_eq!(response.usage.cache_creation_input_tokens, Some(0));
    assert_eq!(response.usage.output_tokens, 5);
}

#[test]
fn test_anthropic_usage_clamps_cached_tokens_to_prompt_tokens() {
    let usage = completion_usage_to_anthropic(usage(12, Some(20), 5));
    assert_eq!(usage.input_tokens, 0);
    assert_eq!(usage.cache_read_input_tokens, Some(12));
    assert_eq!(usage.cache_creation_input_tokens, Some(0));
    assert_eq!(usage.output_tokens, 5);
}

fn weather_call() -> ChatCompletionMessageToolCall {
    ChatCompletionMessageToolCall {
        id: "chatcmpl-tool-DEADBEEF".to_string(),
        kind: FunctionType::Function,
        function: FunctionCall {
            name: "get_weather".to_string(),
            arguments: r#"{"location":"SF"}"#.to_string(),
        },
    }
}

#[test]
fn test_tool_use_id_is_rewritten_to_toolu_prefix() {
    let mut calling = message(None);
    calling.tool_calls = Some(vec![weather_call()]);
    let chat_resp = completion(calling, FinishReason::ToolCalls, usage(20, None, 10));
    let response = chat_completion_to_anthropic_response(chat_resp, "test-model", None);
    let (id, name, input) = response
        .content
        .iter()
        .find_map(|block| match block {
            AnthropicResponseContentBlock::ToolUse { id, name, input } => {
                Some((id.clone(), name.clone(), input.clone()))
            }
            _ => None,
        })
        .expect("expected a tool_use content block");
    assert!(id.starts_with("toolu_"), "tool_use.id must start with toolu_, got {id}");
    assert!(!id.contains("chatcmpl-tool-"), "upstream id format must not leak, got {id}");
    assert_eq!(name, "get_weather");
    assert_eq!(
        input,
        Json::Object(vec![("location".to_string(), Json::Str("SF".to_string()))])
    );
}

#[test]
fn replies_hold_thinking_then_calls_then_text() {
    let mut full = message(Some("text"));
    full.reasoning_content = Some("why".to_string());
    full.tool_calls = Some(vec![weather_call()]);
    let response = chat_completion_to_anthropic_response_with(
        completion(full, FinishReason::Length, usage(1, None, 1)),
        "m",
        "msg_1".to_string(),
        &vec!["toolu_1".to_string()],
        &vec![Json::Null],
    );
    assert_eq!(response.id, "msg_1");
    assert_eq!(response.stop_reason, Some(AnthropicStopReason::MaxTokens));
    assert_eq!(
        response.content,
        vec![
            AnthropicResponseContentBlock::Thinking {
                thinking: "why".to_string(),
                signature: String::new()
            },
            AnthropicResponseContentBlock::ToolUse {
                id: "toolu_1".to_string(),
                name: "get_weather".to_string(),
                input: Json::Null
            },
            AnthropicResponseContentBlock::Text { text: "text".to_string(), citations: None },
        ]
    );
}

#[test]
fn a_reply_without_content_holds_an_empty_text() {
    let mut chat_resp = completion(message(None), FinishReason::Stop, usage(1, None, 1));
    chat_resp.inner.choices = vec![];
    let response = chat_completion_to_anthropic_response(chat_resp, "m", None);
    assert_eq!(response.stop_reason, None);
    assert_eq!(
        response.content,
        vec![AnthropicResponseContentBlock::Text { text: String::new(), citations: None }]
    );
}

#[test]
fn arguments_that_are_no_json_become_an_empty_object() {
    let mut calling = message(None);
    let mut call = weather_call();
    call.function.arguments = "{\"location\":".to_string();
    calling.tool_calls = Some(vec![call]);
    let chat_resp = completion(calling, FinishReason::FunctionCall, usage(1, None, 1));
    let response = chat_completion_to_anthropic_response(chat_resp, "m", None);
    assert_eq!(response.stop_reason, Some(AnthropicStopReason::ToolUse));
    match &response.content[0] {
        AnthropicResponseContentBlock::ToolUse { input, .. } => {
            assert_eq!(*input, Json::Object(vec![]));
        }
        _ => panic!("expected a tool_use block"),
    }
}

#[test]
fn test_deserialize_simple_message() {
    match message_content(&value(r#""Hello""#)) {
        Ok(AnthropicMessageContent::Text { content }) => assert_eq!(content, "Hello"),
        _ => panic!("expected text content"),
    }
}

#[test]
fn test_deserialize_content_blocks() {
    let content = blocks(
        r#"[
            {"type": "text", "text": "What is this?"},
            {"type": "tool_result", "tool_use_id": "tool_1", "content": "result text"}
        ]"#,
    );
    assert_eq!(content.len(), 2);
}

#[test]
fn test_deserialize_thinking_block() {
    let content = blocks(
        r#"[
            {"type": "thinking", "thinking": "Let me reason about this...", "signature": "sig123"},
            {"type": "text", "text": "Here is my answer."}
        ]"#,
    );
    assert_eq!(content.len(), 2);
    match &content[0] {
        AnthropicContentBlock::Thinking { thinking, signature, .. } => {
            assert_eq!(thinking, "Let me reason about this...");
            assert_eq!(signature, "sig123");
        }
        _ => panic!("expected Thinking"),
    }
}

#[test]
fn test_known_and_unknown_block_types() {
    let content = blocks(
        r#"[
            {"type": "text", "text": "hello"},
            {"type": "server_tool_use", "id": "stu_1", "name": "web_search", "input": {}},
            {"type": "redacted_thinking", "data": "encrypted"},
            {"type": "web_search_tool_result", "tool_use_id": "stu_1", "content": [{"type": "web_search_result", "url": "https://example.com"}]},
            {"type": "future_block_type", "some_field": 42},
            {"type": "text", "text": "world"}
        ]"#,
    );
    assert_eq!(content.len(), 6);
    assert!(matches!(&content[0], AnthropicContentBlock::Text { .. }));
    assert!(matches!(
        &content[1],
        AnthropicContentBlock::ServerToolUse { name, .. } if name == "web_search"
    ));
    assert!(matches!(
        &content[2],
        AnthropicContentBlock::RedactedThinking { data } if data == "encrypted"
    ));
    assert!(matches!(
        &content[3],
        AnthropicContentBlock::WebSearchToolResult { tool_use_id, .. } if tool_use_id == "stu_1"
    ));
    assert!(matches!(
        &content[4],
        AnthropicContentBlock::Other(v)
            if v.get("type").and_then(|t| t.as_str()) == Some("future_block_type")
    ));
    assert!(matches!(&content[5], AnthropicContentBlock::Text { .. }));
}

fn result_text(content: Vec<AnthropicContentBlock>) -> String {
    match content.into_iter().next() {
        Some(AnthropicContentBlock::ToolResult { content, .. }) => content.unwrap().into_text(),
        _ => panic!("expected ToolResult"),
    }
}

#[test]
fn test_tool_result_string_content() {
    let content = blocks(
        r#"[{"type": "tool_result", "tool_use_id": "t1", "content": "simple text"}]"#,
    );
    assert_eq!(result_text(content), "simple text");
}

#[test]
fn test_tool_result_array_content() {
    let content = blocks(
        r#"[{"type": "tool_result", "tool_use_id": "t1", "content": [
            {"type": "text", "text": "line 1"},
            {"type": "text", "text": "line 2"}
        ]}]"#,
    );
    assert_eq!(result_text(content), "line 1line 2");
}

#[test]
fn test_per_block_cache_control_deserialization() {
    let content = blocks(
        r#"[
            {"type": "text", "text": "Hello", "cache_control": {"type": "ephemeral"}},
            {"type": "text", "text": "World"}
        ]"#,
    );
    match &content[0] {
        AnthropicContentBlock::Text { cache_control, .. } => assert!(cache_control.is_some()),
        _ => panic!("expected Text"),
    }
    match &content[1] {
        AnthropicContentBlock::Text { cache_control, .. } => assert!(cache_control.is_none()),
        _ => panic!("expected Text"),
    }
}

#[test]
fn test_system_string_no_cache_control() {
    let system =
        SystemContent::from_prompt(&SystemPrompt::Text("You are helpful.".to_string()));
    assert_eq!(system.text, "You are helpful.");
    assert!(system.cache_control.is_none());
}

#[test]
fn test_text_block_with_citations() {
    let content = blocks(
        r#"[{
            "type": "text",
            "text": "According to the document...",
            "citations": [
                {"type": "char_location", "cited_text": "relevant text", "document_index": 0, "start_char_index": 0, "end_char_index": 13}
            ]
        }]"#,
    );
    match &content[0] {
        AnthropicContentBlock::Text { citations, .. } => {
            assert!(citations.is_some());
            let cites = citations.as_ref().unwrap();
            assert_eq!(cites.len(), 1);
            assert_eq!(cites[0]["type"], "char_location");
        }
        _ => panic!("expected Text"),
    }
}

#[test]
fn test_redacted_thinking_block() {
    let content = blocks(
        r#"[
            {"type": "thinking", "thinking": "visible reasoning", "signature": "sig1"},
            {"type": "redacted_thinking", "data": "base64-encrypted-data"},
            {"type": "text", "text": "Final answer"}
        ]"#,
    );
    assert_eq!(content.len(), 3);
    assert!(matches!(&content[0], AnthropicContentBlock::Thinking { .. }));
    match &content[1] {
        AnthropicContentBlock::RedactedThinking { data } => {
            assert_eq!(data, "base64-encrypted-data");
        }
        _ => panic!("expected RedactedThinking"),
    }
    assert!(matches!(&content[2], AnthropicContentBlock::Text { .. }));
}

#[test]
fn test_server_tool_use_and_web_search_result() {
    let content = blocks(
        r#"[
            {"type": "server_tool_use", "id": "stu_1", "name": "web_search", "input": {"query": "rust programming"}},
            {"type": "web_search_tool_result", "tool_use_id": "stu_1", "content": [{"type": "web_search_result", "url": "https://www.rust-lang.org", "title": "Rust"}]},
            {"type": "text", "text": "Based on my search..."}
        ]"#,
    );
    assert_eq!(content.len(), 3);
    match &content[0] {
        AnthropicContentBlock::ServerToolUse { id, name, input } => {
            assert_eq!(id, "stu_1");
            assert_eq!(name, "web_search");
            assert_eq!(input["query"], "rust programming");
        }
        _ => panic!("expected ServerToolUse"),
    }
    match &content[1] {
        AnthropicContentBlock::WebSearchToolResult { tool_use_id, content } => {
            assert_eq!(tool_use_id, "stu_1");
            assert!(content.is_array());
        }
        _ => panic!("expected WebSearchToolResult"),
    }
}

#[test]
fn blocks_name_the_member_they_lack() {
    for (text, error) in [
        (r#"{"type": "text"}"#, "missing field `text`"),
        (r#"{"type": "image"}"#, "missing field `source`"),
        (r#"{"type": "tool_use", "name": "f"}"#, "missing field `id`"),
        (r#"{"type": "tool_result"}"#, "missing field `tool_use_id`"),
        (r#"{"type": "redacted_thinking"}"#, "missing field `data`"),
    ] {
        match content_block(&value(text)) {
            Err(found) => assert_eq!(found, error),
            Ok(_) => panic!("{text} was read"),
        }
    }
}

#[test]
fn test_count_tokens_estimate() {
    let req = AnthropicCountTokensRequest {
        model: "test".to_string(),
        messages: vec![AnthropicMessage {
            role: AnthropicRole::User,
            content: AnthropicMessageContent::Text {
                content: "Hello, world! This is a test message.".to_string(),
            },
        }],
        system: Some(SystemContent {
            text: "You are helpful.".to_string(),
            cache_control: None,
        }),
        tools: None,
    };
    let tokens = req.estimate_tokens();
    assert!(tokens > 0, "should estimate non-zero tokens");
    assert_eq!(tokens, 19);
    assert_eq!(req.try_estimate_tokens(), Some(19));
}

#[test]
fn estimates_count_tools_and_round_up_from_nothing() {
    let mut req = AnthropicCountTokensRequest {
        model: "test".to_string(),
        messages: vec![],
        system: None,
        tools: None,
    };
    assert_eq!(req.estimate_tokens(), 0);
    req.tools = Some(vec![AnthropicTool {
        name: "f".to_string(),
        tool_type: None,
        description: None,
        input_schema: None,
        cache_control: None,
        defer_loading: None,
    }]);
    assert_eq!(req.estimate_tokens(), 1);
    req.tools = Some(vec![AnthropicTool {
        name: "fgh".to_string(),
        tool_type: None,
        description: Some("abc".to_string()),
        input_schema: Some(value(r#"{"a": 1}"#)),
        cache_control: None,
        defer_loading: None,
    }]);
    // 3 for the name, 3 for the description and 7 for {"a":1}.
    assert_eq!(req.estimate_tokens(), 4);
}

#[test]
fn estimates_count_the_bytes_of_a_block() {
    let block = content_block(&value(
        r#"{"type": "tool_use", "id": "t", "name": "f", "input": {"a": "é"}}"#,
    ));
    // 1 for the name and 10 for {"a":"é"} in UTF-8.
    assert_eq!(estimate_block_len(&block.unwrap()), Some(11));
    let image = content_block(&value(
        r#"{"type": "image", "source": {"type": "base64", "media_type": "image/png", "data": "aGk="}}"#,
    ));
    assert_eq!(estimate_block_len(&image.unwrap()), Some(256));
}

#[test]
fn system_content_reserializes_in_wire_shape() {
    let plain = SystemContent::from_prompt(&SystemPrompt::Text("You are helpful.".to_string()));
    assert_eq!(plain.to_prompt(), SystemPrompt::Text("You are helpful.".to_string()));

    let hint = CacheControl { control_type: CacheControlType::Ephemeral, ttl: None };
    let content = SystemContent::from_prompt(&SystemPrompt::Blocks(vec![
        SystemBlock { text: "A".to_string(), cache_control: None },
        SystemBlock { text: "B".to_string(), cache_control: Some(hint.clone()) },
    ]));
    let out = content.to_prompt();
    assert_eq!(
        out,
        SystemPrompt::Blocks(vec![SystemBlock {
            text: "A\nB".to_string(),
            cache_control: Some(hint),
        }])
    );
    let again = SystemContent::from_prompt(&out);
    assert_eq!(again.text, "A\nB");
    assert_eq!(again.cache_control.unwrap().control_type, CacheControlType::Ephemeral);
}

#[test]
fn message_content_errors_name_the_actual_problem() {
    let err = match message_content(&value("42")) {
        Err(error) => error,
        Ok(_) => panic!("42 was read"),
    };
    assert!(err.contains("must be a string or an array of content blocks"), "{err}");
    assert!(err.contains("a number"), "{err}");

    assert!(matches!(
        message_content(&value(r#""hello""#)),
        Ok(AnthropicMessageContent::Text { .. })
    ));
    assert!(matches!(
        message_content(&value(r#"[{"type": "text", "text": "hello"}]"#)),
        Ok(AnthropicMessageContent::Blocks { .. })
    ));
}

#[test]
fn tool_result_blocks_parse_typed_and_round_trip() {
    let input = value(
        r#"[
            {"type": "text", "text": "Screenshot captured"},
            {"type": "image", "source": {"type": "base64", "media_type": "image/png", "data": "aGVsbG8="}},
            {"type": "document", "source": {"type": "base64", "media_type": "application/pdf", "data": "aGVsbG8="}},
            {"type": "search_result", "source": "https://example.com", "title": "Example", "content": [{"type": "text", "text": "hit"}]},
            {"type": "tool_reference", "tool_name": "mcp__slack__read_thread"}
        ]"#,
    );
    let items = input.as_array().unwrap();
    let mut blocks = Vec::new();
    for item in items {
        match result_block(item) {
            Ok(block) => blocks.push(block),
            Err(error) => panic!("{error}"),
        }
    }
    assert!(matches!(blocks[1], ToolResultContentBlock::Image { .. }));
    assert!(matches!(
        &blocks[2],
        ToolResultContentBlock::Document(DocumentBlock {
            source: DocumentSource::Base64 { .. },
            ..
        })
    ));
    assert!(matches!(blocks[3], ToolResultContentBlock::SearchResult(_)));
    match &blocks[4] {
        ToolResultContentBlock::Other(kept) => assert_eq!(*kept, items[4]),
        _ => panic!("expected Other"),
    }

    match result_block(&value(r#"{"text": "legacy"}"#)) {
        Ok(ToolResultContentBlock::Text { text }) => assert_eq!(text, "legacy"),
        _ => panic!("expected Text"),
    }

    let odd = value(r#"{"type": "document", "source": {"type": "mystery"}}"#);
    match result_block(&odd) {
        Ok(ToolResultContentBlock::Other(kept)) => assert_eq!(kept, odd),
        _ => panic!("expected Other"),
    }
}

#[test]
fn documents_and_hits_have_text_where_they_hold_text() {
    let hit = search_result(&value(
        r#"{"type": "search_result", "content": [{"type": "text", "text": "a"}, {"type": "text", "text": "b"}]}"#,
    ));
    assert_eq!(hit.unwrap().text(), Some("ab".to_string()));
    let plain = DocumentSource::Text { media_type: None, data: "words".to_string() };
    assert_eq!(plain.text(), Some("words".to_string()));
    let linked = DocumentSource::Url { url: "https://example.com".to_string() };
    assert_eq!(linked.text(), None);
}

#[test]
fn cache_hints_last_from_five_minutes_to_an_hour() {
    let hint = |ttl: &str| {
        CacheControl { control_type: CacheControlType::Ephemeral, ttl: Some(ttl.to_string()) }
            .ttl_seconds()
    };
    assert_eq!(hint("5m"), 300);
    assert_eq!(hint("1h"), 3600);
    assert_eq!(hint("600"), 600);
    assert_eq!(hint("10"), 300);
    assert_eq!(hint("7200"), 3600);
    assert_eq!(hint("soon"), 300);
}

#[test]
fn numbers_are_read_as_rust_reads_them() {
    for text in ["0", "+7", "18446744073709551615", "18446744073709551616", "", "+", "-1", "1 "] {
        assert_eq!(parse_u64(text), text.parse::<u64>().ok(), "{text}");
    }
}
