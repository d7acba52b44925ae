//! The messages that the Anthropic API answers with: responses, stream events and errors.

use vstd::prelude::*;

use crate::json::{Json, JsonView};

verus! {

/// Why the model stopped.
#[derive(Debug, Clone, Copy, PartialEq, Eq, Structural)]
pub enum AnthropicStopReason {
    EndTurn,
    MaxTokens,
    StopSequence,
    ToolUse,
    PauseTurn,
    Refusal,
}

/// Token counts of one message. Cached prompt tokens are not part of the input tokens.
#[derive(Debug, Clone, Copy, PartialEq, Eq, Structural)]
pub struct AnthropicUsage {
    pub input_tokens: u32,
    pub output_tokens: u32,
    pub cache_creation_input_tokens: Option<u32>,
    pub cache_read_input_tokens: Option<u32>,
}

impl Default for AnthropicUsage {
    fn default() -> (usage: Self)
        ensures
            usage == (AnthropicUsage {
                input_tokens: 0,
                output_tokens: 0,
                cache_creation_input_tokens: None,
                cache_read_input_tokens: None,
            }),
    {
        AnthropicUsage {
            input_tokens: 0,
            output_tokens: 0,
            cache_creation_input_tokens: None,
            cache_read_input_tokens: None,
        }
    }
}

/// A block of a response. Of a kind that is not known, only the JSON is kept.
#[derive(Debug, Clone, PartialEq, Eq)]
pub enum AnthropicResponseContentBlock {
    Thinking {
        thinking: String,
        signature: String,
    },
    ToolResult {
        tool_use_id: String,
        content: String,
        is_error: Option<bool>,
    },
    Text {
        text: String,
        citations: Option<Vec<Json>>,
    },
    ToolUse {
        id: String,
        name: String,
        input: Json,
    },
    RedactedThinking {
        data: String,
    },
    ServerToolUse {
        id: String,
        name: String,
        input: Json,
    },
    WebSearchToolResult {
        tool_use_id: String,
        content: Json,
    },
    Other(Json),
}

/// The mathematical form of a [`AnthropicResponseContentBlock`].
#[verifier::ext_equal]
pub enum AnthropicResponseContentBlockView {
    Thinking {
        thinking: Seq<char>,
        signature: Seq<char>,
    },
    ToolResult {
        tool_use_id: Seq<char>,
        content: Seq<char>,
        is_error: Option<bool>,
    },
    Text {
        text: Seq<char>,
        citations: Option<Seq<JsonView>>,
    },
    ToolUse {
        id: Seq<char>,
        name: Seq<char>,
        input: JsonView,
    },
    RedactedThinking {
        data: Seq<char>,
    },
    ServerToolUse {
        id: Seq<char>,
        name: Seq<char>,
        input: JsonView,
    },
    WebSearchToolResult {
        tool_use_id: Seq<char>,
        content: JsonView,
    },
    Other(JsonView),
}

impl DeepView for AnthropicResponseContentBlock {
    type V = AnthropicResponseContentBlockView;

    open spec fn deep_view(&self) -> AnthropicResponseContentBlockView {
        match *self {
            AnthropicResponseContentBlock::Thinking { thinking, signature } => AnthropicResponseContentBlockView::Thinking {
                thinking: thinking@,
                signature: signature@,
            },
            AnthropicResponseContentBlock::ToolResult { tool_use_id, content, is_error } => AnthropicResponseContentBlockView::ToolResult {
                tool_use_id: tool_use_id@,
                content: content@,
                is_error: is_error,
            },
            AnthropicResponseContentBlock::Text { text, citations } => AnthropicResponseContentBlockView::Text {
                text: text@,
                citations: citations.deep_view(),
            },
            AnthropicResponseContentBlock::ToolUse { id, name, input } => AnthropicResponseContentBlockView::ToolUse {
                id: id@,
                name: name@,
                input: input.deep_view(),
            },
            AnthropicResponseContentBlock::RedactedThinking { data } => AnthropicResponseContentBlockView::RedactedThinking {
                data: data@,
            },
            AnthropicResponseContentBlock::ServerToolUse { id, name, input } => AnthropicResponseContentBlockView::ServerToolUse {
                id: id@,
                name: name@,
                input: input.deep_view(),
            },
            AnthropicResponseContentBlock::WebSearchToolResult { tool_use_id, content } => AnthropicResponseContentBlockView::WebSearchToolResult {
                tool_use_id: tool_use_id@,
                content: content.deep_view(),
            },
            AnthropicResponseContentBlock::Other(inner) => AnthropicResponseContentBlockView::Other(inner.deep_view()),
        }
    }
}

/// A complete response.
#[derive(Debug, Clone, PartialEq, Eq)]
pub struct AnthropicMessageResponse {
    pub id: String,
    pub object_type: String,
    pub role: String,
    pub content: Vec<AnthropicResponseContentBlock>,
    pub model: String,
    pub stop_reason: Option<AnthropicStopReason>,
    pub stop_sequence: Option<String>,
    pub usage: AnthropicUsage,
}

/// The mathematical form of a [`AnthropicMessageResponse`].
#[verifier::ext_equal]
pub struct AnthropicMessageResponseView {
    pub id: Seq<char>,
    pub object_type: Seq<char>,
    pub role: Seq<char>,
    pub content: Seq<AnthropicResponseContentBlockView>,
    pub model: Seq<char>,
    pub stop_reason: Option<AnthropicStopReason>,
    pub stop_sequence: Option<Seq<char>>,
    pub usage: AnthropicUsage,
}

impl DeepView for AnthropicMessageResponse {
    type V = AnthropicMessageResponseView;

    open spec fn deep_view(&self) -> AnthropicMessageResponseView {
        AnthropicMessageResponseView {
            id: self.id@,
            object_type: self.object_type@,
            role: self.role@,
            content: self.content.deep_view(),
            model: self.model@,
            stop_reason: self.stop_reason,
            stop_sequence: self.stop_sequence.deep_view(),
            usage: self.usage,
        }
    }
}

/// What a stream event adds to a block.
#[derive(Debug, Clone, PartialEq, Eq)]
pub enum AnthropicDelta {
    ThinkingDelta {
        thinking: String,
    },
    TextDelta {
        text: String,
    },
    InputJsonDelta {
        partial_json: String,
    },
    SignatureDelta {
        signature: String,
    },
    CitationsDelta {
        citation: Json,
    },
}

/// The mathematical form of a [`AnthropicDelta`].
#[verifier::ext_equal]
pub enum AnthropicDeltaView {
    ThinkingDelta {
        thinking: Seq<char>,
    },
    TextDelta {
        text: Seq<char>,
    },
    InputJsonDelta {
        partial_json: Seq<char>,
    },
    SignatureDelta {
        signature: Seq<char>,
    },
    CitationsDelta {
        citation: JsonView,
    },
}

impl DeepView for AnthropicDelta {
    type V = AnthropicDeltaView;

    open spec fn deep_view(&self) -> AnthropicDeltaView {
        match *self {
            AnthropicDelta::ThinkingDelta { thinking } => AnthropicDeltaView::ThinkingDelta {
                thinking: thinking@,
            },
            AnthropicDelta::TextDelta { text } => AnthropicDeltaView::TextDelta {
                text: text@,
            },
            AnthropicDelta::InputJsonDelta { partial_json } => AnthropicDeltaView::InputJsonDelta {
                partial_json: partial_json@,
            },
            AnthropicDelta::SignatureDelta { signature } => AnthropicDeltaView::SignatureDelta {
                signature: signature@,
            },
            AnthropicDelta::CitationsDelta { citation } => AnthropicDeltaView::CitationsDelta {
                citation: citation.deep_view(),
            },
        }
    }
}

/// How a streamed message ended.
#[derive(Debug, Clone, PartialEq, Eq)]
pub struct AnthropicMessageDeltaBody {
    pub stop_reason: Option<AnthropicStopReason>,
    pub stop_sequence: Option<String>,
}

/// The mathematical form of a [`AnthropicMessageDeltaBody`].
#[verifier::ext_equal]
pub struct AnthropicMessageDeltaBodyView {
    pub stop_reason: Option<AnthropicStopReason>,
    pub stop_sequence: Option<Seq<char>>,
}

impl DeepView for AnthropicMessageDeltaBody {
    type V = AnthropicMessageDeltaBodyView;

    open spec fn deep_view(&self) -> AnthropicMessageDeltaBodyView {
        AnthropicMessageDeltaBodyView {
            stop_reason: self.stop_reason,
            stop_sequence: self.stop_sequence.deep_view(),
        }
    }
}

#[derive(Debug, Clone, PartialEq, Eq)]
pub struct AnthropicErrorBody {
    pub error_type: String,
    pub message: String,
}

/// The mathematical form of a [`AnthropicErrorBody`].
#[verifier::ext_equal]
pub struct AnthropicErrorBodyView {
    pub error_type: Seq<char>,
    pub message: Seq<char>,
}

impl DeepView for AnthropicErrorBody {
    type V = AnthropicErrorBodyView;

    open spec fn deep_view(&self) -> AnthropicErrorBodyView {
        AnthropicErrorBodyView {
            error_type: self.error_type@,
            message: self.message@,
        }
    }
}

/// An error as the API reports it.
#[derive(Debug, Clone, PartialEq, Eq)]
pub struct AnthropicErrorResponse {
    pub object_type: String,
    pub error: AnthropicErrorBody,
}

/// The mathematical form of a [`AnthropicErrorResponse`].
#[verifier::ext_equal]
pub struct AnthropicErrorResponseView {
    pub object_type: Seq<char>,
    pub error: AnthropicErrorBodyView,
}

impl DeepView for AnthropicErrorResponse {
    type V = AnthropicErrorResponseView;

    open spec fn deep_view(&self) -> AnthropicErrorResponseView {
        AnthropicErrorResponseView {
            object_type: self.object_type@,
            error: self.error.deep_view(),
        }
    }
}

/// One event of a message stream.
#[derive(Debug, Clone, PartialEq, Eq)]
pub enum AnthropicStreamEvent {
    MessageStart {
        message: AnthropicMessageResponse,
    },
    ContentBlockStart {
        index: u32,
        content_block: AnthropicResponseContentBlock,
    },
    ContentBlockDelta {
        index: u32,
        delta: AnthropicDelta,
    },
    ContentBlockStop {
        index: u32,
    },
    MessageDelta {
        delta: AnthropicMessageDeltaBody,
        usage: AnthropicUsage,
    },
    MessageStop,
    Ping,
    Error {
        error: AnthropicErrorBody,
    },
}

/// The mathematical form of a [`AnthropicStreamEvent`].
#[verifier::ext_equal]
pub enum AnthropicStreamEventView {
    MessageStart {
        message: AnthropicMessageResponseView,
    },
    ContentBlockStart {
        index: u32,
        content_block: AnthropicResponseContentBlockView,
    },
    ContentBlockDelta {
        index: u32,
        delta: AnthropicDeltaView,
    },
    ContentBlockStop {
        index: u32,
    },
    MessageDelta {
        delta: AnthropicMessageDeltaBodyView,
        usage: AnthropicUsage,
    },
    MessageStop,
    Ping,
    Error {
        error: AnthropicErrorBodyView,
    },
}

impl DeepView for AnthropicStreamEvent {
    type V = AnthropicStreamEventView;

    open spec fn deep_view(&self) -> AnthropicStreamEventView {
        match *self {
            AnthropicStreamEvent::MessageStart { message } => AnthropicStreamEventView::MessageStart {
                message: message.deep_view(),
            },
            AnthropicStreamEvent::ContentBlockStart { index, content_block } => AnthropicStreamEventView::ContentBlockStart {
                index: index,
                content_block: content_block.deep_view(),
            },
            AnthropicStreamEvent::ContentBlockDelta { index, delta } => AnthropicStreamEventView::ContentBlockDelta {
                index: index,
                delta: delta.deep_view(),
            },
            AnthropicStreamEvent::ContentBlockStop { index } => AnthropicStreamEventView::ContentBlockStop {
                index: index,
            },
            AnthropicStreamEvent::MessageDelta { delta, usage } => AnthropicStreamEventView::MessageDelta {
                delta: delta.deep_view(),
                usage: usage,
            },
            AnthropicStreamEvent::MessageStop => AnthropicStreamEventView::MessageStop,
            AnthropicStreamEvent::Ping => AnthropicStreamEventView::Ping,
            AnthropicStreamEvent::Error { error } => AnthropicStreamEventView::Error {
                error: error.deep_view(),
            },
        }
    }
}

/// The name under which an event is sent.
pub open spec fn event_name(event: AnthropicStreamEvent) -> Seq<char> {
    match event {
        AnthropicStreamEvent::MessageStart { .. } => "message_start"@,
        AnthropicStreamEvent::ContentBlockStart { .. } => "content_block_start"@,
        AnthropicStreamEvent::ContentBlockDelta { .. } => "content_block_delta"@,
        AnthropicStreamEvent::ContentBlockStop { .. } => "content_block_stop"@,
        AnthropicStreamEvent::MessageDelta { .. } => "message_delta"@,
        AnthropicStreamEvent::MessageStop => "message_stop"@,
        AnthropicStreamEvent::Ping => "ping"@,
        AnthropicStreamEvent::Error { .. } => "error"@,
    }
}

impl AnthropicStreamEvent {
    /// The name under which the event is sent.
    pub fn event_type(&self) -> (name: &'static str)
        ensures
            name@ == event_name(*self),
    {
        match self {
            AnthropicStreamEvent::MessageStart { .. } => "message_start",
            AnthropicStreamEvent::ContentBlockStart { .. } => "content_block_start",
            AnthropicStreamEvent::ContentBlockDelta { .. } => "content_block_delta",
            AnthropicStreamEvent::ContentBlockStop { .. } => "content_block_stop",
            AnthropicStreamEvent::MessageDelta { .. } => "message_delta",
            AnthropicStreamEvent::MessageStop => "message_stop",
            AnthropicStreamEvent::Ping => "ping",
            AnthropicStreamEvent::Error { .. } => "error",
        }
    }
}

/// An error response of the given kind.
pub open spec fn error_response(kind: Seq<char>, message: Seq<char>) -> AnthropicErrorResponseView {
    AnthropicErrorResponseView {
        object_type: "error"@,
        error: AnthropicErrorBodyView { error_type: kind, message },
    }
}

impl AnthropicErrorResponse {
    /// The request is at fault.
    pub fn invalid_request(message: String) -> (response: Self)
        ensures
            response.deep_view() == error_response("invalid_request_error"@, message@),
    {
        AnthropicErrorResponse {
            object_type: "error".to_owned(),
            error: AnthropicErrorBody { error_type: "invalid_request_error".to_owned(), message },
        }
    }

    /// The service is at fault.
    pub fn api_error(message: String) -> (response: Self)
        ensures
            response.deep_view() == error_response("api_error"@, message@),
    {
        AnthropicErrorResponse {
            object_type: "error".to_owned(),
            error: AnthropicErrorBody { error_type: "api_error".to_owned(), message },
        }
    }

    /// What was asked for does not exist.
    pub fn not_found(message: String) -> (response: Self)
        ensures
            response.deep_view() == error_response("not_found_error"@, message@),
    {
        AnthropicErrorResponse {
            object_type: "error".to_owned(),
            error: AnthropicErrorBody { error_type: "not_found_error".to_owned(), message },
        }
    }
}

/// What a request kept for its response.
#[derive(Debug, Clone, PartialEq, Eq)]
pub struct AnthropicContext {
    pub service_tier: Option<String>,
    pub stop_sequences: Vec<String>,
}

} // verus!
