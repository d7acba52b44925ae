//! The objects of the Responses API: requests' tools and parameters, output items, the
//! response itself and the events that stream it.

use vstd::prelude::*;

use crate::json::{Json, JsonView};
use crate::number::Float32;
use crate::text_map::TextMap;

verus! {

/// The state of a response.
#[derive(Debug, Clone, Copy, PartialEq, Eq, Structural)]
pub enum Status {
    Completed,
    Failed,
    InProgress,
    Cancelled,
    Queued,
    Incomplete,
}

/// The state of one output item.
#[derive(Debug, Clone, Copy, PartialEq, Eq, Structural)]
pub enum OutputStatus {
    InProgress,
    Completed,
    Incomplete,
}

#[derive(Debug, Clone, Copy, PartialEq, Eq, Structural)]
pub enum AssistantRole {
    Assistant,
}

#[derive(Debug, Clone, Copy, PartialEq, Eq, Structural)]
pub enum MessagePhase {
    Commentary,
    FinalAnswer,
}

#[derive(Debug, Clone, Copy, PartialEq, Eq, Structural)]
pub enum ServiceTier {
    Auto,
    Default,
    Flex,
    Scale,
    Priority,
}

#[derive(Debug, Clone, Copy, PartialEq, Eq, Structural)]
pub enum Truncation {
    Auto,
    Disabled,
}

#[derive(Debug, Clone, Copy, PartialEq, Eq, Structural)]
pub enum PromptCacheRetention {
    InMemory,
    Hours24,
}

#[derive(Debug, Clone, Copy, PartialEq, Eq, Structural)]
pub enum Verbosity {
    Low,
    Medium,
    High,
}

/// Which tools the model may call.
#[derive(Debug, Clone, Copy, PartialEq, Eq, Structural)]
pub enum ToolChoiceOptions {
    NoTools,
    Auto,
    Required,
}

#[derive(Debug, Clone, Copy, PartialEq, Eq, Structural)]
pub enum ReasoningSummary {
    Auto,
    Concise,
    Detailed,
}

/// How hard the model is asked to think.
#[derive(Debug, Clone, Copy, PartialEq, Eq, Structural)]
pub enum ReasoningEffort {
    NoEffort,
    Minimal,
    Low,
    Medium,
    High,
    Xhigh,
}

/// Extra output that a request can ask for.
#[derive(Debug, Clone, Copy, PartialEq, Eq, Structural)]
pub enum IncludeEnum {
    FileSearchCallResults,
    WebSearchCallResults,
    WebSearchCallActionSources,
    MessageInputImageImageUrl,
    ComputerCallOutputOutputImageUrl,
    CodeInterpreterCallOutputs,
    ReasoningEncryptedContent,
    MessageOutputTextLogprobs,
}

#[derive(Debug, Clone, Copy, PartialEq, Eq, Structural)]
pub struct Reasoning {
    pub effort: Option<ReasoningEffort>,
    pub summary: Option<ReasoningSummary>,
}

#[derive(Debug, Clone, Copy, PartialEq, Eq, Structural)]
pub struct InputTokenDetails {
    pub cached_tokens: u32,
}

#[derive(Debug, Clone, Copy, PartialEq, Eq, Structural)]
pub struct OutputTokenDetails {
    pub reasoning_tokens: u32,
}

/// Token counts of one response.
#[derive(Debug, Clone, Copy, PartialEq, Eq, Structural)]
pub struct ResponseUsage {
    pub input_tokens: u32,
    pub input_tokens_details: InputTokenDetails,
    pub output_tokens: u32,
    pub output_tokens_details: OutputTokenDetails,
    pub total_tokens: u32,
}

#[derive(Debug, PartialEq, Eq)]
pub struct ResponseFormatJsonSchema {
    pub description: Option<String>,
    pub name: String,
    pub schema: Json,
    pub strict: Option<bool>,
}

/// The mathematical form of a [`ResponseFormatJsonSchema`].
#[verifier::ext_equal]
pub struct ResponseFormatJsonSchemaView {
    pub description: Option<Seq<char>>,
    pub name: Seq<char>,
    pub schema: JsonView,
    pub strict: Option<bool>,
}

impl DeepView for ResponseFormatJsonSchema {
    type V = ResponseFormatJsonSchemaView;

    open spec fn deep_view(&self) -> ResponseFormatJsonSchemaView {
        ResponseFormatJsonSchemaView {
            description: self.description.deep_view(),
            name: self.name@,
            schema: self.schema.deep_view(),
            strict: self.strict,
        }
    }
}

impl Clone for ResponseFormatJsonSchema {
    fn clone(&self) -> (copy: Self)
        ensures
            copy.deep_view() == self.deep_view(),
    {
        let copy = ResponseFormatJsonSchema {
            description: self.description.clone(),
            name: self.name.clone(),
            schema: self.schema.clone(),
            strict: self.strict,
        };
        assert(copy.deep_view() =~~= self.deep_view());
        copy
    }
}

#[derive(Debug, PartialEq, Eq)]
pub enum TextResponseFormatConfiguration {
    Text,
    JsonObject,
    JsonSchema(ResponseFormatJsonSchema),
}

/// The mathematical form of a [`TextResponseFormatConfiguration`].
#[verifier::ext_equal]
pub enum TextResponseFormatConfigurationView {
    Text,
    JsonObject,
    JsonSchema(ResponseFormatJsonSchemaView),
}

impl DeepView for TextResponseFormatConfiguration {
    type V = TextResponseFormatConfigurationView;

    open spec fn deep_view(&self) -> TextResponseFormatConfigurationView {
        match *self {
            TextResponseFormatConfiguration::Text => TextResponseFormatConfigurationView::Text,
            TextResponseFormatConfiguration::JsonObject => TextResponseFormatConfigurationView::JsonObject,
            TextResponseFormatConfiguration::JsonSchema(inner) => TextResponseFormatConfigurationView::JsonSchema(inner.deep_view()),
        }
    }
}

impl Clone for TextResponseFormatConfiguration {
    fn clone(&self) -> (copy: Self)
        ensures
            copy.deep_view() == self.deep_view(),
    {
        let copy = match self {
            TextResponseFormatConfiguration::Text => TextResponseFormatConfiguration::Text,
            TextResponseFormatConfiguration::JsonObject => TextResponseFormatConfiguration::JsonObject,
            TextResponseFormatConfiguration::JsonSchema(inner) => TextResponseFormatConfiguration::JsonSchema(inner.clone()),
        };
        assert(copy.deep_view() =~~= self.deep_view());
        copy
    }
}

#[derive(Debug, PartialEq, Eq)]
pub struct ResponseTextParam {
    pub format: TextResponseFormatConfiguration,
    pub verbosity: Option<Verbosity>,
}

/// The mathematical form of a [`ResponseTextParam`].
#[verifier::ext_equal]
pub struct ResponseTextParamView {
    pub format: TextResponseFormatConfigurationView,
    pub verbosity: Option<Verbosity>,
}

impl DeepView for ResponseTextParam {
    type V = ResponseTextParamView;

    open spec fn deep_view(&self) -> ResponseTextParamView {
        ResponseTextParamView {
            format: self.format.deep_view(),
            verbosity: self.verbosity,
        }
    }
}

impl Clone for ResponseTextParam {
    fn clone(&self) -> (copy: Self)
        ensures
            copy.deep_view() == self.deep_view(),
    {
        let copy = ResponseTextParam {
            format: self.format.clone(),
            verbosity: self.verbosity,
        };
        assert(copy.deep_view() =~~= self.deep_view());
        copy
    }
}

/// A tool choice. Of one that is no mode, only the JSON is kept.
#[derive(Debug, PartialEq, Eq)]
pub enum ToolChoiceParam {
    Mode(ToolChoiceOptions),
    Other(Json),
}

/// The mathematical form of a [`ToolChoiceParam`].
#[verifier::ext_equal]
pub enum ToolChoiceParamView {
    Mode(ToolChoiceOptions),
    Other(JsonView),
}

impl DeepView for ToolChoiceParam {
    type V = ToolChoiceParamView;

    open spec fn deep_view(&self) -> ToolChoiceParamView {
        match *self {
            ToolChoiceParam::Mode(inner) => ToolChoiceParamView::Mode(inner),
            ToolChoiceParam::Other(inner) => ToolChoiceParamView::Other(inner.deep_view()),
        }
    }
}

impl Clone for ToolChoiceParam {
    fn clone(&self) -> (copy: Self)
        ensures
            copy.deep_view() == self.deep_view(),
    {
        let copy = match self {
            ToolChoiceParam::Mode(inner) => ToolChoiceParam::Mode(*inner),
            ToolChoiceParam::Other(inner) => ToolChoiceParam::Other(inner.clone()),
        };
        assert(copy.deep_view() =~~= self.deep_view());
        copy
    }
}

/// A function that the model may call.
#[derive(Debug, PartialEq, Eq)]
pub struct FunctionTool {
    pub name: String,
    pub parameters: Option<Json>,
    pub strict: Option<bool>,
    pub description: Option<String>,
    pub defer_loading: Option<bool>,
}

/// The mathematical form of a [`FunctionTool`].
#[verifier::ext_equal]
pub struct FunctionToolView {
    pub name: Seq<char>,
    pub parameters: Option<JsonView>,
    pub strict: Option<bool>,
    pub description: Option<Seq<char>>,
    pub defer_loading: Option<bool>,
}

impl DeepView for FunctionTool {
    type V = FunctionToolView;

    open spec fn deep_view(&self) -> FunctionToolView {
        FunctionToolView {
            name: self.name@,
            parameters: self.parameters.deep_view(),
            strict: self.strict,
            description: self.description.deep_view(),
            defer_loading: self.defer_loading,
        }
    }
}

impl Clone for FunctionTool {
    fn clone(&self) -> (copy: Self)
        ensures
            copy.deep_view() == self.deep_view(),
    {
        let copy = FunctionTool {
            name: self.name.clone(),
            parameters: self.parameters.clone(),
            strict: self.strict,
            description: self.description.clone(),
            defer_loading: self.defer_loading,
        };
        assert(copy.deep_view() =~~= self.deep_view());
        copy
    }
}

/// A function declared inside a namespace.
#[derive(Debug, PartialEq, Eq)]
pub struct FunctionToolParam {
    pub name: String,
    pub parameters: Option<Json>,
    pub strict: Option<bool>,
    pub description: Option<String>,
    pub defer_loading: Option<bool>,
}

/// The mathematical form of a [`FunctionToolParam`].
#[verifier::ext_equal]
pub struct FunctionToolParamView {
    pub name: Seq<char>,
    pub parameters: Option<JsonView>,
    pub strict: Option<bool>,
    pub description: Option<Seq<char>>,
    pub defer_loading: Option<bool>,
}

impl DeepView for FunctionToolParam {
    type V = FunctionToolParamView;

    open spec fn deep_view(&self) -> FunctionToolParamView {
        FunctionToolParamView {
            name: self.name@,
            parameters: self.parameters.deep_view(),
            strict: self.strict,
            description: self.description.deep_view(),
            defer_loading: self.defer_loading,
        }
    }
}

impl Clone for FunctionToolParam {
    fn clone(&self) -> (copy: Self)
        ensures
            copy.deep_view() == self.deep_view(),
    {
        let copy = FunctionToolParam {
            name: self.name.clone(),
            parameters: self.parameters.clone(),
            strict: self.strict,
            description: self.description.clone(),
            defer_loading: self.defer_loading,
        };
        assert(copy.deep_view() =~~= self.deep_view());
        copy
    }
}

/// A free-form tool declared inside a namespace.
#[derive(Debug, PartialEq, Eq)]
pub struct CustomToolParam {
    pub name: String,
    pub description: Option<String>,
    pub format: Option<Json>,
}

/// The mathematical form of a [`CustomToolParam`].
#[verifier::ext_equal]
pub struct CustomToolParamView {
    pub name: Seq<char>,
    pub description: Option<Seq<char>>,
    pub format: Option<JsonView>,
}

impl DeepView for CustomToolParam {
    type V = CustomToolParamView;

    open spec fn deep_view(&self) -> CustomToolParamView {
        CustomToolParamView {
            name: self.name@,
            description: self.description.deep_view(),
            format: self.format.deep_view(),
        }
    }
}

impl Clone for CustomToolParam {
    fn clone(&self) -> (copy: Self)
        ensures
            copy.deep_view() == self.deep_view(),
    {
        let copy = CustomToolParam {
            name: self.name.clone(),
            description: self.description.clone(),
            format: self.format.clone(),
        };
        assert(copy.deep_view() =~~= self.deep_view());
        copy
    }
}

#[derive(Debug, PartialEq, Eq)]
pub enum NamespaceToolParamTool {
    Function(FunctionToolParam),
    Custom(CustomToolParam),
}

/// The mathematical form of a [`NamespaceToolParamTool`].
#[verifier::ext_equal]
pub enum NamespaceToolParamToolView {
    Function(FunctionToolParamView),
    Custom(CustomToolParamView),
}

impl DeepView for NamespaceToolParamTool {
    type V = NamespaceToolParamToolView;

    open spec fn deep_view(&self) -> NamespaceToolParamToolView {
        match *self {
            NamespaceToolParamTool::Function(inner) => NamespaceToolParamToolView::Function(inner.deep_view()),
            NamespaceToolParamTool::Custom(inner) => NamespaceToolParamToolView::Custom(inner.deep_view()),
        }
    }
}

impl Clone for NamespaceToolParamTool {
    fn clone(&self) -> (copy: Self)
        ensures
            copy.deep_view() == self.deep_view(),
    {
        let copy = match self {
            NamespaceToolParamTool::Function(inner) => NamespaceToolParamTool::Function(inner.clone()),
            NamespaceToolParamTool::Custom(inner) => NamespaceToolParamTool::Custom(inner.clone()),
        };
        assert(copy.deep_view() =~~= self.deep_view());
        copy
    }
}

/// A named group of tools. Tools of different groups may share a name.
#[derive(Debug, PartialEq, Eq)]
pub struct NamespaceToolParam {
    pub name: String,
    pub description: String,
    pub tools: Vec<NamespaceToolParamTool>,
}

/// The mathematical form of a [`NamespaceToolParam`].
#[verifier::ext_equal]
pub struct NamespaceToolParamView {
    pub name: Seq<char>,
    pub description: Seq<char>,
    pub tools: Seq<NamespaceToolParamToolView>,
}

impl DeepView for NamespaceToolParam {
    type V = NamespaceToolParamView;

    open spec fn deep_view(&self) -> NamespaceToolParamView {
        NamespaceToolParamView {
            name: self.name@,
            description: self.description@,
            tools: self.tools.deep_view(),
        }
    }
}

impl Clone for NamespaceToolParam {
    fn clone(&self) -> (copy: Self)
        ensures
            copy.deep_view() == self.deep_view(),
    {
        let copy = NamespaceToolParam {
            name: self.name.clone(),
            description: self.description.clone(),
            tools: self.tools.clone(),
        };
        assert(copy.deep_view() =~~= self.deep_view());
        copy
    }
}

/// A declared tool. Of one that is neither a function nor a namespace, only the JSON is
/// kept.
#[derive(Debug, PartialEq, Eq)]
pub enum Tool {
    Function(FunctionTool),
    Namespace(NamespaceToolParam),
    Other(Json),
}

/// The mathematical form of a [`Tool`].
#[verifier::ext_equal]
pub enum ToolView {
    Function(FunctionToolView),
    Namespace(NamespaceToolParamView),
    Other(JsonView),
}

impl DeepView for Tool {
    type V = ToolView;

    open spec fn deep_view(&self) -> ToolView {
        match *self {
            Tool::Function(inner) => ToolView::Function(inner.deep_view()),
            Tool::Namespace(inner) => ToolView::Namespace(inner.deep_view()),
            Tool::Other(inner) => ToolView::Other(inner.deep_view()),
        }
    }
}

impl Clone for Tool {
    fn clone(&self) -> (copy: Self)
        ensures
            copy.deep_view() == self.deep_view(),
    {
        let copy = match self {
            Tool::Function(inner) => Tool::Function(inner.clone()),
            Tool::Namespace(inner) => Tool::Namespace(inner.clone()),
            Tool::Other(inner) => Tool::Other(inner.clone()),
        };
        assert(copy.deep_view() =~~= self.deep_view());
        copy
    }
}

#[derive(Debug, Clone, PartialEq, Eq)]
pub struct SummaryTextContent {
    pub text: String,
}

/// The mathematical form of a [`SummaryTextContent`].
#[verifier::ext_equal]
pub struct SummaryTextContentView {
    pub text: Seq<char>,
}

impl DeepView for SummaryTextContent {
    type V = SummaryTextContentView;

    open spec fn deep_view(&self) -> SummaryTextContentView {
        SummaryTextContentView {
            text: self.text@,
        }
    }
}

#[derive(Debug, Clone, PartialEq, Eq)]
pub enum SummaryPart {
    SummaryText(SummaryTextContent),
}

/// The mathematical form of a [`SummaryPart`].
#[verifier::ext_equal]
pub enum SummaryPartView {
    SummaryText(SummaryTextContentView),
}

impl DeepView for SummaryPart {
    type V = SummaryPartView;

    open spec fn deep_view(&self) -> SummaryPartView {
        match *self {
            SummaryPart::SummaryText(inner) => SummaryPartView::SummaryText(inner.deep_view()),
        }
    }
}

#[derive(Debug, Clone, PartialEq, Eq)]
pub struct ReasoningItem {
    pub id: Option<String>,
    pub summary: Vec<SummaryPart>,
    pub content: Option<Vec<String>>,
    pub encrypted_content: Option<String>,
    pub status: Option<OutputStatus>,
}

/// The mathematical form of a [`ReasoningItem`].
#[verifier::ext_equal]
pub struct ReasoningItemView {
    pub id: Option<Seq<char>>,
    pub summary: Seq<SummaryPartView>,
    pub content: Option<Seq<Seq<char>>>,
    pub encrypted_content: Option<Seq<char>>,
    pub status: Option<OutputStatus>,
}

impl DeepView for ReasoningItem {
    type V = ReasoningItemView;

    open spec fn deep_view(&self) -> ReasoningItemView {
        ReasoningItemView {
            id: self.id.deep_view(),
            summary: self.summary.deep_view(),
            content: self.content.deep_view(),
            encrypted_content: self.encrypted_content.deep_view(),
            status: self.status,
        }
    }
}

#[derive(Debug, Clone, PartialEq, Eq)]
pub struct OutputTextContent {
    pub text: String,
    pub annotations: Vec<Json>,
    pub logprobs: Option<Vec<Json>>,
}

/// The mathematical form of a [`OutputTextContent`].
#[verifier::ext_equal]
pub struct OutputTextContentView {
    pub text: Seq<char>,
    pub annotations: Seq<JsonView>,
    pub logprobs: Option<Seq<JsonView>>,
}

impl DeepView for OutputTextContent {
    type V = OutputTextContentView;

    open spec fn deep_view(&self) -> OutputTextContentView {
        OutputTextContentView {
            text: self.text@,
            annotations: self.annotations.deep_view(),
            logprobs: self.logprobs.deep_view(),
        }
    }
}

#[derive(Debug, Clone, PartialEq, Eq)]
pub enum OutputMessageContent {
    OutputText(OutputTextContent),
    Refusal(String),
}

/// The mathematical form of a [`OutputMessageContent`].
#[verifier::ext_equal]
pub enum OutputMessageContentView {
    OutputText(OutputTextContentView),
    Refusal(Seq<char>),
}

impl DeepView for OutputMessageContent {
    type V = OutputMessageContentView;

    open spec fn deep_view(&self) -> OutputMessageContentView {
        match *self {
            OutputMessageContent::OutputText(inner) => OutputMessageContentView::OutputText(inner.deep_view()),
            OutputMessageContent::Refusal(inner) => OutputMessageContentView::Refusal(inner@),
        }
    }
}

#[derive(Debug, Clone, PartialEq, Eq)]
pub struct OutputMessage {
    pub id: String,
    pub content: Vec<OutputMessageContent>,
    pub role: AssistantRole,
    pub phase: Option<MessagePhase>,
    pub status: OutputStatus,
}

/// The mathematical form of a [`OutputMessage`].
#[verifier::ext_equal]
pub struct OutputMessageView {
    pub id: Seq<char>,
    pub content: Seq<OutputMessageContentView>,
    pub role: AssistantRole,
    pub phase: Option<MessagePhase>,
    pub status: OutputStatus,
}

impl DeepView for OutputMessage {
    type V = OutputMessageView;

    open spec fn deep_view(&self) -> OutputMessageView {
        OutputMessageView {
            id: self.id@,
            content: self.content.deep_view(),
            role: self.role,
            phase: self.phase,
            status: self.status,
        }
    }
}

#[derive(Debug, Clone, PartialEq, Eq)]
pub struct FunctionToolCall {
    pub id: Option<String>,
    pub call_id: String,
    pub namespace: Option<String>,
    pub name: String,
    pub arguments: String,
    pub status: Option<OutputStatus>,
}

/// The mathematical form of a [`FunctionToolCall`].
#[verifier::ext_equal]
pub struct FunctionToolCallView {
    pub id: Option<Seq<char>>,
    pub call_id: Seq<char>,
    pub namespace: Option<Seq<char>>,
    pub name: Seq<char>,
    pub arguments: Seq<char>,
    pub status: Option<OutputStatus>,
}

impl DeepView for FunctionToolCall {
    type V = FunctionToolCallView;

    open spec fn deep_view(&self) -> FunctionToolCallView {
        FunctionToolCallView {
            id: self.id.deep_view(),
            call_id: self.call_id@,
            namespace: self.namespace.deep_view(),
            name: self.name@,
            arguments: self.arguments@,
            status: self.status,
        }
    }
}

/// One item of a response's output.
#[derive(Debug, Clone, PartialEq, Eq)]
pub enum OutputItem {
    Message(OutputMessage),
    FunctionCall(FunctionToolCall),
    Reasoning(ReasoningItem),
}

/// The mathematical form of a [`OutputItem`].
#[verifier::ext_equal]
pub enum OutputItemView {
    Message(OutputMessageView),
    FunctionCall(FunctionToolCallView),
    Reasoning(ReasoningItemView),
}

impl DeepView for OutputItem {
    type V = OutputItemView;

    open spec fn deep_view(&self) -> OutputItemView {
        match *self {
            OutputItem::Message(inner) => OutputItemView::Message(inner.deep_view()),
            OutputItem::FunctionCall(inner) => OutputItemView::FunctionCall(inner.deep_view()),
            OutputItem::Reasoning(inner) => OutputItemView::Reasoning(inner.deep_view()),
        }
    }
}

#[derive(Debug, Clone, PartialEq, Eq)]
pub struct ErrorObject {
    pub code: String,
    pub message: String,
}

/// The mathematical form of a [`ErrorObject`].
#[verifier::ext_equal]
pub struct ErrorObjectView {
    pub code: Seq<char>,
    pub message: Seq<char>,
}

impl DeepView for ErrorObject {
    type V = ErrorObjectView;

    open spec fn deep_view(&self) -> ErrorObjectView {
        ErrorObjectView {
            code: self.code@,
            message: self.message@,
        }
    }
}

#[derive(Debug, Clone, PartialEq, Eq)]
pub struct IncompleteDetails {
    pub reason: String,
}

/// The mathematical form of a [`IncompleteDetails`].
#[verifier::ext_equal]
pub struct IncompleteDetailsView {
    pub reason: Seq<char>,
}

impl DeepView for IncompleteDetails {
    type V = IncompleteDetailsView;

    open spec fn deep_view(&self) -> IncompleteDetailsView {
        IncompleteDetailsView {
            reason: self.reason@,
        }
    }
}

#[derive(Debug, Clone, PartialEq, Eq)]
pub enum Instructions {
    Text(String),
}

/// The mathematical form of a [`Instructions`].
#[verifier::ext_equal]
pub enum InstructionsView {
    Text(Seq<char>),
}

impl DeepView for Instructions {
    type V = InstructionsView;

    open spec fn deep_view(&self) -> InstructionsView {
        match *self {
            Instructions::Text(inner) => InstructionsView::Text(inner@),
        }
    }
}

/// A response object.
#[derive(Debug, Clone, PartialEq)]
pub struct Response {
    pub id: String,
    pub object: String,
    pub created_at: u64,
    pub completed_at: Option<u64>,
    pub status: Status,
    pub model: String,
    pub output: Vec<OutputItem>,
    pub background: Option<bool>,
    pub metadata: Option<TextMap<String>>,
    pub parallel_tool_calls: Option<bool>,
    pub temperature: Option<Float32>,
    pub text: Option<ResponseTextParam>,
    pub tool_choice: Option<ToolChoiceParam>,
    pub tools: Option<Vec<Tool>>,
    pub top_p: Option<Float32>,
    pub truncation: Option<Truncation>,
    pub billing: Option<Json>,
    pub conversation: Option<Json>,
    pub error: Option<ErrorObject>,
    pub incomplete_details: Option<IncompleteDetails>,
    pub instructions: Option<Instructions>,
    pub max_output_tokens: Option<u32>,
    pub previous_response_id: Option<String>,
    pub prompt: Option<Json>,
    pub prompt_cache_key: Option<String>,
    pub prompt_cache_retention: Option<PromptCacheRetention>,
    pub reasoning: Option<Reasoning>,
    pub safety_identifier: Option<String>,
    pub service_tier: Option<ServiceTier>,
    pub top_logprobs: Option<u8>,
    pub usage: Option<ResponseUsage>,
}

/// The mathematical form of a [`Response`].
#[verifier::ext_equal]
pub struct ResponseView {
    pub id: Seq<char>,
    pub object: Seq<char>,
    pub created_at: u64,
    pub completed_at: Option<u64>,
    pub status: Status,
    pub model: Seq<char>,
    pub output: Seq<OutputItemView>,
    pub background: Option<bool>,
    pub metadata: Option<Map<Seq<char>, Seq<char>>>,
    pub parallel_tool_calls: Option<bool>,
    pub temperature: Option<Float32>,
    pub text: Option<ResponseTextParamView>,
    pub tool_choice: Option<ToolChoiceParamView>,
    pub tools: Option<Seq<ToolView>>,
    pub top_p: Option<Float32>,
    pub truncation: Option<Truncation>,
    pub billing: Option<JsonView>,
    pub conversation: Option<JsonView>,
    pub error: Option<ErrorObjectView>,
    pub incomplete_details: Option<IncompleteDetailsView>,
    pub instructions: Option<InstructionsView>,
    pub max_output_tokens: Option<u32>,
    pub previous_response_id: Option<Seq<char>>,
    pub prompt: Option<JsonView>,
    pub prompt_cache_key: Option<Seq<char>>,
    pub prompt_cache_retention: Option<PromptCacheRetention>,
    pub reasoning: Option<Reasoning>,
    pub safety_identifier: Option<Seq<char>>,
    pub service_tier: Option<ServiceTier>,
    pub top_logprobs: Option<u8>,
    pub usage: Option<ResponseUsage>,
}

impl DeepView for Response {
    type V = ResponseView;

    open spec fn deep_view(&self) -> ResponseView {
        ResponseView {
            id: self.id@,
            object: self.object@,
            created_at: self.created_at,
            completed_at: self.completed_at,
            status: self.status,
            model: self.model@,
            output: self.output.deep_view(),
            background: self.background,
            metadata: self.metadata.deep_view(),
            parallel_tool_calls: self.parallel_tool_calls,
            temperature: self.temperature,
            text: self.text.deep_view(),
            tool_choice: self.tool_choice.deep_view(),
            tools: self.tools.deep_view(),
            top_p: self.top_p,
            truncation: self.truncation,
            billing: self.billing.deep_view(),
            conversation: self.conversation.deep_view(),
            error: self.error.deep_view(),
            incomplete_details: self.incomplete_details.deep_view(),
            instructions: self.instructions.deep_view(),
            max_output_tokens: self.max_output_tokens,
            previous_response_id: self.previous_response_id.deep_view(),
            prompt: self.prompt.deep_view(),
            prompt_cache_key: self.prompt_cache_key.deep_view(),
            prompt_cache_retention: self.prompt_cache_retention,
            reasoning: self.reasoning,
            safety_identifier: self.safety_identifier.deep_view(),
            service_tier: self.service_tier,
            top_logprobs: self.top_logprobs,
            usage: self.usage,
        }
    }
}

/// What a stream event says. Of the events that no conversion here emits, only the JSON is
/// kept.
#[derive(Debug, Clone, PartialEq)]
pub enum ResponseEventPayload {
    ResponseCreated {
        response: Response,
    },
    ResponseInProgress {
        response: Response,
    },
    ResponseCompleted {
        response: Response,
    },
    ResponseFailed {
        response: Response,
    },
    ResponseIncomplete {
        response: Response,
    },
    ResponseQueued(Json),
    ResponseOutputItemAdded {
        output_index: u32,
        item: OutputItem,
    },
    ResponseOutputItemDone {
        output_index: u32,
        item: OutputItem,
    },
    ResponseContentPartAdded {
        item_id: String,
        output_index: u32,
        content_index: u32,
        part: OutputTextContent,
    },
    ResponseContentPartDone {
        item_id: String,
        output_index: u32,
        content_index: u32,
        part: OutputTextContent,
    },
    ResponseOutputTextDelta {
        item_id: String,
        output_index: u32,
        content_index: u32,
        delta: String,
        logprobs: Option<Vec<Json>>,
    },
    ResponseOutputTextDone {
        item_id: String,
        output_index: u32,
        content_index: u32,
        text: String,
        logprobs: Option<Vec<Json>>,
    },
    ResponseRefusalDelta(Json),
    ResponseRefusalDone(Json),
    ResponseFunctionCallArgumentsDelta {
        item_id: String,
        output_index: u32,
        delta: String,
    },
    ResponseFunctionCallArgumentsDone {
        item_id: String,
        output_index: u32,
        arguments: String,
        name: Option<String>,
    },
    ResponseFileSearchCallInProgress(Json),
    ResponseFileSearchCallSearching(Json),
    ResponseFileSearchCallCompleted(Json),
    ResponseWebSearchCallInProgress(Json),
    ResponseWebSearchCallSearching(Json),
    ResponseWebSearchCallCompleted(Json),
    ResponseReasoningSummaryPartAdded {
        item_id: String,
        output_index: u32,
        summary_index: u32,
        part: SummaryPart,
    },
    ResponseReasoningSummaryPartDone {
        item_id: String,
        output_index: u32,
        summary_index: u32,
        part: SummaryPart,
    },
    ResponseReasoningSummaryTextDelta {
        item_id: String,
        output_index: u32,
        summary_index: u32,
        delta: String,
    },
    ResponseReasoningSummaryTextDone {
        item_id: String,
        output_index: u32,
        summary_index: u32,
        text: String,
    },
    ResponseReasoningTextDelta(Json),
    ResponseReasoningTextDone(Json),
    ResponseImageGenerationCallCompleted(Json),
    ResponseImageGenerationCallGenerating(Json),
    ResponseImageGenerationCallInProgress(Json),
    ResponseImageGenerationCallPartialImage(Json),
    ResponseMCPCallArgumentsDelta(Json),
    ResponseMCPCallArgumentsDone(Json),
    ResponseMCPCallCompleted(Json),
    ResponseMCPCallFailed(Json),
    ResponseMCPCallInProgress(Json),
    ResponseMCPListToolsCompleted(Json),
    ResponseMCPListToolsFailed(Json),
    ResponseMCPListToolsInProgress(Json),
    ResponseCodeInterpreterCallInProgress(Json),
    ResponseCodeInterpreterCallInterpreting(Json),
    ResponseCodeInterpreterCallCompleted(Json),
    ResponseCodeInterpreterCallCodeDelta(Json),
    ResponseCodeInterpreterCallCodeDone(Json),
    ResponseOutputTextAnnotationAdded(Json),
    ResponseCustomToolCallInputDelta(Json),
    ResponseCustomToolCallInputDone(Json),
    ResponseError(Json),
}

/// The mathematical form of a [`ResponseEventPayload`].
#[verifier::ext_equal]
pub enum ResponseEventPayloadView {
    ResponseCreated {
        response: ResponseView,
    },
    ResponseInProgress {
        response: ResponseView,
    },
    ResponseCompleted {
        response: ResponseView,
    },
    ResponseFailed {
        response: ResponseView,
    },
    ResponseIncomplete {
        response: ResponseView,
    },
    ResponseQueued(JsonView),
    ResponseOutputItemAdded {
        output_index: u32,
        item: OutputItemView,
    },
    ResponseOutputItemDone {
        output_index: u32,
        item: OutputItemView,
    },
    ResponseContentPartAdded {
        item_id: Seq<char>,
        output_index: u32,
        content_index: u32,
        part: OutputTextContentView,
    },
    ResponseContentPartDone {
        item_id: Seq<char>,
        output_index: u32,
        content_index: u32,
        part: OutputTextContentView,
    },
    ResponseOutputTextDelta {
        item_id: Seq<char>,
        output_index: u32,
        content_index: u32,
        delta: Seq<char>,
        logprobs: Option<Seq<JsonView>>,
    },
    ResponseOutputTextDone {
        item_id: Seq<char>,
        output_index: u32,
        content_index: u32,
        text: Seq<char>,
        logprobs: Option<Seq<JsonView>>,
    },
    ResponseRefusalDelta(JsonView),
    ResponseRefusalDone(JsonView),
    ResponseFunctionCallArgumentsDelta {
        item_id: Seq<char>,
        output_index: u32,
        delta: Seq<char>,
    },
    ResponseFunctionCallArgumentsDone {
        item_id: Seq<char>,
        output_index: u32,
        arguments: Seq<char>,
        name: Option<Seq<char>>,
    },
    ResponseFileSearchCallInProgress(JsonView),
    ResponseFileSearchCallSearching(JsonView),
    ResponseFileSearchCallCompleted(JsonView),
    ResponseWebSearchCallInProgress(JsonView),
    ResponseWebSearchCallSearching(JsonView),
    ResponseWebSearchCallCompleted(JsonView),
    ResponseReasoningSummaryPartAdded {
        item_id: Seq<char>,
        output_index: u32,
        summary_index: u32,
        part: SummaryPartView,
    },
    ResponseReasoningSummaryPartDone {
        item_id: Seq<char>,
        output_index: u32,
        summary_index: u32,
        part: SummaryPartView,
    },
    ResponseReasoningSummaryTextDelta {
        item_id: Seq<char>,
        output_index: u32,
        summary_index: u32,
        delta: Seq<char>,
    },
    ResponseReasoningSummaryTextDone {
        item_id: Seq<char>,
        output_index: u32,
        summary_index: u32,
        text: Seq<char>,
    },
    ResponseReasoningTextDelta(JsonView),
    ResponseReasoningTextDone(JsonView),
    ResponseImageGenerationCallCompleted(JsonView),
    ResponseImageGenerationCallGenerating(JsonView),
    ResponseImageGenerationCallInProgress(JsonView),
    ResponseImageGenerationCallPartialImage(JsonView),
    ResponseMCPCallArgumentsDelta(JsonView),
    ResponseMCPCallArgumentsDone(JsonView),
    ResponseMCPCallCompleted(JsonView),
    ResponseMCPCallFailed(JsonView),
    ResponseMCPCallInProgress(JsonView),
    ResponseMCPListToolsCompleted(JsonView),
    ResponseMCPListToolsFailed(JsonView),
    ResponseMCPListToolsInProgress(JsonView),
    ResponseCodeInterpreterCallInProgress(JsonView),
    ResponseCodeInterpreterCallInterpreting(JsonView),
    ResponseCodeInterpreterCallCompleted(JsonView),
    ResponseCodeInterpreterCallCodeDelta(JsonView),
    ResponseCodeInterpreterCallCodeDone(JsonView),
    ResponseOutputTextAnnotationAdded(JsonView),
    ResponseCustomToolCallInputDelta(JsonView),
    ResponseCustomToolCallInputDone(JsonView),
    ResponseError(JsonView),
}

impl DeepView for ResponseEventPayload {
    type V = ResponseEventPayloadView;

    open spec fn deep_view(&self) -> ResponseEventPayloadView {
        match *self {
            ResponseEventPayload::ResponseCreated { response } => ResponseEventPayloadView::ResponseCreated {
                response: response.deep_view(),
            },
            ResponseEventPayload::ResponseInProgress { response } => ResponseEventPayloadView::ResponseInProgress {
                response: response.deep_view(),
            },
            ResponseEventPayload::ResponseCompleted { response } => ResponseEventPayloadView::ResponseCompleted {
                response: response.deep_view(),
            },
            ResponseEventPayload::ResponseFailed { response } => ResponseEventPayloadView::ResponseFailed {
                response: response.deep_view(),
            },
            ResponseEventPayload::ResponseIncomplete { response } => ResponseEventPayloadView::ResponseIncomplete {
                response: response.deep_view(),
            },
            ResponseEventPayload::ResponseQueued(inner) => ResponseEventPayloadView::ResponseQueued(inner.deep_view()),
            ResponseEventPayload::ResponseOutputItemAdded { output_index, item } => ResponseEventPayloadView::ResponseOutputItemAdded {
                output_index: output_index,
                item: item.deep_view(),
            },
            ResponseEventPayload::ResponseOutputItemDone { output_index, item } => ResponseEventPayloadView::ResponseOutputItemDone {
                output_index: output_index,
                item: item.deep_view(),
            },
            ResponseEventPayload::ResponseContentPartAdded { item_id, output_index, content_index, part } => ResponseEventPayloadView::ResponseContentPartAdded {
                item_id: item_id@,
                output_index: output_index,
                content_index: content_index,
                part: part.deep_view(),
            },
            ResponseEventPayload::ResponseContentPartDone { item_id, output_index, content_index, part } => ResponseEventPayloadView::ResponseContentPartDone {
                item_id: item_id@,
                output_index: output_index,
                content_index: content_index,
                part: part.deep_view(),
            },
            ResponseEventPayload::ResponseOutputTextDelta { item_id, output_index, content_index, delta, logprobs } => ResponseEventPayloadView::ResponseOutputTextDelta {
                item_id: item_id@,
                output_index: output_index,
                content_index: content_index,
                delta: delta@,
                logprobs: logprobs.deep_view(),
            },
            ResponseEventPayload::ResponseOutputTextDone { item_id, output_index, content_index, text, logprobs } => ResponseEventPayloadView::ResponseOutputTextDone {
                item_id: item_id@,
                output_index: output_index,
                content_index: content_index,
                text: text@,
                logprobs: logprobs.deep_view(),
            },
            ResponseEventPayload::ResponseRefusalDelta(inner) => ResponseEventPayloadView::ResponseRefusalDelta(inner.deep_view()),
            ResponseEventPayload::ResponseRefusalDone(inner) => ResponseEventPayloadView::ResponseRefusalDone(inner.deep_view()),
            ResponseEventPayload::ResponseFunctionCallArgumentsDelta { item_id, output_index, delta } => ResponseEventPayloadView::ResponseFunctionCallArgumentsDelta {
                item_id: item_id@,
                output_index: output_index,
                delta: delta@,
            },
            ResponseEventPayload::ResponseFunctionCallArgumentsDone { item_id, output_index, arguments, name } => ResponseEventPayloadView::ResponseFunctionCallArgumentsDone {
                item_id: item_id@,
                output_index: output_index,
                arguments: arguments@,
                name: name.deep_view(),
            },
            ResponseEventPayload::ResponseFileSearchCallInProgress(inner) => ResponseEventPayloadView::ResponseFileSearchCallInProgress(inner.deep_view()),
            ResponseEventPayload::ResponseFileSearchCallSearching(inner) => ResponseEventPayloadView::ResponseFileSearchCallSearching(inner.deep_view()),
            ResponseEventPayload::ResponseFileSearchCallCompleted(inner) => ResponseEventPayloadView::ResponseFileSearchCallCompleted(inner.deep_view()),
            ResponseEventPayload::ResponseWebSearchCallInProgress(inner) => ResponseEventPayloadView::ResponseWebSearchCallInProgress(inner.deep_view()),
            ResponseEventPayload::ResponseWebSearchCallSearching(inner) => ResponseEventPayloadView::ResponseWebSearchCallSearching(inner.deep_view()),
            ResponseEventPayload::ResponseWebSearchCallCompleted(inner) => ResponseEventPayloadView::ResponseWebSearchCallCompleted(inner.deep_view()),
            ResponseEventPayload::ResponseReasoningSummaryPartAdded { item_id, output_index, summary_index, part } => ResponseEventPayloadView::ResponseReasoningSummaryPartAdded {
                item_id: item_id@,
                output_index: output_index,
                summary_index: summary_index,
                part: part.deep_view(),
            },
            ResponseEventPayload::ResponseReasoningSummaryPartDone { item_id, output_index, summary_index, part } => ResponseEventPayloadView::ResponseReasoningSummaryPartDone {
                item_id: item_id@,
                output_index: output_index,
                summary_index: summary_index,
                part: part.deep_view(),
            },
            ResponseEventPayload::ResponseReasoningSummaryTextDelta { item_id, output_index, summary_index, delta } => ResponseEventPayloadView::ResponseReasoningSummaryTextDelta {
                item_id: item_id@,
                output_index: output_index,
                summary_index: summary_index,
                delta: delta@,
            },
            ResponseEventPayload::ResponseReasoningSummaryTextDone { item_id, output_index, summary_index, text } => ResponseEventPayloadView::ResponseReasoningSummaryTextDone {
                item_id: item_id@,
                output_index: output_index,
                summary_index: summary_index,
                text: text@,
            },
            ResponseEventPayload::ResponseReasoningTextDelta(inner) => ResponseEventPayloadView::ResponseReasoningTextDelta(inner.deep_view()),
            ResponseEventPayload::ResponseReasoningTextDone(inner) => ResponseEventPayloadView::ResponseReasoningTextDone(inner.deep_view()),
            ResponseEventPayload::ResponseImageGenerationCallCompleted(inner) => ResponseEventPayloadView::ResponseImageGenerationCallCompleted(inner.deep_view()),
            ResponseEventPayload::ResponseImageGenerationCallGenerating(inner) => ResponseEventPayloadView::ResponseImageGenerationCallGenerating(inner.deep_view()),
            ResponseEventPayload::ResponseImageGenerationCallInProgress(inner) => ResponseEventPayloadView::ResponseImageGenerationCallInProgress(inner.deep_view()),
            ResponseEventPayload::ResponseImageGenerationCallPartialImage(inner) => ResponseEventPayloadView::ResponseImageGenerationCallPartialImage(inner.deep_view()),
            ResponseEventPayload::ResponseMCPCallArgumentsDelta(inner) => ResponseEventPayloadView::ResponseMCPCallArgumentsDelta(inner.deep_view()),
            ResponseEventPayload::ResponseMCPCallArgumentsDone(inner) => ResponseEventPayloadView::ResponseMCPCallArgumentsDone(inner.deep_view()),
            ResponseEventPayload::ResponseMCPCallCompleted(inner) => ResponseEventPayloadView::ResponseMCPCallCompleted(inner.deep_view()),
            ResponseEventPayload::ResponseMCPCallFailed(inner) => ResponseEventPayloadView::ResponseMCPCallFailed(inner.deep_view()),
            ResponseEventPayload::ResponseMCPCallInProgress(inner) => ResponseEventPayloadView::ResponseMCPCallInProgress(inner.deep_view()),
            ResponseEventPayload::ResponseMCPListToolsCompleted(inner) => ResponseEventPayloadView::ResponseMCPListToolsCompleted(inner.deep_view()),
            ResponseEventPayload::ResponseMCPListToolsFailed(inner) => ResponseEventPayloadView::ResponseMCPListToolsFailed(inner.deep_view()),
            ResponseEventPayload::ResponseMCPListToolsInProgress(inner) => ResponseEventPayloadView::ResponseMCPListToolsInProgress(inner.deep_view()),
            ResponseEventPayload::ResponseCodeInterpreterCallInProgress(inner) => ResponseEventPayloadView::ResponseCodeInterpreterCallInProgress(inner.deep_view()),
            ResponseEventPayload::ResponseCodeInterpreterCallInterpreting(inner) => ResponseEventPayloadView::ResponseCodeInterpreterCallInterpreting(inner.deep_view()),
            ResponseEventPayload::ResponseCodeInterpreterCallCompleted(inner) => ResponseEventPayloadView::ResponseCodeInterpreterCallCompleted(inner.deep_view()),
            ResponseEventPayload::ResponseCodeInterpreterCallCodeDelta(inner) => ResponseEventPayloadView::ResponseCodeInterpreterCallCodeDelta(inner.deep_view()),
            ResponseEventPayload::ResponseCodeInterpreterCallCodeDone(inner) => ResponseEventPayloadView::ResponseCodeInterpreterCallCodeDone(inner.deep_view()),
            ResponseEventPayload::ResponseOutputTextAnnotationAdded(inner) => ResponseEventPayloadView::ResponseOutputTextAnnotationAdded(inner.deep_view()),
            ResponseEventPayload::ResponseCustomToolCallInputDelta(inner) => ResponseEventPayloadView::ResponseCustomToolCallInputDelta(inner.deep_view()),
            ResponseEventPayload::ResponseCustomToolCallInputDone(inner) => ResponseEventPayloadView::ResponseCustomToolCallInputDone(inner.deep_view()),
            ResponseEventPayload::ResponseError(inner) => ResponseEventPayloadView::ResponseError(inner.deep_view()),
        }
    }
}

/// One event of a response stream.
#[derive(Debug, Clone, PartialEq)]
pub struct ResponseStreamEvent {
    pub sequence_number: u64,
    pub payload: ResponseEventPayload,
}

/// The mathematical form of a [`ResponseStreamEvent`].
#[verifier::ext_equal]
pub struct ResponseStreamEventView {
    pub sequence_number: u64,
    pub payload: ResponseEventPayloadView,
}

impl DeepView for ResponseStreamEvent {
    type V = ResponseStreamEventView;

    open spec fn deep_view(&self) -> ResponseStreamEventView {
        ResponseStreamEventView {
            sequence_number: self.sequence_number,
            payload: self.payload.deep_view(),
        }
    }
}

/// The name under which an event of this kind is sent.
pub open spec fn event_type_name(payload: ResponseEventPayload) -> Seq<char> {
    match payload {
        ResponseEventPayload::ResponseCreated { .. } => "response.created"@,
        ResponseEventPayload::ResponseInProgress { .. } => "response.in_progress"@,
        ResponseEventPayload::ResponseCompleted { .. } => "response.completed"@,
        ResponseEventPayload::ResponseFailed { .. } => "response.failed"@,
        ResponseEventPayload::ResponseIncomplete { .. } => "response.incomplete"@,
        ResponseEventPayload::ResponseQueued(_) => "response.queued"@,
        ResponseEventPayload::ResponseOutputItemAdded { .. } => "response.output_item.added"@,
        ResponseEventPayload::ResponseOutputItemDone { .. } => "response.output_item.done"@,
        ResponseEventPayload::ResponseContentPartAdded { .. } => "response.content_part.added"@,
        ResponseEventPayload::ResponseContentPartDone { .. } => "response.content_part.done"@,
        ResponseEventPayload::ResponseOutputTextDelta { .. } => "response.output_text.delta"@,
        ResponseEventPayload::ResponseOutputTextDone { .. } => "response.output_text.done"@,
        ResponseEventPayload::ResponseRefusalDelta(_) => "response.refusal.delta"@,
        ResponseEventPayload::ResponseRefusalDone(_) => "response.refusal.done"@,
        ResponseEventPayload::ResponseFunctionCallArgumentsDelta { .. } => "response.function_call_arguments.delta"@,
        ResponseEventPayload::ResponseFunctionCallArgumentsDone { .. } => "response.function_call_arguments.done"@,
        ResponseEventPayload::ResponseFileSearchCallInProgress(_) => "response.file_search_call.in_progress"@,
        ResponseEventPayload::ResponseFileSearchCallSearching(_) => "response.file_search_call.searching"@,
        ResponseEventPayload::ResponseFileSearchCallCompleted(_) => "response.file_search_call.completed"@,
        ResponseEventPayload::ResponseWebSearchCallInProgress(_) => "response.web_search_call.in_progress"@,
        ResponseEventPayload::ResponseWebSearchCallSearching(_) => "response.web_search_call.searching"@,
        ResponseEventPayload::ResponseWebSearchCallCompleted(_) => "response.web_search_call.completed"@,
        ResponseEventPayload::ResponseReasoningSummaryPartAdded { .. } => "response.reasoning_summary_part.added"@,
        ResponseEventPayload::ResponseReasoningSummaryPartDone { .. } => "response.reasoning_summary_part.done"@,
        ResponseEventPayload::ResponseReasoningSummaryTextDelta { .. } => "response.reasoning_summary_text.delta"@,
        ResponseEventPayload::ResponseReasoningSummaryTextDone { .. } => "response.reasoning_summary_text.done"@,
        ResponseEventPayload::ResponseReasoningTextDelta(_) => "response.reasoning_text.delta"@,
        ResponseEventPayload::ResponseReasoningTextDone(_) => "response.reasoning_text.done"@,
        ResponseEventPayload::ResponseImageGenerationCallCompleted(_) => "response.image_generation_call.completed"@,
        ResponseEventPayload::ResponseImageGenerationCallGenerating(_) => "response.image_generation_call.generating"@,
        ResponseEventPayload::ResponseImageGenerationCallInProgress(_) => "response.image_generation_call.in_progress"@,
        ResponseEventPayload::ResponseImageGenerationCallPartialImage(_) => "response.image_generation_call.partial_image"@,
        ResponseEventPayload::ResponseMCPCallArgumentsDelta(_) => "response.mcp_call_arguments.delta"@,
        ResponseEventPayload::ResponseMCPCallArgumentsDone(_) => "response.mcp_call_arguments.done"@,
        ResponseEventPayload::ResponseMCPCallCompleted(_) => "response.mcp_call.completed"@,
        ResponseEventPayload::ResponseMCPCallFailed(_) => "response.mcp_call.failed"@,
        ResponseEventPayload::ResponseMCPCallInProgress(_) => "response.mcp_call.in_progress"@,
        ResponseEventPayload::ResponseMCPListToolsCompleted(_) => "response.mcp_list_tools.completed"@,
        ResponseEventPayload::ResponseMCPListToolsFailed(_) => "response.mcp_list_tools.failed"@,
        ResponseEventPayload::ResponseMCPListToolsInProgress(_) => "response.mcp_list_tools.in_progress"@,
        ResponseEventPayload::ResponseCodeInterpreterCallInProgress(_) => "response.code_interpreter_call.in_progress"@,
        ResponseEventPayload::ResponseCodeInterpreterCallInterpreting(_) => "response.code_interpreter_call.interpreting"@,
        ResponseEventPayload::ResponseCodeInterpreterCallCompleted(_) => "response.code_interpreter_call.completed"@,
        ResponseEventPayload::ResponseCodeInterpreterCallCodeDelta(_) => "response.code_interpreter_call_code.delta"@,
        ResponseEventPayload::ResponseCodeInterpreterCallCodeDone(_) => "response.code_interpreter_call_code.done"@,
        ResponseEventPayload::ResponseOutputTextAnnotationAdded(_) => "response.output_text.annotation.added"@,
        ResponseEventPayload::ResponseCustomToolCallInputDelta(_) => "response.custom_tool_call_input.delta"@,
        ResponseEventPayload::ResponseCustomToolCallInputDone(_) => "response.custom_tool_call_input.done"@,
        ResponseEventPayload::ResponseError(_) => "error"@,
    }
}

/// The name under which an event of this kind is sent.
pub fn get_event_type(payload: &ResponseEventPayload) -> (name: &'static str)
    ensures
        name@ == event_type_name(*payload),
{
    match payload {
        ResponseEventPayload::ResponseCreated { .. } => "response.created",
        ResponseEventPayload::ResponseInProgress { .. } => "response.in_progress",
        ResponseEventPayload::ResponseCompleted { .. } => "response.completed",
        ResponseEventPayload::ResponseFailed { .. } => "response.failed",
        ResponseEventPayload::ResponseIncomplete { .. } => "response.incomplete",
        ResponseEventPayload::ResponseQueued(_) => "response.queued",
        ResponseEventPayload::ResponseOutputItemAdded { .. } => "response.output_item.added",
        ResponseEventPayload::ResponseOutputItemDone { .. } => "response.output_item.done",
        ResponseEventPayload::ResponseContentPartAdded { .. } => "response.content_part.added",
        ResponseEventPayload::ResponseContentPartDone { .. } => "response.content_part.done",
        ResponseEventPayload::ResponseOutputTextDelta { .. } => "response.output_text.delta",
        ResponseEventPayload::ResponseOutputTextDone { .. } => "response.output_text.done",
        ResponseEventPayload::ResponseRefusalDelta(_) => "response.refusal.delta",
        ResponseEventPayload::ResponseRefusalDone(_) => "response.refusal.done",
        ResponseEventPayload::ResponseFunctionCallArgumentsDelta { .. } => "response.function_call_arguments.delta",
        ResponseEventPayload::ResponseFunctionCallArgumentsDone { .. } => "response.function_call_arguments.done",
        ResponseEventPayload::ResponseFileSearchCallInProgress(_) => "response.file_search_call.in_progress",
        ResponseEventPayload::ResponseFileSearchCallSearching(_) => "response.file_search_call.searching",
        ResponseEventPayload::ResponseFileSearchCallCompleted(_) => "response.file_search_call.completed",
        ResponseEventPayload::ResponseWebSearchCallInProgress(_) => "response.web_search_call.in_progress",
        ResponseEventPayload::ResponseWebSearchCallSearching(_) => "response.web_search_call.searching",
        ResponseEventPayload::ResponseWebSearchCallCompleted(_) => "response.web_search_call.completed",
        ResponseEventPayload::ResponseReasoningSummaryPartAdded { .. } => "response.reasoning_summary_part.added",
        ResponseEventPayload::ResponseReasoningSummaryPartDone { .. } => "response.reasoning_summary_part.done",
        ResponseEventPayload::ResponseReasoningSummaryTextDelta { .. } => "response.reasoning_summary_text.delta",
        ResponseEventPayload::ResponseReasoningSummaryTextDone { .. } => "response.reasoning_summary_text.done",
        ResponseEventPayload::ResponseReasoningTextDelta(_) => "response.reasoning_text.delta",
        ResponseEventPayload::ResponseReasoningTextDone(_) => "response.reasoning_text.done",
        ResponseEventPayload::ResponseImageGenerationCallCompleted(_) => "response.image_generation_call.completed",
        ResponseEventPayload::ResponseImageGenerationCallGenerating(_) => "response.image_generation_call.generating",
        ResponseEventPayload::ResponseImageGenerationCallInProgress(_) => "response.image_generation_call.in_progress",
        ResponseEventPayload::ResponseImageGenerationCallPartialImage(_) => "response.image_generation_call.partial_image",
        ResponseEventPayload::ResponseMCPCallArgumentsDelta(_) => "response.mcp_call_arguments.delta",
        ResponseEventPayload::ResponseMCPCallArgumentsDone(_) => "response.mcp_call_arguments.done",
        ResponseEventPayload::ResponseMCPCallCompleted(_) => "response.mcp_call.completed",
        ResponseEventPayload::ResponseMCPCallFailed(_) => "response.mcp_call.failed",
        ResponseEventPayload::ResponseMCPCallInProgress(_) => "response.mcp_call.in_progress",
        ResponseEventPayload::ResponseMCPListToolsCompleted(_) => "response.mcp_list_tools.completed",
        ResponseEventPayload::ResponseMCPListToolsFailed(_) => "response.mcp_list_tools.failed",
        ResponseEventPayload::ResponseMCPListToolsInProgress(_) => "response.mcp_list_tools.in_progress",
        ResponseEventPayload::ResponseCodeInterpreterCallInProgress(_) => "response.code_interpreter_call.in_progress",
        ResponseEventPayload::ResponseCodeInterpreterCallInterpreting(_) => "response.code_interpreter_call.interpreting",
        ResponseEventPayload::ResponseCodeInterpreterCallCompleted(_) => "response.code_interpreter_call.completed",
        ResponseEventPayload::ResponseCodeInterpreterCallCodeDelta(_) => "response.code_interpreter_call_code.delta",
        ResponseEventPayload::ResponseCodeInterpreterCallCodeDone(_) => "response.code_interpreter_call_code.done",
        ResponseEventPayload::ResponseOutputTextAnnotationAdded(_) => "response.output_text.annotation.added",
        ResponseEventPayload::ResponseCustomToolCallInputDelta(_) => "response.custom_tool_call_input.delta",
        ResponseEventPayload::ResponseCustomToolCallInputDone(_) => "response.custom_tool_call_input.done",
        ResponseEventPayload::ResponseError(_) => "error",
    }
}

} // verus!
