//! Chat completion requests, responses and stream chunks.

use vstd::prelude::*;

use async_openai::types::chat::StopConfiguration;

use crate::json::{item_views, lemma_item_views, value_contents, value_text, value_tree, Json, JsonView, printed_json};
use crate::number::{parse_u64, parsed_u64};
use crate::text::{join, joined};

verus! {

/// Who wrote a message.
#[derive(Debug, Clone, Copy, PartialEq, Eq, Structural)]
pub enum Role {
    System,
    User,
    Assistant,
    Tool,
    Function,
}

/// Why generation ended.
#[derive(Debug, Clone, Copy, PartialEq, Eq, Structural)]
pub enum FinishReason {
    Stop,
    Length,
    ToolCalls,
    ContentFilter,
    FunctionCall,
}

/// The kind of a tool call; functions are the only one.
#[derive(Debug, Clone, Copy, PartialEq, Eq, Structural)]
pub enum FunctionType {
    Function,
}

#[derive(Debug, Clone, Copy, PartialEq, Eq, Structural)]
pub struct PromptTokensDetails {
    pub audio_tokens: Option<u32>,
    pub cached_tokens: Option<u32>,
}

#[derive(Debug, Clone, Copy, PartialEq, Eq, Structural)]
pub struct CompletionTokensDetails {
    pub accepted_prediction_tokens: Option<u32>,
    pub audio_tokens: Option<u32>,
    pub reasoning_tokens: Option<u32>,
    pub rejected_prediction_tokens: Option<u32>,
}

/// Token counts of one completion.
#[derive(Debug, Clone, Copy, PartialEq, Eq, Structural)]
pub struct CompletionUsage {
    pub prompt_tokens: u32,
    pub completion_tokens: u32,
    pub total_tokens: u32,
    pub prompt_tokens_details: Option<PromptTokensDetails>,
    pub completion_tokens_details: Option<CompletionTokensDetails>,
}

impl CompletionUsage {
    /// The prompt tokens that were read from a cache, where the backend reported them.
    pub open spec fn spec_cached_tokens(self) -> Option<u32> {
        match self.prompt_tokens_details {
            Some(details) => details.cached_tokens,
            None => None,
        }
    }

    /// The completion tokens spent on reasoning, where the backend reported them.
    pub open spec fn spec_reasoning_tokens(self) -> Option<u32> {
        match self.completion_tokens_details {
            Some(details) => details.reasoning_tokens,
            None => None,
        }
    }

    #[verifier::when_used_as_spec(spec_cached_tokens)]
    pub fn cached_tokens(self) -> (tokens: Option<u32>)
        ensures
            tokens == self.spec_cached_tokens(),
    {
        match self.prompt_tokens_details {
            Some(details) => details.cached_tokens,
            None => None,
        }
    }

    #[verifier::when_used_as_spec(spec_reasoning_tokens)]
    pub fn reasoning_tokens(self) -> (tokens: Option<u32>)
        ensures
            tokens == self.spec_reasoning_tokens(),
    {
        match self.completion_tokens_details {
            Some(details) => details.reasoning_tokens,
            None => None,
        }
    }
}

/// Where generation must stop: at a text, at any of several texts, or at a token id.
#[derive(Debug, Clone, PartialEq, Eq)]
pub enum Stop {
    String(String),
    StringArray(Vec<String>),
    TokenIdArray(Vec<u32>),
}

/// The token id that a value denotes.
pub open spec fn token_id(value: JsonView) -> Option<u32> {
    match value {
        JsonView::Number(text) => match parsed_u64(text) {
            Some(number) if number <= u32::MAX => Some(number as u32),
            _ => None,
        },
        _ => None,
    }
}

/// The token id that a value denotes.
fn read_token_id(value: &Json) -> (id: Option<u32>)
    ensures
        id == token_id(value@),
{
    match value {
        Json::Number(text) => match parse_u64(text.as_str()) {
            Some(number) => if number <= 0xffff_ffff {
                Some(number as u32)
            } else {
                None
            },
            None => None,
        },
        _ => None,
    }
}

/// Whether all items are texts.
pub open spec fn all_texts(items: Seq<JsonView>) -> bool {
    forall|i: int| 0 <= i < items.len() ==> (#[trigger] items[i]) is Str
}

/// Whether all items are token ids.
pub open spec fn all_token_ids(items: Seq<JsonView>) -> bool {
    forall|i: int| 0 <= i < items.len() ==> token_id(#[trigger] items[i]) is Some
}

/// The texts among the items, where all are texts.
fn read_texts(items: &Vec<Json>) -> (texts: Option<Vec<String>>)
    ensures
        texts is Some <==> all_texts(items.deep_view()),
        texts matches Some(all) ==> all@.len() == items@.len() && forall|i: int|
            0 <= i < all@.len() ==> items.deep_view()[i] == JsonView::Str(#[trigger] all@[i]@),
{
    let mut texts: Vec<String> = Vec::new();
    for i in 0..items.len()
        invariant
            texts@.len() == i,
            forall|k: int|
                0 <= k < i ==> items.deep_view()[k] == JsonView::Str(#[trigger] texts@[k]@),
    {
        assert(items.deep_view()[i as int] == items@[i as int]@);
        match &items[i] {
            Json::Str(text) => texts.push(text.clone()),
            _ => {
                return None;
            },
        }
    }
    assert forall|k: int| 0 <= k < items@.len() implies (#[trigger] items.deep_view()[k]) is Str by {
        assert(items.deep_view()[k] == JsonView::Str(texts@[k]@));
    }
    Some(texts)
}

/// The token ids that the items denote, where all are token ids.
fn read_token_ids(items: &Vec<Json>) -> (ids: Option<Vec<u32>>)
    ensures
        ids is Some <==> all_token_ids(items.deep_view()),
        ids matches Some(all) ==> all@.len() == items@.len() && forall|i: int|
            0 <= i < all@.len() ==> token_id(items.deep_view()[i]) == Some(#[trigger] all@[i]),
{
    let mut ids: Vec<u32> = Vec::new();
    for i in 0..items.len()
        invariant
            ids@.len() == i,
            forall|k: int|
                0 <= k < i ==> token_id(items.deep_view()[k]) == Some(#[trigger] ids@[k]),
    {
        assert(items.deep_view()[i as int] == items@[i as int]@);
        match read_token_id(&items[i]) {
            Some(id) => ids.push(id),
            None => {
                return None;
            },
        }
    }
    assert forall|k: int| 0 <= k < items@.len() implies token_id(#[trigger] items.deep_view()[k])
        is Some by {
        assert(token_id(items.deep_view()[k]) == Some(ids@[k]));
    }
    Some(ids)
}

/// Whether a value says where to stop: a text, an array of texts, or an array of token ids.
pub open spec fn is_stop(value: JsonView) -> bool {
    match value {
        JsonView::Str(_) => true,
        JsonView::Array(items) => all_texts(items) || all_token_ids(items),
        _ => false,
    }
}

/// Whether `stop` says what a value says. An empty array stands for no texts.
pub open spec fn says_stop(stop: Stop, value: JsonView) -> bool {
    match (stop, value) {
        (Stop::String(text), JsonView::Str(written)) => text@ == written,
        (Stop::StringArray(texts), JsonView::Array(items)) => texts@.len() == items.len()
            && forall|i: int|
            0 <= i < items.len() ==> items[i] == JsonView::Str(#[trigger] texts@[i]@),
        (Stop::TokenIdArray(ids), JsonView::Array(items)) => items.len() > 0 && ids@.len()
            == items.len() && forall|i: int|
            0 <= i < items.len() ==> token_id(items[i]) == Some(#[trigger] ids@[i]),
        _ => false,
    }
}

impl Stop {
    /// Reads the stops of a request.
    pub fn from_value(value: &serde_json::Value) -> (stop: Option<Stop>)
        ensures
            stop is Some <==> is_stop(value_tree(*value)),
            stop matches Some(s) ==> says_stop(s, value_tree(*value)),
    {
        match value_contents(value) {
            Json::Str(text) => Some(Stop::String(text)),
            Json::Array(items) => {
                proof {
                    lemma_item_views(items@);
                    assert(item_views(items@) =~= items.deep_view());
                }
                match read_texts(&items) {
                    Some(texts) => Some(Stop::StringArray(texts)),
                    None => match read_token_ids(&items) {
                        Some(ids) => Some(Stop::TokenIdArray(ids)),
                        None => None,
                    },
                }
            },
            _ => None,
        }
    }

    /// The stop texts; nothing where the stops are token ids.
    pub fn strings(&self) -> (texts: Option<Vec<String>>)
        ensures
            match *self {
                Stop::String(text) => texts matches Some(t) && t@ == seq![text],
                Stop::StringArray(all) => texts matches Some(t) && t@ == all@,
                Stop::TokenIdArray(_) => texts is None,
            },
    {
        match self {
            Stop::String(text) => Some(vec![text.clone()]),
            Stop::StringArray(all) => {
                let copy = all.clone();
                assert(copy@ =~= all@);
                Some(copy)
            },
            Stop::TokenIdArray(_) => None,
        }
    }

    /// The stop token ids; nothing where the stops are texts.
    pub fn token_ids(&self) -> (ids: Option<Vec<u32>>)
        ensures
            match *self {
                Stop::TokenIdArray(all) => ids matches Some(t) && t@ == all@,
                _ => ids is None,
            },
    {
        match self {
            Stop::TokenIdArray(all) => {
                let copy = all.clone();
                assert(copy@ =~= all@);
                Some(copy)
            },
            _ => None,
        }
    }
}

impl From<&str> for Stop {
    fn from(value: &str) -> (stop: Self)
        ensures
            says_stop(stop, JsonView::Str(value@)),
    {
        Stop::String(value.to_owned())
    }
}

impl vstd::std_specs::convert::FromSpecImpl<&str> for Stop {
    open spec fn obeys_from_spec() -> bool {
        false
    }

    open spec fn from_spec(value: &str) -> Self {
        arbitrary()
    }
}

impl From<String> for Stop {
    fn from(value: String) -> (stop: Self) {
        Stop::String(value)
    }
}

impl vstd::std_specs::convert::FromSpecImpl<String> for Stop {
    open spec fn obeys_from_spec() -> bool {
        true
    }

    open spec fn from_spec(value: String) -> Self {
        Stop::String(value)
    }
}

impl From<Vec<String>> for Stop {
    fn from(value: Vec<String>) -> (stop: Self) {
        Stop::StringArray(value)
    }
}

impl vstd::std_specs::convert::FromSpecImpl<Vec<String>> for Stop {
    open spec fn obeys_from_spec() -> bool {
        true
    }

    open spec fn from_spec(value: Vec<String>) -> Self {
        Stop::StringArray(value)
    }
}

impl From<Vec<u32>> for Stop {
    fn from(value: Vec<u32>) -> (stop: Self) {
        Stop::TokenIdArray(value)
    }
}

impl vstd::std_specs::convert::FromSpecImpl<Vec<u32>> for Stop {
    open spec fn obeys_from_spec() -> bool {
        true
    }

    open spec fn from_spec(value: Vec<u32>) -> Self {
        Stop::TokenIdArray(value)
    }
}

/// Where generation must stop, as `async_openai` holds it.
#[verifier::external_type_specification]
pub struct ExStopConfiguration(async_openai::types::chat::StopConfiguration);

impl From<StopConfiguration> for Stop {
    fn from(value: StopConfiguration) -> (stop: Self) {
        match value {
            StopConfiguration::String(text) => Stop::String(text),
            StopConfiguration::StringArray(all) => Stop::StringArray(all),
        }
    }
}

impl vstd::std_specs::convert::FromSpecImpl<StopConfiguration> for Stop {
    open spec fn obeys_from_spec() -> bool {
        true
    }

    open spec fn from_spec(value: StopConfiguration) -> Self {
        match value {
            StopConfiguration::String(text) => Stop::String(text),
            StopConfiguration::StringArray(all) => Stop::StringArray(all),
        }
    }
}

/// Why a backend says it stopped.
#[derive(Debug, Clone, PartialEq, Eq)]
pub enum StopReason {
    String(String),
    Int(i64),
    IntArray(Vec<i64>),
}

/// A complete function call: the arguments are JSON text.
#[derive(Debug, Clone, PartialEq, Eq)]
pub struct FunctionCall {
    pub name: String,
    pub arguments: String,
}

/// A piece of a function call.
#[derive(Debug, Clone, PartialEq, Eq)]
pub struct FunctionCallStream {
    pub name: Option<String>,
    pub arguments: Option<String>,
}

#[derive(Debug, Clone, PartialEq, Eq)]
pub struct ChatCompletionMessageToolCallChunk {
    pub index: u32,
    pub id: Option<String>,
    pub kind: Option<FunctionType>,
    pub function: Option<FunctionCallStream>,
}

#[derive(Debug, Clone, PartialEq, Eq)]
pub struct ChatCompletionMessageToolCall {
    pub id: String,
    pub kind: FunctionType,
    pub function: FunctionCall,
}

#[derive(Debug, Clone, PartialEq, Eq)]
pub struct ChatCompletionStreamResponseDeltaFunctionCall {
    pub name: Option<String>,
    pub arguments: Option<String>,
}

/// The text of a function's arguments as a client sent them, either as a string or as an
/// object; an object becomes its JSON text.
pub open spec fn arguments_view(value: JsonView) -> Option<Seq<char>> {
    match value {
        JsonView::Str(text) => Some(text),
        JsonView::Object(_) => Some(printed_json(value)),
        _ => None,
    }
}

/// What is reported of arguments that are neither a string nor an object.
pub open spec fn arguments_error(value: JsonView) -> Seq<char> {
    "expected string or object for `arguments`, got "@ + printed_json(value)
}

/// Reads the `arguments` of a complete function call.
pub fn deserialize_arguments(value: &serde_json::Value) -> (arguments: Result<String, String>)
    ensures
        match arguments_view(value_tree(*value)) {
            Some(text) => arguments matches Ok(t) && t@ == text,
            None => arguments matches Err(e) && e@ == arguments_error(value_tree(*value)),
        },
{
    match value_contents(value) {
        Json::Str(text) => Ok(text),
        Json::Object(_) => Ok(value_text(value)),
        _ => {
            let mut message = "expected string or object for `arguments`, got ".to_owned();
            message.append(value_text(value).as_str());
            Err(message)
        },
    }
}

/// Reads the optional `arguments` of a piece of a function call: absent and null are the
/// same.
pub fn deserialize_arguments_opt(value: Option<&serde_json::Value>) -> (arguments: Result<
    Option<String>,
    String,
>)
    ensures
        match value {
            None => arguments == Ok::<Option<String>, String>(None),
            Some(v) if value_tree(*v) is Null => arguments == Ok::<Option<String>, String>(None),
            Some(v) => match arguments_view(value_tree(*v)) {
                Some(text) => arguments matches Ok(Some(t)) && t@ == text,
                None => arguments matches Err(e) && e@ == arguments_error(value_tree(*v)),
            },
        },
{
    match value {
        None => Ok(None),
        Some(v) => match value_contents(v) {
            Json::Null => Ok(None),
            _ => match deserialize_arguments(v) {
                Ok(text) => Ok(Some(text)),
                Err(message) => Err(message),
            },
        },
    }
}

#[derive(Debug, Clone, Copy, PartialEq, Eq, Structural)]
pub enum ImageDetail {
    Auto,
    Low,
    High,
    Original,
}

impl Default for ImageDetail {
    fn default() -> (detail: Self)
        ensures
            detail == ImageDetail::Auto,
    {
        ImageDetail::Auto
    }
}

#[derive(Debug, Clone, Copy, PartialEq, Eq, Structural)]
pub enum ChatCompletionToolType {
    Function,
}

impl Default for ChatCompletionToolType {
    fn default() -> (kind: Self)
        ensures
            kind == ChatCompletionToolType::Function,
    {
        ChatCompletionToolType::Function
    }
}

#[derive(Debug, Clone, PartialEq, Eq)]
pub struct FunctionName {
    pub name: String,
}

#[derive(Debug, Clone, PartialEq, Eq)]
pub struct ChatCompletionNamedToolChoice {
    pub kind: ChatCompletionToolType,
    pub function: FunctionName,
}

/// Which tools the model may call; by default none of them.
#[derive(Debug, Clone, PartialEq, Eq)]
pub enum ChatCompletionToolChoiceOption {
    NoTools,
    Auto,
    Required,
    Named(ChatCompletionNamedToolChoice),
}

impl Default for ChatCompletionToolChoiceOption {
    fn default() -> (choice: Self)
        ensures
            choice is NoTools,
    {
        ChatCompletionToolChoiceOption::NoTools
    }
}

/// Reasoning that an assistant message carries: one text, or the pieces that stood before
/// each tool call with the trailing piece last.
#[derive(Debug, Clone, PartialEq, Eq)]
pub enum ReasoningContent {
    Text(String),
    Segments(Vec<String>),
}

/// The segments that hold any text.
pub open spec fn nonempty_segments(segments: Seq<String>) -> Seq<Seq<char>>
    decreases segments.len(),
{
    if segments.len() == 0 {
        seq![]
    } else if segments.last()@.len() == 0 {
        nonempty_segments(segments.drop_last())
    } else {
        nonempty_segments(segments.drop_last()).push(segments.last()@)
    }
}

impl ReasoningContent {
    /// The reasoning as one text: the segments that are not empty, one per line.
    pub fn to_flat_string(&self) -> (text: String)
        ensures
            text@ == match *self {
                ReasoningContent::Text(whole) => whole@,
                ReasoningContent::Segments(segments) => joined(
                    nonempty_segments(segments@),
                    "\n"@,
                ),
            },
    {
        match self {
            ReasoningContent::Text(whole) => whole.clone(),
            ReasoningContent::Segments(segments) => {
                let mut kept: Vec<String> = Vec::new();
                for i in 0..segments.len()
                    invariant
                        kept@.map_values(|piece: String| piece@) == nonempty_segments(
                            segments@.take(i as int),
                        ),
                {
                    assert(segments@.take(i + 1).drop_last() == segments@.take(i as int));
                    if !segments[i].as_str().is_empty() {
                        let ghost before = kept@;
                        kept.push(segments[i].clone());
                        assert(kept@.map_values(|piece: String| piece@) == before.map_values(
                            |piece: String| piece@,
                        ).push(segments@[i as int]@));
                    }
                }
                assert(segments@.take(segments@.len() as int) == segments@);
                join(&kept, "\n")
            },
        }
    }

    /// The segments, where the reasoning is in segments.
    pub fn segments(&self) -> (segments: Option<&[String]>)
        ensures
            match *self {
                ReasoningContent::Segments(all) => segments matches Some(s) && s@ == all@,
                ReasoningContent::Text(_) => segments is None,
            },
    {
        match self {
            ReasoningContent::Segments(all) => Some(all.as_slice()),
            ReasoningContent::Text(_) => None,
        }
    }
}

#[derive(Debug, Clone, PartialEq, Eq)]
pub struct ChatCompletionResponseContentPartText {
    pub text: String,
}

#[derive(Debug, Clone, PartialEq, Eq)]
pub struct ChatCompletionResponseContentPartImageUrl {
    pub image_url: ImageUrlResponse,
}

#[derive(Debug, Clone, PartialEq, Eq)]
pub struct ChatCompletionResponseContentPartVideoUrl {
    pub video_url: VideoUrlResponse,
}

#[derive(Debug, Clone, PartialEq, Eq)]
pub struct ChatCompletionResponseContentPartAudioUrl {
    pub audio_url: AudioUrlResponse,
}

#[derive(Debug, Clone, PartialEq, Eq)]
pub struct ImageUrlResponse {
    pub url: String,
    pub detail: Option<String>,
}

#[derive(Debug, Clone, PartialEq, Eq)]
pub struct VideoUrlResponse {
    pub url: String,
}

#[derive(Debug, Clone, PartialEq, Eq)]
pub struct AudioUrlResponse {
    pub url: String,
}

#[derive(Debug, Clone, PartialEq, Eq)]
pub enum ChatCompletionResponseContentPart {
    Text(ChatCompletionResponseContentPartText),
    ImageUrl(ChatCompletionResponseContentPartImageUrl),
    VideoUrl(ChatCompletionResponseContentPartVideoUrl),
    AudioUrl(ChatCompletionResponseContentPartAudioUrl),
}

#[derive(Debug, Clone, PartialEq, Eq)]
pub enum ChatCompletionMessageContent {
    Text(String),
    Parts(Vec<ChatCompletionResponseContentPart>),
}

#[derive(Debug, Clone, Copy, PartialEq, Eq, Structural)]
pub enum ServiceTierResponse {
    Scale,
    Default,
    Flex,
    Priority,
}

#[derive(Debug, Clone, Copy, PartialEq, Eq, Structural)]
pub struct ChatCompletionStreamOptions {
    pub include_usage: bool,
    pub continuous_usage_stats: bool,
}

/// The message of a complete response.
#[derive(Debug, Clone, PartialEq, Eq)]
pub struct ChatCompletionResponseMessage {
    pub content: Option<ChatCompletionMessageContent>,
    pub refusal: Option<String>,
    pub tool_calls: Option<Vec<ChatCompletionMessageToolCall>>,
    pub role: Role,
    pub function_call: Option<FunctionCall>,
    pub reasoning_content: Option<String>,
}

#[derive(Debug, Clone, PartialEq, Eq)]
pub struct ChatChoice {
    pub index: u32,
    pub message: ChatCompletionResponseMessage,
    pub finish_reason: Option<FinishReason>,
}

#[derive(Debug, Clone, PartialEq, Eq)]
pub struct CreateChatCompletionResponse {
    pub id: String,
    pub choices: Vec<ChatChoice>,
    pub created: u32,
    pub model: String,
    pub service_tier: Option<ServiceTierResponse>,
    pub system_fingerprint: Option<String>,
    pub object: String,
    pub usage: Option<CompletionUsage>,
}

/// A complete response with the extension data that came with it.
#[derive(Debug)]
pub struct NvCreateChatCompletionResponse {
    pub inner: CreateChatCompletionResponse,
    pub nvext: Option<Json>,
}

/// What one chunk adds to a message.
#[derive(Debug, Clone, PartialEq, Eq)]
pub struct ChatCompletionStreamResponseDelta {
    pub content: Option<ChatCompletionMessageContent>,
    pub function_call: Option<ChatCompletionStreamResponseDeltaFunctionCall>,
    pub tool_calls: Option<Vec<ChatCompletionMessageToolCallChunk>>,
    pub role: Option<Role>,
    pub refusal: Option<String>,
    pub reasoning_content: Option<String>,
}

#[derive(Debug, Clone, PartialEq, Eq)]
pub struct ChatChoiceStream {
    pub index: u32,
    pub delta: ChatCompletionStreamResponseDelta,
    pub finish_reason: Option<FinishReason>,
}

#[derive(Debug, Clone, PartialEq, Eq)]
pub struct CreateChatCompletionStreamResponse {
    pub id: String,
    pub choices: Vec<ChatChoiceStream>,
    pub created: u32,
    pub model: String,
    pub service_tier: Option<ServiceTierResponse>,
    pub system_fingerprint: Option<String>,
    pub object: String,
    pub usage: Option<CompletionUsage>,
}

/// A stream chunk with the extension data that came with it.
#[derive(Debug)]
pub struct NvCreateChatCompletionStreamResponse {
    pub inner: CreateChatCompletionStreamResponse,
    pub nvext: Option<Json>,
}

} // verus!
