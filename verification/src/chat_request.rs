//! What a chat request brings: the effort to reason with, and the contents of messages.

use vstd::prelude::*;

use crate::chat::ImageDetail;
use crate::json::{text_value, value_contents, value_tree, Json, JsonView};
use crate::responses::types::ReasoningEffort;
use crate::text::same_text;

verus! {

/// The names of the levels of reasoning effort, from none to the strongest.
pub const B10_REASONING_EFFORT_LEVELS: [&'static str; 7] = [
    "none",
    "minimal",
    "low",
    "medium",
    "high",
    "xhigh",
    "max",
];

/// A reasoning effort as a client sent it: a level, or any other value as it came.
pub enum B10ReasoningEffort {
    NoEffort,
    Minimal,
    Low,
    Medium,
    High,
    Xhigh,
    Max,
    Other(serde_json::Value),
}

impl B10ReasoningEffort {
    /// The name of the level, where it is one.
    pub open spec fn level(self) -> Option<Seq<char>> {
        match self {
            B10ReasoningEffort::NoEffort => Some("none"@),
            B10ReasoningEffort::Minimal => Some("minimal"@),
            B10ReasoningEffort::Low => Some("low"@),
            B10ReasoningEffort::Medium => Some("medium"@),
            B10ReasoningEffort::High => Some("high"@),
            B10ReasoningEffort::Xhigh => Some("xhigh"@),
            B10ReasoningEffort::Max => Some("max"@),
            B10ReasoningEffort::Other(_) => None,
        }
    }

    /// The effort as it stands in JSON.
    pub open spec fn tree(self) -> JsonView {
        match self {
            B10ReasoningEffort::Other(value) => value_tree(value),
            _ => JsonView::Str(self.level()->0),
        }
    }

    /// The name of the level, where it is one.
    pub fn as_level(&self) -> (level: Option<&'static str>)
        ensures
            level matches Some(name) ==> self.level() == Some(name@),
            level is None ==> self.level() is None,
    {
        match self {
            B10ReasoningEffort::NoEffort => Some("none"),
            B10ReasoningEffort::Minimal => Some("minimal"),
            B10ReasoningEffort::Low => Some("low"),
            B10ReasoningEffort::Medium => Some("medium"),
            B10ReasoningEffort::High => Some("high"),
            B10ReasoningEffort::Xhigh => Some("xhigh"),
            B10ReasoningEffort::Max => Some("max"),
            B10ReasoningEffort::Other(_) => None,
        }
    }

    /// The level with the given name, spelled exactly so.
    fn from_level(name: &str) -> (effort: Option<B10ReasoningEffort>)
        ensures
            effort matches Some(level) ==> level.level() == Some(name@),
            effort is None ==> !is_level(name@),
    {
        if same_text(name, "none") {
            Some(B10ReasoningEffort::NoEffort)
        } else if same_text(name, "minimal") {
            Some(B10ReasoningEffort::Minimal)
        } else if same_text(name, "low") {
            Some(B10ReasoningEffort::Low)
        } else if same_text(name, "medium") {
            Some(B10ReasoningEffort::Medium)
        } else if same_text(name, "high") {
            Some(B10ReasoningEffort::High)
        } else if same_text(name, "xhigh") {
            Some(B10ReasoningEffort::Xhigh)
        } else if same_text(name, "max") {
            Some(B10ReasoningEffort::Max)
        } else {
            None
        }
    }

    /// The effort that a client sent. Nothing is refused and nothing is lost.
    pub fn from_client_value(value: serde_json::Value) -> (effort: B10ReasoningEffort)
        ensures
            effort.tree() == value_tree(value),
            effort.level() is Some == (value_tree(value).as_str() matches Some(name) && is_level(
                name,
            )),
    {
        let level = match value_contents(&value) {
            Json::Str(name) => Self::from_level(name.as_str()),
            _ => None,
        };
        match level {
            Some(effort) => effort,
            None => B10ReasoningEffort::Other(value),
        }
    }

    /// The effort as it stands in JSON.
    pub fn to_value(self) -> (value: serde_json::Value)
        ensures
            value_tree(value) == self.tree(),
    {
        match self {
            B10ReasoningEffort::Other(value) => value,
            B10ReasoningEffort::NoEffort => text_value("none"),
            B10ReasoningEffort::Minimal => text_value("minimal"),
            B10ReasoningEffort::Low => text_value("low"),
            B10ReasoningEffort::Medium => text_value("medium"),
            B10ReasoningEffort::High => text_value("high"),
            B10ReasoningEffort::Xhigh => text_value("xhigh"),
            B10ReasoningEffort::Max => text_value("max"),
        }
    }

    /// The nearest effort that a response can tell. The strongest that it has is `xhigh`, and
    /// of a value that is no level it tells nothing.
    pub fn to_async_openai(&self) -> (effort: Option<ReasoningEffort>)
        ensures
            effort == match *self {
                B10ReasoningEffort::NoEffort => Some(ReasoningEffort::NoEffort),
                B10ReasoningEffort::Minimal => Some(ReasoningEffort::Minimal),
                B10ReasoningEffort::Low => Some(ReasoningEffort::Low),
                B10ReasoningEffort::Medium => Some(ReasoningEffort::Medium),
                B10ReasoningEffort::High => Some(ReasoningEffort::High),
                B10ReasoningEffort::Xhigh => Some(ReasoningEffort::Xhigh),
                B10ReasoningEffort::Max => Some(ReasoningEffort::Xhigh),
                B10ReasoningEffort::Other(_) => None,
            },
    {
        match self {
            B10ReasoningEffort::NoEffort => Some(ReasoningEffort::NoEffort),
            B10ReasoningEffort::Minimal => Some(ReasoningEffort::Minimal),
            B10ReasoningEffort::Low => Some(ReasoningEffort::Low),
            B10ReasoningEffort::Medium => Some(ReasoningEffort::Medium),
            B10ReasoningEffort::High => Some(ReasoningEffort::High),
            B10ReasoningEffort::Xhigh => Some(ReasoningEffort::Xhigh),
            B10ReasoningEffort::Max => Some(ReasoningEffort::Xhigh),
            B10ReasoningEffort::Other(_) => None,
        }
    }
}

/// Whether a name is that of a level.
pub open spec fn is_level(name: Seq<char>) -> bool {
    ||| name == "none"@
    ||| name == "minimal"@
    ||| name == "low"@
    ||| name == "medium"@
    ||| name == "high"@
    ||| name == "xhigh"@
    ||| name == "max"@
}

/// A text part of a message.
#[derive(Debug, Clone, PartialEq, Eq)]
pub struct ChatCompletionRequestMessageContentPartText {
    pub text: String,
}

/// The place of an image, and the id under which it is tracked.
#[derive(Debug, Clone, PartialEq)]
pub struct ImageUrl {
    pub url: String,
    pub detail: Option<ImageDetail>,
    pub uuid: Option<String>,
}

/// An image part of a message.
#[derive(Debug, Clone, PartialEq)]
pub struct ChatCompletionRequestMessageContentPartImage {
    pub image_url: ImageUrl,
}

/// The place of a video, and the id under which it is tracked.
#[derive(Debug, Clone, PartialEq)]
pub struct VideoUrl {
    pub url: String,
    pub detail: Option<ImageDetail>,
    pub uuid: Option<String>,
}

/// A video part of a message.
#[derive(Debug, Clone, PartialEq)]
pub struct ChatCompletionRequestMessageContentPartVideo {
    pub video_url: VideoUrl,
}

/// The place of a recording, and the id under which it is tracked.
#[derive(Debug, Clone, PartialEq, Eq)]
pub struct AudioUrl {
    pub url: String,
    pub uuid: Option<String>,
}

/// A recording that a message points to.
#[derive(Debug, Clone, PartialEq, Eq)]
pub struct ChatCompletionRequestMessageContentPartAudioUrl {
    pub audio_url: AudioUrl,
}

/// A recording that a message holds.
#[derive(Debug, Clone, PartialEq, Eq)]
pub struct ChatCompletionRequestMessageContentPartAudio {
    pub data: String,
    pub format: String,
}

/// A part of a message of a user.
#[derive(Debug, Clone, PartialEq)]
pub enum ChatCompletionRequestUserMessageContentPart {
    Text(ChatCompletionRequestMessageContentPartText),
    ImageUrl(ChatCompletionRequestMessageContentPartImage),
    VideoUrl(ChatCompletionRequestMessageContentPartVideo),
    AudioUrl(ChatCompletionRequestMessageContentPartAudioUrl),
    InputAudio(ChatCompletionRequestMessageContentPartAudio),
}

/// The content of a message of a user.
#[derive(Debug, Clone, PartialEq)]
pub enum ChatCompletionRequestUserMessageContent {
    Text(String),
    Array(Vec<ChatCompletionRequestUserMessageContentPart>),
}

impl Default for ChatCompletionRequestUserMessageContent {
    fn default() -> (content: ChatCompletionRequestUserMessageContent)
        ensures
            content matches ChatCompletionRequestUserMessageContent::Text(text) && text@.len()
                == 0,
    {
        ChatCompletionRequestUserMessageContent::Text(String::new())
    }
}

impl vstd::std_specs::convert::FromSpecImpl<String> for ChatCompletionRequestUserMessageContent {
    open spec fn obeys_from_spec() -> bool {
        true
    }

    open spec fn from_spec(value: String) -> ChatCompletionRequestUserMessageContent {
        ChatCompletionRequestUserMessageContent::Text(value)
    }
}

impl From<&str> for ChatCompletionRequestUserMessageContent {
    fn from(value: &str) -> (content: Self)
        ensures
            content matches ChatCompletionRequestUserMessageContent::Text(text) && text@ == value@,
    {
        ChatCompletionRequestUserMessageContent::Text(value.to_owned())
    }
}

impl vstd::std_specs::convert::FromSpecImpl<&str> for ChatCompletionRequestUserMessageContent {
    open spec fn obeys_from_spec() -> bool {
        false
    }

    open spec fn from_spec(value: &str) -> Self {
        arbitrary()
    }
}

impl From<String> for ChatCompletionRequestUserMessageContent {
    fn from(value: String) -> (content: ChatCompletionRequestUserMessageContent) {
        ChatCompletionRequestUserMessageContent::Text(value)
    }
}

impl vstd::std_specs::convert::FromSpecImpl<
    Vec<ChatCompletionRequestUserMessageContentPart>,
> for ChatCompletionRequestUserMessageContent {
    open spec fn obeys_from_spec() -> bool {
        true
    }

    open spec fn from_spec(
        value: Vec<ChatCompletionRequestUserMessageContentPart>,
    ) -> ChatCompletionRequestUserMessageContent {
        ChatCompletionRequestUserMessageContent::Array(value)
    }
}

impl From<
    Vec<ChatCompletionRequestUserMessageContentPart>,
> for ChatCompletionRequestUserMessageContent {
    fn from(value: Vec<ChatCompletionRequestUserMessageContentPart>) -> (content:
        ChatCompletionRequestUserMessageContent) {
        ChatCompletionRequestUserMessageContent::Array(value)
    }
}

/// The content of a message of a tool.
#[derive(Debug, Clone, PartialEq)]
pub enum ChatCompletionRequestToolMessageContent {
    Text(String),
    Array(Vec<ChatCompletionRequestUserMessageContentPart>),
}

impl Default for ChatCompletionRequestToolMessageContent {
    fn default() -> (content: ChatCompletionRequestToolMessageContent)
        ensures
            content matches ChatCompletionRequestToolMessageContent::Text(text) && text@.len()
                == 0,
    {
        ChatCompletionRequestToolMessageContent::Text(String::new())
    }
}

/// A message of a user.
#[derive(Debug, Clone, PartialEq)]
pub struct ChatCompletionRequestUserMessage {
    pub content: ChatCompletionRequestUserMessageContent,
    pub name: Option<String>,
}

/// A message of a tool.
#[derive(Debug, Clone, PartialEq)]
pub struct ChatCompletionRequestToolMessage {
    pub content: ChatCompletionRequestToolMessageContent,
    pub tool_call_id: String,
}

/// Every level has a name of its own.
pub proof fn law_levels_are_distinct(first: B10ReasoningEffort, second: B10ReasoningEffort)
    requires
        first.level() is Some,
        first.level() == second.level(),
    ensures
        first == second,
{
    reveal_strlit("none");
    reveal_strlit("minimal");
    reveal_strlit("low");
    reveal_strlit("medium");
    reveal_strlit("high");
    reveal_strlit("xhigh");
    reveal_strlit("max");
    let name = first.level()->0;
    assert(name.len() > 0);
    assert("none"@[0] == 'n' && "minimal"@[0] == 'm' && "low"@[0] == 'l' && "medium"@[0] == 'm'
        && "high"@[0] == 'h' && "xhigh"@[0] == 'x' && "max"@[0] == 'm');
    assert("minimal"@[1] == 'i' && "medium"@[1] == 'e' && "max"@[1] == 'a');
}

} // verus!
