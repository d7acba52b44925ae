//! Tools, and an estimate of the tokens that a request takes: one for every three bytes of
//! what it says.

use vstd::prelude::*;

use crate::anthropic::blocks::{
    AnthropicContentBlock, AnthropicMessage, AnthropicMessageContent, AnthropicRole,
};
use crate::anthropic::request::{
    nested_text, CacheControl, SystemContent, ToolResultContent, ToolResultContentBlock,
};
use crate::json::{printed_json, value_text, value_tree};
use crate::text::{byte_len, bytes_in};

verus! {

/// Whether and how much the model is to think.
#[derive(Debug, Clone, PartialEq, Eq)]
pub struct ThinkingConfig {
    /// "enabled" or "disabled".
    pub thinking_type: String,
    pub budget_tokens: Option<u32>,
}

/// A tool.
pub struct AnthropicTool {
    pub name: String,
    /// "custom" or nothing for a tool of the client, a versioned name for one of the server.
    pub tool_type: Option<String>,
    pub description: Option<String>,
    pub input_schema: Option<serde_json::Value>,
    pub cache_control: Option<CacheControl>,
    pub defer_loading: Option<bool>,
}

/// How the model is to choose a tool.
#[derive(Debug, Clone, PartialEq, Eq)]
pub enum AnthropicToolChoice {
    Named(AnthropicToolChoiceNamed),
    Simple(AnthropicToolChoiceSimple),
}

/// A choice that names no tool.
#[derive(Debug, Clone, Copy, PartialEq, Eq, Structural)]
pub struct AnthropicToolChoiceSimple {
    pub choice_type: AnthropicToolChoiceMode,
    pub disable_parallel_tool_use: Option<bool>,
}

/// A choice of one tool.
#[derive(Debug, Clone, PartialEq, Eq)]
pub struct AnthropicToolChoiceNamed {
    pub choice_type: AnthropicToolChoiceMode,
    pub name: String,
    pub disable_parallel_tool_use: Option<bool>,
}

/// The mode of a choice.
#[derive(Debug, Clone, Copy, PartialEq, Eq, Structural)]
pub enum AnthropicToolChoiceMode {
    Auto,
    Any,
    NoTools,
    Tool,
}

/// A request to count tokens.
pub struct AnthropicCountTokensRequest {
    pub model: String,
    pub messages: Vec<AnthropicMessage>,
    pub system: Option<SystemContent>,
    pub tools: Option<Vec<AnthropicTool>>,
}

/// The answer to it.
#[derive(Debug, Clone, Copy, PartialEq, Eq, Structural)]
pub struct AnthropicCountTokensResponse {
    pub input_tokens: u32,
}

/// The bytes of a value as it is printed.
pub open spec fn value_len(value: serde_json::Value) -> nat {
    byte_len(printed_json(value_tree(value)))
}

/// The bytes that a block of a tool result counts for. An image counts for 256, and so does a
/// document without text.
pub open spec fn result_block_len(block: ToolResultContentBlock) -> nat {
    match block {
        ToolResultContentBlock::Text { text } => byte_len(text@),
        ToolResultContentBlock::Image { .. } => 256,
        ToolResultContentBlock::Document(document) => match document.source.text_of() {
            Some(text) => byte_len(text),
            None => 256,
        },
        ToolResultContentBlock::SearchResult(found) => match nested_text(found.content@) {
            Some(text) => byte_len(text),
            None => 0,
        },
        ToolResultContentBlock::Other(value) => value_len(value),
    }
}

/// The bytes that the blocks of a tool result count for.
pub open spec fn result_blocks_len(blocks: Seq<ToolResultContentBlock>) -> nat
    decreases blocks.len(),
{
    if blocks.len() == 0 {
        0
    } else {
        result_blocks_len(blocks.drop_last()) + result_block_len(blocks.last())
    }
}

/// The bytes that a block of a message counts for.
pub open spec fn block_len(block: AnthropicContentBlock) -> nat {
    match block {
        AnthropicContentBlock::Text { text, .. } => byte_len(text@),
        AnthropicContentBlock::ToolUse { name, input, .. } => byte_len(name@) + value_len(input),
        AnthropicContentBlock::ToolResult { content, .. } => match content {
            Some(ToolResultContent::Text(text)) => byte_len(text@),
            Some(ToolResultContent::Blocks(blocks)) => result_blocks_len(blocks@),
            None => 0,
        },
        AnthropicContentBlock::Thinking { thinking, .. } => byte_len(thinking@),
        AnthropicContentBlock::RedactedThinking { data } => byte_len(data@),
        AnthropicContentBlock::ServerToolUse { name, input, .. } => byte_len(name@) + value_len(
            input,
        ),
        AnthropicContentBlock::WebSearchToolResult { content, .. } => value_len(content),
        AnthropicContentBlock::Image { .. } => 256,
        AnthropicContentBlock::Other(value) => value_len(value),
    }
}

/// The bytes that the blocks of a message count for.
pub open spec fn blocks_len(blocks: Seq<AnthropicContentBlock>) -> nat
    decreases blocks.len(),
{
    if blocks.len() == 0 {
        0
    } else {
        blocks_len(blocks.drop_last()) + block_len(blocks.last())
    }
}

/// The bytes of the name of a role.
pub open spec fn role_len(role: AnthropicRole) -> nat {
    match role {
        AnthropicRole::User => 4,
        AnthropicRole::Assistant => 9,
        AnthropicRole::System => 6,
    }
}

/// The bytes that a message counts for.
pub open spec fn message_len(message: AnthropicMessage) -> nat {
    role_len(message.role) + match message.content {
        AnthropicMessageContent::Text { content } => byte_len(content@),
        AnthropicMessageContent::Blocks { content } => blocks_len(content@),
    }
}

/// The bytes that messages count for.
pub open spec fn messages_len(messages: Seq<AnthropicMessage>) -> nat
    decreases messages.len(),
{
    if messages.len() == 0 {
        0
    } else {
        messages_len(messages.drop_last()) + message_len(messages.last())
    }
}

/// The bytes that a tool counts for.
pub open spec fn tool_len(tool: AnthropicTool) -> nat {
    byte_len(tool.name@) + (match tool.description {
        Some(text) => byte_len(text@),
        None => 0,
    }) + (match tool.input_schema {
        Some(schema) => value_len(schema),
        None => 0,
    })
}

/// The bytes that tools count for.
pub open spec fn tools_len(tools: Seq<AnthropicTool>) -> nat
    decreases tools.len(),
{
    if tools.len() == 0 {
        0
    } else {
        tools_len(tools.drop_last()) + tool_len(tools.last())
    }
}

/// The bytes that a request counts for.
pub open spec fn request_len(request: AnthropicCountTokensRequest) -> nat {
    (match request.system {
        Some(system) => byte_len(system.text@),
        None => 0,
    }) + messages_len(request.messages@) + (match request.tools {
        Some(tools) => tools_len(tools@),
        None => 0,
    })
}

/// The tokens that a number of bytes takes: a third, but one where there is anything.
pub open spec fn tokens_for(length: nat) -> u32 {
    if length / 3 == 0 && length > 0 {
        1
    } else {
        ((length / 3) as usize) as u32
    }
}

/// A sum that stops at the machine limit.
fn plus(total: Option<usize>, more: Option<usize>) -> (sum: Option<usize>)
    ensures
        sum == match (total, more) {
            (Some(a), Some(b)) if a + b <= usize::MAX => Some((a + b) as usize),
            _ => None::<usize>,
        },
{
    match (total, more) {
        (Some(a), Some(b)) => a.checked_add(b),
        _ => None,
    }
}

/// Whether a count is of the given length, or the length exceeds the machine limit.
spec fn counts(count: Option<usize>, length: nat) -> bool {
    match count {
        Some(n) => n == length,
        None => length > usize::MAX,
    }
}

fn printed_len(value: &serde_json::Value) -> (length: usize)
    ensures
        length == value_len(*value),
{
    let text = value_text(value);
    bytes_in(text.as_str())
}

fn count_result_block(block: &ToolResultContentBlock) -> (length: usize)
    ensures
        length == result_block_len(*block),
{
    match block {
        ToolResultContentBlock::Text { text } => bytes_in(text.as_str()),
        ToolResultContentBlock::Image { .. } => 256,
        ToolResultContentBlock::Document(document) => match document.text() {
            Some(text) => bytes_in(text.as_str()),
            None => 256,
        },
        ToolResultContentBlock::SearchResult(found) => match found.text() {
            Some(text) => bytes_in(text.as_str()),
            None => 0,
        },
        ToolResultContentBlock::Other(value) => printed_len(value),
    }
}

fn count_result_blocks(blocks: &Vec<ToolResultContentBlock>) -> (length: Option<usize>)
    ensures
        counts(length, result_blocks_len(blocks@)),
{
    let mut total: Option<usize> = Some(0);
    for i in 0..blocks.len()
        invariant
            counts(total, result_blocks_len(blocks@.take(i as int))),
    {
        assert(blocks@.take(i + 1).drop_last() =~= blocks@.take(i as int));
        total = plus(total, Some(count_result_block(&blocks[i])));
    }
    assert(blocks@.take(blocks@.len() as int) =~= blocks@);
    total
}

/// The bytes that a block counts for, where they do not exceed the machine limit.
pub fn estimate_block_len(block: &AnthropicContentBlock) -> (length: Option<usize>)
    ensures
        length matches Some(n) ==> n == block_len(*block),
        length is None ==> block_len(*block) > usize::MAX,
{
    match block {
        AnthropicContentBlock::Text { text, .. } => Some(bytes_in(text.as_str())),
        AnthropicContentBlock::ToolUse { name, input, .. } => plus(
            Some(bytes_in(name.as_str())),
            Some(printed_len(input)),
        ),
        AnthropicContentBlock::ToolResult { content, .. } => match content {
            Some(ToolResultContent::Text(text)) => Some(bytes_in(text.as_str())),
            Some(ToolResultContent::Blocks(blocks)) => count_result_blocks(blocks),
            None => Some(0),
        },
        AnthropicContentBlock::Thinking { thinking, .. } => Some(bytes_in(thinking.as_str())),
        AnthropicContentBlock::RedactedThinking { data } => Some(bytes_in(data.as_str())),
        AnthropicContentBlock::ServerToolUse { name, input, .. } => plus(
            Some(bytes_in(name.as_str())),
            Some(printed_len(input)),
        ),
        AnthropicContentBlock::WebSearchToolResult { content, .. } => Some(printed_len(content)),
        AnthropicContentBlock::Image { .. } => Some(256),
        AnthropicContentBlock::Other(value) => Some(printed_len(value)),
    }
}

fn count_message(message: &AnthropicMessage) -> (length: Option<usize>)
    ensures
        counts(length, message_len(*message)),
{
    let role: usize = match message.role {
        AnthropicRole::User => 4,
        AnthropicRole::Assistant => 9,
        AnthropicRole::System => 6,
    };
    match &message.content {
        AnthropicMessageContent::Text { content } => plus(
            Some(role),
            Some(bytes_in(content.as_str())),
        ),
        AnthropicMessageContent::Blocks { content } => {
            let mut total: Option<usize> = Some(0);
            for i in 0..content.len()
                invariant
                    counts(total, blocks_len(content@.take(i as int))),
            {
                assert(content@.take(i + 1).drop_last() =~= content@.take(i as int));
                total = plus(total, estimate_block_len(&content[i]));
            }
            assert(content@.take(content@.len() as int) =~= content@);
            plus(Some(role), total)
        },
    }
}

fn count_tool(tool: &AnthropicTool) -> (length: Option<usize>)
    ensures
        counts(length, tool_len(*tool)),
{
    let name: usize = bytes_in(tool.name.as_str());
    let description: usize = match &tool.description {
        Some(text) => bytes_in(text.as_str()),
        None => 0,
    };
    let schema: usize = match &tool.input_schema {
        Some(value) => printed_len(value),
        None => 0,
    };
    plus(plus(Some(name), Some(description)), Some(schema))
}

impl AnthropicCountTokensRequest {
    /// The bytes that the request counts for, where they do not exceed the machine limit.
    fn checked_len(&self) -> (length: Option<usize>)
        ensures
            counts(length, request_len(*self)),
    {
        let system: usize = match &self.system {
            Some(system) => bytes_in(system.text.as_str()),
            None => 0,
        };
        let mut messages: Option<usize> = Some(0);
        for i in 0..self.messages.len()
            invariant
                counts(messages, messages_len(self.messages@.take(i as int))),
        {
            assert(self.messages@.take(i + 1).drop_last() =~= self.messages@.take(i as int));
            messages = plus(messages, count_message(&self.messages[i]));
        }
        assert(self.messages@.take(self.messages@.len() as int) =~= self.messages@);
        let mut listed: Option<usize> = Some(0);
        if let Some(tools) = &self.tools {
            for i in 0..tools.len()
                invariant
                    counts(listed, tools_len(tools@.take(i as int))),
            {
                assert(tools@.take(i + 1).drop_last() =~= tools@.take(i as int));
                listed = plus(listed, count_tool(&tools[i]));
            }
            assert(tools@.take(tools@.len() as int) =~= tools@);
        }
        plus(plus(Some(system), messages), listed)
    }

    /// An estimate of the tokens that the request takes.
    pub fn estimate_tokens(&self) -> (tokens: u32)
        requires
            request_len(*self) <= usize::MAX,
        ensures
            tokens == tokens_for(request_len(*self)),
    {
        let length: usize = match self.checked_len() {
            Some(length) => length,
            None => 0,
        };
        let tokens: usize = length / 3;
        if tokens == 0 && length > 0 {
            1
        } else {
            #[verifier::truncate]
            (tokens as u32)
        }
    }

    /// An estimate of the tokens that the request takes, where its bytes do not exceed the
    /// machine limit.
    pub fn try_estimate_tokens(&self) -> (tokens: Option<u32>)
        ensures
            tokens == if request_len(*self) <= usize::MAX {
                Some(tokens_for(request_len(*self)))
            } else {
                None
            },
    {
        match self.checked_len() {
            Some(_) => Some(self.estimate_tokens()),
            None => None,
        }
    }
}

/// A request that says anything is estimated at one token at least, as long as the estimate
/// fits its machine type.
pub proof fn law_estimates_are_positive(request: AnthropicCountTokensRequest)
    requires
        request_len(request) > 0,
        request_len(request) / 3 <= u32::MAX,
        request_len(request) <= usize::MAX,
    ensures
        tokens_for(request_len(request)) >= 1,
        tokens_for(request_len(request)) <= request_len(request),
{
}

} // verus!
