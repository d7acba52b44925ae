//! The content blocks of messages as they are read from JSON.
//!
//! A block names its kind in `type`. Blocks of kinds that are not known are kept as they
//! came. Members that are types of their own are read by the caller, who hands over what
//! became of it: a [`BlockParts`] or a [`ResultBlockParts`].

use vstd::prelude::*;

use crate::anthropic::request::{
    AnthropicImageSource, CacheControl, DocumentBlock, SearchResultBlock, ToolResultContent,
    ToolResultContentBlock,
};
use crate::json::{
    empty_array, empty_object, value_contents, value_items, value_member, value_tree, value_trees,
    Json, JsonView,
};
use crate::text::{concat3, same_text};

verus! {

/// Who wrote a message.
#[derive(Debug, Clone, Copy, PartialEq, Eq, Structural)]
pub enum AnthropicRole {
    User,
    Assistant,
    System,
}

/// A message.
pub struct AnthropicMessage {
    pub role: AnthropicRole,
    pub content: AnthropicMessageContent,
}

/// The content of a message.
pub enum AnthropicMessageContent {
    Text { content: String },
    Blocks { content: Vec<AnthropicContentBlock> },
}

/// A block of the content of a message.
pub enum AnthropicContentBlock {
    Text {
        text: String,
        citations: Option<Vec<serde_json::Value>>,
        cache_control: Option<CacheControl>,
    },
    Image { source: AnthropicImageSource },
    ToolUse {
        id: String,
        name: String,
        input: serde_json::Value,
        cache_control: Option<CacheControl>,
    },
    ToolResult {
        tool_use_id: String,
        content: Option<ToolResultContent>,
        is_error: Option<bool>,
        cache_control: Option<CacheControl>,
    },
    Thinking { thinking: String, signature: String, cache_control: Option<CacheControl> },
    RedactedThinking { data: String },
    ServerToolUse { id: String, name: String, input: serde_json::Value },
    WebSearchToolResult { tool_use_id: String, content: serde_json::Value },
    /// A block of another kind, as it came.
    Other(serde_json::Value),
}

/// What became of the members of a block that are types of their own: the cache hint and the
/// content where they could be read, and the source or why it could not be.
pub struct BlockParts {
    pub cache_control: Option<CacheControl>,
    pub source: Result<AnthropicImageSource, String>,
    pub content: Option<ToolResultContent>,
}

/// What became of a block of a tool result that is read as a type of its own: the source or
/// why it could not be read, and the block as a document and as a hit where it is one.
pub struct ResultBlockParts {
    pub source: Result<AnthropicImageSource, String>,
    pub document: Option<DocumentBlock>,
    pub search_result: Option<SearchResultBlock>,
}

/// The error of a member that is missing or not a text.
pub open spec fn missing_field(name: Seq<char>) -> Seq<char> {
    "missing field `"@ + name + "`"@
}

/// The error of a member that is missing or not a text.
fn missing(name: &str) -> (error: String)
    ensures
        error@ == missing_field(name@),
{
    concat3("missing field `", name, "`")
}

/// The text of a member of a value.
fn member_text(value: &serde_json::Value, name: &str) -> (text: Option<String>)
    ensures
        text.deep_view() == value_tree(*value).get_str(name@),
{
    match value_member(value, name) {
        Some(found) => match value_contents(&found) {
            Json::Str(text) => Some(text),
            _ => None,
        },
        None => None,
    }
}

/// A member of a value that has to be a text.
fn required(value: &serde_json::Value, name: &str) -> (text: Result<String, String>)
    ensures
        text matches Ok(found) ==> value_tree(*value).get_str(name@) == Some(found@),
        text matches Err(error) ==> value_tree(*value).get_str(name@) is None && error@
            == missing_field(name@),
{
    match member_text(value, name) {
        Some(text) => Ok(text),
        None => Err(missing(name)),
    }
}

/// The kind that a value names.
pub open spec fn kind_of(tree: JsonView) -> Seq<char> {
    tree.get_str("type"@).unwrap_or(seq![])
}

/// The error of a value in which the member called `name` is missing or not a text.
pub open spec fn needs(tree: JsonView, name: Seq<char>) -> Option<Seq<char>> {
    if tree.get_str(name) is None {
        Some(missing_field(name))
    } else {
        None
    }
}

/// The error of a value in which one of two members is missing or not a text.
pub open spec fn needs_both(tree: JsonView, first: Seq<char>, second: Seq<char>) -> Option<
    Seq<char>,
> {
    if needs(tree, first) is Some {
        needs(tree, first)
    } else {
        needs(tree, second)
    }
}

/// Why a block cannot be read, if it cannot.
pub open spec fn block_error(tree: JsonView, parts: BlockParts) -> Option<Seq<char>> {
    let kind = kind_of(tree);
    if kind == "text"@ {
        needs(tree, "text"@)
    } else if kind == "image"@ {
        match parts.source {
            Ok(_) => None,
            Err(error) => Some(error@),
        }
    } else if kind == "tool_use"@ {
        needs_both(tree, "id"@, "name"@)
    } else if kind == "tool_result"@ {
        needs(tree, "tool_use_id"@)
    } else if kind == "thinking"@ {
        needs_both(tree, "thinking"@, "signature"@)
    } else if kind == "redacted_thinking"@ {
        needs(tree, "data"@)
    } else if kind == "server_tool_use"@ {
        needs_both(tree, "id"@, "name"@)
    } else if kind == "web_search_tool_result"@ {
        needs(tree, "tool_use_id"@)
    } else {
        None
    }
}

/// The citations of a text block: the items of an array, and none of anything else.
pub open spec fn citations_of(tree: JsonView) -> Option<Seq<JsonView>> {
    match tree.get("citations"@) {
        Some(JsonView::Array(items)) => Some(items),
        _ => None,
    }
}

/// Whether a tool result says that it is, or is not, an error.
pub open spec fn is_error_of(tree: JsonView) -> Option<bool> {
    match tree.get("is_error"@) {
        Some(JsonView::Bool(flag)) => Some(flag),
        _ => None,
    }
}

/// Whether a block is what a value denotes.
pub open spec fn is_block(
    block: AnthropicContentBlock,
    tree: JsonView,
    parts: BlockParts,
) -> bool {
    let kind = kind_of(tree);
    if kind == "text"@ {
        block matches AnthropicContentBlock::Text { text, citations, cache_control } && {
            &&& tree.get_str("text"@) == Some(text@)
            &&& cache_control == parts.cache_control
            &&& match citations {
                Some(items) => citations_of(tree) == Some(value_trees(items@)),
                None => citations_of(tree) is None,
            }
        }
    } else if kind == "image"@ {
        block matches AnthropicContentBlock::Image { source } && parts.source == Ok::<
            AnthropicImageSource,
            String,
        >(source)
    } else if kind == "tool_use"@ {
        block matches AnthropicContentBlock::ToolUse { id, name, input, cache_control } && {
            &&& tree.get_str("id"@) == Some(id@)
            &&& tree.get_str("name"@) == Some(name@)
            &&& value_tree(input) == tree.get("input"@).unwrap_or(JsonView::Object(seq![]))
            &&& cache_control == parts.cache_control
        }
    } else if kind == "tool_result"@ {
        block matches AnthropicContentBlock::ToolResult {
            tool_use_id,
            content,
            is_error,
            cache_control,
        } && {
            &&& tree.get_str("tool_use_id"@) == Some(tool_use_id@)
            &&& content == parts.content
            &&& is_error == is_error_of(tree)
            &&& cache_control == parts.cache_control
        }
    } else if kind == "thinking"@ {
        block matches AnthropicContentBlock::Thinking { thinking, signature, cache_control } && {
            &&& tree.get_str("thinking"@) == Some(thinking@)
            &&& tree.get_str("signature"@) == Some(signature@)
            &&& cache_control == parts.cache_control
        }
    } else if kind == "redacted_thinking"@ {
        block matches AnthropicContentBlock::RedactedThinking { data } && tree.get_str("data"@)
            == Some(data@)
    } else if kind == "server_tool_use"@ {
        block matches AnthropicContentBlock::ServerToolUse { id, name, input } && {
            &&& tree.get_str("id"@) == Some(id@)
            &&& tree.get_str("name"@) == Some(name@)
            &&& value_tree(input) == tree.get("input"@).unwrap_or(JsonView::Object(seq![]))
        }
    } else if kind == "web_search_tool_result"@ {
        block matches AnthropicContentBlock::WebSearchToolResult { tool_use_id, content } && {
            &&& tree.get_str("tool_use_id"@) == Some(tool_use_id@)
            &&& value_tree(content) == tree.get("content"@).unwrap_or(JsonView::Array(seq![]))
        }
    } else {
        block matches AnthropicContentBlock::Other(value) && value_tree(value) == tree
    }
}

/// The input of a call, or no arguments.
fn input_of(value: &serde_json::Value) -> (input: serde_json::Value)
    ensures
        value_tree(input) == value_tree(*value).get("input"@).unwrap_or(
            JsonView::Object(seq![]),
        ),
{
    match value_member(value, "input") {
        Some(input) => input,
        None => empty_object(),
    }
}

/// The citations of a text block.
fn citations_in(value: &serde_json::Value) -> (citations: Option<Vec<serde_json::Value>>)
    ensures
        match citations {
            Some(items) => citations_of(value_tree(*value)) == Some(value_trees(items@)),
            None => citations_of(value_tree(*value)) is None,
        },
{
    match value_member(value, "citations") {
        Some(found) => value_items(&found),
        None => None,
    }
}

/// Whether a tool result says that it is, or is not, an error.
fn error_flag(value: &serde_json::Value) -> (flag: Option<bool>)
    ensures
        flag == is_error_of(value_tree(*value)),
{
    match value_member(value, "is_error") {
        Some(found) => match value_contents(&found) {
            Json::Bool(flag) => Some(flag),
            _ => None,
        },
        None => None,
    }
}

impl AnthropicContentBlock {
    /// A text block.
    fn text_block(value: &serde_json::Value, parts: BlockParts) -> (result: Result<
        AnthropicContentBlock,
        String,
    >)
        requires
            kind_of(value_tree(*value)) == "text"@,
        ensures
            reads_block(result, value_tree(*value), parts),
    {
        match required(value, "text") {
            Ok(text) => Ok(
                AnthropicContentBlock::Text {
                    text,
                    citations: citations_in(value),
                    cache_control: parts.cache_control,
                },
            ),
            Err(error) => Err(error),
        }
    }

    /// A call.
    fn tool_use_block(value: &serde_json::Value, parts: BlockParts, server: bool) -> (result:
        Result<AnthropicContentBlock, String>)
        requires
            kind_of(value_tree(*value)) == if server {
                "server_tool_use"@
            } else {
                "tool_use"@
            },
            kind_of(value_tree(*value)) != "text"@,
            kind_of(value_tree(*value)) != "image"@,
            server ==> {
                &&& kind_of(value_tree(*value)) != "tool_use"@
                &&& kind_of(value_tree(*value)) != "tool_result"@
                &&& kind_of(value_tree(*value)) != "thinking"@
                &&& kind_of(value_tree(*value)) != "redacted_thinking"@
            },
        ensures
            reads_block(result, value_tree(*value), parts),
    {
        let id = match required(value, "id") {
            Ok(id) => id,
            Err(error) => {
                return Err(error);
            },
        };
        let name = match required(value, "name") {
            Ok(name) => name,
            Err(error) => {
                return Err(error);
            },
        };
        let input = input_of(value);
        if server {
            Ok(AnthropicContentBlock::ServerToolUse { id, name, input })
        } else {
            Ok(
                AnthropicContentBlock::ToolUse {
                    id,
                    name,
                    input,
                    cache_control: parts.cache_control,
                },
            )
        }
    }

    /// The block that a value denotes.
    pub fn from_value(value: serde_json::Value, parts: BlockParts) -> (result: Result<
        AnthropicContentBlock,
        String,
    >)
        ensures
            reads_block(result, value_tree(value), parts),
    {
        let kind = match member_text(&value, "type") {
            Some(kind) => kind,
            None => String::new(),
        };
        assert(kind@ == kind_of(value_tree(value)));
        if same_text(kind.as_str(), "text") {
            return Self::text_block(&value, parts);
        }
        if same_text(kind.as_str(), "image") {
            return match parts.source {
                Ok(source) => Ok(AnthropicContentBlock::Image { source }),
                Err(error) => Err(error),
            };
        }
        if same_text(kind.as_str(), "tool_use") {
            return Self::tool_use_block(&value, parts, false);
        }
        if same_text(kind.as_str(), "tool_result") {
            return match required(&value, "tool_use_id") {
                Ok(tool_use_id) => Ok(
                    AnthropicContentBlock::ToolResult {
                        tool_use_id,
                        content: parts.content,
                        is_error: error_flag(&value),
                        cache_control: parts.cache_control,
                    },
                ),
                Err(error) => Err(error),
            };
        }
        if same_text(kind.as_str(), "thinking") {
            let thinking = match required(&value, "thinking") {
                Ok(thinking) => thinking,
                Err(error) => {
                    return Err(error);
                },
            };
            return match required(&value, "signature") {
                Ok(signature) => Ok(
                    AnthropicContentBlock::Thinking {
                        thinking,
                        signature,
                        cache_control: parts.cache_control,
                    },
                ),
                Err(error) => Err(error),
            };
        }
        if same_text(kind.as_str(), "redacted_thinking") {
            return match required(&value, "data") {
                Ok(data) => Ok(AnthropicContentBlock::RedactedThinking { data }),
                Err(error) => Err(error),
            };
        }
        if same_text(kind.as_str(), "server_tool_use") {
            return Self::tool_use_block(&value, parts, true);
        }
        if same_text(kind.as_str(), "web_search_tool_result") {
            let content = match value_member(&value, "content") {
                Some(content) => content,
                None => empty_array(),
            };
            return match required(&value, "tool_use_id") {
                Ok(tool_use_id) => Ok(
                    AnthropicContentBlock::WebSearchToolResult { tool_use_id, content },
                ),
                Err(error) => Err(error),
            };
        }
        Ok(AnthropicContentBlock::Other(value))
    }
}

/// Whether a result is the block that a value denotes, or why it denotes none.
pub open spec fn reads_block(
    result: Result<AnthropicContentBlock, String>,
    tree: JsonView,
    parts: BlockParts,
) -> bool {
    match result {
        Ok(block) => block_error(tree, parts) is None && is_block(block, tree, parts),
        Err(error) => block_error(tree, parts) == Some(error@),
    }
}

/// Why a block of a tool result cannot be read, if it cannot.
pub open spec fn result_block_error(tree: JsonView, parts: ResultBlockParts) -> Option<Seq<char>> {
    let kind = tree.get_str("type"@);
    if kind == Some("text"@) {
        needs(tree, "text"@)
    } else if kind == Some("image"@) {
        match parts.source {
            Ok(_) => None,
            Err(error) => Some(error@),
        }
    } else {
        None
    }
}

/// Whether a block of a tool result is what a value denotes. A value that names no kind but
/// has a text is a text; a document or a hit that cannot be read is kept as it came.
pub open spec fn is_result_block(
    block: ToolResultContentBlock,
    tree: JsonView,
    parts: ResultBlockParts,
) -> bool {
    let kind = tree.get_str("type"@);
    if kind == Some("text"@) || (kind is None && tree.get_str("text"@) is Some) {
        block matches ToolResultContentBlock::Text { text } && tree.get_str("text"@) == Some(text@)
    } else if kind == Some("image"@) {
        block matches ToolResultContentBlock::Image { source } && parts.source == Ok::<
            AnthropicImageSource,
            String,
        >(source)
    } else if kind == Some("document"@) && parts.document is Some {
        block matches ToolResultContentBlock::Document(document) && parts.document == Some(
            document,
        )
    } else if kind == Some("search_result"@) && parts.search_result is Some {
        block matches ToolResultContentBlock::SearchResult(found) && parts.search_result == Some(
            found,
        )
    } else {
        block matches ToolResultContentBlock::Other(value) && value_tree(value) == tree
    }
}

impl ToolResultContentBlock {
    /// The block of a tool result that a value denotes.
    pub fn from_value(value: serde_json::Value, parts: ResultBlockParts) -> (result: Result<
        ToolResultContentBlock,
        String,
    >)
        ensures
            match result {
                Ok(block) => result_block_error(value_tree(value), parts) is None
                    && is_result_block(block, value_tree(value), parts),
                Err(error) => result_block_error(value_tree(value), parts) == Some(error@),
            },
    {
        let kind = match member_text(&value, "type") {
            Some(kind) => kind,
            None => {
                return match member_text(&value, "text") {
                    Some(text) => Ok(ToolResultContentBlock::Text { text }),
                    None => Ok(ToolResultContentBlock::Other(value)),
                };
            },
        };
        if same_text(kind.as_str(), "text") {
            return match required(&value, "text") {
                Ok(text) => Ok(ToolResultContentBlock::Text { text }),
                Err(error) => Err(error),
            };
        }
        if same_text(kind.as_str(), "image") {
            return match parts.source {
                Ok(source) => Ok(ToolResultContentBlock::Image { source }),
                Err(error) => Err(error),
            };
        }
        proof {
            reveal_strlit("document");
            reveal_strlit("search_result");
            assert("document"@.len() != "search_result"@.len());
        }
        if same_text(kind.as_str(), "document") {
            return match parts.document {
                Some(document) => Ok(ToolResultContentBlock::Document(document)),
                None => Ok(ToolResultContentBlock::Other(value)),
            };
        }
        if same_text(kind.as_str(), "search_result") {
            return match parts.search_result {
                Some(found) => Ok(ToolResultContentBlock::SearchResult(found)),
                None => Ok(ToolResultContentBlock::Other(value)),
            };
        }
        Ok(ToolResultContentBlock::Other(value))
    }
}

/// What a value is, for a client that sent it in place of a text or blocks.
pub open spec fn shape_of(tree: JsonView) -> Seq<char> {
    match tree {
        JsonView::Null => "null"@,
        JsonView::Bool(_) => "a boolean"@,
        JsonView::Number(_) => "a number"@,
        JsonView::Object(_) => "an object"@,
        JsonView::Str(_) => seq![],
        JsonView::Array(_) => seq![],
    }
}

impl AnthropicMessageContent {
    /// The content that a value denotes: a text, or blocks. `blocks` is what became of an
    /// array when it was read as blocks.
    pub fn from_value(
        value: &serde_json::Value,
        blocks: Result<Vec<AnthropicContentBlock>, String>,
    ) -> (result: Result<AnthropicMessageContent, String>)
        ensures
            match (value_tree(*value), result) {
                (JsonView::Str(text), Ok(AnthropicMessageContent::Text { content })) => content@
                    == text,
                (JsonView::Str(_), _) => false,
                (JsonView::Array(_), Ok(AnthropicMessageContent::Blocks { content })) => blocks
                    == Ok::<Vec<AnthropicContentBlock>, String>(content),
                (JsonView::Array(_), Err(error)) => blocks == Err::<
                    Vec<AnthropicContentBlock>,
                    String,
                >(error),
                (JsonView::Array(_), _) => false,
                (tree, Err(error)) => error@
                    == "message `content` must be a string or an array of content blocks, got "@
                    + shape_of(tree),
                _ => false,
            },
    {
        let shape = match value_contents(value) {
            Json::Str(text) => {
                return Ok(AnthropicMessageContent::Text { content: text });
            },
            Json::Array(_) => {
                return match blocks {
                    Ok(content) => Ok(AnthropicMessageContent::Blocks { content }),
                    Err(error) => Err(error),
                };
            },
            Json::Null => "null",
            Json::Bool(_) => "a boolean",
            Json::Number(_) => "a number",
            Json::Object(_) => "an object",
        };
        let mut error =
            "message `content` must be a string or an array of content blocks, got ".to_owned();
        error.append(shape);
        Err(error)
    }
}

/// A block of a kind that is not known is kept as it came, whatever it holds.
pub proof fn law_unknown_blocks_are_kept(
    result: Result<AnthropicContentBlock, String>,
    tree: JsonView,
    parts: BlockParts,
)
    requires
        reads_block(result, tree, parts),
        ![
            "text"@,
            "image"@,
            "tool_use"@,
            "tool_result"@,
            "thinking"@,
            "redacted_thinking"@,
            "server_tool_use"@,
            "web_search_tool_result"@,
        ]@.contains(kind_of(tree)),
    ensures
        result matches Ok(AnthropicContentBlock::Other(value)) && value_tree(value) == tree,
{
}

} // verus!
