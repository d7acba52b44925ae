//! What holds of the parts of a request: how blocks are read, which text they hold, how long a
//! prompt is to be cached, and what a request is estimated at.

use vstd::prelude::*;

use crate::anthropic::blocks::{
    is_result_block, reads_block, result_block_error, AnthropicContentBlock,
    AnthropicMessageContent, AnthropicMessage, AnthropicRole, BlockParts, ResultBlockParts,
};
use crate::anthropic::count::{
    block_len, blocks_len, message_len, messages_len, request_len, result_block_len, result_blocks_len,
    tokens_for, tool_len, tools_len, AnthropicCountTokensRequest, AnthropicTool,
};
use crate::anthropic::request::{
    full_text, last_hint, nested_text, own_text, ttl_of, CacheControl, DocumentSource, SystemBlock,
    ToolResultContent, ToolResultContentBlock,
};
use crate::json::{printed_json, value_tree, value_trees, JsonView};
use crate::number::parsed_u64;
use crate::text::byte_len;

verus! {

/// Whether a value has a member that is the given text.
pub open spec fn has_text(tree: JsonView, name: Seq<char>, text: Seq<char>) -> bool {
    tree.get(name) == Some(JsonView::Str(text))
}

/// Whether a member of a value is missing or not a text.
pub open spec fn lacks_text(tree: JsonView, name: Seq<char>) -> bool {
    !(tree.get(name) matches Some(JsonView::Str(_)))
}

/// Whether an error says that a member is missing, and it is.
pub open spec fn says_missing(error: Seq<char>, tree: JsonView, name: Seq<char>) -> bool {
    lacks_text(tree, name) && error == "missing field `"@ + name + "`"@
}

/// No kind of a block is called as another, and none has the empty name.
proof fn lemma_kinds_differ()
    ensures
        "text"@.len() == 4,
        "image"@.len() == 5,
        "tool_use"@.len() == 8,
        "tool_result"@.len() == 11,
        "thinking"@.len() == 8,
        "redacted_thinking"@.len() == 17,
        "server_tool_use"@.len() == 15,
        "web_search_tool_result"@.len() == 22,
        "tool_use"@ != "thinking"@,
{
    reveal_strlit("text");
    reveal_strlit("image");
    reveal_strlit("tool_use");
    reveal_strlit("tool_result");
    reveal_strlit("thinking");
    reveal_strlit("redacted_thinking");
    reveal_strlit("server_tool_use");
    reveal_strlit("web_search_tool_result");
    assert("tool_use"@[1] != "thinking"@[1]);
}

/// A block that was read says what its value says: it is of the kind that `type` names, and
/// each of its texts is the member of that name.
pub proof fn law_blocks_say_what_their_values_say(
    result: Result<AnthropicContentBlock, String>,
    tree: JsonView,
    parts: BlockParts,
)
    requires
        reads_block(result, tree, parts),
    ensures
        result matches Ok(block) ==> match block {
            AnthropicContentBlock::Text { text, citations, cache_control } => {
                &&& has_text(tree, "type"@, "text"@)
                &&& has_text(tree, "text"@, text@)
                &&& cache_control == parts.cache_control
                &&& match tree.get("citations"@) {
                    Some(JsonView::Array(items)) => citations matches Some(all) && value_trees(all@)
                        == items,
                    _ => citations is None,
                }
            },
            AnthropicContentBlock::Image { source } => {
                &&& has_text(tree, "type"@, "image"@)
                &&& parts.source matches Ok(given) && given == source
            },
            AnthropicContentBlock::ToolUse { id, name, input, cache_control } => {
                &&& has_text(tree, "type"@, "tool_use"@)
                &&& has_text(tree, "id"@, id@)
                &&& has_text(tree, "name"@, name@)
                &&& match tree.get("input"@) {
                    Some(given) => value_tree(input) == given,
                    None => value_tree(input) == JsonView::Object(seq![]),
                }
                &&& cache_control == parts.cache_control
            },
            AnthropicContentBlock::ToolResult { tool_use_id, content, is_error, cache_control } => {
                &&& has_text(tree, "type"@, "tool_result"@)
                &&& has_text(tree, "tool_use_id"@, tool_use_id@)
                &&& content == parts.content
                &&& match tree.get("is_error"@) {
                    Some(JsonView::Bool(flag)) => is_error == Some(flag),
                    _ => is_error is None,
                }
                &&& cache_control == parts.cache_control
            },
            AnthropicContentBlock::Thinking { thinking, signature, cache_control } => {
                &&& has_text(tree, "type"@, "thinking"@)
                &&& has_text(tree, "thinking"@, thinking@)
                &&& has_text(tree, "signature"@, signature@)
                &&& cache_control == parts.cache_control
            },
            AnthropicContentBlock::RedactedThinking { data } => {
                &&& has_text(tree, "type"@, "redacted_thinking"@)
                &&& has_text(tree, "data"@, data@)
            },
            AnthropicContentBlock::ServerToolUse { id, name, input } => {
                &&& has_text(tree, "type"@, "server_tool_use"@)
                &&& has_text(tree, "id"@, id@)
                &&& has_text(tree, "name"@, name@)
                &&& match tree.get("input"@) {
                    Some(given) => value_tree(input) == given,
                    None => value_tree(input) == JsonView::Object(seq![]),
                }
            },
            AnthropicContentBlock::WebSearchToolResult { tool_use_id, content } => {
                &&& has_text(tree, "type"@, "web_search_tool_result"@)
                &&& has_text(tree, "tool_use_id"@, tool_use_id@)
                &&& match tree.get("content"@) {
                    Some(given) => value_tree(content) == given,
                    None => value_tree(content) == JsonView::Array(seq![]),
                }
            },
            AnthropicContentBlock::Other(value) => value_tree(value) == tree,
        },
{
    lemma_kinds_differ();
}

/// A block is refused exactly where a text that its kind asks for is missing, which the error
/// then names, or where the source of an image could not be read.
pub proof fn law_blocks_are_refused_for_what_they_lack(
    result: Result<AnthropicContentBlock, String>,
    tree: JsonView,
    parts: BlockParts,
)
    requires
        reads_block(result, tree, parts),
    ensures
        match tree.get("type"@) {
            Some(JsonView::Str(kind)) => {
                &&& kind == "text"@ ==> (result is Err) == lacks_text(tree, "text"@)
                &&& kind == "image"@ ==> (result is Err) == (parts.source is Err)
                &&& kind == "tool_use"@ || kind == "server_tool_use"@ ==> (result is Err) == (
                lacks_text(tree, "id"@) || lacks_text(tree, "name"@))
                &&& kind == "tool_result"@ || kind == "web_search_tool_result"@ ==> (result is Err)
                    == lacks_text(tree, "tool_use_id"@)
                &&& kind == "thinking"@ ==> (result is Err) == (lacks_text(tree, "thinking"@)
                    || lacks_text(tree, "signature"@))
                &&& kind == "redacted_thinking"@ ==> (result is Err) == lacks_text(tree, "data"@)
                &&& result matches Err(error) ==> {
                    ||| says_missing(error@, tree, "text"@)
                    ||| kind == "image"@ && (parts.source matches Err(given) && given@ == error@)
                    ||| says_missing(error@, tree, "id"@)
                    ||| says_missing(error@, tree, "name"@)
                    ||| says_missing(error@, tree, "tool_use_id"@)
                    ||| says_missing(error@, tree, "thinking"@)
                    ||| says_missing(error@, tree, "signature"@)
                    ||| says_missing(error@, tree, "data"@)
                }
            },
            _ => result is Ok,
        },
{
    lemma_kinds_differ();
}

/// A block of a tool result that was read says what its value says. One of a kind that is not
/// known, or that could not be read as what it names, is kept as it came.
pub proof fn law_result_blocks_say_what_their_values_say(
    block: ToolResultContentBlock,
    tree: JsonView,
    parts: ResultBlockParts,
)
    requires
        result_block_error(tree, parts) is None,
        is_result_block(block, tree, parts),
    ensures
        match block {
            ToolResultContentBlock::Text { text } => {
                &&& has_text(tree, "text"@, text@)
                &&& has_text(tree, "type"@, "text"@) || lacks_text(tree, "type"@)
            },
            ToolResultContentBlock::Image { source } => {
                &&& has_text(tree, "type"@, "image"@)
                &&& parts.source matches Ok(given) && given == source
            },
            ToolResultContentBlock::Document(document) => {
                &&& has_text(tree, "type"@, "document"@)
                &&& parts.document == Some(document)
            },
            ToolResultContentBlock::SearchResult(found) => {
                &&& has_text(tree, "type"@, "search_result"@)
                &&& parts.search_result == Some(found)
            },
            ToolResultContentBlock::Other(value) => {
                &&& value_tree(value) == tree
                &&& !has_text(tree, "type"@, "text"@)
                &&& !has_text(tree, "type"@, "image"@)
                &&& has_text(tree, "type"@, "document"@) ==> parts.document is None
                &&& has_text(tree, "type"@, "search_result"@) ==> parts.search_result is None
                &&& lacks_text(tree, "type"@) ==> lacks_text(tree, "text"@)
            },
        },
{
    reveal_strlit("text");
    reveal_strlit("image");
    reveal_strlit("document");
    reveal_strlit("search_result");
}

/// The blocks of a tool result hold the texts of the text blocks, in their order: what two runs
/// of blocks hold is what each holds. A block of another kind holds none.
pub proof fn law_nested_texts_are_kept_in_order(
    first: Seq<ToolResultContentBlock>,
    second: Seq<ToolResultContentBlock>,
)
    ensures
        own_text(first + second) == own_text(first) + own_text(second),
        first.len() == 1 ==> match first[0] {
            ToolResultContentBlock::Text { text } => nested_text(first) == Some(text@),
            _ => nested_text(first) is None && own_text(first).len() == 0,
        },
        nested_text(first) is Some ==> nested_text(first + second) == Some(
            own_text(first) + own_text(second),
        ),
        nested_text(second) is Some ==> nested_text(first + second) == Some(
            own_text(first) + own_text(second),
        ),
        nested_text(first) is None && nested_text(second) is None ==> nested_text(first + second)
            is None,
    decreases second.len(),
{
    let all = first + second;
    if second.len() > 0 {
        law_nested_texts_are_kept_in_order(first, second.drop_last());
        assert(all.drop_last() =~= first + second.drop_last());
        assert(all.last() == second.last());
        assert(own_text(all) =~= own_text(first) + own_text(second));
    } else {
        assert(all =~= first);
        assert(own_text(first) + own_text(second) =~= own_text(first));
    }
    if nested_text(first) is Some {
        let i = choose|i: int| 0 <= i < first.len() && (#[trigger] first[i]) is Text;
        assert(all[i] is Text);
    }
    if nested_text(second) is Some {
        let i = choose|i: int| 0 <= i < second.len() && (#[trigger] second[i]) is Text;
        assert(all[first.len() + i] is Text);
    }
    if nested_text(all) is Some {
        let i = choose|i: int| 0 <= i < all.len() && (#[trigger] all[i]) is Text;
        if i < first.len() {
            assert(first[i] is Text);
        } else {
            assert(second[i - first.len()] is Text);
        }
    }
    if first.len() == 1 {
        assert(first.drop_last() =~= seq![]);
        assert(own_text(first.drop_last()) =~= seq![]);
        if let ToolResultContentBlock::Text { text } = first[0] {
            assert(first[0] is Text);
            assert(own_text(first) =~= text@);
        }
    }
}

/// A tool result holds the texts of its blocks, in their order: a text as it is, of a document
/// or a hit the text in it, and nothing of an image or of what is not known.
pub proof fn law_results_hold_the_texts_of_their_blocks(
    first: Seq<ToolResultContentBlock>,
    second: Seq<ToolResultContentBlock>,
    content: ToolResultContent,
)
    ensures
        full_text(first + second) == full_text(first) + full_text(second),
        first.len() == 1 ==> full_text(first) == match first[0] {
            ToolResultContentBlock::Text { text } => text@,
            ToolResultContentBlock::Document(document) => match document.source {
                DocumentSource::Text { data, .. } => data@,
                DocumentSource::Content { content } => own_text(content@),
                _ => seq![],
            },
            ToolResultContentBlock::SearchResult(found) => own_text(found.content@),
            _ => seq![],
        },
        content.text_of() == match content {
            ToolResultContent::Text(text) => text@,
            ToolResultContent::Blocks(blocks) => full_text(blocks@),
        },
    decreases second.len(),
{
    let all = first + second;
    if second.len() > 0 {
        law_results_hold_the_texts_of_their_blocks(first, second.drop_last(), content);
        assert(all.drop_last() =~= first + second.drop_last());
        assert(all.last() == second.last());
        assert(full_text(all) =~= full_text(first) + full_text(second));
    } else {
        assert(all =~= first);
        assert(full_text(first) + full_text(second) =~= full_text(first));
    }
    if first.len() == 1 {
        assert(first.drop_last() =~= seq![]);
        assert(full_text(first.drop_last()) =~= seq![]);
        match first[0] {
            ToolResultContentBlock::Document(document) => {
                if let DocumentSource::Content { content } = document.source {
                    lemma_no_text(content@);
                }
            },
            ToolResultContentBlock::SearchResult(found) => {
                lemma_no_text(found.content@);
            },
            _ => {},
        }
    }
}

proof fn lemma_no_text(blocks: Seq<ToolResultContentBlock>)
    ensures
        nested_text(blocks) is None ==> own_text(blocks) == Seq::<char>::empty(),
    decreases blocks.len(),
{
    if nested_text(blocks) is None && blocks.len() > 0 {
        let rest = blocks.drop_last();
        if nested_text(rest) is Some {
            let i = choose|i: int| 0 <= i < rest.len() && (#[trigger] rest[i]) is Text;
            assert(blocks[i] is Text);
        }
        assert(!(blocks[blocks.len() - 1] is Text));
        lemma_no_text(rest);
    }
}

/// A prompt is cached for five minutes at least and an hour at most. A number of seconds in
/// between is taken as it is, and beyond them the nearer bound; what cannot be read asks for the
/// shortest time.
pub proof fn law_cache_times_are_within_bounds(ttl: Seq<char>, seconds: u64)
    ensures
        300 <= ttl_of(Some(ttl)) <= 3600,
        ttl_of(None) == 300,
        ttl == "5m"@ ==> ttl_of(Some(ttl)) == 300,
        ttl == "1h"@ ==> ttl_of(Some(ttl)) == 3600,
        parsed_u64(ttl) == Some(seconds) && 300 <= seconds <= 3600 ==> ttl_of(Some(ttl)) == seconds,
        parsed_u64(ttl) == Some(seconds) && seconds < 300 ==> ttl_of(Some(ttl)) == 300,
        parsed_u64(ttl) == Some(seconds) && seconds > 3600 ==> ttl_of(Some(ttl)) == 3600,
        parsed_u64(ttl) is None && ttl != "1h"@ ==> ttl_of(Some(ttl)) == 300,
{
    reveal_strlit("5m");
    reveal_strlit("1h");
    if ttl == "5m"@ {
        assert(ttl[1] == 'm');
    }
    if ttl == "1h"@ {
        assert(ttl[1] == 'h');
        assert("5m"@[1] == 'm');
    }
}

/// Of the cache hints of a system prompt the last counts.
pub proof fn law_the_last_hint_counts(blocks: Seq<SystemBlock>, hint: CacheControl)
    ensures
        last_hint(blocks) is None <==> forall|i: int|
            0 <= i < blocks.len() ==> (#[trigger] blocks[i]).cache_control is None,
        last_hint(blocks) == Some(hint) ==> exists|k: int|
            {
                &&& 0 <= k < blocks.len()
                &&& (#[trigger] blocks[k]).cache_control == Some(hint)
                &&& forall|i: int|
                    k < i < blocks.len() ==> (#[trigger] blocks[i]).cache_control is None
            },
    decreases blocks.len(),
{
    if blocks.len() > 0 {
        let rest = blocks.drop_last();
        let last = blocks.len() - 1;
        law_the_last_hint_counts(rest, hint);
        if blocks[last].cache_control is None {
            if last_hint(rest) is None {
                assert forall|i: int| 0 <= i < blocks.len() implies (
                #[trigger] blocks[i]).cache_control is None by {
                    if i < last {
                        assert(rest[i] == blocks[i]);
                    }
                }
            } else {
                let h = last_hint(rest)->0;
                law_the_last_hint_counts(rest, h);
                let k = choose|k: int|
                    {
                        &&& 0 <= k < rest.len()
                        &&& (#[trigger] rest[k]).cache_control == Some(h)
                        &&& forall|i: int|
                            k < i < rest.len() ==> (#[trigger] rest[i]).cache_control is None
                    };
                assert(blocks[k].cache_control == Some(h));
                assert forall|i: int| k < i < blocks.len() implies (
                #[trigger] blocks[i]).cache_control is None by {
                    if i < last {
                        assert(rest[i] == blocks[i]);
                    }
                }
            }
        } else {
            assert(blocks[last].cache_control is Some);
        }
    }
}

proof fn lemma_messages_len_adds_up(first: Seq<AnthropicMessage>, second: Seq<AnthropicMessage>)
    ensures
        messages_len(first + second) == messages_len(first) + messages_len(second),
    decreases second.len(),
{
    if second.len() > 0 {
        lemma_messages_len_adds_up(first, second.drop_last());
        assert((first + second).drop_last() =~= first + second.drop_last());
        assert((first + second).last() == second.last());
    } else {
        assert(first + second =~= first);
    }
}

proof fn lemma_tools_len_adds_up(first: Seq<AnthropicTool>, second: Seq<AnthropicTool>)
    ensures
        tools_len(first + second) == tools_len(first) + tools_len(second),
    decreases second.len(),
{
    if second.len() > 0 {
        lemma_tools_len_adds_up(first, second.drop_last());
        assert((first + second).drop_last() =~= first + second.drop_last());
        assert((first + second).last() == second.last());
    } else {
        assert(first + second =~= first);
    }
}

proof fn lemma_blocks_len_adds_up(first: Seq<AnthropicContentBlock>, second: Seq<AnthropicContentBlock>)
    ensures
        blocks_len(first + second) == blocks_len(first) + blocks_len(second),
    decreases second.len(),
{
    if second.len() > 0 {
        lemma_blocks_len_adds_up(first, second.drop_last());
        assert((first + second).drop_last() =~= first + second.drop_last());
        assert((first + second).last() == second.last());
    } else {
        assert(first + second =~= first);
    }
}

proof fn lemma_result_blocks_len_adds_up(first: Seq<ToolResultContentBlock>, second: Seq<ToolResultContentBlock>)
    ensures
        result_blocks_len(first + second) == result_blocks_len(first) + result_blocks_len(second),
    decreases second.len(),
{
    if second.len() > 0 {
        lemma_result_blocks_len_adds_up(first, second.drop_last());
        assert((first + second).drop_last() =~= first + second.drop_last());
        assert((first + second).last() == second.last());
    } else {
        assert(first + second =~= first);
    }
}

/// What runs of messages, tools and blocks count for is the sum of what their parts count for,
/// wherever they are parted: each counts once.
pub proof fn law_counts_add_up(
    messages: (Seq<AnthropicMessage>, Seq<AnthropicMessage>),
    tools: (Seq<AnthropicTool>, Seq<AnthropicTool>),
    blocks: (Seq<AnthropicContentBlock>, Seq<AnthropicContentBlock>),
    results: (Seq<ToolResultContentBlock>, Seq<ToolResultContentBlock>),
)
    ensures
        messages_len(messages.0 + messages.1) == messages_len(messages.0) + messages_len(
            messages.1,
        ),
        tools_len(tools.0 + tools.1) == tools_len(tools.0) + tools_len(tools.1),
        blocks_len(blocks.0 + blocks.1) == blocks_len(blocks.0) + blocks_len(blocks.1),
        result_blocks_len(results.0 + results.1) == result_blocks_len(results.0)
            + result_blocks_len(results.1),
        messages.0.len() == 0 ==> messages_len(messages.0) == 0,
        messages.0.len() == 1 ==> messages_len(messages.0) == message_len(messages.0[0]),
        tools.0.len() == 0 ==> tools_len(tools.0) == 0,
        tools.0.len() == 1 ==> tools_len(tools.0) == tool_len(tools.0[0]),
        blocks.0.len() == 0 ==> blocks_len(blocks.0) == 0,
        blocks.0.len() == 1 ==> blocks_len(blocks.0) == block_len(blocks.0[0]),
        results.0.len() == 0 ==> result_blocks_len(results.0) == 0,
        results.0.len() == 1 ==> result_blocks_len(results.0) == result_block_len(results.0[0]),
{
    lemma_messages_len_adds_up(messages.0, messages.1);
    lemma_tools_len_adds_up(tools.0, tools.1);
    lemma_blocks_len_adds_up(blocks.0, blocks.1);
    lemma_result_blocks_len_adds_up(results.0, results.1);
    reveal_with_fuel(messages_len, 2);
    reveal_with_fuel(tools_len, 2);
    reveal_with_fuel(blocks_len, 2);
    reveal_with_fuel(result_blocks_len, 2);
}

/// A request counts for its system prompt, its messages and its tools. A message counts for the
/// name of its role and for its content, and a tool for its name, its description and its schema.
pub proof fn law_requests_count_for_what_they_say(
    request: AnthropicCountTokensRequest,
    message: AnthropicMessage,
    tool: AnthropicTool,
)
    ensures
        request_len(request) == (if request.system is Some {
            byte_len(request.system->0.text@)
        } else {
            0
        }) + messages_len(request.messages@) + (if request.tools is Some {
            tools_len(request.tools->0@)
        } else {
            0
        }),
        message_len(message) == byte_len(role_name(message.role)) + match message.content {
            AnthropicMessageContent::Text { content } => byte_len(content@),
            AnthropicMessageContent::Blocks { content } => blocks_len(content@),
        },
        tool_len(tool) == byte_len(tool.name@) + (if tool.description is Some {
            byte_len(tool.description->0@)
        } else {
            0
        }) + (if tool.input_schema is Some {
            byte_len(printed_json(value_tree(tool.input_schema->0)))
        } else {
            0
        }),
{
    let name = role_name(message.role);
    reveal_strlit("user");
    reveal_strlit("assistant");
    reveal_strlit("system");
    assert(vstd::utf8::is_ascii_chars(name));
    vstd::utf8::is_ascii_chars_encode_utf8(name);
}

/// The name of a role.
pub open spec fn role_name(role: AnthropicRole) -> Seq<char> {
    match role {
        AnthropicRole::User => "user"@,
        AnthropicRole::Assistant => "assistant"@,
        AnthropicRole::System => "system"@,
    }
}

/// A block counts for the texts in it and for its values as JSON. An image counts for 256 bytes,
/// and so does a document without text; what only refers to something counts for nothing.
pub proof fn law_blocks_count_for_what_they_say(
    block: AnthropicContentBlock,
    result: ToolResultContentBlock,
)
    ensures
        block_len(block) == match block {
            AnthropicContentBlock::Text { text, .. } => byte_len(text@),
            AnthropicContentBlock::Image { .. } => 256,
            AnthropicContentBlock::ToolUse { name, input, .. } => byte_len(name@) + byte_len(
                printed_json(value_tree(input)),
            ),
            AnthropicContentBlock::ServerToolUse { name, input, .. } => byte_len(name@) + byte_len(
                printed_json(value_tree(input)),
            ),
            AnthropicContentBlock::ToolResult { content, .. } => match content {
                Some(ToolResultContent::Text(text)) => byte_len(text@),
                Some(ToolResultContent::Blocks(blocks)) => result_blocks_len(blocks@),
                None => 0,
            },
            AnthropicContentBlock::Thinking { thinking, .. } => byte_len(thinking@),
            AnthropicContentBlock::RedactedThinking { data } => byte_len(data@),
            AnthropicContentBlock::WebSearchToolResult { content, .. } => byte_len(
                printed_json(value_tree(content)),
            ),
            AnthropicContentBlock::Other(value) => byte_len(printed_json(value_tree(value))),
        },
        result_block_len(result) == match result {
            ToolResultContentBlock::Text { text } => byte_len(text@),
            ToolResultContentBlock::Image { .. } => 256,
            ToolResultContentBlock::Document(document) => match document.source {
                DocumentSource::Text { data, .. } => byte_len(data@),
                DocumentSource::Content { content } => if nested_text(content@) is Some {
                    byte_len(own_text(content@))
                } else {
                    256
                },
                _ => 256,
            },
            ToolResultContentBlock::SearchResult(found) => byte_len(own_text(found.content@)),
            ToolResultContentBlock::Other(value) => byte_len(printed_json(value_tree(value))),
        },
{
    if let ToolResultContentBlock::SearchResult(found) = result {
        lemma_no_text(found.content@);
        assert(byte_len(Seq::empty()) == 0);
    }
}

/// A request is estimated at a third of what it counts for, rounded down, but at one token where
/// it counts for anything.
pub proof fn law_estimates_are_thirds(length: nat)
    requires
        length / 3 <= u32::MAX,
    ensures
        tokens_for(length) == 0 <==> length == 0,
        length >= 3 ==> 3 * tokens_for(length) <= length < 3 * tokens_for(length) + 3,
        0 < length < 3 ==> tokens_for(length) == 1,
{
}

} // verus!
