//! How the engine is to answer a request.

use vstd::prelude::*;

use crate::chat::ChatCompletionStreamOptions;
use crate::json::{value_contents, value_member, value_tree, Json, JsonView};

verus! {

/// The flag of a request body, where it has one.
pub open spec fn flag_of(tree: JsonView, name: Seq<char>) -> Option<bool> {
    match tree.get(name) {
        Some(JsonView::Bool(flag)) => Some(flag),
        _ => None,
    }
}

/// Whether the engine is to stream its answer to a `/v1/responses` body: as the client asks,
/// and where it does not say, yes.
pub fn responses_stream(body: &serde_json::Value) -> (stream: bool)
    ensures
        stream == flag_of(value_tree(*body), "stream"@).unwrap_or(true),
{
    match value_member(body, "stream") {
        Some(value) => match value_contents(&value) {
            Json::Bool(flag) => flag,
            _ => true,
        },
        None => true,
    }
}

/// What the engine is to stream for a `/v1/messages` body: token counts at the end only.
pub fn messages_stream_options() -> (options: ChatCompletionStreamOptions)
    ensures
        options.include_usage,
        !options.continuous_usage_stats,
{
    ChatCompletionStreamOptions { include_usage: true, continuous_usage_stats: false }
}

} // verus!
