//! What a complete chat completion becomes, in terms of the message that came, and which stop
//! sequence a message is said to have ended at.

use vstd::prelude::*;

use crate::anthropic::convert::{
    anthropic_response, anthropic_usage, first_calls, matched_stop, parsed_inputs, stop_reason_of,
};
use crate::anthropic::reply::{
    event_name, AnthropicContext, AnthropicResponseContentBlockView, AnthropicStopReason,
    AnthropicStreamEvent, AnthropicUsage,
};
use crate::chat::{
    ChatCompletionMessageContent, ChatCompletionMessageToolCall, CompletionUsage, FinishReason,
    NvCreateChatCompletionResponse,
};
use crate::json::{parsed_json, Json, JsonView};

verus! {

/// The tool calls of the first choice, as they came.
pub open spec fn calls_sent(completion: NvCreateChatCompletionResponse) -> Seq<
    ChatCompletionMessageToolCall,
> {
    match completion.inner.choices@[0].message.tool_calls {
        Some(calls) => calls@,
        None => seq![],
    }
}

/// The number of thinking blocks: one, where reasoning came.
pub open spec fn thinking_count(completion: NvCreateChatCompletionResponse) -> int {
    if completion.inner.choices@[0].message.reasoning_content matches Some(text) && text@.len() > 0 {
        1
    } else {
        0
    }
}

/// Whether a block is a text without citations.
pub open spec fn is_text(block: AnthropicResponseContentBlockView, said: Seq<char>) -> bool {
    block matches AnthropicResponseContentBlockView::Text { text, citations } && text == said
        && citations is None
}

/// The content of a converted message is the reasoning that came, then one tool use for each
/// call in their order, each with the name of its own call, the id and the input that belong to
/// it, then the text. Nothing else is in it, but for an empty text where it would be empty.
pub proof fn law_content_is_the_message_in_order(
    completion: NvCreateChatCompletionResponse,
    model: Seq<char>,
    message_id: Seq<char>,
    ids: Seq<Seq<char>>,
    inputs: Seq<JsonView>,
)
    requires
        completion.inner.choices@.len() > 0,
    ensures
        ({
            let content = anthropic_response(completion, model, message_id, ids, inputs).content;
            let message = completion.inner.choices@[0].message;
            let calls = calls_sent(completion);
            let t = thinking_count(completion);
            let n = calls.len() as int;
            &&& t == 1 ==> (content[0] matches AnthropicResponseContentBlockView::Thinking {
                thinking,
                signature,
            } && thinking == message.reasoning_content->0@ && signature.len() == 0)
            &&& forall|k: int|
                0 <= k < n ==> ((#[trigger] content[t + k]) matches AnthropicResponseContentBlockView::ToolUse {
                    id,
                    name,
                    input,
                } && id == ids[k] && name == calls[k].function.name@ && input == inputs[k])
            &&& match message.content {
                Some(ChatCompletionMessageContent::Text(text)) => content.len() == t + n + 1
                    && is_text(content.last(), text@),
                Some(ChatCompletionMessageContent::Parts(_)) => content.len() == t + n + 1
                    && is_text(content.last(), "[multimodal content]"@),
                None => if t + n > 0 {
                    content.len() == t + n
                } else {
                    content.len() == 1 && is_text(content[0], seq![])
                },
            }
        }),
{
}

/// The input of the k-th tool use is the value of the arguments of the k-th call, and the empty
/// object where they are no JSON.
pub proof fn law_inputs_are_the_arguments_of_their_calls(completion: NvCreateChatCompletionResponse)
    ensures
        ({
            let inputs = parsed_inputs(first_calls(completion));
            if completion.inner.choices@.len() == 0 {
                inputs.len() == 0
            } else {
                let calls = calls_sent(completion);
                &&& inputs.len() == calls.len()
                &&& first_calls(completion) == calls
                &&& forall|k: int|
                    0 <= k < calls.len() ==> match parsed_json(calls[k].function.arguments@) {
                        Some(value) => #[trigger] inputs[k] == value,
                        None => inputs[k] matches JsonView::Object(members) && members.len() == 0,
                    }
            }
        }),
{
}

/// Whether a stop reason is what a finish reason means.
pub open spec fn means(reason: FinishReason, stop: AnthropicStopReason) -> bool {
    &&& (reason is Stop || reason is ContentFilter) == (stop is EndTurn)
    &&& (reason is Length) == (stop is MaxTokens)
    &&& (reason is ToolCalls || reason is FunctionCall) == (stop is ToolUse)
    &&& !(stop is StopSequence)
}

/// A finish reason of the backend is told as the stop reason that it means.
pub proof fn law_finish_reasons_are_told_as_what_they_mean(reason: FinishReason)
    ensures
        means(reason, stop_reason_of(reason)),
{
}

/// The prompt is split into what was read from a cache, which is what the backend reports but
/// no more than the prompt, and the rest. The completion is told as it came, and nothing was
/// written to a cache.
pub open spec fn counts_as(usage: CompletionUsage, counted: AnthropicUsage) -> bool {
    let reported = match usage.prompt_tokens_details {
        Some(details) => match details.cached_tokens {
            Some(count) => count,
            None => 0,
        },
        None => 0,
    };
    &&& counted.output_tokens == usage.completion_tokens
    &&& counted.cache_creation_input_tokens == Some(0u32)
    &&& counted.cache_read_input_tokens matches Some(read) && {
        &&& counted.input_tokens + read == usage.prompt_tokens
        &&& read <= reported
        &&& read == reported || counted.input_tokens == 0
    }
}

/// The token counts of a message are those of the completion.
pub proof fn law_token_counts_are_kept(usage: CompletionUsage)
    ensures
        counts_as(usage, anthropic_usage(usage)),
{
}

/// A converted message says of itself what came: the model that was asked for, why the first
/// choice finished, and the token counts.
pub proof fn law_messages_say_what_came(
    completion: NvCreateChatCompletionResponse,
    model: Seq<char>,
    message_id: Seq<char>,
    ids: Seq<Seq<char>>,
    inputs: Seq<JsonView>,
)
    ensures
        ({
            let message = anthropic_response(completion, model, message_id, ids, inputs);
            let chat = completion.inner;
            &&& message.id == message_id
            &&& message.object_type == "message"@
            &&& message.role == "assistant"@
            &&& message.model == model
            &&& message.stop_sequence is None
            &&& chat.choices@.len() == 0 ==> {
                &&& message.stop_reason is None
                &&& message.content.len() == 1
                &&& is_text(message.content[0], seq![])
            }
            &&& chat.choices@.len() > 0 ==> match chat.choices@[0].finish_reason {
                Some(reason) => message.stop_reason matches Some(stop) && means(reason, stop),
                None => message.stop_reason is None,
            }
            &&& match chat.usage {
                Some(usage) => counts_as(usage, message.usage),
                None => {
                    &&& message.usage.input_tokens == 0
                    &&& message.usage.output_tokens == 0
                    &&& message.usage.cache_creation_input_tokens == Some(0u32)
                    &&& message.usage.cache_read_input_tokens is None
                },
            }
        }),
{
}

/// A message ended at a stop sequence exactly if the backend reports a text that is one of
/// those of the request, whichever of them it is; it is then said to have ended at that text.
pub proof fn law_any_requested_stop_sequence_can_match(
    nvext: Option<Json>,
    context: Option<AnthropicContext>,
)
    ensures
        forall|i: int|
            #![trigger context->0.stop_sequences@[i]]
            context is Some && 0 <= i < context->0.stop_sequences@.len() && nvext is Some
                && nvext->0@.get("matched_stop"@) == Some(
                JsonView::Str(context->0.stop_sequences@[i]@),
            ) ==> matched_stop(nvext, context) == Some(context->0.stop_sequences@[i]@),
        matched_stop(nvext, context) matches Some(text) ==> {
            &&& nvext matches Some(json) && json@.get("matched_stop"@) == Some(JsonView::Str(text))
            &&& context is Some
            &&& exists|i: int|
                0 <= i < context->0.stop_sequences@.len()
                    && #[trigger] context->0.stop_sequences@[i]@ == text
        },
{
}

/// Events of different kinds are sent under different names.
pub proof fn law_events_are_told_apart_by_their_names(
    one: AnthropicStreamEvent,
    other: AnthropicStreamEvent,
)
    requires
        event_name(one) == event_name(other),
    ensures
        one is MessageStart == other is MessageStart,
        one is ContentBlockStart == other is ContentBlockStart,
        one is ContentBlockDelta == other is ContentBlockDelta,
        one is ContentBlockStop == other is ContentBlockStop,
        one is MessageDelta == other is MessageDelta,
        one is MessageStop == other is MessageStop,
        one is Ping == other is Ping,
        one is Error == other is Error,
{
    reveal_strlit("message_start");
    reveal_strlit("content_block_start");
    reveal_strlit("content_block_delta");
    reveal_strlit("content_block_stop");
    reveal_strlit("message_delta");
    reveal_strlit("message_stop");
    reveal_strlit("ping");
    reveal_strlit("error");
    assert("message_start"@.len() == 13 && "message_delta"@.len() == 13);
    assert("content_block_start"@.len() == 19 && "content_block_delta"@.len() == 19);
    assert("content_block_stop"@.len() == 18 && "message_stop"@.len() == 12);
    assert("ping"@.len() == 4 && "error"@.len() == 5);
    assert("message_start"@[8] != "message_delta"@[8]);
    assert("content_block_start"@[14] != "content_block_delta"@[14]);
}

} // verus!
