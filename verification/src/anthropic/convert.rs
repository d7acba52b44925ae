//! The conversion of complete chat completions and of token counts.

use vstd::prelude::*;

use crate::anthropic::reply::{
    AnthropicContext, AnthropicMessageResponse, AnthropicMessageResponseView,
    AnthropicResponseContentBlock, AnthropicResponseContentBlockView, AnthropicStopReason,
    AnthropicUsage,
};
use crate::chat::{
    ChatChoice, ChatCompletionMessageContent, ChatCompletionMessageToolCall, CompletionUsage,
    FinishReason, NvCreateChatCompletionResponse,
};
use crate::ids::{fresh_id, fresh_ids, is_id};
use crate::json::{parse_json, parsed_json, Json, JsonView};
use crate::responses::convert::{content_text, structured_calls};
use crate::text::same_text;

verus! {

/// The prompt tokens that were read from a cache: no more than the whole prompt.
pub open spec fn cached_part(usage: CompletionUsage) -> u32 {
    let cached = usage.cached_tokens().unwrap_or(0);
    if cached <= usage.prompt_tokens {
        cached
    } else {
        usage.prompt_tokens
    }
}

/// The token counts of a chat completion in the terms of the Messages API. The cached prompt
/// tokens are counted apart, and both cache counts are always present.
pub open spec fn anthropic_usage(usage: CompletionUsage) -> AnthropicUsage {
    AnthropicUsage {
        input_tokens: (usage.prompt_tokens - cached_part(usage)) as u32,
        output_tokens: usage.completion_tokens,
        cache_creation_input_tokens: Some(0),
        cache_read_input_tokens: Some(cached_part(usage)),
    }
}

/// The token counts of a chat completion in the terms of the Messages API.
pub fn completion_usage_to_anthropic(usage: CompletionUsage) -> (converted: AnthropicUsage)
    ensures
        converted == anthropic_usage(usage),
{
    let cached: u32 = usage.cached_tokens().unwrap_or(0);
    let read: u32 = if cached <= usage.prompt_tokens {
        cached
    } else {
        usage.prompt_tokens
    };
    AnthropicUsage {
        input_tokens: usage.prompt_tokens - read,
        output_tokens: usage.completion_tokens,
        cache_creation_input_tokens: Some(0),
        cache_read_input_tokens: Some(read),
    }
}

/// The input tokens and the cached tokens make up the prompt.
pub proof fn law_usage_splits_the_prompt(usage: CompletionUsage)
    ensures
        anthropic_usage(usage).input_tokens + anthropic_usage(usage).cache_read_input_tokens->0
            == usage.prompt_tokens,
{
}

/// What a finish reason means for the client, apart from stop sequences.
pub open spec fn stop_reason_of(reason: FinishReason) -> AnthropicStopReason {
    match reason {
        FinishReason::Stop => AnthropicStopReason::EndTurn,
        FinishReason::ContentFilter => AnthropicStopReason::EndTurn,
        FinishReason::Length => AnthropicStopReason::MaxTokens,
        FinishReason::ToolCalls => AnthropicStopReason::ToolUse,
        FinishReason::FunctionCall => AnthropicStopReason::ToolUse,
    }
}

/// What a finish reason means for the client, apart from stop sequences.
pub fn stop_reason(reason: FinishReason) -> (stop: AnthropicStopReason)
    ensures
        stop == stop_reason_of(reason),
{
    match reason {
        FinishReason::Stop => AnthropicStopReason::EndTurn,
        FinishReason::ContentFilter => AnthropicStopReason::EndTurn,
        FinishReason::Length => AnthropicStopReason::MaxTokens,
        FinishReason::ToolCalls => AnthropicStopReason::ToolUse,
        FinishReason::FunctionCall => AnthropicStopReason::ToolUse,
    }
}

/// Whether a text is one of the stop sequences that the request named.
pub open spec fn is_stop_sequence(context: Option<AnthropicContext>, text: Seq<char>) -> bool {
    context matches Some(c) && exists|i: int|
        0 <= i < c.stop_sequences@.len() && #[trigger] c.stop_sequences@[i]@ == text
}

/// The stop sequence that the backend reports to have matched, if the request named it.
pub open spec fn matched_stop(nvext: Option<Json>, context: Option<AnthropicContext>) -> Option<
    Seq<char>,
> {
    match nvext {
        Some(json) => match json@.get_str("matched_stop"@) {
            Some(text) if is_stop_sequence(context, text) => Some(text),
            _ => None,
        },
        None => None,
    }
}

/// The stop sequence that the backend reports to have matched, if the request named it.
#[verifier::loop_isolation(false)]
pub fn matched_stop_sequence(nvext: &Option<Json>, context: &Option<AnthropicContext>) -> (matched:
    Option<String>)
    ensures
        matched.deep_view() == matched_stop(*nvext, *context),
{
    if let Some(json) = nvext {
        if let Some(text) = json.get_str("matched_stop") {
            if let Some(context) = context {
                for i in 0..context.stop_sequences.len()
                    invariant
                        forall|k: int|
                            0 <= k < i ==> #[trigger] context.stop_sequences@[k]@ != text@,
                {
                    if same_text(context.stop_sequences[i].as_str(), text.as_str()) {
                        assert(context.stop_sequences@[i as int]@ == text@);
                        return Some(text.clone());
                    }
                }
            }
        }
    }
    None
}

/// The input of a tool call: the value of its JSON arguments, or the empty object where they
/// are no JSON.
pub open spec fn input_of(parsed: Option<JsonView>) -> JsonView {
    match parsed {
        Some(value) => value,
        None => JsonView::Object(seq![]),
    }
}

/// One block per structured call.
pub open spec fn tool_use_blocks(
    calls: Seq<ChatCompletionMessageToolCall>,
    ids: Seq<Seq<char>>,
    inputs: Seq<JsonView>,
) -> Seq<AnthropicResponseContentBlockView> {
    Seq::new(
        calls.len(),
        |i: int|
            AnthropicResponseContentBlockView::ToolUse {
                id: ids[i],
                name: calls[i].function.name@,
                input: inputs[i],
            },
    )
}

/// The thinking block, where there is reasoning.
pub open spec fn thinking_blocks(choice: ChatChoice) -> Seq<AnthropicResponseContentBlockView> {
    match choice.message.reasoning_content {
        Some(text) if text@.len() > 0 => seq![
            AnthropicResponseContentBlockView::Thinking { thinking: text@, signature: seq![] },
        ],
        _ => seq![],
    }
}

/// A text block.
pub open spec fn text_block(text: Seq<char>) -> AnthropicResponseContentBlockView {
    AnthropicResponseContentBlockView::Text { text, citations: None }
}

/// The blocks of a choice: thinking, tool uses, text. A choice with none of them has an
/// empty text.
pub open spec fn choice_blocks(
    choice: ChatChoice,
    ids: Seq<Seq<char>>,
    inputs: Seq<JsonView>,
) -> Seq<AnthropicResponseContentBlockView> {
    let blocks = thinking_blocks(choice) + tool_use_blocks(structured_calls(choice), ids, inputs)
        + if choice.message.content is Some {
        seq![text_block(content_text(choice))]
    } else {
        seq![]
    };
    if blocks.len() == 0 {
        seq![text_block(seq![])]
    } else {
        blocks
    }
}

/// The response that a complete chat completion becomes, given the identifiers to use and
/// the inputs of its tool calls.
pub open spec fn anthropic_response(
    completion: NvCreateChatCompletionResponse,
    model: Seq<char>,
    message_id: Seq<char>,
    ids: Seq<Seq<char>>,
    inputs: Seq<JsonView>,
) -> AnthropicMessageResponseView {
    let chat = completion.inner;
    AnthropicMessageResponseView {
        id: message_id,
        object_type: "message"@,
        role: "assistant"@,
        content: if chat.choices@.len() == 0 {
            seq![text_block(seq![])]
        } else {
            choice_blocks(chat.choices@[0], ids, inputs)
        },
        model,
        stop_reason: if chat.choices@.len() == 0 {
            None
        } else {
            match chat.choices@[0].finish_reason {
                Some(reason) => Some(stop_reason_of(reason)),
                None => None,
            }
        },
        stop_sequence: None,
        usage: match chat.usage {
            Some(usage) => anthropic_usage(usage),
            None => AnthropicUsage {
                input_tokens: 0,
                output_tokens: 0,
                cache_creation_input_tokens: Some(0),
                cache_read_input_tokens: None,
            },
        },
    }
}

/// The structured calls of the first choice.
pub open spec fn first_calls(completion: NvCreateChatCompletionResponse) -> Seq<
    ChatCompletionMessageToolCall,
> {
    if completion.inner.choices@.len() == 0 {
        seq![]
    } else {
        structured_calls(completion.inner.choices@[0])
    }
}

/// The response that a complete chat completion becomes, given the identifiers to use and
/// the inputs of its tool calls.
pub fn chat_completion_to_anthropic_response_with(
    completion: NvCreateChatCompletionResponse,
    model: &str,
    message_id: String,
    ids: &Vec<String>,
    inputs: &Vec<Json>,
) -> (response: AnthropicMessageResponse)
    requires
        ids@.len() >= first_calls(completion).len(),
        inputs@.len() >= first_calls(completion).len(),
    ensures
        response.deep_view() == anthropic_response(
            completion,
            model@,
            message_id@,
            ids.deep_view(),
            inputs.deep_view(),
        ),
{
    let mut content: Vec<AnthropicResponseContentBlock> = Vec::new();
    let mut reason: Option<AnthropicStopReason> = None;
    assert(content.deep_view() =~= seq![]);
    if completion.inner.choices.len() > 0 {
        let choice = &completion.inner.choices[0];
        if let Some(finish) = choice.finish_reason {
            reason = Some(stop_reason(finish));
        }
        if let Some(thinking) = &choice.message.reasoning_content {
            if !thinking.as_str().is_empty() {
                content.push(
                    AnthropicResponseContentBlock::Thinking {
                        thinking: thinking.clone(),
                        signature: String::new(),
                    },
                );
            }
        }
        assert(content.deep_view() =~= thinking_blocks(*choice));
        let ghost before = content.deep_view();
        let ghost all = tool_use_blocks(
            structured_calls(*choice),
            ids.deep_view(),
            inputs.deep_view(),
        );
        if let Some(calls) = &choice.message.tool_calls {
            for i in 0..calls.len()
                invariant
                    calls@ == structured_calls(*choice),
                    calls@.len() <= ids@.len(),
                    calls@.len() <= inputs@.len(),
                    all == tool_use_blocks(calls@, ids.deep_view(), inputs.deep_view()),
                    content.deep_view() == before + all.take(i as int),
            {
                let block = AnthropicResponseContentBlock::ToolUse {
                    id: ids[i].clone(),
                    name: calls[i].function.name.clone(),
                    input: inputs[i].clone(),
                };
                let ghost so_far = content.deep_view();
                content.push(block);
                assert(content.deep_view() =~= so_far.push(block.deep_view()));
                assert(block.deep_view() == all[i as int]);
                assert(content.deep_view() =~= before + all.take(i + 1));
            }
        }
        assert(content.deep_view() =~= before + all);
        let ghost called = content.deep_view();
        if let Some(message) = &choice.message.content {
            let text = match message {
                ChatCompletionMessageContent::Text(text) => text.clone(),
                ChatCompletionMessageContent::Parts(_) => "[multimodal content]".to_owned(),
            };
            content.push(AnthropicResponseContentBlock::Text { text, citations: None });
            assert(content.deep_view() =~= called + seq![text_block(content_text(*choice))]);
        } else {
            assert(content.deep_view() =~= called
                + Seq::<AnthropicResponseContentBlockView>::empty());
        }
    }
    if content.len() == 0 {
        content.push(
            AnthropicResponseContentBlock::Text { text: String::new(), citations: None },
        );
        assert(content.deep_view() =~= seq![text_block(seq![])]);
    }
    let usage = match completion.inner.usage {
        Some(usage) => completion_usage_to_anthropic(usage),
        None => AnthropicUsage {
            input_tokens: 0,
            output_tokens: 0,
            cache_creation_input_tokens: Some(0),
            cache_read_input_tokens: None,
        },
    };
    AnthropicMessageResponse {
        id: message_id,
        object_type: "message".to_owned(),
        role: "assistant".to_owned(),
        content,
        model: model.to_owned(),
        stop_reason: reason,
        stop_sequence: None,
        usage,
    }
}

/// The inputs of the calls of the first choice, read from their JSON arguments.
pub open spec fn parsed_inputs(calls: Seq<ChatCompletionMessageToolCall>) -> Seq<JsonView> {
    Seq::new(calls.len(), |i: int| input_of(parsed_json(calls[i].function.arguments@)))
}

/// The response that a complete chat completion becomes, with fresh identifiers.
pub fn chat_completion_to_anthropic_response(
    completion: NvCreateChatCompletionResponse,
    model: &str,
    _context: Option<&AnthropicContext>,
) -> (response: AnthropicMessageResponse)
    ensures
        exists|message_id: Seq<char>, ids: Seq<Seq<char>>|
            {
                &&& is_id("msg_"@, message_id)
                &&& ids.len() == first_calls(completion).len()
                &&& forall|i: int| 0 <= i < ids.len() ==> is_id("toolu_"@, #[trigger] ids[i])
                &&& response.deep_view() == #[trigger] anthropic_response(
                    completion,
                    model@,
                    message_id,
                    ids,
                    parsed_inputs(first_calls(completion)),
                )
            },
{
    let mut inputs: Vec<Json> = Vec::new();
    if completion.inner.choices.len() > 0 {
        if let Some(calls) = &completion.inner.choices[0].message.tool_calls {
            for i in 0..calls.len()
                invariant
                    inputs@.len() == i,
                    forall|k: int|
                        0 <= k < i ==> (#[trigger] inputs@[k])@ == input_of(
                            parsed_json(calls@[k].function.arguments@),
                        ),
            {
                let input = match parse_json(calls[i].function.arguments.as_str()) {
                    Some(value) => value,
                    None => {
                        let empty = Json::Object(Vec::new());
                        assert(empty@ == JsonView::Object(seq![]));
                        empty
                    },
                };
                inputs.push(input);
            }
        }
    }
    assert(inputs.deep_view() =~= parsed_inputs(first_calls(completion)));
    let message_id = fresh_id("msg_");
    let ids = fresh_ids("toolu_", inputs.len());
    assert forall|i: int| 0 <= i < ids.deep_view().len() implies is_id(
        "toolu_"@,
        #[trigger] ids.deep_view()[i],
    ) by {
        assert(is_id("toolu_"@, ids@[i]@));
    }
    chat_completion_to_anthropic_response_with(completion, model, message_id, &ids, &inputs)
}

} // verus!
