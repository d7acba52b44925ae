//! What a complete chat completion becomes, in terms of the message that came.

use vstd::prelude::*;

use crate::chat::{
    ChatCompletionMessageContent, ChatCompletionMessageToolCall, CompletionUsage,
    CreateChatCompletionResponse, FinishReason, NvCreateChatCompletionResponse,
};
use crate::number::Float32;
use crate::responses::convert::{
    converted_response, enough_ids, response_output, response_text, ResponseIds,
};
use crate::responses::identity_laws::{law_called_names_stand_for_declared_tools, stands_for};
use crate::responses::response::{ResponseParams, ResponsesContext};
use crate::responses::stream::StreamState;
use crate::responses::tools::without_tool_calls;
use crate::responses::types::{
    AssistantRole, InstructionsView, OutputItemView, OutputMessageContentView, OutputStatus,
    ResponseUsage, ResponseView, ServiceTier, Status, SummaryPartView,
    TextResponseFormatConfigurationView, ToolChoiceOptions, ToolChoiceParamView, ToolView,
    Truncation,
};
use crate::text::trim;

verus! {

/// The structured calls of the first choice, as they came.
pub open spec fn calls_sent(chat: CreateChatCompletionResponse) -> Seq<
    ChatCompletionMessageToolCall,
> {
    match chat.choices@[0].message.tool_calls {
        Some(calls) => calls@,
        None => seq![],
    }
}

/// The text of the first choice, as it came.
pub open spec fn text_sent(chat: CreateChatCompletionResponse) -> Seq<char> {
    match chat.choices@[0].message.content {
        Some(ChatCompletionMessageContent::Text(text)) => text@,
        Some(ChatCompletionMessageContent::Parts(_)) => "[multimodal content]"@,
        None => seq![],
    }
}

/// The number of reasoning items: one, where reasoning came and a summary of it was asked for.
pub open spec fn reasoning_count(params: ResponseParams, chat: CreateChatCompletionResponse) -> int {
    if chat.choices@[0].message.reasoning_content matches Some(text) && text@.len() > 0 && (
    params.reasoning matches Some(reasoning) && reasoning.summary is Some) {
        1
    } else {
        0
    }
}

/// Whether an item is a message with one text.
pub open spec fn is_message(
    item: OutputItemView,
    id: Seq<char>,
    text: Seq<char>,
    status: OutputStatus,
) -> bool {
    item matches OutputItemView::Message(message) && {
        &&& message.id == id
        &&& message.status == status
        &&& message.role == AssistantRole::Assistant
        &&& message.content.len() == 1
        &&& message.content[0] matches OutputMessageContentView::OutputText(part) && part.text
            == text && part.annotations.len() == 0
    }
}

/// Whether an item is a call: its ids, the tool that its name stands for and its arguments.
pub open spec fn is_call(
    item: OutputItemView,
    tools: Option<Seq<ToolView>>,
    id: Seq<char>,
    call_id: Seq<char>,
    chat_name: Seq<char>,
    arguments: Seq<char>,
    status: OutputStatus,
) -> bool {
    item matches OutputItemView::FunctionCall(call) && {
        &&& call.id == Some(id)
        &&& call.call_id == call_id
        &&& call.arguments == arguments
        &&& call.status == Some(status)
        &&& stands_for(tools, chat_name, call.name, call.namespace)
    }
}

/// Whether an item is the reasoning with one summary.
pub open spec fn is_reasoning(
    item: OutputItemView,
    id: Seq<char>,
    text: Seq<char>,
    status: OutputStatus,
) -> bool {
    item matches OutputItemView::Reasoning(reasoning) && {
        &&& reasoning.id == Some(id)
        &&& reasoning.status == Some(status)
        &&& reasoning.summary.len() == 1
        &&& reasoning.summary[0] matches SummaryPartView::SummaryText(part) && part.text == text
    }
}

/// The output lists the structured calls of the message in their order, each with its own id,
/// name and arguments; then the reasoning, where a summary was asked for; then the calls that
/// the text describes, in their order; then the text, or what is left of it around those calls.
/// Nothing else is in it, but for an empty message where it would be empty. Where the token
/// limit ended the choice, messages and calls are incomplete, and reasoning is where nothing
/// followed it.
pub proof fn law_output_is_the_message_in_order(
    params: ResponseParams,
    context: Option<ResponsesContext>,
    completion: NvCreateChatCompletionResponse,
    written: Seq<(Seq<char>, Seq<char>)>,
    ids: ResponseIds,
)
    requires
        completion.inner.choices@.len() > 0,
        enough_ids(completion.inner, written.len(), ids),
    ensures
        ({
            let output = converted_response(params, context, completion, written, ids).inner.output;
            let chat = completion.inner;
            let tools = params.tools.deep_view();
            let calls = calls_sent(chat);
            let text = text_sent(chat);
            let n = calls.len() as int;
            let r = reasoning_count(params, chat);
            let w: int = if text.len() > 0 {
                written.len() as int
            } else {
                0
            };
            let limited = chat.choices@[0].finish_reason == Some(FinishReason::Length);
            let status = if limited {
                OutputStatus::Incomplete
            } else {
                OutputStatus::Completed
            };
            let rest = if w > 0 {
                without_tool_calls(text)
            } else {
                text
            };
            let said = if w > 0 {
                trim(rest).len() > 0
            } else {
                text.len() > 0
            };
            &&& forall|i: int|
                0 <= i < n ==> is_call(
                    #[trigger] output[i],
                    tools,
                    ids.calls@[i]@,
                    calls[i].id@,
                    calls[i].function.name@,
                    calls[i].function.arguments@,
                    status,
                )
            &&& r == 1 ==> is_reasoning(
                output[n],
                ids.reasoning@,
                chat.choices@[0].message.reasoning_content->0@,
                if limited && n + w == 0 && !said {
                    OutputStatus::Incomplete
                } else {
                    OutputStatus::Completed
                },
            )
            &&& forall|k: int|
                0 <= k < w ==> is_call(
                    #[trigger] output[n + r + k],
                    tools,
                    ids.written@[k]@,
                    ids.call_ids@[k]@,
                    written[k].0,
                    written[k].1,
                    status,
                )
            &&& said ==> {
                &&& output.len() == n + r + w + 1
                &&& is_message(output.last(), ids.message@, rest, status)
            }
            &&& !said && n + r + w > 0 ==> output.len() == n + r + w
            &&& !said && n + r + w == 0 ==> {
                &&& output.len() == 1
                &&& is_message(output[0], ids.message@, seq![], status)
            }
        }),
{
    let chat = completion.inner;
    let tools = params.tools.deep_view();
    let calls = calls_sent(chat);
    let output = response_output(params, chat, written, ids);
    let n = calls.len() as int;
    let r = reasoning_count(params, chat);
    assert forall|i: int| 0 <= i < n implies stands_for(
        tools,
        (#[trigger] calls[i]).function.name@,
        crate::responses::tools::tool_identity(tools, calls[i].function.name@).0,
        crate::responses::tools::tool_identity(tools, calls[i].function.name@).1,
    ) by {
        law_called_names_stand_for_declared_tools(tools, calls[i].function.name@);
    }
    assert forall|k: int| 0 <= k < written.len() implies stands_for(
        tools,
        (#[trigger] written[k]).0,
        crate::responses::tools::tool_identity(tools, written[k].0).0,
        crate::responses::tools::tool_identity(tools, written[k].0).1,
    ) by {
        law_called_names_stand_for_declared_tools(tools, written[k].0);
    }
    let items = crate::responses::convert::choice_items(params, chat.choices@[0], written, ids);
    let text = text_sent(chat);
    assert(text == crate::responses::convert::content_text(chat.choices@[0]));
    assert(calls == crate::responses::convert::structured_calls(chat.choices@[0]));
    assert(output.len() == items.len());
    if n > 0 {
        assert(crate::responses::convert::is_visible(items[0]));
    }
    if items.len() > n + r {
        assert(crate::responses::convert::is_visible(items[n + r]));
    }
}

/// The text that written calls are looked for in is the text of the first choice.
pub proof fn law_response_text_is_the_first_choice(chat: CreateChatCompletionResponse)
    ensures
        response_text(chat) == if chat.choices@.len() == 0 {
            seq![]
        } else {
            text_sent(chat)
        },
{
}

/// Whether token counts are those that came.
pub open spec fn counts_as(usage: CompletionUsage, counted: ResponseUsage) -> bool {
    &&& counted.input_tokens == usage.prompt_tokens
    &&& counted.output_tokens == usage.completion_tokens
    &&& counted.total_tokens == usage.total_tokens
    &&& counted.input_tokens_details.cached_tokens == match usage.prompt_tokens_details {
        Some(details) => match details.cached_tokens {
            Some(count) => count,
            None => 0,
        },
        None => 0,
    }
    &&& counted.output_tokens_details.reasoning_tokens == match usage.completion_tokens_details {
        Some(details) => match details.reasoning_tokens {
            Some(count) => count,
            None => 0,
        },
        None => 0,
    }
}

/// Whether a tool is told back as it was declared, with the strictness of a function filled in.
pub open spec fn told_back(declared: ToolView, told: ToolView) -> bool {
    match declared {
        ToolView::Function(function) => told matches ToolView::Function(back) && {
            &&& back.name == function.name
            &&& back.parameters == function.parameters
            &&& back.description == function.description
            &&& back.defer_loading == function.defer_loading
            &&& back.strict == Some(
                match function.strict {
                    Some(strict) => strict,
                    None => true,
                },
            )
        },
        _ => told == declared,
    }
}

/// Whether a response echoes the parameters of its request, and has the default of each that
/// the request left out.
pub open spec fn echoes(
    params: ResponseParams,
    context: Option<ResponsesContext>,
    response: ResponseView,
) -> bool {
    &&& response.object == "response"@
    &&& response.background == Some(false)
    &&& response.metadata matches Some(told) && match params.metadata {
        Some(sent) => told == sent.deep_view(),
        None => told == Map::<Seq<char>, Seq<char>>::empty(),
    }
    &&& response.parallel_tool_calls == Some(
        match params.parallel_tool_calls {
            Some(flag) => flag,
            None => true,
        },
    )
    &&& response.temperature matches Some(told) && match params.temperature {
        Some(sent) => told == sent,
        None => told.bits == 0x3f80_0000,
    }
    &&& response.top_p matches Some(told) && match params.top_p {
        Some(sent) => told == sent,
        None => told.bits == 0x3f80_0000,
    }
    &&& response.text matches Some(told) && match params.text {
        Some(sent) => told == sent.deep_view(),
        None => told.format == TextResponseFormatConfigurationView::Text && told.verbosity is None,
    }
    &&& response.tool_choice == Some(
        match params.tool_choice {
            Some(sent) => sent.deep_view(),
            None => ToolChoiceParamView::Mode(ToolChoiceOptions::Auto),
        },
    )
    &&& response.tools matches Some(told) && match params.tools {
        Some(sent) => {
            &&& told.len() == sent@.len()
            &&& forall|i: int|
                0 <= i < told.len() ==> told_back(sent@[i].deep_view(), #[trigger] told[i])
        },
        None => told.len() == 0,
    }
    &&& response.truncation == Some(
        match params.truncation {
            Some(sent) => sent,
            None => Truncation::Disabled,
        },
    )
    &&& response.billing is None
    &&& response.conversation is None
    &&& response.prompt is None
    &&& response.instructions == match params.instructions {
        Some(text) => Some(InstructionsView::Text(text@)),
        None => None,
    }
    &&& response.max_output_tokens == params.max_output_tokens
    &&& response.previous_response_id == match context {
        Some(c) => match c.previous_response_id {
            Some(id) => Some(id@),
            None => None,
        },
        None => None,
    }
    &&& response.prompt_cache_key == match params.prompt_cache_key {
        Some(key) => Some(key@),
        None => None,
    }
    &&& response.prompt_cache_retention == params.prompt_cache_retention
    &&& response.reasoning == params.reasoning
    &&& response.safety_identifier == match params.safety_identifier {
        Some(id) => Some(id@),
        None => None,
    }
    &&& response.service_tier == Some(
        match params.service_tier {
            Some(tier) => tier,
            None => ServiceTier::Auto,
        },
    )
    &&& response.top_logprobs == Some(
        match params.top_logprobs {
            Some(count) => count,
            None => 0,
        },
    )
    &&& match response.incomplete_details {
        Some(details) => response.status == Status::Incomplete && details.reason
            == "max_output_tokens"@,
        None => response.status != Status::Incomplete,
    }
}

/// A converted response echoes the parameters of its request and carries what came: the model,
/// the time, the token counts, the extensions. It is incomplete where the token limit ended the
/// first choice.
pub proof fn law_responses_echo_the_request(
    params: ResponseParams,
    context: Option<ResponsesContext>,
    completion: NvCreateChatCompletionResponse,
    written: Seq<(Seq<char>, Seq<char>)>,
    ids: ResponseIds,
)
    ensures
        ({
            let whole = converted_response(params, context, completion, written, ids);
            let response = whole.inner;
            let chat = completion.inner;
            let limited = chat.choices@.len() > 0 && chat.choices@[0].finish_reason == Some(
                FinishReason::Length,
            );
            &&& echoes(params, context, response)
            &&& response.error is None
            &&& response.id == ids.response@
            &&& response.created_at == chat.created
            &&& response.status == if limited {
                Status::Incomplete
            } else {
                Status::Completed
            }
            &&& response.completed_at == if limited {
                None
            } else {
                Some(chat.created as u64)
            }
            &&& response.model == if chat.model@ == "unknown"@ && params.model is Some {
                params.model->0@
            } else {
                chat.model@
            }
            &&& match chat.usage {
                Some(usage) => response.usage matches Some(counted) && counts_as(usage, counted),
                None => response.usage is None,
            }
            &&& whole.nvext == match completion.nvext {
                Some(json) => Some(json@),
                None => None,
            }
            &&& whole.store == match params.store {
                Some(store) => store,
                None => false,
            }
            &&& whole.presence_penalty == match params.presence_penalty {
                Some(sent) => sent,
                None => Float32 { bits: 0 },
            }
            &&& whole.frequency_penalty == match params.frequency_penalty {
                Some(sent) => sent,
                None => Float32 { bits: 0 },
            }
        }),
{
    if let Some(sent) = params.tools {
        assert forall|i: int| 0 <= i < sent@.len() implies #[trigger] sent.deep_view()[i]
            == sent@[i].deep_view() by {}
    }
}

/// A completion without choices becomes a response with an empty message.
pub proof fn law_no_choices_give_an_empty_message(
    params: ResponseParams,
    context: Option<ResponsesContext>,
    completion: NvCreateChatCompletionResponse,
    written: Seq<(Seq<char>, Seq<char>)>,
    ids: ResponseIds,
)
    requires
        completion.inner.choices@.len() == 0,
    ensures
        ({
            let output = converted_response(params, context, completion, written, ids).inner.output;
            &&& output.len() == 1
            &&& is_message(output[0], ids.message@, seq![], OutputStatus::Completed)
        }),
{
}

/// The response of a stream echoes the parameters of its request too, and says of itself what
/// the stream does: its id, when it was made, the model, the counts and the output.
pub proof fn law_streamed_responses_echo_the_request(
    state: StreamState,
    status: Status,
    output: Seq<OutputItemView>,
    now: u64,
)
    ensures
        ({
            let response = state.response(status, output, now);
            &&& echoes(state.params, state.context, response)
            &&& response.id == state.response_id
            &&& response.created_at == state.created_at
            &&& response.model == state.model
            &&& response.status == status
            &&& response.output == output
            &&& response.usage == state.usage
            &&& response.error is None
            &&& response.completed_at == if status == Status::Completed {
                Some(now)
            } else {
                None
            }
        }),
{
    if let Some(sent) = state.params.tools {
        assert forall|i: int| 0 <= i < sent@.len() implies #[trigger] sent.deep_view()[i]
            == sent@[i].deep_view() by {}
    }
}

} // verus!
