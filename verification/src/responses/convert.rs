//! The conversion of a complete chat completion into a response.

use vstd::prelude::*;

use std::borrow::Cow;

use crate::chat::{
    ChatChoice, ChatCompletionMessageContent, ChatCompletionMessageToolCall,
    CreateChatCompletionResponse, FinishReason, NvCreateChatCompletionResponse,
};
use crate::ids::{fresh_id, fresh_ids, is_id};
use crate::json::{Json, JsonView};
use crate::number::Float32;
use crate::responses::response::{
    build_response, previous_id, response_of, response_usage, usage_of, ResponseCore,
    ResponseParams, ResponsesContext,
};
use crate::responses::tools::{
    parse_tool_call_text, resolve_tool_identity, strip_tool_call_text, tool_identity,
    without_tool_calls, written_calls,
};
use crate::responses::types::{
    AssistantRole, FunctionToolCall, FunctionToolCallView, OutputItem, OutputItemView,
    OutputMessage, OutputMessageContent, OutputMessageContentView, OutputMessageView, OutputStatus,
    OutputTextContent, OutputTextContentView, ReasoningItem, ReasoningItemView, Response,
    ResponseView, Status, SummaryPart, SummaryPartView, SummaryTextContent, SummaryTextContentView,
    ToolView,
};
use crate::text::{is_blank, same_text, trim};

verus! {

/// A response with what the wire adds to it.
#[derive(Debug)]
pub struct NvResponse {
    pub inner: Response,
    pub nvext: Option<Json>,
    pub presence_penalty: Float32,
    pub frequency_penalty: Float32,
    pub store: bool,
}

/// The mathematical form of an [`NvResponse`].
#[verifier::ext_equal]
pub struct NvResponseView {
    pub inner: ResponseView,
    pub nvext: Option<JsonView>,
    pub presence_penalty: Float32,
    pub frequency_penalty: Float32,
    pub store: bool,
}

impl DeepView for NvResponse {
    type V = NvResponseView;

    open spec fn deep_view(&self) -> NvResponseView {
        NvResponseView {
            inner: self.inner.deep_view(),
            nvext: self.nvext.deep_view(),
            presence_penalty: self.presence_penalty,
            frequency_penalty: self.frequency_penalty,
            store: self.store,
        }
    }
}

/// The identifiers that a converted response takes.
#[derive(Debug, Clone, PartialEq, Eq)]
pub struct ResponseIds {
    pub response: String,
    pub message: String,
    pub reasoning: String,
    /// Item ids of the structured calls.
    pub calls: Vec<String>,
    /// Item ids of the calls written as text.
    pub written: Vec<String>,
    /// Call ids of the calls written as text.
    pub call_ids: Vec<String>,
}

/// A message item with the given text.
pub open spec fn text_message(id: Seq<char>, text: Seq<char>) -> OutputItemView {
    OutputItemView::Message(
        OutputMessageView {
            id,
            content: seq![
                OutputMessageContentView::OutputText(
                    OutputTextContentView { text, annotations: seq![], logprobs: Some(seq![]) },
                ),
            ],
            role: AssistantRole::Assistant,
            phase: None,
            status: OutputStatus::Completed,
        },
    )
}

/// A function call item. The name that the model used is resolved to the declared tool.
pub open spec fn call_message(
    tools: Option<Seq<ToolView>>,
    id: Seq<char>,
    call_id: Seq<char>,
    chat_name: Seq<char>,
    arguments: Seq<char>,
) -> OutputItemView {
    let identity = tool_identity(tools, chat_name);
    OutputItemView::FunctionCall(
        FunctionToolCallView {
            id: Some(id),
            call_id,
            namespace: identity.1,
            name: identity.0,
            arguments,
            status: Some(OutputStatus::Completed),
        },
    )
}

/// The structured tool calls of a message.
pub open spec fn structured_calls(choice: ChatChoice) -> Seq<ChatCompletionMessageToolCall> {
    match choice.message.tool_calls {
        Some(calls) => calls@,
        None => seq![],
    }
}

/// One item per structured call.
pub open spec fn structured_items(
    tools: Option<Seq<ToolView>>,
    calls: Seq<ChatCompletionMessageToolCall>,
    ids: Seq<Seq<char>>,
) -> Seq<OutputItemView> {
    Seq::new(
        calls.len(),
        |i: int|
            call_message(
                tools,
                ids[i],
                calls[i].id@,
                calls[i].function.name@,
                calls[i].function.arguments@,
            ),
    )
}

/// The reasoning item, where there is reasoning and a summary was asked for.
pub open spec fn reasoning_items(
    params: ResponseParams,
    choice: ChatChoice,
    id: Seq<char>,
) -> Seq<OutputItemView> {
    match choice.message.reasoning_content {
        Some(text) if text@.len() > 0 && params.wants_summary() => seq![
            OutputItemView::Reasoning(
                ReasoningItemView {
                    id: Some(id),
                    summary: seq![
                        SummaryPartView::SummaryText(SummaryTextContentView { text: text@ }),
                    ],
                    content: None,
                    encrypted_content: None,
                    status: Some(OutputStatus::Completed),
                },
            ),
        ],
        _ => seq![],
    }
}

/// The text of a message. Content in parts is shown by a placeholder.
pub open spec fn content_text(choice: ChatChoice) -> Seq<char> {
    match choice.message.content {
        Some(ChatCompletionMessageContent::Text(text)) => text@,
        Some(ChatCompletionMessageContent::Parts(_)) => "[multimodal content]"@,
        None => seq![],
    }
}

/// The text that the response's message is made of: the text of the first choice.
pub open spec fn response_text(response: CreateChatCompletionResponse) -> Seq<char> {
    if response.choices@.len() == 0 {
        seq![]
    } else {
        content_text(response.choices@[0])
    }
}

/// One item per call that the model wrote as text.
pub open spec fn written_items(
    tools: Option<Seq<ToolView>>,
    written: Seq<(Seq<char>, Seq<char>)>,
    ids: Seq<Seq<char>>,
    call_ids: Seq<Seq<char>>,
) -> Seq<OutputItemView> {
    Seq::new(
        written.len(),
        |i: int|
            call_message(tools, ids[i], call_ids[i], written[i].0, written[i].1),
    )
}

/// The items of a message's text: the calls written in it and what is left around them, or
/// the whole text where no call is written in it.
pub open spec fn text_items(
    tools: Option<Seq<ToolView>>,
    text: Seq<char>,
    written: Seq<(Seq<char>, Seq<char>)>,
    ids: ResponseIds,
) -> Seq<OutputItemView> {
    if text.len() == 0 {
        seq![]
    } else if written.len() == 0 {
        seq![text_message(ids.message@, text)]
    } else {
        let calls = written_items(
            tools,
            written,
            ids.written.deep_view(),
            ids.call_ids.deep_view(),
        );
        let rest = without_tool_calls(text);
        if trim(rest).len() == 0 {
            calls
        } else {
            calls.push(text_message(ids.message@, rest))
        }
    }
}

/// The items of a choice, before the token limit is accounted for: calls, reasoning, text.
/// A choice with none of them has an empty message.
pub open spec fn choice_items(
    params: ResponseParams,
    choice: ChatChoice,
    written: Seq<(Seq<char>, Seq<char>)>,
    ids: ResponseIds,
) -> Seq<OutputItemView> {
    let tools = params.tools.deep_view();
    let calls = structured_calls(choice);
    let items = structured_items(tools, calls, ids.calls.deep_view()) + reasoning_items(
        params,
        choice,
        ids.reasoning@,
    ) + text_items(tools, content_text(choice), written, ids);
    if items.len() == 0 {
        seq![text_message(ids.message@, seq![])]
    } else {
        items
    }
}

/// Whether an item is a message or a call.
pub open spec fn is_visible(item: OutputItemView) -> bool {
    item is Message || item is FunctionCall
}

/// An item that the token limit cut off. Reasoning that something followed is complete.
pub open spec fn cut_off(item: OutputItemView, reasoning_completed: bool) -> OutputItemView {
    match item {
        OutputItemView::Message(message) => OutputItemView::Message(
            OutputMessageView { status: OutputStatus::Incomplete, ..message },
        ),
        OutputItemView::FunctionCall(call) => OutputItemView::FunctionCall(
            FunctionToolCallView { status: Some(OutputStatus::Incomplete), ..call },
        ),
        OutputItemView::Reasoning(reasoning) => if reasoning_completed {
            item
        } else {
            OutputItemView::Reasoning(
                ReasoningItemView { status: Some(OutputStatus::Incomplete), ..reasoning },
            )
        },
    }
}

/// The items with the token limit accounted for.
pub open spec fn limited_items(items: Seq<OutputItemView>, limited: bool) -> Seq<OutputItemView> {
    if limited {
        let reasoning_completed = exists|i: int| 0 <= i < items.len() && is_visible(#[trigger] items[i]);
        items.map_values(|item: OutputItemView| cut_off(item, reasoning_completed))
    } else {
        items
    }
}

/// Whether the token limit ended the first choice.
pub open spec fn limit_reached(response: CreateChatCompletionResponse) -> bool {
    response.choices@.len() > 0 && response.choices@[0].finish_reason == Some(FinishReason::Length)
}

/// The output of a complete chat completion: that of its first choice.
pub open spec fn response_output(
    params: ResponseParams,
    response: CreateChatCompletionResponse,
    written: Seq<(Seq<char>, Seq<char>)>,
    ids: ResponseIds,
) -> Seq<OutputItemView> {
    if response.choices@.len() == 0 {
        seq![text_message(ids.message@, seq![])]
    } else {
        limited_items(
            choice_items(params, response.choices@[0], written, ids),
            limit_reached(response),
        )
    }
}

/// The response that a complete chat completion becomes, given the calls that its text
/// describes.
pub open spec fn converted_response(
    params: ResponseParams,
    context: Option<ResponsesContext>,
    completion: NvCreateChatCompletionResponse,
    written: Seq<(Seq<char>, Seq<char>)>,
    ids: ResponseIds,
) -> NvResponseView {
    let chat = completion.inner;
    let limited = limit_reached(chat);
    NvResponseView {
        inner: response_of(
            params,
            previous_id(context),
            ResponseCore {
                id: ids.response@,
                created_at: chat.created as u64,
                completed_at: if limited {
                    None
                } else {
                    Some(chat.created as u64)
                },
                status: if limited {
                    Status::Incomplete
                } else {
                    Status::Completed
                },
                model: match params.model {
                    Some(model) if chat.model@ == "unknown"@ => model@,
                    _ => chat.model@,
                },
                output: response_output(params, chat, written, ids),
                usage: match chat.usage {
                    Some(usage) => Some(usage_of(usage)),
                    None => None,
                },
            },
        ),
        nvext: completion.nvext.deep_view(),
        presence_penalty: params.presence_penalty.unwrap_or(Float32::zero()),
        frequency_penalty: params.frequency_penalty.unwrap_or(Float32::zero()),
        store: params.store.unwrap_or(false),
    }
}

/// Whether there are ids for every call.
pub open spec fn enough_ids(
    response: CreateChatCompletionResponse,
    written: nat,
    ids: ResponseIds,
) -> bool {
    &&& written <= ids.call_ids@.len()
    &&& written <= ids.written@.len()
    &&& response.choices@.len() > 0 ==> structured_calls(response.choices@[0]).len()
        <= ids.calls@.len()
}

/// A message item with the given text.
fn make_text_message(id: String, text: String) -> (item: OutputItem)
    ensures
        item.deep_view() == text_message(id@, text@),
{
    let item = OutputItem::Message(
        OutputMessage {
            id,
            content: vec![
                OutputMessageContent::OutputText(
                    OutputTextContent {
                        text,
                        annotations: Vec::new(),
                        logprobs: Some(Vec::new()),
                    },
                ),
            ],
            role: AssistantRole::Assistant,
            phase: None,
            status: OutputStatus::Completed,
        },
    );
    assert(item.deep_view() =~~= text_message(id@, text@));
    item
}

/// A function call item. The name that the model used is resolved to the declared tool.
fn make_function_call(
    params: &ResponseParams,
    id: String,
    call_id: String,
    chat_name: &String,
    arguments: String,
) -> (item: OutputItem)
    ensures
        item.deep_view() == call_message(
            params.tools.deep_view(),
            id@,
            call_id@,
            chat_name@,
            arguments@,
        ),
{
    let (name, namespace) = resolve_tool_identity(&params.tools, chat_name.as_str());
    OutputItem::FunctionCall(
        FunctionToolCall {
            id: Some(id),
            call_id,
            namespace,
            name,
            arguments,
            status: Some(OutputStatus::Completed),
        },
    )
}

/// Appends one item per structured call.
fn push_structured_calls(
    output: &mut Vec<OutputItem>,
    params: &ResponseParams,
    calls: &Vec<ChatCompletionMessageToolCall>,
    ids: &Vec<String>,
)
    requires
        calls@.len() <= ids@.len(),
    ensures
        final(output).deep_view() == old(output).deep_view() + structured_items(
            params.tools.deep_view(),
            calls@,
            ids.deep_view(),
        ),
{
    let ghost tools = params.tools.deep_view();
    let ghost before = output.deep_view();
    let ghost all = structured_items(tools, calls@, ids.deep_view());
    for i in 0..calls.len()
        invariant
            tools == params.tools.deep_view(),
            calls@.len() <= ids@.len(),
            all == structured_items(tools, calls@, ids.deep_view()),
            output.deep_view() == before + all.take(i as int),
    {
        let call = &calls[i];
        let item = make_function_call(
            params,
            ids[i].clone(),
            call.id.clone(),
            &call.function.name,
            call.function.arguments.clone(),
        );
        let ghost so_far = output.deep_view();
        output.push(item);
        assert(output.deep_view() =~= so_far.push(item.deep_view()));
        assert(item.deep_view() == all[i as int]);
        assert(all.take(i + 1) =~= all.take(i as int).push(all[i as int]));
        assert(output.deep_view() =~= before + all.take(i + 1));
    }
    assert(all.take(calls@.len() as int) =~= all);
}

/// Appends one item per call that the model wrote as text.
fn push_written_calls(
    output: &mut Vec<OutputItem>,
    params: &ResponseParams,
    written: &Vec<(String, String)>,
    ids: &ResponseIds,
)
    requires
        written@.len() <= ids.call_ids@.len(),
        written@.len() <= ids.written@.len(),
    ensures
        final(output).deep_view() == old(output).deep_view() + written_items(
            params.tools.deep_view(),
            written.deep_view(),
            ids.written.deep_view(),
            ids.call_ids.deep_view(),
        ),
{
    let ghost tools = params.tools.deep_view();
    let ghost before = output.deep_view();
    let ghost all = written_items(
        tools,
        written.deep_view(),
        ids.written.deep_view(),
        ids.call_ids.deep_view(),
    );
    for i in 0..written.len()
        invariant
            tools == params.tools.deep_view(),
            written@.len() <= ids.call_ids@.len(),
            written@.len() <= ids.written@.len(),
            all == written_items(
                tools,
                written.deep_view(),
                ids.written.deep_view(),
                ids.call_ids.deep_view(),
            ),
            output.deep_view() == before + all.take(i as int),
    {
        let item = make_function_call(
            params,
            ids.written[i].clone(),
            ids.call_ids[i].clone(),
            &written[i].0,
            written[i].1.clone(),
        );
        let ghost so_far = output.deep_view();
        output.push(item);
        assert(output.deep_view() =~= so_far.push(item.deep_view()));
        assert(written.deep_view()[i as int] == (written@[i as int].0@, written@[i as int].1@));
        assert(item.deep_view() == all[i as int]);
        assert(all.take(i + 1) =~= all.take(i as int).push(all[i as int]));
        assert(output.deep_view() =~= before + all.take(i + 1));
    }
    assert(all.take(written@.len() as int) =~= all);
}

/// Appends the reasoning item, where there is one.
fn push_reasoning(
    output: &mut Vec<OutputItem>,
    params: &ResponseParams,
    choice: &ChatChoice,
    id: &String,
)
    ensures
        final(output).deep_view() == old(output).deep_view() + reasoning_items(
            *params,
            *choice,
            id@,
        ),
{
    let ghost before = output.deep_view();
    if let Some(text) = &choice.message.reasoning_content {
        if !text.as_str().is_empty() && params.reasoning_summary_requested() {
            let item = OutputItem::Reasoning(
                ReasoningItem {
                    id: Some(id.clone()),
                    summary: vec![
                        SummaryPart::SummaryText(SummaryTextContent { text: text.clone() }),
                    ],
                    content: None,
                    encrypted_content: None,
                    status: Some(OutputStatus::Completed),
                },
            );
            assert(item.deep_view() =~~= reasoning_items(*params, *choice, id@)[0]);
            output.push(item);
            assert(output.deep_view() =~= before + seq![item.deep_view()]);
            return;
        }
    }
    assert(output.deep_view() =~= before + Seq::<OutputItemView>::empty());
}

/// Appends the items of a message's text.
fn push_text_items(
    output: &mut Vec<OutputItem>,
    params: &ResponseParams,
    text: &String,
    written: &Vec<(String, String)>,
    ids: &ResponseIds,
)
    requires
        written@.len() <= ids.call_ids@.len(),
        written@.len() <= ids.written@.len(),
    ensures
        final(output).deep_view() == old(output).deep_view() + text_items(
            params.tools.deep_view(),
            text@,
            written.deep_view(),
            *ids,
        ),
{
    let ghost before = output.deep_view();
    if text.as_str().is_empty() {
        assert(output.deep_view() =~= before + Seq::<OutputItemView>::empty());
    } else if written.len() == 0 {
        output.push(make_text_message(ids.message.clone(), text.clone()));
        assert(output.deep_view() =~= before + seq![text_message(ids.message@, text@)]);
    } else {
        push_written_calls(output, params, written, ids);
        let ghost called = output.deep_view();
        let rest = match strip_tool_call_text(text.as_str()) {
            Cow::Borrowed(same) => same.to_owned(),
            Cow::Owned(rest) => rest,
        };
        if !is_blank(rest.as_str()) {
            let ghost view = rest@;
            output.push(make_text_message(ids.message.clone(), rest));
            assert(output.deep_view() =~= called.push(text_message(ids.message@, view)));
            assert(output.deep_view() =~= before + text_items(
                params.tools.deep_view(),
                text@,
                written.deep_view(),
                *ids,
            ));
        }
    }
}

/// Marks an item as cut off by the token limit.
fn mark_cut_off(item: &mut OutputItem, reasoning_completed: bool)
    ensures
        final(item).deep_view() == cut_off(old(item).deep_view(), reasoning_completed),
{
    match item {
        OutputItem::Message(message) => {
            message.status = OutputStatus::Incomplete;
        },
        OutputItem::FunctionCall(call) => {
            call.status = Some(OutputStatus::Incomplete);
        },
        OutputItem::Reasoning(reasoning) => {
            if !reasoning_completed {
                reasoning.status = Some(OutputStatus::Incomplete);
            }
        },
    }
}

/// Marks the items as cut off by the token limit.
fn mark_all_cut_off(output: &mut Vec<OutputItem>)
    ensures
        final(output).deep_view() == limited_items(old(output).deep_view(), true),
{
    let ghost items = output.deep_view();
    let mut reasoning_completed = false;
    for i in 0..output.len()
        invariant
            items == output.deep_view(),
            reasoning_completed == exists|k: int|
                0 <= k < i && is_visible(#[trigger] items[k]),
    {
        assert(items[i as int] == output@[i as int].deep_view());
        let visible = match &output[i] {
            OutputItem::Message(_) => true,
            OutputItem::FunctionCall(_) => true,
            OutputItem::Reasoning(_) => false,
        };
        if visible {
            assert(is_visible(items[i as int]));
            reasoning_completed = true;
        }
    }
    let count: usize = output.len();
    for i in 0..count
        invariant
            count == output@.len(),
            items.len() == count,
            forall|k: int|
                0 <= k < i ==> (#[trigger] output@[k]).deep_view() == cut_off(
                    items[k],
                    reasoning_completed,
                ),
            forall|k: int| i <= k < count ==> (#[trigger] output@[k]).deep_view() == items[k],
    {
        mark_cut_off(&mut output[i], reasoning_completed);
    }
    assert(output.deep_view() =~= limited_items(items, true));
}

/// The text of the first choice.
fn text_of_response(response: &CreateChatCompletionResponse) -> (text: String)
    ensures
        text@ == response_text(*response),
{
    if response.choices.len() == 0 {
        return String::new();
    }
    match &response.choices[0].message.content {
        Some(ChatCompletionMessageContent::Text(text)) => text.clone(),
        Some(ChatCompletionMessageContent::Parts(_)) => "[multimodal content]".to_owned(),
        None => String::new(),
    }
}

/// The output of a complete chat completion.
fn output_of_response(
    response: &CreateChatCompletionResponse,
    params: &ResponseParams,
    written: &Vec<(String, String)>,
    ids: &ResponseIds,
) -> (output: Vec<OutputItem>)
    requires
        enough_ids(*response, written@.len(), *ids),
    ensures
        output.deep_view() == response_output(*params, *response, written.deep_view(), *ids),
{
    let mut output: Vec<OutputItem> = Vec::new();
    assert(output.deep_view() =~= seq![]);
    if response.choices.len() == 0 {
        output.push(make_text_message(ids.message.clone(), String::new()));
        assert(output.deep_view() =~= seq![text_message(ids.message@, seq![])]);
        return output;
    }
    let choice = &response.choices[0];
    if let Some(calls) = &choice.message.tool_calls {
        push_structured_calls(&mut output, params, calls, &ids.calls);
    }
    assert(output.deep_view() =~= structured_items(
        params.tools.deep_view(),
        structured_calls(*choice),
        ids.calls.deep_view(),
    ));
    push_reasoning(&mut output, params, choice, &ids.reasoning);
    let text = text_of_response(response);
    push_text_items(&mut output, params, &text, written, ids);
    if output.len() == 0 {
        output.push(make_text_message(ids.message.clone(), String::new()));
        assert(output.deep_view() =~= seq![text_message(ids.message@, seq![])]);
    }
    if let Some(FinishReason::Length) = choice.finish_reason {
        mark_all_cut_off(&mut output);
    }
    output
}

/// The response that a complete chat completion becomes, given the calls that its text
/// describes and the identifiers to use.
pub fn chat_completion_to_response_with(
    completion: NvCreateChatCompletionResponse,
    params: &ResponseParams,
    context: &Option<ResponsesContext>,
    written: &Vec<(String, String)>,
    ids: &ResponseIds,
) -> (response: NvResponse)
    requires
        enough_ids(completion.inner, written@.len(), *ids),
    ensures
        response.deep_view() == converted_response(
            *params,
            *context,
            completion,
            written.deep_view(),
            *ids,
        ),
{
    let chat = &completion.inner;
    let output = output_of_response(chat, params, written, ids);
    let limited = chat.choices.len() > 0 && matches!(
        chat.choices[0].finish_reason,
        Some(FinishReason::Length)
    );
    let created_at: u64 = chat.created as u64;
    let model = match &params.model {
        Some(model) => if same_text(chat.model.as_str(), "unknown") {
            model.clone()
        } else {
            chat.model.clone()
        },
        None => chat.model.clone(),
    };
    let usage = match chat.usage {
        Some(usage) => Some(response_usage(usage)),
        None => None,
    };
    let inner = build_response(
        params,
        context,
        ids.response.clone(),
        created_at,
        if limited {
            None
        } else {
            Some(created_at)
        },
        if limited {
            Status::Incomplete
        } else {
            Status::Completed
        },
        model,
        output,
        usage,
    );
    NvResponse {
        inner,
        nvext: completion.nvext,
        presence_penalty: params.presence_penalty.unwrap_or(Float32::zero()),
        frequency_penalty: params.frequency_penalty.unwrap_or(Float32::zero()),
        store: params.store.unwrap_or(false),
    }
}

/// Whether each identifier is a fresh one of its kind.
pub open spec fn are_fresh(ids: ResponseIds) -> bool {
    &&& is_id("resp_"@, ids.response@)
    &&& is_id("msg_"@, ids.message@)
    &&& is_id("rs_"@, ids.reasoning@)
    &&& forall|i: int| 0 <= i < ids.calls@.len() ==> is_id("fc_"@, #[trigger] ids.calls@[i]@)
    &&& forall|i: int| 0 <= i < ids.written@.len() ==> is_id("fc_"@, #[trigger] ids.written@[i]@)
    &&& forall|i: int|
        0 <= i < ids.call_ids@.len() ==> is_id("call_"@, #[trigger] ids.call_ids@[i]@)
}

/// The response that a complete chat completion becomes, with fresh identifiers. Calls that
/// the model wrote as text become calls.
pub fn chat_completion_to_response(
    completion: NvCreateChatCompletionResponse,
    params: &ResponseParams,
    context: &Option<ResponsesContext>,
) -> (response: NvResponse)
    ensures
        exists|ids: ResponseIds|
            {
                &&& are_fresh(ids)
                &&& enough_ids(
                    completion.inner,
                    written_calls(response_text(completion.inner), 0).len(),
                    ids,
                )
                &&& response.deep_view() == #[trigger] converted_response(
                    *params,
                    *context,
                    completion,
                    written_calls(response_text(completion.inner), 0),
                    ids,
                )
            },
{
    let text = text_of_response(&completion.inner);
    let written = parse_tool_call_text(text.as_str());
    let mut count: usize = 0;
    if completion.inner.choices.len() > 0 {
        if let Some(calls) = &completion.inner.choices[0].message.tool_calls {
            count = calls.len();
        }
    }
    let ids = ResponseIds {
        response: fresh_id("resp_"),
        message: fresh_id("msg_"),
        reasoning: fresh_id("rs_"),
        calls: fresh_ids("fc_", count),
        written: fresh_ids("fc_", written.len()),
        call_ids: fresh_ids("call_", written.len()),
    };
    assert(are_fresh(ids));
    chat_completion_to_response_with(completion, params, context, &written, &ids)
}

} // verus!
