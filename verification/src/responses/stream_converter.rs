//! The converter from chat completion chunks to Responses API events.

use vstd::prelude::*;

use crate::chat::{
    ChatChoiceStream, ChatCompletionMessageContent, ChatCompletionMessageToolCallChunk,
    FinishReason, NvCreateChatCompletionStreamResponse,
};
use crate::clock::unix_seconds;
use crate::ids::{fresh_id, fresh_ids, is_id};
use crate::responses::response::{build_response, response_usage, ResponseParams, ResponsesContext};
use crate::responses::room::{chunk_has_room, has_room};
use crate::responses::stream::{
    after_chunk, after_end, after_error, after_start, chunk_fits, close_call, close_calls,
    close_message, close_reasoning, delta_text, emit, fresh_state, named_call, on_arguments,
    on_choice, on_choices, on_reasoning, on_text, on_tool_call, on_tool_calls, on_tool_delta,
    open_message, open_reasoning, output_text, reserve_calls, reserved_call, summary_delta,
    summary_part, with_call, with_state, BackendError, CallState, Emitted, StreamState,
};
use crate::responses::stream_laws::{
    grows, has_room_to_end, law_chunks_keep_indices_distinct, lemma_choices_grow,
    lemma_close_calls_grow, lemma_close_calls_wf, lemma_end_wf, lemma_reserve_calls,
    lemma_tool_call_grows, lemma_tool_calls_grow, lemma_tool_delta_grows,
};
use crate::responses::tools::resolve_tool_identity;
use crate::responses::types::{
    AssistantRole, ErrorObject, FunctionToolCall, OutputItem, OutputMessage, OutputMessageContent,
    OutputStatus, OutputTextContent, ReasoningItem, Response, ResponseEventPayload,
    ResponseStreamEvent, ResponseUsage, Status, SummaryPart, SummaryTextContent,
};

verus! {

struct FunctionCallState {
    item_id: String,
    call_id: String,
    name: String,
    accumulated_args: String,
    output_index: u32,
    started: bool,
    done: bool,
}

impl DeepView for FunctionCallState {
    type V = CallState;

    closed spec fn deep_view(&self) -> CallState {
        CallState {
            item_id: self.item_id@,
            call_id: self.call_id@,
            name: self.name@,
            arguments: self.accumulated_args@,
            output_index: self.output_index as nat,
            started: self.started,
            done: self.done,
        }
    }
}

/// A converter from chat completion chunks to Responses API events.
pub struct ResponseStreamConverter {
    response_id: String,
    model: String,
    params: ResponseParams,
    api_context: Option<ResponsesContext>,
    created_at: u64,
    sequence_number: u64,
    message_item_id: String,
    message_started: bool,
    message_output_index: u32,
    accumulated_text: String,
    reasoning_item_id: String,
    reasoning_started: bool,
    reasoning_done: bool,
    reasoning_output_index: u32,
    reasoning_output_status: Option<OutputStatus>,
    accumulated_reasoning: String,
    function_call_items: Vec<FunctionCallState>,
    next_output_index: u32,
    usage: Option<ResponseUsage>,
    output_limit_reached: bool,
}

impl View for ResponseStreamConverter {
    type V = StreamState;

    closed spec fn view(&self) -> StreamState {
        StreamState {
            response_id: self.response_id@,
            model: self.model@,
            params: self.params,
            context: self.api_context,
            created_at: self.created_at,
            sequence_number: self.sequence_number as nat,
            message_item_id: self.message_item_id@,
            message_started: self.message_started,
            message_output_index: self.message_output_index as nat,
            text: self.accumulated_text@,
            reasoning_item_id: self.reasoning_item_id@,
            reasoning_started: self.reasoning_started,
            reasoning_done: self.reasoning_done,
            reasoning_output_index: self.reasoning_output_index as nat,
            reasoning_status: self.reasoning_output_status,
            reasoning: self.accumulated_reasoning@,
            calls: self.function_call_items.deep_view(),
            next_output_index: self.next_output_index as nat,
            usage: self.usage,
            output_limit_reached: self.output_limit_reached,
        }
    }
}

/// What a converter holds and what it has emitted into `events`.
spec fn run_of(converter: ResponseStreamConverter, events: Vec<ResponseStreamEvent>) -> Emitted {
    Emitted { state: converter@, events: events.deep_view() }
}

/// A text part without annotations.
fn text_part(text: &String) -> (part: OutputTextContent)
    ensures
        part.deep_view() == output_text(text@),
{
    let part = OutputTextContent {
        text: text.clone(),
        annotations: Vec::new(),
        logprobs: Some(Vec::new()),
    };
    assert(part.deep_view() =~~= output_text(text@));
    part
}

/// A summary part.
fn summary_of(text: &String) -> (part: SummaryPart)
    ensures
        part.deep_view() == summary_part(text@),
{
    SummaryPart::SummaryText(SummaryTextContent { text: text.clone() })
}

impl ResponseStreamConverter {
    /// A converter that has seen nothing, with the given ids and creation time.
    pub fn from_parts(
        model: String,
        params: ResponseParams,
        context: Option<ResponsesContext>,
        response_id: String,
        message_id: String,
        reasoning_id: String,
        created_at: u64,
    ) -> (converter: Self)
        ensures
            converter@ == fresh_state(
                model@,
                params,
                context,
                response_id@,
                message_id@,
                reasoning_id@,
                created_at,
            ),
            converter@.wf(),
    {
        let converter = ResponseStreamConverter {
            response_id,
            model,
            params,
            api_context: context,
            created_at,
            sequence_number: 0,
            message_item_id: message_id,
            message_started: false,
            message_output_index: 0,
            accumulated_text: String::new(),
            reasoning_item_id: reasoning_id,
            reasoning_started: false,
            reasoning_done: false,
            reasoning_output_index: 0,
            reasoning_output_status: None,
            accumulated_reasoning: String::new(),
            function_call_items: Vec::new(),
            next_output_index: 0,
            usage: None,
            output_limit_reached: false,
        };
        assert(converter@ =~= fresh_state(
            model@,
            params,
            context,
            response_id@,
            message_id@,
            reasoning_id@,
            created_at,
        ));
        converter
    }

    /// A converter that has seen nothing, with fresh ids, created now.
    pub fn new(model: String, params: ResponseParams) -> (converter: Self)
        ensures
            converter@ == fresh_state(
                model@,
                params,
                None,
                converter@.response_id,
                converter@.message_item_id,
                converter@.reasoning_item_id,
                converter@.created_at,
            ),
            converter@.wf(),
            is_id("resp_"@, converter@.response_id),
            is_id("msg_"@, converter@.message_item_id),
            is_id("rs_"@, converter@.reasoning_item_id),
    {
        let response_id = fresh_id("resp_");
        let message_id = fresh_id("msg_");
        let reasoning_id = fresh_id("rs_");
        Self::from_parts(
            model,
            params,
            None,
            response_id,
            message_id,
            reasoning_id,
            unix_seconds(),
        )
    }

    /// A converter whose responses also carry what the request's context holds.
    pub fn with_context(model: String, params: ResponseParams, context: ResponsesContext) -> (converter: Self)
        ensures
            converter@ == fresh_state(
                model@,
                params,
                Some(context),
                converter@.response_id,
                converter@.message_item_id,
                converter@.reasoning_item_id,
                converter@.created_at,
            ),
            converter@.wf(),
            is_id("resp_"@, converter@.response_id),
            is_id("msg_"@, converter@.message_item_id),
            is_id("rs_"@, converter@.reasoning_item_id),
    {
        let mut converter = Self::new(model, params);
        converter.api_context = Some(context);
        converter
    }

    /// Emits one event with the next sequence number.
    fn push_event(&mut self, events: &mut Vec<ResponseStreamEvent>, payload: ResponseEventPayload)
        requires
            old(self)@.sequence_number < u64::MAX,
        ensures
            run_of(*final(self), *final(events)) == emit(
                run_of(*old(self), *old(events)),
                payload.deep_view(),
            ),
    {
        let event = ResponseStreamEvent { sequence_number: self.sequence_number, payload };
        self.sequence_number = self.sequence_number + 1;
        events.push(event);
        assert(events.deep_view() =~= old(events).deep_view().push(event.deep_view()));
    }

    /// The response object in the given status, completed at `now`.
    pub fn make_response_at(&self, status: Status, output: Vec<OutputItem>, now: u64) -> (response: Response)
        ensures
            response.deep_view() == self@.response(status, output.deep_view(), now),
    {
        build_response(
            &self.params,
            &self.api_context,
            self.response_id.clone(),
            self.created_at,
            if status == Status::Completed {
                Some(now)
            } else {
                None
            },
            status,
            self.model.clone(),
            output,
            self.usage,
        )
    }

    /// The response object in the given status, completed now.
    pub fn make_response(&self, status: Status, output: Vec<OutputItem>) -> (response: Response)
        ensures
            exists|now: u64|
                response.deep_view() == #[trigger] self@.response(status, output.deep_view(), now),
    {
        self.make_response_at(status, output, unix_seconds())
    }

    /// The status of an item that ends with the stream.
    pub fn output_status(&self) -> (status: OutputStatus)
        ensures
            status == self@.output_status(),
    {
        if self.output_limit_reached {
            OutputStatus::Incomplete
        } else {
            OutputStatus::Completed
        }
    }

    /// The status of the response at the end of the stream.
    pub fn terminal_status(&self) -> (status: Status)
        ensures
            status == self@.terminal_status(),
    {
        if self.output_limit_reached {
            Status::Incomplete
        } else {
            Status::Completed
        }
    }

    /// Whether the reasoning item has been closed, and how.
    pub fn reasoning_output_status(&self) -> (status: Option<OutputStatus>)
        ensures
            status == self@.reasoning_status,
    {
        self.reasoning_output_status
    }

    /// The start of the stream at `now`: created, then in progress.
    pub fn emit_start_events_at(&mut self, now: u64) -> (events: Vec<ResponseStreamEvent>)
        requires
            old(self)@.wf(),
            old(self)@.sequence_number <= u64::MAX - 2,
        ensures
            (Emitted { state: final(self)@, events: events.deep_view() }) == after_start(
                old(self)@,
                now,
            ),
            final(self)@.wf(),
    {
        let mut events: Vec<ResponseStreamEvent> = Vec::new();
        assert(events.deep_view() =~= seq![]);
        let ghost before = self@;
        let none: Vec<OutputItem> = Vec::new();
        assert(none.deep_view() =~= seq![]);
        let response = self.make_response_at(Status::InProgress, none, now);
        self.push_event(&mut events, ResponseEventPayload::ResponseCreated { response });
        let none: Vec<OutputItem> = Vec::new();
        assert(none.deep_view() =~= seq![]);
        let response = self.make_response_at(Status::InProgress, none, now);
        self.push_event(&mut events, ResponseEventPayload::ResponseInProgress { response });
        events
    }

    /// The start of the stream: created, then in progress.
    pub fn emit_start_events(&mut self) -> (events: Vec<ResponseStreamEvent>)
        requires
            old(self)@.wf(),
            old(self)@.sequence_number <= u64::MAX - 2,
        ensures
            exists|now: u64|
                (Emitted { state: final(self)@, events: events.deep_view() })
                    == #[trigger] after_start(old(self)@, now),
            final(self)@.wf(),
    {
        self.emit_start_events_at(unix_seconds())
    }

    /// A piece of the reasoning summary.
    fn push_summary_delta(&mut self, events: &mut Vec<ResponseStreamEvent>, delta: &str)
        requires
            old(self)@.sequence_number < u64::MAX,
        ensures
            run_of(*final(self), *final(events)) == summary_delta(
                run_of(*old(self), *old(events)),
                delta@,
            ),
    {
        self.accumulated_reasoning.append(delta);
        let item_id = self.reasoning_item_id.clone();
        let output_index: u32 = self.reasoning_output_index;
        self.push_event(
            events,
            ResponseEventPayload::ResponseReasoningSummaryTextDelta {
                item_id,
                output_index,
                summary_index: 0,
                delta: delta.to_owned(),
            },
        );
    }

    /// Opens the reasoning item, unless it is open.
    fn open_reasoning_item(&mut self, events: &mut Vec<ResponseStreamEvent>)
        requires
            open_reasoning(run_of(*old(self), *old(events))).state.fits(),
        ensures
            run_of(*final(self), *final(events)) == open_reasoning(run_of(*old(self), *old(events))),
    {
        if self.reasoning_started {
            return;
        }
        let index: u32 = self.next_output_index;
        self.reasoning_started = true;
        self.reasoning_output_index = index;
        self.next_output_index = index + 1;
        let item = OutputItem::Reasoning(
            ReasoningItem {
                id: Some(self.reasoning_item_id.clone()),
                summary: Vec::new(),
                content: None,
                encrypted_content: None,
                status: Some(OutputStatus::InProgress),
            },
        );
        assert(item->Reasoning_0.summary.deep_view() =~= seq![]);
        self.push_event(
            events,
            ResponseEventPayload::ResponseOutputItemAdded { output_index: index, item },
        );
        let item_id = self.reasoning_item_id.clone();
        let part = summary_of(&String::new());
        self.push_event(
            events,
            ResponseEventPayload::ResponseReasoningSummaryPartAdded {
                item_id,
                output_index: index,
                summary_index: 0,
                part,
            },
        );
    }

    /// Shows reasoning where a summary was asked for and is not closed.
    fn push_reasoning(&mut self, events: &mut Vec<ResponseStreamEvent>, text: &Option<String>)
        requires
            on_reasoning(run_of(*old(self), *old(events)), *text).state.fits(),
        ensures
            run_of(*final(self), *final(events)) == on_reasoning(
                run_of(*old(self), *old(events)),
                *text,
            ),
    {
        if let Some(delta) = text {
            if !delta.as_str().is_empty() && !self.reasoning_done
                && self.params.reasoning_summary_requested() {
                self.open_reasoning_item(events);
                self.push_summary_delta(events, delta.as_str());
            }
        }
    }

    /// Closes the reasoning.
    fn append_reasoning_done_events(
        &mut self,
        events: &mut Vec<ResponseStreamEvent>,
        status: OutputStatus,
    )
        requires
            close_reasoning(run_of(*old(self), *old(events)), status).state.fits(),
        ensures
            run_of(*final(self), *final(events)) == close_reasoning(
                run_of(*old(self), *old(events)),
                status,
            ),
    {
        if self.reasoning_done {
            return;
        }
        self.reasoning_done = true;
        if !self.reasoning_started {
            return;
        }
        self.reasoning_output_status = Some(status);
        let output_index: u32 = self.reasoning_output_index;
        if status == OutputStatus::Incomplete && !self.accumulated_reasoning.as_str().is_empty() {
            self.push_summary_delta(events, "...");
        }
        let item_id = self.reasoning_item_id.clone();
        let text = self.accumulated_reasoning.clone();
        self.push_event(
            events,
            ResponseEventPayload::ResponseReasoningSummaryTextDone {
                item_id,
                output_index,
                summary_index: 0,
                text,
            },
        );
        let item_id = self.reasoning_item_id.clone();
        let part = summary_of(&self.accumulated_reasoning);
        self.push_event(
            events,
            ResponseEventPayload::ResponseReasoningSummaryPartDone {
                item_id,
                output_index,
                summary_index: 0,
                part,
            },
        );
        let item = self.reasoning_output_item(status);
        self.push_event(
            events,
            ResponseEventPayload::ResponseOutputItemDone { output_index, item },
        );
    }

    /// The reasoning item with its full summary.
    fn reasoning_output_item(&self, status: OutputStatus) -> (item: OutputItem)
        ensures
            item.deep_view() == self@.reasoning_item(status),
    {
        let part = summary_of(&self.accumulated_reasoning);
        let item = OutputItem::Reasoning(
            ReasoningItem {
                id: Some(self.reasoning_item_id.clone()),
                summary: vec![part],
                content: None,
                encrypted_content: None,
                status: Some(status),
            },
        );
        assert(item.deep_view() =~~= self@.reasoning_item(status));
        item
    }

    /// The message item with its full text.
    fn message_output_item(&self, status: OutputStatus) -> (item: OutputItem)
        ensures
            item.deep_view() == self@.message_item(status),
    {
        let part = text_part(&self.accumulated_text);
        let item = OutputItem::Message(
            OutputMessage {
                id: self.message_item_id.clone(),
                content: vec![OutputMessageContent::OutputText(part)],
                role: AssistantRole::Assistant,
                phase: None,
                status,
            },
        );
        assert(item.deep_view() =~~= self@.message_item(status));
        item
    }

    /// The item of the call at position `j`, with the given arguments.
    fn call_output_item(&self, j: usize, arguments: String, status: OutputStatus) -> (item: OutputItem)
        requires
            j < self@.calls.len(),
        ensures
            item.deep_view() == self@.call_item(self@.calls[j as int], arguments@, status),
    {
        let call = &self.function_call_items[j];
        let (name, namespace) = resolve_tool_identity(&self.params.tools, call.name.as_str());
        OutputItem::FunctionCall(
            FunctionToolCall {
                id: Some(call.item_id.clone()),
                call_id: call.call_id.clone(),
                namespace,
                name,
                arguments,
                status: Some(status),
            },
        )
    }

    /// Opens the message item, unless it is open.
    fn open_message_item(&mut self, events: &mut Vec<ResponseStreamEvent>)
        requires
            open_message(run_of(*old(self), *old(events))).state.fits(),
        ensures
            run_of(*final(self), *final(events)) == open_message(run_of(*old(self), *old(events))),
    {
        if self.message_started {
            return;
        }
        let index: u32 = self.next_output_index;
        self.message_started = true;
        self.message_output_index = index;
        self.next_output_index = index + 1;
        let item = OutputItem::Message(
            OutputMessage {
                id: self.message_item_id.clone(),
                content: Vec::new(),
                role: AssistantRole::Assistant,
                phase: None,
                status: OutputStatus::InProgress,
            },
        );
        assert(item->Message_0.content.deep_view() =~= seq![]);
        self.push_event(
            events,
            ResponseEventPayload::ResponseOutputItemAdded { output_index: index, item },
        );
        let item_id = self.message_item_id.clone();
        let part = text_part(&String::new());
        self.push_event(
            events,
            ResponseEventPayload::ResponseContentPartAdded {
                item_id,
                output_index: index,
                content_index: 0,
                part,
            },
        );
    }

    /// Extends the message.
    fn push_text(&mut self, events: &mut Vec<ResponseStreamEvent>, content: &Option<ChatCompletionMessageContent>)
        requires
            on_text(run_of(*old(self), *old(events)), delta_text(*content)).state.fits(),
        ensures
            run_of(*final(self), *final(events)) == on_text(
                run_of(*old(self), *old(events)),
                delta_text(*content),
            ),
    {
        if let Some(ChatCompletionMessageContent::Text(text)) = content {
            if !text.as_str().is_empty() {
                self.append_reasoning_done_events(events, OutputStatus::Completed);
                self.open_message_item(events);
                self.accumulated_text.append(text.as_str());
                let item_id = self.message_item_id.clone();
                let output_index: u32 = self.message_output_index;
                let payload = ResponseEventPayload::ResponseOutputTextDelta {
                    item_id,
                    output_index,
                    content_index: 0,
                    delta: text.clone(),
                    logprobs: Some(Vec::new()),
                };
                assert(payload->ResponseOutputTextDelta_logprobs->0.deep_view() =~= seq![]);
                self.push_event(events, payload);
            }
        }
    }

    /// Reserves calls until there are more than `index`.
    fn reserve_up_to(&mut self, index: u32, ids: &Vec<String>, base: usize)
        requires
            base <= old(self)@.calls.len(),
            index < base + ids@.len(),
            reserve_calls(old(self)@, (index + 1) as nat, ids.deep_view(), base as nat).fits(),
        ensures
            final(self)@ == reserve_calls(
                old(self)@,
                (index + 1) as nat,
                ids.deep_view(),
                base as nat,
            ),
    {
        let ghost target = reserve_calls(
            self@,
            (index + 1) as nat,
            ids.deep_view(),
            base as nat,
        );
        while self.function_call_items.len() <= index as usize
            invariant
                base <= self@.calls.len(),
                index < base + ids@.len(),
                target.fits(),
                target == reserve_calls(
                    self@,
                    (index + 1) as nat,
                    ids.deep_view(),
                    base as nat,
                ),
            decreases index + 1 - self@.calls.len(),
        {
            proof {
                lemma_reserve_calls(self@, (index + 1) as nat, ids.deep_view(), base as nat);
            }
            let ghost before = self@;
            let at: usize = self.function_call_items.len() - base;
            let output_index: u32 = self.next_output_index;
            self.next_output_index = output_index + 1;
            self.function_call_items.push(
                FunctionCallState {
                    item_id: ids[at].clone(),
                    call_id: String::new(),
                    name: String::new(),
                    accumulated_args: String::new(),
                    output_index,
                    started: false,
                    done: false,
                },
            );
            assert(self@.calls =~= before.calls.push(
                reserved_call(ids.deep_view()[before.calls.len() - base], before.next_output_index),
            ));
        }
    }

    /// A piece of the arguments of the call at position `j`.
    fn push_arguments(&mut self, events: &mut Vec<ResponseStreamEvent>, j: usize, delta: &String)
        requires
            j < old(self)@.calls.len(),
            on_arguments(run_of(*old(self), *old(events)), j as int, delta@).state.fits(),
        ensures
            run_of(*final(self), *final(events)) == on_arguments(
                run_of(*old(self), *old(events)),
                j as int,
                delta@,
            ),
    {
        let output_index: u32 = self.function_call_items[j].output_index;
        if !self.function_call_items[j].started {
            let ghost before = self@;
            self.function_call_items[j].started = true;
            assert(self@.calls =~= before.calls.update(
                j as int,
                CallState { started: true, ..before.calls[j as int] },
            ));
            let item = self.call_output_item(j, String::new(), OutputStatus::InProgress);
            self.push_event(
                events,
                ResponseEventPayload::ResponseOutputItemAdded { output_index, item },
            );
        }
        let ghost before = self@;
        self.function_call_items[j].accumulated_args.append(delta.as_str());
        assert(self@.calls =~= before.calls.update(
            j as int,
            CallState {
                arguments: before.calls[j as int].arguments + delta@,
                ..before.calls[j as int]
            },
        ));
        let item_id = self.function_call_items[j].item_id.clone();
        self.push_event(
            events,
            ResponseEventPayload::ResponseFunctionCallArgumentsDelta {
                item_id,
                output_index,
                delta: delta.clone(),
            },
        );
    }

    /// A piece of a tool call.
    fn push_tool_call(
        &mut self,
        events: &mut Vec<ResponseStreamEvent>,
        chunk: &ChatCompletionMessageToolCallChunk,
        ids: &Vec<String>,
        base: usize,
    )
        requires
            base <= old(self)@.calls.len(),
            chunk.index < base + ids@.len(),
            on_tool_call(
                run_of(*old(self), *old(events)),
                *chunk,
                ids.deep_view(),
                base as nat,
            ).state.fits(),
        ensures
            run_of(*final(self), *final(events)) == on_tool_call(
                run_of(*old(self), *old(events)),
                *chunk,
                ids.deep_view(),
                base as nat,
            ),
            old(self)@.calls.len() <= final(self)@.calls.len(),
    {
        proof {
            lemma_reserve_calls(self@, (chunk.index + 1) as nat, ids.deep_view(), base as nat);
            lemma_tool_call_grows(
                run_of(*self, *events),
                *chunk,
                ids.deep_view(),
                base as nat,
            );
        }
        self.reserve_up_to(chunk.index, ids, base);
        let j: usize = chunk.index as usize;
        let ghost reserved = self@;
        if let Some(id) = &chunk.id {
            self.function_call_items[j].call_id = id.clone();
        }
        if let Some(function) = &chunk.function {
            if let Some(name) = &function.name {
                self.function_call_items[j].name = name.clone();
            }
        }
        assert(self@.calls =~= reserved.calls.update(
            j as int,
            named_call(reserved.calls[j as int], chunk.id, chunk.function),
        ));
        assert(self@ == with_call(
            reserved,
            j as int,
            named_call(reserved.calls[j as int], chunk.id, chunk.function),
        ));
        if let Some(function) = &chunk.function {
            if let Some(delta) = &function.arguments {
                self.push_arguments(events, j, delta);
            }
        }
    }

    /// Closes the call at position `j`, if it has started and is open.
    fn close_function_call(&mut self, events: &mut Vec<ResponseStreamEvent>, j: usize)
        requires
            j < old(self)@.calls.len(),
            close_call(run_of(*old(self), *old(events)), j as int).state.fits(),
        ensures
            run_of(*final(self), *final(events)) == close_call(
                run_of(*old(self), *old(events)),
                j as int,
            ),
    {
        if !self.function_call_items[j].started || self.function_call_items[j].done {
            return;
        }
        let ghost before = self@;
        self.function_call_items[j].done = true;
        assert(self@.calls =~= before.calls.update(
            j as int,
            CallState { done: true, ..before.calls[j as int] },
        ));
        let output_index: u32 = self.function_call_items[j].output_index;
        let item_id = self.function_call_items[j].item_id.clone();
        let arguments = self.function_call_items[j].accumulated_args.clone();
        let (name, _) = resolve_tool_identity(
            &self.params.tools,
            self.function_call_items[j].name.as_str(),
        );
        self.push_event(
            events,
            ResponseEventPayload::ResponseFunctionCallArgumentsDone {
                item_id,
                output_index,
                arguments,
                name: Some(name),
            },
        );
        let arguments = self.function_call_items[j].accumulated_args.clone();
        let status = self.output_status();
        let item = self.call_output_item(j, arguments, status);
        self.push_event(
            events,
            ResponseEventPayload::ResponseOutputItemDone { output_index, item },
        );
    }

    /// Closes every call that has started and is open.
    fn close_function_calls(&mut self, events: &mut Vec<ResponseStreamEvent>)
        requires
            close_calls(run_of(*old(self), *old(events)), 0).state.fits(),
        ensures
            run_of(*final(self), *final(events)) == close_calls(
                run_of(*old(self), *old(events)),
                0,
            ),
    {
        let count: usize = self.function_call_items.len();
        let ghost target = close_calls(run_of(*self, *events), 0);
        for j in 0..count
            invariant
                count == self@.calls.len(),
                target.state.fits(),
                target == close_calls(run_of(*self, *events), j as int),
        {
            proof {
                lemma_close_calls_grow(close_call(run_of(*self, *events), j as int), j + 1);
            }
            self.close_function_call(events, j);
        }
    }

    /// Closes the message, if it has started.
    fn push_message_done(&mut self, events: &mut Vec<ResponseStreamEvent>)
        requires
            close_message(run_of(*old(self), *old(events))).state.fits(),
        ensures
            run_of(*final(self), *final(events)) == close_message(run_of(*old(self), *old(events))),
    {
        if !self.message_started {
            return;
        }
        let output_index: u32 = self.message_output_index;
        let item_id = self.message_item_id.clone();
        let text = self.accumulated_text.clone();
        let payload = ResponseEventPayload::ResponseOutputTextDone {
            item_id,
            output_index,
            content_index: 0,
            text,
            logprobs: Some(Vec::new()),
        };
        assert(payload->ResponseOutputTextDone_logprobs->0.deep_view() =~= seq![]);
        self.push_event(events, payload);
        let item_id = self.message_item_id.clone();
        let part = text_part(&self.accumulated_text);
        self.push_event(
            events,
            ResponseEventPayload::ResponseContentPartDone {
                item_id,
                output_index,
                content_index: 0,
                part,
            },
        );
        let status = self.output_status();
        let item = self.message_output_item(status);
        self.push_event(
            events,
            ResponseEventPayload::ResponseOutputItemDone { output_index, item },
        );
    }

    /// The pieces of tool calls of one choice.
    fn push_tool_delta(
        &mut self,
        events: &mut Vec<ResponseStreamEvent>,
        chunks: &Option<Vec<ChatCompletionMessageToolCallChunk>>,
        ids: &Vec<String>,
        base: usize,
    )
        requires
            base <= old(self)@.calls.len(),
            chunks matches Some(all) ==> forall|k: int|
                0 <= k < all@.len() ==> (#[trigger] all@[k]).index < base + ids@.len(),
            on_tool_delta(
                run_of(*old(self), *old(events)),
                *chunks,
                ids.deep_view(),
                base as nat,
            ).state.fits(),
        ensures
            run_of(*final(self), *final(events)) == on_tool_delta(
                run_of(*old(self), *old(events)),
                *chunks,
                ids.deep_view(),
                base as nat,
            ),
            old(self)@.calls.len() <= final(self)@.calls.len(),
    {
        let ghost names = ids.deep_view();
        let ghost target = on_tool_delta(run_of(*self, *events), *chunks, names, base as nat);
        if let Some(all) = chunks {
            if all.len() > 0 {
                proof {
                    lemma_tool_calls_grow(
                        close_reasoning(run_of(*self, *events), OutputStatus::Completed),
                        all@,
                        0,
                        names,
                        base as nat,
                    );
                }
                self.append_reasoning_done_events(events, OutputStatus::Completed);
                for k in 0..all.len()
                    invariant
                        names == ids.deep_view(),
                        old(self)@.calls.len() <= self@.calls.len(),
                        base <= old(self)@.calls.len(),
                        forall|k: int|
                            0 <= k < all@.len() ==> (#[trigger] all@[k]).index < base
                                + ids@.len(),
                        target.state.fits(),
                        target == on_tool_calls(
                            run_of(*self, *events),
                            all@,
                            k as int,
                            names,
                            base as nat,
                        ),
                {
                    proof {
                        lemma_tool_calls_grow(
                            on_tool_call(
                                run_of(*self, *events),
                                all@[k as int],
                                names,
                                base as nat,
                            ),
                            all@,
                            k + 1,
                            names,
                            base as nat,
                        );
                    }
                    self.push_tool_call(events, &all[k], ids, base);
                }
            }
        }
    }

    /// One choice of a chunk.
    fn push_choice(
        &mut self,
        events: &mut Vec<ResponseStreamEvent>,
        choice: &ChatChoiceStream,
        ids: &Vec<String>,
        base: usize,
    )
        requires
            base <= old(self)@.calls.len(),
            choice.delta.tool_calls matches Some(chunks) ==> forall|k: int|
                0 <= k < chunks@.len() ==> (#[trigger] chunks@[k]).index < base + ids@.len(),
            on_choice(
                run_of(*old(self), *old(events)),
                *choice,
                ids.deep_view(),
                base as nat,
            ).state.fits(),
        ensures
            run_of(*final(self), *final(events)) == on_choice(
                run_of(*old(self), *old(events)),
                *choice,
                ids.deep_view(),
                base as nat,
            ),
            old(self)@.calls.len() <= final(self)@.calls.len(),
    {
        let ghost names = ids.deep_view();
        let ghost start = run_of(*self, *events);
        let limited = matches!(choice.finish_reason, Some(FinishReason::Length));
        if limited {
            self.output_limit_reached = true;
        }
        proof {
            lemma_choice_stages_fit(
                start,
                run_of(*self, *events),
                *choice,
                names,
                base as nat,
            );
        }
        self.push_reasoning(events, &choice.delta.reasoning_content);
        self.push_text(events, &choice.delta.content);
        self.push_tool_delta(events, &choice.delta.tool_calls, ids, base);
        if choice.finish_reason.is_some() {
            proof {
                lemma_close_calls_len(run_of(*self, *events), 0);
            }
            self.close_function_calls(events);
        }
    }

    /// The output so far, in the order of the output indices. Items that are not closed get
    /// the given status.
    pub fn collect_output(&self, status: OutputStatus) -> (output: Vec<OutputItem>)
        requires
            self@.wf(),
        ensures
            output.deep_view() == self@.output(status),
    {
        let mut output: Vec<OutputItem> = Vec::new();
        let mut next: usize = 0;
        assert(output.deep_view() =~= seq![]);
        for index in 0..self.next_output_index
            invariant
                self@.wf(),
                next <= self@.calls.len(),
                forall|k: int| 0 <= k < next ==> (#[trigger] self@.calls[k]).output_index < index,
                forall|k: int|
                    next <= k < self@.calls.len() ==> (#[trigger] self@.calls[k]).output_index
                        >= index,
                output.deep_view() == self@.output_below(index as nat, status),
        {
            let ghost before = output.deep_view();
            let ghost item_here = self@.item_at(index as nat, status);
            if next < self.function_call_items.len() && self.function_call_items[next].output_index
                == index {
                let call = &self.function_call_items[next];
                assert(call.deep_view() == self@.calls[next as int]);
                if call.started {
                    assert(self@.is_started_call(next as int, index as nat));
                    let ghost j = choose|j: int| self@.is_started_call(j, index as nat);
                    assert(j == next);
                    let arguments = call.accumulated_args.clone();
                    let item = self.call_output_item(next, arguments, status);
                    assert(item_here == Some(item.deep_view()));
                    output.push(item);
                    assert(output.deep_view() =~= before.push(item.deep_view()));
                } else {
                    assert forall|j: int| !self@.is_started_call(j, index as nat) by {
                        if self@.is_started_call(j, index as nat) {
                            assert(j == next);
                        }
                    }
                }
                next += 1;
            } else {
                proof {
                    if next < self@.calls.len() {
                        assert(self.function_call_items@[next as int].deep_view()
                            == self@.calls[next as int]);
                    }
                    assert forall|j: int| !self@.is_started_call(j, index as nat) by {}
                }
                if self.reasoning_started && self.reasoning_output_index == index {
                    let item = self.reasoning_output_item(
                        self.reasoning_output_status.unwrap_or(status),
                    );
                    output.push(item);
                    assert(output.deep_view() =~= before.push(item.deep_view()));
                } else if self.message_started && self.message_output_index == index {
                    let item = self.message_output_item(status);
                    output.push(item);
                    assert(output.deep_view() =~= before.push(item.deep_view()));
                }
            }
        }
        output
    }

    /// The output so far, with items that are not closed in the status of the stream's end.
    pub fn completed_output(&self) -> (output: Vec<OutputItem>)
        requires
            self@.wf(),
        ensures
            output.deep_view() == self@.output(self@.output_status()),
    {
        self.collect_output(self.output_status())
    }

    /// How many new calls a chunk adds.
    fn new_call_count(&self, chunk: &NvCreateChatCompletionStreamResponse) -> (count: usize)
        requires
            forall|c: int, k: int|
                #![trigger chunk.inner.choices@[c].delta.tool_calls->0@[k]]
                0 <= c < chunk.inner.choices@.len()
                    && chunk.inner.choices@[c].delta.tool_calls is Some && 0 <= k
                    < chunk.inner.choices@[c].delta.tool_calls->0@.len()
                    ==> chunk.inner.choices@[c].delta.tool_calls->0@[k].index < u32::MAX,
        ensures
            has_ids_for(self@, *chunk, count as nat),
    {
        let known: usize = self.function_call_items.len();
        let mut count: usize = 0;
        for c in 0..chunk.inner.choices.len()
            invariant
                known == self@.calls.len(),
                forall|c: int, k: int|
                    #![trigger chunk.inner.choices@[c].delta.tool_calls->0@[k]]
                    0 <= c < chunk.inner.choices@.len()
                        && chunk.inner.choices@[c].delta.tool_calls is Some && 0 <= k
                        < chunk.inner.choices@[c].delta.tool_calls->0@.len()
                        ==> chunk.inner.choices@[c].delta.tool_calls->0@[k].index < u32::MAX,
                forall|d: int, k: int|
                    #![trigger chunk.inner.choices@[d].delta.tool_calls->0@[k]]
                    0 <= d < c && chunk.inner.choices@[d].delta.tool_calls is Some && 0 <= k
                        < chunk.inner.choices@[d].delta.tool_calls->0@.len()
                        ==> chunk.inner.choices@[d].delta.tool_calls->0@[k].index < known + count,
        {
            if let Some(chunks) = &chunk.inner.choices[c].delta.tool_calls {
                for k in 0..chunks.len()
                    invariant
                        known == self@.calls.len(),
                        c < chunk.inner.choices@.len(),
                        chunk.inner.choices@[c as int].delta.tool_calls == Some(*chunks),
                        forall|c: int, k: int|
                            #![trigger chunk.inner.choices@[c].delta.tool_calls->0@[k]]
                            0 <= c < chunk.inner.choices@.len()
                                && chunk.inner.choices@[c].delta.tool_calls is Some && 0 <= k
                                < chunk.inner.choices@[c].delta.tool_calls->0@.len()
                                ==> chunk.inner.choices@[c].delta.tool_calls->0@[k].index
                                < u32::MAX,
                        forall|d: int, k: int|
                            #![trigger chunk.inner.choices@[d].delta.tool_calls->0@[k]]
                            0 <= d < c && chunk.inner.choices@[d].delta.tool_calls is Some && 0
                                <= k < chunk.inner.choices@[d].delta.tool_calls->0@.len()
                                ==> chunk.inner.choices@[d].delta.tool_calls->0@[k].index < known
                                + count,
                        forall|m: int| 0 <= m < k ==> (#[trigger] chunks@[m]).index < known + count,
                {
                    assert(chunk.inner.choices@[c as int].delta.tool_calls->0@[k as int]
                        == chunks@[k as int]);
                    let index: usize = chunks[k].index as usize;
                    if index >= known && index - known >= count {
                        count = index - known + 1;
                    }
                }
            }
        }
        count
    }

    /// One chunk. The calls that it adds take their item ids from `ids`, in order.
    pub fn process_chunk_with(
        &mut self,
        chunk: &NvCreateChatCompletionStreamResponse,
        ids: &Vec<String>,
    ) -> (events: Vec<ResponseStreamEvent>)
        requires
            old(self)@.wf(),
            has_ids_for(old(self)@, *chunk, ids@.len()),
            after_chunk(old(self)@, *chunk, ids.deep_view()).state.fits(),
        ensures
            (Emitted { state: final(self)@, events: events.deep_view() }) == after_chunk(
                old(self)@,
                *chunk,
                ids.deep_view(),
            ),
            final(self)@.wf(),
    {
        let mut events: Vec<ResponseStreamEvent> = Vec::new();
        assert(events.deep_view() =~= seq![]);
        let ghost names = ids.deep_view();
        let ghost target = after_chunk(self@, *chunk, names);
        let base: usize = self.function_call_items.len();
        if let Some(usage) = chunk.inner.usage {
            self.usage = Some(response_usage(usage));
        }
        for c in 0..chunk.inner.choices.len()
            invariant
                names == ids.deep_view(),
                base == old(self)@.calls.len(),
                base <= self@.calls.len(),
                has_ids_for(old(self)@, *chunk, ids@.len()),
                target.state.fits(),
                target == on_choices(
                    run_of(*self, events),
                    chunk.inner.choices@,
                    c as int,
                    names,
                    base as nat,
                ),
        {
            let choice = &chunk.inner.choices[c];
            proof {
                lemma_choices_grow(
                    on_choice(run_of(*self, events), *choice, names, base as nat),
                    chunk.inner.choices@,
                    c + 1,
                    names,
                    base as nat,
                );
                if let Some(chunks) = &choice.delta.tool_calls {
                    assert forall|k: int| 0 <= k < chunks@.len() implies (
                    #[trigger] chunks@[k]).index < base + ids@.len() by {
                        assert(chunk.inner.choices@[c as int].delta.tool_calls->0@[k]
                            == chunks@[k]);
                    }
                }
            }
            self.push_choice(&mut events, choice, ids, base);
        }
        proof {
            law_chunks_keep_indices_distinct(old(self)@, *chunk, names);
        }
        events
    }

    /// One chunk. The calls that it adds get fresh item ids.
    pub fn process_chunk(&mut self, chunk: &NvCreateChatCompletionStreamResponse) -> (events: Vec<
        ResponseStreamEvent,
    >)
        requires
            old(self)@.wf(),
            chunk_fits(old(self)@, *chunk),
        ensures
            exists|ids: Seq<Seq<char>>|
                {
                    &&& has_ids_for(old(self)@, *chunk, ids.len())
                    &&& forall|i: int| 0 <= i < ids.len() ==> is_id("fc_"@, #[trigger] ids[i])
                    &&& (Emitted { state: final(self)@, events: events.deep_view() })
                        == #[trigger] after_chunk(old(self)@, *chunk, ids)
                },
            final(self)@.wf(),
    {
        proof {
            lemma_fitting_indices(self@, *chunk);
        }
        let count = self.new_call_count(chunk);
        let ids = fresh_ids("fc_", count);
        proof {
            assert(after_chunk(self@, *chunk, ids.deep_view()).state.fits());
            assert forall|i: int| 0 <= i < ids.deep_view().len() implies is_id(
                "fc_"@,
                #[trigger] ids.deep_view()[i],
            ) by {
                assert(is_id("fc_"@, ids@[i]@));
            }
        }
        self.process_chunk_with(chunk, &ids)
    }

    /// Whether the counters are sure to fit their machine types after a chunk.
    pub fn has_room_for(&self, chunk: &NvCreateChatCompletionStreamResponse) -> (room: bool)
        ensures
            room == has_room(self@.sequence_number, self@.calls.len(), *chunk),
    {
        chunk_has_room(self.sequence_number, self.function_call_items.len(), chunk)
    }

    /// Whether the counters are sure to fit their machine types after the end of the stream.
    pub fn has_room_to_end(&self) -> (room: bool)
        ensures
            room == has_room_to_end(self@),
    {
        self.function_call_items.len() as u128 * 2 + 8 <= (u64::MAX - self.sequence_number) as u128
    }

    /// The end of the stream at `now`.
    pub fn emit_end_events_at(&mut self, now: u64) -> (events: Vec<ResponseStreamEvent>)
        requires
            old(self)@.wf(),
            after_end(old(self)@, now).state.fits(),
        ensures
            (Emitted { state: final(self)@, events: events.deep_view() }) == after_end(
                old(self)@,
                now,
            ),
            final(self)@.wf(),
    {
        let mut events: Vec<ResponseStreamEvent> = Vec::new();
        assert(events.deep_view() =~= seq![]);
        let status = self.output_status();
        let ghost start = run_of(*self, events);
        proof {
            let messaged = close_message(close_reasoning(start, status));
            lemma_close_calls_grow(messaged, 0);
            lemma_end_wf(self@, now);
        }
        self.append_reasoning_done_events(&mut events, status);
        self.push_message_done(&mut events);
        self.close_function_calls(&mut events);
        proof {
            let closed = run_of(*self, events);
            assert(closed.state.fits());
            lemma_closed_wf(start, status);
        }
        let limited = self.output_limit_reached;
        let response = self.make_response_at(self.terminal_status(), self.completed_output(), now);
        proof {
            lemma_limit_is_kept(start, status);
        }
        if limited {
            self.push_event(&mut events, ResponseEventPayload::ResponseIncomplete { response });
        } else {
            self.push_event(&mut events, ResponseEventPayload::ResponseCompleted { response });
        }
        events
    }

    /// The end of the stream: everything open is closed, then comes the terminal event.
    pub fn emit_end_events(&mut self) -> (events: Vec<ResponseStreamEvent>)
        requires
            old(self)@.wf(),
            after_end(old(self)@, 0).state.fits(),
        ensures
            exists|now: u64|
                (Emitted { state: final(self)@, events: events.deep_view() })
                    == #[trigger] after_end(old(self)@, now),
            final(self)@.wf(),
    {
        let now = unix_seconds();
        assert(after_end(self@, now).state.fits());
        self.emit_end_events_at(now)
    }

    /// The end of the stream on a backend error, at `now`.
    pub fn emit_error_events_at(&mut self, error: Option<BackendError>, now: u64) -> (events: Vec<
        ResponseStreamEvent,
    >)
        requires
            old(self)@.wf(),
            after_error(old(self)@, error, now).state.fits(),
        ensures
            (Emitted { state: final(self)@, events: events.deep_view() }) == after_error(
                old(self)@,
                error,
                now,
            ),
            final(self)@.wf(),
    {
        let truncated = match &error {
            Some(e) => e.is_truncation(),
            None => false,
        };
        if truncated {
            self.output_limit_reached = true;
            return self.emit_end_events_at(now);
        }
        let mut events: Vec<ResponseStreamEvent> = Vec::new();
        assert(events.deep_view() =~= seq![]);
        let output = self.collect_output(OutputStatus::Incomplete);
        let mut response = self.make_response_at(Status::Failed, output, now);
        response.error = Some(
            match error {
                Some(e) => {
                    let code = if e.http_status == 429 {
                        "rate_limit_exceeded"
                    } else if e.is_context_overflow() {
                        "context_length_exceeded"
                    } else {
                        "server_error"
                    };
                    ErrorObject { code: code.to_owned(), message: e.message }
                },
                None => ErrorObject {
                    code: "server_error".to_owned(),
                    message: "The model backend returned an error before the response completed.".to_owned(),
                },
            },
        );
        self.push_event(&mut events, ResponseEventPayload::ResponseFailed { response });
        events
    }

    /// The end of the stream on a backend error.
    pub fn emit_error_events(&mut self, error: Option<BackendError>) -> (events: Vec<
        ResponseStreamEvent,
    >)
        requires
            old(self)@.wf(),
            after_error(old(self)@, error, 0).state.fits(),
        ensures
            exists|now: u64|
                (Emitted { state: final(self)@, events: events.deep_view() })
                    == #[trigger] after_error(old(self)@, error, now),
            final(self)@.wf(),
    {
        let now = unix_seconds();
        assert(after_error(self@, error, now).state.fits());
        self.emit_error_events_at(error, now)
    }
}

/// Whether `count` ids are enough for the calls that a chunk adds.
pub open spec fn has_ids_for(
    state: StreamState,
    chunk: NvCreateChatCompletionStreamResponse,
    count: nat,
) -> bool {
    forall|c: int, k: int|
        #![trigger chunk.inner.choices@[c].delta.tool_calls->0@[k]]
        0 <= c < chunk.inner.choices@.len() && chunk.inner.choices@[c].delta.tool_calls is Some
            && 0 <= k < chunk.inner.choices@[c].delta.tool_calls->0@.len()
            ==> chunk.inner.choices@[c].delta.tool_calls->0@[k].index < state.calls.len() + count
}

proof fn lemma_closed_wf(start: Emitted, status: OutputStatus)
    requires
        start.state.wf(),
        close_calls(close_message(close_reasoning(start, status)), 0).state.fits(),
    ensures
        close_calls(close_message(close_reasoning(start, status)), 0).state.wf(),
{
    let reasoned = close_reasoning(start, status);
    let messaged = close_message(reasoned);
    lemma_close_calls_grow(messaged, 0);
    assert(reasoned.state.wf());
    assert(messaged.state.wf());
    lemma_close_calls_wf(messaged, 0);
}

proof fn lemma_limit_is_kept(start: Emitted, status: OutputStatus)
    ensures
        close_calls(close_message(close_reasoning(start, status)), 0).state.output_limit_reached
            == start.state.output_limit_reached,
{
    lemma_close_calls_limit(close_message(close_reasoning(start, status)), 0);
}

proof fn lemma_close_calls_limit(run: Emitted, from: int)
    ensures
        close_calls(run, from).state.output_limit_reached == run.state.output_limit_reached,
    decreases run.state.calls.len() - from,
{
    if 0 <= from < run.state.calls.len() {
        lemma_close_calls_limit(close_call(run, from), from + 1);
    }
}

proof fn lemma_tool_calls_reach(
    run: Emitted,
    chunks: Seq<ChatCompletionMessageToolCallChunk>,
    from: int,
    ids: Seq<Seq<char>>,
    base: nat,
)
    requires
        0 <= from,
    ensures
        ({
            let after = on_tool_calls(run, chunks, from, ids, base).state;
            &&& run.state.calls.len() <= after.calls.len()
            &&& forall|k: int|
                from <= k < chunks.len() ==> (#[trigger] chunks[k]).index < after.calls.len()
        }),
    decreases chunks.len() - from,
{
    if from < chunks.len() {
        lemma_reserve_calls(run.state, (chunks[from].index + 1) as nat, ids, base);
        lemma_tool_call_grows(run, chunks[from], ids, base);
        lemma_tool_calls_reach(
            on_tool_call(run, chunks[from], ids, base),
            chunks,
            from + 1,
            ids,
            base,
        );
    }
}

proof fn lemma_choice_reaches(
    run: Emitted,
    choice: ChatChoiceStream,
    ids: Seq<Seq<char>>,
    base: nat,
)
    ensures
        ({
            let after = on_choice(run, choice, ids, base).state;
            &&& run.state.calls.len() <= after.calls.len()
            &&& choice.delta.tool_calls matches Some(chunks) ==> forall|k: int|
                0 <= k < chunks@.len() ==> (#[trigger] chunks@[k]).index < after.calls.len()
        }),
{
    let limited = if choice.finish_reason == Some(FinishReason::Length) {
        with_state(run, StreamState { output_limit_reached: true, ..run.state })
    } else {
        run
    };
    let reasoned = on_reasoning(limited, choice.delta.reasoning_content);
    let texted = on_text(reasoned, delta_text(choice.delta.content));
    let called = on_tool_delta(texted, choice.delta.tool_calls, ids, base);
    if let Some(chunks) = choice.delta.tool_calls {
        lemma_tool_calls_reach(
            close_reasoning(texted, OutputStatus::Completed),
            chunks@,
            0,
            ids,
            base,
        );
    }
    lemma_close_calls_len(called, 0);
}

proof fn lemma_choices_reach(
    run: Emitted,
    choices: Seq<ChatChoiceStream>,
    from: int,
    ids: Seq<Seq<char>>,
    base: nat,
)
    requires
        0 <= from,
    ensures
        ({
            let after = on_choices(run, choices, from, ids, base).state;
            &&& run.state.calls.len() <= after.calls.len()
            &&& forall|c: int, k: int|
                #![trigger choices[c].delta.tool_calls->0@[k]]
                from <= c < choices.len() && choices[c].delta.tool_calls is Some && 0 <= k
                    < choices[c].delta.tool_calls->0@.len()
                    ==> choices[c].delta.tool_calls->0@[k].index < after.calls.len()
        }),
    decreases choices.len() - from,
{
    if from < choices.len() {
        lemma_choice_reaches(run, choices[from], ids, base);
        lemma_choices_reach(on_choice(run, choices[from], ids, base), choices, from + 1, ids, base);
    }
}

/// Where the counters fit after a chunk, every call index of it is below the largest one.
proof fn lemma_fitting_indices(state: StreamState, chunk: NvCreateChatCompletionStreamResponse)
    requires
        state.wf(),
        chunk_fits(state, chunk),
    ensures
        forall|c: int, k: int|
            #![trigger chunk.inner.choices@[c].delta.tool_calls->0@[k]]
            0 <= c < chunk.inner.choices@.len() && chunk.inner.choices@[c].delta.tool_calls is Some
                && 0 <= k < chunk.inner.choices@[c].delta.tool_calls->0@.len()
                ==> chunk.inner.choices@[c].delta.tool_calls->0@[k].index < u32::MAX,
{
    let ids: Seq<Seq<char>> = seq![];
    let after = after_chunk(state, chunk, ids);
    assert(after.state.fits());
    law_chunks_keep_indices_distinct(state, chunk, ids);
    let counted = StreamState {
        usage: match chunk.inner.usage {
            Some(usage) => Some(crate::responses::response::usage_of(usage)),
            None => state.usage,
        },
        ..state
    };
    lemma_choices_reach(
        Emitted { state: counted, events: seq![] },
        chunk.inner.choices@,
        0,
        ids,
        state.calls.len(),
    );
}

/// Every stage of a choice fits where the last one does.
proof fn lemma_choice_stages_fit(
    start: Emitted,
    limited: Emitted,
    choice: ChatChoiceStream,
    ids: Seq<Seq<char>>,
    base: nat,
)
    requires
        limited == (if choice.finish_reason == Some(FinishReason::Length) {
            with_state(start, StreamState { output_limit_reached: true, ..start.state })
        } else {
            start
        }),
        on_choice(start, choice, ids, base).state.fits(),
    ensures
        ({
            let reasoned = on_reasoning(limited, choice.delta.reasoning_content);
            let texted = on_text(reasoned, delta_text(choice.delta.content));
            let called = on_tool_delta(texted, choice.delta.tool_calls, ids, base);
            &&& reasoned.state.fits()
            &&& texted.state.fits()
            &&& called.state.fits()
        }),
{
    let reasoned = on_reasoning(limited, choice.delta.reasoning_content);
    let texted = on_text(reasoned, delta_text(choice.delta.content));
    let called = on_tool_delta(texted, choice.delta.tool_calls, ids, base);
    lemma_tool_delta_grows(texted, choice.delta.tool_calls, ids, base);
    lemma_close_calls_grow(called, 0);
    assert(grows(reasoned.state, texted.state));
}

proof fn lemma_close_calls_len(run: Emitted, from: int)
    ensures
        close_calls(run, from).state.calls.len() == run.state.calls.len(),
    decreases run.state.calls.len() - from,
{
    if 0 <= from < run.state.calls.len() {
        lemma_close_calls_len(close_call(run, from), from + 1);
    }
}

} // verus!
