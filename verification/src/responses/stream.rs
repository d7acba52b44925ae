//! The stream of Responses API events that a stream of chat completion chunks becomes.
//!
//! `response.created`, `response.in_progress`, then per output item an `added` event, its
//! deltas and its `done` events, then one terminal event. What the converter holds is
//! [`StreamState`]; what it holds and has emitted is [`Emitted`], and each step is a function
//! from one `Emitted` to the next.

use vstd::prelude::*;

use crate::chat::{
    ChatChoiceStream, ChatCompletionMessageContent, ChatCompletionMessageToolCallChunk,
    FinishReason, FunctionCallStream, NvCreateChatCompletionStreamResponse,
};
use crate::responses::response::{
    previous_id, response_of, usage_of, ResponseCore, ResponseParams, ResponsesContext,
};
use crate::responses::tools::tool_identity;
use crate::responses::types::{
    AssistantRole, ErrorObjectView, FunctionToolCallView, OutputItemView, OutputMessageContentView,
    OutputMessageView, OutputStatus, OutputTextContentView, ReasoningItemView,
    ResponseEventPayloadView, ResponseStreamEventView, ResponseUsage, ResponseView, Status,
    SummaryPartView, SummaryTextContentView,
};
use crate::text::{ascii_lowercase, contains, occurs, to_ascii_lowercase};

verus! {

/// A function call of the stream so far.
#[verifier::ext_equal]
pub struct CallState {
    pub item_id: Seq<char>,
    pub call_id: Seq<char>,
    pub name: Seq<char>,
    pub arguments: Seq<char>,
    pub output_index: nat,
    pub started: bool,
    pub done: bool,
}

/// What the converter holds.
#[verifier::ext_equal]
pub struct StreamState {
    pub response_id: Seq<char>,
    pub model: Seq<char>,
    pub params: ResponseParams,
    pub context: Option<ResponsesContext>,
    pub created_at: u64,
    pub sequence_number: nat,
    pub message_item_id: Seq<char>,
    pub message_started: bool,
    pub message_output_index: nat,
    pub text: Seq<char>,
    pub reasoning_item_id: Seq<char>,
    pub reasoning_started: bool,
    pub reasoning_done: bool,
    pub reasoning_output_index: nat,
    pub reasoning_status: Option<OutputStatus>,
    pub reasoning: Seq<char>,
    pub calls: Seq<CallState>,
    pub next_output_index: nat,
    pub usage: Option<ResponseUsage>,
    pub output_limit_reached: bool,
}

/// What the converter holds, and the events that one of its operations has emitted.
#[verifier::ext_equal]
pub struct Emitted {
    pub state: StreamState,
    pub events: Seq<ResponseStreamEventView>,
}

impl StreamState {
    /// Whether the counters fit their machine types.
    pub open spec fn fits(self) -> bool {
        self.sequence_number <= u64::MAX && self.next_output_index <= u32::MAX
    }

    /// No two output items share an index, the calls stand in the order of theirs, and every
    /// index given out is below the next one.
    pub open spec fn wf(self) -> bool {
        &&& self.fits()
        &&& self.next_output_index == self.calls.len() + (if self.reasoning_started {
            1int
        } else {
            0
        }) + (if self.message_started {
            1int
        } else {
            0
        })
        &&& self.reasoning_output_index <= u32::MAX
        &&& self.message_output_index <= u32::MAX
        &&& self.reasoning_started ==> self.reasoning_output_index < self.next_output_index
        &&& self.message_started ==> self.message_output_index < self.next_output_index
        &&& self.reasoning_started && self.message_started ==> self.reasoning_output_index
            != self.message_output_index
        &&& forall|j: int|
            0 <= j < self.calls.len() ==> {
                &&& (#[trigger] self.calls[j]).output_index < self.next_output_index
                &&& self.reasoning_started ==> self.calls[j].output_index
                    != self.reasoning_output_index
                &&& self.message_started ==> self.calls[j].output_index
                    != self.message_output_index
                &&& self.calls[j].done ==> self.calls[j].started
            }
        &&& forall|j: int, k: int|
            #![trigger self.calls[j], self.calls[k]]
            0 <= j < k < self.calls.len() ==> self.calls[j].output_index
                < self.calls[k].output_index
    }

    /// The status of an item that ends with the stream.
    pub open spec fn output_status(self) -> OutputStatus {
        if self.output_limit_reached {
            OutputStatus::Incomplete
        } else {
            OutputStatus::Completed
        }
    }

    /// The status of the response at the end of the stream.
    pub open spec fn terminal_status(self) -> Status {
        if self.output_limit_reached {
            Status::Incomplete
        } else {
            Status::Completed
        }
    }

    /// The reasoning item with its full summary.
    pub open spec fn reasoning_item(self, status: OutputStatus) -> OutputItemView {
        OutputItemView::Reasoning(
            ReasoningItemView {
                id: Some(self.reasoning_item_id),
                summary: seq![summary_part(self.reasoning)],
                content: None,
                encrypted_content: None,
                status: Some(status),
            },
        )
    }

    /// The message item with its full text.
    pub open spec fn message_item(self, status: OutputStatus) -> OutputItemView {
        OutputItemView::Message(
            OutputMessageView {
                id: self.message_item_id,
                content: seq![OutputMessageContentView::OutputText(output_text(self.text))],
                role: AssistantRole::Assistant,
                phase: None,
                status,
            },
        )
    }

    /// A function call item with the given arguments.
    pub open spec fn call_item(
        self,
        call: CallState,
        arguments: Seq<char>,
        status: OutputStatus,
    ) -> OutputItemView {
        let identity = tool_identity(self.params.tools.deep_view(), call.name);
        OutputItemView::FunctionCall(
            FunctionToolCallView {
                id: Some(call.item_id),
                call_id: call.call_id,
                namespace: identity.1,
                name: identity.0,
                arguments,
                status: Some(status),
            },
        )
    }

    /// The item with the given output index, where one has started.
    pub open spec fn item_at(self, index: nat, status: OutputStatus) -> Option<OutputItemView> {
        if self.reasoning_started && self.reasoning_output_index == index {
            Some(self.reasoning_item(self.reasoning_status.unwrap_or(status)))
        } else if self.message_started && self.message_output_index == index {
            Some(self.message_item(status))
        } else if exists|j: int| self.is_started_call(j, index) {
            let call = self.calls[choose|j: int| self.is_started_call(j, index)];
            Some(self.call_item(call, call.arguments, status))
        } else {
            None
        }
    }

    /// Whether the call at position `j` has started and has the given output index.
    pub open spec fn is_started_call(self, j: int, index: nat) -> bool {
        &&& 0 <= j < self.calls.len()
        &&& self.calls[j].output_index == index
        &&& self.calls[j].started
    }

    /// The started items with an output index below `end`, in the order of their indices.
    pub open spec fn output_below(self, end: nat, status: OutputStatus) -> Seq<OutputItemView>
        decreases end,
    {
        if end == 0 {
            seq![]
        } else {
            let before = self.output_below((end - 1) as nat, status);
            match self.item_at((end - 1) as nat, status) {
                Some(item) => before.push(item),
                None => before,
            }
        }
    }

    /// The output so far, in the order of the output indices.
    pub open spec fn output(self, status: OutputStatus) -> Seq<OutputItemView> {
        self.output_below(self.next_output_index, status)
    }

    /// The response object in the given status; `now` is when it completed.
    pub open spec fn response(
        self,
        status: Status,
        output: Seq<OutputItemView>,
        now: u64,
    ) -> ResponseView {
        response_of(
            self.params,
            previous_id(self.context),
            ResponseCore {
                id: self.response_id,
                created_at: self.created_at,
                completed_at: if status == Status::Completed {
                    Some(now)
                } else {
                    None
                },
                status,
                model: self.model,
                output,
                usage: self.usage,
            },
        )
    }
}

/// A text part without annotations.
pub open spec fn output_text(text: Seq<char>) -> OutputTextContentView {
    OutputTextContentView { text, annotations: seq![], logprobs: Some(seq![]) }
}

/// A summary part.
pub open spec fn summary_part(text: Seq<char>) -> SummaryPartView {
    SummaryPartView::SummaryText(SummaryTextContentView { text })
}

/// The state of a converter that has seen nothing yet.
pub open spec fn fresh_state(
    model: Seq<char>,
    params: ResponseParams,
    context: Option<ResponsesContext>,
    response_id: Seq<char>,
    message_id: Seq<char>,
    reasoning_id: Seq<char>,
    created_at: u64,
) -> StreamState {
    StreamState {
        response_id,
        model,
        params,
        context,
        created_at,
        sequence_number: 0,
        message_item_id: message_id,
        message_started: false,
        message_output_index: 0,
        text: seq![],
        reasoning_item_id: reasoning_id,
        reasoning_started: false,
        reasoning_done: false,
        reasoning_output_index: 0,
        reasoning_status: None,
        reasoning: seq![],
        calls: seq![],
        next_output_index: 0,
        usage: None,
        output_limit_reached: false,
    }
}

/// One more event, with the next sequence number.
pub open spec fn emit(run: Emitted, payload: ResponseEventPayloadView) -> Emitted {
    Emitted {
        state: StreamState { sequence_number: run.state.sequence_number + 1, ..run.state },
        events: run.events.push(
            ResponseStreamEventView {
                sequence_number: run.state.sequence_number as u64,
                payload,
            },
        ),
    }
}

/// The state after a change, with the events as they are.
pub open spec fn with_state(run: Emitted, state: StreamState) -> Emitted {
    Emitted { state, events: run.events }
}

/// The start of a stream: created, then in progress.
pub open spec fn after_start(state: StreamState, now: u64) -> Emitted {
    let run = Emitted { state, events: seq![] };
    let created = emit(
        run,
        ResponseEventPayloadView::ResponseCreated {
            response: state.response(Status::InProgress, seq![], now),
        },
    );
    emit(
        created,
        ResponseEventPayloadView::ResponseInProgress {
            response: state.response(Status::InProgress, seq![], now),
        },
    )
}

/// Opens the reasoning item, unless it is open: the item and its empty summary part.
pub open spec fn open_reasoning(run: Emitted) -> Emitted {
    let state = run.state;
    if state.reasoning_started {
        run
    } else {
        let index = state.next_output_index;
        let opened = with_state(
            run,
            StreamState {
                reasoning_started: true,
                reasoning_output_index: index,
                next_output_index: index + 1,
                ..state
            },
        );
        let added = emit(
            opened,
            ResponseEventPayloadView::ResponseOutputItemAdded {
                output_index: index as u32,
                item: OutputItemView::Reasoning(
                    ReasoningItemView {
                        id: Some(state.reasoning_item_id),
                        summary: seq![],
                        content: None,
                        encrypted_content: None,
                        status: Some(OutputStatus::InProgress),
                    },
                ),
            },
        );
        emit(
            added,
            ResponseEventPayloadView::ResponseReasoningSummaryPartAdded {
                item_id: state.reasoning_item_id,
                output_index: index as u32,
                summary_index: 0,
                part: summary_part(seq![]),
            },
        )
    }
}

/// A piece of the reasoning summary.
pub open spec fn summary_delta(run: Emitted, delta: Seq<char>) -> Emitted {
    let state = StreamState { reasoning: run.state.reasoning + delta, ..run.state };
    emit(
        with_state(run, state),
        ResponseEventPayloadView::ResponseReasoningSummaryTextDelta {
            item_id: state.reasoning_item_id,
            output_index: state.reasoning_output_index as u32,
            summary_index: 0,
            delta,
        },
    )
}

/// Reasoning is shown only where a summary was asked for, and only until it is closed.
pub open spec fn on_reasoning(run: Emitted, text: Option<String>) -> Emitted {
    match text {
        Some(delta) if delta@.len() > 0 && !run.state.reasoning_done
            && run.state.params.wants_summary() => summary_delta(open_reasoning(run), delta@),
        _ => run,
    }
}

/// Closes the reasoning. A summary that was cut off ends in an ellipsis.
pub open spec fn close_reasoning(run: Emitted, status: OutputStatus) -> Emitted {
    let state = run.state;
    if state.reasoning_done {
        run
    } else if !state.reasoning_started {
        with_state(run, StreamState { reasoning_done: true, ..state })
    } else {
        let closed = with_state(
            run,
            StreamState { reasoning_done: true, reasoning_status: Some(status), ..state },
        );
        let ended = if status == OutputStatus::Incomplete && state.reasoning.len() > 0 {
            summary_delta(closed, "..."@)
        } else {
            closed
        };
        let index = state.reasoning_output_index as u32;
        let text = ended.state.reasoning;
        let text_done = emit(
            ended,
            ResponseEventPayloadView::ResponseReasoningSummaryTextDone {
                item_id: state.reasoning_item_id,
                output_index: index,
                summary_index: 0,
                text,
            },
        );
        let part_done = emit(
            text_done,
            ResponseEventPayloadView::ResponseReasoningSummaryPartDone {
                item_id: state.reasoning_item_id,
                output_index: index,
                summary_index: 0,
                part: summary_part(text),
            },
        );
        emit(
            part_done,
            ResponseEventPayloadView::ResponseOutputItemDone {
                output_index: index,
                item: ended.state.reasoning_item(status),
            },
        )
    }
}

/// Opens the message item, unless it is open: the item and its empty text part.
pub open spec fn open_message(run: Emitted) -> Emitted {
    let state = run.state;
    if state.message_started {
        run
    } else {
        let index = state.next_output_index;
        let opened = with_state(
            run,
            StreamState {
                message_started: true,
                message_output_index: index,
                next_output_index: index + 1,
                ..state
            },
        );
        let added = emit(
            opened,
            ResponseEventPayloadView::ResponseOutputItemAdded {
                output_index: index as u32,
                item: OutputItemView::Message(
                    OutputMessageView {
                        id: state.message_item_id,
                        content: seq![],
                        role: AssistantRole::Assistant,
                        phase: None,
                        status: OutputStatus::InProgress,
                    },
                ),
            },
        );
        emit(
            added,
            ResponseEventPayloadView::ResponseContentPartAdded {
                item_id: state.message_item_id,
                output_index: index as u32,
                content_index: 0,
                part: output_text(seq![]),
            },
        )
    }
}

/// The text of a delta. Content in parts has none.
pub open spec fn delta_text(content: Option<ChatCompletionMessageContent>) -> Seq<char> {
    match content {
        Some(ChatCompletionMessageContent::Text(text)) => text@,
        _ => seq![],
    }
}

/// Text closes the reasoning, opens the message and extends it.
pub open spec fn on_text(run: Emitted, delta: Seq<char>) -> Emitted {
    if delta.len() == 0 {
        run
    } else {
        let opened = open_message(close_reasoning(run, OutputStatus::Completed));
        let state = StreamState { text: opened.state.text + delta, ..opened.state };
        emit(
            with_state(opened, state),
            ResponseEventPayloadView::ResponseOutputTextDelta {
                item_id: state.message_item_id,
                output_index: state.message_output_index as u32,
                content_index: 0,
                delta,
                logprobs: Some(seq![]),
            },
        )
    }
}

/// A call that has a place in the output but has not started.
pub open spec fn reserved_call(item_id: Seq<char>, output_index: nat) -> CallState {
    CallState {
        item_id,
        call_id: seq![],
        name: seq![],
        arguments: seq![],
        output_index,
        started: false,
        done: false,
    }
}

/// Reserves calls until there are `count`. The call at position `k` takes the item id
/// `ids[k - base]`.
pub open spec fn reserve_calls(
    state: StreamState,
    count: nat,
    ids: Seq<Seq<char>>,
    base: nat,
) -> StreamState
    decreases count - state.calls.len(),
{
    if state.calls.len() >= count {
        state
    } else {
        reserve_calls(
            StreamState {
                calls: state.calls.push(
                    reserved_call(ids[state.calls.len() - base], state.next_output_index),
                ),
                next_output_index: state.next_output_index + 1,
                ..state
            },
            count,
            ids,
            base,
        )
    }
}

/// The state with the call at position `j` replaced.
pub open spec fn with_call(state: StreamState, j: int, call: CallState) -> StreamState {
    StreamState { calls: state.calls.update(j, call), ..state }
}

/// A piece of a call's arguments. The first piece announces the call.
pub open spec fn on_arguments(run: Emitted, j: int, delta: Seq<char>) -> Emitted {
    let call = run.state.calls[j];
    let announced = if call.started {
        run
    } else {
        let state = with_call(run.state, j, CallState { started: true, ..call });
        emit(
            with_state(run, state),
            ResponseEventPayloadView::ResponseOutputItemAdded {
                output_index: call.output_index as u32,
                item: state.call_item(call, seq![], OutputStatus::InProgress),
            },
        )
    };
    let open = announced.state.calls[j];
    let state = with_call(
        announced.state,
        j,
        CallState { arguments: open.arguments + delta, ..open },
    );
    emit(
        with_state(announced, state),
        ResponseEventPayloadView::ResponseFunctionCallArgumentsDelta {
            item_id: call.item_id,
            output_index: call.output_index as u32,
            delta,
        },
    )
}

/// The call with the id and the name that a piece of it brings.
pub open spec fn named_call(
    call: CallState,
    id: Option<String>,
    function: Option<FunctionCallStream>,
) -> CallState {
    let name = match function {
        Some(f) => f.name,
        None => None,
    };
    CallState {
        call_id: match id {
            Some(text) => text@,
            None => call.call_id,
        },
        name: match name {
            Some(text) => text@,
            None => call.name,
        },
        ..call
    }
}

/// The arguments that a piece of a call brings.
pub open spec fn delta_arguments(function: Option<FunctionCallStream>) -> Option<String> {
    match function {
        Some(f) => f.arguments,
        None => None,
    }
}

/// A piece of a tool call.
pub open spec fn on_tool_call(
    run: Emitted,
    chunk: ChatCompletionMessageToolCallChunk,
    ids: Seq<Seq<char>>,
    base: nat,
) -> Emitted {
    let j = chunk.index as int;
    let reserved = reserve_calls(run.state, (chunk.index + 1) as nat, ids, base);
    let state = with_call(
        reserved,
        j,
        named_call(reserved.calls[j], chunk.id, chunk.function),
    );
    match delta_arguments(chunk.function) {
        Some(delta) => on_arguments(with_state(run, state), j, delta@),
        None => with_state(run, state),
    }
}

/// The pieces of tool calls from position `from` on.
pub open spec fn on_tool_calls(
    run: Emitted,
    chunks: Seq<ChatCompletionMessageToolCallChunk>,
    from: int,
    ids: Seq<Seq<char>>,
    base: nat,
) -> Emitted
    decreases chunks.len() - from,
{
    if from < 0 || from >= chunks.len() {
        run
    } else {
        on_tool_calls(on_tool_call(run, chunks[from], ids, base), chunks, from + 1, ids, base)
    }
}

/// Tool calls close the reasoning.
pub open spec fn on_tool_delta(
    run: Emitted,
    chunks: Option<Vec<ChatCompletionMessageToolCallChunk>>,
    ids: Seq<Seq<char>>,
    base: nat,
) -> Emitted {
    match chunks {
        Some(all) if all@.len() > 0 => on_tool_calls(
            close_reasoning(run, OutputStatus::Completed),
            all@,
            0,
            ids,
            base,
        ),
        _ => run,
    }
}

/// Closes one call, if it has started and is open: its full arguments, then the item.
pub open spec fn close_call(run: Emitted, j: int) -> Emitted {
    let call = run.state.calls[j];
    if !call.started || call.done {
        run
    } else {
        let state = with_call(run.state, j, CallState { done: true, ..call });
        let arguments_done = emit(
            with_state(run, state),
            ResponseEventPayloadView::ResponseFunctionCallArgumentsDone {
                item_id: call.item_id,
                output_index: call.output_index as u32,
                arguments: call.arguments,
                name: Some(tool_identity(state.params.tools.deep_view(), call.name).0),
            },
        );
        emit(
            arguments_done,
            ResponseEventPayloadView::ResponseOutputItemDone {
                output_index: call.output_index as u32,
                item: state.call_item(call, call.arguments, state.output_status()),
            },
        )
    }
}

/// Closes the calls from position `from` on.
pub open spec fn close_calls(run: Emitted, from: int) -> Emitted
    decreases run.state.calls.len() - from,
{
    if from < 0 || from >= run.state.calls.len() {
        run
    } else {
        close_calls(close_call(run, from), from + 1)
    }
}

/// One choice of a chunk. A finish reason closes every call.
pub open spec fn on_choice(
    run: Emitted,
    choice: ChatChoiceStream,
    ids: Seq<Seq<char>>,
    base: nat,
) -> Emitted {
    let limited = if choice.finish_reason == Some(FinishReason::Length) {
        with_state(run, StreamState { output_limit_reached: true, ..run.state })
    } else {
        run
    };
    let reasoned = on_reasoning(limited, choice.delta.reasoning_content);
    let texted = on_text(reasoned, delta_text(choice.delta.content));
    let called = on_tool_delta(texted, choice.delta.tool_calls, ids, base);
    if choice.finish_reason is Some {
        close_calls(called, 0)
    } else {
        called
    }
}

/// The choices of a chunk from position `from` on.
pub open spec fn on_choices(
    run: Emitted,
    choices: Seq<ChatChoiceStream>,
    from: int,
    ids: Seq<Seq<char>>,
    base: nat,
) -> Emitted
    decreases choices.len() - from,
{
    if from < 0 || from >= choices.len() {
        run
    } else {
        on_choices(on_choice(run, choices[from], ids, base), choices, from + 1, ids, base)
    }
}

/// One chunk: its token counts, then its choices. The calls that it adds take their item ids
/// from `ids`, in order.
pub open spec fn after_chunk(
    state: StreamState,
    chunk: NvCreateChatCompletionStreamResponse,
    ids: Seq<Seq<char>>,
) -> Emitted {
    let counted = match chunk.inner.usage {
        Some(usage) => StreamState { usage: Some(usage_of(usage)), ..state },
        None => state,
    };
    on_choices(
        Emitted { state: counted, events: seq![] },
        chunk.inner.choices@,
        0,
        ids,
        state.calls.len(),
    )
}

/// Closes the message, if it has started.
pub open spec fn close_message(run: Emitted) -> Emitted {
    let state = run.state;
    if !state.message_started {
        run
    } else {
        let index = state.message_output_index as u32;
        let text_done = emit(
            run,
            ResponseEventPayloadView::ResponseOutputTextDone {
                item_id: state.message_item_id,
                output_index: index,
                content_index: 0,
                text: state.text,
                logprobs: Some(seq![]),
            },
        );
        let part_done = emit(
            text_done,
            ResponseEventPayloadView::ResponseContentPartDone {
                item_id: state.message_item_id,
                output_index: index,
                content_index: 0,
                part: output_text(state.text),
            },
        );
        emit(
            part_done,
            ResponseEventPayloadView::ResponseOutputItemDone {
                output_index: index,
                item: state.message_item(state.output_status()),
            },
        )
    }
}

/// The end of a stream: everything open is closed, then comes the terminal event with the
/// whole output.
pub open spec fn after_end(state: StreamState, now: u64) -> Emitted {
    let run = Emitted { state, events: seq![] };
    let closed = close_calls(close_message(close_reasoning(run, state.output_status())), 0);
    let response = closed.state.response(
        closed.state.terminal_status(),
        closed.state.output(closed.state.output_status()),
        now,
    );
    emit(
        closed,
        if state.output_limit_reached {
            ResponseEventPayloadView::ResponseIncomplete { response }
        } else {
            ResponseEventPayloadView::ResponseCompleted { response }
        },
    )
}

/// Whether a message reports that the token limit cut the output off.
pub open spec fn reports_truncation(message: Seq<char>) -> bool {
    occurs(ascii_lowercase(message), "cutoff by max_tokens"@)
}

/// Whether a message reports that the prompt exceeds the model's context.
pub open spec fn reports_overflow(message: Seq<char>) -> bool {
    ||| occurs(ascii_lowercase(message), "exceeds the maximum allowed input length"@)
    ||| occurs(ascii_lowercase(message), "maximum context length"@)
}

/// The error object of a failed response.
pub open spec fn error_object(error: Option<BackendError>) -> ErrorObjectView {
    match error {
        Some(e) => ErrorObjectView {
            code: if e.http_status == 429 {
                "rate_limit_exceeded"@
            } else if reports_overflow(e.message@) {
                "context_length_exceeded"@
            } else {
                "server_error"@
            },
            message: e.message@,
        },
        None => ErrorObjectView {
            code: "server_error"@,
            message: "The model backend returned an error before the response completed."@,
        },
    }
}

/// Whether an error is a truncation that a backend presents as a failure.
pub open spec fn is_truncation_error(error: Option<BackendError>) -> bool {
    error matches Some(e) && reports_truncation(e.message@)
}

/// The end of a stream on a backend error. A truncation ends it as the token limit does; any
/// other error fails the response, which carries the error and the output so far.
pub open spec fn after_error(state: StreamState, error: Option<BackendError>, now: u64) -> Emitted {
    if is_truncation_error(error) {
        after_end(StreamState { output_limit_reached: true, ..state }, now)
    } else {
        let response = state.response(
            Status::Failed,
            state.output(OutputStatus::Incomplete),
            now,
        );
        emit(
            Emitted { state, events: seq![] },
            ResponseEventPayloadView::ResponseFailed {
                response: ResponseView { error: Some(error_object(error)), ..response },
            },
        )
    }
}

/// Whether the counters still fit their machine types after a chunk.
pub open spec fn chunk_fits(
    state: StreamState,
    chunk: NvCreateChatCompletionStreamResponse,
) -> bool {
    forall|ids: Seq<Seq<char>>| (#[trigger] after_chunk(state, chunk, ids)).state.fits()
}

/// What a backend reported when it failed.
#[derive(Debug, Clone, PartialEq, Eq)]
pub struct BackendError {
    pub message: String,
    pub http_status: u16,
}

impl BackendError {
    /// Whether the error is a truncation by the token limit.
    pub fn is_truncation(&self) -> (truncation: bool)
        ensures
            truncation == reports_truncation(self.message@),
    {
        let message = to_ascii_lowercase(self.message.as_str());
        contains(message.as_str(), "cutoff by max_tokens")
    }

    /// Whether the error is a prompt that exceeds the model's context.
    pub fn is_context_overflow(&self) -> (overflow: bool)
        ensures
            overflow == reports_overflow(self.message@),
    {
        let message = to_ascii_lowercase(self.message.as_str());
        contains(message.as_str(), "exceeds the maximum allowed input length") || contains(
            message.as_str(),
            "maximum context length",
        )
    }
}

} // verus!
