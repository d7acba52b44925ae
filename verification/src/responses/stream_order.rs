//! The order of the events of a response.
//!
//! A client reads `response.created` and `response.in_progress`, then output items, then one
//! terminal event. It numbers the events, puts each item together from its deltas and holds
//! the `done` events against what it has. [`read`] is such a client. The laws here say that
//! it finds an event out of place exactly where a chunk brings more arguments for a call once
//! its end was told (is not [`orderly`]).

use vstd::prelude::*;

use crate::chat::{
    ChatChoiceStream, ChatCompletionMessageToolCallChunk, FinishReason,
    NvCreateChatCompletionStreamResponse,
};
use crate::responses::response::{usage_of, ResponseParams, ResponsesContext};
use crate::responses::stream::{
    after_chunk, after_end, after_error, after_start, close_call, close_calls, close_message,
    close_reasoning, delta_arguments, delta_text, emit, fresh_state, is_truncation_error,
    named_call, on_arguments, on_choice, on_choices, on_reasoning, on_text, on_tool_call,
    on_tool_calls, on_tool_delta, open_message, open_reasoning, output_text, reserve_calls,
    summary_delta, summary_part, with_call, with_state, BackendError, CallState, Emitted,
    StreamState,
};
use crate::responses::stream_laws::{
    lemma_choice_wf, lemma_choices_grow, lemma_close_calls_grow, lemma_reserve_calls,
    lemma_tool_call_wf, lemma_tool_calls_grow, lemma_tool_calls_wf, lemma_tool_delta_grows,
};
use crate::responses::types::{
    OutputItemView, OutputStatus, ResponseEventPayloadView, ResponseStreamEventView,
};

verus! {

/// What a client has put together of an output item.
#[verifier::ext_equal]
pub struct Item {
    pub id: Seq<char>,
    /// The text, the summary or the arguments so far.
    pub text: Seq<char>,
    pub done: bool,
}

/// What a client has read of a response.
#[verifier::ext_equal]
pub struct Reader {
    /// The number of the next event.
    pub next: nat,
    pub items: Map<u32, Item>,
    pub over: bool,
}

/// A client that has read nothing.
pub open spec fn new_reader() -> Reader {
    Reader { next: 0, items: Map::empty(), over: false }
}

/// The id that an item is announced with.
pub open spec fn item_id_of(item: OutputItemView) -> Seq<char> {
    match item {
        OutputItemView::Message(message) => message.id,
        OutputItemView::Reasoning(reasoning) => reasoning.id.unwrap_or(seq![]),
        OutputItemView::FunctionCall(call) => call.id.unwrap_or(seq![]),
    }
}

/// Whether the item `index` is open and has the given id.
pub open spec fn is_open(items: Map<u32, Item>, index: u32, id: Seq<char>) -> bool {
    &&& items.dom().contains(index)
    &&& !items[index].done
    &&& items[index].id == id
}

/// The items with more text in one of them.
pub open spec fn extended(items: Map<u32, Item>, index: u32, delta: Seq<char>) -> Map<u32, Item> {
    items.insert(index, Item { text: items[index].text + delta, ..items[index] })
}

/// The items after one more event, or `None` where the event is out of place: an item that
/// was announced before, an event of an item that is not open, or a text that is not what the
/// deltas brought.
pub open spec fn read_item(
    items: Map<u32, Item>,
    payload: ResponseEventPayloadView,
) -> Option<Map<u32, Item>> {
    match payload {
        ResponseEventPayloadView::ResponseOutputItemAdded { output_index, item } => {
            if items.dom().contains(output_index) {
                None
            } else {
                Some(
                    items.insert(
                        output_index,
                        Item { id: item_id_of(item), text: seq![], done: false },
                    ),
                )
            }
        },
        ResponseEventPayloadView::ResponseReasoningSummaryPartAdded {
            item_id,
            output_index,
            part,
            ..
        } => if is_open(items, output_index, item_id) && part == summary_part(
            items[output_index].text,
        ) {
            Some(items)
        } else {
            None
        },
        ResponseEventPayloadView::ResponseContentPartAdded { item_id, output_index, part, .. } =>
        if is_open(items, output_index, item_id) && part == output_text(
            items[output_index].text,
        ) {
            Some(items)
        } else {
            None
        },
        ResponseEventPayloadView::ResponseReasoningSummaryTextDelta {
            item_id,
            output_index,
            delta,
            ..
        } => if is_open(items, output_index, item_id) {
            Some(extended(items, output_index, delta))
        } else {
            None
        },
        ResponseEventPayloadView::ResponseOutputTextDelta { item_id, output_index, delta, .. } =>
        if is_open(items, output_index, item_id) {
            Some(extended(items, output_index, delta))
        } else {
            None
        },
        ResponseEventPayloadView::ResponseFunctionCallArgumentsDelta {
            item_id,
            output_index,
            delta,
        } => if is_open(items, output_index, item_id) {
            Some(extended(items, output_index, delta))
        } else {
            None
        },
        ResponseEventPayloadView::ResponseReasoningSummaryTextDone {
            item_id,
            output_index,
            text,
            ..
        } => if is_open(items, output_index, item_id) && text == items[output_index].text {
            Some(items)
        } else {
            None
        },
        ResponseEventPayloadView::ResponseOutputTextDone { item_id, output_index, text, .. } =>
        if is_open(items, output_index, item_id) && text == items[output_index].text {
            Some(items)
        } else {
            None
        },
        ResponseEventPayloadView::ResponseFunctionCallArgumentsDone {
            item_id,
            output_index,
            arguments,
            ..
        } => if is_open(items, output_index, item_id) && arguments == items[output_index].text {
            Some(items)
        } else {
            None
        },
        ResponseEventPayloadView::ResponseReasoningSummaryPartDone {
            item_id,
            output_index,
            part,
            ..
        } => if is_open(items, output_index, item_id) && part == summary_part(
            items[output_index].text,
        ) {
            Some(items)
        } else {
            None
        },
        ResponseEventPayloadView::ResponseContentPartDone { item_id, output_index, part, .. } =>
        if is_open(items, output_index, item_id) && part == output_text(
            items[output_index].text,
        ) {
            Some(items)
        } else {
            None
        },
        ResponseEventPayloadView::ResponseOutputItemDone { output_index, item } => if is_open(
            items,
            output_index,
            item_id_of(item),
        ) {
            Some(
                items.insert(output_index, Item { done: true, ..items[output_index] }),
            )
        } else {
            None
        },
        _ => Some(items),
    }
}

/// Whether an event ends the response.
pub open spec fn is_terminal(payload: ResponseEventPayloadView) -> bool {
    ||| payload is ResponseCompleted
    ||| payload is ResponseIncomplete
    ||| payload is ResponseFailed
}

/// The client after one more event, or `None` where the event is out of place.
pub open spec fn read(reader: Reader, event: ResponseStreamEventView) -> Option<Reader> {
    if reader.over || event.sequence_number != reader.next {
        None
    } else {
        match read_item(reader.items, event.payload) {
            Some(items) => Some(
                Reader { next: reader.next + 1, items, over: is_terminal(event.payload) },
            ),
            None => None,
        }
    }
}

/// The client after the events, or `None` where one of them is out of place.
pub open spec fn read_all(reader: Reader, events: Seq<ResponseStreamEventView>) -> Option<Reader>
    decreases events.len(),
{
    if events.len() == 0 {
        Some(reader)
    } else {
        match read_all(reader, events.drop_last()) {
            Some(before) => read(before, events.last()),
            None => None,
        }
    }
}

/// Whether the items hold one of the given content at `index`.
pub open spec fn has_item(
    items: Map<u32, Item>,
    index: nat,
    id: Seq<char>,
    text: Seq<char>,
    done: bool,
) -> bool {
    items.dom().contains(index as u32) && items[index as u32] == (Item { id, text, done })
}

/// Whether a client has put together what a converter holds.
pub open spec fn in_step(reader: Reader, state: StreamState) -> bool {
    &&& reader.next == state.sequence_number
    &&& !reader.over
    &&& has_items(reader.items, state, false)
}

/// Whether an item with the given output index has started.
pub open spec fn has_started(state: StreamState, index: nat) -> bool {
    ||| state.reasoning_started && state.reasoning_output_index == index
    ||| state.message_started && state.message_output_index == index
    ||| exists|j: int| state.is_started_call(j, index)
}

/// Whether the items are those that a converter holds. `told` says whether the end of the
/// message was told.
pub open spec fn has_items(items: Map<u32, Item>, state: StreamState, told: bool) -> bool {
    &&& forall|index: u32| #[trigger]
        items.dom().contains(index) ==> index < state.next_output_index && has_started(
            state,
            index as nat,
        )
    &&& state.reasoning_started ==> has_item(
        items,
        state.reasoning_output_index,
        state.reasoning_item_id,
        state.reasoning,
        state.reasoning_done,
    )
    &&& state.message_started ==> has_item(
        items,
        state.message_output_index,
        state.message_item_id,
        state.text,
        told,
    )
    &&& !state.message_started ==> state.text.len() == 0
    &&& !state.reasoning_started ==> state.reasoning.len() == 0
    &&& forall|j: int|
        0 <= j < state.calls.len() ==> (#[trigger] call_in_step(items, state.calls[j]))
}

/// Whether the items hold a call as a converter does.
pub open spec fn call_in_step(items: Map<u32, Item>, call: CallState) -> bool {
    if call.started {
        has_item(items, call.output_index, call.item_id, call.arguments, call.done)
    } else {
        &&& !items.dom().contains(call.output_index as u32)
        &&& call.arguments.len() == 0
    }
}

/// Whether a piece of a call brings no arguments once the call is done.
pub open spec fn orderly_piece(
    state: StreamState,
    chunk: ChatCompletionMessageToolCallChunk,
) -> bool {
    delta_arguments(chunk.function) is Some && chunk.index < state.calls.len()
        ==> !state.calls[chunk.index as int].done
}

/// Whether the pieces from position `from` on bring no arguments for calls that are done.
pub open spec fn orderly_pieces(
    run: Emitted,
    chunks: Seq<ChatCompletionMessageToolCallChunk>,
    from: int,
    ids: Seq<Seq<char>>,
    base: nat,
) -> bool
    decreases chunks.len() - from,
{
    0 <= from < chunks.len() ==> {
        &&& orderly_piece(run.state, chunks[from])
        &&& orderly_pieces(
            on_tool_call(run, chunks[from], ids, base),
            chunks,
            from + 1,
            ids,
            base,
        )
    }
}

/// The state with what a choice says of the token limit.
pub open spec fn with_limit(run: Emitted, choice: ChatChoiceStream) -> Emitted {
    if choice.finish_reason == Some(FinishReason::Length) {
        with_state(run, StreamState { output_limit_reached: true, ..run.state })
    } else {
        run
    }
}

/// What a choice brings before its calls: the token limit, reasoning and text.
pub open spec fn said(run: Emitted, choice: ChatChoiceStream) -> Emitted {
    on_text(
        on_reasoning(with_limit(run, choice), choice.delta.reasoning_content),
        delta_text(choice.delta.content),
    )
}

/// Whether a choice brings no arguments for calls that are done.
pub open spec fn orderly_choice(
    run: Emitted,
    choice: ChatChoiceStream,
    ids: Seq<Seq<char>>,
    base: nat,
) -> bool {
    choice.delta.tool_calls matches Some(all) ==> orderly_pieces(
        close_reasoning(said(run, choice), OutputStatus::Completed),
        all@,
        0,
        ids,
        base,
    )
}

/// Whether the choices from position `from` on bring no arguments for calls that are done.
pub open spec fn orderly_choices(
    run: Emitted,
    choices: Seq<ChatChoiceStream>,
    from: int,
    ids: Seq<Seq<char>>,
    base: nat,
) -> bool
    decreases choices.len() - from,
{
    0 <= from < choices.len() ==> {
        &&& orderly_choice(run, choices[from], ids, base)
        &&& orderly_choices(
            on_choice(run, choices[from], ids, base),
            choices,
            from + 1,
            ids,
            base,
        )
    }
}

/// The state with the token counts of a chunk.
pub open spec fn with_counts(
    state: StreamState,
    chunk: NvCreateChatCompletionStreamResponse,
) -> StreamState {
    match chunk.inner.usage {
        Some(usage) => StreamState { usage: Some(usage_of(usage)), ..state },
        None => state,
    }
}

/// Whether a chunk brings no arguments for calls that are done. A finish reason is what ends
/// the calls before the stream does.
pub open spec fn orderly(
    state: StreamState,
    chunk: NvCreateChatCompletionStreamResponse,
    ids: Seq<Seq<char>>,
) -> bool {
    orderly_choices(
        Emitted { state: with_counts(state, chunk), events: seq![] },
        chunk.inner.choices@,
        0,
        ids,
        state.calls.len(),
    )
}

/// Whether a client that starts as `reader` can read what was emitted and is then in step.
spec fn spoken(reader: Reader, run: Emitted) -> bool {
    read_all(reader, run.events) matches Some(after) && in_step(after, run.state)
}

/// The same where the end of the message may have been told.
spec fn spoken_with(reader: Reader, run: Emitted, told: bool) -> bool {
    &&& read_all(reader, run.events) matches Some(after)
    &&& after.next == run.state.sequence_number
    &&& !after.over
    &&& has_items(after.items, run.state, told)
}

/// What such a client has read.
spec fn heard(reader: Reader, run: Emitted) -> Reader {
    read_all(reader, run.events)->0
}

proof fn lemma_emit(reader: Reader, run: Emitted, payload: ResponseEventPayloadView)
    requires
        read_all(reader, run.events) is Some,
        heard(reader, run).next == run.state.sequence_number,
        run.state.sequence_number <= u64::MAX,
        !heard(reader, run).over,
        read_item(heard(reader, run).items, payload) is Some,
    ensures
        read_all(reader, emit(run, payload).events) == Some(
            Reader {
                next: emit(run, payload).state.sequence_number,
                items: read_item(heard(reader, run).items, payload)->0,
                over: is_terminal(payload),
            },
        ),
{
    assert(emit(run, payload).events.drop_last() =~= run.events);
}

/// What has started stays started.
proof fn lemma_started_kept(before: StreamState, after: StreamState)
    requires
        before.reasoning_started ==> after.reasoning_started && after.reasoning_output_index
            == before.reasoning_output_index,
        before.message_started ==> after.message_started && after.message_output_index
            == before.message_output_index,
        before.calls.len() <= after.calls.len(),
        forall|j: int|
            0 <= j < before.calls.len() && (#[trigger] before.calls[j]).started ==> {
                &&& after.calls[j].started
                &&& after.calls[j].output_index == before.calls[j].output_index
            },
    ensures
        forall|index: nat| #[trigger] has_started(before, index) ==> has_started(after, index),
{
    assert forall|index: nat| #[trigger] has_started(before, index) implies has_started(
        after,
        index,
    ) by {
        if exists|j: int| before.is_started_call(j, index) {
            let j = choose|j: int| before.is_started_call(j, index);
            assert(after.is_started_call(j, index));
        }
    }
}

proof fn lemma_open_reasoning(reader: Reader, run: Emitted)
    requires
        spoken(reader, run),
        run.state.wf(),
        !run.state.reasoning_done,
        open_reasoning(run).state.fits(),
    ensures
        spoken(reader, open_reasoning(run)),
{
    let state = run.state;
    if !state.reasoning_started {
        let index = state.next_output_index;
        let opened = with_state(
            run,
            StreamState {
                reasoning_started: true,
                reasoning_output_index: index,
                next_output_index: index + 1,
                ..state
            },
        );
        let after = open_reasoning(run);
        let added = Emitted {
            state: StreamState { sequence_number: state.sequence_number + 1, ..opened.state },
            events: after.events.drop_last(),
        };
        assert(added.events =~= run.events.push(added.events.last()));
        lemma_emit(reader, opened, added.events.last().payload);
        assert(added == emit(opened, added.events.last().payload));
        lemma_emit(reader, added, after.events.last().payload);
        assert(after == emit(added, after.events.last().payload));
        lemma_started_kept(state, after.state);
        let items = heard(reader, after).items;
        assert(has_item(items, index, state.reasoning_item_id, seq![], false));
        assert(state.reasoning =~= seq![]);
        assert forall|j: int| 0 <= j < state.calls.len() implies (#[trigger] call_in_step(
            items,
            after.state.calls[j],
        )) by {
            assert(call_in_step(heard(reader, run).items, state.calls[j]));
        }
    }
}

proof fn lemma_reasoning_spoken(reader: Reader, run: Emitted, text: Option<String>)
    requires
        spoken(reader, run),
        run.state.wf(),
        on_reasoning(run, text).state.fits(),
    ensures
        spoken(reader, on_reasoning(run, text)),
{
    if let Some(delta) = text {
        if delta@.len() > 0 && !run.state.reasoning_done && run.state.params.wants_summary() {
            let opened = open_reasoning(run);
            lemma_open_reasoning(reader, run);
            assert(opened.state.wf());
            lemma_summary_delta(reader, opened, delta@);
        }
    }
}

/// A piece of the summary of an open reasoning item.
proof fn lemma_summary_delta(reader: Reader, run: Emitted, delta: Seq<char>)
    requires
        spoken(reader, run),
        run.state.wf(),
        run.state.reasoning_started,
        !run.state.reasoning_done,
        summary_delta(run, delta).state.fits(),
    ensures
        spoken(reader, summary_delta(run, delta)),
{
    let after = summary_delta(run, delta);
    let told = with_state(
        run,
        StreamState { reasoning: run.state.reasoning + delta, ..run.state },
    );
    lemma_emit(reader, told, after.events.last().payload);
    lemma_started_kept(run.state, after.state);
    let before = heard(reader, run).items;
    let items = heard(reader, after).items;
    assert forall|j: int| 0 <= j < run.state.calls.len() implies (#[trigger] call_in_step(
        items,
        after.state.calls[j],
    )) by {
        assert(call_in_step(before, run.state.calls[j]));
    }
}

/// The text of the items at `index` is as given, and the item is open.
spec fn open_at(
    reader: Reader,
    run: Emitted,
    index: nat,
    id: Seq<char>,
    text: Seq<char>,
) -> bool {
    &&& read_all(reader, run.events) is Some
    &&& heard(reader, run).next == run.state.sequence_number
    &&& !heard(reader, run).over
    &&& has_item(heard(reader, run).items, index, id, text, false)
}

proof fn lemma_emit_same(
    reader: Reader,
    run: Emitted,
    payload: ResponseEventPayloadView,
    index: nat,
    id: Seq<char>,
    text: Seq<char>,
)
    requires
        open_at(reader, run, index, id, text),
        run.state.sequence_number <= u64::MAX,
        read_item(heard(reader, run).items, payload) == Some(heard(reader, run).items),
        !is_terminal(payload),
    ensures
        open_at(reader, emit(run, payload), index, id, text),
        heard(reader, emit(run, payload)).items == heard(reader, run).items,
{
    lemma_emit(reader, run, payload);
}

/// The `done` events of a reasoning item that is cut off or complete.
proof fn lemma_reasoning_ended(reader: Reader, run: Emitted, status: OutputStatus)
    requires
        spoken(reader, run),
        run.state.wf(),
        run.state.reasoning_started,
        !run.state.reasoning_done,
        close_reasoning(run, status).state.fits(),
    ensures
        spoken(reader, close_reasoning(run, status)),
{
    let state = run.state;
    let after = close_reasoning(run, status);
    let closed = with_state(
        run,
        StreamState { reasoning_done: true, reasoning_status: Some(status), ..state },
    );
    let ended = if status == OutputStatus::Incomplete && state.reasoning.len() > 0 {
        summary_delta(closed, "..."@)
    } else {
        closed
    };
    let open_run = if status == OutputStatus::Incomplete && state.reasoning.len() > 0 {
        summary_delta(run, "..."@)
    } else {
        run
    };
    assert(ended.events =~= open_run.events);
    if status == OutputStatus::Incomplete && state.reasoning.len() > 0 {
        lemma_summary_delta(reader, run, "..."@);
    }
    assert(spoken(reader, open_run));
    let index = state.reasoning_output_index;
    let id = state.reasoning_item_id;
    let text = ended.state.reasoning;
    assert(open_at(reader, ended, index, id, text));
    let text_done = ResponseEventPayloadView::ResponseReasoningSummaryTextDone {
        item_id: id,
        output_index: index as u32,
        summary_index: 0,
        text,
    };
    lemma_emit_same(reader, ended, text_done, index, id, text);
    let part_done = ResponseEventPayloadView::ResponseReasoningSummaryPartDone {
        item_id: id,
        output_index: index as u32,
        summary_index: 0,
        part: summary_part(text),
    };
    lemma_emit_same(reader, emit(ended, text_done), part_done, index, id, text);
    let told = emit(emit(ended, text_done), part_done);
    let item_done = ResponseEventPayloadView::ResponseOutputItemDone {
        output_index: index as u32,
        item: ended.state.reasoning_item(status),
    };
    lemma_emit(reader, told, item_done);
    assert(after == emit(told, item_done));
    lemma_started_kept(open_run.state, after.state);
    let before = heard(reader, open_run).items;
    let items = heard(reader, after).items;
    assert forall|j: int| 0 <= j < state.calls.len() implies (#[trigger] call_in_step(
        items,
        after.state.calls[j],
    )) by {
        assert(call_in_step(before, open_run.state.calls[j]));
    }
}

proof fn lemma_reasoning_closed(reader: Reader, run: Emitted, status: OutputStatus)
    requires
        spoken(reader, run),
        run.state.wf(),
        close_reasoning(run, status).state.fits(),
    ensures
        spoken(reader, close_reasoning(run, status)),
{
    let state = run.state;
    if !state.reasoning_done && state.reasoning_started {
        lemma_reasoning_ended(reader, run, status);
    } else {
        lemma_started_kept(state, close_reasoning(run, status).state);
        assert forall|j: int| 0 <= j < state.calls.len() implies (#[trigger] call_in_step(
            heard(reader, run).items,
            close_reasoning(run, status).state.calls[j],
        )) by {
            assert(call_in_step(heard(reader, run).items, state.calls[j]));
        }
    }
}

proof fn lemma_open_message(reader: Reader, run: Emitted)
    requires
        spoken(reader, run),
        run.state.wf(),
        open_message(run).state.fits(),
    ensures
        spoken(reader, open_message(run)),
{
    let state = run.state;
    if !state.message_started {
        let index = state.next_output_index;
        let opened = with_state(
            run,
            StreamState {
                message_started: true,
                message_output_index: index,
                next_output_index: index + 1,
                ..state
            },
        );
        let after = open_message(run);
        let added = Emitted {
            state: StreamState { sequence_number: state.sequence_number + 1, ..opened.state },
            events: after.events.drop_last(),
        };
        assert(added.events =~= run.events.push(added.events.last()));
        lemma_emit(reader, opened, added.events.last().payload);
        assert(added == emit(opened, added.events.last().payload));
        lemma_emit(reader, added, after.events.last().payload);
        assert(after == emit(added, after.events.last().payload));
        lemma_started_kept(state, after.state);
        let items = heard(reader, after).items;
        assert(has_item(items, index, state.message_item_id, seq![], false));
        assert(state.text =~= seq![]);
        assert forall|j: int| 0 <= j < state.calls.len() implies (#[trigger] call_in_step(
            items,
            after.state.calls[j],
        )) by {
            assert(call_in_step(heard(reader, run).items, state.calls[j]));
        }
    }
}

proof fn lemma_text_delta(reader: Reader, run: Emitted, delta: Seq<char>)
    requires
        spoken(reader, run),
        run.state.wf(),
        run.state.message_started,
        run.state.sequence_number < u64::MAX,
    ensures
        ({
            let state = StreamState { text: run.state.text + delta, ..run.state };
            spoken(
                reader,
                emit(
                    with_state(run, state),
                    ResponseEventPayloadView::ResponseOutputTextDelta {
                        item_id: state.message_item_id,
                        output_index: state.message_output_index as u32,
                        content_index: 0,
                        delta,
                        logprobs: Some(seq![]),
                    },
                ),
            )
        }),
{
    let told = with_state(run, StreamState { text: run.state.text + delta, ..run.state });
    let payload = ResponseEventPayloadView::ResponseOutputTextDelta {
        item_id: run.state.message_item_id,
        output_index: run.state.message_output_index as u32,
        content_index: 0,
        delta,
        logprobs: Some(seq![]),
    };
    lemma_emit(reader, told, payload);
    lemma_started_kept(run.state, emit(told, payload).state);
    let before = heard(reader, run).items;
    let items = heard(reader, emit(told, payload)).items;
    assert forall|j: int| 0 <= j < run.state.calls.len() implies (#[trigger] call_in_step(
        items,
        told.state.calls[j],
    )) by {
        assert(call_in_step(before, run.state.calls[j]));
    }
}

proof fn lemma_text_spoken(reader: Reader, run: Emitted, delta: Seq<char>)
    requires
        spoken(reader, run),
        run.state.wf(),
        on_text(run, delta).state.fits(),
    ensures
        spoken(reader, on_text(run, delta)),
        on_text(run, delta).state.wf(),
{
    if delta.len() > 0 {
        let closed = close_reasoning(run, OutputStatus::Completed);
        let opened = open_message(closed);
        lemma_reasoning_closed(reader, run, OutputStatus::Completed);
        assert(closed.state.wf());
        lemma_open_message(reader, closed);
        assert(opened.state.wf());
        lemma_text_delta(reader, opened, delta);
    }
}

/// Reserving and naming a call changes nothing that a client sees.
proof fn lemma_call_named(
    reader: Reader,
    run: Emitted,
    chunk: ChatCompletionMessageToolCallChunk,
    ids: Seq<Seq<char>>,
    base: nat,
)
    requires
        spoken(reader, run),
        run.state.wf(),
        reserve_calls(run.state, (chunk.index + 1) as nat, ids, base).fits(),
    ensures
        ({
            let j = chunk.index as int;
            let reserved = reserve_calls(run.state, (chunk.index + 1) as nat, ids, base);
            let named = with_call(
                reserved,
                j,
                named_call(reserved.calls[j], chunk.id, chunk.function),
            );
            &&& spoken(reader, with_state(run, named))
            &&& named.wf()
            &&& j < named.calls.len()
        }),
{
    let state = run.state;
    let j = chunk.index as int;
    let reserved = reserve_calls(state, (chunk.index + 1) as nat, ids, base);
    lemma_reserve_calls(state, (chunk.index + 1) as nat, ids, base);
    let named = with_call(reserved, j, named_call(reserved.calls[j], chunk.id, chunk.function));
    lemma_started_kept(state, named);
    let items = heard(reader, run).items;
    assert forall|k: int| 0 <= k < named.calls.len() implies (#[trigger] call_in_step(
        items,
        named.calls[k],
    )) by {
        if k < state.calls.len() {
            assert(call_in_step(items, state.calls[k]));
            assert(reserved.calls[k] == state.calls[k]);
        }
    }
}

proof fn lemma_call_announced(reader: Reader, run: Emitted, j: int)
    requires
        spoken(reader, run),
        run.state.wf(),
        0 <= j < run.state.calls.len(),
        !run.state.calls[j].started,
        run.state.sequence_number < u64::MAX,
    ensures
        ({
            let call = run.state.calls[j];
            let state = with_call(run.state, j, CallState { started: true, ..call });
            let announced = emit(
                with_state(run, state),
                ResponseEventPayloadView::ResponseOutputItemAdded {
                    output_index: call.output_index as u32,
                    item: state.call_item(call, seq![], OutputStatus::InProgress),
                },
            );
            &&& spoken(reader, announced)
            &&& announced.state.wf()
        }),
{
    let call = run.state.calls[j];
    let state = with_call(run.state, j, CallState { started: true, ..call });
    let payload = ResponseEventPayloadView::ResponseOutputItemAdded {
        output_index: call.output_index as u32,
        item: state.call_item(call, seq![], OutputStatus::InProgress),
    };
    let announced = emit(with_state(run, state), payload).state;
    lemma_started_kept(run.state, announced);
    assert(announced.is_started_call(j, call.output_index));
    let before = heard(reader, run).items;
    assert(call_in_step(before, call));
    lemma_emit(reader, with_state(run, state), payload);
    let items = heard(reader, emit(with_state(run, state), payload)).items;
    assert(call.arguments =~= seq![]);
    assert forall|k: int| 0 <= k < state.calls.len() implies (#[trigger] call_in_step(
        items,
        state.calls[k],
    )) by {
        assert(call_in_step(before, run.state.calls[k]));
    }
}

proof fn lemma_arguments_told(reader: Reader, run: Emitted, j: int, delta: Seq<char>)
    requires
        spoken(reader, run),
        run.state.wf(),
        0 <= j < run.state.calls.len(),
        run.state.calls[j].started,
        !run.state.calls[j].done,
        run.state.sequence_number < u64::MAX,
    ensures
        ({
            let call = run.state.calls[j];
            let state = with_call(
                run.state,
                j,
                CallState { arguments: call.arguments + delta, ..call },
            );
            spoken(
                reader,
                emit(
                    with_state(run, state),
                    ResponseEventPayloadView::ResponseFunctionCallArgumentsDelta {
                        item_id: call.item_id,
                        output_index: call.output_index as u32,
                        delta,
                    },
                ),
            )
        }),
{
    let call = run.state.calls[j];
    let state = with_call(run.state, j, CallState { arguments: call.arguments + delta, ..call });
    let payload = ResponseEventPayloadView::ResponseFunctionCallArgumentsDelta {
        item_id: call.item_id,
        output_index: call.output_index as u32,
        delta,
    };
    lemma_started_kept(run.state, emit(with_state(run, state), payload).state);
    let before = heard(reader, run).items;
    assert(call_in_step(before, call));
    lemma_emit(reader, with_state(run, state), payload);
    let items = heard(reader, emit(with_state(run, state), payload)).items;
    assert forall|k: int| 0 <= k < state.calls.len() implies (#[trigger] call_in_step(
        items,
        state.calls[k],
    )) by {
        assert(call_in_step(before, run.state.calls[k]));
    }
}

proof fn lemma_arguments_spoken(reader: Reader, run: Emitted, j: int, delta: Seq<char>)
    requires
        spoken(reader, run),
        run.state.wf(),
        0 <= j < run.state.calls.len(),
        !run.state.calls[j].done,
        on_arguments(run, j, delta).state.fits(),
    ensures
        spoken(reader, on_arguments(run, j, delta)),
{
    let call = run.state.calls[j];
    if call.started {
        lemma_arguments_told(reader, run, j, delta);
    } else {
        lemma_call_announced(reader, run, j);
        let state = with_call(run.state, j, CallState { started: true, ..call });
        let announced = emit(
            with_state(run, state),
            ResponseEventPayloadView::ResponseOutputItemAdded {
                output_index: call.output_index as u32,
                item: state.call_item(call, seq![], OutputStatus::InProgress),
            },
        );
        lemma_arguments_told(reader, announced, j, delta);
    }
}

proof fn lemma_tool_call_spoken(
    reader: Reader,
    run: Emitted,
    chunk: ChatCompletionMessageToolCallChunk,
    ids: Seq<Seq<char>>,
    base: nat,
)
    requires
        spoken(reader, run),
        run.state.wf(),
        orderly_piece(run.state, chunk),
        on_tool_call(run, chunk, ids, base).state.fits(),
    ensures
        spoken(reader, on_tool_call(run, chunk, ids, base)),
{
    let j = chunk.index as int;
    let reserved = reserve_calls(run.state, (chunk.index + 1) as nat, ids, base);
    lemma_reserve_calls(run.state, (chunk.index + 1) as nat, ids, base);
    lemma_call_named(reader, run, chunk, ids, base);
    let named = with_call(reserved, j, named_call(reserved.calls[j], chunk.id, chunk.function));
    if let Some(delta) = delta_arguments(chunk.function) {
        assert(!named.calls[j].done) by {
            if j < run.state.calls.len() {
                assert(reserved.calls[j] == run.state.calls[j]);
            }
        }
        lemma_arguments_spoken(reader, with_state(run, named), j, delta@);
    }
}

proof fn lemma_tool_calls_spoken(
    reader: Reader,
    run: Emitted,
    chunks: Seq<ChatCompletionMessageToolCallChunk>,
    from: int,
    ids: Seq<Seq<char>>,
    base: nat,
)
    requires
        0 <= from,
        spoken(reader, run),
        run.state.wf(),
        orderly_pieces(run, chunks, from, ids, base),
        on_tool_calls(run, chunks, from, ids, base).state.fits(),
    ensures
        spoken(reader, on_tool_calls(run, chunks, from, ids, base)),
    decreases chunks.len() - from,
{
    if from < chunks.len() {
        let next = on_tool_call(run, chunks[from], ids, base);
        lemma_tool_calls_grow(next, chunks, from + 1, ids, base);
        lemma_tool_call_wf(run, chunks[from], ids, base);
        lemma_tool_call_spoken(reader, run, chunks[from], ids, base);
        lemma_tool_calls_spoken(reader, next, chunks, from + 1, ids, base);
    }
}

proof fn lemma_call_closed(reader: Reader, run: Emitted, j: int, told: bool)
    requires
        spoken_with(reader, run, told),
        run.state.wf(),
        0 <= j < run.state.calls.len(),
        close_call(run, j).state.fits(),
    ensures
        spoken_with(reader, close_call(run, j), told),
        close_call(run, j).state.wf(),
{
    let call = run.state.calls[j];
    if call.started && !call.done {
        let state = with_call(run.state, j, CallState { done: true, ..call });
        let arguments_done = ResponseEventPayloadView::ResponseFunctionCallArgumentsDone {
            item_id: call.item_id,
            output_index: call.output_index as u32,
            arguments: call.arguments,
            name: Some(
                crate::responses::tools::tool_identity(
                    state.params.tools.deep_view(),
                    call.name,
                ).0,
            ),
        };
        let before = heard(reader, run).items;
        assert(call_in_step(before, call));
        let closed = with_state(run, state);
        lemma_emit(reader, closed, arguments_done);
        let spelled = emit(closed, arguments_done);
        let item_done = ResponseEventPayloadView::ResponseOutputItemDone {
            output_index: call.output_index as u32,
            item: state.call_item(call, call.arguments, state.output_status()),
        };
        lemma_emit(reader, spelled, item_done);
        assert(close_call(run, j) == emit(spelled, item_done));
        lemma_started_kept(run.state, close_call(run, j).state);
        let items = heard(reader, close_call(run, j)).items;
        assert forall|k: int| 0 <= k < state.calls.len() implies (#[trigger] call_in_step(
            items,
            state.calls[k],
        )) by {
            assert(call_in_step(before, run.state.calls[k]));
        }
    }
}

proof fn lemma_calls_closed(reader: Reader, run: Emitted, from: int, told: bool)
    requires
        0 <= from,
        spoken_with(reader, run, told),
        run.state.wf(),
        close_calls(run, from).state.fits(),
    ensures
        spoken_with(reader, close_calls(run, from), told),
        close_calls(run, from).state.calls.len() == run.state.calls.len(),
        forall|j: int|
            from <= j < run.state.calls.len() && (#[trigger] close_calls(
                run,
                from,
            ).state.calls[j]).started ==> close_calls(run, from).state.calls[j].done,
        forall|j: int|
            0 <= j < from && j < run.state.calls.len() ==> #[trigger] close_calls(
                run,
                from,
            ).state.calls[j] == run.state.calls[j],
        ({
            let after = close_calls(run, from).state;
            &&& after == StreamState {
                calls: after.calls,
                sequence_number: after.sequence_number,
                ..run.state
            }
            &&& after.wf()
        }),
    decreases run.state.calls.len() - from,
{
    if from < run.state.calls.len() {
        lemma_close_calls_grow(close_call(run, from), from + 1);
        lemma_call_closed(reader, run, from, told);
        lemma_calls_closed(reader, close_call(run, from), from + 1, told);
    }
}

/// What a choice brings before its calls can always be read.
proof fn lemma_choice_said(
    reader: Reader,
    run: Emitted,
    choice: ChatChoiceStream,
    ids: Seq<Seq<char>>,
    base: nat,
)
    requires
        spoken(reader, run),
        run.state.wf(),
        on_choice(run, choice, ids, base).state.fits(),
    ensures
        spoken(reader, said(run, choice)),
        said(run, choice).state.wf(),
        choice.delta.tool_calls matches Some(all) ==> all@.len() > 0 ==> {
            let closed = close_reasoning(said(run, choice), OutputStatus::Completed);
            &&& spoken(reader, closed)
            &&& closed.state.wf()
            &&& on_tool_calls(closed, all@, 0, ids, base).state.fits()
        },
{
    let limited = with_limit(run, choice);
    let reasoned = on_reasoning(limited, choice.delta.reasoning_content);
    let texted = said(run, choice);
    let called = on_tool_delta(texted, choice.delta.tool_calls, ids, base);
    lemma_tool_delta_grows(texted, choice.delta.tool_calls, ids, base);
    lemma_close_calls_grow(called, 0);
    assert(spoken(reader, limited)) by {
        lemma_started_kept(run.state, limited.state);
        assert forall|j: int| 0 <= j < run.state.calls.len() implies (#[trigger] call_in_step(
            heard(reader, run).items,
            limited.state.calls[j],
        )) by {
            assert(call_in_step(heard(reader, run).items, run.state.calls[j]));
        }
    }
    assert(limited.state.wf());
    lemma_reasoning_spoken(reader, limited, choice.delta.reasoning_content);
    assert(reasoned.state.wf());
    lemma_text_spoken(reader, reasoned, delta_text(choice.delta.content));
    if let Some(all) = choice.delta.tool_calls {
        if all@.len() > 0 {
            let closed = close_reasoning(texted, OutputStatus::Completed);
            lemma_tool_calls_grow(closed, all@, 0, ids, base);
            lemma_reasoning_closed(reader, texted, OutputStatus::Completed);
            assert(closed.state.wf());
        }
    }
}

proof fn lemma_choice_spoken(
    reader: Reader,
    run: Emitted,
    choice: ChatChoiceStream,
    ids: Seq<Seq<char>>,
    base: nat,
)
    requires
        spoken(reader, run),
        run.state.wf(),
        orderly_choice(run, choice, ids, base),
        on_choice(run, choice, ids, base).state.fits(),
    ensures
        spoken(reader, on_choice(run, choice, ids, base)),
{
    let texted = said(run, choice);
    let called = on_tool_delta(texted, choice.delta.tool_calls, ids, base);
    lemma_choice_said(reader, run, choice, ids, base);
    if let Some(all) = choice.delta.tool_calls {
        if all@.len() > 0 {
            let closed = close_reasoning(texted, OutputStatus::Completed);
            lemma_tool_calls_wf(closed, all@, 0, ids, base);
            lemma_tool_calls_spoken(reader, closed, all@, 0, ids, base);
        }
    }
    if choice.finish_reason is Some {
        lemma_calls_closed(reader, called, 0, false);
    }
}

proof fn lemma_choices_spoken(
    reader: Reader,
    run: Emitted,
    choices: Seq<ChatChoiceStream>,
    from: int,
    ids: Seq<Seq<char>>,
    base: nat,
)
    requires
        0 <= from,
        spoken(reader, run),
        run.state.wf(),
        orderly_choices(run, choices, from, ids, base),
        on_choices(run, choices, from, ids, base).state.fits(),
    ensures
        spoken(reader, on_choices(run, choices, from, ids, base)),
    decreases choices.len() - from,
{
    if from < choices.len() {
        let next = on_choice(run, choices[from], ids, base);
        lemma_choices_grow(next, choices, from + 1, ids, base);
        lemma_choice_wf(run, choices[from], ids, base);
        lemma_choice_spoken(reader, run, choices[from], ids, base);
        lemma_choices_spoken(reader, next, choices, from + 1, ids, base);
    }
}

/// A stream starts with two events, numbered 0 and 1, after which a new client is in step.
pub proof fn law_streams_start_in_step(
    model: Seq<char>,
    params: ResponseParams,
    context: Option<ResponsesContext>,
    response_id: Seq<char>,
    message_id: Seq<char>,
    reasoning_id: Seq<char>,
    created_at: u64,
    now: u64,
)
    ensures
        ({
            let state = fresh_state(
                model,
                params,
                context,
                response_id,
                message_id,
                reasoning_id,
                created_at,
            );
            let sent = after_start(state, now);
            &&& sent.events.len() == 2
            &&& sent.events[0].payload is ResponseCreated
            &&& sent.events[1].payload is ResponseInProgress
            &&& read_all(new_reader(), sent.events) matches Some(after) && in_step(
                after,
                sent.state,
            )
        }),
{
    let state = fresh_state(
        model,
        params,
        context,
        response_id,
        message_id,
        reasoning_id,
        created_at,
    );
    let run = Emitted { state, events: seq![] };
    let sent = after_start(state, now);
    let created = emit(run, sent.events[0].payload);
    lemma_emit(new_reader(), run, sent.events[0].payload);
    lemma_emit(new_reader(), created, sent.events[1].payload);
    assert(sent == emit(created, sent.events[1].payload));
}

/// The token counts of a chunk change nothing for a client.
proof fn lemma_counted(
    reader: Reader,
    state: StreamState,
    chunk: NvCreateChatCompletionStreamResponse,
)
    requires
        state.wf(),
        in_step(reader, state),
    ensures
        spoken(reader, Emitted { state: with_counts(state, chunk), events: seq![] }),
        with_counts(state, chunk).wf(),
{
    let counted = with_counts(state, chunk);
    lemma_started_kept(state, counted);
    assert forall|j: int| 0 <= j < counted.calls.len() implies (#[trigger] call_in_step(
        reader.items,
        counted.calls[j],
    )) by {
        assert(call_in_step(reader.items, state.calls[j]));
    }
}

/// A client can read the events of every orderly chunk, and stays in step: events are
/// numbered without a gap, items are announced once, deltas and `done` events are of an open
/// item, and what `done` events carry is what the deltas brought.
pub proof fn law_chunks_are_read_in_order(
    reader: Reader,
    state: StreamState,
    chunk: NvCreateChatCompletionStreamResponse,
    ids: Seq<Seq<char>>,
)
    requires
        state.wf(),
        in_step(reader, state),
        orderly(state, chunk, ids),
        after_chunk(state, chunk, ids).state.fits(),
    ensures
        ({
            let sent = after_chunk(state, chunk, ids);
            read_all(reader, sent.events) matches Some(after) && in_step(after, sent.state)
        }),
{
    let counted = with_counts(state, chunk);
    let run = Emitted { state: counted, events: seq![] };
    lemma_counted(reader, state, chunk);
    lemma_choices_spoken(reader, run, chunk.inner.choices@, 0, ids, state.calls.len());
}

/// Whether a run of events starts with another.
pub open spec fn continues(
    before: Seq<ResponseStreamEventView>,
    after: Seq<ResponseStreamEventView>,
) -> bool {
    before.len() <= after.len() && after.take(before.len() as int) =~= before
}

/// A client that could not read the start of a run cannot read all of it.
proof fn lemma_stays_unread(
    reader: Reader,
    before: Seq<ResponseStreamEventView>,
    after: Seq<ResponseStreamEventView>,
)
    requires
        continues(before, after),
        read_all(reader, before) is None,
    ensures
        read_all(reader, after) is None,
    decreases after.len(),
{
    if before.len() < after.len() {
        assert(after.drop_last().take(before.len() as int) =~= before);
        lemma_stays_unread(reader, before, after.drop_last());
    } else {
        assert(after =~= before);
    }
}

proof fn lemma_tool_calls_continue(
    run: Emitted,
    chunks: Seq<ChatCompletionMessageToolCallChunk>,
    from: int,
    ids: Seq<Seq<char>>,
    base: nat,
)
    ensures
        continues(run.events, on_tool_calls(run, chunks, from, ids, base).events),
    decreases chunks.len() - from,
{
    if 0 <= from < chunks.len() {
        let next = on_tool_call(run, chunks[from], ids, base);
        assert(continues(run.events, next.events));
        lemma_tool_calls_continue(next, chunks, from + 1, ids, base);
        let after = on_tool_calls(next, chunks, from + 1, ids, base).events;
        assert(after.take(run.events.len() as int) =~= after.take(
            next.events.len() as int,
        ).take(run.events.len() as int));
    }
}

proof fn lemma_close_calls_continue(run: Emitted, from: int)
    ensures
        continues(run.events, close_calls(run, from).events),
    decreases run.state.calls.len() - from,
{
    if 0 <= from < run.state.calls.len() {
        let next = close_call(run, from);
        assert(continues(run.events, next.events));
        lemma_close_calls_continue(next, from + 1);
        let after = close_calls(next, from + 1).events;
        assert(after.take(run.events.len() as int) =~= after.take(
            next.events.len() as int,
        ).take(run.events.len() as int));
    }
}

proof fn lemma_choice_continues(
    run: Emitted,
    choice: ChatChoiceStream,
    ids: Seq<Seq<char>>,
    base: nat,
)
    ensures
        continues(run.events, on_choice(run, choice, ids, base).events),
        continues(
            on_tool_delta(said(run, choice), choice.delta.tool_calls, ids, base).events,
            on_choice(run, choice, ids, base).events,
        ),
{
    let texted = said(run, choice);
    let called = on_tool_delta(texted, choice.delta.tool_calls, ids, base);
    let reasoned = on_reasoning(with_limit(run, choice), choice.delta.reasoning_content);
    assert(continues(run.events, reasoned.events));
    assert(continues(reasoned.events, texted.events));
    assert(continues(texted.events, called.events)) by {
        if let Some(all) = choice.delta.tool_calls {
            if all@.len() > 0 {
                let closed = close_reasoning(texted, OutputStatus::Completed);
                assert(continues(texted.events, closed.events));
                lemma_tool_calls_continue(closed, all@, 0, ids, base);
                assert(called.events.take(texted.events.len() as int) =~= called.events.take(
                    closed.events.len() as int,
                ).take(texted.events.len() as int));
            }
        }
    }
    lemma_close_calls_continue(called, 0);
    let after = on_choice(run, choice, ids, base).events;
    assert(continues(called.events, after));
    assert(after.take(texted.events.len() as int) =~= after.take(called.events.len() as int).take(
        texted.events.len() as int,
    ));
    assert(after.take(reasoned.events.len() as int) =~= after.take(
        texted.events.len() as int,
    ).take(reasoned.events.len() as int));
    assert(after.take(run.events.len() as int) =~= after.take(reasoned.events.len() as int).take(
        run.events.len() as int,
    ));
}

proof fn lemma_choices_continue(
    run: Emitted,
    choices: Seq<ChatChoiceStream>,
    from: int,
    ids: Seq<Seq<char>>,
    base: nat,
)
    ensures
        continues(run.events, on_choices(run, choices, from, ids, base).events),
    decreases choices.len() - from,
{
    if 0 <= from < choices.len() {
        let next = on_choice(run, choices[from], ids, base);
        lemma_choice_continues(run, choices[from], ids, base);
        lemma_choices_continue(next, choices, from + 1, ids, base);
        let after = on_choices(next, choices, from + 1, ids, base).events;
        assert(after.take(run.events.len() as int) =~= after.take(
            next.events.len() as int,
        ).take(run.events.len() as int));
    }
}

/// Arguments for a call that is done cannot be read.
proof fn lemma_piece_unread(
    reader: Reader,
    run: Emitted,
    chunk: ChatCompletionMessageToolCallChunk,
    ids: Seq<Seq<char>>,
    base: nat,
)
    requires
        spoken(reader, run),
        run.state.wf(),
        !orderly_piece(run.state, chunk),
    ensures
        read_all(reader, on_tool_call(run, chunk, ids, base).events) is None,
{
    let j = chunk.index as int;
    let call = run.state.calls[j];
    lemma_reserve_calls(run.state, (chunk.index + 1) as nat, ids, base);
    assert(call_in_step(heard(reader, run).items, call));
    let after = on_tool_call(run, chunk, ids, base).events;
    assert(after.drop_last() =~= run.events);
}

proof fn lemma_pieces_unread(
    reader: Reader,
    run: Emitted,
    chunks: Seq<ChatCompletionMessageToolCallChunk>,
    from: int,
    ids: Seq<Seq<char>>,
    base: nat,
)
    requires
        0 <= from,
        spoken(reader, run),
        run.state.wf(),
        !orderly_pieces(run, chunks, from, ids, base),
        on_tool_calls(run, chunks, from, ids, base).state.fits(),
    ensures
        read_all(reader, on_tool_calls(run, chunks, from, ids, base).events) is None,
    decreases chunks.len() - from,
{
    if from < chunks.len() {
        let next = on_tool_call(run, chunks[from], ids, base);
        lemma_tool_calls_grow(next, chunks, from + 1, ids, base);
        if orderly_piece(run.state, chunks[from]) {
            lemma_tool_call_wf(run, chunks[from], ids, base);
            lemma_tool_call_spoken(reader, run, chunks[from], ids, base);
            lemma_pieces_unread(reader, next, chunks, from + 1, ids, base);
        } else {
            lemma_piece_unread(reader, run, chunks[from], ids, base);
            lemma_tool_calls_continue(next, chunks, from + 1, ids, base);
            lemma_stays_unread(
                reader,
                next.events,
                on_tool_calls(next, chunks, from + 1, ids, base).events,
            );
        }
    }
}

proof fn lemma_choices_unread(
    reader: Reader,
    run: Emitted,
    choices: Seq<ChatChoiceStream>,
    from: int,
    ids: Seq<Seq<char>>,
    base: nat,
)
    requires
        0 <= from,
        spoken(reader, run),
        run.state.wf(),
        !orderly_choices(run, choices, from, ids, base),
        on_choices(run, choices, from, ids, base).state.fits(),
    ensures
        read_all(reader, on_choices(run, choices, from, ids, base).events) is None,
    decreases choices.len() - from,
{
    if from < choices.len() {
        let choice = choices[from];
        let next = on_choice(run, choice, ids, base);
        lemma_choices_grow(next, choices, from + 1, ids, base);
        if orderly_choice(run, choice, ids, base) {
            lemma_choice_wf(run, choice, ids, base);
            lemma_choice_spoken(reader, run, choice, ids, base);
            lemma_choices_unread(reader, next, choices, from + 1, ids, base);
        } else {
            let called = on_tool_delta(said(run, choice), choice.delta.tool_calls, ids, base);
            let pieces = choice.delta.tool_calls->0@;
            let closed = close_reasoning(said(run, choice), OutputStatus::Completed);
            lemma_choice_said(reader, run, choice, ids, base);
            assert(pieces.len() > 0);
            lemma_pieces_unread(reader, closed, pieces, 0, ids, base);
            lemma_choice_continues(run, choice, ids, base);
            lemma_stays_unread(reader, called.events, next.events);
            lemma_choices_continue(next, choices, from + 1, ids, base);
            lemma_stays_unread(
                reader,
                next.events,
                on_choices(next, choices, from + 1, ids, base).events,
            );
        }
    }
}

/// A client that is in step cannot read the events of a chunk that is not orderly: arguments
/// for a call that is done are out of place.
pub proof fn law_disorderly_chunks_cannot_be_read(
    reader: Reader,
    state: StreamState,
    chunk: NvCreateChatCompletionStreamResponse,
    ids: Seq<Seq<char>>,
)
    requires
        state.wf(),
        in_step(reader, state),
        !orderly(state, chunk, ids),
        after_chunk(state, chunk, ids).state.fits(),
    ensures
        read_all(reader, after_chunk(state, chunk, ids).events) is None,
{
    let counted = with_counts(state, chunk);
    let run = Emitted { state: counted, events: seq![] };
    lemma_counted(reader, state, chunk);
    lemma_choices_unread(reader, run, chunk.inner.choices@, 0, ids, state.calls.len());
}

/// The `done` events of the message. A client then holds the message as done.
proof fn lemma_message_closed(reader: Reader, run: Emitted)
    requires
        spoken(reader, run),
        run.state.wf(),
        run.state.message_started,
        close_message(run).state.fits(),
    ensures
        read_all(reader, close_message(run).events) == Some(
            Reader {
                next: close_message(run).state.sequence_number,
                items: heard(reader, run).items.insert(
                    run.state.message_output_index as u32,
                    Item { id: run.state.message_item_id, text: run.state.text, done: true },
                ),
                over: false,
            },
        ),
{
    let state = run.state;
    let index = state.message_output_index;
    let id = state.message_item_id;
    let text = state.text;
    let text_done = ResponseEventPayloadView::ResponseOutputTextDone {
        item_id: id,
        output_index: index as u32,
        content_index: 0,
        text,
        logprobs: Some(seq![]),
    };
    lemma_emit_same(reader, run, text_done, index, id, text);
    let part_done = ResponseEventPayloadView::ResponseContentPartDone {
        item_id: id,
        output_index: index as u32,
        content_index: 0,
        part: output_text(text),
    };
    lemma_emit_same(reader, emit(run, text_done), part_done, index, id, text);
    let told = emit(emit(run, text_done), part_done);
    let item_done = ResponseEventPayloadView::ResponseOutputItemDone {
        output_index: index as u32,
        item: state.message_item(state.output_status()),
    };
    lemma_emit(reader, told, item_done);
    assert(close_message(run) == emit(told, item_done));
}

/// The items of a converter do not depend on how far it has numbered its events, nor on
/// whether it has reached the token limit.
pub proof fn lemma_items_kept(items: Map<u32, Item>, before: StreamState, after: StreamState, told: bool)
    requires
        has_items(items, before, told),
        after == (StreamState {
            sequence_number: after.sequence_number,
            output_limit_reached: after.output_limit_reached,
            ..before
        }),
    ensures
        has_items(items, after, told),
{
    assert forall|index: u32| #[trigger] items.dom().contains(index) implies index
        < after.next_output_index && has_started(after, index as nat) by {
        assert(has_started(before, index as nat));
        if exists|j: int| before.is_started_call(j, index as nat) {
            let j = choose|j: int| before.is_started_call(j, index as nat);
            assert(after.is_started_call(j, index as nat));
        }
    }
    assert forall|j: int| 0 <= j < after.calls.len() implies (#[trigger] call_in_step(
        items,
        after.calls[j],
    )) by {
        assert(call_in_step(items, before.calls[j]));
    }
}

/// A client that is in step can read the end of the stream. It then has read one terminal
/// event, the last, and every item that it holds is done.
pub proof fn law_streams_end_in_order(reader: Reader, state: StreamState, now: u64)
    requires
        state.wf(),
        in_step(reader, state),
        after_end(state, now).state.fits(),
    ensures
        read_all(reader, after_end(state, now).events) matches Some(after) && {
            &&& after.over
            &&& has_items(after.items, after_end(state, now).state, true)
            &&& after_end(state, now).state.next_output_index == state.next_output_index
            &&& forall|index: u32| #[trigger]
                after.items.dom().contains(index) ==> after.items[index].done
        },
{
    let run = Emitted { state, events: seq![] };
    let reasoned = close_reasoning(run, state.output_status());
    let messaged = close_message(reasoned);
    let closed = close_calls(messaged, 0);
    lemma_close_calls_grow(messaged, 0);
    assert(spoken(reader, run));
    lemma_reasoning_closed(reader, run, state.output_status());
    assert(reasoned.state.wf());
    assert(spoken_with(reader, messaged, true)) by {
        lemma_started_kept(reasoned.state, messaged.state);
        let before = heard(reader, reasoned).items;
        if state.message_started {
            lemma_message_closed(reader, reasoned);
        }
        let items = heard(reader, messaged).items;
        assert forall|j: int| 0 <= j < messaged.state.calls.len() implies (
        #[trigger] call_in_step(items, messaged.state.calls[j])) by {
            assert(call_in_step(before, reasoned.state.calls[j]));
        }
    }
    assert(messaged.state.wf());
    lemma_calls_closed(reader, messaged, 0, true);
    let after = after_end(state, now);
    lemma_emit(reader, closed, after.events.last().payload);
    assert(after == emit(closed, after.events.last().payload));
    let items = heard(reader, after).items;
    lemma_items_kept(items, closed.state, after.state, true);
    assert forall|index: u32| #[trigger] items.dom().contains(index) implies items[index].done by {
        assert(has_started(closed.state, index as nat));
        if exists|j: int| closed.state.is_started_call(j, index as nat) {
            let j = choose|j: int| closed.state.is_started_call(j, index as nat);
            assert(call_in_step(items, closed.state.calls[j]));
        }
    }
}

/// A client that is in step can read the end of a stream on an error. It then has read one
/// terminal event, the last: `response.failed`, unless the error is a truncation, which ends
/// the stream with `response.incomplete` as the token limit does.
pub proof fn law_errors_end_in_order(
    reader: Reader,
    state: StreamState,
    error: Option<BackendError>,
    now: u64,
)
    requires
        state.wf(),
        in_step(reader, state),
        after_error(state, error, now).state.fits(),
    ensures
        read_all(reader, after_error(state, error, now).events) matches Some(after) && {
            &&& after.over
            &&& has_items(
                after.items,
                after_error(state, error, now).state,
                is_truncation_error(error),
            )
        },
        after_error(state, error, now).events.last().payload is ResponseIncomplete
            == is_truncation_error(error),
        after_error(state, error, now).events.last().payload is ResponseFailed
            == !is_truncation_error(error),
{
    if is_truncation_error(error) {
        let cut = StreamState { output_limit_reached: true, ..state };
        lemma_started_kept(state, cut);
        assert forall|j: int| 0 <= j < cut.calls.len() implies (#[trigger] call_in_step(
            reader.items,
            cut.calls[j],
        )) by {
            assert(call_in_step(reader.items, state.calls[j]));
        }
        law_streams_end_in_order(reader, cut, now);
    } else {
        let run = Emitted { state, events: seq![] };
        let after = after_error(state, error, now);
        lemma_emit(reader, run, after.events.last().payload);
        assert(after == emit(run, after.events.last().payload));
        lemma_items_kept(reader.items, state, after.state, false);
    }
}

} // verus!
